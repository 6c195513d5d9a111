//! The wire codec: length-prefixed binary frames carrying messages.
//!
//! Frame layout, all multi-byte integers little-endian:
//! `[u32 frame_length] [u32 message_tag] [variant payload]`, where
//! `frame_length` counts everything after the length field itself.
//! A signal payload is `[u64 name_len][name bytes][u32 data_tag][data]`;
//! a subscription payload is `[u64 name_len][name bytes]`.
//! Each topic character travels as one byte (its low eight bits).

use vstd::bytes::*;
use vstd::prelude::*;
use vstd::slice::*;

use crate::message::Data;
use crate::message::Message;
use crate::message::MessageView;

verus! {

/// Why a frame was rejected: an unknown message tag, an unknown data tag,
/// or a frame body too short for the fields it must hold.
#[derive(Clone, Copy, Debug, PartialEq, Eq, Structural)]
pub enum DecodeError {
    UnknownMessageTag(u32),
    UnknownDataTag(u32),
    TruncatedBody,
}

/// The low eight bits of a character, as it travels on the wire.
pub open spec fn byte_of_char(c: char) -> u8 {
    c as u8
}

/// The character read back from one wire byte.
pub open spec fn char_of_byte(b: u8) -> char {
    b as char
}

/// A topic name as its on-wire bytes, one per character.
pub open spec fn name_bytes(name: Seq<char>) -> Seq<u8> {
    name.map_values(|c: char| byte_of_char(c))
}

/// The characters read back from on-wire name bytes.
pub open spec fn chars_of_bytes(bytes: Seq<u8>) -> Seq<char> {
    bytes.map_values(|b: u8| char_of_byte(b))
}

/// The tag under which a scalar payload is encoded.
pub open spec fn data_tag(d: Data) -> u32 {
    match d {
        Data::Integer(_) => 0u32,
        Data::Float(_) => 1u32,
        Data::Bool(_) => 2u32,
    }
}

/// The encoded bytes of a scalar payload.
pub open spec fn data_payload(d: Data) -> Seq<u8> {
    match d {
        Data::Integer(v) => spec_u64_to_le_bytes(v as u64),
        Data::Float(bits) => spec_u64_to_le_bytes(bits),
        Data::Bool(b) => seq![if b { 1u8 } else { 0u8 }],
    }
}

/// The topic name a message speaks of.
pub open spec fn topic_of(m: MessageView) -> Seq<char> {
    match m {
        MessageView::Signal(name, _) => name,
        MessageView::Subscription(name) => name,
    }
}

/// The machine bound under which a message can be framed: its body
/// length must fit the 32-bit length prefix.
pub open spec fn encodable(m: MessageView) -> bool {
    topic_of(m).len() + 24 <= u32::MAX
}

/// A character whose code point fits in one wire byte.
pub open spec fn char_fits_byte(c: char) -> bool {
    (c as u32) < 256
}

/// Every character of the name fits in one byte, so the wire encoding
/// loses nothing.
pub open spec fn single_byte_chars(name: Seq<char>) -> bool {
    forall|i: int| 0 <= i < name.len() ==> char_fits_byte(#[trigger] name[i])
}

/// The frame body: message tag, then the variant's fields.
pub open spec fn body_bytes(m: MessageView) -> Seq<u8> {
    match m {
        MessageView::Signal(name, d) => spec_u32_to_le_bytes(0u32) + spec_u64_to_le_bytes(
            name.len() as u64,
        ) + name_bytes(name) + spec_u32_to_le_bytes(data_tag(d)) + data_payload(d),
        MessageView::Subscription(name) => spec_u32_to_le_bytes(1u32) + spec_u64_to_le_bytes(
            name.len() as u64,
        ) + name_bytes(name),
    }
}

/// The whole frame: the body's length, then the body.
pub open spec fn frame_bytes(m: MessageView) -> Seq<u8> {
    spec_u32_to_le_bytes(body_bytes(m).len() as u32) + body_bytes(m)
}

/// What one decode attempt on a buffer yields: nothing yet, a protocol
/// violation, or one parsed message.
pub enum ParseResult {
    NeedMore,
    Bad(DecodeError),
    Frame(MessageView),
}

/// The scalar parsed from a data tag and the bytes after it.
pub open spec fn parse_data(tag: u32, payload: Seq<u8>) -> Result<Data, DecodeError> {
    if tag == 0 {
        if payload.len() >= 8 {
            Ok(Data::Integer(spec_u64_from_le_bytes(payload.subrange(0, 8)) as i64))
        } else {
            Err(DecodeError::TruncatedBody)
        }
    } else if tag == 1 {
        if payload.len() >= 8 {
            Ok(Data::Float(spec_u64_from_le_bytes(payload.subrange(0, 8))))
        } else {
            Err(DecodeError::TruncatedBody)
        }
    } else if tag == 2 {
        if payload.len() >= 1 {
            Ok(Data::Bool(payload[0] != 0))
        } else {
            Err(DecodeError::TruncatedBody)
        }
    } else {
        Err(DecodeError::UnknownDataTag(tag))
    }
}

/// The message parsed from one isolated frame body.
pub open spec fn parse_body(body: Seq<u8>) -> Result<MessageView, DecodeError> {
    if body.len() < 4 {
        Err(DecodeError::TruncatedBody)
    } else {
        let tag = spec_u32_from_le_bytes(body.subrange(0, 4));
        if tag == 0 || tag == 1 {
            if body.len() < 12 {
                Err(DecodeError::TruncatedBody)
            } else {
                let name_len = spec_u64_from_le_bytes(body.subrange(4, 12)) as int;
                if body.len() - 12 < name_len {
                    Err(DecodeError::TruncatedBody)
                } else {
                    let name = chars_of_bytes(body.subrange(12, 12 + name_len));
                    if tag == 1 {
                        Ok(MessageView::Subscription(name))
                    } else {
                        if body.len() - 12 - name_len < 4 {
                            Err(DecodeError::TruncatedBody)
                        } else {
                            let dtag = spec_u32_from_le_bytes(
                                body.subrange(12 + name_len, 16 + name_len),
                            );
                            match parse_data(dtag, body.subrange(16 + name_len, body.len() as int)) {
                                Ok(d) => Ok(MessageView::Signal(name, d)),
                                Err(e) => Err(e),
                            }
                        }
                    }
                }
            }
        } else {
            Err(DecodeError::UnknownMessageTag(tag))
        }
    }
}

/// The length prefix of the buffer's first frame.
pub open spec fn spec_frame_len(buf: Seq<u8>) -> int
    recommends
        buf.len() >= 4,
{
    spec_u32_from_le_bytes(buf.subrange(0, 4)) as int
}

/// How many buffered bytes one completed decode attempt consumes.
pub open spec fn spec_consumed(buf: Seq<u8>) -> int
    recommends
        buf.len() >= 4,
{
    4 + spec_frame_len(buf)
}

/// One streaming decode step on the whole buffered input.
pub open spec fn parse_frame(buf: Seq<u8>) -> ParseResult {
    if buf.len() < 4 {
        ParseResult::NeedMore
    } else {
        let flen = spec_frame_len(buf);
        if buf.len() - 4 < flen {
            ParseResult::NeedMore
        } else {
            match parse_body(buf.subrange(4, 4 + flen)) {
                Ok(m) => ParseResult::Frame(m),
                Err(e) => ParseResult::Bad(e),
            }
        }
    }
}

/// The streaming codec. It holds no state of its own: the caller owns the
/// accumulation buffer that partial frames wait in.
pub struct MessageCodec {}

impl MessageCodec {
    /// A fresh codec.
    pub fn new() -> (codec: MessageCodec) {
        MessageCodec {}
    }
}

/// Appends a copy of `src` to `dst`.
fn push_byte_vec(dst: &mut Vec<u8>, src: &Vec<u8>)
    ensures
        final(dst)@ == old(dst)@ + src@,
{
    let n: usize = src.len();
    let mut i: usize = 0;
    while i < n
        invariant
            n == src@.len(),
            i <= n,
            dst@ == old(dst)@ + src@.subrange(0, i as int),
        decreases n - i,
    {
        dst.push(src[i]);
        i = i + 1;
        proof {
            assert(old(dst)@ + src@.subrange(0, i as int) =~= (old(dst)@ + src@.subrange(
                0,
                i - 1,
            )).push(src@[i - 1]));
        }
    }
    proof {
        assert(src@.subrange(0, n as int) =~= src@);
    }
}

/// Appends a topic name's wire bytes to `dst`, one byte per character.
fn push_name_bytes(dst: &mut Vec<u8>, name: &str)
    ensures
        final(dst)@ == old(dst)@ + name_bytes(name@),
{
    let n: usize = name.unicode_len();
    let mut i: usize = 0;
    while i < n
        invariant
            n == name@.len(),
            i <= n,
            dst@ == old(dst)@ + name_bytes(name@.subrange(0, i as int)),
        decreases n - i,
    {
        let c: char = name.get_char(i);
        let b: u8 = #[verifier::truncate] (c as u8);
        dst.push(b);
        i = i + 1;
        proof {
            assert(name_bytes(name@.subrange(0, i as int)) =~= name_bytes(
                name@.subrange(0, i - 1),
            ).push(byte_of_char(name@[i - 1])));
        }
    }
    proof {
        assert(name@.subrange(0, n as int) =~= name@);
    }
}

/// The frame body's length in bytes, the value written as the frame's
/// length prefix.
pub fn get_length(item: &Message) -> (len: u32)
    requires
        encodable(item@),
    ensures
        len == body_bytes(item@).len(),
{
    proof {
        lemma_auto_spec_u32_to_from_le_bytes();
        lemma_auto_spec_u64_to_from_le_bytes();
    }
    let length: u32 = match item {
        Message::Signal(name, data) => {
            8 + (name.as_str().unicode_len() as u32) + 4 + match data {
                Data::Integer(_) => 8,
                Data::Float(_) => 8,
                Data::Bool(_) => 1,
            }
        },
        Message::Subscription(name) => 8 + (name.as_str().unicode_len() as u32),
    };
    length + 4
}

impl MessageCodec {
    /// Encodes one message as a frame appended to `dst`.
    pub fn encode(&mut self, item: Message, dst: &mut Vec<u8>)
        requires
            encodable(item@),
        ensures
            final(dst)@ == old(dst)@ + frame_bytes(item@),
    {
        proof {
            lemma_auto_spec_u32_to_from_le_bytes();
            lemma_auto_spec_u64_to_from_le_bytes();
        }
        let len: u32 = get_length(&item);
        let len_bytes: Vec<u8> = u32_to_le_bytes(len);
        push_byte_vec(dst, &len_bytes);
        match &item {
            Message::Signal(name, data) => {
                let tag_bytes: Vec<u8> = u32_to_le_bytes(0);
                push_byte_vec(dst, &tag_bytes);
                let name_len: u64 = name.as_str().unicode_len() as u64;
                let name_len_bytes: Vec<u8> = u64_to_le_bytes(name_len);
                push_byte_vec(dst, &name_len_bytes);
                push_name_bytes(dst, name.as_str());
                match data {
                    Data::Integer(v) => {
                        let dtag_bytes: Vec<u8> = u32_to_le_bytes(0);
                        push_byte_vec(dst, &dtag_bytes);
                        let payload: Vec<u8> = u64_to_le_bytes(
                            #[verifier::truncate] (*v as u64),
                        );
                        push_byte_vec(dst, &payload);
                    },
                    Data::Float(bits) => {
                        let dtag_bytes: Vec<u8> = u32_to_le_bytes(1);
                        push_byte_vec(dst, &dtag_bytes);
                        let payload: Vec<u8> = u64_to_le_bytes(*bits);
                        push_byte_vec(dst, &payload);
                    },
                    Data::Bool(b) => {
                        let dtag_bytes: Vec<u8> = u32_to_le_bytes(2);
                        push_byte_vec(dst, &dtag_bytes);
                        dst.push(if *b {
                            1
                        } else {
                            0
                        });
                    },
                }
            },
            Message::Subscription(name) => {
                let tag_bytes: Vec<u8> = u32_to_le_bytes(1);
                push_byte_vec(dst, &tag_bytes);
                let name_len: u64 = name.as_str().unicode_len() as u64;
                let name_len_bytes: Vec<u8> = u64_to_le_bytes(name_len);
                push_byte_vec(dst, &name_len_bytes);
                push_name_bytes(dst, name.as_str());
            },
        }
        proof {
            assert(dst@ =~= old(dst)@ + frame_bytes(item@));
        }
    }
}

/// Relies on `String::push`: appends exactly the given character.
#[verifier::external_body]
fn push_char(s: &mut String, c: char)
    ensures
        final(s)@ == old(s)@.push(c),
{
    s.push(c);
}

/// Parses one isolated frame body, already cut to its declared length.
fn decode_body(body: &Vec<u8>) -> (r: Result<Message, DecodeError>)
    ensures
        match (r, parse_body(body@)) {
            (Ok(m), Ok(mv)) => m@ == mv,
            (Err(e1), Err(e2)) => e1 == e2,
            _ => false,
        },
{
    proof {
        lemma_auto_spec_u32_to_from_le_bytes();
        lemma_auto_spec_u64_to_from_le_bytes();
    }
    let n: usize = body.len();
    if n < 4 {
        return Err(DecodeError::TruncatedBody);
    }
    let tag: u32 = u32_from_le_bytes(slice_subrange(body.as_slice(), 0, 4));
    if tag == 0 || tag == 1 {
        if n < 12 {
            return Err(DecodeError::TruncatedBody);
        }
        let name_len_u64: u64 = u64_from_le_bytes(slice_subrange(body.as_slice(), 4, 12));
        if name_len_u64 > (n - 12) as u64 {
            return Err(DecodeError::TruncatedBody);
        }
        let name_len: usize = name_len_u64 as usize;
        let mut name: String = String::new();
        let mut i: usize = 0;
        while i < name_len
            invariant
                n == body@.len(),
                12 + name_len <= n,
                i <= name_len,
                name@ == chars_of_bytes(body@.subrange(12, 12 + i as int)),
            decreases name_len - i,
        {
            let b: u8 = body[12 + i];
            push_char(&mut name, b as char);
            i = i + 1;
            proof {
                assert(chars_of_bytes(body@.subrange(12, 12 + i as int)) =~= chars_of_bytes(
                    body@.subrange(12, 12 + i - 1),
                ).push(char_of_byte(body@[12 + i - 1])));
            }
        }
        proof {
            assert(name@ == chars_of_bytes(body@.subrange(12, 12 + name_len as int)));
        }
        if tag == 1 {
            return Ok(Message::Subscription(name));
        }
        if n - 12 - name_len < 4 {
            return Err(DecodeError::TruncatedBody);
        }
        let dtag: u32 = u32_from_le_bytes(
            slice_subrange(body.as_slice(), 12 + name_len, 16 + name_len),
        );
        let payload_start: usize = 16 + name_len;
        if dtag == 0 {
            if n - payload_start < 8 {
                return Err(DecodeError::TruncatedBody);
            }
            let bits: u64 = u64_from_le_bytes(
                slice_subrange(body.as_slice(), payload_start, payload_start + 8),
            );
            proof {
                assert(body@.subrange(16 + name_len as int, body@.len() as int).subrange(0, 8)
                    =~= body@.subrange(payload_start as int, payload_start + 8));
            }
            let v: i64 = #[verifier::truncate] (bits as i64);
            Ok(Message::Signal(name, Data::Integer(v)))
        } else if dtag == 1 {
            if n - payload_start < 8 {
                return Err(DecodeError::TruncatedBody);
            }
            let bits: u64 = u64_from_le_bytes(
                slice_subrange(body.as_slice(), payload_start, payload_start + 8),
            );
            proof {
                assert(body@.subrange(16 + name_len as int, body@.len() as int).subrange(0, 8)
                    =~= body@.subrange(payload_start as int, payload_start + 8));
            }
            Ok(Message::Signal(name, Data::Float(bits)))
        } else if dtag == 2 {
            if n - payload_start < 1 {
                return Err(DecodeError::TruncatedBody);
            }
            let b: u8 = body[payload_start];
            proof {
                assert(body@.subrange(16 + name_len as int, body@.len() as int)[0] == body@[16
                    + name_len as int]);
            }
            Ok(Message::Signal(name, Data::Bool(b != 0)))
        } else {
            Err(DecodeError::UnknownDataTag(dtag))
        }
    } else {
        Err(DecodeError::UnknownMessageTag(tag))
    }
}

impl MessageCodec {
    /// One streaming decode step on the buffered input.
    ///
    /// Returns `Ok(None)` and leaves the buffer untouched while no whole
    /// frame has arrived; returns the first buffered message, or the
    /// protocol violation that its frame holds, consuming the length
    /// prefix and exactly the announced frame body either way.
    pub fn decode(&mut self, src: &mut Vec<u8>) -> (r: Result<Option<Message>, DecodeError>)
        ensures
            match parse_frame(old(src)@) {
                ParseResult::NeedMore => r == Ok::<Option<Message>, DecodeError>(None)
                    && final(src)@ == old(src)@,
                ParseResult::Bad(e) => r == Err::<Option<Message>, DecodeError>(e) && final(src)@
                    == old(src)@.skip(spec_consumed(old(src)@)),
                ParseResult::Frame(mv) => (match r {
                    Ok(Some(m)) => m@ == mv,
                    _ => false,
                }) && final(src)@ == old(src)@.skip(spec_consumed(old(src)@)),
            },
    {
        proof {
            lemma_auto_spec_u32_to_from_le_bytes();
        }
        if src.len() < 4 {
            return Ok(None);
        }
        let flen_u32: u32 = u32_from_le_bytes(slice_subrange(src.as_slice(), 0, 4));
        let flen: usize = flen_u32 as usize;
        if src.len() - 4 < flen {
            return Ok(None);
        }
        let body: Vec<u8> = slice_to_vec(slice_subrange(src.as_slice(), 4, 4 + flen));
        let rest: Vec<u8> = slice_to_vec(slice_subrange(src.as_slice(), 4 + flen, src.len()));
        proof {
            assert(rest@ =~= old(src)@.skip(spec_consumed(old(src)@)));
        }
        *src = rest;
        match decode_body(&body) {
            Ok(m) => Ok(Some(m)),
            Err(e) => Err(e),
        }
    }
}

/// A character that fits one wire byte survives the trip through it.
pub proof fn lemma_char_byte_round_trip(c: char)
    requires
        char_fits_byte(c),
    ensures
        char_of_byte(byte_of_char(c)) == c,
{
}

/// A name of single-byte characters survives the trip through its wire
/// bytes.
pub proof fn lemma_name_round_trip(name: Seq<char>)
    requires
        single_byte_chars(name),
    ensures
        chars_of_bytes(name_bytes(name)) == name,
{
    assert forall|i: int| 0 <= i < name.len() implies chars_of_bytes(name_bytes(name))[i]
        == name[i] by {
        lemma_char_byte_round_trip(name[i]);
    }
    assert(chars_of_bytes(name_bytes(name)) =~= name);
}

/// A 64-bit signed value survives the trip through its unsigned bit
/// pattern.
proof fn lemma_i64_bits_round_trip(v: i64)
    ensures
        (v as u64) as i64 == v,
{
    assert((v as u64) as i64 == v) by (bit_vector);
}

/// An encoded frame body parses back to the message it came from.
pub proof fn lemma_body_round_trip(m: MessageView)
    requires
        encodable(m),
        single_byte_chars(topic_of(m)),
    ensures
        parse_body(body_bytes(m)) == Ok::<MessageView, DecodeError>(m),
{
    lemma_auto_spec_u32_to_from_le_bytes();
    lemma_auto_spec_u64_to_from_le_bytes();
    let body = body_bytes(m);
    match m {
        MessageView::Signal(name, d) => {
            let nl = name.len() as int;
            assert(body.len() == 16 + nl + data_payload(d).len());
            assert(body.subrange(0, 4) =~= spec_u32_to_le_bytes(0u32));
            assert(body.subrange(4, 12) =~= spec_u64_to_le_bytes(name.len() as u64));
            assert(spec_u64_from_le_bytes(body.subrange(4, 12)) == name.len() as u64);
            assert(body.subrange(12, 12 + nl) =~= name_bytes(name));
            lemma_name_round_trip(name);
            assert(body.subrange(12 + nl, 16 + nl) =~= spec_u32_to_le_bytes(data_tag(d)));
            assert(body.subrange(16 + nl, body.len() as int) =~= data_payload(d));
            match d {
                Data::Integer(v) => {
                    assert(data_payload(d).subrange(0, 8) =~= data_payload(d));
                    lemma_i64_bits_round_trip(v);
                },
                Data::Float(bits) => {
                    assert(data_payload(d).subrange(0, 8) =~= data_payload(d));
                },
                Data::Bool(b) => {
                    assert(data_payload(d)[0] == if b {
                        1u8
                    } else {
                        0u8
                    });
                },
            }
        },
        MessageView::Subscription(name) => {
            let nl = name.len() as int;
            assert(body.len() == 12 + nl);
            assert(body.subrange(0, 4) =~= spec_u32_to_le_bytes(1u32));
            assert(body.subrange(4, 12) =~= spec_u64_to_le_bytes(name.len() as u64));
            assert(spec_u64_from_le_bytes(body.subrange(4, 12)) == name.len() as u64);
            assert(body.subrange(12, 12 + nl) =~= name_bytes(name));
            lemma_name_round_trip(name);
        },
    }
}

/// A whole encoded frame, followed by any later bytes, decodes to the
/// message it came from and consumes exactly the frame.
pub proof fn lemma_frame_then_tail(m: MessageView, tail: Seq<u8>)
    requires
        encodable(m),
        single_byte_chars(topic_of(m)),
    ensures
        parse_frame(frame_bytes(m) + tail) == ParseResult::Frame(m),
        spec_consumed(frame_bytes(m) + tail) == frame_bytes(m).len(),
{
    lemma_auto_spec_u32_to_from_le_bytes();
    lemma_auto_spec_u64_to_from_le_bytes();
    let body = body_bytes(m);
    let buf = frame_bytes(m) + tail;
    assert(body.len() <= u32::MAX);
    assert(buf.subrange(0, 4) =~= spec_u32_to_le_bytes(body.len() as u32));
    assert(spec_frame_len(buf) == body.len());
    assert(buf.subrange(4, 4 + body.len() as int) =~= body);
    lemma_body_round_trip(m);
}

/// Round trip: an encoded frame alone decodes back to its message.
pub proof fn lemma_round_trip(m: MessageView)
    requires
        encodable(m),
        single_byte_chars(topic_of(m)),
    ensures
        parse_frame(frame_bytes(m)) == ParseResult::Frame(m),
{
    lemma_frame_then_tail(m, Seq::<u8>::empty());
    assert(frame_bytes(m) + Seq::<u8>::empty() =~= frame_bytes(m));
}

/// No partial consumption: any strict prefix of an encoded frame decodes
/// to nothing and asks for more input.
pub proof fn lemma_partial_frame_needs_more(m: MessageView, n: int)
    requires
        encodable(m),
        0 <= n < frame_bytes(m).len(),
    ensures
        parse_frame(frame_bytes(m).take(n)) == ParseResult::NeedMore,
{
    lemma_auto_spec_u32_to_from_le_bytes();
    lemma_auto_spec_u64_to_from_le_bytes();
    let body = body_bytes(m);
    let p = frame_bytes(m).take(n);
    if n >= 4 {
        assert(p.subrange(0, 4) =~= spec_u32_to_le_bytes(body.len() as u32));
        assert(spec_frame_len(p) == body.len());
        assert(p.len() - 4 < body.len());
    }
}

} // verus!
