use signal_relay::Data;
use signal_relay::DecodeError;
use signal_relay::Message;
use signal_relay::MessageCodec;
use signal_relay::get_length;

#[test]
fn test_encode_signal_integer() {
    let signal = Message::Signal("".to_string(), Data::Integer(11));

    let mut codec = MessageCodec::new();
    let mut bytes: Vec<u8> = Vec::new();

    codec.encode(signal.clone(), &mut bytes);

    let back = codec.decode(&mut bytes).unwrap().unwrap();

    assert_eq!(signal, back);
}

#[test]
fn test_encode_signal_float() {
    let signal = Message::Signal("".to_string(), Data::Float((11.0f64).to_bits()));

    let mut codec = MessageCodec::new();
    let mut bytes: Vec<u8> = Vec::new();

    codec.encode(signal.clone(), &mut bytes);

    let back = codec.decode(&mut bytes).unwrap().unwrap();

    assert_eq!(signal, back);
}

#[test]
fn test_encode_signal_bool() {
    let signal = Message::Signal("".to_string(), Data::Bool(false));

    let mut codec = MessageCodec::new();
    let mut bytes: Vec<u8> = Vec::new();

    codec.encode(signal.clone(), &mut bytes);

    let back = codec.decode(&mut bytes).unwrap().unwrap();

    assert_eq!(signal, back);
}

#[test]
fn subscription_round_trip() {
    let msg = Message::Subscription("hi".to_string());

    let mut codec = MessageCodec::new();
    let mut bytes: Vec<u8> = Vec::new();

    codec.encode(msg.clone(), &mut bytes);

    let back = codec.decode(&mut bytes).unwrap().unwrap();

    assert_eq!(msg, back);
    assert!(bytes.is_empty());
}

#[test]
fn exact_frame_layout() {
    // Signal("A", Bool(true)): body = tag(4) + name_len(8) + name(1)
    // + data_tag(4) + payload(1) = 18 bytes.
    let msg = Message::Signal("A".to_string(), Data::Bool(true));

    let mut codec = MessageCodec::new();
    let mut bytes: Vec<u8> = Vec::new();
    codec.encode(msg, &mut bytes);

    let expected: Vec<u8> = vec![
        18, 0, 0, 0, // frame length
        0, 0, 0, 0, // message tag: signal
        1, 0, 0, 0, 0, 0, 0, 0, // name length
        65, // "A"
        2, 0, 0, 0, // data tag: bool
        1, // true
    ];
    assert_eq!(bytes, expected);
}

#[test]
fn exact_get_length() {
    // Signal("hi", Integer(1)): 4 + 8 + 2 + 4 + 8 = 26 body bytes.
    let msg = Message::Signal("hi".to_string(), Data::Integer(1));
    assert_eq!(get_length(&msg), 26);
    // Subscription("hi"): 4 + 8 + 2 = 14 body bytes.
    let sub = Message::Subscription("hi".to_string());
    assert_eq!(get_length(&sub), 14);
}

#[test]
fn byte_at_a_time_yields_nothing_until_last() {
    let msg = Message::Signal("hi".to_string(), Data::Integer(-7));

    let mut codec = MessageCodec::new();
    let mut frame: Vec<u8> = Vec::new();
    codec.encode(msg.clone(), &mut frame);

    let mut buffer: Vec<u8> = Vec::new();
    let last: usize = frame.len() - 1;
    for (i, b) in frame.iter().enumerate() {
        buffer.push(*b);
        let step = codec.decode(&mut buffer).unwrap();
        if i < last {
            assert!(step.is_none());
        } else {
            assert_eq!(step.unwrap(), msg);
        }
    }
    assert!(buffer.is_empty());
}

#[test]
fn whole_frame_plus_partial_leaves_partial_untouched() {
    let first = Message::Signal("hi".to_string(), Data::Bool(true));
    let second = Message::Signal("bye".to_string(), Data::Integer(3));

    let mut codec = MessageCodec::new();
    let mut first_frame: Vec<u8> = Vec::new();
    codec.encode(first.clone(), &mut first_frame);
    let mut second_frame: Vec<u8> = Vec::new();
    codec.encode(second, &mut second_frame);

    // The whole first frame, then only part of the second.
    let partial: Vec<u8> = second_frame[..second_frame.len() - 1].to_vec();
    let mut buffer: Vec<u8> = first_frame;
    buffer.extend_from_slice(&partial);

    let got = codec.decode(&mut buffer).unwrap().unwrap();
    assert_eq!(got, first);
    assert_eq!(buffer, partial);

    let again = codec.decode(&mut buffer).unwrap();
    assert!(again.is_none());
    assert_eq!(buffer, partial);
}

#[test]
fn two_subscription_frames_on_one_connection() {
    // Both names must come out of the isolated frame bodies: a decoder
    // that consumed the second name length from the outer buffer would
    // desynchronize on the second frame.
    let first = Message::Subscription("hi".to_string());
    let second = Message::Subscription("bye".to_string());

    let mut codec = MessageCodec::new();
    let mut buffer: Vec<u8> = Vec::new();
    codec.encode(first.clone(), &mut buffer);
    codec.encode(second.clone(), &mut buffer);

    let got_first = codec.decode(&mut buffer).unwrap().unwrap();
    let got_second = codec.decode(&mut buffer).unwrap().unwrap();
    assert_eq!(got_first, first);
    assert_eq!(got_second, second);
    assert!(buffer.is_empty());
}

#[test]
fn unknown_message_tag_is_an_error() {
    let mut buffer: Vec<u8> = vec![
        4, 0, 0, 0, // frame length
        7, 0, 0, 0, // no such message tag
    ];
    let mut codec = MessageCodec::new();
    let err = codec.decode(&mut buffer).unwrap_err();
    assert_eq!(err, DecodeError::UnknownMessageTag(7));
    assert!(buffer.is_empty());
}

#[test]
fn unknown_data_tag_is_an_error() {
    let mut buffer: Vec<u8> = vec![
        17, 0, 0, 0, // frame length
        0, 0, 0, 0, // message tag: signal
        1, 0, 0, 0, 0, 0, 0, 0, // name length
        65, // "A"
        9, 0, 0, 0, // no such data tag
    ];
    let mut codec = MessageCodec::new();
    let err = codec.decode(&mut buffer).unwrap_err();
    assert_eq!(err, DecodeError::UnknownDataTag(9));
    assert!(buffer.is_empty());
}

#[test]
fn truncated_body_is_an_error() {
    // A frame that announces two bytes cannot hold the four-byte tag.
    let mut buffer: Vec<u8> = vec![2, 0, 0, 0, 1, 1];
    let mut codec = MessageCodec::new();
    let err = codec.decode(&mut buffer).unwrap_err();
    assert_eq!(err, DecodeError::TruncatedBody);
    assert!(buffer.is_empty());
}

#[test]
fn high_latin_name_round_trips() {
    // 0xE9 fits one wire byte, so the name survives.
    let msg = Message::Subscription("caf\u{e9}".to_string());

    let mut codec = MessageCodec::new();
    let mut buffer: Vec<u8> = Vec::new();
    codec.encode(msg.clone(), &mut buffer);

    let back = codec.decode(&mut buffer).unwrap().unwrap();
    assert_eq!(back, msg);
}

#[test]
fn wide_character_is_truncated_to_low_byte() {
    // U+03BB does not fit one byte: only its low eight bits travel.
    let msg = Message::Subscription("\u{3bb}".to_string());

    let mut codec = MessageCodec::new();
    let mut buffer: Vec<u8> = Vec::new();
    codec.encode(msg.clone(), &mut buffer);

    let back = codec.decode(&mut buffer).unwrap().unwrap();
    assert_eq!(back, Message::Subscription("\u{bb}".to_string()));
}
