//! The message model: scalar payloads and the two wire message kinds.

use vstd::prelude::*;

verus! {

/// A scalar payload carried by a signal.
///
/// A float travels on the wire as its raw 64-bit IEEE-754 pattern; the
/// library keeps exactly those bits in `Float`, so encoding and decoding
/// are bit-faithful without the library itself doing float arithmetic.
#[derive(Clone, Copy, Debug, PartialEq, Eq, Structural)]
pub enum Data {
    Integer(i64),
    Float(u64),
    Bool(bool),
}

/// One wire message: publish a value under a topic, or ask to receive
/// signals published under a topic.
#[derive(Clone, Debug)]
pub enum Message {
    Signal(String, Data),
    Subscription(String),
}

/// The mathematical shape of a [`Message`]: topic names as character
/// sequences.
pub enum MessageView {
    Signal(Seq<char>, Data),
    Subscription(Seq<char>),
}

impl View for Message {
    type V = MessageView;

    open spec fn view(&self) -> MessageView {
        match self {
            Message::Signal(name, data) => MessageView::Signal(name@, *data),
            Message::Subscription(name) => MessageView::Subscription(name@),
        }
    }
}

impl PartialEq for Message {
    fn eq(&self, other: &Message) -> (r: bool) {
        match (self, other) {
            (Message::Signal(n1, d1), Message::Signal(n2, d2)) => *n1 == *n2 && *d1 == *d2,
            (Message::Subscription(n1), Message::Subscription(n2)) => *n1 == *n2,
            _ => false,
        }
    }
}

impl vstd::std_specs::cmp::PartialEqSpecImpl for Message {
    open spec fn obeys_eq_spec() -> bool {
        true
    }

    open spec fn eq_spec(&self, other: &Message) -> bool {
        self@ == other@
    }
}

} // verus!
