//! The shared broadcast bus, and the reader's decision on inbound
//! messages.
//!
//! The bus is a tokio broadcast channel of `(topic, value)` entries,
//! shared by every session. Publishing is synchronous and must succeed
//! whether or not anyone is listening; receiving suspends, so it stays
//! with the session loops outside this library.

use vstd::prelude::*;

use tokio::sync::broadcast::Sender;

use crate::message::Data;
use crate::message::Message;
use crate::message::MessageView;

verus! {

#[verifier::external_type_specification]
#[verifier::external_body]
#[verifier::reject_recursive_types(T)]
pub struct ExSender<T>(Sender<T>);

/// Relies on tokio's `broadcast::Sender::send`: it hands the entry to
/// every receiver connected at the call, reports `Err` exactly when
/// there is none, and never panics. How many receivers exist when the
/// call lands depends on the scheduler, so nothing more is promised.
#[verifier::external_body]
fn send_entry(bus: &Sender<(String, Data)>, topic: String, value: Data) -> (delivered: bool) {
    bus.send((topic, value)).is_ok()
}

/// Publishes one entry to the bus.
///
/// With no live receiver the entry simply vanishes: the call returns
/// normally either way, and in particular never errors or panics on a
/// bus nobody listens to. The unit result gives a caller nothing to
/// test and nothing to unwrap, so a reader loop goes straight on to
/// its next message whatever the receiver count was.
pub fn publish(bus: &Sender<(String, Data)>, topic: String, value: Data) {
    let _delivered: bool = send_entry(bus, topic, value);
}

/// The reader's decision on one inbound message: publish exactly this
/// entry to the bus, or register exactly this topic with the session's
/// own writer.
pub enum InboundAction {
    Publish(String, Data),
    Register(String),
}

/// Decides what the reader does with one message decoded from the
/// connection, in arrival order: a signal's own topic and value go to
/// the bus; a subscription's own topic goes to this session's writer —
/// subscription state never leaves the session that received it.
pub fn handle_incoming(msg: Message) -> (action: InboundAction)
    ensures
        msg@ matches MessageView::Signal(t, v) ==> action matches InboundAction::Publish(pt, pv)
            && pt@ == t && pv == v,
        msg@ matches MessageView::Subscription(name) ==> action matches InboundAction::Register(reg)
            && reg@ == name,
{
    match msg {
        Message::Signal(topic, value) => InboundAction::Publish(topic, value),
        Message::Subscription(name) => InboundAction::Register(name),
    }
}

} // verus!
