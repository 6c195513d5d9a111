//! A topic-based publish/subscribe relay library.
//!
//! The crate verifies the core of the relay: the binary wire codec
//! (length-prefixed frames carrying signals and subscriptions), the
//! per-session subscription filter, and the session lifecycle rules.
//! Socket plumbing stays outside the library.

use vstd::prelude::*;

pub mod bus;
pub mod codec;
pub mod message;
pub mod session;

pub use bus::InboundAction;
pub use bus::handle_incoming;
pub use bus::publish;
pub use codec::DecodeError;
pub use codec::MessageCodec;
pub use codec::get_length;
pub use message::Data;
pub use message::Message;
pub use message::MessageView;
pub use session::SessionLifecycle;
pub use session::SessionState;
pub use session::SubscriptionSet;

verus! {

} // verus!
