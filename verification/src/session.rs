//! Per-session state: the subscription set that filters bus deliveries,
//! and the paired reader/writer lifecycle.

use vstd::prelude::*;

use crate::message::Data;
use crate::message::Message;
use crate::message::MessageView;

verus! {

/// What a subscription set does with one bus delivery: the signal goes
/// back to the client exactly when the session subscribed to its topic.
pub open spec fn delivery(subs: Set<Seq<char>>, topic: Seq<char>, value: Data) -> Option<
    MessageView,
> {
    if subs.contains(topic) {
        Some(MessageView::Signal(topic, value))
    } else {
        None
    }
}

/// The set of topics built by registering the names of `topics` in order,
/// starting from nothing.
pub open spec fn registered_set(topics: Seq<Seq<char>>) -> Set<Seq<char>>
    decreases topics.len(),
{
    if topics.len() == 0 {
        Set::empty()
    } else {
        registered_set(topics.drop_last()).insert(topics.last())
    }
}

/// Registering a sequence of names subscribes to exactly those names.
pub proof fn lemma_registered_set_contains(topics: Seq<Seq<char>>, t: Seq<char>)
    ensures
        registered_set(topics).contains(t) <==> topics.contains(t),
    decreases topics.len(),
{
    if topics.len() > 0 {
        lemma_registered_set_contains(topics.drop_last(), t);
        if topics.contains(t) {
            let i = choose|i: int| 0 <= i < topics.len() && topics[i] == t;
            if i < topics.len() - 1 {
                assert(topics.drop_last()[i] == t);
            }
        } else {
            assert(forall|i: int|
                0 <= i < topics.len() - 1 ==> topics.drop_last()[i] == #[trigger] topics[i]);
        }
    }
}

/// Subscription isolation: a session that never registered topic `t`
/// discards every delivery on `t`, no matter who publishes to it.
pub proof fn lemma_subscription_isolation(topics: Seq<Seq<char>>, t: Seq<char>, value: Data)
    requires
        !topics.contains(t),
    ensures
        delivery(registered_set(topics), t, value) is None,
{
    lemma_registered_set_contains(topics, t);
}

/// Fan-out: one delivery on topic `t` hands the signal, unchanged, to
/// every subscription set holding `t`, and to no other.
pub proof fn lemma_fan_out(subs: Set<Seq<char>>, topic: Seq<char>, value: Data)
    ensures
        subs.contains(topic) ==> delivery(subs, topic, value) == Some(
            MessageView::Signal(topic, value),
        ),
        !subs.contains(topic) ==> delivery(subs, topic, value) is None,
{
}

/// A session's subscription set: the topics its client has asked for.
/// It only ever grows; there is no way to unsubscribe.
pub struct SubscriptionSet {
    topics: Vec<String>,
}

impl View for SubscriptionSet {
    type V = Set<Seq<char>>;

    closed spec fn view(&self) -> Set<Seq<char>> {
        Set::new(
            |t: Seq<char>|
                exists|i: int| 0 <= i < self.topics@.len() && (#[trigger] self.topics@[i])@ == t,
        )
    }
}

impl SubscriptionSet {
    /// A fresh session subscribes to nothing.
    pub fn new() -> (s: SubscriptionSet)
        ensures
            s@ == Set::<Seq<char>>::empty(),
    {
        let s = SubscriptionSet { topics: Vec::new() };
        proof {
            assert(s@ =~= Set::<Seq<char>>::empty());
        }
        s
    }

    /// Whether the session has subscribed to `topic`.
    pub fn contains(&self, topic: &String) -> (r: bool)
        ensures
            r == self@.contains(topic@),
    {
        let n: usize = self.topics.len();
        let mut i: usize = 0;
        while i < n
            invariant
                n == self.topics@.len(),
                i <= n,
                forall|j: int| 0 <= j < i ==> (#[trigger] self.topics@[j])@ != topic@,
            decreases n - i,
        {
            if self.topics[i] == *topic {
                return true;
            }
            i = i + 1;
        }
        proof {
            assert(!self@.contains(topic@));
        }
        false
    }

    /// Registers one topic from the session's own registration queue.
    /// Registering a topic again changes nothing, and in particular
    /// does not grow the session's memory.
    pub fn register(&mut self, topic: String)
        ensures
            final(self)@ == old(self)@.insert(topic@),
    {
        if self.contains(&topic) {
            proof {
                assert(old(self)@ =~= old(self)@.insert(topic@));
            }
            return ;
        }
        self.topics.push(topic);
        proof {
            assert forall|t: Seq<char>| self@.contains(t) implies old(self)@.insert(
                topic@,
            ).contains(t) by {
                let i = choose|i: int|
                    0 <= i < self.topics@.len() && (#[trigger] self.topics@[i])@ == t;
                if i < self.topics@.len() - 1 {
                    assert(old(self).topics@[i]@ == t);
                }
            }
            assert forall|t: Seq<char>| old(self)@.insert(topic@).contains(t) implies self@.contains(
                t,
            ) by {
                if t == topic@ {
                    assert(self.topics@[self.topics@.len() - 1]@ == t);
                } else {
                    let i = choose|i: int|
                        0 <= i < old(self).topics@.len() && (#[trigger] old(self).topics@[i])@ == t;
                    assert(self.topics@[i]@ == t);
                }
            }
            assert(self@ =~= old(self)@.insert(topic@));
        }
    }

    /// The writer's filter: one bus delivery either becomes the signal
    /// sent back to this session's client, or is discarded.
    pub fn on_delivery(&self, topic: String, value: Data) -> (r: Option<Message>)
        ensures
            self@.contains(topic@) ==> (match r {
                Some(m) => m@ == MessageView::Signal(topic@, value),
                None => false,
            }),
            !self@.contains(topic@) ==> r is None,
    {
        if self.contains(&topic) {
            Some(Message::Signal(topic, value))
        } else {
            None
        }
    }
}

/// Where a session stands: both halves running, one finished with the
/// other's cancellation issued, or both stopped.
#[derive(Clone, Copy, Debug, PartialEq, Eq, Structural)]
pub enum SessionState {
    Active,
    Closing,
    Closed,
}

/// The state a session moves to when one of its halves ends.
pub open spec fn next_state(s: SessionState) -> SessionState {
    match s {
        SessionState::Active => SessionState::Closing,
        SessionState::Closing => SessionState::Closed,
        SessionState::Closed => SessionState::Closed,
    }
}

/// Whether the end of one half obliges cancelling its sibling.
pub open spec fn must_cancel(s: SessionState) -> bool {
    s == SessionState::Active
}

/// Session pairing: the moment either half of a fully-running session
/// ends, the session stops counting both halves as running and the
/// sibling's cancellation is owed at once; no order of half endings
/// brings a session back to the fully-running state.
pub proof fn lemma_session_pairing(s: SessionState)
    ensures
        next_state(s) != SessionState::Active,
        must_cancel(SessionState::Active),
        next_state(next_state(s)) == SessionState::Closed,
{
}

/// One session's lifecycle, driven by its reader and writer halves
/// ending in either order.
pub struct SessionLifecycle {
    state: SessionState,
}

impl View for SessionLifecycle {
    type V = SessionState;

    closed spec fn view(&self) -> SessionState {
        self.state
    }
}

impl SessionLifecycle {
    /// A session starts with both halves running.
    pub fn new() -> (s: SessionLifecycle)
        ensures
            s@ == SessionState::Active,
    {
        SessionLifecycle { state: SessionState::Active }
    }

    /// Records that one half has ended, for any reason: stream end,
    /// decode error, write failure, or the sibling's cancellation.
    /// Returns whether the sibling must now be cancelled.
    pub fn half_ended(&mut self) -> (cancel_sibling: bool)
        ensures
            final(self)@ == next_state(old(self)@),
            cancel_sibling == must_cancel(old(self)@),
    {
        match self.state {
            SessionState::Active => {
                self.state = SessionState::Closing;
                true
            },
            SessionState::Closing => {
                self.state = SessionState::Closed;
                false
            },
            SessionState::Closed => false,
        }
    }

    /// Whether the session still owns its connection and bus receiver.
    pub fn is_active(&self) -> (r: bool)
        ensures
            r == (self@ == SessionState::Active),
    {
        match self.state {
            SessionState::Active => true,
            _ => false,
        }
    }
}

} // verus!
