//! Requests to set, cancel and retain, and the messages that carry them.

use crate::clock::{may_show, Clock};
use crate::kind::{Rex, RexMessage, StateId};
use crate::time::{Duration, Instant, NANOS_PER_MILLI};
use vstd::prelude::*;

verus! {

/// What is asked for the timeout of a state.
#[derive(Clone, Copy, Debug)]
pub enum Operation<T> {
    /// Drop the timeout of the state.
    Cancel,
    /// Let the state time out once the instant has come.
    SetAt(Instant),
    /// Keep the item, and hand it back to the state once the instant has come.
    Retain(T, Instant),
}

/// The item of kinds that retain nothing.
#[derive(Clone, Copy, Debug)]
pub struct NoRetain;

/// The topic of requests for timeouts, where nothing else is sent.
#[derive(Clone, Copy, Debug, PartialEq, Eq, Hash)]
pub struct TimeoutTopic;

/// A request that concerns one state.
#[derive(Clone, Copy, Debug)]
pub struct UnaryRequest<K, T> {
    pub id: StateId<K>,
    pub op: T,
}

/// A message that may carry a request for a timeout.
pub trait TimeoutMessage<K: Rex>: RexMessage + From<
    UnaryRequest<K, Operation<<Self as TimeoutMessage<K>>::Item>>,
> + TryInto<UnaryRequest<K, Operation<<Self as TimeoutMessage<K>>::Item>>> {
    /// What can be retained for a state.
    type Item: Copy + Send;
}

/// What can be retained for a state of kind `K`.
pub type RetainItem<K> = <<K as Rex>::Message as TimeoutMessage<K>>::Item;

/// What is asked for the timeout of a state of kind `K`.
pub type TimeoutOp<K> = Operation<RetainItem<K>>;

/// A request for the timeout of a state of kind `K`.
pub type TimeoutInput<K> = UnaryRequest<K, TimeoutOp<K>>;

/// A kind whose states can time out and have items retained for them.
pub trait Timeout: Rex where Self::Message: TimeoutMessage<Self> {
    /// The input that a state of this kind gets when a retained item is handed back to it,
    /// if the kind supports that.
    fn return_item(&self, _item: RetainItem<Self>) -> (input: Option<Self::Input>)
        default_ensures
            input is None,
    {
        None
    }
}

impl NoRetain {
    /// The name of the item.
    pub fn display(&self) -> (text: String)
        ensures
            text@ == "NoRetain"@,
    {
        "NoRetain".to_string()
    }
}

impl<T> Operation<T> {
    /// What asks for a timeout `duration` nanoseconds after `now`.
    pub open spec fn spec_set_after(now: Instant, duration: nat) -> Self {
        Operation::SetAt(Instant { nanos: (now.nanos + duration) as u128 })
    }

    /// The name of the operation.
    pub fn display(&self) -> (text: String)
        ensures
            text@ == match *self {
                Operation::Cancel => "timeout::Cancel"@,
                Operation::SetAt(_) => "timeout::Set"@,
                Operation::Retain(_, _) => "timeout::Retain"@,
            },
    {
        match self {
            Operation::Cancel => "timeout::Cancel".to_string(),
            Operation::SetAt(_) => "timeout::Set".to_string(),
            Operation::Retain(_, _) => "timeout::Retain".to_string(),
        }
    }

    /// Asks for a timeout `duration` after `now`.
    pub fn set_after(now: Instant, duration: Duration) -> (op: Self)
        requires
            now.nanos + duration@ <= u128::MAX,
        ensures
            op == Self::spec_set_after(now, duration@),
    {
        Operation::SetAt(now.plus(duration))
    }

    /// Asks for a timeout `duration` from the time of the call.
    pub fn from_duration(clock: &Clock, duration: Duration) -> (op: Self)
        ensures
            exists|now: Instant| #[trigger]
                call_ensures(Clock::now, (clock,), now) && may_show(now) && op == Self::spec_set_after(now, duration@),
    {
        let now = clock.now();
        proof {
            use_type_invariant(&duration);
            duration.lemma_longest();
        }
        Self::set_after(now, duration)
    }

    /// Asks for a timeout `millis` milliseconds from the time of the call.
    pub fn from_millis(clock: &Clock, millis: u64) -> (op: Self)
        ensures
            exists|now: Instant| #[trigger]
                call_ensures(Clock::now, (clock,), now) && may_show(now) && op == Self::spec_set_after(now, (millis * NANOS_PER_MILLI) as nat),
    {
        Self::from_duration(clock, Duration::from_millis(millis))
    }
}

impl<K> UnaryRequest<K, TimeoutOp<K>> where K: Rex, K::Message: TimeoutMessage<K> {
    /// Asks for a timeout of `id` in `millis` milliseconds.
    pub fn set_timeout_millis(clock: &Clock, id: StateId<K>, millis: u64) -> (request: Self)
        ensures
            request.id == id,
            exists|now: Instant| #[trigger]
                call_ensures(Clock::now, (clock,), now) && may_show(now) && request.op == TimeoutOp::<K>::spec_set_after(
                    now,
                    (millis * NANOS_PER_MILLI) as nat,
                ),
    {
        UnaryRequest { id, op: Operation::from_millis(clock, millis) }
    }

    /// Asks for a timeout of `id` after `duration`.
    pub fn set_timeout(clock: &Clock, id: StateId<K>, duration: Duration) -> (request: Self)
        ensures
            request.id == id,
            exists|now: Instant| #[trigger]
                call_ensures(Clock::now, (clock,), now) && may_show(now) && request.op == TimeoutOp::<K>::spec_set_after(now, duration@),
    {
        UnaryRequest { id, op: Operation::from_duration(clock, duration) }
    }

    /// Asks to drop the timeout of `id`.
    pub fn cancel_timeout(id: StateId<K>) -> (request: Self)
        ensures
            request.id == id,
            request.op == TimeoutOp::<K>::Cancel,
    {
        UnaryRequest { id, op: Operation::Cancel }
    }

    /// Asks to keep `item` for `id` until `duration` after `now`.
    pub fn retain_after(now: Instant, id: StateId<K>, item: RetainItem<K>, duration: Duration) -> (request:
        Self)
        requires
            now.nanos + duration@ <= u128::MAX,
        ensures
            request.id == id,
            request.op == TimeoutOp::<K>::Retain(
                item,
                Instant { nanos: (now.nanos + duration@) as u128 },
            ),
    {
        UnaryRequest { id, op: Operation::Retain(item, now.plus(duration)) }
    }

    /// Asks to keep `item` for `id` for the time of `duration`.
    pub fn retain(clock: &Clock, id: StateId<K>, item: RetainItem<K>, duration: Duration) -> (request:
        Self)
        ensures
            request.id == id,
            exists|now: Instant| #[trigger]
                call_ensures(Clock::now, (clock,), now) && may_show(now) && request.op == TimeoutOp::<K>::Retain(
                    item,
                    Instant { nanos: (now.nanos + duration@) as u128 },
                ),
    {
        let now = clock.now();
        proof {
            use_type_invariant(&duration);
            duration.lemma_longest();
        }
        Self::retain_after(now, id, item, duration)
    }

    /// The same request for another state.
    pub fn with_id(&self, id: StateId<K>) -> (request: Self)
        ensures
            request.id == id,
            request.op == self.op,
    {
        UnaryRequest { id, ..*self }
    }

    /// Another request for the same state.
    pub fn with_op(&self, op: TimeoutOp<K>) -> (request: Self)
        ensures
            request.id == self.id,
            request.op == op,
    {
        UnaryRequest { op, ..*self }
    }
}

} // verus!
