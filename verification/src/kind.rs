//! The kinds of state machines that an application defines, and the ids of their states.

use crate::time::Instant;
use vstd::prelude::*;
use vstd::std_specs::cmp::PartialEqSpec;

verus! {

/// Whether `==` on `K` holds of equal values and of no others.
///
/// This is what a kind has to offer for its ids to be found again in a table.
pub open spec fn eq_decides<K: PartialEq>() -> bool {
    &&& K::obeys_eq_spec()
    &&& forall|a: K, b: K| #[trigger] a.eq_spec(&b) <==> a == b
}

/// A kind of state machine, with its states and the inputs that move it.
pub trait Kind: Sized {
    type State;

    type Input;
}

/// A kind that can be part of the id of a state.
pub trait HashKind: Kind + Copy + Eq {

}

/// A message that travels to and from the processors of notifications.
pub trait RexMessage: Sized {
    type Topic;
}

/// A kind whose state machines are driven by messages.
pub trait Rex: HashKind {
    type Message: RexMessage;

    /// The input that a state of this kind gets when its timeout is found to be due
    /// at `now`, if the kind supports timeouts.
    fn timeout_input(&self, now: Instant) -> Option<Self::Input>;
}

/// The id of a state: its kind, and a number that is unique among the states.
#[derive(Clone, Copy, Debug, PartialEq, Eq, Hash)]
pub struct StateId<K> {
    pub kind: K,
    pub uuid: u128,
}

impl<K> StateId<K> {
    /// The id of kind `kind` and number `uuid`.
    pub fn new_with_u128(kind: K, uuid: u128) -> (id: Self)
        ensures
            id == (StateId { kind, uuid }),
    {
        StateId { kind, uuid }
    }

    /// Whether the id is the one of its kind that stands for no state.
    pub open spec fn spec_is_nil(self) -> bool {
        self.uuid == 0
    }

    /// Whether the id is the one of its kind that stands for no state.
    pub fn is_nil(&self) -> (nil: bool)
        ensures
            nil == self.spec_is_nil(),
    {
        self.uuid == 0
    }
}

} // verus!
