//! Signals to states, and the queue in which they wait.

use crate::kind::{Kind, StateId};
use std::collections::VecDeque;
use vstd::prelude::*;

verus! {

/// An input for the state of an id.
#[derive(Debug)]
pub struct Signal<K: Kind> {
    pub id: StateId<K>,
    pub input: K::Input,
}

/// The signals for `ids` that come of `inputs`: one for each id that has an input.
pub open spec fn signals_of<K: Kind>(
    ids: Seq<StateId<K>>,
    inputs: Seq<Option<K::Input>>,
) -> Seq<Signal<K>>
    decreases ids.len(),
{
    if ids.len() == 0 {
        Seq::empty()
    } else {
        signals_of(ids.drop_last(), inputs.drop_last()) + signal_of(ids.last(), inputs.last())
    }
}

/// The signal for `id` that comes of `input`, if there is an input.
pub open spec fn signal_of<K: Kind>(id: StateId<K>, input: Option<K::Input>) -> Seq<Signal<K>> {
    match input {
        Some(input) => seq![Signal { id, input }],
        None => Seq::empty(),
    }
}

/// The signals that wait to be taken in.
///
/// Signals that are pushed to the front go before all those that are pushed to the back. Among
/// themselves the former keep the order in which they came, and so do the latter. The view of
/// a queue is the sequence in which its signals leave it.
pub struct SignalQueue<K: Kind> {
    urgent: VecDeque<Signal<K>>,
    ordinary: VecDeque<Signal<K>>,
}

impl<K: Kind> View for SignalQueue<K> {
    type V = Seq<Signal<K>>;

    open spec fn view(&self) -> Seq<Signal<K>> {
        self.urgent() + self.ordinary()
    }
}

impl<K: Kind> Default for SignalQueue<K> {
    /// An empty queue.
    fn default() -> (queue: Self)
        ensures
            queue.urgent() == Seq::<Signal<K>>::empty(),
            queue.ordinary() == Seq::<Signal<K>>::empty(),
    {
        SignalQueue { urgent: VecDeque::new(), ordinary: VecDeque::new() }
    }
}

impl<K: Kind> SignalQueue<K> {
    /// The signals that were pushed to the front.
    pub closed spec fn urgent(self) -> Seq<Signal<K>> {
        self.urgent@
    }

    /// The signals that were pushed to the back.
    pub closed spec fn ordinary(self) -> Seq<Signal<K>> {
        self.ordinary@
    }

    /// Puts a signal before those that were pushed to the back, and behind those that were
    /// pushed to the front earlier.
    pub fn push_front(&mut self, signal: Signal<K>)
        ensures
            final(self).urgent() == old(self).urgent().push(signal),
            final(self).ordinary() == old(self).ordinary(),
            final(self)@ == old(self)@.insert(old(self).urgent().len() as int, signal),
    {
        self.urgent.push_back(signal);
        assert(self@ =~= old(self)@.insert(old(self).urgent().len() as int, signal));
    }

    /// Puts a signal with `input` to the front, if there is an input.
    pub fn push_input(&mut self, id: StateId<K>, input: Option<K::Input>)
        ensures
            final(self).urgent() == old(self).urgent() + signal_of(id, input),
            final(self).ordinary() == old(self).ordinary(),
    {
        if let Some(input) = input {
            self.push_front(Signal { id, input });
        }
    }

    /// Puts a signal behind all others.
    pub fn push_back(&mut self, signal: Signal<K>)
        ensures
            final(self).urgent() == old(self).urgent(),
            final(self).ordinary() == old(self).ordinary().push(signal),
            final(self)@ == old(self)@.push(signal),
    {
        self.ordinary.push_back(signal);
        assert(self@ =~= old(self)@.push(signal));
    }

    /// Takes the first signal out.
    pub fn pop_front(&mut self) -> (signal: Option<Signal<K>>)
        ensures
            match signal {
                Some(first) => old(self)@.len() > 0 && first == old(self)@[0] && final(self)@
                    == old(self)@.drop_first(),
                None => old(self)@.len() == 0 && final(self)@ == old(self)@,
            },
            final(self).urgent() == if old(self).urgent().len() > 0 {
                old(self).urgent().drop_first()
            } else {
                old(self).urgent()
            },
    {
        match self.urgent.pop_front() {
            Some(signal) => {
                assert(self@ =~= old(self)@.drop_first());
                Some(signal)
            },
            None => {
                let signal = self.ordinary.pop_front();
                assert(signal is Some ==> self@ =~= old(self)@.drop_first());
                signal
            },
        }
    }
}

} // verus!
