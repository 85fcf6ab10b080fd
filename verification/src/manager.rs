//! The manager of timeouts: it takes requests in and turns timeouts into signals when they are due.

use crate::kind::{eq_decides, Rex, RexMessage, StateId};
use crate::ledger::{
    deadlines_after, expired, expires_as, lint, later_than, retained_after, returns_as, Lint, RetainPair,
    TimeoutLedger,
};
use crate::request::{Operation, RetainItem, Timeout, TimeoutInput, TimeoutMessage};
use crate::signal::{signals_of, Signal, SignalQueue};
use crate::time::{Duration, Instant, NANOS_PER_MILLI};
use vstd::prelude::*;

verus! {

/// How many milliseconds pass between two looks at the ledger, unless another rate is set.
pub const DEFAULT_TICK_MILLIS: u64 = 5;

/// A message on its way to the processors that listen to its topic.
#[derive(Clone, Copy, Debug)]
pub struct Notification<M>(pub M);

/// What a manager did with a notification.
#[derive(Clone, Copy, Debug, PartialEq, Eq, Structural)]
pub enum Receipt {
    /// Nothing: the notification carries no request for a timeout.
    Invalid,
    /// It dropped the timeout of a state.
    Cancelled,
    /// It set the timeout of a state.
    Scheduled(Lint),
    /// It keeps an item for a state.
    Retained(Lint),
}

/// Whether `inputs` may be what the kinds of `ids` answer to timeouts that came by `now`.
pub open spec fn timeout_answers<K: Rex>(
    ids: Seq<StateId<K>>,
    now: Instant,
    inputs: Seq<Option<K::Input>>,
) -> bool {
    &&& inputs.len() == ids.len()
    &&& forall|i: int|
        0 <= i < ids.len() ==> call_ensures(
            K::timeout_input,
            (&(#[trigger] ids[i]).kind, now),
            inputs[i],
        )
}

/// Whether `inputs` may be what the kinds of the ids of `pairs` answer to their items.
pub open spec fn return_answers<K>(
    pairs: Seq<(StateId<K>, RetainItem<K>)>,
    inputs: Seq<Option<K::Input>>,
) -> bool where K: Timeout, K::Message: TimeoutMessage<K> {
    &&& inputs.len() == pairs.len()
    &&& forall|i: int|
        0 <= i < pairs.len() ==> call_ensures(
            K::return_item,
            (&(#[trigger] pairs[i]).0.kind, pairs[i].1),
            inputs[i],
        )
}

/// The ids of retained items.
pub open spec fn ids_of<K, T>(pairs: Seq<(StateId<K>, T)>) -> Seq<StateId<K>> {
    pairs.map_values(|pair: (StateId<K>, T)| pair.0)
}

/// Puts a signal to the front for each of `ids` whose kind has an input for a timeout that
/// came by `now`, one after the other.
pub fn signal_timeouts<K: Rex>(ids: &Vec<StateId<K>>, now: Instant, queue: &mut SignalQueue<K>)
    ensures
        exists|inputs: Seq<Option<K::Input>>| #[trigger]
            timeout_answers(ids@, now, inputs) && final(queue).urgent() == old(queue).urgent()
                + signals_of(ids@, inputs),
        final(queue).ordinary() == old(queue).ordinary(),
{
    let ghost mut inputs: Seq<Option<K::Input>> = Seq::empty();
    let mut i: usize = 0;
    while i < ids.len()
        invariant
            i <= ids@.len(),
            timeout_answers(ids@.take(i as int), now, inputs),
            queue.urgent() == old(queue).urgent() + signals_of(ids@.take(i as int), inputs),
            queue.ordinary() == old(queue).ordinary(),
        decreases ids@.len() - i,
    {
        let id = ids[i];
        let input = id.kind.timeout_input(now);
        let ghost before = inputs;
        proof {
            inputs = inputs.push(input);
            let longer = ids@.take(i + 1);
            assert(longer.drop_last() =~= ids@.take(i as int));
            assert(inputs.drop_last() =~= before);
            assert forall|j: int| 0 <= j < longer.len() implies call_ensures(
                K::timeout_input,
                (&(#[trigger] longer[j]).kind, now),
                inputs[j],
            ) by {
                if j < i {
                    assert(ids@.take(i as int)[j] == longer[j]);
                }
            }
        }
        queue.push_input(id, input);
        i = i + 1;
    }
    assert(ids@.take(ids@.len() as int) =~= ids@);
}

/// Puts a signal to the front for each of `pairs` whose kind has an input for the item, one
/// after the other.
pub fn signal_returns<K>(pairs: &Vec<RetainPair<K>>, queue: &mut SignalQueue<K>) where
    K: Timeout,
    K::Message: TimeoutMessage<K>,

    ensures
        exists|inputs: Seq<Option<K::Input>>| #[trigger]
            return_answers(pairs@, inputs) && final(queue).urgent() == old(queue).urgent()
                + signals_of(ids_of(pairs@), inputs),
        final(queue).ordinary() == old(queue).ordinary(),
{
    let ghost mut inputs: Seq<Option<K::Input>> = Seq::empty();
    let mut i: usize = 0;
    while i < pairs.len()
        invariant
            i <= pairs@.len(),
            return_answers(pairs@.take(i as int), inputs),
            queue.urgent() == old(queue).urgent() + signals_of(
                ids_of(pairs@.take(i as int)),
                inputs,
            ),
            queue.ordinary() == old(queue).ordinary(),
        decreases pairs@.len() - i,
    {
        let (id, item) = pairs[i];
        let input = id.kind.return_item(item);
        let ghost before = inputs;
        proof {
            inputs = inputs.push(input);
            let longer = pairs@.take(i + 1);
            assert(ids_of(longer).drop_last() =~= ids_of(pairs@.take(i as int)));
            assert(inputs.drop_last() =~= before);
            assert forall|j: int| 0 <= j < longer.len() implies call_ensures(
                K::return_item,
                (&(#[trigger] longer[j]).0.kind, longer[j].1),
                inputs[j],
            ) by {
                if j < i {
                    assert(pairs@.take(i as int)[j] == longer[j]);
                }
            }
        }
        queue.push_input(id, input);
        i = i + 1;
    }
    assert(pairs@.take(pairs@.len() as int) =~= pairs@);
}

/// Whether a look at the ledger at `now` may find the timeouts of `ids`, which their kinds answer
/// by `inputs`, and the items of `pairs`, which their kinds answer by `returned`, and whether
/// `signals` are what comes of that: those for timeouts before those for items.
pub open spec fn tick_parts<K>(
    deadlines: Map<StateId<K>, Instant>,
    retained: Map<Instant, Seq<(StateId<K>, RetainItem<K>)>>,
    now: Instant,
    ids: Seq<StateId<K>>,
    inputs: Seq<Option<K::Input>>,
    pairs: Seq<(StateId<K>, RetainItem<K>)>,
    returned: Seq<Option<K::Input>>,
    signals: Seq<Signal<K>>,
) -> bool where K: Timeout, K::Message: TimeoutMessage<K> {
    &&& expires_as(deadlines, now, ids)
    &&& timeout_answers(ids, now, inputs)
    &&& returns_as(retained, now, pairs)
    &&& return_answers(pairs, returned)
    &&& signals == signals_of(ids, inputs) + signals_of(ids_of(pairs), returned)
}

/// Whether `signals` may be what comes of a look at the ledger at `now`.
pub open spec fn tick_signals<K>(
    deadlines: Map<StateId<K>, Instant>,
    retained: Map<Instant, Seq<(StateId<K>, RetainItem<K>)>>,
    now: Instant,
    signals: Seq<Signal<K>>,
) -> bool where K: Timeout, K::Message: TimeoutMessage<K> {
    exists|
        ids: Seq<StateId<K>>,
        inputs: Seq<Option<K::Input>>,
        pairs: Seq<(StateId<K>, RetainItem<K>)>,
        returned: Seq<Option<K::Input>>,
    | #[trigger]
        tick_parts(deadlines, retained, now, ids, inputs, pairs, returned, signals)
}

/// Whether a request at `now` takes a ledger from `before` to `after` and is answered by
/// `receipt`.
pub open spec fn handled<K>(
    before: TimeoutLedger<K>,
    request: Option<TimeoutInput<K>>,
    now: Instant,
    after: TimeoutLedger<K>,
    receipt: Receipt,
) -> bool where K: Timeout, K::Message: TimeoutMessage<K> {
    match request {
        Some(request) => {
            &&& after.deadlines() == deadlines_after(before.deadlines(), request)
            &&& after.retained() == retained_after(before.retained(), request)
            &&& receipt == match request.op {
                Operation::Cancel => Receipt::Cancelled,
                Operation::SetAt(instant) => Receipt::Scheduled(lint(instant, now)),
                Operation::Retain(_, instant) => Receipt::Retained(lint(instant, now)),
            }
        },
        None => after == before && receipt == Receipt::Invalid,
    }
}

/// `std::slice::from_ref` looks at a value as a slice of length one, which holds that value.
pub assume_specification<T>[ std::slice::from_ref::<T> ](s: &T) -> (slice: &[T])
    ensures
        slice@ == seq![*s],
;

/// Takes in requests for timeouts, keeps them in a ledger, and at each tick turns those whose
/// time has come into signals.
pub struct TimeoutManager<K> where K: Timeout, K::Message: TimeoutMessage<K> {
    /// How much time passes between two ticks.
    pub tick_rate: Duration,
    /// The timeouts that are set and the items that are retained.
    pub ledger: TimeoutLedger<K>,
    /// The topic that the manager listens to.
    pub topic: <K::Message as RexMessage>::Topic,
    /// Where the signals go.
    pub signal_queue: SignalQueue<K>,
}

impl<K> TimeoutManager<K> where K: Timeout, K::Message: TimeoutMessage<K> {
    /// The instant of the timeout of each state that has one.
    pub open spec fn deadlines(self) -> Map<StateId<K>, Instant> {
        self.ledger.deadlines()
    }

    /// The items that are retained until each instant, in the order in which they came.
    pub open spec fn retained(self) -> Map<Instant, Seq<RetainPair<K>>> {
        self.ledger.retained()
    }

    /// The ledger is well-formed.
    pub open spec fn wf(self) -> bool {
        self.ledger.wf()
    }

    /// A manager without timeouts, which ticks at the default rate.
    pub fn new<T: Into<<K::Message as RexMessage>::Topic>>(
        signal_queue: SignalQueue<K>,
        topic: T,
    ) -> (manager: Self)
        ensures
            manager.wf(),
            call_ensures(T::into, (topic,), manager.topic),
            manager.tick_rate@ == DEFAULT_TICK_MILLIS * NANOS_PER_MILLI,
            manager.deadlines() == Map::<StateId<K>, Instant>::empty(),
            manager.retained() == Map::<Instant, Seq<RetainPair<K>>>::empty(),
            manager.signal_queue == signal_queue,
    {
        TimeoutManager {
            tick_rate: Duration::from_millis(DEFAULT_TICK_MILLIS),
            ledger: TimeoutLedger::new(),
            topic: topic.into(),
            signal_queue,
        }
    }

    /// The same manager with another rate of ticks.
    pub fn with_tick_rate(self, tick_rate: Duration) -> (manager: Self)
        ensures
            manager.tick_rate == tick_rate,
            manager.ledger == self.ledger,
            manager.topic == self.topic,
            manager.signal_queue == self.signal_queue,
    {
        TimeoutManager { tick_rate, ..self }
    }

    /// The topics that the manager listens to: the one it was made with.
    pub fn get_topics(&self) -> (topics: &[<K::Message as RexMessage>::Topic])
        ensures
            topics@ == seq![self.topic],
    {
        std::slice::from_ref(&self.topic)
    }

    /// Does what a request asks for at `now`, or nothing where there is no request.
    pub fn handle(&mut self, request: Option<TimeoutInput<K>>, now: Instant) -> (receipt: Receipt)
        requires
            eq_decides::<K>(),
            old(self).wf(),
        ensures
            final(self).wf(),
            handled(old(self).ledger, request, now, final(self).ledger, receipt),
            final(self).tick_rate == old(self).tick_rate,
            final(self).topic == old(self).topic,
            final(self).signal_queue == old(self).signal_queue,
    {
        match request {
            Some(request) => {
                self.ledger.apply(request);
                match request.op {
                    Operation::Cancel => Receipt::Cancelled,
                    Operation::SetAt(instant) => {
                        Receipt::Scheduled(TimeoutLedger::<K>::lint_instant(instant, now))
                    },
                    Operation::Retain(_, instant) => {
                        Receipt::Retained(TimeoutLedger::<K>::lint_instant(instant, now))
                    },
                }
            },
            None => Receipt::Invalid,
        }
    }

    /// Takes in a notification at `now`: does what its message asks for, if that is a request
    /// for a timeout.
    pub fn receive(&mut self, notification: Notification<K::Message>, now: Instant) -> (receipt:
        Receipt)
        requires
            eq_decides::<K>(),
            old(self).wf(),
        ensures
            final(self).wf(),
            exists|
                parsed: Result<
                    TimeoutInput<K>,
                    <K::Message as TryInto<TimeoutInput<K>>>::Error,
                >,
            | #[trigger]
                call_ensures(
                    <K::Message as TryInto<TimeoutInput<K>>>::try_into,
                    (notification.0,),
                    parsed,
                ) && handled(old(self).ledger, parsed.ok(), now, final(self).ledger, receipt),
            final(self).tick_rate == old(self).tick_rate,
            final(self).topic == old(self).topic,
            final(self).signal_queue == old(self).signal_queue,
    {
        let Notification(message) = notification;
        match message.try_into() {
            Ok(request) => self.handle(Some(request), now),
            Err(_) => self.handle(None, now),
        }
    }

    /// Looks at the ledger at `now`: takes out what is due by `now`, and puts the signals
    /// that come of it to the front of the queue.
    pub fn tick(&mut self, now: Instant)
        requires
            eq_decides::<K>(),
            old(self).wf(),
        ensures
            final(self).wf(),
            final(self).deadlines() == old(self).deadlines().remove_keys(
                expired(old(self).deadlines(), now),
            ),
            final(self).retained() == old(self).retained().restrict(later_than(now)),
            exists|signals: Seq<Signal<K>>| #[trigger]
                tick_signals(old(self).deadlines(), old(self).retained(), now, signals)
                    && final(self).signal_queue.urgent() == old(self).signal_queue.urgent()
                    + signals,
            final(self).signal_queue.ordinary() == old(self).signal_queue.ordinary(),
            final(self).tick_rate == old(self).tick_rate,
            final(self).topic == old(self).topic,
    {
        let ids = self.ledger.take_expired(now);
        signal_timeouts(&ids, now, &mut self.signal_queue);
        let ghost mid = self.signal_queue.urgent();
        let pairs = self.ledger.take_retained(now);
        signal_returns(&pairs, &mut self.signal_queue);
        proof {
            let before = old(self).signal_queue.urgent();
            let inputs = choose|inputs: Seq<Option<K::Input>>| #[trigger]
                timeout_answers(ids@, now, inputs) && mid == before + signals_of(ids@, inputs);
            let returned = choose|returned: Seq<Option<K::Input>>| #[trigger]
                return_answers(pairs@, returned) && self.signal_queue.urgent() == mid + signals_of(
                    ids_of(pairs@),
                    returned,
                );
            let signals = signals_of(ids@, inputs) + signals_of(ids_of(pairs@), returned);
            assert(tick_parts(
                old(self).deadlines(),
                old(self).retained(),
                now,
                ids@,
                inputs,
                pairs@,
                returned,
                signals,
            ));
            assert(tick_signals(old(self).deadlines(), old(self).retained(), now, signals));
            assert(self.signal_queue.urgent() =~= before + signals);
        }
    }
}

} // verus!
