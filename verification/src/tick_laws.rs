//! Laws of ticks: what a look at the ledger finds, what is left, and which signals come of it.

use crate::call_laws::same_at;
use crate::kind::{Kind, Rex, StateId};
use crate::ledger::{ascending, chained, due_instants, returns_as, RetainPair, TimeoutLedger};
use crate::manager::{
    ids_of, return_answers, signal_returns, signal_timeouts, tick_parts, tick_signals,
    timeout_answers, Receipt, TimeoutManager,
};
use crate::request::{Operation, RetainItem, Timeout, TimeoutMessage, UnaryRequest};
use crate::signal::{signals_of, Signal, SignalQueue};
use crate::time::Instant;
use vstd::prelude::*;

verus! {

/// Whether `ids` are the states whose timeouts are due at `now`: each of them once, none whose
/// instant is still to come, and earlier timeouts before later ones.
pub open spec fn due_timeouts<K>(
    deadlines: Map<StateId<K>, Instant>,
    now: Instant,
    ids: Seq<StateId<K>>,
) -> bool {
    &&& forall|i: int, j: int| 0 <= i < j < ids.len() ==> #[trigger] ids[i] != #[trigger] ids[j]
    &&& forall|id: StateId<K>| #[trigger]
        ids.contains(id) <==> deadlines.contains_key(id) && deadlines[id].nanos <= now.nanos
    &&& forall|i: int, j: int|
        0 <= i < j < ids.len() ==> deadlines[#[trigger] ids[i]].nanos
            <= deadlines[#[trigger] ids[j]].nanos
}

/// Where an item waits: its instant, and its place among the items of that instant.
pub type Spot = (Instant, int);

/// Whether the item at one spot is to be handed back before that at another: its instant is
/// earlier, or it came earlier to the same instant.
pub open spec fn sooner(a: Spot, b: Spot) -> bool {
    a.0.nanos < b.0.nanos || a.0.nanos == b.0.nanos && a.1 < b.1
}

/// Whether `spots` are those of the items that are due at `now`: each of them once, none whose
/// instant is still to come, and in the order in which they are to be handed back.
pub open spec fn due_spots<P>(
    retained: Map<Instant, Seq<P>>,
    now: Instant,
    spots: Seq<Spot>,
) -> bool {
    &&& forall|i: int, j: int|
        0 <= i < j < spots.len() ==> sooner(#[trigger] spots[i], #[trigger] spots[j])
    &&& forall|spot: Spot| #[trigger]
        spots.contains(spot) <==> retained.contains_key(spot.0) && spot.0.nanos <= now.nanos && 0
            <= spot.1 < retained[spot.0].len()
}

/// Whether `pairs` are the items at `spots`.
pub open spec fn items_stand<P>(
    retained: Map<Instant, Seq<P>>,
    spots: Seq<Spot>,
    pairs: Seq<P>,
) -> bool {
    &&& pairs.len() == spots.len()
    &&& forall|i: int|
        0 <= i < spots.len() ==> #[trigger] pairs[i] == retained[spots[i].0][spots[i].1]
}

/// The spots of the items of some instants.
spec fn spots_of<P>(retained: Map<Instant, Seq<P>>, instants: Seq<Instant>) -> Seq<Spot>
    decreases instants.len(),
{
    if instants.len() == 0 {
        Seq::empty()
    } else {
        let last = instants.last();
        spots_of(retained, instants.drop_last()) + Seq::new(
            retained[last].len(),
            |i: int| (last, i),
        )
    }
}

/// The items of instants that lie one after the other stand at their spots, in their order.
proof fn lemma_spots<P>(retained: Map<Instant, Seq<P>>, instants: Seq<Instant>)
    requires
        ascending(instants),
    ensures
        items_stand(retained, spots_of(retained, instants), chained(retained, instants)),
        forall|i: int, j: int|
            0 <= i < j < spots_of(retained, instants).len() ==> sooner(
                #[trigger] spots_of(retained, instants)[i],
                #[trigger] spots_of(retained, instants)[j],
            ),
        forall|spot: Spot| #[trigger]
            spots_of(retained, instants).contains(spot) <==> instants.contains(spot.0) && 0
                <= spot.1 < retained[spot.0].len(),
    decreases instants.len(),
{
    if instants.len() > 0 {
        let fewer = instants.drop_last();
        let last = instants.last();
        assert forall|i: int, j: int| 0 <= i < j < fewer.len() implies (#[trigger] fewer[i]).nanos
            < (#[trigger] fewer[j]).nanos by {
            assert(instants[i].nanos < instants[j].nanos);
        }
        lemma_spots(retained, fewer);
        let before = spots_of(retained, fewer);
        let added = Seq::new(retained[last].len(), |i: int| (last, i));
        let spots = spots_of(retained, instants);
        let pairs = chained(retained, instants);
        assert(spots == before + added);
        assert forall|i: int| 0 <= i < spots.len() implies #[trigger] pairs[i]
            == retained[spots[i].0][spots[i].1] by {
            if i < before.len() {
                assert(chained(retained, fewer)[i] == pairs[i]);
            }
        }
        assert forall|i: int, j: int| 0 <= i < j < spots.len() implies sooner(
            #[trigger] spots[i],
            #[trigger] spots[j],
        ) by {
            if j < before.len() {
                assert(sooner(before[i], before[j]));
            } else if i < before.len() {
                assert(before.contains(before[i]));
                let k = choose|k: int| 0 <= k < fewer.len() && fewer[k] == before[i].0;
                assert(instants[k].nanos < instants[instants.len() - 1].nanos);
            }
        }
        assert forall|spot: Spot| #[trigger] spots.contains(spot) <==> instants.contains(spot.0)
            && 0 <= spot.1 < retained[spot.0].len() by {
            if spots.contains(spot) {
                let i = choose|i: int| 0 <= i < spots.len() && spots[i] == spot;
                if i < before.len() {
                    assert(before[i] == spot);
                    assert(before.contains(spot));
                    let k = choose|k: int| 0 <= k < fewer.len() && fewer[k] == spot.0;
                    assert(instants[k] == spot.0);
                } else {
                    assert(instants[instants.len() - 1] == spot.0);
                }
            }
            if instants.contains(spot.0) && 0 <= spot.1 < retained[spot.0].len() {
                let k = choose|k: int| 0 <= k < instants.len() && instants[k] == spot.0;
                if k < fewer.len() {
                    assert(fewer[k] == spot.0);
                    assert(before.contains(spot));
                    let i = choose|i: int| 0 <= i < before.len() && before[i] == spot;
                    assert(spots[i] == spot);
                } else {
                    assert(added[spot.1] == spot);
                    assert(spots[before.len() + spot.1] == spot);
                }
            }
        }
    }
}

/// The items that a look hands back are those that are due, each once, in their order.
proof fn lemma_returns_stand<P>(
    retained: Map<Instant, Seq<P>>,
    now: Instant,
    pairs: Seq<P>,
) -> (spots: Seq<Spot>)
    requires
        returns_as(retained, now, pairs),
    ensures
        due_spots(retained, now, spots),
        items_stand(retained, spots, pairs),
{
    let instants = choose|instants: Seq<Instant>| #[trigger]
        due_instants(retained, now, instants) && pairs == chained(retained, instants);
    lemma_spots(retained, instants);
    spots_of(retained, instants)
}

/// What a look at the ledger takes out of the timeouts: those that are due, each once, and earlier
/// ones first. Those whose instant is still to come stay as they are, and so do all items.
pub proof fn law_due_timeouts_are_taken_out<K>(now: Instant, taken: Vec<StateId<K>>)
    where K: Timeout, K::Message: TimeoutMessage<K>
    ensures
        forall|ledger: &mut TimeoutLedger<K>| #[trigger]
            call_ensures(TimeoutLedger::<K>::take_expired, (ledger, now), taken) ==> {
                &&& due_timeouts(ledger.deadlines(), now, taken@)
                &&& rest_stays(ledger.deadlines(), now, final(ledger).deadlines())
                &&& final(ledger).retained() == ledger.retained()
            },
{
}

/// Whether `left` holds the timeouts of `deadlines` whose instant is still to come at `now`, and
/// nothing else.
pub open spec fn rest_stays<K>(
    deadlines: Map<StateId<K>, Instant>,
    now: Instant,
    left: Map<StateId<K>, Instant>,
) -> bool {
    forall|id: StateId<K>|
        if deadlines.contains_key(id) && deadlines[id].nanos > now.nanos {
            #[trigger] same_at(deadlines, left, id)
        } else {
            !left.contains_key(id)
        }
}

/// Whether `left` holds the items of `retained` whose instant is still to come at `now`, and
/// nothing else.
pub open spec fn items_stay<P>(
    retained: Map<Instant, Seq<P>>,
    now: Instant,
    left: Map<Instant, Seq<P>>,
) -> bool {
    forall|instant: Instant|
        if instant.nanos > now.nanos {
            #[trigger] same_at(retained, left, instant)
        } else {
            !left.contains_key(instant)
        }
}

/// What a look at the ledger takes out of the items: those that are due, each once, those of
/// earlier instants first and those of one instant as they came. Those whose instant is still to
/// come stay as they are, and so do all timeouts.
pub proof fn law_due_items_are_taken_out<K>(now: Instant, taken: Vec<RetainPair<K>>)
    where K: Timeout, K::Message: TimeoutMessage<K>
    ensures
        forall|ledger: &mut TimeoutLedger<K>| #[trigger]
            call_ensures(TimeoutLedger::<K>::take_retained, (ledger, now), taken) ==> {
                &&& exists|spots: Seq<Spot>| #[trigger]
                    due_spots(ledger.retained(), now, spots) && items_stand(
                        ledger.retained(),
                        spots,
                        taken@,
                    )
                &&& items_stay(ledger.retained(), now, final(ledger).retained())
                &&& final(ledger).deadlines() == ledger.deadlines()
            },
{
    assert forall|ledger: &mut TimeoutLedger<K>| #[trigger]
        call_ensures(TimeoutLedger::<K>::take_retained, (ledger, now), taken) implies exists|
        spots: Seq<Spot>,
    | #[trigger]
        due_spots(ledger.retained(), now, spots) && items_stand(
            ledger.retained(),
            spots,
            taken@,
        ) by {
        let spots = lemma_returns_stand(ledger.retained(), now, taken@);
        assert(due_spots(ledger.retained(), now, spots));
    }
}

/// Whether `at` picks places out of `count` ones, from the first towards the last.
pub open spec fn picks(at: Seq<int>, count: int) -> bool {
    &&& forall|p: int, q: int| 0 <= p < q < at.len() ==> #[trigger] at[p] < #[trigger] at[q]
    &&& forall|p: int| 0 <= p < at.len() ==> 0 <= #[trigger] at[p] < count
}

/// Whether `signals` are for the ids at the places `at`, with their inputs, and no id at another
/// place has an input.
spec fn signals_at<K: Kind>(
    ids: Seq<StateId<K>>,
    inputs: Seq<Option<K::Input>>,
    at: Seq<int>,
    signals: Seq<Signal<K>>,
) -> bool {
    &&& at.len() == signals.len()
    &&& picks(at, ids.len() as int)
    &&& forall|p: int|
        0 <= p < at.len() ==> (#[trigger] signals[p]).id == ids[at[p]] && inputs[at[p]] == Some(
            signals[p].input,
        )
    &&& forall|n: int|
        0 <= n < ids.len() && !(#[trigger] at.contains(n)) ==> inputs[n] is None
}

/// Every input gives one signal, in the order of the ids.
proof fn lemma_signals_at<K: Kind>(
    ids: Seq<StateId<K>>,
    inputs: Seq<Option<K::Input>>,
) -> (at: Seq<int>)
    requires
        ids.len() == inputs.len(),
    ensures
        signals_at(ids, inputs, at, signals_of(ids, inputs)),
    decreases ids.len(),
{
    if ids.len() == 0 {
        Seq::empty()
    } else {
        let shorter = ids.drop_last();
        let fewer = inputs.drop_last();
        let before = lemma_signals_at(shorter, fewer);
        let last = ids.len() - 1;
        let signals = signals_of(ids, inputs);
        let at = if inputs.last() is Some {
            before.push(last)
        } else {
            before
        };
        assert(inputs.last() is None ==> signals =~= signals_of(shorter, fewer));
        assert forall|p: int| 0 <= p < at.len() implies (#[trigger] signals[p]).id == ids[at[p]]
            && inputs[at[p]] == Some(signals[p].input) by {
            if p < before.len() {
                assert(signals_of(shorter, fewer)[p] == signals[p]);
                assert(at[p] == before[p]);
                assert(0 <= before[p] < last);
            }
        }
        assert forall|n: int| 0 <= n < ids.len() && !(#[trigger] at.contains(n))
            implies inputs[n] is None by {
            if n < last {
                if before.contains(n) {
                    let p = choose|p: int| 0 <= p < before.len() && before[p] == n;
                    assert(at[p] == n);
                }
                assert(fewer[n] == inputs[n]);
            } else if inputs.last() is Some {
                assert(at[before.len() as int] == n);
            }
        }
        at
    }
}

/// Whether `signals` come of timeouts of `ids` that are found at `now`: the kind of each state
/// is asked for its input at `now`, and where it has one, that is signalled to the state. There
/// is one signal at most for each of `ids`, in their order.
pub open spec fn timeouts_signalled<K: Rex>(
    ids: Seq<StateId<K>>,
    now: Instant,
    at: Seq<int>,
    signals: Seq<Signal<K>>,
) -> bool {
    &&& at.len() == signals.len()
    &&& picks(at, ids.len() as int)
    &&& forall|p: int|
        0 <= p < at.len() ==> (#[trigger] signals[p]).id == ids[at[p]] && call_ensures(
            K::timeout_input,
            (&ids[at[p]].kind, now),
            Some(signals[p].input),
        )
    &&& forall|n: int|
        0 <= n < ids.len() && !(#[trigger] at.contains(n)) ==> call_ensures(
            K::timeout_input,
            (&ids[n].kind, now),
            None,
        )
}

/// Whether `signals` come of the items of `pairs`: the kind of each state is asked for its input
/// for that very item, and where it has one, that is signalled to the state. There is one signal
/// at most for each of `pairs`, in their order, and a kind that has no input for one item keeps
/// no other item back.
pub open spec fn items_signalled<K>(
    pairs: Seq<(StateId<K>, RetainItem<K>)>,
    at: Seq<int>,
    signals: Seq<Signal<K>>,
) -> bool where K: Timeout, K::Message: TimeoutMessage<K> {
    &&& at.len() == signals.len()
    &&& picks(at, pairs.len() as int)
    &&& forall|p: int|
        0 <= p < at.len() ==> (#[trigger] signals[p]).id == pairs[at[p]].0 && call_ensures(
            K::return_item,
            (&pairs[at[p]].0.kind, pairs[at[p]].1),
            Some(signals[p].input),
        )
    &&& forall|n: int|
        0 <= n < pairs.len() && !(#[trigger] at.contains(n)) ==> call_ensures(
            K::return_item,
            (&pairs[n].0.kind, pairs[n].1),
            None,
        )
}

/// Answers to timeouts are signalled.
proof fn lemma_timeouts_signalled<K: Rex>(
    ids: Seq<StateId<K>>,
    now: Instant,
    inputs: Seq<Option<K::Input>>,
) -> (at: Seq<int>)
    requires
        timeout_answers(ids, now, inputs),
    ensures
        timeouts_signalled(ids, now, at, signals_of(ids, inputs)),
{
    let at = lemma_signals_at(ids, inputs);
    let signals = signals_of(ids, inputs);
    assert forall|p: int| 0 <= p < at.len() implies (#[trigger] signals[p]).id == ids[at[p]]
        && call_ensures(
        K::timeout_input,
        (&ids[at[p]].kind, now),
        Some(signals[p].input),
    ) by {
        assert(0 <= at[p] < ids.len());
        assert(call_ensures(K::timeout_input, (&ids[at[p]].kind, now), inputs[at[p]]));
    }
    assert forall|n: int|
        0 <= n < ids.len() && !(#[trigger] at.contains(n)) implies call_ensures(
        K::timeout_input,
        (&ids[n].kind, now),
        None,
    ) by {
        assert(call_ensures(K::timeout_input, (&ids[n].kind, now), inputs[n]));
    }
    at
}

/// Answers to items are signalled.
proof fn lemma_items_signalled<K>(
    pairs: Seq<(StateId<K>, RetainItem<K>)>,
    returned: Seq<Option<K::Input>>,
) -> (at: Seq<int>) where K: Timeout, K::Message: TimeoutMessage<K>
    requires
        return_answers(pairs, returned),
    ensures
        items_signalled(pairs, at, signals_of(ids_of(pairs), returned)),
{
    let at = lemma_signals_at(ids_of(pairs), returned);
    let signals = signals_of(ids_of(pairs), returned);
    assert forall|p: int| 0 <= p < at.len() implies (#[trigger] signals[p]).id == pairs[at[p]].0
        && call_ensures(
        K::return_item,
        (&pairs[at[p]].0.kind, pairs[at[p]].1),
        Some(signals[p].input),
    ) by {
        assert(0 <= at[p] < pairs.len());
        assert(call_ensures(
            K::return_item,
            (&pairs[at[p]].0.kind, pairs[at[p]].1),
            returned[at[p]],
        ));
    }
    assert forall|n: int|
        0 <= n < pairs.len() && !(#[trigger] at.contains(n)) implies call_ensures(
        K::return_item,
        (&pairs[n].0.kind, pairs[n].1),
        None,
    ) by {
        assert(call_ensures(K::return_item, (&pairs[n].0.kind, pairs[n].1), returned[n]));
    }
    at
}

/// Timeouts that were found are signalled at the front of the queue, and the signals that were
/// pushed before keep their places.
pub proof fn law_found_timeouts_are_signalled<K: Rex>(ids: &Vec<StateId<K>>, now: Instant)
    ensures
        forall|queue: &mut SignalQueue<K>| #[trigger]
            call_ensures(signal_timeouts::<K>, (ids, now, queue), ()) ==> {
                &&& final(queue).ordinary() == queue.ordinary()
                &&& exists|at: Seq<int>, signals: Seq<Signal<K>>| #[trigger]
                    timeouts_signalled(ids@, now, at, signals) && final(queue).urgent()
                        == queue.urgent() + signals
            },
{
    assert forall|queue: &mut SignalQueue<K>| #[trigger]
        call_ensures(signal_timeouts::<K>, (ids, now, queue), ()) implies exists|
        at: Seq<int>,
        signals: Seq<Signal<K>>,
    | #[trigger]
        timeouts_signalled(ids@, now, at, signals) && final(queue).urgent() == queue.urgent()
            + signals by {
        let inputs = choose|inputs: Seq<Option<K::Input>>| #[trigger]
            timeout_answers(ids@, now, inputs) && final(queue).urgent() == queue.urgent()
                + signals_of(ids@, inputs);
        let at = lemma_timeouts_signalled(ids@, now, inputs);
        assert(timeouts_signalled(ids@, now, at, signals_of(ids@, inputs)));
    }
}

/// Items that were found are signalled at the front of the queue, each of them whatever became of
/// the others, and the signals that were pushed before keep their places.
pub proof fn law_found_items_are_signalled<K>(pairs: &Vec<RetainPair<K>>) where
    K: Timeout,
    K::Message: TimeoutMessage<K>,

    ensures
        forall|queue: &mut SignalQueue<K>| #[trigger]
            call_ensures(signal_returns::<K>, (pairs, queue), ()) ==> {
                &&& final(queue).ordinary() == queue.ordinary()
                &&& exists|at: Seq<int>, signals: Seq<Signal<K>>| #[trigger]
                    items_signalled(pairs@, at, signals) && final(queue).urgent()
                        == queue.urgent() + signals
            },
{
    assert forall|queue: &mut SignalQueue<K>| #[trigger]
        call_ensures(signal_returns::<K>, (pairs, queue), ()) implies exists|
        at: Seq<int>,
        signals: Seq<Signal<K>>,
    | #[trigger]
        items_signalled(pairs@, at, signals) && final(queue).urgent() == queue.urgent()
            + signals by {
        let returned = choose|returned: Seq<Option<K::Input>>| #[trigger]
            return_answers(pairs@, returned) && final(queue).urgent() == queue.urgent()
                + signals_of(ids_of(pairs@), returned);
        let at = lemma_items_signalled(pairs@, returned);
        assert(items_signalled(pairs@, at, signals_of(ids_of(pairs@), returned)));
    }
}

/// What a look at the ledger finds, and the signals that come of it.
pub struct Found<K: Rex> where K::Message: TimeoutMessage<K> {
    /// The states whose timeouts are due.
    pub ids: Seq<StateId<K>>,
    /// Which of them are signalled.
    pub ids_at: Seq<int>,
    /// The signals for them.
    pub timed: Seq<Signal<K>>,
    /// Where the items that are due stand.
    pub spots: Seq<Spot>,
    /// The items that are due.
    pub pairs: Seq<(StateId<K>, RetainItem<K>)>,
    /// Which of them are signalled.
    pub pairs_at: Seq<int>,
    /// The signals for them.
    pub returned: Seq<Signal<K>>,
}

/// Whether `found` is what a look at the ledger finds at `now`, with the signals that come of it.
pub open spec fn finds<K>(
    deadlines: Map<StateId<K>, Instant>,
    retained: Map<Instant, Seq<(StateId<K>, RetainItem<K>)>>,
    now: Instant,
    found: Found<K>,
) -> bool where K: Timeout, K::Message: TimeoutMessage<K> {
    &&& due_timeouts(deadlines, now, found.ids)
    &&& timeouts_signalled(found.ids, now, found.ids_at, found.timed)
    &&& due_spots(retained, now, found.spots)
    &&& items_stand(retained, found.spots, found.pairs)
    &&& items_signalled(found.pairs, found.pairs_at, found.returned)
}

/// The signals of a look are those for what it finds, first for the timeouts and then for the
/// items, and there are no others.
proof fn lemma_signals_are_found<K>(
    deadlines: Map<StateId<K>, Instant>,
    retained: Map<Instant, Seq<(StateId<K>, RetainItem<K>)>>,
    now: Instant,
    signals: Seq<Signal<K>>,
) -> (found: Found<K>) where K: Timeout, K::Message: TimeoutMessage<K>
    requires
        tick_signals(deadlines, retained, now, signals),
    ensures
        finds(deadlines, retained, now, found),
        signals == found.timed + found.returned,
{
    let (ids, inputs, pairs, answers) = choose|
        ids: Seq<StateId<K>>,
        inputs: Seq<Option<K::Input>>,
        pairs: Seq<(StateId<K>, RetainItem<K>)>,
        answers: Seq<Option<K::Input>>,
    | #[trigger]
        tick_parts(deadlines, retained, now, ids, inputs, pairs, answers, signals);
    Found {
        ids,
        ids_at: lemma_timeouts_signalled(ids, now, inputs),
        timed: signals_of(ids, inputs),
        spots: lemma_returns_stand(retained, now, pairs),
        pairs,
        pairs_at: lemma_items_signalled(pairs, answers),
        returned: signals_of(ids_of(pairs), answers),
    }
}

/// What a tick does: whatever is due leaves the ledger and is signalled at the front of the queue,
/// behind what was pushed there before, timeouts before items; whatever is still to come stays in
/// the ledger; and nothing else changes.
pub proof fn law_tick_signals_what_is_due<K>(now: Instant) where
    K: Timeout,
    K::Message: TimeoutMessage<K>,

    ensures
        forall|manager: &mut TimeoutManager<K>| #[trigger]
            call_ensures(TimeoutManager::<K>::tick, (manager, now), ()) ==> {
                &&& rest_stays(manager.deadlines(), now, final(manager).deadlines())
                &&& items_stay(manager.retained(), now, final(manager).retained())
                &&& final(manager).tick_rate == manager.tick_rate
                &&& final(manager).topic == manager.topic
                &&& final(manager).signal_queue.ordinary() == manager.signal_queue.ordinary()
                &&& exists|found: Found<K>| #[trigger]
                    finds(manager.deadlines(), manager.retained(), now, found)
                        && final(manager).signal_queue.urgent() == manager.signal_queue.urgent()
                        + found.timed + found.returned
            },
{
    assert forall|manager: &mut TimeoutManager<K>| #[trigger]
        call_ensures(TimeoutManager::<K>::tick, (manager, now), ()) implies exists|
        found: Found<K>,
    | #[trigger]
        finds(manager.deadlines(), manager.retained(), now, found)
            && final(manager).signal_queue.urgent() == manager.signal_queue.urgent() + found.timed
            + found.returned by {
        let signals = choose|signals: Seq<Signal<K>>| #[trigger]
            tick_signals(manager.deadlines(), manager.retained(), now, signals)
                && final(manager).signal_queue.urgent() == manager.signal_queue.urgent() + signals;
        let found = lemma_signals_are_found(
            manager.deadlines(),
            manager.retained(),
            now,
            signals,
        );
        assert(manager.signal_queue.urgent() + signals =~= manager.signal_queue.urgent()
            + found.timed + found.returned);
        assert(finds(manager.deadlines(), manager.retained(), now, found));
    }
}

/// A retained item that is due reaches its state: where the kind of the state always has an input
/// for the item, a look at the ledger gives a signal with such an input, whatever other kinds
/// answer.
pub proof fn law_item_becomes_signal<K>(
    deadlines: Map<StateId<K>, Instant>,
    retained: Map<Instant, Seq<(StateId<K>, RetainItem<K>)>>,
    now: Instant,
    signals: Seq<Signal<K>>,
    id: StateId<K>,
    item: RetainItem<K>,
    instant: Instant,
) where K: Timeout, K::Message: TimeoutMessage<K>
    requires
        tick_signals(deadlines, retained, now, signals),
        retained.contains_key(instant),
        instant.nanos <= now.nanos,
        retained[instant].contains((id, item)),
        forall|input: Option<K::Input>| #[trigger]
            call_ensures(K::return_item, (&id.kind, item), input) ==> input is Some,
    ensures
        exists|p: int|
            0 <= p < signals.len() && (#[trigger] signals[p]).id == id && call_ensures(
                K::return_item,
                (&id.kind, item),
                Some(signals[p].input),
            ),
{
    let found = lemma_signals_are_found(deadlines, retained, now, signals);
    let n = choose|n: int| 0 <= n < retained[instant].len() && retained[instant][n] == (id, item);
    assert(found.spots.contains((instant, n)));
    let i = choose|i: int| 0 <= i < found.spots.len() && found.spots[i] == (instant, n);
    assert(found.pairs[i] == (id, item));
    assert(found.pairs_at.contains(i));
    let q = choose|q: int| 0 <= q < found.pairs_at.len() && found.pairs_at[q] == i;
    assert(signals[found.timed.len() + q] == found.returned[q]);
}

/// Items that are due are handed back in the order of their spots: of two items whose kinds always
/// have inputs for them, the one that is to come sooner is signalled first.
pub proof fn law_sooner_item_first<K>(
    deadlines: Map<StateId<K>, Instant>,
    retained: Map<Instant, Seq<(StateId<K>, RetainItem<K>)>>,
    now: Instant,
    signals: Seq<Signal<K>>,
    a: Spot,
    b: Spot,
) where K: Timeout, K::Message: TimeoutMessage<K>
    requires
        tick_signals(deadlines, retained, now, signals),
        retained.contains_key(a.0) && 0 <= a.1 < retained[a.0].len(),
        retained.contains_key(b.0) && 0 <= b.1 < retained[b.0].len(),
        b.0.nanos <= now.nanos,
        sooner(a, b),
        forall|input: Option<K::Input>| #[trigger]
            call_ensures(
                K::return_item,
                (&retained[a.0][a.1].0.kind, retained[a.0][a.1].1),
                input,
            ) ==> input is Some,
        forall|input: Option<K::Input>| #[trigger]
            call_ensures(
                K::return_item,
                (&retained[b.0][b.1].0.kind, retained[b.0][b.1].1),
                input,
            ) ==> input is Some,
    ensures
        exists|p: int, q: int|
            {
                &&& 0 <= p < q < signals.len()
                &&& (#[trigger] signals[p]).id == retained[a.0][a.1].0
                &&& (#[trigger] signals[q]).id == retained[b.0][b.1].0
                &&& call_ensures(
                    K::return_item,
                    (&retained[a.0][a.1].0.kind, retained[a.0][a.1].1),
                    Some(signals[p].input),
                )
                &&& call_ensures(
                    K::return_item,
                    (&retained[b.0][b.1].0.kind, retained[b.0][b.1].1),
                    Some(signals[q].input),
                )
            },
{
    let found = lemma_signals_are_found(deadlines, retained, now, signals);
    assert(found.spots.contains(a) && found.spots.contains(b));
    let i = choose|i: int| 0 <= i < found.spots.len() && found.spots[i] == a;
    let j = choose|j: int| 0 <= j < found.spots.len() && found.spots[j] == b;
    assert(i < j) by {
        if j < i {
            assert(sooner(found.spots[j], found.spots[i]));
        }
    }
    assert(found.pairs[i] == retained[a.0][a.1]);
    assert(found.pairs[j] == retained[b.0][b.1]);
    assert(found.pairs_at.contains(i) && found.pairs_at.contains(j));
    let p = choose|p: int| 0 <= p < found.pairs_at.len() && found.pairs_at[p] == i;
    let q = choose|q: int| 0 <= q < found.pairs_at.len() && found.pairs_at[q] == j;
    assert(p < q) by {
        if q < p {
            assert(found.pairs_at[q] < found.pairs_at[p]);
        }
    }
    assert(signals[found.timed.len() + p] == found.returned[p]);
    assert(signals[found.timed.len() + q] == found.returned[q]);
}

/// A state for which nothing is due hears nothing: it has no timeout, or one whose instant is
/// still to come, and every item of it is still to come.
pub proof fn law_nothing_due_nothing_heard<K>(
    deadlines: Map<StateId<K>, Instant>,
    retained: Map<Instant, Seq<(StateId<K>, RetainItem<K>)>>,
    now: Instant,
    signals: Seq<Signal<K>>,
    id: StateId<K>,
    p: int,
) where K: Timeout, K::Message: TimeoutMessage<K>
    requires
        tick_signals(deadlines, retained, now, signals),
        deadlines.contains_key(id) ==> deadlines[id].nanos > now.nanos,
        forall|instant: Instant, i: int|
            #![trigger retained[instant][i]]
            retained.contains_key(instant) && 0 <= i < retained[instant].len()
                && retained[instant][i].0 == id ==> instant.nanos > now.nanos,
        0 <= p < signals.len(),
    ensures
        signals[p].id != id,
{
    let found = lemma_signals_are_found(deadlines, retained, now, signals);
    if p < found.timed.len() {
        assert(signals[p] == found.timed[p]);
        assert(0 <= found.ids_at[p] < found.ids.len());
        assert(found.ids.contains(found.ids[found.ids_at[p]]));
    } else {
        let q = p - found.timed.len();
        assert(signals[p] == found.returned[q]);
        let i = found.pairs_at[q];
        assert(0 <= i < found.pairs.len());
        assert(found.spots.contains(found.spots[i]));
        assert(found.pairs[i] == retained[found.spots[i].0][found.spots[i].1]);
    }
}

/// A timeout is signalled once: where no item of a state is due, one look at the ledger gives one
/// signal for it at most.
pub proof fn law_one_signal_for_a_timeout<K>(
    deadlines: Map<StateId<K>, Instant>,
    retained: Map<Instant, Seq<(StateId<K>, RetainItem<K>)>>,
    now: Instant,
    signals: Seq<Signal<K>>,
    p: int,
    q: int,
) where K: Timeout, K::Message: TimeoutMessage<K>
    requires
        tick_signals(deadlines, retained, now, signals),
        0 <= p < signals.len(),
        0 <= q < signals.len(),
        signals[p].id == signals[q].id,
        forall|instant: Instant, i: int|
            #![trigger retained[instant][i]]
            retained.contains_key(instant) && 0 <= i < retained[instant].len()
                && retained[instant][i].0 == signals[p].id ==> instant.nanos > now.nanos,
    ensures
        p == q,
        deadlines.contains_key(signals[p].id),
        deadlines[signals[p].id].nanos <= now.nanos,
        call_ensures(K::timeout_input, (&signals[p].id.kind, now), Some(signals[p].input)),
{
    let found = lemma_signals_are_found(deadlines, retained, now, signals);
    assert forall|r: int| found.timed.len() <= r < signals.len() implies (
    #[trigger] signals[r]).id != signals[p].id by {
        let i = found.pairs_at[r - found.timed.len()];
        assert(signals[r] == found.returned[r - found.timed.len()]);
        assert(0 <= i < found.pairs.len());
        assert(found.spots.contains(found.spots[i]));
        assert(found.pairs[i] == retained[found.spots[i].0][found.spots[i].1]);
    }
    assert(signals[p] == found.timed[p] && signals[q] == found.timed[q]);
    assert(0 <= found.ids_at[p] < found.ids.len() && 0 <= found.ids_at[q] < found.ids.len());
    assert(found.ids.contains(found.ids[found.ids_at[p]]));
    if p < q {
        assert(found.ids_at[p] < found.ids_at[q]);
    } else if q < p {
        assert(found.ids_at[q] < found.ids_at[p]);
    }
}

/// What is asked for is what happens: a timeout that is set, and neither moved nor cancelled, is
/// signalled by the next tick at its instant or later, where the kind always has an input for it.
/// A tick before that leaves it set.
pub proof fn law_set_timeout_comes<K>(
    id: StateId<K>,
    instant: Instant,
    asked: Instant,
    receipt: Receipt,
    now: Instant,
) where K: Timeout, K::Message: TimeoutMessage<K>
    requires
        forall|input: Option<K::Input>| #[trigger]
            call_ensures(K::timeout_input, (&id.kind, now), input) ==> input is Some,
    ensures
        forall|manager: &mut TimeoutManager<K>, then: &mut TimeoutManager<K>|
            {
                &&& #[trigger] call_ensures(
                    TimeoutManager::<K>::handle,
                    (manager, Some(UnaryRequest { id, op: Operation::SetAt(instant) }), asked),
                    receipt,
                )
                &&& *then == *final(manager)
                &&& #[trigger] call_ensures(TimeoutManager::<K>::tick, (then, now), ())
            } ==> if instant.nanos <= now.nanos {
                &&& !final(then).deadlines().contains_key(id)
                &&& exists|p: int|
                    then.signal_queue.urgent().len() <= p
                        < final(then).signal_queue.urgent().len()
                        && (#[trigger] final(then).signal_queue.urgent()[p]).id == id
            } else {
                &&& final(then).deadlines().contains_key(id)
                &&& final(then).deadlines()[id].nanos == instant.nanos
            },
{
    law_tick_signals_what_is_due::<K>(now);
    assert forall|manager: &mut TimeoutManager<K>, then: &mut TimeoutManager<K>|
        {
            &&& #[trigger] call_ensures(
                TimeoutManager::<K>::handle,
                (manager, Some(UnaryRequest { id, op: Operation::SetAt(instant) }), asked),
                receipt,
            )
            &&& *then == *final(manager)
            &&& #[trigger] call_ensures(TimeoutManager::<K>::tick, (then, now), ())
        } implies if instant.nanos <= now.nanos {
        &&& !final(then).deadlines().contains_key(id)
        &&& exists|p: int|
            then.signal_queue.urgent().len() <= p < final(then).signal_queue.urgent().len() && (
            #[trigger] final(then).signal_queue.urgent()[p]).id == id
    } else {
        &&& final(then).deadlines().contains_key(id)
        &&& final(then).deadlines()[id].nanos == instant.nanos
    } by {
        assert(then.deadlines().contains_key(id) && then.deadlines()[id] == instant);
        if instant.nanos <= now.nanos {
            let found = choose|found: Found<K>| #[trigger]
                finds(then.deadlines(), then.retained(), now, found)
                    && final(then).signal_queue.urgent() == then.signal_queue.urgent() + found.timed
                    + found.returned;
            assert(found.ids.contains(id));
            let i = choose|i: int| 0 <= i < found.ids.len() && found.ids[i] == id;
            assert(found.ids_at.contains(i));
            let p = choose|p: int| 0 <= p < found.ids_at.len() && found.ids_at[p] == i;
            let at = then.signal_queue.urgent().len() + p;
            assert(final(then).signal_queue.urgent()[at] == found.timed[p]);
        } else {
            assert(same_at(then.deadlines(), final(then).deadlines(), id));
        }
    }
}

/// What is cancelled does not come: once the timeout of a state is cancelled, a tick gives no
/// signal for it, at whatever instant the timeout was set, unless an item of the state is due.
pub proof fn law_cancelled_timeout_does_not_come<K>(
    id: StateId<K>,
    asked: Instant,
    receipt: Receipt,
    now: Instant,
) where K: Timeout, K::Message: TimeoutMessage<K>
    ensures
        forall|manager: &mut TimeoutManager<K>, then: &mut TimeoutManager<K>, p: int|
            {
                &&& #[trigger] call_ensures(
                    TimeoutManager::<K>::handle,
                    (manager, Some(UnaryRequest { id, op: Operation::Cancel }), asked),
                    receipt,
                )
                &&& *then == *final(manager)
                &&& #[trigger] call_ensures(TimeoutManager::<K>::tick, (then, now), ())
                &&& forall|instant: Instant, i: int|
                    #![trigger then.retained()[instant][i]]
                    then.retained().contains_key(instant) && 0 <= i
                        < then.retained()[instant].len() && then.retained()[instant][i].0 == id
                        ==> instant.nanos > now.nanos
                &&& then.signal_queue.urgent().len() <= p < final(then).signal_queue.urgent().len()
            } ==> (#[trigger] final(then).signal_queue.urgent()[p]).id != id,
{
    assert forall|manager: &mut TimeoutManager<K>, then: &mut TimeoutManager<K>, p: int|
        {
            &&& #[trigger] call_ensures(
                TimeoutManager::<K>::handle,
                (manager, Some(UnaryRequest { id, op: Operation::Cancel }), asked),
                receipt,
            )
            &&& *then == *final(manager)
            &&& #[trigger] call_ensures(TimeoutManager::<K>::tick, (then, now), ())
            &&& forall|instant: Instant, i: int|
                #![trigger then.retained()[instant][i]]
                then.retained().contains_key(instant) && 0 <= i < then.retained()[instant].len()
                    && then.retained()[instant][i].0 == id ==> instant.nanos > now.nanos
            &&& then.signal_queue.urgent().len() <= p < final(then).signal_queue.urgent().len()
        } implies (#[trigger] final(then).signal_queue.urgent()[p]).id != id by {
        let signals = choose|signals: Seq<Signal<K>>| #[trigger]
            tick_signals(then.deadlines(), then.retained(), now, signals)
                && final(then).signal_queue.urgent() == then.signal_queue.urgent() + signals;
        law_nothing_due_nothing_heard(
            then.deadlines(),
            then.retained(),
            now,
            signals,
            id,
            p - then.signal_queue.urgent().len(),
        );
    }
}

/// What is retained comes back: an item that is retained is signalled to its state by the next
/// tick at its instant or later, where the kind always has an input for it. A tick before that
/// leaves it where it is.
pub proof fn law_retained_item_comes_back<K>(
    id: StateId<K>,
    item: RetainItem<K>,
    instant: Instant,
    asked: Instant,
    receipt: Receipt,
    now: Instant,
) where K: Timeout, K::Message: TimeoutMessage<K>
    requires
        forall|input: Option<K::Input>| #[trigger]
            call_ensures(K::return_item, (&id.kind, item), input) ==> input is Some,
    ensures
        forall|manager: &mut TimeoutManager<K>, then: &mut TimeoutManager<K>|
            {
                &&& #[trigger] call_ensures(
                    TimeoutManager::<K>::handle,
                    (
                        manager,
                        Some(UnaryRequest { id, op: Operation::Retain(item, instant) }),
                        asked,
                    ),
                    receipt,
                )
                &&& *then == *final(manager)
                &&& #[trigger] call_ensures(TimeoutManager::<K>::tick, (then, now), ())
            } ==> if instant.nanos <= now.nanos {
                exists|p: int|
                    {
                        &&& then.signal_queue.urgent().len() <= p
                            < final(then).signal_queue.urgent().len()
                        &&& (#[trigger] final(then).signal_queue.urgent()[p]).id == id
                        &&& call_ensures(
                            K::return_item,
                            (&id.kind, item),
                            Some(final(then).signal_queue.urgent()[p].input),
                        )
                    }
            } else {
                &&& final(then).retained().contains_key(instant)
                &&& final(then).retained()[instant].last() == (id, item)
            },
{
    law_tick_signals_what_is_due::<K>(now);
    assert forall|manager: &mut TimeoutManager<K>, then: &mut TimeoutManager<K>|
        {
            &&& #[trigger] call_ensures(
                TimeoutManager::<K>::handle,
                (manager, Some(UnaryRequest { id, op: Operation::Retain(item, instant) }), asked),
                receipt,
            )
            &&& *then == *final(manager)
            &&& #[trigger] call_ensures(TimeoutManager::<K>::tick, (then, now), ())
        } implies if instant.nanos <= now.nanos {
        exists|p: int|
            {
                &&& then.signal_queue.urgent().len() <= p < final(then).signal_queue.urgent().len()
                &&& (#[trigger] final(then).signal_queue.urgent()[p]).id == id
                &&& call_ensures(
                    K::return_item,
                    (&id.kind, item),
                    Some(final(then).signal_queue.urgent()[p].input),
                )
            }
    } else {
        &&& final(then).retained().contains_key(instant)
        &&& final(then).retained()[instant].last() == (id, item)
    } by {
        let waiting = then.retained()[instant];
        assert(then.retained().contains_key(instant) && waiting.last() == (id, item));
        if instant.nanos <= now.nanos {
            assert(waiting[waiting.len() - 1] == (id, item));
            let signals = choose|signals: Seq<Signal<K>>| #[trigger]
                tick_signals(then.deadlines(), then.retained(), now, signals)
                    && final(then).signal_queue.urgent() == then.signal_queue.urgent() + signals;
            law_item_becomes_signal(
                then.deadlines(),
                then.retained(),
                now,
                signals,
                id,
                item,
                instant,
            );
            let p = choose|p: int|
                0 <= p < signals.len() && (#[trigger] signals[p]).id == id && call_ensures(
                    K::return_item,
                    (&id.kind, item),
                    Some(signals[p].input),
                );
            let at = then.signal_queue.urgent().len() + p;
            assert(final(then).signal_queue.urgent()[at] == signals[p]);
        } else {
            assert(same_at(then.retained(), final(then).retained(), instant));
        }
    }
}

} // verus!
