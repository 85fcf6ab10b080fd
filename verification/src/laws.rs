//! Laws of the library: what holds of its operations together.

use crate::hms::hms;
use crate::kind::{Kind, StateId};
use crate::ledger::{
    ascending, chained, deadlines_after, due_instants, expired, expires_as, items_at, lint,
    later_than, retained_after, returns_as, TimeoutLedger,
};
use crate::manager::{handled, ids_of, tick_parts, tick_signals, Receipt};
use crate::request::{Operation, RetainItem, Timeout, TimeoutInput, TimeoutMessage, UnaryRequest};
use crate::signal::{signal_of, signals_of, Signal};
use crate::storage::Tree;
use crate::time::{Instant, NANOS_PER_SEC};
use vstd::prelude::*;

verus! {

/// The timeout that is set last is the one that counts: what was set for the state before
/// makes no difference.
pub proof fn law_last_set_counts<K, T>(
    deadlines: Map<StateId<K>, Instant>,
    id: StateId<K>,
    first: Instant,
    second: Instant,
)
    ensures
        deadlines_after(
            deadlines_after(
                deadlines,
                UnaryRequest { id, op: Operation::<T>::SetAt(first) },
            ),
            UnaryRequest { id, op: Operation::<T>::SetAt(second) },
        ) == deadlines_after(
            deadlines,
            UnaryRequest { id, op: Operation::<T>::SetAt(second) },
        ),
        deadlines_after(
            deadlines,
            UnaryRequest { id, op: Operation::<T>::SetAt(second) },
        )[id] == second,
{
    assert(deadlines.insert(id, first).insert(id, second) =~= deadlines.insert(id, second));
}

/// To cancel undoes what was set: a state whose timeout was set and then cancelled is left as
/// one whose timeout was cancelled, or as it was where it had none.
pub proof fn law_cancel_undoes_set<K, T>(
    deadlines: Map<StateId<K>, Instant>,
    id: StateId<K>,
    instant: Instant,
)
    ensures
        deadlines_after(
            deadlines_after(
                deadlines,
                UnaryRequest { id, op: Operation::<T>::SetAt(instant) },
            ),
            UnaryRequest { id, op: Operation::<T>::Cancel },
        ) == deadlines_after(deadlines, UnaryRequest { id, op: Operation::<T>::Cancel }),
        !deadlines.contains_key(id) ==> deadlines_after(
            deadlines_after(
                deadlines,
                UnaryRequest { id, op: Operation::<T>::SetAt(instant) },
            ),
            UnaryRequest { id, op: Operation::<T>::Cancel },
        ) == deadlines,
{
    assert(deadlines.insert(id, instant).remove(id) =~= deadlines.remove(id));
    if !deadlines.contains_key(id) {
        assert(deadlines.remove(id) =~= deadlines);
    }
}

/// A request concerns one state only: the timeouts of the others stay as they are.
pub proof fn law_requests_are_local<K, T>(
    deadlines: Map<StateId<K>, Instant>,
    request: UnaryRequest<K, Operation<T>>,
    other: StateId<K>,
)
    requires
        other != request.id,
    ensures
        deadlines_after(deadlines, request).contains_key(other) == deadlines.contains_key(other),
        deadlines.contains_key(other) ==> deadlines_after(deadlines, request)[other]
            == deadlines[other],
{
}

/// A request to retain leaves the timeouts of all states as they are, that of its own state
/// included; to cancel leaves its state without a timeout, and to set leaves it with the one that
/// is asked for.
pub proof fn law_requests_do_what_they_ask<K, T>(
    deadlines: Map<StateId<K>, Instant>,
    request: UnaryRequest<K, Operation<T>>,
)
    ensures
        request.op is Retain ==> deadlines_after(deadlines, request) == deadlines,
        request.op is Cancel ==> !deadlines_after(deadlines, request).contains_key(request.id),
        request.op is SetAt ==> deadlines_after(deadlines, request).contains_key(request.id)
            && deadlines_after(deadlines, request)[request.id].nanos == request.op->SetAt_0.nanos,
{
}

/// No request takes a retained item away, and to cancel a timeout leaves the items of the state
/// where they are.
pub proof fn law_items_are_kept<K, T>(
    retained: Map<Instant, Seq<(StateId<K>, T)>>,
    request: UnaryRequest<K, Operation<T>>,
    instant: Instant,
)
    ensures
        items_at(retained, instant).is_prefix_of(
            items_at(retained_after(retained, request), instant),
        ),
        !(request.op is Retain) ==> retained_after(retained, request) == retained,
{
    let before = items_at(retained, instant);
    let after = items_at(retained_after(retained, request), instant);
    assert(after.subrange(0, before.len() as int) =~= before);
}

/// The timeouts that a sequence of messages leaves, where each message is a request or none.
pub open spec fn deadlines_after_all<K, T>(
    deadlines: Map<StateId<K>, Instant>,
    messages: Seq<Option<UnaryRequest<K, Operation<T>>>>,
) -> Map<StateId<K>, Instant>
    decreases messages.len(),
{
    if messages.len() == 0 {
        deadlines
    } else {
        let before = deadlines_after_all(deadlines, messages.drop_last());
        match messages.last() {
            Some(request) => deadlines_after(before, request),
            None => before,
        }
    }
}

/// The retained items that a sequence of messages leaves, where each message is a request or none.
pub open spec fn retained_after_all<K, T>(
    retained: Map<Instant, Seq<(StateId<K>, T)>>,
    messages: Seq<Option<UnaryRequest<K, Operation<T>>>>,
) -> Map<Instant, Seq<(StateId<K>, T)>>
    decreases messages.len(),
{
    if messages.len() == 0 {
        retained
    } else {
        let before = retained_after_all(retained, messages.drop_last());
        match messages.last() {
            Some(request) => retained_after(before, request),
            None => before,
        }
    }
}

/// One more request is one more step, taken from where the messages before it lead.
pub proof fn law_next_request_is_one_step<K, T>(
    deadlines: Map<StateId<K>, Instant>,
    retained: Map<Instant, Seq<(StateId<K>, T)>>,
    messages: Seq<Option<UnaryRequest<K, Operation<T>>>>,
    request: UnaryRequest<K, Operation<T>>,
)
    ensures
        deadlines_after_all(deadlines, messages.push(Some(request))) == deadlines_after(
            deadlines_after_all(deadlines, messages),
            request,
        ),
        retained_after_all(retained, messages.push(Some(request))) == retained_after(
            retained_after_all(retained, messages),
            request,
        ),
{
    assert(messages.push(Some(request)).drop_last() =~= messages);
}

/// Messages that follow others start from where those lead.
pub proof fn law_messages_follow_on<K, T>(
    deadlines: Map<StateId<K>, Instant>,
    retained: Map<Instant, Seq<(StateId<K>, T)>>,
    first: Seq<Option<UnaryRequest<K, Operation<T>>>>,
    second: Seq<Option<UnaryRequest<K, Operation<T>>>>,
)
    ensures
        deadlines_after_all(deadlines, first + second) == deadlines_after_all(
            deadlines_after_all(deadlines, first),
            second,
        ),
        retained_after_all(retained, first + second) == retained_after_all(
            retained_after_all(retained, first),
            second,
        ),
    decreases second.len(),
{
    if second.len() == 0 {
        assert(first + second =~= first);
    } else {
        law_messages_follow_on(deadlines, retained, first, second.drop_last());
        assert((first + second).drop_last() =~= first + second.drop_last());
    }
}

/// Messages change the ledger in the order in which they are handled, each by one step of its
/// own: where each message takes the ledger from one state to the next, the last state is the
/// one that the requests lead to, one after the other, and messages without a request count for
/// nothing.
pub proof fn law_messages_act_in_order<K>(
    ledgers: Seq<TimeoutLedger<K>>,
    messages: Seq<Option<TimeoutInput<K>>>,
    times: Seq<Instant>,
    receipts: Seq<Receipt>,
) where K: Timeout, K::Message: TimeoutMessage<K>
    requires
        ledgers.len() == messages.len() + 1,
        forall|i: int|
            0 <= i < messages.len() ==> handled(
                ledgers[i],
                #[trigger] messages[i],
                times[i],
                ledgers[i + 1],
                receipts[i],
            ),
    ensures
        ledgers.last().deadlines() == deadlines_after_all(ledgers[0].deadlines(), messages),
        ledgers.last().retained() == retained_after_all(ledgers[0].retained(), messages),
    decreases messages.len(),
{
    if messages.len() > 0 {
        let last = messages.len() - 1;
        assert(handled(
            ledgers[last],
            messages[last],
            times[last],
            ledgers[last + 1],
            receipts[last],
        ));
        assert forall|i: int| 0 <= i < messages.drop_last().len() implies handled(
            ledgers.drop_last()[i],
            #[trigger] messages.drop_last()[i],
            times[i],
            ledgers.drop_last()[i + 1],
            receipts[i],
        ) by {
            assert(messages[i] == messages.drop_last()[i]);
        }
        law_messages_act_in_order(ledgers.drop_last(), messages.drop_last(), times, receipts);
    }
}

/// A look at the ledger finds a timeout at its instant or later, not earlier.
pub proof fn law_no_timeout_is_early<K>(
    deadlines: Map<StateId<K>, Instant>,
    now: Instant,
    ids: Seq<StateId<K>>,
    i: int,
)
    requires
        expires_as(deadlines, now, ids),
        0 <= i < ids.len(),
    ensures
        deadlines.contains_key(ids[i]),
        deadlines[ids[i]].nanos <= now.nanos,
{
    assert(ids.contains(ids[i]));
}

/// What a look at the ledger has found it does not find again: no state times out twice for one
/// request, however often the ledger is looked at.
pub proof fn law_no_timeout_comes_twice<K>(
    deadlines: Map<StateId<K>, Instant>,
    now: Instant,
    ids: Seq<StateId<K>>,
    later: Instant,
    later_ids: Seq<StateId<K>>,
    id: StateId<K>,
)
    requires
        expires_as(deadlines, now, ids),
        expires_as(deadlines.remove_keys(expired(deadlines, now)), later, later_ids),
        ids.contains(id),
    ensures
        !later_ids.contains(id),
{
}

/// Two looks at the ledger, one after the other, find what the later one alone would find, and
/// in such an order: earlier timeouts before later ones, whichever look finds them.
pub proof fn law_looks_add_up<K>(
    deadlines: Map<StateId<K>, Instant>,
    now: Instant,
    ids: Seq<StateId<K>>,
    later: Instant,
    later_ids: Seq<StateId<K>>,
)
    requires
        now.nanos <= later.nanos,
        expires_as(deadlines, now, ids),
        expires_as(deadlines.remove_keys(expired(deadlines, now)), later, later_ids),
    ensures
        expires_as(deadlines, later, ids + later_ids),
        deadlines.remove_keys(expired(deadlines, now)).remove_keys(
            expired(deadlines.remove_keys(expired(deadlines, now)), later),
        ) == deadlines.remove_keys(expired(deadlines, later)),
{
    let left = deadlines.remove_keys(expired(deadlines, now));
    let all = ids + later_ids;
    assert forall|i: int, j: int| 0 <= i < j < all.len() implies deadlines[#[trigger] all[i]].nanos
        <= deadlines[#[trigger] all[j]].nanos && all[i] != all[j] by {
        if j < ids.len() {
            assert(all[i] == ids[i] && all[j] == ids[j]);
        } else if i < ids.len() {
            assert(ids.contains(all[i]));
            assert(later_ids.contains(all[j])) by {
                assert(later_ids[j - ids.len()] == all[j]);
            }
        } else {
            assert(later_ids[i - ids.len()] == all[i] && later_ids[j - ids.len()] == all[j]);
            assert(later_ids.contains(all[i]) && later_ids.contains(all[j]));
        }
    }
    assert forall|id: StateId<K>| #[trigger] all.contains(id) <==> expired(
        deadlines,
        later,
    ).contains(id) by {
        if all.contains(id) {
            let i = choose|i: int| 0 <= i < all.len() && all[i] == id;
            if i < ids.len() {
                assert(ids.contains(id));
            } else {
                assert(later_ids[i - ids.len()] == id);
                assert(later_ids.contains(id));
            }
        }
        if expired(deadlines, later).contains(id) {
            if deadlines[id].nanos <= now.nanos {
                assert(ids.contains(id));
                let i = choose|i: int| 0 <= i < ids.len() && ids[i] == id;
                assert(all[i] == id);
            } else {
                assert(later_ids.contains(id));
                let i = choose|i: int| 0 <= i < later_ids.len() && later_ids[i] == id;
                assert(all[ids.len() + i] == id);
            }
        }
    }
    assert(left.remove_keys(expired(left, later)) =~= deadlines.remove_keys(
        expired(deadlines, later),
    ));
}

/// The instants at which something is due are what they are: there is one sequence of them.
proof fn lemma_one_sequence(a: Seq<Instant>, b: Seq<Instant>)
    requires
        ascending(a),
        ascending(b),
        forall|instant: Instant| #[trigger] a.contains(instant) <==> b.contains(instant),
    ensures
        a == b,
    decreases a.len(),
{
    if a.len() == 0 {
        if b.len() > 0 {
            assert(b.contains(b[0]) && a.contains(b[0]));
        }
        assert(a =~= b);
    } else {
        assert(a.contains(a.last()));
        let i = choose|i: int| 0 <= i < b.len() && b[i] == a.last();
        assert(b.contains(b.last()) && a.contains(b.last()));
        let j = choose|j: int| 0 <= j < a.len() && a[j] == b.last();
        assert(a.last() == b.last()) by {
            if i < b.len() - 1 && j < a.len() - 1 {
                assert(b[i].nanos < b[b.len() - 1].nanos);
                assert(a[j].nanos < a[a.len() - 1].nanos);
            }
        }
        let c = a.drop_last();
        let d = b.drop_last();
        assert forall|instant: Instant| #[trigger] c.contains(instant) <==> d.contains(instant) by {
            if c.contains(instant) {
                let k = choose|k: int| 0 <= k < c.len() && c[k] == instant;
                assert(a[k] == instant && a[k].nanos < a[a.len() - 1].nanos);
                assert(a.contains(a[k]));
                assert(b.contains(instant));
                let l = choose|l: int| 0 <= l < b.len() && b[l] == instant;
                assert(d[l] == instant);
            }
            if d.contains(instant) {
                let k = choose|k: int| 0 <= k < d.len() && d[k] == instant;
                assert(b[k] == instant && b[k].nanos < b[b.len() - 1].nanos);
                assert(b.contains(b[k]));
                assert(a.contains(instant));
                let l = choose|l: int| 0 <= l < a.len() && a[l] == instant;
                assert(c[l] == instant);
            }
        }
        lemma_one_sequence(c, d);
        assert(a =~= c.push(a.last()));
        assert(b =~= d.push(b.last()));
    }
}

/// Items of more instants follow those of the first ones.
proof fn lemma_chained_append<P>(
    retained: Map<Instant, Seq<P>>,
    first: Seq<Instant>,
    second: Seq<Instant>,
)
    ensures
        chained(retained, first + second) == chained(retained, first) + chained(retained, second),
    decreases second.len(),
{
    if second.len() == 0 {
        assert(first + second =~= first);
        assert(chained(retained, first) + chained(retained, second) =~= chained(retained, first));
    } else {
        lemma_chained_append(retained, first, second.drop_last());
        assert((first + second).drop_last() =~= first + second.drop_last());
        assert((first + second).last() == second.last());
        assert(chained(retained, first + second) =~= chained(retained, first) + chained(
            retained,
            second,
        ));
    }
}

/// Only the items of the instants in question matter.
proof fn lemma_chained_agrees<P>(
    a: Map<Instant, Seq<P>>,
    b: Map<Instant, Seq<P>>,
    instants: Seq<Instant>,
)
    requires
        forall|instant: Instant| #[trigger] instants.contains(instant) ==> a[instant] == b[instant],
    ensures
        chained(a, instants) == chained(b, instants),
    decreases instants.len(),
{
    if instants.len() > 0 {
        assert(instants.contains(instants.last()));
        assert forall|instant: Instant| #[trigger]
            instants.drop_last().contains(instant) implies a[instant] == b[instant] by {
            let i = choose|i: int| 0 <= i < instants.len() - 1 && instants[i] == instant;
            assert(instants.contains(instant));
        }
        lemma_chained_agrees(a, b, instants.drop_last());
    }
}

/// Which items a look at the ledger hands back, and in which order, is fixed by what is retained
/// and by the time of the look.
pub proof fn law_returns_are_fixed<P>(
    retained: Map<Instant, Seq<P>>,
    now: Instant,
    pairs: Seq<P>,
    others: Seq<P>,
)
    requires
        returns_as(retained, now, pairs),
        returns_as(retained, now, others),
    ensures
        pairs == others,
{
    let a = choose|a: Seq<Instant>| #[trigger]
        due_instants(retained, now, a) && pairs == chained(retained, a);
    let b = choose|b: Seq<Instant>| #[trigger]
        due_instants(retained, now, b) && others == chained(retained, b);
    lemma_one_sequence(a, b);
}

/// Two looks at the ledger, one after the other, hand back what the later one alone would hand
/// back, in the same order.
pub proof fn law_returns_add_up<P>(
    retained: Map<Instant, Seq<P>>,
    now: Instant,
    pairs: Seq<P>,
    later: Instant,
    later_pairs: Seq<P>,
)
    requires
        now.nanos <= later.nanos,
        returns_as(retained, now, pairs),
        returns_as(retained.restrict(later_than(now)), later, later_pairs),
    ensures
        returns_as(retained, later, pairs + later_pairs),
        retained.restrict(later_than(now)).restrict(later_than(later)) == retained.restrict(
            later_than(later),
        ),
{
    let left = retained.restrict(later_than(now));
    let a = choose|a: Seq<Instant>| #[trigger]
        due_instants(retained, now, a) && pairs == chained(retained, a);
    let b = choose|b: Seq<Instant>| #[trigger]
        due_instants(left, later, b) && later_pairs == chained(left, b);
    let all = a + b;
    assert forall|i: int, j: int| 0 <= i < j < all.len() implies (#[trigger] all[i]).nanos < (
    #[trigger] all[j]).nanos by {
        if j < a.len() {
            assert(a[i].nanos < a[j].nanos);
        } else if i < a.len() {
            assert(a.contains(a[i]) && b.contains(b[j - a.len()]));
        } else {
            assert(b[i - a.len()].nanos < b[j - a.len()].nanos);
        }
    }
    assert forall|instant: Instant| #[trigger] all.contains(instant) <==> retained.contains_key(
        instant,
    ) && instant.nanos <= later.nanos by {
        if all.contains(instant) {
            let i = choose|i: int| 0 <= i < all.len() && all[i] == instant;
            if i < a.len() {
                assert(a[i] == instant);
                assert(a.contains(instant));
            } else {
                assert(b[i - a.len()] == instant);
                assert(b.contains(instant));
            }
        }
        if retained.contains_key(instant) && instant.nanos <= later.nanos {
            if instant.nanos <= now.nanos {
                assert(a.contains(instant));
                let i = choose|i: int| 0 <= i < a.len() && a[i] == instant;
                assert(all[i] == instant);
            } else {
                assert(left.contains_key(instant));
                assert(b.contains(instant));
                let i = choose|i: int| 0 <= i < b.len() && b[i] == instant;
                assert(all[a.len() + i] == instant);
            }
        }
    }
    lemma_chained_agrees(left, retained, b);
    lemma_chained_append(retained, a, b);
    assert(due_instants(retained, later, all));
    assert(left.restrict(later_than(later)) =~= retained.restrict(later_than(later)));
}

/// The items of one instant stand together in a chain.
proof fn lemma_chained_part<P>(retained: Map<Instant, Seq<P>>, instants: Seq<Instant>, i: int)
    requires
        0 <= i < instants.len(),
    ensures
        part_at(
            chained(retained, instants),
            retained[instants[i]],
            chained(retained, instants.take(i)).len() as int,
        ),
    decreases instants.len(),
{
    let shorter = instants.drop_last();
    if i == instants.len() - 1 {
        assert(instants.take(i) =~= shorter);
        assert(chained(retained, instants).subrange(
            chained(retained, shorter).len() as int,
            chained(retained, instants).len() as int,
        ) =~= retained[instants[i]]);
    } else {
        lemma_chained_part(retained, shorter, i);
        assert(shorter.take(i) =~= instants.take(i));
        let start = chained(retained, instants.take(i)).len() as int;
        let end = start + retained[instants[i]].len();
        assert(chained(retained, instants).subrange(start, end) =~= chained(
            retained,
            shorter,
        ).subrange(start, end));
    }
}

/// Whether `part` stands in `whole` from position `start` on.
pub open spec fn part_at<P>(whole: Seq<P>, part: Seq<P>, start: int) -> bool {
    &&& 0 <= start <= start + part.len() <= whole.len()
    &&& whole.subrange(start, start + part.len()) == part
}

/// Nothing that is retained is lost: once its instant has come, the next look at the ledger
/// hands all items of the instant back, together and in the order in which they came.
pub proof fn law_items_come_back<P>(
    retained: Map<Instant, Seq<P>>,
    now: Instant,
    pairs: Seq<P>,
    instant: Instant,
)
    requires
        returns_as(retained, now, pairs),
        instant.nanos <= now.nanos,
    ensures
        exists|start: int| #[trigger] part_at(pairs, items_at(retained, instant), start),
{
    let instants = choose|instants: Seq<Instant>| #[trigger]
        due_instants(retained, now, instants) && pairs == chained(retained, instants);
    if retained.contains_key(instant) {
        assert(instants.contains(instant));
        let i = choose|i: int| 0 <= i < instants.len() && instants[i] == instant;
        lemma_chained_part(retained, instants, i);
        assert(part_at(
            pairs,
            items_at(retained, instant),
            chained(retained, instants.take(i)).len() as int,
        ));
    } else {
        assert(pairs.subrange(0, 0) =~= Seq::<P>::empty());
        assert(part_at(pairs, items_at(retained, instant), 0));
    }
}

/// No item is handed back before its instant: what a look hands back was retained until an
/// instant no later than the look.
pub proof fn law_no_item_is_early<P>(
    retained: Map<Instant, Seq<P>>,
    now: Instant,
    pairs: Seq<P>,
    i: int,
)
    requires
        returns_as(retained, now, pairs),
        0 <= i < pairs.len(),
    ensures
        exists|instant: Instant| #[trigger]
            retained.contains_key(instant) && instant.nanos <= now.nanos
                && retained[instant].contains(pairs[i]),
{
    let instants = choose|instants: Seq<Instant>| #[trigger]
        due_instants(retained, now, instants) && pairs == chained(retained, instants);
    let at = lemma_chained_origin(retained, instants, i);
    assert(instants.contains(instants[at]));
    assert(retained.contains_key(instants[at]));
}

/// Every item of a chain is one of an instant of the chain.
proof fn lemma_chained_origin<P>(
    retained: Map<Instant, Seq<P>>,
    instants: Seq<Instant>,
    i: int,
) -> (at: int)
    requires
        0 <= i < chained(retained, instants).len(),
    ensures
        0 <= at < instants.len(),
        retained[instants[at]].contains(chained(retained, instants)[i]),
    decreases instants.len(),
{
    let shorter = chained(retained, instants.drop_last());
    if i < shorter.len() {
        lemma_chained_origin(retained, instants.drop_last(), i)
    } else {
        let last = retained[instants.last()];
        assert(last[i - shorter.len()] == chained(retained, instants)[i]);
        instants.len() - 1
    }
}

/// Where the signal for the id at `i` stands, if it has one.
spec fn place<K: Kind>(ids: Seq<StateId<K>>, inputs: Seq<Option<K::Input>>, i: int) -> int {
    signals_of(ids.take(i), inputs.take(i)).len() as int
}

/// An id that has an input has a signal.
proof fn lemma_signal_at<K: Kind>(ids: Seq<StateId<K>>, inputs: Seq<Option<K::Input>>, i: int)
    requires
        ids.len() == inputs.len(),
        0 <= i < ids.len(),
        inputs[i] is Some,
    ensures
        0 <= place(ids, inputs, i) < signals_of(ids, inputs).len(),
        signals_of(ids, inputs)[place(ids, inputs, i)] == (Signal::<K> {
            id: ids[i],
            input: inputs[i]->0,
        }),
    decreases ids.len(),
{
    let shorter = ids.drop_last();
    let fewer = inputs.drop_last();
    if i == ids.len() - 1 {
        assert(ids.take(i) =~= shorter);
        assert(inputs.take(i) =~= fewer);
    } else {
        lemma_signal_at(shorter, fewer, i);
        assert(shorter.take(i) =~= ids.take(i));
        assert(fewer.take(i) =~= inputs.take(i));
    }
}

/// Signals come in the order of their ids.
proof fn lemma_places_rise<K: Kind>(
    ids: Seq<StateId<K>>,
    inputs: Seq<Option<K::Input>>,
    i: int,
    j: int,
)
    requires
        ids.len() == inputs.len(),
        0 <= i < j < ids.len(),
        inputs[i] is Some,
    ensures
        place(ids, inputs, i) < place(ids, inputs, j),
{
    lemma_signal_at(ids.take(j), inputs.take(j), i);
    assert(ids.take(j).take(i) =~= ids.take(i));
    assert(inputs.take(j).take(i) =~= inputs.take(i));
}

/// Every signal is for an id that has an input.
proof fn lemma_signal_origin<K: Kind>(
    ids: Seq<StateId<K>>,
    inputs: Seq<Option<K::Input>>,
    p: int,
) -> (i: int)
    requires
        ids.len() == inputs.len(),
        0 <= p < signals_of(ids, inputs).len(),
    ensures
        0 <= i < ids.len(),
        inputs[i] == Some(signals_of(ids, inputs)[p].input),
        ids[i] == signals_of(ids, inputs)[p].id,
    decreases ids.len(),
{
    let before = signals_of(ids.drop_last(), inputs.drop_last());
    if p < before.len() {
        lemma_signal_origin(ids.drop_last(), inputs.drop_last(), p)
    } else {
        assert(signals_of(ids, inputs)[p] == signal_of(ids.last(), inputs.last())[p
            - before.len()]);
        ids.len() - 1
    }
}

/// A timeout whose instant has come reaches its state: where the kind of a state always has an input for
/// a timeout, the next look at the ledger puts a signal with such an input into the queue.
pub proof fn law_timeout_becomes_signal<K>(
    deadlines: Map<StateId<K>, Instant>,
    retained: Map<Instant, Seq<(StateId<K>, RetainItem<K>)>>,
    now: Instant,
    signals: Seq<Signal<K>>,
    id: StateId<K>,
) where K: Timeout, K::Message: TimeoutMessage<K>
    requires
        tick_signals(deadlines, retained, now, signals),
        deadlines.contains_key(id),
        deadlines[id].nanos <= now.nanos,
        forall|input: Option<K::Input>| #[trigger]
            call_ensures(K::timeout_input, (&id.kind, now), input) ==> input is Some,
    ensures
        exists|p: int|
            0 <= p < signals.len() && (#[trigger] signals[p]).id == id && call_ensures(
                K::timeout_input,
                (&id.kind, now),
                Some(signals[p].input),
            ),
{
    let (ids, inputs, pairs, returned) = choose|
        ids: Seq<StateId<K>>,
        inputs: Seq<Option<K::Input>>,
        pairs: Seq<(StateId<K>, RetainItem<K>)>,
        returned: Seq<Option<K::Input>>,
    | #[trigger]
        tick_parts(deadlines, retained, now, ids, inputs, pairs, returned, signals);
    assert(ids.contains(id));
    let i = choose|i: int| 0 <= i < ids.len() && ids[i] == id;
    assert(call_ensures(K::timeout_input, (&ids[i].kind, now), inputs[i]));
    lemma_signal_at(ids, inputs, i);
    let p = place(ids, inputs, i);
    assert(signals[p] == signals_of(ids, inputs)[p]);
}

/// A state without a timeout is left alone: where a state has no timeout, or one whose instant
/// has not come, and no item of it is due, no signal for it comes of a look at the ledger. So
/// a cancelled timeout gives no signal.
pub proof fn law_no_timeout_no_signal<K>(
    deadlines: Map<StateId<K>, Instant>,
    retained: Map<Instant, Seq<(StateId<K>, RetainItem<K>)>>,
    now: Instant,
    signals: Seq<Signal<K>>,
    id: StateId<K>,
    p: int,
) where K: Timeout, K::Message: TimeoutMessage<K>
    requires
        tick_signals(deadlines, retained, now, signals),
        !expired(deadlines, now).contains(id),
        forall|instant: Instant, i: int|
            #![trigger retained[instant][i]]
            retained.contains_key(instant) && instant.nanos <= now.nanos && 0 <= i
                < retained[instant].len() ==> retained[instant][i].0 != id,
        0 <= p < signals.len(),
    ensures
        signals[p].id != id,
{
    let (ids, inputs, pairs, returned) = choose|
        ids: Seq<StateId<K>>,
        inputs: Seq<Option<K::Input>>,
        pairs: Seq<(StateId<K>, RetainItem<K>)>,
        returned: Seq<Option<K::Input>>,
    | #[trigger]
        tick_parts(deadlines, retained, now, ids, inputs, pairs, returned, signals);
    let timed = signals_of(ids, inputs);
    if p < timed.len() {
        let i = lemma_signal_origin(ids, inputs, p);
        assert(ids.contains(ids[i]));
    } else {
        let i = lemma_signal_origin(ids_of(pairs), returned, p - timed.len());
        law_no_item_is_early(retained, now, pairs, i);
        let instant = choose|instant: Instant| #[trigger]
            retained.contains_key(instant) && instant.nanos <= now.nanos
                && retained[instant].contains(pairs[i]);
        let k = choose|k: int| 0 <= k < retained[instant].len() && retained[instant][k] == pairs[i];
        assert(retained[instant][k].0 != id);
    }
}

/// Of two timeouts that one look at the ledger finds, the earlier one is signalled first.
pub proof fn law_earlier_timeout_first<K>(
    deadlines: Map<StateId<K>, Instant>,
    retained: Map<Instant, Seq<(StateId<K>, RetainItem<K>)>>,
    now: Instant,
    signals: Seq<Signal<K>>,
    earlier: StateId<K>,
    later: StateId<K>,
) where K: Timeout, K::Message: TimeoutMessage<K>
    requires
        tick_signals(deadlines, retained, now, signals),
        deadlines.contains_key(earlier),
        deadlines.contains_key(later),
        deadlines[earlier].nanos < deadlines[later].nanos <= now.nanos,
        forall|input: Option<K::Input>| #[trigger]
            call_ensures(K::timeout_input, (&earlier.kind, now), input) ==> input is Some,
        forall|input: Option<K::Input>| #[trigger]
            call_ensures(K::timeout_input, (&later.kind, now), input) ==> input is Some,
    ensures
        exists|p: int, q: int|
            0 <= p < q < signals.len() && (#[trigger] signals[p]).id == earlier && (
            #[trigger] signals[q]).id == later,
{
    let (ids, inputs, pairs, returned) = choose|
        ids: Seq<StateId<K>>,
        inputs: Seq<Option<K::Input>>,
        pairs: Seq<(StateId<K>, RetainItem<K>)>,
        returned: Seq<Option<K::Input>>,
    | #[trigger]
        tick_parts(deadlines, retained, now, ids, inputs, pairs, returned, signals);
    assert(ids.contains(earlier) && ids.contains(later));
    let i = choose|i: int| 0 <= i < ids.len() && ids[i] == earlier;
    let j = choose|j: int| 0 <= j < ids.len() && ids[j] == later;
    assert(call_ensures(K::timeout_input, (&ids[i].kind, now), inputs[i]));
    assert(call_ensures(K::timeout_input, (&ids[j].kind, now), inputs[j]));
    assert(i < j) by {
        if j < i {
            assert(deadlines[ids[j]].nanos <= deadlines[ids[i]].nanos);
        }
    }
    lemma_signal_at(ids, inputs, i);
    lemma_signal_at(ids, inputs, j);
    lemma_places_rise(ids, inputs, i, j);
    let p = place(ids, inputs, i);
    let q = place(ids, inputs, j);
    assert(signals[p] == signals_of(ids, inputs)[p]);
    assert(signals[q] == signals_of(ids, inputs)[q]);
}

/// Every signal carries an input with which the kind of its state answers a timeout or an item:
/// a kind that supports neither is never signalled.
pub proof fn law_signals_are_answers<K>(
    deadlines: Map<StateId<K>, Instant>,
    retained: Map<Instant, Seq<(StateId<K>, RetainItem<K>)>>,
    now: Instant,
    signals: Seq<Signal<K>>,
    p: int,
) where K: Timeout, K::Message: TimeoutMessage<K>
    requires
        tick_signals(deadlines, retained, now, signals),
        0 <= p < signals.len(),
    ensures
        ({
            let kind = signals[p].id.kind;
            let input = Some(signals[p].input);
            ||| call_ensures(K::timeout_input, (&kind, now), input)
            ||| exists|item: RetainItem<K>| #[trigger]
                call_ensures(K::return_item, (&kind, item), input)
        }),
{
    let (ids, inputs, pairs, returned) = choose|
        ids: Seq<StateId<K>>,
        inputs: Seq<Option<K::Input>>,
        pairs: Seq<(StateId<K>, RetainItem<K>)>,
        returned: Seq<Option<K::Input>>,
    | #[trigger]
        tick_parts(deadlines, retained, now, ids, inputs, pairs, returned, signals);
    let timed = signals_of(ids, inputs);
    if p < timed.len() {
        let i = lemma_signal_origin(ids, inputs, p);
        assert(call_ensures(K::timeout_input, (&ids[i].kind, now), inputs[i]));
    } else {
        let i = lemma_signal_origin(ids_of(pairs), returned, p - timed.len());
        assert(call_ensures(K::return_item, (&pairs[i].0.kind, pairs[i].1), returned[i]));
    }
}

/// An instant that has passed counts as near, and nothing remains until it.
pub proof fn law_past_is_short(instant: Instant, now: Instant)
    requires
        lint(instant, now).past,
    ensures
        lint(instant, now).short,
        lint(instant, now).remaining == 0,
{
}

/// Ids that refer to one tree do so independently: to take out one of them leaves the tree with
/// the other, and what further ids refer to stays as it is.
pub proof fn law_references_are_independent<K, S>(
    trees: Map<StateId<K>, Tree<StateId<K>, S>>,
    tree: Tree<StateId<K>, S>,
    a: StateId<K>,
    b: StateId<K>,
    other: StateId<K>,
)
    requires
        a != b,
        other != a,
        other != b,
    ensures
        trees.insert(a, tree).insert(b, tree)[a] == trees.insert(a, tree).insert(b, tree)[b],
        !trees.insert(a, tree).insert(b, tree).remove(a).contains_key(a),
        trees.insert(a, tree).insert(b, tree).remove(a).contains_key(b),
        trees.insert(a, tree).insert(b, tree).remove(a)[b] == tree,
        trees.insert(a, tree).insert(b, tree).remove(a).contains_key(other)
            == trees.contains_key(other),
        trees.contains_key(other) ==> trees.insert(a, tree).insert(b, tree).remove(a)[other]
            == trees[other],
{
}

/// What goes beyond whole seconds makes no difference to the text of a span of a second or more.
pub proof fn law_text_drops_fractions(nanos: nat)
    requires
        nanos >= NANOS_PER_SEC,
    ensures
        hms(nanos) == hms((nanos - nanos % (NANOS_PER_SEC as nat)) as nat),
{
}

} // verus!
