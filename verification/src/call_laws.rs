//! Laws of calls: what each operation does to what it is called on, and how calls follow one
//! another.

use crate::clock::Clock;
use crate::kind::StateId;
use crate::ledger::{Lint, TimeoutLedger};
use crate::manager::{Notification, Receipt, TimeoutManager};
use crate::request::{
    Operation, RetainItem, Timeout, TimeoutInput, TimeoutMessage, TimeoutOp, UnaryRequest,
};
use crate::signal::{Signal, SignalQueue};
use crate::storage::{StateStore, Tree};
use crate::time::{Duration, Instant};
use vstd::prelude::*;

verus! {

/// A span is as long as what it was made of, and says so when it is asked.
pub proof fn law_spans_keep_their_length(
    secs: u64,
    nanos: u32,
    span: Duration,
    whole: u64,
    millis: u32,
    all: u128,
    zero: bool,
)
    requires
        nanos < 1_000_000_000,
        call_ensures(Duration::new, (secs, nanos), span),
        call_ensures(Duration::as_secs, (&span,), whole),
        call_ensures(Duration::subsec_millis, (&span,), millis),
        call_ensures(Duration::as_nanos, (&span,), all),
        call_ensures(Duration::is_zero, (&span,), zero),
    ensures
        span@ == secs * 1_000_000_000 + nanos,
        whole == secs,
        millis == nanos / 1_000_000,
        all == secs * 1_000_000_000 + nanos,
        zero <==> secs == 0 && nanos == 0,
{
}

/// A span of seconds, or of milliseconds, has that many of them.
pub proof fn law_spans_count_their_units(
    count: u64,
    secs: Duration,
    millis: Duration,
    secs_nanos: u128,
    millis_nanos: u128,
)
    requires
        call_ensures(Duration::from_secs, (count,), secs),
        call_ensures(Duration::from_millis, (count,), millis),
        call_ensures(Duration::as_nanos, (&secs,), secs_nanos),
        call_ensures(Duration::as_nanos, (&millis,), millis_nanos),
    ensures
        secs@ == count * 1_000_000_000,
        secs_nanos == count * 1_000_000_000,
        millis@ == count * 1_000_000,
        millis_nanos == count * 1_000_000,
{
}

/// An instant that is moved by a span lies that span away, whatever the span.
pub proof fn law_instants_move_by_spans(
    start: Instant,
    span: Duration,
    later: Instant,
    nanos: u128,
)
    requires
        call_ensures(Instant::plus, (start, span), later),
        call_ensures(Duration::as_nanos, (&span,), nanos),
    ensures
        later.nanos - start.nanos == nanos,
{
}

/// The id that stands for no state is the one of number zero, whatever its kind.
pub proof fn law_zero_is_nil<K>(kind: K, uuid: u128, id: StateId<K>, nil: bool)
    requires
        call_ensures(StateId::<K>::new_with_u128, (kind, uuid), id),
        call_ensures(StateId::<K>::is_nil, (&id,), nil),
    ensures
        id.kind == kind,
        id.uuid == uuid,
        nil <==> uuid == 0,
{
}

/// The instant that is asked for lies the given span after now, however long the span.
pub proof fn law_set_after_is_exact<T>(
    now: Instant,
    span: Duration,
    nanos: u128,
    op: Operation<T>,
)
    requires
        now.nanos + span@ <= u128::MAX,
        call_ensures(Duration::as_nanos, (&span,), nanos),
        call_ensures(Operation::<T>::set_after, (now, span), op),
    ensures
        op is SetAt,
        op->SetAt_0.nanos == now.nanos + nanos,
        op->SetAt_0.nanos == now.nanos + span@,
{
}

/// What asks for a timeout in so many nanoseconds asks for the instant that lies that many
/// nanoseconds after now.
pub proof fn law_timeout_is_that_far_away<T>(now: Instant, nanos: nat)
    requires
        now.nanos + nanos <= u128::MAX,
    ensures
        Operation::<T>::spec_set_after(now, nanos) is SetAt,
        Operation::<T>::spec_set_after(now, nanos)->SetAt_0.nanos == now.nanos + nanos,
{
}

/// A span is short enough to be added to what a clock shows.
proof fn lemma_span_fits(clock: Clock, now: Instant, span: nat)
    requires
        call_ensures(Clock::now, (&clock,), now),
        span <= Duration::longest(),
    ensures
        now.nanos + span <= u128::MAX,
{
}

/// Whether `op` asks for the instant that lies `nanos` nanoseconds after one that the clock may
/// have shown.
pub open spec fn set_from_now<T>(clock: Clock, nanos: nat, op: Operation<T>) -> bool {
    exists|now: Instant| #[trigger]
        call_ensures(Clock::now, (&clock,), now) && op is SetAt && op->SetAt_0.nanos == now.nanos
            + nanos
}

/// An operation that is made of a span asks for the instant that lies the whole span after what
/// the clock showed.
pub proof fn law_operations_count_from_now<T>(
    clock: Clock,
    span: Duration,
    op: Operation<T>,
    millis: u64,
    in_millis: Operation<T>,
)
    requires
        span.well_formed(),
        call_ensures(Operation::<T>::from_duration, (&clock, span), op),
        call_ensures(Operation::<T>::from_millis, (&clock, millis), in_millis),
    ensures
        set_from_now(clock, span@, op),
        set_from_now(clock, millis as nat * 1_000_000, in_millis),
{
    span.lemma_longest();
    let now = choose|now: Instant| #[trigger]
        call_ensures(Clock::now, (&clock,), now) && op
            == Operation::<T>::spec_set_after(now, span@);
    lemma_span_fits(clock, now, span@);
    let then = choose|then: Instant| #[trigger]
        call_ensures(Clock::now, (&clock,), then) && in_millis == Operation::<T>::spec_set_after(
            then,
            (millis * 1_000_000) as nat,
        );
    lemma_span_fits(clock, then, (millis * 1_000_000) as nat);
}

/// A request for a timeout is for the state that it names, and asks for the instant that lies
/// the whole span after what the clock showed.
pub proof fn law_requests_count_from_now<K>(
    clock: Clock,
    id: StateId<K>,
    span: Duration,
    request: TimeoutInput<K>,
    millis: u64,
    in_millis: TimeoutInput<K>,
) where K: Timeout, K::Message: TimeoutMessage<K>
    requires
        span.well_formed(),
        call_ensures(TimeoutInput::<K>::set_timeout, (&clock, id, span), request),
        call_ensures(TimeoutInput::<K>::set_timeout_millis, (&clock, id, millis), in_millis),
    ensures
        request.id == id,
        set_from_now(clock, span@, request.op),
        in_millis.id == id,
        set_from_now(clock, millis as nat * 1_000_000, in_millis.op),
{
    span.lemma_longest();
    let now = choose|now: Instant| #[trigger]
        call_ensures(Clock::now, (&clock,), now) && request.op == TimeoutOp::<K>::spec_set_after(
            now,
            span@,
        );
    lemma_span_fits(clock, now, span@);
    let then = choose|then: Instant| #[trigger]
        call_ensures(Clock::now, (&clock,), then) && in_millis.op
            == TimeoutOp::<K>::spec_set_after(then, (millis * 1_000_000) as nat);
    lemma_span_fits(clock, then, (millis * 1_000_000) as nat);
}

/// A request to retain is for the state and the item that it names, and until the instant that
/// lies the whole span after now.
pub proof fn law_retain_counts_from_now<K>(
    now: Instant,
    clock: Clock,
    id: StateId<K>,
    item: RetainItem<K>,
    span: Duration,
    request: TimeoutInput<K>,
    by_clock: TimeoutInput<K>,
) where K: Timeout, K::Message: TimeoutMessage<K>
    requires
        now.nanos + span@ <= u128::MAX,
        span.well_formed(),
        call_ensures(TimeoutInput::<K>::retain_after, (now, id, item, span), request),
        call_ensures(TimeoutInput::<K>::retain, (&clock, id, item, span), by_clock),
    ensures
        request.id == id,
        request.op is Retain,
        request.op->Retain_0 == item,
        request.op->Retain_1.nanos == now.nanos + span@,
        by_clock.id == id,
        by_clock.op is Retain,
        by_clock.op->Retain_0 == item,
        exists|shown: Instant| #[trigger]
            call_ensures(Clock::now, (&clock,), shown) && by_clock.op->Retain_1.nanos
                == shown.nanos + span@,
{
    span.lemma_longest();
    let shown = choose|shown: Instant| #[trigger]
        call_ensures(Clock::now, (&clock,), shown) && by_clock.op == TimeoutOp::<K>::Retain(
            item,
            Instant { nanos: (shown.nanos + span@) as u128 },
        );
    lemma_span_fits(clock, shown, span@);
}

/// A request can be readdressed, and its operation exchanged; the rest of it stays.
pub proof fn law_requests_change_in_one_part<K>(
    request: TimeoutInput<K>,
    id: StateId<K>,
    op: TimeoutOp<K>,
    readdressed: TimeoutInput<K>,
    exchanged: TimeoutInput<K>,
    cancel: TimeoutInput<K>,
) where K: Timeout, K::Message: TimeoutMessage<K>
    requires
        call_ensures(TimeoutInput::<K>::with_id, (&request, id), readdressed),
        call_ensures(TimeoutInput::<K>::with_op, (&request, op), exchanged),
        call_ensures(TimeoutInput::<K>::cancel_timeout, (id,), cancel),
    ensures
        readdressed.id == id && readdressed.op == request.op,
        exchanged.id == request.id && exchanged.op == op,
        cancel.id == id && cancel.op is Cancel,
{
}

/// An operation is named after what it asks for, and not after its instant or its item: two
/// operations have one name exactly where they ask for the same, and the name is that of the
/// operation among those of timeouts.
pub proof fn law_operations_are_named<T>(
    a: Operation<T>,
    a_name: String,
    b: Operation<T>,
    b_name: String,
)
    requires
        call_ensures(Operation::<T>::display, (&a,), a_name),
        call_ensures(Operation::<T>::display, (&b,), b_name),
    ensures
        a_name@ == b_name@ <==> (a is Cancel <==> b is Cancel) && (a is SetAt <==> b is SetAt),
        a_name@.take(9) == "timeout::"@,
        a is Cancel ==> a_name@.skip(9) == "Cancel"@,
        a is SetAt ==> a_name@.skip(9) == "Set"@,
        a is Retain ==> a_name@.skip(9) == "Retain"@,
{
    reveal_strlit("timeout::");
    reveal_strlit("timeout::Cancel");
    reveal_strlit("timeout::Set");
    reveal_strlit("timeout::Retain");
    reveal_strlit("Cancel");
    reveal_strlit("Set");
    reveal_strlit("Retain");
    assert("timeout::Cancel"@[9] != "timeout::Retain"@[9]);
    assert("timeout::Cancel"@[9] != "timeout::Set"@[9]);
    assert("timeout::Retain"@[9] != "timeout::Set"@[9]);
    assert(a_name@.take(9) =~= "timeout::"@);
    assert(a is Cancel ==> a_name@.skip(9) =~= "Cancel"@);
    assert(a is SetAt ==> a_name@.skip(9) =~= "Set"@);
    assert(a is Retain ==> a_name@.skip(9) =~= "Retain"@);
}

/// Whether what `a` and `b` hold of a key is the same.
pub open spec fn same_at<A, B>(a: Map<A, B>, b: Map<A, B>, key: A) -> bool {
    &&& a.contains_key(key) <==> b.contains_key(key)
    &&& a.contains_key(key) ==> a[key] == b[key]
}

/// Whether `after` is `before` with the timeout of `id` gone, and all others as they were.
pub open spec fn timeout_dropped<K>(
    before: Map<StateId<K>, Instant>,
    id: StateId<K>,
    after: Map<StateId<K>, Instant>,
) -> bool {
    &&& !after.contains_key(id)
    &&& forall|other: StateId<K>| other != id ==> #[trigger] same_at(before, after, other)
}

/// Whether `after` is `before` with the timeout of `id` at `instant`, and all others as they were.
pub open spec fn timeout_moved<K>(
    before: Map<StateId<K>, Instant>,
    id: StateId<K>,
    instant: Instant,
    after: Map<StateId<K>, Instant>,
) -> bool {
    &&& after.contains_key(id)
    &&& after[id].nanos == instant.nanos
    &&& forall|other: StateId<K>| other != id ==> #[trigger] same_at(before, after, other)
}

/// Whether `after` is `before` with one more item, which is the last one of its instant, and with
/// all other items where they were.
pub open spec fn item_added<K, T>(
    before: Map<Instant, Seq<(StateId<K>, T)>>,
    id: StateId<K>,
    item: T,
    instant: Instant,
    after: Map<Instant, Seq<(StateId<K>, T)>>,
) -> bool {
    &&& after.contains_key(instant)
    &&& after[instant].len() > 0
    &&& after[instant].last() == (id, item)
    &&& before.contains_key(instant) ==> after[instant].drop_last() == before[instant]
    &&& !before.contains_key(instant) ==> after[instant].len() == 1
    &&& forall|other: Instant| other != instant ==> #[trigger] same_at(before, after, other)
}

/// Whether a request is done: the timeouts and items that it asks to change have changed, and all
/// others are what they were.
pub open spec fn done<K, T>(
    deadlines: Map<StateId<K>, Instant>,
    retained: Map<Instant, Seq<(StateId<K>, T)>>,
    request: UnaryRequest<K, Operation<T>>,
    deadlines_then: Map<StateId<K>, Instant>,
    retained_then: Map<Instant, Seq<(StateId<K>, T)>>,
) -> bool {
    match request.op {
        Operation::Cancel => {
            &&& timeout_dropped(deadlines, request.id, deadlines_then)
            &&& retained_then == retained
        },
        Operation::SetAt(instant) => {
            &&& timeout_moved(deadlines, request.id, instant, deadlines_then)
            &&& retained_then == retained
        },
        Operation::Retain(item, instant) => {
            &&& deadlines_then == deadlines
            &&& item_added(retained, request.id, item, instant, retained_then)
        },
    }
}

/// To retain an item leaves the timeouts of all states as they are, that of its own state
/// included, and adds the item behind those that wait for the same instant.
pub proof fn law_retain_leaves_timeouts<K>(id: StateId<K>, instant: Instant, item: RetainItem<K>)
    where K: Timeout, K::Message: TimeoutMessage<K>
    ensures
        forall|ledger: &mut TimeoutLedger<K>| #[trigger]
            call_ensures(
                TimeoutLedger::<K>::apply,
                (ledger, UnaryRequest { id, op: Operation::Retain(item, instant) }),
                (),
            ) ==> final(ledger).deadlines() == ledger.deadlines() && item_added(
                ledger.retained(),
                id,
                item,
                instant,
                final(ledger).retained(),
            ),
        forall|ledger: &mut TimeoutLedger<K>| #[trigger]
            call_ensures(TimeoutLedger::<K>::retain, (ledger, id, instant, item), ())
                ==> final(ledger).deadlines() == ledger.deadlines() && item_added(
                ledger.retained(),
                id,
                item,
                instant,
                final(ledger).retained(),
            ),
{
    assert forall|ledger: &mut TimeoutLedger<K>| #[trigger]
        call_ensures(TimeoutLedger::<K>::retain, (ledger, id, instant, item), ())
            implies final(ledger).deadlines() == ledger.deadlines() && item_added(
        ledger.retained(),
        id,
        item,
        instant,
        final(ledger).retained(),
    ) by {
        let pairs = final(ledger).retained()[instant];
        if ledger.retained().contains_key(instant) {
            assert(pairs.drop_last() =~= ledger.retained()[instant]);
        }
    }
    assert forall|ledger: &mut TimeoutLedger<K>| #[trigger]
        call_ensures(
            TimeoutLedger::<K>::apply,
            (ledger, UnaryRequest { id, op: Operation::Retain(item, instant) }),
            (),
        ) implies final(ledger).deadlines() == ledger.deadlines() && item_added(
        ledger.retained(),
        id,
        item,
        instant,
        final(ledger).retained(),
    ) by {
        let pairs = final(ledger).retained()[instant];
        if ledger.retained().contains_key(instant) {
            assert(pairs.drop_last() =~= ledger.retained()[instant]);
        }
    }
}

/// To set a timeout moves the timeout of one state to the very instant that is asked for, and
/// leaves the other timeouts and all items alone.
pub proof fn law_set_moves_one_timeout<K>(id: StateId<K>, instant: Instant)
    where K: Timeout, K::Message: TimeoutMessage<K>
    ensures
        forall|ledger: &mut TimeoutLedger<K>| #[trigger]
            call_ensures(TimeoutLedger::<K>::set_timeout, (ledger, id, instant), ())
                ==> timeout_moved(ledger.deadlines(), id, instant, final(ledger).deadlines())
                && final(ledger).retained() == ledger.retained(),
{
}

/// To cancel drops the timeout of one state, and leaves the other timeouts and all items alone.
pub proof fn law_cancel_drops_one_timeout<K>(id: StateId<K>)
    where K: Timeout, K::Message: TimeoutMessage<K>
    ensures
        forall|ledger: &mut TimeoutLedger<K>| #[trigger]
            call_ensures(TimeoutLedger::<K>::cancel_timeout, (ledger, id), ()) ==> timeout_dropped(
                ledger.deadlines(),
                id,
                final(ledger).deadlines(),
            ) && final(ledger).retained() == ledger.retained(),
{
}

/// A new ledger has no timeout of any state and no item of any instant.
pub proof fn law_new_ledger_is_blank<K>(
    ledger: TimeoutLedger<K>,
    id: StateId<K>,
    instant: Instant,
) where K: Timeout, K::Message: TimeoutMessage<K>
    requires
        call_ensures(TimeoutLedger::<K>::new, (), ledger),
    ensures
        !ledger.deadlines().contains_key(id),
        !ledger.retained().contains_key(instant),
{
}

/// Every request that is applied to a ledger is done.
pub proof fn law_applied_requests_are_done<K>(request: TimeoutInput<K>)
    where K: Timeout, K::Message: TimeoutMessage<K>
    ensures
        forall|ledger: &mut TimeoutLedger<K>| #[trigger]
            call_ensures(TimeoutLedger::<K>::apply, (ledger, request), ()) ==> done(
                ledger.deadlines(),
                ledger.retained(),
                request,
                final(ledger).deadlines(),
                final(ledger).retained(),
            ),
{
    if request.op is Retain {
        law_retain_leaves_timeouts(request.id, request.op->Retain_1, request.op->Retain_0);
    }
}

/// Whether `lint` says how `instant` lies to `now`: whether it has passed, how many nanoseconds
/// remain until it, and whether they are ten seconds or less.
pub open spec fn judges(lint: Lint, instant: Instant, now: Instant) -> bool {
    &&& lint.past <==> instant.nanos < now.nanos
    &&& lint.past ==> lint.remaining == 0
    &&& !lint.past ==> now.nanos + lint.remaining == instant.nanos
    &&& lint.short <==> instant.nanos <= now.nanos + 10_000_000_000
}

/// An instant that is asked for is judged by where it lies.
pub proof fn law_instants_are_judged<K>(instant: Instant, now: Instant, judged: Lint)
    where K: Timeout, K::Message: TimeoutMessage<K>
    requires
        call_ensures(TimeoutLedger::<K>::lint_instant, (instant, now), judged),
    ensures
        judges(judged, instant, now),
{
}

/// Whether a receipt tells what became of a request at `now`.
pub open spec fn tells<T>(receipt: Receipt, op: Operation<T>, now: Instant) -> bool {
    match op {
        Operation::Cancel => receipt is Cancelled,
        Operation::SetAt(instant) => receipt is Scheduled && judges(
            receipt->Scheduled_0,
            instant,
            now,
        ),
        Operation::Retain(_, instant) => receipt is Retained && judges(
            receipt->Retained_0,
            instant,
            now,
        ),
    }
}

/// A manager does what it is handed: a request is done and told, no request changes nothing, and
/// either way no signal comes of it.
pub proof fn law_handled_requests_are_done<K>(
    request: Option<TimeoutInput<K>>,
    now: Instant,
    receipt: Receipt,
) where K: Timeout, K::Message: TimeoutMessage<K>
    ensures
        forall|manager: &mut TimeoutManager<K>| #[trigger]
            call_ensures(TimeoutManager::<K>::handle, (manager, request, now), receipt) ==> {
                &&& final(manager).signal_queue == manager.signal_queue
                &&& final(manager).tick_rate == manager.tick_rate
                &&& final(manager).topic == manager.topic
                &&& match request {
                    Some(request) => tells(receipt, request.op, now) && done(
                        manager.deadlines(),
                        manager.retained(),
                        request,
                        final(manager).deadlines(),
                        final(manager).retained(),
                    ),
                    None => receipt is Invalid && final(manager).deadlines()
                        == manager.deadlines() && final(manager).retained() == manager.retained(),
                }
            },
{
    assert forall|manager: &mut TimeoutManager<K>| #[trigger]
        call_ensures(
            TimeoutManager::<K>::handle,
            (manager, request, now),
            receipt,
        ) && request is Some && request->0.op is Retain implies item_added(
        manager.retained(),
        request->0.id,
        request->0.op->Retain_0,
        request->0.op->Retain_1,
        final(manager).retained(),
    ) by {
        let instant = request->0.op->Retain_1;
        let pairs = final(manager).retained()[instant];
        if manager.retained().contains_key(instant) {
            assert(pairs.drop_last() =~= manager.retained()[instant]);
        }
    }
}

/// A manager does what its notifications ask for: where the message turns out to be a request,
/// that request is done and told, and where it does not, nothing changes. Either way no signal
/// comes of it.
pub proof fn law_received_requests_are_done<K>(
    notification: Notification<K::Message>,
    now: Instant,
    receipt: Receipt,
) where K: Timeout, K::Message: TimeoutMessage<K>
    ensures
        forall|manager: &mut TimeoutManager<K>| #[trigger]
            call_ensures(TimeoutManager::<K>::receive, (manager, notification, now), receipt) ==> {
                &&& final(manager).signal_queue == manager.signal_queue
                &&& final(manager).tick_rate == manager.tick_rate
                &&& final(manager).topic == manager.topic
                &&& exists|
                    parsed: Result<
                        TimeoutInput<K>,
                        <K::Message as TryInto<TimeoutInput<K>>>::Error,
                    >,
                |
                    {
                        &&& #[trigger] call_ensures(
                            <K::Message as TryInto<TimeoutInput<K>>>::try_into,
                            (notification.0,),
                            parsed,
                        )
                        &&& match parsed {
                            Ok(request) => tells(receipt, request.op, now) && done(
                                manager.deadlines(),
                                manager.retained(),
                                request,
                                final(manager).deadlines(),
                                final(manager).retained(),
                            ),
                            Err(_) => receipt is Invalid && final(manager).deadlines()
                                == manager.deadlines() && final(manager).retained()
                                == manager.retained(),
                        }
                    }
            },
{
    assert forall|manager: &mut TimeoutManager<K>| #[trigger]
        call_ensures(
            TimeoutManager::<K>::receive,
            (manager, notification, now),
            receipt,
        ) implies exists|
        parsed: Result<TimeoutInput<K>, <K::Message as TryInto<TimeoutInput<K>>>::Error>,
    |
        {
            &&& #[trigger] call_ensures(
                <K::Message as TryInto<TimeoutInput<K>>>::try_into,
                (notification.0,),
                parsed,
            )
            &&& match parsed {
                Ok(request) => tells(receipt, request.op, now) && done(
                    manager.deadlines(),
                    manager.retained(),
                    request,
                    final(manager).deadlines(),
                    final(manager).retained(),
                ),
                Err(_) => receipt is Invalid && final(manager).deadlines() == manager.deadlines()
                    && final(manager).retained() == manager.retained(),
            }
        } by {
        let parsed = choose|
            parsed: Result<TimeoutInput<K>, <K::Message as TryInto<TimeoutInput<K>>>::Error>,
        | #[trigger]
            call_ensures(
                <K::Message as TryInto<TimeoutInput<K>>>::try_into,
                (notification.0,),
                parsed,
            ) && crate::manager::handled(
                manager.ledger,
                parsed.ok(),
                now,
                final(manager).ledger,
                receipt,
            );
        if let Ok(request) = parsed {
            if let Operation::Retain(_, instant) = request.op {
                let pairs = final(manager).retained()[instant];
                if manager.retained().contains_key(instant) {
                    assert(pairs.drop_last() =~= manager.retained()[instant]);
                }
            }
        }
    }
}

/// A new manager ticks every five milliseconds, has nothing in its ledger, and keeps the queue
/// that it is given.
pub proof fn law_new_manager_is_blank<K, T>(
    queue: SignalQueue<K>,
    topic: T,
    manager: TimeoutManager<K>,
    id: StateId<K>,
    instant: Instant,
) where
    K: Timeout,
    K::Message: TimeoutMessage<K>,
    T: Into<<K::Message as crate::kind::RexMessage>::Topic>,

    requires
        call_ensures(TimeoutManager::<K>::new::<T>, (queue, topic), manager),
    ensures
        manager.tick_rate@ == 5_000_000,
        !manager.deadlines().contains_key(id),
        !manager.retained().contains_key(instant),
        manager.signal_queue == queue,
        call_ensures(T::into, (topic,), manager.topic),
{
}

/// Another rate of ticks is the one that is given, and changes nothing else.
pub proof fn law_tick_rate_alone_changes<K>(
    manager: TimeoutManager<K>,
    rate: Duration,
    changed: TimeoutManager<K>,
) where K: Timeout, K::Message: TimeoutMessage<K>
    requires
        call_ensures(TimeoutManager::<K>::with_tick_rate, (manager, rate), changed),
    ensures
        changed.tick_rate == rate,
        changed.ledger == manager.ledger,
        changed.topic == manager.topic,
        changed.signal_queue == manager.signal_queue,
{
}

/// A manager listens to its own topic, and to no other.
pub proof fn law_one_topic<K>(
    manager: TimeoutManager<K>,
    topics: &[<K::Message as crate::kind::RexMessage>::Topic],
) where K: Timeout, K::Message: TimeoutMessage<K>
    requires
        call_ensures(TimeoutManager::<K>::get_topics, (&manager,), topics),
    ensures
        topics@.len() == 1,
        topics@[0] == manager.topic,
{
}

/// A signal at the front goes behind the signals that were pushed to the front before it and
/// ahead of all those that were pushed to the back; none of the others moves.
pub proof fn law_front_goes_first<K: Timeout>(signal: Signal<K>) where
    K::Message: TimeoutMessage<K>,

    ensures
        forall|queue: &mut SignalQueue<K>| #[trigger]
            call_ensures(SignalQueue::<K>::push_front, (queue, signal), ()) ==> {
                &&& final(queue)@ == queue.urgent() + seq![signal] + queue.ordinary()
                &&& final(queue).urgent() == queue.urgent() + seq![signal]
                &&& final(queue).ordinary() == queue.ordinary()
            },
{
    assert forall|queue: &mut SignalQueue<K>| #[trigger]
        call_ensures(SignalQueue::<K>::push_front, (queue, signal), ()) implies {
        &&& final(queue)@ == queue.urgent() + seq![signal] + queue.ordinary()
        &&& final(queue).urgent() == queue.urgent() + seq![signal]
    } by {
        assert(final(queue)@ =~= queue.urgent() + seq![signal] + queue.ordinary());
        assert(final(queue).urgent() =~= queue.urgent() + seq![signal]);
    }
}

/// An input is put to the front as one signal for its id, and no input as none.
pub proof fn law_input_is_one_signal<K: Timeout>(id: StateId<K>, input: Option<K::Input>) where
    K::Message: TimeoutMessage<K>,

    ensures
        forall|queue: &mut SignalQueue<K>| #[trigger]
            call_ensures(SignalQueue::<K>::push_input, (queue, id, input), ()) ==> {
                &&& final(queue).ordinary() == queue.ordinary()
                &&& input is None ==> final(queue).urgent() == queue.urgent()
                &&& input is Some ==> final(queue).urgent() == queue.urgent().push(
                    Signal { id, input: input->0 },
                )
            },
{
    assert forall|queue: &mut SignalQueue<K>| #[trigger]
        call_ensures(SignalQueue::<K>::push_input, (queue, id, input), ()) implies {
        &&& input is None ==> final(queue).urgent() == queue.urgent()
        &&& input is Some ==> final(queue).urgent() == queue.urgent().push(
            Signal { id, input: input->0 },
        )
    } by {
        if input is None {
            assert(final(queue).urgent() =~= queue.urgent());
        } else {
            assert(final(queue).urgent() =~= queue.urgent().push(Signal { id, input: input->0 }));
        }
    }
}

/// A signal at the back goes behind all others, and none of them moves.
pub proof fn law_back_goes_last<K: Timeout>(signal: Signal<K>) where
    K::Message: TimeoutMessage<K>,

    ensures
        forall|queue: &mut SignalQueue<K>| #[trigger]
            call_ensures(SignalQueue::<K>::push_back, (queue, signal), ()) ==> {
                &&& final(queue)@.len() == queue@.len() + 1
                &&& final(queue)@.last() == signal
                &&& final(queue)@.drop_last() == queue@
                &&& final(queue).urgent() == queue.urgent()
            },
{
    assert forall|queue: &mut SignalQueue<K>| #[trigger]
        call_ensures(SignalQueue::<K>::push_back, (queue, signal), ())
            implies final(queue)@.drop_last() == queue@ by {
        assert(final(queue)@.drop_last() =~= queue@);
    }
}

/// Signals leave a queue from its start, one by one, and none is lost: there is one to take
/// exactly where the queue is not empty, and the others stay in their order, at the front or at
/// the back as they were pushed.
pub proof fn law_queue_empties_from_its_start<K: Timeout>(taken: Option<Signal<K>>) where
    K::Message: TimeoutMessage<K>,

    ensures
        forall|queue: &mut SignalQueue<K>| #[trigger]
            call_ensures(SignalQueue::<K>::pop_front, (queue,), taken) ==> {
                &&& taken is Some <==> queue@.len() > 0
                &&& taken is Some ==> queue@ == seq![taken->0] + final(queue)@
                &&& taken is None ==> final(queue)@.len() == 0
                &&& queue.urgent().len() == 0 ==> final(queue).urgent().len() == 0
                &&& queue.urgent().len() > 0 ==> queue.urgent() == seq![taken->0]
                    + final(queue).urgent()
                &&& queue.urgent().len() > 0 ==> final(queue).ordinary() == queue.ordinary()
            },
{
    assert forall|queue: &mut SignalQueue<K>| #[trigger]
        call_ensures(SignalQueue::<K>::pop_front, (queue,), taken) && taken is Some implies {
        &&& queue@ == seq![taken->0] + final(queue)@
        &&& queue.urgent().len() > 0 ==> queue.urgent() == seq![taken->0] + final(queue).urgent()
        &&& queue.urgent().len() > 0 ==> final(queue).ordinary() == queue.ordinary()
    } by {
        assert(queue@ =~= seq![taken->0] + final(queue)@);
        if queue.urgent().len() > 0 {
            assert(queue@[0] == queue.urgent()[0]);
            assert(queue.urgent() =~= seq![taken->0] + final(queue).urgent());
            let n = final(queue).urgent().len() as int;
            assert(final(queue).ordinary() =~= final(queue)@.skip(n));
            assert(final(queue)@.skip(n) =~= queue.ordinary());
        }
    }
}

/// A new queue is empty.
pub proof fn law_new_queue_is_empty<K: Timeout>(queue: SignalQueue<K>) where
    K::Message: TimeoutMessage<K>,

    requires
        call_ensures(SignalQueue::<K>::default, (), queue),
    ensures
        queue@.len() == 0,
{
}

/// What is read from a store is what was written last: an id that is let refer to a tree is
/// found with that tree, and every other id is found with what it was found with before.
pub proof fn law_store_reads_what_was_written<K: Copy + Eq, S>(
    id: StateId<K>,
    tree: Tree<StateId<K>, S>,
    other: StateId<K>,
    before: Option<Tree<StateId<K>, S>>,
    found: Option<Tree<StateId<K>, S>>,
)
    ensures
        forall|store: &mut StateStore<K, S>|
            {
                &&& #[trigger] call_ensures(StateStore::<K, S>::insert_ref, (store, id, tree), ())
                &&& call_ensures(StateStore::<K, S>::get_tree, (&*store, other), before)
                &&& call_ensures(StateStore::<K, S>::get_tree, (&*final(store), other), found)
            } ==> found == if other == id {
                Some(tree)
            } else {
                before
            },
{
}

/// What was taken out of a store is not found again, and every other id is found with what it was
/// found with before.
pub proof fn law_store_forgets_what_was_taken_out<K: Copy + Eq, S>(
    id: StateId<K>,
    other: StateId<K>,
    before: Option<Tree<StateId<K>, S>>,
    found: Option<Tree<StateId<K>, S>>,
)
    ensures
        forall|store: &mut StateStore<K, S>|
            {
                &&& #[trigger] call_ensures(StateStore::<K, S>::remove_ref, (store, id), ())
                &&& call_ensures(StateStore::<K, S>::get_tree, (&*store, other), before)
                &&& call_ensures(StateStore::<K, S>::get_tree, (&*final(store), other), found)
            } ==> found == if other == id {
                None
            } else {
                before
            },
{
}

/// In a new store no id is found.
pub proof fn law_new_store_is_empty<K: Copy + Eq, S>(
    store: StateStore<K, S>,
    id: StateId<K>,
    found: Option<Tree<StateId<K>, S>>,
)
    requires
        call_ensures(StateStore::<K, S>::new, (), store) || call_ensures(
            StateStore::<K, S>::default,
            (),
            store,
        ),
        call_ensures(StateStore::<K, S>::get_tree, (&store, id), found),
    ensures
        found is None,
{
}

} // verus!
