use rex::kind::{HashKind, Kind, Rex, RexMessage, StateId};
use rex::ledger::{Lint, TimeoutLedger};
use rex::request::{NoRetain, Operation, Timeout, TimeoutMessage, UnaryRequest};
use rex::signal::SignalQueue;
use rex::time::{Duration, Instant};
use rex::{clock::Clock, manager::signal_returns, request::TimeoutTopic};

/// A kind that supports timeouts and keeps to the defaults for retained items.
#[derive(Clone, Copy, Debug, PartialEq, Eq)]
enum Plain {
    A,
    B,
}

#[derive(Clone, Copy, Debug)]
struct Message(UnaryRequest<Plain, Operation<u32>>);

impl Kind for Plain {
    type State = ();
    type Input = Instant;
}

impl HashKind for Plain {}

impl Rex for Plain {
    type Message = Message;

    fn timeout_input(&self, now: Instant) -> Option<Instant> {
        Some(now)
    }
}

impl Timeout for Plain {}

impl RexMessage for Message {
    type Topic = TimeoutTopic;
}

impl TimeoutMessage<Plain> for Message {
    type Item = u32;
}

impl From<UnaryRequest<Plain, Operation<u32>>> for Message {
    fn from(request: UnaryRequest<Plain, Operation<u32>>) -> Self {
        Message(request)
    }
}

impl From<Message> for UnaryRequest<Plain, Operation<u32>> {
    fn from(message: Message) -> Self {
        message.0
    }
}

fn a(uuid: u128) -> StateId<Plain> {
    StateId::new_with_u128(Plain::A, uuid)
}

fn b(uuid: u128) -> StateId<Plain> {
    StateId::new_with_u128(Plain::B, uuid)
}

fn at(nanos: u128) -> Instant {
    Instant { nanos }
}

#[test]
fn new_ledger_is_empty() {
    let mut ledger: TimeoutLedger<Plain> = TimeoutLedger::new();
    assert!(ledger.take_expired(at(u128::MAX)).is_empty());
    assert!(ledger.take_retained(at(u128::MAX)).is_empty());
}

#[test]
fn renewed_timeout_counts_once() {
    let mut ledger: TimeoutLedger<Plain> = TimeoutLedger::new();
    ledger.set_timeout(a(1), at(10));
    ledger.set_timeout(a(1), at(30));
    ledger.set_timeout(a(1), at(30));
    assert!(ledger.take_expired(at(20)).is_empty());
    assert_eq!(ledger.take_expired(at(31)), vec![a(1)]);
    assert!(ledger.take_expired(at(1000)).is_empty());
}

#[test]
fn renewal_can_be_to_an_earlier_instant() {
    let mut ledger: TimeoutLedger<Plain> = TimeoutLedger::new();
    ledger.set_timeout(a(1), at(30));
    ledger.set_timeout(a(1), at(10));
    assert_eq!(ledger.take_expired(at(20)), vec![a(1)]);
    assert!(ledger.take_expired(at(40)).is_empty());
}

#[test]
fn expired_timeout_can_be_set_again() {
    let mut ledger: TimeoutLedger<Plain> = TimeoutLedger::new();
    ledger.set_timeout(a(1), at(10));
    assert_eq!(ledger.take_expired(at(11)), vec![a(1)]);
    ledger.cancel_timeout(a(1));
    ledger.set_timeout(a(1), at(10));
    assert_eq!(ledger.take_expired(at(12)), vec![a(1)]);
}

#[test]
fn cancelled_timeout_is_dropped() {
    let mut ledger: TimeoutLedger<Plain> = TimeoutLedger::new();
    ledger.cancel_timeout(a(1));
    ledger.set_timeout(a(1), at(10));
    ledger.set_timeout(a(2), at(10));
    ledger.cancel_timeout(a(1));
    ledger.cancel_timeout(a(1));
    assert_eq!(ledger.take_expired(at(11)), vec![a(2)]);
}

#[test]
fn kinds_have_timeouts_of_their_own() {
    let mut ledger: TimeoutLedger<Plain> = TimeoutLedger::new();
    ledger.set_timeout(a(1), at(10));
    ledger.set_timeout(b(1), at(10));
    ledger.set_timeout(b(2), at(5));
    ledger.cancel_timeout(a(1));
    assert_eq!(ledger.take_expired(at(11)), vec![b(2), b(1)]);
}

#[test]
fn timeouts_of_one_instant_all_expire() {
    let mut ledger: TimeoutLedger<Plain> = TimeoutLedger::new();
    for uuid in 1..=50 {
        ledger.set_timeout(a(uuid), at(7));
        ledger.set_timeout(b(uuid), at(7));
    }
    ledger.set_timeout(a(99), at(6));
    let expired = ledger.take_expired(at(8));
    assert_eq!(expired.len(), 101);
    assert_eq!(expired[0], a(99));
    for uuid in 1..=50 {
        assert!(expired.contains(&a(uuid)));
        assert!(expired.contains(&b(uuid)));
    }
}

#[test]
fn two_looks_find_what_one_finds() {
    let mut once: TimeoutLedger<Plain> = TimeoutLedger::new();
    let mut twice: TimeoutLedger<Plain> = TimeoutLedger::new();
    for (uuid, nanos) in [(1, 40), (2, 10), (3, 30), (4, 20)] {
        once.set_timeout(a(uuid), at(nanos));
        twice.set_timeout(a(uuid), at(nanos));
        once.retain(a(uuid), at(nanos), uuid as u32);
        twice.retain(a(uuid), at(nanos), uuid as u32);
    }
    let mut ids = twice.take_expired(at(25));
    assert_eq!(ids, vec![a(2), a(4)]);
    ids.extend(twice.take_expired(at(50)));
    assert_eq!(ids, once.take_expired(at(50)));
    let mut pairs = twice.take_retained(at(25));
    assert_eq!(pairs, vec![(a(2), 2), (a(4), 4)]);
    pairs.extend(twice.take_retained(at(50)));
    assert_eq!(pairs, once.take_retained(at(50)));
}

#[test]
fn requests_are_applied() {
    let mut ledger: TimeoutLedger<Plain> = TimeoutLedger::new();
    let set = UnaryRequest {
        id: a(1),
        op: Operation::SetAt(at(3)),
    };
    ledger.apply(set);
    ledger.apply(set.with_id(a(2)));
    ledger.apply(set.with_op(Operation::Cancel));
    ledger.apply(set.with_op(Operation::Retain(5, at(3))));
    assert_eq!(ledger.take_expired(at(4)), vec![a(2)]);
    assert_eq!(ledger.take_retained(at(4)), vec![(a(1), 5)]);
}

#[test]
fn what_is_due_at_the_present_comes_out() {
    let mut ledger: TimeoutLedger<Plain> = TimeoutLedger::new();
    ledger.retain(a(1), at(4), 1);
    ledger.set_timeout(a(2), at(4));
    assert!(ledger.take_retained(at(3)).is_empty());
    assert!(ledger.take_expired(at(3)).is_empty());
    assert_eq!(ledger.take_retained(at(4)), vec![(a(1), 1)]);
    assert_eq!(ledger.take_expired(at(4)), vec![a(2)]);
    assert!(ledger.take_retained(at(5)).is_empty());
    assert!(ledger.take_expired(at(5)).is_empty());
}

#[test]
fn the_last_instant_comes_out_too() {
    let mut ledger: TimeoutLedger<Plain> = TimeoutLedger::new();
    ledger.retain(a(1), at(u128::MAX), 1);
    ledger.set_timeout(a(2), at(u128::MAX));
    assert!(ledger.take_retained(at(u128::MAX - 1)).is_empty());
    assert!(ledger.take_expired(at(u128::MAX - 1)).is_empty());
    assert_eq!(ledger.take_retained(at(u128::MAX)), vec![(a(1), 1)]);
    assert_eq!(ledger.take_expired(at(u128::MAX)), vec![a(2)]);
}

#[test]
fn instants_are_judged() {
    let judge = TimeoutLedger::<Plain>::lint_instant;
    let ten_seconds = 10_000_000_000;
    assert_eq!(
        judge(at(5), at(6)),
        Lint { past: true, short: true, remaining: 0 }
    );
    assert_eq!(
        judge(at(6), at(6)),
        Lint { past: false, short: true, remaining: 0 }
    );
    assert_eq!(
        judge(at(6 + ten_seconds), at(6)),
        Lint { past: false, short: true, remaining: ten_seconds }
    );
    assert_eq!(
        judge(at(7 + ten_seconds), at(6)),
        Lint { past: false, short: false, remaining: ten_seconds + 1 }
    );
    assert_eq!(
        judge(at(u128::MAX), at(0)),
        Lint { past: false, short: false, remaining: u128::MAX }
    );
}

#[test]
fn items_are_not_returned_by_default() {
    assert_eq!(Plain::A.return_item(3), None);
    let mut queue: SignalQueue<Plain> = SignalQueue::default();
    signal_returns(&vec![(a(1), 3), (b(1), 4)], &mut queue);
    assert!(queue.pop_front().is_none());
}

#[test]
fn operations_have_names() {
    assert_eq!(Operation::<u32>::Cancel.display(), "timeout::Cancel");
    assert_eq!(Operation::<u32>::SetAt(at(1)).display(), "timeout::Set");
    assert_eq!(Operation::Retain(1u32, at(1)).display(), "timeout::Retain");
    assert_eq!(NoRetain.display(), "NoRetain");
}

#[test]
fn clock_runs_forward() {
    let clock = Clock::new();
    let first = clock.now();
    let mut second = clock.now();
    while second.nanos == first.nanos {
        second = clock.now();
    }
    assert!(second.nanos > first.nanos);
    // a clock counts from the moment it was made
    assert!(Clock::new().now().nanos < Duration::from_secs(10).as_nanos());
}

#[test]
fn requests_count_from_the_clock() {
    let clock = Clock::new();
    let before = clock.now();
    let set = UnaryRequest::<Plain, Operation<u32>>::set_timeout(
        &clock,
        a(1),
        Duration::from_secs(3),
    );
    let millis = UnaryRequest::<Plain, Operation<u32>>::set_timeout_millis(&clock, a(2), 3_000);
    let retain =
        UnaryRequest::<Plain, Operation<u32>>::retain(&clock, b(3), 77, Duration::from_secs(3));
    let after = clock.now();
    let within = |instant: Instant| {
        let low = before.plus(Duration::from_secs(3));
        let high = after.plus(Duration::from_secs(3));
        low.nanos <= instant.nanos && instant.nanos <= high.nanos
    };
    assert_eq!(set.id, a(1));
    assert!(matches!(set.op, Operation::SetAt(instant) if within(instant)));
    assert_eq!(millis.id, a(2));
    assert!(matches!(millis.op, Operation::SetAt(instant) if within(instant)));
    assert_eq!(retain.id, b(3));
    assert!(matches!(retain.op, Operation::Retain(77, instant) if within(instant)));
}

#[test]
fn requests_count_from_a_given_instant() {
    let set = Operation::<u32>::set_after(at(100), Duration::from_millis(5));
    assert!(matches!(set, Operation::SetAt(instant) if instant == at(5_000_100)));
    let retain = UnaryRequest::<Plain, Operation<u32>>::retain_after(
        at(100),
        a(1),
        9,
        Duration::from_millis(5),
    );
    assert_eq!(retain.id, a(1));
    assert!(matches!(retain.op, Operation::Retain(9, instant) if instant == at(5_000_100)));
    let cancel = UnaryRequest::<Plain, Operation<u32>>::cancel_timeout(b(4));
    assert_eq!(cancel.id, b(4));
    assert!(matches!(cancel.op, Operation::Cancel));
}
