use rex::clock::Clock;
use rex::kind::{HashKind, Kind, Rex, RexMessage, StateId};
use rex::ledger::Lint;
use rex::manager::{Notification, Receipt, TimeoutManager, DEFAULT_TICK_MILLIS};
use rex::request::{Operation, RetainItem, Timeout, TimeoutInput, TimeoutMessage, UnaryRequest};
use rex::signal::{Signal, SignalQueue};
use rex::time::{Duration, Instant};

#[derive(Clone, Copy, Debug, PartialEq, Eq)]
enum TestKind {
    Timed,
    Deaf,
}

#[derive(Clone, Copy, Debug, PartialEq, Eq)]
enum TestInput {
    Timeout(Instant),
    Returned(u32),
}

#[derive(Clone, Copy, Debug, PartialEq, Eq)]
enum TestTopic {
    Timeout,
    Other,
}

impl From<bool> for TestTopic {
    fn from(timeout: bool) -> Self {
        if timeout {
            TestTopic::Timeout
        } else {
            TestTopic::Other
        }
    }
}

#[derive(Clone, Copy, Debug)]
enum TestMsg {
    TimeoutInput(TimeoutInput<TestKind>),
    Other,
}

impl Kind for TestKind {
    type State = ();
    type Input = TestInput;
}

impl HashKind for TestKind {}

impl Rex for TestKind {
    type Message = TestMsg;

    fn timeout_input(&self, now: Instant) -> Option<TestInput> {
        match self {
            TestKind::Timed => Some(TestInput::Timeout(now)),
            TestKind::Deaf => None,
        }
    }
}

impl Timeout for TestKind {
    fn return_item(&self, item: RetainItem<Self>) -> Option<TestInput> {
        match self {
            TestKind::Timed => Some(TestInput::Returned(item)),
            TestKind::Deaf => None,
        }
    }
}

impl RexMessage for TestMsg {
    type Topic = TestTopic;
}

impl TimeoutMessage<TestKind> for TestMsg {
    type Item = u32;
}

impl From<UnaryRequest<TestKind, Operation<u32>>> for TestMsg {
    fn from(request: UnaryRequest<TestKind, Operation<u32>>) -> Self {
        TestMsg::TimeoutInput(request)
    }
}

impl TryFrom<TestMsg> for UnaryRequest<TestKind, Operation<u32>> {
    type Error = &'static str;

    fn try_from(message: TestMsg) -> Result<Self, Self::Error> {
        match message {
            TestMsg::TimeoutInput(request) => Ok(request),
            TestMsg::Other => Err("not a request for a timeout"),
        }
    }
}

const TICK_MILLIS: u64 = 3;

fn manager() -> TimeoutManager<TestKind> {
    TimeoutManager::new(SignalQueue::default(), TestTopic::Timeout)
        .with_tick_rate(Duration::from_millis(TICK_MILLIS))
}

fn timed(uuid: u128) -> StateId<TestKind> {
    StateId::new_with_u128(TestKind::Timed, uuid)
}

fn at(nanos: u128) -> Instant {
    Instant { nanos }
}

/// Ticks at the rate of the manager until `duration` has passed.
fn run(manager: &mut TimeoutManager<TestKind>, clock: &Clock, duration: Duration) {
    let end = clock.now().plus(duration);
    let mut next = clock.now();
    loop {
        let now = clock.now();
        if now.nanos >= next.nanos {
            manager.tick(now);
            next = next.plus(manager.tick_rate);
        }
        if now.nanos >= end.nanos {
            return;
        }
    }
}

fn send(manager: &mut TimeoutManager<TestKind>, request: TimeoutInput<TestKind>, now: Instant) {
    manager.receive(Notification(TestMsg::TimeoutInput(request)), now);
}

fn drain(manager: &mut TimeoutManager<TestKind>) -> Vec<(StateId<TestKind>, TestInput)> {
    let mut out = Vec::new();
    while let Some(Signal { id, input }) = manager.signal_queue.pop_front() {
        out.push((id, input));
    }
    out
}

#[test]
fn timeout_to_signal() {
    let clock = Clock::new();
    let mut timeout_manager = manager();

    let test_id = timed(0x2545_f491_4f6c_dd1d);
    let timeout_duration = Duration::from_millis(5);

    let timeout = clock.now().plus(timeout_duration);
    let set_timeout = UnaryRequest::set_timeout(&clock, test_id, timeout_duration);

    let now = clock.now();
    timeout_manager.receive(Notification(TestMsg::TimeoutInput(set_timeout)), now);

    // ensure two ticks have passed
    run(&mut timeout_manager, &clock, Duration::from_millis(15));

    let Signal { id, input } = timeout_manager.signal_queue.pop_front().unwrap();
    assert_eq!(test_id, id);

    let TestInput::Timeout(signal_timeout) = input else {
        panic!("{input:?}");
    };
    assert!(
        signal_timeout.nanos >= timeout.nanos,
        "out[{signal_timeout:?}] >= in[{timeout:?}]"
    );
}

#[test]
fn timeout_cancellation() {
    let clock = Clock::new();
    let mut timeout_manager = manager();

    let test_id = timed(0x9e37_79b9_7f4a_7c15);
    let set_timeout = UnaryRequest::set_timeout_millis(&clock, test_id, 10);
    send(&mut timeout_manager, set_timeout, clock.now());

    run(&mut timeout_manager, &clock, Duration::from_millis(2));
    let cancel_timeout = UnaryRequest {
        id: test_id,
        op: Operation::Cancel,
    };
    send(&mut timeout_manager, cancel_timeout, clock.now());

    // wait out the rest of the duration and 4 ticks
    run(
        &mut timeout_manager,
        &clock,
        Duration::from_millis(3 + TICK_MILLIS * 3),
    );

    // we should not be getting any signal since the timeout was cancelled
    assert!(timeout_manager.signal_queue.pop_front().is_none());
}

// this test ensures that 2/3 timers are cancelled
#[test]
fn partial_timeout_cancellation() {
    let clock = Clock::new();
    let mut timeout_manager = manager();

    let id1 = timed(1);
    let id2 = timed(2); // gets cancelled
    let id3 = timed(3); // gets overridden with earlier timeout

    let timeout_duration = Duration::from_millis(5);
    let now = clock.now();
    let timeout = now.plus(timeout_duration);
    let early_timeout = at(timeout.nanos - Duration::from_millis(2).as_nanos());
    let set_timeout = UnaryRequest {
        id: id1,
        op: Operation::SetAt(timeout),
    };

    send(&mut timeout_manager, set_timeout, now);
    send(&mut timeout_manager, set_timeout.with_id(id2), now);
    send(&mut timeout_manager, set_timeout.with_id(id3), now);

    //id1 should timeout after 5 milliseconds
    // ...
    // id2 cancellation
    send(
        &mut timeout_manager,
        set_timeout.with_id(id2).with_op(Operation::Cancel),
        now,
    );
    // id3 should timeout 2 milliseconds earlier than id1
    send(
        &mut timeout_manager,
        set_timeout
            .with_id(id3)
            .with_op(Operation::SetAt(early_timeout)),
        now,
    );

    run(&mut timeout_manager, &clock, Duration::from_millis(15));

    let first_timeout = timeout_manager.signal_queue.pop_front().unwrap();
    assert_eq!(id3, first_timeout.id);

    let second_timeout = timeout_manager.signal_queue.pop_front().unwrap();
    assert_eq!(id1, second_timeout.id);

    // ... and id2 should be cancelled
    assert!(timeout_manager.signal_queue.pop_front().is_none());
}

#[test]
fn new_manager_ticks_at_the_default_rate() {
    let manager: TimeoutManager<TestKind> =
        TimeoutManager::new(SignalQueue::default(), TestTopic::Timeout);
    assert_eq!(DEFAULT_TICK_MILLIS, 5);
    assert_eq!(manager.tick_rate, Duration::from_millis(5));
    assert_eq!(
        manager.with_tick_rate(Duration::from_secs(2)).tick_rate,
        Duration::from_secs(2)
    );
}

#[test]
fn manager_listens_to_the_topic_it_was_made_with() {
    assert_eq!(manager().get_topics(), &[TestTopic::Timeout]);
    let other: TimeoutManager<TestKind> = TimeoutManager::new(SignalQueue::default(), false);
    assert_eq!(other.get_topics(), &[TestTopic::Other]);
}

#[test]
fn one_tick_signals_earlier_timeouts_first() {
    let mut manager = manager();
    for (uuid, nanos) in [(1, 30), (2, 10), (3, 20)] {
        send(
            &mut manager,
            UnaryRequest {
                id: timed(uuid),
                op: Operation::SetAt(at(nanos)),
            },
            at(0),
        );
    }
    manager.tick(at(100));
    assert_eq!(
        drain(&mut manager),
        vec![
            (timed(2), TestInput::Timeout(at(100))),
            (timed(3), TestInput::Timeout(at(100))),
            (timed(1), TestInput::Timeout(at(100))),
        ]
    );
}

#[test]
fn later_ticks_signal_after_earlier_ones() {
    let mut manager = manager();
    for (uuid, nanos) in [(1, 30), (2, 10)] {
        send(
            &mut manager,
            UnaryRequest {
                id: timed(uuid),
                op: Operation::SetAt(at(nanos)),
            },
            at(0),
        );
    }
    manager.tick(at(20));
    manager.tick(at(40));
    manager.tick(at(60));
    assert_eq!(
        drain(&mut manager),
        vec![
            (timed(2), TestInput::Timeout(at(20))),
            (timed(1), TestInput::Timeout(at(40))),
        ]
    );
}

#[test]
fn timeout_of_this_instant_is_due() {
    let mut manager = manager();
    let request = UnaryRequest {
        id: timed(1),
        op: Operation::SetAt(at(10)),
    };
    send(&mut manager, request, at(0));
    manager.tick(at(9));
    assert!(drain(&mut manager).is_empty());
    manager.tick(at(10));
    assert_eq!(
        drain(&mut manager),
        vec![(timed(1), TestInput::Timeout(at(10)))]
    );
    manager.tick(at(11));
    assert!(drain(&mut manager).is_empty());
}

#[test]
fn timeouts_go_before_waiting_signals() {
    let mut queue: SignalQueue<TestKind> = SignalQueue::default();
    queue.push_back(Signal {
        id: timed(8),
        input: TestInput::Returned(8),
    });
    queue.push_back(Signal {
        id: timed(9),
        input: TestInput::Returned(9),
    });
    let mut manager = TimeoutManager::new(queue, TestTopic::Timeout);
    send(
        &mut manager,
        UnaryRequest {
            id: timed(1),
            op: Operation::SetAt(at(1)),
        },
        at(0),
    );
    send(
        &mut manager,
        UnaryRequest {
            id: timed(2),
            op: Operation::Retain(22, at(1)),
        },
        at(0),
    );
    manager.tick(at(5));
    assert_eq!(
        drain(&mut manager),
        vec![
            (timed(1), TestInput::Timeout(at(5))),
            (timed(2), TestInput::Returned(22)),
            (timed(8), TestInput::Returned(8)),
            (timed(9), TestInput::Returned(9)),
        ]
    );
}

#[test]
fn retained_items_come_back_in_order() {
    let mut manager = manager();
    for (uuid, item, nanos) in [(1, 10, 50), (2, 20, 40), (1, 11, 50), (3, 30, 60), (1, 12, 40)] {
        send(
            &mut manager,
            UnaryRequest {
                id: timed(uuid),
                op: Operation::Retain(item, at(nanos)),
            },
            at(0),
        );
    }
    manager.tick(at(59));
    assert_eq!(
        drain(&mut manager),
        vec![
            (timed(2), TestInput::Returned(20)),
            (timed(1), TestInput::Returned(12)),
            (timed(1), TestInput::Returned(10)),
            (timed(1), TestInput::Returned(11)),
        ]
    );
    manager.tick(at(60));
    assert_eq!(
        drain(&mut manager),
        vec![(timed(3), TestInput::Returned(30))]
    );
    manager.tick(at(1000));
    assert!(drain(&mut manager).is_empty());
}

#[test]
fn cancelling_keeps_retained_items() {
    let mut manager = manager();
    let retain = UnaryRequest {
        id: timed(1),
        op: Operation::Retain(7, at(5)),
    };
    send(&mut manager, retain, at(0));
    send(&mut manager, retain.with_op(Operation::SetAt(at(5))), at(0));
    send(&mut manager, UnaryRequest::cancel_timeout(timed(1)), at(0));
    manager.tick(at(6));
    assert_eq!(drain(&mut manager), vec![(timed(1), TestInput::Returned(7))]);
}

#[test]
fn kinds_without_inputs_give_no_signals() {
    let mut manager = manager();
    let deaf = StateId::new_with_u128(TestKind::Deaf, 1);
    let request = UnaryRequest {
        id: deaf,
        op: Operation::SetAt(at(1)),
    };
    send(&mut manager, request, at(0));
    send(&mut manager, request.with_op(Operation::Retain(3, at(1))), at(0));
    send(&mut manager, request.with_id(timed(1)), at(0));
    manager.tick(at(2));
    assert_eq!(
        drain(&mut manager),
        vec![(timed(1), TestInput::Timeout(at(2)))]
    );
    manager.tick(at(3));
    assert!(drain(&mut manager).is_empty());
}

#[test]
fn receipts_tell_what_was_done() {
    let mut manager = manager();
    let id = timed(1);
    let now = at(1_000);
    assert_eq!(
        manager.receive(Notification(TestMsg::Other), now),
        Receipt::Invalid
    );
    assert_eq!(manager.handle(None, now), Receipt::Invalid);
    assert_eq!(
        manager.handle(Some(UnaryRequest::cancel_timeout(id)), now),
        Receipt::Cancelled
    );
    let set = UnaryRequest {
        id,
        op: Operation::SetAt(at(1_400)),
    };
    assert_eq!(
        manager.receive(Notification(TestMsg::from(set)), now),
        Receipt::Scheduled(Lint {
            past: false,
            short: true,
            remaining: 400
        })
    );
    let retain = set.with_op(Operation::Retain(1, at(999)));
    assert_eq!(
        manager.handle(Some(retain), now),
        Receipt::Retained(Lint {
            past: true,
            short: true,
            remaining: 0
        })
    );
}

#[test]
fn messages_act_in_the_order_sent() {
    let set = UnaryRequest {
        id: timed(1),
        op: Operation::SetAt(at(5)),
    };
    let cancel = UnaryRequest::cancel_timeout(timed(1));
    let mut cancelled = manager();
    send(&mut cancelled, set, at(0));
    cancelled.receive(Notification(TestMsg::Other), at(0));
    send(&mut cancelled, cancel, at(0));
    cancelled.tick(at(6));
    assert!(drain(&mut cancelled).is_empty());

    let mut renewed = manager();
    send(&mut renewed, cancel, at(0));
    send(&mut renewed, set, at(0));
    renewed.tick(at(6));
    assert_eq!(
        drain(&mut renewed),
        vec![(timed(1), TestInput::Timeout(at(6)))]
    );
}

#[test]
fn invalid_notifications_change_nothing() {
    let mut manager = manager();
    send(
        &mut manager,
        UnaryRequest {
            id: timed(1),
            op: Operation::SetAt(at(1)),
        },
        at(0),
    );
    manager.receive(Notification(TestMsg::Other), at(0));
    manager.tick(at(2));
    assert_eq!(
        drain(&mut manager),
        vec![(timed(1), TestInput::Timeout(at(2)))]
    );
}

#[test]
fn queue_keeps_the_order_of_its_two_ends() {
    let mut queue: SignalQueue<TestKind> = SignalQueue::default();
    assert!(queue.pop_front().is_none());
    let signal = |uuid: u128| Signal {
        id: timed(uuid),
        input: TestInput::Returned(0),
    };
    queue.push_back(signal(3));
    queue.push_front(signal(1));
    queue.push_back(signal(4));
    queue.push_front(signal(2));
    queue.push_input(timed(5), None);
    queue.push_input(timed(6), Some(TestInput::Returned(0)));
    for expected in [1, 2, 6, 3, 4] {
        assert_eq!(queue.pop_front().unwrap().id, timed(expected));
    }
    assert!(queue.pop_front().is_none());
}
