use rtsched::dispatch::{DispatchDecision, Scheduler, TimerOutcome};
use rtsched::queue::SpawnError;
use rtsched::registry::{Registry, TaskBinding, TaskDecl};
use rtsched::timer::{instant_earlier, instant_reached, TimerService};

fn one_sw_task_sched(capacity: usize) -> Scheduler {
    let tasks = vec![TaskDecl {
        priority: 1,
        binding: TaskBinding::Software,
        shared: vec![],
        local: vec![],
        singleton: false,
    }];
    let reg = Registry::build(tasks, 0, 0, 1, 1).unwrap();
    Scheduler::new(reg, capacity)
}

#[test]
fn instant_reached_handles_equality_and_wraparound() {
    assert!(instant_reached(100, 100));
    assert!(instant_reached(101, 100));
    assert!(!instant_reached(99, 100));
    // Reading just past the counter wrap: deadline before the wrap has
    // passed, deadline after the reading has not.
    assert!(instant_reached(5, u32::MAX - 10));
    assert!(!instant_reached(u32::MAX - 10, 5));
    // The half-range boundary: exactly half the counter range ahead is
    // still "ahead"; one tick more counts as passed.
    assert!(!instant_reached(0, 0x8000_0000));
    assert!(instant_reached(0, 0x8000_0001));
}

#[test]
fn instant_earlier_orders_across_wraparound() {
    // Relative to a reading near the wrap, a deadline just after the wrap
    // is earlier than one further out.
    let now = u32::MAX - 100;
    assert!(instant_earlier(now, 10, 500));
    assert!(!instant_earlier(now, 500, 10));
    // A passed deadline orders before a future one.
    assert!(instant_earlier(now, now - 5, 10));
    // Equal instants are not strictly earlier.
    assert!(!instant_earlier(now, 10, 10));
}

#[test]
fn delay_is_released_only_once_deadline_reached() {
    let mut s = one_sw_task_sched(4);
    s.delay_until(0, 100, 42);
    assert_eq!(s.timer_service_step(50), TimerOutcome::NoneDue);
    assert_eq!(s.timer_service_step(99), TimerOutcome::NoneDue);
    // Nothing was enqueued while the deadline lay ahead.
    assert_eq!(s.dispatch_next(), DispatchDecision::Idle);
    match s.timer_service_step(100) {
        TimerOutcome::Resumed { task, .. } => assert_eq!(task, 0),
        _ => panic!("expected the delay to be released at its deadline"),
    }
    match s.dispatch_next() {
        DispatchDecision::Software { task, payload, .. } => {
            assert_eq!(task, 0);
            assert_eq!(payload, 42);
        }
        _ => panic!("expected the resumed task to dispatch"),
    }
}

#[test]
fn multiple_delays_release_in_deadline_order_across_wraparound() {
    let mut s = one_sw_task_sched(8);
    // Registered out of order; the second deadline lies past the counter
    // wrap and is the later one.
    s.delay_until(0, 30, 2);
    s.delay_until(0, u32::MAX - 20, 1);
    // At a reading past the wrap both are due: the pre-wrap deadline
    // first, then the post-wrap one.
    let now = 40;
    match s.timer_service_step(now) {
        TimerOutcome::Resumed { task, .. } => assert_eq!(task, 0),
        _ => panic!("expected the older deadline first"),
    }
    match s.timer_service_step(now) {
        TimerOutcome::Resumed { task, .. } => assert_eq!(task, 0),
        _ => panic!("expected the second deadline next"),
    }
    assert_eq!(s.timer_service_step(now), TimerOutcome::NoneDue);
    // Dispatch hands the payloads back in deadline order: the pre-wrap
    // deadline's payload (1) before the post-wrap one's (2).
    match s.dispatch_next() {
        DispatchDecision::Software { payload, .. } => assert_eq!(payload, 1),
        _ => panic!("expected the first released delay"),
    }
    match s.dispatch_next() {
        DispatchDecision::Software { payload, .. } => assert_eq!(payload, 2),
        _ => panic!("expected the second released delay"),
    }
}

#[test]
fn next_deadline_arms_for_the_nearest_instant() {
    let mut t = TimerService::new();
    assert_eq!(t.next_deadline(0), None);
    t.register(0, 500, 0);
    t.register(0, 200, 0);
    t.register(0, 800, 0);
    assert_eq!(t.next_deadline(100), Some(200));
    // Relative to a later reading, passed deadlines order before future
    // ones, oldest first: the timer fires immediately for the backlog.
    assert_eq!(t.next_deadline(600), Some(200));
}

#[test]
fn refused_resume_surfaces_queue_full() {
    let mut s = one_sw_task_sched(1);
    // Fill the single-slot bucket, then let a delay come due.
    s.spawn(0, 7).unwrap();
    s.delay_until(0, 10, 8);
    match s.timer_service_step(10) {
        TimerOutcome::ResumeRefused { task, error } => {
            assert_eq!(task, 0);
            assert_eq!(error, SpawnError::QueueFull);
        }
        _ => panic!("expected the resume to be refused on a full bucket"),
    }
    // The delay was consumed: the step does not fail again.
    assert_eq!(s.timer_service_step(10), TimerOutcome::NoneDue);
}

#[test]
fn pop_due_returns_nothing_on_empty_service() {
    let mut t = TimerService::new();
    assert_eq!(t.pop_due(123), None);
    assert_eq!(t.len(), 0);
}
