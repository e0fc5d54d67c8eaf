use rtsched::dispatch::{DispatchDecision, Scheduler, SpawnHandle};
use rtsched::queue::SpawnError;
use rtsched::registry::{Registry, TaskBinding, TaskDecl};

fn sched(tasks: Vec<TaskDecl>, n_shared: usize, max_priority: u8, capacity: usize) -> Scheduler {
    let reg = Registry::build(tasks, n_shared, 0, max_priority, max_priority as usize).unwrap();
    Scheduler::new(reg, capacity)
}

fn sw_decl(priority: u8, shared: Vec<usize>) -> TaskDecl {
    TaskDecl { priority, binding: TaskBinding::Software, shared, local: vec![], singleton: false }
}

fn hw_decl(priority: u8, vector: u16, shared: Vec<usize>) -> TaskDecl {
    TaskDecl { priority, binding: TaskBinding::Hardware { vector }, shared, local: vec![], singleton: false }
}

#[test]
fn higher_priority_task_runs_before_lower() {
    // Task 0 at priority 1, task 1 at priority 3: with both ready, the
    // higher one runs to completion first, whatever the spawn order was.
    let mut s = sched(vec![sw_decl(1, vec![]), sw_decl(3, vec![])], 0, 3, 4);
    s.spawn(0, 100).unwrap();
    s.spawn(1, 300).unwrap();
    match s.dispatch_next() {
        DispatchDecision::Software { task, payload, .. } => {
            assert_eq!(task, 1);
            assert_eq!(payload, 300);
        }
        _ => panic!("expected the priority-3 task first"),
    }
    match s.dispatch_next() {
        DispatchDecision::Software { task, .. } => assert_eq!(task, 0),
        _ => panic!("expected the priority-1 task second"),
    }
    assert_eq!(s.dispatch_next(), DispatchDecision::Idle);
}

#[test]
fn hardware_task_preempts_lower_priority_software() {
    let mut s = sched(vec![sw_decl(1, vec![]), hw_decl(2, 9, vec![])], 0, 2, 4);
    s.spawn(0, 5).unwrap();
    s.hardware_raise(1);
    assert_eq!(s.dispatch_next(), DispatchDecision::Hardware { task: 1 });
    match s.dispatch_next() {
        DispatchDecision::Software { task, .. } => assert_eq!(task, 0),
        _ => panic!("expected the software task after the hardware task"),
    }
}

#[test]
fn lock_masks_tasks_up_to_ceiling_and_release_restores() {
    // Resource 0 is accessed by tasks of priority 1 and 3: ceiling 3.
    // Resource 1 only by the priority-1 task: ceiling 1.
    let mut s = sched(
        vec![sw_decl(1, vec![0, 1]), sw_decl(3, vec![0]), sw_decl(2, vec![])],
        2,
        3,
        4,
    );
    assert_eq!(s.current_ceiling(), 0);
    s.lock_acquire(0);
    assert_eq!(s.current_ceiling(), 3);
    // While the lock is held, even the priority-3 task is masked...
    s.spawn(1, 0).unwrap();
    s.spawn(2, 0).unwrap();
    assert_eq!(s.dispatch_next(), DispatchDecision::Idle);
    // ...locks nest, and each release restores the previous ceiling...
    s.lock_acquire(1);
    assert_eq!(s.current_ceiling(), 3);
    s.lock_release();
    assert_eq!(s.current_ceiling(), 3);
    s.lock_release();
    assert_eq!(s.current_ceiling(), 0);
    // ...and after the full release the masked work runs, highest first.
    match s.dispatch_next() {
        DispatchDecision::Software { task, .. } => assert_eq!(task, 1),
        _ => panic!("expected the priority-3 task once unmasked"),
    }
}

#[test]
fn lock_on_low_ceiling_resource_delays_nothing_above() {
    // Resource 1 has ceiling 1: a lock on it never delays the priority-3
    // task, which does not touch it.
    let mut s = sched(vec![sw_decl(1, vec![0, 1]), sw_decl(3, vec![0])], 2, 3, 4);
    s.lock_acquire(1);
    assert_eq!(s.current_ceiling(), 1);
    s.spawn(1, 0).unwrap();
    match s.dispatch_next() {
        DispatchDecision::Software { task, .. } => assert_eq!(task, 1),
        _ => panic!("expected the priority-3 task to run above the ceiling"),
    }
    s.lock_release();
}

#[test]
fn fifo_within_one_priority_bucket() {
    let mut s = sched(vec![sw_decl(2, vec![]), sw_decl(2, vec![])], 0, 2, 8);
    // Distinct payloads mark the enqueue order across two tasks of the
    // same priority.
    s.spawn(0, 1).unwrap();
    s.spawn(1, 2).unwrap();
    s.spawn(0, 3).unwrap();
    s.spawn(1, 4).unwrap();
    let mut seen: Vec<u64> = Vec::new();
    loop {
        match s.dispatch_next() {
            DispatchDecision::Software { payload, .. } => seen.push(payload),
            DispatchDecision::Idle => break,
            DispatchDecision::Hardware { .. } => panic!("no hardware task declared"),
        }
    }
    assert_eq!(seen, vec![1, 2, 3, 4]);
}

#[test]
fn spawn_beyond_capacity_fails_with_queue_full() {
    let mut s = sched(vec![sw_decl(1, vec![])], 0, 1, 2);
    assert!(s.spawn(0, 1).is_ok());
    assert!(s.spawn(0, 2).is_ok());
    assert_eq!(s.spawn(0, 3), Err(SpawnError::QueueFull));
    // The failed spawn was dropped, the first two still dispatch in order.
    match s.dispatch_next() {
        DispatchDecision::Software { payload, .. } => assert_eq!(payload, 1),
        _ => panic!("expected the first request"),
    }
}

#[test]
fn singleton_task_rejects_respawn_while_pending() {
    let tasks = vec![TaskDecl {
        priority: 1,
        binding: TaskBinding::Software,
        shared: vec![],
        local: vec![],
        singleton: true,
    }];
    let reg = Registry::build(tasks, 0, 0, 1, 1).unwrap();
    let mut s = Scheduler::new(reg, 4);
    assert!(s.spawn(0, 1).is_ok());
    assert_eq!(s.spawn(0, 2), Err(SpawnError::AlreadyPending));
    // Once the pending request ran, a new spawn is accepted again.
    match s.dispatch_next() {
        DispatchDecision::Software { payload, .. } => assert_eq!(payload, 1),
        _ => panic!("expected the pending request"),
    }
    assert!(s.spawn(0, 3).is_ok());
}

#[test]
fn cancel_pending_spawn_prevents_execution() {
    let mut s = sched(vec![sw_decl(2, vec![])], 0, 2, 4);
    let h1 = s.spawn(0, 10).unwrap();
    let h2 = s.spawn(0, 20).unwrap();
    assert_eq!(h1, SpawnHandle { priority: 2, seq: 0 });
    assert!(s.cancel(h1));
    // The canceled request never executes; the other dispatches.
    match s.dispatch_next() {
        DispatchDecision::Software { payload, handle, .. } => {
            assert_eq!(payload, 20);
            assert_eq!(handle, h2);
        }
        _ => panic!("expected the surviving request"),
    }
    // Canceling after execution reports "not found" and is a no-op.
    assert!(!s.cancel(h2));
    assert_eq!(s.dispatch_next(), DispatchDecision::Idle);
}

#[test]
fn idle_runs_exactly_when_nothing_is_pending() {
    let mut s = sched(vec![sw_decl(1, vec![]), hw_decl(2, 4, vec![])], 0, 2, 4);
    assert!(s.should_run_idle());
    // Injecting a spawn while idle immediately makes work dispatchable.
    s.spawn(0, 0).unwrap();
    assert!(!s.should_run_idle());
    s.dispatch_next();
    assert!(s.should_run_idle());
    // A pending hardware task also keeps idle away.
    s.hardware_raise(1);
    assert!(!s.should_run_idle());
    assert_eq!(s.dispatch_next(), DispatchDecision::Hardware { task: 1 });
    assert!(s.should_run_idle());
}
