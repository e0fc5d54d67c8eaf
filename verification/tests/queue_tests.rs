use rtsched::queue::{ReadyQueue, SpawnError, SpawnRequest};

#[test]
fn enqueue_within_capacity_succeeds_and_overflow_fails() {
    let mut q = ReadyQueue::new(3);
    assert_eq!(q.capacity(), 3);
    // The first K requests of a bucket with capacity K succeed...
    assert_eq!(q.try_enqueue(0, 10), Ok(0));
    assert_eq!(q.try_enqueue(0, 11), Ok(1));
    assert_eq!(q.try_enqueue(1, 12), Ok(2));
    // ...and the (K+1)-th fails with QueueFull, changing nothing.
    assert_eq!(q.try_enqueue(1, 13), Err(SpawnError::QueueFull));
    assert_eq!(q.len(), 3);
}

#[test]
fn dequeue_order_is_enqueue_order() {
    let mut q = ReadyQueue::new(8);
    let payloads = [100u64, 200, 300, 400, 500];
    for (t, p) in payloads.iter().enumerate() {
        q.try_enqueue(t, *p).unwrap();
    }
    for (t, p) in payloads.iter().enumerate() {
        let req = q.dequeue().unwrap();
        assert_eq!(req.task, t);
        assert_eq!(req.payload, *p);
    }
    assert!(q.dequeue().is_none());
}

#[test]
fn dequeue_on_empty_bucket_returns_none() {
    let mut q = ReadyQueue::new(2);
    assert!(q.dequeue().is_none());
    assert!(q.is_empty());
}

#[test]
fn cancel_pending_request_removes_it() {
    let mut q = ReadyQueue::new(4);
    let h0 = q.try_enqueue(7, 70).unwrap();
    let h1 = q.try_enqueue(8, 80).unwrap();
    let h2 = q.try_enqueue(9, 90).unwrap();
    // Canceling a pending request reports "found" and it never executes.
    assert!(q.cancel(h1));
    assert_eq!(q.len(), 2);
    assert_eq!(q.dequeue(), Some(SpawnRequest { task: 7, payload: 70, seq: h0 }));
    assert_eq!(q.dequeue(), Some(SpawnRequest { task: 9, payload: 90, seq: h2 }));
}

#[test]
fn cancel_after_execution_is_a_not_found_no_op() {
    let mut q = ReadyQueue::new(4);
    let h = q.try_enqueue(3, 30).unwrap();
    assert_eq!(q.dequeue(), Some(SpawnRequest { task: 3, payload: 30, seq: h }));
    // The request already ran: cancel reports "not found" and changes nothing.
    assert!(!q.cancel(h));
    assert!(q.is_empty());
}

#[test]
fn cancel_unknown_handle_reports_not_found() {
    let mut q = ReadyQueue::new(4);
    q.try_enqueue(1, 1).unwrap();
    assert!(!q.cancel(999));
    assert_eq!(q.len(), 1);
}

#[test]
fn contains_task_sees_pending_requests_only() {
    let mut q = ReadyQueue::new(4);
    q.try_enqueue(5, 0).unwrap();
    assert!(q.contains_task(5));
    assert!(!q.contains_task(6));
    q.dequeue().unwrap();
    assert!(!q.contains_task(5));
}
