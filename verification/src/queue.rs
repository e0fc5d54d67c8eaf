//! The software-task ready queue: one bounded FIFO per priority bucket,
//! holding pending spawn requests (task id plus an immutable argument
//! payload). Spawning never blocks and never allocates after construction:
//! beyond the bucket's declared capacity it fails with `QueueFull`.
//! A still-pending request can be canceled through the handle its spawn
//! returned; a request that already ran is simply reported "not found".

use vstd::prelude::*;

verus! {

/// Why a spawn request was refused.
#[derive(Clone, Copy, Debug, PartialEq, Eq, Structural)]
pub enum SpawnError {
    /// The priority bucket already holds its declared capacity of pending
    /// requests.
    QueueFull,
    /// The task is declared singleton and one of its requests is still
    /// pending.
    AlreadyPending,
}

/// One pending spawn request.
#[derive(Clone, Copy, Debug, PartialEq, Eq, Structural)]
pub struct SpawnRequest {
    /// The task to invoke.
    pub task: usize,
    /// The immutable argument payload handed to the invocation.
    pub payload: u64,
    /// The handle under which this request can be canceled; unique within
    /// its bucket, and increasing in enqueue order.
    pub seq: u64,
}

/// A bounded FIFO of pending spawn requests for one priority bucket.
pub struct ReadyQueue {
    items: Vec<SpawnRequest>,
    capacity: usize,
    next_seq: u64,
}

impl ReadyQueue {
    /// The pending requests, in enqueue order (front first).
    pub closed spec fn pending(self) -> Seq<SpawnRequest> {
        self.items@
    }

    /// The bucket's declared capacity.
    pub closed spec fn cap(self) -> int {
        self.capacity as int
    }

    /// The handle the next accepted request will get.
    pub closed spec fn next_handle(self) -> int {
        self.next_seq as int
    }

    /// The queue never exceeds its capacity, and handles are strictly
    /// increasing along the queue and all below the next one to be issued.
    pub closed spec fn wf(self) -> bool {
        &&& self.items@.len() <= self.capacity
        &&& forall|i: int, j: int| 0 <= i < j < self.items@.len()
            ==> self.items@[i].seq < self.items@[j].seq
        &&& forall|i: int| 0 <= i < self.items@.len() ==> #[trigger] self.items@[i].seq < self.next_seq
    }

    /// A request bearing the given task id is pending.
    pub open spec fn has_task(self, task: usize) -> bool {
        exists|i: int| 0 <= i < self.pending().len() && #[trigger] self.pending()[i].task == task
    }

    /// An empty bucket with the given declared capacity.
    pub fn new(capacity: usize) -> (q: ReadyQueue)
        ensures
            q.wf(),
            q.pending() =~= Seq::<SpawnRequest>::empty(),
            q.cap() == capacity,
            q.next_handle() == 0,
    {
        ReadyQueue { items: Vec::new(), capacity, next_seq: 0 }
    }

    /// How many requests are pending.
    pub fn len(&self) -> (n: usize)
        ensures
            n == self.pending().len(),
    {
        self.items.len()
    }

    /// Whether no request is pending.
    pub fn is_empty(&self) -> (r: bool)
        ensures
            r == (self.pending().len() == 0),
    {
        self.items.len() == 0
    }

    /// The bucket's declared capacity.
    pub fn capacity(&self) -> (c: usize)
        ensures
            c == self.cap(),
    {
        self.capacity
    }

    /// Whether a request for `task` is pending.
    pub fn contains_task(&self, task: usize) -> (r: bool)
        ensures
            r == self.has_task(task),
    {
        let mut i: usize = 0;
        while i < self.items.len()
            invariant
                i <= self.items@.len(),
                forall|k: int| 0 <= k < i ==> #[trigger] self.items@[k].task != task,
            decreases self.items@.len() - i,
        {
            if self.items[i].task == task {
                assert(self.pending()[i as int].task == task);
                return true;
            }
            i += 1;
        }
        false
    }

    /// Enqueue a request at the back of the bucket. Succeeds with a fresh
    /// handle exactly when the bucket is below capacity; on a full bucket
    /// it fails with `QueueFull` and changes nothing. Never blocks.
    pub fn try_enqueue(&mut self, task: usize, payload: u64) -> (r: Result<u64, SpawnError>)
        requires
            old(self).wf(),
            old(self).next_handle() < u64::MAX,
        ensures
            final(self).wf(),
            final(self).cap() == old(self).cap(),
            old(self).pending().len() < old(self).cap() ==> {
                &&& r == Ok::<u64, SpawnError>((old(self).next_handle() as u64))
                &&& final(self).pending() =~= old(self).pending().push(
                    SpawnRequest { task, payload, seq: old(self).next_handle() as u64 })
                &&& final(self).next_handle() == old(self).next_handle() + 1
            },
            old(self).pending().len() >= old(self).cap() ==> {
                &&& r == Err::<u64, SpawnError>(SpawnError::QueueFull)
                &&& *final(self) == *old(self)
            },
    {
        if self.items.len() >= self.capacity {
            return Err(SpawnError::QueueFull);
        }
        let seq = self.next_seq;
        self.items.push(SpawnRequest { task, payload, seq });
        self.next_seq = seq + 1;
        Ok(seq)
    }

    /// Remove and return the front (earliest-enqueued) request, or nothing
    /// when the bucket is empty.
    pub fn dequeue(&mut self) -> (r: Option<SpawnRequest>)
        requires
            old(self).wf(),
        ensures
            final(self).wf(),
            final(self).cap() == old(self).cap(),
            final(self).next_handle() == old(self).next_handle(),
            r is None <==> old(self).pending().len() == 0,
            r is None ==> *final(self) == *old(self),
            r matches Some(req) ==> {
                &&& req == old(self).pending()[0]
                &&& final(self).pending() =~= old(self).pending().skip(1)
            },
    {
        if self.items.len() == 0 {
            return None;
        }
        let req = self.items.remove(0);
        proof {
            assert(old(self).items@.remove(0) =~= old(self).items@.skip(1));
        }
        Some(req)
    }

    /// Cancel the pending request with the given handle. Returns whether it
    /// was found; when found, exactly that request is removed and the order
    /// of the others is kept; a handle whose request already ran (or never
    /// existed) is reported not found, and nothing changes.
    pub fn cancel(&mut self, seq: u64) -> (found: bool)
        requires
            old(self).wf(),
        ensures
            final(self).wf(),
            final(self).cap() == old(self).cap(),
            final(self).next_handle() == old(self).next_handle(),
            found <==> exists|i: int|
                0 <= i < old(self).pending().len() && #[trigger] old(self).pending()[i].seq == seq,
            found ==> exists|i: int|
                0 <= i < old(self).pending().len() && #[trigger] old(self).pending()[i].seq == seq
                && final(self).pending() =~= old(self).pending().remove(i),
            !found ==> *final(self) == *old(self),
    {
        let mut i: usize = 0;
        while i < self.items.len()
            invariant
                *self == *old(self),
                self.wf(),
                i <= self.items@.len(),
                forall|k: int| 0 <= k < i ==> #[trigger] self.items@[k].seq != seq,
            decreases self.items@.len() - i,
        {
            if self.items[i].seq == seq {
                assert(self.pending()[i as int].seq == seq);
                self.items.remove(i);
                return true;
            }
            i += 1;
        }
        false
    }
}

/// Dispatch order within one bucket is exactly enqueue order: with pending
/// requests `s`, the k-th dequeue returns `s[k]`, since every dequeue takes
/// the front and leaves the rest in order.
pub proof fn lemma_fifo_order(s: Seq<SpawnRequest>, k: int)
    requires
        0 <= k < s.len(),
    ensures
        s.skip(k)[0] == s[k],
        k + 1 < s.len() ==> s.skip(k).skip(1) =~= s.skip(k + 1),
{
}

} // verus!
