//! The interrupt-driven dispatcher, modelled as one explicit scheduler
//! context that owns the per-priority ready queues, the current-ceiling
//! register, the pending flags of the hardware tasks and the timer
//! service. At any preemption point the dispatcher chooses the highest
//! dispatchable priority: a priority with pending work that lies strictly
//! above the current ceiling. Equal-priority tasks never preempt each
//! other; among pending equal-priority software tasks dispatch is strict
//! FIFO by spawn order; when no task is dispatchable the idle task runs.
//!
//! On a target with interrupt-priority hardware, each spawn triggers the
//! synthetic "dispatcher" interrupt reserved for its priority level; here
//! the scan over the ready queues at each preemption point stands in for
//! that plumbing and preserves the same preemption and locking order.

use vstd::prelude::*;

use crate::ceiling::{CeilingRegister, acquire_transition, release_transition};
use crate::queue::{ReadyQueue, SpawnError, SpawnRequest};
use crate::registry::{Registry, TaskDecl, ceiling_of, task_wf};
use crate::timer::{TimerEntry, TimerService, reached, signed_dist};

verus! {

/// The handle a successful spawn returns: enough to cancel the request
/// while it is still pending.
#[derive(Clone, Copy, Debug, PartialEq, Eq, Structural)]
pub struct SpawnHandle {
    /// The priority bucket the request went into.
    pub priority: u8,
    /// The request's handle within that bucket.
    pub seq: u64,
}

/// What the dispatcher decided at a preemption point.
#[derive(Clone, Copy, Debug, PartialEq, Eq, Structural)]
pub enum DispatchDecision {
    /// No task is dispatchable: the idle task runs (it may enter a
    /// low-power wait, and is preempted the instant work arrives).
    Idle,
    /// Run this pending hardware task to completion.
    Hardware { task: usize },
    /// Run the front spawn request of the chosen bucket.
    Software { task: usize, payload: u64, handle: SpawnHandle },
}

/// What one step of the timer service did.
#[derive(Clone, Copy, Debug, PartialEq, Eq, Structural)]
pub enum TimerOutcome {
    /// No pending delay has reached its deadline; nothing changed.
    NoneDue,
    /// The nearest due delay was released: its task is enqueued again.
    Resumed { task: usize, handle: SpawnHandle },
    /// The nearest due delay was consumed but its task could not be
    /// re-enqueued; the caller decides how to escalate.
    ResumeRefused { task: usize, error: SpawnError },
}

/// The scheduler context: the validated registry, one ready queue per
/// priority level, the current-ceiling register, the hardware tasks'
/// pending flags, and the timer service.
pub struct Scheduler {
    registry: Registry,
    queues: Vec<ReadyQueue>,
    ceiling: CeilingRegister,
    hw_pending: Vec<bool>,
    timer: TimerService,
}

impl Scheduler {
    /// The task table.
    pub closed spec fn tasks(self) -> Seq<TaskDecl> {
        self.registry.tasks_view()
    }

    /// The registry this scheduler was built from.
    pub closed spec fn reg(self) -> Registry {
        self.registry
    }

    /// The platform's highest priority level.
    pub closed spec fn max_pri(self) -> u8 {
        self.registry.max_priority_spec()
    }

    /// The ready queue of priority level `p` (levels are `1..=max_pri`).
    pub closed spec fn bucket(self, p: u8) -> ReadyQueue {
        self.queues@[p - 1]
    }

    /// The hardware tasks' pending flags, indexed by task id.
    pub closed spec fn hw_pending_view(self) -> Seq<bool> {
        self.hw_pending@
    }

    /// The current-ceiling register.
    pub closed spec fn ceiling_reg(self) -> CeilingRegister {
        self.ceiling
    }

    /// The current ceiling: the priority at or below which dispatch is
    /// suppressed because resource locks are held; 0 when none is.
    pub open spec fn ceiling_now(self) -> u8 {
        self.ceiling_reg().current_ceiling()
    }

    /// The pending delays of the timer service.
    pub closed spec fn delays(self) -> Seq<TimerEntry> {
        self.timer.pending()
    }

    /// Some pending hardware task has priority `p`.
    pub open spec fn hw_ready_at(self, p: u8) -> bool {
        exists|t: int| 0 <= t < self.tasks().len()
            && (#[trigger] self.hw_pending_view()[t])
            && self.tasks()[t].priority == p
    }

    /// The ready queue of level `p` holds a pending spawn request.
    pub open spec fn sw_ready_at(self, p: u8) -> bool {
        1 <= p <= self.max_pri() && self.bucket(p).pending().len() > 0
    }

    /// Priority level `p` has pending work.
    pub open spec fn ready_at(self, p: u8) -> bool {
        self.hw_ready_at(p) || self.sw_ready_at(p)
    }

    /// Priority level `p` may be dispatched now: it has pending work and
    /// lies strictly above the current ceiling.
    pub open spec fn dispatchable(self, p: u8) -> bool {
        self.ready_at(p) && p > self.ceiling_now()
    }

    /// `p` is the highest dispatchable priority.
    pub open spec fn top_dispatchable(self, p: u8) -> bool {
        self.dispatchable(p) && (forall|q: u8| self.dispatchable(q) ==> q <= p)
    }

    /// Nothing at all is pending: every ready queue is empty and no
    /// hardware task is pending. Exactly then may the idle task run (when
    /// additionally no lock holder is in progress, i.e. the ceiling is 0).
    pub open spec fn quiescent(self) -> bool {
        &&& forall|p: u8| 1 <= p <= self.max_pri() ==> (#[trigger] self.bucket(p)).pending().len() == 0
        &&& forall|t: int| 0 <= t < self.tasks().len() ==> !(#[trigger] self.hw_pending_view()[t])
    }

    /// The scheduler's own invariant: the registry is validated, there is
    /// one well-formed queue per priority level, pending flags exist for
    /// exactly the declared tasks and are set only on hardware tasks, and
    /// every pending delay names a declared software task.
    pub closed spec fn wf(self) -> bool {
        &&& self.registry.wf()
        &&& self.queues@.len() == self.max_pri()
        &&& forall|i: int| 0 <= i < self.queues@.len() ==> (#[trigger] self.queues@[i]).wf()
        &&& self.hw_pending@.len() == self.tasks().len()
        &&& forall|t: int| 0 <= t < self.tasks().len()
            ==> ((#[trigger] self.hw_pending@[t]) ==> !(self.tasks()[t].binding is Software))
        &&& forall|i: int| 0 <= i < self.delays().len()
            ==> 0 <= (#[trigger] self.delays()[i]).task < self.tasks().len()
                && self.tasks()[self.delays()[i].task as int].binding is Software
    }

    /// A scheduler over a validated registry: all buckets empty with the
    /// declared capacity, no lock held, no hardware task pending, no delay
    /// pending.
    pub fn new(registry: Registry, bucket_capacity: usize) -> (s: Scheduler)
        requires
            registry.wf(),
        ensures
            s.wf(),
            s.reg() == registry,
            s.ceiling_now() == 0,
            s.ceiling_reg().locks_held() == 0,
            s.quiescent(),
            s.delays().len() == 0,
            forall|p: u8| 1 <= p <= s.max_pri()
                ==> (#[trigger] s.bucket(p)).pending().len() == 0
                    && s.bucket(p).cap() == bucket_capacity
                    && s.bucket(p).next_handle() == 0,
    {
        let levels = registry.max_priority();
        let mut queues: Vec<ReadyQueue> = Vec::new();
        let mut i: usize = 0;
        while i < levels as usize
            invariant
                queues@.len() == i,
                i <= levels as usize,
                forall|k: int| 0 <= k < i ==> {
                    &&& (#[trigger] queues@[k]).wf()
                    &&& queues@[k].pending().len() == 0
                    &&& queues@[k].cap() == bucket_capacity
                    &&& queues@[k].next_handle() == 0
                },
            decreases levels as int - i,
        {
            queues.push(ReadyQueue::new(bucket_capacity));
            i += 1;
        }
        let n_tasks = registry.task_count();
        let mut hw_pending: Vec<bool> = Vec::new();
        let mut t: usize = 0;
        while t < n_tasks
            invariant
                hw_pending@.len() == t,
                t <= n_tasks,
                forall|k: int| 0 <= k < t ==> !(#[trigger] hw_pending@[k]),
            decreases n_tasks - t,
        {
            hw_pending.push(false);
            t += 1;
        }
        Scheduler {
            registry,
            queues,
            ceiling: CeilingRegister::new(),
            hw_pending,
            timer: TimerService::new(),
        }
    }

    /// The current ceiling, as the preemption check reads it.
    pub fn current_ceiling(&self) -> (c: u8)
        ensures
            c == self.ceiling_now(),
    {
        self.ceiling.current()
    }

    /// Acquire the lock on shared resource `resource`: raise the current
    /// ceiling to at least the resource's computed ceiling. The caller's
    /// critical section runs immediately after this returns — locking
    /// never waits — and every task whose priority is at most the
    /// resource's ceiling (in particular every task that ever accesses the
    /// resource) stays masked until the matching `lock_release`.
    pub fn lock_acquire(&mut self, resource: usize)
        requires
            old(self).wf(),
            resource < old(self).reg().shared_count(),
        ensures
            final(self).wf(),
            acquire_transition(old(self).ceiling_reg(), final(self).ceiling_reg(),
                ceiling_of(old(self).tasks(), resource)),
            final(self).ceiling_reg().masks(ceiling_of(old(self).tasks(), resource)),
            final(self).reg() == old(self).reg(),
            final(self).queues_unchanged(*old(self)),
            final(self).hw_pending_view() =~= old(self).hw_pending_view(),
            final(self).delays() =~= old(self).delays(),
    {
        let c = self.registry.ceiling(resource);
        self.ceiling.acquire(c);
    }

    /// Release the innermost held lock: restore the ceiling in force when
    /// its matching acquire ran. Runs on every exit path of the critical
    /// section, early return included.
    pub fn lock_release(&mut self)
        requires
            old(self).wf(),
            old(self).ceiling_reg().locks_held() > 0,
        ensures
            final(self).wf(),
            release_transition(old(self).ceiling_reg(), final(self).ceiling_reg()),
            final(self).reg() == old(self).reg(),
            final(self).queues_unchanged(*old(self)),
            final(self).hw_pending_view() =~= old(self).hw_pending_view(),
            final(self).delays() =~= old(self).delays(),
    {
        self.ceiling.release();
    }

    /// All ready queues stand as in `other`.
    pub open spec fn queues_unchanged(self, other: Scheduler) -> bool {
        &&& self.max_pri() == other.max_pri()
        &&& forall|p: u8| 1 <= p <= self.max_pri() ==> #[trigger] self.bucket(p) == other.bucket(p)
    }

    /// Preemption: whenever priority `pa` is dispatchable, the
    /// dispatcher's choice is at least `pa`; in particular no priority
    /// below `pa` — and so no lower-priority task — runs while `pa` has
    /// pending, unmasked work.
    pub proof fn lemma_preemption(self, top: u8, pa: u8, pb: u8)
        requires
            self.top_dispatchable(top),
            self.dispatchable(pa),
            pb < pa,
        ensures
            top >= pa,
            top != pb,
    {
    }

    /// The ceiling protocol, as the dispatcher enforces it: while the
    /// current ceiling stands at or above a priority, no task of that
    /// priority is dispatched, however much work is pending there.
    pub proof fn lemma_masked_not_dispatched(self, p: u8)
        requires
            self.ceiling_reg().masks(p),
        ensures
            !self.dispatchable(p),
    {
    }

    /// While the current ceiling stands at or above the ceiling of shared
    /// resource `resource` — as it does for the whole scope of a lock on
    /// it — no task that ever accesses `resource` can be dispatched: its
    /// priority is at most the resource's ceiling, so it is masked.
    pub proof fn lemma_lock_excludes_conflicting(self, resource: usize, t: int)
        requires
            self.wf(),
            0 <= resource < self.reg().shared_count(),
            0 <= t < self.tasks().len(),
            self.tasks()[t].shared@.contains(resource),
            self.ceiling_reg().masks(ceiling_of(self.tasks(), resource)),
        ensures
            !self.dispatchable(self.tasks()[t].priority),
    {
        crate::registry::lemma_ceiling_dominates(self.tasks(), t, resource);
    }

    /// With no lock held, the idle task runs exactly when every ready
    /// queue is empty and no hardware task is pending; the moment a spawn
    /// or an interrupt arrives, some priority is dispatchable and idle is
    /// preempted.
    pub proof fn lemma_idle_iff_quiescent(self)
        requires
            self.wf(),
            self.ceiling_now() == 0,
        ensures
            (forall|p: u8| !self.dispatchable(p)) <==> self.quiescent(),
    {
        self.registry.lemma_wf_tasks();
        if forall|p: u8| !self.dispatchable(p) {
            assert forall|p: u8| 1 <= p <= self.max_pri() implies
                (#[trigger] self.bucket(p)).pending().len() == 0 by {
                if self.bucket(p).pending().len() > 0 {
                    assert(self.dispatchable(p));
                }
            }
            assert forall|t: int| 0 <= t < self.tasks().len() implies
                !(#[trigger] self.hw_pending_view()[t]) by {
                if self.hw_pending_view()[t] {
                    let p = self.tasks()[t].priority;
                    assert(task_wf(self.tasks()[t], self.reg().shared_count(),
                        self.reg().local_count(), self.max_pri()));
                    assert(self.hw_ready_at(p));
                    assert(self.dispatchable(p));
                }
            }
        }
        if self.quiescent() {
            assert forall|p: u8| !self.dispatchable(p) by {
                if self.hw_ready_at(p) {
                    let t = choose|t: int| 0 <= t < self.tasks().len()
                        && (#[trigger] self.hw_pending_view()[t]) && self.tasks()[t].priority == p;
                    assert(!self.hw_pending_view()[t]);
                }
            }
        }
    }

    /// Everything but the ready queues stands as in `other`.
    pub open spec fn only_queues_changed(self, other: Scheduler) -> bool {
        &&& self.reg() == other.reg()
        &&& self.ceiling_reg() == other.ceiling_reg()
        &&& self.hw_pending_view() =~= other.hw_pending_view()
        &&& self.delays() =~= other.delays()
        &&& self.max_pri() == other.max_pri()
    }

    /// What a spawn does: on a singleton task with a request still
    /// pending it fails with `AlreadyPending`; on a full bucket it fails
    /// with `QueueFull`; otherwise it appends the request at the back of
    /// the task's priority bucket under a fresh handle. Nothing else
    /// changes, and a failed spawn changes nothing at all.
    pub open spec fn spawn_outcome(pre: Scheduler, post: Scheduler, task: usize, payload: u64, r: Result<SpawnHandle, SpawnError>) -> bool {
        let p = pre.tasks()[task as int].priority;
        let q = pre.bucket(p);
        &&& post.only_queues_changed(pre)
        &&& if pre.tasks()[task as int].singleton && q.has_task(task) {
            &&& r == Err::<SpawnHandle, SpawnError>(SpawnError::AlreadyPending)
            &&& post.queues_unchanged(pre)
        } else if q.pending().len() >= q.cap() {
            &&& r == Err::<SpawnHandle, SpawnError>(SpawnError::QueueFull)
            &&& post.queues_unchanged(pre)
        } else {
            &&& r == Ok::<SpawnHandle, SpawnError>((SpawnHandle { priority: p, seq: q.next_handle() as u64 }))
            &&& post.bucket(p).pending() =~= q.pending().push(
                (SpawnRequest { task, payload, seq: q.next_handle() as u64 }))
            &&& post.bucket(p).next_handle() == q.next_handle() + 1
            &&& post.bucket(p).cap() == q.cap()
            &&& forall|p2: u8| 1 <= p2 <= pre.max_pri() && p2 != p ==> #[trigger] post.bucket(p2) == pre.bucket(p2)
        }
    }

    /// Enqueue an invocation of software task `task` with the given
    /// immutable payload on the bucket of the task's priority. Never
    /// blocks and never allocates beyond the bucket's fixed capacity:
    /// the first `K` requests of a bucket with capacity `K` succeed, the
    /// `K+1`-th fails with `QueueFull`, and the caller decides whether to
    /// drop, retry or escalate.
    pub fn spawn(&mut self, task: usize, payload: u64) -> (r: Result<SpawnHandle, SpawnError>)
        requires
            old(self).wf(),
            task < old(self).tasks().len(),
            old(self).tasks()[task as int].binding is Software,
            old(self).bucket(old(self).tasks()[task as int].priority).next_handle() < u64::MAX,
        ensures
            final(self).wf(),
            Scheduler::spawn_outcome(*old(self), *final(self), task, payload, r),
    {
        proof {
            self.registry.lemma_wf_tasks();
            assert(task_wf(self.tasks()[task as int], self.reg().shared_count(),
                self.reg().local_count(), self.max_pri()));
        }
        let p = self.registry.priority_of(task);
        let idx = (p - 1) as usize;
        if self.registry.is_singleton(task) && self.queues[idx].contains_task(task) {
            return Err(SpawnError::AlreadyPending);
        }
        match self.queues[idx].try_enqueue(task, payload) {
            Ok(seq) => Ok(SpawnHandle { priority: p, seq }),
            Err(e) => Err(e),
        }
    }

    /// Cancel the still-pending spawn request behind `handle`. Returns
    /// whether it was found: a found request is removed and never
    /// executes, the order of the other requests is kept; a request that
    /// already started or completed is gone from its bucket, so this
    /// reports "not found" and is a no-op, never an error.
    pub fn cancel(&mut self, handle: SpawnHandle) -> (found: bool)
        requires
            old(self).wf(),
            1 <= handle.priority <= old(self).max_pri(),
        ensures
            final(self).wf(),
            final(self).only_queues_changed(*old(self)),
            forall|p2: u8| 1 <= p2 <= old(self).max_pri() && p2 != handle.priority
                ==> #[trigger] final(self).bucket(p2) == old(self).bucket(p2),
            found <==> exists|i: int| 0 <= i < old(self).bucket(handle.priority).pending().len()
                && (#[trigger] old(self).bucket(handle.priority).pending()[i]).seq == handle.seq,
            found ==> exists|i: int| {
                &&& 0 <= i < old(self).bucket(handle.priority).pending().len()
                &&& (#[trigger] old(self).bucket(handle.priority).pending()[i]).seq == handle.seq
                &&& final(self).bucket(handle.priority).pending()
                    =~= old(self).bucket(handle.priority).pending().remove(i)
            },
            !found ==> final(self).bucket(handle.priority) == old(self).bucket(handle.priority),
            final(self).bucket(handle.priority).cap() == old(self).bucket(handle.priority).cap(),
            final(self).bucket(handle.priority).next_handle() == old(self).bucket(handle.priority).next_handle(),
    {
        let idx = (handle.priority - 1) as usize;
        let found = self.queues[idx].cancel(handle.seq);
        proof {
            let qpre = old(self).queues@[idx as int];
            assert(qpre == old(self).bucket(handle.priority));
            if found {
                let i = choose|i: int|
                    0 <= i < qpre.pending().len() && #[trigger] qpre.pending()[i].seq == handle.seq
                    && self.queues@[idx as int].pending() =~= qpre.pending().remove(i);
                assert(0 <= i < old(self).bucket(handle.priority).pending().len()
                    && (old(self).bucket(handle.priority).pending()[i]).seq == handle.seq
                    && self.bucket(handle.priority).pending()
                        =~= old(self).bucket(handle.priority).pending().remove(i));
            } else {
                assert forall|i: int| 0 <= i < old(self).bucket(handle.priority).pending().len()
                    implies (old(self).bucket(handle.priority).pending()[i]).seq != handle.seq by {
                    assert(qpre.pending()[i].seq != handle.seq);
                }
            }
        }
        found
    }

    /// Record that the hardware interrupt bound to `task` fired: the task
    /// is pending until the dispatcher runs it.
    pub fn hardware_raise(&mut self, task: usize)
        requires
            old(self).wf(),
            task < old(self).tasks().len(),
            !(old(self).tasks()[task as int].binding is Software),
        ensures
            final(self).wf(),
            final(self).hw_pending_view() =~= old(self).hw_pending_view().update(task as int, true),
            final(self).reg() == old(self).reg(),
            final(self).ceiling_reg() == old(self).ceiling_reg(),
            final(self).queues_unchanged(*old(self)),
            final(self).delays() =~= old(self).delays(),
    {
        self.hw_pending[task] = true;
    }

    /// The id of the lowest-numbered pending hardware task at priority
    /// `p`, if any.
    fn lowest_pending_hw_at(&self, p: u8) -> (r: Option<usize>)
        requires
            self.wf(),
        ensures
            r is None <==> !self.hw_ready_at(p),
            r matches Some(t) ==> {
                &&& t < self.tasks().len()
                &&& self.hw_pending_view()[t as int]
                &&& self.tasks()[t as int].priority == p
                &&& forall|t2: int| 0 <= t2 < t
                    ==> !((#[trigger] self.hw_pending_view()[t2]) && self.tasks()[t2].priority == p)
            },
    {
        let n = self.registry.task_count();
        let mut t: usize = 0;
        while t < n
            invariant
                self.wf(),
                n == self.tasks().len(),
                t <= n,
                forall|k: int| 0 <= k < t
                    ==> !((#[trigger] self.hw_pending_view()[k]) && self.tasks()[k].priority == p),
            decreases n - t,
        {
            if self.hw_pending[t] && self.registry.priority_of(t) == p {
                assert(self.hw_pending_view()[t as int]);
                return Some(t);
            }
            t += 1;
        }
        None
    }

    /// The highest dispatchable priority: the highest level that has
    /// pending work and lies strictly above the current ceiling; nothing
    /// when no level does.
    pub fn top_priority(&self) -> (r: Option<u8>)
        requires
            self.wf(),
        ensures
            r is None <==> (forall|p: u8| !self.dispatchable(p)),
            r matches Some(p) ==> self.top_dispatchable(p) && 1 <= p <= self.max_pri(),
    {
        let ceil = self.ceiling.current();
        let maxp = self.registry.max_priority();
        proof {
            self.registry.lemma_wf_tasks();
            assert forall|q: u8| q > maxp implies !self.dispatchable(q) by {
                if self.hw_ready_at(q) {
                    let t = choose|t: int| 0 <= t < self.tasks().len()
                        && (#[trigger] self.hw_pending_view()[t]) && self.tasks()[t].priority == q;
                    assert(task_wf(self.tasks()[t], self.reg().shared_count(),
                        self.reg().local_count(), self.max_pri()));
                }
            }
        }
        let mut p: u8 = maxp;
        while p > ceil
            invariant
                self.wf(),
                maxp == self.max_pri(),
                ceil == self.ceiling_now(),
                p <= maxp || p == ceil,
                forall|q: u8| q > p ==> !self.dispatchable(q),
            decreases p,
        {
            let hw = match self.lowest_pending_hw_at(p) {
                Some(_) => true,
                None => false,
            };
            if hw || self.queues[(p - 1) as usize].len() > 0 {
                assert(self.dispatchable(p));
                return Some(p);
            }
            p -= 1;
        }
        None
    }

    /// The dispatcher's choice at a preemption point. Picks the highest
    /// dispatchable priority; at that level a pending hardware task (the
    /// lowest-numbered) goes first, else the front of the level's spawn
    /// queue; when no level is dispatchable, the idle task. The chosen
    /// item is consumed: a hardware task's pending flag is cleared, a
    /// spawn request leaves its bucket.
    pub fn dispatch_next(&mut self) -> (d: DispatchDecision)
        requires
            old(self).wf(),
        ensures
            final(self).wf(),
            final(self).reg() == old(self).reg(),
            final(self).ceiling_reg() == old(self).ceiling_reg(),
            final(self).delays() =~= old(self).delays(),
            final(self).max_pri() == old(self).max_pri(),
            d is Idle <==> (forall|p: u8| !old(self).dispatchable(p)),
            d is Idle ==> final(self).queues_unchanged(*old(self))
                && final(self).hw_pending_view() =~= old(self).hw_pending_view(),
            (d matches DispatchDecision::Hardware { task } ==> {
                &&& task < old(self).tasks().len()
                &&& old(self).hw_pending_view()[task as int]
                &&& !(old(self).tasks()[task as int].binding is Software)
                &&& old(self).top_dispatchable(old(self).tasks()[task as int].priority)
                &&& forall|t2: int| 0 <= t2 < task
                    ==> !((#[trigger] old(self).hw_pending_view()[t2])
                        && old(self).tasks()[t2].priority == old(self).tasks()[task as int].priority)
                &&& final(self).hw_pending_view() =~= old(self).hw_pending_view().update(task as int, false)
                &&& final(self).queues_unchanged(*old(self))
            }),
            (d matches DispatchDecision::Software { task, payload, handle } ==> {
                &&& old(self).top_dispatchable(handle.priority)
                &&& 1 <= handle.priority <= old(self).max_pri()
                &&& !old(self).hw_ready_at(handle.priority)
                &&& old(self).bucket(handle.priority).pending().len() > 0
                &&& old(self).bucket(handle.priority).pending()[0]
                    == (SpawnRequest { task, payload, seq: handle.seq })
                &&& final(self).bucket(handle.priority).pending()
                    =~= old(self).bucket(handle.priority).pending().skip(1)
                &&& final(self).bucket(handle.priority).cap() == old(self).bucket(handle.priority).cap()
                &&& final(self).bucket(handle.priority).next_handle()
                    == old(self).bucket(handle.priority).next_handle()
                &&& forall|p2: u8| 1 <= p2 <= old(self).max_pri() && p2 != handle.priority
                    ==> #[trigger] final(self).bucket(p2) == old(self).bucket(p2)
                &&& final(self).hw_pending_view() =~= old(self).hw_pending_view()
            }),
    {
        let top = self.top_priority();
        match top {
            None => DispatchDecision::Idle,
            Some(p) => {
                match self.lowest_pending_hw_at(p) {
                    Some(t) => {
                        self.hw_pending[t] = false;
                        DispatchDecision::Hardware { task: t }
                    }
                    None => {
                        proof {
                            self.registry.lemma_wf_tasks();
                            assert(self.sw_ready_at(p));
                        }
                        let idx = (p - 1) as usize;
                        match self.queues[idx].dequeue() {
                            Some(req) => DispatchDecision::Software {
                                task: req.task,
                                payload: req.payload,
                                handle: SpawnHandle { priority: p, seq: req.seq },
                            },
                            None => DispatchDecision::Idle,
                        }
                    }
                }
            }
        }
    }

    /// Whether the idle task should run now: no priority level is
    /// dispatchable.
    pub fn should_run_idle(&self) -> (r: bool)
        requires
            self.wf(),
        ensures
            r <==> (forall|p: u8| !self.dispatchable(p)),
    {
        let top = self.top_priority();
        match top {
            None => true,
            Some(_) => false,
        }
    }

    /// Suspend software task `task` until the monotonic clock reaches or
    /// passes `deadline`: record the delay; the dispatcher resumes the
    /// task, with `payload`, through `timer_service_step` once the
    /// deadline is due. The caller yields; nothing busy-waits.
    pub fn delay_until(&mut self, task: usize, deadline: u32, payload: u64)
        requires
            old(self).wf(),
            task < old(self).tasks().len(),
            old(self).tasks()[task as int].binding is Software,
        ensures
            final(self).wf(),
            final(self).delays() =~= old(self).delays().push(
                (TimerEntry { task, deadline, payload })),
            final(self).reg() == old(self).reg(),
            final(self).ceiling_reg() == old(self).ceiling_reg(),
            final(self).queues_unchanged(*old(self)),
            final(self).hw_pending_view() =~= old(self).hw_pending_view(),
    {
        self.timer.register(task, deadline, payload);
    }

    /// The deadline to arm the hardware timer with: the pending deadline
    /// nearest to `now` in wraparound-safe order, or nothing when no delay
    /// is pending.
    pub fn timer_next_deadline(&self, now: u32) -> (r: Option<u32>)
        ensures
            r is None <==> self.delays().len() == 0,
            r matches Some(d) ==> {
                &&& exists|i: int| 0 <= i < self.delays().len()
                    && (#[trigger] self.delays()[i]).deadline == d
                &&& forall|j: int| 0 <= j < self.delays().len()
                    ==> signed_dist(now, d) <= signed_dist(now, (#[trigger] self.delays()[j]).deadline)
            },
    {
        match self.timer.next_deadline(now) {
            None => None,
            Some(d) => {
                proof {
                    let i = choose|i: int| 0 <= i < self.timer.pending().len()
                        && (#[trigger] self.timer.pending()[i]).deadline == d;
                    assert((self.delays()[i]).deadline == d);
                    assert forall|j: int| 0 <= j < self.delays().len() implies
                        signed_dist(now, d) <= signed_dist(now, (#[trigger] self.delays()[j]).deadline) by {
                        assert(self.timer.pending()[j] == self.delays()[j]);
                    }
                }
                Some(d)
            }
        }
    }

    /// One step of the timer service at clock reading `now`: release the
    /// nearest due delay, if any, by spawning its task with the recorded
    /// payload. A task is never resumed before its deadline is reached;
    /// a refused resume (full bucket, or a singleton already pending)
    /// consumes the delay and surfaces the error to the caller.
    pub fn timer_service_step(&mut self, now: u32) -> (r: TimerOutcome)
        requires
            old(self).wf(),
            forall|p: u8| 1 <= p <= old(self).max_pri()
                ==> (#[trigger] old(self).bucket(p)).next_handle() < u64::MAX,
        ensures
            final(self).wf(),
            final(self).reg() == old(self).reg(),
            final(self).ceiling_reg() == old(self).ceiling_reg(),
            final(self).max_pri() == old(self).max_pri(),
            r is NoneDue <==> (forall|i: int| 0 <= i < old(self).delays().len()
                ==> !reached(now, (#[trigger] old(self).delays()[i]).deadline)),
            r is NoneDue ==> final(self).delays() =~= old(self).delays()
                && final(self).queues_unchanged(*old(self))
                && final(self).hw_pending_view() =~= old(self).hw_pending_view(),
            !(r is NoneDue) ==> {
                &&& final(self).hw_pending_view() =~= old(self).hw_pending_view()
                &&& exists|i: int| {
                    &&& 0 <= i < old(self).delays().len()
                    &&& reached(now, (#[trigger] old(self).delays()[i]).deadline)
                    &&& forall|j: int| 0 <= j < old(self).delays().len()
                        ==> signed_dist(now, old(self).delays()[i].deadline)
                            <= signed_dist(now, (#[trigger] old(self).delays()[j]).deadline)
                    &&& final(self).delays() =~= old(self).delays().remove(i)
                    &&& (match r {
                        TimerOutcome::NoneDue => false,
                        TimerOutcome::Resumed { task, handle } => {
                            let p = old(self).tasks()[task as int].priority;
                            let q = old(self).bucket(p);
                            &&& task == old(self).delays()[i].task
                            &&& handle == (SpawnHandle { priority: p, seq: q.next_handle() as u64 })
                            &&& !(old(self).tasks()[task as int].singleton && q.has_task(task))
                            &&& q.pending().len() < q.cap()
                            &&& final(self).bucket(p).pending() =~= q.pending().push(
                                (SpawnRequest { task, payload: old(self).delays()[i].payload, seq: q.next_handle() as u64 }))
                            &&& final(self).bucket(p).next_handle() == q.next_handle() + 1
                            &&& final(self).bucket(p).cap() == q.cap()
                            &&& forall|p2: u8| 1 <= p2 <= old(self).max_pri() && p2 != p
                                ==> #[trigger] final(self).bucket(p2) == old(self).bucket(p2)
                        },
                        TimerOutcome::ResumeRefused { task, error } => {
                            let p = old(self).tasks()[task as int].priority;
                            let q = old(self).bucket(p);
                            &&& task == old(self).delays()[i].task
                            &&& final(self).queues_unchanged(*old(self))
                            &&& (error == SpawnError::AlreadyPending
                                <==> old(self).tasks()[task as int].singleton && q.has_task(task))
                            &&& (error == SpawnError::QueueFull
                                ==> q.pending().len() >= q.cap())
                        },
                    })
                }
            },
    {
        let due = self.timer.pop_due(now);
        match due {
            None => TimerOutcome::NoneDue,
            Some(e) => {
                proof {
                    let i = choose|i: int| {
                        &&& 0 <= i < old(self).delays().len()
                        &&& (#[trigger] old(self).delays()[i]) == e
                        &&& self.delays() =~= old(self).delays().remove(i)
                        &&& forall|j: int| 0 <= j < i
                            ==> signed_dist(now, (#[trigger] old(self).delays()[j]).deadline)
                                > signed_dist(now, e.deadline)
                    };
                    assert(0 <= e.task < self.tasks().len()
                        && self.tasks()[e.task as int].binding is Software);
                    assert forall|j: int| 0 <= j < self.delays().len() implies
                        0 <= (#[trigger] self.delays()[j]).task < self.tasks().len()
                            && self.tasks()[self.delays()[j].task as int].binding is Software by {
                        if j < i {
                            assert(self.delays()[j] == old(self).delays()[j]);
                        } else {
                            assert(self.delays()[j] == old(self).delays()[j + 1]);
                        }
                    }
                    self.registry.lemma_wf_tasks();
                    assert(task_wf(self.tasks()[e.task as int], self.reg().shared_count(),
                        self.reg().local_count(), self.max_pri()));
                    let p = self.tasks()[e.task as int].priority;
                    assert(old(self).bucket(p).next_handle() < u64::MAX);
                    assert(self.bucket(p) == old(self).bucket(p));
                }
                match self.spawn(e.task, e.payload) {
                    Ok(h) => TimerOutcome::Resumed { task: e.task, handle: h },
                    Err(err) => TimerOutcome::ResumeRefused { task: e.task, error: err },
                }
            }
        }
    }

    /// Whether the hardware task `task` is pending.
    pub fn hardware_pending(&self, task: usize) -> (r: bool)
        requires
            self.wf(),
            task < self.tasks().len(),
        ensures
            r == self.hw_pending_view()[task as int],
    {
        self.hw_pending[task]
    }
}

} // verus!
