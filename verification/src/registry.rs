//! The task registry: a closed, declarative description of every task, its
//! priority, its interrupt binding and its resource-access sets, validated
//! once before any task runs. From the declarations the registry computes
//! the ceiling of every shared resource: the highest priority among all
//! tasks that ever access it. A configuration error is fatal: the system
//! refuses to start rather than run with undefined sharing.

use vstd::prelude::*;

verus! {

/// How a task is invoked: bound to a real hardware interrupt vector and run
/// to completion, or a software task invoked via spawn through a reserved
/// dispatcher vector.
#[derive(Clone, Copy, Debug)]
pub enum TaskBinding {
    Hardware { vector: u16 },
    Software,
}

/// The static description of one task, immutable after initialization.
pub struct TaskDecl {
    /// Static priority; positive, higher = more urgent.
    pub priority: u8,
    /// Hardware vector binding, or software.
    pub binding: TaskBinding,
    /// Indices of the shared resources the task accesses.
    pub shared: Vec<usize>,
    /// Indices of the local resources the task exclusively owns.
    pub local: Vec<usize>,
    /// Re-spawn policy: a singleton task rejects a spawn while one of its
    /// requests is still pending; otherwise a second independent invocation
    /// is queued.
    pub singleton: bool,
}

/// A fatal configuration error, detected at initialization, before any task
/// runs.
#[derive(Clone, Copy, Debug, PartialEq, Eq, Structural)]
pub enum ConfigError {
    /// A task's priority is zero or above the platform's supported maximum.
    PriorityOutOfRange { task: usize },
    /// A task references a shared resource that was never declared.
    UnknownSharedResource { task: usize, resource: usize },
    /// A task references a local resource that was never declared.
    UnknownLocalResource { task: usize, resource: usize },
    /// A local resource is claimed by two owners.
    LocalResourceConflict { resource: usize },
    /// Fewer dispatcher vectors were reserved than there are distinct
    /// software-task priority levels in use.
    InsufficientDispatchers { needed: usize, reserved: usize },
}

/// One task declaration is well formed: its priority lies in the supported
/// range and every resource it references was declared.
pub open spec fn task_wf(t: TaskDecl, n_shared: int, n_local: int, max_priority: u8) -> bool {
    &&& 1 <= t.priority <= max_priority
    &&& forall|c: int| 0 <= c < t.shared@.len() ==> t.shared@[c] < n_shared
    &&& forall|c: int| 0 <= c < t.local@.len() ==> t.local@[c] < n_local
}

/// No local resource has two owners: all occurrences of local-resource
/// indices, across all tasks and list positions, are pairwise distinct.
pub open spec fn locals_exclusive(tasks: Seq<TaskDecl>) -> bool {
    forall|k: int, c: int, k2: int, c2: int|
        0 <= k < tasks.len() && 0 <= c < tasks[k].local@.len()
        && 0 <= k2 < tasks.len() && 0 <= c2 < tasks[k2].local@.len()
        && (k != k2 || c != c2)
        ==> tasks[k].local@[c] != tasks[k2].local@[c2]
}

/// Some software task is declared at priority `p`.
pub open spec fn has_software_at(tasks: Seq<TaskDecl>, p: u8) -> bool {
    exists|i: int| 0 <= i < tasks.len() && tasks[i].binding is Software && tasks[i].priority == p
}

/// How many distinct priority levels in `1..=p` have at least one software
/// task: each such level needs one reserved dispatcher vector.
pub open spec fn software_level_count(tasks: Seq<TaskDecl>, p: int) -> int
    decreases p,
{
    if p <= 0 {
        0
    } else {
        software_level_count(tasks, p - 1) + (if has_software_at(tasks, p as u8) { 1int } else { 0int })
    }
}

/// The ceiling of shared resource `r`: the highest priority among all tasks
/// that access it, or 0 if no task does.
pub open spec fn ceiling_of(tasks: Seq<TaskDecl>, r: usize) -> u8
    decreases tasks.len(),
{
    if tasks.len() == 0 {
        0
    } else {
        let rest = ceiling_of(tasks.drop_last(), r);
        if tasks.last().shared@.contains(r) && tasks.last().priority > rest {
            tasks.last().priority
        } else {
            rest
        }
    }
}

/// The whole configuration is acceptable: every task well formed, local
/// resources exclusively owned, and enough dispatcher vectors reserved for
/// the software priority levels in use.
pub open spec fn config_wf(tasks: Seq<TaskDecl>, n_shared: int, n_local: int, max_priority: u8, reserved: int) -> bool {
    &&& forall|i: int| 0 <= i < tasks.len() ==> task_wf(#[trigger] tasks[i], n_shared, n_local, max_priority)
    &&& locals_exclusive(tasks)
    &&& software_level_count(tasks, max_priority as int) <= reserved
}

/// Every task that accesses a shared resource has priority at most the
/// resource's ceiling: raising the active priority to the ceiling therefore
/// excludes every possible conflicting access.
pub proof fn lemma_ceiling_dominates(tasks: Seq<TaskDecl>, t: int, r: usize)
    requires
        0 <= t < tasks.len(),
        tasks[t].shared@.contains(r),
    ensures
        tasks[t].priority <= ceiling_of(tasks, r),
    decreases tasks.len(),
{
    if t < tasks.len() - 1 {
        lemma_ceiling_dominates(tasks.drop_last(), t, r);
    }
}

/// Some occurrence of local-resource index `x` stands strictly before
/// position `(i, a)` in the declaration order: in an earlier task, or
/// earlier in task `i`'s own list.
pub open spec fn local_occurs_before(tasks: Seq<TaskDecl>, x: usize, i: int, a: int) -> bool {
    exists|k: int, c: int|
        0 <= k < tasks.len() && 0 <= c < tasks[k].local@.len()
        && (k < i || (k == i && c < a))
        && tasks[k].local@[c] == x
}

/// All occurrences of local-resource indices strictly before position
/// `(i, a)` are pairwise distinct.
pub open spec fn locals_exclusive_upto(tasks: Seq<TaskDecl>, i: int, a: int) -> bool {
    forall|k: int, c: int, k2: int, c2: int|
        0 <= k < tasks.len() && 0 <= c < tasks[k].local@.len() && (k < i || (k == i && c < a))
        && 0 <= k2 < tasks.len() && 0 <= c2 < tasks[k2].local@.len() && (k2 < i || (k2 == i && c2 < a))
        && (k != k2 || c != c2)
        ==> tasks[k].local@[c] != tasks[k2].local@[c2]
}

/// Whether `v` holds `x`.
fn list_contains(v: &Vec<usize>, x: usize) -> (r: bool)
    ensures
        r == v@.contains(x),
{
    let mut i: usize = 0;
    while i < v.len()
        invariant
            i <= v@.len(),
            forall|k: int| 0 <= k < i ==> v@[k] != x,
        decreases v@.len() - i,
    {
        if v[i] == x {
            assert(v@[i as int] == x);
            return true;
        }
        i += 1;
    }
    false
}

/// Whether some software task is declared at priority `p`.
fn has_software_level(tasks: &Vec<TaskDecl>, p: u8) -> (r: bool)
    ensures
        r == has_software_at(tasks@, p),
{
    let mut i: usize = 0;
    while i < tasks.len()
        invariant
            i <= tasks@.len(),
            forall|k: int| 0 <= k < i
                ==> !(#[trigger] tasks@[k].binding is Software && tasks@[k].priority == p),
        decreases tasks@.len() - i,
    {
        let sw = match tasks[i].binding {
            TaskBinding::Software => true,
            TaskBinding::Hardware { .. } => false,
        };
        if sw && tasks[i].priority == p {
            assert(tasks@[i as int].binding is Software && tasks@[i as int].priority == p);
            return true;
        }
        i += 1;
    }
    false
}

/// The validated registry: the task table, the declared resource counts,
/// and the computed ceiling of every shared resource. Immutable after
/// construction.
pub struct Registry {
    tasks: Vec<TaskDecl>,
    n_shared: usize,
    n_local: usize,
    max_priority: u8,
    ceilings: Vec<u8>,
}

impl Registry {
    /// The task table, as declared.
    pub closed spec fn tasks_view(self) -> Seq<TaskDecl> {
        self.tasks@
    }

    /// How many shared resources were declared.
    pub closed spec fn shared_count(self) -> int {
        self.n_shared as int
    }

    /// How many local resources were declared.
    pub closed spec fn local_count(self) -> int {
        self.n_local as int
    }

    /// The platform's highest supported priority.
    pub closed spec fn max_priority_spec(self) -> u8 {
        self.max_priority
    }

    /// A registry only ever exists in a validated state, with one correct
    /// ceiling per declared shared resource.
    pub closed spec fn wf(self) -> bool {
        &&& forall|i: int| 0 <= i < self.tasks@.len()
            ==> task_wf(#[trigger] self.tasks@[i], self.n_shared as int, self.n_local as int, self.max_priority)
        &&& locals_exclusive(self.tasks@)
        &&& self.ceilings@.len() == self.n_shared
        &&& forall|r: int| 0 <= r < self.n_shared ==> self.ceilings@[r] == ceiling_of(self.tasks@, r as usize)
    }

    /// Validate a closed configuration and compute every shared resource's
    /// ceiling. Succeeds exactly when the configuration is well formed;
    /// each error names a genuine violation, found in declaration order:
    /// per-task checks (priority range, then shared references, then local
    /// references) task by task, then local-ownership conflicts, then the
    /// dispatcher-vector count.
    pub fn build(
        tasks: Vec<TaskDecl>,
        n_shared: usize,
        n_local: usize,
        max_priority: u8,
        reserved_dispatchers: usize,
    ) -> (r: Result<Registry, ConfigError>)
        ensures
            r is Ok <==> config_wf(tasks@, n_shared as int, n_local as int, max_priority, reserved_dispatchers as int),
            (r matches Ok(reg) ==> {
                &&& reg.wf()
                &&& reg.tasks_view() =~= tasks@
                &&& reg.shared_count() == n_shared
                &&& reg.local_count() == n_local
                &&& reg.max_priority_spec() == max_priority
            }),
            (r matches Err(ConfigError::PriorityOutOfRange { task }) ==> {
                &&& task < tasks@.len()
                &&& !(1 <= tasks@[task as int].priority <= max_priority)
                &&& forall|k: int| 0 <= k < task
                    ==> task_wf(#[trigger] tasks@[k], n_shared as int, n_local as int, max_priority)
            }),
            (r matches Err(ConfigError::UnknownSharedResource { task, resource }) ==> {
                &&& task < tasks@.len()
                &&& tasks@[task as int].shared@.contains(resource)
                &&& resource >= n_shared
                &&& 1 <= tasks@[task as int].priority <= max_priority
                &&& forall|k: int| 0 <= k < task
                    ==> task_wf(#[trigger] tasks@[k], n_shared as int, n_local as int, max_priority)
            }),
            (r matches Err(ConfigError::UnknownLocalResource { task, resource }) ==> {
                &&& task < tasks@.len()
                &&& tasks@[task as int].local@.contains(resource)
                &&& resource >= n_local
                &&& 1 <= tasks@[task as int].priority <= max_priority
                &&& forall|k: int| 0 <= k < task
                    ==> task_wf(#[trigger] tasks@[k], n_shared as int, n_local as int, max_priority)
            }),
            (r matches Err(ConfigError::LocalResourceConflict { resource }) ==> {
                &&& !locals_exclusive(tasks@)
                &&& exists|k: int, c: int, k2: int, c2: int| {
                    &&& 0 <= k < tasks@.len() && 0 <= c < tasks@[k].local@.len()
                    &&& 0 <= k2 < tasks@.len() && 0 <= c2 < tasks@[k2].local@.len()
                    &&& (k != k2 || c != c2)
                    &&& (#[trigger] tasks@[k].local@[c]) == resource
                    &&& (#[trigger] tasks@[k2].local@[c2]) == resource
                }
                &&& forall|k: int| 0 <= k < tasks@.len()
                    ==> task_wf(#[trigger] tasks@[k], n_shared as int, n_local as int, max_priority)
            }),
            (r matches Err(ConfigError::InsufficientDispatchers { needed, reserved }) ==> {
                &&& needed == software_level_count(tasks@, max_priority as int)
                &&& needed > reserved
                &&& reserved == reserved_dispatchers
                &&& forall|k: int| 0 <= k < tasks@.len()
                    ==> task_wf(#[trigger] tasks@[k], n_shared as int, n_local as int, max_priority)
                &&& locals_exclusive(tasks@)
            }),
    {
        let n = tasks.len();

        // Per-task checks: priority range and declared resource references.
        let mut i: usize = 0;
        while i < n
            invariant
                n == tasks@.len(),
                i <= n,
                forall|k: int| 0 <= k < i
                    ==> task_wf(#[trigger] tasks@[k], n_shared as int, n_local as int, max_priority),
            decreases n - i,
        {
            if tasks[i].priority < 1 || tasks[i].priority > max_priority {
                return Err(ConfigError::PriorityOutOfRange { task: i });
            }
            let mut a: usize = 0;
            while a < tasks[i].shared.len()
                invariant
                    n == tasks@.len(),
                    i < n,
                    1 <= tasks@[i as int].priority <= max_priority,
                    forall|k: int| 0 <= k < i
                        ==> task_wf(#[trigger] tasks@[k], n_shared as int, n_local as int, max_priority),
                    a <= tasks@[i as int].shared@.len(),
                    forall|c: int| 0 <= c < a ==> tasks@[i as int].shared@[c] < n_shared,
                decreases tasks@[i as int].shared@.len() - a,
            {
                if tasks[i].shared[a] >= n_shared {
                    assert(tasks@[i as int].shared@.contains(tasks@[i as int].shared@[a as int]));
                    return Err(ConfigError::UnknownSharedResource { task: i, resource: tasks[i].shared[a] });
                }
                a += 1;
            }
            let mut b: usize = 0;
            while b < tasks[i].local.len()
                invariant
                    n == tasks@.len(),
                    i < n,
                    1 <= tasks@[i as int].priority <= max_priority,
                    forall|k: int| 0 <= k < i
                        ==> task_wf(#[trigger] tasks@[k], n_shared as int, n_local as int, max_priority),
                    b <= tasks@[i as int].local@.len(),
                    forall|c: int| 0 <= c < b ==> tasks@[i as int].local@[c] < n_local,
                decreases tasks@[i as int].local@.len() - b,
            {
                if tasks[i].local[b] >= n_local {
                    assert(tasks@[i as int].local@.contains(tasks@[i as int].local@[b as int]));
                    return Err(ConfigError::UnknownLocalResource { task: i, resource: tasks[i].local[b] });
                }
                b += 1;
            }
            i += 1;
        }

        // Local-ownership conflicts: each declared local resource may be
        // claimed at most once over all tasks.
        let mut seen: Vec<bool> = Vec::new();
        let mut s: usize = 0;
        while s < n_local
            invariant
                seen@.len() == s,
                s <= n_local,
                forall|x: int| 0 <= x < s ==> seen@[x] == false,
            decreases n_local - s,
        {
            seen.push(false);
            s += 1;
        }
        let mut i2: usize = 0;
        while i2 < n
            invariant
                n == tasks@.len(),
                i2 <= n,
                seen@.len() == n_local,
                forall|k: int| 0 <= k < n
                    ==> task_wf(#[trigger] tasks@[k], n_shared as int, n_local as int, max_priority),
                forall|x: int| 0 <= x < n_local
                    ==> seen@[x] == local_occurs_before(tasks@, x as usize, i2 as int, 0),
                locals_exclusive_upto(tasks@, i2 as int, 0),
            decreases n - i2,
        {
            let mut a: usize = 0;
            while a < tasks[i2].local.len()
                invariant
                    n == tasks@.len(),
                    i2 < n,
                    seen@.len() == n_local,
                    forall|k: int| 0 <= k < n
                        ==> task_wf(#[trigger] tasks@[k], n_shared as int, n_local as int, max_priority),
                    a <= tasks@[i2 as int].local@.len(),
                    forall|x: int| 0 <= x < n_local
                        ==> seen@[x] == local_occurs_before(tasks@, x as usize, i2 as int, a as int),
                    locals_exclusive_upto(tasks@, i2 as int, a as int),
                decreases tasks@[i2 as int].local@.len() - a,
            {
                let x = tasks[i2].local[a];
                assert(x < n_local) by {
                    assert(task_wf(tasks@[i2 as int], n_shared as int, n_local as int, max_priority));
                }
                if seen[x] {
                    proof {
                        let (k, c) = choose|k: int, c: int|
                            0 <= k < tasks@.len() && 0 <= c < tasks@[k].local@.len()
                            && (k < i2 || (k == i2 && c < a)) && tasks@[k].local@[c] == x;
                        assert(!locals_exclusive(tasks@)) by {
                            assert(tasks@[k].local@[c] == tasks@[i2 as int].local@[a as int]);
                        }
                    }
                    return Err(ConfigError::LocalResourceConflict { resource: x });
                }
                seen[x] = true;
                let ghost a_old = a as int;
                a += 1;
                proof {
                    assert forall|y: int| 0 <= y < n_local implies
                        seen@[y] == local_occurs_before(tasks@, y as usize, i2 as int, a as int) by {
                        if y == x {
                            assert(tasks@[i2 as int].local@[a_old] == x);
                            assert(local_occurs_before(tasks@, y as usize, i2 as int, a as int));
                        } else {
                            if local_occurs_before(tasks@, y as usize, i2 as int, a as int) {
                                let (k, c) = choose|k: int, c: int|
                                    0 <= k < tasks@.len() && 0 <= c < tasks@[k].local@.len()
                                    && (k < i2 || (k == i2 && c < a)) && tasks@[k].local@[c] == y as usize;
                                assert(k < i2 || (k == i2 && c < a_old));
                                assert(local_occurs_before(tasks@, y as usize, i2 as int, a_old));
                            }
                            if local_occurs_before(tasks@, y as usize, i2 as int, a_old) {
                                let (k, c) = choose|k: int, c: int|
                                    0 <= k < tasks@.len() && 0 <= c < tasks@[k].local@.len()
                                    && (k < i2 || (k == i2 && c < a_old)) && tasks@[k].local@[c] == y as usize;
                                assert(local_occurs_before(tasks@, y as usize, i2 as int, a as int));
                            }
                        }
                    }
                    assert forall|k: int, c: int, k2: int, c2: int|
                        0 <= k < tasks@.len() && 0 <= c < tasks@[k].local@.len()
                        && (k < i2 || (k == i2 && c < a))
                        && 0 <= k2 < tasks@.len() && 0 <= c2 < tasks@[k2].local@.len()
                        && (k2 < i2 || (k2 == i2 && c2 < a))
                        && (k != k2 || c != c2)
                        implies tasks@[k].local@[c] != tasks@[k2].local@[c2] by {
                        let fresh1 = k == i2 && c == a_old;
                        let fresh2 = k2 == i2 && c2 == a_old;
                        if fresh1 && !fresh2 {
                            if tasks@[k2].local@[c2] == x {
                                assert(local_occurs_before(tasks@, x, i2 as int, a_old));
                            }
                        } else if fresh2 && !fresh1 {
                            if tasks@[k].local@[c] == x {
                                assert(local_occurs_before(tasks@, x, i2 as int, a_old));
                            }
                        }
                    }
                    assert(locals_exclusive_upto(tasks@, i2 as int, a as int));
                }
            }
            let ghost i2_old = i2 as int;
            i2 += 1;
            proof {
                let ghost len_i = tasks@[i2_old].local@.len() as int;
                assert forall|y: int| 0 <= y < n_local implies
                    seen@[y] == local_occurs_before(tasks@, y as usize, i2 as int, 0) by {
                    if local_occurs_before(tasks@, y as usize, i2 as int, 0) {
                        let (k, c) = choose|k: int, c: int|
                            0 <= k < tasks@.len() && 0 <= c < tasks@[k].local@.len()
                            && (k < i2 || (k == i2 && c < 0)) && tasks@[k].local@[c] == y as usize;
                        assert(k < i2_old || (k == i2_old && c < len_i));
                        assert(local_occurs_before(tasks@, y as usize, i2_old, len_i));
                    }
                    if local_occurs_before(tasks@, y as usize, i2_old, len_i) {
                        let (k, c) = choose|k: int, c: int|
                            0 <= k < tasks@.len() && 0 <= c < tasks@[k].local@.len()
                            && (k < i2_old || (k == i2_old && c < len_i)) && tasks@[k].local@[c] == y as usize;
                        assert(k < i2 as int);
                        assert(local_occurs_before(tasks@, y as usize, i2 as int, 0));
                    }
                }
                assert forall|k: int, c: int, k2: int, c2: int|
                    0 <= k < tasks@.len() && 0 <= c < tasks@[k].local@.len()
                    && (k < i2 || (k == i2 && c < 0))
                    && 0 <= k2 < tasks@.len() && 0 <= c2 < tasks@[k2].local@.len()
                    && (k2 < i2 || (k2 == i2 && c2 < 0))
                    && (k != k2 || c != c2)
                    implies tasks@[k].local@[c] != tasks@[k2].local@[c2] by {
                    assert(k < i2_old || (k == i2_old && c < len_i));
                    assert(k2 < i2_old || (k2 == i2_old && c2 < len_i));
                    assert(locals_exclusive_upto(tasks@, i2_old, len_i));
                }
                assert(locals_exclusive_upto(tasks@, i2 as int, 0));
            }
        }
        proof {
            assert forall|k: int, c: int, k2: int, c2: int|
                0 <= k < tasks@.len() && 0 <= c < tasks@[k].local@.len()
                && 0 <= k2 < tasks@.len() && 0 <= c2 < tasks@[k2].local@.len()
                && (k != k2 || c != c2)
                implies tasks@[k].local@[c] != tasks@[k2].local@[c2] by {
                assert(locals_exclusive_upto(tasks@, n as int, 0));
            }
            assert(locals_exclusive(tasks@));
        }

        // Dispatcher reservations: one per distinct software priority level
        // in use.
        let mut needed: usize = 0;
        let mut p: usize = 1;
        while p <= max_priority as usize
            invariant
                1 <= p <= max_priority as usize + 1,
                needed == software_level_count(tasks@, p as int - 1),
                needed <= p - 1,
            decreases max_priority as usize + 1 - p,
        {
            if has_software_level(&tasks, p as u8) {
                needed += 1;
            }
            p += 1;
        }
        if needed > reserved_dispatchers {
            return Err(ConfigError::InsufficientDispatchers { needed, reserved: reserved_dispatchers });
        }

        // Ceilings: for each shared resource, the highest priority among
        // the tasks that access it.
        let mut ceilings: Vec<u8> = Vec::new();
        let mut ri: usize = 0;
        while ri < n_shared
            invariant
                n == tasks@.len(),
                ceilings@.len() == ri,
                ri <= n_shared,
                forall|q: int| 0 <= q < ri ==> ceilings@[q] == ceiling_of(tasks@, q as usize),
            decreases n_shared - ri,
        {
            let mut c: u8 = 0;
            let mut k: usize = 0;
            while k < n
                invariant
                    n == tasks@.len(),
                    k <= n,
                    c == ceiling_of(tasks@.take(k as int), ri),
                decreases n - k,
            {
                if list_contains(&tasks[k].shared, ri) {
                    if tasks[k].priority > c {
                        c = tasks[k].priority;
                    }
                }
                k += 1;
                proof {
                    assert(tasks@.take(k as int).drop_last() =~= tasks@.take(k as int - 1));
                    assert(tasks@.take(k as int).last() == tasks@[k - 1]);
                }
            }
            proof {
                assert(tasks@.take(n as int) =~= tasks@);
            }
            ceilings.push(c);
            ri += 1;
        }

        Ok(Registry { tasks, n_shared, n_local, max_priority, ceilings })
    }

    /// A validated registry only holds tasks whose priority lies in
    /// `1..=max_priority` and whose resource references were declared.
    pub proof fn lemma_wf_tasks(self)
        requires
            self.wf(),
        ensures
            forall|i: int| 0 <= i < self.tasks_view().len()
                ==> task_wf(#[trigger] self.tasks_view()[i], self.shared_count(), self.local_count(), self.max_priority_spec()),
            locals_exclusive(self.tasks_view()),
    {
    }

    /// How many tasks are declared.
    pub fn task_count(&self) -> (n: usize)
        ensures
            n == self.tasks_view().len(),
    {
        self.tasks.len()
    }

    /// The static priority of task `t`.
    pub fn priority_of(&self, t: usize) -> (p: u8)
        requires
            t < self.tasks_view().len(),
        ensures
            p == self.tasks_view()[t as int].priority,
    {
        self.tasks[t].priority
    }

    /// Whether task `t` is a software task (spawned) rather than a hardware
    /// task (bound to a real vector).
    pub fn is_software(&self, t: usize) -> (r: bool)
        requires
            t < self.tasks_view().len(),
        ensures
            r == (self.tasks_view()[t as int].binding is Software),
    {
        match self.tasks[t].binding {
            TaskBinding::Software => true,
            TaskBinding::Hardware { .. } => false,
        }
    }

    /// Whether task `t` rejects a spawn while one of its requests is still
    /// pending.
    pub fn is_singleton(&self, t: usize) -> (r: bool)
        requires
            t < self.tasks_view().len(),
        ensures
            r == self.tasks_view()[t as int].singleton,
    {
        self.tasks[t].singleton
    }

    /// The computed ceiling of shared resource `r`.
    pub fn ceiling(&self, r: usize) -> (c: u8)
        requires
            self.wf(),
            r < self.shared_count(),
        ensures
            c == ceiling_of(self.tasks_view(), r),
    {
        self.ceilings[r]
    }

    /// The platform's highest supported priority.
    pub fn max_priority(&self) -> (p: u8)
        ensures
            p == self.max_priority_spec(),
    {
        self.max_priority
    }
}

} // verus!
