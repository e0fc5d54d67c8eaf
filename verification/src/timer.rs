//! The monotonic timer service: suspend-until-instant without busy
//! waiting. Pending delays are kept with their deadlines; the nearest
//! deadline is what arms the underlying hardware timer, and a delay is
//! released only once the clock has reached or passed its instant.
//!
//! Clock instants are a free-running counter that wraps. Comparisons are
//! therefore modular: a deadline is ordered by its signed distance from
//! the current reading, valid across the full counter range, never by a
//! naive subtraction assumed non-negative.

use vstd::prelude::*;

verus! {

/// Ticks from `from` forward to `to`, modulo the counter range.
pub open spec fn wrap_dist(from: u32, to: u32) -> int {
    if to >= from {
        to - from
    } else {
        to - from + 0x1_0000_0000
    }
}

/// The signed distance from the reading `now` to the instant `d`:
/// non-positive when `d` lies at `now` or up to half the counter range
/// behind it (already passed), positive when `d` lies ahead.
pub open spec fn signed_dist(now: u32, d: u32) -> int {
    if wrap_dist(now, d) <= 0x8000_0000 {
        wrap_dist(now, d)
    } else {
        wrap_dist(now, d) - 0x1_0000_0000
    }
}

/// The clock reading `now` has reached or passed the instant `d`.
pub open spec fn reached(now: u32, d: u32) -> bool {
    signed_dist(now, d) <= 0
}

/// An instant is reached by its own reading: a delay until the present
/// resumes at once.
pub proof fn lemma_reached_now(t: u32)
    ensures
        reached(t, t),
{
}

/// For a deadline up to half the counter range ahead of `now`, the signed
/// distance is exactly the number of ticks still to run, so it is reached
/// only once that many ticks have elapsed.
pub proof fn lemma_signed_dist_future(now: u32, d: u32)
    requires
        wrap_dist(now, d) <= 0x8000_0000,
    ensures
        signed_dist(now, d) == wrap_dist(now, d),
        reached(now, d) <==> now == d,
{
}

/// For a deadline less than half the counter range behind `now`, the
/// signed distance is minus the number of ticks elapsed since it passed:
/// such a deadline is reached, and an older deadline orders before a
/// newer one, wraparound or not.
pub proof fn lemma_signed_dist_past(now: u32, d: u32)
    requires
        wrap_dist(d, now) < 0x8000_0000,
    ensures
        signed_dist(now, d) == -wrap_dist(d, now),
        reached(now, d),
{
}

/// Whether the clock reading `now` has reached or passed the instant `d`,
/// computed with wrapping arithmetic.
pub fn instant_reached(now: u32, d: u32) -> (r: bool)
    ensures
        r == reached(now, d),
{
    let fwd = d.wrapping_sub(now);
    fwd == 0 || fwd > 0x8000_0000
}

/// Whether instant `d1` orders strictly before `d2`, relative to the
/// clock reading `now`; total, and valid across counter wraparound.
pub fn instant_earlier(now: u32, d1: u32, d2: u32) -> (r: bool)
    ensures
        r == (signed_dist(now, d1) < signed_dist(now, d2)),
{
    let f1 = d1.wrapping_sub(now);
    let f2 = d2.wrapping_sub(now);
    let ahead1 = f1 <= 0x8000_0000;
    let ahead2 = f2 <= 0x8000_0000;
    if ahead1 == ahead2 {
        f1 < f2
    } else {
        !ahead1
    }
}

/// One pending delay: the suspended task, the instant at which it is to
/// resume, and the payload its resumed invocation will carry.
#[derive(Clone, Copy, Debug, PartialEq, Eq, Structural)]
pub struct TimerEntry {
    pub task: usize,
    pub deadline: u32,
    pub payload: u64,
}

/// The pending delays, ordered at each use by signed distance from the
/// current clock reading (a fixed total order would not survive
/// wraparound).
pub struct TimerService {
    pending: Vec<TimerEntry>,
}

impl TimerService {
    /// The pending delays, in registration order.
    pub closed spec fn pending(self) -> Seq<TimerEntry> {
        self.pending@
    }

    /// A service with no pending delay.
    pub fn new() -> (t: TimerService)
        ensures
            t.pending() =~= Seq::<TimerEntry>::empty(),
    {
        TimerService { pending: Vec::new() }
    }

    /// How many delays are pending.
    pub fn len(&self) -> (n: usize)
        ensures
            n == self.pending().len(),
    {
        self.pending.len()
    }

    /// Suspend `task` until `deadline`: record the delay; the task will be
    /// handed back by `pop_due` only once the clock has reached or passed
    /// `deadline`.
    pub fn register(&mut self, task: usize, deadline: u32, payload: u64)
        ensures
            final(self).pending() =~= old(self).pending().push(
                TimerEntry { task, deadline, payload }),
    {
        self.pending.push(TimerEntry { task, deadline, payload });
    }

    /// The index of the first pending delay with minimal signed distance
    /// from `now`: the nearest deadline.
    fn min_index(&self, now: u32) -> (r: Option<usize>)
        ensures
            r is None <==> self.pending().len() == 0,
            r matches Some(i) ==> {
                &&& i < self.pending().len()
                &&& forall|j: int| 0 <= j < self.pending().len()
                    ==> signed_dist(now, self.pending()[i as int].deadline)
                        <= signed_dist(now, (#[trigger] self.pending()[j]).deadline)
                &&& forall|j: int| 0 <= j < i
                    ==> signed_dist(now, (#[trigger] self.pending()[j]).deadline)
                        > signed_dist(now, self.pending()[i as int].deadline)
            },
    {
        if self.pending.len() == 0 {
            return None;
        }
        let mut best: usize = 0;
        let mut k: usize = 1;
        while k < self.pending.len()
            invariant
                best < k <= self.pending@.len(),
                forall|j: int| 0 <= j < k
                    ==> signed_dist(now, self.pending@[best as int].deadline)
                        <= signed_dist(now, (#[trigger] self.pending@[j]).deadline),
                forall|j: int| 0 <= j < best
                    ==> signed_dist(now, (#[trigger] self.pending@[j]).deadline)
                        > signed_dist(now, self.pending@[best as int].deadline),
            decreases self.pending@.len() - k,
        {
            if instant_earlier(now, self.pending[k].deadline, self.pending[best].deadline) {
                best = k;
            }
            k += 1;
        }
        Some(best)
    }

    /// The deadline the hardware timer should be armed with: the pending
    /// deadline nearest to `now` in signed-distance order, or nothing when
    /// no delay is pending.
    pub fn next_deadline(&self, now: u32) -> (r: Option<u32>)
        ensures
            r is None <==> self.pending().len() == 0,
            r matches Some(d) ==> {
                &&& exists|i: int| 0 <= i < self.pending().len()
                    && (#[trigger] self.pending()[i]).deadline == d
                &&& forall|j: int| 0 <= j < self.pending().len()
                    ==> signed_dist(now, d) <= signed_dist(now, (#[trigger] self.pending()[j]).deadline)
            },
    {
        match self.min_index(now) {
            None => None,
            Some(i) => Some(self.pending[i].deadline),
        }
    }

    /// Release one due delay: the first pending entry with minimal signed
    /// distance from `now`, provided its deadline has been reached or
    /// passed. Returns nothing — and changes nothing — while no pending
    /// deadline has been reached, so a task is never resumed early; due
    /// delays come out ordered by deadline, wraparound-safely.
    pub fn pop_due(&mut self, now: u32) -> (r: Option<TimerEntry>)
        ensures
            r is None <==> (forall|i: int| 0 <= i < old(self).pending().len()
                ==> !reached(now, (#[trigger] old(self).pending()[i]).deadline)),
            r is None ==> *final(self) == *old(self),
            r matches Some(e) ==> {
                &&& reached(now, e.deadline)
                &&& exists|i: int| {
                    &&& 0 <= i < old(self).pending().len()
                    &&& (#[trigger] old(self).pending()[i]) == e
                    &&& final(self).pending() =~= old(self).pending().remove(i)
                    &&& forall|j: int| 0 <= j < i
                        ==> signed_dist(now, (#[trigger] old(self).pending()[j]).deadline)
                            > signed_dist(now, e.deadline)
                }
                &&& forall|j: int| 0 <= j < old(self).pending().len()
                    ==> signed_dist(now, e.deadline)
                        <= signed_dist(now, (#[trigger] old(self).pending()[j]).deadline)
            },
    {
        match self.min_index(now) {
            None => None,
            Some(i) => {
                if instant_reached(now, self.pending[i].deadline) {
                    let e = self.pending.remove(i);
                    Some(e)
                } else {
                    None
                }
            }
        }
    }
}

} // verus!
