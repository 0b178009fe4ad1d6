//! The event counter: one unsigned word with the five primitives that every
//! blocking abstraction of the kernel is built from. On the target these are
//! exclusive-access (`ldrex`/`strex`) retry loops so that task-level and
//! interrupt-level callers interleave atomically; each operation's contract
//! here states the effect of one such atomic step.

use vstd::prelude::*;

verus! {

/// A wait predicate applied to an event counter's current value.
#[derive(Clone, Copy, PartialEq, Eq, Structural)]
pub enum MTEventCond {
    /// No predicate; never a valid condition to wait on.
    Never,
    /// Holds when the counter equals the target.
    Equal(usize),
    /// Holds when the counter differs from the target.
    NotEqual(usize),
    /// Holds when the counter is below the target.
    LessThan(usize),
    /// Holds when the counter is above the target.
    GreaterThan(usize),
}

impl MTEventCond {
    /// What it means for a counter value to satisfy the condition.
    pub open spec fn matched_by(self, cnt: usize) -> bool {
        match self {
            MTEventCond::Never => false,
            MTEventCond::Equal(target) => cnt == target,
            MTEventCond::NotEqual(target) => cnt != target,
            MTEventCond::LessThan(target) => cnt < target,
            MTEventCond::GreaterThan(target) => cnt > target,
        }
    }
}

/// An event counter. The unconditional increment and decrement wrap around;
/// the designs built on the counter keep it within range and never rely on
/// the wrap.
#[derive(Clone, Copy)]
pub struct MTEvent {
    ex_cnt: usize,
}

impl MTEvent {
    /// The current count, for use in contracts.
    pub closed spec fn spec_cnt(self) -> usize {
        self.ex_cnt
    }

    /// A counter starting at `init_cnt`.
    pub fn new(init_cnt: usize) -> (r: MTEvent)
        ensures
            r.spec_cnt() == init_cnt,
    {
        MTEvent { ex_cnt: init_cnt }
    }

    /// The current count.
    pub fn cnt(&self) -> (r: usize)
        ensures
            r == self.spec_cnt(),
    {
        self.ex_cnt
    }

    /// Unconditional increment, wrapping at the word boundary.
    pub fn incr(&mut self)
        ensures
            old(self).spec_cnt() < usize::MAX ==> final(self).spec_cnt() == old(self).spec_cnt() + 1,
            old(self).spec_cnt() == usize::MAX ==> final(self).spec_cnt() == 0,
    {
        if self.ex_cnt == usize::MAX {
            self.ex_cnt = 0;
        } else {
            self.ex_cnt = self.ex_cnt + 1;
        }
    }

    /// Unconditional decrement, wrapping at the word boundary.
    pub fn decr(&mut self)
        ensures
            old(self).spec_cnt() > 0 ==> final(self).spec_cnt() == old(self).spec_cnt() - 1,
            old(self).spec_cnt() == 0 ==> final(self).spec_cnt() == usize::MAX,
    {
        if self.ex_cnt == 0 {
            self.ex_cnt = usize::MAX;
        } else {
            self.ex_cnt = self.ex_cnt - 1;
        }
    }

    /// One atomic step: if the count is positive, increment it (wrapping at
    /// the word boundary) and report success; otherwise leave it unchanged.
    pub fn incr_ifgt0(&mut self) -> (r: bool)
        ensures
            r == (old(self).spec_cnt() > 0),
            r && old(self).spec_cnt() < usize::MAX ==> final(self).spec_cnt() == old(self).spec_cnt() + 1,
            r && old(self).spec_cnt() == usize::MAX ==> final(self).spec_cnt() == 0,
            !r ==> *final(self) == *old(self),
    {
        if self.ex_cnt > 0 {
            self.incr();
            true
        } else {
            false
        }
    }

    /// One atomic step: if the count is exactly one, decrement it to zero and
    /// report success; otherwise leave it unchanged.
    pub fn decr_if1(&mut self) -> (r: bool)
        ensures
            r == (old(self).spec_cnt() == 1),
            r ==> final(self).spec_cnt() == 0,
            !r ==> *final(self) == *old(self),
    {
        if self.ex_cnt == 1 {
            self.ex_cnt = 0;
            true
        } else {
            false
        }
    }

    /// Whether the current count satisfies a wait condition. Asking about the
    /// empty condition is a programming bug, so it is excluded here.
    pub fn cond_matched(&self, cond: &MTEventCond) -> (r: bool)
        requires
            !(cond is Never),
        ensures
            r == cond.matched_by(self.spec_cnt()),
    {
        match cond {
            MTEventCond::Never => false,
            MTEventCond::Equal(target) => self.cnt() == *target,
            MTEventCond::NotEqual(target) => self.cnt() != *target,
            MTEventCond::LessThan(target) => self.cnt() < *target,
            MTEventCond::GreaterThan(target) => self.cnt() > *target,
        }
    }
}

} // verus!
