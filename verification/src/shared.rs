//! The multi-reader / single-writer shared variable. One kernel event
//! counter carries the whole protocol: zero while a writer holds the
//! variable, one while it is idle, and `1 + readers` while readers hold it.
//! The two conditional atomic steps of the counter are the only acquire
//! paths, so acquisition is race-free on the target; blocking acquires are
//! written as one step each and retried after rescheduling, as everywhere in
//! this kernel.

use vstd::prelude::*;

use crate::event::MTEventCond;
use crate::kernel::{MTKernel, MTState, MTTask};

verus! {

/// Shared variable among tasks: the held value and its reader/writer
/// counter, plus the ghost occupancy that the counter encodes.
pub struct MTShared<M> {
    /// The shared value.
    pub holder: M,
    /// Kernel event table index of the reader/writer counter.
    pub rw_cnt: usize,
    /// How many readers hold the variable.
    pub readers: Ghost<int>,
    /// Whether the writer holds the variable.
    pub writer: Ghost<bool>,
}

/// Shared variable access channel; every accessor goes through one.
pub struct MTSharedCh {
    /// The channel carries no state of its own; it names an access role on
    /// the one shared variable it was made from.
    pub role: (),
}

/// Witness of a held read access: returned by a successful `look`, consumed
/// by its release.
pub struct MTSharedLook {
    /// See `MTSharedCh::role`.
    pub role: (),
}

/// Witness of a held write access: returned by a successful `touch`,
/// consumed by its release.
pub struct MTSharedTouch {
    /// See `MTSharedCh::role`.
    pub role: (),
}

impl<M> MTShared<M> {
    /// The counter's current value.
    pub open spec fn cnt(self, k: MTKernel) -> int {
        k.ev_cnt_at(self.rw_cnt as int) as int
    }

    /// The protocol invariant: the counter is zero exactly while the writer
    /// holds the variable, and `1 + readers` otherwise — so one exactly when
    /// the variable is idle.
    pub open spec fn wf(self, k: MTKernel) -> bool {
        &&& self.rw_cnt < k.events@.len()
        &&& k.tasks@.len() <= self.rw_cnt
        &&& self.readers@ >= 0
        &&& (self.writer@ ==> self.cnt(k) == 0 && self.readers@ == 0)
        &&& (!self.writer@ ==> self.cnt(k) == 1 + self.readers@)
        &&& 1 + self.readers@ <= usize::MAX
    }

    /// A fresh shared variable holding `holder`, idle, with its counter
    /// freshly allocated in the kernel's event table.
    pub fn new(k: &mut MTKernel, holder: M) -> (r: MTShared<M>)
        requires
            old(k).wf(),
            old(k).events@.len() < usize::MAX,
        ensures
            final(k).wf(),
            r.wf(*final(k)),
            r.readers@ == 0,
            !r.writer@,
            r.holder == holder,
            r.rw_cnt == old(k).events@.len(),
            final(k).events@.len() == old(k).events@.len() + 1,
            forall|i: int| 0 <= i < r.rw_cnt ==> final(k).events@[i] == old(k).events@[i],
            final(k).tasks@ == old(k).tasks@,
            final(k).task_tree == old(k).task_tree,
            final(k).tid == old(k).tid,
            final(k).is_set == old(k).is_set,
            final(k).pendsv_req == old(k).pendsv_req,
    {
        let rw_cnt = k.alloc_event(1);
        MTShared { holder, rw_cnt, readers: Ghost(0), writer: Ghost(false) }
    }

    /// An access channel to the shared variable.
    pub fn ch(&self) -> (r: MTSharedCh) {
        MTSharedCh { role: () }
    }

    /// Law: what the counter's value says about who holds the variable. The
    /// writer holds it exactly at zero, it is idle exactly at one, and `c`
    /// readers hold it exactly at `1 + c` for positive `c`.
    pub proof fn lemma_rw_protocol(self, k: MTKernel)
        requires
            self.wf(k),
        ensures
            self.cnt(k) == 0 <==> self.writer@,
            self.cnt(k) == 1 <==> (!self.writer@ && self.readers@ == 0),
            self.cnt(k) > 1 <==> (!self.writer@ && self.readers@ == self.cnt(k) - 1
                && self.readers@ > 0),
    {
    }
}

impl MTSharedCh {
    /// Try to take a read access: one conditional atomic step on the
    /// counter. Fails exactly while the writer holds the variable.
    pub fn try_look<M>(&self, s: &mut MTShared<M>, k: &mut MTKernel) -> (r: Option<MTSharedLook>)
        requires
            old(s).wf(*old(k)),
            old(k).wf(),
            2 + old(s).readers@ <= usize::MAX,
        ensures
            final(k).wf(),
            final(s).wf(*final(k)),
            r is Some <==> !old(s).writer@,
            final(s).holder == old(s).holder,
            final(s).rw_cnt == old(s).rw_cnt,
            final(s).writer@ == old(s).writer@,
            r is Some ==> final(s).readers@ == old(s).readers@ + 1,
            r is None ==> final(s).readers@ == old(s).readers@ && final(k).events@ == old(
                k,
            ).events@,
            forall|i: int|
                0 <= i < old(k).events@.len() && i != old(s).rw_cnt ==> final(k).events@[i] == old(k).events@[i],
            final(k).events@.len() == old(k).events@.len(),
            final(k).tasks@ == old(k).tasks@,
            final(k).task_tree == old(k).task_tree,
            final(k).tid == old(k).tid,
            final(k).is_set == old(k).is_set,
            final(k).pendsv_req == old(k).pendsv_req,
            final(k).sp_loops == old(k).sp_loops,
            final(k).splim_loops == old(k).splim_loops,
    {
        if k.ev_incr_ifgt0(s.rw_cnt) {
            proof {
                s.readers@ = s.readers@ + 1;
            }
            Some(MTSharedLook { role: () })
        } else {
            None
        }
    }

    /// One blocking step of a read acquire: take the access, or block the
    /// calling task until the counter turns positive again.
    pub fn look<M>(&self, s: &mut MTShared<M>, k: &mut MTKernel) -> (r: Option<MTSharedLook>)
        requires
            old(s).wf(*old(k)),
            old(k).wf(),
            2 + old(s).readers@ <= usize::MAX,
            old(k).tid is Some,
            !(old(k).tasks@[old(k).tid->0 as int].state is Inactive),
        ensures
            final(k).wf(),
            final(s).wf(*final(k)),
            r is Some <==> !old(s).writer@,
            final(s).holder == old(s).holder,
            final(s).rw_cnt == old(s).rw_cnt,
            final(s).writer@ == old(s).writer@,
            r is Some ==> final(s).readers@ == old(s).readers@ + 1 && final(k).tasks@ == old(k).tasks@,
            r is None ==> final(s).readers@ == old(s).readers@ && final(k).events@ == old(
                k,
            ).events@ && final(k).tasks@ == old(k).tasks@.update(
                old(k).tid->0 as int,
                MTTask {
                    state: MTState::Waiting,
                    wait_ev: old(s).rw_cnt,
                    wait_evcond: MTEventCond::GreaterThan(0),
                    ..old(k).tasks@[old(k).tid->0 as int]
                },
            ),
            forall|i: int|
                0 <= i < old(k).events@.len() && i != old(s).rw_cnt ==> final(k).events@[i] == old(k).events@[i],
            final(k).events@.len() == old(k).events@.len(),
            final(k).task_tree == old(k).task_tree,
            final(k).tid == old(k).tid,
            final(k).is_set == old(k).is_set,
            final(k).sp_loops == old(k).sp_loops,
            final(k).splim_loops == old(k).splim_loops,
    {
        let r = self.try_look(s, k);
        match r {
            Some(g) => Some(g),
            None => {
                k.wait(s.rw_cnt, MTEventCond::GreaterThan(0));
                None
            },
        }
    }

    /// Try to take the write access: one conditional atomic step on the
    /// counter. Succeeds exactly while the variable is idle — neither held
    /// by readers nor by the writer.
    pub fn try_touch<M>(&self, s: &mut MTShared<M>, k: &mut MTKernel) -> (r: Option<MTSharedTouch>)
        requires
            old(s).wf(*old(k)),
            old(k).wf(),
        ensures
            final(k).wf(),
            final(s).wf(*final(k)),
            r is Some <==> (!old(s).writer@ && old(s).readers@ == 0),
            final(s).holder == old(s).holder,
            final(s).rw_cnt == old(s).rw_cnt,
            r is Some ==> final(s).writer@ && final(s).readers@ == 0,
            r is None ==> final(s).readers@ == old(s).readers@ && final(s).writer@ == old(
                s,
            ).writer@ && final(k).events@ == old(k).events@,
            forall|i: int|
                0 <= i < old(k).events@.len() && i != old(s).rw_cnt ==> final(k).events@[i] == old(k).events@[i],
            final(k).events@.len() == old(k).events@.len(),
            final(k).tasks@ == old(k).tasks@,
            final(k).task_tree == old(k).task_tree,
            final(k).tid == old(k).tid,
            final(k).is_set == old(k).is_set,
            final(k).pendsv_req == old(k).pendsv_req,
            final(k).sp_loops == old(k).sp_loops,
            final(k).splim_loops == old(k).splim_loops,
    {
        if k.ev_decr_if1(s.rw_cnt) {
            proof {
                s.writer@ = true;
            }
            Some(MTSharedTouch { role: () })
        } else {
            None
        }
    }

    /// One blocking step of a write acquire: take the access, or block the
    /// calling task until the counter reads one again.
    pub fn touch<M>(&self, s: &mut MTShared<M>, k: &mut MTKernel) -> (r: Option<MTSharedTouch>)
        requires
            old(s).wf(*old(k)),
            old(k).wf(),
            old(k).tid is Some,
            !(old(k).tasks@[old(k).tid->0 as int].state is Inactive),
        ensures
            final(k).wf(),
            final(s).wf(*final(k)),
            r is Some <==> (!old(s).writer@ && old(s).readers@ == 0),
            final(s).holder == old(s).holder,
            final(s).rw_cnt == old(s).rw_cnt,
            r is Some ==> final(s).writer@ && final(s).readers@ == 0 && final(k).tasks@ == old(k).tasks@,
            r is None ==> final(s).readers@ == old(s).readers@ && final(s).writer@ == old(
                s,
            ).writer@ && final(k).events@ == old(k).events@ && final(k).tasks@ == old(
                k,
            ).tasks@.update(
                old(k).tid->0 as int,
                MTTask {
                    state: MTState::Waiting,
                    wait_ev: old(s).rw_cnt,
                    wait_evcond: MTEventCond::Equal(1),
                    ..old(k).tasks@[old(k).tid->0 as int]
                },
            ),
            forall|i: int|
                0 <= i < old(k).events@.len() && i != old(s).rw_cnt ==> final(k).events@[i] == old(k).events@[i],
            final(k).events@.len() == old(k).events@.len(),
            final(k).task_tree == old(k).task_tree,
            final(k).tid == old(k).tid,
            final(k).is_set == old(k).is_set,
            final(k).sp_loops == old(k).sp_loops,
            final(k).splim_loops == old(k).splim_loops,
    {
        let r = self.try_touch(s, k);
        match r {
            Some(g) => Some(g),
            None => {
                k.wait(s.rw_cnt, MTEventCond::Equal(1));
                None
            },
        }
    }
}

impl MTSharedLook {
    /// Read the shared value while holding a read access.
    pub fn value<'a, M>(&self, s: &'a MTShared<M>) -> (r: &'a M)
        requires
            s.readers@ > 0,
        ensures
            *r == s.holder,
    {
        &s.holder
    }

    /// Give the read access back: the counter drops and the scheduler is
    /// nudged, so a blocked writer gets its chance.
    pub fn release<M>(self, s: &mut MTShared<M>, k: &mut MTKernel)
        requires
            old(s).wf(*old(k)),
            old(k).wf(),
            old(s).readers@ > 0,
        ensures
            final(k).wf(),
            final(s).wf(*final(k)),
            final(s).holder == old(s).holder,
            final(s).rw_cnt == old(s).rw_cnt,
            final(s).readers@ == old(s).readers@ - 1,
            final(s).writer@ == old(s).writer@,
            forall|i: int|
                0 <= i < old(k).events@.len() && i != old(s).rw_cnt ==> final(k).events@[i] == old(k).events@[i],
            final(k).events@.len() == old(k).events@.len(),
            final(k).tasks@ == old(k).tasks@,
            final(k).task_tree == old(k).task_tree,
            final(k).tid == old(k).tid,
            final(k).is_set == old(k).is_set,
            final(k).pendsv_req == (old(k).pendsv_req || old(k).is_set),
            final(k).sp_loops == old(k).sp_loops,
            final(k).splim_loops == old(k).splim_loops,
    {
        k.ev_decr(s.rw_cnt);
        k.signal(s.rw_cnt);
        proof {
            s.readers@ = s.readers@ - 1;
        }
    }
}

impl MTSharedTouch {
    /// Read the shared value while holding the write access.
    pub fn value<'a, M>(&self, s: &'a MTShared<M>) -> (r: &'a M)
        requires
            s.writer@,
        ensures
            *r == s.holder,
    {
        &s.holder
    }

    /// Replace the shared value while holding the write access.
    pub fn set<M>(&self, s: &mut MTShared<M>, v: M)
        requires
            old(s).writer@,
        ensures
            final(s).holder == v,
            final(s).rw_cnt == old(s).rw_cnt,
            final(s).readers@ == old(s).readers@,
            final(s).writer@ == old(s).writer@,
    {
        s.holder = v;
    }

    /// Give the write access back: the counter returns to one and the
    /// scheduler is nudged, so blocked readers and writers get their chance.
    pub fn release<M>(self, s: &mut MTShared<M>, k: &mut MTKernel)
        requires
            old(s).wf(*old(k)),
            old(k).wf(),
            old(s).writer@,
        ensures
            final(k).wf(),
            final(s).wf(*final(k)),
            final(s).holder == old(s).holder,
            final(s).rw_cnt == old(s).rw_cnt,
            final(s).readers@ == 0,
            !final(s).writer@,
            forall|i: int|
                0 <= i < old(k).events@.len() && i != old(s).rw_cnt ==> final(k).events@[i] == old(k).events@[i],
            final(k).events@.len() == old(k).events@.len(),
            final(k).tasks@ == old(k).tasks@,
            final(k).task_tree == old(k).task_tree,
            final(k).tid == old(k).tid,
            final(k).is_set == old(k).is_set,
            final(k).pendsv_req == (old(k).pendsv_req || old(k).is_set),
            final(k).sp_loops == old(k).sp_loops,
            final(k).splim_loops == old(k).splim_loops,
    {
        k.ev_incr(s.rw_cnt);
        k.signal(s.rw_cnt);
        proof {
            s.writer@ = false;
        }
    }
}

} // verus!
