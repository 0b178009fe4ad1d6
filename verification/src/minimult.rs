//! The multitasking front door: own the memory block's allocator and the
//! kernel, hand out queues and shared variables, register tasks, and start
//! dispatching. On the target `run` never returns — the CPU parks in a
//! wait-for-interrupt loop on the main stack; here `run` hands the started
//! kernel back to whatever loop stands in for that hardware.

use vstd::prelude::*;

use crate::kernel::{MTKernel, MTState, MTTask};
use crate::memory::{spec_align_up, MTAlloc, MTMemBlk, MTRawArray};
use crate::msgqueue::MTMsgQueue;
use crate::shared::MTShared;
use crate::{MTErr, MTTaskId, MTTaskPri};

verus! {

/// Bytes one task control block costs out of the memory block.
pub const TASK_BLOCK_BYTES: usize = 32;

/// Bytes one scheduler tree entry costs out of the memory block.
pub const TREE_ENTRY_BYTES: usize = 4;

/// Bytes of one stack word.
pub const STACK_WORD_BYTES: usize = 4;

/// The alignment a message element is laid out at: its own alignment, or
/// one for a degenerate layout.
pub open spec fn spec_msg_align<M>() -> int {
    if vstd::layout::align_of::<M>() == 0 {
        1
    } else {
        vstd::layout::align_of::<M>() as int
    }
}

/// Multitasking API: the pre-`run` handle that sets the system up.
pub struct Minimult {
    /// One-shot allocator over the caller's memory block.
    pub alloc: MTAlloc,
    /// The kernel being assembled.
    pub kernel: MTKernel,
}

impl Minimult {
    /// The handle's invariant: a sound allocator and a sound kernel that has
    /// not started dispatching.
    pub open spec fn wf(self) -> bool {
        &&& self.alloc.wf()
        &&& self.kernel.wf()
        &&& !self.kernel.is_set
        &&& self.kernel.events@.len() < usize::MAX
    }

    /// Reserve a memory block of `size` bytes for a `Minimult` instance.
    pub fn mem(size: usize) -> (r: MTMemBlk)
        ensures
            r.wf(),
            r.base == 0,
            r.size == size,
    {
        MTMemBlk::new(0, size)
    }

    /// Whether a memory block can hold the kernel's task and scheduler
    /// arrays for `n` tasks.
    pub open spec fn kernel_arrays_fit(mem: MTMemBlk, n: int) -> bool {
        let base = mem.base as int;
        let cap = base + mem.size;
        let e1 = spec_align_up(base, 4) + TASK_BLOCK_BYTES * n;
        let e2 = spec_align_up(e1, 4) + TREE_ENTRY_BYTES * n;
        &&& e1 <= cap
        &&& e2 <= cap
    }

    /// Create the instance over a reserved memory block: carve the kernel's
    /// task and scheduler arrays out of it and build the kernel. Fails
    /// exactly when the block cannot even hold those.
    pub fn new(mem: &mut MTMemBlk, num_tasks: MTTaskId) -> (r: Result<Minimult, MTErr>)
        requires
            old(mem).wf(),
        ensures
            *final(mem) == *old(mem),
            r is Ok <==> Self::kernel_arrays_fit(*old(mem), num_tasks as int),
            r is Err ==> r == Err::<Minimult, MTErr>(MTErr::MemShortage),
            r is Ok ==> {
                let m = r->Ok_0;
                &&& m.wf()
                &&& m.kernel.tasks@.len() == num_tasks
                &&& m.kernel.events@.len() == num_tasks
                &&& (forall|t: int|
                    0 <= t < num_tasks ==> (#[trigger] m.kernel.tasks@[t].state) is Inactive)
                &&& (forall|i: int|
                    0 <= i < num_tasks ==> (#[trigger] m.kernel.events@[i].spec_cnt()) == 0)
                &&& m.kernel.tid is None
                &&& !m.kernel.pendsv_req
                &&& m.kernel.task_tree.n_bheap == 0
                &&& m.kernel.task_tree.n_flist == 0
            },
    {
        let mut alloc = MTAlloc::new(mem);
        let n = num_tasks as usize;
        match alloc.array(n, TASK_BLOCK_BYTES, 4) {
            Ok(_) => {},
            Err(e) => {
                return Err(e);
            },
        }
        match alloc.array(n, TREE_ENTRY_BYTES, 4) {
            Ok(_) => {},
            Err(e) => {
                return Err(e);
            },
        }
        let kernel = MTKernel::new(num_tasks);
        Ok(Minimult { alloc, kernel })
    }

    /// Create a message queue of `len` entries, accounting its buffer out of
    /// the memory block.
    pub fn msgq<M>(&mut self, len: usize) -> (r: Result<MTMsgQueue<M>, MTErr>)
        requires
            old(self).wf(),
            len >= 1,
        ensures
            final(self).wf(),
            r is Ok <==> old(self).alloc.array_fits(
                len as int,
                vstd::layout::size_of::<M>() as int,
                spec_msg_align::<M>(),
            ) && old(self).kernel.events@.len() != usize::MAX - 1,
            r is Err ==> r == Err::<MTMsgQueue<M>, MTErr>(MTErr::MemShortage) && final(self).kernel == old(self).kernel,
            r is Ok ==> {
                let q = r->Ok_0;
                &&& q.wf(final(self).kernel)
                &&& q.capacity() == len
                &&& q.cnt(final(self).kernel) == 0
                &&& q.contents(final(self).kernel) =~= Seq::<M>::empty()
                &&& q.cnt_ev == old(self).kernel.events@.len()
                &&& final(self).kernel.events@.len() == old(self).kernel.events@.len() + 1
                &&& final(self).kernel.tasks@ == old(self).kernel.tasks@
                &&& final(self).kernel.task_tree == old(self).kernel.task_tree
                &&& final(self).kernel.tid == old(self).kernel.tid
                &&& final(self).kernel.is_set == old(self).kernel.is_set
                &&& (forall|i: int|
                    0 <= i < q.cnt_ev ==> final(self).kernel.events@[i] == old(self).kernel.events@[i])
            },
    {
        let size = core::mem::size_of::<M>();
        let a = core::mem::align_of::<M>();
        let al = if a == 0 {
            1
        } else {
            a
        };
        match self.alloc.array(len, size, al) {
            Ok(_) => {},
            Err(e) => {
                return Err(e);
            },
        }
        if self.kernel.events.len() == usize::MAX - 1 {
            // keep room for further queues and shared variables
            return Err(MTErr::MemShortage);
        }
        Ok(MTMsgQueue::new(&mut self.kernel, len))
    }

    /// Create a shared variable holding `m`.
    pub fn share<M>(&mut self, m: M) -> (r: Result<MTShared<M>, MTErr>)
        requires
            old(self).wf(),
        ensures
            final(self).wf(),
            r is Ok <==> old(self).kernel.events@.len() != usize::MAX - 1,
            r is Err ==> r == Err::<MTShared<M>, MTErr>(MTErr::MemShortage) && *final(self)
                == *old(self),
            r is Ok ==> {
                let s = r->Ok_0;
                &&& s.wf(final(self).kernel)
                &&& s.readers@ == 0
                &&& !s.writer@
                &&& s.holder == m
                &&& s.rw_cnt == old(self).kernel.events@.len()
                &&& final(self).kernel.events@.len() == old(self).kernel.events@.len() + 1
                &&& final(self).kernel.tasks@ == old(self).kernel.tasks@
                &&& final(self).kernel.task_tree == old(self).kernel.task_tree
                &&& final(self).kernel.tid == old(self).kernel.tid
                &&& final(self).kernel.is_set == old(self).kernel.is_set
                &&& (forall|i: int|
                    0 <= i < s.rw_cnt ==> final(self).kernel.events@[i] == old(self).kernel.events@[i])
                &&& final(self).alloc == old(self).alloc
            },
    {
        if self.kernel.events.len() == usize::MAX - 1 {
            // keep room for further queues and shared variables
            return Err(MTErr::MemShortage);
        }
        Ok(MTShared::new(&mut self.kernel, m))
    }

    /// Register a task under its id and priority, with a stack of
    /// `stack_len` words carved out of the memory block. The task body's
    /// size and alignment place the entry frame exactly as the target does.
    #[verifier::rlimit(60)]
    pub fn register(
        &mut self,
        tid: MTTaskId,
        pri: MTTaskPri,
        stack_len: usize,
        closure_size: usize,
        closure_align: usize,
    ) -> (r: Result<(), MTErr>)
        requires
            old(self).wf(),
            closure_align >= 1,
        ensures
            final(self).wf(),
            r is Ok ==> {
                let stack = MTRawArray {
                    head: spec_align_up(old(self).alloc.cur_pos as int, 4) as usize,
                    elem_size: STACK_WORD_BYTES,
                    len: stack_len,
                };
                // the task is tied to the freshly carved stack: recorded
                // bounds, fabricated initial stack pointer, Ready under its
                // priority
                &&& final(self).kernel.tasks@ == old(self).kernel.tasks@.update(
                    tid as int,
                    MTTask {
                        sp_start: stack.head,
                        sp_end: stack.tail_addr() as usize,
                        sp: MTKernel::spec_initial_sp(
                            stack.tail_addr(),
                            closure_size as int,
                            closure_align as int,
                        ) as usize,
                        state: MTState::Ready,
                        ..old(self).kernel.tasks@[tid as int]
                    },
                )
                &&& final(self).kernel.task_tree.heap_has(tid, pri)
                &&& (forall|id2: MTTaskId, key2: MTTaskPri|
                    final(self).kernel.task_tree.heap_has(id2, key2) == (old(
                        self,
                    ).kernel.task_tree.heap_has(id2, key2) || (id2 == tid && key2 == pri)))
                &&& (forall|id2: MTTaskId, key2: MTTaskPri|
                    final(self).kernel.task_tree.flist_has(id2, key2) == old(
                        self,
                    ).kernel.task_tree.flist_has(id2, key2))
                &&& final(self).kernel.events@ == old(self).kernel.events@
                // the stack's words are consumed out of the block, beyond
                // every earlier allocation
                &&& old(self).alloc.cur_pos <= stack.head
                &&& final(self).alloc.cur_pos == stack.tail_addr()
                &&& final(self).alloc.end_cap == old(self).alloc.end_cap
            },
            r is Err ==> final(self).kernel == old(self).kernel,
            r == Err::<(), MTErr>(MTErr::MemShortage) ==> *final(self) == *old(self),
            ({
                let fits = old(self).alloc.array_fits(
                    stack_len as int,
                    STACK_WORD_BYTES as int,
                    4,
                );
                let stack = MTRawArray {
                    head: spec_align_up(old(self).alloc.cur_pos as int, 4) as usize,
                    elem_size: STACK_WORD_BYTES,
                    len: stack_len,
                };
                let n = old(self).kernel.tasks@.len();
                let vacant = (tid as int) < n && old(self).kernel.tasks@[tid as int].state
                    is Inactive;
                let frames = MTKernel::frame_fits(
                    stack,
                    closure_size as int,
                    closure_align as int,
                );
                &&& (!fits <==> r == Err::<(), MTErr>(MTErr::MemShortage))
                &&& (fits && (tid as int) >= n <==> r == Err::<(), MTErr>(MTErr::BadTaskId))
                &&& (fits && (tid as int) < n && !vacant <==> r == Err::<(), MTErr>(
                    MTErr::DoubleRegistration,
                ))
                &&& (fits && vacant && !frames <==> r == Err::<(), MTErr>(MTErr::StackShortage))
                &&& (r is Ok <==> fits && vacant && frames)
            }),
    {
        let stack = match self.alloc.array(stack_len, STACK_WORD_BYTES, 4) {
            Ok(s) => s,
            Err(e) => {
                return Err(e);
            },
        };
        self.kernel.register(tid, pri, stack, closure_size, closure_align)
    }

    /// Start dispatching: consume the setup handle and hand back the started
    /// kernel, with the first switch already requested. The embedding parks
    /// in its wait-for-interrupt loop and serves switches from now on; on
    /// the target this point is never returned from.
    pub fn run(self) -> (r: MTKernel)
        requires
            self.wf(),
        ensures
            r.wf(),
            r.is_set,
            r.pendsv_req,
            r.tasks@ == self.kernel.tasks@,
            r.task_tree == self.kernel.task_tree,
            r.events@ == self.kernel.events@,
            r.tid == self.kernel.tid,
    {
        let Minimult { alloc: _, kernel: mut k } = self;
        k.run();
        k
    }

    /// Request a dispatch; a no-op until `run`.
    pub fn dispatch(&mut self)
        ensures
            final(self).kernel.pendsv_req == (old(self).kernel.pendsv_req || old(self).kernel.is_set),
            final(self).kernel.tasks@ == old(self).kernel.tasks@,
            final(self).kernel.task_tree == old(self).kernel.task_tree,
            final(self).kernel.events@ == old(self).kernel.events@,
            final(self).kernel.tid == old(self).kernel.tid,
            final(self).kernel.is_set == old(self).kernel.is_set,
            final(self).alloc == old(self).alloc,
    {
        self.kernel.dispatch();
    }

    /// Wake a task from `idle` before `run`: its kick is banked in its
    /// counter and consumed at its first `idle`.
    #[verifier::rlimit(30)]
    pub fn kick(&mut self, tid: MTTaskId) -> (r: Result<(), MTErr>)
        requires
            old(self).wf(),
        ensures
            final(self).wf(),
            r is Ok <==> (tid as int) < old(self).kernel.tasks@.len(),
            r is Err ==> r == Err::<(), MTErr>(MTErr::BadTaskId) && *final(self) == *old(self),
            r is Ok ==> {
                &&& (old(self).kernel.ev_cnt_at(tid as int) < usize::MAX ==> final(self).kernel.ev_cnt_at(tid as int) == old(self).kernel.ev_cnt_at(tid as int) + 1)
                &&& (old(self).kernel.ev_cnt_at(tid as int) == usize::MAX ==> final(self).kernel.ev_cnt_at(tid as int) == 0)
                &&& forall|i: int|
                    0 <= i < old(self).kernel.events@.len() && i != tid as int ==> final(self).kernel.events@[i] == old(self).kernel.events@[i]
                &&& final(self).kernel.events@.len() == old(self).kernel.events@.len()
                &&& final(self).kernel.pendsv_req == (old(self).kernel.pendsv_req || old(
                    self,
                ).kernel.is_set)
                &&& final(self).kernel.tasks@ == old(self).kernel.tasks@
                &&& final(self).kernel.task_tree == old(self).kernel.task_tree
                &&& final(self).kernel.tid == old(self).kernel.tid
                &&& final(self).kernel.is_set == old(self).kernel.is_set
                &&& final(self).alloc == old(self).alloc
            },
    {
        self.kernel.kick(tid)
    }

    /// The running task's id: always `None` before `run`.
    pub fn curr_tid(&self) -> (r: Option<MTTaskId>)
        ensures
            r == self.kernel.tid,
    {
        self.kernel.curr_tid()
    }
}

} // verus!
