//! The scheduler and task-switch kernel: per-task control blocks, the ready
//! heap / waiting free-list, and the event table that wait conditions are
//! checked against. On the target the switch itself runs inside PendSV behind
//! an assembly trampoline; the trampoline's two hooks (`save_sp`,
//! `task_switch`) and everything they decide are here, as plain code over
//! plain state, with the structural invariant of the scheduler proved across
//! every operation.

use vstd::prelude::*;

use crate::bheap::{zone_has, MTBHeapDList};
use crate::event::{MTEvent, MTEventCond};
use crate::memory::{align_down, spec_align_down, MTRawArray};
use crate::{MTErr, MTTaskId, MTTaskPri};

verus! {

/// Scheduling state of one task.
#[derive(Clone, Copy, Debug, PartialEq, Eq, Structural)]
pub enum MTState {
    /// No task registered, or the task's closure has returned.
    Inactive,
    /// Runnable: the task sits in the ready heap.
    Ready,
    /// Blocked on a wait condition: the task sits in the free list.
    Waiting,
}

/// One task control block. The `wait_ev` / `wait_evcond` pair is meaningful
/// only while the task is `Waiting`; `sp` only while the task is not running.
#[derive(Clone, Copy)]
pub struct MTTask {
    /// Lowest address of the task's stack.
    pub sp_start: usize,
    /// One past the highest address of the task's stack (stacks grow down).
    pub sp_end: usize,
    /// Saved stack pointer, recorded at every context save.
    pub sp: usize,
    /// Scheduling state.
    pub state: MTState,
    /// Index into the kernel's event table of the event awaited.
    pub wait_ev: usize,
    /// Condition on that event's count.
    pub wait_evcond: MTEventCond,
}

/// Bytes reserved below the closure body for the initial exception frame:
/// eighteen words of context plus two words of margin, four bytes each.
pub const FRAME_BYTES: usize = 80;

/// Word offset of the exception-return value in the frame.
pub const FRAME_EXC_RETURN: usize = 9;

/// Word offset of R0 — the argument register — in the frame.
pub const FRAME_R0: usize = 10;

/// Word offset of LR (R14) in the frame.
pub const FRAME_LR: usize = 15;

/// Word offset of the return address in the frame.
pub const FRAME_RET_ADDR: usize = 16;

/// Word offset of xPSR in the frame.
pub const FRAME_XPSR: usize = 17;

/// The exception frame fabricated at registration, word by word, so that the
/// first exception return into the task looks like an ordinary call into its
/// body: R8-R11, R4-R7 and a reserved word all zero; the exception-return
/// value selecting Thread mode, process stack and a basic frame; R0 pointing
/// at the task body's captured state; LR pointing at the landing spot for a
/// task body that returns; the return address at the body's entry; and xPSR
/// with only the Thumb bit set.
pub fn initial_frame(data: usize, call_once: usize, task_return: usize) -> (r: Vec<usize>)
    ensures
        r@.len() == 18,
        r@[FRAME_EXC_RETURN as int] == 0xffff_fff9usize,
        r@[FRAME_R0 as int] == data,
        r@[FRAME_LR as int] == task_return,
        r@[FRAME_RET_ADDR as int] == call_once,
        r@[FRAME_XPSR as int] == 0x0100_0000usize,
        forall|i: int|
            0 <= i < 18 && i != FRAME_EXC_RETURN && i != FRAME_R0 && i != FRAME_LR && i
                != FRAME_RET_ADDR && i != FRAME_XPSR ==> r@[i] == 0,
{
    let mut f: Vec<usize> = Vec::new();
    let mut i: usize = 0;
    while i < 18
        invariant
            i <= 18,
            f@.len() == i,
            forall|j: int| 0 <= j < i ==> f@[j] == 0,
        decreases 18 - i,
    {
        f.push(0);
        i = i + 1;
    }
    f[FRAME_EXC_RETURN] = 0xffff_fff9;
    f[FRAME_R0] = data;
    f[FRAME_LR] = task_return;
    f[FRAME_RET_ADDR] = call_once;
    f[FRAME_XPSR] = 0x0100_0000;
    f
}

/// The kernel singleton's state.
pub struct MTKernel {
    /// Task control blocks, indexed by task id.
    pub tasks: Vec<MTTask>,
    /// Ready heap and waiting free-list over the task ids.
    pub task_tree: MTBHeapDList,
    /// Event table. The first `tasks.len()` entries are the per-task
    /// idle/kick counters; the rest are allocated to queues and shared
    /// variables.
    pub events: Vec<MTEvent>,
    /// Set once `run` starts dispatching.
    pub is_set: bool,
    /// The PendSV request line: set by `dispatch`, cleared by `task_switch`.
    pub pendsv_req: bool,
    /// Main-loop stack pointer, restored when no task is ready.
    pub sp_loops: usize,
    /// Main-loop stack limit.
    pub splim_loops: usize,
    /// The running task, if any: always the head of the ready heap.
    pub tid: Option<MTTaskId>,
}

impl MTKernel {
    /// Number of tasks.
    pub open spec fn n_tasks(self) -> int {
        self.tasks@.len() as int
    }

    /// Count of the event at table index `i`.
    pub open spec fn ev_cnt_at(self, i: int) -> usize {
        self.events@[i].spec_cnt()
    }

    /// Task `t` is waiting and its condition holds of its event's count now.
    pub open spec fn waiting_matched(self, t: int) -> bool {
        &&& self.tasks@[t].state is Waiting
        &&& self.tasks@[t].wait_evcond.matched_by(
            self.events@[self.tasks@[t].wait_ev as int].spec_cnt(),
        )
    }

    /// What `task_switch` leaves task `t`'s state as: a waiting task whose
    /// condition holds wakes to `Ready`; everything else keeps its state.
    pub open spec fn next_state_of(self, t: int) -> MTState {
        if self.waiting_matched(t) {
            MTState::Ready
        } else {
            self.tasks@[t].state
        }
    }

    /// The scheduler's structural invariant.
    ///
    /// A task is in the ready heap exactly when `Ready`, in the free list
    /// exactly when `Waiting`, and absent exactly when `Inactive` — with the
    /// one running task exempt, since it changes its own state first and is
    /// restructured at the next switch. The running task is always the heap's
    /// head. Waiting tasks point at live events with real conditions, and
    /// every registered task's saved stack pointer sits within its stack.
    pub open spec fn wf(self) -> bool {
        &&& self.task_tree.wf()
        &&& self.task_tree.array@.len() == self.tasks@.len()
        &&& self.tasks@.len() <= 0x10000
        &&& self.events@.len() >= self.tasks@.len()
        &&& self.events@.len() <= usize::MAX
        &&& forall|id: MTTaskId, key: MTTaskPri|
            #![trigger self.task_tree.has_pair(id, key)]
            self.task_tree.has_pair(id, key) ==> (id as int) < self.tasks@.len()
        &&& forall|id: MTTaskId, key: MTTaskPri|
            #![trigger self.task_tree.heap_has(id, key)]
            self.task_tree.heap_has(id, key) && Some(id) != self.tid
                ==> self.tasks@[id as int].state is Ready
        &&& forall|id: MTTaskId, key: MTTaskPri|
            #![trigger self.task_tree.flist_has(id, key)]
            self.task_tree.flist_has(id, key) ==> self.tasks@[id as int].state is Waiting
        &&& forall|t: int|
            0 <= t < self.tasks@.len() && !((#[trigger] self.tasks@[t].state) is Inactive)
                ==> self.task_tree.contains_id(t as MTTaskId)
        &&& (self.tid is Some ==> (self.tid->0 as int) < self.tasks@.len()
            && self.task_tree.n_bheap > 0 && self.task_tree.id_at(0) == self.tid->0)
        &&& (!self.is_set ==> self.tid is None)
        &&& forall|t: int|
            0 <= t < self.tasks@.len() && (#[trigger] self.tasks@[t].state) is Waiting
                ==> self.tasks@[t].wait_ev < self.events@.len() && !(
            self.tasks@[t].wait_evcond is Never)
        &&& forall|t: int|
            0 <= t < self.tasks@.len() && !((#[trigger] self.tasks@[t].state) is Inactive)
                ==> self.tasks@[t].sp_start <= self.tasks@[t].sp <= self.tasks@[t].sp_end
    }

    /// Law: a task is ready exactly when it sits in the ready heap, waiting
    /// exactly when it sits in the free list, and inactive exactly when it is
    /// in neither — for every task but the running one, whose own state
    /// change is restructured only at the next switch.
    pub proof fn lemma_state_structure_agreement(self, t: MTTaskId)
        requires
            self.wf(),
            (t as int) < self.n_tasks(),
            self.tid != Some(t),
        ensures
            self.tasks@[t as int].state is Ready <==> self.task_tree.in_heap(t),
            self.tasks@[t as int].state is Waiting <==> self.task_tree.in_flist(t),
            self.tasks@[t as int].state is Inactive <==> (!self.task_tree.in_heap(t)
                && !self.task_tree.in_flist(t)),
    {
        if self.task_tree.in_heap(t) {
            let key = choose|key: MTTaskPri| self.task_tree.heap_has(t, key);
            assert(self.tasks@[t as int].state is Ready);
        }
        if self.task_tree.in_flist(t) {
            let key = choose|key: MTTaskPri| self.task_tree.flist_has(t, key);
            assert(self.tasks@[t as int].state is Waiting);
        }
        if !(self.tasks@[t as int].state is Inactive) {
            assert(self.task_tree.contains_id(t));
        }
    }

    /// Law: every scheduled task's saved stack pointer lies within its own
    /// stack — the bound that the context-save hook enforces on every switch.
    pub proof fn lemma_saved_sp_in_bounds(self, t: MTTaskId)
        requires
            self.wf(),
            (t as int) < self.n_tasks(),
            !(self.tasks@[t as int].state is Inactive),
        ensures
            self.tasks@[t as int].sp_start <= self.tasks@[t as int].sp <= self.tasks@[t
                as int].sp_end,
    {
    }

    /// Law: the running task has the smallest key — the highest priority —
    /// of every entry in the ready heap.
    pub proof fn lemma_running_has_highest_priority(
        self,
        u: MTTaskId,
        ku: MTTaskPri,
        kt: MTTaskPri,
    )
        requires
            self.wf(),
            self.tid is Some,
            self.task_tree.heap_has(self.tid->0, kt),
            self.task_tree.heap_has(u, ku),
        ensures
            kt <= ku,
    {
        let i = choose|i: int|
            0 <= i < self.task_tree.n_bheap && self.task_tree.array@[i] == Some((self.tid->0, kt));
        assert(self.task_tree.id_at(i) == self.tid->0);
        if i != 0 {
            assert(self.task_tree.id_at(0) != self.task_tree.id_at(i));
        }
        assert(self.task_tree.key_at(0) == kt);
        let j = choose|j: int|
            0 <= j < self.task_tree.n_bheap && self.task_tree.array@[j] == Some((u, ku));
        assert(self.task_tree.key_at(j) == ku);
        self.task_tree.lemma_head_min(j);
    }

    /// A fresh kernel for `num_tasks` tasks: everything inactive, every
    /// idle/kick counter zero, nothing running.
    pub fn new(num_tasks: MTTaskId) -> (r: MTKernel)
        ensures
            r.wf(),
            r.tasks@.len() == num_tasks,
            r.events@.len() == num_tasks,
            forall|t: int| 0 <= t < num_tasks ==> (#[trigger] r.tasks@[t].state) is Inactive,
            forall|i: int| 0 <= i < num_tasks ==> (#[trigger] r.events@[i].spec_cnt()) == 0,
            r.tid is None,
            !r.is_set,
            !r.pendsv_req,
            r.task_tree.n_bheap == 0,
            r.task_tree.n_flist == 0,
    {
        let n = num_tasks as usize;
        let mut tasks: Vec<MTTask> = Vec::new();
        let mut events: Vec<MTEvent> = Vec::new();
        let mut i: usize = 0;
        while i < n
            invariant
                i <= n,
                tasks@.len() == i,
                events@.len() == i,
                forall|t: int| 0 <= t < i ==> (#[trigger] tasks@[t].state) is Inactive,
                forall|t: int| 0 <= t < i ==> (#[trigger] events@[t].spec_cnt()) == 0,
            decreases n - i,
        {
            tasks.push(
                MTTask {
                    sp_start: 0,
                    sp_end: 0,
                    sp: 0,
                    state: MTState::Inactive,
                    wait_ev: 0,
                    wait_evcond: MTEventCond::Never,
                },
            );
            events.push(MTEvent::new(0));
            i = i + 1;
        }
        MTKernel {
            tasks,
            task_tree: MTBHeapDList::new(n),
            events,
            is_set: false,
            pendsv_req: false,
            sp_loops: 0,
            splim_loops: 0,
            tid: None,
        }
    }

    /// Add an event to the table (a queue's or shared variable's counter) and
    /// return its index.
    pub fn alloc_event(&mut self, init_cnt: usize) -> (r: usize)
        requires
            old(self).wf(),
            old(self).events@.len() < usize::MAX,
        ensures
            final(self).wf(),
            r == old(self).events@.len(),
            final(self).events@.len() == r + 1,
            final(self).ev_cnt_at(r as int) == init_cnt,
            forall|i: int| 0 <= i < r ==> final(self).events@[i] == old(self).events@[i],
            final(self).tasks@ == old(self).tasks@,
            final(self).task_tree == old(self).task_tree,
            final(self).tid == old(self).tid,
            final(self).is_set == old(self).is_set,
            final(self).pendsv_req == old(self).pendsv_req,
            final(self).sp_loops == old(self).sp_loops,
            final(self).splim_loops == old(self).splim_loops,
    {
        let r = self.events.len();
        self.events.push(MTEvent::new(init_cnt));
        r
    }

    /// Read an event's count.
    pub fn ev_cnt(&self, ev: usize) -> (r: usize)
        requires
            ev < self.events@.len(),
        ensures
            r == self.ev_cnt_at(ev as int),
    {
        self.events[ev].cnt()
    }

    /// Increment an event's count (wrapping), as an interrupt or task does
    /// when it publishes work.
    pub fn ev_incr(&mut self, ev: usize)
        requires
            old(self).wf(),
            ev < old(self).events@.len(),
        ensures
            final(self).wf(),
            old(self).ev_cnt_at(ev as int) < usize::MAX ==> final(self).ev_cnt_at(ev as int)
                == old(self).ev_cnt_at(ev as int) + 1,
            old(self).ev_cnt_at(ev as int) == usize::MAX ==> final(self).ev_cnt_at(ev as int)
                == 0,
            final(self).events@.len() == old(self).events@.len(),
            forall|i: int|
                0 <= i < old(self).events@.len() && i != ev ==> final(self).events@[i] == old(
                    self,
                ).events@[i],
            final(self).tasks@ == old(self).tasks@,
            final(self).task_tree == old(self).task_tree,
            final(self).tid == old(self).tid,
            final(self).is_set == old(self).is_set,
            final(self).pendsv_req == old(self).pendsv_req,
            final(self).sp_loops == old(self).sp_loops,
            final(self).splim_loops == old(self).splim_loops,
    {
        let mut e = self.events[ev];
        e.incr();
        self.events[ev] = e;
    }

    /// Decrement an event's count (wrapping), as a consumer does when it
    /// takes work.
    pub fn ev_decr(&mut self, ev: usize)
        requires
            old(self).wf(),
            ev < old(self).events@.len(),
        ensures
            final(self).wf(),
            old(self).ev_cnt_at(ev as int) > 0 ==> final(self).ev_cnt_at(ev as int) == old(
                self,
            ).ev_cnt_at(ev as int) - 1,
            old(self).ev_cnt_at(ev as int) == 0 ==> final(self).ev_cnt_at(ev as int)
                == usize::MAX,
            final(self).events@.len() == old(self).events@.len(),
            forall|i: int|
                0 <= i < old(self).events@.len() && i != ev ==> final(self).events@[i] == old(
                    self,
                ).events@[i],
            final(self).tasks@ == old(self).tasks@,
            final(self).task_tree == old(self).task_tree,
            final(self).tid == old(self).tid,
            final(self).is_set == old(self).is_set,
            final(self).pendsv_req == old(self).pendsv_req,
            final(self).sp_loops == old(self).sp_loops,
            final(self).splim_loops == old(self).splim_loops,
    {
        let mut e = self.events[ev];
        e.decr();
        self.events[ev] = e;
    }

    /// Atomically increment an event's count if it is positive. The shared
    /// variable's reader side acquires through this.
    pub fn ev_incr_ifgt0(&mut self, ev: usize) -> (r: bool)
        requires
            old(self).wf(),
            ev < old(self).events@.len(),
        ensures
            final(self).wf(),
            r == (old(self).ev_cnt_at(ev as int) > 0),
            r && old(self).ev_cnt_at(ev as int) < usize::MAX ==> final(self).ev_cnt_at(ev as int)
                == old(self).ev_cnt_at(ev as int) + 1,
            r && old(self).ev_cnt_at(ev as int) == usize::MAX ==> final(self).ev_cnt_at(ev as int)
                == 0,
            !r ==> final(self).events@ == old(self).events@,
            final(self).events@.len() == old(self).events@.len(),
            forall|i: int|
                0 <= i < old(self).events@.len() && i != ev ==> final(self).events@[i] == old(
                    self,
                ).events@[i],
            final(self).tasks@ == old(self).tasks@,
            final(self).task_tree == old(self).task_tree,
            final(self).tid == old(self).tid,
            final(self).is_set == old(self).is_set,
            final(self).pendsv_req == old(self).pendsv_req,
            final(self).sp_loops == old(self).sp_loops,
            final(self).splim_loops == old(self).splim_loops,
    {
        let mut e = self.events[ev];
        let r = e.incr_ifgt0();
        self.events[ev] = e;
        proof {
            if !r {
                assert(final(self).events@ =~= old(self).events@);
            }
        }
        r
    }

    /// Atomically decrement an event's count if it is exactly one. The shared
    /// variable's writer side acquires through this.
    pub fn ev_decr_if1(&mut self, ev: usize) -> (r: bool)
        requires
            old(self).wf(),
            ev < old(self).events@.len(),
        ensures
            final(self).wf(),
            r == (old(self).ev_cnt_at(ev as int) == 1),
            r ==> final(self).ev_cnt_at(ev as int) == 0,
            !r ==> final(self).events@ == old(self).events@,
            final(self).events@.len() == old(self).events@.len(),
            forall|i: int|
                0 <= i < old(self).events@.len() && i != ev ==> final(self).events@[i] == old(
                    self,
                ).events@[i],
            final(self).tasks@ == old(self).tasks@,
            final(self).task_tree == old(self).task_tree,
            final(self).tid == old(self).tid,
            final(self).is_set == old(self).is_set,
            final(self).pendsv_req == old(self).pendsv_req,
            final(self).sp_loops == old(self).sp_loops,
            final(self).splim_loops == old(self).splim_loops,
    {
        let mut e = self.events[ev];
        let r = e.decr_if1();
        self.events[ev] = e;
        proof {
            if !r {
                assert(final(self).events@ =~= old(self).events@);
            }
        }
        r
    }

    /// Request a PendSV: no-op before `run`, otherwise raises the request
    /// line that makes the switch happen.
    pub fn dispatch(&mut self)
        ensures
            final(self).pendsv_req == (old(self).pendsv_req || old(self).is_set),
            final(self).tasks@ == old(self).tasks@,
            final(self).task_tree == old(self).task_tree,
            final(self).events@ == old(self).events@,
            final(self).tid == old(self).tid,
            final(self).is_set == old(self).is_set,
            final(self).sp_loops == old(self).sp_loops,
            final(self).splim_loops == old(self).splim_loops,
    {
        if self.is_set {
            self.pendsv_req = true;
        }
    }

    /// Nudge the scheduler after mutating an event: the waiters' conditions
    /// are re-checked at the switch, so this is just a dispatch request.
    pub fn signal(&mut self, _ev: usize)
        ensures
            final(self).pendsv_req == (old(self).pendsv_req || old(self).is_set),
            final(self).tasks@ == old(self).tasks@,
            final(self).task_tree == old(self).task_tree,
            final(self).events@ == old(self).events@,
            final(self).tid == old(self).tid,
            final(self).is_set == old(self).is_set,
            final(self).sp_loops == old(self).sp_loops,
            final(self).splim_loops == old(self).splim_loops,
    {
        self.dispatch();
    }

    /// The running task's id, if a task is running.
    pub fn curr_tid(&self) -> (r: Option<MTTaskId>)
        ensures
            r == self.tid,
    {
        self.tid
    }

    /// The running task's control block, if a task is running.
    pub fn task_current(&self) -> (r: Option<MTTask>)
        requires
            self.wf(),
        ensures
            r is Some <==> self.tid is Some,
            r is Some ==> r->0 == self.tasks@[self.tid->0 as int],
    {
        match self.tid {
            Some(t) => Some(self.tasks[t as usize]),
            None => None,
        }
    }

    /// Start dispatching: set the running flag and pend the first switch.
    /// The caller then parks in its wait-for-interrupt loop; on the target
    /// this never returns.
    pub fn run(&mut self)
        requires
            old(self).wf(),
            !old(self).is_set,
        ensures
            final(self).wf(),
            final(self).is_set,
            final(self).pendsv_req,
            final(self).tasks@ == old(self).tasks@,
            final(self).task_tree == old(self).task_tree,
            final(self).events@ == old(self).events@,
            final(self).tid == old(self).tid,
            final(self).sp_loops == old(self).sp_loops,
            final(self).splim_loops == old(self).splim_loops,
    {
        self.is_set = true;
        self.dispatch();
    }

    /// Wake a task from `idle`: bump its idle/kick counter and request a
    /// switch. Callable from interrupt context; a bad task id is the caller's
    /// fatal error.
    pub fn kick(&mut self, tid: MTTaskId) -> (r: Result<(), MTErr>)
        requires
            old(self).wf(),
        ensures
            final(self).wf(),
            r is Ok <==> (tid as int) < old(self).n_tasks(),
            r is Err ==> r == Err::<(), MTErr>(MTErr::BadTaskId) && *final(self) == *old(self),
            r is Ok ==> {
                &&& (old(self).ev_cnt_at(tid as int) < usize::MAX ==> final(self).ev_cnt_at(
                    tid as int,
                ) == old(self).ev_cnt_at(tid as int) + 1)
                &&& (old(self).ev_cnt_at(tid as int) == usize::MAX ==> final(self).ev_cnt_at(
                    tid as int,
                ) == 0)
                &&& forall|i: int|
                    0 <= i < old(self).events@.len() && i != tid as int ==> final(self).events@[i] == old(self).events@[i]
                &&& final(self).events@.len() == old(self).events@.len()
                &&& final(self).pendsv_req == (old(self).pendsv_req || old(self).is_set)
                &&& final(self).tasks@ == old(self).tasks@
                &&& final(self).task_tree == old(self).task_tree
                &&& final(self).tid == old(self).tid
                &&& final(self).is_set == old(self).is_set
                &&& final(self).sp_loops == old(self).sp_loops
                &&& final(self).splim_loops == old(self).splim_loops
            },
    {
        if (tid as usize) < self.tasks.len() {
            self.ev_incr(tid as usize);
            self.dispatch();
            Ok(())
        } else {
            Err(MTErr::BadTaskId)
        }
    }

    /// Block the running task on a condition over an event, and request the
    /// switch that will take it off the CPU.
    pub fn wait(&mut self, ev: usize, evcond: MTEventCond)
        requires
            old(self).wf(),
            old(self).tid is Some,
            !(old(self).tasks@[old(self).tid->0 as int].state is Inactive),
            ev < old(self).events@.len(),
            !(evcond is Never),
        ensures
            final(self).wf(),
            final(self).tasks@ == old(self).tasks@.update(
                old(self).tid->0 as int,
                MTTask {
                    state: MTState::Waiting,
                    wait_ev: ev,
                    wait_evcond: evcond,
                    ..old(self).tasks@[old(self).tid->0 as int]
                },
            ),
            final(self).pendsv_req == (old(self).pendsv_req || old(self).is_set),
            final(self).task_tree == old(self).task_tree,
            final(self).events@ == old(self).events@,
            final(self).tid == old(self).tid,
            final(self).is_set == old(self).is_set,
            final(self).sp_loops == old(self).sp_loops,
            final(self).splim_loops == old(self).splim_loops,
    {
        let t = match self.tid {
            Some(t) => t as usize,
            None => 0,
        };
        let mut task = self.tasks[t];
        task.wait_ev = ev;
        task.wait_evcond = evcond;
        task.state = MTState::Waiting;
        self.tasks[t] = task;
        self.dispatch();
        proof {
            let k0 = *old(self);
            assert(final(self).tasks@ =~= k0.tasks@.update(
                k0.tid->0 as int,
                MTTask {
                    state: MTState::Waiting,
                    wait_ev: ev,
                    wait_evcond: evcond,
                    ..k0.tasks@[k0.tid->0 as int]
                },
            ));
            assert forall|id2: MTTaskId, key2: MTTaskPri|
                #![trigger self.task_tree.heap_has(id2, key2)]
                self.task_tree.heap_has(id2, key2) && Some(id2) != self.tid implies self.tasks@[id2
                as int].state is Ready by {
                assert(k0.task_tree.heap_has(id2, key2));
                assert(k0.task_tree.has_pair(id2, key2));
            }
            assert forall|id2: MTTaskId, key2: MTTaskPri|
                #![trigger self.task_tree.flist_has(id2, key2)]
                self.task_tree.flist_has(id2, key2) implies self.tasks@[id2 as int].state
                is Waiting by {
                assert(k0.task_tree.flist_has(id2, key2));
                assert(k0.task_tree.has_pair(id2, key2));
                assert(k0.tasks@[id2 as int].state is Waiting);
            }
            assert forall|id2: MTTaskId, key2: MTTaskPri|
                #![trigger self.task_tree.has_pair(id2, key2)]
                self.task_tree.has_pair(id2, key2) implies (id2 as int) < self.tasks@.len() by {
                assert(k0.task_tree.has_pair(id2, key2));
            }
        }
    }

    /// One pass of `idle`: consume a pending kick and keep running, or go to
    /// sleep waiting for one. The task loops over this until a kick arrives;
    /// each wake re-checks, so kicks are never lost.
    pub fn idle(&mut self) -> (r: bool)
        requires
            old(self).wf(),
            old(self).tid is Some,
            !(old(self).tasks@[old(self).tid->0 as int].state is Inactive),
        ensures
            final(self).wf(),
            r == (old(self).ev_cnt_at(old(self).tid->0 as int) != 0),
            r ==> {
                &&& final(self).ev_cnt_at(old(self).tid->0 as int) == old(self).ev_cnt_at(
                    old(self).tid->0 as int,
                ) - 1
                &&& forall|i: int|
                    0 <= i < old(self).events@.len() && i != old(self).tid->0 as int ==> final(self).events@[i] == old(self).events@[i]
                &&& final(self).events@.len() == old(self).events@.len()
                &&& final(self).tasks@ == old(self).tasks@
                &&& final(self).pendsv_req == old(self).pendsv_req
            },
            !r ==> {
                &&& final(self).tasks@ == old(self).tasks@.update(
                    old(self).tid->0 as int,
                    MTTask {
                        state: MTState::Waiting,
                        wait_ev: old(self).tid->0 as usize,
                        wait_evcond: MTEventCond::NotEqual(0),
                        ..old(self).tasks@[old(self).tid->0 as int]
                    },
                )
                &&& final(self).events@ == old(self).events@
                &&& final(self).pendsv_req == (old(self).pendsv_req || old(self).is_set)
            },
            final(self).task_tree == old(self).task_tree,
            final(self).tid == old(self).tid,
            final(self).is_set == old(self).is_set,
            final(self).sp_loops == old(self).sp_loops,
            final(self).splim_loops == old(self).splim_loops,
    {
        let t = match self.tid {
            Some(t) => t as usize,
            None => 0,
        };
        if self.ev_cnt(t) != 0 {
            self.ev_decr(t);
            true
        } else {
            self.wait(t, MTEventCond::NotEqual(0));
            false
        }
    }

    /// Mark the running task finished. The target's tasks fall into an
    /// endless loop that starts with this; the next switch removes the task
    /// from the scheduler for good.
    pub fn none(&mut self)
        requires
            old(self).wf(),
            old(self).tid is Some,
        ensures
            final(self).wf(),
            final(self).tasks@ == old(self).tasks@.update(
                old(self).tid->0 as int,
                MTTask {
                    state: MTState::Inactive,
                    ..old(self).tasks@[old(self).tid->0 as int]
                },
            ),
            final(self).pendsv_req == (old(self).pendsv_req || old(self).is_set),
            final(self).task_tree == old(self).task_tree,
            final(self).events@ == old(self).events@,
            final(self).tid == old(self).tid,
            final(self).is_set == old(self).is_set,
            final(self).sp_loops == old(self).sp_loops,
            final(self).splim_loops == old(self).splim_loops,
    {
        let t = match self.tid {
            Some(t) => t as usize,
            None => 0,
        };
        let mut task = self.tasks[t];
        task.state = MTState::Inactive;
        self.tasks[t] = task;
        self.dispatch();
        proof {
            let k0 = *old(self);
            assert(final(self).tasks@ =~= k0.tasks@.update(
                k0.tid->0 as int,
                MTTask { state: MTState::Inactive, ..k0.tasks@[k0.tid->0 as int] },
            ));
            assert(self.task_tree == k0.task_tree);
            assert forall|id2: MTTaskId, key2: MTTaskPri|
                #![trigger self.task_tree.heap_has(id2, key2)]
                self.task_tree.heap_has(id2, key2) && Some(id2) != self.tid implies self.tasks@[id2
                as int].state is Ready by {
                assert(k0.task_tree.heap_has(id2, key2));
                assert(k0.task_tree.has_pair(id2, key2));
            }
            assert forall|id2: MTTaskId, key2: MTTaskPri|
                #![trigger self.task_tree.flist_has(id2, key2)]
                self.task_tree.flist_has(id2, key2) implies self.tasks@[id2 as int].state
                is Waiting by {
                assert(k0.task_tree.flist_has(id2, key2));
                assert(k0.task_tree.has_pair(id2, key2));
                assert(k0.tasks@[id2 as int].state is Waiting);
                if id2 == k0.tid->0 {
                    // the running task heads the heap and ids are unique, so
                    // it cannot also sit in the free list
                    let j = choose|j: int|
                        k0.task_tree.n_bheap <= j < k0.task_tree.total() && k0.task_tree.array@[j]
                            == Some((id2, key2));
                    assert(k0.task_tree.id_at(j) == id2);
                    assert(k0.task_tree.id_at(0) == id2);
                }
            }
            assert forall|id2: MTTaskId, key2: MTTaskPri|
                #![trigger self.task_tree.has_pair(id2, key2)]
                self.task_tree.has_pair(id2, key2) implies (id2 as int) < self.tasks@.len() by {
                assert(k0.task_tree.has_pair(id2, key2));
            }
        }
    }

    /// Where a task's initial stack pointer lands: the closure body is copied
    /// below the stack top at its own alignment, the pointer is 8-byte
    /// aligned as the exception frame demands, and the frame is reserved
    /// below that.
    pub open spec fn spec_initial_sp(sp_end: int, closure_size: int, closure_align: int) -> int {
        spec_align_down(spec_align_down(sp_end - closure_size, closure_align), 8) - FRAME_BYTES
    }

    /// The closure body and the initial exception frame fit in the stack.
    pub open spec fn frame_fits(stack: MTRawArray, closure_size: int, closure_align: int) -> bool {
        &&& closure_size <= stack.tail_addr()
        &&& Self::spec_initial_sp(stack.tail_addr(), closure_size, closure_align) >= stack.head
    }

    /// Register a task: carve its initial frame out of the given stack and
    /// enter it `Ready` into the scheduler under its priority. Main context,
    /// before `run` only. The closure body itself lives at the top of the
    /// stack on the target; here its size and alignment drive the layout.
    pub fn register(
        &mut self,
        tid: MTTaskId,
        pri: MTTaskPri,
        stack: MTRawArray,
        closure_size: usize,
        closure_align: usize,
    ) -> (r: Result<(), MTErr>)
        requires
            old(self).wf(),
            !old(self).is_set,
            stack.wf(),
            closure_align >= 1,
        ensures
            final(self).wf(),
            r is Err ==> *final(self) == *old(self),
            (tid as int) >= old(self).n_tasks() <==> r == Err::<(), MTErr>(MTErr::BadTaskId),
            ((tid as int) < old(self).n_tasks() && !(old(self).tasks@[tid as int].state
                is Inactive)) <==> r == Err::<(), MTErr>(MTErr::DoubleRegistration),
            ((tid as int) < old(self).n_tasks() && old(self).tasks@[tid as int].state is Inactive
                && !Self::frame_fits(stack, closure_size as int, closure_align as int)) <==> r
                == Err::<(), MTErr>(MTErr::StackShortage),
            r is Ok <==> ((tid as int) < old(self).n_tasks() && old(
                self,
            ).tasks@[tid as int].state is Inactive && Self::frame_fits(
                stack,
                closure_size as int,
                closure_align as int,
            )),
            r is Ok ==> {
                &&& final(self).tasks@ == old(self).tasks@.update(
                    tid as int,
                    MTTask {
                        sp_start: stack.head,
                        sp_end: stack.tail_addr() as usize,
                        sp: Self::spec_initial_sp(
                            stack.tail_addr(),
                            closure_size as int,
                            closure_align as int,
                        ) as usize,
                        state: MTState::Ready,
                        ..old(self).tasks@[tid as int]
                    },
                )
                &&& forall|id2: MTTaskId, key2: MTTaskPri|
                    final(self).task_tree.heap_has(id2, key2) == (old(self).task_tree.heap_has(
                        id2,
                        key2,
                    ) || (id2 == tid && key2 == pri))
                &&& forall|id2: MTTaskId, key2: MTTaskPri|
                    final(self).task_tree.flist_has(id2, key2) == old(self).task_tree.flist_has(
                        id2,
                        key2,
                    )
                &&& final(self).task_tree.n_bheap == old(self).task_tree.n_bheap + 1
                &&& final(self).task_tree.n_flist == old(self).task_tree.n_flist
            },
            final(self).events@ == old(self).events@,
            final(self).tid == old(self).tid,
            final(self).is_set == old(self).is_set,
            final(self).pendsv_req == old(self).pendsv_req,
            final(self).sp_loops == old(self).sp_loops,
            final(self).splim_loops == old(self).splim_loops,
    {
        if (tid as usize) >= self.tasks.len() {
            return Err(MTErr::BadTaskId);
        }
        let ti = tid as usize;
        if !matches!(self.tasks[ti].state, MTState::Inactive) {
            return Err(MTErr::DoubleRegistration);
        }

        let sp_start = stack.head();
        let sp_end = stack.tail();

        // lay the closure body at the top of the stack, at its alignment
        if closure_size > sp_end {
            return Err(MTErr::StackShortage);
        }
        let sp1 = align_down(sp_end - closure_size, closure_align);
        // the frame wants 8-byte alignment, then its own space
        let sp2 = align_down(sp1, 8);
        if sp2 < FRAME_BYTES {
            proof {
                assert(!Self::frame_fits(stack, closure_size as int, closure_align as int));
            }
            return Err(MTErr::StackShortage);
        }
        let sp = sp2 - FRAME_BYTES;
        if sp < sp_start {
            return Err(MTErr::StackShortage);
        }

        let mut task = self.tasks[ti];
        task.sp_start = sp_start;
        task.sp_end = sp_end;
        task.sp = sp;
        task.state = MTState::Ready;
        self.tasks[ti] = task;

        proof {
            let k0 = *old(self);
            // an inactive task is in neither zone: its state would say
            // otherwise
            if k0.task_tree.in_heap(tid) {
                let key2 = choose|key2: MTTaskPri| k0.task_tree.heap_has(tid, key2);
                let j = choose|j: int|
                    0 <= j < k0.task_tree.n_bheap && k0.task_tree.array@[j] == Some((tid, key2));
                assert(k0.task_tree.id_at(j) == tid);
                assert(k0.tasks@[tid as int].state is Ready);
            }
            if k0.task_tree.in_flist(tid) {
                let key2 = choose|key2: MTTaskPri| k0.task_tree.flist_has(tid, key2);
                let j = choose|j: int|
                    k0.task_tree.n_bheap <= j < k0.task_tree.total() && k0.task_tree.array@[j]
                        == Some((tid, key2));
                assert(k0.task_tree.id_at(j) == tid);
                assert(k0.tasks@[tid as int].state is Waiting);
            }
            assert(!k0.task_tree.contains_id(tid));
            assert forall|i: int|
                0 <= i < self.task_tree.total() implies (#[trigger] self.task_tree.id_at(i))
                    < self.tasks@.len() by {
                self.task_tree.lemma_at_has(i);
                assert(k0.task_tree.has_pair(self.task_tree.id_at(i), self.task_tree.key_at(i)));
            }
            self.task_tree.lemma_capacity(self.tasks@.len() as int, tid);
        }
        self.task_tree.add_bheap(tid, pri);

        proof {
            let k0 = *old(self);
            assert(final(self).tasks@ =~= k0.tasks@.update(
                tid as int,
                MTTask {
                    sp_start: stack.head,
                    sp_end: stack.tail_addr() as usize,
                    sp: Self::spec_initial_sp(
                        stack.tail_addr(),
                        closure_size as int,
                        closure_align as int,
                    ) as usize,
                    state: MTState::Ready,
                    ..k0.tasks@[tid as int]
                },
            ));

            // the new entry and every old entry keep the state/zone agreement
            assert forall|id2: MTTaskId, key2: MTTaskPri|
                #![trigger self.task_tree.has_pair(id2, key2)]
                self.task_tree.has_pair(id2, key2) implies (id2 as int) < self.tasks@.len() by {
                if !(id2 == tid && key2 == pri) {
                    assert(k0.task_tree.has_pair(id2, key2));
                }
            }
            assert forall|id2: MTTaskId, key2: MTTaskPri|
                #![trigger self.task_tree.heap_has(id2, key2)]
                self.task_tree.heap_has(id2, key2) && Some(id2) != self.tid implies self.tasks@[id2
                as int].state is Ready by {
                if id2 == tid {
                    if key2 != pri {
                        assert(k0.task_tree.heap_has(tid, key2));
                        assert(k0.task_tree.in_heap(tid));
                    }
                } else {
                    assert(k0.task_tree.heap_has(id2, key2));
                    assert(k0.task_tree.has_pair(id2, key2));
                    assert(k0.tasks@[id2 as int].state is Ready);
                }
            }
            assert forall|id2: MTTaskId, key2: MTTaskPri|
                #![trigger self.task_tree.flist_has(id2, key2)]
                self.task_tree.flist_has(id2, key2) implies self.tasks@[id2 as int].state
                is Waiting by {
                assert(k0.task_tree.flist_has(id2, key2));
                assert(k0.task_tree.has_pair(id2, key2));
                if id2 == tid {
                    assert(k0.task_tree.in_flist(tid));
                }
                assert(k0.tasks@[id2 as int].state is Waiting);
            }
            assert forall|t: int|
                0 <= t < self.tasks@.len() && !((#[trigger] self.tasks@[t].state) is Inactive)
                    implies self.task_tree.contains_id(t as MTTaskId) by {
                if t == tid as int {
                    assert(self.task_tree.heap_has(tid, pri));
                    assert(self.task_tree.in_heap(tid));
                } else {
                    let t16 = t as MTTaskId;
                    assert(k0.task_tree.contains_id(t16));
                    if k0.task_tree.in_heap(t16) {
                        let key2 = choose|key2: MTTaskPri| k0.task_tree.heap_has(t16, key2);
                        assert(self.task_tree.heap_has(t16, key2));
                        assert(self.task_tree.in_heap(t16));
                    } else {
                        let key2 = choose|key2: MTTaskPri| k0.task_tree.flist_has(t16, key2);
                        assert(self.task_tree.flist_has(t16, key2));
                        assert(self.task_tree.in_flist(t16));
                    }
                }
            }
            assert(self.wf());
        }

        Ok(())
    }

    /// The PendSV body: the scheduling decision itself. Clears the request,
    /// restructures the scheduler around the outgoing task's state, wakes
    /// every waiting task whose condition now holds, rotates equal-priority
    /// ready tasks, and picks the highest-priority ready task — or the main
    /// loop, if none is ready. Returns the stack pointer and stack limit to
    /// restore into.
    #[verifier::rlimit(100)]
    pub fn task_switch(&mut self) -> (r: (usize, usize))
        requires
            old(self).wf(),
            old(self).is_set,
        ensures
            final(self).wf(),
            !final(self).pendsv_req,
            final(self).events@ == old(self).events@,
            final(self).is_set == old(self).is_set,
            final(self).sp_loops == old(self).sp_loops,
            final(self).splim_loops == old(self).splim_loops,
            final(self).tasks@.len() == old(self).tasks@.len(),
            // every task steps by the wake rule and keeps its other fields
            forall|t: int|
                0 <= t < old(self).tasks@.len() ==> final(self).tasks@[t] == (MTTask {
                    state: old(self).next_state_of(t),
                    ..old(self).tasks@[t]
                }),
            // the scheduler keeps exactly the entries of tasks that stay
            // scheduled: only an outgoing finished task leaves
            forall|id: MTTaskId, key: MTTaskPri|
                #![trigger final(self).task_tree.has_pair(id, key)]
                final(self).task_tree.has_pair(id, key) == (old(self).task_tree.has_pair(id, key)
                    && !(old(self).tid is Some && id == old(self).tid->0 && old(
                    self,
                ).tasks@[id as int].state is Inactive)),
            // the pick: a ready task of highest priority, or nothing
            final(self).tid is Some ==> (final(self).tid->0 as int) < old(self).tasks@.len()
                && final(self).tasks@[final(self).tid->0 as int].state is Ready
                && r == (final(self).tasks@[final(self).tid->0 as int].sp, final(self).tasks@[final(self).tid->0 as int].sp_start),
            final(self).tid is None ==> (forall|t: int|
                0 <= t < old(self).tasks@.len() ==> !((#[trigger] final(self).tasks@[t].state)
                    is Ready)) && r == (old(self).sp_loops, old(self).splim_loops),
    {
        let ghost k0 = *old(self);

        // clear the service-call request
        self.pendsv_req = false;

        // evaluate every waiting task's condition against its event, now
        let n = self.tasks.len();
        let mut promote: Vec<bool> = Vec::new();
        let mut i: usize = 0;
        while i < n
            invariant
                self.wf(),
                n == self.tasks@.len(),
                i <= n,
                promote@.len() == i,
                self.tasks@ == k0.tasks@,
                self.task_tree == k0.task_tree,
                self.events@ == k0.events@,
                self.tid == k0.tid,
                self.is_set == k0.is_set,
                self.sp_loops == k0.sp_loops,
                self.splim_loops == k0.splim_loops,
                !self.pendsv_req,
                k0.wf(),
                forall|t: int| 0 <= t < i ==> promote@[t] == k0.waiting_matched(t),
            decreases n - i,
        {
            let task = self.tasks[i];
            let m: bool = match task.state {
                MTState::Waiting => self.events[task.wait_ev].cond_matched(&task.wait_evcond),
                _ => false,
            };
            proof {
                assert(m == k0.waiting_matched(i as int));
            }
            promote.push(m);
            i = i + 1;
        }

        let ghost k1 = *self;
        let ghost cur = k0.tid;
        let ghost hd = (k0.task_tree.id_at(0), k0.task_tree.key_at(0));

        // the outgoing task leaves the structure its state asks for
        match self.tid {
            Some(t) => {
                let st = self.tasks[t as usize].state;
                match st {
                    MTState::Inactive => {
                        self.task_tree.remove_bheap_h();
                    },
                    MTState::Waiting => {
                        self.task_tree.bheap_h_to_flist_h();
                    },
                    MTState::Ready => {},
                }
            },
            None => {},
        }
        let ghost ka = *self;

        proof {
            // the running task appears exactly once, at the heap's head
            if cur is Some {
                assert forall|key2: MTTaskPri|
                    k0.task_tree.heap_has(cur->0, key2) implies key2 == hd.1 by {
                    let i2 = choose|i2: int|
                        0 <= i2 < k0.task_tree.n_bheap && k0.task_tree.array@[i2] == Some((
                            cur->0,
                            key2,
                        ));
                    assert(k0.task_tree.id_at(i2) == cur->0);
                    if i2 != 0 {
                        assert(k0.task_tree.id_at(0) != k0.task_tree.id_at(i2));
                    }
                    assert(k0.task_tree.array@[0] == Some(hd));
                }
                assert forall|key2: MTTaskPri|
                    !k0.task_tree.flist_has(cur->0, key2) by {
                    if k0.task_tree.flist_has(cur->0, key2) {
                        let j2 = choose|j2: int|
                            k0.task_tree.n_bheap <= j2 < k0.task_tree.total()
                                && k0.task_tree.array@[j2] == Some((cur->0, key2));
                        assert(k0.task_tree.id_at(j2) == cur->0);
                        assert(k0.task_tree.id_at(0) != k0.task_tree.id_at(j2));
                    }
                }
                k0.task_tree.lemma_at_has(0);
                assert(k0.task_tree.heap_has(hd.0, hd.1));
            }

            // every free-list id after the transition indexes the promote
            // vector
            assert forall|id: MTTaskId, key: MTTaskPri|
                ka.task_tree.flist_has(id, key) implies (id as int) < promote@.len() by {
                if k0.task_tree.flist_has(id, key) {
                    assert(k0.task_tree.has_pair(id, key));
                } else {
                    assert(cur is Some && (id, key) == hd);
                    assert(k0.task_tree.has_pair(hd.0, hd.1));
                }
            }
        }

        // wake every waiting task whose condition holds
        self.task_tree.flist_scan(&promote);
        let ghost kb = *self;

        let mut j: usize = 0;
        while j < n
            invariant
                j <= n,
                n == self.tasks@.len(),
                promote@.len() == n,
                self.task_tree == kb.task_tree,
                self.events@ == k0.events@,
                self.tid == k0.tid,
                self.is_set == k0.is_set,
                self.sp_loops == k0.sp_loops,
                self.splim_loops == k0.splim_loops,
                !self.pendsv_req,
                k0.wf(),
                k0.tasks@.len() == n,
                forall|t: int| 0 <= t < n ==> promote@[t] == k0.waiting_matched(t),
                forall|t: int|
                    0 <= t < j ==> self.tasks@[t] == (MTTask {
                        state: k0.next_state_of(t),
                        ..k0.tasks@[t]
                    }),
                forall|t: int| j <= t < n ==> self.tasks@[t] == k0.tasks@[t],
            decreases n - j,
        {
            if promote[j] {
                let mut tk = self.tasks[j];
                tk.state = MTState::Ready;
                self.tasks[j] = tk;
            }
            j = j + 1;
        }

        proof {
            assert forall|t: int|
                0 <= t < n implies self.tasks@[t] == (MTTask {
                    state: k0.next_state_of(t),
                    ..k0.tasks@[t]
                }) by {}

            // all heap entries now belong to ready tasks; all free-list
            // entries to still-waiting tasks; and the scheduler holds exactly
            // the entries of the tasks that stay
            assert forall|id: MTTaskId, key: MTTaskPri|
                #![trigger self.task_tree.heap_has(id, key)]
                self.task_tree.heap_has(id, key) implies (id as int) < n && self.tasks@[id
                as int].state is Ready by {
                assert(kb.task_tree.heap_has(id, key) == (ka.task_tree.heap_has(id, key) || (
                ka.task_tree.flist_has(id, key) && promote@[id as int])));
                if ka.task_tree.flist_has(id, key) && promote@[id as int] {
                    if k0.task_tree.flist_has(id, key) {
                        assert(k0.task_tree.has_pair(id, key));
                    } else {
                        assert(cur is Some && (id, key) == hd);
                    }
                    assert((id as int) < n);
                    assert(k0.waiting_matched(id as int));
                } else {
                    assert(ka.task_tree.heap_has(id, key));
                    if cur is Some && !(k0.tasks@[cur->0 as int].state is Ready) {
                        assert(ka.task_tree.heap_has(id, key) == (k0.task_tree.heap_has(id, key)
                            && !(id == hd.0 && key == hd.1)));
                        assert(k0.task_tree.heap_has(id, key));
                        assert(k0.task_tree.has_pair(id, key));
                        if id == cur->0 {
                            assert(key == hd.1);
                        }
                        assert(Some(id) != k0.tid);
                        assert(k0.tasks@[id as int].state is Ready);
                        assert(k0.next_state_of(id as int) == MTState::Ready);
                    } else {
                        assert(ka.task_tree == k0.task_tree);
                        assert(k0.task_tree.heap_has(id, key));
                        assert(k0.task_tree.has_pair(id, key));
                        if cur is Some && id == cur->0 {
                            assert(k0.tasks@[id as int].state is Ready);
                        } else {
                            assert(Some(id) != k0.tid);
                            assert(k0.tasks@[id as int].state is Ready);
                        }
                        assert(k0.next_state_of(id as int) == MTState::Ready);
                    }
                }
            }
            assert forall|id: MTTaskId, key: MTTaskPri|
                #![trigger self.task_tree.flist_has(id, key)]
                self.task_tree.flist_has(id, key) implies (id as int) < n && self.tasks@[id
                as int].state is Waiting by {
                assert(kb.task_tree.flist_has(id, key) == (ka.task_tree.flist_has(id, key)
                    && !promote@[id as int]));
                assert(ka.task_tree.flist_has(id, key));
                if k0.task_tree.flist_has(id, key) {
                    assert(k0.task_tree.has_pair(id, key));
                    assert(k0.tasks@[id as int].state is Waiting);
                } else {
                    assert(cur is Some && (id, key) == hd);
                    assert(k0.tasks@[id as int].state is Waiting);
                }
                assert(!k0.waiting_matched(id as int));
                assert(k0.next_state_of(id as int) == MTState::Waiting);
            }
            assert forall|id: MTTaskId, key: MTTaskPri|
                #![trigger self.task_tree.has_pair(id, key)]
                self.task_tree.has_pair(id, key) == (k0.task_tree.has_pair(id, key) && !(cur
                    is Some && id == cur->0 && k0.tasks@[id as int].state is Inactive)) by {
                if self.task_tree.has_pair(id, key) {
                    if self.task_tree.heap_has(id, key) {
                        assert(kb.task_tree.heap_has(id, key));
                        if ka.task_tree.heap_has(id, key) {
                            if cur is Some && !(k0.tasks@[cur->0 as int].state is Ready) {
                                assert(k0.task_tree.heap_has(id, key));
                            } else {
                                assert(k0.task_tree.heap_has(id, key));
                            }
                        } else {
                            assert(ka.task_tree.flist_has(id, key));
                            if !k0.task_tree.flist_has(id, key) {
                                assert(cur is Some && (id, key) == hd);
                            }
                        }
                    } else {
                        assert(self.task_tree.flist_has(id, key));
                        assert(ka.task_tree.flist_has(id, key));
                        if !k0.task_tree.flist_has(id, key) {
                            assert(cur is Some && (id, key) == hd);
                        }
                    }
                    assert(k0.task_tree.has_pair(id, key));
                    if cur is Some && id == cur->0 && k0.tasks@[id as int].state is Inactive {
                        // a finished outgoing task was removed, and its id
                        // appears nowhere else
                        assert(key == hd.1);
                        assert(!(k0.tasks@[cur->0 as int].state is Ready));
                        assert(ka.task_tree.heap_has(id, key) == (k0.task_tree.heap_has(id, key)
                            && !(id == hd.0 && key == hd.1)));
                        assert(!ka.task_tree.heap_has(id, key));
                        if k0.tasks@[cur->0 as int].state is Inactive {
                            assert(ka.task_tree.flist_has(id, key) == k0.task_tree.flist_has(
                                id,
                                key,
                            ));
                            assert(!ka.task_tree.flist_has(id, key));
                            assert(!kb.task_tree.heap_has(id, key));
                            assert(!self.task_tree.has_pair(id, key));
                        }
                    }
                }
                if k0.task_tree.has_pair(id, key) && !(cur is Some && id == cur->0 && k0.tasks@[id
                as int].state is Inactive) {
                    if k0.task_tree.heap_has(id, key) {
                        if cur is Some && id == cur->0 {
                            assert(key == hd.1);
                            if k0.tasks@[cur->0 as int].state is Ready {
                                assert(ka.task_tree.heap_has(id, key));
                                assert(kb.task_tree.heap_has(id, key));
                            } else {
                                assert(k0.tasks@[cur->0 as int].state is Waiting);
                                assert(ka.task_tree.flist_has(hd.0, hd.1));
                                if promote@[id as int] {
                                    assert(kb.task_tree.heap_has(id, key));
                                } else {
                                    assert(kb.task_tree.flist_has(id, key));
                                }
                            }
                        } else {
                            assert(ka.task_tree.heap_has(id, key));
                            assert(kb.task_tree.heap_has(id, key));
                        }
                    } else {
                        assert(k0.task_tree.flist_has(id, key));
                        if cur is Some && id == cur->0 {
                            assert(false);
                        }
                        assert(ka.task_tree.flist_has(id, key));
                        if promote@[id as int] {
                            assert(kb.task_tree.heap_has(id, key));
                        } else {
                            assert(kb.task_tree.flist_has(id, key));
                        }
                    }
                    assert(self.task_tree.has_pair(id, key));
                }
            }
            // a task that stays ready stays in the heap
            assert forall|t: int|
                0 <= t < n && self.tasks@[t].state is Ready implies self.task_tree.in_heap(
                (t as MTTaskId),
            ) by {
                let t16 = t as MTTaskId;
                assert(!(k0.tasks@[t].state is Inactive));
                assert(k0.task_tree.contains_id(t16));
                if k0.task_tree.in_heap(t16) {
                    let key = choose|key: MTTaskPri| k0.task_tree.heap_has(t16, key);
                    assert(k0.task_tree.has_pair(t16, key));
                    if cur is Some && t16 == cur->0 {
                        assert(key == hd.1);
                        if k0.tasks@[t].state is Ready {
                            assert(ka.task_tree.heap_has(t16, key));
                            assert(kb.task_tree.heap_has(t16, key));
                        } else {
                            assert(k0.tasks@[t].state is Waiting);
                            assert(k0.waiting_matched(t));
                            assert(ka.task_tree.flist_has(t16, key));
                            assert(kb.task_tree.heap_has(t16, key));
                        }
                    } else {
                        assert(Some(t16) != k0.tid);
                        assert(k0.tasks@[t].state is Ready);
                        assert(ka.task_tree.heap_has(t16, key));
                        assert(kb.task_tree.heap_has(t16, key));
                    }
                } else {
                    let key = choose|key: MTTaskPri| k0.task_tree.flist_has(t16, key);
                    assert(k0.task_tree.has_pair(t16, key));
                    assert(k0.tasks@[t].state is Waiting);
                    assert(k0.waiting_matched(t));
                    if cur is Some && t16 == cur->0 {
                        assert(false);
                    }
                    assert(ka.task_tree.flist_has(t16, key));
                    assert(kb.task_tree.heap_has(t16, key));
                }
                assert(self.task_tree.in_heap(t16));
            }
        }

        // round robin among equal priorities: rotate the ready head
        match self.tid {
            Some(t) => {
                let st2 = self.tasks[t as usize].state;
                if matches!(st2, MTState::Ready) {
                    proof {
                        assert(self.tasks@[t as int].state is Ready);
                        assert(self.task_tree.in_heap(t));
                        let key = choose|key: MTTaskPri| self.task_tree.heap_has(t, key);
                        let i2 = choose|i2: int|
                            0 <= i2 < self.task_tree.n_bheap && self.task_tree.array@[i2] == Some(
                                (t, key),
                            );
                        assert(self.task_tree.n_bheap > 0);
                    }
                    self.task_tree.round_bheap_h();
                }
            },
            None => {},
        }

        proof {
            // the rotation permutes nothing at the level the invariant sees
            assert forall|id: MTTaskId, key: MTTaskPri|
                #![trigger self.task_tree.heap_has(id, key)]
                self.task_tree.heap_has(id, key) implies (id as int) < n && self.tasks@[id
                as int].state is Ready by {
                assert(kb.task_tree.heap_has(id, key));
            }
            assert forall|id: MTTaskId, key: MTTaskPri|
                #![trigger self.task_tree.flist_has(id, key)]
                self.task_tree.flist_has(id, key) implies (id as int) < n && self.tasks@[id
                as int].state is Waiting by {
                assert(kb.task_tree.flist_has(id, key));
            }
            assert forall|t: int|
                0 <= t < n && self.tasks@[t].state is Ready implies self.task_tree.in_heap(
                (t as MTTaskId),
            ) by {
                let t16 = t as MTTaskId;
                assert(kb.task_tree.in_heap(t16));
                let key = choose|key: MTTaskPri| kb.task_tree.heap_has(t16, key);
                assert(self.task_tree.heap_has(t16, key));
                assert(self.task_tree.in_heap(t16));
            }
            assert forall|t: int|
                0 <= t < n && !((#[trigger] self.tasks@[t].state) is Inactive)
                    implies self.task_tree.contains_id(t as MTTaskId) by {
                let t16 = t as MTTaskId;
                if self.tasks@[t].state is Ready {
                    assert(self.task_tree.in_heap(t16));
                } else {
                    assert(self.tasks@[t].state is Waiting);
                    assert(!k0.waiting_matched(t));
                    assert(k0.tasks@[t].state is Waiting);
                    assert(k0.task_tree.contains_id(t16));
                    if k0.task_tree.in_heap(t16) {
                        let key = choose|key: MTTaskPri| k0.task_tree.heap_has(t16, key);
                        assert(k0.task_tree.has_pair(t16, key));
                        if cur is Some && t16 == cur->0 {
                            assert(key == hd.1);
                            assert(ka.task_tree.flist_has(t16, key));
                            assert(kb.task_tree.flist_has(t16, key));
                            assert(self.task_tree.flist_has(t16, key));
                            assert(self.task_tree.in_flist(t16));
                        } else {
                            assert(Some(t16) != k0.tid);
                            assert(k0.tasks@[t].state is Ready);
                        }
                    } else {
                        let key = choose|key: MTTaskPri| k0.task_tree.flist_has(t16, key);
                        assert(k0.task_tree.has_pair(t16, key));
                        if cur is Some && t16 == cur->0 {
                            assert(false);
                        }
                        assert(ka.task_tree.flist_has(t16, key));
                        assert(kb.task_tree.flist_has(t16, key));
                        assert(self.task_tree.flist_has(t16, key));
                        assert(self.task_tree.in_flist(t16));
                    }
                }
            }
        }

        // pick the highest-priority ready task, or fall back to the main loop
        let head = self.task_tree.bheap_h();
        match head {
            Some(t2) => {
                proof {
                    self.task_tree.lemma_at_has(0);
                    assert(self.task_tree.heap_has(t2, self.task_tree.key_at(0)));
                }
                self.tid = Some(t2);
                let ti2 = t2 as usize;
                (self.tasks[ti2].sp, self.tasks[ti2].sp_start)
            },
            None => {
                self.tid = None;
                proof {
                    assert forall|t: int|
                        0 <= t < n implies !((#[trigger] self.tasks@[t].state) is Ready) by {
                        if self.tasks@[t].state is Ready {
                            let t16 = t as MTTaskId;
                            assert(self.task_tree.in_heap(t16));
                            let key = choose|key: MTTaskPri| self.task_tree.heap_has(t16, key);
                            let i2 = choose|i2: int|
                                0 <= i2 < self.task_tree.n_bheap && self.task_tree.array@[i2]
                                    == Some((t16, key));
                        }
                    }
                }
                (self.sp_loops, self.splim_loops)
            },
        }
    }

    /// The context-save hook, run on PendSV entry: bounds-check and record
    /// the outgoing task's stack pointer, and hand back the main loop's stack
    /// so the rest of the switch runs on it. A stack pointer outside the
    /// task's stack is the fatal stack-shortage trap, caught here before
    /// anything is overwritten.
    pub fn save_sp(&mut self, curr_sp: usize, curr_splim: usize) -> (r: Result<
        (usize, usize),
        MTErr,
    >)
        requires
            old(self).wf(),
        ensures
            final(self).wf(),
            old(self).tid is Some ==> {
                let t = old(self).tid->0 as int;
                &&& (r is Ok <==> old(self).tasks@[t].sp_start <= curr_sp <= old(
                    self,
                ).tasks@[t].sp_end)
                &&& (r is Ok ==> r->Ok_0 == (old(self).sp_loops, old(self).splim_loops)
                    && final(self).tasks@ == old(self).tasks@.update(
                    t,
                    MTTask { sp: curr_sp, ..old(self).tasks@[t] },
                ) && final(self).sp_loops == old(self).sp_loops && final(self).splim_loops == old(
                    self,
                ).splim_loops)
                &&& (r is Err ==> r == Err::<(usize, usize), MTErr>(MTErr::StackShortage)
                    && *final(self) == *old(self))
            },
            old(self).tid is None ==> r == Ok::<(usize, usize), MTErr>((curr_sp, curr_splim))
                && final(self).tasks@ == old(self).tasks@ && final(self).sp_loops == curr_sp
                && final(self).splim_loops == curr_splim,
            final(self).task_tree == old(self).task_tree,
            final(self).events@ == old(self).events@,
            final(self).tid == old(self).tid,
            final(self).is_set == old(self).is_set,
            final(self).pendsv_req == old(self).pendsv_req,
    {
        match self.tid {
            Some(t) => {
                let ti = t as usize;
                if self.tasks[ti].sp_start <= curr_sp && curr_sp <= self.tasks[ti].sp_end {
                    let mut task = self.tasks[ti];
                    task.sp = curr_sp;
                    self.tasks[ti] = task;
                    proof {
                        let k0 = *old(self);
                        assert(final(self).tasks@ =~= k0.tasks@.update(
                            k0.tid->0 as int,
                            MTTask { sp: curr_sp, ..k0.tasks@[k0.tid->0 as int] },
                        ));
                        assert forall|id2: MTTaskId, key2: MTTaskPri|
                            #![trigger self.task_tree.heap_has(id2, key2)]
                            self.task_tree.heap_has(id2, key2) && Some(id2) != self.tid
                            implies self.tasks@[id2 as int].state is Ready by {
                            assert(k0.task_tree.heap_has(id2, key2));
                            assert(k0.task_tree.has_pair(id2, key2));
                        }
                        assert forall|id2: MTTaskId, key2: MTTaskPri|
                            #![trigger self.task_tree.flist_has(id2, key2)]
                            self.task_tree.flist_has(id2, key2) implies self.tasks@[id2
                            as int].state is Waiting by {
                            assert(k0.task_tree.flist_has(id2, key2));
                            assert(k0.task_tree.has_pair(id2, key2));
                        }
                        assert forall|id2: MTTaskId, key2: MTTaskPri|
                            #![trigger self.task_tree.has_pair(id2, key2)]
                            self.task_tree.has_pair(id2, key2) implies (id2 as int)
                            < self.tasks@.len() by {
                            assert(k0.task_tree.has_pair(id2, key2));
                        }
                    }
                    Ok((self.sp_loops, self.splim_loops))
                } else {
                    Err(MTErr::StackShortage)
                }
            },
            None => {
                self.sp_loops = curr_sp;
                self.splim_loops = curr_splim;
                Ok((curr_sp, curr_splim))
            },
        }
    }
}

} // verus!
