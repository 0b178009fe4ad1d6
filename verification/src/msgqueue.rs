//! The bounded single-producer/single-consumer message queue: a circular
//! buffer whose occupancy lives in one kernel event counter, so that a full
//! producer and an empty consumer can block on the counter and every
//! mutation of it re-checks the waiters. Send and receive are written as one
//! blocking step each: the caller retries after it is scheduled again, which
//! is exactly the shape the scheduler's level-triggered waits give tasks on
//! the target.

use vstd::prelude::*;

use crate::event::MTEventCond;
use crate::kernel::{MTKernel, MTTask, MTState};

verus! {

/// `x + 1` wrapped into `[0, bound)`.
pub open spec fn spec_wrap_inc(x: int, bound: int) -> int {
    if x + 1 < bound {
        x + 1
    } else {
        0
    }
}

/// The ring distance from `y` up to `x` in `[0, bound)`.
pub open spec fn spec_wrap_diff(x: int, y: int, bound: int) -> int {
    if x >= y {
        x - y
    } else {
        x + bound - y
    }
}

/// Advance a ring index.
pub fn wrap_inc(x: usize, bound: usize) -> (r: usize)
    requires
        x < bound,
    ensures
        r == spec_wrap_inc(x as int, bound as int),
        r < bound,
{
    let y = x + 1;
    if y < bound {
        y
    } else {
        0
    }
}

/// Ring distance from `y` up to `x`.
pub fn wrap_diff(x: usize, y: usize, bound: usize) -> (r: usize)
    requires
        x < bound,
        y < bound,
    ensures
        r == spec_wrap_diff(x as int, y as int, bound as int),
        r < bound,
{
    if x >= y {
        x - y
    } else {
        x + (bound - y)
    }
}

/// Message queue for task-to-task communication. The buffer slot count is
/// the capacity; `msg_cnt` — the event at `cnt_ev` in the kernel's table —
/// always holds the number of messages buffered.
pub struct MTMsgQueue<M> {
    /// Circular buffer; occupied slots hold messages.
    pub buf: Vec<Option<M>>,
    /// Next slot to write.
    pub wr_idx: usize,
    /// Next slot to read.
    pub rd_idx: usize,
    /// Kernel event table index of the queue's occupancy counter.
    pub cnt_ev: usize,
}

/// Message sending channel: the producer's half of a queue.
pub struct MTMsgSender {
    /// The channels carry no state of their own; they name the two roles of
    /// the one queue they were made from.
    pub role: (),
}

/// Message receiving channel: the consumer's half of a queue.
pub struct MTMsgReceiver {
    /// See `MTMsgSender::role`.
    pub role: (),
}

impl<M> MTMsgQueue<M> {
    /// Capacity of the queue.
    pub open spec fn capacity(self) -> int {
        self.buf@.len() as int
    }

    /// Buffered message count: the queue's event counter.
    pub open spec fn cnt(self, k: MTKernel) -> int {
        k.ev_cnt_at(self.cnt_ev as int) as int
    }

    /// The buffer slot holding the `i`-th buffered message, counting from the
    /// read side.
    pub open spec fn slot_of(self, i: int) -> int {
        if self.rd_idx + i < self.capacity() {
            self.rd_idx + i
        } else {
            self.rd_idx + i - self.capacity()
        }
    }

    /// The buffered messages, oldest first.
    pub open spec fn contents(self, k: MTKernel) -> Seq<M> {
        Seq::new(self.cnt(k) as nat, |i: int| self.buf@[self.slot_of(i)]->0)
    }

    /// The queue's invariant against the kernel holding its counter: indices
    /// in range, the count between zero and the capacity and congruent to the
    /// index distance, and exactly the slots within the count occupied.
    pub open spec fn wf(self, k: MTKernel) -> bool {
        &&& self.buf@.len() >= 1
        &&& self.wr_idx < self.buf@.len()
        &&& self.rd_idx < self.buf@.len()
        &&& self.cnt_ev < k.events@.len()
        &&& k.tasks@.len() <= self.cnt_ev
        &&& 0 <= self.cnt(k) <= self.capacity()
        &&& (self.cnt(k) < self.capacity() ==> self.cnt(k) == spec_wrap_diff(
            self.wr_idx as int,
            self.rd_idx as int,
            self.capacity(),
        ))
        &&& (self.cnt(k) == self.capacity() ==> self.wr_idx == self.rd_idx)
        &&& forall|j: int|
            0 <= j < self.capacity() ==> ((#[trigger] self.buf@[j]) is Some <==> spec_wrap_diff(
                j,
                self.rd_idx as int,
                self.capacity(),
            ) < self.cnt(k))
    }

    /// Law: the occupancy counter sits between zero and the capacity and
    /// equals the number of buffered messages, which is the ring distance
    /// from the read index to the write index (ambiguous only when full,
    /// where the indices coincide).
    pub proof fn lemma_queue_count(self, k: MTKernel)
        requires
            self.wf(k),
        ensures
            0 <= self.cnt(k) <= self.capacity(),
            self.cnt(k) == self.contents(k).len(),
            self.cnt(k) < self.capacity() ==> self.cnt(k) == spec_wrap_diff(
                self.wr_idx as int,
                self.rd_idx as int,
                self.capacity(),
            ),
            self.cnt(k) == self.capacity() ==> self.wr_idx == self.rd_idx,
    {
    }

    /// A fresh queue of capacity `len`, with its counter freshly allocated in
    /// the kernel's event table.
    pub fn new(k: &mut MTKernel, len: usize) -> (r: MTMsgQueue<M>)
        requires
            old(k).wf(),
            len >= 1,
            old(k).events@.len() < usize::MAX,
        ensures
            final(k).wf(),
            r.wf(*final(k)),
            r.capacity() == len,
            r.cnt(*final(k)) == 0,
            r.contents(*final(k)) =~= Seq::<M>::empty(),
            r.cnt_ev == old(k).events@.len(),
            final(k).events@.len() == old(k).events@.len() + 1,
            forall|i: int| 0 <= i < r.cnt_ev ==> final(k).events@[i] == old(k).events@[i],
            final(k).tasks@ == old(k).tasks@,
            final(k).task_tree == old(k).task_tree,
            final(k).tid == old(k).tid,
            final(k).is_set == old(k).is_set,
            final(k).pendsv_req == old(k).pendsv_req,
    {
        let cnt_ev = k.alloc_event(0);
        let mut buf: Vec<Option<M>> = Vec::new();
        let mut i: usize = 0;
        while i < len
            invariant
                i <= len,
                buf@.len() == i,
                forall|j: int| 0 <= j < i ==> (#[trigger] buf@[j]) is None,
            decreases len - i,
        {
            buf.push(None);
            i = i + 1;
        }
        MTMsgQueue { buf, wr_idx: 0, rd_idx: 0, cnt_ev }
    }

    /// The two channels of the queue: its producer and its consumer role for
    /// the one queue both were made from. The queue itself is untouched.
    pub fn ch(&mut self) -> (r: (MTMsgSender, MTMsgReceiver))
        ensures
            *final(self) == *old(self),
    {
        (MTMsgSender { role: () }, MTMsgReceiver { role: () })
    }
}

impl MTMsgSender {
    /// Number of vacant message slots; advisory only.
    pub fn vacant<M>(&self, q: &MTMsgQueue<M>, k: &MTKernel) -> (r: usize)
        requires
            q.wf(*k),
        ensures
            r == q.capacity() - q.cnt(*k),
    {
        q.buf.len() - k.ev_cnt(q.cnt_ev)
    }

    /// One blocking step of a send. With room in the queue the message goes
    /// into the write slot, the count rises and the waiters are nudged; with
    /// the queue full the calling task blocks until the count drops and gets
    /// the message back to retry with.
    pub fn send<M>(&self, q: &mut MTMsgQueue<M>, k: &mut MTKernel, msg: M) -> (r: Option<M>)
        requires
            old(q).wf(*old(k)),
            old(k).wf(),
            old(k).tid is Some,
            !(old(k).tasks@[old(k).tid->0 as int].state is Inactive),
        ensures
            final(k).wf(),
            final(q).wf(*final(k)),
            final(q).cnt_ev == old(q).cnt_ev,
            final(q).capacity() == old(q).capacity(),
            r is Some <==> old(q).cnt(*old(k)) == old(q).capacity(),
            r is Some ==> {
                &&& r->0 == msg
                &&& *final(q) == *old(q)
                &&& final(q).contents(*final(k)) == old(q).contents(*old(k))
                &&& final(k).tasks@ == old(k).tasks@.update(
                    old(k).tid->0 as int,
                    MTTask {
                        state: MTState::Waiting,
                        wait_ev: old(q).cnt_ev,
                        wait_evcond: MTEventCond::LessThan(old(q).buf@.len() as usize),
                        ..old(k).tasks@[old(k).tid->0 as int]
                    },
                )
                &&& final(k).events@ == old(k).events@
            },
            r is None ==> {
                &&& final(q).contents(*final(k)) =~= old(q).contents(*old(k)).push(msg)
                &&& final(q).cnt(*final(k)) == old(q).cnt(*old(k)) + 1
                &&& final(q).rd_idx == old(q).rd_idx
                &&& final(k).tasks@ == old(k).tasks@
                &&& forall|i: int|
                    0 <= i < old(k).events@.len() && i != old(q).cnt_ev ==> final(k).events@[i] == old(k).events@[i]
            },
            final(k).task_tree == old(k).task_tree,
            final(k).tid == old(k).tid,
            final(k).is_set == old(k).is_set,
            final(k).pendsv_req == (old(k).pendsv_req || old(k).is_set),
            final(k).sp_loops == old(k).sp_loops,
            final(k).splim_loops == old(k).splim_loops,
            final(k).events@.len() == old(k).events@.len(),
    {
        let cap = q.buf.len();
        let cnt = k.ev_cnt(q.cnt_ev);
        if cnt >= cap {
            k.wait(q.cnt_ev, MTEventCond::LessThan(cap));
            Some(msg)
        } else {
            let ghost q0 = *q;
            let ghost k0 = *old(k);
            let wi = q.wr_idx;
            q.buf[wi] = Some(msg);
            q.wr_idx = wrap_inc(wi, cap);
            k.ev_incr(q.cnt_ev);
            k.signal(q.cnt_ev);
            proof {
                let capi = cap as int;
                let c0 = q0.cnt(k0);
                assert(c0 == spec_wrap_diff(q0.wr_idx as int, q0.rd_idx as int, capi));
                assert(send_slots_ok(q0, *q, k0, *final(k), msg));
            }
            None
        }
    }
}

/// The slot bookkeeping of a successful send: the written slot is exactly
/// the one at ring distance `cnt` from the read index, so the occupancy
/// pattern advances by one and the contents gain `msg` at the tail.
spec fn send_slots_ok<M>(
    q0: MTMsgQueue<M>,
    q1: MTMsgQueue<M>,
    k0: MTKernel,
    k1: MTKernel,
    msg: M,
) -> bool {
    &&& q1.wf(k1)
    &&& q1.contents(k1) =~= q0.contents(k0).push(msg)
}

impl MTMsgReceiver {
    /// Number of buffered messages; advisory only.
    pub fn available<M>(&self, q: &MTMsgQueue<M>, k: &MTKernel) -> (r: usize)
        requires
            q.wf(*k),
        ensures
            r == q.cnt(*k),
    {
        k.ev_cnt(q.cnt_ev)
    }

    /// One blocking step of a receive. With a message buffered the oldest one
    /// comes out, the count drops and the waiters are nudged; with the queue
    /// empty the calling task blocks until the count rises.
    pub fn receive<M>(&self, q: &mut MTMsgQueue<M>, k: &mut MTKernel) -> (r: Option<M>)
        requires
            old(q).wf(*old(k)),
            old(k).wf(),
            old(k).tid is Some,
            !(old(k).tasks@[old(k).tid->0 as int].state is Inactive),
        ensures
            final(k).wf(),
            final(q).wf(*final(k)),
            final(q).cnt_ev == old(q).cnt_ev,
            final(q).capacity() == old(q).capacity(),
            r is Some <==> old(q).cnt(*old(k)) > 0,
            r is Some ==> {
                &&& r->0 == old(q).contents(*old(k))[0]
                &&& final(q).contents(*final(k)) =~= old(q).contents(*old(k)).subrange(
                    1,
                    old(q).cnt(*old(k)),
                )
                &&& final(q).cnt(*final(k)) == old(q).cnt(*old(k)) - 1
                &&& final(q).wr_idx == old(q).wr_idx
                &&& final(k).tasks@ == old(k).tasks@
                &&& forall|i: int|
                    0 <= i < old(k).events@.len() && i != old(q).cnt_ev ==> final(k).events@[i] == old(k).events@[i]
            },
            r is None ==> {
                &&& *final(q) == *old(q)
                &&& final(q).contents(*final(k)) == old(q).contents(*old(k))
                &&& final(k).tasks@ == old(k).tasks@.update(
                    old(k).tid->0 as int,
                    MTTask {
                        state: MTState::Waiting,
                        wait_ev: old(q).cnt_ev,
                        wait_evcond: MTEventCond::GreaterThan(0),
                        ..old(k).tasks@[old(k).tid->0 as int]
                    },
                )
                &&& final(k).events@ == old(k).events@
            },
            final(k).task_tree == old(k).task_tree,
            final(k).tid == old(k).tid,
            final(k).is_set == old(k).is_set,
            final(k).pendsv_req == (old(k).pendsv_req || old(k).is_set),
            final(k).sp_loops == old(k).sp_loops,
            final(k).splim_loops == old(k).splim_loops,
            final(k).events@.len() == old(k).events@.len(),
    {
        let cnt = k.ev_cnt(q.cnt_ev);
        if cnt == 0 {
            k.wait(q.cnt_ev, MTEventCond::GreaterThan(0));
            None
        } else {
            let ghost q0 = *q;
            let ghost k0 = *old(k);
            let cap = q.buf.len();
            let ri = q.rd_idx;
            proof {
                assert(spec_wrap_diff(ri as int, q0.rd_idx as int, cap as int) == 0);
                assert(q0.buf@[ri as int] is Some);
            }
            let msg = q.buf[ri].take();
            q.rd_idx = wrap_inc(ri, cap);
            k.ev_decr(q.cnt_ev);
            k.signal(q.cnt_ev);
            proof {
                assert(receive_slots_ok(q0, *q, k0, *final(k)));
            }
            Some(msg.unwrap())
        }
    }
}

/// The slot bookkeeping of a successful receive: clearing the read slot and
/// advancing the read index drops exactly the head of the contents.
spec fn receive_slots_ok<M>(
    q0: MTMsgQueue<M>,
    q1: MTMsgQueue<M>,
    k0: MTKernel,
    k1: MTKernel,
) -> bool {
    &&& q1.wf(k1)
    &&& q1.contents(k1) =~= q0.contents(k0).subrange(1, q0.cnt(k0))
}

} // verus!
