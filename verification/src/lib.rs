//! A minimal priority-preemptive multitasking kernel model for single-core
//! Cortex-M microcontrollers: a fixed set of tasks scheduled by priority with
//! round-robin among equals, synchronous idle/kick wake-up, bounded
//! single-producer/single-consumer message queues, and a readers/writer shared
//! variable, all carved out of one caller-supplied memory block.
//!
//! The hardware edge (the PendSV trampoline, WFI, the exclusive-access
//! instructions) lives outside this crate; here the scheduler state machine,
//! the ready-heap/free-list structure, the event counters and the blocking
//! protocols are plain data with proved contracts, driven by a host loop that
//! stands in for the exception machinery.

use vstd::prelude::*;

mod bheap;
mod event;
mod kernel;
mod memory;
mod minimult;
mod msgqueue;
mod shared;

pub use crate::bheap::MTBHeapDList;
pub use crate::event::{MTEvent, MTEventCond};
pub use crate::kernel::{initial_frame, MTKernel, MTState, MTTask, FRAME_BYTES, FRAME_EXC_RETURN, FRAME_LR, FRAME_R0, FRAME_RET_ADDR, FRAME_XPSR};
pub use crate::memory::{align_down, align_up, MTAlloc, MTMemBlk, MTRawArray};
pub use crate::minimult::Minimult;
pub use crate::msgqueue::{wrap_diff, wrap_inc, MTMsgQueue, MTMsgReceiver, MTMsgSender};
pub use crate::shared::{MTShared, MTSharedCh, MTSharedLook, MTSharedTouch};

verus! {

/// Task identifier
pub type MTTaskId = u16;

/// Task priority; a smaller value is a higher priority
pub type MTTaskPri = u8;

/// The fatal conditions of the kernel. The target build has no one to report
/// them to and traps instead; here they surface as values with exact
/// contracts, and the embedding around the kernel decides how to die.
#[derive(Clone, Copy, Debug, PartialEq, Eq, Structural)]
pub enum MTErr {
    /// A task id at or beyond the number of tasks.
    BadTaskId,
    /// A second registration for an already registered task id.
    DoubleRegistration,
    /// A stack too small for its task, at registration or at a context save.
    StackShortage,
    /// The memory block cannot fit a requested array.
    MemShortage,
}

} // verus!
