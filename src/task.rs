//! Per-task records: status, saved context, address space, timing and syscall counts.
use vstd::prelude::*;

use crate::config::MAX_SYSCALL_NUM;
use crate::memory_set::MemorySet;

verus! {

/// Scheduling state of a task. `Exited` is terminal.
#[derive(Clone, Copy, Debug, PartialEq, Eq, Structural)]
pub enum TaskStatus {
    Ready,
    Running,
    Exited,
}

/// Registers saved across a switch: return address, stack pointer and the
/// callee-saved registers.
#[derive(Clone, Copy, Debug)]
pub struct TaskContext {
    pub ra: usize,
    pub sp: usize,
    pub s: [usize; 12],
}

impl TaskContext {
    /// A context with every register zero.
    pub fn zero_init() -> (r: TaskContext)
        ensures
            r.ra == 0,
            r.sp == 0,
            forall|i: int| 0 <= i < 12 ==> r.s@[i] == 0,
    {
        TaskContext { ra: 0, sp: 0, s: [0usize; 12] }
    }
}

/// Bookkeeping of one task.
pub struct TaskControlBlock {
    pub task_status: TaskStatus,
    pub task_cx: TaskContext,
    pub memory_set: MemorySet,
    pub trap_cx_ppn: usize,
    pub start_time: Option<usize>,
    pub syscall_times: Vec<u32>,
}

impl TaskControlBlock {
    /// The histogram has one counter per recognised syscall id.
    pub open spec fn wf(&self) -> bool {
        self.syscall_times@.len() == MAX_SYSCALL_NUM
    }

    /// A task that is ready to run in `memory_set`, not dispatched yet, with no
    /// syscall counted.
    pub fn new(memory_set: MemorySet, trap_cx_ppn: usize, task_cx: TaskContext) -> (r: TaskControlBlock)
        ensures
            r.wf(),
            r.task_status == TaskStatus::Ready,
            r.task_cx == task_cx,
            r.memory_set == memory_set,
            r.trap_cx_ppn == trap_cx_ppn,
            r.start_time.is_none(),
            forall|i: int| 0 <= i < MAX_SYSCALL_NUM ==> r.syscall_times@[i] == 0,
    {
        let mut syscall_times: Vec<u32> = Vec::new();
        let mut i: usize = 0;
        while i < MAX_SYSCALL_NUM
            invariant
                i <= MAX_SYSCALL_NUM,
                syscall_times@.len() == i,
                forall|k: int| 0 <= k < i ==> syscall_times@[k] == 0,
            decreases MAX_SYSCALL_NUM - i,
        {
            syscall_times.push(0);
            i = i + 1;
        }
        TaskControlBlock {
            task_status: TaskStatus::Ready,
            task_cx,
            memory_set,
            trap_cx_ppn,
            start_time: None,
            syscall_times,
        }
    }

    /// Identifier of the task's address-space root.
    pub fn get_user_token(&self) -> (r: usize)
        ensures
            r == self.memory_set.spec_token(),
    {
        self.memory_set.token()
    }

    /// Physical page of the task's trap context.
    pub fn get_trap_cx(&self) -> (r: usize)
        ensures
            r == self.trap_cx_ppn,
    {
        self.trap_cx_ppn
    }
}

} // verus!
