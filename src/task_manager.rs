//! The task manager: a fixed set of tasks, round-robin dispatch, and the
//! per-task bookkeeping and address-space syscalls of the running task.
use vstd::prelude::*;

use crate::config::{MAX_SYSCALL_NUM, PAGE_SIZE};
use crate::frame_allocator::{backs, PhysMemory, StackFrameAllocator};
use crate::memory_set::{port_flags, valid_port, MapPermission, MemorySet};
use crate::task::{TaskContext, TaskControlBlock, TaskStatus};

verus! {

/// A syscall counter after one more call; it wraps at its maximum.
pub open spec fn counter_inc(v: u32) -> u32 {
    if v == u32::MAX {
        0
    } else {
        (v + 1) as u32
    }
}

/// Index of the task `k` places after `cur` in a ring of `n` tasks.
pub open spec fn ring_slot(cur: int, k: int, n: int) -> int {
    if cur + k < n {
        cur + k
    } else {
        cur + k - n
    }
}

/// First virtual page of a range that starts at address `start`.
pub open spec fn vpn_floor(start: usize) -> int {
    start as int / PAGE_SIZE as int
}

/// Virtual page just past a range that ends at address `end`.
pub open spec fn vpn_ceil(end: int) -> int {
    if end % PAGE_SIZE as int == 0 {
        end / PAGE_SIZE as int
    } else {
        end / PAGE_SIZE as int + 1
    }
}

/// `start` is the first address of a page.
pub open spec fn page_aligned(start: usize) -> bool {
    start % PAGE_SIZE == 0
}

/// `mmap(start, len, port)` in address space `ms` with allocator `fa` is
/// accepted: the start is aligned, the permission bits are usable, the range
/// fits in the address width, no page of it is mapped yet, and there are
/// frames for all of it.
pub open spec fn mmap_accepted(ms: MemorySet, fa: StackFrameAllocator, start: usize, len: usize, port: usize) -> bool {
    &&& page_aligned(start)
    &&& valid_port(port)
    &&& start + len <= usize::MAX
    &&& forall|v: usize| vpn_floor(start) <= v < vpn_ceil(start + len) ==> !#[trigger] ms.is_mapped(v)
    &&& fa.available() >= vpn_ceil(start + len) - vpn_floor(start)
}

/// `munmap(start, len)` in address space `ms` is accepted: the start is
/// aligned, the range fits in the address width, and every page of it is mapped.
pub open spec fn munmap_accepted(ms: MemorySet, start: usize, len: usize) -> bool {
    &&& page_aligned(start)
    &&& start + len <= usize::MAX
    &&& forall|v: usize| vpn_floor(start) <= v < vpn_ceil(start + len) ==> #[trigger] ms.is_mapped(v)
}

/// The task picked after task `cur` among `tasks`: the first ready one in ring
/// order after it.
#[verifier::opaque]
pub open spec fn next_ready_in(tasks: Seq<TaskControlBlock>, cur: int) -> Option<usize> {
    let n = tasks.len() as int;
    if exists|k: int| 1 <= k <= n && tasks[ring_slot(cur, k, n)].task_status == TaskStatus::Ready {
        let k = choose|k: int|
            1 <= k <= n && tasks[ring_slot(cur, k, n)].task_status == TaskStatus::Ready
            && forall|k2: int| 1 <= k2 < k ==> tasks[ring_slot(cur, k2, n)].task_status != TaskStatus::Ready;
        Some(ring_slot(cur, k, n) as usize)
    } else {
        None
    }
}

/// The picked task is a ready task of the list.
proof fn lemma_next_ready_valid(tasks: Seq<TaskControlBlock>, cur: int)
    requires
        0 <= cur < tasks.len() <= usize::MAX,
    ensures
        next_ready_in(tasks, cur).is_some() ==> {
            &&& next_ready_in(tasks, cur).unwrap() < tasks.len()
            &&& tasks[next_ready_in(tasks, cur).unwrap() as int].task_status == TaskStatus::Ready
        },
{
    reveal(next_ready_in);
    let n = tasks.len() as int;
    if exists|k: int| 1 <= k <= n && tasks[ring_slot(cur, k, n)].task_status == TaskStatus::Ready {
        lemma_first_ready_below(tasks, cur, n);
        let k = choose|k: int|
            1 <= k <= n && tasks[ring_slot(cur, k, n)].task_status == TaskStatus::Ready
            && forall|k2: int| 1 <= k2 < k ==> tasks[ring_slot(cur, k2, n)].task_status != TaskStatus::Ready;
        let slot = ring_slot(cur, k, n);
        assert(0 <= slot < n);
        assert(next_ready_in(tasks, cur) == Some(slot as usize));
    }
}

/// Where some task among the first `m` of the ring is ready, there is a first one.
proof fn lemma_first_ready_below(tasks: Seq<TaskControlBlock>, cur: int, m: int)
    requires
        exists|k: int| 1 <= k <= m && tasks[ring_slot(cur, k, tasks.len() as int)].task_status == TaskStatus::Ready,
    ensures
        exists|k: int|
            1 <= k <= m && tasks[ring_slot(cur, k, tasks.len() as int)].task_status == TaskStatus::Ready
            && forall|k2: int| 1 <= k2 < k ==> tasks[ring_slot(cur, k2, tasks.len() as int)].task_status != TaskStatus::Ready,
    decreases m,
{
    let n = tasks.len() as int;
    if exists|k: int| 1 <= k <= m - 1 && tasks[ring_slot(cur, k, n)].task_status == TaskStatus::Ready {
        lemma_first_ready_below(tasks, cur, m - 1);
        let k = choose|k: int|
            1 <= k <= m - 1 && tasks[ring_slot(cur, k, n)].task_status == TaskStatus::Ready
            && forall|k2: int| 1 <= k2 < k ==> tasks[ring_slot(cur, k2, n)].task_status != TaskStatus::Ready;
        assert(1 <= k <= m);
    } else {
        assert(tasks[ring_slot(cur, m, n)].task_status == TaskStatus::Ready);
        assert(forall|k2: int| 1 <= k2 < m ==> tasks[ring_slot(cur, k2, n)].task_status != TaskStatus::Ready);
    }
}

/// The first ready task in ring order after `cur` is the one picked.
pub proof fn lemma_next_ready_found(tasks: Seq<TaskControlBlock>, cur: int, k: int)
    requires
        0 <= cur < tasks.len(),
        1 <= k <= tasks.len(),
        tasks[ring_slot(cur, k, tasks.len() as int)].task_status == TaskStatus::Ready,
        forall|k2: int| 1 <= k2 < k ==> #[trigger] tasks[ring_slot(cur, k2, tasks.len() as int)].task_status != TaskStatus::Ready,
    ensures
        next_ready_in(tasks, cur) == Some(ring_slot(cur, k, tasks.len() as int) as usize),
{
    reveal(next_ready_in);
    let n = tasks.len() as int;
    let kc = choose|k1: int|
        1 <= k1 <= n && tasks[ring_slot(cur, k1, n)].task_status == TaskStatus::Ready
        && forall|k2: int| 1 <= k2 < k1 ==> tasks[ring_slot(cur, k2, n)].task_status != TaskStatus::Ready;
    if kc < k {
        assert(tasks[ring_slot(cur, kc, n)].task_status != TaskStatus::Ready);
    } else if kc > k {
        assert(tasks[ring_slot(cur, k, n)].task_status != TaskStatus::Ready);
    }
}

/// With no ready task in a whole turn of the ring, none is ready at all and
/// none is picked.
pub proof fn lemma_next_ready_none(tasks: Seq<TaskControlBlock>, cur: int)
    requires
        0 <= cur < tasks.len(),
        forall|k2: int| 1 <= k2 <= tasks.len() ==> #[trigger] tasks[ring_slot(cur, k2, tasks.len() as int)].task_status != TaskStatus::Ready,
    ensures
        next_ready_in(tasks, cur).is_none(),
        forall|i: int| 0 <= i < tasks.len() ==> #[trigger] tasks[i].task_status != TaskStatus::Ready,
{
    reveal(next_ready_in);
    let n = tasks.len() as int;
    assert forall|i: int| 0 <= i < n implies #[trigger] tasks[i].task_status != TaskStatus::Ready by {
        let kk = if i > cur { i - cur } else { i + n - cur };
        assert(ring_slot(cur, kk, n) == i);
    }
}

/// A dispatch from task `cur` among `tasks` at time `now` gives `post_tasks`,
/// with `post_cur` running, and answers `r`: the next ready task becomes
/// running, taking `now` as its start time if it never ran; with none ready,
/// nothing changes and all tasks have completed.
pub open spec fn dispatch_post(
    tasks: Seq<TaskControlBlock>,
    cur: usize,
    post_tasks: Seq<TaskControlBlock>,
    post_cur: usize,
    now: usize,
    r: Dispatch,
) -> bool {
    match next_ready_in(tasks, cur as int) {
        Some(next) => {
            let t = tasks[next as int];
            &&& r == Dispatch::Switch { from: cur, to: next }
            &&& post_cur == next
            &&& post_tasks == tasks.update(
                next as int,
                TaskControlBlock {
                    task_status: TaskStatus::Running,
                    start_time: if t.start_time.is_none() { Some(now) } else { t.start_time },
                    ..t
                },
            )
        },
        None => {
            &&& r == Dispatch::AllCompleted
            &&& post_cur == cur
            &&& post_tasks == tasks
        },
    }
}

/// `tasks` with task `cur` set to `status`.
pub open spec fn with_status(tasks: Seq<TaskControlBlock>, cur: usize, status: TaskStatus) -> Seq<TaskControlBlock> {
    tasks.update(cur as int, TaskControlBlock { task_status: status, ..tasks[cur as int] })
}

/// What a dispatch asks the caller to do: switch from one task's saved context
/// to another's, or stop because no task is ready.
#[derive(Clone, Copy, Debug, PartialEq, Eq, Structural)]
pub enum Dispatch {
    Switch { from: usize, to: usize },
    AllCompleted,
}

/// Owns every task and knows which one runs.
pub struct TaskManager {
    num_app: usize,
    tasks: Vec<TaskControlBlock>,
    current_task: usize,
}

impl TaskManager {
    pub closed spec fn spec_num_app(&self) -> usize {
        self.num_app
    }

    pub closed spec fn spec_tasks(&self) -> Seq<TaskControlBlock> {
        self.tasks@
    }

    pub closed spec fn spec_current(&self) -> usize {
        self.current_task
    }

    /// The status of task `i`.
    pub open spec fn status(&self, i: int) -> TaskStatus {
        self.spec_tasks()[i].task_status
    }

    /// The running task's record.
    pub open spec fn current(&self) -> TaskControlBlock {
        self.spec_tasks()[self.spec_current() as int]
    }

    /// The number of tasks matches the task list, the current index is in it,
    /// and every record is well formed.
    pub open spec fn wf(&self) -> bool {
        &&& self.spec_num_app() == self.spec_tasks().len()
        &&& self.spec_num_app() > 0
        &&& self.spec_current() < self.spec_num_app()
        &&& forall|i: int| 0 <= i < self.spec_tasks().len() ==> (#[trigger] self.spec_tasks()[i]).wf()
    }

    /// The task the scheduler picks next.
    pub open spec fn next_ready(&self) -> Option<usize> {
        next_ready_in(self.spec_tasks(), self.spec_current() as int)
    }

    /// Takes ownership of `tasks`; task 0 is the current one.
    pub fn new(tasks: Vec<TaskControlBlock>) -> (r: TaskManager)
        requires
            tasks@.len() > 0,
            forall|i: int| 0 <= i < tasks@.len() ==> (#[trigger] tasks@[i]).wf(),
        ensures
            r.wf(),
            r.spec_tasks() == tasks@,
            r.spec_current() == 0,
            (forall|i: int| 0 <= i < tasks@.len() ==> (#[trigger] tasks@[i]).memory_set@.len() == 0)
                ==> forall|fa: &StackFrameAllocator, mem: &PhysMemory| #[trigger] r.frames_ok(fa, mem),
    {
        let num_app = tasks.len();
        let r = TaskManager { num_app, tasks, current_task: 0 };
        proof {
            if forall|i: int| 0 <= i < r.tasks@.len() ==> (#[trigger] r.tasks@[i]).memory_set@.len() == 0 {
                assert forall|fa: &StackFrameAllocator, mem: &PhysMemory| #[trigger] r.frames_ok(fa, mem) by {
                    assert forall|t: int| 0 <= t < r.spec_tasks().len() implies (#[trigger] r.spec_tasks()[t]).memory_set.wf() by {
                        assert(r.spec_tasks()[t].memory_set@.len() == 0);
                    }
                }
            }
        }
        r
    }

    /// Number of tasks.
    pub fn num_app(&self) -> (r: usize)
        ensures
            r == self.spec_num_app(),
    {
        self.num_app
    }

    /// Index of the running task.
    pub fn current_task(&self) -> (r: usize)
        ensures
            r == self.spec_current(),
    {
        self.current_task
    }

    /// Start time of the running task, if it was ever dispatched.
    pub fn current_start_time(&self) -> (r: Option<usize>)
        requires
            self.wf(),
        ensures
            r == self.current().start_time,
    {
        self.tasks[self.current_task].start_time
    }

    /// Address space of the running task.
    pub fn current_memory_set(&self) -> (r: &MemorySet)
        requires
            self.wf(),
        ensures
            *r == self.current().memory_set,
    {
        &self.tasks[self.current_task].memory_set
    }

    /// Status of task `i`.
    pub fn task_status(&self, i: usize) -> (r: TaskStatus)
        requires
            i < self.spec_tasks().len(),
        ensures
            r == self.status(i as int),
    {
        self.tasks[i].task_status
    }

    /// Saved context of task `i`, what a switch into it resumes.
    pub fn task_context(&self, i: usize) -> (r: TaskContext)
        requires
            i < self.spec_tasks().len(),
        ensures
            r == self.spec_tasks()[i as int].task_cx,
    {
        self.tasks[i].task_cx
    }

    /// Sets the status and start time of task `i`, leaving the rest of it alone.
    fn set_task_state(&mut self, i: usize, status: TaskStatus, start_time: Option<usize>)
        requires
            old(self).wf(),
            i < old(self).spec_num_app(),
        ensures
            final(self).wf(),
            final(self).spec_num_app() == old(self).spec_num_app(),
            final(self).spec_current() == old(self).spec_current(),
            final(self).spec_tasks() == old(self).spec_tasks().update(
                i as int,
                TaskControlBlock { task_status: status, start_time: start_time, ..old(self).spec_tasks()[i as int] },
            ),
    {
        let mut tcb = TaskControlBlock::new(MemorySet::new(0), 0, TaskContext::zero_init());
        self.tasks.set_and_swap(i, &mut tcb);
        tcb.task_status = status;
        tcb.start_time = start_time;
        self.tasks.set_and_swap(i, &mut tcb);
        proof {
            assert(self.tasks@[i as int].wf());
        }
    }

    /// Dispatches task 0: it becomes running and its start time is `now`.
    /// Returns the context to switch into; the switch itself never comes back.
    pub fn run_first_task(&mut self, now: usize) -> (r: TaskContext)
        requires
            old(self).wf(),
        ensures
            final(self).wf(),
            final(self).spec_num_app() == old(self).spec_num_app(),
            final(self).spec_current() == old(self).spec_current(),
            final(self).spec_tasks() == old(self).spec_tasks().update(
                0,
                TaskControlBlock { task_status: TaskStatus::Running, start_time: Some(now), ..old(self).spec_tasks()[0] },
            ),
            r == old(self).spec_tasks()[0].task_cx,
    {
        self.set_task_state(0, TaskStatus::Running, Some(now));
        self.tasks[0].task_cx
    }

    /// The running task gives up the processor and becomes ready.
    pub fn mark_current_suspended(&mut self)
        requires
            old(self).wf(),
        ensures
            final(self).wf(),
            final(self).spec_num_app() == old(self).spec_num_app(),
            final(self).spec_current() == old(self).spec_current(),
            final(self).spec_tasks() == with_status(old(self).spec_tasks(), old(self).spec_current(), TaskStatus::Ready),
    {
        let cur = self.current_task;
        let start = self.tasks[cur].start_time;
        self.set_task_state(cur, TaskStatus::Ready, start);
    }

    /// The running task is done for good.
    pub fn mark_current_exited(&mut self)
        requires
            old(self).wf(),
        ensures
            final(self).wf(),
            final(self).spec_num_app() == old(self).spec_num_app(),
            final(self).spec_current() == old(self).spec_current(),
            final(self).spec_tasks() == with_status(old(self).spec_tasks(), old(self).spec_current(), TaskStatus::Exited),
    {
        let cur = self.current_task;
        let start = self.tasks[cur].start_time;
        self.set_task_state(cur, TaskStatus::Exited, start);
    }

    /// Scans the tasks in ring order after the current one and returns the first
    /// ready one, if any.
    pub fn find_next_task(&self) -> (r: Option<usize>)
        requires
            self.wf(),
        ensures
            r == self.next_ready(),
            r.is_none() <==> forall|i: int| 0 <= i < self.spec_num_app() ==> self.status(i) != TaskStatus::Ready,
            r.is_some() ==> r.unwrap() < self.spec_num_app() && self.status(r.unwrap() as int) == TaskStatus::Ready,
    {
        let n = self.num_app;
        let cur = self.current_task;
        let ghost tasks = self.spec_tasks();
        let mut k: usize = 0;
        while k < n
            invariant
                self.wf(),
                tasks == self.spec_tasks(),
                n == tasks.len(),
                cur == self.spec_current(),
                0 <= k <= n,
                forall|k2: int| 1 <= k2 <= k ==> #[trigger] tasks[ring_slot(cur as int, k2, n as int)].task_status != TaskStatus::Ready,
            decreases n - k,
        {
            let step: usize = k + 1;
            let id: usize = if step < n - cur { cur + step } else { step - (n - cur) };
            assert(id == ring_slot(cur as int, step as int, n as int));
            if self.tasks[id].task_status == TaskStatus::Ready {
                proof {
                    lemma_next_ready_found(tasks, cur as int, step as int);
                }
                return Some(id);
            }
            k = k + 1;
        }
        proof {
            lemma_next_ready_none(tasks, cur as int);
        }
        None
    }

    /// Picks the next ready task and makes it the running one, recording its
    /// start time `now` on its first dispatch. The caller then switches from
    /// the old task's context to the new one's. With no ready task left, all
    /// tasks have completed and nothing changes.
    pub fn run_next_task(&mut self, now: usize) -> (r: Dispatch)
        requires
            old(self).wf(),
        ensures
            final(self).wf(),
            final(self).spec_num_app() == old(self).spec_num_app(),
            dispatch_post(
                old(self).spec_tasks(),
                old(self).spec_current(),
                final(self).spec_tasks(),
                final(self).spec_current(),
                now,
                r,
            ),
    {
        match self.find_next_task() {
            Some(next) => {
                let current = self.current_task;
                let start = match self.tasks[next].start_time {
                    Some(t) => Some(t),
                    None => Some(now),
                };
                self.set_task_state(next, TaskStatus::Running, start);
                self.current_task = next;
                Dispatch::Switch { from: current, to: next }
            },
            None => Dispatch::AllCompleted,
        }
    }

    /// Address-space identifier of the running task.
    pub fn get_current_token(&self) -> (r: usize)
        requires
            self.wf(),
        ensures
            r == self.current().memory_set.spec_token(),
    {
        self.tasks[self.current_task].get_user_token()
    }

    /// Physical page of the running task's trap context.
    pub fn get_current_trap_cx(&self) -> (r: usize)
        requires
            self.wf(),
        ensures
            r == self.current().trap_cx_ppn,
    {
        self.tasks[self.current_task].get_trap_cx()
    }

    /// Counts one call of syscall `syscall_id` for the running task; ids out of
    /// range are ignored. A counter at its maximum wraps to zero.
    pub fn count_syscall(&mut self, syscall_id: usize)
        requires
            old(self).wf(),
        ensures
            final(self).wf(),
            final(self).spec_num_app() == old(self).spec_num_app(),
            final(self).spec_current() == old(self).spec_current(),
            forall|i: int| 0 <= i < old(self).spec_num_app() && i != old(self).spec_current()
                ==> #[trigger] final(self).spec_tasks()[i] == old(self).spec_tasks()[i],
            final(self).current() == (TaskControlBlock { syscall_times: final(self).current().syscall_times, ..old(self).current() }),
            final(self).current().syscall_times@ == if syscall_id < MAX_SYSCALL_NUM {
                old(self).current().syscall_times@.update(
                    syscall_id as int,
                    counter_inc(old(self).current().syscall_times@[syscall_id as int]),
                )
            } else {
                old(self).current().syscall_times@
            },
    {
        if syscall_id < MAX_SYSCALL_NUM {
            let cur = self.current_task;
            let mut tcb = TaskControlBlock::new(MemorySet::new(0), 0, TaskContext::zero_init());
            self.tasks.set_and_swap(cur, &mut tcb);
            let v = tcb.syscall_times[syscall_id];
            let nv: u32 = if v == u32::MAX { 0 } else { v + 1 };
            tcb.syscall_times.set(syscall_id, nv);
            self.tasks.set_and_swap(cur, &mut tcb);
            proof {
                assert(self.tasks@[cur as int].wf());
            }
        }
    }

    /// A copy of the running task's syscall histogram.
    pub fn get_syscall_times(&self) -> (r: Vec<u32>)
        requires
            self.wf(),
        ensures
            r@ == self.current().syscall_times@,
    {
        let times = &self.tasks[self.current_task].syscall_times;
        let mut r: Vec<u32> = Vec::new();
        let mut i: usize = 0;
        while i < times.len()
            invariant
                i <= times@.len(),
                r@ == times@.subrange(0, i as int),
            decreases times@.len() - i,
        {
            r.push(times[i]);
            i = i + 1;
            proof {
                assert(r@ =~= times@.subrange(0, i as int));
            }
        }
        proof {
            assert(r@ =~= times@);
        }
        r
    }

    /// Status of the running task.
    pub fn get_current_task_status(&self) -> (r: TaskStatus)
        requires
            self.wf(),
        ensures
            r == self.current().task_status,
    {
        self.tasks[self.current_task].task_status
    }

    /// Time the running task has had since its first dispatch, at time `now`.
    pub fn get_current_run_time(&self, now: usize) -> (r: usize)
        requires
            self.wf(),
            self.current().start_time.is_some(),
            self.current().start_time.unwrap() <= now,
        ensures
            r == now - self.current().start_time.unwrap(),
    {
        let start = self.tasks[self.current_task].start_time.unwrap();
        now - start
    }

    /// Frame `i` of task `t`'s address space.
    pub open spec fn frame_at(&self, t: int, i: int) -> usize {
        self.spec_tasks()[t].memory_set@[i].1
    }

    /// Every address space is well formed, its frames are held out of `fa` and
    /// lie in `mem`, and no frame backs pages of two tasks.
    pub open spec fn frames_ok(&self, fa: &StackFrameAllocator, mem: &PhysMemory) -> bool {
        &&& forall|t: int| 0 <= t < self.spec_tasks().len() ==> {
            &&& (#[trigger] self.spec_tasks()[t]).memory_set.wf()
            &&& self.spec_tasks()[t].memory_set.frames_in(fa, mem)
        }
        &&& forall|t1: int, i: int, t2: int, j: int|
            0 <= t1 < self.spec_tasks().len() && 0 <= t2 < self.spec_tasks().len() && t1 != t2
            && 0 <= i < self.spec_tasks()[t1].memory_set@.len() && 0 <= j < self.spec_tasks()[t2].memory_set@.len()
            ==> #[trigger] self.frame_at(t1, i) != #[trigger] self.frame_at(t2, j)
    }

    /// Maps `[start, start + len)` into the running task's address space with
    /// the permission bits `port`, all or nothing. Returns 0 on success and -1
    /// when the request is refused, in which case nothing changes.
    pub fn task_mmap(
        &mut self,
        start: usize,
        len: usize,
        port: usize,
        fa: &mut StackFrameAllocator,
        mem: &mut PhysMemory,
    ) -> (r: isize)
        requires
            old(self).wf(),
            old(fa).wf(),
            old(mem).wf(),
            backs(old(mem), old(fa)),
            old(self).frames_ok(old(fa), old(mem)),
        ensures
            final(self).wf(),
            final(fa).wf(),
            final(mem).wf(),
            backs(final(mem), final(fa)),
            final(self).frames_ok(final(fa), final(mem)),
            final(self).spec_num_app() == old(self).spec_num_app(),
            final(self).spec_current() == old(self).spec_current(),
            r == 0 || r == -1,
            (r == 0) == mmap_accepted(old(self).current().memory_set, *old(fa), start, len, port),
            r == -1 ==> {
                &&& final(self).spec_tasks() == old(self).spec_tasks()
                &&& *final(fa) == *old(fa)
                &&& *final(mem) == *old(mem)
            },
            r == 0 ==> {
                let old_ms = old(self).current().memory_set;
                let ms = final(self).current().memory_set;
                let n = vpn_ceil(start + len) - vpn_floor(start);
                &&& forall|t: int| 0 <= t < old(self).spec_num_app() && t != old(self).spec_current()
                    ==> #[trigger] final(self).spec_tasks()[t] == old(self).spec_tasks()[t]
                &&& final(self).current() == (TaskControlBlock { memory_set: ms, ..old(self).current() })
                &&& ms.spec_token() == old_ms.spec_token()
                &&& ms@.len() == old_ms@.len() + n
                &&& forall|i: int| 0 <= i < old_ms@.len() ==> #[trigger] ms@[i] == old_ms@[i]
                &&& forall|k: int| 0 <= k < n ==> {
                    let e = #[trigger] ms@[old_ms@.len() + k];
                    &&& e.0 == vpn_floor(start) + k
                    &&& e.2 == port_flags(port)
                    &&& !old(fa).is_held(e.1)
                }
                &&& final(fa).available() == old(fa).available() - n
            },
    {
        if start % PAGE_SIZE != 0 {
            return -1;
        }
        let perm = match MapPermission::from_port(port) {
            Some(p) => p,
            None => {
                return -1;
            },
        };
        if len > usize::MAX - start {
            return -1;
        }
        let end_va: usize = start + len;
        let start_vpn: usize = start / PAGE_SIZE;
        let end_vpn: usize = if end_va % PAGE_SIZE == 0 { end_va / PAGE_SIZE } else { end_va / PAGE_SIZE + 1 };
        let cur = self.current_task;
        let mut vpn: usize = start_vpn;
        while vpn < end_vpn
            invariant
                self.wf(),
                cur == self.spec_current(),
                start_vpn == vpn_floor(start),
                end_vpn == vpn_ceil(start + len),
                start_vpn <= vpn <= end_vpn,
                forall|v: usize| start_vpn <= v < vpn ==> !#[trigger] self.current().memory_set.is_mapped(v),
                *self == *old(self),
                *fa == *old(fa),
                *mem == *old(mem),
                fa.wf(),
                mem.wf(),
                backs(mem, fa),
                self.frames_ok(fa, mem),
            decreases end_vpn - vpn,
        {
            if let Some(pte) = self.tasks[cur].memory_set.translate(vpn) {
                if pte.is_valid() {
                    return -1;
                }
            }
            vpn = vpn + 1;
        }
        if !fa.has_frames(end_vpn - start_vpn) {
            return -1;
        }
        let ghost old_fa = *fa;
        let ghost old_mem = *mem;
        let mut tcb = TaskControlBlock::new(MemorySet::new(0), 0, TaskContext::zero_init());
        self.tasks.set_and_swap(cur, &mut tcb);
        tcb.memory_set.insert_framed_area(start_vpn, end_vpn, perm.bits, fa, mem);
        self.tasks.set_and_swap(cur, &mut tcb);
        proof {
            assert(self.tasks@[cur as int].wf());
            let ts = self.spec_tasks();
            let ots = old(self).spec_tasks();
            assert forall|t: int| 0 <= t < ts.len() implies {
                &&& (#[trigger] ts[t]).memory_set.wf()
                &&& ts[t].memory_set.frames_in(fa, mem)
            } by {
                if t != cur {
                    assert(ts[t] == ots[t]);
                    assert(ots[t].memory_set.frames_in(&old_fa, &old_mem));
                    assert forall|i: int| 0 <= i < ts[t].memory_set@.len() implies
                        fa.is_held((#[trigger] ts[t].memory_set@[i]).1) && mem.contains(ts[t].memory_set@[i].1) by {
                        assert(old_fa.is_held(ots[t].memory_set@[i].1));
                        assert(old_mem.contains(ots[t].memory_set@[i].1));
                    }
                }
            }
            assert forall|t1: int, i: int, t2: int, j: int|
                0 <= t1 < ts.len() && 0 <= t2 < ts.len() && t1 != t2
                && 0 <= i < ts[t1].memory_set@.len() && 0 <= j < ts[t2].memory_set@.len()
                implies #[trigger] self.frame_at(t1, i) != #[trigger] self.frame_at(t2, j) by {
                let on = ots[cur as int].memory_set@.len();
                if t1 == cur {
                    assert(ts[t2] == ots[t2]);
                    if i < on {
                        assert(old(self).frame_at(t1, i) != old(self).frame_at(t2, j));
                    } else {
                        assert(ots[t2].memory_set.frames_in(&old_fa, &old_mem));
                        assert(old_fa.is_held(ots[t2].memory_set@[j].1));
                        let k = i - on;
                        assert(ts[t1].memory_set@[on + k] == ts[t1].memory_set@[i]);
                    }
                } else if t2 == cur {
                    assert(ts[t1] == ots[t1]);
                    if j < on {
                        assert(old(self).frame_at(t1, i) != old(self).frame_at(t2, j));
                    } else {
                        assert(ots[t1].memory_set.frames_in(&old_fa, &old_mem));
                        assert(old_fa.is_held(ots[t1].memory_set@[i].1));
                        let k = j - on;
                        assert(ts[t2].memory_set@[on + k] == ts[t2].memory_set@[j]);
                    }
                } else {
                    assert(ts[t1] == ots[t1]);
                    assert(ts[t2] == ots[t2]);
                    assert(old(self).frame_at(t1, i) != old(self).frame_at(t2, j));
                }
            }
        }
        0
    }

    /// Removes the mappings of `[start, start + len)` from the running task's
    /// address space, all or nothing, giving their frames back to `fa`. Returns 0
    /// on success and -1 when the request is refused, in which case nothing changes.
    pub fn task_munmap(&mut self, start: usize, len: usize, fa: &mut StackFrameAllocator, mem: &PhysMemory) -> (r: isize)
        requires
            old(self).wf(),
            old(fa).wf(),
            backs(mem, old(fa)),
            old(self).frames_ok(old(fa), mem),
        ensures
            final(self).wf(),
            final(fa).wf(),
            backs(mem, final(fa)),
            final(self).frames_ok(final(fa), mem),
            final(self).spec_num_app() == old(self).spec_num_app(),
            final(self).spec_current() == old(self).spec_current(),
            r == 0 || r == -1,
            (r == 0) == munmap_accepted(old(self).current().memory_set, start, len),
            r == -1 ==> {
                &&& final(self).spec_tasks() == old(self).spec_tasks()
                &&& *final(fa) == *old(fa)
            },
            r == 0 ==> {
                let old_ms = old(self).current().memory_set;
                let ms = final(self).current().memory_set;
                &&& forall|t: int| 0 <= t < old(self).spec_num_app() && t != old(self).spec_current()
                    ==> #[trigger] final(self).spec_tasks()[t] == old(self).spec_tasks()[t]
                &&& final(self).current() == (TaskControlBlock { memory_set: ms, ..old(self).current() })
                &&& ms.spec_token() == old_ms.spec_token()
                &&& forall|e: (usize, usize, u8)| #[trigger] ms@.contains(e)
                    <==> (old_ms@.contains(e) && !(vpn_floor(start) <= e.0 < vpn_ceil(start + len)))
                &&& forall|q: usize| #[trigger] final(fa).is_held(q)
                    <==> (old(fa).is_held(q) && !old_ms.frees(vpn_floor(start) as usize, vpn_ceil(start + len) as usize, q))
            },
    {
        if start % PAGE_SIZE != 0 {
            return -1;
        }
        if len > usize::MAX - start {
            return -1;
        }
        let end_va: usize = start + len;
        let start_vpn: usize = start / PAGE_SIZE;
        let end_vpn: usize = if end_va % PAGE_SIZE == 0 { end_va / PAGE_SIZE } else { end_va / PAGE_SIZE + 1 };
        let cur = self.current_task;
        let mut vpn: usize = start_vpn;
        while vpn < end_vpn
            invariant
                self.wf(),
                cur == self.spec_current(),
                start_vpn == vpn_floor(start),
                end_vpn == vpn_ceil(start + len),
                start_vpn <= vpn,
                forall|v: usize| start_vpn <= v < vpn ==> #[trigger] self.current().memory_set.is_mapped(v),
                *self == *old(self),
                *fa == *old(fa),
                fa.wf(),
                backs(mem, fa),
                self.frames_ok(fa, mem),
            decreases end_vpn - vpn,
        {
            if let Some(pte) = self.tasks[cur].memory_set.translate(vpn) {
                if !pte.is_valid() {
                    return -1;
                }
            } else {
                return -1;
            }
            vpn = vpn + 1;
        }
        let ghost old_fa = *fa;
        let mut tcb = TaskControlBlock::new(MemorySet::new(0), 0, TaskContext::zero_init());
        self.tasks.set_and_swap(cur, &mut tcb);
        let ghost old_ms = tcb.memory_set;
        tcb.memory_set.unmap(start_vpn, end_vpn, fa, mem);
        self.tasks.set_and_swap(cur, &mut tcb);
        proof {
            assert(self.tasks@[cur as int].wf());
            let ts = self.spec_tasks();
            let ots = old(self).spec_tasks();
            assert(old_ms == ots[cur as int].memory_set);
            assert forall|t: int| 0 <= t < ts.len() implies {
                &&& (#[trigger] ts[t]).memory_set.wf()
                &&& ts[t].memory_set.frames_in(fa, mem)
            } by {
                if t != cur {
                    assert(ts[t] == ots[t]);
                    assert(ots[t].memory_set.frames_in(&old_fa, mem));
                    assert forall|i: int| 0 <= i < ts[t].memory_set@.len() implies
                        fa.is_held((#[trigger] ts[t].memory_set@[i]).1) && mem.contains(ts[t].memory_set@[i].1) by {
                        let q = ots[t].memory_set@[i].1;
                        assert(old_fa.is_held(q));
                        if old_ms.frees(start_vpn, end_vpn, q) {
                            let j = choose|j: int| 0 <= j < old_ms@.len() && (#[trigger] old_ms@[j]).1 == q && start_vpn <= old_ms@[j].0 < end_vpn;
                            assert(old(self).frame_at(cur as int, j) != old(self).frame_at(t, i));
                        }
                    }
                }
            }
            assert forall|t1: int, i: int, t2: int, j: int|
                0 <= t1 < ts.len() && 0 <= t2 < ts.len() && t1 != t2
                && 0 <= i < ts[t1].memory_set@.len() && 0 <= j < ts[t2].memory_set@.len()
                implies #[trigger] self.frame_at(t1, i) != #[trigger] self.frame_at(t2, j) by {
                if t1 == cur {
                    assert(ts[t2] == ots[t2]);
                    let e = ts[t1].memory_set@[i];
                    assert(ts[t1].memory_set@.contains(e));
                    let i0 = choose|i0: int| 0 <= i0 < old_ms@.len() && old_ms@[i0] == e;
                    assert(old(self).frame_at(t1, i0) != old(self).frame_at(t2, j));
                } else if t2 == cur {
                    assert(ts[t1] == ots[t1]);
                    let e = ts[t2].memory_set@[j];
                    assert(ts[t2].memory_set@.contains(e));
                    let j0 = choose|j0: int| 0 <= j0 < old_ms@.len() && old_ms@[j0] == e;
                    assert(old(self).frame_at(t1, i) != old(self).frame_at(t2, j0));
                } else {
                    assert(ts[t1] == ots[t1]);
                    assert(ts[t2] == ots[t2]);
                    assert(old(self).frame_at(t1, i) != old(self).frame_at(t2, j));
                }
            }
        }
        0
    }
}

/// Dispatches the first task at time `now`; see [`TaskManager::run_first_task`].
pub fn run_first_task(tm: &mut TaskManager, now: usize) -> (r: TaskContext)
    requires
        old(tm).wf(),
    ensures
        final(tm).wf(),
        final(tm).spec_num_app() == old(tm).spec_num_app(),
        final(tm).spec_current() == old(tm).spec_current(),
        final(tm).spec_tasks() == old(tm).spec_tasks().update(
            0,
            TaskControlBlock { task_status: TaskStatus::Running, start_time: Some(now), ..old(tm).spec_tasks()[0] },
        ),
        r == old(tm).spec_tasks()[0].task_cx,
{
    tm.run_first_task(now)
}

/// The running task yields: it becomes ready and the next task is dispatched.
pub fn suspend_current_and_run_next(tm: &mut TaskManager, now: usize) -> (r: Dispatch)
    requires
        old(tm).wf(),
    ensures
        final(tm).wf(),
        final(tm).spec_num_app() == old(tm).spec_num_app(),
        dispatch_post(
            with_status(old(tm).spec_tasks(), old(tm).spec_current(), TaskStatus::Ready),
            old(tm).spec_current(),
            final(tm).spec_tasks(),
            final(tm).spec_current(),
            now,
            r,
        ),
{
    tm.mark_current_suspended();
    tm.run_next_task(now)
}

/// The running task exits for good and the next task is dispatched.
pub fn exit_current_and_run_next(tm: &mut TaskManager, now: usize) -> (r: Dispatch)
    requires
        old(tm).wf(),
    ensures
        final(tm).wf(),
        final(tm).spec_num_app() == old(tm).spec_num_app(),
        dispatch_post(
            with_status(old(tm).spec_tasks(), old(tm).spec_current(), TaskStatus::Exited),
            old(tm).spec_current(),
            final(tm).spec_tasks(),
            final(tm).spec_current(),
            now,
            r,
        ),
{
    tm.mark_current_exited();
    tm.run_next_task(now)
}

/// Address-space identifier of the running task.
pub fn current_user_token(tm: &TaskManager) -> (r: usize)
    requires
        tm.wf(),
    ensures
        r == tm.current().memory_set.spec_token(),
{
    tm.get_current_token()
}

/// Physical page of the running task's trap context.
pub fn current_trap_cx(tm: &TaskManager) -> (r: usize)
    requires
        tm.wf(),
    ensures
        r == tm.current().trap_cx_ppn,
{
    tm.get_current_trap_cx()
}

/// Counts one call of syscall `syscall_id` for the running task.
pub fn count_syscall(tm: &mut TaskManager, syscall_id: usize)
    requires
        old(tm).wf(),
    ensures
        final(tm).wf(),
        final(tm).spec_num_app() == old(tm).spec_num_app(),
        final(tm).spec_current() == old(tm).spec_current(),
        forall|i: int| 0 <= i < old(tm).spec_num_app() && i != old(tm).spec_current()
            ==> #[trigger] final(tm).spec_tasks()[i] == old(tm).spec_tasks()[i],
        final(tm).current() == (TaskControlBlock { syscall_times: final(tm).current().syscall_times, ..old(tm).current() }),
        final(tm).current().syscall_times@ == if syscall_id < MAX_SYSCALL_NUM {
            old(tm).current().syscall_times@.update(
                syscall_id as int,
                counter_inc(old(tm).current().syscall_times@[syscall_id as int]),
            )
        } else {
            old(tm).current().syscall_times@
        },
{
    tm.count_syscall(syscall_id)
}

/// A copy of the running task's syscall histogram.
pub fn get_syscall_times(tm: &TaskManager) -> (r: Vec<u32>)
    requires
        tm.wf(),
    ensures
        r@ == tm.current().syscall_times@,
{
    tm.get_syscall_times()
}

/// Status of the running task.
pub fn get_current_task_status(tm: &TaskManager) -> (r: TaskStatus)
    requires
        tm.wf(),
    ensures
        r == tm.current().task_status,
{
    tm.get_current_task_status()
}

/// Time the running task has had since its first dispatch, at time `now`.
pub fn get_current_run_time(tm: &TaskManager, now: usize) -> (r: usize)
    requires
        tm.wf(),
        tm.current().start_time.is_some(),
        tm.current().start_time.unwrap() <= now,
    ensures
        r == now - tm.current().start_time.unwrap(),
{
    tm.get_current_run_time(now)
}

/// Maps `[start, start + len)` into the running task's address space; see
/// [`TaskManager::task_mmap`].
pub fn task_mmap(
    tm: &mut TaskManager,
    start: usize,
    len: usize,
    port: usize,
    fa: &mut StackFrameAllocator,
    mem: &mut PhysMemory,
) -> (r: isize)
    requires
        old(tm).wf(),
        old(fa).wf(),
        old(mem).wf(),
        backs(old(mem), old(fa)),
        old(tm).frames_ok(old(fa), old(mem)),
    ensures
        final(tm).wf(),
        final(fa).wf(),
        final(mem).wf(),
        backs(final(mem), final(fa)),
        final(tm).frames_ok(final(fa), final(mem)),
        final(tm).spec_num_app() == old(tm).spec_num_app(),
        final(tm).spec_current() == old(tm).spec_current(),
        r == 0 || r == -1,
        (r == 0) == mmap_accepted(old(tm).current().memory_set, *old(fa), start, len, port),
        r == -1 ==> {
            &&& final(tm).spec_tasks() == old(tm).spec_tasks()
            &&& *final(fa) == *old(fa)
            &&& *final(mem) == *old(mem)
        },
        r == 0 ==> {
            let old_ms = old(tm).current().memory_set;
            let ms = final(tm).current().memory_set;
            let n = vpn_ceil(start + len) - vpn_floor(start);
            &&& forall|t: int| 0 <= t < old(tm).spec_num_app() && t != old(tm).spec_current()
                ==> #[trigger] final(tm).spec_tasks()[t] == old(tm).spec_tasks()[t]
            &&& final(tm).current() == (TaskControlBlock { memory_set: ms, ..old(tm).current() })
            &&& ms@.len() == old_ms@.len() + n
            &&& forall|i: int| 0 <= i < old_ms@.len() ==> #[trigger] ms@[i] == old_ms@[i]
            &&& forall|k: int| 0 <= k < n ==> {
                let e = #[trigger] ms@[old_ms@.len() + k];
                &&& e.0 == vpn_floor(start) + k
                &&& e.2 == port_flags(port)
                &&& !old(fa).is_held(e.1)
            }
        },
{
    tm.task_mmap(start, len, port, fa, mem)
}

/// Unmaps `[start, start + len)` from the running task's address space; see
/// [`TaskManager::task_munmap`].
pub fn task_munmap(tm: &mut TaskManager, start: usize, len: usize, fa: &mut StackFrameAllocator, mem: &PhysMemory) -> (r: isize)
    requires
        old(tm).wf(),
        old(fa).wf(),
        backs(mem, old(fa)),
        old(tm).frames_ok(old(fa), mem),
    ensures
        final(tm).wf(),
        final(fa).wf(),
        backs(mem, final(fa)),
        final(tm).frames_ok(final(fa), mem),
        final(tm).spec_num_app() == old(tm).spec_num_app(),
        final(tm).spec_current() == old(tm).spec_current(),
        r == 0 || r == -1,
        (r == 0) == munmap_accepted(old(tm).current().memory_set, start, len),
        r == -1 ==> {
            &&& final(tm).spec_tasks() == old(tm).spec_tasks()
            &&& *final(fa) == *old(fa)
        },
        r == 0 ==> {
            let old_ms = old(tm).current().memory_set;
            let ms = final(tm).current().memory_set;
            &&& forall|t: int| 0 <= t < old(tm).spec_num_app() && t != old(tm).spec_current()
                ==> #[trigger] final(tm).spec_tasks()[t] == old(tm).spec_tasks()[t]
            &&& final(tm).current() == (TaskControlBlock { memory_set: ms, ..old(tm).current() })
            &&& forall|e: (usize, usize, u8)| #[trigger] ms@.contains(e)
                <==> (old_ms@.contains(e) && !(vpn_floor(start) <= e.0 < vpn_ceil(start + len)))
            &&& forall|q: usize| #[trigger] final(fa).is_held(q)
                <==> (old(fa).is_held(q) && !old_ms.frees(vpn_floor(start) as usize, vpn_ceil(start + len) as usize, q))
        },
{
    tm.task_munmap(start, len, fa, mem)
}

/// When every task has exited, a dispatch finds nothing to run and reports
/// that all tasks have completed, changing nothing.
pub proof fn lemma_all_exited_completes(
    tasks: Seq<TaskControlBlock>,
    cur: usize,
    post_tasks: Seq<TaskControlBlock>,
    post_cur: usize,
    now: usize,
    r: Dispatch,
)
    requires
        cur < tasks.len(),
        forall|i: int| 0 <= i < tasks.len() ==> #[trigger] tasks[i].task_status == TaskStatus::Exited,
        dispatch_post(tasks, cur, post_tasks, post_cur, now, r),
    ensures
        r == Dispatch::AllCompleted,
        post_tasks == tasks,
        post_cur == cur,
{
    let n = tasks.len() as int;
    assert forall|k: int| 1 <= k <= n implies #[trigger] tasks[ring_slot(cur as int, k, n)].task_status != TaskStatus::Ready by {
        assert(0 <= ring_slot(cur as int, k, n) < n);
    }
    reveal(next_ready_in);
    assert(next_ready_in(tasks, cur as int).is_none());
}

/// A dispatch never changes a start time once set: the run time of a task is
/// always measured from its first dispatch.
pub proof fn lemma_start_time_kept(
    tasks: Seq<TaskControlBlock>,
    cur: usize,
    post_tasks: Seq<TaskControlBlock>,
    post_cur: usize,
    now: usize,
    r: Dispatch,
    i: int,
)
    requires
        cur < tasks.len() <= usize::MAX,
        0 <= i < tasks.len(),
        tasks[i].start_time.is_some(),
        dispatch_post(tasks, cur, post_tasks, post_cur, now, r),
    ensures
        post_tasks[i].start_time == tasks[i].start_time,
{
    lemma_next_ready_valid(tasks, cur as int);
    match next_ready_in(tasks, cur as int) {
        Some(next) => {
            if i != next {
                assert(post_tasks[i] == tasks[i]);
            }
        },
        None => {},
    }
}

/// The run time read at `now1` is at most the one read at a later `now2`, and
/// both are measured from the same start time.
pub proof fn lemma_run_time_monotone(tm: TaskManager, now1: usize, now2: usize)
    requires
        tm.wf(),
        tm.current().start_time.is_some(),
        tm.current().start_time.unwrap() <= now1 <= now2,
    ensures
        now1 - tm.current().start_time.unwrap() <= now2 - tm.current().start_time.unwrap(),
{
}

/// An mmap request that does not start on a page boundary is refused.
pub proof fn lemma_mmap_unaligned_refused(ms: MemorySet, fa: StackFrameAllocator, start: usize, len: usize, port: usize)
    requires
        start % PAGE_SIZE != 0,
    ensures
        !mmap_accepted(ms, fa, start, len, port),
{
}

/// An mmap request with no permission bit, or with a bit above the read,
/// write and execute bits, is refused.
pub proof fn lemma_mmap_bad_port_refused(ms: MemorySet, fa: StackFrameAllocator, start: usize, len: usize, port: usize)
    requires
        port == 0 || port & !7usize != 0,
    ensures
        !mmap_accepted(ms, fa, start, len, port),
{
    assert(0usize & 7usize == 0) by (bit_vector);
}

/// An mmap request over a range of which one page is mapped already is refused.
pub proof fn lemma_mmap_overlap_refused(
    ms: MemorySet,
    fa: StackFrameAllocator,
    start: usize,
    len: usize,
    port: usize,
    v: usize,
)
    requires
        vpn_floor(start) <= v < vpn_ceil(start + len),
        ms.is_mapped(v),
    ensures
        !mmap_accepted(ms, fa, start, len, port),
{
}

/// A munmap request over a range of which one page is not mapped is refused.
pub proof fn lemma_munmap_hole_refused(ms: MemorySet, start: usize, len: usize, v: usize)
    requires
        vpn_floor(start) <= v < vpn_ceil(start + len),
        !ms.is_mapped(v),
    ensures
        !munmap_accepted(ms, start, len),
{
}

} // verus!
