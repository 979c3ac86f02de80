use os_core::config::MAX_SYSCALL_NUM;
use os_core::frame_allocator::{PhysMemory, PhysPageNum, StackFrameAllocator};
use os_core::memory_set::{MapPermission, MemorySet};
use os_core::task::{TaskContext, TaskControlBlock, TaskStatus};
use os_core::task_manager::{
    count_syscall, current_trap_cx, current_user_token, exit_current_and_run_next, get_current_run_time,
    get_current_task_status, get_syscall_times, run_first_task, suspend_current_and_run_next, task_mmap,
    task_munmap, Dispatch, TaskManager,
};

fn tcb(token: usize, status: TaskStatus) -> TaskControlBlock {
    let mut t = TaskControlBlock::new(MemorySet::new(token), 0x500 + token, TaskContext::zero_init());
    t.task_status = status;
    t
}

fn manager(statuses: &[TaskStatus]) -> TaskManager {
    let tasks: Vec<TaskControlBlock> = statuses.iter().enumerate().map(|(i, s)| tcb(i, *s)).collect();
    TaskManager::new(tasks)
}

fn frames() -> (StackFrameAllocator, PhysMemory) {
    let mut fa = StackFrameAllocator::new();
    fa.init(PhysPageNum(0x100), PhysPageNum(0x108));
    (fa, PhysMemory::new(0x100, 8))
}

#[test]
fn dispatch_skips_exited_task() {
    let mut tm = manager(&[TaskStatus::Ready, TaskStatus::Exited, TaskStatus::Ready]);
    assert_eq!(tm.find_next_task(), Some(2));
    assert_eq!(tm.run_next_task(7), Dispatch::Switch { from: 0, to: 2 });
    assert_eq!(tm.current_task(), 2);
    assert_eq!(get_current_task_status(&tm), TaskStatus::Running);
    assert_eq!(tm.task_status(1), TaskStatus::Exited);
}

#[test]
fn dispatch_with_all_exited_completes() {
    let mut tm = manager(&[TaskStatus::Exited, TaskStatus::Exited]);
    assert_eq!(tm.find_next_task(), None);
    assert_eq!(tm.run_next_task(1), Dispatch::AllCompleted);
    assert_eq!(tm.current_task(), 0);
}

#[test]
fn round_robin_over_yields_and_exits() {
    let mut tm = manager(&[TaskStatus::Ready, TaskStatus::Ready, TaskStatus::Ready]);
    run_first_task(&mut tm, 10);
    assert_eq!(get_current_task_status(&tm), TaskStatus::Running);
    assert_eq!(suspend_current_and_run_next(&mut tm, 20), Dispatch::Switch { from: 0, to: 1 });
    assert_eq!(tm.task_status(0), TaskStatus::Ready);
    assert_eq!(exit_current_and_run_next(&mut tm, 30), Dispatch::Switch { from: 1, to: 2 });
    assert_eq!(tm.task_status(1), TaskStatus::Exited);
    assert_eq!(suspend_current_and_run_next(&mut tm, 40), Dispatch::Switch { from: 2, to: 0 });
    assert_eq!(exit_current_and_run_next(&mut tm, 50), Dispatch::Switch { from: 0, to: 2 });
    assert_eq!(exit_current_and_run_next(&mut tm, 60), Dispatch::AllCompleted);
}

#[test]
fn only_ready_task_is_the_current_one() {
    let mut tm = manager(&[TaskStatus::Ready, TaskStatus::Exited]);
    run_first_task(&mut tm, 0);
    assert_eq!(suspend_current_and_run_next(&mut tm, 5), Dispatch::Switch { from: 0, to: 0 });
    assert_eq!(get_current_task_status(&tm), TaskStatus::Running);
}

#[test]
fn run_time_counts_from_first_dispatch() {
    let mut tm = manager(&[TaskStatus::Ready, TaskStatus::Ready]);
    run_first_task(&mut tm, 100);
    assert_eq!(get_current_run_time(&tm, 150), 50);
    assert_eq!(get_current_run_time(&tm, 170), 70);
    suspend_current_and_run_next(&mut tm, 200);
    assert_eq!(get_current_run_time(&tm, 230), 30);
    suspend_current_and_run_next(&mut tm, 300);
    assert_eq!(tm.current_task(), 0);
    assert_eq!(get_current_run_time(&tm, 310), 210);
}

#[test]
fn syscall_counts_only_valid_ids() {
    let mut tm = manager(&[TaskStatus::Ready, TaskStatus::Ready]);
    count_syscall(&mut tm, MAX_SYSCALL_NUM);
    count_syscall(&mut tm, usize::MAX);
    assert!(get_syscall_times(&tm).iter().all(|c| *c == 0));
    count_syscall(&mut tm, 64);
    count_syscall(&mut tm, 64);
    count_syscall(&mut tm, 93);
    let times = get_syscall_times(&tm);
    assert_eq!(times.len(), MAX_SYSCALL_NUM);
    assert_eq!(times[64], 2);
    assert_eq!(times[93], 1);
    assert_eq!(times.iter().map(|c| *c as u64).sum::<u64>(), 3);
    tm.run_next_task(1);
    assert!(get_syscall_times(&tm).iter().all(|c| *c == 0));
}

#[test]
fn token_and_trap_page_of_current_task() {
    let mut tm = manager(&[TaskStatus::Ready, TaskStatus::Ready]);
    assert_eq!(current_user_token(&tm), 0);
    assert_eq!(current_trap_cx(&tm), 0x500);
    tm.run_next_task(0);
    assert_eq!(current_user_token(&tm), 1);
    assert_eq!(current_trap_cx(&tm), 0x501);
}

#[test]
fn permission_from_request_bits() {
    assert_eq!(MapPermission::from_port(0), None);
    assert_eq!(MapPermission::from_port(8), None);
    assert_eq!(MapPermission::from_port(9), None);
    let p = MapPermission::from_port(3).unwrap();
    assert_eq!(p.bits, 2 | 4 | 16);
    assert!(p.readable() && p.writable() && !p.executable());
    assert_eq!(MapPermission::from_port(7).unwrap().bits, 30);
}

#[test]
fn mmap_rejects_unaligned_start() {
    let mut tm = manager(&[TaskStatus::Ready]);
    let (mut fa, mut mem) = frames();
    assert_eq!(task_mmap(&mut tm, 0x1001, 0x1000, 3, &mut fa, &mut mem), -1);
    assert!(tm.current_memory_set().translate(1).is_none());
    assert!(fa.has_frames(8));
}

#[test]
fn mmap_rejects_bad_permission_bits() {
    let mut tm = manager(&[TaskStatus::Ready]);
    let (mut fa, mut mem) = frames();
    assert_eq!(task_mmap(&mut tm, 0x1000, 0x1000, 0, &mut fa, &mut mem), -1);
    assert_eq!(task_mmap(&mut tm, 0x1000, 0x1000, 8, &mut fa, &mut mem), -1);
    assert_eq!(task_mmap(&mut tm, 0x1000, 0x1000, 0x13, &mut fa, &mut mem), -1);
    assert!(tm.current_memory_set().translate(1).is_none());
}

#[test]
fn mmap_maps_whole_pages_with_user_flags() {
    let mut tm = manager(&[TaskStatus::Ready]);
    let (mut fa, mut mem) = frames();
    assert_eq!(task_mmap(&mut tm, 0x2000, 0x1001, 1, &mut fa, &mut mem), 0);
    let ms = tm.current_memory_set();
    let a = ms.translate(2).unwrap();
    let b = ms.translate(3).unwrap();
    assert!(ms.translate(4).is_none());
    assert!(ms.translate(1).is_none());
    assert_eq!((a.ppn, a.flags), (0x100, 2 | 16));
    assert_eq!((b.ppn, b.flags), (0x101, 2 | 16));
    assert!(a.is_valid());
}

#[test]
fn mmap_over_a_mapped_page_maps_nothing() {
    let mut tm = manager(&[TaskStatus::Ready]);
    let (mut fa, mut mem) = frames();
    assert_eq!(task_mmap(&mut tm, 0x3000, 0x1000, 3, &mut fa, &mut mem), 0);
    assert_eq!(task_mmap(&mut tm, 0x1000, 0x3000, 3, &mut fa, &mut mem), -1);
    let ms = tm.current_memory_set();
    assert!(ms.translate(1).is_none());
    assert!(ms.translate(2).is_none());
    assert!(ms.translate(3).is_some());
    assert!(fa.has_frames(7) && !fa.has_frames(8));
}

#[test]
fn mmap_beyond_free_frames_is_refused() {
    let mut tm = manager(&[TaskStatus::Ready]);
    let (mut fa, mut mem) = frames();
    assert_eq!(task_mmap(&mut tm, 0, 9 * 0x1000, 3, &mut fa, &mut mem), -1);
    assert!(tm.current_memory_set().translate(0).is_none());
    assert_eq!(task_mmap(&mut tm, 0, 8 * 0x1000, 3, &mut fa, &mut mem), 0);
    assert!(!fa.has_frames(1));
}

#[test]
fn munmap_with_a_hole_unmaps_nothing() {
    let mut tm = manager(&[TaskStatus::Ready]);
    let (mut fa, mut mem) = frames();
    assert_eq!(task_mmap(&mut tm, 0x1000, 0x1000, 3, &mut fa, &mut mem), 0);
    assert_eq!(task_mmap(&mut tm, 0x3000, 0x1000, 3, &mut fa, &mut mem), 0);
    assert_eq!(task_munmap(&mut tm, 0x1000, 0x3000, &mut fa, &mem), -1);
    assert!(tm.current_memory_set().translate(1).is_some());
    assert!(tm.current_memory_set().translate(3).is_some());
    assert_eq!(task_munmap(&mut tm, 0x1001, 0x1000, &mut fa, &mem), -1);
}

#[test]
fn munmap_returns_frames_for_reuse() {
    let mut tm = manager(&[TaskStatus::Ready]);
    let (mut fa, mut mem) = frames();
    assert_eq!(task_mmap(&mut tm, 0x1000, 0x2000, 3, &mut fa, &mut mem), 0);
    assert_eq!(task_munmap(&mut tm, 0x2000, 0x1000, &mut fa, &mem), 0);
    assert!(tm.current_memory_set().translate(1).is_some());
    assert!(tm.current_memory_set().translate(2).is_none());
    assert_eq!(fa.allocate(), Some(PhysPageNum(0x101)));
}

#[test]
fn address_spaces_of_tasks_are_separate() {
    let mut tm = manager(&[TaskStatus::Ready, TaskStatus::Ready]);
    let (mut fa, mut mem) = frames();
    assert_eq!(task_mmap(&mut tm, 0x1000, 0x1000, 3, &mut fa, &mut mem), 0);
    tm.run_next_task(0);
    assert!(tm.current_memory_set().translate(1).is_none());
    assert_eq!(task_mmap(&mut tm, 0x1000, 0x1000, 3, &mut fa, &mut mem), 0);
    assert_eq!(tm.current_memory_set().translate(1).unwrap().ppn, 0x101);
}
