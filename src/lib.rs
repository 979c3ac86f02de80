//! Resource management core of a single-core teaching kernel: a physical
//! page-frame allocator, per-task address spaces that map pages on demand, and
//! a cooperative round-robin task scheduler.

pub mod config;
pub mod frame_allocator;
pub mod heap_allocator;
pub mod memory_set;
pub mod task;
pub mod task_manager;
