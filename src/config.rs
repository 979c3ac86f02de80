use vstd::prelude::*;

verus! {

/// Size of one page, in bytes.
pub const PAGE_SIZE: usize = 4096;

/// Number of syscall ids that the per-task histogram counts.
pub const MAX_SYSCALL_NUM: usize = 500;

} // verus!
