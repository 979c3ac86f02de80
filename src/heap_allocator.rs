//! Diagnostics of the kernel heap.
use vstd::prelude::*;

verus! {

/// Size of the kernel heap, in bytes.
pub const KERNEL_HEAP_SIZE: usize = 0x30_0000;

/// A heap request that could not be met: its size and alignment.
#[derive(Clone, Copy, Debug, PartialEq, Eq, Structural)]
pub struct HeapAllocError {
    pub size: usize,
    pub align: usize,
}

/// Describes the failed heap request of `size` bytes aligned to `align`; the
/// kernel halts with this diagnostic.
pub fn handle_alloc_error(size: usize, align: usize) -> (r: HeapAllocError)
    ensures
        r.size == size,
        r.align == align,
{
    HeapAllocError { size, align }
}

} // verus!
