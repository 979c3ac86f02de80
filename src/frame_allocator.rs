//! Stack-based physical page-frame allocator and frame handles.
use vstd::prelude::*;

use crate::config::PAGE_SIZE;

verus! {

/// A physical page number.
#[derive(Clone, Copy, Debug, PartialEq, Eq, Structural)]
pub struct PhysPageNum(pub usize);

/// Backing store of the physical pages `[base, base + pages.len())`.
pub struct PhysMemory {
    pub base: usize,
    pub pages: Vec<Vec<u8>>,
}

impl PhysMemory {
    /// Every page holds exactly `PAGE_SIZE` bytes.
    pub open spec fn wf(&self) -> bool {
        forall|i: int| 0 <= i < self.pages@.len() ==> #[trigger] self.pages@[i]@.len() == PAGE_SIZE
    }

    /// The page `ppn` lies in this store.
    pub open spec fn contains(&self, ppn: usize) -> bool {
        self.base <= ppn && ppn - self.base < self.pages@.len()
    }

    /// The bytes of page `ppn`.
    pub open spec fn page(&self, ppn: usize) -> Seq<u8> {
        self.pages@[ppn - self.base]@
    }

    /// A store of `count` zeroed pages starting at page `base`.
    pub fn new(base: usize, count: usize) -> (r: PhysMemory)
        requires
            base + count <= usize::MAX,
        ensures
            r.wf(),
            r.base == base,
            r.pages@.len() == count,
            forall|p: usize| #[trigger] r.contains(p) ==> r.page(p) == Seq::new(PAGE_SIZE as nat, |j: int| 0u8),
    {
        let mut pages: Vec<Vec<u8>> = Vec::new();
        let mut i: usize = 0;
        while i < count
            invariant
                i <= count,
                pages@.len() == i,
                forall|k: int| 0 <= k < i ==> #[trigger] pages@[k]@ == Seq::new(PAGE_SIZE as nat, |j: int| 0u8),
            decreases count - i,
        {
            let mut page: Vec<u8> = Vec::new();
            let mut j: usize = 0;
            while j < PAGE_SIZE
                invariant
                    j <= PAGE_SIZE,
                    page@ == Seq::new(j as nat, |k: int| 0u8),
                decreases PAGE_SIZE - j,
            {
                page.push(0);
                j = j + 1;
                assert(page@ =~= Seq::new(j as nat, |k: int| 0u8));
            }
            pages.push(page);
            i = i + 1;
        }
        PhysMemory { base, pages }
    }
}

/// Owns exactly one physical page for as long as it lives.
#[derive(Debug)]
pub struct FrameTracker {
    pub ppn: PhysPageNum,
}

impl FrameTracker {
    /// Takes ownership of page `ppn`, zero-filling its bytes.
    pub fn new(ppn: PhysPageNum, mem: &mut PhysMemory) -> (r: FrameTracker)
        requires
            old(mem).wf(),
            old(mem).contains(ppn.0),
        ensures
            r.ppn == ppn,
            final(mem).wf(),
            final(mem).base == old(mem).base,
            final(mem).pages@.len() == old(mem).pages@.len(),
            final(mem).page(ppn.0) == Seq::new(PAGE_SIZE as nat, |j: int| 0u8),
            forall|p: usize| #[trigger] old(mem).contains(p) && p != ppn.0 ==> final(mem).page(p) == old(mem).page(p),
    {
        let idx: usize = ppn.0 - mem.base;
        let mut page: Vec<u8> = Vec::new();
        mem.pages.set_and_swap(idx, &mut page);
        let len: usize = page.len();
        let mut i: usize = 0;
        while i < len
            invariant
                i <= len,
                page@.len() == len,
                forall|k: int| 0 <= k < i ==> page@[k] == 0u8,
            decreases len - i,
        {
            page.set(i, 0);
            i = i + 1;
        }
        mem.pages.set(idx, page);
        FrameTracker { ppn }
    }
}

/// Hands out physical page numbers from `[current, end)`, reusing freed ones first.
pub struct StackFrameAllocator {
    current: usize,
    end: usize,
    recycled: Vec<usize>,
}

impl StackFrameAllocator {
    /// First page never handed out yet.
    pub closed spec fn current(&self) -> usize {
        self.current
    }

    /// Exclusive upper bound of the managed range.
    pub closed spec fn end(&self) -> usize {
        self.end
    }

    /// Freed pages awaiting reuse, the most recently freed last.
    pub closed spec fn recycled(&self) -> Seq<usize> {
        self.recycled@
    }

    /// Freed pages lie below the frontier and are unique; the frontier never passes the end.
    pub open spec fn wf(&self) -> bool {
        &&& self.current() <= self.end()
        &&& forall|i: int| 0 <= i < self.recycled().len() ==> #[trigger] self.recycled()[i] < self.current()
        &&& self.recycled().no_duplicates()
    }

    /// Page `ppn` was handed out and is not free again: freeing it is allowed.
    pub open spec fn is_held(&self, ppn: usize) -> bool {
        ppn < self.current() && !self.recycled().contains(ppn)
    }

    /// Number of pages that can still be handed out.
    pub open spec fn available(&self) -> int {
        self.recycled().len() + (self.end() - self.current())
    }

    /// What the next `allocate` hands out.
    pub open spec fn next_frame(&self) -> Option<usize> {
        if self.recycled().len() > 0 {
            Some(self.recycled().last())
        } else if self.current() < self.end() {
            Some(self.current())
        } else {
            None
        }
    }

    /// An allocator that manages no pages yet.
    pub fn new() -> (r: StackFrameAllocator)
        ensures
            r.wf(),
            r.current() == 0,
            r.end() == 0,
            r.recycled() == Seq::<usize>::empty(),
    {
        StackFrameAllocator { current: 0, end: 0, recycled: Vec::new() }
    }

    /// Sets the usable range to `[l, r)`.
    pub fn init(&mut self, l: PhysPageNum, r: PhysPageNum)
        requires
            old(self).recycled().len() == 0,
            l.0 <= r.0,
        ensures
            final(self).wf(),
            final(self).current() == l.0,
            final(self).end() == r.0,
            final(self).recycled() == Seq::<usize>::empty(),
    {
        self.current = l.0;
        self.end = r.0;
    }

    /// What `allocate` does: `r` is the page handed out, taking `pre` to `post`.
    pub open spec fn allocate_post(pre: StackFrameAllocator, post: StackFrameAllocator, r: Option<PhysPageNum>) -> bool {
        &&& post.wf()
        &&& post.end() == pre.end()
        &&& r.is_some() == pre.next_frame().is_some()
        &&& match r {
            Some(p) => {
                &&& p.0 == pre.next_frame().unwrap()
                &&& pre.available() > 0
                &&& post.available() == pre.available() - 1
                &&& !pre.is_held(p.0)
                &&& post.is_held(p.0)
                &&& forall|q: usize| q != p.0 ==> (#[trigger] post.is_held(q) == pre.is_held(q))
                &&& if pre.recycled().len() > 0 {
                    &&& post.recycled() == pre.recycled().drop_last()
                    &&& post.current() == pre.current()
                } else {
                    &&& post.recycled() == pre.recycled()
                    &&& post.current() == pre.current() + 1
                }
            },
            None => {
                &&& pre.available() == 0
                &&& post.current() == pre.current()
                &&& post.recycled() == pre.recycled()
            },
        }
    }

    /// What `deallocate` does: freeing `ppn` takes `pre` to `post`.
    pub open spec fn deallocate_post(pre: StackFrameAllocator, post: StackFrameAllocator, ppn: PhysPageNum) -> bool {
        &&& post.wf()
        &&& post.current() == pre.current()
        &&& post.end() == pre.end()
        &&& post.recycled() == pre.recycled().push(ppn.0)
        &&& post.available() == pre.available() + 1
        &&& post.next_frame() == Some(ppn.0)
        &&& !post.is_held(ppn.0)
        &&& forall|q: usize| q != ppn.0 ==> (#[trigger] post.is_held(q) == pre.is_held(q))
    }

    /// Hands out a page: the most recently freed one if any, else the frontier, else none.
    pub fn allocate(&mut self) -> (r: Option<PhysPageNum>)
        requires
            old(self).wf(),
        ensures
            Self::allocate_post(*old(self), *final(self), r),
    {
        if let Some(ppn) = self.recycled.pop() {
            proof {
                let s = old(self).recycled@;
                assert(s =~= self.recycled@.push(ppn));
                assert(s.contains(ppn)) by {
                    assert(s[s.len() - 1] == ppn);
                }
                assert forall|i: int| 0 <= i < self.recycled@.len() implies #[trigger] self.recycled@[i] < self.current by {
                    assert(self.recycled@[i] == s[i]);
                }
                assert(!self.recycled@.contains(ppn)) by {
                    if self.recycled@.contains(ppn) {
                        let k = choose|k: int| 0 <= k < self.recycled@.len() && self.recycled@[k] == ppn;
                        assert(s[k] == s[s.len() - 1]);
                    }
                }
                assert forall|q: usize| q != ppn implies (#[trigger] self.recycled@.contains(q) == s.contains(q)) by {
                    if s.contains(q) {
                        let k = choose|k: int| 0 <= k < s.len() && s[k] == q;
                        assert(self.recycled@[k] == q);
                    }
                }
            }
            Some(PhysPageNum(ppn))
        } else if self.current == self.end {
            None
        } else {
            self.current = self.current + 1;
            proof {
                assert forall|q: usize| q != self.current - 1 implies (#[trigger] self.is_held(q) == old(self).is_held(q)) by {
                    if q == old(self).current {
                    }
                }
                assert(!self.recycled@.contains((self.current - 1) as usize)) by {
                    if self.recycled@.contains((self.current - 1) as usize) {
                        let k = choose|k: int| 0 <= k < self.recycled@.len() && self.recycled@[k] == (self.current - 1) as usize;
                    }
                }
            }
            Some(PhysPageNum(self.current - 1))
        }
    }

    /// Whether freeing `ppn` is allowed: it was handed out and is not free already.
    pub fn can_deallocate(&self, ppn: PhysPageNum) -> (r: bool)
        ensures
            r == self.is_held(ppn.0),
    {
        if ppn.0 >= self.current {
            return false;
        }
        let mut i: usize = 0;
        while i < self.recycled.len()
            invariant
                i <= self.recycled@.len(),
                forall|k: int| 0 <= k < i ==> self.recycled@[k] != ppn.0,
            decreases self.recycled@.len() - i,
        {
            if self.recycled[i] == ppn.0 {
                return false;
            }
            i = i + 1;
        }
        true
    }

    /// Whether `count` more pages can be handed out.
    pub fn has_frames(&self, count: usize) -> (r: bool)
        requires
            self.wf(),
        ensures
            r == (self.available() >= count),
    {
        let free: usize = self.recycled.len();
        count <= free || count - free <= self.end - self.current
    }

    /// Returns page `ppn` for reuse; it is the next one handed out.
    pub fn deallocate(&mut self, ppn: PhysPageNum)
        requires
            old(self).wf(),
            old(self).is_held(ppn.0),
        ensures
            Self::deallocate_post(*old(self), *final(self), ppn),
    {
        self.recycled.push(ppn.0);
        proof {
            let s = old(self).recycled@;
            assert(self.recycled@ == s.push(ppn.0));
            assert(self.recycled@.contains(ppn.0)) by {
                assert(self.recycled@[s.len() as int] == ppn.0);
            }
            assert forall|q: usize| q != ppn.0 implies (#[trigger] self.recycled@.contains(q) == s.contains(q)) by {
                if s.contains(q) {
                    let k = choose|k: int| 0 <= k < s.len() && s[k] == q;
                    assert(self.recycled@[k] == q);
                }
                if self.recycled@.contains(q) {
                    let k = choose|k: int| 0 <= k < self.recycled@.len() && self.recycled@[k] == q;
                    assert(s[k] == q);
                }
            }
            assert(self.recycled@.no_duplicates()) by {
                assert forall|i: int, j: int| 0 <= i < self.recycled@.len() && 0 <= j < self.recycled@.len() && i != j
                    implies self.recycled@[i] != self.recycled@[j] by {
                    if i < s.len() && j < s.len() {
                    } else if i < s.len() {
                        assert(s.contains(s[i]));
                    } else if j < s.len() {
                        assert(s.contains(s[j]));
                    }
                }
            }
        }
    }
}

/// `mem` holds every page that `fa` may still hand out.
pub open spec fn backs(mem: &PhysMemory, fa: &StackFrameAllocator) -> bool {
    &&& mem.base <= fa.current()
    &&& fa.end() <= mem.base + mem.pages@.len()
    &&& forall|i: int| 0 <= i < fa.recycled().len() ==> #[trigger] mem.contains(fa.recycled()[i])
}

/// Page number of the first whole page at or above address `pa`.
pub open spec fn ceil_page(pa: usize) -> int {
    (pa as int + PAGE_SIZE - 1) / PAGE_SIZE as int
}

/// Page number of the page holding address `pa`.
pub open spec fn floor_page(pa: usize) -> int {
    pa as int / PAGE_SIZE as int
}

/// Page number of the first whole page at or above address `pa`.
pub fn ceil_page_number(pa: usize) -> (r: usize)
    ensures
        r == ceil_page(pa),
{
    if pa % PAGE_SIZE == 0 {
        pa / PAGE_SIZE
    } else {
        pa / PAGE_SIZE + 1
    }
}

/// Page number of the page holding address `pa`.
pub fn floor_page_number(pa: usize) -> (r: usize)
    ensures
        r == floor_page(pa),
{
    pa / PAGE_SIZE
}

/// Sets the allocator's range to the whole pages between the end of the kernel
/// image `kernel_end` and the top of physical memory `memory_end`.
pub fn init_frame_allocator(fa: &mut StackFrameAllocator, kernel_end: usize, memory_end: usize)
    requires
        old(fa).recycled().len() == 0,
        ceil_page(kernel_end) <= floor_page(memory_end),
    ensures
        final(fa).wf(),
        final(fa).current() == ceil_page(kernel_end),
        final(fa).end() == floor_page(memory_end),
        final(fa).recycled() == Seq::<usize>::empty(),
{
    let low = ceil_page_number(kernel_end);
    let high = floor_page_number(memory_end);
    fa.init(PhysPageNum(low), PhysPageNum(high));
}

/// Allocates a page and hands it out zero-filled behind a frame handle.
pub fn frame_alloc(fa: &mut StackFrameAllocator, mem: &mut PhysMemory) -> (r: Option<FrameTracker>)
    requires
        old(fa).wf(),
        old(mem).wf(),
        backs(old(mem), old(fa)),
    ensures
        final(mem).wf(),
        backs(final(mem), final(fa)),
        final(mem).base == old(mem).base,
        final(mem).pages@.len() == old(mem).pages@.len(),
        match r {
            Some(t) => {
                &&& StackFrameAllocator::allocate_post(*old(fa), *final(fa), Some(t.ppn))
                &&& final(mem).contains(t.ppn.0)
                &&& final(mem).page(t.ppn.0) == Seq::new(PAGE_SIZE as nat, |j: int| 0u8)
                &&& forall|p: usize| #[trigger] old(mem).contains(p) && p != t.ppn.0 ==> final(mem).page(p) == old(mem).page(p)
            },
            None => {
                &&& StackFrameAllocator::allocate_post(*old(fa), *final(fa), None)
                &&& *final(mem) == *old(mem)
            },
        },
{
    let r = fa.allocate();
    match r {
        Some(ppn) => {
            proof {
                if old(fa).recycled().len() > 0 {
                    assert(mem.contains(old(fa).recycled()[old(fa).recycled().len() - 1]));
                    assert forall|i: int| 0 <= i < fa.recycled().len() implies #[trigger] mem.contains(fa.recycled()[i]) by {
                        assert(fa.recycled()[i] == old(fa).recycled()[i]);
                    }
                }
            }
            let ghost before = *mem;
            let t = FrameTracker::new(ppn, mem);
            proof {
                assert forall|i: int| 0 <= i < fa.recycled().len() implies #[trigger] mem.contains(fa.recycled()[i]) by {
                    assert(before.contains(fa.recycled()[i]));
                }
            }
            Some(t)
        },
        None => None,
    }
}

/// Gives the page of a frame handle back to the allocator.
pub fn frame_dealloc(fa: &mut StackFrameAllocator, frame: FrameTracker)
    requires
        old(fa).wf(),
        old(fa).is_held(frame.ppn.0),
    ensures
        StackFrameAllocator::deallocate_post(*old(fa), *final(fa), frame.ppn),
{
    fa.deallocate(frame.ppn);
}

/// Frontier allocations from a fresh range: while `k` pages have been handed
/// out, the frontier stands `k` pages above the start and nothing is recycled.
proof fn lemma_fresh_prefix(states: Seq<StackFrameAllocator>, results: Seq<Option<PhysPageNum>>, i: int)
    requires
        states.len() == results.len() + 1,
        states[0].wf(),
        states[0].recycled().len() == 0,
        results.len() == states[0].end() - states[0].current() + 1,
        forall|k: int| 0 <= k < results.len() ==> #[trigger] StackFrameAllocator::allocate_post(states[k], states[k + 1], results[k]),
        0 <= i < results.len(),
    ensures
        states[i].current() == states[0].current() + i,
        states[i].recycled().len() == 0,
        states[i].end() == states[0].end(),
    decreases i,
{
    if i > 0 {
        let k = i - 1;
        lemma_fresh_prefix(states, results, k);
        assert(StackFrameAllocator::allocate_post(states[k], states[k + 1], results[k]));
        assert(k + 1 == i);
    }
}

/// Allocating from a fresh range of `n` pages hands out `n` distinct pages of
/// that range, in order from its start, and the allocation after them fails.
pub proof fn lemma_fresh_range_exhaustion(states: Seq<StackFrameAllocator>, results: Seq<Option<PhysPageNum>>)
    requires
        states.len() == results.len() + 1,
        states[0].wf(),
        states[0].recycled().len() == 0,
        results.len() == states[0].end() - states[0].current() + 1,
        forall|k: int| 0 <= k < results.len() ==> #[trigger] StackFrameAllocator::allocate_post(states[k], states[k + 1], results[k]),
    ensures
        forall|k: int| 0 <= k < results.len() - 1 ==> {
            &&& (#[trigger] results[k]).is_some()
            &&& results[k].unwrap().0 == states[0].current() + k
            &&& states[0].current() <= results[k].unwrap().0 < states[0].end()
        },
        forall|i: int, j: int| 0 <= i < j < results.len() - 1 ==> #[trigger] results[i] != #[trigger] results[j],
        results.last().is_none(),
{
    assert forall|k: int| 0 <= k < results.len() implies {
        &&& k < results.len() - 1 ==> (#[trigger] results[k]).is_some() && results[k].unwrap().0 == states[0].current() + k
        &&& k == results.len() - 1 ==> results[k].is_none()
    } by {
        lemma_fresh_prefix(states, results, k);
        assert(StackFrameAllocator::allocate_post(states[k], states[k + 1], results[k]));
    }
    assert forall|i: int, j: int| 0 <= i < j < results.len() - 1 implies #[trigger] results[i] != #[trigger] results[j] by {
        assert(results[i].unwrap().0 == states[0].current() + i);
        assert(results[j].unwrap().0 == states[0].current() + j);
    }
    assert(results.last() == results[results.len() - 1]);
}

/// A page that was just freed is the next one handed out, and the frontier
/// does not move.
pub proof fn lemma_free_then_alloc_reuses(
    a0: StackFrameAllocator,
    a1: StackFrameAllocator,
    a2: StackFrameAllocator,
    ppn: PhysPageNum,
    r: Option<PhysPageNum>,
)
    requires
        a0.wf(),
        a0.is_held(ppn.0),
        StackFrameAllocator::deallocate_post(a0, a1, ppn),
        StackFrameAllocator::allocate_post(a1, a2, r),
    ensures
        r == Some(ppn),
        a2.current() == a0.current(),
        a2.recycled() == a0.recycled(),
{
    assert(a1.recycled().drop_last() =~= a0.recycled());
}

/// Freeing a page leaves it not held, so freeing it again is refused.
pub proof fn lemma_double_free_refused(a0: StackFrameAllocator, a1: StackFrameAllocator, ppn: PhysPageNum)
    requires
        StackFrameAllocator::deallocate_post(a0, a1, ppn),
    ensures
        !a1.is_held(ppn.0),
{
}

/// A page at or above the frontier was never handed out, so freeing it is refused.
pub proof fn lemma_unallocated_free_refused(a: StackFrameAllocator, ppn: PhysPageNum)
    requires
        ppn.0 >= a.current(),
    ensures
        !a.is_held(ppn.0),
{
}

} // verus!
