//! A task's address space: the pages it maps, each backed by a frame it owns.
use vstd::prelude::*;

use crate::frame_allocator::{backs, frame_alloc, frame_dealloc, FrameTracker, PhysMemory, StackFrameAllocator};

verus! {

/// One mapped virtual page and the frame behind it.
pub struct PageMapping {
    pub vpn: usize,
    pub frame: FrameTracker,
    pub flags: u8,
}

/// What a lookup of a mapped page yields.
#[derive(Clone, Copy, Debug, PartialEq, Eq, Structural)]
pub struct PageTableEntry {
    pub ppn: usize,
    pub flags: u8,
}

impl PageTableEntry {
    /// Every entry that a lookup yields is a live mapping.
    pub fn is_valid(&self) -> (r: bool)
        ensures
            r,
    {
        true
    }
}

/// Access rights of a user mapping, as page-table flag bits.
#[derive(Clone, Copy, Debug, PartialEq, Eq, Structural)]
pub struct MapPermission {
    pub bits: u8,
}

/// Readable.
pub const PERM_R: u8 = 2;
/// Writable.
pub const PERM_W: u8 = 4;
/// Executable.
pub const PERM_X: u8 = 8;
/// Accessible from user mode.
pub const PERM_U: u8 = 16;

/// A request's permission bits are usable: only the three low bits (read,
/// write, execute) may be set, and at least one of them is.
pub open spec fn valid_port(port: usize) -> bool {
    port & !7usize == 0 && port & 7usize != 0
}

/// The flags of a user mapping with the requested permission bits.
pub open spec fn port_flags(port: usize) -> u8 {
    (((port as u8) << 1u8) | PERM_U) as u8
}

impl MapPermission {
    /// The user permission for request bits `port` (bit 0 read, bit 1 write,
    /// bit 2 execute), if they are usable.
    pub fn from_port(port: usize) -> (r: Option<MapPermission>)
        ensures
            r.is_some() == valid_port(port),
            r.is_some() ==> r.unwrap().bits == port_flags(port),
    {
        if (port & !7usize) != 0 || (port & 7usize) == 0 {
            None
        } else {
            Some(MapPermission { bits: ((port as u8) << 1u8) | PERM_U })
        }
    }

    /// Whether the mapping may be read.
    pub fn readable(&self) -> (r: bool)
        ensures
            r == (self.bits & PERM_R != 0),
    {
        self.bits & PERM_R != 0
    }

    /// Whether the mapping may be written.
    pub fn writable(&self) -> (r: bool)
        ensures
            r == (self.bits & PERM_W != 0),
    {
        self.bits & PERM_W != 0
    }

    /// Whether the mapping may be executed.
    pub fn executable(&self) -> (r: bool)
        ensures
            r == (self.bits & PERM_X != 0),
    {
        self.bits & PERM_X != 0
    }
}

/// The address space of one task.
pub struct MemorySet {
    token: usize,
    entries: Vec<PageMapping>,
}

/// The view of a mapping: virtual page, physical page, flags.
pub open spec fn entry_view(e: PageMapping) -> (usize, usize, u8) {
    (e.vpn, e.frame.ppn.0, e.flags)
}

impl View for MemorySet {
    type V = Seq<(usize, usize, u8)>;

    closed spec fn view(&self) -> Seq<(usize, usize, u8)> {
        self.entries@.map_values(|e: PageMapping| entry_view(e))
    }
}

impl MemorySet {
    /// Identifier of the address space's root, used to switch translation.
    pub closed spec fn spec_token(&self) -> usize {
        self.token
    }

    /// Page `vpn` is mapped.
    pub open spec fn is_mapped(&self, vpn: usize) -> bool {
        exists|i: int| 0 <= i < self@.len() && (#[trigger] self@[i]).0 == vpn
    }

    /// Physical page `ppn` backs one of the mappings.
    pub open spec fn owns_frame(&self, ppn: usize) -> bool {
        exists|i: int| 0 <= i < self@.len() && (#[trigger] self@[i]).1 == ppn
    }

    /// `ppn` backs a mapping of a page in `[start_vpn, end_vpn)`: unmapping that range frees it.
    pub open spec fn frees(&self, start_vpn: usize, end_vpn: usize, ppn: usize) -> bool {
        exists|i: int| 0 <= i < self@.len() && (#[trigger] self@[i]).1 == ppn && start_vpn <= self@[i].0 < end_vpn
    }

    /// No virtual page is mapped twice and no frame backs two pages.
    pub open spec fn wf(&self) -> bool {
        &&& forall|i: int, j: int| 0 <= i < self@.len() && 0 <= j < self@.len() && i != j
            ==> (#[trigger] self@[i]).0 != (#[trigger] self@[j]).0 && self@[i].1 != self@[j].1
    }

    /// Every frame of the address space is held out of `fa` and lies in `mem`.
    pub open spec fn frames_in(&self, fa: &StackFrameAllocator, mem: &PhysMemory) -> bool {
        forall|i: int| 0 <= i < self@.len() ==> fa.is_held((#[trigger] self@[i]).1) && mem.contains(self@[i].1)
    }

    /// An empty address space with root `token`.
    pub fn new(token: usize) -> (r: MemorySet)
        ensures
            r.wf(),
            r@ == Seq::<(usize, usize, u8)>::empty(),
            r.spec_token() == token,
    {
        let r = MemorySet { token, entries: Vec::new() };
        proof {
            assert(r@ =~= Seq::<(usize, usize, u8)>::empty());
        }
        r
    }

    /// Identifier of the address space's root.
    pub fn token(&self) -> (r: usize)
        ensures
            r == self.spec_token(),
    {
        self.token
    }

    /// Looks up page `vpn`.
    pub fn translate(&self, vpn: usize) -> (r: Option<PageTableEntry>)
        ensures
            r.is_some() == self.is_mapped(vpn),
            r.is_some() ==> exists|i: int| 0 <= i < self@.len() && #[trigger] self@[i] == (vpn, r.unwrap().ppn, r.unwrap().flags),
    {
        let mut i: usize = 0;
        while i < self.entries.len()
            invariant
                i <= self@.len(),
                self@.len() == self.entries@.len(),
                forall|k: int| 0 <= k < i ==> (#[trigger] self@[k]).0 != vpn,
            decreases self.entries@.len() - i,
        {
            let e = &self.entries[i];
            proof {
                assert(self@[i as int] == entry_view(self.entries@[i as int]));
            }
            if e.vpn == vpn {
                return Some(PageTableEntry { ppn: e.frame.ppn.0, flags: e.flags });
            }
            i = i + 1;
        }
        None
    }

    /// Maps every page of `[start_vpn, end_vpn)` with `flags`, each to a fresh
    /// zero-filled frame; none of those pages may be mapped yet.
    pub fn insert_framed_area(
        &mut self,
        start_vpn: usize,
        end_vpn: usize,
        flags: u8,
        fa: &mut StackFrameAllocator,
        mem: &mut PhysMemory,
    )
        requires
            old(self).wf(),
            old(fa).wf(),
            old(mem).wf(),
            backs(old(mem), old(fa)),
            old(self).frames_in(old(fa), old(mem)),
            start_vpn <= end_vpn,
            old(fa).available() >= end_vpn - start_vpn,
            forall|v: usize| start_vpn <= v < end_vpn ==> !#[trigger] old(self).is_mapped(v),
        ensures
            final(self).wf(),
            final(fa).wf(),
            final(mem).wf(),
            backs(final(mem), final(fa)),
            final(self).frames_in(final(fa), final(mem)),
            final(self).spec_token() == old(self).spec_token(),
            final(mem).base == old(mem).base,
            final(mem).pages@.len() == old(mem).pages@.len(),
            final(fa).available() == old(fa).available() - (end_vpn - start_vpn),
            final(self)@.len() == old(self)@.len() + (end_vpn - start_vpn),
            forall|i: int| 0 <= i < old(self)@.len() ==> #[trigger] final(self)@[i] == old(self)@[i],
            forall|k: int| 0 <= k < end_vpn - start_vpn ==> {
                let e = #[trigger] final(self)@[old(self)@.len() + k];
                &&& e.0 == start_vpn + k
                &&& e.2 == flags
                &&& !old(fa).is_held(e.1)
            },
            forall|q: usize| #[trigger] old(fa).is_held(q) ==> final(fa).is_held(q),
    {
        let ghost s0 = self@;
        let ghost n0 = self@.len();
        let mut v: usize = start_vpn;
        while v < end_vpn
            invariant
                start_vpn <= v <= end_vpn,
                self.wf(),
                fa.wf(),
                mem.wf(),
                backs(mem, fa),
                self.frames_in(fa, mem),
                self.spec_token() == old(self).spec_token(),
                mem.base == old(mem).base,
                mem.pages@.len() == old(mem).pages@.len(),
                fa.available() == old(fa).available() - (v - start_vpn),
                fa.available() >= end_vpn - v,
                self@.len() == n0 + (v - start_vpn),
                self@.len() == self.entries@.len(),
                forall|i: int| 0 <= i < n0 ==> #[trigger] self@[i] == s0[i],
                forall|k: int| 0 <= k < v - start_vpn ==> {
                    let e = #[trigger] self@[n0 + k];
                    &&& e.0 == start_vpn + k
                    &&& e.2 == flags
                    &&& !old(fa).is_held(e.1)
                },
                forall|q: usize| #[trigger] old(fa).is_held(q) ==> fa.is_held(q),
                forall|u: usize| v <= u < end_vpn ==> !#[trigger] self.is_mapped(u),
                s0 == old(self)@,
                n0 == s0.len(),
                forall|u: usize| start_vpn <= u < end_vpn ==> !#[trigger] old(self).is_mapped(u),
            decreases end_vpn - v,
        {
            let ghost fa_pre = *fa;
            let ghost self_pre = self@;
            let ghost ms_pre = *self;
            assert(!ms_pre.is_mapped(v));
            let frame = match frame_alloc(fa, mem) {
                Some(t) => t,
                None => {
                    return;
                },
            };
            let ghost p = frame.ppn.0;
            self.entries.push(PageMapping { vpn: v, frame, flags });
            proof {
                assert(self@ =~= self_pre.push((v, p, flags)));
                assert forall|i: int| 0 <= i < self_pre.len() implies #[trigger] fa.is_held(self_pre[i].1) && self_pre[i].1 != p by {
                    assert(fa_pre.is_held(self_pre[i].1));
                }
                assert forall|i: int| 0 <= i < self_pre.len() implies (#[trigger] self_pre[i]).0 != v by {
                    if self_pre[i].0 == v {
                        assert(ms_pre@[i].0 == v);
                    }
                }
                assert forall|u: usize| v + 1 <= u < end_vpn implies !#[trigger] self.is_mapped(u) by {
                    if self.is_mapped(u) {
                        let i = choose|i: int| 0 <= i < self@.len() && (#[trigger] self@[i]).0 == u;
                        if i < self_pre.len() {
                            assert(ms_pre@[i].0 == u);
                            assert(ms_pre.is_mapped(u));
                        }
                    }
                }
                assert forall|k: int| 0 <= k < v + 1 - start_vpn implies {
                    let e = #[trigger] self@[n0 + k];
                    &&& e.0 == start_vpn + k
                    &&& e.2 == flags
                    &&& !old(fa).is_held(e.1)
                } by {
                    if k == v - start_vpn {
                        if old(fa).is_held(p) {
                            assert(fa_pre.is_held(p));
                        }
                    } else {
                        assert(self@[n0 + k] == self_pre[n0 + k]);
                    }
                }
            }
            v = v + 1;
        }
    }

    /// Removes the mappings of all pages in `[start_vpn, end_vpn)`, giving their
    /// frames back to `fa`.
    pub fn unmap(&mut self, start_vpn: usize, end_vpn: usize, fa: &mut StackFrameAllocator, mem: &PhysMemory)
        requires
            old(self).wf(),
            old(fa).wf(),
            backs(mem, old(fa)),
            old(self).frames_in(old(fa), mem),
        ensures
            final(self).wf(),
            final(fa).wf(),
            backs(mem, final(fa)),
            final(self).frames_in(final(fa), mem),
            final(self).spec_token() == old(self).spec_token(),
            forall|e: (usize, usize, u8)| #[trigger] final(self)@.contains(e)
                <==> (old(self)@.contains(e) && !(start_vpn <= e.0 < end_vpn)),
            forall|q: usize| #[trigger] final(fa).is_held(q) <==> (old(fa).is_held(q) && !old(self).frees(start_vpn, end_vpn, q)),
    {
        let ghost ov = self@;
        let ghost n = ov.len();
        let mut rest: Vec<PageMapping> = Vec::new();
        std::mem::swap(&mut self.entries, &mut rest);
        let mut kept: Vec<PageMapping> = Vec::new();
        proof {
            assert(forall|i: int| 0 <= i < n ==> entry_view(#[trigger] rest@[i]) == ov[i]);
        }
        while rest.len() > 0
            invariant
                rest@.len() <= n,
                n == ov.len(),
                ov == old(self)@,
                old(self).wf(),
                self.token == old(self).token,
                forall|i: int| 0 <= i < rest@.len() ==> entry_view(#[trigger] rest@[i]) == ov[i],
                forall|a: int| 0 <= a < kept@.len() ==> exists|j: int| rest@.len() <= j < n && #[trigger] ov[j] == entry_view(#[trigger] kept@[a]),
                forall|a: int| 0 <= a < kept@.len() ==> !(start_vpn <= (#[trigger] kept@[a]).vpn < end_vpn),
                forall|j: int| rest@.len() <= j < n && !(start_vpn <= (#[trigger] ov[j]).0 < end_vpn)
                    ==> exists|a: int| 0 <= a < kept@.len() && entry_view(#[trigger] kept@[a]) == ov[j],
                forall|a: int, b: int| 0 <= a < kept@.len() && 0 <= b < kept@.len() && a != b
                    ==> (#[trigger] kept@[a]).vpn != (#[trigger] kept@[b]).vpn && kept@[a].frame.ppn.0 != kept@[b].frame.ppn.0,
                fa.wf(),
                backs(mem, fa),
                forall|i: int| 0 <= i < rest@.len() ==> fa.is_held((#[trigger] ov[i]).1),
                forall|a: int| 0 <= a < kept@.len() ==> fa.is_held((#[trigger] kept@[a]).frame.ppn.0) && mem.contains(kept@[a].frame.ppn.0),
                forall|q: usize| #[trigger] fa.is_held(q) <==> (old(fa).is_held(q)
                    && !(exists|j: int| rest@.len() <= j < n && (#[trigger] ov[j]).1 == q && start_vpn <= ov[j].0 < end_vpn)),
                old(self).frames_in(old(fa), mem),
            decreases rest@.len(),
        {
            let ghost m = rest@.len() - 1;
            let ghost fa_pre = *fa;
            let ghost kept_pre = kept@;
            let ghost rest_len = rest@.len();
            let e = rest.pop().unwrap();
            assert(entry_view(e) == ov[m]);
            if start_vpn <= e.vpn && e.vpn < end_vpn {
                proof {
                    assert(fa.is_held(ov[m].1));
                    assert(mem.contains(ov[m].1));
                }
                frame_dealloc(fa, e.frame);
                proof {
                    assert forall|i: int| 0 <= i < rest@.len() implies fa.is_held((#[trigger] ov[i]).1) by {
                        assert(ov[i].1 != ov[m].1);
                    }
                    assert forall|a: int| 0 <= a < kept@.len() implies fa.is_held((#[trigger] kept@[a]).frame.ppn.0) by {
                        let j = choose|j: int| rest_len <= j < n && #[trigger] ov[j] == entry_view(kept@[a]);
                        assert(ov[j].1 != ov[m].1);
                    }
                    assert forall|i: int| 0 <= i < fa.recycled().len() implies #[trigger] mem.contains(fa.recycled()[i]) by {
                        if i < fa_pre.recycled().len() {
                            assert(fa.recycled()[i] == fa_pre.recycled()[i]);
                        }
                    }
                    assert forall|q: usize| #[trigger] fa.is_held(q) <==> (old(fa).is_held(q)
                        && !(exists|j: int| rest@.len() <= j < n && (#[trigger] ov[j]).1 == q && start_vpn <= ov[j].0 < end_vpn)) by {
                        if q == ov[m].1 {
                            assert(rest@.len() <= m < n && ov[m].1 == q && start_vpn <= ov[m].0 < end_vpn);
                        } else {
                            if exists|j: int| rest@.len() <= j < n && (#[trigger] ov[j]).1 == q && start_vpn <= ov[j].0 < end_vpn {
                                let j = choose|j: int| rest@.len() <= j < n && (#[trigger] ov[j]).1 == q && start_vpn <= ov[j].0 < end_vpn;
                                assert(j != m);
                                assert(rest_len <= j < n);
                            }
                        }
                    }
                    assert forall|a: int| 0 <= a < kept@.len() implies exists|j: int| rest@.len() <= j < n && #[trigger] ov[j] == entry_view(#[trigger] kept@[a]) by {
                        let j = choose|j: int| rest_len <= j < n && #[trigger] ov[j] == entry_view(kept@[a]);
                        assert(rest@.len() <= j < n);
                    }
                    assert forall|j: int| rest@.len() <= j < n && !(start_vpn <= (#[trigger] ov[j]).0 < end_vpn)
                        implies exists|a: int| 0 <= a < kept@.len() && entry_view(#[trigger] kept@[a]) == ov[j] by {
                        assert(j != m);
                        assert(rest_len <= j < n);
                    }
                }
            } else {
                kept.push(e);
                proof {
                    let ka = kept_pre.len() as int;
                    assert(kept@[ka] == e);
                    assert forall|a: int| 0 <= a < kept@.len() implies exists|j: int| rest@.len() <= j < n && #[trigger] ov[j] == entry_view(#[trigger] kept@[a]) by {
                        if a == ka {
                            assert(ov[m] == entry_view(kept@[a]));
                        } else {
                            assert(kept@[a] == kept_pre[a]);
                            let j = choose|j: int| rest_len <= j < n && #[trigger] ov[j] == entry_view(kept_pre[a]);
                            assert(rest@.len() <= j < n);
                        }
                    }
                    assert forall|a: int, b: int| 0 <= a < kept@.len() && 0 <= b < kept@.len() && a != b
                        implies (#[trigger] kept@[a]).vpn != (#[trigger] kept@[b]).vpn && kept@[a].frame.ppn.0 != kept@[b].frame.ppn.0 by {
                        if a == ka {
                            assert(kept@[b] == kept_pre[b]);
                            let j = choose|j: int| rest_len <= j < n && #[trigger] ov[j] == entry_view(kept_pre[b]);
                            assert(ov[j] != ov[m] || j == m);
                        } else if b == ka {
                            assert(kept@[a] == kept_pre[a]);
                            let j = choose|j: int| rest_len <= j < n && #[trigger] ov[j] == entry_view(kept_pre[a]);
                            assert(ov[j] != ov[m] || j == m);
                        } else {
                            assert(kept@[a] == kept_pre[a]);
                            assert(kept@[b] == kept_pre[b]);
                        }
                    }
                    assert forall|a: int| 0 <= a < kept@.len() implies fa.is_held((#[trigger] kept@[a]).frame.ppn.0) && mem.contains(kept@[a].frame.ppn.0) by {
                        if a == ka {
                            assert(old(self).frames_in(old(fa), mem));
                            assert(mem.contains(old(self)@[m].1));
                        } else {
                            assert(kept@[a] == kept_pre[a]);
                        }
                    }
                    assert forall|a: int| 0 <= a < kept@.len() implies !(start_vpn <= (#[trigger] kept@[a]).vpn < end_vpn) by {
                        if a != ka {
                            assert(kept@[a] == kept_pre[a]);
                        }
                    }
                    assert forall|j: int| rest@.len() <= j < n && !(start_vpn <= (#[trigger] ov[j]).0 < end_vpn)
                        implies exists|a: int| 0 <= a < kept@.len() && entry_view(#[trigger] kept@[a]) == ov[j] by {
                        if j == m {
                            assert(entry_view(kept@[ka]) == ov[j]);
                        } else {
                            assert(rest_len <= j < n);
                            let a = choose|a: int| 0 <= a < kept_pre.len() && entry_view(#[trigger] kept_pre[a]) == ov[j];
                            assert(kept@[a] == kept_pre[a]);
                        }
                    }
                    assert forall|q: usize| #[trigger] fa.is_held(q) <==> (old(fa).is_held(q)
                        && !(exists|j: int| rest@.len() <= j < n && (#[trigger] ov[j]).1 == q && start_vpn <= ov[j].0 < end_vpn)) by {
                        if exists|j: int| rest@.len() <= j < n && (#[trigger] ov[j]).1 == q && start_vpn <= ov[j].0 < end_vpn {
                            let j = choose|j: int| rest@.len() <= j < n && (#[trigger] ov[j]).1 == q && start_vpn <= ov[j].0 < end_vpn;
                            assert(j != m);
                            assert(rest_len <= j < n);
                        }
                    }
                }
            }
        }
        self.entries = kept;
        proof {
            assert(rest@.len() == 0);
            assert forall|x: (usize, usize, u8)| #[trigger] self@.contains(x)
                <==> (ov.contains(x) && !(start_vpn <= x.0 < end_vpn)) by {
                if self@.contains(x) {
                    let a = choose|a: int| 0 <= a < self@.len() && self@[a] == x;
                    assert(entry_view(kept@[a]) == x);
                    let j = choose|j: int| rest@.len() <= j < n && #[trigger] ov[j] == entry_view(kept@[a]);
                    assert(ov.contains(x));
                }
                if ov.contains(x) && !(start_vpn <= x.0 < end_vpn) {
                    let j = choose|j: int| 0 <= j < n && ov[j] == x;
                    assert(rest@.len() <= j < n && !(start_vpn <= ov[j].0 < end_vpn));
                    let a = choose|a: int| 0 <= a < kept@.len() && entry_view(#[trigger] kept@[a]) == ov[j];
                    assert(self@[a] == x);
                }
            }
            assert forall|q: usize| #[trigger] fa.is_held(q) <==> (old(fa).is_held(q) && !old(self).frees(start_vpn, end_vpn, q)) by {
                if old(self).frees(start_vpn, end_vpn, q) {
                    let j = choose|j: int| 0 <= j < ov.len() && (#[trigger] ov[j]).1 == q && start_vpn <= ov[j].0 < end_vpn;
                    assert(rest@.len() <= j < n);
                }
                if exists|j: int| rest@.len() <= j < n && (#[trigger] ov[j]).1 == q && start_vpn <= ov[j].0 < end_vpn {
                    let j = choose|j: int| rest@.len() <= j < n && (#[trigger] ov[j]).1 == q && start_vpn <= ov[j].0 < end_vpn;
                    assert(old(self)@[j].1 == q);
                }
            }
            assert forall|i: int, j: int| 0 <= i < self@.len() && 0 <= j < self@.len() && i != j
                implies (#[trigger] self@[i]).0 != (#[trigger] self@[j]).0 && self@[i].1 != self@[j].1 by {
                assert(self@[i] == entry_view(kept@[i]));
                assert(self@[j] == entry_view(kept@[j]));
            }
            assert forall|i: int| 0 <= i < self@.len() implies fa.is_held((#[trigger] self@[i]).1) && mem.contains(self@[i].1) by {
                assert(self@[i] == entry_view(kept@[i]));
            }
        }
    }
}

} // verus!
