//! The three-level page table and its address-translation walk.
//!
//! One kernel-owned table translates a 39-bit virtual address space in
//! 4096-byte pages: the address splits into three nine-bit indices, walked
//! from the root downward. Each table is one frame of 512 entries. A valid
//! entry at the bottom level is a leaf naming the physical frame; a valid
//! entry above is a branch naming the frame of the next-level table, which
//! this model owns alongside the raw entries. Branch frames come from the
//! page-frame allocator, one `zalloc` per missing level, exactly as the
//! hardware-facing table is built.

use vstd::prelude::*;
use crate::page::{FrameAllocator, PAGE_SIZE, alloc_ok, alloc_ok_at, preserves_taken};
use crate::page::{lemma_free_count_pos, lemma_alloc_free_count, lemma_alloc_preserves_taken};
use crate::pte::{Entry, VPN, entry_bits, entry_paddr, entry_flags, entry_valid, entry_leaf};
use crate::pte::{lemma_entry_encode, lemma_vpn_unique};
use crate::page::{lemma_preserves_taken_trans, lemma_div_exact, align_page_down, align_val};
use crate::page::lemma_run_end_unique;
use crate::page::PAGE_ORDER;
use crate::mem::Region;

verus! {

/// Entries per table: nine index bits per level.
pub const PAGE_TABLE_ENTRIES: usize = 512;

pub open spec fn vpn2_of(v: u64) -> int {
    (((v >> 30) & 0x1ff) as u64) as int
}

pub open spec fn vpn1_of(v: u64) -> int {
    (((v >> 21) & 0x1ff) as u64) as int
}

pub open spec fn vpn0_of(v: u64) -> int {
    (((v >> 12) & 0x1ff) as u64) as int
}

/// A bottom-level table: one frame of leaf entries.
pub struct Table0 {
    pub base: u64,
    pub entries: Vec<Entry>,
}

/// A middle-level table: one frame of branch entries, owning the
/// bottom-level tables those entries point at.
pub struct Table1 {
    pub base: u64,
    pub entries: Vec<Entry>,
    pub children: Vec<Option<Table0>>,
}

/// The root table, owning the whole tree below it.
pub struct PageTable {
    pub entries: Vec<Entry>,
    pub children: Vec<Option<Table1>>,
}

impl Table0 {
    /// Well-formed: a full frame of entries at a frame-aligned base, every
    /// valid entry a leaf.
    pub open spec fn wf(self) -> bool {
        &&& self.entries@.len() == 512
        &&& self.base % PAGE_SIZE == 0
        &&& forall|j: int|
            0 <= j < 512 && entry_valid((#[trigger] self.entries@[j]).0) ==> entry_leaf(
                self.entries@[j].0,
            )
    }
}

impl Table1 {
    /// The branch entry at `j` and the owned child table agree: a valid
    /// entry is a branch whose target is exactly the child's frame, and a
    /// child exists exactly under a valid entry.
    pub open spec fn rel(self, j: int) -> bool {
        let e = self.entries@[j].0;
        &&& (entry_valid(e) ==> {
            &&& !entry_leaf(e)
            &&& self.children@[j] is Some
            &&& self.children@[j]->Some_0.wf()
            &&& self.children@[j]->Some_0.base == entry_paddr(e)
        })
        &&& (!entry_valid(e) ==> self.children@[j] is None)
    }

    pub open spec fn wf(self) -> bool {
        &&& self.entries@.len() == 512
        &&& self.children@.len() == 512
        &&& self.base % PAGE_SIZE == 0
        &&& forall|j: int| 0 <= j < 512 ==> #[trigger] self.rel(j)
    }

    /// The translation this subtree gives to the index pair `(j1, j0)`.
    pub open spec fn lookup_idx(self, j1: int, j0: int) -> Option<u64> {
        let e1 = self.entries@[j1].0;
        if !entry_valid(e1) {
            None
        } else {
            let e0 = self.children@[j1]->Some_0.entries@[j0].0;
            if entry_valid(e0) {
                Some(entry_paddr(e0))
            } else {
                None
            }
        }
    }

    /// The raw leaf entry under the index pair, when the walk reaches one.
    pub open spec fn leaf_idx(self, j1: int, j0: int) -> Option<u64> {
        let e1 = self.entries@[j1].0;
        if !entry_valid(e1) {
            None
        } else {
            Some(self.children@[j1]->Some_0.entries@[j0].0)
        }
    }
}

impl PageTable {
    /// As `Table1::rel`, one level up.
    pub open spec fn rel(self, i: int) -> bool {
        let e = self.entries@[i].0;
        &&& (entry_valid(e) ==> {
            &&& !entry_leaf(e)
            &&& self.children@[i] is Some
            &&& self.children@[i]->Some_0.wf()
            &&& self.children@[i]->Some_0.base == entry_paddr(e)
        })
        &&& (!entry_valid(e) ==> self.children@[i] is None)
    }

    pub open spec fn wf(self) -> bool {
        &&& self.entries@.len() == 512
        &&& self.children@.len() == 512
        &&& forall|i: int| 0 <= i < 512 ==> #[trigger] self.rel(i)
    }

    pub open spec fn has_t1(self, i: int) -> bool {
        0 <= i < 512 && self.children@[i] is Some
    }

    pub open spec fn t1(self, i: int) -> Table1 {
        self.children@[i]->Some_0
    }

    pub open spec fn has_t0(self, i: int, j: int) -> bool {
        self.has_t1(i) && 0 <= j < 512 && self.t1(i).children@[j] is Some
    }

    pub open spec fn t0(self, i: int, j: int) -> Table0 {
        self.t1(i).children@[j]->Some_0
    }

    /// The translation of the index triple `(j2, j1, j0)`.
    pub open spec fn lookup_idx(self, j2: int, j1: int, j0: int) -> Option<u64> {
        let e2 = self.entries@[j2].0;
        if !entry_valid(e2) {
            None
        } else {
            self.children@[j2]->Some_0.lookup_idx(j1, j0)
        }
    }

    /// The raw leaf entry of the index triple, when the walk reaches one.
    pub open spec fn leaf_idx(self, j2: int, j1: int, j0: int) -> Option<u64> {
        let e2 = self.entries@[j2].0;
        if !entry_valid(e2) {
            None
        } else {
            self.children@[j2]->Some_0.leaf_idx(j1, j0)
        }
    }

    /// What the walk answers for virtual address `v`: the physical frame of
    /// the leaf reached, or nothing at the first invalid entry.
    pub open spec fn translate_spec(self, v: u64) -> Option<u64> {
        self.lookup_idx(vpn2_of(v), vpn1_of(v), vpn0_of(v))
    }

    /// The raw leaf entry that translates `v`.
    pub open spec fn leaf_spec(self, v: u64) -> Option<u64> {
        self.leaf_idx(vpn2_of(v), vpn1_of(v), vpn0_of(v))
    }
}

/// A ten-bit leaf flag set with an access bit: once the validity bit is
/// added, encoding a frame-aligned address and these flags round-trips.
proof fn lemma_leaf_flags(flags: u64)
    by (bit_vector)
    requires
        flags <= 0x3ff,
        flags & 0xe != 0,
    ensures
        (flags | 1) <= 0x3ff,
        (flags | 1) & 1 != 0,
        (flags | 1) & 0xe != 0,
{
}

impl Table1 {
    /// Install the leaf translating `vaddr` to `paddr` in this subtree,
    /// first obtaining a fresh zero-filled bottom-level table from the
    /// allocator when the branch entry is invalid. Returns the base address
    /// of the created table, if one was created.
    pub fn map_in(
        &mut self,
        fa: &mut FrameAllocator,
        vaddr: u64,
        paddr: u64,
        flags: u64,
    ) -> (created: Option<u64>)
        requires
            old(self).wf(),
            old(fa).wf(),
            old(fa).free_count() >= 1,
            paddr % PAGE_SIZE == 0,
            paddr < 0x100_0000_0000_0000,
            flags <= 0x3ff,
            flags & 0xe != 0,
        ensures
            final(self).wf(),
            final(fa).wf(),
            final(self).base == old(self).base,
            forall|j: int|
                0 <= j < 512 && j != vpn1_of(vaddr) ==> final(self).entries@[j] == old(
                    self,
                ).entries@[j] && final(self).children@[j] == old(self).children@[j],
            forall|j1: int, j0: int|
                0 <= j1 < 512 && 0 <= j0 < 512 && (j1 != vpn1_of(vaddr) || j0 != vpn0_of(vaddr))
                    ==> final(self).lookup_idx(j1, j0) == old(self).lookup_idx(j1, j0),
            forall|j1: int, j0: int|
                0 <= j1 < 512 && 0 <= j0 < 512 && (j1 != vpn1_of(vaddr) || j0 != vpn0_of(vaddr))
                    && old(self).lookup_idx(j1, j0) is Some ==> final(self).leaf_idx(j1, j0)
                    == old(self).leaf_idx(j1, j0),
            final(self).lookup_idx(vpn1_of(vaddr), vpn0_of(vaddr)) == Some(paddr),
            final(self).leaf_idx(vpn1_of(vaddr), vpn0_of(vaddr)) == Some(
                entry_bits(paddr, flags | 1),
            ),
            final(self).children@[vpn1_of(vaddr)] is Some,
            final(self).children@[vpn1_of(vaddr)]->Some_0.entries@.len() == 512,
            match created {
                Option::None => {
                    &&& *final(fa) == *old(fa)
                    &&& old(self).children@[vpn1_of(vaddr)] is Some
                    &&& final(self).children@[vpn1_of(vaddr)]->Some_0.base == old(
                        self,
                    ).children@[vpn1_of(vaddr)]->Some_0.base
                },
                Option::Some(b) => {
                    &&& alloc_ok(*old(fa), *final(fa), 1, b)
                    &&& old(self).children@[vpn1_of(vaddr)] is None
                    &&& final(self).children@[vpn1_of(vaddr)]->Some_0.base == b
                },
            },
    {
        let vpn = VPN(vaddr);
        let idx1 = vpn.vpn1() as usize;
        let idx0 = vpn.vpn0() as usize;
        proof {
            assert(idx1 as int == vpn1_of(vaddr));
            assert(idx0 as int == vpn0_of(vaddr));
            assert(old(self).rel(idx1 as int));
        }
        let ghost pre = *self;
        let ghost fa0 = *fa;
        let mut created: Option<u64> = None;
        if !self.entries[idx1].valid() {
            let b = match fa.zalloc(1) {
                Some(b) => b,
                None => {
                    proof {
                        lemma_free_count_pos(fa0);
                    }
                    assert(false);
                    0
                },
            };
            proof {
                let gi = choose|i: int| alloc_ok_at(fa0, *fa, 1, b, i);
                assert(alloc_ok_at(fa0, *fa, 1, b, gi));
                lemma_frame_addr_fits(fa0, gi);
                lemma_entry_encode(b, 1);
                assert(1u64 & 1 != 0 && 1u64 & 0xe == 0) by (bit_vector);
            }
            let t0 = Table0::new(b);
            self.entries.set(idx1, Entry::new(b, 1));
            self.children.set(idx1, Some(t0));
            created = Some(b);
            proof {
                assert(self.rel(idx1 as int));
                assert forall|j: int| 0 <= j < 512 && j != idx1 as int implies #[trigger] self.rel(
                    j,
                ) by {
                    assert(pre.rel(j));
                    assert(self.entries@[j] == pre.entries@[j]);
                    assert(self.children@[j] == pre.children@[j]);
                }
                assert(self.wf());
            }
        }
        let ghost mid = *self;
        proof {
            assert(mid.rel(idx1 as int));
            assert(entry_valid(mid.entries@[idx1 as int].0));
            lemma_leaf_flags(flags);
            lemma_entry_encode(paddr, flags | 1);
        }
        let e = Entry::new(paddr, flags | 1);
        match &mut self.children[idx1] {
            Some(t0) => {
                t0.entries.set(idx0, e);
            },
            None => {
                proof {
                    assert(false);
                }
            },
        }
        proof {
            let i1 = idx1 as int;
            let i0 = idx0 as int;
            // the touched child keeps its base and stays well formed
            assert(self.children@[i1] is Some);
            let c = self.children@[i1]->Some_0;
            let cm = mid.children@[i1]->Some_0;
            assert(c.base == cm.base);
            assert(c.entries@ == cm.entries@.update(i0, Entry(entry_bits(paddr, flags | 1))));
            assert forall|j: int|
                0 <= j < 512 && entry_valid((#[trigger] c.entries@[j]).0) implies entry_leaf(
                c.entries@[j].0,
            ) by {
                if j != i0 {
                    assert(c.entries@[j] == cm.entries@[j]);
                }
            }
            assert(c.wf());
            assert(self.entries@ == mid.entries@);
            assert(self.rel(i1));
            assert forall|j: int| 0 <= j < 512 && j != i1 implies #[trigger] self.rel(j) by {
                assert(mid.rel(j));
                assert(self.entries@[j] == mid.entries@[j]);
                assert(self.children@[j] == mid.children@[j]);
            }
            assert(self.wf());
            // the walked pair maps to the new leaf
            assert(self.lookup_idx(i1, i0) == Some(paddr));
            assert(self.leaf_idx(i1, i0) == Some(entry_bits(paddr, flags | 1)));
            // every other lookup is what it was
            assert forall|j1: int, j0: int|
                0 <= j1 < 512 && 0 <= j0 < 512 && (j1 != i1 || j0 != i0) implies self.lookup_idx(
                j1,
                j0,
            ) == pre.lookup_idx(j1, j0) && (pre.lookup_idx(j1, j0) is Some ==> self.leaf_idx(
                j1,
                j0,
            ) == pre.leaf_idx(j1, j0)) by {
                if j1 != i1 {
                    assert(self.entries@[j1] == pre.entries@[j1]);
                    assert(self.children@[j1] == pre.children@[j1]);
                } else {
                    assert(j0 != i0);
                    if entry_valid(pre.entries@[i1].0) {
                        assert(c.entries@[j0] == cm.entries@[j0]);
                        assert(cm.entries@[j0] == pre.children@[i1]->Some_0.entries@[j0]);
                    } else {
                        // the branch was created fresh: its other entries are
                        // still zero, so those lookups stay misses
                        assert(!entry_valid(0u64)) by (bit_vector);
                        assert(cm.entries@[j0].0 == 0);
                        assert(pre.lookup_idx(j1, j0) is None);
                        assert(self.lookup_idx(j1, j0) is None);
                    }
                }
            }
        }
        created
    }
}

/// What one `map_addr(vaddr, paddr, flags)` call does to the translation
/// relation: the walked address now translates to `paddr` under a leaf
/// carrying `flags` plus the validity bit, and every other frame-aligned
/// address of the 39-bit space translates exactly as before.
pub open spec fn map_addr_post(
    pre: PageTable,
    post: PageTable,
    vaddr: u64,
    paddr: u64,
    flags: u64,
) -> bool {
    &&& post.translate_spec(vaddr) == Some(paddr)
    &&& post.leaf_spec(vaddr) == Some(entry_bits(paddr, flags | 1))
    &&& forall|w: u64|
        w % PAGE_SIZE == 0 && w < 0x80_0000_0000 && w != vaddr ==> post.translate_spec(w)
            == pre.translate_spec(w)
}

/// What mapping a region identity-wise does: every frame-aligned address of
/// the region's window translates to itself afterwards.
pub open spec fn id_map_post(post: PageTable, region: Region) -> bool {
    forall|a: u64|
        a % PAGE_SIZE == 0 && #[trigger] in_id_window(region, a) ==> post.translate_spec(a)
            == Some(a)
}

/// The frame at `b` is a live single-frame allocation of `a`: inside the
/// pool, taken, and the end of its run.
pub open spec fn base_allocated(a: FrameAllocator, b: u64) -> bool {
    let i = a.index_of(b);
    &&& 0 <= i < a.len()
    &&& b == a.frame_addr(i)
    &&& a.pages@[i].taken()
    &&& a.pages@[i].last()
}

/// The page table and the allocator agree: every branch-table frame of the
/// tree is a live single-frame allocation, and no frame backs two tables.
pub open spec fn pt_inv(pt: PageTable, a: FrameAllocator) -> bool {
    &&& (forall|i: int| #[trigger] pt.has_t1(i) ==> base_allocated(a, pt.t1(i).base))
    &&& (forall|i: int, j: int| #[trigger] pt.has_t0(i, j) ==> base_allocated(a, pt.t0(i, j).base))
    &&& (forall|i: int, j: int|
        pt.has_t1(i) && pt.has_t1(j) && i != j ==> (#[trigger] pt.t1(i).base) != (
        #[trigger] pt.t1(j).base))
    &&& (forall|i: int, j: int, k: int, l: int|
        pt.has_t0(i, j) && pt.has_t0(k, l) && (i != k || j != l) ==> (#[trigger] pt.t0(i, j).base)
            != (#[trigger] pt.t0(k, l).base))
    &&& (forall|i: int, k: int, l: int|
        pt.has_t1(i) && pt.has_t0(k, l) ==> (#[trigger] pt.t1(i).base) != (#[trigger] pt.t0(
            k,
            l,
        ).base))
}

/// Frame addresses are frame-aligned and below the physical-address limit.
pub proof fn lemma_frame_addr_fits(a: FrameAllocator, i: int)
    requires
        a.wf(),
        0 <= i < a.len(),
    ensures
        a.frame_addr(i) % (PAGE_SIZE as int) == 0,
        a.frame_addr(i) + PAGE_SIZE <= a.alloc_start + a.len() * PAGE_SIZE,
        0 < a.frame_addr(i) + PAGE_SIZE < 0x100_0000_0000_0000,
{
    assert((a.alloc_start + i * PAGE_SIZE) % (PAGE_SIZE as int) == 0) by (nonlinear_arith)
        requires
            a.alloc_start % PAGE_SIZE == 0,
            i >= 0,
    ;
    assert(i * PAGE_SIZE + PAGE_SIZE <= a.len() * PAGE_SIZE) by (nonlinear_arith)
        requires
            i < a.len(),
    ;
}

/// Distinct pool indices give distinct frame addresses.
pub proof fn lemma_frame_addr_inj(a: FrameAllocator, i: int, j: int)
    requires
        a.frame_addr(i) == a.frame_addr(j),
    ensures
        i == j,
{
    assert(i * PAGE_SIZE == j * PAGE_SIZE ==> i == j) by (nonlinear_arith);
}

impl Table0 {
    /// A fresh zero-filled bottom-level table over the frame at `base`.
    pub fn new(base: u64) -> (r: Table0)
        requires
            base % PAGE_SIZE == 0,
        ensures
            r.wf(),
            r.base == base,
            forall|j: int| 0 <= j < 512 ==> (#[trigger] r.entries@[j]).0 == 0,
    {
        let mut entries: Vec<Entry> = Vec::new();
        let mut j: usize = 0;
        while j < 512
            invariant
                entries@.len() == j,
                j <= 512,
                forall|t: int| 0 <= t < j ==> (#[trigger] entries@[t]).0 == 0,
            decreases 512 - j,
        {
            entries.push(Entry(0));
            j = j + 1;
        }
        let r = Table0 { base, entries };
        proof {
            assert(!entry_valid(0u64)) by (bit_vector);
        }
        r
    }
}

impl Table1 {
    /// A fresh zero-filled middle-level table over the frame at `base`, with
    /// no children yet.
    pub fn new(base: u64) -> (r: Table1)
        requires
            base % PAGE_SIZE == 0,
        ensures
            r.wf(),
            r.base == base,
            forall|j: int| 0 <= j < 512 ==> (#[trigger] r.entries@[j]).0 == 0,
            forall|j: int| 0 <= j < 512 ==> (#[trigger] r.children@[j]) is None,
    {
        let mut entries: Vec<Entry> = Vec::new();
        let mut children: Vec<Option<Table0>> = Vec::new();
        let mut j: usize = 0;
        while j < 512
            invariant
                entries@.len() == j,
                children@.len() == j,
                j <= 512,
                forall|t: int| 0 <= t < j ==> (#[trigger] entries@[t]).0 == 0,
                forall|t: int| 0 <= t < j ==> (#[trigger] children@[t]) is None,
            decreases 512 - j,
        {
            entries.push(Entry(0));
            children.push(None);
            j = j + 1;
        }
        let r = Table1 { base, entries, children };
        proof {
            assert(!entry_valid(0u64)) by (bit_vector);
            assert(forall|j: int| 0 <= j < 512 ==> #[trigger] r.rel(j));
        }
        r
    }
}

impl PageTable {
    /// A fresh page table with no mappings: every entry invalid.
    pub fn new() -> (r: PageTable)
        ensures
            r.wf(),
            forall|i: int| 0 <= i < 512 ==> (#[trigger] r.entries@[i]).0 == 0,
            forall|i: int| 0 <= i < 512 ==> (#[trigger] r.children@[i]) is None,
            forall|j2: int, j1: int, j0: int| 0 <= j2 < 512 ==> r.lookup_idx(j2, j1, j0) is None,
    {
        let mut entries: Vec<Entry> = Vec::new();
        let mut children: Vec<Option<Table1>> = Vec::new();
        let mut j: usize = 0;
        while j < 512
            invariant
                entries@.len() == j,
                children@.len() == j,
                j <= 512,
                forall|t: int| 0 <= t < j ==> (#[trigger] entries@[t]).0 == 0,
                forall|t: int| 0 <= t < j ==> (#[trigger] children@[t]) is None,
            decreases 512 - j,
        {
            entries.push(Entry(0));
            children.push(None);
            j = j + 1;
        }
        let r = PageTable { entries, children };
        proof {
            assert(!entry_valid(0u64)) by (bit_vector);
            assert(forall|i: int| 0 <= i < 512 ==> #[trigger] r.rel(i));
            assert forall|j2: int, j1: int, j0: int| 0 <= j2 < 512 implies r.lookup_idx(
                j2,
                j1,
                j0,
            ) is None by {
                assert(r.entries@[j2].0 == 0);
            }
        }
        r
    }

    /// Number of entries in one table.
    pub fn len() -> (r: usize)
        ensures
            r == 512,
    {
        PAGE_TABLE_ENTRIES
    }

    /// Map the frame-aligned virtual address `vaddr` to the frame-aligned
    /// physical address `paddr` with the leaf attribute set `flags`, walking
    /// from the root and installing a fresh zero-filled branch table from the
    /// allocator at each of the two upper levels whose entry is invalid.
    /// Remapping an address silently overwrites its leaf; every other
    /// translation is untouched.
    #[verifier::rlimit(100)]
    pub fn map_addr(&mut self, fa: &mut FrameAllocator, vaddr: u64, paddr: u64, flags: u64)
        requires
            old(self).wf(),
            old(fa).wf(),
            pt_inv(*old(self), *old(fa)),
            old(fa).free_count() >= 2,
            vaddr % PAGE_SIZE == 0,
            vaddr < 0x80_0000_0000,
            paddr % PAGE_SIZE == 0,
            paddr < 0x100_0000_0000_0000,
            flags <= 0x3ff,
            flags & 0xe != 0,
        ensures
            final(self).wf(),
            final(fa).wf(),
            pt_inv(*final(self), *final(fa)),
            final(fa).alloc_start == old(fa).alloc_start,
            final(fa).len() == old(fa).len(),
            final(fa).free_count() >= old(fa).free_count() - 2,
            preserves_taken(*old(fa), *final(fa)),
            forall|k: int|
                0 <= k < old(fa).len() && (#[trigger] old(fa).pages@[k]).taken()
                    ==> final(fa).pages@[k] == old(fa).pages@[k],
            final(self).translate_spec(vaddr) == Some(paddr),
            final(self).leaf_spec(vaddr) == Some(entry_bits(paddr, flags | 1)),
            forall|j2: int, j1: int, j0: int|
                0 <= j2 < 512 && 0 <= j1 < 512 && 0 <= j0 < 512 && (j2 != vpn2_of(vaddr) || j1
                    != vpn1_of(vaddr) || j0 != vpn0_of(vaddr)) ==> final(self).lookup_idx(
                    j2,
                    j1,
                    j0,
                ) == old(self).lookup_idx(j2, j1, j0),
            forall|j2: int, j1: int, j0: int|
                0 <= j2 < 512 && 0 <= j1 < 512 && 0 <= j0 < 512 && (j2 != vpn2_of(vaddr) || j1
                    != vpn1_of(vaddr) || j0 != vpn0_of(vaddr)) && old(self).lookup_idx(
                    j2,
                    j1,
                    j0,
                ) is Some ==> final(self).leaf_idx(j2, j1, j0) == old(self).leaf_idx(j2, j1, j0),
            map_addr_post(*old(self), *final(self), vaddr, paddr, flags),
    {
        let vpn = VPN(vaddr);
        let idx2 = vpn.vpn2() as usize;
        proof {
            assert(idx2 as int == vpn2_of(vaddr));
            assert(old(self).rel(idx2 as int));
        }
        let ghost pre = *self;
        let ghost fa0 = *fa;
        if !self.entries[idx2].valid() {
            let b = match fa.zalloc(1) {
                Some(b) => b,
                None => {
                    proof {
                        lemma_free_count_pos(fa0);
                    }
                    assert(false);
                    0
                },
            };
            proof {
                let gi = choose|i: int| alloc_ok_at(fa0, *fa, 1, b, i);
                assert(alloc_ok_at(fa0, *fa, 1, b, gi));
                lemma_frame_addr_fits(fa0, gi);
                lemma_entry_encode(b, 1);
                assert(1u64 & 1 != 0 && 1u64 & 0xe == 0) by (bit_vector);
            }
            let t1 = Table1::new(b);
            self.entries.set(idx2, Entry::new(b, 1));
            self.children.set(idx2, Some(t1));
            proof {
                assert(self.rel(idx2 as int));
                assert forall|j: int| 0 <= j < 512 && j != idx2 as int implies #[trigger] self.rel(
                    j,
                ) by {
                    assert(pre.rel(j));
                    assert(self.entries@[j] == pre.entries@[j]);
                    assert(self.children@[j] == pre.children@[j]);
                }
                assert(self.wf());
                lemma_alloc_free_count(fa0, *fa, 1, b);
            }
        }
        let ghost mid = *self;
        let ghost fam = *fa;
        proof {
            // agreement between the part-built tree and the allocator
            assert(mid.rel(idx2 as int));
            let i2 = idx2 as int;
            if !entry_valid(pre.entries@[i2].0) {
                let b = mid.t1(i2).base;
                lemma_alloc_base_allocated(fa0, fam, b);
                assert forall|i: int| #[trigger] mid.has_t1(i) implies base_allocated(
                    fam,
                    mid.t1(i).base,
                ) by {
                    if i != i2 {
                        assert(pre.has_t1(i));
                        lemma_alloc_keeps_allocated(fa0, fam, b, pre.t1(i).base);
                    }
                }
                assert forall|i: int, j: int| #[trigger] mid.has_t0(i, j) implies base_allocated(
                    fam,
                    mid.t0(i, j).base,
                ) by {
                    assert(i != i2);
                    assert(pre.has_t0(i, j));
                    lemma_alloc_keeps_allocated(fa0, fam, b, pre.t0(i, j).base);
                }
                assert forall|i: int, j: int|
                    mid.has_t1(i) && mid.has_t1(j) && i != j implies (#[trigger] mid.t1(i).base)
                    != (#[trigger] mid.t1(j).base) by {
                    if i == i2 {
                        assert(pre.has_t1(j));
                        lemma_alloc_keeps_allocated(fa0, fam, b, pre.t1(j).base);
                    } else if j == i2 {
                        assert(pre.has_t1(i));
                        lemma_alloc_keeps_allocated(fa0, fam, b, pre.t1(i).base);
                    } else {
                        assert(pre.has_t1(i) && pre.has_t1(j));
                    }
                }
                assert forall|i: int, j: int, k: int, l: int|
                    mid.has_t0(i, j) && mid.has_t0(k, l) && (i != k || j != l) implies (
                #[trigger] mid.t0(i, j).base) != (#[trigger] mid.t0(k, l).base) by {
                    assert(pre.has_t0(i, j) && pre.has_t0(k, l));
                }
                assert forall|i: int, k: int, l: int|
                    mid.has_t1(i) && mid.has_t0(k, l) implies (#[trigger] mid.t1(i).base) != (
                #[trigger] mid.t0(k, l).base) by {
                    assert(pre.has_t0(k, l));
                    if i == i2 {
                        lemma_alloc_keeps_allocated(fa0, fam, b, pre.t0(k, l).base);
                    } else {
                        assert(pre.has_t1(i));
                    }
                }
                assert(pt_inv(mid, fam));
            } else {
                assert(mid == pre && fam == fa0);
            }
            assert(pt_inv(mid, fam));
            assert(fam.free_count() >= 1);
        }
        let created: Option<u64>;
        match &mut self.children[idx2] {
            Some(t1) => {
                created = t1.map_in(fa, vaddr, paddr, flags);
            },
            None => {
                proof {
                    assert(false);
                }
                created = None;
            },
        }
        proof {
            let i2 = idx2 as int;
            let i1 = vpn1_of(vaddr);
            let i0 = vpn0_of(vaddr);
            let fa2 = *fa;
            // structure: only the subtree at the walked root index changed
            assert(self.children@[i2] is Some);
            let c = self.children@[i2]->Some_0;
            let cm = mid.children@[i2]->Some_0;
            assert(c.base == cm.base);
            assert(self.entries@ == mid.entries@);
            assert(self.rel(i2));
            assert forall|j: int| 0 <= j < 512 && j != i2 implies #[trigger] self.rel(j) by {
                assert(mid.rel(j));
                assert(self.entries@[j] == mid.entries@[j]);
                assert(self.children@[j] == mid.children@[j]);
            }
            assert(self.wf());
            // the new translation
            assert(self.lookup_idx(i2, i1, i0) == Some(paddr));
            assert(self.leaf_idx(i2, i1, i0) == Some(entry_bits(paddr, flags | 1)));
            // all other translations unchanged
            assert forall|j2: int, j1: int, j0: int|
                0 <= j2 < 512 && 0 <= j1 < 512 && 0 <= j0 < 512 && (j2 != i2 || j1 != i1 || j0
                    != i0) implies self.lookup_idx(j2, j1, j0) == pre.lookup_idx(j2, j1, j0) && (
            pre.lookup_idx(j2, j1, j0) is Some ==> self.leaf_idx(j2, j1, j0) == pre.leaf_idx(
                j2,
                j1,
                j0,
            )) by {
                if j2 != i2 {
                    assert(self.entries@[j2] == pre.entries@[j2]);
                    assert(self.children@[j2] == pre.children@[j2]);
                } else {
                    assert(c.lookup_idx(j1, j0) == cm.lookup_idx(j1, j0));
                    if entry_valid(pre.entries@[i2].0) {
                        assert(cm == pre.children@[i2]->Some_0);
                    } else {
                        assert(!entry_valid(0u64)) by (bit_vector);
                        assert(cm.entries@[j1].0 == 0);
                        assert(cm.lookup_idx(j1, j0) is None);
                        assert(pre.lookup_idx(j2, j1, j0) is None);
                    }
                }
            }
            // allocator book-keeping across the at-most-two allocations
            match created {
                Option::None => {
                    assert(fa2 == fam);
                },
                Option::Some(b0) => {
                    lemma_alloc_free_count(fam, fa2, 1, b0);
                    lemma_alloc_preserves_taken(fam, fa2, 1, b0);
                },
            }
            if !entry_valid(pre.entries@[i2].0) {
                let b = mid.t1(i2).base;
                lemma_alloc_free_count(fa0, fam, 1, b);
                lemma_alloc_preserves_taken(fa0, fam, 1, b);
            }
            assert forall|k: int|
                0 <= k < fa0.len() && (#[trigger] fa0.pages@[k]).taken() implies fa2.pages@[k]
                == fa0.pages@[k] by {
                if !entry_valid(pre.entries@[i2].0) {
                    let b = mid.t1(i2).base;
                    let gi = choose|i: int| alloc_ok_at(fa0, fam, 1, b, i);
                    assert(alloc_ok_at(fa0, fam, 1, b, gi));
                    assert(fam.pages@[k] == fa0.pages@[k]);
                }
                match created {
                    Option::None => {
                    },
                    Option::Some(b0) => {
                        let gj = choose|i: int| alloc_ok_at(fam, fa2, 1, b0, i);
                        assert(alloc_ok_at(fam, fa2, 1, b0, gj));
                        assert(fam.pages@[k].taken());
                        assert(fa2.pages@[k] == fam.pages@[k]);
                    },
                }
            }
            // the tree/allocator agreement holds again
            assert(self.has_t1(i2) && self.t1(i2) == c);
            assert forall|i: int| #[trigger] self.has_t1(i) implies base_allocated(
                fa2,
                self.t1(i).base,
            ) by {
                assert(mid.has_t1(i));
                if i != i2 {
                    assert(self.t1(i) == mid.t1(i));
                }
                match created {
                    Option::None => {
                    },
                    Option::Some(b0) => {
                        lemma_alloc_keeps_allocated(fam, fa2, b0, mid.t1(i).base);
                    },
                }
            }
            assert forall|i: int, j: int| #[trigger] self.has_t0(i, j) implies base_allocated(
                fa2,
                self.t0(i, j).base,
            ) by {
                if i != i2 {
                    assert(self.t1(i) == mid.t1(i));
                    assert(mid.has_t0(i, j));
                    match created {
                        Option::None => {
                        },
                        Option::Some(b0) => {
                            lemma_alloc_keeps_allocated(fam, fa2, b0, mid.t0(i, j).base);
                        },
                    }
                } else {
                    if j != i1 {
                        assert(c.children@[j] == cm.children@[j]);
                        assert(mid.has_t0(i2, j));
                        assert(self.t0(i2, j) == mid.t0(i2, j));
                        match created {
                            Option::None => {
                            },
                            Option::Some(b0) => {
                                lemma_alloc_keeps_allocated(fam, fa2, b0, mid.t0(i2, j).base);
                            },
                        }
                    } else {
                        match created {
                            Option::None => {
                                assert(mid.has_t0(i2, i1));
                                assert(self.t0(i2, i1).base == mid.t0(i2, i1).base);
                            },
                            Option::Some(b0) => {
                                assert(self.t0(i2, i1).base == b0);
                                lemma_alloc_base_allocated(fam, fa2, b0);
                            },
                        }
                    }
                }
            }
            assert forall|i: int, j: int|
                self.has_t1(i) && self.has_t1(j) && i != j implies (#[trigger] self.t1(i).base)
                != (#[trigger] self.t1(j).base) by {
                assert(mid.has_t1(i) && mid.has_t1(j));
                assert(self.t1(i).base == mid.t1(i).base);
                assert(self.t1(j).base == mid.t1(j).base);
            }
            assert forall|i: int, j: int, k: int, l: int|
                self.has_t0(i, j) && self.has_t0(k, l) && (i != k || j != l) implies (
            #[trigger] self.t0(i, j).base) != (#[trigger] self.t0(k, l).base) by {
                let fresh0 = match created {
                    Option::None => false,
                    Option::Some(b0) => true,
                };
                if (i, j) == (i2, i1) && created is Some {
                    let b0 = created->Some_0;
                    assert(self.t0(i2, i1).base == b0);
                    assert(mid.has_t0(k, l));
                    assert(self.t0(k, l).base == mid.t0(k, l).base);
                    lemma_alloc_keeps_allocated(fam, fa2, b0, mid.t0(k, l).base);
                } else if (k, l) == (i2, i1) && created is Some {
                    let b0 = created->Some_0;
                    assert(self.t0(i2, i1).base == b0);
                    assert(mid.has_t0(i, j));
                    assert(self.t0(i, j).base == mid.t0(i, j).base);
                    lemma_alloc_keeps_allocated(fam, fa2, b0, mid.t0(i, j).base);
                } else {
                    assert(mid.has_t0(i, j) && mid.has_t0(k, l));
                    assert(self.t0(i, j).base == mid.t0(i, j).base);
                    assert(self.t0(k, l).base == mid.t0(k, l).base);
                }
            }
            assert forall|i: int, k: int, l: int|
                self.has_t1(i) && self.has_t0(k, l) implies (#[trigger] self.t1(i).base) != (
            #[trigger] self.t0(k, l).base) by {
                assert(mid.has_t1(i));
                assert(self.t1(i).base == mid.t1(i).base);
                if (k, l) == (i2, i1) && created is Some {
                    let b0 = created->Some_0;
                    assert(self.t0(i2, i1).base == b0);
                    lemma_alloc_keeps_allocated(fam, fa2, b0, mid.t1(i).base);
                } else {
                    assert(mid.has_t0(k, l));
                    assert(self.t0(k, l).base == mid.t0(k, l).base);
                }
            }
            assert(pt_inv(*self, fa2));
            // the translation relation changed at the walked address alone
            assert forall|w: u64|
                w % PAGE_SIZE == 0 && w < 0x80_0000_0000 && w != vaddr implies self.translate_spec(
                w,
            ) == pre.translate_spec(w) by {
                lemma_vpn_of_bounds(w);
                lemma_vpn_of_unique(w, vaddr);
            }
        }
    }

    /// Map `vaddr` to `paddr` in the kernel's table. A user-accessible
    /// attribute set is refused: kernel mappings never carry the User bit.
    pub fn kernel_map(&mut self, fa: &mut FrameAllocator, vaddr: u64, paddr: u64, flags: u64)
        requires
            old(self).wf(),
            old(fa).wf(),
            pt_inv(*old(self), *old(fa)),
            old(fa).free_count() >= 2,
            vaddr % PAGE_SIZE == 0,
            vaddr < 0x80_0000_0000,
            paddr % PAGE_SIZE == 0,
            paddr < 0x100_0000_0000_0000,
            flags <= 0x3ff,
            flags & 0xe != 0,
            flags & 0x10 == 0,
        ensures
            final(self).wf(),
            final(fa).wf(),
            pt_inv(*final(self), *final(fa)),
            final(fa).alloc_start == old(fa).alloc_start,
            final(fa).len() == old(fa).len(),
            final(fa).free_count() >= old(fa).free_count() - 2,
            preserves_taken(*old(fa), *final(fa)),
            forall|k: int|
                0 <= k < old(fa).len() && (#[trigger] old(fa).pages@[k]).taken()
                    ==> final(fa).pages@[k] == old(fa).pages@[k],
            final(self).translate_spec(vaddr) == Some(paddr),
            final(self).leaf_spec(vaddr) == Some(entry_bits(paddr, flags | 1)),
            forall|j2: int, j1: int, j0: int|
                0 <= j2 < 512 && 0 <= j1 < 512 && 0 <= j0 < 512 && (j2 != vpn2_of(vaddr) || j1
                    != vpn1_of(vaddr) || j0 != vpn0_of(vaddr)) ==> final(self).lookup_idx(
                    j2,
                    j1,
                    j0,
                ) == old(self).lookup_idx(j2, j1, j0),
            forall|j2: int, j1: int, j0: int|
                0 <= j2 < 512 && 0 <= j1 < 512 && 0 <= j0 < 512 && (j2 != vpn2_of(vaddr) || j1
                    != vpn1_of(vaddr) || j0 != vpn0_of(vaddr)) && old(self).lookup_idx(
                    j2,
                    j1,
                    j0,
                ) is Some ==> final(self).leaf_idx(j2, j1, j0) == old(self).leaf_idx(j2, j1, j0),
            map_addr_post(*old(self), *final(self), vaddr, paddr, flags),
    {
        self.map_addr(fa, vaddr, paddr, flags)
    }

    /// Map the window of `pages` consecutive frames starting at `v0` to the
    /// frames starting at `p0`, one `map_addr` per page.
    fn map_pages(&mut self, fa: &mut FrameAllocator, v0: u64, p0: u64, pages: usize, flags: u64)
        requires
            old(self).wf(),
            old(fa).wf(),
            pt_inv(*old(self), *old(fa)),
            old(fa).free_count() >= 2 * pages,
            v0 % PAGE_SIZE == 0,
            p0 % PAGE_SIZE == 0,
            v0 + pages * PAGE_SIZE <= 0x80_0000_0000,
            p0 + pages * PAGE_SIZE <= 0x100_0000_0000_0000,
            flags <= 0x3ff,
            flags & 0xe != 0,
        ensures
            final(self).wf(),
            final(fa).wf(),
            pt_inv(*final(self), *final(fa)),
            final(fa).alloc_start == old(fa).alloc_start,
            final(fa).len() == old(fa).len(),
            final(fa).free_count() >= old(fa).free_count() - 2 * pages,
            preserves_taken(*old(fa), *final(fa)),
            forall|k: int|
                0 <= k < old(fa).len() && (#[trigger] old(fa).pages@[k]).taken()
                    ==> final(fa).pages@[k] == old(fa).pages@[k],
            forall|k: int|
                0 <= k < pages ==> final(self).translate_spec(#[trigger] page_at(v0, k)) == Some(
                    page_at(p0, k),
                ),
            forall|k: int|
                0 <= k < pages ==> final(self).leaf_spec(#[trigger] page_at(v0, k)) == Some(
                    entry_bits(page_at(p0, k), flags | 1),
                ),
            forall|w: u64|
                w % PAGE_SIZE == 0 && w < 0x80_0000_0000 && !(v0 <= w < v0 + pages * PAGE_SIZE)
                    ==> final(self).translate_spec(w) == old(self).translate_spec(w),
            forall|w: u64|
                w % PAGE_SIZE == 0 && w < 0x80_0000_0000 && !(v0 <= w < v0 + pages * PAGE_SIZE)
                    && old(self).translate_spec(w) is Some
                    ==> final(self).leaf_spec(w) == old(self).leaf_spec(w),
    {
        let ghost pre = *self;
        let ghost fa0 = *fa;
        let mut vcur: u64 = v0;
        let mut pcur: u64 = p0;
        let mut i: usize = 0;
        while i < pages
            invariant
                self.wf(),
                fa.wf(),
                pt_inv(*self, *fa),
                0 <= i <= pages,
                vcur == v0 + i * PAGE_SIZE,
                pcur == p0 + i * PAGE_SIZE,
                v0 % PAGE_SIZE == 0,
                p0 % PAGE_SIZE == 0,
                v0 + pages * PAGE_SIZE <= 0x80_0000_0000,
                p0 + pages * PAGE_SIZE <= 0x100_0000_0000_0000,
                flags <= 0x3ff,
                flags & 0xe != 0,
                fa.alloc_start == fa0.alloc_start,
                fa.len() == fa0.len(),
                fa.free_count() >= fa0.free_count() - 2 * i,
                fa0.free_count() >= 2 * pages,
                preserves_taken(fa0, *fa),
                forall|k: int|
                    0 <= k < fa0.len() && (#[trigger] fa0.pages@[k]).taken() ==> fa.pages@[k]
                        == fa0.pages@[k],
                forall|k: int|
                    0 <= k < i ==> self.translate_spec(#[trigger] page_at(v0, k)) == Some(
                        page_at(p0, k),
                    ),
                forall|k: int|
                    0 <= k < i ==> self.leaf_spec(#[trigger] page_at(v0, k)) == Some(
                        entry_bits(page_at(p0, k), flags | 1),
                    ),
                forall|w: u64|
                    w % PAGE_SIZE == 0 && w < 0x80_0000_0000 && !(v0 <= w < v0 + i * PAGE_SIZE)
                        ==> self.translate_spec(w) == pre.translate_spec(w),
                forall|w: u64|
                    w % PAGE_SIZE == 0 && w < 0x80_0000_0000 && !(v0 <= w < v0 + i * PAGE_SIZE)
                        && pre.translate_spec(w) is Some ==> self.leaf_spec(w) == pre.leaf_spec(w),
            decreases pages - i,
        {
            proof {
                lemma_page_step(v0, i as int, pages as int);
                lemma_page_step(p0, i as int, pages as int);
            }
            let ghost ptp = *self;
            let ghost fap = *fa;
            self.map_addr(fa, vcur, pcur, flags);
            proof {
                let vi = vcur;
                lemma_vpn_of_bounds(vi);
                // earlier pages keep their mapping: their walk indices differ
                assert(vi == page_at(v0, i as int) && pcur == page_at(p0, i as int));
                assert forall|k: int|
                    0 <= k < i + 1 implies self.translate_spec(#[trigger] page_at(v0, k)) == Some(
                    page_at(p0, k),
                ) && self.leaf_spec(page_at(v0, k)) == Some(
                    entry_bits(page_at(p0, k), flags | 1),
                ) by {
                    if k < i {
                        let w = page_at(v0, k);
                        assert(w == (v0 + k * PAGE_SIZE) as u64);
                        lemma_page_step(v0, k, pages as int);
                        lemma_vpn_of_bounds(w);
                        assert(w != vi) by (nonlinear_arith)
                            requires
                                w == v0 + k * PAGE_SIZE,
                                vi == v0 + i * PAGE_SIZE,
                                0 <= k < i,
                        ;
                        lemma_vpn_of_unique(w, vi);
                        assert(ptp.lookup_idx(vpn2_of(w), vpn1_of(w), vpn0_of(w)) is Some);
                    } else {
                        assert(page_at(v0, k) == vi && page_at(p0, k) == pcur);
                    }
                }
                // untouched addresses stay as they were, their leaves too
                assert forall|w: u64|
                    w % PAGE_SIZE == 0 && w < 0x80_0000_0000 && !(v0 <= w < v0 + (i + 1)
                        * PAGE_SIZE) implies self.translate_spec(w) == pre.translate_spec(w) && (
                pre.translate_spec(w) is Some ==> self.leaf_spec(w) == pre.leaf_spec(w)) by {
                    lemma_vpn_of_bounds(w);
                    assert(w != vi);
                    lemma_vpn_of_unique(w, vi);
                    assert(ptp.translate_spec(w) == pre.translate_spec(w));
                    if pre.translate_spec(w) is Some {
                        assert(ptp.lookup_idx(vpn2_of(w), vpn1_of(w), vpn0_of(w)) is Some);
                        assert(ptp.leaf_spec(w) == pre.leaf_spec(w));
                    }
                }
                // allocator effects compose
                lemma_preserves_taken_trans(fa0, fap, *fa);
                assert forall|k: int|
                    0 <= k < fa0.len() && (#[trigger] fa0.pages@[k]).taken() implies fa.pages@[k]
                    == fa0.pages@[k] by {
                    assert(fap.pages@[k] == fa0.pages@[k]);
                    assert(fap.pages@[k].taken());
                }
            }
            vcur = vcur + PAGE_SIZE;
            pcur = pcur + PAGE_SIZE;
            i = i + 1;
        }
    }

    /// Map every frame the window `[start, end)` touches — the start rounded
    /// down and the end rounded up to frame boundaries, so a trailing
    /// partial page is still mapped — to the window of equal size starting
    /// at the frame boundary below `vstart`.
    pub fn map_range(&mut self, fa: &mut FrameAllocator, start: u64, end: u64, vstart: u64, flags: u64)
        requires
            old(self).wf(),
            old(fa).wf(),
            pt_inv(*old(self), *old(fa)),
            start <= end,
            end < 0x100_0000_0000_0000,
            page_down(vstart) + (page_up(end) - page_down(start)) <= 0x80_0000_0000,
            pages_in_window(start, end) <= usize::MAX,
            old(fa).free_count() >= 2 * pages_in_window(start, end),
            flags <= 0x3ff,
            flags & 0xe != 0,
        ensures
            final(self).wf(),
            final(fa).wf(),
            pt_inv(*final(self), *final(fa)),
            final(fa).alloc_start == old(fa).alloc_start,
            final(fa).len() == old(fa).len(),
            final(fa).free_count() >= old(fa).free_count() - 2 * pages_in_window(start, end),
            preserves_taken(*old(fa), *final(fa)),
            forall|k: int|
                0 <= k < old(fa).len() && (#[trigger] old(fa).pages@[k]).taken()
                    ==> final(fa).pages@[k] == old(fa).pages@[k],
            forall|k: int|
                0 <= k < pages_in_window(start, end) ==> final(self).translate_spec(
                    #[trigger] page_at(page_down(vstart), k),
                ) == Some(page_at(page_down(start), k)),
            forall|k: int|
                0 <= k < pages_in_window(start, end) ==> final(self).leaf_spec(
                    #[trigger] page_at(page_down(vstart), k),
                ) == Some(entry_bits(page_at(page_down(start), k), flags | 1)),
            forall|w: u64|
                w % PAGE_SIZE == 0 && w < 0x80_0000_0000 && !(page_down(vstart) <= w < page_down(
                    vstart,
                ) + pages_in_window(start, end) * PAGE_SIZE) ==> final(self).translate_spec(w)
                    == old(self).translate_spec(w),
            forall|w: u64|
                w % PAGE_SIZE == 0 && w < 0x80_0000_0000 && !(page_down(vstart) <= w < page_down(
                    vstart,
                ) + pages_in_window(start, end) * PAGE_SIZE) && old(self).translate_spec(w)
                    is Some ==> final(self).leaf_spec(w) == old(self).leaf_spec(w),
    {
        proof {
            assert((1u64 << 12) - 1 == 0xfff) by (bit_vector);
        }
        let p0 = align_page_down(start);
        let pend = align_val(end, PAGE_ORDER);
        let v0 = align_page_down(vstart);
        proof {
            assert(p0 == page_down(start) && v0 == page_down(vstart));
            lemma_page_down_props(start, end);
            lemma_page_up_props(end);
            assert(pend == page_up(end));
            lemma_div_exact(pend, p0);
            assert(pages_in_window(start, end) * PAGE_SIZE == pend - p0);
        }
        let pages = ((pend - p0) / PAGE_SIZE) as usize;
        self.map_pages(fa, v0, p0, pages, flags);
    }

    /// Identity-map every frame a region touches: from the frame boundary
    /// below its start up to the boundary above its end, each page
    /// translates to itself, with the region's attributes.
    pub fn id_map_range(&mut self, fa: &mut FrameAllocator, region: &Region)
        requires
            old(self).wf(),
            old(fa).wf(),
            pt_inv(*old(self), *old(fa)),
            region.wf(),
            region.end <= 0x7f_ffff_f000,
            id_pages(*region) <= usize::MAX,
            old(fa).free_count() >= 2 * id_pages(*region),
            region.flags.value() <= 0x3ff,
            region.flags.value() & 0xe != 0,
        ensures
            final(self).wf(),
            final(fa).wf(),
            pt_inv(*final(self), *final(fa)),
            final(fa).alloc_start == old(fa).alloc_start,
            final(fa).len() == old(fa).len(),
            final(fa).free_count() >= old(fa).free_count() - 2 * id_pages(*region),
            preserves_taken(*old(fa), *final(fa)),
            forall|k: int|
                0 <= k < old(fa).len() && (#[trigger] old(fa).pages@[k]).taken()
                    ==> final(fa).pages@[k] == old(fa).pages@[k],
            // every frame-aligned address the region touches is mapped to
            // itself, with the region's attributes on the leaf
            forall|a: u64|
                a % PAGE_SIZE == 0 && page_down(region.start) <= a < page_up(region.end)
                    ==> final(self).translate_spec(a) == Some(a) && final(self).leaf_spec(a)
                    == Some(entry_bits(a, region.flags.value() | 1)),
            forall|w: u64|
                w % PAGE_SIZE == 0 && w < 0x80_0000_0000 && !(page_down(region.start) <= w
                    < page_up(region.end)) ==> final(self).translate_spec(w) == old(
                    self,
                ).translate_spec(w),
            forall|w: u64|
                w % PAGE_SIZE == 0 && w < 0x80_0000_0000 && !(page_down(region.start) <= w
                    < page_up(region.end)) && old(self).translate_spec(w) is Some
                    ==> final(self).leaf_spec(w) == old(self).leaf_spec(w),
            id_map_post(*final(self), *region),
    {
        proof {
            assert((1u64 << 12) - 1 == 0xfff) by (bit_vector);
        }
        let p0 = align_page_down(region.start_addr());
        let pend = align_val(region.end_addr(), PAGE_ORDER);
        proof {
            assert(p0 == page_down(region.start));
            lemma_page_down_props(region.start, region.end);
            lemma_page_up_props(region.end);
            assert(pend == page_up(region.end));
            lemma_div_exact(pend, p0);
            assert(id_pages(*region) * PAGE_SIZE == pend - p0);
        }
        let pages = ((pend - p0) / PAGE_SIZE) as usize;
        let flags = region.flags().value();
        self.map_pages(fa, p0, p0, pages, flags);
        proof {
            let d0 = page_down(region.start);
            assert forall|a: u64|
                a % PAGE_SIZE == 0 && d0 <= a < page_up(region.end) implies self.translate_spec(a)
                == Some(a) && self.leaf_spec(a) == Some(
                entry_bits(a, region.flags.value() | 1),
            ) by {
                lemma_div_exact(a, d0);
                let k = ((a - d0) as int) / (PAGE_SIZE as int);
                assert(page_at(d0, k) == a);
                assert(k * PAGE_SIZE == a - d0);
                assert(0 <= k < pages as int) by (nonlinear_arith)
                    requires
                        k * PAGE_SIZE == a - d0,
                        d0 <= a,
                        a < d0 + (pages as int) * PAGE_SIZE,
                        PAGE_SIZE > 0,
                ;
            }
        }
    }

    /// Identity-map every region of a list, in order. Overlapping regions
    /// agree on the translation (each page maps to itself); the last-mapped
    /// region's attributes win on the leaf.
    pub fn id_map_ranges(&mut self, fa: &mut FrameAllocator, regions: &Vec<Region>)
        requires
            old(self).wf(),
            old(fa).wf(),
            pt_inv(*old(self), *old(fa)),
            forall|r: int|
                0 <= r < regions@.len() ==> (#[trigger] regions@[r]).wf() && regions@[r].end
                    <= 0x7f_ffff_f000 && id_pages(regions@[r]) <= usize::MAX
                    && regions@[r].flags.value() <= 0x3ff && regions@[r].flags.value() & 0xe != 0,
            old(fa).free_count() >= 2 * id_pages_total(regions@),
        ensures
            final(self).wf(),
            final(fa).wf(),
            pt_inv(*final(self), *final(fa)),
            final(fa).alloc_start == old(fa).alloc_start,
            final(fa).len() == old(fa).len(),
            preserves_taken(*old(fa), *final(fa)),
            forall|k: int|
                0 <= k < old(fa).len() && (#[trigger] old(fa).pages@[k]).taken()
                    ==> final(fa).pages@[k] == old(fa).pages@[k],
            forall|r: int, a: u64|
                0 <= r < regions@.len() && a % PAGE_SIZE == 0 && #[trigger] in_id_window(
                    regions@[r],
                    a,
                ) ==> final(self).translate_spec(a) == Some(a),
            // a page's leaf carries the attributes of the last region that
            // covers it
            forall|r: int, a: u64|
                0 <= r < regions@.len() && a % PAGE_SIZE == 0 && #[trigger] in_id_window(
                    regions@[r],
                    a,
                ) && (forall|m: int|
                    r < m < regions@.len() ==> !in_id_window(#[trigger] regions@[m], a))
                    ==> final(self).leaf_spec(a) == Some(
                    entry_bits(a, regions@[r].flags.value() | 1),
                ),
            forall|w: u64|
                w % PAGE_SIZE == 0 && w < 0x80_0000_0000 && (forall|r: int|
                    0 <= r < regions@.len() ==> !in_id_window(#[trigger] regions@[r], w))
                    ==> final(self).translate_spec(w) == old(self).translate_spec(w),
    {
        let ghost pre = *self;
        let ghost fa0 = *fa;
        let total = regions.len();
        proof {
            assert(regions@.subrange(0, total as int) =~= regions@);
        }
        let mut i: usize = 0;
        while i < total
            invariant
                self.wf(),
                fa.wf(),
                pt_inv(*self, *fa),
                0 <= i <= total,
                total == regions@.len(),
                forall|r: int|
                    0 <= r < regions@.len() ==> (#[trigger] regions@[r]).wf() && regions@[r].end
                        <= 0x7f_ffff_f000 && id_pages(regions@[r]) <= usize::MAX
                        && regions@[r].flags.value() <= 0x3ff && regions@[r].flags.value() & 0xe
                        != 0,
                fa.alloc_start == fa0.alloc_start,
                fa.len() == fa0.len(),
                preserves_taken(fa0, *fa),
                forall|k: int|
                    0 <= k < fa0.len() && (#[trigger] fa0.pages@[k]).taken() ==> fa.pages@[k]
                        == fa0.pages@[k],
                fa.free_count() >= 2 * id_pages_total(regions@.subrange(i as int, total as int)),
                forall|r: int, a: u64|
                    0 <= r < i && a % PAGE_SIZE == 0 && #[trigger] in_id_window(regions@[r], a)
                        ==> self.translate_spec(a) == Some(a),
                forall|r: int, a: u64|
                    0 <= r < i && a % PAGE_SIZE == 0 && #[trigger] in_id_window(regions@[r], a)
                        && (forall|m: int| r < m < i ==> !in_id_window(#[trigger] regions@[m], a))
                        ==> self.leaf_spec(a) == Some(
                        entry_bits(a, regions@[r].flags.value() | 1),
                    ),
                forall|w: u64|
                    w % PAGE_SIZE == 0 && w < 0x80_0000_0000 && (forall|r: int|
                        0 <= r < i ==> !in_id_window(#[trigger] regions@[r], w))
                        ==> self.translate_spec(w) == pre.translate_spec(w),
            decreases total - i,
        {
            proof {
                lemma_id_total_step(regions@, i as int);
                let tail = regions@.subrange(i as int + 1, total as int);
                assert(forall|r: int|
                    0 <= r < tail.len() ==> (#[trigger] tail[r]).wf() && tail[r].end
                        <= 0x7f_ffff_f000);
                lemma_id_total_nonneg(tail);
                lemma_id_pages_nonneg(regions@[i as int]);
            }
            let ghost ptp = *self;
            let ghost fap = *fa;
            let region = &regions[i];
            self.id_map_range(fa, region);
            proof {
                lemma_preserves_taken_trans(fa0, fap, *fa);
                assert forall|k: int|
                    0 <= k < fa0.len() && (#[trigger] fa0.pages@[k]).taken() implies fa.pages@[k]
                    == fa0.pages@[k] by {
                    assert(fap.pages@[k] == fa0.pages@[k]);
                    assert(fap.pages@[k].taken());
                }
                assert forall|r: int, a: u64|
                    0 <= r < i + 1 && a % PAGE_SIZE == 0 && #[trigger] in_id_window(
                        regions@[r],
                        a,
                    ) implies self.translate_spec(a) == Some(a) by {
                    if r < i {
                        if !in_id_window(regions@[i as int], a) {
                            assert(a < 0x80_0000_0000) by {
                                assert(in_id_window(regions@[r], a));
                                lemma_page_up_props(regions@[r].end);
                            }
                            assert(self.translate_spec(a) == ptp.translate_spec(a));
                        }
                    }
                }
                assert forall|r: int, a: u64|
                    0 <= r < i + 1 && a % PAGE_SIZE == 0 && #[trigger] in_id_window(
                        regions@[r],
                        a,
                    ) && (forall|m: int|
                        r < m < i + 1 ==> !in_id_window(#[trigger] regions@[m], a)) implies
                    self.leaf_spec(a) == Some(entry_bits(a, regions@[r].flags.value() | 1)) by {
                    assert(a < 0x80_0000_0000) by {
                        assert(in_id_window(regions@[r], a));
                        lemma_page_up_props(regions@[r].end);
                    }
                    if r < i {
                        // the region just mapped does not cover this page, so
                        // its translation and leaf both survive
                        assert(!in_id_window(regions@[i as int], a));
                        assert(ptp.translate_spec(a) == Some(a));
                        assert(self.leaf_spec(a) == ptp.leaf_spec(a));
                    }
                }
            }
            i = i + 1;
        }
    }

    /// Map a list of range tuples `(start, end, vstart, flags)`, in order.
    /// A page written by several ranges keeps the last writer's mapping; a
    /// page no range writes keeps its old translation.
    pub fn map_ranges(&mut self, fa: &mut FrameAllocator, ranges: &Vec<(u64, u64, u64, u64)>)
        requires
            old(self).wf(),
            old(fa).wf(),
            pt_inv(*old(self), *old(fa)),
            forall|l: int| 0 <= l < ranges@.len() ==> range_wf(#[trigger] ranges@[l]),
            old(fa).free_count() >= 2 * range_pages_total(ranges@),
        ensures
            final(self).wf(),
            final(fa).wf(),
            pt_inv(*final(self), *final(fa)),
            final(fa).alloc_start == old(fa).alloc_start,
            final(fa).len() == old(fa).len(),
            preserves_taken(*old(fa), *final(fa)),
            forall|k: int|
                0 <= k < old(fa).len() && (#[trigger] old(fa).pages@[k]).taken()
                    ==> final(fa).pages@[k] == old(fa).pages@[k],
            forall|l: int, k: int|
                0 <= l < ranges@.len() && 0 <= k < range_pages(ranges@[l]) && (forall|m: int|
                    l < m < ranges@.len() ==> !range_covers(
                        #[trigger] ranges@[m],
                        page_at(page_down(ranges@[l].2), k),
                    )) ==> final(self).translate_spec(
                    #[trigger] page_at(page_down(ranges@[l].2), k),
                ) == Some(page_at(page_down(ranges@[l].0), k)),
            forall|w: u64|
                w % PAGE_SIZE == 0 && w < 0x80_0000_0000 && (forall|l: int|
                    0 <= l < ranges@.len() ==> !range_covers(#[trigger] ranges@[l], w))
                    ==> final(self).translate_spec(w) == old(self).translate_spec(w),
    {
        let ghost pre = *self;
        let ghost fa0 = *fa;
        let total = ranges.len();
        proof {
            assert(ranges@.subrange(0, total as int) =~= ranges@);
        }
        let mut i: usize = 0;
        while i < total
            invariant
                self.wf(),
                fa.wf(),
                pt_inv(*self, *fa),
                0 <= i <= total,
                total == ranges@.len(),
                forall|l: int| 0 <= l < ranges@.len() ==> range_wf(#[trigger] ranges@[l]),
                fa.alloc_start == fa0.alloc_start,
                fa.len() == fa0.len(),
                preserves_taken(fa0, *fa),
                forall|k: int|
                    0 <= k < fa0.len() && (#[trigger] fa0.pages@[k]).taken() ==> fa.pages@[k]
                        == fa0.pages@[k],
                fa.free_count() >= 2 * range_pages_total(
                    ranges@.subrange(i as int, total as int),
                ),
                forall|l: int, k: int|
                    0 <= l < i && 0 <= k < range_pages(ranges@[l]) && (forall|m: int|
                        l < m < i ==> !range_covers(
                            #[trigger] ranges@[m],
                            page_at(page_down(ranges@[l].2), k),
                        )) ==> self.translate_spec(#[trigger] page_at(page_down(ranges@[l].2), k))
                        == Some(page_at(page_down(ranges@[l].0), k)),
                forall|w: u64|
                    w % PAGE_SIZE == 0 && w < 0x80_0000_0000 && (forall|l: int|
                        0 <= l < i ==> !range_covers(#[trigger] ranges@[l], w))
                        ==> self.translate_spec(w) == pre.translate_spec(w),
            decreases total - i,
        {
            proof {
                lemma_range_total_step(ranges@, i as int);
                let tail = ranges@.subrange(i as int + 1, total as int);
                assert(forall|l: int| 0 <= l < tail.len() ==> (#[trigger] tail[l]).0 <= tail[l].1);
                lemma_range_total_nonneg(tail);
                lemma_range_pages_nonneg(ranges@[i as int]);
            }
            let ghost ptp = *self;
            let ghost fap = *fa;
            let r = ranges[i];
            self.map_range(fa, r.0, r.1, r.2, r.3);
            proof {
                let t = ranges@[i as int];
                lemma_preserves_taken_trans(fa0, fap, *fa);
                assert forall|k: int|
                    0 <= k < fa0.len() && (#[trigger] fa0.pages@[k]).taken() implies fa.pages@[k]
                    == fa0.pages@[k] by {
                    assert(fap.pages@[k] == fa0.pages@[k]);
                    assert(fap.pages@[k].taken());
                }
                assert forall|l: int, k: int|
                    0 <= l < i + 1 && 0 <= k < range_pages(ranges@[l]) && (forall|m: int|
                        l < m < i + 1 ==> !range_covers(
                            #[trigger] ranges@[m],
                            page_at(page_down(ranges@[l].2), k),
                        )) implies self.translate_spec(
                    #[trigger] page_at(page_down(ranges@[l].2), k),
                ) == Some(page_at(page_down(ranges@[l].0), k)) by {
                    let tl = ranges@[l];
                    let w = page_at(page_down(tl.2), k);
                    lemma_range_pages_nonneg(tl);
                    lemma_page_down_props(tl.2, tl.2);
                    lemma_page_step(page_down(tl.2), k, range_pages(tl));
                    if l < i {
                        assert(!range_covers(t, w));
                        assert(ptp.translate_spec(w) == Some(page_at(page_down(tl.0), k)));
                        assert(self.translate_spec(w) == ptp.translate_spec(w));
                    }
                }
                assert forall|w: u64|
                    w % PAGE_SIZE == 0 && w < 0x80_0000_0000 && (forall|l: int|
                        0 <= l < i + 1 ==> !range_covers(#[trigger] ranges@[l], w)) implies
                    self.translate_spec(w) == pre.translate_spec(w) by {
                    assert(!range_covers(t, w));
                    assert(ptp.translate_spec(w) == pre.translate_spec(w));
                }
            }
            i = i + 1;
        }
    }

    /// Walk the table read-only and return the physical frame `vaddr`
    /// translates to, or nothing at the first invalid entry.
    pub fn phy_addr_of(&self, vaddr: u64) -> (r: Option<u64>)
        requires
            self.wf(),
            vaddr % PAGE_SIZE == 0,
        ensures
            r == self.translate_spec(vaddr),
    {
        let vpn = VPN(vaddr);
        let idx2 = vpn.vpn2() as usize;
        let idx1 = vpn.vpn1() as usize;
        let idx0 = vpn.vpn0() as usize;
        proof {
            assert(self.rel(idx2 as int));
        }
        if !self.entries[idx2].valid() {
            return None;
        }
        match &self.children[idx2] {
            Some(t1) => {
                proof {
                    assert(t1.rel(idx1 as int));
                }
                if !t1.entries[idx1].valid() {
                    return None;
                }
                match &t1.children[idx1] {
                    Some(t0) => {
                        let e = t0.entries[idx0];
                        if e.valid() {
                            Some(e.physical_addr().0)
                        } else {
                            None
                        }
                    },
                    None => {
                        proof {
                            assert(false);
                        }
                        None
                    },
                }
            },
            None => {
                proof {
                    assert(false);
                }
                None
            },
        }
    }

    /// List every mapping of the table, one `(virtual, physical, flags)`
    /// row per valid leaf, in walk order. The list is the whole translation
    /// relation: each listed address translates to its listed frame, and
    /// every address the table translates appears in the list.
    pub fn dump(&self) -> (r: Vec<(u64, u64, u64)>)
        requires
            self.wf(),
        ensures
            forall|m: int| 0 <= m < r@.len() ==> dump_entry_ok(*self, #[trigger] r@[m]),
            forall|w: u64|
                w % PAGE_SIZE == 0 && w < 0x80_0000_0000 && self.translate_spec(w) is Some
                    ==> dump_has(r@, w),
    {
        let mut out: Vec<(u64, u64, u64)> = Vec::new();
        let mut i2: usize = 0;
        while i2 < 512
            invariant
                self.wf(),
                i2 <= 512,
                forall|m: int| 0 <= m < out@.len() ==> dump_entry_ok(*self, #[trigger] out@[m]),
                forall|w: u64|
                    w % PAGE_SIZE == 0 && w < 0x80_0000_0000 && vpn2_of(w) < i2
                        && self.translate_spec(w) is Some ==> dump_has(out@, w),
            decreases 512 - i2,
        {
            proof {
                assert(self.rel(i2 as int));
            }
            if self.entries[i2].valid() {
                match &self.children[i2] {
                    Some(t1) => {
                        let mut i1: usize = 0;
                        while i1 < 512
                            invariant
                                self.wf(),
                                i2 < 512,
                                i1 <= 512,
                                entry_valid(self.entries@[i2 as int].0),
                                self.children@[i2 as int] is Some,
                                t1 == self.children@[i2 as int]->Some_0,
                                t1.wf(),
                                forall|m: int|
                                    0 <= m < out@.len() ==> dump_entry_ok(
                                        *self,
                                        #[trigger] out@[m],
                                    ),
                                forall|w: u64|
                                    w % PAGE_SIZE == 0 && w < 0x80_0000_0000 && (vpn2_of(w) < i2
                                        || (vpn2_of(w) == i2 && vpn1_of(w) < i1))
                                        && self.translate_spec(w) is Some ==> dump_has(out@, w),
                            decreases 512 - i1,
                        {
                            proof {
                                assert(t1.rel(i1 as int));
                            }
                            if t1.entries[i1].valid() {
                                match &t1.children[i1] {
                                    Some(t0) => {
                                        let mut i0: usize = 0;
                                        while i0 < 512
                                            invariant
                                                self.wf(),
                                                i2 < 512,
                                                i1 < 512,
                                                i0 <= 512,
                                                entry_valid(self.entries@[i2 as int].0),
                                                self.children@[i2 as int] is Some,
                                                t1 == self.children@[i2 as int]->Some_0,
                                                t1.wf(),
                                                entry_valid(t1.entries@[i1 as int].0),
                                                t1.children@[i1 as int] is Some,
                                                t0 == t1.children@[i1 as int]->Some_0,
                                                t0.wf(),
                                                forall|m: int|
                                                    0 <= m < out@.len() ==> dump_entry_ok(
                                                        *self,
                                                        #[trigger] out@[m],
                                                    ),
                                                forall|w: u64|
                                                    w % PAGE_SIZE == 0 && w < 0x80_0000_0000 && (
                                                    vpn2_of(w) < i2 || (vpn2_of(w) == i2 && (
                                                    vpn1_of(w) < i1 || (vpn1_of(w) == i1
                                                        && vpn0_of(w) < i0))))
                                                        && self.translate_spec(w) is Some
                                                        ==> dump_has(out@, w),
                                            decreases 512 - i0,
                                        {
                                            let ghost out0 = out@;
                                            let e = t0.entries[i0];
                                            if e.valid() {
                                                let v = ((i2 as u64) << 30) | ((i1 as u64) << 21)
                                                    | ((i0 as u64) << 12);
                                                proof {
                                                    lemma_vaddr_compose(
                                                        i2 as u64,
                                                        i1 as u64,
                                                        i0 as u64,
                                                    );
                                                }
                                                out.push((v, e.physical_addr().0, e.flags()));
                                                proof {
                                                    assert(vpn2_of(v) == i2 && vpn1_of(v) == i1
                                                        && vpn0_of(v) == i0);
                                                    assert(dump_entry_ok(
                                                        *self,
                                                        out@[out@.len() - 1],
                                                    ));
                                                    assert(forall|m: int|
                                                        0 <= m < out0.len() ==> out@[m] == out0[m]);
                                                }
                                            }
                                            proof {
                                                assert forall|w: u64|
                                                    w % PAGE_SIZE == 0 && w < 0x80_0000_0000 && (
                                                    vpn2_of(w) < i2 || (vpn2_of(w) == i2 && (
                                                    vpn1_of(w) < i1 || (vpn1_of(w) == i1
                                                        && vpn0_of(w) < i0 + 1))))
                                                        && self.translate_spec(w) is Some implies
                                                    dump_has(out@, w) by {
                                                    lemma_vpn_of_bounds(w);
                                                    if vpn2_of(w) == i2 && vpn1_of(w) == i1
                                                        && vpn0_of(w) == i0 {
                                                        assert(entry_valid(
                                                            t0.entries@[i0 as int].0,
                                                        ));
                                                        assert(out@[out@.len() - 1].0 == w) by {
                                                            lemma_vaddr_compose(
                                                                i2 as u64,
                                                                i1 as u64,
                                                                i0 as u64,
                                                            );
                                                            lemma_vpn_unique(
                                                                w,
                                                                out@[out@.len() - 1].0,
                                                            );
                                                        }
                                                    } else {
                                                        assert(dump_has(out0, w));
                                                        let m = choose|m: int|
                                                            0 <= m < out0.len() && (
                                                            #[trigger] out0[m]).0 == w;
                                                        assert(out@[m].0 == w);
                                                    }
                                                }
                                            }
                                            i0 = i0 + 1;
                                        }
                                        proof {
                                            assert forall|w: u64|
                                                w % PAGE_SIZE == 0 && w < 0x80_0000_0000 && (
                                                vpn2_of(w) < i2 || (vpn2_of(w) == i2 && vpn1_of(w)
                                                    < i1 + 1)) && self.translate_spec(
                                                w,
                                            ) is Some implies dump_has(out@, w) by {
                                                lemma_vpn_of_bounds(w);
                                            }
                                        }
                                    },
                                    None => {
                                        proof {
                                            assert(false);
                                        }
                                    },
                                }
                            } else {
                                proof {
                                    assert forall|w: u64|
                                        w % PAGE_SIZE == 0 && w < 0x80_0000_0000 && vpn2_of(w)
                                            == i2 && vpn1_of(w) == i1 implies self.translate_spec(
                                        w,
                                    ) is None by {
                                        lemma_vpn_of_bounds(w);
                                    }
                                }
                            }
                            i1 = i1 + 1;
                        }
                        proof {
                            assert forall|w: u64|
                                w % PAGE_SIZE == 0 && w < 0x80_0000_0000 && vpn2_of(w) < i2 + 1
                                    && self.translate_spec(w) is Some implies dump_has(
                                out@,
                                w,
                            ) by {
                                lemma_vpn_of_bounds(w);
                            }
                        }
                    },
                    None => {
                        proof {
                            assert(false);
                        }
                    },
                }
            } else {
                proof {
                    assert forall|w: u64|
                        w % PAGE_SIZE == 0 && w < 0x80_0000_0000 && vpn2_of(w)
                            == i2 implies self.translate_spec(w) is None by {
                        lemma_vpn_of_bounds(w);
                    }
                }
            }
            i2 = i2 + 1;
        }
        proof {
            assert forall|w: u64|
                w % PAGE_SIZE == 0 && w < 0x80_0000_0000 && self.translate_spec(w) is Some implies
                dump_has(out@, w) by {
                lemma_vpn_of_bounds(w);
            }
        }
        out
    }

    /// Walk the two upper levels and return every branch frame the tree owns
    /// to the allocator, clearing the root: afterwards the table maps
    /// nothing. Leaf frames are never reclaimed; they belong to whoever
    /// mapped them.
    pub fn unmap(&mut self, fa: &mut FrameAllocator)
        requires
            old(self).wf(),
            old(fa).wf(),
            pt_inv(*old(self), *old(fa)),
        ensures
            final(self).wf(),
            final(fa).wf(),
            pt_inv(*final(self), *final(fa)),
            final(fa).alloc_start == old(fa).alloc_start,
            final(fa).len() == old(fa).len(),
            forall|i: int| 0 <= i < 512 ==> (#[trigger] final(self).entries@[i]).0 == 0,
            forall|i: int| 0 <= i < 512 ==> (#[trigger] final(self).children@[i]) is None,
            forall|v: u64| final(self).translate_spec(v) is None,
            forall|k: int|
                0 <= k < old(fa).len() && is_table_frame(*old(self), *old(fa), k) ==> !(
                #[trigger] final(fa).pages@[k]).taken() && !final(fa).pages@[k].last(),
            forall|k: int|
                0 <= k < old(fa).len() && !is_table_frame(*old(self), *old(fa), k) ==> (
                #[trigger] final(fa).pages@[k]) == old(fa).pages@[k],
    {
        let ghost pre = *self;
        let ghost fa0 = *fa;
        let mut i2: usize = 0;
        while i2 < 512
            invariant
                pre.wf(),
                fa0.wf(),
                pt_inv(pre, fa0),
                i2 <= 512,
                self.entries@.len() == 512,
                self.children@.len() == 512,
                fa.wf(),
                fa.alloc_start == fa0.alloc_start,
                fa.len() == fa0.len(),
                forall|i: int| 0 <= i < i2 ==> (#[trigger] self.entries@[i]).0 == 0,
                forall|i: int| 0 <= i < i2 ==> (#[trigger] self.children@[i]) is None,
                forall|i: int| i2 <= i < 512 ==> (#[trigger] self.entries@[i]) == pre.entries@[i],
                forall|i: int|
                    i2 <= i < 512 ==> (#[trigger] self.children@[i]) == pre.children@[i],
                forall|k: int|
                    0 <= k < fa0.len() && table_frame_below(pre, fa0, k, i2 as int, 0) ==> !(
                    #[trigger] fa.pages@[k]).taken() && !fa.pages@[k].last(),
                forall|k: int|
                    0 <= k < fa0.len() && !table_frame_below(pre, fa0, k, i2 as int, 0) ==> (
                    #[trigger] fa.pages@[k]) == fa0.pages@[k],
            decreases 512 - i2,
        {
            proof {
                assert(pre.rel(i2 as int));
                assert(self.children@[i2 as int] == pre.children@[i2 as int]);
            }
            match &self.children[i2] {
                Some(t1) => {
                    proof {
                        assert(pre.has_t1(i2 as int));
                        assert(t1 == pre.t1(i2 as int));
                        assert(entry_valid(pre.entries@[i2 as int].0));
                        assert(t1.wf());
                    }
                    let mut i1: usize = 0;
                    while i1 < 512
                        invariant
                            pre.wf(),
                            fa0.wf(),
                            pt_inv(pre, fa0),
                            i2 < 512,
                            i1 <= 512,
                            pre.has_t1(i2 as int),
                            t1 == pre.t1(i2 as int),
                            t1.wf(),
                            fa.wf(),
                            fa.alloc_start == fa0.alloc_start,
                            fa.len() == fa0.len(),
                            self.entries@.len() == 512,
                            self.children@.len() == 512,
                            forall|i: int| 0 <= i < i2 ==> (#[trigger] self.entries@[i]).0 == 0,
                            forall|i: int| 0 <= i < i2 ==> (#[trigger] self.children@[i]) is None,
                            forall|i: int|
                                i2 <= i < 512 ==> (#[trigger] self.entries@[i]) == pre.entries@[i],
                            forall|i: int|
                                i2 <= i < 512 ==> (#[trigger] self.children@[i])
                                    == pre.children@[i],
                            forall|k: int|
                                0 <= k < fa0.len() && table_frame_below(
                                    pre,
                                    fa0,
                                    k,
                                    i2 as int,
                                    i1 as int,
                                ) ==> !(#[trigger] fa.pages@[k]).taken() && !fa.pages@[k].last(),
                            forall|k: int|
                                0 <= k < fa0.len() && !table_frame_below(
                                    pre,
                                    fa0,
                                    k,
                                    i2 as int,
                                    i1 as int,
                                ) ==> (#[trigger] fa.pages@[k]) == fa0.pages@[k],
                        decreases 512 - i1,
                    {
                        proof {
                            assert(t1.rel(i1 as int));
                        }
                        if t1.entries[i1].valid() {
                            match &t1.children[i1] {
                                Some(t0) => {
                                    let ghost fap = *fa;
                                    let ghost b = t0.base;
                                    let ghost kb = fa0.index_of(b);
                                    proof {
                                        assert(pre.has_t0(i2 as int, i1 as int));
                                        assert(t0 == pre.t0(i2 as int, i1 as int));
                                        assert(base_allocated(fa0, b));
                                        lemma_frame_addr_fits(fa0, kb);
                                        assert(b >= fa0.alloc_start) by (nonlinear_arith)
                                            requires
                                                b == fa0.alloc_start + kb * 4096,
                                                kb >= 0,
                                        ;
                                        // not yet freed: a frame behind the walk
                                        // would share this base, against
                                        // distinctness
                                        if table_frame_below(pre, fa0, kb, i2 as int, i1 as int) {
                                            if exists|i: int|
                                                0 <= i < i2 as int && #[trigger] pre.has_t1(i)
                                                    && fa0.index_of(pre.t1(i).base) == kb {
                                                let i = choose|i: int|
                                                    0 <= i < i2 as int && #[trigger] pre.has_t1(i)
                                                        && fa0.index_of(pre.t1(i).base) == kb;
                                                lemma_base_index_inj(fa0, pre.t1(i).base, b);
                                            } else {
                                                let (i, j) = choose|i: int, j: int|
                                                    (0 <= i < i2 as int || (i == i2 as int && 0
                                                        <= j < i1 as int)) && #[trigger] pre.has_t0(
                                                        i,
                                                        j,
                                                    ) && fa0.index_of(pre.t0(i, j).base) == kb;
                                                lemma_base_index_inj(fa0, pre.t0(i, j).base, b);
                                            }
                                            assert(false);
                                        }
                                        assert(fa.pages@[kb] == fa0.pages@[kb]);
                                        assert(fa.is_run(kb, kb));
                                        assert(fa.index_of(b) == kb);
                                    }
                                    fa.dealloc(t0.base);
                                    proof {
                                        lemma_run_end_unique(fap, kb, fap.run_end(kb), kb);
                                        assert forall|k: int|
                                            0 <= k < fa0.len() && table_frame_below(
                                                pre,
                                                fa0,
                                                k,
                                                i2 as int,
                                                i1 as int + 1,
                                            ) implies !(#[trigger] fa.pages@[k]).taken()
                                            && !fa.pages@[k].last() by {
                                            if k != kb {
                                                if table_frame_below(
                                                    pre,
                                                    fa0,
                                                    k,
                                                    i2 as int,
                                                    i1 as int,
                                                ) {
                                                    assert(fa.pages@[k] == fap.pages@[k]);
                                                } else {
                                                    // the only new frame behind
                                                    // the walk is the one just
                                                    // freed
                                                    let (i, j) = choose|i: int, j: int|
                                                        (0 <= i < i2 as int || (i == i2 as int && 0
                                                            <= j < i1 as int + 1))
                                                            && #[trigger] pre.has_t0(i, j)
                                                            && fa0.index_of(pre.t0(i, j).base)
                                                            == k;
                                                    assert(i == i2 as int && j == i1 as int);
                                                    assert(false);
                                                }
                                            }
                                        }
                                        assert forall|k: int|
                                            0 <= k < fa0.len() && !table_frame_below(
                                                pre,
                                                fa0,
                                                k,
                                                i2 as int,
                                                i1 as int + 1,
                                            ) implies (#[trigger] fa.pages@[k])
                                            == fa0.pages@[k] by {
                                            assert(k != kb);
                                            assert(fa.pages@[k] == fap.pages@[k]);
                                            assert(!table_frame_below(
                                                pre,
                                                fa0,
                                                k,
                                                i2 as int,
                                                i1 as int,
                                            ));
                                        }
                                    }
                                },
                                None => {
                                    proof {
                                        assert(false);
                                    }
                                },
                            }
                        } else {
                            proof {
                                assert(t1.children@[i1 as int] is None);
                                assert(!pre.has_t0(i2 as int, i1 as int));
                                assert forall|k: int|
                                    table_frame_below(
                                        pre,
                                        fa0,
                                        k,
                                        i2 as int,
                                        i1 as int + 1,
                                    ) implies table_frame_below(
                                    pre,
                                    fa0,
                                    k,
                                    i2 as int,
                                    i1 as int,
                                ) by {
                                    if !table_frame_below(pre, fa0, k, i2 as int, i1 as int) {
                                        let (i, j) = choose|i: int, j: int|
                                            (0 <= i < i2 as int || (i == i2 as int && 0 <= j < i1
                                                as int + 1)) && #[trigger] pre.has_t0(i, j)
                                                && fa0.index_of(pre.t0(i, j).base) == k;
                                        assert(i == i2 as int && j == i1 as int);
                                        assert(false);
                                    }
                                }
                            }
                        }
                        i1 = i1 + 1;
                    }
                    // the middle-level table's own frame
                    let ghost fap = *fa;
                    let ghost b = t1.base;
                    let ghost kb = fa0.index_of(b);
                    proof {
                        assert(base_allocated(fa0, b));
                        lemma_frame_addr_fits(fa0, kb);
                        assert(b >= fa0.alloc_start) by (nonlinear_arith)
                            requires
                                b == fa0.alloc_start + kb * 4096,
                                kb >= 0,
                        ;
                        if table_frame_below(pre, fa0, kb, i2 as int, 512) {
                            if exists|i: int|
                                0 <= i < i2 as int && #[trigger] pre.has_t1(i) && fa0.index_of(
                                    pre.t1(i).base,
                                ) == kb {
                                let i = choose|i: int|
                                    0 <= i < i2 as int && #[trigger] pre.has_t1(i)
                                        && fa0.index_of(pre.t1(i).base) == kb;
                                lemma_base_index_inj(fa0, pre.t1(i).base, b);
                            } else {
                                let (i, j) = choose|i: int, j: int|
                                    (0 <= i < i2 as int || (i == i2 as int && 0 <= j < 512))
                                        && #[trigger] pre.has_t0(i, j) && fa0.index_of(
                                        pre.t0(i, j).base,
                                    ) == kb;
                                lemma_base_index_inj(fa0, pre.t0(i, j).base, b);
                            }
                            assert(false);
                        }
                        assert(fa.pages@[kb] == fa0.pages@[kb]);
                        assert(fa.is_run(kb, kb));
                        assert(fa.index_of(b) == kb);
                    }
                    let base = t1.base;
                    fa.dealloc(base);
                    proof {
                        lemma_run_end_unique(fap, kb, fap.run_end(kb), kb);
                        assert forall|k: int|
                            0 <= k < fa0.len() && table_frame_below(
                                pre,
                                fa0,
                                k,
                                i2 as int + 1,
                                0,
                            ) implies !(#[trigger] fa.pages@[k]).taken()
                            && !fa.pages@[k].last() by {
                            if k != kb {
                                if !table_frame_below(pre, fa0, k, i2 as int, 512) {
                                    if exists|i: int|
                                        0 <= i < i2 as int + 1 && #[trigger] pre.has_t1(i)
                                            && fa0.index_of(pre.t1(i).base) == k {
                                        let i = choose|i: int|
                                            0 <= i < i2 as int + 1 && #[trigger] pre.has_t1(i)
                                                && fa0.index_of(pre.t1(i).base) == k;
                                        assert(i == i2 as int);
                                        assert(false);
                                    } else {
                                        let (i, j) = choose|i: int, j: int|
                                            (0 <= i < i2 as int + 1 || (i == i2 as int + 1 && 0
                                                <= j < 0)) && #[trigger] pre.has_t0(i, j)
                                                && fa0.index_of(pre.t0(i, j).base) == k;
                                        assert(false);
                                    }
                                } else {
                                    assert(fa.pages@[k] == fap.pages@[k]);
                                }
                            }
                        }
                        assert forall|k: int|
                            0 <= k < fa0.len() && !table_frame_below(
                                pre,
                                fa0,
                                k,
                                i2 as int + 1,
                                0,
                            ) implies (#[trigger] fa.pages@[k]) == fa0.pages@[k] by {
                            assert(k != kb);
                            assert(fa.pages@[k] == fap.pages@[k]);
                            assert(!table_frame_below(pre, fa0, k, i2 as int, 512));
                        }
                    }
                },
                None => {
                    proof {
                        assert(!pre.has_t1(i2 as int));
                        assert forall|k: int|
                            table_frame_below(
                                pre,
                                fa0,
                                k,
                                i2 as int + 1,
                                0,
                            ) implies table_frame_below(pre, fa0, k, i2 as int, 0) by {
                            if exists|i: int|
                                0 <= i < i2 as int + 1 && #[trigger] pre.has_t1(i) && fa0.index_of(
                                    pre.t1(i).base,
                                ) == k {
                                let i = choose|i: int|
                                    0 <= i < i2 as int + 1 && #[trigger] pre.has_t1(i)
                                        && fa0.index_of(pre.t1(i).base) == k;
                                assert(i < i2 as int);
                            } else {
                                let (i, j) = choose|i: int, j: int|
                                    (0 <= i < i2 as int + 1 || (i == i2 as int + 1 && 0 <= j < 0))
                                        && #[trigger] pre.has_t0(i, j) && fa0.index_of(
                                        pre.t0(i, j).base,
                                    ) == k;
                                assert(i < i2 as int || i == i2 as int);
                                if i == i2 as int {
                                    assert(pre.has_t1(i2 as int));
                                    assert(false);
                                }
                            }
                        }
                    }
                },
            }
            self.children.set(i2, None);
            self.entries.set(i2, Entry(0));
            i2 = i2 + 1;
        }
        proof {
            assert(!entry_valid(0u64)) by (bit_vector);
            assert(forall|i: int| 0 <= i < 512 ==> #[trigger] self.rel(i));
            lemma_empty_pt_inv(*self, *fa);
            assert forall|v: u64| self.translate_spec(v) is None by {
                lemma_fresh_translate_none(*self, v);
            }
            assert forall|k: int|
                0 <= k < fa0.len() && is_table_frame(pre, fa0, k) implies !(
            #[trigger] fa.pages@[k]).taken() && !fa.pages@[k].last() by {
                assert(table_frame_below(pre, fa0, k, 512, 0));
            }
            assert forall|k: int|
                0 <= k < fa0.len() && !is_table_frame(pre, fa0, k) implies (
            #[trigger] fa.pages@[k]) == fa0.pages@[k] by {
                assert(!table_frame_below(pre, fa0, k, 512, 0));
            }
        }
    }

    /// The raw leaf entry that translates `vaddr`, when the walk reaches the
    /// bottom level: its attribute bits tell how the page is mapped.
    pub fn leaf_of(&self, vaddr: u64) -> (r: Option<Entry>)
        requires
            self.wf(),
            vaddr % PAGE_SIZE == 0,
        ensures
            match r {
                Option::Some(e) => self.leaf_spec(vaddr) == Some(e.0),
                Option::None => self.leaf_spec(vaddr) is None,
            },
    {
        let vpn = VPN(vaddr);
        let idx2 = vpn.vpn2() as usize;
        let idx1 = vpn.vpn1() as usize;
        let idx0 = vpn.vpn0() as usize;
        proof {
            assert(self.rel(idx2 as int));
        }
        if !self.entries[idx2].valid() {
            return None;
        }
        match &self.children[idx2] {
            Some(t1) => {
                proof {
                    assert(t1.rel(idx1 as int));
                }
                if !t1.entries[idx1].valid() {
                    return None;
                }
                match &t1.children[idx1] {
                    Some(t0) => Some(t0.entries[idx0]),
                    None => {
                        proof {
                            assert(false);
                        }
                        None
                    },
                }
            },
            None => {
                proof {
                    assert(false);
                }
                None
            },
        }
    }
}

/// The address `k` pages past `base`.
pub open spec fn page_at(base: u64, k: int) -> u64 {
    (base + k * PAGE_SIZE) as u64
}

/// An address rounded down to its frame boundary.
pub open spec fn page_down(a: u64) -> u64 {
    a & !0xfffu64
}

/// An address rounded up to the next frame boundary.
pub open spec fn page_up(a: u64) -> u64 {
    ((a + 0xfff) as u64) & !0xfffu64
}

/// Whole frames a window `[lo, hi)` touches: from the frame boundary below
/// `lo` to the boundary above `hi`.
pub open spec fn pages_in_window(lo: u64, hi: u64) -> int {
    (page_up(hi) - page_down(lo)) / (PAGE_SIZE as int)
}

/// Frames an identity mapping of `r` covers: from the boundary below its
/// start to the boundary above its end.
pub open spec fn id_pages(r: Region) -> int {
    (page_up(r.end) - page_down(r.start)) / (PAGE_SIZE as int)
}

/// Rounding down is monotone and exact on the frame grid.
pub proof fn lemma_page_down_props(a: u64, b: u64)
    by (bit_vector)
    requires
        a <= b,
    ensures
        a & !0xfffu64 <= b & !0xfffu64,
        (a & !0xfffu64) % 4096 == 0,
        (b & !0xfffu64) % 4096 == 0,
        a & !0xfffu64 <= a,
        a - (a & !0xfffu64) < 4096,
{
}

/// Whether `w` lies in the window of frames an identity mapping of `r`
/// covers.
pub open spec fn in_id_window(r: Region, w: u64) -> bool {
    page_down(r.start) <= w < page_up(r.end)
}

/// Frames needed to identity-map a whole list of regions.
pub open spec fn id_pages_total(rs: Seq<Region>) -> int
    decreases rs.len(),
{
    if rs.len() == 0 {
        0
    } else {
        id_pages(rs[0]) + id_pages_total(rs.subrange(1, rs.len() as int))
    }
}

/// An identity window is a nonnegative whole number of frames.
pub proof fn lemma_id_pages_nonneg(r: Region)
    requires
        r.wf(),
        r.end + 0xfff <= u64::MAX,
    ensures
        id_pages(r) >= 0,
        id_pages(r) * PAGE_SIZE == page_up(r.end) - page_down(r.start),
{
    lemma_page_down_props(r.start, r.end);
    lemma_page_up_props(r.end);
    lemma_div_exact(page_up(r.end), page_down(r.start));
}

proof fn lemma_id_total_step(rs: Seq<Region>, i: int)
    requires
        0 <= i < rs.len(),
    ensures
        id_pages_total(rs.subrange(i, rs.len() as int)) == id_pages(rs[i]) + id_pages_total(
            rs.subrange(i + 1, rs.len() as int),
        ),
{
    let s1 = rs.subrange(i, rs.len() as int);
    assert(s1[0] == rs[i]);
    assert(s1.subrange(1, s1.len() as int) =~= rs.subrange(i + 1, rs.len() as int));
}

proof fn lemma_id_total_nonneg(rs: Seq<Region>)
    requires
        forall|r: int| 0 <= r < rs.len() ==> (#[trigger] rs[r]).wf() && rs[r].end <= 0x7f_ffff_f000,
    ensures
        id_pages_total(rs) >= 0,
    decreases rs.len(),
{
    if rs.len() > 0 {
        lemma_id_pages_nonneg(rs[0]);
        let tail = rs.subrange(1, rs.len() as int);
        assert(forall|r: int|
            0 <= r < tail.len() ==> (#[trigger] tail[r]).wf() && tail[r].end <= 0x7f_ffff_f000);
        lemma_id_total_nonneg(tail);
    }
}

/// Frames a range tuple `(start, end, vstart, flags)` maps.
pub open spec fn range_pages(t: (u64, u64, u64, u64)) -> int {
    pages_in_window(t.0, t.1)
}

/// Whether `w` lies in the virtual window a range tuple writes.
pub open spec fn range_covers(t: (u64, u64, u64, u64), w: u64) -> bool {
    page_down(t.2) <= w < page_down(t.2) + range_pages(t) * PAGE_SIZE
}

/// Frames needed to map a whole list of range tuples.
pub open spec fn range_pages_total(ts: Seq<(u64, u64, u64, u64)>) -> int
    decreases ts.len(),
{
    if ts.len() == 0 {
        0
    } else {
        range_pages(ts[0]) + range_pages_total(ts.subrange(1, ts.len() as int))
    }
}

/// A well-formed range tuple: ordered, below the physical limit, its virtual
/// window inside the 39-bit space, with a leaf attribute set.
pub open spec fn range_wf(t: (u64, u64, u64, u64)) -> bool {
    &&& t.0 <= t.1
    &&& t.1 < 0x100_0000_0000_0000
    &&& page_down(t.2) + (page_up(t.1) - page_down(t.0)) <= 0x80_0000_0000
    &&& range_pages(t) <= usize::MAX
    &&& t.3 <= 0x3ff
    &&& t.3 & 0xe != 0
}

proof fn lemma_range_pages_nonneg(t: (u64, u64, u64, u64))
    requires
        t.0 <= t.1,
        t.1 < 0x100_0000_0000_0000,
    ensures
        range_pages(t) >= 0,
        range_pages(t) * PAGE_SIZE == page_up(t.1) - page_down(t.0),
{
    lemma_page_down_props(t.0, t.1);
    lemma_page_up_props(t.1);
    lemma_div_exact(page_up(t.1), page_down(t.0));
}

proof fn lemma_range_total_step(ts: Seq<(u64, u64, u64, u64)>, i: int)
    requires
        0 <= i < ts.len(),
    ensures
        range_pages_total(ts.subrange(i, ts.len() as int)) == range_pages(ts[i])
            + range_pages_total(ts.subrange(i + 1, ts.len() as int)),
{
    let s1 = ts.subrange(i, ts.len() as int);
    assert(s1[0] == ts[i]);
    assert(s1.subrange(1, s1.len() as int) =~= ts.subrange(i + 1, ts.len() as int));
}

proof fn lemma_range_total_nonneg(ts: Seq<(u64, u64, u64, u64)>)
    requires
        forall|l: int|
            0 <= l < ts.len() ==> (#[trigger] ts[l]).0 <= ts[l].1 && ts[l].1
                < 0x100_0000_0000_0000,
    ensures
        range_pages_total(ts) >= 0,
    decreases ts.len(),
{
    if ts.len() > 0 {
        lemma_range_pages_nonneg(ts[0]);
        let tail = ts.subrange(1, ts.len() as int);
        assert(forall|l: int|
            0 <= l < tail.len() ==> (#[trigger] tail[l]).0 <= tail[l].1 && tail[l].1
                < 0x100_0000_0000_0000);
        lemma_range_total_nonneg(tail);
    }
}

/// Rounding up lands on the frame grid at or past the value.
pub proof fn lemma_page_up_props(a: u64)
    by (bit_vector)
    requires
        a + 0xfff <= u64::MAX,
    ensures
        (((a + 0xfff) as u64) & !0xfffu64) % 4096 == 0,
        a <= ((a + 0xfff) as u64) & !0xfffu64,
        (((a + 0xfff) as u64) & !0xfffu64) - a < 4096,
{
}

/// Every nine-bit index of the walk lies inside a table.
pub proof fn lemma_vpn_of_bounds(v: u64)
    ensures
        0 <= vpn2_of(v) < 512,
        0 <= vpn1_of(v) < 512,
        0 <= vpn0_of(v) < 512,
{
    assert((v >> 30) & 0x1ff < 512 && (v >> 21) & 0x1ff < 512 && (v >> 12) & 0x1ff < 512)
        by (bit_vector);
}

/// Two distinct frame-aligned addresses of the 39-bit space differ in at
/// least one walk index.
pub proof fn lemma_vpn_of_unique(a: u64, b: u64)
    requires
        a < 0x80_0000_0000,
        b < 0x80_0000_0000,
        a % 4096 == 0,
        b % 4096 == 0,
        a != b,
    ensures
        vpn2_of(a) != vpn2_of(b) || vpn1_of(a) != vpn1_of(b) || vpn0_of(a) != vpn0_of(b),
{
    if vpn2_of(a) == vpn2_of(b) && vpn1_of(a) == vpn1_of(b) && vpn0_of(a) == vpn0_of(b) {
        lemma_vpn_unique(a, b);
    }
}

/// Stepping through an aligned window of `n` pages stays aligned and inside
/// the window.
proof fn lemma_page_step(base: u64, i: int, n: int)
    requires
        base % 4096 == 0,
        0 <= i < n,
        base + n * 4096 <= 0x100_0000_0000_0000,
    ensures
        (base + i * 4096) % 4096 == 0,
        base + i * 4096 + 4096 <= base + n * 4096,
        base + (i + 1) * 4096 == base + i * 4096 + 4096,
        base <= base + i * 4096,
    decreases 0int,
{
    assert((base + i * 4096) % 4096 == 0 && base + i * 4096 + 4096 <= base + n * 4096 && base + (i
        + 1) * 4096 == base + i * 4096 + 4096) by (nonlinear_arith)
        requires
            base % 4096 == 0,
            0 <= i < n,
            base + n * 4096 <= 0x100_0000_0000_0000,
    ;
    assert(0 <= i * 4096) by (nonlinear_arith)
        requires
            0 <= i,
    ;
}

/// A single-frame allocation leaves every live single-frame allocation in
/// place and returns a base distinct from all of them.
pub proof fn lemma_alloc_keeps_allocated(
    pre: FrameAllocator,
    post: FrameAllocator,
    b: u64,
    b2: u64,
)
    requires
        alloc_ok(pre, post, 1, b),
        base_allocated(pre, b2),
    ensures
        base_allocated(post, b2),
        b2 != b,
{
    let i = choose|i: int| alloc_ok_at(pre, post, 1, b, i);
    assert(alloc_ok_at(pre, post, 1, b, i));
    let i2 = pre.index_of(b2);
    if i2 == i {
        assert(!pre.pages@[i].taken());
    } else {
        assert(post.pages@[i2] == pre.pages@[i2]);
        lemma_frame_addr_inj_val(pre, i, i2);
    }
}

/// The base returned by a single-frame allocation is itself a live
/// single-frame allocation afterwards, over a frame that was free before.
pub proof fn lemma_alloc_base_allocated(pre: FrameAllocator, post: FrameAllocator, b: u64)
    requires
        alloc_ok(pre, post, 1, b),
    ensures
        base_allocated(post, b),
        !pre.pages@[pre.index_of(b)].taken(),
{
    let i = choose|i: int| alloc_ok_at(pre, post, 1, b, i);
    assert(alloc_ok_at(pre, post, 1, b, i));
    assert((i * PAGE_SIZE) / (PAGE_SIZE as int) == i) by (nonlinear_arith);
    assert(pre.index_of(b) == i);
    assert(post.pages@[i].taken());
    assert(post.pages@[i].last());
}

/// Distinct pool indices give distinct frame addresses, value form.
proof fn lemma_frame_addr_inj_val(a: FrameAllocator, i: int, j: int)
    requires
        i != j,
    ensures
        a.frame_addr(i) != a.frame_addr(j),
{
    assert(i != j ==> i * PAGE_SIZE != j * PAGE_SIZE) by (nonlinear_arith);
}

/// Identity-mapping law: for every page inside a region mapped without a
/// distinct virtual base, the walk answers the address itself.
pub proof fn lemma_identity_mapping(post: PageTable, region: Region, a: u64)
    requires
        id_map_post(post, region),
        a % PAGE_SIZE == 0,
        in_id_window(region, a),
    ensures
        post.translate_spec(a) == Some(a),
{
}

/// Translation round-trip law: after mapping a frame-aligned pair, the
/// read-only walk answers exactly the mapped physical frame.
pub proof fn lemma_translate_roundtrip(
    pre: PageTable,
    post: PageTable,
    vaddr: u64,
    paddr: u64,
    flags: u64,
)
    requires
        map_addr_post(pre, post, vaddr, paddr, flags),
    ensures
        post.translate_spec(vaddr) == Some(paddr),
{
}

/// Unmapped-lookup law, base case: a fresh page table translates nothing.
pub proof fn lemma_fresh_translate_none(pt: PageTable, v: u64)
    requires
        pt.entries@.len() == 512,
        forall|i: int| 0 <= i < 512 ==> (#[trigger] pt.entries@[i]).0 == 0,
    ensures
        pt.translate_spec(v) is None,
{
    lemma_vpn_of_bounds(v);
    assert(!entry_valid(0u64)) by (bit_vector);
    assert(pt.entries@[vpn2_of(v)].0 == 0);
}

/// Unmapped-lookup law, step case: mapping one address leaves every other
/// address unmapped that was unmapped before, so an address never passed to
/// `map_addr` stays a translation miss.
pub proof fn lemma_map_preserves_miss(
    pre: PageTable,
    post: PageTable,
    vaddr: u64,
    paddr: u64,
    flags: u64,
    w: u64,
)
    requires
        map_addr_post(pre, post, vaddr, paddr, flags),
        w % PAGE_SIZE == 0,
        w < 0x80_0000_0000,
        w != vaddr,
        pre.translate_spec(w) is None,
    ensures
        post.translate_spec(w) is None,
{
}

/// One row of a table dump is a true mapping: a frame-aligned address of
/// the 39-bit space that translates to the listed frame under a leaf with
/// the listed flag set.
pub open spec fn dump_entry_ok(pt: PageTable, t: (u64, u64, u64)) -> bool {
    &&& t.0 % PAGE_SIZE == 0
    &&& t.0 < 0x80_0000_0000
    &&& pt.translate_spec(t.0) == Some(t.1)
    &&& pt.leaf_spec(t.0) is Some
    &&& entry_flags(pt.leaf_spec(t.0)->Some_0) == t.2
}

/// The dump lists an entry for address `w`.
pub open spec fn dump_has(s: Seq<(u64, u64, u64)>, w: u64) -> bool {
    exists|m: int| 0 <= m < s.len() && (#[trigger] s[m]).0 == w
}

/// Composing three nine-bit indices into a frame-aligned 39-bit address
/// hands back exactly those indices.
proof fn lemma_vaddr_compose(i2: u64, i1: u64, i0: u64)
    by (bit_vector)
    requires
        i2 < 512,
        i1 < 512,
        i0 < 512,
    ensures
        (((i2 << 30) | (i1 << 21) | (i0 << 12)) >> 30) & 0x1ff == i2,
        (((i2 << 30) | (i1 << 21) | (i0 << 12)) >> 21) & 0x1ff == i1,
        (((i2 << 30) | (i1 << 21) | (i0 << 12)) >> 12) & 0x1ff == i0,
        ((i2 << 30) | (i1 << 21) | (i0 << 12)) % 4096 == 0,
        ((i2 << 30) | (i1 << 21) | (i0 << 12)) < 0x80_0000_0000,
{
}

/// Pool index `k` backs one of the tree's branch frames.
pub open spec fn is_table_frame(pt: PageTable, a: FrameAllocator, k: int) -> bool {
    ||| exists|i: int| #[trigger] pt.has_t1(i) && a.index_of(pt.t1(i).base) == k
    ||| exists|i: int, j: int| #[trigger] pt.has_t0(i, j) && a.index_of(pt.t0(i, j).base) == k
}

/// Pool index `k` backs a branch frame that the unmap walk has already
/// passed: a middle-level table below root index `i2`, or a bottom-level
/// table below the pair `(i2, i1)`.
pub open spec fn table_frame_below(
    pt: PageTable,
    a: FrameAllocator,
    k: int,
    i2: int,
    i1: int,
) -> bool {
    ||| exists|i: int| 0 <= i < i2 && #[trigger] pt.has_t1(i) && a.index_of(pt.t1(i).base) == k
    ||| exists|i: int, j: int|
        (0 <= i < i2 || (i == i2 && 0 <= j < i1)) && #[trigger] pt.has_t0(i, j) && a.index_of(
            pt.t0(i, j).base,
        ) == k
}

/// Live single-frame allocations at the same pool index share their base.
proof fn lemma_base_index_inj(a: FrameAllocator, b1: u64, b2: u64)
    requires
        base_allocated(a, b1),
        base_allocated(a, b2),
        a.index_of(b1) == a.index_of(b2),
    ensures
        b1 == b2,
{
}

/// A page table with no children satisfies the allocator agreement for any
/// allocator state.
pub proof fn lemma_empty_pt_inv(pt: PageTable, a: FrameAllocator)
    requires
        forall|i: int| 0 <= i < 512 ==> (#[trigger] pt.children@[i]) is None,
        pt.children@.len() == 512,
    ensures
        pt_inv(pt, a),
{
    assert(forall|i: int| !(#[trigger] pt.has_t1(i)));
    assert(forall|i: int, j: int| !(#[trigger] pt.has_t0(i, j)));
}

} // verus!
