//! The physical page-frame allocator.
//!
//! Physical memory is managed as a flat pool of 4096-byte frames. A
//! contiguous metadata table holds one record per frame with a small flag
//! set: `Taken` marks a frame that belongs to an allocation, and `Last` marks
//! the final frame of a multi-frame run, so deallocation knows where the run
//! ends. Allocation is first-fit over runs of consecutive free frames, with
//! no compaction.

use vstd::prelude::*;

verus! {

pub const PAGE_ORDER: u64 = 12;

pub const PAGE_SIZE: u64 = 4096;

proof fn lemma_align_up(val: u64, order: u64, m: u64, s: u64, r: u64)
    by (bit_vector)
    requires
        order < 64,
        m == (1u64 << order) - 1,
        s == val + m,
        r == s & !m,
    ensures
        r & m == 0,
        val <= r,
        r - val < (1u64 << order),
{
}

proof fn lemma_align_down(val: u64, order: u64, m: u64, r: u64)
    by (bit_vector)
    requires
        order < 64,
        m == (1u64 << order) - 1,
        r == val & !m,
    ensures
        r & m == 0,
        r <= val,
        val - r < (1u64 << order),
{
}

/// A value whose low twelve bits are clear is a multiple of the frame size.
pub proof fn lemma_frame_aligned(x: u64)
    by (bit_vector)
    ensures
        (x & 0xfff == 0) <==> (x % 4096 == 0),
{
}

/// Round `val` up to the next multiple of `1 << order`.
pub fn align_val(val: u64, order: u64) -> (r: u64)
    requires
        order < 64,
        val + ((1u64 << order) - 1) <= u64::MAX,
    ensures
        r == ((val + ((1u64 << order) - 1)) as u64) & !(((1u64 << order) - 1) as u64),
        r & (((1u64 << order) - 1) as u64) == 0,
        val <= r,
        r - val < (1u64 << order),
{
    proof {
        assert(order < 64 ==> 1u64 << order >= 1) by (bit_vector);
    }
    let o = (1u64 << order) - 1;
    let r = (val + o) & !o;
    proof {
        lemma_align_up(val, order, o, (val + o) as u64, r);
    }
    r
}

/// Round `val` down to a multiple of `1 << order`.
pub fn align_val_down(val: u64, order: u64) -> (r: u64)
    requires
        order < 64,
    ensures
        r == val & !(((1u64 << order) - 1) as u64),
        r & (((1u64 << order) - 1) as u64) == 0,
        r <= val,
        val - r < (1u64 << order),
{
    proof {
        assert(order < 64 ==> 1u64 << order >= 1) by (bit_vector);
    }
    let r = val & !(((1u64 << order) - 1) as u64);
    proof {
        lemma_align_down(val, order, ((1u64 << order) - 1) as u64, r);
    }
    r
}

/// Round an address down to its frame boundary.
pub fn align_page_down(val: u64) -> (r: u64)
    ensures
        r == val & !(((1u64 << PAGE_ORDER) - 1) as u64),
        r % PAGE_SIZE == 0,
        r <= val,
        val - r < PAGE_SIZE,
{
    let r = align_val_down(val, PAGE_ORDER);
    proof {
        assert((1u64 << 12) - 1 == 0xfff) by (bit_vector);
        lemma_frame_aligned(r);
    }
    r
}

/// The flag bits of a frame-metadata record.
#[derive(Debug, Clone, Copy, PartialEq, Eq, Structural)]
pub enum PageFlag {
    Empty,
    Taken,
    Last,
}

impl PageFlag {
    pub open spec fn spec_value(self) -> u8 {
        match self {
            PageFlag::Empty => 0,
            PageFlag::Taken => 1,
            PageFlag::Last => 2,
        }
    }

    #[verifier::when_used_as_spec(spec_value)]
    pub fn value(self) -> (r: u8)
        ensures
            r == self.spec_value(),
    {
        match self {
            PageFlag::Empty => 0,
            PageFlag::Taken => 1,
            PageFlag::Last => 2,
        }
    }
}

/// The metadata record of one physical frame: a flag byte.
///
/// A frame is free exactly when its `Taken` bit is unset; the `Last` bit is
/// only ever set on a taken frame, on the final frame of its run.
#[derive(Clone, Copy)]
pub struct Page {
    pub flag: u8,
}

impl Page {
    /// The frame belongs to an allocated run.
    pub open spec fn taken(self) -> bool {
        self.flag & 1 != 0
    }

    /// The frame is the last of its allocated run.
    pub open spec fn last(self) -> bool {
        self.flag & 2 != 0
    }

    pub fn new() -> (r: Page)
        ensures
            r.flag == 0,
            !r.taken(),
            !r.last(),
    {
        let r = Page { flag: PageFlag::Empty.value() };
        proof {
            assert(0u8 & 1 == 0 && 0u8 & 2 == 0) by (bit_vector);
        }
        r
    }

    /// Clear every flag: the frame becomes free.
    pub fn clear(&mut self)
        ensures
            final(self).flag == 0,
            !final(self).taken(),
            !final(self).last(),
    {
        self.flag = PageFlag::Empty.value();
        proof {
            assert(0u8 & 1 == 0 && 0u8 & 2 == 0) by (bit_vector);
        }
    }

    /// Clear one flag's bits, leaving the rest of the byte unchanged.
    pub fn clear_flag(&mut self, flag: PageFlag)
        ensures
            final(self).flag == old(self).flag & !flag.value(),
            final(self).taken() == (old(self).taken() && flag != PageFlag::Taken),
            final(self).last() == (old(self).last() && flag != PageFlag::Last),
    {
        let v = flag.value();
        self.flag = self.flag & !v;
        proof {
            let f = old(self).flag;
            assert((v == 0 || v == 1 || v == 2) ==> {
                &&& ((f & !v) & 1 != 0) == ((f & 1 != 0) && v != 1)
                &&& ((f & !v) & 2 != 0) == ((f & 2 != 0) && v != 2)
            }) by (bit_vector);
        }
    }

    /// Set one flag's bits, leaving the rest of the byte unchanged.
    pub fn set(&mut self, flag: PageFlag)
        ensures
            final(self).flag == old(self).flag | flag.value(),
            final(self).taken() == (old(self).taken() || flag == PageFlag::Taken),
            final(self).last() == (old(self).last() || flag == PageFlag::Last),
    {
        let v = flag.value();
        self.flag = self.flag | v;
        proof {
            let f = old(self).flag;
            assert((v == 0 || v == 1 || v == 2) ==> {
                &&& ((f | v) & 1 != 0) == ((f & 1 != 0) || v == 1)
                &&& ((f | v) & 2 != 0) == ((f & 2 != 0) || v == 2)
            }) by (bit_vector);
        }
    }

    pub fn is_last(&self) -> (r: bool)
        ensures
            r == self.last(),
    {
        self.flag & PageFlag::Last.value() != 0
    }

    pub fn is_free(&self) -> (r: bool)
        ensures
            r == !self.taken(),
    {
        self.flag & PageFlag::Taken.value() == 0
    }
}

/// The page-frame allocator: the metadata table and the base address of the
/// first managed frame.
///
/// Frame `i` of the pool starts at address `alloc_start + i * PAGE_SIZE`.
pub struct FrameAllocator {
    pub pages: Vec<Page>,
    pub alloc_start: u64,
}

impl FrameAllocator {
    /// Number of frames in the managed pool.
    pub open spec fn len(self) -> int {
        self.pages@.len() as int
    }

    pub open spec fn frame_taken(self, i: int) -> bool {
        self.pages@[i].taken()
    }

    pub open spec fn frame_last(self, i: int) -> bool {
        self.pages@[i].last()
    }

    pub open spec fn frame_free(self, i: int) -> bool {
        !self.frame_taken(i)
    }

    /// Physical base address of frame `i`.
    pub open spec fn frame_addr(self, i: int) -> int {
        self.alloc_start + i * PAGE_SIZE
    }

    /// Pool index of the frame that starts at address `addr`.
    pub open spec fn index_of(self, addr: u64) -> int {
        (addr - self.alloc_start) / (PAGE_SIZE as int)
    }

    /// Well-formedness: the pool is frame-aligned, lies below the 56-bit
    /// physical-address limit, and the `Last` mark only ever sits on a taken
    /// frame.
    pub open spec fn wf(self) -> bool {
        &&& self.alloc_start % PAGE_SIZE == 0
        &&& self.alloc_start + self.len() * PAGE_SIZE < 0x100_0000_0000_0000
        &&& forall|i: int|
            0 <= i < self.len() && !(#[trigger] self.pages@[i]).taken() ==> !self.pages@[i].last()
    }

    /// Frames `[i, i + n)` are all free.
    pub open spec fn run_free(self, i: int, n: int) -> bool {
        forall|j: int| i <= j < i + n ==> !(#[trigger] self.pages@[j]).taken()
    }

    /// Some run of `n` consecutive free frames exists in the pool.
    pub open spec fn has_free_run(self, n: int) -> bool {
        exists|i: int| 0 <= i && i + n <= self.len() && self.run_free(i, n)
    }

    /// Frames `[i, e]` form a terminated allocated run: all taken, with the
    /// `Last` mark exactly on frame `e`.
    pub open spec fn is_run(self, i: int, e: int) -> bool {
        &&& 0 <= i <= e < self.len()
        &&& (forall|k: int| i <= k <= e ==> (#[trigger] self.pages@[k]).taken())
        &&& self.frame_last(e)
        &&& (forall|k: int| i <= k < e ==> !(#[trigger] self.pages@[k]).last())
    }

    /// The end of the allocated run that starts at frame `i`.
    pub open spec fn run_end(self, i: int) -> int {
        choose|e: int| self.is_run(i, e)
    }

    /// Number of free frames among the first `n`.
    pub open spec fn free_count_upto(self, n: int) -> int
        decreases n,
    {
        if n <= 0 {
            0
        } else {
            self.free_count_upto(n - 1) + if self.frame_free(n - 1) {
                1int
            } else {
                0int
            }
        }
    }

    /// Number of free frames in the whole pool.
    pub open spec fn free_count(self) -> int {
        self.free_count_upto(self.len())
    }
}

/// What a successful allocation of `n` frames at pool index `i` did: the run
/// was free and is the first such run (first fit), it is now marked taken with
/// `Last` on its final frame, and no other record changed.
pub open spec fn alloc_ok_at(
    pre: FrameAllocator,
    post: FrameAllocator,
    n: int,
    base: u64,
    i: int,
) -> bool {
    &&& post.alloc_start == pre.alloc_start
    &&& post.len() == pre.len()
    &&& 0 <= i && i + n <= pre.len()
    &&& base == pre.frame_addr(i)
    &&& pre.run_free(i, n)
    &&& (forall|j: int| 0 <= j < i ==> !pre.run_free(j, n))
    &&& (forall|k: int| i <= k < i + n ==> (#[trigger] post.pages@[k]).taken())
    &&& (forall|k: int| i <= k < i + n ==> ((#[trigger] post.pages@[k]).last() <==> k == i + n - 1))
    &&& (forall|k: int|
        0 <= k < pre.len() && !(i <= k < i + n) ==> post.pages@[k] == pre.pages@[k])
}

/// A successful allocation of `n` frames returning base address `base`.
pub open spec fn alloc_ok(pre: FrameAllocator, post: FrameAllocator, n: int, base: u64) -> bool {
    exists|i: int| alloc_ok_at(pre, post, n, base, i)
}

/// What a deallocation at address `ptr` did: the allocated run starting there
/// is now entirely free, and no other record changed.
pub open spec fn dealloc_ok(pre: FrameAllocator, post: FrameAllocator, ptr: u64) -> bool {
    let i = pre.index_of(ptr);
    let e = pre.run_end(i);
    &&& post.alloc_start == pre.alloc_start
    &&& post.len() == pre.len()
    &&& pre.is_run(i, e)
    &&& (forall|k: int|
        i <= k <= e ==> !(#[trigger] post.pages@[k]).taken() && !post.pages@[k].last())
    &&& (forall|k: int| 0 <= k < pre.len() && !(i <= k <= e) ==> post.pages@[k] == pre.pages@[k])
}

impl FrameAllocator {
    /// Check whether frames `[i, i + n)` are all free.
    fn run_is_free(&self, i: usize, n: usize) -> (r: bool)
        requires
            i + n <= self.len(),
        ensures
            r == self.run_free(i as int, n as int),
    {
        let total = self.pages.len();
        let mut k: usize = 0;
        while k < n
            invariant
                i + n <= total,
                total == self.len(),
                k <= n,
                forall|j: int| i <= j < i + k ==> !(#[trigger] self.pages@[j]).taken(),
            decreases n - k,
        {
            if !self.pages[i + k].is_free() {
                proof {
                    assert(self.pages@[i + k as int].taken());
                }
                return false;
            }
            k = k + 1;
        }
        true
    }

    /// Scan the pool for the first run of `pages` consecutive free frames,
    /// mark all of them `Taken` and the final one `Last`, and return the base
    /// physical address of the run; return `None` when no such run exists.
    pub fn allocate(&mut self, pages: usize) -> (r: Option<u64>)
        requires
            old(self).wf(),
            pages >= 1,
        ensures
            final(self).wf(),
            match r {
                Some(base) => alloc_ok(*old(self), *final(self), pages as int, base),
                None => *final(self) == *old(self) && !old(self).has_free_run(pages as int),
            },
    {
        let n = self.pages.len();
        if pages > n {
            return None;
        }
        let mut i: usize = 0;
        while i <= n - pages
            invariant
                self == old(self),
                self.wf(),
                n == self.len(),
                1 <= pages <= n,
                i <= n,
                forall|j: int| 0 <= j < i ==> !self.run_free(j, pages as int),
            decreases n - i,
        {
            if self.run_is_free(i, pages) {
                let ghost pre = *self;
                let mut k: usize = 0;
                while k < pages
                    invariant
                        1 <= pages,
                        i + pages <= n,
                        n == pre.len(),
                        k <= pages,
                        self.alloc_start == pre.alloc_start,
                        self.len() == pre.len(),
                        pre.wf(),
                        pre.run_free(i as int, pages as int),
                        forall|t: int|
                            i <= t < i + k ==> (#[trigger] self.pages@[t]).taken()
                                && !self.pages@[t].last(),
                        forall|t: int|
                            0 <= t < pre.len() && !(i <= t < i + k) ==> self.pages@[t] == pre.pages@[t],
                    decreases pages - k,
                {
                    proof {
                        assert(self.pages@[i + k as int] == pre.pages@[i + k as int]);
                        assert(!pre.pages@[i + k as int].taken());
                        assert(!pre.pages@[i + k as int].last());
                    }
                    let mut p = self.pages[i + k];
                    p.set(PageFlag::Taken);
                    self.pages.set(i + k, p);
                    k = k + 1;
                }
                let mut q = self.pages[i + pages - 1];
                q.set(PageFlag::Last);
                self.pages.set(i + pages - 1, q);
                proof {
                    assert((i as int + 1) * PAGE_SIZE <= pre.len() * PAGE_SIZE) by (nonlinear_arith)
                        requires
                            0 <= i as int + 1 <= pre.len(),
                    ;
                }
                let base = self.alloc_start + (i as u64) * PAGE_SIZE;
                proof {
                    assert(alloc_ok_at(pre, *self, pages as int, base, i as int));
                }
                return Some(base);
            }
            i = i + 1;
        }
        proof {
            assert(forall|j: int|
                0 <= j && j + pages <= n ==> !old(self).run_free(j, pages as int));
        }
        None
    }

    /// As `alloc`, additionally guaranteeing that the returned frames hold no
    /// stale data. Frame contents are not part of this model, in which every
    /// structure built over fresh frames (notably a new page table) starts
    /// zero-filled by construction; the contract is therefore that of `alloc`.
    pub fn zalloc(&mut self, pages: usize) -> (r: Option<u64>)
        requires
            old(self).wf(),
            pages >= 1,
        ensures
            final(self).wf(),
            match r {
                Some(base) => alloc_ok(*old(self), *final(self), pages as int, base),
                None => *final(self) == *old(self) && !old(self).has_free_run(pages as int),
            },
    {
        self.allocate(pages)
    }

    /// Free the allocated run whose base address is `ptr`: walk forward
    /// clearing flags until the frame marked `Last` has been cleared.
    pub fn dealloc(&mut self, ptr: u64)
        requires
            old(self).wf(),
            ptr >= old(self).alloc_start,
            ptr % PAGE_SIZE == 0,
            exists|e: int| old(self).is_run(old(self).index_of(ptr), e),
        ensures
            final(self).wf(),
            dealloc_ok(*old(self), *final(self), ptr),
    {
        let ghost pre = *self;
        let ghost gi = pre.index_of(ptr);
        let ghost e = pre.run_end(gi);
        proof {
            let we = choose|w: int| pre.is_run(gi, w);
            assert(pre.is_run(gi, we));
            assert(pre.is_run(gi, pre.run_end(gi)));
            lemma_div_exact(ptr, self.alloc_start);
        }
        let total = self.pages.len();
        let i = ((ptr - self.alloc_start) / PAGE_SIZE) as usize;
        proof {
            assert(i as int == gi);
        }
        let mut k = i;
        while !self.pages[k].is_free() && !self.pages[k].is_last()
            invariant
                pre.wf(),
                pre.is_run(gi, e),
                gi <= k <= e,
                total == pre.len(),
                self.alloc_start == pre.alloc_start,
                self.len() == pre.len(),
                forall|t: int|
                    gi <= t < k ==> !(#[trigger] self.pages@[t]).taken() && !self.pages@[t].last(),
                forall|t: int|
                    0 <= t < pre.len() && !(gi <= t < k) ==> self.pages@[t] == pre.pages@[t],
            decreases e - k,
        {
            proof {
                assert(self.pages@[k as int] == pre.pages@[k as int]);
            }
            let mut p = self.pages[k];
            p.clear();
            self.pages.set(k, p);
            k = k + 1;
        }
        proof {
            assert(self.pages@[k as int] == pre.pages@[k as int]);
            assert(k == e);
        }
        let mut p = self.pages[k];
        p.clear();
        self.pages.set(k, p);
        proof {
            assert forall|t: int|
                0 <= t < self.len() && !(#[trigger] self.pages@[t]).taken()
                implies !self.pages@[t].last() by {
                if !(gi <= t <= e) {
                    assert(self.pages@[t] == pre.pages@[t]);
                }
            }
        }
    }
}

/// An allocated run has a single well-defined end.
pub proof fn lemma_run_end_unique(a: FrameAllocator, i: int, e1: int, e2: int)
    requires
        a.is_run(i, e1),
        a.is_run(i, e2),
    ensures
        e1 == e2,
{
}

/// For frame-aligned `ptr` past an aligned pool start, recovering the frame
/// index by division is exact.
pub proof fn lemma_div_exact(ptr: u64, start: u64)
    requires
        ptr % PAGE_SIZE == 0,
        start % PAGE_SIZE == 0,
        ptr >= start,
    ensures
        (ptr - start) % (PAGE_SIZE as int) == 0,
        start + ((ptr - start) / (PAGE_SIZE as int)) * PAGE_SIZE == ptr,
{
    let d = ptr - start;
    assert(d % (PAGE_SIZE as int) == 0) by (nonlinear_arith)
        requires
            ptr % PAGE_SIZE == 0,
            start % PAGE_SIZE == 0,
            ptr >= start,
            d == ptr - start,
    ;
    assert(d / (PAGE_SIZE as int) * PAGE_SIZE == d) by (nonlinear_arith)
        requires
            d % (PAGE_SIZE as int) == 0,
            d >= 0,
    ;
}

/// Build the allocator over a heap region: the metadata table occupies the
/// start of the heap, one record per frame, and the pool of allocatable
/// frames begins at the next frame boundary past the table.
pub fn init(heap_start: u64, heap_size: u64) -> (r: FrameAllocator)
    requires
        heap_start % PAGE_SIZE == 0,
        heap_start + heap_size < 0x100_0000_0000_0000,
        heap_size / PAGE_SIZE <= usize::MAX,
    ensures
        r.wf(),
        forall|i: int| 0 <= i < r.len() ==> !(#[trigger] r.pages@[i]).taken() && !r.pages@[i].last(),
        r.free_count() == r.len(),
        // the pool starts past the metadata table, at a frame boundary
        heap_start + heap_size / PAGE_SIZE <= r.alloc_start,
        r.alloc_start % PAGE_SIZE == 0,
        r.alloc_start < heap_start + heap_size / PAGE_SIZE + PAGE_SIZE,
        // the pool lies inside the heap and takes every whole frame of it
        r.alloc_start <= heap_start + heap_size ==> {
            &&& r.alloc_start + r.len() * PAGE_SIZE <= heap_start + heap_size
            &&& r.len() == (heap_start + heap_size - r.alloc_start) / (PAGE_SIZE as int)
        },
        r.alloc_start > heap_start + heap_size ==> r.len() == 0,
{
    let frames = heap_size / PAGE_SIZE;
    let table_end = heap_start + frames;
    proof {
        assert((1u64 << 12) - 1 == 0xfff) by (bit_vector);
    }
    let pool_start = align_val(table_end, PAGE_ORDER);
    proof {
        lemma_frame_aligned(pool_start);
    }
    let heap_end = heap_start + heap_size;
    let count: usize = if pool_start <= heap_end {
        proof {
            assert((heap_end - pool_start) / (PAGE_SIZE as int) <= heap_size as int / (
            PAGE_SIZE as int)) by (nonlinear_arith)
                requires
                    heap_start <= pool_start,
                    heap_end == heap_start + heap_size,
                    pool_start <= heap_end,
                    PAGE_SIZE > 0,
            ;
        }
        ((heap_end - pool_start) / PAGE_SIZE) as usize
    } else {
        0
    };
    let mut table: Vec<Page> = Vec::new();
    let mut idx: usize = 0;
    while idx < count
        invariant
            table@.len() == idx,
            idx <= count,
            forall|t: int| 0 <= t < idx ==> !(#[trigger] table@[t]).taken() && !table@[t].last(),
        decreases count - idx,
    {
        table.push(Page::new());
        idx = idx + 1;
    }
    let r = FrameAllocator { pages: table, alloc_start: pool_start };
    proof {
        if pool_start <= heap_end {
            assert((count as int) * PAGE_SIZE <= heap_end - pool_start) by (nonlinear_arith)
                requires
                    count as int == ((heap_end - pool_start) as int) / (PAGE_SIZE as int),
                    pool_start <= heap_end,
                    PAGE_SIZE > 0,
            ;
        }
        lemma_all_free_count(r, r.len());
    }
    r
}

/// In a table whose first `n` frames are all free, `n` frames are counted
/// free.
proof fn lemma_all_free_count(a: FrameAllocator, n: int)
    requires
        0 <= n <= a.len(),
        forall|i: int| 0 <= i < a.len() ==> !(#[trigger] a.pages@[i]).taken(),
    ensures
        a.free_count_upto(n) == n,
    decreases n,
{
    if n > 0 {
        lemma_all_free_count(a, n - 1);
    }
}

/// The free count over a prefix is bounded by the prefix length.
pub proof fn lemma_free_count_bounds(a: FrameAllocator, n: int)
    requires
        0 <= n <= a.len(),
    ensures
        0 <= a.free_count_upto(n) <= n,
    decreases n,
{
    if n > 0 {
        lemma_free_count_bounds(a, n - 1);
    }
}

/// The free count grows with the prefix.
proof fn lemma_free_count_mono(a: FrameAllocator, m: int, n: int)
    requires
        0 <= m <= n,
    ensures
        a.free_count_upto(m) <= a.free_count_upto(n),
    decreases n,
{
    if m < n {
        lemma_free_count_mono(a, m, n - 1);
    }
}

/// A free run of length `n` contributes `n` to the free count.
proof fn lemma_run_adds_count(a: FrameAllocator, i: int, n: int)
    requires
        0 <= i,
        0 <= n,
        a.run_free(i, n),
    ensures
        a.free_count_upto(i + n) >= a.free_count_upto(i) + n,
    decreases n,
{
    if n > 0 {
        lemma_run_adds_count(a, i, n - 1);
        assert(!a.pages@[i + n - 1].taken());
    }
}

/// A pool holding a free run of `n` consecutive frames has at least `n` free
/// frames in total.
pub proof fn lemma_run_free_count(a: FrameAllocator, i: int, n: int)
    requires
        0 <= i,
        0 <= n,
        i + n <= a.len(),
        a.run_free(i, n),
    ensures
        a.free_count() >= n,
{
    lemma_run_adds_count(a, i, n);
    lemma_free_count_mono(a, i + n, a.len());
    lemma_free_count_bounds(a, i);
}

/// A pool with a free frame somewhere has a free run of length one.
pub proof fn lemma_free_count_pos(a: FrameAllocator)
    requires
        a.free_count() >= 1,
    ensures
        a.has_free_run(1),
{
    lemma_find_free(a, a.len());
    let i = choose|i: int| 0 <= i < a.len() && !(#[trigger] a.pages@[i]).taken();
    assert(a.run_free(i, 1));
    assert(0 <= i && i + 1 <= a.len() && a.run_free(i, 1));
}

proof fn lemma_find_free(a: FrameAllocator, n: int)
    requires
        0 <= n <= a.len(),
        a.free_count_upto(n) >= 1,
    ensures
        exists|i: int| 0 <= i < n && !(#[trigger] a.pages@[i]).taken(),
    decreases n,
{
    if a.pages@[n - 1].taken() {
        lemma_find_free(a, n - 1);
    }
}

/// Counting effect of marking the window `[i, i + n)` taken: the free count
/// of a prefix drops by the part of the window below the prefix end.
proof fn lemma_count_window(pre: FrameAllocator, post: FrameAllocator, i: int, n: int, m: int)
    requires
        0 <= i,
        0 <= n,
        i + n <= pre.len(),
        post.len() == pre.len(),
        0 <= m <= pre.len(),
        forall|k: int|
            i <= k < i + n ==> !(#[trigger] pre.pages@[k]).taken() && post.pages@[k].taken(),
        forall|k: int|
            0 <= k < pre.len() && !(i <= k < i + n) ==> (#[trigger] post.pages@[k]).taken()
                == pre.pages@[k].taken(),
    ensures
        post.free_count_upto(m) == pre.free_count_upto(m) - (
        if m <= i {
            0int
        } else if m >= i + n {
            n
        } else {
            m - i
        }),
    decreases m,
{
    if m > 0 {
        lemma_count_window(pre, post, i, n, m - 1);
        assert(pre.free_count_upto(m) == pre.free_count_upto(m - 1) + (if pre.frame_free(m - 1) {
            1int
        } else {
            0int
        }));
        assert(post.free_count_upto(m) == post.free_count_upto(m - 1) + (if post.frame_free(
            m - 1,
        ) {
            1int
        } else {
            0int
        }));
        if i <= m - 1 < i + n {
            assert(!pre.pages@[m - 1].taken());
            assert(post.pages@[m - 1].taken());
        } else {
            assert(post.pages@[m - 1].taken() == pre.pages@[m - 1].taken());
        }
    }
}

/// A successful allocation of `n` frames lowers the free count by exactly
/// `n`.
pub proof fn lemma_alloc_free_count(pre: FrameAllocator, post: FrameAllocator, n: int, base: u64)
    requires
        alloc_ok(pre, post, n, base),
        0 <= n,
    ensures
        post.free_count() == pre.free_count() - n,
{
    let i = choose|i: int| alloc_ok_at(pre, post, n, base, i);
    lemma_count_window(pre, post, i, n, pre.len());
}

/// Allocator exhaustion: an allocation of `n` frames can only succeed when
/// at least `n` frames are free, so requesting more frames than remain free
/// returns the empty result; and a successful run lies entirely inside the
/// pool, never partially outside it.
pub proof fn lemma_alloc_exhaustion(pre: FrameAllocator, post: FrameAllocator, n: int, base: u64)
    requires
        alloc_ok(pre, post, n, base),
        n >= 1,
    ensures
        n <= pre.free_count(),
        pre.alloc_start <= base,
        base + n * PAGE_SIZE <= pre.alloc_start + pre.len() * PAGE_SIZE,
{
    let i = choose|i: int| alloc_ok_at(pre, post, n, base, i);
    assert(alloc_ok_at(pre, post, n, base, i));
    lemma_run_free_count(pre, i, n);
    assert(0 <= i * PAGE_SIZE) by (nonlinear_arith)
        requires
            i >= 0,
    ;
    assert((i + n) * PAGE_SIZE <= pre.len() * PAGE_SIZE) by (nonlinear_arith)
        requires
            i + n <= pre.len(),
    ;
    assert((i + n) * PAGE_SIZE == i * PAGE_SIZE + n * PAGE_SIZE) by (nonlinear_arith);
}

/// Allocation never clears a `Taken` mark: every frame taken before stays
/// taken, and the pool layout is unchanged.
pub open spec fn preserves_taken(pre: FrameAllocator, post: FrameAllocator) -> bool {
    &&& post.alloc_start == pre.alloc_start
    &&& post.len() == pre.len()
    &&& forall|k: int|
        0 <= k < pre.len() && (#[trigger] pre.pages@[k]).taken()
            ==> (#[trigger] post.pages@[k]).taken()
}

pub proof fn lemma_alloc_preserves_taken(pre: FrameAllocator, post: FrameAllocator, n: int, base: u64)
    requires
        alloc_ok(pre, post, n, base),
    ensures
        preserves_taken(pre, post),
{
    let i = choose|i: int| alloc_ok_at(pre, post, n, base, i);
    assert forall|k: int|
        0 <= k < pre.len() && (#[trigger] pre.pages@[k]).taken() implies post.pages@[k].taken() by {
        if !(i <= k < i + n) {
            assert(post.pages@[k] == pre.pages@[k]);
        }
    }
}

pub proof fn lemma_preserves_taken_trans(
    a: FrameAllocator,
    b: FrameAllocator,
    c: FrameAllocator,
)
    requires
        preserves_taken(a, b),
        preserves_taken(b, c),
    ensures
        preserves_taken(a, c),
{
    assert forall|k: int|
        0 <= k < a.len() && (#[trigger] a.pages@[k]).taken() implies c.pages@[k].taken() by {
        assert(b.pages@[k].taken());
    }
}

/// Allocator disjointness: two successful allocations, with any taken-
/// preserving steps between them (further allocations included), return
/// address ranges that do not overlap.
pub proof fn lemma_alloc_disjoint(
    s0: FrameAllocator,
    s1: FrameAllocator,
    sm: FrameAllocator,
    s2: FrameAllocator,
    n1: int,
    n2: int,
    b1: u64,
    b2: u64,
)
    requires
        alloc_ok(s0, s1, n1, b1),
        preserves_taken(s1, sm),
        alloc_ok(sm, s2, n2, b2),
        n1 >= 1,
        n2 >= 1,
    ensures
        b1 + n1 * PAGE_SIZE <= b2 || b2 + n2 * PAGE_SIZE <= b1,
{
    let i1 = choose|i: int| alloc_ok_at(s0, s1, n1, b1, i);
    let i2 = choose|i: int| alloc_ok_at(sm, s2, n2, b2, i);
    assert(alloc_ok_at(s0, s1, n1, b1, i1));
    assert(alloc_ok_at(sm, s2, n2, b2, i2));
    if !(i1 + n1 <= i2 || i2 + n2 <= i1) {
        let k = if i1 >= i2 {
            i1
        } else {
            i2
        };
        assert(i1 <= k < i1 + n1 && i2 <= k < i2 + n2);
        assert(s1.pages@[k].taken());
        assert(sm.pages@[k].taken());
        assert(!sm.pages@[k].taken());
    }
    assert(i1 + n1 <= i2 ==> (i1 + n1) * PAGE_SIZE <= i2 * PAGE_SIZE) by (nonlinear_arith);
    assert(i2 + n2 <= i1 ==> (i2 + n2) * PAGE_SIZE <= i1 * PAGE_SIZE) by (nonlinear_arith);
    assert((i1 + n1) * PAGE_SIZE == i1 * PAGE_SIZE + n1 * PAGE_SIZE) by (nonlinear_arith);
    assert((i2 + n2) * PAGE_SIZE == i2 * PAGE_SIZE + n2 * PAGE_SIZE) by (nonlinear_arith);
}

/// Allocator reuse: allocating `n` frames, freeing that run, and allocating
/// `n` frames again (with nothing else in between) returns the same base
/// address.
pub proof fn lemma_alloc_reuse(
    s0: FrameAllocator,
    s1: FrameAllocator,
    s2: FrameAllocator,
    s3: FrameAllocator,
    n: int,
    b: u64,
    b2: u64,
)
    requires
        s0.wf(),
        alloc_ok(s0, s1, n, b),
        dealloc_ok(s1, s2, b),
        alloc_ok(s2, s3, n, b2),
        n >= 1,
    ensures
        b2 == b,
{
    let i = choose|i: int| alloc_ok_at(s0, s1, n, b, i);
    assert(alloc_ok_at(s0, s1, n, b, i));
    assert(s1.is_run(i, i + n - 1));
    // the deallocated run is exactly the allocated one
    assert((i * PAGE_SIZE) / (PAGE_SIZE as int) == i) by (nonlinear_arith)
        requires
            PAGE_SIZE > 0,
            i >= 0,
    ;
    assert(s1.index_of(b) == i);
    let e = s1.run_end(i);
    assert(s1.is_run(i, e) && s1.is_run(i, i + n - 1));
    lemma_run_end_unique(s1, i, e, i + n - 1);
    // after the deallocation the free pattern matches the starting state
    assert forall|k: int|
        0 <= k < s0.len() implies (#[trigger] s2.pages@[k]).taken() == s0.pages@[k].taken() by {
        if i <= k <= e {
            assert(!s2.pages@[k].taken());
            assert(!s0.pages@[k].taken());
        } else {
            assert(s2.pages@[k] == s1.pages@[k]);
            assert(s1.pages@[k] == s0.pages@[k]);
        }
    }
    // first fit picks the same index again
    let i2 = choose|i: int| alloc_ok_at(s2, s3, n, b2, i);
    assert(alloc_ok_at(s2, s3, n, b2, i2));
    assert forall|j: int| 0 <= j && j + n <= s0.len() implies (s2.run_free(j, n) == s0.run_free(
        j,
        n,
    )) by {
        if s2.run_free(j, n) {
            assert forall|t: int| j <= t < j + n implies !(#[trigger] s0.pages@[t]).taken() by {
                assert(!s2.pages@[t].taken());
            }
        }
        if s0.run_free(j, n) {
            assert forall|t: int| j <= t < j + n implies !(#[trigger] s2.pages@[t]).taken() by {
                assert(!s0.pages@[t].taken());
            }
        }
    }
    if i2 < i {
        assert(s2.run_free(i2, n));
        assert(s0.run_free(i2, n));
        assert(!s0.run_free(i2, n));
    }
    if i < i2 {
        assert(s0.run_free(i, n));
        assert(s2.run_free(i, n));
        assert(!s2.run_free(i, n));
    }
    assert(i2 == i);
}

} // verus!
