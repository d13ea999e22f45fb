//! Named memory regions and the boot-time construction of the kernel's
//! identity-mapped address space.

use vstd::prelude::*;
use crate::pte::Attribute;
use crate::page::FrameAllocator;
use crate::pagetable::{PageTable, pt_inv, in_id_window, id_pages, id_pages_total};
use crate::pte::entry_bits;
use crate::pagetable::{lemma_id_pages_nonneg, lemma_page_up_props, lemma_page_down_props};
use crate::page::PAGE_SIZE;
use crate::plic::PLIC_BASE;
use crate::clint::{CLINT_BASE, CLINT_SIZE};

verus! {

/// Compile-time layout of the kernel image and its device windows: the
/// symbol addresses the linker fixes, handed in by the boot code.
pub struct MemoryLayout {
    pub text_start: u64,
    pub rodata_start: u64,
    pub data_start: u64,
    pub data_end: u64,
    pub bss_start: u64,
    pub bss_end: u64,
    pub stack_start: u64,
    pub stack_end: u64,
    pub heap_start: u64,
    pub heap_end: u64,
    pub uart_base: u64,
}

impl MemoryLayout {
    /// The layout is ordered and lies inside the 39-bit identity-mappable
    /// space, with the stack window given top-down.
    pub open spec fn wf(self) -> bool {
        &&& self.data_start <= self.data_end <= 0x7f_ffff_f000
        &&& self.text_start <= self.rodata_start <= 0x7f_ffff_f000
        &&& self.bss_start <= self.bss_end <= 0x7f_ffff_f000
        &&& self.stack_end <= self.stack_start <= 0x7f_ffff_f000
        &&& self.heap_start <= self.heap_end <= 0x7f_ffff_f000
        &&& self.uart_base <= 0x7f_ffff_0000
    }
}

/// A named half-open address range `[start, end)` with an access-attribute
/// set. Regions describe every chunk of address space the kernel
/// identity-maps at boot; they are transient descriptors and own no memory.
pub struct Region {
    pub start: u64,
    pub end: u64,
    pub flags: Attribute,
    pub name: &'static str,
}

impl Region {
    pub open spec fn wf(self) -> bool {
        self.start <= self.end
    }

    pub fn new(start: u64, end: u64, flags: Attribute, name: &'static str) -> (r: Region)
        requires
            start <= end,
        ensures
            r.start == start,
            r.end == end,
            r.flags == flags,
            r.name == name,
            r.wf(),
    {
        Region { start, end, flags, name }
    }

    pub fn len(&self) -> (r: u64)
        requires
            self.wf(),
        ensures
            r == self.end - self.start,
    {
        self.end - self.start
    }

    pub fn start_addr(&self) -> (r: u64)
        ensures
            r == self.start,
    {
        self.start
    }

    pub fn end_addr(&self) -> (r: u64)
        ensures
            r == self.end,
    {
        self.end
    }

    pub fn flags(&self) -> (r: Attribute)
        ensures
            r == self.flags,
    {
        self.flags
    }

    pub fn name(&self) -> (r: &str)
        ensures
            r@ == self.name@,
    {
        self.name
    }
}

/// The region list `kernel_regions` builds, as a mathematical sequence.
pub open spec fn kernel_regions_spec(layout: MemoryLayout) -> Seq<Region> {
    seq![
        Region {
            start: layout.data_start,
            end: layout.data_end,
            flags: Attribute::ReadWrite,
            name: "DATA",
        },
        Region {
            start: layout.text_start,
            end: layout.rodata_start,
            flags: Attribute::ReadExecute,
            name: "Text",
        },
        Region {
            start: layout.bss_start,
            end: layout.bss_end,
            flags: Attribute::ReadWrite,
            name: "BSS",
        },
        Region {
            start: layout.stack_end,
            end: layout.stack_start,
            flags: Attribute::ReadWrite,
            name: "KERNEL_STACK",
        },
        Region {
            start: layout.heap_start,
            end: layout.heap_end,
            flags: Attribute::ReadWrite,
            name: "Heap",
        },
        Region {
            start: layout.uart_base,
            end: (layout.uart_base + PAGE_SIZE) as u64,
            flags: Attribute::ReadWrite,
            name: "Uart",
        },
        Region {
            start: PLIC_BASE,
            end: (PLIC_BASE + 0x8000) as u64,
            flags: Attribute::ReadWrite,
            name: "PLIC_BASE",
        },
        Region {
            start: CLINT_BASE,
            end: (CLINT_BASE + CLINT_SIZE) as u64,
            flags: Attribute::ReadWrite,
            name: "CLINT",
        },
    ]
}

/// The regions the kernel identity-maps at boot: its own image (code,
/// writable data, zero-initialised data), the kernel stack, the heap the
/// frame allocator manages, and each device window.
pub fn kernel_regions(layout: &MemoryLayout) -> (r: Vec<Region>)
    requires
        layout.wf(),
    ensures
        r@ =~= kernel_regions_spec(*layout),
        forall|i: int|
            0 <= i < r@.len() ==> (#[trigger] r@[i]).wf() && r@[i].end <= 0x7f_ffff_f000
                && r@[i].flags.value() <= 0x3ff && r@[i].flags.value() & 0xe != 0,
{
    proof {
        assert(0x6u64 & 0xe != 0 && 0xau64 & 0xe != 0) by (bit_vector);
    }
    let mut r: Vec<Region> = Vec::new();
    r.push(Region::new(layout.data_start, layout.data_end, Attribute::ReadWrite, "DATA"));
    r.push(Region::new(layout.text_start, layout.rodata_start, Attribute::ReadExecute, "Text"));
    r.push(Region::new(layout.bss_start, layout.bss_end, Attribute::ReadWrite, "BSS"));
    r.push(Region::new(layout.stack_end, layout.stack_start, Attribute::ReadWrite, "KERNEL_STACK"));
    r.push(Region::new(layout.heap_start, layout.heap_end, Attribute::ReadWrite, "Heap"));
    r.push(Region::new(
        layout.uart_base,
        layout.uart_base + PAGE_SIZE,
        Attribute::ReadWrite,
        "Uart",
    ));
    r.push(Region::new(PLIC_BASE, PLIC_BASE + 0x8000, Attribute::ReadWrite, "PLIC_BASE"));
    r.push(Region::new(CLINT_BASE, CLINT_BASE + CLINT_SIZE, Attribute::ReadWrite, "CLINT"));
    r
}

/// Build the kernel's identity-mapped address space: afterwards, every
/// frame-aligned address inside any region of the kernel image, the heap or
/// any device window translates to itself, under the attributes of the last
/// region that covers it.
pub fn init(layout: &MemoryLayout, pt: &mut PageTable, fa: &mut FrameAllocator)
    requires
        layout.wf(),
        old(pt).wf(),
        old(fa).wf(),
        pt_inv(*old(pt), *old(fa)),
        old(fa).free_count() >= 2 * id_pages_total(kernel_regions_spec(*layout)),
    ensures
        final(pt).wf(),
        final(fa).wf(),
        pt_inv(*final(pt), *final(fa)),
        forall|r: int, a: u64|
            0 <= r < kernel_regions_spec(*layout).len() && a % PAGE_SIZE == 0
                && #[trigger] in_id_window(kernel_regions_spec(*layout)[r], a)
                ==> final(pt).translate_spec(a) == Some(a),
        forall|r: int, a: u64|
            0 <= r < kernel_regions_spec(*layout).len() && a % PAGE_SIZE == 0
                && #[trigger] in_id_window(kernel_regions_spec(*layout)[r], a) && (forall|m: int|
                r < m < kernel_regions_spec(*layout).len() ==> !in_id_window(
                    #[trigger] kernel_regions_spec(*layout)[m],
                    a,
                )) ==> final(pt).leaf_spec(a) == Some(
                entry_bits(a, kernel_regions_spec(*layout)[r].flags.value() | 1),
            ),
{
    let regions = kernel_regions(layout);
    proof {
        assert forall|i: int| 0 <= i < regions@.len() implies id_pages(
            #[trigger] regions@[i],
        ) <= usize::MAX by {
            lemma_id_pages_nonneg(regions@[i]);
            lemma_page_up_props(regions@[i].end);
            lemma_page_down_props(regions@[i].start, regions@[i].start);
            assert(id_pages(regions@[i]) <= 0x800_0000) by (nonlinear_arith)
                requires
                    id_pages(regions@[i]) * 4096 <= 0x80_0000_0000,
            ;
        }
    }
    pt.id_map_ranges(fa, &regions);
}

} // verus!
