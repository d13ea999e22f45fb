use rost::mem::{init, kernel_regions, MemoryLayout, Region};
use rost::page::{init as page_init, FrameAllocator};
use rost::pagetable::PageTable;
use rost::pte::{Attribute, Entry, PPN, VPN};

const PAGE: u64 = 4096;
const RW: u64 = 0x6;
const RX: u64 = 0xa;

fn pool() -> FrameAllocator {
    page_init(0x8800_0000, 0x10_0000)
}

#[test]
fn map_translate_roundtrip() {
    let mut fa = pool();
    let mut pt = PageTable::new();
    pt.map_addr(&mut fa, 0x4000_0000, 0x8000_1000, RW);
    assert_eq!(pt.phy_addr_of(0x4000_0000), Some(0x8000_1000));
}

#[test]
fn kernel_map_roundtrip() {
    let mut fa = pool();
    let mut pt = PageTable::new();
    pt.kernel_map(&mut fa, 0x1234_5000, 0x8765_4000, RX);
    assert_eq!(pt.phy_addr_of(0x1234_5000), Some(0x8765_4000));
    let leaf = pt.leaf_of(0x1234_5000).expect("mapped");
    assert!(leaf.valid());
    assert!(leaf.readable());
    assert!(!leaf.writable());
    assert!(leaf.executable());
}

#[test]
fn unmapped_lookup_misses() {
    let mut fa = pool();
    let mut pt = PageTable::new();
    assert_eq!(pt.phy_addr_of(0), None);
    assert_eq!(pt.phy_addr_of(0x4000_0000), None);
    pt.map_addr(&mut fa, 0x4000_0000, 0x8000_1000, RW);
    // neighbours of a mapped page stay unmapped
    assert_eq!(pt.phy_addr_of(0x4000_1000), None);
    assert_eq!(pt.phy_addr_of(0x3fff_f000), None);
    assert_eq!(pt.phy_addr_of(0), None);
}

#[test]
fn remap_takes_last_writer() {
    let mut fa = pool();
    let mut pt = PageTable::new();
    pt.map_addr(&mut fa, 0x4000_0000, 0x8000_1000, RW);
    pt.map_addr(&mut fa, 0x4000_0000, 0x8000_7000, RX);
    assert_eq!(pt.phy_addr_of(0x4000_0000), Some(0x8000_7000));
    let leaf = pt.leaf_of(0x4000_0000).unwrap();
    assert!(leaf.executable());
    assert!(!leaf.writable());
}

#[test]
fn device_window_mapping() {
    // mapping a device window [0x0c00_0000, 0x0c00_1000) with Read/Write
    let mut fa = pool();
    let mut pt = PageTable::new();
    let window = Region::new(0x0c00_0000, 0x0c00_1000, Attribute::ReadWrite, "device");
    pt.id_map_range(&mut fa, &window);
    assert_eq!(pt.phy_addr_of(0x0c00_0000), Some(0x0c00_0000));
    let leaf = pt.leaf_of(0x0c00_0000).expect("mapped");
    assert!(!leaf.executable());
    assert!(leaf.readable());
    assert!(leaf.writable());
}

#[test]
fn identity_region_all_pages() {
    let mut fa = pool();
    let mut pt = PageTable::new();
    // an unaligned region: rounded down and up to frame boundaries
    let region = Region::new(0x8020_0100, 0x8020_4f00, Attribute::ReadWrite, "ram");
    pt.id_map_range(&mut fa, &region);
    let mut a = 0x8020_0000u64;
    while a < 0x8020_5000 {
        assert_eq!(pt.phy_addr_of(a), Some(a));
        a += PAGE;
    }
    assert_eq!(pt.phy_addr_of(0x8020_5000), None);
    assert_eq!(pt.phy_addr_of(0x801f_f000), None);
}

#[test]
fn map_range_distinct_base() {
    let mut fa = pool();
    let mut pt = PageTable::new();
    // the end is rounded up: the trailing partial page is mapped too
    pt.map_range(&mut fa, 0x8000_0000, 0x8000_3100, 0x10_0000, RW);
    assert_eq!(pt.phy_addr_of(0x10_0000), Some(0x8000_0000));
    assert_eq!(pt.phy_addr_of(0x10_1000), Some(0x8000_1000));
    assert_eq!(pt.phy_addr_of(0x10_2000), Some(0x8000_2000));
    assert_eq!(pt.phy_addr_of(0x10_3000), Some(0x8000_3000));
    assert_eq!(pt.phy_addr_of(0x10_4000), None);
}

#[test]
fn map_range_partial_page() {
    let mut fa = pool();
    let mut pt = PageTable::new();
    // a window smaller than one frame still maps its one page
    pt.map_range(&mut fa, 0x8000_0000, 0x8000_0100, 0x10_0000, RW);
    assert_eq!(pt.phy_addr_of(0x10_0000), Some(0x8000_0000));
    assert_eq!(pt.phy_addr_of(0x10_1000), None);
}

#[test]
fn map_ranges_last_writer_wins() {
    let mut fa = pool();
    let mut pt = PageTable::new();
    let ranges = vec![
        (0x8000_0000u64, 0x8000_2000u64, 0x20_0000u64, RW),
        (0x8000_5000u64, 0x8000_6000u64, 0x20_1000u64, RX),
    ];
    pt.map_ranges(&mut fa, &ranges);
    assert_eq!(pt.phy_addr_of(0x20_0000), Some(0x8000_0000));
    // the second range overwrote the first one's second page
    assert_eq!(pt.phy_addr_of(0x20_1000), Some(0x8000_5000));
}

#[test]
fn dump_lists_every_mapping() {
    let mut fa = pool();
    let mut pt = PageTable::new();
    pt.map_addr(&mut fa, 0x4000_0000, 0x8000_1000, RW);
    pt.map_addr(&mut fa, 0x0000_1000, 0x8000_2000, RX);
    let rows = pt.dump();
    assert_eq!(rows.len(), 2);
    // walk order: lowest virtual address first
    assert_eq!(rows[0], (0x0000_1000, 0x8000_2000, RX | 1));
    assert_eq!(rows[1], (0x4000_0000, 0x8000_1000, RW | 1));
    assert_eq!(PageTable::new().dump().len(), 0);
}

#[test]
fn unmap_frees_branch_frames() {
    let mut fa = pool();
    let mut pt = PageTable::new();
    let free_before: usize = fa.pages.iter().filter(|p| p.is_free()).count();
    pt.map_addr(&mut fa, 0x4000_0000, 0x8000_1000, RW);
    pt.map_addr(&mut fa, 0x2000_0000, 0x8000_2000, RW);
    // two distinct walks: four branch tables were allocated
    let free_mapped: usize = fa.pages.iter().filter(|p| p.is_free()).count();
    assert_eq!(free_before - free_mapped, 4);
    pt.unmap(&mut fa);
    assert_eq!(pt.phy_addr_of(0x4000_0000), None);
    assert_eq!(pt.phy_addr_of(0x2000_0000), None);
    let free_after: usize = fa.pages.iter().filter(|p| p.is_free()).count();
    assert_eq!(free_after, free_before);
}

#[test]
fn shared_branch_tables() {
    let mut fa = pool();
    let mut pt = PageTable::new();
    let free_before: usize = fa.pages.iter().filter(|p| p.is_free()).count();
    // same upper indices: the second mapping reuses both branch tables
    pt.map_addr(&mut fa, 0x4000_0000, 0x8000_1000, RW);
    pt.map_addr(&mut fa, 0x4000_1000, 0x8000_2000, RW);
    let free_after: usize = fa.pages.iter().filter(|p| p.is_free()).count();
    assert_eq!(free_before - free_after, 2);
}

#[test]
fn entry_encode_decode() {
    let e = Entry::new(0x8000_1000, RW | 1);
    assert!(e.valid());
    assert!(e.readable());
    assert!(e.writable());
    assert!(!e.executable());
    assert!(!e.user());
    assert!(!e.global());
    assert!(!e.accessed());
    assert!(!e.dirty());
    assert!(e.is_leaf());
    assert!(!e.is_branch());
    assert_eq!(e.physical_addr().0, 0x8000_1000);
    assert_eq!(e.flags(), RW | 1);
    assert_eq!(e.get_entry(), (0x8000_1000u64 >> 2) | RW | 1);
    let branch = Entry::new(0x8000_2000, 1);
    assert!(branch.valid());
    assert!(branch.is_branch());
    assert_eq!(branch.physical_addr().0, 0x8000_2000);
}

#[test]
fn vpn_ppn_indices() {
    let v = VPN((5u64 << 30) | (7u64 << 21) | (9u64 << 12));
    assert_eq!(v.vpn2(), 5);
    assert_eq!(v.vpn1(), 7);
    assert_eq!(v.vpn0(), 9);
    assert_eq!(v.index(2), 5);
    assert_eq!(v.index(1), 7);
    assert_eq!(v.index(0), 9);
    let p = PPN((3u64 << 30) | (2u64 << 21) | (1u64 << 12));
    assert_eq!(p.ppn2(), 3);
    assert_eq!(p.ppn1(), 2);
    assert_eq!(p.ppn0(), 1);
    assert_eq!(p.index(2), 3);
    assert_eq!(p.index(1), 2);
    assert_eq!(p.index(0), 1);
}

#[test]
fn attribute_values() {
    assert_eq!(Attribute::Valid.value(), 1);
    assert_eq!(Attribute::Read.value(), 2);
    assert_eq!(Attribute::Write.value(), 4);
    assert_eq!(Attribute::Execute.value(), 8);
    assert_eq!(Attribute::User.value(), 0x10);
    assert_eq!(Attribute::Global.value(), 0x20);
    assert_eq!(Attribute::Accessed.value(), 0x40);
    assert_eq!(Attribute::Dirty.value(), 0x80);
    assert_eq!(Attribute::ReadWrite.value(), RW);
    assert_eq!(Attribute::ReadExecute.value(), RX);
    assert_eq!(Attribute::UserRead.value(), 0x12);
    assert_eq!(Attribute::UserReadWrite.value(), 0x16);
    assert_eq!(Attribute::UserReadExecute.value(), 0x1a);
}

#[test]
fn region_accessors() {
    let r = Region::new(0x8000_0000, 0x8000_4000, Attribute::ReadExecute, "Text");
    assert_eq!(r.start_addr(), 0x8000_0000);
    assert_eq!(r.end_addr(), 0x8000_4000);
    assert_eq!(r.len(), 0x4000);
    assert_eq!(r.flags().value(), RX);
    assert_eq!(r.name(), "Text");
}

#[test]
fn kernel_init_identity_maps() {
    let mut fa = page_init(0x8800_0000, 0x40_0000);
    let mut pt = PageTable::new();
    let layout = MemoryLayout {
        text_start: 0x8000_0000,
        rodata_start: 0x8000_2000,
        data_start: 0x8000_2000,
        data_end: 0x8000_3000,
        bss_start: 0x8000_3000,
        bss_end: 0x8000_4000,
        stack_start: 0x8001_0000,
        stack_end: 0x8000_c000,
        heap_start: 0x8800_0000,
        heap_end: 0x8802_0000,
        uart_base: 0x1000_0000,
    };
    let regions = kernel_regions(&layout);
    assert_eq!(regions.len(), 8);
    init(&layout, &mut pt, &mut fa);
    // code, data, stack, heap, and each device window translate to themselves
    assert_eq!(pt.phy_addr_of(0x8000_0000), Some(0x8000_0000));
    assert_eq!(pt.phy_addr_of(0x8000_2000), Some(0x8000_2000));
    assert_eq!(pt.phy_addr_of(0x8000_3000), Some(0x8000_3000));
    assert_eq!(pt.phy_addr_of(0x8000_c000), Some(0x8000_c000));
    assert_eq!(pt.phy_addr_of(0x8800_0000), Some(0x8800_0000));
    assert_eq!(pt.phy_addr_of(0x8801_f000), Some(0x8801_f000));
    assert_eq!(pt.phy_addr_of(0x1000_0000), Some(0x1000_0000));
    assert_eq!(pt.phy_addr_of(0x0c00_0000), Some(0x0c00_0000));
    assert_eq!(pt.phy_addr_of(0x0c00_7000), Some(0x0c00_7000));
    assert_eq!(pt.phy_addr_of(0x0200_0000), Some(0x0200_0000));
    assert_eq!(pt.phy_addr_of(0x0200_f000), Some(0x0200_f000));
    // and nothing else does
    assert_eq!(pt.phy_addr_of(0x0c00_8000), None);
    assert_eq!(pt.phy_addr_of(0x8802_0000), None);
    assert_eq!(pt.phy_addr_of(0x9000_0000), None);
    // the writable-data region is writable and not executable; code is
    // executable and not writable
    let data_leaf = pt.leaf_of(0x8000_2000).expect("data mapped");
    assert!(data_leaf.writable());
    assert!(!data_leaf.executable());
    let text_leaf = pt.leaf_of(0x8000_0000).expect("text mapped");
    assert!(!text_leaf.writable());
    assert!(text_leaf.executable());
    // the heap is plain read/write memory
    let heap_leaf = pt.leaf_of(0x8800_0000).expect("heap mapped");
    assert!(heap_leaf.readable());
    assert!(heap_leaf.writable());
    assert!(!heap_leaf.executable());
}
