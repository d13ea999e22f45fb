use rost::page::{align_page_down, align_val, align_val_down, init, FrameAllocator, Page, PageFlag};

const PAGE: u64 = 4096;

fn pool(frames: u64) -> FrameAllocator {
    // a heap whose metadata table leaves exactly `frames` usable frames
    init(0x8000_0000, frames * PAGE + PAGE)
}

#[test]
fn first_fit_scenario() {
    // pool of 16 frames, frame size 4096
    let mut fa = pool(16);
    assert!(fa.pages.len() >= 16);
    let b0 = fa.allocate(3).expect("first allocation fits");
    assert_eq!(b0, fa.alloc_start);
    // contiguous, no gap
    let b1 = fa.allocate(2).expect("second allocation fits");
    assert_eq!(b1, b0 + 3 * PAGE);
    // earliest reusable hole
    fa.dealloc(b0);
    let b2 = fa.allocate(1).expect("reuse fits");
    assert_eq!(b2, b0);
}

#[test]
fn allocations_are_disjoint() {
    let mut fa = pool(16);
    let b0 = fa.allocate(4).unwrap();
    let b1 = fa.allocate(4).unwrap();
    let b2 = fa.allocate(4).unwrap();
    let ranges = [(b0, b0 + 4 * PAGE), (b1, b1 + 4 * PAGE), (b2, b2 + 4 * PAGE)];
    for i in 0..3 {
        for j in 0..3 {
            if i != j {
                let (s1, e1) = ranges[i];
                let (s2, e2) = ranges[j];
                assert!(e1 <= s2 || e2 <= s1);
            }
        }
    }
}

#[test]
fn exhaustion_returns_none() {
    let mut fa = pool(8);
    let usable = fa.pages.len();
    // more frames than the pool holds
    assert_eq!(fa.allocate(usable + 1), None);
    let b = fa.allocate(usable).expect("whole pool fits");
    assert_eq!(b, fa.alloc_start);
    // nothing is left
    assert_eq!(fa.allocate(1), None);
}

#[test]
fn exhaustion_no_partial_run() {
    let mut fa = pool(6);
    let usable = fa.pages.len() as u64;
    let _a = fa.allocate(2).unwrap();
    let b = fa.allocate(2).unwrap();
    fa.dealloc(b);
    // two separate free chunks of 2 and usable-4 frames exist, but no
    // contiguous run of usable-1
    assert_eq!(fa.allocate(usable as usize - 1), None);
}

#[test]
fn dealloc_frees_whole_run() {
    let mut fa = pool(10);
    let b0 = fa.allocate(5).unwrap();
    let _b1 = fa.allocate(3).unwrap();
    fa.dealloc(b0);
    // the whole 5-frame run is reusable
    let b2 = fa.allocate(5).unwrap();
    assert_eq!(b2, b0);
}

#[test]
fn zalloc_allocates_like_alloc() {
    let mut fa = pool(8);
    let b0 = fa.zalloc(2).unwrap();
    assert_eq!(b0, fa.alloc_start);
    let b1 = fa.zalloc(1).unwrap();
    assert_eq!(b1, b0 + 2 * PAGE);
}

#[test]
fn page_flag_values() {
    assert_eq!(PageFlag::Empty.value(), 0);
    assert_eq!(PageFlag::Taken.value(), 1);
    assert_eq!(PageFlag::Last.value(), 2);
}

#[test]
fn page_flag_ops() {
    let mut p = Page::new();
    assert!(p.is_free());
    assert!(!p.is_last());
    p.set(PageFlag::Taken);
    assert!(!p.is_free());
    assert!(!p.is_last());
    p.set(PageFlag::Last);
    assert!(!p.is_free());
    assert!(p.is_last());
    p.clear_flag(PageFlag::Last);
    assert!(!p.is_free());
    assert!(!p.is_last());
    p.clear();
    assert!(p.is_free());
    assert!(!p.is_last());
}

#[test]
fn align_helpers() {
    assert_eq!(align_val(0, 12), 0);
    assert_eq!(align_val(1, 12), 4096);
    assert_eq!(align_val(4096, 12), 4096);
    assert_eq!(align_val(4097, 12), 8192);
    assert_eq!(align_val_down(4097, 12), 4096);
    assert_eq!(align_val_down(4095, 12), 0);
    assert_eq!(align_page_down(0x8000_0123), 0x8000_0000);
    assert_eq!(align_val(0x31, 4), 0x40);
}

#[test]
fn init_pool_layout() {
    // 1 MiB heap: 256 frames of metadata candidates, table in the first
    // frame, 255 usable frames past it
    let fa = init(0x8000_0000, 0x10_0000);
    assert_eq!(fa.alloc_start, 0x8000_1000);
    assert_eq!(fa.pages.len(), 255);
    for p in &fa.pages {
        assert!(p.is_free());
    }
}
