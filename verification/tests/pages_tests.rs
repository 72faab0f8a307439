use lib::pages::{PageAllocator, PAGE_SIZE};

#[test]
fn init_frees_every_whole_page_after_the_rounded_start() {
    let mut a = PageAllocator::init(4097, 4096 * 5);
    assert_eq!(a.free_count(), 3);
    assert_eq!(a.alloc_page(), Some(16384));
    assert_eq!(a.alloc_page(), Some(12288));
    assert_eq!(a.alloc_page(), Some(8192));
    assert_eq!(a.alloc_page(), None);
    assert_eq!(a.free_count(), 0);
}

#[test]
fn an_aligned_heap_keeps_its_first_page() {
    let a = PageAllocator::init(0x8000_0000, 0x8000_0000 + 10 * PAGE_SIZE + 100);
    assert_eq!(a.free_count(), 10);
}

#[test]
fn an_empty_or_inverted_heap_has_no_pages() {
    let mut a = PageAllocator::init(8192, 8192 + 4095);
    assert_eq!(a.free_count(), 0);
    assert_eq!(a.alloc_page(), None);
    let b = PageAllocator::init(20000, 100);
    assert_eq!(b.free_count(), 0);
}

#[test]
fn a_freed_page_is_handed_out_next() {
    let mut a = PageAllocator::init(0, 2 * PAGE_SIZE);
    assert_eq!(a.free_count(), 2);
    let p = a.alloc_page().unwrap();
    assert_eq!(p, 4096);
    a.free_page(0x9000);
    assert_eq!(a.free_count(), 2);
    assert_eq!(a.alloc_page(), Some(0x9000));
    assert_eq!(a.alloc_page(), Some(0));
}

#[test]
fn no_page_is_handed_out_twice() {
    let mut a = PageAllocator::init(0x1000, 0x1000 + 64 * PAGE_SIZE);
    let mut seen = Vec::new();
    while let Some(p) = a.alloc_page() {
        assert_eq!(p % PAGE_SIZE, 0);
        assert!(!seen.contains(&p));
        seen.push(p);
    }
    assert_eq!(seen.len(), 64);
}
