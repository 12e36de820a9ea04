use limebase::page::{DEFAULT_PAGE_SIZE, Page, PageId};

#[test]
fn test_page_id() {
    let page_id = PageId::new(42);
    assert_eq!(page_id.as_usize(), 42);
    let page_size: usize = 4096;
    assert_eq!(page_id.offset(page_size), 42 * page_size);
}

#[test]
fn page_id_validity() {
    assert!(PageId::new(0).is_valid());
    assert!(PageId::new(7).is_valid());
    assert!(!PageId::new_invalid().is_valid());
    assert_eq!(PageId::new_invalid(), PageId::new(usize::MAX));
}

#[test]
fn fresh_page_is_zeroed_and_unallocated() {
    let page = Page::new_raw(64);
    assert_eq!(page.page_size(), 64);
    assert!(!page.is_allocated());
    assert!(!page.is_pinned());
    assert!(!page.is_dirty());
    assert!(page.page_id().is_none());
    assert!(page.data().iter().all(|b| *b == 0));
    assert_eq!(Page::new(64).page_size(), 64);
    assert_eq!(Page::new_raw(DEFAULT_PAGE_SIZE).page_size(), 8192);
}

#[test]
fn allocate_sets_identity_and_one_pin() {
    let mut page = Page::new_raw(16);
    page.allocate_page(PageId::new(3));
    assert!(page.is_allocated());
    assert_eq!(page.page_id(), Some(PageId::new(3)));
    assert!(page.is_pinned());
    page.unpin();
    assert!(!page.is_pinned());
}

#[test]
fn unpin_saturates_at_zero() {
    let mut page = Page::new_raw(16);
    assert!(!page.is_pinned());
    page.unpin();
    assert!(!page.is_pinned());
    page.pin();
    page.pin();
    page.unpin();
    assert!(page.is_pinned());
    page.unpin();
    assert!(!page.is_pinned());
    page.unpin();
    assert!(!page.is_pinned());
}

#[test]
fn dirty_flag_set_and_clear() {
    let mut page = Page::new_raw(16);
    assert!(!page.is_dirty());
    page.set_dirty();
    assert!(page.is_dirty());
    page.clear_dirty();
    assert!(!page.is_dirty());
}

#[test]
fn deallocate_clears_identity_and_dirty_but_not_pins() {
    let mut page = Page::new_raw(16);
    page.allocate_page(PageId::new(9));
    page.set_dirty();
    page.pin();
    page.deallocate_page();
    assert!(!page.is_allocated());
    assert!(page.page_id().is_none());
    assert!(!page.is_dirty());
    assert!(page.is_pinned());
}

#[test]
fn data_mut_and_write_data_change_the_buffer() {
    let mut page = Page::new_raw(4);
    page.data_mut().copy_from_slice(&[1, 2, 3, 4]);
    assert_eq!(page.data().as_slice(), &[1, 2, 3, 4]);
    let src: Vec<u8> = vec![9, 8, 7, 6];
    page.write_data(&src);
    assert_eq!(page.data().as_slice(), &[9, 8, 7, 6]);
    assert_eq!(page.page_size(), 4);
}
