use limebase::buffer_pool_manager::{
    BufferPoolManager, BufferPoolManagerImpl, write_flush_refetch_round_trip,
};
use limebase::disk::{DiskError, MemDiskManager};
use limebase::page::{DEFAULT_PAGE_SIZE, PageId};

fn pool(pool_size: usize, page_size: usize) -> BufferPoolManagerImpl<MemDiskManager> {
    BufferPoolManagerImpl::new(pool_size, MemDiskManager::new(page_size))
}

#[test]
fn test_binary_data() {
    const BUFFER_POOL_SIZE: usize = 10;
    let mut buffer_pool_manager = pool(BUFFER_POOL_SIZE, DEFAULT_PAGE_SIZE);

    let ret = buffer_pool_manager.new_page().unwrap();

    // The buffer pool is empty. We should be able to create a new page.
    assert!(
        ret.is_some(),
        "The buffer pool is empty. We should be able to create a new page."
    );
    let (page_id, frame0) = ret.unwrap();
    assert_eq!(
        page_id,
        PageId::new(0),
        "The buffer pool is empty. We should be able to create a new page."
    );

    let mut random_binary_data = (0..DEFAULT_PAGE_SIZE)
        .map(|_| rand::random::<u8>())
        .collect::<Vec<_>>();

    // Insert terminal characters both in the midddle and at end
    random_binary_data[BUFFER_POOL_SIZE / 2] = 0;
    random_binary_data[BUFFER_POOL_SIZE - 1] = 0;

    // Once we have a page, We should be able to read and write content.
    {
        let page_guard = buffer_pool_manager.page_mut(frame0);
        page_guard.data_mut().copy_from_slice(&random_binary_data);
    }
    {
        let pages = buffer_pool_manager.get_pages();
        assert_eq!(
            pages[frame0.as_usize()].data().as_slice(),
            random_binary_data.as_slice(),
            "Once we have a page, We should be able to read and write content."
        );
    }

    // We should be able to create new pages until we fill up the buffer pool.
    for _ in 1..BUFFER_POOL_SIZE {
        assert!(
            buffer_pool_manager.new_page().unwrap().is_some(),
            "We should be able to create new pages until we fill up the buffer pool."
        );
    }

    // After unpinning pages {0, 1, 2, 3, 4}, we should be able to create 5 new pages.
    for page_id in (0..5).map(PageId::new) {
        assert!(
            buffer_pool_manager.unpin_page(page_id, true),
            "{:?} should be able to unpin",
            page_id
        );

        buffer_pool_manager.flush_page(page_id).unwrap();
    }
    for _ in 0..5 {
        let ret = buffer_pool_manager.new_page().unwrap();
        assert!(
            ret.is_some(),
            "After unpinning pages {{0, 1, 2, 3, 4}}, we should be able to create 5 new pages."
        );
        let (page_id, _frame) = ret.unwrap();
        // Unpin the page here to allow future fetching
        buffer_pool_manager.unpin_page(page_id, true);
    }

    let page_id0 = PageId::new(0);
    // We should be able to fetch the data we wrote a while ago.
    let page0 = buffer_pool_manager.fetch_page(page_id0).unwrap();
    assert!(
        page0.is_some(),
        "We should be able to fetch the data we wrote a while ago."
    );
    let frame = page0.unwrap();
    {
        let pages = buffer_pool_manager.get_pages();
        assert_eq!(
            pages[frame.as_usize()].data().as_slice(),
            random_binary_data.as_slice(),
            "We should be able to fetch the data we wrote a while ago."
        );
        assert!(
            pages[frame.as_usize()].is_pinned(),
            "The page should be pinned while we are reading it."
        );
    }
    assert!(
        buffer_pool_manager.unpin_page(page_id0, true),
        "We should be able to unpin page0"
    );
}

#[test]
fn capacity_backpressure_and_eviction() {
    // Pool capacity 10, page size 8192.
    let mut bpm = pool(10, 8192);

    // Create 10 pages, identifiers 0..9, all left pinned.
    let mut frames = Vec::new();
    for i in 0..10 {
        let (page_id, frame) = bpm.new_page().unwrap().expect("a frame must be free");
        assert_eq!(page_id, PageId::new(i));
        frames.push(frame);
    }
    assert_eq!(bpm.get_pool_size(), 10);

    // Remember page 0's bytes; write a recognizable pattern first.
    let pattern: Vec<u8> = (0..8192).map(|j| (j % 256) as u8).collect();
    bpm.page_mut(frames[0]).data_mut().copy_from_slice(&pattern);

    // An 11th new_page returns the "no capacity" outcome: nothing is both
    // unpinned and evictable.
    assert_eq!(bpm.new_page().unwrap(), None);

    // Unpin identifiers 0..4 as dirty and flush each explicitly.
    for i in 0..5 {
        assert!(bpm.unpin_page(PageId::new(i), true));
        assert!(bpm.flush_page(PageId::new(i)).unwrap());
    }

    // Five new_page calls now succeed by evicting frames 0..4 in order; the
    // new pages stay pinned until the whole batch is done.
    let mut batch = Vec::new();
    for i in 0..5 {
        let (page_id, frame) = bpm.new_page().unwrap().expect("an unpinned page is evictable");
        assert_eq!(page_id, PageId::new(10 + i));
        assert_eq!(frame.as_usize(), i);
        batch.push(page_id);
    }
    for page_id in batch {
        assert!(bpm.unpin_page(page_id, false));
    }

    // Re-fetching identifier 0 returns the bytes written before the flush.
    let frame = bpm.fetch_page(PageId::new(0)).unwrap().expect("page 0 was flushed");
    assert_eq!(bpm.get_pages()[frame.as_usize()].data().as_slice(), pattern.as_slice());
}

#[test]
fn flush_all_with_zero_dirty_pages_succeeds() {
    let mut bpm = pool(4, 256);
    // Nothing resident at all.
    bpm.flush_all_pages().unwrap();

    // Two clean resident pages.
    bpm.new_page().unwrap().unwrap();
    bpm.new_page().unwrap().unwrap();
    assert!(bpm.unpin_page(PageId::new(0), false));
    bpm.flush_all_pages().unwrap();

    // The unconditional write made even never-flushed pages readable.
    assert!(bpm.delete_page(PageId::new(0)));
    let frame = bpm.fetch_page(PageId::new(0)).unwrap().unwrap();
    assert_eq!(bpm.get_pages()[frame.as_usize()].data().as_slice(), vec![0u8; 256].as_slice());
}

#[test]
fn unpin_boundaries() {
    let mut bpm = pool(2, 64);
    let (page_id, frame) = bpm.new_page().unwrap().unwrap();

    // A page not in the pool cannot be unpinned.
    assert!(!bpm.unpin_page(PageId::new(77), false));

    // First unpin drops the count from 1 to 0.
    assert!(bpm.unpin_page(page_id, false));
    assert!(!bpm.get_pages()[frame.as_usize()].is_pinned());
    assert!(!bpm.get_pages()[frame.as_usize()].is_dirty());

    // A second unpin returns false and leaves state unchanged: the count
    // stays at zero and the dirty flag is not set even when requested.
    assert!(!bpm.unpin_page(page_id, true));
    assert!(!bpm.get_pages()[frame.as_usize()].is_pinned());
    assert!(!bpm.get_pages()[frame.as_usize()].is_dirty());
}

#[test]
fn delete_boundaries() {
    let mut bpm = pool(2, 64);
    let (page_id, _frame) = bpm.new_page().unwrap().unwrap();

    // Deleting a pinned page is refused and the page stays resident.
    assert!(!bpm.delete_page(page_id));
    assert!(bpm.fetch_page(page_id).unwrap().is_some());

    // Deleting an identifier never seen is a successful no-op.
    assert!(bpm.delete_page(PageId::new(1)));

    // Once unpinned, deletion succeeds and frees the frame for a new page.
    assert!(bpm.unpin_page(page_id, false));
    assert!(bpm.delete_page(page_id));
    let (second_id, _) = bpm.new_page().unwrap().unwrap();
    assert_eq!(second_id, PageId::new(1));
}

#[test]
fn flush_page_of_non_resident_page_reports_false() {
    let mut bpm = pool(2, 64);
    assert_eq!(bpm.flush_page(PageId::new(0)).unwrap(), false);
}

#[test]
fn fetch_of_dropped_unflushed_page_propagates_store_error() {
    let mut bpm = pool(2, 64);
    let (page_id, _frame) = bpm.new_page().unwrap().unwrap();
    assert!(bpm.unpin_page(page_id, true));
    // Deleting drops the dirty bytes without writing them; the store never
    // saw this page, so fetching it again fails with the store's error.
    assert!(bpm.delete_page(page_id));
    assert_eq!(bpm.fetch_page(page_id), Err(DiskError::UnwrittenRegion));
}

#[test]
fn round_trip_law_on_concrete_bytes() {
    let mut bpm = pool(3, 32);
    let (page_id, _frame) = bpm.new_page().unwrap().unwrap();
    let bytes: Vec<u8> = (0..32).map(|j| (255 - j) as u8).collect();
    let fetched = write_flush_refetch_round_trip(&mut bpm, page_id, &bytes).unwrap();
    assert_eq!(fetched, bytes);
}

#[test]
fn reopened_store_with_seeded_counter() {
    // First life: write one page and flush everything out.
    let mut bpm = pool(2, 16);
    let (page_id, frame) = bpm.new_page().unwrap().unwrap();
    let bytes = vec![0x5au8; 16];
    bpm.page_mut(frame).data_mut().copy_from_slice(&bytes);
    assert!(bpm.unpin_page(page_id, true));
    bpm.flush_all_pages().unwrap();

    // Second life over the same store: seed the counter past the stored
    // pages, fetch the old page directly, and allocate a fresh identifier.
    let store = bpm.disk_manager;
    let mut bpm = BufferPoolManagerImpl::new_with_next_page_id(2, store, 1);
    let frame = bpm.fetch_page(page_id).unwrap().unwrap();
    assert_eq!(bpm.get_pages()[frame.as_usize()].data().as_slice(), bytes.as_slice());
    let (fresh_id, _) = bpm.new_page().unwrap().unwrap();
    assert_eq!(fresh_id, PageId::new(1));
}

#[test]
fn eviction_flushes_dirty_victim() {
    let mut bpm = pool(1, 16);
    let (page_id, frame) = bpm.new_page().unwrap().unwrap();
    let bytes = vec![7u8; 16];
    bpm.page_mut(frame).data_mut().copy_from_slice(&bytes);
    // Unpin as dirty but never flush explicitly.
    assert!(bpm.unpin_page(page_id, true));

    // The next new_page evicts the dirty page, flushing it to the store.
    let (second_id, _) = bpm.new_page().unwrap().unwrap();
    assert_eq!(second_id, PageId::new(1));
    assert!(bpm.unpin_page(second_id, false));

    // Re-fetching the first page finds the flushed bytes.
    let frame = bpm.fetch_page(page_id).unwrap().unwrap();
    assert_eq!(bpm.get_pages()[frame.as_usize()].data().as_slice(), bytes.as_slice());
}
