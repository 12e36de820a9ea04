use limebase::disk::{DiskError, DiskManager, MemDiskManager};
use limebase::page::{DEFAULT_PAGE_SIZE, PageId};

#[test]
fn mem_disk_page_size() {
    let disk_manager = MemDiskManager::new(DEFAULT_PAGE_SIZE);
    assert_eq!(disk_manager.page_size(), DEFAULT_PAGE_SIZE);
}

#[test]
fn mem_disk_read_write_round_trip() {
    let mut disk_manager = MemDiskManager::new(DEFAULT_PAGE_SIZE);
    const N_PAGES: usize = 10;
    let mut data: Vec<Vec<u8>> = Vec::new();
    for i in 0..N_PAGES {
        let page: Vec<u8> = (0..DEFAULT_PAGE_SIZE)
            .map(|j| ((i * 31 + j * 17) % 251) as u8)
            .collect();
        disk_manager.write_page(PageId::new(i), &page).unwrap();
        data.push(page);
    }

    for i in 0..N_PAGES {
        let mut buf = vec![0u8; DEFAULT_PAGE_SIZE];
        disk_manager.read_page(PageId::new(i), &mut buf).unwrap();
        assert_eq!(buf, data[i]);
    }

    // Overwrite one page and check both it and its neighbours.
    let replacement = vec![0xabu8; DEFAULT_PAGE_SIZE];
    disk_manager.write_page(PageId::new(3), &replacement).unwrap();
    let mut buf = vec![0u8; DEFAULT_PAGE_SIZE];
    disk_manager.read_page(PageId::new(3), &mut buf).unwrap();
    assert_eq!(buf, replacement);
    disk_manager.read_page(PageId::new(2), &mut buf).unwrap();
    assert_eq!(buf, data[2]);
    disk_manager.read_page(PageId::new(4), &mut buf).unwrap();
    assert_eq!(buf, data[4]);
}

#[test]
fn mem_disk_read_of_unwritten_region_fails() {
    let disk_manager = MemDiskManager::new(128);
    let mut buf = vec![0u8; 128];
    assert_eq!(
        disk_manager.read_page(PageId::new(0), &mut buf),
        Err(DiskError::UnwrittenRegion)
    );
}

#[test]
fn mem_disk_write_past_end_zero_fills_the_gap() {
    let mut disk_manager = MemDiskManager::new(8);
    let payload = vec![5u8; 8];
    disk_manager.write_page(PageId::new(2), &payload).unwrap();
    let mut buf = vec![1u8; 8];
    disk_manager.read_page(PageId::new(0), &mut buf).unwrap();
    assert_eq!(buf, vec![0u8; 8]);
    disk_manager.read_page(PageId::new(1), &mut buf).unwrap();
    assert_eq!(buf, vec![0u8; 8]);
    disk_manager.read_page(PageId::new(2), &mut buf).unwrap();
    assert_eq!(buf, payload);
    assert!(disk_manager.read_page(PageId::new(3), &mut buf).is_err());
}
