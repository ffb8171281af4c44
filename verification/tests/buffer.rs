use buffer_pool::buffer::{BufferPool, BufferPoolManager, Error, PageHandle};
use buffer_pool::disk::{DiskManager, PageId, PAGE_SIZE};

fn page_of(prefix: &[u8]) -> Vec<u8> {
    let mut page: Vec<u8> = Vec::with_capacity(PAGE_SIZE);
    page.extend_from_slice(prefix);
    page.resize(PAGE_SIZE, 0);
    page
}

fn fresh_manager(pool_size: usize) -> BufferPoolManager {
    BufferPoolManager::new(DiskManager::new(Vec::new()), BufferPool::new(pool_size))
}

#[test]
fn buffer_test() {
    let mut disk_manager = DiskManager::new(Vec::new());
    let hello: Vec<u8> = page_of(b"hello");
    let hello_page_id: PageId = disk_manager.allocate_page();
    disk_manager.write_page_data(hello_page_id, &hello).unwrap();
    let world: Vec<u8> = page_of(b"world");
    let world_page_id: PageId = disk_manager.allocate_page();
    disk_manager.write_page_data(world_page_id, &world).unwrap();
    let heap_file: Vec<u8> = disk_manager.into_heap_file();
    let mut disk_manager2 = DiskManager::new(heap_file);
    let mut buffer: Vec<u8> = vec![0; PAGE_SIZE];
    disk_manager2
        .read_page_data(hello_page_id, &mut buffer)
        .unwrap();
    assert_eq!(hello, buffer);
    disk_manager2
        .read_page_data(world_page_id, &mut buffer)
        .unwrap();
    assert_eq!(world, buffer);
}

// The walk-through of the clock-sweep protocol on a pool of two frames:
// create "A" and "B", re-touch page 0, then a third creation must evict
// page 1, writing "B" back to disk, and a later fetch of page 1 reads "B"
// back correctly.
#[test]
fn pool_of_two_evicts_the_untouched_page() {
    let mut manager = fresh_manager(2);

    let h0: PageHandle = manager.create_page().unwrap();
    assert_eq!(h0.page_id(), PageId(0));
    manager.write_page(&h0, &page_of(b"A"));
    manager.unpin(h0);

    let h1: PageHandle = manager.create_page().unwrap();
    assert_eq!(h1.page_id(), PageId(1));
    manager.write_page(&h1, &page_of(b"B"));
    manager.unpin(h1);

    let h0 = manager.fetch_page(PageId(0)).unwrap();
    assert_eq!(manager.read_page(&h0), page_of(b"A"));
    manager.unpin(h0);

    let h2: PageHandle = manager.create_page().unwrap();
    assert_eq!(h2.page_id(), PageId(2));
    manager.unpin(h2);

    let h1 = manager.fetch_page(PageId(1)).unwrap();
    assert_eq!(manager.read_page(&h1), page_of(b"B"));
    manager.unpin(h1);
}

// Cache hit coherence: two handles for the same page observe the same bytes.
#[test]
fn two_handles_to_one_page_share_their_bytes() {
    let mut manager = fresh_manager(2);
    let first: PageHandle = manager.create_page().unwrap();
    let pid: PageId = first.page_id();
    let second: PageHandle = manager.fetch_page(pid).unwrap();
    manager.write_page(&first, &page_of(b"written through the first handle"));
    assert_eq!(
        manager.read_page(&second),
        page_of(b"written through the first handle")
    );
    manager.unpin(first);
    manager.unpin(second);
}

// All-pinned exhaustion: with every frame pinned a further request fails
// with NoFreeBuffer; releasing one pin makes it succeed again.
#[test]
fn exhausted_pool_recovers_after_an_unpin() {
    let mut manager = fresh_manager(2);
    let h0: PageHandle = manager.create_page().unwrap();
    let h1: PageHandle = manager.create_page().unwrap();
    assert!(matches!(manager.create_page(), Err(Error::NoFreeBuffer)));
    // fetching a page that is already resident still works: it needs no victim
    let h0_again: PageHandle = manager.fetch_page(PageId(0)).unwrap();
    assert_eq!(h0_again.page_id(), PageId(0));
    manager.unpin(h0_again);
    // releasing the pins on page 0 frees its frame, and creation succeeds
    manager.unpin(h0);
    let h2: PageHandle = manager.create_page().unwrap();
    assert_eq!(h2.page_id(), PageId(2));
    manager.unpin(h2);
    manager.unpin(h1);
}

// Pin safety: a pinned page survives evictions of everything around it.
#[test]
fn pinned_page_survives_other_evictions() {
    let mut manager = fresh_manager(2);
    let pinned: PageHandle = manager.create_page().unwrap();
    manager.write_page(&pinned, &page_of(b"keep me"));
    for _ in 0..5 {
        let other: PageHandle = manager.create_page().unwrap();
        manager.unpin(other);
    }
    assert_eq!(manager.read_page(&pinned), page_of(b"keep me"));
    manager.unpin(pinned);
}

// Dirty write-back on eviction: content written but never flushed reaches
// the disk when the frame is evicted, observed by reading the storage layer
// directly.
#[test]
fn eviction_writes_dirty_page_back_to_disk() {
    let mut manager = fresh_manager(2);
    let h0: PageHandle = manager.create_page().unwrap();
    manager.write_page(&h0, &page_of(b"dirty bytes"));
    manager.unpin(h0);
    // touch two more distinct pages so frame of page 0 is recycled
    let h1: PageHandle = manager.create_page().unwrap();
    manager.unpin(h1);
    let h2: PageHandle = manager.create_page().unwrap();
    manager.unpin(h2);
    let (mut disk, _pool) = manager.into_parts();
    let mut buf: Vec<u8> = vec![0; PAGE_SIZE];
    disk.read_page_data(PageId(0), &mut buf).unwrap();
    assert_eq!(buf, page_of(b"dirty bytes"));
}

// Clean eviction avoids write: evicting an unmodified resident page leaves
// the heap file byte-for-byte as it was.
#[test]
fn clean_eviction_does_not_touch_the_disk() {
    let mut setup = fresh_manager(2);
    let h0: PageHandle = setup.create_page().unwrap();
    setup.write_page(&h0, &page_of(b"settled"));
    setup.unpin(h0);
    setup.flush().unwrap();
    let (disk, _pool) = setup.into_parts();
    let image: Vec<u8> = disk.into_heap_file();

    let mut manager = BufferPoolManager::new(DiskManager::new(image.clone()), BufferPool::new(1));
    let clean: PageHandle = manager.fetch_page(PageId(0)).unwrap();
    manager.unpin(clean);
    // evict the clean page by creating another one (itself not yet written)
    let h1: PageHandle = manager.create_page().unwrap();
    manager.unpin(h1);
    let (disk_after, _pool) = manager.into_parts();
    assert_eq!(disk_after.into_heap_file(), image);
}

// flush durability: after flush, closing and reopening the storage returns
// the written bytes for every page.
#[test]
fn flushed_pages_survive_reopening() {
    let mut manager = fresh_manager(3);
    let texts: [&[u8]; 3] = [b"first", b"second", b"third"];
    for text in texts.iter() {
        let h: PageHandle = manager.create_page().unwrap();
        manager.write_page(&h, &page_of(text));
        manager.unpin(h);
    }
    manager.flush().unwrap();
    let (disk, _pool) = manager.into_parts();
    let image: Vec<u8> = disk.into_heap_file();

    let mut reopened = BufferPoolManager::new(DiskManager::new(image), BufferPool::new(3));
    for (i, text) in texts.iter().enumerate() {
        let h: PageHandle = reopened.fetch_page(PageId(i as u64)).unwrap();
        assert_eq!(reopened.read_page(&h), page_of(text));
        reopened.unpin(h);
    }
}

// Allocation monotonicity: created ids strictly increase, and reopening an
// existing file never re-issues an id whose page is on the file.
#[test]
fn created_page_ids_strictly_increase_across_reopen() {
    let mut manager = fresh_manager(2);
    let mut last: Option<u64> = None;
    for _ in 0..4 {
        let h: PageHandle = manager.create_page().unwrap();
        let id: u64 = h.page_id().to_u64();
        if let Some(prev) = last {
            assert!(id > prev);
        }
        last = Some(id);
        manager.unpin(h);
    }
    manager.flush().unwrap();
    let (disk, _pool) = manager.into_parts();
    let image: Vec<u8> = disk.into_heap_file();

    let mut reopened = BufferPoolManager::new(DiskManager::new(image), BufferPool::new(2));
    let h: PageHandle = reopened.create_page().unwrap();
    assert_eq!(h.page_id().to_u64(), 4);
    reopened.unpin(h);
}

// Fetching a page the file does not have is an I/O error and changes nothing.
#[test]
fn fetching_an_absent_page_is_an_io_error() {
    let mut manager = fresh_manager(2);
    assert!(matches!(manager.fetch_page(PageId(9)), Err(Error::Io(_))));
    let h: PageHandle = manager.create_page().unwrap();
    assert_eq!(h.page_id(), PageId(0));
    manager.unpin(h);
}
