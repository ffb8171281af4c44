use buffer_pool::disk::{DiskManager, PageId, PAGE_SIZE};

fn page_with_prefix(prefix: &[u8]) -> Vec<u8> {
    let mut page: Vec<u8> = Vec::with_capacity(PAGE_SIZE);
    page.extend_from_slice(prefix);
    page.resize(PAGE_SIZE, 0);
    page
}

#[test]
fn disk_test() {
    let mut disk = DiskManager::new(Vec::new());
    let hello: Vec<u8> = page_with_prefix(b"hello");
    let hello_page_id: PageId = disk.allocate_page();
    disk.write_page_data(hello_page_id, &hello).unwrap();
    let world: Vec<u8> = page_with_prefix(b"world");
    let world_page_id: PageId = disk.allocate_page();
    disk.write_page_data(world_page_id, &world).unwrap();
    let heap_file: Vec<u8> = disk.into_heap_file();
    let mut disk2 = DiskManager::new(heap_file);
    let mut buf: Vec<u8> = vec![0; PAGE_SIZE];
    disk2.read_page_data(hello_page_id, &mut buf).unwrap();
    assert_eq!(hello, buf);
    disk2.read_page_data(world_page_id, &mut buf).unwrap();
    assert_eq!(world, buf);
}

#[test]
fn allocation_starts_at_zero_and_increases() {
    let mut disk = DiskManager::new(Vec::new());
    let a: PageId = disk.allocate_page();
    let b: PageId = disk.allocate_page();
    let c: PageId = disk.allocate_page();
    assert_eq!(a.to_u64(), 0);
    assert_eq!(b.to_u64(), 1);
    assert_eq!(c.to_u64(), 2);
}

#[test]
fn reopen_resumes_allocation_past_existing_pages() {
    let mut disk = DiskManager::new(Vec::new());
    let first: PageId = disk.allocate_page();
    let data: Vec<u8> = page_with_prefix(b"persisted");
    disk.write_page_data(first, &data).unwrap();
    let heap_file: Vec<u8> = disk.into_heap_file();
    assert_eq!(heap_file.len(), PAGE_SIZE);
    let mut disk2 = DiskManager::new(heap_file);
    let next: PageId = disk2.allocate_page();
    assert_eq!(next.to_u64(), 1);
}

#[test]
fn read_past_end_of_file_is_an_error() {
    let mut disk = DiskManager::new(Vec::new());
    let mut buf: Vec<u8> = vec![0; PAGE_SIZE];
    assert!(disk.read_page_data(PageId(0), &mut buf).is_err());
    let data: Vec<u8> = page_with_prefix(b"one page only");
    let pid: PageId = disk.allocate_page();
    disk.write_page_data(pid, &data).unwrap();
    assert!(disk.read_page_data(PageId(0), &mut buf).is_ok());
    assert!(disk.read_page_data(PageId(1), &mut buf).is_err());
}

#[test]
fn write_extends_the_file_with_zero_fill() {
    let mut disk = DiskManager::new(Vec::new());
    let data: Vec<u8> = page_with_prefix(b"far away");
    disk.write_page_data(PageId(2), &data).unwrap();
    let mut buf: Vec<u8> = vec![1; PAGE_SIZE];
    disk.read_page_data(PageId(0), &mut buf).unwrap();
    assert_eq!(buf, vec![0u8; PAGE_SIZE]);
    disk.read_page_data(PageId(2), &mut buf).unwrap();
    assert_eq!(buf, data);
}

#[test]
fn page_id_validity() {
    assert_eq!(PageId(7).valid(), Some(PageId(7)));
    assert_eq!(PageId(u64::MAX).valid(), None);
    assert_eq!(PageId(7).to_u64(), 7);
    assert_eq!(PageId::default().valid(), None);
}

#[test]
fn sync_changes_nothing_in_the_image() {
    let mut disk = DiskManager::new(Vec::new());
    let data: Vec<u8> = page_with_prefix(b"stable");
    let pid: PageId = disk.allocate_page();
    disk.write_page_data(pid, &data).unwrap();
    disk.sync().unwrap();
    let mut buf: Vec<u8> = vec![0; PAGE_SIZE];
    disk.read_page_data(pid, &mut buf).unwrap();
    assert_eq!(buf, data);
}
