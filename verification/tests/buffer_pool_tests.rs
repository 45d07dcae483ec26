use gondor_rdbms::storage::BufferPool;
use gondor_rdbms::storage::BufferPoolError;
use gondor_rdbms::storage::Page;

#[test]
fn test_install_page() {
    // A valid page's raw bytes, as they would come back from disk.
    let page_id = 42u32;
    let page = Page::new(page_id);
    let page_contents = page.bytes().to_vec();

    let mut buffer_pool = BufferPool::new();
    buffer_pool.add_page_path(page_id, String::from("pages/42.page"));

    let read_page =
        buffer_pool.install_page(page_id, page_contents).expect("Failed to install page");

    let header = read_page.get_header();
    assert_eq!(header.page_id, page_id);
    assert_eq!(header.free_space_total, 4080);
    assert_eq!(header.offset_begin_free_space, 16);
    assert_eq!(header.offset_end_free_space, 4096);
}

#[test]
fn test_install_page_without_path() {
    let mut buffer_pool = BufferPool::new();
    let bytes = Page::new(5).bytes().to_vec();
    let result = buffer_pool.install_page(5, bytes);
    assert_eq!(result.unwrap_err(), BufferPoolError::PageNotFound);
}

#[test]
fn test_install_page_invalid_contents() {
    let mut buffer_pool = BufferPool::new();
    buffer_pool.add_page_path(3, String::from("pages/3.page"));
    let result = buffer_pool.install_page(3, vec![0u8; 10]);
    assert_eq!(result.unwrap_err(), BufferPoolError::IoError);
}

#[test]
fn test_get_page_returns_resident_page() {
    let mut buffer_pool = BufferPool::new();
    buffer_pool.add_page_path(7, String::from("pages/7.page"));
    let bytes = Page::new(7).bytes().to_vec();
    buffer_pool.install_page(7, bytes).expect("Failed to install page");

    let resident = buffer_pool.get_page(7).expect("page should be resident");
    assert_eq!(resident.get_header().page_id, 7);
    assert!(buffer_pool.get_page(8).is_none());
}

#[test]
fn test_get_path_after_registration() {
    let mut buffer_pool = BufferPool::new();
    assert!(buffer_pool.get_path(1).is_none());
    buffer_pool.add_page_path(1, String::from("first.page"));
    assert_eq!(buffer_pool.get_path(1).unwrap(), "first.page");
    // Registration is idempotent; the last write wins.
    buffer_pool.add_page_path(1, String::from("second.page"));
    assert_eq!(buffer_pool.get_path(1).unwrap(), "second.page");
}
