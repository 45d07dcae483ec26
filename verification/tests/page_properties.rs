use gondor_rdbms::storage::page::PageHeader;
use gondor_rdbms::storage::Page;
use gondor_rdbms::storage::PageError;

#[test]
fn test_page_header_new() {
    let header = PageHeader::new(7);
    assert_eq!(header.page_id, 7);
    assert_eq!(header.free_space_total, 4080);
    assert_eq!(header.offset_begin_free_space, 16);
    assert_eq!(header.offset_end_free_space, 4096);
}

#[test]
fn test_insert_accounting_scenario() {
    // Inserting 13 bytes into a fresh page takes slot 0 and costs 13 + 4.
    let mut page = Page::new(1);
    let tuple = b"Hello, world!";
    let slot_id = page.insert_tuple(tuple).unwrap();
    assert_eq!(slot_id, 0);
    assert_eq!(page.get_header().free_space_total, 4063);
    assert_eq!(page.get_data(0).unwrap(), tuple);
}

#[test]
fn test_update_grow_relocates() {
    // Growing slot 0 from 13 to 40 bytes relocates it to freshly carved
    // bytes at the data-region start and costs exactly the 27-byte delta.
    let mut page = Page::new(1);
    let tuple = b"Hello, world!";
    page.insert_tuple(tuple).unwrap();
    let free_before = page.get_header().free_space_total;
    let end_before = page.get_header().offset_end_free_space;

    let payload = [0xABu8; 40];
    let returned = page.update_tuple(0, &payload).unwrap();
    assert_eq!(returned, 0);

    let header = page.get_header();
    assert_eq!(free_before - header.free_space_total, 27);
    assert_eq!(header.offset_end_free_space, end_before - 40);
    assert_eq!(page.get_data(0).unwrap(), &payload);
}

#[test]
fn test_update_shrink_in_place() {
    // Shrinking a tuple keeps its offset, credits the shed bytes back, and
    // reads back only the new bytes.
    let mut page = Page::new(1);
    let tuple = [0x55u8; 20];
    let slot_id = page.insert_tuple(&tuple).unwrap();
    let free_before = page.get_header().free_space_total;
    let end_before = page.get_header().offset_end_free_space;

    let shorter = [0x66u8; 5];
    page.update_tuple(slot_id, &shorter).unwrap();

    let header = page.get_header();
    assert_eq!(header.free_space_total - free_before, 15);
    assert_eq!(header.offset_end_free_space, end_before);
    assert_eq!(page.get_data(slot_id).unwrap(), &shorter);
}

#[test]
fn test_get_data_idempotent() {
    let mut page = Page::new(1);
    let tuple = b"stable bytes";
    let slot_id = page.insert_tuple(tuple).unwrap();
    let first = page.get_data(slot_id).unwrap().to_vec();
    let second = page.get_data(slot_id).unwrap().to_vec();
    let third = page.get_data(slot_id).unwrap().to_vec();
    assert_eq!(first, second);
    assert_eq!(second, third);
    assert_eq!(first, tuple.to_vec());
}

#[test]
fn test_sequential_slot_ids() {
    let mut page = Page::new(1);
    let a = page.insert_tuple(b"a").unwrap();
    let b = page.insert_tuple(b"bb").unwrap();
    let c = page.insert_tuple(b"ccc").unwrap();
    assert_eq!(a, 0);
    assert_eq!(b, 1);
    assert_eq!(c, 2);
}

#[test]
fn test_slot_ids_not_reused_after_delete() {
    let mut page = Page::new(1);
    let a = page.insert_tuple(b"first").unwrap();
    page.delete_tuple(a).unwrap();
    let b = page.insert_tuple(b"second").unwrap();
    assert_eq!(a, 0);
    assert_eq!(b, 1);
}

#[test]
fn test_delete_leaves_other_slots_alone() {
    let mut page = Page::new(1);
    let a = page.insert_tuple(b"left neighbour").unwrap();
    let b = page.insert_tuple(b"doomed").unwrap();
    let c = page.insert_tuple(b"right neighbour").unwrap();
    page.delete_tuple(b).unwrap();
    assert_eq!(page.get_data(a).unwrap(), b"left neighbour");
    assert_eq!(page.get_data(b).unwrap_err(), PageError::TupleNotFound);
    assert_eq!(page.get_data(c).unwrap(), b"right neighbour");
}

#[test]
fn test_invalid_slot_errors() {
    // Slot ids beyond the allocated directory are a distinct error from
    // deleted tuples.
    let mut page = Page::new(1);
    page.insert_tuple(b"only slot 0 exists").unwrap();
    assert_eq!(page.get_data(1).unwrap_err(), PageError::InvalidSlot);
    assert_eq!(page.update_tuple(1, b"x").unwrap_err(), PageError::InvalidSlot);
    assert_eq!(page.delete_tuple(1).unwrap_err(), PageError::InvalidSlot);
}

#[test]
fn test_failed_insert_leaves_page_unchanged() {
    let mut page = Page::new(1);
    page.insert_tuple(b"resident tuple").unwrap();
    let before = page.bytes().to_vec();

    let oversized = vec![0x77u8; 5000];
    assert_eq!(page.insert_tuple(&oversized).unwrap_err(), PageError::NotEnoughSpace);
    assert_eq!(page.bytes(), &before[..]);
}

#[test]
fn test_failed_update_leaves_page_unchanged() {
    let mut page = Page::new(1);
    let slot_id = page.insert_tuple(b"small").unwrap();
    let before = page.bytes().to_vec();

    let oversized = vec![0x77u8; 5000];
    assert_eq!(page.update_tuple(slot_id, &oversized).unwrap_err(), PageError::NotEnoughSpace);
    assert_eq!(page.bytes(), &before[..]);
}

#[test]
fn test_delete_then_get_scenario() {
    let mut page = Page::new(1);
    let slot_id = page.insert_tuple(b"Hello, world!").unwrap();
    page.delete_tuple(slot_id).unwrap();
    assert_eq!(page.get_data(0).unwrap_err(), PageError::TupleNotFound);
}

#[test]
fn test_bytes_round_trip_through_from_bytes() {
    let mut page = Page::new(99);
    page.insert_tuple(b"persisted tuple").unwrap();
    let raw = page.bytes().to_vec();

    let restored = Page::from_bytes(raw).expect("a page's own bytes are a valid image");
    let header = restored.get_header();
    assert_eq!(header.page_id, 99);
    assert_eq!(header.free_space_total, 4080 - 19);
    assert_eq!(restored.get_data(0).unwrap(), b"persisted tuple");
}

#[test]
fn test_empty_tuple() {
    // A zero-length tuple still costs its 4-byte directory entry.
    let mut page = Page::new(1);
    let slot_id = page.insert_tuple(&[]).unwrap();
    assert_eq!(slot_id, 0);
    assert_eq!(page.get_header().free_space_total, 4076);
    assert_eq!(page.get_data(slot_id).unwrap(), &[] as &[u8]);
}

#[test]
fn test_largest_tuple_fills_page() {
    // 4076 bytes of data + 4 bytes of directory entry consume all 4080
    // free bytes of a fresh page.
    let mut page = Page::new(1);
    let tuple = vec![0x5Au8; 4076];
    let slot_id = page.insert_tuple(&tuple).unwrap();
    assert_eq!(page.get_header().free_space_total, 0);
    assert_eq!(page.get_data(slot_id).unwrap(), &tuple[..]);
    // One byte more would not have fit.
    let mut page2 = Page::new(2);
    let too_big = vec![0x5Au8; 4077];
    assert_eq!(page2.insert_tuple(&too_big).unwrap_err(), PageError::NotEnoughSpace);
}

#[test]
fn test_from_bytes_rejects_invalid_images() {
    // Wrong length.
    assert!(Page::from_bytes(vec![0u8; 100]).is_none());
    // Header regions out of order: begin > end.
    let mut bytes = vec![0u8; 4096];
    bytes[6] = 32; // begin = 32
    bytes[8] = 16; // end = 16
    assert!(Page::from_bytes(bytes).is_none());
    // A region boundary inside the header.
    let mut bytes = vec![0u8; 4096];
    bytes[6] = 8; // begin = 8 < 16
    bytes[8] = 16;
    assert!(Page::from_bytes(bytes).is_none());
}
