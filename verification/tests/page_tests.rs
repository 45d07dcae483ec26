use gondor_rdbms::storage::page::HEADER_SIZE;
use gondor_rdbms::storage::page::PAGE_SIZE;
use gondor_rdbms::storage::Page;
use gondor_rdbms::storage::PageError;

#[test]
fn test_page_creation() {
    let page = Page::new(1);
    assert_eq!(page.get_header().page_id, 1);
    assert_eq!(page.get_header().free_space_total, (PAGE_SIZE - HEADER_SIZE) as u16);
    assert_eq!(page.get_header().offset_begin_free_space, HEADER_SIZE as u16);
    assert_eq!(page.get_header().offset_end_free_space, PAGE_SIZE as u16);
}

#[test]
fn test_insert_tuple() {
    let mut page = Page::new(1);
    let tuple = b"Hello, world!";
    let slot_id = page.insert_tuple(tuple).unwrap();
    assert_eq!(slot_id, 0);
    let retrieved_tuple = page.get_data(slot_id).unwrap();
    assert_eq!(retrieved_tuple, tuple);
}

#[test]
fn test_insert_tuple_not_enough_space() {
    // A page whose header shows no free space at all: the slot directory
    // and the data region meet right after the header.
    let mut bytes = vec![0u8; PAGE_SIZE];
    bytes[0] = 1; // page_id = 1
    bytes[4] = 0; // no free space total
    bytes[5] = 0;
    bytes[6] = 16; // free space begins right after the header
    bytes[7] = 0;
    bytes[8] = 16; // free space also ends there
    bytes[9] = 0;
    let mut page = Page::from_bytes(bytes).expect("a full page is still a valid page");

    let tuple = b"Hello, world! This tuple is too long to fit in the page.";
    let result = page.insert_tuple(tuple);
    assert_eq!(result.unwrap_err(), PageError::NotEnoughSpace);
}

#[test]
fn test_insert_multiple_tuples() {
    let mut page = Page::new(1);
    let tuple1 = b"Hello, world!";
    let tuple2 = b"This is a test tuple.";
    let tuple3 = b"Another test tuple.";

    let slot_id1 = page.insert_tuple(tuple1).unwrap();
    let slot_id2 = page.insert_tuple(tuple2).unwrap();
    let slot_id3 = page.insert_tuple(tuple3).unwrap();

    let data1 = page.get_data(slot_id1).unwrap();
    assert_eq!(data1, tuple1);
    let data2 = page.get_data(slot_id2).unwrap();
    assert_eq!(data2, tuple2);
    let data3 = page.get_data(slot_id3).unwrap();
    assert_eq!(data3, tuple3);
}

#[test]
fn test_update_tuple() {
    let mut page = Page::new(1);
    let tuple = b"Hello, world!";
    let slot_id = page.insert_tuple(tuple).unwrap();
    let updated_tuple = b"Hello, world! This is an updated tuple.";
    page.update_tuple(slot_id, updated_tuple).unwrap();
    let retrieved_tuple = page.get_data(slot_id).unwrap();
    assert_eq!(retrieved_tuple, updated_tuple);
}

#[test]
fn test_free_space_calculation() {
    let mut page = Page::new(1);
    let initial_header = page.get_header();
    let initial_free_space = initial_header.free_space_total;

    let tuple_data_10: [u8; 10] = [0x01, 0x02, 0x03, 0x04, 0x05, 0x06, 0x07, 0x08, 0x09, 0x0A];
    let expected_decrease_10 = tuple_data_10.len() + 4;

    let slot_id_1 = page.insert_tuple(&tuple_data_10).expect("Should insert 10-byte tuple");
    let header_after_1 = page.get_header();
    let actual_decrease_1 = initial_free_space - header_after_1.free_space_total;

    assert_eq!(
        actual_decrease_1,
        expected_decrease_10 as u16,
        "Free space should decrease by exactly {} bytes for 10-byte tuple",
        expected_decrease_10
    );

    let tuple_data_20: [u8; 20] = [
        0x11, 0x12, 0x13, 0x14, 0x15, 0x16, 0x17, 0x18, 0x19, 0x1A, 0x1B, 0x1C, 0x1D, 0x1E, 0x1F,
        0x20, 0x21, 0x22, 0x23, 0x24,
    ];
    let expected_decrease_20 = tuple_data_20.len() + 4;

    let free_space_before_2 = header_after_1.free_space_total;
    let slot_id_2 = page.insert_tuple(&tuple_data_20).expect("Should insert 20-byte tuple");
    let header_after_2 = page.get_header();
    let actual_decrease_2 = free_space_before_2 - header_after_2.free_space_total;

    assert_eq!(
        actual_decrease_2,
        expected_decrease_20 as u16,
        "Free space should decrease by exactly {} bytes for 20-byte tuple",
        expected_decrease_20
    );

    let retrieved_1 = page.get_data(slot_id_1).expect("Should retrieve first tuple");
    assert_eq!(retrieved_1, &tuple_data_10, "First tuple should match inserted data");
    let retrieved_2 = page.get_data(slot_id_2).expect("Should retrieve second tuple");
    assert_eq!(retrieved_2, &tuple_data_20, "Second tuple should match inserted data");
}

#[test]
fn test_update_tuple_not_enough_space() {
    let mut page = Page::new(1);

    let tuple_data: [u8; 10] = [0x41, 0x42, 0x43, 0x44, 0x45, 0x46, 0x47, 0x48, 0x49, 0x4A];
    let tuple_size = tuple_data.len();
    let slot_size = 4;

    // Available space = PAGE_SIZE - HEADER_SIZE = 4096 - 16 = 4080 bytes;
    // each tuple uses tuple_size + slot_size = 14 bytes.
    let available_space = PAGE_SIZE - HEADER_SIZE;
    let space_per_tuple = tuple_size + slot_size;
    let max_tuples = available_space / space_per_tuple;

    // Insert exactly max_tuples - 1 to leave some space for testing update
    // failure.
    let tuples_to_insert = max_tuples - 1;
    let mut slot_ids = Vec::new();

    for i in 0..tuples_to_insert {
        let slot_id = page
            .insert_tuple(&tuple_data)
            .expect(&format!("Should be able to insert tuple {}", i));
        slot_ids.push(slot_id);
    }

    let header = page.get_header();
    let expected_remaining_space = available_space - (tuples_to_insert * space_per_tuple);
    println!("Expected remaining space: {}", expected_remaining_space);
    println!("Actual remaining space: {}", header.free_space_total);
    println!("Number of tuples inserted: {}", slot_ids.len());

    assert_eq!(
        header.free_space_total, expected_remaining_space as u16,
        "Free space calculation should match mathematical prediction"
    );

    // Update one tuple to be larger than the remaining space: exactly
    // remaining_space + 1 guarantees failure.
    let larger_size = header.free_space_total as usize + 1;
    let longer_tuple = vec![0xFF; larger_size];

    let result = page.update_tuple(slot_ids[0], &longer_tuple);
    assert_eq!(result.unwrap_err(), PageError::NotEnoughSpace);
}

#[test]
fn test_delete_tuple() {
    let mut page = Page::new(1);
    let tuple = b"Hello, world!";
    let slot_id = page.insert_tuple(tuple).unwrap();
    page.delete_tuple(slot_id).unwrap();
    let result = page.update_tuple(slot_id, tuple);
    assert_eq!(result.unwrap_err(), PageError::TupleNotFound);
    let result = page.get_data(slot_id);
    assert_eq!(result.unwrap_err(), PageError::TupleNotFound);
}
