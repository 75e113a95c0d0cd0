use posting_engine::codec::{
    decode_postings, decode_total_docs, encode_postings, new_filled, StorageError,
};

#[test]
fn decode_reads_big_endian_pairs() {
    assert_eq!(decode_postings(&vec![0, 1, 0, 3, 0, 5]), Ok(vec![1, 3, 5]));
    assert_eq!(decode_postings(&vec![0x01, 0x02, 0xff, 0xfe]), Ok(vec![0x0102, 0xfffe]));
    assert_eq!(decode_postings(&vec![]), Ok(vec![]));
}

#[test]
fn decode_refuses_odd_length() {
    assert_eq!(decode_postings(&vec![0]), Err(StorageError::Corrupt));
    assert_eq!(decode_postings(&vec![0, 1, 0]), Err(StorageError::Corrupt));
}

#[test]
fn decode_refuses_unsorted_or_repeated_ids() {
    assert_eq!(decode_postings(&vec![0, 5, 0, 3]), Err(StorageError::Corrupt));
    assert_eq!(decode_postings(&vec![0, 3, 0, 3]), Err(StorageError::Corrupt));
    assert_eq!(decode_postings(&vec![1, 0, 0, 255]), Err(StorageError::Corrupt));
}

#[test]
fn encode_writes_big_endian_pairs() {
    assert_eq!(encode_postings(&vec![1, 3, 5]), vec![0, 1, 0, 3, 0, 5]);
    assert_eq!(encode_postings(&vec![0x0102, 0xfffe]), vec![0x01, 0x02, 0xff, 0xfe]);
    assert_eq!(encode_postings(&vec![]), Vec::<u8>::new());
}

#[test]
fn encode_then_decode_gives_the_ids_back() {
    let ids: Vec<u16> = vec![0, 1, 255, 256, 257, 4096, 65535];
    assert_eq!(decode_postings(&encode_postings(&ids)), Ok(ids));
}

#[test]
fn new_filled_lists_every_id_below_the_count() {
    assert_eq!(new_filled(0), Vec::<u16>::new());
    assert_eq!(new_filled(5), vec![0, 1, 2, 3, 4]);
    let many = new_filled(300);
    assert_eq!(many.len(), 300);
    assert_eq!(many[299], 299);
}

#[test]
fn new_filled_stops_where_the_ids_end() {
    assert_eq!(new_filled(-3), Vec::<u16>::new());
    let chunk = new_filled(65536);
    assert_eq!(chunk.len(), 65536);
    assert_eq!(chunk[65535], 65535);
    assert_eq!(new_filled(65537), chunk);
    assert_eq!(new_filled(i64::MAX), chunk);
    assert_eq!(new_filled(65535).len(), 65535);
}

#[test]
fn total_docs_reads_eight_big_endian_bytes() {
    assert_eq!(decode_total_docs(&vec![0, 0, 0, 0, 0, 0, 0, 5]), Ok(5));
    assert_eq!(decode_total_docs(&vec![0, 0, 0, 0, 0, 0, 1, 2]), Ok(258));
    assert_eq!(decode_total_docs(&vec![0, 0, 0, 0, 0, 0, 1, 2, 9, 9]), Ok(258));
}

#[test]
fn total_docs_is_a_signed_sixty_four_bit_count() {
    assert_eq!(decode_total_docs(&vec![0, 0, 0, 0, 0, 1, 0, 0]), Ok(65536));
    assert_eq!(decode_total_docs(&vec![0, 0, 0, 0, 0, 1, 0, 7]), Ok(65543));
    assert_eq!(decode_total_docs(&vec![255, 255, 255, 255, 255, 255, 255, 255]), Ok(-1));
    assert_eq!(decode_total_docs(&vec![127, 255, 255, 255, 255, 255, 255, 255]), Ok(i64::MAX));
    assert_eq!(decode_total_docs(&vec![128, 0, 0, 0, 0, 0, 0, 0]), Ok(i64::MIN));
}

#[test]
fn total_docs_refuses_short_values() {
    assert_eq!(decode_total_docs(&vec![]), Err(StorageError::Corrupt));
    assert_eq!(decode_total_docs(&vec![0, 0, 0, 0, 0, 0, 5]), Err(StorageError::Corrupt));
}
