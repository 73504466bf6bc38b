use limbo_storage::header::{
    finish_read_database_header, write_header_to_buf, DatabaseHeader, DEFAULT_CACHE_SIZE,
};

fn fresh_file_page() -> Vec<u8> {
    let mut page = vec![0u8; 4096];
    page[..16].copy_from_slice(b"SQLite format 3\0");
    page[16..24].copy_from_slice(&[0x10, 0x00, 0x01, 0x01, 0x00, 0x40, 0x20, 0x20]);
    page
}

#[test]
fn reads_fresh_header() {
    let page = fresh_file_page();
    let h = finish_read_database_header(&page).unwrap();
    assert_eq!(h.magic, b"SQLite format 3\0".to_vec());
    assert_eq!(h.page_size, 4096);
    assert_eq!(h.write_version, 1);
    assert_eq!(h.read_version, 1);
    assert_eq!(h.reserved_space, 0);
    assert_eq!(h.max_embed_frac, 64);
    assert_eq!(h.min_embed_frac, 32);
    assert_eq!(h.min_leaf_frac, 32);
    // A stored zero cache size reads as the default.
    assert_eq!(h.default_page_cache_size, DEFAULT_CACHE_SIZE);
}

#[test]
fn header_too_short() {
    assert!(finish_read_database_header(&[0u8; 99]).is_err());
}

#[test]
fn header_round_trip() {
    let mut h = DatabaseHeader::default();
    h.database_size = 0x01020304;
    h.default_page_cache_size = -7;
    h.user_version = 0xDEADBEEF;
    h.version_number = 3047001;
    let mut buf = vec![0x55u8; 512];
    write_header_to_buf(&mut buf, &h);
    assert_eq!(&buf[..16], b"SQLite format 3\0");
    assert_eq!(&buf[16..18], &[0x10, 0x00]);
    assert_eq!(&buf[28..32], &[1, 2, 3, 4]);
    assert_eq!(&buf[48..52], &[0xFF, 0xFF, 0xFF, 0xF9]);
    assert!(buf[100..].iter().all(|b| *b == 0x55));
    let back = finish_read_database_header(&buf).unwrap();
    assert_eq!(back, h);
}

#[test]
fn default_header_values() {
    let h = DatabaseHeader::default();
    assert_eq!(h.page_size, 4096);
    assert_eq!(h.schema_format, 4);
    assert_eq!(h.default_page_cache_size, 500);
    assert_eq!(h.reserved_for_expansion, vec![0u8; 20]);
    assert_eq!(h.version_valid_for, 3047000);
}

#[test]
fn page_size_one_means_65536() {
    let mut h = DatabaseHeader::default();
    assert_eq!(h.page_size_in_bytes(), 4096);
    h.page_size = 1;
    assert_eq!(h.page_size_in_bytes(), 65536);
    h.page_size = 512;
    assert_eq!(h.page_size_in_bytes(), 512);
}

#[test]
fn zero_cache_size_reads_back_as_default() {
    let mut h = DatabaseHeader::default();
    h.default_page_cache_size = 0;
    let mut buf = vec![0u8; 100];
    write_header_to_buf(&mut buf, &h);
    let back = finish_read_database_header(&buf).unwrap();
    h.default_page_cache_size = DEFAULT_CACHE_SIZE;
    assert_eq!(back, h);
}
