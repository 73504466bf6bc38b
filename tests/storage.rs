use limbo_storage::header::DatabaseHeader;
use limbo_storage::page::PageContent;
use limbo_storage::storage::{
    begin_read_database_header, begin_read_page, begin_read_wal_frame, begin_read_wal_header,
    begin_sync, begin_write_btree_page, begin_write_database_header, begin_write_wal_frame,
    begin_write_wal_header, DatabaseStorage, File, MemoryFile, MemoryStorage,
};
use limbo_storage::wal::{checksum_wal, read_wal_frame_header, WalHeader, WAL_MAGIC_LE};

fn storage_with_header() -> MemoryStorage {
    let mut db = MemoryStorage::new();
    let mut page1 = vec![0xABu8; 512];
    limbo_storage::header::write_header_to_buf(&mut page1, &DatabaseHeader::default());
    db.write_page(1, &page1).unwrap();
    db.write_page(2, &[13u8; 512]).unwrap();
    db
}

#[test]
fn database_header_through_storage() {
    let mut db = storage_with_header();
    let h = begin_read_database_header(&db).unwrap();
    assert_eq!(h, DatabaseHeader::default());
    let mut h2 = h.clone();
    h2.change_counter = 77;
    begin_write_database_header(&h2, &mut db).unwrap();
    assert_eq!(begin_read_database_header(&db).unwrap().change_counter, 77);
    let page1 = db.read_page(1).unwrap();
    assert!(page1[100..].iter().all(|b| *b == 0xAB));
    assert!(begin_read_database_header(&MemoryStorage::new()).is_err());
}

#[test]
fn pages_through_storage() {
    let mut db = storage_with_header();
    let p1 = begin_read_page(&db, 1).unwrap();
    assert_eq!(p1.offset, 100);
    let p2 = begin_read_page(&db, 2).unwrap();
    assert_eq!(p2.offset, 0);
    assert!(begin_read_page(&db, 3).is_err());
    let new_page = PageContent { offset: 0, buffer: vec![5u8; 512], overflow_cells: Vec::new() };
    begin_write_btree_page(&mut db, 3, &new_page).unwrap();
    assert_eq!(begin_read_page(&db, 3).unwrap().buffer, vec![5u8; 512]);
    assert!(begin_write_btree_page(&mut db, 9, &new_page).is_err());
    let mut syncing = false;
    begin_sync(&mut db, &mut syncing).unwrap();
    assert!(!syncing);
}

#[test]
fn wal_through_file() {
    let mut io = MemoryFile::new();
    let h = WalHeader {
        magic: WAL_MAGIC_LE,
        file_format: 3007000,
        page_size: 64,
        checkpoint_seq: 0,
        salt_1: 1,
        salt_2: 2,
        checksum_1: 3,
        checksum_2: 4,
    };
    begin_write_wal_header(&mut io, &h).unwrap();
    assert_eq!(begin_read_wal_header(&io).unwrap(), h);
    let page = PageContent { offset: 0, buffer: vec![9u8; 64], overflow_cells: Vec::new() };
    let c1 = begin_write_wal_frame(&mut io, 32, 1, &page, 0, &h, (3, 4)).unwrap();
    let c2 = begin_write_wal_frame(&mut io, 32 + 24 + 64, 2, &page, 2, &h, c1).unwrap();
    assert_eq!(io.data.len(), 32 + 2 * (24 + 64));
    let frame2 = io.pread(32 + 24 + 64, 24).unwrap();
    let fh = read_wal_frame_header(&frame2).unwrap();
    assert_eq!(fh.page_number, 2);
    assert_eq!(fh.db_size, 2);
    assert_eq!((fh.checksum_1, fh.checksum_2), c2);
    let hdr = checksum_wal(&frame2[..8], &h, c1, false);
    assert_eq!(c2, checksum_wal(&page.buffer, &h, hdr, false));
    let read = begin_read_wal_frame(&io, 32 + 24, 64, 1).unwrap();
    assert_eq!(read.buffer, vec![9u8; 64]);
    assert_eq!(read.offset, 100);
    assert!(begin_read_wal_frame(&io, 1000, 64, 2).is_err());
}
