use limbo_storage::cell::{payload_overflows, read_btree_cell, read_payload, BTreeCell, PageType};
use limbo_storage::page::PageContent;

const USABLE: usize = 4096;
const LEAF_MAX: usize = USABLE - 35;
const MIN_LOCAL: usize = ((USABLE - 12) * 32 / 255) - 23;
const INDEX_MAX: usize = ((USABLE - 12) * 64 / 255) - 23;

#[test]
fn overflow_split_of_large_leaf_payload() {
    assert_eq!(MIN_LOCAL, 489);
    assert_eq!(payload_overflows(5000, LEAF_MAX, MIN_LOCAL, USABLE), (true, 912));
    assert_eq!(payload_overflows(4061, LEAF_MAX, MIN_LOCAL, USABLE), (false, 0));
    // The local part that would exceed the maximum falls back to the minimum.
    assert_eq!(payload_overflows(489 + 3600, LEAF_MAX, MIN_LOCAL, USABLE), (true, 489 + 4));
}

#[test]
fn overflow_split_covers_payload() {
    for p in [4062usize, 5000, 8153, 8154, 100_000] {
        let (overflows, to_read) = payload_overflows(p, LEAF_MAX, MIN_LOCAL, USABLE);
        assert!(overflows);
        let local = to_read - 4;
        assert!(local <= LEAF_MAX);
        let per_page = USABLE - 4;
        let pages = (p - local).div_ceil(per_page);
        assert!(local + pages * per_page >= p);
    }
}

fn leaf_page_with_cell(payload_size: usize, rowid: u8) -> (Vec<u8>, usize) {
    let mut page = vec![0u8; 4096];
    page[0] = 13;
    let pos = 100;
    // payload size as a two-byte varint, then the rowid
    page[pos] = 0x80 | ((payload_size >> 7) as u8);
    page[pos + 1] = (payload_size & 0x7f) as u8;
    page[pos + 2] = rowid;
    for i in 0..908 {
        page[pos + 3 + i] = (i % 251) as u8;
    }
    page[pos + 3 + 908..pos + 3 + 912].copy_from_slice(&[0, 0, 0, 7]);
    (page, pos)
}

#[test]
fn table_leaf_cell_with_overflow() {
    let (page, pos) = leaf_page_with_cell(5000, 9);
    let cell = read_btree_cell(&page, &PageType::TableLeaf, pos, LEAF_MAX, MIN_LOCAL, USABLE)
        .unwrap();
    match cell {
        BTreeCell::TableLeafCell(c) => {
            assert_eq!(c._rowid, 9);
            assert_eq!(c.payload_size, 5000);
            assert_eq!(c._payload.len(), 908);
            assert_eq!(c._payload[10], 10);
            assert_eq!(c.first_overflow_page, Some(7));
        }
        _ => panic!("wrong cell kind"),
    }
}

#[test]
fn table_leaf_cell_inline() {
    let mut page = vec![0u8; 64];
    page[10] = 3;
    page[11] = 5;
    page[12..15].copy_from_slice(&[1, 2, 3]);
    let cell =
        read_btree_cell(&page, &PageType::TableLeaf, 10, LEAF_MAX, MIN_LOCAL, USABLE).unwrap();
    match cell {
        BTreeCell::TableLeafCell(c) => {
            assert_eq!(c._rowid, 5);
            assert_eq!(c._payload, vec![1, 2, 3]);
            assert_eq!(c.first_overflow_page, None);
        }
        _ => panic!("wrong cell kind"),
    }
}

#[test]
fn other_cell_kinds() {
    let page = [0u8, 0, 0, 9, 0x81, 0x00, 0, 0];
    match read_btree_cell(&page, &PageType::TableInterior, 0, LEAF_MAX, MIN_LOCAL, USABLE).unwrap()
    {
        BTreeCell::TableInteriorCell(c) => {
            assert_eq!(c._left_child_page, 9);
            assert_eq!(c._rowid, 128);
        }
        _ => panic!("wrong cell kind"),
    }
    let page = [0u8, 0, 1, 0, 2, 0xAA, 0xBB, 0xCC];
    match read_btree_cell(&page, &PageType::IndexInterior, 0, INDEX_MAX, MIN_LOCAL, USABLE).unwrap()
    {
        BTreeCell::IndexInteriorCell(c) => {
            assert_eq!(c.left_child_page, 256);
            assert_eq!(c.payload, vec![0xAA, 0xBB]);
            assert_eq!(c.payload_size, 2);
        }
        _ => panic!("wrong cell kind"),
    }
    let page = [1u8, 0x42];
    match read_btree_cell(&page, &PageType::IndexLeaf, 0, INDEX_MAX, MIN_LOCAL, USABLE).unwrap() {
        BTreeCell::IndexLeafCell(c) => assert_eq!(c.payload, vec![0x42]),
        _ => panic!("wrong cell kind"),
    }
}

#[test]
fn truncated_cells_are_corrupt() {
    assert!(read_btree_cell(&[0, 0, 0], &PageType::TableInterior, 0, 10, 5, 100).is_err());
    assert!(read_btree_cell(&[5, 1, 2], &PageType::IndexLeaf, 0, 10, 5, 100).is_err());
    assert!(read_btree_cell(&[0x81], &PageType::TableLeaf, 0, 10, 5, 100).is_err());
}

#[test]
fn read_payload_splits() {
    assert_eq!(read_payload(&[1, 2, 3, 4], 2), (vec![1, 2], None));
    assert_eq!(read_payload(&[1, 2, 0, 0, 0, 5], 100), (vec![1, 2], Some(5)));
}

#[test]
fn page_type_bytes() {
    assert_eq!(PageType::try_from(2).unwrap(), PageType::IndexInterior);
    assert_eq!(PageType::try_from(5).unwrap(), PageType::TableInterior);
    assert_eq!(PageType::try_from(10).unwrap(), PageType::IndexLeaf);
    assert_eq!(PageType::try_from(13).unwrap(), PageType::TableLeaf);
    assert!(PageType::try_from(0).is_err());
    assert!(PageType::try_from(1).is_err());
}

fn interior_page() -> PageContent {
    let mut buffer = vec![0u8; 512];
    buffer[0] = 5;
    buffer[3..5].copy_from_slice(&[0, 2]);
    buffer[5..7].copy_from_slice(&[0x01, 0xF0]);
    buffer[7] = 3;
    buffer[8..12].copy_from_slice(&[0, 0, 0, 42]);
    buffer[12..14].copy_from_slice(&[0x01, 0xF0]);
    buffer[14..16].copy_from_slice(&[0x01, 0xF8]);
    buffer[0x1F0..0x1F5].copy_from_slice(&[0, 0, 0, 2, 0x10]);
    buffer[0x1F8..0x1FE].copy_from_slice(&[0, 0, 0, 3, 0x81, 0x00]);
    PageContent { offset: 0, buffer, overflow_cells: Vec::new() }
}

#[test]
fn page_header_fields() {
    let page = interior_page();
    assert_eq!(page.page_type(), PageType::TableInterior);
    assert_eq!(page.maybe_page_type(), Some(PageType::TableInterior));
    assert!(!page.is_leaf());
    assert_eq!(page.header_size(), 12);
    assert_eq!(page.cell_count(), 2);
    assert_eq!(page.cell_pointer_array_size(), 4);
    assert_eq!(page.cell_pointer_array_offset_and_size(), (12, 4));
    assert_eq!(page.unallocated_region_start(), 16);
    assert_eq!(page.cell_content_area(), 0x1F0);
    assert_eq!(page.unallocated_region_size(), 0x1F0 - 16);
    assert_eq!(page.num_frag_free_bytes(), 3);
    assert_eq!(page.first_freeblock(), 0);
    assert_eq!(page.rightmost_pointer(), Some(42));
    assert_eq!(page.cell_get_raw_region(0, LEAF_MAX, MIN_LOCAL, USABLE), (0x1F0, 5));
    assert_eq!(page.cell_get_raw_region(1, LEAF_MAX, MIN_LOCAL, USABLE), (0x1F8, 6));
    match page.cell_get(1, LEAF_MAX, MIN_LOCAL, USABLE).unwrap() {
        BTreeCell::TableInteriorCell(c) => {
            assert_eq!(c._left_child_page, 3);
            assert_eq!(c._rowid, 128);
        }
        _ => panic!("wrong cell kind"),
    }
}

#[test]
fn leaf_region_counts_overflow_pointer() {
    let (buffer, _) = leaf_page_with_cell(5000, 9);
    let mut page = PageContent { offset: 0, buffer, overflow_cells: Vec::new() };
    page.write_u16(3, 1);
    page.write_u16(8, 100);
    assert!(page.is_leaf());
    assert_eq!(page.rightmost_pointer(), None);
    assert_eq!(page.cell_get_raw_region(0, LEAF_MAX, MIN_LOCAL, USABLE), (100, 2 + 1 + 912));
}

#[test]
fn page_writes() {
    let mut page = interior_page();
    page.write_u8(7, 9);
    assert_eq!(page.read_u8(7), 9);
    page.write_u16(1, 0x0123);
    assert_eq!(page.first_freeblock(), 0x0123);
    page.write_u16_no_offset(100, 0xBEEF);
    assert_eq!(page.read_u16_no_offset(100), 0xBEEF);
    page.write_u32(8, 0x0A0B0C0D);
    assert_eq!(page.read_u32(8), 0x0A0B0C0D);
    assert_eq!(page.read_u32_no_offset(8), 0x0A0B0C0D);
    assert_eq!(&page.buffer[8..12], &[0x0A, 0x0B, 0x0C, 0x0D]);
}

#[test]
fn first_page_offset() {
    let mut buffer = vec![0u8; 1024];
    buffer[100] = 13;
    buffer[103..105].copy_from_slice(&[0, 7]);
    let mut page = PageContent { offset: 100, buffer, overflow_cells: Vec::new() };
    assert_eq!(page.page_type(), PageType::TableLeaf);
    assert_eq!(page.cell_count(), 7);
    assert_eq!(page.unallocated_region_start(), 100 + 8 + 14);
    let header = limbo_storage::header::DatabaseHeader::default();
    page.write_database_header(&header);
    assert_eq!(&page.buffer[..16], b"SQLite format 3\0");
    assert_eq!(page.page_type(), PageType::TableLeaf);
}

#[test]
fn overflow_page_has_no_type() {
    let page = PageContent { offset: 0, buffer: vec![0, 0, 0, 0], overflow_cells: Vec::new() };
    assert_eq!(page.maybe_page_type(), None);
}

#[test]
fn freeblock_chain() {
    let mut page = interior_page();
    page.write_u16(1, 200);
    page.write_u16_no_offset(200, 300);
    page.write_u16_no_offset(202, 10);
    page.write_u16_no_offset(300, 0);
    page.write_u16_no_offset(302, 20);
    assert_eq!(page.freeblocks(512), vec![(200, 10, 300), (300, 20, 0)]);
    // A block past the usable space ends the chain.
    assert_eq!(page.freeblocks(250), vec![(200, 10, 300)]);
    // A chain that points backwards ends after that block.
    page.write_u16_no_offset(300, 100);
    assert_eq!(page.freeblocks(512), vec![(200, 10, 300), (300, 20, 100)]);
}

#[test]
fn content_area_zero_means_65536() {
    let mut buffer = vec![0u8; 65536];
    buffer[0] = 13;
    let page = PageContent { offset: 0, buffer, overflow_cells: Vec::new() };
    assert_eq!(page.cell_content_area(), 65536);
    assert_eq!(page.unallocated_region_size(), 65536 - 8);
}
