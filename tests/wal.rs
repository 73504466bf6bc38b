use limbo_storage::wal::{
    build_wal_frame, checksum_wal, read_wal_frame_header, finish_read_wal_header, write_wal_header,
    WalHeader, WAL_MAGIC_BE, WAL_MAGIC_LE,
};

fn header(magic: u32) -> WalHeader {
    WalHeader {
        magic,
        file_format: 3007000,
        page_size: 512,
        checkpoint_seq: 1,
        salt_1: 0x11223344,
        salt_2: 0x55667788,
        checksum_1: 0,
        checksum_2: 0,
    }
}

#[test]
fn checksum_of_empty_is_input() {
    let h = header(WAL_MAGIC_LE);
    assert_eq!(checksum_wal(&[], &h, (7, 9), true), (7, 9));
    assert_eq!(checksum_wal(&[], &h, (7, 9), false), (7, 9));
}

#[test]
fn checksum_byte_orders() {
    let h = header(WAL_MAGIC_LE);
    let buf = [1u8, 0, 0, 0, 2, 0, 0, 0];
    assert_eq!(checksum_wal(&buf, &h, (0, 0), false), (1, 3));
    assert_eq!(checksum_wal(&buf, &h, (0, 0), true), (0x0100_0000, 0x0300_0000));
}

#[test]
fn palindromic_words_checksum_alike() {
    let h = header(WAL_MAGIC_LE);
    let buf = [1u8, 2, 2, 1, 7, 0, 0, 7, 9, 9, 9, 9, 0, 5, 5, 0];
    assert_eq!(checksum_wal(&buf, &h, (3, 4), true), checksum_wal(&buf, &h, (3, 4), false));
}

#[test]
fn different_words_can_collide() {
    // Words that are not palindromes, yet both byte orders give one checksum.
    let h = header(WAL_MAGIC_LE);
    let buf = [0u8, 0, 0, 0, 0, 0, 0, 1, 1, 0, 0, 0, 1, 0, 0, 0];
    let be = checksum_wal(&buf, &h, (0, 0), true);
    let le = checksum_wal(&buf, &h, (0, 0), false);
    assert_eq!(be, (0x0100_0001, 0x0200_0002));
    assert_eq!(be, le);
}

#[test]
fn checksum_chains() {
    let h = header(WAL_MAGIC_BE);
    let a: Vec<u8> = (0..16u8).collect();
    let b: Vec<u8> = (100..124u8).collect();
    let mut ab = a.clone();
    ab.extend_from_slice(&b);
    for be in [true, false] {
        let first = checksum_wal(&a, &h, (5, 6), be);
        assert_eq!(checksum_wal(&ab, &h, (5, 6), be), checksum_wal(&b, &h, first, be));
    }
}

#[test]
fn wal_header_round_trip() {
    let h = header(WAL_MAGIC_BE);
    let bytes = write_wal_header(&h);
    assert_eq!(bytes.len(), 32);
    assert_eq!(&bytes[..4], &[0x37, 0x7f, 0x06, 0x83]);
    assert_eq!(&bytes[4..8], &3007000u32.to_be_bytes());
    assert_eq!(finish_read_wal_header(&bytes).unwrap(), h);
    assert!(finish_read_wal_header(&bytes[..31]).is_err());
}

#[test]
fn frame_uses_magic_byte_order() {
    let page: Vec<u8> = (0..64u8).collect();
    for (magic, big_endian) in [(WAL_MAGIC_LE, false), (WAL_MAGIC_BE, true)] {
        let h = header(magic);
        let (frame, c) = build_wal_frame(3, &page, 0, &h, (1, 2));
        let hdr = checksum_wal(&frame[..8], &h, (1, 2), big_endian);
        assert_eq!(c, checksum_wal(&page, &h, hdr, big_endian));
        assert_eq!(frame.len(), 24 + 64);
        let fh = read_wal_frame_header(&frame).unwrap();
        assert_eq!(fh.page_number, 3);
        assert_eq!(fh.db_size, 0);
        assert_eq!(fh.salt_1, h.salt_1);
        assert_eq!(fh.salt_2, h.salt_2);
        assert_eq!((fh.checksum_1, fh.checksum_2), c);
        assert_eq!(&frame[24..], &page[..]);
    }
    let le = build_wal_frame(3, &page, 0, &header(WAL_MAGIC_LE), (1, 2)).1;
    let be = build_wal_frame(3, &page, 0, &header(WAL_MAGIC_BE), (1, 2)).1;
    assert_ne!(le, be);
}
