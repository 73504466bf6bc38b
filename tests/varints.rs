use limbo_storage::varint::{read_varint, varint_size, write_varint, write_varint_to_vec};

fn encode(v: u64) -> Vec<u8> {
    let mut out = Vec::new();
    write_varint_to_vec(v, &mut out);
    out
}

#[test]
fn varint_examples() {
    assert_eq!(encode(0x7F), vec![0x7F]);
    assert_eq!(encode(0x80), vec![0x81, 0x00]);
    assert_eq!(encode(0x3FFF), vec![0xFF, 0x7F]);
    assert_eq!(encode(0xFFFF_FFFF_FFFF_FFFF), vec![0xFF; 9]);
    assert_eq!(read_varint(&[0x7F]).unwrap(), (0x7F, 1));
    assert_eq!(read_varint(&[0x81, 0x00]).unwrap(), (0x80, 2));
    assert_eq!(read_varint(&[0xFF, 0x7F]).unwrap(), (0x3FFF, 2));
    assert_eq!(read_varint(&[0xFF; 9]).unwrap(), (u64::MAX, 9));
}

#[test]
fn varint_round_trips() {
    let mut samples = vec![0u64, 1, 0x7F, 0x80, 0x3FFF, 0x4000, 0x1F_FFFF, 0x20_0000, u64::MAX];
    for k in 0..64 {
        samples.push(1u64 << k);
        samples.push((1u64 << k) - 1);
    }
    for v in samples {
        let e = encode(v);
        assert!(e.len() <= 9);
        assert_eq!(e.len(), varint_size(v));
        let mut with_tail = e.clone();
        with_tail.extend_from_slice(&[0x80, 0x80]);
        assert_eq!(read_varint(&with_tail).unwrap(), (v, e.len()));
    }
}

#[test]
fn nine_byte_only_from_bit_56() {
    assert_eq!(encode((1u64 << 56) - 1).len(), 8);
    assert_eq!(encode(1u64 << 56).len(), 9);
}

#[test]
fn varint_cut_short() {
    assert!(read_varint(&[]).is_err());
    assert!(read_varint(&[0x81]).is_err());
    assert!(read_varint(&[0xFF; 8]).is_err());
}

#[test]
fn write_varint_leaves_rest() {
    let mut buf = [0xEEu8; 12];
    let n = write_varint(&mut buf, 300);
    assert_eq!(n, 2);
    assert_eq!(&buf[..2], &[0x82, 0x2C]);
    assert!(buf[2..].iter().all(|b| *b == 0xEE));
}
