use limbo_storage::record::{read_record, serialize_record, ImmutableRecord, SmallVec};
use limbo_storage::value::Value;

#[test]
fn record_null_int_text() {
    let values = vec![Value::Null, Value::Integer(42), Value::Text(b"hi".to_vec())];
    let bytes = serialize_record(&values);
    assert_eq!(bytes, vec![0x04, 0x00, 0x01, 0x11, 0x2A, 0x68, 0x69]);
    let mut rec = ImmutableRecord::new();
    read_record(&bytes, &mut rec).unwrap();
    assert_eq!(rec.values, values);
    assert_eq!(rec.payload, bytes);
}

#[test]
fn record_with_four_byte_integer_tag() {
    let bytes = [0x04, 0x00, 0x04, 0x11, 0x00, 0x00, 0x00, 0x2A, 0x68, 0x69];
    let mut rec = ImmutableRecord::new();
    read_record(&bytes, &mut rec).unwrap();
    assert_eq!(
        rec.values,
        vec![Value::Null, Value::Integer(42), Value::Text(b"hi".to_vec())]
    );
}

#[test]
fn record_round_trip_many_columns() {
    let mut values = Vec::new();
    for i in 0..100i64 {
        values.push(match i % 5 {
            0 => Value::Null,
            1 => Value::Integer(i * 1_000_003 - 7),
            2 => Value::Float((i as f64 / 3.0).to_bits()),
            3 => Value::Blob(vec![i as u8; (i % 7) as usize]),
            _ => Value::Text(format!("row {i} it's").into_bytes()),
        });
    }
    let bytes = serialize_record(&values);
    let mut rec = ImmutableRecord::new();
    rec.values.push(Value::Integer(99));
    read_record(&bytes, &mut rec).unwrap();
    assert_eq!(rec.values, values);
}

#[test]
fn record_large_header_size_varint() {
    let values: Vec<Value> = (0..200).map(|i| Value::Integer(1000 + i)).collect();
    let bytes = serialize_record(&values);
    // 200 two-byte tags and a two-byte header size.
    assert_eq!(&bytes[..2], &[0x81, 0x4A]);
    let mut rec = ImmutableRecord::new();
    read_record(&bytes, &mut rec).unwrap();
    assert_eq!(rec.values, values);
}

#[test]
fn empty_record() {
    let bytes = serialize_record(&Vec::new());
    assert_eq!(bytes, vec![0x01]);
    let mut rec = ImmutableRecord::new();
    read_record(&bytes, &mut rec).unwrap();
    assert!(rec.values.is_empty());
}

#[test]
fn record_errors() {
    let mut rec = ImmutableRecord::new();
    // Empty payload.
    assert!(read_record(&[], &mut rec).is_err());
    // Header size smaller than its own varint.
    assert!(read_record(&[0x00], &mut rec).is_err());
    // Invalid serial type 10.
    assert!(read_record(&[0x02, 0x0A], &mut rec).is_err());
    // A serial-type varint that crosses the header end.
    assert!(read_record(&[0x02, 0x81, 0x01], &mut rec).is_err());
    // A value cut short.
    assert!(read_record(&[0x02, 0x04, 0x00, 0x01], &mut rec).is_err());
}

#[test]
fn small_vec_spills() {
    let mut v: SmallVec<u64> = SmallVec::new();
    for i in 0..100u64 {
        v.push(i);
    }
    assert_eq!(v.len, 100);
    assert_eq!(v.data.len(), 64);
    assert_eq!(v.extra_data.as_ref().unwrap().len(), 36);
    for i in 0..100usize {
        assert_eq!(v.get(i), i as u64);
    }
}
