use limbo_storage::serial::{
    validate_serial_type, SerialTypeExt, SERIAL_TYPE_BEFLOAT64, SERIAL_TYPE_BEINT16,
    SERIAL_TYPE_BEINT24, SERIAL_TYPE_BEINT32, SERIAL_TYPE_BEINT48, SERIAL_TYPE_BEINT64,
    SERIAL_TYPE_CONSTINT0, SERIAL_TYPE_CONSTINT1, SERIAL_TYPE_INT8, SERIAL_TYPE_NULL,
};
use limbo_storage::value::{read_value, serial_type_of, write_value, Value};

#[test]
fn test_serial_type_helpers() {
    assert!(SERIAL_TYPE_NULL.is_null());
    assert!(SERIAL_TYPE_INT8.is_int8());
    assert!(SERIAL_TYPE_BEINT16.is_beint16());
    assert!(SERIAL_TYPE_BEINT24.is_beint24());
    assert!(SERIAL_TYPE_BEINT32.is_beint32());
    assert!(SERIAL_TYPE_BEINT48.is_beint48());
    assert!(SERIAL_TYPE_BEINT64.is_beint64());
    assert!(SERIAL_TYPE_BEFLOAT64.is_befloat64());
    assert!(SERIAL_TYPE_CONSTINT0.is_constint0());
    assert!(SERIAL_TYPE_CONSTINT1.is_constint1());

    assert!(12u64.is_blob());
    assert!(14u64.is_blob());
    assert!(13u64.is_string());
    assert!(15u64.is_string());

    assert_eq!(12u64.blob_size(), 0);
    assert_eq!(14u64.blob_size(), 1);
    assert_eq!(16u64.blob_size(), 2);

    assert_eq!(13u64.string_size(), 0);
    assert_eq!(15u64.string_size(), 1);
    assert_eq!(17u64.string_size(), 2);
}

#[test]
fn test_invalid_serial_type() {
    let result = validate_serial_type(10);
    assert!(result.is_err());
}

#[test]
fn validate_accepts_valid_tags() {
    for t in [0u64, 1, 2, 3, 4, 5, 6, 7, 8, 9, 12, 13, 14, 15] {
        assert_eq!(validate_serial_type(t).unwrap(), t);
    }
    assert!(validate_serial_type(11).is_err());
}

fn read(buf: &[u8], t: u64) -> Value {
    read_value(buf, t).unwrap().0
}

#[test]
fn read_value_cases() {
    assert_eq!(read(&[], SERIAL_TYPE_NULL), Value::Null);
    assert_eq!(read(&[255], SERIAL_TYPE_INT8), Value::Integer(-1));
    assert_eq!(read(&[0x12, 0x34], SERIAL_TYPE_BEINT16), Value::Integer(0x1234));
    assert_eq!(read(&[0xFE], SERIAL_TYPE_INT8), Value::Integer(-2));
    assert_eq!(read(&[0x12, 0x34, 0x56], SERIAL_TYPE_BEINT24), Value::Integer(0x123456));
    assert_eq!(read(&[0x12, 0x34, 0x56, 0x78], SERIAL_TYPE_BEINT32), Value::Integer(0x12345678));
    assert_eq!(
        read(&[0x12, 0x34, 0x56, 0x78, 0x9A, 0xBC], SERIAL_TYPE_BEINT48),
        Value::Integer(0x123456789ABC)
    );
    assert_eq!(
        read(&[0x12, 0x34, 0x56, 0x78, 0x9A, 0xBC, 0xDE, 0xFF], SERIAL_TYPE_BEINT64),
        Value::Integer(0x123456789ABCDEFF)
    );
    assert_eq!(
        read(&[0x40, 0x09, 0x21, 0xFB, 0x54, 0x44, 0x2D, 0x18], SERIAL_TYPE_BEFLOAT64),
        Value::Float(std::f64::consts::PI.to_bits())
    );
    assert_eq!(read(&[1, 2], SERIAL_TYPE_CONSTINT0), Value::Integer(0));
    assert_eq!(read(&[65, 66], SERIAL_TYPE_CONSTINT1), Value::Integer(1));
    assert_eq!(read(&[1, 2, 3], 18), Value::Blob(vec![1, 2, 3]));
    assert_eq!(read(&[], 12), Value::Blob(vec![]));
    assert_eq!(read(&[65, 66, 67], 19), Value::Text(b"ABC".to_vec()));
}

#[test]
fn read_value_extremes() {
    assert_eq!(read(&[0x80], SERIAL_TYPE_INT8), Value::Integer(-128));
    assert_eq!(read(&[0x80, 0], SERIAL_TYPE_BEINT16), Value::Integer(-32768));
    assert_eq!(read(&[0x80, 0, 0], SERIAL_TYPE_BEINT24), Value::Integer(-8388608));
    assert_eq!(read(&[0x80, 0, 0, 0], SERIAL_TYPE_BEINT32), Value::Integer(-2147483648));
    assert_eq!(
        read(&[0x80, 0, 0, 0, 0, 0], SERIAL_TYPE_BEINT48),
        Value::Integer(-140737488355328)
    );
    assert_eq!(
        read(&[0x80, 0, 0, 0, 0, 0, 0, 0], SERIAL_TYPE_BEINT64),
        Value::Integer(i64::MIN)
    );
    assert_eq!(read(&[0x7f], SERIAL_TYPE_INT8), Value::Integer(127));
    assert_eq!(read(&[0x7f, 0xff], SERIAL_TYPE_BEINT16), Value::Integer(32767));
    assert_eq!(read(&[0x7f, 0xff, 0xff], SERIAL_TYPE_BEINT24), Value::Integer(8388607));
    assert_eq!(read(&[0x7f, 0xff, 0xff, 0xff], SERIAL_TYPE_BEINT32), Value::Integer(2147483647));
    assert_eq!(
        read(&[0x7f, 0xff, 0xff, 0xff, 0xff, 0xff], SERIAL_TYPE_BEINT48),
        Value::Integer(140737488355327)
    );
    assert_eq!(
        read(&[0x7f, 0xff, 0xff, 0xff, 0xff, 0xff, 0xff, 0xff], SERIAL_TYPE_BEINT64),
        Value::Integer(i64::MAX)
    );
}

#[test]
fn int24_sign_extension() {
    assert_eq!(read_value(&[0x80, 0x00, 0x00], 3).unwrap(), (Value::Integer(-8_388_608), 3));
    assert_eq!(read_value(&[0x7f, 0xff, 0xff], 3).unwrap(), (Value::Integer(8_388_607), 3));
}

#[test]
fn constant_tags_consume_nothing() {
    assert_eq!(read_value(&[], 8).unwrap(), (Value::Integer(0), 0));
    assert_eq!(read_value(&[], 9).unwrap(), (Value::Integer(1), 0));
}

#[test]
fn read_value_errors() {
    assert!(read_value(&[], SERIAL_TYPE_INT8).is_err());
    assert!(read_value(&[1, 2, 3], SERIAL_TYPE_BEINT32).is_err());
    assert!(read_value(&[1, 2, 3, 4, 5, 6, 7], SERIAL_TYPE_BEFLOAT64).is_err());
    assert!(read_value(&[1], 16).is_err());
    assert!(read_value(&[1], 17).is_err());
    assert!(read_value(&[1, 2], 10).is_err());
    assert!(read_value(&[1, 2], 11).is_err());
}

fn round_trip(v: Value) {
    let mut out = vec![0xAA];
    write_value(&v, &mut out);
    out.push(0xBB);
    let t = serial_type_of(&v);
    let (back, n) = read_value(&out[1..], t).unwrap();
    assert_eq!(back, v);
    assert_eq!(n, out.len() - 2);
}

#[test]
fn value_round_trips() {
    for x in [
        0i64,
        1,
        -1,
        127,
        -128,
        128,
        32767,
        -32769,
        8_388_607,
        -8_388_608,
        2_147_483_647,
        -2_147_483_649,
        140_737_488_355_327,
        -140_737_488_355_329,
        i64::MAX,
        i64::MIN,
    ] {
        round_trip(Value::Integer(x));
    }
    round_trip(Value::Null);
    round_trip(Value::Float(2.5f64.to_bits()));
    round_trip(Value::Blob(vec![0, 1, 2, 255]));
    round_trip(Value::Text(b"it's".to_vec()));
    round_trip(Value::Text(vec![]));
}

#[test]
fn narrowest_integer_tags() {
    assert_eq!(serial_type_of(&Value::Integer(0)), 8);
    assert_eq!(serial_type_of(&Value::Integer(1)), 9);
    assert_eq!(serial_type_of(&Value::Integer(2)), 1);
    assert_eq!(serial_type_of(&Value::Integer(-129)), 2);
    assert_eq!(serial_type_of(&Value::Integer(42)), 1);
    assert_eq!(serial_type_of(&Value::Integer(0x80_0000)), 4);
    assert_eq!(serial_type_of(&Value::Integer(0x7f_ffff)), 3);
    assert_eq!(serial_type_of(&Value::Integer(1 << 40)), 5);
    assert_eq!(serial_type_of(&Value::Integer(1 << 47)), 6);
    assert_eq!(serial_type_of(&Value::Text(b"hi".to_vec())), 17);
    assert_eq!(serial_type_of(&Value::Blob(vec![1])), 14);
    let mut out = Vec::new();
    write_value(&Value::Integer(42), &mut out);
    assert_eq!(out, vec![0x2A]);
    let mut out = Vec::new();
    write_value(&Value::Integer(-2), &mut out);
    assert_eq!(out, vec![0xFE]);
}
