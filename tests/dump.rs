use limbo_storage::dump::{sql_blob_literal, sql_text_literal};

#[test]
fn text_literals_double_quotes() {
    assert_eq!(sql_text_literal(b"hello"), b"'hello'".to_vec());
    assert_eq!(sql_text_literal(b"it's"), b"'it''s'".to_vec());
    assert_eq!(sql_text_literal(b"''"), b"''''''".to_vec());
    assert_eq!(sql_text_literal(b""), b"''".to_vec());
}

#[test]
fn blob_literals_in_hex() {
    assert_eq!(sql_blob_literal(&[0x00, 0x1f, 0xab, 0xff]), b"X'001fabff'".to_vec());
    assert_eq!(sql_blob_literal(&[]), b"X''".to_vec());
}
