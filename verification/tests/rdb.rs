use redis_lite::rdb::{
    canonical_snapshot, decode_expiration_time, decode_key, decode_length, decode_string,
    KeyType, LengthCode, OperationCode, RdbReason, RDB,
};

#[test]
fn canonical_snapshot_matches_its_hex_form() {
    let expected = hex::decode(
        "524544495330303131fa0972656469732d76657205372e322e30fa0a72656469732d62697473c040fa0563\
         74696d65c26d08bc65fa08757365642d6d656dc2b0c41000fa08616f662d62617365c000fff06e3bfec0ff\
         5aa2",
    )
    .expect("valid hex");
    assert_eq!(canonical_snapshot(), expected);
    assert_eq!(canonical_snapshot().len(), 88);
}

#[test]
fn canonical_snapshot_parses_to_one_empty_database() {
    let rdb = RDB::new(Some(canonical_snapshot()));
    let dbs = rdb.load(0).expect("a clean parse");
    assert_eq!(dbs.len(), 1);
    assert_eq!(dbs[0].db_id(), 0);
    assert!(dbs[0].keys().is_empty());
}

#[test]
fn missing_or_empty_file_yields_a_fresh_database() {
    let dbs = RDB::new(None).load(0).expect("fresh");
    assert_eq!(dbs.len(), 1);
    assert_eq!(dbs[0].db_id(), 0);
    let dbs = RDB::new(Some(Vec::new())).load(0).expect("fresh");
    assert_eq!(dbs.len(), 1);
}

#[test]
fn bad_header_is_refused() {
    let e = RDB::new(Some(b"NOTRD0011\xff".to_vec())).load(0).unwrap_err();
    assert_eq!(e.offset, 0);
    assert_eq!(e.reason, RdbReason::BadHeader);
    let e = RDB::new(Some(b"REDIS".to_vec())).load(0).unwrap_err();
    assert_eq!(e.reason, RdbReason::BadHeader);
}

fn snapshot_with(body: &[u8]) -> Vec<u8> {
    let mut data = b"REDIS0011".to_vec();
    data.extend_from_slice(body);
    data
}

#[test]
fn a_string_entry_is_loaded() {
    // SELECTDB 0, then key "foo" -> "bar", then EOF
    let mut dbs = RDB::new(Some(snapshot_with(b"\xfe\x00\x00\x03foo\x03bar\xff")))
        .load(0)
        .expect("parses");
    assert_eq!(dbs.len(), 1);
    let db = &mut dbs[0];
    let got = db.get(b"foo", 0).expect("present");
    assert_eq!(got.0, b"bar".to_vec());
    assert_eq!(got.1, None);
}

#[test]
fn an_expired_entry_is_dropped_and_a_live_one_kept() {
    // 0xFC: expiry in ms, little endian; key "a" expires at 500, "b" at 5000
    let mut body = Vec::new();
    body.extend_from_slice(b"\xfe\x00");
    body.extend_from_slice(b"\xfc\xf4\x01\x00\x00\x00\x00\x00\x00\x00\x01a\x011");
    body.extend_from_slice(b"\xfc\x88\x13\x00\x00\x00\x00\x00\x00\x00\x01b\x012");
    body.extend_from_slice(b"\xff");
    let mut dbs = RDB::new(Some(snapshot_with(&body))).load(1000).expect("parses");
    let db = &mut dbs[0];
    assert!(db.get(b"a", 1000).is_none());
    let got = db.get(b"b", 1000).expect("still live");
    assert_eq!(got.0, b"2".to_vec());
    assert_eq!(got.1, Some(5000));
}

#[test]
fn truncated_sections_name_their_offset() {
    // a key entry whose value runs past the end
    let data = snapshot_with(b"\xfe\x00\x00\x03foo\x09ba");
    let e = RDB::new(Some(data)).load(0).unwrap_err();
    assert_eq!(e.reason, RdbReason::Truncated);
    // bytes end with no EOF opcode at all
    let e = RDB::new(Some(snapshot_with(b"\xfe\x00"))).load(0).unwrap_err();
    assert_eq!(e.reason, RdbReason::Truncated);
}

#[test]
fn lzf_strings_are_refused_with_a_clear_error() {
    // special string subtype 3 is LZF compression
    let data = snapshot_with(b"\xfe\x00\x00\x03foo\xc3abc\xff");
    let e = RDB::new(Some(data)).load(0).unwrap_err();
    assert_eq!(e.reason, RdbReason::UnsupportedString);
}

#[test]
fn an_unknown_entry_byte_is_a_bad_opcode() {
    // 0x42 is neither a section opcode nor a known value type
    let data = snapshot_with(b"\xfe\x00\x42\x03foo\x03bar\xff");
    let e = RDB::new(Some(data)).load(0).unwrap_err();
    assert_eq!(e.reason, RdbReason::BadOpcode);
}

#[test]
fn non_string_value_types_are_refused() {
    let data = snapshot_with(b"\xfe\x00\x04\x03foo\x03bar\xff");
    let e = RDB::new(Some(data)).load(0).unwrap_err();
    assert_eq!(e.reason, RdbReason::UnsupportedType);
}

#[test]
fn length_encodings() {
    // top bits 00: the low six bits
    assert_eq!(decode_length(b"\x0a", 0).unwrap(), (LengthCode::Plain(10), 1));
    // top bits 01: fourteen bits over two bytes
    assert_eq!(decode_length(b"\x42\x05", 0).unwrap(), (LengthCode::Plain(0x205), 2));
    // top bits 10: a four-byte big-endian length
    assert_eq!(
        decode_length(b"\x80\x00\x01\x02\x03", 0).unwrap(),
        (LengthCode::Plain(0x10203), 5)
    );
    // top bits 11: a special string encoding
    assert_eq!(decode_length(b"\xc2", 0).unwrap(), (LengthCode::Special(2), 1));
    assert!(decode_length(b"", 0).is_err());
    assert!(decode_length(b"\x42", 0).is_err());
}

#[test]
fn string_encodings() {
    assert_eq!(decode_string(b"\x03abc", 0).unwrap(), (b"abc".to_vec(), 4));
    // integers-as-strings render in decimal
    assert_eq!(decode_string(b"\xc0\x40", 0).unwrap(), (b"64".to_vec(), 2));
    assert_eq!(decode_string(b"\xc1\x39\x30", 0).unwrap(), (b"12345".to_vec(), 3));
    assert_eq!(
        decode_string(b"\xc2\xb0\xc4\x10\x00", 0).unwrap(),
        (b"1098928".to_vec(), 5)
    );
    assert!(decode_string(b"\x05ab", 0).is_err());
}

#[test]
fn expiry_markers() {
    // no marker consumes nothing
    assert_eq!(decode_expiration_time(b"\x00abc", 0).unwrap(), (None, 0));
    // 0xFD: seconds, little endian, scaled to ms
    assert_eq!(
        decode_expiration_time(b"\xfd\x02\x00\x00\x00", 0).unwrap(),
        (Some(2000), 5)
    );
    // 0xFC: milliseconds, little endian
    assert_eq!(
        decode_expiration_time(b"\xfc\xe8\x03\x00\x00\x00\x00\x00\x00", 0).unwrap(),
        (Some(1000), 9)
    );
    assert!(decode_expiration_time(b"\xfd\x02", 0).is_err());
}

#[test]
fn key_entries() {
    let ((k, v, e), used) = decode_key(b"\x00\x03foo\x03bar", 0).unwrap();
    assert_eq!(k, b"foo".to_vec());
    assert_eq!(v, b"bar".to_vec());
    assert_eq!(e, None);
    assert_eq!(used, 9);
    let ((k, _, e), _) = decode_key(b"\xfd\x01\x00\x00\x00\x00\x01a\x01b", 0).unwrap();
    assert_eq!(k, b"a".to_vec());
    assert_eq!(e, Some(1000));
}

#[test]
fn byte_codes_of_the_format() {
    assert_eq!(OperationCode::from_byte(0xFF), Some(OperationCode::Eof));
    assert_eq!(OperationCode::from_byte(0xFE), Some(OperationCode::SelectDb));
    assert_eq!(OperationCode::from_byte(0xFB), Some(OperationCode::ResizeDb));
    assert_eq!(OperationCode::from_byte(0xFA), Some(OperationCode::Aux));
    assert_eq!(OperationCode::from_byte(0x42), None);
    assert_eq!(KeyType::from_byte(0x00), Some(KeyType::StringValue));
    assert_eq!(KeyType::from_byte(0x0E), Some(KeyType::ListQuickList));
    assert_eq!(KeyType::from_byte(0x42), None);
}
