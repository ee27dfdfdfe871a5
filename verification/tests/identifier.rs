use nson::id::Error;
use nson::wire::DataType;
use nson::Id;

#[test]
fn hex_round_trip() {
    let id = Id::with_bytes([1, 111, 157, 189, 157, 247, 247, 220, 156, 134, 213, 115]);
    assert_eq!(id.to_hex(), "016f9dbd9df7f7dc9c86d573");

    let back = Id::with_string("016f9dbd9df7f7dc9c86d573").unwrap();
    assert_eq!(back, id);

    // an optional 0x prefix and uppercase digits are accepted
    let prefixed = Id::with_string("0x016F9DBD9DF7F7DC9C86D573").unwrap();
    assert_eq!(prefixed, id);
}

#[test]
fn with_string_errors() {
    // not hex at all
    assert_eq!(Id::with_string("zz"), Err(Error::FromHexError));
    // odd number of digits
    assert_eq!(Id::with_string("abc"), Err(Error::FromHexError));
    // valid hex, wrong length
    assert_eq!(Id::with_string("abcd"), Err(Error::ArgumentError));
}

#[test]
fn raw_layout() {
    let id = Id::new_raw(0x0102_0304_0506, 0x0708, 0x090A_0B0C);
    assert_eq!(
        id.bytes(),
        [1, 2, 3, 4, 5, 6, 7, 8, 9, 0x0A, 0x0B, 0x0C]
    );
    assert_eq!(id.timestamp(), 0x0102_0304_0506);

    assert!(Id::zero().is_zero());
    assert!(!id.is_zero());
}

#[test]
fn wire_table() {
    assert_eq!(DataType::from(0x01), Some(DataType::Bool));
    assert_eq!(DataType::from(0x13), Some(DataType::I32));
    assert_eq!(DataType::from(0x21), Some(DataType::String));
    assert_eq!(DataType::from(0x32), Some(DataType::Message));
    assert_eq!(DataType::from(0x42), Some(DataType::Id));
    assert_eq!(DataType::from(0x00), None);
    assert_eq!(DataType::from(0x7F), None);
    assert_eq!(DataType::Id.tag(), 0x42);
}
