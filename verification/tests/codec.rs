use nson::cursor::Cursor;
use nson::decode::DecodeError;
use nson::encode::EncodeError;
use nson::message::Error;
use nson::{Array, Binary, Message, TimeStamp, Value};

fn s(text: &str) -> String {
    String::from(text)
}

#[test]
fn array_to_vec() {
    let mut array = Array::new();

    array.push(Value::I32(123));
    array.push(Value::String(s("haha")));

    let vec = array.to_bytes().unwrap();

    let array2 = Array::from_bytes(&vec).unwrap();

    assert_eq!(array, array2);
}

#[test]
fn encode() {
    let mut m = Message::new();
    m.insert("aa", Value::String(s("bb")));
    m.insert(
        "cc",
        Value::Array(Array::from_vec(vec![
            Value::I32(1),
            Value::I32(2),
            Value::I32(3),
            Value::I32(4),
        ])),
    );

    let mut buf: Vec<u8> = Vec::new();

    m.encode(&mut buf).unwrap();

    let mut reader = Cursor::new(buf);

    let m2 = Message::decode(&mut reader).unwrap();

    assert_eq!(m, m2);
}

#[test]
fn lib_binary() {
    let byte = vec![1u8, 2, 3, 4];
    let mut msg = Message::new();
    msg.insert("aa", Value::String(s("bb")));
    msg.insert("byte", Value::Binary(Binary(byte.clone())));
    let byte2 = msg.get_binary("byte").unwrap();

    assert_eq!(byte, byte2.0);

    let mut msg2 = Message::new();
    msg2.insert("aa", Value::String(s("bb")));
    msg2.insert("byte", Value::Binary(Binary(byte)));

    assert_eq!(msg, msg2);
}

#[test]
fn map_to_vec() {
    let mut m = Message::new();
    m.insert("aa", Value::String(s("bb")));

    let vec = m.to_bytes().unwrap();

    let m2 = Message::from_bytes(&vec).unwrap();

    assert_eq!(m, m2);
}

#[test]
fn map_extend() {
    let mut m1 = Message::new();
    m1.insert("aa", Value::String(s("bb")));

    let mut m2 = Message::new();
    m2.insert("cc", Value::String(s("dd")));
    m2.extend(m1);

    let mut m3 = Message::new();
    m3.insert("aa", Value::String(s("bb")));
    m3.insert("cc", Value::String(s("dd")));

    // same keys and values; insertion order differs by construction
    assert_eq!(m2.get_str("aa").unwrap(), "bb");
    assert_eq!(m2.get_str("cc").unwrap(), "dd");
    assert_eq!(m2.len(), m3.len());
}

#[test]
fn message_to_vec() {
    let mut m = Message::new();
    m.insert("aa", Value::String(s("bb")));

    let vec = m.to_bytes().unwrap();

    let m2 = Message::from_bytes(&vec).unwrap();

    assert_eq!(m, m2);
}

#[test]
fn message_extend() {
    let mut m1 = Message::new();
    m1.insert("aa", Value::String(s("bb")));

    let mut m2 = Message::new();
    m2.insert("cc", Value::String(s("dd")));
    m2.extend(m1);

    assert_eq!(m2.get_str("aa").unwrap(), "bb");
    assert_eq!(m2.get_str("cc").unwrap(), "dd");
    assert_eq!(m2.len(), 2);
}

#[test]
fn size_bytes() {
    let mut msg = Message::new();
    msg.insert("a", Value::F32(1.0f32.to_bits()));
    msg.insert("b", Value::F64(2.1f64.to_bits()));
    msg.insert("c", Value::I32(3));
    msg.insert("d", Value::I64(4));
    msg.insert("e", Value::U32(5));
    msg.insert("f", Value::U64(6));
    msg.insert("g", Value::String(s("hello")));
    msg.insert(
        "h",
        Value::Array(Array::from_vec(vec![Value::I32(1), Value::I32(2)])),
    );
    let mut inner = Message::new();
    inner.insert("j", Value::I32(7));
    msg.insert("i", Value::Message(inner));
    msg.insert("k", Value::Bool(true));
    msg.insert("l", Value::Null);
    msg.insert("m", Value::Binary(Binary(vec![0u8, 1, 2, 4])));
    msg.insert("n", Value::TimeStamp(TimeStamp(1)));
    msg.insert("o", Value::Id(nson::Id::new_raw(123, 45, 678)));

    assert_eq!(msg.to_bytes().unwrap().len(), msg.bytes_size());
}

// a key of 254 bytes is accepted; a key of 255 bytes, or an empty key, is
// rejected by the encoder with the key-length error
#[test]
fn key_length_boundary() {
    let key_254 = "k".repeat(254);
    let mut m = Message::new();
    m.insert(&key_254, Value::I32(1));
    let bytes = m.to_bytes().unwrap();
    let m2 = Message::from_bytes(&bytes).unwrap();
    assert_eq!(m, m2);

    let key_255 = "k".repeat(255);
    let mut m = Message::new();
    m.insert(&key_255, Value::I32(1));
    assert!(matches!(m.to_bytes(), Err(EncodeError::InvalidKeyLen(255))));

    let mut m = Message::new();
    m.insert("", Value::I32(1));
    assert!(matches!(m.to_bytes(), Err(EncodeError::InvalidKeyLen(0))));
}

// a declared container length below the minimum or above the maximum is
// rejected with a length error before anything else is read
#[test]
fn length_bound_rejection() {
    // map payload declaring length 3 (below the minimum of 5)
    let buf = [3u8, 0, 0, 0, 0];
    assert_eq!(
        Message::from_bytes(&buf),
        Err(DecodeError::InvalidLength(3))
    );

    // map payload declaring length beyond 64 MiB
    let buf = [0u8, 0, 0, 0x05, 0];
    assert_eq!(
        Message::from_bytes(&buf),
        Err(DecodeError::InvalidLength(0x05_00_00_00))
    );

    // the same bounds guard a string payload
    let buf = [0x21u8, 3, 0, 0, 0];
    assert_eq!(
        Value::from_bytes(&buf),
        Err(DecodeError::InvalidLength(3))
    );
}

// a leading byte outside the wire table fails with the unrecognized-tag
// error
#[test]
fn tag_rejection() {
    let buf = [0x7Fu8, 1, 2, 3];
    assert_eq!(
        Value::from_bytes(&buf),
        Err(DecodeError::UnrecognizedElementType(0x7F))
    );
}

// scenario: a map {"a": 1 (32-bit), "b": "hi"} keeps key order and values
// through a round trip
#[test]
fn scenario_map_round_trip() {
    let mut m = Message::new();
    m.insert("a", Value::I32(1));
    m.insert("b", Value::String(s("hi")));

    let bytes = m.to_bytes().unwrap();
    let m2 = Message::from_bytes(&bytes).unwrap();

    assert_eq!(m, m2);
    let (k0, v0) = m2.get_index(0).unwrap();
    assert_eq!(k0.as_str(), "a");
    assert_eq!(v0, &Value::I32(1));
    let (k1, v1) = m2.get_index(1).unwrap();
    assert_eq!(k1.as_str(), "b");
    assert_eq!(v1, &Value::String(s("hi")));
}

// scenario: mixed-width integers keep their width-tagged variants through
// a round trip, with no promotion or demotion
#[test]
fn scenario_mixed_width_integers() {
    let arr = Array::from_vec(vec![Value::I8(1), Value::U8(200), Value::I16(-1000)]);
    let bytes = arr.to_bytes().unwrap();
    let arr2 = Array::from_bytes(&bytes).unwrap();
    assert_eq!(arr, arr2);
    assert_eq!(arr2.get(0).unwrap(), &Value::I8(1));
    assert_eq!(arr2.get(1).unwrap(), &Value::U8(200));
    assert_eq!(arr2.get(2).unwrap(), &Value::I16(-1000));
}

// scenario: an empty map and an empty array encode to the minimal
// five-byte form
#[test]
fn scenario_minimal_buffers() {
    let empty_map = Message::new();
    let empty_array = Array::new();
    let map_bytes = empty_map.to_bytes().unwrap();
    let array_bytes = empty_array.to_bytes().unwrap();
    assert_eq!(map_bytes, vec![5u8, 0, 0, 0, 0]);
    assert_eq!(array_bytes, vec![5u8, 0, 0, 0, 0]);
    assert_eq!(empty_map.bytes_size(), 5);
    assert_eq!(empty_array.bytes_size(), 5);
}

// typed accessors distinguish an absent key from one of another kind
#[test]
fn accessor_errors() {
    let mut m = Message::new();
    m.insert("n", Value::I32(7));
    assert_eq!(m.get_i32("n"), Ok(7));
    assert_eq!(m.get_u32("n"), Err(Error::UnexpectedType));
    assert_eq!(m.get_i32("missing"), Err(Error::NotPresent));
    assert!(!m.contains_key("missing"));
    assert!(m.contains_key("n"));
}

// inserting an existing key replaces the value in place and keeps the
// entry's position; removing shifts or swaps as asked
#[test]
fn insert_replaces_in_place() {
    let mut m = Message::new();
    m.insert("x", Value::I32(1));
    m.insert("y", Value::I32(2));
    let old = m.insert("x", Value::I32(9));
    assert_eq!(old, Some(Value::I32(1)));
    assert_eq!(m.len(), 2);
    let (k0, v0) = m.get_index(0).unwrap();
    assert_eq!(k0.as_str(), "x");
    assert_eq!(v0, &Value::I32(9));

    assert_eq!(m.shift_remove("x"), Some(Value::I32(9)));
    assert_eq!(m.get_index_of("y"), Some(0));
    assert_eq!(m.remove("nope"), None);
}

// a truncated buffer fails with the end-of-input error
#[test]
fn truncated_input() {
    let mut m = Message::new();
    m.insert("a", Value::I64(77));
    let bytes = m.to_bytes().unwrap();
    let cut = &bytes[..bytes.len() - 3];
    assert_eq!(Message::from_bytes(cut), Err(DecodeError::UnexpectedEof));

    let empty: [u8; 0] = [];
    assert_eq!(Value::from_bytes(&empty), Err(DecodeError::UnexpectedEof));
}

// a string payload that is not UTF-8 fails with the UTF-8 error
#[test]
fn invalid_utf8_rejected() {
    // string value: tag, total length 6 (4 + 2 payload bytes), bad bytes
    let buf = [0x21u8, 6, 0, 0, 0, 0xFF, 0xFE];
    assert_eq!(Value::from_bytes(&buf), Err(DecodeError::FromUtf8Error));
}

// trailing bytes after a complete value are ignored, as a cursor tracks
// the consumed prefix
#[test]
fn cursor_positions() {
    let mut m = Message::new();
    m.insert("k", Value::Bool(true));
    let mut bytes = m.to_bytes().unwrap();
    let total = bytes.len() as u64;
    bytes.extend_from_slice(&[9, 9, 9]);

    let mut reader = Cursor::new(bytes);
    assert_eq!(reader.position(), 0);
    let m2 = Message::decode(&mut reader).unwrap();
    assert_eq!(m, m2);
    assert_eq!(reader.position(), total);
    assert!(!reader.is_empty());
    assert_eq!(reader.remaining_slice(), &[9, 9, 9]);
    reader.set_position(total + 3);
    assert!(reader.is_empty());
}

// a payload whose length field cannot be decoded again is refused by the
// encoder rather than written corrupt
#[test]
fn oversized_payload_rejected() {
    let big = vec![0u8; 64 * 1024 * 1024];
    let v = Value::Binary(Binary(big));
    assert!(matches!(v.to_bytes(), Err(EncodeError::TooLarge)));

    // one byte less fits exactly
    let edge = vec![0u8; 64 * 1024 * 1024 - 4];
    let v = Value::Binary(Binary(edge));
    let bytes = v.to_bytes().unwrap();
    assert_eq!(bytes.len(), 64 * 1024 * 1024 + 1);
}
