use nson::bridge::{from_nson, to_nson, Datum, Shape};
use nson::{Array, Message, Value};

fn s(text: &str) -> String {
    String::from(text)
}

#[test]
fn test_u8_encode_decode() {
    let original = Value::U8(42);
    let bytes = original.to_bytes().unwrap();
    let decoded = Value::from_bytes(&bytes).unwrap();

    assert_eq!(original, decoded);
    if let Value::U8(v) = decoded {
        assert_eq!(v, 42);
    } else {
        panic!("Decoded value is not U8");
    }
}

#[test]
fn test_u16_encode_decode() {
    let original = Value::U16(1234);
    let bytes = original.to_bytes().unwrap();
    let decoded = Value::from_bytes(&bytes).unwrap();

    assert_eq!(original, decoded);
    if let Value::U16(v) = decoded {
        assert_eq!(v, 1234);
    } else {
        panic!("Decoded value is not U16");
    }
}

#[test]
fn test_i8_encode_decode() {
    let original = Value::I8(-42);
    let bytes = original.to_bytes().unwrap();
    let decoded = Value::from_bytes(&bytes).unwrap();

    assert_eq!(original, decoded);
    if let Value::I8(v) = decoded {
        assert_eq!(v, -42);
    } else {
        panic!("Decoded value is not I8");
    }
}

#[test]
fn test_i16_encode_decode() {
    let original = Value::I16(-1234);
    let bytes = original.to_bytes().unwrap();
    let decoded = Value::from_bytes(&bytes).unwrap();

    assert_eq!(original, decoded);
    if let Value::I16(v) = decoded {
        assert_eq!(v, -1234);
    } else {
        panic!("Decoded value is not I16");
    }
}

#[test]
fn test_map_with_extended_types() {
    let mut original = Message::new();
    original.insert("vendor_id", Value::U16(0x1234));
    original.insert("product_id", Value::U16(0x5678));
    original.insert("level", Value::U8(128));
    original.insert("offset", Value::I8(-10));
    original.insert("temperature", Value::I16(2350));
    original.insert("humidity", Value::U8(65));

    let bytes = original.to_bytes().unwrap();
    let decoded = Message::from_bytes(&bytes).unwrap();

    assert_eq!(original, decoded);

    assert_eq!(decoded.get_u16("vendor_id").unwrap(), 0x1234);
    assert_eq!(decoded.get_u16("product_id").unwrap(), 0x5678);
    assert_eq!(decoded.get_u8("level").unwrap(), 128);
    assert_eq!(decoded.get_i8("offset").unwrap(), -10);
    assert_eq!(decoded.get_i16("temperature").unwrap(), 2350);
    assert_eq!(decoded.get_u8("humidity").unwrap(), 65);
}

#[test]
fn test_array_with_extended_types() {
    let original = Array::from_vec(vec![
        Value::U8(10),
        Value::U16(1000),
        Value::I8(-5),
        Value::I16(-500),
    ]);

    let bytes = original.to_bytes().unwrap();
    let decoded = Array::from_bytes(&bytes).unwrap();

    assert_eq!(original, decoded);
    assert_eq!(decoded.len(), 4);

    assert_eq!(decoded.get(0).unwrap().as_u8(), Some(10));
    assert_eq!(decoded.get(1).unwrap().as_u16(), Some(1000));
    assert_eq!(decoded.get(2).unwrap().as_i8(), Some(-5));
    assert_eq!(decoded.get(3).unwrap().as_i16(), Some(-500));
}

#[test]
fn test_boundary_values() {
    let test_cases = vec![
        ("u8_min", Value::U8(u8::MIN)),
        ("u8_max", Value::U8(u8::MAX)),
        ("u16_min", Value::U16(u16::MIN)),
        ("u16_max", Value::U16(u16::MAX)),
        ("i8_min", Value::I8(i8::MIN)),
        ("i8_max", Value::I8(i8::MAX)),
        ("i16_min", Value::I16(i16::MIN)),
        ("i16_max", Value::I16(i16::MAX)),
    ];

    for (name, value) in test_cases {
        let bytes = value.to_bytes().unwrap();
        let decoded = Value::from_bytes(&bytes).unwrap();
        assert_eq!(value, decoded, "Failed for {}", name);
    }
}

#[test]
fn test_mixed_types_in_map() {
    let mut map = Message::new();
    map.insert("i8", Value::I8(-128));
    map.insert("u8", Value::U8(255));
    map.insert("i16", Value::I16(-32768));
    map.insert("u16", Value::U16(65535));
    map.insert("i32", Value::I32(-2147483648));
    map.insert("u32", Value::U32(4294967295));
    map.insert("i64", Value::I64(-9223372036854775808));
    map.insert("u64", Value::U64(18446744073709551615));
    map.insert("f32", Value::F32(3.14159f32.to_bits()));
    map.insert("f64", Value::F64(2.718281828f64.to_bits()));
    map.insert("bool", Value::Bool(true));
    map.insert("string", Value::String(s("test")));
    map.insert("null", Value::Null);

    let bytes = map.to_bytes().unwrap();
    let decoded = Message::from_bytes(&bytes).unwrap();

    assert_eq!(map, decoded);

    assert_eq!(decoded.get_i8("i8").unwrap(), -128);
    assert_eq!(decoded.get_u8("u8").unwrap(), 255);
    assert_eq!(decoded.get_i16("i16").unwrap(), -32768);
    assert_eq!(decoded.get_u16("u16").unwrap(), 65535);
    assert_eq!(decoded.get_i32("i32").unwrap(), -2147483648);
    assert_eq!(decoded.get_u32("u32").unwrap(), 4294967295);
    assert_eq!(decoded.get_i64("i64").unwrap(), -9223372036854775808);
    assert_eq!(decoded.get_u64("u64").unwrap(), 18446744073709551615);
    assert_eq!(decoded.get_f32("f32").unwrap(), 3.14159f32.to_bits());
    assert_eq!(decoded.get_f64("f64").unwrap(), 2.718281828f64.to_bits());
    assert_eq!(decoded.get_bool("bool").unwrap(), true);
    assert_eq!(decoded.get_str("string").unwrap(), "test");
    assert!(decoded.is_null("null"));
}

#[test]
fn test_nested_structure_with_new_types() {
    let mut reading0 = Message::new();
    reading0.insert("sensor", Value::U8(0));
    reading0.insert("value", Value::I16(2350));
    let mut reading1 = Message::new();
    reading1.insert("sensor", Value::U8(1));
    reading1.insert("value", Value::I16(1890));

    let mut device = Message::new();
    device.insert("id", Value::U16(42));
    device.insert("status", Value::U8(1));
    device.insert(
        "readings",
        Value::Array(Array::from_vec(vec![
            Value::Message(reading0),
            Value::Message(reading1),
        ])),
    );

    let mut map = Message::new();
    map.insert("device", Value::Message(device));

    let bytes = map.to_bytes().unwrap();
    let decoded = Message::from_bytes(&bytes).unwrap();

    assert_eq!(map, decoded);

    let device = decoded.get_message("device").unwrap();
    assert_eq!(device.get_u16("id").unwrap(), 42);
    assert_eq!(device.get_u8("status").unwrap(), 1);

    let readings = device.get_array("readings").unwrap();
    assert_eq!(readings.len(), 2);
}

#[test]
fn test_type_size() {
    assert_eq!(Value::I8(0).bytes_size(), 1);
    assert_eq!(Value::U8(0).bytes_size(), 1);
    assert_eq!(Value::I16(0).bytes_size(), 2);
    assert_eq!(Value::U16(0).bytes_size(), 2);
    assert_eq!(Value::I32(0).bytes_size(), 4);
    assert_eq!(Value::U32(0).bytes_size(), 4);
    assert_eq!(Value::I64(0).bytes_size(), 8);
    assert_eq!(Value::U64(0).bytes_size(), 8);
}

#[test]
fn test_value_accessors() {
    let value_i8 = Value::I8(-42);
    let value_u8 = Value::U8(200);
    let value_i16 = Value::I16(-1000);
    let value_u16 = Value::U16(50000);

    assert_eq!(value_i8.as_i8(), Some(-42));
    assert_eq!(value_u8.as_u8(), Some(200));
    assert_eq!(value_i16.as_i16(), Some(-1000));
    assert_eq!(value_u16.as_u16(), Some(50000));

    assert_eq!(value_i8.as_u8(), None);
    assert_eq!(value_u16.as_i16(), None);
}

#[test]
fn test_serde_with_extended_types() {
    let config = Datum::Struct(vec![
        (s("vendor_id"), Datum::U16(0x1234)),
        (s("product_id"), Datum::U16(0x5678)),
        (s("brightness"), Datum::U8(128)),
        (s("offset"), Datum::I8(-10)),
        (s("temperature"), Datum::I16(2350)),
    ]);
    let shape = Shape::Struct(vec![
        (s("vendor_id"), Shape::U16),
        (s("product_id"), Shape::U16),
        (s("brightness"), Shape::U8),
        (s("offset"), Shape::I8),
        (s("temperature"), Shape::I16),
    ]);

    let value = to_nson(&config).unwrap();
    let bytes = value.to_bytes().unwrap();
    let value2 = Value::from_bytes(&bytes).unwrap();
    let decoded = from_nson(&shape, &value2).unwrap();

    assert_eq!(config, decoded);
}
