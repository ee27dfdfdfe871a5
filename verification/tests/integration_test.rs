use nson::{Array, Binary, Id, Message, TimeStamp, Value};

fn s(text: &str) -> String {
    String::from(text)
}

#[test]
fn test_complete_encode_decode() {
    let mid = Id::new_raw(1700000000123, 45, 678);

    let mut inner = Message::new();
    inner.insert("d", Value::F64(789.789f64.to_bits()));

    let mut original = Message::new();
    original.insert("a", Value::F32(123.123f32.to_bits()));
    original.insert("b", Value::F64(456.456f64.to_bits()));
    original.insert("c", Value::Message(inner));
    original.insert("e", Value::I32(1));
    original.insert("f", Value::I64(2));
    original.insert("g", Value::U32(3));
    original.insert("h", Value::U64(4));
    original.insert("i", Value::String(s("aaa")));
    original.insert(
        "j",
        Value::Array(Array::from_vec(vec![
            Value::F32(666.777f32.to_bits()),
            Value::String(s("hello")),
        ])),
    );
    original.insert("k", Value::Bool(false));
    original.insert("l", Value::Null);
    original.insert("m", Value::Binary(Binary(vec![1u8, 2, 3, 4, 5, 6])));
    original.insert("n", Value::TimeStamp(TimeStamp(12345)));
    original.insert("p", Value::Id(mid));
    original.insert("q", Value::I8(10));
    original.insert("r", Value::U8(200));
    original.insert("s", Value::I16(-1000));
    original.insert("t", Value::U16(50000));

    let bytes = original.to_bytes().unwrap();
    let decoded = Message::from_bytes(&bytes).unwrap();

    assert_eq!(original, decoded);

    assert_eq!(decoded.get_f32("a").unwrap(), 123.123f32.to_bits());
    assert_eq!(decoded.get_f64("b").unwrap(), 456.456f64.to_bits());
    assert_eq!(decoded.get_i32("e").unwrap(), 1);
    assert_eq!(decoded.get_i64("f").unwrap(), 2);
    assert_eq!(decoded.get_u32("g").unwrap(), 3);
    assert_eq!(decoded.get_u64("h").unwrap(), 4);
    assert_eq!(decoded.get_str("i").unwrap(), "aaa");
    assert_eq!(decoded.get_bool("k").unwrap(), false);
    assert!(decoded.is_null("l"));
    assert_eq!(decoded.get_timestamp("n").unwrap(), &TimeStamp(12345));
    assert_eq!(decoded.get_id("p").unwrap(), &mid);
    assert_eq!(decoded.get_i8("q").unwrap(), 10);
    assert_eq!(decoded.get_u8("r").unwrap(), 200);
    assert_eq!(decoded.get_i16("s").unwrap(), -1000);
    assert_eq!(decoded.get_u16("t").unwrap(), 50000);
}

#[test]
fn test_nested_structures() {
    let mut level3 = Message::new();
    level3.insert("value", Value::U16(42));
    level3.insert("name", Value::String(s("deep")));
    let mut level2 = Message::new();
    level2.insert("level3", Value::Message(level3));
    let mut level1 = Message::new();
    level1.insert("level2", Value::Message(level2));

    let mut item1 = Message::new();
    item1.insert("id", Value::U8(1));
    item1.insert("name", Value::String(s("first")));
    let mut item2 = Message::new();
    item2.insert("id", Value::U8(2));
    item2.insert("name", Value::String(s("second")));
    let mut item3 = Message::new();
    item3.insert("id", Value::U8(3));
    item3.insert("name", Value::String(s("third")));

    let mut data = Message::new();
    data.insert("level1", Value::Message(level1));
    data.insert(
        "array",
        Value::Array(Array::from_vec(vec![
            Value::Message(item1),
            Value::Message(item2),
            Value::Message(item3),
        ])),
    );

    let bytes = data.to_bytes().unwrap();
    let decoded = Message::from_bytes(&bytes).unwrap();

    assert_eq!(data, decoded);

    let level1 = decoded.get_message("level1").unwrap();
    let level2 = level1.get_message("level2").unwrap();
    let level3 = level2.get_message("level3").unwrap();

    assert_eq!(level3.get_u16("value").unwrap(), 42);
    assert_eq!(level3.get_str("name").unwrap(), "deep");

    let array = decoded.get_array("array").unwrap();
    assert_eq!(array.len(), 3);
}

#[test]
fn test_large_dataset() {
    let mut map = Message::new();

    for i in 0..1000u32 {
        let key = format!("key_{}", i);
        let mut value = Message::new();
        value.insert("index", Value::U16(i as u16));
        value.insert("value", Value::I16((i * 2) as i16));
        value.insert("flag", Value::Bool(i % 2 == 0));
        map.insert(&key, Value::Message(value));
    }

    let bytes = map.to_bytes().unwrap();
    let decoded = Message::from_bytes(&bytes).unwrap();

    assert_eq!(map.len(), decoded.len());
    assert_eq!(map, decoded);

    let key_500 = decoded.get_message("key_500").unwrap();
    assert_eq!(key_500.get_u16("index").unwrap(), 500);
    assert_eq!(key_500.get_i16("value").unwrap(), 1000);
    assert_eq!(key_500.get_bool("flag").unwrap(), true);
}

#[test]
fn test_empty_structures() {
    let empty_map = Message::new();
    let empty_array = Array::new();

    let map_bytes = empty_map.to_bytes().unwrap();
    let array_bytes = empty_array.to_bytes().unwrap();

    let decoded_map = Message::from_bytes(&map_bytes).unwrap();
    let decoded_array = Array::from_bytes(&array_bytes).unwrap();

    assert_eq!(empty_map, decoded_map);
    assert_eq!(empty_array, decoded_array);
    assert!(decoded_map.is_empty());
    assert!(decoded_array.is_empty());
}

#[test]
fn test_all_types_in_array() {
    let array = Array::from_vec(vec![
        Value::I8(-128),
        Value::U8(255),
        Value::I16(-32768),
        Value::U16(65535),
        Value::I32(-2147483648),
        Value::U32(4294967295),
        Value::I64(-9223372036854775808),
        Value::U64(18446744073709551615),
        Value::F32(3.14f32.to_bits()),
        Value::F64(2.718f64.to_bits()),
        Value::String(s("string")),
        Value::Bool(true),
        Value::Null,
        Value::Binary(Binary(vec![1u8, 2, 3])),
        Value::TimeStamp(TimeStamp(999)),
        Value::Id(Id::new_raw(1699999999999, 7, 13)),
    ]);

    let bytes = array.to_bytes().unwrap();
    let decoded = Array::from_bytes(&bytes).unwrap();

    assert_eq!(array, decoded);
    assert_eq!(decoded.len(), 16);
}

#[test]
fn test_unicode_strings() {
    let mut map = Message::new();
    map.insert("chinese", Value::String(s("你好世界")));
    map.insert("emoji", Value::String(s("😀🎉🚀")));
    map.insert("mixed", Value::String(s("Hello 世界 🌍")));
    map.insert("arabic", Value::String(s("مرحبا")));
    map.insert("russian", Value::String(s("Привет")));

    let bytes = map.to_bytes().unwrap();
    let decoded = Message::from_bytes(&bytes).unwrap();

    assert_eq!(map, decoded);
    assert_eq!(decoded.get_str("chinese").unwrap(), "你好世界");
    assert_eq!(decoded.get_str("emoji").unwrap(), "😀🎉🚀");
    assert_eq!(decoded.get_str("mixed").unwrap(), "Hello 世界 🌍");
}

#[test]
fn test_binary_data() {
    let data: Vec<u8> = (0..=255).collect();

    let mut map = Message::new();
    map.insert("data", Value::Binary(Binary(data.clone())));
    map.insert("length", Value::U16(data.len() as u16));

    let bytes = map.to_bytes().unwrap();
    let decoded = Message::from_bytes(&bytes).unwrap();

    let decoded_data = decoded.get_binary("data").unwrap();
    assert_eq!(decoded_data.0, data);
    assert_eq!(decoded.get_u16("length").unwrap(), 256);
}
