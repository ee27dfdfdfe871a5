use nson::bridge::{from_nson, to_nson, Datum, DecodeError, EncodeError, Shape, VariantShape};
use nson::{Id, Message, TimeStamp, Value};

fn s(text: &str) -> String {
    String::from(text)
}

// a reference record touching every bridge shape at once, including a
// timestamp, an identifier and a blob field
#[test]
fn serialize_and_deserialize() {
    let foo = Datum::Struct(vec![
        (s("a"), Datum::I32(1)),
        (s("b"), Datum::I64(2)),
        (s("c"), Datum::F64(3.0f64.to_bits())),
        (s("d"), Datum::Str(s("4"))),
        (s("e"), Datum::Bytes(vec![1, 2, 3, 4])),
        (s("t"), Datum::TimeStamp(123)),
        (s("i"), Datum::Id(Id::new_raw(123, 45, 678))),
        (s("j"), Datum::Bytes(vec![5, 6, 7, 8])),
        (s("k"), Datum::NewtypeStruct(Box::new(Datum::U64(123)))),
        (
            s("l"),
            Datum::Tuple(vec![Datum::U32(456), Datum::U64(789)]),
        ),
        (
            s("m"),
            Datum::Struct(vec![(s("a"), Datum::I32(111)), (s("b"), Datum::I64(222))]),
        ),
        (s("n"), Datum::Unit),
        (s("o"), Datum::NewtypeVariant(s("N"), Box::new(Datum::U8(123)))),
        (s("p"), Datum::List(vec![Datum::I32(111), Datum::I32(222)])),
    ]);

    let shape = Shape::Struct(vec![
        (s("a"), Shape::I32),
        (s("b"), Shape::I64),
        (s("c"), Shape::F64),
        (s("d"), Shape::Str),
        (s("e"), Shape::Bytes),
        (s("t"), Shape::TimeStamp),
        (s("i"), Shape::Id),
        (s("j"), Shape::Bytes),
        (s("k"), Shape::NewtypeStruct(Box::new(Shape::U64))),
        (
            s("l"),
            Shape::Tuple(vec![Shape::U32, Shape::U64]),
        ),
        (
            s("m"),
            Shape::Struct(vec![(s("a"), Shape::I32), (s("b"), Shape::I64)]),
        ),
        (s("n"), Shape::Unit),
        (
            s("o"),
            Shape::Enum(vec![
                (s("M"), VariantShape::Newtype(Box::new(Shape::Str))),
                (s("N"), VariantShape::Newtype(Box::new(Shape::U8))),
            ]),
        ),
        (s("p"), Shape::List(Box::new(Shape::I32))),
    ]);

    let nson_value = to_nson(&foo).unwrap();
    let foo2 = from_nson(&shape, &nson_value).unwrap();
    assert_eq!(foo, foo2);

    let bytes = nson_value.to_bytes().unwrap();
    let value3 = Value::from_bytes(&bytes).unwrap();
    let foo3 = from_nson(&shape, &value3).unwrap();
    assert_eq!(foo, foo3);
}

#[test]
fn mod_binary() {
    let bytes: Vec<u8> = vec![1, 2, 3, 4, 5, 6, 7, 8];

    let binary = Datum::Bytes(bytes);

    let nson_value = to_nson(&binary).unwrap();

    let binary2 = from_nson(&Shape::Bytes, &nson_value).unwrap();

    assert!(binary == binary2);
}

// scenario: a record with an identifier field keeps the identifier, not a
// generic map, through the bridge
#[test]
fn scenario_identifier_record() {
    let id = Id::new_raw(1699999999999, 2, 3);
    let record = Datum::Struct(vec![
        (s("name"), Datum::Str(s("probe"))),
        (s("ident"), Datum::Id(id)),
    ]);
    let shape = Shape::Struct(vec![(s("name"), Shape::Str), (s("ident"), Shape::Id)]);

    let value = to_nson(&record).unwrap();
    // the identifier travels as a real identifier value, not as a map
    if let Value::Message(m) = &value {
        assert_eq!(m.get_id("ident").unwrap(), &id);
    } else {
        panic!("record did not serialize to a map");
    }

    let back = from_nson(&shape, &value).unwrap();
    assert_eq!(record, back);
}

// the sigil escape: a timestamp or identifier survives serialization, and
// a handmade sigil map is restored to the semantic value on the way in
#[test]
fn sigil_escape() {
    let t = to_nson(&Datum::TimeStamp(998877)).unwrap();
    assert_eq!(t, Value::TimeStamp(TimeStamp(998877)));

    let id = Id::new_raw(42, 4, 2);
    let v = to_nson(&Datum::Id(id)).unwrap();
    assert_eq!(v, Value::Id(id));

    // a user map whose only entry is the timestamp sigil collapses too:
    // the documented ambiguity of the escape
    let table = Datum::Table(vec![(Datum::Str(s("$tim")), Datum::U64(5))]);
    let collapsed = to_nson(&table).unwrap();
    assert_eq!(collapsed, Value::TimeStamp(TimeStamp(5)));
}

#[test]
fn enum_variants_round_trip() {
    let shape = Shape::Enum(vec![
        (s("Quit"), VariantShape::Unit),
        (s("Move"), VariantShape::Struct(vec![
            (s("x"), Shape::I32),
            (s("y"), Shape::I32),
        ])),
        (s("Write"), VariantShape::Newtype(Box::new(Shape::Str))),
        (
            s("Color"),
            VariantShape::Tuple(vec![Shape::U8, Shape::U8, Shape::U8]),
        ),
    ]);

    let unit = Datum::UnitVariant(s("Quit"));
    let v = to_nson(&unit).unwrap();
    assert_eq!(v, Value::String(s("Quit")));
    assert_eq!(from_nson(&shape, &v).unwrap(), unit);

    let record = Datum::StructVariant(
        s("Move"),
        vec![(s("x"), Datum::I32(3)), (s("y"), Datum::I32(-7))],
    );
    let v = to_nson(&record).unwrap();
    assert_eq!(from_nson(&shape, &v).unwrap(), record);

    let newtype = Datum::NewtypeVariant(s("Write"), Box::new(Datum::Str(s("hi"))));
    let v = to_nson(&newtype).unwrap();
    assert_eq!(from_nson(&shape, &v).unwrap(), newtype);

    let tuple = Datum::TupleVariant(s("Color"), vec![Datum::U8(1), Datum::U8(2), Datum::U8(3)]);
    let v = to_nson(&tuple).unwrap();
    assert_eq!(from_nson(&shape, &v).unwrap(), tuple);

    // an undeclared variant name is rejected
    let bad = Value::String(s("Jump"));
    assert_eq!(from_nson(&shape, &bad), Err(DecodeError::UnknownVariant));
}

#[test]
fn option_char_table_round_trip() {
    let opt_shape = Shape::Optional(Box::new(Shape::U8));
    let absent = Datum::Optional(None);
    let present = Datum::Optional(Some(Box::new(Datum::U8(9))));
    let v0 = to_nson(&absent).unwrap();
    assert_eq!(v0, Value::Null);
    assert_eq!(from_nson(&opt_shape, &v0).unwrap(), absent);
    let v1 = to_nson(&present).unwrap();
    assert_eq!(from_nson(&opt_shape, &v1).unwrap(), present);

    let c = Datum::Char('Ω');
    let vc = to_nson(&c).unwrap();
    assert_eq!(vc, Value::String(s("Ω")));
    assert_eq!(from_nson(&Shape::Char, &vc).unwrap(), c);

    let table = Datum::Table(vec![
        (Datum::Str(s("one")), Datum::I32(1)),
        (Datum::Str(s("two")), Datum::I32(2)),
    ]);
    let tshape = Shape::Table(Box::new(Shape::Str), Box::new(Shape::I32));
    let vt = to_nson(&table).unwrap();
    assert_eq!(from_nson(&tshape, &vt).unwrap(), table);
}

// a map key that does not serialize to a string is a hard error
#[test]
fn non_string_key_rejected() {
    let table = Datum::Table(vec![(Datum::I32(5), Datum::I32(1))]);
    match to_nson(&table) {
        Err(EncodeError::InvalidMapKeyType(k)) => assert_eq!(k, Value::I32(5)),
        _ => panic!("a non-string key must be rejected"),
    }
}

// struct field errors: unknown, duplicate and missing fields each have
// their own error
#[test]
fn struct_field_errors() {
    let shape = Shape::Struct(vec![(s("a"), Shape::I32), (s("b"), Shape::I32)]);

    let mut unknown = Message::new();
    unknown.insert("a", Value::I32(1));
    unknown.insert("zz", Value::I32(2));
    assert_eq!(
        from_nson(&shape, &Value::Message(unknown)),
        Err(DecodeError::UnknownField)
    );

    let mut missing = Message::new();
    missing.insert("a", Value::I32(1));
    assert_eq!(
        from_nson(&shape, &Value::Message(missing)),
        Err(DecodeError::ExpectedField)
    );

    let mut wrong = Message::new();
    wrong.insert("a", Value::I32(1));
    wrong.insert("b", Value::Bool(true));
    assert_eq!(
        from_nson(&shape, &Value::Message(wrong)),
        Err(DecodeError::InvalidType)
    );
}
