//! The generic serialization bridge.
//!
//! A structured datum — the shapes a (de)serialization framework knows:
//! scalars, strings, byte strings, optional values, sequences, tuples,
//! maps, records, enumeration variants — is converted to a [`Value`] tree
//! and back.  Three semantic kinds have no primitive of their own in that
//! vocabulary: timestamps, identifiers and (conceptually) binary blobs.
//! They travel as a one-entry *sigil map* — `{"$tim": ticks}`,
//! `{"$mid": hex}`, `{"$bin": hex}` — and whenever a finished map or record
//! turns out to be exactly one such entry, it is transparently restored to
//! the semantic kind ([`from_extended_map`]).  An ordinary one-entry map
//! whose key happens to equal a sigil is therefore indistinguishable from
//! an escaped value; the format accepts that ambiguity.

use vstd::prelude::*;

use crate::array::Array;
use crate::hex::{hex_bytes_of, hex_chars_of, hex_decode, hex_encode, valid_hex_str};
use crate::id::Id;
use crate::message::Message;
use crate::model::{spec_insert, SpecEntries, SpecValue};
use crate::value::{Binary, TimeStamp, Value};

verus! {

/// The sigil key marking an escaped binary blob.
pub open spec fn sigil_bin() -> Seq<char> {
    seq!['$', 'b', 'i', 'n']
}

/// The sigil key marking an escaped timestamp.
pub open spec fn sigil_tim() -> Seq<char> {
    seq!['$', 't', 'i', 'm']
}

/// The sigil key marking an escaped identifier.
pub open spec fn sigil_mid() -> Seq<char> {
    seq!['$', 'm', 'i', 'd']
}

/// What restoring a finished map from its extended form yields: a map of
/// exactly one sigil entry of the expected underlying shape becomes the
/// semantic value it escaped; everything else stays an ordinary map.
pub open spec fn spec_from_extended(es: SpecEntries) -> SpecValue {
    if es.len() == 1 && es[0].0 == sigil_bin() && (es[0].1 matches SpecValue::String(h)
        && valid_hex_str(h)) {
        SpecValue::Binary(hex_bytes_of(es[0].1->String_0))
    } else if es.len() == 1 && es[0].0 == sigil_tim() && es[0].1 is U64 {
        SpecValue::TimeStamp(es[0].1->U64_0)
    } else if es.len() == 1 && es[0].0 == sigil_mid() && (es[0].1 matches SpecValue::String(h)
        && valid_hex_str(h) && hex_bytes_of(h).len() == 12) {
        SpecValue::Id(hex_bytes_of(es[0].1->String_0))
    } else {
        SpecValue::Message(es)
    }
}

/// Restores a finished map from its extended form: exactly what
/// [`spec_from_extended`] says.
pub fn from_extended_map(msg: Message) -> (r: Value)
    ensures
        r@ == spec_from_extended(msg@),
{
    proof {
        reveal_strlit("$bin");
        reveal_strlit("$tim");
        reveal_strlit("$mid");
        assert("$bin"@ =~= sigil_bin());
        assert("$tim"@ =~= sigil_tim());
        assert("$mid"@ =~= sigil_mid());
    }
    if msg.len() != 1 {
        return Value::Message(msg);
    }
    let is_bin = match msg.get_index(0) {
        Some((k, _)) => crate::message::str_eq(k.as_str(), "$bin"),
        None => false,
    };
    let is_tim = match msg.get_index(0) {
        Some((k, _)) => crate::message::str_eq(k.as_str(), "$tim"),
        None => false,
    };
    let is_mid = match msg.get_index(0) {
        Some((k, _)) => crate::message::str_eq(k.as_str(), "$mid"),
        None => false,
    };
    if is_bin {
        match msg.get_index(0) {
            Some((_, v)) => match v {
                Value::String(h) => match hex_decode(h.as_str()) {
                    Some(bytes) => {
                        return Value::Binary(Binary(bytes));
                    },
                    None => {},
                },
                _ => {},
            },
            None => {},
        }
    } else if is_tim {
        match msg.get_index(0) {
            Some((_, v)) => match v {
                Value::U64(u) => {
                    return Value::TimeStamp(TimeStamp(*u));
                },
                _ => {},
            },
            None => {},
        }
    } else if is_mid {
        match msg.get_index(0) {
            Some((_, v)) => match v {
                Value::String(h) => match Id::with_string(h.as_str()) {
                    Ok(id) => {
                        proof {
                            crate::value::lemma_view_variants(Value::Id(id));
                        }
                        return Value::Id(id);
                    },
                    Err(_) => {},
                },
                _ => {},
            },
            None => {},
        }
    }
    Value::Message(msg)
}

/// The extended (sigil-map) form of a semantic value: what a binary blob,
/// timestamp or identifier serializes to through the generic path.
pub open spec fn spec_to_extended(v: SpecValue) -> SpecEntries
    recommends
        v is Binary || v is TimeStamp || v is Id,
{
    match v {
        SpecValue::Binary(bs) => seq![(sigil_bin(), SpecValue::String(hex_chars_of(bs)))],
        SpecValue::TimeStamp(t) => seq![(sigil_tim(), SpecValue::U64(t))],
        SpecValue::Id(bs) => seq![(sigil_mid(), SpecValue::String(hex_chars_of(bs)))],
        _ => Seq::empty(),
    }
}

/// Builds the one-entry sigil map carrying `v` through the generic path.
pub(crate) fn to_extended_map(v: &Value) -> (r: Message)
    requires
        v@ is Binary || v@ is TimeStamp || v@ is Id,
    ensures
        r@ == spec_to_extended(v@),
        r.wf(),
{
    proof {
        reveal_strlit("$bin");
        reveal_strlit("$tim");
        reveal_strlit("$mid");
        assert("$bin"@ =~= sigil_bin());
        assert("$tim"@ =~= sigil_tim());
        assert("$mid"@ =~= sigil_mid());
    }
    let mut msg = Message::with_capacity(1);
    match v {
        Value::Binary(b) => {
            let _ = msg.insert("$bin", Value::String(hex_encode(b.0.as_slice())));
        },
        Value::TimeStamp(t) => {
            let _ = msg.insert("$tim", Value::U64(t.0));
        },
        Value::Id(id) => {
            let _ = msg.insert("$mid", Value::String(hex_encode(id.bytes.as_slice())));
        },
        _ => {
            proof {
                crate::value::lemma_view_variants(*v);
                assert(false);
            }
        },
    }
    proof {
        assert(msg@ =~= spec_to_extended(v@));
    }
    msg
}

/// Why serializing a datum failed: a map key did not resolve to a string.
#[derive(Debug)]
pub enum EncodeError {
    /// The offending key, as the value it serialized to.
    InvalidMapKeyType(Value),
}

pub type EncodeResult<T> = Result<T, EncodeError>;

/// Why deserializing a value into a datum failed.
#[derive(Debug, Clone, Copy, PartialEq, Eq, Structural)]
pub enum DecodeError {
    /// A declared record field is absent.
    ExpectedField,
    /// A map entry's key names no declared record field.
    UnknownField,
    /// An enumeration map holds no entry at all.
    SyntaxError,
    /// The end of a sequence came before the requested element.
    EndOfStream,
    /// The value's kind is not the one the shape asks for.
    InvalidType,
    /// A tuple's length differs from the declared one.
    InvalidLength,
    /// A record field is given twice.
    DuplicatedField,
    /// An enumeration variant name that is not declared.
    UnknownVariant,
    /// A string that should hold exactly one character does not.
    InvalidValue,
}

pub type DecodeResult<T> = Result<T, DecodeError>;

/// One structured datum: the protocol vocabulary a producer of structured
/// data drives the bridge with.  Floating payloads carry IEEE bit
/// patterns.
#[derive(Debug, PartialEq)]
pub enum Datum {
    Bool(bool),
    I8(i8),
    U8(u8),
    I16(i16),
    U16(u16),
    I32(i32),
    U32(u32),
    I64(i64),
    U64(u64),
    F32(u32),
    F64(u64),
    Char(char),
    Str(String),
    Bytes(Vec<u8>),
    Optional(Option<Box<Datum>>),
    Unit,
    List(Vec<Datum>),
    Tuple(Vec<Datum>),
    Table(Vec<(Datum, Datum)>),
    Struct(Vec<(String, Datum)>),
    NewtypeStruct(Box<Datum>),
    UnitVariant(String),
    NewtypeVariant(String, Box<Datum>),
    TupleVariant(String, Vec<Datum>),
    StructVariant(String, Vec<(String, Datum)>),
    TimeStamp(u64),
    Id(Id),
}

/// The model of a datum.
pub enum SpecDatum {
    Bool(bool),
    I8(i8),
    U8(u8),
    I16(i16),
    U16(u16),
    I32(i32),
    U32(u32),
    I64(i64),
    U64(u64),
    F32(u32),
    F64(u64),
    Char(char),
    Str(Seq<char>),
    Bytes(Seq<u8>),
    Optional(Option<Box<SpecDatum>>),
    Unit,
    List(Seq<SpecDatum>),
    Tuple(Seq<SpecDatum>),
    Table(Seq<(SpecDatum, SpecDatum)>),
    Struct(Seq<(Seq<char>, SpecDatum)>),
    NewtypeStruct(Box<SpecDatum>),
    UnitVariant(Seq<char>),
    NewtypeVariant(Seq<char>, Box<SpecDatum>),
    TupleVariant(Seq<char>, Seq<SpecDatum>),
    StructVariant(Seq<char>, Seq<(Seq<char>, SpecDatum)>),
    TimeStamp(u64),
    Id(Seq<u8>),
}

/// The model of a datum.
pub open spec fn datum_view(d: Datum) -> SpecDatum
    decreases d,
{
    match d {
        Datum::Bool(b) => SpecDatum::Bool(b),
        Datum::I8(x) => SpecDatum::I8(x),
        Datum::U8(x) => SpecDatum::U8(x),
        Datum::I16(x) => SpecDatum::I16(x),
        Datum::U16(x) => SpecDatum::U16(x),
        Datum::I32(x) => SpecDatum::I32(x),
        Datum::U32(x) => SpecDatum::U32(x),
        Datum::I64(x) => SpecDatum::I64(x),
        Datum::U64(x) => SpecDatum::U64(x),
        Datum::F32(x) => SpecDatum::F32(x),
        Datum::F64(x) => SpecDatum::F64(x),
        Datum::Char(c) => SpecDatum::Char(c),
        Datum::Str(s) => SpecDatum::Str(s@),
        Datum::Bytes(b) => SpecDatum::Bytes(b@),
        Datum::Optional(o) => match o {
            Option::Some(b) => SpecDatum::Optional(Some(Box::new(datum_view(*b)))),
            Option::None => SpecDatum::Optional(None),
        },
        Datum::Unit => SpecDatum::Unit,
        Datum::List(ds) => SpecDatum::List(datum_views(ds, 0)),
        Datum::Tuple(ds) => SpecDatum::Tuple(datum_views(ds, 0)),
        Datum::Table(ps) => SpecDatum::Table(pair_views(ps, 0)),
        Datum::Struct(fs) => SpecDatum::Struct(field_views(fs, 0)),
        Datum::NewtypeStruct(b) => SpecDatum::NewtypeStruct(Box::new(datum_view(*b))),
        Datum::UnitVariant(n) => SpecDatum::UnitVariant(n@),
        Datum::NewtypeVariant(n, b) => SpecDatum::NewtypeVariant(n@, Box::new(datum_view(*b))),
        Datum::TupleVariant(n, ds) => SpecDatum::TupleVariant(n@, datum_views(ds, 0)),
        Datum::StructVariant(n, fs) => SpecDatum::StructVariant(n@, field_views(fs, 0)),
        Datum::TimeStamp(t) => SpecDatum::TimeStamp(t),
        Datum::Id(id) => SpecDatum::Id(id.bytes@),
    }
}

/// The models of `ds[i..]`.
pub open spec fn datum_views(ds: Vec<Datum>, i: int) -> Seq<SpecDatum>
    decreases ds, ds.len() - i,
{
    if i < 0 || i >= ds.len() {
        Seq::empty()
    } else {
        seq![datum_view(ds[i])] + datum_views(ds, i + 1)
    }
}

/// The models of the pairs `ps[i..]`.
pub open spec fn pair_views(ps: Vec<(Datum, Datum)>, i: int) -> Seq<(SpecDatum, SpecDatum)>
    decreases ps, ps.len() - i,
{
    if i < 0 || i >= ps.len() {
        Seq::empty()
    } else {
        seq![(datum_view(ps[i].0), datum_view(ps[i].1))] + pair_views(ps, i + 1)
    }
}

/// The models of the named fields `fs[i..]`.
pub open spec fn field_views(fs: Vec<(String, Datum)>, i: int) -> Seq<(Seq<char>, SpecDatum)>
    decreases fs, fs.len() - i,
{
    if i < 0 || i >= fs.len() {
        Seq::empty()
    } else {
        seq![(fs[i].0@, datum_view(fs[i].1))] + field_views(fs, i + 1)
    }
}

impl View for Datum {
    type V = SpecDatum;

    open spec fn view(&self) -> SpecDatum {
        datum_view(*self)
    }
}

/// `datum_views(ds, i)` lists the models of `ds[i..]`, one per element.
pub proof fn lemma_datum_views(ds: Vec<Datum>, i: int)
    requires
        0 <= i <= ds.len(),
    ensures
        datum_views(ds, i).len() == ds.len() - i,
        forall|k: int|
            0 <= k < ds.len() - i ==> #[trigger] datum_views(ds, i)[k] == datum_view(ds[k + i]),
    decreases ds.len() - i,
{
    if i < ds.len() {
        lemma_datum_views(ds, i + 1);
    }
}

/// `pair_views(ps, i)` lists the models of `ps[i..]`, one per pair.
pub proof fn lemma_pair_views(ps: Vec<(Datum, Datum)>, i: int)
    requires
        0 <= i <= ps.len(),
    ensures
        pair_views(ps, i).len() == ps.len() - i,
        forall|k: int|
            0 <= k < ps.len() - i ==> #[trigger] pair_views(ps, i)[k] == (
                datum_view(ps[k + i].0),
                datum_view(ps[k + i].1),
            ),
    decreases ps.len() - i,
{
    if i < ps.len() {
        lemma_pair_views(ps, i + 1);
    }
}

/// `field_views(fs, i)` lists the models of `fs[i..]`, one per field.
pub proof fn lemma_field_views(fs: Vec<(String, Datum)>, i: int)
    requires
        0 <= i <= fs.len(),
    ensures
        field_views(fs, i).len() == fs.len() - i,
        forall|k: int|
            0 <= k < fs.len() - i ==> #[trigger] field_views(fs, i)[k] == (
                fs[k + i].0@,
                datum_view(fs[k + i].1),
            ),
    decreases fs.len() - i,
{
    if i < fs.len() {
        lemma_field_views(fs, i + 1);
    }
}

/// What a datum serializes to: the direct mappings, the positional
/// encoding of enumeration variants, and the sigil escape applied to every
/// finished map and record.  The error carries the value a non-string map
/// key serialized to.
pub open spec fn spec_to_value(d: SpecDatum) -> Result<SpecValue, SpecValue>
    decreases d, 0int, 0int,
{
    match d {
        SpecDatum::Bool(b) => Ok(SpecValue::Bool(b)),
        SpecDatum::I8(x) => Ok(SpecValue::I8(x)),
        SpecDatum::U8(x) => Ok(SpecValue::U8(x)),
        SpecDatum::I16(x) => Ok(SpecValue::I16(x)),
        SpecDatum::U16(x) => Ok(SpecValue::U16(x)),
        SpecDatum::I32(x) => Ok(SpecValue::I32(x)),
        SpecDatum::U32(x) => Ok(SpecValue::U32(x)),
        SpecDatum::I64(x) => Ok(SpecValue::I64(x)),
        SpecDatum::U64(x) => Ok(SpecValue::U64(x)),
        SpecDatum::F32(x) => Ok(SpecValue::F32(x)),
        SpecDatum::F64(x) => Ok(SpecValue::F64(x)),
        SpecDatum::Char(c) => Ok(SpecValue::String(seq![c])),
        SpecDatum::Str(s) => Ok(SpecValue::String(s)),
        SpecDatum::Bytes(b) => Ok(SpecValue::Binary(b)),
        SpecDatum::Optional(o) => match o {
            Option::Some(b) => spec_to_value(*b),
            Option::None => Ok(SpecValue::Null),
        },
        SpecDatum::Unit => Ok(SpecValue::Null),
        SpecDatum::List(ds) => match spec_to_elems(ds, 0) {
            Ok(vs) => Ok(SpecValue::Array(vs)),
            Err(k) => Err(k),
        },
        SpecDatum::Tuple(ds) => match spec_to_elems(ds, 0) {
            Ok(vs) => Ok(SpecValue::Array(vs)),
            Err(k) => Err(k),
        },
        SpecDatum::Table(ps) => match spec_table_entries(ps, 0, Seq::empty()) {
            Ok(es) => Ok(spec_from_extended(es)),
            Err(k) => Err(k),
        },
        SpecDatum::Struct(fs) => match spec_field_entries(fs, 0, Seq::empty()) {
            Ok(es) => Ok(spec_from_extended(es)),
            Err(k) => Err(k),
        },
        SpecDatum::NewtypeStruct(b) => spec_to_value(*b),
        SpecDatum::UnitVariant(n) => Ok(SpecValue::String(n)),
        SpecDatum::NewtypeVariant(n, b) => match spec_to_value(*b) {
            Ok(v) => Ok(SpecValue::Message(seq![(n, v)])),
            Err(k) => Err(k),
        },
        SpecDatum::TupleVariant(n, ds) => match spec_to_elems(ds, 0) {
            Ok(vs) => Ok(SpecValue::Message(seq![(n, SpecValue::Array(vs))])),
            Err(k) => Err(k),
        },
        SpecDatum::StructVariant(n, fs) => match spec_field_entries(fs, 0, Seq::empty()) {
            Ok(es) => Ok(SpecValue::Message(seq![(n, spec_from_extended(es))])),
            Err(k) => Err(k),
        },
        SpecDatum::TimeStamp(t) => Ok(SpecValue::TimeStamp(t)),
        SpecDatum::Id(bs) => Ok(SpecValue::Id(bs)),
    }
}

/// What the elements `ds[i..]` serialize to, in order.
pub open spec fn spec_to_elems(ds: Seq<SpecDatum>, i: int) -> Result<Seq<SpecValue>, SpecValue>
    decreases ds, 1int, ds.len() - i,
{
    if i < 0 || i >= ds.len() {
        Ok(Seq::empty())
    } else {
        match spec_to_value(ds[i]) {
            Ok(v) => match spec_to_elems(ds, i + 1) {
                Ok(vs) => Ok(seq![v] + vs),
                Err(k) => Err(k),
            },
            Err(k) => Err(k),
        }
    }
}

/// What inserting the serialized pairs `ps[i..]` into the map `acc` yields:
/// each key must serialize to a string; a repeated key replaces in place.
pub open spec fn spec_table_entries(
    ps: Seq<(SpecDatum, SpecDatum)>,
    i: int,
    acc: SpecEntries,
) -> Result<SpecEntries, SpecValue>
    decreases ps, 1int, ps.len() - i,
{
    if i < 0 || i >= ps.len() {
        Ok(acc)
    } else {
        match spec_to_value(ps[i].0) {
            Ok(kv) => match kv {
                SpecValue::String(k) => match spec_to_value(ps[i].1) {
                    Ok(v) => spec_table_entries(ps, i + 1, spec_insert(acc, k, v)),
                    Err(e) => Err(e),
                },
                _ => Err(kv),
            },
            Err(e) => Err(e),
        }
    }
}

/// What inserting the serialized named fields `fs[i..]` into `acc` yields.
pub open spec fn spec_field_entries(
    fs: Seq<(Seq<char>, SpecDatum)>,
    i: int,
    acc: SpecEntries,
) -> Result<SpecEntries, SpecValue>
    decreases fs, 1int, fs.len() - i,
{
    if i < 0 || i >= fs.len() {
        Ok(acc)
    } else {
        match spec_to_value(fs[i].1) {
            Ok(v) => spec_field_entries(fs, i + 1, spec_insert(acc, fs[i].0, v)),
            Err(e) => Err(e),
        }
    }
}

/// Serializes a datum to a value: exactly what [`spec_to_value`] says.
/// Fails exactly when some map key, anywhere in the datum, does not
/// serialize to a string.
pub fn to_nson(d: &Datum) -> (r: EncodeResult<Value>)
    ensures
        match r {
            Ok(v) => spec_to_value(d@) == Ok::<SpecValue, SpecValue>(v@),
            Err(EncodeError::InvalidMapKeyType(k)) => spec_to_value(d@) == Err::<
                SpecValue,
                SpecValue,
            >(k@),
        },
    decreases d,
{
    match d {
        Datum::Bool(b) => Ok(Value::Bool(*b)),
        Datum::I8(x) => Ok(Value::I8(*x)),
        Datum::U8(x) => Ok(Value::U8(*x)),
        Datum::I16(x) => Ok(Value::I16(*x)),
        Datum::U16(x) => Ok(Value::U16(*x)),
        Datum::I32(x) => Ok(Value::I32(*x)),
        Datum::U32(x) => Ok(Value::U32(*x)),
        Datum::I64(x) => Ok(Value::I64(*x)),
        Datum::U64(x) => Ok(Value::U64(*x)),
        Datum::F32(x) => Ok(Value::F32(*x)),
        Datum::F64(x) => Ok(Value::F64(*x)),
        Datum::Char(c) => Ok(Value::String(char_to_string(*c))),
        Datum::Str(s) => Ok(Value::String(s.clone())),
        Datum::Bytes(b) => Ok(Value::Binary(Binary(crate::value::clone_bytes(b)))),
        Datum::Optional(o) => match o {
            Some(b) => to_nson(b),
            None => Ok(Value::Null),
        },
        Datum::Unit => Ok(Value::Null),
        Datum::List(ds) => match to_elems(ds) {
            Ok(arr) => Ok(Value::Array(arr)),
            Err(e) => Err(e),
        },
        Datum::Tuple(ds) => match to_elems(ds) {
            Ok(arr) => Ok(Value::Array(arr)),
            Err(e) => Err(e),
        },
        Datum::Table(ps) => match to_table_message(ps) {
            Ok(msg) => Ok(from_extended_map(msg)),
            Err(e) => Err(e),
        },
        Datum::Struct(fs) => match to_field_message(fs) {
            Ok(msg) => Ok(from_extended_map(msg)),
            Err(e) => Err(e),
        },
        Datum::NewtypeStruct(b) => to_nson(b),
        Datum::UnitVariant(n) => Ok(Value::String(n.clone())),
        Datum::NewtypeVariant(n, b) => match to_nson(b) {
            Ok(v) => {
                let mut msg = Message::new();
                let _ = msg.insert(n.as_str(), v);
                proof {
                    assert(msg@ =~= seq![(n@, spec_to_value(datum_view(**b))->Ok_0)]);
                }
                Ok(Value::Message(msg))
            },
            Err(e) => Err(e),
        },
        Datum::TupleVariant(n, ds) => match to_elems(ds) {
            Ok(arr) => {
                let mut msg = Message::new();
                let _ = msg.insert(n.as_str(), Value::Array(arr));
                proof {
                    assert(msg@ =~= seq![(n@, SpecValue::Array(spec_to_elems(datum_views(*ds, 0), 0)->Ok_0))]);
                }
                Ok(Value::Message(msg))
            },
            Err(e) => Err(e),
        },
        Datum::StructVariant(n, fs) => match to_field_message(fs) {
            Ok(inner) => {
                let var = from_extended_map(inner);
                let mut msg = Message::new();
                let _ = msg.insert(n.as_str(), var);
                proof {
                    assert(msg@ =~= seq![(n@, spec_from_extended(spec_field_entries(field_views(*fs, 0), 0, Seq::empty())->Ok_0))]);
                }
                Ok(Value::Message(msg))
            },
            Err(e) => Err(e),
        },
        Datum::TimeStamp(t) => {
            let escaped = to_extended_map(&Value::TimeStamp(TimeStamp(*t)));
            Ok(from_extended_map(escaped))
        },
        Datum::Id(id) => {
            let escaped = to_extended_map(&Value::Id(*id));
            let r = from_extended_map(escaped);
            proof {
                crate::hex::lemma_hex_round_trip(id.bytes@);
                assert(sigil_mid() != sigil_bin());
            }
            Ok(r)
        },
    }
}

/// Serializes the elements of `ds`, in order, into an array.
pub(crate) fn to_elems(ds: &Vec<Datum>) -> (r: EncodeResult<Array>)
    ensures
        match r {
            Ok(arr) => spec_to_elems(datum_views(*ds, 0), 0) == Ok::<Seq<SpecValue>, SpecValue>(
                arr@,
            ),
            Err(EncodeError::InvalidMapKeyType(k)) => spec_to_elems(datum_views(*ds, 0), 0)
                == Err::<Seq<SpecValue>, SpecValue>(k@),
        },
    decreases *ds,
{
    proof {
        lemma_datum_views(*ds, 0);
    }
    let ghost views = datum_views(*ds, 0);
    let mut arr = Array::with_capacity(ds.len());
    let n = ds.len();
    let mut i: usize = 0;
    while i < n
        invariant
            0 <= i <= n,
            n == ds.len(),
            views == datum_views(*ds, 0),
            views.len() == n,
            forall|k: int| 0 <= k < n ==> #[trigger] datum_views(*ds, 0)[k] == datum_view(ds[k]),
            spec_to_elems(views, 0) == (match spec_to_elems(views, i as int) {
                Ok(vs) => Ok::<Seq<SpecValue>, SpecValue>(arr@ + vs),
                Err(k) => Err::<Seq<SpecValue>, SpecValue>(k),
            }),
        decreases n - i,
    {
        match to_nson(&ds[i]) {
            Ok(v) => {
                proof {
                    let r2 = spec_to_elems(views, i + 1);
                    match r2 {
                        Ok(vs) => {
                            assert(arr@ + (seq![v@] + vs) =~= arr@.push(v@) + vs);
                        },
                        Err(_) => {},
                    }
                }
                arr.push(v);
            },
            Err(e) => {
                return Err(e);
            },
        }
        i = i + 1;
    }
    proof {
        assert(arr@ + Seq::<SpecValue>::empty() =~= arr@);
    }
    Ok(arr)
}

/// Serializes the pairs of `ps` and inserts them, in order, into a map;
/// fails on the first key that does not serialize to a string.
pub(crate) fn to_table_message(ps: &Vec<(Datum, Datum)>) -> (r: EncodeResult<Message>)
    ensures
        match r {
            Ok(msg) => spec_table_entries(pair_views(*ps, 0), 0, Seq::empty()) == Ok::<
                SpecEntries,
                SpecValue,
            >(msg@) && msg.wf(),
            Err(EncodeError::InvalidMapKeyType(k)) => spec_table_entries(
                pair_views(*ps, 0),
                0,
                Seq::empty(),
            ) == Err::<SpecEntries, SpecValue>(k@),
        },
    decreases *ps,
{
    proof {
        lemma_pair_views(*ps, 0);
    }
    let ghost views = pair_views(*ps, 0);
    let mut msg = Message::new();
    let n = ps.len();
    let mut i: usize = 0;
    while i < n
        invariant
            0 <= i <= n,
            n == ps.len(),
            views == pair_views(*ps, 0),
            views.len() == n,
            forall|k: int|
                0 <= k < n ==> #[trigger] pair_views(*ps, 0)[k] == (
                    datum_view(ps[k].0),
                    datum_view(ps[k].1),
                ),
            msg.wf(),
            spec_table_entries(views, 0, Seq::empty()) == spec_table_entries(
                views,
                i as int,
                msg@,
            ),
        decreases n - i,
    {
        let pair = &ps[i];
        let kv = match to_nson(&pair.0) {
            Ok(kv) => kv,
            Err(e) => {
                return Err(e);
            },
        };
        let key = match kv {
            Value::String(k) => k,
            other => {
                proof {
                    crate::value::lemma_view_variants(other);
                }
                return Err(EncodeError::InvalidMapKeyType(other));
            },
        };
        match to_nson(&pair.1) {
            Ok(v) => {
                let _ = msg.insert_value(key, v);
            },
            Err(e) => {
                return Err(e);
            },
        }
        i = i + 1;
    }
    Ok(msg)
}

/// Serializes the named fields of `fs` and inserts them, in order, into a
/// map.
pub(crate) fn to_field_message(fs: &Vec<(String, Datum)>) -> (r: EncodeResult<Message>)
    ensures
        match r {
            Ok(msg) => spec_field_entries(field_views(*fs, 0), 0, Seq::empty()) == Ok::<
                SpecEntries,
                SpecValue,
            >(msg@) && msg.wf(),
            Err(EncodeError::InvalidMapKeyType(k)) => spec_field_entries(
                field_views(*fs, 0),
                0,
                Seq::empty(),
            ) == Err::<SpecEntries, SpecValue>(k@),
        },
    decreases *fs,
{
    proof {
        lemma_field_views(*fs, 0);
    }
    let ghost views = field_views(*fs, 0);
    let mut msg = Message::new();
    let n = fs.len();
    let mut i: usize = 0;
    while i < n
        invariant
            0 <= i <= n,
            n == fs.len(),
            views == field_views(*fs, 0),
            views.len() == n,
            forall|k: int|
                0 <= k < n ==> #[trigger] field_views(*fs, 0)[k] == (
                    fs[k].0@,
                    datum_view(fs[k].1),
                ),
            msg.wf(),
            spec_field_entries(views, 0, Seq::empty()) == spec_field_entries(
                views,
                i as int,
                msg@,
            ),
        decreases n - i,
    {
        let pair = &fs[i];
        match to_nson(&pair.1) {
            Ok(v) => {
                let _ = msg.insert(pair.0.as_str(), v);
            },
            Err(e) => {
                return Err(e);
            },
        }
        i = i + 1;
    }
    Ok(msg)
}

/// The shape a consumer of structured data asks the bridge to
/// deserialize: one constructor per protocol request.
#[derive(Debug)]
pub enum Shape {
    Bool,
    I8,
    U8,
    I16,
    U16,
    I32,
    U32,
    I64,
    U64,
    F32,
    F64,
    Char,
    Str,
    Bytes,
    Optional(Box<Shape>),
    Unit,
    List(Box<Shape>),
    Tuple(Vec<Shape>),
    Table(Box<Shape>, Box<Shape>),
    Struct(Vec<(String, Shape)>),
    NewtypeStruct(Box<Shape>),
    Enum(Vec<(String, VariantShape)>),
    TimeStamp,
    Id,
}

/// The shape of one enumeration variant.
#[derive(Debug)]
pub enum VariantShape {
    Unit,
    Newtype(Box<Shape>),
    Tuple(Vec<Shape>),
    Struct(Vec<(String, Shape)>),
}

/// First position in `fs` whose name is `name`, or `-1`.
pub open spec fn field_index<T>(fs: Vec<(String, T)>, name: Seq<char>, i: int) -> int
    decreases fs.len() - i,
{
    if i < 0 || i >= fs.len() {
        -1
    } else if fs[i].0@ == name {
        i
    } else {
        field_index(fs, name, i + 1)
    }
}

/// What deserializing `v` as shape `s` yields: the direct mappings read
/// back, the positional encoding of variants undone, and a timestamp,
/// identifier or blob met where a map or record is asked for read through
/// its extended (sigil-map) form.
pub open spec fn spec_from_value(s: Shape, v: SpecValue) -> Result<SpecDatum, DecodeError>
    decreases s, 0int, 0int,
{
    match s {
        Shape::Bool => match v {
            SpecValue::Bool(b) => Ok(SpecDatum::Bool(b)),
            _ => Err(DecodeError::InvalidType),
        },
        Shape::I8 => match v {
            SpecValue::I8(x) => Ok(SpecDatum::I8(x)),
            _ => Err(DecodeError::InvalidType),
        },
        Shape::U8 => match v {
            SpecValue::U8(x) => Ok(SpecDatum::U8(x)),
            _ => Err(DecodeError::InvalidType),
        },
        Shape::I16 => match v {
            SpecValue::I16(x) => Ok(SpecDatum::I16(x)),
            _ => Err(DecodeError::InvalidType),
        },
        Shape::U16 => match v {
            SpecValue::U16(x) => Ok(SpecDatum::U16(x)),
            _ => Err(DecodeError::InvalidType),
        },
        Shape::I32 => match v {
            SpecValue::I32(x) => Ok(SpecDatum::I32(x)),
            _ => Err(DecodeError::InvalidType),
        },
        Shape::U32 => match v {
            SpecValue::U32(x) => Ok(SpecDatum::U32(x)),
            _ => Err(DecodeError::InvalidType),
        },
        Shape::I64 => match v {
            SpecValue::I64(x) => Ok(SpecDatum::I64(x)),
            _ => Err(DecodeError::InvalidType),
        },
        Shape::U64 => match v {
            SpecValue::U64(x) => Ok(SpecDatum::U64(x)),
            _ => Err(DecodeError::InvalidType),
        },
        Shape::F32 => match v {
            SpecValue::F32(x) => Ok(SpecDatum::F32(x)),
            _ => Err(DecodeError::InvalidType),
        },
        Shape::F64 => match v {
            SpecValue::F64(x) => Ok(SpecDatum::F64(x)),
            _ => Err(DecodeError::InvalidType),
        },
        Shape::Char => match v {
            SpecValue::String(cs) => if cs.len() == 1 {
                Ok(SpecDatum::Char(cs[0]))
            } else {
                Err(DecodeError::InvalidValue)
            },
            _ => Err(DecodeError::InvalidType),
        },
        Shape::Str => match v {
            SpecValue::String(cs) => Ok(SpecDatum::Str(cs)),
            _ => Err(DecodeError::InvalidType),
        },
        Shape::Bytes => match v {
            SpecValue::Binary(bs) => Ok(SpecDatum::Bytes(bs)),
            _ => Err(DecodeError::InvalidType),
        },
        Shape::Optional(inner) => match v {
            SpecValue::Null => Ok(SpecDatum::Optional(None)),
            _ => match spec_from_value(*inner, v) {
                Ok(d) => Ok(SpecDatum::Optional(Some(Box::new(d)))),
                Err(e) => Err(e),
            },
        },
        Shape::Unit => match v {
            SpecValue::Null => Ok(SpecDatum::Unit),
            _ => Err(DecodeError::InvalidType),
        },
        Shape::List(elem) => match v {
            SpecValue::Array(es) => match spec_from_elems(*elem, es, 0) {
                Ok(ds) => Ok(SpecDatum::List(ds)),
                Err(e) => Err(e),
            },
            _ => Err(DecodeError::InvalidType),
        },
        Shape::Tuple(shapes) => match v {
            SpecValue::Array(es) => if es.len() != shapes.len() {
                Err(DecodeError::InvalidLength)
            } else {
                match spec_from_tuple(shapes, es, 0) {
                    Ok(ds) => Ok(SpecDatum::Tuple(ds)),
                    Err(e) => Err(e),
                }
            },
            _ => Err(DecodeError::InvalidType),
        },
        Shape::Table(kshape, vshape) => match v {
            SpecValue::Message(es) => match spec_from_table(*kshape, *vshape, es, 0) {
                Ok(ps) => Ok(SpecDatum::Table(ps)),
                Err(e) => Err(e),
            },
            SpecValue::Binary(_) | SpecValue::TimeStamp(_) | SpecValue::Id(_) => match
                spec_from_table(*kshape, *vshape, spec_to_extended(v), 0) {
                Ok(ps) => Ok(SpecDatum::Table(ps)),
                Err(e) => Err(e),
            },
            _ => Err(DecodeError::InvalidType),
        },
        Shape::Struct(fields) => match v {
            SpecValue::Message(es) => spec_from_struct(fields, es),
            SpecValue::Binary(_) | SpecValue::TimeStamp(_) | SpecValue::Id(_) => spec_from_struct(
                fields,
                spec_to_extended(v),
            ),
            _ => Err(DecodeError::InvalidType),
        },
        Shape::NewtypeStruct(inner) => match spec_from_value(*inner, v) {
            Ok(d) => Ok(SpecDatum::NewtypeStruct(Box::new(d))),
            Err(e) => Err(e),
        },
        Shape::Enum(vars) => match v {
            SpecValue::String(n) => {
                let j = field_index(vars, n, 0);
                if j < 0 || j >= vars.len() {
                    Err(DecodeError::UnknownVariant)
                } else {
                    match vars[j].1 {
                        VariantShape::Unit => Ok(SpecDatum::UnitVariant(n)),
                        _ => Err(DecodeError::EndOfStream),
                    }
                }
            },
            SpecValue::Message(es) => if es.len() == 0 {
                Err(DecodeError::SyntaxError)
            } else if es.len() > 1 {
                Err(DecodeError::InvalidType)
            } else {
                let n = es[0].0;
                let payload = es[0].1;
                let j = field_index(vars, n, 0);
                if j < 0 || j >= vars.len() {
                    Err(DecodeError::UnknownVariant)
                } else {
                    match vars[j].1 {
                        VariantShape::Unit => Ok(SpecDatum::UnitVariant(n)),
                        VariantShape::Newtype(inner) => match spec_from_value(*inner, payload) {
                            Ok(d) => Ok(SpecDatum::NewtypeVariant(n, Box::new(d))),
                            Err(e) => Err(e),
                        },
                        VariantShape::Tuple(shapes) => match payload {
                            SpecValue::Array(es2) => if es2.len() != shapes.len() {
                                Err(DecodeError::InvalidLength)
                            } else {
                                match spec_from_tuple(shapes, es2, 0) {
                                    Ok(ds) => Ok(SpecDatum::TupleVariant(n, ds)),
                                    Err(e) => Err(e),
                                }
                            },
                            _ => Err(DecodeError::InvalidType),
                        },
                        VariantShape::Struct(fields) => match payload {
                            SpecValue::Message(es2) => match spec_from_struct(fields, es2) {
                                Ok(d) => match d {
                                    SpecDatum::Struct(fvs) => Ok(
                                        SpecDatum::StructVariant(n, fvs),
                                    ),
                                    _ => Err(DecodeError::InvalidType),
                                },
                                Err(e) => Err(e),
                            },
                            _ => Err(DecodeError::InvalidType),
                        },
                    }
                }
            },
            _ => Err(DecodeError::InvalidType),
        },
        Shape::TimeStamp => match v {
            SpecValue::TimeStamp(t) => Ok(SpecDatum::TimeStamp(t)),
            _ => Err(DecodeError::InvalidType),
        },
        Shape::Id => match v {
            SpecValue::Id(bs) => Ok(SpecDatum::Id(bs)),
            _ => Err(DecodeError::InvalidType),
        },
    }
}

/// What deserializing every element of `es[i..]` as `elem` yields.
pub open spec fn spec_from_elems(elem: Shape, es: Seq<SpecValue>, i: int) -> Result<
    Seq<SpecDatum>,
    DecodeError,
>
    decreases elem, 1int, es.len() - i,
{
    if i < 0 || i >= es.len() {
        Ok(Seq::empty())
    } else {
        match spec_from_value(elem, es[i]) {
            Ok(d) => match spec_from_elems(elem, es, i + 1) {
                Ok(ds) => Ok(seq![d] + ds),
                Err(e) => Err(e),
            },
            Err(e) => Err(e),
        }
    }
}

/// What deserializing `es[i..]` elementwise as `shapes[i..]` yields.
pub open spec fn spec_from_tuple(shapes: Vec<Shape>, es: Seq<SpecValue>, i: int) -> Result<
    Seq<SpecDatum>,
    DecodeError,
>
    decreases shapes, 1int, es.len() - i,
{
    if i < 0 || i >= es.len() || i >= shapes.len() {
        Ok(Seq::empty())
    } else {
        match spec_from_value(shapes[i], es[i]) {
            Ok(d) => match spec_from_tuple(shapes, es, i + 1) {
                Ok(ds) => Ok(seq![d] + ds),
                Err(e) => Err(e),
            },
            Err(e) => Err(e),
        }
    }
}

/// What deserializing the entries `es[i..]` as table pairs yields: each
/// key must be asked for as a string.
pub open spec fn spec_from_table(
    kshape: Shape,
    vshape: Shape,
    es: SpecEntries,
    i: int,
) -> Result<Seq<(SpecDatum, SpecDatum)>, DecodeError>
    decreases vshape, 1int, es.len() - i,
{
    if i < 0 || i >= es.len() {
        Ok(Seq::empty())
    } else if !(kshape is Str) {
        Err(DecodeError::InvalidType)
    } else {
        match spec_from_value(vshape, es[i].1) {
            Ok(d) => match spec_from_table(kshape, vshape, es, i + 1) {
                Ok(ps) => Ok(seq![(SpecDatum::Str(es[i].0), d)] + ps),
                Err(e) => Err(e),
            },
            Err(e) => Err(e),
        }
    }
}

/// What filling the declared fields from the entries `es[i..]` yields: an
/// entry naming no declared field, a field given twice, or a field whose
/// value does not deserialize stops the scan.
pub open spec fn spec_fill_fields(
    fields: Vec<(String, Shape)>,
    es: SpecEntries,
    i: int,
    acc: Seq<Option<SpecDatum>>,
) -> Result<Seq<Option<SpecDatum>>, DecodeError>
    decreases fields, 1int, es.len() - i,
{
    if i < 0 || i >= es.len() {
        Ok(acc)
    } else {
        let j = field_index(fields, es[i].0, 0);
        if j < 0 || j >= fields.len() {
            Err(DecodeError::UnknownField)
        } else if acc[j] is Some {
            Err(DecodeError::DuplicatedField)
        } else {
            match spec_from_value(fields[j].1, es[i].1) {
                Ok(d) => spec_fill_fields(fields, es, i + 1, acc.update(j, Some(d))),
                Err(e) => Err(e),
            }
        }
    }
}

/// The filled slots zipped back with their declared names, or the first
/// missing field.
pub open spec fn spec_assemble_fields(
    fields: Vec<(String, Shape)>,
    slots: Seq<Option<SpecDatum>>,
    i: int,
) -> Result<Seq<(Seq<char>, SpecDatum)>, DecodeError>
    decreases fields.len() - i,
{
    if i < 0 || i >= fields.len() {
        Ok(Seq::empty())
    } else {
        match slots[i] {
            Option::Some(d) => match spec_assemble_fields(fields, slots, i + 1) {
                Ok(fvs) => Ok(seq![(fields[i].0@, d)] + fvs),
                Err(e) => Err(e),
            },
            Option::None => Err(DecodeError::ExpectedField),
        }
    }
}

/// What deserializing the entries `es` as the declared record fields
/// yields: fields may come in any order; each must come exactly once.
pub open spec fn spec_from_struct(fields: Vec<(String, Shape)>, es: SpecEntries) -> Result<
    SpecDatum,
    DecodeError,
>
    decreases fields, 2int, 0int,
{
    match spec_fill_fields(fields, es, 0, Seq::new(fields.len() as nat, |j: int| None)) {
        Ok(slots) => match spec_assemble_fields(fields, slots, 0) {
            Ok(fvs) => Ok(SpecDatum::Struct(fvs)),
            Err(e) => Err(e),
        },
        Err(e) => Err(e),
    }
}

/// `field_index` returns either `-1` or the first position holding the
/// name.
pub proof fn lemma_field_index<T>(fs: Vec<(String, T)>, name: Seq<char>, i: int)
    requires
        0 <= i,
    ensures
        field_index(fs, name, i) >= 0 ==> {
            &&& i <= field_index(fs, name, i) < fs.len()
            &&& fs[field_index(fs, name, i)].0@ == name
            &&& forall|j: int| i <= j < field_index(fs, name, i) ==> fs[j].0@ != name
        },
        field_index(fs, name, i) < 0 ==> (forall|j: int|
            i <= j < fs.len() ==> fs[j].0@ != name),
    decreases fs.len() - i,
{
    if i < fs.len() && fs[i].0@ != name {
        lemma_field_index(fs, name, i + 1);
    }
}

/// The models of the slots `sv[i..]`.
pub open spec fn slot_views(sv: Vec<Option<Datum>>, i: int) -> Seq<Option<SpecDatum>>
    decreases sv, sv.len() - i,
{
    if i < 0 || i >= sv.len() {
        Seq::empty()
    } else {
        match sv[i] {
            Option::Some(d) => seq![Some(datum_view(d))] + slot_views(sv, i + 1),
            Option::None => seq![None::<SpecDatum>] + slot_views(sv, i + 1),
        }
    }
}

/// `slot_views(sv, i)` lists the slot models of `sv[i..]`, one per slot.
pub proof fn lemma_slot_views(sv: Vec<Option<Datum>>, i: int)
    requires
        0 <= i <= sv.len(),
    ensures
        slot_views(sv, i).len() == sv.len() - i,
        forall|k: int|
            0 <= k < sv.len() - i ==> #[trigger] slot_views(sv, i)[k] == (match sv[k + i] {
                Option::Some(d) => Some(datum_view(d)),
                Option::None => None::<SpecDatum>,
            }),
    decreases sv.len() - i,
{
    if i < sv.len() {
        lemma_slot_views(sv, i + 1);
    }
}

/// Finds the declared field or variant named like `name`.
fn find_name<T>(fs: &Vec<(String, T)>, name: &str) -> (r: Option<usize>)
    ensures
        match r {
            Some(j) => j == field_index(*fs, name@, 0) && j < fs.len(),
            None => field_index(*fs, name@, 0) < 0,
        },
{
    proof {
        lemma_field_index(*fs, name@, 0);
    }
    let n = fs.len();
    let mut i: usize = 0;
    while i < n
        invariant
            0 <= i <= n,
            n == fs.len(),
            forall|j: int| 0 <= j < i ==> fs[j].0@ != name@,
        decreases n - i,
    {
        if crate::message::str_eq(fs[i].0.as_str(), name) {
            proof {
                lemma_field_index(*fs, name@, 0);
                if field_index(*fs, name@, 0) < 0 {
                    assert(fs[i as int].0@ != name@);
                }
            }
            return Some(i);
        }
        i = i + 1;
    }
    proof {
        lemma_field_index(*fs, name@, 0);
        if field_index(*fs, name@, 0) >= 0 {
            assert(fs[field_index(*fs, name@, 0)].0@ != name@);
        }
    }
    None
}

/// Deserializes `v` as shape `shape`: exactly what [`spec_from_value`]
/// says.
#[verifier::rlimit(100)]
pub fn from_nson(shape: &Shape, v: &Value) -> (r: DecodeResult<Datum>)
    ensures
        match r {
            Ok(d) => spec_from_value(*shape, v@) == Ok::<SpecDatum, DecodeError>(d@),
            Err(e) => spec_from_value(*shape, v@) == Err::<SpecDatum, DecodeError>(e),
        },
    decreases shape, 0int,
{
    proof {
        lemma_value_view_kinds(*v);
    }
    match shape {
        Shape::Bool => match v {
            Value::Bool(b) => Ok(Datum::Bool(*b)),
            _ => Err(DecodeError::InvalidType),
        },
        Shape::I8 => match v {
            Value::I8(x) => Ok(Datum::I8(*x)),
            _ => Err(DecodeError::InvalidType),
        },
        Shape::U8 => match v {
            Value::U8(x) => Ok(Datum::U8(*x)),
            _ => Err(DecodeError::InvalidType),
        },
        Shape::I16 => match v {
            Value::I16(x) => Ok(Datum::I16(*x)),
            _ => Err(DecodeError::InvalidType),
        },
        Shape::U16 => match v {
            Value::U16(x) => Ok(Datum::U16(*x)),
            _ => Err(DecodeError::InvalidType),
        },
        Shape::I32 => match v {
            Value::I32(x) => Ok(Datum::I32(*x)),
            _ => Err(DecodeError::InvalidType),
        },
        Shape::U32 => match v {
            Value::U32(x) => Ok(Datum::U32(*x)),
            _ => Err(DecodeError::InvalidType),
        },
        Shape::I64 => match v {
            Value::I64(x) => Ok(Datum::I64(*x)),
            _ => Err(DecodeError::InvalidType),
        },
        Shape::U64 => match v {
            Value::U64(x) => Ok(Datum::U64(*x)),
            _ => Err(DecodeError::InvalidType),
        },
        Shape::F32 => match v {
            Value::F32(x) => Ok(Datum::F32(*x)),
            _ => Err(DecodeError::InvalidType),
        },
        Shape::F64 => match v {
            Value::F64(x) => Ok(Datum::F64(*x)),
            _ => Err(DecodeError::InvalidType),
        },
        Shape::Char => match v {
            Value::String(s) => {
                if s.as_str().unicode_len() == 1 {
                    Ok(Datum::Char(s.as_str().get_char(0)))
                } else {
                    Err(DecodeError::InvalidValue)
                }
            },
            _ => Err(DecodeError::InvalidType),
        },
        Shape::Str => match v {
            Value::String(s) => Ok(Datum::Str(s.clone())),
            _ => Err(DecodeError::InvalidType),
        },
        Shape::Bytes => match v {
            Value::Binary(b) => Ok(Datum::Bytes(crate::value::clone_bytes(&b.0))),
            _ => Err(DecodeError::InvalidType),
        },
        Shape::Optional(inner) => match v {
            Value::Null => Ok(Datum::Optional(None)),
            _ => match from_nson(&**inner, v) {
                Ok(d) => Ok(Datum::Optional(Some(Box::new(d)))),
                Err(e) => Err(e),
            },
        },
        Shape::Unit => match v {
            Value::Null => Ok(Datum::Unit),
            _ => Err(DecodeError::InvalidType),
        },
        Shape::List(elem) => match v {
            Value::Array(a) => match from_elems(elem, &a.inner) {
                Ok(ds) => Ok(Datum::List(ds)),
                Err(e) => Err(e),
            },
            _ => Err(DecodeError::InvalidType),
        },
        Shape::Tuple(shapes) => match v {
            Value::Array(a) => {
                proof {
                    crate::value::lemma_elem_views(a.inner, 0);
                }
                if a.inner.len() != shapes.len() {
                    Err(DecodeError::InvalidLength)
                } else {
                    match from_tuple(shapes, &a.inner) {
                        Ok(ds) => Ok(Datum::Tuple(ds)),
                        Err(e) => Err(e),
                    }
                }
            },
            _ => Err(DecodeError::InvalidType),
        },
        Shape::Table(kshape, vshape) => match v {
            Value::Message(m) => match from_table(kshape, vshape, m) {
                Ok(ps) => Ok(Datum::Table(ps)),
                Err(e) => Err(e),
            },
            Value::Binary(_) | Value::TimeStamp(_) | Value::Id(_) => {
                let ext = to_extended_map(v);
                match from_table(kshape, vshape, &ext) {
                    Ok(ps) => Ok(Datum::Table(ps)),
                    Err(e) => Err(e),
                }
            },
            _ => Err(DecodeError::InvalidType),
        },
        Shape::Struct(fields) => match v {
            Value::Message(m) => from_struct(fields, m),
            Value::Binary(_) | Value::TimeStamp(_) | Value::Id(_) => {
                let ext = to_extended_map(v);
                from_struct(fields, &ext)
            },
            _ => Err(DecodeError::InvalidType),
        },
        Shape::NewtypeStruct(inner) => match from_nson(&**inner, v) {
            Ok(d) => Ok(Datum::NewtypeStruct(Box::new(d))),
            Err(e) => Err(e),
        },
        Shape::Enum(vars) => match v {
            Value::String(n) => match find_name(vars, n.as_str()) {
                Some(j) => match &vars[j].1 {
                    VariantShape::Unit => Ok(Datum::UnitVariant(n.clone())),
                    _ => Err(DecodeError::EndOfStream),
                },
                None => Err(DecodeError::UnknownVariant),
            },
            Value::Message(m) => {
                proof {
                    crate::value::lemma_entry_views(m.inner, 0);
                }
                if m.inner.len() == 0 {
                    return Err(DecodeError::SyntaxError);
                }
                if m.inner.len() > 1 {
                    return Err(DecodeError::InvalidType);
                }
                let pair = &m.inner[0];
                let j = match find_name(vars, pair.0.as_str()) {
                    Some(j) => j,
                    None => {
                        return Err(DecodeError::UnknownVariant);
                    },
                };
                match &vars[j].1 {
                    VariantShape::Unit => Ok(Datum::UnitVariant(pair.0.clone())),
                    VariantShape::Newtype(inner) => match from_nson(&**inner, &pair.1) {
                        Ok(d) => Ok(Datum::NewtypeVariant(pair.0.clone(), Box::new(d))),
                        Err(e) => Err(e),
                    },
                    VariantShape::Tuple(shapes) => match &pair.1 {
                        Value::Array(a) => {
                            proof {
                                crate::value::lemma_elem_views(a.inner, 0);
                            }
                            if a.inner.len() != shapes.len() {
                                Err(DecodeError::InvalidLength)
                            } else {
                                match from_tuple(shapes, &a.inner) {
                                    Ok(ds) => Ok(Datum::TupleVariant(pair.0.clone(), ds)),
                                    Err(e) => Err(e),
                                }
                            }
                        },
                        other => {
                            proof {
                                lemma_value_view_kinds(*other);
                            }
                            Err(DecodeError::InvalidType)
                        },
                    },
                    VariantShape::Struct(fields) => match &pair.1 {
                        Value::Message(m2) => match from_struct(fields, m2) {
                            Ok(d) => match d {
                                Datum::Struct(fvs) => Ok(
                                    Datum::StructVariant(pair.0.clone(), fvs),
                                ),
                                _ => {
                                    proof {
                                        assert(false);
                                    }
                                    Err(DecodeError::InvalidType)
                                },
                            },
                            Err(e) => Err(e),
                        },
                        other => {
                            proof {
                                lemma_value_view_kinds(*other);
                            }
                            Err(DecodeError::InvalidType)
                        },
                    },
                }
            },
            _ => Err(DecodeError::InvalidType),
        },
        Shape::TimeStamp => match v {
            Value::TimeStamp(t) => Ok(Datum::TimeStamp(t.0)),
            _ => Err(DecodeError::InvalidType),
        },
        Shape::Id => match v {
            Value::Id(id) => Ok(Datum::Id(*id)),
            _ => Err(DecodeError::InvalidType),
        },
    }
}

/// The value's model has the same constructor as the value.
proof fn lemma_value_view_kinds(v: Value)
    ensures
        (v@ is Bool <==> v is Bool),
        (v@ is I8 <==> v is I8),
        (v@ is U8 <==> v is U8),
        (v@ is I16 <==> v is I16),
        (v@ is U16 <==> v is U16),
        (v@ is I32 <==> v is I32),
        (v@ is U32 <==> v is U32),
        (v@ is I64 <==> v is I64),
        (v@ is U64 <==> v is U64),
        (v@ is F32 <==> v is F32),
        (v@ is F64 <==> v is F64),
        (v@ is String <==> v is String),
        (v@ is Array <==> v is Array),
        (v@ is Message <==> v is Message),
        (v@ is Null <==> v is Null),
        (v@ is Binary <==> v is Binary),
        (v@ is TimeStamp <==> v is TimeStamp),
        (v@ is Id <==> v is Id),
{
    match v {
        Value::F32(..) => {},
        Value::F64(..) => {},
        Value::I32(..) => {},
        Value::I64(..) => {},
        Value::U32(..) => {},
        Value::U64(..) => {},
        Value::I8(..) => {},
        Value::U8(..) => {},
        Value::I16(..) => {},
        Value::U16(..) => {},
        Value::String(..) => {},
        Value::Array(..) => {},
        Value::Message(..) => {},
        Value::Bool(..) => {},
        Value::Null => {},
        Value::Binary(..) => {},
        Value::TimeStamp(..) => {},
        Value::Id(..) => {},
    }
}

/// Deserializes every element of `es` as `elem`, in order.
#[verifier::loop_isolation(false)]
fn from_elems(elem: &Shape, es: &Vec<Value>) -> (r: DecodeResult<Vec<Datum>>)
    ensures
        match r {
            Ok(ds) => spec_from_elems(*elem, crate::value::elem_views(*es, 0), 0) == Ok::<
                Seq<SpecDatum>,
                DecodeError,
            >(datum_views(ds, 0)),
            Err(e) => spec_from_elems(*elem, crate::value::elem_views(*es, 0), 0) == Err::<
                Seq<SpecDatum>,
                DecodeError,
            >(e),
        },
    decreases elem, 1int,
{
    proof {
        crate::value::lemma_elem_views(*es, 0);
    }
    let ghost views = crate::value::elem_views(*es, 0);
    let mut out: Vec<Datum> = Vec::with_capacity(es.len());
    let n = es.len();
    let mut i: usize = 0;
    while i < n
        invariant
            0 <= i <= n,
            n == es.len(),
            views == crate::value::elem_views(*es, 0),
            views.len() == n,
            forall|k: int|
                0 <= k < n ==> #[trigger] crate::value::elem_views(*es, 0)[k]
                    == crate::value::view_of(es[k]),
            out@.len() == i,
            spec_from_elems(*elem, views, 0) == (match spec_from_elems(*elem, views, i as int) {
                Ok(ds) => Ok::<Seq<SpecDatum>, DecodeError>(datum_views(out, 0) + ds),
                Err(e) => Err::<Seq<SpecDatum>, DecodeError>(e),
            }),
        decreases n - i,
    {
        match from_nson(elem, &es[i]) {
            Ok(d) => {
                let ghost prev = out;
                out.push(d);
                proof {
                    lemma_datum_views(out, 0);
                    lemma_datum_views(prev, 0);
                    let r2 = spec_from_elems(*elem, views, i + 1);
                    assert(datum_views(out, 0) =~= datum_views(prev, 0).push(datum_view(d)));
                    match r2 {
                        Ok(ds) => {
                            assert(datum_views(prev, 0) + (seq![datum_view(d)] + ds)
                                =~= datum_views(out, 0) + ds);
                        },
                        Err(_) => {},
                    }
                }
            },
            Err(e) => {
                return Err(e);
            },
        }
        i = i + 1;
    }
    proof {
        assert(datum_views(out, 0) + Seq::<SpecDatum>::empty() =~= datum_views(out, 0));
    }
    Ok(out)
}

/// Deserializes `es` elementwise as `shapes`, in order; the lengths are
/// equal.
#[verifier::loop_isolation(false)]
fn from_tuple(shapes: &Vec<Shape>, es: &Vec<Value>) -> (r: DecodeResult<Vec<Datum>>)
    requires
        es.len() == shapes.len(),
    ensures
        match r {
            Ok(ds) => spec_from_tuple(*shapes, crate::value::elem_views(*es, 0), 0) == Ok::<
                Seq<SpecDatum>,
                DecodeError,
            >(datum_views(ds, 0)),
            Err(e) => spec_from_tuple(*shapes, crate::value::elem_views(*es, 0), 0) == Err::<
                Seq<SpecDatum>,
                DecodeError,
            >(e),
        },
    decreases shapes, 1int,
{
    proof {
        crate::value::lemma_elem_views(*es, 0);
    }
    let ghost views = crate::value::elem_views(*es, 0);
    let mut out: Vec<Datum> = Vec::with_capacity(es.len());
    let n = es.len();
    let mut i: usize = 0;
    while i < n
        invariant
            0 <= i <= n,
            n == es.len(),
            n == shapes.len(),
            views == crate::value::elem_views(*es, 0),
            views.len() == n,
            forall|k: int|
                0 <= k < n ==> #[trigger] crate::value::elem_views(*es, 0)[k]
                    == crate::value::view_of(es[k]),
            out@.len() == i,
            spec_from_tuple(*shapes, views, 0) == (match spec_from_tuple(
                *shapes,
                views,
                i as int,
            ) {
                Ok(ds) => Ok::<Seq<SpecDatum>, DecodeError>(datum_views(out, 0) + ds),
                Err(e) => Err::<Seq<SpecDatum>, DecodeError>(e),
            }),
        decreases n - i,
    {
        match from_nson(&shapes[i], &es[i]) {
            Ok(d) => {
                let ghost prev = out;
                out.push(d);
                proof {
                    lemma_datum_views(out, 0);
                    lemma_datum_views(prev, 0);
                    let r2 = spec_from_tuple(*shapes, views, i + 1);
                    assert(datum_views(out, 0) =~= datum_views(prev, 0).push(datum_view(d)));
                    match r2 {
                        Ok(ds) => {
                            assert(datum_views(prev, 0) + (seq![datum_view(d)] + ds)
                                =~= datum_views(out, 0) + ds);
                        },
                        Err(_) => {},
                    }
                }
            },
            Err(e) => {
                return Err(e);
            },
        }
        i = i + 1;
    }
    proof {
        assert(datum_views(out, 0) + Seq::<SpecDatum>::empty() =~= datum_views(out, 0));
    }
    Ok(out)
}

/// Deserializes the entries of `msg` as table pairs: each key is asked for
/// as a string.
#[verifier::loop_isolation(false)]
fn from_table(kshape: &Shape, vshape: &Shape, msg: &Message) -> (r: DecodeResult<
    Vec<(Datum, Datum)>,
>)
    ensures
        match r {
            Ok(ps) => spec_from_table(*kshape, *vshape, msg@, 0) == Ok::<
                Seq<(SpecDatum, SpecDatum)>,
                DecodeError,
            >(pair_views(ps, 0)),
            Err(e) => spec_from_table(*kshape, *vshape, msg@, 0) == Err::<
                Seq<(SpecDatum, SpecDatum)>,
                DecodeError,
            >(e),
        },
    decreases vshape, 1int,
{
    proof {
        crate::value::lemma_entry_views(msg.inner, 0);
    }
    let ghost views = msg@;
    let mut out: Vec<(Datum, Datum)> = Vec::with_capacity(msg.inner.len());
    let n = msg.inner.len();
    let mut i: usize = 0;
    while i < n
        invariant
            0 <= i <= n,
            n == msg.inner.len(),
            views == msg@,
            views.len() == n,
            forall|k: int|
                0 <= k < n ==> #[trigger] crate::value::entry_views(msg.inner, 0)[k] == (
                    msg.inner[k].0@,
                    crate::value::view_of(msg.inner[k].1),
                ),
            out@.len() == i,
            spec_from_table(*kshape, *vshape, views, 0) == (match spec_from_table(
                *kshape,
                *vshape,
                views,
                i as int,
            ) {
                Ok(ps) => Ok::<Seq<(SpecDatum, SpecDatum)>, DecodeError>(pair_views(out, 0) + ps),
                Err(e) => Err::<Seq<(SpecDatum, SpecDatum)>, DecodeError>(e),
            }),
        decreases n - i,
    {
        let is_str_shape = match kshape {
            Shape::Str => true,
            _ => false,
        };
        if !is_str_shape {
            return Err(DecodeError::InvalidType);
        }
        let pair = &msg.inner[i];
        match from_nson(vshape, &pair.1) {
            Ok(d) => {
                let ghost prev = out;
                out.push((Datum::Str(pair.0.clone()), d));
                proof {
                    lemma_pair_views(out, 0);
                    lemma_pair_views(prev, 0);
                    let r2 = spec_from_table(*kshape, *vshape, views, i + 1);
                    assert(pair_views(out, 0) =~= pair_views(prev, 0).push(
                        (SpecDatum::Str(pair.0@), datum_view(d)),
                    ));
                    match r2 {
                        Ok(ps) => {
                            assert(pair_views(prev, 0) + (seq![
                                (SpecDatum::Str(views[i as int].0), datum_view(d)),
                            ] + ps) =~= pair_views(out, 0) + ps);
                        },
                        Err(_) => {},
                    }
                }
            },
            Err(e) => {
                return Err(e);
            },
        }
        i = i + 1;
    }
    proof {
        assert(pair_views(out, 0) + Seq::<(SpecDatum, SpecDatum)>::empty() =~= pair_views(out, 0));
    }
    Ok(out)
}

/// Deserializes the entries of `msg` as the declared record fields:
/// fields may come in any order and must each come exactly once.
#[verifier::loop_isolation(false)]
#[verifier::rlimit(100)]
fn from_struct(fields: &Vec<(String, Shape)>, msg: &Message) -> (r: DecodeResult<Datum>)
    ensures
        match r {
            Ok(d) => spec_from_struct(*fields, msg@) == Ok::<SpecDatum, DecodeError>(d@) && d
                is Struct,
            Err(e) => spec_from_struct(*fields, msg@) == Err::<SpecDatum, DecodeError>(e),
        },
    decreases fields, 2int,
{
    proof {
        crate::value::lemma_entry_views(msg.inner, 0);
    }
    let ghost views = msg@;
    let nf = fields.len();
    let mut slots: Vec<Option<Datum>> = Vec::with_capacity(nf);
    let mut si: usize = 0;
    while si < nf
        invariant
            0 <= si <= nf,
            nf == fields.len(),
            slots@.len() == si,
            forall|k: int| 0 <= k < si ==> slots@[k] is None,
        decreases nf - si,
    {
        slots.push(None);
        si = si + 1;
    }
    proof {
        lemma_slot_views(slots, 0);
        assert(slot_views(slots, 0) =~= Seq::new(nf as nat, |j: int| None::<SpecDatum>));
    }
    let n = msg.inner.len();
    let mut i: usize = 0;
    while i < n
        invariant
            0 <= i <= n,
            n == msg.inner.len(),
            nf == fields.len(),
            views == msg@,
            views.len() == n,
            forall|k: int|
                0 <= k < n ==> #[trigger] crate::value::entry_views(msg.inner, 0)[k] == (
                    msg.inner[k].0@,
                    crate::value::view_of(msg.inner[k].1),
                ),
            slots@.len() == nf,
            spec_fill_fields(*fields, views, 0, Seq::new(nf as nat, |j: int| None::<SpecDatum>))
                == spec_fill_fields(*fields, views, i as int, slot_views(slots, 0)),
        decreases n - i,
    {
        let pair = &msg.inner[i];
        let j = match find_name(fields, pair.0.as_str()) {
            Some(j) => j,
            None => {
                return Err(DecodeError::UnknownField);
            },
        };
        let filled = match &slots[j] {
            Some(_) => true,
            None => false,
        };
        if filled {
            proof {
                lemma_slot_views(slots, 0);
            }
            return Err(DecodeError::DuplicatedField);
        }
        match from_nson(&fields[j].1, &pair.1) {
            Ok(d) => {
                let ghost prev = slots;
                slots[j] = Some(d);
                proof {
                    lemma_slot_views(slots, 0);
                    lemma_slot_views(prev, 0);
                    assert(slot_views(slots, 0) =~= slot_views(prev, 0).update(
                        j as int,
                        Some(datum_view(d)),
                    ));
                }
            },
            Err(e) => {
                proof {
                    lemma_slot_views(slots, 0);
                }
                return Err(e);
            },
        }
        i = i + 1;
    }
    let ghost filled_slots = slot_views(slots, 0);
    let mut out: Vec<(String, Datum)> = Vec::with_capacity(nf);
    let mut j: usize = 0;
    let ghost orig = slots;
    proof {
        lemma_slot_views(slots, 0);
        lemma_field_views(out, 0);
        assert(filled_slots.skip(0) =~= filled_slots);
        let r0 = spec_assemble_fields(*fields, filled_slots, 0);
        match r0 {
            Ok(fvs) => {
                assert(field_views(out, 0) + fvs =~= fvs);
            },
            Err(_) => {},
        }
    }
    while j < nf
        invariant
            0 <= j <= nf,
            nf == fields.len(),
            filled_slots == slot_views(orig, 0),
            filled_slots.len() == nf,
            slots@.len() == nf - j,
            slot_views(slots, 0) == filled_slots.skip(j as int),
            out@.len() == j,
            spec_assemble_fields(*fields, filled_slots, 0) == (match spec_assemble_fields(
                *fields,
                filled_slots,
                j as int,
            ) {
                Ok(fvs) => Ok::<Seq<(Seq<char>, SpecDatum)>, DecodeError>(
                    field_views(out, 0) + fvs,
                ),
                Err(e) => Err::<Seq<(Seq<char>, SpecDatum)>, DecodeError>(e),
            }),
        decreases nf - j,
    {
        proof {
            lemma_slot_views(slots, 0);
        }
        let ghost prev_slots = slots;
        let slot = slots.remove(0);
        proof {
            lemma_slot_views(slots, 0);
            assert(slots@ =~= prev_slots@.skip(1));
            assert(slot_views(slots, 0).len() == filled_slots.skip(j + 1).len());
            assert forall|k: int| 0 <= k < slot_views(slots, 0).len() implies slot_views(
                slots,
                0,
            )[k] == filled_slots.skip(j + 1)[k] by {
                assert(slots@[k] == prev_slots@[k + 1]);
                assert(slot_views(prev_slots, 0)[k + 1] == filled_slots.skip(j as int)[k + 1]);
                assert(filled_slots.skip(j as int)[k + 1] == filled_slots[j + 1 + k]);
                assert(filled_slots.skip(j + 1)[k] == filled_slots[j + 1 + k]);
            }
            assert(slot_views(slots, 0) =~= filled_slots.skip(j + 1));
            assert(slot_views(prev_slots, 0)[0] == filled_slots.skip(j as int)[0]);
            assert(filled_slots.skip(j as int)[0] == filled_slots[j as int]);
        }
        match slot {
            Some(d) => {
                let ghost prev = out;
                out.push((fields[j].0.clone(), d));
                proof {
                    lemma_field_views(out, 0);
                    lemma_field_views(prev, 0);
                    assert(filled_slots[j as int] == Some(datum_view(d)));
                    let r2 = spec_assemble_fields(*fields, filled_slots, j + 1);
                    assert(field_views(out, 0) =~= field_views(prev, 0).push(
                        (fields[j as int].0@, datum_view(d)),
                    ));
                    match r2 {
                        Ok(fvs) => {
                            assert(field_views(prev, 0) + (seq![
                                (fields[j as int].0@, datum_view(d)),
                            ] + fvs) =~= field_views(out, 0) + fvs);
                        },
                        Err(_) => {},
                    }
                }
            },
            None => {
                proof {
                    assert(filled_slots[j as int] is None);
                }
                return Err(DecodeError::ExpectedField);
            },
        }
        j = j + 1;
    }
    proof {
        assert(field_views(out, 0) + Seq::<(Seq<char>, SpecDatum)>::empty() =~= field_views(
            out,
            0,
        ));
    }
    Ok(Datum::Struct(out))
}

/// Whether the datum inhabits the shape: the kind a deserializer would
/// ask for at every position is the kind the datum has there.
pub open spec fn datum_matches(d: SpecDatum, s: Shape) -> bool
    decreases s, 0int, 0int,
{
    match s {
        Shape::Bool => d is Bool,
        Shape::I8 => d is I8,
        Shape::U8 => d is U8,
        Shape::I16 => d is I16,
        Shape::U16 => d is U16,
        Shape::I32 => d is I32,
        Shape::U32 => d is U32,
        Shape::I64 => d is I64,
        Shape::U64 => d is U64,
        Shape::F32 => d is F32,
        Shape::F64 => d is F64,
        Shape::Char => d is Char,
        Shape::Str => d is Str,
        Shape::Bytes => d is Bytes,
        Shape::Optional(inner) => match d {
            SpecDatum::Optional(o) => match o {
                Option::Some(b) => datum_matches(*b, *inner),
                Option::None => true,
            },
            _ => false,
        },
        Shape::Unit => d is Unit,
        Shape::List(elem) => match d {
            SpecDatum::List(ds) => matches_elems(ds, *elem, 0),
            _ => false,
        },
        Shape::Tuple(shapes) => match d {
            SpecDatum::Tuple(ds) => ds.len() == shapes.len() && matches_tuple(ds, shapes, 0),
            _ => false,
        },
        Shape::Table(kshape, vshape) => match d {
            SpecDatum::Table(ps) => *kshape is Str && matches_pairs(ps, *vshape, 0),
            _ => false,
        },
        Shape::Struct(fields) => match d {
            SpecDatum::Struct(fvs) => matches_fields(fvs, fields, 0),
            _ => false,
        },
        Shape::NewtypeStruct(inner) => match d {
            SpecDatum::NewtypeStruct(b) => datum_matches(*b, *inner),
            _ => false,
        },
        Shape::Enum(vars) => match d {
            SpecDatum::UnitVariant(n) => {
                let j = field_index(vars, n, 0);
                0 <= j < vars.len() && vars[j].1 is Unit
            },
            SpecDatum::NewtypeVariant(n, b) => {
                let j = field_index(vars, n, 0);
                0 <= j < vars.len() && (vars[j].1 matches VariantShape::Newtype(inner)
                    && datum_matches(*b, *inner))
            },
            SpecDatum::TupleVariant(n, ds) => {
                let j = field_index(vars, n, 0);
                0 <= j < vars.len() && (vars[j].1 matches VariantShape::Tuple(shapes) && ds.len()
                    == shapes.len() && matches_tuple(ds, shapes, 0))
            },
            SpecDatum::StructVariant(n, fvs) => {
                let j = field_index(vars, n, 0);
                0 <= j < vars.len() && (vars[j].1 matches VariantShape::Struct(fields)
                    && matches_fields(fvs, fields, 0))
            },
            _ => false,
        },
        Shape::TimeStamp => d is TimeStamp,
        Shape::Id => d is Id,
    }
}

pub open spec fn matches_elems(ds: Seq<SpecDatum>, elem: Shape, i: int) -> bool
    decreases elem, 1int, ds.len() - i,
{
    i >= ds.len() || i < 0 || (datum_matches(ds[i], elem) && matches_elems(ds, elem, i + 1))
}

pub open spec fn matches_tuple(ds: Seq<SpecDatum>, shapes: Vec<Shape>, i: int) -> bool
    decreases shapes, 1int, ds.len() - i,
{
    i >= ds.len() || i < 0 || i >= shapes.len() || (datum_matches(ds[i], shapes[i])
        && matches_tuple(ds, shapes, i + 1))
}

pub open spec fn matches_pairs(ps: Seq<(SpecDatum, SpecDatum)>, vshape: Shape, i: int) -> bool
    decreases vshape, 1int, ps.len() - i,
{
    i >= ps.len() || i < 0 || (ps[i].0 is Str && datum_matches(ps[i].1, vshape) && matches_pairs(
        ps,
        vshape,
        i + 1,
    ))
}

pub open spec fn matches_fields(
    fvs: Seq<(Seq<char>, SpecDatum)>,
    fields: Vec<(String, Shape)>,
    i: int,
) -> bool
    decreases fields, 1int, fvs.len() - i,
{
    if fvs.len() != fields.len() {
        false
    } else {
        i >= fvs.len() || i < 0 || (fvs[i].0 == fields[i].0@ && datum_matches(
            fvs[i].1,
            fields[i].1,
        ) && matches_fields(fvs, fields, i + 1))
    }
}

/// Whether a shape is one a data framework would declare: enumeration
/// variant names and record field names are pairwise distinct.
pub open spec fn shape_wf(s: Shape) -> bool
    decreases s, 1int, 0int,
{
    match s {
        Shape::Optional(inner) => shape_wf(*inner),
        Shape::List(elem) => shape_wf(*elem),
        Shape::Tuple(shapes) => shapes_wf(shapes, 0),
        Shape::Table(kshape, vshape) => shape_wf(*kshape) && shape_wf(*vshape),
        Shape::Struct(fields) => fields_wf(fields, 0) && distinct_names(fields),
        Shape::NewtypeStruct(inner) => shape_wf(*inner),
        Shape::Enum(vars) => vars_wf(vars, 0) && distinct_names(vars),
        _ => true,
    }
}

/// Whether the declared names are pairwise distinct.
pub open spec fn distinct_names<T>(fs: Vec<(String, T)>) -> bool {
    forall|i: int, j: int| 0 <= i < j < fs.len() ==> fs[i].0@ != fs[j].0@
}

pub open spec fn shapes_wf(shapes: Vec<Shape>, i: int) -> bool
    decreases shapes, 2int, shapes.len() - i,
{
    i >= shapes.len() || i < 0 || (shape_wf(shapes[i]) && shapes_wf(shapes, i + 1))
}

pub open spec fn fields_wf(fields: Vec<(String, Shape)>, i: int) -> bool
    decreases fields, 2int, fields.len() - i,
{
    i >= fields.len() || i < 0 || (shape_wf(fields[i].1) && fields_wf(fields, i + 1))
}

pub open spec fn vars_wf(vars: Vec<(String, VariantShape)>, i: int) -> bool
    decreases vars, 2int, vars.len() - i,
{
    i >= vars.len() || i < 0 || (variant_wf(vars[i].1) && vars_wf(vars, i + 1))
}

pub open spec fn variant_wf(v: VariantShape) -> bool
    decreases v, 2int, 0int,
{
    match v {
        VariantShape::Unit => true,
        VariantShape::Newtype(inner) => shape_wf(*inner),
        VariantShape::Tuple(shapes) => shapes_wf(shapes, 0),
        VariantShape::Struct(fields) => fields_wf(fields, 0) && distinct_names(fields),
    }
}

/// Whether a datum survives the round trip through the bridge: every map
/// key is a string datum, map and record keys are pairwise distinct, no
/// present optional value serializes to null (null reads back as absent),
/// and no map or record is exactly one sigil entry that the restore pass
/// would collapse.
pub open spec fn bridge_wf(d: SpecDatum) -> bool
    decreases d, 1int, 0int,
{
    match d {
        SpecDatum::Optional(o) => match o {
            Option::Some(b) => bridge_wf(*b) && spec_to_value(*b) != Ok::<SpecValue, SpecValue>(
                SpecValue::Null,
            ),
            Option::None => true,
        },
        SpecDatum::List(ds) => wf_list(ds, 0),
        SpecDatum::Tuple(ds) => wf_list(ds, 0),
        SpecDatum::Table(ps) => wf_table(ps),
        SpecDatum::Struct(fs) => wf_record(fs),
        SpecDatum::NewtypeStruct(b) => bridge_wf(*b),
        SpecDatum::NewtypeVariant(_, b) => bridge_wf(*b),
        SpecDatum::TupleVariant(_, ds) => wf_list(ds, 0),
        SpecDatum::StructVariant(_, fs) => wf_record(fs),
        _ => true,
    }
}

pub open spec fn wf_list(ds: Seq<SpecDatum>, i: int) -> bool
    decreases ds, 2int, ds.len() - i,
{
    i >= ds.len() || i < 0 || (bridge_wf(ds[i]) && wf_list(ds, i + 1))
}

pub open spec fn wf_pairs(ps: Seq<(SpecDatum, SpecDatum)>, i: int) -> bool
    decreases ps, 2int, ps.len() - i,
{
    i >= ps.len() || i < 0 || (ps[i].0 is Str && bridge_wf(ps[i].1) && wf_pairs(ps, i + 1))
}

/// Table well-formedness: string keys, pairwise distinct, values
/// well-formed, and the serialized map is not a sigil singleton.
pub open spec fn wf_table(ps: Seq<(SpecDatum, SpecDatum)>) -> bool
    decreases ps, 3int, 0int,
{
    &&& wf_pairs(ps, 0)
    &&& (forall|i: int, j: int|
        0 <= i < j < ps.len() ==> ps[i].0->Str_0 != ps[j].0->Str_0)
    &&& (match spec_table_entries(ps, 0, Seq::empty()) {
        Ok(es) => spec_from_extended(es) == SpecValue::Message(es),
        Err(_) => true,
    })
}

pub open spec fn wf_fields(fs: Seq<(Seq<char>, SpecDatum)>, i: int) -> bool
    decreases fs, 2int, fs.len() - i,
{
    i >= fs.len() || i < 0 || (bridge_wf(fs[i].1) && wf_fields(fs, i + 1))
}

/// Record well-formedness: field names pairwise distinct, values
/// well-formed, and the serialized map is not a sigil singleton.
pub open spec fn wf_record(fs: Seq<(Seq<char>, SpecDatum)>) -> bool
    decreases fs, 3int, 0int,
{
    &&& wf_fields(fs, 0)
    &&& (forall|i: int, j: int| 0 <= i < j < fs.len() ==> fs[i].0 != fs[j].0)
    &&& (match spec_field_entries(fs, 0, Seq::empty()) {
        Ok(es) => spec_from_extended(es) == SpecValue::Message(es),
        Err(_) => true,
    })
}

/// `matches_elems` holds exactly when every element from `i` on matches.
pub proof fn lemma_matches_elems(ds: Seq<SpecDatum>, elem: Shape, i: int)
    requires
        0 <= i,
    ensures
        matches_elems(ds, elem, i) <==> (forall|k: int|
            i <= k < ds.len() ==> datum_matches(#[trigger] ds[k], elem)),
    decreases ds.len() - i,
{
    if i < ds.len() {
        lemma_matches_elems(ds, elem, i + 1);
    }
}

/// `wf_list` holds exactly when every element from `i` on is well-formed.
pub proof fn lemma_wf_list(ds: Seq<SpecDatum>, i: int)
    requires
        0 <= i,
    ensures
        wf_list(ds, i) <==> (forall|k: int| i <= k < ds.len() ==> bridge_wf(#[trigger] ds[k])),
    decreases ds.len() - i,
{
    if i < ds.len() {
        lemma_wf_list(ds, i + 1);
    }
}

/// `matches_tuple` holds exactly when every element matches its position's
/// shape.
pub proof fn lemma_matches_tuple(ds: Seq<SpecDatum>, shapes: Vec<Shape>, i: int)
    requires
        0 <= i,
        ds.len() == shapes.len(),
    ensures
        matches_tuple(ds, shapes, i) <==> (forall|k: int|
            i <= k < ds.len() ==> datum_matches(#[trigger] ds[k], shapes[k])),
    decreases ds.len() - i,
{
    if i < ds.len() {
        lemma_matches_tuple(ds, shapes, i + 1);
    }
}

/// `shapes_wf` holds exactly when every shape from `i` on is well-formed.
pub proof fn lemma_shapes_wf(shapes: Vec<Shape>, i: int)
    requires
        0 <= i,
    ensures
        shapes_wf(shapes, i) <==> (forall|k: int|
            i <= k < shapes.len() ==> shape_wf(#[trigger] shapes[k])),
    decreases shapes.len() - i,
{
    if i < shapes.len() {
        lemma_shapes_wf(shapes, i + 1);
    }
}

/// `matches_pairs` holds exactly when every key is a string datum and
/// every value matches.
pub proof fn lemma_matches_pairs(ps: Seq<(SpecDatum, SpecDatum)>, vshape: Shape, i: int)
    requires
        0 <= i,
    ensures
        matches_pairs(ps, vshape, i) <==> (forall|k: int|
            #![trigger ps[k]]
            i <= k < ps.len() ==> ps[k].0 is Str && datum_matches(ps[k].1, vshape)),
    decreases ps.len() - i,
{
    if i < ps.len() {
        lemma_matches_pairs(ps, vshape, i + 1);
    }
}

/// `wf_pairs` holds exactly when every pair from `i` on is well-formed.
pub proof fn lemma_wf_pairs(ps: Seq<(SpecDatum, SpecDatum)>, i: int)
    requires
        0 <= i,
    ensures
        wf_pairs(ps, i) <==> (forall|k: int|
            #![trigger ps[k]]
            i <= k < ps.len() ==> ps[k].0 is Str && bridge_wf(ps[k].1)),
    decreases ps.len() - i,
{
    if i < ps.len() {
        lemma_wf_pairs(ps, i + 1);
    }
}

/// `matches_fields` holds exactly when names agree positionally and every
/// value matches its field's shape.
pub proof fn lemma_matches_fields(
    fvs: Seq<(Seq<char>, SpecDatum)>,
    fields: Vec<(String, Shape)>,
    i: int,
)
    requires
        0 <= i,
        fvs.len() == fields.len(),
    ensures
        matches_fields(fvs, fields, i) <==> (forall|k: int|
            #![trigger fvs[k]]
            i <= k < fvs.len() ==> fvs[k].0 == fields[k].0@ && datum_matches(
                fvs[k].1,
                fields[k].1,
            )),
    decreases fvs.len() - i,
{
    if i < fvs.len() {
        lemma_matches_fields(fvs, fields, i + 1);
    }
}

/// `fields_wf` holds exactly when every field shape from `i` on is
/// well-formed.
pub proof fn lemma_fields_wf(fields: Vec<(String, Shape)>, i: int)
    requires
        0 <= i,
    ensures
        fields_wf(fields, i) <==> (forall|k: int|
            #![trigger fields[k]]
            i <= k < fields.len() ==> shape_wf(fields[k].1)),
    decreases fields.len() - i,
{
    if i < fields.len() {
        lemma_fields_wf(fields, i + 1);
    }
}

/// `wf_fields` holds exactly when every field value from `i` on is
/// well-formed.
pub proof fn lemma_wf_fields(fs: Seq<(Seq<char>, SpecDatum)>, i: int)
    requires
        0 <= i,
    ensures
        wf_fields(fs, i) <==> (forall|k: int|
            #![trigger fs[k]]
            i <= k < fs.len() ==> bridge_wf(fs[k].1)),
    decreases fs.len() - i,
{
    if i < fs.len() {
        lemma_wf_fields(fs, i + 1);
    }
}

/// Serializing the elements `ds[i..]` when each one serializes: the
/// results, in order.
pub proof fn lemma_to_elems_pointwise(ds: Seq<SpecDatum>, i: int)
    requires
        0 <= i <= ds.len(),
        forall|k: int| i <= k < ds.len() ==> spec_to_value(#[trigger] ds[k]) is Ok,
    ensures
        spec_to_elems(ds, i) is Ok,
        spec_to_elems(ds, i)->Ok_0.len() == ds.len() - i,
        forall|k: int|
            0 <= k < ds.len() - i ==> #[trigger] spec_to_elems(ds, i)->Ok_0[k] == spec_to_value(
                ds[k + i],
            )->Ok_0,
    decreases ds.len() - i,
{
    if i < ds.len() {
        lemma_to_elems_pointwise(ds, i + 1);
    }
}

/// Deserializing elements that each deserialize to the given data yields
/// exactly those data.
pub proof fn lemma_from_elems_pointwise(
    elem: Shape,
    es: Seq<SpecValue>,
    ds: Seq<SpecDatum>,
    i: int,
)
    requires
        0 <= i <= es.len(),
        es.len() == ds.len(),
        forall|k: int|
            i <= k < es.len() ==> spec_from_value(elem, #[trigger] es[k]) == Ok::<
                SpecDatum,
                DecodeError,
            >(ds[k]),
    ensures
        spec_from_elems(elem, es, i) == Ok::<Seq<SpecDatum>, DecodeError>(ds.skip(i)),
    decreases es.len() - i,
{
    if i >= es.len() {
        assert(ds.skip(i) =~= Seq::<SpecDatum>::empty());
    } else {
        lemma_from_elems_pointwise(elem, es, ds, i + 1);
        assert(seq![ds[i]] + ds.skip(i + 1) =~= ds.skip(i));
    }
}

/// Deserializing tuple elements that each deserialize to the given data
/// yields exactly those data.
pub proof fn lemma_from_tuple_pointwise(
    shapes: Vec<Shape>,
    es: Seq<SpecValue>,
    ds: Seq<SpecDatum>,
    i: int,
)
    requires
        0 <= i <= es.len(),
        es.len() == ds.len(),
        es.len() == shapes.len(),
        forall|k: int|
            i <= k < es.len() ==> spec_from_value(shapes[k], #[trigger] es[k]) == Ok::<
                SpecDatum,
                DecodeError,
            >(ds[k]),
    ensures
        spec_from_tuple(shapes, es, i) == Ok::<Seq<SpecDatum>, DecodeError>(ds.skip(i)),
    decreases es.len() - i,
{
    if i >= es.len() {
        assert(ds.skip(i) =~= Seq::<SpecDatum>::empty());
    } else {
        lemma_from_tuple_pointwise(shapes, es, ds, i + 1);
        assert(seq![ds[i]] + ds.skip(i + 1) =~= ds.skip(i));
    }
}

/// The map a well-formed table serializes to: its pairs in order, keys
/// unchanged, values serialized.
pub open spec fn table_image(ps: Seq<(SpecDatum, SpecDatum)>, i: int) -> SpecEntries
    decreases ps.len() - i,
{
    if i < 0 || i >= ps.len() {
        Seq::empty()
    } else {
        seq![(ps[i].0->Str_0, spec_to_value(ps[i].1)->Ok_0)] + table_image(ps, i + 1)
    }
}

/// Folding distinct-keyed pairs into `acc` appends their images.
pub proof fn lemma_table_entries_image(ps: Seq<(SpecDatum, SpecDatum)>, i: int, acc: SpecEntries)
    requires
        0 <= i <= ps.len(),
        forall|k: int|
            #![trigger ps[k]]
            i <= k < ps.len() ==> ps[k].0 is Str && spec_to_value(ps[k].1) is Ok,
        forall|k: int, l: int|
            #![trigger ps[k], ps[l]]
            i <= k < l < ps.len() ==> ps[k].0->Str_0 != ps[l].0->Str_0,
        forall|k: int|
            #![trigger ps[k]]
            i <= k < ps.len() ==> !crate::model::has_key(acc, ps[k].0->Str_0),
    ensures
        spec_table_entries(ps, i, acc) == Ok::<SpecEntries, SpecValue>(acc + table_image(ps, i)),
        table_image(ps, i).len() == ps.len() - i,
        forall|k: int|
            0 <= k < ps.len() - i ==> #[trigger] table_image(ps, i)[k] == (
                ps[k + i].0->Str_0,
                spec_to_value(ps[k + i].1)->Ok_0,
            ),
    decreases ps.len() - i,
{
    if i >= ps.len() {
        assert(acc + table_image(ps, i) =~= acc);
    } else {
        let key = ps[i].0->Str_0;
        assert(ps[i].0 is Str && spec_to_value(ps[i].1) is Ok);
        assert(spec_to_value(ps[i].0) == Ok::<SpecValue, SpecValue>(SpecValue::String(key)));
        let v = spec_to_value(ps[i].1)->Ok_0;
        crate::model::lemma_key_index(acc, key);
        assert(!crate::model::has_key(acc, key));
        let acc2 = spec_insert(acc, key, v);
        assert(acc2 == acc.push((key, v)));
        assert(spec_table_entries(ps, i, acc) == spec_table_entries(ps, i + 1, acc2));
        assert forall|k: int| i + 1 <= k < ps.len() implies !crate::model::has_key(
            acc2,
            #[trigger] ps[k].0->Str_0,
        ) by {
            crate::model::lemma_key_index(acc2, ps[k].0->Str_0);
            if crate::model::has_key(acc2, ps[k].0->Str_0) {
                let w = crate::model::key_index(acc2, ps[k].0->Str_0);
                if w < acc.len() {
                    crate::model::lemma_key_index(acc, ps[k].0->Str_0);
                    assert(acc[w].0 == ps[k].0->Str_0);
                }
            }
        }
        lemma_table_entries_image(ps, i + 1, acc2);
        assert(acc2 + table_image(ps, i + 1) =~= acc + table_image(ps, i));
    }
}

/// The map a record serializes to: its fields in order, values
/// serialized.
pub open spec fn field_image(fs: Seq<(Seq<char>, SpecDatum)>, i: int) -> SpecEntries
    decreases fs.len() - i,
{
    if i < 0 || i >= fs.len() {
        Seq::empty()
    } else {
        seq![(fs[i].0, spec_to_value(fs[i].1)->Ok_0)] + field_image(fs, i + 1)
    }
}

/// Folding distinct-named fields into `acc` appends their images.
pub proof fn lemma_field_entries_image(fs: Seq<(Seq<char>, SpecDatum)>, i: int, acc: SpecEntries)
    requires
        0 <= i <= fs.len(),
        forall|k: int| #![trigger fs[k]] i <= k < fs.len() ==> spec_to_value(fs[k].1) is Ok,
        forall|k: int, l: int|
            #![trigger fs[k], fs[l]]
            i <= k < l < fs.len() ==> fs[k].0 != fs[l].0,
        forall|k: int|
            #![trigger fs[k]]
            i <= k < fs.len() ==> !crate::model::has_key(acc, fs[k].0),
    ensures
        spec_field_entries(fs, i, acc) == Ok::<SpecEntries, SpecValue>(acc + field_image(fs, i)),
        field_image(fs, i).len() == fs.len() - i,
        forall|k: int|
            0 <= k < fs.len() - i ==> #[trigger] field_image(fs, i)[k] == (
                fs[k + i].0,
                spec_to_value(fs[k + i].1)->Ok_0,
            ),
    decreases fs.len() - i,
{
    if i >= fs.len() {
        assert(acc + field_image(fs, i) =~= acc);
    } else {
        let key = fs[i].0;
        assert(spec_to_value(fs[i].1) is Ok);
        let v = spec_to_value(fs[i].1)->Ok_0;
        crate::model::lemma_key_index(acc, key);
        assert(!crate::model::has_key(acc, key));
        let acc2 = spec_insert(acc, key, v);
        assert(acc2 == acc.push((key, v)));
        assert(spec_field_entries(fs, i, acc) == spec_field_entries(fs, i + 1, acc2));
        assert forall|k: int| i + 1 <= k < fs.len() implies !crate::model::has_key(
            acc2,
            #[trigger] fs[k].0,
        ) by {
            crate::model::lemma_key_index(acc2, fs[k].0);
            if crate::model::has_key(acc2, fs[k].0) {
                let w = crate::model::key_index(acc2, fs[k].0);
                if w < acc.len() {
                    crate::model::lemma_key_index(acc, fs[k].0);
                    assert(acc[w].0 == fs[k].0);
                }
            }
        }
        lemma_field_entries_image(fs, i + 1, acc2);
        assert(acc2 + field_image(fs, i + 1) =~= acc + field_image(fs, i));
    }
}

/// Filling declared fields from entries that name them positionally sets
/// every slot to its deserialized value.
pub proof fn lemma_fill_ordered(
    fields: Vec<(String, Shape)>,
    es: SpecEntries,
    dvs: Seq<SpecDatum>,
    i: int,
    acc: Seq<Option<SpecDatum>>,
)
    requires
        0 <= i <= es.len(),
        es.len() == fields.len(),
        dvs.len() == fields.len(),
        acc.len() == fields.len(),
        distinct_names(fields),
        forall|k: int| #![trigger es[k]] 0 <= k < es.len() ==> es[k].0 == fields[k].0@,
        forall|k: int|
            0 <= k < es.len() ==> spec_from_value(fields[k].1, #[trigger] es[k].1) == Ok::<
                SpecDatum,
                DecodeError,
            >(dvs[k]),
        forall|k: int| 0 <= k < i ==> acc[k] == Some(dvs[k]),
        forall|k: int| i <= k < acc.len() ==> acc[k] is None,
    ensures
        spec_fill_fields(fields, es, i, acc) == Ok::<Seq<Option<SpecDatum>>, DecodeError>(
            Seq::new(fields.len() as nat, |k: int| Some(dvs[k])),
        ),
    decreases es.len() - i,
{
    if i >= es.len() {
        assert(acc =~= Seq::new(fields.len() as nat, |k: int| Some(dvs[k])));
    } else {
        let name = es[i].0;
        lemma_field_index(fields, name, 0);
        let j = field_index(fields, name, 0);
        assert(fields[i as int].0@ == name);
        assert(j >= 0);
        assert(j == i) by {
            if j < i {
                assert(fields[j].0@ == name && fields[i as int].0@ == name);
            }
            if j > i {
                assert(fields[i as int].0@ != name);
            }
        }
        lemma_fill_ordered(fields, es, dvs, i + 1, acc.update(i, Some(dvs[i])));
    }
}

/// Assembling fully filled slots zips names with values.
pub proof fn lemma_assemble_full(
    fields: Vec<(String, Shape)>,
    dvs: Seq<SpecDatum>,
    i: int,
)
    requires
        0 <= i <= fields.len(),
        dvs.len() == fields.len(),
    ensures
        spec_assemble_fields(fields, Seq::new(fields.len() as nat, |k: int| Some(dvs[k])), i)
            matches Ok(fvs) && fvs.len() == fields.len() - i && (forall|k: int|
            0 <= k < fields.len() - i ==> #[trigger] fvs[k] == (fields[k + i].0@, dvs[k + i])),
    decreases fields.len() - i,
{
    if i < fields.len() {
        lemma_assemble_full(fields, dvs, i + 1);
    }
}

/// Round trip through the generic bridge, stated over the model: a datum
/// that inhabits a well-formed shape and is itself well-formed serializes
/// successfully, and deserializing the result under that shape yields the
/// datum back.
pub proof fn lemma_bridge_round_trip(d: SpecDatum, s: Shape)
    requires
        shape_wf(s),
        datum_matches(d, s),
        bridge_wf(d),
    ensures
        spec_to_value(d) is Ok,
        spec_from_value(s, spec_to_value(d)->Ok_0) == Ok::<SpecDatum, DecodeError>(d),
    decreases s, 2int, 0int,
{
    match s {
        Shape::Char => {
            let c = d->Char_0;
            assert(seq![c].len() == 1);
        },
        Shape::Optional(inner) => {
            match d {
                SpecDatum::Optional(o) => match o {
                    Option::Some(b) => {
                        lemma_bridge_round_trip(*b, *inner);
                        assert(spec_to_value(d) == spec_to_value(*b));
                    },
                    Option::None => {},
                },
                _ => {},
            }
        },
        Shape::List(elem) => {
            let ds = d->List_0;
            lemma_matches_elems(ds, *elem, 0);
            lemma_wf_list(ds, 0);
            assert forall|k: int| 0 <= k < ds.len() implies spec_to_value(#[trigger] ds[k])
                is Ok && spec_from_value(*elem, spec_to_value(ds[k])->Ok_0) == Ok::<
                SpecDatum,
                DecodeError,
            >(ds[k]) by {
                lemma_bridge_round_trip(ds[k], *elem);
            }
            lemma_to_elems_pointwise(ds, 0);
            let vs = spec_to_elems(ds, 0)->Ok_0;
            lemma_from_elems_pointwise(*elem, vs, ds, 0);
            assert(ds.skip(0) =~= ds);
        },
        Shape::Tuple(shapes) => {
            let ds = d->Tuple_0;
            lemma_matches_tuple(ds, shapes, 0);
            lemma_shapes_wf(shapes, 0);
            lemma_wf_list(ds, 0);
            assert forall|k: int| 0 <= k < ds.len() implies spec_to_value(#[trigger] ds[k])
                is Ok && spec_from_value(shapes[k], spec_to_value(ds[k])->Ok_0) == Ok::<
                SpecDatum,
                DecodeError,
            >(ds[k]) by {
                lemma_bridge_round_trip(ds[k], shapes[k]);
            }
            lemma_to_elems_pointwise(ds, 0);
            let vs = spec_to_elems(ds, 0)->Ok_0;
            lemma_from_tuple_pointwise(shapes, vs, ds, 0);
            assert(ds.skip(0) =~= ds);
        },
        Shape::Table(kshape, vshape) => {
            let ps = d->Table_0;
            assert(wf_table(ps));
            lemma_matches_pairs(ps, *vshape, 0);
            lemma_wf_pairs(ps, 0);
            assert forall|k: int|
                #![trigger ps[k]]
                0 <= k < ps.len() implies ps[k].0 is Str && bridge_wf(ps[k].1) && spec_to_value(
                ps[k].1,
            ) is Ok && spec_from_value(*vshape, spec_to_value(ps[k].1)->Ok_0) == Ok::<
                SpecDatum,
                DecodeError,
            >(ps[k].1) by {
                assert(ps[k].0 is Str && bridge_wf(ps[k].1));
                assert(datum_matches(ps[k].1, *vshape));
                lemma_bridge_round_trip(ps[k].1, *vshape);
            }
            assert forall|k: int, l: int|
                #![trigger ps[k], ps[l]]
                0 <= k < l < ps.len() implies ps[k].0->Str_0 != ps[l].0->Str_0 by {
            }
            assert forall|k: int|
                #![trigger ps[k]]
                0 <= k < ps.len() implies !crate::model::has_key(
                Seq::<(Seq<char>, SpecValue)>::empty(),
                ps[k].0->Str_0,
            ) by {
                crate::model::lemma_key_index(
                    Seq::<(Seq<char>, SpecValue)>::empty(),
                    ps[k].0->Str_0,
                );
            }
            lemma_table_entries_image(ps, 0, Seq::empty());
            let es = Seq::empty() + table_image(ps, 0);
            assert(es =~= table_image(ps, 0));
            assert(spec_table_entries(ps, 0, Seq::empty()) == Ok::<SpecEntries, SpecValue>(es));
            assert(spec_from_extended(es) == SpecValue::Message(es));
            assert forall|k: int| 0 <= k < es.len() implies spec_from_value(
                *vshape,
                #[trigger] es[k].1,
            ) == Ok::<SpecDatum, DecodeError>(ps[k].1) by {
                assert(es[k] == (ps[k].0->Str_0, spec_to_value(ps[k].1)->Ok_0));
            }
            lemma_from_table_pointwise(*kshape, *vshape, es, ps, 0);
            assert(ps.skip(0) =~= ps);
        },
        Shape::Struct(fields) => {
            let fvs = d->Struct_0;
            assert(matches_fields(fvs, fields, 0));
            assert(fvs.len() == fields.len());
            assert(wf_record(fvs));
            assert(wf_fields(fvs, 0));
            lemma_matches_fields(fvs, fields, 0);
            lemma_fields_wf(fields, 0);
            lemma_wf_fields(fvs, 0);
            lemma_struct_round_trip(fvs, fields);
        },
        Shape::NewtypeStruct(inner) => {
            let b = d->NewtypeStruct_0;
            lemma_bridge_round_trip(*b, *inner);
        },
        Shape::Enum(vars) => {
            match d {
                SpecDatum::UnitVariant(n) => {},
                SpecDatum::NewtypeVariant(n, b) => {
                    let j = field_index(vars, n, 0);
                    lemma_vars_wf_at(vars, j);
                    let inner = vars[j].1->Newtype_0;
                    lemma_bridge_round_trip(*b, *inner);
                    let es = seq![(n, spec_to_value(*b)->Ok_0)];
                    assert(es.len() == 1);
                },
                SpecDatum::TupleVariant(n, ds) => {
                    let j = field_index(vars, n, 0);
                    lemma_vars_wf_at(vars, j);
                    let shapes = vars[j].1->Tuple_0;
                    lemma_matches_tuple(ds, shapes, 0);
                    lemma_shapes_wf(shapes, 0);
                    lemma_wf_list(ds, 0);
                    assert forall|k: int| 0 <= k < ds.len() implies spec_to_value(
                        #[trigger] ds[k],
                    ) is Ok && spec_from_value(shapes[k], spec_to_value(ds[k])->Ok_0) == Ok::<
                        SpecDatum,
                        DecodeError,
                    >(ds[k]) by {
                        lemma_bridge_round_trip(ds[k], shapes[k]);
                    }
                    lemma_to_elems_pointwise(ds, 0);
                    let vs = spec_to_elems(ds, 0)->Ok_0;
                    lemma_from_tuple_pointwise(shapes, vs, ds, 0);
                    assert(ds.skip(0) =~= ds);
                },
                SpecDatum::StructVariant(n, fvs) => {
                    let j = field_index(vars, n, 0);
                    lemma_vars_wf_at(vars, j);
                    let fields = vars[j].1->Struct_0;
                    assert(matches_fields(fvs, fields, 0));
                    assert(fvs.len() == fields.len());
                    assert(wf_record(fvs));
                    assert(wf_fields(fvs, 0));
                    lemma_matches_fields(fvs, fields, 0);
                    lemma_fields_wf(fields, 0);
                    lemma_wf_fields(fvs, 0);
                    lemma_struct_round_trip(fvs, fields);
                },
                _ => {},
            }
        },
        _ => {},
    }
}

/// The variant shape at a declared position is well-formed.
proof fn lemma_vars_wf_at(vars: Vec<(String, VariantShape)>, j: int)
    requires
        0 <= j < vars.len(),
        vars_wf(vars, 0),
    ensures
        variant_wf(vars[j].1),
    decreases vars.len(),
{
    lemma_vars_wf_pointwise(vars, 0);
}

/// `vars_wf` holds exactly when every variant from `i` on is well-formed.
proof fn lemma_vars_wf_pointwise(vars: Vec<(String, VariantShape)>, i: int)
    requires
        0 <= i,
    ensures
        vars_wf(vars, i) <==> (forall|k: int|
            #![trigger vars[k]]
            i <= k < vars.len() ==> variant_wf(vars[k].1)),
    decreases vars.len() - i,
{
    if i < vars.len() {
        lemma_vars_wf_pointwise(vars, i + 1);
    }
}

/// Deserializing map entries whose values each deserialize to the given
/// pair values yields exactly those pairs, keys read back as strings.
proof fn lemma_from_table_pointwise(
    kshape: Shape,
    vshape: Shape,
    es: SpecEntries,
    ps: Seq<(SpecDatum, SpecDatum)>,
    i: int,
)
    requires
        0 <= i <= es.len(),
        es.len() == ps.len(),
        kshape is Str,
        forall|k: int| #![trigger ps[k]] 0 <= k < ps.len() ==> ps[k].0 is Str,
        forall|k: int| #![trigger es[k]] 0 <= k < es.len() ==> es[k].0 == ps[k].0->Str_0,
        forall|k: int|
            0 <= k < es.len() ==> spec_from_value(vshape, #[trigger] es[k].1) == Ok::<
                SpecDatum,
                DecodeError,
            >(ps[k].1),
    ensures
        spec_from_table(kshape, vshape, es, i) == Ok::<Seq<(SpecDatum, SpecDatum)>, DecodeError>(
            ps.skip(i),
        ),
    decreases es.len() - i,
{
    if i >= es.len() {
        assert(ps.skip(i) =~= Seq::<(SpecDatum, SpecDatum)>::empty());
    } else {
        lemma_from_table_pointwise(kshape, vshape, es, ps, i + 1);
        assert(ps[i] == (SpecDatum::Str(ps[i].0->Str_0), ps[i].1));
        assert(seq![ps[i]] + ps.skip(i + 1) =~= ps.skip(i));
    }
}

/// Round trip for a record: serializing its fields in order and reading
/// the resulting map back under the declared fields yields the record.
proof fn lemma_struct_round_trip(fvs: Seq<(Seq<char>, SpecDatum)>, fields: Vec<(String, Shape)>)
    requires
        distinct_names(fields),
        fvs.len() == fields.len(),
        forall|k: int|
            #![trigger fvs[k]]
            0 <= k < fvs.len() ==> fvs[k].0 == fields[k].0@ && datum_matches(
                fvs[k].1,
                fields[k].1,
            ),
        forall|k: int| #![trigger fields[k]] 0 <= k < fields.len() ==> shape_wf(fields[k].1),
        forall|k: int| #![trigger fvs[k]] 0 <= k < fvs.len() ==> bridge_wf(fvs[k].1),
        (match spec_field_entries(fvs, 0, Seq::empty()) {
            Ok(es) => spec_from_extended(es) == SpecValue::Message(es),
            Err(_) => true,
        }),
    ensures
        spec_field_entries(fvs, 0, Seq::empty()) is Ok,
        spec_from_extended(spec_field_entries(fvs, 0, Seq::empty())->Ok_0) == SpecValue::Message(
            spec_field_entries(fvs, 0, Seq::empty())->Ok_0,
        ),
        spec_from_struct(fields, spec_field_entries(fvs, 0, Seq::empty())->Ok_0) == Ok::<
            SpecDatum,
            DecodeError,
        >(SpecDatum::Struct(fvs)),
    decreases fields, 3int, 0int,
{
    assert forall|k: int| 0 <= k < fvs.len() implies spec_to_value(#[trigger] fvs[k].1)
        is Ok && spec_from_value(fields[k].1, spec_to_value(fvs[k].1)->Ok_0) == Ok::<
        SpecDatum,
        DecodeError,
    >(fvs[k].1) by {
        lemma_bridge_round_trip(fvs[k].1, fields[k].1);
    }
    assert forall|k: int, l: int| 0 <= k < l < fvs.len() implies fvs[k].0 != fvs[l].0 by {
        assert(fvs[k].0 == fields[k].0@);
        assert(fvs[l].0 == fields[l].0@);
    }
    assert forall|k: int|
        #![trigger fvs[k]]
        0 <= k < fvs.len() implies !crate::model::has_key(
        Seq::<(Seq<char>, SpecValue)>::empty(),
        fvs[k].0,
    ) by {
        crate::model::lemma_key_index(Seq::<(Seq<char>, SpecValue)>::empty(), fvs[k].0);
    }
    lemma_field_entries_image(fvs, 0, Seq::empty());
    let es = Seq::empty() + field_image(fvs, 0);
    assert(es =~= field_image(fvs, 0));
    let dvs = Seq::new(fvs.len() as nat, |k: int| fvs[k].1);
    assert forall|k: int| #![trigger es[k]] 0 <= k < es.len() implies es[k].0 == fields[k].0@
        && spec_from_value(fields[k].1, es[k].1) == Ok::<SpecDatum, DecodeError>(dvs[k]) by {
        assert(es[k] == (fvs[k].0, spec_to_value(fvs[k].1)->Ok_0));
    }
    lemma_fill_ordered(
        fields,
        es,
        dvs,
        0,
        Seq::new(fields.len() as nat, |j: int| None::<SpecDatum>),
    );
    lemma_assemble_full(fields, dvs, 0);
    let fvs2 = spec_assemble_fields(
        fields,
        Seq::new(fields.len() as nat, |k: int| Some(dvs[k])),
        0,
    )->Ok_0;
    assert(fvs2 =~= fvs);
}

/// Relies on `String::from` for `char`: the one-character string.
#[verifier::external_body]
pub(crate) fn char_to_string(c: char) -> (r: String)
    ensures
        r@ == seq![c],
{
    String::from(c)
}

} // verus!
