//! The recursive tagged value: the unit of everything the codec encodes and
//! decodes.
//!
//! A `Value` owns its payload: strings, blobs and nested containers are
//! exclusively owned, so a value tree is a tree, never a graph.  The 32- and
//! 64-bit floating kinds carry their IEEE bit patterns as plain integers;
//! the wire format stores exactly those bits, so the codec never performs
//! floating-point arithmetic.

use vstd::prelude::*;

use crate::array::Array;
use crate::id::Id;
use crate::message::Message;
use crate::model::SpecValue;
use crate::wire::DataType;

verus! {

/// A binary blob payload.
#[derive(Debug, Eq, PartialEq, Ord, PartialOrd, Hash)]
pub struct Binary(pub Vec<u8>);

impl View for Binary {
    type V = Seq<u8>;

    open spec fn view(&self) -> Seq<u8> {
        self.0@
    }
}

/// An opaque 64-bit tick count.
#[derive(Debug, Eq, PartialEq, Ord, PartialOrd, Hash, Copy, Clone)]
pub struct TimeStamp(pub u64);

impl View for TimeStamp {
    type V = u64;

    open spec fn view(&self) -> u64 {
        self.0
    }
}

/// One tagged value.  `F32` and `F64` hold IEEE bit patterns.
#[derive(Debug, PartialEq)]
pub enum Value {
    F32(u32),
    F64(u64),
    I32(i32),
    I64(i64),
    U32(u32),
    U64(u64),
    I8(i8),
    U8(u8),
    I16(i16),
    U16(u16),
    String(String),
    Array(Array),
    Message(Message),
    Bool(bool),
    Null,
    Binary(Binary),
    TimeStamp(TimeStamp),
    Id(Id),
}

/// The model of a value: containers become sequences, strings become
/// character sequences.
pub open spec fn view_of(v: Value) -> SpecValue
    decreases v,
{
    match v {
        Value::F32(b) => SpecValue::F32(b),
        Value::F64(b) => SpecValue::F64(b),
        Value::I32(i) => SpecValue::I32(i),
        Value::I64(i) => SpecValue::I64(i),
        Value::U32(u) => SpecValue::U32(u),
        Value::U64(u) => SpecValue::U64(u),
        Value::I8(i) => SpecValue::I8(i),
        Value::U8(u) => SpecValue::U8(u),
        Value::I16(i) => SpecValue::I16(i),
        Value::U16(u) => SpecValue::U16(u),
        Value::String(s) => SpecValue::String(s@),
        Value::Array(a) => SpecValue::Array(elem_views(a.inner, 0)),
        Value::Message(m) => SpecValue::Message(entry_views(m.inner, 0)),
        Value::Bool(b) => SpecValue::Bool(b),
        Value::Null => SpecValue::Null,
        Value::Binary(b) => SpecValue::Binary(b.0@),
        Value::TimeStamp(t) => SpecValue::TimeStamp(t.0),
        Value::Id(id) => SpecValue::Id(id.bytes@),
    }
}

/// The models of the elements of `es` from position `i` on.
pub open spec fn elem_views(es: Vec<Value>, i: int) -> Seq<SpecValue>
    decreases es, es.len() - i,
{
    if i < 0 || i >= es.len() {
        Seq::empty()
    } else {
        seq![view_of(es[i])] + elem_views(es, i + 1)
    }
}

/// The models of the entries of `es` from position `i` on.
pub open spec fn entry_views(es: Vec<(String, Value)>, i: int) -> Seq<(Seq<char>, SpecValue)>
    decreases es, es.len() - i,
{
    if i < 0 || i >= es.len() {
        Seq::empty()
    } else {
        seq![(es[i].0@, view_of(es[i].1))] + entry_views(es, i + 1)
    }
}

impl View for Value {
    type V = SpecValue;

    open spec fn view(&self) -> SpecValue {
        view_of(*self)
    }
}

/// `elem_views(es, i)` lists the models of `es[i..]`, one per element.
pub proof fn lemma_elem_views(es: Vec<Value>, i: int)
    requires
        0 <= i <= es.len(),
    ensures
        elem_views(es, i).len() == es.len() - i,
        forall|k: int|
            0 <= k < es.len() - i ==> #[trigger] elem_views(es, i)[k] == view_of(es[k + i]),
    decreases es.len() - i,
{
    if i < es.len() {
        lemma_elem_views(es, i + 1);
    }
}

/// `entry_views(es, i)` lists the models of `es[i..]`, one per entry.
pub proof fn lemma_entry_views(es: Vec<(String, Value)>, i: int)
    requires
        0 <= i <= es.len(),
    ensures
        entry_views(es, i).len() == es.len() - i,
        forall|k: int|
            0 <= k < es.len() - i ==> #[trigger] entry_views(es, i)[k] == (
                es[k + i].0@,
                view_of(es[k + i].1),
            ),
    decreases es.len() - i,
{
    if i < es.len() {
        lemma_entry_views(es, i + 1);
    }
}

impl Value {
    /// The wire kind of this value.
    pub open spec fn spec_element_type(self) -> DataType {
        match self {
            Value::F32(..) => DataType::F32,
            Value::F64(..) => DataType::F64,
            Value::I32(..) => DataType::I32,
            Value::I64(..) => DataType::I64,
            Value::U32(..) => DataType::U32,
            Value::U64(..) => DataType::U64,
            Value::I8(..) => DataType::I8,
            Value::U8(..) => DataType::U8,
            Value::I16(..) => DataType::I16,
            Value::U16(..) => DataType::U16,
            Value::String(..) => DataType::String,
            Value::Array(..) => DataType::Array,
            Value::Message(..) => DataType::Message,
            Value::Bool(..) => DataType::Bool,
            Value::Null => DataType::Null,
            Value::Binary(..) => DataType::Binary,
            Value::TimeStamp(..) => DataType::TimeStamp,
            Value::Id(..) => DataType::Id,
        }
    }

    /// The wire kind of this value.
    pub fn element_type(&self) -> (r: DataType)
        ensures
            r == self.spec_element_type(),
    {
        match self {
            Value::F32(..) => DataType::F32,
            Value::F64(..) => DataType::F64,
            Value::I32(..) => DataType::I32,
            Value::I64(..) => DataType::I64,
            Value::U32(..) => DataType::U32,
            Value::U64(..) => DataType::U64,
            Value::I8(..) => DataType::I8,
            Value::U8(..) => DataType::U8,
            Value::I16(..) => DataType::I16,
            Value::U16(..) => DataType::U16,
            Value::String(..) => DataType::String,
            Value::Array(..) => DataType::Array,
            Value::Message(..) => DataType::Message,
            Value::Bool(..) => DataType::Bool,
            Value::Null => DataType::Null,
            Value::Binary(..) => DataType::Binary,
            Value::TimeStamp(..) => DataType::TimeStamp,
            Value::Id(..) => DataType::Id,
        }
    }

    /// The IEEE bit pattern of a 32-bit floating value, if this is one.
    pub fn as_f32(&self) -> (r: Option<u32>)
        ensures
            r == (match self@ {
                SpecValue::F32(v) => Some(v),
                _ => None::<u32>,
            }),
    {
        match self {
            Value::F32(v) => Some(*v),
            _ => None,
        }
    }

    /// The IEEE bit pattern of a 64-bit floating value, if this is one.
    pub fn as_f64(&self) -> (r: Option<u64>)
        ensures
            r == (match self@ {
                SpecValue::F64(v) => Some(v),
                _ => None::<u64>,
            }),
    {
        match self {
            Value::F64(v) => Some(*v),
            _ => None,
        }
    }

    pub fn as_i32(&self) -> (r: Option<i32>)
        ensures
            r == (match self@ {
                SpecValue::I32(v) => Some(v),
                _ => None::<i32>,
            }),
    {
        match self {
            Value::I32(v) => Some(*v),
            _ => None,
        }
    }

    pub fn as_u32(&self) -> (r: Option<u32>)
        ensures
            r == (match self@ {
                SpecValue::U32(v) => Some(v),
                _ => None::<u32>,
            }),
    {
        match self {
            Value::U32(v) => Some(*v),
            _ => None,
        }
    }

    pub fn as_i64(&self) -> (r: Option<i64>)
        ensures
            r == (match self@ {
                SpecValue::I64(v) => Some(v),
                _ => None::<i64>,
            }),
    {
        match self {
            Value::I64(v) => Some(*v),
            _ => None,
        }
    }

    pub fn as_u64(&self) -> (r: Option<u64>)
        ensures
            r == (match self@ {
                SpecValue::U64(v) => Some(v),
                _ => None::<u64>,
            }),
    {
        match self {
            Value::U64(v) => Some(*v),
            _ => None,
        }
    }

    pub fn as_i8(&self) -> (r: Option<i8>)
        ensures
            r == (match self@ {
                SpecValue::I8(v) => Some(v),
                _ => None::<i8>,
            }),
    {
        match self {
            Value::I8(v) => Some(*v),
            _ => None,
        }
    }

    pub fn as_u8(&self) -> (r: Option<u8>)
        ensures
            r == (match self@ {
                SpecValue::U8(v) => Some(v),
                _ => None::<u8>,
            }),
    {
        match self {
            Value::U8(v) => Some(*v),
            _ => None,
        }
    }

    pub fn as_i16(&self) -> (r: Option<i16>)
        ensures
            r == (match self@ {
                SpecValue::I16(v) => Some(v),
                _ => None::<i16>,
            }),
    {
        match self {
            Value::I16(v) => Some(*v),
            _ => None,
        }
    }

    pub fn as_u16(&self) -> (r: Option<u16>)
        ensures
            r == (match self@ {
                SpecValue::U16(v) => Some(v),
                _ => None::<u16>,
            }),
    {
        match self {
            Value::U16(v) => Some(*v),
            _ => None,
        }
    }

    pub fn as_str(&self) -> (r: Option<&str>)
        ensures
            match r {
                Some(s) => self@ matches SpecValue::String(cs) && cs == s@,
                None => !(self@ is String),
            },
    {
        match self {
            Value::String(s) => Some(s.as_str()),
            _ => None,
        }
    }

    pub fn as_array(&self) -> (r: Option<&Array>)
        ensures
            match r {
                Some(a) => self@ matches SpecValue::Array(es) && es == a@,
                None => !(self@ is Array),
            },
    {
        match self {
            Value::Array(a) => Some(a),
            _ => None,
        }
    }

    pub fn as_message(&self) -> (r: Option<&Message>)
        ensures
            match r {
                Some(m) => self@ matches SpecValue::Message(es) && es == m@,
                None => !(self@ is Message),
            },
    {
        match self {
            Value::Message(m) => Some(m),
            _ => None,
        }
    }

    pub fn as_bool(&self) -> (r: Option<bool>)
        ensures
            r == (match self@ {
                SpecValue::Bool(v) => Some(v),
                _ => None::<bool>,
            }),
    {
        match self {
            Value::Bool(v) => Some(*v),
            _ => None,
        }
    }

    pub fn as_id(&self) -> (r: Option<&Id>)
        ensures
            match r {
                Some(id) => self@ matches SpecValue::Id(bs) && bs == id.bytes@,
                None => !(self@ is Id),
            },
    {
        match self {
            Value::Id(id) => Some(id),
            _ => None,
        }
    }

    pub fn as_timestamp(&self) -> (r: Option<TimeStamp>)
        ensures
            r == (match self@ {
                SpecValue::TimeStamp(t) => Some(TimeStamp(t)),
                _ => None::<TimeStamp>,
            }),
    {
        match self {
            Value::TimeStamp(t) => Some(*t),
            _ => None,
        }
    }

    pub fn as_null(&self) -> (r: Option<()>)
        ensures
            r is Some <==> self@ is Null,
    {
        match self {
            Value::Null => Some(()),
            _ => None,
        }
    }

    pub fn as_binary(&self) -> (r: Option<&Binary>)
        ensures
            match r {
                Some(b) => self@ matches SpecValue::Binary(bs) && bs == b@,
                None => !(self@ is Binary),
            },
    {
        match self {
            Value::Binary(b) => Some(b),
            _ => None,
        }
    }
}

/// The model's constructor determines the value's constructor.
pub proof fn lemma_view_variants(v: Value)
    ensures
        (view_of(v) is Message <==> v is Message),
        (view_of(v) is Array <==> v is Array),
        (view_of(v) is String <==> v is String),
        (view_of(v) is Binary <==> v is Binary),
        (view_of(v) is TimeStamp <==> v is TimeStamp),
        (view_of(v) is Id <==> v is Id),
        (view_of(v) is U64 <==> v is U64),
        (view_of(v) is Null <==> v is Null),
{
    match v {
        Value::F32(..) => {},
        Value::F64(..) => {},
        Value::I32(..) => {},
        Value::I64(..) => {},
        Value::U32(..) => {},
        Value::U64(..) => {},
        Value::I8(..) => {},
        Value::U8(..) => {},
        Value::I16(..) => {},
        Value::U16(..) => {},
        Value::String(..) => {},
        Value::Array(..) => {},
        Value::Message(..) => {},
        Value::Bool(..) => {},
        Value::Null => {},
        Value::Binary(..) => {},
        Value::TimeStamp(..) => {},
        Value::Id(..) => {},
    }
}

/// A fresh vector holding the same bytes.
pub(crate) fn clone_bytes(v: &Vec<u8>) -> (r: Vec<u8>)
    ensures
        r@ == v@,
{
    let mut out: Vec<u8> = Vec::with_capacity(v.len());
    let n = v.len();
    let mut i: usize = 0;
    while i < n
        invariant
            0 <= i <= n,
            n == v.len(),
            out@ == v@.subrange(0, i as int),
        decreases n - i,
    {
        out.push(v[i]);
        proof {
            assert(out@ =~= v@.subrange(0, i + 1));
        }
        i = i + 1;
    }
    proof {
        assert(out@ =~= v@);
    }
    out
}

/// A deep copy of a value, with the same model.
pub(crate) fn clone_value(v: &Value) -> (r: Value)
    ensures
        r@ == v@,
    decreases v,
{
    match v {
        Value::F32(b) => Value::F32(*b),
        Value::F64(b) => Value::F64(*b),
        Value::I32(i) => Value::I32(*i),
        Value::I64(i) => Value::I64(*i),
        Value::U32(u) => Value::U32(*u),
        Value::U64(u) => Value::U64(*u),
        Value::I8(i) => Value::I8(*i),
        Value::U8(u) => Value::U8(*u),
        Value::I16(i) => Value::I16(*i),
        Value::U16(u) => Value::U16(*u),
        Value::String(s) => Value::String(s.clone()),
        Value::Array(a) => Value::Array(Array { inner: clone_values(&a.inner) }),
        Value::Message(m) => Value::Message(Message { inner: clone_entries(&m.inner) }),
        Value::Bool(b) => Value::Bool(*b),
        Value::Null => Value::Null,
        Value::Binary(b) => Value::Binary(Binary(clone_bytes(&b.0))),
        Value::TimeStamp(t) => Value::TimeStamp(*t),
        Value::Id(id) => Value::Id(*id),
    }
}

/// A fresh vector of deep copies, with the same models elementwise.
pub(crate) fn clone_values(es: &Vec<Value>) -> (r: Vec<Value>)
    ensures
        elem_views(r, 0) == elem_views(*es, 0),
    decreases *es,
{
    let mut out: Vec<Value> = Vec::with_capacity(es.len());
    let n = es.len();
    let mut i: usize = 0;
    while i < n
        invariant
            0 <= i <= n,
            n == es.len(),
            out@.len() == i,
            forall|j: int| 0 <= j < i ==> view_of(out@[j]) == view_of(es[j]),
        decreases n - i,
    {
        out.push(clone_value(&es[i]));
        i = i + 1;
    }
    proof {
        lemma_elem_views(out, 0);
        lemma_elem_views(*es, 0);
        assert(elem_views(out, 0) =~= elem_views(*es, 0));
    }
    out
}

/// A fresh vector of deep copies of entries, with the same models.
pub(crate) fn clone_entries(es: &Vec<(String, Value)>) -> (r: Vec<(String, Value)>)
    ensures
        entry_views(r, 0) == entry_views(*es, 0),
    decreases *es,
{
    let mut out: Vec<(String, Value)> = Vec::with_capacity(es.len());
    let n = es.len();
    let mut i: usize = 0;
    while i < n
        invariant
            0 <= i <= n,
            n == es.len(),
            out@.len() == i,
            forall|j: int|
                0 <= j < i ==> out@[j].0@ == es[j].0@ && view_of(out@[j].1) == view_of(es[j].1),
        decreases n - i,
    {
        let pair = &es[i];
        out.push((pair.0.clone(), clone_value(&pair.1)));
        i = i + 1;
    }
    proof {
        lemma_entry_views(out, 0);
        lemma_entry_views(*es, 0);
        assert(entry_views(out, 0) =~= entry_views(*es, 0));
    }
    out
}

impl Clone for Value {
    /// A deep copy with the same model.
    fn clone(&self) -> (r: Self)
        ensures
            r@ == self@,
    {
        clone_value(self)
    }
}

impl Clone for Binary {
    /// A fresh blob holding the same bytes.
    fn clone(&self) -> (r: Self)
        ensures
            r@ == self@,
    {
        Binary(clone_bytes(&self.0))
    }
}

} // verus!
