//! The byte-exact statement of the wire format.
//!
//! For every model value this module states the bytes it encodes to
//! ([`value_bytes`]) and their number ([`payload_size`]), and the
//! well-formedness a value needs for those bytes to decode back to it
//! ([`wf_value`]).  All multi-byte quantities are little endian.  A value is
//! `[tag][payload]`; a string or blob payload is `[total_len:u32][bytes]`
//! with `total_len` counting itself; a container payload is
//! `[total_len:u32][entries][0x00]` with `total_len` counting itself and the
//! terminator.  A map entry is `[key_len+1:u8][key bytes][value]`, the key
//! length byte `0` being reserved for the terminator; an array entry is a
//! bare value, the tag byte `0` being reserved for the terminator.

use vstd::bytes::{spec_u16_to_le_bytes, spec_u32_to_le_bytes, spec_u64_to_le_bytes};
use vstd::prelude::*;
use vstd::utf8::encode_utf8;

use crate::model::{unique_keys, SpecEntries, SpecValue};
use crate::wire;
use crate::MAX_NSON_SIZE;

verus! {

/// The tag byte of a value.
pub open spec fn value_tag(v: SpecValue) -> u8 {
    match v {
        SpecValue::F32(_) => wire::F32,
        SpecValue::F64(_) => wire::F64,
        SpecValue::I32(_) => wire::I32,
        SpecValue::I64(_) => wire::I64,
        SpecValue::U32(_) => wire::U32,
        SpecValue::U64(_) => wire::U64,
        SpecValue::I8(_) => wire::I8,
        SpecValue::U8(_) => wire::U8,
        SpecValue::I16(_) => wire::I16,
        SpecValue::U16(_) => wire::U16,
        SpecValue::String(_) => wire::STRING,
        SpecValue::Array(_) => wire::ARRAY,
        SpecValue::Message(_) => wire::MAP,
        SpecValue::Bool(_) => wire::BOOL,
        SpecValue::Null => wire::NULL,
        SpecValue::Binary(_) => wire::BINARY,
        SpecValue::TimeStamp(_) => wire::TIMESTAMP,
        SpecValue::Id(_) => wire::ID,
    }
}

/// Number of payload bytes of a value, its tag byte not counted.
pub open spec fn payload_size(v: SpecValue) -> nat
    decreases v, 0int, 0int,
{
    match v {
        SpecValue::F32(_) => 4,
        SpecValue::F64(_) => 8,
        SpecValue::I32(_) => 4,
        SpecValue::I64(_) => 8,
        SpecValue::U32(_) => 4,
        SpecValue::U64(_) => 8,
        SpecValue::I8(_) => 1,
        SpecValue::U8(_) => 1,
        SpecValue::I16(_) => 2,
        SpecValue::U16(_) => 2,
        SpecValue::String(s) => 4 + encode_utf8(s).len(),
        SpecValue::Array(es) => 4 + elems_size(es, 0) + 1,
        SpecValue::Message(es) => 4 + entries_size(es, 0) + 1,
        SpecValue::Bool(_) => 1,
        SpecValue::Null => 0,
        SpecValue::Binary(b) => 4 + b.len(),
        SpecValue::TimeStamp(_) => 8,
        SpecValue::Id(bs) => bs.len(),
    }
}

/// Number of bytes the array elements `es[i..]` occupy, tags included.
pub open spec fn elems_size(es: Seq<SpecValue>, i: int) -> nat
    decreases es, 2int, es.len() - i,
{
    if i < 0 || i >= es.len() {
        0
    } else {
        1 + payload_size(es[i]) + elems_size(es, i + 1)
    }
}

/// Number of bytes the map entries `es[i..]` occupy: length byte, key
/// bytes, tag and payload each.
pub open spec fn entries_size(es: SpecEntries, i: int) -> nat
    decreases es, 2int, es.len() - i,
{
    if i < 0 || i >= es.len() {
        0
    } else {
        1 + encode_utf8(es[i].0).len() + 1 + payload_size(es[i].1) + entries_size(es, i + 1)
    }
}

/// The payload bytes of a value, its tag byte not included.
pub open spec fn payload_bytes(v: SpecValue) -> Seq<u8>
    decreases v, 0int, 0int,
{
    match v {
        SpecValue::F32(b) => spec_u32_to_le_bytes(b),
        SpecValue::F64(b) => spec_u64_to_le_bytes(b),
        SpecValue::I32(i) => spec_u32_to_le_bytes(i as u32),
        SpecValue::I64(i) => spec_u64_to_le_bytes(i as u64),
        SpecValue::U32(u) => spec_u32_to_le_bytes(u),
        SpecValue::U64(u) => spec_u64_to_le_bytes(u),
        SpecValue::I8(i) => seq![i as u8],
        SpecValue::U8(u) => seq![u],
        SpecValue::I16(i) => spec_u16_to_le_bytes(i as u16),
        SpecValue::U16(u) => spec_u16_to_le_bytes(u),
        SpecValue::String(s) => spec_u32_to_le_bytes((4 + encode_utf8(s).len()) as u32)
            + encode_utf8(s),
        SpecValue::Array(es) => spec_u32_to_le_bytes((4 + elems_size(es, 0) + 1) as u32)
            + elems_bytes(es, 0) + seq![0u8],
        SpecValue::Message(es) => spec_u32_to_le_bytes((4 + entries_size(es, 0) + 1) as u32)
            + entries_bytes(es, 0) + seq![0u8],
        SpecValue::Bool(b) => seq![if b { 1u8 } else { 0u8 }],
        SpecValue::Null => Seq::empty(),
        SpecValue::Binary(b) => spec_u32_to_le_bytes((4 + b.len()) as u32) + b,
        SpecValue::TimeStamp(t) => spec_u64_to_le_bytes(t),
        SpecValue::Id(bs) => bs,
    }
}

/// The full encoding of a value: its tag byte, then its payload.
pub open spec fn value_bytes(v: SpecValue) -> Seq<u8>
    decreases v, 1int, 0int,
{
    seq![value_tag(v)] + payload_bytes(v)
}

/// The bytes of the array elements `es[i..]`, each a full value.
pub open spec fn elems_bytes(es: Seq<SpecValue>, i: int) -> Seq<u8>
    decreases es, 2int, es.len() - i,
{
    if i < 0 || i >= es.len() {
        Seq::empty()
    } else {
        value_bytes(es[i]) + elems_bytes(es, i + 1)
    }
}

/// The bytes of the map entry `(key, v)`: the key's byte length plus one,
/// the key bytes, then the full value.
pub open spec fn entry_bytes(key: Seq<char>, v: SpecValue) -> Seq<u8>
    decreases v,
{
    seq![(encode_utf8(key).len() + 1) as u8] + encode_utf8(key) + value_bytes(v)
}

/// The bytes of the map entries `es[i..]`.
pub open spec fn entries_bytes(es: SpecEntries, i: int) -> Seq<u8>
    decreases es, 2int, es.len() - i,
{
    if i < 0 || i >= es.len() {
        Seq::empty()
    } else {
        entry_bytes(es[i].0, es[i].1) + entries_bytes(es, i + 1)
    }
}

/// A key the wire format can carry: at least one and at most 254 bytes of
/// UTF-8, since its length is stored plus one in a single byte whose value
/// `0` is the map terminator.
pub open spec fn valid_key(key: Seq<char>) -> bool {
    1 <= encode_utf8(key).len() <= 254
}

/// Every map key reachable in `v` is one the wire format can carry.
pub open spec fn keys_ok(v: SpecValue) -> bool
    decreases v, 1int, 0int,
{
    match v {
        SpecValue::Array(es) => keys_ok_elems(es, 0),
        SpecValue::Message(es) => keys_ok_entries(es, 0),
        _ => true,
    }
}

pub open spec fn keys_ok_elems(es: Seq<SpecValue>, i: int) -> bool
    decreases es, 2int, es.len() - i,
{
    i >= es.len() || i < 0 || (keys_ok(es[i]) && keys_ok_elems(es, i + 1))
}

pub open spec fn keys_ok_entries(es: SpecEntries, i: int) -> bool
    decreases es, 2int, es.len() - i,
{
    i >= es.len() || i < 0 || (valid_key(es[i].0) && keys_ok(es[i].1) && keys_ok_entries(
        es,
        i + 1,
    ))
}

/// Well-formed for a round trip: every key is valid and the keys of each
/// map are pairwise distinct; every length-prefixed payload fits the
/// configured maximum; an identifier carries exactly 12 bytes.
pub open spec fn wf_value(v: SpecValue) -> bool
    decreases v, 1int, 0int,
{
    match v {
        SpecValue::String(s) => 4 + encode_utf8(s).len() <= MAX_NSON_SIZE,
        SpecValue::Binary(b) => 4 + b.len() <= MAX_NSON_SIZE,
        SpecValue::Id(bs) => bs.len() == 12,
        SpecValue::Array(es) => payload_size(v) <= MAX_NSON_SIZE && wf_elems(es, 0),
        SpecValue::Message(es) => payload_size(v) <= MAX_NSON_SIZE && unique_keys(es)
            && wf_entries(es, 0),
        _ => true,
    }
}

pub open spec fn wf_elems(es: Seq<SpecValue>, i: int) -> bool
    decreases es, 2int, es.len() - i,
{
    i >= es.len() || i < 0 || (wf_value(es[i]) && wf_elems(es, i + 1))
}

pub open spec fn wf_entries(es: SpecEntries, i: int) -> bool
    decreases es, 2int, es.len() - i,
{
    i >= es.len() || i < 0 || (valid_key(es[i].0) && wf_value(es[i].1) && wf_entries(es, i + 1))
}

/// The payload bytes of a value number exactly `payload_size` of it.
pub proof fn lemma_payload_bytes_len(v: SpecValue)
    ensures
        payload_bytes(v).len() == payload_size(v),
        value_bytes(v).len() == 1 + payload_size(v),
    decreases v, 1int, 0int,
{
    vstd::bytes::lemma_auto_spec_u16_to_from_le_bytes();
    vstd::bytes::lemma_auto_spec_u32_to_from_le_bytes();
    vstd::bytes::lemma_auto_spec_u64_to_from_le_bytes();
    match v {
        SpecValue::Array(es) => {
            lemma_elems_bytes_len(es, 0);
            assert(payload_bytes(v).len() == 4 + elems_bytes(es, 0).len() + 1);
            assert(payload_size(v) == 4 + elems_size(es, 0) + 1);
        },
        SpecValue::Message(es) => {
            lemma_entries_bytes_len(es, 0);
            assert(payload_bytes(v).len() == 4 + entries_bytes(es, 0).len() + 1);
            assert(payload_size(v) == 4 + entries_size(es, 0) + 1);
        },
        SpecValue::String(s) => {
            assert(payload_bytes(v).len() == 4 + encode_utf8(s).len());
            assert(payload_size(v) == 4 + encode_utf8(s).len());
        },
        SpecValue::Binary(b) => {
            assert(payload_bytes(v).len() == 4 + b.len());
            assert(payload_size(v) == 4 + b.len());
        },
        SpecValue::F32(_) | SpecValue::I32(_) | SpecValue::U32(_) => {
            assert(payload_bytes(v).len() == 4);
            assert(payload_size(v) == 4);
        },
        SpecValue::F64(_) | SpecValue::I64(_) | SpecValue::U64(_) | SpecValue::TimeStamp(_) => {
            assert(payload_bytes(v).len() == 8);
            assert(payload_size(v) == 8);
        },
        SpecValue::I16(_) | SpecValue::U16(_) => {
            assert(payload_bytes(v).len() == 2);
            assert(payload_size(v) == 2);
        },
        SpecValue::I8(_) | SpecValue::U8(_) | SpecValue::Bool(_) => {
            assert(payload_bytes(v).len() == 1);
            assert(payload_size(v) == 1);
        },
        SpecValue::Null => {
            assert(payload_bytes(v).len() == 0);
        },
        SpecValue::Id(bs) => {
            assert(payload_bytes(v).len() == bs.len());
        },
    }
}

/// The bytes of `es[i..]` number exactly `elems_size(es, i)`.
pub proof fn lemma_elems_bytes_len(es: Seq<SpecValue>, i: int)
    ensures
        elems_bytes(es, i).len() == elems_size(es, i),
    decreases es, 2int, es.len() - i,
{
    if 0 <= i < es.len() {
        lemma_payload_bytes_len(es[i]);
        lemma_elems_bytes_len(es, i + 1);
    }
}

/// The bytes of the entries `es[i..]` number exactly `entries_size(es, i)`.
pub proof fn lemma_entries_bytes_len(es: SpecEntries, i: int)
    ensures
        entries_bytes(es, i).len() == entries_size(es, i),
    decreases es, 2int, es.len() - i,
{
    if 0 <= i < es.len() {
        lemma_payload_bytes_len(es[i].1);
        lemma_entries_bytes_len(es, i + 1);
        assert(entries_bytes(es, i) == entry_bytes(es[i].0, es[i].1) + entries_bytes(es, i + 1));
        assert(value_bytes(es[i].1).len() == 1 + payload_size(es[i].1));
        assert(entry_bytes(es[i].0, es[i].1).len() == 1 + encode_utf8(es[i].0).len() + 1
            + payload_size(es[i].1));
        assert(entries_size(es, i) == 1 + encode_utf8(es[i].0).len() + 1 + payload_size(es[i].1)
            + entries_size(es, i + 1));
    }
}

/// `keys_ok_elems` holds exactly when every element from `i` on has valid
/// keys throughout.
pub proof fn lemma_keys_ok_elems(es: Seq<SpecValue>, i: int)
    requires
        0 <= i,
    ensures
        keys_ok_elems(es, i) <==> (forall|j: int| i <= j < es.len() ==> keys_ok(#[trigger] es[j])),
    decreases es.len() - i,
{
    if i < es.len() {
        lemma_keys_ok_elems(es, i + 1);
    }
}

/// `keys_ok_entries` holds exactly when every entry from `i` on has a valid
/// key and valid keys throughout its value.
pub proof fn lemma_keys_ok_entries(es: SpecEntries, i: int)
    requires
        0 <= i,
    ensures
        keys_ok_entries(es, i) <==> (forall|j: int|
            #![trigger es[j]]
            i <= j < es.len() ==> valid_key(es[j].0) && keys_ok(es[j].1)),
    decreases es.len() - i,
{
    if i < es.len() {
        lemma_keys_ok_entries(es, i + 1);
    }
}

/// Suffix sums only shrink: the elements from `j` on cost no more than the
/// elements from `i` on, for `i <= j`.
pub proof fn lemma_elems_size_mono(es: Seq<SpecValue>, i: int, j: int)
    requires
        0 <= i <= j,
    ensures
        elems_size(es, j) <= elems_size(es, i),
    decreases j - i,
{
    if i < j && i < es.len() {
        lemma_elems_size_mono(es, i + 1, j);
    }
}

/// Suffix sums only shrink, for map entries.
pub proof fn lemma_entries_size_mono(es: SpecEntries, i: int, j: int)
    requires
        0 <= i <= j,
    ensures
        entries_size(es, j) <= entries_size(es, i),
    decreases j - i,
{
    if i < j && i < es.len() {
        lemma_entries_size_mono(es, i + 1, j);
    }
}

} // verus!
