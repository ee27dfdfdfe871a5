//! The laws of the codec.
//!
//! [`lemma_round_trip`]: parsing the encoding of any well-formed value
//! yields that value back and consumes exactly its bytes, whatever follows
//! them.  [`crate::format::lemma_payload_bytes_len`] is the size
//! accounting: a value's encoding is exactly as long as its declared size
//! says.  Together with the encoder's and decoder's contracts these carry
//! the laws down to the executable code: `from_bytes` of `to_bytes` is the
//! original value.

use vstd::bytes::{spec_u16_to_le_bytes, spec_u32_to_le_bytes, spec_u64_to_le_bytes};
use vstd::prelude::*;
use vstd::utf8::{
    decode_utf8, encode_utf8, encode_utf8_decode_utf8, encode_utf8_valid_utf8, valid_utf8,
};

use crate::decode::{parse_elems, parse_entries, parse_payload, parse_value, DecodeError};
use crate::format::{
    elems_bytes, elems_size, entries_bytes, entries_size, entry_bytes, lemma_elems_bytes_len,
    lemma_entries_bytes_len, lemma_payload_bytes_len, payload_bytes, payload_size, valid_key,
    value_bytes, value_tag, wf_elems, wf_entries, wf_value,
};
use crate::model::{lemma_msg_from_entries_unique, msg_from_entries, SpecEntries, SpecValue};
use crate::wire::DataType;
use crate::MAX_NSON_SIZE;

verus! {

/// The first bytes of `a + b` are `a`, and what follows them is `b`.
proof fn lemma_concat_split(a: Seq<u8>, b: Seq<u8>)
    ensures
        (a + b).subrange(0, a.len() as int) == a,
        (a + b).skip(a.len() as int) == b,
{
    assert((a + b).subrange(0, a.len() as int) =~= a);
    assert((a + b).skip(a.len() as int) =~= b);
}

/// Round trip, stated over the model: however a well-formed value's
/// encoding is continued, parsing it back yields exactly that value and
/// consumes exactly its bytes.
pub proof fn lemma_round_trip(v: SpecValue, rest: Seq<u8>)
    requires
        wf_value(v),
    ensures
        parse_value(value_bytes(v) + rest) == Ok::<(SpecValue, nat), DecodeError>(
            (v, (1 + payload_size(v)) as nat),
        ),
    decreases v, 3int, 0int,
{
    lemma_payload_bytes_len(v);
    let s = value_bytes(v) + rest;
    assert(s.len() > 0);
    assert(s[0] == value_tag(v));
    assert(s.skip(1) =~= payload_bytes(v) + rest);
    lemma_parse_payload_bytes(v, rest);
}

/// Round trip for a payload: parsing a well-formed value's payload under
/// its own tag yields the value back.
pub proof fn lemma_parse_payload_bytes(v: SpecValue, rest: Seq<u8>)
    requires
        wf_value(v),
    ensures
        parse_payload(value_tag(v), payload_bytes(v) + rest) == Ok::<
            (SpecValue, nat),
            DecodeError,
        >((v, payload_size(v))),
    decreases v, 2int, 0int,
{
    vstd::bytes::lemma_auto_spec_u16_to_from_le_bytes();
    vstd::bytes::lemma_auto_spec_u32_to_from_le_bytes();
    vstd::bytes::lemma_auto_spec_u64_to_from_le_bytes();
    lemma_payload_bytes_len(v);
    let s = payload_bytes(v) + rest;
    match v {
        SpecValue::F32(b) => {
            lemma_concat_split(spec_u32_to_le_bytes(b), rest);
            assert(s.subrange(0, 4) == spec_u32_to_le_bytes(b));
        },
        SpecValue::F64(b) => {
            lemma_concat_split(spec_u64_to_le_bytes(b), rest);
            assert(s.subrange(0, 8) == spec_u64_to_le_bytes(b));
        },
        SpecValue::I32(i) => {
            lemma_concat_split(spec_u32_to_le_bytes(i as u32), rest);
            assert(s.subrange(0, 4) == spec_u32_to_le_bytes(i as u32));
            assert((i as u32) as i32 == i) by (bit_vector);
        },
        SpecValue::I64(i) => {
            lemma_concat_split(spec_u64_to_le_bytes(i as u64), rest);
            assert(s.subrange(0, 8) == spec_u64_to_le_bytes(i as u64));
            assert((i as u64) as i64 == i) by (bit_vector);
        },
        SpecValue::U32(u) => {
            lemma_concat_split(spec_u32_to_le_bytes(u), rest);
            assert(s.subrange(0, 4) == spec_u32_to_le_bytes(u));
        },
        SpecValue::U64(u) => {
            lemma_concat_split(spec_u64_to_le_bytes(u), rest);
            assert(s.subrange(0, 8) == spec_u64_to_le_bytes(u));
        },
        SpecValue::I8(i) => {
            assert(s[0] == i as u8);
            assert((i as u8) as i8 == i) by (bit_vector);
        },
        SpecValue::U8(u) => {
            assert(s[0] == u);
        },
        SpecValue::I16(i) => {
            lemma_concat_split(spec_u16_to_le_bytes(i as u16), rest);
            assert(s.subrange(0, 2) == spec_u16_to_le_bytes(i as u16));
            assert((i as u16) as i16 == i) by (bit_vector);
        },
        SpecValue::U16(u) => {
            lemma_concat_split(spec_u16_to_le_bytes(u), rest);
            assert(s.subrange(0, 2) == spec_u16_to_le_bytes(u));
        },
        SpecValue::Bool(b) => {
            assert(s[0] == if b {
                1u8
            } else {
                0u8
            });
        },
        SpecValue::Null => {},
        SpecValue::TimeStamp(t) => {
            lemma_concat_split(spec_u64_to_le_bytes(t), rest);
            assert(s.subrange(0, 8) == spec_u64_to_le_bytes(t));
        },
        SpecValue::Id(bs) => {
            assert(s.subrange(0, 12) =~= bs);
        },
        SpecValue::String(cs) => {
            let bytes = encode_utf8(cs);
            let len = (4 + bytes.len()) as u32;
            lemma_concat_split(spec_u32_to_le_bytes(len), bytes + rest);
            assert(spec_u32_to_le_bytes(len) + (bytes + rest) =~= s);
            assert(s.subrange(0, 4) == spec_u32_to_le_bytes(len));
            assert(4 <= len <= MAX_NSON_SIZE);
            assert(s.len() >= len);
            assert(s.subrange(4, len as int) =~= bytes);
            encode_utf8_valid_utf8(cs);
            encode_utf8_decode_utf8(cs);
        },
        SpecValue::Binary(bs) => {
            let len = (4 + bs.len()) as u32;
            lemma_concat_split(spec_u32_to_le_bytes(len), bs + rest);
            assert(spec_u32_to_le_bytes(len) + (bs + rest) =~= s);
            assert(s.subrange(0, 4) == spec_u32_to_le_bytes(len));
            assert(s.subrange(4, len as int) =~= bs);
        },
        SpecValue::Array(es) => {
            let len = (4 + elems_size(es, 0) + 1) as u32;
            lemma_elems_bytes_len(es, 0);
            lemma_concat_split(
                spec_u32_to_le_bytes(len),
                (elems_bytes(es, 0) + seq![0u8]) + rest,
            );
            assert(spec_u32_to_le_bytes(len) + ((elems_bytes(es, 0) + seq![0u8]) + rest) =~= s);
            assert(s.subrange(0, 4) == spec_u32_to_le_bytes(len));
            assert(5 <= len <= MAX_NSON_SIZE);
            assert(s.skip(4) =~= elems_bytes(es, 0) + seq![0u8] + rest);
            lemma_parse_elems_bytes(es, 0, rest);
            assert(es.skip(0) =~= es);
        },
        SpecValue::Message(es) => {
            let len = (4 + entries_size(es, 0) + 1) as u32;
            lemma_entries_bytes_len(es, 0);
            lemma_concat_split(
                spec_u32_to_le_bytes(len),
                (entries_bytes(es, 0) + seq![0u8]) + rest,
            );
            assert(spec_u32_to_le_bytes(len) + ((entries_bytes(es, 0) + seq![0u8]) + rest) =~= s);
            assert(s.subrange(0, 4) == spec_u32_to_le_bytes(len));
            assert(5 <= len <= MAX_NSON_SIZE);
            assert(s.skip(4) =~= entries_bytes(es, 0) + seq![0u8] + rest);
            lemma_parse_entries_bytes(es, 0, rest);
            assert(es.skip(0) =~= es);
            lemma_msg_from_entries_unique(es);
        },
    }
}

/// Round trip for array elements: parsing the bytes of `es[i..]` followed
/// by the terminator yields those elements.
pub proof fn lemma_parse_elems_bytes(es: Seq<SpecValue>, i: int, rest: Seq<u8>)
    requires
        0 <= i <= es.len(),
        wf_elems(es, i),
    ensures
        parse_elems(elems_bytes(es, i) + seq![0u8] + rest) == Ok::<
            (Seq<SpecValue>, nat),
            DecodeError,
        >((es.skip(i), (elems_size(es, i) + 1) as nat)),
    decreases es, 3int, es.len() - i,
{
    let s = elems_bytes(es, i) + seq![0u8] + rest;
    if i == es.len() {
        assert(elems_bytes(es, i) =~= Seq::<u8>::empty());
        assert(s =~= seq![0u8] + rest);
        assert(s[0] == 0);
        assert(es.skip(i) =~= Seq::<SpecValue>::empty());
    } else {
        let v = es[i];
        lemma_payload_bytes_len(v);
        assert(elems_bytes(es, i) == value_bytes(v) + elems_bytes(es, i + 1));
        let tail = elems_bytes(es, i + 1) + seq![0u8] + rest;
        assert(s =~= value_bytes(v) + tail);
        assert(s[0] == value_tag(v));
        assert(value_tag(v) != 0);
        assert(s.skip(1) =~= payload_bytes(v) + tail);
        lemma_parse_payload_bytes(v, tail);
        lemma_parse_elems_bytes(es, i + 1, rest);
        assert(s.skip(1).skip(payload_size(v) as int) =~= tail);
        assert(seq![v] + es.skip(i + 1) =~= es.skip(i));
    }
}

/// Round trip for map entries: parsing the bytes of the entries `es[i..]`
/// followed by the zero key-length terminator yields exactly those raw
/// entries.
pub proof fn lemma_parse_entries_bytes(es: SpecEntries, i: int, rest: Seq<u8>)
    requires
        0 <= i <= es.len(),
        wf_entries(es, i),
    ensures
        parse_entries(entries_bytes(es, i) + seq![0u8] + rest) == Ok::<
            (SpecEntries, nat),
            DecodeError,
        >((es.skip(i), (entries_size(es, i) + 1) as nat)),
    decreases es, 3int, es.len() - i,
{
    let s = entries_bytes(es, i) + seq![0u8] + rest;
    if i == es.len() {
        assert(entries_bytes(es, i) =~= Seq::<u8>::empty());
        assert(s =~= seq![0u8] + rest);
        assert(s[0] == 0);
        assert(es.skip(i) =~= Seq::<(Seq<char>, SpecValue)>::empty());
    } else {
        let key = es[i].0;
        let v = es[i].1;
        let kb = encode_utf8(key);
        let klen = kb.len();
        lemma_payload_bytes_len(v);
        assert(entries_bytes(es, i) == entry_bytes(key, v) + entries_bytes(es, i + 1));
        let tail = entries_bytes(es, i + 1) + seq![0u8] + rest;
        assert(s =~= (seq![(klen + 1) as u8] + kb + value_bytes(v)) + tail);
        assert(s[0] == (klen + 1) as u8);
        assert(1 <= klen <= 254);
        assert(s[0] != 0);
        assert((s[0] - 1) as nat == klen);
        assert(s.len() >= 1 + klen);
        assert(s.subrange(1, (1 + klen) as int) =~= kb);
        encode_utf8_valid_utf8(key);
        encode_utf8_decode_utf8(key);
        let after_key = value_bytes(v) + tail;
        assert(s.skip((1 + klen) as int) =~= after_key);
        lemma_round_trip(v, tail);
        lemma_parse_entries_bytes(es, i + 1, rest);
        assert(after_key.skip((1 + payload_size(v)) as int) =~= tail);
        assert(s.skip((1 + klen) as int).skip((1 + payload_size(v)) as int) =~= tail);
        assert(seq![(key, v)] + es.skip(i + 1) =~= es.skip(i));
    }
}

} // verus!
