//! The byte-level decoder, and the parser it is proved against.
//!
//! The spec functions `parse_*` state, byte for byte, what any buffer
//! decodes to, which error it fails with otherwise, and how many bytes are
//! consumed.  The executable decoder returns exactly what they say.  As in
//! the wire format, a container's extent is found by scanning for its
//! terminator; the leading length field is only validated against the
//! configured bounds, never used to cut the scan short.

use vstd::bytes::{
    spec_u16_from_le_bytes, spec_u32_from_le_bytes, spec_u64_from_le_bytes, u16_from_le_bytes,
    u32_from_le_bytes, u64_from_le_bytes,
};
use vstd::prelude::*;
use vstd::slice::{slice_subrange, slice_to_vec};
use vstd::utf8::{decode_utf8, encode_utf8, valid_utf8};

use crate::array::Array;
use crate::id::Id;
use crate::message::Message;
use crate::model::{msg_from_entries, SpecEntries, SpecValue};
use crate::value::{Binary, TimeStamp, Value};
use crate::wire::{self, DataType};
use crate::{MAX_NSON_SIZE, MIN_NSON_SIZE};

verus! {

/// Why decoding failed.
#[derive(Debug, Clone, Copy, PartialEq, Eq, Structural)]
pub enum DecodeError {
    /// The input ended before the value did.
    UnexpectedEof,
    /// A string payload is not valid UTF-8.
    FromUtf8Error,
    /// A tag byte outside the wire table.
    UnrecognizedElementType(u8),
    /// A length field below the configured minimum or above the maximum.
    InvalidLength(u32),
}

pub type DecodeResult<T> = Result<T, DecodeError>;

/// What parsing one value (tag byte, then payload) from the front of `s`
/// yields: the value and the bytes consumed, or the error.
pub open spec fn parse_value(s: Seq<u8>) -> Result<(SpecValue, nat), DecodeError>
    decreases s.len(), 1int,
{
    if s.len() == 0 {
        Err(DecodeError::UnexpectedEof)
    } else {
        match parse_payload(s[0], s.skip(1)) {
            Ok((v, n)) => Ok((v, (n + 1) as nat)),
            Err(e) => Err(e),
        }
    }
}

/// What parsing the payload of a value tagged `tag` from the front of `s`
/// yields.
pub open spec fn parse_payload(tag: u8, s: Seq<u8>) -> Result<(SpecValue, nat), DecodeError>
    decreases s.len(), 0int,
{
    match DataType::spec_from(tag) {
        Option::None => Err(DecodeError::UnrecognizedElementType(tag)),
        Option::Some(dt) => match dt {
            DataType::Bool => if s.len() < 1 {
                Err(DecodeError::UnexpectedEof)
            } else {
                Ok((SpecValue::Bool(s[0] != 0), 1))
            },
            DataType::Null => Ok((SpecValue::Null, 0)),
            DataType::F32 => if s.len() < 4 {
                Err(DecodeError::UnexpectedEof)
            } else {
                Ok((SpecValue::F32(spec_u32_from_le_bytes(s.subrange(0, 4))), 4))
            },
            DataType::F64 => if s.len() < 8 {
                Err(DecodeError::UnexpectedEof)
            } else {
                Ok((SpecValue::F64(spec_u64_from_le_bytes(s.subrange(0, 8))), 8))
            },
            DataType::I32 => if s.len() < 4 {
                Err(DecodeError::UnexpectedEof)
            } else {
                Ok((SpecValue::I32(spec_u32_from_le_bytes(s.subrange(0, 4)) as i32), 4))
            },
            DataType::I64 => if s.len() < 8 {
                Err(DecodeError::UnexpectedEof)
            } else {
                Ok((SpecValue::I64(spec_u64_from_le_bytes(s.subrange(0, 8)) as i64), 8))
            },
            DataType::U32 => if s.len() < 4 {
                Err(DecodeError::UnexpectedEof)
            } else {
                Ok((SpecValue::U32(spec_u32_from_le_bytes(s.subrange(0, 4))), 4))
            },
            DataType::U64 => if s.len() < 8 {
                Err(DecodeError::UnexpectedEof)
            } else {
                Ok((SpecValue::U64(spec_u64_from_le_bytes(s.subrange(0, 8))), 8))
            },
            DataType::I8 => if s.len() < 1 {
                Err(DecodeError::UnexpectedEof)
            } else {
                Ok((SpecValue::I8(s[0] as i8), 1))
            },
            DataType::U8 => if s.len() < 1 {
                Err(DecodeError::UnexpectedEof)
            } else {
                Ok((SpecValue::U8(s[0]), 1))
            },
            DataType::I16 => if s.len() < 2 {
                Err(DecodeError::UnexpectedEof)
            } else {
                Ok((SpecValue::I16(spec_u16_from_le_bytes(s.subrange(0, 2)) as i16), 2))
            },
            DataType::U16 => if s.len() < 2 {
                Err(DecodeError::UnexpectedEof)
            } else {
                Ok((SpecValue::U16(spec_u16_from_le_bytes(s.subrange(0, 2))), 2))
            },
            DataType::TimeStamp => if s.len() < 8 {
                Err(DecodeError::UnexpectedEof)
            } else {
                Ok((SpecValue::TimeStamp(spec_u64_from_le_bytes(s.subrange(0, 8))), 8))
            },
            DataType::Id => if s.len() < 12 {
                Err(DecodeError::UnexpectedEof)
            } else {
                Ok((SpecValue::Id(s.subrange(0, 12)), 12))
            },
            DataType::String => if s.len() < 4 {
                Err(DecodeError::UnexpectedEof)
            } else {
                let len = spec_u32_from_le_bytes(s.subrange(0, 4));
                if len < MIN_NSON_SIZE - 1 || len > MAX_NSON_SIZE {
                    Err(DecodeError::InvalidLength(len))
                } else if s.len() < len {
                    Err(DecodeError::UnexpectedEof)
                } else {
                    let bytes = s.subrange(4, len as int);
                    if valid_utf8(bytes) {
                        Ok((SpecValue::String(decode_utf8(bytes)), len as nat))
                    } else {
                        Err(DecodeError::FromUtf8Error)
                    }
                }
            },
            DataType::Binary => if s.len() < 4 {
                Err(DecodeError::UnexpectedEof)
            } else {
                let len = spec_u32_from_le_bytes(s.subrange(0, 4));
                if len < MIN_NSON_SIZE - 1 || len > MAX_NSON_SIZE {
                    Err(DecodeError::InvalidLength(len))
                } else if s.len() < len {
                    Err(DecodeError::UnexpectedEof)
                } else {
                    Ok((SpecValue::Binary(s.subrange(4, len as int)), len as nat))
                }
            },
            DataType::Array => if s.len() < 4 {
                Err(DecodeError::UnexpectedEof)
            } else {
                let len = spec_u32_from_le_bytes(s.subrange(0, 4));
                if len < MIN_NSON_SIZE || len > MAX_NSON_SIZE {
                    Err(DecodeError::InvalidLength(len))
                } else {
                    match parse_elems(s.skip(4)) {
                        Ok((vs, n)) => Ok((SpecValue::Array(vs), (4 + n) as nat)),
                        Err(e) => Err(e),
                    }
                }
            },
            DataType::Message => if s.len() < 4 {
                Err(DecodeError::UnexpectedEof)
            } else {
                let len = spec_u32_from_le_bytes(s.subrange(0, 4));
                if len < MIN_NSON_SIZE || len > MAX_NSON_SIZE {
                    Err(DecodeError::InvalidLength(len))
                } else {
                    match parse_entries(s.skip(4)) {
                        Ok((es, n)) => Ok(
                            (SpecValue::Message(msg_from_entries(es)), (4 + n) as nat),
                        ),
                        Err(e) => Err(e),
                    }
                }
            },
        },
    }
}

/// What scanning array elements from the front of `s`, up to and including
/// the terminator tag byte `0`, yields: the elements and the bytes
/// consumed.
pub open spec fn parse_elems(s: Seq<u8>) -> Result<(Seq<SpecValue>, nat), DecodeError>
    decreases s.len(), 2int,
{
    if s.len() == 0 {
        Err(DecodeError::UnexpectedEof)
    } else if s[0] == 0 {
        Ok((Seq::empty(), 1))
    } else {
        match parse_payload(s[0], s.skip(1)) {
            // a successful parse never consumes more than its input (see
            // the consumed lemmas), so the guard is only there to bound
            // the recursion
            Ok((v, p)) => if p > s.skip(1).len() {
                Err(DecodeError::UnexpectedEof)
            } else {
                match parse_elems(s.skip(1).skip(p as int)) {
                    Ok((vs, m)) => Ok((seq![v] + vs, (1 + p + m) as nat)),
                    Err(e) => Err(e),
                }
            },
            Err(e) => Err(e),
        }
    }
}

/// What scanning map entries from the front of `s`, up to and including
/// the zero key-length terminator, yields: the raw entries in wire order
/// and the bytes consumed.
pub open spec fn parse_entries(s: Seq<u8>) -> Result<(SpecEntries, nat), DecodeError>
    decreases s.len(), 2int,
{
    if s.len() == 0 {
        Err(DecodeError::UnexpectedEof)
    } else if s[0] == 0 {
        Ok((Seq::empty(), 1))
    } else {
        let klen = (s[0] - 1) as nat;
        if s.len() < 1 + klen {
            Err(DecodeError::UnexpectedEof)
        } else {
            let kb = s.subrange(1, (1 + klen) as int);
            if !valid_utf8(kb) {
                Err(DecodeError::FromUtf8Error)
            } else {
                let key = decode_utf8(kb);
                match parse_value(s.skip((1 + klen) as int)) {
                    // as in parse_elems, the guard only bounds the
                    // recursion; it is never taken
                    Ok((v, c)) => if c > s.skip((1 + klen) as int).len() {
                        Err(DecodeError::UnexpectedEof)
                    } else {
                        match parse_entries(s.skip((1 + klen) as int).skip(c as int)) {
                            Ok((es, m)) => Ok((seq![(key, v)] + es, (1 + klen + c + m) as nat)),
                            Err(e) => Err(e),
                        }
                    },
                    Err(e) => Err(e),
                }
            }
        }
    }
}

/// Skipping `a` bytes and then `b` more is skipping `a + b`.
pub proof fn lemma_skip_skip(s: Seq<u8>, a: int, b: int)
    requires
        0 <= a,
        0 <= b,
        a + b <= s.len(),
    ensures
        s.skip(a).skip(b) == s.skip(a + b),
{
    assert(s.skip(a).skip(b) =~= s.skip(a + b));
}

/// A successful parse consumes at least one byte (the tag or terminator)
/// and never more than the input.
pub proof fn lemma_parse_value_consumed(s: Seq<u8>)
    ensures
        parse_value(s) matches Ok((v, n)) ==> 1 <= n <= s.len(),
    decreases s.len(), 1int,
{
    if s.len() > 0 {
        lemma_parse_payload_consumed(s[0], s.skip(1));
    }
}

/// A successful payload parse never consumes more than the input.
pub proof fn lemma_parse_payload_consumed(tag: u8, s: Seq<u8>)
    ensures
        parse_payload(tag, s) matches Ok((v, n)) ==> n <= s.len(),
    decreases s.len(), 0int,
{
    match DataType::spec_from(tag) {
        Option::Some(DataType::Array) => {
            if s.len() >= 4 {
                lemma_parse_elems_consumed(s.skip(4));
            }
        },
        Option::Some(DataType::Message) => {
            if s.len() >= 4 {
                lemma_parse_entries_consumed(s.skip(4));
            }
        },
        _ => {},
    }
}

/// A successful element scan consumes between one byte and the input.
pub proof fn lemma_parse_elems_consumed(s: Seq<u8>)
    ensures
        parse_elems(s) matches Ok((vs, n)) ==> 1 <= n <= s.len(),
    decreases s.len(), 2int,
{
    if s.len() > 0 && s[0] != 0 {
        lemma_parse_payload_consumed(s[0], s.skip(1));
        match parse_payload(s[0], s.skip(1)) {
            Ok((v, p)) => {
                lemma_parse_elems_consumed(s.skip(1).skip(p as int));
            },
            Err(_) => {},
        }
    }
}

/// A successful entry scan consumes between one byte and the input.
pub proof fn lemma_parse_entries_consumed(s: Seq<u8>)
    ensures
        parse_entries(s) matches Ok((es, n)) ==> 1 <= n <= s.len(),
    decreases s.len(), 2int,
{
    if s.len() > 0 && s[0] != 0 {
        let klen = (s[0] - 1) as nat;
        if s.len() >= 1 + klen {
            lemma_parse_value_consumed(s.skip((1 + klen) as int));
            match parse_value(s.skip((1 + klen) as int)) {
                Ok((v, c)) => {
                    lemma_parse_entries_consumed(s.skip((1 + klen) as int).skip(c as int));
                },
                Err(_) => {},
            }
        }
    }
}

/// Relies on `String::from_utf8` (via `ok()`): it succeeds exactly on
/// valid UTF-8 input, and then yields the string those bytes encode.
#[verifier::external_body]
pub(crate) fn string_from_utf8(v: Vec<u8>) -> (r: Option<String>)
    ensures
        r is Some <==> valid_utf8(v@),
        r matches Some(s) ==> s@ == decode_utf8(v@),
{
    String::from_utf8(v).ok()
}

/// Decodes one value (tag byte, then payload) from the front of `s`,
/// returning it with the number of bytes consumed: exactly what
/// [`parse_value`] says.
pub fn decode_value(s: &[u8]) -> (r: DecodeResult<(Value, usize)>)
    ensures
        match r {
            Ok((v, n)) => parse_value(s@) == Ok::<(SpecValue, nat), DecodeError>((v@, n as nat)),
            Err(e) => parse_value(s@) == Err::<(SpecValue, nat), DecodeError>(e),
        },
    decreases s@.len(), 1int,
{
    if s.len() == 0 {
        return Err(DecodeError::UnexpectedEof);
    }
    let tag = s[0];
    let rest = slice_subrange(s, 1, s.len());
    proof {
        assert(rest@ =~= s@.skip(1));
    }
    match decode_payload(tag, rest) {
        Ok((v, n)) => {
            proof {
                lemma_parse_payload_consumed(tag, s@.skip(1));
            }
            Ok((v, n + 1))
        },
        Err(e) => Err(e),
    }
}

/// Decodes the payload of a value tagged `tag` from the front of `s`:
/// exactly what [`parse_payload`] says.
#[verifier::rlimit(60)]
pub(crate) fn decode_payload(tag: u8, s: &[u8]) -> (r: DecodeResult<(Value, usize)>)
    ensures
        match r {
            Ok((v, n)) => parse_payload(tag, s@) == Ok::<(SpecValue, nat), DecodeError>(
                (v@, n as nat),
            ) && n <= s@.len(),
            Err(e) => parse_payload(tag, s@) == Err::<(SpecValue, nat), DecodeError>(e),
        },
    decreases s@.len(), 0int,
{
    proof {
        lemma_parse_payload_consumed(tag, s@);
    }
    let dt = match DataType::from(tag) {
        Some(dt) => dt,
        None => {
            return Err(DecodeError::UnrecognizedElementType(tag));
        },
    };
    match dt {
        DataType::Bool => {
            if s.len() < 1 {
                Err(DecodeError::UnexpectedEof)
            } else {
                Ok((Value::Bool(s[0] != 0), 1))
            }
        },
        DataType::Null => Ok((Value::Null, 0)),
        DataType::F32 => {
            if s.len() < 4 {
                Err(DecodeError::UnexpectedEof)
            } else {
                Ok((Value::F32(u32_from_le_bytes(slice_subrange(s, 0, 4))), 4))
            }
        },
        DataType::F64 => {
            if s.len() < 8 {
                Err(DecodeError::UnexpectedEof)
            } else {
                Ok((Value::F64(u64_from_le_bytes(slice_subrange(s, 0, 8))), 8))
            }
        },
        DataType::I32 => {
            if s.len() < 4 {
                Err(DecodeError::UnexpectedEof)
            } else {
                let u = u32_from_le_bytes(slice_subrange(s, 0, 4));
                Ok((Value::I32(#[verifier::truncate] (u as i32)), 4))
            }
        },
        DataType::I64 => {
            if s.len() < 8 {
                Err(DecodeError::UnexpectedEof)
            } else {
                let u = u64_from_le_bytes(slice_subrange(s, 0, 8));
                Ok((Value::I64(#[verifier::truncate] (u as i64)), 8))
            }
        },
        DataType::U32 => {
            if s.len() < 4 {
                Err(DecodeError::UnexpectedEof)
            } else {
                Ok((Value::U32(u32_from_le_bytes(slice_subrange(s, 0, 4))), 4))
            }
        },
        DataType::U64 => {
            if s.len() < 8 {
                Err(DecodeError::UnexpectedEof)
            } else {
                Ok((Value::U64(u64_from_le_bytes(slice_subrange(s, 0, 8))), 8))
            }
        },
        DataType::I8 => {
            if s.len() < 1 {
                Err(DecodeError::UnexpectedEof)
            } else {
                Ok((Value::I8(#[verifier::truncate] (s[0] as i8)), 1))
            }
        },
        DataType::U8 => {
            if s.len() < 1 {
                Err(DecodeError::UnexpectedEof)
            } else {
                Ok((Value::U8(s[0]), 1))
            }
        },
        DataType::I16 => {
            if s.len() < 2 {
                Err(DecodeError::UnexpectedEof)
            } else {
                let u = u16_from_le_bytes(slice_subrange(s, 0, 2));
                Ok((Value::I16(#[verifier::truncate] (u as i16)), 2))
            }
        },
        DataType::U16 => {
            if s.len() < 2 {
                Err(DecodeError::UnexpectedEof)
            } else {
                Ok((Value::U16(u16_from_le_bytes(slice_subrange(s, 0, 2))), 2))
            }
        },
        DataType::TimeStamp => {
            if s.len() < 8 {
                Err(DecodeError::UnexpectedEof)
            } else {
                Ok((Value::TimeStamp(TimeStamp(u64_from_le_bytes(slice_subrange(s, 0, 8)))), 8))
            }
        },
        DataType::Id => {
            if s.len() < 12 {
                Err(DecodeError::UnexpectedEof)
            } else {
                let bytes: [u8; 12] = [
                    s[0],
                    s[1],
                    s[2],
                    s[3],
                    s[4],
                    s[5],
                    s[6],
                    s[7],
                    s[8],
                    s[9],
                    s[10],
                    s[11],
                ];
                proof {
                    assert(bytes@ =~= s@.subrange(0, 12));
                }
                Ok((Value::Id(Id::with_bytes(bytes)), 12))
            }
        },
        DataType::String => {
            if s.len() < 4 {
                return Err(DecodeError::UnexpectedEof);
            }
            let len = u32_from_le_bytes(slice_subrange(s, 0, 4));
            if len < MIN_NSON_SIZE - 1 || len > MAX_NSON_SIZE {
                return Err(DecodeError::InvalidLength(len));
            }
            if (s.len() as u64) < len as u64 {
                return Err(DecodeError::UnexpectedEof);
            }
            let bytes = slice_to_vec(slice_subrange(s, 4, len as usize));
            match string_from_utf8(bytes) {
                Some(st) => Ok((Value::String(st), len as usize)),
                None => Err(DecodeError::FromUtf8Error),
            }
        },
        DataType::Binary => {
            if s.len() < 4 {
                return Err(DecodeError::UnexpectedEof);
            }
            let len = u32_from_le_bytes(slice_subrange(s, 0, 4));
            if len < MIN_NSON_SIZE - 1 || len > MAX_NSON_SIZE {
                return Err(DecodeError::InvalidLength(len));
            }
            if (s.len() as u64) < len as u64 {
                return Err(DecodeError::UnexpectedEof);
            }
            let bytes = slice_to_vec(slice_subrange(s, 4, len as usize));
            Ok((Value::Binary(Binary(bytes)), len as usize))
        },
        DataType::Array => {
            if s.len() < 4 {
                return Err(DecodeError::UnexpectedEof);
            }
            let len = u32_from_le_bytes(slice_subrange(s, 0, 4));
            if len < MIN_NSON_SIZE || len > MAX_NSON_SIZE {
                return Err(DecodeError::InvalidLength(len));
            }
            let t = slice_subrange(s, 4, s.len());
            proof {
                assert(t@ =~= s@.skip(4));
            }
            match decode_elems(t) {
                Ok((arr, n)) => Ok((Value::Array(arr), 4 + n)),
                Err(e) => Err(e),
            }
        },
        DataType::Message => {
            if s.len() < 4 {
                return Err(DecodeError::UnexpectedEof);
            }
            let len = u32_from_le_bytes(slice_subrange(s, 0, 4));
            if len < MIN_NSON_SIZE || len > MAX_NSON_SIZE {
                return Err(DecodeError::InvalidLength(len));
            }
            let t = slice_subrange(s, 4, s.len());
            proof {
                assert(t@ =~= s@.skip(4));
            }
            match decode_entries(t) {
                Ok((msg, n)) => Ok((Value::Message(msg), 4 + n)),
                Err(e) => Err(e),
            }
        },
    }
}

/// Scans array elements up to and including the terminator byte: exactly
/// what [`parse_elems`] says, the elements gathered into an [`Array`].
#[verifier::loop_isolation(false)]
pub(crate) fn decode_elems(t: &[u8]) -> (r: DecodeResult<(Array, usize)>)
    ensures
        match r {
            Ok((arr, n)) => parse_elems(t@) == Ok::<(Seq<SpecValue>, nat), DecodeError>(
                (arr@, n as nat),
            ) && n <= t@.len(),
            Err(e) => parse_elems(t@) == Err::<(Seq<SpecValue>, nat), DecodeError>(e),
        },
    decreases t@.len(), 2int,
{
    let mut arr = Array::new();
    let mut pos: usize = 0;
    proof {
        assert(t@.skip(0) =~= t@);
        let r0 = parse_elems(t@);
        match r0 {
            Ok((es, m)) => {
                assert(Seq::<SpecValue>::empty() + es =~= es);
            },
            Err(_) => {},
        }
    }
    loop
        invariant
            0 <= pos <= t@.len(),
            match parse_elems(t@.skip(pos as int)) {
                Ok((vs, m)) => parse_elems(t@) == Ok::<(Seq<SpecValue>, nat), DecodeError>(
                    (arr@ + vs, (pos + m) as nat),
                ),
                Err(e) => parse_elems(t@) == Err::<(Seq<SpecValue>, nat), DecodeError>(e),
            },
        decreases t@.len() - pos,
    {
        if pos >= t.len() {
            proof {
                assert(t@.skip(pos as int).len() == 0);
            }
            return Err(DecodeError::UnexpectedEof);
        }
        let ghost remaining = t@.skip(pos as int);
        proof {
            assert(remaining.len() > 0);
            assert(remaining[0] == t@[pos as int]);
        }
        if t[pos] == 0 {
            proof {
                assert(parse_elems(remaining) == Ok::<(Seq<SpecValue>, nat), DecodeError>(
                    (Seq::empty(), 1nat),
                ));
                assert(arr@ + Seq::<SpecValue>::empty() =~= arr@);
            }
            return Ok((arr, pos + 1));
        }
        let rest = slice_subrange(t, pos, t.len());
        proof {
            assert(rest@ =~= remaining);
        }
        match decode_value(rest) {
            Ok((v, c)) => {
                proof {
                    lemma_parse_value_consumed(remaining);
                    assert(parse_value(remaining) == Ok::<(SpecValue, nat), DecodeError>(
                        (v@, c as nat),
                    ));
                    assert(remaining.skip(1).skip((c - 1) as int) =~= remaining.skip(c as int));
                    lemma_skip_skip(t@, pos as int, c as int);
                    assert(remaining.skip(c as int) =~= t@.skip(pos + c));
                    let r2 = parse_elems(t@.skip(pos + c));
                    match r2 {
                        Ok((vs, m)) => {
                            assert(arr@ + (seq![v@] + vs) =~= arr@.push(v@) + vs);
                        },
                        Err(_) => {},
                    }
                }
                arr.push(v);
                pos = pos + c;
            },
            Err(e) => {
                proof {
                    assert(parse_elems(remaining) == Err::<(Seq<SpecValue>, nat), DecodeError>(e));
                }
                return Err(e);
            },
        }
    }
}

/// Scans map entries up to and including the zero key-length terminator:
/// exactly what [`parse_entries`] says, the raw entries folded into a
/// [`Message`] by in-order insertion.
#[verifier::loop_isolation(false)]
#[verifier::rlimit(100)]
pub(crate) fn decode_entries(t: &[u8]) -> (r: DecodeResult<(Message, usize)>)
    ensures
        match r {
            Ok((msg, n)) => (parse_entries(t@) matches Ok((es, m)) && msg@ == msg_from_entries(es)
                && n == m && n <= t@.len() && msg.wf()),
            Err(e) => parse_entries(t@) == Err::<(SpecEntries, nat), DecodeError>(e),
        },
    decreases t@.len(), 2int,
{
    let mut msg = Message::new();
    let mut pos: usize = 0;
    let ghost mut raw: SpecEntries = Seq::empty();
    proof {
        assert(t@.skip(0) =~= t@);
        let r0 = parse_entries(t@);
        match r0 {
            Ok((es, m)) => {
                assert(raw + es =~= es);
            },
            Err(_) => {},
        }
        assert(msg_from_entries(raw) =~= msg@);
    }
    loop
        invariant
            0 <= pos <= t@.len(),
            msg@ == msg_from_entries(raw),
            msg.wf(),
            match parse_entries(t@.skip(pos as int)) {
                Ok((es, m)) => parse_entries(t@) == Ok::<(SpecEntries, nat), DecodeError>(
                    (raw + es, (pos + m) as nat),
                ),
                Err(e) => parse_entries(t@) == Err::<(SpecEntries, nat), DecodeError>(e),
            },
        decreases t@.len() - pos,
    {
        if pos >= t.len() {
            proof {
                assert(t@.skip(pos as int).len() == 0);
            }
            return Err(DecodeError::UnexpectedEof);
        }
        let ghost remaining = t@.skip(pos as int);
        proof {
            assert(remaining.len() > 0);
            assert(remaining[0] == t@[pos as int]);
        }
        let k0 = t[pos];
        if k0 == 0 {
            proof {
                assert(parse_entries(remaining) == Ok::<(SpecEntries, nat), DecodeError>(
                    (Seq::empty(), 1nat),
                ));
                assert(raw + Seq::<(Seq<char>, SpecValue)>::empty() =~= raw);
            }
            return Ok((msg, pos + 1));
        }
        let klen = (k0 - 1) as usize;
        if t.len() - pos < 1 + klen {
            proof {
                assert(remaining.len() < 1 + klen);
            }
            return Err(DecodeError::UnexpectedEof);
        }
        let kb = slice_to_vec(slice_subrange(t, pos + 1, pos + 1 + klen));
        proof {
            assert(kb@ =~= remaining.subrange(1, 1 + klen as int));
        }
        let key = match string_from_utf8(kb) {
            Some(k) => k,
            None => {
                return Err(DecodeError::FromUtf8Error);
            },
        };
        let rest = slice_subrange(t, pos + 1 + klen, t.len());
        proof {
            lemma_skip_skip(t@, pos as int, 1 + klen as int);
            assert(rest@ =~= remaining.skip(1 + klen as int));
        }
        match decode_value(rest) {
            Ok((v, c)) => {
                proof {
                    lemma_parse_value_consumed(rest@);
                    assert(remaining.skip(1 + klen as int).skip(c as int) =~= remaining.skip(
                        1 + klen + c,
                    ));
                    lemma_skip_skip(t@, pos as int, 1 + klen + c);
                    assert(remaining.skip(1 + klen + c) =~= t@.skip(pos + 1 + klen + c));
                }
                let ghost entry = (key@, v@);
                let _ = msg.insert_value(key, v);
                proof {
                    assert((raw.push(entry)).drop_last() =~= raw);
                    assert((raw.push(entry)).last() == entry);
                    let r2 = parse_entries(t@.skip(pos + 1 + klen + c));
                    match r2 {
                        Ok((es, m)) => {
                            assert(raw + (seq![entry] + es) =~= raw.push(entry) + es);
                        },
                        Err(_) => {},
                    }
                    raw = raw.push(entry);
                }
                pos = pos + 1 + klen + c;
            },
            Err(e) => {
                return Err(e);
            },
        }
    }
}

impl Value {
    /// Decodes one value from the front of `bytes`: exactly what
    /// [`parse_value`] says.  Trailing bytes are ignored.
    pub fn from_bytes(bytes: &[u8]) -> (r: DecodeResult<Value>)
        ensures
            match r {
                Ok(v) => parse_value(bytes@) matches Ok((sv, n)) && sv == v@,
                Err(e) => parse_value(bytes@) == Err::<(SpecValue, nat), DecodeError>(e),
            },
    {
        match decode_value(bytes) {
            Ok((v, _)) => Ok(v),
            Err(e) => Err(e),
        }
    }
}

impl Message {
    /// Decodes a map payload (length field, entries, terminator) from the
    /// front of `slice`: exactly what [`parse_payload`] says of a
    /// map-tagged payload.  Trailing bytes are ignored.
    pub fn from_bytes(slice: &[u8]) -> (r: DecodeResult<Message>)
        ensures
            match r {
                Ok(m) => parse_payload(wire::MAP, slice@) matches Ok((sv, n)) && sv
                    == SpecValue::Message(m@) && m.wf(),
                Err(e) => parse_payload(wire::MAP, slice@) == Err::<(SpecValue, nat), DecodeError>(
                    e,
                ),
            },
    {
        match decode_payload(wire::MAP, slice) {
            Ok((v, _)) => {
                proof {
                    crate::value::lemma_view_variants(v);
                    let r2 = parse_entries(slice@.skip(4));
                    match r2 {
                        Ok((es, _)) => {
                            crate::model::lemma_msg_from_entries_is_unique(es);
                        },
                        Err(_) => {},
                    }
                }
                match v {
                    Value::Message(m) => Ok(m),
                    _ => {
                        proof {
                            assert(false);
                        }
                        Err(DecodeError::UnexpectedEof)
                    },
                }
            },
            Err(e) => Err(e),
        }
    }
}

impl Array {
    /// Decodes an array payload (length field, elements, terminator) from
    /// the front of `slice`: exactly what [`parse_payload`] says of an
    /// array-tagged payload.  Trailing bytes are ignored.
    pub fn from_bytes(slice: &[u8]) -> (r: DecodeResult<Array>)
        ensures
            match r {
                Ok(a) => parse_payload(wire::ARRAY, slice@) matches Ok((sv, n)) && sv
                    == SpecValue::Array(a@),
                Err(e) => parse_payload(wire::ARRAY, slice@) == Err::<
                    (SpecValue, nat),
                    DecodeError,
                >(e),
            },
    {
        match decode_payload(wire::ARRAY, slice) {
            Ok((v, _)) => {
                proof {
                    crate::value::lemma_view_variants(v);
                }
                match v {
                    Value::Array(a) => Ok(a),
                    _ => {
                        proof {
                            assert(false);
                        }
                        Err(DecodeError::UnexpectedEof)
                    },
                }
            },
            Err(e) => Err(e),
        }
    }
}

} // verus!
