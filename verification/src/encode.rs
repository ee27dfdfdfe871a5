//! The byte-level encoder.
//!
//! A container's exact encoded size is computed before anything is written,
//! so the length field is emitted up front and never patched.  Encoding
//! fails only on a key the wire format cannot carry (empty, or 255 bytes
//! and longer) and on a payload larger than the configured maximum, whose
//! length field could not be decoded again.

use vstd::bytes::{
    spec_u16_to_le_bytes, spec_u32_to_le_bytes, spec_u64_to_le_bytes, u16_to_le_bytes,
    u32_to_le_bytes, u64_to_le_bytes,
};
use vstd::prelude::*;
use vstd::utf8::encode_utf8;

use crate::array::Array;
use crate::format::{
    elems_size, entries_size, keys_ok, keys_ok_elems, keys_ok_entries, payload_bytes,
    payload_size, valid_key, value_bytes, value_tag,
};
use crate::message::Message;
use crate::model::SpecValue;
use crate::value::{elem_views, entry_views, lemma_elem_views, lemma_entry_views, Value};
use crate::MAX_NSON_SIZE;

verus! {

/// Why encoding failed.
#[derive(Debug, Clone, Copy, PartialEq, Eq, Structural)]
pub enum EncodeError {
    /// A map key's byte length is zero, or 255 or more.
    InvalidKeyLen(usize),
    /// A length-prefixed payload exceeds the configured maximum size.
    TooLarge,
}

pub type EncodeResult<T> = Result<T, EncodeError>;

/// Appends the bytes of `s` to `buf`.
pub(crate) fn push_bytes(buf: &mut Vec<u8>, s: &[u8])
    ensures
        final(buf)@ == old(buf)@ + s@,
{
    let n = s.len();
    let mut i: usize = 0;
    while i < n
        invariant
            0 <= i <= n,
            n == s@.len(),
            buf@ == old(buf)@ + s@.subrange(0, i as int),
        decreases n - i,
    {
        buf.push(s[i]);
        proof {
            assert(old(buf)@ + s@.subrange(0, i + 1) =~= (old(buf)@ + s@.subrange(0, i as int)).push(
                s@[i as int],
            ));
        }
        i = i + 1;
    }
    proof {
        assert(s@.subrange(0, n as int) =~= s@);
    }
}

/// Appends `v` to `buf`, little endian.
pub(crate) fn write_u16(buf: &mut Vec<u8>, v: u16)
    ensures
        final(buf)@ == old(buf)@ + spec_u16_to_le_bytes(v),
{
    let mut tmp = u16_to_le_bytes(v);
    buf.append(&mut tmp);
}

/// Appends `v` to `buf`, little endian.
pub(crate) fn write_u32(buf: &mut Vec<u8>, v: u32)
    ensures
        final(buf)@ == old(buf)@ + spec_u32_to_le_bytes(v),
{
    let mut tmp = u32_to_le_bytes(v);
    buf.append(&mut tmp);
}

/// Appends `v` to `buf`, little endian.
pub(crate) fn write_u64(buf: &mut Vec<u8>, v: u64)
    ensures
        final(buf)@ == old(buf)@ + spec_u64_to_le_bytes(v),
{
    let mut tmp = u64_to_le_bytes(v);
    buf.append(&mut tmp);
}

/// The exact payload size of `v`, or `None` when it exceeds the maximum.
pub(crate) fn value_size_checked(v: &Value) -> (r: Option<u32>)
    ensures
        match r {
            Some(n) => n == payload_size(v@) && payload_size(v@) <= MAX_NSON_SIZE,
            None => payload_size(v@) > MAX_NSON_SIZE,
        },
    decreases v,
{
    match v {
        Value::F32(_) => Some(4),
        Value::F64(_) => Some(8),
        Value::I32(_) => Some(4),
        Value::I64(_) => Some(8),
        Value::U32(_) => Some(4),
        Value::U64(_) => Some(8),
        Value::I8(_) => Some(1),
        Value::U8(_) => Some(1),
        Value::I16(_) => Some(2),
        Value::U16(_) => Some(2),
        Value::String(s) => {
            let n = s.as_str().as_bytes().len();
            proof {
                assert(payload_size(v@) == 4 + n);
            }
            if n > (MAX_NSON_SIZE - 4) as usize {
                None
            } else {
                Some(4 + n as u32)
            }
        },
        Value::Array(a) => {
            proof {
                assert(v@ == SpecValue::Array(elem_views(a.inner, 0)));
            }
            array_payload_size_checked(&a.inner)
        },
        Value::Message(m) => {
            proof {
                assert(v@ == SpecValue::Message(entry_views(m.inner, 0)));
            }
            message_payload_size_checked(&m.inner)
        },
        Value::Bool(_) => Some(1),
        Value::Null => Some(0),
        Value::Binary(b) => {
            let n = b.0.len();
            proof {
                assert(payload_size(v@) == 4 + n);
            }
            if n > (MAX_NSON_SIZE - 4) as usize {
                None
            } else {
                Some(4 + n as u32)
            }
        },
        Value::TimeStamp(_) => Some(8),
        Value::Id(id) => {
            proof {
                assert(id.bytes@.len() == 12);
            }
            Some(12)
        },
    }
}

/// The exact payload size of an array over `es`, or `None` when it exceeds
/// the maximum.
pub(crate) fn array_payload_size_checked(es: &Vec<Value>) -> (r: Option<u32>)
    ensures
        match r {
            Some(n) => n == payload_size(SpecValue::Array(elem_views(*es, 0))) && n
                <= MAX_NSON_SIZE,
            None => payload_size(SpecValue::Array(elem_views(*es, 0))) > MAX_NSON_SIZE,
        },
    decreases *es,
{
    proof {
        lemma_elem_views(*es, 0);
    }
    let ghost views = elem_views(*es, 0);
    let n = es.len();
    let mut acc: u32 = 5;
    let mut j: usize = 0;
    while j < n
        invariant
            0 <= j <= n,
            n == es.len(),
            views == elem_views(*es, 0),
            views.len() == n,
            forall|k: int|
                0 <= k < n ==> #[trigger] elem_views(*es, 0)[k] == crate::value::view_of(es[k]),
            acc <= MAX_NSON_SIZE,
            acc + elems_size(views, j as int) == 5 + elems_size(views, 0),
        decreases n - j,
    {
        let child = match value_size_checked(&es[j]) {
            Some(c) => c,
            None => {
                proof {
                    crate::format::lemma_elems_size_mono(views, 0, j as int);
                }
                return None;
            },
        };
        if acc as u64 + 1 + child as u64 > MAX_NSON_SIZE as u64 {
            proof {
                crate::format::lemma_elems_size_mono(views, 0, j as int);
            }
            return None;
        }
        acc = acc + 1 + child;
        j = j + 1;
    }
    Some(acc)
}

/// The exact payload size of a map over `es`, or `None` when it exceeds
/// the maximum.
pub(crate) fn message_payload_size_checked(es: &Vec<(String, Value)>) -> (r: Option<u32>)
    ensures
        match r {
            Some(n) => n == payload_size(SpecValue::Message(entry_views(*es, 0))) && n
                <= MAX_NSON_SIZE,
            None => payload_size(SpecValue::Message(entry_views(*es, 0))) > MAX_NSON_SIZE,
        },
    decreases *es,
{
    proof {
        lemma_entry_views(*es, 0);
    }
    let ghost views = entry_views(*es, 0);
    let n = es.len();
    let mut acc: u32 = 5;
    let mut j: usize = 0;
    while j < n
        invariant
            0 <= j <= n,
            n == es.len(),
            views == entry_views(*es, 0),
            views.len() == n,
            forall|k: int|
                0 <= k < n ==> #[trigger] entry_views(*es, 0)[k] == (
                    es[k].0@,
                    crate::value::view_of(es[k].1),
                ),
            acc <= MAX_NSON_SIZE,
            acc + entries_size(views, j as int) == 5 + entries_size(views, 0),
        decreases n - j,
    {
        let pair = &es[j];
        let klen = pair.0.as_str().as_bytes().len();
        let child = match value_size_checked(&pair.1) {
            Some(c) => c,
            None => {
                proof {
                    crate::format::lemma_entries_size_mono(views, 0, j as int);
                }
                return None;
            },
        };
        if klen > MAX_NSON_SIZE as usize || klen as u64 + 2 + child as u64 + acc as u64
            > MAX_NSON_SIZE as u64 {
            proof {
                crate::format::lemma_entries_size_mono(views, 0, j as int);
            }
            return None;
        }
        proof {
            assert(entries_size(views, j as int) == 1 + encode_utf8(views[j as int].0).len() + 1
                + payload_size(views[j as int].1) + entries_size(views, j + 1));
        }
        acc = acc + 2 + klen as u32 + child;
        j = j + 1;
    }
    Some(acc)
}

/// Encodes `v` onto the end of `buf`: its tag byte, then its payload.
/// Succeeds exactly when every reachable map key is one the wire format
/// can carry.
pub fn encode_value(buf: &mut Vec<u8>, v: &Value) -> (r: EncodeResult<()>)
    requires
        payload_size(v@) <= MAX_NSON_SIZE,
    ensures
        r is Ok <==> keys_ok(v@),
        r is Ok ==> final(buf)@ == old(buf)@ + value_bytes(v@),
        r is Err ==> r matches Err(EncodeError::InvalidKeyLen(_)),
        old(buf)@.is_prefix_of(final(buf)@),
    decreases v,
{
    proof {
        assert(value_tag(v@) == v.spec_element_type().spec_tag());
    }
    buf.push(v.element_type().tag());
    match v {
        Value::F32(b) => {
            write_u32(buf, *b);
            proof {
                assert(buf@ =~= old(buf)@ + value_bytes(v@));
            }
            Ok(())
        },
        Value::F64(b) => {
            write_u64(buf, *b);
            proof {
                assert(buf@ =~= old(buf)@ + value_bytes(v@));
            }
            Ok(())
        },
        Value::I32(i) => {
            write_u32(buf, #[verifier::truncate] (*i as u32));
            proof {
                assert(buf@ =~= old(buf)@ + value_bytes(v@));
            }
            Ok(())
        },
        Value::I64(i) => {
            write_u64(buf, #[verifier::truncate] (*i as u64));
            proof {
                assert(buf@ =~= old(buf)@ + value_bytes(v@));
            }
            Ok(())
        },
        Value::U32(u) => {
            write_u32(buf, *u);
            proof {
                assert(buf@ =~= old(buf)@ + value_bytes(v@));
            }
            Ok(())
        },
        Value::U64(u) => {
            write_u64(buf, *u);
            proof {
                assert(buf@ =~= old(buf)@ + value_bytes(v@));
            }
            Ok(())
        },
        Value::I8(i) => {
            buf.push(#[verifier::truncate] (*i as u8));
            proof {
                assert(buf@ =~= old(buf)@ + value_bytes(v@));
            }
            Ok(())
        },
        Value::U8(u) => {
            buf.push(*u);
            proof {
                assert(buf@ =~= old(buf)@ + value_bytes(v@));
            }
            Ok(())
        },
        Value::I16(i) => {
            write_u16(buf, #[verifier::truncate] (*i as u16));
            proof {
                assert(buf@ =~= old(buf)@ + value_bytes(v@));
            }
            Ok(())
        },
        Value::U16(u) => {
            write_u16(buf, *u);
            proof {
                assert(buf@ =~= old(buf)@ + value_bytes(v@));
            }
            Ok(())
        },
        Value::String(s) => {
            write_u32(buf, s.as_str().as_bytes().len() as u32 + 4);
            push_bytes(buf, s.as_str().as_bytes());
            proof {
                assert(buf@ =~= old(buf)@ + value_bytes(v@));
            }
            Ok(())
        },
        Value::Array(a) => {
            match encode_array_payload(buf, &a.inner) {
                Ok(()) => {
                    proof {
                        assert(buf@ =~= old(buf)@ + value_bytes(v@));
                    }
                    Ok(())
                },
                Err(e) => Err(e),
            }
        },
        Value::Message(m) => {
            match encode_message_payload(buf, &m.inner) {
                Ok(()) => {
                    proof {
                        assert(buf@ =~= old(buf)@ + value_bytes(v@));
                    }
                    Ok(())
                },
                Err(e) => Err(e),
            }
        },
        Value::Bool(b) => {
            buf.push(if *b {
                1
            } else {
                0
            });
            proof {
                assert(buf@ =~= old(buf)@ + value_bytes(v@));
            }
            Ok(())
        },
        Value::Null => {
            proof {
                assert(buf@ =~= old(buf)@ + value_bytes(v@));
            }
            Ok(())
        },
        Value::Binary(b) => {
            write_u32(buf, b.0.len() as u32 + 4);
            push_bytes(buf, b.0.as_slice());
            proof {
                assert(buf@ =~= old(buf)@ + value_bytes(v@));
            }
            Ok(())
        },
        Value::TimeStamp(t) => {
            write_u64(buf, t.0);
            proof {
                assert(buf@ =~= old(buf)@ + value_bytes(v@));
            }
            Ok(())
        },
        Value::Id(id) => {
            push_bytes(buf, id.bytes.as_slice());
            proof {
                assert(buf@ =~= old(buf)@ + value_bytes(v@));
            }
            Ok(())
        },
    }
}

/// Encodes an array payload over `es` onto `buf`: length field, elements,
/// terminator byte.
#[verifier::rlimit(60)]
pub(crate) fn encode_array_payload(buf: &mut Vec<u8>, es: &Vec<Value>) -> (r: EncodeResult<()>)
    requires
        payload_size(SpecValue::Array(elem_views(*es, 0))) <= MAX_NSON_SIZE,
    ensures
        r is Ok <==> keys_ok_elems(elem_views(*es, 0), 0),
        r is Ok ==> final(buf)@ == old(buf)@ + payload_bytes(SpecValue::Array(elem_views(*es, 0))),
        r is Err ==> r matches Err(EncodeError::InvalidKeyLen(_)),
        old(buf)@.is_prefix_of(final(buf)@),
    decreases *es,
{
    proof {
        lemma_elem_views(*es, 0);
    }
    let ghost views = elem_views(*es, 0);
    let size = match array_payload_size_checked(es) {
        Some(sz) => sz,
        None => {
            proof {
                assert(false);
            }
            0
        },
    };
    write_u32(buf, size);
    let n = es.len();
    let mut j: usize = 0;
    let mut failed: Option<usize> = None;
    while j < n
        invariant
            0 <= j <= n,
            n == es.len(),
            views == elem_views(*es, 0),
            views.len() == n,
            forall|k: int|
                0 <= k < n ==> #[trigger] elem_views(*es, 0)[k] == crate::value::view_of(es[k]),
            payload_size(SpecValue::Array(views)) <= MAX_NSON_SIZE,
            size == payload_size(SpecValue::Array(views)),
            failed is None ==> {
                &&& buf@ + crate::format::elems_bytes(views, j as int) == old(buf)@
                    + spec_u32_to_le_bytes(size) + crate::format::elems_bytes(views, 0)
                &&& forall|k: int| 0 <= k < j ==> keys_ok(#[trigger] views[k])
            },
            failed is Some ==> !keys_ok_elems(views, 0),
            old(buf)@.is_prefix_of(buf@),
        decreases n - j,
    {
        if failed.is_none() {
            proof {
                crate::format::lemma_elems_size_mono(views, 0, j as int);
            }
            let ghost pre = buf@;
            match encode_value(buf, &es[j]) {
                Ok(()) => {
                    proof {
                        assert(buf@ + crate::format::elems_bytes(views, j + 1) =~= pre
                            + crate::format::elems_bytes(views, j as int));
                    }
                },
                Err(EncodeError::InvalidKeyLen(l)) => {
                    proof {
                        crate::format::lemma_keys_ok_elems(views, 0);
                    }
                    failed = Some(l);
                },
                Err(EncodeError::TooLarge) => {
                    proof {
                        assert(false);
                    }
                },
            }
        }
        j = j + 1;
    }
    match failed {
        None => {
            buf.push(0);
            proof {
                crate::format::lemma_keys_ok_elems(views, 0);
                assert(crate::format::elems_bytes(views, n as int) =~= Seq::<u8>::empty());
                assert(buf@ =~= old(buf)@ + payload_bytes(SpecValue::Array(views)));
            }
            Ok(())
        },
        Some(l) => Err(EncodeError::InvalidKeyLen(l)),
    }
}

/// Encodes a map payload over `es` onto `buf`: length field, entries, the
/// zero key-length terminator.
#[verifier::rlimit(60)]
pub(crate) fn encode_message_payload(buf: &mut Vec<u8>, es: &Vec<(String, Value)>) -> (r:
    EncodeResult<()>)
    requires
        payload_size(SpecValue::Message(entry_views(*es, 0))) <= MAX_NSON_SIZE,
    ensures
        r is Ok <==> keys_ok_entries(entry_views(*es, 0), 0),
        r is Ok ==> final(buf)@ == old(buf)@ + payload_bytes(SpecValue::Message(entry_views(*es, 0))),
        r is Err ==> r matches Err(EncodeError::InvalidKeyLen(_)),
        old(buf)@.is_prefix_of(final(buf)@),
    decreases *es,
{
    proof {
        lemma_entry_views(*es, 0);
    }
    let ghost views = entry_views(*es, 0);
    let size = match message_payload_size_checked(es) {
        Some(sz) => sz,
        None => {
            proof {
                assert(false);
            }
            0
        },
    };
    write_u32(buf, size);
    let n = es.len();
    let mut j: usize = 0;
    let mut failed: Option<usize> = None;
    while j < n
        invariant
            0 <= j <= n,
            n == es.len(),
            views == entry_views(*es, 0),
            views.len() == n,
            forall|k: int|
                0 <= k < n ==> #[trigger] entry_views(*es, 0)[k] == (
                    es[k].0@,
                    crate::value::view_of(es[k].1),
                ),
            payload_size(SpecValue::Message(views)) <= MAX_NSON_SIZE,
            size == payload_size(SpecValue::Message(views)),
            failed is None ==> {
                &&& buf@ + crate::format::entries_bytes(views, j as int) == old(buf)@
                    + spec_u32_to_le_bytes(size) + crate::format::entries_bytes(views, 0)
                &&& forall|k: int|
                    #![trigger views[k]]
                    0 <= k < j ==> valid_key(views[k].0) && keys_ok(views[k].1)
            },
            failed is Some ==> !keys_ok_entries(views, 0),
            old(buf)@.is_prefix_of(buf@),
        decreases n - j,
    {
        if failed.is_none() {
            proof {
                crate::format::lemma_entries_size_mono(views, 0, j as int);
            }
            let ghost pre = buf@;
            let pair = &es[j];
            let klen = pair.0.as_str().as_bytes().len();
            if klen == 0 || klen >= 255 {
                proof {
                    crate::format::lemma_keys_ok_entries(views, 0);
                }
                failed = Some(klen);
            } else {
                buf.push(klen as u8 + 1);
                push_bytes(buf, pair.0.as_str().as_bytes());
                match encode_value(buf, &pair.1) {
                    Ok(()) => {
                        proof {
                            assert(crate::format::entries_bytes(views, j as int)
                                == crate::format::entry_bytes(views[j as int].0, views[j as int].1)
                                + crate::format::entries_bytes(views, j + 1));
                            assert(crate::format::entry_bytes(views[j as int].0, views[j as int].1)
                                =~= seq![(encode_utf8(views[j as int].0).len() + 1) as u8]
                                + encode_utf8(views[j as int].0) + value_bytes(views[j as int].1));
                            assert(buf@ + crate::format::entries_bytes(views, j + 1) =~= pre
                                + crate::format::entries_bytes(views, j as int));
                        }
                    },
                    Err(EncodeError::InvalidKeyLen(l)) => {
                        proof {
                            crate::format::lemma_keys_ok_entries(views, 0);
                        }
                        failed = Some(l);
                    },
                    Err(EncodeError::TooLarge) => {
                        proof {
                            assert(false);
                        }
                    },
                }
            }
        }
        j = j + 1;
    }
    match failed {
        None => {
            buf.push(0);
            proof {
                crate::format::lemma_keys_ok_entries(views, 0);
                assert(crate::format::entries_bytes(views, n as int) =~= Seq::<u8>::empty());
                assert(buf@ =~= old(buf)@ + payload_bytes(SpecValue::Message(views)));
            }
            Ok(())
        },
        Some(l) => Err(EncodeError::InvalidKeyLen(l)),
    }
}

impl Value {
    /// The number of bytes this value's payload encodes to.
    pub fn bytes_size(&self) -> (r: usize)
        requires
            payload_size(self@) <= MAX_NSON_SIZE,
        ensures
            r == payload_size(self@),
    {
        match value_size_checked(self) {
            Some(n) => n as usize,
            None => {
                proof {
                    assert(false);
                }
                0
            },
        }
    }

    /// Encodes this value: tag byte, then payload.  Fails with
    /// `EncodeError::TooLarge` exactly when some length-prefixed payload
    /// exceeds the configured maximum, and otherwise with
    /// `EncodeError::InvalidKeyLen` exactly when some reachable map key is
    /// empty or 255 bytes and longer.
    pub fn to_bytes(&self) -> (r: EncodeResult<Vec<u8>>)
        ensures
            match r {
                Ok(buf) => payload_size(self@) <= MAX_NSON_SIZE && keys_ok(self@) && buf@
                    == value_bytes(self@),
                Err(EncodeError::TooLarge) => payload_size(self@) > MAX_NSON_SIZE,
                Err(EncodeError::InvalidKeyLen(_)) => payload_size(self@) <= MAX_NSON_SIZE
                    && !keys_ok(self@),
            },
    {
        match value_size_checked(self) {
            Some(_) => {
                let mut buf: Vec<u8> = Vec::new();
                match encode_value(&mut buf, self) {
                    Ok(()) => {
                        proof {
                            assert(buf@ =~= value_bytes(self@));
                        }
                        Ok(buf)
                    },
                    Err(e) => Err(e),
                }
            },
            None => Err(EncodeError::TooLarge),
        }
    }
}

impl Message {
    /// The number of bytes this map encodes to: length field, entries,
    /// terminator.
    pub fn bytes_size(&self) -> (r: usize)
        requires
            payload_size(SpecValue::Message(self@)) <= MAX_NSON_SIZE,
        ensures
            r == payload_size(SpecValue::Message(self@)),
    {
        match message_payload_size_checked(&self.inner) {
            Some(n) => n as usize,
            None => {
                proof {
                    assert(false);
                }
                0
            },
        }
    }

    /// Encodes this map onto the end of `buf` (see [`Message::to_bytes`]).
    pub fn encode(&self, buf: &mut Vec<u8>) -> (r: EncodeResult<()>)
        ensures
            match r {
                Ok(_) => payload_size(SpecValue::Message(self@)) <= MAX_NSON_SIZE
                    && keys_ok_entries(self@, 0) && final(buf)@ == old(buf)@ + payload_bytes(
                    SpecValue::Message(self@),
                ),
                Err(EncodeError::TooLarge) => payload_size(SpecValue::Message(self@))
                    > MAX_NSON_SIZE,
                Err(EncodeError::InvalidKeyLen(_)) => payload_size(SpecValue::Message(self@))
                    <= MAX_NSON_SIZE && !keys_ok_entries(self@, 0),
            },
            r is Ok || old(buf)@.is_prefix_of(final(buf)@),
    {
        match message_payload_size_checked(&self.inner) {
            Some(_) => encode_message_payload(buf, &self.inner),
            None => Err(EncodeError::TooLarge),
        }
    }

    /// Encodes this map to a fresh buffer: length field, entries,
    /// terminator.  Errors as [`Value::to_bytes`] does.
    pub fn to_bytes(&self) -> (r: EncodeResult<Vec<u8>>)
        ensures
            match r {
                Ok(buf) => payload_size(SpecValue::Message(self@)) <= MAX_NSON_SIZE
                    && keys_ok_entries(self@, 0) && buf@ == payload_bytes(
                    SpecValue::Message(self@),
                ),
                Err(EncodeError::TooLarge) => payload_size(SpecValue::Message(self@))
                    > MAX_NSON_SIZE,
                Err(EncodeError::InvalidKeyLen(_)) => payload_size(SpecValue::Message(self@))
                    <= MAX_NSON_SIZE && !keys_ok_entries(self@, 0),
            },
    {
        let mut buf: Vec<u8> = Vec::new();
        match self.encode(&mut buf) {
            Ok(()) => {
                proof {
                    assert(buf@ =~= payload_bytes(SpecValue::Message(self@)));
                }
                Ok(buf)
            },
            Err(e) => Err(e),
        }
    }
}

impl Array {
    /// The number of bytes this array encodes to: length field, elements,
    /// terminator.
    pub fn bytes_size(&self) -> (r: usize)
        requires
            payload_size(SpecValue::Array(self@)) <= MAX_NSON_SIZE,
        ensures
            r == payload_size(SpecValue::Array(self@)),
    {
        match array_payload_size_checked(&self.inner) {
            Some(n) => n as usize,
            None => {
                proof {
                    assert(false);
                }
                0
            },
        }
    }

    /// Encodes this array onto the end of `buf` (see [`Array::to_bytes`]).
    pub fn encode(&self, buf: &mut Vec<u8>) -> (r: EncodeResult<()>)
        ensures
            match r {
                Ok(_) => payload_size(SpecValue::Array(self@)) <= MAX_NSON_SIZE && keys_ok_elems(
                    self@,
                    0,
                ) && final(buf)@ == old(buf)@ + payload_bytes(SpecValue::Array(self@)),
                Err(EncodeError::TooLarge) => payload_size(SpecValue::Array(self@))
                    > MAX_NSON_SIZE,
                Err(EncodeError::InvalidKeyLen(_)) => payload_size(SpecValue::Array(self@))
                    <= MAX_NSON_SIZE && !keys_ok_elems(self@, 0),
            },
            r is Ok || old(buf)@.is_prefix_of(final(buf)@),
    {
        match array_payload_size_checked(&self.inner) {
            Some(_) => encode_array_payload(buf, &self.inner),
            None => Err(EncodeError::TooLarge),
        }
    }

    /// Encodes this array to a fresh buffer: length field, elements,
    /// terminator.  Errors as [`Value::to_bytes`] does.
    pub fn to_bytes(&self) -> (r: EncodeResult<Vec<u8>>)
        ensures
            match r {
                Ok(buf) => payload_size(SpecValue::Array(self@)) <= MAX_NSON_SIZE
                    && keys_ok_elems(self@, 0) && buf@ == payload_bytes(SpecValue::Array(self@)),
                Err(EncodeError::TooLarge) => payload_size(SpecValue::Array(self@))
                    > MAX_NSON_SIZE,
                Err(EncodeError::InvalidKeyLen(_)) => payload_size(SpecValue::Array(self@))
                    <= MAX_NSON_SIZE && !keys_ok_elems(self@, 0),
            },
    {
        let mut buf: Vec<u8> = Vec::new();
        match self.encode(&mut buf) {
            Ok(()) => {
                proof {
                    assert(buf@ =~= payload_bytes(SpecValue::Array(self@)));
                }
                Ok(buf)
            },
            Err(e) => Err(e),
        }
    }
}

} // verus!
