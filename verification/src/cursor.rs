//! A positioned reader over an in-memory buffer: the byte source the
//! cursor-style decoding entry points consume.

use vstd::prelude::*;
use vstd::slice::slice_subrange;

use crate::array::Array;
use crate::decode::{parse_payload, parse_value, DecodeError, DecodeResult};
use crate::message::Message;
use crate::model::{msg_from_entries, SpecValue};
use crate::value::Value;
use crate::wire;

verus! {

/// A buffer and a read position within it.
#[derive(Debug, Eq, PartialEq, Clone)]
pub struct Cursor<T> {
    pub inner: T,
    pub pos: u64,
}

impl<T> Cursor<T> {
    /// A cursor at the start of `inner`.
    pub fn new(inner: T) -> (r: Cursor<T>)
        ensures
            r.pos == 0,
            r.inner == inner,
    {
        Cursor { pos: 0, inner }
    }

    /// The underlying buffer.
    pub fn into_inner(self) -> (r: T)
        ensures
            r == self.inner,
    {
        self.inner
    }

    /// A reference to the underlying buffer.
    pub fn get_ref(&self) -> (r: &T)
        ensures
            r == self.inner,
    {
        &self.inner
    }

    /// The read position.
    pub fn position(&self) -> (r: u64)
        ensures
            r == self.pos,
    {
        self.pos
    }

    /// Moves the read position.
    pub fn set_position(&mut self, pos: u64)
        ensures
            final(self).pos == pos,
            final(self).inner == old(self).inner,
    {
        self.pos = pos;
    }
}

impl Cursor<Vec<u8>> {
    /// The position clamped to the buffer: where the next read starts.
    pub open spec fn spec_start(self) -> int {
        if self.pos <= self.inner@.len() {
            self.pos as int
        } else {
            self.inner@.len() as int
        }
    }

    /// The bytes left to read.
    pub open spec fn spec_remaining(self) -> Seq<u8> {
        self.inner@.skip(self.spec_start())
    }

    /// The bytes left to read.
    pub fn remaining_slice(&self) -> (r: &[u8])
        ensures
            r@ == self.spec_remaining(),
    {
        let len = self.inner.len();
        let start: usize = if self.pos <= len as u64 {
            self.pos as usize
        } else {
            len
        };
        let r = slice_subrange(self.inner.as_slice(), start, len);
        proof {
            assert(r@ =~= self.spec_remaining());
        }
        r
    }

    /// Whether nothing is left to read.
    pub fn is_empty(&self) -> (r: bool)
        ensures
            r == (self.spec_remaining().len() == 0),
    {
        self.pos >= self.inner.len() as u64
    }
}

impl Value {
    /// Decodes one value from the cursor, advancing it past the bytes
    /// consumed; on an error the cursor is unchanged.
    pub fn decode(reader: &mut Cursor<Vec<u8>>) -> (r: DecodeResult<Value>)
        ensures
            final(reader).inner == old(reader).inner,
            match r {
                Ok(v) => parse_value(old(reader).spec_remaining()) matches Ok((sv, n)) && sv == v@
                    && final(reader).pos == old(reader).spec_start() + n,
                Err(e) => parse_value(old(reader).spec_remaining()) == Err::<
                    (SpecValue, nat),
                    DecodeError,
                >(e) && final(reader).pos == old(reader).pos,
            },
    {
        let start: u64 = if reader.pos <= reader.inner.len() as u64 {
            reader.pos
        } else {
            reader.inner.len() as u64
        };
        match crate::decode::decode_value(reader.remaining_slice()) {
            Ok((v, n)) => {
                proof {
                    crate::decode::lemma_parse_value_consumed(reader.spec_remaining());
                }
                reader.pos = start + n as u64;
                Ok(v)
            },
            Err(e) => Err(e),
        }
    }
}

impl Message {
    /// Decodes a map payload from the cursor, advancing it past the bytes
    /// consumed; on an error the cursor is unchanged.
    pub fn decode(reader: &mut Cursor<Vec<u8>>) -> (r: DecodeResult<Message>)
        ensures
            final(reader).inner == old(reader).inner,
            match r {
                Ok(m) => parse_payload(wire::MAP, old(reader).spec_remaining()) matches Ok(
                    (sv, n),
                ) && sv == SpecValue::Message(m@) && m.wf() && final(reader).pos == old(
                    reader,
                ).spec_start() + n,
                Err(e) => parse_payload(wire::MAP, old(reader).spec_remaining()) == Err::<
                    (SpecValue, nat),
                    DecodeError,
                >(e) && final(reader).pos == old(reader).pos,
            },
    {
        let start: u64 = if reader.pos <= reader.inner.len() as u64 {
            reader.pos
        } else {
            reader.inner.len() as u64
        };
        let slice = reader.remaining_slice();
        let ghost remaining = reader.spec_remaining();
        match crate::decode::decode_payload(wire::MAP, slice) {
            Ok((v, n)) => {
                proof {
                    crate::value::lemma_view_variants(v);
                    let r2 = crate::decode::parse_entries(remaining.skip(4));
                    match r2 {
                        Ok((es, _)) => {
                            crate::model::lemma_msg_from_entries_is_unique(es);
                        },
                        Err(_) => {},
                    }
                }
                match v {
                    Value::Message(m) => {
                        reader.pos = start + n as u64;
                        Ok(m)
                    },
                    _ => {
                        proof {
                            assert(false);
                        }
                        Err(DecodeError::UnexpectedEof)
                    },
                }
            },
            Err(e) => Err(e),
        }
    }
}

impl Array {
    /// Decodes an array payload from the cursor, advancing it past the
    /// bytes consumed; on an error the cursor is unchanged.
    pub fn decode(reader: &mut Cursor<Vec<u8>>) -> (r: DecodeResult<Array>)
        ensures
            final(reader).inner == old(reader).inner,
            match r {
                Ok(a) => parse_payload(wire::ARRAY, old(reader).spec_remaining()) matches Ok(
                    (sv, n),
                ) && sv == SpecValue::Array(a@) && final(reader).pos == old(
                    reader,
                ).spec_start() + n,
                Err(e) => parse_payload(wire::ARRAY, old(reader).spec_remaining()) == Err::<
                    (SpecValue, nat),
                    DecodeError,
                >(e) && final(reader).pos == old(reader).pos,
            },
    {
        let start: u64 = if reader.pos <= reader.inner.len() as u64 {
            reader.pos
        } else {
            reader.inner.len() as u64
        };
        match crate::decode::decode_payload(wire::ARRAY, reader.remaining_slice()) {
            Ok((v, n)) => {
                proof {
                    crate::value::lemma_view_variants(v);
                }
                match v {
                    Value::Array(a) => {
                        reader.pos = start + n as u64;
                        Ok(a)
                    },
                    _ => {
                        proof {
                            assert(false);
                        }
                        Err(DecodeError::UnexpectedEof)
                    },
                }
            },
            Err(e) => Err(e),
        }
    }
}

} // verus!
