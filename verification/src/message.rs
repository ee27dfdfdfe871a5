//! The order-preserving, string-keyed map of values.
//!
//! Iteration order is insertion order.  Inserting an existing key replaces
//! the value in place and keeps the entry's original position; inserting a
//! new key appends.  Keys are kept pairwise distinct ([`Message::wf`]);
//! every constructor establishes that invariant and every mutating
//! operation preserves it.  The wire format additionally needs keys to be
//! non-empty and shorter than 255 bytes, which the encoder checks.

use vstd::prelude::*;

use crate::model::{
    has_key, key_index, lemma_key_index, lemma_spec_insert_unique, msg_get, spec_insert,
    unique_keys, SpecEntries, SpecValue,
};
use crate::value::{entry_views, lemma_entry_views, Value};
use crate::array::Array;
use crate::id::Id;
use crate::value::{Binary, TimeStamp};

verus! {

/// The error of a typed accessor: the key is absent, or present with a
/// value of another kind.
#[derive(PartialEq, Eq, Debug, Clone, Copy, Structural)]
pub enum Error {
    NotPresent,
    UnexpectedType,
}

/// An order-preserving map from string keys to values.
#[derive(Debug, PartialEq)]
pub struct Message {
    pub inner: Vec<(String, Value)>,
}

impl Clone for Message {
    /// A deep copy with the same model.
    fn clone(&self) -> (r: Self)
        ensures
            r@ == self@,
    {
        Message { inner: crate::value::clone_entries(&self.inner) }
    }
}

impl View for Message {
    type V = SpecEntries;

    open spec fn view(&self) -> SpecEntries {
        entry_views(self.inner, 0)
    }
}

impl Message {
    /// Well-formed: the keys are pairwise distinct.
    pub open spec fn wf(self) -> bool {
        unique_keys(self@)
    }

    /// The empty map.
    pub fn new() -> (r: Message)
        ensures
            r@ == Seq::<(Seq<char>, SpecValue)>::empty(),
            r.wf(),
    {
        let m = Message { inner: Vec::new() };
        proof {
            lemma_entry_views(m.inner, 0);
            assert(m@ =~= Seq::<(Seq<char>, SpecValue)>::empty());
        }
        m
    }

    /// The empty map, with room reserved for `n` entries.
    pub fn with_capacity(n: usize) -> (r: Message)
        ensures
            r@ == Seq::<(Seq<char>, SpecValue)>::empty(),
            r.wf(),
    {
        let m = Message { inner: Vec::with_capacity(n) };
        proof {
            lemma_entry_views(m.inner, 0);
            assert(m@ =~= Seq::<(Seq<char>, SpecValue)>::empty());
        }
        m
    }

    pub fn len(&self) -> (r: usize)
        ensures
            r == self@.len(),
    {
        proof {
            lemma_entry_views(self.inner, 0);
        }
        self.inner.len()
    }

    pub fn is_empty(&self) -> (r: bool)
        ensures
            r == (self@.len() == 0),
    {
        proof {
            lemma_entry_views(self.inner, 0);
        }
        self.inner.is_empty()
    }

    /// Removes every entry.
    pub fn clear(&mut self)
        ensures
            final(self)@ == Seq::<(Seq<char>, SpecValue)>::empty(),
            final(self).wf(),
    {
        self.inner.clear();
        proof {
            lemma_entry_views(self.inner, 0);
            assert(self@ =~= Seq::<(Seq<char>, SpecValue)>::empty());
        }
    }

    /// Position of the entry holding `key`, if any.
    #[verifier::loop_isolation(false)]
    pub fn get_index_of(&self, key: &str) -> (r: Option<usize>)
        ensures
            match r {
                Some(i) => i == key_index(self@, key@) && i < self@.len(),
                None => !has_key(self@, key@),
            },
    {
        proof {
            lemma_entry_views(self.inner, 0);
            lemma_key_index(self@, key@);
        }
        let n = self.inner.len();
        let mut i: usize = 0;
        while i < n
            invariant
                0 <= i <= n,
                n == self.inner.len(),
                forall|j: int| 0 <= j < i ==> self.inner[j].0@ != key@,
            decreases n - i,
        {
            if str_eq(self.inner[i].0.as_str(), key) {
                proof {
                    assert(self@[i as int].0 == key@);
                    assert(forall|j: int| 0 <= j < i ==> self@[j].0 != key@);
                    assert(key_index(self@, key@) == i) by {
                        lemma_key_index(self@, key@);
                        if key_index(self@, key@) < 0 {
                            assert(self@[i as int].0 != key@);
                        }
                    }
                }
                return Some(i);
            }
            i = i + 1;
        }
        proof {
            assert(forall|j: int| 0 <= j < self@.len() ==> self@[j].0 != key@);
            if has_key(self@, key@) {
                lemma_key_index(self@, key@);
            }
        }
        None
    }

    /// The entry at position `index`, if any: its key and its value.
    pub fn get_index(&self, index: usize) -> (r: Option<(&String, &Value)>)
        ensures
            match r {
                Some((k, v)) => index < self@.len() && self@[index as int] == (k@, v@),
                None => index >= self@.len(),
            },
    {
        proof {
            lemma_entry_views(self.inner, 0);
        }
        if index < self.inner.len() {
            let pair = &self.inner[index];
            Some((&pair.0, &pair.1))
        } else {
            None
        }
    }

    /// Whether some entry holds `key`.
    pub fn contains_key(&self, key: &str) -> (r: bool)
        ensures
            r == has_key(self@, key@),
    {
        match self.get_index_of(key) {
            Some(_) => true,
            None => false,
        }
    }

    /// The value stored under `key`, if any.
    pub fn get(&self, key: &str) -> (r: Option<&Value>)
        ensures
            match r {
                Some(v) => msg_get(self@, key@) == Some(v@),
                None => msg_get(self@, key@) is None,
            },
    {
        proof {
            lemma_entry_views(self.inner, 0);
        }
        match self.get_index_of(key) {
            Some(i) => Some(&self.inner[i].1),
            None => None,
        }
    }

    /// Inserts `key -> value`: an existing key keeps its position and its
    /// original key string, and has its value replaced, which is returned;
    /// a new key is appended.
    pub fn insert_value(&mut self, key: String, value: Value) -> (r: Option<Value>)
        ensures
            final(self)@ == spec_insert(old(self)@, key@, value@),
            match r {
                Some(v) => msg_get(old(self)@, key@) == Some(v@),
                None => msg_get(old(self)@, key@) is None,
            },
            old(self).wf() ==> final(self).wf(),
    {
        proof {
            lemma_entry_views(self.inner, 0);
            lemma_key_index(self@, key@);
            if self.wf() {
                lemma_spec_insert_unique(self@, key@, value@);
            }
        }
        match self.get_index_of(key.as_str()) {
            Some(i) => {
                let (k0, old_value) = self.inner.remove(i);
                self.inner.insert(i, (k0, value));
                proof {
                    lemma_entry_views(self.inner, 0);
                    lemma_entry_views(old(self).inner, 0);
                    assert(self@ =~= spec_insert(old(self)@, key@, value@));
                }
                Some(old_value)
            },
            None => {
                self.inner.push((key, value));
                proof {
                    lemma_entry_views(self.inner, 0);
                    lemma_entry_views(old(self).inner, 0);
                    assert(self@ =~= spec_insert(old(self)@, key@, value@));
                }
                None
            },
        }
    }

    /// Inserts `key -> value` (see [`Message::insert_value`]).
    pub fn insert(&mut self, key: &str, value: Value) -> (r: Option<Value>)
        ensures
            final(self)@ == spec_insert(old(self)@, key@, value@),
            match r {
                Some(v) => msg_get(old(self)@, key@) == Some(v@),
                None => msg_get(old(self)@, key@) is None,
            },
            old(self).wf() ==> final(self).wf(),
    {
        self.insert_value(key.to_owned(), value)
    }

    /// Removes the entry holding `key` by swapping the last entry into its
    /// position; order of the remaining entries is otherwise kept.
    pub fn swap_remove(&mut self, key: &str) -> (r: Option<Value>)
        ensures
            match r {
                Some(v) => {
                    &&& msg_get(old(self)@, key@) == Some(v@)
                    &&& final(self)@ == old(self)@.update(
                        key_index(old(self)@, key@),
                        old(self)@.last(),
                    ).drop_last()
                },
                None => {
                    &&& !has_key(old(self)@, key@)
                    &&& final(self)@ == old(self)@
                },
            },
    {
        proof {
            lemma_entry_views(self.inner, 0);
            lemma_key_index(self@, key@);
        }
        match self.get_index_of(key) {
            Some(i) => {
                let (_k, v) = self.inner.swap_remove(i);
                proof {
                    lemma_entry_views(self.inner, 0);
                    lemma_entry_views(old(self).inner, 0);
                    assert(self@ =~= old(self)@.update(
                        key_index(old(self)@, key@),
                        old(self)@.last(),
                    ).drop_last());
                }
                Some(v)
            },
            None => None,
        }
    }

    /// Removes the entry holding `key`, shifting the entries after it one
    /// position forward: iteration order is preserved.
    pub fn shift_remove(&mut self, key: &str) -> (r: Option<Value>)
        ensures
            match r {
                Some(v) => {
                    &&& msg_get(old(self)@, key@) == Some(v@)
                    &&& final(self)@ == old(self)@.remove(key_index(old(self)@, key@))
                },
                None => {
                    &&& !has_key(old(self)@, key@)
                    &&& final(self)@ == old(self)@
                },
            },
    {
        proof {
            lemma_entry_views(self.inner, 0);
            lemma_key_index(self@, key@);
        }
        match self.get_index_of(key) {
            Some(i) => {
                let (_k, v) = self.inner.remove(i);
                proof {
                    lemma_entry_views(self.inner, 0);
                    lemma_entry_views(old(self).inner, 0);
                    assert(self@ =~= old(self)@.remove(key_index(old(self)@, key@)));
                }
                Some(v)
            },
            None => None,
        }
    }

    /// Removes the entry holding `key`, with swap semantics: the last
    /// entry takes its place.
    pub fn remove(&mut self, key: &str) -> (r: Option<Value>)
        ensures
            match r {
                Some(v) => {
                    &&& msg_get(old(self)@, key@) == Some(v@)
                    &&& final(self)@ == old(self)@.update(
                        key_index(old(self)@, key@),
                        old(self)@.last(),
                    ).drop_last()
                },
                None => {
                    &&& !has_key(old(self)@, key@)
                    &&& final(self)@ == old(self)@
                },
            },
    {
        self.swap_remove(key)
    }

    /// Removes and returns the last entry, if any.
    pub fn pop(&mut self) -> (r: Option<(String, Value)>)
        ensures
            match r {
                Some((k, v)) => {
                    &&& old(self)@.len() > 0
                    &&& old(self)@.last() == (k@, v@)
                    &&& final(self)@ == old(self)@.drop_last()
                },
                None => {
                    &&& old(self)@.len() == 0
                    &&& final(self)@ == old(self)@
                },
            },
    {
        proof {
            lemma_entry_views(self.inner, 0);
        }
        let r = self.inner.pop();
        proof {
            lemma_entry_views(self.inner, 0);
            lemma_entry_views(old(self).inner, 0);
            if old(self).inner.len() > 0 {
                assert(self@ =~= old(self)@.drop_last());
            } else {
                assert(self@ =~= old(self)@);
            }
        }
        r
    }

    /// Inserts every entry of `other`, in order, into this map.
    #[verifier::loop_isolation(false)]
    pub fn extend(&mut self, other: Message)
        ensures
            final(self)@ == crate::model::msg_from_entries_onto(old(self)@, other@),
            old(self).wf() ==> final(self).wf(),
    {
        proof {
            lemma_entry_views(other.inner, 0);
        }
        let mut rest = other.inner;
        let ghost all = entry_views(rest, 0);
        let ghost n = all.len() as int;
        let ghost mut i: int = 0;
        while rest.len() > 0
            invariant
                0 <= i <= n,
                rest.len() == n - i,
                entry_views(rest, 0) == all.skip(i),
                self@ == crate::model::msg_from_entries_onto(old(self)@, all.subrange(0, i)),
                old(self).wf() ==> self.wf(),
            decreases rest.len(),
        {
            proof {
                lemma_entry_views(rest, 0);
            }
            let ghost before = rest;
            let (k, v) = rest.remove(0);
            proof {
                lemma_entry_views(rest, 0);
                assert(all[i] == (k@, crate::value::view_of(v))) by {
                    assert(entry_views(before, 0)[0] == (before[0].0@, crate::value::view_of(
                        before[0].1,
                    )));
                    assert(all.skip(i)[0] == all[i + 0]);
                }
                assert(entry_views(rest, 0) =~= all.skip(i + 1)) by {
                    assert forall|kk: int| 0 <= kk < rest.len() implies entry_views(rest, 0)[kk]
                        == all.skip(i + 1)[kk] by {
                        assert(rest@[kk] == before@[kk + 1]);
                        assert(entry_views(before, 0)[kk + 1] == (
                            before[kk + 1].0@,
                            crate::value::view_of(before[kk + 1].1),
                        ));
                        assert(all.skip(i)[kk + 1] == all[i + kk + 1]);
                        assert(all.skip(i + 1)[kk] == all[i + 1 + kk]);
                    }
                }
            }
            let _ = self.insert_value(k, v);
            proof {
                assert(all.subrange(0, i + 1).drop_last() =~= all.subrange(0, i));
                assert(all.subrange(0, i + 1).last() == all[i]);
                i = i + 1;
            }
        }
        proof {
            assert(all.subrange(0, n) =~= all);
        }
    }
}

impl Message {
    /// The IEEE bit pattern of the 32-bit floating value under `key`.
    pub fn get_f32(&self, key: &str) -> (r: Result<u32, Error>)
        ensures
            r == (match msg_get(self@, key@) {
                Some(SpecValue::F32(v)) => Ok::<u32, Error>(v),
                Some(_) => Err::<u32, Error>(Error::UnexpectedType),
                None => Err::<u32, Error>(Error::NotPresent),
            }),
    {
        match self.get(key) {
            Some(Value::F32(v)) => Ok(*v),
            Some(_) => Err(Error::UnexpectedType),
            None => Err(Error::NotPresent),
        }
    }

    /// The IEEE bit pattern of the 64-bit floating value under `key`.
    pub fn get_f64(&self, key: &str) -> (r: Result<u64, Error>)
        ensures
            r == (match msg_get(self@, key@) {
                Some(SpecValue::F64(v)) => Ok::<u64, Error>(v),
                Some(_) => Err::<u64, Error>(Error::UnexpectedType),
                None => Err::<u64, Error>(Error::NotPresent),
            }),
    {
        match self.get(key) {
            Some(Value::F64(v)) => Ok(*v),
            Some(_) => Err(Error::UnexpectedType),
            None => Err(Error::NotPresent),
        }
    }

    pub fn get_i32(&self, key: &str) -> (r: Result<i32, Error>)
        ensures
            r == (match msg_get(self@, key@) {
                Some(SpecValue::I32(v)) => Ok::<i32, Error>(v),
                Some(_) => Err::<i32, Error>(Error::UnexpectedType),
                None => Err::<i32, Error>(Error::NotPresent),
            }),
    {
        match self.get(key) {
            Some(Value::I32(v)) => Ok(*v),
            Some(_) => Err(Error::UnexpectedType),
            None => Err(Error::NotPresent),
        }
    }

    pub fn get_u32(&self, key: &str) -> (r: Result<u32, Error>)
        ensures
            r == (match msg_get(self@, key@) {
                Some(SpecValue::U32(v)) => Ok::<u32, Error>(v),
                Some(_) => Err::<u32, Error>(Error::UnexpectedType),
                None => Err::<u32, Error>(Error::NotPresent),
            }),
    {
        match self.get(key) {
            Some(Value::U32(v)) => Ok(*v),
            Some(_) => Err(Error::UnexpectedType),
            None => Err(Error::NotPresent),
        }
    }

    pub fn get_i64(&self, key: &str) -> (r: Result<i64, Error>)
        ensures
            r == (match msg_get(self@, key@) {
                Some(SpecValue::I64(v)) => Ok::<i64, Error>(v),
                Some(_) => Err::<i64, Error>(Error::UnexpectedType),
                None => Err::<i64, Error>(Error::NotPresent),
            }),
    {
        match self.get(key) {
            Some(Value::I64(v)) => Ok(*v),
            Some(_) => Err(Error::UnexpectedType),
            None => Err(Error::NotPresent),
        }
    }

    pub fn get_u64(&self, key: &str) -> (r: Result<u64, Error>)
        ensures
            r == (match msg_get(self@, key@) {
                Some(SpecValue::U64(v)) => Ok::<u64, Error>(v),
                Some(_) => Err::<u64, Error>(Error::UnexpectedType),
                None => Err::<u64, Error>(Error::NotPresent),
            }),
    {
        match self.get(key) {
            Some(Value::U64(v)) => Ok(*v),
            Some(_) => Err(Error::UnexpectedType),
            None => Err(Error::NotPresent),
        }
    }

    pub fn get_i8(&self, key: &str) -> (r: Result<i8, Error>)
        ensures
            r == (match msg_get(self@, key@) {
                Some(SpecValue::I8(v)) => Ok::<i8, Error>(v),
                Some(_) => Err::<i8, Error>(Error::UnexpectedType),
                None => Err::<i8, Error>(Error::NotPresent),
            }),
    {
        match self.get(key) {
            Some(Value::I8(v)) => Ok(*v),
            Some(_) => Err(Error::UnexpectedType),
            None => Err(Error::NotPresent),
        }
    }

    pub fn get_u8(&self, key: &str) -> (r: Result<u8, Error>)
        ensures
            r == (match msg_get(self@, key@) {
                Some(SpecValue::U8(v)) => Ok::<u8, Error>(v),
                Some(_) => Err::<u8, Error>(Error::UnexpectedType),
                None => Err::<u8, Error>(Error::NotPresent),
            }),
    {
        match self.get(key) {
            Some(Value::U8(v)) => Ok(*v),
            Some(_) => Err(Error::UnexpectedType),
            None => Err(Error::NotPresent),
        }
    }

    pub fn get_i16(&self, key: &str) -> (r: Result<i16, Error>)
        ensures
            r == (match msg_get(self@, key@) {
                Some(SpecValue::I16(v)) => Ok::<i16, Error>(v),
                Some(_) => Err::<i16, Error>(Error::UnexpectedType),
                None => Err::<i16, Error>(Error::NotPresent),
            }),
    {
        match self.get(key) {
            Some(Value::I16(v)) => Ok(*v),
            Some(_) => Err(Error::UnexpectedType),
            None => Err(Error::NotPresent),
        }
    }

    pub fn get_u16(&self, key: &str) -> (r: Result<u16, Error>)
        ensures
            r == (match msg_get(self@, key@) {
                Some(SpecValue::U16(v)) => Ok::<u16, Error>(v),
                Some(_) => Err::<u16, Error>(Error::UnexpectedType),
                None => Err::<u16, Error>(Error::NotPresent),
            }),
    {
        match self.get(key) {
            Some(Value::U16(v)) => Ok(*v),
            Some(_) => Err(Error::UnexpectedType),
            None => Err(Error::NotPresent),
        }
    }

    pub fn get_str(&self, key: &str) -> (r: Result<&str, Error>)
        ensures
            match r {
                Ok(s) => msg_get(self@, key@) == Some(SpecValue::String(s@)),
                Err(Error::NotPresent) => msg_get(self@, key@) is None,
                Err(Error::UnexpectedType) => msg_get(self@, key@) matches Some(sv) && !(sv
                    is String),
            },
    {
        match self.get(key) {
            Some(Value::String(s)) => Ok(s.as_str()),
            Some(_) => Err(Error::UnexpectedType),
            None => Err(Error::NotPresent),
        }
    }

    pub fn get_bool(&self, key: &str) -> (r: Result<bool, Error>)
        ensures
            r == (match msg_get(self@, key@) {
                Some(SpecValue::Bool(v)) => Ok::<bool, Error>(v),
                Some(_) => Err::<bool, Error>(Error::UnexpectedType),
                None => Err::<bool, Error>(Error::NotPresent),
            }),
    {
        match self.get(key) {
            Some(Value::Bool(v)) => Ok(*v),
            Some(_) => Err(Error::UnexpectedType),
            None => Err(Error::NotPresent),
        }
    }

    /// Whether `key` holds the null value.
    pub fn is_null(&self, key: &str) -> (r: bool)
        ensures
            r == (msg_get(self@, key@) == Some(SpecValue::Null)),
    {
        match self.get(key) {
            Some(Value::Null) => true,
            Some(_) => false,
            None => false,
        }
    }

    pub fn get_array(&self, key: &str) -> (r: Result<&Array, Error>)
        ensures
            match r {
                Ok(a) => msg_get(self@, key@) == Some(SpecValue::Array(a@)),
                Err(Error::NotPresent) => msg_get(self@, key@) is None,
                Err(Error::UnexpectedType) => msg_get(self@, key@) matches Some(sv) && !(sv
                    is Array),
            },
    {
        match self.get(key) {
            Some(Value::Array(a)) => Ok(a),
            Some(_) => Err(Error::UnexpectedType),
            None => Err(Error::NotPresent),
        }
    }

    pub fn get_message(&self, key: &str) -> (r: Result<&Message, Error>)
        ensures
            match r {
                Ok(m) => msg_get(self@, key@) == Some(SpecValue::Message(m@)),
                Err(Error::NotPresent) => msg_get(self@, key@) is None,
                Err(Error::UnexpectedType) => msg_get(self@, key@) matches Some(sv) && !(sv
                    is Message),
            },
    {
        match self.get(key) {
            Some(Value::Message(m)) => Ok(m),
            Some(_) => Err(Error::UnexpectedType),
            None => Err(Error::NotPresent),
        }
    }

    pub fn get_binary(&self, key: &str) -> (r: Result<&Binary, Error>)
        ensures
            match r {
                Ok(b) => msg_get(self@, key@) == Some(SpecValue::Binary(b@)),
                Err(Error::NotPresent) => msg_get(self@, key@) is None,
                Err(Error::UnexpectedType) => msg_get(self@, key@) matches Some(sv) && !(sv
                    is Binary),
            },
    {
        match self.get(key) {
            Some(Value::Binary(b)) => Ok(b),
            Some(_) => Err(Error::UnexpectedType),
            None => Err(Error::NotPresent),
        }
    }

    pub fn get_id(&self, key: &str) -> (r: Result<&Id, Error>)
        ensures
            match r {
                Ok(id) => msg_get(self@, key@) == Some(SpecValue::Id(id.bytes@)),
                Err(Error::NotPresent) => msg_get(self@, key@) is None,
                Err(Error::UnexpectedType) => msg_get(self@, key@) matches Some(sv) && !(sv
                    is Id),
            },
    {
        match self.get(key) {
            Some(Value::Id(id)) => Ok(id),
            Some(_) => Err(Error::UnexpectedType),
            None => Err(Error::NotPresent),
        }
    }

    pub fn get_timestamp(&self, key: &str) -> (r: Result<&TimeStamp, Error>)
        ensures
            match r {
                Ok(t) => msg_get(self@, key@) == Some(SpecValue::TimeStamp(t.0)),
                Err(Error::NotPresent) => msg_get(self@, key@) is None,
                Err(Error::UnexpectedType) => msg_get(self@, key@) matches Some(sv) && !(sv
                    is TimeStamp),
            },
    {
        match self.get(key) {
            Some(Value::TimeStamp(t)) => Ok(t),
            Some(_) => Err(Error::UnexpectedType),
            None => Err(Error::NotPresent),
        }
    }
}

/// Relies on `str`'s `==` (`str::eq`): byte equality of the two slices,
/// which is equality of their character sequences.
#[verifier::external_body]
pub(crate) fn str_eq(a: &str, b: &str) -> (r: bool)
    ensures
        r == (a@ == b@),
{
    a == b
}

} // verus!
