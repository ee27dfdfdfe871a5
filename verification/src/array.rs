//! An ordered, index-addressable sequence of values.  Duplicates and
//! heterogeneous element kinds are permitted.

use vstd::prelude::*;

use crate::value::{elem_views, Value};
use crate::model::SpecValue;

verus! {

/// An ordered sequence of values.
#[derive(Debug, PartialEq)]
pub struct Array {
    pub inner: Vec<Value>,
}

impl Clone for Array {
    /// A deep copy with the same model.
    fn clone(&self) -> (r: Self)
        ensures
            r@ == self@,
    {
        Array { inner: crate::value::clone_values(&self.inner) }
    }
}

impl View for Array {
    type V = Seq<SpecValue>;

    open spec fn view(&self) -> Seq<SpecValue> {
        elem_views(self.inner, 0)
    }
}

impl Array {
    /// The empty array.
    pub fn new() -> (r: Array)
        ensures
            r@ == Seq::<SpecValue>::empty(),
    {
        let a = Array { inner: Vec::new() };
        proof {
            crate::value::lemma_elem_views(a.inner, 0);
            assert(a@ =~= Seq::<SpecValue>::empty());
        }
        a
    }

    /// The empty array, with room reserved for `capacity` elements.
    pub fn with_capacity(capacity: usize) -> (r: Array)
        ensures
            r@ == Seq::<SpecValue>::empty(),
    {
        let a = Array { inner: Vec::with_capacity(capacity) };
        proof {
            crate::value::lemma_elem_views(a.inner, 0);
            assert(a@ =~= Seq::<SpecValue>::empty());
        }
        a
    }

    /// An array over an existing vector of values.
    pub fn from_vec(vec: Vec<Value>) -> (r: Array)
        ensures
            r@ == elem_views(vec, 0),
    {
        Array { inner: vec }
    }

    pub fn len(&self) -> (r: usize)
        ensures
            r == self@.len(),
    {
        proof {
            crate::value::lemma_elem_views(self.inner, 0);
        }
        self.inner.len()
    }

    pub fn is_empty(&self) -> (r: bool)
        ensures
            r == (self@.len() == 0),
    {
        proof {
            crate::value::lemma_elem_views(self.inner, 0);
        }
        self.inner.is_empty()
    }

    /// Appends a value.
    pub fn push(&mut self, value: Value)
        ensures
            final(self)@ == old(self)@.push(value@),
    {
        proof {
            crate::value::lemma_elem_views(self.inner, 0);
        }
        self.inner.push(value);
        proof {
            crate::value::lemma_elem_views(self.inner, 0);
            crate::value::lemma_elem_views(old(self).inner, 0);
            assert(self@ =~= old(self)@.push(value@));
        }
    }

    /// Appends a value.
    pub fn push_value(&mut self, value: Value)
        ensures
            final(self)@ == old(self)@.push(value@),
    {
        self.push(value);
    }

    /// The element at `index`, if any.
    pub fn get(&self, index: usize) -> (r: Option<&Value>)
        ensures
            match r {
                Some(v) => index < self@.len() && v@ == self@[index as int],
                None => index >= self@.len(),
            },
    {
        proof {
            crate::value::lemma_elem_views(self.inner, 0);
        }
        if index < self.inner.len() {
            Some(&self.inner[index])
        } else {
            None
        }
    }

    /// A reference to the underlying vector.
    pub fn inner(&self) -> (r: &Vec<Value>)
        ensures
            r == self.inner,
    {
        &self.inner
    }

    /// The underlying vector.
    pub fn into_inner(self) -> (r: Vec<Value>)
        ensures
            r == self.inner,
    {
        self.inner
    }
}

} // verus!
