//! The mathematical model of a value tree.
//!
//! [`SpecValue`] is the ghost counterpart of [`crate::value::Value`]: strings
//! become character sequences, blobs and identifiers become byte sequences,
//! containers become sequences of models.  Every contract in the crate is
//! stated over this model.  Floating payloads are carried as their IEEE bit
//! patterns, which is also exactly what the wire format stores.

use vstd::prelude::*;

verus! {

/// The model of one value: the tagged tree a buffer decodes to.
pub enum SpecValue {
    F32(u32),
    F64(u64),
    I32(i32),
    I64(i64),
    U32(u32),
    U64(u64),
    I8(i8),
    U8(u8),
    I16(i16),
    U16(u16),
    String(Seq<char>),
    Array(Seq<SpecValue>),
    Message(Seq<(Seq<char>, SpecValue)>),
    Bool(bool),
    Null,
    Binary(Seq<u8>),
    TimeStamp(u64),
    Id(Seq<u8>),
}

/// The model of an ordered map: its entries in iteration order.
pub type SpecEntries = Seq<(Seq<char>, SpecValue)>;

/// Index of the entry holding `key`, or `-1` when no entry does.
pub open spec fn key_index(m: SpecEntries, key: Seq<char>) -> int
    decreases m.len(),
{
    if m.len() == 0 {
        -1
    } else if m[0].0 == key {
        0
    } else {
        let r = key_index(m.drop_first(), key);
        if r < 0 {
            -1
        } else {
            r + 1
        }
    }
}

/// Whether some entry holds `key`.
pub open spec fn has_key(m: SpecEntries, key: Seq<char>) -> bool {
    key_index(m, key) >= 0
}

/// The value stored under `key`, if any.
pub open spec fn msg_get(m: SpecEntries, key: Seq<char>) -> Option<SpecValue> {
    if has_key(m, key) {
        Some(m[key_index(m, key)].1)
    } else {
        None
    }
}

/// What inserting `key -> value` does to an ordered map: an existing key
/// keeps its position and has its value replaced; a new key is appended.
pub open spec fn spec_insert(m: SpecEntries, key: Seq<char>, value: SpecValue) -> SpecEntries {
    if has_key(m, key) {
        m.update(key_index(m, key), (key, value))
    } else {
        m.push((key, value))
    }
}

/// The map a sequence of raw entries folds to when inserted left to right.
pub open spec fn msg_from_entries(entries: SpecEntries) -> SpecEntries
    decreases entries.len(),
{
    if entries.len() == 0 {
        Seq::empty()
    } else {
        spec_insert(
            msg_from_entries(entries.drop_last()),
            entries.last().0,
            entries.last().1,
        )
    }
}

/// The map that inserting `entries` left to right into `base` yields.
pub open spec fn msg_from_entries_onto(base: SpecEntries, entries: SpecEntries) -> SpecEntries
    decreases entries.len(),
{
    if entries.len() == 0 {
        base
    } else {
        spec_insert(
            msg_from_entries_onto(base, entries.drop_last()),
            entries.last().0,
            entries.last().1,
        )
    }
}

/// Whether the entries carry pairwise distinct keys.
pub open spec fn unique_keys(m: SpecEntries) -> bool {
    forall|i: int, j: int| 0 <= i < j < m.len() ==> m[i].0 != m[j].0
}

/// `key_index` returns either `-1` or the position of the first entry
/// holding the key.
pub proof fn lemma_key_index(m: SpecEntries, key: Seq<char>)
    ensures
        key_index(m, key) >= 0 ==> {
            &&& key_index(m, key) < m.len()
            &&& m[key_index(m, key)].0 == key
            &&& forall|j: int| 0 <= j < key_index(m, key) ==> m[j].0 != key
        },
        key_index(m, key) < 0 ==> (forall|j: int| 0 <= j < m.len() ==> m[j].0 != key),
    decreases m.len(),
{
    if m.len() > 0 && m[0].0 != key {
        lemma_key_index(m.drop_first(), key);
        assert forall|j: int| 0 <= j < m.len() && m[j].0 == key implies key_index(m, key) >= 0 by {
            if j > 0 {
                assert(m.drop_first()[j - 1] == m[j]);
            }
        }
        if key_index(m, key) >= 0 {
            let r = key_index(m.drop_first(), key);
            assert(m.drop_first()[r] == m[r + 1]);
            assert forall|j: int| 0 <= j < key_index(m, key) implies m[j].0 != key by {
                if j > 0 {
                    assert(m.drop_first()[j - 1] == m[j]);
                }
            }
        }
    }
}

/// Inserting preserves key uniqueness.
pub proof fn lemma_spec_insert_unique(m: SpecEntries, key: Seq<char>, value: SpecValue)
    requires
        unique_keys(m),
    ensures
        unique_keys(spec_insert(m, key, value)),
{
    lemma_key_index(m, key);
}

/// Folding entries whose keys are pairwise distinct reproduces the entries
/// unchanged: every key is new when it is inserted.
pub proof fn lemma_msg_from_entries_unique(entries: SpecEntries)
    requires
        unique_keys(entries),
    ensures
        msg_from_entries(entries) == entries,
    decreases entries.len(),
{
    if entries.len() > 0 {
        let front = entries.drop_last();
        assert(unique_keys(front)) by {
            assert(forall|i: int| 0 <= i < front.len() ==> front[i] == entries[i]);
        }
        lemma_msg_from_entries_unique(front);
        lemma_key_index(front, entries.last().0);
        assert(!has_key(front, entries.last().0)) by {
            if has_key(front, entries.last().0) {
                let i = key_index(front, entries.last().0);
                assert(entries[i].0 == entries[entries.len() - 1].0);
            }
        }
        assert(front.push(entries.last()) =~= entries);
    }
}

/// A fold of inserts always yields pairwise distinct keys.
pub proof fn lemma_msg_from_entries_is_unique(entries: SpecEntries)
    ensures
        unique_keys(msg_from_entries(entries)),
    decreases entries.len(),
{
    if entries.len() > 0 {
        lemma_msg_from_entries_is_unique(entries.drop_last());
        lemma_spec_insert_unique(
            msg_from_entries(entries.drop_last()),
            entries.last().0,
            entries.last().1,
        );
    }
}

} // verus!
