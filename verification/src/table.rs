//! The hash table behind the deduplicating caches: integer keys, and a pair of
//! 16-bit values under each key.
//!
//! The table itself is `hashbrown`'s. Nothing of its inside is verified here:
//! the four operations below are believed to do to the table's contents what
//! `hashbrown` documents of them.

use vstd::prelude::*;

verus! {

/// A `hashbrown::HashMap` from `usize` to `(u16, u16)`.
#[verifier::external_body]
pub struct PairTable {
    inner: hashbrown::HashMap<usize, (u16, u16)>,
}

/// The key-value pairs that a table holds.
pub uninterp spec fn table_entries(t: PairTable) -> Map<usize, (u16, u16)>;

/// `HashMap::new`: a table that holds nothing.
#[verifier::external_body]
pub(crate) fn table_new() -> (t: PairTable)
    ensures
        forall|key: usize| !table_entries(t).contains_key(key),
{
    PairTable { inner: hashbrown::HashMap::new() }
}

/// `HashMap::get`: the value under `key`, if the table holds the key.
#[verifier::external_body]
pub(crate) fn table_get(t: &PairTable, key: usize) -> (value: Option<(u16, u16)>)
    ensures
        value == (if table_entries(*t).contains_key(key) {
            Some(table_entries(*t)[key])
        } else {
            None
        }),
{
    t.inner.get(&key).copied()
}

/// `HashMap::insert`: afterwards the table maps `key` to `value` and is
/// otherwise as before.
#[verifier::external_body]
pub(crate) fn table_insert(t: &mut PairTable, key: usize, value: (u16, u16))
    ensures
        table_entries(*final(t)) == table_entries(*old(t)).insert(key, value),
{
    t.inner.insert(key, value);
}

/// `HashMap::remove`: afterwards the table does not hold `key` and is
/// otherwise as before.
#[verifier::external_body]
pub(crate) fn table_remove(t: &mut PairTable, key: usize)
    ensures
        table_entries(*final(t)) == table_entries(*old(t)).remove(key),
{
    t.inner.remove(&key);
}

} // verus!
