//! The memtable capability contract: entries that expose a key and a
//! tombstone flag, and a buffer that stores them with last-write-wins,
//! tombstone-shadowing lookup semantics.

use vstd::prelude::*;

verus! {

/// The one failure a memtable lookup can report: the key is absent, or its
/// most recent entry is a tombstone.
#[derive(Debug, Clone, Copy, PartialEq, Eq)]
pub enum MemtableError {
    NotFound,
}

/// Capability required of anything a memtable stores: expose the key as raw
/// bytes, be markable as a tombstone in place, and report tombstone status.
/// The memtable never inspects the value payload beyond these operations.
pub trait Entry: Sized {
    /// The entry's key, as the byte sequence `get_key` exposes.
    spec fn key(&self) -> Seq<u8>;

    /// Whether the entry is a tombstone (logically deleted).
    spec fn deleted(&self) -> bool;

    fn get_key(&self) -> (k: &[u8])
        ensures
            k@ == self.key(),
    ;

    fn mark_deleted(&mut self)
        ensures
            final(self).key() == old(self).key(),
            final(self).deleted(),
    ;

    fn is_deleted(&self) -> (r: bool)
        ensures
            r == self.deleted(),
    ;
}

/// What a lookup over a stored sequence returns: scanning from the most
/// recent entry backwards, the first entry whose key matches decides the
/// outcome — `None` if it is a tombstone (it shadows every older version of
/// the key), `Some` of it otherwise; `None` if no entry matches.
pub open spec fn find_spec<K: Entry>(s: Seq<K>, key: Seq<u8>) -> Option<K>
    decreases s.len(),
{
    if s.len() == 0 {
        None
    } else if s.last().key() == key {
        if s.last().deleted() {
            None
        } else {
            Some(s.last())
        }
    } else {
        find_spec(s.drop_last(), key)
    }
}

/// An ordered, mutable, in-memory store of entries keyed by raw bytes:
/// append-only inserts, tombstone deletes, and point lookup resolved by
/// recency.
pub trait Memtable<K: Entry>: Sized {
    /// The stored sequence, oldest entry first.
    spec fn entries(&self) -> Seq<K>;

    /// Appends `e` unconditionally; no uniqueness check, no failure.
    fn insert(&mut self, e: K)
        ensures
            final(self).entries() == old(self).entries().push(e),
    ;

    /// Marks `e` as a tombstone and appends it; the prior version of the key
    /// is shadowed, not removed, so the store grows.
    fn delete(&mut self, e: K)
        ensures
            final(self).entries().len() == old(self).entries().len() + 1,
            final(self).entries().drop_last() == old(self).entries(),
            final(self).entries().last().key() == e.key(),
            final(self).entries().last().deleted(),
    ;

    /// Returns the most recent live entry for `key`, or `NotFound` when the
    /// key is absent or its most recent entry is a tombstone.
    fn find(&self, key: &[u8]) -> (r: Result<&K, MemtableError>)
        ensures
            match r {
                Ok(e) => find_spec(self.entries(), key@) == Some(*e),
                Err(err) => err == MemtableError::NotFound && find_spec(
                    self.entries(),
                    key@,
                ) is None,
            },
    ;
}

/// Law: appending a live entry makes it the lookup result for its key — the
/// most recent write for a key wins, whatever was stored before.
pub proof fn lemma_find_last_insert<K: Entry>(s: Seq<K>, e: K)
    requires
        !e.deleted(),
    ensures
        find_spec(s.push(e), e.key()) == Some(e),
{
    assert(s.push(e).last() == e);
}

/// Law: appending an entry leaves lookups of every other key unchanged.
pub proof fn lemma_find_other_key<K: Entry>(s: Seq<K>, e: K, key: Seq<u8>)
    requires
        e.key() != key,
    ensures
        find_spec(s.push(e), key) == find_spec(s, key),
{
    assert(s.push(e).last() == e);
    assert(s.push(e).drop_last() =~= s);
}

/// Law: when the most recent entry for a key is live, lookup of that key
/// returns exactly it, whatever entries for other keys surround it — so for
/// any sequence of inserts, the last insert for a key is the one found.
pub proof fn lemma_find_most_recent<K: Entry>(s: Seq<K>, key: Seq<u8>, i: int)
    requires
        0 <= i < s.len(),
        s[i].key() == key,
        !s[i].deleted(),
        forall|j: int| i < j < s.len() ==> s[j].key() != key,
    ensures
        find_spec(s, key) == Some(s[i]),
    decreases s.len(),
{
    if i == s.len() - 1 {
        assert(s.last() == s[i]);
    } else {
        assert(s.last() == s[s.len() - 1]);
        assert(s.drop_last()[i] == s[i]);
        lemma_find_most_recent(s.drop_last(), key, i);
    }
}

/// Law: when the most recent entry for a key is a tombstone, lookup of that
/// key reports nothing, regardless of the entries stored for other keys
/// before, in between or after.
pub proof fn lemma_tombstone_shadows<K: Entry>(s: Seq<K>, key: Seq<u8>, i: int)
    requires
        0 <= i < s.len(),
        s[i].key() == key,
        s[i].deleted(),
        forall|j: int| i < j < s.len() ==> s[j].key() != key,
    ensures
        find_spec(s, key) is None,
    decreases s.len(),
{
    if i == s.len() - 1 {
        assert(s.last() == s[i]);
    } else {
        assert(s.last() == s[s.len() - 1]);
        assert(s.drop_last()[i] == s[i]);
        lemma_tombstone_shadows(s.drop_last(), key, i);
    }
}

/// Law: re-inserting a live entry for a key right after its tombstone makes
/// the lookup return the re-inserted entry.
pub proof fn lemma_reinsert_after_delete<K: Entry>(s: Seq<K>, t: K, e: K)
    requires
        t.key() == e.key(),
        t.deleted(),
        !e.deleted(),
    ensures
        find_spec(s.push(t).push(e), e.key()) == Some(e),
{
    lemma_find_last_insert(s.push(t), e);
}

/// Law: lookup of a key that no stored entry carries reports nothing.
pub proof fn lemma_find_absent_key<K: Entry>(s: Seq<K>, key: Seq<u8>)
    requires
        forall|i: int| 0 <= i < s.len() ==> s[i].key() != key,
    ensures
        find_spec(s, key) is None,
    decreases s.len(),
{
    if s.len() > 0 {
        assert(s.last() == s[s.len() - 1]);
        lemma_find_absent_key(s.drop_last(), key);
    }
}

} // verus!
