//! The array-backed memtable: an append-only vector of entries, scanned from
//! the most recent entry backwards on lookup.

use crate::memtable::{find_spec, Entry, Memtable, MemtableError};
use vstd::prelude::*;

verus! {

/// A memtable backed by a plain growable array. Inserts and deletes append;
/// lookup scans in reverse so the most recent entry for a key decides, which
/// gives last-write-wins and tombstone shadowing without deduplication.
pub struct VectorMemtable<K: Entry> {
    store: Vec<K>,
}

/// Byte-for-byte equality of two key slices.
fn bytes_eq(a: &[u8], b: &[u8]) -> (r: bool)
    ensures
        r == (a@ == b@),
{
    if a.len() != b.len() {
        return false;
    }
    let mut i: usize = 0;
    while i < a.len()
        invariant
            i <= a@.len(),
            a@.len() == b@.len(),
            forall|j: int| 0 <= j < i ==> a@[j] == b@[j],
        decreases a@.len() - i,
    {
        if a[i] != b[i] {
            return false;
        }
        i = i + 1;
    }
    proof {
        assert(a@ =~= b@);
    }
    true
}

impl<K: Entry> VectorMemtable<K> {
    /// Creates an empty memtable.
    pub fn new() -> (r: Self)
        ensures
            r.entries() == Seq::<K>::empty(),
    {
        VectorMemtable { store: Vec::new() }
    }
}

impl<K: Entry> Memtable<K> for VectorMemtable<K> {
    closed spec fn entries(&self) -> Seq<K> {
        self.store@
    }

    fn insert(&mut self, e: K) {
        self.store.push(e);
    }

    fn delete(&mut self, e: K) {
        let mut e = e;
        e.mark_deleted();
        self.store.push(e);
        proof {
            assert(self.store@.drop_last() =~= old(self).store@);
        }
    }

    fn find(&self, key: &[u8]) -> (r: Result<&K, MemtableError>) {
        let mut i: usize = self.store.len();
        proof {
            assert(self.store@.take(i as int) =~= self.store@);
        }
        while i > 0
            invariant
                i <= self.store@.len(),
                find_spec(self.store@, key@) == find_spec(self.store@.take(i as int), key@),
            decreases i,
        {
            let e = &self.store[i - 1];
            proof {
                assert(self.store@.take(i as int).last() == self.store@[i - 1]);
            }
            if bytes_eq(e.get_key(), key) {
                if e.is_deleted() {
                    return Err(MemtableError::NotFound);
                }
                return Ok(e);
            }
            proof {
                assert(self.store@.take(i as int).drop_last() =~= self.store@.take(i - 1));
            }
            i = i - 1;
        }
        Err(MemtableError::NotFound)
    }
}

} // verus!
