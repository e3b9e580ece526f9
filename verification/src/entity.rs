//! A concrete entry type: a record with a string identifier as key, a string
//! payload, a class tag, and a tombstone flag.

use crate::memtable::Entry;
use vstd::prelude::*;
use vstd::utf8::encode_utf8;

verus! {

/// A sample record stored in a memtable. Its key is the UTF-8 encoding of
/// its identifier; the payload (`name`, `class`) is never inspected by the
/// store.
#[derive(Debug, PartialEq)]
pub struct Entity {
    id: String,
    name: String,
    class: u8,
    deleted: bool,
}

impl Entity {
    /// The payload name, exactly as constructed.
    pub closed spec fn name_spec(&self) -> Seq<char> {
        self.name@
    }

    /// The payload class tag, exactly as constructed.
    pub closed spec fn class_spec(&self) -> u8 {
        self.class
    }

    /// Creates a live (non-tombstone) entity.
    pub fn new(id: &str, name: &str, class: u8) -> (r: Self)
        ensures
            r.key() == encode_utf8(id@),
            r.name_spec() == name@,
            r.class_spec() == class,
            !r.deleted(),
    {
        Entity { id: id.to_owned(), name: name.to_owned(), class, deleted: false }
    }
}

impl Entry for Entity {
    closed spec fn key(&self) -> Seq<u8> {
        encode_utf8(self.id@)
    }

    closed spec fn deleted(&self) -> bool {
        self.deleted
    }

    fn get_key(&self) -> (k: &[u8]) {
        self.id.as_str().as_bytes()
    }

    fn mark_deleted(&mut self)
        ensures
            final(self).name_spec() == old(self).name_spec(),
            final(self).class_spec() == old(self).class_spec(),
    {
        self.deleted = true;
    }

    fn is_deleted(&self) -> (r: bool) {
        self.deleted
    }
}

} // verus!
