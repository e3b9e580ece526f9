//! Write-path core of an embedded key-value storage engine: an in-memory
//! mutation buffer (memtable) with last-write-wins lookup and tombstone
//! deletes, and the segment/metadata bookkeeping of a write-ahead log.

pub mod entity;
pub mod memtable;
pub mod vector_memtable;
pub mod wal;
