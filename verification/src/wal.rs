//! The write-ahead log's segment lifecycle and metadata bookkeeping: an
//! ordered record of every segment ever created, the bytes appended to each,
//! and the single active segment that accepts new appends.

use vstd::prelude::*;
use vstd::string::StringExecFns;

verus! {

/// Failures of the segment bookkeeping: an identifier collision when a
/// segment is created (the exclusive create of its file would fail), and a
/// read of an identifier that was never recorded.
#[derive(Debug, Clone, Copy, PartialEq, Eq)]
pub enum WalError {
    SegmentExists,
    SegmentNotFound,
}

/// The write-ahead log's directory state: the metadata record of segment
/// identifiers in creation order, the bytes of each segment in the same
/// order, and whether the most recently created segment is open for appends.
///
/// Exactly one segment is active at a time; all earlier segments are sealed
/// and only readable. The metadata record is append-only: it is the durable
/// source of truth recovery uses to enumerate segments in creation order.
pub struct WAL {
    metadata: Vec<String>,
    segments: Vec<Vec<u8>>,
    active: bool,
}

/// Relies on uuid::Uuid::new_v4 and uuid's Display form: a fresh random
/// version-4 identifier rendered as 36 hyphenated lowercase-hex characters.
/// Randomness allows no promise of uniqueness (the verified caller refuses
/// collisions), and generation panics only if the operating system's
/// randomness source fails.
#[verifier::external_body]
fn fresh_uuid() -> (r: String)
    ensures
        r@.len() == 36,
{
    uuid::Uuid::new_v4().to_string()
}

/// A fresh segment identifier: a newly generated identifier carrying the
/// segment-file suffix.
fn fresh_segment_id() -> (r: String)
    ensures
        r@.len() == 40,
        r@.subrange(36, 40) == ".wal"@,
{
    let mut id = fresh_uuid();
    id.append(".wal");
    proof {
        reveal_strlit(".wal");
        assert(id@.subrange(36, 40) =~= ".wal"@);
    }
    id
}

impl WAL {
    /// The segment identifiers ever created, in creation order — one per
    /// line of the metadata record.
    pub closed spec fn ids(&self) -> Seq<Seq<char>> {
        Seq::new(self.metadata@.len(), |i: int| self.metadata@[i]@)
    }

    /// The bytes of each segment, in creation order.
    pub closed spec fn contents(&self) -> Seq<Seq<u8>> {
        Seq::new(self.segments@.len(), |i: int| self.segments@[i]@)
    }

    /// Whether a segment is open for appends.
    pub closed spec fn is_active(&self) -> bool {
        self.active
    }

    /// Well-formedness: the metadata record lists exactly the segments ever
    /// created, in creation order; identifiers are distinct; a segment can
    /// be active only if one was created.
    pub closed spec fn wf(&self) -> bool {
        &&& self.metadata@.len() == self.segments@.len()
        &&& (forall|i: int, j: int|
            0 <= i < j < self.metadata@.len() ==> self.metadata@[i]@ != self.metadata@[j]@)
        &&& (self.active ==> self.metadata@.len() > 0)
    }

    /// Creates the bookkeeping of a freshly opened log: no segment recorded
    /// by this instance yet, and no active segment.
    pub fn new() -> (r: WAL)
        ensures
            r.wf(),
            r.ids() == Seq::<Seq<char>>::empty(),
            r.contents() == Seq::<Seq<u8>>::empty(),
            !r.is_active(),
    {
        let w = WAL { metadata: Vec::new(), segments: Vec::new(), active: false };
        proof {
            assert(w.ids() =~= Seq::<Seq<char>>::empty());
            assert(w.contents() =~= Seq::<Seq<u8>>::empty());
        }
        w
    }

    /// Whether an identifier is already on record.
    fn contains_id(&self, id: &String) -> (r: bool)
        ensures
            r == self.ids().contains(id@),
    {
        let mut i: usize = 0;
        while i < self.metadata.len()
            invariant
                i <= self.metadata@.len(),
                forall|j: int| 0 <= j < i ==> self.metadata@[j]@ != id@,
            decreases self.metadata@.len() - i,
        {
            if self.metadata[i] == *id {
                proof {
                    assert(self.ids()[i as int] == id@);
                }
                return true;
            }
            i = i + 1;
        }
        proof {
            assert(forall|j: int| 0 <= j < self.ids().len() ==> self.ids()[j] != id@);
        }
        false
    }

    /// Installs a segment under the given identifier: refuses an identifier
    /// already on record (the exclusive create of the segment file would
    /// collide), otherwise appends the identifier to the metadata record,
    /// creates the empty segment, seals any previously active segment, and
    /// makes the new one active.
    pub fn install_segment(&mut self, id: String) -> (r: Result<(), WalError>)
        requires
            old(self).wf(),
        ensures
            final(self).wf(),
            match r {
                Ok(_) => {
                    &&& !old(self).ids().contains(id@)
                    &&& final(self).ids() == old(self).ids().push(id@)
                    &&& final(self).contents() == old(self).contents().push(Seq::<u8>::empty())
                    &&& final(self).is_active()
                },
                Err(e) => {
                    &&& e == WalError::SegmentExists
                    &&& old(self).ids().contains(id@)
                    &&& *final(self) == *old(self)
                },
            },
    {
        let ghost id_view = id@;
        if self.contains_id(&id) {
            return Err(WalError::SegmentExists);
        }
        self.metadata.push(id);
        self.segments.push(Vec::new());
        self.active = true;
        proof {
            let pre = *old(self);
            assert(self.ids() =~= pre.ids().push(id_view));
            assert(self.contents() =~= pre.contents().push(Seq::<u8>::empty()));
            assert forall|i: int, j: int|
                0 <= i < j < self.metadata@.len() implies self.metadata@[i]@
                != self.metadata@[j]@ by {
                if j == self.metadata@.len() - 1 {
                    assert(pre.ids()[i] == self.metadata@[i]@);
                    if self.metadata@[i]@ == id_view {
                        assert(pre.ids().contains(id_view));
                    }
                } else {
                    assert(pre.metadata@[i]@ != pre.metadata@[j]@);
                }
            }
        }
        Ok(())
    }

    /// Rotates to a fresh segment: generates a new globally-unique
    /// identifier, records it, seals any active segment, installs the new
    /// empty segment as active, and returns the identifier. Fails only when
    /// the generated identifier collides with one already on record.
    pub fn new_log_file(&mut self) -> (r: Result<String, WalError>)
        requires
            old(self).wf(),
        ensures
            final(self).wf(),
            match r {
                Ok(id) => {
                    &&& !old(self).ids().contains(id@)
                    &&& id@.len() == 40
                    &&& id@.subrange(36, 40) == ".wal"@
                    &&& final(self).ids() == old(self).ids().push(id@)
                    &&& final(self).contents() == old(self).contents().push(Seq::<u8>::empty())
                    &&& final(self).is_active()
                },
                Err(e) => {
                    &&& e == WalError::SegmentExists
                    &&& old(self).ids().len() > 0
                    &&& *final(self) == *old(self)
                },
            },
    {
        let id = fresh_segment_id();
        match self.install_segment(id.clone()) {
            Ok(_) => Ok(id),
            Err(e) => Err(e),
        }
    }

    /// Appends the entry's bytes to the active segment, first starting a
    /// fresh segment when none is active. Returns the new identifier in that
    /// case — signalling that a new segment was started for this write — and
    /// nothing when the bytes went to the already-active segment. Fails only
    /// when starting the fresh segment hits an identifier collision; the
    /// entry is then not recorded at all.
    pub fn append_log(&mut self, entry: &[u8]) -> (r: Result<Option<String>, WalError>)
        requires
            old(self).wf(),
        ensures
            final(self).wf(),
            match r {
                Ok(opt) => {
                    &&& final(self).is_active()
                    &&& match opt {
                        Some(id) => {
                            &&& !old(self).is_active()
                            &&& !old(self).ids().contains(id@)
                            &&& id@.len() == 40
                            &&& id@.subrange(36, 40) == ".wal"@
                            &&& final(self).ids() == old(self).ids().push(id@)
                            &&& final(self).contents() == old(self).contents().push(entry@)
                        },
                        None => {
                            &&& old(self).is_active()
                            &&& final(self).ids() == old(self).ids()
                            &&& final(self).contents() == old(self).contents().update(
                                old(self).contents().len() - 1,
                                old(self).contents().last() + entry@,
                            )
                        },
                    }
                },
                Err(e) => {
                    &&& e == WalError::SegmentExists
                    &&& !old(self).is_active()
                    &&& old(self).ids().len() > 0
                    &&& *final(self) == *old(self)
                },
            },
    {
        let mut created: Option<String> = None;
        if !self.active {
            match self.new_log_file() {
                Ok(id) => {
                    created = Some(id);
                },
                Err(e) => {
                    return Err(e);
                },
            }
        }
        let ghost mid = *self;
        let mut seg = self.segments.pop().unwrap();
        let ghost seg0 = seg@;
        let mut i: usize = 0;
        while i < entry.len()
            invariant
                i <= entry@.len(),
                seg@ == seg0 + entry@.take(i as int),
            decreases entry@.len() - i,
        {
            proof {
                assert(seg0 + entry@.take(i + 1) =~= (seg0 + entry@.take(i as int)).push(
                    entry@[i as int],
                ));
            }
            seg.push(entry[i]);
            i = i + 1;
        }
        proof {
            assert(seg@ =~= seg0 + entry@);
        }
        self.segments.push(seg);
        proof {
            let n = mid.contents().len() - 1;
            assert(seg0 == mid.contents().last());
            assert(self.contents() =~= mid.contents().update(n, mid.contents().last() + entry@));
            assert(self.ids() =~= mid.ids());
            if !old(self).is_active() {
                assert(mid.contents() == old(self).contents().push(Seq::<u8>::empty()));
                assert(self.contents() =~= old(self).contents().push(entry@)) by {
                    assert(Seq::<u8>::empty() + entry@ =~= entry@);
                }
            }
        }
        Ok(created)
    }

    /// Returns a copy of the named segment's bytes, positioned at the start,
    /// for sequential reading; the segment need not be the active one, and
    /// reading does not touch the active-segment state. Fails exactly when
    /// no segment of that identifier is on record.
    pub fn read_log(&self, log_file_id: &str) -> (r: Result<Vec<u8>, WalError>)
        requires
            self.wf(),
        ensures
            match r {
                Ok(data) => exists|i: int|
                    0 <= i < self.ids().len() && self.ids()[i] == log_file_id@ && data@
                        == self.contents()[i],
                Err(e) => {
                    &&& e == WalError::SegmentNotFound
                    &&& !self.ids().contains(log_file_id@)
                },
            },
    {
        let key: String = log_file_id.to_owned();
        let mut i: usize = 0;
        while i < self.metadata.len()
            invariant
                i <= self.metadata@.len(),
                self.wf(),
                key@ == log_file_id@,
                forall|j: int| 0 <= j < i ==> self.metadata@[j]@ != log_file_id@,
            decreases self.metadata@.len() - i,
        {
            if self.metadata[i] == key {
                let seg = &self.segments[i];
                let mut data: Vec<u8> = Vec::new();
                let mut k: usize = 0;
                while k < seg.len()
                    invariant
                        k <= seg@.len(),
                        data@ == seg@.take(k as int),
                    decreases seg@.len() - k,
                {
                    proof {
                        assert(seg@.take(k + 1) =~= seg@.take(k as int).push(seg@[k as int]));
                    }
                    data.push(seg[k]);
                    k = k + 1;
                }
                proof {
                    assert(data@ =~= seg@);
                    assert(self.ids()[i as int] == log_file_id@);
                    assert(data@ == self.contents()[i as int]);
                }
                return Ok(data);
            }
            i = i + 1;
        }
        proof {
            assert(forall|j: int| 0 <= j < self.ids().len() ==> self.ids()[j] != log_file_id@);
        }
        Err(WalError::SegmentNotFound)
    }

    /// The recorded segment identifiers, in creation order — what a recovery
    /// routine enumerates before replaying each segment.
    pub fn segment_ids(&self) -> (r: &Vec<String>)
        ensures
            r@.len() == self.ids().len(),
            forall|i: int| 0 <= i < r@.len() ==> r@[i]@ == self.ids()[i],
    {
        &self.metadata
    }

    /// Whether a segment is currently open for appends.
    pub fn has_active_segment(&self) -> (r: bool)
        ensures
            r == self.is_active(),
    {
        self.active
    }
}

/// Law: a well-formed log records exactly as many identifiers as it holds
/// segment contents, and its identifiers are pairwise distinct — so a
/// successful read is pinned to the one segment carrying the requested
/// identifier.
pub proof fn lemma_wf_consequences(w: WAL)
    requires
        w.wf(),
    ensures
        w.ids().len() == w.contents().len(),
        forall|i: int, j: int| 0 <= i < j < w.ids().len() ==> w.ids()[i] != w.ids()[j],
{
}

/// The bytes of a list of log entries, concatenated in append order.
pub open spec fn concat_entries(es: Seq<Seq<u8>>) -> Seq<u8>
    decreases es.len(),
{
    if es.len() == 0 {
        Seq::empty()
    } else {
        concat_entries(es.drop_last()) + es.last()
    }
}

/// Law: a segment that starts empty and then receives the entries of `es`
/// one by one — each append extending its bytes by exactly that entry, as
/// `append_log` ensures of the active segment — ends holding the entries'
/// concatenation, in write order; `read_log` then hands back exactly those
/// bytes. `datas` is the segment's bytes after each step, `datas[k]` before
/// the `k`th append.
pub proof fn lemma_segment_holds_appends(es: Seq<Seq<u8>>, datas: Seq<Seq<u8>>)
    requires
        datas.len() == es.len() + 1,
        datas[0] == Seq::<u8>::empty(),
        forall|k: int| 0 <= k < es.len() ==> datas[k + 1] == datas[k] + es[k],
    ensures
        datas.last() == concat_entries(es),
    decreases es.len(),
{
    if es.len() == 0 {
        assert(datas.last() == datas[0]);
    } else {
        let es0 = es.drop_last();
        let datas0 = datas.drop_last();
        assert(datas0[0] == datas[0]);
        assert forall|k: int| 0 <= k < es0.len() implies datas0[k + 1] == datas0[k] + es0[k] by {
            assert(datas0[k] == datas[k]);
            assert(datas0[k + 1] == datas[k + 1]);
            assert(es0[k] == es[k]);
        }
        lemma_segment_holds_appends(es0, datas0);
        assert(datas0.last() == datas[es.len() - 1]);
        assert(datas.last() == datas[es.len() - 1] + es[es.len() - 1]);
        assert(es.last() == es[es.len() - 1]);
    }
}

/// Law: rotating to a new segment leaves every sealed segment's identifier
/// and contents untouched — a sealed segment reads back exactly as written,
/// whatever rotations follow.
pub proof fn lemma_rotation_preserves_sealed(pre: WAL, post: WAL, id: Seq<char>, i: int)
    requires
        pre.wf(),
        post.ids() == pre.ids().push(id),
        post.contents() == pre.contents().push(Seq::<u8>::empty()),
        0 <= i < pre.ids().len(),
    ensures
        post.ids()[i] == pre.ids()[i],
        post.contents()[i] == pre.contents()[i],
{
}

/// Law: appending to the active segment leaves every sealed segment
/// untouched and extends the active one by exactly the appended bytes, at
/// the end — so a segment's bytes are the appends it received, in write
/// order.
pub proof fn lemma_append_preserves_sealed(pre: WAL, post: WAL, entry: Seq<u8>, i: int)
    requires
        pre.contents().len() > 0,
        post.ids() == pre.ids(),
        post.contents() == pre.contents().update(
            pre.contents().len() - 1,
            pre.contents().last() + entry,
        ),
        0 <= i < pre.contents().len() - 1,
    ensures
        post.ids()[i] == pre.ids()[i],
        post.contents()[i] == pre.contents()[i],
        post.contents().last() == pre.contents().last() + entry,
{
    assert(post.contents().last() == post.contents()[post.contents().len() - 1]);
}

} // verus!
