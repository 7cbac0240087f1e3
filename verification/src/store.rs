//! The backing store a resolution context reads from: an explicit,
//! caller-populated mapping from physical paths to raw bytes, with a read
//! counter that makes cache reuse observable.

use vstd::prelude::*;

use crate::error::FileError;
use crate::ident::{clone_segments, segments_eq};

verus! {

/// One stored file: a physical path (as segments) and its bytes.
pub struct StoredFile {
    pub path: Vec<String>,
    pub data: Vec<u8>,
}

/// A read-only view of the machine's relevant files, owned by the caller of
/// a check job, plus a counter of the reads performed through it.
pub struct FileStore {
    entries: Vec<StoredFile>,
    reads: u64,
}

/// First-match lookup in a list of path/bytes pairs.
pub open spec fn assoc_bytes(entries: Seq<(Seq<Seq<char>>, Seq<u8>)>, path: Seq<Seq<char>>) -> Option<
    Seq<u8>,
>
    decreases entries.len(),
{
    if entries.len() == 0 {
        None
    } else if entries[0].0 == path {
        Some(entries[0].1)
    } else {
        assoc_bytes(entries.drop_first(), path)
    }
}

impl FileStore {
    /// The stored files, newest first.
    pub closed spec fn entries_model(self) -> Seq<(Seq<Seq<char>>, Seq<u8>)> {
        self.entries@.map(|i: int, e: StoredFile| (e.path.deep_view(), e.data@))
    }

    /// The bytes stored under a physical path, if any.
    pub open spec fn contents(self, path: Seq<Seq<char>>) -> Option<Seq<u8>> {
        assoc_bytes(self.entries_model(), path)
    }

    /// How many reads were performed through this store.
    pub closed spec fn spec_reads(self) -> u64 {
        self.reads
    }

    /// An empty store: no files, no reads performed yet.
    pub fn new() -> (r: FileStore)
        ensures
            r.entries_model() == Seq::<(Seq<Seq<char>>, Seq<u8>)>::empty(),
            r.spec_reads() == 0,
    {
        let r = FileStore { entries: Vec::new(), reads: 0 };
        proof {
            assert(r.entries_model() =~= Seq::<(Seq<Seq<char>>, Seq<u8>)>::empty());
        }
        r
    }

    /// Store bytes under a path, replacing what an earlier entry under the
    /// same path held.
    pub fn insert(&mut self, path: Vec<String>, data: Vec<u8>)
        ensures
            final(self).contents(path.deep_view()) == Some(data@),
            forall|q: Seq<Seq<char>>|
                q != path.deep_view() ==> #[trigger] final(self).contents(q) == old(self).contents(
                    q,
                ),
            final(self).spec_reads() == old(self).spec_reads(),
    {
        let ghost oldm = self.entries_model();
        self.entries.insert(0, StoredFile { path, data });
        proof {
            assert(self.entries_model().drop_first() =~= oldm);
        }
    }

    /// Read the bytes under a path: one backing read, counted. A path with
    /// no entry is not found.
    pub fn read(&mut self, path: &Vec<String>) -> (r: Result<Vec<u8>, FileError>)
        ensures
            final(self).entries_model() == old(self).entries_model(),
            final(self).spec_reads() == if old(self).spec_reads() == u64::MAX {
                u64::MAX
            } else {
                (old(self).spec_reads() + 1) as u64
            },
            match old(self).contents(path.deep_view()) {
                Some(b) => r matches Ok(v) && v@ == b,
                None => r == Err::<Vec<u8>, FileError>(FileError::NotFound),
            },
    {
        self.reads = if self.reads == u64::MAX {
            u64::MAX
        } else {
            self.reads + 1
        };
        let mut i: usize = 0;
        while i < self.entries.len()
            invariant
                i <= self.entries@.len(),
                self.entries_model() == old(self).entries_model(),
                self.reads == if old(self).spec_reads() == u64::MAX {
                    u64::MAX
                } else {
                    (old(self).spec_reads() + 1) as u64
                },
                forall|j: int| 0 <= j < i ==> #[trigger] self.entries_model()[j].0 != path.deep_view(),
            decreases self.entries@.len() - i,
        {
            if segments_eq(&self.entries[i].path, path) {
                let out = copy_bytes(&self.entries[i].data);
                proof {
                    lemma_assoc_bytes_at(self.entries_model(), path.deep_view(), i as int);
                }
                return Ok(out);
            }
            i += 1;
        }
        proof {
            lemma_assoc_bytes_none(self.entries_model(), path.deep_view());
        }
        Err(FileError::NotFound)
    }

    /// The number of backing reads performed so far.
    pub fn reads(&self) -> (r: u64)
        ensures
            r == self.spec_reads(),
    {
        self.reads
    }
}

/// If the first match sits at index `i`, the lookup returns its bytes.
proof fn lemma_assoc_bytes_at(entries: Seq<(Seq<Seq<char>>, Seq<u8>)>, path: Seq<Seq<char>>, i: int)
    requires
        0 <= i < entries.len(),
        entries[i].0 == path,
        forall|j: int| 0 <= j < i ==> #[trigger] entries[j].0 != path,
    ensures
        assoc_bytes(entries, path) == Some(entries[i].1),
    decreases i,
{
    if i > 0 {
        lemma_assoc_bytes_at(entries.drop_first(), path, i - 1);
    }
}

/// If no entry matches, the lookup misses.
proof fn lemma_assoc_bytes_none(entries: Seq<(Seq<Seq<char>>, Seq<u8>)>, path: Seq<Seq<char>>)
    requires
        forall|j: int| 0 <= j < entries.len() ==> #[trigger] entries[j].0 != path,
    ensures
        assoc_bytes(entries, path) is None,
    decreases entries.len(),
{
    if entries.len() > 0 {
        lemma_assoc_bytes_none(entries.drop_first(), path);
    }
}

/// Copy a byte buffer.
pub fn copy_bytes(v: &Vec<u8>) -> (r: Vec<u8>)
    ensures
        r@ == v@,
{
    let mut r: Vec<u8> = Vec::new();
    let mut i: usize = 0;
    while i < v.len()
        invariant
            i <= v@.len(),
            r@ == v@.subrange(0, i as int),
        decreases v@.len() - i,
    {
        r.push(v[i]);
        assert(r@ =~= v@.subrange(0, i + 1 as int));
        i += 1;
    }
    assert(r@ =~= v@);
    r
}

} // verus!
