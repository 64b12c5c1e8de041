//! The revision store: immutable ordered snapshots of the book's blocks,
//! the singleton live-revision pointer, and each reader's saved position.
//!
//! A revision is created whole by [`RevisionStore::persist`] and never
//! mutated afterwards; a re-import always creates a brand-new revision.
//! Within a revision, `sequence` values are dense from zero and strictly
//! increasing in document order.

use vstd::prelude::*;

use crate::content::{Book, PersistedBook, SequencedBlock, SequencedBlockModel, PAGE_SIZE};
use crate::error::{ErrStack, ErrT};
use crate::fingerprint::spec_fingerprint;

verus! {

/// The fingerprint of each block's content, in order.
pub open spec fn fps_of(blocks: Seq<SequencedBlock>) -> Seq<u64> {
    blocks.map_values(|b: SequencedBlock| spec_fingerprint(b@.block.content))
}

/// One immutable, fully-ordered snapshot of all blocks for the book.
#[derive(Debug)]
pub struct Revision {
    pub id: i32,
    /// Creation instant, as seconds since the Unix epoch; supplied by the
    /// caller at persist time.
    pub created_at: i64,
    pub blocks: Vec<SequencedBlock>,
}

impl Revision {
    /// The mathematical image of the stored blocks.
    pub open spec fn models(&self) -> Seq<SequencedBlockModel> {
        self.blocks@.map_values(|b: SequencedBlock| b@)
    }

    /// The fingerprint of each block's content, in sequence order.
    pub open spec fn fps(&self) -> Seq<u64> {
        fps_of(self.blocks@)
    }

    /// Sequences are dense from zero in document order.
    pub open spec fn wf(&self) -> bool {
        &&& self.blocks@.len() <= i32::MAX as int
        &&& forall|i: int|
            0 <= i < self.blocks@.len() ==> (#[trigger] self.blocks@[i])@.sequence == i
    }
}

/// A reader's persisted pointer into a specific revision's block sequence.
/// At most one position is stored per reader.
#[derive(Clone, Copy, Debug, Eq, PartialEq, Structural)]
pub struct ReaderPosition {
    pub reader_id: i32,
    pub revision_id: i32,
    pub block_id: i32,
    pub sequence: i32,
}

/// The store: all revisions ever persisted, the live-revision pointer read
/// by readers with no saved position, and the per-reader positions.
#[derive(Debug)]
pub struct RevisionStore {
    pub title: String,
    pub revisions: Vec<Revision>,
    pub live: Option<i32>,
    pub positions: Vec<ReaderPosition>,
    pub next_revision_id: i32,
    pub next_block_id: i32,
}

impl RevisionStore {
    /// Whether a revision with this id exists.
    pub open spec fn has_rev(&self, id: int) -> bool {
        exists|k: int|
            0 <= k < self.revisions@.len() && (#[trigger] self.revisions@[k]).id == id
    }

    /// Every revision is well-formed, ids are unique and below the id
    /// counters, the live pointer refers to an existing revision, and every
    /// reader position points at an existing block of an existing revision.
    pub open spec fn wf(&self) -> bool {
        &&& 1 <= self.next_revision_id
        &&& 1 <= self.next_block_id
        &&& forall|k: int|
            0 <= k < self.revisions@.len() ==> (#[trigger] self.revisions@[k]).wf()
        &&& forall|k: int|
            0 <= k < self.revisions@.len() ==> (#[trigger] self.revisions@[k]).id
                < self.next_revision_id
        &&& forall|k1: int, k2: int|
            0 <= k1 < k2 < self.revisions@.len() ==> (#[trigger] self.revisions@[k1]).id != (
            #[trigger] self.revisions@[k2]).id
        &&& forall|k: int, j: int|
            0 <= k < self.revisions@.len() && 0 <= j < self.revisions@[k].blocks@.len() ==> (
            #[trigger] self.revisions@[k].blocks@[j]).id < self.next_block_id
        &&& match self.live {
            Some(id) => self.has_rev(id as int),
            None => true,
        }
        &&& forall|pi: int, k: int|
            0 <= pi < self.positions@.len() && 0 <= k < self.revisions@.len() && (
            #[trigger] self.revisions@[k]).id == (#[trigger] self.positions@[pi]).revision_id
                ==> {
                &&& 0 <= self.positions@[pi].sequence < self.revisions@[k].blocks@.len()
                &&& self.revisions@[k].blocks@[self.positions@[pi].sequence as int].id
                    == self.positions@[pi].block_id
            }
        &&& forall|pi: int|
            0 <= pi < self.positions@.len() ==> self.has_rev(
                (#[trigger] self.positions@[pi]).revision_id as int,
            )
        &&& forall|p1: int, p2: int|
            0 <= p1 < p2 < self.positions@.len() ==> (#[trigger] self.positions@[p1]).reader_id
                != (#[trigger] self.positions@[p2]).reader_id
    }

    /// A fresh store: no revisions, no live pointer, no reader positions.
    pub fn new() -> (r: Self)
        ensures
            r.wf(),
            r.revisions@.len() == 0,
            r.live is None,
            r.positions@.len() == 0,
            r.title@.len() == 0,
    {
        RevisionStore {
            title: String::new(),
            revisions: Vec::new(),
            live: None,
            positions: Vec::new(),
            next_revision_id: 1,
            next_block_id: 1,
        }
    }

    /// Find the index of the revision with this id.
    pub fn find_revision(&self, id: i32) -> (r: Option<usize>)
        ensures
            match r {
                Some(k) => k < self.revisions@.len() && self.revisions@[k as int].id == id,
                None => !self.has_rev(id as int),
            },
    {
        let n = self.revisions.len();
        let mut k: usize = 0;
        while k < n
            invariant
                k <= n,
                n == self.revisions@.len(),
                forall|j: int| 0 <= j < k ==> (#[trigger] self.revisions@[j]).id != id,
            decreases n - k,
        {
            if self.revisions[k].id == id {
                return Some(k);
            }
            k += 1;
        }
        None
    }

    /// Persist a parsed book as one brand-new revision: one stored block per
    /// book block, with `sequence` equal to its zero-based position, and
    /// fresh ids.  No existing revision is touched.  Fails only when the id
    /// space is exhausted.
    pub fn persist(&mut self, book: Book, created_at: i64) -> (r: Result<PersistedBook, ErrStack>)
        requires
            old(self).wf(),
        ensures
            final(self).wf(),
            match r {
                Ok(pb) => {
                    &&& old(self).next_revision_id < i32::MAX
                    &&& old(self).next_block_id as int + book.blocks@.len() <= i32::MAX as int
                    &&& pb.revision_id == old(self).next_revision_id
                    &&& pb.book@ == book@
                    &&& final(self).revisions@.len() == old(self).revisions@.len() + 1
                    &&& forall|k: int|
                        0 <= k < old(self).revisions@.len() ==> final(self).revisions@[k] == old(
                            self,
                        ).revisions@[k]
                    &&& {
                        let rev = final(self).revisions@.last();
                        &&& rev.id == old(self).next_revision_id
                        &&& rev.created_at == created_at
                        &&& rev.blocks@.len() == book.blocks@.len()
                        &&& forall|i: int|
                            0 <= i < book.blocks@.len() ==> {
                                &&& (#[trigger] rev.blocks@[i])@.sequence == i
                                &&& rev.blocks@[i]@.block == book.blocks@[i]@
                                &&& rev.blocks@[i]@.id == old(self).next_block_id + i
                            }
                    }
                    &&& final(self).title@ == book.title@
                    &&& final(self).live == old(self).live
                    &&& final(self).positions == old(self).positions
                    &&& final(self).next_revision_id == old(self).next_revision_id + 1
                },
                Err(e) => {
                    &&& *final(self) == *old(self)
                    &&& e.wf()
                    &&& e@.last().variant == ErrT::PersistenceFailure
                    &&& (old(self).next_revision_id == i32::MAX || old(self).next_block_id as int
                        + book.blocks@.len() > i32::MAX as int)
                },
            },
    {
        if self.next_revision_id == i32::MAX {
            return Err(
                ErrStack::new(ErrT::PersistenceFailure).ctx(
                    String::from_str("revision id space exhausted"),
                ),
            );
        }
        let nb = book.blocks.len();
        if nb > (i32::MAX - self.next_block_id) as usize {
            return Err(
                ErrStack::new(ErrT::PersistenceFailure).ctx(
                    String::from_str("block id space exhausted"),
                ),
            );
        }
        let base_block_id: i32 = self.next_block_id;
        let revision_id: i32 = self.next_revision_id;
        let mut blocks: Vec<SequencedBlock> = Vec::new();
        let mut i: usize = 0;
        while i < nb
            invariant
                i <= nb,
                nb == book.blocks@.len(),
                1 <= base_block_id,
                nb <= (i32::MAX - base_block_id) as usize,
                blocks@.len() == i,
                forall|j: int|
                    0 <= j < i ==> {
                        &&& (#[trigger] blocks@[j])@.sequence == j
                        &&& blocks@[j]@.block == book.blocks@[j]@
                        &&& blocks@[j]@.id == base_block_id + j
                    },
            decreases nb - i,
        {
            blocks.push(
                SequencedBlock {
                    id: base_block_id + i as i32,
                    block: book.blocks[i].clone(),
                    sequence: i as i32,
                },
            );
            i += 1;
        }
        let rev = Revision { id: revision_id, created_at, blocks };
        self.revisions.push(rev);
        self.title = book.title.clone();
        self.next_revision_id = revision_id + 1;
        self.next_block_id = base_block_id + nb as i32;
        proof {
            let s = *self;
            let o = *old(self);
            assert forall|pi: int|
                0 <= pi < s.positions@.len() implies s.has_rev(
                (#[trigger] s.positions@[pi]).revision_id as int,
            ) by {
                assert(o.has_rev(o.positions@[pi].revision_id as int));
                let k = choose|k: int|
                    0 <= k < o.revisions@.len() && (#[trigger] o.revisions@[k]).id
                        == o.positions@[pi].revision_id;
                assert(s.revisions@[k].id == s.positions@[pi].revision_id);
            }
            assert forall|id: int| o.has_rev(id) implies s.has_rev(id) by {
                let k = choose|k: int|
                    0 <= k < o.revisions@.len() && (#[trigger] o.revisions@[k]).id == id;
                assert(s.revisions@[k].id == id);
            }
        }
        Ok(PersistedBook { revision_id, book })
    }

    /// Atomically swap the singleton live-revision pointer.  Succeeds
    /// exactly when the revision exists; reader positions are untouched.
    pub fn set_live(&mut self, revision_id: i32) -> (r: Result<(), ErrStack>)
        requires
            old(self).wf(),
        ensures
            final(self).wf(),
            match r {
                Ok(()) => {
                    &&& old(self).has_rev(revision_id as int)
                    &&& final(self).live == Some(revision_id)
                    &&& final(self).revisions == old(self).revisions
                    &&& final(self).positions == old(self).positions
                    &&& final(self).title == old(self).title
                    &&& final(self).next_revision_id == old(self).next_revision_id
                    &&& final(self).next_block_id == old(self).next_block_id
                },
                Err(e) => {
                    &&& *final(self) == *old(self)
                    &&& !old(self).has_rev(revision_id as int)
                    &&& e.wf()
                    &&& e@.last().variant == ErrT::PersistenceFailure
                },
            },
    {
        match self.find_revision(revision_id) {
            Some(_) => {
                self.live = Some(revision_id);
                Ok(())
            },
            None => Err(
                ErrStack::new(ErrT::PersistenceFailure).ctx(
                    String::from_str("cannot set live: no such revision"),
                ),
            ),
        }
    }
}

/// The bounded page window around an anchor: the blocks with sequence in
/// `(anchor, anchor + PAGE_SIZE]`, clipped to the revision.
pub open spec fn page_window(blocks: Seq<SequencedBlockModel>, anchor: int) -> Seq<
    SequencedBlockModel,
> {
    let lo = if anchor + 1 > 0 {
        anchor + 1
    } else {
        0
    };
    let lo2 = if lo > blocks.len() {
        blocks.len() as int
    } else {
        lo
    };
    let hi = if anchor + PAGE_SIZE + 1 > blocks.len() {
        blocks.len() as int
    } else {
        anchor + PAGE_SIZE + 1
    };
    let hi2 = if hi < lo2 {
        lo2
    } else {
        hi
    };
    blocks.subrange(lo2, hi2)
}

impl RevisionStore {
    /// The ordered blocks adjacent to `current_sequence` in the given
    /// revision: the next `PAGE_SIZE` blocks after the anchor, for paging.
    /// Fails exactly when the revision does not exist.
    pub fn list_blocks(&self, current_sequence: i32, book_revision_id: i32) -> (r: Result<
        Vec<SequencedBlock>,
        ErrStack,
    >)
        requires
            self.wf(),
        ensures
            match r {
                Ok(bs) => {
                    &&& self.has_rev(book_revision_id as int)
                    &&& forall|k: int|
                        0 <= k < self.revisions@.len() && (#[trigger] self.revisions@[k]).id
                            == book_revision_id ==> bs@.map_values(|b: SequencedBlock| b@)
                            == page_window(self.revisions@[k].models(), current_sequence as int)
                },
                Err(e) => {
                    &&& !self.has_rev(book_revision_id as int)
                    &&& e.wf()
                    &&& e@.last().variant == ErrT::PersistenceFailure
                },
            },
    {
        let rev_idx = match self.find_revision(book_revision_id) {
            Some(k) => k,
            None => {
                return Err(
                    ErrStack::new(ErrT::PersistenceFailure).ctx(
                        String::from_str("cannot list blocks: no such revision"),
                    ),
                );
            },
        };
        let rev = &self.revisions[rev_idx];
        let n = rev.blocks.len();
        let anchor: i64 = current_sequence as i64;
        let lo64: i64 = if anchor + 1 > 0 {
            anchor + 1
        } else {
            0
        };
        let lo64 = if lo64 > n as i64 {
            n as i64
        } else {
            lo64
        };
        let hi64: i64 = if anchor + (PAGE_SIZE as i64) + 1 > n as i64 {
            n as i64
        } else {
            anchor + (PAGE_SIZE as i64) + 1
        };
        let hi64 = if hi64 < lo64 {
            lo64
        } else {
            hi64
        };
        let lo: usize = lo64 as usize;
        let hi: usize = hi64 as usize;
        let mut out: Vec<SequencedBlock> = Vec::new();
        let mut k: usize = lo;
        while k < hi
            invariant
                lo <= k <= hi <= n,
                n == rev.blocks@.len(),
                rev == self.revisions@[rev_idx as int],
                out@.map_values(|b: SequencedBlock| b@) =~= rev.models().subrange(
                    lo as int,
                    k as int,
                ),
            decreases hi - k,
        {
            let ghost prev = out@;
            out.push(rev.blocks[k].clone());
            proof {
                assert(out@ =~= prev.push(out@.last()));
                assert(out@.map_values(|b: SequencedBlock| b@) =~= prev.map_values(
                    |b: SequencedBlock| b@,
                ).push(rev.blocks@[k as int]@));
                assert(rev.models().subrange(lo as int, k as int).push(rev.models()[k as int])
                    =~= rev.models().subrange(lo as int, k as int + 1));
            }
            k += 1;
        }
        proof {
            let w = page_window(
                self.revisions@[rev_idx as int].models(),
                current_sequence as int,
            );
            assert(out@.map_values(|b: SequencedBlock| b@) =~= w);
            assert(forall|k2: int|
                0 <= k2 < self.revisions@.len() && (#[trigger] self.revisions@[k2]).id
                    == book_revision_id ==> self.revisions@[k2] == self.revisions@[
                rev_idx as int]);
        }
        Ok(out)
    }
}

/// Whether some block of the revision carries the sequence value `s`.
pub open spec fn sequence_present(rev: Revision, s: int) -> bool {
    exists|j: int| 0 <= j < rev.blocks@.len() && (#[trigger] rev.blocks@[j])@.sequence == s
}

/// For any well-formed revision, the set of `sequence` values is exactly
/// `0..n-1`: every such value occurs, no other value occurs, and no value
/// occurs twice.
pub proof fn lemma_sequence_density(rev: Revision)
    requires
        rev.wf(),
    ensures
        forall|s: int| 0 <= s < rev.blocks@.len() ==> #[trigger] sequence_present(rev, s),
        forall|s: int| #[trigger] sequence_present(rev, s) ==> 0 <= s < rev.blocks@.len(),
        forall|i: int, j: int|
            0 <= i < rev.blocks@.len() && 0 <= j < rev.blocks@.len() && (#[trigger] rev.blocks@[
                i])@.sequence == (#[trigger] rev.blocks@[j])@.sequence ==> i == j,
{
    assert forall|s: int| 0 <= s < rev.blocks@.len() implies #[trigger] sequence_present(
        rev,
        s,
    ) by {
        assert(rev.blocks@[s]@.sequence == s);
    }
}

} // verus!
