//! The pager: serve a bounded window of blocks around a reader's pointer
//! and move that pointer forward or back by a fixed stride.
//!
//! Navigation lands in the live revision.  When no block exists in the
//! requested direction the pager reports "no further pages" and leaves the
//! reader's stored position untouched.

use vstd::prelude::*;

use crate::content::{Direction, SequencedBlock};
use crate::error::{ErrStack, ErrT};
use crate::resolver::CurrentPosition;
use crate::store::{page_window, ReaderPosition, RevisionStore};

verus! {

/// How many sequence positions one navigation moves the pointer.
pub const STRIDE: i32 = 5;

/// The result of one navigation: either a new position with the blocks to
/// render, or the edge of the book.
#[derive(Debug)]
pub enum NavOutcome {
    Moved { position: CurrentPosition, blocks: Vec<SequencedBlock> },
    AtEdge,
}

/// Where one navigation step lands: from `cur`, move `STRIDE` sequence
/// positions in `direction` within a revision of `n` blocks.  Forward picks
/// the first block at or past the target, back the last block at or before
/// it; `None` means no block exists in that direction.
pub open spec fn nav_target(cur: int, direction: Direction, n: int) -> Option<int> {
    match direction {
        Direction::Forward => {
            let t = cur + STRIDE;
            if n > 0 && t <= n - 1 {
                Some(
                    if t < 0 {
                        0
                    } else {
                        t
                    },
                )
            } else {
                None
            }
        },
        Direction::Back => {
            let t = cur - STRIDE;
            if n > 0 && t >= 0 {
                Some(
                    if t > n - 1 {
                        n - 1
                    } else {
                        t
                    },
                )
            } else {
                None
            }
        },
    }
}

/// Pager edge behavior: navigating back from the first block never finds a
/// further page, whatever the size of the revision.
pub proof fn lemma_back_from_start_is_edge(n: int)
    ensures
        nav_target(0, Direction::Back, n) is None,
{
}

impl RevisionStore {
    /// Find a reader's saved position.
    pub fn find_position(&self, reader_id: i32) -> (r: Option<usize>)
        ensures
            match r {
                Some(k) => k < self.positions@.len() && self.positions@[k as int].reader_id
                    == reader_id,
                None => forall|j: int|
                    0 <= j < self.positions@.len() ==> (#[trigger] self.positions@[j]).reader_id
                        != reader_id,
            },
    {
        let n = self.positions.len();
        let mut k: usize = 0;
        while k < n
            invariant
                k <= n,
                n == self.positions@.len(),
                forall|j: int|
                    0 <= j < k ==> (#[trigger] self.positions@[j]).reader_id != reader_id,
            decreases n - k,
        {
            if self.positions[k].reader_id == reader_id {
                return Some(k);
            }
            k += 1;
        }
        None
    }

    /// Move a reader's pointer one stride in `direction` through the live
    /// revision and return the new window of blocks, or report the edge of
    /// the book — leaving the stored position untouched.  A reader with no
    /// saved position starts at the first block of the live revision.
    pub fn navigate(&mut self, reader_id: i32, direction: Direction) -> (r: Result<
        NavOutcome,
        ErrStack,
    >)
        requires
            old(self).wf(),
        ensures
            final(self).wf(),
            final(self).revisions == old(self).revisions,
            final(self).live == old(self).live,
            final(self).title == old(self).title,
            final(self).next_revision_id == old(self).next_revision_id,
            final(self).next_block_id == old(self).next_block_id,
            match r {
                Ok(NavOutcome::AtEdge) => {
                    &&& final(self).positions == old(self).positions
                    &&& old(self).live is None ==> exists|pi: int|
                        0 <= pi < old(self).positions@.len() && (#[trigger] old(
                            self,
                        ).positions@[pi]).reader_id == reader_id
                    &&& forall|pi: int, k: int|
                        {
                            &&& 0 <= pi < old(self).positions@.len()
                            &&& 0 <= k < old(self).revisions@.len()
                            &&& old(self).live is Some
                            &&& (#[trigger] old(self).positions@[pi]).reader_id == reader_id
                            &&& (#[trigger] old(self).revisions@[k]).id == old(self).live->0
                        } ==> nav_target(
                            old(self).positions@[pi].sequence as int,
                            direction,
                            old(self).revisions@[k].blocks@.len() as int,
                        ) is None
                    &&& (old(self).live is Some && forall|pi: int|
                        0 <= pi < old(self).positions@.len() ==> (#[trigger] old(
                            self,
                        ).positions@[pi]).reader_id != reader_id) ==> forall|k: int|
                        0 <= k < old(self).revisions@.len() && (#[trigger] old(
                            self,
                        ).revisions@[k]).id == old(self).live->0 ==> nav_target(
                            0,
                            direction,
                            old(self).revisions@[k].blocks@.len() as int,
                        ) is None
                },
                Ok(NavOutcome::Moved { position: p, blocks: bs }) => {
                    &&& old(self).live is Some
                    &&& p.book_revision_id == old(self).live->0
                    &&& forall|pi: int, k: int|
                        {
                            &&& 0 <= pi < old(self).positions@.len()
                            &&& 0 <= k < old(self).revisions@.len()
                            &&& (#[trigger] old(self).positions@[pi]).reader_id == reader_id
                            &&& (#[trigger] old(self).revisions@[k]).id == old(self).live->0
                        } ==> nav_target(
                            old(self).positions@[pi].sequence as int,
                            direction,
                            old(self).revisions@[k].blocks@.len() as int,
                        ) == Some(p.current_block_sequence as int)
                    &&& (forall|pi: int|
                        0 <= pi < old(self).positions@.len() ==> (#[trigger] old(self).positions@[pi]).reader_id != reader_id) ==> forall|k: int|
                        0 <= k < old(self).revisions@.len() && (#[trigger] old(self).revisions@[k]).id == old(self).live->0 ==> nav_target(
                            0,
                            direction,
                            old(self).revisions@[k].blocks@.len() as int,
                        ) == Some(p.current_block_sequence as int)
                    &&& forall|k: int|
                        0 <= k < old(self).revisions@.len() && (#[trigger] old(self).revisions@[k]).id == old(self).live->0 ==> {
                            &&& 0 <= p.current_block_sequence < old(self).revisions@[k].blocks@.len()
                            &&& p.current_block_id == old(self).revisions@[k].blocks@[
                                p.current_block_sequence as int].id
                            &&& bs@.map_values(|b: SequencedBlock| b@) == page_window(
                                old(self).revisions@[k].models(),
                                p.current_block_sequence as int,
                            )
                        }
                    &&& final(self).positions@.len() >= old(self).positions@.len()
                    &&& exists|pi: int|
                        0 <= pi < final(self).positions@.len() && (#[trigger] final(self).positions@[pi]) == ReaderPosition {
                            reader_id,
                            revision_id: p.book_revision_id,
                            block_id: p.current_block_id,
                            sequence: p.current_block_sequence,
                        }
                },
                Err(e) => {
                    &&& final(self).positions == old(self).positions
                    &&& e.wf()
                    &&& e@.last().variant == ErrT::PersistenceFailure
                    &&& old(self).live is None
                    &&& forall|pi: int|
                        0 <= pi < old(self).positions@.len() ==> (#[trigger] old(
                            self,
                        ).positions@[pi]).reader_id != reader_id
                },
            },
    {
        let row = self.find_position(reader_id);
        let live_id = match self.live {
            Some(lid) => lid,
            None => {
                match row {
                    Some(_) => {
                        return Ok(NavOutcome::AtEdge);
                    },
                    None => {
                        return Err(
                            ErrStack::new(ErrT::PersistenceFailure).ctx(
                                String::from_str("navigate: no live revision"),
                            ),
                        );
                    },
                }
            },
        };
        let k = match self.find_revision(live_id) {
            Some(k) => k,
            None => {
                proof {
                    assert(false);
                }
                return Err(ErrStack::new(ErrT::PersistenceFailure));
            },
        };
        proof {
            assert forall|k2: int|
                0 <= k2 < self.revisions@.len() && (#[trigger] self.revisions@[k2]).id == live_id
                    implies self.revisions@[k2] == self.revisions@[k as int] by {}
        }
        let n = self.revisions[k].blocks.len();
        let cur: i64 = match row {
            Some(pi) => self.positions[pi].sequence as i64,
            None => 0,
        };
        let target: i64 = match direction {
            Direction::Forward => cur + STRIDE as i64,
            Direction::Back => cur - STRIDE as i64,
        };
        let new_seq: i64 = match direction {
            Direction::Forward => {
                if n > 0 && target <= n as i64 - 1 {
                    if target < 0 {
                        0
                    } else {
                        target
                    }
                } else {
                    return Ok(NavOutcome::AtEdge);
                }
            },
            Direction::Back => {
                if n > 0 && target >= 0 {
                    if target > n as i64 - 1 {
                        n as i64 - 1
                    } else {
                        target
                    }
                } else {
                    return Ok(NavOutcome::AtEdge);
                }
            },
        };
        let new_seq: i32 = new_seq as i32;
        let block_id = self.revisions[k].blocks[new_seq as usize].id;
        let position = CurrentPosition {
            book_revision_id: live_id,
            current_block_sequence: new_seq,
            current_block_id: block_id,
        };
        let blocks = match self.list_blocks(new_seq, live_id) {
            Ok(bs) => bs,
            Err(_) => {
                proof {
                    assert(false);
                }
                return Err(ErrStack::new(ErrT::PersistenceFailure));
            },
        };
        let new_row = ReaderPosition {
            reader_id,
            revision_id: live_id,
            block_id,
            sequence: new_seq,
        };
        match row {
            Some(pi) => {
                let ghost oldpos = self.positions@;
                let mut updated: Vec<ReaderPosition> = Vec::new();
                let np = self.positions.len();
                let mut j: usize = 0;
                while j < np
                    invariant
                        j <= np,
                        np == self.positions@.len(),
                        oldpos == self.positions@,
                        pi < np,
                        updated@.len() == j,
                        forall|i: int|
                            0 <= i < j && i != pi ==> updated@[i] == oldpos[i],
                        forall|i: int| 0 <= i < j && i == pi ==> updated@[i] == new_row,
                    decreases np - j,
                {
                    if j == pi {
                        updated.push(new_row);
                    } else {
                        updated.push(self.positions[j]);
                    }
                    j += 1;
                }
                self.positions = updated;
            },
            None => {
                self.positions.push(new_row);
            },
        }
        proof {
            let s = *self;
            let o = *old(self);
            assert(s.revisions@[k as int].id == new_row.revision_id);
            if row is Some {
                let pr = row->0 as int;
                assert(o.positions@[pr].reader_id == reader_id);
                assert(s.positions@[pr] == new_row);
                assert forall|i: int|
                    0 <= i < s.positions@.len() implies (#[trigger] s.positions@[i]).reader_id
                        == o.positions@[i].reader_id by {
                    if i != pr {
                        assert(s.positions@[i] == o.positions@[i]);
                    }
                }
            } else {
                assert(s.positions@[s.positions@.len() - 1] == new_row);
            }
            assert forall|pi2: int|
                0 <= pi2 < s.positions@.len() implies s.has_rev(
                (#[trigger] s.positions@[pi2]).revision_id as int,
            ) by {
                if s.positions@[pi2] == new_row {
                    assert(s.revisions@[k as int].id == new_row.revision_id);
                } else {
                    assert(s.positions@[pi2] == o.positions@[pi2]);
                    assert(o.has_rev(o.positions@[pi2].revision_id as int));
                }
            }
            assert forall|pi2: int, k2: int|
                0 <= pi2 < s.positions@.len() && 0 <= k2 < s.revisions@.len() && (
                #[trigger] s.revisions@[k2]).id == (#[trigger] s.positions@[pi2]).revision_id
                    implies {
                &&& 0 <= s.positions@[pi2].sequence < s.revisions@[k2].blocks@.len()
                &&& s.revisions@[k2].blocks@[s.positions@[pi2].sequence as int].id
                    == s.positions@[pi2].block_id
            } by {
                if s.positions@[pi2] == new_row {
                    assert(s.revisions@[k2].id == live_id);
                    assert(s.revisions@[k2] == s.revisions@[k as int]);
                } else {
                    assert(s.positions@[pi2] == o.positions@[pi2]);
                    assert(o.revisions@[k2].id == o.positions@[pi2].revision_id);
                }
            }
            assert forall|p1: int, p2: int|
                0 <= p1 < p2 < s.positions@.len() implies (#[trigger] s.positions@[p1]).reader_id
                    != (#[trigger] s.positions@[p2]).reader_id by {
                if row is None && p2 == s.positions@.len() - 1 {
                    assert(s.positions@[p1] == o.positions@[p1]);
                    assert(o.positions@[p1].reader_id != reader_id);
                } else if row is None {
                    assert(s.positions@[p1] == o.positions@[p1]);
                    assert(s.positions@[p2] == o.positions@[p2]);
                }
            }
        }
        Ok(NavOutcome::Moved { position, blocks })
    }

    /// A reader's current window of blocks, without moving the pointer.  A
    /// reader with no saved position is given an initial one — the first
    /// block of the live revision — which is persisted on this first view.
    pub fn view(&mut self, reader_id: i32) -> (r: Result<
        (CurrentPosition, Vec<SequencedBlock>),
        ErrStack,
    >)
        requires
            old(self).wf(),
        ensures
            final(self).wf(),
            final(self).revisions == old(self).revisions,
            final(self).live == old(self).live,
            final(self).title == old(self).title,
            final(self).next_revision_id == old(self).next_revision_id,
            final(self).next_block_id == old(self).next_block_id,
            match r {
                Ok((p, bs)) => {
                    &&& forall|pi: int|
                        0 <= pi < old(self).positions@.len() && (#[trigger] old(
                            self,
                        ).positions@[pi]).reader_id == reader_id ==> {
                            &&& p.book_revision_id == old(self).positions@[pi].revision_id
                            &&& p.current_block_sequence == old(self).positions@[pi].sequence
                            &&& p.current_block_id == old(self).positions@[pi].block_id
                            &&& final(self).positions == old(self).positions
                        }
                    &&& (forall|pi: int|
                        0 <= pi < old(self).positions@.len() ==> (#[trigger] old(
                            self,
                        ).positions@[pi]).reader_id != reader_id) ==> {
                        &&& old(self).live is Some
                        &&& p.book_revision_id == old(self).live->0
                        &&& p.current_block_sequence == 0
                        &&& final(self).positions@ == old(self).positions@.push(
                            ReaderPosition {
                                reader_id,
                                revision_id: p.book_revision_id,
                                block_id: p.current_block_id,
                                sequence: p.current_block_sequence,
                            },
                        )
                    }
                    &&& forall|k: int|
                        0 <= k < old(self).revisions@.len() && (#[trigger] old(
                            self,
                        ).revisions@[k]).id == p.book_revision_id ==> {
                            &&& 0 <= p.current_block_sequence < old(
                                self,
                            ).revisions@[k].blocks@.len()
                            &&& p.current_block_id == old(self).revisions@[k].blocks@[
                                p.current_block_sequence as int].id
                            &&& bs@.map_values(|b: SequencedBlock| b@) == page_window(
                                old(self).revisions@[k].models(),
                                p.current_block_sequence as int,
                            )
                        }
                },
                Err(e) => {
                    &&& final(self).positions == old(self).positions
                    &&& e.wf()
                    &&& (e@.last().variant == ErrT::EmptyRevision || e@.last().variant
                        == ErrT::PersistenceFailure)
                    &&& e@.last().variant == ErrT::PersistenceFailure ==> old(self).live is None
                    &&& e@.last().variant == ErrT::EmptyRevision ==> (old(self).live is Some
                        && forall|k: int|
                        0 <= k < old(self).revisions@.len() && (#[trigger] old(
                            self,
                        ).revisions@[k]).id == old(self).live->0 ==> old(
                            self,
                        ).revisions@[k].blocks@.len() == 0)
                    &&& forall|pi: int|
                        0 <= pi < old(self).positions@.len() ==> (#[trigger] old(
                            self,
                        ).positions@[pi]).reader_id != reader_id
                },
            },
    {
        match self.find_position(reader_id) {
            Some(pi) => {
                let pos = self.positions[pi];
                let p = CurrentPosition {
                    book_revision_id: pos.revision_id,
                    current_block_sequence: pos.sequence,
                    current_block_id: pos.block_id,
                };
                let blocks = match self.list_blocks(pos.sequence, pos.revision_id) {
                    Ok(bs) => bs,
                    Err(_) => {
                        proof {
                            assert(old(self).has_rev(pos.revision_id as int));
                            assert(false);
                        }
                        return Err(ErrStack::new(ErrT::PersistenceFailure));
                    },
                };
                proof {
                    assert forall|pi2: int|
                        0 <= pi2 < self.positions@.len() && (
                        #[trigger] self.positions@[pi2]).reader_id == reader_id
                            implies self.positions@[pi2] == self.positions@[pi as int] by {
                        if pi2 != pi as int {
                            let lo = if pi2 < pi as int {
                                pi2
                            } else {
                                pi as int
                            };
                            let hi = if pi2 < pi as int {
                                pi as int
                            } else {
                                pi2
                            };
                            assert(self.positions@[lo].reader_id != self.positions@[
                                hi].reader_id);
                            assert(false);
                        }
                    }
                }
                Ok((p, blocks))
            },
            None => {
                let live_id = match self.live {
                    Some(lid) => lid,
                    None => {
                        return Err(
                            ErrStack::new(ErrT::PersistenceFailure).ctx(
                                String::from_str("view: no live revision"),
                            ),
                        );
                    },
                };
                let p = match self.initial_position(live_id) {
                    Ok(p) => p,
                    Err(e) => {
                        return Err(e);
                    },
                };
                let blocks = match self.list_blocks(0, live_id) {
                    Ok(bs) => bs,
                    Err(_) => {
                        proof {
                            assert(false);
                        }
                        return Err(ErrStack::new(ErrT::PersistenceFailure));
                    },
                };
                let new_row = ReaderPosition {
                    reader_id,
                    revision_id: live_id,
                    block_id: p.current_block_id,
                    sequence: p.current_block_sequence,
                };
                self.positions.push(new_row);
                proof {
                    let s = *self;
                    let o = *old(self);
                    let k = choose|k: int|
                        0 <= k < o.revisions@.len() && (#[trigger] o.revisions@[k]).id == live_id;
                    assert(s.positions@[s.positions@.len() - 1] == new_row);
                    assert forall|pi2: int|
                        0 <= pi2 < s.positions@.len() implies s.has_rev(
                        (#[trigger] s.positions@[pi2]).revision_id as int,
                    ) by {
                        if pi2 < s.positions@.len() - 1 {
                            assert(s.positions@[pi2] == o.positions@[pi2]);
                            assert(o.has_rev(o.positions@[pi2].revision_id as int));
                        } else {
                            assert(s.revisions@[k].id == live_id);
                        }
                    }
                    assert forall|pi2: int, k2: int|
                        0 <= pi2 < s.positions@.len() && 0 <= k2 < s.revisions@.len() && (
                        #[trigger] s.revisions@[k2]).id == (
                        #[trigger] s.positions@[pi2]).revision_id implies {
                        &&& 0 <= s.positions@[pi2].sequence < s.revisions@[k2].blocks@.len()
                        &&& s.revisions@[k2].blocks@[s.positions@[pi2].sequence as int].id
                            == s.positions@[pi2].block_id
                    } by {
                        if pi2 < s.positions@.len() - 1 {
                            assert(s.positions@[pi2] == o.positions@[pi2]);
                            assert(o.revisions@[k2].id == o.positions@[pi2].revision_id);
                        }
                    }
                    assert forall|p1: int, p2: int|
                        0 <= p1 < p2 < s.positions@.len() implies (
                        #[trigger] s.positions@[p1]).reader_id != (
                        #[trigger] s.positions@[p2]).reader_id by {
                        if p2 == s.positions@.len() - 1 {
                            assert(s.positions@[p1] == o.positions@[p1]);
                            assert(o.positions@[p1].reader_id != reader_id);
                        } else {
                            assert(s.positions@[p1] == o.positions@[p1]);
                            assert(s.positions@[p2] == o.positions@[p2]);
                        }
                    }
                }
                Ok((p, blocks))
            },
        }
    }
}

} // verus!
