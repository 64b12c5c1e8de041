//! The position resolver: map a reader's position in an old revision to the
//! best block of a newly published revision.
//!
//! A fingerprint is *canonical* between two revisions when it occurs exactly
//! once in each, which makes it a safe anchor for carrying a position
//! across.  Resolution tries three tiers in order, first success wins:
//!
//! 1. *Perfect match* — the reader's own fingerprint is canonical: resume at
//!    the block carrying it in the new revision.
//! 2. *Close match* — scan outward from the old sequence, up to thirty
//!    blocks in each direction, for the nearest canonical fingerprint;
//!    carry the reader's signed distance from that anchor over to the
//!    anchor's position in the new revision.
//! 3. *Rough match* — keep the reader's fractional progress through the
//!    book: land at `round(progress * (new_len - 1))`.

use vstd::prelude::*;

use crate::content::SequencedBlock;
use crate::error::{ErrStack, ErrT};
use crate::fingerprint::{block_fingerprint, spec_fingerprint};
use crate::store::{fps_of, ReaderPosition, Revision, RevisionStore};

verus! {

/// Which tier resolved a remap; reported so the reader can be told how
/// their position was adjusted.
#[derive(Clone, Copy, Debug, Eq, PartialEq, Structural)]
pub enum MatchTier {
    Perfect,
    Close,
    Rough,
}

/// How far the close-match tier scans in each direction.
pub const CLOSE_MATCH_RADIUS: i32 = 30;

/// How often `fp` occurs in `fps`.
pub open spec fn fp_count(fps: Seq<u64>, fp: u64) -> nat
    decreases fps.len(),
{
    if fps.len() == 0 {
        0
    } else {
        (if fps[0] == fp {
            1nat
        } else {
            0nat
        }) + fp_count(fps.drop_first(), fp)
    }
}

/// The first index carrying `fp` (the length if there is none).
pub open spec fn fp_first_index(fps: Seq<u64>, fp: u64) -> int
    decreases fps.len(),
{
    if fps.len() == 0 {
        0
    } else if fps[0] == fp {
        0
    } else {
        1 + fp_first_index(fps.drop_first(), fp)
    }
}

/// A fingerprint occurring exactly once in each of two compared revisions.
pub open spec fn canonical(old_fps: Seq<u64>, new_fps: Seq<u64>, fp: u64) -> bool {
    fp_count(old_fps, fp) == 1 && fp_count(new_fps, fp) == 1
}

/// The nearest index around `old_seq` whose fingerprint is canonical,
/// looking at distance `d` and beyond (backward first at each distance), up
/// to the search radius.
pub open spec fn close_anchor(old_fps: Seq<u64>, new_fps: Seq<u64>, old_seq: int, d: int) -> Option<int>
    decreases CLOSE_MATCH_RADIUS + 1 - d,
{
    if d < 0 || d > CLOSE_MATCH_RADIUS {
        None
    } else if 0 <= old_seq - d < old_fps.len() && canonical(
        old_fps,
        new_fps,
        old_fps[old_seq - d],
    ) {
        Some(old_seq - d)
    } else if 0 <= old_seq + d < old_fps.len() && canonical(
        old_fps,
        new_fps,
        old_fps[old_seq + d],
    ) {
        Some(old_seq + d)
    } else {
        close_anchor(old_fps, new_fps, old_seq, d + 1)
    }
}

/// What the close-match tier yields: the anchor's position in the new
/// revision shifted by the reader's signed distance from the anchor, if
/// such an anchor exists and the shifted position does.
pub open spec fn close_target(old_fps: Seq<u64>, new_fps: Seq<u64>, old_seq: int) -> Option<int> {
    match close_anchor(old_fps, new_fps, old_seq, 0) {
        None => None,
        Some(a) => {
            let t = fp_first_index(new_fps, old_fps[a]) + (old_seq - a);
            if 0 <= t < new_fps.len() {
                Some(t)
            } else {
                None
            }
        },
    }
}

/// What the rough-match tier yields: the reader's progress ratio through
/// the old revision, rounded onto the new revision.  A single-block (or
/// empty) old revision counts as no progress.
pub open spec fn rough_target(old_seq: int, n: int, m: int) -> int {
    if n <= 1 {
        0
    } else {
        let s = if old_seq < 0 {
            0
        } else if old_seq > n - 1 {
            n - 1
        } else {
            old_seq
        };
        (2 * s * (m - 1) + (n - 1)) / (2 * (n - 1))
    }
}

/// The full three-tier resolution, as a function of the two revisions'
/// fingerprint sequences, the reader's old sequence, and the fingerprint of
/// the block the reader was at.
pub open spec fn remap_spec(old_fps: Seq<u64>, new_fps: Seq<u64>, old_seq: int, fp: u64) -> (
    int,
    MatchTier,
) {
    if canonical(old_fps, new_fps, fp) {
        (fp_first_index(new_fps, fp), MatchTier::Perfect)
    } else {
        match close_target(old_fps, new_fps, old_seq) {
            Some(t) => (t, MatchTier::Close),
            None => (
                rough_target(old_seq, old_fps.len() as int, new_fps.len() as int),
                MatchTier::Rough,
            ),
        }
    }
}

/// When `fp` occurs at all, the first index is a real index, carries `fp`,
/// and nothing before it does.
pub proof fn lemma_fp_first_of_pos(fps: Seq<u64>, fp: u64)
    requires
        fp_count(fps, fp) >= 1,
    ensures
        0 <= fp_first_index(fps, fp) < fps.len(),
        fps[fp_first_index(fps, fp)] == fp,
        forall|j: int| 0 <= j < fp_first_index(fps, fp) ==> fps[j] != fp,
    decreases fps.len(),
{
    if fps.len() == 0 {
    } else if fps[0] == fp {
    } else {
        lemma_fp_first_of_pos(fps.drop_first(), fp);
        assert forall|j: int| 0 <= j < fp_first_index(fps, fp) implies fps[j] != fp by {
            if j > 0 {
                assert(fps.drop_first()[j - 1] == fps[j]);
            }
        }
    }
}

/// A fingerprint absent from every position has count zero.
pub proof fn lemma_fp_count_zero(fps: Seq<u64>, fp: u64)
    requires
        forall|j: int| 0 <= j < fps.len() ==> fps[j] != fp,
    ensures
        fp_count(fps, fp) == 0,
    decreases fps.len(),
{
    if fps.len() > 0 {
        lemma_fp_count_zero(fps.drop_first(), fp);
    }
}

/// A fingerprint present somewhere has positive count.
pub proof fn lemma_fp_count_pos(fps: Seq<u64>, fp: u64, k: int)
    requires
        0 <= k < fps.len(),
        fps[k] == fp,
    ensures
        fp_count(fps, fp) >= 1,
    decreases fps.len(),
{
    if k > 0 {
        lemma_fp_count_pos(fps.drop_first(), fp, k - 1);
    }
}

/// Counts split across a cut point.
pub proof fn lemma_fp_count_split(fps: Seq<u64>, fp: u64, k: int)
    requires
        0 <= k <= fps.len(),
    ensures
        fp_count(fps, fp) == fp_count(fps.take(k), fp) + fp_count(fps.skip(k), fp),
    decreases k,
{
    if k == 0 {
        assert(fps.take(0) =~= Seq::<u64>::empty());
        assert(fps.skip(0) =~= fps);
    } else {
        lemma_fp_count_split(fps.drop_first(), fp, k - 1);
        assert(fps.take(k).drop_first() =~= fps.drop_first().take(k - 1));
        assert(fps.skip(k) =~= fps.drop_first().skip(k - 1));
        assert(fps.take(k)[0] == fps[0]);
    }
}

/// In a sequence where `fp` occurs exactly once, two occurrences coincide.
pub proof fn lemma_fp_count_one_unique(fps: Seq<u64>, fp: u64, i: int, j: int)
    requires
        fp_count(fps, fp) == 1,
        0 <= i < fps.len(),
        0 <= j < fps.len(),
        fps[i] == fp,
        fps[j] == fp,
    ensures
        i == j,
{
    if i != j {
        let lo = if i < j {
            i
        } else {
            j
        };
        let hi = if i < j {
            j
        } else {
            i
        };
        lemma_fp_count_split(fps, fp, lo + 1);
        lemma_fp_count_pos(fps.take(lo + 1), fp, lo);
        lemma_fp_count_pos(fps.skip(lo + 1), fp, hi - lo - 1);
        assert(fps.take(lo + 1)[lo] == fp);
        assert(fps.skip(lo + 1)[hi - lo - 1] == fp);
        assert(false);
    }
}

/// Count the occurrences of `fp` among the blocks' fingerprints.
fn count_fp(blocks: &Vec<SequencedBlock>, fp: u64) -> (r: usize)
    ensures
        r == fp_count(fps_of(blocks@), fp),
{
    let ghost fps = fps_of(blocks@);
    let n = blocks.len();
    let mut cnt: usize = 0;
    let mut i: usize = 0;
    proof {
        assert(fps.skip(0) =~= fps);
    }
    while i < n
        invariant
            i <= n,
            n == blocks@.len(),
            fps == fps_of(blocks@),
            cnt <= i,
            fp_count(fps, fp) == cnt + fp_count(fps.skip(i as int), fp),
        decreases n - i,
    {
        proof {
            let rest = fps.skip(i as int);
            assert(rest[0] == fps[i as int]);
            assert(rest.drop_first() =~= fps.skip(i as int + 1));
        }
        let f = block_fingerprint(&blocks[i].block);
        if f == fp {
            cnt += 1;
        }
        i += 1;
    }
    proof {
        assert(fp_count(fps.skip(n as int), fp) == 0);
    }
    cnt
}

/// Find the first block whose fingerprint is `fp`; the caller must know
/// one exists.
fn find_first_fp(blocks: &Vec<SequencedBlock>, fp: u64) -> (r: usize)
    requires
        fp_count(fps_of(blocks@), fp) >= 1,
    ensures
        r as int == fp_first_index(fps_of(blocks@), fp),
        r < blocks@.len(),
        fps_of(blocks@)[r as int] == fp,
{
    let ghost fps = fps_of(blocks@);
    proof {
        lemma_fp_first_of_pos(fps, fp);
    }
    let n = blocks.len();
    let mut i: usize = 0;
    while i < n
        invariant
            i <= n,
            n == blocks@.len(),
            fps == fps_of(blocks@),
            forall|j: int| 0 <= j < i ==> fps[j] != fp,
            0 <= fp_first_index(fps, fp) < fps.len(),
            fps[fp_first_index(fps, fp)] == fp,
            forall|j: int| 0 <= j < fp_first_index(fps, fp) ==> fps[j] != fp,
        decreases n - i,
    {
        let f = block_fingerprint(&blocks[i].block);
        if f == fp {
            proof {
                let fi = fp_first_index(fps, fp);
                if fi < i {
                    assert(fps[fi] != fp);
                    assert(false);
                }
                if fi > i {
                    assert(fps[i as int] != fp);
                    assert(false);
                }
            }
            return i;
        }
        i += 1;
    }
    proof {
        lemma_fp_count_zero(fps, fp);
        assert(false);
    }
    0
}

/// Whether `fp` is canonical between the two block lists.
fn canonical_exec(
    old_blocks: &Vec<SequencedBlock>,
    new_blocks: &Vec<SequencedBlock>,
    fp: u64,
) -> (r: bool)
    ensures
        r == canonical(fps_of(old_blocks@), fps_of(new_blocks@), fp),
{
    let co = count_fp(old_blocks, fp);
    if co != 1 {
        return false;
    }
    let cn = count_fp(new_blocks, fp);
    cn == 1
}

/// The close-match tier: scan outward for a canonical anchor and carry the
/// reader's offset from it into the new revision.
fn close_match(
    old_blocks: &Vec<SequencedBlock>,
    new_blocks: &Vec<SequencedBlock>,
    old_seq: i32,
) -> (r: Option<i32>)
    requires
        old_blocks@.len() <= i32::MAX as int,
        new_blocks@.len() <= i32::MAX as int,
    ensures
        match close_target(fps_of(old_blocks@), fps_of(new_blocks@), old_seq as int) {
            Some(t) => r == Some(t as i32),
            None => r is None,
        },
{
    let ghost ofps = fps_of(old_blocks@);
    let ghost nfps = fps_of(new_blocks@);
    let n = old_blocks.len();
    let oseq: i64 = old_seq as i64;
    let mut d: i64 = 0;
    while d <= CLOSE_MATCH_RADIUS as i64
        invariant
            0 <= d <= CLOSE_MATCH_RADIUS as i64 + 1,
            oseq == old_seq as i64,
            n == old_blocks@.len(),
            n <= i32::MAX as int,
            new_blocks@.len() <= i32::MAX as int,
            ofps == fps_of(old_blocks@),
            nfps == fps_of(new_blocks@),
            close_anchor(ofps, nfps, oseq as int, 0) == close_anchor(
                ofps,
                nfps,
                oseq as int,
                d as int,
            ),
        decreases CLOSE_MATCH_RADIUS as i64 + 1 - d,
    {
        let back = oseq - d;
        if 0 <= back && back < n as i64 {
            let bi = back as usize;
            let f = block_fingerprint(&old_blocks[bi].block);
            if canonical_exec(old_blocks, new_blocks, f) {
                let k = find_first_fp(new_blocks, f);
                let t: i64 = k as i64 + (oseq - back);
                if 0 <= t && t < new_blocks.len() as i64 {
                    return Some(t as i32);
                } else {
                    return None;
                }
            }
        }
        let fwd = oseq + d;
        if 0 <= fwd && fwd < n as i64 {
            let fi = fwd as usize;
            let f = block_fingerprint(&old_blocks[fi].block);
            if canonical_exec(old_blocks, new_blocks, f) {
                let k = find_first_fp(new_blocks, f);
                let t: i64 = k as i64 + (oseq - fwd);
                if 0 <= t && t < new_blocks.len() as i64 {
                    return Some(t as i32);
                } else {
                    return None;
                }
            }
        }
        d += 1;
    }
    None
}

/// The rough-match tier never leaves the new revision.
pub proof fn lemma_rough_target_range(old_seq: int, n: int, m: int)
    requires
        m >= 1,
    ensures
        0 <= rough_target(old_seq, n, m) < m,
{
    if n <= 1 {
    } else {
        let s = if old_seq < 0 {
            0
        } else if old_seq > n - 1 {
            n - 1
        } else {
            old_seq
        };
        let num = 2 * s * (m - 1) + (n - 1);
        let den = 2 * (n - 1);
        assert(0 <= 2 * s * (m - 1)) by (nonlinear_arith)
            requires
                0 <= s,
                0 <= m - 1,
        ;
        vstd::arithmetic::div_mod::lemma_div_pos_is_pos(num, den);
        assert(2 * s * (m - 1) <= 2 * (n - 1) * (m - 1)) by (nonlinear_arith)
            requires
                s <= n - 1,
                0 <= m - 1,
        ;
        assert((m - 1) * (2 * (n - 1)) + (n - 1) == 2 * (n - 1) * (m - 1) + (n - 1))
            by (nonlinear_arith);
        assert((m - 1) * den + (n - 1) == 2 * (n - 1) * (m - 1) + (n - 1));
        vstd::arithmetic::div_mod::lemma_div_is_ordered(num, (m - 1) * den + (n - 1), den);
        vstd::arithmetic::div_mod::lemma_fundamental_div_mod_converse(
            (m - 1) * den + (n - 1),
            den,
            m - 1,
            n - 1,
        );
    }
}

/// Rough-match boundary behavior: no progress lands at the first block,
/// and — whenever the old revision has at least two blocks — full progress
/// lands at the last block.  (With a single-block old revision the
/// progress ratio is defined as zero, so its only sequence, `0`, maps to
/// the first block of the new revision, not the last.)
pub proof fn lemma_rough_match_boundary(n: int, m: int)
    requires
        n >= 1,
        m >= 1,
    ensures
        rough_target(0, n, m) == 0,
        n >= 2 ==> rough_target(n - 1, n, m) == m - 1,
{
    if n >= 2 {
        let den = 2 * (n - 1);
        vstd::arithmetic::div_mod::lemma_fundamental_div_mod_converse(n - 1, den, 0, n - 1);
        assert((m - 1) * (2 * (n - 1)) + (n - 1) == 2 * (n - 1) * (m - 1) + (n - 1))
            by (nonlinear_arith);
        assert(2 * (n - 1) * (m - 1) + (n - 1) == (m - 1) * den + (n - 1));
        vstd::arithmetic::div_mod::lemma_fundamental_div_mod_converse(
            (m - 1) * den + (n - 1),
            den,
            m - 1,
            n - 1,
        );
    }
}

/// Perfect-match correctness: when a fingerprint occurs exactly once in
/// each of two revisions, resolution from any old sequence reports a
/// perfect match and returns exactly the index of the block carrying that
/// fingerprint in the new revision.
pub proof fn lemma_perfect_match(old_fps: Seq<u64>, new_fps: Seq<u64>, old_seq: int, fp: u64)
    requires
        fp_count(old_fps, fp) == 1,
        fp_count(new_fps, fp) == 1,
    ensures
        remap_spec(old_fps, new_fps, old_seq, fp).1 == MatchTier::Perfect,
        0 <= remap_spec(old_fps, new_fps, old_seq, fp).0 < new_fps.len(),
        new_fps[remap_spec(old_fps, new_fps, old_seq, fp).0] == fp,
        forall|j: int|
            0 <= j < new_fps.len() && new_fps[j] == fp ==> j == remap_spec(
                old_fps,
                new_fps,
                old_seq,
                fp,
            ).0,
{
    lemma_fp_first_of_pos(new_fps, fp);
    assert forall|j: int| 0 <= j < new_fps.len() && new_fps[j] == fp implies j == remap_spec(
        old_fps,
        new_fps,
        old_seq,
        fp,
    ).0 by {
        lemma_fp_count_one_unique(new_fps, fp, j, fp_first_index(new_fps, fp));
    }
}

/// The rough-match tier: compute the progress-preserving position.
fn rough_match(old_len: usize, new_len: usize, old_seq: i32) -> (r: i32)
    requires
        1 <= new_len,
        old_len <= i32::MAX as int,
        new_len <= i32::MAX as int,
    ensures
        r as int == rough_target(old_seq as int, old_len as int, new_len as int),
        0 <= r < new_len,
{
    proof {
        lemma_rough_target_range(old_seq as int, old_len as int, new_len as int);
    }
    if old_len <= 1 {
        return 0;
    }
    let n: u64 = old_len as u64;
    let m: u64 = new_len as u64;
    let s64: i64 = if (old_seq as i64) < 0 {
        0
    } else if (old_seq as i64) > (old_len - 1) as i64 {
        (old_len - 1) as i64
    } else {
        old_seq as i64
    };
    let s: u64 = s64 as u64;
    assert(2 * s * (m - 1) <= 2 * (i32::MAX as u64) * (i32::MAX as u64)) by (nonlinear_arith)
        requires
            0 <= s <= i32::MAX as u64,
            1 <= m <= i32::MAX as u64,
    ;
    let num: u64 = 2 * s * (m - 1) + (n - 1);
    let den: u64 = 2 * (n - 1);
    let q: u64 = num / den;
    q as i32
}

/// Resolve a reader's position from one revision into another.  Succeeds
/// exactly when the new revision is non-empty; resolving against an empty
/// revision is an unrecoverable error, never silently defaulted.
pub fn remap_revisions(
    old_rev: &Revision,
    new_rev: &Revision,
    old_sequence: i32,
    old_fingerprint: u64,
) -> (r: Result<(i32, MatchTier), ErrStack>)
    requires
        old_rev.wf(),
        new_rev.wf(),
    ensures
        match r {
            Ok((s, tier)) => {
                &&& new_rev.blocks@.len() > 0
                &&& (s as int, tier) == remap_spec(
                    old_rev.fps(),
                    new_rev.fps(),
                    old_sequence as int,
                    old_fingerprint,
                )
                &&& 0 <= s < new_rev.blocks@.len()
            },
            Err(e) => {
                &&& new_rev.blocks@.len() == 0
                &&& e.wf()
                &&& e@.last().variant == ErrT::EmptyRevision
            },
        },
{
    if new_rev.blocks.len() == 0 {
        return Err(
            ErrStack::new(ErrT::EmptyRevision).ctx(
                String::from_str("cannot resolve a position against an empty revision"),
            ),
        );
    }
    if canonical_exec(&old_rev.blocks, &new_rev.blocks, old_fingerprint) {
        let k = find_first_fp(&new_rev.blocks, old_fingerprint);
        return Ok((k as i32, MatchTier::Perfect));
    }
    match close_match(&old_rev.blocks, &new_rev.blocks, old_sequence) {
        Some(t) => {
            proof {
                let ct = close_target(old_rev.fps(), new_rev.fps(), old_sequence as int);
                assert(ct is Some);
            }
            Ok((t, MatchTier::Close))
        },
        None => {
            let t = rough_match(old_rev.blocks.len(), new_rev.blocks.len(), old_sequence);
            Ok((t, MatchTier::Rough))
        },
    }
}

/// A reader's current position: the revision they are reading, and which
/// block of it they are at.
#[derive(Clone, Copy, Debug, Eq, PartialEq, Structural)]
pub struct CurrentPosition {
    pub book_revision_id: i32,
    pub current_block_sequence: i32,
    pub current_block_id: i32,
}

impl RevisionStore {
    /// The position a reader with no saved pointer starts at: the first
    /// block of the given revision.  Fails with `EmptyRevision` when the
    /// revision holds no blocks, and with `PersistenceFailure` when it does
    /// not exist.
    pub fn initial_position(&self, revision_id: i32) -> (r: Result<CurrentPosition, ErrStack>)
        requires
            self.wf(),
        ensures
            match r {
                Ok(p) => {
                    &&& self.has_rev(revision_id as int)
                    &&& p.book_revision_id == revision_id
                    &&& p.current_block_sequence == 0
                    &&& forall|k: int|
                        0 <= k < self.revisions@.len() && (#[trigger] self.revisions@[k]).id
                            == revision_id ==> {
                            &&& self.revisions@[k].blocks@.len() > 0
                            &&& p.current_block_id == self.revisions@[k].blocks@[0].id
                        }
                },
                Err(e) => {
                    &&& e.wf()
                    &&& (e@.last().variant == ErrT::EmptyRevision || e@.last().variant
                        == ErrT::PersistenceFailure)
                    &&& e@.last().variant == ErrT::PersistenceFailure ==> !self.has_rev(
                        revision_id as int,
                    )
                    &&& e@.last().variant == ErrT::EmptyRevision ==> forall|k: int|
                        0 <= k < self.revisions@.len() && (#[trigger] self.revisions@[k]).id
                            == revision_id ==> self.revisions@[k].blocks@.len() == 0
                },
            },
    {
        let k = match self.find_revision(revision_id) {
            Some(k) => k,
            None => {
                return Err(
                    ErrStack::new(ErrT::PersistenceFailure).ctx(
                        String::from_str("initial position: no such revision"),
                    ),
                );
            },
        };
        let rev = &self.revisions[k];
        if rev.blocks.len() == 0 {
            return Err(
                ErrStack::new(ErrT::EmptyRevision).ctx(
                    String::from_str("initial position: revision has no blocks"),
                ),
            );
        }
        let p = CurrentPosition {
            book_revision_id: revision_id,
            current_block_sequence: 0,
            current_block_id: rev.blocks[0].id,
        };
        proof {
            assert forall|k2: int|
                0 <= k2 < self.revisions@.len() && (#[trigger] self.revisions@[k2]).id
                    == revision_id implies self.revisions@[k2] == self.revisions@[k as int] by {}
        }
        Ok(p)
    }

    /// Remap a reader's saved position from one revision to another,
    /// reporting which tier resolved the match.  Fails with
    /// `PersistenceFailure` when either revision is unknown and with
    /// `EmptyRevision` when the target revision holds no blocks.
    pub fn remap(
        &self,
        old_revision_id: i32,
        old_sequence: i32,
        old_fingerprint: u64,
        new_revision_id: i32,
    ) -> (r: Result<(CurrentPosition, MatchTier), ErrStack>)
        requires
            self.wf(),
        ensures
            match r {
                Ok((p, tier)) => {
                    &&& self.has_rev(old_revision_id as int)
                    &&& self.has_rev(new_revision_id as int)
                    &&& p.book_revision_id == new_revision_id
                    &&& forall|ko: int, kn: int|
                        0 <= ko < self.revisions@.len() && 0 <= kn < self.revisions@.len() && (
                        #[trigger] self.revisions@[ko]).id == old_revision_id && (
                        #[trigger] self.revisions@[kn]).id == new_revision_id ==> {
                            let res = remap_spec(
                                self.revisions@[ko].fps(),
                                self.revisions@[kn].fps(),
                                old_sequence as int,
                                old_fingerprint,
                            );
                            &&& self.revisions@[kn].blocks@.len() > 0
                            &&& p.current_block_sequence as int == res.0
                            &&& tier == res.1
                            &&& 0 <= res.0 < self.revisions@[kn].blocks@.len()
                            &&& p.current_block_id == self.revisions@[kn].blocks@[res.0].id
                        }
                },
                Err(e) => {
                    &&& e.wf()
                    &&& (e@.last().variant == ErrT::EmptyRevision || e@.last().variant
                        == ErrT::PersistenceFailure)
                    &&& e@.last().variant == ErrT::PersistenceFailure ==> (!self.has_rev(
                        old_revision_id as int,
                    ) || !self.has_rev(new_revision_id as int))
                    &&& e@.last().variant == ErrT::EmptyRevision ==> forall|k: int|
                        0 <= k < self.revisions@.len() && (#[trigger] self.revisions@[k]).id
                            == new_revision_id ==> self.revisions@[k].blocks@.len() == 0
                },
            },
    {
        let ko = match self.find_revision(old_revision_id) {
            Some(k) => k,
            None => {
                return Err(
                    ErrStack::new(ErrT::PersistenceFailure).ctx(
                        String::from_str("remap: old revision does not exist"),
                    ),
                );
            },
        };
        let kn = match self.find_revision(new_revision_id) {
            Some(k) => k,
            None => {
                return Err(
                    ErrStack::new(ErrT::PersistenceFailure).ctx(
                        String::from_str("remap: new revision does not exist"),
                    ),
                );
            },
        };
        let old_rev = &self.revisions[ko];
        let new_rev = &self.revisions[kn];
        match remap_revisions(old_rev, new_rev, old_sequence, old_fingerprint) {
            Ok((s, tier)) => {
                let p = CurrentPosition {
                    book_revision_id: new_revision_id,
                    current_block_sequence: s,
                    current_block_id: new_rev.blocks[s as usize].id,
                };
                proof {
                    assert forall|k2: int|
                        0 <= k2 < self.revisions@.len() && (#[trigger] self.revisions@[k2]).id
                            == old_revision_id implies self.revisions@[k2] == self.revisions@[
                        ko as int] by {}
                    assert forall|k2: int|
                        0 <= k2 < self.revisions@.len() && (#[trigger] self.revisions@[k2]).id
                            == new_revision_id implies self.revisions@[k2] == self.revisions@[
                        kn as int] by {}
                }
                Ok((p, tier))
            },
            Err(e) => Err(e),
        }
    }

    /// How many of the first `pi` reader positions point away from `rid`,
    /// and so are remapped — and reported — by a publish of `rid`.
    pub open spec fn remapped_before(ps: Seq<ReaderPosition>, rid: i32, pi: int) -> nat
        decreases pi,
    {
        if pi <= 0 {
            0
        } else {
            Self::remapped_before(ps, rid, pi - 1) + if ps[pi - 1].revision_id != rid {
                1nat
            } else {
                0nat
            }
        }
    }

    /// Publish a revision: swap the live pointer to it and remap every
    /// reader position that still points at another revision, reporting —
    /// in position order, one entry per remapped reader — which tier
    /// resolved each match.  Fails — with the store unchanged — when the
    /// revision is unknown or holds no blocks.
    #[verifier::rlimit(60)]
    pub fn publish(&mut self, revision_id: i32) -> (r: Result<Vec<(i32, MatchTier)>, ErrStack>)
        requires
            old(self).wf(),
        ensures
            final(self).wf(),
            final(self).revisions == old(self).revisions,
            final(self).title == old(self).title,
            final(self).next_revision_id == old(self).next_revision_id,
            final(self).next_block_id == old(self).next_block_id,
            match r {
                Ok(tiers) => {
                    &&& old(self).has_rev(revision_id as int)
                    &&& final(self).live == Some(revision_id)
                    &&& final(self).positions@.len() == old(self).positions@.len()
                    &&& forall|pi: int|
                        0 <= pi < old(self).positions@.len() ==> {
                            &&& (#[trigger] final(self).positions@[pi]).reader_id == old(self).positions@[pi].reader_id
                            &&& final(self).positions@[pi].revision_id == revision_id
                        }
                    &&& forall|pi: int|
                        0 <= pi < old(self).positions@.len() && (#[trigger] old(self).positions@[pi]).revision_id == revision_id ==> final(self).positions@[pi] == old(self).positions@[pi]
                    &&& forall|pi: int, ko: int, kn: int|
                        {
                            &&& 0 <= pi < old(self).positions@.len()
                            &&& 0 <= ko < old(self).revisions@.len()
                            &&& 0 <= kn < old(self).revisions@.len()
                            &&& (#[trigger] old(self).positions@[pi]).revision_id != revision_id
                            &&& (#[trigger] old(self).revisions@[ko]).id == old(self).positions@[pi].revision_id
                            &&& (#[trigger] old(self).revisions@[kn]).id == revision_id
                        } ==> {
                            let res = remap_spec(
                                old(self).revisions@[ko].fps(),
                                old(self).revisions@[kn].fps(),
                                old(self).positions@[pi].sequence as int,
                                spec_fingerprint(
                                    old(self).revisions@[ko].blocks@[old(self).positions@[pi].sequence as int]@.block.content,
                                ),
                            );
                            let ti = Self::remapped_before(
                                old(self).positions@,
                                revision_id,
                                pi,
                            ) as int;
                            &&& final(self).positions@[pi].sequence as int == res.0
                            &&& final(self).positions@[pi].block_id == old(self).revisions@[kn].blocks@[res.0].id
                            &&& 0 <= ti < tiers@.len()
                            &&& tiers@[ti].0 == old(self).positions@[pi].reader_id
                            &&& tiers@[ti].1 == res.1
                        }
                    &&& tiers@.len() == Self::remapped_before(
                        old(self).positions@,
                        revision_id,
                        old(self).positions@.len() as int,
                    )
                },
                Err(e) => {
                    &&& *final(self) == *old(self)
                    &&& e.wf()
                    &&& (e@.last().variant == ErrT::EmptyRevision || e@.last().variant
                        == ErrT::PersistenceFailure)
                    &&& e@.last().variant == ErrT::PersistenceFailure ==> !old(self).has_rev(
                        revision_id as int,
                    )
                    &&& e@.last().variant == ErrT::EmptyRevision ==> (old(self).has_rev(
                        revision_id as int,
                    ) && forall|k: int|
                        0 <= k < old(self).revisions@.len() && (#[trigger] old(
                            self,
                        ).revisions@[k]).id == revision_id ==> old(
                            self,
                        ).revisions@[k].blocks@.len() == 0)
                },
            },
    {
        let kn = match self.find_revision(revision_id) {
            Some(k) => k,
            None => {
                return Err(
                    ErrStack::new(ErrT::PersistenceFailure).ctx(
                        String::from_str("publish: no such revision"),
                    ),
                );
            },
        };
        proof {
            assert forall|k2: int|
                0 <= k2 < self.revisions@.len() && (#[trigger] self.revisions@[k2]).id
                    == revision_id implies self.revisions@[k2] == self.revisions@[kn as int] by {}
        }
        if self.revisions[kn].blocks.len() == 0 {
            return Err(
                ErrStack::new(ErrT::EmptyRevision).ctx(
                    String::from_str("publish: revision has no blocks"),
                ),
            );
        }
        let np = self.positions.len();
        let mut newpos: Vec<ReaderPosition> = Vec::new();
        let mut tiers: Vec<(i32, MatchTier)> = Vec::new();
        let mut pi: usize = 0;
        while pi < np
            invariant
                pi <= np,
                self == old(self),
                self.wf(),
                np == self.positions@.len(),
                kn < self.revisions@.len(),
                self.revisions@[kn as int].id == revision_id,
                self.revisions@[kn as int].blocks@.len() > 0,
                newpos@.len() == pi,
                forall|j: int|
                    0 <= j < pi ==> {
                        &&& (#[trigger] newpos@[j]).reader_id == self.positions@[j].reader_id
                        &&& newpos@[j].revision_id == revision_id
                        &&& 0 <= newpos@[j].sequence < self.revisions@[kn as int].blocks@.len()
                        &&& newpos@[j].block_id == self.revisions@[kn as int].blocks@[newpos@[
                            j].sequence as int].id
                    },
                forall|j: int|
                    0 <= j < pi && (#[trigger] self.positions@[j]).revision_id == revision_id
                        ==> newpos@[j] == self.positions@[j],
                tiers@.len() == Self::remapped_before(self.positions@, revision_id, pi as int),
                forall|j: int, ko: int|
                    {
                        &&& 0 <= j < pi
                        &&& 0 <= ko < self.revisions@.len()
                        &&& (#[trigger] self.positions@[j]).revision_id != revision_id
                        &&& (#[trigger] self.revisions@[ko]).id == self.positions@[j].revision_id
                    } ==> {
                        let res = remap_spec(
                            self.revisions@[ko].fps(),
                            self.revisions@[kn as int].fps(),
                            self.positions@[j].sequence as int,
                            spec_fingerprint(
                                self.revisions@[ko].blocks@[self.positions@[
                                    j].sequence as int]@.block.content,
                            ),
                        );
                        let ti = Self::remapped_before(self.positions@, revision_id, j) as int;
                        &&& newpos@[j].sequence as int == res.0
                        &&& newpos@[j].block_id == self.revisions@[kn as int].blocks@[res.0].id
                        &&& 0 <= ti < tiers@.len()
                        &&& tiers@[ti].0 == self.positions@[j].reader_id
                        &&& tiers@[ti].1 == res.1
                    },
            decreases np - pi,
        {
            let p = self.positions[pi];
            if p.revision_id == revision_id {
                newpos.push(p);
            } else {
                let ko = match self.find_revision(p.revision_id) {
                    Some(k) => k,
                    None => {
                        proof {
                            assert(self.has_rev(p.revision_id as int));
                            assert(false);
                        }
                        return Err(ErrStack::new(ErrT::PersistenceFailure));
                    },
                };
                let old_rev = &self.revisions[ko];
                proof {
                    assert forall|k2: int|
                        0 <= k2 < self.revisions@.len() && (#[trigger] self.revisions@[k2]).id
                            == p.revision_id implies self.revisions@[k2] == self.revisions@[
                        ko as int] by {}
                }
                let fp = block_fingerprint(&old_rev.blocks[p.sequence as usize].block);
                match remap_revisions(old_rev, &self.revisions[kn], p.sequence, fp) {
                    Ok((s, tier)) => {
                        newpos.push(
                            ReaderPosition {
                                reader_id: p.reader_id,
                                revision_id,
                                block_id: self.revisions[kn].blocks[s as usize].id,
                                sequence: s,
                            },
                        );
                        tiers.push((p.reader_id, tier));
                    },
                    Err(_) => {
                        proof {
                            assert(false);
                        }
                        return Err(ErrStack::new(ErrT::PersistenceFailure));
                    },
                }
            }
            pi += 1;
        }
        self.positions = newpos;
        self.live = Some(revision_id);
        proof {
            let s = *self;
            assert forall|pi2: int|
                0 <= pi2 < s.positions@.len() implies s.has_rev(
                (#[trigger] s.positions@[pi2]).revision_id as int,
            ) by {
                assert(s.revisions@[kn as int].id == s.positions@[pi2].revision_id);
            }
        }
        Ok(tiers)
    }
}

} // verus!
