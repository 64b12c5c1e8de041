use ides::content::{Block, BlockType, Book, Direction};
use ides::error::ErrT;
use ides::fingerprint::fingerprint;
use ides::pager::NavOutcome;
use ides::resolver::MatchTier;
use ides::store::RevisionStore;

fn para(content: &str) -> Block {
    Block { block_type: BlockType::Paragraph, content: content.into() }
}

fn book_of(title: &str, contents: &[String]) -> Book {
    Book {
        title: title.into(),
        blocks: contents.iter().map(|c| para(c)).collect(),
    }
}

fn numbered(prefix: &str, n: usize) -> Vec<String> {
    (0..n).map(|i| format!("{prefix} paragraph number {i}")).collect()
}

#[test]
fn test_persist_assigns_dense_sequences() {
    let mut store = RevisionStore::new();
    let book = book_of("T", &numbered("alpha", 7));
    let pb = store.persist(book, 1000).unwrap();
    assert_eq!(pb.revision_id, 1);
    let rev = &store.revisions[0];
    assert_eq!(rev.blocks.len(), 7);
    for (i, sb) in rev.blocks.iter().enumerate() {
        assert_eq!(sb.sequence, i as i32);
    }
    assert_eq!(store.title, "T");
}

#[test]
fn test_persist_is_immutable_across_imports() {
    let mut store = RevisionStore::new();
    let a = store.persist(book_of("T", &numbered("alpha", 3)), 1).unwrap();
    let b = store.persist(book_of("T", &numbered("beta", 4)), 2).unwrap();
    assert_ne!(a.revision_id, b.revision_id);
    assert_eq!(store.revisions.len(), 2);
    assert_eq!(store.revisions[0].blocks.len(), 3);
    assert_eq!(store.revisions[0].blocks[0].block.content, "alpha paragraph number 0");
}

#[test]
fn test_set_live_unknown_revision_fails() {
    let mut store = RevisionStore::new();
    let err = store.set_live(9).unwrap_err();
    assert_eq!(err.peek(), ErrT::PersistenceFailure);
}

#[test]
fn test_initial_position_of_empty_revision() {
    let mut store = RevisionStore::new();
    let pb = store.persist(book_of("T", &[]), 1).unwrap();
    let err = store.initial_position(pb.revision_id).unwrap_err();
    assert_eq!(err.peek(), ErrT::EmptyRevision);
}

#[test]
fn test_remap_to_empty_revision_fails() {
    let mut store = RevisionStore::new();
    let a = store.persist(book_of("T", &numbered("alpha", 3)), 1).unwrap();
    let b = store.persist(book_of("T", &[]), 2).unwrap();
    let fp = fingerprint("alpha paragraph number 0");
    let err = store.remap(a.revision_id, 0, fp, b.revision_id).unwrap_err();
    assert_eq!(err.peek(), ErrT::EmptyRevision);
}

#[test]
fn test_perfect_match_across_distant_sequences() {
    // The block at sequence 10 of revision A has content identical to the
    // block at sequence 40 of revision B, globally unique in both: a reader
    // at sequence 10 must land at sequence 40, a perfect match.
    let mut store = RevisionStore::new();
    let mut a_contents = numbered("alpha", 20);
    a_contents[10] = "the shared landmark sentence".to_string();
    let mut b_contents = numbered("beta", 50);
    b_contents[40] = "the shared landmark sentence".to_string();
    let a = store.persist(book_of("T", &a_contents), 1).unwrap();
    let b = store.persist(book_of("T", &b_contents), 2).unwrap();
    let fp = fingerprint("the shared landmark sentence");
    let (pos, tier) = store.remap(a.revision_id, 10, fp, b.revision_id).unwrap();
    assert_eq!(tier, MatchTier::Perfect);
    assert_eq!(pos.current_block_sequence, 40);
    assert_eq!(pos.book_revision_id, b.revision_id);
}

#[test]
fn test_close_match_carries_offset() {
    // The reader's own block changed, but the one right before it is a
    // canonical anchor shared by both revisions.  In B the anchor moved to
    // sequence 7, so the reader (one past the anchor in A) lands at 8.
    let mut store = RevisionStore::new();
    let mut a_contents = numbered("alpha", 10);
    a_contents[4] = "an anchor the revisions share".to_string();
    let mut b_contents = numbered("beta", 12);
    b_contents[7] = "an anchor the revisions share".to_string();
    let a = store.persist(book_of("T", &a_contents), 1).unwrap();
    let b = store.persist(book_of("T", &b_contents), 2).unwrap();
    let fp = fingerprint("alpha paragraph number 5");
    let (pos, tier) = store.remap(a.revision_id, 5, fp, b.revision_id).unwrap();
    assert_eq!(tier, MatchTier::Close);
    assert_eq!(pos.current_block_sequence, 8);
}

#[test]
fn test_rough_match_boundaries() {
    // No content shared at all: the resolver falls back to the progress
    // ratio.  Sequence 0 maps to 0, the last sequence maps to the last.
    let mut store = RevisionStore::new();
    let a = store.persist(book_of("T", &numbered("alpha", 9)), 1).unwrap();
    let b = store.persist(book_of("T", &numbered("beta", 17)), 2).unwrap();

    let fp0 = fingerprint("alpha paragraph number 0");
    let (pos, tier) = store.remap(a.revision_id, 0, fp0, b.revision_id).unwrap();
    assert_eq!(tier, MatchTier::Rough);
    assert_eq!(pos.current_block_sequence, 0);

    let fp_last = fingerprint("alpha paragraph number 8");
    let (pos, tier) = store.remap(a.revision_id, 8, fp_last, b.revision_id).unwrap();
    assert_eq!(tier, MatchTier::Rough);
    assert_eq!(pos.current_block_sequence, 16);
}

#[test]
fn test_rough_match_midpoint() {
    // 4 of 0..=8 is exactly half way; half way through 0..=16 is 8.
    let mut store = RevisionStore::new();
    let a = store.persist(book_of("T", &numbered("alpha", 9)), 1).unwrap();
    let b = store.persist(book_of("T", &numbered("beta", 17)), 2).unwrap();
    let fp = fingerprint("alpha paragraph number 4");
    let (pos, tier) = store.remap(a.revision_id, 4, fp, b.revision_id).unwrap();
    assert_eq!(tier, MatchTier::Rough);
    assert_eq!(pos.current_block_sequence, 8);
}

#[test]
fn test_publish_remaps_every_reader() {
    let mut store = RevisionStore::new();
    let mut a_contents = numbered("alpha", 20);
    a_contents[10] = "the shared landmark sentence".to_string();
    let mut b_contents = numbered("beta", 50);
    b_contents[40] = "the shared landmark sentence".to_string();
    let a = store.persist(book_of("T", &a_contents), 1).unwrap();
    store.set_live(a.revision_id).unwrap();

    // Two readers take positions in revision A.
    store.view(7).unwrap();
    let outcome = store.navigate(8, Direction::Forward).unwrap();
    assert!(matches!(outcome, NavOutcome::Moved { .. }));

    let b = store.persist(book_of("T", &b_contents), 2).unwrap();
    let tiers = store.publish(b.revision_id).unwrap();
    // One entry per remapped reader, in position order: reader 7 sat at
    // sequence 0 and reader 8 at sequence 5; both resolve through the
    // close-match tier off the shared landmark at sequence 10.
    assert_eq!(tiers, vec![(7, MatchTier::Close), (8, MatchTier::Close)]);
    assert_eq!(store.live, Some(b.revision_id));
    for p in &store.positions {
        assert_eq!(p.revision_id, b.revision_id);
    }
}

#[test]
fn test_publish_empty_revision_fails_unchanged() {
    let mut store = RevisionStore::new();
    let a = store.persist(book_of("T", &numbered("alpha", 3)), 1).unwrap();
    store.set_live(a.revision_id).unwrap();
    store.view(1).unwrap();
    let empty = store.persist(book_of("T", &[]), 2).unwrap();
    let before = store.positions.clone();
    let err = store.publish(empty.revision_id).unwrap_err();
    assert_eq!(err.peek(), ErrT::EmptyRevision);
    assert_eq!(store.live, Some(a.revision_id));
    assert_eq!(store.positions, before);
}

#[test]
fn test_navigate_forward_and_window() {
    let mut store = RevisionStore::new();
    let pb = store.persist(book_of("T", &numbered("alpha", 12)), 1).unwrap();
    store.set_live(pb.revision_id).unwrap();

    // First view creates the initial position at sequence 0.
    let (pos, window) = store.view(1).unwrap();
    assert_eq!(pos.current_block_sequence, 0);
    let seqs: Vec<i32> = window.iter().map(|b| b.sequence).collect();
    assert_eq!(seqs, vec![1, 2, 3]);

    match store.navigate(1, Direction::Forward).unwrap() {
        NavOutcome::Moved { position, blocks } => {
            assert_eq!(position.current_block_sequence, 5);
            let seqs: Vec<i32> = blocks.iter().map(|b| b.sequence).collect();
            assert_eq!(seqs, vec![6, 7, 8]);
        }
        NavOutcome::AtEdge => panic!("expected to move forward"),
    }
}

#[test]
fn test_navigate_back_from_start_reports_edge_and_keeps_position() {
    let mut store = RevisionStore::new();
    let pb = store.persist(book_of("T", &numbered("alpha", 12)), 1).unwrap();
    store.set_live(pb.revision_id).unwrap();
    store.view(1).unwrap();
    let before = store.positions.clone();

    match store.navigate(1, Direction::Back).unwrap() {
        NavOutcome::AtEdge => {}
        NavOutcome::Moved { .. } => panic!("expected the edge of the book"),
    }
    assert_eq!(store.positions, before);
}

#[test]
fn test_navigate_forward_at_end_reports_edge() {
    let mut store = RevisionStore::new();
    let pb = store.persist(book_of("T", &numbered("alpha", 4)), 1).unwrap();
    store.set_live(pb.revision_id).unwrap();
    store.view(1).unwrap();
    // target 5 is past the last sequence (3): no further pages.
    match store.navigate(1, Direction::Forward).unwrap() {
        NavOutcome::AtEdge => {}
        NavOutcome::Moved { .. } => panic!("expected the edge of the book"),
    }
}

#[test]
fn test_list_blocks_window_is_bounded() {
    let mut store = RevisionStore::new();
    let pb = store.persist(book_of("T", &numbered("alpha", 5)), 1).unwrap();
    let bs = store.list_blocks(3, pb.revision_id).unwrap();
    let seqs: Vec<i32> = bs.iter().map(|b| b.sequence).collect();
    assert_eq!(seqs, vec![4]);
    let bs = store.list_blocks(-1, pb.revision_id).unwrap();
    let seqs: Vec<i32> = bs.iter().map(|b| b.sequence).collect();
    assert_eq!(seqs, vec![0, 1, 2]);
}

#[test]
fn test_fingerprint_is_content_sensitive() {
    assert_eq!(fingerprint("abc"), fingerprint("abc"));
    assert_ne!(fingerprint("abc"), fingerprint("abc "));
    assert_ne!(fingerprint("abc"), fingerprint("ABC"));
}
