use healer_fuzzer::feedback::{cook_raw_block, sort_dedup, Block, Branch, FeedBack};

fn branch_of(b1: u64, b2: u64) -> u64 {
    Branch::from((Block(b1), Block(b2))).0
}

#[test]
fn branch_hash_pinned_pairs() {
    assert_eq!(branch_of(0, 0), 346819217770);
    assert_eq!(branch_of(1, 0), 382908509341);
    assert_eq!(branch_of(0, 1), 346819217771);
    assert_eq!(branch_of(1, 2), 382908509343);
    assert_eq!(branch_of(2, 3), 355523704182);
    assert_eq!(branch_of(10, 11), 332134759151);
    assert_eq!(branch_of(12345, 67890), 73076875453729);
    assert_eq!(branch_of(0xffff_ffff_ffff_ffff, 0), 12703195254753937770);
    assert_eq!(branch_of(7, 7), 370212899564);
    assert_eq!(branch_of(1 << 32, 1 << 16), 8999739996422286133);
}

#[test]
fn branch_hash_distinguishes_first_block() {
    assert_ne!(Branch::from((Block(0), Block(0))), Branch::from((Block(1), Block(0))));
}

#[test]
fn block_from_raw() {
    assert_eq!(Block::from(42u64), Block(42));
}

#[test]
fn sort_dedup_orders_and_drops_duplicates() {
    let r = sort_dedup(&[5, 1, 5, 3, 1, 9]);
    assert_eq!(r, vec![1, 3, 5, 9]);
    let empty = sort_dedup(&[]);
    assert!(empty.is_empty());
}

#[test]
fn cook_empty_trace_yields_nothing() {
    let (blocks, branches) = cook_raw_block(&[]);
    assert!(blocks.is_empty());
    assert!(branches.is_empty());
}

#[test]
fn cook_single_block_trace_has_no_branch() {
    let (blocks, branches) = cook_raw_block(&[10]);
    assert_eq!(blocks, vec![Block(10)]);
    assert!(branches.is_empty());
}

#[test]
fn cook_sorts_and_pairs_successive_blocks() {
    let (blocks, branches) = cook_raw_block(&[10, 11, 10]);
    assert_eq!(blocks, vec![Block(10), Block(11)]);
    let mut expected = vec![branch_of(10, 11), branch_of(11, 10)];
    expected.sort();
    expected.dedup();
    let got: Vec<u64> = branches.iter().map(|b| b.0).collect();
    assert_eq!(got, expected);
}

#[test]
fn feedback_diff_reports_only_never_merged() {
    let mut fb = FeedBack::new();
    assert!(fb.is_empty());
    assert_eq!(fb.len(), (0, 0));

    let (blocks, branches) = cook_raw_block(&[10, 11]);
    let nb = fb.diff_block(&blocks);
    let br = fb.diff_branch(&branches);
    assert_eq!(nb.len(), 2);
    assert_eq!(br.len(), 1);

    fb.merge(&nb, &br);
    assert_eq!(fb.len(), (2, 1));
    assert!(!fb.is_empty());

    // After the merge, nothing of the same trace is new any more.
    let nb2 = fb.diff_block(&blocks);
    let br2 = fb.diff_branch(&branches);
    assert!(nb2.is_empty());
    assert!(br2.is_empty());

    // Merging overlapping sets again changes nothing.
    fb.merge(&nb, &br);
    assert_eq!(fb.len(), (2, 1));

    // A partially new batch reports exactly the unseen part.
    let (blocks3, _) = cook_raw_block(&[11, 12]);
    let nb3 = fb.diff_block(&blocks3);
    assert_eq!(nb3.len(), 1);
    assert!(nb3.contains(12));
    assert!(!nb3.contains(11));
}

#[test]
fn feedback_is_empty_when_either_side_is() {
    let mut fb = FeedBack::new();
    let (blocks, branches) = cook_raw_block(&[5]);
    let nb = fb.diff_block(&blocks);
    let br = fb.diff_branch(&branches);
    fb.merge(&nb, &br);
    // One block, zero branches: still "empty" by the store's definition.
    assert_eq!(fb.len(), (1, 0));
    assert!(fb.is_empty());
}

#[test]
fn covset_intersect() {
    let mut fb = FeedBack::new();
    let (b1, _) = cook_raw_block(&[1, 2, 3]);
    let (b2, _) = cook_raw_block(&[2, 3, 4]);
    let s1 = fb.diff_block(&b1);
    let s2 = fb.diff_block(&b2);
    let i = s1.intersect(&s2);
    assert_eq!(i.len(), 2);
    assert!(i.contains(2) && i.contains(3));
    assert!(!i.contains(1) && !i.contains(4));
}
