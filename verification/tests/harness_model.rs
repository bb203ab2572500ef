use bdk_testenv::chain::{ensure_height_unchanged, ChainState};
use bdk_testenv::checkpoint::make_checkpoint_tip;
use bdk_testenv::errors::HarnessError;
use bdk_testenv::miner::classify_submission;
use bdk_testenv::poller::{may_poll, run_poll};

fn marked_hash(tag: u8, n: u64) -> Vec<u8> {
    let mut h = vec![0u8; 32];
    h[0] = tag;
    h[1..9].copy_from_slice(&n.to_le_bytes());
    h
}

fn marked_hashes(tag: u8, from: u64, count: u64) -> Vec<Vec<u8>> {
    (0..count).map(|k| marked_hash(tag, from + k)).collect()
}

#[test]
fn reorg_keeps_height_and_lower_hashes_and_replaces_the_tip() {
    let mut chain = ChainState::new_chain(marked_hash(0, 0));
    chain.mine_blocks(&marked_hashes(1, 1, 101));
    assert_eq!(chain.hashes.len(), 102);
    let before = chain.hashes.clone();
    let height_before = chain.hashes.len() as u64 - 1;

    chain
        .reorg(6, &marked_hashes(2, 96, 6))
        .expect("reorg within chain depth succeeds");

    let height_after = chain.hashes.len() as u64 - 1;
    assert_eq!(height_before, height_after);
    assert!(ensure_height_unchanged(height_before, height_after).is_ok());

    for (i, (old, new)) in before.iter().zip(chain.hashes.iter()).enumerate() {
        if i <= height_before as usize - 6 {
            assert_eq!(old, new, "height {} must keep its hash", i);
        } else {
            assert_ne!(old, new, "height {} must carry a new hash", i);
        }
    }
}

#[test]
fn reorg_of_zero_blocks_changes_nothing() {
    let mut chain = ChainState::new_chain(marked_hash(0, 0));
    chain.mine_blocks(&marked_hashes(1, 1, 3));
    let before = chain.hashes.clone();
    chain.reorg(0, &Vec::new()).expect("empty reorg succeeds");
    assert_eq!(chain.hashes, before);
}

#[test]
fn invalidating_past_genesis_surfaces_the_node_error() {
    let mut chain = ChainState::new_chain(marked_hash(0, 0));
    chain.mine_blocks(&marked_hashes(1, 1, 2));
    let r = chain.invalidate_blocks(5);
    assert!(matches!(r, Err(HarnessError::NodeRpc)));
    assert_eq!(chain.hashes.len(), 1);
    assert_eq!(chain.hashes[0], marked_hash(0, 0));
}

#[test]
fn height_mismatch_is_an_invariant_violation() {
    let r = ensure_height_unchanged(101, 100);
    assert!(matches!(r, Err(HarnessError::InvariantViolation)));
}

#[test]
fn poll_succeeds_strictly_before_the_timeout() {
    let outcomes = vec![false, false, true, false, false];
    let r = run_poll(&outcomes, 1000, 200, "block header");
    assert_eq!(r.unwrap(), 2);
}

#[test]
fn poll_times_out_when_the_condition_never_holds() {
    let outcomes = vec![false; 10];
    let r = run_poll(&outcomes, 1000, 200, "block header");
    assert!(matches!(r, Err(HarnessError::TimedOut(_))));
}

#[test]
fn poll_ignores_observations_past_the_window() {
    let outcomes = vec![false, false, false, false, false, true];
    let r = run_poll(&outcomes, 1000, 200, "transaction");
    assert!(matches!(r, Err(HarnessError::TimedOut(_))));
}

#[test]
fn may_poll_is_strict() {
    assert!(may_poll(999, 1000));
    assert!(!may_poll(1000, 1000));
    assert!(may_poll(0, 1));
    assert!(!may_poll(0, 0));
}

#[test]
fn checkpoint_tip_counts_every_height_down_to_genesis() {
    let hashes = vec![marked_hash(0, 0), marked_hash(1, 1), marked_hash(1, 2)];
    let tip = make_checkpoint_tip(&hashes);
    assert_eq!(tip.height, 2);
    assert_eq!(tip.hash, marked_hash(1, 2));

    let mut node = &tip;
    let mut count = 1u64;
    while let Some(prev) = &node.prev {
        assert_eq!(prev.height + 1, node.height);
        node = prev;
        count += 1;
    }
    assert_eq!(count, hashes.len() as u64);
    assert_eq!(node.height, 0);
    assert_eq!(node.hash, marked_hash(0, 0), "height zero resolves to genesis");
}

#[test]
fn submission_is_accepted_only_on_a_null_result() {
    assert!(classify_submission(true, String::new()).is_ok());
    let r = classify_submission(false, "duplicate".to_string());
    match r {
        Err(HarnessError::BlockSubmissionRejected(p)) => assert_eq!(p, "duplicate"),
        _ => panic!("expected a rejection carrying the payload"),
    }
}
