use bdk_chain::bitcoin;
use bdk_testenv::coinbase::build_coinbase_tx;
use bdk_testenv::miner::{mine_empty_block, mine_empty_block_with, GetBlockTemplateResult};
use bdk_testenv::pow::{check_target, target_le_bytes};
use bdk_testenv::scriptnum::push_int;

fn template(prev: [u8; 32], height: u64) -> GetBlockTemplateResult {
    GetBlockTemplateResult {
        bits: b"207fffff".to_vec(),
        previous_block_hash: prev.to_vec(),
        height,
        min_time: 1_600_000_000,
    }
}

#[test]
fn push_int_matches_the_script_builder() {
    for n in [
        -1i64,
        0,
        1,
        16,
        17,
        127,
        128,
        255,
        256,
        1000,
        -2,
        -127,
        -128,
        -1000,
        0x7fffffff,
        -0x80000000,
        i64::MAX,
    ] {
        let mut ours: Vec<u8> = Vec::new();
        push_int(&mut ours, n);
        let theirs = bitcoin::script::Builder::new().push_int(n).into_script();
        assert_eq!(ours, theirs.as_bytes().to_vec(), "push_int({})", n);
    }
}

#[test]
fn coinbase_serialization_matches_the_consensus_decoder() {
    let tx_bytes = build_coinbase_tx(321, 987654321);
    let tx: bitcoin::Transaction =
        bitcoin::consensus::encode::deserialize(&tx_bytes).expect("decodes");
    assert!(tx.is_coinbase());
    assert_eq!(tx.version, bitcoin::transaction::Version::ONE);
    assert_eq!(tx.input.len(), 1);
    assert_eq!(tx.output.len(), 1);
    assert_eq!(tx.output[0].value, bitcoin::Amount::ZERO);
    let expected_script = bitcoin::script::Builder::new()
        .push_int(321)
        .push_int(987654321)
        .into_script();
    assert_eq!(tx.input[0].script_sig, expected_script);
    assert_eq!(
        tx.output[0].script_pubkey,
        bitcoin::ScriptBuf::new_p2sh(&<bitcoin::ScriptHash as bitcoin::hashes::Hash>::all_zeros())
    );
}

#[test]
fn target_expansion_matches_the_consensus_arithmetic() {
    for bits in [
        0x207fffffu32,
        0x1d00ffff,
        0x1b0404cb,
        0x03001234,
        0x01003456,
        0x00123456,
        0x04923456,
        0x05009234,
        0x20ffffff,
        0x01fedcba,
    ] {
        let ours = target_le_bytes(bits);
        let theirs =
            bitcoin::Target::from_compact(bitcoin::CompactTarget::from_consensus(bits));
        assert_eq!(ours, theirs.to_le_bytes().to_vec(), "bits {:08x}", bits);
    }
}

#[test]
fn mined_block_is_valid_for_the_consensus_decoder() {
    let t = template([7u8; 32], 5);
    let mined = mine_empty_block_with(&t, 42424242, 1_650_000_000).expect("mines");
    assert_eq!(mined.height, 5);

    let block: bitcoin::Block =
        bitcoin::consensus::encode::deserialize(&mined.block_bytes).expect("decodes");
    assert_eq!(<bitcoin::BlockHash as bitcoin::hashes::Hash>::to_byte_array(block.block_hash()).to_vec(), mined.hash);
    assert!(block.header.target().is_met_by(block.block_hash()));
    assert_eq!(block.header.version, bitcoin::block::Version::default());
    assert_eq!(<bitcoin::BlockHash as bitcoin::hashes::Hash>::to_byte_array(block.header.prev_blockhash).to_vec(), t.previous_block_hash);
    assert_eq!(block.header.time, 1_650_000_000);
    assert_eq!(
        block.header.bits,
        bitcoin::CompactTarget::from_consensus(0x207fffff)
    );
    assert_eq!(block.txdata.len(), 1);
    assert!(block.txdata[0].is_coinbase());
    assert_eq!(
        block.header.merkle_root,
        block.compute_merkle_root().expect("merkle root")
    );
    assert!(check_target(&mined.hash, 0x207fffff));
}

#[test]
fn mined_block_takes_the_template_minimum_time() {
    let t = template([9u8; 32], 1);
    let mined = mine_empty_block_with(&t, 1, 5).expect("mines");
    let block: bitcoin::Block =
        bitcoin::consensus::encode::deserialize(&mined.block_bytes).expect("decodes");
    assert_eq!(block.header.time, 1_600_000_000);
}

#[test]
fn different_salts_give_different_blocks_and_hashes() {
    let t = template([3u8; 32], 12);
    let a = mine_empty_block_with(&t, 1111, 1_650_000_000).expect("mines");
    let b = mine_empty_block_with(&t, 2222, 1_650_000_000).expect("mines");
    assert_ne!(a.block_bytes, b.block_bytes);
    assert_ne!(a.hash, b.hash);
}

#[test]
fn consecutive_salted_mines_never_collide() {
    let t = template([1u8; 32], 2);
    let a = mine_empty_block(&t).expect("mines");
    let b = mine_empty_block(&t).expect("mines");
    assert_ne!(a.hash, b.hash);
    assert_ne!(a.block_bytes, b.block_bytes);
}

#[test]
fn mining_rejects_malformed_bits() {
    let t = GetBlockTemplateResult {
        bits: b"xyzw".to_vec(),
        previous_block_hash: [0u8; 32].to_vec(),
        height: 1,
        min_time: 0,
    };
    let r = mine_empty_block_with(&t, 7, 0);
    assert!(matches!(
        r,
        Err(bdk_testenv::errors::HarnessError::ConsensusDecode)
    ));
}
