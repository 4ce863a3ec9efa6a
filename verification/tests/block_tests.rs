//! Block construction, hashing, validation and chains.

use neptune_core::amount::Amount;
use neptune_core::block::Block;
use neptune_core::block::BlockProof;
use neptune_core::block::Network;
use neptune_core::block::RejectReason;
use neptune_core::block_body::BlockBody;
use neptune_core::difficulty::difficulty_control;
use neptune_core::mmr::mmr_new;
use neptune_core::timestamp::Timestamp;
use neptune_core::timestamp::TARGET_BLOCK_INTERVAL_MILLIS;
use neptune_core::mutator_set::RemovalRecord;
use neptune_core::transaction_kernel::TransactionKernel;
use neptune_core::Digest;
use rand::Rng;
use std::collections::HashSet;

/// An empty transaction on the given parent.
fn empty_transaction(previous_block: &Block) -> TransactionKernel {
    TransactionKernel {
        inputs: vec![],
        outputs: vec![],
        public_announcements: vec![],
        fee: Amount::new(0),
        coinbase: None,
        timestamp: previous_block.header().timestamp,
        mutator_set_hash: previous_block.body().mutator_set_accumulator.hash(),
    }
}

/// A valid successor carrying an empty transaction.
fn make_mock_block(previous_block: &Block, block_timestamp: Option<Timestamp>) -> Block {
    let ts = match block_timestamp {
        Some(t) => t,
        None => Timestamp::millis(previous_block.header().timestamp.millis + 600_000),
    };
    let (header, body, proof) = Block::make_block_template(
        previous_block,
        empty_transaction(previous_block),
        ts,
        None,
    )
    .unwrap();
    Block::new(header, body, proof)
}

#[test]
fn all_genesis_blocks_have_unique_mutator_set_hashes() {
    let mut genesis_block_msa_digests: HashSet<Digest> = HashSet::default();

    for network in Network::all() {
        assert!(
            genesis_block_msa_digests.insert(
                Block::genesis_block(network)
                    .body()
                    .mutator_set_accumulator
                    .hash(),
            ),
            "All genesis blocks must have unique MSA digests, otherwise replay attacks are possible"
        );
    }
}

#[test]
fn test_difficulty_control_matches() {
    let network = Network::RegTest;

    for multiplier in [10, 100, 1000, 10000, 100000, 1000000] {
        let mut block_prev = Block::genesis_block(network);
        let mut now = block_prev.header().timestamp;

        for i in 0..100u64 {
            let duration = i * multiplier;
            now = Timestamp::millis(now.millis + duration);

            let block = make_mock_block(&block_prev, Some(now));

            let control = difficulty_control(
                block.header().timestamp,
                block_prev.header().timestamp,
                block_prev.header().difficulty,
                None,
                block_prev.header().height,
            );
            assert_eq!(block.header().difficulty, control);

            block_prev = block;
        }
    }
}

#[test]
fn block_with_wrong_mmra_is_invalid() {
    let network = Network::RegTest;
    let genesis_block = Block::genesis_block(network);
    let block_1 = make_mock_block(&genesis_block, None);

    let bad_body = BlockBody::new(
        block_1.body().transaction_kernel.clone(),
        block_1.body().mutator_set_accumulator.clone(),
        block_1.body().lock_free_mmr_accumulator.clone(),
        mmr_new(),
    );
    let bad_block = Block::new(*block_1.header(), bad_body, block_1.proof.clone());
    let timestamp = genesis_block.header().timestamp;

    assert!(!bad_block.is_valid(&genesis_block, timestamp));
    assert_eq!(
        bad_block.validate(&genesis_block, timestamp),
        Err(RejectReason::BlockMmrMismatch)
    );
}

#[test]
fn block_with_far_future_timestamp_is_invalid() {
    let network = Network::RegTest;
    let genesis_block = Block::genesis_block(network);
    let mut now = genesis_block.header().timestamp;
    let mut block_1 = make_mock_block(&genesis_block, None);
    let difficulty = block_1.header().difficulty;

    // One hour in the future: valid.
    let future_time1 = Timestamp::millis(now.millis + 3_600_000);
    block_1.set_header_timestamp_and_difficulty(future_time1, difficulty);
    assert!(block_1.is_valid(&genesis_block, now));

    now = block_1.header().timestamp;

    // Two hours minus a second in the future: valid.
    let future_time2 = Timestamp::millis(now.millis + 2 * 3_600_000 - 1000);
    block_1.set_header_timestamp_and_difficulty(future_time2, difficulty);
    assert!(block_1.is_valid(&genesis_block, now));

    // Two hours and ten seconds in the future: not valid.
    let future_time3 = Timestamp::millis(now.millis + 2 * 3_600_000 + 10_000);
    block_1.set_header_timestamp_and_difficulty(future_time3, difficulty);
    assert!(!block_1.is_valid(&genesis_block, now));
    assert_eq!(
        block_1.validate(&genesis_block, now),
        Err(RejectReason::TimestampTooFarFuture)
    );

    // Two days in the future: not valid.
    let future_time4 = Timestamp::millis(now.millis + 86400 * 2 * 1000);
    block_1.set_header_timestamp_and_difficulty(future_time4, difficulty);
    assert!(!block_1.is_valid(&genesis_block, now));
}

#[test]
fn can_prove_block_ancestry() {
    let mut rng = rand::thread_rng();
    let network = Network::RegTest;
    let genesis_block = Block::genesis_block(network);
    let mut blocks = vec![];
    blocks.push(genesis_block.clone());

    // Tracked authentication paths, one per chain block, kept current
    // under every append.
    let mut kept_paths: Vec<(u64, Vec<Digest>)> = Vec::new();
    let mut mmra = mmr_new();
    let mut leaf_count: u64 = 0;
    let mut leafs: Vec<Digest> = Vec::new();

    let mut append_leaf = |mmra: &mut _,
                           kept_paths: &mut Vec<(u64, Vec<Digest>)>,
                           leafs: &mut Vec<Digest>,
                           leaf_count: &mut u64,
                           appended: Digest| {
        let old_peaks = neptune_core::mmr::mmr_peaks(mmra);
        for (leaf_index, path) in kept_paths.iter_mut() {
            neptune_core::mmr::mmr_update_path_from_append(
                path,
                *leaf_index,
                *leaf_count,
                &appended,
                &old_peaks,
            );
        }
        let own_path = neptune_core::mmr::mmr_append(mmra, &appended);
        kept_paths.push((*leaf_count, own_path));
        leafs.push(appended);
        *leaf_count += 1;
    };

    append_leaf(
        &mut mmra,
        &mut kept_paths,
        &mut leafs,
        &mut leaf_count,
        genesis_block.hash(),
    );

    for i in 0..55 {
        let new_block = make_mock_block(blocks.last().unwrap(), None);
        if i != 54 {
            append_leaf(
                &mut mmra,
                &mut kept_paths,
                &mut leafs,
                &mut leaf_count,
                new_block.hash(),
            );
        }
        blocks.push(new_block);
    }

    let last_block_mmra = &blocks.last().unwrap().body().block_mmr_accumulator;
    let peaks = neptune_core::mmr::mmr_peaks(last_block_mmra);
    let num_leafs = neptune_core::mmr::mmr_num_leafs(last_block_mmra);
    assert_eq!(num_leafs, leaf_count);

    let index = rng.gen_range(0..blocks.len() - 1);
    let block_digest = blocks[index].hash();
    assert_eq!(block_digest, leafs[index]);

    let (leaf_index, path) = &kept_paths[index];
    let v = neptune_core::mmr::mmr_verify_path(path, *leaf_index, &block_digest, &peaks, num_leafs);
    assert!(v, "ancestry proof must verify");
    assert_eq!(num_leafs, blocks.len() as u64 - 1);
}

#[test]
fn test_premine_size() {
    // 831600 = 42000000 * 0.0198
    // where 42000000 is the asymptotical limit of the token supply
    // and 1.98% is the relative size of the premine
    let premine_max_size = Amount::new(831600);
    let total_premine: u128 = Block::premine_distribution()
        .iter()
        .map(|r| r.amount.0)
        .sum();

    assert!(Amount(total_premine).le(&premine_max_size));
}

#[test]
fn genesis_acceptance() {
    let g = Block::genesis_block(Network::RegTest);
    // Genesis is deterministic: building it twice gives the same block.
    assert!(g.eq_by_digest(&Block::genesis_block(Network::RegTest)));
    assert!(!g.eq_by_digest(&Block::genesis_block(Network::Alpha)));
    assert!(!g.has_proof_of_work(&g));
    let total_premine: u128 = Block::premine_distribution()
        .iter()
        .map(|r| r.amount.0)
        .sum();
    assert_eq!(
        g.body().transaction_kernel.coinbase,
        Some(Amount(total_premine))
    );
}

#[test]
fn mutated_prev_digest_is_rejected() {
    let g = Block::genesis_block(Network::RegTest);
    let b1 = make_mock_block(&g, None);
    assert!(b1.is_valid(&g, g.header().timestamp));

    let mut bad_header = *b1.header();
    bad_header.prev_block_digest = Digest::zero();
    let bad = Block::new(bad_header, b1.body().clone(), b1.proof.clone());
    assert_eq!(
        bad.validate(&g, g.header().timestamp),
        Err(RejectReason::PrevDigestMismatch)
    );
}

#[test]
fn wrong_height_and_difficulty_are_rejected() {
    let g = Block::genesis_block(Network::RegTest);
    let b1 = make_mock_block(&g, None);
    let now = g.header().timestamp;

    let mut bad_header = *b1.header();
    bad_header.height = 5;
    let bad = Block::new(bad_header, b1.body().clone(), b1.proof.clone());
    assert_eq!(bad.validate(&g, now), Err(RejectReason::HeightMismatch));

    let mut bad_header2 = *b1.header();
    bad_header2.difficulty = neptune_core::difficulty::Difficulty::from_u32(123_456);
    let bad2 = Block::new(bad_header2, b1.body().clone(), b1.proof.clone());
    assert_eq!(bad2.validate(&g, now), Err(RejectReason::DifficultyMismatch));
}

#[test]
fn early_timestamp_and_bad_coinbase_are_rejected() {
    let g = Block::genesis_block(Network::RegTest);
    let now = g.header().timestamp;

    // A block timestamped before the parent plus the minimum spacing.
    let early = make_mock_block(&g, Some(Timestamp::millis(g.header().timestamp.millis + 10)));
    assert_eq!(early.validate(&g, now), Err(RejectReason::TimestampTooEarly));

    // A block whose coinbase exceeds subsidy plus fee.
    let b1 = make_mock_block(&g, None);
    let mut tx = b1.body().transaction_kernel.clone();
    tx.coinbase = Some(Amount::new(1_000_000));
    let (header, body, proof) =
        Block::make_block_template(&g, tx, b1.header().timestamp, None).unwrap();
    let greedy = Block::new(header, body, proof);
    assert_eq!(greedy.validate(&g, now), Err(RejectReason::CoinbaseTooLarge));
}

#[test]
fn invalid_proof_and_wrong_mutator_set_are_rejected() {
    let g = Block::genesis_block(Network::RegTest);
    let now = g.header().timestamp;
    let b1 = make_mock_block(&g, None);

    let stamped_invalid = Block::new(*b1.header(), b1.body().clone(), BlockProof::Invalid);
    assert_eq!(
        stamped_invalid.validate(&g, now),
        Err(RejectReason::ProofInvalid)
    );

    // Replace the post-transaction mutator set with a different one.
    let other = Block::genesis_block(Network::Alpha);
    let bad_body = BlockBody::new(
        b1.body().transaction_kernel.clone(),
        other.body().mutator_set_accumulator.clone(),
        b1.body().lock_free_mmr_accumulator.clone(),
        b1.body().block_mmr_accumulator.clone(),
    );
    let bad = Block::new(*b1.header(), bad_body, b1.proof.clone());
    assert_eq!(bad.validate(&g, now), Err(RejectReason::MutatorSetMismatch));
}

#[test]
fn transaction_after_block_timestamp_is_rejected() {
    let g = Block::genesis_block(Network::RegTest);
    let now = g.header().timestamp;
    let b1 = make_mock_block(&g, None);
    let mut tx = b1.body().transaction_kernel.clone();
    tx.timestamp = Timestamp::millis(b1.header().timestamp.millis + 1);
    let (header, body, proof) =
        Block::make_block_template(&g, tx, b1.header().timestamp, None).unwrap();
    let late_tx = Block::new(header, body, proof);
    assert_eq!(
        late_tx.validate(&g, now),
        Err(RejectReason::TransactionTimestampAfterBlock)
    );
}

#[test]
fn removal_rule_errors_are_distinguished() {
    let g = Block::genesis_block(Network::RegTest);
    let now = g.header().timestamp;
    let b1 = make_mock_block(&g, None);
    let window = neptune_core::swbf::WINDOW_SIZE as u128;

    let with_inputs = |inputs: Vec<RemovalRecord>| {
        let mut tx = b1.body().transaction_kernel.clone();
        tx.inputs = inputs;
        let body = BlockBody::new(
            tx,
            b1.body().mutator_set_accumulator.clone(),
            b1.body().lock_free_mmr_accumulator.clone(),
            b1.body().block_mmr_accumulator.clone(),
        );
        Block::new(*b1.header(), body, b1.proof.clone())
    };

    // Every targeted position beyond the window: nothing provably reads
    // zero, so the record is not removable.
    let unreadable = RemovalRecord { absolute_indices: vec![window + 7], target_chunks: vec![] };
    assert_eq!(
        with_inputs(vec![unreadable.clone()]).validate(&g, now),
        Err(RejectReason::RemovalNotAllowed)
    );

    // Two inputs with the same index set.
    let readable = RemovalRecord { absolute_indices: vec![5], target_chunks: vec![] };
    assert_eq!(
        with_inputs(vec![readable.clone(), readable.clone()]).validate(&g, now),
        Err(RejectReason::DuplicateRemoval)
    );

    // Removable and distinct, but one position cannot be applied.
    let half_applicable =
        RemovalRecord { absolute_indices: vec![5, window + 7], target_chunks: vec![] };
    assert_eq!(
        with_inputs(vec![half_applicable]).validate(&g, now),
        Err(RejectReason::MsUpdateFailed)
    );
}

#[test]
fn carried_proof_needs_the_verifier_blessing() {
    let g = Block::genesis_block(Network::RegTest);
    let now = g.header().timestamp;
    let b1 = make_mock_block(&g, None);
    let with_proof = Block::new(
        *b1.header(),
        b1.body().clone(),
        BlockProof::SingleProof(neptune_core::block::Proof(vec![7, 7, 7])),
    );
    // The oracle rejected the carried proof.
    assert_eq!(
        with_proof.validate_with_verifier(&g, now, None, None, false),
        Err(RejectReason::ProofInvalid)
    );
    // The oracle accepted it.
    assert_eq!(with_proof.validate_with_verifier(&g, now, None, None, true), Ok(()));
    // The dummy variant short-circuits verification: the verdict is not
    // consulted.
    assert_eq!(b1.validate_with_verifier(&g, now, None, None, false), Ok(()));
}

#[test]
fn mining_reward_halves_per_generation() {
    assert_eq!(Block::get_mining_reward(0), Amount::new(100));
    assert_eq!(
        Block::get_mining_reward(neptune_core::block::BLOCKS_PER_GENERATION),
        Amount::new(50)
    );
    assert_eq!(
        Block::get_mining_reward(3 * neptune_core::block::BLOCKS_PER_GENERATION),
        Amount::new(12)
    );
    assert_eq!(
        Block::get_mining_reward(10 * neptune_core::block::BLOCKS_PER_GENERATION),
        Amount::new(0)
    );
}

#[test]
fn clone_and_modify() {
    let gblock = Block::genesis_block(Network::RegTest);
    let g_hash = gblock.hash();

    let mut g2 = gblock.clone();
    assert_eq!(gblock.hash(), g_hash);
    assert_eq!(gblock.hash(), g2.hash());

    g2.set_header_nonce([1, 1, 1]);
    assert_ne!(gblock.hash(), g2.hash());
    assert_eq!(gblock.hash(), g_hash);
}

#[test]
fn new() {
    let gblock = Block::genesis_block(Network::RegTest);
    let g2 = gblock.clone();

    let block = Block::new(*g2.header(), g2.body().clone(), g2.proof.clone());
    assert_eq!(gblock.hash(), block.hash());
    assert!(gblock.eq_by_digest(&block));
}

#[test]
fn set_header_nonce() {
    let gblock = Block::genesis_block(Network::RegTest);
    let mut rng = rand::thread_rng();

    let mut new_block = gblock.clone();
    let nonce: [u64; 3] = [
        rng.gen::<u64>() % neptune_core::FIELD_PRIME,
        rng.gen::<u64>() % neptune_core::FIELD_PRIME,
        rng.gen::<u64>() % neptune_core::FIELD_PRIME,
    ];
    new_block.set_header_nonce(nonce);
    assert_ne!(gblock.hash(), new_block.hash());
}

#[test]
fn set_block() {
    let gblock = Block::genesis_block(Network::RegTest);
    let mut rng = rand::thread_rng();

    let mut unique_block = gblock.clone();
    unique_block.set_header_nonce([
        rng.gen::<u64>() % neptune_core::FIELD_PRIME,
        0,
        0,
    ]);

    let mut block = gblock.clone();
    block.set_block(unique_block.clone());

    assert_eq!(unique_block.hash(), block.hash());
    assert_ne!(unique_block.hash(), gblock.hash());
}

#[test]
fn from_transfer_block() {
    // The genesis block cannot be transferred; a mined block can.
    let gblock = Block::genesis_block(Network::RegTest);
    assert!(gblock.clone().to_transfer_block().is_none());

    let source_block = make_mock_block(&gblock, None);
    let transfer_block = source_block.clone().to_transfer_block().unwrap();
    let new_block = Block::from_transfer_block(transfer_block);
    assert_eq!(source_block.hash(), new_block.hash());
}

#[test]
fn pow_threshold_is_checked_against_parent_difficulty() {
    let g = Block::genesis_block(Network::RegTest);
    let mut b1 = make_mock_block(&g, None);
    // Grind a few nonces; with the minimum difficulty of one thousand a
    // hit within a few thousand tries is overwhelmingly likely.
    let mut solved = false;
    for n in 0..50_000u64 {
        b1.set_header_nonce([n, 0, 0]);
        if b1.has_proof_of_work(&g) {
            solved = true;
            break;
        }
    }
    assert!(solved, "a nonce below the threshold must exist");
    let _ = TARGET_BLOCK_INTERVAL_MILLIS;
}
