//! Mutator-set behaviour: additions, membership proofs, removals, batch
//! removals and window slides.

use neptune_core::hashing::hash_varlen;
use neptune_core::mutator_set::commit;
use neptune_core::mutator_set::MsMembershipProof;
use neptune_core::mutator_set::MutatorSetAccumulator;
use neptune_core::mutator_set::MutatorSetError;
use neptune_core::mutator_set::RemovalRecord;
use neptune_core::Digest;
use neptune_core::FIELD_PRIME;
use rand::Rng;

fn random_felt(rng: &mut impl Rng) -> u64 {
    rng.gen::<u64>() % FIELD_PRIME
}

fn random_digest(rng: &mut impl Rng) -> Digest {
    Digest::new(
        random_felt(rng),
        random_felt(rng),
        random_felt(rng),
        random_felt(rng),
        random_felt(rng),
    )
}

fn make_item_and_randomness(rng: &mut impl Rng) -> (Digest, Digest, Digest) {
    (random_digest(rng), random_digest(rng), random_digest(rng))
}

#[test]
fn mutator_set_batch_remove_accumulator_test() {
    // Test the batch-remove function for the mutator set accumulator.
    let mut accumulator = MutatorSetAccumulator::default();
    let mut membership_proofs: Vec<MsMembershipProof> = Vec::new();
    let mut items: Vec<Digest> = Vec::new();

    // Add N elements to the mutator set.
    let num_additions = 44;
    let mut rng = rand::thread_rng();
    for _ in 0..num_additions {
        let (item, sender_randomness, receiver_digest) = make_item_and_randomness(&mut rng);

        let addition_record = commit(&item, &sender_randomness, &receiver_digest);
        let membership_proof = accumulator.prove(&item, &sender_randomness, &receiver_digest);

        for (mp, own_item) in membership_proofs.iter_mut().zip(items.iter()) {
            mp.update_from_addition(own_item, &accumulator, &addition_record);
        }

        accumulator.add(&addition_record);

        membership_proofs.push(membership_proof);
        items.push(item);
    }

    // Build removal records for about half of the elements.
    let mut skipped_removes: Vec<bool> = Vec::new();
    let mut removal_records: Vec<RemovalRecord> = Vec::new();
    for (mp, item) in membership_proofs.iter().zip(items.iter()) {
        let skipped = rng.gen_range(0.0..1.0) < 0.5;
        skipped_removes.push(skipped);
        if !skipped {
            removal_records.push(accumulator.drop(item, mp));
        }
    }

    for (mp, item) in membership_proofs.iter().zip(items.iter()) {
        assert!(accumulator.verify(item, mp));
    }

    // Remove the entries with batch_remove.
    accumulator
        .batch_remove(&removal_records, &mut membership_proofs)
        .expect("MS membership update must work");

    // Verify that the expected membership proofs fail/pass.
    for ((mp, item), skipped) in membership_proofs
        .iter()
        .zip(items.iter())
        .zip(skipped_removes.into_iter())
    {
        // A proof of an item that was not removed must verify; a removed
        // item's proof must not.
        assert!(skipped == accumulator.verify(item, mp));
    }
}

#[test]
fn batch_remove_equals_sequential_removes() {
    let mut rng = rand::thread_rng();
    let mut base = MutatorSetAccumulator::default();
    let mut proofs: Vec<MsMembershipProof> = Vec::new();
    let mut items: Vec<Digest> = Vec::new();
    for _ in 0..20 {
        let (item, sr, rd) = make_item_and_randomness(&mut rng);
        let ar = commit(&item, &sr, &rd);
        let own_proof = base.prove(&item, &sr, &rd);
        for (mp, own) in proofs.iter_mut().zip(items.iter()) {
            mp.update_from_addition(own, &base, &ar);
        }
        base.add(&ar);
        proofs.push(own_proof);
        items.push(item);
    }
    let records: Vec<RemovalRecord> = items
        .iter()
        .zip(proofs.iter())
        .step_by(2)
        .map(|(item, mp)| base.drop(item, mp))
        .collect();

    let mut batched = base.clone();
    let mut sequential = base.clone();
    let mut no_proofs: Vec<MsMembershipProof> = Vec::new();
    batched.batch_remove(&records, &mut no_proofs).unwrap();
    for r in &records {
        sequential.remove(r).unwrap();
    }
    assert_eq!(batched.hash(), sequential.hash());
}

#[test]
fn mutator_set_hash_changes_on_add_and_remove() {
    let mut rng = rand::thread_rng();
    let mut msa = MutatorSetAccumulator::default();
    let h0 = msa.hash();
    let (item, sr, rd) = make_item_and_randomness(&mut rng);
    let ar = commit(&item, &sr, &rd);
    let mp = msa.prove(&item, &sr, &rd);
    msa.add(&ar);
    let h1 = msa.hash();
    assert_ne!(h0, h1);
    let rr = msa.drop(&item, &mp);
    msa.remove(&rr).unwrap();
    let h2 = msa.hash();
    assert_ne!(h1, h2);
}

#[test]
fn removed_item_no_longer_verifies_and_others_survive() {
    let mut rng = rand::thread_rng();
    let mut msa = MutatorSetAccumulator::default();
    let mut proofs: Vec<MsMembershipProof> = Vec::new();
    let mut items: Vec<Digest> = Vec::new();
    for _ in 0..10 {
        let (item, sr, rd) = make_item_and_randomness(&mut rng);
        let ar = commit(&item, &sr, &rd);
        let own_proof = msa.prove(&item, &sr, &rd);
        for (mp, own) in proofs.iter_mut().zip(items.iter()) {
            mp.update_from_addition(own, &msa, &ar);
        }
        msa.add(&ar);
        proofs.push(own_proof);
        items.push(item);
    }
    let victim = 4;
    let rr = msa.drop(&items[victim], &proofs[victim]);
    assert!(msa.can_remove(&rr));
    msa.remove(&rr).unwrap();
    assert!(!msa.can_remove(&rr));
    for (j, (item, mp)) in items.iter().zip(proofs.iter()).enumerate() {
        assert_eq!(j != victim, msa.verify(item, mp));
    }
    // Removing an already-removed record again succeeds and is idempotent.
    let h_before = msa.hash();
    msa.remove(&rr).unwrap();
    assert_eq!(h_before, msa.hash());
}

#[test]
fn remove_rejects_indices_outside_the_window() {
    let mut msa = MutatorSetAccumulator::default();
    let too_high = RemovalRecord {
        absolute_indices: vec![u128::from(u64::MAX) << 30],
        target_chunks: vec![],
    };
    assert_eq!(
        msa.remove(&too_high),
        Err(MutatorSetError::RemovalIndexOutsideWindow)
    );
}

#[test]
fn window_slide_keeps_membership_proofs_current() {
    // Cross one chunk boundary and check that a proof from before the
    // slide, updated through every addition, still verifies.
    let mut rng = rand::thread_rng();
    let mut msa = MutatorSetAccumulator::default();
    let (item0, sr0, rd0) = make_item_and_randomness(&mut rng);
    let ar0 = commit(&item0, &sr0, &rd0);
    let mut mp0 = msa.prove(&item0, &sr0, &rd0);
    msa.add(&ar0);
    assert!(msa.verify(&item0, &mp0));

    let filler_sr = random_digest(&mut rng);
    let filler_rd = random_digest(&mut rng);
    for i in 0..4100u64 {
        let filler_item = hash_varlen(&vec![i, 1, 2, 3, 4]);
        let ar = commit(&filler_item, &filler_sr, &filler_rd);
        mp0.update_from_addition(&item0, &msa, &ar);
        msa.add(&ar);
    }
    assert!(msa.verify(&item0, &mp0));
}

#[test]
fn hash_identity_test() {
    let item_a = hash_varlen(&vec![1492u64]);
    let randomness_a = hash_varlen(&vec![1522u64]);
    let receiver = hash_varlen(&vec![1u64]);

    let addition_record_0 = commit(&item_a, &randomness_a, &receiver);
    let addition_record_1 = commit(&item_a, &randomness_a, &receiver);
    assert_eq!(
        addition_record_0, addition_record_1,
        "Two addition records with same commitments and same MMR AOCLs must agree."
    );

    let item_b = hash_varlen(&vec![1451u64]);
    let randomness_b = hash_varlen(&vec![1480u64]);
    let addition_record_2 = commit(&item_b, &randomness_b, &receiver);
    assert_ne!(
        addition_record_0, addition_record_2,
        "Two addition records with differing commitments but same MMR AOCLs must differ."
    );
}
