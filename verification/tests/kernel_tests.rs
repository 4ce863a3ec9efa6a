//! Transaction-kernel encodings, announcement decoding, and the
//! from-memory MAST hash.

use neptune_core::amount::Amount;
use neptune_core::mutator_set::AdditionRecord;
use neptune_core::mutator_set::RemovalRecord;
use neptune_core::timestamp::Timestamp;
use neptune_core::transaction_kernel::encode_public_announcements;
use neptune_core::transaction_kernel::kernel_memory_stream;
use neptune_core::transaction_kernel::PublicAnnouncement;
use neptune_core::transaction_kernel::TransactionKernel;
use neptune_core::transaction_kernel::TransactionKernelMastHash;
use neptune_core::Digest;
use neptune_core::FIELD_PRIME;
use rand::rngs::StdRng;
use rand::Rng;
use rand::SeedableRng;

fn random_felt(rng: &mut impl Rng) -> u64 {
    rng.gen::<u64>() % FIELD_PRIME
}

fn random_digest(rng: &mut impl Rng) -> Digest {
    Digest::new(
        random_felt(rng),
        random_felt(rng),
        random_felt(rng),
        random_felt(rng),
        random_felt(rng),
    )
}

fn random_public_announcement(rng: &mut impl Rng) -> PublicAnnouncement {
    let len = rng.gen_range(0..20);
    let message: Vec<u64> = (0..len).map(|_| random_felt(rng)).collect();
    PublicAnnouncement { message }
}

fn pseudorandom_transaction_kernel(
    seed: [u8; 32],
    num_inputs: usize,
    num_outputs: usize,
    num_public_announcements: usize,
) -> TransactionKernel {
    let mut rng: StdRng = SeedableRng::from_seed(seed);
    let inputs = (0..num_inputs)
        .map(|_| RemovalRecord {
            absolute_indices: (0..45).map(|_| rng.gen::<u128>() % (1u128 << 40)).collect(),
            target_chunks: vec![],
        })
        .collect();
    let outputs = (0..num_outputs)
        .map(|_| AdditionRecord::new(random_digest(&mut rng)))
        .collect();
    let public_announcements = (0..num_public_announcements)
        .map(|_| random_public_announcement(&mut rng))
        .collect();
    TransactionKernel {
        inputs,
        outputs,
        public_announcements,
        fee: Amount(rng.gen::<u64>() as u128),
        coinbase: if rng.gen::<bool>() {
            Some(Amount(rng.gen::<u64>() as u128))
        } else {
            None
        },
        timestamp: Timestamp::millis(rng.gen::<u64>() % FIELD_PRIME),
        mutator_set_hash: random_digest(&mut rng),
    }
}

#[test]
fn decode_public_announcement() {
    let mut rng = rand::thread_rng();
    let pubscript = random_public_announcement(&mut rng);
    let mut encoded: Vec<u64> = vec![pubscript.message.len() as u64];
    encoded.extend(pubscript.message.iter());
    let decoded =
        neptune_core::transaction_kernel::decode_public_announcement(&encoded).unwrap();
    assert_eq!(pubscript, decoded);
}

#[test]
fn decode_public_announcements() {
    let mut rng = rand::thread_rng();
    let pubscripts = vec![
        random_public_announcement(&mut rng),
        random_public_announcement(&mut rng),
    ];
    let encoded = encode_public_announcements(&pubscripts);
    let decoded =
        neptune_core::transaction_kernel::decode_public_announcements(&encoded).unwrap();
    assert_eq!(pubscripts, decoded);
}

#[test]
fn decode_public_announcements_rejects_trailing_data() {
    let pubscripts = vec![PublicAnnouncement { message: vec![7, 8, 9] }];
    let mut encoded = encode_public_announcements(&pubscripts);
    encoded.push(0);
    assert!(neptune_core::transaction_kernel::decode_public_announcements(&encoded).is_none());
}

#[test]
fn verify_agreement_with_tx_kernel_mast_hash() {
    let mut seed = [99u8; 32];
    seed[17] = 0x17;
    let tx_kernel = pseudorandom_transaction_kernel(seed, 2, 2, 1);
    let stream = kernel_memory_stream(&tx_kernel);
    let mast_hash_from_memory =
        TransactionKernelMastHash::mast_hash_from_memory(&stream).unwrap();
    assert_eq!(tx_kernel.mast_hash(), mast_hash_from_memory);
}

#[test]
fn mast_hash_from_memory_rejects_bad_stream() {
    // Six segments instead of seven.
    let stream: Vec<u64> = vec![0, 0, 0, 0, 0, 0];
    assert!(TransactionKernelMastHash::mast_hash_from_memory(&stream).is_none());
    // A non-canonical element.
    let bad: Vec<u64> = vec![1, u64::MAX, 0, 0, 0, 0, 0, 0];
    assert!(TransactionKernelMastHash::mast_hash_from_memory(&bad).is_none());
}

#[test]
fn kernel_mast_hash_is_field_sensitive() {
    let seed = [3u8; 32];
    let kernel = pseudorandom_transaction_kernel(seed, 1, 1, 1);
    let mut other = kernel.clone();
    other.fee = Amount(kernel.fee.0 + 1);
    assert_ne!(kernel.mast_hash(), other.mast_hash());
    let mut third = kernel.clone();
    third.coinbase = Some(Amount(17));
    assert_ne!(kernel.mast_hash(), third.mast_hash());
}
