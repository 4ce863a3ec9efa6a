//! Blocks: composition, hashing, construction, the mining reward, the
//! proof-of-work check, genesis, and the acceptance rules.

use crate::amount::Amount;
use crate::block_body::body_mast_hash;
use crate::block_body::BlockBody;
use crate::block_header::header_enc;
use crate::block_header::BlockHeader;
use crate::block_header::MAX_BLOCK_SIZE;
use crate::difficulty::difficulty_control;
use crate::difficulty::difficulty_control_spec;
use crate::difficulty::target;
use crate::difficulty::target_spec;
use crate::difficulty::Difficulty;
use crate::difficulty::MINIMUM_DIFFICULTY;
use crate::digest_val;
use crate::encoding::push_digest;
use crate::hashing::hash_varlen;
use crate::mast::mast_root;
use crate::mast::mast_root_of;
use crate::mmr::digests_view;
use crate::mmr::mmr_leafs;
use crate::mmr::mmr_new;
use crate::mmr::mmr_peaks_of;
use crate::mutator_set::commit;
use crate::mutator_set::MutatorSetAccumulator;
use crate::timestamp::Timestamp;
use crate::timestamp::MINIMUM_BLOCK_TIME_MILLIS;
use crate::timestamp::TARGET_BLOCK_INTERVAL_MILLIS;
use crate::transaction_kernel::TransactionKernel;
use crate::Digest;
use crate::FIELD_PRIME;
use vstd::prelude::*;

verus! {

/// The number of blocks in one reward generation; the block subsidy halves
/// when a generation completes.
pub const BLOCKS_PER_GENERATION: u64 = 160_815;

/// The named network instances. The tag flows into the genesis sender
/// randomness, so no transaction replays across networks.
#[derive(Clone, Copy, Debug, PartialEq, Eq, Structural, Hash)]
pub enum Network {
    Alpha,
    Beta,
    RegTest,
    Testnet,
}

impl Network {
    /// The distinct tag of the network.
    pub fn tag(&self) -> (r: u64)
        ensures
            r == self.tag_spec(),
    {
        match self {
            Network::Alpha => 0,
            Network::Beta => 1,
            Network::RegTest => 2,
            Network::Testnet => 3,
        }
    }

    pub open spec fn tag_spec(self) -> u64 {
        match self {
            Network::Alpha => 0u64,
            Network::Beta => 1u64,
            Network::RegTest => 2u64,
            Network::Testnet => 3u64,
        }
    }

    /// The fixed launch instant of the network.
    pub fn launch_date(&self) -> (r: Timestamp)
        ensures
            r == self.launch_date_spec(),
            r.wf(),
    {
        match self {
            Network::Alpha => Timestamp { millis: 1_690_000_000_000 },
            Network::Beta => Timestamp { millis: 1_700_000_000_000 },
            Network::RegTest => Timestamp { millis: 1_680_000_000_000 },
            Network::Testnet => Timestamp { millis: 1_710_000_000_000 },
        }
    }

    pub open spec fn launch_date_spec(self) -> Timestamp {
        match self {
            Network::Alpha => Timestamp { millis: 1_690_000_000_000 },
            Network::Beta => Timestamp { millis: 1_700_000_000_000 },
            Network::RegTest => Timestamp { millis: 1_680_000_000_000 },
            Network::Testnet => Timestamp { millis: 1_710_000_000_000 },
        }
    }

    /// Every named network, in tag order.
    pub fn all() -> (r: Vec<Network>)
        ensures
            r@ == seq![Network::Alpha, Network::Beta, Network::RegTest, Network::Testnet],
    {
        let mut out: Vec<Network> = Vec::new();
        out.push(Network::Alpha);
        out.push(Network::Beta);
        out.push(Network::RegTest);
        out.push(Network::Testnet);
        proof {
            assert(out@ =~= seq![Network::Alpha, Network::Beta, Network::RegTest, Network::Testnet]);
        }
        out
    }
}

/// An opaque bag of field elements attesting block validity.
#[derive(Clone, Debug, PartialEq, Eq)]
pub struct Proof(pub Vec<u64>);

/// How a block's validity is attested. Genesis and the dummy variant
/// short-circuit verification; the invalid variant never validates.
#[derive(Clone, Debug, PartialEq, Eq)]
pub enum BlockProof {
    Genesis,
    Invalid,
    SingleProof(Proof),
    DummyProof,
}

/// Everything of a block but its proof: what the block digest commits to.
#[derive(Clone, Debug)]
pub struct BlockKernel {
    pub header: BlockHeader,
    pub body: BlockBody,
}

/// The ordered MAST field encodings of a block kernel: the header's
/// encoding and the body's MAST hash.
pub open spec fn kernel_sequences(k: BlockKernel) -> Seq<Seq<u64>> {
    seq![header_enc(k.header), body_mast_hash(k.body)]
}

/// The block digest: the MAST hash of the block kernel.
pub open spec fn block_kernel_hash(k: BlockKernel) -> Seq<u64> {
    mast_root_of(kernel_sequences(k))
}

/// Why a candidate block is rejected.
#[derive(Clone, Copy, Debug, PartialEq, Eq, Structural, Hash)]
pub enum RejectReason {
    HeightMismatch,
    PrevDigestMismatch,
    BlockMmrMismatch,
    TimestampTooEarly,
    TimestampTooFarFuture,
    DifficultyMismatch,
    RemovalNotAllowed,
    DuplicateRemoval,
    MutatorSetMismatch,
    TransactionTimestampAfterBlock,
    CoinbaseTooLarge,
    ProofInvalid,
    MsUpdateFailed,
}

/// A block: its kernel, its proof, and the kernel's digest, computed when
/// the block is built and kept current by every mutator.
#[derive(Clone, Debug)]
pub struct Block {
    kernel: BlockKernel,
    pub proof: BlockProof,
    digest: Digest,
}

/// The subsidy after a number of completed generations: one hundred coin
/// units, halved (rounding down) per generation.
pub open spec fn reward_of(generation: nat) -> nat
    decreases generation,
{
    if generation == 0 {
        100
    } else {
        reward_of((generation - 1) as nat) / 2
    }
}

/// Once the halving reaches zero it stays there.
proof fn lemma_reward_zero_stays(g: nat, h: nat)
    requires
        g <= h,
        reward_of(g) == 0,
    ensures
        reward_of(h) == 0,
    decreases h - g,
{
    if g < h {
        lemma_reward_zero_stays(g, (h - 1) as nat);
    }
}

/// Compute the digest of a kernel given as header and body.
fn compute_kernel_digest(header: &BlockHeader, body: &BlockBody) -> (r: Digest)
    requires
        header.wf(),
        body.wf(),
    ensures
        r@ == block_kernel_hash(BlockKernel { header: *header, body: *body }),
        r.wf(),
{
    let header_seq = header.encode();
    let body_hash = body.mast_hash();
    let mut body_seq: Vec<u64> = Vec::new();
    push_digest(&mut body_seq, &body_hash);
    let mut sequences: Vec<Vec<u64>> = Vec::new();
    sequences.push(header_seq);
    sequences.push(body_seq);
    proof {
        let k = BlockKernel { header: *header, body: *body };
        assert(body_seq@ =~= body_mast_hash(k.body));
        assert(crate::mast::felt_seqs_view(sequences@) =~= kernel_sequences(k));
        assert forall|i: int| 0 <= i < sequences@.len() implies crate::encoding::felts_ok(
            (#[trigger] sequences@[i])@,
        ) by {
            if i == 1 {
                assert(sequences@[1]@ == body_seq@);
            }
        }
    }
    mast_root(&sequences)
}

impl Block {
    /// The block's digest is always the MAST hash of its current kernel.
    pub closed spec fn wf(self) -> bool {
        &&& self.kernel.header.wf()
        &&& self.kernel.body.wf()
        &&& self.digest@ == block_kernel_hash(self.kernel)
        &&& self.digest.wf()
    }

    pub closed spec fn header_spec(self) -> BlockHeader {
        self.kernel.header
    }

    pub closed spec fn proof_spec(self) -> BlockProof {
        self.proof
    }

    pub closed spec fn body_spec(self) -> BlockBody {
        self.kernel.body
    }

    /// The limbs of the block digest.
    pub closed spec fn hash_spec(self) -> Seq<u64> {
        block_kernel_hash(self.kernel)
    }

    /// Compose a block; its digest is computed here.
    pub fn new(header: BlockHeader, body: BlockBody, block_proof: BlockProof) -> (r: Block)
        requires
            header.wf(),
            body.wf(),
        ensures
            r.wf(),
            r.header_spec() == header,
            r.body_spec() == body,
            r.proof_spec() == block_proof,
    {
        let digest = compute_kernel_digest(&header, &body);
        Block { kernel: BlockKernel { header, body }, proof: block_proof, digest }
    }

    /// Whether two blocks carry the same digest. Block equality compares
    /// digests only: two blocks with the same kernel are the same block,
    /// whatever their proofs.
    pub fn eq_by_digest(&self, other: &Block) -> (r: bool)
        requires
            self.wf(),
            other.wf(),
        ensures
            r == (self.hash_spec() == other.hash_spec()),
    {
        digest_eq(&self.digest, &other.digest)
    }

    /// The block digest.
    pub fn hash(&self) -> (r: Digest)
        requires
            self.wf(),
        ensures
            r@ == self.hash_spec(),
            r.wf(),
    {
        self.digest
    }

    pub fn header(&self) -> (r: &BlockHeader)
        ensures
            *r == self.header_spec(),
    {
        &self.kernel.header
    }

    pub fn body(&self) -> (r: &BlockBody)
        ensures
            *r == self.body_spec(),
    {
        &self.kernel.body
    }

    /// Replace the header nonce; the digest is recomputed.
    pub fn set_header_nonce(&mut self, nonce: [u64; 3])
        requires
            old(self).wf(),
            nonce[0] < FIELD_PRIME,
            nonce[1] < FIELD_PRIME,
            nonce[2] < FIELD_PRIME,
        ensures
            final (self).wf(),
            final (self).header_spec() == (BlockHeader { nonce, ..old(self).header_spec() }),
            final (self).body_spec() == old(self).body_spec(),
            final (self).proof_spec() == old(self).proof_spec(),
    {
        self.kernel.header.nonce = nonce;
        let digest = compute_kernel_digest(&self.kernel.header, &self.kernel.body);
        self.digest = digest;
    }

    /// Replace the header timestamp and difficulty as a pair (the
    /// difficulty depends on the timestamp); the digest is recomputed.
    pub fn set_header_timestamp_and_difficulty(&mut self, timestamp: Timestamp, difficulty: Difficulty)
        requires
            old(self).wf(),
            timestamp.wf(),
        ensures
            final (self).wf(),
            final (self).header_spec() == (BlockHeader {
                timestamp,
                difficulty,
                ..old(self).header_spec()
            }),
            final (self).body_spec() == old(self).body_spec(),
            final (self).proof_spec() == old(self).proof_spec(),
    {
        self.kernel.header.timestamp = timestamp;
        self.kernel.header.difficulty = difficulty;
        let digest = compute_kernel_digest(&self.kernel.header, &self.kernel.body);
        self.digest = digest;
    }

    /// Become the given block, digest included.
    pub fn set_block(&mut self, block: Block)
        ensures
            *final (self) == block,
    {
        *self = block;
    }

    /// The block subsidy at a height.
    pub fn get_mining_reward(block_height: u64) -> (r: Amount)
        ensures
            r.0 == reward_of((block_height / BLOCKS_PER_GENERATION) as nat),
    {
        let generation: u64 = block_height / BLOCKS_PER_GENERATION;
        let mut reward = Amount::new(100);
        let mut i: u64 = 0;
        while i < generation && !reward.is_zero()
            invariant
                0 <= i <= generation,
                reward.0 == reward_of(i as nat),
            decreases generation - i,
        {
            reward.div_two();
            i = i + 1;
        }
        proof {
            if i < generation {
                lemma_reward_zero_stays(i as nat, (generation) as nat);
            }
        }
        reward
    }

    /// What the proof-of-work check answers: the block digest, read as an
    /// integer, is at most the threshold the parent's difficulty induces.
    pub open spec fn pow_spec(self, parent: Block) -> bool {
        parent.header_spec().difficulty.value() >= 1 && digest_val(self.hash_spec())
            <= target_spec(parent.header_spec().difficulty.value())
    }

    /// Whether the block solves the proof-of-work puzzle its parent set.
    pub fn has_proof_of_work(&self, previous_block: &Block) -> (r: bool)
        requires
            self.wf(),
            previous_block.wf(),
        ensures
            r == self.pow_spec(*previous_block),
    {
        let d = &previous_block.kernel.header.difficulty;
        if d.lo == 0 && d.hi == 0 {
            proof {
                crate::difficulty::lemma_difficulty_value_in_range(*d);
                assert((d.lo == 0 && d.hi == 0) ==> d.value() == 0);
            }
            return false;
        }
        proof {
            assert(d.value() >= 1) by {
                crate::difficulty::lemma_difficulty_value_in_range(*d);
                if d.lo > 0 {
                } else {
                    assert(d.hi >= 1);
                    assert(d.hi * crate::difficulty::pow128() >= crate::difficulty::pow128())
                        by (nonlinear_arith)
                        requires
                            d.hi >= 1,
                    ;
                }
            }
        }
        let threshold = target(d);
        let h = self.hash();
        h.is_at_most(&threshold)
    }
}

/// One premine grant: who receives it and how much.
#[derive(Clone, Copy, Debug, PartialEq, Eq, Structural)]
pub struct PremineRecipient {
    pub receiver_digest: Digest,
    pub amount: Amount,
}

/// The premine amounts, in coin units.
pub open spec fn premine_amounts() -> Seq<u128> {
    seq![20u128, 1337u128, 42u128]
}

/// The total premine: the sum of the grants.
pub open spec fn premine_total() -> int {
    20int + 1337int + 42int
}

/// The premine never exceeds its cap of 831 600 coin units.
pub proof fn lemma_premine_cap()
    ensures
        premine_total() == premine_amounts()[0] + premine_amounts()[1] + premine_amounts()[2],
        premine_total() <= 831_600,
{
}

impl Block {
    /// The fixed premine grants: the authority receivers and their
    /// amounts, hard-coded for every network.
    pub fn premine_distribution() -> (r: Vec<PremineRecipient>)
        ensures
            r@.len() == 3,
            forall|i: int|
                0 <= i < 3 ==> (#[trigger] r@[i]).amount.0 == premine_amounts()[i],
            forall|i: int| 0 <= i < 3 ==> (#[trigger] r@[i]).receiver_digest.wf(),
            forall|i: int|
                0 <= i < 3 ==> (#[trigger] r@[i]).receiver_digest@ == premine_receiver(i),
    {
        let mut out: Vec<PremineRecipient> = Vec::new();
        out.push(
            PremineRecipient {
                receiver_digest: Digest::new(1, 0, 0, 0, 0),
                amount: Amount::new(20),
            },
        );
        out.push(
            PremineRecipient {
                receiver_digest: Digest::new(2, 0, 0, 0, 0),
                amount: Amount::new(1337),
            },
        );
        out.push(
            PremineRecipient {
                receiver_digest: Digest::new(3, 0, 0, 0, 0),
                amount: Amount::new(42),
            },
        );
        out
    }

    /// The network-tagged sender randomness of the premine outputs. The
    /// tag flows into every premine commitment, so the genesis mutator
    /// sets of distinct networks differ.
    pub fn premine_sender_randomness(network: Network) -> (r: Digest)
        ensures
            r@ == seq![network.tag_spec(), 0u64, 0u64, 0u64, 0u64],
            r.wf(),
    {
        let t = network.tag();
        Digest::new(t, 0, 0, 0, 0)
    }

    /// The item digests of the premine outputs: each grant hashed through
    /// its receiver and amount.
    pub fn premine_utxos(network: Network) -> (r: Vec<Digest>)
        ensures
            r@.len() == 3,
            forall|i: int| 0 <= i < 3 ==> (#[trigger] r@[i]).wf(),
            forall|i: int| 0 <= i < 3 ==> (#[trigger] r@[i])@ == premine_item(i),
    {
        let distribution = Self::premine_distribution();
        let mut out: Vec<Digest> = Vec::new();
        let mut i: usize = 0;
        while i < distribution.len()
            invariant
                0 <= i <= 3,
                distribution@.len() == 3,
                forall|j: int|
                    0 <= j < 3 ==> (#[trigger] distribution@[j]).amount.0 == premine_amounts()[j],
                forall|j: int| 0 <= j < 3 ==> (#[trigger] distribution@[j]).receiver_digest.wf(),
                forall|j: int|
                    0 <= j < 3 ==> (#[trigger] distribution@[j]).receiver_digest@
                        == premine_receiver(j),
                out@.len() == i,
                forall|j: int| 0 <= j < i ==> (#[trigger] out@[j]).wf(),
                forall|j: int| 0 <= j < i ==> (#[trigger] out@[j])@ == premine_item(j),
            decreases 3 - i,
        {
            let p = &distribution[i];
            let mut enc: Vec<u64> = Vec::new();
            push_digest(&mut enc, &p.receiver_digest);
            crate::encoding::push_u128(&mut enc, p.amount.0);
            proof {
                assert(enc@ =~= premine_receiver(i as int) + crate::encoding::enc_u128(
                    premine_amounts()[i as int],
                ));
                crate::encoding::lemma_enc_u128_ok(p.amount.0);
                assert forall|j: int| 0 <= j < enc@.len() implies #[trigger] enc@[j]
                    < FIELD_PRIME by {
                    if j < 5 {
                        assert(enc@[j] == p.receiver_digest@[j]);
                    } else {
                        assert(enc@[j] == crate::encoding::enc_u128(p.amount.0)[j - 5]);
                    }
                }
            }
            let item = hash_varlen(&enc);
            out.push(item);
            i = i + 1;
        }
        out
    }

    /// Build the deterministic genesis block of a network: a coinbase-only
    /// transaction whose outputs are the premine commitments, a mutator
    /// set holding exactly those outputs, empty ancestry accumulators, and
    /// a header at height zero with the minimum difficulty.
    pub fn genesis_block(network: Network) -> (r: Block)
        ensures
            r.wf(),
            r.header_spec().height == 0,
            r.header_spec().version == 0,
            r.header_spec().prev_block_digest@ == seq![0u64, 0u64, 0u64, 0u64, 0u64],
            r.header_spec().timestamp == network.launch_date_spec(),
            r.header_spec().difficulty.value() == MINIMUM_DIFFICULTY,
            r.header_spec().cumulative_proof_of_work.value() == 0,
            r.header_spec().nonce == [0u64, 0u64, 0u64],
            r.header_spec().max_block_size == 10_000,
            r.proof_spec() == BlockProof::Genesis,
            r.body_spec().transaction_kernel.inputs@.len() == 0,
            r.body_spec().transaction_kernel.public_announcements@.len() == 0,
            r.body_spec().transaction_kernel.outputs@.len() == 3,
            forall|i: int|
                0 <= i < 3 ==> (#[trigger] r.body_spec().transaction_kernel.outputs@[i])
                    .canonical_commitment@ == premine_commitment(network, i),
            r.body_spec().transaction_kernel.coinbase == Some(Amount(premine_total() as u128)),
            r.body_spec().transaction_kernel.fee.0 == 0,
            r.body_spec().transaction_kernel.timestamp == network.launch_date_spec(),
            // The kernel's set hash is the commitment to the set *before*
            // the premine transaction: the empty set.
            r.body_spec().transaction_kernel.mutator_set_hash@ == crate::mutator_set::msa_state_hash(
                crate::mutator_set::MsaState {
                    aocl: Seq::empty(),
                    inactive: Seq::empty(),
                    active: Seq::empty(),
                },
            ),
            r.body_spec().mutator_set_accumulator.state() == crate::mutator_set::msa_adds(
                crate::mutator_set::MsaState {
                    aocl: Seq::empty(),
                    inactive: Seq::empty(),
                    active: Seq::empty(),
                },
                crate::mutator_set::additions_commitments(
                    r.body_spec().transaction_kernel.outputs@,
                ),
            ),
            mmr_leafs(r.body_spec().block_mmr_accumulator) == Seq::<Seq<u64>>::empty(),
            mmr_leafs(r.body_spec().lock_free_mmr_accumulator) == Seq::<Seq<u64>>::empty(),
    {
        let items = Self::premine_utxos(network);
        let distribution = Self::premine_distribution();
        let sender_randomness = Self::premine_sender_randomness(network);
        let mut genesis_mutator_set = MutatorSetAccumulator::default();
        let ghost empty_state = genesis_mutator_set.state();
        let mut genesis_tx_outputs: Vec<crate::mutator_set::AdditionRecord> = Vec::new();
        let mut i: usize = 0;
        while i < 3
            invariant
                0 <= i <= 3,
                items@.len() == 3,
                distribution@.len() == 3,
                forall|j: int| 0 <= j < 3 ==> (#[trigger] items@[j]).wf(),
                forall|j: int| 0 <= j < 3 ==> (#[trigger] items@[j])@ == premine_item(j),
                forall|j: int| 0 <= j < 3 ==> (#[trigger] distribution@[j]).receiver_digest.wf(),
                forall|j: int|
                    0 <= j < 3 ==> (#[trigger] distribution@[j]).receiver_digest@
                        == premine_receiver(j),
                sender_randomness@ == seq![network.tag_spec(), 0u64, 0u64, 0u64, 0u64],
                sender_randomness.wf(),
                empty_state == (crate::mutator_set::MsaState {
                    aocl: Seq::<Seq<u64>>::empty(),
                    inactive: Seq::<Seq<u64>>::empty(),
                    active: Seq::<u64>::empty(),
                }),
                genesis_tx_outputs@.len() == i,
                forall|j: int|
                    0 <= j < i ==> (#[trigger] genesis_tx_outputs@[j]).canonical_commitment@
                        == premine_commitment(network, j),
                forall|j: int|
                    0 <= j < i ==> (#[trigger] genesis_tx_outputs@[j]).canonical_commitment.wf(),
                genesis_mutator_set.wf(),
                genesis_mutator_set.state() == crate::mutator_set::msa_adds(
                    empty_state,
                    crate::mutator_set::additions_commitments(genesis_tx_outputs@),
                ),
                genesis_mutator_set.aocl_leafs().len() == i,
            decreases 3 - i,
        {
            let addition_record = commit(
                &items[i],
                &sender_randomness,
                &distribution[i].receiver_digest,
            );
            let ghost pre_outputs = genesis_tx_outputs@;
            genesis_mutator_set.add(&addition_record);
            genesis_tx_outputs.push(addition_record);
            proof {
                let post = crate::mutator_set::additions_commitments(genesis_tx_outputs@);
                assert(post.drop_last() =~= crate::mutator_set::additions_commitments(
                    pre_outputs,
                ));
                assert(post.last() == addition_record.canonical_commitment@);
            }
            i = i + 1;
        }
        let default_msa = MutatorSetAccumulator::default();
        let msh = default_msa.hash();
        let genesis_txk = TransactionKernel {
            inputs: Vec::new(),
            outputs: genesis_tx_outputs,
            public_announcements: Vec::new(),
            fee: Amount::new(0),
            coinbase: Some(Amount::new(1399)),
            timestamp: network.launch_date(),
            mutator_set_hash: msh,
        };
        let body = BlockBody::new(genesis_txk, genesis_mutator_set, mmr_new(), mmr_new());
        let header = BlockHeader {
            version: 0,
            height: 0,
            prev_block_digest: Digest::zero(),
            timestamp: network.launch_date(),
            nonce: [0, 0, 0],
            max_block_size: 10_000,
            cumulative_proof_of_work: Difficulty::zero(),
            difficulty: Difficulty::minimum(),
        };
        Self::new(header, body, BlockProof::Genesis)
    }
}

/// A block as it travels the wire: header, body, and a bare proof blob.
/// The digest is not carried; it is recomputed on arrival.
#[derive(Clone, Debug)]
pub struct TransferBlock {
    pub header: BlockHeader,
    pub body: BlockBody,
    pub proof: Proof,
}

impl Block {
    /// Rebuild a block from its wire form; an empty proof blob stands for
    /// the dummy proof.
    pub fn from_transfer_block(t: TransferBlock) -> (r: Block)
        requires
            t.header.wf(),
            t.body.wf(),
        ensures
            r.wf(),
            r.header_spec() == t.header,
            r.body_spec() == t.body,
            t.proof.0@.len() == 0 ==> r.proof_spec() == BlockProof::DummyProof,
            t.proof.0@.len() > 0 ==> r.proof_spec() == BlockProof::SingleProof(t.proof),
    {
        let TransferBlock { header, body, proof } = t;
        let block_proof = if proof.0.len() == 0 {
            BlockProof::DummyProof
        } else {
            BlockProof::SingleProof(proof)
        };
        Self::new(header, body, block_proof)
    }

    /// The wire form of a block. The genesis and invalid variants carry no
    /// transferable proof, so they have no wire form. A well-formed block
    /// yields a well-formed wire block, so the round trip back through
    /// `from_transfer_block` is always open.
    pub fn to_transfer_block(self) -> (r: Option<TransferBlock>)
        ensures
            match self.proof_spec() {
                BlockProof::SingleProof(p) => r matches Some(t) && t.header == self.header_spec()
                    && t.body == self.body_spec() && t.proof == p,
                BlockProof::DummyProof => r matches Some(t) && t.header == self.header_spec()
                    && t.body == self.body_spec() && t.proof.0@.len() == 0,
                BlockProof::Genesis => r is None,
                BlockProof::Invalid => r is None,
            },
            self.wf() && r is Some ==> r->Some_0.header.wf() && r->Some_0.body.wf(),
    {
        let header = self.kernel.header;
        let body = self.kernel.body;
        match self.proof {
            BlockProof::SingleProof(p) => Some(TransferBlock { header, body, proof: p }),
            BlockProof::DummyProof => Some(
                TransferBlock { header, body, proof: Proof(Vec::new()) },
            ),
            BlockProof::Genesis => None,
            BlockProof::Invalid => None,
        }
    }
}

/// Two distinct networks tag their premine sender randomness differently,
/// so the preimages of their genesis output commitments differ. That the
/// commitments and set hashes themselves differ is a hash-distinctness
/// fact beyond any contract; the genesis test checks it on every network
/// pair.
pub proof fn lemma_genesis_randomness_distinct(n1: Network, n2: Network)
    requires
        n1 != n2,
    ensures
        seq![n1.tag_spec(), 0u64, 0u64, 0u64, 0u64] != seq![n2.tag_spec(), 0u64, 0u64, 0u64, 0u64],
{
    assert(n1.tag_spec() != n2.tag_spec());
    assert(seq![n1.tag_spec(), 0u64, 0u64, 0u64, 0u64][0] != seq![
        n2.tag_spec(),
        0u64,
        0u64,
        0u64,
        0u64,
    ][0]);
}

/// Any header mutation feeds a different preimage into the block digest:
/// the header's encoding is injective, so two well-formed blocks with
/// different headers hash different kernel sequences. The digests
/// themselves differing is then a hash-distinctness fact beyond any
/// contract, checked by test.
pub proof fn lemma_header_mutation_changes_preimage(a: Block, b: Block)
    requires
        a.wf(),
        b.wf(),
        a.header_spec() != b.header_spec(),
    ensures
        kernel_sequences(BlockKernel { header: a.header_spec(), body: a.body_spec() })
            != kernel_sequences(BlockKernel { header: b.header_spec(), body: b.body_spec() }),
{
    let ka = BlockKernel { header: a.header_spec(), body: a.body_spec() };
    let kb = BlockKernel { header: b.header_spec(), body: b.body_spec() };
    if kernel_sequences(ka) == kernel_sequences(kb) {
        assert(kernel_sequences(ka)[0] == kernel_sequences(kb)[0]);
        crate::block_header::lemma_header_enc_injective(a.header_spec(), b.header_spec());
    }
}

/// The block digest is a function of the block's kernel alone: two blocks
/// whose headers agree and whose body field encodings agree carry the same
/// digest, however either was built, cloned or transported.
pub proof fn lemma_digest_deterministic(a: Block, b: Block)
    requires
        a.wf(),
        b.wf(),
        a.header_spec() == b.header_spec(),
        crate::block_body::body_sequences(a.body_spec()) == crate::block_body::body_sequences(
            b.body_spec(),
        ),
    ensures
        a.hash_spec() == b.hash_spec(),
{
    assert(kernel_sequences(a.kernel) =~= kernel_sequences(b.kernel));
}

/// The fixed receiver digest of premine grant `i`.
pub open spec fn premine_receiver(i: int) -> Seq<u64> {
    seq![(i + 1) as u64, 0u64, 0u64, 0u64, 0u64]
}

/// The item digest of premine grant `i`.
pub open spec fn premine_item(i: int) -> Seq<u64> {
    crate::hashing::hash_varlen_of(
        premine_receiver(i) + crate::encoding::enc_u128(premine_amounts()[i]),
    )
}

/// The output commitment of premine grant `i` on a network.
pub open spec fn premine_commitment(network: Network, i: int) -> Seq<u64> {
    crate::mutator_set::commit_of(
        premine_item(i),
        seq![network.tag_spec(), 0u64, 0u64, 0u64, 0u64],
        premine_receiver(i),
    )
}

/// Whether two digests carry the same limbs.
fn digest_eq(a: &Digest, b: &Digest) -> (r: bool)
    ensures
        r == (a@ == b@),
{
    let r = a.l0 == b.l0 && a.l1 == b.l1 && a.l2 == b.l2 && a.l3 == b.l3 && a.l4 == b.l4;
    proof {
        if a@ == b@ {
            assert(a.l0 == a@[0] && b.l0 == b@[0]);
            assert(a.l1 == a@[1] && b.l1 == b@[1]);
            assert(a.l2 == a@[2] && b.l2 == b@[2]);
            assert(a.l3 == a@[3] && b.l3 == b@[3]);
            assert(a.l4 == a@[4] && b.l4 == b@[4]);
        }
    }
    r
}

/// Whether two digest lists carry the same limbs, entry for entry.
fn digest_list_eq(a: &Vec<Digest>, b: &Vec<Digest>) -> (r: bool)
    ensures
        r == (digests_view(a@) == digests_view(b@)),
{
    if a.len() != b.len() {
        proof {
            assert(digests_view(a@).len() != digests_view(b@).len());
        }
        return false;
    }
    let mut i: usize = 0;
    while i < a.len()
        invariant
            0 <= i <= a@.len(),
            a@.len() == b@.len(),
            forall|j: int| 0 <= j < i ==> (#[trigger] a@[j])@ == b@[j]@,
        decreases a@.len() - i,
    {
        if !digest_eq(&a[i], &b[i]) {
            proof {
                assert(digests_view(a@)[i as int] != digests_view(b@)[i as int]);
            }
            return false;
        }
        i = i + 1;
    }
    proof {
        assert(digests_view(a@) =~= digests_view(b@));
    }
    true
}

/// Whether two index lists are equal.
fn u128_list_eq(a: &Vec<u128>, b: &Vec<u128>) -> (r: bool)
    ensures
        r == (a@ == b@),
{
    if a.len() != b.len() {
        return false;
    }
    let mut i: usize = 0;
    while i < a.len()
        invariant
            0 <= i <= a@.len(),
            a@.len() == b@.len(),
            forall|j: int| 0 <= j < i ==> a@[j] == b@[j],
        decreases a@.len() - i,
    {
        if a[i] != b[i] {
            return false;
        }
        i = i + 1;
    }
    proof {
        assert(a@ =~= b@);
    }
    true
}

/// All of the update's removal index sets still sit in the parent's
/// window.
pub open spec fn removals_in_window(
    inputs: Seq<crate::mutator_set::RemovalRecord>,
    offset: int,
) -> bool {
    forall|i: int|
        0 <= i < inputs.len() ==> crate::mutator_set::indices_in_window(
            (#[trigger] inputs[i]).absolute_indices@,
            offset,
        )
}

/// The input index sets are pairwise distinct.
pub open spec fn inputs_distinct(inputs: Seq<crate::mutator_set::RemovalRecord>) -> bool {
    forall|i: int, j: int|
        0 <= i < j < inputs.len() ==> (#[trigger] inputs[i]).absolute_indices@ != (
        #[trigger] inputs[j]).absolute_indices@
}

/// The mutator-set state the parent's set reaches under the candidate's
/// transaction.
pub open spec fn updated_msa_state(candidate: Block, parent: Block) -> crate::mutator_set::MsaState {
    crate::mutator_set::msa_adds(
        crate::mutator_set::msa_removes(
            parent.body_spec().mutator_set_accumulator.state(),
            crate::mutator_set::records_indices(candidate.body_spec().transaction_kernel.inputs@),
        ),
        crate::mutator_set::additions_commitments(
            candidate.body_spec().transaction_kernel.outputs@,
        ),
    )
}

/// The chain-linkage rules: height, parent digest, ancestry accumulator,
/// spacing, difficulty retarget and future limit all hold.
pub open spec fn linkage_ok(
    candidate: Block,
    parent: Block,
    now: Timestamp,
    target_block_interval: Option<Timestamp>,
    minimum_block_time: Option<Timestamp>,
) -> bool {
    let ch = candidate.header_spec();
    let cb = candidate.body_spec();
    let ph = parent.header_spec();
    let pb = parent.body_spec();
    let min_time = match minimum_block_time {
        Some(t) => t.millis as int,
        None => MINIMUM_BLOCK_TIME_MILLIS as int,
    };
    let interval = match target_block_interval {
        Some(t) => t.millis as int,
        None => TARGET_BLOCK_INTERVAL_MILLIS as int,
    };
    let expected_mmr = mmr_leafs(pb.block_mmr_accumulator).push(parent.hash_spec());
    &&& ch.height == ph.height + 1
    &&& ch.prev_block_digest@ == parent.hash_spec()
    &&& mmr_leafs(cb.block_mmr_accumulator).len() == expected_mmr.len()
    &&& mmr_peaks_of(mmr_leafs(cb.block_mmr_accumulator)) == mmr_peaks_of(expected_mmr)
    &&& ph.timestamp.millis + min_time <= ch.timestamp.millis
    &&& ch.difficulty.value() == difficulty_control_spec(
        ch.timestamp,
        ph.timestamp,
        ph.difficulty,
        interval,
        ph.height as int,
    )
    &&& ch.timestamp.millis < now.millis + 7_200_000
}

/// Every input of the candidate can still be removed from the parent's
/// set.
pub open spec fn removals_allowed(candidate: Block, parent: Block) -> bool {
    forall|i: int|
        0 <= i < candidate.body_spec().transaction_kernel.inputs@.len()
            ==> parent.body_spec().mutator_set_accumulator.spec_can_remove(
            #[trigger] candidate.body_spec().transaction_kernel.inputs@[i],
        )
}

/// The acceptance verdict on a candidate block, rule by rule, in the
/// order the rules are checked: chain linkage first, then transaction
/// consistency. The first failing rule names the rejection. `proof_ok` is
/// the opaque proof verifier's verdict on the block's transaction and
/// proof, consumed from the collaborator that runs it; it is consulted
/// only for a carried proof, since the genesis and dummy variants
/// short-circuit verification and the invalid variant never passes.
pub open spec fn validate_spec(
    candidate: Block,
    parent: Block,
    now: Timestamp,
    target_block_interval: Option<Timestamp>,
    minimum_block_time: Option<Timestamp>,
    proof_ok: bool,
) -> Result<(), RejectReason> {
    let ch = candidate.header_spec();
    let cb = candidate.body_spec();
    let ph = parent.header_spec();
    let pb = parent.body_spec();
    let min_time = match minimum_block_time {
        Some(t) => t.millis as int,
        None => MINIMUM_BLOCK_TIME_MILLIS as int,
    };
    let interval = match target_block_interval {
        Some(t) => t.millis as int,
        None => TARGET_BLOCK_INTERVAL_MILLIS as int,
    };
    let expected_mmr = mmr_leafs(pb.block_mmr_accumulator).push(parent.hash_spec());
    if ch.height != ph.height + 1 {
        Err(RejectReason::HeightMismatch)
    } else if ch.prev_block_digest@ != parent.hash_spec() {
        Err(RejectReason::PrevDigestMismatch)
    } else if !(mmr_leafs(cb.block_mmr_accumulator).len() == expected_mmr.len() && mmr_peaks_of(
        mmr_leafs(cb.block_mmr_accumulator),
    ) == mmr_peaks_of(expected_mmr)) {
        Err(RejectReason::BlockMmrMismatch)
    } else if ph.timestamp.millis + min_time > ch.timestamp.millis {
        Err(RejectReason::TimestampTooEarly)
    } else if ch.difficulty.value() != difficulty_control_spec(
        ch.timestamp,
        ph.timestamp,
        ph.difficulty,
        interval,
        ph.height as int,
    ) {
        Err(RejectReason::DifficultyMismatch)
    } else if ch.timestamp.millis >= now.millis + 7_200_000 {
        Err(RejectReason::TimestampTooFarFuture)
    } else if !(forall|i: int|
        0 <= i < cb.transaction_kernel.inputs@.len()
            ==> pb.mutator_set_accumulator.spec_can_remove(
            #[trigger] cb.transaction_kernel.inputs@[i],
        )) {
        Err(RejectReason::RemovalNotAllowed)
    } else if !inputs_distinct(cb.transaction_kernel.inputs@) {
        Err(RejectReason::DuplicateRemoval)
    } else if !removals_in_window(
        cb.transaction_kernel.inputs@,
        pb.mutator_set_accumulator.offset(),
    ) {
        Err(RejectReason::MsUpdateFailed)
    } else if crate::mutator_set::msa_state_hash(updated_msa_state(candidate, parent))
        != cb.mutator_set_accumulator.hash_spec() {
        Err(RejectReason::MutatorSetMismatch)
    } else if cb.transaction_kernel.timestamp.millis > ch.timestamp.millis {
        Err(RejectReason::TransactionTimestampAfterBlock)
    } else if (match cb.transaction_kernel.coinbase {
        Some(claimed) => claimed.0 > reward_of((ch.height / BLOCKS_PER_GENERATION) as nat)
            + cb.transaction_kernel.fee.0,
        None => false,
    }) {
        Err(RejectReason::CoinbaseTooLarge)
    } else if candidate.proof_spec() is Invalid || (candidate.proof_spec() is SingleProof
        && !proof_ok) {
        Err(RejectReason::ProofInvalid)
    } else {
        Ok(())
    }
}

impl Block {
    /// Judge a candidate block against its parent: every chain-linkage
    /// and transaction-consistency rule, in order, with the first failing
    /// rule as the verdict. The proof-of-work check is separate, in
    /// `has_proof_of_work`. `proof_verdict` is the opaque verifier's
    /// answer on the block's transaction and proof, obtained by the
    /// caller from that collaborator; a rejected carried proof fails as
    /// `ProofInvalid`. Custom block spacing parameters may replace the
    /// network defaults.
    pub fn validate_with_verifier(
        &self,
        previous_block: &Block,
        now: Timestamp,
        target_block_interval: Option<Timestamp>,
        minimum_block_time: Option<Timestamp>,
        proof_verdict: bool,
    ) -> (r: Result<(), RejectReason>)
        requires
            self.wf(),
            previous_block.wf(),
            previous_block.body_spec().mutator_set_accumulator.aocl_leafs().len()
                + self.body_spec().transaction_kernel.outputs@.len()
                < 0x4000_0000_0000_0000,
        ensures
            r == validate_spec(
                *self,
                *previous_block,
                now,
                target_block_interval,
                minimum_block_time,
                proof_verdict,
            ),
    {
        let ch = &self.kernel.header;
        let cb = &self.kernel.body;
        let ph = &previous_block.kernel.header;
        let pb = &previous_block.kernel.body;
        // 0.a: the height is the parent's plus one.
        if ch.height != ph.height + 1 {
            return Err(RejectReason::HeightMismatch);
        }
        // 0.b: the header points at the parent.
        let parent_hash = previous_block.hash();
        if !digest_eq(&ch.prev_block_digest, &parent_hash) {
            return Err(RejectReason::PrevDigestMismatch);
        }
        // 0.c: the block ancestry accumulator grew by exactly the parent.
        let mut expected_mmr = crate::mmr::mmr_clone(&pb.block_mmr_accumulator);
        let _ = crate::mmr::mmr_append(&mut expected_mmr, &parent_hash);
        let expected_peaks = crate::mmr::mmr_peaks(&expected_mmr);
        let candidate_peaks = crate::mmr::mmr_peaks(&cb.block_mmr_accumulator);
        let counts_match = crate::mmr::mmr_num_leafs(&cb.block_mmr_accumulator)
            == crate::mmr::mmr_num_leafs(&expected_mmr);
        if !(counts_match && digest_list_eq(&candidate_peaks, &expected_peaks)) {
            return Err(RejectReason::BlockMmrMismatch);
        }
        // 0.d: the block is no earlier than the parent plus the spacing.
        let min_time: u64 = match &minimum_block_time {
            Some(t) => t.millis,
            None => MINIMUM_BLOCK_TIME_MILLIS,
        };
        if (ph.timestamp.millis as u128) + (min_time as u128) > ch.timestamp.millis as u128 {
            return Err(RejectReason::TimestampTooEarly);
        }
        // 0.e: the difficulty was retargeted correctly.
        let expected_difficulty = difficulty_control(
            ch.timestamp,
            ph.timestamp,
            ph.difficulty,
            target_block_interval,
            ph.height,
        );
        proof {
            crate::difficulty::lemma_difficulty_eq_iff_value(
                self.header_spec().difficulty,
                expected_difficulty,
            );
        }
        if !(ch.difficulty == expected_difficulty) {
            return Err(RejectReason::DifficultyMismatch);
        }
        // 0.f: the block is not too far in the future.
        if ch.timestamp.millis as u128 >= (now.millis as u128) + 7_200_000 {
            return Err(RejectReason::TimestampTooFarFuture);
        }
        proof {
            assert(linkage_ok(
                *self,
                *previous_block,
                now,
                target_block_interval,
                minimum_block_time,
            ));
        }
        // 1.a-b: every input can still be removed from the parent's set.
        let mut i: usize = 0;
        while i < cb.transaction_kernel.inputs.len()
            invariant
                0 <= i <= cb.transaction_kernel.inputs@.len(),
                self.wf(),
                previous_block.wf(),
                pb.mutator_set_accumulator.wf(),
                cb == self.body_spec(),
                pb == previous_block.body_spec(),
                linkage_ok(*self, *previous_block, now, target_block_interval, minimum_block_time),
                forall|j: int|
                    0 <= j < i ==> pb.mutator_set_accumulator.spec_can_remove(
                        #[trigger] cb.transaction_kernel.inputs@[j],
                    ),
            decreases cb.transaction_kernel.inputs@.len() - i,
        {
            if !pb.mutator_set_accumulator.can_remove(&cb.transaction_kernel.inputs[i]) {
                return Err(RejectReason::RemovalNotAllowed);
            }
            i = i + 1;
        }
        proof {
            assert(removals_allowed(*self, *previous_block));
        }
        // 1.c: no two inputs share an index set.
        let n_inputs = cb.transaction_kernel.inputs.len();
        let mut a: usize = 0;
        while a < n_inputs
            invariant
                0 <= a <= n_inputs,
                n_inputs == cb.transaction_kernel.inputs@.len(),
                self.wf(),
                previous_block.wf(),
                cb == self.body_spec(),
                pb == previous_block.body_spec(),
                linkage_ok(*self, *previous_block, now, target_block_interval, minimum_block_time),
                removals_allowed(*self, *previous_block),
                forall|x: int, y: int|
                    0 <= x < y < n_inputs && x < a ==> (#[trigger] cb.transaction_kernel.inputs@[
                    x]).absolute_indices@ != (#[trigger] cb.transaction_kernel.inputs@[y])
                        .absolute_indices@,
            decreases n_inputs - a,
        {
            let mut b: usize = a + 1;
            while b < n_inputs
                invariant
                    a < n_inputs,
                    a + 1 <= b <= n_inputs,
                    n_inputs == cb.transaction_kernel.inputs@.len(),
                    self.wf(),
                    previous_block.wf(),
                    cb == self.body_spec(),
                    pb == previous_block.body_spec(),
                    linkage_ok(
                        *self,
                        *previous_block,
                        now,
                        target_block_interval,
                        minimum_block_time,
                    ),
                    removals_allowed(*self, *previous_block),
                    forall|x: int, y: int|
                        0 <= x < y < n_inputs && x < a ==> (
                        #[trigger] cb.transaction_kernel.inputs@[x]).absolute_indices@ != (
                        #[trigger] cb.transaction_kernel.inputs@[y]).absolute_indices@,
                    forall|y: int|
                        a < y < b ==> (#[trigger] cb.transaction_kernel.inputs@[y])
                            .absolute_indices@ != cb.transaction_kernel.inputs@[a as int]
                            .absolute_indices@,
                decreases n_inputs - b,
            {
                if u128_list_eq(
                    &cb.transaction_kernel.inputs[a].absolute_indices,
                    &cb.transaction_kernel.inputs[b].absolute_indices,
                ) {
                    return Err(RejectReason::DuplicateRemoval);
                }
                b = b + 1;
            }
            a = a + 1;
        }
        proof {
            assert(inputs_distinct(self.body_spec().transaction_kernel.inputs@));
        }
        // 1.d: applying the transaction to the parent's set yields the
        // candidate's set commitment.
        let mut simulated = pb.mutator_set_accumulator.clone();
        let update = crate::mutator_set::MutatorSetUpdate::new(
            crate::mutator_set::copy_removal_records(&cb.transaction_kernel.inputs),
            crate::mutator_set::copy_addition_records(&cb.transaction_kernel.outputs),
        );
        let applied = update.apply_to_accumulator(&mut simulated);
        if let Err(_) = applied {
            proof {
                assert(!removals_in_window(
                    self.body_spec().transaction_kernel.inputs@,
                    previous_block.body_spec().mutator_set_accumulator.offset(),
                ));
            }
            return Err(RejectReason::MsUpdateFailed);
        }
        proof {
            assert(removals_in_window(
                self.body_spec().transaction_kernel.inputs@,
                previous_block.body_spec().mutator_set_accumulator.offset(),
            )) by {
                assert forall|j: int|
                    0 <= j < self.body_spec().transaction_kernel.inputs@.len()
                        implies crate::mutator_set::indices_in_window(
                    (#[trigger] self.body_spec().transaction_kernel.inputs@[j]).absolute_indices@,
                    previous_block.body_spec().mutator_set_accumulator.offset(),
                ) by {
                    assert(update.removals@[j].absolute_indices@ == self.body_spec()
                        .transaction_kernel.inputs@[j].absolute_indices@);
                    assert(crate::mutator_set::indices_in_window(
                        update.removals@[j].absolute_indices@,
                        previous_block.body_spec().mutator_set_accumulator.offset(),
                    ));
                }
            }
            assert(crate::mutator_set::records_indices(update.removals@)
                == crate::mutator_set::records_indices(
                self.body_spec().transaction_kernel.inputs@,
            ));
            assert(simulated.state() == updated_msa_state(*self, *previous_block));
        }
        let simulated_hash = simulated.hash();
        let candidate_hash = cb.mutator_set_accumulator.hash();
        if !digest_eq(&simulated_hash, &candidate_hash) {
            return Err(RejectReason::MutatorSetMismatch);
        }
        // 1.e: the transaction is not dated after the block.
        if cb.transaction_kernel.timestamp.millis > ch.timestamp.millis {
            return Err(RejectReason::TransactionTimestampAfterBlock);
        }
        // 1.f: a claimed coinbase stays within the subsidy plus the fee.
        let miner_reward = Self::get_mining_reward(ch.height);
        match &cb.transaction_kernel.coinbase {
            Some(claimed) => {
                match miner_reward.checked_add(&cb.transaction_kernel.fee) {
                    Some(limit) => {
                        if !claimed.le(&limit) {
                            return Err(RejectReason::CoinbaseTooLarge);
                        }
                    },
                    None => {
                        // The subsidy plus the fee exceeds any amount, so
                        // no claim can be too large.
                    },
                }
            },
            None => {},
        }
        // 1.g: the proof attests validity: never the invalid variant, and
        // a carried proof only with the verifier's blessing.
        let attestation = &self.proof;
        match attestation {
            BlockProof::Invalid => {
                return Err(RejectReason::ProofInvalid);
            },
            BlockProof::SingleProof(_) => {
                if !proof_verdict {
                    return Err(RejectReason::ProofInvalid);
                }
            },
            _ => {},
        }
        Ok(())
    }

    /// Judge a candidate whose proof, if carried, has already been
    /// accepted by the verifier.
    pub fn validate_extended(
        &self,
        previous_block: &Block,
        now: Timestamp,
        target_block_interval: Option<Timestamp>,
        minimum_block_time: Option<Timestamp>,
    ) -> (r: Result<(), RejectReason>)
        requires
            self.wf(),
            previous_block.wf(),
            previous_block.body_spec().mutator_set_accumulator.aocl_leafs().len()
                + self.body_spec().transaction_kernel.outputs@.len()
                < 0x4000_0000_0000_0000,
        ensures
            r == validate_spec(
                *self,
                *previous_block,
                now,
                target_block_interval,
                minimum_block_time,
                true,
            ),
    {
        self.validate_with_verifier(
            previous_block,
            now,
            target_block_interval,
            minimum_block_time,
            true,
        )
    }

    /// Prepare a block for mining on a parent: apply the transaction to
    /// the parent's mutator set, extend the ancestry accumulator by the
    /// parent, retarget the difficulty, and assemble the header. Returns
    /// nothing when the transaction's removals are no longer applicable.
    /// A timestamp earlier than the parent's is lifted to one second past
    /// the parent.
    pub fn make_block_template(
        previous_block: &Block,
        transaction: TransactionKernel,
        block_timestamp: Timestamp,
        target_block_interval: Option<Timestamp>,
    ) -> (r: Option<(BlockHeader, BlockBody, BlockProof)>)
        requires
            previous_block.wf(),
            transaction.wf(),
            previous_block.body_spec().mutator_set_accumulator.aocl_leafs().len()
                + transaction.outputs@.len() < 0x4000_0000_0000_0000,
            previous_block.header_spec().height + 1 < 0x4000_0000_0000_0000,
            previous_block.header_spec().timestamp.millis + 1000 < FIELD_PRIME,
            block_timestamp.wf(),
            mmr_leafs(previous_block.body_spec().block_mmr_accumulator).len() + 1
                < 0x4000_0000_0000_0000,
        ensures
            r is Some <==> removals_in_window(
                transaction.inputs@,
                previous_block.body_spec().mutator_set_accumulator.offset(),
            ),
            r matches Some(t) ==> {
                let ts = if block_timestamp.millis < previous_block.header_spec().timestamp.millis {
                    Timestamp {
                        millis: (previous_block.header_spec().timestamp.millis + 1000) as u64,
                    }
                } else {
                    block_timestamp
                };
                &&& t.0.wf()
                &&& t.0.version == 0
                &&& t.0.height == previous_block.header_spec().height + 1
                &&& t.0.prev_block_digest@ == previous_block.hash_spec()
                &&& t.0.timestamp == ts
                &&& t.0.nonce == [0u64, 0u64, 0u64]
                &&& t.0.max_block_size == MAX_BLOCK_SIZE
                &&& t.0.difficulty.value() == difficulty_control_spec(
                    ts,
                    previous_block.header_spec().timestamp,
                    previous_block.header_spec().difficulty,
                    match target_block_interval {
                        Some(t) => t.millis as int,
                        None => TARGET_BLOCK_INTERVAL_MILLIS as int,
                    },
                    previous_block.header_spec().height as int,
                )
                &&& t.0.cumulative_proof_of_work.value() == (
                if previous_block.header_spec().cumulative_proof_of_work.value()
                    + previous_block.header_spec().difficulty.value()
                    <= crate::difficulty::max160() {
                    previous_block.header_spec().cumulative_proof_of_work.value()
                        + previous_block.header_spec().difficulty.value()
                } else {
                    crate::difficulty::max160()
                })
                &&& (previous_block.header_spec().height > 0
                    && previous_block.header_spec().difficulty.value() >= MINIMUM_DIFFICULTY
                    ==> t.0.difficulty.value() >= MINIMUM_DIFFICULTY)
                &&& t.1.wf()
                &&& t.1.transaction_kernel == transaction
                &&& t.1.mutator_set_accumulator.state() == crate::mutator_set::msa_adds(
                    crate::mutator_set::msa_removes(
                        previous_block.body_spec().mutator_set_accumulator.state(),
                        crate::mutator_set::records_indices(transaction.inputs@),
                    ),
                    crate::mutator_set::additions_commitments(transaction.outputs@),
                )
                &&& mmr_leafs(t.1.block_mmr_accumulator) == mmr_leafs(
                    previous_block.body_spec().block_mmr_accumulator,
                ).push(previous_block.hash_spec())
                &&& mmr_leafs(t.1.lock_free_mmr_accumulator) == Seq::<Seq<u64>>::empty()
                &&& t.2 == BlockProof::DummyProof
            },
    {
        let mut next_mutator_set = previous_block.kernel.body.mutator_set_accumulator.clone();
        let update = crate::mutator_set::MutatorSetUpdate::new(
            crate::mutator_set::copy_removal_records(&transaction.inputs),
            crate::mutator_set::copy_addition_records(&transaction.outputs),
        );
        let applied = update.apply_to_accumulator(&mut next_mutator_set);
        proof {
            assert(crate::mutator_set::records_indices(update.removals@)
                == crate::mutator_set::records_indices(transaction.inputs@));
            assert forall|j: int|
                0 <= j < transaction.inputs@.len() implies (crate::mutator_set::indices_in_window(
                (#[trigger] transaction.inputs@[j]).absolute_indices@,
                previous_block.body_spec().mutator_set_accumulator.offset(),
            ) <==> crate::mutator_set::indices_in_window(
                update.removals@[j].absolute_indices@,
                previous_block.body_spec().mutator_set_accumulator.offset(),
            )) by {
                assert(update.removals@[j].absolute_indices@ == transaction.inputs@[j]
                    .absolute_indices@);
            }
        }
        if let Err(_) = applied {
            return None;
        }
        let parent_hash = previous_block.hash();
        let mut block_mmra = crate::mmr::mmr_clone(&previous_block.kernel.body.block_mmr_accumulator);
        let _ = crate::mmr::mmr_append(&mut block_mmra, &parent_hash);
        let body = BlockBody::new(transaction, next_mutator_set, mmr_new(), block_mmra);
        let ts = if block_timestamp.millis < previous_block.kernel.header.timestamp.millis {
            Timestamp { millis: previous_block.kernel.header.timestamp.millis + 1000 }
        } else {
            block_timestamp
        };
        let difficulty = difficulty_control(
            ts,
            previous_block.kernel.header.timestamp,
            previous_block.kernel.header.difficulty,
            target_block_interval,
            previous_block.kernel.header.height,
        );
        let cumulative = previous_block.kernel.header.cumulative_proof_of_work
            .saturating_add_difficulty(&previous_block.kernel.header.difficulty);
        let header = BlockHeader {
            version: 0,
            height: previous_block.kernel.header.height + 1,
            prev_block_digest: parent_hash,
            timestamp: ts,
            nonce: [0, 0, 0],
            max_block_size: MAX_BLOCK_SIZE,
            cumulative_proof_of_work: cumulative,
            difficulty,
        };
        Some((header, body, BlockProof::DummyProof))
    }

    /// Advance a mutator set by this block's transaction: removals as if
    /// sequentially, then additions in order. Total on validated blocks;
    /// fails, leaving the set unchanged, exactly when a removal targets an
    /// evicted position.
    pub fn apply(&self, msa: &mut MutatorSetAccumulator) -> (r: Result<
        (),
        crate::mutator_set::MutatorSetError,
    >)
        requires
            self.wf(),
            old(msa).wf(),
            old(msa).aocl_leafs().len() + self.body_spec().transaction_kernel.outputs@.len()
                < 0x4000_0000_0000_0000,
        ensures
            r is Ok <==> forall|i: int|
                0 <= i < self.body_spec().transaction_kernel.inputs@.len()
                    ==> crate::mutator_set::indices_in_window(
                    (#[trigger] self.body_spec().transaction_kernel.inputs@[i]).absolute_indices@,
                    old(msa).offset(),
                ),
            r is Ok ==> final (msa).state() == crate::mutator_set::msa_adds(
                crate::mutator_set::msa_removes(
                    old(msa).state(),
                    crate::mutator_set::records_indices(
                        self.body_spec().transaction_kernel.inputs@,
                    ),
                ),
                crate::mutator_set::additions_commitments(
                    self.body_spec().transaction_kernel.outputs@,
                ),
            ),
            r is Err ==> *final (msa) == *old(msa),
            final (msa).wf(),
    {
        let update = crate::mutator_set::MutatorSetUpdate::new(
            crate::mutator_set::copy_removal_records(&self.kernel.body.transaction_kernel.inputs),
            crate::mutator_set::copy_addition_records(&self.kernel.body.transaction_kernel.outputs),
        );
        let r = update.apply_to_accumulator(msa);
        proof {
            assert(crate::mutator_set::records_indices(update.removals@)
                == crate::mutator_set::records_indices(
                self.body_spec().transaction_kernel.inputs@,
            ));
            assert forall|j: int|
                0 <= j < self.body_spec().transaction_kernel.inputs@.len()
                    implies (crate::mutator_set::indices_in_window(
                (#[trigger] self.body_spec().transaction_kernel.inputs@[j]).absolute_indices@,
                old(msa).offset(),
            ) <==> crate::mutator_set::indices_in_window(
                update.removals@[j].absolute_indices@,
                old(msa).offset(),
            )) by {
                assert(update.removals@[j].absolute_indices@ == self.body_spec()
                    .transaction_kernel.inputs@[j].absolute_indices@);
            }
        }
        r
    }

    /// Judge a candidate with the network's default spacing parameters.
    pub fn validate(&self, previous_block: &Block, now: Timestamp) -> (r: Result<
        (),
        RejectReason,
    >)
        requires
            self.wf(),
            previous_block.wf(),
            previous_block.body_spec().mutator_set_accumulator.aocl_leafs().len()
                + self.body_spec().transaction_kernel.outputs@.len()
                < 0x4000_0000_0000_0000,
        ensures
            r == validate_spec(*self, *previous_block, now, None, None, true),
    {
        self.validate_extended(previous_block, now, None, None)
    }

    /// Whether the candidate passes every acceptance rule.
    pub fn is_valid(&self, previous_block: &Block, now: Timestamp) -> (r: bool)
        requires
            self.wf(),
            previous_block.wf(),
            previous_block.body_spec().mutator_set_accumulator.aocl_leafs().len()
                + self.body_spec().transaction_kernel.outputs@.len()
                < 0x4000_0000_0000_0000,
        ensures
            r == (validate_spec(*self, *previous_block, now, None, None, true) is Ok),
    {
        self.is_valid_extended(previous_block, now, None, None)
    }

    /// `is_valid` with custom spacing parameters.
    pub fn is_valid_extended(
        &self,
        previous_block: &Block,
        now: Timestamp,
        target_block_interval: Option<Timestamp>,
        minimum_block_time: Option<Timestamp>,
    ) -> (r: bool)
        requires
            self.wf(),
            previous_block.wf(),
            previous_block.body_spec().mutator_set_accumulator.aocl_leafs().len()
                + self.body_spec().transaction_kernel.outputs@.len()
                < 0x4000_0000_0000_0000,
        ensures
            r == (validate_spec(
                *self,
                *previous_block,
                now,
                target_block_interval,
                minimum_block_time,
                true,
            ) is Ok),
    {
        match self.validate_extended(
            previous_block,
            now,
            target_block_interval,
            minimum_block_time,
        ) {
            Ok(()) => true,
            Err(_) => false,
        }
    }
}

} // verus!
