//! The mutator-set accumulator: the cryptographic commitment to the
//! spendable-output set.
//!
//! It pairs an append-only commitment log (an MMR over output commitments)
//! with a sliding-window Bloom filter whose evicted chunks live in a second
//! MMR. Additions append to the log and may slide the window; removals set
//! Bloom-filter bits inside the active window.

use crate::encoding::enc_len;
use crate::encoding::enc_u64;
use crate::encoding::push_digest;
use crate::encoding::push_u64;
use crate::hashing::hash_pair;
use crate::hashing::hash_pair_of;
use crate::hashing::hash_varlen;
use crate::hashing::hash_varlen_of;
use crate::mmr::digests_view;
use crate::mmr::digests_wf;
use crate::mmr::mmr_bag_of;
use crate::mmr::mmr_bag_peaks;
use crate::mmr::mmr_append;
use crate::mmr::mmr_clone;
use crate::mmr::mmr_leafs;
use crate::mmr::mmr_new;
use crate::mmr::mmr_num_leafs;
use crate::mmr::mmr_peaks;
use crate::mmr::mmr_peaks_of;
use crate::mmr::mmr_path_ok;
use crate::mmr::mmr_verify_path;
use crate::swbf::chunk_digest_of;
use crate::swbf::sorted_strict;
use crate::swbf::bits_below;
use crate::swbf::ActiveWindow;
use crate::swbf::Chunk;
use crate::swbf::CHUNK_SIZE;
use crate::swbf::WINDOW_SIZE;
use crate::Digest;
use crate::FIELD_PRIME;
use twenty_first::util_types::mmr::mmr_accumulator::MmrAccumulator;
use vstd::prelude::*;

verus! {

/// Bloom-filter positions each removal record targets.
pub const NUM_TRIALS: usize = 45;

/// A blinded commitment to an output, as it enters the append-only log.
#[derive(Clone, Copy, Debug, PartialEq, Eq, Structural, Hash)]
pub struct AdditionRecord {
    pub canonical_commitment: Digest,
}

impl AdditionRecord {
    pub fn new(canonical_commitment: Digest) -> (r: AdditionRecord)
        ensures
            r.canonical_commitment == canonical_commitment,
    {
        AdditionRecord { canonical_commitment }
    }

    /// The record as a field-element sequence: its commitment's limbs.
    pub fn to_sequence(&self) -> (r: Vec<u64>)
        ensures
            r@ == self.canonical_commitment@,
    {
        self.canonical_commitment.values()
    }
}

/// The limbs of the commitment to an item under its randomness and
/// receiver digest.
pub open spec fn commit_of(item: Seq<u64>, sender_randomness: Seq<u64>, receiver_digest: Seq<u64>) -> Seq<
    u64,
> {
    hash_pair_of(hash_pair_of(item, sender_randomness), receiver_digest)
}

/// Commit to an item: hash it with the sender randomness, then with the
/// receiver digest.
pub fn commit(item: &Digest, sender_randomness: &Digest, receiver_digest: &Digest) -> (r:
    AdditionRecord)
    ensures
        r.canonical_commitment@ == commit_of(item@, sender_randomness@, receiver_digest@),
        r.canonical_commitment.wf(),
{
    let inner = hash_pair(item, sender_randomness);
    AdditionRecord { canonical_commitment: hash_pair(&inner, receiver_digest) }
}

/// The start of the active window once `n` items sit in the log: one chunk
/// is evicted for every full chunk's worth of items.
pub open spec fn window_offset_of(n: int) -> int {
    (n / CHUNK_SIZE as int) * CHUNK_SIZE as int
}

/// The hash input from which one Bloom-filter index of an item is drawn.
pub open spec fn index_input(
    item: Seq<u64>,
    sender_randomness: Seq<u64>,
    receiver_digest: Seq<u64>,
    leaf_index: u64,
    t: int,
) -> Seq<u64> {
    item + sender_randomness + receiver_digest + enc_u64(leaf_index) + seq![t as u64]
}

/// The absolute Bloom-filter index an item's trial `t` targets: a
/// pseudorandom position inside the window as it stands right after the
/// item's insertion.
pub open spec fn abs_index_of(
    item: Seq<u64>,
    sender_randomness: Seq<u64>,
    receiver_digest: Seq<u64>,
    leaf_index: u64,
    t: int,
) -> int {
    window_offset_of(leaf_index + 1) + (hash_varlen_of(
        index_input(item, sender_randomness, receiver_digest, leaf_index, t),
    )[0] as int) % (WINDOW_SIZE as int)
}

/// Derive the absolute index set of an item inserted at `leaf_index`.
pub fn derive_index_set(
    item: &Digest,
    sender_randomness: &Digest,
    receiver_digest: &Digest,
    leaf_index: u64,
) -> (r: Vec<u128>)
    requires
        item.wf(),
        sender_randomness.wf(),
        receiver_digest.wf(),
        leaf_index < 0x4000_0000_0000_0000,
    ensures
        r@.len() == NUM_TRIALS,
        forall|t: int|
            0 <= t < NUM_TRIALS ==> r@[t] as int == abs_index_of(
                item@,
                sender_randomness@,
                receiver_digest@,
                leaf_index,
                t,
            ),
{
    let offset: u64 = ((leaf_index + 1) / CHUNK_SIZE) * CHUNK_SIZE;
    let mut out: Vec<u128> = Vec::new();
    let mut t: usize = 0;
    while t < NUM_TRIALS
        invariant
            0 <= t <= NUM_TRIALS,
            item.wf(),
            sender_randomness.wf(),
            receiver_digest.wf(),
            leaf_index < 0x4000_0000_0000_0000,
            offset == window_offset_of(leaf_index + 1),
            out@.len() == t,
            forall|j: int|
                0 <= j < t ==> out@[j] as int == abs_index_of(
                    item@,
                    sender_randomness@,
                    receiver_digest@,
                    leaf_index,
                    j,
                ),
        decreases NUM_TRIALS - t,
    {
        let mut input: Vec<u64> = Vec::new();
        push_digest(&mut input, item);
        push_digest(&mut input, sender_randomness);
        push_digest(&mut input, receiver_digest);
        push_u64(&mut input, leaf_index);
        input.push(t as u64);
        proof {
            assert(input@ =~= index_input(
                item@,
                sender_randomness@,
                receiver_digest@,
                leaf_index,
                t as int,
            ));
            assert forall|i: int| 0 <= i < input@.len() implies #[trigger] input@[i]
                < FIELD_PRIME by {
                crate::encoding::lemma_enc_u64_ok(leaf_index);
                let s = input@;
                if i < 5 {
                    assert(s[i] == item@[i]);
                } else if i < 10 {
                    assert(s[i] == sender_randomness@[i - 5]);
                } else if i < 15 {
                    assert(s[i] == receiver_digest@[i - 10]);
                } else if i < 17 {
                    assert(s[i] == enc_u64(leaf_index)[i - 15]);
                } else {
                    assert(s[i] == t as u64);
                }
            }
        }
        let h = hash_varlen(&input);
        let rel: u64 = h.l0 % WINDOW_SIZE;
        proof {
            assert(h.l0 == hash_varlen_of(input@)[0]);
        }
        out.push(offset as u128 + rel as u128);
        t = t + 1;
    }
    out
}

/// A witness for one evicted chunk: its index in the inactive accumulator,
/// its bits, and its authentication path.
#[derive(Clone, Debug, PartialEq, Eq)]
pub struct ChunkWitness {
    pub chunk_index: u64,
    pub chunk: Chunk,
    pub path: Vec<Digest>,
}

/// The first witness that claims a given chunk index.
pub open spec fn find_chunk(ws: Seq<ChunkWitness>, ci: int) -> Option<ChunkWitness>
    decreases ws.len(),
{
    if ws.len() == 0 {
        None
    } else if ws[0].chunk_index == ci {
        Some(ws[0])
    } else {
        find_chunk(ws.subrange(1, ws.len() as int), ci)
    }
}

/// Whether the Bloom-filter bit at absolute position `idx` provably reads
/// zero: inside the window the bit itself is inspected; below the window a
/// witness chunk must authenticate against the inactive accumulator and
/// show the bit unset.
pub open spec fn bit_provably_unset(
    inactive: Seq<Seq<u64>>,
    active: Seq<u64>,
    offset: int,
    ws: Seq<ChunkWitness>,
    idx: int,
) -> bool {
    if idx >= offset {
        idx - offset < WINDOW_SIZE && !active.contains((idx - offset) as u64)
    } else {
        match find_chunk(ws, idx / CHUNK_SIZE as int) {
            Some(w) => w.chunk.bounds_ok() && digests_wf(w.path@) && mmr_path_ok(
                digests_view(w.path@),
                w.chunk_index as int,
                chunk_digest_of(w.chunk.bits@),
                mmr_peaks_of(inactive),
                inactive.len() as int,
            ) && !w.chunk.bits@.contains((idx % CHUNK_SIZE as int) as u64),
            None => false,
        }
    }
}

/// A membership proof for one item of the mutator set.
#[derive(Clone, Debug, PartialEq, Eq)]
pub struct MsMembershipProof {
    pub sender_randomness: Digest,
    pub receiver_digest: Digest,
    pub leaf_index: u64,
    pub aocl_path: Vec<Digest>,
    pub target_chunks: Vec<ChunkWitness>,
}

/// The mutator-set accumulator: the append-only commitment log and the
/// two-part sliding-window Bloom filter.
#[derive(Debug)]
pub struct MutatorSetAccumulator {
    pub aocl: MmrAccumulator,
    pub swbf_inactive: MmrAccumulator,
    pub swbf_active: ActiveWindow,
}

impl MutatorSetAccumulator {
    /// The commitments the append-only log holds.
    pub open spec fn aocl_leafs(self) -> Seq<Seq<u64>> {
        mmr_leafs(self.aocl)
    }

    /// The chunk digests the inactive filter part holds.
    pub open spec fn inactive_leafs(self) -> Seq<Seq<u64>> {
        mmr_leafs(self.swbf_inactive)
    }

    /// The window-relative positions of the set active bits.
    pub open spec fn active_bits(self) -> Seq<u64> {
        self.swbf_active.bits@
    }

    /// The absolute position where the active window starts.
    pub open spec fn offset(self) -> int {
        self.inactive_leafs().len() * CHUNK_SIZE as int
    }

    /// The accumulator's structural invariant: both accumulators are well
    /// formed, the window is canonical, and exactly one chunk has been
    /// evicted per full chunk's worth of logged items.
    pub open spec fn wf(self) -> bool {
        &&& crate::mmr::mmr_ok(self.aocl)
        &&& crate::mmr::mmr_ok(self.swbf_inactive)
        &&& self.swbf_active.wf()
        &&& self.aocl_leafs().len() < 0x4000_0000_0000_0000
        &&& self.inactive_leafs().len() == self.aocl_leafs().len() as int / CHUNK_SIZE as int
    }

    /// The empty mutator set.
    pub fn default() -> (r: MutatorSetAccumulator)
        ensures
            r.aocl_leafs() == Seq::<Seq<u64>>::empty(),
            r.inactive_leafs() == Seq::<Seq<u64>>::empty(),
            r.active_bits() == Seq::<u64>::empty(),
            r.wf(),
    {
        MutatorSetAccumulator {
            aocl: mmr_new(),
            swbf_inactive: mmr_new(),
            swbf_active: ActiveWindow::new(),
        }
    }

    /// The absolute position where the active window starts.
    pub fn window_offset(&self) -> (r: u128)
        requires
            self.wf(),
        ensures
            r as int == self.offset(),
    {
        let n = mmr_num_leafs(&self.swbf_inactive);
        proof {
            let x = self.aocl_leafs().len() as int;
            let c = CHUNK_SIZE as int;
            vstd::arithmetic::div_mod::lemma_fundamental_div_mod(x, c);
            assert(x / c <= x) by (nonlinear_arith)
                requires
                    x == c * (x / c) + x % c,
                    0 <= x % c,
                    x >= 0,
                    c > 1,
            ;
        }
        n as u128 * CHUNK_SIZE as u128
    }

    /// The encoding of the active window that enters the set commitment.
    pub open spec fn active_window_enc(self) -> Seq<u64> {
        enc_len(self.active_bits().len() as int) + self.active_bits()
    }

    /// The limbs of the whole-set commitment.
    pub open spec fn hash_spec(self) -> Seq<u64> {
        msa_state_hash(self.state())
    }

    /// The commitment to the whole set: the bagged log, the bagged
    /// inactive filter and the hashed active window, pairwise hashed.
    pub fn get_commitment(&self) -> (r: Digest)
        requires
            self.wf(),
        ensures
            r@ == self.hash_spec(),
            r.wf(),
    {
        let aocl_bagged = mmr_bag_peaks(&self.aocl);
        let inactive_bagged = mmr_bag_peaks(&self.swbf_inactive);
        let mut enc: Vec<u64> = Vec::new();
        proof {
            crate::swbf::lemma_active_window_len(self.swbf_active.bits@);
        }
        crate::encoding::push_len(&mut enc, self.swbf_active.bits.len());
        crate::encoding::push_felts(&mut enc, &self.swbf_active.bits);
        proof {
            assert(enc@ =~= self.active_window_enc());
            assert forall|i: int| 0 <= i < enc@.len() implies #[trigger] enc@[i] < FIELD_PRIME by {
                if i == 0 {
                    assert(enc@[0] == self.active_bits().len() as u64);
                } else {
                    assert(enc@[i] == self.active_bits()[i - 1]);
                    assert(self.active_bits()[i - 1] < WINDOW_SIZE);
                }
            }
        }
        let active_hashed = hash_varlen(&enc);
        let inner = hash_pair(&inactive_bagged, &active_hashed);
        hash_pair(&aocl_bagged, &inner)
    }

    /// The commitment to the whole set.
    pub fn hash(&self) -> (r: Digest)
        requires
            self.wf(),
        ensures
            r@ == self.hash_spec(),
            r.wf(),
    {
        self.get_commitment()
    }

    /// Commit to an item: a pure function of its arguments; the set is
    /// not consulted.
    pub fn commit(
        &self,
        item: &Digest,
        sender_randomness: &Digest,
        receiver_digest: &Digest,
    ) -> (r: AdditionRecord)
        ensures
            r.canonical_commitment@ == commit_of(item@, sender_randomness@, receiver_digest@),
            r.canonical_commitment.wf(),
    {
        commit(item, sender_randomness, receiver_digest)
    }

    /// Whether adding one more item slides the window.
    pub open spec fn add_slides(self) -> bool {
        (self.aocl_leafs().len() as int + 1) % (CHUNK_SIZE as int) == 0
    }

    /// Append an addition record's commitment to the log; when the log
    /// crosses a chunk boundary, evict the lowest chunk of the active
    /// window into the inactive accumulator.
    pub fn add(&mut self, addition_record: &AdditionRecord)
        requires
            old(self).wf(),
            old(self).aocl_leafs().len() + 1 < 0x4000_0000_0000_0000,
            addition_record.canonical_commitment.wf(),
        ensures
            final (self).aocl_leafs() == old(self).aocl_leafs().push(
                addition_record.canonical_commitment@,
            ),
            old(self).add_slides() ==> {
                &&& final (self).inactive_leafs() == old(self).inactive_leafs().push(
                    chunk_digest_of(crate::swbf::evicted_bits(old(self).active_bits())),
                )
                &&& final (self).active_bits() == crate::swbf::shifted_bits(
                    old(self).active_bits(),
                )
            },
            !old(self).add_slides() ==> {
                &&& final (self).inactive_leafs() == old(self).inactive_leafs()
                &&& final (self).active_bits() == old(self).active_bits()
            },
            final (self).wf(),
    {
        let n = mmr_num_leafs(&self.aocl);
        let _ = mmr_append(&mut self.aocl, &addition_record.canonical_commitment);
        proof {
            let c = CHUNK_SIZE as int;
            vstd::arithmetic::div_mod::lemma_fundamental_div_mod(n as int, c);
            if (n as int + 1) % c == 0 {
                vstd::arithmetic::div_mod::lemma_fundamental_div_mod_converse(
                    n as int + 1,
                    c,
                    n as int / c + 1,
                    0,
                );
            } else {
                vstd::arithmetic::div_mod::lemma_fundamental_div_mod_converse(
                    n as int + 1,
                    c,
                    n as int / c,
                    n as int % c + 1,
                );
            }
        }
        if (n + 1) % CHUNK_SIZE == 0 {
            let chunk = self.swbf_active.slide();
            let cd = chunk.digest();
            let _ = mmr_append(&mut self.swbf_inactive, &cd);
        }
    }

    /// Build a membership proof for an item that is about to be added: the
    /// authentication path it will have once its commitment is appended.
    pub fn prove(
        &self,
        item: &Digest,
        sender_randomness: &Digest,
        receiver_digest: &Digest,
    ) -> (mp: MsMembershipProof)
        requires
            self.wf(),
            item.wf(),
            sender_randomness.wf(),
            receiver_digest.wf(),
        ensures
            mp.sender_randomness == *sender_randomness,
            mp.receiver_digest == *receiver_digest,
            mp.leaf_index as int == self.aocl_leafs().len(),
            mp.target_chunks@ == Seq::<ChunkWitness>::empty(),
            mp.wf(),
            mmr_path_ok(
                digests_view(mp.aocl_path@),
                self.aocl_leafs().len() as int,
                commit_of(item@, sender_randomness@, receiver_digest@),
                mmr_peaks_of(
                    self.aocl_leafs().push(
                        commit_of(item@, sender_randomness@, receiver_digest@),
                    ),
                ),
                self.aocl_leafs().len() as int + 1,
            ),
    {
        let c = commit(item, sender_randomness, receiver_digest);
        let leaf_index = mmr_num_leafs(&self.aocl);
        let mut simulated = mmr_clone(&self.aocl);
        let aocl_path = mmr_append(&mut simulated, &c.canonical_commitment);
        MsMembershipProof {
            sender_randomness: *sender_randomness,
            receiver_digest: *receiver_digest,
            leaf_index,
            aocl_path,
            target_chunks: Vec::new(),
        }
    }

    /// What a valid membership proof shows: the commitment sits in the log
    /// at the claimed position, and at least one of the item's
    /// Bloom-filter positions provably reads zero.
    pub open spec fn spec_verify(self, item: Digest, mp: MsMembershipProof) -> bool {
        &&& digests_wf(mp.aocl_path@)
        &&& mmr_path_ok(
            digests_view(mp.aocl_path@),
            mp.leaf_index as int,
            commit_of(item@, mp.sender_randomness@, mp.receiver_digest@),
            mmr_peaks_of(self.aocl_leafs()),
            self.aocl_leafs().len() as int,
        )
        &&& exists|t: int|
            0 <= t < NUM_TRIALS && bit_provably_unset(
                self.inactive_leafs(),
                self.active_bits(),
                self.offset(),
                mp.target_chunks@,
                abs_index_of(item@, mp.sender_randomness@, mp.receiver_digest@, mp.leaf_index, t),
            )
    }

    /// Check a membership proof against the current set.
    pub fn verify(&self, item: &Digest, membership_proof: &MsMembershipProof) -> (r: bool)
        requires
            self.wf(),
            item.wf(),
            membership_proof.sender_randomness.wf(),
            membership_proof.receiver_digest.wf(),
        ensures
            r == self.spec_verify(*item, *membership_proof),
    {
        if !crate::mmr::digests_all_wf(&membership_proof.aocl_path) {
            return false;
        }
        let c = commit(item, &membership_proof.sender_randomness, &membership_proof.receiver_digest);
        let peaks = mmr_peaks(&self.aocl);
        let n = mmr_num_leafs(&self.aocl);
        let path_ok = mmr_verify_path(
            &membership_proof.aocl_path,
            membership_proof.leaf_index,
            &c.canonical_commitment,
            &peaks,
            n,
        );
        if !path_ok {
            return false;
        }
        let indices = derive_index_set(
            item,
            &membership_proof.sender_randomness,
            &membership_proof.receiver_digest,
            membership_proof.leaf_index,
        );
        let mut t: usize = 0;
        while t < NUM_TRIALS
            invariant
                0 <= t <= NUM_TRIALS,
                self.wf(),
                digests_wf(membership_proof.aocl_path@),
                mmr_path_ok(
                    digests_view(membership_proof.aocl_path@),
                    membership_proof.leaf_index as int,
                    commit_of(
                        item@,
                        membership_proof.sender_randomness@,
                        membership_proof.receiver_digest@,
                    ),
                    mmr_peaks_of(self.aocl_leafs()),
                    self.aocl_leafs().len() as int,
                ),
                indices@.len() == NUM_TRIALS,
                forall|j: int|
                    0 <= j < NUM_TRIALS ==> indices@[j] as int == abs_index_of(
                        item@,
                        membership_proof.sender_randomness@,
                        membership_proof.receiver_digest@,
                        membership_proof.leaf_index,
                        j,
                    ),
                forall|j: int|
                    0 <= j < t ==> !bit_provably_unset(
                        self.inactive_leafs(),
                        self.active_bits(),
                        self.offset(),
                        membership_proof.target_chunks@,
                        #[trigger] abs_index_of(
                            item@,
                            membership_proof.sender_randomness@,
                            membership_proof.receiver_digest@,
                            membership_proof.leaf_index,
                            j,
                        ),
                    ),
            decreases NUM_TRIALS - t,
        {
            if self.bloom_bit_provably_unset(&membership_proof.target_chunks, indices[t]) {
                proof {
                    assert(bit_provably_unset(
                        self.inactive_leafs(),
                        self.active_bits(),
                        self.offset(),
                        membership_proof.target_chunks@,
                        abs_index_of(
                            item@,
                            membership_proof.sender_randomness@,
                            membership_proof.receiver_digest@,
                            membership_proof.leaf_index,
                            t as int,
                        ),
                    ));
                }
                return true;
            }
            t = t + 1;
        }
        false
    }

    /// Read a Bloom-filter bit at an absolute position: inside the window
    /// the bit itself is inspected; for an evicted position a witness
    /// chunk must be supplied and authenticate against the inactive
    /// accumulator. Returns whether the bit provably reads zero.
    pub fn bloom_bit_provably_unset(&self, witnesses: &Vec<ChunkWitness>, idx: u128) -> (r: bool)
        requires
            self.wf(),
        ensures
            r == bit_provably_unset(
                self.inactive_leafs(),
                self.active_bits(),
                self.offset(),
                witnesses@,
                idx as int,
            ),
    {
        let offset = self.window_offset();
        if idx >= offset {
            let rel = idx - offset;
            if rel >= WINDOW_SIZE as u128 {
                false
            } else {
                !self.swbf_active.contains(rel as u64)
            }
        } else {
            proof {
                vstd::arithmetic::div_mod::lemma_multiply_divide_lt(
                    idx as int,
                    self.inactive_leafs().len() as int,
                    CHUNK_SIZE as int,
                );
                vstd::arithmetic::div_mod::lemma_fundamental_div_mod(idx as int, CHUNK_SIZE as int);
            }
            let ci: u64 = (idx / CHUNK_SIZE as u128) as u64;
            let rel: u64 = (idx % CHUNK_SIZE as u128) as u64;
            proof {
                assert(ci as int == idx as int / (CHUNK_SIZE as int));
                assert(rel as int == idx as int % (CHUNK_SIZE as int));
                assert(witnesses@.subrange(0, witnesses@.len() as int) =~= witnesses@);
            }
            let mut j: usize = 0;
            while j < witnesses.len()
                invariant
                    0 <= j <= witnesses@.len(),
                    self.wf(),
                    (idx as int) < self.offset(),
                    ci as int == idx as int / (CHUNK_SIZE as int),
                    rel as int == idx as int % (CHUNK_SIZE as int),
                    find_chunk(witnesses@, ci as int) == find_chunk(
                        witnesses@.subrange(j as int, witnesses@.len() as int),
                        ci as int,
                    ),
                decreases witnesses@.len() - j,
            {
                let ghost rest = witnesses@.subrange(j as int, witnesses@.len() as int);
                if witnesses[j].chunk_index == ci {
                    proof {
                        assert(rest[0] == witnesses@[j as int]);
                        assert(find_chunk(rest, ci as int) == Some(witnesses@[j as int]));
                    }
                    let w = &witnesses[j];
                    if !w.chunk.check_bounds() {
                        return false;
                    }
                    if !crate::mmr::digests_all_wf(&w.path) {
                        return false;
                    }
                    let cd = w.chunk.digest();
                    let peaks = mmr_peaks(&self.swbf_inactive);
                    let n = mmr_num_leafs(&self.swbf_inactive);
                    let path_ok = mmr_verify_path(&w.path, w.chunk_index, &cd, &peaks, n);
                    if !path_ok {
                        return false;
                    }
                    return !w.chunk.contains(rel);
                }
                proof {
                    assert(rest[0] == witnesses@[j as int]);
                    assert(rest.subrange(1, rest.len() as int) =~= witnesses@.subrange(
                        j + 1,
                        witnesses@.len() as int,
                    ));
                    assert(find_chunk(rest, ci as int) == find_chunk(
                        rest.subrange(1, rest.len() as int),
                        ci as int,
                    ));
                }
                j = j + 1;
            }
            proof {
                assert(witnesses@.subrange(
                    witnesses@.len() as int,
                    witnesses@.len() as int,
                ) =~= Seq::<ChunkWitness>::empty());
            }
            false
        }
    }

    /// What `can_remove` answers: at least one of the record's positions
    /// provably reads zero, so the item has not been spent.
    pub open spec fn spec_can_remove(self, rr: RemovalRecord) -> bool {
        exists|i: int|
            0 <= i < rr.absolute_indices@.len() && bit_provably_unset(
                self.inactive_leafs(),
                self.active_bits(),
                self.offset(),
                rr.target_chunks@,
                #[trigger] rr.absolute_indices@[i] as int,
            )
    }

    /// Whether a removal record can still be applied: its item has not
    /// already been marked spent.
    pub fn can_remove(&self, removal_record: &RemovalRecord) -> (r: bool)
        requires
            self.wf(),
        ensures
            r == self.spec_can_remove(*removal_record),
    {
        let mut i: usize = 0;
        while i < removal_record.absolute_indices.len()
            invariant
                0 <= i <= removal_record.absolute_indices@.len(),
                self.wf(),
                forall|j: int|
                    0 <= j < i ==> !bit_provably_unset(
                        self.inactive_leafs(),
                        self.active_bits(),
                        self.offset(),
                        removal_record.target_chunks@,
                        #[trigger] removal_record.absolute_indices@[j] as int,
                    ),
            decreases removal_record.absolute_indices@.len() - i,
        {
            if self.bloom_bit_provably_unset(
                &removal_record.target_chunks,
                removal_record.absolute_indices[i],
            ) {
                return true;
            }
            i = i + 1;
        }
        false
    }
}

/// A removal record: the absolute index set of the spent item and the
/// witness chunks for any positions that have slid out of the window.
#[derive(Clone, Debug, PartialEq, Eq)]
pub struct RemovalRecord {
    pub absolute_indices: Vec<u128>,
    pub target_chunks: Vec<ChunkWitness>,
}

impl MsMembershipProof {
    /// The proof's structural invariant: its path fits any accumulator it
    /// could speak about.
    pub open spec fn wf(self) -> bool {
        &&& self.sender_randomness.wf()
        &&& self.receiver_digest.wf()
        &&& self.leaf_index < 0x4000_0000_0000_0000
        &&& self.aocl_path@.len() < 63
        &&& digests_wf(self.aocl_path@)
    }
}

/// Why a removal cannot be applied.
#[derive(Clone, Copy, Debug, PartialEq, Eq, Structural)]
pub enum MutatorSetError {
    /// A targeted Bloom-filter position has already slid out of the active
    /// window, or lies beyond it.
    RemovalIndexOutsideWindow,
}

/// The limbs of the commitment to a whole mutator-set state: the bagged
/// log and the bagged inactive filter paired with the hashed active
/// window.
pub open spec fn msa_state_hash(s: MsaState) -> Seq<u64> {
    hash_pair_of(
        mmr_bag_of(s.aocl),
        hash_pair_of(
            mmr_bag_of(s.inactive),
            hash_varlen_of(enc_len(s.active.len() as int) + s.active),
        ),
    )
}

/// The mathematical state of a mutator set: the committed output log, the
/// evicted chunk digests, and the window-relative active bits.
pub struct MsaState {
    pub aocl: Seq<Seq<u64>>,
    pub inactive: Seq<Seq<u64>>,
    pub active: Seq<u64>,
}

impl MsaState {
    /// The absolute position where the active window starts.
    pub open spec fn offset(self) -> int {
        self.inactive.len() * CHUNK_SIZE as int
    }
}

impl MutatorSetAccumulator {
    /// The accumulator's mathematical state.
    pub open spec fn state(self) -> MsaState {
        MsaState {
            aocl: self.aocl_leafs(),
            inactive: self.inactive_leafs(),
            active: self.active_bits(),
        }
    }
}

/// One addition applied to a mutator-set state.
pub open spec fn msa_add_state(s: MsaState, c: Seq<u64>) -> MsaState {
    if (s.aocl.len() as int + 1) % (CHUNK_SIZE as int) == 0 {
        MsaState {
            aocl: s.aocl.push(c),
            inactive: s.inactive.push(chunk_digest_of(crate::swbf::evicted_bits(s.active))),
            active: crate::swbf::shifted_bits(s.active),
        }
    } else {
        MsaState { aocl: s.aocl.push(c), inactive: s.inactive, active: s.active }
    }
}

/// A sequence of additions applied in order.
pub open spec fn msa_adds(s: MsaState, cs: Seq<Seq<u64>>) -> MsaState
    decreases cs.len(),
{
    if cs.len() == 0 {
        s
    } else {
        msa_add_state(msa_adds(s, cs.drop_last()), cs.last())
    }
}

/// The window bits after setting, in order, the window-relative positions
/// of a record's absolute indices.
pub open spec fn apply_bits(active: Seq<u64>, idxs: Seq<u128>, offset: int) -> Seq<u64>
    decreases idxs.len(),
{
    if idxs.len() == 0 {
        active
    } else {
        crate::swbf::insert_sorted_spec(
            apply_bits(active, idxs.drop_last(), offset),
            (idxs.last() - offset) as u64,
        )
    }
}

/// All of a record's positions still sit inside the active window.
pub open spec fn indices_in_window(idxs: Seq<u128>, offset: int) -> bool {
    forall|i: int|
        0 <= i < idxs.len() ==> offset <= (#[trigger] idxs[i] as int) < offset + (
        WINDOW_SIZE as int)
}

/// One removal applied to a mutator-set state.
pub open spec fn msa_remove_state(s: MsaState, idxs: Seq<u128>) -> MsaState {
    MsaState { aocl: s.aocl, inactive: s.inactive, active: apply_bits(s.active, idxs, s.offset()) }
}

/// A sequence of removals applied in order.
pub open spec fn msa_removes(s: MsaState, records: Seq<Seq<u128>>) -> MsaState
    decreases records.len(),
{
    if records.len() == 0 {
        s
    } else {
        msa_remove_state(msa_removes(s, records.drop_last()), records.last())
    }
}

/// The index sets of a list of removal records.
pub open spec fn records_indices(rs: Seq<RemovalRecord>) -> Seq<Seq<u128>> {
    rs.map_values(|r: RemovalRecord| r.absolute_indices@)
}

/// Applying removals in one batch is, state for state, the same as
/// applying them one at a time in order; equal states give equal set
/// commitments, since the commitment is a function of the state alone.
pub proof fn lemma_batch_remove_is_sequential(s: MsaState, records: Seq<Seq<u128>>)
    requires
        records.len() > 0,
    ensures
        msa_removes(s, records) == msa_remove_state(
            msa_removes(s, records.drop_last()),
            records.last(),
        ),
        msa_removes(s, records.subrange(0, records.len() - 1)) == msa_removes(
            s,
            records.drop_last(),
        ),
{
    assert(records.subrange(0, records.len() - 1) =~= records.drop_last());
}

/// A fresh vector carrying the same chunk witnesses, field for field.
fn copy_witnesses(v: &Vec<ChunkWitness>) -> (r: Vec<ChunkWitness>)
    ensures
        r@.len() == v@.len(),
        forall|i: int|
            0 <= i < v@.len() ==> {
                &&& (#[trigger] r@[i]).chunk_index == v@[i].chunk_index
                &&& r@[i].chunk.bits@ == v@[i].chunk.bits@
                &&& r@[i].path@ == v@[i].path@
            },
{
    let mut out: Vec<ChunkWitness> = Vec::new();
    let mut i: usize = 0;
    while i < v.len()
        invariant
            0 <= i <= v@.len(),
            out@.len() == i,
            forall|j: int|
                0 <= j < i ==> {
                    &&& (#[trigger] out@[j]).chunk_index == v@[j].chunk_index
                    &&& out@[j].chunk.bits@ == v@[j].chunk.bits@
                    &&& out@[j].path@ == v@[j].path@
                },
        decreases v@.len() - i,
    {
        let w = &v[i];
        out.push(
            ChunkWitness {
                chunk_index: w.chunk_index,
                chunk: Chunk { bits: crate::encoding::copy_u64s(&w.chunk.bits) },
                path: crate::encoding::copy_digests(&w.path),
            },
        );
        i = i + 1;
    }
    out
}

impl MutatorSetAccumulator {
    /// The removal record that spends an item: its absolute index set and
    /// the witness chunks its membership proof carries. A pure function;
    /// nothing is mutated.
    pub fn drop(&self, item: &Digest, membership_proof: &MsMembershipProof) -> (r: RemovalRecord)
        requires
            self.wf(),
            item.wf(),
            membership_proof.wf(),
        ensures
            r.absolute_indices@.len() == NUM_TRIALS,
            forall|t: int|
                0 <= t < NUM_TRIALS ==> #[trigger] r.absolute_indices@[t] as int == abs_index_of(
                    item@,
                    membership_proof.sender_randomness@,
                    membership_proof.receiver_digest@,
                    membership_proof.leaf_index,
                    t,
                ),
            r.target_chunks@.len() == membership_proof.target_chunks@.len(),
            forall|i: int|
                0 <= i < membership_proof.target_chunks@.len() ==> {
                    &&& (#[trigger] r.target_chunks@[i]).chunk_index
                        == membership_proof.target_chunks@[i].chunk_index
                    &&& r.target_chunks@[i].chunk.bits@
                        == membership_proof.target_chunks@[i].chunk.bits@
                    &&& r.target_chunks@[i].path@ == membership_proof.target_chunks@[i].path@
                },
    {
        let absolute_indices = derive_index_set(
            item,
            &membership_proof.sender_randomness,
            &membership_proof.receiver_digest,
            membership_proof.leaf_index,
        );
        RemovalRecord { absolute_indices, target_chunks: copy_witnesses(&membership_proof.target_chunks) }
    }

    /// Set every Bloom-filter bit the record targets. Succeeds exactly when
    /// all targeted positions still sit in the active window; otherwise the
    /// set is left unchanged. Re-removing an already-spent item succeeds
    /// and changes nothing.
    pub fn remove(&mut self, removal_record: &RemovalRecord) -> (r: Result<(), MutatorSetError>)
        requires
            old(self).wf(),
        ensures
            r is Ok <==> indices_in_window(removal_record.absolute_indices@, old(self).offset()),
            r is Ok ==> final (self).state() == msa_remove_state(
                old(self).state(),
                removal_record.absolute_indices@,
            ),
            r is Err ==> *final (self) == *old(self),
            final (self).aocl == old(self).aocl,
            final (self).swbf_inactive == old(self).swbf_inactive,
            final (self).wf(),
    {
        let offset = self.window_offset();
        let idxs = &removal_record.absolute_indices;
        let mut i: usize = 0;
        while i < idxs.len()
            invariant
                0 <= i <= idxs@.len(),
                idxs@ == removal_record.absolute_indices@,
                self.wf(),
                *self == *old(self),
                offset as int == self.offset(),
                forall|j: int|
                    0 <= j < i ==> (offset as int) <= (#[trigger] idxs@[j] as int) < (
                    offset as int) + (WINDOW_SIZE as int),
            decreases idxs@.len() - i,
        {
            let idx = idxs[i];
            if idx < offset || idx - offset >= WINDOW_SIZE as u128 {
                proof {
                    assert(!((offset as int) <= (idxs@[i as int] as int) < (offset as int) + (
                    WINDOW_SIZE as int)));
                    assert(!indices_in_window(idxs@, old(self).offset()));
                    assert(idxs@ == removal_record.absolute_indices@);
                    assert(!indices_in_window(removal_record.absolute_indices@, old(self).offset()));
                }
                return Err(MutatorSetError::RemovalIndexOutsideWindow);
            }
            i = i + 1;
        }
        let mut k: usize = 0;
        while k < idxs.len()
            invariant
                0 <= k <= idxs@.len(),
                idxs@ == removal_record.absolute_indices@,
                indices_in_window(idxs@, old(self).offset()),
                offset as int == old(self).offset(),
                self.aocl == old(self).aocl,
                self.swbf_inactive == old(self).swbf_inactive,
                self.swbf_active.wf(),
                self.aocl_leafs() == old(self).aocl_leafs(),
                self.inactive_leafs() == old(self).inactive_leafs(),
                self.active_bits() == apply_bits(
                    old(self).active_bits(),
                    idxs@.subrange(0, k as int),
                    old(self).offset(),
                ),
            decreases idxs@.len() - k,
        {
            let idx = idxs[k];
            let rel: u64 = (idx - offset) as u64;
            self.swbf_active.set_bit(rel);
            proof {
                assert(idxs@.subrange(0, k + 1).drop_last() =~= idxs@.subrange(0, k as int));
                assert(idxs@.subrange(0, k + 1).last() == idxs@[k as int]);
            }
            k = k + 1;
        }
        proof {
            assert(idxs@.subrange(0, idxs@.len() as int) =~= idxs@);
        }
        Ok(())
    }

    /// Apply a batch of removal records as if one at a time, in order.
    /// Succeeds exactly when every record's positions sit in the active
    /// window; otherwise the set is left as it stood before the batch. The
    /// handed-in membership proofs are untouched: removals never change
    /// proof data, only window bits.
    pub fn batch_remove(
        &mut self,
        removal_records: &Vec<RemovalRecord>,
        preserved_membership_proofs: &mut Vec<MsMembershipProof>,
    ) -> (r: Result<(), MutatorSetError>)
        requires
            old(self).wf(),
        ensures
            *final (preserved_membership_proofs) == *old(preserved_membership_proofs),
            r is Ok <==> forall|i: int|
                0 <= i < removal_records@.len() ==> indices_in_window(
                    (#[trigger] removal_records@[i]).absolute_indices@,
                    old(self).offset(),
                ),
            r is Ok ==> final (self).state() == msa_removes(
                old(self).state(),
                records_indices(removal_records@),
            ),
            r is Err ==> *final (self) == *old(self),
            final (self).wf(),
    {
        let offset = self.window_offset();
        let mut i: usize = 0;
        while i < removal_records.len()
            invariant
                0 <= i <= removal_records@.len(),
                self.wf(),
                *self == *old(self),
                offset as int == self.offset(),
                forall|j: int|
                    0 <= j < i ==> indices_in_window(
                        (#[trigger] removal_records@[j]).absolute_indices@,
                        old(self).offset(),
                    ),
            decreases removal_records@.len() - i,
        {
            let idxs = &removal_records[i].absolute_indices;
            let mut m: usize = 0;
            while m < idxs.len()
                invariant
                    0 <= m <= idxs@.len(),
                    self.wf(),
                    *self == *old(self),
                    offset as int == old(self).offset(),
                    idxs@ == removal_records@[i as int].absolute_indices@,
                    i < removal_records@.len(),
                    forall|j: int|
                        0 <= j < m ==> (offset as int) <= (#[trigger] idxs@[j] as int) < (
                        offset as int) + (WINDOW_SIZE as int),
                decreases idxs@.len() - m,
            {
                let idx = idxs[m];
                if idx < offset || idx - offset >= WINDOW_SIZE as u128 {
                    proof {
                        assert(!((offset as int) <= (idxs@[m as int] as int) < (offset as int) + (
                        WINDOW_SIZE as int)));
                        assert(!indices_in_window(
                            removal_records@[i as int].absolute_indices@,
                            old(self).offset(),
                        ));
                    }
                    return Err(MutatorSetError::RemovalIndexOutsideWindow);
                }
                m = m + 1;
            }
            i = i + 1;
        }
        let mut k: usize = 0;
        while k < removal_records.len()
            invariant
                0 <= k <= removal_records@.len(),
                forall|j: int|
                    0 <= j < removal_records@.len() ==> indices_in_window(
                        (#[trigger] removal_records@[j]).absolute_indices@,
                        old(self).offset(),
                    ),
                self.aocl == old(self).aocl,
                self.swbf_inactive == old(self).swbf_inactive,
                self.wf(),
                self.offset() == old(self).offset(),
                self.state() == msa_removes(
                    old(self).state(),
                    records_indices(removal_records@.subrange(0, k as int)),
                ),
            decreases removal_records@.len() - k,
        {
            let res = self.remove(&removal_records[k]);
            proof {
                let pre = records_indices(removal_records@.subrange(0, k as int));
                let post = records_indices(removal_records@.subrange(0, k + 1));
                assert(post.drop_last() =~= pre);
                assert(post.last() == removal_records@[k as int].absolute_indices@);
            }
            k = k + 1;
        }
        proof {
            assert(removal_records@.subrange(0, removal_records@.len() as int)
                =~= removal_records@);
        }
        Ok(())
    }
}

/// Removals never touch the two logs: only the active window changes.
proof fn lemma_removes_keep_logs(s: MsaState, records: Seq<Seq<u128>>)
    ensures
        msa_removes(s, records).aocl == s.aocl,
        msa_removes(s, records).inactive == s.inactive,
    decreases records.len(),
{
    if records.len() > 0 {
        lemma_removes_keep_logs(s, records.drop_last());
    }
}

/// Applying a record's bits keeps the window canonical.
pub proof fn lemma_apply_bits_sorted(active: Seq<u64>, idxs: Seq<u128>, offset: int)
    requires
        sorted_strict(active),
    ensures
        sorted_strict(apply_bits(active, idxs, offset)),
    decreases idxs.len(),
{
    if idxs.len() > 0 {
        lemma_apply_bits_sorted(active, idxs.drop_last(), offset);
        crate::swbf::lemma_insert_sorted_props(
            apply_bits(active, idxs.drop_last(), offset),
            (idxs.last() - offset) as u64,
        );
    }
}

/// Every position a record targets is set once the record is applied.
pub proof fn lemma_apply_bits_contains(active: Seq<u64>, idxs: Seq<u128>, offset: int, k: int)
    requires
        sorted_strict(active),
        0 <= k < idxs.len(),
    ensures
        apply_bits(active, idxs, offset).contains((idxs[k] - offset) as u64),
    decreases idxs.len(),
{
    lemma_apply_bits_sorted(active, idxs.drop_last(), offset);
    crate::swbf::lemma_insert_sorted_props(
        apply_bits(active, idxs.drop_last(), offset),
        (idxs.last() - offset) as u64,
    );
    if k < idxs.len() - 1 {
        lemma_apply_bits_contains(active, idxs.drop_last(), offset, k);
        assert(idxs.drop_last()[k] == idxs[k]);
    }
}

/// An item proven at add time and then added carries a proof that
/// verifies, provided at least one of the item's Bloom-filter positions
/// still reads zero. The excluded inputs are those whose every derived
/// position collides with an already-set bit.
pub proof fn lemma_prove_add_verify(
    before: MutatorSetAccumulator,
    after: MutatorSetAccumulator,
    item: Digest,
    mp: MsMembershipProof,
)
    requires
        mp.wf(),
        mp.leaf_index as int == before.aocl_leafs().len(),
        mmr_path_ok(
            digests_view(mp.aocl_path@),
            mp.leaf_index as int,
            commit_of(item@, mp.sender_randomness@, mp.receiver_digest@),
            mmr_peaks_of(
                before.aocl_leafs().push(
                    commit_of(item@, mp.sender_randomness@, mp.receiver_digest@),
                ),
            ),
            before.aocl_leafs().len() + 1int,
        ),
        after.aocl_leafs() == before.aocl_leafs().push(
            commit_of(item@, mp.sender_randomness@, mp.receiver_digest@),
        ),
        exists|t: int|
            0 <= t < NUM_TRIALS && bit_provably_unset(
                after.inactive_leafs(),
                after.active_bits(),
                after.offset(),
                mp.target_chunks@,
                abs_index_of(item@, mp.sender_randomness@, mp.receiver_digest@, mp.leaf_index, t),
            ),
    ensures
        after.spec_verify(item, mp),
{
}

/// Removing an item kills its own proof: once its removal record is
/// applied, every one of its Bloom-filter positions reads one, so no
/// position provably reads zero and the proof no longer verifies.
pub proof fn lemma_remove_kills_target(
    before: MutatorSetAccumulator,
    after: MutatorSetAccumulator,
    item: Digest,
    mp: MsMembershipProof,
    idxs: Seq<u128>,
)
    requires
        before.wf(),
        idxs.len() == NUM_TRIALS,
        forall|t: int|
            0 <= t < NUM_TRIALS ==> #[trigger] idxs[t] as int == abs_index_of(
                item@,
                mp.sender_randomness@,
                mp.receiver_digest@,
                mp.leaf_index,
                t,
            ),
        indices_in_window(idxs, before.offset()),
        after.state() == msa_remove_state(before.state(), idxs),
    ensures
        !after.spec_verify(item, mp),
{
    assert(after.inactive_leafs() == before.inactive_leafs());
    assert(after.offset() == before.offset());
    assert forall|t: int| 0 <= t < NUM_TRIALS implies !bit_provably_unset(
        after.inactive_leafs(),
        after.active_bits(),
        after.offset(),
        mp.target_chunks@,
        abs_index_of(item@, mp.sender_randomness@, mp.receiver_digest@, mp.leaf_index, t),
    ) by {
        let idx = abs_index_of(item@, mp.sender_randomness@, mp.receiver_digest@, mp.leaf_index, t);
        assert(idxs[t] as int == idx);
        assert(before.offset() <= idx < before.offset() + WINDOW_SIZE);
        lemma_apply_bits_contains(before.active_bits(), idxs, before.offset(), t);
        assert(after.active_bits().contains((idx - after.offset()) as u64));
    }
}

/// A removal touches neither the commitment log nor the evicted chunks,
/// so any other item's proof keeps authenticating; it still verifies
/// whenever one of its own positions still reads zero afterwards. The
/// excluded case is an item whose position set is covered by the removed
/// one together with the previously set bits.
pub proof fn lemma_remove_preserves_others(
    before: MutatorSetAccumulator,
    after: MutatorSetAccumulator,
    other_item: Digest,
    other_mp: MsMembershipProof,
    idxs: Seq<u128>,
)
    requires
        before.wf(),
        indices_in_window(idxs, before.offset()),
        after.state() == msa_remove_state(before.state(), idxs),
        before.spec_verify(other_item, other_mp),
        exists|t: int|
            0 <= t < NUM_TRIALS && bit_provably_unset(
                after.inactive_leafs(),
                after.active_bits(),
                after.offset(),
                other_mp.target_chunks@,
                abs_index_of(
                    other_item@,
                    other_mp.sender_randomness@,
                    other_mp.receiver_digest@,
                    other_mp.leaf_index,
                    t,
                ),
            ),
    ensures
        after.spec_verify(other_item, other_mp),
{
    assert(after.aocl_leafs() == before.aocl_leafs());
}

/// A fresh vector of removal records with the same views, record for
/// record.
pub fn copy_removal_records(v: &Vec<RemovalRecord>) -> (r: Vec<RemovalRecord>)
    ensures
        r@.len() == v@.len(),
        forall|i: int|
            0 <= i < v@.len() ==> (#[trigger] r@[i]).absolute_indices@
                == v@[i].absolute_indices@,
        records_indices(r@) == records_indices(v@),
{
    let mut out: Vec<RemovalRecord> = Vec::new();
    let mut i: usize = 0;
    while i < v.len()
        invariant
            0 <= i <= v@.len(),
            out@.len() == i,
            forall|j: int|
                0 <= j < i ==> (#[trigger] out@[j]).absolute_indices@ == v@[j].absolute_indices@,
        decreases v@.len() - i,
    {
        let rr = &v[i];
        out.push(
            RemovalRecord {
                absolute_indices: crate::encoding::copy_u128s(&rr.absolute_indices),
                target_chunks: copy_witnesses(&rr.target_chunks),
            },
        );
        i = i + 1;
    }
    proof {
        assert(records_indices(out@) =~= records_indices(v@));
    }
    out
}

/// A fresh vector with the same addition records.
pub fn copy_addition_records(v: &Vec<AdditionRecord>) -> (r: Vec<AdditionRecord>)
    ensures
        r@ == v@,
{
    let mut out: Vec<AdditionRecord> = Vec::new();
    let mut i: usize = 0;
    while i < v.len()
        invariant
            0 <= i <= v@.len(),
            out@ == v@.subrange(0, i as int),
        decreases v@.len() - i,
    {
        out.push(v[i]);
        proof {
            assert(v@.subrange(0, i as int).push(v@[i as int]) =~= v@.subrange(0, i + 1));
        }
        i = i + 1;
    }
    proof {
        assert(v@.subrange(0, v@.len() as int) =~= v@);
    }
    out
}

/// The per-block mutator-set change: the spent outputs' removal records and
/// the new outputs' addition records.
#[derive(Clone, Debug, PartialEq, Eq)]
pub struct MutatorSetUpdate {
    pub removals: Vec<RemovalRecord>,
    pub additions: Vec<AdditionRecord>,
}

/// The commitments of a list of addition records.
pub open spec fn additions_commitments(adds: Seq<AdditionRecord>) -> Seq<Seq<u64>> {
    adds.map_values(|a: AdditionRecord| a.canonical_commitment@)
}

impl MutatorSetUpdate {
    pub fn new(removals: Vec<RemovalRecord>, additions: Vec<AdditionRecord>) -> (r:
        MutatorSetUpdate)
        ensures
            r.removals == removals,
            r.additions == additions,
    {
        MutatorSetUpdate { removals, additions }
    }

    /// The empty update.
    pub fn default() -> (r: MutatorSetUpdate)
        ensures
            r.removals@ == Seq::<RemovalRecord>::empty(),
            r.additions@ == Seq::<AdditionRecord>::empty(),
    {
        MutatorSetUpdate { removals: Vec::new(), additions: Vec::new() }
    }

    /// Apply the update: all removals as if sequentially, then all
    /// additions in order. Fails, leaving the accumulator as it stood,
    /// exactly when a removal targets an evicted position.
    pub fn apply_to_accumulator(&self, accumulator: &mut MutatorSetAccumulator) -> (r: Result<
        (),
        MutatorSetError,
    >)
        requires
            old(accumulator).wf(),
            old(accumulator).aocl_leafs().len() + self.additions@.len()
                < 0x4000_0000_0000_0000,
            forall|i: int|
                0 <= i < self.additions@.len() ==> (#[trigger] self.additions@[i])
                    .canonical_commitment.wf(),
        ensures
            r is Ok <==> forall|i: int|
                0 <= i < self.removals@.len() ==> indices_in_window(
                    (#[trigger] self.removals@[i]).absolute_indices@,
                    old(accumulator).offset(),
                ),
            r is Ok ==> final (accumulator).state() == msa_adds(
                msa_removes(old(accumulator).state(), records_indices(self.removals@)),
                additions_commitments(self.additions@),
            ),
            r is Err ==> *final (accumulator) == *old(accumulator),
            final (accumulator).wf(),
    {
        let mut no_proofs: Vec<MsMembershipProof> = Vec::new();
        let res = accumulator.batch_remove(&self.removals, &mut no_proofs);
        if let Err(e) = res {
            return Err(e);
        }
        let ghost mid = accumulator.state();
        proof {
            lemma_removes_keep_logs(old(accumulator).state(), records_indices(self.removals@));
        }
        let mut i: usize = 0;
        while i < self.additions.len()
            invariant
                0 <= i <= self.additions@.len(),
                accumulator.wf(),
                forall|j: int|
                    0 <= j < self.additions@.len() ==> (#[trigger] self.additions@[j])
                        .canonical_commitment.wf(),
                mid.aocl.len() + self.additions@.len() < 0x4000_0000_0000_0000,
                accumulator.state() == msa_adds(
                    mid,
                    additions_commitments(self.additions@.subrange(0, i as int)),
                ),
                accumulator.aocl_leafs().len() == mid.aocl.len() + i,
            decreases self.additions@.len() - i,
        {
            accumulator.add(&self.additions[i]);
            proof {
                let pre = additions_commitments(self.additions@.subrange(0, i as int));
                let post = additions_commitments(self.additions@.subrange(0, i + 1));
                assert(post.drop_last() =~= pre);
                assert(post.last() == self.additions@[i as int].canonical_commitment@);
            }
            i = i + 1;
        }
        proof {
            assert(self.additions@.subrange(0, self.additions@.len() as int)
                =~= self.additions@);
        }
        Ok(())
    }
}

/// The canonical encoding of a whole mutator-set state: both accumulators,
/// then the active window behind a count prefix.
pub open spec fn msa_enc(s: MsaState) -> Seq<u64> {
    crate::block_body::mmr_enc(s.aocl) + crate::block_body::mmr_enc(s.inactive) + enc_len(
        s.active.len() as int,
    ) + s.active
}

/// Encode a mutator set canonically.
pub fn encode_msa(msa: &MutatorSetAccumulator) -> (r: Vec<u64>)
    requires
        msa.wf(),
    ensures
        r@ == msa_enc(msa.state()),
        crate::encoding::felts_ok(r@),
{
    let aocl_seq = crate::block_body::encode_mmr(&msa.aocl);
    let inactive_seq = crate::block_body::encode_mmr(&msa.swbf_inactive);
    let mut out: Vec<u64> = Vec::new();
    crate::encoding::push_felts(&mut out, &aocl_seq);
    crate::encoding::push_felts(&mut out, &inactive_seq);
    proof {
        crate::swbf::lemma_active_window_len(msa.swbf_active.bits@);
        crate::encoding::lemma_felts_ok_concat(aocl_seq@, inactive_seq@);
    }
    crate::encoding::push_len(&mut out, msa.swbf_active.bits.len());
    crate::encoding::push_felts(&mut out, &msa.swbf_active.bits);
    proof {
        assert(out@ =~= msa_enc(msa.state()));
        assert forall|i: int| 0 <= i < out@.len() implies #[trigger] out@[i] < FIELD_PRIME by {
            let a = aocl_seq@ + inactive_seq@;
            if i < a.len() {
                assert(out@[i] == a[i]);
            } else if i == a.len() {
                assert(out@[i] == msa.active_bits().len() as u64);
            } else {
                assert(out@[i] == msa.active_bits()[i - a.len() - 1]);
                assert(msa.active_bits()[i - a.len() - 1] < WINDOW_SIZE);
            }
        }
    }
    out
}

impl Clone for MutatorSetAccumulator {
    /// A clone commits to the same state, and stays well formed if the
    /// source was.
    fn clone(&self) -> (r: Self)
        ensures
            r.state() == self.state(),
            self.wf() ==> r.wf(),
    {
        let r = MutatorSetAccumulator {
            aocl: mmr_clone(&self.aocl),
            swbf_inactive: mmr_clone(&self.swbf_inactive),
            swbf_active: ActiveWindow { bits: crate::encoding::copy_u64s(&self.swbf_active.bits) },
        };
        proof {
            assert(r.state() == self.state());
        }
        r
    }
}

/// Whether any of an item's Bloom-filter positions falls in a given chunk.
pub open spec fn own_indices_touch_chunk(
    item: Seq<u64>,
    sender_randomness: Seq<u64>,
    receiver_digest: Seq<u64>,
    leaf_index: u64,
    ci: int,
) -> bool {
    exists|t: int|
        0 <= t < NUM_TRIALS && #[trigger] abs_index_of(
            item,
            sender_randomness,
            receiver_digest,
            leaf_index,
            t,
        ) / (CHUNK_SIZE as int) == ci
}

impl MsMembershipProof {
    /// Update the proof under a concurrent addition to the set the proof's
    /// item lives in. The authentication path is corrected for the append;
    /// when the addition slides the window past one of the item's own
    /// positions, a witness for the freshly evicted chunk is attached.
    /// Returns whether the proof data changed.
    pub fn update_from_addition(
        &mut self,
        own_item: &Digest,
        msa_before: &MutatorSetAccumulator,
        addition_record: &AdditionRecord,
    ) -> (r: bool)
        requires
            old(self).wf(),
            own_item.wf(),
            msa_before.wf(),
            addition_record.canonical_commitment.wf(),
            old(self).leaf_index < msa_before.aocl_leafs().len(),
        ensures
            final (self).sender_randomness == old(self).sender_randomness,
            final (self).receiver_digest == old(self).receiver_digest,
            final (self).leaf_index == old(self).leaf_index,
            final (self).wf(),
            // The corrected path authenticates the same leaf against the
            // accumulator as it stands after the append.
            forall|l: Seq<u64>|
                #[trigger] mmr_path_ok(
                    digests_view(old(self).aocl_path@),
                    old(self).leaf_index as int,
                    l,
                    mmr_peaks_of(msa_before.aocl_leafs()),
                    msa_before.aocl_leafs().len() as int,
                ) ==> mmr_path_ok(
                    digests_view(final (self).aocl_path@),
                    old(self).leaf_index as int,
                    l,
                    mmr_peaks_of(
                        msa_before.aocl_leafs().push(addition_record.canonical_commitment@),
                    ),
                    msa_before.aocl_leafs().len() + 1int,
                ),
            // When the window slides over one of the item's own positions,
            // the freshly evicted chunk is witnessed against the new
            // inactive accumulator.
            msa_before.add_slides() && own_indices_touch_chunk(
                own_item@,
                old(self).sender_randomness@,
                old(self).receiver_digest@,
                old(self).leaf_index,
                msa_before.inactive_leafs().len() as int,
            ) ==> {
                &&& final (self).target_chunks@.len() == old(self).target_chunks@.len() + 1
                &&& final (self).target_chunks@.subrange(
                    0,
                    old(self).target_chunks@.len() as int,
                ) == old(self).target_chunks@
                &&& final (self).target_chunks@.last().chunk_index as int
                    == msa_before.inactive_leafs().len()
                &&& final (self).target_chunks@.last().chunk.bits@ == crate::swbf::evicted_bits(
                    msa_before.active_bits(),
                )
                &&& mmr_path_ok(
                    digests_view(final (self).target_chunks@.last().path@),
                    msa_before.inactive_leafs().len() as int,
                    chunk_digest_of(crate::swbf::evicted_bits(msa_before.active_bits())),
                    mmr_peaks_of(
                        msa_before.inactive_leafs().push(
                            chunk_digest_of(crate::swbf::evicted_bits(msa_before.active_bits())),
                        ),
                    ),
                    msa_before.inactive_leafs().len() + 1int,
                )
            },
            !(msa_before.add_slides() && own_indices_touch_chunk(
                own_item@,
                old(self).sender_randomness@,
                old(self).receiver_digest@,
                old(self).leaf_index,
                msa_before.inactive_leafs().len() as int,
            )) ==> final (self).target_chunks@ == old(self).target_chunks@,
    {
        let old_count = mmr_num_leafs(&msa_before.aocl);
        let old_peaks = mmr_peaks(&msa_before.aocl);
        proof {
            // The peaks just read are the peaks of the accumulator's own
            // leaf sequence, whose length is the count just read.
            assert(mmr_leafs(msa_before.aocl).len() == old_count && digests_view(old_peaks@)
                == mmr_peaks_of(mmr_leafs(msa_before.aocl)));
        }
        let changed = crate::mmr::mmr_update_path_from_append(
            &mut self.aocl_path,
            self.leaf_index,
            old_count,
            &addition_record.canonical_commitment,
            &old_peaks,
        );
        let mut added = false;
        if (old_count + 1) % CHUNK_SIZE == 0 {
            let ci = mmr_num_leafs(&msa_before.swbf_inactive);
            let indices = derive_index_set(
                own_item,
                &self.sender_randomness,
                &self.receiver_digest,
                self.leaf_index,
            );
            let mut touches = false;
            let mut t: usize = 0;
            while t < indices.len()
                invariant
                    0 <= t <= indices@.len(),
                    indices@.len() == NUM_TRIALS,
                    ci as int == msa_before.inactive_leafs().len(),
                    forall|j: int|
                        0 <= j < NUM_TRIALS ==> indices@[j] as int == abs_index_of(
                            own_item@,
                            self.sender_randomness@,
                            self.receiver_digest@,
                            self.leaf_index,
                            j,
                        ),
                    self.sender_randomness == old(self).sender_randomness,
                    self.receiver_digest == old(self).receiver_digest,
                    self.leaf_index == old(self).leaf_index,
                    touches ==> own_indices_touch_chunk(
                        own_item@,
                        self.sender_randomness@,
                        self.receiver_digest@,
                        self.leaf_index,
                        ci as int,
                    ),
                    !touches ==> forall|j: int|
                        0 <= j < t ==> #[trigger] abs_index_of(
                            own_item@,
                            self.sender_randomness@,
                            self.receiver_digest@,
                            self.leaf_index,
                            j,
                        ) / (CHUNK_SIZE as int) != ci as int,
                decreases indices@.len() - t,
            {
                if indices[t] / (CHUNK_SIZE as u128) == ci as u128 {
                    proof {
                        assert(indices@[t as int] as int / (CHUNK_SIZE as int) == ci as int);
                    }
                    touches = true;
                }
                t = t + 1;
            }
            if touches {
                let mut window = ActiveWindow {
                    bits: crate::encoding::copy_u64s(&msa_before.swbf_active.bits),
                };
                let chunk = window.slide();
                let cd = chunk.digest();
                let mut simulated = mmr_clone(&msa_before.swbf_inactive);
                let path = mmr_append(&mut simulated, &cd);
                self.target_chunks.push(ChunkWitness { chunk_index: ci, chunk, path });
                added = true;
            }
        }
        changed || added
    }

    /// Update the proof under a concurrent removal. Removals only set
    /// window bits: they never slide the window and never change an
    /// evicted chunk, so the proof's data is already current and nothing
    /// changes.
    pub fn update_from_remove(&mut self, _removal_record: &RemovalRecord) -> (r: bool)
        ensures
            *final (self) == *old(self),
            r == false,
    {
        false
    }
}

} // verus!
