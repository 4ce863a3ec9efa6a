//! The block body: the block's transaction kernel, the mutator set after
//! that transaction, and the two auxiliary accumulators, MAST-hashed.

use crate::encoding::enc_len;
use crate::encoding::enc_u64;
use crate::encoding::felts_ok;
use crate::encoding::push_digest;
use crate::encoding::push_len;
use crate::encoding::push_u64;
use crate::mast::mast_root;
use crate::mast::mast_root_of;
use crate::mmr::digests_view;
use crate::mmr::mmr_leafs;
use crate::mmr::mmr_num_leafs;
use crate::mmr::mmr_peaks;
use crate::mmr::mmr_peaks_of;
use crate::mutator_set::MutatorSetAccumulator;
use crate::transaction_kernel::TransactionKernel;
use crate::Digest;
use crate::FIELD_PRIME;
use twenty_first::util_types::mmr::mmr_accumulator::MmrAccumulator;
use vstd::prelude::*;

verus! {

/// The ordered MAST fields of a block body.
#[derive(Clone, Copy, Debug, PartialEq, Eq, Structural)]
pub enum BlockBodyField {
    TransactionKernel,
    MutatorSetAccumulator,
    LockFreeMmrAccumulator,
    BlockMmrAccumulator,
}

impl BlockBodyField {
    /// The stable position of the field among the MAST leafs.
    pub fn discriminant(&self) -> (r: usize)
        ensures
            r == self.discriminant_spec(),
    {
        match self {
            BlockBodyField::TransactionKernel => 0,
            BlockBodyField::MutatorSetAccumulator => 1,
            BlockBodyField::LockFreeMmrAccumulator => 2,
            BlockBodyField::BlockMmrAccumulator => 3,
        }
    }

    pub open spec fn discriminant_spec(self) -> int {
        match self {
            BlockBodyField::TransactionKernel => 0,
            BlockBodyField::MutatorSetAccumulator => 1,
            BlockBodyField::LockFreeMmrAccumulator => 2,
            BlockBodyField::BlockMmrAccumulator => 3,
        }
    }
}

/// The flattened limbs of a peak list.
pub open spec fn peaks_flat(peaks: Seq<Seq<u64>>) -> Seq<u64>
    decreases peaks.len(),
{
    if peaks.len() == 0 {
        Seq::empty()
    } else {
        peaks_flat(peaks.drop_last()) + peaks.last()
    }
}

/// The canonical encoding of a mountain-range accumulator: its leaf count,
/// then its peaks behind a count prefix. A function of the leaf sequence.
pub open spec fn mmr_enc(leafs: Seq<Seq<u64>>) -> Seq<u64> {
    enc_u64(leafs.len() as u64) + enc_len(mmr_peaks_of(leafs).len() as int) + peaks_flat(
        mmr_peaks_of(leafs),
    )
}

/// Encode an accumulator through its peaks and leaf count.
pub fn encode_mmr(m: &MmrAccumulator) -> (r: Vec<u64>)
    requires
        crate::mmr::mmr_ok(*m),
        mmr_leafs(*m).len() < 0x4000_0000_0000_0000,
    ensures
        r@ == mmr_enc(mmr_leafs(*m)),
        felts_ok(r@),
{
    let n = mmr_num_leafs(m);
    let peaks = mmr_peaks(m);
    let mut out: Vec<u64> = Vec::new();
    push_u64(&mut out, n);
    push_len(&mut out, peaks.len());
    let ghost flat_start = out@;
    let mut i: usize = 0;
    while i < peaks.len()
        invariant
            0 <= i <= peaks@.len(),
            crate::mmr::digests_wf(peaks@),
            digests_view(peaks@) == mmr_peaks_of(mmr_leafs(*m)),
            out@ == flat_start + peaks_flat(digests_view(peaks@).subrange(0, i as int)),
            felts_ok(out@),
        decreases peaks@.len() - i,
    {
        let ghost pre = digests_view(peaks@).subrange(0, i as int);
        let ghost before = out@;
        push_digest(&mut out, &peaks[i]);
        proof {
            assert(digests_view(peaks@).subrange(0, i + 1).drop_last() =~= pre);
            assert(digests_view(peaks@).subrange(0, i + 1).last() == peaks@[i as int]@);
            crate::encoding::lemma_felts_ok_concat(before, peaks@[i as int]@);
        }
        i = i + 1;
    }
    proof {
        assert(digests_view(peaks@).subrange(0, digests_view(peaks@).len() as int) =~= digests_view(
            peaks@,
        ));
        crate::encoding::lemma_enc_u64_ok(n);
        assert(felts_ok(flat_start)) by {
            assert forall|j: int| 0 <= j < flat_start.len() implies #[trigger] flat_start[j]
                < FIELD_PRIME by {
                if j < 2 {
                    assert(flat_start[j] == enc_u64(n)[j]);
                } else {
                    assert(flat_start[j] == peaks@.len() as u64);
                }
            }
        }
    }
    out
}

/// The block body. The mutator-set accumulator is the state *after* the
/// block's transaction is applied.
#[derive(Clone, Debug)]
pub struct BlockBody {
    pub transaction_kernel: TransactionKernel,
    pub mutator_set_accumulator: MutatorSetAccumulator,
    pub lock_free_mmr_accumulator: MmrAccumulator,
    pub block_mmr_accumulator: MmrAccumulator,
}

/// The ordered MAST field encodings of a block body.
pub open spec fn body_sequences(b: BlockBody) -> Seq<Seq<u64>> {
    seq![
        b.transaction_kernel.mast_hash_spec(),
        crate::mutator_set::msa_enc(b.mutator_set_accumulator.state()),
        mmr_enc(mmr_leafs(b.lock_free_mmr_accumulator)),
        mmr_enc(mmr_leafs(b.block_mmr_accumulator)),
    ]
}

/// The MAST hash of a block body.
pub open spec fn body_mast_hash(b: BlockBody) -> Seq<u64> {
    mast_root_of(body_sequences(b))
}

impl BlockBody {
    pub open spec fn wf(self) -> bool {
        &&& self.transaction_kernel.wf()
        &&& self.mutator_set_accumulator.wf()
        &&& crate::mmr::mmr_ok(self.lock_free_mmr_accumulator)
        &&& crate::mmr::mmr_ok(self.block_mmr_accumulator)
        &&& mmr_leafs(self.lock_free_mmr_accumulator).len() < 0x4000_0000_0000_0000
        &&& mmr_leafs(self.block_mmr_accumulator).len() < 0x4000_0000_0000_0000
    }

    pub fn new(
        transaction_kernel: TransactionKernel,
        mutator_set_accumulator: MutatorSetAccumulator,
        lock_free_mmr_accumulator: MmrAccumulator,
        block_mmr_accumulator: MmrAccumulator,
    ) -> (r: BlockBody)
        ensures
            r.transaction_kernel == transaction_kernel,
            r.mutator_set_accumulator == mutator_set_accumulator,
            r.lock_free_mmr_accumulator == lock_free_mmr_accumulator,
            r.block_mmr_accumulator == block_mmr_accumulator,
    {
        BlockBody {
            transaction_kernel,
            mutator_set_accumulator,
            lock_free_mmr_accumulator,
            block_mmr_accumulator,
        }
    }

    /// The ordered MAST field encodings.
    pub fn mast_sequences(&self) -> (r: Vec<Vec<u64>>)
        requires
            self.wf(),
        ensures
            crate::mast::felt_seqs_view(r@) == body_sequences(*self),
            crate::mast::felt_seqs_ok(r@),
            r@.len() == 4,
    {
        let txk_hash = self.transaction_kernel.mast_hash();
        let mut txk_seq: Vec<u64> = Vec::new();
        push_digest(&mut txk_seq, &txk_hash);
        let msa_seq = crate::mutator_set::encode_msa(&self.mutator_set_accumulator);
        let lock_free_seq = encode_mmr(&self.lock_free_mmr_accumulator);
        let block_mmr_seq = encode_mmr(&self.block_mmr_accumulator);
        let mut out: Vec<Vec<u64>> = Vec::new();
        out.push(txk_seq);
        out.push(msa_seq);
        out.push(lock_free_seq);
        out.push(block_mmr_seq);
        proof {
            assert(txk_seq@ =~= self.transaction_kernel.mast_hash_spec());
            assert(crate::mast::felt_seqs_view(out@) =~= body_sequences(*self));
            assert forall|i: int| 0 <= i < out@.len() implies felts_ok(
                (#[trigger] out@[i])@,
            ) by {
                if i == 0 {
                    assert(out@[0]@ == txk_seq@);
                }
            }
        }
        out
    }

    /// The body's MAST hash.
    pub fn mast_hash(&self) -> (r: Digest)
        requires
            self.wf(),
        ensures
            r@ == body_mast_hash(*self),
            r.wf(),
    {
        let sequences = self.mast_sequences();
        mast_root(&sequences)
    }
}

} // verus!
