//! The block header: the plain consensus fields of a block.

use crate::difficulty::Difficulty;
use crate::encoding::enc_u64;
use crate::encoding::felts_ok;
use crate::encoding::push_digest;
use crate::timestamp::Timestamp;
use crate::Digest;
use crate::FIELD_PRIME;
use vstd::prelude::*;

verus! {

/// The largest accepted block size, in field elements.
pub const MAX_BLOCK_SIZE: u32 = 1_000_000;

/// The plain header fields of a block.
#[derive(Clone, Copy, Debug)]
pub struct BlockHeader {
    pub version: u64,
    pub height: u64,
    pub prev_block_digest: Digest,
    pub timestamp: Timestamp,
    pub nonce: [u64; 3],
    pub max_block_size: u32,
    pub cumulative_proof_of_work: Difficulty,
    pub difficulty: Difficulty,
}

/// The five 32-bit limbs of a difficulty, spelled as field elements.
pub open spec fn difficulty_enc(d: Difficulty) -> Seq<u64> {
    seq![
        ((d.lo % 0x1_0000_0000) as u64),
        ((d.lo / 0x1_0000_0000 % 0x1_0000_0000) as u64),
        ((d.lo / 0x1_0000_0000_0000_0000 % 0x1_0000_0000) as u64),
        ((d.lo / 0x1_0000_0000_0000_0000_0000_0000) as u64),
        (d.hi as u64),
    ]
}

/// The canonical field-element encoding of a header.
pub open spec fn header_enc(h: BlockHeader) -> Seq<u64> {
    seq![h.version, h.height] + h.prev_block_digest@ + seq![
        h.timestamp.millis,
        h.nonce[0],
        h.nonce[1],
        h.nonce[2],
        h.max_block_size as u64,
    ] + difficulty_enc(h.cumulative_proof_of_work) + difficulty_enc(h.difficulty)
}

impl BlockHeader {
    /// Every header field fits its field-element encoding, and the height
    /// leaves room for chain arithmetic.
    pub open spec fn wf(self) -> bool {
        &&& self.version < FIELD_PRIME
        &&& self.height < 0x4000_0000_0000_0000
        &&& self.prev_block_digest.wf()
        &&& self.timestamp.wf()
        &&& self.nonce[0] < FIELD_PRIME
        &&& self.nonce[1] < FIELD_PRIME
        &&& self.nonce[2] < FIELD_PRIME
    }

    /// The canonical field-element encoding.
    pub fn encode(&self) -> (r: Vec<u64>)
        requires
            self.wf(),
        ensures
            r@ == header_enc(*self),
            felts_ok(r@),
    {
        let mut out: Vec<u64> = Vec::new();
        out.push(self.version);
        out.push(self.height);
        push_digest(&mut out, &self.prev_block_digest);
        out.push(self.timestamp.millis);
        out.push(self.nonce[0]);
        out.push(self.nonce[1]);
        out.push(self.nonce[2]);
        out.push(self.max_block_size as u64);
        push_difficulty(&mut out, &self.cumulative_proof_of_work);
        push_difficulty(&mut out, &self.difficulty);
        proof {
            assert(out@ =~= header_enc(*self));
            assert forall|i: int| 0 <= i < out@.len() implies #[trigger] out@[i] < FIELD_PRIME by {
                let s = out@;
                if i == 0 || i == 1 {
                } else if i < 7 {
                    assert(s[i] == self.prev_block_digest@[i - 2]);
                } else if i < 12 {
                } else if i < 17 {
                    assert(s[i] == difficulty_enc(self.cumulative_proof_of_work)[i - 12]);
                    lemma_difficulty_enc_felts(self.cumulative_proof_of_work);
                } else {
                    assert(s[i] == difficulty_enc(self.difficulty)[i - 17]);
                    lemma_difficulty_enc_felts(self.difficulty);
                }
            }
        }
        out
    }
}

/// Each spelled difficulty limb is a 32-bit value, hence a field element.
proof fn lemma_difficulty_enc_felts(d: Difficulty)
    ensures
        felts_ok(difficulty_enc(d)),
        difficulty_enc(d).len() == 5,
{
    assert(d.lo / 0x1_0000_0000_0000_0000_0000_0000 < 0x1_0000_0000) by {
        assert(d.lo <= u128::MAX);
    }
    assert forall|i: int| 0 <= i < 5 implies #[trigger] difficulty_enc(d)[i] < FIELD_PRIME by {
        if i == 0 {
            assert(difficulty_enc(d)[0] == (d.lo % 0x1_0000_0000) as u64);
        }
    }
}

/// The header encoding is injective: equal encodings force equal headers.
/// Every field sits at a fixed position, and a difficulty is recomposed
/// from its spelled limbs.
pub proof fn lemma_header_enc_injective(a: BlockHeader, b: BlockHeader)
    requires
        header_enc(a) == header_enc(b),
    ensures
        a == b,
{
    let ea = header_enc(a);
    let eb = header_enc(b);
    assert(a.version == ea[0] && b.version == eb[0]);
    assert(a.height == ea[1] && b.height == eb[1]);
    assert forall|i: int| 0 <= i < 5 implies a.prev_block_digest@[i] == b.prev_block_digest@[i] by {
        assert(ea[2 + i] == a.prev_block_digest@[i]);
        assert(eb[2 + i] == b.prev_block_digest@[i]);
    }
    assert(a.prev_block_digest == b.prev_block_digest);
    assert(a.timestamp.millis == ea[7] && b.timestamp.millis == eb[7]);
    assert(a.nonce[0] == ea[8] && a.nonce[1] == ea[9] && a.nonce[2] == ea[10]);
    assert(b.nonce[0] == eb[8] && b.nonce[1] == eb[9] && b.nonce[2] == eb[10]);
    assert(a.nonce =~= b.nonce);
    assert(a.max_block_size == ea[11] && b.max_block_size == eb[11]);
    assert forall|i: int| 0 <= i < 5 implies difficulty_enc(a.cumulative_proof_of_work)[i]
        == difficulty_enc(b.cumulative_proof_of_work)[i] by {
        assert(ea[12 + i] == difficulty_enc(a.cumulative_proof_of_work)[i]);
        assert(eb[12 + i] == difficulty_enc(b.cumulative_proof_of_work)[i]);
    }
    assert forall|i: int| 0 <= i < 5 implies difficulty_enc(a.difficulty)[i] == difficulty_enc(
        b.difficulty,
    )[i] by {
        assert(ea[17 + i] == difficulty_enc(a.difficulty)[i]);
        assert(eb[17 + i] == difficulty_enc(b.difficulty)[i]);
    }
    lemma_difficulty_enc_injective(a.cumulative_proof_of_work, b.cumulative_proof_of_work);
    lemma_difficulty_enc_injective(a.difficulty, b.difficulty);
}

/// Equal spelled limbs force equal difficulties: the low part is
/// recomposed from its four 32-bit chunks, the high part is the fifth
/// limb.
proof fn lemma_difficulty_enc_injective(a: Difficulty, b: Difficulty)
    requires
        forall|i: int| 0 <= i < 5 ==> #[trigger] difficulty_enc(a)[i] == difficulty_enc(b)[i],
    ensures
        a == b,
{
    crate::difficulty::lemma_u128_chunks(a.lo);
    crate::difficulty::lemma_u128_chunks(b.lo);
    assert(difficulty_enc(a)[0] == difficulty_enc(b)[0]);
    assert(difficulty_enc(a)[1] == difficulty_enc(b)[1]);
    assert(difficulty_enc(a)[2] == difficulty_enc(b)[2]);
    assert(difficulty_enc(a)[3] == difficulty_enc(b)[3]);
    assert(difficulty_enc(a)[4] == difficulty_enc(b)[4]);
    assert(a.hi == b.hi);
    assert(a.lo == b.lo);
}

/// Append the five 32-bit limbs of a difficulty.
pub fn push_difficulty(out: &mut Vec<u64>, d: &Difficulty)
    ensures
        final (out)@ == old(out)@ + difficulty_enc(*d),
{
    out.push((d.lo % 0x1_0000_0000) as u64);
    out.push((d.lo / 0x1_0000_0000 % 0x1_0000_0000) as u64);
    out.push((d.lo / 0x1_0000_0000_0000_0000 % 0x1_0000_0000) as u64);
    out.push((d.lo / 0x1_0000_0000_0000_0000_0000_0000) as u64);
    out.push(d.hi as u64);
    proof {
        assert(out@ =~= old(out)@ + difficulty_enc(*d));
    }
}

} // verus!
