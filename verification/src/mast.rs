//! MAST hashing: the Merkle root of a type's field encodings.
//!
//! Each field encodes to a field-element sequence; its leaf is the
//! variable-length hash of that sequence. The leaf list is padded to the
//! next power of two with the zero digest, and the root is computed by
//! pairwise hashing.

use crate::hashing::hash_pair;
use crate::hashing::hash_pair_of;
use crate::hashing::hash_varlen;
use crate::hashing::hash_varlen_of;
use crate::encoding::felts_ok;
use crate::mmr::digests_view;
use crate::mmr::digests_wf;
use crate::Digest;
use vstd::prelude::*;

verus! {

/// Whether `n` is a power of two.
pub open spec fn is_pow2(n: int) -> bool
    decreases n,
{
    if n <= 0 {
        false
    } else if n == 1 {
        true
    } else {
        n % 2 == 0 && is_pow2(n / 2)
    }
}

/// One level of pairwise hashing.
pub open spec fn pair_level(nodes: Seq<Seq<u64>>) -> Seq<Seq<u64>> {
    Seq::new(nodes.len() / 2, |i: int| hash_pair_of(nodes[2 * i], nodes[2 * i + 1]))
}

/// The Merkle root of a power-of-two list of node digests.
pub open spec fn merkle_root_of(nodes: Seq<Seq<u64>>) -> Seq<u64>
    decreases nodes.len(),
{
    if nodes.len() <= 1 {
        nodes[0]
    } else {
        merkle_root_of(pair_level(nodes))
    }
}

/// The limb sequence of the zero digest.
pub open spec fn zero_digest_view() -> Seq<u64> {
    seq![0u64, 0u64, 0u64, 0u64, 0u64]
}

/// The smallest power of two at or above `n`, for the small field counts
/// MAST hashing meets.
pub open spec fn next_pow2_16(n: int) -> int {
    if n <= 1 {
        1
    } else if n <= 2 {
        2
    } else if n <= 4 {
        4
    } else if n <= 8 {
        8
    } else {
        16
    }
}

/// The padded leaf list of a MAST: one variable-length hash per field
/// encoding, extended to the next power of two with the zero digest.
pub open spec fn mast_leafs_of(seqs: Seq<Seq<u64>>) -> Seq<Seq<u64>> {
    Seq::new(
        next_pow2_16(seqs.len() as int) as nat,
        |i: int|
            if i < seqs.len() {
                hash_varlen_of(seqs[i])
            } else {
                zero_digest_view()
            },
    )
}

/// The MAST root of an ordered list of field encodings.
pub open spec fn mast_root_of(seqs: Seq<Seq<u64>>) -> Seq<u64> {
    merkle_root_of(mast_leafs_of(seqs))
}

/// The views of a list of field encodings.
pub open spec fn felt_seqs_view(v: Seq<Vec<u64>>) -> Seq<Seq<u64>> {
    v.map_values(|s: Vec<u64>| s@)
}

/// Every field encoding holds canonical field elements.
pub open spec fn felt_seqs_ok(v: Seq<Vec<u64>>) -> bool {
    forall|i: int| 0 <= i < v.len() ==> felts_ok((#[trigger] v[i])@)
}

/// The Merkle root of a power-of-two list of node digests.
pub fn merkle_root(nodes: Vec<Digest>) -> (r: Digest)
    requires
        is_pow2(nodes@.len() as int),
        nodes@.len() <= 16,
        digests_wf(nodes@),
    ensures
        r@ == merkle_root_of(digests_view(nodes@)),
        r.wf(),
{
    let mut cur = nodes;
    while cur.len() > 1
        invariant
            1 <= cur@.len() <= 16,
            is_pow2(cur@.len() as int),
            digests_wf(cur@),
            merkle_root_of(digests_view(cur@)) == merkle_root_of(digests_view(nodes@)),
        decreases cur@.len(),
    {
        let ghost prev = cur@;
        let mut next: Vec<Digest> = Vec::new();
        let mut i: usize = 0;
        while i < cur.len() / 2
            invariant
                0 <= i <= cur@.len() / 2,
                cur@.len() >= 2,
                digests_wf(cur@),
                digests_wf(next@),
                next@.len() == i,
                forall|j: int|
                    0 <= j < i ==> (#[trigger] next@[j])@ == hash_pair_of(
                        cur@[2 * j]@,
                        cur@[2 * j + 1]@,
                    ),
            decreases cur@.len() / 2 - i,
        {
            let h = hash_pair(&cur[2 * i], &cur[2 * i + 1]);
            next.push(h);
            i = i + 1;
        }
        proof {
            assert(digests_view(next@) =~= pair_level(digests_view(prev)));
            assert(prev.len() % 2 == 0);
        }
        cur = next;
    }
    proof {
        assert(digests_view(cur@)[0] == cur@[0]@);
    }
    cur[0]
}

/// The MAST root of an ordered list of field encodings.
pub fn mast_root(sequences: &Vec<Vec<u64>>) -> (r: Digest)
    requires
        1 <= sequences@.len() <= 16,
        felt_seqs_ok(sequences@),
    ensures
        r@ == mast_root_of(felt_seqs_view(sequences@)),
        r.wf(),
{
    let mut leafs: Vec<Digest> = Vec::new();
    let mut i: usize = 0;
    while i < sequences.len()
        invariant
            0 <= i <= sequences@.len(),
            felt_seqs_ok(sequences@),
            leafs@.len() == i,
            digests_wf(leafs@),
            forall|j: int|
                0 <= j < i ==> (#[trigger] leafs@[j])@ == hash_varlen_of(sequences@[j]@),
        decreases sequences@.len() - i,
    {
        let h = hash_varlen(&sequences[i]);
        leafs.push(h);
        i = i + 1;
    }
    let n: usize = sequences.len();
    let target: usize = if n <= 1 {
        1
    } else if n <= 2 {
        2
    } else if n <= 4 {
        4
    } else if n <= 8 {
        8
    } else {
        16
    };
    while leafs.len() < target
        invariant
            sequences@.len() <= leafs@.len() <= target,
            target == next_pow2_16(sequences@.len() as int),
            digests_wf(leafs@),
            forall|j: int|
                0 <= j < sequences@.len() ==> (#[trigger] leafs@[j])@ == hash_varlen_of(
                    sequences@[j]@,
                ),
            forall|j: int|
                sequences@.len() <= j < leafs@.len() ==> (#[trigger] leafs@[j])@
                    == zero_digest_view(),
        decreases target - leafs@.len(),
    {
        leafs.push(Digest::zero());
    }
    proof {
        reveal_with_fuel(is_pow2, 6);
        assert(is_pow2(next_pow2_16(sequences@.len() as int)));
        assert(digests_view(leafs@) =~= mast_leafs_of(felt_seqs_view(sequences@)));
    }
    merkle_root(leafs)
}

} // verus!
