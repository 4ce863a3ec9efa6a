//! The Merkle-mountain-range accumulator that backs the append-only
//! commitment log, the inactive Bloom-filter part and the block ancestry
//! record.
//!
//! The accumulator itself comes from the `twenty-first` crate and is opaque
//! here; its leaf sequence is named by an uninterpreted spec function, and
//! each operation the crate relies on is wrapped with a contract over that
//! name.

use crate::hashing::from_tf;
use crate::hashing::tf_digest_limbs;
use crate::hashing::tf_digests_view;
use crate::hashing::to_tf;
use crate::Digest;
use twenty_first::prelude::Digest as TfDigest;
use twenty_first::util_types::mmr::mmr_accumulator::MmrAccumulator;
use twenty_first::util_types::mmr::mmr_membership_proof::MmrMembershipProof;
use twenty_first::util_types::mmr::mmr_trait::Mmr;
use vstd::prelude::*;

verus! {

#[verifier::external_type_specification]
#[verifier::external_body]
pub struct ExMmrAccumulator(MmrAccumulator);

/// The limb sequences of a sequence of digests.
pub open spec fn digests_view(s: Seq<Digest>) -> Seq<Seq<u64>> {
    s.map_values(|d: Digest| d@)
}

/// Every digest of the sequence has canonical limbs.
pub open spec fn digests_wf(s: Seq<Digest>) -> bool {
    forall|i: int| 0 <= i < s.len() ==> (#[trigger] s[i]).wf()
}

/// The sequence of leaf digests an accumulator commits to.
pub uninterp spec fn mmr_leafs(m: MmrAccumulator) -> Seq<Seq<u64>>;

/// Whether an accumulator is well formed: its stored peaks agree with its
/// stored leaf count. Every accumulator this crate builds is; a value
/// assembled elsewhere (the crate's public constructor taking raw peaks,
/// or deserialisation) need not be, and the wrappers promise nothing of
/// such a value.
pub uninterp spec fn mmr_ok(m: MmrAccumulator) -> bool;

/// The peaks of the mountain range over a given leaf sequence.
pub uninterp spec fn mmr_peaks_of(leafs: Seq<Seq<u64>>) -> Seq<Seq<u64>>;

/// The single digest that bags the peaks of a given leaf sequence.
pub uninterp spec fn mmr_bag_of(leafs: Seq<Seq<u64>>) -> Seq<u64>;

/// Whether an authentication path proves that `leaf` sits at `leaf_index`
/// under the given peaks of an accumulator with `num_leafs` leafs.
pub uninterp spec fn mmr_path_ok(
    path: Seq<Seq<u64>>,
    leaf_index: int,
    leaf: Seq<u64>,
    peaks: Seq<Seq<u64>>,
    num_leafs: int,
) -> bool;

/// Whether every digest of the list has canonical limbs.
pub fn digests_all_wf(v: &Vec<Digest>) -> (r: bool)
    ensures
        r == digests_wf(v@),
{
    let mut i: usize = 0;
    while i < v.len()
        invariant
            0 <= i <= v@.len(),
            forall|j: int| 0 <= j < i ==> (#[trigger] v@[j]).wf(),
        decreases v@.len() - i,
    {
        let d = &v[i];
        if !(d.l0 < crate::FIELD_PRIME && d.l1 < crate::FIELD_PRIME && d.l2 < crate::FIELD_PRIME
            && d.l3 < crate::FIELD_PRIME && d.l4 < crate::FIELD_PRIME) {
            return false;
        }
        i = i + 1;
    }
    true
}

/// Convert a list of the crate's digests into opaque digests with the
/// same limbs.
fn to_tf_vec(v: &Vec<Digest>) -> (r: Vec<TfDigest>)
    requires
        digests_wf(v@),
    ensures
        tf_digests_view(r@) == digests_view(v@),
        r@.len() == v@.len(),
{
    let mut out: Vec<TfDigest> = Vec::new();
    let mut i: usize = 0;
    while i < v.len()
        invariant
            0 <= i <= v@.len(),
            digests_wf(v@),
            out@.len() == i,
            forall|j: int| 0 <= j < i ==> tf_digest_limbs(#[trigger] out@[j]) == v@[j]@,
        decreases v@.len() - i,
    {
        out.push(to_tf(&v[i]));
        i = i + 1;
    }
    proof {
        assert(tf_digests_view(out@) =~= digests_view(v@));
    }
    out
}

/// Convert a list of opaque digests back into the crate's digests.
fn from_tf_vec(v: &Vec<TfDigest>) -> (r: Vec<Digest>)
    ensures
        digests_view(r@) == tf_digests_view(v@),
        digests_wf(r@),
        r@.len() == v@.len(),
{
    let mut out: Vec<Digest> = Vec::new();
    let mut i: usize = 0;
    while i < v.len()
        invariant
            0 <= i <= v@.len(),
            out@.len() == i,
            forall|j: int| 0 <= j < i ==> (#[trigger] out@[j])@ == tf_digest_limbs(v@[j]),
            forall|j: int| 0 <= j < i ==> (#[trigger] out@[j]).wf(),
        decreases v@.len() - i,
    {
        out.push(from_tf(&v[i]));
        i = i + 1;
    }
    proof {
        assert(digests_view(out@) =~= tf_digests_view(v@));
    }
    out
}

/// Relies on `MmrAccumulator::new_from_leafs` of the `twenty-first` crate:
/// called on no leafs it returns the accumulator of the empty leaf sequence.
#[verifier::external_body]
pub fn mmr_new() -> (m: MmrAccumulator)
    ensures
        mmr_leafs(m) == Seq::<Seq<u64>>::empty(),
        mmr_ok(m),
{
    MmrAccumulator::new_from_leafs(vec![])
}

/// Relies on the derived `Clone` of `MmrAccumulator`, which copies the peaks
/// and the leaf count, so the clone commits to the same leaf sequence.
pub assume_specification[ <MmrAccumulator as Clone>::clone ](m: &MmrAccumulator) -> (r:
    MmrAccumulator)
    ensures
        mmr_leafs(r) == mmr_leafs(*m),
        mmr_ok(r) == mmr_ok(*m),
;

/// A copy of an accumulator, committing to the same leaf sequence.
pub fn mmr_clone(m: &MmrAccumulator) -> (r: MmrAccumulator)
    ensures
        mmr_leafs(r) == mmr_leafs(*m),
        mmr_ok(r) == mmr_ok(*m),
{
    m.clone()
}

/// Relies on `MmrAccumulator::num_leafs` of the `twenty-first` crate: the
/// stored leaf count.
#[verifier::external_body]
pub fn mmr_num_leafs(m: &MmrAccumulator) -> (n: u64)
    requires
        mmr_ok(*m),
    ensures
        n as int == mmr_leafs(*m).len(),
{
    m.num_leafs()
}

/// Relies on `MmrAccumulator::peaks` of the `twenty-first` crate: the Merkle
/// roots of the trees the mountain range consists of, a function of the leaf
/// sequence alone; one peak per set bit of the leaf count, so at most 64.
#[verifier::external_body]
fn tf_mmr_peaks(m: &MmrAccumulator) -> (p: Vec<TfDigest>)
    requires
        mmr_ok(*m),
    ensures
        tf_digests_view(p@) == mmr_peaks_of(mmr_leafs(*m)),
        p@.len() <= 64,
{
    m.peaks()
}

/// The peaks of an accumulator, as the crate's digests.
pub fn mmr_peaks(m: &MmrAccumulator) -> (p: Vec<Digest>)
    requires
        mmr_ok(*m),
    ensures
        digests_view(p@) == mmr_peaks_of(mmr_leafs(*m)),
        digests_wf(p@),
        p@.len() <= 64,
{
    let tf = tf_mmr_peaks(m);
    from_tf_vec(&tf)
}

/// Relies on `MmrAccumulator::bag_peaks` of the `twenty-first` crate: a
/// single-digest commitment to the whole mountain range, a function of the
/// leaf sequence alone.
#[verifier::external_body]
pub fn mmr_bag_peaks(m: &MmrAccumulator) -> (d: Digest)
    requires
        mmr_ok(*m),
    ensures
        d@ == mmr_bag_of(mmr_leafs(*m)),
        d.wf(),
{
    from_tf(&m.bag_peaks())
}

/// Relies on `MmrAccumulator::append` of the `twenty-first` crate: it pushes
/// the new leaf onto the committed leaf sequence and returns the membership
/// proof of that leaf, valid against the accumulator's new state. The path
/// is the leaf's Merkle-tree lineage, so with fewer than 2^62 leafs it is
/// shorter than 63 entries.
#[verifier::external_body]
pub fn mmr_append(m: &mut MmrAccumulator, leaf: &Digest) -> (path: Vec<Digest>)
    requires
        mmr_ok(*old(m)),
        mmr_leafs(*old(m)).len() < 0x4000_0000_0000_0000,
        leaf.wf(),
    ensures
        mmr_ok(*final (m)),
        mmr_leafs(*final (m)) == mmr_leafs(*old(m)).push(leaf@),
        digests_wf(path@),
        path@.len() < 63,
        mmr_path_ok(
            digests_view(path@),
            mmr_leafs(*old(m)).len() as int,
            leaf@,
            mmr_peaks_of(mmr_leafs(*old(m)).push(leaf@)),
            mmr_leafs(*old(m)).len() + 1int,
        ),
{
    let proof = m.append(to_tf(leaf));
    proof.authentication_path.iter().map(|d| from_tf(d)).collect()
}

/// Relies on `MmrMembershipProof::verify` of the `twenty-first` crate: a pure
/// check of an authentication path against a leaf, the peaks and the leaf
/// count; an out-of-range leaf index never verifies. The routine counts the
/// peaks in 32 bits, so the list must fit that count.
#[verifier::external_body]
fn tf_mmr_verify(
    path: &Vec<TfDigest>,
    leaf_index: u64,
    leaf: &TfDigest,
    peaks: &Vec<TfDigest>,
    num_leafs: u64,
) -> (b: bool)
    requires
        peaks@.len() < 0x1_0000_0000,
    ensures
        b == mmr_path_ok(
            tf_digests_view(path@),
            leaf_index as int,
            tf_digest_limbs(*leaf),
            tf_digests_view(peaks@),
            num_leafs as int,
        ),
        leaf_index >= num_leafs ==> !b,
{
    MmrMembershipProof::new(path.clone()).verify(leaf_index, *leaf, peaks, num_leafs)
}

/// Check an authentication path against a leaf, the peaks and the leaf
/// count.
pub fn mmr_verify_path(
    path: &Vec<Digest>,
    leaf_index: u64,
    leaf: &Digest,
    peaks: &Vec<Digest>,
    num_leafs: u64,
) -> (b: bool)
    requires
        digests_wf(path@),
        leaf.wf(),
        digests_wf(peaks@),
        peaks@.len() < 0x1_0000_0000,
    ensures
        b == mmr_path_ok(
            digests_view(path@),
            leaf_index as int,
            leaf@,
            digests_view(peaks@),
            num_leafs as int,
        ),
        leaf_index >= num_leafs ==> !b,
{
    let tf_path = to_tf_vec(path);
    let tf_peaks = to_tf_vec(peaks);
    let tf_leaf = to_tf(leaf);
    tf_mmr_verify(&tf_path, leaf_index, &tf_leaf, &tf_peaks, num_leafs)
}

/// Relies on `MmrMembershipProof::update_from_append` of the `twenty-first`
/// crate: updating an authentication path under an append keeps it valid for
/// the accumulator's new state, whatever leaf it authenticated before, and
/// keeps the path within the lineage length of the grown tree. The bounds
/// on the leaf count and the path length keep the routine's internal node
/// index arithmetic within 64 bits, and the peaks must be the genuine peaks
/// of a mountain range with the given leaf count: the routine reads the
/// digests it extends the path with out of them.
#[verifier::external_body]
fn tf_mmr_update_path(
    path: &mut Vec<TfDigest>,
    own_leaf_index: u64,
    old_leaf_count: u64,
    new_leaf: &TfDigest,
    old_peaks: &Vec<TfDigest>,
) -> (changed: bool)
    requires
        own_leaf_index < old_leaf_count,
        old_leaf_count < 0x4000_0000_0000_0000,
        old(path)@.len() < 63,
        exists|leafs: Seq<Seq<u64>>|
            leafs.len() == old_leaf_count && tf_digests_view(old_peaks@) == #[trigger] mmr_peaks_of(
                leafs,
            ),
    ensures
        final (path)@.len() < 63,
        forall|l: Seq<u64>, leafs: Seq<Seq<u64>>|
            leafs.len() == old_leaf_count && tf_digests_view(old_peaks@) == mmr_peaks_of(leafs)
                && #[trigger] mmr_path_ok(
                tf_digests_view(old(path)@),
                own_leaf_index as int,
                l,
                mmr_peaks_of(leafs),
                old_leaf_count as int,
            ) ==> mmr_path_ok(
                tf_digests_view(final (path)@),
                own_leaf_index as int,
                l,
                mmr_peaks_of(leafs.push(tf_digest_limbs(*new_leaf))),
                old_leaf_count + 1,
            ),
{
    let mut proof = MmrMembershipProof::new(path.clone());
    let changed = proof.update_from_append(own_leaf_index, old_leaf_count, *new_leaf, old_peaks);
    *path = proof.authentication_path;
    changed
}

/// Update an authentication path under an append, keeping it valid for
/// the accumulator's new state.
pub fn mmr_update_path_from_append(
    path: &mut Vec<Digest>,
    own_leaf_index: u64,
    old_leaf_count: u64,
    new_leaf: &Digest,
    old_peaks: &Vec<Digest>,
) -> (changed: bool)
    requires
        own_leaf_index < old_leaf_count,
        old_leaf_count < 0x4000_0000_0000_0000,
        old(path)@.len() < 63,
        digests_wf(old(path)@),
        new_leaf.wf(),
        digests_wf(old_peaks@),
        exists|leafs: Seq<Seq<u64>>|
            leafs.len() == old_leaf_count && digests_view(old_peaks@) == #[trigger] mmr_peaks_of(
                leafs,
            ),
    ensures
        digests_wf(final (path)@),
        final (path)@.len() < 63,
        forall|l: Seq<u64>, leafs: Seq<Seq<u64>>|
            leafs.len() == old_leaf_count && digests_view(old_peaks@) == mmr_peaks_of(leafs)
                && #[trigger] mmr_path_ok(
                digests_view(old(path)@),
                own_leaf_index as int,
                l,
                mmr_peaks_of(leafs),
                old_leaf_count as int,
            ) ==> mmr_path_ok(
                digests_view(final (path)@),
                own_leaf_index as int,
                l,
                mmr_peaks_of(leafs.push(new_leaf@)),
                old_leaf_count + 1,
            ),
{
    let mut tf_path = to_tf_vec(path);
    let tf_peaks = to_tf_vec(old_peaks);
    let tf_leaf = to_tf(new_leaf);
    let ghost old_view = digests_view(old(path)@);
    proof {
        let leafs = choose|leafs: Seq<Seq<u64>>|
            leafs.len() == old_leaf_count && digests_view(old_peaks@) == #[trigger] mmr_peaks_of(
                leafs,
            );
        assert(tf_digests_view(tf_peaks@) == mmr_peaks_of(leafs));
    }
    let changed = tf_mmr_update_path(
        &mut tf_path,
        own_leaf_index,
        old_leaf_count,
        &tf_leaf,
        &tf_peaks,
    );
    let back = from_tf_vec(&tf_path);
    *path = back;
    changed
}

} // verus!
