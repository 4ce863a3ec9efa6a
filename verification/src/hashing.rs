//! The crate's hashing primitives: pairwise and variable-length Tip5 hashing.
//!
//! What the hash of a given input is takes pages to state, so the results are
//! named by uninterpreted spec functions; every contract in the crate speaks
//! of those names.

use crate::Digest;
use crate::FIELD_PRIME;
use twenty_first::prelude::Digest as TfDigest;
use twenty_first::math::b_field_element::BFieldElement;
use twenty_first::prelude::Tip5;
use vstd::prelude::*;

verus! {

#[verifier::external_type_specification]
#[verifier::external_body]
pub struct ExTfDigest(TfDigest);

/// The canonical limbs an opaque `twenty-first` digest carries.
pub uninterp spec fn tf_digest_limbs(d: TfDigest) -> Seq<u64>;

/// Relies on `Digest::new` and `BFieldElement::new` of the `twenty-first`
/// crate: a digest built from canonical limbs carries exactly those limbs.
#[verifier::external_body]
pub fn to_tf(d: &Digest) -> (r: TfDigest)
    requires
        d.wf(),
    ensures
        tf_digest_limbs(r) == d@,
{
    TfDigest::new([d.l0, d.l1, d.l2, d.l3, d.l4].map(BFieldElement::new))
}

/// Relies on `Digest::values` and `BFieldElement::value` of the
/// `twenty-first` crate: reading a digest yields its canonical limbs.
#[verifier::external_body]
pub fn from_tf(d: &TfDigest) -> (r: Digest)
    ensures
        r@ == tf_digest_limbs(*d),
        r.wf(),
{
    let v = d.values();
    Digest { l0: v[0].value(), l1: v[1].value(), l2: v[2].value(), l3: v[3].value(), l4: v[4].value() }
}

/// The limb sequences of a list of opaque digests.
pub open spec fn tf_digests_view(s: Seq<TfDigest>) -> Seq<Seq<u64>> {
    s.map_values(|d: TfDigest| tf_digest_limbs(d))
}

/// The digest limbs of the Tip5 hash of a pair of digests.
pub uninterp spec fn hash_pair_of(left: Seq<u64>, right: Seq<u64>) -> Seq<u64>;

/// The digest limbs of the Tip5 hash of a variable-length field-element
/// sequence.
pub uninterp spec fn hash_varlen_of(input: Seq<u64>) -> Seq<u64>;

/// Relies on `Tip5::hash_pair` of the `twenty-first` crate: the result is a
/// function of the two operand digests alone, and its limbs are canonical
/// field elements.
#[verifier::external_body]
pub fn hash_pair(left: &Digest, right: &Digest) -> (r: Digest)
    ensures
        r@ == hash_pair_of(left@, right@),
        r.wf(),
{
    from_tf(&Tip5::hash_pair(to_tf(left), to_tf(right)))
}

/// Relies on `Tip5::hash_varlen` of the `twenty-first` crate: the result is a
/// function of the input sequence alone, and its limbs are canonical field
/// elements.
#[verifier::external_body]
pub fn hash_varlen(input: &Vec<u64>) -> (r: Digest)
    requires
        forall|i: int| 0 <= i < input@.len() ==> #[trigger] input@[i] < FIELD_PRIME,
    ensures
        r@ == hash_varlen_of(input@),
        r.wf(),
{
    let elements: Vec<BFieldElement> = input.iter().map(|x| BFieldElement::new(*x)).collect();
    from_tf(&Tip5::hash_varlen(&elements))
}

} // verus!
