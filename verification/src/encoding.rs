//! The canonical field-element encoding.
//!
//! Every domain value encodes to a sequence of field elements (64-bit values
//! below the field modulus): 64-bit integers as two 32-bit limbs, 128-bit
//! integers as four, digests as their five limbs, and sequences behind a
//! one-element count prefix.

use crate::Digest;
use crate::FIELD_PRIME;
use vstd::prelude::*;

verus! {

/// Every element of the sequence is a canonical field element.
pub open spec fn felts_ok(s: Seq<u64>) -> bool {
    forall|i: int| 0 <= i < s.len() ==> #[trigger] s[i] < FIELD_PRIME
}

/// A 64-bit integer as two 32-bit limbs, least significant first.
pub open spec fn enc_u64(v: u64) -> Seq<u64> {
    seq![(v % 0x1_0000_0000) as u64, (v / 0x1_0000_0000) as u64]
}

/// A 128-bit integer as four 32-bit limbs, least significant first.
pub open spec fn enc_u128(v: u128) -> Seq<u64> {
    seq![
        (v % 0x1_0000_0000) as u64,
        ((v / 0x1_0000_0000) % 0x1_0000_0000) as u64,
        ((v / 0x1_0000_0000_0000_0000) % 0x1_0000_0000) as u64,
        (v / 0x1_0000_0000_0000_0000_0000_0000) as u64,
    ]
}

/// The count prefix of a sequence encoding.
pub open spec fn enc_len(n: int) -> Seq<u64> {
    seq![n as u64]
}

/// The concatenation of a sequence of encodings.
pub open spec fn concat_all(ss: Seq<Seq<u64>>) -> Seq<u64>
    decreases ss.len(),
{
    if ss.len() == 0 {
        Seq::empty()
    } else {
        concat_all(ss.drop_last()) + ss.last()
    }
}

pub broadcast proof fn lemma_enc_u64_ok(v: u64)
    ensures
        felts_ok(#[trigger] enc_u64(v)),
        enc_u64(v).len() == 2,
{
    assert(v % 0x1_0000_0000 < FIELD_PRIME);
    assert(v / 0x1_0000_0000 < 0x1_0000_0000);
}

pub broadcast proof fn lemma_enc_u128_ok(v: u128)
    ensures
        felts_ok(#[trigger] enc_u128(v)),
        enc_u128(v).len() == 4,
{
    assert(v / 0x1_0000_0000_0000_0000_0000_0000 < 0x1_0000_0000) by {
        assert(v <= u128::MAX);
    }
}

/// Appending encodings concatenates them.
pub proof fn lemma_felts_ok_concat(a: Seq<u64>, b: Seq<u64>)
    requires
        felts_ok(a),
        felts_ok(b),
    ensures
        felts_ok(a + b),
{
    assert forall|i: int| 0 <= i < (a + b).len() implies #[trigger] (a + b)[i] < FIELD_PRIME by {
        if i < a.len() {
            assert((a + b)[i] == a[i]);
        } else {
            assert((a + b)[i] == b[i - a.len()]);
        }
    }
}

/// Append the two-limb encoding of a 64-bit integer.
pub fn push_u64(out: &mut Vec<u64>, v: u64)
    ensures
        final (out)@ == old(out)@ + enc_u64(v),
{
    out.push(v % 0x1_0000_0000);
    out.push(v / 0x1_0000_0000);
    proof {
        assert(out@ =~= old(out)@ + enc_u64(v));
    }
}

/// Append the four-limb encoding of a 128-bit integer.
pub fn push_u128(out: &mut Vec<u64>, v: u128)
    ensures
        final (out)@ == old(out)@ + enc_u128(v),
{
    out.push((v % 0x1_0000_0000) as u64);
    out.push(((v / 0x1_0000_0000) % 0x1_0000_0000) as u64);
    out.push(((v / 0x1_0000_0000_0000_0000) % 0x1_0000_0000) as u64);
    out.push((v / 0x1_0000_0000_0000_0000_0000_0000) as u64);
    proof {
        assert(v / 0x1_0000_0000_0000_0000_0000_0000 < 0x1_0000_0000) by {
            assert(v <= u128::MAX);
        }
        assert(out@ =~= old(out)@ + enc_u128(v));
    }
}

/// Append the five limbs of a digest.
pub fn push_digest(out: &mut Vec<u64>, d: &Digest)
    ensures
        final (out)@ == old(out)@ + d@,
{
    out.push(d.l0);
    out.push(d.l1);
    out.push(d.l2);
    out.push(d.l3);
    out.push(d.l4);
    proof {
        assert(out@ =~= old(out)@ + d@);
    }
}

/// Append a count prefix.
pub fn push_len(out: &mut Vec<u64>, n: usize)
    requires
        n < 0x1_0000_0000,
    ensures
        final (out)@ == old(out)@ + enc_len(n as int),
{
    out.push(n as u64);
    proof {
        assert(out@ =~= old(out)@ + enc_len(n as int));
    }
}

/// A fresh vector with the same 64-bit entries.
pub fn copy_u64s(v: &Vec<u64>) -> (r: Vec<u64>)
    ensures
        r@ == v@,
{
    let mut out: Vec<u64> = Vec::new();
    let mut i: usize = 0;
    while i < v.len()
        invariant
            0 <= i <= v@.len(),
            out@ == v@.subrange(0, i as int),
        decreases v@.len() - i,
    {
        out.push(v[i]);
        proof {
            assert(v@.subrange(0, i as int).push(v@[i as int]) =~= v@.subrange(0, i + 1));
        }
        i = i + 1;
    }
    proof {
        assert(v@.subrange(0, v@.len() as int) =~= v@);
    }
    out
}

/// A fresh vector with the same 128-bit entries.
pub fn copy_u128s(v: &Vec<u128>) -> (r: Vec<u128>)
    ensures
        r@ == v@,
{
    let mut out: Vec<u128> = Vec::new();
    let mut i: usize = 0;
    while i < v.len()
        invariant
            0 <= i <= v@.len(),
            out@ == v@.subrange(0, i as int),
        decreases v@.len() - i,
    {
        out.push(v[i]);
        proof {
            assert(v@.subrange(0, i as int).push(v@[i as int]) =~= v@.subrange(0, i + 1));
        }
        i = i + 1;
    }
    proof {
        assert(v@.subrange(0, v@.len() as int) =~= v@);
    }
    out
}

/// A fresh vector with the same digests.
pub fn copy_digests(v: &Vec<Digest>) -> (r: Vec<Digest>)
    ensures
        r@ == v@,
{
    let mut out: Vec<Digest> = Vec::new();
    let mut i: usize = 0;
    while i < v.len()
        invariant
            0 <= i <= v@.len(),
            out@ == v@.subrange(0, i as int),
        decreases v@.len() - i,
    {
        out.push(v[i]);
        proof {
            assert(v@.subrange(0, i as int).push(v@[i as int]) =~= v@.subrange(0, i + 1));
        }
        i = i + 1;
    }
    proof {
        assert(v@.subrange(0, v@.len() as int) =~= v@);
    }
    out
}

/// Append a raw field-element sequence.
pub fn push_felts(out: &mut Vec<u64>, v: &Vec<u64>)
    ensures
        final (out)@ == old(out)@ + v@,
{
    let mut i: usize = 0;
    while i < v.len()
        invariant
            0 <= i <= v.len(),
            out@ == old(out)@ + v@.subrange(0, i as int),
        decreases v.len() - i,
    {
        out.push(v[i]);
        proof {
            assert(old(out)@ + v@.subrange(0, i as int) + seq![v@[i as int]] =~= old(out)@
                + v@.subrange(0, i + 1));
        }
        i = i + 1;
    }
    proof {
        assert(v@.subrange(0, v@.len() as int) =~= v@);
    }
}

} // verus!
