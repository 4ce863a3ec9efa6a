//! Consensus core of a proof-of-work blockchain whose unspent-output set is
//! committed to by a mutator-set accumulator.
//!
//! The crate models digests as five 64-bit field-element limbs, keeps the
//! append-only commitment log and the inactive part of the sliding-window
//! Bloom filter in Merkle-mountain-range accumulators, and states every
//! consensus rule as a contract over mathematical views of that data.

use vstd::prelude::*;

pub mod amount;
pub mod block;
pub mod block_body;
pub mod block_header;
pub mod difficulty;
pub mod encoding;
pub mod hashing;
pub mod mast;
pub mod mmr;
pub mod mutator_set;
pub mod swbf;
pub mod timestamp;
pub mod transaction_kernel;

verus! {

/// The Goldilocks-like prime-field modulus. Every digest limb is a canonical
/// field element: a value strictly below this constant.
pub const FIELD_PRIME: u64 = 0xffff_ffff_0000_0001;

/// A fixed-width digest: five field elements. Read as an integer, the limbs
/// are base-prime digits, limb 0 least significant.
#[derive(Clone, Copy, Debug, PartialEq, Eq, Structural, Hash)]
pub struct Digest {
    pub l0: u64,
    pub l1: u64,
    pub l2: u64,
    pub l3: u64,
    pub l4: u64,
}

impl View for Digest {
    type V = Seq<u64>;

    open spec fn view(&self) -> Seq<u64> {
        seq![self.l0, self.l1, self.l2, self.l3, self.l4]
    }
}

/// The integer a five-limb digest stands for: its canonical limbs read as
/// base-`FIELD_PRIME` digits, limb 0 least significant.
pub open spec fn digest_val(s: Seq<u64>) -> int
    recommends
        s.len() == 5,
{
    s[0] + s[1] * powp(1) + s[2] * powp(2) + s[3] * powp(3) + s[4] * powp(4)
}

impl Digest {
    /// All limbs are canonical field elements.
    pub open spec fn wf(self) -> bool {
        self.l0 < FIELD_PRIME && self.l1 < FIELD_PRIME && self.l2 < FIELD_PRIME && self.l3
            < FIELD_PRIME && self.l4 < FIELD_PRIME
    }

    pub fn new(v0: u64, v1: u64, v2: u64, v3: u64, v4: u64) -> (r: Digest)
        ensures
            r@ == seq![v0, v1, v2, v3, v4],
    {
        Digest { l0: v0, l1: v1, l2: v2, l3: v3, l4: v4 }
    }

    /// The all-zero digest.
    pub fn zero() -> (r: Digest)
        ensures
            r@ == seq![0u64, 0u64, 0u64, 0u64, 0u64],
            r.wf(),
    {
        Digest { l0: 0, l1: 0, l2: 0, l3: 0, l4: 0 }
    }

    /// The limbs in order, least significant first.
    pub fn values(&self) -> (r: Vec<u64>)
        ensures
            r@ == self@,
    {
        let mut r: Vec<u64> = Vec::new();
        r.push(self.l0);
        r.push(self.l1);
        r.push(self.l2);
        r.push(self.l3);
        r.push(self.l4);
        proof {
            assert(r@ =~= self@);
        }
        r
    }

    /// Whether `self`, read as an integer, is at most `other`.
    pub fn is_at_most(&self, other: &Digest) -> (r: bool)
        requires
            self.wf(),
            other.wf(),
        ensures
            r == (digest_val(self@) <= digest_val(other@)),
    {
        proof {
            lemma_digest_val_order(self@, other@);
            lemma_digest_val_order(other@, self@);
        }
        if self.l4 != other.l4 {
            self.l4 < other.l4
        } else if self.l3 != other.l3 {
            self.l3 < other.l3
        } else if self.l2 != other.l2 {
            self.l2 < other.l2
        } else if self.l1 != other.l1 {
            self.l1 < other.l1
        } else {
            self.l0 <= other.l0
        }
    }
}

/// Reading five canonical limbs as base-prime digits orders digests
/// lexicographically from the most significant limb down.
proof fn lemma_digest_val_order(a: Seq<u64>, b: Seq<u64>)
    requires
        a.len() == 5,
        b.len() == 5,
        forall|i: int| 0 <= i < 5 ==> #[trigger] a[i] < FIELD_PRIME,
        forall|i: int| 0 <= i < 5 ==> #[trigger] b[i] < FIELD_PRIME,
    ensures
        a[4] < b[4] ==> digest_val(a) < digest_val(b),
        a[4] == b[4] && a[3] < b[3] ==> digest_val(a) < digest_val(b),
        a[4] == b[4] && a[3] == b[3] && a[2] < b[2] ==> digest_val(a) < digest_val(b),
        a[4] == b[4] && a[3] == b[3] && a[2] == b[2] && a[1] < b[1] ==> digest_val(a) < digest_val(
            b,
        ),
        a[4] == b[4] && a[3] == b[3] && a[2] == b[2] && a[1] == b[1] ==> (digest_val(a)
            <= digest_val(b) <==> a[0] <= b[0]),
{
    assert(digest_val(a) >= 0) by {
        broadcast use vstd::arithmetic::mul::lemma_mul_nonnegative;

    }
    assert(digest_val(b) >= 0) by {
        broadcast use vstd::arithmetic::mul::lemma_mul_nonnegative;

    }
    if a[4] < b[4] {
        lemma_prefix_bound(a);
        assert(digest_val(a) < digest_val(b)) by (nonlinear_arith)
            requires
                a[4] < b[4],
                digest_val(a) == digest_val_lo4(a) + a[4] * powp(4),
                digest_val(b) == digest_val_lo4(b) + b[4] * powp(4),
                digest_val_lo4(a) < powp(4),
                digest_val_lo4(b) >= 0,
        ;
    } else if a[4] == b[4] {
        if a[3] < b[3] {
            lemma_prefix_bound(a);
            lemma_prefix_bound(b);
            assert(digest_val(a) < digest_val(b)) by (nonlinear_arith)
                requires
                    a[4] == b[4],
                    a[3] < b[3],
                    digest_val(a) == digest_val_lo3(a) + a[3] * powp(3) + a[4] * powp(4),
                    digest_val(b) == digest_val_lo3(b) + b[3] * powp(3) + b[4] * powp(4),
                    digest_val_lo3(a) < powp(3),
                    digest_val_lo3(b) >= 0,
            ;
        } else if a[3] == b[3] {
            if a[2] < b[2] {
                lemma_prefix_bound(a);
                lemma_prefix_bound(b);
                assert(digest_val(a) < digest_val(b)) by (nonlinear_arith)
                    requires
                        a[4] == b[4],
                        a[3] == b[3],
                        a[2] < b[2],
                        digest_val(a) == digest_val_lo2(a) + a[2] * powp(2) + a[3] * powp(3) + a[4]
                            * powp(4),
                        digest_val(b) == digest_val_lo2(b) + b[2] * powp(2) + b[3] * powp(3) + b[4]
                            * powp(4),
                        digest_val_lo2(a) < powp(2),
                        digest_val_lo2(b) >= 0,
                ;
            } else if a[2] == b[2] {
                if a[1] < b[1] {
                    lemma_prefix_bound(a);
                    lemma_prefix_bound(b);
                    assert(digest_val(a) < digest_val(b)) by (nonlinear_arith)
                        requires
                            a[4] == b[4],
                            a[3] == b[3],
                            a[2] == b[2],
                            a[1] < b[1],
                            digest_val(a) == a[0] + a[1] * powp(1) + a[2] * powp(2) + a[3] * powp(
                                3,
                            ) + a[4] * powp(4),
                            digest_val(b) == b[0] + b[1] * powp(1) + b[2] * powp(2) + b[3] * powp(
                                3,
                            ) + b[4] * powp(4),
                            a[0] < powp(1),
                            b[0] >= 0,
                    ;
                }
            }
        }
    }
}

/// Powers of the field modulus: the place values of the limbs.
pub open spec fn powp(i: int) -> int {
    if i == 0 {
        1int
    } else if i == 1 {
        FIELD_PRIME as int
    } else if i == 2 {
        (FIELD_PRIME as int) * (FIELD_PRIME as int)
    } else if i == 3 {
        (FIELD_PRIME as int) * (FIELD_PRIME as int) * (FIELD_PRIME as int)
    } else if i == 4 {
        (FIELD_PRIME as int) * (FIELD_PRIME as int) * (FIELD_PRIME as int) * (FIELD_PRIME as int)
    } else {
        0int
    }
}

spec fn digest_val_lo2(s: Seq<u64>) -> int {
    s[0] + s[1] * powp(1)
}

spec fn digest_val_lo3(s: Seq<u64>) -> int {
    s[0] + s[1] * powp(1) + s[2] * powp(2)
}

spec fn digest_val_lo4(s: Seq<u64>) -> int {
    s[0] + s[1] * powp(1) + s[2] * powp(2) + s[3] * powp(3)
}

/// The low limbs of a digest are bounded by the place value of the next limb.
proof fn lemma_prefix_bound(s: Seq<u64>)
    requires
        s.len() == 5,
        forall|i: int| 0 <= i < 5 ==> #[trigger] s[i] < FIELD_PRIME,
    ensures
        0 <= digest_val_lo2(s) < powp(2),
        0 <= digest_val_lo3(s) < powp(3),
        0 <= digest_val_lo4(s) < powp(4),
        digest_val(s) == digest_val_lo4(s) + s[4] * powp(4),
        digest_val(s) == digest_val_lo3(s) + s[3] * powp(3) + s[4] * powp(4),
        digest_val(s) == digest_val_lo2(s) + s[2] * powp(2) + s[3] * powp(3) + s[4] * powp(4),
{
    assert(0 <= digest_val_lo4(s) < powp(4) && 0 <= digest_val_lo3(s) < powp(3) && 0
        <= digest_val_lo2(s) < powp(2)) by (nonlinear_arith)
        requires
            0 <= s[0] < powp(1),
            0 <= s[1] < powp(1),
            0 <= s[2] < powp(1),
            0 <= s[3] < powp(1),
            digest_val_lo2(s) == s[0] + s[1] * powp(1),
            digest_val_lo3(s) == digest_val_lo2(s) + s[2] * powp(2),
            digest_val_lo4(s) == digest_val_lo3(s) + s[3] * powp(3),
            powp(1) == FIELD_PRIME as int,
            powp(1) > 1,
            powp(2) == powp(1) * powp(1),
            powp(3) == powp(2) * powp(1),
            powp(4) == powp(3) * powp(1),
    ;
}

} // verus!
