//! Proof-of-work difficulty: an unsigned 160-bit integer, the proportional
//! controller that retargets it, and the digest threshold it induces.

use crate::digest_val;
use crate::timestamp::Timestamp;
use crate::timestamp::TARGET_BLOCK_INTERVAL_MILLIS;
use crate::Digest;
use crate::FIELD_PRIME;
use vstd::prelude::*;

verus! {

/// The least difficulty any block may carry.
pub const MINIMUM_DIFFICULTY: u32 = 1000;

/// An unsigned 160-bit integer: a 128-bit low part and a 32-bit high part.
#[derive(Clone, Copy, Debug, PartialEq, Eq, Structural, Hash)]
pub struct Difficulty {
    pub lo: u128,
    pub hi: u32,
}

/// 2^128, the place value of the high part.
pub open spec fn pow128() -> int {
    0x1_0000_0000_0000_0000_0000_0000_0000_0000int
}

/// The largest 160-bit value.
pub open spec fn max160() -> int {
    pow128() * 0x1_0000_0000int - 1
}

impl Difficulty {
    /// The integer the two parts stand for.
    pub open spec fn value(self) -> int {
        self.lo + self.hi * pow128()
    }

    pub fn from_u32(v: u32) -> (r: Difficulty)
        ensures
            r.value() == v,
    {
        Difficulty { lo: v as u128, hi: 0 }
    }

    pub fn zero() -> (r: Difficulty)
        ensures
            r.value() == 0,
    {
        Difficulty { lo: 0, hi: 0 }
    }

    /// The least allowed difficulty.
    pub fn minimum() -> (r: Difficulty)
        ensures
            r.value() == MINIMUM_DIFFICULTY,
    {
        Difficulty { lo: MINIMUM_DIFFICULTY as u128, hi: 0 }
    }

    /// Whether `self` stands for at least the value of `other`.
    pub fn is_at_least(&self, other: &Difficulty) -> (r: bool)
        ensures
            r == (self.value() >= other.value()),
    {
        proof {
            lemma_value_order(*self, *other);
            lemma_value_order(*other, *self);
        }
        if self.hi != other.hi {
            self.hi > other.hi
        } else {
            self.lo >= other.lo
        }
    }

    /// The sum with a 128-bit increment, saturating at the largest 160-bit
    /// value.
    pub fn saturating_add(&self, amount: u128) -> (r: Difficulty)
        ensures
            r.value() == if self.value() + amount <= max160() {
                self.value() + amount
            } else {
                max160()
            },
    {
        match self.lo.checked_add(amount) {
            Some(lo) => Difficulty { lo, hi: self.hi },
            None => {
                if self.hi == u32::MAX {
                    Difficulty { lo: u128::MAX, hi: u32::MAX }
                } else {
                    let lo: u128 = amount - (u128::MAX - self.lo) - 1;
                    proof {
                        assert((self.hi + 1) * pow128() == self.hi * pow128() + pow128())
                            by (nonlinear_arith);
                    }
                    Difficulty { lo, hi: self.hi + 1 }
                }
            },
        }
    }

    /// The difference with a 128-bit decrement, saturating at the given
    /// floor. The floor must fit the low part alone.
    pub fn saturating_sub_floor(&self, amount: u128, floor: u32) -> (r: Difficulty)
        ensures
            r.value() == if self.value() - amount >= floor {
                self.value() - amount
            } else {
                floor as int
            },
    {
        let r = if amount <= self.lo {
            Difficulty { lo: self.lo - amount, hi: self.hi }
        } else if self.hi > 0 {
            let lo: u128 = self.lo + (u128::MAX - amount) + 1;
            proof {
                assert(self.hi * pow128() == (self.hi - 1) * pow128() + pow128())
                    by (nonlinear_arith);
            }
            Difficulty { lo, hi: self.hi - 1 }
        } else {
            Difficulty { lo: 0, hi: 0 }
        };
        proof {
            if self.hi == 0 && amount > self.lo {
                assert(self.value() - amount < 0);
            }
            lemma_value_order(r, Difficulty { lo: floor as u128, hi: 0 });
            lemma_value_order(Difficulty { lo: floor as u128, hi: 0 }, r);
        }
        if r.hi == 0 && r.lo < floor as u128 {
            Difficulty { lo: floor as u128, hi: 0 }
        } else {
            r
        }
    }

    /// The sum of two difficulties, saturating at the largest 160-bit value.
    /// Used for the cumulative proof of work.
    pub fn saturating_add_difficulty(&self, other: &Difficulty) -> (r: Difficulty)
        ensures
            r.value() == if self.value() + other.value() <= max160() {
                self.value() + other.value()
            } else {
                max160()
            },
    {
        let step = self.saturating_add(other.lo);
        proof {
            assert((step.hi + other.hi) * pow128() == step.hi * pow128() + other.hi * pow128())
                by (nonlinear_arith);
            assert((u32::MAX) * pow128() + (pow128() - 1) == max160()) by (nonlinear_arith);
        }
        match step.hi.checked_add(other.hi) {
            Some(hi) => Difficulty { lo: step.lo, hi },
            None => Difficulty { lo: u128::MAX, hi: u32::MAX },
        }
    }

    /// The five 32-bit limbs of the value, least significant first.
    pub fn to_u32_limbs(&self) -> (r: Vec<u32>)
        ensures
            r@.len() == 5,
            limbs32_val(r@) == self.value(),
    {
        let mut out: Vec<u32> = Vec::new();
        out.push((self.lo % 0x1_0000_0000) as u32);
        out.push(((self.lo / 0x1_0000_0000) % 0x1_0000_0000) as u32);
        out.push(((self.lo / 0x1_0000_0000_0000_0000) % 0x1_0000_0000) as u32);
        out.push((self.lo / 0x1_0000_0000_0000_0000_0000_0000) as u32);
        out.push(self.hi);
        proof {
            lemma_limbs32_val_unfold5(out@);
            lemma_u128_chunks(self.lo);
            assert(self.hi * 0x1_0000_0000_0000_0000_0000_0000_0000_0000int == self.hi * pow128());
        }
        out
    }
}

/// The high part dominates the order of difficulty values.
proof fn lemma_value_order(a: Difficulty, b: Difficulty)
    ensures
        a.hi < b.hi ==> a.value() < b.value(),
        a.hi == b.hi ==> (a.value() <= b.value() <==> a.lo <= b.lo),
{
    if a.hi < b.hi {
        assert(a.lo + a.hi * pow128() < b.lo + b.hi * pow128()) by (nonlinear_arith)
            requires
                a.hi < b.hi,
                0 <= a.lo < pow128(),
                0 <= b.lo,
                0 <= a.hi,
        ;
    }
}

/// The value of a little-endian sequence of 32-bit limbs.
pub open spec fn limbs32_val(s: Seq<u32>) -> int
    decreases s.len(),
{
    if s.len() == 0 {
        0
    } else {
        s[0] + 0x1_0000_0000int * limbs32_val(s.subrange(1, s.len() as int))
    }
}

/// The place values of the five 32-bit limbs.
pub proof fn lemma_limbs32_val_unfold5(s: Seq<u32>)
    requires
        s.len() == 5,
    ensures
        limbs32_val(s) == s[0] + s[1] * 0x1_0000_0000int + s[2] * 0x1_0000_0000_0000_0000int + s[3]
            * 0x1_0000_0000_0000_0000_0000_0000int + s[4]
            * 0x1_0000_0000_0000_0000_0000_0000_0000_0000int,
{
    let s1 = s.subrange(1, 5);
    let s2 = s1.subrange(1, 4);
    let s3 = s2.subrange(1, 3);
    let s4 = s3.subrange(1, 2);
    let s5 = s4.subrange(1, 1);
    assert(s2 =~= s.subrange(2, 5));
    assert(s3 =~= s.subrange(3, 5));
    assert(s4 =~= s.subrange(4, 5));
    assert(s5 =~= Seq::<u32>::empty());
    assert(limbs32_val(s5) == 0);
    assert(limbs32_val(s4) == s[4] + 0x1_0000_0000int * limbs32_val(s5));
    assert(limbs32_val(s3) == s[3] + 0x1_0000_0000int * limbs32_val(s4));
    assert(limbs32_val(s2) == s[2] + 0x1_0000_0000int * limbs32_val(s3));
    assert(limbs32_val(s1) == s[1] + 0x1_0000_0000int * limbs32_val(s2));
    assert(limbs32_val(s) == s[0] + 0x1_0000_0000int * limbs32_val(s1));
    assert(limbs32_val(s) == s[0] + s[1] * 0x1_0000_0000int + s[2] * 0x1_0000_0000_0000_0000int
        + s[3] * 0x1_0000_0000_0000_0000_0000_0000int + s[4]
        * 0x1_0000_0000_0000_0000_0000_0000_0000_0000int) by (nonlinear_arith)
        requires
            limbs32_val(s) == s[0] + 0x1_0000_0000int * limbs32_val(s1),
            limbs32_val(s1) == s[1] + 0x1_0000_0000int * limbs32_val(s2),
            limbs32_val(s2) == s[2] + 0x1_0000_0000int * limbs32_val(s3),
            limbs32_val(s3) == s[3] + 0x1_0000_0000int * limbs32_val(s4),
            limbs32_val(s4) == s[4],
    ;
}

/// A 128-bit value is recomposed from its four 32-bit chunks.
pub proof fn lemma_u128_chunks(lo: u128)
    ensures
        lo == (lo % 0x1_0000_0000) + (lo / 0x1_0000_0000 % 0x1_0000_0000) * 0x1_0000_0000int + (lo
            / 0x1_0000_0000_0000_0000 % 0x1_0000_0000) * 0x1_0000_0000_0000_0000int + (lo
            / 0x1_0000_0000_0000_0000_0000_0000) * 0x1_0000_0000_0000_0000_0000_0000int,
        lo / 0x1_0000_0000_0000_0000_0000_0000 < 0x1_0000_0000,
{
    let c = 0x1_0000_0000int;
    let x = lo as int;
    let q1 = x / c;
    let q2 = q1 / c;
    let q3 = q2 / c;
    vstd::arithmetic::div_mod::lemma_fundamental_div_mod(x, c);
    vstd::arithmetic::div_mod::lemma_fundamental_div_mod(q1, c);
    vstd::arithmetic::div_mod::lemma_fundamental_div_mod(q2, c);
    vstd::arithmetic::div_mod::lemma_div_denominator(x, c, c);
    vstd::arithmetic::div_mod::lemma_div_denominator(x, c * c, c);
    assert(c * c == 0x1_0000_0000_0000_0000int);
    assert(c * c * c == 0x1_0000_0000_0000_0000_0000_0000int);
    assert(q2 == lo / 0x1_0000_0000_0000_0000);
    assert(q3 == lo / 0x1_0000_0000_0000_0000_0000_0000);
    assert(q3 < 0x1_0000_0000) by {
        assert(lo <= u128::MAX);
        vstd::arithmetic::div_mod::lemma_div_is_ordered(
            x,
            u128::MAX as int,
            0x1_0000_0000_0000_0000_0000_0000int,
        );
        assert(u128::MAX as int / 0x1_0000_0000_0000_0000_0000_0000int < 0x1_0000_0000);
    }
    assert(x == (x % c) + (q1 % c) * c + (q2 % c) * (c * c) + q3 * (c * c * c))
        by (nonlinear_arith)
        requires
            x == c * q1 + x % c,
            q1 == c * q2 + q1 % c,
            q2 == c * q3 + q2 % c,
    ;
}

/// The largest digest value: every base-prime digit at the field maximum.
pub open spec fn max_digest_val() -> int {
    digest_val(
        seq![
            0xffff_ffff_0000_0000u64,
            0xffff_ffff_0000_0000u64,
            0xffff_ffff_0000_0000u64,
            0xffff_ffff_0000_0000u64,
            0xffff_ffff_0000_0000u64,
        ],
    )
}

/// The proof-of-work threshold a difficulty induces.
pub open spec fn target_spec(difficulty: int) -> int {
    max_digest_val() / difficulty
}

/// Relies on `twenty-first`'s digest conversions (a digest reads as a
/// base-prime integer) and on `num_bigint::BigUint`'s truncating integer
/// division; the quotient of two digest-range values fits a digest again.
#[verifier::external_body]
fn biguint_div_digest(num: &Digest, den: &Vec<u32>) -> (q: Digest)
    requires
        limbs32_val(den@) >= 1,
        num.wf(),
    ensures
        digest_val(q@) == digest_val(num@) / limbs32_val(den@),
        q.wf(),
{
    let n = num_bigint::BigUint::from(crate::hashing::to_tf(num));
    let quotient = n / num_bigint::BigUint::new(den.clone());
    crate::hashing::from_tf(&twenty_first::prelude::Digest::try_from(quotient).unwrap())
}

/// The digest threshold of a difficulty: the largest digest value divided by
/// the difficulty, rounded down. A block digest at or below it satisfies the
/// proof-of-work puzzle.
pub fn target(difficulty: &Difficulty) -> (t: Digest)
    requires
        difficulty.value() >= 1,
    ensures
        digest_val(t@) == target_spec(difficulty.value()),
        t.wf(),
{
    let m = Digest::new(
        0xffff_ffff_0000_0000,
        0xffff_ffff_0000_0000,
        0xffff_ffff_0000_0000,
        0xffff_ffff_0000_0000,
        0xffff_ffff_0000_0000,
    );
    let den = difficulty.to_u32_limbs();
    proof {
        assert(digest_val(m@) == max_digest_val());
    }
    biguint_div_digest(&m, &den)
}

/// A larger difficulty never yields a larger threshold: the threshold
/// scales inversely with the difficulty.
pub proof fn lemma_target_antitone(d1: int, d2: int)
    requires
        1 <= d1 <= d2,
    ensures
        target_spec(d2) <= target_spec(d1),
{
    assert(max_digest_val() >= 0);
    vstd::arithmetic::div_mod::lemma_div_is_ordered_by_denominator(max_digest_val(), d1, d2);
}

/// Two difficulties are the same exactly when they stand for the same
/// value: the high part is the value's upper 32 bits, the low part the
/// rest.
pub proof fn lemma_difficulty_eq_iff_value(a: Difficulty, b: Difficulty)
    ensures
        a == b <==> a.value() == b.value(),
{
    if a.value() == b.value() {
        assert(a.lo == b.lo && a.hi == b.hi) by (nonlinear_arith)
            requires
                a.lo + a.hi * pow128() == b.lo + b.hi * pow128(),
                0 <= a.lo < pow128(),
                0 <= b.lo < pow128(),
                0 <= a.hi,
                0 <= b.hi,
                pow128() > 0,
        ;
    }
}

/// The truncating (toward zero) signed division the controller uses.
pub open spec fn trunc_div(a: int, b: int) -> int
    recommends
        b > 0,
{
    if a >= 0 {
        a / b
    } else {
        -((-a) / b)
    }
}

/// The value the difficulty controller owes: unchanged on the genesis
/// parent; otherwise the previous difficulty corrected by minus a hundredth
/// of the interval error and clamped to the valid difficulty range.
pub open spec fn difficulty_control_spec(
    new_ts: Timestamp,
    prev_ts: Timestamp,
    prev_difficulty: Difficulty,
    target_millis: int,
    prev_height: int,
) -> int {
    if prev_height == 0 {
        prev_difficulty.value()
    } else {
        let err = new_ts.millis - prev_ts.millis - target_millis;
        let adjusted = prev_difficulty.value() - trunc_div(err, 100);
        if adjusted < MINIMUM_DIFFICULTY {
            MINIMUM_DIFFICULTY as int
        } else if adjusted > max160() {
            max160()
        } else {
            adjusted
        }
    }
}

/// The proportional difficulty controller.
///
/// Blocks that came faster than the target interval raise the difficulty,
/// slower ones lower it, never below the minimum; the correction is one
/// hundredth of the interval error in milliseconds.
pub fn difficulty_control(
    new_timestamp: Timestamp,
    old_timestamp: Timestamp,
    old_difficulty: Difficulty,
    target_block_interval: Option<Timestamp>,
    previous_block_height: u64,
) -> (r: Difficulty)
    ensures
        r.value() == difficulty_control_spec(
            new_timestamp,
            old_timestamp,
            old_difficulty,
            match target_block_interval {
                Some(t) => t.millis as int,
                None => TARGET_BLOCK_INTERVAL_MILLIS as int,
            },
            previous_block_height as int,
        ),
{
    if previous_block_height == 0 {
        return old_difficulty;
    }
    let target_millis: u64 = match target_block_interval {
        Some(t) => t.millis,
        None => TARGET_BLOCK_INTERVAL_MILLIS,
    };
    let new_ms: u128 = new_timestamp.millis as u128;
    let old_ms: u128 = old_timestamp.millis as u128;
    let target: u128 = target_millis as u128;
    proof {
        lemma_difficulty_value_in_range(old_difficulty);
    }
    if new_ms >= old_ms + target {
        // The block came late: the error is nonnegative, difficulty falls.
        let err: u128 = new_ms - old_ms - target;
        let dec: u128 = err / 100;
        proof {
            let e = new_timestamp.millis - old_timestamp.millis - target_millis;
            assert(e >= 0 && trunc_div(e, 100) == e / 100 && dec == e / 100);
        }
        old_difficulty.saturating_sub_floor(dec, MINIMUM_DIFFICULTY)
    } else {
        // The block came early: the error is negative, difficulty rises.
        let neg_err: u128 = old_ms + target - new_ms;
        let inc: u128 = neg_err / 100;
        proof {
            let e = new_timestamp.millis - old_timestamp.millis - target_millis;
            assert(e < 0);
            assert(trunc_div(e, 100) == -((-e) / 100));
            assert(neg_err == -e);
        }
        let raised = old_difficulty.saturating_add(inc);
        let minimum = Difficulty::minimum();
        if raised.is_at_least(&minimum) {
            raised
        } else {
            minimum
        }
    }
}

/// Any representable difficulty is a valid 160-bit value.
pub proof fn lemma_difficulty_value_in_range(d: Difficulty)
    ensures
        0 <= d.value() <= max160(),
{
    assert(d.lo + d.hi * pow128() <= max160()) by (nonlinear_arith)
        requires
            0 <= d.lo <= u128::MAX,
            0 <= d.hi <= u32::MAX,
            pow128() == 0x1_0000_0000_0000_0000_0000_0000_0000_0000int,
            max160() == pow128() * 0x1_0000_0000int - 1,
    ;
    assert(d.lo + d.hi * pow128() >= 0) by (nonlinear_arith)
        requires
            0 <= d.lo,
            0 <= d.hi,
    ;
}

/// The controller never falls below the minimum difficulty, raises the
/// difficulty when blocks come faster than the target interval, and lowers
/// it when they come slower.
pub proof fn lemma_difficulty_monotone(
    new_ts: Timestamp,
    prev_ts: Timestamp,
    prev_difficulty: Difficulty,
    target_millis: int,
    prev_height: int,
)
    requires
        prev_height > 0,
        prev_difficulty.value() >= MINIMUM_DIFFICULTY,
        prev_difficulty.value() <= max160(),
        target_millis >= 0,
    ensures
        difficulty_control_spec(new_ts, prev_ts, prev_difficulty, target_millis, prev_height)
            >= MINIMUM_DIFFICULTY,
        new_ts.millis - prev_ts.millis < target_millis ==> difficulty_control_spec(
            new_ts,
            prev_ts,
            prev_difficulty,
            target_millis,
            prev_height,
        ) >= prev_difficulty.value(),
        new_ts.millis - prev_ts.millis > target_millis ==> difficulty_control_spec(
            new_ts,
            prev_ts,
            prev_difficulty,
            target_millis,
            prev_height,
        ) <= prev_difficulty.value(),
{
    let err = new_ts.millis - prev_ts.millis - target_millis;
    if err < 0 {
        assert((-err) / 100 >= 0);
        assert(trunc_div(err, 100) <= 0);
    } else if err > 0 {
        assert(err / 100 >= 0);
        assert(trunc_div(err, 100) >= 0);
    } else {
        assert(trunc_div(err, 100) == 0);
    }
}

} // verus!
