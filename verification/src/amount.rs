//! Coin amounts: an unsigned 128-bit quantity of coin units, with the
//! arithmetic the consensus rules need and an exact decimal string
//! round trip.

use vstd::prelude::*;
use vstd::string::StrSliceExecFns;
use vstd::string::StringExecFns;

verus! {

/// The sign of a signed amount reading.
#[derive(Clone, Copy, Debug, PartialEq, Eq, Structural, Hash)]
pub enum Sign {
    NonNegative,
    Negative,
}

/// An amount of coin units. The numeric value is the wrapped integer itself.
#[derive(Clone, Copy, Debug, PartialEq, Eq, Structural, Hash, PartialOrd, Ord)]
pub struct Amount(pub u128);

/// Rejected decimal-string inputs.
#[derive(Clone, Copy, Debug, PartialEq, Eq, Structural)]
pub enum AmountParseError {
    /// Empty input or a character that is no decimal digit.
    NotDecimal,
    /// A well-formed number too large for an amount.
    Overflow,
}

/// The decimal digit characters.
pub open spec fn digit_char(d: int) -> char {
    if d == 0 {
        '0'
    } else if d == 1 {
        '1'
    } else if d == 2 {
        '2'
    } else if d == 3 {
        '3'
    } else if d == 4 {
        '4'
    } else if d == 5 {
        '5'
    } else if d == 6 {
        '6'
    } else if d == 7 {
        '7'
    } else if d == 8 {
        '8'
    } else {
        '9'
    }
}

pub open spec fn is_digit_char(c: char) -> bool {
    '0' <= c <= '9'
}

pub open spec fn digit_val(c: char) -> int {
    c as int - '0' as int
}

/// The canonical decimal spelling of a natural number, most significant
/// digit first, no leading zeros (zero itself spells "0").
pub open spec fn decimal_of(n: nat) -> Seq<char>
    decreases n,
{
    if n < 10 {
        seq![digit_char(n as int)]
    } else {
        decimal_of(n / 10).push(digit_char((n % 10) as int))
    }
}

/// A non-empty string of decimal digits.
pub open spec fn is_decimal_string(s: Seq<char>) -> bool {
    s.len() >= 1 && forall|i: int| 0 <= i < s.len() ==> is_digit_char(#[trigger] s[i])
}

/// The number a digit string spells.
pub open spec fn decimal_val(s: Seq<char>) -> int
    decreases s.len(),
{
    if s.len() == 0 {
        0
    } else {
        decimal_val(s.drop_last()) * 10 + digit_val(s.last())
    }
}

/// The canonical spelling of a number reads back as that number.
pub proof fn lemma_decimal_round_trip(n: nat)
    ensures
        is_decimal_string(decimal_of(n)),
        decimal_val(decimal_of(n)) == n,
    decreases n,
{
    assert forall|d: int| 0 <= d < 10 implies digit_val(#[trigger] digit_char(d)) == d
        && is_digit_char(digit_char(d)) by {
        if d == 0 {
        } else if d == 1 {
        } else if d == 2 {
        } else if d == 3 {
        } else if d == 4 {
        } else if d == 5 {
        } else if d == 6 {
        } else if d == 7 {
        } else if d == 8 {
        } else {
        }
    }
    if n < 10 {
        let c = digit_char(n as int);
        let s1 = decimal_of(n);
        assert(s1 =~= seq![c]);
        assert(s1.len() == 1 && s1.last() == c);
        assert(s1.drop_last() =~= Seq::<char>::empty());
        assert(decimal_val(Seq::<char>::empty()) == 0);
        assert(decimal_val(s1) == decimal_val(s1.drop_last()) * 10 + digit_val(s1.last()));
    } else {
        lemma_decimal_round_trip(n / 10);
        assert(decimal_of(n).drop_last() =~= decimal_of(n / 10));
        assert(decimal_val(decimal_of(n)) == (n / 10) * 10 + digit_val(digit_char((n % 10) as int)));
        assert((n / 10) * 10 + n % 10 == n) by {
            vstd::arithmetic::div_mod::lemma_fundamental_div_mod(n as int, 10);
        }
    }
}

/// A longer digit prefix never spells a smaller number.
proof fn lemma_decimal_val_prefix_monotone(s: Seq<char>, i: int)
    requires
        0 <= i <= s.len(),
        forall|j: int| 0 <= j < s.len() ==> is_digit_char(#[trigger] s[j]),
    ensures
        decimal_val(s.subrange(0, i)) <= decimal_val(s),
    decreases s.len() - i,
{
    if i == s.len() {
        assert(s.subrange(0, i) =~= s);
    } else {
        lemma_decimal_val_prefix_monotone(s, i + 1);
        let p = s.subrange(0, i + 1);
        assert(p.drop_last() =~= s.subrange(0, i));
        assert(decimal_val(s.subrange(0, i)) >= 0) by {
            lemma_decimal_val_nonneg(s.subrange(0, i));
        }
        assert(decimal_val(s.subrange(0, i)) * 10 >= decimal_val(s.subrange(0, i)))
            by (nonlinear_arith)
            requires
                decimal_val(s.subrange(0, i)) >= 0,
        ;
        assert(decimal_val(p) == decimal_val(s.subrange(0, i)) * 10 + digit_val(s[i]));
    }
}

proof fn lemma_decimal_val_nonneg(s: Seq<char>)
    requires
        forall|j: int| 0 <= j < s.len() ==> is_digit_char(#[trigger] s[j]),
    ensures
        decimal_val(s) >= 0,
    decreases s.len(),
{
    if s.len() > 0 {
        lemma_decimal_val_nonneg(s.drop_last());
        assert(decimal_val(s.drop_last()) * 10 >= 0) by (nonlinear_arith)
            requires
                decimal_val(s.drop_last()) >= 0,
        ;
    }
}

impl Amount {
    /// The amount of a whole number of coin units.
    pub fn new(coins: u64) -> (r: Amount)
        ensures
            r.0 == coins,
    {
        Amount(coins as u128)
    }

    /// The unit amount.
    pub fn one() -> (r: Amount)
        ensures
            r.0 == 1,
    {
        Amount(1)
    }

    pub fn zero() -> (r: Amount)
        ensures
            r.0 == 0,
    {
        Amount(0)
    }

    pub fn is_zero(&self) -> (r: bool)
        ensures
            r == (self.0 == 0),
    {
        self.0 == 0
    }

    /// Halve the amount, rounding down.
    pub fn div_two(&mut self)
        ensures
            final (self).0 == old(self).0 / 2,
    {
        self.0 = self.0 / 2;
    }

    /// The sum, where it fits an amount.
    pub fn checked_add(&self, other: &Amount) -> (r: Option<Amount>)
        ensures
            self.0 + other.0 <= u128::MAX ==> r == Some(Amount((self.0 + other.0) as u128)),
            self.0 + other.0 > u128::MAX ==> r is None,
    {
        match self.0.checked_add(other.0) {
            Some(v) => Some(Amount(v)),
            None => None,
        }
    }

    /// The difference, where the subtrahend does not exceed the minuend.
    pub fn checked_sub(&self, other: &Amount) -> (r: Option<Amount>)
        ensures
            other.0 <= self.0 ==> r == Some(Amount((self.0 - other.0) as u128)),
            other.0 > self.0 ==> r is None,
    {
        if other.0 <= self.0 {
            Some(Amount(self.0 - other.0))
        } else {
            None
        }
    }

    /// Whether `self` is at most `other`.
    pub fn le(&self, other: &Amount) -> (r: bool)
        ensures
            r == (self.0 <= other.0),
    {
        self.0 <= other.0
    }

    /// The product with a scalar, where it fits an amount.
    pub fn scalar_mul(&self, factor: u64) -> (r: Option<Amount>)
        ensures
            self.0 * factor <= u128::MAX ==> r == Some(Amount((self.0 * factor) as u128)),
            self.0 * factor > u128::MAX ==> r is None,
    {
        match self.0.checked_mul(factor as u128) {
            Some(v) => Some(Amount(v)),
            None => None,
        }
    }

    /// The four 32-bit limbs of the amount, as field elements.
    pub fn to_sequence(&self) -> (r: Vec<u64>)
        ensures
            r@ == crate::encoding::enc_u128(self.0),
    {
        let mut out: Vec<u64> = Vec::new();
        crate::encoding::push_u128(&mut out, self.0);
        proof {
            assert(out@ =~= crate::encoding::enc_u128(self.0));
        }
        out
    }

    /// Rebuild an amount from four 32-bit limbs. Succeeds exactly when
    /// there are four limbs and each fits 32 bits.
    pub fn from_bfes(bfes: &Vec<u64>) -> (r: Option<Amount>)
        ensures
            r is Some <==> bfes@.len() == 4 && (forall|i: int|
                0 <= i < 4 ==> #[trigger] bfes@[i] < 0x1_0000_0000),
            r matches Some(a) ==> bfes@ == crate::encoding::enc_u128(a.0),
    {
        if bfes.len() != 4 {
            return None;
        }
        if bfes[0] >= 0x1_0000_0000 || bfes[1] >= 0x1_0000_0000 || bfes[2] >= 0x1_0000_0000
            || bfes[3] >= 0x1_0000_0000 {
            return None;
        }
        let v: u128 = bfes[0] as u128 + (bfes[1] as u128) * 0x1_0000_0000
            + (bfes[2] as u128) * 0x1_0000_0000_0000_0000 + (bfes[3] as u128)
            * 0x1_0000_0000_0000_0000_0000_0000;
        proof {
            assert(crate::encoding::enc_u128(v) =~= bfes@) by {
                assert(v % 0x1_0000_0000 == bfes@[0] && (v / 0x1_0000_0000) % 0x1_0000_0000
                    == bfes@[1] && (v / 0x1_0000_0000_0000_0000) % 0x1_0000_0000 == bfes@[2] && v
                    / 0x1_0000_0000_0000_0000_0000_0000 == bfes@[3]) by (nonlinear_arith)
                    requires
                        v == bfes@[0] + bfes@[1] * 0x1_0000_0000 + bfes@[2]
                            * 0x1_0000_0000_0000_0000 + bfes@[3]
                            * 0x1_0000_0000_0000_0000_0000_0000,
                        forall|i: int| 0 <= i < 4 ==> #[trigger] bfes@[i] < 0x1_0000_0000,
                ;
            }
        }
        Some(Amount(v))
    }

    /// The coin dictionary entry of a plain amount: the native-currency
    /// type-script digest paired with the amount's limbs.
    pub fn to_native_coins(&self) -> (r: Vec<(crate::Digest, Vec<u64>)>)
        ensures
            r@.len() == 1,
            r@[0].0@ == native_coin_typescript_digest_limbs(),
            r@[0].1@ == crate::encoding::enc_u128(self.0),
    {
        let mut dictionary: Vec<(crate::Digest, Vec<u64>)> = Vec::new();
        dictionary.push((native_coin_typescript_digest(), self.to_sequence()));
        dictionary
    }

    /// The canonical decimal spelling of the amount.
    pub fn to_decimal_string(&self) -> (r: String)
        ensures
            r@ == decimal_of(self.0 as nat),
    {
        let mut s = String::new();
        push_decimal(&mut s, self.0);
        s
    }

    /// Parse a decimal string. Succeeds exactly when the input is a
    /// non-empty digit string whose value fits an amount, and then returns
    /// the spelled value.
    pub fn from_decimal_str(s: &str) -> (r: Result<Amount, AmountParseError>)
        ensures
            r is Ok <==> is_decimal_string(s@) && decimal_val(s@) <= u128::MAX,
            r matches Ok(a) ==> a.0 == decimal_val(s@),
            r matches Err(e) && e == AmountParseError::NotDecimal ==> !is_decimal_string(s@),
    {
        let n: usize = s.unicode_len();
        if n == 0 {
            return Err(AmountParseError::NotDecimal);
        }
        let mut acc: u128 = 0;
        let mut i: usize = 0;
        while i < n
            invariant
                0 <= i <= n,
                n == s@.len(),
                forall|j: int| 0 <= j < i ==> is_digit_char(#[trigger] s@[j]),
                acc == decimal_val(s@.subrange(0, i as int)),
            decreases n - i,
        {
            let c = s.get_char(i);
            let u: u32 = c as u32;
            if !(48 <= u && u <= 57) {
                assert(!is_digit_char(s@[i as int]));
                return Err(AmountParseError::NotDecimal);
            }
            assert(is_digit_char(s@[i as int]));
            let d: u128 = (u - 48) as u128;
            assert(d == digit_val(s@[i as int]));
            proof {
                let p = s@.subrange(0, i + 1);
                assert(p.drop_last() =~= s@.subrange(0, i as int));
                assert(decimal_val(p) == acc * 10 + d);
                vstd::arithmetic::div_mod::lemma_fundamental_div_mod((u128::MAX - d) as int, 10);
            }
            if acc > (u128::MAX - d) / 10 {
                proof {
                    vstd::arithmetic::mul::lemma_mul_inequality(
                        ((u128::MAX - d) / 10 + 1) as int,
                        acc as int,
                        10,
                    );
                    assert(decimal_val(s@.subrange(0, i + 1)) > u128::MAX);
                    if forall|j: int| 0 <= j < s@.len() ==> is_digit_char(#[trigger] s@[j]) {
                        lemma_decimal_val_prefix_monotone(s@, i + 1);
                    }
                }
                return Err(AmountParseError::Overflow);
            }
            proof {
                vstd::arithmetic::mul::lemma_mul_inequality(
                    acc as int,
                    ((u128::MAX - d) / 10) as int,
                    10,
                );
            }
            let next: u128 = acc * 10 + d;
            acc = next;
            i = i + 1;
        }
        proof {
            assert(s@.subrange(0, n as int) =~= s@);
        }
        Ok(Amount(acc))
    }
}

/// The limbs of the fixed digest that marks the native currency's type
/// script.
pub open spec fn native_coin_typescript_digest_limbs() -> Seq<u64> {
    seq![4u64, 0u64, 0u64, 0u64, 0u64]
}

/// The fixed digest that marks the native currency's type script.
pub fn native_coin_typescript_digest() -> (r: crate::Digest)
    ensures
        r@ == native_coin_typescript_digest_limbs(),
        r.wf(),
{
    crate::Digest::new(4, 0, 0, 0, 0)
}

/// Append the decimal spelling of `v` to `s`.
fn push_decimal(s: &mut String, v: u128)
    ensures
        final (s)@ == old(s)@ + decimal_of(v as nat),
    decreases v,
{
    if v >= 10 {
        push_decimal(s, v / 10);
    }
    let d: u128 = v % 10;
    if d == 0 {
        s.append("0");
    } else if d == 1 {
        s.append("1");
    } else if d == 2 {
        s.append("2");
    } else if d == 3 {
        s.append("3");
    } else if d == 4 {
        s.append("4");
    } else if d == 5 {
        s.append("5");
    } else if d == 6 {
        s.append("6");
    } else if d == 7 {
        s.append("7");
    } else if d == 8 {
        s.append("8");
    } else {
        s.append("9");
    }
    proof {
        reveal_strlit("0");
        reveal_strlit("1");
        reveal_strlit("2");
        reveal_strlit("3");
        reveal_strlit("4");
        reveal_strlit("5");
        reveal_strlit("6");
        reveal_strlit("7");
        reveal_strlit("8");
        reveal_strlit("9");
        assert(s@ =~= old(s)@ + decimal_of(v as nat));
    }
}

} // verus!
