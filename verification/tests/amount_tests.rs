//! Amount arithmetic and decimal round trips.

use neptune_core::amount::Amount;
use neptune_core::amount::AmountParseError;
use rand::Rng;

#[test]
fn test_string_conversion() {
    let mut rng = rand::thread_rng();

    for _ in 0..100 {
        let amount = Amount(rng.gen::<u128>());
        let string = amount.to_decimal_string();
        let reconstructed_amount = Amount::from_decimal_str(&string)
            .expect("Coult not parse as number a string generated from a number.");

        assert_eq!(amount, reconstructed_amount);
    }
}

#[test]
fn test_bfe_conversion() {
    let mut rng = rand::thread_rng();

    for _ in 0..100 {
        let amount = Amount(rng.gen::<u128>());
        let bfes = amount.to_sequence();
        let reconstructed_amount = Amount::from_bfes(&bfes).unwrap();

        assert_eq!(amount, reconstructed_amount);
    }
}

#[test]
fn from_u64_conversion_simple_test() {
    let a: u64 = u32::MAX as u64;
    let b: u64 = 100u64;
    let a_amount: Amount = Amount::new(a);
    let b_amount: Amount = Amount::new(b);
    assert_eq!(a_amount.checked_add(&b_amount).unwrap(), Amount::new(a + b));
}

#[test]
fn from_u64_conversion_pbt() {
    let mut rng = rand::thread_rng();
    let a: u64 = rng.gen_range(0..(1u64 << 63));
    let b: u64 = rng.gen_range(0..(1u64 << 63));
    let a_amount: Amount = Amount::new(a);
    let b_amount: Amount = Amount::new(b);
    assert_eq!(a_amount.checked_add(&b_amount).unwrap(), Amount::new(a + b));
}

#[test]
fn amount_simple_scalar_mul_test() {
    let fourteen: Amount = Amount::new(14);
    let fourtytwo: Amount = Amount::new(42);
    assert_eq!(fourtytwo, fourteen.scalar_mul(3).unwrap());
}

#[test]
fn amount_scalar_mul_pbt() {
    let mut rng = rand::thread_rng();
    let a: u64 = rng.gen_range(0..u32::MAX as u64);
    let b: u64 = rng.gen_range(0..u32::MAX as u64);
    let prod_checked: Amount = Amount::new(a * b);
    let prod_calculated: Amount = Amount::new(a).scalar_mul(b).unwrap();
    assert_eq!(prod_checked, prod_calculated);
}

#[test]
fn amount_parse_rejects_non_decimal() {
    assert_eq!(
        Amount::from_decimal_str(""),
        Err(AmountParseError::NotDecimal)
    );
    assert_eq!(
        Amount::from_decimal_str("12a"),
        Err(AmountParseError::NotDecimal)
    );
    assert_eq!(
        Amount::from_decimal_str("-5"),
        Err(AmountParseError::NotDecimal)
    );
}

#[test]
fn amount_parse_rejects_overflow() {
    // One more than the largest amount.
    let s = "340282366920938463463374607431768211456";
    assert_eq!(Amount::from_decimal_str(s), Err(AmountParseError::Overflow));
    let max = "340282366920938463463374607431768211455";
    assert_eq!(Amount::from_decimal_str(max).unwrap(), Amount(u128::MAX));
}

#[test]
fn amount_checked_sub_underflow() {
    let five = Amount::new(5);
    let six = Amount::new(6);
    assert_eq!(six.checked_sub(&five), Some(Amount::new(1)));
    assert_eq!(five.checked_sub(&six), None);
}

#[test]
fn amount_halving() {
    let mut a = Amount::new(100);
    a.div_two();
    assert_eq!(a, Amount::new(50));
    let mut b = Amount::new(25);
    b.div_two();
    assert_eq!(b, Amount::new(12));
}
