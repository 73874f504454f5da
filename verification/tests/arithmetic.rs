use math_utils::int_ext::MpzExt;
use math_utils::nat_ext::MpnExt;
use math_utils::rat_ext::MpqExt;
use math_utils::traits::{ExtendedNumber, PartialOrdStrict};
use math_utils::NumError;
use std::cmp::Ordering;

fn q(s: &str) -> MpqExt {
    MpqExt::from_str(s).unwrap()
}

#[test]
fn nan_absorbs_addition() {
    assert!(matches!(q("3/4").add(MpqExt::NaN), MpqExt::NaN));
    assert!(matches!(MpqExt::NaN.add(q("3/4")), MpqExt::NaN));
    assert!(matches!(q("inf").add(MpqExt::NaN), MpqExt::NaN));
    assert!(matches!(MpqExt::NaN.add(MpqExt::NaN), MpqExt::NaN));
}

#[test]
fn nan_absorbs_multiplication() {
    assert!(matches!(q("3/4").mul(MpqExt::NaN), MpqExt::NaN));
    assert!(matches!(MpqExt::NaN.mul(q("0")), MpqExt::NaN));
}

#[test]
fn nan_is_unordered_and_unequal() {
    assert_eq!(MpqExt::NaN.partial_cmp(&MpqExt::NaN), None);
    assert_eq!(q("1/2").partial_cmp(&MpqExt::NaN), None);
    assert_eq!(MpqExt::NaN.partial_cmp_strict(&q("1/2")), None);
    assert!(MpqExt::NaN != MpqExt::NaN);
    assert!(q("1/2") != MpqExt::NaN);
}

#[test]
fn additive_identity() {
    assert_eq!(q("7/3").add(q("0")), q("7/3"));
    assert_eq!(q("-5").add(q("0")), q("-5"));
    assert_eq!(q("0").add(q("0")), q("0"));
}

#[test]
fn multiplicative_identity() {
    assert_eq!(q("7/3").mul(q("1")), q("7/3"));
    assert_eq!(q("-22/7").mul(q("1")), q("-22/7"));
}

#[test]
fn indeterminate_forms() {
    assert!(matches!(q("0").mul(q("inf")), MpqExt::NaN));
    assert!(matches!(q("inf").mul(q("0")), MpqExt::NaN));
    assert!(matches!(q("0").div(q("0")), MpqExt::NaN));
    assert!(matches!(q("inf").div(q("-inf")), MpqExt::NaN));
    assert!(matches!(q("inf").add(q("-inf")), MpqExt::NaN));
    assert_eq!(q("inf").add(q("inf")), q("inf"));
    assert_eq!(q("-inf").add(q("-inf")), q("-inf"));
}

#[test]
fn sign_propagation_through_mul_and_div() {
    // XNOR of the operand signs on zero and infinity results
    assert!(matches!(q("-0").mul(q("-0")), MpqExt::Zero(true)));
    assert!(matches!(q("-0").mul(q("0")), MpqExt::Zero(false)));
    assert!(matches!(q("-inf").mul(q("-inf")), MpqExt::Inf(true)));
    assert!(matches!(q("-0").mul(q("5")), MpqExt::Zero(false)));
    assert!(matches!(q("-0").mul(q("-5")), MpqExt::Zero(true)));
    assert!(matches!(q("3").div(q("-0")), MpqExt::Inf(false)));
    assert!(matches!(q("-3").div(q("-0")), MpqExt::Inf(true)));
    assert!(matches!(q("-0").div(q("inf")), MpqExt::Zero(false)));
}

#[test]
fn negation_flips_signs() {
    assert!(matches!(q("0").neg(), MpqExt::Zero(false)));
    assert!(matches!(q("-0").neg(), MpqExt::Zero(true)));
    assert!(matches!(q("inf").neg(), MpqExt::Inf(false)));
    assert!(matches!(MpqExt::NaN.neg(), MpqExt::NaN));
    assert_eq!(q("2/3").neg(), q("-2/3"));
}

#[test]
fn signed_zero_addition() {
    // negative zero survives only when both operands are negative zero
    assert!(matches!(q("-0").add(q("-0")), MpqExt::Zero(false)));
    assert!(matches!(q("-0").add(q("0")), MpqExt::Zero(true)));
    assert!(matches!(q("0").add(q("-0")), MpqExt::Zero(true)));
    // exact cancellation collapses to positive zero
    assert!(matches!(q("2/3").add(q("-2/3")), MpqExt::Zero(true)));
}

#[test]
fn signed_zero_subtraction() {
    // Zero(s1) - Zero(s2) = Zero(s1 || !s2)
    assert!(matches!(q("0").sub(q("-0")), MpqExt::Zero(true)));
    assert!(matches!(q("-0").sub(q("0")), MpqExt::Zero(false)));
    assert!(matches!(q("-0").sub(q("-0")), MpqExt::Zero(true)));
    assert!(matches!(q("1/2").sub(q("1/2")), MpqExt::Zero(true)));
}

#[test]
fn exact_rational_arithmetic() {
    assert_eq!(q("1/3").add(q("1/6")), q("1/2"));
    assert_eq!(q("22/7").sub(q("1/7")), q("3"));
    assert_eq!(q("2/3").mul(q("9/4")), q("3/2"));
    assert_eq!(q("5/6").div(q("5/3")), q("1/2"));
}

#[test]
fn reciprocal_swaps_zero_and_infinity() {
    assert!(matches!(q("0").reciprocal(), MpqExt::Inf(true)));
    assert!(matches!(q("-0").reciprocal(), MpqExt::Inf(false)));
    assert!(matches!(q("inf").reciprocal(), MpqExt::Zero(true)));
    assert!(matches!(MpqExt::NaN.reciprocal(), MpqExt::NaN));
    assert_eq!(q("22/7").reciprocal(), q("7/22"));
}

#[test]
fn pow_conventions() {
    // exponent 0 yields 1 everywhere but on NaN
    assert_eq!(q("0").pow_i(0), q("1"));
    assert_eq!(q("inf").pow_i(0), q("1"));
    assert_eq!(q("-inf").pow_u(0), q("1"));
    assert!(matches!(MpqExt::NaN.pow_i(0), MpqExt::NaN));
    // negative exponents invert the base
    assert_eq!(q("2").pow_i(-2), q("1/4"));
    assert_eq!(q("-2/3").pow_i(3), q("-8/27"));
    assert!(matches!(q("0").pow_i(-1), MpqExt::Inf(true)));
    assert!(matches!(q("-0").pow_i(3), MpqExt::Zero(false)));
    assert!(matches!(q("-0").pow_i(2), MpqExt::Zero(true)));
    assert!(matches!(q("-inf").pow_i(-3), MpqExt::Zero(false)));
    assert_eq!(q("3/2").pow_u(2), q("9/4"));
}

#[test]
fn lax_and_strict_ordering() {
    assert_eq!(q("0").partial_cmp(&q("-0")), Some(Ordering::Equal));
    assert_eq!(q("0").partial_cmp_strict(&q("-0")), Some(Ordering::Greater));
    assert_eq!(q("-0").partial_cmp_strict(&q("0")), Some(Ordering::Less));
    assert_eq!(q("-inf").partial_cmp(&q("22/7")), Some(Ordering::Less));
    assert_eq!(q("inf").partial_cmp(&q("inf")), Some(Ordering::Equal));
    assert_eq!(q("1/3").partial_cmp(&q("1/2")), Some(Ordering::Less));
    assert!(q("0") == q("-0"));
    assert!(q("inf") != q("-inf"));
}

#[test]
fn nan_is_not_a_zero_in_any_domain() {
    // the Zero variant alone answers is_zero, NaN never does
    assert!(!MpnExt::NaN.is_zero());
    assert!(!MpzExt::NaN.is_zero());
    assert!(!MpqExt::NaN.is_zero());
    assert!(MpnExt::Zero.is_zero());
    assert!(MpzExt::Zero(false).is_zero());
    assert!(q("-0").is_zero());
    assert!(!q("1/2").is_zero());
    assert!(!MpzExt::Inf(true).is_zero());
}

#[test]
fn nan_naturals_are_unequal_too() {
    assert!(MpnExt::NaN != MpnExt::NaN);
    assert!(MpnExt::NaN != MpnExt::Zero);
    assert!(MpzExt::NaN != MpzExt::NaN);
}

#[test]
fn wide_machine_integer_constructors() {
    // values that no 64-bit signed integer can carry
    let big: u128 = 340282366920938463463374607431768211455;
    assert_eq!(
        MpnExt::from_u128(big).serial_string(),
        "0xffffffffffffffffffffffffffffffff"
    );
    assert_eq!(
        MpzExt::from_i128(-170141183460469231731687303715884105728).repr_string(),
        "-170141183460469231731687303715884105728"
    );
    assert_eq!(MpzExt::from_u64(u64::MAX).repr_string(), "18446744073709551615");
    assert_eq!(
        MpqExt::from_u64(u64::MAX).repr_string(),
        "18446744073709551615"
    );
    assert_eq!(
        MpqExt::from_i128(-170141183460469231731687303715884105728).repr_string(),
        "-170141183460469231731687303715884105728"
    );
    assert!(matches!(MpnExt::from_u128(0), MpnExt::Zero));
    assert!(matches!(MpzExt::from_i128(0), MpzExt::Zero(true)));
    assert!(matches!(MpqExt::from_u64(0), MpqExt::Zero(true)));
}

#[test]
fn classification_queries() {
    assert!(MpqExt::NaN.is_nan());
    assert!(q("inf").is_infinite());
    assert!(!q("inf").is_finite());
    assert!(q("0").is_finite());
    assert!(q("-0").is_zero());
    assert!(!MpqExt::NaN.is_zero());
    assert!(q("inf").is_sign_positive());
    assert!(q("-0").is_sign_negative());
    assert!(!MpqExt::NaN.is_sign_positive());
    assert!(!MpqExt::NaN.is_sign_negative());
}

#[test]
fn natural_checked_sub() {
    let five = MpnExt::from_u64(5);
    let three = MpnExt::from_u64(3);
    assert_eq!(five.clone().checked_sub(three.clone()), Some(MpnExt::from_u64(2)));
    assert_eq!(three.clone().checked_sub(five.clone()), None);
    assert!(matches!(five.clone().checked_sub(five.clone()), Some(MpnExt::Zero)));
    assert!(matches!(MpnExt::Inf.checked_sub(MpnExt::Inf), Some(MpnExt::NaN)));
    assert!(matches!(MpnExt::Zero.checked_sub(three.clone()), None));
    assert!(matches!(three.checked_sub(MpnExt::Inf), None));
    assert!(matches!(MpnExt::Inf.checked_sub(five), Some(MpnExt::Inf)));
}

#[test]
fn natural_mul_absorption() {
    assert!(matches!(MpnExt::Zero.mul(MpnExt::Inf), MpnExt::NaN));
    assert!(matches!(MpnExt::Inf.mul(MpnExt::Zero), MpnExt::NaN));
    assert!(matches!(MpnExt::from_u64(7).mul(MpnExt::Zero), MpnExt::Zero));
    assert_eq!(MpnExt::from_u64(6).mul(MpnExt::from_u64(7)), MpnExt::from_u64(42));
}

#[test]
fn integer_truncating_division() {
    let a = MpzExt::from_i64(-7);
    let b = MpzExt::from_i64(2);
    assert_eq!(a.div(b), MpzExt::from_i64(-3));
    let c = MpzExt::from_i64(1);
    let d = MpzExt::from_i64(3);
    assert!(matches!(c.div(d), MpzExt::Zero(true)));
    let e = MpzExt::from_i64(-1);
    let f = MpzExt::from_i64(3);
    assert!(matches!(e.div(f), MpzExt::Zero(false)));
}

#[test]
fn integer_unsigned_abs() {
    assert_eq!(MpzExt::from_i64(-26).unsigned_abs(), MpnExt::from_u64(26));
    assert!(matches!(MpzExt::Inf(false).unsigned_abs(), MpnExt::Inf));
    assert!(matches!(MpzExt::NaN.unsigned_abs(), MpnExt::NaN));
    assert!(matches!(MpzExt::Zero(false).unsigned_abs(), MpnExt::Zero));
}

#[test]
fn widening_conversions() {
    assert_eq!(MpqExt::from_mpz(MpzExt::from_i64(-4)), q("-4"));
    assert_eq!(MpqExt::from_mpn(MpnExt::from_u64(9)), q("9"));
    assert!(matches!(MpqExt::from_mpz(MpzExt::Inf(false)), MpqExt::Inf(false)));
}

#[test]
fn narrowing_conversions_fail_on_special() {
    assert!(matches!(q("inf").try_into_rational(), Err(NumError::NotConvertible)));
    assert!(matches!(MpqExt::NaN.try_into_rational(), Err(NumError::NotConvertible)));
    assert!(q("22/7").try_into_rational().is_ok());
    assert!(matches!(
        MpzExt::Inf(true).try_into_integer(),
        Err(NumError::NotConvertible)
    ));
}

#[test]
fn from_extended_integers_quotients() {
    let r = MpqExt::from_extended_integers(MpzExt::from_i64(6), MpzExt::from_i64(-4));
    assert_eq!(r, q("-3/2"));
    assert!(matches!(
        MpqExt::from_extended_integers(MpzExt::Zero(true), MpzExt::Zero(false)),
        MpqExt::NaN
    ));
    assert!(matches!(
        MpqExt::from_extended_integers(MpzExt::from_i64(2), MpzExt::Zero(true)),
        MpqExt::Inf(true)
    ));
    assert!(matches!(
        MpqExt::from_extended_integers(MpzExt::from_i64(-2), MpzExt::Zero(true)),
        MpqExt::Inf(false)
    ));
}
