//! Trusted bindings to the malachite arbitrary-precision types.
//!
//! The extended-number types store their finite payloads in malachite's
//! `Natural`, `Integer` and `Rational`. Those types are opaque here; the
//! uninterpreted functions `nat_of`, `int_of`, `rat_num` and `rat_den` name
//! the mathematical value a payload holds, and every wrapper in this module
//! states, over those names, what the malachite operation it calls returns.
//! Everything else in the crate is verified against these contracts.

use vstd::arithmetic::power::pow;
use vstd::prelude::*;

use core::str::FromStr;

use crate::digits::{int_str_val, nat_str_val, str_of_base};
use crate::ext::{abs_int, trunc_div};
use malachite::base::num::arithmetic::traits::Abs;
use malachite::base::num::arithmetic::traits::CheckedSub;
use malachite::base::num::arithmetic::traits::Pow;
use malachite::base::num::arithmetic::traits::Reciprocal;
use malachite::base::num::arithmetic::traits::Sign;
use malachite::base::num::arithmetic::traits::UnsignedAbs;
use malachite::base::num::basic::traits::Zero;
use malachite::base::num::conversion::traits::FromStringBase;
use malachite::rational::rational::arithmetic::traits::Approximate;
use malachite::Integer;
use malachite::Natural;
use malachite::Rational;

verus! {

#[verifier::external_type_specification]
#[verifier::external_body]
pub struct ExNatural(malachite::Natural);

/// The non-negative integer value that a malachite `Natural` holds.
pub uninterp spec fn nat_of(n: Natural) -> nat;

/// Orders two mathematical integers.
pub open spec fn ord_of(a: int, b: int) -> core::cmp::Ordering {
    if a < b {
        core::cmp::Ordering::Less
    } else if a == b {
        core::cmp::Ordering::Equal
    } else {
        core::cmp::Ordering::Greater
    }
}

/// Relies on `Natural::from(u64)`: exact conversion.
#[verifier::external_body]
pub fn nat_from_u64(v: u64) -> (r: Natural)
    ensures
        nat_of(r) == v,
{
    Natural::from(v)
}

/// Relies on `Natural::from(u128)`: exact conversion.
#[verifier::external_body]
pub fn nat_from_u128(v: u128) -> (r: Natural)
    ensures
        nat_of(r) == v,
{
    Natural::from(v)
}

/// Relies on `Natural::clone`: an equal value.
#[verifier::external_body]
pub fn nat_clone(n: &Natural) -> (r: Natural)
    ensures
        nat_of(r) == nat_of(*n),
{
    n.clone()
}

/// Relies on `Natural`'s `PartialEq`: equality of values (the
/// representation of a value is unique).
#[verifier::external_body]
pub fn nat_eq(a: &Natural, b: &Natural) -> (r: bool)
    ensures
        r == (nat_of(*a) == nat_of(*b)),
{
    a == b
}

/// Relies on `Natural`'s `Ord::cmp`: the order of the values.
#[verifier::external_body]
pub fn nat_cmp(a: &Natural, b: &Natural) -> (r: core::cmp::Ordering)
    ensures
        r == ord_of(nat_of(*a) as int, nat_of(*b) as int),
{
    a.cmp(b)
}

/// Relies on `Natural` addition: the exact sum.
#[verifier::external_body]
pub fn nat_add(a: &Natural, b: &Natural) -> (r: Natural)
    ensures
        nat_of(r) == nat_of(*a) + nat_of(*b),
{
    a + b
}

/// Relies on `Natural` multiplication: the exact product.
#[verifier::external_body]
pub fn nat_mul(a: &Natural, b: &Natural) -> (r: Natural)
    ensures
        nat_of(r) == nat_of(*a) * nat_of(*b),
{
    a * b
}

/// Relies on `Natural::checked_sub`: the exact difference, absent on
/// underflow.
#[verifier::external_body]
pub fn nat_checked_sub(a: &Natural, b: &Natural) -> (r: Option<Natural>)
    ensures
        match r {
            Some(d) => nat_of(*a) >= nat_of(*b) && nat_of(d) == nat_of(*a) - nat_of(*b),
            None => nat_of(*a) < nat_of(*b),
        },
{
    a.checked_sub(b)
}

/// Relies on `Natural`'s `Pow<u64>`: the exact power.
#[verifier::external_body]
pub fn nat_pow(n: &Natural, e: u64) -> (r: Natural)
    ensures
        nat_of(r) == pow(nat_of(*n) as int, e as nat),
{
    n.pow(e)
}

/// Relies on `Natural::from_str`: succeeds exactly on an optional `'+'`
/// followed by a nonempty run of decimal digits, yielding their value.
#[verifier::external_body]
pub fn nat_from_str(s: &str) -> (r: Option<Natural>)
    ensures
        match (r, nat_str_val(s@, 10)) {
            (Some(n), Some(v)) => nat_of(n) == v,
            (None, None) => true,
            _ => false,
        },
{
    Natural::from_str(s).ok()
}

/// Relies on `Natural::from_string_base`: succeeds exactly on an optional
/// `'+'` followed by a nonempty run of digits of the base (letter case
/// insignificant up to base 36, distinct digits above), yielding their
/// value.
#[verifier::external_body]
pub fn nat_from_string_base(base: u8, s: &str) -> (r: Option<Natural>)
    requires
        2 <= base <= 62,
    ensures
        match (r, nat_str_val(s@, base as nat)) {
            (Some(n), Some(v)) => nat_of(n) == v,
            (None, None) => true,
            _ => false,
        },
{
    Natural::from_string_base(base, s)
}

/// Relies on `Natural`'s `Display`: the canonical decimal digits.
#[verifier::external_body]
pub fn nat_to_string(n: &Natural) -> (r: String)
    ensures
        r@ == str_of_base(nat_of(*n), 10),
{
    format!("{}", n)
}

/// Relies on `Natural`'s `LowerHex`: the canonical lowercase hexadecimal
/// digits, without a prefix.
#[verifier::external_body]
pub fn nat_to_hex(n: &Natural) -> (r: String)
    ensures
        r@ == str_of_base(nat_of(*n), 16),
{
    format!("{:x}", n)
}

#[verifier::external_type_specification]
#[verifier::external_body]
pub struct ExInteger(malachite::Integer);

/// The integer value that a malachite `Integer` holds.
pub uninterp spec fn int_of(z: Integer) -> int;

/// Relies on `Integer::from(i64)`: exact conversion.
#[verifier::external_body]
pub fn int_from_i64(v: i64) -> (r: Integer)
    ensures
        int_of(r) == v,
{
    Integer::from(v)
}

/// Relies on `Integer::from(u64)`: exact conversion.
#[verifier::external_body]
pub fn int_from_u64(v: u64) -> (r: Integer)
    ensures
        int_of(r) == v,
{
    Integer::from(v)
}

/// Relies on `Integer::from(i128)`: exact conversion.
#[verifier::external_body]
pub fn int_from_i128(v: i128) -> (r: Integer)
    ensures
        int_of(r) == v,
{
    Integer::from(v)
}

/// Relies on `Integer::from_sign_and_abs`: the value with the given
/// magnitude, negative when the sign is false.
#[verifier::external_body]
pub fn int_from_sign_and_abs(sign: bool, n: Natural) -> (r: Integer)
    ensures
        int_of(r) == if sign {
            nat_of(n) as int
        } else {
            -(nat_of(n) as int)
        },
{
    Integer::from_sign_and_abs(sign, n)
}

/// Relies on `Integer::clone`: an equal value.
#[verifier::external_body]
pub fn int_clone(z: &Integer) -> (r: Integer)
    ensures
        int_of(r) == int_of(*z),
{
    z.clone()
}

/// Relies on `Integer`'s `PartialEq`: equality of values.
#[verifier::external_body]
pub fn int_eq(a: &Integer, b: &Integer) -> (r: bool)
    ensures
        r == (int_of(*a) == int_of(*b)),
{
    a == b
}

/// Relies on `Integer`'s `Ord::cmp`: the order of the values.
#[verifier::external_body]
pub fn int_cmp(a: &Integer, b: &Integer) -> (r: core::cmp::Ordering)
    ensures
        r == ord_of(int_of(*a), int_of(*b)),
{
    a.cmp(b)
}

/// Relies on `Integer::sign`: the sign of the value.
#[verifier::external_body]
pub fn int_sign(z: &Integer) -> (r: core::cmp::Ordering)
    ensures
        r == ord_of(int_of(*z), 0),
{
    z.sign()
}

/// Relies on `Integer` addition: the exact sum.
#[verifier::external_body]
pub fn int_add(a: &Integer, b: &Integer) -> (r: Integer)
    ensures
        int_of(r) == int_of(*a) + int_of(*b),
{
    a + b
}

/// Relies on `Integer` subtraction: the exact difference.
#[verifier::external_body]
pub fn int_sub(a: &Integer, b: &Integer) -> (r: Integer)
    ensures
        int_of(r) == int_of(*a) - int_of(*b),
{
    a - b
}

/// Relies on `Integer` multiplication: the exact product.
#[verifier::external_body]
pub fn int_mul(a: &Integer, b: &Integer) -> (r: Integer)
    ensures
        int_of(r) == int_of(*a) * int_of(*b),
{
    a * b
}

/// Relies on `Integer` division: the quotient rounded toward zero.
#[verifier::external_body]
pub fn int_div(a: &Integer, b: &Integer) -> (r: Integer)
    requires
        int_of(*b) != 0,
    ensures
        int_of(r) == trunc_div(int_of(*a), int_of(*b)),
{
    a / b
}

/// Relies on `Integer` negation: the exact opposite.
#[verifier::external_body]
pub fn int_neg(z: &Integer) -> (r: Integer)
    ensures
        int_of(r) == -int_of(*z),
{
    -z
}

/// Relies on `Integer::unsigned_abs`: the magnitude as a `Natural`.
#[verifier::external_body]
pub fn int_unsigned_abs(z: &Integer) -> (r: Natural)
    ensures
        nat_of(r) == abs_int(int_of(*z)),
{
    z.unsigned_abs()
}

/// Relies on `Integer`'s `Pow<u64>`: the exact power.
#[verifier::external_body]
pub fn int_pow(z: &Integer, e: u64) -> (r: Integer)
    ensures
        int_of(r) == pow(int_of(*z), e as nat),
{
    z.pow(e)
}

/// Relies on `Integer::from_str`: succeeds exactly on an optional `'-'` or
/// `'+'` followed by a nonempty run of decimal digits, yielding their
/// signed value.
#[verifier::external_body]
pub fn int_from_str(s: &str) -> (r: Option<Integer>)
    ensures
        match (r, int_str_val(s@, 10)) {
            (Some(z), Some(v)) => int_of(z) == v,
            (None, None) => true,
            _ => false,
        },
{
    Integer::from_str(s).ok()
}

/// Relies on `Integer::from_string_base`: succeeds exactly on an optional
/// `'-'` or `'+'` followed by a nonempty run of digits of the base,
/// yielding their signed value.
#[verifier::external_body]
pub fn int_from_string_base(base: u8, s: &str) -> (r: Option<Integer>)
    requires
        2 <= base <= 62,
    ensures
        match (r, int_str_val(s@, base as nat)) {
            (Some(z), Some(v)) => int_of(z) == v,
            (None, None) => true,
            _ => false,
        },
{
    Integer::from_string_base(base, s)
}

/// Relies on `String::push`: appends one character.
#[verifier::external_body]
pub fn string_push_char(s: &mut String, c: char)
    ensures
        final (s)@ == old(s)@.push(c),
{
    s.push(c)
}

/// Relies on `str::parse::<i64>`: succeeds exactly on an optional sign
/// followed by a nonempty run of decimal digits whose value fits the
/// type.
#[verifier::external_body]
pub fn parse_i64(s: &str) -> (r: Option<i64>)
    ensures
        match (r, int_str_val(s@, 10)) {
            (Some(v), Some(m)) => v == m,
            (None, Some(m)) => !(i64::MIN <= m <= i64::MAX),
            (None, None) => true,
            (Some(_), None) => false,
        },
{
    s.parse::<i64>().ok()
}

#[verifier::external_type_specification]
#[verifier::external_body]
pub struct ExRational(malachite::Rational);

/// The numerator of the reduced fraction that a malachite `Rational`
/// holds, carrying the value's sign.
pub uninterp spec fn rat_num(q: Rational) -> int;

/// The denominator of the reduced fraction that a malachite `Rational`
/// holds; always at least 1.
pub uninterp spec fn rat_den(q: Rational) -> int;

/// The greatest common divisor, for stating that stored fractions are in
/// lowest terms.
pub open spec fn gcd_nat(a: nat, b: nat) -> nat
    decreases b,
{
    if b == 0 {
        a
    } else {
        gcd_nat(b, a % b)
    }
}

/// A reduced fraction with positive denominator: the canonical form in
/// which malachite stores every `Rational`.
pub open spec fn rat_canon(n: int, d: int) -> bool {
    d >= 1 && gcd_nat(abs_int(n) as nat, d as nat) == 1
}

/// Everything is coprime to 1, so `n/1` is always canonical.
pub proof fn lemma_gcd_one(a: nat)
    ensures
        gcd_nat(a, 1) == 1,
{
    assert(gcd_nat(a, 1) == gcd_nat(1, a % 1));
    assert(a % 1 == 0);
}

/// A canonical fraction with numerator 0 has denominator 1.
pub proof fn lemma_gcd_zero(d: nat)
    requires
        d >= 1,
    ensures
        gcd_nat(0, d) == d,
{
    assert(gcd_nat(0, d) == gcd_nat(d, 0nat % d));
    assert(0nat % d == 0);
}

/// Abbreviates "the payload `q` holds the canonical form of the fraction
/// `n/d`": cross-multiplication equality against the stored pair.
pub open spec fn rat_is(q: Rational, n: int, d: int) -> bool {
    rat_num(q) * d == n * rat_den(q) && rat_canon(rat_num(q), rat_den(q))
}

/// Relies on `Rational::clone`: an equal value.
#[verifier::external_body]
pub fn rat_clone(q: &Rational) -> (r: Rational)
    ensures
        rat_num(r) == rat_num(*q),
        rat_den(r) == rat_den(*q),
{
    q.clone()
}

/// Relies on `Rational`'s `PartialEq`: equality of values (the stored form
/// is canonical, so structural equality is value equality).
#[verifier::external_body]
pub fn rat_eq(a: &Rational, b: &Rational) -> (r: bool)
    ensures
        r == (rat_num(*a) * rat_den(*b) == rat_num(*b) * rat_den(*a)),
{
    a == b
}

/// Relies on `Rational`'s `Ord::cmp`: the order of the values.
#[verifier::external_body]
pub fn rat_cmp(a: &Rational, b: &Rational) -> (r: core::cmp::Ordering)
    ensures
        r == ord_of(rat_num(*a) * rat_den(*b), rat_num(*b) * rat_den(*a)),
{
    a.cmp(b)
}

/// Relies on `Rational::sign`: the sign of the value.
#[verifier::external_body]
pub fn rat_sign(q: &Rational) -> (r: core::cmp::Ordering)
    ensures
        r == ord_of(rat_num(*q), 0),
{
    q.sign()
}

/// Relies on `Rational::from_sign_and_naturals`: the reduced fraction
/// `n/d`, negative when the sign is false.
#[verifier::external_body]
pub fn rat_from_sign_and_naturals(sign: bool, n: &Natural, d: &Natural) -> (r: Rational)
    requires
        nat_of(*n) >= 1,
        nat_of(*d) >= 1,
    ensures
        rat_is(
            r,
            if sign {
                nat_of(*n) as int
            } else {
                -(nat_of(*n) as int)
            },
            nat_of(*d) as int,
        ),
        rat_num(r) != 0,
{
    Rational::from_sign_and_naturals_ref(sign, n, d)
}

/// Relies on `Rational::from_integers`: the reduced fraction `n/d`.
#[verifier::external_body]
pub fn rat_from_integers(n: &Integer, d: &Integer) -> (r: Rational)
    requires
        int_of(*n) != 0,
        int_of(*d) != 0,
    ensures
        rat_is(r, int_of(*n), int_of(*d)),
        rat_num(r) != 0,
{
    Rational::from_integers_ref(n, d)
}

/// Relies on `Rational::from(&Integer)`: exact widening, denominator 1.
#[verifier::external_body]
pub fn rat_from_integer(z: &Integer) -> (r: Rational)
    ensures
        rat_num(r) == int_of(*z),
        rat_den(r) == 1,
{
    Rational::from(z)
}

/// Relies on `Rational::from(&Natural)`: exact widening, denominator 1.
#[verifier::external_body]
pub fn rat_from_natural(n: &Natural) -> (r: Rational)
    ensures
        rat_num(r) == nat_of(*n),
        rat_den(r) == 1,
{
    Rational::from(n)
}

/// Relies on `Rational::to_numerator`: the numerator of the stored reduced
/// fraction, as a `Natural`.
#[verifier::external_body]
pub fn rat_to_numerator(q: &Rational) -> (r: Natural)
    ensures
        nat_of(r) == abs_int(rat_num(*q)),
{
    q.to_numerator()
}

/// Relies on `Rational::to_denominator`: the denominator of the stored
/// reduced fraction, as a `Natural`.
#[verifier::external_body]
pub fn rat_to_denominator(q: &Rational) -> (r: Natural)
    ensures
        nat_of(r) == rat_den(*q),
{
    q.to_denominator()
}

/// Relies on `Rational` addition: the exact sum, stored reduced.
#[verifier::external_body]
pub fn rat_add(a: &Rational, b: &Rational) -> (r: Rational)
    ensures
        rat_is(r, rat_num(*a) * rat_den(*b) + rat_num(*b) * rat_den(*a), rat_den(*a) * rat_den(*b)),
{
    a + b
}

/// Relies on `Rational` subtraction: the exact difference, stored reduced.
#[verifier::external_body]
pub fn rat_sub(a: &Rational, b: &Rational) -> (r: Rational)
    ensures
        rat_is(r, rat_num(*a) * rat_den(*b) - rat_num(*b) * rat_den(*a), rat_den(*a) * rat_den(*b)),
{
    a - b
}

/// Relies on `Rational` multiplication: the exact product, stored reduced.
#[verifier::external_body]
pub fn rat_mul(a: &Rational, b: &Rational) -> (r: Rational)
    ensures
        rat_is(r, rat_num(*a) * rat_num(*b), rat_den(*a) * rat_den(*b)),
{
    a * b
}

/// Relies on `Rational` division: the exact quotient, stored reduced.
/// Dividing by zero would panic, so the divisor must be nonzero.
#[verifier::external_body]
pub fn rat_div(a: &Rational, b: &Rational) -> (r: Rational)
    requires
        rat_num(*b) != 0,
    ensures
        rat_is(r, rat_num(*a) * rat_den(*b), rat_den(*a) * rat_num(*b)),
{
    a / b
}

/// Relies on `Rational` negation: the exact opposite.
#[verifier::external_body]
pub fn rat_neg(q: &Rational) -> (r: Rational)
    ensures
        rat_num(r) == -rat_num(*q),
        rat_den(r) == rat_den(*q),
{
    -q
}

/// Relies on `Rational::abs`: the absolute value.
#[verifier::external_body]
pub fn rat_abs(q: &Rational) -> (r: Rational)
    ensures
        rat_num(r) == abs_int(rat_num(*q)),
        rat_den(r) == rat_den(*q),
{
    q.abs()
}

/// Relies on `Rational::reciprocal`: the exact reciprocal. The value must
/// be nonzero, else the call would panic.
#[verifier::external_body]
pub fn rat_reciprocal(q: &Rational) -> (r: Rational)
    requires
        rat_num(*q) != 0,
    ensures
        rat_is(r, rat_den(*q), rat_num(*q)),
{
    q.reciprocal()
}

/// Relies on `Rational`'s `Pow<u64>`: the exact power, stored reduced.
#[verifier::external_body]
pub fn rat_pow_u64(q: &Rational, e: u64) -> (r: Rational)
    ensures
        rat_is(r, pow(rat_num(*q), e as nat), pow(rat_den(*q), e as nat)),
{
    q.pow(e)
}

/// For fractions `x = xn/xd` and two candidate approximations `p = pn/pd`
/// and `c = cn/cd` (all denominators positive): `p` is at least as close
/// to `x` as `c` is, by cross-multiplied comparison of `|x - p|` and
/// `|x - c|`.
pub open spec fn no_closer_frac(xn: int, xd: int, pn: int, pd: int, cn: int, cd: int) -> bool {
    abs_int(xn * pd - pn * xd) * cd <= abs_int(xn * cd - cn * xd) * pd
}

/// Strictly closer, in the same encoding.
pub open spec fn closer_frac(xn: int, xd: int, pn: int, pd: int, cn: int, cd: int) -> bool {
    abs_int(xn * pd - pn * xd) * cd < abs_int(xn * cd - cn * xd) * pd
}

/// Relies on `Rational::approximate`: the best approximation of the value
/// with denominator at most `max_den` — no other fraction within the bound
/// is closer, ties fall to the smaller denominator, and a value already
/// within the bound is returned unchanged.
#[verifier::external_body]
pub fn rat_approx(q: &Rational, max_den: &Natural) -> (r: Rational)
    requires
        nat_of(*max_den) >= 1,
    ensures
        rat_canon(rat_num(r), rat_den(r)),
        1 <= rat_den(r) <= nat_of(*max_den),
        rat_den(*q) <= nat_of(*max_den) ==> rat_num(r) == rat_num(*q) && rat_den(r) == rat_den(
            *q,
        ),
        forall|cn: int, cd: int|
            1 <= cd <= nat_of(*max_den) ==> no_closer_frac(
                rat_num(*q),
                rat_den(*q),
                rat_num(r),
                rat_den(r),
                cn,
                cd,
            ),
        forall|cn: int, cd: int|
            1 <= cd < rat_den(r) ==> closer_frac(
                rat_num(*q),
                rat_den(*q),
                rat_num(r),
                rat_den(r),
                cn,
                cd,
            ),
{
    q.approximate(max_den)
}

} // verus!
