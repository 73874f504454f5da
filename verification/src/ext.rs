//! Mathematical model of extended numbers.
//!
//! An extended number is NaN, a signed zero, a signed infinity, or a finite
//! exact fraction. This module defines the spec-level value space and the
//! case matrices of every arithmetic operation and comparison; the three
//! executable types (naturals, integers, rationals) are all specified
//! against these functions.

use vstd::arithmetic::power::pow;
use vstd::prelude::*;

verus! {

/// Spec-level value of an extended number. `Fin { num, den }` stands for the
/// exact fraction `num/den`; a well-formed value has `num != 0` and
/// `den >= 1` (zero is always the `Zero` variant, and integral domains use
/// `den == 1`).
pub enum ExtVal {
    Nan,
    Zero { sign: bool },
    Inf { sign: bool },
    Fin { num: int, den: int },
}

impl ExtVal {
    /// Finite payloads are nonzero with a positive denominator.
    pub open spec fn wf(self) -> bool {
        match self {
            ExtVal::Fin { num, den } => num != 0 && den >= 1,
            _ => true,
        }
    }

    /// Well-formed in an integral domain: the denominator is 1.
    pub open spec fn wf_integral(self) -> bool {
        &&& self.wf()
        &&& match self {
            ExtVal::Fin { num, den } => den == 1,
            _ => true,
        }
    }

    /// Well-formed in an unsigned domain: no negative values, and the signs
    /// of zero and infinity are always positive.
    pub open spec fn wf_unsigned(self) -> bool {
        &&& self.wf_integral()
        &&& match self {
            ExtVal::Nan => true,
            ExtVal::Zero { sign } => sign,
            ExtVal::Inf { sign } => sign,
            ExtVal::Fin { num, den } => num >= 1,
        }
    }

}

/// The finite value 1.
pub open spec fn ext_one() -> ExtVal {
    ExtVal::Fin { num: 1, den: 1 }
}

/// A finite fraction with the denominator's sign moved into the numerator,
/// so that well-formed values keep a positive denominator.
pub open spec fn fin_norm(num: int, den: int) -> ExtVal {
    if den < 0 {
        ExtVal::Fin { num: -num, den: -den }
    } else {
        ExtVal::Fin { num, den }
    }
}

/// The extended value denoted by a plain integer.
pub open spec fn ext_from_int(i: int) -> ExtVal {
    if i == 0 {
        ExtVal::Zero { sign: true }
    } else {
        ExtVal::Fin { num: i, den: 1 }
    }
}

/// Structural sameness of two extended values: equal variants, equal signs,
/// and equal finite values (fractions compare by cross-multiplication, so a
/// representative need not be in lowest terms). Unlike `eq_ext`, NaN is the
/// same as NaN and opposite-signed zeros differ.
pub open spec fn same_val(a: ExtVal, b: ExtVal) -> bool {
    match (a, b) {
        (ExtVal::Nan, ExtVal::Nan) => true,
        (ExtVal::Zero { sign: s1 }, ExtVal::Zero { sign: s2 }) => s1 == s2,
        (ExtVal::Inf { sign: s1 }, ExtVal::Inf { sign: s2 }) => s1 == s2,
        (ExtVal::Fin { num: n1, den: d1 }, ExtVal::Fin { num: n2, den: d2 }) => n1 * d2 == n2
            * d1,
        _ => false,
    }
}

/// The lax equality of the extended types: all zeros are equal regardless of
/// sign, infinities are equal when their signs are, finite values compare
/// exactly, and NaN is equal to nothing (not even itself).
pub open spec fn eq_ext(a: ExtVal, b: ExtVal) -> bool {
    match (a, b) {
        (ExtVal::Zero { .. }, ExtVal::Zero { .. }) => true,
        (ExtVal::Inf { sign: s1 }, ExtVal::Inf { sign: s2 }) => s1 == s2,
        (ExtVal::Fin { num: n1, den: d1 }, ExtVal::Fin { num: n2, den: d2 }) => n1 * d2 == n2
            * d1,
        _ => false,
    }
}

/// Addition. NaN absorbs; opposite-signed infinities give NaN; zeros combine
/// by disjunction of sign bits (negative zero survives only when both
/// operands are negative zero); a finite sum that cancels to zero collapses
/// to positive zero.
pub open spec fn add_ext(a: ExtVal, b: ExtVal) -> ExtVal {
    match (a, b) {
        (ExtVal::Nan, _) => ExtVal::Nan,
        (_, ExtVal::Nan) => ExtVal::Nan,
        (ExtVal::Inf { sign: s1 }, ExtVal::Inf { sign: s2 }) => if s1 == s2 {
            ExtVal::Inf { sign: s1 }
        } else {
            ExtVal::Nan
        },
        (ExtVal::Zero { sign: s1 }, ExtVal::Zero { sign: s2 }) => ExtVal::Zero { sign: s1 || s2 },
        (ExtVal::Zero { .. }, r) => r,
        (r, ExtVal::Zero { .. }) => r,
        (ExtVal::Inf { sign }, _) => ExtVal::Inf { sign },
        (_, ExtVal::Inf { sign }) => ExtVal::Inf { sign },
        (ExtVal::Fin { num: n1, den: d1 }, ExtVal::Fin { num: n2, den: d2 }) => {
            let n = n1 * d2 + n2 * d1;
            if n == 0 {
                ExtVal::Zero { sign: true }
            } else {
                ExtVal::Fin { num: n, den: d1 * d2 }
            }
        },
    }
}

/// Negation: flips the sign of zero, infinity and finite values; NaN is a
/// fixed point.
pub open spec fn neg_ext(a: ExtVal) -> ExtVal {
    match a {
        ExtVal::Nan => ExtVal::Nan,
        ExtVal::Zero { sign } => ExtVal::Zero { sign: !sign },
        ExtVal::Inf { sign } => ExtVal::Inf { sign: !sign },
        ExtVal::Fin { num, den } => ExtVal::Fin { num: -num, den },
    }
}

/// Subtraction. Same-signed infinities give NaN; `Zero(s1) - Zero(s2)`
/// is `Zero(s1 || !s2)`; a finite difference that cancels collapses to
/// positive zero.
pub open spec fn sub_ext(a: ExtVal, b: ExtVal) -> ExtVal {
    match (a, b) {
        (ExtVal::Nan, _) => ExtVal::Nan,
        (_, ExtVal::Nan) => ExtVal::Nan,
        (ExtVal::Inf { sign: s1 }, ExtVal::Inf { sign: s2 }) => if s1 == s2 {
            ExtVal::Nan
        } else {
            ExtVal::Inf { sign: s1 }
        },
        (ExtVal::Zero { sign: s1 }, ExtVal::Zero { sign: s2 }) => ExtVal::Zero {
            sign: s1 || !s2,
        },
        (other, ExtVal::Zero { .. }) => other,
        (ExtVal::Zero { .. }, other) => neg_ext(other),
        (ExtVal::Inf { sign }, _) => ExtVal::Inf { sign },
        (_, ExtVal::Inf { sign }) => ExtVal::Inf { sign: !sign },
        (ExtVal::Fin { num: n1, den: d1 }, ExtVal::Fin { num: n2, den: d2 }) => {
            let n = n1 * d2 - n2 * d1;
            if n == 0 {
                ExtVal::Zero { sign: true }
            } else {
                ExtVal::Fin { num: n, den: d1 * d2 }
            }
        },
    }
}

/// Multiplication. `0 * inf` is NaN; the sign of a zero or infinity result
/// is the equality (XNOR) of the operand signs.
pub open spec fn mul_ext(a: ExtVal, b: ExtVal) -> ExtVal {
    match (a, b) {
        (ExtVal::Nan, _) => ExtVal::Nan,
        (_, ExtVal::Nan) => ExtVal::Nan,
        (ExtVal::Zero { .. }, ExtVal::Inf { .. }) => ExtVal::Nan,
        (ExtVal::Inf { .. }, ExtVal::Zero { .. }) => ExtVal::Nan,
        (ExtVal::Zero { sign: s1 }, ExtVal::Zero { sign: s2 }) => ExtVal::Zero { sign: s1 == s2 },
        (ExtVal::Zero { sign: s1 }, ExtVal::Fin { num, .. }) => ExtVal::Zero {
            sign: s1 == (num >= 0),
        },
        (ExtVal::Fin { num, .. }, ExtVal::Zero { sign: s1 }) => ExtVal::Zero {
            sign: s1 == (num >= 0),
        },
        (ExtVal::Inf { sign: s1 }, ExtVal::Inf { sign: s2 }) => ExtVal::Inf { sign: s1 == s2 },
        (ExtVal::Inf { sign: s1 }, ExtVal::Fin { num, .. }) => ExtVal::Inf {
            sign: s1 == (num >= 0),
        },
        (ExtVal::Fin { num, .. }, ExtVal::Inf { sign: s1 }) => ExtVal::Inf {
            sign: s1 == (num >= 0),
        },
        (ExtVal::Fin { num: n1, den: d1 }, ExtVal::Fin { num: n2, den: d2 }) => ExtVal::Fin {
            num: n1 * n2,
            den: d1 * d2,
        },
    }
}

/// Division in the rational domain. `0/0` and `inf/inf` are NaN; the sign of
/// a zero or infinity result is the equality of the operand signs; finite
/// quotients are exact.
pub open spec fn div_rat_ext(a: ExtVal, b: ExtVal) -> ExtVal {
    match (a, b) {
        (ExtVal::Nan, _) => ExtVal::Nan,
        (_, ExtVal::Nan) => ExtVal::Nan,
        (ExtVal::Zero { .. }, ExtVal::Zero { .. }) => ExtVal::Nan,
        (ExtVal::Inf { .. }, ExtVal::Inf { .. }) => ExtVal::Nan,
        (ExtVal::Zero { sign: s1 }, ExtVal::Inf { sign: s2 }) => ExtVal::Zero { sign: s1 == s2 },
        (ExtVal::Inf { sign: s1 }, ExtVal::Zero { sign: s2 }) => ExtVal::Inf { sign: s1 == s2 },
        (ExtVal::Zero { sign: s1 }, ExtVal::Fin { num, .. }) => ExtVal::Zero {
            sign: s1 == (num >= 0),
        },
        (ExtVal::Fin { num, .. }, ExtVal::Zero { sign: s1 }) => ExtVal::Inf {
            sign: s1 == (num >= 0),
        },
        (ExtVal::Inf { sign: s1 }, ExtVal::Fin { num, .. }) => ExtVal::Inf {
            sign: s1 == (num >= 0),
        },
        (ExtVal::Fin { num, .. }, ExtVal::Inf { sign: s1 }) => ExtVal::Zero {
            sign: s1 == (num >= 0),
        },
        (ExtVal::Fin { num: n1, den: d1 }, ExtVal::Fin { num: n2, den: d2 }) => fin_norm(
            n1 * d2,
            d1 * n2,
        ),
    }
}

/// Truncating division of two plain integers (rounding toward zero), as a
/// function of mathematical integers.
pub open spec fn trunc_div(a: int, b: int) -> int
    recommends
        b != 0,
{
    let q = abs_int(a) / abs_int(b);
    if (a >= 0) == (b >= 0) {
        q
    } else {
        -q
    }
}

pub open spec fn abs_int(a: int) -> int {
    if a >= 0 {
        a
    } else {
        -a
    }
}

/// Division in the integral domain: like `div_rat_ext` on the special
/// variants, but a finite quotient truncates toward zero, and a quotient of
/// zero becomes a zero signed by the equality of the operand signs.
pub open spec fn div_int_ext(a: ExtVal, b: ExtVal) -> ExtVal {
    match (a, b) {
        (ExtVal::Fin { num: n1, .. }, ExtVal::Fin { num: n2, .. }) => {
            let q = trunc_div(n1, n2);
            if q == 0 {
                ExtVal::Zero { sign: (n1 >= 0) == (n2 >= 0) }
            } else {
                ExtVal::Fin { num: q, den: 1 }
            }
        },
        _ => div_rat_ext(a, b),
    }
}

/// Checked subtraction in the unsigned domain. `inf - inf` is NaN; the
/// result is absent exactly when the minuend is smaller: subtracting
/// anything nonzero from zero, a larger finite value from a smaller one, or
/// infinity from a finite value.
pub open spec fn checked_sub_ext(a: ExtVal, b: ExtVal) -> Option<ExtVal> {
    match (a, b) {
        (ExtVal::Inf { .. }, ExtVal::Inf { .. }) => Some(ExtVal::Nan),
        (ExtVal::Nan, _) => Some(ExtVal::Nan),
        (_, ExtVal::Nan) => Some(ExtVal::Nan),
        (ExtVal::Inf { sign }, _) => Some(ExtVal::Inf { sign }),
        (other, ExtVal::Zero { .. }) => Some(other),
        (ExtVal::Zero { .. }, _) => None,
        (_, ExtVal::Inf { .. }) => None,
        (ExtVal::Fin { num: n1, .. }, ExtVal::Fin { num: n2, .. }) => if n1 > n2 {
            Some(ExtVal::Fin { num: n1 - n2, den: 1 })
        } else if n1 == n2 {
            Some(ExtVal::Zero { sign: true })
        } else {
            None
        },
    }
}

/// Absolute value: signs of zero and infinity become positive; NaN is a
/// fixed point.
pub open spec fn abs_ext(a: ExtVal) -> ExtVal {
    match a {
        ExtVal::Nan => ExtVal::Nan,
        ExtVal::Zero { .. } => ExtVal::Zero { sign: true },
        ExtVal::Inf { .. } => ExtVal::Inf { sign: true },
        ExtVal::Fin { num, den } => ExtVal::Fin { num: abs_int(num), den },
    }
}

/// Reciprocal: swaps zero and infinity preserving sign; NaN is a fixed
/// point.
pub open spec fn recip_ext(a: ExtVal) -> ExtVal {
    match a {
        ExtVal::Nan => ExtVal::Nan,
        ExtVal::Zero { sign } => ExtVal::Inf { sign },
        ExtVal::Inf { sign } => ExtVal::Zero { sign },
        ExtVal::Fin { num, den } => fin_norm(den, num),
    }
}

/// Power with an unsigned exponent. Exponent 0 gives 1 on every base except
/// NaN, which stays NaN; a negative-signed zero or infinity raised to a
/// positive exponent takes the parity of the exponent as its sign.
pub open spec fn pow_u_ext(a: ExtVal, e: nat) -> ExtVal {
    match a {
        ExtVal::Nan => ExtVal::Nan,
        ExtVal::Zero { sign } => if e == 0 {
            ext_one()
        } else if sign {
            ExtVal::Zero { sign: true }
        } else {
            ExtVal::Zero { sign: e % 2 == 0 }
        },
        ExtVal::Inf { sign } => if e == 0 {
            ext_one()
        } else if sign {
            ExtVal::Inf { sign: true }
        } else {
            ExtVal::Inf { sign: e % 2 == 0 }
        },
        ExtVal::Fin { num, den } => ExtVal::Fin { num: pow(num, e), den: pow(den, e) },
    }
}

/// Power with a signed exponent: a negative exponent inverts the base first
/// (zero and infinity swap), with signs following the parity of the
/// exponent for negative-signed bases. Exponent 0 gives 1 on everything but
/// NaN.
pub open spec fn pow_i_ext(a: ExtVal, e: int) -> ExtVal {
    match a {
        ExtVal::Nan => ExtVal::Nan,
        ExtVal::Zero { sign } => if e == 0 {
            ext_one()
        } else {
            let s = if sign {
                true
            } else {
                e % 2 == 0
            };
            if e > 0 {
                ExtVal::Zero { sign: s }
            } else {
                ExtVal::Inf { sign: s }
            }
        },
        ExtVal::Inf { sign } => if e == 0 {
            ext_one()
        } else {
            let s = if sign {
                true
            } else {
                e % 2 == 0
            };
            if e > 0 {
                ExtVal::Inf { sign: s }
            } else {
                ExtVal::Zero { sign: s }
            }
        },
        ExtVal::Fin { num, den } => if e >= 0 {
            ExtVal::Fin { num: pow(num, e as nat), den: pow(den, e as nat) }
        } else {
            fin_norm(pow(den, (-e) as nat), pow(num, (-e) as nat))
        },
    }
}

/// The lax ordering: NaN is incomparable with everything, zeros compare
/// equal regardless of sign, and finite values compare exactly.
pub open spec fn cmp_lax_ext(a: ExtVal, b: ExtVal) -> Option<core::cmp::Ordering> {
    match (a, b) {
        (ExtVal::Nan, _) => None,
        (_, ExtVal::Nan) => None,
        (ExtVal::Inf { sign: s1 }, ExtVal::Inf { sign: s2 }) => if s1 == s2 {
            Some(core::cmp::Ordering::Equal)
        } else if s1 {
            Some(core::cmp::Ordering::Greater)
        } else {
            Some(core::cmp::Ordering::Less)
        },
        (ExtVal::Inf { sign }, _) => if sign {
            Some(core::cmp::Ordering::Greater)
        } else {
            Some(core::cmp::Ordering::Less)
        },
        (_, ExtVal::Inf { sign }) => if sign {
            Some(core::cmp::Ordering::Less)
        } else {
            Some(core::cmp::Ordering::Greater)
        },
        (ExtVal::Zero { .. }, ExtVal::Zero { .. }) => Some(core::cmp::Ordering::Equal),
        (ExtVal::Zero { .. }, ExtVal::Fin { num, .. }) => if num > 0 {
            Some(core::cmp::Ordering::Less)
        } else if num == 0 {
            Some(core::cmp::Ordering::Equal)
        } else {
            Some(core::cmp::Ordering::Greater)
        },
        (ExtVal::Fin { num, .. }, ExtVal::Zero { .. }) => if num > 0 {
            Some(core::cmp::Ordering::Greater)
        } else if num == 0 {
            Some(core::cmp::Ordering::Equal)
        } else {
            Some(core::cmp::Ordering::Less)
        },
        (ExtVal::Fin { num: n1, den: d1 }, ExtVal::Fin { num: n2, den: d2 }) => if n1 * d2 < n2
            * d1 {
            Some(core::cmp::Ordering::Less)
        } else if n1 * d2 == n2 * d1 {
            Some(core::cmp::Ordering::Equal)
        } else {
            Some(core::cmp::Ordering::Greater)
        },
    }
}

/// The strict ordering: like the lax one, but opposite-signed zeros are
/// ordered with negative zero below positive zero.
pub open spec fn cmp_strict_ext(a: ExtVal, b: ExtVal) -> Option<core::cmp::Ordering> {
    match (a, b) {
        (ExtVal::Zero { sign: s1 }, ExtVal::Zero { sign: s2 }) => if s1 == s2 {
            Some(core::cmp::Ordering::Equal)
        } else if s1 {
            Some(core::cmp::Ordering::Greater)
        } else {
            Some(core::cmp::Ordering::Less)
        },
        _ => cmp_lax_ext(a, b),
    }
}

/// A power of a nonzero base is nonzero.
pub proof fn lemma_pow_nonzero(b: int, e: nat)
    requires
        b != 0,
    ensures
        pow(b, e) != 0,
    decreases e,
{
    reveal(vstd::arithmetic::power::pow);
    if e > 0 {
        lemma_pow_nonzero(b, (e - 1) as nat);
        assert(pow(b, e) == b * pow(b, (e - 1) as nat));
        assert(b * pow(b, (e - 1) as nat) != 0) by (nonlinear_arith)
            requires
                b != 0,
                pow(b, (e - 1) as nat) != 0,
        ;
    }
}

/// Structural sameness is transitive on well-formed values.
pub proof fn lemma_same_val_trans(a: ExtVal, b: ExtVal, c: ExtVal)
    requires
        same_val(a, b),
        same_val(b, c),
        a.wf(),
        b.wf(),
        c.wf(),
    ensures
        same_val(a, c),
{
    if a is Fin && b is Fin && c is Fin {
        match (a, b, c) {
            (
                ExtVal::Fin { num: n1, den: d1 },
                ExtVal::Fin { num: n2, den: d2 },
                ExtVal::Fin { num: n3, den: d3 },
            ) => {
                assert(n1 * d3 == n3 * d1) by (nonlinear_arith)
                    requires
                        n1 * d2 == n2 * d1,
                        n2 * d3 == n3 * d2,
                        d1 >= 1,
                        d2 >= 1,
                        d3 >= 1,
                ;
            },
            _ => {},
        }
    }
}

/// Adding a well-formed value to well-formed operands yields a well-formed
/// value.
pub proof fn lemma_add_ext_wf(a: ExtVal, b: ExtVal)
    requires
        a.wf(),
        b.wf(),
    ensures
        add_ext(a, b).wf(),
{
    match (a, b) {
        (ExtVal::Fin { num: n1, den: d1 }, ExtVal::Fin { num: n2, den: d2 }) => {
            assert(d1 * d2 >= 1) by (nonlinear_arith)
                requires
                    d1 >= 1,
                    d2 >= 1,
            ;
        },
        _ => {},
    }
}

/// Multiplying well-formed operands yields a well-formed value.
pub proof fn lemma_mul_ext_wf(a: ExtVal, b: ExtVal)
    requires
        a.wf(),
        b.wf(),
    ensures
        mul_ext(a, b).wf(),
{
    match (a, b) {
        (ExtVal::Fin { num: n1, den: d1 }, ExtVal::Fin { num: n2, den: d2 }) => {
            assert(d1 * d2 >= 1 && n1 * n2 != 0) by (nonlinear_arith)
                requires
                    d1 >= 1,
                    d2 >= 1,
                    n1 != 0,
                    n2 != 0,
            ;
        },
        _ => {},
    }
}

/// Replacing the left operand of an addition by a structurally same value
/// gives a structurally same sum.
pub proof fn lemma_add_congruence(a: ExtVal, b: ExtVal, c: ExtVal)
    requires
        same_val(a, b),
        a.wf(),
        b.wf(),
        c.wf(),
    ensures
        same_val(add_ext(a, c), add_ext(b, c)),
{
    if a is Fin {
        match (a, b, c) {
            (
                ExtVal::Fin { num: n1, den: d1 },
                ExtVal::Fin { num: n2, den: d2 },
                ExtVal::Fin { num: n3, den: d3 },
            ) => {
                let sa = n1 * d3 + n3 * d1;
                let sb = n2 * d3 + n3 * d2;
                assert(sa * d2 == d1 * sb) by (nonlinear_arith)
                    requires
                        n1 * d2 == n2 * d1,
                        sa == n1 * d3 + n3 * d1,
                        sb == n2 * d3 + n3 * d2,
                ;
                assert((sa == 0) == (sb == 0)) by (nonlinear_arith)
                    requires
                        sa * d2 == d1 * sb,
                        d1 >= 1,
                        d2 >= 1,
                ;
                assert(sa * (d2 * d3) == sb * (d1 * d3)) by (nonlinear_arith)
                    requires
                        sa * d2 == d1 * sb,
                ;
            },
            _ => {},
        }
    } else {
        assert(a == b);
    }
}

/// Replacing the left operand of a multiplication by a structurally same
/// value gives a structurally same product.
pub proof fn lemma_mul_congruence(a: ExtVal, b: ExtVal, c: ExtVal)
    requires
        same_val(a, b),
        a.wf(),
        b.wf(),
        c.wf(),
    ensures
        same_val(mul_ext(a, c), mul_ext(b, c)),
{
    if a is Fin {
        match (a, b) {
            (ExtVal::Fin { num: n1, den: d1 }, ExtVal::Fin { num: n2, den: d2 }) => {
                assert((n1 >= 0) == (n2 >= 0)) by (nonlinear_arith)
                    requires
                        n1 * d2 == n2 * d1,
                        d1 >= 1,
                        d2 >= 1,
                        n1 != 0,
                        n2 != 0,
                ;
                match c {
                    ExtVal::Fin { num: n3, den: d3 } => {
                        assert((n1 * n3) * (d2 * d3) == (n2 * n3) * (d1 * d3))
                            by (nonlinear_arith)
                            requires
                                n1 * d2 == n2 * d1,
                        ;
                    },
                    _ => {},
                }
            },
            _ => {},
        }
    } else {
        assert(a == b);
    }
}

/// The value of an n-ary sum: elements folded into `add_ext` left to
/// right, starting from positive zero (so an empty sum is positive zero).
pub open spec fn fold_add_ext(s: Seq<ExtVal>) -> ExtVal
    decreases s.len(),
{
    if s.len() == 0 {
        ExtVal::Zero { sign: true }
    } else {
        add_ext(fold_add_ext(s.drop_last()), s.last())
    }
}

/// The value of an n-ary product: elements folded into `mul_ext` left to
/// right, starting from one (so an empty product is one).
pub open spec fn fold_mul_ext(s: Seq<ExtVal>) -> ExtVal
    decreases s.len(),
{
    if s.len() == 0 {
        ext_one()
    } else {
        mul_ext(fold_mul_ext(s.drop_last()), s.last())
    }
}

/// Whether every element of a sequence is finite (a zero or a fraction).
pub open spec fn all_finite(s: Seq<ExtVal>) -> bool {
    forall|i: int| 0 <= i < s.len() ==> ((#[trigger] s[i]) is Zero || s[i] is Fin)
}

/// The numerator a finite value contributes to an exact sum.
pub open spec fn val_num(v: ExtVal) -> int {
    match v {
        ExtVal::Fin { num, .. } => num,
        _ => 0,
    }
}

/// The denominator a finite value contributes to an exact sum.
pub open spec fn val_den(v: ExtVal) -> int {
    match v {
        ExtVal::Fin { den, .. } => den,
        _ => 1,
    }
}

/// The numerator of the exact (cross-multiplied, unreduced) sum of a
/// sequence of finite values.
pub open spec fn sum_num(s: Seq<ExtVal>) -> int
    decreases s.len(),
{
    if s.len() == 0 {
        0
    } else {
        sum_num(s.drop_last()) * val_den(s.last()) + val_num(s.last()) * sum_den(s.drop_last())
    }
}

/// The denominator of the exact sum of a sequence of finite values.
pub open spec fn sum_den(s: Seq<ExtVal>) -> int
    decreases s.len(),
{
    if s.len() == 0 {
        1
    } else {
        sum_den(s.drop_last()) * val_den(s.last())
    }
}

/// Summing finite values is exact: the fold stays finite and its value is
/// the mathematical sum of the elements' fractions, independent of any
/// grouping (the sum here is the cross-multiplied fold, whose value does
/// not depend on association).
pub proof fn lemma_fold_add_exact(s: Seq<ExtVal>)
    requires
        all_finite(s),
        forall|i: int| 0 <= i < s.len() ==> (#[trigger] s[i]).wf(),
    ensures
        fold_add_ext(s) is Zero || fold_add_ext(s) is Fin,
        fold_add_ext(s).wf(),
        sum_den(s) >= 1,
        val_den(fold_add_ext(s)) >= 1,
        val_num(fold_add_ext(s)) * sum_den(s) == sum_num(s) * val_den(fold_add_ext(s)),
    decreases s.len(),
{
    if s.len() > 0 {
        let prev = s.drop_last();
        let x = s.last();
        assert(all_finite(prev) && forall|i: int|
            0 <= i < prev.len() ==> (#[trigger] prev[i]).wf()) by {
            assert(forall|i: int| 0 <= i < prev.len() ==> prev[i] == s[i]);
        }
        lemma_fold_add_exact(prev);
        let fp = fold_add_ext(prev);
        let an = val_num(fp);
        let ad = val_den(fp);
        let bn = val_num(x);
        let bd = val_den(x);
        let pn = sum_num(prev);
        let pd = sum_den(prev);
        assert(sum_den(s) == pd * bd && sum_den(s) >= 1) by (nonlinear_arith)
            requires
                sum_den(s) == pd * val_den(x),
                bd == val_den(x),
                pd >= 1,
                bd >= 1,
        ;
        match (fp, x) {
            (ExtVal::Zero { .. }, ExtVal::Zero { .. }) => {
                assert(pn == 0) by (nonlinear_arith)
                    requires
                        an * pd == pn * ad,
                        an == 0,
                        ad == 1,
                ;
                assert(sum_num(s) == 0) by (nonlinear_arith)
                    requires
                        sum_num(s) == pn * bd + bn * pd,
                        pn == 0,
                        bn == 0,
                ;
            },
            (ExtVal::Zero { .. }, ExtVal::Fin { .. }) => {
                assert(pn == 0) by (nonlinear_arith)
                    requires
                        an * pd == pn * ad,
                        an == 0,
                        ad == 1,
                ;
                assert(bn * (pd * bd) == (pn * bd + bn * pd) * bd) by (nonlinear_arith)
                    requires
                        pn == 0,
                ;
            },
            (ExtVal::Fin { .. }, ExtVal::Zero { .. }) => {
                assert(an * (pd * bd) == (pn * bd + bn * pd) * ad) by (nonlinear_arith)
                    requires
                        an * pd == pn * ad,
                        bn == 0,
                        bd == 1,
                ;
            },
            (ExtVal::Fin { .. }, ExtVal::Fin { .. }) => {
                let n = an * bd + bn * ad;
                if n == 0 {
                    assert(sum_num(s) * ad == 0) by (nonlinear_arith)
                        requires
                            sum_num(s) == pn * bd + bn * pd,
                            an * pd == pn * ad,
                            an * bd + bn * ad == 0,
                    ;
                    assert(sum_num(s) == 0) by (nonlinear_arith)
                        requires
                            sum_num(s) * ad == 0,
                            ad >= 1,
                    ;
                } else {
                    assert(n * pd == (pn * bd + bn * pd) * ad) by (nonlinear_arith)
                        requires
                            n == an * bd + bn * ad,
                            an * pd == pn * ad,
                    ;
                    assert(n * (pd * bd) == (pn * bd + bn * pd) * (ad * bd)) by (nonlinear_arith)
                        requires
                            n * pd == (pn * bd + bn * pd) * ad,
                    ;
                    assert(ad * bd >= 1) by (nonlinear_arith)
                        requires
                            ad >= 1,
                            bd >= 1,
                    ;
                }
            },
            _ => {},
        }
    }
}

/// A NaN anywhere in a sequence makes its whole sum NaN.
pub proof fn lemma_fold_add_nan(s: Seq<ExtVal>, j: int)
    requires
        0 <= j < s.len(),
        s[j] is Nan,
    ensures
        fold_add_ext(s) is Nan,
    decreases s.len(),
{
    if j == s.len() - 1 {
        assert(s.last() is Nan);
    } else {
        assert(s.drop_last()[j] == s[j]);
        lemma_fold_add_nan(s.drop_last(), j);
    }
}

/// A NaN anywhere in a sequence makes its whole product NaN.
pub proof fn lemma_fold_mul_nan(s: Seq<ExtVal>, j: int)
    requires
        0 <= j < s.len(),
        s[j] is Nan,
    ensures
        fold_mul_ext(s) is Nan,
    decreases s.len(),
{
    if j == s.len() - 1 {
        assert(s.last() is Nan);
    } else {
        assert(s.drop_last()[j] == s[j]);
        lemma_fold_mul_nan(s.drop_last(), j);
    }
}

/// The lax sign: zero and NaN are "equal" (to zero), infinities and finite
/// values report their sign.
pub open spec fn sign_ext(a: ExtVal) -> core::cmp::Ordering {
    match a {
        ExtVal::Nan => core::cmp::Ordering::Equal,
        ExtVal::Zero { .. } => core::cmp::Ordering::Equal,
        ExtVal::Inf { sign } => if sign {
            core::cmp::Ordering::Greater
        } else {
            core::cmp::Ordering::Less
        },
        ExtVal::Fin { num, .. } => if num > 0 {
            core::cmp::Ordering::Greater
        } else if num == 0 {
            core::cmp::Ordering::Equal
        } else {
            core::cmp::Ordering::Less
        },
    }
}

/// The strict sign: like the lax one, but signed zeros report their sign
/// bit.
pub open spec fn sign_strict_ext(a: ExtVal) -> core::cmp::Ordering {
    match a {
        ExtVal::Zero { sign } => if sign {
            core::cmp::Ordering::Greater
        } else {
            core::cmp::Ordering::Less
        },
        _ => sign_ext(a),
    }
}

} // verus!
