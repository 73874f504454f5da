//! Extended rationals: exact arbitrary-precision fractions augmented with
//! signed zero, signed infinity and NaN.

use vstd::prelude::*;

use crate::bignum::{
    int_from_i64, int_of, nat_eq, nat_from_u64, nat_of, no_closer_frac, rat_abs, rat_add,
    rat_approx, rat_canon, rat_clone, rat_cmp, rat_den, rat_div, rat_eq, rat_from_integer,
    rat_from_natural, rat_from_sign_and_naturals, rat_mul, rat_neg, rat_num, rat_pow_u64,
    rat_reciprocal, rat_sign, rat_sub, rat_to_denominator, rat_to_numerator,
};
use crate::ext::{
    abs_ext, abs_int, add_ext, cmp_lax_ext, div_rat_ext, eq_ext, ext_from_int, fold_add_ext,
    fold_mul_ext, lemma_fold_add_nan, lemma_fold_mul_nan, lemma_pow_nonzero, mul_ext, neg_ext,
    pow_i_ext, pow_u_ext, recip_ext, same_val, sign_ext, sub_ext, ExtVal,
};
use crate::int_ext::MpzExt;
use crate::nat_ext::MpnExt;
use crate::NumError;
use malachite::Integer;
use malachite::Natural;
use malachite::Rational;

verus! {

/// An exact arbitrary-precision fraction extended with signed zero, signed
/// infinity and NaN. The `Rational` payload is never zero: zero is always
/// a `Zero` variant carrying its sign (true means non-negative).
#[derive(Debug)]
pub enum MpqExt {
    Zero(bool),
    Inf(bool),
    NaN,
    Rational(Rational),
}

impl View for MpqExt {
    type V = ExtVal;

    open spec fn view(&self) -> ExtVal {
        match self {
            MpqExt::NaN => ExtVal::Nan,
            MpqExt::Zero(s) => ExtVal::Zero { sign: *s },
            MpqExt::Inf(s) => ExtVal::Inf { sign: *s },
            MpqExt::Rational(q) => ExtVal::Fin { num: rat_num(*q), den: rat_den(*q) },
        }
    }
}

/// Two equal cross-products transfer being zero from one numerator to the
/// other when both denominators are positive.
proof fn lemma_cross_zero(a: int, b: int, c: int, d: int)
    requires
        a * b == c * d,
        b >= 1,
        d >= 1,
    ensures
        (a == 0) == (c == 0),
{
    assert((a == 0) == (c == 0)) by (nonlinear_arith)
        requires
            a * b == c * d,
            b >= 1,
            d >= 1,
    ;
}

/// Chains a stored fraction equation through a reciprocal: if `p` holds
/// `N/D` and `r` holds the reciprocal of `p`, then `r` holds `D/N`.
proof fn lemma_recip_chain(pn: int, pd: int, rn: int, rd: int, big_n: int, big_d: int)
    requires
        pn * big_d == big_n * pd,
        rn * pn == pd * rd,
        pn != 0,
    ensures
        rn * big_n == big_d * rd,
{
    assert(rn * big_n == big_d * rd) by (nonlinear_arith)
        requires
            pn * big_d == big_n * pd,
            rn * pn == pd * rd,
            pn != 0,
    ;
}

impl MpqExt {
    /// The representation invariant: a well-formed extended value whose
    /// `Rational` payload is nonzero and stored in lowest terms with a
    /// positive denominator.
    pub open spec fn wf(self) -> bool {
        &&& self@.wf()
        &&& match self {
            MpqExt::Rational(q) => rat_canon(rat_num(q), rat_den(q)) && rat_num(q) != 0,
            _ => true,
        }
    }

    /// The extended rational denoted by a machine integer.
    pub fn from_i64(v: i64) -> (r: Self)
        ensures
            r.wf(),
            r@ == ext_from_int(v as int),
    {
        if v == 0 {
            MpqExt::Zero(true)
        } else {
            proof {
                crate::bignum::lemma_gcd_one(abs_int(v as int) as nat);
            }
            MpqExt::Rational(rat_from_integer(&int_from_i64(v)))
        }
    }

    /// The extended rational denoted by an unsigned machine integer.
    pub fn from_u64(v: u64) -> (r: Self)
        ensures
            r.wf(),
            r@ == ext_from_int(v as int),
    {
        if v == 0 {
            MpqExt::Zero(true)
        } else {
            proof {
                crate::bignum::lemma_gcd_one(v as nat);
            }
            MpqExt::Rational(rat_from_integer(&crate::bignum::int_from_u64(v)))
        }
    }

    /// The extended rational denoted by a 128-bit machine integer.
    pub fn from_i128(v: i128) -> (r: Self)
        ensures
            r.wf(),
            r@ == ext_from_int(v as int),
    {
        if v == 0 {
            MpqExt::Zero(true)
        } else {
            proof {
                crate::bignum::lemma_gcd_one(abs_int(v as int) as nat);
            }
            MpqExt::Rational(rat_from_integer(&crate::bignum::int_from_i128(v)))
        }
    }

    /// Lossless widening of an extended integer.
    pub fn from_mpz(z: MpzExt) -> (r: Self)
        requires
            z.wf(),
        ensures
            r.wf(),
            r@ == z@,
    {
        match z {
            MpzExt::NaN => MpqExt::NaN,
            MpzExt::Zero(s) => MpqExt::Zero(s),
            MpzExt::Inf(s) => MpqExt::Inf(s),
            MpzExt::Integer(n) => {
                proof {
                    crate::bignum::lemma_gcd_one(abs_int(int_of(n)) as nat);
                }
                MpqExt::Rational(rat_from_integer(&n))
            },
        }
    }

    /// Lossless widening of an extended natural.
    pub fn from_mpn(n: MpnExt) -> (r: Self)
        requires
            n.wf(),
        ensures
            r.wf(),
            r@ == n@,
    {
        match n {
            MpnExt::NaN => MpqExt::NaN,
            MpnExt::Zero => MpqExt::Zero(true),
            MpnExt::Inf => MpqExt::Inf(true),
            MpnExt::Integer(m) => {
                proof {
                    crate::bignum::lemma_gcd_one(nat_of(m));
                }
                MpqExt::Rational(rat_from_natural(&m))
            },
        }
    }

    /// Builds the normalized extended rational `±n/d` from two naturals
    /// and a sign: `0/0` is NaN, `0/d` a signed zero, `n/0` a signed
    /// infinity, anything else an exact fraction.
    pub fn from_sign_and_naturals(sign: bool, n: Natural, d: Natural) -> (r: Self)
        ensures
            r.wf(),
            same_val(
                r@,
                if nat_of(n) == 0 && nat_of(d) == 0 {
                    ExtVal::Nan
                } else if nat_of(n) == 0 {
                    ExtVal::Zero { sign }
                } else if nat_of(d) == 0 {
                    ExtVal::Inf { sign }
                } else {
                    ExtVal::Fin {
                        num: if sign {
                            nat_of(n) as int
                        } else {
                            -(nat_of(n) as int)
                        },
                        den: nat_of(d) as int,
                    }
                },
            ),
    {
        let zero = nat_from_u64(0);
        let n_zero = nat_eq(&n, &zero);
        let d_zero = nat_eq(&d, &zero);
        if n_zero && d_zero {
            MpqExt::NaN
        } else if n_zero {
            MpqExt::Zero(sign)
        } else if d_zero {
            MpqExt::Inf(sign)
        } else {
            MpqExt::Rational(rat_from_sign_and_naturals(sign, &n, &d))
        }
    }

    /// Builds the normalized extended rational `n/d` from two integers:
    /// `0/0` is NaN, `0/d` a zero and `n/0` an infinity signed by the
    /// nonzero operand, anything else an exact fraction.
    pub fn from_integers(n: Integer, d: Integer) -> (r: Self)
        ensures
            r.wf(),
            same_val(
                r@,
                if int_of(n) == 0 && int_of(d) == 0 {
                    ExtVal::Nan
                } else if int_of(n) == 0 {
                    ExtVal::Zero { sign: int_of(d) > 0 }
                } else if int_of(d) == 0 {
                    ExtVal::Inf { sign: int_of(n) > 0 }
                } else {
                    ExtVal::Fin { num: int_of(n), den: int_of(d) }
                },
            ),
    {
        let zero = int_from_i64(0);
        let n_zero = crate::bignum::int_eq(&n, &zero);
        let d_zero = crate::bignum::int_eq(&d, &zero);
        if n_zero && d_zero {
            MpqExt::NaN
        } else if n_zero {
            MpqExt::Zero(
                matches!(crate::bignum::int_sign(&d), core::cmp::Ordering::Greater),
            )
        } else if d_zero {
            MpqExt::Inf(
                matches!(crate::bignum::int_sign(&n), core::cmp::Ordering::Greater),
            )
        } else {
            MpqExt::Rational(crate::bignum::rat_from_integers(&n, &d))
        }
    }

    /// Builds an extended rational as the exact quotient of two extended
    /// integers, with the indeterminate forms `0/0`, `inf/inf` (and any
    /// NaN operand) giving NaN.
    pub fn from_extended_integers(n: MpzExt, d: MpzExt) -> (r: Self)
        requires
            n.wf(),
            d.wf(),
        ensures
            r.wf(),
            same_val(r@, div_rat_ext(n@, d@)),
    {
        match (n, d) {
            (MpzExt::NaN, _) => MpqExt::NaN,
            (_, MpzExt::NaN) => MpqExt::NaN,
            (MpzExt::Zero(_), MpzExt::Zero(_)) => MpqExt::NaN,
            (MpzExt::Inf(_), MpzExt::Inf(_)) => MpqExt::NaN,
            (MpzExt::Zero(s1), MpzExt::Inf(s2)) => MpqExt::Zero(s1 == s2),
            (MpzExt::Inf(s1), MpzExt::Zero(s2)) => MpqExt::Inf(s1 == s2),
            (MpzExt::Zero(s1), MpzExt::Integer(m)) => {
                let pos = matches!(crate::bignum::int_sign(&m), core::cmp::Ordering::Greater);
                MpqExt::Zero(s1 == pos)
            },
            (MpzExt::Integer(m), MpzExt::Inf(s1)) => {
                let pos = matches!(crate::bignum::int_sign(&m), core::cmp::Ordering::Greater);
                MpqExt::Zero(s1 == pos)
            },
            (MpzExt::Integer(m), MpzExt::Zero(s1)) => {
                let pos = matches!(crate::bignum::int_sign(&m), core::cmp::Ordering::Greater);
                MpqExt::Inf(s1 == pos)
            },
            (MpzExt::Inf(s1), MpzExt::Integer(m)) => {
                let pos = matches!(crate::bignum::int_sign(&m), core::cmp::Ordering::Greater);
                MpqExt::Inf(s1 == pos)
            },
            (MpzExt::Integer(m), MpzExt::Integer(n2)) => {
                let q = crate::bignum::rat_from_integers(&m, &n2);
                proof {
                    let a = int_of(m);
                    let b = int_of(n2);
                    if b < 0 {
                        assert(rat_num(q) * (-(1 * b)) == (-(a * 1)) * rat_den(q))
                            by (nonlinear_arith)
                            requires
                                rat_num(q) * b == a * rat_den(q),
                        ;
                    } else {
                        assert(rat_num(q) * (1 * b) == (a * 1) * rat_den(q)) by (nonlinear_arith)
                            requires
                                rat_num(q) * b == a * rat_den(q),
                        ;
                    }
                }
                MpqExt::Rational(q)
            },
        }
    }

    /// Negation: flips the sign of zero, infinity and finite values; NaN
    /// is a fixed point.
    pub fn neg(self) -> (r: Self)
        requires
            self.wf(),
        ensures
            r.wf(),
            r@ == neg_ext(self@),
    {
        match self {
            MpqExt::NaN => MpqExt::NaN,
            MpqExt::Zero(s) => MpqExt::Zero(!s),
            MpqExt::Inf(s) => MpqExt::Inf(!s),
            MpqExt::Rational(q) => MpqExt::Rational(rat_neg(&q)),
        }
    }

    /// Absolute value: signs become positive; NaN is a fixed point.
    pub fn abs(self) -> (r: Self)
        requires
            self.wf(),
        ensures
            r.wf(),
            r@ == abs_ext(self@),
    {
        match self {
            MpqExt::NaN => MpqExt::NaN,
            MpqExt::Zero(_) => MpqExt::Zero(true),
            MpqExt::Inf(_) => MpqExt::Inf(true),
            MpqExt::Rational(q) => MpqExt::Rational(rat_abs(&q)),
        }
    }

    /// Reciprocal: swaps zero and infinity preserving sign; finite values
    /// invert exactly; NaN is a fixed point.
    pub fn reciprocal(self) -> (r: Self)
        requires
            self.wf(),
        ensures
            r.wf(),
            same_val(r@, recip_ext(self@)),
    {
        match self {
            MpqExt::NaN => MpqExt::NaN,
            MpqExt::Zero(s) => MpqExt::Inf(s),
            MpqExt::Inf(s) => MpqExt::Zero(s),
            MpqExt::Rational(q) => {
                let r = rat_reciprocal(&q);
                proof {
                    assert(rat_num(r) != 0) by (nonlinear_arith)
                        requires
                            rat_num(r) * rat_num(q) == rat_den(q) * rat_den(r),
                            rat_den(q) >= 1,
                            rat_den(r) >= 1,
                    ;
                    if rat_num(q) < 0 {
                        assert(rat_num(r) * (-rat_num(q)) == (-rat_den(q)) * rat_den(r))
                            by (nonlinear_arith)
                            requires
                                rat_num(r) * rat_num(q) == rat_den(q) * rat_den(r),
                        ;
                    }
                }
                MpqExt::Rational(r)
            },
        }
    }

    /// Addition: opposite-signed infinities give NaN; signed zeros
    /// combine by disjunction of sign bits; a finite sum that cancels
    /// collapses to positive zero.
    pub fn add(self, rhs: Self) -> (r: Self)
        requires
            self.wf(),
            rhs.wf(),
        ensures
            r.wf(),
            same_val(r@, add_ext(self@, rhs@)),
    {
        match (self, rhs) {
            (MpqExt::NaN, _) => MpqExt::NaN,
            (_, MpqExt::NaN) => MpqExt::NaN,
            (MpqExt::Inf(s1), MpqExt::Inf(s2)) => if s1 == s2 {
                MpqExt::Inf(s1)
            } else {
                MpqExt::NaN
            },
            (MpqExt::Zero(s1), MpqExt::Zero(s2)) => MpqExt::Zero(s1 || s2),
            (MpqExt::Zero(_), b) => b,
            (a, MpqExt::Zero(_)) => a,
            (MpqExt::Inf(s), _) => MpqExt::Inf(s),
            (_, MpqExt::Inf(s)) => MpqExt::Inf(s),
            (MpqExt::Rational(q1), MpqExt::Rational(q2)) => {
                let s = rat_add(&q1, &q2);
                let ghost big_n = rat_num(q1) * rat_den(q2) + rat_num(q2) * rat_den(q1);
                let ghost big_d = rat_den(q1) * rat_den(q2);
                proof {
                    assert(big_d >= 1) by (nonlinear_arith)
                        requires
                            big_d == rat_den(q1) * rat_den(q2),
                            rat_den(q1) >= 1,
                            rat_den(q2) >= 1,
                    ;
                    lemma_cross_zero(rat_num(s), big_d, big_n, rat_den(s));
                }
                if matches!(rat_sign(&s), core::cmp::Ordering::Equal) {
                    MpqExt::Zero(true)
                } else {
                    MpqExt::Rational(s)
                }
            },
        }
    }

    /// Subtraction: same-signed infinities give NaN; `Zero(s1) - Zero(s2)`
    /// is `Zero(s1 || !s2)`; a finite difference that cancels collapses
    /// to positive zero.
    pub fn sub(self, rhs: Self) -> (r: Self)
        requires
            self.wf(),
            rhs.wf(),
        ensures
            r.wf(),
            same_val(r@, sub_ext(self@, rhs@)),
    {
        match (self, rhs) {
            (MpqExt::NaN, _) => MpqExt::NaN,
            (_, MpqExt::NaN) => MpqExt::NaN,
            (MpqExt::Inf(s1), MpqExt::Inf(s2)) => if s1 == s2 {
                MpqExt::NaN
            } else {
                MpqExt::Inf(s1)
            },
            (MpqExt::Zero(s1), MpqExt::Zero(s2)) => MpqExt::Zero(s1 || !s2),
            (a, MpqExt::Zero(_)) => a,
            (MpqExt::Zero(_), b) => b.neg(),
            (MpqExt::Inf(s), _) => MpqExt::Inf(s),
            (_, MpqExt::Inf(s)) => MpqExt::Inf(!s),
            (MpqExt::Rational(q1), MpqExt::Rational(q2)) => {
                let s = rat_sub(&q1, &q2);
                let ghost big_n = rat_num(q1) * rat_den(q2) - rat_num(q2) * rat_den(q1);
                let ghost big_d = rat_den(q1) * rat_den(q2);
                proof {
                    assert(big_d >= 1) by (nonlinear_arith)
                        requires
                            big_d == rat_den(q1) * rat_den(q2),
                            rat_den(q1) >= 1,
                            rat_den(q2) >= 1,
                    ;
                    lemma_cross_zero(rat_num(s), big_d, big_n, rat_den(s));
                }
                if matches!(rat_sign(&s), core::cmp::Ordering::Equal) {
                    MpqExt::Zero(true)
                } else {
                    MpqExt::Rational(s)
                }
            },
        }
    }

    /// Multiplication: `0 * inf` is NaN; the sign of a zero or infinity
    /// result is the equality (XNOR) of the operand signs; finite values
    /// multiply exactly.
    pub fn mul(self, rhs: Self) -> (r: Self)
        requires
            self.wf(),
            rhs.wf(),
        ensures
            r.wf(),
            same_val(r@, mul_ext(self@, rhs@)),
    {
        match (self, rhs) {
            (MpqExt::NaN, _) => MpqExt::NaN,
            (_, MpqExt::NaN) => MpqExt::NaN,
            (MpqExt::Zero(_), MpqExt::Inf(_)) => MpqExt::NaN,
            (MpqExt::Inf(_), MpqExt::Zero(_)) => MpqExt::NaN,
            (MpqExt::Zero(s1), MpqExt::Zero(s2)) => MpqExt::Zero(s1 == s2),
            (MpqExt::Zero(s1), MpqExt::Rational(q)) => {
                let pos = matches!(rat_sign(&q), core::cmp::Ordering::Greater);
                MpqExt::Zero(s1 == pos)
            },
            (MpqExt::Rational(q), MpqExt::Zero(s1)) => {
                let pos = matches!(rat_sign(&q), core::cmp::Ordering::Greater);
                MpqExt::Zero(s1 == pos)
            },
            (MpqExt::Inf(s1), MpqExt::Inf(s2)) => MpqExt::Inf(s1 == s2),
            (MpqExt::Inf(s1), MpqExt::Rational(q)) => {
                let pos = matches!(rat_sign(&q), core::cmp::Ordering::Greater);
                MpqExt::Inf(s1 == pos)
            },
            (MpqExt::Rational(q), MpqExt::Inf(s1)) => {
                let pos = matches!(rat_sign(&q), core::cmp::Ordering::Greater);
                MpqExt::Inf(s1 == pos)
            },
            (MpqExt::Rational(q1), MpqExt::Rational(q2)) => {
                let s = rat_mul(&q1, &q2);
                let ghost big_n = rat_num(q1) * rat_num(q2);
                let ghost big_d = rat_den(q1) * rat_den(q2);
                proof {
                    assert(big_d >= 1 && big_n != 0) by (nonlinear_arith)
                        requires
                            big_d == rat_den(q1) * rat_den(q2),
                            big_n == rat_num(q1) * rat_num(q2),
                            rat_den(q1) >= 1,
                            rat_den(q2) >= 1,
                            rat_num(q1) != 0,
                            rat_num(q2) != 0,
                    ;
                    lemma_cross_zero(rat_num(s), big_d, big_n, rat_den(s));
                }
                MpqExt::Rational(s)
            },
        }
    }

    /// Division: `0/0` and `inf/inf` are NaN; the sign of a zero or
    /// infinity result is the equality of the operand signs; finite
    /// quotients are exact.
    pub fn div(self, rhs: Self) -> (r: Self)
        requires
            self.wf(),
            rhs.wf(),
        ensures
            r.wf(),
            same_val(r@, div_rat_ext(self@, rhs@)),
    {
        match (self, rhs) {
            (MpqExt::NaN, _) => MpqExt::NaN,
            (_, MpqExt::NaN) => MpqExt::NaN,
            (MpqExt::Zero(_), MpqExt::Zero(_)) => MpqExt::NaN,
            (MpqExt::Inf(_), MpqExt::Inf(_)) => MpqExt::NaN,
            (MpqExt::Zero(s1), MpqExt::Inf(s2)) => MpqExt::Zero(s1 == s2),
            (MpqExt::Inf(s1), MpqExt::Zero(s2)) => MpqExt::Inf(s1 == s2),
            (MpqExt::Zero(s1), MpqExt::Rational(q)) => {
                let pos = matches!(rat_sign(&q), core::cmp::Ordering::Greater);
                MpqExt::Zero(s1 == pos)
            },
            (MpqExt::Rational(q), MpqExt::Zero(s1)) => {
                let pos = matches!(rat_sign(&q), core::cmp::Ordering::Greater);
                MpqExt::Inf(s1 == pos)
            },
            (MpqExt::Inf(s1), MpqExt::Rational(q)) => {
                let pos = matches!(rat_sign(&q), core::cmp::Ordering::Greater);
                MpqExt::Inf(s1 == pos)
            },
            (MpqExt::Rational(q), MpqExt::Inf(s1)) => {
                let pos = matches!(rat_sign(&q), core::cmp::Ordering::Greater);
                MpqExt::Zero(s1 == pos)
            },
            (MpqExt::Rational(q1), MpqExt::Rational(q2)) => {
                let s = rat_div(&q1, &q2);
                let ghost big_n = rat_num(q1) * rat_den(q2);
                let ghost big_d = rat_den(q1) * rat_num(q2);
                proof {
                    assert(big_n != 0 && big_d != 0) by (nonlinear_arith)
                        requires
                            big_n == rat_num(q1) * rat_den(q2),
                            big_d == rat_den(q1) * rat_num(q2),
                            rat_den(q1) >= 1,
                            rat_den(q2) >= 1,
                            rat_num(q1) != 0,
                            rat_num(q2) != 0,
                    ;
                    assert(rat_num(s) != 0) by (nonlinear_arith)
                        requires
                            rat_num(s) * big_d == big_n * rat_den(s),
                            big_n != 0,
                            big_d != 0,
                            rat_den(s) >= 1,
                    ;
                    if big_d < 0 {
                        assert(rat_num(s) * (-big_d) == (-big_n) * rat_den(s)) by (nonlinear_arith)
                            requires
                                rat_num(s) * big_d == big_n * rat_den(s),
                        ;
                    }
                }
                MpqExt::Rational(s)
            },
        }
    }

    /// Power with an unsigned exponent: exponent 0 gives 1 on zero and
    /// infinity (but NaN stays NaN); a negative-signed zero or infinity
    /// takes the parity of the exponent as its sign; finite values take
    /// the exact power.
    pub fn pow_u(self, exp: u64) -> (r: Self)
        requires
            self.wf(),
        ensures
            r.wf(),
            same_val(r@, pow_u_ext(self@, exp as nat)),
    {
        match self {
            MpqExt::NaN => MpqExt::NaN,
            MpqExt::Zero(s) => if exp == 0 {
                Self::one()
            } else if s {
                MpqExt::Zero(true)
            } else {
                MpqExt::Zero(exp % 2 == 0)
            },
            MpqExt::Inf(s) => if exp == 0 {
                Self::one()
            } else if s {
                MpqExt::Inf(true)
            } else {
                MpqExt::Inf(exp % 2 == 0)
            },
            MpqExt::Rational(q) => {
                let s = rat_pow_u64(&q, exp);
                let ghost big_n = vstd::arithmetic::power::pow(rat_num(q), exp as nat);
                let ghost big_d = vstd::arithmetic::power::pow(rat_den(q), exp as nat);
                proof {
                    lemma_pow_nonzero(rat_num(q), exp as nat);
                    vstd::arithmetic::power::lemma_pow_positive(rat_den(q), exp as nat);
                    lemma_cross_zero(rat_num(s), big_d, big_n, rat_den(s));
                }
                MpqExt::Rational(s)
            },
        }
    }

    /// Power with a signed exponent: a negative exponent inverts the base
    /// first (zero and infinity swap), with signs following the parity of
    /// the exponent for negative-signed bases. Exponent 0 gives 1 on
    /// everything but NaN.
    pub fn pow_i(self, exp: i64) -> (r: Self)
        requires
            self.wf(),
        ensures
            r.wf(),
            same_val(r@, pow_i_ext(self@, exp as int)),
    {
        match self {
            MpqExt::NaN => MpqExt::NaN,
            MpqExt::Zero(s) => if exp == 0 {
                Self::one()
            } else {
                let sign = if s {
                    true
                } else {
                    exp % 2 == 0
                };
                if exp > 0 {
                    MpqExt::Zero(sign)
                } else {
                    MpqExt::Inf(sign)
                }
            },
            MpqExt::Inf(s) => if exp == 0 {
                Self::one()
            } else {
                let sign = if s {
                    true
                } else {
                    exp % 2 == 0
                };
                if exp > 0 {
                    MpqExt::Inf(sign)
                } else {
                    MpqExt::Zero(sign)
                }
            },
            MpqExt::Rational(q) => {
                if exp >= 0 {
                    let s = rat_pow_u64(&q, exp as u64);
                    let ghost big_n = vstd::arithmetic::power::pow(rat_num(q), exp as nat);
                    let ghost big_d = vstd::arithmetic::power::pow(rat_den(q), exp as nat);
                    proof {
                        lemma_pow_nonzero(rat_num(q), exp as nat);
                        vstd::arithmetic::power::lemma_pow_positive(rat_den(q), exp as nat);
                        lemma_cross_zero(rat_num(s), big_d, big_n, rat_den(s));
                    }
                    MpqExt::Rational(s)
                } else {
                    let mag: u64 = if exp == i64::MIN {
                        9223372036854775808u64
                    } else {
                        (-exp) as u64
                    };
                    let p = rat_pow_u64(&q, mag);
                    let ghost big_n = vstd::arithmetic::power::pow(rat_num(q), mag as nat);
                    let ghost big_d = vstd::arithmetic::power::pow(rat_den(q), mag as nat);
                    proof {
                        lemma_pow_nonzero(rat_num(q), mag as nat);
                        vstd::arithmetic::power::lemma_pow_positive(rat_den(q), mag as nat);
                        lemma_cross_zero(rat_num(p), big_d, big_n, rat_den(p));
                    }
                    let s = rat_reciprocal(&p);
                    proof {
                        lemma_recip_chain(
                            rat_num(p),
                            rat_den(p),
                            rat_num(s),
                            rat_den(s),
                            big_n,
                            big_d,
                        );
                        assert(rat_num(s) != 0) by (nonlinear_arith)
                            requires
                                rat_num(s) * rat_num(p) == rat_den(p) * rat_den(s),
                                rat_den(p) >= 1,
                                rat_den(s) >= 1,
                        ;
                        if big_n < 0 {
                            assert(rat_num(s) * (-big_n) == (-big_d) * rat_den(s))
                                by (nonlinear_arith)
                                requires
                                    rat_num(s) * big_n == big_d * rat_den(s),
                            ;
                        }
                    }
                    MpqExt::Rational(s)
                }
            },
        }
    }

    /// The finite value 1.
    pub fn one() -> (r: Self)
        ensures
            r.wf(),
            r@ == (ExtVal::Fin { num: 1, den: 1 }),
    {
        proof {
            crate::bignum::lemma_gcd_one(1);
        }
        MpqExt::Rational(rat_from_integer(&int_from_i64(1)))
    }

    /// The lax sign: zero and NaN are level, infinities and finite values
    /// report their sign.
    pub fn sign(&self) -> (r: core::cmp::Ordering)
        requires
            self.wf(),
        ensures
            r == sign_ext(self@),
    {
        match self {
            MpqExt::NaN => core::cmp::Ordering::Equal,
            MpqExt::Zero(_) => core::cmp::Ordering::Equal,
            MpqExt::Inf(s) => if *s {
                core::cmp::Ordering::Greater
            } else {
                core::cmp::Ordering::Less
            },
            MpqExt::Rational(q) => rat_sign(q),
        }
    }

    /// Summation: elements are reduced with `add`, and a NaN anywhere
    /// short-circuits the whole sum to NaN.
    pub fn sum(xs: &[MpqExt]) -> (r: Self)
        requires
            forall|i: int| 0 <= i < xs@.len() ==> (#[trigger] xs@[i]).wf(),
        ensures
            r.wf(),
            same_val(r@, fold_add_ext(xs@.map_values(|x: MpqExt| x@))),
    {
        let ghost vs = xs@.map_values(|x: MpqExt| x@);
        let mut acc = MpqExt::Zero(true);
        let n = xs.len();
        for i in 0..n
            invariant
                n == xs@.len(),
                forall|j: int| 0 <= j < n ==> (#[trigger] xs@[j]).wf(),
                vs == xs@.map_values(|x: MpqExt| x@),
                acc.wf(),
                fold_add_ext(vs.take(i as int)).wf(),
                same_val(acc@, fold_add_ext(vs.take(i as int))),
        {
            if let MpqExt::NaN = xs[i] {
                proof {
                    lemma_fold_add_nan(vs, i as int);
                }
                return MpqExt::NaN;
            }
            let ghost pre = acc@;
            let ghost fold_pre = fold_add_ext(vs.take(i as int));
            acc = acc.add(xs[i].clone());
            proof {
                assert(vs.take(i + 1).drop_last() =~= vs.take(i as int));
                assert(vs.take(i + 1).last() == vs[i as int]);
                crate::ext::lemma_add_congruence(pre, fold_pre, vs[i as int]);
                crate::ext::lemma_add_ext_wf(pre, vs[i as int]);
                crate::ext::lemma_add_ext_wf(fold_pre, vs[i as int]);
                crate::ext::lemma_same_val_trans(
                    acc@,
                    add_ext(pre, vs[i as int]),
                    add_ext(fold_pre, vs[i as int]),
                );
            }
        }
        proof {
            assert(vs.take(n as int) =~= vs);
        }
        acc
    }

    /// Product: elements are reduced with `mul`, and a NaN anywhere
    /// short-circuits the whole product to NaN.
    pub fn product(xs: &[MpqExt]) -> (r: Self)
        requires
            forall|i: int| 0 <= i < xs@.len() ==> (#[trigger] xs@[i]).wf(),
        ensures
            r.wf(),
            same_val(r@, fold_mul_ext(xs@.map_values(|x: MpqExt| x@))),
    {
        let ghost vs = xs@.map_values(|x: MpqExt| x@);
        let mut acc = Self::one();
        let n = xs.len();
        for i in 0..n
            invariant
                n == xs@.len(),
                forall|j: int| 0 <= j < n ==> (#[trigger] xs@[j]).wf(),
                vs == xs@.map_values(|x: MpqExt| x@),
                acc.wf(),
                fold_mul_ext(vs.take(i as int)).wf(),
                same_val(acc@, fold_mul_ext(vs.take(i as int))),
        {
            if let MpqExt::NaN = xs[i] {
                proof {
                    lemma_fold_mul_nan(vs, i as int);
                }
                return MpqExt::NaN;
            }
            let ghost pre = acc@;
            let ghost fold_pre = fold_mul_ext(vs.take(i as int));
            acc = acc.mul(xs[i].clone());
            proof {
                assert(vs.take(i + 1).drop_last() =~= vs.take(i as int));
                assert(vs.take(i + 1).last() == vs[i as int]);
                crate::ext::lemma_mul_congruence(pre, fold_pre, vs[i as int]);
                crate::ext::lemma_mul_ext_wf(pre, vs[i as int]);
                crate::ext::lemma_mul_ext_wf(fold_pre, vs[i as int]);
                crate::ext::lemma_same_val_trans(
                    acc@,
                    mul_ext(pre, vs[i as int]),
                    mul_ext(fold_pre, vs[i as int]),
                );
            }
        }
        proof {
            assert(vs.take(n as int) =~= vs);
        }
        acc
    }

    /// The best rational approximation with denominator at most `max_den`:
    /// NaN, zeros and infinities pass through; a fraction already within
    /// the bound is returned unchanged; otherwise no fraction within the
    /// bound is closer to the original value, and an approximation that
    /// collapses to zero keeps the original sign as a signed zero.
    pub fn approx(self, max_den: &Natural) -> (r: Self)
        requires
            self.wf(),
            nat_of(*max_den) >= 1,
        ensures
            r.wf(),
            !(self@ is Fin) ==> r@ == self@,
            self@ matches ExtVal::Fin { num, den } ==> match r@ {
                ExtVal::Fin { num: rn, den: rd } => {
                    &&& 1 <= rd <= nat_of(*max_den)
                    &&& (den <= nat_of(*max_den) ==> rn == num && rd == den)
                    &&& forall|cn: int, cd: int|
                        1 <= cd <= nat_of(*max_den) ==> no_closer_frac(num, den, rn, rd, cn, cd)
                    &&& forall|cn: int, cd: int|
                        1 <= cd < rd ==> crate::bignum::closer_frac(num, den, rn, rd, cn, cd)
                },
                ExtVal::Zero { sign } => {
                    &&& sign == (num > 0)
                    &&& forall|cn: int, cd: int|
                        1 <= cd <= nat_of(*max_den) ==> no_closer_frac(num, den, 0, 1, cn, cd)
                },
                _ => false,
            },
    {
        match self {
            MpqExt::NaN => MpqExt::NaN,
            MpqExt::Zero(s) => MpqExt::Zero(s),
            MpqExt::Inf(s) => MpqExt::Inf(s),
            MpqExt::Rational(q) => {
                let orig_pos = matches!(rat_sign(&q), core::cmp::Ordering::Greater);
                let new = rat_approx(&q, max_den);
                if matches!(rat_sign(&new), core::cmp::Ordering::Equal) {
                    proof {
                        crate::bignum::lemma_gcd_zero(rat_den(new) as nat);
                    }
                    MpqExt::Zero(orig_pos)
                } else {
                    MpqExt::Rational(new)
                }
            },
        }
    }

    /// Narrowing back to a plain `Rational`; infinity and NaN cannot be
    /// converted.
    pub fn try_into_rational(self) -> (r: Result<Rational, NumError>)
        requires
            self.wf(),
        ensures
            match r {
                Ok(q) => (self@ matches ExtVal::Zero { .. } && rat_num(q) == 0) || (
                self@ matches ExtVal::Fin { num, den } && rat_num(q) == num && rat_den(q) == den),
                Err(e) => e == NumError::NotConvertible && (self@ is Nan || self@ is Inf),
            },
    {
        match self {
            MpqExt::Zero(_) => {
                let z = rat_from_integer(&int_from_i64(0));
                Ok(z)
            },
            MpqExt::Rational(q) => Ok(q),
            _ => Err(NumError::NotConvertible),
        }
    }

    /// The numerator as a `Natural`: 0 for zero and NaN, 1 for infinity,
    /// and the stored numerator's magnitude for a fraction.
    pub fn to_numerator(&self) -> (r: Natural)
        requires
            self.wf(),
        ensures
            nat_of(r) == match self@ {
                ExtVal::Nan => 0,
                ExtVal::Zero { .. } => 0,
                ExtVal::Inf { .. } => 1,
                ExtVal::Fin { num, .. } => abs_int(num),
            },
    {
        match self {
            MpqExt::Zero(_) => nat_from_u64(0),
            MpqExt::NaN => nat_from_u64(0),
            MpqExt::Inf(_) => nat_from_u64(1),
            MpqExt::Rational(q) => rat_to_numerator(q),
        }
    }

    /// The denominator as a `Natural`: 1 for zero and NaN, 0 for
    /// infinity, and the stored denominator for a fraction.
    pub fn to_denominator(&self) -> (r: Natural)
        requires
            self.wf(),
        ensures
            nat_of(r) == match self@ {
                ExtVal::Nan => 1,
                ExtVal::Zero { .. } => 1,
                ExtVal::Inf { .. } => 0,
                ExtVal::Fin { den, .. } => den,
            },
    {
        match self {
            MpqExt::Zero(_) => nat_from_u64(1),
            MpqExt::NaN => nat_from_u64(1),
            MpqExt::Inf(_) => nat_from_u64(0),
            MpqExt::Rational(q) => rat_to_denominator(q),
        }
    }

    /// Both numerator and denominator, with NaN encoded as `0/0` and
    /// infinity as `1/0`.
    pub fn to_numerator_and_denominator(&self) -> (r: (Natural, Natural))
        requires
            self.wf(),
        ensures
            (nat_of(r.0) as int, nat_of(r.1) as int) == match self@ {
                ExtVal::Nan => (0int, 0int),
                ExtVal::Zero { .. } => (0int, 1int),
                ExtVal::Inf { .. } => (1int, 0int),
                ExtVal::Fin { num, den } => (abs_int(num), den),
            },
    {
        match self {
            MpqExt::Zero(_) => (nat_from_u64(0), nat_from_u64(1)),
            MpqExt::NaN => (nat_from_u64(0), nat_from_u64(0)),
            MpqExt::Inf(_) => (nat_from_u64(1), nat_from_u64(0)),
            MpqExt::Rational(q) => (rat_to_numerator(q), rat_to_denominator(q)),
        }
    }
}

impl MpqExt {
    /// Consuming form of `to_numerator`.
    pub fn into_numerator(self) -> (r: Natural)
        requires
            self.wf(),
        ensures
            nat_of(r) == match self@ {
                ExtVal::Nan => 0,
                ExtVal::Zero { .. } => 0,
                ExtVal::Inf { .. } => 1,
                ExtVal::Fin { num, .. } => abs_int(num),
            },
    {
        self.to_numerator()
    }

    /// Consuming form of `to_denominator`.
    pub fn into_denominator(self) -> (r: Natural)
        requires
            self.wf(),
        ensures
            nat_of(r) == match self@ {
                ExtVal::Nan => 1,
                ExtVal::Zero { .. } => 1,
                ExtVal::Inf { .. } => 0,
                ExtVal::Fin { den, .. } => den,
            },
    {
        self.to_denominator()
    }

    /// Consuming form of `to_numerator_and_denominator`.
    pub fn into_numerator_and_denominator(self) -> (r: (Natural, Natural))
        requires
            self.wf(),
        ensures
            (nat_of(r.0) as int, nat_of(r.1) as int) == match self@ {
                ExtVal::Nan => (0int, 0int),
                ExtVal::Zero { .. } => (0int, 1int),
                ExtVal::Inf { .. } => (1int, 0int),
                ExtVal::Fin { num, den } => (abs_int(num), den),
            },
    {
        self.to_numerator_and_denominator()
    }

    /// The numerator as a signed `Integer`, infinities contributing a
    /// unit of their sign.
    pub fn into_numerator_signed(self) -> (r: Integer)
        requires
            self.wf(),
        ensures
            int_of(r) == match self@ {
                ExtVal::Nan => 0int,
                ExtVal::Zero { .. } => 0int,
                ExtVal::Inf { sign } => if sign {
                    1int
                } else {
                    -1int
                },
                ExtVal::Fin { num, .. } => num,
            },
    {
        match self {
            MpqExt::Zero(_) => int_from_i64(0),
            MpqExt::NaN => int_from_i64(0),
            MpqExt::Inf(s) => if s {
                int_from_i64(1)
            } else {
                int_from_i64(-1)
            },
            MpqExt::Rational(q) => {
                let pos = !matches!(
                    crate::bignum::rat_sign(&q),
                    core::cmp::Ordering::Less,
                );
                crate::bignum::int_from_sign_and_abs(pos, rat_to_numerator(&q))
            },
        }
    }

    /// The denominator as a signed `Integer`, carrying the value's sign:
    /// 1 for NaN and positive zero, -1 for negative zero, 0 for
    /// infinities.
    pub fn into_denominator_signed(self) -> (r: Integer)
        requires
            self.wf(),
        ensures
            int_of(r) == match self@ {
                ExtVal::Nan => 1int,
                ExtVal::Zero { sign } => if sign {
                    1int
                } else {
                    -1int
                },
                ExtVal::Inf { .. } => 0int,
                ExtVal::Fin { num, den } => if num >= 0 {
                    den
                } else {
                    -den
                },
            },
    {
        match self {
            MpqExt::NaN => int_from_i64(1),
            MpqExt::Zero(s) => if s {
                int_from_i64(1)
            } else {
                int_from_i64(-1)
            },
            MpqExt::Inf(_) => int_from_i64(0),
            MpqExt::Rational(q) => {
                let pos = !matches!(
                    crate::bignum::rat_sign(&q),
                    core::cmp::Ordering::Less,
                );
                crate::bignum::int_from_sign_and_abs(pos, rat_to_denominator(&q))
            },
        }
    }
}

impl Clone for MpqExt {
    fn clone(&self) -> (r: Self)
        ensures
            r@ == self@,
    {
        match self {
            MpqExt::NaN => MpqExt::NaN,
            MpqExt::Zero(s) => MpqExt::Zero(*s),
            MpqExt::Inf(s) => MpqExt::Inf(*s),
            MpqExt::Rational(q) => MpqExt::Rational(rat_clone(q)),
        }
    }
}

impl Default for MpqExt {
    /// The default extended rational is positive zero.
    fn default() -> (r: Self)
        ensures
            r@ == (ExtVal::Zero { sign: true }),
    {
        MpqExt::Zero(true)
    }
}

impl PartialEq for MpqExt {
    fn eq(&self, other: &Self) -> (r: bool) {
        match (self, other) {
            (MpqExt::Zero(_), MpqExt::Zero(_)) => true,
            (MpqExt::Inf(s1), MpqExt::Inf(s2)) => s1 == s2,
            (MpqExt::Rational(q1), MpqExt::Rational(q2)) => rat_eq(q1, q2),
            _ => false,
        }
    }
}

impl vstd::std_specs::cmp::PartialEqSpecImpl for MpqExt {
    open spec fn obeys_eq_spec() -> bool {
        true
    }

    open spec fn eq_spec(&self, other: &Self) -> bool {
        eq_ext(self@, other@)
    }
}

impl PartialOrd for MpqExt {
    fn partial_cmp(&self, other: &Self) -> (r: Option<core::cmp::Ordering>) {
        match (self, other) {
            (MpqExt::NaN, _) => None,
            (_, MpqExt::NaN) => None,
            (MpqExt::Inf(s1), MpqExt::Inf(s2)) => if s1 == s2 {
                Some(core::cmp::Ordering::Equal)
            } else if *s1 {
                Some(core::cmp::Ordering::Greater)
            } else {
                Some(core::cmp::Ordering::Less)
            },
            (MpqExt::Inf(s), _) => if *s {
                Some(core::cmp::Ordering::Greater)
            } else {
                Some(core::cmp::Ordering::Less)
            },
            (_, MpqExt::Inf(s)) => if *s {
                Some(core::cmp::Ordering::Less)
            } else {
                Some(core::cmp::Ordering::Greater)
            },
            (MpqExt::Zero(_), MpqExt::Zero(_)) => Some(core::cmp::Ordering::Equal),
            (MpqExt::Zero(_), MpqExt::Rational(q)) => Some(
                match rat_sign(q) {
                    core::cmp::Ordering::Less => core::cmp::Ordering::Greater,
                    core::cmp::Ordering::Equal => core::cmp::Ordering::Equal,
                    core::cmp::Ordering::Greater => core::cmp::Ordering::Less,
                },
            ),
            (MpqExt::Rational(q), MpqExt::Zero(_)) => Some(rat_sign(q)),
            (MpqExt::Rational(q1), MpqExt::Rational(q2)) => Some(rat_cmp(q1, q2)),
        }
    }
}

impl vstd::std_specs::cmp::PartialOrdSpecImpl for MpqExt {
    open spec fn obeys_partial_cmp_spec() -> bool {
        true
    }

    open spec fn partial_cmp_spec(&self, other: &Self) -> Option<core::cmp::Ordering> {
        cmp_lax_ext(self@, other@)
    }
}

} // verus!
