//! Extended integers: arbitrary-precision signed integers augmented with
//! signed zero, signed infinity and NaN.

use vstd::prelude::*;
use vstd::string::{StrSliceExecFns, StringExecFns};

use crate::bignum::{
    int_add, int_clone, int_cmp, int_div, int_eq, int_from_i64, int_from_sign_and_abs,
    int_from_str, int_from_string_base, int_mul, int_neg, int_of, int_pow, int_sign, int_sub,
    int_unsigned_abs, nat_eq, nat_from_string_base, nat_from_u64, nat_to_hex, nat_to_string,
};
use crate::digits::{
    check_ci_inf, check_ci_nan, int_str_val, is_ci_inf, is_ci_nan, str_eq_chars, str_of_base,
};
use crate::ext::{
    abs_ext, abs_int, add_ext, cmp_lax_ext, div_int_ext, ext_from_int, eq_ext,
    fold_add_ext, fold_mul_ext, lemma_fold_add_nan, lemma_fold_mul_nan, lemma_pow_nonzero,
    mul_ext, neg_ext, pow_u_ext, sign_ext, sub_ext, ExtVal,
};
use crate::nat_ext::MpnExt;
use crate::NumError;
use malachite::Integer;

verus! {

/// A signed arbitrary-precision integer extended with signed zero, signed
/// infinity and NaN. The `Integer` payload is never zero: zero is always a
/// `Zero` variant carrying its sign (true means non-negative).
#[derive(Debug)]
pub enum MpzExt {
    NaN,
    Zero(bool),
    Inf(bool),
    Integer(Integer),
}

impl View for MpzExt {
    type V = ExtVal;

    open spec fn view(&self) -> ExtVal {
        match self {
            MpzExt::NaN => ExtVal::Nan,
            MpzExt::Zero(s) => ExtVal::Zero { sign: *s },
            MpzExt::Inf(s) => ExtVal::Inf { sign: *s },
            MpzExt::Integer(z) => ExtVal::Fin { num: int_of(*z), den: 1 },
        }
    }
}

/// What `from_str` yields: `inf`/`+inf`/`-inf` and `nan` with either sign
/// (all case-insensitive), then signed decimal numerals, a zero numeral
/// keeping the sign it was written with.
pub open spec fn mpz_from_str_spec(s: Seq<char>) -> Result<ExtVal, ()> {
    let minus = s.len() >= 1 && s[0] == '-';
    if is_ci_inf(s) || (s.len() >= 1 && s[0] == '+' && is_ci_inf(s.skip(1))) {
        Ok(ExtVal::Inf { sign: true })
    } else if minus && is_ci_inf(s.skip(1)) {
        Ok(ExtVal::Inf { sign: false })
    } else if is_ci_nan(s) || (s.len() >= 1 && (s[0] == '+' || s[0] == '-') && is_ci_nan(
        s.skip(1),
    )) {
        Ok(ExtVal::Nan)
    } else {
        match int_str_val(s, 10) {
            Some(v) => if v == 0 {
                Ok(ExtVal::Zero { sign: !minus })
            } else {
                Ok(ExtVal::Fin { num: v, den: 1 })
            },
            None => Err(()),
        }
    }
}

/// What `from_string_base` yields: like `mpz_from_str_spec` with numerals
/// read in the given base.
pub open spec fn mpz_from_base_spec(s: Seq<char>, base: nat) -> Result<ExtVal, ()> {
    let minus = s.len() >= 1 && s[0] == '-';
    if is_ci_inf(s) || (s.len() >= 1 && s[0] == '+' && is_ci_inf(s.skip(1))) {
        Ok(ExtVal::Inf { sign: true })
    } else if minus && is_ci_inf(s.skip(1)) {
        Ok(ExtVal::Inf { sign: false })
    } else if is_ci_nan(s) || (s.len() >= 1 && (s[0] == '+' || s[0] == '-') && is_ci_nan(
        s.skip(1),
    )) {
        Ok(ExtVal::Nan)
    } else {
        match int_str_val(s, base) {
            Some(v) => if v == 0 {
                Ok(ExtVal::Zero { sign: !minus })
            } else {
                Ok(ExtVal::Fin { num: v, den: 1 })
            },
            None => Err(()),
        }
    }
}

/// The single-string serial form: `"nan"`, `"0"`/`"-0"`, `"inf"`/`"-inf"`,
/// or a signed `0x`-prefixed lowercase hexadecimal numeral.
pub open spec fn mpz_serial_spec(v: ExtVal) -> Seq<char> {
    match v {
        ExtVal::Nan => seq!['n', 'a', 'n'],
        ExtVal::Zero { sign } => if sign {
            seq!['0']
        } else {
            seq!['-', '0']
        },
        ExtVal::Inf { sign } => if sign {
            seq!['i', 'n', 'f']
        } else {
            seq!['-', 'i', 'n', 'f']
        },
        ExtVal::Fin { num, .. } => if num > 0 {
            seq!['0', 'x'] + str_of_base(num as nat, 16)
        } else {
            seq!['-', '0', 'x'] + str_of_base(abs_int(num) as nat, 16)
        },
    }
}

/// The plain display string: `"nan"`, `"0"`/`"-0"`, `"inf"`/`"-inf"`, or
/// signed decimal digits.
pub open spec fn mpz_repr_spec(v: ExtVal) -> Seq<char> {
    match v {
        ExtVal::Nan => seq!['n', 'a', 'n'],
        ExtVal::Zero { sign } => if sign {
            seq!['0']
        } else {
            seq!['-', '0']
        },
        ExtVal::Inf { sign } => if sign {
            seq!['i', 'n', 'f']
        } else {
            seq!['-', 'i', 'n', 'f']
        },
        ExtVal::Fin { num, .. } => if num > 0 {
            str_of_base(num as nat, 10)
        } else {
            seq!['-'] + str_of_base(abs_int(num) as nat, 10)
        },
    }
}

/// What reading the serial form back yields: the exact special literals,
/// or a hexadecimal numeral prefixed `0x` or `-0x`, a zero numeral keeping
/// the sign it was written with.
pub open spec fn mpz_from_serial_spec(s: Seq<char>) -> Result<ExtVal, ()> {
    if s =~= seq!['n', 'a', 'n'] {
        Ok(ExtVal::Nan)
    } else if s =~= seq!['0'] {
        Ok(ExtVal::Zero { sign: true })
    } else if s =~= seq!['-', '0'] {
        Ok(ExtVal::Zero { sign: false })
    } else if s =~= seq!['i', 'n', 'f'] {
        Ok(ExtVal::Inf { sign: true })
    } else if s =~= seq!['-', 'i', 'n', 'f'] {
        Ok(ExtVal::Inf { sign: false })
    } else if s.len() >= 3 && s[0] == '-' && s[1] == '0' && s[2] == 'x' {
        match crate::digits::nat_str_val(s.skip(3), 16) {
            Some(v) => if v == 0 {
                Ok(ExtVal::Zero { sign: false })
            } else {
                Ok(ExtVal::Fin { num: -(v as int), den: 1 })
            },
            None => Err(()),
        }
    } else if s.len() >= 2 && s[0] == '0' && s[1] == 'x' {
        match crate::digits::nat_str_val(s.skip(2), 16) {
            Some(v) => if v == 0 {
                Ok(ExtVal::Zero { sign: true })
            } else {
                Ok(ExtVal::Fin { num: v as int, den: 1 })
            },
            None => Err(()),
        }
    } else {
        Err(())
    }
}

impl MpzExt {
    /// The representation invariant: an integral extended value whose
    /// `Integer` payload is nonzero.
    pub open spec fn wf(self) -> bool {
        self@.wf_integral()
    }

    /// The extended integer denoted by a machine integer.
    pub fn from_i64(v: i64) -> (r: Self)
        ensures
            r.wf(),
            r@ == ext_from_int(v as int),
    {
        if v == 0 {
            MpzExt::Zero(true)
        } else {
            MpzExt::Integer(int_from_i64(v))
        }
    }

    /// The extended integer denoted by an unsigned machine integer.
    pub fn from_u64(v: u64) -> (r: Self)
        ensures
            r.wf(),
            r@ == ext_from_int(v as int),
    {
        if v == 0 {
            MpzExt::Zero(true)
        } else {
            MpzExt::Integer(crate::bignum::int_from_u64(v))
        }
    }

    /// The extended integer denoted by a 128-bit machine integer.
    pub fn from_i128(v: i128) -> (r: Self)
        ensures
            r.wf(),
            r@ == ext_from_int(v as int),
    {
        if v == 0 {
            MpzExt::Zero(true)
        } else {
            MpzExt::Integer(crate::bignum::int_from_i128(v))
        }
    }

    /// Negation: flips the sign of zero, infinity and finite values; NaN
    /// is unaffected.
    pub fn neg(self) -> (r: Self)
        requires
            self.wf(),
        ensures
            r.wf(),
            r@ == neg_ext(self@),
    {
        match self {
            MpzExt::NaN => MpzExt::NaN,
            MpzExt::Zero(s) => MpzExt::Zero(!s),
            MpzExt::Inf(s) => MpzExt::Inf(!s),
            MpzExt::Integer(z) => MpzExt::Integer(int_neg(&z)),
        }
    }

    /// Addition: opposite-signed infinities give NaN; signed zeros combine
    /// by disjunction of sign bits; a finite sum that cancels collapses to
    /// positive zero.
    pub fn add(self, rhs: Self) -> (r: Self)
        requires
            self.wf(),
            rhs.wf(),
        ensures
            r.wf(),
            r@ == add_ext(self@, rhs@),
    {
        match (self, rhs) {
            (MpzExt::NaN, _) => MpzExt::NaN,
            (_, MpzExt::NaN) => MpzExt::NaN,
            (MpzExt::Inf(s1), MpzExt::Inf(s2)) => if s1 == s2 {
                MpzExt::Inf(s1)
            } else {
                MpzExt::NaN
            },
            (MpzExt::Zero(s1), MpzExt::Zero(s2)) => MpzExt::Zero(s1 || s2),
            (MpzExt::Zero(_), b) => b,
            (a, MpzExt::Zero(_)) => a,
            (MpzExt::Inf(s), _) => MpzExt::Inf(s),
            (_, MpzExt::Inf(s)) => MpzExt::Inf(s),
            (MpzExt::Integer(m), MpzExt::Integer(n)) => {
                let s = int_add(&m, &n);
                if int_eq(&s, &int_from_i64(0)) {
                    MpzExt::Zero(true)
                } else {
                    MpzExt::Integer(s)
                }
            },
        }
    }

    /// Subtraction: same-signed infinities give NaN; `Zero(s1) - Zero(s2)`
    /// is `Zero(s1 || !s2)`; a finite difference that cancels collapses to
    /// positive zero.
    pub fn sub(self, rhs: Self) -> (r: Self)
        requires
            self.wf(),
            rhs.wf(),
        ensures
            r.wf(),
            r@ == sub_ext(self@, rhs@),
    {
        match (self, rhs) {
            (MpzExt::NaN, _) => MpzExt::NaN,
            (_, MpzExt::NaN) => MpzExt::NaN,
            (MpzExt::Inf(s1), MpzExt::Inf(s2)) => if s1 == s2 {
                MpzExt::NaN
            } else {
                MpzExt::Inf(s1)
            },
            (MpzExt::Zero(s1), MpzExt::Zero(s2)) => MpzExt::Zero(s1 || !s2),
            (a, MpzExt::Zero(_)) => a,
            (MpzExt::Zero(_), b) => b.neg(),
            (MpzExt::Inf(s), _) => MpzExt::Inf(s),
            (_, MpzExt::Inf(s)) => MpzExt::Inf(!s),
            (MpzExt::Integer(m), MpzExt::Integer(n)) => {
                let s = int_sub(&m, &n);
                if int_eq(&s, &int_from_i64(0)) {
                    MpzExt::Zero(true)
                } else {
                    MpzExt::Integer(s)
                }
            },
        }
    }

    /// Multiplication: `0 * inf` is NaN; the sign of a zero or infinity
    /// result is the equality (XNOR) of the operand signs.
    pub fn mul(self, rhs: Self) -> (r: Self)
        requires
            self.wf(),
            rhs.wf(),
        ensures
            r.wf(),
            r@ == mul_ext(self@, rhs@),
    {
        match (self, rhs) {
            (MpzExt::NaN, _) => MpzExt::NaN,
            (_, MpzExt::NaN) => MpzExt::NaN,
            (MpzExt::Zero(_), MpzExt::Inf(_)) => MpzExt::NaN,
            (MpzExt::Inf(_), MpzExt::Zero(_)) => MpzExt::NaN,
            (MpzExt::Zero(s1), MpzExt::Zero(s2)) => MpzExt::Zero(s1 == s2),
            (MpzExt::Zero(s1), MpzExt::Integer(m)) => {
                let pos = matches!(int_sign(&m), core::cmp::Ordering::Greater);
                MpzExt::Zero(s1 == pos)
            },
            (MpzExt::Integer(m), MpzExt::Zero(s1)) => {
                let pos = matches!(int_sign(&m), core::cmp::Ordering::Greater);
                MpzExt::Zero(s1 == pos)
            },
            (MpzExt::Inf(s1), MpzExt::Inf(s2)) => MpzExt::Inf(s1 == s2),
            (MpzExt::Inf(s1), MpzExt::Integer(m)) => {
                let pos = matches!(int_sign(&m), core::cmp::Ordering::Greater);
                MpzExt::Inf(s1 == pos)
            },
            (MpzExt::Integer(m), MpzExt::Inf(s1)) => {
                let pos = matches!(int_sign(&m), core::cmp::Ordering::Greater);
                MpzExt::Inf(s1 == pos)
            },
            (MpzExt::Integer(m), MpzExt::Integer(n)) => {
                proof {
                    assert(int_of(m) * int_of(n) != 0) by (nonlinear_arith)
                        requires
                            int_of(m) != 0,
                            int_of(n) != 0,
                    ;
                }
                MpzExt::Integer(int_mul(&m, &n))
            },
        }
    }

    /// Division: `0/0` and `inf/inf` are NaN; the sign of a zero or
    /// infinity result is the equality of the operand signs; a finite
    /// quotient truncates toward zero, a zero quotient keeping the
    /// combined sign.
    pub fn div(self, rhs: Self) -> (r: Self)
        requires
            self.wf(),
            rhs.wf(),
        ensures
            r.wf(),
            r@ == div_int_ext(self@, rhs@),
    {
        match (self, rhs) {
            (MpzExt::NaN, _) => MpzExt::NaN,
            (_, MpzExt::NaN) => MpzExt::NaN,
            (MpzExt::Zero(_), MpzExt::Zero(_)) => MpzExt::NaN,
            (MpzExt::Inf(_), MpzExt::Inf(_)) => MpzExt::NaN,
            (MpzExt::Zero(s1), MpzExt::Inf(s2)) => MpzExt::Zero(s1 == s2),
            (MpzExt::Inf(s1), MpzExt::Zero(s2)) => MpzExt::Inf(s1 == s2),
            (MpzExt::Zero(s1), MpzExt::Integer(n)) => {
                let pos = matches!(int_sign(&n), core::cmp::Ordering::Greater);
                MpzExt::Zero(s1 == pos)
            },
            (MpzExt::Integer(n), MpzExt::Zero(s1)) => {
                let pos = matches!(int_sign(&n), core::cmp::Ordering::Greater);
                MpzExt::Inf(s1 == pos)
            },
            (MpzExt::Inf(s1), MpzExt::Integer(n)) => {
                let pos = matches!(int_sign(&n), core::cmp::Ordering::Greater);
                MpzExt::Inf(s1 == pos)
            },
            (MpzExt::Integer(n), MpzExt::Inf(s1)) => {
                let pos = matches!(int_sign(&n), core::cmp::Ordering::Greater);
                MpzExt::Zero(s1 == pos)
            },
            (MpzExt::Integer(m), MpzExt::Integer(n)) => {
                let pos_m = matches!(int_sign(&m), core::cmp::Ordering::Greater);
                let pos_n = matches!(int_sign(&n), core::cmp::Ordering::Greater);
                let q = int_div(&m, &n);
                if int_eq(&q, &int_from_i64(0)) {
                    MpzExt::Zero(pos_m == pos_n)
                } else {
                    MpzExt::Integer(q)
                }
            },
        }
    }

    /// Power with an unsigned exponent: exponent 0 gives 1 on zero and
    /// infinity (but NaN stays NaN); a negative-signed zero or infinity
    /// takes the parity of the exponent as its sign; finite values take
    /// the exact power.
    pub fn pow(self, exp: u64) -> (r: Self)
        requires
            self.wf(),
        ensures
            r.wf(),
            r@ == pow_u_ext(self@, exp as nat),
    {
        match self {
            MpzExt::NaN => MpzExt::NaN,
            MpzExt::Zero(s) => if exp == 0 {
                MpzExt::Integer(int_from_i64(1))
            } else if s {
                MpzExt::Zero(true)
            } else {
                MpzExt::Zero(exp % 2 == 0)
            },
            MpzExt::Inf(s) => if exp == 0 {
                MpzExt::Integer(int_from_i64(1))
            } else if s {
                MpzExt::Inf(true)
            } else {
                MpzExt::Inf(exp % 2 == 0)
            },
            MpzExt::Integer(z) => {
                proof {
                    lemma_pow_nonzero(int_of(z), exp as nat);
                    vstd::arithmetic::power::lemma1_pow(exp as nat);
                }
                MpzExt::Integer(int_pow(&z, exp))
            },
        }
    }

    /// The magnitude as an extended natural: signs are discarded, NaN and
    /// infinity map to their unsigned counterparts.
    pub fn unsigned_abs(self) -> (r: MpnExt)
        requires
            self.wf(),
        ensures
            r.wf(),
            r@ == abs_ext(self@),
    {
        match self {
            MpzExt::NaN => MpnExt::NaN,
            MpzExt::Zero(_) => MpnExt::Zero,
            MpzExt::Inf(_) => MpnExt::Inf,
            MpzExt::Integer(z) => MpnExt::Integer(int_unsigned_abs(&z)),
        }
    }

    /// The lax sign: zero and NaN are level, infinities and finite values
    /// report their sign.
    pub fn sign(&self) -> (r: core::cmp::Ordering)
        requires
            self.wf(),
        ensures
            r == sign_ext(self@),
    {
        match self {
            MpzExt::NaN => core::cmp::Ordering::Equal,
            MpzExt::Zero(_) => core::cmp::Ordering::Equal,
            MpzExt::Inf(s) => if *s {
                core::cmp::Ordering::Greater
            } else {
                core::cmp::Ordering::Less
            },
            MpzExt::Integer(z) => int_sign(z),
        }
    }

    /// Summation: elements are reduced with `add`, and a NaN anywhere
    /// short-circuits the whole sum to NaN.
    pub fn sum(xs: &[MpzExt]) -> (r: Self)
        requires
            forall|i: int| 0 <= i < xs@.len() ==> (#[trigger] xs@[i]).wf(),
        ensures
            r.wf(),
            r@ == fold_add_ext(xs@.map_values(|x: MpzExt| x@)),
    {
        let ghost vs = xs@.map_values(|x: MpzExt| x@);
        let mut acc = MpzExt::Zero(true);
        let n = xs.len();
        for i in 0..n
            invariant
                n == xs@.len(),
                forall|j: int| 0 <= j < n ==> (#[trigger] xs@[j]).wf(),
                vs == xs@.map_values(|x: MpzExt| x@),
                acc.wf(),
                acc@ == fold_add_ext(vs.take(i as int)),
        {
            if let MpzExt::NaN = xs[i] {
                proof {
                    lemma_fold_add_nan(vs, i as int);
                }
                return MpzExt::NaN;
            }
            acc = acc.add(xs[i].clone());
            proof {
                assert(vs.take(i + 1).drop_last() =~= vs.take(i as int));
                assert(vs.take(i + 1).last() == vs[i as int]);
            }
        }
        proof {
            assert(vs.take(n as int) =~= vs);
        }
        acc
    }

    /// Product: elements are reduced with `mul`, and a NaN anywhere
    /// short-circuits the whole product to NaN.
    pub fn product(xs: &[MpzExt]) -> (r: Self)
        requires
            forall|i: int| 0 <= i < xs@.len() ==> (#[trigger] xs@[i]).wf(),
        ensures
            r.wf(),
            r@ == fold_mul_ext(xs@.map_values(|x: MpzExt| x@)),
    {
        let ghost vs = xs@.map_values(|x: MpzExt| x@);
        let mut acc = MpzExt::Integer(int_from_i64(1));
        let n = xs.len();
        for i in 0..n
            invariant
                n == xs@.len(),
                forall|j: int| 0 <= j < n ==> (#[trigger] xs@[j]).wf(),
                vs == xs@.map_values(|x: MpzExt| x@),
                acc.wf(),
                acc@ == fold_mul_ext(vs.take(i as int)),
        {
            if let MpzExt::NaN = xs[i] {
                proof {
                    lemma_fold_mul_nan(vs, i as int);
                }
                return MpzExt::NaN;
            }
            acc = acc.mul(xs[i].clone());
            proof {
                assert(vs.take(i + 1).drop_last() =~= vs.take(i as int));
                assert(vs.take(i + 1).last() == vs[i as int]);
            }
        }
        proof {
            assert(vs.take(n as int) =~= vs);
        }
        acc
    }

    /// Narrowing back to a plain `Integer`; infinity and NaN cannot be
    /// converted.
    pub fn try_into_integer(self) -> (r: Result<Integer, NumError>)
        requires
            self.wf(),
        ensures
            match r {
                Ok(z) => (self@ matches ExtVal::Zero { .. } && int_of(z) == 0) || (
                self@ matches ExtVal::Fin { num, .. } && int_of(z) == num),
                Err(e) => e == NumError::NotConvertible && (self@ is Nan || self@ is Inf),
            },
    {
        match self {
            MpzExt::Zero(_) => Ok(int_from_i64(0)),
            MpzExt::Integer(z) => Ok(z),
            _ => Err(NumError::NotConvertible),
        }
    }

    /// Parses the special literals (`inf` and `nan`, optionally signed, in
    /// any letter case) and signed decimal numerals; a zero numeral keeps
    /// the sign it was written with.
    pub fn from_str(s: &str) -> (r: Result<Self, NumError>)
        ensures
            match (r, mpz_from_str_spec(s@)) {
                (Ok(v), Ok(m)) => v.wf() && v@ == m,
                (Err(e), Err(_)) => e == NumError::InvalidFormat,
                _ => false,
            },
    {
        let minus = s.unicode_len() >= 1 && s.get_char(0) == '-';
        let plus = s.unicode_len() >= 1 && s.get_char(0) == '+';
        if check_ci_inf(s) {
            return Ok(MpzExt::Inf(true));
        }
        if minus || plus {
            let rest = s.substring_char(1, s.unicode_len());
            proof {
                assert(rest@ =~= s@.skip(1));
            }
            if check_ci_inf(rest) {
                return Ok(MpzExt::Inf(!minus));
            }
            if check_ci_nan(rest) {
                return Ok(MpzExt::NaN);
            }
        }
        if check_ci_nan(s) {
            return Ok(MpzExt::NaN);
        }
        match int_from_str(s) {
            Some(z) => {
                if int_eq(&z, &int_from_i64(0)) {
                    Ok(MpzExt::Zero(!minus))
                } else {
                    Ok(MpzExt::Integer(z))
                }
            },
            None => Err(NumError::InvalidFormat),
        }
    }

    /// Parses like `from_str`, with numerals read in the given base.
    pub fn from_string_base(base: u8, s: &str) -> (r: Result<Self, NumError>)
        requires
            2 <= base <= 62,
        ensures
            match (r, mpz_from_base_spec(s@, base as nat)) {
                (Ok(v), Ok(m)) => v.wf() && v@ == m,
                (Err(e), Err(_)) => e == NumError::InvalidFormat,
                _ => false,
            },
    {
        let minus = s.unicode_len() >= 1 && s.get_char(0) == '-';
        let plus = s.unicode_len() >= 1 && s.get_char(0) == '+';
        if check_ci_inf(s) {
            return Ok(MpzExt::Inf(true));
        }
        if minus || plus {
            let rest = s.substring_char(1, s.unicode_len());
            proof {
                assert(rest@ =~= s@.skip(1));
            }
            if check_ci_inf(rest) {
                return Ok(MpzExt::Inf(!minus));
            }
            if check_ci_nan(rest) {
                return Ok(MpzExt::NaN);
            }
        }
        if check_ci_nan(s) {
            return Ok(MpzExt::NaN);
        }
        match int_from_string_base(base, s) {
            Some(z) => {
                if int_eq(&z, &int_from_i64(0)) {
                    Ok(MpzExt::Zero(!minus))
                } else {
                    Ok(MpzExt::Integer(z))
                }
            },
            None => Err(NumError::InvalidFormat),
        }
    }

    /// The single-string serial form: `"nan"`, `"0"`/`"-0"`,
    /// `"inf"`/`"-inf"`, or the signed `0x`-prefixed hexadecimal numeral
    /// of a finite value.
    pub fn serial_string(&self) -> (r: String)
        requires
            self.wf(),
        ensures
            r@ == mpz_serial_spec(self@),
    {
        proof {
            reveal_strlit("nan");
            reveal_strlit("0");
            reveal_strlit("-0");
            reveal_strlit("inf");
            reveal_strlit("-inf");
            reveal_strlit("0x");
            reveal_strlit("-0x");
            assert("nan"@ =~= seq!['n', 'a', 'n']);
            assert("0"@ =~= seq!['0']);
            assert("-0"@ =~= seq!['-', '0']);
            assert("inf"@ =~= seq!['i', 'n', 'f']);
            assert("-inf"@ =~= seq!['-', 'i', 'n', 'f']);
            assert("0x"@ =~= seq!['0', 'x']);
            assert("-0x"@ =~= seq!['-', '0', 'x']);
        }
        match self {
            MpzExt::NaN => String::from_str("nan"),
            MpzExt::Zero(s) => if *s {
                String::from_str("0")
            } else {
                String::from_str("-0")
            },
            MpzExt::Inf(s) => if *s {
                String::from_str("inf")
            } else {
                String::from_str("-inf")
            },
            MpzExt::Integer(z) => {
                let pos = matches!(int_sign(z), core::cmp::Ordering::Greater);
                let mut out = if pos {
                    String::from_str("0x")
                } else {
                    String::from_str("-0x")
                };
                let digits = nat_to_hex(&int_unsigned_abs(z));
                out.append(digits.as_str());
                out
            },
        }
    }

    /// The plain display string, as `mpz_repr_spec` describes; finite
    /// values print in signed decimal.
    pub fn repr_string(&self) -> (r: String)
        requires
            self.wf(),
        ensures
            r@ == mpz_repr_spec(self@),
    {
        proof {
            reveal_strlit("nan");
            reveal_strlit("0");
            reveal_strlit("-0");
            reveal_strlit("inf");
            reveal_strlit("-inf");
            reveal_strlit("-");
            assert("nan"@ =~= seq!['n', 'a', 'n']);
            assert("0"@ =~= seq!['0']);
            assert("-0"@ =~= seq!['-', '0']);
            assert("inf"@ =~= seq!['i', 'n', 'f']);
            assert("-inf"@ =~= seq!['-', 'i', 'n', 'f']);
            assert("-"@ =~= seq!['-']);
        }
        match self {
            MpzExt::NaN => String::from_str("nan"),
            MpzExt::Zero(s) => if *s {
                String::from_str("0")
            } else {
                String::from_str("-0")
            },
            MpzExt::Inf(s) => if *s {
                String::from_str("inf")
            } else {
                String::from_str("-inf")
            },
            MpzExt::Integer(z) => {
                let pos = matches!(int_sign(z), core::cmp::Ordering::Greater);
                let digits = crate::bignum::nat_to_string(&int_unsigned_abs(z));
                if pos {
                    digits
                } else {
                    let mut out = String::from_str("-");
                    out.append(digits.as_str());
                    out
                }
            },
        }
    }

    /// Reads the serial form back: the exact special literals, or a
    /// hexadecimal numeral prefixed `0x` or `-0x`.
    pub fn from_serial_string(s: &str) -> (r: Result<Self, NumError>)
        ensures
            match (r, mpz_from_serial_spec(s@)) {
                (Ok(v), Ok(m)) => v.wf() && v@ == m,
                (Err(e), Err(_)) => e == NumError::InvalidFormat,
                _ => false,
            },
    {
        proof {
            reveal_strlit("nan");
            reveal_strlit("0");
            reveal_strlit("-0");
            reveal_strlit("inf");
            reveal_strlit("-inf");
            assert("nan"@ =~= seq!['n', 'a', 'n']);
            assert("0"@ =~= seq!['0']);
            assert("-0"@ =~= seq!['-', '0']);
            assert("inf"@ =~= seq!['i', 'n', 'f']);
            assert("-inf"@ =~= seq!['-', 'i', 'n', 'f']);
        }
        if str_eq_chars(s, "nan") {
            Ok(MpzExt::NaN)
        } else if str_eq_chars(s, "0") {
            Ok(MpzExt::Zero(true))
        } else if str_eq_chars(s, "-0") {
            Ok(MpzExt::Zero(false))
        } else if str_eq_chars(s, "inf") {
            Ok(MpzExt::Inf(true))
        } else if str_eq_chars(s, "-inf") {
            Ok(MpzExt::Inf(false))
        } else if s.unicode_len() >= 3 && s.get_char(0) == '-' && s.get_char(1) == '0'
            && s.get_char(2) == 'x' {
            let rest = s.substring_char(3, s.unicode_len());
            proof {
                assert(rest@ =~= s@.skip(3));
            }
            match nat_from_string_base(16, rest) {
                Some(n) => {
                    if nat_eq(&n, &nat_from_u64(0)) {
                        Ok(MpzExt::Zero(false))
                    } else {
                        Ok(MpzExt::Integer(int_from_sign_and_abs(false, n)))
                    }
                },
                None => Err(NumError::InvalidFormat),
            }
        } else if s.unicode_len() >= 2 && s.get_char(0) == '0' && s.get_char(1) == 'x' {
            let rest = s.substring_char(2, s.unicode_len());
            proof {
                assert(rest@ =~= s@.skip(2));
            }
            match nat_from_string_base(16, rest) {
                Some(n) => {
                    if nat_eq(&n, &nat_from_u64(0)) {
                        Ok(MpzExt::Zero(true))
                    } else {
                        Ok(MpzExt::Integer(int_from_sign_and_abs(true, n)))
                    }
                },
                None => Err(NumError::InvalidFormat),
            }
        } else {
            Err(NumError::InvalidFormat)
        }
    }
}

impl Clone for MpzExt {
    fn clone(&self) -> (r: Self)
        ensures
            r@ == self@,
    {
        match self {
            MpzExt::NaN => MpzExt::NaN,
            MpzExt::Zero(s) => MpzExt::Zero(*s),
            MpzExt::Inf(s) => MpzExt::Inf(*s),
            MpzExt::Integer(z) => MpzExt::Integer(int_clone(z)),
        }
    }
}

impl PartialEq for MpzExt {
    fn eq(&self, other: &Self) -> (r: bool) {
        match (self, other) {
            (MpzExt::Zero(_), MpzExt::Zero(_)) => true,
            (MpzExt::Inf(s1), MpzExt::Inf(s2)) => s1 == s2,
            (MpzExt::Integer(m), MpzExt::Integer(n)) => int_eq(m, n),
            _ => false,
        }
    }
}

impl vstd::std_specs::cmp::PartialEqSpecImpl for MpzExt {
    open spec fn obeys_eq_spec() -> bool {
        true
    }

    open spec fn eq_spec(&self, other: &Self) -> bool {
        eq_ext(self@, other@)
    }
}

impl PartialOrd for MpzExt {
    fn partial_cmp(&self, other: &Self) -> (r: Option<core::cmp::Ordering>) {
        match (self, other) {
            (MpzExt::NaN, _) => None,
            (_, MpzExt::NaN) => None,
            (MpzExt::Inf(s1), MpzExt::Inf(s2)) => if s1 == s2 {
                Some(core::cmp::Ordering::Equal)
            } else if *s1 {
                Some(core::cmp::Ordering::Greater)
            } else {
                Some(core::cmp::Ordering::Less)
            },
            (MpzExt::Inf(s), _) => if *s {
                Some(core::cmp::Ordering::Greater)
            } else {
                Some(core::cmp::Ordering::Less)
            },
            (_, MpzExt::Inf(s)) => if *s {
                Some(core::cmp::Ordering::Less)
            } else {
                Some(core::cmp::Ordering::Greater)
            },
            (MpzExt::Zero(_), MpzExt::Zero(_)) => Some(core::cmp::Ordering::Equal),
            (MpzExt::Zero(_), MpzExt::Integer(n)) => Some(
                match int_sign(n) {
                    core::cmp::Ordering::Less => core::cmp::Ordering::Greater,
                    core::cmp::Ordering::Equal => core::cmp::Ordering::Equal,
                    core::cmp::Ordering::Greater => core::cmp::Ordering::Less,
                },
            ),
            (MpzExt::Integer(m), MpzExt::Zero(_)) => Some(int_sign(m)),
            (MpzExt::Integer(m), MpzExt::Integer(n)) => Some(int_cmp(m, n)),
        }
    }
}

impl vstd::std_specs::cmp::PartialOrdSpecImpl for MpzExt {
    open spec fn obeys_partial_cmp_spec() -> bool {
        true
    }

    open spec fn partial_cmp_spec(&self, other: &Self) -> Option<core::cmp::Ordering> {
        cmp_lax_ext(self@, other@)
    }
}

} // verus!
