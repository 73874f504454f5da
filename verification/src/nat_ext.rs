//! Extended natural numbers: arbitrary-precision unsigned integers
//! augmented with infinity and NaN.

use vstd::prelude::*;
use vstd::string::{StrSliceExecFns, StringExecFns};

use crate::bignum::{
    nat_add, nat_checked_sub, nat_clone, nat_cmp, nat_eq, nat_from_str, nat_from_string_base,
    nat_from_u64, nat_mul, nat_of, nat_pow, nat_to_hex, nat_to_string,
};
use crate::digits::{
    check_ci_inf, check_ci_nan, is_ci_inf, is_ci_nan, nat_str_val, str_eq_chars, str_of_base,
};
use crate::ext::{
    add_ext, checked_sub_ext, cmp_lax_ext, eq_ext, ext_from_int, fold_add_ext, fold_mul_ext,
    lemma_fold_add_nan, lemma_fold_mul_nan, mul_ext, pow_u_ext, ExtVal,
};
use crate::NumError;
use malachite::Natural;

verus! {

/// An unsigned arbitrary-precision integer extended with infinity and NaN.
/// The `Integer` payload is never zero: zero has exactly one
/// representation, the `Zero` variant.
#[derive(Debug)]
pub enum MpnExt {
    NaN,
    Inf,
    Zero,
    Integer(Natural),
}

impl View for MpnExt {
    type V = ExtVal;

    open spec fn view(&self) -> ExtVal {
        match self {
            MpnExt::NaN => ExtVal::Nan,
            MpnExt::Inf => ExtVal::Inf { sign: true },
            MpnExt::Zero => ExtVal::Zero { sign: true },
            MpnExt::Integer(n) => ExtVal::Fin { num: nat_of(*n) as int, den: 1 },
        }
    }
}

/// What `from_str` yields on a given string: the special literals, then
/// decimal numerals with zero collapsed to the `Zero` variant.
pub open spec fn mpn_from_str_spec(s: Seq<char>) -> Result<ExtVal, ()> {
    if is_ci_inf(s) {
        Ok(ExtVal::Inf { sign: true })
    } else if is_ci_nan(s) {
        Ok(ExtVal::Nan)
    } else {
        match nat_str_val(s, 10) {
            Some(v) => Ok(ext_from_int(v as int)),
            None => Err(()),
        }
    }
}

/// What `from_string_base` yields: like `mpn_from_str_spec` with digits of
/// the given base.
pub open spec fn mpn_from_base_spec(s: Seq<char>, base: nat) -> Result<ExtVal, ()> {
    if is_ci_inf(s) {
        Ok(ExtVal::Inf { sign: true })
    } else if is_ci_nan(s) {
        Ok(ExtVal::Nan)
    } else {
        match nat_str_val(s, base) {
            Some(v) => Ok(ext_from_int(v as int)),
            None => Err(()),
        }
    }
}

/// The single-string serial form: `"nan"`, `"inf"`, `"0"`, or a
/// `0x`-prefixed lowercase hexadecimal numeral.
pub open spec fn mpn_serial_spec(v: ExtVal) -> Seq<char> {
    match v {
        ExtVal::Nan => seq!['n', 'a', 'n'],
        ExtVal::Inf { .. } => seq!['i', 'n', 'f'],
        ExtVal::Zero { .. } => seq!['0'],
        ExtVal::Fin { num, .. } => seq!['0', 'x'] + str_of_base(num as nat, 16),
    }
}

/// The plain display string: `"nan"`, `"inf"`, or decimal digits (zero
/// included).
pub open spec fn mpn_repr_spec(v: ExtVal) -> Seq<char> {
    match v {
        ExtVal::Nan => seq!['n', 'a', 'n'],
        ExtVal::Inf { .. } => seq!['i', 'n', 'f'],
        ExtVal::Zero { .. } => seq!['0'],
        ExtVal::Fin { num, .. } => str_of_base(num as nat, 10),
    }
}

/// What reading the serial form back yields: the three exact literals, or
/// a `0x`-prefixed hexadecimal numeral.
pub open spec fn mpn_from_serial_spec(s: Seq<char>) -> Result<ExtVal, ()> {
    if s =~= seq!['n', 'a', 'n'] {
        Ok(ExtVal::Nan)
    } else if s =~= seq!['i', 'n', 'f'] {
        Ok(ExtVal::Inf { sign: true })
    } else if s =~= seq!['0'] {
        Ok(ExtVal::Zero { sign: true })
    } else if s.len() >= 2 && s[0] == '0' && s[1] == 'x' {
        match nat_str_val(s.skip(2), 16) {
            Some(v) => Ok(ext_from_int(v as int)),
            None => Err(()),
        }
    } else {
        Err(())
    }
}

impl MpnExt {
    /// The representation invariant: an unsigned extended value whose
    /// `Integer` payload is nonzero.
    pub open spec fn wf(self) -> bool {
        self@.wf_unsigned()
    }

    /// The extended natural denoted by a machine integer.
    pub fn from_u64(v: u64) -> (r: Self)
        ensures
            r.wf(),
            r@ == ext_from_int(v as int),
    {
        if v == 0 {
            MpnExt::Zero
        } else {
            MpnExt::Integer(nat_from_u64(v))
        }
    }

    /// The extended natural denoted by a 128-bit machine integer.
    pub fn from_u128(v: u128) -> (r: Self)
        ensures
            r.wf(),
            r@ == ext_from_int(v as int),
    {
        if v == 0 {
            MpnExt::Zero
        } else {
            MpnExt::Integer(crate::bignum::nat_from_u128(v))
        }
    }

    /// Addition: NaN and infinity absorb, zero is the identity, finite
    /// values add exactly.
    pub fn add(self, rhs: Self) -> (r: Self)
        requires
            self.wf(),
            rhs.wf(),
        ensures
            r.wf(),
            r@ == add_ext(self@, rhs@),
    {
        match (self, rhs) {
            (MpnExt::NaN, _) => MpnExt::NaN,
            (_, MpnExt::NaN) => MpnExt::NaN,
            (MpnExt::Inf, _) => MpnExt::Inf,
            (_, MpnExt::Inf) => MpnExt::Inf,
            (MpnExt::Zero, b) => b,
            (a, MpnExt::Zero) => a,
            (MpnExt::Integer(m), MpnExt::Integer(n)) => MpnExt::Integer(nat_add(&m, &n)),
        }
    }

    /// Multiplication: `0 * inf` is NaN; otherwise NaN, zero and infinity
    /// absorb, and finite values multiply exactly.
    pub fn mul(self, rhs: Self) -> (r: Self)
        requires
            self.wf(),
            rhs.wf(),
        ensures
            r.wf(),
            r@ == mul_ext(self@, rhs@),
    {
        match (self, rhs) {
            (MpnExt::Zero, MpnExt::Inf) => MpnExt::NaN,
            (MpnExt::Inf, MpnExt::Zero) => MpnExt::NaN,
            (MpnExt::NaN, _) => MpnExt::NaN,
            (_, MpnExt::NaN) => MpnExt::NaN,
            (MpnExt::Zero, _) => MpnExt::Zero,
            (_, MpnExt::Zero) => MpnExt::Zero,
            (MpnExt::Inf, _) => MpnExt::Inf,
            (_, MpnExt::Inf) => MpnExt::Inf,
            (MpnExt::Integer(m), MpnExt::Integer(n)) => {
                proof {
                    vstd::arithmetic::mul::lemma_mul_strictly_positive(
                        nat_of(m) as int,
                        nat_of(n) as int,
                    );
                }
                MpnExt::Integer(nat_mul(&m, &n))
            },
        }
    }

    /// Subtraction with underflow reported: `inf - inf` is NaN, NaN
    /// absorbs, and the result is absent exactly when the minuend is
    /// smaller than the subtrahend.
    pub fn checked_sub(self, rhs: Self) -> (r: Option<Self>)
        requires
            self.wf(),
            rhs.wf(),
        ensures
            match (r, checked_sub_ext(self@, rhs@)) {
                (Some(v), Some(m)) => v.wf() && v@ == m,
                (None, None) => true,
                _ => false,
            },
    {
        match (self, rhs) {
            (MpnExt::Inf, MpnExt::Inf) => Some(MpnExt::NaN),
            (MpnExt::NaN, _) => Some(MpnExt::NaN),
            (_, MpnExt::NaN) => Some(MpnExt::NaN),
            (MpnExt::Inf, _) => Some(MpnExt::Inf),
            (a, MpnExt::Zero) => Some(a),
            (MpnExt::Zero, _) => None,
            (_, MpnExt::Inf) => None,
            (MpnExt::Integer(m), MpnExt::Integer(n)) => match nat_cmp(&m, &n) {
                core::cmp::Ordering::Less => None,
                core::cmp::Ordering::Equal => Some(MpnExt::Zero),
                core::cmp::Ordering::Greater => match nat_checked_sub(&m, &n) {
                    Some(d) => Some(MpnExt::Integer(d)),
                    None => None,
                },
            },
        }
    }

    /// Power with an unsigned exponent: exponent 0 gives 1 on zero and
    /// infinity (but NaN stays NaN); finite values take the exact power.
    pub fn pow(self, exp: u64) -> (r: Self)
        requires
            self.wf(),
        ensures
            r.wf(),
            r@ == pow_u_ext(self@, exp as nat),
    {
        match self {
            MpnExt::NaN => MpnExt::NaN,
            MpnExt::Zero => if exp == 0 {
                MpnExt::Integer(nat_from_u64(1))
            } else {
                MpnExt::Zero
            },
            MpnExt::Inf => if exp == 0 {
                MpnExt::Integer(nat_from_u64(1))
            } else {
                MpnExt::Inf
            },
            MpnExt::Integer(n) => {
                proof {
                    vstd::arithmetic::power::lemma_pow_positive(nat_of(n) as int, exp as nat);
                    vstd::arithmetic::power::lemma1_pow(exp as nat);
                }
                MpnExt::Integer(nat_pow(&n, exp))
            },
        }
    }

    /// The lax sign: zero (and NaN) are level, everything else is
    /// positive.
    pub fn sign(&self) -> (r: core::cmp::Ordering)
        requires
            self.wf(),
        ensures
            r == crate::ext::sign_ext(self@),
    {
        match self {
            MpnExt::NaN => core::cmp::Ordering::Equal,
            MpnExt::Zero => core::cmp::Ordering::Equal,
            MpnExt::Inf => core::cmp::Ordering::Greater,
            MpnExt::Integer(_) => core::cmp::Ordering::Greater,
        }
    }

    /// Summation: elements are reduced with `add`, and a NaN anywhere
    /// short-circuits the whole sum to NaN.
    pub fn sum(xs: &[MpnExt]) -> (r: Self)
        requires
            forall|i: int| 0 <= i < xs@.len() ==> (#[trigger] xs@[i]).wf(),
        ensures
            r.wf(),
            r@ == fold_add_ext(xs@.map_values(|x: MpnExt| x@)),
    {
        let ghost vs = xs@.map_values(|x: MpnExt| x@);
        let mut acc = MpnExt::Zero;
        let n = xs.len();
        for i in 0..n
            invariant
                n == xs@.len(),
                forall|j: int| 0 <= j < n ==> (#[trigger] xs@[j]).wf(),
                vs == xs@.map_values(|x: MpnExt| x@),
                acc.wf(),
                acc@ == fold_add_ext(vs.take(i as int)),
        {
            if let MpnExt::NaN = xs[i] {
                proof {
                    lemma_fold_add_nan(vs, i as int);
                }
                return MpnExt::NaN;
            }
            acc = acc.add(xs[i].clone());
            proof {
                assert(vs.take(i + 1).drop_last() =~= vs.take(i as int));
                assert(vs.take(i + 1).last() == vs[i as int]);
            }
        }
        proof {
            assert(vs.take(n as int) =~= vs);
        }
        acc
    }

    /// Product: elements are reduced with `mul`, and a NaN anywhere
    /// short-circuits the whole product to NaN.
    pub fn product(xs: &[MpnExt]) -> (r: Self)
        requires
            forall|i: int| 0 <= i < xs@.len() ==> (#[trigger] xs@[i]).wf(),
        ensures
            r.wf(),
            r@ == fold_mul_ext(xs@.map_values(|x: MpnExt| x@)),
    {
        let ghost vs = xs@.map_values(|x: MpnExt| x@);
        let mut acc = MpnExt::Integer(nat_from_u64(1));
        let n = xs.len();
        for i in 0..n
            invariant
                n == xs@.len(),
                forall|j: int| 0 <= j < n ==> (#[trigger] xs@[j]).wf(),
                vs == xs@.map_values(|x: MpnExt| x@),
                acc.wf(),
                acc@ == fold_mul_ext(vs.take(i as int)),
        {
            if let MpnExt::NaN = xs[i] {
                proof {
                    lemma_fold_mul_nan(vs, i as int);
                }
                return MpnExt::NaN;
            }
            acc = acc.mul(xs[i].clone());
            proof {
                assert(vs.take(i + 1).drop_last() =~= vs.take(i as int));
                assert(vs.take(i + 1).last() == vs[i as int]);
            }
        }
        proof {
            assert(vs.take(n as int) =~= vs);
        }
        acc
    }

    /// Narrowing back to a plain `Natural`; infinity and NaN cannot be
    /// converted.
    pub fn try_into_natural(self) -> (r: Result<Natural, NumError>)
        requires
            self.wf(),
        ensures
            match r {
                Ok(n) => (self@ matches ExtVal::Zero { .. } && nat_of(n) == 0) || (
                self@ matches ExtVal::Fin { num, .. } && nat_of(n) == num),
                Err(e) => e == NumError::NotConvertible && (self@ is Nan || self@ is Inf),
            },
    {
        match self {
            MpnExt::Zero => Ok(nat_from_u64(0)),
            MpnExt::Integer(n) => Ok(n),
            _ => Err(NumError::NotConvertible),
        }
    }

    /// Parses the special literals `inf` and `nan` (in any letter case)
    /// and decimal numerals; anything else is an invalid format.
    pub fn from_str(s: &str) -> (r: Result<Self, NumError>)
        ensures
            match (r, mpn_from_str_spec(s@)) {
                (Ok(v), Ok(m)) => v.wf() && v@ == m,
                (Err(e), Err(_)) => e == NumError::InvalidFormat,
                _ => false,
            },
    {
        if check_ci_inf(s) {
            Ok(MpnExt::Inf)
        } else if check_ci_nan(s) {
            Ok(MpnExt::NaN)
        } else {
            match nat_from_str(s) {
                Some(n) => {
                    if nat_eq(&n, &nat_from_u64(0)) {
                        Ok(MpnExt::Zero)
                    } else {
                        Ok(MpnExt::Integer(n))
                    }
                },
                None => Err(NumError::InvalidFormat),
            }
        }
    }

    /// Parses like `from_str`, with numerals read in the given base.
    pub fn from_string_base(base: u8, s: &str) -> (r: Result<Self, NumError>)
        requires
            2 <= base <= 62,
        ensures
            match (r, mpn_from_base_spec(s@, base as nat)) {
                (Ok(v), Ok(m)) => v.wf() && v@ == m,
                (Err(e), Err(_)) => e == NumError::InvalidFormat,
                _ => false,
            },
    {
        if check_ci_inf(s) {
            Ok(MpnExt::Inf)
        } else if check_ci_nan(s) {
            Ok(MpnExt::NaN)
        } else {
            match nat_from_string_base(base, s) {
                Some(n) => {
                    if nat_eq(&n, &nat_from_u64(0)) {
                        Ok(MpnExt::Zero)
                    } else {
                        Ok(MpnExt::Integer(n))
                    }
                },
                None => Err(NumError::InvalidFormat),
            }
        }
    }

    /// The single-string serial form: `"nan"`, `"inf"`, `"0"`, or the
    /// `0x`-prefixed hexadecimal numeral of a finite value.
    pub fn serial_string(&self) -> (r: String)
        requires
            self.wf(),
        ensures
            r@ == mpn_serial_spec(self@),
    {
        proof {
            reveal_strlit("nan");
            reveal_strlit("inf");
            reveal_strlit("0");
            reveal_strlit("0x");
            assert("nan"@ =~= seq!['n', 'a', 'n']);
            assert("inf"@ =~= seq!['i', 'n', 'f']);
            assert("0"@ =~= seq!['0']);
            assert("0x"@ =~= seq!['0', 'x']);
        }
        match self {
            MpnExt::NaN => String::from_str("nan"),
            MpnExt::Inf => String::from_str("inf"),
            MpnExt::Zero => String::from_str("0"),
            MpnExt::Integer(n) => {
                let mut out = String::from_str("0x");
                let digits = nat_to_hex(n);
                out.append(digits.as_str());
                out
            },
        }
    }

    /// The plain display string, as `mpn_repr_spec` describes; finite
    /// values print in decimal.
    pub fn repr_string(&self) -> (r: String)
        requires
            self.wf(),
        ensures
            r@ == mpn_repr_spec(self@),
    {
        proof {
            reveal_strlit("nan");
            reveal_strlit("inf");
            reveal_strlit("0");
            assert("nan"@ =~= seq!['n', 'a', 'n']);
            assert("inf"@ =~= seq!['i', 'n', 'f']);
            assert("0"@ =~= seq!['0']);
        }
        match self {
            MpnExt::NaN => String::from_str("nan"),
            MpnExt::Inf => String::from_str("inf"),
            MpnExt::Zero => String::from_str("0"),
            MpnExt::Integer(n) => nat_to_string(n),
        }
    }

    /// Reads the serial form back: the exact literals `"nan"`, `"inf"`
    /// and `"0"`, or a `0x`-prefixed hexadecimal numeral.
    pub fn from_serial_string(s: &str) -> (r: Result<Self, NumError>)
        ensures
            match (r, mpn_from_serial_spec(s@)) {
                (Ok(v), Ok(m)) => v.wf() && v@ == m,
                (Err(e), Err(_)) => e == NumError::InvalidFormat,
                _ => false,
            },
    {
        proof {
            reveal_strlit("nan");
            reveal_strlit("inf");
            reveal_strlit("0");
            assert("nan"@ =~= seq!['n', 'a', 'n']);
            assert("inf"@ =~= seq!['i', 'n', 'f']);
            assert("0"@ =~= seq!['0']);
        }
        if str_eq_chars(s, "nan") {
            Ok(MpnExt::NaN)
        } else if str_eq_chars(s, "inf") {
            Ok(MpnExt::Inf)
        } else if str_eq_chars(s, "0") {
            Ok(MpnExt::Zero)
        } else if s.unicode_len() >= 2 && s.get_char(0) == '0' && s.get_char(1) == 'x' {
            let rest = s.substring_char(2, s.unicode_len());
            proof {
                assert(rest@ =~= s@.skip(2));
            }
            match nat_from_string_base(16, rest) {
                Some(n) => {
                    if nat_eq(&n, &nat_from_u64(0)) {
                        Ok(MpnExt::Zero)
                    } else {
                        Ok(MpnExt::Integer(n))
                    }
                },
                None => Err(NumError::InvalidFormat),
            }
        } else {
            Err(NumError::InvalidFormat)
        }
    }
}

impl Clone for MpnExt {
    fn clone(&self) -> (r: Self)
        ensures
            r@ == self@,
    {
        match self {
            MpnExt::NaN => MpnExt::NaN,
            MpnExt::Inf => MpnExt::Inf,
            MpnExt::Zero => MpnExt::Zero,
            MpnExt::Integer(n) => MpnExt::Integer(nat_clone(n)),
        }
    }
}

impl PartialEq for MpnExt {
    fn eq(&self, other: &Self) -> (r: bool) {
        match (self, other) {
            (MpnExt::Inf, MpnExt::Inf) => true,
            (MpnExt::Zero, MpnExt::Zero) => true,
            (MpnExt::Integer(m), MpnExt::Integer(n)) => nat_eq(m, n),
            _ => false,
        }
    }
}

impl vstd::std_specs::cmp::PartialEqSpecImpl for MpnExt {
    open spec fn obeys_eq_spec() -> bool {
        true
    }

    open spec fn eq_spec(&self, other: &Self) -> bool {
        eq_ext(self@, other@)
    }
}

impl PartialOrd for MpnExt {
    fn partial_cmp(&self, other: &Self) -> (r: Option<core::cmp::Ordering>) {
        match (self, other) {
            (MpnExt::NaN, _) => None,
            (_, MpnExt::NaN) => None,
            (MpnExt::Inf, MpnExt::Inf) => Some(core::cmp::Ordering::Equal),
            (MpnExt::Zero, MpnExt::Zero) => Some(core::cmp::Ordering::Equal),
            (MpnExt::Inf, _) => Some(core::cmp::Ordering::Greater),
            (MpnExt::Integer(m), MpnExt::Zero) => Some(nat_cmp(m, &nat_from_u64(0))),
            (MpnExt::Zero, MpnExt::Integer(n)) => Some(nat_cmp(&nat_from_u64(0), n)),
            (_, MpnExt::Inf) => Some(core::cmp::Ordering::Less),
            (MpnExt::Integer(m), MpnExt::Integer(n)) => Some(nat_cmp(m, n)),
        }
    }
}

impl vstd::std_specs::cmp::PartialOrdSpecImpl for MpnExt {
    open spec fn obeys_partial_cmp_spec() -> bool {
        true
    }

    open spec fn partial_cmp_spec(&self, other: &Self) -> Option<core::cmp::Ordering> {
        cmp_lax_ext(self@, other@)
    }
}

} // verus!
