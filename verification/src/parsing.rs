//! The decimal/fraction text parser.
//!
//! One algorithm reads plain decimal notation (with optional sign,
//! exponent marker and repeating-digit brackets), `a/b` fraction notation,
//! and the `inf`/`nan` literals, into a sum type of sign, numerator and
//! denominator that each extended-number domain can adopt.

use vstd::arithmetic::power::pow;
use vstd::prelude::*;
use vstd::string::{StrSliceExecFns, StringExecFns};

use crate::bignum::{
    nat_add, nat_checked_sub, nat_eq, nat_from_str, nat_from_u64, nat_mul, nat_of,
    nat_pow, parse_i64, rat_from_sign_and_naturals,
};
use crate::digits::{
    all_digits, all_digits10_str, check_ci_inf, check_ci_nan, digits_val, find2, find2_str,
    is_ci_inf, is_ci_nan, nat_str_val, rfind1, rfind1_str,
};
use crate::ext::{same_val, ExtVal};
use crate::rat_ext::MpqExt;
use crate::NumError;
use malachite::Natural;

verus! {

/// What a numeric text denotes before it is adopted by a domain: a sign
/// with raw numerator and denominator, a signed infinity, a signed zero,
/// or NaN.
#[derive(Debug)]
pub enum ParseFractionResult {
    Rational(bool, Natural, Natural),
    Inf(bool),
    Zero(bool),
    NaN,
}

/// The spec-level value of a parse result.
pub enum PfrVal {
    Rat { sign: bool, num: nat, den: nat },
    Inf { sign: bool },
    Zero { sign: bool },
    Nan,
}

impl View for ParseFractionResult {
    type V = PfrVal;

    open spec fn view(&self) -> PfrVal {
        match self {
            ParseFractionResult::Rational(s, n, d) => PfrVal::Rat {
                sign: *s,
                num: nat_of(*n),
                den: nat_of(*d),
            },
            ParseFractionResult::Inf(s) => PfrVal::Inf { sign: *s },
            ParseFractionResult::Zero(s) => PfrVal::Zero { sign: *s },
            ParseFractionResult::NaN => PfrVal::Nan,
        }
    }
}

/// A power of ten.
pub open spec fn pow10(e: nat) -> nat {
    pow(10, e) as nat
}

/// The pieces of a decimal numeral after splitting: sign, integer digits,
/// repeating digits, and the effective decimal exponent.
pub struct SplitDec {
    pub sign: bool,
    pub int_part: Seq<char>,
    pub rep_part: Seq<char>,
    pub exp: int,
}

/// Packs a split when its adjusted exponent stays within the machine
/// range; out of range is a parse failure.
pub open spec fn check_exp(sign: bool, ip: Seq<char>, rp: Seq<char>, exp: int) -> Result<
    SplitDec,
    (),
> {
    if i64::MIN <= exp <= i64::MAX {
        Ok(SplitDec { sign, int_part: ip, rep_part: rp, exp })
    } else {
        Err(())
    }
}

/// Splits a decimal numeral into sign, integer digits, repeating digits
/// and effective exponent. An optional exponent marker (`E` or `e` plus a
/// signed machine-range integer) is consumed first, then an optional
/// sign, then the repeating-digit bracket in any of its four placements
/// relative to the decimal point, each adjusting the exponent by the
/// digits it consumes. Unmatched or badly ordered brackets fail.
pub open spec fn spec_split_decimal(s: Seq<char>) -> Result<SplitDec, ()> {
    let body = match find2(s, 'E', 'e') {
        Some(i) => s.take(i),
        None => s,
    };
    let exp0_opt = match find2(s, 'E', 'e') {
        Some(i) => match crate::digits::int_str_val(s.skip(i + 1), 10) {
            Some(v) => if i64::MIN <= v <= i64::MAX {
                Some(v)
            } else {
                None
            },
            None => None,
        },
        None => Some(0int),
    };
    match exp0_opt {
        None => Err(()),
        Some(exp0) => {
            let sign = !(body.len() > 0 && body[0] == '-');
            let b = if body.len() > 0 && (body[0] == '-' || body[0] == '+') {
                body.skip(1)
            } else {
                body
            };
            spec_split_body(sign, b, exp0)
        },
    }
}

/// The bracket cases of a numeral whose exponent marker and sign have
/// been stripped.
pub open spec fn spec_split_body(sign: bool, b: Seq<char>, exp0: int) -> Result<SplitDec, ()> {
    match find2(b, '.', '.') {
        Some(p) => spec_split_with_point(sign, b.take(p), b.skip(p + 1), exp0),
        None => match (find2(b, '[', '['), rfind1(b, ']')) {
            (Some(l), Some(r)) => if r < l + 1 {
                Err(())
            } else {
                let rep = b.subrange(l + 1, r);
                check_exp(sign, b.take(l), rep, exp0 + rep.len())
            },
            (None, None) => check_exp(sign, b, Seq::empty(), exp0),
            _ => Err(()),
        },
    }
}

/// The bracket cases of a numeral holding a decimal point, split into the
/// digits before and after it.
pub open spec fn spec_split_with_point(
    sign: bool,
    before: Seq<char>,
    after: Seq<char>,
    exp0: int,
) -> Result<SplitDec, ()> {
    match (find2(before, '[', '['), rfind1(before, ']')) {
        (Some(l), Some(r)) => if r < l + 1 {
            Err(())
        } else {
            let rep = before.subrange(l + 1, r);
            check_exp(sign, before.take(l), rep, exp0 + (before.len() - (r + 1)) + rep.len())
        },
        (Some(l), None) => match rfind1(after, ']') {
            Some(r2) => {
                let brep = before.skip(l + 1);
                check_exp(sign, before.take(l), brep + after.take(r2), exp0 + brep.len())
            },
            None => Err(()),
        },
        (None, None) => match (find2(after, '[', '['), rfind1(after, ']')) {
            (Some(l2), Some(r2)) => if r2 < l2 + 1 {
                Err(())
            } else {
                check_exp(
                    sign,
                    before + after.take(l2),
                    after.subrange(l2 + 1, r2),
                    exp0 - l2,
                )
            },
            (None, None) => check_exp(sign, before + after, Seq::empty(), exp0 - after.len()),
            _ => Err(()),
        },
        _ => Err(()),
    }
}

/// The value a split denotes. The repeating block of length `L`
/// contributes a denominator of `10^L - 1`, cross-multiplied with the
/// integer digits; a zero numerator short-circuits to a signed zero
/// before exponent scaling; the exponent then scales numerator or
/// denominator by a power of ten. Non-digit content fails.
pub open spec fn spec_frac_from_decimal(sd: SplitDec) -> Result<PfrVal, ()> {
    if !all_digits(sd.int_part, 10) {
        Err(())
    } else if !all_digits(sd.rep_part, 10) {
        Err(())
    } else {
        let ell = sd.rep_part.len();
        let base = digits_val(sd.int_part, 10);
        let num0 = if ell > 0 {
            base * (pow10(ell) - 1) + digits_val(sd.rep_part, 10)
        } else {
            base as int
        };
        let den0 = if ell > 0 {
            pow10(ell) - 1
        } else {
            1int
        };
        if num0 == 0 {
            Ok(PfrVal::Zero { sign: sd.sign })
        } else if sd.exp > 0 {
            Ok(
                PfrVal::Rat {
                    sign: sd.sign,
                    num: (num0 * pow10(sd.exp as nat)) as nat,
                    den: den0 as nat,
                },
            )
        } else if sd.exp < 0 {
            Ok(
                PfrVal::Rat {
                    sign: sd.sign,
                    num: num0 as nat,
                    den: (den0 * pow10((-sd.exp) as nat)) as nat,
                },
            )
        } else {
            Ok(PfrVal::Rat { sign: sd.sign, num: num0 as nat, den: den0 as nat })
        }
    }
}

/// The value a decimal numeral denotes.
pub open spec fn spec_parse_decimal(s: Seq<char>) -> Result<PfrVal, ()> {
    match spec_split_decimal(s) {
        Ok(sd) => spec_frac_from_decimal(sd),
        Err(_) => Err(()),
    }
}

/// The value a numeric text denotes: the case-insensitive `inf` and `nan`
/// literals with optional signs; then `a/b` fraction notation split at
/// the first slash, the two sides' signs combining by parity, an empty
/// side meaning 1, and zero denominators giving NaN or a signed infinity;
/// then decimal notation.
pub open spec fn spec_parse_fraction(s: Seq<char>) -> Result<PfrVal, ()> {
    if is_ci_inf(s) || (s.len() >= 1 && s[0] == '+' && is_ci_inf(s.skip(1))) {
        Ok(PfrVal::Inf { sign: true })
    } else if s.len() >= 1 && s[0] == '-' && is_ci_inf(s.skip(1)) {
        Ok(PfrVal::Inf { sign: false })
    } else if is_ci_nan(s) || (s.len() >= 1 && (s[0] == '+' || s[0] == '-') && is_ci_nan(
        s.skip(1),
    )) {
        Ok(PfrVal::Nan)
    } else {
        match find2(s, '/', '/') {
            Some(idx) => {
                let num_src0 = s.take(idx);
                let den_src0 = s.skip(idx + 1);
                let flip1 = num_src0.len() > 0 && num_src0[0] == '-';
                let num_src = if num_src0.len() > 0 && (num_src0[0] == '-' || num_src0[0] == '+') {
                    num_src0.skip(1)
                } else {
                    num_src0
                };
                let flip2 = den_src0.len() > 0 && den_src0[0] == '-';
                let den_src = if den_src0.len() > 0 && (den_src0[0] == '-' || den_src0[0] == '+') {
                    den_src0.skip(1)
                } else {
                    den_src0
                };
                let sign = flip1 == flip2;
                let numv = if num_src.len() == 0 {
                    Some(1nat)
                } else {
                    nat_str_val(num_src, 10)
                };
                let denv = if den_src.len() == 0 {
                    Some(1nat)
                } else {
                    nat_str_val(den_src, 10)
                };
                match (numv, denv) {
                    (Some(n), Some(d)) => if d == 0 {
                        if n == 0 {
                            Ok(PfrVal::Nan)
                        } else {
                            Ok(PfrVal::Inf { sign })
                        }
                    } else if n == 0 {
                        Ok(PfrVal::Zero { sign })
                    } else {
                        Ok(PfrVal::Rat { sign, num: n, den: d })
                    },
                    _ => Err(()),
                }
            },
            None => spec_parse_decimal(s),
        }
    }
}

/// The extended value a parse result stands for.
pub open spec fn pfr_to_ext(p: PfrVal) -> ExtVal {
    match p {
        PfrVal::Nan => ExtVal::Nan,
        PfrVal::Inf { sign } => ExtVal::Inf { sign },
        PfrVal::Zero { sign } => ExtVal::Zero { sign },
        PfrVal::Rat { sign, num, den } => ExtVal::Fin {
            num: if sign {
                num as int
            } else {
                -(num as int)
            },
            den: den as int,
        },
    }
}

/// What parsing a text into an extended rational yields.
pub open spec fn mpq_from_str_spec(s: Seq<char>) -> Result<ExtVal, ()> {
    match spec_parse_fraction(s) {
        Ok(p) => Ok(pfr_to_ext(p)),
        Err(_) => Err(()),
    }
}

/// A fraction result of parsing always has nonzero numerator and
/// denominator: zero numerators collapse to the `Zero` variant and zero
/// denominators to infinity or NaN before a fraction is built.
pub proof fn lemma_parse_pos(s: Seq<char>)
    ensures
        spec_parse_fraction(s) matches Ok(PfrVal::Rat { num, den, .. }) ==> num >= 1 && den
            >= 1,
{
    if spec_parse_fraction(s) matches Ok(PfrVal::Rat { num, den, .. }) {
        match find2(s, '/', '/') {
            Some(_) => {},
            None => {
                match spec_split_decimal(s) {
                    Ok(sd) => {
                        let ell = sd.rep_part.len();
                        let base = digits_val(sd.int_part, 10);
                        vstd::arithmetic::power::lemma_pow_positive(10, ell);
                        if ell > 0 {
                            assert(pow10(ell) == 10 * pow10((ell - 1) as nat)) by {
                                reveal(vstd::arithmetic::power::pow);
                            }
                            vstd::arithmetic::power::lemma_pow_positive(10, (ell - 1) as nat);
                            assert(pow10(ell) >= 10) by (nonlinear_arith)
                                requires
                                    pow10(ell) == 10 * pow10((ell - 1) as nat),
                                    pow10((ell - 1) as nat) >= 1,
                            ;
                        }
                        let num0 = if ell > 0 {
                            base * (pow10(ell) - 1) + digits_val(sd.rep_part, 10)
                        } else {
                            base as int
                        };
                        let den0 = if ell > 0 {
                            pow10(ell) - 1
                        } else {
                            1int
                        };
                        assert(den0 >= 1);
                        if num0 != 0 {
                            if sd.exp > 0 {
                                vstd::arithmetic::power::lemma_pow_positive(
                                    10,
                                    sd.exp as nat,
                                );
                                assert(num0 * pow10(sd.exp as nat) >= 1) by (nonlinear_arith)
                                    requires
                                        num0 >= 1,
                                        pow10(sd.exp as nat) >= 1,
                                ;
                            } else if sd.exp < 0 {
                                vstd::arithmetic::power::lemma_pow_positive(
                                    10,
                                    (-sd.exp) as nat,
                                );
                                assert(den0 * pow10((-sd.exp) as nat) >= 1) by (nonlinear_arith)
                                    requires
                                        den0 >= 1,
                                        pow10((-sd.exp) as nat) >= 1,
                                ;
                            }
                        }
                    },
                    Err(_) => {},
                }
            },
        }
    }
}

/// The bracket cases of a numeral holding a decimal point, as
/// `spec_split_with_point` describes.
#[verifier::rlimit(100)]
fn split_with_point(sign: bool, before: &str, after: &str, exp0: i64) -> (r: Result<
    (bool, String, String, i64),
    NumError,
>)
    ensures
        match (r, spec_split_with_point(sign, before@, after@, exp0 as int)) {
            (Ok(t), Ok(sd)) => t.0 == sd.sign && t.1@ == sd.int_part && t.2@ == sd.rep_part
                && t.3 == sd.exp,
            (Err(e), Err(_)) => e == NumError::InvalidFormat,
            _ => false,
        },
{
    let before_n = before.unicode_len();
    let after_n = after.unicode_len();
    match (find2_str(before, '[', '['), rfind1_str(before, ']')) {
        (Some(l), Some(r)) => {
            if r < l + 1 {
                return Err(NumError::InvalidFormat);
            }
            let ip = before.substring_char(0, l);
            let rp = before.substring_char(l + 1, r);
            proof {
                assert(ip@ =~= before@.take(l as int));
                assert(rp@ =~= before@.subrange(l + 1, r as int));
            }
            let e: i128 = exp0 as i128 + (before_n - (r + 1)) as i128 + rp.unicode_len() as i128;
            if e < i64::MIN as i128 || e > i64::MAX as i128 {
                return Err(NumError::InvalidFormat);
            }
            Ok((sign, String::from_str(ip), String::from_str(rp), e as i64))
        },
        (Some(l), None) => {
            match rfind1_str(after, ']') {
                Some(r2) => {
                    let ip = before.substring_char(0, l);
                    let brep = before.substring_char(l + 1, before_n);
                    let atake = after.substring_char(0, r2);
                    proof {
                        assert(ip@ =~= before@.take(l as int));
                        assert(brep@ =~= before@.skip(l + 1));
                        assert(atake@ =~= after@.take(r2 as int));
                    }
                    let mut rp = String::from_str(brep);
                    rp.append(atake);
                    let e: i128 = exp0 as i128 + brep.unicode_len() as i128;
                    if e < i64::MIN as i128 || e > i64::MAX as i128 {
                        return Err(NumError::InvalidFormat);
                    }
                    Ok((sign, String::from_str(ip), rp, e as i64))
                },
                None => Err(NumError::InvalidFormat),
            }
        },
        (None, None) => {
            match (find2_str(after, '[', '['), rfind1_str(after, ']')) {
                (Some(l2), Some(r2)) => {
                    if r2 < l2 + 1 {
                        return Err(NumError::InvalidFormat);
                    }
                    let atake = after.substring_char(0, l2);
                    let rp = after.substring_char(l2 + 1, r2);
                    proof {
                        assert(atake@ =~= after@.take(l2 as int));
                        assert(rp@ =~= after@.subrange(l2 + 1, r2 as int));
                    }
                    let mut ip = String::from_str(before);
                    ip.append(atake);
                    let e: i128 = exp0 as i128 - l2 as i128;
                    if e < i64::MIN as i128 || e > i64::MAX as i128 {
                        return Err(NumError::InvalidFormat);
                    }
                    Ok((sign, ip, String::from_str(rp), e as i64))
                },
                (None, None) => {
                    let mut ip = String::from_str(before);
                    ip.append(after);
                    let e: i128 = exp0 as i128 - after_n as i128;
                    if e < i64::MIN as i128 || e > i64::MAX as i128 {
                        return Err(NumError::InvalidFormat);
                    }
                    proof {
                        reveal_strlit("");
                        assert(Seq::<char>::empty() =~= ""@);
                    }
                    Ok((sign, ip, String::from_str(""), e as i64))
                },
                _ => Err(NumError::InvalidFormat),
            }
        },
        _ => Err(NumError::InvalidFormat),
    }
}

/// The bracket cases of a sign-stripped numeral, as `spec_split_body`
/// describes.
#[verifier::rlimit(100)]
fn split_body(sign: bool, b: &str, exp0: i64) -> (r: Result<(bool, String, String, i64), NumError>)
    ensures
        match (r, spec_split_body(sign, b@, exp0 as int)) {
            (Ok(t), Ok(sd)) => t.0 == sd.sign && t.1@ == sd.int_part && t.2@ == sd.rep_part
                && t.3 == sd.exp,
            (Err(e), Err(_)) => e == NumError::InvalidFormat,
            _ => false,
        },
{
    let bn = b.unicode_len();
    match find2_str(b, '.', '.') {
        Some(p) => {
            let before = b.substring_char(0, p);
            let after = b.substring_char(p + 1, bn);
            proof {
                assert(before@ =~= b@.take(p as int));
                assert(after@ =~= b@.skip(p + 1));
            }
            split_with_point(sign, before, after, exp0)
        },
        None => {
            match (find2_str(b, '[', '['), rfind1_str(b, ']')) {
                (Some(l), Some(r)) => {
                    if r < l + 1 {
                        return Err(NumError::InvalidFormat);
                    }
                    let ip = b.substring_char(0, l);
                    let rp = b.substring_char(l + 1, r);
                    proof {
                        assert(ip@ =~= b@.take(l as int));
                        assert(rp@ =~= b@.subrange(l + 1, r as int));
                    }
                    let e: i128 = exp0 as i128 + rp.unicode_len() as i128;
                    if e < i64::MIN as i128 || e > i64::MAX as i128 {
                        return Err(NumError::InvalidFormat);
                    }
                    Ok((sign, String::from_str(ip), String::from_str(rp), e as i64))
                },
                (None, None) => {
                    proof {
                        reveal_strlit("");
                        assert(Seq::<char>::empty() =~= ""@);
                    }
                    Ok((sign, String::from_str(b), String::from_str(""), exp0))
                },
                _ => Err(NumError::InvalidFormat),
            }
        },
    }
}

/// Splits a decimal numeral, as `spec_split_decimal` describes.
fn split_decimal(s: &str) -> (r: Result<(bool, String, String, i64), NumError>)
    ensures
        match (r, spec_split_decimal(s@)) {
            (Ok(t), Ok(sd)) => t.0 == sd.sign && t.1@ == sd.int_part && t.2@ == sd.rep_part
                && t.3 == sd.exp,
            (Err(e), Err(_)) => e == NumError::InvalidFormat,
            _ => false,
        },
{
    let n = s.unicode_len();
    let fe = find2_str(s, 'E', 'e');
    let body: &str = match fe {
        Some(i) => s.substring_char(0, i),
        None => s,
    };
    proof {
        if let Some(i) = fe {
            assert(body@ =~= s@.take(i as int));
        }
    }
    let exp0: i64 = match fe {
        Some(i) => {
            let exp_src = s.substring_char(i + 1, n);
            proof {
                assert(exp_src@ =~= s@.skip(i + 1));
            }
            match parse_i64(exp_src) {
                Some(v) => v,
                None => {
                    return Err(NumError::InvalidFormat);
                },
            }
        },
        None => 0,
    };
    let bn0 = body.unicode_len();
    let has_sign = bn0 >= 1 && {
        let c = body.get_char(0);
        c == '-' || c == '+'
    };
    let sign = !(bn0 >= 1 && body.get_char(0) == '-');
    let b: &str = if has_sign {
        body.substring_char(1, bn0)
    } else {
        body
    };
    proof {
        if has_sign {
            assert(b@ =~= body@.skip(1));
        }
    }
    split_body(sign, b, exp0)
}

/// Computes the value of a split, as `spec_frac_from_decimal` describes.
fn frac_from_decimal(sign: bool, ip: &str, rp: &str, exp: i64) -> (r: Result<
    ParseFractionResult,
    NumError,
>)
    ensures
        match (r, spec_frac_from_decimal(
            SplitDec { sign, int_part: ip@, rep_part: rp@, exp: exp as int },
        )) {
            (Ok(p), Ok(m)) => p@ == m,
            (Err(e), Err(_)) => e == NumError::InvalidFormat,
            _ => false,
        },
{
    if !all_digits10_str(ip) {
        return Err(NumError::InvalidFormat);
    }
    if !all_digits10_str(rp) {
        return Err(NumError::InvalidFormat);
    }
    let ell = rp.unicode_len();
    let base: Natural = if ip.unicode_len() == 0 {
        nat_from_u64(0)
    } else {
        match nat_from_str(ip) {
            Some(v) => v,
            None => {
                proof {
                    assert(ip@[0] != '+');
                }
                return Err(NumError::InvalidFormat);
            },
        }
    };
    let ten = nat_from_u64(10);
    let (num0, den0): (Natural, Natural) = if ell > 0 {
        let p = nat_pow(&ten, ell as u64);
        proof {
            vstd::arithmetic::power::lemma_pow_positive(10, ell as nat);
        }
        let den = match nat_checked_sub(&p, &nat_from_u64(1)) {
            Some(d) => d,
            None => {
                proof {
                    assert(false);
                }
                return Err(NumError::InvalidFormat);
            },
        };
        let repv = match nat_from_str(rp) {
            Some(v) => v,
            None => {
                proof {
                    assert(rp@[0] != '+');
                    assert(false);
                }
                return Err(NumError::InvalidFormat);
            },
        };
        (nat_add(&nat_mul(&base, &den), &repv), den)
    } else {
        (base, nat_from_u64(1))
    };
    if nat_eq(&num0, &nat_from_u64(0)) {
        return Ok(ParseFractionResult::Zero(sign));
    }
    if exp > 0 {
        let scale = nat_pow(&ten, exp as u64);
        Ok(ParseFractionResult::Rational(sign, nat_mul(&num0, &scale), den0))
    } else if exp < 0 {
        let mag: u64 = if exp == i64::MIN {
            9223372036854775808u64
        } else {
            (-exp) as u64
        };
        let scale = nat_pow(&ten, mag);
        Ok(ParseFractionResult::Rational(sign, num0, nat_mul(&den0, &scale)))
    } else {
        Ok(ParseFractionResult::Rational(sign, num0, den0))
    }
}

impl ParseFractionResult {
    /// Parses a numeric text, as `spec_parse_fraction` describes.
    pub fn from_str(s: &str) -> (r: Result<ParseFractionResult, NumError>)
        ensures
            match (r, spec_parse_fraction(s@)) {
                (Ok(p), Ok(m)) => p@ == m,
                (Err(e), Err(_)) => e == NumError::InvalidFormat,
                _ => false,
            },
    {
        let n = s.unicode_len();
        let minus = n >= 1 && s.get_char(0) == '-';
        let plus = n >= 1 && s.get_char(0) == '+';
        if check_ci_inf(s) {
            return Ok(ParseFractionResult::Inf(true));
        }
        if minus || plus {
            let rest = s.substring_char(1, n);
            proof {
                assert(rest@ =~= s@.skip(1));
            }
            if check_ci_inf(rest) {
                return Ok(ParseFractionResult::Inf(!minus));
            }
            if check_ci_nan(rest) {
                return Ok(ParseFractionResult::NaN);
            }
        }
        if check_ci_nan(s) {
            return Ok(ParseFractionResult::NaN);
        }
        match find2_str(s, '/', '/') {
            Some(idx) => {
                let num_src0 = s.substring_char(0, idx);
                let den_src0 = s.substring_char(idx + 1, n);
                proof {
                    assert(num_src0@ =~= s@.take(idx as int));
                    assert(den_src0@ =~= s@.skip(idx + 1));
                }
                let nn = num_src0.unicode_len();
                let dn = den_src0.unicode_len();
                let nsign = nn >= 1 && {
                    let c = num_src0.get_char(0);
                    c == '-' || c == '+'
                };
                let flip1 = nn >= 1 && num_src0.get_char(0) == '-';
                let num_src: &str = if nsign {
                    num_src0.substring_char(1, nn)
                } else {
                    num_src0
                };
                proof {
                    if nsign {
                        assert(num_src@ =~= num_src0@.skip(1));
                    }
                }
                let dsign = dn >= 1 && {
                    let c = den_src0.get_char(0);
                    c == '-' || c == '+'
                };
                let flip2 = dn >= 1 && den_src0.get_char(0) == '-';
                let den_src: &str = if dsign {
                    den_src0.substring_char(1, dn)
                } else {
                    den_src0
                };
                proof {
                    if dsign {
                        assert(den_src@ =~= den_src0@.skip(1));
                    }
                }
                let sign = flip1 == flip2;
                let numv: Natural = if num_src.unicode_len() == 0 {
                    nat_from_u64(1)
                } else {
                    match nat_from_str(num_src) {
                        Some(v) => v,
                        None => {
                            return Err(NumError::InvalidFormat);
                        },
                    }
                };
                let denv: Natural = if den_src.unicode_len() == 0 {
                    nat_from_u64(1)
                } else {
                    match nat_from_str(den_src) {
                        Some(v) => v,
                        None => {
                            return Err(NumError::InvalidFormat);
                        },
                    }
                };
                let zero = nat_from_u64(0);
                if nat_eq(&denv, &zero) {
                    if nat_eq(&numv, &zero) {
                        Ok(ParseFractionResult::NaN)
                    } else {
                        Ok(ParseFractionResult::Inf(sign))
                    }
                } else if nat_eq(&numv, &zero) {
                    Ok(ParseFractionResult::Zero(sign))
                } else {
                    Ok(ParseFractionResult::Rational(sign, numv, denv))
                }
            },
            None => {
                match split_decimal(s) {
                    Ok((sign, ip, rp, exp)) => frac_from_decimal(
                        sign,
                        ip.as_str(),
                        rp.as_str(),
                        exp,
                    ),
                    Err(e) => Err(e),
                }
            },
        }
    }
}

/// The parser-facing normalization of user-visible number text: the
/// typographic minus becomes an ASCII hyphen, and both the infinity sign
/// and the two-letter `oo` become the literal `inf`.
pub open spec fn normalize_spec(s: Seq<char>) -> Seq<char>
    decreases s.len(),
{
    if s.len() == 0 {
        Seq::empty()
    } else if s[0] == '\u{2212}' {
        seq!['-'] + normalize_spec(s.skip(1))
    } else if s[0] == '\u{221e}' {
        seq!['i', 'n', 'f'] + normalize_spec(s.skip(1))
    } else if s.len() >= 2 && s[0] == 'o' && s[1] == 'o' {
        seq!['i', 'n', 'f'] + normalize_spec(s.skip(2))
    } else {
        seq![s[0]] + normalize_spec(s.skip(1))
    }
}

/// A character that normalization passes through unchanged (and that
/// cannot start a rewritten pair).
pub open spec fn plain_char(c: char) -> bool {
    c != '\u{2212}' && c != '\u{221e}' && c != 'o'
}

/// Normalization leaves a string of plain characters unchanged.
pub proof fn lemma_normalize_plain(s: Seq<char>)
    requires
        forall|j: int| 0 <= j < s.len() ==> plain_char(#[trigger] s[j]),
    ensures
        normalize_spec(s) == s,
    decreases s.len(),
{
    if s.len() > 0 {
        assert(forall|j: int| 0 <= j < s.skip(1).len() ==> plain_char(#[trigger] s.skip(1)[j]))
            by {
            assert(forall|j: int| 0 <= j < s.skip(1).len() ==> s.skip(1)[j] == s[j + 1]);
        }
        lemma_normalize_plain(s.skip(1));
        assert(seq![s[0]] + s.skip(1) =~= s);
    }
}

/// Normalization distributes over a plain prefix.
pub proof fn lemma_normalize_concat_plain(a: Seq<char>, b: Seq<char>)
    requires
        forall|j: int| 0 <= j < a.len() ==> plain_char(#[trigger] a[j]),
    ensures
        normalize_spec(a + b) == a + normalize_spec(b),
    decreases a.len(),
{
    if a.len() == 0 {
        assert(a + b =~= b);
        assert(a + normalize_spec(b) =~= normalize_spec(b));
    } else {
        let s = a + b;
        assert(s[0] == a[0]);
        assert(forall|j: int| 0 <= j < a.skip(1).len() ==> plain_char(#[trigger] a.skip(1)[j]))
            by {
            assert(forall|j: int| 0 <= j < a.skip(1).len() ==> a.skip(1)[j] == a[j + 1]);
        }
        lemma_normalize_concat_plain(a.skip(1), b);
        assert(s.skip(1) =~= a.skip(1) + b);
        assert(seq![a[0]] + (a.skip(1) + normalize_spec(b)) =~= a + normalize_spec(b));
    }
}

/// Normalization turns a typographic-minus prefix into a hyphen.
pub proof fn lemma_normalize_minus(rest: Seq<char>)
    ensures
        normalize_spec(seq!['\u{2212}'] + rest) == seq!['-'] + normalize_spec(rest),
{
    let s = seq!['\u{2212}'] + rest;
    assert(s[0] == '\u{2212}');
    assert(s.skip(1) =~= rest);
}

/// Normalization expands a lone infinity sign to the `inf` literal.
pub proof fn lemma_normalize_inf_sign()
    ensures
        normalize_spec(seq!['\u{221e}']) == seq!['i', 'n', 'f'],
{
    let s = seq!['\u{221e}'];
    assert(s[0] == '\u{221e}');
    assert(s[0] != '\u{2212}');
    assert(s.skip(1) =~= Seq::<char>::empty());
    assert(normalize_spec(Seq::<char>::empty()) =~= Seq::<char>::empty());
    assert(normalize_spec(s) == seq!['i', 'n', 'f'] + normalize_spec(s.skip(1)));
    assert(seq!['i', 'n', 'f'] + Seq::<char>::empty() =~= seq!['i', 'n', 'f']);
}

/// Rewrites number text as `normalize_spec` describes, so that formatter
/// output and hand-typed variants parse.
pub fn normalize_number_text(s: &str) -> (r: String)
    ensures
        r@ == normalize_spec(s@),
{
    proof {
        reveal_strlit("-");
        reveal_strlit("inf");
        assert("-"@ =~= seq!['-']);
        assert("inf"@ =~= seq!['i', 'n', 'f']);
    }
    let n = s.unicode_len();
    let mut out = String::new();
    let mut i: usize = 0;
    proof {
        assert(s@.skip(0) =~= s@);
        assert(Seq::<char>::empty() + normalize_spec(s@) =~= normalize_spec(s@));
    }
    while i < n
        invariant
            n == s@.len(),
            i <= n,
            "-"@ =~= seq!['-'],
            "inf"@ =~= seq!['i', 'n', 'f'],
            normalize_spec(s@) == out@ + normalize_spec(s@.skip(i as int)),
        decreases n - i,
    {
        let c = s.get_char(i);
        let ghost rest = s@.skip(i as int);
        let ghost old_out = out@;
        proof {
            assert(rest[0] == s@[i as int]);
            assert(rest.skip(1) =~= s@.skip(i + 1));
        }
        if c == '\u{2212}' {
            out.append("-");
            i = i + 1;
        } else if c == '\u{221e}' {
            out.append("inf");
            i = i + 1;
        } else if c == 'o' && i + 1 < n && s.get_char(i + 1) == 'o' {
            proof {
                assert(rest.len() >= 2 && rest[1] == s@[i + 1]);
                assert(rest.skip(2) =~= s@.skip(i + 2));
            }
            out.append("inf");
            i = i + 2;
        } else {
            crate::bignum::string_push_char(&mut out, c);
            proof {
                assert(out@ =~= old_out + seq![c]);
            }
            i = i + 1;
        }
    }
    proof {
        assert(s@.skip(n as int) =~= Seq::<char>::empty());
        assert(out@ + Seq::<char>::empty() =~= out@);
    }
    out
}

impl MpqExt {
    /// Adopts a parse result as an extended rational; a fraction result
    /// is reduced to canonical form.
    pub fn from_parse_result(p: ParseFractionResult) -> (r: Self)
        requires
            p@ matches PfrVal::Rat { num, den, .. } ==> num >= 1 && den >= 1,
        ensures
            r.wf(),
            same_val(r@, pfr_to_ext(p@)),
    {
        match p {
            ParseFractionResult::NaN => MpqExt::NaN,
            ParseFractionResult::Zero(s) => MpqExt::Zero(s),
            ParseFractionResult::Inf(s) => MpqExt::Inf(s),
            ParseFractionResult::Rational(s, n, d) => MpqExt::Rational(
                rat_from_sign_and_naturals(s, &n, &d),
            ),
        }
    }

    /// Parses a numeric text into an extended rational, as
    /// `mpq_from_str_spec` describes.
    pub fn from_str(s: &str) -> (r: Result<Self, NumError>)
        ensures
            match (r, mpq_from_str_spec(s@)) {
                (Ok(v), Ok(m)) => v.wf() && same_val(v@, m),
                (Err(e), Err(_)) => e == NumError::InvalidFormat,
                _ => false,
            },
    {
        proof {
            lemma_parse_pos(s@);
        }
        match ParseFractionResult::from_str(s) {
            Ok(p) => Ok(MpqExt::from_parse_result(p)),
            Err(e) => Err(e),
        }
    }
}

} // verus!
