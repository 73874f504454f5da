//! The general laws of the extended-number algebra, stated over the spec
//! model and proved once for all three domains.

use vstd::prelude::*;

use crate::digits::{
    all_digits, digits_val, is_base_digit, lemma_find2_absent, lemma_find2_at,
    lemma_rfind1_absent, lemma_str_of_base, nat_str_val, str_of_base,
};
use crate::ext::{
    abs_int, add_ext, cmp_lax_ext, cmp_strict_ext, div_int_ext, div_rat_ext, eq_ext, ext_one,
    mul_ext, neg_ext, same_val, ExtVal,
};
use crate::int_ext::{mpz_from_serial_spec, mpz_serial_spec};
use crate::layout::{layout_spec, FracLayoutOptions};
use crate::nat_ext::{mpn_from_serial_spec, mpn_serial_spec};
use crate::parsing::{
    lemma_normalize_concat_plain, lemma_normalize_inf_sign, lemma_normalize_minus,
    lemma_normalize_plain, mpq_from_str_spec, normalize_spec, plain_char, spec_parse_fraction,
    PfrVal,
};

verus! {

/// Absorption: NaN absorbs through addition and multiplication from
/// either side, and compares unordered and unequal with everything,
/// itself included.
pub proof fn lemma_absorption(x: ExtVal)
    ensures
        add_ext(x, ExtVal::Nan) == ExtVal::Nan,
        add_ext(ExtVal::Nan, x) == ExtVal::Nan,
        mul_ext(x, ExtVal::Nan) == ExtVal::Nan,
        mul_ext(ExtVal::Nan, x) == ExtVal::Nan,
        cmp_lax_ext(x, ExtVal::Nan) == None::<core::cmp::Ordering>,
        cmp_lax_ext(ExtVal::Nan, x) == None::<core::cmp::Ordering>,
        cmp_strict_ext(x, ExtVal::Nan) == None::<core::cmp::Ordering>,
        cmp_strict_ext(ExtVal::Nan, x) == None::<core::cmp::Ordering>,
        !eq_ext(x, ExtVal::Nan),
        !eq_ext(ExtVal::Nan, x),
{
}

/// Identity laws for finite values: positive zero is an additive identity
/// up to the lax equality (adding it to negative zero yields positive
/// zero), exactly on everything else; one is a multiplicative identity up
/// to structural sameness.
pub proof fn lemma_identity(x: ExtVal)
    requires
        x.wf(),
        x is Zero || x is Fin,
    ensures
        eq_ext(add_ext(x, ExtVal::Zero { sign: true }), x),
        !(x is Zero) ==> add_ext(x, ExtVal::Zero { sign: true }) == x,
        same_val(mul_ext(x, ext_one()), x),
{
    match x {
        ExtVal::Fin { num, den } => {
            assert(num * 1 * den == num * (den * 1)) by (nonlinear_arith);
        },
        _ => {},
    }
}

/// The indeterminate forms: `0 * inf`, `0 / 0` and `inf / inf` are NaN in
/// both the rational and the integral division, and opposite-signed
/// infinities sum to NaN while same-signed ones keep their sign.
pub proof fn lemma_indeterminate(s1: bool, s2: bool)
    ensures
        mul_ext(ExtVal::Zero { sign: s1 }, ExtVal::Inf { sign: s2 }) == ExtVal::Nan,
        mul_ext(ExtVal::Inf { sign: s1 }, ExtVal::Zero { sign: s2 }) == ExtVal::Nan,
        div_rat_ext(ExtVal::Zero { sign: s1 }, ExtVal::Zero { sign: s2 }) == ExtVal::Nan,
        div_rat_ext(ExtVal::Inf { sign: s1 }, ExtVal::Inf { sign: s2 }) == ExtVal::Nan,
        div_int_ext(ExtVal::Zero { sign: s1 }, ExtVal::Zero { sign: s2 }) == ExtVal::Nan,
        div_int_ext(ExtVal::Inf { sign: s1 }, ExtVal::Inf { sign: s2 }) == ExtVal::Nan,
        s1 != s2 ==> add_ext(ExtVal::Inf { sign: s1 }, ExtVal::Inf { sign: s2 })
            == ExtVal::Nan,
        s1 == s2 ==> add_ext(ExtVal::Inf { sign: s1 }, ExtVal::Inf { sign: s2 }) == (
        ExtVal::Inf { sign: s1 }),
{
}

/// Sign propagation: the sign of a zero or infinity result of
/// multiplication or division is the equality (XNOR) of the operand
/// signs, a finite operand contributing the sign of its numerator; and
/// negation flips the sign of zero and infinity while fixing NaN.
pub proof fn lemma_sign_propagation(s1: bool, s2: bool, x: ExtVal)
    requires
        x.wf(),
    ensures
        mul_ext(ExtVal::Zero { sign: s1 }, ExtVal::Zero { sign: s2 }) == (ExtVal::Zero {
            sign: s1 == s2,
        }),
        mul_ext(ExtVal::Inf { sign: s1 }, ExtVal::Inf { sign: s2 }) == (ExtVal::Inf {
            sign: s1 == s2,
        }),
        x matches ExtVal::Fin { num, .. } ==> mul_ext(ExtVal::Zero { sign: s1 }, x) == (
        ExtVal::Zero { sign: s1 == (num >= 0) }),
        x matches ExtVal::Fin { num, .. } ==> mul_ext(ExtVal::Inf { sign: s1 }, x) == (
        ExtVal::Inf { sign: s1 == (num >= 0) }),
        div_rat_ext(ExtVal::Zero { sign: s1 }, ExtVal::Inf { sign: s2 }) == (ExtVal::Zero {
            sign: s1 == s2,
        }),
        div_rat_ext(ExtVal::Inf { sign: s1 }, ExtVal::Zero { sign: s2 }) == (ExtVal::Inf {
            sign: s1 == s2,
        }),
        x matches ExtVal::Fin { num, .. } ==> div_rat_ext(x, ExtVal::Zero { sign: s2 }) == (
        ExtVal::Inf { sign: (num >= 0) == s2 }),
        neg_ext(ExtVal::Zero { sign: s1 }) == (ExtVal::Zero { sign: !s1 }),
        neg_ext(ExtVal::Inf { sign: s1 }) == (ExtVal::Inf { sign: !s1 }),
        neg_ext(ExtVal::Nan) == ExtVal::Nan,
{
}

/// The canonical digits of a value are plain digits: in particular their
/// first character is never a sign, so they read back as an unsigned
/// numeral denoting the value.
proof fn lemma_digits_read_back(n: nat, base: nat)
    requires
        2 <= base <= 36,
    ensures
        nat_str_val(str_of_base(n, base), base) == Some(n),
    decreases n,
{
    lemma_str_of_base(n, base);
    let s = str_of_base(n, base);
    assert(crate::digits::is_base_digit(s[0], base));
    assert(s[0] != '+');
}

/// Round trip of the extended-natural serial form: reading a serial
/// string back yields the value it was written from.
pub proof fn lemma_mpn_serial_round_trip(v: ExtVal)
    requires
        v.wf_unsigned(),
    ensures
        mpn_from_serial_spec(mpn_serial_spec(v)) == Ok::<ExtVal, ()>(v),
{
    let s = mpn_serial_spec(v);
    match v {
        ExtVal::Fin { num, den } => {
            let hex = str_of_base(num as nat, 16);
            lemma_digits_read_back(num as nat, 16);
            assert(s.len() == 2 + hex.len());
            assert(s[0] == '0' && s[1] == 'x');
            assert(!(s =~= seq!['n', 'a', 'n']));
            assert(!(s =~= seq!['i', 'n', 'f']));
            assert(!(s =~= seq!['0']));
            assert(s.skip(2) =~= hex);
        },
        _ => {},
    }
}

/// Round trip of the extended-integer serial form: reading a serial
/// string back yields the value it was written from.
pub proof fn lemma_mpz_serial_round_trip(v: ExtVal)
    requires
        v.wf_integral(),
    ensures
        mpz_from_serial_spec(mpz_serial_spec(v)) == Ok::<ExtVal, ()>(v),
{
    let s = mpz_serial_spec(v);
    match v {
        ExtVal::Fin { num, den } => {
            let hex = str_of_base(abs_int(num) as nat, 16);
            lemma_digits_read_back(abs_int(num) as nat, 16);
            if num > 0 {
                assert(s.len() == 2 + hex.len());
                assert(s[0] == '0' && s[1] == 'x');
                assert(!(s =~= seq!['n', 'a', 'n']));
                assert(!(s =~= seq!['0']));
                assert(!(s =~= seq!['-', '0']));
                assert(!(s =~= seq!['i', 'n', 'f']));
                assert(!(s =~= seq!['-', 'i', 'n', 'f']));
                assert(s.skip(2) =~= hex);
            } else {
                assert(s.len() == 3 + hex.len());
                assert(s[0] == '-' && s[1] == '0' && s[2] == 'x');
                assert(!(s =~= seq!['n', 'a', 'n']));
                assert(!(s =~= seq!['0']));
                assert(!(s =~= seq!['-', '0']));
                assert(!(s =~= seq!['i', 'n', 'f']));
                assert(!(s =~= seq!['-', 'i', 'n', 'f']));
                assert(s.skip(3) =~= hex);
            }
        },
        ExtVal::Zero { sign } => {
            if sign {
                assert(s =~= seq!['0']);
            } else {
                assert(!(s =~= seq!['0']));
            }
        },
        ExtVal::Inf { sign } => {
            if !sign {
                assert(!(s =~= seq!['n', 'a', 'n']));
                assert(!(s =~= seq!['0']));
                assert(!(s =~= seq!['-', '0']));
                assert(!(s =~= seq!['i', 'n', 'f']));
            }
        },
        ExtVal::Nan => {},
    }
}

/// Parsing the six renderings of a signed zero: a bare `0`, optionally
/// signed, optionally with a forced `/1` denominator.
proof fn lemma_parse_zero_forms()
    ensures
        spec_parse_fraction(seq!['0']) == Ok::<PfrVal, ()>(PfrVal::Zero { sign: true }),
        spec_parse_fraction(seq!['+', '0']) == Ok::<PfrVal, ()>(PfrVal::Zero { sign: true }),
        spec_parse_fraction(seq!['-', '0']) == Ok::<PfrVal, ()>(PfrVal::Zero { sign: false }),
        spec_parse_fraction(seq!['0', '/', '1']) == Ok::<PfrVal, ()>(
            PfrVal::Zero { sign: true },
        ),
        spec_parse_fraction(seq!['+', '0', '/', '1']) == Ok::<PfrVal, ()>(
            PfrVal::Zero { sign: true },
        ),
        spec_parse_fraction(seq!['-', '0', '/', '1']) == Ok::<PfrVal, ()>(
            PfrVal::Zero { sign: false },
        ),
{
    assert(digits_val(Seq::<char>::empty(), 10) == 0);
    assert(seq!['0'].drop_last() =~= Seq::<char>::empty());
    assert(digits_val(seq!['0'], 10) == digits_val(seq!['0'].drop_last(), 10) * 10
        + crate::digits::base_digit_val(seq!['0'].last(), 10));
    assert(digits_val(seq!['0'], 10) == 0);
    assert(seq!['1'].drop_last() =~= Seq::<char>::empty());
    assert(digits_val(seq!['1'], 10) == digits_val(seq!['1'].drop_last(), 10) * 10
        + crate::digits::base_digit_val(seq!['1'].last(), 10));
    assert(digits_val(seq!['1'], 10) == 1);
    assert(all_digits(seq!['0'], 10));
    assert(all_digits(seq!['1'], 10));
    let bare = seq!['0'];
    lemma_find2_absent(bare, '/', '/');
    lemma_find2_absent(bare, 'E', 'e');
    lemma_find2_absent(bare, '.', '.');
    lemma_find2_absent(bare, '[', '[');
    lemma_rfind1_absent(bare, ']');
    let plus = seq!['+', '0'];
    lemma_find2_absent(plus, '/', '/');
    lemma_find2_absent(plus, 'E', 'e');
    assert(plus.skip(1) =~= bare);
    let minus = seq!['-', '0'];
    lemma_find2_absent(minus, '/', '/');
    lemma_find2_absent(minus, 'E', 'e');
    assert(minus.skip(1) =~= bare);
    let frac = seq!['0', '/', '1'];
    lemma_find2_at(frac, '/', '/', 1);
    assert(frac.take(1) =~= seq!['0']);
    assert(frac.skip(2) =~= seq!['1']);
    let plus_frac = seq!['+', '0', '/', '1'];
    lemma_find2_at(plus_frac, '/', '/', 2);
    assert(plus_frac.take(2) =~= seq!['+', '0']);
    assert(plus_frac.take(2).skip(1) =~= seq!['0']);
    assert(plus_frac.skip(3) =~= seq!['1']);
    let minus_frac = seq!['-', '0', '/', '1'];
    lemma_find2_at(minus_frac, '/', '/', 2);
    assert(minus_frac.take(2) =~= seq!['-', '0']);
    assert(minus_frac.take(2).skip(1) =~= seq!['0']);
    assert(minus_frac.skip(3) =~= seq!['1']);
}

/// Parsing the three renderings of the finite part of a fraction text:
/// optionally plus-signed when non-negative, minus-signed when negative,
/// and with the denominator either omitted (when 1) or written out.
#[verifier::rlimit(100)]
proof fn lemma_parse_fin_forms(num: int, den: int, plus: bool, force_den: bool)
    requires
        num != 0,
        den >= 1,
    ensures
        ({
            let digits = str_of_base(abs_int(num) as nat, 10);
            let dend = str_of_base(den as nat, 10);
            let prefix: Seq<char> = if num < 0 {
                seq!['-']
            } else if plus {
                seq!['+']
            } else {
                Seq::empty()
            };
            let text = if force_den || den != 1 {
                prefix + digits + seq!['/'] + dend
            } else {
                prefix + digits
            };
            spec_parse_fraction(text) == Ok::<PfrVal, ()>(
                PfrVal::Rat { sign: num >= 0, num: abs_int(num) as nat, den: den as nat },
            )
        }),
{
    let mag = abs_int(num) as nat;
    let digits = str_of_base(mag, 10);
    let dend = str_of_base(den as nat, 10);
    let prefix: Seq<char> = if num < 0 {
        seq!['-']
    } else if plus {
        seq!['+']
    } else {
        Seq::empty()
    };
    lemma_str_of_base(mag, 10);
    lemma_digits_read_back(mag, 10);
    lemma_digits_plain(digits);
    lemma_str_of_base(den as nat, 10);
    lemma_digits_read_back(den as nat, 10);
    lemma_digits_plain(dend);
    if force_den || den != 1 {
        let text = prefix + digits + seq!['/'] + dend;
        let k = prefix.len() + digits.len();
        assert(text[k as int] == '/');
        assert(forall|j: int| 0 <= j < k ==> text[j] != '/');
        lemma_find2_at(text, '/', '/', k as int);
        if text.len() >= 1 && (text[0] == '+' || text[0] == '-') {
            assert(!crate::digits::is_ci_inf(text.skip(1)) && !crate::digits::is_ci_nan(
                text.skip(1),
            )) by {
                assert(text.skip(1)[0] == text[1]);
                assert(48 <= text[1] as u32 <= 57);
            }
        }
        let num_src0 = text.take(k as int);
        let den_src0 = text.skip(k as int + 1);
        assert(num_src0 =~= prefix + digits);
        assert(den_src0 =~= dend);
        if num < 0 || plus {
            assert(num_src0.skip(1) =~= digits);
        }
        assert(48 <= den_src0[0] as u32 <= 57);
        assert(nat_str_val(digits, 10) == Some(mag));
        assert(nat_str_val(dend, 10) == Some(den as nat));
    } else {
        let text = prefix + digits;
        assert(forall|j: int| 0 <= j < text.len() ==> (text[j] == '-' || text[j] == '+' || 48
            <= (#[trigger] text[j]) as u32 <= 57));
        lemma_find2_absent(text, '/', '/');
        lemma_find2_absent(text, 'E', 'e');
        if num < 0 || plus {
            assert(text[0] == prefix[0]);
            assert(text.skip(1) =~= digits);
            assert(!crate::digits::is_ci_inf(text.skip(1)) && !crate::digits::is_ci_nan(
                text.skip(1),
            )) by {
                assert(48 <= digits[0] as u32 <= 57);
            }
        } else {
            assert(text =~= digits);
            assert(48 <= text[0] as u32 <= 57);
        }
        let b = if text.len() > 0 && (text[0] == '-' || text[0] == '+') {
            text.skip(1)
        } else {
            text
        };
        assert(b =~= digits);
        lemma_find2_absent(b, '.', '.');
        lemma_find2_absent(b, '[', '[');
        lemma_rfind1_absent(b, ']');
        assert(digits_val(digits, 10) == mag);
        assert(mag >= 1);
    }
}

/// The infinity arm of the layout round trip.
proof fn lemma_layout_rt_inf(sign: bool, o: FracLayoutOptions)
    ensures
        mpq_from_str_spec(normalize_spec(layout_spec(ExtVal::Inf { sign }, o))) == Ok::<
            ExtVal,
            (),
        >(ExtVal::Inf { sign }),
{
    let s = layout_spec(ExtVal::Inf { sign }, o);
    let inf_seq = seq!['\u{221e}'];
    lemma_normalize_inf_sign();
    if sign {
        if o.plus_sign || o.signed_inf {
            assert(s =~= seq!['+'] + inf_seq);
            lemma_normalize_concat_plain(seq!['+'], inf_seq);
            assert(normalize_spec(s) =~= seq!['+', 'i', 'n', 'f']);
            assert(normalize_spec(s).skip(1) =~= seq!['i', 'n', 'f']);
        } else {
            assert(s =~= inf_seq);
        }
    } else {
        if o.hyphen_minus {
            assert(s =~= seq!['-'] + inf_seq);
            lemma_normalize_concat_plain(seq!['-'], inf_seq);
        } else {
            assert(s =~= seq!['\u{2212}'] + inf_seq);
            lemma_normalize_minus(inf_seq);
        }
        assert(normalize_spec(s) =~= seq!['-', 'i', 'n', 'f']);
        assert(normalize_spec(s).skip(1) =~= seq!['i', 'n', 'f']);
    }
}

/// The zero arm of the layout round trip.
#[verifier::rlimit(100)]
proof fn lemma_layout_rt_zero(sign: bool, o: FracLayoutOptions)
    requires
        !sign ==> o.signed_zero,
    ensures
        mpq_from_str_spec(normalize_spec(layout_spec(ExtVal::Zero { sign }, o))) == Ok::<
            ExtVal,
            (),
        >(ExtVal::Zero { sign }),
{
    let s = layout_spec(ExtVal::Zero { sign }, o);
    lemma_parse_zero_forms();
    let body: Seq<char> = if o.denom_one {
        seq!['0', '/', '1']
    } else {
        seq!['0']
    };
    assert(forall|j: int| 0 <= j < body.len() ==> plain_char(#[trigger] body[j]));
    if o.signed_zero {
        if sign {
            if o.plus_sign {
                assert(s =~= seq!['+'] + body);
                lemma_normalize_concat_plain(seq!['+'], body);
                lemma_normalize_plain(body);
                assert(normalize_spec(s) =~= seq!['+'] + body);
            } else {
                assert(s =~= body);
                lemma_normalize_plain(s);
            }
        } else {
            if o.hyphen_minus {
                assert(s =~= seq!['-'] + body);
                lemma_normalize_concat_plain(seq!['-'], body);
            } else {
                assert(s =~= seq!['\u{2212}'] + body);
                lemma_normalize_minus(body);
            }
            lemma_normalize_plain(body);
            assert(normalize_spec(s) =~= seq!['-'] + body);
        }
    } else {
        assert(s =~= body);
        lemma_normalize_plain(s);
    }
    if o.denom_one {
        assert(seq!['+'] + body =~= seq!['+', '0', '/', '1']);
        assert(seq!['-'] + body =~= seq!['-', '0', '/', '1']);
    } else {
        assert(seq!['+'] + body =~= seq!['+', '0']);
        assert(seq!['-'] + body =~= seq!['-', '0']);
    }
}

/// The finite arm of the layout round trip.
#[verifier::rlimit(100)]
proof fn lemma_layout_rt_fin(num: int, den: int, o: FracLayoutOptions)
    requires
        num != 0,
        den >= 1,
    ensures
        mpq_from_str_spec(normalize_spec(layout_spec(ExtVal::Fin { num, den }, o))) == Ok::<
            ExtVal,
            (),
        >(ExtVal::Fin { num, den }),
{
    let s = layout_spec(ExtVal::Fin { num, den }, o);
    let mag = abs_int(num) as nat;
    let digits = str_of_base(mag, 10);
    let dend = str_of_base(den as nat, 10);
    lemma_str_of_base(mag, 10);
    lemma_digits_plain(digits);
    lemma_str_of_base(den as nat, 10);
    lemma_digits_plain(dend);
    lemma_parse_fin_forms(num, den, o.plus_sign, o.denom_one);
    let prefix: Seq<char> = if num < 0 {
        seq!['-']
    } else if o.plus_sign {
        seq!['+']
    } else {
        Seq::empty()
    };
    let tail: Seq<char> = if o.denom_one || den != 1 {
        digits + seq!['/'] + dend
    } else {
        digits
    };
    let text = prefix + tail;
    assert(forall|j: int| 0 <= j < tail.len() ==> plain_char(#[trigger] tail[j]));
    if num < 0 && !o.hyphen_minus {
        assert(s =~= seq!['\u{2212}'] + tail);
        lemma_normalize_minus(tail);
        lemma_normalize_plain(tail);
        assert(normalize_spec(s) =~= text);
    } else {
        assert(s =~= text);
        assert(forall|j: int| 0 <= j < s.len() ==> plain_char(#[trigger] s[j]));
        lemma_normalize_plain(s);
    }
    if o.denom_one || den != 1 {
        assert(text =~= prefix + digits + seq!['/'] + dend);
    }
}

/// Round trip of the layout formatter through the text normalizer and the
/// parser: for every flag combination, formatting a value and parsing the
/// normalized text yields the value back. The one caveat is negative
/// zero, whose sign is only written (and hence only read back) when the
/// signed-zero flag is on.
pub proof fn lemma_layout_round_trip(v: ExtVal, o: FracLayoutOptions)
    requires
        v.wf(),
        v == (ExtVal::Zero { sign: false }) ==> o.signed_zero,
    ensures
        mpq_from_str_spec(normalize_spec(layout_spec(v, o))) == Ok::<ExtVal, ()>(v),
{
    match v {
        ExtVal::Nan => {
            let s = layout_spec(v, o);
            assert(forall|j: int| 0 <= j < s.len() ==> plain_char(#[trigger] s[j]));
            lemma_normalize_plain(s);
        },
        ExtVal::Inf { sign } => {
            lemma_layout_rt_inf(sign, o);
        },
        ExtVal::Zero { sign } => {
            lemma_layout_rt_zero(sign, o);
        },
        ExtVal::Fin { num, den } => {
            lemma_layout_rt_fin(num, den, o);
        },
    }
}

/// Every character of a decimal digit string is one of `'0'` through
/// `'9'`.
proof fn lemma_digits_plain(s: Seq<char>)
    requires
        all_digits(s, 10),
    ensures
        forall|j: int| 0 <= j < s.len() ==> 48 <= (#[trigger] s[j]) as u32 <= 57,
{
    assert forall|j: int| 0 <= j < s.len() implies 48 <= (#[trigger] s[j]) as u32 <= 57 by {
        assert(is_base_digit(s[j], 10));
    }
}

/// Round trip of the extended-rational display form through the parser:
/// parsing the plain display string of a value yields that value back,
/// exactly, for every variant including signed zero and signed infinity.
#[verifier::rlimit(100)]
pub proof fn lemma_mpq_repr_round_trip(v: ExtVal)
    requires
        v.wf(),
    ensures
        crate::parsing::mpq_from_str_spec(crate::layout::repr_spec(v)) == Ok::<ExtVal, ()>(v),
{
    let s = crate::layout::repr_spec(v);
    match v {
        ExtVal::Nan => {},
        ExtVal::Inf { sign } => {},
        ExtVal::Zero { sign } => {
            if sign {
                lemma_find2_absent(s, '/', '/');
                lemma_find2_absent(s, 'E', 'e');
                lemma_find2_absent(s, '.', '.');
                lemma_find2_absent(s, '[', '[');
                lemma_rfind1_absent(s, ']');
                assert(digits_val(Seq::<char>::empty(), 10) == 0);
                assert(seq!['0'].drop_last() =~= Seq::<char>::empty());
                assert(digits_val(seq!['0'], 10) == digits_val(seq!['0'].drop_last(), 10) * 10
                    + crate::digits::base_digit_val(seq!['0'].last(), 10));
                assert(digits_val(seq!['0'], 10) == 0);
                assert(all_digits(seq!['0'], 10));
            } else {
                lemma_find2_absent(s, '/', '/');
                lemma_find2_absent(s, 'E', 'e');
                let b = s.skip(1);
                assert(b =~= seq!['0']);
                lemma_find2_absent(b, '.', '.');
                lemma_find2_absent(b, '[', '[');
                lemma_rfind1_absent(b, ']');
                assert(digits_val(Seq::<char>::empty(), 10) == 0);
                assert(seq!['0'].drop_last() =~= Seq::<char>::empty());
                assert(digits_val(seq!['0'], 10) == digits_val(seq!['0'].drop_last(), 10) * 10
                    + crate::digits::base_digit_val(seq!['0'].last(), 10));
                assert(digits_val(seq!['0'], 10) == 0);
                assert(all_digits(seq!['0'], 10));
            }
        },
        ExtVal::Fin { num, den } => {
            let mag = abs_int(num) as nat;
            let digits = str_of_base(mag, 10);
            let prefix: Seq<char> = if num < 0 {
                seq!['-']
            } else {
                Seq::empty()
            };
            lemma_str_of_base(mag, 10);
            lemma_digits_read_back(mag, 10);
            lemma_digits_plain(digits);
            if den == 1 {
                // plain numeral: the decimal path reads the digits back
                assert(s =~= prefix + digits);
                assert(forall|j: int|
                    0 <= j < s.len() ==> 45 <= (#[trigger] s[j]) as u32 <= 57);
                lemma_find2_absent(s, '/', '/');
                lemma_find2_absent(s, 'E', 'e');
                if num < 0 {
                    assert(s[0] == '-');
                    assert(s.skip(1) =~= digits);
                } else {
                    assert(s[0] == digits[0]);
                    assert(48 <= s[0] as u32 <= 57);
                }
                let b = if num < 0 {
                    s.skip(1)
                } else {
                    s
                };
                assert(b =~= digits);
                lemma_find2_absent(b, '.', '.');
                lemma_find2_absent(b, '[', '[');
                lemma_rfind1_absent(b, ']');
                assert(digits_val(digits, 10) == mag);
                assert(mag >= 1);
            } else {
                let dend = str_of_base(den as nat, 10);
                lemma_str_of_base(den as nat, 10);
                lemma_digits_read_back(den as nat, 10);
                lemma_digits_plain(dend);
                assert(s =~= prefix + digits + seq!['/'] + dend);
                let k = prefix.len() + digits.len();
                assert(s[k as int] == '/');
                assert(forall|j: int| 0 <= j < k ==> s[j] != '/' && s[j] != '\u{2212}');
                lemma_find2_at(s, '/', '/', k as int);
                let num_src0 = s.take(k as int);
                let den_src0 = s.skip(k as int + 1);
                assert(num_src0 =~= prefix + digits);
                assert(den_src0 =~= dend);
                if num < 0 {
                    assert(num_src0[0] == '-');
                    assert(num_src0.skip(1) =~= digits);
                } else {
                    assert(num_src0[0] == digits[0]);
                    assert(48 <= num_src0[0] as u32 <= 57);
                }
                assert(48 <= den_src0[0] as u32 <= 57);
                assert(nat_str_val(digits, 10) == Some(mag));
                assert(nat_str_val(dend, 10) == Some(den as nat));
            }
        },
    }
}

} // verus!
