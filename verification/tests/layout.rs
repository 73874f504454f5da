use math_utils::layout::{FracLayoutOptions, ToLayoutString};
use math_utils::parsing::normalize_number_text;
use math_utils::rat_ext::MpqExt;

fn q(s: &str) -> MpqExt {
    MpqExt::from_str(s).unwrap()
}

#[test]
fn layout_of_nan() {
    for bits in 0..32u8 {
        let o = FracLayoutOptions::from_bits(bits);
        assert_eq!(q("nan").layout_string(o), "NaN");
    }
}

#[test]
fn layout_of_zero_exact_strings() {
    let plain = FracLayoutOptions::none();
    assert_eq!(q("0").layout_string(plain), "0");
    assert_eq!(q("-0").layout_string(plain), "0");
    let mut o = FracLayoutOptions::none();
    o.signed_zero = true;
    assert_eq!(q("-0").layout_string(o), "\u{2212}0");
    o.hyphen_minus = true;
    assert_eq!(q("-0").layout_string(o), "-0");
    o.denom_one = true;
    assert_eq!(q("-0").layout_string(o), "-0/1");
    o.plus_sign = true;
    assert_eq!(q("0").layout_string(o), "+0/1");
}

#[test]
fn layout_of_infinity_exact_strings() {
    let plain = FracLayoutOptions::none();
    assert_eq!(q("inf").layout_string(plain), "\u{221e}");
    assert_eq!(q("-inf").layout_string(plain), "\u{2212}\u{221e}");
    let mut o = FracLayoutOptions::none();
    o.signed_inf = true;
    assert_eq!(q("inf").layout_string(o), "+\u{221e}");
    o.hyphen_minus = true;
    assert_eq!(q("-inf").layout_string(o), "-\u{221e}");
    let mut p = FracLayoutOptions::none();
    p.plus_sign = true;
    assert_eq!(q("inf").layout_string(p), "+\u{221e}");
}

#[test]
fn layout_of_finite_exact_strings() {
    let plain = FracLayoutOptions::none();
    assert_eq!(q("22/7").layout_string(plain), "22/7");
    assert_eq!(q("-22/7").layout_string(plain), "\u{2212}22/7");
    assert_eq!(q("5").layout_string(plain), "5");
    let mut o = FracLayoutOptions::none();
    o.denom_one = true;
    assert_eq!(q("5").layout_string(o), "5/1");
    o.plus_sign = true;
    assert_eq!(q("5").layout_string(o), "+5/1");
    o.hyphen_minus = true;
    assert_eq!(q("-5").layout_string(o), "-5/1");
}

#[test]
fn layout_round_trips_under_every_flag_combination() {
    // parse(format(x)) == x for a zero, an infinity and a finite value,
    // under each of the 32 option combinations; negative zero needs the
    // signed-zero flag to survive, and then only up to lax equality of
    // zeros, so it is checked structurally via the variant.
    let values = ["0", "inf", "-inf", "22/7", "-22/7", "5"];
    for bits in 0..32u8 {
        let o = FracLayoutOptions::from_bits(bits);
        for v in values {
            let x = q(v);
            let text = x.clone().layout_string(o);
            let back = q(&normalize_number_text(&text));
            assert_eq!(back, x, "round trip failed for {v} with bits {bits}");
        }
        // negative zero keeps its sign exactly when it is displayed signed
        let z = q("-0");
        let text = z.layout_string(o);
        let back = q(&normalize_number_text(&text));
        if o.signed_zero {
            assert!(matches!(back, MpqExt::Zero(false)));
        } else {
            assert!(matches!(back, MpqExt::Zero(true)));
        }
    }
}

#[test]
fn trait_rendering_matches_inherent() {
    let o = FracLayoutOptions::from_bits(7);
    assert_eq!(q("-3/4").to_layout_string(o), q("-3/4").layout_string(o));
}

#[test]
fn math_strings_exact_records() {
    let plain = FracLayoutOptions::none();
    let r = q("nan").to_math_strings(plain);
    assert_eq!(r.sign, None);
    assert_eq!(r.num, "NaN");
    assert_eq!(r.den, None);

    let r = q("-22/7").to_math_strings(plain);
    assert_eq!(r.sign, Some('\u{2212}'));
    assert_eq!(r.num, "22");
    assert_eq!(r.den, Some("7".to_string()));

    let r = q("5").to_math_strings(plain);
    assert_eq!(r.sign, None);
    assert_eq!(r.num, "5");
    assert_eq!(r.den, None);

    let mut o = FracLayoutOptions::none();
    o.denom_one = true;
    o.signed_zero = true;
    let r = q("-0").to_math_strings(o);
    assert_eq!(r.sign, Some('\u{2212}'));
    assert_eq!(r.num, "0");
    assert_eq!(r.den, Some("1".to_string()));

    let mut p = FracLayoutOptions::none();
    p.signed_inf = true;
    let r = q("inf").to_math_strings(p);
    assert_eq!(r.sign, Some('+'));
    assert_eq!(r.num, "\u{221e}");
    assert_eq!(r.den, None);
}

#[test]
fn repr_strings() {
    assert_eq!(q("nan").repr_string(), "NaN");
    assert_eq!(q("0").repr_string(), "0");
    assert_eq!(q("-0").repr_string(), "-0");
    assert_eq!(q("inf").repr_string(), "inf");
    assert_eq!(q("-inf").repr_string(), "-inf");
    assert_eq!(q("22/7").repr_string(), "22/7");
    assert_eq!(q("-22/7").repr_string(), "-22/7");
    assert_eq!(q("5"). repr_string(), "5");
}

#[test]
fn repr_round_trips_exactly() {
    for v in ["0", "-0", "inf", "-inf", "22/7", "-22/7", "5", "-1/1000000000000"] {
        let x = q(v);
        let back = q(&x.repr_string());
        match (&x, &back) {
            (MpqExt::Zero(a), MpqExt::Zero(b)) => assert_eq!(a, b),
            _ => assert_eq!(back, x),
        }
    }
    assert!(matches!(q(&q("nan").repr_string()), MpqExt::NaN));
}
