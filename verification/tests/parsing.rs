use math_utils::int_ext::MpzExt;
use math_utils::nat_ext::MpnExt;
use math_utils::parsing::{normalize_number_text, ParseFractionResult};
use math_utils::rat_ext::MpqExt;
use math_utils::NumError;

fn q(s: &str) -> MpqExt {
    MpqExt::from_str(s).unwrap()
}

#[test]
fn parses_simple_fraction() {
    match ParseFractionResult::from_str("1/3").unwrap() {
        ParseFractionResult::Rational(sign, n, d) => {
            assert!(sign);
            assert_eq!(n.to_string(), "1");
            assert_eq!(d.to_string(), "3");
        },
        _ => panic!("expected a fraction"),
    }
    assert_eq!(q("1/3"), q("2/6"));
}

#[test]
fn parses_repeating_decimal_after_point() {
    // 0.1666... == 1/6
    assert_eq!(q("0.1[6]"), q("1/6"));
    // 0.333... == 1/3
    assert_eq!(q("0.[3]"), q("1/3"));
}

#[test]
fn parses_bracket_straddling_point() {
    // "2[34.5]678": integer part 2, repeating block 345, exponent +2,
    // giving (2*999 + 345) * 100 / 999 = 234300/999 = 78100/333
    assert_eq!(q("2[34.5]678"), q("78100/333"));
}

#[test]
fn parses_special_literals() {
    assert!(matches!(q("inf"), MpqExt::Inf(true)));
    assert!(matches!(q("+inf"), MpqExt::Inf(true)));
    assert!(matches!(q("-inf"), MpqExt::Inf(false)));
    assert!(matches!(q("nan"), MpqExt::NaN));
    assert!(matches!(q("-nan"), MpqExt::NaN));
    assert!(matches!(q("NaN"), MpqExt::NaN));
    assert!(matches!(q("INF"), MpqExt::Inf(true)));
}

#[test]
fn parses_signed_zeros() {
    assert!(matches!(q("0"), MpqExt::Zero(true)));
    assert!(matches!(q("-0"), MpqExt::Zero(false)));
    assert!(matches!(q("+0"), MpqExt::Zero(true)));
    assert!(matches!(q("-0.000"), MpqExt::Zero(false)));
    assert!(matches!(q("0/5"), MpqExt::Zero(true)));
    assert!(matches!(q("-0/5"), MpqExt::Zero(false)));
}

#[test]
fn fraction_notation_zero_denominators() {
    assert!(matches!(q("3/0"), MpqExt::Inf(true)));
    assert!(matches!(q("-3/0"), MpqExt::Inf(false)));
    assert!(matches!(q("3/-0"), MpqExt::Inf(false)));
    assert!(matches!(q("0/0"), MpqExt::NaN));
}

#[test]
fn fraction_notation_defaults_empty_sides_to_one() {
    assert_eq!(q("/3"), q("1/3"));
    assert_eq!(q("3/"), q("3"));
    assert_eq!(q("-/3"), q("-1/3"));
}

#[test]
fn fraction_notation_signs_combine_by_parity() {
    assert_eq!(q("-1/3"), q("1/-3"));
    assert_eq!(q("-1/-3"), q("1/3"));
}

#[test]
fn parses_decimal_notation() {
    assert_eq!(q("3.14"), q("157/50"));
    assert_eq!(q("-2.5"), q("-5/2"));
    assert_eq!(q("2e3"), q("2000"));
    assert_eq!(q("2.5e-1"), q("1/4"));
    assert_eq!(q("1.5E2"), q("150"));
}

#[test]
fn parses_bracket_without_point() {
    // "12[34]": integer digits 12, repeating block 34, exponent +2:
    // (12*99 + 34) * 100 / 99 = 122200/99
    assert_eq!(q("12[34]"), q("122200/99"));
}

#[test]
fn rejects_malformed_text() {
    assert!(matches!(MpqExt::from_str("abc"), Err(NumError::InvalidFormat)));
    assert!(matches!(MpqExt::from_str("1[2"), Err(NumError::InvalidFormat)));
    assert!(matches!(MpqExt::from_str("1]2["), Err(NumError::InvalidFormat)));
    assert!(matches!(MpqExt::from_str("1.2.3"), Err(NumError::InvalidFormat)));
    assert!(matches!(MpqExt::from_str("1e"), Err(NumError::InvalidFormat)));
    assert!(matches!(MpqExt::from_str("1x/3"), Err(NumError::InvalidFormat)));
}

#[test]
fn empty_text_reads_as_zero() {
    assert!(matches!(q(""), MpqExt::Zero(true)));
    assert!(matches!(q("-"), MpqExt::Zero(false)));
}

#[test]
fn natural_from_str() {
    assert_eq!(MpnExt::from_str("42").unwrap(), MpnExt::from_u64(42));
    assert!(matches!(MpnExt::from_str("0").unwrap(), MpnExt::Zero));
    assert!(matches!(MpnExt::from_str("INF").unwrap(), MpnExt::Inf));
    assert!(matches!(MpnExt::from_str("nan").unwrap(), MpnExt::NaN));
    assert!(matches!(MpnExt::from_str("-3"), Err(NumError::InvalidFormat)));
    assert_eq!(MpnExt::from_string_base(16, "ff").unwrap(), MpnExt::from_u64(255));
    assert_eq!(MpnExt::from_string_base(2, "1010").unwrap(), MpnExt::from_u64(10));
}

#[test]
fn integer_from_str() {
    assert_eq!(MpzExt::from_str("-42").unwrap(), MpzExt::from_i64(-42));
    assert!(matches!(MpzExt::from_str("-0").unwrap(), MpzExt::Zero(false)));
    assert!(matches!(MpzExt::from_str("+0").unwrap(), MpzExt::Zero(true)));
    assert!(matches!(MpzExt::from_str("-inf").unwrap(), MpzExt::Inf(false)));
    assert!(matches!(MpzExt::from_str("+nan").unwrap(), MpzExt::NaN));
    assert_eq!(MpzExt::from_string_base(16, "-1A").unwrap(), MpzExt::from_i64(-26));
}

#[test]
fn large_bases_distinguish_letter_case() {
    // up to base 36 the cases are interchangeable; above, they are
    // distinct digits
    assert_eq!(
        MpnExt::from_string_base(36, "Z").unwrap(),
        MpnExt::from_string_base(36, "z").unwrap()
    );
    assert_eq!(MpnExt::from_string_base(62, "G8").unwrap(), MpnExt::from_u64(1000));
    assert_eq!(MpnExt::from_string_base(62, "g8").unwrap(), MpnExt::from_u64(2612));
}

#[test]
fn numerator_and_denominator_views() {
    let x = q("-22/7");
    assert_eq!(x.clone().into_numerator().to_string(), "22");
    assert_eq!(x.clone().into_denominator().to_string(), "7");
    assert_eq!(x.clone().into_numerator_signed().to_string(), "-22");
    assert_eq!(x.into_denominator_signed().to_string(), "-7");
    let (n, d) = q("nan").into_numerator_and_denominator();
    assert_eq!(n.to_string(), "0");
    assert_eq!(d.to_string(), "0");
    let (n, d) = q("inf").to_numerator_and_denominator();
    assert_eq!(n.to_string(), "1");
    assert_eq!(d.to_string(), "0");
    assert_eq!(q("-0").into_denominator_signed().to_string(), "-1");
}

#[test]
fn normalization_rewrites_typographic_text() {
    assert_eq!(normalize_number_text("\u{2212}22/7"), "-22/7");
    assert_eq!(normalize_number_text("\u{221e}"), "inf");
    assert_eq!(normalize_number_text("-oo"), "-inf");
    assert_eq!(normalize_number_text("ooo"), "info");
    assert_eq!(q(&normalize_number_text("\u{2212}\u{221e}")), q("-inf"));
}
