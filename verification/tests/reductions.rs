use malachite::Natural;
use math_utils::int_ext::MpzExt;
use math_utils::nat_ext::MpnExt;
use math_utils::rat_ext::MpqExt;
use math_utils::traits::{Approx, ApproxAssign};

fn q(s: &str) -> MpqExt {
    MpqExt::from_str(s).unwrap()
}

#[test]
fn summation_short_circuits_on_nan_anywhere() {
    // [1, 2, NaN, 4] in every NaN placement
    for pos in 0..4usize {
        let mut xs = vec![q("1"), q("2"), q("4")];
        xs.insert(pos, MpqExt::NaN);
        assert!(matches!(MpqExt::sum(&xs), MpqExt::NaN), "position {pos}");
    }
    let zs = [
        MpzExt::from_i64(1),
        MpzExt::NaN,
        MpzExt::from_i64(2),
        MpzExt::from_i64(4),
    ];
    assert!(matches!(MpzExt::sum(&zs), MpzExt::NaN));
    let ns = [MpnExt::from_u64(1), MpnExt::NaN];
    assert!(matches!(MpnExt::sum(&ns), MpnExt::NaN));
    assert!(matches!(MpnExt::product(&ns), MpnExt::NaN));
    assert!(matches!(MpqExt::product(&[q("3"), MpqExt::NaN]), MpqExt::NaN));
}

#[test]
fn summation_is_exact() {
    // the 0.1 + 0.2 + 0.3 classic, exactly
    let xs = [q("1/10"), q("2/10"), q("3/10")];
    assert_eq!(MpqExt::sum(&xs), q("3/5"));
    // order does not change the exact result
    let ys = [q("3/10"), q("1/10"), q("2/10")];
    assert_eq!(MpqExt::sum(&ys), q("3/5"));
}

#[test]
fn empty_and_singleton_reductions() {
    let no_rationals: [MpqExt; 0] = [];
    assert!(matches!(MpqExt::sum(&no_rationals), MpqExt::Zero(true)));
    assert_eq!(MpqExt::product(&no_rationals), q("1"));
    assert_eq!(MpqExt::sum(&[q("7/3")]), q("7/3"));
    let no_naturals: [MpnExt; 0] = [];
    assert!(matches!(MpnExt::sum(&no_naturals), MpnExt::Zero));
    assert_eq!(MpnExt::product(&[MpnExt::from_u64(6), MpnExt::from_u64(7)]), MpnExt::from_u64(42));
    assert_eq!(
        MpzExt::sum(&[MpzExt::from_i64(5), MpzExt::from_i64(-5)]),
        MpzExt::Zero(true)
    );
}

#[test]
fn product_signs_and_infinities() {
    assert!(matches!(MpqExt::product(&[q("0"), q("inf")]), MpqExt::NaN));
    assert_eq!(MpqExt::product(&[q("-2"), q("3")]), q("-6"));
    assert_eq!(MpqExt::product(&[q("-2"), q("-3")]), q("6"));
    assert_eq!(MpqExt::product(&[q("2"), q("inf")]), q("inf"));
}

#[test]
fn approx_keeps_values_already_within_bound() {
    let bound = Natural::from(10u32);
    assert_eq!(q("22/7").approx(&bound), q("22/7"));
    assert_eq!(q("-22/7").approx(&bound), q("-22/7"));
    assert!(matches!(q("-0").approx(&bound), MpqExt::Zero(false)));
    assert!(matches!(q("-inf").approx(&bound), MpqExt::Inf(false)));
    assert!(matches!(MpqExt::NaN.approx(&bound), MpqExt::NaN));
}

#[test]
fn approx_finds_the_closest_bounded_fraction() {
    // brute-force the closest fraction to 314159/100000 with denominator
    // at most 100; ties, if any, fall to the smaller denominator
    let target_n: i128 = 314159;
    let target_d: i128 = 100000;
    let mut best_n: i128 = 0;
    let mut best_d: i128 = 1;
    for m in 1..=100i128 {
        let n = (target_n * m + target_d / 2) / target_d;
        for cand in [n - 1, n, n + 1] {
            // compare |t - cand/m| against |t - best|: cross-multiplied
            let lhs = (target_n * m - cand * target_d).abs() * best_d;
            let rhs = (target_n * best_d - best_n * target_d).abs() * m;
            if lhs < rhs {
                best_n = cand;
                best_d = m;
            }
        }
    }
    let r = q("314159/100000").approx(&Natural::from(100u32));
    let expected = MpqExt::from_integers(
        malachite::Integer::from(best_n as i64),
        malachite::Integer::from(best_d as i64),
    );
    assert_eq!(r, expected);
}

#[test]
fn approx_breaks_ties_toward_the_smaller_denominator() {
    // 1/4 with bound 2: 0 and 1/2 are equidistant, so the answer is 0
    let bound = Natural::from(2u32);
    assert!(matches!(q("1/4").approx(&bound), MpqExt::Zero(true)));
    assert!(matches!(q("-1/4").approx(&bound), MpqExt::Zero(false)));
}

#[test]
fn approx_reduces_to_signed_zero() {
    // 1/1000 within denominator bound 2 approximates to zero, keeping
    // the original sign
    let bound = Natural::from(2u32);
    assert!(matches!(q("1/1000").approx(&bound), MpqExt::Zero(true)));
    assert!(matches!(q("-1/1000").approx(&bound), MpqExt::Zero(false)));
}

#[test]
fn approx_assign_matches_approx() {
    let bound = Natural::from(100u32);
    let mut x = q("314159/100000");
    x.approx_assign(&bound);
    assert_eq!(x, q("314159/100000").approx(&bound));
}

#[test]
fn pow_on_naturals_and_integers() {
    assert_eq!(MpnExt::from_u64(3).pow(4), MpnExt::from_u64(81));
    assert_eq!(MpnExt::Zero.pow(0), MpnExt::from_u64(1));
    assert_eq!(MpnExt::Inf.pow(0), MpnExt::from_u64(1));
    assert!(matches!(MpnExt::NaN.pow(0), MpnExt::NaN));
    assert_eq!(MpzExt::from_i64(-3).pow(3), MpzExt::from_i64(-27));
    assert!(matches!(MpzExt::Zero(false).pow(2), MpzExt::Zero(true)));
    assert!(matches!(MpzExt::Inf(false).pow(3), MpzExt::Inf(false)));
}
