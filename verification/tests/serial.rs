use math_utils::int_ext::MpzExt;
use math_utils::nat_ext::MpnExt;
use math_utils::NumError;

#[test]
fn natural_serial_strings() {
    assert_eq!(MpnExt::NaN.serial_string(), "nan");
    assert_eq!(MpnExt::Inf.serial_string(), "inf");
    assert_eq!(MpnExt::Zero.serial_string(), "0");
    assert_eq!(MpnExt::from_u64(26).serial_string(), "0x1a");
    assert_eq!(MpnExt::from_u64(255).serial_string(), "0xff");
}

#[test]
fn natural_serial_round_trip_is_identity() {
    for v in [
        MpnExt::NaN,
        MpnExt::Inf,
        MpnExt::Zero,
        MpnExt::from_u64(1),
        MpnExt::from_u64(26),
        MpnExt::from_u64(1234567890123456789),
    ] {
        let s = v.serial_string();
        let back = MpnExt::from_serial_string(&s).unwrap();
        match (&v, &back) {
            (MpnExt::NaN, MpnExt::NaN) => {},
            _ => assert_eq!(back, v, "serial {s}"),
        }
    }
}

#[test]
fn integer_serial_strings() {
    assert_eq!(MpzExt::NaN.serial_string(), "nan");
    assert_eq!(MpzExt::Zero(true).serial_string(), "0");
    assert_eq!(MpzExt::Zero(false).serial_string(), "-0");
    assert_eq!(MpzExt::Inf(true).serial_string(), "inf");
    assert_eq!(MpzExt::Inf(false).serial_string(), "-inf");
    assert_eq!(MpzExt::from_i64(26).serial_string(), "0x1a");
    assert_eq!(MpzExt::from_i64(-26).serial_string(), "-0x1a");
}

#[test]
fn integer_serial_reads_uppercase_hex() {
    // hexadecimal digits are read case-insensitively
    assert_eq!(
        MpzExt::from_serial_string("-0x1A").unwrap(),
        MpzExt::from_i64(-26)
    );
    assert_eq!(
        MpzExt::from_serial_string("0x1A").unwrap(),
        MpzExt::from_i64(26)
    );
}

#[test]
fn integer_serial_round_trip_is_identity() {
    for v in [
        MpzExt::Zero(true),
        MpzExt::Zero(false),
        MpzExt::Inf(true),
        MpzExt::Inf(false),
        MpzExt::from_i64(1),
        MpzExt::from_i64(-1),
        MpzExt::from_i64(9007199254740993),
        MpzExt::from_i64(-9007199254740993),
    ] {
        let s = v.serial_string();
        let back = MpzExt::from_serial_string(&s).unwrap();
        match (&v, &back) {
            (MpzExt::Zero(a), MpzExt::Zero(b)) => assert_eq!(a, b),
            (MpzExt::Inf(a), MpzExt::Inf(b)) => assert_eq!(a, b),
            _ => assert_eq!(back, v, "serial {s}"),
        }
    }
    assert!(matches!(
        MpzExt::from_serial_string("nan").unwrap(),
        MpzExt::NaN
    ));
}

#[test]
fn display_strings_print_decimal() {
    assert_eq!(MpnExt::from_u64(26).repr_string(), "26");
    assert_eq!(MpnExt::Zero.repr_string(), "0");
    assert_eq!(MpnExt::Inf.repr_string(), "inf");
    assert_eq!(MpzExt::from_i64(-26).repr_string(), "-26");
    assert_eq!(MpzExt::from_i64(26).repr_string(), "26");
    assert_eq!(MpzExt::Zero(false).repr_string(), "-0");
    assert_eq!(MpzExt::NaN.repr_string(), "nan");
}

#[test]
fn serial_rejects_unprefixed_digits() {
    assert!(matches!(
        MpnExt::from_serial_string("26"),
        Err(NumError::InvalidFormat)
    ));
    assert!(matches!(
        MpzExt::from_serial_string("-26"),
        Err(NumError::InvalidFormat)
    ));
    assert!(matches!(
        MpnExt::from_serial_string("0xg"),
        Err(NumError::InvalidFormat)
    ));
    assert!(matches!(
        MpzExt::from_serial_string(""),
        Err(NumError::InvalidFormat)
    ));
}
