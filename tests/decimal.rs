use bitaxe_cli::decimal::Decimal;

fn d(s: &str) -> Decimal {
    Decimal::parse(s).expect("a number")
}

#[test]
fn parse_normalizes() {
    assert_eq!(d("100"), Decimal { negative: false, mantissa: 1, exponent: 2 });
    assert_eq!(d("100.0"), d("100"));
    assert_eq!(d("1e2"), d("100"));
    assert_eq!(d("1.00E+2"), d("100"));
    assert_eq!(d("450.5"), Decimal { negative: false, mantissa: 4505, exponent: -1 });
    assert_eq!(d("-0"), Decimal { negative: false, mantissa: 0, exponent: 0 });
    assert_eq!(d("-0.0"), d("0"));
    assert_eq!(d("-12.50"), Decimal { negative: true, mantissa: 125, exponent: -1 });
    assert_eq!(d("1.5e-7"), Decimal { negative: false, mantissa: 15, exponent: -8 });
    assert_eq!(d("18446744073709551615"), Decimal { negative: false, mantissa: 18446744073709551615, exponent: 0 });
}

#[test]
fn parse_rejects_non_numbers() {
    for s in ["", "-", "abc", "1.", ".5", "1e", "1e+", "12a", "1.2.3", " 1", "+1", "0x10"] {
        assert!(Decimal::parse(s).is_none(), "{s}");
    }
}

#[test]
fn parse_rejects_oversized_parts() {
    assert!(Decimal::parse("18446744073709551616").is_none());
    assert!(Decimal::parse("1e10001").is_none());
    assert!(Decimal::parse("1e10000").is_some());
}

#[test]
fn integer_and_float_forms_display_alike() {
    for s in ["100", "100.0", "1e2", "100.000"] {
        assert_eq!(d(s).to_fixed(2, 0), "100.00");
        assert_eq!(d(s).to_fixed(0, 0), "100");
    }
}

#[test]
fn fixed_places_and_shift() {
    assert_eq!(d("5000").to_fixed(2, 3), "5.00");
    assert_eq!(d("450.5").to_fixed(2, 0), "450.50");
    assert_eq!(d("60").to_fixed(1, 0), "60.0");
    assert_eq!(d("0.004").to_fixed(2, 0), "0.00");
    assert_eq!(d("12345").to_fixed(2, 3), "12.34");
    assert_eq!(d("12355").to_fixed(2, 3), "12.36");
    assert_eq!(d("1e-30").to_fixed(2, 0), "0.00");
    assert_eq!(d("1e3").to_fixed(1, 0), "1000.0");
}

#[test]
fn fixed_rounds_half_to_even() {
    assert_eq!(d("2.5").to_fixed(0, 0), "2");
    assert_eq!(d("3.5").to_fixed(0, 0), "4");
    assert_eq!(d("0.125").to_fixed(2, 0), "0.12");
    assert_eq!(d("0.375").to_fixed(2, 0), "0.38");
    assert_eq!(d("0.1251").to_fixed(2, 0), "0.13");
    assert_eq!(d("0.6").to_fixed(0, 0), "1");
}

#[test]
fn fixed_keeps_sign() {
    assert_eq!(d("-0.001").to_fixed(2, 0), "-0.00");
    assert_eq!(d("-62").to_fixed(0, 0), "-62");
    assert_eq!(d("-1.25").to_fixed(1, 0), "-1.2");
}

#[test]
fn canonical_text_is_plain_decimal() {
    assert_eq!(d("100.0").canonical_text(), "100");
    assert_eq!(d("1.5e3").canonical_text(), "1500");
    assert_eq!(d("0.25").canonical_text(), "0.25");
    assert_eq!(d("-4.50").canonical_text(), "-4.5");
    assert_eq!(d("1.5e-3").canonical_text(), "0.0015");
    assert_eq!(d("0").canonical_text(), "0");
}
