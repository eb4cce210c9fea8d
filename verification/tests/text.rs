//! Tests for [`lce_math::text`].

use lce_math::text::{g_notation, push_decimal, trim_fraction, GNotation};

#[test]
fn trim_fraction_drops_trailing_zeros_and_a_bare_point() {
    assert_eq!(trim_fraction("1.50000"), "1.5");
    assert_eq!(trim_fraction("2.00000"), "2");
    assert_eq!(trim_fraction("0.333333"), "0.333333");
    assert_eq!(trim_fraction("-0.300000"), "-0.3");
    assert_eq!(trim_fraction("1.23457"), "1.23457");
}

#[test]
fn trim_fraction_leaves_text_without_a_point_alone() {
    assert_eq!(trim_fraction("100"), "100");
    assert_eq!(trim_fraction("0"), "0");
    assert_eq!(trim_fraction(""), "");
}

#[test]
fn push_decimal_writes_signed_decimal_text() {
    let mut s = String::from("x=");
    push_decimal(&mut s, -42);
    assert_eq!(s, "x=-42");
    for (v, text) in [
        (0, "0"),
        (9, "9"),
        (10, "10"),
        (i32::MAX, "2147483647"),
        (i32::MIN, "-2147483648"),
    ] {
        let mut s = String::new();
        push_decimal(&mut s, v);
        assert_eq!(s, text);
    }
}

fn scientific(sci: &str) -> Option<String> {
    match g_notation(sci) {
        Some(GNotation::Scientific(t)) => Some(t),
        _ => None,
    }
}

fn fixed(sci: &str) -> Option<usize> {
    match g_notation(sci) {
        Some(GNotation::Fixed(d)) => Some(d),
        _ => None,
    }
}

#[test]
fn g_notation_picks_fixed_for_exponents_from_minus_4_to_5() {
    assert_eq!(fixed("1.00000e0"), Some(5));
    assert_eq!(fixed("6.40000e1"), Some(4));
    assert_eq!(fixed("3.33333e-1"), Some(6));
    assert_eq!(fixed("1.00000e-4"), Some(9));
    assert_eq!(fixed("9.99999e5"), Some(0));
}

#[test]
fn g_notation_writes_scientific_text_otherwise() {
    assert_eq!(scientific("1.23457e6").as_deref(), Some("1.23457e+06"));
    assert_eq!(scientific("1.00000e-5").as_deref(), Some("1e-05"));
    assert_eq!(scientific("-2.50000e123").as_deref(), Some("-2.5e+123"));
    assert_eq!(scientific("4.00000e+10").as_deref(), Some("4e+10"));
}

#[test]
fn g_notation_rejects_text_without_an_exponent() {
    assert!(g_notation("1.5").is_none());
    assert!(g_notation("1.5e").is_none());
    assert!(g_notation("1.5e-").is_none());
    assert!(g_notation("1.5e1x").is_none());
    assert!(g_notation("1.5e99999999999").is_none());
}
