//! Behavioural tests for [`lce_math::mth`].

use lce_math::mth::{clamp, int_floor_div};

#[test]
fn clamp_checks_the_lower_bound_first() {
    assert_eq!(clamp(5, 0, 10), 5);
    assert_eq!(clamp(-5, 0, 10), 0);
    assert_eq!(clamp(15, 0, 10), 10);
    // Inverted bounds never panic.
    assert_eq!(clamp(-5, 10, 0), 10);
    assert_eq!(clamp(5, 10, 0), 10);
    assert_eq!(clamp(15, 10, 0), 0);
    assert_eq!(clamp(i32::MIN, i32::MIN, i32::MAX), i32::MIN);
}

#[test]
fn int_floor_div_is_floor_division_for_positive_divisors() {
    for a in -100..100 {
        for b in 1..20 {
            assert_eq!(int_floor_div(a, b), a.div_euclid(b), "{a} / {b}");
        }
    }
    assert_eq!(int_floor_div(-1, 16), -1);
    assert_eq!(int_floor_div(-16, 16), -1);
    assert_eq!(int_floor_div(-17, 16), -2);
    assert_eq!(int_floor_div(i32::MIN, 1), i32::MIN);
    assert_eq!(int_floor_div(i32::MIN, 16), -134_217_728);
}

#[test]
fn int_floor_div_applies_the_same_formula_for_negative_divisors() {
    assert_eq!(int_floor_div(7, -2), -3);
    assert_eq!(int_floor_div(-1, -2), -1);
    assert_eq!(int_floor_div(-7, -2), 2);
    assert_eq!(int_floor_div(i32::MIN, -1), i32::MAX - 1);
}

#[test]
#[should_panic(expected = "divide by zero")]
fn int_floor_div_by_zero_panics() {
    let _ = int_floor_div(std::hint::black_box(1), std::hint::black_box(0));
}

#[test]
fn int_floor_div_extremes_are_floors() {
    assert_eq!(int_floor_div(i32::MAX, 1), i32::MAX);
    assert_eq!(int_floor_div(i32::MIN, i32::MAX), -2);
    assert_eq!(int_floor_div(i32::MAX, i32::MAX), 1);
    assert_eq!(int_floor_div(-1, i32::MAX), -1);
    assert_eq!(int_floor_div(0, -5), 0);
}

#[test]
fn clamp_with_ordered_bounds_stays_in_range() {
    for v in [-1000, -11, -10, 0, 7, 10, 11, 1000, i32::MIN, i32::MAX] {
        let c = clamp(v, -10, 10);
        assert!((-10..=10).contains(&c), "clamp({v})");
        if (-10..=10).contains(&v) {
            assert_eq!(c, v);
        }
    }
}
