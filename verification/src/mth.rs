//! Integer helpers: clamping, floor division and a ranged random integer.
//!
//! Integer arithmetic here is two's-complement and wraps where noted.

use vstd::arithmetic::div_mod::{
    lemma_fundamental_div_mod, lemma_fundamental_div_mod_converse_div, lemma_mod_bound,
};
use vstd::prelude::*;

use crate::random::{next_int_outcome, state_modulus, JavaRandom};

verus! {

/// `v` reduced into the `i32` range: the unique value congruent to `v`
/// modulo `2³²` in `i32::MIN..=i32::MAX`.
pub open spec fn wrap_i32(v: int) -> int {
    (v + 0x8000_0000) % 0x1_0000_0000 - 0x8000_0000
}

/// `v` reduced into the `i64` range: the unique value congruent to `v`
/// modulo `2⁶⁴` in `i64::MIN..=i64::MAX`.
pub open spec fn wrap_i64(v: int) -> int {
    (v + 0x8000_0000_0000_0000) % 0x1_0000_0000_0000_0000 - 0x8000_0000_0000_0000
}

/// `wrap_i32` stays in the `i32` range and leaves values already in it
/// unchanged.
pub proof fn lemma_wrap_i32_small(v: int)
    ensures
        i32::MIN <= wrap_i32(v) <= i32::MAX,
        i32::MIN <= v <= i32::MAX ==> wrap_i32(v) == v,
{
    lemma_mod_bound(v + 0x8000_0000, 0x1_0000_0000);
    if i32::MIN <= v <= i32::MAX {
        vstd::arithmetic::div_mod::lemma_small_mod((v + 0x8000_0000) as nat, 0x1_0000_0000);
    }
}

/// `wrap_i32` depends only on its argument modulo `2³²`: adding a multiple
/// of `2³²` changes nothing.
proof fn lemma_wrap_i32_shift(v: int, k: int)
    ensures
        wrap_i32(v + k * 0x1_0000_0000) == wrap_i32(v),
{
    vstd::arithmetic::div_mod::lemma_mod_multiples_vanish(k, v + 0x8000_0000, 0x1_0000_0000);
    assert(0x1_0000_0000 * k + (v + 0x8000_0000) == v + k * 0x1_0000_0000 + 0x8000_0000)
        by (nonlinear_arith);
}

/// Wrapping never raises a non-negative value that stays non-negative.
pub proof fn lemma_wrap_i32_below(v: int)
    ensures
        v >= 0 && wrap_i32(v) >= 0 ==> wrap_i32(v) <= v,
{
    if v >= 0 {
        let m: int = 0x1_0000_0000;
        lemma_fundamental_div_mod(v + 0x8000_0000, m);
        lemma_mod_bound(v + 0x8000_0000, m);
        vstd::arithmetic::div_mod::lemma_div_pos_is_pos(v + 0x8000_0000, m);
        let q = (v + 0x8000_0000) / m;
        assert(wrap_i32(v) == v - q * m) by (nonlinear_arith)
            requires
                v + 0x8000_0000 == m * q + (v + 0x8000_0000) % m,
                wrap_i32(v) == (v + 0x8000_0000) % m - 0x8000_0000,
        ;
        assert(q * m >= 0) by (nonlinear_arith)
            requires
                q >= 0,
                m > 0,
        ;
    }
}

/// `wrap_i32(a)` differs from `a` by a multiple of `2³²`.
pub proof fn lemma_wrap_i32_repr(a: int) -> (q: int)
    ensures
        wrap_i32(a) == a - q * 0x1_0000_0000,
{
    let m: int = 0x1_0000_0000;
    lemma_fundamental_div_mod(a + 0x8000_0000, m);
    let q = (a + 0x8000_0000) / m;
    assert(wrap_i32(a) == a - q * m) by (nonlinear_arith)
        requires
            a + 0x8000_0000 == m * q + (a + 0x8000_0000) % m,
            wrap_i32(a) == (a + 0x8000_0000) % m - 0x8000_0000,
    ;
    q
}

/// Values that differ by a multiple of `2³²` wrap to the same `i32`.
pub proof fn lemma_wrap_i32_congruent(u: int, v: int, k: int)
    requires
        u == v + k * 0x1_0000_0000,
    ensures
        wrap_i32(u) == wrap_i32(v),
{
    lemma_wrap_i32_shift(v, k);
}

/// Reducing an operand first does not change a wrapped sum.
pub proof fn lemma_wrap_i32_add(a: int, b: int)
    ensures
        wrap_i32(wrap_i32(a) + b) == wrap_i32(a + b),
{
    let m: int = 0x1_0000_0000;
    lemma_fundamental_div_mod(a + 0x8000_0000, m);
    let q = (a + 0x8000_0000) / m;
    assert(wrap_i32(a) == a - q * m) by (nonlinear_arith)
        requires
            a + 0x8000_0000 == m * q + (a + 0x8000_0000) % m,
            wrap_i32(a) == (a + 0x8000_0000) % m - 0x8000_0000,
    ;
    lemma_wrap_i32_shift(a + b - q * m, q);
}

/// Reducing both operands first does not change a wrapped sum.
pub proof fn lemma_wrap_i32_add2(a: int, b: int)
    ensures
        wrap_i32(wrap_i32(a) + wrap_i32(b)) == wrap_i32(a + b),
{
    lemma_wrap_i32_add(b, wrap_i32(a));
    lemma_wrap_i32_add(a, b);
}

/// Reducing the operands first does not change a wrapped product.
pub proof fn lemma_wrap_i32_mul(a: int, b: int)
    ensures
        wrap_i32(wrap_i32(a) * wrap_i32(b)) == wrap_i32(a * b),
{
    let m: int = 0x1_0000_0000;
    lemma_fundamental_div_mod(a + 0x8000_0000, m);
    lemma_fundamental_div_mod(b + 0x8000_0000, m);
    let qa = (a + 0x8000_0000) / m;
    let qb = (b + 0x8000_0000) / m;
    let wa = wrap_i32(a);
    let wb = wrap_i32(b);
    assert(wa == a - qa * m) by (nonlinear_arith)
        requires
            a + 0x8000_0000 == m * qa + (a + 0x8000_0000) % m,
            wa == (a + 0x8000_0000) % m - 0x8000_0000,
    ;
    assert(wb == b - qb * m) by (nonlinear_arith)
        requires
            b + 0x8000_0000 == m * qb + (b + 0x8000_0000) % m,
            wb == (b + 0x8000_0000) % m - 0x8000_0000,
    ;
    let k = qa * b + qb * a - qa * qb * m;
    assert(a * b == wa * wb + k * m) by (nonlinear_arith)
        requires
            wa == a - qa * m,
            wb == b - qb * m,
            k == qa * b + qb * a - qa * qb * m,
    ;
    lemma_wrap_i32_shift(wa * wb, k);
}

/// A wrapped square of a wrapped difference is the wrapped square.
pub proof fn lemma_wrap_i32_square(d: int)
    ensures
        wrap_i32(wrap_i32(d) * wrap_i32(d)) == wrap_i32(d * d),
{
    lemma_wrap_i32_mul(d, d);
}

/// A difference of two `i32` values wraps to zero only when it is zero.
pub proof fn lemma_wrap_i32_zero(d: int)
    requires
        -0x1_0000_0000 < d < 0x1_0000_0000,
    ensures
        wrap_i32(d) == 0 <==> d == 0,
{
    if d < -0x8000_0000 {
        lemma_wrap_i32_shift(d, 1);
        lemma_wrap_i32_small(d + 0x1_0000_0000);
    } else if d > 0x7fff_ffff {
        lemma_wrap_i32_shift(d - 0x1_0000_0000, 1);
        lemma_wrap_i32_small(d - 0x1_0000_0000);
    } else {
        lemma_wrap_i32_small(d);
    }
}

/// Two `i32` values with the same residue modulo `2³²` are equal.
pub proof fn lemma_i32_mod_injective(x1: i32, x2: i32)
    requires
        x1 as int % 0x1_0000_0000 == x2 as int % 0x1_0000_0000,
    ensures
        x1 == x2,
{
    lemma_fundamental_div_mod(x1 as int, 0x1_0000_0000);
    lemma_fundamental_div_mod(x2 as int, 0x1_0000_0000);
}

/// A number in `0..2³²` read as an `i32`: itself below `2³¹`, otherwise
/// `2³²` less.
pub proof fn lemma_wrap_i32_unsigned(v: int)
    requires
        0 <= v < 0x1_0000_0000,
    ensures
        wrap_i32(v) == (if v >= 0x8000_0000 { v - 0x1_0000_0000 } else { v }),
{
    if v >= 0x8000_0000 {
        lemma_wrap_i32_shift(v - 0x1_0000_0000, 1);
        lemma_wrap_i32_small(v - 0x1_0000_0000);
    } else {
        lemma_wrap_i32_small(v);
    }
}

/// `i64::wrapping_add` is the wrapped sum.
pub proof fn lemma_wrapping_add_i64(x: i64, y: i64)
    ensures
        vstd::wrapping::i64_specs::wrapping_add(x, y) == wrap_i64(x + y),
{
    let m: int = 0x1_0000_0000_0000_0000;
    let h: int = 0x8000_0000_0000_0000;
    let v = x + y;
    if v > i64::MAX {
        vstd::arithmetic::div_mod::lemma_mod_multiples_vanish(1, v - m + h, m);
        vstd::arithmetic::div_mod::lemma_small_mod((v - m + h) as nat, m as nat);
    } else if v < i64::MIN {
        vstd::arithmetic::div_mod::lemma_mod_multiples_vanish(1, v + h, m);
        vstd::arithmetic::div_mod::lemma_small_mod((v + m + h) as nat, m as nat);
    } else {
        vstd::arithmetic::div_mod::lemma_small_mod((v + h) as nat, m as nat);
    }
}

/// `i32::wrapping_add` is the wrapped sum.
pub proof fn lemma_wrapping_add_i32(x: i32, y: i32)
    ensures
        vstd::wrapping::i32_specs::wrapping_add(x, y) == wrap_i32(x + y),
{
    lemma_wrap_i32_small(x + y);
    if x + y > i32::MAX {
        lemma_wrap_i32_shift(x + y - 0x1_0000_0000, 1);
        lemma_wrap_i32_small(x + y - 0x1_0000_0000);
    } else if x + y < i32::MIN {
        lemma_wrap_i32_shift(x + y, 1);
        lemma_wrap_i32_small(x + y + 0x1_0000_0000);
    }
}

/// `i32::wrapping_sub` is the wrapped difference.
pub proof fn lemma_wrapping_sub_i32(x: i32, y: i32)
    ensures
        vstd::wrapping::i32_specs::wrapping_sub(x, y) == wrap_i32(x - y),
{
    lemma_wrap_i32_small(x - y);
    if x - y > i32::MAX {
        lemma_wrap_i32_shift(x - y - 0x1_0000_0000, 1);
        lemma_wrap_i32_small(x - y - 0x1_0000_0000);
    } else if x - y < i32::MIN {
        lemma_wrap_i32_shift(x - y, 1);
        lemma_wrap_i32_small(x - y + 0x1_0000_0000);
    }
}

/// `i32::wrapping_mul` is the wrapped product.
pub proof fn lemma_wrapping_mul_i32(x: i32, y: i32)
    ensures
        vstd::wrapping::i32_specs::wrapping_mul(x, y) == wrap_i32(x * y),
{
    let v = x * y;
    let m: int = 0x1_0000_0000;
    lemma_fundamental_div_mod(v, m);
    lemma_mod_bound(v, m);
    let q = v / m;
    let r = v % m;
    assert(v == r + q * m) by (nonlinear_arith)
        requires
            v == m * q + r,
    ;
    if r > i32::MAX {
        lemma_wrap_i32_shift(r - m, q + 1);
        assert(r - m + (q + 1) * m == v) by (nonlinear_arith)
            requires
                v == r + q * m,
        ;
        lemma_wrap_i32_small(r - m);
    } else {
        lemma_wrap_i32_shift(r, q);
        lemma_wrap_i32_small(r);
    }
}

/// The value [`clamp`] returns: the lower bound is checked first, so with
/// `min > max` a value below `min` gives `min` and any other value above
/// `max` gives `max`.
pub open spec fn clamp_spec(value: int, min: int, max: int) -> int {
    if value < min {
        min
    } else if value > max {
        max
    } else {
        value
    }
}

/// `value` limited to `min..=max`.
///
/// The lower bound is checked first, so if `min > max` any value below `min`
/// gives `min` and any other value above `max` gives `max`. Never panics.
pub fn clamp(value: i32, min: i32, max: i32) -> (r: i32)
    ensures
        r == clamp_spec(value as int, min as int, max as int),
{
    if value < min {
        min
    } else if value > max {
        max
    } else {
        value
    }
}

/// With ordered bounds the clamped value lies in `min..=max`: a value
/// already in range is returned unchanged, a value above `max` gives `max`
/// and a value below `min` gives `min`.
pub proof fn lemma_clamp_in_range(value: int, min: int, max: int)
    requires
        min <= max,
    ensures
        min <= clamp_spec(value, min, max) <= max,
        min <= value <= max ==> clamp_spec(value, min, max) == value,
        value > max ==> clamp_spec(value, min, max) == max,
        value < min ==> clamp_spec(value, min, max) == min,
        clamp_spec(value, min, max) == value || clamp_spec(value, min, max) == min
            || clamp_spec(value, min, max) == max,
{
}

/// The value [`int_floor_div`] returns: `a / b` for a non-negative `a`, and
/// `-((-a - 1) / b) - 1` for a negative one, each division of a non-negative
/// number (where truncating and Euclidean division agree).
pub open spec fn int_floor_div_spec(a: int, b: int) -> int {
    if a < 0 {
        -((-a - 1) / b) - 1
    } else {
        a / b
    }
}

/// `a / b` rounded towards negative infinity, for `b > 0`.
///
/// A negative `a` is divided as `-((-a - 1) / b) - 1` with truncating
/// division; `-a - 1` is `!a`, non-negative for every negative `a`, so no
/// step can overflow. For `b < 0` the formula is still applied and the
/// result is not a floor division (`int_floor_div(-1, -2)` is `-1`).
/// A zero `b` would panic, like the `/` operator, and is excluded.
pub fn int_floor_div(a: i32, b: i32) -> (r: i32)
    requires
        b != 0,
    ensures
        r == int_floor_div_spec(a as int, b as int),
{
    if a < 0 {
        let n = !a;
        assert(n == -a - 1) by (bit_vector)
            requires
                n == !a,
        ;
        let q = n / b;
        proof {
            lemma_nonneg_div_bounds(n as int, b as int);
        }
        let r = !q;
        assert(r == -q - 1) by (bit_vector)
            requires
                r == !q,
        ;
        assert(q == (-(a as int) - 1) / (b as int));
        r
    } else {
        proof {
            lemma_nonneg_div_bounds(a as int, b as int);
        }
        a / b
    }
}

/// Division of a non-negative `i32` by a non-zero one stays in range.
proof fn lemma_nonneg_div_bounds(n: int, b: int)
    requires
        0 <= n <= 0x7fff_ffff,
        b != 0,
        -0x8000_0000 <= b <= 0x7fff_ffff,
    ensures
        -0x7fff_ffff <= n / b <= n,
{
    lemma_fundamental_div_mod(n, b);
    let q = n / b;
    let r = n % b;
    if b > 0 {
        lemma_mod_bound(n, b);
        assert(0 <= q <= n) by (nonlinear_arith)
            requires
                n == b * q + r,
                0 <= r < b,
                0 <= n,
        ;
    } else {
        assert(-n <= q <= 0) by (nonlinear_arith)
            requires
                n == b * q + r,
                0 <= r < -b,
                0 <= n,
                b < 0,
        ;
    }
}

/// For a positive divisor, [`int_floor_div`] is floor division: its result
/// is the Euclidean quotient `a / b`, the largest `q` with `q · b <= a`.
pub proof fn lemma_int_floor_div_is_floor(a: int, b: int)
    requires
        b > 0,
    ensures
        int_floor_div_spec(a, b) == a / b,
        int_floor_div_spec(a, b) * b <= a < (int_floor_div_spec(a, b) + 1) * b,
{
    if a < 0 {
        let n = -a - 1;
        let q = n / b;
        let r = n % b;
        lemma_fundamental_div_mod(n, b);
        lemma_mod_bound(n, b);
        assert(a == (-q - 1) * b + (b - r - 1)) by (nonlinear_arith)
            requires
                n == b * q + r,
                n == -a - 1,
        ;
        lemma_fundamental_div_mod_converse_div(a, b, -q - 1, b - r - 1);
    }
    lemma_fundamental_div_mod(a, b);
    lemma_mod_bound(a, b);
    assert((a / b) * b <= a < (a / b + 1) * b) by (nonlinear_arith)
        requires
            a == b * (a / b) + a % b,
            0 <= a % b < b,
    ;
}

/// What [`next_int`] returns and the state it leaves, from state `s`.
///
/// If `min_inclusive >= max_inclusive` the result is `min_inclusive` and no
/// draw is taken. Otherwise the bound `max - min + 1` is taken in wrapping
/// `i32` arithmetic, one bounded draw is made with it, and `min` is added,
/// wrapping.
pub open spec fn ranged_next_int_outcome(s: nat, min_inclusive: int, max_inclusive: int) -> (
    int,
    nat,
) {
    if min_inclusive >= max_inclusive {
        (min_inclusive, s)
    } else {
        let bound = wrap_i32(max_inclusive - min_inclusive + 1);
        let (v, s2) = next_int_outcome(s, bound);
        (wrap_i32(v + min_inclusive), s2)
    }
}

/// A uniformly distributed integer in `min_inclusive..=max_inclusive`.
///
/// If `min_inclusive >= max_inclusive` this returns `min_inclusive` without
/// drawing. Otherwise it is `random.next_int(max_inclusive - min_inclusive +
/// 1) + min_inclusive`, all in wrapping `i32` arithmetic.
pub fn next_int(random: &mut JavaRandom, min_inclusive: i32, max_inclusive: i32) -> (r: i32)
    ensures
        (r as int, final(random).lcg_state()) == ranged_next_int_outcome(
            old(random).lcg_state(),
            min_inclusive as int,
            max_inclusive as int,
        ),
        final(random).cached_gaussian_bits() == old(random).cached_gaussian_bits(),
{
    if min_inclusive >= max_inclusive {
        return min_inclusive;
    }
    let bound = max_inclusive.wrapping_sub(min_inclusive).wrapping_add(1);
    proof {
        lemma_wrapping_bound(min_inclusive, max_inclusive, bound);
    }
    let v = random.next_int(bound);
    let r = v.wrapping_add(min_inclusive);
    r
}

/// The wrapping bound of [`next_int`] is `max - min + 1` reduced into `i32`.
proof fn lemma_wrapping_bound(min: i32, max: i32, bound: i32)
    requires
        min < max,
        bound == vstd::wrapping::i32_specs::wrapping_add(
            vstd::wrapping::i32_specs::wrapping_sub(max, min),
            1,
        ),
    ensures
        bound == wrap_i32(max - min + 1),
{
}

/// A ranged draw lands in `min..=max` whenever the range holds at most
/// `i32::MAX` values, and is then the bounded draw for `max - min + 1` plus
/// `min`, leaving the same state; a wider range gives `min` after one 31-bit draw; an
/// empty or single range gives `min` without drawing.
pub proof fn lemma_ranged_next_int(s: nat, min: int, max: int)
    requires
        i32::MIN <= min <= i32::MAX,
        i32::MIN <= max <= i32::MAX,
    ensures
        min >= max ==> ranged_next_int_outcome(s, min, max) == (min, s),
        min < max && max - min + 1 <= i32::MAX ==> min <= ranged_next_int_outcome(s, min, max).0
            <= max,
        min < max && max - min + 1 <= i32::MAX ==> ranged_next_int_outcome(s, min, max) == (
            next_int_outcome(s, max - min + 1).0 + min,
            next_int_outcome(s, max - min + 1).1,
        ),
        min < max && max - min + 1 > i32::MAX ==> ranged_next_int_outcome(s, min, max) == (
            min,
            crate::random::lcg_next(s),
        ),
{
    if min < max {
        let bound = wrap_i32(max - min + 1);
        if max - min + 1 <= i32::MAX {
            lemma_wrap_i32_small(max - min + 1);
            assert(bound == max - min + 1);
            crate::random::lemma_next_int_range(s, bound);
            let v = next_int_outcome(s, bound).0;
            lemma_wrap_i32_small(v + min);
        } else {
            assert(bound <= 0);
        }
    }
}

} // verus!
