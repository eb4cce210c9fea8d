//! `JavaRandom`: a 48-bit linear congruential generator.
//!
//! The generator holds a 48-bit state `s` and advances it as
//! `s ← (s · 0x5_DEEC_E66D + 0xB) mod 2⁴⁸`. Every draw takes the top bits of
//! the new state, and every derived value is built from those draws in a
//! fixed order, so a seed determines the whole sequence.
//!
//! There is deliberately no seedless constructor: every generator is created
//! from an explicit seed.

use vstd::arithmetic::div_mod::{
    lemma_add_mod_noop, lemma_mod_bound, lemma_mod_mod, lemma_mod_twice, lemma_mul_mod_noop_left,
    lemma_mul_mod_noop_right, lemma_small_mod,
};
use vstd::arithmetic::power2::{lemma2_to64, lemma2_to64_rest, lemma_pow2_unfold, pow2};
use vstd::bits::lemma_u64_shr_is_div;
use vstd::prelude::*;

use crate::mth::{wrap_i32, wrap_i64};

verus! {

/// The number of states, `2⁴⁸`.
pub open spec fn state_modulus() -> nat {
    0x1_0000_0000_0000
}

/// Multiplier of the state update.
pub open spec fn lcg_multiplier() -> nat {
    0x5_DEEC_E66D
}

/// Increment of the state update.
pub open spec fn lcg_increment() -> nat {
    0xB
}

/// One step of the state update: `(s · 0x5_DEEC_E66D + 0xB) mod 2⁴⁸`.
pub open spec fn lcg_next(s: nat) -> nat {
    (s * lcg_multiplier() + lcg_increment()) % state_modulus()
}

/// The state after `n` steps from `s`.
pub open spec fn lcg_iter(s: nat, n: nat) -> nat
    decreases n,
{
    if n == 0 {
        s
    } else {
        lcg_iter(lcg_next(s), (n - 1) as nat)
    }
}

/// The draw of `bits` bits from state `s`: its top `bits` bits out of 48,
/// as an unsigned number reinterpreted as `i32`.
pub open spec fn draw(s: nat, bits: nat) -> int {
    wrap_i32((s / pow2((48 - bits) as nat)) as int)
}

/// The state a seed starts from: its low 48 bits XOR the multiplier.
pub open spec fn seed_state(seed: i64) -> nat {
    (((seed as u64) ^ 0x5_DEEC_E66Du64) & 0xffff_ffff_ffffu64) as nat
}

/// `2^j` steps of the update, as an affine map `s ↦ (a·s + c) mod 2⁴⁸`:
/// the pair `(a, c)`.
pub open spec fn doubled_step(j: nat) -> (nat, nat)
    decreases j,
{
    if j == 0 {
        (lcg_multiplier(), lcg_increment())
    } else {
        let (a, c) = doubled_step((j - 1) as nat);
        ((a * a) % state_modulus(), (a * c + c) % state_modulus())
    }
}

/// Steps compose: `a + b` steps are `a` steps followed by `b` steps.
pub proof fn lemma_lcg_iter_add(s: nat, a: nat, b: nat)
    ensures
        lcg_iter(s, a + b) == lcg_iter(lcg_iter(s, a), b),
    decreases a,
{
    if a > 0 {
        lemma_lcg_iter_add(lcg_next(s), (a - 1) as nat, b);
        assert(lcg_iter(s, a + b) == lcg_iter(lcg_next(s), (a + b - 1) as nat));
    }
}

/// Composing the affine map `s ↦ (a·s + c) mod m` with itself.
proof fn lemma_affine_square(s: int, a: int, c: int, m: int)
    requires
        m > 0,
    ensures
        (a * ((a * s + c) % m) + c) % m == (((a * a) % m) * s + (a * c + c) % m) % m,
{
    let u = a * s + c;
    lemma_mul_mod_noop_right(a, u, m);
    lemma_add_mod_noop(a * (u % m), c, m);
    lemma_add_mod_noop(a * u, c, m);
    assert(a * (a * s + c) + c == (a * a) * s + (a * c + c)) by (nonlinear_arith);
    lemma_mul_mod_noop_left(a * a, s, m);
    lemma_mod_twice(a * c + c, m);
    lemma_add_mod_noop((a * a) * s, a * c + c, m);
    lemma_add_mod_noop(((a * a) % m) * s, (a * c + c) % m, m);
    lemma_mod_twice(((a * a) % m) * s, m);
    lemma_mul_mod_noop_left(a * a, s, m);
}

/// `2^j` steps are the affine map given by [`doubled_step`].
pub proof fn lemma_lcg_iter_doubled(s: nat, j: nat)
    ensures
        lcg_iter(s, pow2(j)) == (doubled_step(j).0 * s + doubled_step(j).1) % state_modulus(),
    decreases j,
{
    if j == 0 {
        lemma2_to64();
        assert(lcg_iter(s, 1) == lcg_iter(lcg_next(s), 0));
        assert(doubled_step(0) == (lcg_multiplier(), lcg_increment()));
        assert(lcg_iter(s, 1) == lcg_next(s));
    } else {
        let p = pow2((j - 1) as nat);
        lemma_pow2_unfold(j);
        lemma_lcg_iter_add(s, p, p);
        lemma_lcg_iter_doubled(s, (j - 1) as nat);
        let t = lcg_iter(s, p);
        lemma_lcg_iter_doubled(t, (j - 1) as nat);
        let (a, c) = doubled_step((j - 1) as nat);
        lemma_affine_square(s as int, a as int, c as int, state_modulus() as int);
        assert(pow2(j) == p + p);
        assert(lcg_iter(s, pow2(j)) == lcg_iter(t, p));
        assert(t == (a * s + c) % state_modulus());
        assert(lcg_iter(t, p) == (a * t + c) % state_modulus());
        assert(doubled_step(j) == ((a * a) % state_modulus(), (a * c + c) % state_modulus()));
    }
}

/// One squaring step of [`doubled_step`], with its result given.
proof fn lemma_doubled_step_next(j: nat, a: nat, c: nat, a2: nat, c2: nat)
    requires
        j > 0,
        doubled_step((j - 1) as nat) == (a, c),
        a2 == (a * a) % state_modulus(),
        c2 == (a * c + c) % state_modulus(),
    ensures
        doubled_step(j) == (a2, c2),
{
}

/// The affine maps of `2⁴⁷` and `2⁴⁸` steps, computed by repeated squaring.
proof fn lemma_doubled_step_table()
    ensures
        doubled_step(47) == (1nat, 0x8000_0000_0000nat),
        doubled_step(48) == (1nat, 0nat),
{
    assert((0x5deece66d * 0x5deece66d) % 0x1_0000_0000_0000nat == 0xbb20b4600a69 && (0x5deece66d * 0xb + 0xb) % 0x1_0000_0000_0000nat == 0x40942de6ba) by (nonlinear_arith);
    lemma_doubled_step_next(1, 0x5deece66d, 0xb, 0xbb20b4600a69, 0x40942de6ba);
    assert((0xbb20b4600a69 * 0xbb20b4600a69) % 0x1_0000_0000_0000nat == 0x32eb772c5f11 && (0xbb20b4600a69 * 0x40942de6ba + 0x40942de6ba) % 0x1_0000_0000_0000nat == 0x2d3873c4cd04) by (nonlinear_arith);
    lemma_doubled_step_next(2, 0xbb20b4600a69, 0x40942de6ba, 0x32eb772c5f11, 0x2d3873c4cd04);
    assert((0x32eb772c5f11 * 0x32eb772c5f11) % 0x1_0000_0000_0000nat == 0x75489f259f21 && (0x32eb772c5f11 * 0x2d3873c4cd04 + 0x2d3873c4cd04) % 0x1_0000_0000_0000nat == 0x7cba449ae648) by (nonlinear_arith);
    lemma_doubled_step_next(3, 0x32eb772c5f11, 0x2d3873c4cd04, 0x75489f259f21, 0x7cba449ae648);
    assert((0x75489f259f21 * 0x75489f259f21) % 0x1_0000_0000_0000nat == 0x6dc260740241 && (0x75489f259f21 * 0x7cba449ae648 + 0x7cba449ae648) % 0x1_0000_0000_0000nat == 0xd0352014d90) by (nonlinear_arith);
    lemma_doubled_step_next(4, 0x75489f259f21, 0x7cba449ae648, 0x6dc260740241, 0xd0352014d90);
    assert((0x6dc260740241 * 0x6dc260740241) % 0x1_0000_0000_0000nat == 0xfac6caed1481 && (0x6dc260740241 * 0xd0352014d90 + 0xd0352014d90) % 0x1_0000_0000_0000nat == 0x1e4c4c311f20) by (nonlinear_arith);
    lemma_doubled_step_next(5, 0x6dc260740241, 0xd0352014d90, 0xfac6caed1481, 0x1e4c4c311f20);
    assert((0xfac6caed1481 * 0xfac6caed1481) % 0x1_0000_0000_0000nat == 0xab768c7e6901 && (0xfac6caed1481 * 0x1e4c4c311f20 + 0x1e4c4c311f20) % 0x1_0000_0000_0000nat == 0xf77b98004e40) by (nonlinear_arith);
    lemma_doubled_step_next(6, 0xfac6caed1481, 0x1e4c4c311f20, 0xab768c7e6901, 0xf77b98004e40);
    assert((0xab768c7e6901 * 0xab768c7e6901) % 0x1_0000_0000_0000nat == 0xa430a00dd201 && (0xab768c7e6901 * 0xf77b98004e40 + 0xf77b98004e40) % 0x1_0000_0000_0000nat == 0x6cc0d398dc80) by (nonlinear_arith);
    lemma_doubled_step_next(7, 0xab768c7e6901, 0xf77b98004e40, 0xa430a00dd201, 0x6cc0d398dc80);
    assert((0xa430a00dd201 * 0xa430a00dd201) % 0x1_0000_0000_0000nat == 0x4fa0405fa401 && (0xa430a00dd201 * 0x6cc0d398dc80 + 0x6cc0d398dc80) % 0x1_0000_0000_0000nat == 0xa7a83e92b900) by (nonlinear_arith);
    lemma_doubled_step_next(8, 0xa430a00dd201, 0x6cc0d398dc80, 0x4fa0405fa401, 0xa7a83e92b900);
    assert((0x4fa0405fa401 * 0x4fa0405fa401) % 0x1_0000_0000_0000nat == 0x94fba1cf4801 && (0x4fa0405fa401 * 0xa7a83e92b900 + 0xa7a83e92b900) % 0x1_0000_0000_0000nat == 0x9e1922a97200) by (nonlinear_arith);
    lemma_doubled_step_next(9, 0x4fa0405fa401, 0xa7a83e92b900, 0x94fba1cf4801, 0x9e1922a97200);
    assert((0x94fba1cf4801 * 0x94fba1cf4801) % 0x1_0000_0000_0000nat == 0xba5cc7de9001 && (0x94fba1cf4801 * 0x9e1922a97200 + 0x9e1922a97200) % 0x1_0000_0000_0000nat == 0xaba71b62e400) by (nonlinear_arith);
    lemma_doubled_step_next(10, 0x94fba1cf4801, 0x9e1922a97200, 0xba5cc7de9001, 0xaba71b62e400);
    assert((0xba5cc7de9001 * 0xba5cc7de9001) % 0x1_0000_0000_0000nat == 0xba17a0bd2001 && (0xba5cc7de9001 * 0xaba71b62e400 + 0xaba71b62e400) % 0x1_0000_0000_0000nat == 0xe5b38f05c800) by (nonlinear_arith);
    lemma_doubled_step_next(11, 0xba5cc7de9001, 0xaba71b62e400, 0xba17a0bd2001, 0xe5b38f05c800);
    assert((0xba17a0bd2001 * 0xba17a0bd2001) % 0x1_0000_0000_0000nat == 0x27e7857a4001 && (0xba17a0bd2001 * 0xe5b38f05c800 + 0xe5b38f05c800) % 0x1_0000_0000_0000nat == 0x698c7f0b9000) by (nonlinear_arith);
    lemma_doubled_step_next(12, 0xba17a0bd2001, 0xe5b38f05c800, 0x27e7857a4001, 0x698c7f0b9000);
    assert((0x27e7857a4001 * 0x27e7857a4001) % 0x1_0000_0000_0000nat == 0x10b01af48001 && (0x27e7857a4001 * 0x698c7f0b9000 + 0x698c7f0b9000) % 0x1_0000_0000_0000nat == 0x702e82172000) by (nonlinear_arith);
    lemma_doubled_step_next(13, 0x27e7857a4001, 0x698c7f0b9000, 0x10b01af48001, 0x702e82172000);
    assert((0x10b01af48001 * 0x10b01af48001) % 0x1_0000_0000_0000nat == 0xb4e475e90001 && (0x10b01af48001 * 0x702e82172000 + 0x702e82172000) % 0x1_0000_0000_0000nat == 0x78b3142e4000) by (nonlinear_arith);
    lemma_doubled_step_next(14, 0x10b01af48001, 0x702e82172000, 0xb4e475e90001, 0x78b3142e4000);
    assert((0xb4e475e90001 * 0xb4e475e90001) % 0x1_0000_0000_0000nat == 0x37d9ebd20001 && (0xb4e475e90001 * 0x78b3142e4000 + 0x78b3142e4000) % 0x1_0000_0000_0000nat == 0x72be685c8000) by (nonlinear_arith);
    lemma_doubled_step_next(15, 0xb4e475e90001, 0x78b3142e4000, 0x37d9ebd20001, 0x72be685c8000);
    assert((0x37d9ebd20001 * 0x37d9ebd20001) % 0x1_0000_0000_0000nat == 0xa7f7d7a40001 && (0x37d9ebd20001 * 0x72be685c8000 + 0x72be685c8000) % 0x1_0000_0000_0000nat == 0xeaddd0b90000) by (nonlinear_arith);
    lemma_doubled_step_next(16, 0x37d9ebd20001, 0x72be685c8000, 0xa7f7d7a40001, 0xeaddd0b90000);
    assert((0xa7f7d7a40001 * 0xa7f7d7a40001) % 0x1_0000_0000_0000nat == 0x30ffaf480001 && (0xa7f7d7a40001 * 0xeaddd0b90000 + 0xeaddd0b90000) % 0x1_0000_0000_0000nat == 0xeb3fa1720000) by (nonlinear_arith);
    lemma_doubled_step_next(17, 0xa7f7d7a40001, 0xeaddd0b90000, 0x30ffaf480001, 0xeb3fa1720000);
    assert((0x30ffaf480001 * 0x30ffaf480001) % 0x1_0000_0000_0000nat == 0xe63f5e900001 && (0x30ffaf480001 * 0xeb3fa1720000 + 0xeb3fa1720000) % 0x1_0000_0000_0000nat == 0x2c8f42e40000) by (nonlinear_arith);
    lemma_doubled_step_next(18, 0x30ffaf480001, 0xeb3fa1720000, 0xe63f5e900001, 0x2c8f42e40000);
    assert((0xe63f5e900001 * 0xe63f5e900001) % 0x1_0000_0000_0000nat == 0xdd7ebd200001 && (0xe63f5e900001 * 0x2c8f42e40000 + 0x2c8f42e40000) % 0x1_0000_0000_0000nat == 0xb15e85c80000) by (nonlinear_arith);
    lemma_doubled_step_next(19, 0xe63f5e900001, 0x2c8f42e40000, 0xdd7ebd200001, 0xb15e85c80000);
    assert((0xdd7ebd200001 * 0xdd7ebd200001) % 0x1_0000_0000_0000nat == 0xfefd7a400001 && (0xdd7ebd200001 * 0xb15e85c80000 + 0xb15e85c80000) % 0x1_0000_0000_0000nat == 0xc3bd0b900000) by (nonlinear_arith);
    lemma_doubled_step_next(20, 0xdd7ebd200001, 0xb15e85c80000, 0xfefd7a400001, 0xc3bd0b900000);
    assert((0xfefd7a400001 * 0xfefd7a400001) % 0x1_0000_0000_0000nat == 0xdfaf4800001 && (0xfefd7a400001 * 0xc3bd0b900000 + 0xc3bd0b900000) % 0x1_0000_0000_0000nat == 0xb7a17200000) by (nonlinear_arith);
    lemma_doubled_step_next(21, 0xfefd7a400001, 0xc3bd0b900000, 0xdfaf4800001, 0xb7a17200000);
    assert((0xdfaf4800001 * 0xdfaf4800001) % 0x1_0000_0000_0000nat == 0x5bf5e9000001 && (0xdfaf4800001 * 0xb7a17200000 + 0xb7a17200000) % 0x1_0000_0000_0000nat == 0x26f42e400000) by (nonlinear_arith);
    lemma_doubled_step_next(22, 0xdfaf4800001, 0xb7a17200000, 0x5bf5e9000001, 0x26f42e400000);
    assert((0x5bf5e9000001 * 0x5bf5e9000001) % 0x1_0000_0000_0000nat == 0xb7ebd2000001 && (0x5bf5e9000001 * 0x26f42e400000 + 0x26f42e400000) % 0x1_0000_0000_0000nat == 0x8de85c800000) by (nonlinear_arith);
    lemma_doubled_step_next(23, 0x5bf5e9000001, 0x26f42e400000, 0xb7ebd2000001, 0x8de85c800000);
    assert((0xb7ebd2000001 * 0xb7ebd2000001) % 0x1_0000_0000_0000nat == 0x6fd7a4000001 && (0xb7ebd2000001 * 0x8de85c800000 + 0x8de85c800000) % 0x1_0000_0000_0000nat == 0x1bd0b9000000) by (nonlinear_arith);
    lemma_doubled_step_next(24, 0xb7ebd2000001, 0x8de85c800000, 0x6fd7a4000001, 0x1bd0b9000000);
    assert((0x6fd7a4000001 * 0x6fd7a4000001) % 0x1_0000_0000_0000nat == 0xdfaf48000001 && (0x6fd7a4000001 * 0x1bd0b9000000 + 0x1bd0b9000000) % 0x1_0000_0000_0000nat == 0x37a172000000) by (nonlinear_arith);
    lemma_doubled_step_next(25, 0x6fd7a4000001, 0x1bd0b9000000, 0xdfaf48000001, 0x37a172000000);
    assert((0xdfaf48000001 * 0xdfaf48000001) % 0x1_0000_0000_0000nat == 0xbf5e90000001 && (0xdfaf48000001 * 0x37a172000000 + 0x37a172000000) % 0x1_0000_0000_0000nat == 0x6f42e4000000) by (nonlinear_arith);
    lemma_doubled_step_next(26, 0xdfaf48000001, 0x37a172000000, 0xbf5e90000001, 0x6f42e4000000);
    assert((0xbf5e90000001 * 0xbf5e90000001) % 0x1_0000_0000_0000nat == 0x7ebd20000001 && (0xbf5e90000001 * 0x6f42e4000000 + 0x6f42e4000000) % 0x1_0000_0000_0000nat == 0xde85c8000000) by (nonlinear_arith);
    lemma_doubled_step_next(27, 0xbf5e90000001, 0x6f42e4000000, 0x7ebd20000001, 0xde85c8000000);
    assert((0x7ebd20000001 * 0x7ebd20000001) % 0x1_0000_0000_0000nat == 0xfd7a40000001 && (0x7ebd20000001 * 0xde85c8000000 + 0xde85c8000000) % 0x1_0000_0000_0000nat == 0xbd0b90000000) by (nonlinear_arith);
    lemma_doubled_step_next(28, 0x7ebd20000001, 0xde85c8000000, 0xfd7a40000001, 0xbd0b90000000);
    assert((0xfd7a40000001 * 0xfd7a40000001) % 0x1_0000_0000_0000nat == 0xfaf480000001 && (0xfd7a40000001 * 0xbd0b90000000 + 0xbd0b90000000) % 0x1_0000_0000_0000nat == 0x7a1720000000) by (nonlinear_arith);
    lemma_doubled_step_next(29, 0xfd7a40000001, 0xbd0b90000000, 0xfaf480000001, 0x7a1720000000);
    assert((0xfaf480000001 * 0xfaf480000001) % 0x1_0000_0000_0000nat == 0xf5e900000001 && (0xfaf480000001 * 0x7a1720000000 + 0x7a1720000000) % 0x1_0000_0000_0000nat == 0xf42e40000000) by (nonlinear_arith);
    lemma_doubled_step_next(30, 0xfaf480000001, 0x7a1720000000, 0xf5e900000001, 0xf42e40000000);
    assert((0xf5e900000001 * 0xf5e900000001) % 0x1_0000_0000_0000nat == 0xebd200000001 && (0xf5e900000001 * 0xf42e40000000 + 0xf42e40000000) % 0x1_0000_0000_0000nat == 0xe85c80000000) by (nonlinear_arith);
    lemma_doubled_step_next(31, 0xf5e900000001, 0xf42e40000000, 0xebd200000001, 0xe85c80000000);
    assert((0xebd200000001 * 0xebd200000001) % 0x1_0000_0000_0000nat == 0xd7a400000001 && (0xebd200000001 * 0xe85c80000000 + 0xe85c80000000) % 0x1_0000_0000_0000nat == 0xd0b900000000) by (nonlinear_arith);
    lemma_doubled_step_next(32, 0xebd200000001, 0xe85c80000000, 0xd7a400000001, 0xd0b900000000);
    assert((0xd7a400000001 * 0xd7a400000001) % 0x1_0000_0000_0000nat == 0xaf4800000001 && (0xd7a400000001 * 0xd0b900000000 + 0xd0b900000000) % 0x1_0000_0000_0000nat == 0xa17200000000) by (nonlinear_arith);
    lemma_doubled_step_next(33, 0xd7a400000001, 0xd0b900000000, 0xaf4800000001, 0xa17200000000);
    assert((0xaf4800000001 * 0xaf4800000001) % 0x1_0000_0000_0000nat == 0x5e9000000001 && (0xaf4800000001 * 0xa17200000000 + 0xa17200000000) % 0x1_0000_0000_0000nat == 0x42e400000000) by (nonlinear_arith);
    lemma_doubled_step_next(34, 0xaf4800000001, 0xa17200000000, 0x5e9000000001, 0x42e400000000);
    assert((0x5e9000000001 * 0x5e9000000001) % 0x1_0000_0000_0000nat == 0xbd2000000001 && (0x5e9000000001 * 0x42e400000000 + 0x42e400000000) % 0x1_0000_0000_0000nat == 0x85c800000000) by (nonlinear_arith);
    lemma_doubled_step_next(35, 0x5e9000000001, 0x42e400000000, 0xbd2000000001, 0x85c800000000);
    assert((0xbd2000000001 * 0xbd2000000001) % 0x1_0000_0000_0000nat == 0x7a4000000001 && (0xbd2000000001 * 0x85c800000000 + 0x85c800000000) % 0x1_0000_0000_0000nat == 0xb9000000000) by (nonlinear_arith);
    lemma_doubled_step_next(36, 0xbd2000000001, 0x85c800000000, 0x7a4000000001, 0xb9000000000);
    assert((0x7a4000000001 * 0x7a4000000001) % 0x1_0000_0000_0000nat == 0xf48000000001 && (0x7a4000000001 * 0xb9000000000 + 0xb9000000000) % 0x1_0000_0000_0000nat == 0x172000000000) by (nonlinear_arith);
    lemma_doubled_step_next(37, 0x7a4000000001, 0xb9000000000, 0xf48000000001, 0x172000000000);
    assert((0xf48000000001 * 0xf48000000001) % 0x1_0000_0000_0000nat == 0xe90000000001 && (0xf48000000001 * 0x172000000000 + 0x172000000000) % 0x1_0000_0000_0000nat == 0x2e4000000000) by (nonlinear_arith);
    lemma_doubled_step_next(38, 0xf48000000001, 0x172000000000, 0xe90000000001, 0x2e4000000000);
    assert((0xe90000000001 * 0xe90000000001) % 0x1_0000_0000_0000nat == 0xd20000000001 && (0xe90000000001 * 0x2e4000000000 + 0x2e4000000000) % 0x1_0000_0000_0000nat == 0x5c8000000000) by (nonlinear_arith);
    lemma_doubled_step_next(39, 0xe90000000001, 0x2e4000000000, 0xd20000000001, 0x5c8000000000);
    assert((0xd20000000001 * 0xd20000000001) % 0x1_0000_0000_0000nat == 0xa40000000001 && (0xd20000000001 * 0x5c8000000000 + 0x5c8000000000) % 0x1_0000_0000_0000nat == 0xb90000000000) by (nonlinear_arith);
    lemma_doubled_step_next(40, 0xd20000000001, 0x5c8000000000, 0xa40000000001, 0xb90000000000);
    assert((0xa40000000001 * 0xa40000000001) % 0x1_0000_0000_0000nat == 0x480000000001 && (0xa40000000001 * 0xb90000000000 + 0xb90000000000) % 0x1_0000_0000_0000nat == 0x720000000000) by (nonlinear_arith);
    lemma_doubled_step_next(41, 0xa40000000001, 0xb90000000000, 0x480000000001, 0x720000000000);
    assert((0x480000000001 * 0x480000000001) % 0x1_0000_0000_0000nat == 0x900000000001 && (0x480000000001 * 0x720000000000 + 0x720000000000) % 0x1_0000_0000_0000nat == 0xe40000000000) by (nonlinear_arith);
    lemma_doubled_step_next(42, 0x480000000001, 0x720000000000, 0x900000000001, 0xe40000000000);
    assert((0x900000000001 * 0x900000000001) % 0x1_0000_0000_0000nat == 0x200000000001 && (0x900000000001 * 0xe40000000000 + 0xe40000000000) % 0x1_0000_0000_0000nat == 0xc80000000000) by (nonlinear_arith);
    lemma_doubled_step_next(43, 0x900000000001, 0xe40000000000, 0x200000000001, 0xc80000000000);
    assert((0x200000000001 * 0x200000000001) % 0x1_0000_0000_0000nat == 0x400000000001 && (0x200000000001 * 0xc80000000000 + 0xc80000000000) % 0x1_0000_0000_0000nat == 0x900000000000) by (nonlinear_arith);
    lemma_doubled_step_next(44, 0x200000000001, 0xc80000000000, 0x400000000001, 0x900000000000);
    assert((0x400000000001 * 0x400000000001) % 0x1_0000_0000_0000nat == 0x800000000001 && (0x400000000001 * 0x900000000000 + 0x900000000000) % 0x1_0000_0000_0000nat == 0x200000000000) by (nonlinear_arith);
    lemma_doubled_step_next(45, 0x400000000001, 0x900000000000, 0x800000000001, 0x200000000000);
    assert((0x800000000001 * 0x800000000001) % 0x1_0000_0000_0000nat == 0x1 && (0x800000000001 * 0x200000000000 + 0x200000000000) % 0x1_0000_0000_0000nat == 0x400000000000) by (nonlinear_arith);
    lemma_doubled_step_next(46, 0x800000000001, 0x200000000000, 0x1, 0x400000000000);
    assert((0x1 * 0x1) % 0x1_0000_0000_0000nat == 0x1 && (0x1 * 0x400000000000 + 0x400000000000) % 0x1_0000_0000_0000nat == 0x800000000000) by (nonlinear_arith);
    lemma_doubled_step_next(47, 0x1, 0x400000000000, 0x1, 0x800000000000);
    assert((0x1 * 0x1) % 0x1_0000_0000_0000nat == 0x1 && (0x1 * 0x800000000000 + 0x800000000000) % 0x1_0000_0000_0000nat == 0x0) by (nonlinear_arith);
    lemma_doubled_step_next(48, 0x1, 0x800000000000, 0x1, 0x0);
}

/// `2⁴⁷` steps add `2⁴⁷` to the state modulo `2⁴⁸`: they flip the top bit
/// and keep the other 47.
pub proof fn lemma_half_period(s: nat)
    requires
        s < state_modulus(),
    ensures
        lcg_iter(s, 0x8000_0000_0000) == (s + 0x8000_0000_0000nat) % state_modulus(),
{
    lemma2_to64_rest();
    lemma_lcg_iter_doubled(s, 47);
    lemma_doubled_step_table();
}

/// After `2⁴⁸` steps every state comes back to itself, and after `2⁴⁷` none
/// does: the sequence of states repeats with a period that divides `2⁴⁸`
/// and does not divide `2⁴⁷`.
pub proof fn lemma_period(s: nat)
    requires
        s < state_modulus(),
    ensures
        lcg_iter(s, 0x1_0000_0000_0000) == s,
        lcg_iter(s, 0x8000_0000_0000) != s,
{
    lemma2_to64_rest();
    lemma_lcg_iter_doubled(s, 48);
    lemma_doubled_step_table();
    lemma_small_mod(s, state_modulus());
    lemma_half_period(s);
}

/// Whether `b` is one of `1, 2, 4, …, 2³⁰`.
pub open spec fn is_power_of_two(b: int) -> bool {
    exists|j: nat| j < 31 && b == pow2(j)
}

/// Whether a 31-bit draw `d` is kept by the bounded draw for `bound`: the
/// block of `bound` values that `d` falls in, starting at `d - d % bound`,
/// lies entirely below `2³¹`.
pub open spec fn accepts(d: int, bound: int) -> bool {
    d - d % bound + (bound - 1) <= 0x7fff_ffff
}

/// Whether step `k` (counted from state `s`, the first step being `1`) is
/// the first whose 31-bit draw is kept for `bound`.
pub open spec fn is_first_accepting_step(s: nat, bound: int, k: nat) -> bool {
    &&& k >= 1
    &&& accepts(draw(lcg_iter(s, k), 31), bound)
    &&& forall|i: nat|
        #![trigger lcg_iter(s, i)]
        1 <= i < k ==> !accepts(draw(lcg_iter(s, i), 31), bound)
}

/// The first step from `s` whose 31-bit draw is kept for `bound`.
pub open spec fn first_accepting_step(s: nat, bound: int) -> nat {
    choose|k: nat| is_first_accepting_step(s, bound, k)
}

/// What a bounded draw for `bound` returns from state `s`, and the state it
/// leaves behind.
///
/// A bound of zero or less takes one 31-bit draw and gives `0`. A power of
/// two takes one 31-bit draw `d` and gives `(d · bound) / 2³¹`. Any other
/// bound takes 31-bit draws until one is kept (see [`accepts`]) and gives
/// that draw modulo `bound`.
pub open spec fn next_int_outcome(s: nat, bound: int) -> (int, nat) {
    if bound <= 0 {
        (0, lcg_next(s))
    } else if is_power_of_two(bound) {
        ((draw(lcg_next(s), 31) * bound) / 0x8000_0000, lcg_next(s))
    } else {
        let k = first_accepting_step(s, bound);
        (draw(lcg_iter(s, k), 31) % bound, lcg_iter(s, k))
    }
}

/// The first accepting step is unique.
proof fn lemma_first_accepting_step_unique(s: nat, bound: int, k: nat)
    requires
        is_first_accepting_step(s, bound, k),
    ensures
        first_accepting_step(s, bound) == k,
{
    let c = first_accepting_step(s, bound);
    assert(is_first_accepting_step(s, bound, c));
    if c < k {
        assert(lcg_iter(s, c) == lcg_iter(s, c));
    } else if k < c {
        assert(lcg_iter(s, k) == lcg_iter(s, k));
    }
}

/// A bounded draw lands in `0..bound` for a positive bound; a bound of zero
/// or less gives `0` after exactly one draw, and so does every power of two
/// (its result after exactly one draw too).
pub proof fn lemma_next_int_range(s: nat, bound: int)
    ensures
        bound <= 0 ==> next_int_outcome(s, bound) == (0int, lcg_next(s)),
        0 < bound ==> 0 <= next_int_outcome(s, bound).0 < bound,
        is_power_of_two(bound) ==> next_int_outcome(s, bound).1 == lcg_next(s),
{
    if bound > 0 {
        if is_power_of_two(bound) {
            let s1 = lcg_next(s);
            lemma_mod_bound((s * lcg_multiplier() + lcg_increment()) as int, state_modulus() as int);
            lemma_draw_range(s1, 31);
            lemma2_to64();
            let d = draw(s1, 31);
            assert((d * bound) / 0x8000_0000 < bound && 0 <= (d * bound) / 0x8000_0000)
                by (nonlinear_arith)
                requires
                    0 <= d < 0x8000_0000,
                    0 < bound,
            ;
        } else {
            let k = first_accepting_step(s, bound);
            lemma_mod_bound(draw(lcg_iter(s, k), 31), bound);
        }
    } else {
        lemma2_to64();
    }
}

/// A draw of fewer than 32 bits from a 48-bit state is its top bits as a
/// non-negative number below `2^bits`.
pub proof fn lemma_draw_range(s: nat, bits: nat)
    requires
        s < state_modulus(),
        1 <= bits <= 31,
    ensures
        0 <= draw(s, bits) < pow2(bits),
        draw(s, bits) == s / pow2((48 - bits) as nat),
{
    lemma2_to64();
    lemma2_to64_rest();
    let q = pow2((48 - bits) as nat);
    vstd::arithmetic::power2::lemma_pow2_adds(bits, (48 - bits) as nat);
    vstd::arithmetic::power2::lemma_pow2_pos((48 - bits) as nat);
    if bits < 31 {
        vstd::arithmetic::power2::lemma_pow2_strictly_increases(bits, 31);
    }
    vstd::arithmetic::div_mod::lemma_div_by_multiple_is_strongly_ordered(
        s as int,
        state_modulus() as int,
        pow2(bits) as int,
        q as int,
    );
    vstd::arithmetic::div_mod::lemma_div_by_multiple(pow2(bits) as int, q as int);
    vstd::arithmetic::div_mod::lemma_div_pos_is_pos(s as int, q as int);
    lemma_small_mod((s / q) as nat, 0x1_0000_0000);
}

/// A draw taken from a state below `2⁴⁷` has its top bit clear, so every
/// bound keeps it.
proof fn lemma_low_state_accepted(s: nat, bound: int)
    requires
        s < 0x8000_0000_0000,
        0 < bound <= 0x7fff_ffff,
    ensures
        accepts(draw(s, 31), bound),
{
    lemma2_to64();
    lemma_draw_range(s, 31);
    let d = draw(s, 31);
    vstd::arithmetic::div_mod::lemma_div_is_ordered(s as int, 0x8000_0000_0000, 0x2_0000);
    assert(0x8000_0000_0000int / 0x2_0000int == 0x4000_0000int);
    lemma_mod_bound(d, bound);
    if d < bound {
        lemma_small_mod(d as nat, bound as nat);
    }
}

/// The power-of-two test used by the bounded draw: for a positive `b`,
/// `b & -b == b` exactly when `b` is a power of two.
proof fn lemma_power_of_two_test(b: i32)
    requires
        b > 0,
    ensures
        (b & ((-b) as i32) == b) <==> is_power_of_two(b as int),
{
    assert((b & ((-b) as i32) == b) <==> (b == 0x1 || b == 0x2 || b == 0x4 || b == 0x8 || b == 0x10 || b == 0x20 || b == 0x40 || b == 0x80 || b == 0x100 || b == 0x200 || b == 0x400 || b == 0x800 || b == 0x1000 || b == 0x2000 || b == 0x4000 || b == 0x8000 || b == 0x10000 || b == 0x20000 || b == 0x40000 || b == 0x80000 || b == 0x100000 || b == 0x200000 || b == 0x400000 || b == 0x800000 || b == 0x1000000 || b == 0x2000000 || b == 0x4000000 || b == 0x8000000 || b == 0x10000000 || b == 0x20000000 || b == 0x40000000)) by (bit_vector)
        requires
            b > 0,
    ;
    lemma2_to64();
    if is_power_of_two(b as int) {
        let j = choose|j: nat| j < 31 && b == pow2(j);
        assert(j == 0 || j == 1 || j == 2 || j == 3 || j == 4 || j == 5 || j == 6 || j == 7 || j == 8 || j == 9 || j == 10 || j == 11 || j == 12 || j == 13 || j == 14 || j == 15 || j == 16 || j == 17 || j == 18 || j == 19 || j == 20 || j == 21 || j == 22 || j == 23 || j == 24 || j == 25 || j == 26 || j == 27 || j == 28 || j == 29 || j == 30);
    }
}

/// No step from `s` up to step `k` (inclusive) has its draw kept for `bound`.
#[verifier::opaque]
pub open spec fn no_accepting_step_up_to(s: nat, bound: int, k: nat) -> bool {
    forall|i: nat|
        #![trigger lcg_iter(s, i)]
        1 <= i <= k ==> !accepts(draw(lcg_iter(s, i), 31), bound)
}

/// A number of steps, at least one, after which the state from `s` is below
/// `2⁴⁷`: one step, or if that lands at or above `2⁴⁷`, `2⁴⁷` more.
proof fn lemma_steps_to_low_state(s: nat) -> (n: nat)
    ensures
        n >= 1,
        lcg_iter(lcg_iter(s, n), 0) < 0x8000_0000_0000,
        lcg_iter(s, n) < 0x8000_0000_0000,
{
    let s1 = lcg_next(s);
    vstd::arithmetic::div_mod::lemma_mod_bound(
        (s * lcg_multiplier() + lcg_increment()) as int,
        state_modulus() as int,
    );
    assert(lcg_iter(s, 1) == lcg_iter(s1, 0));
    if s1 >= 0x8000_0000_0000 {
        lemma_lcg_iter_add(s, 1, 0x8000_0000_0000);
        lemma_half_period(s1);
        0x8000_0000_0001
    } else {
        1
    }
}

/// A kept draw at step `k`, after a run of rejected ones, is the first kept
/// step.
proof fn lemma_kept_step(s0: nat, bound: int, k: nat, d: int, result: int)
    requires
        k >= 1,
        d == draw(lcg_iter(s0, k), 31),
        result == d % bound,
        accepts(d, bound),
        no_accepting_step_up_to(s0, bound, (k - 1) as nat),
    ensures
        is_first_accepting_step(s0, bound, k),
        result == draw(lcg_iter(s0, k), 31) % bound,
{
    reveal(no_accepting_step_up_to);
}

/// A rejected draw at step `k + 1` extends the run of rejected steps.
proof fn lemma_no_accepting_extend(s: nat, bound: int, k: nat)
    requires
        no_accepting_step_up_to(s, bound, k),
        !accepts(draw(lcg_iter(s, k + 1), 31), bound),
    ensures
        no_accepting_step_up_to(s, bound, k + 1),
{
    reveal(no_accepting_step_up_to);
}

/// Bookkeeping of one step of the rejection loop.
proof fn lemma_lcg_iter_step(s0: nat, k: nat, before: nat, fuel: nat)
    requires
        before == lcg_iter(s0, k),
        fuel >= 1,
    ensures
        lcg_iter(s0, k + 1) == lcg_next(before),
        lcg_iter(before, fuel) == lcg_iter(lcg_next(before), (fuel - 1) as nat),
{
    lemma_lcg_iter_add(s0, k, 1);
    assert(lcg_iter(before, 1) == lcg_iter(lcg_next(before), 0));
}

/// The wrapping test of the rejection loop keeps exactly the accepted draws.
proof fn lemma_accept_test(d: i32, bound: i32, result: i32, kept: bool)
    requires
        0 <= d,
        0 < bound,
        result == d % bound,
        kept == (vstd::wrapping::i32_specs::wrapping_add(
            vstd::wrapping::i32_specs::wrapping_sub(d, result),
            (bound - 1) as i32,
        ) >= 0),
    ensures
        kept == accepts(d as int, bound as int),
{
    lemma_mod_bound(d as int, bound as int);
}

/// A 31-bit draw reduced for `bound`: the draw modulo `bound`, and whether
/// the draw is kept (the wrapping test `d - d % bound + (bound - 1) >= 0`).
fn reduce_draw(d: i32, bound: i32) -> (res: (i32, bool))
    requires
        0 <= d,
        0 < bound,
    ensures
        res.0 == d % bound,
        res.1 == accepts(d as int, bound as int),
{
    let result = d % bound;
    let kept = d.wrapping_sub(result).wrapping_add(bound - 1) >= 0;
    proof {
        lemma_accept_test(d, bound, result, kept);
    }
    (result, kept)
}

/// The transition of the state update on a `u64`, with wrapping
/// multiplication and addition and the top 16 bits cleared.
fn step(state: u64) -> (r: u64)
    ensures
        r as nat == lcg_next(state as nat),
        (r as nat) < state_modulus(),
{
    let w = state.wrapping_mul(MULTIPLIER);
    let v = w.wrapping_add(INCREMENT);
    let r = v & STATE_MASK;
    proof {
        assert(r == v % 0x1_0000_0000_0000) by (bit_vector)
            requires
                r == v & 0xffff_ffff_ffffu64,
        ;
        let m: int = 0x1_0000_0000_0000;
        let big: int = 0x1_0000_0000_0000_0000;
        assert(w == (state as int * 0x5_DEEC_E66D) % big);
        // v % m == (w + 0xB) % m, whether or not the addition wrapped.
        if w + 0xB > u64::MAX {
            vstd::arithmetic::div_mod::lemma_mod_multiples_vanish(1, v as int, m);
            assert(v + big == w + 0xB);
            assert(big == m * 0x1_0000);
            vstd::arithmetic::div_mod::lemma_mod_multiples_vanish(0x1_0000, v as int, m);
        }
        assert(v as int % m == (w + 0xB) % m);
        lemma_add_mod_noop(w as int, 0xB, m);
        lemma_mod_mod(state as int * 0x5_DEEC_E66D, m, 0x1_0000);
        lemma_add_mod_noop(state as int * 0x5_DEEC_E66D, 0xB, m);
        lemma_mod_twice(state as int * 0x5_DEEC_E66D, m);
    }
    r
}

/// The state a seed starts from: its low 48 bits XOR the multiplier.
fn scramble(seed: i64) -> (r: u64)
    ensures
        r as nat == seed_state(seed),
        (r as nat) < state_modulus(),
{
    let r = ((seed as u64) ^ MULTIPLIER) & STATE_MASK;
    assert(r < 0x1_0000_0000_0000) by (bit_vector)
        requires
            r == ((seed as u64) ^ 0x5_DEEC_E66Du64) & 0xffff_ffff_ffffu64,
    ;
    r
}

/// Multiplier of the state update.
const MULTIPLIER: u64 = 0x5_DEEC_E66D;

/// Increment of the state update.
const INCREMENT: u64 = 0xB;

/// The state is 48 bits wide.
const STATE_MASK: u64 = 0xffff_ffff_ffff;

/// A seeded 48-bit linear congruential generator.
///
/// Seeding, the state update and the integer and boolean draws produce the
/// same sequences as `java.util.Random`. The generator also holds the second
/// value of the last Gaussian pair (as its IEEE-754 bits) until it is handed
/// out; see [`JavaRandom::take_cached_gaussian`].
#[derive(Clone, Debug, PartialEq, Eq, Structural)]
pub struct JavaRandom {
    /// The 48-bit state; the upper 16 bits are always zero.
    state: u64,
    /// The bits of the cached second Gaussian, until it is handed out.
    cached_gaussian: Option<u64>,
}

impl JavaRandom {
    /// The generator's state.
    pub closed spec fn lcg_state(self) -> nat {
        self.state as nat
    }

    /// The cached second Gaussian of the last pair, as `f64` bits.
    pub closed spec fn cached_gaussian_bits(self) -> Option<u64> {
        self.cached_gaussian
    }

    /// A generator seeded with `seed`. Only the low 48 bits of `seed` matter.
    pub fn new(seed: i64) -> (r: JavaRandom)
        ensures
            r.lcg_state() == seed_state(seed),
            r.lcg_state() < state_modulus(),
            r.cached_gaussian_bits() is None,
    {
        JavaRandom { state: scramble(seed), cached_gaussian: None }
    }

    /// Restarts the sequence as if newly created with `seed`, discarding a
    /// cached Gaussian.
    pub fn set_seed(&mut self, seed: i64)
        ensures
            final(self).lcg_state() == seed_state(seed),
            final(self).lcg_state() < state_modulus(),
            final(self).cached_gaussian_bits() is None,
    {
        self.state = scramble(seed);
        self.cached_gaussian = None;
    }

    /// Advances the state once and returns its top `BITS` bits, as an
    /// unsigned number reinterpreted as `i32`: non-negative for `BITS < 32`,
    /// possibly negative for `BITS == 32`.
    pub fn next_bits<const BITS: u32>(&mut self) -> (r: i32)
        requires
            1 <= BITS <= 32,
        ensures
            final(self).lcg_state() == lcg_next(old(self).lcg_state()),
            final(self).lcg_state() < state_modulus(),
            r == draw(final(self).lcg_state(), BITS as nat),
            final(self).cached_gaussian_bits() == old(self).cached_gaussian_bits(),
    {
        let s = step(self.state);
        self.state = s;
        let shift: u64 = (48 - BITS) as u64;
        let top: u64 = s >> shift;
        proof {
            lemma_u64_shr_is_div(s, shift);
            assert(top < 0x1_0000_0000) by (bit_vector)
                requires
                    s < 0x1_0000_0000_0000u64,
                    16 <= shift < 48,
                    top == s >> shift,
            ;
            lemma_small_mod(top as nat, 0x1_0000_0000);
        }
        let r = top as u32 as i32;
        assert(r == (if top >= 0x8000_0000 { top - 0x1_0000_0000 } else { top as int }))
            by (bit_vector)
            requires
                top < 0x1_0000_0000u64,
                r == top as u32 as i32,
        ;
        proof {
            crate::mth::lemma_wrap_i32_unsigned(top as int);
        }
        r
    }

    /// A uniformly distributed `i32` over its whole range: one 32-bit draw.
    pub fn next_int_unbounded(&mut self) -> (r: i32)
        ensures
            final(self).lcg_state() == lcg_next(old(self).lcg_state()),
            r == draw(final(self).lcg_state(), 32),
            final(self).cached_gaussian_bits() == old(self).cached_gaussian_bits(),
    {
        self.next_bits::<32>()
    }

    /// A uniformly distributed integer in `0..bound`, for `bound > 0`.
    ///
    /// When `bound` is a power of two, the result is the top bits of one
    /// 31-bit draw: `(draw · bound) >> 31`. Otherwise draws whose block of
    /// `bound` values would run past `i32::MAX` are rejected and another is
    /// taken, and the result is the kept draw modulo `bound`. A `bound` of
    /// zero or less gives `0` after one 31-bit draw. This never panics.
    pub fn next_int(&mut self, bound: i32) -> (r: i32)
        ensures
            (r as int, final(self).lcg_state()) == next_int_outcome(
                old(self).lcg_state(),
                bound as int,
            ),
            final(self).lcg_state() < state_modulus(),
            final(self).cached_gaussian_bits() == old(self).cached_gaussian_bits(),
    {
        if bound <= 0 {
            self.next_bits::<31>();
            return 0;
        }
        proof {
            lemma_power_of_two_test(bound);
        }
        if bound & -bound == bound {
            let d = self.next_bits::<31>();
            proof {
                lemma_draw_range(self.lcg_state(), 31);
                lemma2_to64();
            }
            assert(d * bound < 0x4000_0000_0000_0000) by (nonlinear_arith)
                requires
                    0 <= d < 0x8000_0000,
                    0 < bound < 0x8000_0000,
            ;
            let p: i64 = d as i64 * bound as i64;
            assert(0 <= p < 0x8000_0000 * 0x8000_0000) by (nonlinear_arith)
                requires
                    p == d * bound,
                    0 <= d < 0x8000_0000,
                    0 < bound < 0x8000_0000,
            ;
            let q: i64 = p >> 31;
            assert(q == p / 0x8000_0000) by (bit_vector)
                requires
                    0 <= p,
                    q == p >> 31,
            ;
            assert(q < bound) by (nonlinear_arith)
                requires
                    q == p / 0x8000_0000,
                    p == d * bound,
                    0 <= d < 0x8000_0000,
                    0 < bound,
            ;
            return q as i32;
        }
        let ghost s0 = self.lcg_state();
        let (r, Ghost(k)) = self.next_int_by_rejection(bound);
        proof {
            lemma_first_accepting_step_unique(s0, bound as int, k);
        }
        r
    }

    /// The rejection loop of [`JavaRandom::next_int`]: 31-bit draws until one
    /// is kept for `bound`, then that draw modulo `bound`.
    fn next_int_by_rejection(&mut self, bound: i32) -> (res: (i32, Ghost<nat>))
        requires
            0 < bound,
        ensures
            is_first_accepting_step(old(self).lcg_state(), bound as int, res.1@),
            final(self).lcg_state() == lcg_iter(old(self).lcg_state(), res.1@),
            res.0 == draw(lcg_iter(old(self).lcg_state(), res.1@), 31) % (bound as int),
            final(self).lcg_state() < state_modulus(),
            final(self).cached_gaussian_bits() == old(self).cached_gaussian_bits(),
    {
        let ghost s0 = self.lcg_state();
        let ghost mut k: nat = 0;
        let ghost mut fuel: nat = lemma_steps_to_low_state(s0);
        proof {
            reveal(no_accepting_step_up_to);
        }
        loop
            invariant
                0 < bound,
                s0 == old(self).lcg_state(),
                self.lcg_state() == lcg_iter(s0, k),
                no_accepting_step_up_to(s0, bound as int, k),
                fuel >= 1,
                lcg_iter(self.lcg_state(), fuel) < 0x8000_0000_0000,
                self.cached_gaussian_bits() == old(self).cached_gaussian_bits(),
            decreases fuel,
        {
            let ghost before = self.lcg_state();
            let draw31 = self.next_bits::<31>();
            proof {
                lemma_draw_range(self.lcg_state(), 31);
                lemma_lcg_iter_step(s0, k, before, fuel);
            }
            let (result, kept) = reduce_draw(draw31, bound);
            proof {
                k = k + 1;
            }
            if kept {
                proof {
                    lemma_kept_step(s0, bound as int, k, draw31 as int, result as int);
                }
                return (result, Ghost(k));
            }
            proof {
                if fuel == 1 {
                    lemma_low_state_accepted(self.lcg_state(), bound as int);
                }
                lemma_no_accepting_extend(s0, bound as int, (k - 1) as nat);
                fuel = (fuel - 1) as nat;
            }
        }
    }

    /// A uniformly distributed `i64`: a 32-bit draw shifted up by 32 bits,
    /// plus a second 32-bit draw added as a signed value (wrapping).
    pub fn next_long(&mut self) -> (r: i64)
        ensures
            final(self).lcg_state() == lcg_iter(old(self).lcg_state(), 2),
            r == wrap_i64(
                draw(lcg_iter(old(self).lcg_state(), 1), 32) * 0x1_0000_0000 + draw(
                    lcg_iter(old(self).lcg_state(), 2),
                    32,
                ),
            ),
            final(self).cached_gaussian_bits() == old(self).cached_gaussian_bits(),
    {
        let ghost s0 = self.lcg_state();
        let a = self.next_bits::<32>();
        let high: i64 = (a as i64) << 32;
        let b = self.next_bits::<32>();
        proof {
            assert(lcg_iter(s0, 1) == lcg_iter(lcg_next(s0), 0));
            assert(lcg_iter(s0, 2) == lcg_iter(lcg_next(s0), 1));
            assert(lcg_iter(lcg_next(s0), 1) == lcg_iter(lcg_next(lcg_next(s0)), 0));
        }
        let r = high.wrapping_add(b as i64);
        assert(high == a * 0x1_0000_0000) by (bit_vector)
            requires
                high == (a as i64) << 32,
        ;
        proof {
            crate::mth::lemma_wrapping_add_i64(high, b as i64);
        }
        r
    }

    /// `true` or `false` with equal probability: the top bit of one draw.
    pub fn next_boolean(&mut self) -> (r: bool)
        ensures
            final(self).lcg_state() == lcg_next(old(self).lcg_state()),
            r == (draw(final(self).lcg_state(), 1) != 0),
            final(self).cached_gaussian_bits() == old(self).cached_gaussian_bits(),
    {
        self.next_bits::<1>() != 0
    }

    /// The numerator of a uniformly distributed `f64` in `[0, 1)`: a 26-bit
    /// draw shifted up by 27 bits, plus a 27-bit draw, in that order. The
    /// double is this value divided by `2⁵³`, which is exact.
    pub fn next_double_numerator(&mut self) -> (r: i64)
        ensures
            final(self).lcg_state() == lcg_iter(old(self).lcg_state(), 2),
            r == draw(lcg_iter(old(self).lcg_state(), 1), 26) * 0x800_0000 + draw(
                lcg_iter(old(self).lcg_state(), 2),
                27,
            ),
            0 <= r < 0x20_0000_0000_0000,
            final(self).cached_gaussian_bits() == old(self).cached_gaussian_bits(),
    {
        let ghost s0 = self.lcg_state();
        let a = self.next_bits::<26>();
        proof {
            lemma_draw_range(self.lcg_state(), 26);
        }
        let b = self.next_bits::<27>();
        proof {
            lemma_draw_range(self.lcg_state(), 27);
            lemma2_to64();
            assert(lcg_iter(s0, 1) == lcg_iter(lcg_next(s0), 0));
            assert(lcg_iter(s0, 2) == lcg_iter(lcg_next(s0), 1));
            assert(lcg_iter(lcg_next(s0), 1) == lcg_iter(lcg_next(lcg_next(s0)), 0));
        }
        let high: i64 = (a as i64) << 27;
        assert(high == a * 0x800_0000) by (bit_vector)
            requires
                0 <= a < 0x400_0000,
                high == (a as i64) << 27,
        ;
        high + b as i64
    }

    /// Fills `bytes` in order, each byte from its own 8-bit draw, so filling
    /// `n` bytes consumes exactly `n` draws.
    pub fn next_bytes(&mut self, bytes: &mut [u8])
        ensures
            final(bytes)@.len() == old(bytes)@.len(),
            forall|i: int|
                0 <= i < final(bytes)@.len() ==> final(bytes)@[i] as int == draw(
                    lcg_iter(old(self).lcg_state(), (i + 1) as nat),
                    8,
                ),
            final(self).lcg_state() == lcg_iter(old(self).lcg_state(), old(bytes)@.len()),
            final(self).cached_gaussian_bits() == old(self).cached_gaussian_bits(),
    {
        let ghost s0 = self.lcg_state();
        let mut i: usize = 0;
        while i < bytes.len()
            invariant
                i <= bytes@.len(),
                bytes@.len() == old(bytes)@.len(),
                self.lcg_state() == lcg_iter(s0, i as nat),
                forall|j: int|
                    0 <= j < i ==> bytes@[j] as int == draw(lcg_iter(s0, (j + 1) as nat), 8),
                self.cached_gaussian_bits() == old(self).cached_gaussian_bits(),
            decreases bytes@.len() - i,
        {
            let d = self.next_bits::<8>();
            proof {
                lemma_draw_range(self.lcg_state(), 8);
                lemma2_to64();
                lemma_lcg_iter_add(s0, i as nat, 1);
                assert(lcg_iter(lcg_iter(s0, i as nat), 1) == lcg_iter(self.lcg_state(), 0));
            }
            bytes[i] = d as u8;
            i = i + 1;
        }
    }

    /// Hands out the cached second value of the last Gaussian pair (as `f64`
    /// bits), if there is one, and empties the cache. Draws nothing.
    pub fn take_cached_gaussian(&mut self) -> (r: Option<u64>)
        ensures
            r == old(self).cached_gaussian_bits(),
            final(self).cached_gaussian_bits() is None,
            final(self).lcg_state() == old(self).lcg_state(),
    {
        let r = self.cached_gaussian;
        self.cached_gaussian = None;
        r
    }

    /// Caches the second value of a Gaussian pair (as `f64` bits) until the
    /// next request for a Gaussian. Draws nothing.
    pub fn cache_gaussian(&mut self, bits: u64)
        ensures
            final(self).cached_gaussian_bits() == Some(bits),
            final(self).lcg_state() == old(self).lcg_state(),
    {
        self.cached_gaussian = Some(bits);
    }
}

/// Only the low 48 bits of a seed matter: two seeds start from the same
/// state exactly when their low 48 bits agree. A seed equal to the
/// multiplier starts from state zero.
pub proof fn lemma_seed_low_bits(a: i64, b: i64)
    ensures
        seed_state(a) == seed_state(b) <==> (a as u64) & 0xffff_ffff_ffffu64 == (b as u64)
            & 0xffff_ffff_ffffu64,
        seed_state(a) < state_modulus(),
        seed_state(0x5_DEEC_E66D) == 0,
{
    let ua = a as u64;
    let ub = b as u64;
    assert((((ua ^ 0x5_DEEC_E66Du64) & 0xffff_ffff_ffffu64) == ((ub ^ 0x5_DEEC_E66Du64)
        & 0xffff_ffff_ffffu64)) <==> (ua & 0xffff_ffff_ffffu64 == ub & 0xffff_ffff_ffffu64))
        by (bit_vector);
    assert(((ua ^ 0x5_DEEC_E66Du64) & 0xffff_ffff_ffffu64) < 0x1_0000_0000_0000u64)
        by (bit_vector);
    let m: i64 = 0x5_DEEC_E66D;
    assert((((m as u64) ^ 0x5_DEEC_E66Du64) & 0xffff_ffff_ffffu64) == 0u64) by (bit_vector)
        requires
            m == 0x5_DEEC_E66Di64,
    ;
}

/// A generator is determined by its state and its cached Gaussian: two
/// generators that agree on both are equal. So [`JavaRandom::set_seed`]
/// leaves a generator equal to a new one with the same seed.
pub proof fn lemma_generator_determined(r1: JavaRandom, r2: JavaRandom)
    requires
        r1.lcg_state() == r2.lcg_state(),
        r1.cached_gaussian_bits() == r2.cached_gaussian_bits(),
    ensures
        r1 == r2,
{
}

/// Every narrower draw is a prefix of the 32-bit draw from the same state:
/// its top `bits` bits read as an unsigned number. In particular the 1-bit
/// draw is set exactly when the 32-bit draw is negative.
pub proof fn lemma_draw_is_prefix(s: nat, bits: nat)
    requires
        s < state_modulus(),
        1 <= bits <= 31,
    ensures
        draw(s, bits) == (s / 0x1_0000) / pow2((32 - bits) as nat),
        draw(s, 32) == wrap_i32((s / 0x1_0000) as int),
        0 <= s / 0x1_0000 < 0x1_0000_0000,
        (draw(s, 1) != 0) <==> (draw(s, 32) < 0),
{
    lemma2_to64();
    lemma_draw_range(s, bits);
    lemma_draw_range(s, 1);
    vstd::arithmetic::power2::lemma_pow2_adds(16, (32 - bits) as nat);
    vstd::arithmetic::power2::lemma_pow2_pos((32 - bits) as nat);
    vstd::arithmetic::div_mod::lemma_div_denominator(s as int, 0x1_0000, pow2((32 - bits) as nat) as int);
    vstd::arithmetic::div_mod::lemma_div_is_ordered(s as int, 0x1_0000_0000_0000, 0x1_0000);
    assert(0x1_0000_0000_0000int / 0x1_0000int == 0x1_0000_0000int);
    vstd::arithmetic::div_mod::lemma_div_pos_is_pos(s as int, 0x1_0000);
    let u = s / 0x1_0000;
    if u == 0x1_0000_0000 {
        assert(s >= 0x1_0000_0000_0000) by {
            vstd::arithmetic::div_mod::lemma_fundamental_div_mod(s as int, 0x1_0000);
        }
    }
    lemma_small_mod(u as nat, 0x1_0000_0000);
    vstd::arithmetic::div_mod::lemma_div_denominator(s as int, 0x1_0000, 0x8000_0000);
    vstd::arithmetic::power2::lemma_pow2_adds(16, 31);
    if u >= 0x8000_0000 {
        vstd::arithmetic::div_mod::lemma_div_is_ordered(0x8000_0000, u as int, 0x8000_0000);
    } else {
        vstd::arithmetic::div_mod::lemma_basic_div(u as int, 0x8000_0000);
    }
}

/// For a power-of-two bound `2^j`, the bounded draw `(d · 2^j) / 2³¹` is
/// the top `j` bits of the 31-bit draw `d`.
pub proof fn lemma_power_of_two_draw(d: int, j: nat)
    requires
        0 <= d,
        j <= 30,
    ensures
        (d * pow2(j)) / 0x8000_0000 == d / (pow2((31 - j) as nat) as int),
{
    lemma2_to64();
    vstd::arithmetic::power2::lemma_pow2_adds(j, (31 - j) as nat);
    vstd::arithmetic::power2::lemma_pow2_pos(j);
    vstd::arithmetic::power2::lemma_pow2_pos((31 - j) as nat);
    vstd::arithmetic::div_mod::lemma_div_denominator(
        d * pow2(j),
        pow2(j) as int,
        pow2((31 - j) as nat) as int,
    );
    vstd::arithmetic::mul::lemma_mul_is_commutative(d, pow2(j) as int);
    vstd::arithmetic::div_mod::lemma_div_multiples_vanish(d, pow2(j) as int);
}

} // verus!
