//! The model of a floating-point bit pattern: its sign bit, exponent field
//! and significand field, and its magnitude as an exact integer, measured in
//! units of the smallest subnormal step of the width.

use vstd::prelude::*;

verus! {

use vstd::arithmetic::power2::pow2;
use vstd::arithmetic::power2::lemma_pow2_adds;
use vstd::arithmetic::power2::lemma_pow2_pos;
use vstd::arithmetic::power2::lemma_pow2_strictly_increases;
use vstd::arithmetic::power2::lemma2_to64;
use vstd::arithmetic::div_mod::lemma_fundamental_div_mod;
use vstd::arithmetic::div_mod::lemma_mod_division_less_than_divisor;
use vstd::arithmetic::div_mod::lemma_small_mod;
use vstd::arithmetic::div_mod::lemma_div_is_ordered;
use vstd::arithmetic::div_mod::lemma_multiply_divide_lt;
use vstd::arithmetic::mul::lemma_mul_strict_inequality;
use vstd::arithmetic::mul::lemma_mul_inequality;
use vstd::arithmetic::mul::lemma_mul_is_distributive_add_other_way;
use crate::layout::Layout;
use crate::layout::pow2_u64;

/// The pattern lies in the low `width` bits of the `u64`.
pub open spec fn fits(l: Layout, bits: u64) -> bool {
    (bits as nat) < l.limit()
}

/// The pattern with the sign bit cleared: the magnitude (absolute value).
pub open spec fn mag_pattern(l: Layout, bits: u64) -> nat {
    (bits as nat) % l.sign_unit()
}

/// Whether the sign bit is set (the value is negative, for a fitting pattern).
pub open spec fn sign_set(l: Layout, bits: u64) -> bool {
    (bits as nat) >= l.sign_unit()
}

/// The exponent field of the pattern.
pub open spec fn exp_field(l: Layout, bits: u64) -> nat {
    mag_pattern(l, bits) / pow2(l.sig_bits as nat)
}

/// The significand field of the pattern.
pub open spec fn sig_field(l: Layout, bits: u64) -> nat {
    mag_pattern(l, bits) % pow2(l.sig_bits as nat)
}

/// The magnitude of the value the pattern denotes, as an exact integer in
/// units of the smallest subnormal step (`2^(1 - bias - sig_bits)`). Zero and
/// subnormals have their significand as is; a normal value has the implicit
/// leading bit and its exponent's weight. Infinity and NaN patterns continue
/// the same scale, ordered above every finite magnitude.
pub open spec fn mag_units(l: Layout, bits: u64) -> nat {
    if exp_field(l, bits) == 0 {
        sig_field(l, bits)
    } else {
        (pow2(l.sig_bits as nat) + sig_field(l, bits)) * pow2((exp_field(l, bits) - 1) as nat)
    }
}

/// The pattern denotes a NaN: all-ones exponent field, nonzero significand.
pub open spec fn is_nan(l: Layout, bits: u64) -> bool {
    exp_field(l, bits) == l.emax() && sig_field(l, bits) != 0
}

/// The pattern denotes an infinity: all-ones exponent field, significand 0.
pub open spec fn is_infinite(l: Layout, bits: u64) -> bool {
    exp_field(l, bits) == l.emax() && sig_field(l, bits) == 0
}

/// The pattern denotes a finite value (zero, subnormal or normal).
pub open spec fn is_finite(l: Layout, bits: u64) -> bool {
    exp_field(l, bits) < l.emax()
}

/// How a fitting pattern splits into its fields: the sign bit on top, the
/// exponent field above the significand, and the bounds of each field.
pub proof fn lemma_fields(l: Layout, bits: u64)
    requires
        l.wf(),
        fits(l, bits),
    ensures
        mag_pattern(l, bits) < l.sign_unit(),
        sig_field(l, bits) < pow2(l.sig_bits as nat),
        exp_field(l, bits) <= l.emax(),
        mag_pattern(l, bits) == exp_field(l, bits) * pow2(l.sig_bits as nat) + sig_field(l, bits),
        bits as nat == if sign_set(l, bits) {
            l.sign_unit() + mag_pattern(l, bits)
        } else {
            mag_pattern(l, bits)
        },
{
    let su = l.sign_unit() as int;
    let p = pow2(l.sig_bits as nat) as int;
    let m = mag_pattern(l, bits) as int;
    lemma_pow2_pos((l.width - 1) as nat);
    lemma_pow2_pos(l.sig_bits as nat);
    lemma_pow2_pos(l.exp_bits());
    lemma_mod_division_less_than_divisor(bits as int, su);
    lemma_fundamental_div_mod(bits as int, su);
    // the sign "field" is the quotient by 2^(width - 1), which is 0 or 1
    lemma_pow2_adds((l.width - 1) as nat, 1);
    lemma2_to64();
    assert(l.limit() == l.sign_unit() * 2);
    lemma_multiply_divide_lt(bits as int, su, 2);
    let q = bits as int / su;
    assert(0 <= q < 2) by {
        vstd::arithmetic::div_mod::lemma_div_pos_is_pos(bits as int, su);
    }
    if q == 0 {
        assert(bits as int == su * 0 + m);
        assert(su * 0 == 0);
    } else {
        assert(bits as int == su * 1 + m);
        assert(su * 1 == su);
    }
    // the significand field is the remainder by 2^sig_bits
    lemma_mod_division_less_than_divisor(m, p);
    lemma_fundamental_div_mod(m, p);
    // the exponent field stays within its width
    lemma_pow2_adds(l.exp_bits(), l.sig_bits as nat);
    assert(l.exp_bits() + l.sig_bits as nat == (l.width - 1) as nat);
    assert(m < p * pow2(l.exp_bits())) by {
        vstd::arithmetic::mul::lemma_mul_is_commutative(p, pow2(l.exp_bits()) as int);
    }
    lemma_multiply_divide_lt(m, p, pow2(l.exp_bits()) as int);
}

/// The magnitude in units grows strictly with the magnitude pattern: the
/// bit-pattern order of sign-cleared patterns is the numeric order.
pub proof fn lemma_units_strictly_increase(l: Layout, a: u64, b: u64)
    requires
        l.wf(),
        (a as nat) < l.sign_unit(),
        (b as nat) < l.sign_unit(),
        a < b,
    ensures
        mag_units(l, a) < mag_units(l, b),
{
    lemma_pow2_pos(l.sig_bits as nat);
    lemma_pow2_strictly_increases((l.width - 1) as nat, l.width as nat);
    lemma_fields(l, a);
    lemma_fields(l, b);
    lemma_small_mod(a as nat, l.sign_unit());
    lemma_small_mod(b as nat, l.sign_unit());
    let s = l.sig_bits as nat;
    let p = pow2(s);
    let ea = exp_field(l, a);
    let eb = exp_field(l, b);
    let fa = sig_field(l, a);
    let fb = sig_field(l, b);
    lemma_div_is_ordered(a as int, b as int, p as int);
    assert(ea <= eb);
    if ea == eb {
        assert(fa < fb);
        if ea != 0 {
            lemma_pow2_pos((ea - 1) as nat);
            lemma_mul_strict_inequality(
                (p + fa) as int,
                (p + fb) as int,
                pow2((ea - 1) as nat) as int,
            );
        }
    } else {
        // ea < eb, so eb >= 1: the whole binade of a lies below that of b
        let qb = pow2((eb - 1) as nat);
        lemma_pow2_pos((eb - 1) as nat);
        // mag_units(b) >= p * 2^(eb - 1) == 2^(s + eb - 1)
        lemma_mul_inequality(p as int, (p + fb) as int, qb as int);
        lemma_pow2_adds(s, (eb - 1) as nat);
        assert(pow2((s + eb - 1) as nat) <= mag_units(l, b));
        if ea == 0 {
            // mag_units(a) == fa < 2^s <= 2^(s + eb - 1)
            if eb != 1 {
                lemma_pow2_strictly_increases(s, (s + eb - 1) as nat);
            }
        } else {
            // mag_units(a) < 2^(s + 1) * 2^(ea - 1) == 2^(s + ea) <= 2^(s + eb - 1)
            let qa = pow2((ea - 1) as nat);
            lemma_pow2_pos((ea - 1) as nat);
            lemma_pow2_adds(s, 1);
            lemma2_to64();
            lemma_mul_strict_inequality((p + fa) as int, pow2((s + 1) as nat) as int, qa as int);
            lemma_pow2_adds((s + 1) as nat, (ea - 1) as nat);
            assert(mag_units(l, a) < pow2((s + ea) as nat));
            if ea + 1 != eb {
                lemma_pow2_strictly_increases((s + ea) as nat, (s + eb - 1) as nat);
            }
        }
    }
}

/// Bit-pattern comparison of sign-cleared patterns is exactly numeric
/// comparison of the magnitudes they denote.
pub proof fn lemma_units_order(l: Layout, a: u64, b: u64)
    requires
        l.wf(),
        (a as nat) < l.sign_unit(),
        (b as nat) < l.sign_unit(),
    ensures
        (mag_units(l, a) < mag_units(l, b)) == (a < b),
        (mag_units(l, a) == mag_units(l, b)) == (a == b),
{
    if a < b {
        lemma_units_strictly_increase(l, a, b);
    } else if b < a {
        lemma_units_strictly_increase(l, b, a);
    }
}

/// A fitting pattern's class, read off its magnitude pattern alone: below the
/// infinity pattern it is finite, at it infinite, above it NaN.
pub proof fn lemma_class(l: Layout, bits: u64)
    requires
        l.wf(),
        fits(l, bits),
    ensures
        is_finite(l, bits) == (mag_pattern(l, bits) < l.infinity_pattern()),
        is_infinite(l, bits) == (mag_pattern(l, bits) == l.infinity_pattern()),
        is_nan(l, bits) == (mag_pattern(l, bits) > l.infinity_pattern()),
{
    lemma_fields(l, bits);
    let p = pow2(l.sig_bits as nat);
    let e = exp_field(l, bits);
    lemma_pow2_pos(l.sig_bits as nat);
    if e < l.emax() {
        // mag < (e + 1) * p <= emax * p
        lemma_mul_is_distributive_add_other_way(p as int, e as int, 1);
        lemma_mul_inequality((e + 1) as int, l.emax() as int, p as int);
    }
}

/// Clears the sign bit of a pattern: the magnitude (absolute value) of the
/// value, kept as a bit pattern. The exponent and significand fields, and so
/// the magnitude in units, are unchanged.
pub fn magnitude(l: Layout, bits: u64) -> (r: u64)
    requires
        l.wf(),
        fits(l, bits),
    ensures
        r as nat == mag_pattern(l, bits),
        (r as nat) < l.sign_unit(),
        mag_pattern(l, r) == mag_pattern(l, bits),
        !sign_set(l, r),
        fits(l, r),
{
    let su: u64 = pow2_u64(l.width - 1);
    proof {
        lemma_pow2_pos((l.width - 1) as nat);
        lemma_mod_division_less_than_divisor(bits as int, su as int);
        lemma_small_mod((bits as nat) % l.sign_unit(), l.sign_unit());
        lemma_pow2_strictly_increases((l.width - 1) as nat, l.width as nat);
    }
    bits % su
}

} // verus!
