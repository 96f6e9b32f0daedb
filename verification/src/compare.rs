//! The tolerance comparison itself: classification of the operands, the
//! relative scale with its absolute floor, and the rescale step that turns a
//! comparison against an infinity into a finite one.
//!
//! The one part of the comparison that is not bit logic — the two rounded
//! floating-point operations `lhs - rhs` and `tol * scale` — cannot be done
//! on bit patterns here. The comparison therefore answers either with a
//! decided boolean, or with the exact pair of finite operands and the scale
//! whose difference and scaled tolerance, once computed in floating point,
//! settle it through [`within_tolerance`].

use vstd::prelude::*;

verus! {

use vstd::arithmetic::power2::pow2;
use vstd::arithmetic::power2::lemma_pow2_adds;
use vstd::arithmetic::power2::lemma_pow2_pos;
use vstd::arithmetic::power2::lemma_pow2_strictly_increases;
use vstd::arithmetic::power2::lemma2_to64;
use vstd::arithmetic::div_mod::lemma_fundamental_div_mod_converse;
use vstd::arithmetic::div_mod::lemma_small_mod;
use vstd::arithmetic::div_mod::lemma_mod_multiples_vanish;
use vstd::arithmetic::div_mod::lemma_div_is_ordered;
use vstd::arithmetic::mul::lemma_mul_is_associative;
use vstd::arithmetic::mul::lemma_mul_inequality;
use vstd::arithmetic::mul::lemma_mul_is_distributive_sub_other_way;
use crate::layout::Layout;
use crate::repr::fits;
use crate::repr::mag_pattern;
use crate::repr::sign_set;
use crate::repr::exp_field;
use crate::repr::sig_field;
use crate::repr::mag_units;
use crate::repr::is_nan;
use crate::repr::is_infinite;
use crate::repr::is_finite;
use crate::repr::lemma_fields;
use crate::repr::lemma_units_order;
use crate::repr::lemma_class;
use crate::repr::magnitude;

/// What the comparison resolved to on bit patterns alone.
#[derive(Clone, Copy, Debug, PartialEq, Eq, Structural)]
pub enum Outcome {
    /// The comparison is settled: NaN involved, two infinities, or an
    /// infinity against a value too small to ever be within tolerance of it.
    Decided(bool),
    /// Both remaining operands are finite. The comparison is true exactly
    /// when the rounded magnitude of `lhs - rhs` is strictly below the
    /// rounded magnitude of `tol * scale`, which [`within_tolerance`]
    /// decides once those two products of the width's arithmetic are known.
    Compare { lhs: u64, rhs: u64, scale: u64, tol: u64 },
}

/// A relative tolerance in the contract range: at least the machine epsilon
/// and below one.
pub open spec fn tolerance_valid(l: Layout, tol: u64) -> bool {
    l.epsilon_pattern() <= tol as nat && (tol as nat) < l.one_pattern()
}

/// An absolute tolerance in the contract range: positive, so neither NaN,
/// negative, nor zero.
pub open spec fn absolute_tolerance_valid(l: Layout, tol: u64) -> bool {
    &&& !sign_set(l, tol)
    &&& !is_nan(l, tol)
    &&& mag_units(l, tol) > 0
}

/// Rounding a magnitude halved, to nearest with ties to even.
pub open spec fn rne_half(n: nat) -> nat {
    if n % 2 == 0 {
        n / 2
    } else if (n / 2) % 2 == 1 {
        n / 2 + 1
    } else {
        n / 2
    }
}

/// The magnitude, in units, of the relative scale: the larger of the two
/// operands' magnitudes, floored at the smallest positive normal value.
/// Zero and subnormal operands already round against that value's precision
/// step, so the scale never drops below it.
pub open spec fn scale_units(l: Layout, x: u64, y: u64) -> nat {
    let mx = if mag_units(l, x) >= mag_units(l, y) {
        mag_units(l, x)
    } else {
        mag_units(l, y)
    };
    if mx >= pow2(l.sig_bits as nat) {
        mx
    } else {
        pow2(l.sig_bits as nat)
    }
}

/// `s_out` is the scale for comparing `x` and `y`: a finite, non-negative
/// pattern whose magnitude is the larger operand magnitude floored at the
/// smallest positive normal value.
pub open spec fn scale_ok(l: Layout, x: u64, y: u64, s_out: u64) -> bool {
    &&& fits(l, s_out)
    &&& !sign_set(l, s_out)
    &&& is_finite(l, s_out)
    &&& mag_units(l, s_out) == scale_units(l, x, y)
}

/// The rescaled operands that stand in for an infinite `inf_side` compared
/// against a finite, normal `fin_side`: `a` is the bottom of the largest
/// finite binade carrying the infinity's sign, and `b` is `fin_side` halved
/// (exactly, or rounded to nearest-even into the subnormals).
pub open spec fn rescaled_operands_ok(
    l: Layout,
    inf_side: u64,
    fin_side: u64,
    a: u64,
    b: u64,
) -> bool {
    &&& fits(l, a) && fits(l, b)
    &&& sign_set(l, a) == sign_set(l, inf_side)
    &&& exp_field(l, a) == (l.emax() - 1) as nat
    &&& sig_field(l, a) == 0
    &&& is_finite(l, a)
    &&& sign_set(l, b) == sign_set(l, fin_side)
    &&& is_finite(l, b)
    &&& mag_units(l, b) == rne_half(mag_units(l, fin_side))
}

/// The outcome owed for one infinite operand `i` against one finite operand
/// `f`: decided false when `f` is zero or subnormal, else the rescaled
/// finite comparison.
pub open spec fn infinite_finite_case(l: Layout, i: u64, f: u64, tol: u64, o: Outcome) -> bool {
    if exp_field(l, f) == 0 {
        o == Outcome::Decided(false)
    } else {
        o matches Outcome::Compare { lhs: a, rhs: b, scale: s, tol: t } && t == tol
            && rescaled_operands_ok(l, i, f, a, b) && scale_ok(l, a, b, s)
    }
}

/// The full contract of the tolerance comparison, one clause per operand
/// class: NaN is never equal to anything; two infinities are equal exactly
/// when their signs agree; two finite values go to the finite comparison as
/// they stand, under their scale; an infinity against a finite value is
/// decided or rescaled as [`infinite_finite_case`] says.
pub open spec fn outcome_matches(l: Layout, lhs: u64, rhs: u64, tol: u64, o: Outcome) -> bool {
    &&& ((is_nan(l, lhs) || is_nan(l, rhs)) ==> o == Outcome::Decided(false))
    &&& (is_infinite(l, lhs) && is_infinite(l, rhs) ==> o == Outcome::Decided(
        sign_set(l, lhs) == sign_set(l, rhs),
    ))
    &&& (is_finite(l, lhs) && is_finite(l, rhs) ==> (o matches Outcome::Compare {
        lhs: a,
        rhs: b,
        scale: s,
        tol: t,
    } && a == lhs && b == rhs && t == tol && scale_ok(l, lhs, rhs, s)))
    &&& (is_infinite(l, lhs) && is_finite(l, rhs) ==> infinite_finite_case(l, lhs, rhs, tol, o))
    &&& (is_finite(l, lhs) && is_infinite(l, rhs) ==> infinite_finite_case(l, rhs, lhs, tol, o))
}

/// The scale for two finite magnitude patterns: the larger one, floored at
/// the smallest positive normal value.
pub(crate) fn scale_of(l: Layout, lm: u64, rm: u64) -> (s: u64)
    requires
        l.wf(),
        (lm as nat) < l.sign_unit(),
        (rm as nat) < l.sign_unit(),
        is_finite(l, lm),
        is_finite(l, rm),
    ensures
        scale_ok(l, lm, rm, s),
{
    let s0: u64 = if lm > rm {
        lm
    } else {
        rm
    };
    let mp: u64 = l.min_positive_bits();
    proof {
        lemma_pow2_pos(l.sig_bits as nat);
        lemma_pow2_strictly_increases(l.sig_bits as nat, (l.width - 1) as nat);
        lemma_pow2_strictly_increases((l.width - 1) as nat, l.width as nat);
        lemma_min_positive_units(l);
        assert(mp == l.min_positive_pattern() as u64);
        lemma_units_order(l, lm, rm);
        lemma_units_order(l, s0, mp);
        lemma_small_mod(mp as nat, l.sign_unit());
        lemma_small_mod(s0 as nat, l.sign_unit());
    }
    if s0 > mp {
        s0
    } else {
        mp
    }
}

/// The smallest positive normal pattern denotes `2^sig_bits` units, is
/// finite, and lies below the sign bit.
pub(crate) proof fn lemma_min_positive_units(l: Layout)
    requires
        l.wf(),
    ensures
        (l.min_positive_pattern() as u64) as nat == l.min_positive_pattern(),
        mag_units(l, l.min_positive_pattern() as u64) == pow2(l.sig_bits as nat),
        is_finite(l, l.min_positive_pattern() as u64),
        l.min_positive_pattern() < l.sign_unit(),
{
    let p = pow2(l.sig_bits as nat);
    lemma_pow2_pos(l.sig_bits as nat);
    lemma_pow2_strictly_increases(l.sig_bits as nat, (l.width - 1) as nat);
    vstd::bits::lemma_u64_pow2_no_overflow(l.sig_bits as nat);
    let mp = p as u64;
    lemma_small_mod(mp as nat, l.sign_unit());
    assert(mag_pattern(l, mp) == p);
    vstd::arithmetic::div_mod::lemma_div_by_self(p as int);
    vstd::arithmetic::div_mod::lemma_mod_self_0(p as int);
    assert(exp_field(l, mp) == 1);
    assert(sig_field(l, mp) == 0);
    lemma2_to64();
    assert(mag_units(l, mp) == (p + 0) * pow2(0));
    // the exponent field 1 is well below the all-ones field
    lemma_pow2_strictly_increases(1, l.exp_bits());
}

/// Halves a finite, normal value exactly as multiplication by one half would:
/// the exponent drops by one, and a value entering the subnormals is rounded
/// to nearest with ties to even. The sign is kept.
pub(crate) fn half(l: Layout, bits: u64) -> (r: u64)
    requires
        l.wf(),
        fits(l, bits),
        is_finite(l, bits),
        exp_field(l, bits) >= 1,
    ensures
        fits(l, r),
        sign_set(l, r) == sign_set(l, bits),
        is_finite(l, r),
        mag_units(l, r) == rne_half(mag_units(l, bits)),
{
    proof {
        lemma_fields(l, bits);
        lemma_pow2_pos(l.sig_bits as nat);
        lemma_pow2_strictly_increases(l.sig_bits as nat, (l.width - 1) as nat);
    }
    let mag: u64 = magnitude(l, bits);
    let sign_part: u64 = bits - mag;
    let unit: u64 = l.min_positive_bits();
    let ghost p = pow2(l.sig_bits as nat);
    let ghost e = exp_field(l, bits);
    let ghost f = sig_field(l, bits);
    if mag / unit >= 2 {
        // a normal result: the exponent field drops by one
        proof {
            lemma_mul_inequality(2, e as int, p as int);
        }
        let new_mag: u64 = mag - unit;
        proof {
            lemma_mul_is_distributive_sub_other_way(p as int, e as int, 1);
            lemma_recompose(l, sign_part, new_mag);
            lemma_fundamental_div_mod_converse(
                new_mag as int,
                p as int,
                (e - 1) as int,
                f as int,
            );
            // the halved magnitude: (p + f) * 2^(e - 2) doubles to (p + f) * 2^(e - 1)
            let q = pow2((e - 2) as nat);
            lemma_pow2_pos((e - 2) as nat);
            lemma_pow2_adds((e - 2) as nat, 1);
            lemma2_to64();
            lemma_mul_is_associative((p + f) as int, q as int, 2);
            assert(mag_units(l, bits) == ((p + f) * q) * 2);
            vstd::arithmetic::div_mod::lemma_mod_multiples_basic(((p + f) * q) as int, 2);
            vstd::arithmetic::div_mod::lemma_div_multiples_vanish(((p + f) * q) as int, 2);
            assert(new_mag as nat == (e - 1) * p + f);
            assert(mag_pattern(l, (sign_part + new_mag) as u64) == new_mag as nat);
            assert(exp_field(l, (sign_part + new_mag) as u64) == (e - 1) as nat);
            assert(sig_field(l, (sign_part + new_mag) as u64) == f);
            assert(mag_units(l, (sign_part + new_mag) as u64) == (p + f) * q);
            assert(rne_half(mag_units(l, bits)) == (p + f) * q);
        }
        sign_part + new_mag
    } else {
        // the exponent field is exactly 1: the result is subnormal (or the
        // smallest normal again when the tie rounds up into it)
        let h: u64 = mag / 2;
        let low: u64 = mag % 2;
        let new_mag: u64 = if low == 1 && h % 2 == 1 {
            h + 1
        } else {
            h
        };
        proof {
            assert(e == 1);
            assert(mag as nat == p + f);
            // h + 1 <= p: mag <= 2p - 1, so h <= p - 1
            lemma_div_is_ordered(mag as int, (2 * p - 1) as int, 2);
            lemma_fundamental_div_mod_converse((2 * p - 1) as int, 2, (p - 1) as int, 1);
            lemma_recompose(l, sign_part, new_mag);
            lemma2_to64();
            vstd::arithmetic::mul::lemma_mul_basics((p + f) as int);
            vstd::arithmetic::mul::lemma_mul_basics(p as int);
            if new_mag as nat == p {
                vstd::arithmetic::div_mod::lemma_div_by_self(p as int);
                vstd::arithmetic::div_mod::lemma_mod_self_0(p as int);
                assert(mag_units(l, new_mag) == (p + 0) * pow2(0));
            } else {
                vstd::arithmetic::div_mod::lemma_basic_div(new_mag as int, p as int);
                lemma_small_mod(new_mag as nat, p);
            }
            lemma_pow2_strictly_increases(1, l.exp_bits());
            assert(mag_units(l, bits) == mag as nat);
            assert(new_mag as nat == rne_half(mag as nat));
            assert(mag_units(l, (sign_part + new_mag) as u64) == new_mag as nat);
        }
        sign_part + new_mag
    }
}

/// Putting a sign part back on top of a magnitude pattern leaves the fields
/// of the magnitude as they are.
pub(crate) proof fn lemma_recompose(l: Layout, sign_part: u64, mag: u64)
    requires
        l.wf(),
        sign_part == 0 || sign_part as nat == l.sign_unit(),
        (mag as nat) < l.sign_unit(),
    ensures
        (sign_part as nat + mag as nat) < l.limit(),
        l.limit() <= 0x10000000000000000,
        fits(l, (sign_part + mag) as u64),
        mag_pattern(l, (sign_part + mag) as u64) == mag as nat,
        sign_set(l, (sign_part + mag) as u64) == (sign_part != 0),
        mag_pattern(l, mag) == mag as nat,
{
    lemma_pow2_pos(l.exp_bits());
    crate::layout::lemma_exp_times_unit_fits(l, 0);
    let su = l.sign_unit();
    lemma_pow2_pos((l.width - 1) as nat);
    lemma_pow2_adds((l.width - 1) as nat, 1);
    lemma2_to64();
    assert(l.limit() == su * 2);
    lemma_small_mod(mag as nat, su);
    if sign_part != 0 {
        lemma_mod_multiples_vanish(1, mag as int, su as int);
        assert(su * 1 + mag == sign_part + mag);
    }
}

/// The finite comparison's verdict, given the two rounded magnitudes it
/// needs from the width's arithmetic: the magnitude of `diff` (the rounded
/// `lhs - rhs`) must lie strictly below the magnitude of `abs_tol` (the
/// rounded `tol * scale`, never NaN and never negative). Strictly: operands
/// exactly `abs_tol` apart are not equal. A NaN or infinite `diff` (an
/// overflowing subtraction) compares above every finite tolerance.
pub fn within_tolerance(l: Layout, diff: u64, abs_tol: u64) -> (r: bool)
    requires
        l.wf(),
        fits(l, diff),
        fits(l, abs_tol),
        !sign_set(l, abs_tol),
        !is_nan(l, abs_tol),
    ensures
        r == (mag_units(l, diff) < mag_units(l, abs_tol)),
{
    let dm: u64 = magnitude(l, diff);
    proof {
        lemma_fields(l, abs_tol);
        lemma_units_order(l, dm, abs_tol);
        lemma_small_mod(abs_tol as nat, l.sign_unit());
    }
    dm < abs_tol
}

/// The tolerance comparison on bit patterns: classifies the operands by
/// magnitude, settles every case the bit patterns settle, and hands back the
/// finite pair and scale for the one case that needs the width's arithmetic.
pub fn tolerance_compare(l: Layout, lhs: u64, rhs: u64, tol: u64) -> (o: Outcome)
    requires
        l.wf(),
        fits(l, lhs),
        fits(l, rhs),
        fits(l, tol),
        tolerance_valid(l, tol),
    ensures
        outcome_matches(l, lhs, rhs, tol, o),
{
    let lm: u64 = magnitude(l, lhs);
    let rm: u64 = magnitude(l, rhs);
    let inf: u64 = l.infinity_bits();
    proof {
        lemma_class(l, lhs);
        lemma_class(l, rhs);
        lemma_fields(l, lhs);
        lemma_fields(l, rhs);
    }
    if lm < inf && rm < inf {
        let scale: u64 = scale_of(l, lm, rm);
        proof {
            lemma_scale_from_magnitudes(l, lhs, rhs, lm, rm, scale);
        }
        Outcome::Compare { lhs, rhs, scale, tol }
    } else if lm > inf || rm > inf {
        // a NaN is never almost equal to anything, itself included
        Outcome::Decided(false)
    } else if lm == inf && rm == inf {
        // two infinities are almost equal exactly when they are the same one
        Outcome::Decided(lhs == rhs)
    } else {
        // exactly one operand is infinite; orient it to the left
        let ibits: u64 = if lm == inf {
            lhs
        } else {
            rhs
        };
        let fbits: u64 = if lm == inf {
            rhs
        } else {
            lhs
        };
        let fm: u64 = if lm == inf {
            rm
        } else {
            lm
        };
        let unit: u64 = l.min_positive_bits();
        proof {
            lemma_pow2_pos(l.sig_bits as nat);
            lemma_fields(l, fm);
            lemma_small_mod(fm as nat, l.sign_unit());
            // the exponent field is zero exactly when the magnitude pattern
            // lies below 2^sig_bits
            if exp_field(l, fm) >= 1 {
                lemma_mul_inequality(
                    1,
                    exp_field(l, fm) as int,
                    pow2(l.sig_bits as nat) as int,
                );
            } else {
                vstd::arithmetic::mul::lemma_mul_by_zero_is_zero(pow2(l.sig_bits as nat) as int);
            }
        }
        if fm < unit {
            // zero or subnormal: never within tolerance of an infinity
            Outcome::Decided(false)
        } else {
            let im: u64 = if lm == inf {
                lm
            } else {
                rm
            };
            let top: u64 = l.top_binade_bits();
            proof {
                lemma_top_binade_fields(l);
                assert(im as nat == mag_pattern(l, ibits));
                assert(ibits >= im);
                lemma_pow2_pos(l.exp_bits());
                crate::layout::lemma_exp_times_unit_fits(l, 0);
                lemma_recompose(l, (ibits - im) as u64, top);
            }
            let new_lhs: u64 = (ibits - im) + top;
            let new_rhs: u64 = half(l, fbits);
            let nl_m: u64 = magnitude(l, new_lhs);
            let nr_m: u64 = magnitude(l, new_rhs);
            let scale: u64 = scale_of(l, nl_m, nr_m);
            proof {
                lemma_scale_from_magnitudes(l, new_lhs, new_rhs, nl_m, nr_m, scale);
            }
            Outcome::Compare { lhs: new_lhs, rhs: new_rhs, scale, tol }
        }
    }
}

/// The top-binade pattern has the exponent field just below all ones and a
/// zero significand, and it lies below the sign bit.
pub(crate) proof fn lemma_top_binade_fields(l: Layout)
    requires
        l.wf(),
    ensures
        l.top_binade_pattern() < l.sign_unit(),
        exp_field(l, l.top_binade_pattern() as u64) == (l.emax() - 1) as nat,
        sig_field(l, l.top_binade_pattern() as u64) == 0,
        is_finite(l, l.top_binade_pattern() as u64),
{
    let p = pow2(l.sig_bits as nat);
    lemma_pow2_pos(l.sig_bits as nat);
    lemma_pow2_pos(l.exp_bits());
    lemma2_to64();
    lemma_pow2_strictly_increases(1, l.exp_bits());
    crate::layout::lemma_exp_times_unit_fits(l, (l.emax() - 1) as nat);
    let t = l.top_binade_pattern() as u64;
    lemma_small_mod(t as nat, l.sign_unit());
    lemma_fundamental_div_mod_converse(t as int, p as int, (l.emax() - 1) as int, 0);
}

/// A scale computed from the magnitudes of two patterns is the scale of the
/// patterns themselves.
pub(crate) proof fn lemma_scale_from_magnitudes(
    l: Layout,
    x: u64,
    y: u64,
    xm: u64,
    ym: u64,
    s: u64,
)
    requires
        l.wf(),
        xm as nat == mag_pattern(l, x),
        ym as nat == mag_pattern(l, y),
        mag_pattern(l, xm) == mag_pattern(l, x),
        mag_pattern(l, ym) == mag_pattern(l, y),
        scale_ok(l, xm, ym, s),
    ensures
        scale_ok(l, x, y, s),
{
}

} // verus!
