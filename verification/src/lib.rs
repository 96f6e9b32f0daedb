//! Approximate ("almost") equality for IEEE-754 binary floating-point values,
//! working on their raw bit patterns.
//!
//! A value of one of the supported widths (binary32 or binary64) is passed in
//! as its bit pattern, held in the low bits of a `u64`. Comparison uses a
//! relative tolerance with an absolute floor at the smallest positive normal
//! value, treats NaN as equal to nothing, matches infinities by sign, and
//! answers a comparison between an infinite and a finite operand by rescaling
//! both into the largest finite binade.
//!
//! The only part of the comparison that is not bit logic — the two rounded
//! floating-point operations `lhs - rhs` and `tol * scale` of the finite
//! path — cannot be carried out on bit patterns here. [`equal`] and
//! [`equal_with`] therefore either decide the comparison outright or return
//! the exact finite operands and scale; the caller performs the width's two
//! arithmetic operations on them and lets [`within_tolerance`] give the
//! verdict. [`zero`] and [`zero_with`] need no arithmetic and answer
//! directly.

use vstd::prelude::*;

mod layout;
mod repr;
mod compare;
mod laws;

pub use layout::Layout;
pub use compare::Outcome;
pub use compare::within_tolerance;
pub use compare::outcome_matches;
pub use compare::tolerance_valid;
pub use compare::absolute_tolerance_valid;
pub use compare::scale_ok;
pub use compare::scale_units;
pub use compare::rescaled_operands_ok;
pub use compare::infinite_finite_case;
pub use compare::rne_half;
pub use repr::fits;
pub use repr::mag_pattern;
pub use repr::sign_set;
pub use repr::exp_field;
pub use repr::sig_field;
pub use repr::mag_units;
pub use repr::is_nan;
pub use repr::is_infinite;
pub use repr::is_finite;
pub use repr::magnitude;

verus! {

use crate::repr::lemma_units_strictly_increase;
use crate::repr::lemma_class;
use crate::repr::lemma_fields;
use vstd::arithmetic::power2::pow2;
use vstd::arithmetic::power2::lemma_pow2_pos;
use vstd::arithmetic::power2::lemma_pow2_adds;
use vstd::arithmetic::power2::lemma2_to64;
use vstd::arithmetic::power2::lemma2_to64_rest;
use vstd::arithmetic::div_mod::lemma_small_mod;

/// Compares `lhs` and `rhs` (bit patterns of layout `l`) for approximate
/// equality under the relative tolerance `tol`, which must lie between the
/// width's machine epsilon (inclusive) and one (exclusive).
///
/// Do not use this to compare against a constant zero; that is what
/// [`zero_with`] is for.
pub fn equal_with(l: Layout, lhs: u64, rhs: u64, tol: u64) -> (o: Outcome)
    requires
        l.wf(),
        fits(l, lhs),
        fits(l, rhs),
        fits(l, tol),
        tolerance_valid(l, tol),
    ensures
        outcome_matches(l, lhs, rhs, tol, o),
{
    compare::tolerance_compare(l, lhs, rhs, tol)
}

/// Compares `lhs` and `rhs` (bit patterns of layout `l`) for approximate
/// equality under the width's default tolerance, the square root of its
/// machine epsilon: a good fit for values out of arbitrary computation,
/// where about half of the significand bits have been lost to rounding.
pub fn equal(l: Layout, lhs: u64, rhs: u64) -> (o: Outcome)
    requires
        l.wf(),
        fits(l, lhs),
        fits(l, rhs),
    ensures
        outcome_matches(l, lhs, rhs, (l.default_tolerance_pattern() as u64), o),
{
    let tol: u64 = l.default_tolerance_bits();
    proof {
        lemma_default_tolerance_valid(l);
    }
    compare::tolerance_compare(l, lhs, rhs, tol)
}

/// Whether `v` (a bit pattern of layout `l`) is almost zero under the
/// absolute tolerance `tol`, which must be positive: true exactly when the
/// magnitude of `v` lies strictly below the magnitude of `tol`. A NaN `v` is
/// never almost zero.
pub fn zero_with(l: Layout, v: u64, tol: u64) -> (r: bool)
    requires
        l.wf(),
        fits(l, v),
        fits(l, tol),
        absolute_tolerance_valid(l, tol),
    ensures
        r == (mag_units(l, v) < mag_units(l, tol)),
{
    let vm: u64 = magnitude(l, v);
    proof {
        lemma_fields(l, tol);
        lemma_small_mod(tol as nat, l.sign_unit());
        crate::repr::lemma_units_order(l, vm, tol);
    }
    vm < tol
}

/// Whether `v` (a bit pattern of layout `l`) is almost zero under the
/// width's default tolerance, used as an absolute threshold. Comparison with
/// zero is the one case where a relative threshold is useless and an
/// absolute one is right.
pub fn zero(l: Layout, v: u64) -> (r: bool)
    requires
        l.wf(),
        fits(l, v),
    ensures
        r == (mag_units(l, v) < mag_units(l, (l.default_tolerance_pattern() as u64))),
{
    let tol: u64 = l.default_tolerance_bits();
    proof {
        lemma_default_tolerance_valid(l);
    }
    zero_with(l, v, tol)
}

/// The default tolerance of each width lies in the valid relative range —
/// from the machine epsilon up to (below) one — and is in particular a
/// positive, finite, non-NaN pattern, valid as an absolute tolerance too.
pub proof fn lemma_default_tolerance_valid(l: Layout)
    requires
        l.wf(),
    ensures
        tolerance_valid(l, (l.default_tolerance_pattern() as u64)),
        absolute_tolerance_valid(l, (l.default_tolerance_pattern() as u64)),
        is_finite(l, (l.default_tolerance_pattern() as u64)),
        fits(l, (l.default_tolerance_pattern() as u64)),
{
    lemma2_to64();
    lemma2_to64_rest();
    let d = l.default_tolerance_pattern() as u64;
    if l.width == 64 {
        assert(l.epsilon_pattern() == 971 * pow2(52));
        assert(l.one_pattern() == 1023 * pow2(52));
    } else {
        assert(l.epsilon_pattern() == 104 * pow2(23));
        assert(l.one_pattern() == 127 * pow2(23));
    }
    lemma_pow2_pos((l.width - 1) as nat);
    lemma_pow2_strictly_increases_both(l);
    lemma_small_mod(d as nat, l.sign_unit());
    lemma_class(l, d);
    lemma_units_strictly_increase(l, 0, d);
    assert(mag_units(l, 0u64) == 0) by {
        lemma_small_mod(0, l.sign_unit());
        vstd::arithmetic::div_mod::lemma_div_of0(pow2(l.sig_bits as nat) as int);
        lemma_small_mod(0, pow2(l.sig_bits as nat));
    }
}

/// The two pattern bounds this module compares against the sign bit.
proof fn lemma_pow2_strictly_increases_both(l: Layout)
    requires
        l.wf(),
    ensures
        l.sign_unit() < l.limit(),
        l.default_tolerance_pattern() < l.sign_unit(),
        l.infinity_pattern() < l.sign_unit(),
{
    lemma2_to64();
    lemma2_to64_rest();
    vstd::arithmetic::power2::lemma_pow2_strictly_increases(
        (l.width - 1) as nat,
        l.width as nat,
    );
    lemma_pow2_pos(l.exp_bits());
    crate::layout::lemma_exp_times_unit_fits(l, (l.emax() - 1) as nat);
    assert(l.infinity_pattern() == l.emax() * pow2(l.sig_bits as nat));
    vstd::arithmetic::mul::lemma_mul_strict_inequality(
        l.emax() as int,
        pow2(l.exp_bits()) as int,
        pow2(l.sig_bits as nat) as int,
    );
    lemma_pow2_adds(l.exp_bits(), l.sig_bits as nat);
}

} // verus!
