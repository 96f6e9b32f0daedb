//! The laws of the comparison, stated over the spec functions of the
//! contracts and proved once for every input.

use vstd::prelude::*;

verus! {

use vstd::arithmetic::power2::pow2;
use vstd::arithmetic::div_mod::lemma_small_mod;
use vstd::bits::lemma_u64_pow2_no_overflow;
use crate::layout::Layout;
use crate::repr::fits;
use crate::repr::mag_pattern;
use crate::repr::sign_set;
use crate::repr::exp_field;
use crate::repr::mag_units;
use crate::repr::is_nan;
use crate::repr::is_infinite;
use crate::repr::is_finite;
use crate::repr::lemma_fields;
use crate::repr::lemma_units_order;
use crate::compare::Outcome;
use crate::compare::outcome_matches;
use crate::compare::infinite_finite_case;
use crate::compare::scale_ok;
use crate::compare::scale_units;

/// NaN absorption: a NaN operand, on either side, decides the comparison
/// false — also against another NaN.
pub proof fn lemma_nan_absorption(l: Layout, lhs: u64, rhs: u64, tol: u64, o: Outcome)
    requires
        is_nan(l, lhs) || is_nan(l, rhs),
        outcome_matches(l, lhs, rhs, tol, o),
    ensures
        o == Outcome::Decided(false),
{
}

/// Signed infinity: two infinite operands are almost equal exactly when they
/// are the same signed infinity.
pub proof fn lemma_signed_infinity(l: Layout, lhs: u64, rhs: u64, tol: u64, o: Outcome)
    requires
        is_infinite(l, lhs),
        is_infinite(l, rhs),
        outcome_matches(l, lhs, rhs, tol, o),
    ensures
        o == Outcome::Decided(sign_set(l, lhs) == sign_set(l, rhs)),
{
}

/// An infinite operand is never almost equal to a zero or subnormal one,
/// under any tolerance.
pub proof fn lemma_infinity_vs_tiny(l: Layout, lhs: u64, rhs: u64, tol: u64, o: Outcome)
    requires
        is_infinite(l, lhs),
        is_finite(l, rhs),
        exp_field(l, rhs) == 0,
        outcome_matches(l, lhs, rhs, tol, o),
    ensures
        o == Outcome::Decided(false),
{
}

/// Reflexivity, up to the width's arithmetic: comparing a finite value with
/// itself reaches the finite path with the operands unchanged and a scale at
/// or above the smallest positive normal value. The difference of the pair is
/// then of magnitude zero and any positive scaled tolerance lies above it
/// ([`lemma_zero_difference_within`]), so the comparison is true.
pub proof fn lemma_reflexivity_shape(l: Layout, x: u64, tol: u64, o: Outcome)
    requires
        l.wf(),
        is_finite(l, x),
        outcome_matches(l, x, x, tol, o),
    ensures
        o matches Outcome::Compare { lhs: a, rhs: b, scale: s, tol: t } && a == x && b == x && t
            == tol && mag_units(l, s) >= pow2(l.sig_bits as nat),
{
}

/// A difference of magnitude zero lies strictly within every positive
/// absolute tolerance: with [`lemma_reflexivity_shape`], reflexivity.
pub proof fn lemma_zero_difference_within(l: Layout, diff: u64, abs_tol: u64)
    requires
        mag_units(l, diff) == 0,
        mag_units(l, abs_tol) > 0,
    ensures
        mag_units(l, diff) < mag_units(l, abs_tol),
{
}

/// Strictness at the boundary: a difference of exactly the scaled tolerance's
/// magnitude is not within it — the comparison [`crate::within_tolerance`]
/// answers is strict.
pub proof fn lemma_boundary_strict(l: Layout, diff: u64, abs_tol: u64)
    requires
        mag_units(l, diff) == mag_units(l, abs_tol),
    ensures
        !(mag_units(l, diff) < mag_units(l, abs_tol)),
{
}

/// The subnormal floor: the scale of the finite comparison never drops below
/// the smallest positive normal value, so two subnormal operands are compared
/// no more strictly than values at that scale.
pub proof fn lemma_subnormal_floor(l: Layout, x: u64, y: u64, s: u64)
    requires
        l.wf(),
        scale_ok(l, x, y, s),
    ensures
        mag_units(l, s) >= pow2(l.sig_bits as nat),
{
}

/// Two patterns with the same sign and the same magnitude are the same
/// pattern: the magnitude in units determines the magnitude pattern.
pub proof fn lemma_units_injective(l: Layout, u: u64, v: u64)
    requires
        l.wf(),
        fits(l, u),
        fits(l, v),
        sign_set(l, u) == sign_set(l, v),
        mag_units(l, u) == mag_units(l, v),
    ensures
        u == v,
{
    lemma_fields(l, u);
    lemma_fields(l, v);
    lemma_u64_pow2_no_overflow((l.width - 1) as nat);
    let mu = mag_pattern(l, u) as u64;
    let mv = mag_pattern(l, v) as u64;
    lemma_small_mod(mu as nat, l.sign_unit());
    lemma_small_mod(mv as nat, l.sign_unit());
    lemma_units_order(l, mu, mv);
}

/// Symmetry: swapping the operands swaps nothing that matters. A decided
/// outcome is the same boolean, and a finite comparison has the same scale,
/// the same tolerance, and the same operand pair (as given or swapped) —
/// whose difference has the same magnitude either way round.
pub proof fn lemma_symmetry(l: Layout, x: u64, y: u64, tol: u64, o1: Outcome, o2: Outcome)
    requires
        l.wf(),
        fits(l, x),
        fits(l, y),
        outcome_matches(l, x, y, tol, o1),
        outcome_matches(l, y, x, tol, o2),
    ensures
        o1 matches Outcome::Decided(b) ==> o2 == Outcome::Decided(b),
        o1 matches Outcome::Compare { lhs: a1, rhs: b1, scale: s1, tol: t1 } ==> (o2 matches
            Outcome::Compare { lhs: a2, rhs: b2, scale: s2, tol: t2 } && s2 == s1 && t2 == t1 && (
        (a2 == a1 && b2 == b1) || (a2 == b1 && b2 == a1))),
{
    lemma_fields(l, x);
    lemma_fields(l, y);
    if is_nan(l, x) || is_nan(l, y) {
    } else if is_infinite(l, x) && is_infinite(l, y) {
    } else if is_finite(l, x) && is_finite(l, y) {
        let s1 = o1->Compare_scale;
        let s2 = o2->Compare_scale;
        assert(scale_units(l, x, y) == scale_units(l, y, x));
        lemma_units_injective(l, s1, s2);
    } else {
        // exactly one operand is infinite: both outcomes follow the same
        // oriented case, with the infinite operand first
        let i = if is_infinite(l, x) {
            x
        } else {
            y
        };
        let f = if is_infinite(l, x) {
            y
        } else {
            x
        };
        assert(infinite_finite_case(l, i, f, tol, o1));
        assert(infinite_finite_case(l, i, f, tol, o2));
        if exp_field(l, f) != 0 {
            let a1 = o1->Compare_lhs;
            let b1 = o1->Compare_rhs;
            let a2 = o2->Compare_lhs;
            let b2 = o2->Compare_rhs;
            lemma_units_injective(l, a1, a2);
            lemma_units_injective(l, b1, b2);
            lemma_units_injective(l, o1->Compare_scale, o2->Compare_scale);
        }
    }
}

} // verus!
