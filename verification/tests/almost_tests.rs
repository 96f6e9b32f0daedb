use almost::Layout;
use almost::Outcome;

// The default tolerances, as floating-point values: the square roots of the
// machine epsilons.
const F64_TOLERANCE: f64 = 1.4901161193847656e-8;
const F32_TOLERANCE: f32 = 3.4526698e-4;

// The glue the verified core leaves to the width's arithmetic: the rounded
// difference of the pair and the rounded scaled tolerance, then the verdict.
fn finish64(o: Outcome) -> bool {
    match o {
        Outcome::Decided(b) => b,
        Outcome::Compare { lhs, rhs, scale, tol } => {
            let diff: f64 = f64::from_bits(lhs) - f64::from_bits(rhs);
            let abs_tol: f64 = f64::from_bits(tol) * f64::from_bits(scale);
            almost::within_tolerance(Layout::binary64(), diff.to_bits(), abs_tol.to_bits())
        }
    }
}

fn finish32(o: Outcome) -> bool {
    match o {
        Outcome::Decided(b) => b,
        Outcome::Compare { lhs, rhs, scale, tol } => {
            let diff: f32 = f32::from_bits(lhs as u32) - f32::from_bits(rhs as u32);
            let abs_tol: f32 = f32::from_bits(tol as u32) * f32::from_bits(scale as u32);
            almost::within_tolerance(
                Layout::binary32(),
                diff.to_bits() as u64,
                abs_tol.to_bits() as u64,
            )
        }
    }
}

fn equal64(a: f64, b: f64) -> bool {
    finish64(almost::equal(Layout::binary64(), a.to_bits(), b.to_bits()))
}

fn equal_with64(a: f64, b: f64, tol: f64) -> bool {
    finish64(almost::equal_with(
        Layout::binary64(),
        a.to_bits(),
        b.to_bits(),
        tol.to_bits(),
    ))
}

fn zero64(v: f64) -> bool {
    almost::zero(Layout::binary64(), v.to_bits())
}

fn zero_with64(v: f64, tol: f64) -> bool {
    almost::zero_with(Layout::binary64(), v.to_bits(), tol.to_bits())
}

fn equal32(a: f32, b: f32) -> bool {
    finish32(almost::equal(
        Layout::binary32(),
        a.to_bits() as u64,
        b.to_bits() as u64,
    ))
}

fn equal_with32(a: f32, b: f32, tol: f32) -> bool {
    finish32(almost::equal_with(
        Layout::binary32(),
        a.to_bits() as u64,
        b.to_bits() as u64,
        tol.to_bits() as u64,
    ))
}

fn zero32(v: f32) -> bool {
    almost::zero(Layout::binary32(), v.to_bits() as u64)
}

fn zero_with32(v: f32, tol: f32) -> bool {
    almost::zero_with(Layout::binary32(), v.to_bits() as u64, tol.to_bits() as u64)
}

#[test]
fn layout_constants_match_the_widths() {
    let l: Layout = Layout::binary64();
    assert_eq!(l.min_positive_bits(), f64::MIN_POSITIVE.to_bits());
    assert_eq!(l.infinity_bits(), f64::INFINITY.to_bits());
    assert_eq!(l.epsilon_bits(), f64::EPSILON.to_bits());
    assert_eq!(l.one_bits(), (1.0f64).to_bits());
    assert_eq!(l.top_binade_bits(), f64::MAX.to_bits() & f64::INFINITY.to_bits());
    let s: Layout = Layout::binary32();
    assert_eq!(s.min_positive_bits() as u32, f32::MIN_POSITIVE.to_bits());
    assert_eq!(s.infinity_bits() as u32, f32::INFINITY.to_bits());
    assert_eq!(s.epsilon_bits() as u32, f32::EPSILON.to_bits());
    assert_eq!(s.one_bits() as u32, (1.0f32).to_bits());
    assert_eq!(
        s.top_binade_bits() as u32,
        f32::MAX.to_bits() & f32::INFINITY.to_bits()
    );
}

#[test]
fn default_tolerances_match_the_constants() {
    assert_eq!(
        Layout::binary64().default_tolerance_bits(),
        F64_TOLERANCE.to_bits()
    );
    assert_eq!(
        Layout::binary32().default_tolerance_bits() as u32,
        F32_TOLERANCE.to_bits()
    );
}

#[test]
fn classic_rounding_error_is_absorbed() {
    assert!(equal64(0.1 + 0.2, 0.3));
    assert!(!(0.1 + 0.2 == 0.3));
    assert!(equal32(0.1f32 + 0.2f32, 0.3f32));
}

#[test]
fn tighter_than_default_tolerance_still_absorbs() {
    assert!(equal_with32(0.1f32 + 0.2f32, 0.3f32, F32_TOLERANCE / 2.0));
}

#[test]
fn zero_of_machine_epsilon() {
    assert!(zero32(f32::EPSILON));
    assert!(zero64(f64::EPSILON));
}

#[test]
fn zero_with_machine_epsilon_as_tolerance_is_too_strict() {
    assert!(!zero_with32(f32::EPSILON, f32::EPSILON));
    assert!(!zero_with64(f64::EPSILON, f64::EPSILON));
}

#[test]
fn zero_cases() {
    assert!(zero64(0.0));
    assert!(zero64(-0.0));
    assert!(zero64(1e-12));
    assert!(!zero64(1.0));
    assert!(!zero64(f64::INFINITY));
    assert!(!zero64(f64::NAN));
    assert!(zero_with64(0.01, 0.05));
    assert!(!zero_with64(0.06, 0.05));
    // an infinite absolute tolerance accepts every finite value, and no
    // infinite or NaN one
    assert!(zero_with64(f64::MAX, f64::INFINITY));
    assert!(!zero_with64(f64::INFINITY, f64::INFINITY));
    assert!(!zero_with64(f64::NAN, f64::INFINITY));
}

#[test]
fn zero_is_absolute_not_relative() {
    // under the same tolerance, the absolute comparison accepts what the
    // relative one (whose floor scales the threshold far down) rejects
    assert!(zero_with64(1e-30, 1e-8));
    assert!(!equal_with64(1e-30, 0.0, 1e-8));
}

#[test]
fn nan_is_never_equal() {
    assert!(!equal64(f64::NAN, f64::NAN));
    assert!(!equal64(f64::NAN, 1.0));
    assert!(!equal64(1.0, f64::NAN));
    assert!(!equal64(f64::NAN, f64::INFINITY));
    assert!(!equal32(f32::NAN, f32::NAN));
    assert!(!zero64(f64::NAN));
}

#[test]
fn signed_infinities() {
    assert!(equal64(f64::INFINITY, f64::INFINITY));
    assert!(equal64(f64::NEG_INFINITY, f64::NEG_INFINITY));
    assert!(!equal64(f64::INFINITY, f64::NEG_INFINITY));
    assert!(!equal64(f64::NEG_INFINITY, f64::INFINITY));
    assert!(equal32(f32::INFINITY, f32::INFINITY));
    assert!(!equal32(f32::INFINITY, f32::NEG_INFINITY));
}

#[test]
fn infinity_against_ordinary_finite_values() {
    assert!(!equal64(f64::INFINITY, 1.0));
    assert!(!equal64(1e300, f64::INFINITY));
    assert!(!equal64(f64::NEG_INFINITY, -1e300));
    assert!(!equal32(f32::INFINITY, 3.0e38));
}

#[test]
fn infinity_against_zero_and_subnormals() {
    assert!(!equal64(f64::INFINITY, 0.0));
    assert!(!equal64(0.0, f64::INFINITY));
    assert!(!equal64(f64::INFINITY, 5e-324));
    assert!(!equal_with64(f64::INFINITY, 5e-324, 0.5));
}

#[test]
fn rescale_and_retry_at_the_top() {
    // a generous tolerance sees the largest finite value as almost infinite
    assert!(equal_with64(f64::MAX, f64::INFINITY, 0.5));
    assert!(equal_with64(f64::INFINITY, f64::MAX, 0.5));
    assert!(equal_with32(f32::MAX, f32::INFINITY, 0.5));
    // the relative gap between MAX and the top binade is one part in 2^53,
    // far inside even the default tolerance
    assert!(equal64(f64::MAX, f64::INFINITY));
    // a value a binade down is no longer within a half tolerance
    assert!(!equal_with64(f64::MAX / 4.0, f64::INFINITY, 0.5));
}

#[test]
fn reflexivity_on_finite_values() {
    let samples: [f64; 8] = [0.0, -0.0, 1.0, -1.5, 0.3, 1e-310, 5e-324, f64::MAX];
    for v in samples {
        assert!(equal64(v, v));
        assert!(equal_with64(v, v, f64::EPSILON));
    }
    assert!(equal32(f32::MAX, f32::MAX));
    assert!(equal64(0.0, -0.0));
}

#[test]
fn symmetry_of_equal_with() {
    let values: [f64; 8] = [
        0.3,
        -0.3,
        1e-310,
        f64::MAX,
        f64::INFINITY,
        0.0,
        123.456,
        f64::NAN,
    ];
    let tols: [f64; 3] = [f64::EPSILON, F64_TOLERANCE, 0.5];
    for a in values {
        for b in values {
            for t in tols {
                assert_eq!(equal_with64(a, b, t), equal_with64(b, a, t));
            }
        }
    }
}

#[test]
fn strict_at_the_boundary() {
    // scale is 4.0, so the absolute threshold is exactly 1.0: a difference
    // of exactly 1.0 is not within it
    assert!(!equal_with64(4.0, 3.0, 0.25));
    assert!(!equal_with64(3.0, 4.0, 0.25));
    // nudging the tolerance up makes the same pair equal
    assert!(equal_with64(4.0, 3.0, 0.2500000001));
}

#[test]
fn subnormal_floor_keeps_comparison_sane() {
    // two subnormals a thousand steps apart: against their own tiny
    // magnitudes the gap is huge, but the floor at the smallest normal value
    // keeps them almost equal
    let a: f64 = f64::from_bits(1000);
    let b: f64 = f64::from_bits(2000);
    assert!(equal64(a, b));
    // they are almost zero as well
    assert!(zero64(a));
}

#[test]
fn magnitude_clears_only_the_sign() {
    let l: Layout = Layout::binary64();
    assert_eq!(
        almost::magnitude(l, (-1.5f64).to_bits()),
        (1.5f64).to_bits()
    );
    assert_eq!(almost::magnitude(l, (1.5f64).to_bits()), (1.5f64).to_bits());
    assert_eq!(
        almost::magnitude(l, (-0.0f64).to_bits()),
        (0.0f64).to_bits()
    );
    let l32: Layout = Layout::binary32();
    assert_eq!(
        almost::magnitude(l32, (-2.5f32).to_bits() as u64),
        (2.5f32).to_bits() as u64
    );
}

#[test]
fn outcomes_on_decided_cases() {
    let l: Layout = Layout::binary64();
    let nan: u64 = f64::NAN.to_bits();
    let one: u64 = (1.0f64).to_bits();
    let inf: u64 = f64::INFINITY.to_bits();
    assert_eq!(almost::equal(l, nan, one), Outcome::Decided(false));
    assert_eq!(almost::equal(l, inf, inf), Outcome::Decided(true));
    assert_eq!(almost::equal(l, inf, (0.0f64).to_bits()), Outcome::Decided(false));
    match almost::equal(l, one, one) {
        Outcome::Compare { lhs, rhs, scale, tol } => {
            assert_eq!(lhs, one);
            assert_eq!(rhs, one);
            // one is its own scale: it is well above the smallest normal
            assert_eq!(scale, one);
            assert_eq!(tol, F64_TOLERANCE.to_bits());
        }
        Outcome::Decided(_) => panic!("two finite values must reach the finite path"),
    }
}

#[test]
fn rescaled_pair_is_the_top_binade_and_half() {
    let l: Layout = Layout::binary64();
    let max: u64 = f64::MAX.to_bits();
    let inf: u64 = f64::INFINITY.to_bits();
    match almost::equal(l, max, inf) {
        Outcome::Compare { lhs, rhs, scale, tol: _ } => {
            // the infinite side becomes the bottom of the largest binade
            assert_eq!(f64::from_bits(lhs), 2.0f64.powi(1023));
            // the finite side is halved exactly
            assert_eq!(f64::from_bits(rhs), f64::MAX / 2.0);
            assert_eq!(f64::from_bits(scale), 2.0f64.powi(1023));
        }
        Outcome::Decided(_) => panic!("an infinity against a normal value must rescale"),
    }
}

#[test]
fn halving_into_the_subnormals_rounds_to_nearest_even() {
    // the smallest normal value, with a significand ending in binary ...01,
    // halves into the subnormals: the comparison path must round it as the
    // width's multiplication by one half would
    let l: Layout = Layout::binary64();
    let v: f64 = f64::from_bits((1u64 << 52) | 1);
    let inf: u64 = f64::INFINITY.to_bits();
    match almost::equal(l, v.to_bits(), inf) {
        Outcome::Compare { lhs: _, rhs, scale: _, tol: _ } => {
            assert_eq!(f64::from_bits(rhs), v * 0.5);
            assert_eq!(f64::from_bits(rhs), v / 2.0);
        }
        Outcome::Decided(_) => panic!("a normal value against an infinity must rescale"),
    }
}
