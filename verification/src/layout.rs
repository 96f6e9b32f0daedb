//! Bit-layout constants for the supported IEEE-754 binary floating-point
//! widths, derived from the total bit width and the significand bit count.

use vstd::prelude::*;

verus! {

use vstd::arithmetic::power2::pow2;
use vstd::arithmetic::power2::lemma_pow2_adds;
use vstd::arithmetic::power2::lemma_pow2_pos;
use vstd::arithmetic::power2::lemma_pow2_strictly_increases;
use vstd::arithmetic::mul::lemma_mul_strict_inequality;
use vstd::arithmetic::mul::lemma_mul_is_distributive_sub_other_way;
use vstd::bits::lemma_u64_pow2_no_overflow;
use vstd::bits::lemma_u64_shl_is_mul;

/// The bit layout of one IEEE-754 binary floating-point width.
///
/// A value of the width is handled as its raw bit pattern, held in the low
/// `width` bits of a `u64`. The layout fixes how that pattern splits into a
/// sign bit, an exponent field and a significand field.
#[derive(Clone, Copy)]
pub struct Layout {
    /// Total number of bits of the format (32 or 64).
    pub width: u64,
    /// Number of significand (fraction) bits: 23 or 52.
    pub sig_bits: u64,
}

impl Layout {
    /// The two supported layouts: IEEE-754 binary64 and binary32.
    pub open spec fn wf(self) -> bool {
        ||| (self.width == 64 && self.sig_bits == 52)
        ||| (self.width == 32 && self.sig_bits == 23)
    }

    /// Number of exponent bits: the bits left once the sign bit and the
    /// significand are taken out.
    pub open spec fn exp_bits(self) -> nat {
        (self.width - self.sig_bits - 1) as nat
    }

    /// The all-ones exponent field, reserved for infinities and NaNs.
    pub open spec fn emax(self) -> nat {
        (pow2(self.exp_bits()) - 1) as nat
    }

    /// The exponent bias: `2^(exp_bits - 1) - 1`.
    pub open spec fn bias(self) -> nat {
        (pow2((self.exp_bits() - 1) as nat) - 1) as nat
    }

    /// Weight of the sign bit: `2^(width - 1)`.
    pub open spec fn sign_unit(self) -> nat {
        pow2((self.width - 1) as nat)
    }

    /// One more than the largest pattern of the width: `2^width`.
    pub open spec fn limit(self) -> nat {
        pow2(self.width as nat)
    }

    /// Bit pattern of the smallest positive normal value: exponent field 1,
    /// significand 0.
    pub open spec fn min_positive_pattern(self) -> nat {
        pow2(self.sig_bits as nat)
    }

    /// Bit pattern of positive infinity: exponent field all ones,
    /// significand 0.
    pub open spec fn infinity_pattern(self) -> nat {
        self.emax() * pow2(self.sig_bits as nat)
    }

    /// Bit pattern of the bottom of the largest finite binade: exponent field
    /// `emax - 1`, significand 0.
    pub open spec fn top_binade_pattern(self) -> nat {
        (self.emax() - 1) as nat * pow2(self.sig_bits as nat)
    }

    /// Bit pattern of the machine epsilon, `2^-sig_bits`: exponent field
    /// `bias - sig_bits`, significand 0.
    pub open spec fn epsilon_pattern(self) -> nat {
        (self.bias() - self.sig_bits) as nat * pow2(self.sig_bits as nat)
    }

    /// Bit pattern of the value one: exponent field `bias`, significand 0.
    pub open spec fn one_pattern(self) -> nat {
        self.bias() * pow2(self.sig_bits as nat)
    }

    /// Bit pattern of the default tolerance of the width: the square root of
    /// the machine epsilon, rounded to the width.
    pub open spec fn default_tolerance_pattern(self) -> nat {
        if self.width == 64 {
            0x3E50000000000000
        } else {
            0x39B504F3
        }
    }

    /// The binary64 layout: 64 bits, 52 of them significand.
    pub fn binary64() -> (r: Layout)
        ensures
            r.wf(),
            r.width == 64,
            r.sig_bits == 52,
    {
        Layout { width: 64, sig_bits: 52 }
    }

    /// The binary32 layout: 32 bits, 23 of them significand.
    pub fn binary32() -> (r: Layout)
        ensures
            r.wf(),
            r.width == 32,
            r.sig_bits == 23,
    {
        Layout { width: 32, sig_bits: 23 }
    }

    /// Bit pattern of the smallest positive normal value of the width.
    pub fn min_positive_bits(self) -> (r: u64)
        requires
            self.wf(),
        ensures
            r as nat == self.min_positive_pattern(),
    {
        pow2_u64(self.sig_bits)
    }

    /// Bit pattern of positive infinity of the width.
    pub fn infinity_bits(self) -> (r: u64)
        requires
            self.wf(),
        ensures
            r as nat == self.infinity_pattern(),
    {
        let eb: u64 = self.width - self.sig_bits - 1;
        let emax: u64 = pow2_u64(eb) - 1;
        let unit: u64 = pow2_u64(self.sig_bits);
        proof {
            lemma_exp_times_unit_fits(self, emax as nat);
        }
        emax * unit
    }

    /// Bit pattern of the bottom of the largest finite binade.
    pub fn top_binade_bits(self) -> (r: u64)
        requires
            self.wf(),
        ensures
            r as nat == self.top_binade_pattern(),
    {
        let inf: u64 = self.infinity_bits();
        let unit: u64 = self.min_positive_bits();
        proof {
            vstd::arithmetic::power2::lemma2_to64();
            lemma_pow2_strictly_increases(1, self.exp_bits());
            lemma_mul_is_distributive_sub_other_way(
                pow2(self.sig_bits as nat) as int,
                self.emax() as int,
                1,
            );
        }
        inf - unit
    }

    /// Bit pattern of the machine epsilon of the width.
    pub fn epsilon_bits(self) -> (r: u64)
        requires
            self.wf(),
        ensures
            r as nat == self.epsilon_pattern(),
    {
        let eb: u64 = self.width - self.sig_bits - 1;
        let bias: u64 = pow2_u64(eb - 1) - 1;
        proof {
            vstd::arithmetic::power2::lemma2_to64();
            lemma_pow2_adds((eb - 1) as nat, 1);
        }
        let e: u64 = bias - self.sig_bits;
        let unit: u64 = pow2_u64(self.sig_bits);
        proof {
            lemma_exp_times_unit_fits(self, e as nat);
        }
        e * unit
    }

    /// Bit pattern of the value one of the width.
    pub fn one_bits(self) -> (r: u64)
        requires
            self.wf(),
        ensures
            r as nat == self.one_pattern(),
    {
        let eb: u64 = self.width - self.sig_bits - 1;
        let bias: u64 = pow2_u64(eb - 1) - 1;
        let unit: u64 = pow2_u64(self.sig_bits);
        proof {
            vstd::arithmetic::power2::lemma2_to64();
            lemma_pow2_adds((eb - 1) as nat, 1);
            lemma_exp_times_unit_fits(self, bias as nat);
        }
        bias * unit
    }

    /// Bit pattern of the default tolerance of the width: the square root of
    /// the machine epsilon (`2^-26` for binary64, about `2^-11.5` for
    /// binary32).
    pub fn default_tolerance_bits(self) -> (r: u64)
        requires
            self.wf(),
        ensures
            r as nat == self.default_tolerance_pattern(),
    {
        if self.width == 64 {
            0x3E50000000000000
        } else {
            0x39B504F3
        }
    }
}

/// `2^k` as a `u64`.
pub(crate) fn pow2_u64(k: u64) -> (r: u64)
    requires
        k < 64,
    ensures
        r as nat == pow2(k as nat),
        1 <= r,
{
    proof {
        lemma_u64_pow2_no_overflow(k as nat);
        lemma_u64_shl_is_mul(1u64, k);
        lemma_pow2_pos(k as nat);
    }
    1u64 << k
}

/// An exponent field placed above the significand stays below the sign bit:
/// `e * 2^sig_bits < 2^(width - 1)` whenever `e < 2^exp_bits`.
pub(crate) proof fn lemma_exp_times_unit_fits(l: Layout, e: nat)
    requires
        l.wf(),
        e < pow2(l.exp_bits()),
    ensures
        e * pow2(l.sig_bits as nat) < l.sign_unit(),
        l.sign_unit() < l.limit(),
        l.limit() <= 0x10000000000000000,
{
    lemma_pow2_pos(l.sig_bits as nat);
    lemma_pow2_pos(l.exp_bits());
    lemma_mul_strict_inequality(
        e as int,
        pow2(l.exp_bits()) as int,
        pow2(l.sig_bits as nat) as int,
    );
    lemma_pow2_adds(l.exp_bits(), l.sig_bits as nat);
    assert(l.exp_bits() + l.sig_bits as nat == (l.width - 1) as nat);
    lemma_pow2_strictly_increases((l.width - 1) as nat, l.width as nat);
    lemma_u64_pow2_no_overflow((l.width - 1) as nat);
    if l.width == 32 {
        lemma_pow2_strictly_increases(32, 64);
    }
    vstd::arithmetic::power2::lemma2_to64();
    vstd::arithmetic::power2::lemma2_to64_rest();
}

} // verus!
