//! Lengths in points (1/72 inch), held as the bits of an IEEE 754 single.

use vstd::arithmetic::power2::{
    lemma2_to64, lemma_pow2_strictly_increases, lemma_pow2_unfold, pow2,
};
use vstd::prelude::*;

verus! {

/// A length in points: the bit pattern of an `f32`, as `f32::to_bits` gives it.
#[derive(Clone, Copy, Debug, PartialEq, Eq, Structural)]
pub struct Points {
    /// Sign (1 bit), biased exponent (8 bits) and fraction (23 bits).
    pub bits: u32,
}

impl Points {
    /// Whether the sign bit is set.
    pub open spec fn is_negative(self) -> bool {
        self.bits >= 0x8000_0000
    }

    /// The exponent field.
    pub open spec fn exponent_field(self) -> int {
        (self.bits / 0x80_0000) as int % 256
    }

    /// The fraction field.
    pub open spec fn fraction(self) -> int {
        self.bits as int % 0x80_0000
    }

    /// Neither an infinity nor a NaN.
    pub open spec fn is_finite(self) -> bool {
        self.exponent_field() != 255
    }

    /// Positive infinity.
    pub open spec fn is_infinite(self) -> bool {
        !self.is_negative() && self.exponent_field() == 255 && self.fraction() == 0
    }

    /// The exponent of a finite value's magnitude, which is
    /// `significand * 2^(exponent - 150)`.
    pub open spec fn exponent(self) -> int {
        if self.exponent_field() == 0 {
            1
        } else {
            self.exponent_field()
        }
    }

    /// The significand of a finite value: the fraction, with the leading one
    /// that a normal number leaves out.
    pub open spec fn significand(self) -> int {
        if self.exponent_field() == 0 {
            self.fraction()
        } else {
            0x80_0000 + self.fraction()
        }
    }

    /// The whole number of points nearest to this length, halves rounded up:
    /// none for a negative length or a NaN, and no more than a `u32` holds.
    pub open spec fn rounded(self) -> int {
        let e = self.exponent();
        let m = self.significand();
        let nearest = if e >= 150 {
            m * pow2((e - 150) as nat)
        } else {
            (2 * m + pow2((150 - e) as nat)) / (2 * pow2((150 - e) as nat)) as int
        };
        if self.is_infinite() {
            u32::MAX as int
        } else if self.is_negative() || !self.is_finite() {
            0
        } else if nearest > u32::MAX {
            u32::MAX as int
        } else {
            nearest
        }
    }

    /// Whether this length is within two points of `target`.
    pub open spec fn is_near(self, target: int) -> bool {
        let e = self.exponent();
        let m = self.significand();
        &&& self.is_finite()
        &&& !self.is_negative()
        &&& if e >= 150 {
            target - 2 <= m * pow2((e - 150) as nat) <= target + 2
        } else {
            (target - 2) * pow2((150 - e) as nat) <= m <= (target + 2) * pow2((150 - e) as nat)
        }
    }

    /// A rounded length fits in a `u32`.
    pub proof fn lemma_rounded(self)
        ensures
            0 <= self.rounded() <= u32::MAX,
    {
        let (e, m) = (self.exponent(), self.significand());
        if e >= 150 {
            let scale = pow2((e - 150) as nat) as int;
            assert(m * scale >= 0) by (nonlinear_arith)
                requires
                    m >= 0,
                    scale >= 0,
            ;
        } else {
            lemma_pow2(0, (150 - e) as nat);
            let scale = pow2((150 - e) as nat) as int;
            assert((2 * m + scale) / (2 * scale) >= 0) by (nonlinear_arith)
                requires
                    m >= 0,
                    scale >= 1,
            ;
        }
    }

    /// The whole number of points nearest to this length (see
    /// [`Points::rounded`]).
    pub fn round(self) -> (whole: u32)
        ensures
            whole == self.rounded(),
    {
        let field: u32 = (self.bits / 0x80_0000) % 256;
        let fraction: u32 = self.bits % 0x80_0000;
        if self.bits >= 0x8000_0000 {
            return 0;
        }
        if field == 255 {
            return if fraction == 0 { u32::MAX } else { 0 };
        }
        if field < 126 {
            proof {
                lemma_pow2(25, (150 - self.exponent()) as nat);
                lemma_below_half(self.significand(), pow2((150 - self.exponent()) as nat) as int);
            }
            return 0;
        }
        let significand: u64 = 0x80_0000 + fraction as u64;
        if field < 150 {
            let scale: u64 = power_of_two(150 - field);
            let whole: u64 = (2 * significand + scale) / (2 * scale);
            assert(whole <= 2 * significand + scale) by (nonlinear_arith)
                requires
                    whole == (2 * significand + scale) / (2 * scale as int),
                    scale >= 1,
            ;
            return whole as u32;
        }
        if field > 158 {
            proof {
                lemma_pow2(9, (field - 150) as nat);
                let scale = pow2((field - 150) as nat) as int;
                assert(significand as int * scale > u32::MAX) by (nonlinear_arith)
                    requires
                        significand >= 0x80_0000,
                        scale >= 512,
                ;
            }
            return u32::MAX;
        }
        let scale: u64 = power_of_two(field - 150);
        proof {
            lemma_pow2((field - 150) as nat, 8);
        }
        assert(significand as int * scale as int <= u32::MAX) by (nonlinear_arith)
            requires
                significand < 0x100_0000,
                scale <= 256,
        ;
        (significand * scale) as u32
    }

    /// Whether this length is within two points of `target` (see
    /// [`Points::is_near`]).
    pub fn near(self, target: u32) -> (near: bool)
        requires
            3 <= target <= 0xffff,
        ensures
            near == self.is_near(target as int),
    {
        let field: u32 = (self.bits / 0x80_0000) % 256;
        let fraction: u32 = self.bits % 0x80_0000;
        if self.bits >= 0x8000_0000 || field == 255 {
            return false;
        }
        if field < 126 {
            proof {
                lemma_pow2(24, (150 - self.exponent()) as nat);
                let scale = pow2((150 - self.exponent()) as nat) as int;
                assert((target - 2) * scale > self.significand()) by (nonlinear_arith)
                    requires
                        target >= 3,
                        scale >= 0x100_0000,
                        self.significand() < 0x100_0000,
                ;
            }
            return false;
        }
        let significand: u64 = 0x80_0000 + fraction as u64;
        if field < 150 {
            let scale: u64 = power_of_two(150 - field);
            proof {
                lemma_pow2((150 - field) as nat, 24);
            }
            assert((target as int + 2) * scale as int <= 0x1_0001 * 0x100_0000) by (nonlinear_arith)
                requires
                    target <= 0xffff,
                    scale <= 0x100_0000,
            ;
            assert((target as int - 2) * scale as int <= (target as int + 2) * scale as int)
                by (nonlinear_arith)
                requires
                    scale >= 0,
            ;
            return (target as u64 - 2) * scale <= significand && significand <= (target as u64 + 2)
                * scale;
        }
        proof {
            lemma_pow2(0, (field - 150) as nat);
            let scale = pow2((field - 150) as nat) as int;
            assert(significand as int * scale > target + 2) by (nonlinear_arith)
                requires
                    significand >= 0x80_0000,
                    scale >= 1,
                    target <= 0xffff,
            ;
        }
        false
    }
}

/// `2^power`, for the powers that a single's exponent calls for.
fn power_of_two(power: u32) -> (value: u64)
    requires
        power <= 24,
    ensures
        value == pow2(power as nat),
        1 <= value <= 0x100_0000,
{
    let mut value: u64 = 1;
    let mut done: u32 = 0;
    proof {
        lemma_pow2(0, 24);
    }
    while done < power
        invariant
            done <= power <= 24,
            value == pow2(done as nat),
            1 <= value <= pow2(24),
            pow2(24) == 0x100_0000,
        decreases power - done,
    {
        proof {
            lemma_pow2_unfold((done + 1) as nat);
            lemma_pow2((done + 1) as nat, 24);
        }
        value = value * 2;
        done = done + 1;
    }
    value
}

/// Powers of two grow with the exponent; with those that bound a single's
/// significand.
proof fn lemma_pow2(low: nat, high: nat)
    requires
        low <= high,
    ensures
        pow2(low) <= pow2(high),
        pow2(0) == 1,
        pow2(8) == 256,
        pow2(9) == 512,
        pow2(24) == 0x100_0000,
        pow2(25) == 0x200_0000,
{
    lemma2_to64();
    if low < high {
        lemma_pow2_strictly_increases(low, high);
    }
}

/// Less than half a point rounds to none.
proof fn lemma_below_half(significand: int, scale: int)
    requires
        0 <= 2 * significand < scale,
    ensures
        (2 * significand + scale) / (2 * scale) == 0,
{
    assert((2 * significand + scale) / (2 * scale) == 0) by (nonlinear_arith)
        requires
            0 <= 2 * significand + scale < 2 * scale,
    ;
}

/// The sign, the exponent and the fraction are all of a length's bits.
pub proof fn law_bits_are_split(length: Points)
    ensures
        0 <= length.fraction() < 0x80_0000,
        0 <= length.exponent_field() < 256,
        length.bits == (if length.is_negative() {
            0x8000_0000int
        } else {
            0
        }) + length.exponent_field() * 0x80_0000 + length.fraction(),
        length.exponent_field() > 0 ==> length.exponent() == length.exponent_field()
            && length.significand() == 0x80_0000 + length.fraction(),
        length.exponent_field() == 0 ==> length.exponent() == 1 && length.significand()
            == length.fraction(),
{
    let bits = length.bits;
    assert(bits == bits / 0x80_0000 * 0x80_0000 + bits % 0x80_0000);
}

/// A length is rounded to a whole number that is no more than half a point
/// away, up where two are: of what stands for `significand / scale` points,
/// twice the significand lies within one scale of twice the rounded, scaled.
pub proof fn law_lengths_are_rounded_to_the_nearest(length: Points)
    ensures
        length.is_finite() && !length.is_negative() && length.exponent() < 150 ==> {
            let scale = pow2((150 - length.exponent()) as nat) as int;
            let twice = 2 * length.rounded() * scale;
            twice - scale <= 2 * length.significand() < twice + scale
        },
        length.is_finite() && !length.is_negative() && length.exponent() >= 150 ==> {
            let value = length.significand() * pow2((length.exponent() - 150) as nat);
            length.rounded() == if value > u32::MAX {
                u32::MAX as int
            } else {
                value
            }
        },
        length.is_negative() ==> length.rounded() == 0,
        !length.is_finite() && !length.is_negative() ==> length.rounded() == if length.fraction()
            == 0 {
            u32::MAX as int
        } else {
            0
        },
{
    law_bits_are_split(length);
    if length.is_finite() && !length.is_negative() && length.exponent() < 150 {
        let m = length.significand();
        lemma_pow2(0, (150 - length.exponent()) as nat);
        let scale = pow2((150 - length.exponent()) as nat) as int;
        let nearest = (2 * m + scale) / (2 * scale);
        assert(2 * nearest * scale <= 2 * m + scale < 2 * nearest * scale + 2 * scale && nearest
            <= 2 * m + scale) by (nonlinear_arith)
            requires
                nearest == (2 * m + scale) / (2 * scale),
                scale >= 1,
                m >= 0,
        ;
        lemma_pow2_unfold((150 - length.exponent()) as nat);
        let half = pow2((149 - length.exponent()) as nat) as int;
        lemma_pow2(0, (149 - length.exponent()) as nat);
        assert(nearest <= m + 1) by (nonlinear_arith)
            requires
                nearest == (2 * m + scale) / (2 * scale),
                scale >= 1,
                m >= 0,
        ;
    }
}

/// A length is near a whole number of points if it is no more than two points
/// away: of what stands for `significand / scale` points, the significand lies
/// within two scales of the number, scaled.
pub proof fn law_near_is_within_two_points(length: Points, target: int)
    ensures
        length.is_near(target) ==> length.is_finite() && !length.is_negative(),
        length.is_finite() && !length.is_negative() && length.exponent() < 150 ==> {
            let scale = pow2((150 - length.exponent()) as nat) as int;
            let away = length.significand() - target * scale;
            length.is_near(target) <==> -2 * scale <= away <= 2 * scale
        },
        length.is_finite() && !length.is_negative() && length.exponent() >= 150 ==> {
            let away = length.significand() * pow2((length.exponent() - 150) as nat) - target;
            length.is_near(target) <==> -2 <= away <= 2
        },
{
    if length.exponent() < 150 {
        let scale = pow2((150 - length.exponent()) as nat) as int;
        assert((target - 2) * scale == target * scale - 2 * scale && (target + 2) * scale == target
            * scale + 2 * scale) by (nonlinear_arith);
    }
}

} // verus!
