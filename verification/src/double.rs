//! Floating-point results as the bits of an IEEE 754 double.

use vstd::arithmetic::power2::{
    lemma_pow2_pos, lemma_pow2_strictly_increases, lemma_pow2_unfold, pow2,
};
use vstd::prelude::*;

verus! {

/// A double-precision number, held as the bits of its binary64 encoding.
#[derive(Debug, Clone, Copy, PartialEq, Eq, Structural)]
pub struct Double {
    pub bits: u64,
}

impl Double {
    /// Whether the bits stand for no number: all exponent bits are set, and some
    /// bit of the fraction.
    pub open spec fn is_nan(self) -> bool {
        self.bits % 0x8000_0000_0000_0000 > 0x7ff0_0000_0000_0000
    }

    /// An integer by which numbers are ordered as their values are: the bits
    /// without the sign, counted downwards from zero where the sign is set. Both
    /// zeros have the same.
    pub open spec fn key(self) -> int {
        if self.bits < 0x8000_0000_0000_0000 {
            self.bits as int
        } else {
            0x8000_0000_0000_0000 - self.bits
        }
    }

    /// Whether the bits stand for no number.
    pub fn nan(&self) -> (yes: bool)
        ensures
            yes == self.is_nan(),
    {
        self.bits % 0x8000_0000_0000_0000 > 0x7ff0_0000_0000_0000
    }

    /// An integer by which numbers are ordered as their values are.
    pub fn order_key(&self) -> (key: i64)
        ensures
            key == self.key(),
    {
        if self.bits < 0x8000_0000_0000_0000 {
            self.bits as i64
        } else {
            0 - ((self.bits - 0x8000_0000_0000_0000) as i64)
        }
    }
}

/// How far from zero a number is, in the smallest steps that there are between
/// numbers: the fraction where the exponent is zero; else the fraction with the
/// leading bit that is not written, doubled once for each exponent above the
/// first. What is infinite follows the largest number.
pub open spec fn magnitude(exponent: int, fraction: int) -> int {
    if exponent == 0 {
        fraction
    } else {
        (0x10_0000_0000_0000 + fraction) * pow2((exponent - 1) as nat)
    }
}

/// The value that the bits of a number stand for, in the smallest steps that
/// there are between numbers: a sign, then eleven bits of exponent, then
/// fifty-two bits of fraction.
pub open spec fn value(bits: int) -> int {
    let rest = bits % 0x8000_0000_0000_0000;
    let size = magnitude(rest / 0x10_0000_0000_0000, rest % 0x10_0000_0000_0000);
    if bits < 0x8000_0000_0000_0000 {
        size
    } else {
        -size
    }
}

/// Bits stand for no number exactly when all eleven bits of the exponent are set
/// and the fraction is not zero, whatever the sign.
pub proof fn law_no_number(a: Double)
    ensures
        a.is_nan() <==> {
            &&& (a.bits as int / 0x10_0000_0000_0000) % 0x800 == 0x7ff
            &&& a.bits as int % 0x10_0000_0000_0000 != 0
        },
{
}

/// Numbers are ordered as the values that their bits stand for; the two zeros
/// are equal.
pub proof fn law_numbers_are_ordered_by_value(a: Double, b: Double)
    ensures
        a.key() < b.key() <==> value(a.bits as int) < value(b.bits as int),
        a.key() == b.key() <==> value(a.bits as int) == value(b.bits as int),
{
    let x = a.bits as int % 0x8000_0000_0000_0000;
    let y = b.bits as int % 0x8000_0000_0000_0000;
    lemma_magnitude_grows(0, x);
    lemma_magnitude_grows(0, y);
    lemma_magnitude_grows(x, y);
    lemma_magnitude_grows(y, x);
}

/// More of the bits below the sign stand for a larger number.
proof fn lemma_magnitude_grows(x: int, y: int)
    requires
        0 <= x,
        0 <= y,
    ensures
        x < y ==> magnitude(x / 0x10_0000_0000_0000, x % 0x10_0000_0000_0000) < magnitude(
            y / 0x10_0000_0000_0000,
            y % 0x10_0000_0000_0000,
        ),
        magnitude(0, 0) == 0,
{
    if x < y {
        let (e, f) = (x / 0x10_0000_0000_0000, x % 0x10_0000_0000_0000);
        let (g, h) = (y / 0x10_0000_0000_0000, y % 0x10_0000_0000_0000);
        assert(e <= g);
        if g > 0 {
            let high = pow2((g - 1) as nat) as int;
            lemma_pow2_pos((g - 1) as nat);
            if e == g {
                assert(f < h);
                assert((0x10_0000_0000_0000 + f) * high < (0x10_0000_0000_0000 + h) * high)
                    by (nonlinear_arith)
                    requires
                        f < h,
                        high > 0,
                ;
            } else {
                assert((0x10_0000_0000_0000 + h) * high >= 0x10_0000_0000_0000 * high)
                    by (nonlinear_arith)
                    requires
                        h >= 0,
                        high > 0,
                ;
                if e > 0 {
                    let low = pow2((e - 1) as nat) as int;
                    lemma_pow2_pos((e - 1) as nat);
                    lemma_pow2_unfold(e as nat);
                    assert(pow2(e as nat) <= pow2((g - 1) as nat)) by {
                        if e < g - 1 {
                            lemma_pow2_strictly_increases(e as nat, (g - 1) as nat);
                        }
                    }
                    assert((0x10_0000_0000_0000 + f) * low < 0x20_0000_0000_0000 * low)
                        by (nonlinear_arith)
                        requires
                            f < 0x10_0000_0000_0000,
                            low > 0,
                    ;
                }
            }
        }
    }
}

} // verus!
