//! Migration progress percentages, held as the IEEE-754 binary64 encoding of
//! the value the migrator reports.
//!
//! For two encodings that are not NaN, the numeric order of the values they
//! encode is the order of their signed magnitudes (`order_key`), with `+0` and
//! `-0` equal: that is how binary64 lays out sign, exponent and fraction.
use vstd::prelude::*;
use vstd::arithmetic::power2::pow2;
use vstd::bits::lemma_u64_shr_is_div;

verus! {

/// Encoding of `100.0`.
pub const HUNDRED_BITS: u64 = 0x4059_0000_0000_0000u64;

/// Encoding of `50.0`.
pub const FIFTY_BITS: u64 = 0x4049_0000_0000_0000u64;

/// The biased exponent field of an encoding.
pub open spec fn exponent_field(b: u64) -> int {
    ((b as int) / 0x10_0000_0000_0000) % 2048
}

/// The fraction field of an encoding.
pub open spec fn fraction_field(b: u64) -> int {
    (b as int) % 0x10_0000_0000_0000
}

/// Whether the sign bit is set.
pub open spec fn sign_set(b: u64) -> bool {
    b >= 0x8000_0000_0000_0000u64
}

/// Whether an encoding is a NaN.
pub open spec fn is_nan_bits(b: u64) -> bool {
    exponent_field(b) == 2047 && fraction_field(b) != 0
}

/// The signed magnitude by which encodings that are not NaN are ordered.
pub open spec fn order_key(b: u64) -> int {
    let m = (b as int) % 0x8000_0000_0000_0000;
    if sign_set(b) {
        -m
    } else {
        m
    }
}

/// The integer part of a positive, normal or subnormal, finite value below
/// `2^53`: `(2^52 + fraction) * 2^(exponent - 1075)` rounded toward zero.
pub open spec fn whole_part(b: u64) -> int {
    let e = exponent_field(b);
    if e < 1023 {
        0
    } else {
        (0x10_0000_0000_0000 + fraction_field(b)) / (pow2((1075 - e) as nat) as int)
    }
}

/// `f64::clamp(p, 0.0, 100.0) as u32`: NaN and values at or below zero give 0,
/// values at or above 100 give 100, others their integer part.
pub open spec fn clamped_whole(b: u64) -> int {
    if is_nan_bits(b) || order_key(b) <= 0 {
        0
    } else if order_key(b) >= order_key(HUNDRED_BITS) {
        100
    } else {
        whole_part(b)
    }
}

/// `f64::min`: a NaN argument yields the other argument; otherwise the
/// smaller value (on a tie of `+0` and `-0` the first argument).
pub open spec fn min_bits(a: u64, b: u64) -> u64 {
    if is_nan_bits(a) {
        b
    } else if is_nan_bits(b) {
        a
    } else if order_key(b) < order_key(a) {
        b
    } else {
        a
    }
}

/// `value >= bound` for a bound that is not NaN.
pub open spec fn at_least_bits(value: u64, bound: u64) -> bool {
    !is_nan_bits(value) && order_key(value) >= order_key(bound)
}

/// A percentage, held as the bits of the binary64 value (`f64::to_bits`).
#[derive(Clone, Copy, Debug, PartialEq, Eq, Structural)]
pub struct Percent {
    pub bits: u64,
}

impl Percent {
    /// `0.0`.
    pub fn zero() -> (p: Percent)
        ensures
            p.bits == 0,
    {
        Percent { bits: 0 }
    }

    /// Whether the value is a NaN.
    pub fn is_nan(&self) -> (r: bool)
        ensures
            r == is_nan_bits(self.bits),
    {
        let e = (self.bits / 0x10_0000_0000_0000u64) % 2048;
        let f = self.bits % 0x10_0000_0000_0000u64;
        e == 2047 && f != 0
    }

    /// The signed magnitude of the encoding.
    pub fn key(&self) -> (k: i64)
        ensures
            k == order_key(self.bits),
    {
        let m = self.bits % 0x8000_0000_0000_0000u64;
        if self.bits >= 0x8000_0000_0000_0000u64 {
            -(m as i64)
        } else {
            m as i64
        }
    }

    /// `self >= bound`, for a bound that is not NaN.
    pub fn at_least(&self, bound: u64) -> (r: bool)
        requires
            !is_nan_bits(bound),
        ensures
            r == at_least_bits(self.bits, bound),
    {
        let b = Percent { bits: bound };
        !self.is_nan() && self.key() >= b.key()
    }

    /// The smaller of two percentages, as `f64::min` picks it.
    pub fn min(self, other: Percent) -> (r: Percent)
        ensures
            r.bits == min_bits(self.bits, other.bits),
    {
        if self.is_nan() {
            other
        } else if other.is_nan() {
            self
        } else if other.key() < self.key() {
            other
        } else {
            self
        }
    }

    /// `self.clamp(0.0, 100.0) as u32`.
    pub fn clamped_whole(&self) -> (w: u32)
        ensures
            w == clamped_whole(self.bits),
            w <= 100,
    {
        if self.is_nan() || self.key() <= 0 {
            return 0;
        }
        let hundred = Percent { bits: HUNDRED_BITS };
        if self.key() >= hundred.key() {
            return 100;
        }
        let e = (self.bits / 0x10_0000_0000_0000u64) % 2048;
        if e < 1023 {
            return 0;
        }
        let f: u64 = self.bits % 0x10_0000_0000_0000u64;
        proof {
            // Positive and below 100: the encoding itself is below that of 100.
            assert(order_key(self.bits) == self.bits as int);
            assert(order_key(HUNDRED_BITS) == HUNDRED_BITS as int);
            assert(self.bits < HUNDRED_BITS);
            assert(self.bits == (self.bits / 0x10_0000_0000_0000u64) * 0x10_0000_0000_0000u64 + f);
            assert(e <= 1029);
            assert(e == 1029 ==> f < 0x9_0000_0000_0000);
        }
        let m: u64 = 0x10_0000_0000_0000u64 + f;
        let shift: u64 = 1075 - e;
        let w = m >> shift;
        proof {
            lemma_u64_shr_is_div(m, shift);
            vstd::arithmetic::power2::lemma_pow2_pos(shift as nat);
            vstd::arithmetic::power2::lemma2_to64_rest();
            if e == 1029 {
                assert(m < 0x19_0000_0000_0000);
                assert(w < 100) by (nonlinear_arith)
                    requires
                        w as nat == m as nat / pow2(46),
                        m < 0x19_0000_0000_0000,
                        pow2(46) == 0x4000_0000_0000,
                ;
            } else {
                if shift > 47 { vstd::arithmetic::power2::lemma_pow2_strictly_increases(47, shift as nat); }
                assert(w < 64) by (nonlinear_arith)
                    requires
                        w as nat == m as nat / pow2(shift as nat),
                        m < 0x20_0000_0000_0000,
                        pow2(shift as nat) >= 0x8000_0000_0000,
                ;
            }
        }
        w as u32
    }
}

} // verus!
