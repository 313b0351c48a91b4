//! IEEE-754 binary64 numbers held by their bit pattern, with the conversions
//! between them and integers that agent values need.

use vstd::arithmetic::power2::{
    lemma2_to64, lemma2_to64_rest, lemma_pow2_adds, lemma_pow2_pos, lemma_pow2_strictly_increases,
    lemma_pow2_unfold, pow2,
};
use vstd::prelude::*;

verus! {

/// 2 to the 52nd power: the weight of the lowest exponent bit.
pub const TWO_POW_52: u64 = 0x10_0000_0000_0000;

/// 2 to the 63rd power: the weight of the sign bit.
pub const SIGN_BIT: u64 = 0x8000_0000_0000_0000;

/// A binary64 floating-point number, held by its bit pattern.
#[derive(Clone, Copy, Debug)]
pub struct Float64 {
    pub bits: u64,
}

/// The biased exponent field (11 bits).
pub open spec fn exponent_field(bits: u64) -> int {
    ((bits % SIGN_BIT) / TWO_POW_52) as int
}

/// The fraction field (52 bits).
pub open spec fn fraction_field(bits: u64) -> int {
    (bits % TWO_POW_52) as int
}

pub open spec fn sign_negative(bits: u64) -> bool {
    bits >= SIGN_BIT
}

pub open spec fn is_nan_bits(bits: u64) -> bool {
    exponent_field(bits) == 2047 && fraction_field(bits) != 0
}

pub open spec fn is_infinite_bits(bits: u64) -> bool {
    exponent_field(bits) == 2047 && fraction_field(bits) == 0
}

pub open spec fn is_finite_bits(bits: u64) -> bool {
    exponent_field(bits) < 2047
}

pub open spec fn is_zero_bits(bits: u64) -> bool {
    exponent_field(bits) == 0 && fraction_field(bits) == 0
}

/// Floating-point equality: NaN equals nothing, and the two zeros are equal.
pub open spec fn floats_equal(a: u64, b: u64) -> bool {
    !is_nan_bits(a) && !is_nan_bits(b) && (a == b || (is_zero_bits(a) && is_zero_bits(b)))
}

/// The magnitude of a finite number, rounded toward zero to an integer.
pub open spec fn truncated_magnitude(bits: u64) -> nat {
    let e = exponent_field(bits);
    let significand = TWO_POW_52 + fraction_field(bits);
    if e == 0 {
        0
    } else if e >= 1075 {
        (significand * pow2((e - 1075) as nat)) as nat
    } else {
        (significand / (pow2((1075 - e) as nat) as int)) as nat
    }
}

/// Conversion of a float to `i64` as Rust's `as` performs it: rounding toward
/// zero, saturating at the bounds, and NaN to zero.
pub open spec fn float_to_i64(bits: u64) -> i64 {
    if is_nan_bits(bits) {
        0
    } else if is_infinite_bits(bits) {
        if sign_negative(bits) { i64::MIN } else { i64::MAX }
    } else {
        let m = truncated_magnitude(bits);
        if sign_negative(bits) {
            if m >= 0x8000_0000_0000_0000 { i64::MIN } else { (0 - m) as i64 }
        } else {
            if m > i64::MAX { i64::MAX } else { m as i64 }
        }
    }
}

/// Computes 2 to the power `k` for `k < 64`.
pub fn pow2_u64(k: u64) -> (r: u64)
    requires
        k < 64,
    ensures
        r == pow2(k as nat),
{
    proof {
        lemma2_to64();
        lemma2_to64_rest();
    }
    let mut r: u64 = 1;
    let mut i: u64 = 0;
    while i < k
        invariant
            i <= k < 64,
            r == pow2(i as nat),
        decreases k - i,
    {
        proof {
            lemma_pow2_unfold((i + 1) as nat);
            lemma_pow2_strictly_increases(i as nat, 63);
            lemma2_to64_rest();
            assert(r < 0x8000_0000_0000_0000);
        }
        r = r * 2;
        i = i + 1;
    }
    r
}

/// The position of the highest set bit of a positive number.
pub open spec fn floor_log2(v: nat) -> nat
    decreases v,
{
    if v <= 1 {
        0
    } else {
        1 + floor_log2(v / 2)
    }
}

/// The bit pattern of the binary64 number nearest to `v` (ties to the even
/// significand), for `v < 2^64`: what Rust's `as f64` gives for an unsigned
/// integer.
pub open spec fn nat_to_float_bits(v: nat) -> nat {
    if v == 0 {
        0
    } else {
        let e = floor_log2(v);
        if e <= 52 {
            ((e + 1023) * TWO_POW_52 + (v * pow2((52 - e) as nat) - TWO_POW_52)) as nat
        } else {
            let s = (e - 52) as nat;
            let q = v / pow2(s);
            let r = v % pow2(s);
            let half = pow2((s - 1) as nat);
            let rounded = if r > half || (r == half && q % 2 == 1) { q + 1 } else { q };
            if rounded == 2 * TWO_POW_52 {
                ((e + 1 + 1023) * TWO_POW_52) as nat
            } else {
                ((e + 1023) * TWO_POW_52 + (rounded - TWO_POW_52)) as nat
            }
        }
    }
}

/// What Rust's `as f64` gives for an `i64`, as a bit pattern.
pub open spec fn i64_to_float_bits(i: i64) -> nat {
    if i < 0 {
        (SIGN_BIT + nat_to_float_bits((0 - i) as nat)) as nat
    } else {
        nat_to_float_bits(i as nat)
    }
}

/// Powers of two bracket a positive number exactly at its highest set bit.
pub proof fn lemma_floor_log2_bracket(v: nat, e: nat)
    requires
        pow2(e) <= v < pow2(e + 1),
    ensures
        floor_log2(v) == e,
    decreases e,
{
    lemma_pow2_unfold(e + 1);
    lemma_pow2_pos(e);
    if e == 0 {
        lemma2_to64();
    } else {
        lemma_pow2_unfold(e);
        let h = pow2((e - 1) as nat);
        assert(h <= v / 2 < pow2(e)) by (nonlinear_arith)
            requires
                pow2(e) == 2 * h,
                pow2(e + 1) == 2 * pow2(e),
                pow2(e) <= v < pow2(e + 1),
        ;
        lemma_floor_log2_bracket(v / 2, (e - 1) as nat);
        assert(v > 1) by (nonlinear_arith)
            requires
                pow2(e) == 2 * h,
                h > 0,
                pow2(e) <= v,
        ;
    }
}

/// Rust's `as f64` on the magnitude `v` of an integer, as a bit pattern.
fn magnitude_to_float_bits(v: u64) -> (r: u64)
    ensures
        r == nat_to_float_bits(v as nat),
        r < SIGN_BIT,
{
    if v == 0 {
        return 0;
    }
    proof {
        lemma2_to64();
        lemma2_to64_rest();
    }
    let mut e: u64 = 0;
    let mut p: u64 = 1;
    while e < 63 && p <= v / 2
        invariant
            e <= 63,
            p == pow2(e as nat),
            1 <= p <= v,
        decreases 63 - e,
    {
        proof {
            lemma_pow2_unfold((e + 1) as nat);
        }
        p = p * 2;
        e = e + 1;
    }
    proof {
        lemma_pow2_unfold((e + 1) as nat);
        if e == 63 {
            assert(p == 0x8000_0000_0000_0000);
        } else {
            assert(p > v / 2);
        }
        assert(v < 2 * p);
        lemma_floor_log2_bracket(v as nat, e as nat);
    }
    if e <= 52 {
        let k = 52 - e;
        let scale = pow2_u64(k);
        proof {
            lemma_pow2_adds(e as nat, k as nat);
            assert(v * scale < 2 * TWO_POW_52 && v * scale >= TWO_POW_52) by (nonlinear_arith)
                requires
                    p <= v < 2 * p,
                    p * scale == TWO_POW_52,
            ;
        }
        let m = v * scale;
        (e + 1023) * TWO_POW_52 + (m - TWO_POW_52)
    } else {
        let s = e - 52;
        let d = pow2_u64(s);
        let q = v / d;
        let r = v % d;
        let half = d / 2;
        proof {
            lemma_pow2_unfold(s as nat);
            lemma_pow2_pos(s as nat);
            lemma_pow2_adds(52, s as nat);
            assert(TWO_POW_52 <= q < 2 * TWO_POW_52) by (nonlinear_arith)
                requires
                    p <= v < 2 * p,
                    p == TWO_POW_52 * d,
                    d > 0,
                    q == v / d,
            ;
        }
        let rounded = if r > half || (r == half && q % 2 == 1) { q + 1 } else { q };
        if rounded == 2 * TWO_POW_52 {
            (e + 1 + 1023) * TWO_POW_52
        } else {
            (e + 1023) * TWO_POW_52 + (rounded - TWO_POW_52)
        }
    }
}

impl Float64 {
    pub open spec fn spec_is_nan(self) -> bool {
        is_nan_bits(self.bits)
    }

    pub fn from_bits(bits: u64) -> (r: Self)
        ensures
            r.bits == bits,
    {
        Float64 { bits }
    }

    pub fn to_bits(&self) -> (r: u64)
        ensures
            r == self.bits,
    {
        self.bits
    }

    /// Whether the number is neither infinite nor NaN.
    pub fn is_finite(&self) -> (r: bool)
        ensures
            r == is_finite_bits(self.bits),
    {
        (self.bits % SIGN_BIT) / TWO_POW_52 < 2047
    }

    pub fn is_nan(&self) -> (r: bool)
        ensures
            r == is_nan_bits(self.bits),
    {
        (self.bits % SIGN_BIT) / TWO_POW_52 == 2047 && self.bits % TWO_POW_52 != 0
    }

    /// Floating-point equality.
    pub fn float_eq(&self, other: &Float64) -> (r: bool)
        ensures
            r == floats_equal(self.bits, other.bits),
    {
        if self.is_nan() || other.is_nan() {
            false
        } else if self.bits == other.bits {
            true
        } else {
            self.bits % SIGN_BIT == 0 && other.bits % SIGN_BIT == 0
        }
    }

    /// Rust's `as f64` on an `i64`.
    pub fn from_i64(i: i64) -> (r: Self)
        ensures
            r.bits == i64_to_float_bits(i),
    {
        if i < 0 {
            let magnitude: u64 = if i == i64::MIN {
                0x8000_0000_0000_0000
            } else {
                (0 - i) as u64
            };
            Float64 { bits: SIGN_BIT + magnitude_to_float_bits(magnitude) }
        } else {
            Float64 { bits: magnitude_to_float_bits(i as u64) }
        }
    }

    /// Rust's `as f64` on a `u64`.
    pub fn from_u64(u: u64) -> (r: Self)
        ensures
            r.bits == nat_to_float_bits(u as nat),
    {
        Float64 { bits: magnitude_to_float_bits(u) }
    }

    /// Conversion to `i64` with Rust's `as` semantics.
    pub fn to_i64(&self) -> (r: i64)
        ensures
            r == float_to_i64(self.bits),
    {
        let bits = self.bits;
        let e: u64 = (bits % SIGN_BIT) / TWO_POW_52;
        let f: u64 = bits % TWO_POW_52;
        let negative = bits >= SIGN_BIT;
        if e == 2047 {
            if f != 0 {
                return 0;
            }
            return if negative { i64::MIN } else { i64::MAX };
        }
        if e == 0 {
            return 0;
        }
        let significand: u64 = TWO_POW_52 + f;
        let mut saturated = false;
        let mut magnitude: u64 = 0;
        if e >= 1075 {
            let k = e - 1075;
            if k >= 11 {
                proof {
                    lemma2_to64();
                    if k > 11 {
                        lemma_pow2_strictly_increases(11, k as nat);
                    }
                    assert(significand * pow2(k as nat) >= TWO_POW_52 * pow2(11)) by (nonlinear_arith)
                        requires
                            significand >= TWO_POW_52,
                            pow2(k as nat) >= pow2(11),
                    ;
                }
                saturated = true;
            } else {
                let p = pow2_u64(k);
                proof {
                    lemma2_to64();
                    if k < 11 {
                        lemma_pow2_strictly_increases(k as nat, 11);
                    }
                    assert(significand * p <= (TWO_POW_52 * 2 - 1) * 2048) by (nonlinear_arith)
                        requires
                            significand < TWO_POW_52 * 2,
                            p <= 2048,
                    ;
                }
                magnitude = significand * p;
            }
        } else {
            let k = 1075 - e;
            if k >= 53 {
                proof {
                    lemma2_to64();
                    lemma2_to64_rest();
                    if k > 53 {
                        lemma_pow2_strictly_increases(53, k as nat);
                    }
                    vstd::arithmetic::div_mod::lemma_basic_div(
                        significand as int,
                        pow2(k as nat) as int,
                    );
                }
                magnitude = 0;
            } else {
                let p = pow2_u64(k);
                proof {
                    lemma_pow2_pos(k as nat);
                }
                magnitude = significand / p;
            }
        }
        if negative {
            if saturated || magnitude >= 0x8000_0000_0000_0000 {
                i64::MIN
            } else {
                0 - (magnitude as i64)
            }
        } else {
            if saturated || magnitude > 0x7fff_ffff_ffff_ffff {
                i64::MAX
            } else {
                magnitude as i64
            }
        }
    }
}

} // verus!
