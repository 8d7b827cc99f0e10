//! Integer model of the IEEE-754 bit patterns that `Float` and `Double`
//! property values carry.
//!
//! Verified code holds single- and double-precision values as their raw bit
//! patterns (`u32` / `u64`). This module defines, in plain integer
//! arithmetic, the operations the value layer needs on those patterns:
//! ordering, exact single-to-double widening, conversion from integers
//! (round to nearest, ties to even), double-to-single narrowing, and the
//! saturating truncation used when a double is narrowed to an integer
//! column. Each executable function is proved equal to a specification
//! function that states the computation over unbounded integers.

use vstd::prelude::*;

use vstd::arithmetic::div_mod::lemma_fundamental_div_mod;
use vstd::arithmetic::power2::{
    lemma2_to64, lemma2_to64_rest, lemma_pow2_adds, lemma_pow2_pos,
    lemma_pow2_strictly_increases, lemma_pow2_subtracts, lemma_pow2_unfold, pow2,
};

verus! {

/// `x / d` stays below `b` when `x < b * d`.
proof fn lemma_div_below(x: nat, d: nat, b: nat)
    requires
        d >= 1,
        x < b * d,
    ensures
        x / d < b,
{
    assert(x / d < b) by (nonlinear_arith)
        requires
            d >= 1,
            x < b * d,
    ;
}

/// `x / d` reaches `b` when `x >= b * d`.
proof fn lemma_div_at_least(x: nat, d: nat, b: nat)
    requires
        d >= 1,
        x >= b * d,
    ensures
        x / d >= b,
{
    assert(x / d >= b) by (nonlinear_arith)
        requires
            d >= 1,
            x >= b * d,
    ;
}

/// 2^127 in full, for overflow bounds on 128-bit powers.
proof fn lemma_pow2_127()
    ensures
        pow2(127) == 0x8000_0000_0000_0000_0000_0000_0000_0000,
{
    lemma2_to64();
    lemma2_to64_rest();
    lemma_pow2_adds(63, 64);
}

pub fn pow2_u128(k: usize) -> (r: u128)
    requires
        k < 128,
    ensures
        r == pow2(k as nat),
        r >= 1,
{
    let mut r: u128 = 1;
    let mut i: usize = 0;
    proof {
        lemma_pow2_pos(0);
        assert(pow2(0) == 1) by {
            lemma2_to64();
        }
    }
    while i < k
        invariant
            i <= k,
            k < 128,
            r == pow2(i as nat),
        decreases k - i,
    {
        proof {
            lemma_pow2_unfold((i + 1) as nat);
            if i + 1 < 127 {
                lemma_pow2_strictly_increases((i + 1) as nat, 127);
            }
            lemma_pow2_127();
        }
        r = r * 2;
        i = i + 1;
    }
    proof {
        lemma_pow2_pos(k as nat);
    }
    r
}

/// The floor of the base-two logarithm.
pub open spec fn ilog2(m: nat) -> nat
    decreases m,
{
    if m < 2 {
        0
    } else {
        1 + ilog2(m / 2)
    }
}

/// A positive value lies between the two powers around its logarithm.
pub proof fn lemma_ilog2_bounds(m: nat)
    requires
        m >= 1,
    ensures
        pow2(ilog2(m)) <= m,
        m < pow2(ilog2(m) + 1),
    decreases m,
{
    lemma2_to64();
    if m < 2 {
        assert(ilog2(m) == 0);
    } else {
        lemma_ilog2_bounds(m / 2);
        let p = ilog2(m / 2);
        lemma_pow2_unfold(p + 1);
        lemma_pow2_unfold(p + 2);
        assert(pow2(p + 1) == 2 * pow2(p));
        assert(m >= 2 * (m / 2));
        assert(m < 2 * (m / 2) + 2);
        assert(pow2(p) <= m / 2);
        assert(m / 2 + 1 <= pow2(p + 1));
        assert(2 * (m / 2) + 2 <= 2 * pow2(p + 1));
    }
}

/// A logarithm of a 128-bit value fits in seven bits.
pub proof fn lemma_ilog2_le_127(m: nat)
    requires
        1 <= m < 0x1_0000_0000_0000_0000_0000_0000_0000_0000,
    ensures
        ilog2(m) <= 127,
{
    lemma_ilog2_bounds(m);
    if ilog2(m) > 127 {
        lemma_pow2_127();
        if ilog2(m) > 128 {
            lemma_pow2_strictly_increases(128, ilog2(m));
        }
        lemma_pow2_adds(127, 1);
        lemma2_to64();
        assert(pow2(128) == pow2(127) * pow2(1));
    }
}

pub fn ilog2_u128(m: u128) -> (r: usize)
    requires
        m >= 1,
    ensures
        r == ilog2(m as nat),
        r <= 127,
{
    let mut v: u128 = m;
    let mut r: usize = 0;
    while v >= 2
        invariant
            v >= 1,
            ilog2(m as nat) == r + ilog2(v as nat),
            r <= 127,
        decreases v,
    {
        proof {
            lemma_ilog2_le_127(m as nat);
            assert(ilog2(v as nat) == 1 + ilog2((v / 2) as nat));
        }
        v = v / 2;
        r = r + 1;
        proof {
            if r > 127 {
                lemma_ilog2_le_127(m as nat);
                assert(false);
            }
        }
    }
    r
}

/// `mag / 2^sh`, rounded to the nearest integer with ties going to the even
/// quotient.
pub open spec fn rhe(mag: nat, sh: nat) -> nat
    recommends
        sh >= 1,
{
    let q = mag / pow2(sh);
    let r = mag % pow2(sh);
    let half = pow2((sh - 1) as nat);
    if r > half || (r == half && q % 2 == 1) {
        q + 1
    } else {
        q
    }
}

pub fn rhe_u128(mag: u128, sh: usize) -> (r: u128)
    requires
        1 <= sh < 128,
    ensures
        r == rhe(mag as nat, sh as nat),
        r <= mag as nat / pow2(sh as nat) + 1,
{
    let p = pow2_u128(sh);
    let half = pow2_u128(sh - 1);
    proof {
        lemma_pow2_unfold(sh as nat);
        assert((mag as nat) / (p as nat) < 0x8000_0000_0000_0000_0000_0000_0000_0000) by {
            lemma_pow2_127();
            lemma_div_below(
                mag as nat,
                p as nat,
                (0x8000_0000_0000_0000_0000_0000_0000_0000 as nat),
            );
            assert((mag as nat) < (0x8000_0000_0000_0000_0000_0000_0000_0000 as nat) * (p as nat))
                by (nonlinear_arith)
                requires
                    p as nat >= 2,
                    (mag as nat) < (0x1_0000_0000_0000_0000_0000_0000_0000_0000 as nat),
            ;
        }
    }
    let q = mag / p;
    let r = mag % p;
    if r > half || (r == half && q % 2 == 1) {
        q + 1
    } else {
        q
    }
}

/// The magnitude bits of a double pattern (sign bit cleared).
pub open spec fn f64_mag(x: u64) -> u64 {
    x % 0x8000_0000_0000_0000
}

/// The biased exponent field of a double pattern.
pub open spec fn f64_exp(x: u64) -> u64 {
    f64_mag(x) / 0x10_0000_0000_0000
}

/// The fraction field of a double pattern.
pub open spec fn f64_frac(x: u64) -> u64 {
    x % 0x10_0000_0000_0000
}

/// Whether a double pattern is a NaN.
pub open spec fn f64_is_nan(x: u64) -> bool {
    f64_exp(x) == 0x7FF && f64_frac(x) != 0
}

/// The magnitude bits of a single pattern (sign bit cleared).
pub open spec fn f32_mag(x: u32) -> u32 {
    x % 0x8000_0000
}

/// The biased exponent field of a single pattern.
pub open spec fn f32_exp(x: u32) -> u32 {
    f32_mag(x) / 0x80_0000
}

/// The fraction field of a single pattern.
pub open spec fn f32_frac(x: u32) -> u32 {
    x % 0x80_0000
}

/// IEEE-754 partial order on double patterns: NaN compares with nothing,
/// the two zeroes are equal, negatives order below positives, and within a
/// sign the magnitude bits order the values (reversed for negatives).
pub open spec fn f64_cmp(a: u64, b: u64) -> Option<core::cmp::Ordering> {
    if f64_is_nan(a) || f64_is_nan(b) {
        None
    } else {
        let na = a >= 0x8000_0000_0000_0000;
        let nb = b >= 0x8000_0000_0000_0000;
        let ma = f64_mag(a);
        let mb = f64_mag(b);
        if ma == 0 && mb == 0 {
            Some(core::cmp::Ordering::Equal)
        } else if !na && nb {
            Some(core::cmp::Ordering::Greater)
        } else if na && !nb {
            Some(core::cmp::Ordering::Less)
        } else {
            let (lo, hi) = if na {
                (mb, ma)
            } else {
                (ma, mb)
            };
            if lo < hi {
                Some(core::cmp::Ordering::Less)
            } else if lo == hi {
                Some(core::cmp::Ordering::Equal)
            } else {
                Some(core::cmp::Ordering::Greater)
            }
        }
    }
}

/// Whether two double patterns denote equal values.
pub open spec fn f64_eq(a: u64, b: u64) -> bool {
    f64_cmp(a, b) == Some(core::cmp::Ordering::Equal)
}

pub fn f64_cmp_bits(a: u64, b: u64) -> (r: Option<core::cmp::Ordering>)
    ensures
        r == f64_cmp(a, b),
{
    let ma = a % 0x8000_0000_0000_0000;
    let mb = b % 0x8000_0000_0000_0000;
    let a_nan = ma / 0x10_0000_0000_0000 == 0x7FF && a % 0x10_0000_0000_0000 != 0;
    let b_nan = mb / 0x10_0000_0000_0000 == 0x7FF && b % 0x10_0000_0000_0000 != 0;
    if a_nan || b_nan {
        None
    } else {
        let na = a >= 0x8000_0000_0000_0000;
        let nb = b >= 0x8000_0000_0000_0000;
        if ma == 0 && mb == 0 {
            Some(core::cmp::Ordering::Equal)
        } else if !na && nb {
            Some(core::cmp::Ordering::Greater)
        } else if na && !nb {
            Some(core::cmp::Ordering::Less)
        } else {
            let (lo, hi) = if na {
                (mb, ma)
            } else {
                (ma, mb)
            };
            if lo < hi {
                Some(core::cmp::Ordering::Less)
            } else if lo == hi {
                Some(core::cmp::Ordering::Equal)
            } else {
                Some(core::cmp::Ordering::Greater)
            }
        }
    }
}

/// The double pattern with the same value as a single pattern; the widening
/// is exact. A NaN maps to a NaN that keeps the fraction payload.
pub open spec fn f32_to_f64_bits(x: u32) -> u64 {
    let sbit: nat = if x >= 0x8000_0000 {
        (0x8000_0000_0000_0000 as nat)
    } else {
        0nat
    };
    let e = f32_exp(x);
    let m = f32_frac(x);
    if e == 0xFF {
        (sbit + (0x7FF0_0000_0000_0000 as nat) + (m as nat) * (0x2000_0000 as nat)) as u64
    } else if f32_mag(x) == 0 {
        sbit as u64
    } else if e == 0 {
        let p = ilog2(m as nat);
        (sbit + (p + 874) * (0x10_0000_0000_0000 as nat) + ((m as nat) * pow2((52 - p) as nat)
            - (0x10_0000_0000_0000 as nat))) as u64
    } else {
        (sbit + ((e as nat) + 896) * (0x10_0000_0000_0000 as nat) + (m as nat) * (0x2000_0000 as nat)) as u64
    }
}

pub fn f32_widen(x: u32) -> (r: u64)
    ensures
        r == f32_to_f64_bits(x),
{
    proof {
        lemma2_to64();
    }
    let sbit: u64 = if x >= 0x8000_0000 {
        0x8000_0000_0000_0000
    } else {
        0
    };
    let mag = x % 0x8000_0000;
    let e = mag / 0x80_0000;
    let m = x % 0x80_0000;
    if e == 0xFF {
        sbit + 0x7FF0_0000_0000_0000 + (m as u64) * 0x2000_0000
    } else if mag == 0 {
        sbit
    } else if e == 0 {
        proof {
            assert(m >= 1);
            lemma_ilog2_le_127(m as nat);
            lemma_ilog2_bounds(m as nat);
            if ilog2(m as nat) >= 23 {
                if ilog2(m as nat) > 23 {
                    lemma_pow2_strictly_increases(23, ilog2(m as nat));
                }
                assert(pow2(23) <= m);
                assert(false);
            }
        }
        let p = ilog2_u128(m as u128);
        let scale = pow2_u128(52 - p);
        proof {
            let pn = ilog2(m as nat);
            assert((m as nat) * pow2((52 - pn) as nat) < pow2(53)) by {
                lemma_ilog2_bounds(m as nat);
                lemma_pow2_adds(pn + 1, (52 - pn) as nat);
                assert((m as nat) * pow2((52 - pn) as nat) < pow2(pn + 1) * pow2((52 - pn) as nat))
                    by (nonlinear_arith)
                    requires
                        (m as nat) < pow2(pn + 1),
                        pow2((52 - pn) as nat) >= 1,
                ;
            }
            assert((m as nat) * pow2((52 - pn) as nat) >= pow2(52)) by {
                lemma_ilog2_bounds(m as nat);
                lemma_pow2_adds(pn, (52 - pn) as nat);
                assert((m as nat) * pow2((52 - pn) as nat) >= pow2(pn) * pow2((52 - pn) as nat))
                    by (nonlinear_arith)
                    requires
                        (m as nat) >= pow2(pn),
                        pow2((52 - pn) as nat) >= 1,
                ;
            }
            lemma2_to64_rest();
            assert(pow2(53) == 0x20_0000_0000_0000);
        }
        let full = (m as u128) * scale;
        sbit + ((p as u64) + 874) * 0x10_0000_0000_0000 + ((full as u64) - 0x10_0000_0000_0000)
    } else {
        sbit + ((e as u64) + 896) * 0x10_0000_0000_0000 + (m as u64) * 0x2000_0000
    }
}

/// After rounding to `b + 1` significand bits, the significand lies between
/// `2^b` and `2^(b+1)` (the upper end is the carry case).
proof fn lemma_rhe_range(mag: nat, p: nat, b: nat)
    requires
        mag >= 1,
        p == ilog2(mag),
        p > b,
    ensures
        pow2(b) <= rhe(mag, (p - b) as nat),
        rhe(mag, (p - b) as nat) <= pow2(b + 1),
{
    lemma_ilog2_bounds(mag);
    let sh = (p - b) as nat;
    lemma_pow2_adds(b, sh);
    lemma_pow2_adds(b + 1, sh);
    lemma_pow2_pos(sh);
    lemma_pow2_pos(b);
    lemma_div_at_least(mag, pow2(sh), pow2(b));
    lemma_div_below(mag, pow2(sh), pow2(b + 1));
}

/// The double pattern closest to `sign * mag`, for an integer magnitude;
/// rounds to nearest with ties to even. Never overflows to infinity, since
/// every 128-bit magnitude is far below the double range.
pub open spec fn spec_mag_to_f64_bits(sign: bool, mag: nat) -> u64 {
    let sbit: nat = if sign {
        (0x8000_0000_0000_0000 as nat)
    } else {
        0
    };
    if mag == 0 {
        sbit as u64
    } else {
        let p = ilog2(mag);
        let m0 = if p <= 52 {
            mag * pow2((52 - p) as nat)
        } else {
            rhe(mag, (p - 52) as nat)
        };
        let (m1, p1): (nat, nat) = if m0 == pow2(53) {
            (pow2(52), p + 1)
        } else {
            (m0, p)
        };
        (sbit + (p1 + 1023) * 0x10_0000_0000_0000 + (m1 - 0x10_0000_0000_0000)) as u64
    }
}

pub fn mag_to_f64_bits(sign: bool, mag: u128) -> (r: u64)
    ensures
        r == spec_mag_to_f64_bits(sign, mag as nat),
{
    proof {
        lemma2_to64();
        lemma2_to64_rest();
    }
    let sbit: u64 = if sign {
        0x8000_0000_0000_0000
    } else {
        0
    };
    if mag == 0 {
        sbit
    } else {
        let p = ilog2_u128(mag);
        let m0: u128;
        if p <= 52 {
            let scale = pow2_u128(52 - p);
            proof {
                lemma_ilog2_bounds(mag as nat);
                lemma_pow2_adds((p + 1) as nat, (52 - p) as nat);
                lemma_pow2_adds(p as nat, (52 - p) as nat);
                assert((mag as nat) * pow2((52 - p) as nat) < pow2(53)) by (nonlinear_arith)
                    requires
                        (mag as nat) < pow2((p + 1) as nat),
                        pow2((p + 1) as nat) * pow2((52 - p) as nat) == pow2(53),
                        pow2((52 - p) as nat) >= 1,
                ;
                assert((mag as nat) * pow2((52 - p) as nat) >= pow2(52)) by (nonlinear_arith)
                    requires
                        (mag as nat) >= pow2(p as nat),
                        pow2(p as nat) * pow2((52 - p) as nat) == pow2(52),
                ;
            }
            m0 = mag * scale;
        } else {
            m0 = rhe_u128(mag, p - 52);
            proof {
                lemma_rhe_range(mag as nat, p as nat, 52);
            }
        }
        let (m1, p1): (u128, usize) = if m0 == 0x20_0000_0000_0000 {
            (0x10_0000_0000_0000, p + 1)
        } else {
            (m0, p)
        };
        sbit + ((p1 as u64) + 1023) * 0x10_0000_0000_0000 + ((m1 as u64) - 0x10_0000_0000_0000)
    }
}

/// The single pattern closest to `sign * mag`, for an integer magnitude;
/// rounds to nearest with ties to even, overflowing to infinity.
pub open spec fn spec_mag_to_f32_bits(sign: bool, mag: nat) -> u32 {
    let sbit: nat = if sign {
        (0x8000_0000 as nat)
    } else {
        0
    };
    if mag == 0 {
        sbit as u32
    } else {
        let p = ilog2(mag);
        let m0 = if p <= 23 {
            mag * pow2((23 - p) as nat)
        } else {
            rhe(mag, (p - 23) as nat)
        };
        let (m1, p1): (nat, nat) = if m0 == pow2(24) {
            (pow2(23), p + 1)
        } else {
            (m0, p)
        };
        if p1 + 127 >= 255 {
            (sbit + 0x7F80_0000) as u32
        } else {
            (sbit + (p1 + 127) * 0x80_0000 + (m1 - 0x80_0000)) as u32
        }
    }
}

pub fn mag_to_f32_bits(sign: bool, mag: u128) -> (r: u32)
    ensures
        r == spec_mag_to_f32_bits(sign, mag as nat),
{
    proof {
        lemma2_to64();
        lemma2_to64_rest();
    }
    let sbit: u32 = if sign {
        0x8000_0000
    } else {
        0
    };
    if mag == 0 {
        sbit
    } else {
        let p = ilog2_u128(mag);
        let m0: u128;
        if p <= 23 {
            let scale = pow2_u128(23 - p);
            proof {
                lemma_ilog2_bounds(mag as nat);
                lemma_pow2_adds((p + 1) as nat, (23 - p) as nat);
                lemma_pow2_adds(p as nat, (23 - p) as nat);
                assert((mag as nat) * pow2((23 - p) as nat) < pow2(24)) by (nonlinear_arith)
                    requires
                        (mag as nat) < pow2((p + 1) as nat),
                        pow2((p + 1) as nat) * pow2((23 - p) as nat) == pow2(24),
                        pow2((23 - p) as nat) >= 1,
                ;
                assert((mag as nat) * pow2((23 - p) as nat) >= pow2(23)) by (nonlinear_arith)
                    requires
                        (mag as nat) >= pow2(p as nat),
                        pow2(p as nat) * pow2((23 - p) as nat) == pow2(23),
                ;
            }
            m0 = mag * scale;
        } else {
            m0 = rhe_u128(mag, p - 23);
            proof {
                lemma_rhe_range(mag as nat, p as nat, 23);
            }
        }
        let (m1, p1): (u128, usize) = if m0 == 0x100_0000 {
            (0x80_0000, p + 1)
        } else {
            (m0, p)
        };
        if p1 + 127 >= 255 {
            sbit + 0x7F80_0000
        } else {
            sbit + ((p1 as u32) + 127) * 0x80_0000 + ((m1 as u32) - 0x80_0000)
        }
    }
}

/// The magnitude of a signed 64-bit value.
pub open spec fn i64_abs(x: i64) -> nat {
    if x >= 0 {
        x as nat
    } else {
        (-(x as int)) as nat
    }
}

/// The double pattern nearest to a signed 64-bit integer.
pub open spec fn spec_i64_to_f64_bits(x: i64) -> u64 {
    spec_mag_to_f64_bits(x < 0, i64_abs(x))
}

pub fn i64_to_f64_bits(x: i64) -> (r: u64)
    ensures
        r == spec_i64_to_f64_bits(x),
{
    let mag: u128 = if x >= 0 {
        x as u128
    } else {
        (-(x as i128)) as u128
    };
    mag_to_f64_bits(x < 0, mag)
}

/// The single pattern nearest to a signed 64-bit integer.
pub open spec fn spec_i64_to_f32_bits(x: i64) -> u32 {
    spec_mag_to_f32_bits(x < 0, i64_abs(x))
}

pub fn i64_to_f32_bits(x: i64) -> (r: u32)
    ensures
        r == spec_i64_to_f32_bits(x),
{
    let mag: u128 = if x >= 0 {
        x as u128
    } else {
        (-(x as i128)) as u128
    };
    mag_to_f32_bits(x < 0, mag)
}

/// The saturating truncation of a double pattern to a signed 64-bit
/// integer: the fractional part is discarded, values beyond the range clamp
/// to the nearest bound, and a NaN becomes zero.
pub open spec fn spec_f64_to_i64_sat(x: u64) -> i64 {
    let neg = x >= 0x8000_0000_0000_0000;
    let e = f64_exp(x);
    let m = f64_frac(x);
    if e == 0x7FF {
        if m != 0 {
            0
        } else if neg {
            i64::MIN
        } else {
            i64::MAX
        }
    } else {
        let full: nat = if e == 0 {
            m as nat
        } else {
            m as nat + 0x10_0000_0000_0000
        };
        let t: nat = if e >= 1087 {
            pow2(63)
        } else if e >= 1075 {
            full * pow2((e - 1075) as nat)
        } else if e + 53 <= 1075 {
            0
        } else {
            full / pow2((1075 - e) as nat)
        };
        if neg {
            if t >= pow2(63) {
                i64::MIN
            } else {
                (-(t as int)) as i64
            }
        } else {
            if t >= pow2(63) {
                i64::MAX
            } else {
                t as i64
            }
        }
    }
}

pub fn f64_to_i64_sat(x: u64) -> (r: i64)
    ensures
        r == spec_f64_to_i64_sat(x),
{
    proof {
        lemma2_to64();
        lemma2_to64_rest();
    }
    let mag = x % 0x8000_0000_0000_0000;
    let neg = x >= 0x8000_0000_0000_0000;
    let e = mag / 0x10_0000_0000_0000;
    let m = x % 0x10_0000_0000_0000;
    if e == 0x7FF {
        if m != 0 {
            0
        } else if neg {
            i64::MIN
        } else {
            i64::MAX
        }
    } else {
        let full: u128 = if e == 0 {
            m as u128
        } else {
            m as u128 + 0x10_0000_0000_0000
        };
        let t: u128 = if e >= 1087 {
            0x8000_0000_0000_0000
        } else if e >= 1075 {
            let scale = pow2_u128((e - 1075) as usize);
            proof {
                if ((e - 1075) as nat) < 11 {
                    lemma_pow2_strictly_increases((e - 1075) as nat, 11);
                }
                lemma_pow2_adds(53, 11);
                assert((full as nat) * (scale as nat) < pow2(64)) by (nonlinear_arith)
                    requires
                        (full as nat) < pow2(53),
                        (scale as nat) <= pow2(11),
                        pow2(53) * pow2(11) == pow2(64),
                        pow2(11) >= 1,
                ;
            }
            full * scale
        } else if e + 53 <= 1075 {
            0
        } else {
            let scale = pow2_u128((1075 - e) as usize);
            full / scale
        };
        if neg {
            if t >= 0x8000_0000_0000_0000 {
                i64::MIN
            } else {
                -(t as i64)
            }
        } else {
            if t >= 0x8000_0000_0000_0000 {
                i64::MAX
            } else {
                t as i64
            }
        }
    }
}

/// The single pattern given by narrowing a double pattern, with round to
/// nearest (ties to even), gradual underflow into subnormals, overflow to
/// infinity, and NaN mapped to a canonical quiet NaN of the same sign.
pub open spec fn spec_f64_to_f32_bits(x: u64) -> u32 {
    let sbit: nat = if x >= 0x8000_0000_0000_0000 {
        (0x8000_0000 as nat)
    } else {
        0
    };
    let mag = f64_mag(x);
    let e = f64_exp(x);
    let m = f64_frac(x);
    if e == 0x7FF {
        if m != 0 {
            (sbit + 0x7FC0_0000) as u32
        } else {
            (sbit + 0x7F80_0000) as u32
        }
    } else if mag == 0 {
        sbit as u32
    } else {
        let full: nat = if e == 0 {
            m as nat
        } else {
            m as nat + 0x10_0000_0000_0000
        };
        let ee: int = if e == 0 {
            -1074
        } else {
            e - 1075
        };
        let p = ilog2(full);
        let xx: int = ee + p;
        if xx >= -126 {
            let m24 = if p <= 23 {
                full * pow2((23 - p) as nat)
            } else {
                rhe(full, (p - 23) as nat)
            };
            let magbits: int = (xx + 126) * 0x80_0000 + m24;
            if magbits >= 0x7F80_0000 {
                (sbit + 0x7F80_0000) as u32
            } else {
                (sbit + magbits) as u32
            }
        } else {
            let k: nat = if ee + 149 >= 0 {
                full * pow2((ee + 149) as nat)
            } else if -(ee + 149) >= 54 {
                0
            } else {
                rhe(full, (-(ee + 149)) as nat)
            };
            (sbit + k) as u32
        }
    }
}

pub fn f64_to_f32_bits(x: u64) -> (r: u32)
    ensures
        r == spec_f64_to_f32_bits(x),
{
    proof {
        lemma2_to64();
        lemma2_to64_rest();
    }
    let sbit: u32 = if x >= 0x8000_0000_0000_0000 {
        0x8000_0000
    } else {
        0
    };
    let mag = x % 0x8000_0000_0000_0000;
    let e = mag / 0x10_0000_0000_0000;
    let m = x % 0x10_0000_0000_0000;
    if e == 0x7FF {
        if m != 0 {
            sbit + 0x7FC0_0000
        } else {
            sbit + 0x7F80_0000
        }
    } else if mag == 0 {
        sbit
    } else {
        let full: u128 = if e == 0 {
            m as u128
        } else {
            m as u128 + 0x10_0000_0000_0000
        };
        let ee: i64 = if e == 0 {
            -1074
        } else {
            (e as i64) - 1075
        };
        let p = ilog2_u128(full);
        proof {
            lemma_ilog2_bounds(full as nat);
            if ilog2(full as nat) >= 53 {
                if ilog2(full as nat) > 53 {
                    lemma_pow2_strictly_increases(53, ilog2(full as nat));
                }
                assert(pow2(53) <= full);
                assert(false);
            }
        }
        let xx: i64 = ee + (p as i64);
        if xx >= -126 {
            let m24: u128;
            if p <= 23 {
                let scale = pow2_u128(23 - p);
                proof {
                    lemma_pow2_adds((p + 1) as nat, (23 - p) as nat);
                    lemma_pow2_adds(p as nat, (23 - p) as nat);
                    assert((full as nat) * pow2((23 - p) as nat) < pow2(24)) by (nonlinear_arith)
                        requires
                            (full as nat) < pow2((p + 1) as nat),
                            pow2((p + 1) as nat) * pow2((23 - p) as nat) == pow2(24),
                            pow2((23 - p) as nat) >= 1,
                    ;
                    assert((full as nat) * pow2((23 - p) as nat) >= pow2(23)) by (nonlinear_arith)
                        requires
                            (full as nat) >= pow2(p as nat),
                            pow2(p as nat) * pow2((23 - p) as nat) == pow2(23),
                    ;
                }
                m24 = full * scale;
            } else {
                m24 = rhe_u128(full, p - 23);
                proof {
                    lemma_rhe_range(full as nat, p as nat, 23);
                }
            }
            let magbits: u64 = (((xx + 126) as u64)) * 0x80_0000 + (m24 as u64);
            if magbits >= 0x7F80_0000 {
                sbit + 0x7F80_0000
            } else {
                sbit + (magbits as u32)
            }
        } else {
            let k: u128;
            if ee + 149 >= 0 {
                let scale = pow2_u128((ee + 149) as usize);
                proof {
                    lemma_pow2_adds((p + 1) as nat, (ee + 149) as nat);
                    assert((full as nat) * pow2((ee + 149) as nat) < pow2(
                        ((p + 1) + (ee + 149)) as nat,
                    )) by (nonlinear_arith)
                        requires
                            (full as nat) < pow2((p + 1) as nat),
                            pow2((p + 1) as nat) * pow2((ee + 149) as nat) == pow2(
                                ((p + 1) + (ee + 149)) as nat,
                            ),
                            pow2((ee + 149) as nat) >= 1,
                    ;
                    if (((p + 1) + (ee + 149)) as nat) <= 23 {
                        if (((p + 1) + (ee + 149)) as nat) < 23 {
                            lemma_pow2_strictly_increases(((p + 1) + (ee + 149)) as nat, 23);
                        }
                    }
                }
                k = full * scale;
            } else if -(ee + 149) >= 54 {
                k = 0;
            } else {
                k = rhe_u128(full, (-(ee + 149)) as usize);
                proof {
                    let sh = (-(ee + 149)) as nat;
                    lemma_pow2_pos(sh);
                    assert((full as nat) / pow2(sh) < pow2(23)) by {
                        lemma_pow2_adds(23, sh);
                        assert((full as nat) < pow2(23) * pow2(sh)) by {
                            lemma_ilog2_bounds(full as nat);
                            if ((p + 1) as nat) <= 23 + sh {
                                if (((p + 1) as nat)) < 23 + sh {
                                    lemma_pow2_strictly_increases((p + 1) as nat, 23 + sh);
                                }
                            }
                        }
                        lemma_div_below(full as nat, pow2(sh), pow2(23));
                    }
                }
            }
            sbit + (k as u32)
        }
    }
}

/// The pattern with a negative zero flipped to the positive zero; used so
/// that hashing agrees with value equality.
pub open spec fn f64_canon(x: u64) -> u64 {
    if f64_mag(x) == 0 {
        0
    } else {
        x
    }
}

pub fn f64_canon_bits(x: u64) -> (r: u64)
    ensures
        r == f64_canon(x),
{
    if x % 0x8000_0000_0000_0000 == 0 {
        0
    } else {
        x
    }
}


/// Double patterns that compare equal have the same canonical pattern:
/// either both are zeroes, or they are bit-identical.
pub proof fn lemma_f64_cmp_equal_canon(x: u64, y: u64)
    requires
        f64_cmp(x, y) == Some(core::cmp::Ordering::Equal),
    ensures
        f64_canon(x) == f64_canon(y),
{
    if f64_mag(x) == 0 && f64_mag(y) == 0 {
    } else {
        let sx = x / 0x8000_0000_0000_0000;
        let sy = y / 0x8000_0000_0000_0000;
        assert(x == sx * 0x8000_0000_0000_0000 + f64_mag(x));
        assert(y == sy * 0x8000_0000_0000_0000 + f64_mag(y));
        assert(sx == sy);
        assert(f64_mag(x) == f64_mag(y));
    }
}

} // verus!
