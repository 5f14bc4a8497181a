//! Saturating fixed-point arithmetic in thousandths of a pixel.
//!
//! Positions, velocities and accelerations carry milli-pixels in `i64`.
//! Every operation is total: products are taken in 128-bit arithmetic,
//! divisions truncate toward zero, and results saturate at the type
//! bounds, so physics never panics and never wraps.

use vstd::prelude::*;

verus! {

/// Milli-pixels per pixel.
pub const MILLI: i64 = 1000;

/// Clamps a mathematical integer into the `i64` range.
pub open spec fn sat_i64(v: int) -> int {
    if v > i64::MAX {
        i64::MAX as int
    } else if v < i64::MIN {
        i64::MIN as int
    } else {
        v
    }
}

/// Clamps a mathematical integer into the `i32` range.
pub open spec fn sat_i32(v: int) -> int {
    if v > i32::MAX {
        i32::MAX as int
    } else if v < i32::MIN {
        i32::MIN as int
    } else {
        v
    }
}

/// Division by the milli-pixel scale, truncating toward zero as a cast
/// from a float would.
pub open spec fn div_milli_trunc(v: int) -> int {
    if v >= 0 {
        v / (MILLI as int)
    } else {
        -((-v) / (MILLI as int))
    }
}

/// The whole pixel a milli-pixel coordinate lies on, saturated into
/// `i32` like a float-to-int cast.
pub open spec fn px_of_milli(v: int) -> int {
    sat_i32(div_milli_trunc(v))
}

/// A velocity integrated over a time span: `v * dt` milliseconds,
/// scaled from per-second to the span, truncated toward zero and
/// saturated.
pub open spec fn scaled_step(v: int, dt: int) -> int {
    sat_i64(div_milli_trunc(v * dt))
}

/// Saturating `i64` addition.
pub fn sat_add_i64(a: i64, b: i64) -> (r: i64)
    ensures
        r as int == sat_i64(a + b),
{
    let s: i128 = (a as i128) + (b as i128);
    if s > i64::MAX as i128 {
        i64::MAX
    } else if s < i64::MIN as i128 {
        i64::MIN
    } else {
        s as i64
    }
}

/// `v * dt / 1000`, truncated toward zero and saturated: the milli-pixel
/// distance a per-second rate `v` covers in `dt` milliseconds.
pub fn scale_by_dt(v: i64, dt: u64) -> (r: i64)
    ensures
        r as int == scaled_step(v as int, dt as int),
{
    proof {
        assert(-0x7fffffffffffffffffffffffffffffff <= (v as int) * (dt as int)
            <= 0x7fffffffffffffffffffffffffffffff) by (nonlinear_arith)
            requires
                -0x8000000000000000 <= v as int <= 0x7fffffffffffffff,
                0 <= dt as int <= 0xffffffffffffffff,
        ;
    }
    let p: i128 = (v as i128) * (dt as i128);
    let neg = p < 0;
    let mag: u128 = if neg {
        (-p) as u128
    } else {
        p as u128
    };
    let q: u128 = mag / (MILLI as u128);
    proof {
        if neg {
            assert(div_milli_trunc(v as int * dt as int) == -(q as int));
        } else {
            assert(div_milli_trunc(v as int * dt as int) == q as int);
        }
    }
    if neg {
        if q >= 9223372036854775808u128 {
            i64::MIN
        } else {
            -((q as i64))
        }
    } else {
        if q > i64::MAX as u128 {
            i64::MAX
        } else {
            q as i64
        }
    }
}

/// The whole pixel a milli-pixel coordinate lies on, truncated toward
/// zero and saturated into `i32`.
pub fn px_of(v: i64) -> (r: i32)
    ensures
        r as int == px_of_milli(v as int),
{
    let neg = v < 0;
    let mag: u64 = if neg {
        if v == i64::MIN {
            9223372036854775808u64
        } else {
            (-v) as u64
        }
    } else {
        v as u64
    };
    let q: u64 = mag / (MILLI as u64);
    proof {
        if neg {
            assert(div_milli_trunc(v as int) == -(q as int));
        } else {
            assert(div_milli_trunc(v as int) == q as int);
        }
    }
    if neg {
        if q >= 2147483648u64 {
            i32::MIN
        } else {
            -((q as i32))
        }
    } else {
        if q > i32::MAX as u64 {
            i32::MAX
        } else {
            q as i32
        }
    }
}

/// Saturating `i64` multiplication.
pub fn sat_mul_i64(a: i64, b: i64) -> (r: i64)
    ensures
        r as int == sat_i64(a * b),
{
    proof {
        assert(-0x40000000000000000000000000000000 <= (a as int) * (b as int)
            <= 0x40000000000000000000000000000000) by (nonlinear_arith)
            requires
                -0x8000000000000000 <= (a as int) <= 0x7fffffffffffffff,
                -0x8000000000000000 <= (b as int) <= 0x7fffffffffffffff,
        ;
    }
    let p: i128 = (a as i128) * (b as i128);
    if p > i64::MAX as i128 {
        i64::MAX
    } else if p < i64::MIN as i128 {
        i64::MIN
    } else {
        p as i64
    }
}

/// Saturating multiplication of a signed rate by a time span.
pub fn sat_mul_dt(v: i64, dt: u64) -> (r: i64)
    ensures
        r as int == sat_i64((v as int) * (dt as int)),
{
    proof {
        assert(-0x7fffffffffffffffffffffffffffffff <= (v as int) * (dt as int)
            <= 0x7fffffffffffffffffffffffffffffff) by (nonlinear_arith)
            requires
                -0x8000000000000000 <= (v as int) <= 0x7fffffffffffffff,
                0 <= (dt as int) <= 0xffffffffffffffff,
        ;
    }
    let p: i128 = (v as i128) * (dt as i128);
    if p > i64::MAX as i128 {
        i64::MAX
    } else if p < i64::MIN as i128 {
        i64::MIN
    } else {
        p as i64
    }
}

/// A whole pixel count taken into milli-pixels, saturated.
pub open spec fn milli_of_px(v: int) -> int {
    sat_i64(v * (MILLI as int))
}

/// Multiplies a pixel count by the milli-pixel scale, saturating.
pub fn to_milli(v: i64) -> (r: i64)
    ensures
        r as int == milli_of_px(v as int),
{
    proof {
        assert(-0x7fffffffffffffffffffffffffffffff <= (v as int) * (MILLI as int)
            <= 0x7fffffffffffffffffffffffffffffff) by (nonlinear_arith)
            requires
                -0x8000000000000000 <= v as int <= 0x7fffffffffffffff,
        ;
    }
    let p: i128 = (v as i128) * (MILLI as i128);
    if p > i64::MAX as i128 {
        i64::MAX
    } else if p < i64::MIN as i128 {
        i64::MIN
    } else {
        p as i64
    }
}

} // verus!
