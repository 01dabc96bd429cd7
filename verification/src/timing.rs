//! Timebases and timestamp arithmetic.
//!
//! A stream timebase is a positive rational number of seconds per tick.
//! Durations configured in milliseconds are converted once into ticks by
//! integer floor division, and packet timestamps are rescaled between
//! timebases with half-away-from-zero rounding.

use vstd::prelude::*;

verus! {

/// A positive rational: one timestamp tick lasts `num / den` seconds.
#[derive(Clone, Copy, Debug, PartialEq, Eq, Structural)]
pub struct Rational {
    pub num: i32,
    pub den: i32,
}

impl Rational {
    /// A timebase is meaningful only when both parts are positive.
    pub open spec fn wf(self) -> bool {
        self.num >= 1 && self.den >= 1
    }
}

/// Rounded division `a / b` for `b >= 1`, rounding halves away from zero.
pub open spec fn div_round_half_away(a: int, b: int) -> int
    recommends
        b >= 1,
{
    if a >= 0 {
        if 2 * (a % b) >= b {
            a / b + 1
        } else {
            a / b
        }
    } else {
        if 2 * ((-a) % b) >= b {
            -((-a) / b + 1)
        } else {
            -((-a) / b)
        }
    }
}

/// A tick count `x` of timebase `src`, expressed in timebase `dst`:
/// `round(x * src.num * dst.den / (src.den * dst.num))`, halves away
/// from zero.
pub open spec fn rescale_spec(x: int, src: Rational, dst: Rational) -> int
    recommends
        src.wf(),
        dst.wf(),
{
    div_round_half_away(x * src.num * dst.den, (src.den as int) * (dst.num as int))
}

/// A duration of `duration_ms` milliseconds, as a floor number of ticks of
/// timebase `tb`: `(duration_ms * tb.den) / (1000 * tb.num)`.
pub open spec fn duration_ticks_spec(duration_ms: u64, tb: Rational) -> int
    recommends
        tb.wf(),
{
    (duration_ms * tb.den) / (1000 * tb.num)
}

/// Convert a configured chunk duration to ticks of the stream timebase.
pub fn duration_to_ticks(duration_ms: u64, tb: Rational) -> (r: i64)
    requires
        tb.wf(),
        duration_ticks_spec(duration_ms, tb) <= i64::MAX,
    ensures
        r == duration_ticks_spec(duration_ms, tb),
        r >= 0,
{
    proof {
        assert((duration_ms as int) * (tb.den as int) <= (u64::MAX as int) * (i32::MAX as int))
            by (nonlinear_arith)
            requires
                duration_ms <= u64::MAX,
                0 <= tb.den <= i32::MAX,
        ;
    }
    let a: u128 = (duration_ms as u128) * (tb.den as u128);
    let b: u128 = 1000u128 * (tb.num as u128);
    let q: u128 = a / b;
    proof {
        assert(a == duration_ms * tb.den);
        assert(b == 1000 * tb.num);
        assert(q == duration_ticks_spec(duration_ms, tb));
    }
    q as i64
}

/// A timestamp `x` can be carried from `src` to `dst`: it is not the unset
/// sentinel (`i64::MIN`), and the rescaled value still fits, away from the
/// sentinel, in a signed 64-bit tick count.
pub open spec fn ts_rescalable(x: i64, src: Rational, dst: Rational) -> bool {
    &&& x > i64::MIN
    &&& i64::MIN < rescale_spec(x as int, src, dst) <= i64::MAX
}

/// Magnitude of the rescaled value of a non-negative tick count `mag`.
fn rescale_mag(mag: u64, src: Rational, dst: Rational) -> (r: u128)
    requires
        src.wf(),
        dst.wf(),
    ensures
        r == div_round_half_away((mag as int) * src.num * dst.den, (src.den as int) * (dst.num as int)),
{
    proof {
        assert((mag as int) * (src.num as int) <= (u64::MAX as int) * (i32::MAX as int))
            by (nonlinear_arith)
            requires
                mag <= u64::MAX,
                0 <= src.num <= i32::MAX,
        ;
        assert((src.den as int) * (dst.num as int) >= 1) by (nonlinear_arith)
            requires
                src.den >= 1,
                dst.num >= 1,
        ;
        assert((src.den as int) * (dst.num as int) <= (i32::MAX as int) * (i32::MAX as int))
            by (nonlinear_arith)
            requires
                1 <= src.den <= i32::MAX,
                1 <= dst.num <= i32::MAX,
        ;
    }
    let a1: u128 = (mag as u128) * (src.num as u128);
    proof {
        assert((a1 as int) * (dst.den as int)
            <= ((u64::MAX as int) * (i32::MAX as int)) * (i32::MAX as int)) by (nonlinear_arith)
            requires
                0 <= a1 <= (u64::MAX as int) * (i32::MAX as int),
                0 <= dst.den <= i32::MAX,
        ;
        assert((a1 as int) * (dst.den as int) == (mag as int) * (src.num as int) * (dst.den as int));
    }
    let a: u128 = a1 * (dst.den as u128);
    let b: u128 = (src.den as u128) * (dst.num as u128);
    let q: u128 = a / b;
    let rem: u128 = a % b;
    if 2 * rem >= b {
        q + 1
    } else {
        q
    }
}

/// Rescale one tick count from timebase `src` to timebase `dst`, rounding
/// halves away from zero.
pub fn rescale_ts(x: i64, src: Rational, dst: Rational) -> (r: i64)
    requires
        src.wf(),
        dst.wf(),
        ts_rescalable(x, src, dst),
    ensures
        r == rescale_spec(x as int, src, dst),
{
    if x >= 0 {
        let m: u128 = rescale_mag(x as u64, src, dst);
        proof {
            assert(m == rescale_spec(x as int, src, dst));
        }
        m as i64
    } else {
        let neg: u64 = (-x) as u64;
        let m: u128 = rescale_mag(neg, src, dst);
        proof {
            assert((x as int) * src.num * dst.den < 0 && (neg as int) * src.num * dst.den == -((x
                as int) * src.num * dst.den)) by (nonlinear_arith)
                requires
                    x < 0,
                    src.num >= 1,
                    dst.den >= 1,
                    (neg as int) == -(x as int),
            ;
            assert(m == -rescale_spec(x as int, src, dst));
        }
        -(m as i64)
    }
}

/// Decide `ts_rescalable` for a concrete timestamp, so that a caller can
/// test the bound before asking for the rescaled value.
pub fn ts_rescalable_check(x: i64, src: Rational, dst: Rational) -> (b: bool)
    requires
        src.wf(),
        dst.wf(),
    ensures
        b == ts_rescalable(x, src, dst),
{
    if x == i64::MIN {
        return false;
    }
    if x >= 0 {
        let m: u128 = rescale_mag(x as u64, src, dst);
        proof {
            assert(m == rescale_spec(x as int, src, dst));
        }
        m <= i64::MAX as u128
    } else {
        let neg: u64 = (-x) as u64;
        let m: u128 = rescale_mag(neg, src, dst);
        proof {
            assert((x as int) * src.num * dst.den < 0 && (neg as int) * src.num * dst.den == -((x
                as int) * src.num * dst.den)) by (nonlinear_arith)
                requires
                    x < 0,
                    src.num >= 1,
                    dst.den >= 1,
                    (neg as int) == -(x as int),
            ;
            assert(m == -rescale_spec(x as int, src, dst));
        }
        m <= i64::MAX as u128
    }
}

/// Rescaling between a timebase and itself changes no timestamp.
pub proof fn lemma_rescale_identity(x: int, tb: Rational)
    requires
        tb.wf(),
    ensures
        rescale_spec(x, tb, tb) == x,
{
    let b: int = (tb.den as int) * (tb.num as int);
    assert(b >= 1 && x * tb.num * tb.den == b * x && -(x * tb.num * tb.den) == b * (-x))
        by (nonlinear_arith)
        requires
            tb.den >= 1,
            tb.num >= 1,
            b == (tb.den as int) * (tb.num as int),
    ;
    if x >= 0 {
        vstd::arithmetic::div_mod::lemma_div_multiples_vanish(x, b);
        vstd::arithmetic::div_mod::lemma_mod_multiples_basic(x, b);
        assert(x * b == b * x) by (nonlinear_arith);
        assert(2 * ((b * x) % b) < b);
    } else {
        vstd::arithmetic::div_mod::lemma_div_multiples_vanish(-x, b);
        vstd::arithmetic::div_mod::lemma_mod_multiples_basic(-x, b);
        assert((-x) * b == b * (-x)) by (nonlinear_arith);
        assert(2 * ((b * (-x)) % b) < b);
    }
}

} // verus!
