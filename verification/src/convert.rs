//! Signal conversion: a two-point linear calibration maps a raw sensor
//! reading to a temperature.
//!
//! Temperatures are carried in tenths of a degree, the precision the wire
//! format prints; the conversion rounds the exact linear value to the
//! nearest tenth (halves rounding up).

use vstd::prelude::*;
use vstd::arithmetic::div_mod::{
    lemma_div_is_ordered, lemma_div_multiples_vanish_fancy, lemma_fundamental_div_mod,
    lemma_fundamental_div_mod_converse_div,
};
use vstd::arithmetic::mul::{lemma_mul_inequality, lemma_mul_strict_inequality};

verus! {

/// Largest magnitude a calibration reference reading or a sampled raw
/// reading may have.
pub const MAX_REF_RAW: i64 = 1_000_000_000;

/// Largest magnitude (in tenths of a degree) a calibration reference
/// temperature may have.
pub const MAX_REF_TEMP_TENTHS: i64 = 1_000_000;

/// Largest magnitude a converted temperature (in tenths of a degree) can
/// reach over well-formed curves and in-range readings.
pub const MAX_TEMP_TENTHS: i64 = 4_100_000_000_000_000;

/// Two reference points defining an affine map from the raw reading domain
/// to temperature.  `raw_a` reads as `temp_a_tenths` and `raw_b` as
/// `temp_b_tenths`; every other reading is interpolated linearly.
pub struct CalibrationCurve {
    pub raw_a: i64,
    pub temp_a_tenths: i64,
    pub raw_b: i64,
    pub temp_b_tenths: i64,
}

impl CalibrationCurve {
    /// Well-formed: the two reference abscissae are distinct (the slope
    /// denominator is non-zero) and all four coordinates are small enough
    /// that the conversion arithmetic stays exact.
    pub open spec fn wf(self) -> bool {
        &&& self.raw_a != self.raw_b
        &&& -MAX_REF_RAW <= self.raw_a <= MAX_REF_RAW
        &&& -MAX_REF_RAW <= self.raw_b <= MAX_REF_RAW
        &&& -MAX_REF_TEMP_TENTHS <= self.temp_a_tenths <= MAX_REF_TEMP_TENTHS
        &&& -MAX_REF_TEMP_TENTHS <= self.temp_b_tenths <= MAX_REF_TEMP_TENTHS
    }

    /// Checks well-formedness of the coordinates at run time.
    pub fn check_wf(&self) -> (r: bool)
        ensures
            r == self.wf(),
    {
        self.raw_a != self.raw_b
            && -MAX_REF_RAW <= self.raw_a && self.raw_a <= MAX_REF_RAW
            && -MAX_REF_RAW <= self.raw_b && self.raw_b <= MAX_REF_RAW
            && -MAX_REF_TEMP_TENTHS <= self.temp_a_tenths
            && self.temp_a_tenths <= MAX_REF_TEMP_TENTHS
            && -MAX_REF_TEMP_TENTHS <= self.temp_b_tenths
            && self.temp_b_tenths <= MAX_REF_TEMP_TENTHS
    }
}

/// A raw reading the converter accepts.
pub open spec fn raw_in_range(raw: int) -> bool {
    -MAX_REF_RAW <= raw <= MAX_REF_RAW
}

/// `n / d` rounded to the nearest integer, halves towards positive
/// infinity; `d` must be positive.
pub open spec fn round_div(n: int, d: int) -> int
    recommends
        d > 0,
{
    (2 * n + d) / (2 * d)
}

/// The temperature (in tenths of a degree) that a curve assigns to a raw
/// reading: the exact linear interpolation through the two reference
/// points, rounded to the nearest tenth.
pub open spec fn convert_spec(c: CalibrationCurve, raw: int) -> int
    recommends
        c.wf(),
{
    let dt = c.temp_b_tenths - c.temp_a_tenths;
    if c.raw_b - c.raw_a > 0 {
        c.temp_a_tenths + round_div((raw - c.raw_a) * dt, c.raw_b - c.raw_a)
    } else {
        c.temp_a_tenths + round_div((c.raw_a - raw) * dt, c.raw_a - c.raw_b)
    }
}

/// Rounded division on machine integers, matching `round_div`.
fn round_div_pos(n: i64, d: i64) -> (q: i64)
    requires
        1 <= d <= 2 * MAX_REF_RAW,
        -2 * MAX_REF_RAW * MAX_REF_TEMP_TENTHS * 2 <= n <= 2 * MAX_REF_RAW * MAX_REF_TEMP_TENTHS * 2,
    ensures
        q == round_div(n as int, d as int),
        n >= 0 ==> 0 <= q <= n,
        n < 0 ==> n <= q <= 0,
{
    if n >= 0 {
        let num: u64 = 2 * (n as u64) + (d as u64);
        let q64: u64 = num / (2 * (d as u64));
        proof {
            assert(2 * (n as int) + d <= (2 * d) * n + (2 * d - 1)) by (nonlinear_arith)
                requires
                    n >= 0,
                    d >= 1,
            ;
            lemma_div_is_ordered(2 * (n as int) + d, (2 * d) * n + (2 * d - 1), 2 * (d as int));
            lemma_div_multiples_vanish_fancy(n as int, 2 * (d as int) - 1, 2 * (d as int));
        }
        q64 as i64
    } else {
        let m: u64 = (-n) as u64;
        let num: u64 = 2 * m + (d as u64) - 1;
        let q64: u64 = num / (2 * (d as u64));
        proof {
            let mm = m as int;
            let dd = d as int;
            let t = (2 * mm + dd - 1) / (2 * dd);
            let r = (2 * mm + dd - 1) % (2 * dd);
            lemma_fundamental_div_mod(2 * mm + dd - 1, 2 * dd);
            assert(2 * (n as int) + dd == (-t) * (2 * dd) + (2 * dd - 1 - r)) by (nonlinear_arith)
                requires
                    n == -mm,
                    2 * mm + dd - 1 == (2 * dd) * t + r,
            ;
            lemma_fundamental_div_mod_converse_div(
                2 * (n as int) + dd,
                2 * dd,
                -t,
                2 * dd - 1 - r,
            );
            assert(2 * mm + dd - 1 <= (2 * dd) * mm + (2 * dd - 1)) by (nonlinear_arith)
                requires
                    mm >= 0,
                    dd >= 1,
            ;
            lemma_div_is_ordered(2 * mm + dd - 1, (2 * dd) * mm + (2 * dd - 1), 2 * dd);
            lemma_div_multiples_vanish_fancy(mm, 2 * dd - 1, 2 * dd);
        }
        -(q64 as i64)
    }
}

/// Converts a raw reading through the calibration curve, rounding the
/// exact linear temperature to the nearest tenth of a degree.
pub fn convert(c: &CalibrationCurve, raw: i64) -> (t: i64)
    requires
        c.wf(),
        raw_in_range(raw as int),
    ensures
        t == convert_spec(*c, raw as int),
        -MAX_TEMP_TENTHS <= t <= MAX_TEMP_TENTHS,
{
    let dt = c.temp_b_tenths - c.temp_a_tenths;
    if c.raw_b > c.raw_a {
        let dv = c.raw_b - c.raw_a;
        proof {
            assert(-2 * MAX_REF_RAW * MAX_REF_TEMP_TENTHS * 2 <= (raw - c.raw_a) * dt
                <= 2 * MAX_REF_RAW * MAX_REF_TEMP_TENTHS * 2) by (nonlinear_arith)
                requires
                    -2 * MAX_REF_RAW <= raw - c.raw_a <= 2 * MAX_REF_RAW,
                    -2 * MAX_REF_TEMP_TENTHS <= dt <= 2 * MAX_REF_TEMP_TENTHS,
            ;
        }
        let n = (raw - c.raw_a) * dt;
        let q = round_div_pos(n, dv);
        c.temp_a_tenths + q
    } else {
        let dv = c.raw_a - c.raw_b;
        proof {
            assert(-2 * MAX_REF_RAW * MAX_REF_TEMP_TENTHS * 2 <= (c.raw_a - raw) * dt
                <= 2 * MAX_REF_RAW * MAX_REF_TEMP_TENTHS * 2) by (nonlinear_arith)
                requires
                    -2 * MAX_REF_RAW <= c.raw_a - raw <= 2 * MAX_REF_RAW,
                    -2 * MAX_REF_TEMP_TENTHS <= dt <= 2 * MAX_REF_TEMP_TENTHS,
            ;
        }
        let n = (c.raw_a - raw) * dt;
        let q = round_div_pos(n, dv);
        c.temp_a_tenths + q
    }
}

/// Round trip through the calibration: the curve maps each reference
/// reading back to exactly its reference temperature.
pub proof fn lemma_convert_reference_points(c: CalibrationCurve)
    requires
        c.wf(),
    ensures
        convert_spec(c, c.raw_a as int) == c.temp_a_tenths,
        convert_spec(c, c.raw_b as int) == c.temp_b_tenths,
{
    let dt = c.temp_b_tenths - c.temp_a_tenths;
    let dv = if c.raw_b - c.raw_a > 0 {
        c.raw_b - c.raw_a
    } else {
        c.raw_a - c.raw_b
    };
    // At raw_a the numerator is zero, and round_div(0, dv) == 0.
    assert(round_div(0, dv) == 0) by {
        lemma_div_multiples_vanish_fancy(0, dv, 2 * dv);
        assert((2 * dv) * 0 + dv == 2 * 0 + dv);
    }
    // At raw_b the numerator is dv * dt, and round_div(dv * dt, dv) == dt.
    assert(round_div(dv * dt, dv) == dt) by {
        lemma_div_multiples_vanish_fancy(dt, dv, 2 * dv);
        assert(2 * (dv * dt) + dv == (2 * dv) * dt + dv) by (nonlinear_arith);
    }
    if c.raw_b - c.raw_a > 0 {
        assert((c.raw_a - c.raw_a) * dt == 0);
        assert((c.raw_b - c.raw_a) * dt == dv * dt);
    } else {
        assert((c.raw_a - c.raw_a) * dt == 0);
        assert((c.raw_a - c.raw_b) * dt == dv * dt);
    }
}

/// Monotonicity: over in-range readings the conversion never moves against
/// the slope of the calibration.  When the slope is non-negative (the
/// reference temperature rises with the reference reading) the converted
/// temperature is non-decreasing in the reading, and when the slope is
/// non-positive it is non-increasing.
pub proof fn lemma_convert_monotone(c: CalibrationCurve, x: int, y: int)
    requires
        c.wf(),
        raw_in_range(x),
        raw_in_range(y),
        x <= y,
    ensures
        (c.temp_b_tenths - c.temp_a_tenths) * (c.raw_b - c.raw_a) >= 0 ==> convert_spec(c, x)
            <= convert_spec(c, y),
        (c.temp_b_tenths - c.temp_a_tenths) * (c.raw_b - c.raw_a) <= 0 ==> convert_spec(c, y)
            <= convert_spec(c, x),
{
    let dt = c.temp_b_tenths - c.temp_a_tenths;
    let dv = c.raw_b - c.raw_a;
    if dt == 0 {
        assert((x - c.raw_a) * dt == 0) by (nonlinear_arith)
            requires dt == 0;
        assert((y - c.raw_a) * dt == 0) by (nonlinear_arith)
            requires dt == 0;
        assert((c.raw_a - x) * dt == 0) by (nonlinear_arith)
            requires dt == 0;
        assert((c.raw_a - y) * dt == 0) by (nonlinear_arith)
            requires dt == 0;
    } else if dv > 0 {
        if dt > 0 {
            lemma_mul_inequality(x - c.raw_a, y - c.raw_a, dt);
            lemma_div_is_ordered(
                2 * ((x - c.raw_a) * dt) + dv,
                2 * ((y - c.raw_a) * dt) + dv,
                2 * dv,
            );
            lemma_mul_strict_inequality(0, dt, dv);
        } else {
            assert((y - c.raw_a) * dt <= (x - c.raw_a) * dt) by (nonlinear_arith)
                requires x <= y, dt < 0;
            lemma_div_is_ordered(
                2 * ((y - c.raw_a) * dt) + dv,
                2 * ((x - c.raw_a) * dt) + dv,
                2 * dv,
            );
            lemma_mul_strict_inequality(dt, 0, dv);
        }
    } else {
        let dw = c.raw_a - c.raw_b;
        if dt > 0 {
            lemma_mul_inequality(c.raw_a - y, c.raw_a - x, dt);
            lemma_div_is_ordered(
                2 * ((c.raw_a - y) * dt) + dw,
                2 * ((c.raw_a - x) * dt) + dw,
                2 * dw,
            );
            assert(dt * dv < 0) by (nonlinear_arith)
                requires dt > 0, dv < 0;
        } else {
            assert((c.raw_a - x) * dt <= (c.raw_a - y) * dt) by (nonlinear_arith)
                requires x <= y, dt < 0;
            lemma_div_is_ordered(
                2 * ((c.raw_a - x) * dt) + dw,
                2 * ((c.raw_a - y) * dt) + dw,
                2 * dw,
            );
            assert(dt * dv > 0) by (nonlinear_arith)
                requires dt < 0, dv < 0;
        }
    }
}

} // verus!
