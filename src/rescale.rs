use vstd::prelude::*;
use vstd::arithmetic::div_mod::lemma_fundamental_div_mod;
use crate::media::TimeBase;

verus! {

pub open spec fn abs(x: int) -> int {
    if x >= 0 { x } else { -x }
}

/// Scaled magnitude of a timestamp: `|t| * src.num * dst.den`.
pub open spec fn scaled_magnitude(t: int, src: TimeBase, dst: TimeBase) -> int {
    abs(t) * src.num * dst.den
}

/// The divisor of a rescale: `src.den * dst.num`.
pub open spec fn scale_divisor(src: TimeBase, dst: TimeBase) -> int {
    src.den * dst.num
}

/// `t * src / dst`, rounded to the nearest integer, halves away from zero.
pub open spec fn rescaled(t: int, src: TimeBase, dst: TimeBase) -> int {
    let n = scaled_magnitude(t, src, dst);
    let m = scale_divisor(src, dst);
    let q = (n + m / 2) / m;
    if t >= 0 { q } else { -q }
}

/// Whether a rescaled timestamp can be carried as a present `i64` timestamp
/// (`i64::MIN` is the container convention for "no timestamp").
pub open spec fn representable(v: int) -> bool {
    i64::MIN < v && v <= i64::MAX
}

/// The rescale of a timestamp, when both bases are valid and the result fits.
pub open spec fn rescale_spec(t: int, src: TimeBase, dst: TimeBase) -> Option<i64> {
    if src.valid() && dst.valid() && representable(rescaled(t, src, dst)) {
        Some(rescaled(t, src, dst) as i64)
    } else {
        None
    }
}

/// Converts a timestamp from time base `src` to time base `dst`, rounding to
/// the nearest unit. `None` when a base is not positive or the result does not
/// fit in a present timestamp.
pub fn rescale(t: i64, src: TimeBase, dst: TimeBase) -> (r: Option<i64>)
    ensures
        r == rescale_spec(t as int, src, dst),
{
    if !(src.is_valid() && dst.is_valid()) {
        return None;
    }
    let mag: u128 = if t >= 0 { t as u128 } else { (-(t as i128)) as u128 };
    assert(mag as int == abs(t as int));
    let a: u128 = src.num as u128;
    let b: u128 = src.den as u128;
    let c: u128 = dst.num as u128;
    let d: u128 = dst.den as u128;
    assert(mag * a <= 0x8000_0000_0000_0000u128 * 0x8000_0000u128) by (nonlinear_arith)
        requires mag <= 0x8000_0000_0000_0000u128, a <= 0x8000_0000u128;
    let na: u128 = mag * a;
    assert(na * d <= 0x8000_0000_0000_0000u128 * 0x8000_0000u128 * 0x8000_0000u128) by (nonlinear_arith)
        requires na <= 0x8000_0000_0000_0000u128 * 0x8000_0000u128, d <= 0x8000_0000u128;
    let n: u128 = na * d;
    assert(b * c <= 0x8000_0000u128 * 0x8000_0000u128) by (nonlinear_arith)
        requires b <= 0x8000_0000u128, c <= 0x8000_0000u128;
    let m: u128 = b * c;
    assert(m > 0) by (nonlinear_arith)
        requires b > 0, c > 0, m == b * c;
    let q: u128 = (n + m / 2) / m;
    assert(n as int == scaled_magnitude(t as int, src, dst));
    assert(m as int == scale_divisor(src, dst));
    if t >= 0 {
        if q > i64::MAX as u128 {
            None
        } else {
            Some(q as i64)
        }
    } else {
        if q >= 0x8000_0000_0000_0000u128 {
            None
        } else {
            Some(-(q as i64))
        }
    }
}

/// Rescaling is exact up to rounding: with source base `a/b` and destination
/// base `c/d`, the result `r` of rescaling `t` is within half a unit of
/// `t·a·d / (b·c)`, that is `|r·b·c − t·a·d| ≤ (b·c) / 2`.
pub proof fn lemma_rescale_rounding(t: int, src: TimeBase, dst: TimeBase)
    requires
        src.valid(),
        dst.valid(),
    ensures
        abs(rescaled(t, src, dst) * (src.den * dst.num) - t * src.num * dst.den)
            <= (src.den * dst.num) / 2,
{
    let n = scaled_magnitude(t, src, dst);
    let m = scale_divisor(src, dst);
    assert(m > 0) by (nonlinear_arith)
        requires m == src.den * dst.num, src.den > 0, dst.num > 0;
    let q = (n + m / 2) / m;
    lemma_fundamental_div_mod(n + m / 2, m);
    lemma_fundamental_div_mod(m, 2);
    let rm = (n + m / 2) % m;
    assert(0 <= rm < m);
    assert(q * m + rm == n + m / 2) by (nonlinear_arith)
        requires m * q + rm == n + m / 2;
    assert(abs(q * m - n) <= m / 2);
    if t >= 0 {
        assert(n == t * src.num * dst.den);
    } else {
        assert(n == -(t * src.num * dst.den)) by (nonlinear_arith)
            requires n == (-t) * src.num * dst.den;
        assert(-q * m == -(q * m)) by (nonlinear_arith);
    }
}

} // verus!
