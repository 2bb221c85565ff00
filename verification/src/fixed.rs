//! Fixed-point arithmetic in billionths, rounding toward zero.
use vstd::prelude::*;

verus! {

/// The fixed-point representation of one: every quantity counts billionths.
pub const UNIT: i64 = 1_000_000_000;

/// The largest magnitude an intermediate value may have in the arithmetic below.
pub(crate) const WIDE: i128 = 0x1_0000_0000_0000_0000_0000;

/// The magnitude of `a`.
pub open spec fn mag(a: int) -> int {
    if a >= 0 {
        a
    } else {
        -a
    }
}

/// The quotient of `a` by a positive `b`, rounded toward zero.
pub open spec fn trunc_div(a: int, b: int) -> int {
    if a >= 0 {
        a / b
    } else {
        -((-a) / b)
    }
}

/// The fixed-point product of `a` and `b`, rounded toward zero.
pub open spec fn scale(a: int, b: int) -> int {
    trunc_div(a * b, UNIT as int)
}

/// `v` held to the range of `i64`.
pub open spec fn saturate(v: int) -> int {
    if v > i64::MAX {
        i64::MAX as int
    } else if v < i64::MIN {
        i64::MIN as int
    } else {
        v
    }
}

/// Rounding toward zero keeps the sign, never grows the magnitude, and loses
/// less than one whole step of the divisor.
pub proof fn lemma_trunc_div(a: int, b: int)
    requires
        b > 0,
    ensures
        mag(trunc_div(a, b)) == mag(a) / b,
        mag(trunc_div(a, b)) * b <= mag(a),
        mag(a) < (mag(trunc_div(a, b)) + 1) * b,
        a >= 0 ==> trunc_div(a, b) >= 0,
        a <= 0 ==> trunc_div(a, b) <= 0,
{
    let m = mag(a);
    assert(m / b >= 0 && (m / b) * b <= m && m < (m / b + 1) * b) by (nonlinear_arith)
        requires
            m >= 0,
            b > 0,
    ;
}

/// The magnitude of a product is the product of the magnitudes.
pub proof fn lemma_mag_mul(a: int, b: int)
    ensures
        mag(a * b) == mag(a) * mag(b),
        (a >= 0 && b >= 0) || (a <= 0 && b <= 0) ==> a * b >= 0,
        (a >= 0 && b <= 0) || (a <= 0 && b >= 0) ==> a * b <= 0,
{
    assert(mag(a * b) == mag(a) * mag(b) && ((a >= 0 && b >= 0) || (a <= 0 && b <= 0) ==> a * b
        >= 0) && ((a >= 0 && b <= 0) || (a <= 0 && b >= 0) ==> a * b <= 0)) by (nonlinear_arith);
}

/// A fixed-point product is no larger than the exact product.
pub proof fn lemma_scale(a: int, b: int)
    ensures
        mag(scale(a, b)) * UNIT <= mag(a) * mag(b),
        mag(a) * mag(b) < (mag(scale(a, b)) + 1) * UNIT,
        a * b >= 0 ==> scale(a, b) >= 0,
        a * b <= 0 ==> scale(a, b) <= 0,
{
    lemma_mag_mul(a, b);
}

/// Scaling by a factor of magnitude at most one never grows a value.
pub proof fn lemma_scale_shrinks(a: int, b: int)
    requires
        mag(b) <= UNIT,
    ensures
        mag(scale(a, b)) <= mag(a),
        mag(scale(b, a)) <= mag(a),
{
    lemma_scale(b, a);
    let p = mag(scale(a, b));
    let q = mag(scale(b, a));
    let ma = mag(a);
    let mb = mag(b);
    assert(p <= ma) by (nonlinear_arith)
        requires
            p * 1_000_000_000 <= ma * mb,
            0 <= mb <= 1_000_000_000,
            ma >= 0,
            p >= 0,
    ;
    assert(q <= ma) by (nonlinear_arith)
        requires
            q * 1_000_000_000 <= mb * ma,
            0 <= mb <= 1_000_000_000,
            ma >= 0,
            q >= 0,
    ;
}

/// Computes the fixed-point product of `a` and `b`.
pub(crate) fn scaled(a: i128, b: i64) -> (r: i128)
    requires
        -WIDE <= a <= WIDE,
        -UNIT <= b <= UNIT,
    ensures
        r == scale(a as int, b as int),
        mag(r as int) <= mag(a as int),
{
    proof {
        lemma_scale_shrinks(a as int, b as int);
        assert(-0x1_0000_0000_0000_0000_0000 * 1_000_000_000 <= a * b
            <= 0x1_0000_0000_0000_0000_0000 * 1_000_000_000) by (nonlinear_arith)
            requires
                -0x1_0000_0000_0000_0000_0000 <= a <= 0x1_0000_0000_0000_0000_0000,
                -1_000_000_000 <= b <= 1_000_000_000,
        ;
    }
    let product: i128 = a * (b as i128);
    product / (UNIT as i128)
}

/// Computes `a + b`, held to the range of `i64`.
pub(crate) fn saturating_sum(a: i64, b: i64) -> (r: i64)
    ensures
        r == saturate(a + b),
{
    let sum: i128 = (a as i128) + (b as i128);
    if sum > (i64::MAX as i128) {
        i64::MAX
    } else if sum < (i64::MIN as i128) {
        i64::MIN
    } else {
        sum as i64
    }
}

} // verus!
