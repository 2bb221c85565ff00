//! Lengths, directions and the speed limits: the bounds that keep a tick within its
//! ceiling.
use crate::fixed::{lemma_mag_mul, lemma_trunc_div, mag, UNIT};
use crate::model::{direction, direction_at, length, limited, MAX_SPEED};
use crate::root::{
    ceil_root, is_ceil_sqrt, lemma_ceil_root, lemma_ceil_root_compare, lemma_square_monotone,
};
use crate::state::Vec2;
use vstd::prelude::*;

verus! {

/// A number and its magnitude have the same square.
pub proof fn lemma_mag_square(a: int)
    ensures
        mag(a) * mag(a) == a * a,
        a * a >= 0,
{
    assert(mag(a) * mag(a) == a * a && a * a >= 0) by (nonlinear_arith);
}

/// The length is a natural number, no shorter than the vector itself nor than either
/// component, and zero only for the zero vector.
pub proof fn lemma_length(v: Vec2)
    ensures
        is_ceil_sqrt(v.norm_squared(), length(v)),
        length(v) >= mag(v.x),
        length(v) >= mag(v.z),
        length(v) == 0 <==> v == Vec2::zero(),
{
    let s = length(v);
    lemma_ceil_root(v.norm_squared());
    lemma_mag_square(v.x);
    lemma_mag_square(v.z);
    if s < mag(v.x) {
        lemma_square_monotone(s + 1, mag(v.x));
        assert(s * s < (s + 1) * (s + 1)) by (nonlinear_arith)
            requires
                s >= 0,
        ;
    }
    if s < mag(v.z) {
        lemma_square_monotone(s + 1, mag(v.z));
        assert(s * s < (s + 1) * (s + 1)) by (nonlinear_arith)
            requires
                s >= 0,
        ;
    }
}

/// Dividing by a speed and multiplying by a target, each rounded toward zero, gives
/// no more than the exact `from * target / speed`.
pub proof fn lemma_rescale_component(
    scaled: int,
    unit_part: int,
    from: int,
    speed: int,
    target: int,
)
    requires
        scaled >= 0,
        unit_part >= 0,
        from >= 0,
        speed > 0,
        target >= 0,
        scaled * UNIT <= unit_part * target,
        unit_part * speed <= from * UNIT,
    ensures
        scaled * speed <= from * target,
        (scaled * scaled) * (speed * speed) <= (from * from) * (target * target),
{
    let u = UNIT as int;
    assert((scaled * u) * speed <= (unit_part * target) * speed) by (nonlinear_arith)
        requires
            scaled * u <= unit_part * target,
            speed > 0,
    ;
    assert((unit_part * speed) * target <= (from * u) * target) by (nonlinear_arith)
        requires
            unit_part * speed <= from * u,
            target >= 0,
    ;
    assert((scaled * u) * speed == u * (scaled * speed)) by (nonlinear_arith);
    assert((unit_part * target) * speed == (unit_part * speed) * target) by (nonlinear_arith);
    assert((from * u) * target == u * (from * target)) by (nonlinear_arith);
    assert(scaled * speed <= from * target) by (nonlinear_arith)
        requires
            u * (scaled * speed) <= u * (from * target),
            u > 0,
    ;
    let l = scaled * speed;
    let r = from * target;
    assert(l >= 0) by (nonlinear_arith)
        requires
            l == scaled * speed,
            scaled >= 0,
            speed > 0,
    ;
    lemma_square_monotone(l, r);
    assert(l * l == (scaled * scaled) * (speed * speed)) by (nonlinear_arith)
        requires
            l == scaled * speed,
    ;
    assert(r * r == (from * from) * (target * target)) by (nonlinear_arith)
        requires
            r == from * target,
    ;
}

/// Squares grow strictly with their non-negative base.
pub proof fn lemma_square_strict(a: int, b: int)
    requires
        0 <= a < b,
    ensures
        a * a < b * b,
{
    assert(a * a < b * b) by (nonlinear_arith)
        requires
            0 <= a < b,
    ;
}

/// Two quotients by a common root `r`, each rounded toward zero, of two numbers whose
/// squares add up to at most `u * u * (r * r)` have squares that add up to at most
/// `u * u`.
proof fn lemma_quotients_within(mx: int, mz: int, ax: int, az: int, r: int, u: int)
    requires
        0 <= mx,
        0 <= mz,
        0 < r,
        0 <= u,
        mx * r <= ax,
        mz * r <= az,
        ax * ax + az * az <= (u * u) * (r * r),
    ensures
        mx * mx + mz * mz <= u * u,
{
    let px = mx * r;
    let pz = mz * r;
    assert(0 <= px && 0 <= pz) by (nonlinear_arith)
        requires
            px == mx * r,
            pz == mz * r,
            0 <= mx,
            0 <= mz,
            0 < r,
    ;
    lemma_square_monotone(px, ax);
    lemma_square_monotone(pz, az);
    assert(px * px == (mx * mx) * (r * r)) by (nonlinear_arith)
        requires
            px == mx * r,
    ;
    assert(pz * pz == (mz * mz) * (r * r)) by (nonlinear_arith)
        requires
            pz == mz * r,
    ;
    let rr = r * r;
    let m = mx * mx + mz * mz;
    let uu = u * u;
    assert(rr > 0) by (nonlinear_arith)
        requires
            rr == r * r,
            r > 0,
    ;
    assert(m * rr == (mx * mx) * rr + (mz * mz) * rr) by (nonlinear_arith)
        requires
            m == mx * mx + mz * mz,
    ;
    assert(m <= uu) by (nonlinear_arith)
        requires
            m * rr <= uu * rr,
            rr > 0,
    ;
}

/// Two quotients by a common root `r`, each rounded toward zero, of two numbers whose
/// squares add up to more than `u * u * ((r - 1) * (r - 1))`, with `r` at least `u`:
/// the quotients, each raised by one, have squares that add up to more than the
/// square of `u - 1`.
proof fn lemma_quotients_reach(mx: int, mz: int, ax: int, az: int, r: int, u: int)
    requires
        0 <= mx,
        0 <= mz,
        0 <= ax < (mx + 1) * r,
        0 <= az < (mz + 1) * r,
        1 <= u <= r,
        ax * ax + az * az > (u * u) * ((r - 1) * (r - 1)),
    ensures
        (mx + 1) * (mx + 1) + (mz + 1) * (mz + 1) > (u - 1) * (u - 1),
{
    let px = (mx + 1) * r;
    let pz = (mz + 1) * r;
    lemma_square_strict(ax, px);
    lemma_square_strict(az, pz);
    assert(px * px == ((mx + 1) * (mx + 1)) * (r * r)) by (nonlinear_arith)
        requires
            px == (mx + 1) * r,
    ;
    assert(pz * pz == ((mz + 1) * (mz + 1)) * (r * r)) by (nonlinear_arith)
        requires
            pz == (mz + 1) * r,
    ;
    let rr = r * r;
    let m = (mx + 1) * (mx + 1) + (mz + 1) * (mz + 1);
    assert(rr > 0) by (nonlinear_arith)
        requires
            rr == r * r,
            r > 0,
    ;
    assert(m * rr == ((mx + 1) * (mx + 1)) * rr + ((mz + 1) * (mz + 1)) * rr)
        by (nonlinear_arith)
        requires
            m == (mx + 1) * (mx + 1) + (mz + 1) * (mz + 1),
    ;
    let low = u * (r - 1);
    let high = (u - 1) * r;
    assert(0 <= high <= low) by (nonlinear_arith)
        requires
            high == (u - 1) * r,
            low == u * (r - 1),
            1 <= u <= r,
    ;
    lemma_square_monotone(high, low);
    assert(low * low == (u * u) * ((r - 1) * (r - 1))) by (nonlinear_arith)
        requires
            low == u * (r - 1),
    ;
    assert(high * high == ((u - 1) * (u - 1)) * rr) by (nonlinear_arith)
        requires
            high == (u - 1) * r,
            rr == r * r,
    ;
    let t = (u - 1) * (u - 1);
    assert(m > t) by (nonlinear_arith)
        requires
            m * rr > t * rr,
            rr > 0,
    ;
}

/// A velocity divided by its length, the length measured in steps of one `k`-th of
/// a billionth and no shorter than one: the quotient points the way the velocity
/// does, is no longer than one and falls short of one by less than four billionths.
pub proof fn lemma_direction_at(v: Vec2, k: int)
    requires
        k >= 1,
        v.norm_squared() * (k * k) >= UNIT * UNIT,
    ensures
        is_ceil_sqrt(v.norm_squared() * (k * k), ceil_root(v.norm_squared() * (k * k))),
        ceil_root(v.norm_squared() * (k * k)) >= UNIT,
        mag(direction_at(v, k).x) * ceil_root(v.norm_squared() * (k * k)) <= (mag(v.x) * k)
            * UNIT,
        mag(direction_at(v, k).z) * ceil_root(v.norm_squared() * (k * k)) <= (mag(v.z) * k)
            * UNIT,
        (mag(v.x) * k) * UNIT < (mag(direction_at(v, k).x) + 1) * ceil_root(
            v.norm_squared() * (k * k),
        ),
        (mag(v.z) * k) * UNIT < (mag(direction_at(v, k).z) + 1) * ceil_root(
            v.norm_squared() * (k * k),
        ),
        v.x >= 0 ==> direction_at(v, k).x >= 0,
        v.x <= 0 ==> direction_at(v, k).x <= 0,
        v.z >= 0 ==> direction_at(v, k).z >= 0,
        v.z <= 0 ==> direction_at(v, k).z <= 0,
        mag(direction_at(v, k).x) <= UNIT,
        mag(direction_at(v, k).z) <= UNIT,
        (UNIT - 4) * (UNIT - 4) <= direction_at(v, k).norm_squared() <= UNIT * UNIT,
{
    let unit = UNIT as int;
    let n = v.norm_squared();
    let r = ceil_root(n * (k * k));
    let d = direction_at(v, k);
    lemma_ceil_root(n * (k * k));
    lemma_ceil_root_compare(n * (k * k), unit - 1);
    assert((unit - 1) * (unit - 1) < unit * unit) by (nonlinear_arith)
        requires
            unit == 1_000_000_000,
    ;
    assert(r >= unit);
    let a = mag(v.x);
    let b = mag(v.z);
    let ax = (a * k) * unit;
    let az = (b * k) * unit;
    let mx = mag(d.x);
    let mz = mag(d.z);
    lemma_trunc_div(v.x * unit * k, r);
    lemma_trunc_div(v.z * unit * k, r);
    lemma_mag_mul(v.x, unit);
    lemma_mag_mul(v.x * unit, k);
    lemma_mag_mul(v.z, unit);
    lemma_mag_mul(v.z * unit, k);
    assert(mag(v.x * unit * k) == ax) by (nonlinear_arith)
        requires
            mag(v.x * unit * k) == (a * unit) * k,
            ax == (a * k) * unit,
    ;
    assert(mag(v.z * unit * k) == az) by (nonlinear_arith)
        requires
            mag(v.z * unit * k) == (b * unit) * k,
            az == (b * k) * unit,
    ;
    assert((v.x >= 0 ==> v.x * unit * k >= 0) && (v.x <= 0 ==> v.x * unit * k <= 0))
        by (nonlinear_arith)
        requires
            unit > 0,
            k >= 1,
    ;
    assert((v.z >= 0 ==> v.z * unit * k >= 0) && (v.z <= 0 ==> v.z * unit * k <= 0))
        by (nonlinear_arith)
        requires
            unit > 0,
            k >= 1,
    ;
    lemma_mag_square(v.x);
    lemma_mag_square(v.z);
    lemma_mag_square(d.x);
    lemma_mag_square(d.z);
    let aa = a * a;
    let bb = b * b;
    let kk = k * k;
    let uu = unit * unit;
    assert(ax * ax == (aa * kk) * uu) by (nonlinear_arith)
        requires
            ax == (a * k) * unit,
            aa == a * a,
            kk == k * k,
            uu == unit * unit,
    ;
    assert(az * az == (bb * kk) * uu) by (nonlinear_arith)
        requires
            az == (b * k) * unit,
            bb == b * b,
            kk == k * k,
            uu == unit * unit,
    ;
    assert((aa * kk) * uu + (bb * kk) * uu == uu * ((aa + bb) * kk)) by (nonlinear_arith);
    assert(ax * ax + az * az == (unit * unit) * (n * (k * k)));
    let nk = n * (k * k);
    assert((unit * unit) * nk <= (unit * unit) * (r * r)) by (nonlinear_arith)
        requires
            nk <= r * r,
    ;
    assert((unit * unit) * nk > (unit * unit) * ((r - 1) * (r - 1))) by (nonlinear_arith)
        requires
            nk > (r - 1) * (r - 1),
            unit > 0,
    ;
    assert(0 <= ax && 0 <= az) by (nonlinear_arith)
        requires
            ax == (a * k) * unit,
            az == (b * k) * unit,
            a >= 0,
            b >= 0,
            k >= 1,
            unit > 0,
    ;
    lemma_quotients_within(mx, mz, ax, az, r, unit);
    lemma_quotients_reach(mx, mz, ax, az, r, unit);
    if mx > unit {
        lemma_square_strict(unit, mx);
    }
    if mz > unit {
        lemma_square_strict(unit, mz);
    }
    assert((mx + 1) * (mx + 1) + (mz + 1) * (mz + 1) == (mx * mx + mz * mz) + 2 * mx + 2 * mz
        + 2) by (nonlinear_arith);
    assert(unit * unit == 1_000_000_000_000_000_000 && (unit - 1) * (unit - 1)
        == 999_999_998_000_000_001 && (unit - 4) * (unit - 4) == 999_999_992_000_000_016)
        by (nonlinear_arith)
        requires
            unit == 1_000_000_000,
    ;
    assert(d.norm_squared() == mx * mx + mz * mz);
}

/// The unit vector along a velocity that is not zero points the way the velocity
/// does, is no longer than one and falls short of one by less than four billionths.
pub proof fn lemma_direction(v: Vec2)
    requires
        v != Vec2::zero(),
    ensures
        v.x >= 0 ==> direction(v).x >= 0,
        v.x <= 0 ==> direction(v).x <= 0,
        v.z >= 0 ==> direction(v).z >= 0,
        v.z <= 0 ==> direction(v).z <= 0,
        mag(direction(v).x) <= UNIT,
        mag(direction(v).z) <= UNIT,
        (UNIT - 4) * (UNIT - 4) <= direction(v).norm_squared() <= UNIT * UNIT,
{
    let n = v.norm_squared();
    lemma_mag_square(v.x);
    lemma_mag_square(v.z);
    assert(n >= 1) by (nonlinear_arith)
        requires
            n == v.x * v.x + v.z * v.z,
            v.x != 0 || v.z != 0,
    ;
    if n < UNIT * UNIT {
        assert(n * (UNIT * UNIT) >= UNIT * UNIT) by (nonlinear_arith)
            requires
                n >= 1,
        ;
        lemma_direction_at(v, UNIT as int);
    } else {
        assert(n * (1 * 1) == n) by (nonlinear_arith);
        lemma_direction_at(v, 1);
    }
}

proof fn lemma_rescaled_at(v: Vec2, k: int, target: int, p: int, u: int)
    requires
        k >= 1,
        target >= 0,
        v.norm_squared() * (k * k) >= UNIT * UNIT,
        v.norm_squared() >= target * target,
        u == mag(direction_at(v, k).x) || u == mag(direction_at(v, k).z),
        p >= 0,
        p * UNIT <= u * target,
    ensures
        u == mag(direction_at(v, k).x) ==> p <= mag(v.x),
        u == mag(direction_at(v, k).z) ==> p <= mag(v.z),
{
    let n = v.norm_squared();
    let r = ceil_root(n * (k * k));
    lemma_direction_at(v, k);
    let bound = target * k;
    assert(0 <= bound) by (nonlinear_arith)
        requires
            bound == target * k,
            target >= 0,
            k >= 1,
    ;
    assert(bound * bound <= n * (k * k)) by (nonlinear_arith)
        requires
            bound == target * k,
            target * target <= n,
            k >= 1,
    ;
    if r < bound {
        lemma_square_strict(r, bound);
    }
    if u == mag(direction_at(v, k).x) {
        let a = mag(v.x);
        lemma_rescale_component(p, u, a * k, r, target);
        assert(p <= a) by (nonlinear_arith)
            requires
                p * r <= (a * k) * target,
                bound == target * k,
                r >= bound,
                r > 0,
                bound >= 0,
                a >= 0,
                p >= 0,
        ;
    }
    if u == mag(direction_at(v, k).z) {
        let b = mag(v.z);
        lemma_rescale_component(p, u, b * k, r, target);
        assert(p <= b) by (nonlinear_arith)
            requires
                p * r <= (b * k) * target,
                bound == target * k,
                r >= bound,
                r > 0,
                bound >= 0,
                b >= 0,
                p >= 0,
        ;
    }
}

/// Rescaling a velocity to a target length that it reaches already: a component of
/// its unit vector, times the target and rounded toward zero, is no larger than the
/// component of the velocity itself.
pub proof fn lemma_rescaled(v: Vec2, target: int, p: int, u: int)
    requires
        v != Vec2::zero(),
        target >= 0,
        v.norm_squared() >= target * target,
        u == mag(direction(v).x) || u == mag(direction(v).z),
        p >= 0,
        p * UNIT <= u * target,
    ensures
        u == mag(direction(v).x) ==> p <= mag(v.x),
        u == mag(direction(v).z) ==> p <= mag(v.z),
{
    let n = v.norm_squared();
    lemma_mag_square(v.x);
    lemma_mag_square(v.z);
    assert(n >= 1) by (nonlinear_arith)
        requires
            n == v.x * v.x + v.z * v.z,
            v.x != 0 || v.z != 0,
    ;
    if n < UNIT * UNIT {
        assert(n * (UNIT * UNIT) >= UNIT * UNIT) by (nonlinear_arith)
            requires
                n >= 1,
        ;
        lemma_rescaled_at(v, UNIT as int, target, p, u);
    } else {
        assert(n * (1 * 1) == n) by (nonlinear_arith);
        lemma_rescaled_at(v, 1, target, p, u);
    }
}

/// The speed limits leave a velocity no longer than `MAX_SPEED`, and no component
/// larger than it was.
pub proof fn lemma_limited(v: Vec2)
    ensures
        limited(v).norm_squared() <= MAX_SPEED * MAX_SPEED,
        mag(limited(v).x) <= mag(v.x),
        mag(limited(v).z) <= mag(v.z),
        mag(limited(v).x) <= MAX_SPEED,
        mag(limited(v).z) <= MAX_SPEED,
        length(limited(v)) <= MAX_SPEED,
{
    let w = limited(v);
    let top = MAX_SPEED as int;
    let unit = UNIT as int;
    let n = v.norm_squared();
    lemma_mag_square(w.x);
    lemma_mag_square(w.z);
    if n > MAX_SPEED * MAX_SPEED {
        let d = direction(v);
        assert(v != Vec2::zero());
        lemma_direction(v);
        let p = mag(w.x);
        let q = mag(w.z);
        let dx = mag(d.x);
        let dz = mag(d.z);
        assert(p * unit <= dx * top && q * unit <= dz * top);
        lemma_mag_square(d.x);
        lemma_mag_square(d.z);
        assert(dx * top >= 0 && dz * top >= 0) by (nonlinear_arith)
            requires
                dx >= 0,
                dz >= 0,
                top >= 0,
        ;
        let ex = dx * top;
        let ez = dz * top;
        assert(ex * ex + ez * ez == (dx * dx + dz * dz) * (top * top)) by (nonlinear_arith)
            requires
                ex == dx * top,
                ez == dz * top,
        ;
        assert((dx * dx + dz * dz) * (top * top) <= (top * top) * (unit * unit))
            by (nonlinear_arith)
            requires
                dx * dx + dz * dz <= unit * unit,
        ;
        lemma_quotients_within(p, q, ex, ez, unit, top);
        lemma_rescaled(v, top, p, dx);
        lemma_rescaled(v, top, q, dz);
    }
    assert(mag(w.x) <= top && mag(w.z) <= top) by {
        let p = mag(w.x);
        let q = mag(w.z);
        if p > top {
            lemma_square_strict(top, p);
        }
        if q > top {
            lemma_square_strict(top, q);
        }
    }
    lemma_ceil_root_compare(w.norm_squared(), top);
}

} // verus!
