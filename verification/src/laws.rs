//! What holds of every tick, whatever the state and the input.
use crate::bounds::{
    lemma_direction, lemma_direction_at, lemma_limited, lemma_mag_square, lemma_rescaled,
    lemma_square_strict,
};
use crate::fixed::{mag, saturate, scale, UNIT};
use crate::model::{
    brake_loss, braked, direction, direction_at, driven, length, limited, next_velocity, pulled,
    pushed, run, slowed, tick, Step, ACCELERATION, BRAKE_POWER, FRICTION, MAX_SPEED,
    REST_SPEED, ROTATE_SPEED,
};
use crate::root::{
    ceil_root, lemma_ceil_root_compare, lemma_ceil_root_is, lemma_ceil_root_monotone,
    lemma_square_monotone,
};
use crate::state::{is_direction, CarState, InputState, Vec2};
use vstd::prelude::*;

verus! {

/// A tick is a function: equal states, inputs and forward vectors give equal states.
pub proof fn lemma_tick_is_deterministic(
    car_a: CarState,
    input_a: InputState,
    forward_a: Vec2,
    car_b: CarState,
    input_b: InputState,
    forward_b: Vec2,
)
    requires
        car_a == car_b,
        input_a == input_b,
        forward_a == forward_b,
    ensures
        tick(car_a, input_a, forward_a) == tick(car_b, input_b, forward_b),
{
}

/// The velocity that a tick computes is the velocity that the next state holds:
/// it always fits the state's fields.
pub proof fn lemma_tick_velocity(car: CarState, input: InputState, forward: Vec2)
    ensures
        tick(car, input, forward).velocity() == next_velocity(car.velocity(), input, forward),
{
    lemma_limited(slowed(driven(car.velocity(), input, forward)));
}

/// Speed bound: after a tick the vehicle is never faster than `MAX_SPEED`, whatever
/// it was doing before and whatever the input.
pub proof fn lemma_speed_bound(car: CarState, input: InputState, forward: Vec2)
    ensures
        tick(car, input, forward).velocity().norm_squared() <= MAX_SPEED * MAX_SPEED,
        length(tick(car, input, forward).velocity()) <= MAX_SPEED,
{
    lemma_limited(slowed(driven(car.velocity(), input, forward)));
}

/// Speed bound, over time: every state that one or more ticks lead to is never
/// faster than `MAX_SPEED`.
pub proof fn lemma_speed_bound_always(car: CarState, steps: Seq<Step>)
    requires
        steps.len() > 0,
    ensures
        run(car, steps).velocity().norm_squared() <= MAX_SPEED * MAX_SPEED,
        length(run(car, steps).velocity()) <= MAX_SPEED,
{
    lemma_speed_bound(run(car, steps.drop_last()), steps.last().input, steps.last().forward);
}

/// Integration: a tick moves the vehicle by the velocity it ends with, up to the end
/// of the position's range.
pub proof fn lemma_moves_by_velocity(car: CarState, input: InputState, forward: Vec2)
    ensures
        tick(car, input, forward).x == saturate(
            car.x + tick(car, input, forward).velocity_x,
        ),
        tick(car, input, forward).z == saturate(
            car.z + tick(car, input, forward).velocity_z,
        ),
{
    lemma_tick_velocity(car, input, forward);
}

/// Forward acceleration: a vehicle at rest that faces along +z and holds only the
/// forward input leaves the tick with `ACCELERATION` times `FRICTION` along +z and
/// nothing along x, keeps its heading, and has moved by that velocity.
pub proof fn lemma_forward_from_rest(car: CarState, input: InputState)
    requires
        input.forward,
        !input.backward,
        !input.left,
        !input.right,
        car.velocity() == Vec2::zero(),
    ensures
        tick(car, input, Vec2 { x: 0, z: UNIT as int }).velocity() == (Vec2 {
            x: 0,
            z: scale(ACCELERATION as int, FRICTION as int),
        }),
        scale(ACCELERATION as int, FRICTION as int) == 4_900_000,
        tick(car, input, Vec2 { x: 0, z: UNIT as int }).rotation_y == car.rotation_y,
        tick(car, input, Vec2 { x: 0, z: UNIT as int }).x == car.x,
        tick(car, input, Vec2 { x: 0, z: UNIT as int }).z == saturate(car.z + 4_900_000),
        car.z + 4_900_000 <= i64::MAX ==> tick(car, input, Vec2 { x: 0, z: UNIT as int }).z
            == car.z + 4_900_000,
{
    let forward = Vec2 { x: 0, z: UNIT as int };
    let gained = pushed(car.velocity(), forward);
    assert(scale(0, ACCELERATION as int) == 0);
    assert(scale(UNIT as int, ACCELERATION as int) == ACCELERATION);
    assert(gained == Vec2 { x: 0, z: ACCELERATION as int });
    assert(scale(0, FRICTION as int) == 0);
    assert(scale(ACCELERATION as int, FRICTION as int) == 4_900_000);
    let after_friction = slowed(gained);
    assert(after_friction == Vec2 { x: 0, z: 4_900_000 });
    assert(after_friction.norm_squared() == 4_900_000 * 4_900_000) by (nonlinear_arith)
        requires
            after_friction.x == 0,
            after_friction.z == 4_900_000,
    ;
    assert(limited(after_friction) == after_friction);
}

/// Throttle: whichever way a vehicle at rest faces, the forward input sets it moving
/// at `ACCELERATION`, within the few billionths that rounding the forward vector and
/// the product can cost or add, and the backward input does the same the other way.
pub proof fn lemma_throttle_from_rest(forward: Vec2)
    requires
        is_direction(forward.x, forward.z),
    ensures
        ACCELERATION - 3 <= length(pushed(Vec2::zero(), forward)) <= ACCELERATION + 1,
        ACCELERATION - 3 <= length(pulled(Vec2::zero(), forward)) <= ACCELERATION + 1,
{
    let gained = pushed(Vec2::zero(), forward);
    let lost = pulled(Vec2::zero(), forward);
    let a = mag(forward.x);
    let b = mag(forward.z);
    let p = mag(gained.x);
    let q = mag(gained.z);
    assert(mag(lost.x) == p && mag(lost.z) == q);
    assert(200 * p <= a < 200 * p + 200);
    assert(200 * q <= b < 200 * q + 200);
    lemma_mag_square(forward.x);
    lemma_mag_square(forward.z);
    lemma_mag_square(gained.x);
    lemma_mag_square(gained.z);
    lemma_mag_square(lost.x);
    lemma_mag_square(lost.z);
    let n = p * p + q * q;
    assert(gained.norm_squared() == n);
    assert(lost.norm_squared() == n);
    assert(40_000 * n <= a * a + b * b) by (nonlinear_arith)
        requires
            n == p * p + q * q,
            0 <= 200 * p <= a,
            0 <= 200 * q <= b,
    ;
    assert(a * a + b * b < 40_000 * (n + 2 * (p + q) + 2)) by (nonlinear_arith)
        requires
            n == p * p + q * q,
            0 <= a < 200 * p + 200,
            0 <= b < 200 * q + 200,
            p >= 0,
            q >= 0,
    ;
    assert(n <= 5_000_001 * 5_000_001);
    assert(n > 4_999_996 * 4_999_996);
    lemma_ceil_root_compare(n, 5_000_001);
    lemma_ceil_root_compare(n, 4_999_996);
}

/// Friction: each velocity component is multiplied by `FRICTION` and rounded toward
/// zero, so it loses its share and less than one billionth more, and a component
/// that is not zero gets smaller.
pub proof fn lemma_friction(v: Vec2)
    ensures
        mag(slowed(v).x) * UNIT <= mag(v.x) * FRICTION < (mag(slowed(v).x) + 1) * UNIT,
        mag(slowed(v).z) * UNIT <= mag(v.z) * FRICTION < (mag(slowed(v).z) + 1) * UNIT,
        v.x != 0 ==> mag(slowed(v).x) < mag(v.x),
        v.z != 0 ==> mag(slowed(v).z) < mag(v.z),
{
}

/// Idle decay, one tick: with no input the heading stays, the forward vector plays
/// no part, each velocity component shrinks by the factor `FRICTION` at least, and a
/// moving vehicle gets strictly slower. Between the two speed limits the velocity is
/// the old one times `FRICTION`, rounded toward zero. The vehicle moves by the new
/// velocity, as far as the position's range goes.
pub proof fn lemma_idle_tick(car: CarState, input: InputState, forward: Vec2)
    requires
        input.is_idle(),
    ensures
        tick(car, input, forward).rotation_y == car.rotation_y,
        tick(car, input, forward).velocity() == limited(slowed(car.velocity())),
        REST_SPEED * REST_SPEED <= slowed(car.velocity()).norm_squared() <= MAX_SPEED
            * MAX_SPEED ==> tick(car, input, forward).velocity() == slowed(car.velocity()),
        tick(car, input, forward).x == saturate(car.x + tick(car, input, forward).velocity_x),
        tick(car, input, forward).z == saturate(car.z + tick(car, input, forward).velocity_z),
        i64::MIN <= car.x + tick(car, input, forward).velocity_x <= i64::MAX ==> tick(
            car,
            input,
            forward,
        ).x == car.x + tick(car, input, forward).velocity_x,
        i64::MIN <= car.z + tick(car, input, forward).velocity_z <= i64::MAX ==> tick(
            car,
            input,
            forward,
        ).z == car.z + tick(car, input, forward).velocity_z,
        mag(tick(car, input, forward).velocity_x as int) * UNIT <= mag(car.velocity_x as int)
            * FRICTION,
        mag(tick(car, input, forward).velocity_z as int) * UNIT <= mag(car.velocity_z as int)
            * FRICTION,
        tick(car, input, forward).velocity().norm_squared() <= car.velocity().norm_squared(),
        car.velocity() != Vec2::zero() ==> tick(car, input, forward).velocity().norm_squared()
            < car.velocity().norm_squared(),
        length(tick(car, input, forward).velocity()) <= length(car.velocity()),
{
    let v = car.velocity();
    let s = slowed(v);
    let w = limited(s);
    lemma_limited(s);
    lemma_shorter(w, v);
    lemma_ceil_root_monotone(w.norm_squared(), v.norm_squared());
}

/// A vector whose components are no larger is no longer, and shorter if one
/// component is smaller.
pub proof fn lemma_shorter(w: Vec2, v: Vec2)
    requires
        mag(w.x) <= mag(v.x),
        mag(w.z) <= mag(v.z),
    ensures
        w.norm_squared() <= v.norm_squared(),
        mag(w.x) < mag(v.x) || mag(w.z) < mag(v.z) ==> w.norm_squared() < v.norm_squared(),
{
    lemma_mag_square(w.x);
    lemma_mag_square(w.z);
    lemma_mag_square(v.x);
    lemma_mag_square(v.z);
    let a = mag(w.x);
    let b = mag(v.x);
    let c = mag(w.z);
    let d = mag(v.z);
    assert(a * a <= b * b && (a < b ==> a * a < b * b)) by (nonlinear_arith)
        requires
            0 <= a <= b,
    ;
    assert(c * c <= d * d && (c < d ==> c * c < d * d)) by (nonlinear_arith)
        requires
            0 <= c <= d,
    ;
}

/// Idle decay, whichever way the vehicle faces: with no input the forward vector
/// plays no part in a tick.
pub proof fn lemma_idle_ignores_forward(
    car: CarState,
    input: InputState,
    forward_a: Vec2,
    forward_b: Vec2,
)
    requires
        input.is_idle(),
    ensures
        tick(car, input, forward_a) == tick(car, input, forward_b),
{
}

/// Idle decay, the last tick: once friction has taken the speed below `REST_SPEED`,
/// by however little, the vehicle stands still where it is.
pub proof fn lemma_idle_stop(car: CarState, input: InputState, forward: Vec2)
    requires
        input.is_idle(),
        slowed(car.velocity()).norm_squared() < REST_SPEED * REST_SPEED,
    ensures
        tick(car, input, forward).velocity() == Vec2::zero(),
        tick(car, input, forward).x == car.x,
        tick(car, input, forward).z == car.z,
        tick(car, input, forward).rotation_y == car.rotation_y,
{
    lemma_limited(slowed(car.velocity()));
}

/// A vehicle at rest has no speed, and friction and the speed limits leave it at
/// rest.
pub proof fn lemma_at_rest()
    ensures
        Vec2::zero().norm_squared() == 0,
        slowed(Vec2::zero()) == Vec2::zero(),
        limited(Vec2::zero()) == Vec2::zero(),
{
    assert(Vec2::zero().norm_squared() == 0) by (nonlinear_arith)
        requires
            Vec2::zero().x == 0,
            Vec2::zero().z == 0,
    ;
}

/// Idle decay, at rest: with no input a vehicle that stands still stays exactly as
/// it is.
pub proof fn lemma_rest_is_stable(car: CarState, input: InputState, forward: Vec2)
    requires
        input.is_idle(),
        car.velocity() == Vec2::zero(),
    ensures
        tick(car, input, forward) == car,
{
    lemma_at_rest();
}

/// Pure steering: a vehicle at rest with only the left input held turns by
/// `ROTATE_SPEED`, up to the end of the heading's range, and neither moves nor
/// picks up speed.
pub proof fn lemma_steering_in_place(car: CarState, input: InputState, forward: Vec2)
    requires
        input.left,
        !input.right,
        !input.forward,
        !input.backward,
        car.velocity() == Vec2::zero(),
    ensures
        tick(car, input, forward).rotation_y == saturate(car.rotation_y + ROTATE_SPEED),
        car.rotation_y + ROTATE_SPEED <= i64::MAX ==> tick(car, input, forward).rotation_y
            == car.rotation_y + ROTATE_SPEED,
        tick(car, input, forward).x == car.x,
        tick(car, input, forward).z == car.z,
        tick(car, input, forward).velocity() == Vec2::zero(),
{
    lemma_at_rest();
}

/// The backward input brakes a vehicle that moves forward, and accelerates any
/// other backward.
pub proof fn lemma_backward_input(v: Vec2, input: InputState, forward: Vec2)
    requires
        input.backward,
        !input.forward,
    ensures
        v.x * forward.x + v.z * forward.z > 0 ==> driven(v, input, forward) == braked(v),
        v.x * forward.x + v.z * forward.z <= 0 ==> driven(v, input, forward) == pulled(
            v,
            forward,
        ),
{
    lemma_mag_square(v.x);
    lemma_mag_square(v.z);
    assert(v.norm_squared() == 0 ==> v.x * forward.x + v.z * forward.z == 0)
        by (nonlinear_arith)
        requires
            v.norm_squared() == v.x * v.x + v.z * v.z,
            v.x * v.x >= 0,
            v.z * v.z >= 0,
    ;
}

/// The largest velocity component for which `lemma_reverse_thrust` speaks: a
/// hundred thousand world units per tick.
pub open spec fn thrust_span() -> int {
    100_000 * UNIT
}

/// The projection of `v` on `forward`, in billionths of a billionth.
pub open spec fn projection(v: Vec2, forward: Vec2) -> int {
    v.x * forward.x + v.z * forward.z
}

/// Where `a * w` is within `e` of `c * s` in both components, `a` times the
/// projection of `w` is within `e` times the components of `forward` of `c` times
/// the projection of `s`.
proof fn lemma_projection_follows(a: int, c: int, e: int, s: Vec2, w: Vec2, forward: Vec2)
    requires
        -e <= c * s.x - a * w.x <= e,
        -e <= c * s.z - a * w.z <= e,
    ensures
        a * projection(w, forward) <= c * projection(s, forward) + e * (mag(forward.x) + mag(
            forward.z,
        )),
{
    let dx = c * s.x - a * w.x;
    let dz = c * s.z - a * w.z;
    let fx = forward.x;
    let fz = forward.z;
    let wx = w.x * fx;
    let wz = w.z * fz;
    let sx = s.x * fx;
    let sz = s.z * fz;
    assert(dx * fx == c * sx - a * wx) by (nonlinear_arith)
        requires
            dx == c * s.x - a * w.x,
            wx == w.x * fx,
            sx == s.x * fx,
    ;
    assert(dz * fz == c * sz - a * wz) by (nonlinear_arith)
        requires
            dz == c * s.z - a * w.z,
            wz == w.z * fz,
            sz == s.z * fz,
    ;
    assert(a * (wx + wz) == a * wx + a * wz) by (nonlinear_arith);
    assert(c * (sx + sz) == c * sx + c * sz) by (nonlinear_arith);
    assert(-(dx * fx) <= e * mag(fx)) by (nonlinear_arith)
        requires
            -e <= dx <= e,
            mag(fx) == if fx >= 0 {
                fx
            } else {
                -fx
            },
    ;
    assert(-(dz * fz) <= e * mag(fz)) by (nonlinear_arith)
        requires
            -e <= dz <= e,
            mag(fz) == if fz >= 0 {
                fz
            } else {
                -fz
            },
    ;
    assert(e * (mag(fx) + mag(fz)) == e * mag(fx) + e * mag(fz)) by (nonlinear_arith);
}

/// The thrust along one component `f` of the forward vector, times that component,
/// is a two-hundredth of the component's square, less what rounding takes.
proof fn lemma_thrust_along(f: int)
    ensures
        200 * (scale(f, ACCELERATION as int) * f) >= f * f - 200 * mag(f),
{
    let g = scale(f, ACCELERATION as int);
    assert(g == if f >= 0 {
        (f * 5_000_000) / 1_000_000_000
    } else {
        -((-(f * 5_000_000)) / 1_000_000_000)
    });
    assert(f >= 0 ==> g >= 0 && 200 * g > f - 200);
    assert(f <= 0 ==> g <= 0 && 200 * g < f + 200);
    assert(200 * (g * f) >= f * f - 200 * mag(f)) by (nonlinear_arith)
        requires
            f >= 0 ==> g >= 0 && 200 * g > f - 200,
            f <= 0 ==> g <= 0 && 200 * g < f + 200,
            mag(f) == if f >= 0 {
                f
            } else {
                -f
            },
    ;
}

/// The projection of one vector on another is no longer than the two together: its
/// square is at most the product of their squared lengths.
proof fn lemma_projection_bound(s: Vec2, forward: Vec2)
    ensures
        projection(s, forward) * projection(s, forward) <= s.norm_squared()
            * forward.norm_squared(),
{
    let a = s.x;
    let b = s.z;
    let c = forward.x;
    let d = forward.z;
    let p = a * c;
    let q = b * d;
    let x = a * d;
    let y = b * c;
    assert(p * q == x * y) by (nonlinear_arith)
        requires
            p == a * c,
            q == b * d,
            x == a * d,
            y == b * c,
    ;
    assert((a * a) * (c * c) == p * p) by (nonlinear_arith)
        requires
            p == a * c,
    ;
    assert((b * b) * (d * d) == q * q) by (nonlinear_arith)
        requires
            q == b * d,
    ;
    assert((a * a) * (d * d) == x * x) by (nonlinear_arith)
        requires
            x == a * d,
    ;
    assert((b * b) * (c * c) == y * y) by (nonlinear_arith)
        requires
            y == b * c,
    ;
    let aa = a * a;
    let bb = b * b;
    let cc = c * c;
    let dd = d * d;
    assert((aa + bb) * (cc + dd) == aa * cc + aa * dd + bb * cc + bb * dd) by (nonlinear_arith);
    assert((p + q) * (p + q) == p * p + 2 * (p * q) + q * q) by (nonlinear_arith);
    assert((x - y) * (x - y) == x * x - 2 * (x * y) + y * y) by (nonlinear_arith);
    lemma_mag_square(x - y);
}

/// Accelerating backward and friction leave a vehicle that did not move forward
/// with a projection on the forward vector well below zero, and too fast to be
/// brought to rest.
proof fn lemma_pulled_back(v: Vec2, forward: Vec2)
    requires
        is_direction(forward.x, forward.z),
        projection(v, forward) <= 0,
    ensures
        projection(slowed(pulled(v, forward)), forward) <= -4_899_996_020_400_000,
        slowed(pulled(v, forward)).norm_squared() >= REST_SPEED * REST_SPEED,
{
    let p = pulled(v, forward);
    let s = slowed(p);
    let fx = forward.x;
    let fz = forward.z;
    let gx = scale(fx, ACCELERATION as int);
    let gz = scale(fz, ACCELERATION as int);
    lemma_thrust_along(fx);
    lemma_thrust_along(fz);
    let gained = gx * fx + gz * fz;
    assert(gained >= 4_999_997_980_000_001);
    assert(projection(p, forward) == projection(v, forward) - gained) by (nonlinear_arith)
        requires
            p.x == v.x - gx,
            p.z == v.z - gz,
            gained == gx * fx + gz * fz,
            projection(p, forward) == p.x * fx + p.z * fz,
            projection(v, forward) == v.x * fx + v.z * fz,
    ;
    assert(-100 <= 98 * p.x - 100 * s.x <= 100);
    assert(-100 <= 98 * p.z - 100 * s.z <= 100);
    lemma_projection_follows(100, 98, 100, p, s, forward);
    assert(projection(s, forward) <= -4_899_996_020_400_000);
    let dot = projection(s, forward);
    let n = s.norm_squared();
    let ff = forward.norm_squared();
    lemma_projection_bound(s, forward);
    lemma_mag_square(s.x);
    lemma_mag_square(s.z);
    lemma_mag_square(fx);
    lemma_mag_square(fz);
    lemma_square_monotone(4_899_996_020_400_000, -dot);
    assert((-dot) * (-dot) == dot * dot) by (nonlinear_arith);
    if n < REST_SPEED * REST_SPEED {
        assert(REST_SPEED * REST_SPEED == 1_000_000_000_000);
        assert((UNIT + 2) * (UNIT + 2) == 1_000_000_004_000_000_004);
        assert(n * ff <= 1_000_000_000_000 * 1_000_000_004_000_000_004) by (nonlinear_arith)
            requires
                0 <= n <= 1_000_000_000_000,
                0 <= ff <= 1_000_000_004_000_000_004,
        ;
    }
}

proof fn lemma_clamped_projection(s: Vec2, forward: Vec2, k: int)
    requires
        is_direction(forward.x, forward.z),
        k >= 1,
        s.norm_squared() * (k * k) >= UNIT * UNIT,
        s.norm_squared() <= 150_000_000_000_000 * 150_000_000_000_000,
        projection(s, forward) <= -4_899_996_020_400_000,
    ensures
        projection(
            Vec2 {
                x: scale(direction_at(s, k).x, MAX_SPEED as int),
                z: scale(direction_at(s, k).z, MAX_SPEED as int),
            },
            forward,
        ) < 0,
{
    let unit = UNIT as int;
    let d = direction_at(s, k);
    let w = Vec2 { x: scale(d.x, MAX_SPEED as int), z: scale(d.z, MAX_SPEED as int) };
    let n = s.norm_squared();
    let r = ceil_root(n * (k * k));
    lemma_direction_at(s, k);
    // the root is no longer than the velocity can be
    let most = 150_000_000_000_000 * k;
    assert(most >= 0 && most * most >= n * (k * k)) by (nonlinear_arith)
        requires
            most == 150_000_000_000_000 * k,
            k >= 1,
            n <= 150_000_000_000_000 * 150_000_000_000_000,
    ;
    if r - 1 >= most {
        lemma_square_monotone(most, r - 1);
    }
    assert(r <= most);
    // each component of the result, times five roots, is the velocity's within six roots
    let c = k * unit;
    assert(5 * mag(w.x) <= mag(d.x) < 5 * mag(w.x) + 5);
    assert(5 * mag(w.z) <= mag(d.z) < 5 * mag(w.z) + 5);
    assert(-(6 * r) <= c * s.x - (5 * r) * w.x <= 6 * r) by (nonlinear_arith)
        requires
            c == k * unit,
            r > 0,
            mag(d.x) * r <= (mag(s.x) * k) * unit < (mag(d.x) + 1) * r,
            5 * mag(w.x) <= mag(d.x) < 5 * mag(w.x) + 5,
            s.x >= 0 ==> mag(s.x) == s.x && mag(w.x) == w.x,
            s.x <= 0 ==> mag(s.x) == -s.x && mag(w.x) == -w.x,
    ;
    assert(-(6 * r) <= c * s.z - (5 * r) * w.z <= 6 * r) by (nonlinear_arith)
        requires
            c == k * unit,
            r > 0,
            mag(d.z) * r <= (mag(s.z) * k) * unit < (mag(d.z) + 1) * r,
            5 * mag(w.z) <= mag(d.z) < 5 * mag(w.z) + 5,
            s.z >= 0 ==> mag(s.z) == s.z && mag(w.z) == w.z,
            s.z <= 0 ==> mag(s.z) == -s.z && mag(w.z) == -w.z,
    ;
    lemma_projection_follows(5 * r, c, 6 * r, s, w, forward);
    let dot = projection(s, forward);
    let span = mag(forward.x) + mag(forward.z);
    assert((5 * r) * projection(w, forward) < 0) by (nonlinear_arith)
        requires
            (5 * r) * projection(w, forward) <= c * dot + (6 * r) * span,
            c == k * unit,
            unit == 1_000_000_000,
            0 <= span <= 2_000_000_000,
            0 < r <= 150_000_000_000_000 * k,
            k >= 1,
            dot <= -4_899_996_020_400_000,
    ;
    assert(projection(w, forward) < 0) by (nonlinear_arith)
        requires
            (5 * r) * projection(w, forward) < 0,
            r > 0,
    ;
}

/// Reverse thrust: a vehicle that does not move forward and holds only the backward
/// input is accelerated backward, not braked; it leaves the tick moving, and moving
/// against its forward vector.
pub proof fn lemma_reverse_thrust(v: Vec2, input: InputState, forward: Vec2)
    requires
        input.backward,
        !input.forward,
        is_direction(forward.x, forward.z),
        projection(v, forward) <= 0,
        mag(v.x) <= thrust_span(),
        mag(v.z) <= thrust_span(),
    ensures
        next_velocity(v, input, forward) == limited(slowed(pulled(v, forward))),
        next_velocity(v, input, forward) != Vec2::zero(),
        projection(next_velocity(v, input, forward), forward) < 0,
{
    let s = slowed(pulled(v, forward));
    let n = s.norm_squared();
    lemma_pulled_back(v, forward);
    lemma_mag_square(s.x);
    lemma_mag_square(s.z);
    assert(mag(s.x) <= 100_000_000_000_000 && mag(s.z) <= 100_000_000_000_000);
    lemma_square_monotone(mag(s.x), 100_000_000_000_000);
    lemma_square_monotone(mag(s.z), 100_000_000_000_000);
    if n > MAX_SPEED * MAX_SPEED {
        if n < UNIT * UNIT {
            assert(n * (UNIT * UNIT) >= UNIT * UNIT) by (nonlinear_arith)
                requires
                    n >= 1,
            ;
            lemma_clamped_projection(s, forward, UNIT as int);
        } else {
            assert(n * (1 * 1) == n) by (nonlinear_arith);
            lemma_clamped_projection(s, forward, 1);
        }
    }
    let next = limited(s);
    assert(next == Vec2::zero() ==> projection(next, forward) == 0) by (nonlinear_arith)
        requires
            projection(next, forward) == next.x * forward.x + next.z * forward.z,
            Vec2::zero().x == 0,
            Vec2::zero().z == 0,
    ;
}

/// Reverse thrust, one tick: a vehicle that does not move forward and holds only the
/// backward input keeps its heading and leaves the tick moving against its forward
/// vector.
pub proof fn lemma_reverse_tick(car: CarState, input: InputState, forward: Vec2)
    requires
        input.backward,
        !input.forward,
        !input.left,
        !input.right,
        is_direction(forward.x, forward.z),
        projection(car.velocity(), forward) <= 0,
        mag(car.velocity_x as int) <= thrust_span(),
        mag(car.velocity_z as int) <= thrust_span(),
    ensures
        tick(car, input, forward).rotation_y == car.rotation_y,
        tick(car, input, forward).velocity() == limited(
            slowed(pulled(car.velocity(), forward)),
        ),
        tick(car, input, forward).velocity() != Vec2::zero(),
        projection(tick(car, input, forward).velocity(), forward) < 0,
{
    lemma_tick_velocity(car, input, forward);
    lemma_reverse_thrust(car.velocity(), input, forward);
}

/// Cruising: a vehicle that moves along +z no faster than `MAX_SPEED`, faces that
/// way and holds only the forward input stays on its line, gains speed with every
/// tick until it has reached `MAX_SPEED`, and never passes it.
pub proof fn lemma_cruising(v: int, input: InputState)
    requires
        0 <= v <= MAX_SPEED,
        input.forward,
        !input.backward,
    ensures
        next_velocity(Vec2 { x: 0, z: v }, input, Vec2 { x: 0, z: UNIT as int }) == (Vec2 {
            x: 0,
            z: if scale(v + ACCELERATION, FRICTION as int) > MAX_SPEED {
                MAX_SPEED as int
            } else {
                scale(v + ACCELERATION, FRICTION as int)
            },
        }),
        v < MAX_SPEED ==> v < next_velocity(
            Vec2 { x: 0, z: v },
            input,
            Vec2 { x: 0, z: UNIT as int },
        ).z <= MAX_SPEED,
        v == MAX_SPEED ==> next_velocity(
            Vec2 { x: 0, z: v },
            input,
            Vec2 { x: 0, z: UNIT as int },
        ).z == MAX_SPEED,
{
    let forward = Vec2 { x: 0, z: UNIT as int };
    let gained = pushed(Vec2 { x: 0, z: v }, forward);
    assert(scale(0, ACCELERATION as int) == 0);
    assert(scale(UNIT as int, ACCELERATION as int) == ACCELERATION);
    assert(gained == Vec2 { x: 0, z: v + ACCELERATION });
    let t = scale(v + ACCELERATION, FRICTION as int);
    assert(scale(0, FRICTION as int) == 0);
    let after_friction = slowed(gained);
    assert(after_friction == Vec2 { x: 0, z: t });
    assert(4_900_000 <= t && v + 900_000 <= t);
    assert(after_friction.norm_squared() == t * t) by (nonlinear_arith)
        requires
            after_friction.x == 0,
            after_friction.z == t,
    ;
    let top = MAX_SPEED as int;
    let rest = REST_SPEED as int;
    lemma_square_monotone(rest, t);
    if t > top {
        lemma_square_strict(top, t);
        lemma_direction_straight(t);
        assert(scale(UNIT as int, MAX_SPEED as int) == MAX_SPEED);
        assert(scale(0, MAX_SPEED as int) == 0);
    } else {
        lemma_square_monotone(t, top);
    }
}

/// The speed of a vehicle that started at rest and has cruised for `ticks` ticks:
/// along +z, facing that way, only the forward input held.
pub open spec fn cruise(ticks: nat) -> int
    decreases ticks,
{
    if ticks == 0 {
        0
    } else {
        let gained = scale(cruise((ticks - 1) as nat) + ACCELERATION, FRICTION as int);
        if gained > MAX_SPEED {
            MAX_SPEED as int
        } else {
            gained
        }
    }
}

/// One tick of cruising closes a fiftieth of the gap to the speed at which thrust
/// and friction would balance, unless it reaches `MAX_SPEED` first, where it stays.
proof fn lemma_cruise_step(ticks: nat)
    ensures
        0 <= cruise(ticks) <= cruise(ticks + 1) <= MAX_SPEED,
        cruise(ticks + 1) == MAX_SPEED || 100 * (245_000_000 - cruise(ticks + 1)) <= 98 * (
        245_000_000 - cruise(ticks)) + 100,
    decreases ticks,
{
    if ticks > 0 {
        lemma_cruise_step((ticks - 1) as nat);
    }
    assert(cruise(ticks + 1) == if scale(cruise(ticks) + ACCELERATION, FRICTION as int)
        > MAX_SPEED {
        MAX_SPEED as int
    } else {
        scale(cruise(ticks) + ACCELERATION, FRICTION as int)
    });
}

/// Ten ticks of cruising close more than eighteen hundredths of that gap.
proof fn lemma_cruise_ten(ticks: nat)
    ensures
        cruise(ticks + 10) == MAX_SPEED || 10_000 * (245_000_000 - cruise(ticks + 10)) <= 8_171
            * (245_000_000 - cruise(ticks)) + 100_000,
{
    lemma_cruise_step(ticks);
    lemma_cruise_step(ticks + 1);
    lemma_cruise_step(ticks + 2);
    lemma_cruise_step(ticks + 3);
    lemma_cruise_step(ticks + 4);
    lemma_cruise_step(ticks + 5);
    lemma_cruise_step(ticks + 6);
    lemma_cruise_step(ticks + 7);
    lemma_cruise_step(ticks + 8);
    lemma_cruise_step(ticks + 9);
}

/// Cruising from rest reaches `MAX_SPEED` with the eighty-fourth tick and stays
/// there.
proof fn lemma_cruise_settles(ticks: nat)
    requires
        ticks >= 84,
    ensures
        cruise(ticks) == MAX_SPEED,
    decreases ticks,
{
    if ticks > 84 {
        lemma_cruise_settles((ticks - 1) as nat);
        lemma_cruise_step((ticks - 1) as nat);
    } else {
        assert(cruise(0) == 0);
        lemma_cruise_ten(0);
        lemma_cruise_ten(10);
        lemma_cruise_ten(20);
        lemma_cruise_ten(30);
        lemma_cruise_ten(40);
        lemma_cruise_ten(50);
        lemma_cruise_ten(60);
        lemma_cruise_ten(70);
        lemma_cruise_step(10);
        lemma_cruise_step(20);
        lemma_cruise_step(30);
        lemma_cruise_step(40);
        lemma_cruise_step(50);
        lemma_cruise_step(60);
        lemma_cruise_step(70);
        lemma_cruise_step(80);
        lemma_cruise_step(81);
        lemma_cruise_step(82);
        lemma_cruise_step(83);
    }
}

/// Cruising from rest: the speed never falls and never passes `MAX_SPEED`, and from
/// the eighty-fourth tick on it is `MAX_SPEED` exactly. A hundred ticks end there.
pub proof fn lemma_cruise_reaches_ceiling(ticks: nat)
    ensures
        0 <= cruise(ticks) <= MAX_SPEED,
        cruise(ticks) <= cruise(ticks + 1),
        ticks >= 84 ==> cruise(ticks) == MAX_SPEED,
        cruise(1) == 4_900_000,
        cruise(100) == MAX_SPEED,
{
    lemma_cruise_step(ticks);
    lemma_cruise_step(0);
    assert(cruise(0) == 0);
    lemma_cruise_settles(100);
    if ticks >= 84 {
        lemma_cruise_settles(ticks);
    }
}

/// Every step of `steps` holds the forward input and no other, with the vehicle
/// facing along +z.
pub open spec fn all_forward(steps: Seq<Step>) -> bool {
    forall|i: int|
        0 <= i < steps.len() ==> {
            let step = #[trigger] steps[i];
            &&& step.input.forward
            &&& !step.input.backward
            &&& !step.input.left
            &&& !step.input.right
            &&& step.forward == (Vec2 { x: 0, z: UNIT as int })
        }
}

/// Cruising, over time: a vehicle that starts at rest, faces along +z and holds
/// only the forward input keeps its heading and its x, and moves along +z at
/// `cruise` of the number of ticks: faster with every tick, never faster than
/// `MAX_SPEED`, and at `MAX_SPEED` from the eighty-fourth tick on.
pub proof fn lemma_cruise_run(car: CarState, steps: Seq<Step>)
    requires
        all_forward(steps),
        car.velocity() == Vec2::zero(),
    ensures
        run(car, steps).rotation_y == car.rotation_y,
        run(car, steps).x == car.x,
        run(car, steps).velocity() == (Vec2 { x: 0, z: cruise(steps.len()) }),
        0 <= cruise(steps.len()) <= MAX_SPEED,
        steps.len() >= 84 ==> run(car, steps).velocity_z == MAX_SPEED,
    decreases steps.len(),
{
    lemma_cruise_reaches_ceiling(steps.len());
    if steps.len() > 0 {
        let before = run(car, steps.drop_last());
        let last = steps.last();
        assert(all_forward(steps.drop_last())) by {
            assert forall|i: int| 0 <= i < steps.drop_last().len() implies ({
                let step = #[trigger] steps.drop_last()[i];
                &&& step.input.forward
                &&& !step.input.backward
                &&& !step.input.left
                &&& !step.input.right
                &&& step.forward == (Vec2 { x: 0, z: UNIT as int })
            }) by {
                assert(steps.drop_last()[i] == steps[i]);
            }
        }
        assert(last == steps[steps.len() - 1]);
        lemma_cruise_run(car, steps.drop_last());
        lemma_cruise_reaches_ceiling((steps.len() - 1) as nat);
        lemma_cruising(cruise((steps.len() - 1) as nat), last.input);
        lemma_tick_velocity(before, last.input, last.forward);
    }
}

/// How much braking takes off: a vector along the velocity, no longer than
/// `BRAKE_POWER` and short of it by less than three billionths, however slow the
/// vehicle is.
pub proof fn lemma_braking_amount(v: Vec2)
    requires
        v != Vec2::zero(),
    ensures
        (BRAKE_POWER - 3) * (BRAKE_POWER - 3) <= brake_loss(v).norm_squared() <= BRAKE_POWER
            * BRAKE_POWER,
        mag(brake_loss(v).x) <= BRAKE_POWER,
        mag(brake_loss(v).z) <= BRAKE_POWER,
        v.x >= 0 ==> brake_loss(v).x >= 0,
        v.x <= 0 ==> brake_loss(v).x <= 0,
        v.z >= 0 ==> brake_loss(v).z >= 0,
        v.z <= 0 ==> brake_loss(v).z <= 0,
{
    let d = direction(v);
    let loss = brake_loss(v);
    lemma_direction(v);
    lemma_mag_square(d.x);
    lemma_mag_square(d.z);
    lemma_mag_square(loss.x);
    lemma_mag_square(loss.z);
    let mx = mag(d.x);
    let mz = mag(d.z);
    let lx = mag(loss.x);
    let lz = mag(loss.z);
    assert(100 * lx <= mx < 100 * lx + 100);
    assert(100 * lz <= mz < 100 * lz + 100);
    let n = lx * lx + lz * lz;
    assert(10_000 * n <= mx * mx + mz * mz) by (nonlinear_arith)
        requires
            n == lx * lx + lz * lz,
            0 <= 100 * lx <= mx,
            0 <= 100 * lz <= mz,
    ;
    assert(mx * mx + mz * mz < 10_000 * (n + 2 * (lx + lz) + 2)) by (nonlinear_arith)
        requires
            n == lx * lx + lz * lz,
            0 <= mx < 100 * lx + 100,
            0 <= mz < 100 * lz + 100,
            lx >= 0,
            lz >= 0,
    ;
    assert(loss.norm_squared() == n);
}

/// Braking never turns a vehicle round that is at least as fast as `BRAKE_POWER`:
/// each velocity component keeps its sign and does not grow.
pub proof fn lemma_braking_keeps_direction(v: Vec2)
    requires
        v.norm_squared() >= BRAKE_POWER * BRAKE_POWER,
    ensures
        mag(braked(v).x) <= mag(v.x),
        mag(braked(v).z) <= mag(v.z),
        v.x >= 0 ==> braked(v).x >= 0,
        v.x <= 0 ==> braked(v).x <= 0,
        v.z >= 0 ==> braked(v).z >= 0,
        v.z <= 0 ==> braked(v).z <= 0,
{
    lemma_at_rest();
    lemma_braking_amount(v);
    let d = direction(v);
    let loss = brake_loss(v);
    lemma_rescaled(v, BRAKE_POWER as int, mag(loss.x), mag(d.x));
    lemma_rescaled(v, BRAKE_POWER as int, mag(loss.z), mag(d.z));
}

/// The unit vector along a velocity that points along +z is +z itself.
pub proof fn lemma_direction_straight(v: int)
    requires
        v > 0,
    ensures
        direction(Vec2 { x: 0, z: v }) == (Vec2 { x: 0, z: UNIT as int }),
{
    let velocity = Vec2 { x: 0, z: v };
    let unit = UNIT as int;
    let n = velocity.norm_squared();
    assert(n == v * v) by (nonlinear_arith)
        requires
            n == velocity.x * velocity.x + velocity.z * velocity.z,
            velocity.x == 0,
            velocity.z == v,
    ;
    if v >= unit {
        lemma_square_monotone(unit, v);
    } else {
        lemma_square_strict(v, unit);
    }
    let k = if n < UNIT * UNIT {
        unit
    } else {
        1
    };
    let r = v * k;
    assert(r > 0 && r * r == n * (k * k) && (r - 1) * (r - 1) < r * r) by (nonlinear_arith)
        requires
            r == v * k,
            n == v * v,
            v > 0,
            k >= 1,
    ;
    lemma_ceil_root_is(n * (k * k), r);
    assert(0 * unit * k == 0) by (nonlinear_arith);
    assert(0int / r == 0) by (nonlinear_arith)
        requires
            r > 0,
    ;
    assert(v * unit * k >= 0 && (v * unit * k) / r == unit) by (nonlinear_arith)
        requires
            r == v * k,
            v > 0,
            k >= 1,
            unit > 0,
    ;
}

/// Braking on a straight line: a vehicle that moves along its forward vector and
/// holds only the backward input loses exactly `BRAKE_POWER` of velocity before
/// friction acts, and is not accelerated backward.
pub proof fn lemma_brakes_straight(v: int, input: InputState)
    requires
        v > 0,
        input.backward,
        !input.forward,
    ensures
        driven(Vec2 { x: 0, z: v }, input, Vec2 { x: 0, z: UNIT as int }) == (Vec2 {
            x: 0,
            z: v - BRAKE_POWER,
        }),
{
    let velocity = Vec2 { x: 0, z: v };
    let forward = Vec2 { x: 0, z: UNIT as int };
    lemma_direction_straight(v);
    assert(velocity.norm_squared() > 0 && velocity.x * forward.x + velocity.z * forward.z > 0)
        by (nonlinear_arith)
        requires
            velocity.norm_squared() == velocity.x * velocity.x + velocity.z * velocity.z,
            velocity.x == 0,
            velocity.z == v,
            forward.x == 0,
            forward.z == 1_000_000_000,
            v > 0,
    ;
    assert(scale(0, BRAKE_POWER as int) == 0);
    assert(scale(UNIT as int, BRAKE_POWER as int) == BRAKE_POWER);
}

/// No step of `steps` holds any input.
pub open spec fn all_idle(steps: Seq<Step>) -> bool {
    forall|i: int| 0 <= i < steps.len() ==> (#[trigger] steps[i]).input.is_idle()
}

/// Every step of `steps` holds the left input and no other.
pub open spec fn all_left(steps: Seq<Step>) -> bool {
    forall|i: int|
        0 <= i < steps.len() ==> {
            let input = (#[trigger] steps[i]).input;
            input.left && !input.right && !input.forward && !input.backward
        }
}

/// The velocity that `ticks` ticks without input leave of `v`.
pub open spec fn decayed(v: Vec2, ticks: nat) -> Vec2
    decreases ticks,
{
    if ticks == 0 {
        v
    } else {
        limited(slowed(decayed(v, (ticks - 1) as nat)))
    }
}

/// The number of ticks without input that bring a vehicle moving at `v` to rest.
pub open spec fn ticks_to_rest(v: Vec2) -> nat
    decreases v.norm_squared(),
    via ticks_to_rest_terminates
{
    if v == Vec2::zero() {
        0
    } else {
        1 + ticks_to_rest(limited(slowed(v)))
    }
}

#[via_fn]
proof fn ticks_to_rest_terminates(v: Vec2) {
    if v != Vec2::zero() {
        lemma_limited(slowed(v));
        lemma_shorter(slowed(v), v);
        lemma_shorter(limited(slowed(v)), slowed(v));
        lemma_mag_square(limited(slowed(v)).x);
        lemma_mag_square(limited(slowed(v)).z);
    }
}

proof fn lemma_decayed_shift(v: Vec2, ticks: nat)
    requires
        ticks > 0,
    ensures
        decayed(v, ticks) == decayed(limited(slowed(v)), (ticks - 1) as nat),
    decreases ticks,
{
    let first = limited(slowed(v));
    if ticks > 1 {
        lemma_decayed_shift(v, (ticks - 1) as nat);
        assert(decayed(first, (ticks - 1) as nat) == limited(
            slowed(decayed(first, (ticks - 2) as nat)),
        ));
    } else {
        assert(decayed(v, 0) == v);
        assert(decayed(first, 0) == first);
    }
}

/// Idle decay, to the end: after `ticks_to_rest(v)` ticks without input, and for
/// ever after, a vehicle that moved at `v` stands still.
pub proof fn lemma_decays_to_rest(v: Vec2, ticks: nat)
    requires
        ticks >= ticks_to_rest(v),
    ensures
        decayed(v, ticks) == Vec2::zero(),
    decreases ticks,
{
    if ticks > 0 {
        lemma_decayed_shift(v, ticks);
        lemma_at_rest();
        lemma_decays_to_rest(limited(slowed(v)), (ticks - 1) as nat);
    }
}

/// Idle decay, over time: ticks without input leave the heading alone, follow
/// `decayed` whatever the forward vectors, never speed the vehicle up, and have
/// brought it to rest once there were `ticks_to_rest` of them.
pub proof fn lemma_coasting(car: CarState, steps: Seq<Step>)
    requires
        all_idle(steps),
    ensures
        run(car, steps).rotation_y == car.rotation_y,
        run(car, steps).velocity() == decayed(car.velocity(), steps.len()),
        run(car, steps).velocity().norm_squared() <= car.velocity().norm_squared(),
        length(run(car, steps).velocity()) <= length(car.velocity()),
        steps.len() >= ticks_to_rest(car.velocity()) ==> run(car, steps).velocity()
            == Vec2::zero(),
    decreases steps.len(),
{
    if steps.len() > 0 {
        let before = run(car, steps.drop_last());
        assert(all_idle(steps.drop_last())) by {
            assert forall|i: int| 0 <= i < steps.drop_last().len() implies (
            #[trigger] steps.drop_last()[i]).input.is_idle() by {
                assert(steps.drop_last()[i] == steps[i]);
            }
        }
        lemma_coasting(car, steps.drop_last());
        lemma_idle_tick(before, steps.last().input, steps.last().forward);
    }
    if steps.len() >= ticks_to_rest(car.velocity()) {
        lemma_decays_to_rest(car.velocity(), steps.len());
    }
}

/// Pure steering, over time: a vehicle at rest under ticks that hold only the left
/// input gains `ROTATE_SPEED` of heading with every tick and never leaves its place,
/// as long as the heading stays in range.
pub proof fn lemma_turning_in_place(car: CarState, steps: Seq<Step>)
    requires
        all_left(steps),
        car.velocity() == Vec2::zero(),
        car.rotation_y + steps.len() * ROTATE_SPEED <= i64::MAX,
    ensures
        run(car, steps).rotation_y == car.rotation_y + steps.len() * ROTATE_SPEED,
        run(car, steps).x == car.x,
        run(car, steps).z == car.z,
        run(car, steps).velocity() == Vec2::zero(),
    decreases steps.len(),
{
    if steps.len() > 0 {
        let before = run(car, steps.drop_last());
        assert(all_left(steps.drop_last())) by {
            assert forall|i: int| 0 <= i < steps.drop_last().len() implies ({
                let input = (#[trigger] steps.drop_last()[i]).input;
                input.left && !input.right && !input.forward && !input.backward
            }) by {
                assert(steps.drop_last()[i] == steps[i]);
            }
        }
        lemma_turning_in_place(car, steps.drop_last());
        lemma_steering_in_place(before, steps.last().input, steps.last().forward);
    }
}

} // verus!
