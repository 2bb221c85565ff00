//! The tick itself: the motion rule computed on machine integers.
use crate::bounds::{lemma_direction, lemma_length, lemma_limited, lemma_mag_square};
use crate::fixed::{mag, saturating_sum, scaled, UNIT};
use crate::model::{
    direction, held_back, length, limited, pushed, slowed, steered, tick, ACCELERATION,
    BRAKE_POWER, FRICTION, MAX_SPEED, ROTATE_SPEED,
};
use crate::root::{ceil_sqrt, lemma_square_monotone};
use crate::state::{CarState, ForwardVector, InputState, Vec2};
use vstd::prelude::*;

verus! {

/// The largest magnitude a velocity component can reach in the middle of a tick:
/// the whole range of `i64` and the gains of one tick on top of it.
const REACH: i128 = 0x8000_0000_0100_0000;

/// A velocity in the middle of a tick, with room for the steps that leave `i64`.
struct Wide {
    x: i128,
    z: i128,
}

impl View for Wide {
    type V = Vec2;

    closed spec fn view(&self) -> Vec2 {
        Vec2 { x: self.x as int, z: self.z as int }
    }
}

/// Neither component of `v` exceeds `bound` in magnitude.
spec fn within(v: Vec2, bound: int) -> bool {
    mag(v.x) <= bound && mag(v.z) <= bound
}

fn norm_squared_of(v: &Wide) -> (n: u128)
    requires
        within(v@, REACH as int),
    ensures
        n == v@.norm_squared(),
{
    proof {
        let x = v.x as int;
        let z = v.z as int;
        assert(0 <= x * x <= 0x8000_0000_0100_0000 * 0x8000_0000_0100_0000) by (nonlinear_arith)
            requires
                -0x8000_0000_0100_0000 <= x <= 0x8000_0000_0100_0000,
        ;
        assert(0 <= z * z <= 0x8000_0000_0100_0000 * 0x8000_0000_0100_0000) by (nonlinear_arith)
            requires
                -0x8000_0000_0100_0000 <= z <= 0x8000_0000_0100_0000,
        ;
    }
    let xx: u128 = (v.x * v.x) as u128;
    let zz: u128 = (v.z * v.z) as u128;
    xx + zz
}

fn length_of(v: &Wide) -> (speed: i128)
    requires
        within(v@, REACH as int),
    ensures
        speed == length(v@),
        0 <= speed <= 0x1_0000_0000_0000_0000,
{
    let root: u128 = ceil_sqrt(norm_squared_of(v));
    root as i128
}

fn direction_of(v: &Wide, n: u128) -> (d: Wide)
    requires
        within(v@, REACH as int),
        n == v@.norm_squared(),
        n > 0,
    ensures
        d@ == direction(v@),
        within(d@, UNIT as int),
{
    proof {
        assert(v@ != Vec2::zero()) by (nonlinear_arith)
            requires
                v@.x * v@.x + v@.z * v@.z > 0,
        ;
        lemma_direction(v@);
    }
    if n < 1_000_000_000_000_000_000 {
        proof {
            let x = v.x as int;
            let z = v.z as int;
            lemma_mag_square(x);
            lemma_mag_square(z);
            if mag(x) >= UNIT {
                lemma_square_monotone(UNIT as int, mag(x));
            }
            if mag(z) >= UNIT {
                lemma_square_monotone(UNIT as int, mag(z));
            }
            assert(1 <= n * (UNIT * UNIT) < 1_000_000_000_000_000_000
                * 1_000_000_000_000_000_000) by (nonlinear_arith)
                requires
                    1 <= n < 1_000_000_000_000_000_000,
            ;
            assert(-1_000_000_000 * 1_000_000_000 <= x * UNIT <= 1_000_000_000 * 1_000_000_000)
                by (nonlinear_arith)
                requires
                    -1_000_000_000 <= x <= 1_000_000_000,
            ;
            assert(-1_000_000_000 * 1_000_000_000 <= z * UNIT <= 1_000_000_000 * 1_000_000_000)
                by (nonlinear_arith)
                requires
                    -1_000_000_000 <= z <= 1_000_000_000,
            ;
        }
        let root: u128 = ceil_sqrt(n * 1_000_000_000_000_000_000);
        let fine: i128 = root as i128;
        let unit: i128 = UNIT as i128;
        Wide { x: (v.x * unit * unit) / fine, z: (v.z * unit * unit) / fine }
    } else {
        proof {
            let x = v.x as int;
            let z = v.z as int;
            assert(n * (1 * 1) == n) by (nonlinear_arith);
            assert((x * UNIT) * 1 == x * UNIT && (z * UNIT) * 1 == z * UNIT)
                by (nonlinear_arith);
            assert(-0x8000_0000_0100_0000 * 1_000_000_000 <= x * UNIT <= 0x8000_0000_0100_0000
                * 1_000_000_000) by (nonlinear_arith)
                requires
                    -0x8000_0000_0100_0000 <= x <= 0x8000_0000_0100_0000,
            ;
            assert(-0x8000_0000_0100_0000 * 1_000_000_000 <= z * UNIT <= 0x8000_0000_0100_0000
                * 1_000_000_000) by (nonlinear_arith)
                requires
                    -0x8000_0000_0100_0000 <= z <= 0x8000_0000_0100_0000,
            ;
        }
        let root: u128 = ceil_sqrt(n);
        let coarse: i128 = root as i128;
        let unit: i128 = UNIT as i128;
        Wide { x: (v.x * unit) / coarse, z: (v.z * unit) / coarse }
    }
}

fn push(v: Wide, fx: i64, fz: i64) -> (r: Wide)
    requires
        within(v@, 0x8000_0000_0000_0000),
        mag(fx as int) <= UNIT,
        mag(fz as int) <= UNIT,
    ensures
        r@ == pushed(v@, Vec2 { x: fx as int, z: fz as int }),
        within(r@, 0x8000_0000_0000_0000 + ACCELERATION),
{
    let gain_x: i128 = scaled(fx as i128, ACCELERATION);
    let gain_z: i128 = scaled(fz as i128, ACCELERATION);
    Wide { x: v.x + gain_x, z: v.z + gain_z }
}

fn hold_back(v: Wide, fx: i64, fz: i64) -> (r: Wide)
    requires
        within(v@, 0x8000_0000_0000_0000 + ACCELERATION),
        mag(fx as int) <= UNIT,
        mag(fz as int) <= UNIT,
    ensures
        r@ == held_back(v@, Vec2 { x: fx as int, z: fz as int }),
        within(r@, REACH as int),
{
    let n: u128 = norm_squared_of(&v);
    proof {
        let x = v.x as int;
        let z = v.z as int;
        assert(-0x8000_0000_0100_0000 * 1_000_000_000 <= x * fx <= 0x8000_0000_0100_0000
            * 1_000_000_000) by (nonlinear_arith)
            requires
                -0x8000_0000_0100_0000 <= x <= 0x8000_0000_0100_0000,
                -1_000_000_000 <= fx <= 1_000_000_000,
        ;
        assert(-0x8000_0000_0100_0000 * 1_000_000_000 <= z * fz <= 0x8000_0000_0100_0000
            * 1_000_000_000) by (nonlinear_arith)
            requires
                -0x8000_0000_0100_0000 <= z <= 0x8000_0000_0100_0000,
                -1_000_000_000 <= fz <= 1_000_000_000,
        ;
    }
    let dot: i128 = v.x * (fx as i128) + v.z * (fz as i128);
    if dot > 0 && n > 0 {
        let along = direction_of(&v, n);
        let loss_x: i128 = scaled(along.x, BRAKE_POWER);
        let loss_z: i128 = scaled(along.z, BRAKE_POWER);
        Wide { x: v.x - loss_x, z: v.z - loss_z }
    } else {
        let gain_x: i128 = scaled(fx as i128, ACCELERATION);
        let gain_z: i128 = scaled(fz as i128, ACCELERATION);
        Wide { x: v.x - gain_x, z: v.z - gain_z }
    }
}

fn slow(v: Wide) -> (r: Wide)
    requires
        within(v@, REACH as int),
    ensures
        r@ == slowed(v@),
        within(r@, REACH as int),
{
    Wide { x: scaled(v.x, FRICTION), z: scaled(v.z, FRICTION) }
}

fn limit(v: Wide) -> (r: Wide)
    requires
        within(v@, REACH as int),
    ensures
        r@ == limited(v@),
        within(r@, MAX_SPEED as int),
        r@.norm_squared() <= MAX_SPEED * MAX_SPEED,
{
    let n: u128 = norm_squared_of(&v);
    proof {
        lemma_limited(v@);
    }
    if n > 40_000_000_000_000_000 {
        let along = direction_of(&v, n);
        Wide { x: scaled(along.x, MAX_SPEED), z: scaled(along.z, MAX_SPEED) }
    } else if n < 1_000_000_000_000 {
        Wide { x: 0, z: 0 }
    } else {
        v
    }
}

/// Steers: the heading that a tick gives a vehicle now heading `rotation_y`.
///
/// The forward vector that `update_car_physics` takes is the one along this heading.
pub fn steer(rotation_y: i64, input: InputState) -> (heading: i64)
    ensures
        heading == steered(rotation_y as int, input),
{
    let mut net: i64 = 0;
    if input.left {
        net = net + ROTATE_SPEED;
    }
    if input.right {
        net = net - ROTATE_SPEED;
    }
    saturating_sum(rotation_y, net)
}

/// Advances `car` by one tick under `input`, with `forward` the unit vector along
/// the heading that `steer` gives.
///
/// The result is the motion rule's, bit for bit, and never faster than `MAX_SPEED`.
pub fn update_car_physics(car: CarState, input: InputState, forward: ForwardVector) -> (next:
    CarState)
    ensures
        next == tick(car, input, forward@),
        next.velocity().norm_squared() <= MAX_SPEED * MAX_SPEED,
{
    let fx: i64 = forward.x();
    let fz: i64 = forward.z();
    let mut v = Wide { x: car.velocity_x as i128, z: car.velocity_z as i128 };
    if input.forward {
        v = push(v, fx, fz);
    }
    if input.backward {
        v = hold_back(v, fx, fz);
    }
    let v = limit(slow(v));
    let velocity_x: i64 = v.x as i64;
    let velocity_z: i64 = v.z as i64;
    CarState {
        x: saturating_sum(car.x, velocity_x),
        z: saturating_sum(car.z, velocity_z),
        rotation_y: steer(car.rotation_y, input),
        velocity_x,
        velocity_z,
    }
}

impl CarState {
    /// The vehicle's speed: the length of its velocity, rounded up to a whole
    /// billionth.
    pub fn speed(&self) -> (speed: u64)
        ensures
            speed == length(self.velocity()),
    {
        let v = Wide { x: self.velocity_x as i128, z: self.velocity_z as i128 };
        let speed: i128 = length_of(&v);
        proof {
            lemma_length(v@);
            let s = speed as int;
            let x = self.velocity_x as int;
            let z = self.velocity_z as int;
            assert(x * x <= 0x8000_0000_0000_0000 * 0x8000_0000_0000_0000) by (nonlinear_arith)
                requires
                    -0x8000_0000_0000_0000 <= x <= 0x8000_0000_0000_0000,
            ;
            assert(z * z <= 0x8000_0000_0000_0000 * 0x8000_0000_0000_0000) by (nonlinear_arith)
                requires
                    -0x8000_0000_0000_0000 <= z <= 0x8000_0000_0000_0000,
            ;
            if s > 0xffff_ffff_ffff_ffff {
                assert((s - 1) * (s - 1) >= 0xffff_ffff_ffff_ffff * 0xffff_ffff_ffff_ffff)
                    by (nonlinear_arith)
                    requires
                        s - 1 >= 0xffff_ffff_ffff_ffff,
                ;
            }
        }
        speed as u64
    }
}

} // verus!
