//! The motion rule: what one tick does to a vehicle, as mathematics.
//!
//! A tick steers, applies the throttle and the brake along the forward vector, lets
//! friction act, holds the speed under its ceiling, brings a crawling vehicle to
//! rest, and moves the vehicle by the velocity that results. Each stage is a function
//! on integer vectors. Products and quotients round toward zero. Speeds are compared
//! by their squares, which are exact; where a velocity is divided by its length, the
//! length is taken to a resolution that leaves the quotient good to a few billionths.
use crate::fixed::{saturate, scale, trunc_div, UNIT};
use crate::root::ceil_root;
use crate::state::{CarState, InputState, Vec2};
use vstd::prelude::*;

verus! {

/// Velocity gained per tick while accelerating.
pub const ACCELERATION: i64 = 5_000_000;

/// The ceiling that a tick holds the speed under.
pub const MAX_SPEED: i64 = 200_000_000;

/// The factor by which every tick scales the velocity.
pub const FRICTION: i64 = 980_000_000;

/// Speed lost per tick while braking.
pub const BRAKE_POWER: i64 = 10_000_000;

/// Heading gained or lost per tick while turning.
pub const ROTATE_SPEED: i64 = 40_000_000;

/// The speed below which a tick brings the vehicle to rest.
pub const REST_SPEED: i64 = 1_000_000;

/// The length of `v`, rounded up to a whole billionth: the speed that a state
/// reports. The motion rule itself compares squared lengths.
pub open spec fn length(v: Vec2) -> int {
    ceil_root(v.norm_squared())
}

/// The turn that the steering inputs ask for: left adds `ROTATE_SPEED`, right takes
/// it away. Neither excludes the other, and together they cancel.
pub open spec fn turn(input: InputState) -> int {
    (if input.left {
        ROTATE_SPEED as int
    } else {
        0
    }) - (if input.right {
        ROTATE_SPEED as int
    } else {
        0
    })
}

/// The heading after steering: the old heading and the turn, held to the range of
/// `i64`.
pub open spec fn steered(heading: int, input: InputState) -> int {
    saturate(heading + turn(input))
}

/// `v` divided by its length measured in steps of one `k`-th of a billionth: each
/// component is multiplied by `UNIT`, divided by the length rounded up to such a
/// step, and rounded toward zero.
pub open spec fn direction_at(v: Vec2, k: int) -> Vec2 {
    let root = ceil_root(v.norm_squared() * (k * k));
    Vec2 { x: trunc_div(v.x * UNIT * k, root), z: trunc_div(v.z * UNIT * k, root) }
}

/// The unit vector along a velocity `v` that is not zero, in billionths.
///
/// Below a speed of one the length is measured a billion times finer than the
/// velocity itself, at or above it to the billionth: either way the length is right
/// to one part in a billion, and so is the vector.
pub open spec fn direction(v: Vec2) -> Vec2 {
    if v.norm_squared() < UNIT * UNIT {
        direction_at(v, UNIT as int)
    } else {
        direction_at(v, 1)
    }
}

/// The velocity after accelerating along `forward`.
pub open spec fn pushed(v: Vec2, forward: Vec2) -> Vec2 {
    Vec2 {
        x: v.x + scale(forward.x, ACCELERATION as int),
        z: v.z + scale(forward.z, ACCELERATION as int),
    }
}

/// The velocity after accelerating against `forward`.
pub open spec fn pulled(v: Vec2, forward: Vec2) -> Vec2 {
    Vec2 {
        x: v.x - scale(forward.x, ACCELERATION as int),
        z: v.z - scale(forward.z, ACCELERATION as int),
    }
}

/// The vehicle moves and its velocity points along `forward` rather than against it.
pub open spec fn moving_forward(v: Vec2, forward: Vec2) -> bool {
    v.x * forward.x + v.z * forward.z > 0 && v.norm_squared() > 0
}

/// What braking takes off a velocity: `BRAKE_POWER` along the velocity's own
/// direction.
pub open spec fn brake_loss(v: Vec2) -> Vec2 {
    Vec2 {
        x: scale(direction(v).x, BRAKE_POWER as int),
        z: scale(direction(v).z, BRAKE_POWER as int),
    }
}

/// The velocity after braking.
pub open spec fn braked(v: Vec2) -> Vec2 {
    Vec2 { x: v.x - brake_loss(v).x, z: v.z - brake_loss(v).z }
}

/// The velocity after the backward input: a vehicle moving forward brakes, any other
/// accelerates backward.
pub open spec fn held_back(v: Vec2, forward: Vec2) -> Vec2 {
    if moving_forward(v, forward) {
        braked(v)
    } else {
        pulled(v, forward)
    }
}

/// The velocity after the forward and the backward input, in that order. Both apply
/// when both are held.
pub open spec fn driven(v: Vec2, input: InputState, forward: Vec2) -> Vec2 {
    let after_throttle = if input.forward {
        pushed(v, forward)
    } else {
        v
    };
    if input.backward {
        held_back(after_throttle, forward)
    } else {
        after_throttle
    }
}

/// The velocity after friction.
pub open spec fn slowed(v: Vec2) -> Vec2 {
    Vec2 { x: scale(v.x, FRICTION as int), z: scale(v.z, FRICTION as int) }
}

/// The velocity after the speed limits. Longer than `MAX_SPEED`, it is rescaled to
/// `MAX_SPEED` along its own direction; shorter than `REST_SPEED`, it becomes zero.
/// Both comparisons are made on the squared length, and so are exact.
pub open spec fn limited(v: Vec2) -> Vec2 {
    if v.norm_squared() > MAX_SPEED * MAX_SPEED {
        Vec2 {
            x: scale(direction(v).x, MAX_SPEED as int),
            z: scale(direction(v).z, MAX_SPEED as int),
        }
    } else if v.norm_squared() < REST_SPEED * REST_SPEED {
        Vec2::zero()
    } else {
        v
    }
}

/// The velocity that a tick leaves the vehicle with.
pub open spec fn next_velocity(v: Vec2, input: InputState, forward: Vec2) -> Vec2 {
    limited(slowed(driven(v, input, forward)))
}

/// The state that one tick turns `car` into, given the input snapshot and the unit
/// vector along the steered heading.
pub open spec fn tick(car: CarState, input: InputState, forward: Vec2) -> CarState {
    let v = next_velocity(car.velocity(), input, forward);
    CarState {
        x: saturate(car.x + v.x) as i64,
        z: saturate(car.z + v.z) as i64,
        rotation_y: steered(car.rotation_y as int, input) as i64,
        velocity_x: v.x as i64,
        velocity_z: v.z as i64,
    }
}

/// One tick's worth of outside input: the snapshot and the forward vector.
pub struct Step {
    pub input: InputState,
    pub forward: Vec2,
}

/// The state after the ticks of `steps`, first to last, each starting from the state
/// the one before it left.
pub open spec fn run(car: CarState, steps: Seq<Step>) -> CarState
    decreases steps.len(),
{
    if steps.len() == 0 {
        car
    } else {
        tick(run(car, steps.drop_last()), steps.last().input, steps.last().forward)
    }
}

} // verus!
