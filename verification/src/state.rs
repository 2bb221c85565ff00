//! The values that cross the boundary of a tick: the vehicle's kinematic state, the
//! input snapshot, and the unit vector the vehicle faces along.
use crate::fixed::UNIT;
use vstd::prelude::*;

verus! {

/// A pair of ground-plane components, as mathematical integers.
pub struct Vec2 {
    pub x: int,
    pub z: int,
}

impl Vec2 {
    /// The square of the vector's length.
    pub open spec fn norm_squared(self) -> int {
        self.x * self.x + self.z * self.z
    }

    /// The vector with both components zero.
    pub open spec fn zero() -> Vec2 {
        Vec2 { x: 0, z: 0 }
    }
}

/// Where a vehicle is, which way it faces and how fast it moves, in billionths:
/// position in world units, heading in radians, velocity in world units per tick.
#[derive(Clone, Copy, Debug, PartialEq, Eq, Structural)]
pub struct CarState {
    pub x: i64,
    pub z: i64,
    pub rotation_y: i64,
    pub velocity_x: i64,
    pub velocity_z: i64,
}

impl CarState {
    /// The velocity as a vector.
    pub open spec fn velocity(self) -> Vec2 {
        Vec2 { x: self.velocity_x as int, z: self.velocity_z as int }
    }

    /// Builds a state from its five raw fields.
    pub fn new(x: i64, z: i64, rotation_y: i64, velocity_x: i64, velocity_z: i64) -> (car:
        CarState)
        ensures
            car == (CarState { x, z, rotation_y, velocity_x, velocity_z }),
    {
        CarState { x, z, rotation_y, velocity_x, velocity_z }
    }
}

/// The four directional inputs sampled for one tick. Any combination is accepted.
#[derive(Clone, Copy, Debug, PartialEq, Eq, Structural)]
pub struct InputState {
    pub forward: bool,
    pub backward: bool,
    pub left: bool,
    pub right: bool,
}

impl InputState {
    /// No input is held.
    pub open spec fn is_idle(self) -> bool {
        !self.forward && !self.backward && !self.left && !self.right
    }

    /// Builds a snapshot from its four raw flags.
    pub fn new(forward: bool, backward: bool, left: bool, right: bool) -> (input: InputState)
        ensures
            input == (InputState { forward, backward, left, right }),
    {
        InputState { forward, backward, left, right }
    }
}

/// `(x, z)` is a unit vector up to rounding: neither component exceeds one, and the
/// length is within two billionths of one.
pub open spec fn is_direction(x: int, z: int) -> bool {
    &&& -UNIT <= x <= UNIT
    &&& -UNIT <= z <= UNIT
    &&& (UNIT - 2) * (UNIT - 2) <= x * x + z * z <= (UNIT + 2) * (UNIT + 2)
}

/// The direction a vehicle faces: the sine and cosine of its heading, in billionths.
#[derive(Clone, Copy, Debug, PartialEq, Eq)]
pub struct ForwardVector {
    x: i64,
    z: i64,
}

impl View for ForwardVector {
    type V = Vec2;

    closed spec fn view(&self) -> Vec2 {
        Vec2 { x: self.x as int, z: self.z as int }
    }
}

impl ForwardVector {
    #[verifier::type_invariant]
    spec fn well_formed(self) -> bool {
        is_direction(self.x as int, self.z as int)
    }

    /// Accepts `(x, z)` exactly when it is a unit vector up to rounding.
    pub fn new(x: i64, z: i64) -> (forward: Option<ForwardVector>)
        ensures
            forward is Some <==> is_direction(x as int, z as int),
            forward matches Some(f) ==> f@ == (Vec2 { x: x as int, z: z as int }),
    {
        if x < -UNIT || x > UNIT || z < -UNIT || z > UNIT {
            return None;
        }
        assert(0 <= x * x <= 1_000_000_000 * 1_000_000_000) by (nonlinear_arith)
            requires
                -1_000_000_000 <= x <= 1_000_000_000,
        ;
        assert(0 <= z * z <= 1_000_000_000 * 1_000_000_000) by (nonlinear_arith)
            requires
                -1_000_000_000 <= z <= 1_000_000_000,
        ;
        let norm: i128 = (x as i128) * (x as i128) + (z as i128) * (z as i128);
        let low: i128 = ((UNIT - 2) as i128) * ((UNIT - 2) as i128);
        let high: i128 = ((UNIT + 2) as i128) * ((UNIT + 2) as i128);
        if low <= norm && norm <= high {
            Some(ForwardVector { x, z })
        } else {
            None
        }
    }

    /// The component along the x axis: the sine of the heading.
    pub fn x(&self) -> (x: i64)
        ensures
            x == self@.x,
            is_direction(self@.x, self@.z),
    {
        proof {
            use_type_invariant(self);
        }
        self.x
    }

    /// The component along the z axis: the cosine of the heading.
    pub fn z(&self) -> (z: i64)
        ensures
            z == self@.z,
            is_direction(self@.x, self@.z),
    {
        proof {
            use_type_invariant(self);
        }
        self.z
    }
}

} // verus!
