//! Arcade vehicle motion on the ground plane, one discrete tick at a time.
//!
//! A vehicle is a position, a heading and a velocity. Once per frame the host takes
//! a snapshot of four directional inputs and calls [`update_car_physics`], which
//! steers, accelerates or brakes, applies friction, holds the speed under a ceiling
//! and moves the vehicle. The state is never changed in place: a tick returns the
//! next state.
//!
//! Every quantity is a fixed-point integer counting billionths: of a world unit for
//! positions, of a world unit per tick for velocities, of a radian for headings. A
//! tick is therefore an exact function of its inputs, the same on every machine, and
//! what holds of it is proved rather than tested: see [`laws`].
//!
//! The one thing a tick does not compute is the direction the vehicle faces. The
//! host asks [`steer`] for the heading the tick will give the vehicle, takes that
//! angle's sine and cosine, and hands them in as a [`ForwardVector`].

pub mod bounds;
pub mod fixed;
pub mod laws;
pub mod model;
pub mod root;
pub mod state;
pub mod update;

pub use fixed::UNIT;
pub use model::{ACCELERATION, BRAKE_POWER, FRICTION, MAX_SPEED, REST_SPEED, ROTATE_SPEED};
pub use state::{CarState, ForwardVector, InputState};
pub use update::{steer, update_car_physics};
