//! Fixed-point spatial math.
//!
//! Positions, velocities and rotations are carried in thousandths of a unit
//! (milli-units), so that motion bookkeeping stays exact. A velocity is
//! derived by the caller as a finite difference of two positions over the
//! elapsed milliseconds of its own update tick; the engine does not
//! interpolate motion between updates.

use vstd::prelude::*;

verus! {

/// Coordinate bound (in milli-units) under which velocity derivation is
/// exact and free of overflow.
pub const MOTION_BOUND: i64 = 1_000_000_000_000;

/// A three-dimensional vector in milli-units.
#[derive(Clone, Copy, Debug, PartialEq, Eq, Structural)]
pub struct Vec3 {
    /// Milli-units along the x axis.
    pub x: i64,
    /// Milli-units along the y axis.
    pub y: i64,
    /// Milli-units along the z axis.
    pub z: i64,
}

/// A rotation quaternion with milli-unit components.
#[derive(Clone, Copy, Debug, PartialEq, Eq, Structural)]
pub struct Quat {
    /// Milli-units of the x component.
    pub x: i64,
    /// Milli-units of the y component.
    pub y: i64,
    /// Milli-units of the z component.
    pub z: i64,
    /// Milli-units of the w (scalar) component.
    pub w: i64,
}

impl Vec3 {
    /// The zero vector.
    pub fn zero() -> (v: Vec3)
        ensures
            v == (Vec3 { x: 0, y: 0, z: 0 }),
    {
        Vec3 { x: 0, y: 0, z: 0 }
    }
}

impl Quat {
    /// The identity rotation.
    pub fn identity() -> (q: Quat)
        ensures
            q == (Quat { x: 0, y: 0, z: 0, w: 1000 }),
    {
        Quat { x: 0, y: 0, z: 0, w: 1000 }
    }
}

/// Integer division that rounds toward zero, as machine division does.
pub open spec fn div_trunc(a: int, b: int) -> int
    recommends
        b > 0,
{
    if a >= 0 {
        a / b
    } else {
        -((-a) / b)
    }
}

/// Every coordinate of `v` lies within `MOTION_BOUND`.
pub open spec fn in_motion_range(v: Vec3) -> bool {
    &&& -MOTION_BOUND <= v.x <= MOTION_BOUND
    &&& -MOTION_BOUND <= v.y <= MOTION_BOUND
    &&& -MOTION_BOUND <= v.z <= MOTION_BOUND
}

/// `(diff * 1000) / delta_millis`, rounded toward zero: the per-second rate
/// of a change of `diff` milli-units over `delta_millis` milliseconds.
fn scaled_rate(diff: i64, delta_millis: u32) -> (rate: i64)
    requires
        delta_millis > 0,
        -2 * MOTION_BOUND <= diff <= 2 * MOTION_BOUND,
    ensures
        rate == div_trunc(diff * 1000, delta_millis as int),
{
    if diff >= 0 {
        let scaled: u64 = (diff as u64) * 1000;
        (scaled / (delta_millis as u64)) as i64
    } else {
        let magnitude: i64 = -diff;
        let scaled: u64 = (magnitude as u64) * 1000;
        let q: i64 = (scaled / (delta_millis as u64)) as i64;
        -q
    }
}

/// Derive a velocity (milli-units per second) as the finite difference of
/// two positions over the elapsed milliseconds, each component rounded
/// toward zero.
pub fn derive_velocity(previous: Vec3, current: Vec3, delta_millis: u32) -> (velocity: Vec3)
    requires
        delta_millis > 0,
        in_motion_range(previous),
        in_motion_range(current),
    ensures
        velocity.x == div_trunc((current.x - previous.x) * 1000, delta_millis as int),
        velocity.y == div_trunc((current.y - previous.y) * 1000, delta_millis as int),
        velocity.z == div_trunc((current.z - previous.z) * 1000, delta_millis as int),
{
    Vec3 {
        x: scaled_rate(current.x - previous.x, delta_millis),
        y: scaled_rate(current.y - previous.y, delta_millis),
        z: scaled_rate(current.z - previous.z, delta_millis),
    }
}

} // verus!
