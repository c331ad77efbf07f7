//! The ranges within which the library computes.
//!
//! Every quantity is an integer. Lengths are counted in lattice units, and
//! `ONE` lattice units make the unit of length. The bounds below are chosen
//! so that every intermediate value of the computations fits an `i128`.

use vstd::prelude::*;

verus! {

/// The number of lattice units in the unit of length, and the length of a
/// unit vector.
pub const ONE: i128 = 0x1_0000;

/// Bound on the components of a quaternion.
pub const QUATERNION_MAX: i128 = 0x8000_0000;

/// The norm to which a quaternion is brought.
pub const UNIT_NORM: i128 = 0x4000_0000;

/// Bound on the components of a quaternion that is to be brought to norm.
pub const RAW_MAX: i128 = 0x20_0000_0000_0000;

/// Bound on the coordinates of a turn: an axis times an angle, the angle in
/// radians times `ONE`.
pub const ANGLE_MAX: i128 = 0x10_0000;

/// Bound on the coordinates of a vector that can be turned.
pub const TURN_MAX: i128 = 0x1_0000_0000;

/// Bound on the coordinates of the position of a frame.
pub const POSITION_MAX: i128 = 0x80_0000;

/// Bound on the coordinates of a point of a shape, in its own frame.
pub const LOCAL_MAX: i128 = 0x10_0000;

/// Bound on the coordinates of a point of a shape in the world: a position
/// and three times `LOCAL_MAX`.
pub const COORD_MAX: i128 = 0x100_0000;

/// Bound on the coordinates of a point of a Minkowski difference.
pub const MINKOWSKI_MAX: i128 = 0x200_0000;

/// Bound on the coordinates of the difference of two such points.
pub const EDGE_MAX: i128 = 0x400_0000;

/// Bound on the coordinates of the cross product of two such differences.
pub const NORMAL_MAX: i128 = 0x20_0000_0000_0000;

/// Bound on the coordinates of a search direction.
pub const DIRECTION_MAX: i128 = 0x8000_0000_0000_0000_0000;

} // verus!
