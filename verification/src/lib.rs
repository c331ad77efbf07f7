//! Narrow-phase collision detection and position-based constraint resolution
//! for convex bodies, on an integer lattice.
//!
//! Every quantity is an integer, so that the geometric tests are exact and
//! each function can state what it returns. Lengths are counted in lattice
//! units, `limits::ONE` to the unit of length; time in ticks,
//! `solver::TIME_ONE` to the unit of time. Where a real number would have to
//! be rounded, the nearest lattice point is taken, and the functions say so.
//!
//! - `vector`, `numeric`, `frame`, `geometry`: vectors, rounded quotients
//!   and square roots, poses, shapes and planes.
//! - `rigid`, `constraint`: bodies and the constraints on them.
//! - `collision`: the overlap search and the search for the depth of an
//!   overlap on the Minkowski difference of two bodies, the test of
//!   separating axes with the points of a contact, and the constraints that
//!   keep bodies out of the ground and out of each other.
//! - `solver`: the stepper that moves bodies and lets them give way to
//!   their constraints.
//! - `world`: two bodies and the step of a frame.
//! - `debug`: the sink for what a step wants drawn.

pub mod collision;
pub mod constraint;
pub mod debug;
pub mod frame;
pub mod geometry;
pub mod limits;
pub mod numeric;
pub mod rigid;
pub mod solver;
pub mod vector;
pub mod world;
