//! A flocking simulation with predators, in fixed-point arithmetic: agents
//! steer by alignment, cohesion, avoidance and a pull toward the origin,
//! predators chase and remove the nearest prey, and the world wraps around at
//! a padded viewport.

use vstd::prelude::*;

pub mod fixed;
pub mod vector;
pub mod model;
pub mod steering;
pub mod hunting;
pub mod motion;
pub mod world;

verus! {
} // verus!
