//! Discrete line- and voxel-rasterization algorithms: given two points (or
//! voxels), produce the ordered sequence of grid cells that connect them.
//!
//! Every walker is a small state machine: `new` builds the starting state,
//! `next` advances it by one emission, and `points` collects the whole path.
//! The contracts tie each walker to a specification-level sequence, and the
//! laws that relate whole traversals are stated as proof functions beside
//! each walker.

use vstd::prelude::*;

pub mod bresenham;
pub mod bresenham_3d;
pub mod bresenham_circle;
pub mod bresenham_ellipse;
pub mod fuzzing;
pub mod grid_walking;
pub mod midpoint;
pub mod octant;
pub mod rat;
pub mod steps;
pub mod walk_voxels;
pub mod xiaolin_wu;

pub use crate::bresenham::Bresenham;
pub use crate::bresenham_3d::Bresenham3d;
pub use crate::bresenham_circle::BresenhamCircle;
pub use crate::bresenham_ellipse::BresenhamEllipse;
pub use crate::fuzzing::reverse_slice;
pub use crate::grid_walking::{Supercover, WalkGrid};
pub use crate::midpoint::Midpoint;
pub use crate::octant::Octant;
pub use crate::rat::Rat;
pub use crate::steps::Steps;
pub use crate::walk_voxels::{VoxelOrigin, WalkVoxels};
pub use crate::xiaolin_wu::XiaolinWu;

verus! {

/// A point in 2D space.
pub type Point<T> = (T, T);

/// A point in 3D space.
pub type Voxel<T> = (T, T, T);

} // verus!
