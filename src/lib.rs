//! A software 3D rendering pipeline in fixed-point arithmetic.
//!
//! Coordinates are `i64` values with 16 fractional bits (`fixed::ONE` is one world
//! unit). A frame takes a triangle mesh through an animation, back-face culling, the
//! camera's view, a near-plane clip, a perspective projection and divide, the viewport
//! map, a deepest-first sort and a clip to the surface's edges. Every stage is stated
//! exactly over the integers, and the laws of clipping, sorting, culling and rotation
//! are proved.

use vstd::prelude::*;

pub mod camera;
pub mod fixed;
pub mod loader;
pub mod scene;
pub mod transforms;
pub mod tri2d;
pub mod tri3d;
pub mod vec2d;
pub mod vec3d;

verus! {

} // verus!
