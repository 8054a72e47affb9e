//! A small path-tracing renderer whose arithmetic is exact fixed-point,
//! so that every stage of the kernel carries a verified contract.

pub mod camera;
pub mod color;
pub mod consts;
pub mod error;
pub mod fixed;
pub mod hittable;
pub mod material;
pub mod ray;
pub mod render;
pub mod rng;
pub mod sphere;
pub mod vector;

use vstd::prelude::*;

verus! {

} // verus!
