//! Rays: an origin point together with a direction vector.

use vstd::prelude::*;
use crate::fixed::{add_ok, fmul_s, mul_ok, Fixed};
use crate::vector::{Point3, Vec3, Vec3d};

verus! {

/// Rays in the 3D space, parametrized as `origin + t * direction`.
#[derive(Clone, Copy, Debug, PartialEq, Eq, Structural)]
pub struct Ray {
    pub origin: Point3,
    pub direction: Vec3,
}

/// The point reached after travelling `t` along the ray.
pub open spec fn ray_at3_s(r: Ray, t: int) -> Vec3d {
    Vec3d {
        x: Fixed { raw: (r.origin.x.raw + fmul_s(r.direction.x.raw as int, t)) as i128 },
        y: Fixed { raw: (r.origin.y.raw + fmul_s(r.direction.y.raw as int, t)) as i128 },
        z: Fixed { raw: (r.origin.z.raw + fmul_s(r.direction.z.raw as int, t)) as i128 },
    }
}

/// The products and sums of `ray_at3_s` stay in range.
pub open spec fn ray_at3_ok(r: Ray, t: int) -> bool {
    &&& mul_ok(r.direction.x.raw as int, t)
    &&& mul_ok(r.direction.y.raw as int, t)
    &&& mul_ok(r.direction.z.raw as int, t)
    &&& add_ok(r.origin.x.raw as int, fmul_s(r.direction.x.raw as int, t))
    &&& add_ok(r.origin.y.raw as int, fmul_s(r.direction.y.raw as int, t))
    &&& add_ok(r.origin.z.raw as int, fmul_s(r.direction.z.raw as int, t))
}

impl Ray {
    pub fn new(origin: Point3, direction: Vec3) -> (r: Ray)
        ensures
            r == (Ray { origin, direction }),
    {
        Ray { origin, direction }
    }

    /// `origin + t * direction`.
    pub fn at(&self, t: Fixed) -> (p: Point3)
        requires
            ray_at3_ok(*self, t.raw as int),
        ensures
            p == ray_at3_s(*self, t.raw as int),
    {
        self.origin.add(self.direction.scale(t))
    }
}

} // verus!
