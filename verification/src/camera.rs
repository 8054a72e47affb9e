//! The virtual camera: maps image-plane fractions to rays from the eye.

use vstd::prelude::*;
use crate::fixed::{iabs, lemma_fmul_bound, mul_ok, Fixed, SCALE};
use crate::ray::Ray;
use crate::vector::{add3_s, scale3_s, sub3_s, Point, Vec3, Vec3d};

verus! {

/// The eye point and the derived viewport geometry.
#[derive(Clone, Copy, Debug, PartialEq, Eq, Structural)]
pub struct Camera {
    pub origin: Point,
    pub lower_left_corner: Point,
    pub horizontal: Vec3,
    pub vertical: Vec3,
}

/// Camera geometry small enough for the ray arithmetic.
pub open spec fn camera_wf(c: Camera) -> bool {
    &&& iabs(c.origin.x.raw as int) <= 0x100000
    &&& iabs(c.origin.y.raw as int) <= 0x100000
    &&& iabs(c.origin.z.raw as int) <= 0x100000
    &&& iabs(c.lower_left_corner.x.raw as int) <= 0x100000
    &&& iabs(c.lower_left_corner.y.raw as int) <= 0x100000
    &&& iabs(c.lower_left_corner.z.raw as int) <= 0x100000
    &&& iabs(c.horizontal.x.raw as int) <= 0x100000
    &&& iabs(c.horizontal.y.raw as int) <= 0x100000
    &&& iabs(c.horizontal.z.raw as int) <= 0x100000
    &&& iabs(c.vertical.x.raw as int) <= 0x100000
    &&& iabs(c.vertical.y.raw as int) <= 0x100000
    &&& iabs(c.vertical.z.raw as int) <= 0x100000
}

/// The direction from the eye through the image-plane point `(u, v)`.
pub open spec fn camera_dir_s(c: Camera, u: Fixed, v: Fixed) -> Vec3 {
    sub3_s(
        add3_s(add3_s(c.lower_left_corner, scale3_s(c.horizontal, u)), scale3_s(c.vertical, v)),
        c.origin,
    )
}

impl Default for Camera {
    /// A camera with a 16:9 aspect ratio, a viewport two units high, a
    /// focal length of one, and the eye at the world origin.
    fn default() -> (c: Camera)
        ensures
            camera_wf(c),
            c.origin == (Vec3d { x: Fixed { raw: 0 }, y: Fixed { raw: 0 }, z: Fixed { raw: 0 } }),
            c.horizontal == (Vec3d {
                x: Fixed { raw: 233016 },
                y: Fixed { raw: 0 },
                z: Fixed { raw: 0 },
            }),
            c.vertical == (Vec3d {
                x: Fixed { raw: 0 },
                y: Fixed { raw: 131072 },
                z: Fixed { raw: 0 },
            }),
            c.lower_left_corner == (Vec3d {
                x: Fixed { raw: -116508i128 },
                y: Fixed { raw: -65536i128 },
                z: Fixed { raw: -65536i128 },
            }),
    {
        let sixteen = Fixed::from_int(16);
        let nine = Fixed::from_int(9);
        let aspect_ratio = sixteen.div(nine);
        proof {
            assert(1048576int * 65536 == 589824 * 116508 + 262144) by (nonlinear_arith);
            vstd::arithmetic::div_mod::lemma_fundamental_div_mod_converse(
                1048576int * 65536,
                589824,
                116508,
                262144,
            );
            assert(aspect_ratio.raw == 116508);
        }
        let viewport_height = Fixed::from_int(2);
        let viewport_width = viewport_height.mul(aspect_ratio);
        proof {
            assert(131072int * 116508 == 65536 * 233016 + 0) by (nonlinear_arith);
            vstd::arithmetic::div_mod::lemma_fundamental_div_mod_converse(
                131072int * 116508,
                65536,
                233016,
                0,
            );
            assert(viewport_width.raw == 233016);
        }
        let focal_height = Fixed::from_int(1);

        let origin = Vec3d::new(Fixed::zero(), Fixed::zero(), Fixed::zero());
        let horizontal = Vec3d::new(viewport_width, Fixed::zero(), Fixed::zero());
        let vertical = Vec3d::new(Fixed::zero(), viewport_height, Fixed::zero());
        let two = Fixed::from_int(2);
        proof {
            assert(233016int * 65536 == 131072 * 116508 + 0) by (nonlinear_arith);
            vstd::arithmetic::div_mod::lemma_fundamental_div_mod_converse(
                233016int * 65536,
                131072,
                116508,
                0,
            );
            assert(131072int * 65536 == 131072 * 65536 + 0) by (nonlinear_arith);
            vstd::arithmetic::div_mod::lemma_fundamental_div_mod_converse(
                131072int * 65536,
                131072,
                65536,
                0,
            );
            assert(0int * 65536 == 131072 * 0 + 0) by (nonlinear_arith);
            vstd::arithmetic::div_mod::lemma_fundamental_div_mod_converse(
                0int * 65536,
                131072,
                0,
                0,
            );
        }
        let lower_left_corner = origin.sub(horizontal.div(two)).sub(vertical.div(two)).sub(
            Vec3d::new(Fixed::zero(), Fixed::zero(), focal_height),
        );
        proof {
            assert(lower_left_corner.x.raw == -116508);
            assert(lower_left_corner.y.raw == -65536);
            assert(lower_left_corner.z.raw == -65536);
        }

        Camera { origin, lower_left_corner, horizontal, vertical }
    }
}

impl Camera {
    /// The ray from the eye through the image-plane point `(u, v)`, where
    /// `u` and `v` are fractions of the viewport, normally in `[0, 1]`.
    pub fn get_ray(&self, u: Fixed, v: Fixed) -> (r: Ray)
        requires
            camera_wf(*self),
            0 <= u.raw <= 2 * SCALE,
            0 <= v.raw <= 2 * SCALE,
        ensures
            r.origin == self.origin,
            r.direction == camera_dir_s(*self, u, v),
            iabs(r.direction.x.raw as int) <= 0x1000000,
            iabs(r.direction.y.raw as int) <= 0x1000000,
            iabs(r.direction.z.raw as int) <= 0x1000000,
    {
        proof {
            lemma_fmul_bound(self.horizontal.x.raw as int, u.raw as int, 0x100000, 0x20000);
            lemma_fmul_bound(self.horizontal.y.raw as int, u.raw as int, 0x100000, 0x20000);
            lemma_fmul_bound(self.horizontal.z.raw as int, u.raw as int, 0x100000, 0x20000);
            lemma_fmul_bound(self.vertical.x.raw as int, v.raw as int, 0x100000, 0x20000);
            lemma_fmul_bound(self.vertical.y.raw as int, v.raw as int, 0x100000, 0x20000);
            lemma_fmul_bound(self.vertical.z.raw as int, v.raw as int, 0x100000, 0x20000);
        }
        Ray::new(
            self.origin,
            self.lower_left_corner.add(self.horizontal.scale(u)).add(self.vertical.scale(v)).sub(
                self.origin,
            ),
        )
    }
}

} // verus!
