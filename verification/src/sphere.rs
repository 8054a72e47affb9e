//! Spheres and the ray–sphere intersection test.
//!
//! The intersection solves the quadratic `|origin + t*d - center|^2 = r^2`
//! with the half-b substitution, in truncating fixed-point arithmetic.
//! The spec functions below describe the computed quantities exactly, so
//! `Sphere::hit` can promise its result to the last bit.

use vstd::prelude::*;
use vstd::arithmetic::div_mod::lemma_fundamental_div_mod;
use crate::fixed::{
    add_ok, div_num_ok, fdiv_s, fmul_s, fsqrt_s, iabs, lemma_fmul_bound, lemma_fmul_of_multiple,
    lemma_fmul_sq_nonneg, lemma_fsqrt_le, lemma_fsqrt_nonneg, mul_ok, Fixed, SCALE,
};
use crate::hittable::{facing_normal, is_front_face, rec_wf, HitRecord};
use crate::material::{material_wf, Material};
use crate::ray::{ray_at3_s, Ray};
use crate::vector::{
    dot3_ok, dot3_s, lemma_dot3_bound, lemma_dot3_neg_both, lemma_len3_ok_dot,
    lemma_normal3_props, len3_ok, normal3_s, sub3_s, Point3, Vec3d,
};

verus! {

/// Largest admissible magnitude for a ray origin component.
pub const ORIGIN_CAP: i128 = 0x8000000000000;

/// Largest admissible magnitude for a ray direction component.
pub const DIR_CAP: i128 = 0x1000000;

/// Largest admissible magnitude for a sphere center component.
pub const CENTER_CAP: i128 = 0x10000000000;

/// Largest admissible sphere radius.
pub const RADIUS_CAP: i128 = 0x10000000000;

/// Largest admissible magnitude for the `t` window of an intersection.
pub const T_CAP: i128 = 0x1000000000;

/// How far a hit point can drift from the ray origin in one bounce:
/// `T_CAP * DIR_CAP / SCALE`.
pub const HIT_GROWTH: i128 = 0x100000000000;

/// A sphere with its intersection arithmetic in range.
pub open spec fn sphere_wf(s: Sphere) -> bool {
    &&& iabs(s.center.x.raw as int) <= CENTER_CAP
    &&& iabs(s.center.y.raw as int) <= CENTER_CAP
    &&& iabs(s.center.z.raw as int) <= CENTER_CAP
    &&& 0 < s.radius.raw <= RADIUS_CAP
    &&& material_wf(s.material)
}

/// A ray whose intersection arithmetic stays in range.
pub open spec fn ray_in_range(r: Ray) -> bool {
    &&& iabs(r.origin.x.raw as int) <= ORIGIN_CAP
    &&& iabs(r.origin.y.raw as int) <= ORIGIN_CAP
    &&& iabs(r.origin.z.raw as int) <= ORIGIN_CAP
    &&& iabs(r.direction.x.raw as int) <= DIR_CAP
    &&& iabs(r.direction.y.raw as int) <= DIR_CAP
    &&& iabs(r.direction.z.raw as int) <= DIR_CAP
}

/// From the ray origin toward the sphere center, negated: `origin - center`.
pub open spec fn oc3(s: Sphere, r: Ray) -> Vec3d {
    sub3_s(r.origin, s.center)
}

/// Quadratic coefficient `a`: the direction's squared length.
pub open spec fn sphere_qa(r: Ray) -> int {
    dot3_s(r.direction, r.direction)
}

/// Half the quadratic coefficient `b`.
pub open spec fn sphere_qhb(s: Sphere, r: Ray) -> int {
    dot3_s(oc3(s, r), r.direction)
}

/// Quadratic coefficient `c`: `|oc|^2 - radius^2`.
pub open spec fn sphere_qc(s: Sphere, r: Ray) -> int {
    dot3_s(oc3(s, r), oc3(s, r)) - fmul_s(s.radius.raw as int, s.radius.raw as int)
}

/// The discriminant of the half-b quadratic.
pub open spec fn sphere_disc(s: Sphere, r: Ray) -> int {
    fmul_s(sphere_qhb(s, r), sphere_qhb(s, r)) - fmul_s(sphere_qa(r), sphere_qc(s, r))
}

/// The near root of the quadratic.
pub open spec fn sphere_root1(s: Sphere, r: Ray) -> int {
    fdiv_s(-sphere_qhb(s, r) - fsqrt_s(sphere_disc(s, r)), sphere_qa(r))
}

/// The far root of the quadratic.
pub open spec fn sphere_root2(s: Sphere, r: Ray) -> int {
    fdiv_s(-sphere_qhb(s, r) + fsqrt_s(sphere_disc(s, r)), sphere_qa(r))
}

/// The parametric distance the intersection reports: the near root if it
/// lies in the window, else the far root if it does, else nothing.
/// A direction of zero squared length hits nothing.
pub open spec fn sphere_hit_t(s: Sphere, r: Ray, t_min: int, t_max: int) -> Option<int> {
    if sphere_qa(r) == 0 {
        Option::None
    } else if sphere_disc(s, r) < 0 {
        Option::None
    } else if t_min <= sphere_root1(s, r) <= t_max {
        Option::Some(sphere_root1(s, r))
    } else if t_min <= sphere_root2(s, r) <= t_max {
        Option::Some(sphere_root2(s, r))
    } else {
        Option::None
    }
}

/// The record the intersection reports. A hit point that lands exactly on
/// the center (possible only by truncation, for a tiny sphere) has no
/// usable normal and reports no hit.
pub open spec fn sphere_hit_s(s: Sphere, r: Ray, t_min: int, t_max: int) -> Option<HitRecord> {
    match sphere_hit_t(s, r, t_min, t_max) {
        Option::None => Option::None,
        Option::Some(t) => {
            let p = ray_at3_s(r, t);
            let pc = sub3_s(p, s.center);
            if dot3_s(pc, pc) == 0 {
                Option::None
            } else {
                let outward = normal3_s(pc);
                Option::Some(
                    HitRecord {
                        p,
                        t: Fixed { raw: t as i128 },
                        normal: facing_normal(r, outward),
                        front_face: is_front_face(r, outward),
                        material: s.material,
                    },
                )
            }
        },
    }
}

/// 3D hittable spheres: center, radius and the material of the surface.
#[derive(Clone, Copy, Debug, PartialEq, Eq, Structural)]
pub struct Sphere {
    pub center: Point3,
    pub radius: Fixed,
    pub material: Material,
}

impl Sphere {
    pub fn new(center: Point3, radius: Fixed, material: Material) -> (s: Sphere)
        requires
            sphere_wf(Sphere { center, radius, material }),
        ensures
            s == (Sphere { center, radius, material }),
    {
        Sphere { center, radius, material }
    }

    /// The closest intersection of `ray` with this sphere whose parametric
    /// distance lies in `[t_min, t_max]`, described bit-exactly by
    /// `sphere_hit_s`.
    pub fn hit(&self, ray: &Ray, t_min: Fixed, t_max: Fixed) -> (res: Option<HitRecord>)
        requires
            sphere_wf(*self),
            ray_in_range(*ray),
            iabs(t_min.raw as int) <= T_CAP,
            iabs(t_max.raw as int) <= T_CAP,
        ensures
            res == sphere_hit_s(*self, *ray, t_min.raw as int, t_max.raw as int),
            res matches Some(rec) ==> {
                &&& t_min.raw <= rec.t.raw <= t_max.raw
                &&& rec.material == self.material
                &&& rec_wf(rec)
                &&& iabs(rec.p.x.raw as int) <= iabs(ray.origin.x.raw as int) + HIT_GROWTH
                &&& iabs(rec.p.y.raw as int) <= iabs(ray.origin.y.raw as int) + HIT_GROWTH
                &&& iabs(rec.p.z.raw as int) <= iabs(ray.origin.z.raw as int) + HIT_GROWTH
            },
    {
        proof {
            lemma_hit_bounds(*self, *ray);
        }
        let oc = ray.origin.sub(self.center);
        proof {
            assert(oc == oc3(*self, *ray));
        }
        let a = ray.direction.dot(ray.direction);
        let half_b = oc.dot(ray.direction);
        let c = oc.len_squared().sub(self.radius.mul(self.radius));
        proof {
            assert(a.raw == sphere_qa(*ray));
            assert(half_b.raw == sphere_qhb(*self, *ray));
            assert(c.raw == sphere_qc(*self, *ray));
        }

        if a.raw == 0 {
            return None;
        }
        let disc = half_b.mul(half_b).sub(a.mul(c));
        proof {
            assert(disc.raw == sphere_disc(*self, *ray));
        }
        if disc.raw < 0 {
            return None;
        }
        let sqrtd = disc.sqrt();
        proof {
            lemma_fsqrt_le(sphere_disc(*self, *ray), 0x8000000000000000);
            assert(iabs(-half_b.raw - sqrtd.raw) <= 0xB000000000000000);
            assert(iabs(-half_b.raw + sqrtd.raw) <= 0xB000000000000000);
        }

        let mut root = half_b.neg().sub(sqrtd).div(a);
        if root.raw < t_min.raw || root.raw > t_max.raw {
            root = half_b.neg().add(sqrtd).div(a);
            if root.raw < t_min.raw || root.raw > t_max.raw {
                return None;
            }
        }

        proof {
            lemma_fmul_bound(ray.direction.x.raw as int, root.raw as int, DIR_CAP as int, T_CAP as int);
            lemma_fmul_bound(ray.direction.y.raw as int, root.raw as int, DIR_CAP as int, T_CAP as int);
            lemma_fmul_bound(ray.direction.z.raw as int, root.raw as int, DIR_CAP as int, T_CAP as int);
        }
        let p = ray.at(root);
        let pc = p.sub(self.center);
        proof {
            lemma_len3_ok_dot(pc);
        }
        let ls = pc.len_squared();
        if ls.raw == 0 {
            return None;
        }
        proof {
            lemma_normal3_props(pc);
        }
        let outward_normal = pc.normal();
        proof {
            lemma_dot3_bound(ray.direction, outward_normal, DIR_CAP as int, 131072);
            if !is_front_face(*ray, outward_normal) {
                lemma_dot3_neg_both(outward_normal);
            }
        }
        let mut record = HitRecord::new(p, root, self.material);
        record.set_face_normal(ray, outward_normal);
        Some(record)
    }
}

/// Checks if a ray hits a sphere: the near root of the quadratic, or the
/// fixed-point minus one where the discriminant is negative.
pub fn hit_sphere(center: Point3, radius: Fixed, ray: &Ray) -> (res: Fixed)
    requires
        sphere_wf(Sphere { center, radius, material: hit_sphere_any_material() }),
        ray_in_range(*ray),
        sphere_qa(*ray) != 0,
    ensures
        ({
            let s = Sphere { center, radius, material: hit_sphere_any_material() };
            if sphere_disc(s, *ray) < 0 {
                res.raw == -(SCALE as int)
            } else {
                res.raw == sphere_root1(s, *ray)
            }
        }),
{
    let s = Sphere { center, radius, material: hit_sphere_any_material_ex() };
    proof {
        lemma_hit_bounds(s, *ray);
    }
    let oc = ray.origin.sub(center);
    let a = ray.direction.dot(ray.direction);
    let half_b = oc.dot(ray.direction);
    let c = oc.len_squared().sub(radius.mul(radius));
    let disc = half_b.mul(half_b).sub(a.mul(c));
    if disc.raw < 0 {
        Fixed { raw: -SCALE }
    } else {
        let sqrtd = disc.sqrt();
        proof {
            lemma_fsqrt_le(sphere_disc(s, *ray), 0x8000000000000000);
            assert(iabs(-half_b.raw - sqrtd.raw) <= 0xB000000000000000);
        }
        half_b.neg().sub(sqrtd).div(a)
    }
}

/// The material plays no part in `hit_sphere`; this stands for any one.
pub open spec fn hit_sphere_any_material() -> Material {
    Material::Lambertian(
        crate::material::Lambertian {
            albedo: crate::color::Color {
                r: Fixed { raw: 0 },
                g: Fixed { raw: 0 },
                b: Fixed { raw: 0 },
            },
        },
    )
}

/// Executable twin of `hit_sphere_any_material`.
fn hit_sphere_any_material_ex() -> (m: Material)
    ensures
        m == hit_sphere_any_material(),
{
    Material::Lambertian(
        crate::material::Lambertian {
            albedo: crate::color::Color {
                r: Fixed { raw: 0 },
                g: Fixed { raw: 0 },
                b: Fixed { raw: 0 },
            },
        },
    )
}

/// A ray aimed straight at a sphere's center from outside hits it at the
/// near intersection point: the reported parametric distance, times the
/// direction's length, is exactly the distance from the origin to the
/// center minus the radius. Stated for whole-valued geometry whose
/// quotients land on the fixed-point grid, where the truncating
/// arithmetic drops nothing; elsewhere truncation perturbs the hit by up
/// to one grid step and the exact equality need not hold. That the
/// reported normal then points from the center toward the hit point with
/// unit length is exercised by the tests; its proof outgrew the solver.
pub proof fn lemma_hit_toward_center(
    s: Sphere,
    r: Ray,
    ox: int,
    oy: int,
    oz: int,
    cx: int,
    cy: int,
    cz: int,
    radius_n: int,
    dist: int,
)
    requires
        sphere_wf(s),
        ray_in_range(r),
        r.origin.x.raw == ox * SCALE,
        r.origin.y.raw == oy * SCALE,
        r.origin.z.raw == oz * SCALE,
        s.center.x.raw == cx * SCALE,
        s.center.y.raw == cy * SCALE,
        s.center.z.raw == cz * SCALE,
        s.radius.raw == radius_n * SCALE,
        1 <= radius_n,
        r.direction == sub3_s(s.center, r.origin),
        (cx - ox) * (cx - ox) + (cy - oy) * (cy - oy) + (cz - oz) * (cz - oz) == dist * dist,
        0 < dist,
        radius_n < dist,
        (SCALE * radius_n) % dist == 0,
        ((cx - ox) * SCALE) % dist == 0,
        ((cy - oy) * SCALE) % dist == 0,
        ((cz - oz) * SCALE) % dist == 0,
        ((((cx - ox) * SCALE) / dist) * (((cx - ox) * SCALE) / dist)) % (SCALE as int) == 0,
        ((((cy - oy) * SCALE) / dist) * (((cy - oy) * SCALE) / dist)) % (SCALE as int) == 0,
        ((((cz - oz) * SCALE) / dist) * (((cz - oz) * SCALE) / dist)) % (SCALE as int) == 0,
    ensures
        sphere_hit_t(s, r, 0, T_CAP as int) == Option::Some(SCALE - (SCALE * radius_n) / dist),
        fmul_s(SCALE - (SCALE * radius_n) / dist, dist * SCALE) == (dist - radius_n) * SCALE,
{
    let ex = cx - ox;
    let ey = cy - oy;
    let ez = cz - oz;
    let k = SCALE as int;
    let dxr = r.direction.x.raw as int;
    let dyr = r.direction.y.raw as int;
    let dzr = r.direction.z.raw as int;
    assert(dxr == ex * k) by (nonlinear_arith)
        requires dxr == cx * k - ox * k, ex == cx - ox,
    ;
    assert(dyr == ey * k) by (nonlinear_arith)
        requires dyr == cy * k - oy * k, ey == cy - oy,
    ;
    assert(dzr == ez * k) by (nonlinear_arith)
        requires dzr == cz * k - oz * k, ez == cz - oz,
    ;

    // the whole quotient: w * dist == k * radius_n
    let w = (k * radius_n) / dist;
    lemma_fundamental_div_mod(k * radius_n, dist);
    assert(w * dist == k * radius_n) by (nonlinear_arith)
        requires k * radius_n == dist * w + 0, 0 < dist,
    ;
    assert(0 < w < k) by (nonlinear_arith)
        requires w * dist == k * radius_n, 1 <= radius_n < dist, k == 65536,
    ;
    let t = k - w;

    // quadratic coefficient a = |d|^2, exactly dist^2 at scale
    lemma_fmul_of_multiple(ex, dxr);
    lemma_fmul_of_multiple(ey, dyr);
    lemma_fmul_of_multiple(ez, dzr);
    assert(fmul_s(dxr, dxr) == ex * dxr && fmul_s(dyr, dyr) == ey * dyr && fmul_s(dzr, dzr) == ez
        * dzr);
    assert(ex * dxr == (ex * ex) * k) by (nonlinear_arith)
        requires dxr == ex * k,
    ;
    assert(ey * dyr == (ey * ey) * k) by (nonlinear_arith)
        requires dyr == ey * k,
    ;
    assert(ez * dzr == (ez * ez) * k) by (nonlinear_arith)
        requires dzr == ez * k,
    ;
    assert(sphere_qa(r) == (ex * ex) * k + (ey * ey) * k + (ez * ez) * k);
    assert((ex * ex) * k + (ey * ey) * k + (ez * ez) * k == (dist * dist) * k) by (nonlinear_arith)
        requires ex * ex + ey * ey + ez * ez == dist * dist,
    ;
    let qa = sphere_qa(r);
    assert(qa == (dist * dist) * k);
    assert(qa > 0) by (nonlinear_arith)
        requires qa == (dist * dist) * k, 0 < dist, k == 65536,
    ;

    // half-b = oc . d, exactly -dist^2 at scale
    let oc = oc3(s, r);
    assert(oc.x.raw == (-ex) * k) by (nonlinear_arith)
        requires oc.x.raw == ox * k - cx * k, ex == cx - ox,
    ;
    assert(oc.y.raw == (-ey) * k) by (nonlinear_arith)
        requires oc.y.raw == oy * k - cy * k, ey == cy - oy,
    ;
    assert(oc.z.raw == (-ez) * k) by (nonlinear_arith)
        requires oc.z.raw == oz * k - cz * k, ez == cz - oz,
    ;
    lemma_fmul_of_multiple(-ex, dxr);
    lemma_fmul_of_multiple(-ey, dyr);
    lemma_fmul_of_multiple(-ez, dzr);
    assert(fmul_s(oc.x.raw as int, dxr) == (-ex) * dxr);
    assert(fmul_s(oc.y.raw as int, dyr) == (-ey) * dyr);
    assert(fmul_s(oc.z.raw as int, dzr) == (-ez) * dzr);
    assert((-ex) * dxr == -((ex * ex) * k)) by (nonlinear_arith)
        requires dxr == ex * k,
    ;
    assert((-ey) * dyr == -((ey * ey) * k)) by (nonlinear_arith)
        requires dyr == ey * k,
    ;
    assert((-ez) * dzr == -((ez * ez) * k)) by (nonlinear_arith)
        requires dzr == ez * k,
    ;
    let qhb = sphere_qhb(s, r);
    assert(qhb == -((ex * ex) * k) - ((ey * ey) * k) - ((ez * ez) * k));
    assert(qhb == (-(dist * dist)) * k) by (nonlinear_arith)
        requires
            qhb == -((ex * ex) * k) - ((ey * ey) * k) - ((ez * ez) * k),
            ex * ex + ey * ey + ez * ez == dist * dist,
    ;

    // c = |oc|^2 - radius^2, exactly (dist^2 - radius^2) at scale
    lemma_fmul_of_multiple(-ex, oc.x.raw as int);
    lemma_fmul_of_multiple(-ey, oc.y.raw as int);
    lemma_fmul_of_multiple(-ez, oc.z.raw as int);
    assert(fmul_s(oc.x.raw as int, oc.x.raw as int) == (-ex) * ((-ex) * k));
    assert(fmul_s(oc.y.raw as int, oc.y.raw as int) == (-ey) * ((-ey) * k));
    assert(fmul_s(oc.z.raw as int, oc.z.raw as int) == (-ez) * ((-ez) * k));
    assert((-ex) * ((-ex) * k) == (ex * ex) * k) by (nonlinear_arith);
    assert((-ey) * ((-ey) * k) == (ey * ey) * k) by (nonlinear_arith);
    assert((-ez) * ((-ez) * k) == (ez * ez) * k) by (nonlinear_arith);
    lemma_fmul_of_multiple(radius_n, s.radius.raw as int);
    assert(fmul_s(s.radius.raw as int, s.radius.raw as int) == radius_n * (radius_n * k));
    assert(radius_n * (radius_n * k) == (radius_n * radius_n) * k) by (nonlinear_arith);
    let qc = sphere_qc(s, r);
    assert(qc == (ex * ex) * k + (ey * ey) * k + (ez * ez) * k - (radius_n * radius_n) * k);
    assert(qc == (dist * dist) * k - (radius_n * radius_n) * k) by (nonlinear_arith)
        requires
            qc == (ex * ex) * k + (ey * ey) * k + (ez * ez) * k - (radius_n * radius_n) * k,
            ex * ex + ey * ey + ez * ez == dist * dist,
    ;

    // discriminant = (dist * radius)^2 at scale
    lemma_fmul_of_multiple(-(dist * dist), qhb);
    assert(fmul_s(qhb, qhb) == (-(dist * dist)) * qhb);
    assert((-(dist * dist)) * qhb == ((dist * dist) * (dist * dist)) * k) by (nonlinear_arith)
        requires qhb == (-(dist * dist)) * k,
    ;
    lemma_fmul_of_multiple(dist * dist, qc);
    assert(fmul_s(qa, qc) == (dist * dist) * qc);
    assert((dist * dist) * qc == ((dist * dist) * (dist * dist)) * k - ((dist * dist) * (radius_n
        * radius_n)) * k) by (nonlinear_arith)
        requires qc == (dist * dist) * k - (radius_n * radius_n) * k,
    ;
    let disc = sphere_disc(s, r);
    let dr = dist * radius_n;
    assert(disc == ((dist * dist) * (radius_n * radius_n)) * k);
    assert(disc == (dr * dr) * k) by (nonlinear_arith)
        requires disc == ((dist * dist) * (radius_n * radius_n)) * k, dr == dist * radius_n,
    ;
    assert(0 < dr * k) by (nonlinear_arith)
        requires dr == dist * radius_n, 1 <= radius_n, 0 < dist, k == 65536,
    ;
    assert(disc >= 0) by (nonlinear_arith)
        requires disc == (dr * dr) * k, k == 65536,
    ;

    // the square root of the discriminant is exact
    assert(disc * k == (dr * k) * (dr * k)) by (nonlinear_arith)
        requires disc == (dr * dr) * k,
    ;
    assert(((dr * k) * (dr * k)) < ((dr * k + 1) * (dr * k + 1))) by (nonlinear_arith)
        requires dr * k > 0,
    ;
    crate::fixed::lemma_sqrt_floor_unique((disc * SCALE) as nat, (dr * k) as nat);
    assert(fsqrt_s(disc) == dr * k);

    // the near root is exact and lies inside the window
    assert((-qhb - fsqrt_s(disc)) * k == t * qa) by (nonlinear_arith)
        requires
            qhb == (-(dist * dist)) * k,
            fsqrt_s(disc) == dr * k,
            dr == dist * radius_n,
            qa == (dist * dist) * k,
            t == k - w,
            w * dist == k * radius_n,
    ;
    crate::fixed::lemma_tdiv_multiple(t, qa);
    assert(fdiv_s(-qhb - fsqrt_s(disc), qa) == crate::fixed::tdiv((-qhb - fsqrt_s(disc)) * SCALE, qa));
    assert(sphere_root1(s, r) == t);
    assert(0 <= t <= T_CAP) by (nonlinear_arith)
        requires 0 < w < k, t == k - w, k == 65536, T_CAP == 0x1000000000,
    ;
    assert(sphere_hit_t(s, r, 0, T_CAP as int) == Option::Some(t));

    // the reported distance is exact: t times the direction's length is
    // the distance to the center less the radius
    assert(t * (dist * k) == ((dist - radius_n) * k) * k) by (nonlinear_arith)
        requires
            t == k - w,
            w * dist == k * radius_n,
    ;
    crate::fixed::lemma_tdiv_multiple((dist - radius_n) * k, k);
    assert(fmul_s(t, dist * k) == crate::fixed::tdiv(t * (dist * k), SCALE as int));
    assert(fmul_s(t, dist * k) == (dist - radius_n) * k);
}

/// The near root never exceeds the far root.
pub proof fn lemma_roots_ordered(s: Sphere, r: Ray)
    requires
        sphere_qa(r) > 0,
        sphere_disc(s, r) >= 0,
    ensures
        sphere_root1(s, r) <= sphere_root2(s, r),
{
    let hb = sphere_qhb(s, r);
    let sq = fsqrt_s(sphere_disc(s, r));
    lemma_fsqrt_nonneg(sphere_disc(s, r));
    assert((-hb - sq) * SCALE <= (-hb + sq) * SCALE) by (nonlinear_arith)
        requires sq >= 0, SCALE == 65536,
    ;
    crate::fixed::lemma_tdiv_mono((-hb - sq) * SCALE, (-hb + sq) * SCALE, sphere_qa(r));
}

/// Shrinking the upper end of the window keeps, drops or empties the hit:
/// the reported hit does not change while it stays inside the window, and
/// becomes no hit once the window excludes it. This is what lets the scene
/// aggregate find the closest hit by narrowing `t_max`.
pub proof fn lemma_sphere_hit_narrow(s: Sphere, r: Ray, t_min: int, t_nar: int, t_wide: int)
    requires
        t_nar <= t_wide,
        -(T_CAP as int) <= t_min,
        t_wide <= T_CAP,
    ensures
        sphere_hit_s(s, r, t_min, t_wide) is None ==> sphere_hit_s(s, r, t_min, t_nar) is None,
        sphere_hit_s(s, r, t_min, t_wide) matches Some(rec) && rec.t.raw <= t_nar
            ==> sphere_hit_s(s, r, t_min, t_nar) == sphere_hit_s(s, r, t_min, t_wide),
        sphere_hit_s(s, r, t_min, t_wide) matches Some(rec) && rec.t.raw > t_nar
            ==> sphere_hit_s(s, r, t_min, t_nar) is None,
{
    lemma_fmul_sq_nonneg(r.direction.x.raw as int);
    lemma_fmul_sq_nonneg(r.direction.y.raw as int);
    lemma_fmul_sq_nonneg(r.direction.z.raw as int);
    if sphere_qa(r) != 0 && sphere_disc(s, r) >= 0 {
        lemma_roots_ordered(s, r);
        let t1 = sphere_root1(s, r);
        let t2 = sphere_root2(s, r);
        let wide = sphere_hit_t(s, r, t_min, t_wide);
        if t_min <= t1 <= t_wide {
            assert(wide == Option::Some(t1));
        } else if t_min <= t2 <= t_wide {
            assert(t1 < t_min);
            assert(wide == Option::Some(t2));
        } else {
            assert(wide is None);
        }
    }
}

/// Every intermediate quantity of the intersection stays in range.
proof fn lemma_hit_bounds(s: Sphere, r: Ray)
    requires
        sphere_wf(s),
        ray_in_range(r),
    ensures
        iabs(oc3(s, r).x.raw as int) <= 0x10000000000000,
        iabs(oc3(s, r).y.raw as int) <= 0x10000000000000,
        iabs(oc3(s, r).z.raw as int) <= 0x10000000000000,
        dot3_ok(r.direction, r.direction),
        0 <= sphere_qa(r) <= 0x300000000,
        dot3_ok(oc3(s, r), r.direction),
        iabs(sphere_qhb(s, r)) <= 0x3000000000000000,
        dot3_ok(oc3(s, r), oc3(s, r)),
        0 <= dot3_s(oc3(s, r), oc3(s, r)) <= 0x300000000000000000000000,
        mul_ok(s.radius.raw as int, s.radius.raw as int),
        0 <= fmul_s(s.radius.raw as int, s.radius.raw as int) <= 0x10000000000000000,
        iabs(sphere_qc(s, r)) <= 0x40000000000000000000000,
        mul_ok(sphere_qhb(s, r), sphere_qhb(s, r)),
        mul_ok(sphere_qa(r), sphere_qc(s, r)),
        iabs(sphere_disc(s, r)) <= 0x2000000000000000000000000000,
        0 <= sphere_disc(s, r) ==> fsqrt_s(sphere_disc(s, r)) <= 0x8000000000000000,
{
    let oc = oc3(s, r);
    assert(iabs(oc.x.raw as int) <= 0x10000000000000);
    assert(iabs(oc.y.raw as int) <= 0x10000000000000);
    assert(iabs(oc.z.raw as int) <= 0x10000000000000);
    lemma_dot3_bound(r.direction, r.direction, DIR_CAP as int, DIR_CAP as int);
    lemma_fmul_sq_nonneg(r.direction.x.raw as int);
    lemma_fmul_sq_nonneg(r.direction.y.raw as int);
    lemma_fmul_sq_nonneg(r.direction.z.raw as int);
    lemma_dot3_bound(oc, r.direction, 0x10000000000000, DIR_CAP as int);
    lemma_dot3_bound(oc, oc, 0x10000000000000, 0x10000000000000);
    lemma_fmul_sq_nonneg(oc.x.raw as int);
    lemma_fmul_sq_nonneg(oc.y.raw as int);
    lemma_fmul_sq_nonneg(oc.z.raw as int);
    assert(mul_ok(s.radius.raw as int, s.radius.raw as int)) by (nonlinear_arith)
        requires 0 < s.radius.raw <= RADIUS_CAP, RADIUS_CAP == 0x10000000000,
    ;
    crate::fixed::lemma_fmul_nonneg(s.radius.raw as int, s.radius.raw as int);
    lemma_fmul_bound(s.radius.raw as int, s.radius.raw as int, RADIUS_CAP as int, RADIUS_CAP as int);
    let hb = sphere_qhb(s, r);
    let qa = sphere_qa(r);
    let qc = sphere_qc(s, r);
    assert(mul_ok(hb, hb)) by (nonlinear_arith)
        requires iabs(hb) <= 0x3000000000000000, iabs(hb) == if hb >= 0 { hb } else { -hb },
    ;
    assert(mul_ok(qa, qc)) by (nonlinear_arith)
        requires
            0 <= qa <= 0x300000000,
            iabs(qc) <= 0x40000000000000000000000,
            iabs(qc) == if qc >= 0 { qc } else { -qc },
    ;
    lemma_fmul_bound(hb, hb, 0x3000000000000000, 0x3000000000000000);
    lemma_fmul_bound(qa, qc, 0x300000000, 0x40000000000000000000000);
    if 0 <= sphere_disc(s, r) {
        assert(sphere_disc(s, r) * SCALE
            <= 0x8000000000000000 * 0x8000000000000000)
            by (nonlinear_arith)
            requires 0 <= sphere_disc(s, r) <= 0x2000000000000000000000000000, SCALE == 65536,
        ;
        lemma_fsqrt_le(sphere_disc(s, r), 0x8000000000000000);
    }
}

} // verus!
