//! Surface materials: diffuse and fuzzed-reflective scattering.

use vstd::prelude::*;
use crate::color::{color_unit, Rgb};
use crate::fixed::{iabs, mul_ok, Fixed, SCALE};
use crate::hittable::{rec_wf, HitRecord};
use crate::ray::Ray;
use crate::rng::{rng_wf, Rng};
use crate::vector::{
    add3_s, dot3_s, lemma_dot3_bound, lemma_normal3_props, len3_ok, normal3_s, reflect3_s,
    scale3_s, Vec3, Vec3d,
};

verus! {

/// A diffuse surface: scattered light is attenuated by the albedo.
#[derive(Clone, Copy, Debug, PartialEq, Eq, Structural)]
pub struct Lambertian {
    pub albedo: Rgb,
}

impl Lambertian {
    pub fn new(albedo: Rgb) -> (m: Lambertian)
        requires
            color_unit(albedo),
        ensures
            m.albedo == albedo,
    {
        Lambertian { albedo }
    }
}

/// A reflective surface with a fuzz radius in `[0, 1]`.
#[derive(Clone, Copy, Debug, PartialEq, Eq, Structural)]
pub struct Metal {
    pub albedo: Rgb,
    pub fuzz: Fixed,
}

impl Metal {
    pub fn new(albedo: Rgb, fuzz: Fixed) -> (m: Metal)
        requires
            color_unit(albedo),
            0 <= fuzz.raw <= SCALE,
        ensures
            m.albedo == albedo,
            m.fuzz == fuzz,
    {
        Metal { albedo, fuzz }
    }
}

/// The closed set of scattering behaviors a surface can carry.
#[derive(Clone, Copy, Debug, PartialEq, Eq, Structural)]
pub enum Material {
    Lambertian(Lambertian),
    Metal(Metal),
}

/// The attenuation color of a material.
pub open spec fn material_albedo(m: Material) -> Rgb {
    match m {
        Material::Lambertian(l) => l.albedo,
        Material::Metal(mt) => mt.albedo,
    }
}

/// The material's parameters are in range.
pub open spec fn material_wf(m: Material) -> bool {
    &&& color_unit(material_albedo(m))
    &&& (m matches Material::Metal(mt) ==> 0 <= mt.fuzz.raw <= SCALE)
}

/// The direction a diffuse surface scatters into: the stored normal plus
/// the random unit sample, or the bare normal where the sum degenerates
/// to zero squared length.
pub open spec fn lambertian_dir_s(normal: Vec3, sample: Vec3) -> Vec3 {
    let d = add3_s(normal, sample);
    if dot3_s(d, d) == 0 {
        normal
    } else {
        d
    }
}

/// The direction a metal surface scatters into: the reflection of the
/// normalized incoming direction, perturbed by `fuzz` times the sample.
pub open spec fn metal_dir_s(ray_in: Ray, normal: Vec3, fuzz: Fixed, sample: Vec3) -> Vec3 {
    add3_s(reflect3_s(normal3_s(ray_in.direction), normal), scale3_s(sample, fuzz))
}

/// Diffuse scattering with the random sample given: always scatters, with
/// the albedo as attenuation and a ray out of the hit point.
pub fn lambertian_scatter_with(albedo: Rgb, rec: &HitRecord, sample: Vec3) -> (res: Option<
    (Rgb, Ray),
>)
    requires
        rec_wf(*rec),
        iabs(sample.x.raw as int) < 131072,
        iabs(sample.y.raw as int) < 131072,
        iabs(sample.z.raw as int) < 131072,
    ensures
        res is Some,
        res matches Some((att, sc)) ==> {
            &&& att == albedo
            &&& sc.origin == rec.p
            &&& sc.direction == lambertian_dir_s(rec.normal, sample)
            &&& dot3_s(sc.direction, sc.direction) > 0
            &&& iabs(sc.direction.x.raw as int) < 0x40000
            &&& iabs(sc.direction.y.raw as int) < 0x40000
            &&& iabs(sc.direction.z.raw as int) < 0x40000
        },
{
    let dir = rec.normal.add(sample);
    proof {
        lemma_dot3_bound(dir, dir, 0x40000, 0x40000);
    }
    let ls = dir.len_squared();
    let scatter_direction = if ls.raw == 0 {
        rec.normal
    } else {
        dir
    };
    Some((albedo, Ray::new(rec.p, scatter_direction)))
}

/// Metal scattering with the random sample given: scatters exactly when
/// the perturbed reflection still points away from the surface, that is,
/// when its dot product with the stored normal is positive; otherwise the
/// ray is absorbed.
pub fn metal_scatter_with(albedo: Rgb, fuzz: Fixed, ray_in: &Ray, rec: &HitRecord, sample: Vec3)
    -> (res: Option<(Rgb, Ray)>)
    requires
        rec_wf(*rec),
        0 <= fuzz.raw <= SCALE,
        len3_ok(ray_in.direction),
        dot3_s(ray_in.direction, ray_in.direction) > 0,
        iabs(sample.x.raw as int) <= 131072,
        iabs(sample.y.raw as int) <= 131072,
        iabs(sample.z.raw as int) <= 131072,
    ensures
        res is Some <==> dot3_s(metal_dir_s(*ray_in, rec.normal, fuzz, sample), rec.normal) > 0,
        res matches Some((att, sc)) ==> {
            &&& att == albedo
            &&& sc.origin == rec.p
            &&& sc.direction == metal_dir_s(*ray_in, rec.normal, fuzz, sample)
            &&& iabs(sc.direction.x.raw as int) <= 0x1000000
            &&& iabs(sc.direction.y.raw as int) <= 0x1000000
            &&& iabs(sc.direction.z.raw as int) <= 0x1000000
        },
{
    proof {
        lemma_normal3_props(ray_in.direction);
    }
    let v = ray_in.direction.normal();
    let reflected = v.reflect(rec.normal);
    proof {
        assert(mul_ok(sample.x.raw as int, fuzz.raw as int) && mul_ok(
            sample.y.raw as int,
            fuzz.raw as int,
        ) && mul_ok(sample.z.raw as int, fuzz.raw as int)) by (nonlinear_arith)
            requires
                iabs(sample.x.raw as int) <= 131072,
                iabs(sample.y.raw as int) <= 131072,
                iabs(sample.z.raw as int) <= 131072,
                0 <= fuzz.raw <= SCALE,
                SCALE == 65536,
        ;
        crate::fixed::lemma_fmul_bound(sample.x.raw as int, fuzz.raw as int, 131072, SCALE as int);
        crate::fixed::lemma_fmul_bound(sample.y.raw as int, fuzz.raw as int, 131072, SCALE as int);
        crate::fixed::lemma_fmul_bound(sample.z.raw as int, fuzz.raw as int, 131072, SCALE as int);
    }
    let scattered_dir = reflected.add(sample.scale(fuzz));
    proof {
        lemma_dot3_bound(scattered_dir, rec.normal, 0x1000000, 131072);
    }
    let d = scattered_dir.dot(rec.normal);
    if d.raw > 0 {
        Some((albedo, Ray::new(rec.p, scattered_dir)))
    } else {
        None
    }
}

impl Material {
    /// Scatters an incoming ray at a hit: a diffuse surface always
    /// scatters, a metal one absorbs rays whose perturbed reflection
    /// would re-enter the surface.
    pub fn scatter(&self, ray_in: &Ray, rec: &HitRecord, rng: &mut Rng) -> (res: Option<
        (Rgb, Ray),
    >)
        requires
            material_wf(*self),
            rec_wf(*rec),
            rng_wf(*old(rng)),
            iabs(ray_in.direction.x.raw as int) <= 0x1000000,
            iabs(ray_in.direction.y.raw as int) <= 0x1000000,
            iabs(ray_in.direction.z.raw as int) <= 0x1000000,
        ensures
            rng_wf(*final(rng)),
            (*old(rng)) is Constant ==> *final(rng) == *old(rng),
            self is Lambertian ==> res is Some,
            res matches Some((att, sc)) ==> {
                &&& att == material_albedo(*self)
                &&& sc.origin == rec.p
                &&& iabs(sc.direction.x.raw as int) <= 0x1000000
                &&& iabs(sc.direction.y.raw as int) <= 0x1000000
                &&& iabs(sc.direction.z.raw as int) <= 0x1000000
            },
    {
        match self {
            Material::Lambertian(l) => {
                let sample = Vec3d::random_unit_vector(rng);
                lambertian_scatter_with(l.albedo, rec, sample)
            },
            Material::Metal(m) => {
                proof {
                    lemma_dot3_bound(ray_in.direction, ray_in.direction, 0x1000000, 0x1000000);
                }
                let ls = ray_in.direction.len_squared();
                if ls.raw == 0 {
                    return None;
                }
                let sample = Vec3d::random_in_unit_sphere(rng);
                metal_scatter_with(m.albedo, m.fuzz, ray_in, rec, sample)
            },
        }
    }
}

} // verus!
