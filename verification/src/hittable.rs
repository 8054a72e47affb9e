//! Hit records and the aggregate scene of hittable surfaces.

use vstd::prelude::*;
use crate::fixed::{iabs, Fixed};
use crate::material::{material_wf, Material};
use crate::sphere::{
    lemma_sphere_hit_narrow, ray_in_range, sphere_hit_s, sphere_wf, Sphere, HIT_GROWTH, T_CAP,
};
use crate::vector::{dot3_ok, dot3_s, lemma_dot3_neg_right, neg3_s, Point3, Vec3};
use crate::ray::Ray;

verus! {

/// A record that contains the information of a hit.
#[derive(Clone, Copy, Debug, PartialEq, Eq, Structural)]
pub struct HitRecord {
    pub p: Point3,
    pub t: Fixed,
    pub normal: Vec3,
    pub front_face: bool,
    pub material: Material,
}

/// The ray meets the raw outward normal head-on.
pub open spec fn is_front_face(ray: Ray, outward_normal: Vec3) -> bool {
    dot3_s(ray.direction, outward_normal) < 0
}

/// The normal stored in a record: the outward normal flipped, if need be,
/// to point against the incoming ray.
pub open spec fn facing_normal(ray: Ray, outward_normal: Vec3) -> Vec3 {
    if is_front_face(ray, outward_normal) {
        outward_normal
    } else {
        neg3_s(outward_normal)
    }
}

/// A record fit for scattering: a near-unit, nonzero normal and a
/// material with parameters in range.
pub open spec fn rec_wf(rec: HitRecord) -> bool {
    &&& iabs(rec.normal.x.raw as int) < 131072
    &&& iabs(rec.normal.y.raw as int) < 131072
    &&& iabs(rec.normal.z.raw as int) < 131072
    &&& dot3_s(rec.normal, rec.normal) > 0
    &&& material_wf(rec.material)
}

impl HitRecord {
    /// A fresh record; the normal is set afterwards by `set_face_normal`.
    pub fn new(p: Point3, t: Fixed, material: Material) -> (rec: HitRecord)
        ensures
            rec.p == p,
            rec.t == t,
            rec.material == material,
            rec.front_face == false,
            rec.normal.x.raw == 0 && rec.normal.y.raw == 0 && rec.normal.z.raw == 0,
    {
        HitRecord {
            p,
            t,
            normal: Vec3 { x: Fixed { raw: 0 }, y: Fixed { raw: 0 }, z: Fixed { raw: 0 } },
            front_face: false,
            material,
        }
    }

    /// Orients and stores the normal: the front-face flag is set exactly
    /// when the ray direction and the raw outward normal point against
    /// each other, and the stored normal is the one facing the ray.
    pub fn set_face_normal(&mut self, ray: &Ray, outward_normal: Vec3)
        requires
            dot3_ok(ray.direction, outward_normal),
            outward_normal.x.raw > i128::MIN,
            outward_normal.y.raw > i128::MIN,
            outward_normal.z.raw > i128::MIN,
        ensures
            final(self).front_face == is_front_face(*ray, outward_normal),
            final(self).normal == facing_normal(*ray, outward_normal),
            final(self).p == old(self).p,
            final(self).t == old(self).t,
            final(self).material == old(self).material,
    {
        let d = ray.direction.dot(outward_normal);
        self.front_face = d.raw < 0;
        self.normal = if self.front_face {
            outward_normal
        } else {
            outward_normal.neg()
        };
    }
}

/// A list of hittable objects: the scene aggregate.
pub struct HittableList {
    pub objects: Vec<Sphere>,
}

/// Every surface of the scene has its parameters in range.
pub open spec fn list_wf(l: HittableList) -> bool {
    forall|i: int| 0 <= i < l.objects@.len() ==> sphere_wf(#[trigger] l.objects@[i])
}

impl HittableList {
    pub fn new() -> (l: HittableList)
        ensures
            l.objects@.len() == 0,
    {
        HittableList { objects: Vec::new() }
    }

    /// Transfers ownership of a new surface into the scene.
    pub fn add(&mut self, object: Sphere)
        requires
            sphere_wf(object),
            old(self).objects@.len() < usize::MAX,
        ensures
            final(self).objects@ == old(self).objects@.push(object),
    {
        self.objects.push(object);
    }

    /// Releases all owned surfaces.
    pub fn clear(&mut self)
        ensures
            final(self).objects@.len() == 0,
    {
        self.objects.clear();
    }

    /// The closest qualifying hit over all surfaces: the result is exactly
    /// the hit with the smallest `t` among the surfaces whose own `hit`
    /// succeeds within `[t_min, t_max]`, and there is no hit at all exactly
    /// when every surface reports none.
    pub fn hit(&self, ray: &Ray, t_min: Fixed, t_max: Fixed) -> (res: Option<HitRecord>)
        requires
            list_wf(*self),
            ray_in_range(*ray),
            iabs(t_min.raw as int) <= T_CAP,
            iabs(t_max.raw as int) <= T_CAP,
        ensures
            res is None <==> (forall|i: int|
                0 <= i < self.objects@.len() ==> sphere_hit_s(
                    #[trigger] self.objects@[i],
                    *ray,
                    t_min.raw as int,
                    t_max.raw as int,
                ) is None),
            res matches Some(rec) ==> {
                &&& exists|i: int|
                    0 <= i < self.objects@.len() && sphere_hit_s(
                        #[trigger] self.objects@[i],
                        *ray,
                        t_min.raw as int,
                        t_max.raw as int,
                    ) == Some(rec)
                &&& forall|i: int|
                    0 <= i < self.objects@.len() ==> match sphere_hit_s(
                        #[trigger] self.objects@[i],
                        *ray,
                        t_min.raw as int,
                        t_max.raw as int,
                    ) {
                        Some(other) => rec.t.raw <= other.t.raw,
                        None => true,
                    }
                &&& rec_wf(rec)
                &&& t_min.raw <= rec.t.raw <= t_max.raw
                &&& iabs(rec.p.x.raw as int) <= iabs(ray.origin.x.raw as int) + HIT_GROWTH
                &&& iabs(rec.p.y.raw as int) <= iabs(ray.origin.y.raw as int) + HIT_GROWTH
                &&& iabs(rec.p.z.raw as int) <= iabs(ray.origin.z.raw as int) + HIT_GROWTH
            },
    {
        let ghost tmin = t_min.raw as int;
        let ghost tmax = t_max.raw as int;
        let mut record: Option<HitRecord> = None;
        let mut closest_so_far = t_max;
        let mut idx: usize = 0;
        while idx < self.objects.len()
            invariant
                0 <= idx <= self.objects@.len(),
                list_wf(*self),
                ray_in_range(*ray),
                iabs(tmin) <= T_CAP,
                iabs(tmax) <= T_CAP,
                tmin == t_min.raw as int,
                tmax == t_max.raw as int,
                iabs(closest_so_far.raw as int) <= T_CAP,
                match record {
                    None => {
                        &&& closest_so_far == t_max
                        &&& forall|i: int|
                            0 <= i < idx ==> sphere_hit_s(
                                #[trigger] self.objects@[i],
                                *ray,
                                tmin,
                                tmax,
                            ) is None
                    },
                    Some(rec) => {
                        &&& closest_so_far == rec.t
                        &&& tmin <= rec.t.raw <= tmax
                        &&& exists|i: int|
                            0 <= i < idx && sphere_hit_s(
                                #[trigger] self.objects@[i],
                                *ray,
                                tmin,
                                tmax,
                            ) == Some(rec)
                        &&& forall|i: int|
                            0 <= i < idx ==> match sphere_hit_s(
                                #[trigger] self.objects@[i],
                                *ray,
                                tmin,
                                tmax,
                            ) {
                                Some(other) => rec.t.raw <= other.t.raw,
                                None => true,
                            }
                        &&& rec_wf(rec)
                        &&& iabs(rec.p.x.raw as int) <= iabs(ray.origin.x.raw as int) + HIT_GROWTH
                        &&& iabs(rec.p.y.raw as int) <= iabs(ray.origin.y.raw as int) + HIT_GROWTH
                        &&& iabs(rec.p.z.raw as int) <= iabs(ray.origin.z.raw as int) + HIT_GROWTH
                    },
                },
            decreases self.objects@.len() - idx,
        {
            let object = &self.objects[idx];
            let h = object.hit(ray, t_min, closest_so_far);
            proof {
                lemma_sphere_hit_narrow(*object, *ray, tmin, closest_so_far.raw as int, tmax);
            }
            match h {
                Some(rec) => {
                    proof {
                        assert(sphere_hit_s(self.objects@[idx as int], *ray, tmin, tmax)
                            == Some(rec));
                    }
                    closest_so_far = rec.t;
                    record = Some(rec);
                },
                None => {},
            }
            idx = idx + 1;
        }
        record
    }
}

/// The stored normal never points with the incoming ray: its dot product
/// with the ray direction is never positive.
pub proof fn lemma_facing_normal_opposes(ray: Ray, outward_normal: Vec3)
    requires
        outward_normal.x.raw > i128::MIN,
        outward_normal.y.raw > i128::MIN,
        outward_normal.z.raw > i128::MIN,
    ensures
        dot3_s(ray.direction, facing_normal(ray, outward_normal)) <= 0,
{
    if !is_front_face(ray, outward_normal) {
        lemma_dot3_neg_right(ray.direction, outward_normal);
    }
}

} // verus!
