//! The random source of the renderer.
//!
//! Randomness enters the kernel in exactly one shape: a fixed-point draw
//! from `[0, 1)`. A generator is either seeded, backed by `rand`'s
//! `StdRng`, or a constant double that always answers the same value,
//! which makes renders reproducible in tests.

use vstd::prelude::*;
use crate::fixed::{
    add_ok, fmul_s, iabs, lemma_fmul_nonneg, lemma_fmul_unit_scale, mul_ok, Fixed, SCALE,
};
use crate::vector::{
    dot3_s, lemma_dot3_bound, lemma_dot3_neg_both, lemma_dot3_neg_left, Vec3, Vec3d,
};

verus! {

#[verifier::external_type_specification]
#[verifier::external_body]
pub struct ExStdRng(rand::rngs::StdRng);

/// Relies on rand's `SeedableRng::seed_from_u64` for `StdRng`: builds a
/// generator from a word-sized seed.
#[verifier::external_body]
fn std_rng_from_seed(seed: u64) -> rand::rngs::StdRng {
    <rand::rngs::StdRng as rand::SeedableRng>::seed_from_u64(seed)
}

/// Relies on rand's `Rng::gen_range` over `0..65536`, which draws
/// uniformly from the half-open range.
#[verifier::external_body]
fn std_rng_next_unit(rng: &mut rand::rngs::StdRng) -> (r: i64)
    ensures
        0 <= r < 65536,
{
    rand::Rng::gen_range(rng, 0i64..65536i64)
}

/// A source of fixed-point draws from `[0, 1)`: a seeded pseudo-random
/// generator, or a constant double for deterministic tests.
pub enum Rng {
    Seeded(rand::rngs::StdRng),
    Constant(Fixed),
}

/// A constant generator only holds values it may answer with.
pub open spec fn rng_wf(g: Rng) -> bool {
    g matches Rng::Constant(c) ==> 0 <= c.raw < SCALE
}

impl Rng {
    /// A pseudo-random generator with the given seed.
    pub fn seeded(seed: u64) -> (g: Rng)
        ensures
            rng_wf(g),
            g is Seeded,
    {
        Rng::Seeded(std_rng_from_seed(seed))
    }

    /// A generator that always answers `value`.
    pub fn constant(value: Fixed) -> (g: Rng)
        requires
            0 <= value.raw < SCALE,
        ensures
            g == Rng::Constant(value),
    {
        Rng::Constant(value)
    }

    /// A draw from `[0, 1)`. A constant generator answers its value and
    /// does not change.
    pub fn next_unit(&mut self) -> (r: Fixed)
        requires
            rng_wf(*old(self)),
        ensures
            0 <= r.raw < SCALE,
            rng_wf(*final(self)),
            *old(self) matches Rng::Constant(c) ==> r == c && *final(self) == *old(self),
    {
        match self {
            Rng::Seeded(inner) => {
                let v = std_rng_next_unit(inner);
                Fixed { raw: v as i128 }
            },
            Rng::Constant(c) => *c,
        }
    }

    /// A draw from `[min, max]`: `min + u * (max - min)` for a unit draw
    /// `u`. A constant generator `c` answers `min + c * (max - min)`.
    pub fn next_within(&mut self, min: Fixed, max: Fixed) -> (r: Fixed)
        requires
            rng_wf(*old(self)),
            min.raw <= max.raw,
            iabs(min.raw as int) <= 0x1000000000000000,
            iabs(max.raw as int) <= 0x1000000000000000,
        ensures
            min.raw <= r.raw <= max.raw,
            min.raw < max.raw ==> r.raw < max.raw,
            rng_wf(*final(self)),
            *old(self) matches Rng::Constant(c) ==> *final(self) == *old(self) && r.raw == min.raw
                + fmul_s(c.raw as int, max.raw - min.raw),
    {
        let u = self.next_unit();
        let span = max.sub(min);
        proof {
            assert(mul_ok(u.raw as int, span.raw as int)) by (nonlinear_arith)
                requires
                    0 <= u.raw < SCALE,
                    0 <= span.raw <= 0x2000000000000000,
            ;
            lemma_fmul_unit_scale(u.raw as int, span.raw as int);
            if span.raw > 0 {
                vstd::arithmetic::mul::lemma_mul_strict_inequality(
                    u.raw as int,
                    SCALE as int,
                    span.raw as int,
                );
                vstd::arithmetic::mul::lemma_mul_nonnegative(u.raw as int, span.raw as int);
                crate::fixed::lemma_tdiv_mag(u.raw * span.raw, SCALE as int);
                vstd::arithmetic::div_mod::lemma_multiply_divide_lt(
                    u.raw * span.raw,
                    SCALE as int,
                    span.raw as int,
                );
            }
        }
        min.add(u.mul(span))
    }
}

impl Vec3d {
    /// A vector with three independent unit draws as components.
    pub fn random(rng: &mut Rng) -> (v: Vec3)
        requires
            rng_wf(*old(rng)),
        ensures
            rng_wf(*final(rng)),
            (*old(rng)) is Constant ==> *final(rng) == *old(rng),
            0 <= v.x.raw < SCALE,
            0 <= v.y.raw < SCALE,
            0 <= v.z.raw < SCALE,
    {
        let x = rng.next_unit();
        let y = rng.next_unit();
        let z = rng.next_unit();
        Vec3d { x, y, z }
    }

    /// A vector with three independent draws from `[min, max]`.
    pub fn random_within(rng: &mut Rng, min: Fixed, max: Fixed) -> (v: Vec3)
        requires
            rng_wf(*old(rng)),
            min.raw <= max.raw,
            iabs(min.raw as int) <= 0x1000000000000000,
            iabs(max.raw as int) <= 0x1000000000000000,
        ensures
            rng_wf(*final(rng)),
            (*old(rng)) is Constant ==> *final(rng) == *old(rng),
            min.raw <= v.x.raw <= max.raw,
            min.raw <= v.y.raw <= max.raw,
            min.raw <= v.z.raw <= max.raw,
            min.raw < max.raw ==> v.x.raw < max.raw && v.y.raw < max.raw && v.z.raw < max.raw,
    {
        let x = rng.next_within(min, max);
        let y = rng.next_within(min, max);
        let z = rng.next_within(min, max);
        Vec3d { x, y, z }
    }

    /// A point inside the unit sphere, found by rejection sampling; after
    /// too many rejections the center stands in, which is inside too.
    pub fn random_in_unit_sphere(rng: &mut Rng) -> (v: Vec3)
        requires
            rng_wf(*old(rng)),
        ensures
            rng_wf(*final(rng)),
            (*old(rng)) is Constant ==> *final(rng) == *old(rng),
            iabs(v.x.raw as int) <= SCALE,
            iabs(v.y.raw as int) <= SCALE,
            iabs(v.z.raw as int) <= SCALE,
            dot3_s(v, v) < SCALE,
    {
        let minus_one = Fixed { raw: -SCALE };
        let one = Fixed { raw: SCALE };
        let mut tries: u32 = 64;
        while tries > 0
            invariant
                rng_wf(*rng),
                (*old(rng)) is Constant ==> *rng == *old(rng),
                minus_one.raw == -SCALE,
                one.raw == SCALE,
            decreases tries,
        {
            let p = Vec3d::random_within(rng, minus_one, one);
            proof {
                lemma_dot3_bound(p, p, SCALE as int, SCALE as int);
            }
            let ls = p.len_squared();
            if ls.raw < SCALE {
                return p;
            }
            tries = tries - 1;
        }
        proof {
            lemma_dot3_bound(
                Vec3d { x: Fixed { raw: 0 }, y: Fixed { raw: 0 }, z: Fixed { raw: 0 } },
                Vec3d { x: Fixed { raw: 0 }, y: Fixed { raw: 0 }, z: Fixed { raw: 0 } },
                0,
                0,
            );
        }
        Vec3d { x: Fixed { raw: 0 }, y: Fixed { raw: 0 }, z: Fixed { raw: 0 } }
    }

    /// A point inside the unit sphere on the same side as `normal`: its
    /// dot product with `normal` is never negative.
    pub fn random_in_unit_hemisphere(rng: &mut Rng, normal: Vec3) -> (v: Vec3)
        requires
            rng_wf(*old(rng)),
            iabs(normal.x.raw as int) <= 0x1000000000000000,
            iabs(normal.y.raw as int) <= 0x1000000000000000,
            iabs(normal.z.raw as int) <= 0x1000000000000000,
        ensures
            rng_wf(*final(rng)),
            (*old(rng)) is Constant ==> *final(rng) == *old(rng),
            iabs(v.x.raw as int) <= SCALE,
            iabs(v.y.raw as int) <= SCALE,
            iabs(v.z.raw as int) <= SCALE,
            dot3_s(v, v) < SCALE,
            dot3_s(v, normal) >= 0,
    {
        let in_unit_sphere = Vec3d::random_in_unit_sphere(rng);
        proof {
            lemma_dot3_bound(in_unit_sphere, normal, SCALE as int, 0x1000000000000000);
        }
        let d = in_unit_sphere.dot(normal);
        if d.raw > 0 {
            in_unit_sphere
        } else {
            proof {
                lemma_dot3_neg_left(in_unit_sphere, normal);
                lemma_dot3_neg_both(in_unit_sphere);
            }
            in_unit_sphere.neg()
        }
    }

    /// A unit-length direction, up to rounding: a point of the unit
    /// sphere of squared length at least one quarter (shorter draws are
    /// rejected, since truncation normalizes them poorly), normalized,
    /// and accepted only if its squared length lands within `1/256` of
    /// one. After too many rejected draws, the x axis stands in.
    pub fn random_unit_vector(rng: &mut Rng) -> (v: Vec3)
        requires
            rng_wf(*old(rng)),
        ensures
            rng_wf(*final(rng)),
            (*old(rng)) is Constant ==> *final(rng) == *old(rng),
            iabs(v.x.raw as int) < 131072,
            iabs(v.y.raw as int) < 131072,
            iabs(v.z.raw as int) < 131072,
            SCALE - 256 <= dot3_s(v, v) <= SCALE + 256,
    {
        let mut tries: u32 = 64;
        while tries > 0
            invariant
                rng_wf(*rng),
                (*old(rng)) is Constant ==> *rng == *old(rng),
            decreases tries,
        {
            let p = Vec3d::random_in_unit_sphere(rng);
            proof {
                lemma_dot3_bound(p, p, SCALE as int, SCALE as int);
            }
            let ls = p.len_squared();
            if ls.raw >= 16384 {
                proof {
                    crate::vector::lemma_normal3_props(p);
                }
                let n = p.normal();
                proof {
                    lemma_dot3_bound(n, n, 131072, 131072);
                }
                let nls = n.len_squared();
                if SCALE - 256 <= nls.raw && nls.raw <= SCALE + 256 {
                    return n;
                }
            }
            tries = tries - 1;
        }
        let axis = Vec3d {
            x: Fixed { raw: SCALE },
            y: Fixed { raw: 0 },
            z: Fixed { raw: 0 },
        };
        proof {
            crate::fixed::lemma_fmul_one(SCALE as int);
            crate::fixed::lemma_fmul_bound(0, 0, 0, 0);
        }
        axis
    }
}

} // verus!
