//! Fixed-point vectors in two, three and four dimensions.
//!
//! `Vec3d` carries the whole geometric load of the renderer; `Vec2d` and
//! `Vec4d` round out the family with the same componentwise operations.
//! Every operation states its result exactly, in terms of the truncating
//! fixed-point arithmetic of [`crate::fixed`].

use vstd::prelude::*;
use vstd::arithmetic::div_mod::{
    lemma_div_is_ordered, lemma_div_multiples_vanish, lemma_fundamental_div_mod,
    lemma_multiply_divide_lt,
};
use vstd::arithmetic::mul::lemma_mul_is_commutative;
use crate::fixed::{
    add_ok, div_num_ok, fdiv_s, fmul_s, fsqrt_s, iabs, lemma_fmul_bound, lemma_fmul_neg_right,
    lemma_fmul_sq_nonneg, lemma_fsqrt_pos, lemma_tdiv_mag, mul_ok, Fixed, SCALE,
};

verus! {

/// A 3D vector of fixed-point scalars.
#[derive(Clone, Copy, Debug, PartialEq, Eq, Structural)]
pub struct Vec3d {
    pub x: Fixed,
    pub y: Fixed,
    pub z: Fixed,
}

/// Vectors in the 3D spatial space.
pub type Vec3 = Vec3d;

/// Points in the 3D spatial space.
pub type Point3 = Vec3d;

/// Points in the 3D spatial space.
pub type Point = Vec3d;

/// Truncated dot product of two 3D vectors.
pub open spec fn dot3_s(u: Vec3d, v: Vec3d) -> int {
    fmul_s(u.x.raw as int, v.x.raw as int)
        + fmul_s(u.y.raw as int, v.y.raw as int)
        + fmul_s(u.z.raw as int, v.z.raw as int)
}

/// All six pairwise products of a dot product stay in range.
pub open spec fn dot3_ok(u: Vec3d, v: Vec3d) -> bool {
    &&& mul_ok(u.x.raw as int, v.x.raw as int)
    &&& mul_ok(u.y.raw as int, v.y.raw as int)
    &&& mul_ok(u.z.raw as int, v.z.raw as int)
}

/// Components small enough for a squared length and a normalization.
pub open spec fn len3_ok(v: Vec3d) -> bool {
    &&& iabs(v.x.raw as int) <= 0x40000000000000
    &&& iabs(v.y.raw as int) <= 0x40000000000000
    &&& iabs(v.z.raw as int) <= 0x40000000000000
}

/// Componentwise difference.
pub open spec fn sub3_s(u: Vec3d, v: Vec3d) -> Vec3d {
    Vec3d {
        x: Fixed { raw: (u.x.raw - v.x.raw) as i128 },
        y: Fixed { raw: (u.y.raw - v.y.raw) as i128 },
        z: Fixed { raw: (u.z.raw - v.z.raw) as i128 },
    }
}

/// Componentwise sum.
pub open spec fn add3_s(u: Vec3d, v: Vec3d) -> Vec3d {
    Vec3d {
        x: Fixed { raw: (u.x.raw + v.x.raw) as i128 },
        y: Fixed { raw: (u.y.raw + v.y.raw) as i128 },
        z: Fixed { raw: (u.z.raw + v.z.raw) as i128 },
    }
}

/// Componentwise negation.
pub open spec fn neg3_s(v: Vec3d) -> Vec3d {
    Vec3d {
        x: Fixed { raw: (-v.x.raw) as i128 },
        y: Fixed { raw: (-v.y.raw) as i128 },
        z: Fixed { raw: (-v.z.raw) as i128 },
    }
}

/// Componentwise scalar multiple.
pub open spec fn scale3_s(v: Vec3d, s: Fixed) -> Vec3d {
    Vec3d {
        x: Fixed { raw: fmul_s(v.x.raw as int, s.raw as int) as i128 },
        y: Fixed { raw: fmul_s(v.y.raw as int, s.raw as int) as i128 },
        z: Fixed { raw: fmul_s(v.z.raw as int, s.raw as int) as i128 },
    }
}

/// Reflection of `v` about the normal `n`: `v - 2 * (v . n) * n`.
pub open spec fn reflect3_s(v: Vec3d, n: Vec3d) -> Vec3d {
    let k = 2 * dot3_s(v, n);
    Vec3d {
        x: Fixed { raw: (v.x.raw - fmul_s(n.x.raw as int, k)) as i128 },
        y: Fixed { raw: (v.y.raw - fmul_s(n.y.raw as int, k)) as i128 },
        z: Fixed { raw: (v.z.raw - fmul_s(n.z.raw as int, k)) as i128 },
    }
}

/// The vector divided by its own truncated length.
pub open spec fn normal3_s(v: Vec3d) -> Vec3d {
    let len = fsqrt_s(dot3_s(v, v));
    Vec3d {
        x: Fixed { raw: fdiv_s(v.x.raw as int, len) as i128 },
        y: Fixed { raw: fdiv_s(v.y.raw as int, len) as i128 },
        z: Fixed { raw: fdiv_s(v.z.raw as int, len) as i128 },
    }
}

impl Vec3d {
    pub fn new(x: Fixed, y: Fixed, z: Fixed) -> (r: Vec3d)
        ensures
            r == (Vec3d { x, y, z }),
    {
        Vec3d { x, y, z }
    }

    /// Number of components.
    pub fn count(&self) -> (r: usize)
        ensures
            r == 3,
    {
        3
    }

    pub fn add(self, rhs: Vec3d) -> (r: Vec3d)
        requires
            add_ok(self.x.raw as int, rhs.x.raw as int),
            add_ok(self.y.raw as int, rhs.y.raw as int),
            add_ok(self.z.raw as int, rhs.z.raw as int),
        ensures
            r.x.raw == self.x.raw + rhs.x.raw,
            r.y.raw == self.y.raw + rhs.y.raw,
            r.z.raw == self.z.raw + rhs.z.raw,
    {
        Vec3d { x: self.x.add(rhs.x), y: self.y.add(rhs.y), z: self.z.add(rhs.z) }
    }

    pub fn sub(self, rhs: Vec3d) -> (r: Vec3d)
        requires
            add_ok(self.x.raw as int, -(rhs.x.raw as int)),
            add_ok(self.y.raw as int, -(rhs.y.raw as int)),
            add_ok(self.z.raw as int, -(rhs.z.raw as int)),
        ensures
            r.x.raw == self.x.raw - rhs.x.raw,
            r.y.raw == self.y.raw - rhs.y.raw,
            r.z.raw == self.z.raw - rhs.z.raw,
    {
        Vec3d { x: self.x.sub(rhs.x), y: self.y.sub(rhs.y), z: self.z.sub(rhs.z) }
    }

    pub fn neg(self) -> (r: Vec3d)
        requires
            self.x.raw > i128::MIN,
            self.y.raw > i128::MIN,
            self.z.raw > i128::MIN,
        ensures
            r.x.raw == -self.x.raw,
            r.y.raw == -self.y.raw,
            r.z.raw == -self.z.raw,
    {
        Vec3d { x: self.x.neg(), y: self.y.neg(), z: self.z.neg() }
    }

    /// Componentwise product.
    pub fn mul(self, rhs: Vec3d) -> (r: Vec3d)
        requires
            dot3_ok(self, rhs),
        ensures
            r.x.raw == fmul_s(self.x.raw as int, rhs.x.raw as int),
            r.y.raw == fmul_s(self.y.raw as int, rhs.y.raw as int),
            r.z.raw == fmul_s(self.z.raw as int, rhs.z.raw as int),
    {
        Vec3d { x: self.x.mul(rhs.x), y: self.y.mul(rhs.y), z: self.z.mul(rhs.z) }
    }

    /// Scalar multiple.
    pub fn scale(self, s: Fixed) -> (r: Vec3d)
        requires
            mul_ok(self.x.raw as int, s.raw as int),
            mul_ok(self.y.raw as int, s.raw as int),
            mul_ok(self.z.raw as int, s.raw as int),
        ensures
            r.x.raw == fmul_s(self.x.raw as int, s.raw as int),
            r.y.raw == fmul_s(self.y.raw as int, s.raw as int),
            r.z.raw == fmul_s(self.z.raw as int, s.raw as int),
    {
        Vec3d { x: self.x.mul(s), y: self.y.mul(s), z: self.z.mul(s) }
    }

    /// Scalar division.
    pub fn div(self, s: Fixed) -> (r: Vec3d)
        requires
            s.raw != 0,
            s.raw > i128::MIN,
            div_num_ok(self.x.raw as int),
            div_num_ok(self.y.raw as int),
            div_num_ok(self.z.raw as int),
        ensures
            r.x.raw == fdiv_s(self.x.raw as int, s.raw as int),
            r.y.raw == fdiv_s(self.y.raw as int, s.raw as int),
            r.z.raw == fdiv_s(self.z.raw as int, s.raw as int),
    {
        Vec3d { x: self.x.div(s), y: self.y.div(s), z: self.z.div(s) }
    }

    /// Sum of the components.
    pub fn sum(self) -> (r: Fixed)
        requires
            add_ok(self.x.raw as int, self.y.raw as int),
            add_ok(self.x.raw + self.y.raw, self.z.raw as int),
        ensures
            r.raw == self.x.raw + self.y.raw + self.z.raw,
    {
        self.x.add(self.y).add(self.z)
    }

    /// Truncated dot product.
    pub fn dot(self, rhs: Vec3d) -> (r: Fixed)
        requires
            dot3_ok(self, rhs),
        ensures
            r.raw == dot3_s(self, rhs),
    {
        let px = self.x.mul(rhs.x);
        let py = self.y.mul(rhs.y);
        let pz = self.z.mul(rhs.z);
        proof {
            lemma_tdiv_mag(self.x.raw * rhs.x.raw, SCALE as int);
            lemma_tdiv_mag(self.y.raw * rhs.y.raw, SCALE as int);
            lemma_tdiv_mag(self.z.raw * rhs.z.raw, SCALE as int);
        }
        px.add(py).add(pz)
    }

    /// Truncated squared length; never negative.
    pub fn len_squared(self) -> (r: Fixed)
        requires
            dot3_ok(self, self),
        ensures
            r.raw == dot3_s(self, self),
            r.raw >= 0,
    {
        proof {
            lemma_fmul_sq_nonneg(self.x.raw as int);
            lemma_fmul_sq_nonneg(self.y.raw as int);
            lemma_fmul_sq_nonneg(self.z.raw as int);
        }
        self.dot(self)
    }

    /// Truncated length: the fixed-point root of the squared length.
    pub fn len(self) -> (r: Fixed)
        requires
            len3_ok(self),
        ensures
            r.raw == fsqrt_s(dot3_s(self, self)),
            r.raw >= 0,
    {
        proof {
            lemma_len3_ok_dot(self);
        }
        let ls = self.len_squared();
        ls.sqrt()
    }

    /// The unit-length direction of a vector of positive squared length.
    pub fn normal(self) -> (r: Vec3d)
        requires
            len3_ok(self),
            dot3_s(self, self) > 0,
        ensures
            r == normal3_s(self),
    {
        proof {
            lemma_len3_ok_dot(self);
            lemma_fsqrt_pos(dot3_s(self, self));
        }
        let l = self.len();
        self.div(l)
    }

    /// Normalizes in place.
    pub fn normalize(&mut self)
        requires
            len3_ok(*old(self)),
            dot3_s(*old(self), *old(self)) > 0,
        ensures
            *final(self) == normal3_s(*old(self)),
    {
        *self = self.normal();
    }

    /// Applies a function to each component.
    pub fn map<F: Fn(Fixed) -> Fixed>(self, f: F) -> (r: Vec3d)
        requires
            call_requires(f, (self.x,)),
            call_requires(f, (self.y,)),
            call_requires(f, (self.z,)),
        ensures
            call_ensures(f, (self.x,), r.x),
            call_ensures(f, (self.y,), r.y),
            call_ensures(f, (self.z,), r.z),
    {
        Vec3d { x: f(self.x), y: f(self.y), z: f(self.z) }
    }

    /// Reflection about the normal `n`, for near-unit vectors.
    pub fn reflect(self, n: Vec3d) -> (r: Vec3d)
        requires
            iabs(self.x.raw as int) < 131072,
            iabs(self.y.raw as int) < 131072,
            iabs(self.z.raw as int) < 131072,
            iabs(n.x.raw as int) < 131072,
            iabs(n.y.raw as int) < 131072,
            iabs(n.z.raw as int) < 131072,
        ensures
            r == reflect3_s(self, n),
            iabs(r.x.raw as int) <= 0x800000,
            iabs(r.y.raw as int) <= 0x800000,
            iabs(r.z.raw as int) <= 0x800000,
    {
        proof {
            lemma_dot3_bound(self, n, 131072, 131072);
        }
        let d = self.dot(n);
        let k = d.add(d);
        proof {
            assert(mul_ok(n.x.raw as int, k.raw as int) && mul_ok(n.y.raw as int, k.raw as int)
                && mul_ok(n.z.raw as int, k.raw as int)) by (nonlinear_arith)
                requires
                    iabs(n.x.raw as int) < 131072,
                    iabs(n.y.raw as int) < 131072,
                    iabs(n.z.raw as int) < 131072,
                    iabs(k.raw as int) <= 0x300000,
            ;
            lemma_fmul_bound(n.x.raw as int, k.raw as int, 131072, 0x300000);
            lemma_fmul_bound(n.y.raw as int, k.raw as int, 131072, 0x300000);
            lemma_fmul_bound(n.z.raw as int, k.raw as int, 131072, 0x300000);
        }
        self.sub(n.scale(k))
    }

    /// Truncated cross product.
    pub fn cross(self, rhs: Vec3d) -> (r: Vec3d)
        requires
            mul_ok(self.y.raw as int, rhs.z.raw as int),
            mul_ok(self.z.raw as int, rhs.y.raw as int),
            mul_ok(self.z.raw as int, rhs.x.raw as int),
            mul_ok(self.x.raw as int, rhs.z.raw as int),
            mul_ok(self.x.raw as int, rhs.y.raw as int),
            mul_ok(self.y.raw as int, rhs.x.raw as int),
        ensures
            r.x.raw == fmul_s(self.y.raw as int, rhs.z.raw as int) - fmul_s(
                self.z.raw as int,
                rhs.y.raw as int,
            ),
            r.y.raw == fmul_s(self.z.raw as int, rhs.x.raw as int) - fmul_s(
                self.x.raw as int,
                rhs.z.raw as int,
            ),
            r.z.raw == fmul_s(self.x.raw as int, rhs.y.raw as int) - fmul_s(
                self.y.raw as int,
                rhs.x.raw as int,
            ),
    {
        proof {
            lemma_tdiv_mag(self.y.raw * rhs.z.raw, SCALE as int);
            lemma_tdiv_mag(self.z.raw * rhs.y.raw, SCALE as int);
            lemma_tdiv_mag(self.z.raw * rhs.x.raw, SCALE as int);
            lemma_tdiv_mag(self.x.raw * rhs.z.raw, SCALE as int);
            lemma_tdiv_mag(self.x.raw * rhs.y.raw, SCALE as int);
            lemma_tdiv_mag(self.y.raw * rhs.x.raw, SCALE as int);
        }
        Vec3d {
            x: self.y.mul(rhs.z).sub(self.z.mul(rhs.y)),
            y: self.z.mul(rhs.x).sub(self.x.mul(rhs.z)),
            z: self.x.mul(rhs.y).sub(self.y.mul(rhs.x)),
        }
    }
}

/// A normalized vector is close to unit length: every component is below
/// two in magnitude, and the truncated squared length stays positive.
pub proof fn lemma_normal3_props(v: Vec3d)
    requires
        len3_ok(v),
        dot3_s(v, v) > 0,
    ensures
        iabs(normal3_s(v).x.raw as int) < 131072,
        iabs(normal3_s(v).y.raw as int) < 131072,
        iabs(normal3_s(v).z.raw as int) < 131072,
        len3_ok(normal3_s(v)),
        dot3_ok(normal3_s(v), normal3_s(v)),
        dot3_s(normal3_s(v), normal3_s(v)) > 0,
{
    let d = dot3_s(v, v);
    let s = fsqrt_s(d);
    lemma_len3_ok_dot(v);
    lemma_fsqrt_pos(d);
    crate::fixed::lemma_sqrt_floor_bounds((d * SCALE) as nat);
    assert(s * s <= d * SCALE < (s + 1) * (s + 1));
    lemma_fmul_sq_nonneg(v.x.raw as int);
    lemma_fmul_sq_nonneg(v.y.raw as int);
    lemma_fmul_sq_nonneg(v.z.raw as int);
    lemma_normal3_comp_upper(v.x.raw as int, d, s);
    lemma_normal3_comp_upper(v.y.raw as int, d, s);
    lemma_normal3_comp_upper(v.z.raw as int, d, s);
    let n = normal3_s(v);
    assert(mul_ok(n.x.raw as int, n.x.raw as int) && mul_ok(n.y.raw as int, n.y.raw as int)
        && mul_ok(n.z.raw as int, n.z.raw as int)) by (nonlinear_arith)
        requires
            iabs(n.x.raw as int) < 131072,
            iabs(n.y.raw as int) < 131072,
            iabs(n.z.raw as int) < 131072,
    ;
    let mx = fmul_s(v.x.raw as int, v.x.raw as int);
    let my = fmul_s(v.y.raw as int, v.y.raw as int);
    let mz = fmul_s(v.z.raw as int, v.z.raw as int);
    lemma_fmul_sq_nonneg(n.x.raw as int);
    lemma_fmul_sq_nonneg(n.y.raw as int);
    lemma_fmul_sq_nonneg(n.z.raw as int);
    if mx + mx + mx >= d {
        lemma_normal3_comp_lower(v.x.raw as int, d, s);
    } else if my + my + my >= d {
        lemma_normal3_comp_lower(v.y.raw as int, d, s);
    } else {
        lemma_normal3_comp_lower(v.z.raw as int, d, s);
    }
}

/// One component of a normalized vector is below two in magnitude.
proof fn lemma_normal3_comp_upper(a: int, d: int, s: int)
    requires
        fmul_s(a, a) <= d,
        d >= 1,
        s >= 256,
        s * s <= d * SCALE < (s + 1) * (s + 1),
    ensures
        iabs(fdiv_s(a, s)) < 131072,
{
    lemma_tdiv_mag(a * a, SCALE as int);
    // `a * a <= SCALE * (d + 1) - 1`: the truncation drops less than one unit.
    lemma_fundamental_div_mod(a * a, SCALE as int);
    assert(iabs(a * a) == a * a) by (nonlinear_arith);
    assert(a * a < SCALE * (d + 1));
    // `(s + 1)^2 <= 2 * s * s` once `s >= 3`, and `SCALE <= s * s`.
    assert(a * a < 4 * (s * s)) by (nonlinear_arith)
        requires
            a * a < SCALE * (d + 1),
            d * SCALE < (s + 1) * (s + 1),
            s >= 256,
            SCALE == 65536,
            d >= 1,
    ;
    assert(iabs(a) * SCALE < (131072 * s)) by (nonlinear_arith)
        requires
            a * a < 4 * (s * s),
            s >= 256,
            SCALE == 65536,
            iabs(a) == if a >= 0 { a } else { -a },
    ;
    lemma_tdiv_mag(a * SCALE, s);
    assert(iabs(a * SCALE) == iabs(a) * SCALE) by (nonlinear_arith);
    lemma_multiply_divide_lt(iabs(a) * SCALE, s, 131072);
    lemma_mul_is_commutative(s, 131072);
}

/// The dominant component keeps the normalized vector away from zero.
proof fn lemma_normal3_comp_lower(a: int, d: int, s: int)
    requires
        3 * fmul_s(a, a) >= d,
        d >= 1,
        s >= 256,
        s * s <= d * SCALE < (s + 1) * (s + 1),
    ensures
        fmul_s(fdiv_s(a, s), fdiv_s(a, s)) >= 1,
{
    lemma_tdiv_mag(a * a, SCALE as int);
    lemma_fundamental_div_mod(a * a, SCALE as int);
    assert(iabs(a * a) == a * a) by (nonlinear_arith);
    // `a * a >= SCALE * fmul_s(a, a)` and `3 * (a * a) >= d * SCALE >= s * s`.
    assert(2 * iabs(a) >= s) by (nonlinear_arith)
        requires
            a * a >= SCALE * fmul_s(a, a),
            3 * fmul_s(a, a) >= d,
            s * s <= d * SCALE,
            s >= 256,
            SCALE == 65536,
            iabs(a) == if a >= 0 { a } else { -a },
    ;
    // So `|a| * SCALE >= s * 32768`, and the truncated quotient is large.
    assert(iabs(a) * SCALE >= s * 32768) by (nonlinear_arith)
        requires
            2 * iabs(a) >= s,
            SCALE == 65536,
    ;
    lemma_tdiv_mag(a * SCALE, s);
    assert(iabs(a * SCALE) == iabs(a) * SCALE) by (nonlinear_arith);
    lemma_div_lower_bound(iabs(a) * SCALE, s, 32768);
    let q = iabs(fdiv_s(a, s));
    assert(q >= 32768);
    // `q * q / SCALE >= 1` since `q * q >= SCALE`.
    assert(q * q >= 16384 * SCALE) by (nonlinear_arith)
        requires
            q >= 32768,
            SCALE == 65536,
    ;
    lemma_tdiv_mag(q * q, SCALE as int);
    assert(iabs(q * q) == q * q) by (nonlinear_arith)
        requires q >= 0,
    ;
    lemma_div_is_ordered(16384 * SCALE, q * q, SCALE as int);
    lemma_div_multiples_vanish(16384, SCALE as int);
    lemma_mul_is_commutative(16384, SCALE as int);
    // The magnitude of the quotient squares to the square of the quotient.
    let f = fdiv_s(a, s);
    assert(f * f == q * q) by (nonlinear_arith)
        requires q == iabs(f), iabs(f) == if f >= 0 { f } else { -f },
    ;
}

/// A quotient is at least `c` when the numerator is at least `b * c`.
proof fn lemma_div_lower_bound(a: int, b: int, c: int)
    requires
        b > 0,
        a >= b * c,
    ensures
        a / b >= c,
{
    lemma_fundamental_div_mod(a, b);
    assert(a / b >= c) by (nonlinear_arith)
        requires
            a == b * (a / b) + a % b,
            0 <= a % b < b,
            a >= b * c,
            b > 0,
    ;
}

/// Componentwise magnitude caps bound a truncated dot product.
pub proof fn lemma_dot3_bound(u: Vec3d, v: Vec3d, mu: int, mv: int)
    requires
        0 <= mu,
        0 <= mv,
        mu * mv < 0x40000000000000000000000000000000,
        iabs(u.x.raw as int) <= mu,
        iabs(u.y.raw as int) <= mu,
        iabs(u.z.raw as int) <= mu,
        iabs(v.x.raw as int) <= mv,
        iabs(v.y.raw as int) <= mv,
        iabs(v.z.raw as int) <= mv,
    ensures
        dot3_ok(u, v),
        iabs(dot3_s(u, v)) <= 3 * ((mu * mv) / (SCALE as int)),
{
    assert forall|a: int, b: int|
        iabs(a) <= mu && iabs(b) <= mv implies mul_ok(a, b) by {
        assert(iabs(a * b) == iabs(a) * iabs(b)) by (nonlinear_arith);
        assert(iabs(a) * iabs(b) <= mu * mv) by (nonlinear_arith)
            requires 0 <= iabs(a) <= mu, 0 <= iabs(b) <= mv,
        ;
    }
    lemma_fmul_bound(u.x.raw as int, v.x.raw as int, mu, mv);
    lemma_fmul_bound(u.y.raw as int, v.y.raw as int, mu, mv);
    lemma_fmul_bound(u.z.raw as int, v.z.raw as int, mu, mv);
}

/// Negating a vector negates its dot product with anything.
pub proof fn lemma_dot3_neg_right(u: Vec3d, v: Vec3d)
    requires
        v.x.raw > i128::MIN,
        v.y.raw > i128::MIN,
        v.z.raw > i128::MIN,
    ensures
        dot3_s(u, neg3_s(v)) == -dot3_s(u, v),
{
    lemma_fmul_neg_right(u.x.raw as int, v.x.raw as int);
    lemma_fmul_neg_right(u.y.raw as int, v.y.raw as int);
    lemma_fmul_neg_right(u.z.raw as int, v.z.raw as int);
}

/// Negating the left vector negates the dot product.
pub proof fn lemma_dot3_neg_left(u: Vec3d, v: Vec3d)
    requires
        u.x.raw > i128::MIN,
        u.y.raw > i128::MIN,
        u.z.raw > i128::MIN,
    ensures
        dot3_s(neg3_s(u), v) == -dot3_s(u, v),
{
    crate::fixed::lemma_fmul_neg_left(u.x.raw as int, v.x.raw as int);
    crate::fixed::lemma_fmul_neg_left(u.y.raw as int, v.y.raw as int);
    crate::fixed::lemma_fmul_neg_left(u.z.raw as int, v.z.raw as int);
}

/// Negating a vector keeps its squared length.
pub proof fn lemma_dot3_neg_both(v: Vec3d)
    requires
        v.x.raw > i128::MIN,
        v.y.raw > i128::MIN,
        v.z.raw > i128::MIN,
    ensures
        dot3_s(neg3_s(v), neg3_s(v)) == dot3_s(v, v),
{
    lemma_fmul_neg_right(-v.x.raw as int, v.x.raw as int);
    lemma_fmul_neg_right(-v.y.raw as int, v.y.raw as int);
    lemma_fmul_neg_right(-v.z.raw as int, v.z.raw as int);
    crate::fixed::lemma_fmul_neg_left(v.x.raw as int, v.x.raw as int);
    crate::fixed::lemma_fmul_neg_left(v.y.raw as int, v.y.raw as int);
    crate::fixed::lemma_fmul_neg_left(v.z.raw as int, v.z.raw as int);
}

/// Small components keep the squared length inside the root's domain.
pub proof fn lemma_len3_ok_dot(v: Vec3d)
    requires
        len3_ok(v),
    ensures
        dot3_ok(v, v),
        0 <= dot3_s(v, v) < 0x4000000000000000000000000000,
{
    assert(mul_ok(v.x.raw as int, v.x.raw as int) && mul_ok(v.y.raw as int, v.y.raw as int)
        && mul_ok(v.z.raw as int, v.z.raw as int)) by (nonlinear_arith)
        requires len3_ok(v),
    ;
    lemma_fmul_sq_nonneg(v.x.raw as int);
    lemma_fmul_sq_nonneg(v.y.raw as int);
    lemma_fmul_sq_nonneg(v.z.raw as int);
    lemma_fmul_bound(v.x.raw as int, v.x.raw as int, 0x40000000000000, 0x40000000000000);
    lemma_fmul_bound(v.y.raw as int, v.y.raw as int, 0x40000000000000, 0x40000000000000);
    lemma_fmul_bound(v.z.raw as int, v.z.raw as int, 0x40000000000000, 0x40000000000000);
}


/// A 2D vector of fixed-point scalars.
#[derive(Clone, Copy, Debug, PartialEq, Eq, Structural)]
pub struct Vec2d {
    pub x: Fixed,
    pub y: Fixed,
}

/// Truncated dot product of two 2D vectors.
pub open spec fn dot2_s(u: Vec2d, v: Vec2d) -> int {
    fmul_s(u.x.raw as int, v.x.raw as int) + fmul_s(u.y.raw as int, v.y.raw as int)
}

impl Vec2d {
    pub fn new(x: Fixed, y: Fixed) -> (r: Vec2d)
        ensures
            r == (Vec2d { x, y }),
    {
        Vec2d { x, y }
    }

    /// Number of components.
    pub fn count(&self) -> (r: usize)
        ensures
            r == 2,
    {
        2
    }

    pub fn sub(self, rhs: Vec2d) -> (r: Vec2d)
        requires
            add_ok(self.x.raw as int, -(rhs.x.raw as int)),
            add_ok(self.y.raw as int, -(rhs.y.raw as int)),
        ensures
            r.x.raw == self.x.raw - rhs.x.raw,
            r.y.raw == self.y.raw - rhs.y.raw,
    {
        Vec2d { x: self.x.sub(rhs.x), y: self.y.sub(rhs.y) }
    }

    /// Scalar division.
    pub fn div(self, s: Fixed) -> (r: Vec2d)
        requires
            s.raw != 0,
            s.raw > i128::MIN,
            div_num_ok(self.x.raw as int),
            div_num_ok(self.y.raw as int),
        ensures
            r.x.raw == fdiv_s(self.x.raw as int, s.raw as int),
            r.y.raw == fdiv_s(self.y.raw as int, s.raw as int),
    {
        Vec2d { x: self.x.div(s), y: self.y.div(s) }
    }

    /// Sum of the components.
    pub fn sum(self) -> (r: Fixed)
        requires
            add_ok(self.x.raw as int, self.y.raw as int),
        ensures
            r.raw == self.x.raw + self.y.raw,
    {
        self.x.add(self.y)
    }

    /// Truncated dot product.
    pub fn dot(self, rhs: Vec2d) -> (r: Fixed)
        requires
            mul_ok(self.x.raw as int, rhs.x.raw as int),
            mul_ok(self.y.raw as int, rhs.y.raw as int),
        ensures
            r.raw == dot2_s(self, rhs),
    {
        let px = self.x.mul(rhs.x);
        let py = self.y.mul(rhs.y);
        proof {
            lemma_tdiv_mag(self.x.raw * rhs.x.raw, SCALE as int);
            lemma_tdiv_mag(self.y.raw * rhs.y.raw, SCALE as int);
        }
        px.add(py)
    }

    /// Truncated squared length; never negative.
    pub fn len_squared(self) -> (r: Fixed)
        requires
            mul_ok(self.x.raw as int, self.x.raw as int),
            mul_ok(self.y.raw as int, self.y.raw as int),
        ensures
            r.raw == dot2_s(self, self),
            r.raw >= 0,
    {
        proof {
            lemma_fmul_sq_nonneg(self.x.raw as int);
            lemma_fmul_sq_nonneg(self.y.raw as int);
        }
        self.dot(self)
    }

    /// Truncated length: the fixed-point root of the squared length.
    pub fn len(self) -> (r: Fixed)
        requires
            iabs(self.x.raw as int) <= 0x40000000000000,
            iabs(self.y.raw as int) <= 0x40000000000000,
        ensures
            r.raw == fsqrt_s(dot2_s(self, self)),
            r.raw >= 0,
    {
        proof {
            lemma_fmul_bound(self.x.raw as int, self.x.raw as int, 0x40000000000000, 0x40000000000000);
            lemma_fmul_bound(self.y.raw as int, self.y.raw as int, 0x40000000000000, 0x40000000000000);
            lemma_fmul_sq_nonneg(self.x.raw as int);
            lemma_fmul_sq_nonneg(self.y.raw as int);
        }
        let ls = self.len_squared();
        ls.sqrt()
    }

    /// The vector divided by its own truncated length.
    pub fn normal(self) -> (r: Vec2d)
        requires
            iabs(self.x.raw as int) <= 0x40000000000000,
            iabs(self.y.raw as int) <= 0x40000000000000,
            dot2_s(self, self) > 0,
        ensures
            r.x.raw == fdiv_s(self.x.raw as int, fsqrt_s(dot2_s(self, self))),
            r.y.raw == fdiv_s(self.y.raw as int, fsqrt_s(dot2_s(self, self))),
    {
        proof {
            lemma_fsqrt_pos(dot2_s(self, self));
        }
        let l = self.len();
        self.div(l)
    }

    /// Normalizes in place.
    pub fn normalize(&mut self)
        requires
            iabs(old(self).x.raw as int) <= 0x40000000000000,
            iabs(old(self).y.raw as int) <= 0x40000000000000,
            dot2_s(*old(self), *old(self)) > 0,
        ensures
            final(self).x.raw == fdiv_s(
                old(self).x.raw as int,
                fsqrt_s(dot2_s(*old(self), *old(self))),
            ),
            final(self).y.raw == fdiv_s(
                old(self).y.raw as int,
                fsqrt_s(dot2_s(*old(self), *old(self))),
            ),
    {
        *self = self.normal();
    }

    /// Applies a function to each component.
    pub fn map<F: Fn(Fixed) -> Fixed>(self, f: F) -> (r: Vec2d)
        requires
            call_requires(f, (self.x,)),
            call_requires(f, (self.y,)),
        ensures
            call_ensures(f, (self.x,), r.x),
            call_ensures(f, (self.y,), r.y),
    {
        Vec2d { x: f(self.x), y: f(self.y) }
    }
}

/// A 4D vector of fixed-point scalars.
#[derive(Clone, Copy, Debug, PartialEq, Eq, Structural)]
pub struct Vec4d {
    pub x: Fixed,
    pub y: Fixed,
    pub z: Fixed,
    pub w: Fixed,
}

/// Truncated dot product of two 4D vectors.
pub open spec fn dot4_s(u: Vec4d, v: Vec4d) -> int {
    fmul_s(u.x.raw as int, v.x.raw as int) + fmul_s(u.y.raw as int, v.y.raw as int) + fmul_s(
        u.z.raw as int,
        v.z.raw as int,
    ) + fmul_s(u.w.raw as int, v.w.raw as int)
}

impl Vec4d {
    pub fn new(x: Fixed, y: Fixed, z: Fixed, w: Fixed) -> (r: Vec4d)
        ensures
            r == (Vec4d { x, y, z, w }),
    {
        Vec4d { x, y, z, w }
    }

    /// Number of components.
    pub fn count(&self) -> (r: usize)
        ensures
            r == 4,
    {
        4
    }

    pub fn sub(self, rhs: Vec4d) -> (r: Vec4d)
        requires
            add_ok(self.x.raw as int, -(rhs.x.raw as int)),
            add_ok(self.y.raw as int, -(rhs.y.raw as int)),
            add_ok(self.z.raw as int, -(rhs.z.raw as int)),
            add_ok(self.w.raw as int, -(rhs.w.raw as int)),
        ensures
            r.x.raw == self.x.raw - rhs.x.raw,
            r.y.raw == self.y.raw - rhs.y.raw,
            r.z.raw == self.z.raw - rhs.z.raw,
            r.w.raw == self.w.raw - rhs.w.raw,
    {
        Vec4d {
            x: self.x.sub(rhs.x),
            y: self.y.sub(rhs.y),
            z: self.z.sub(rhs.z),
            w: self.w.sub(rhs.w),
        }
    }

    /// Scalar division.
    pub fn div(self, s: Fixed) -> (r: Vec4d)
        requires
            s.raw != 0,
            s.raw > i128::MIN,
            div_num_ok(self.x.raw as int),
            div_num_ok(self.y.raw as int),
            div_num_ok(self.z.raw as int),
            div_num_ok(self.w.raw as int),
        ensures
            r.x.raw == fdiv_s(self.x.raw as int, s.raw as int),
            r.y.raw == fdiv_s(self.y.raw as int, s.raw as int),
            r.z.raw == fdiv_s(self.z.raw as int, s.raw as int),
            r.w.raw == fdiv_s(self.w.raw as int, s.raw as int),
    {
        Vec4d { x: self.x.div(s), y: self.y.div(s), z: self.z.div(s), w: self.w.div(s) }
    }

    /// Sum of the components.
    pub fn sum(self) -> (r: Fixed)
        requires
            add_ok(self.x.raw as int, self.y.raw as int),
            add_ok(self.x.raw + self.y.raw, self.z.raw as int),
            add_ok(self.x.raw + self.y.raw + self.z.raw, self.w.raw as int),
        ensures
            r.raw == self.x.raw + self.y.raw + self.z.raw + self.w.raw,
    {
        self.x.add(self.y).add(self.z).add(self.w)
    }

    /// Truncated dot product.
    pub fn dot(self, rhs: Vec4d) -> (r: Fixed)
        requires
            mul_ok(self.x.raw as int, rhs.x.raw as int),
            mul_ok(self.y.raw as int, rhs.y.raw as int),
            mul_ok(self.z.raw as int, rhs.z.raw as int),
            mul_ok(self.w.raw as int, rhs.w.raw as int),
        ensures
            r.raw == dot4_s(self, rhs),
    {
        let px = self.x.mul(rhs.x);
        let py = self.y.mul(rhs.y);
        let pz = self.z.mul(rhs.z);
        let pw = self.w.mul(rhs.w);
        proof {
            lemma_tdiv_mag(self.x.raw * rhs.x.raw, SCALE as int);
            lemma_tdiv_mag(self.y.raw * rhs.y.raw, SCALE as int);
            lemma_tdiv_mag(self.z.raw * rhs.z.raw, SCALE as int);
            lemma_tdiv_mag(self.w.raw * rhs.w.raw, SCALE as int);
        }
        px.add(py).add(pz).add(pw)
    }

    /// Truncated squared length; never negative.
    pub fn len_squared(self) -> (r: Fixed)
        requires
            mul_ok(self.x.raw as int, self.x.raw as int),
            mul_ok(self.y.raw as int, self.y.raw as int),
            mul_ok(self.z.raw as int, self.z.raw as int),
            mul_ok(self.w.raw as int, self.w.raw as int),
        ensures
            r.raw == dot4_s(self, self),
            r.raw >= 0,
    {
        proof {
            lemma_fmul_sq_nonneg(self.x.raw as int);
            lemma_fmul_sq_nonneg(self.y.raw as int);
            lemma_fmul_sq_nonneg(self.z.raw as int);
            lemma_fmul_sq_nonneg(self.w.raw as int);
        }
        self.dot(self)
    }

    /// Truncated length: the fixed-point root of the squared length.
    pub fn len(self) -> (r: Fixed)
        requires
            iabs(self.x.raw as int) <= 0x40000000000000,
            iabs(self.y.raw as int) <= 0x40000000000000,
            iabs(self.z.raw as int) <= 0x40000000000000,
            iabs(self.w.raw as int) <= 0x40000000000000,
        ensures
            r.raw == fsqrt_s(dot4_s(self, self)),
            r.raw >= 0,
    {
        proof {
            lemma_fmul_bound(self.x.raw as int, self.x.raw as int, 0x40000000000000, 0x40000000000000);
            lemma_fmul_bound(self.y.raw as int, self.y.raw as int, 0x40000000000000, 0x40000000000000);
            lemma_fmul_bound(self.z.raw as int, self.z.raw as int, 0x40000000000000, 0x40000000000000);
            lemma_fmul_bound(self.w.raw as int, self.w.raw as int, 0x40000000000000, 0x40000000000000);
            lemma_fmul_sq_nonneg(self.x.raw as int);
            lemma_fmul_sq_nonneg(self.y.raw as int);
            lemma_fmul_sq_nonneg(self.z.raw as int);
            lemma_fmul_sq_nonneg(self.w.raw as int);
        }
        let ls = self.len_squared();
        ls.sqrt()
    }

    /// The vector divided by its own truncated length.
    pub fn normal(self) -> (r: Vec4d)
        requires
            iabs(self.x.raw as int) <= 0x40000000000000,
            iabs(self.y.raw as int) <= 0x40000000000000,
            iabs(self.z.raw as int) <= 0x40000000000000,
            iabs(self.w.raw as int) <= 0x40000000000000,
            dot4_s(self, self) > 0,
        ensures
            r.x.raw == fdiv_s(self.x.raw as int, fsqrt_s(dot4_s(self, self))),
            r.y.raw == fdiv_s(self.y.raw as int, fsqrt_s(dot4_s(self, self))),
            r.z.raw == fdiv_s(self.z.raw as int, fsqrt_s(dot4_s(self, self))),
            r.w.raw == fdiv_s(self.w.raw as int, fsqrt_s(dot4_s(self, self))),
    {
        proof {
            lemma_fsqrt_pos(dot4_s(self, self));
        }
        let l = self.len();
        self.div(l)
    }

    /// Normalizes in place.
    pub fn normalize(&mut self)
        requires
            iabs(old(self).x.raw as int) <= 0x40000000000000,
            iabs(old(self).y.raw as int) <= 0x40000000000000,
            iabs(old(self).z.raw as int) <= 0x40000000000000,
            iabs(old(self).w.raw as int) <= 0x40000000000000,
            dot4_s(*old(self), *old(self)) > 0,
        ensures
            final(self).x.raw == fdiv_s(
                old(self).x.raw as int,
                fsqrt_s(dot4_s(*old(self), *old(self))),
            ),
            final(self).y.raw == fdiv_s(
                old(self).y.raw as int,
                fsqrt_s(dot4_s(*old(self), *old(self))),
            ),
            final(self).z.raw == fdiv_s(
                old(self).z.raw as int,
                fsqrt_s(dot4_s(*old(self), *old(self))),
            ),
            final(self).w.raw == fdiv_s(
                old(self).w.raw as int,
                fsqrt_s(dot4_s(*old(self), *old(self))),
            ),
    {
        *self = self.normal();
    }

    /// Applies a function to each component.
    pub fn map<F: Fn(Fixed) -> Fixed>(self, f: F) -> (r: Vec4d)
        requires
            call_requires(f, (self.x,)),
            call_requires(f, (self.y,)),
            call_requires(f, (self.z,)),
            call_requires(f, (self.w,)),
        ensures
            call_ensures(f, (self.x,), r.x),
            call_ensures(f, (self.y,), r.y),
            call_ensures(f, (self.z,), r.z),
            call_ensures(f, (self.w,), r.w),
    {
        Vec4d { x: f(self.x), y: f(self.y), z: f(self.z), w: f(self.w) }
    }
}


} // verus!
