//! The scalar type of the renderer: a signed fixed-point number with
//! sixteen fractional bits, stored as an `i128` numerator.
//!
//! A `Fixed` with numerator `raw` denotes the real number `raw / 65536`.
//! All operations truncate toward zero, exactly as stated by the spec
//! functions below, so every arithmetic step of the renderer has an
//! exact mathematical description.

use vstd::prelude::*;
use vstd::arithmetic::div_mod::*;
use vstd::arithmetic::mul::*;

verus! {

/// Denominator of the fixed-point representation.
pub const SCALE: i128 = 65536;

/// Fixed-point scalar; the value denoted is `raw / 65536`.
#[derive(Clone, Copy, Debug, PartialEq, Eq, Structural)]
pub struct Fixed {
    pub raw: i128,
}

/// Absolute value of a mathematical integer.
pub open spec fn iabs(a: int) -> int {
    if a >= 0 { a } else { -a }
}

/// Division truncating toward zero, the rounding used by every
/// fixed-point operation of this crate.
pub open spec fn tdiv(a: int, b: int) -> int {
    if (a >= 0) == (b >= 0) {
        iabs(a) / iabs(b)
    } else {
        -(iabs(a) / iabs(b))
    }
}

/// Product of two fixed-point numerators, truncated back to scale.
pub open spec fn fmul_s(a: int, b: int) -> int {
    tdiv(a * b, SCALE as int)
}

/// Quotient of two fixed-point numerators, truncated to scale.
pub open spec fn fdiv_s(a: int, b: int) -> int {
    tdiv(a * SCALE, b)
}

/// Largest `r` with `r * r <= n`.
pub open spec fn sqrt_floor(n: nat) -> nat
    decreases n,
{
    if n == 0 {
        0
    } else {
        let s = sqrt_floor((n - 1) as nat);
        if (s + 1) * (s + 1) <= n { s + 1 } else { s }
    }
}

/// Square root of a fixed-point numerator, rounded down to scale.
pub open spec fn fsqrt_s(a: int) -> int {
    sqrt_floor((a * SCALE) as nat) as int
}

/// The numerators' product stays within the working integer range.
pub open spec fn mul_ok(a: int, b: int) -> bool {
    -0x40000000000000000000000000000000 < a * b < 0x40000000000000000000000000000000
}

/// The numerator can be rescaled for a division without leaving the range.
pub open spec fn div_num_ok(a: int) -> bool {
    iabs(a) < 0x4000000000000000000000000000
}

/// The numerators' sum stays within the working integer range.
pub open spec fn add_ok(a: int, b: int) -> bool {
    i128::MIN < a + b <= i128::MAX
}

impl Fixed {
    /// The numerator as a mathematical integer; the denoted value is
    /// `self@ / 65536`.
    pub open spec fn view(self) -> int {
        self.raw as int
    }

    pub fn new(raw: i128) -> (r: Fixed)
        ensures
            r.raw == raw,
    {
        Fixed { raw }
    }

    /// The fixed-point image of a small integer.
    pub fn from_int(n: i64) -> (r: Fixed)
        ensures
            r.raw == n * SCALE,
    {
        Fixed { raw: (n as i128) * SCALE }
    }

    pub fn zero() -> (r: Fixed)
        ensures
            r.raw == 0,
    {
        Fixed { raw: 0 }
    }

    pub fn one() -> (r: Fixed)
        ensures
            r.raw == SCALE,
    {
        Fixed { raw: SCALE }
    }

    pub fn add(self, rhs: Fixed) -> (r: Fixed)
        requires
            i128::MIN < self.raw + rhs.raw <= i128::MAX,
        ensures
            r.raw == self.raw + rhs.raw,
    {
        Fixed { raw: self.raw + rhs.raw }
    }

    pub fn sub(self, rhs: Fixed) -> (r: Fixed)
        requires
            i128::MIN < self.raw - rhs.raw <= i128::MAX,
        ensures
            r.raw == self.raw - rhs.raw,
    {
        Fixed { raw: self.raw - rhs.raw }
    }

    pub fn neg(self) -> (r: Fixed)
        requires
            self.raw > i128::MIN,
        ensures
            r.raw == -self.raw,
    {
        Fixed { raw: -self.raw }
    }

    pub fn mul(self, rhs: Fixed) -> (r: Fixed)
        requires
            mul_ok(self.raw as int, rhs.raw as int),
        ensures
            r.raw == fmul_s(self.raw as int, rhs.raw as int),
    {
        let p: i128 = self.raw * rhs.raw;
        Fixed { raw: tdiv_i128(p, SCALE) }
    }

    pub fn div(self, rhs: Fixed) -> (r: Fixed)
        requires
            rhs.raw != 0,
            rhs.raw > i128::MIN,
            div_num_ok(self.raw as int),
        ensures
            r.raw == fdiv_s(self.raw as int, rhs.raw as int),
    {
        let p: i128 = self.raw * SCALE;
        Fixed { raw: tdiv_i128(p, rhs.raw) }
    }

    pub fn sqrt(self) -> (r: Fixed)
        requires
            0 <= self.raw < 0x4000000000000000000000000000,
        ensures
            r.raw == fsqrt_s(self.raw as int),
            r.raw >= 0,
    {
        proof {
            assert((self.raw as u128) * (SCALE as u128) < 0x40000000000000000000000000000000)
                by (nonlinear_arith)
                requires 0 <= self.raw < 0x4000000000000000000000000000, SCALE == 65536,
            ;
        }
        let n: u128 = (self.raw as u128) * (SCALE as u128);
        let s: u128 = isqrt_u128(n);
        proof {
            lemma_sqrt_floor_unique(n as nat, s as nat);
        }
        Fixed { raw: s as i128 }
    }
}

/// Quotient of two `i128`, truncated toward zero.
fn tdiv_i128(a: i128, b: i128) -> (q: i128)
    requires
        b != 0,
        a > i128::MIN,
        b > i128::MIN,
    ensures
        q == tdiv(a as int, b as int),
{
    let neg: bool = (a < 0) != (b < 0);
    let ma: u128 = if a < 0 { (-a) as u128 } else { a as u128 };
    let mb: u128 = if b < 0 { (-b) as u128 } else { b as u128 };
    let q: u128 = ma / mb;
    if neg {
        -(q as i128)
    } else {
        q as i128
    }
}

/// Largest `r` with `r * r <= n`, for `n` below `2^126`.
fn isqrt_u128(n: u128) -> (r: u128)
    requires
        n < 0x40000000000000000000000000000000,
    ensures
        r * r <= n < (r + 1) * (r + 1),
        r < 0x8000000000000000,
{
    let mut lo: u128 = 0;
    let mut hi: u128 = 0x8000000000000000;
    proof {
        assert(hi * hi == 0x40000000000000000000000000000000) by (nonlinear_arith)
            requires hi == 0x8000000000000000,
        ;
    }
    while lo + 1 < hi
        invariant
            lo < hi <= 0x8000000000000000,
            lo * lo <= n,
            n < hi * hi,
        decreases hi - lo,
    {
        let mid: u128 = lo + (hi - lo) / 2;
        assert(lo < mid < hi);
        proof {
            assert(mid * mid < 0x40000000000000000000000000000000) by (nonlinear_arith)
                requires mid < 0x8000000000000000,
            ;
        }
        if mid * mid <= n {
            lo = mid;
        } else {
            hi = mid;
        }
    }
    lo
}

/// Truncating division agrees with Euclidean division on a nonnegative
/// numerator and positive denominator, and its magnitude is the
/// magnitude of the Euclidean quotient.
pub proof fn lemma_tdiv_mag(a: int, b: int)
    requires
        b != 0,
    ensures
        iabs(tdiv(a, b)) == iabs(a) / iabs(b),
        iabs(tdiv(a, b)) * iabs(b) <= iabs(a),
        0 <= a && 0 < b ==> tdiv(a, b) == a / b,
{
    lemma_div_pos_is_pos(iabs(a), iabs(b));
    lemma_fundamental_div_mod(iabs(a), iabs(b));
    lemma_mul_is_commutative(iabs(b), iabs(a) / iabs(b));
}

/// Negating the numerator negates the truncating quotient.
pub proof fn lemma_tdiv_neg_num(a: int, b: int)
    requires
        b != 0,
    ensures
        tdiv(-a, b) == -tdiv(a, b),
{
    if a == 0 {
        lemma_div_of0(iabs(b));
    }
}

/// Truncating division is monotone in the numerator.
pub proof fn lemma_tdiv_mono(a1: int, a2: int, b: int)
    requires
        a1 <= a2,
        b > 0,
    ensures
        tdiv(a1, b) <= tdiv(a2, b),
{
    if 0 <= a1 {
        lemma_div_is_ordered(a1, a2, b);
    } else if a2 < 0 {
        lemma_div_is_ordered(-a2, -a1, b);
    } else {
        lemma_div_pos_is_pos(-a1, b);
        lemma_div_pos_is_pos(a2, b);
    }
}

/// On an exactly divisible numerator the truncation is exact.
pub proof fn lemma_tdiv_exact(a: int, b: int)
    requires
        b > 0,
        a % b == 0,
    ensures
        tdiv(a, b) * b == a,
        tdiv(a, b) == a / b,
{
    if a >= 0 {
        lemma_fundamental_div_mod(a, b);
        lemma_mul_is_commutative(b, a / b);
    } else {
        lemma_mod_of_negated(a, b);
        lemma_fundamental_div_mod(-a, b);
        lemma_mul_is_commutative(b, (-a) / b);
        assert(tdiv(a, b) * b == -((-a) / b) * b);
        lemma_mul_unary_negation((-a) / b, b);
        lemma_neg_div_is_neg(a, b);
    }
}

/// A negative multiple of `b` stays a multiple of `b`.
proof fn lemma_mod_of_negated(a: int, b: int)
    requires
        b > 0,
        a % b == 0,
        a < 0,
    ensures
        (-a) % b == 0,
{
    lemma_fundamental_div_mod(a, b);
    assert(-a == b * (-(a / b)) + 0) by {
        lemma_mul_unary_negation(b, a / b);
    }
    lemma_fundamental_div_mod_converse(-a, b, -(a / b), 0);
}

/// Euclidean division of a negative multiple matches the negated quotient.
proof fn lemma_neg_div_is_neg(a: int, b: int)
    requires
        b > 0,
        a % b == 0,
        a < 0,
    ensures
        a / b == -((-a) / b),
{
    lemma_mod_of_negated(a, b);
    lemma_fundamental_div_mod(-a, b);
    assert(a == b * (-((-a) / b)) + 0) by {
        lemma_mul_unary_negation(b, (-a) / b);
    }
    lemma_fundamental_div_mod_converse(a, b, -((-a) / b), 0);
}

/// Multiplying by the fixed-point one is the identity.
pub proof fn lemma_fmul_one(a: int)
    ensures
        fmul_s(a, SCALE as int) == a,
{
    lemma_mod_multiples_basic(a, SCALE as int);
    lemma_tdiv_exact(a * SCALE, SCALE as int);
    lemma_div_multiples_vanish(a, SCALE as int);
    lemma_mul_is_commutative(a, SCALE as int);
}

/// Magnitude bound for a truncated product, from bounds on the factors.
pub proof fn lemma_fmul_bound(a: int, b: int, ma: int, mb: int)
    requires
        iabs(a) <= ma,
        iabs(b) <= mb,
    ensures
        iabs(fmul_s(a, b)) <= (ma * mb) / (SCALE as int),
        iabs(fmul_s(a, b)) <= ma * mb,
        ma * mb < 0x40000000000000000000000000000000 ==> mul_ok(a, b),
{
    assert(iabs(a * b) == iabs(a) * iabs(b)) by (nonlinear_arith);
    assert(iabs(a) * iabs(b) <= ma * mb) by (nonlinear_arith)
        requires 0 <= iabs(a) <= ma, 0 <= iabs(b) <= mb,
    ;
    lemma_tdiv_mag(a * b, SCALE as int);
    lemma_div_is_ordered(iabs(a * b), ma * mb, SCALE as int);
    lemma_div_nonincreasing(ma * mb, SCALE as int);
}

/// Magnitude bound for a truncated quotient, from a bound on the numerator.
pub proof fn lemma_fdiv_bound(a: int, b: int, ma: int)
    requires
        b != 0,
        iabs(a) <= ma,
    ensures
        iabs(fdiv_s(a, b)) <= ma * SCALE,
{
    lemma_tdiv_mag(a * SCALE, b);
    assert(iabs(a * SCALE) == iabs(a) * SCALE) by (nonlinear_arith);
    assert(iabs(a) * SCALE <= ma * SCALE) by (nonlinear_arith)
        requires iabs(a) <= ma,
    ;
    lemma_div_is_ordered(iabs(a * SCALE), ma * SCALE, iabs(b));
    lemma_div_nonincreasing(ma * SCALE, iabs(b));
}

/// A truncated quotient of a nonnegative value by a positive one is
/// nonnegative.
pub proof fn lemma_fdiv_nonneg(a: int, b: int)
    requires
        0 <= a,
        0 < b,
    ensures
        0 <= fdiv_s(a, b),
{
    lemma_mul_nonnegative(a, SCALE as int);
    lemma_div_pos_is_pos(a * SCALE, b);
}

/// A truncated product of nonnegative factors is nonnegative.
pub proof fn lemma_fmul_nonneg(a: int, b: int)
    requires
        0 <= a,
        0 <= b,
    ensures
        0 <= fmul_s(a, b),
{
    lemma_mul_nonnegative(a, b);
    lemma_div_pos_is_pos(a * b, SCALE as int);
}

/// A multiple of the divisor divides out exactly.
pub proof fn lemma_tdiv_multiple(m: int, b: int)
    requires
        b > 0,
    ensures
        tdiv(m * b, b) == m,
{
    lemma_mod_multiples_basic(m, b);
    lemma_tdiv_exact(m * b, b);
    lemma_div_multiples_vanish(m, b);
    lemma_mul_is_commutative(m, b);
}

/// A product with one factor at scale truncates exactly:
/// `fmul_s(x * SCALE, y) == x * y`.
pub proof fn lemma_fmul_of_multiple(x: int, y: int)
    ensures
        fmul_s(x * SCALE, y) == x * y,
{
    assert((x * SCALE) * y == (x * y) * SCALE) by (nonlinear_arith);
    lemma_tdiv_multiple(x * y, SCALE as int);
}

/// Multiplying by the fixed-point one on the left is the identity too.
pub proof fn lemma_fmul_one_left(a: int)
    ensures
        fmul_s(SCALE as int, a) == a,
{
    lemma_fmul_one(a);
    lemma_mul_is_commutative(SCALE as int, a);
}

/// A unit-interval factor never increases a nonnegative value.
pub proof fn lemma_fmul_unit_scale(u: int, d: int)
    requires
        0 <= u <= SCALE,
        0 <= d,
    ensures
        0 <= fmul_s(u, d) <= d,
        0 <= fmul_s(d, u) <= d,
{
    lemma_fmul_nonneg(u, d);
    lemma_fmul_nonneg(d, u);
    assert(u * d <= SCALE * d) by (nonlinear_arith)
        requires 0 <= d, u <= SCALE,
    ;
    lemma_tdiv_mono(u * d, SCALE * d, SCALE as int);
    lemma_tdiv_mono(d * u, d * SCALE, SCALE as int);
    lemma_fmul_one(d);
    lemma_mod_multiples_basic(d, SCALE as int);
    lemma_tdiv_exact(SCALE * d, SCALE as int);
    lemma_mul_is_commutative(d, SCALE as int);
    lemma_div_multiples_vanish(d, SCALE as int);
}

/// Negating one factor negates the truncated product.
pub proof fn lemma_fmul_neg_left(a: int, b: int)
    ensures
        fmul_s(-a, b) == -fmul_s(a, b),
{
    lemma_mul_unary_negation(a, b);
    lemma_tdiv_neg_num(a * b, SCALE as int);
}

/// Negating the other factor negates the truncated product too.
pub proof fn lemma_fmul_neg_right(a: int, b: int)
    ensures
        fmul_s(a, -b) == -fmul_s(a, b),
{
    assert(a * (-b) == -(a * b)) by (nonlinear_arith);
    lemma_tdiv_neg_num(a * b, SCALE as int);
}

/// A truncated square is never negative.
pub proof fn lemma_fmul_sq_nonneg(a: int)
    ensures
        0 <= fmul_s(a, a),
{
    assert(0 <= a * a) by (nonlinear_arith);
    lemma_div_pos_is_pos(a * a, SCALE as int);
}

/// The fixed-point root of anything at least one is at least `1/256`.
pub proof fn lemma_fsqrt_pos(a: int)
    requires
        a >= 1,
    ensures
        fsqrt_s(a) >= 256,
{
    let n = (a * SCALE) as nat;
    lemma_sqrt_floor_bounds(n);
    let s = sqrt_floor(n);
    assert(a * SCALE >= SCALE) by (nonlinear_arith)
        requires a >= 1, SCALE == 65536,
    ;
    if s < 256 {
        assert((s + 1) * (s + 1) <= 65536) by (nonlinear_arith)
            requires s + 1 <= 256,
        ;
    }
}

/// The fixed-point root is never negative.
pub proof fn lemma_fsqrt_nonneg(a: int)
    ensures
        fsqrt_s(a) >= 0,
{
}

/// An upper bound on the fixed-point root from a squared bound.
pub proof fn lemma_fsqrt_le(a: int, m: int)
    requires
        0 <= a,
        0 <= m,
        a * SCALE <= m * m,
    ensures
        fsqrt_s(a) <= m,
{
    let n = (a * SCALE) as nat;
    lemma_sqrt_floor_bounds(n);
    let s = sqrt_floor(n);
    assert(a * SCALE >= 0) by (nonlinear_arith)
        requires 0 <= a, SCALE == 65536,
    ;
    if s > m {
        assert(m * m < s * s) by (nonlinear_arith)
            requires 0 <= m, m < s,
        ;
    }
}

/// `sqrt_floor(n)` is the floor of the square root of `n`.
pub proof fn lemma_sqrt_floor_bounds(n: nat)
    ensures
        sqrt_floor(n) * sqrt_floor(n) <= n,
        n < (sqrt_floor(n) + 1) * (sqrt_floor(n) + 1),
    decreases n,
{
    let r = sqrt_floor(n);
    if n > 0 {
        lemma_sqrt_floor_bounds((n - 1) as nat);
        let s = sqrt_floor((n - 1) as nat);
        assert(s * s <= n - 1);
        assert(n - 1 < (s + 1) * (s + 1));
        if (s + 1) * (s + 1) <= n {
            assert(r == s + 1);
            assert(r * r <= n && n < (r + 1) * (r + 1)) by (nonlinear_arith)
                requires
                    r == s + 1,
                    (s + 1) * (s + 1) <= n,
                    n - 1 < (s + 1) * (s + 1),
            ;
        } else {
            assert(r == s);
            assert(r * r <= n && n < (r + 1) * (r + 1)) by (nonlinear_arith)
                requires
                    r == s,
                    s * s <= n - 1,
                    n > 0,
                    !((s + 1) * (s + 1) <= n),
            ;
        }
    } else {
        assert(sqrt_floor(0) == 0);
        assert(r * r <= n && n < (r + 1) * (r + 1)) by (nonlinear_arith)
            requires
                r == 0,
                n == 0,
        ;
    }
}

/// A number with the floor-root bounds is the floor root.
pub proof fn lemma_sqrt_floor_unique(n: nat, r: nat)
    requires
        r * r <= n,
        n < (r + 1) * (r + 1),
    ensures
        sqrt_floor(n) == r,
{
    let s = sqrt_floor(n);
    lemma_sqrt_floor_bounds(n);
    if s < r {
        assert((s + 1) * (s + 1) <= r * r) by (nonlinear_arith)
            requires s + 1 <= r,
        ;
    }
    if r < s {
        assert((r + 1) * (r + 1) <= s * s) by (nonlinear_arith)
            requires r + 1 <= s,
        ;
    }
}

} // verus!
