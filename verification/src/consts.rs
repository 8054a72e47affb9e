//! Definition of constants and the angle conversion.

use vstd::prelude::*;
use crate::fixed::{
    div_num_ok, fdiv_s, fmul_s, iabs, lemma_fmul_bound, mul_ok, Fixed, SCALE,
};
use crate::sphere::T_CAP;

verus! {

/// The fixed-point image of pi, rounded down.
pub const PI_RAW: i128 = 205887;

/// The stand-in for an unbounded upper intersection distance: the largest
/// `t` the intersection arithmetic admits.
pub fn infinity() -> (r: Fixed)
    ensures
        r.raw == T_CAP,
{
    Fixed { raw: T_CAP }
}

/// The fixed-point image of pi.
pub fn pi() -> (r: Fixed)
    ensures
        r.raw == PI_RAW,
{
    Fixed { raw: PI_RAW }
}

/// Converts degrees to radians: `degrees * pi / 180`.
pub fn degrees_to_radians(degrees: Fixed) -> (r: Fixed)
    requires
        iabs(degrees.raw as int) <= 0x100000000000000000000000000,
    ensures
        r.raw == fdiv_s(fmul_s(degrees.raw as int, PI_RAW as int), 180 * SCALE),
{
    proof {
        assert(mul_ok(degrees.raw as int, PI_RAW as int)) by (nonlinear_arith)
            requires
                iabs(degrees.raw as int) <= 0x100000000000000000000000000,
                iabs(degrees.raw as int) == if degrees.raw >= 0 { degrees.raw as int } else {
                    -(degrees.raw as int)
                },
                PI_RAW == 205887,
        ;
        lemma_fmul_bound(
            degrees.raw as int,
            PI_RAW as int,
            0x100000000000000000000000000,
            205887,
        );
    }
    let scaled = degrees.mul(pi());
    scaled.div(Fixed { raw: 180 * SCALE })
}

} // verus!
