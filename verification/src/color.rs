//! RGB color values and the final pixel encoding.

use vstd::prelude::*;
use crate::error::ErrorKind;
use crate::fixed::{
    add_ok, fdiv_s, fmul_s, fsqrt_s, iabs, lemma_fdiv_bound, lemma_fdiv_nonneg, mul_ok, Fixed,
    SCALE,
};

verus! {

/// RGB color data, one fixed-point channel per primary.
#[derive(Clone, Copy, Debug, PartialEq, Eq, Structural)]
pub struct Color {
    pub r: Fixed,
    pub g: Fixed,
    pub b: Fixed,
}

/// RGB color data.
pub type Rgb = Color;

/// Every channel lies in the unit interval.
pub open spec fn color_unit(c: Color) -> bool {
    &&& 0 <= c.r.raw <= SCALE
    &&& 0 <= c.g.raw <= SCALE
    &&& 0 <= c.b.raw <= SCALE
}

/// The black color as a value: every channel zero.
pub open spec fn black_s() -> Color {
    Color { r: Fixed { raw: 0 }, g: Fixed { raw: 0 }, b: Fixed { raw: 0 } }
}

impl Color {
    pub fn new(r: Fixed, g: Fixed, b: Fixed) -> (c: Color)
        ensures
            c == (Color { r, g, b }),
    {
        Color { r, g, b }
    }

    /// The black color: no light.
    pub fn black() -> (c: Color)
        ensures
            c.r.raw == 0 && c.g.raw == 0 && c.b.raw == 0,
    {
        Color { r: Fixed { raw: 0 }, g: Fixed { raw: 0 }, b: Fixed { raw: 0 } }
    }

    /// Channelwise sum, for accumulating radiance samples.
    pub fn add(self, rhs: Color) -> (c: Color)
        requires
            add_ok(self.r.raw as int, rhs.r.raw as int),
            add_ok(self.g.raw as int, rhs.g.raw as int),
            add_ok(self.b.raw as int, rhs.b.raw as int),
        ensures
            c.r.raw == self.r.raw + rhs.r.raw,
            c.g.raw == self.g.raw + rhs.g.raw,
            c.b.raw == self.b.raw + rhs.b.raw,
    {
        Color { r: self.r.add(rhs.r), g: self.g.add(rhs.g), b: self.b.add(rhs.b) }
    }

    /// Channelwise product: attenuation of a color by an albedo.
    pub fn mul(self, rhs: Color) -> (c: Color)
        requires
            mul_ok(self.r.raw as int, rhs.r.raw as int),
            mul_ok(self.g.raw as int, rhs.g.raw as int),
            mul_ok(self.b.raw as int, rhs.b.raw as int),
        ensures
            c.r.raw == fmul_s(self.r.raw as int, rhs.r.raw as int),
            c.g.raw == fmul_s(self.g.raw as int, rhs.g.raw as int),
            c.b.raw == fmul_s(self.b.raw as int, rhs.b.raw as int),
    {
        Color { r: self.r.mul(rhs.r), g: self.g.mul(rhs.g), b: self.b.mul(rhs.b) }
    }

    /// Scalar multiple of every channel.
    pub fn scale(self, s: Fixed) -> (c: Color)
        requires
            mul_ok(self.r.raw as int, s.raw as int),
            mul_ok(self.g.raw as int, s.raw as int),
            mul_ok(self.b.raw as int, s.raw as int),
        ensures
            c.r.raw == fmul_s(self.r.raw as int, s.raw as int),
            c.g.raw == fmul_s(self.g.raw as int, s.raw as int),
            c.b.raw == fmul_s(self.b.raw as int, s.raw as int),
    {
        Color { r: self.r.mul(s), g: self.g.mul(s), b: self.b.mul(s) }
    }
}

/// The clamp ceiling before quantization: the fixed-point image of 0.999.
pub const CLAMP_CEIL_RAW: i128 = 65470;

/// The byte value of one channel: the accumulated value averaged over the
/// samples, gamma-corrected by a square root, clamped to `[0, 0.999]` and
/// scaled to an eight-bit integer. The average of a nonnegative channel is
/// nonnegative, so only the ceiling clamp can bite.
pub open spec fn encode_channel_s(raw: int, samples: int) -> int {
    let avg = fdiv_s(raw, samples * SCALE);
    let root = fsqrt_s(avg);
    let clamped = if root > CLAMP_CEIL_RAW { CLAMP_CEIL_RAW as int } else { root };
    clamped / 256
}

impl Color {
    /// Averages the accumulated color over the samples, gamma-corrects,
    /// clamps and quantizes each channel to one byte.
    pub fn encode(self, samples_per_pixel: u32) -> (rgb: (u8, u8, u8))
        requires
            1 <= samples_per_pixel,
            0 <= self.r.raw <= 0x100000000000000,
            0 <= self.g.raw <= 0x100000000000000,
            0 <= self.b.raw <= 0x100000000000000,
        ensures
            rgb.0 == encode_channel_s(self.r.raw as int, samples_per_pixel as int),
            rgb.1 == encode_channel_s(self.g.raw as int, samples_per_pixel as int),
            rgb.2 == encode_channel_s(self.b.raw as int, samples_per_pixel as int),
    {
        let s = Fixed::from_int(samples_per_pixel as i64);
        proof {
            vstd::arithmetic::div_mod::lemma_mod_multiples_basic(
                samples_per_pixel as int,
                SCALE as int,
            );
            vstd::arithmetic::div_mod::lemma_div_multiples_vanish(
                samples_per_pixel as int,
                SCALE as int,
            );
            vstd::arithmetic::mul::lemma_mul_is_commutative(samples_per_pixel as int, SCALE as int);
        }
        let r = encode_channel(self.r, s);
        let g = encode_channel(self.g, s);
        let b = encode_channel(self.b, s);
        (r, g, b)
    }

    /// Encodes the color and writes it to the stream as a decimal triple.
    pub fn write<W: std::io::Write + std::fmt::Debug>(
        self,
        stream: &mut W,
        samples_per_pixel: u32,
    ) -> (res: Result<(), ErrorKind>)
        requires
            1 <= samples_per_pixel,
            0 <= self.r.raw <= 0x100000000000000,
            0 <= self.g.raw <= 0x100000000000000,
            0 <= self.b.raw <= 0x100000000000000,
        ensures
            res matches Err(e) ==> e is WriteColor,
    {
        let (r, g, b) = self.encode(samples_per_pixel);
        write_pixel(stream, r, g, b)
    }
}

/// One channel of `Color::encode`; `samples` is the fixed-point image of
/// the whole sample count.
fn encode_channel(channel: Fixed, samples: Fixed) -> (byte: u8)
    requires
        0 < samples.raw <= 0x10000000000000000,
        samples.raw % SCALE == 0,
        0 <= channel.raw <= 0x100000000000000,
    ensures
        byte == encode_channel_s(channel.raw as int, samples.raw as int / (SCALE as int)),
{
    proof {
        vstd::arithmetic::div_mod::lemma_fundamental_div_mod(samples.raw as int, SCALE as int);
        vstd::arithmetic::mul::lemma_mul_is_commutative(
            SCALE as int,
            samples.raw as int / (SCALE as int),
        );
    }
    let avg = channel.div(samples);
    proof {
        lemma_fdiv_nonneg(channel.raw as int, samples.raw as int);
        lemma_fdiv_bound(channel.raw as int, samples.raw as int, 0x100000000000000);
    }
    let root = avg.sqrt();
    let clamped = if root.raw > CLAMP_CEIL_RAW {
        Fixed { raw: CLAMP_CEIL_RAW }
    } else {
        root
    };
    ((clamped.raw as u128) / 256) as u8
}

/// Relies on std's `write!` into the stream: three space-separated decimal
/// bytes and a newline; a failure names the destination.
#[verifier::external_body]
fn write_pixel<W: std::io::Write + std::fmt::Debug>(stream: &mut W, r: u8, g: u8, b: u8) -> (res:
    Result<(), ErrorKind>)
    ensures
        res matches Err(e) ==> e is WriteColor,
{
    write!(stream, "{} {} {}\n", r, g, b).map_err(
        |_| ErrorKind::WriteColor(format!("{:?}", stream)),
    )
}

impl Default for Color {
    /// The black color.
    fn default() -> (c: Color)
        ensures
            c.r.raw == 0 && c.g.raw == 0 && c.b.raw == 0,
    {
        Color::black()
    }
}

} // verus!
