//! The recursive radiance integrator and the per-pixel sampling loop.

use vstd::prelude::*;
use vstd::arithmetic::div_mod::lemma_fundamental_div_mod;
use crate::camera::{camera_dir_s, camera_wf, Camera};
use crate::color::{black_s, color_unit, encode_channel_s, Color};
use crate::consts::infinity;
use crate::fixed::{
    fdiv_s, fmul_s, iabs, lemma_fdiv_bound, lemma_fdiv_nonneg, lemma_fmul_one_left,
    lemma_fmul_unit_scale, mul_ok, Fixed, SCALE,
};
use crate::hittable::{list_wf, HittableList};
use crate::material::{material_albedo, material_wf, Material};
use crate::ray::Ray;
use crate::rng::{rng_wf, Rng};
use crate::sphere::{sphere_hit_s, DIR_CAP, HIT_GROWTH, ORIGIN_CAP, T_CAP};
use crate::vector::{dot3_s, lemma_dot3_bound, lemma_normal3_props, normal3_s};

verus! {

/// The lowest parametric distance a bounce accepts, so that a ray cannot
/// re-acquire the surface it starts on (shadow acne); about `0.001`.
pub const T_MIN_EPS_RAW: i128 = 66;


/// No surface of the scene intersects the ray inside the bounce window.
pub open spec fn scene_misses(world: HittableList, r: Ray, t_min: int, t_max: int) -> bool {
    forall|i: int|
        0 <= i < world.objects@.len() ==> sphere_hit_s(
            #[trigger] world.objects@[i],
            r,
            t_min,
            t_max,
        ) is None
}

/// `c` is `rest` filtered channelwise by the albedo of `m`.
pub open spec fn attenuated_by(c: Color, m: Material, rest: Color) -> bool {
    &&& c.r.raw == fmul_s(material_albedo(m).r.raw as int, rest.r.raw as int)
    &&& c.g.raw == fmul_s(material_albedo(m).g.raw as int, rest.g.raw as int)
    &&& c.b.raw == fmul_s(material_albedo(m).b.raw as int, rest.b.raw as int)
}

/// Surface `i` of the scene hits the ray inside the bounce window, and
/// `c` is some radiance `rest` attenuated by that surface's material.
pub open spec fn hit_attenuates(world: HittableList, r: Ray, i: int, c: Color, rest: Color) -> bool {
    match sphere_hit_s(world.objects@[i], r, T_MIN_EPS_RAW as int, T_CAP as int) {
        Option::Some(rec) => attenuated_by(c, rec.material, rest),
        Option::None => false,
    }
}

/// The blend parameter of the background gradient: half of the normalized
/// direction's vertical component plus one, remapping `[-1, 1]` to
/// `[0, 1]`, and clamped onto `[0, 1]` because the truncated normalization
/// of a short direction can overshoot unit length.
pub open spec fn background_t_s(r: Ray) -> int {
    let u = normal3_s(r.direction);
    let t0 = fmul_s(32768, u.y.raw + SCALE);
    if t0 < 0 {
        0
    } else if t0 > SCALE {
        SCALE as int
    } else {
        t0
    }
}

/// The background gradient: a vertical linear blend from white at the
/// horizon to sky blue at the zenith, keyed by the normalized direction's
/// vertical component remapped from `[-1, 1]` to `[0, 1]`. Every channel
/// lies in the unit interval.
pub open spec fn background_s(r: Ray) -> Color {
    let t = background_t_s(r);
    Color {
        r: Fixed { raw: (fmul_s(SCALE as int, SCALE - t) + fmul_s(32768, t)) as i128 },
        g: Fixed { raw: (fmul_s(SCALE as int, SCALE - t) + fmul_s(45875, t)) as i128 },
        b: Fixed { raw: (fmul_s(SCALE as int, SCALE - t) + fmul_s(SCALE as int, t)) as i128 },
    }
}

/// The radiance carried back along a ray: black once the bounce budget is
/// spent; at a hit, the scattered radiance filtered by the material's
/// attenuation, or black on absorption; past every surface, the background
/// gradient (a degenerate direction carries no light).
pub fn ray_color(ray: &Ray, world: &HittableList, depth: u32, rng: &mut Rng) -> (c: Color)
    requires
        list_wf(*world),
        rng_wf(*old(rng)),
        depth <= 50,
        iabs(ray.direction.x.raw as int) <= DIR_CAP,
        iabs(ray.direction.y.raw as int) <= DIR_CAP,
        iabs(ray.direction.z.raw as int) <= DIR_CAP,
        iabs(ray.origin.x.raw as int) + depth * HIT_GROWTH <= ORIGIN_CAP,
        iabs(ray.origin.y.raw as int) + depth * HIT_GROWTH <= ORIGIN_CAP,
        iabs(ray.origin.z.raw as int) + depth * HIT_GROWTH <= ORIGIN_CAP,
    ensures
        rng_wf(*final(rng)),
        (*old(rng)) is Constant ==> *final(rng) == *old(rng),
        0 <= c.r.raw <= SCALE,
        0 <= c.g.raw <= SCALE,
        0 <= c.b.raw <= SCALE,
        depth == 0 ==> c == black_s(),
        depth > 0 && scene_misses(*world, *ray, T_MIN_EPS_RAW as int, T_CAP as int) ==> c == (
        if dot3_s(ray.direction, ray.direction) == 0 {
            black_s()
        } else {
            background_s(*ray)
        }),
        depth > 0 && !scene_misses(*world, *ray, T_MIN_EPS_RAW as int, T_CAP as int) ==> (c
            == black_s() || exists|i: int, rest: Color|
            0 <= i < world.objects@.len() && color_unit(rest) && #[trigger] hit_attenuates(
                *world,
                *ray,
                i,
                c,
                rest,
            )),
    decreases depth,
{
    // Gathers no more light if we exceeded the ray bounce limit.
    if depth == 0 {
        return Color::black();
    }

    let t_min = Fixed { raw: T_MIN_EPS_RAW };
    let t_max = infinity();
    match world.hit(ray, t_min, t_max) {
        Some(rec) => {
            match rec.material.scatter(ray, &rec, rng) {
                Some((attenuation, scattered)) => {
                    let rest = ray_color(&scattered, world, depth - 1, rng);
                    proof {
                        lemma_fmul_unit_scale(attenuation.r.raw as int, rest.r.raw as int);
                        lemma_fmul_unit_scale(attenuation.g.raw as int, rest.g.raw as int);
                        lemma_fmul_unit_scale(attenuation.b.raw as int, rest.b.raw as int);
                        assert(mul_ok(attenuation.r.raw as int, rest.r.raw as int) && mul_ok(
                            attenuation.g.raw as int,
                            rest.g.raw as int,
                        ) && mul_ok(attenuation.b.raw as int, rest.b.raw as int))
                            by (nonlinear_arith)
                            requires
                                0 <= attenuation.r.raw <= SCALE,
                                0 <= attenuation.g.raw <= SCALE,
                                0 <= attenuation.b.raw <= SCALE,
                                0 <= rest.r.raw <= SCALE,
                                0 <= rest.g.raw <= SCALE,
                                0 <= rest.b.raw <= SCALE,
                        ;
                    }
                    let out = attenuation.mul(rest);
                    proof {
                        let i = choose|i: int|
                            0 <= i < world.objects@.len() && sphere_hit_s(
                                #[trigger] world.objects@[i],
                                *ray,
                                T_MIN_EPS_RAW as int,
                                T_CAP as int,
                            ) == Some(rec);
                        assert(hit_attenuates(*world, *ray, i, out, rest));
                    }
                    out
                },
                None => Color::black(),
            }
        },
        None => {
            proof {
                lemma_dot3_bound(ray.direction, ray.direction, DIR_CAP as int, DIR_CAP as int);
            }
            let ls = ray.direction.len_squared();
            if ls.raw == 0 {
                return Color::black();
            }
            proof {
                lemma_normal3_props(ray.direction);
            }
            let unit_direction = ray.direction.normal();

            // A trick that converts range from [-1, 1) to [0, 1); clamped
            // onto [0, 1], which the truncated normalization can leave.
            let one = Fixed::one();
            let half = Fixed { raw: 32768 };
            let t0 = half.mul(unit_direction.y.add(one));
            let t = if t0.raw < 0 {
                Fixed { raw: 0 }
            } else if t0.raw > SCALE {
                one
            } else {
                t0
            };
            let one_minus_t = one.sub(t);
            let white = Color::new(one, one, one);
            let sky = Color::new(half, Fixed { raw: 45875 }, one);
            proof {
                assert(t.raw == background_t_s(*ray));
                lemma_fmul_one_left(one_minus_t.raw as int);
                lemma_fmul_one_left(t.raw as int);
                lemma_fmul_unit_scale(32768, t.raw as int);
                lemma_fmul_unit_scale(45875, t.raw as int);
                lemma_fmul_unit_scale(SCALE as int, t.raw as int);
            }
            white.scale(one_minus_t).add(sky.scale(t))
        },
    }
}

/// The pixel holds the encoding of the accumulated color `acc` over the
/// given number of samples.
pub open spec fn encodes(px: (u8, u8, u8), acc: Color, samples: int) -> bool {
    &&& 0 <= acc.r.raw <= samples * SCALE
    &&& 0 <= acc.g.raw <= samples * SCALE
    &&& 0 <= acc.b.raw <= samples * SCALE
    &&& px.0 == encode_channel_s(acc.r.raw as int, samples)
    &&& px.1 == encode_channel_s(acc.g.raw as int, samples)
    &&& px.2 == encode_channel_s(acc.b.raw as int, samples)
}

/// The pixel is the encoding of some accumulated radiance.
pub open spec fn pixel_encoded(px: (u8, u8, u8), samples: int) -> bool {
    exists|acc: Color| encodes(px, acc, samples)
}

/// Every pixel of the row-major image is the encoding of some accumulated
/// radiance over the given number of samples.
pub open spec fn all_encoded(pxs: Seq<(u8, u8, u8)>, samples: int) -> bool {
    forall|k: int| 0 <= k < pxs.len() ==> pixel_encoded(#[trigger] pxs[k], samples)
}

/// The image-plane fraction a constant generator `c` yields for index
/// `k` out of `n`: `(k + c) / (n - 1)` on the fixed-point grid.
pub open spec fn const_jitter_s(k: int, n: int, c: Fixed) -> Fixed {
    Fixed { raw: fdiv_s(k * SCALE + c.raw, (n - 1) * SCALE) as i128 }
}

/// The camera ray a constant generator `c` yields for the pixel at
/// column `w` and bottom-up row `h`.
pub open spec fn const_ray_s(
    camera: Camera,
    w: int,
    h: int,
    width: int,
    height: int,
    c: Fixed,
) -> Ray {
    Ray {
        origin: camera.origin,
        direction: camera_dir_s(
            camera,
            const_jitter_s(w, width, c),
            const_jitter_s(h, height, c),
        ),
    }
}

/// Under a constant generator, a pixel whose camera ray is nondegenerate
/// and escapes every surface holds the encoding of `samples` times the
/// background of that ray.
pub open spec fn const_pixel_is_background(
    px: (u8, u8, u8),
    k: int,
    world: HittableList,
    camera: Camera,
    width: int,
    height: int,
    samples: int,
    c: Fixed,
) -> bool {
    let r = const_ray_s(camera, k % width, height - 1 - k / width, width, height, c);
    (dot3_s(r.direction, r.direction) != 0 && scene_misses(
        world,
        r,
        T_MIN_EPS_RAW as int,
        T_CAP as int,
    )) ==> {
        let bg = background_s(r);
        &&& px.0 == encode_channel_s(samples * bg.r.raw, samples)
        &&& px.1 == encode_channel_s(samples * bg.g.raw, samples)
        &&& px.2 == encode_channel_s(samples * bg.b.raw, samples)
    }
}

/// End-to-end determinism: with a constant generator and at least one
/// bounce allowed, every pixel whose camera ray escapes the scene shows
/// exactly the encoded background gradient.
pub open spec fn const_pixels_are_background(
    pxs: Seq<(u8, u8, u8)>,
    world: HittableList,
    camera: Camera,
    width: int,
    height: int,
    samples: int,
    depth: int,
    g: Rng,
) -> bool {
    g matches Rng::Constant(c) ==> depth >= 1 ==> forall|k: int|
        0 <= k < pxs.len() ==> const_pixel_is_background(
            #[trigger] pxs[k],
            k,
            world,
            camera,
            width,
            height,
            samples,
            c,
        )
}

/// The accumulator after `s` samples of one pixel: under a constant
/// generator, if the pixel's ray is nondegenerate and escapes the scene,
/// it holds `s` times the background of that ray.
spec fn const_acc_is_background(
    g: Rng,
    acc: Color,
    s: int,
    world: HittableList,
    camera: Camera,
    w: int,
    h: int,
    width: int,
    height: int,
    depth: int,
) -> bool {
    g matches Rng::Constant(c) ==> depth >= 1 ==> {
        let r = const_ray_s(camera, w, h, width, height, c);
        (dot3_s(r.direction, r.direction) != 0 && scene_misses(
            world,
            r,
            T_MIN_EPS_RAW as int,
            T_CAP as int,
        )) ==> {
            let bg = background_s(r);
            &&& acc.r.raw == s * bg.r.raw
            &&& acc.g.raw == s * bg.g.raw
            &&& acc.b.raw == s * bg.b.raw
        }
    }
}

/// Renders the scene: row-major, top row first, one byte triple per pixel.
/// Every pixel is the encoding of a sum of `samples_per_pixel` radiance
/// samples, each drawn through the camera with a jittered image-plane
/// offset and integrated to the bounce budget. With a constant generator
/// the render is fully deterministic, and every pixel whose camera ray
/// escapes the scene is pinned to the encoded background gradient.
pub fn render(
    world: &HittableList,
    camera: &Camera,
    image_width: usize,
    image_height: usize,
    samples_per_pixel: u32,
    max_depth: u32,
    rng: &mut Rng,
) -> (pixels: Vec<(u8, u8, u8)>)
    requires
        list_wf(*world),
        camera_wf(*camera),
        rng_wf(*old(rng)),
        2 <= image_width <= 65536,
        2 <= image_height <= 65536,
        1 <= samples_per_pixel <= 65536,
        max_depth <= 50,
    ensures
        rng_wf(*final(rng)),
        (*old(rng)) is Constant ==> *final(rng) == *old(rng),
        pixels@.len() == image_height * image_width,
        all_encoded(pixels@, samples_per_pixel as int),
        const_pixels_are_background(
            pixels@,
            *world,
            *camera,
            image_width as int,
            image_height as int,
            samples_per_pixel as int,
            max_depth as int,
            *old(rng),
        ),
{
    let mut pixels: Vec<(u8, u8, u8)> = Vec::new();
    let mut h: usize = image_height;
    while h > 0
        invariant
            list_wf(*world),
            camera_wf(*camera),
            rng_wf(*rng),
            2 <= image_width <= 65536,
            2 <= image_height <= 65536,
            1 <= samples_per_pixel <= 65536,
            max_depth <= 50,
            h <= image_height,
            pixels@.len() == (image_height - h) * image_width,
            all_encoded(pixels@, samples_per_pixel as int),
            (*old(rng)) is Constant ==> *rng == *old(rng),
            const_pixels_are_background(
                pixels@,
                *world,
                *camera,
                image_width as int,
                image_height as int,
                samples_per_pixel as int,
                max_depth as int,
                *old(rng),
            ),
        decreases h,
    {
        h = h - 1;
        let mut w: usize = 0;
        while w < image_width
            invariant
                list_wf(*world),
                camera_wf(*camera),
                rng_wf(*rng),
                2 <= image_width <= 65536,
                2 <= image_height <= 65536,
                1 <= samples_per_pixel <= 65536,
                max_depth <= 50,
                h < image_height,
                w <= image_width,
                pixels@.len() == (image_height - h - 1) * image_width + w,
                all_encoded(pixels@, samples_per_pixel as int),
                (*old(rng)) is Constant ==> *rng == *old(rng),
                const_pixels_are_background(
                    pixels@,
                    *world,
                    *camera,
                    image_width as int,
                    image_height as int,
                    samples_per_pixel as int,
                    max_depth as int,
                    *old(rng),
                ),
            decreases image_width - w,
        {
            let mut pixel_color = Color::black();
            let mut s: u32 = 0;
            while s < samples_per_pixel
                invariant
                    list_wf(*world),
                    camera_wf(*camera),
                    rng_wf(*rng),
                    2 <= image_width <= 65536,
                    2 <= image_height <= 65536,
                    1 <= samples_per_pixel <= 65536,
                    max_depth <= 50,
                    h < image_height,
                    w < image_width,
                    s <= samples_per_pixel,
                    0 <= pixel_color.r.raw <= s * SCALE,
                    0 <= pixel_color.g.raw <= s * SCALE,
                    0 <= pixel_color.b.raw <= s * SCALE,
                    (*old(rng)) is Constant ==> *rng == *old(rng),
                    const_acc_is_background(
                        *old(rng),
                        pixel_color,
                        s as int,
                        *world,
                        *camera,
                        w as int,
                        h as int,
                        image_width as int,
                        image_height as int,
                        max_depth as int,
                    ),
                decreases samples_per_pixel - s,
            {
                let u = jitter_fraction(w, image_width, rng);
                let v = jitter_fraction(h, image_height, rng);
                let ray = camera.get_ray(u, v);
                let sample = ray_color(&ray, world, max_depth, rng);
                proof {
                    assert((s + 1) * SCALE == s * SCALE + SCALE) by (nonlinear_arith);
                    if (*old(rng)) is Constant {
                        let c = (*old(rng))->Constant_0;
                        assert(u == const_jitter_s(w as int, image_width as int, c));
                        assert(v == const_jitter_s(h as int, image_height as int, c));
                        let cray = const_ray_s(
                            *camera,
                            w as int,
                            h as int,
                            image_width as int,
                            image_height as int,
                            c,
                        );
                        assert(ray == cray);
                        if max_depth >= 1 && dot3_s(cray.direction, cray.direction) != 0
                            && scene_misses(
                            *world,
                            cray,
                            T_MIN_EPS_RAW as int,
                            T_CAP as int,
                        ) {
                            let bg = background_s(cray);
                            assert(sample == bg);
                            assert((s + 1) * bg.r.raw == s * bg.r.raw + bg.r.raw)
                                by (nonlinear_arith);
                            assert((s + 1) * bg.g.raw == s * bg.g.raw + bg.g.raw)
                                by (nonlinear_arith);
                            assert((s + 1) * bg.b.raw == s * bg.b.raw + bg.b.raw)
                                by (nonlinear_arith);
                        }
                    }
                }
                pixel_color = pixel_color.add(sample);
                s = s + 1;
            }
            proof {
                assert(samples_per_pixel * SCALE <= 0x100000000000000) by (nonlinear_arith)
                    requires
                        samples_per_pixel <= 65536,
                        SCALE == 65536,
                ;
            }
            let px = pixel_color.encode(samples_per_pixel);
            let ghost pre = pixels@;
            pixels.push(px);
            proof {
                assert(pixels@ == pre.push(px));
                assert(encodes(px, pixel_color, samples_per_pixel as int));
                assert forall|k: int| 0 <= k < pixels@.len() implies pixel_encoded(
                    #[trigger] pixels@[k],
                    samples_per_pixel as int,
                ) by {
                    if k < pre.len() {
                        assert(pixels@[k] == pre[k]);
                        assert(pixel_encoded(pre[k], samples_per_pixel as int));
                    } else {
                        assert(pixels@[k] == px);
                        assert(encodes(pixels@[k], pixel_color, samples_per_pixel as int));
                    }
                }
                assert(all_encoded(pixels@, samples_per_pixel as int));
                if (*old(rng)) is Constant && max_depth >= 1 {
                    let c = (*old(rng))->Constant_0;
                    let kn = pre.len() as int;
                    vstd::arithmetic::div_mod::lemma_fundamental_div_mod_converse(
                        kn,
                        image_width as int,
                        image_height - h - 1,
                        w as int,
                    );
                    assert(kn % (image_width as int) == w as int);
                    assert(kn / (image_width as int) == image_height - h - 1);
                    assert(const_pixel_is_background(
                        px,
                        kn,
                        *world,
                        *camera,
                        image_width as int,
                        image_height as int,
                        samples_per_pixel as int,
                        c,
                    ));
                    assert forall|k: int| 0 <= k < pixels@.len() implies const_pixel_is_background(
                        #[trigger] pixels@[k],
                        k,
                        *world,
                        *camera,
                        image_width as int,
                        image_height as int,
                        samples_per_pixel as int,
                        c,
                    ) by {
                        if k < pre.len() {
                            assert(pixels@[k] == pre[k]);
                            assert(const_pixel_is_background(
                                pre[k],
                                k,
                                *world,
                                *camera,
                                image_width as int,
                                image_height as int,
                                samples_per_pixel as int,
                                c,
                            ));
                        } else {
                            assert(pixels@[k] == px);
                        }
                    }
                }
                assert(const_pixels_are_background(
                    pixels@,
                    *world,
                    *camera,
                    image_width as int,
                    image_height as int,
                    samples_per_pixel as int,
                    max_depth as int,
                    *old(rng),
                ));
            }
            w = w + 1;
        }
        proof {
            assert((image_height - h - 1) * image_width + image_width == (image_height - h)
                * image_width) by (nonlinear_arith);
        }
    }
    proof {
        assert((image_height - 0) * image_width == image_height * image_width);
    }
    pixels
}

/// The jittered image-plane fraction of index `k` out of `n`:
/// `(k + draw) / (n - 1)` for a unit draw; always within `[0, 2]`.
fn jitter_fraction(k: usize, n: usize, rng: &mut Rng) -> (f: Fixed)
    requires
        rng_wf(*old(rng)),
        2 <= n <= 65536,
        k < n,
    ensures
        rng_wf(*final(rng)),
        0 <= f.raw <= 2 * SCALE,
        *old(rng) matches Rng::Constant(c) ==> *final(rng) == *old(rng) && f == const_jitter_s(
            k as int,
            n as int,
            c,
        ),
        exists|d: int|
            0 <= d < SCALE && f.raw == #[trigger] fdiv_s(k * SCALE + d, (n - 1) * SCALE),
{
    let jitter = rng.next_unit();
    let numer = Fixed::from_int(k as i64).add(jitter);
    let denom = Fixed::from_int((n - 1) as i64);
    proof {
        assert(denom.raw > 0 && numer.raw >= 0) by (nonlinear_arith)
            requires
                denom.raw == (n - 1) * SCALE,
                numer.raw >= k * SCALE,
                2 <= n,
                0 <= k,
                SCALE == 65536,
        ;
        lemma_fdiv_nonneg(numer.raw as int, denom.raw as int);
        crate::fixed::lemma_tdiv_mag(numer.raw * SCALE, denom.raw as int);
        assert(numer.raw * SCALE <= denom.raw * (2 * SCALE)) by (nonlinear_arith)
            requires
                0 <= numer.raw <= k * SCALE + SCALE,
                denom.raw == (n - 1) * SCALE,
                k < n,
                2 <= n,
                SCALE == 65536,
        ;
        vstd::arithmetic::div_mod::lemma_multiply_divide_le(
            numer.raw * SCALE,
            denom.raw as int,
            2 * (SCALE as int),
        );
        assert(iabs(numer.raw * SCALE) == numer.raw * SCALE) by (nonlinear_arith)
            requires 0 <= numer.raw, SCALE == 65536,
        ;
    }
    let f = numer.div(denom);
    proof {
        assert(f.raw == fdiv_s(k * SCALE + jitter.raw, (n - 1) * SCALE));
    }
    f
}

} // verus!
