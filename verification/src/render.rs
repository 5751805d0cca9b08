//! The radiance estimator and the per-pixel sampling arithmetic.

use crate::aabb::Interval;
use crate::arith::{floor_div_i64, isqrt, sqrt_floor};
use crate::bvh::{bvh_members, bvh_wf, Bvh};
use crate::hit::{list_wf, obj_hits, HittableList};
use crate::ray::Ray;
use crate::utils::clamp;
use crate::vec3::{len2, unit_vector, Color, Vec3};
use crate::{DIR_LIMIT, ORG_LIMIT, S_ONE, T_LIMIT, T_ONE};
use vstd::prelude::*;

verus! {

/// The lower parameter cutoff of secondary rays, suppressing
/// self-intersection at the origin of a scattered ray (about a thousandth
/// of a world unit).
pub const T_EPS: i64 = 64;

/// The top-level intersectable scene handed to the estimator: a flat
/// aggregate, or a tree.
pub enum World {
    List(HittableList),
    Bvh(Bvh),
}

/// A valid scene.
pub open spec fn world_wf(w: World) -> bool {
    match w {
        World::List(l) => list_wf(l),
        World::Bvh(b) => bvh_wf(b),
    }
}

/// Whether anything in the scene is hit by the ray within `[tmin, tmax]`.
pub open spec fn world_hits(w: World, ray: Ray, tmin: int, tmax: int) -> bool {
    match w {
        World::List(l) => exists|i: int|
            0 <= i < l.objects@.len() && obj_hits(#[trigger] l.objects@[i], ray, tmin, tmax),
        World::Bvh(b) => exists|i: int|
            0 <= i < bvh_members(b).len() && obj_hits(#[trigger] bvh_members(b)[i], ray, tmin, tmax),
    }
}

impl World {
    /// The closest intersection of the scene with the ray.
    pub fn hit<'a>(&'a self, ray: Ray, ray_t: Interval) -> (r: Option<crate::hit::Hit<'a>>)
        requires
            world_wf(*self),
            ray.wf(),
            len2(ray.direction) > 0,
            -T_LIMIT <= ray_t.minimum <= ray_t.maximum,
            ray_t.maximum <= T_LIMIT,
        ensures
            r.is_some() ==> world_hits(*self, ray, ray_t.minimum as int, ray_t.maximum as int),
            self is List ==> r.is_some() == world_hits(
                *self,
                ray,
                ray_t.minimum as int,
                ray_t.maximum as int,
            ),
            r matches Some(h) ==> crate::material::mat_wf(*h.material) && ray_t.minimum <= h.t
                <= ray_t.maximum,
    {
        let gmin = ray_t.minimum;
        let gmax = ray_t.maximum;
        match self {
            World::List(l) => {
                let r = l.hit(ray, ray_t);
                proof {
                    if r is Some {
                        let h = r.unwrap();
                        let i = choose|i: int|
                            0 <= i < l.objects@.len() && obj_hits(
                                #[trigger] l.objects@[i],
                                ray,
                                gmin as int,
                                gmax as int,
                            ) && crate::hit::obj_record(l.objects@[i], ray, gmin as int, h) && h.t
                                == crate::hit::obj_t(l.objects@[i], ray, gmin as int);
                        crate::hit::lemma_record_material(l.objects@[i], ray, gmin as int, h);
                    }
                }
                r
            },
            World::Bvh(b) => {
                let r = b.hit(ray, ray_t);
                proof {
                    if r is Some {
                        let h = r.unwrap();
                        let i = choose|i: int|
                            0 <= i < bvh_members(*b).len() && obj_hits(
                                #[trigger] bvh_members(*b)[i],
                                ray,
                                gmin as int,
                                gmax as int,
                            ) && crate::hit::obj_record(bvh_members(*b)[i], ray, gmin as int, h)
                                && h.t == crate::hit::obj_t(bvh_members(*b)[i], ray, gmin as int);
                        crate::bvh::lemma_members_in_box(*b);
                        crate::hit::lemma_record_material(bvh_members(*b)[i], ray, gmin as int, h);
                    }
                }
                r
            },
        }
    }
}

/// The background gradient, exactly as computed: blend white and sky blue by
/// the height of the rescaled direction.
pub open spec fn background_of(dir: Vec3) -> (int, int, int) {
    let uy = (dir.y * T_ONE) / (sqrt_floor(len2(dir) as nat) as int);
    let t = (uy + T_ONE) / 2;
    (
        ((T_ONE - t) * S_ONE + t * (S_ONE / 2)) / (T_ONE as int),
        ((T_ONE - t) * S_ONE + t * (7 * S_ONE / 10)) / (T_ONE as int),
        ((T_ONE - t) * S_ONE + t * S_ONE) / (T_ONE as int),
    )
}

/// The background gradient for a ray that misses everything.
fn background(dir: Vec3) -> (r: Color)
    requires
        dir.in_bounds(DIR_LIMIT as int),
        len2(dir) > 0,
    ensures
        (r.x as int, r.y as int, r.z as int) == background_of(dir),
        0 <= r.x <= S_ONE && 0 <= r.y <= S_ONE && 0 <= r.z <= S_ONE,
{
    let unit_direction = unit_vector(dir);
    let t = (unit_direction.y + T_ONE) / 2 as i64;
    proof {
        assert((unit_direction.y + T_ONE) / 2 == (unit_direction.y as int + T_ONE) / 2int);
        assert(0 <= t <= T_ONE);
    }
    let white: i64 = S_ONE;
    let bx = blend(t, white, S_ONE / 2);
    let by = blend(t, white, 7 * S_ONE / 10);
    let bz = blend(t, white, S_ONE);
    Vec3 { x: bx, y: by, z: bz }
}

/// Linear interpolation `((T_ONE - t) * a + t * b) / T_ONE` between two
/// color channels.
fn blend(t: i64, a: i64, b: i64) -> (r: i64)
    requires
        0 <= t <= T_ONE,
        0 <= a <= S_ONE,
        0 <= b <= S_ONE,
    ensures
        r as int == ((T_ONE - t) * a + t * b) / (T_ONE as int),
        0 <= r <= S_ONE,
{
    let ghost num = (T_ONE - t) as int * a + t as int * b;
    proof {
        assert(0 <= num <= T_ONE * S_ONE) by (nonlinear_arith)
            requires
                num == (T_ONE - t) as int * a + t as int * b,
                0 <= t <= T_ONE,
                0 <= a <= S_ONE,
                0 <= b <= S_ONE,
        ;
        assert(T_ONE * S_ONE == 67108864int) by (nonlinear_arith);
    }
    let n = (T_ONE - t) * a + t * b;
    let r = floor_div_i64(n, T_ONE);
    proof {
        crate::vec3::lemma_div_bound_multiple(num, T_ONE as int, S_ONE as int);
    }
    r
}

/// The estimated radiance carried to the ray: black once the bounce budget
/// is exhausted; otherwise the scattered radiance attenuated per bounce, or
/// the background gradient where nothing is hit. Channels stay in
/// `[0, S_ONE]`. Rays whose direction degenerates to zero, and bounces whose
/// geometry leaves the exact-arithmetic region, contribute black, as the
/// degenerate cases are specified to do.
pub fn ray_color(ray: Ray, world: &World, depth: usize) -> (r: Color)
    requires
        world_wf(*world),
    ensures
        depth == 0 ==> r == (Vec3 { x: 0i64, y: 0i64, z: 0i64 }),
        0 <= r.x <= S_ONE && 0 <= r.y <= S_ONE && 0 <= r.z <= S_ONE,
        depth > 0 && ray.wf() && len2(ray.direction) > 0 && !world_hits(
            *world,
            ray,
            T_EPS as int,
            T_LIMIT as int,
        ) ==> (r.x as int, r.y as int, r.z as int) == background_of(ray.direction),
    decreases depth,
{
    let black = Vec3 { x: 0, y: 0, z: 0 };
    if depth == 0 {
        return black;
    }
    // Reject rays outside the exact-arithmetic region; such pixels are
    // undefined numerics, and black is the safe answer.
    if !(ray.origin.x >= -ORG_LIMIT && ray.origin.x <= ORG_LIMIT && ray.origin.y >= -ORG_LIMIT
        && ray.origin.y <= ORG_LIMIT && ray.origin.z >= -ORG_LIMIT && ray.origin.z <= ORG_LIMIT
        && ray.direction.x >= -DIR_LIMIT && ray.direction.x <= DIR_LIMIT && ray.direction.y
        >= -DIR_LIMIT && ray.direction.y <= DIR_LIMIT && ray.direction.z >= -DIR_LIMIT
        && ray.direction.z <= DIR_LIMIT && ray.tm >= -T_LIMIT && ray.tm <= T_LIMIT) {
        return black;
    }
    if ray.direction.x == 0 && ray.direction.y == 0 && ray.direction.z == 0 {
        return black;
    }
    proof {
        crate::vec3::lemma_len2_nonneg(ray.direction);
        if len2(ray.direction) == 0 {
            assert(ray.direction.x * ray.direction.x >= 0 && ray.direction.y * ray.direction.y
                >= 0 && ray.direction.z * ray.direction.z >= 0) by (nonlinear_arith);
            assert(ray.direction.x * ray.direction.x == 0);
            assert(ray.direction.x == 0 && ray.direction.y == 0 && ray.direction.z == 0)
                by (nonlinear_arith)
                requires
                    ray.direction.x * ray.direction.x == 0,
                    ray.direction.y * ray.direction.y == 0,
                    ray.direction.z * ray.direction.z == 0,
            ;
        }
    }
    if let Some(hit) = world.hit(ray, Interval::new(T_EPS, T_LIMIT)) {
        // Guard the scattering arithmetic: a hit with degenerate or
        // out-of-range geometry contributes black.
        let n = hit.normal;
        if !(n.x >= -0x1000 && n.x <= 0x1000 && n.y >= -0x1000 && n.y <= 0x1000 && n.z >= -0x1000
            && n.z <= 0x1000) {
            return black;
        }
        if n.x == 0 && n.y == 0 && n.z == 0 {
            return black;
        }
        let p = hit.p;
        if !(p.x >= -ORG_LIMIT && p.x <= ORG_LIMIT && p.y >= -ORG_LIMIT && p.y <= ORG_LIMIT && p.z
            >= -ORG_LIMIT && p.z <= ORG_LIMIT) {
            return black;
        }
        proof {
            crate::vec3::lemma_len2_nonneg(n);
            if len2(n) == 0 {
                assert(n.x * n.x >= 0 && n.y * n.y >= 0 && n.z * n.z >= 0) by (nonlinear_arith);
                assert(n.x * n.x == 0);
                assert(n.x == 0 && n.y == 0 && n.z == 0) by (nonlinear_arith)
                    requires
                        n.x * n.x == 0,
                        n.y * n.y == 0,
                        n.z * n.z == 0,
                ;
            }
        }
        if let Some((scattered, attenuation)) = hit.material.scatter(&ray, &hit) {
            let rec = ray_color(scattered, world, depth - 1);
            proof {
                assert(attenuation.in_bounds(0x4000_0000));
                assert(rec.in_bounds(0x4000_0000));
            }
            let c = attenuation.mul_color(rec);
            proof {
                lemma_color_product(attenuation.x as int, rec.x as int);
                lemma_color_product(attenuation.y as int, rec.y as int);
                lemma_color_product(attenuation.z as int, rec.z as int);
            }
            return c;
        }
        return black;
    }
    background(ray.direction)
}

/// The product of two channels in `[0, S_ONE]`, renormalized, stays there.
proof fn lemma_color_product(a: int, b: int)
    requires
        0 <= a <= S_ONE,
        0 <= b <= S_ONE,
    ensures
        0 <= (a * b) / (S_ONE as int) <= S_ONE,
{
    vstd::arithmetic::div_mod::lemma_fundamental_div_mod(a * b, S_ONE as int);
    vstd::arithmetic::div_mod::lemma_mod_division_less_than_divisor(a * b, S_ONE as int);
    assert(0 <= (a * b) / (S_ONE as int) <= S_ONE) by (nonlinear_arith)
        requires
            a * b == (S_ONE as int) * ((a * b) / (S_ONE as int)) + (a * b) % (S_ONE as int),
            0 <= (a * b) % (S_ONE as int) < S_ONE,
            0 <= a <= S_ONE,
            0 <= b <= S_ONE,
            S_ONE == 65536,
    ;
}

/// How an image is rendered: its dimensions, the samples per pixel, and the
/// bounce budget.
#[derive(Clone, Copy, PartialEq, Eq, Structural, Debug)]
pub struct RenderSettings {
    pub image_width: usize,
    pub image_height: usize,
    pub sample_per_pixel: usize,
    pub max_depth: usize,
}

impl RenderSettings {
    /// Settings for a width and an aspect ratio given as a fraction
    /// `aspect_num / aspect_den` (for instance sixteen over nine).
    pub fn new(image_width: usize, aspect_num: usize, aspect_den: usize) -> (r: RenderSettings)
        requires
            1 <= aspect_num,
            1 <= aspect_den,
            image_width * aspect_den <= usize::MAX,
        ensures
            r.image_width == image_width,
            r.image_height == (image_width * aspect_den) as int / aspect_num as int,
            r.sample_per_pixel == 100,
            r.max_depth == 50,
    {
        let d = RenderSettings::default();
        RenderSettings {
            image_width,
            image_height: (image_width * aspect_den) / aspect_num,
            sample_per_pixel: d.sample_per_pixel,
            max_depth: d.max_depth,
        }
    }
}

impl Default for RenderSettings {
    /// The default render: a full-HD sixteen-by-nine frame, one hundred
    /// samples per pixel, fifty bounces.
    fn default() -> (r: Self)
        ensures
            r.image_width == 1920,
            r.image_height == 1080,
            r.sample_per_pixel == 100,
            r.max_depth == 50,
    {
        RenderSettings { image_width: 1920, image_height: 1080, sample_per_pixel: 100, max_depth: 50 }
    }
}

/// Turn an accumulated linear color into one display byte per channel:
/// average over the sample count, gamma-correct by a square root, and clamp.
/// Because a full channel is `S_ONE` and `sqrt(S_ONE) == 256`, the byte is
/// exactly the integer square root of the per-sample mean, clamped to 255.
pub fn colorize(color: Color, spp: usize) -> (r: (u8, u8, u8))
    requires
        1 <= spp <= 0x7fff_ffff,
        0 <= color.x && 0 <= color.y && 0 <= color.z,
    ensures
        r.0 as int == if sqrt_floor((color.x as int / spp as int) as nat) > 255 {
            255int
        } else {
            sqrt_floor((color.x as int / spp as int) as nat) as int
        },
        r.1 as int == if sqrt_floor((color.y as int / spp as int) as nat) > 255 {
            255int
        } else {
            sqrt_floor((color.y as int / spp as int) as nat) as int
        },
        r.2 as int == if sqrt_floor((color.z as int / spp as int) as nat) > 255 {
            255int
        } else {
            sqrt_floor((color.z as int / spp as int) as nat) as int
        },
{
    (channel_byte(color.x, spp), channel_byte(color.y, spp), channel_byte(color.z, spp))
}

/// One channel of `colorize`.
fn channel_byte(c: i64, spp: usize) -> (r: u8)
    requires
        1 <= spp <= 0x7fff_ffff,
        0 <= c,
    ensures
        r as int == if sqrt_floor((c as int / spp as int) as nat) > 255 {
            255int
        } else {
            sqrt_floor((c as int / spp as int) as nat) as int
        },
{
    let mean = floor_div_i64(c, spp as i64);
    proof {
        crate::vec3::lemma_div_bound(c as int, spp as int, 0x7fff_ffff_ffff_ffff);
    }
    let s = isqrt(mean as u128);
    if s > 255 {
        255u8
    } else {
        s as u8
    }
}

/// Estimate one pixel: average `sample_per_pixel` jittered samples through
/// the camera and turn the sum into display bytes.
pub fn render_pixel(
    world: &World,
    cam: &crate::camera::Camera,
    settings: &RenderSettings,
    i: usize,
    j: usize,
) -> (r: (u8, u8, u8))
    requires
        world_wf(*world),
        cam.wf(),
        2 <= settings.image_width <= 0x10_0000,
        2 <= settings.image_height <= 0x10_0000,
        i < settings.image_width,
        j < settings.image_height,
        1 <= settings.sample_per_pixel <= 0x7fff_ffff,
{
    let spp = settings.sample_per_pixel;
    let w1: i64 = (settings.image_width - 1) as i64;
    let h1: i64 = (settings.image_height - 1) as i64;
    let mut acc = Vec3 { x: 0, y: 0, z: 0 };
    let mut k: usize = 0;
    while k < spp
        invariant
            k <= spp,
            spp <= 0x7fff_ffff,
            0 <= acc.x <= k * 65536,
            0 <= acc.y <= k * 65536,
            0 <= acc.z <= k * 65536,
            world_wf(*world),
            cam.wf(),
            2 <= settings.image_width <= 0x10_0000,
            2 <= settings.image_height <= 0x10_0000,
            i < settings.image_width,
            j < settings.image_height,
            w1 == settings.image_width - 1,
            h1 == settings.image_height - 1,
        decreases spp - k,
    {
        let su = (i as i64) * S_ONE + crate::rng::rand_range(0, S_ONE);
        let sv = (j as i64) * S_ONE + crate::rng::rand_range(0, S_ONE);
        let u = clamp(floor_div_i64(su, w1), 0, S_ONE);
        let v = clamp(floor_div_i64(sv, h1), 0, S_ONE);
        let ray = cam.get_ray(u, v);
        let c = ray_color(ray, world, settings.max_depth);
        acc = Vec3 { x: acc.x + c.x, y: acc.y + c.y, z: acc.z + c.z };
        k = k + 1;
    }
    colorize(acc, spp)
}

} // verus!
