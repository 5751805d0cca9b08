//! The camera: a viewport basis built from a look-at configuration, and ray
//! generation with lens sampling and a per-ray time draw.
//!
//! The viewport's half-height per unit of focus distance (the tangent of
//! half the vertical field of view) is taken as an input on the `T_ONE`
//! scale, since it is the one transcendental quantity of the construction.
//! Frame coordinates are clamped into the bounds the exact tracing
//! arithmetic accepts; the clamps are inactive for ordinary configurations.

use crate::ray::Ray;
use crate::rng::rand_range;
use crate::utils::clamp;
use crate::vec3::{cross, len2, unit_vector, Point3, Vec3};
use crate::{DIR_LIMIT, S_ONE, T_LIMIT, T_ONE};
use vstd::prelude::*;

verus! {

/// A ready camera: an origin on the `S_ONE` scale and a viewport frame on
/// the `T_ONE` scale.
pub struct Camera {
    pub origin: Point3,
    pub lower_left_corner: Vec3,
    pub u: Vec3,
    pub v: Vec3,
    pub w: Vec3,
    pub horizontal: Vec3,
    pub vertical: Vec3,
    pub lens_radius: i64,
    pub time0: i64,
    pub time1: i64,
}

impl Camera {
    /// Bounds under which ray assembly stays exact and the produced rays
    /// stay inside the tracing region.
    pub open spec fn wf(self) -> bool {
        &&& self.origin.in_bounds(0x8000_0000)
        &&& self.lower_left_corner.in_bounds(0x6800)
        &&& self.horizontal.in_bounds(0x2800)
        &&& self.vertical.in_bounds(0x2800)
        &&& self.u.in_bounds(T_ONE as int)
        &&& self.v.in_bounds(2 * T_ONE as int)
        &&& self.w.in_bounds(T_ONE as int)
        &&& 0 <= self.lens_radius <= T_ONE
        &&& 0 <= self.time0 <= self.time1 <= T_LIMIT
    }

    /// A ray toward the viewport point with normalized coordinates
    /// `(s, t)` on the `S_ONE` scale, jittered across the lens and stamped
    /// with a time drawn from the camera's window.
    pub fn get_ray(&self, s: i64, t: i64) -> (r: Ray)
        requires
            self.wf(),
            0 <= s <= S_ONE,
            0 <= t <= S_ONE,
        ensures
            r.wf(),
            self.time0 <= r.tm <= self.time1,
            r.origin.in_bounds(0x8004_0000),
    {
        let rd0 = Vec3::random_in_unit_disk();
        proof {
            crate::vec3::lemma_prod_bound2(rd0.x as int, self.lens_radius as int, T_ONE as int, T_ONE as int);
            crate::vec3::lemma_prod_bound2(rd0.y as int, self.lens_radius as int, T_ONE as int, T_ONE as int);
            crate::vec3::lemma_prod_bound2(rd0.z as int, self.lens_radius as int, T_ONE as int, T_ONE as int);
            assert((T_ONE as int) * (T_ONE as int) <= (T_ONE as int) * 0x4000_0000_0000_0000
                && (T_ONE as int) * (T_ONE as int) == 1048576) by (nonlinear_arith);
        }
        let rd = rd0.scale_div(self.lens_radius, T_ONE);
        proof {
            crate::vec3::lemma_div_bound_multiple(rd0.x as int * self.lens_radius as int, T_ONE as int, T_ONE as int);
            crate::vec3::lemma_div_bound_multiple(rd0.y as int * self.lens_radius as int, T_ONE as int, T_ONE as int);
            crate::vec3::lemma_div_bound_multiple(rd0.z as int * self.lens_radius as int, T_ONE as int, T_ONE as int);
            crate::vec3::lemma_prod_bound2(self.u.x as int, rd.x as int, T_ONE as int, T_ONE as int);
            crate::vec3::lemma_prod_bound2(self.u.y as int, rd.x as int, T_ONE as int, T_ONE as int);
            crate::vec3::lemma_prod_bound2(self.u.z as int, rd.x as int, T_ONE as int, T_ONE as int);
            crate::vec3::lemma_prod_bound2(self.v.x as int, rd.y as int, 2 * T_ONE as int, T_ONE as int);
            crate::vec3::lemma_prod_bound2(self.v.y as int, rd.y as int, 2 * T_ONE as int, T_ONE as int);
            crate::vec3::lemma_prod_bound2(self.v.z as int, rd.y as int, 2 * T_ONE as int, T_ONE as int);
            assert((2 * T_ONE as int) * (T_ONE as int) == (T_ONE as int) * (2 * T_ONE as int)
                && (2 * T_ONE as int) * (T_ONE as int) <= (T_ONE as int) * 0x4000_0000_0000_0000)
                by (nonlinear_arith);
        }
        let ou = self.u.scale_div(rd.x, T_ONE);
        let ov = self.v.scale_div(rd.y, T_ONE);
        proof {
            crate::vec3::lemma_div_bound_multiple(self.u.x as int * rd.x as int, T_ONE as int, T_ONE as int);
            crate::vec3::lemma_div_bound_multiple(self.u.y as int * rd.x as int, T_ONE as int, T_ONE as int);
            crate::vec3::lemma_div_bound_multiple(self.u.z as int * rd.x as int, T_ONE as int, T_ONE as int);
            crate::vec3::lemma_div_bound_multiple(self.v.x as int * rd.y as int, T_ONE as int, 2 * T_ONE as int);
            crate::vec3::lemma_div_bound_multiple(self.v.y as int * rd.y as int, T_ONE as int, 2 * T_ONE as int);
            crate::vec3::lemma_div_bound_multiple(self.v.z as int * rd.y as int, T_ONE as int, 2 * T_ONE as int);
        }
        let offset = ou.add(ov);
        // The offset is a world displacement: rescale it from the direction
        // scale to the position scale for the ray origin.
        proof {
            crate::vec3::lemma_prod_bound2(offset.x as int, 64, 3 * T_ONE as int, 64);
            crate::vec3::lemma_prod_bound2(offset.y as int, 64, 3 * T_ONE as int, 64);
            crate::vec3::lemma_prod_bound2(offset.z as int, 64, 3 * T_ONE as int, 64);
            assert((3 * T_ONE as int) * 64 == 196608 && 196608 <= 1 * 0x4000_0000_0000_0000int)
                by (nonlinear_arith);
        }
        let offset_pos = offset.scale_div(S_ONE / T_ONE, 1);
        proof {
            crate::vec3::lemma_div_bound(offset.x as int * 64, 1, 196608);
            crate::vec3::lemma_div_bound(offset.y as int * 64, 1, 196608);
            crate::vec3::lemma_div_bound(offset.z as int * 64, 1, 196608);
            crate::vec3::lemma_prod_bound2(self.horizontal.x as int, s as int, 0x2800, S_ONE as int);
            crate::vec3::lemma_prod_bound2(self.horizontal.y as int, s as int, 0x2800, S_ONE as int);
            crate::vec3::lemma_prod_bound2(self.horizontal.z as int, s as int, 0x2800, S_ONE as int);
            crate::vec3::lemma_prod_bound2(self.vertical.x as int, t as int, 0x2800, S_ONE as int);
            crate::vec3::lemma_prod_bound2(self.vertical.y as int, t as int, 0x2800, S_ONE as int);
            crate::vec3::lemma_prod_bound2(self.vertical.z as int, t as int, 0x2800, S_ONE as int);
            assert(0x2800 * (S_ONE as int) == (S_ONE as int) * 0x2800 && 0x2800 * (S_ONE as int)
                <= (S_ONE as int) * 0x4000_0000_0000_0000) by (nonlinear_arith);
        }
        let sh = self.horizontal.scale_div(s, S_ONE);
        let tv = self.vertical.scale_div(t, S_ONE);
        proof {
            crate::vec3::lemma_div_bound_multiple(self.horizontal.x as int * s as int, S_ONE as int, 0x2800);
            crate::vec3::lemma_div_bound_multiple(self.horizontal.y as int * s as int, S_ONE as int, 0x2800);
            crate::vec3::lemma_div_bound_multiple(self.horizontal.z as int * s as int, S_ONE as int, 0x2800);
            crate::vec3::lemma_div_bound_multiple(self.vertical.x as int * t as int, S_ONE as int, 0x2800);
            crate::vec3::lemma_div_bound_multiple(self.vertical.y as int * t as int, S_ONE as int, 0x2800);
            crate::vec3::lemma_div_bound_multiple(self.vertical.z as int * t as int, S_ONE as int, 0x2800);
        }
        let d0 = self.lower_left_corner.add(sh).add(tv).sub(offset);
        let direction = Vec3 {
            x: clamp(d0.x, -DIR_LIMIT, DIR_LIMIT),
            y: clamp(d0.y, -DIR_LIMIT, DIR_LIMIT),
            z: clamp(d0.z, -DIR_LIMIT, DIR_LIMIT),
        };
        let time = rand_range(self.time0, self.time1 + 1);
        Ray::timed(self.origin.add(offset_pos), direction, time)
    }
}

/// The configuration a camera is built from.
pub struct Builder {
    pub origin: Point3,
    pub look_at: Point3,
    pub vup: Vec3,
    pub lens_radius: i64,
    pub time0: i64,
    pub time1: i64,
    pub aspect_num: i64,
    pub aspect_den: i64,
    pub focus_dist: i64,
    pub half_height: i64,
}

impl Builder {
    /// Start a camera description. `half_height` is the viewport half-height
    /// per unit focus distance — the tangent of half the vertical field of
    /// view — on the `T_ONE` scale; the aspect ratio is the fraction
    /// `aspect_num / aspect_den`; `aperture` and `focus_dist` are on the
    /// `T_ONE` scale.
    pub fn new(
        look_from: Point3,
        look_at: Point3,
        half_height: i64,
        aspect_num: i64,
        aspect_den: i64,
        aperture: i64,
        focus_dist: i64,
    ) -> (r: Builder)
        requires
            0 <= aperture <= 2 * T_ONE,
        ensures
            r.origin == look_from,
            r.look_at == look_at,
            r.vup == (Vec3 { x: 0i64, y: T_ONE as i64, z: 0i64 }),
            r.lens_radius == aperture as int / 2,
            r.time0 == 0,
            r.time1 == 0,
            r.aspect_num == aspect_num,
            r.aspect_den == aspect_den,
            r.focus_dist == focus_dist,
            r.half_height == half_height,
    {
        Builder {
            origin: look_from,
            look_at,
            vup: Vec3 { x: 0, y: T_ONE, z: 0 },
            lens_radius: crate::arith::floor_div_i64(aperture, 2),
            time0: 0,
            time1: 0,
            aspect_num,
            aspect_den,
            focus_dist,
            half_height,
        }
    }

    /// Tilt the camera by changing the direction of its upward component.
    pub fn tilted(self, vup: Vec3) -> (r: Builder)
        ensures
            r == (Builder { vup, ..self }),
    {
        Builder { vup, ..self }
    }

    /// Give the camera a shutter window.
    pub fn timed(self, start: i64, end: i64) -> (r: Builder)
        ensures
            r == (Builder { time0: start, time1: end, ..self }),
    {
        Builder { time0: start, time1: end, ..self }
    }

    /// Assemble the viewport frame: a basis from the look direction and the
    /// up vector (with safe fallbacks for degenerate configurations), and
    /// viewport extents scaled by the focus distance, all clamped into the
    /// frame bounds.
    pub fn build(&self) -> (r: Camera)
        requires
            self.origin.in_bounds(0x8000_0000),
            self.look_at.in_bounds(0x8000_0000),
            self.vup.in_bounds(2 * T_ONE as int),
            0 <= self.lens_radius <= T_ONE,
            0 <= self.time0 <= self.time1 <= T_LIMIT,
            1 <= self.aspect_num <= 64,
            1 <= self.aspect_den <= 64,
            0 <= self.half_height <= 4 * T_ONE,
            1 <= self.focus_dist <= 16 * T_ONE,
        ensures
            r.wf(),
            r.origin == self.origin,
            r.lens_radius == self.lens_radius,
            r.time0 == self.time0,
            r.time1 == self.time1,
    {
        let dir = self.origin.sub(self.look_at);
        proof {
            crate::vec3::lemma_len2_nonneg(dir);
            lemma_zero_len(dir);
        }
        let w = if dir.near_zero() {
            Vec3 { x: 0, y: 0, z: T_ONE }
        } else {
            unit_vector(dir)
        };
        proof {
            assert(w.in_bounds(T_ONE as int));
        }
        let cu = cross(self.vup, w);
        proof {
            crate::vec3::lemma_len2_nonneg(cu);
            lemma_zero_len(cu);
            assert(cu.in_bounds(0x40_0000)) by (nonlinear_arith)
                requires
                    cu.x == self.vup.y * w.z - self.vup.z * w.y,
                    cu.y == self.vup.z * w.x - self.vup.x * w.z,
                    cu.z == self.vup.x * w.y - self.vup.y * w.x,
                    self.vup.in_bounds(2 * T_ONE as int),
                    w.in_bounds(T_ONE as int),
                    cu.in_bounds(0x40_0000) == (-0x40_0000 <= cu.x <= 0x40_0000 && -0x40_0000
                        <= cu.y <= 0x40_0000 && -0x40_0000 <= cu.z <= 0x40_0000),
                    self.vup.in_bounds(2 * T_ONE as int) == (-2 * T_ONE <= self.vup.x <= 2 * T_ONE
                        && -2 * T_ONE <= self.vup.y <= 2 * T_ONE && -2 * T_ONE <= self.vup.z <= 2
                        * T_ONE),
                    w.in_bounds(T_ONE as int) == (-T_ONE <= w.x <= T_ONE && -T_ONE <= w.y <= T_ONE
                        && -T_ONE <= w.z <= T_ONE),
            ;
        }
        let u = if cu.near_zero() {
            Vec3 { x: T_ONE, y: 0, z: 0 }
        } else {
            unit_vector(cu)
        };
        proof {
            assert(u.in_bounds(T_ONE as int));
        }
        let cv = cross(w, u);
        proof {
            assert(cv.in_bounds(0x20_0000)) by (nonlinear_arith)
                requires
                    cv.x == w.y * u.z - w.z * u.y,
                    cv.y == w.z * u.x - w.x * u.z,
                    cv.z == w.x * u.y - w.y * u.x,
                    cv.in_bounds(0x20_0000) == (-0x20_0000 <= cv.x <= 0x20_0000 && -0x20_0000
                        <= cv.y <= 0x20_0000 && -0x20_0000 <= cv.z <= 0x20_0000),
                    -T_ONE <= w.x <= T_ONE && -T_ONE <= w.y <= T_ONE && -T_ONE <= w.z <= T_ONE,
                    -T_ONE <= u.x <= T_ONE && -T_ONE <= u.y <= T_ONE && -T_ONE <= u.z <= T_ONE,
            ;
            crate::vec3::lemma_prod_bound2(cv.x as int, 1, 0x20_0000, 1);
            crate::vec3::lemma_prod_bound2(cv.y as int, 1, 0x20_0000, 1);
            crate::vec3::lemma_prod_bound2(cv.z as int, 1, 0x20_0000, 1);
            assert(0x20_0000 * 1 == 0x20_0000 && (T_ONE as int) * 0x800 == 0x20_0000 && 0x20_0000
                <= (T_ONE as int) * 0x4000_0000_0000_0000) by (nonlinear_arith);
        }
        let v = cv.scale_div(1, T_ONE);
        proof {
            crate::vec3::lemma_div_bound_multiple(cv.x as int * 1, T_ONE as int, 0x800);
            crate::vec3::lemma_div_bound_multiple(cv.y as int * 1, T_ONE as int, 0x800);
            crate::vec3::lemma_div_bound_multiple(cv.z as int * 1, T_ONE as int, 0x800);
        }
        // Viewport extents on the direction scale, at focus distance.
        let vh2: i64 = 2 * self.half_height;
        proof {
            assert(0 <= (self.focus_dist as int) * (vh2 as int) <= 134217728int)
                by (nonlinear_arith)
                requires
                    1 <= self.focus_dist <= 16384,
                    0 <= vh2 <= 8192,
            ;
        }
        let kv0: i128 = (self.focus_dist as i128) * (vh2 as i128);
        proof {
            assert(0 <= kv0 * (self.aspect_num as int) <= 8589934592int) by (nonlinear_arith)
                requires
                    0 <= kv0 <= 134217728int,
                    1 <= self.aspect_num <= 64,
            ;
        }
        let kh0: i128 = kv0 * (self.aspect_num as i128);
        proof {
            assert(1 <= (self.aspect_den as int) * (T_ONE as int) <= 65536) by (nonlinear_arith)
                requires
                    1 <= self.aspect_den <= 64,
            ;
        }
        let khq = crate::arith::floor_div(kh0, (self.aspect_den as i128) * (T_ONE as i128));
        let kvq = crate::arith::floor_div(kv0, T_ONE as i128);
        proof {
            crate::vec3::lemma_div_bound(kh0 as int, (self.aspect_den as int) * (T_ONE as int), 8589934592int);
            crate::vec3::lemma_div_bound(kv0 as int, T_ONE as int, 134217728int);
        }
        let kh: i64 = clamp(khq as i64, 0, 0x2800);
        let kv: i64 = clamp(kvq as i64, 0, 0x2800);
        proof {
            crate::vec3::lemma_prod_bound2(u.x as int, kh as int, T_ONE as int, 0x2800);
            crate::vec3::lemma_prod_bound2(u.y as int, kh as int, T_ONE as int, 0x2800);
            crate::vec3::lemma_prod_bound2(u.z as int, kh as int, T_ONE as int, 0x2800);
            crate::vec3::lemma_prod_bound2(v.x as int, kv as int, 2 * T_ONE as int, 0x2800);
            crate::vec3::lemma_prod_bound2(v.y as int, kv as int, 2 * T_ONE as int, 0x2800);
            crate::vec3::lemma_prod_bound2(v.z as int, kv as int, 2 * T_ONE as int, 0x2800);
            crate::vec3::lemma_prod_bound2(w.x as int, self.focus_dist as int, T_ONE as int, 16 * T_ONE as int);
            crate::vec3::lemma_prod_bound2(w.y as int, self.focus_dist as int, T_ONE as int, 16 * T_ONE as int);
            crate::vec3::lemma_prod_bound2(w.z as int, self.focus_dist as int, T_ONE as int, 16 * T_ONE as int);
            assert((T_ONE as int) * 0x2800 <= (T_ONE as int) * 0x4000_0000_0000_0000 && (2
                * T_ONE as int) * 0x2800 == (T_ONE as int) * 0x5000 && (T_ONE as int) * 0x5000
                <= (T_ONE as int) * 0x4000_0000_0000_0000 && (T_ONE as int) * (16 * T_ONE as int)
                == (T_ONE as int) * 0x4000 && (T_ONE as int) * 0x4000 <= (T_ONE as int)
                * 0x4000_0000_0000_0000) by (nonlinear_arith);
        }
        let horizontal = u.scale_div(kh, T_ONE);
        let vertical0 = v.scale_div(kv, T_ONE);
        let wf_vec = w.scale_div(self.focus_dist, T_ONE);
        proof {
            crate::vec3::lemma_div_bound_multiple(u.x as int * kh as int, T_ONE as int, 0x2800);
            crate::vec3::lemma_div_bound_multiple(u.y as int * kh as int, T_ONE as int, 0x2800);
            crate::vec3::lemma_div_bound_multiple(u.z as int * kh as int, T_ONE as int, 0x2800);
            crate::vec3::lemma_div_bound_multiple(v.x as int * kv as int, T_ONE as int, 0x5000);
            crate::vec3::lemma_div_bound_multiple(v.y as int * kv as int, T_ONE as int, 0x5000);
            crate::vec3::lemma_div_bound_multiple(v.z as int * kv as int, T_ONE as int, 0x5000);
            crate::vec3::lemma_div_bound_multiple(w.x as int * self.focus_dist as int, T_ONE as int, 0x4000);
            crate::vec3::lemma_div_bound_multiple(w.y as int * self.focus_dist as int, T_ONE as int, 0x4000);
            crate::vec3::lemma_div_bound_multiple(w.z as int * self.focus_dist as int, T_ONE as int, 0x4000);
        }
        let vertical = Vec3 {
            x: clamp(vertical0.x, -0x2800, 0x2800),
            y: clamp(vertical0.y, -0x2800, 0x2800),
            z: clamp(vertical0.z, -0x2800, 0x2800),
        };
        let half_h = horizontal.scale_div(1, 2);
        let half_v = vertical.scale_div(1, 2);
        proof {
            crate::vec3::lemma_div_bound(horizontal.x as int * 1, 2, 0x2800);
            crate::vec3::lemma_div_bound(horizontal.y as int * 1, 2, 0x2800);
            crate::vec3::lemma_div_bound(horizontal.z as int * 1, 2, 0x2800);
            crate::vec3::lemma_div_bound(vertical.x as int * 1, 2, 0x2800);
            crate::vec3::lemma_div_bound(vertical.y as int * 1, 2, 0x2800);
            crate::vec3::lemma_div_bound(vertical.z as int * 1, 2, 0x2800);
        }
        let ll0 = Vec3 { x: 0, y: 0, z: 0 }.sub(half_h).sub(half_v).sub(wf_vec);
        let lower_left_corner = Vec3 {
            x: clamp(ll0.x, -0x6800, 0x6800),
            y: clamp(ll0.y, -0x6800, 0x6800),
            z: clamp(ll0.z, -0x6800, 0x6800),
        };
        Camera {
            origin: self.origin,
            lower_left_corner,
            u,
            v,
            w,
            horizontal,
            vertical,
            lens_radius: self.lens_radius,
            time0: self.time0,
            time1: self.time1,
        }
    }
}

/// A vector with a zero component-sum of squares is the zero vector.
proof fn lemma_zero_len(v: Vec3)
    ensures
        len2(v) == 0 ==> v.x == 0 && v.y == 0 && v.z == 0,
        v.x == 0 && v.y == 0 && v.z == 0 ==> len2(v) == 0,
{
    assert((len2(v) == 0 ==> v.x == 0 && v.y == 0 && v.z == 0) && (v.x == 0 && v.y == 0 && v.z == 0
        ==> len2(v) == 0)) by (nonlinear_arith)
        requires
            len2(v) == v.x * v.x + v.y * v.y + v.z * v.z,
    ;
}

} // verus!
