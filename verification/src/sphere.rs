//! Spheres (static and linearly moving) and the exact ray-sphere
//! intersection.
//!
//! The intersection parameter solves `A*t^2 + 2*HB*t + C = 0`, whose roots
//! are irrational in general. All decisions about the roots are made exactly,
//! by comparing the discriminant with squares; the reported parameter is the
//! floor of the chosen real root.

use crate::arith::{floor_div, isqrt, sq_le, sq_le_exec, sq_lt, sq_lt_exec, sqrt_floor};
use crate::ray::Ray;
use crate::vec3::{dot, dot3, Point3, Vec3};
use crate::T_ONE;
use vstd::prelude::*;

verus! {

/// The leading coefficient `A = |direction|^2` of the intersection quadratic.
pub open spec fn quad_a(r: Ray) -> int {
    dot3(r.direction, r.direction)
}

/// The half middle coefficient `HB = T_ONE * dot(origin - center, direction)`.
pub open spec fn quad_hb(r: Ray, cx: int, cy: int, cz: int) -> int {
    T_ONE * ((r.origin.x - cx) * r.direction.x + (r.origin.y - cy) * r.direction.y + (r.origin.z
        - cz) * r.direction.z)
}

/// The constant coefficient `C = T_ONE^2 * (|origin - center|^2 - radius^2)`.
pub open spec fn quad_c(r: Ray, cx: int, cy: int, cz: int, rad: int) -> int {
    (T_ONE * T_ONE) * ((r.origin.x - cx) * (r.origin.x - cx) + (r.origin.y - cy) * (r.origin.y
        - cy) + (r.origin.z - cz) * (r.origin.z - cz) - rad * rad)
}

/// The discriminant `HB^2 - A * C` of the intersection quadratic.
pub open spec fn quad_disc(r: Ray, cx: int, cy: int, cz: int, rad: int) -> int {
    quad_hb(r, cx, cy, cz) * quad_hb(r, cx, cy, cz) - quad_a(r) * quad_c(r, cx, cy, cz, rad)
}

/// Whether the nearer real root `(-hb - sqrt(d)) / a` is at least `tmin`,
/// which decides which root the intersection reports.
pub open spec fn uses_entry(a: int, hb: int, d: int, tmin: int) -> bool {
    sq_le(d, -hb - a * tmin)
}

/// Whether some real root of the quadratic lies in `[tmin, tmax]`, trying
/// the nearer root first and the farther root only if the nearer one lies
/// before `tmin` — the near-then-far search order.
pub open spec fn sphere_hits(a: int, hb: int, d: int, tmin: int, tmax: int) -> bool {
    d >= 0 && (if uses_entry(a, hb, d, tmin) {
        !sq_lt(d, -hb - a * tmax)
    } else {
        !sq_lt(d, hb + a * tmin) && sq_le(d, hb + a * tmax)
    })
}

/// The floor of the nearer root `(-hb - sqrt(d)) / a`.
pub open spec fn entry_floor(a: int, hb: int, d: int) -> int {
    let s = sqrt_floor(d as nat) as int;
    let e = -hb - s;
    if e % a == 0 && d != s * s {
        e / a - 1
    } else {
        e / a
    }
}

/// The floor of the farther root `(-hb + sqrt(d)) / a`.
pub open spec fn exit_floor(a: int, hb: int, d: int) -> int {
    (-hb + sqrt_floor(d as nat)) / a
}

/// The floor of the root the intersection reports.
pub open spec fn sphere_root_floor(a: int, hb: int, d: int, tmin: int) -> int {
    if uses_entry(a, hb, d, tmin) {
        entry_floor(a, hb, d)
    } else {
        exit_floor(a, hb, d)
    }
}

/// `entry_floor` brackets the nearer root: encoded without mentioning the
/// irrational root, `a * f <= -hb - sqrt(d) < a * (f + 1)` becomes
/// `sqrt(d) <= -hb - a*f` and `sqrt(d) > -hb - a*f - a`.
pub proof fn lemma_entry_floor(a: int, hb: int, d: int)
    requires
        a >= 1,
        d >= 0,
    ensures
        sq_le(d, -hb - a * entry_floor(a, hb, d)),
        !sq_le(d, -hb - a * entry_floor(a, hb, d) - a),
{
    let s = sqrt_floor(d as nat) as int;
    crate::arith::lemma_sqrt_floor(d as nat);
    let e = -hb - s;
    let q = e / a;
    vstd::arithmetic::div_mod::lemma_fundamental_div_mod(e, a);
    vstd::arithmetic::div_mod::lemma_mod_division_less_than_divisor(e, a);
    if e % a == 0 && d != s * s {
        let f = q - 1;
        assert(-hb - a * f == s + a && -hb - a * f - a == s) by (nonlinear_arith)
            requires
                e == a * q + e % a,
                e % a == 0,
                f == q - 1,
                e == -hb - s,
        ;
        assert(s + a >= 0 && d <= (s + a) * (s + a)) by (nonlinear_arith)
            requires
                d < (s + 1) * (s + 1),
                s >= 0,
                a >= 1,
        ;
        assert(!(d <= s * s));
    } else {
        let f = q;
        let m = e % a;
        // -hb - a*f == s + m, with 0 <= m < a.
        assert(-hb - a * f == s + m) by (nonlinear_arith)
            requires
                e == a * q + m,
                f == q,
                e == -hb - s,
        ;
        if m == 0 {
            // Then d == s * s exactly, so sqrt(d) == s.
            assert(d <= s * s);
            assert(s >= 0);
            assert(!sq_le(d, s - a)) by (nonlinear_arith)
                requires
                    d == s * s,
                    s >= 0,
                    a >= 1,
            ;
        } else {
            assert(s + m >= 0 && d <= (s + m) * (s + m)) by (nonlinear_arith)
                requires
                    d < (s + 1) * (s + 1),
                    s >= 0,
                    m >= 1,
            ;
            assert(!sq_le(d, s + m - a)) by (nonlinear_arith)
                requires
                    d >= s * s,
                    s >= 0,
                    m < a,
                    m >= 1,
            ;
        }
    }
}

/// `exit_floor` brackets the farther root: `sqrt(d) >= hb + a*f` and
/// `sqrt(d) < hb + a*f + a`.
pub proof fn lemma_exit_floor(a: int, hb: int, d: int)
    requires
        a >= 1,
        d >= 0,
    ensures
        !sq_lt(d, hb + a * exit_floor(a, hb, d)),
        sq_lt(d, hb + a * exit_floor(a, hb, d) + a),
{
    let s = sqrt_floor(d as nat) as int;
    crate::arith::lemma_sqrt_floor(d as nat);
    let e = -hb + s;
    let f = e / a;
    vstd::arithmetic::div_mod::lemma_fundamental_div_mod(e, a);
    vstd::arithmetic::div_mod::lemma_mod_division_less_than_divisor(e, a);
    let m = e % a;
    // hb + a*f == s - m with 0 <= m < a.
    assert(hb + a * f == s - m) by (nonlinear_arith)
        requires
            e == a * f + m,
            e == -hb + s,
    ;
    if hb + a * f > 0 {
        assert((s - m) * (s - m) <= d) by (nonlinear_arith)
            requires
                s * s <= d,
                0 <= m,
                s - m > 0,
        ;
    }
    assert(s - m + a > 0 && d < (s - m + a) * (s - m + a)) by (nonlinear_arith)
        requires
            d < (s + 1) * (s + 1),
            s >= 0,
            0 <= m < a,
    ;
}

/// The closest intersection of the ray with the sphere of the given center
/// and radius, for parameters in `[t_min, t_max]`: the floored parameter,
/// the hit point, and the (unnormalized outward, `T_ONE`-scaled) normal.
pub(crate) fn sphere_hit_core(center: Vec3, radius: i64, ray: &Ray, t_min: i64, t_max: i64) -> (res:
    Option<(i64, Point3, Vec3)>)
    requires
        ray.wf(),
        crate::vec3::len2(ray.direction) > 0,
        center.in_bounds(0x5_0000_0000),
        1 <= radius <= 0x1_0000_0000,
        -crate::T_LIMIT - 2 <= t_min <= t_max,
        t_max <= crate::T_LIMIT + 2,
    ensures
        res.is_some() == sphere_hits(
            quad_a(*ray),
            quad_hb(*ray, center.x as int, center.y as int, center.z as int),
            quad_disc(*ray, center.x as int, center.y as int, center.z as int, radius as int),
            t_min as int,
            t_max as int,
        ),
        res matches Some((t, p, n)) ==> {
            &&& t == sphere_root_floor(
                quad_a(*ray),
                quad_hb(*ray, center.x as int, center.y as int, center.z as int),
                quad_disc(*ray, center.x as int, center.y as int, center.z as int, radius as int),
                t_min as int,
            )
            &&& t_min <= t <= t_max
            &&& (p.x as int, p.y as int, p.z as int) == crate::ray::ray_at(*ray, t as int)
            &&& p.in_bounds(0xB_0000_0000)
            &&& n.x == ((p.x - center.x) * T_ONE) / (radius as int)
            &&& n.y == ((p.y - center.y) * T_ONE) / (radius as int)
            &&& n.z == ((p.z - center.z) * T_ONE) / (radius as int)
            &&& n.in_bounds(70368744177664)
        },
{
    let ghost ga = quad_a(*ray);
    let ghost ghb = quad_hb(*ray, center.x as int, center.y as int, center.z as int);
    let ghost gd = quad_disc(*ray, center.x as int, center.y as int, center.z as int, radius as int);
    let oc = ray.origin.sub(center);
    let a = dot(ray.direction, ray.direction);
    let docd = dot(oc, ray.direction);
    let oc2 = dot(oc, oc);
    proof {
        crate::vec3::lemma_dot3_bound(ray.direction, ray.direction, 0x8000);
        crate::vec3::lemma_dot3_bound2(oc, ray.direction, 0x7_0000_0000, 0x8000);
        crate::vec3::lemma_dot3_bound(oc, oc, 0x7_0000_0000);
        assert(ga == a as int);
        assert(1 <= a && a <= 3221225472);
        assert(-2955487255461888 <= docd <= 2955487255461888);
        assert(0 <= oc2 <= 2711671378835304087552) by {
            crate::vec3::lemma_len2_nonneg(oc);
        }
        assert(dot3(oc, ray.direction) == (ray.origin.x - center.x) * ray.direction.x + (
        ray.origin.y - center.y) * ray.direction.y + (ray.origin.z - center.z) * ray.direction.z);
        assert((radius as int) * (radius as int) <= 18446744073709551616
            && (radius as int) * (radius as int) >= 1) by (nonlinear_arith)
            requires
                1 <= radius <= 0x1_0000_0000,
        ;
    }
    let t1: i128 = T_ONE as i128;
    let hb: i128 = t1 * docd;
    let r2: i128 = (radius as i128) * (radius as i128);
    proof {
        assert(ghb == hb as int);
        assert(-3026418949592973312 <= hb <= 3026418949592973312);
        assert(-2730118122909013639168 <= oc2 - r2 <= 2730118122909013639168);
    }
    let cc: i128 = (t1 * t1) * (oc2 - r2);
    proof {
        assert(-2862736340847441885704224768 <= cc <= 2862736340847441885704224768)
            by (nonlinear_arith)
            requires
                cc == (t1 * t1) * (oc2 - r2),
                t1 == 1024,
                -2730118122909013639168 <= oc2 - r2 <= 2730118122909013639168,
        ;
        assert(hb * hb <= 9159211658455435936727795524744249344int && 0 <= hb * hb && -9221519220757853868270161480694890496int
            <= (a as int) * (cc as int) && (a as int) * (cc as int)
            <= 9221519220757853868270161480694890496int) by (nonlinear_arith)
            requires
                -3026418949592973312 <= hb <= 3026418949592973312,
                0 <= a <= 3221225472,
                -2862736340847441885704224768 <= cc <= 2862736340847441885704224768,
        ;
    }
    let disc: i128 = hb * hb - a * cc;
    proof {
        assert(gd == disc as int);
        assert(disc <= 18380730879213289804997957005439139840int);
    }
    if disc < 0 {
        return None;
    }
    let tmin128 = t_min as i128;
    let tmax128 = t_max as i128;
    proof {
        assert(-0x8000_0000_0000_0000 < -hb - a * tmin128 < 0x8000_0000_0000_0000
            && -0x8000_0000_0000_0000 < -hb - a * tmax128 < 0x8000_0000_0000_0000
            && -0x8000_0000_0000_0000 < hb + a * tmin128 < 0x8000_0000_0000_0000
            && -0x8000_0000_0000_0000 < hb + a * tmax128 < 0x8000_0000_0000_0000)
            by (nonlinear_arith)
            requires
                -0x2A00_0000_0000_0000 <= hb <= 0x2A00_0000_0000_0000,
                0 <= a <= 0xC000_0000,
                -0x4000_0002 <= tmin128 <= 0x4000_0002,
                -0x4000_0002 <= tmax128 <= 0x4000_0002,
        ;
    }
    let use_entry_now = sq_le_exec(disc, -hb - a * tmin128);
    let accept: bool = if use_entry_now {
        !sq_lt_exec(disc, -hb - a * tmax128)
    } else {
        !sq_lt_exec(disc, hb + a * tmin128) && sq_le_exec(disc, hb + a * tmax128)
    };
    proof {
        assert(use_entry_now == uses_entry(ga, ghb, gd, t_min as int));
        assert(accept == sphere_hits(ga, ghb, gd, t_min as int, t_max as int));
    }
    if !accept {
        return None;
    }
    let s = isqrt(disc as u128);
    let s128 = s as i128;
    proof {
        assert(s128 <= 4287275461084030977int) by (nonlinear_arith)
            requires
                s128 * s128 <= disc,
                disc < 18380730879213289804997957005439139841int,
                s128 >= 0,
        ;
    }
    let f: i128 = if use_entry_now {
        let e: i128 = -hb - s128;
        let f0 = floor_div(e, a);
        proof {
            vstd::arithmetic::div_mod::lemma_fundamental_div_mod(e as int, a as int);
            assert(-7313694410677004290int <= f0 <= 7313694410677004290int) by (nonlinear_arith)
                requires
                    f0 * a <= e < (f0 + 1) * a,
                    1 <= a,
                    -7313694410677004290int <= e <= 7313694410677004290int,
            ;
        }
        if e == a * f0 && s128 * s128 != disc {
            f0 - 1
        } else {
            f0
        }
    } else {
        floor_div(-hb + s128, a)
    };
    proof {
        lemma_root_in_range(ga, ghb, gd, t_min as int, t_max as int);
        assert(f as int == sphere_root_floor(ga, ghb, gd, t_min as int));
    }
    let t = f as i64;
    let p = ray.at(t);
    let delta = p.sub(center);
    proof {
        assert((delta.x as int) * (T_ONE as int) <= (radius as int) * 0x4000_0000_0000_0000
            && (delta.x as int) * (T_ONE as int) >= -((radius as int) * 0x4000_0000_0000_0000)
            && (delta.y as int) * (T_ONE as int) <= (radius as int) * 0x4000_0000_0000_0000
            && (delta.y as int) * (T_ONE as int) >= -((radius as int) * 0x4000_0000_0000_0000)
            && (delta.z as int) * (T_ONE as int) <= (radius as int) * 0x4000_0000_0000_0000
            && (delta.z as int) * (T_ONE as int) >= -((radius as int) * 0x4000_0000_0000_0000))
            by (nonlinear_arith)
            requires
                delta.in_bounds(0x10_0000_0000),
                1 <= radius,
        ;
    }
    let n = delta.scale_div(T_ONE, radius);
    proof {
        crate::vec3::lemma_div_bound(delta.x as int * (T_ONE as int), radius as int, 70368744177664);
        crate::vec3::lemma_div_bound(delta.y as int * (T_ONE as int), radius as int, 70368744177664);
        crate::vec3::lemma_div_bound(delta.z as int * (T_ONE as int), radius as int, 70368744177664);
    }
    Some((t, p, n))
}

/// A root accepted within `[tmin, tmax]` has its floor inside `[tmin, tmax]`.
pub proof fn lemma_root_in_range(a: int, hb: int, d: int, tmin: int, tmax: int)
    requires
        a >= 1,
        tmin <= tmax,
        sphere_hits(a, hb, d, tmin, tmax),
    ensures
        tmin <= sphere_root_floor(a, hb, d, tmin) <= tmax,
{
    if uses_entry(a, hb, d, tmin) {
        let f = entry_floor(a, hb, d);
        lemma_entry_floor(a, hb, d);
        // sqrt(d) <= -hb - a*tmin and sqrt(d) > -hb - a*(f+1): tmin < f + 1.
        crate::arith::lemma_sq_order_strict(d, -hb - a * f - a, -hb - a * tmin);
        assert(tmin <= f) by (nonlinear_arith)
            requires
                -hb - a * f - a < -hb - a * tmin,
                a >= 1,
        ;
        // sqrt(d) >= -hb - a*tmax and sqrt(d) <= -hb - a*f: a*f <= a*tmax.
        crate::arith::lemma_sq_order(d, -hb - a * tmax, -hb - a * f);
        assert(f <= tmax) by (nonlinear_arith)
            requires
                -hb - a * tmax <= -hb - a * f,
                a >= 1,
        ;
    } else {
        let f = exit_floor(a, hb, d);
        lemma_exit_floor(a, hb, d);
        // sqrt(d) >= hb + a*tmin and sqrt(d) < hb + a*(f+1): tmin < f + 1.
        crate::arith::lemma_sq_order(d, hb + a * tmin, hb + a * f + a);
        assert(hb + a * tmin < hb + a * f + a ==> tmin <= f) by (nonlinear_arith)
            requires
                a >= 1,
        ;
        if hb + a * tmin == hb + a * f + a {
            // Then sqrt(d) >= hb + a*tmin contradicts sqrt(d) < hb + a*f + a.
            assert(false);
        }
        // sqrt(d) <= hb + a*tmax and sqrt(d) >= hb + a*f: a*f <= a*tmax.
        crate::arith::lemma_sq_order(d, hb + a * f, hb + a * tmax);
        assert(f <= tmax) by (nonlinear_arith)
            requires
                hb + a * f <= hb + a * tmax,
                a >= 1,
        ;
    }
}

/// A hit within a smaller upper bound is a hit within a larger one.
pub proof fn lemma_hits_widen(a: int, hb: int, d: int, tmin: int, c: int, tmax: int)
    requires
        a >= 1,
        c <= tmax,
        sphere_hits(a, hb, d, tmin, c),
    ensures
        sphere_hits(a, hb, d, tmin, tmax),
{
    if uses_entry(a, hb, d, tmin) {
        if sq_lt(d, -hb - a * tmax) {
            assert(sq_lt(d, -hb - a * c)) by (nonlinear_arith)
                requires
                    sq_lt(d, -hb - a * tmax) == (0 < -hb - a * tmax && d < (-hb - a * tmax) * (-hb
                        - a * tmax)),
                    sq_lt(d, -hb - a * c) == (0 < -hb - a * c && d < (-hb - a * c) * (-hb - a * c)),
                    sq_lt(d, -hb - a * tmax),
                    a >= 1,
                    c <= tmax,
            ;
        }
    } else {
        assert(hb + a * c <= hb + a * tmax) by (nonlinear_arith)
            requires
                a >= 1,
                c <= tmax,
        ;
        crate::arith::lemma_sq_le_monotone(d, hb + a * c, hb + a * tmax);
    }
}

/// A hit within `[tmin, tmax]` that is rejected by the narrower range
/// `[tmin, c]` has its reported parameter at or beyond `c`.
pub proof fn lemma_hit_beyond(a: int, hb: int, d: int, tmin: int, c: int, tmax: int)
    requires
        a >= 1,
        tmin <= c <= tmax,
        sphere_hits(a, hb, d, tmin, tmax),
        !sphere_hits(a, hb, d, tmin, c),
    ensures
        sphere_root_floor(a, hb, d, tmin) >= c,
{
    if uses_entry(a, hb, d, tmin) {
        let f = entry_floor(a, hb, d);
        lemma_entry_floor(a, hb, d);
        // The nearer root is beyond c but its floor brackets it from below.
        crate::arith::lemma_sq_order_strict(d, -hb - a * f - a, -hb - a * c);
        assert(f >= c) by (nonlinear_arith)
            requires
                -hb - a * f - a < -hb - a * c,
                a >= 1,
        ;
    } else {
        let f = exit_floor(a, hb, d);
        lemma_exit_floor(a, hb, d);
        // The farther root is beyond c; its bracketing gives c < f + 1.
        crate::arith::lemma_sq_order_strict(d, hb + a * c, hb + a * f + a);
        assert(f >= c) by (nonlinear_arith)
            requires
                hb + a * c < hb + a * f + a,
                a >= 1,
        ;
    }
}

/// A sphere: a static center, or a center moving along `center_vec` as
/// the time advances from zero to `S_ONE`, with a cached bounding box.
pub struct Sphere {
    pub center: Point3,
    pub radius: i64,
    pub material: crate::material::Material,
    pub is_moving: bool,
    pub center_vec: Vec3,
    pub bbox: crate::aabb::Aabb,
}

/// The sphere center at a time value (`S_ONE` scale): the base center plus
/// the time-scaled motion vector.
pub open spec fn sphere_center_at(s: Sphere, time: int) -> (int, int, int) {
    (
        s.center.x + (s.center_vec.x * time) / (crate::S_ONE as int),
        s.center.y + (s.center_vec.y * time) / (crate::S_ONE as int),
        s.center.z + (s.center_vec.z * time) / (crate::S_ONE as int),
    )
}

/// Whether the sphere is hit by the ray within `[tmin, tmax]`.
pub open spec fn s_hits(s: Sphere, ray: Ray, tmin: int, tmax: int) -> bool {
    let c = sphere_center_at(s, ray.tm as int);
    sphere_hits(
        quad_a(ray),
        quad_hb(ray, c.0, c.1, c.2),
        quad_disc(ray, c.0, c.1, c.2, s.radius as int),
        tmin,
        tmax,
    )
}

/// The reported (floored) hit parameter of the sphere.
pub open spec fn s_root(s: Sphere, ray: Ray, tmin: int) -> int {
    let c = sphere_center_at(s, ray.tm as int);
    sphere_root_floor(
        quad_a(ray),
        quad_hb(ray, c.0, c.1, c.2),
        quad_disc(ray, c.0, c.1, c.2, s.radius as int),
        tmin,
    )
}

/// What a hit record reported by the sphere holds: the floored root, the ray
/// point there, the scaled outward normal flipped against the ray, and zero
/// surface coordinates.
pub open spec fn s_record(s: Sphere, ray: Ray, tmin: int, h: crate::hit::Hit) -> bool {
    let c = sphere_center_at(s, ray.tm as int);
    let t = s_root(s, ray, tmin);
    let nx = ((h.p.x - c.0) * T_ONE) / (s.radius as int);
    let ny = ((h.p.y - c.1) * T_ONE) / (s.radius as int);
    let nz = ((h.p.z - c.2) * T_ONE) / (s.radius as int);
    let ff = ray.direction.x * nx + ray.direction.y * ny + ray.direction.z * nz < 0;
    &&& h.t == t
    &&& (h.p.x as int, h.p.y as int, h.p.z as int) == crate::ray::ray_at(ray, t)
    &&& h.u == 0 && h.v == 0
    &&& h.front_face == ff
    &&& if ff {
        (h.normal.x as int, h.normal.y as int, h.normal.z as int) == (nx, ny, nz)
    } else {
        (h.normal.x as int, h.normal.y as int, h.normal.z as int) == (-nx, -ny, -nz)
    }
}

impl Sphere {
    /// Valid sphere data: bounded center, motion and radius, a valid
    /// material, and the cached box containing the sphere across its motion.
    pub open spec fn wf(self) -> bool {
        &&& self.center.in_bounds(crate::CEN_LIMIT as int)
        &&& 1 <= self.radius <= crate::CEN_LIMIT
        &&& crate::material::mat_wf(self.material)
        &&& self.center_vec.in_bounds(crate::VEL_LIMIT as int)
        &&& !self.is_moving ==> self.center_vec == (Vec3 { x: 0i64, y: 0i64, z: 0i64 })
        &&& self.bbox.x.minimum == (if self.center.x + self.center_vec.x <= self.center.x {
            self.center.x + self.center_vec.x
        } else {
            self.center.x as int
        }) - self.radius
        &&& self.bbox.x.maximum == (if self.center.x + self.center_vec.x >= self.center.x {
            self.center.x + self.center_vec.x
        } else {
            self.center.x as int
        }) + self.radius
        &&& self.bbox.y.minimum == (if self.center.y + self.center_vec.y <= self.center.y {
            self.center.y + self.center_vec.y
        } else {
            self.center.y as int
        }) - self.radius
        &&& self.bbox.y.maximum == (if self.center.y + self.center_vec.y >= self.center.y {
            self.center.y + self.center_vec.y
        } else {
            self.center.y as int
        }) + self.radius
        &&& self.bbox.z.minimum == (if self.center.z + self.center_vec.z <= self.center.z {
            self.center.z + self.center_vec.z
        } else {
            self.center.z as int
        }) - self.radius
        &&& self.bbox.z.maximum == (if self.center.z + self.center_vec.z >= self.center.z {
            self.center.z + self.center_vec.z
        } else {
            self.center.z as int
        }) + self.radius
    }

    /// A static sphere.
    pub fn new(center: Point3, radius: i64, material: crate::material::Material) -> (r: Sphere)
        requires
            center.in_bounds(crate::CEN_LIMIT as int),
            1 <= radius <= crate::CEN_LIMIT,
            crate::material::mat_wf(material),
        ensures
            r.wf(),
            r.center == center,
            r.radius == radius,
            r.material == material,
            !r.is_moving,
            r.center_vec == (Vec3 { x: 0i64, y: 0i64, z: 0i64 }),
    {
        let rvec = Vec3 { x: radius, y: radius, z: radius };
        let bbox = crate::aabb::Aabb::from_extremum(center.sub(rvec), center.add(rvec));
        Sphere {
            center,
            radius,
            material,
            is_moving: false,
            center_vec: Vec3 { x: 0, y: 0, z: 0 },
            bbox,
        }
    }

    /// A sphere whose center moves from `center_1` to `center_2` as the time runs
    /// from zero to `S_ONE`.
    pub fn moving(center_1: Point3, center_2: Point3, radius: i64, material: crate::material::Material) -> (r: Sphere)
        requires
            center_1.in_bounds(crate::CEN_LIMIT as int),
            center_2.in_bounds(crate::CEN_LIMIT as int),
            -crate::VEL_LIMIT <= center_2.x - center_1.x <= crate::VEL_LIMIT,
            -crate::VEL_LIMIT <= center_2.y - center_1.y <= crate::VEL_LIMIT,
            -crate::VEL_LIMIT <= center_2.z - center_1.z <= crate::VEL_LIMIT,
            1 <= radius <= crate::CEN_LIMIT,
            crate::material::mat_wf(material),
        ensures
            r.wf(),
            r.center == center_1,
            r.radius == radius,
            r.material == material,
            r.is_moving,
            r.center_vec.x == center_2.x - center_1.x,
            r.center_vec.y == center_2.y - center_1.y,
            r.center_vec.z == center_2.z - center_1.z,
    {
        let rvec = Vec3 { x: radius, y: radius, z: radius };
        let box1 = crate::aabb::Aabb::from_extremum(center_1.sub(rvec), center_1.add(rvec));
        let box2 = crate::aabb::Aabb::from_extremum(center_2.sub(rvec), center_2.add(rvec));
        Sphere {
            center: center_1,
            radius,
            material,
            is_moving: true,
            center_vec: center_2.sub(center_1),
            bbox: crate::aabb::Aabb::surrounding(&box1, &box2),
        }
    }

    /// The center at the given time value.
    pub fn center(&self, time: i64) -> (r: Point3)
        requires
            self.wf(),
            -crate::T_LIMIT <= time <= crate::T_LIMIT,
        ensures
            (r.x as int, r.y as int, r.z as int) == sphere_center_at(*self, time as int),
            r.in_bounds(0x5_0000_0000),
    {
        proof {
            crate::vec3::lemma_prod_bound2(self.center_vec.x as int, time as int, crate::VEL_LIMIT as int, crate::T_LIMIT as int);
            crate::vec3::lemma_prod_bound2(self.center_vec.y as int, time as int, crate::VEL_LIMIT as int, crate::T_LIMIT as int);
            crate::vec3::lemma_prod_bound2(self.center_vec.z as int, time as int, crate::VEL_LIMIT as int, crate::T_LIMIT as int);
        }
        let step = self.center_vec.scale_div(time, crate::S_ONE);
        proof {
            crate::vec3::lemma_div_bound_multiple(self.center_vec.x as int * time as int, crate::S_ONE as int, 0x2_0000_0000);
            crate::vec3::lemma_div_bound_multiple(self.center_vec.y as int * time as int, crate::S_ONE as int, 0x2_0000_0000);
            crate::vec3::lemma_div_bound_multiple(self.center_vec.z as int * time as int, crate::S_ONE as int, 0x2_0000_0000);
        }
        self.center.add(step)
    }

    /// The cached bounding box: contains the sphere across its motion.
    pub fn bounding_box(&self) -> (r: crate::aabb::Aabb)
        ensures
            r == self.bbox,
    {
        self.bbox
    }

    /// The closest intersection with the ray inside the parameter range, if
    /// any: exact in both the hit decision and the reported record.
    pub fn hit<'a>(&'a self, ray: Ray, ray_t: crate::aabb::Interval) -> (r: Option<crate::hit::Hit<'a>>)
        requires
            self.wf(),
            ray.wf(),
            crate::vec3::len2(ray.direction) > 0,
            -crate::T_LIMIT - 2 <= ray_t.minimum <= ray_t.maximum,
            ray_t.maximum <= crate::T_LIMIT + 2,
        ensures
            r.is_some() == s_hits(*self, ray, ray_t.minimum as int, ray_t.maximum as int),
            r matches Some(h) ==> {
                &&& s_record(*self, ray, ray_t.minimum as int, h)
                &&& ray_t.minimum <= h.t <= ray_t.maximum
                &&& h.material == &self.material
            },
    {
        let center = self.center(ray.time());
        match sphere_hit_core(center, self.radius, &ray, ray_t.minimum, ray_t.maximum) {
            None => None,
            Some((t, p, n)) => Some(crate::hit::Hit::new(p, n, t, ray, &self.material)),
        }
    }
}

impl Clone for Sphere {
    fn clone(&self) -> (r: Self)
        ensures
            r == *self,
    {
        Sphere {
            center: self.center,
            radius: self.radius,
            material: self.material.clone(),
            is_moving: self.is_moving,
            center_vec: self.center_vec,
            bbox: self.bbox,
        }
    }
}

} // verus!
