//! Materials: Lambertian diffuse, fuzzy metal, and dielectric scattering.
//!
//! Each scattering rule is a deterministic function of the incoming ray, the
//! hit and the random draw; the `*_scatter_with` functions take the draw as
//! an argument and carry exact contracts, and the `scatter` dispatcher draws
//! the randomness and calls them.

use crate::arith::{isqrt, sqrt_floor};
use crate::hit::Hit;
use crate::ray::Ray;
use crate::rng::rand_range;
use crate::texture::{texture_value, texture_wf, SolidColor, Texture};
use crate::vec3::{dot, dot3, len2, reflect, unit_vector, Color, Vec3};
use crate::{S_ONE, T_ONE};
use vstd::prelude::*;

verus! {

/// A diffuse surface with a texture albedo.
pub struct Lambertian {
    pub albedo: Texture,
}

/// A specular surface with a color albedo and a fuzz radius in `[0, S_ONE]`.
pub struct Metal {
    pub albedo: Color,
    pub fuzziness: i64,
}

/// A clear refractive surface with an index of refraction on the `S_ONE`
/// scale.
pub struct Dielectric {
    pub refraction_index: i64,
}

/// A closed set of materials.
pub enum Material {
    Lambertian(Lambertian),
    Metal(Metal),
    Dielectric(Dielectric),
}

/// Valid material data.
pub open spec fn mat_wf(m: Material) -> bool {
    match m {
        Material::Lambertian(l) => texture_wf(l.albedo),
        Material::Metal(mm) => 0 <= mm.albedo.x <= S_ONE && 0 <= mm.albedo.y <= S_ONE && 0
            <= mm.albedo.z <= S_ONE && 0 <= mm.fuzziness <= S_ONE,
        Material::Dielectric(d) => S_ONE <= d.refraction_index <= 16 * S_ONE,
    }
}

/// The rescaled direction `unit_vector` computes, componentwise.
pub open spec fn unit_of(v: Vec3) -> (int, int, int) {
    let s = sqrt_floor(len2(v) as nat) as int;
    ((v.x * T_ONE) / s, (v.y * T_ONE) / s, (v.z * T_ONE) / s)
}

/// The dot product of an integer triple with a vector.
pub open spec fn dot3t(u: (int, int, int), n: Vec3) -> int {
    u.0 * n.x + u.1 * n.y + u.2 * n.z
}

/// The mirror image `reflect` computes, componentwise.
pub open spec fn reflect_of(u: (int, int, int), n: Vec3) -> (int, int, int) {
    (
        u.0 - (2 * dot3t(u, n) * n.x) / len2(n),
        u.1 - (2 * dot3t(u, n) * n.y) / len2(n),
        u.2 - (2 * dot3t(u, n) * n.z) / len2(n),
    )
}

/// The direction a metal scatters to: the mirrored unit direction plus the
/// fuzz-scaled perturbation.
pub open spec fn metal_dir(m: Metal, dir_in: Vec3, normal: Vec3, perturb: Vec3) -> (int, int, int) {
    let u = unit_of(dir_in);
    let r = reflect_of(u, normal);
    (
        r.0 + (perturb.x * m.fuzziness) / (S_ONE as int),
        r.1 + (perturb.y * m.fuzziness) / (S_ONE as int),
        r.2 + (perturb.z * m.fuzziness) / (S_ONE as int),
    )
}

/// The cosine (on the `T_ONE` scale) between the reversed unit incoming
/// direction and the normal, capped at one.
pub open spec fn cos_in(u: (int, int, int), n: Vec3) -> int {
    let c0 = (-dot3t(u, n)) / (T_ONE as int);
    if c0 <= T_ONE {
        c0
    } else {
        T_ONE as int
    }
}

/// The refraction ratio as a fraction: `1 / index` on the front face,
/// `index` on the back face.
pub open spec fn refraction_ratio(d: Dielectric, front_face: bool) -> (int, int) {
    if front_face {
        (S_ONE as int, d.refraction_index as int)
    } else {
        (d.refraction_index as int, S_ONE as int)
    }
}

/// Whether a dielectric reflects: either total internal reflection
/// (`eta * sin > 1`, decided by squaring) or Schlick's reflectance exceeding
/// the uniform draw.
pub open spec fn dielectric_reflects(
    d: Dielectric,
    dir_in: Vec3,
    normal: Vec3,
    front_face: bool,
    draw: int,
) -> bool {
    let u = unit_of(dir_in);
    let c = cos_in(u, normal);
    let sin2 = abs_i(T_ONE * T_ONE - c * c);
    let nd = refraction_ratio(d, front_face);
    nd.0 * nd.0 * sin2 > nd.1 * nd.1 * (T_ONE * T_ONE) || schlick(nd.0, nd.1, c) > draw
}

/// The absolute value.
pub open spec fn abs_i(x: int) -> int {
    if x >= 0 {
        x
    } else {
        -x
    }
}

/// Schlick's reflectance approximation on the `S_ONE` scale, for the
/// refraction ratio `num / den` and a `T_ONE`-scaled cosine.
pub open spec fn schlick(num: int, den: int, c: int) -> int {
    let r0 = ((den - num) * (den - num) * S_ONE) / ((den + num) * (den + num));
    let b = T_ONE - c;
    r0 + ((S_ONE - r0) * (b * b * b * b * b)) / (T_ONE * T_ONE * T_ONE * T_ONE * T_ONE)
}

/// The direction a dielectric refracts to, componentwise, mirroring the
/// executable arithmetic exactly.
pub open spec fn refract_of(u: (int, int, int), n: Vec3, num: int, den: int) -> (int, int, int) {
    let c = cos_in(u, n);
    let p0 = ((u.0 + (n.x * c) / (T_ONE as int)) * num) / den;
    let p1 = ((u.1 + (n.y * c) / (T_ONE as int)) * num) / den;
    let p2 = ((u.2 + (n.z * c) / (T_ONE as int)) * num) / den;
    let k = sqrt_floor(abs_i(T_ONE * T_ONE - (p0 * p0 + p1 * p1 + p2 * p2)) as nat) as int;
    (p0 + (n.x * -k) / (T_ONE as int), p1 + (n.y * -k) / (T_ONE as int), p2 + (n.z * -k) / (
    T_ONE as int))
}

impl Lambertian {
    /// A diffuse material of one solid color.
    pub fn new(albedo: Color) -> (r: Lambertian)
        ensures
            r.albedo == Texture::Solid(SolidColor { color_value: albedo }),
    {
        Lambertian { albedo: Texture::Solid(SolidColor { color_value: albedo }) }
    }

    /// A diffuse material colored by a texture.
    pub fn textured(texture: Texture) -> (r: Lambertian)
        ensures
            r.albedo == texture,
    {
        Lambertian { albedo: texture }
    }

    /// Diffuse scattering with the random unit direction passed in: always
    /// scatters, toward the normal plus the unit draw (or the bare normal if
    /// the sum degenerates to zero), attenuated by the albedo at the hit.
    pub fn lambertian_scatter_with(&self, r_in: &Ray, hit: &Hit, unit_dir: Vec3) -> (r: Option<
        (Ray, Color),
    >)
        requires
            texture_wf(self.albedo),
            unit_dir.in_bounds(2 * T_ONE as int),
            hit.normal.in_bounds(0x1000),
            hit.p.in_bounds(0x100_0000_0000),
        ensures
            r.is_some(),
            r matches Some((s, att)) ==> {
                &&& att == texture_value(self.albedo, hit.p)
                &&& 0 <= att.x <= S_ONE && 0 <= att.y <= S_ONE && 0 <= att.z <= S_ONE
                &&& s.origin == hit.p
                &&& s.tm == r_in.tm
                &&& if hit.normal.x + unit_dir.x == 0 && hit.normal.y + unit_dir.y == 0
                    && hit.normal.z + unit_dir.z == 0 {
                    s.direction == hit.normal
                } else {
                    s.direction.x == hit.normal.x + unit_dir.x && s.direction.y == hit.normal.y
                        + unit_dir.y && s.direction.z == hit.normal.z + unit_dir.z
                }
            },
    {
        let mut scatter_direction = hit.normal.add(unit_dir);
        if scatter_direction.near_zero() {
            scatter_direction = hit.normal;
        }
        let scattered = Ray::timed(hit.p, scatter_direction, r_in.time());
        Some((scattered, self.albedo.value(hit.u, hit.v, hit.p)))
    }
}

impl Metal {
    /// A fuzzy mirror; the fuzz radius is clamped to at most `S_ONE` (one).
    pub fn new(albedo: Color, fuzziness: i64) -> (r: Metal)
        requires
            0 <= fuzziness,
        ensures
            r.albedo == albedo,
            r.fuzziness == if fuzziness < S_ONE {
                fuzziness as int
            } else {
                S_ONE as int
            },
    {
        Metal { albedo, fuzziness: if fuzziness < S_ONE { fuzziness } else { S_ONE } }
    }

    /// Specular scattering with the fuzz perturbation passed in: scatters
    /// along the mirrored direction plus the scaled perturbation, and
    /// absorbs exactly when that direction leaves the surface the wrong way.
    pub fn metal_scatter_with(&self, r_in: &Ray, hit: &Hit, perturb: Vec3) -> (r: Option<
        (Ray, Color),
    >)
        requires
            r_in.direction.in_bounds(crate::DIR_LIMIT as int),
            len2(r_in.direction) > 0,
            hit.normal.in_bounds(0x1000),
            len2(hit.normal) > 0,
            perturb.in_bounds(T_ONE as int),
            0 <= self.fuzziness <= S_ONE,
        ensures
            ({
                let d = metal_dir(*self, r_in.direction, hit.normal, perturb);
                &&& r.is_some() == (d.0 * hit.normal.x + d.1 * hit.normal.y + d.2 * hit.normal.z
                    > 0)
                &&& r matches Some((s, att)) ==> {
                    &&& att == self.albedo
                    &&& s.origin == hit.p
                    &&& s.tm == r_in.tm
                    &&& (s.direction.x as int, s.direction.y as int, s.direction.z as int) == d
                }
            }),
    {
        let u = unit_vector(r_in.direction);
        let reflected = reflect(u, hit.normal);
        proof {
            crate::vec3::lemma_dot3_bound2(u, hit.normal, T_ONE as int, 0x1000);
            crate::vec3::lemma_prod_bound2(2 * dot3(u, hit.normal), hit.normal.x as int, 25165824, 0x1000);
            crate::vec3::lemma_prod_bound2(2 * dot3(u, hit.normal), hit.normal.y as int, 25165824, 0x1000);
            crate::vec3::lemma_prod_bound2(2 * dot3(u, hit.normal), hit.normal.z as int, 25165824, 0x1000);
            crate::vec3::lemma_div_bound(2 * dot3(u, hit.normal) * hit.normal.x, len2(hit.normal), 103079215104);
            crate::vec3::lemma_div_bound(2 * dot3(u, hit.normal) * hit.normal.y, len2(hit.normal), 103079215104);
            crate::vec3::lemma_div_bound(2 * dot3(u, hit.normal) * hit.normal.z, len2(hit.normal), 103079215104);
            assert(reflected.in_bounds(103079216128));
            crate::vec3::lemma_prod_bound2(perturb.x as int, self.fuzziness as int, T_ONE as int, S_ONE as int);
            crate::vec3::lemma_prod_bound2(perturb.y as int, self.fuzziness as int, T_ONE as int, S_ONE as int);
            crate::vec3::lemma_prod_bound2(perturb.z as int, self.fuzziness as int, T_ONE as int, S_ONE as int);
        }
        let fuzz = perturb.scale_div(self.fuzziness, S_ONE);
        let direction = reflected.add(fuzz);
        let d = dot(direction, hit.normal);
        if d > 0 {
            Some((Ray::timed(hit.p, direction, r_in.time()), self.albedo))
        } else {
            None
        }
    }
}

impl Dielectric {
    /// A clear material with the given index of refraction (`S_ONE` scale).
    pub fn new(refraction_index: i64) -> (r: Dielectric)
        ensures
            r.refraction_index == refraction_index,
    {
        Dielectric { refraction_index }
    }

    /// Refractive scattering with the reflectance draw passed in: never
    /// absorbs, attenuates by opaque white, and picks mirror reflection
    /// exactly when total internal reflection forces it or the Schlick
    /// reflectance exceeds the draw; otherwise it refracts.
    pub fn dielectric_scatter_with(&self, r_in: &Ray, hit: &Hit, draw: i64) -> (r: Option<
        (Ray, Color),
    >)
        requires
            r_in.direction.in_bounds(crate::DIR_LIMIT as int),
            len2(r_in.direction) > 0,
            hit.normal.in_bounds(0x1000),
            len2(hit.normal) > 0,
            S_ONE <= self.refraction_index <= 16 * S_ONE,
            0 <= draw <= S_ONE,
        ensures
            r.is_some(),
            r matches Some((s, att)) ==> {
                let u = unit_of(r_in.direction);
                let nd = refraction_ratio(*self, hit.front_face);
                &&& att == (Vec3 { x: S_ONE, y: S_ONE, z: S_ONE })
                &&& s.origin == hit.p
                &&& s.tm == r_in.tm
                &&& (s.direction.x as int, s.direction.y as int, s.direction.z as int) == if
                    dielectric_reflects(
                    *self,
                    r_in.direction,
                    hit.normal,
                    hit.front_face,
                    draw as int,
                ) {
                    reflect_of(u, hit.normal)
                } else {
                    refract_of(u, hit.normal, nd.0, nd.1)
                }
            },
    {
        let attenuation = Vec3 { x: S_ONE, y: S_ONE, z: S_ONE };
        let (num, den): (i64, i64) = if hit.front_face {
            (S_ONE, self.refraction_index)
        } else {
            (self.refraction_index, S_ONE)
        };
        let u = unit_vector(r_in.direction);
        let mdot = dot(u, hit.normal);
        proof {
            crate::vec3::lemma_dot3_bound2(u, hit.normal, T_ONE as int, 0x1000);
        }
        let c0 = crate::arith::floor_div(-mdot, T_ONE as i128) as i64;
        proof {
            crate::vec3::lemma_div_bound_multiple(-dot3(u, hit.normal), T_ONE as int, 12288);
        }
        let cos_theta: i64 = if c0 <= T_ONE {
            c0
        } else {
            T_ONE
        };
        proof {
            assert(cos_theta as int == cos_in(unit_of(r_in.direction), hit.normal));
        }
        proof {
            crate::vec3::lemma_prod_bound(cos_theta as int, cos_theta as int, 12288);
        }
        let sin2: i128 = {
            let v = (T_ONE as i128) * (T_ONE as i128) - (cos_theta as i128) * (cos_theta as i128);
            if v >= 0 {
                v
            } else {
                -v
            }
        };
        let num128 = num as i128;
        let den128 = den as i128;
        proof {
            assert(num128 * num128 <= 1099511627776 && den128 * den128 <= 1099511627776
                && 0 <= num128 * num128 && 0 <= den128 * den128) by (nonlinear_arith)
                requires
                    1 <= num128 <= 1048576,
                    1 <= den128 <= 1048576,
            ;
            assert(num128 * num128 * sin2 <= 1099511627776int * 152043520
                && 0 <= num128 * num128 * sin2 && den128 * den128 * ((T_ONE as int) * (
            T_ONE as int)) <= 1099511627776int * 1048576) by (nonlinear_arith)
                requires
                    0 <= num128 * num128 <= 1099511627776,
                    0 <= den128 * den128 <= 1099511627776,
                    0 <= sin2 <= 152043520,
            ;
        }
        let cannot_refract = num128 * num128 * sin2 > den128 * den128 * ((T_ONE as i128) * (
        T_ONE as i128));
        let refl = reflectance(num, den, cos_theta);
        let direction: Vec3 = if cannot_refract || refl > draw {
            reflect(u, hit.normal)
        } else {
            refract(u, hit.normal, num, den)
        };
        Some((Ray::timed(hit.p, direction, r_in.time()), attenuation))
    }
}

/// Schlick's reflectance on the `S_ONE` scale, exactly as `schlick` states.
#[verifier::rlimit(60)]
fn reflectance(num: i64, den: i64, c: i64) -> (r: i64)
    requires
        1 <= num <= 16 * S_ONE,
        1 <= den <= 16 * S_ONE,
        -12288 <= c <= T_ONE,
    ensures
        r == schlick(num as int, den as int, c as int),
{
    let diff = (den - num) as i128;
    let summ = (den + num) as i128;
    proof {
        assert(diff * diff <= summ * summ && 0 <= diff * diff && 4 <= summ * summ && summ * summ
            <= 4398046511104int && diff * diff * (S_ONE as int) <= 72057594037927936int && 0
            <= diff * diff * (S_ONE as int)) by (nonlinear_arith)
            requires
                diff == den - num,
                summ == den + num,
                1 <= num <= 1048576,
                1 <= den <= 1048576,
                S_ONE == 65536,
        ;
    }
    let r0 = crate::arith::floor_div(diff * diff * (S_ONE as i128), summ * summ);
    proof {
        vstd::arithmetic::div_mod::lemma_fundamental_div_mod(
            diff * diff * (S_ONE as int),
            summ * summ,
        );
        vstd::arithmetic::div_mod::lemma_mod_division_less_than_divisor(
            diff * diff * (S_ONE as int),
            summ * summ,
        );
        // r0 floors a nonnegative quantity no larger than S_ONE times the
        // divisor, so it lies in [0, S_ONE].
        assert(0 <= r0 && r0 <= S_ONE) by (nonlinear_arith)
            requires
                diff * diff * (S_ONE as int) == summ * summ * (r0 as int) + diff * diff * (
                S_ONE as int) % (summ * summ),
                0 <= diff * diff * (S_ONE as int) % (summ * summ) < summ * summ,
                0 < summ * summ,
                0 <= diff * diff * (S_ONE as int),
                diff * diff <= summ * summ,
                S_ONE == 65536,
        ;
    }
    let b = (T_ONE - c) as i128;
    proof {
        assert(0 <= b * b <= 177209344int) by (nonlinear_arith)
            requires
                0 <= b <= 13312,
        ;
        assert(0 <= b * b * b <= 2359010787328int) by (nonlinear_arith)
            requires
                0 <= b <= 13312,
                0 <= b * b <= 177209344int,
        ;
        crate::vec3::lemma_prod_bound2(b * b * b, b as int, 2359010787328, 13312);
        assert(2359010787328int * 13312 == 31403151600910336int) by (nonlinear_arith);
        assert(0 <= b * b * b * b) by (nonlinear_arith)
            requires
                0 <= b,
                0 <= b * b * b,
        ;
        crate::vec3::lemma_prod_bound2(b * b * b * b, b as int, 31403151600910336, 13312);
        assert(31403151600910336int * 13312 == 418038754111318392832int) by (nonlinear_arith);
        assert(0 <= b * b * b * b * b) by (nonlinear_arith)
            requires
                0 <= b,
                0 <= b * b * b * b,
        ;
        assert((S_ONE as int - r0) * (b * b * b * b * b) <= 27396587789439362192637952int && 0 <= (
        S_ONE as int - r0) * (b * b * b * b * b)) by (nonlinear_arith)
            requires
                0 <= b * b * b * b * b <= 418038754111318392832int,
                0 <= r0 <= S_ONE,
                S_ONE == 65536,
        ;
    }
    let pw5 = b * b * b * b * b;
    let t5: i128 = (T_ONE as i128) * (T_ONE as i128) * (T_ONE as i128) * (T_ONE as i128) * (
    T_ONE as i128);
    proof {
        assert((1125899906842624int) * 24333058049 >= 27396587789439362192637952int) by (nonlinear_arith);
    }
    let frac = crate::arith::floor_div(((S_ONE as i128) - r0) * pw5, t5);
    proof {
        crate::vec3::lemma_div_bound_multiple(
            (S_ONE as int - r0) * (b * b * b * b * b),
            (T_ONE as int) * (T_ONE as int) * (T_ONE as int) * (T_ONE as int) * (T_ONE as int),
            24333058049,
        );
    }
    r0 as i64 + frac as i64
}

/// Bend the (rescaled unit) incoming direction `u` through a surface with
/// normal `n` at the refraction ratio `num / den`, exactly as `refract_of`
/// states: the perpendicular part is scaled by the ratio and the parallel
/// part restores (approximately) unit length.
#[verifier::rlimit(60)]
pub fn refract(u: Vec3, n: Vec3, num: i64, den: i64) -> (r: Vec3)
    requires
        u.in_bounds(T_ONE as int),
        n.in_bounds(0x1000),
        1 <= num <= 16 * S_ONE,
        1 <= den <= 16 * S_ONE,
        num <= 16 * den,
    ensures
        (r.x as int, r.y as int, r.z as int) == refract_of(
            (u.x as int, u.y as int, u.z as int),
            n,
            num as int,
            den as int,
        ),
        r.in_bounds(6364892),
{
    let mdot = dot(u, n);
    proof {
        crate::vec3::lemma_dot3_bound2(u, n, T_ONE as int, 0x1000);
    }
    let c0 = crate::arith::floor_div(-mdot, T_ONE as i128) as i64;
    proof {
        crate::vec3::lemma_div_bound_multiple(-dot3(u, n), T_ONE as int, 12288);
    }
    let cos_theta: i64 = if c0 <= T_ONE {
        c0
    } else {
        T_ONE
    };
    proof {
        assert(cos_theta as int == cos_in((u.x as int, u.y as int, u.z as int), n));
    }
    proof {
        crate::vec3::lemma_prod_bound2(n.x as int, cos_theta as int, 0x1000, 12288);
        crate::vec3::lemma_prod_bound2(n.y as int, cos_theta as int, 0x1000, 12288);
        crate::vec3::lemma_prod_bound2(n.z as int, cos_theta as int, 0x1000, 12288);
    }
    let cn = n.scale_div(cos_theta, T_ONE);
    proof {
        crate::vec3::lemma_div_bound_multiple(n.x as int * cos_theta as int, T_ONE as int, 49152);
        crate::vec3::lemma_div_bound_multiple(n.y as int * cos_theta as int, T_ONE as int, 49152);
        crate::vec3::lemma_div_bound_multiple(n.z as int * cos_theta as int, T_ONE as int, 49152);
    }
    let inner = u.add(cn);
    proof {
        assert(-(den as int) * 802816 <= inner.x as int * num as int <= (den as int) * 802816
            && -(den as int) * 802816 <= inner.y as int * num as int <= (den as int) * 802816
            && -(den as int) * 802816 <= inner.z as int * num as int <= (den as int) * 802816
            && -(den as int) * 0x4000_0000_0000_0000 <= inner.x as int * num as int <= (den as int)
            * 0x4000_0000_0000_0000 && -(den as int) * 0x4000_0000_0000_0000 <= inner.y as int
            * num as int <= (den as int) * 0x4000_0000_0000_0000 && -(den as int)
            * 0x4000_0000_0000_0000 <= inner.z as int * num as int <= (den as int)
            * 0x4000_0000_0000_0000) by (nonlinear_arith)
            requires
                -50176 <= inner.x as int <= 50176,
                -50176 <= inner.y as int <= 50176,
                -50176 <= inner.z as int <= 50176,
                1 <= num,
                1 <= den,
                num <= 16 * den,
        ;
    }
    let perp = inner.scale_div(num, den);
    proof {
        crate::vec3::lemma_div_bound_multiple(inner.x as int * num as int, den as int, 802816);
        crate::vec3::lemma_div_bound_multiple(inner.y as int * num as int, den as int, 802816);
        crate::vec3::lemma_div_bound_multiple(inner.z as int * num as int, den as int, 802816);
    }
    let lp = perp.length_squared();
    proof {
        crate::vec3::lemma_len2_bound(perp, 802816);
        assert(3 * 802816 * 802816 == 1933540589568int) by (nonlinear_arith);
        assert(0 <= lp <= 1933540589568int);
    }
    proof {
        assert((T_ONE as int) * (T_ONE as int) == 1048576) by (nonlinear_arith);
    }
    let t_one2: i128 = (T_ONE as i128) * (T_ONE as i128);
    let vv: i128 = t_one2 - lp;
    let rest: i128 = if vv >= 0 {
        vv
    } else {
        -vv
    };
    let k64 = isqrt(rest as u128);
    proof {
        let kk = sqrt_floor(rest as nat) as int;
        assert(kk <= 1390519) by (nonlinear_arith)
            requires
                kk * kk <= rest,
                rest <= 1933540589568,
                kk >= 0,
        ;
        crate::vec3::lemma_prod_bound2(n.x as int, -(k64 as int), 0x1000, 1390519);
        crate::vec3::lemma_prod_bound2(n.y as int, -(k64 as int), 0x1000, 1390519);
        crate::vec3::lemma_prod_bound2(n.z as int, -(k64 as int), 0x1000, 1390519);
    }
    let k = k64 as i64;
    let par = n.scale_div(-k, T_ONE);
    proof {
        crate::vec3::lemma_div_bound_multiple(n.x as int * -(k as int), T_ONE as int, 5562076);
        crate::vec3::lemma_div_bound_multiple(n.y as int * -(k as int), T_ONE as int, 5562076);
        crate::vec3::lemma_div_bound_multiple(n.z as int * -(k as int), T_ONE as int, 5562076);
    }
    perp.add(par)
}

impl Material {
    /// Scatter an incoming ray at a hit: the per-kind rule with a fresh
    /// random draw. `None` means the ray was absorbed, which only a metal
    /// does, and only when its perturbed reflection left the surface the
    /// wrong way.
    pub fn scatter(&self, r_in: &Ray, hit: &Hit) -> (r: Option<(Ray, Color)>)
        requires
            mat_wf(*self),
            r_in.direction.in_bounds(crate::DIR_LIMIT as int),
            len2(r_in.direction) > 0,
            hit.normal.in_bounds(0x1000),
            len2(hit.normal) > 0,
            hit.p.in_bounds(0x100_0000_0000),
        ensures
            !(self is Metal) ==> r.is_some(),
            (self is Dielectric && (r matches Some((s, att)) && att == (Vec3 {
                x: S_ONE,
                y: S_ONE,
                z: S_ONE,
            }))) || !(self is Dielectric) || r is None,
            r matches Some((s, att)) ==> {
                &&& s.origin == hit.p
                &&& s.tm == r_in.tm
                &&& 0 <= att.x <= S_ONE && 0 <= att.y <= S_ONE && 0 <= att.z <= S_ONE
                &&& self is Metal ==> dot3(s.direction, hit.normal) > 0
            },
    {
        match self {
            Material::Lambertian(l) => l.lambertian_scatter_with(r_in, hit, Vec3::random_unit()),
            Material::Metal(m) => {
                let r = m.metal_scatter_with(r_in, hit, Vec3::random_in_unit_sphere());
                r
            },
            Material::Dielectric(d) => d.dielectric_scatter_with(
                r_in,
                hit,
                rand_range(0, S_ONE + 1),
            ),
        }
    }
}

impl Clone for Lambertian {
    fn clone(&self) -> (r: Self)
        ensures
            r == *self,
    {
        Lambertian { albedo: self.albedo.clone() }
    }
}

impl Clone for Metal {
    fn clone(&self) -> (r: Self)
        ensures
            r == *self,
    {
        Metal { albedo: self.albedo, fuzziness: self.fuzziness }
    }
}

impl Clone for Dielectric {
    fn clone(&self) -> (r: Self)
        ensures
            r == *self,
    {
        Dielectric { refraction_index: self.refraction_index }
    }
}

impl Clone for Material {
    fn clone(&self) -> (r: Self)
        ensures
            r == *self,
    {
        match self {
            Material::Lambertian(l) => Material::Lambertian(l.clone()),
            Material::Metal(mm) => Material::Metal(mm.clone()),
            Material::Dielectric(d) => Material::Dielectric(d.clone()),
        }
    }
}

} // verus!
