//! Three-component vectors over fixed-point `i64` scalars, with exact
//! integer contracts for every operation.

use crate::arith::{floor_div, isqrt, sqrt_floor};
use crate::rng::rand_range;
use crate::{S_ONE, T_ONE};
use vstd::prelude::*;

verus! {

/// A point, direction or color, depending on context.
#[derive(Clone, Copy, PartialEq, Eq, Structural, Debug)]
pub struct Vec3 {
    pub x: i64,
    pub y: i64,
    pub z: i64,
}

/// A location in space, on the `S_ONE` scale.
pub type Point3 = Vec3;

/// A color, each channel on the `[0, S_ONE]` scale.
pub type Color = Vec3;

/// The mathematical dot product.
pub open spec fn dot3(u: Vec3, v: Vec3) -> int {
    u.x * v.x + u.y * v.y + u.z * v.z
}

/// The mathematical squared length.
pub open spec fn len2(v: Vec3) -> int {
    dot3(v, v)
}

impl Vec3 {
    /// All three components lie in `[-b, b]`.
    pub open spec fn in_bounds(self, b: int) -> bool {
        -b <= self.x <= b && -b <= self.y <= b && -b <= self.z <= b
    }

    pub fn new(x: i64, y: i64, z: i64) -> (r: Vec3)
        ensures
            r == (Vec3 { x, y, z }),
    {
        Vec3 { x, y, z }
    }

    pub fn x(&self) -> (r: i64)
        ensures
            r == self.x,
    {
        self.x
    }

    pub fn y(&self) -> (r: i64)
        ensures
            r == self.y,
    {
        self.y
    }

    pub fn z(&self) -> (r: i64)
        ensures
            r == self.z,
    {
        self.z
    }

    /// Componentwise sum.
    pub fn add(self, o: Vec3) -> (r: Vec3)
        requires
            self.in_bounds(0x2000_0000_0000_0000),
            o.in_bounds(0x2000_0000_0000_0000),
        ensures
            r.x == self.x + o.x,
            r.y == self.y + o.y,
            r.z == self.z + o.z,
    {
        Vec3 { x: self.x + o.x, y: self.y + o.y, z: self.z + o.z }
    }

    /// Componentwise difference.
    pub fn sub(self, o: Vec3) -> (r: Vec3)
        requires
            self.in_bounds(0x2000_0000_0000_0000),
            o.in_bounds(0x2000_0000_0000_0000),
        ensures
            r.x == self.x - o.x,
            r.y == self.y - o.y,
            r.z == self.z - o.z,
    {
        Vec3 { x: self.x - o.x, y: self.y - o.y, z: self.z - o.z }
    }

    /// Componentwise negation.
    pub fn neg(self) -> (r: Vec3)
        requires
            self.in_bounds(0x2000_0000_0000_0000),
        ensures
            r.x == -self.x,
            r.y == -self.y,
            r.z == -self.z,
    {
        Vec3 { x: -self.x, y: -self.y, z: -self.z }
    }

    /// Componentwise `(v * num) / den`, rounding toward negative infinity.
    pub fn scale_div(self, num: i64, den: i64) -> (r: Vec3)
        requires
            0 < den,
            self.in_bounds(0x2000_0000_0000_0000),
            -0x2000_0000_0000_0000 <= num <= 0x2000_0000_0000_0000,
            -(den as int) * 0x4000_0000_0000_0000 <= self.x * num <= (den as int)
                * 0x4000_0000_0000_0000,
            -(den as int) * 0x4000_0000_0000_0000 <= self.y * num <= (den as int)
                * 0x4000_0000_0000_0000,
            -(den as int) * 0x4000_0000_0000_0000 <= self.z * num <= (den as int)
                * 0x4000_0000_0000_0000,
        ensures
            r.x == (self.x * num) / (den as int),
            r.y == (self.y * num) / (den as int),
            r.z == (self.z * num) / (den as int),
            r.in_bounds(0x4000_0000_0000_0000),
    {
        proof {
            lemma_prod_bound(self.x as int, num as int, 0x2000_0000_0000_0000);
            lemma_prod_bound(self.y as int, num as int, 0x2000_0000_0000_0000);
            lemma_prod_bound(self.z as int, num as int, 0x2000_0000_0000_0000);
        }
        let x = floor_div((self.x as i128) * (num as i128), den as i128);
        let y = floor_div((self.y as i128) * (num as i128), den as i128);
        let z = floor_div((self.z as i128) * (num as i128), den as i128);
        proof {
            lemma_div_bound_multiple(self.x as int * num as int, den as int, 0x4000_0000_0000_0000);
            lemma_div_bound_multiple(self.y as int * num as int, den as int, 0x4000_0000_0000_0000);
            lemma_div_bound_multiple(self.z as int * num as int, den as int, 0x4000_0000_0000_0000);
        }
        Vec3 { x: x as i64, y: y as i64, z: z as i64 }
    }

    /// Componentwise product of two colors, renormalized by `S_ONE`.
    pub fn mul_color(self, o: Vec3) -> (r: Vec3)
        requires
            self.in_bounds(0x4000_0000),
            o.in_bounds(0x4000_0000),
        ensures
            r.x == (self.x * o.x) / (S_ONE as int),
            r.y == (self.y * o.y) / (S_ONE as int),
            r.z == (self.z * o.z) / (S_ONE as int),
            r.in_bounds(0x4000_0000_0000_0000),
    {
        proof {
            lemma_prod_bound(self.x as int, o.x as int, 0x4000_0000);
            lemma_prod_bound(self.y as int, o.y as int, 0x4000_0000);
            lemma_prod_bound(self.z as int, o.z as int, 0x4000_0000);
        }
        let x = floor_div((self.x as i128) * (o.x as i128), S_ONE as i128);
        let y = floor_div((self.y as i128) * (o.y as i128), S_ONE as i128);
        let z = floor_div((self.z as i128) * (o.z as i128), S_ONE as i128);
        proof {
            lemma_div_bound(self.x as int * o.x as int, S_ONE as int, 0x1000_0000_0000_0000);
            lemma_div_bound(self.y as int * o.y as int, S_ONE as int, 0x1000_0000_0000_0000);
            lemma_div_bound(self.z as int * o.z as int, S_ONE as int, 0x1000_0000_0000_0000);
        }
        Vec3 { x: x as i64, y: y as i64, z: z as i64 }
    }

    /// The squared length, exactly.
    pub fn length_squared(&self) -> (r: i128)
        requires
            self.in_bounds(0x2000_0000_0000_0000),
        ensures
            r == len2(*self),
            r >= 0,
    {
        proof {
            lemma_len2_nonneg(*self);
        }
        dot(*self, *self)
    }

    /// The length, rounded down: `sqrt_floor` of the squared length.
    pub fn len(&self) -> (r: i64)
        requires
            self.in_bounds(0x1000_0000_0000_0000),
        ensures
            r == sqrt_floor(len2(*self) as nat),
            r >= 0,
    {
        let l2 = self.length_squared();
        proof {
            lemma_len2_bound(*self, 0x1000_0000_0000_0000);
        }
        let r = isqrt(l2 as u128);
        proof {
            let s = sqrt_floor(len2(*self) as nat);
            assert(s * s <= len2(*self)) by {
                crate::arith::lemma_sqrt_floor(len2(*self) as nat);
            }
            assert(s < 0x8000_0000_0000_0000) by (nonlinear_arith)
                requires
                    s * s <= len2(*self),
                    len2(*self) < 0x4000_0000_0000_0000_0000_0000_0000_0000,
                    s >= 0,
            ;
        }
        r as i64
    }

    /// Whether the vector is exactly zero (the fixed-point quantum plays the
    /// role of a small floating epsilon).
    pub fn near_zero(&self) -> (r: bool)
        ensures
            r == (self.x == 0 && self.y == 0 && self.z == 0),
    {
        self.x == 0 && self.y == 0 && self.z == 0
    }

    /// A color with each channel drawn uniformly from `[0, S_ONE)`.
    pub fn random() -> (r: Vec3)
        ensures
            r.in_bounds(S_ONE as int),
            0 <= r.x && 0 <= r.y && 0 <= r.z,
    {
        Vec3 { x: rand_range(0, S_ONE), y: rand_range(0, S_ONE), z: rand_range(0, S_ONE) }
    }

    /// A vector with each component drawn uniformly from `[lo, hi)`.
    pub fn delimited(lo: i64, hi: i64) -> (r: Vec3)
        requires
            lo < hi,
        ensures
            lo <= r.x < hi && lo <= r.y < hi && lo <= r.z < hi,
    {
        Vec3 { x: rand_range(lo, hi), y: rand_range(lo, hi), z: rand_range(lo, hi) }
    }

    /// A vector in the unit disk of the `x`-`y` plane, on the `T_ONE` scale.
    pub fn random_in_unit_disk() -> (r: Vec3)
        ensures
            len2(r) < T_ONE * T_ONE,
            r.z == 0,
            r.in_bounds(T_ONE as int),
    {
        let mut tries: u8 = 0;
        while tries < 64
            invariant
                tries <= 64,
            decreases 64 - tries as int,
        {
            tries = tries + 1;
            let p = Vec3 { x: rand_range(-T_ONE + 1, T_ONE), y: rand_range(-T_ONE + 1, T_ONE), z: 0 };
            if p.length_squared() < (T_ONE as i128) * (T_ONE as i128) {
                return p;
            }
        }
        Vec3 { x: 0, y: 0, z: 0 }
    }

    /// A vector in the unit ball, on the `T_ONE` scale, bounded away from
    /// zero so that it can be normalized.
    pub fn random_in_unit_sphere() -> (r: Vec3)
        ensures
            len2(r) < T_ONE * T_ONE,
            4 * len2(r) >= T_ONE * T_ONE,
            r.in_bounds(T_ONE as int),
    {
        let mut tries: u8 = 0;
        while tries < 64
            invariant
                tries <= 64,
            decreases 64 - tries as int,
        {
            tries = tries + 1;
            let p = Vec3::delimited(-T_ONE + 1, T_ONE);
            let l2 = p.length_squared();
            if l2 < (T_ONE as i128) * (T_ONE as i128) && 4 * l2 >= (T_ONE as i128) * (T_ONE as i128) {
                return p;
            }
        }
        Vec3 { x: 512, y: 0, z: 0 }
    }

    /// A vector in the unit ball on the same side of the surface as `normal`.
    pub fn random_in_hemisphere(normal: Vec3) -> (r: Vec3)
        requires
            normal.in_bounds(0x2000_0000_0000_0000),
        ensures
            len2(r) < T_ONE * T_ONE,
            r.in_bounds(T_ONE as int),
            dot3(r, normal) >= 0,
    {
        let in_unit_sphere = Vec3::random_in_unit_sphere();
        if dot(in_unit_sphere, normal) > 0 {
            in_unit_sphere
        } else {
            let r = in_unit_sphere.neg();
            proof {
                lemma_neg_facts(in_unit_sphere, r, normal);
            }
            r
        }
    }

    /// An approximately unit direction on the `T_ONE` scale.
    pub fn random_unit() -> (r: Vec3)
        ensures
            r.in_bounds(T_ONE as int),
    {
        unit_vector(Vec3::random_in_unit_sphere())
    }
}

/// Bound on the magnitude of a product of bounded factors.
pub(crate) proof fn lemma_prod_bound(a: int, b: int, c: int)
    requires
        -c <= a <= c,
        -c <= b <= c,
        0 <= c,
    ensures
        -(c * c) <= a * b <= c * c,
{
    assert(-(c * c) <= a * b <= c * c) by (nonlinear_arith)
        requires
            -c <= a <= c,
            -c <= b <= c,
            0 <= c,
    ;
}

/// A floor quotient has no greater magnitude than its dividend, for a
/// positive divisor.
pub(crate) proof fn lemma_div_bound(a: int, b: int, c: int)
    requires
        0 < b,
        -c <= a <= c,
        0 <= c,
    ensures
        -c <= a / b <= c,
{
    vstd::arithmetic::div_mod::lemma_fundamental_div_mod(a, b);
    vstd::arithmetic::div_mod::lemma_mod_division_less_than_divisor(a, b);
    assert(-c <= a / b <= c) by (nonlinear_arith)
        requires
            a == b * (a / b) + a % b,
            0 <= a % b < b,
            0 < b,
            -c <= a <= c,
            0 <= c,
    ;
}

/// Asymmetric bound on the magnitude of a product.
pub(crate) proof fn lemma_prod_bound2(a: int, b: int, ab: int, bb: int)
    requires
        -ab <= a <= ab,
        -bb <= b <= bb,
        0 <= ab,
        0 <= bb,
    ensures
        -(ab * bb) <= a * b <= ab * bb,
{
    assert(-(ab * bb) <= a * b <= ab * bb) by (nonlinear_arith)
        requires
            -ab <= a <= ab,
            -bb <= b <= bb,
            0 <= ab,
            0 <= bb,
    ;
}

/// Componentwise bounds give a bound on the dot product.
pub(crate) proof fn lemma_dot3_bound(u: Vec3, v: Vec3, c: int)
    requires
        u.in_bounds(c),
        v.in_bounds(c),
        0 <= c,
    ensures
        -3 * (c * c) <= dot3(u, v) <= 3 * (c * c),
{
    assert(-3 * (c * c) <= dot3(u, v) <= 3 * (c * c)) by (nonlinear_arith)
        requires
            -c <= u.x <= c,
            -c <= u.y <= c,
            -c <= u.z <= c,
            -c <= v.x <= c,
            -c <= v.y <= c,
            -c <= v.z <= c,
            0 <= c,
            dot3(u, v) == u.x * v.x + u.y * v.y + u.z * v.z,
    ;
}

/// Asymmetric componentwise bounds give a bound on the dot product.
pub(crate) proof fn lemma_dot3_bound2(u: Vec3, v: Vec3, cu: int, cv: int)
    requires
        u.in_bounds(cu),
        v.in_bounds(cv),
        0 <= cu,
        0 <= cv,
    ensures
        -3 * (cu * cv) <= dot3(u, v) <= 3 * (cu * cv),
{
    assert(-3 * (cu * cv) <= dot3(u, v) <= 3 * (cu * cv)) by (nonlinear_arith)
        requires
            -cu <= u.x <= cu,
            -cu <= u.y <= cu,
            -cu <= u.z <= cu,
            -cv <= v.x <= cv,
            -cv <= v.y <= cv,
            -cv <= v.z <= cv,
            0 <= cu,
            0 <= cv,
            dot3(u, v) == u.x * v.x + u.y * v.y + u.z * v.z,
    ;
}

/// A quotient `a / b` with `|a| <= b * c` lies in `[-c, c]`.
pub(crate) proof fn lemma_div_bound_multiple(a: int, b: int, c: int)
    requires
        0 < b,
        -(b * c) <= a <= b * c,
        0 <= c,
    ensures
        -c <= a / b <= c,
{
    vstd::arithmetic::div_mod::lemma_fundamental_div_mod(a, b);
    vstd::arithmetic::div_mod::lemma_mod_division_less_than_divisor(a, b);
    assert(-c <= a / b <= c) by (nonlinear_arith)
        requires
            a == b * (a / b) + a % b,
            0 <= a % b < b,
            0 < b,
            -(b * c) <= a <= b * c,
            0 <= c,
    ;
}

/// A squared length is never negative.
pub(crate) proof fn lemma_len2_nonneg(v: Vec3)
    ensures
        len2(v) >= 0,
{
    assert(v.x * v.x + v.y * v.y + v.z * v.z >= 0) by (nonlinear_arith);
}

/// Negation keeps the squared length and flips the dot product.
pub(crate) proof fn lemma_neg_facts(v: Vec3, w: Vec3, n: Vec3)
    requires
        w.x == -v.x,
        w.y == -v.y,
        w.z == -v.z,
    ensures
        len2(w) == len2(v),
        dot3(w, n) == -dot3(v, n),
{
    assert(len2(w) == len2(v) && dot3(w, n) == -dot3(v, n)) by (nonlinear_arith)
        requires
            w.x == -v.x,
            w.y == -v.y,
            w.z == -v.z,
            len2(w) == w.x * w.x + w.y * w.y + w.z * w.z,
            len2(v) == v.x * v.x + v.y * v.y + v.z * v.z,
            dot3(w, n) == w.x * n.x + w.y * n.y + w.z * n.z,
            dot3(v, n) == v.x * n.x + v.y * n.y + v.z * n.z,
    ;
}

/// Each component is bounded in square by the squared length.
pub(crate) proof fn lemma_len2_bound(v: Vec3, c: int)
    requires
        v.in_bounds(c),
        0 <= c,
    ensures
        0 <= len2(v) <= 3 * c * c,
        v.x * v.x <= len2(v),
        v.y * v.y <= len2(v),
        v.z * v.z <= len2(v),
{
    assert(0 <= len2(v) <= 3 * c * c && v.x * v.x <= len2(v) && v.y * v.y <= len2(v) && v.z * v.z
        <= len2(v)) by (nonlinear_arith)
        requires
            -c <= v.x <= c,
            -c <= v.y <= c,
            -c <= v.z <= c,
            0 <= c,
            len2(v) == v.x * v.x + v.y * v.y + v.z * v.z,
    ;
}

/// The exact dot product.
pub fn dot(u: Vec3, v: Vec3) -> (r: i128)
    requires
        u.in_bounds(0x2000_0000_0000_0000),
        v.in_bounds(0x2000_0000_0000_0000),
    ensures
        r == dot3(u, v),
{
    proof {
        lemma_prod_bound(u.x as int, v.x as int, 0x2000_0000_0000_0000);
        lemma_prod_bound(u.y as int, v.y as int, 0x2000_0000_0000_0000);
        lemma_prod_bound(u.z as int, v.z as int, 0x2000_0000_0000_0000);
    }
    (u.x as i128) * (v.x as i128) + (u.y as i128) * (v.y as i128) + (u.z as i128) * (v.z as i128)
}

/// The exact cross product.
pub fn cross(u: Vec3, v: Vec3) -> (r: Vec3)
    requires
        u.in_bounds(0x4000_0000),
        v.in_bounds(0x4000_0000),
    ensures
        r.x == u.y * v.z - u.z * v.y,
        r.y == u.z * v.x - u.x * v.z,
        r.z == u.x * v.y - u.y * v.x,
{
    proof {
        lemma_prod_bound(u.x as int, v.x as int, 0x4000_0000);
        lemma_prod_bound(u.x as int, v.y as int, 0x4000_0000);
        lemma_prod_bound(u.x as int, v.z as int, 0x4000_0000);
        lemma_prod_bound(u.y as int, v.x as int, 0x4000_0000);
        lemma_prod_bound(u.y as int, v.y as int, 0x4000_0000);
        lemma_prod_bound(u.y as int, v.z as int, 0x4000_0000);
        lemma_prod_bound(u.z as int, v.x as int, 0x4000_0000);
        lemma_prod_bound(u.z as int, v.y as int, 0x4000_0000);
        lemma_prod_bound(u.z as int, v.z as int, 0x4000_0000);
    }
    Vec3 {
        x: u.y * v.z - u.z * v.y,
        y: u.z * v.x - u.x * v.z,
        z: u.x * v.y - u.y * v.x,
    }
}

/// Rescale `v` to (approximately) length `T_ONE`: componentwise
/// `(v * T_ONE) / len(v)`, rounding toward negative infinity.
pub fn unit_vector(v: Vec3) -> (r: Vec3)
    requires
        v.in_bounds(0x1000_0000_0000_0000),
        len2(v) > 0,
    ensures
        r.x == (v.x * T_ONE) / sqrt_floor(len2(v) as nat) as int,
        r.y == (v.y * T_ONE) / sqrt_floor(len2(v) as nat) as int,
        r.z == (v.z * T_ONE) / sqrt_floor(len2(v) as nat) as int,
        r.in_bounds(T_ONE as int),
{
    let l = v.len();
    proof {
        crate::arith::lemma_sqrt_floor(len2(v) as nat);
        assert(l >= 1) by (nonlinear_arith)
            requires
                (l + 1) * (l + 1) > len2(v),
                len2(v) > 0,
                l >= 0,
        ;
        lemma_len2_bound(v, 0x1000_0000_0000_0000);
        // Each |component| is at most the rounded-down length.
        lemma_component_le_len(v.x as int, len2(v), l as int);
        lemma_component_le_len(v.y as int, len2(v), l as int);
        lemma_component_le_len(v.z as int, len2(v), l as int);
    }
    let r = v.scale_div(T_ONE, l);
    proof {
        lemma_unit_component(v.x as int, l as int);
        lemma_unit_component(v.y as int, l as int);
        lemma_unit_component(v.z as int, l as int);
    }
    r
}

/// If `c * c <= l2 < (l + 1) * (l + 1)` then `|c| <= l`.
pub(crate) proof fn lemma_component_le_len(c: int, l2: int, l: int)
    requires
        c * c <= l2,
        l2 < (l + 1) * (l + 1),
        l >= 0,
    ensures
        -l <= c <= l,
{
    assert(-l <= c <= l) by (nonlinear_arith)
        requires
            c * c <= l2,
            l2 < (l + 1) * (l + 1),
            l >= 0,
    ;
}

/// `(c * T_ONE) / l` stays in `[-T_ONE, T_ONE]` when `|c| <= l`.
pub(crate) proof fn lemma_unit_component(c: int, l: int)
    requires
        -l <= c <= l,
        l >= 1,
    ensures
        -T_ONE <= (c * T_ONE) / l <= T_ONE,
{
    vstd::arithmetic::div_mod::lemma_fundamental_div_mod(c * T_ONE, l);
    vstd::arithmetic::div_mod::lemma_mod_division_less_than_divisor(c * T_ONE, l);
    assert(-T_ONE <= (c * T_ONE) / l <= T_ONE) by (nonlinear_arith)
        requires
            c * T_ONE == l * ((c * T_ONE) / l) + (c * T_ONE) % l,
            0 <= (c * T_ONE) % l < l,
            -l <= c <= l,
            l >= 1,
            T_ONE == 1024,
    ;
}

/// Mirror `v` about the plane normal to `n`: exactly
/// `v - (2 * dot(v, n) / dot(n, n)) * n`, with the quotient taken
/// componentwise after multiplying by `n`.
pub fn reflect(v: Vec3, n: Vec3) -> (r: Vec3)
    requires
        v.in_bounds(0x10_0000),
        n.in_bounds(0x10_0000),
        len2(n) > 0,
    ensures
        r.x == v.x - (2 * dot3(v, n) * n.x) / len2(n),
        r.y == v.y - (2 * dot3(v, n) * n.y) / len2(n),
        r.z == v.z - (2 * dot3(v, n) * n.z) / len2(n),
        r.in_bounds(0x6000_0000_0010_0000),
{
    let d = dot(v, n);
    let l2 = n.length_squared();
    proof {
        lemma_dot3_bound(v, n, 0x10_0000);
        lemma_prod_bound2(2 * dot3(v, n), n.x as int, 0x600_0000_0000, 0x10_0000);
        lemma_prod_bound2(2 * dot3(v, n), n.y as int, 0x600_0000_0000, 0x10_0000);
        lemma_prod_bound2(2 * dot3(v, n), n.z as int, 0x600_0000_0000, 0x10_0000);
    }
    let qx = floor_div(2 * d * (n.x as i128), l2);
    let qy = floor_div(2 * d * (n.y as i128), l2);
    let qz = floor_div(2 * d * (n.z as i128), l2);
    proof {
        lemma_div_bound(2 * dot3(v, n) * n.x, len2(n), 0x6000_0000_0000_0000);
        lemma_div_bound(2 * dot3(v, n) * n.y, len2(n), 0x6000_0000_0000_0000);
        lemma_div_bound(2 * dot3(v, n) * n.z, len2(n), 0x6000_0000_0000_0000);
    }
    Vec3 {
        x: v.x - qx as i64,
        y: v.y - qy as i64,
        z: v.z - qz as i64,
    }
}

} // verus!
