//! Scalar intervals and axis-aligned bounding boxes, with an exact ray-slab
//! test over rational ray parameters.

use crate::arith::floor_div_i64;
use crate::ray::Ray;
use crate::vec3::{Point3, Vec3};
use crate::T_ONE;
use vstd::prelude::*;

verus! {

/// A closed scalar range; empty when `minimum > maximum`.
#[derive(Clone, Copy, PartialEq, Eq, Structural, Debug)]
pub struct Interval {
    pub minimum: i64,
    pub maximum: i64,
}

/// The smallest interval containing both arguments.
pub open spec fn enclosing_spec(first: Interval, second: Interval) -> Interval {
    Interval {
        minimum: if first.minimum <= second.minimum {
            first.minimum
        } else {
            second.minimum
        },
        maximum: if first.maximum >= second.maximum {
            first.maximum
        } else {
            second.maximum
        },
    }
}

impl Interval {
    pub fn new(minimum: i64, maximum: i64) -> (r: Interval)
        ensures
            r == (Interval { minimum, maximum }),
    {
        Interval { minimum, maximum }
    }

    /// The smallest interval containing both arguments.
    pub fn enclosing(first: &Interval, second: &Interval) -> (r: Interval)
        ensures
            r == enclosing_spec(*first, *second),
    {
        Interval {
            minimum: if first.minimum <= second.minimum {
                first.minimum
            } else {
                second.minimum
            },
            maximum: if first.maximum >= second.maximum {
                first.maximum
            } else {
                second.maximum
            },
        }
    }

    /// The width of the interval.
    pub fn size(&self) -> (r: i64)
        requires
            -0x2000_0000_0000_0000 <= self.minimum <= 0x2000_0000_0000_0000,
            -0x2000_0000_0000_0000 <= self.maximum <= 0x2000_0000_0000_0000,
        ensures
            r == self.maximum - self.minimum,
    {
        self.maximum - self.minimum
    }

    /// Pad both ends by half of `delta` (rounded toward negative infinity).
    pub fn expand(&self, delta: i64) -> (r: Interval)
        requires
            -0x2000_0000_0000_0000 <= self.minimum <= 0x2000_0000_0000_0000,
            -0x2000_0000_0000_0000 <= self.maximum <= 0x2000_0000_0000_0000,
            -0x2000_0000_0000_0000 <= delta <= 0x2000_0000_0000_0000,
        ensures
            r.minimum == self.minimum - delta as int / 2,
            r.maximum == self.maximum + delta as int / 2,
    {
        let padding = floor_div_i64(delta, 2);
        Interval { minimum: self.minimum - padding, maximum: self.maximum + padding }
    }

    /// Whether `value` lies in the closed range.
    pub fn contains(&self, value: i64) -> (r: bool)
        ensures
            r == (self.minimum <= value <= self.maximum),
    {
        self.minimum <= value && value <= self.maximum
    }
}

/// An axis-aligned box: one interval per axis.
#[derive(Clone, Copy, PartialEq, Eq, Structural, Debug)]
pub struct Aabb {
    pub x: Interval,
    pub y: Interval,
    pub z: Interval,
}

/// The smallest box containing both arguments.
pub open spec fn surrounding_spec(first: Aabb, second: Aabb) -> Aabb {
    Aabb {
        x: enclosing_spec(first.x, second.x),
        y: enclosing_spec(first.y, second.y),
        z: enclosing_spec(first.z, second.z),
    }
}

/// Whether the box contains the point with the given coordinates.
pub open spec fn box_contains(b: Aabb, x: int, y: int, z: int) -> bool {
    &&& b.x.minimum <= x <= b.x.maximum
    &&& b.y.minimum <= y <= b.y.maximum
    &&& b.z.minimum <= z <= b.z.maximum
}

/// Whether `outer` contains every point of `inner`, axis by axis.
pub open spec fn box_within(inner: Aabb, outer: Aabb) -> bool {
    &&& outer.x.minimum <= inner.x.minimum && inner.x.maximum <= outer.x.maximum
    &&& outer.y.minimum <= inner.y.minimum && inner.y.maximum <= outer.y.maximum
    &&& outer.z.minimum <= inner.z.minimum && inner.z.maximum <= outer.z.maximum
}

/// The union of two boxes contains both: any point in either argument, and
/// any box within either argument, is within `surrounding_spec` of the two.
pub proof fn lemma_surrounding_contains(a: Aabb, b: Aabb, x: int, y: int, z: int)
    ensures
        box_within(a, surrounding_spec(a, b)),
        box_within(b, surrounding_spec(a, b)),
        box_contains(a, x, y, z) || box_contains(b, x, y, z) ==> box_contains(
            surrounding_spec(a, b),
            x,
            y,
            z,
        ),
{
}

/// Containment of boxes is transitive.
pub proof fn lemma_box_within_trans(a: Aabb, b: Aabb, c: Aabb)
    requires
        box_within(a, b),
        box_within(b, c),
    ensures
        box_within(a, c),
{
}

/// Whether the ray coordinate `o + ((p / q) * d) / T_ONE` lies strictly
/// inside `(lo, hi)` — except that an axis the ray does not advance along
/// (`d == 0`) constrains the origin to the closed range instead, mirroring
/// how the slab test treats such an axis.
pub open spec fn slab_ok(lo: int, hi: int, o: int, d: int, p: int, q: int) -> bool {
    if d == 0 {
        lo <= o <= hi
    } else {
        lo * (T_ONE * q) < o * (T_ONE * q) + p * d && o * (T_ONE * q) + p * d < hi * (T_ONE * q)
    }
}

/// The ray meets the box at the rational parameter `p / q`, strictly inside
/// the query range `(tmin, tmax)`.
pub open spec fn box_hit_at(b: Aabb, r: Ray, tmin: int, tmax: int, p: int, q: int) -> bool {
    &&& q > 0
    &&& tmin * q < p && p < tmax * q
    &&& slab_ok(b.x.minimum as int, b.x.maximum as int, r.origin.x as int, r.direction.x as int, p, q)
    &&& slab_ok(b.y.minimum as int, b.y.maximum as int, r.origin.y as int, r.direction.y as int, p, q)
    &&& slab_ok(b.z.minimum as int, b.z.maximum as int, r.origin.z as int, r.direction.z as int, p, q)
}

/// The exact meaning of the slab test: some parameter strictly inside the
/// query range puts the ray inside every slab of the box.
pub open spec fn box_hit_spec(b: Aabb, r: Ray, tmin: int, tmax: int) -> bool {
    exists|p: int, q: int| #[trigger] box_hit_at(b, r, tmin, tmax, p, q)
}

/// Membership of the rational `p / q` (with `q > 0`) in the open rational
/// interval `(ln / ld, hn / hd)`.
pub open spec fn frac_mem(ln: int, ld: int, hn: int, hd: int, p: int, q: int) -> bool {
    ln * q < p * ld && p * hd < hn * q
}

/// Transitivity: `a / ad <= b / bd` and `b / bd < c / cd` give
/// `a / ad < c / cd`, all denominators positive.
proof fn lemma_frac_le_lt(an: int, ad: int, bn: int, bd: int, cn: int, cd: int)
    requires
        ad > 0,
        bd > 0,
        cd > 0,
        an * bd <= bn * ad,
        bn * cd < cn * bd,
    ensures
        an * cd < cn * ad,
{
    assert(an * cd < cn * ad) by (nonlinear_arith)
        requires
            ad > 0,
            bd > 0,
            cd > 0,
            an * bd <= bn * ad,
            bn * cd < cn * bd,
    ;
}

/// Transitivity: `a / ad < b / bd` and `b / bd <= c / cd` give
/// `a / ad < c / cd`, all denominators positive.
proof fn lemma_frac_lt_le(an: int, ad: int, bn: int, bd: int, cn: int, cd: int)
    requires
        ad > 0,
        bd > 0,
        cd > 0,
        an * bd < bn * ad,
        bn * cd <= cn * bd,
    ensures
        an * cd < cn * ad,
{
    assert(an * cd < cn * ad) by (nonlinear_arith)
        requires
            ad > 0,
            bd > 0,
            cd > 0,
            an * bd < bn * ad,
            bn * cd <= cn * bd,
    ;
}

/// The open rational interval `(ln / ld, hn / hd)` holds a rational exactly
/// when its bounds cross-compare strictly.
proof fn lemma_frac_mem_nonempty(ln: int, ld: int, hn: int, hd: int)
    requires
        ld > 0,
        hd > 0,
    ensures
        (ln * hd < hn * ld) <==> exists|p: int, q: int|
            q > 0 && #[trigger] frac_mem(ln, ld, hn, hd, p, q),
{
    if ln * hd < hn * ld {
        let p = ln * hd + hn * ld;
        let q = 2 * ld * hd;
        assert(q > 0 && ln * q < p * ld && p * hd < hn * q) by (nonlinear_arith)
            requires
                ld > 0,
                hd > 0,
                ln * hd < hn * ld,
                p == ln * hd + hn * ld,
                q == 2 * ld * hd,
        ;
        assert(frac_mem(ln, ld, hn, hd, p, q));
    }
    if exists|p: int, q: int| q > 0 && #[trigger] frac_mem(ln, ld, hn, hd, p, q) {
        let (p, q) = choose|p: int, q: int| q > 0 && #[trigger] frac_mem(ln, ld, hn, hd, p, q);
        assert(ln * hd < hn * ld) by (nonlinear_arith)
            requires
                ld > 0,
                hd > 0,
                q > 0,
                ln * q < p * ld,
                p * hd < hn * q,
        ;
    }
}

/// For a moving axis, strict slab membership of the ray coordinate is the
/// same as lying strictly between the entry and exit fractions.
proof fn lemma_slab_solve(
    lo: int,
    hi: int,
    o: int,
    d: int,
    p: int,
    q: int,
    en: int,
    ed: int,
    un: int,
    ud: int,
)
    requires
        q > 0,
        d != 0,
        ed == if d > 0 {
            d
        } else {
            -d
        },
        ud == ed,
        en == if d > 0 {
            (lo - o) * T_ONE
        } else {
            (o - hi) * T_ONE
        },
        un == if d > 0 {
            (hi - o) * T_ONE
        } else {
            (o - lo) * T_ONE
        },
    ensures
        slab_ok(lo, hi, o, d, p, q) <==> (en * q < p * ed && p * ud < un * q),
{
    if d > 0 {
        assert((lo * (T_ONE * q) < o * (T_ONE * q) + p * d && o * (T_ONE * q) + p * d < hi * (
        T_ONE * q)) <==> ((lo - o) * T_ONE * q < p * d && p * d < (hi - o) * T_ONE * q))
            by (nonlinear_arith)
            requires
                q > 0,
                d > 0,
        ;
    } else {
        assert((lo * (T_ONE * q) < o * (T_ONE * q) + p * d && o * (T_ONE * q) + p * d < hi * (
        T_ONE * q)) <==> ((o - hi) * T_ONE * q < p * (-d) && p * (-d) < (o - lo) * T_ONE * q))
            by (nonlinear_arith)
            requires
                q > 0,
                d < 0,
        ;
    }
}

/// Intersect the running rational parameter interval with one axis slab.
/// The first component of the result says whether the interval is still
/// nonempty; the rest are the new bounds.
fn axis_clip(lo: i64, hi: i64, o: i64, d: i64, ln: i128, ld: i128, hn: i128, hd: i128) -> (res: (
    bool,
    i128,
    i128,
    i128,
    i128,
))
    requires
        -0x10_0000_0000 <= lo <= 0x10_0000_0000,
        -0x10_0000_0000 <= hi <= 0x10_0000_0000,
        -0x10_0000_0000 <= o <= 0x10_0000_0000,
        -0x1_0000 <= d <= 0x1_0000,
        1 <= ld <= 0x2_0000,
        1 <= hd <= 0x2_0000,
        -0x8000_0000_0000 <= ln <= 0x8000_0000_0000,
        -0x8000_0000_0000 <= hn <= 0x8000_0000_0000,
    ensures
        1 <= res.2 <= 0x2_0000,
        1 <= res.4 <= 0x2_0000,
        -0x8000_0000_0000 <= res.1 <= 0x8000_0000_0000,
        -0x8000_0000_0000 <= res.3 <= 0x8000_0000_0000,
        forall|p: int, q: int|
            q > 0 ==> (#[trigger] frac_mem(res.1 as int, res.2 as int, res.3 as int, res.4 as int, p, q)
                <==> (frac_mem(ln as int, ld as int, hn as int, hd as int, p, q) && slab_ok(
                lo as int,
                hi as int,
                o as int,
                d as int,
                p,
                q,
            ))),
        res.0 == (res.1 * res.4 < res.3 * res.2),
{
    if d == 0 {
        if o < lo || hi < o {
            // The origin misses this slab: no parameter works. Report an
            // interval that is empty for every rational.
            assert forall|p: int, q: int| q > 0 implies !frac_mem(1, 1, 0, 1, p, q) by {
                assert(!(1 * q < p * 1 && p * 1 < 0 * q)) by (nonlinear_arith)
                    requires
                        q > 0,
                ;
            }
            (false, 1, 1, 0, 1)
        } else {
            proof {
                crate::vec3::lemma_prod_bound2(ln as int, hd as int, 0x8000_0000_0000, 0x2_0000);
                crate::vec3::lemma_prod_bound2(hn as int, ld as int, 0x8000_0000_0000, 0x2_0000);
            }
            (ln * hd < hn * ld, ln, ld, hn, hd)
        }
    } else {
        let t_one = T_ONE as i128;
        let (en, ed): (i128, i128) = if d > 0 {
            (((lo as i128) - (o as i128)) * t_one, d as i128)
        } else {
            (((o as i128) - (hi as i128)) * t_one, (-d) as i128)
        };
        let (un, ud): (i128, i128) = if d > 0 {
            (((hi as i128) - (o as i128)) * t_one, d as i128)
        } else {
            (((o as i128) - (lo as i128)) * t_one, (-d) as i128)
        };
        proof {
            crate::vec3::lemma_prod_bound2(en as int, ld as int, 0x8000_0000_0000, 0x2_0000);
            crate::vec3::lemma_prod_bound2(ln as int, ed as int, 0x8000_0000_0000, 0x2_0000);
            crate::vec3::lemma_prod_bound2(un as int, hd as int, 0x8000_0000_0000, 0x2_0000);
            crate::vec3::lemma_prod_bound2(hn as int, ud as int, 0x8000_0000_0000, 0x2_0000);
        }
        let e_higher = en * ld > ln * ed;
        let (nln, nld): (i128, i128) = if e_higher {
            (en, ed)
        } else {
            (ln, ld)
        };
        let u_lower = un * hd < hn * ud;
        let (nhn, nhd): (i128, i128) = if u_lower {
            (un, ud)
        } else {
            (hn, hd)
        };
        proof {
            crate::vec3::lemma_prod_bound2(nln as int, nhd as int, 0x8000_0000_0000, 0x2_0000);
            crate::vec3::lemma_prod_bound2(nhn as int, nld as int, 0x8000_0000_0000, 0x2_0000);
        }
        proof {
            assert forall|p: int, q: int| q > 0 implies (#[trigger] frac_mem(
                nln as int,
                nld as int,
                nhn as int,
                nhd as int,
                p,
                q,
            ) <==> (frac_mem(ln as int, ld as int, hn as int, hd as int, p, q) && slab_ok(
                lo as int,
                hi as int,
                o as int,
                d as int,
                p,
                q,
            ))) by {
                lemma_slab_solve(
                    lo as int,
                    hi as int,
                    o as int,
                    d as int,
                    p,
                    q,
                    en as int,
                    ed as int,
                    un as int,
                    ud as int,
                );
                // Lower bound: the maximum of the running bound and the entry.
                if e_higher {
                    if en * q < p * ed {
                        lemma_frac_le_lt(ln as int, ld as int, en as int, ed as int, p, q);
                    }
                } else {
                    if ln * q < p * ld {
                        lemma_frac_le_lt(en as int, ed as int, ln as int, ld as int, p, q);
                    }
                }
                // Upper bound: the minimum of the running bound and the exit.
                if u_lower {
                    if p * ud < un * q {
                        lemma_frac_lt_le(p, q, un as int, ud as int, hn as int, hd as int);
                    }
                } else {
                    if p * hd < hn * q {
                        lemma_frac_lt_le(p, q, hn as int, hd as int, un as int, ud as int);
                    }
                }
            }
        }
        (nln * nhd < nhn * nld, nln, nld, nhn, nhd)
    }
}

impl Aabb {
    pub fn new(x: Interval, y: Interval, z: Interval) -> (r: Aabb)
        ensures
            r == (Aabb { x, y, z }),
    {
        Aabb { x, y, z }
    }

    /// A box that contains nothing and is the identity of `surrounding`.
    pub fn empty() -> (r: Aabb)
        ensures
            r.x == (Interval { minimum: i64::MAX, maximum: i64::MIN }),
            r.y == (Interval { minimum: i64::MAX, maximum: i64::MIN }),
            r.z == (Interval { minimum: i64::MAX, maximum: i64::MIN }),
    {
        let e = Interval { minimum: i64::MAX, maximum: i64::MIN };
        Aabb { x: e, y: e, z: e }
    }

    /// The smallest box with corners `a` and `b`.
    pub fn from_extremum(a: Point3, b: Point3) -> (r: Aabb)
        ensures
            r.x.minimum == if a.x <= b.x {
                a.x
            } else {
                b.x
            },
            r.x.maximum == if a.x >= b.x {
                a.x
            } else {
                b.x
            },
            r.y.minimum == if a.y <= b.y {
                a.y
            } else {
                b.y
            },
            r.y.maximum == if a.y >= b.y {
                a.y
            } else {
                b.y
            },
            r.z.minimum == if a.z <= b.z {
                a.z
            } else {
                b.z
            },
            r.z.maximum == if a.z >= b.z {
                a.z
            } else {
                b.z
            },
    {
        Aabb {
            x: Interval {
                minimum: if a.x <= b.x {
                    a.x
                } else {
                    b.x
                },
                maximum: if a.x >= b.x {
                    a.x
                } else {
                    b.x
                },
            },
            y: Interval {
                minimum: if a.y <= b.y {
                    a.y
                } else {
                    b.y
                },
                maximum: if a.y >= b.y {
                    a.y
                } else {
                    b.y
                },
            },
            z: Interval {
                minimum: if a.z <= b.z {
                    a.z
                } else {
                    b.z
                },
                maximum: if a.z >= b.z {
                    a.z
                } else {
                    b.z
                },
            },
        }
    }

    /// The smallest box containing both arguments.
    pub fn surrounding(first: &Aabb, second: &Aabb) -> (r: Aabb)
        ensures
            r == surrounding_spec(*first, *second),
    {
        Aabb {
            x: Interval::enclosing(&first.x, &second.x),
            y: Interval::enclosing(&first.y, &second.y),
            z: Interval::enclosing(&first.z, &second.z),
        }
    }

    /// All corner coordinates are bounded, so the slab arithmetic is exact.
    pub open spec fn wf(self) -> bool {
        &&& -crate::BOX_LIMIT <= self.x.minimum <= crate::BOX_LIMIT
        &&& -crate::BOX_LIMIT <= self.x.maximum <= crate::BOX_LIMIT
        &&& -crate::BOX_LIMIT <= self.y.minimum <= crate::BOX_LIMIT
        &&& -crate::BOX_LIMIT <= self.y.maximum <= crate::BOX_LIMIT
        &&& -crate::BOX_LIMIT <= self.z.minimum <= crate::BOX_LIMIT
        &&& -crate::BOX_LIMIT <= self.z.maximum <= crate::BOX_LIMIT
    }

    /// The ray-slab test: intersect the query parameter range with the entry
    /// and exit parameters of each axis slab in turn, giving up as soon as
    /// the running range empties. Exact: returns whether some rational
    /// parameter strictly inside the query range hits the box.
    pub fn hit(&self, ray: Ray, ray_t: Interval) -> (r: bool)
        requires
            self.wf(),
            ray.wf(),
            -crate::T_LIMIT - 2 <= ray_t.minimum <= crate::T_LIMIT + 2,
            -crate::T_LIMIT - 2 <= ray_t.maximum <= crate::T_LIMIT + 2,
        ensures
            r == box_hit_spec(*self, ray, ray_t.minimum as int, ray_t.maximum as int),
    {
        let b = *self;
        let tmin = ray_t.minimum;
        let tmax = ray_t.maximum;
        let ghost gmin = tmin as int;
        let ghost gmax = tmax as int;
        proof {
            assert forall|p: int, q: int| q > 0 implies (#[trigger] frac_mem(
                tmin as int,
                1,
                tmax as int,
                1,
                p,
                q,
            ) <==> (gmin * q < p && p < gmax * q)) by {
                assert(p * 1 == p);
            }
        }
        let cx = axis_clip(
            b.x.minimum,
            b.x.maximum,
            ray.origin.x,
            ray.direction.x,
            tmin as i128,
            1,
            tmax as i128,
            1,
        );
        if !cx.0 {
            proof {
                lemma_frac_mem_nonempty(cx.1 as int, cx.2 as int, cx.3 as int, cx.4 as int);
                assert forall|p: int, q: int| !(#[trigger] box_hit_at(b, ray, gmin, gmax, p, q)) by {
                    if box_hit_at(b, ray, gmin, gmax, p, q) {
                        assert(frac_mem(cx.1 as int, cx.2 as int, cx.3 as int, cx.4 as int, p, q));
                    }
                }
            }
            return false;
        }
        let cy = axis_clip(b.y.minimum, b.y.maximum, ray.origin.y, ray.direction.y, cx.1, cx.2, cx.3, cx.4);
        if !cy.0 {
            proof {
                lemma_frac_mem_nonempty(cy.1 as int, cy.2 as int, cy.3 as int, cy.4 as int);
                assert forall|p: int, q: int| !(#[trigger] box_hit_at(b, ray, gmin, gmax, p, q)) by {
                    if box_hit_at(b, ray, gmin, gmax, p, q) {
                        assert(frac_mem(cx.1 as int, cx.2 as int, cx.3 as int, cx.4 as int, p, q));
                        assert(frac_mem(cy.1 as int, cy.2 as int, cy.3 as int, cy.4 as int, p, q));
                    }
                }
            }
            return false;
        }
        let cz = axis_clip(b.z.minimum, b.z.maximum, ray.origin.z, ray.direction.z, cy.1, cy.2, cy.3, cy.4);
        proof {
            lemma_frac_mem_nonempty(cz.1 as int, cz.2 as int, cz.3 as int, cz.4 as int);
            assert forall|p: int, q: int| q > 0 implies (#[trigger] frac_mem(
                cz.1 as int,
                cz.2 as int,
                cz.3 as int,
                cz.4 as int,
                p,
                q,
            ) <==> box_hit_at(b, ray, gmin, gmax, p, q)) by {
                assert(frac_mem(tmin as int, 1, tmax as int, 1, p, q) <==> (gmin * q < p && p
                    < gmax * q));
            }
            if cz.1 * cz.4 < cz.3 * cz.2 {
                let (p, q) = choose|p: int, q: int|
                    q > 0 && #[trigger] frac_mem(cz.1 as int, cz.2 as int, cz.3 as int, cz.4 as int, p, q);
                assert(box_hit_at(b, ray, gmin, gmax, p, q));
            } else {
                assert forall|p: int, q: int| !(#[trigger] box_hit_at(b, ray, gmin, gmax, p, q)) by {
                    if box_hit_at(b, ray, gmin, gmax, p, q) {
                        assert(frac_mem(cz.1 as int, cz.2 as int, cz.3 as int, cz.4 as int, p, q));
                    }
                }
            }
        }
        cz.0
    }

    /// The interval of the box along axis `n`.
    pub fn axis(&self, n: usize) -> (r: &Interval)
        requires
            n < 3,
        ensures
            n == 0 ==> r == self.x,
            n == 1 ==> r == self.y,
            n == 2 ==> r == self.z,
    {
        if n == 0 {
            &self.x
        } else if n == 1 {
            &self.y
        } else {
            &self.z
        }
    }
}

} // verus!
