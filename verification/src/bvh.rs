//! The bounding volume hierarchy: a binary tree of boxes that prunes
//! ray-scene queries, built by sorting on a randomly chosen axis and
//! splitting at the median.

use crate::aabb::{
    box_hit_at, box_hit_spec, box_within, lemma_box_within_trans, lemma_surrounding_contains,
    Aabb, Interval,
};
use crate::hit::{
    lemma_obj_hit_ranges, obj_bbox, obj_hits, obj_record, obj_t, obj_wf, Hit, Hittable,
    HittableList,
};
use crate::ray::Ray;
use crate::rng::rand_range;
use crate::vec3::len2;
use crate::T_LIMIT;
use vstd::multiset::Multiset;
use vstd::prelude::*;

verus! {

/// A child of a tree node: a primitive, or a subtree.
pub enum BvhChild {
    Leaf(Hittable),
    Node(Box<Bvh>),
}

/// A tree node: two children and the box containing both.
pub struct Bvh {
    pub left: BvhChild,
    pub right: BvhChild,
    pub bbox: Aabb,
}

/// The objects below a child.
pub open spec fn child_members(c: BvhChild) -> Seq<Hittable>
    decreases c,
{
    match c {
        BvhChild::Leaf(o) => seq![o],
        BvhChild::Node(b) => bvh_members(*b),
    }
}

/// The objects below a node.
pub open spec fn bvh_members(b: Bvh) -> Seq<Hittable>
    decreases b,
{
    child_members(b.left) + child_members(b.right)
}

/// The box of a child.
pub open spec fn child_box(c: BvhChild) -> Aabb {
    match c {
        BvhChild::Leaf(o) => obj_bbox(o),
        BvhChild::Node(b) => b.bbox,
    }
}

/// A valid child: a valid object, or a valid subtree.
pub open spec fn child_wf(c: BvhChild) -> bool
    decreases c,
{
    match c {
        BvhChild::Leaf(o) => obj_wf(o),
        BvhChild::Node(b) => bvh_wf(*b),
    }
}

/// A valid node: valid children whose boxes lie within the node's own
/// bounded box.
pub open spec fn bvh_wf(b: Bvh) -> bool
    decreases b,
{
    &&& child_wf(b.left)
    &&& child_wf(b.right)
    &&& b.bbox.wf()
    &&& box_within(child_box(b.left), b.bbox)
    &&& box_within(child_box(b.right), b.bbox)
}

/// The box-minimum of an object along an axis: the sort key of the build.
pub open spec fn box_key(o: Hittable, axis: int) -> int {
    if axis == 0 {
        obj_bbox(o).x.minimum as int
    } else if axis == 1 {
        obj_bbox(o).y.minimum as int
    } else {
        obj_bbox(o).z.minimum as int
    }
}

/// The pruning hypothesis: whenever the object is hit within a query range,
/// its own box admits a parameter just past that range — that is, the ray
/// does not merely graze the box boundary at the hit.
pub open spec fn box_clear(o: Hittable, ray: Ray, tmin: int, tmax: int) -> bool {
    forall|c: int|
        tmin <= c <= tmax && #[trigger] obj_hits(o, ray, tmin, c) ==> box_hit_spec(
            obj_bbox(o),
            ray,
            tmin,
            c + 1,
        )
}

/// A box hit transfers from an inner box to any box containing it.
pub proof fn lemma_box_hit_widen(inner: Aabb, outer: Aabb, ray: Ray, tmin: int, tmax: int)
    requires
        box_within(inner, outer),
        box_hit_spec(inner, ray, tmin, tmax),
    ensures
        box_hit_spec(outer, ray, tmin, tmax),
{
    let (p, q) = choose|p: int, q: int| #[trigger] box_hit_at(inner, ray, tmin, tmax, p, q);
    assert(box_hit_at(outer, ray, tmin, tmax, p, q)) by {
        lemma_slab_widen(
            inner.x.minimum as int,
            inner.x.maximum as int,
            outer.x.minimum as int,
            outer.x.maximum as int,
            ray.origin.x as int,
            ray.direction.x as int,
            p,
            q,
        );
        lemma_slab_widen(
            inner.y.minimum as int,
            inner.y.maximum as int,
            outer.y.minimum as int,
            outer.y.maximum as int,
            ray.origin.y as int,
            ray.direction.y as int,
            p,
            q,
        );
        lemma_slab_widen(
            inner.z.minimum as int,
            inner.z.maximum as int,
            outer.z.minimum as int,
            outer.z.maximum as int,
            ray.origin.z as int,
            ray.direction.z as int,
            p,
            q,
        );
    }
}

/// One axis of the box-widening argument.
proof fn lemma_slab_widen(
    lo_i: int,
    hi_i: int,
    lo_o: int,
    hi_o: int,
    o: int,
    d: int,
    p: int,
    q: int,
)
    requires
        q > 0,
        lo_o <= lo_i,
        hi_i <= hi_o,
        crate::aabb::slab_ok(lo_i, hi_i, o, d, p, q),
    ensures
        crate::aabb::slab_ok(lo_o, hi_o, o, d, p, q),
{
    if d != 0 {
        assert(lo_o * (crate::T_ONE * q) <= lo_i * (crate::T_ONE * q) && hi_i * (crate::T_ONE * q)
            <= hi_o * (crate::T_ONE * q)) by (nonlinear_arith)
            requires
                q > 0,
                lo_o <= lo_i,
                hi_i <= hi_o,
                crate::T_ONE == 1024,
        ;
    }
}

/// Every object below a valid node is valid, and its box lies within the
/// node's box.
pub proof fn lemma_members_in_box(b: Bvh)
    requires
        bvh_wf(b),
    ensures
        forall|i: int|
            0 <= i < bvh_members(b).len() ==> obj_wf(#[trigger] bvh_members(b)[i]) && box_within(
                obj_bbox(bvh_members(b)[i]),
                b.bbox,
            ),
    decreases b,
{
    lemma_child_members_in_box(b.left);
    lemma_child_members_in_box(b.right);
    let ml = child_members(b.left);
    let mr = child_members(b.right);
    assert forall|i: int| 0 <= i < bvh_members(b).len() implies obj_wf(
        #[trigger] bvh_members(b)[i],
    ) && box_within(obj_bbox(bvh_members(b)[i]), b.bbox) by {
        if i < ml.len() {
            assert(bvh_members(b)[i] == ml[i]);
            lemma_box_within_trans(obj_bbox(ml[i]), child_box(b.left), b.bbox);
        } else {
            assert(bvh_members(b)[i] == mr[i - ml.len()]);
            lemma_box_within_trans(obj_bbox(mr[i - ml.len()]), child_box(b.right), b.bbox);
        }
    }
}

/// Every object below a valid child is valid, with its box within the
/// child's box.
pub proof fn lemma_child_members_in_box(c: BvhChild)
    requires
        child_wf(c),
    ensures
        forall|i: int|
            0 <= i < child_members(c).len() ==> obj_wf(#[trigger] child_members(c)[i])
                && box_within(obj_bbox(child_members(c)[i]), child_box(c)),
    decreases c,
{
    match c {
        BvhChild::Leaf(o) => {
            assert forall|i: int| 0 <= i < child_members(c).len() implies obj_wf(
                #[trigger] child_members(c)[i],
            ) && box_within(obj_bbox(child_members(c)[i]), child_box(c)) by {
                assert(child_members(c) == seq![o]);
                assert(i == 0);
                assert(child_members(c)[i] == o);
            }
        },
        BvhChild::Node(b) => {
            lemma_members_in_box(*b);
            assert forall|i: int| 0 <= i < child_members(c).len() implies obj_wf(
                #[trigger] child_members(c)[i],
            ) && box_within(obj_bbox(child_members(c)[i]), child_box(c)) by {
                assert(child_members(c) == bvh_members(*b));
                assert(child_members(c)[i] == bvh_members(*b)[i]);
                assert(obj_wf(bvh_members(*b)[i]) && box_within(
                    obj_bbox(bvh_members(*b)[i]),
                    b.bbox,
                ));
            }
        },
    }
}

/// Concatenation holds an element exactly when one of its parts does.
pub proof fn lemma_concat_contains(s1: Seq<Hittable>, s2: Seq<Hittable>)
    ensures
        forall|m: Hittable| #[trigger] (s1 + s2).contains(m) <==> s1.contains(m) || s2.contains(m),
{
    assert forall|m: Hittable| #[trigger] (s1 + s2).contains(m) implies s1.contains(m)
        || s2.contains(m) by {
        let i = choose|i: int| 0 <= i < (s1 + s2).len() && (s1 + s2)[i] == m;
        if i < s1.len() {
            assert(s1[i] == m);
        } else {
            assert(s2[i - s1.len()] == m);
        }
    }
    assert forall|m: Hittable| s1.contains(m) || s2.contains(m) implies #[trigger] (s1
        + s2).contains(m) by {
        if s1.contains(m) {
            let i = choose|i: int| 0 <= i < s1.len() && s1[i] == m;
            assert((s1 + s2)[i] == m);
        } else {
            let i = choose|i: int| 0 <= i < s2.len() && s2[i] == m;
            assert((s1 + s2)[s1.len() + i] == m);
        }
    }
}

/// Two aggregates over the same collection of objects agree on whether
/// anything is hit at all.
pub proof fn lemma_hit_existence_agrees(
    s1: Seq<Hittable>,
    s2: Seq<Hittable>,
    ray: Ray,
    tmin: int,
    tmax: int,
)
    requires
        forall|m: Hittable| s1.contains(m) <==> s2.contains(m),
    ensures
        (exists|i: int| 0 <= i < s1.len() && obj_hits(#[trigger] s1[i], ray, tmin, tmax)) <==> (
        exists|i: int| 0 <= i < s2.len() && obj_hits(#[trigger] s2[i], ray, tmin, tmax)),
{
    if exists|i: int| 0 <= i < s1.len() && obj_hits(#[trigger] s1[i], ray, tmin, tmax) {
        let i = choose|i: int| 0 <= i < s1.len() && obj_hits(#[trigger] s1[i], ray, tmin, tmax);
        assert(s1.contains(s1[i]));
        let j = choose|j: int| 0 <= j < s2.len() && s2[j] == s1[i];
        assert(obj_hits(s2[j], ray, tmin, tmax));
    }
    if exists|i: int| 0 <= i < s2.len() && obj_hits(#[trigger] s2[i], ray, tmin, tmax) {
        let i = choose|i: int| 0 <= i < s2.len() && obj_hits(#[trigger] s2[i], ray, tmin, tmax);
        assert(s2.contains(s2[i]));
        let j = choose|j: int| 0 <= j < s1.len() && s1[j] == s2[i];
        assert(obj_hits(s1[j], ray, tmin, tmax));
    }
}

/// Any two aggregates over the same collection of objects that each report
/// a hit of minimal reported parameter report the same parameter: the tree
/// is observationally the same as the flat list.
pub proof fn lemma_closest_hit_agrees(
    s1: Seq<Hittable>,
    s2: Seq<Hittable>,
    ray: Ray,
    tmin: int,
    tmax: int,
    t1: int,
    t2: int,
)
    requires
        forall|m: Hittable| s1.contains(m) <==> s2.contains(m),
        exists|i: int|
            0 <= i < s1.len() && obj_hits(#[trigger] s1[i], ray, tmin, tmax) && t1 == obj_t(
                s1[i],
                ray,
                tmin,
            ),
        forall|i: int|
            0 <= i < s1.len() && obj_hits(#[trigger] s1[i], ray, tmin, tmax) ==> t1 <= obj_t(
                s1[i],
                ray,
                tmin,
            ),
        exists|i: int|
            0 <= i < s2.len() && obj_hits(#[trigger] s2[i], ray, tmin, tmax) && t2 == obj_t(
                s2[i],
                ray,
                tmin,
            ),
        forall|i: int|
            0 <= i < s2.len() && obj_hits(#[trigger] s2[i], ray, tmin, tmax) ==> t2 <= obj_t(
                s2[i],
                ray,
                tmin,
            ),
    ensures
        t1 == t2,
{
    let i1 = choose|i: int|
        0 <= i < s1.len() && obj_hits(#[trigger] s1[i], ray, tmin, tmax) && t1 == obj_t(
            s1[i],
            ray,
            tmin,
        );
    assert(s1.contains(s1[i1]));
    let j1 = choose|j: int| 0 <= j < s2.len() && s2[j] == s1[i1];
    assert(t2 <= obj_t(s2[j1], ray, tmin));
    let i2 = choose|i: int|
        0 <= i < s2.len() && obj_hits(#[trigger] s2[i], ray, tmin, tmax) && t2 == obj_t(
            s2[i],
            ray,
            tmin,
        );
    assert(s2.contains(s2[i2]));
    let j2 = choose|j: int| 0 <= j < s1.len() && s1[j] == s2[i2];
    assert(t1 <= obj_t(s1[j2], ray, tmin));
}

/// A valid object's box has bounded corners.
pub proof fn lemma_obj_bbox_wf(o: Hittable)
    requires
        obj_wf(o),
    ensures
        obj_bbox(o).wf(),
{
}

/// The sort key of an object along an axis.
fn key_of(o: &Hittable, axis: usize) -> (k: i64)
    requires
        axis < 3,
    ensures
        k == box_key(*o, axis as int),
{
    let b = o.bounding_box();
    if axis == 0 {
        b.x.minimum
    } else if axis == 1 {
        b.y.minimum
    } else {
        b.z.minimum
    }
}

/// Keys never decrease along the sequence.
pub open spec fn sorted_by_key(s: Seq<Hittable>, axis: int) -> bool {
    forall|i: int, j: int| 0 <= i <= j < s.len() ==> box_key(#[trigger] s[i], axis) <= box_key(#[trigger] s[j], axis)
}

/// Sort objects by their box minimum along the axis: a selection sort that
/// keeps exactly the same collection of objects.
fn sort_by_axis(v: Vec<Hittable>, axis: usize) -> (r: Vec<Hittable>)
    requires
        axis < 3,
    ensures
        r@.to_multiset() == v@.to_multiset(),
        r@.len() == v@.len(),
        forall|m: Hittable| r@.contains(m) <==> v@.contains(m),
        sorted_by_key(r@, axis as int),
{
    broadcast use vstd::seq_lib::group_to_multiset_ensures;

    let mut src = v;
    let mut out: Vec<Hittable> = Vec::new();
    proof {
        assert(out@.to_multiset().add(src@.to_multiset()) =~= v@.to_multiset());
    }
    while src.len() > 0
        invariant
            out@.to_multiset().add(src@.to_multiset()) == v@.to_multiset(),
            out@.len() + src@.len() == v@.len(),
            sorted_by_key(out@, axis as int),
            axis < 3,
            forall|i: int, j: int|
                0 <= i < out@.len() && 0 <= j < src@.len() ==> box_key(#[trigger] out@[i], axis as int)
                    <= box_key(#[trigger] src@[j], axis as int),
        decreases src@.len(),
    {
        broadcast use vstd::seq_lib::group_to_multiset_ensures;

        let mut best: usize = 0;
        let mut bi: usize = 1;
        while bi < src.len()
            invariant
                0 < src@.len(),
                best < bi <= src@.len(),
                axis < 3,
                forall|j: int|
                    0 <= j < bi ==> box_key(src@[best as int], axis as int) <= box_key(
                        #[trigger] src@[j],
                        axis as int,
                    ),
            decreases src@.len() - bi,
        {
            if key_of(&src[bi], axis) < key_of(&src[best], axis) {
                best = bi;
            }
            bi = bi + 1;
        }
        let ghost old_src = src@;
        let ghost old_out = out@;
        let x = src.remove(best);
        out.push(x);
        proof {
            assert(src@ == old_src.remove(best as int));
            assert(out@.to_multiset() =~= old_out.to_multiset().insert(x));
            assert(src@.to_multiset() =~= old_src.to_multiset().remove(x));
            assert(out@.to_multiset().add(src@.to_multiset()) =~= old_out.to_multiset().add(
                old_src.to_multiset(),
            ));
            old_src.remove_ensures(best as int);
            assert forall|i: int, j: int|
                0 <= i < out@.len() && 0 <= j < src@.len() implies box_key(
                #[trigger] out@[i],
                axis as int,
            ) <= box_key(#[trigger] src@[j], axis as int) by {
                if j < best {
                    assert(src@[j] == old_src[j]);
                } else {
                    assert(src@[j] == old_src[j + 1]);
                }
                if i < old_out.len() {
                    assert(out@[i] == old_out[i]);
                } else {
                    assert(out@[i] == x);
                }
            }
            assert forall|i: int, j: int| 0 <= i <= j < out@.len() implies box_key(
                #[trigger] out@[i],
                axis as int,
            ) <= box_key(#[trigger] out@[j], axis as int) by {
                if j < old_out.len() {
                    assert(out@[i] == old_out[i] && out@[j] == old_out[j]);
                } else {
                    assert(out@[j] == x);
                    if i < old_out.len() {
                        assert(box_key(old_out[i], axis as int) <= box_key(
                            old_src[best as int],
                            axis as int,
                        ));
                    }
                }
            }
        }
    }
    proof {
        assert(src@.to_multiset() =~= Multiset::<Hittable>::empty());
        assert(out@.to_multiset() =~= v@.to_multiset());
        assert forall|m: Hittable| out@.contains(m) <==> v@.contains(m) by {
            assert(out@.contains(m) <==> out@.to_multiset().count(m) > 0);
            assert(v@.contains(m) <==> v@.to_multiset().count(m) > 0);
        }
    }
    out
}

impl Bvh {
    /// Build a tree from the objects of an aggregate; fails on an empty one.
    pub fn new(list: HittableList) -> (r: Option<Bvh>)
        requires
            crate::hit::list_wf(list),
        ensures
            r.is_some() <==> list.objects@.len() > 0,
            r matches Some(b) ==> bvh_wf(b) && (forall|m: Hittable|
                bvh_members(b).contains(m) <==> list.objects@.contains(m)),
    {
        Bvh::from_slice(list.objects)
    }

    /// Build a tree from a sequence of objects; fails on an empty one, which
    /// would have no well-defined tree.
    pub fn from_slice(objects: Vec<Hittable>) -> (r: Option<Bvh>)
        requires
            forall|i: int| 0 <= i < objects@.len() ==> obj_wf(#[trigger] objects@[i]),
        ensures
            r.is_some() <==> objects@.len() > 0,
            r matches Some(b) ==> bvh_wf(b) && (forall|m: Hittable|
                bvh_members(b).contains(m) <==> objects@.contains(m)),
    {
        if objects.len() == 0 {
            None
        } else {
            Some(Bvh::build(objects))
        }
    }

    /// The recursive build: order the objects along a random axis, split at
    /// the median, and wrap the halves.
    fn build(objects: Vec<Hittable>) -> (r: Bvh)
        requires
            objects@.len() >= 1,
            forall|i: int| 0 <= i < objects@.len() ==> obj_wf(#[trigger] objects@[i]),
        ensures
            bvh_wf(r),
            forall|m: Hittable| bvh_members(r).contains(m) <==> objects@.contains(m),
        decreases objects@.len(),
    {
        let axis = rand_range(0, 3) as usize;
        let ghost orig = objects@;
        if objects.len() == 1 {
            let mut objects = objects;
            let o = objects.remove(0);
            let o2 = o.clone();
            let ob = o.bounding_box();
            let bbox = Aabb::surrounding(&ob, &ob);
            proof {
                lemma_obj_bbox_wf(o);
                lemma_surrounding_contains(ob, ob, 0, 0, 0);
            }
            let r = Bvh { left: BvhChild::Leaf(o), right: BvhChild::Leaf(o2), bbox };
            proof {
                lemma_concat_contains(child_members(r.left), child_members(r.right));
                assert forall|m: Hittable| bvh_members(r).contains(m) <==> orig.contains(m) by {
                    assert(child_members(r.left) == seq![orig[0]]);
                    assert(child_members(r.right) == seq![orig[0]]);
                    assert(seq![orig[0]].contains(m) <==> m == orig[0]) by {
                        if seq![orig[0]].contains(m) {
                            let i = choose|i: int| 0 <= i < 1 && seq![orig[0]][i] == m;
                            assert(seq![orig[0]][0] == orig[0]);
                        } else {
                            assert(seq![orig[0]][0] == orig[0]);
                        }
                    }
                    assert(orig.contains(m) <==> m == orig[0]) by {
                        if orig.contains(m) {
                            let i = choose|i: int| 0 <= i < orig.len() && orig[i] == m;
                            assert(i == 0);
                        } else {
                            assert(orig[0] == orig[0]);
                        }
                    }
                }
            }
            r
        } else if objects.len() == 2 {
            let mut objects = objects;
            let b2 = objects.pop().unwrap();
            let b1 = objects.pop().unwrap();
            let (first, second) = if key_of(&b1, axis) <= key_of(&b2, axis) {
                (b1, b2)
            } else {
                (b2, b1)
            };
            let fb = first.bounding_box();
            let sb = second.bounding_box();
            let bbox = Aabb::surrounding(&fb, &sb);
            proof {
                lemma_obj_bbox_wf(first);
                lemma_obj_bbox_wf(second);
                lemma_surrounding_contains(fb, sb, 0, 0, 0);
            }
            let r = Bvh { left: BvhChild::Leaf(first), right: BvhChild::Leaf(second), bbox };
            proof {
                lemma_concat_contains(child_members(r.left), child_members(r.right));
                assert forall|m: Hittable| bvh_members(r).contains(m) <==> orig.contains(m) by {
                    lemma_two_elem_contains(orig, m);
                    assert(seq![first][0] == first);
                    assert(seq![second][0] == second);
                    if m == first || m == second {
                        if m == first {
                            assert(seq![first].contains(m));
                        } else {
                            assert(seq![second].contains(m));
                        }
                    }
                    if seq![first].contains(m) {
                        let i = choose|i: int| 0 <= i < 1 && seq![first][i] == m;
                    }
                    if seq![second].contains(m) {
                        let i = choose|i: int| 0 <= i < 1 && seq![second][i] == m;
                    }
                }
            }
            r
        } else {
            let sorted = sort_by_axis(objects, axis);
            let mid = sorted.len() / 2;
            let mut sorted = sorted;
            let ghost whole = sorted@;
            let right_vec = sorted.split_off(mid);
            let left_vec = sorted;
            proof {
                assert(whole =~= left_vec@ + right_vec@);
                lemma_concat_contains(left_vec@, right_vec@);
                assert forall|i: int| 0 <= i < left_vec@.len() implies obj_wf(
                    #[trigger] left_vec@[i],
                ) by {
                    assert(left_vec@[i] == whole[i]);
                    assert(whole.contains(whole[i]));
                    assert(orig.contains(whole[i]));
                    let j = choose|j: int| 0 <= j < orig.len() && orig[j] == whole[i];
                }
                assert forall|i: int| 0 <= i < right_vec@.len() implies obj_wf(
                    #[trigger] right_vec@[i],
                ) by {
                    assert(right_vec@[i] == whole[mid + i]);
                    assert(whole.contains(whole[mid + i]));
                    assert(orig.contains(whole[mid + i]));
                    let j = choose|j: int| 0 <= j < orig.len() && orig[j] == whole[mid + i];
                }
            }
            let left = Bvh::build(left_vec);
            let right = Bvh::build(right_vec);
            let bbox = Aabb::surrounding(&left.bbox, &right.bbox);
            proof {
                lemma_surrounding_contains(left.bbox, right.bbox, 0, 0, 0);
            }
            let r = Bvh {
                left: BvhChild::Node(Box::new(left)),
                right: BvhChild::Node(Box::new(right)),
                bbox,
            };
            proof {
                lemma_concat_contains(child_members(r.left), child_members(r.right));
                assert forall|m: Hittable| bvh_members(r).contains(m) <==> orig.contains(m) by {
                    assert((left_vec@ + right_vec@).contains(m) <==> whole.contains(m));
                }
            }
            r
        }
    }
}

/// A two-element sequence holds exactly its two elements.
proof fn lemma_two_elem_contains(s: Seq<Hittable>, m: Hittable)
    requires
        s.len() == 2,
    ensures
        s.contains(m) <==> (m == s[0] || m == s[1]),
{
    if s.contains(m) {
        let i = choose|i: int| 0 <= i < 2 && s[i] == m;
        assert(i == 0 || i == 1);
    }
    if m == s[0] || m == s[1] {
        assert(s.contains(m)) by {
            if m == s[0] {
                assert(s[0] == m);
            } else {
                assert(s[1] == m);
            }
        }
    }
}


impl BvhChild {
    /// The closest intersection below this child; same contract as the
    /// node's traversal.
    fn hit<'a>(&'a self, ray: Ray, ray_t: Interval) -> (r: Option<Hit<'a>>)
        requires
            child_wf(*self),
            ray.wf(),
            len2(ray.direction) > 0,
            -T_LIMIT <= ray_t.minimum <= ray_t.maximum,
            ray_t.maximum <= T_LIMIT,
        ensures
            r matches Some(h) ==> {
                &&& exists|i: int|
                    0 <= i < child_members(*self).len() && obj_hits(
                        #[trigger] child_members(*self)[i],
                        ray,
                        ray_t.minimum as int,
                        ray_t.maximum as int,
                    ) && obj_record(child_members(*self)[i], ray, ray_t.minimum as int, h) && h.t
                        == obj_t(child_members(*self)[i], ray, ray_t.minimum as int)
                &&& ray_t.minimum <= h.t <= ray_t.maximum
            },
            (forall|i: int|
                0 <= i < child_members(*self).len() ==> box_clear(
                    #[trigger] child_members(*self)[i],
                    ray,
                    ray_t.minimum as int,
                    ray_t.maximum as int,
                )) ==> {
                &&& r.is_some() == exists|i: int|
                    0 <= i < child_members(*self).len() && obj_hits(
                        #[trigger] child_members(*self)[i],
                        ray,
                        ray_t.minimum as int,
                        ray_t.maximum as int,
                    )
                &&& r matches Some(h) ==> forall|i: int|
                    0 <= i < child_members(*self).len() && obj_hits(
                        #[trigger] child_members(*self)[i],
                        ray,
                        ray_t.minimum as int,
                        ray_t.maximum as int,
                    ) ==> h.t <= obj_t(child_members(*self)[i], ray, ray_t.minimum as int)
            },
        decreases *self,
    {
        match self {
            BvhChild::Leaf(o) => {
                let r = o.hit(ray, ray_t);
                proof {
                    let gmin = ray_t.minimum as int;
                    let gmax = ray_t.maximum as int;
                    let ms = child_members(*self);
                    assert(ms.len() == 1);
                    assert(ms[0] == *o);
                    if r is Some {
                        let h = r.unwrap();
                        assert(obj_hits(ms[0], ray, gmin, gmax) && obj_record(ms[0], ray, gmin, h)
                            && h.t == obj_t(ms[0], ray, gmin));
                        assert forall|i: int|
                            0 <= i < ms.len() && obj_hits(
                                #[trigger] ms[i],
                                ray,
                                gmin,
                                gmax,
                            ) implies h.t <= obj_t(ms[i], ray, gmin) by {
                            assert(i == 0);
                        }
                    }
                    if exists|i: int| 0 <= i < ms.len() && obj_hits(#[trigger] ms[i], ray, gmin, gmax) {
                        let i = choose|i: int|
                            0 <= i < ms.len() && obj_hits(#[trigger] ms[i], ray, gmin, gmax);
                        assert(i == 0);
                        assert(obj_hits(*o, ray, gmin, gmax));
                    }
                }
                r
            },
            BvhChild::Node(b) => {
                let r = b.hit(ray, ray_t);
                proof {
                    let gmin = ray_t.minimum as int;
                    let gmax = ray_t.maximum as int;
                    let ms = child_members(*self);
                    let mb = bvh_members(**b);
                    assert(ms == mb);
                    if r is Some {
                        let h = r.unwrap();
                        let i = choose|i: int|
                            0 <= i < mb.len() && obj_hits(#[trigger] mb[i], ray, gmin, gmax)
                                && obj_record(mb[i], ray, gmin, h) && h.t == obj_t(mb[i], ray, gmin);
                        assert(ms[i] == mb[i]);
                        assert(0 <= i < ms.len() && obj_hits(ms[i], ray, gmin, gmax) && obj_record(
                            ms[i],
                            ray,
                            gmin,
                            h,
                        ) && h.t == obj_t(ms[i], ray, gmin));
                    }
                    if forall|i: int| 0 <= i < ms.len() ==> box_clear(#[trigger] ms[i], ray, gmin, gmax) {
                        assert forall|i: int| 0 <= i < mb.len() implies box_clear(
                            #[trigger] mb[i],
                            ray,
                            gmin,
                            gmax,
                        ) by {
                            assert(mb[i] == ms[i]);
                            assert(box_clear(ms[i], ray, gmin, gmax));
                        }
                        if exists|i: int| 0 <= i < ms.len() && obj_hits(#[trigger] ms[i], ray, gmin, gmax) {
                            let i = choose|i: int|
                                0 <= i < ms.len() && obj_hits(#[trigger] ms[i], ray, gmin, gmax);
                            assert(mb[i] == ms[i]);
                            assert(obj_hits(mb[i], ray, gmin, gmax));
                        }
                        if r is Some {
                            let h = r.unwrap();
                            assert forall|i: int|
                                0 <= i < ms.len() && obj_hits(
                                    #[trigger] ms[i],
                                    ray,
                                    gmin,
                                    gmax,
                                ) implies h.t <= obj_t(ms[i], ray, gmin) by {
                                assert(mb[i] == ms[i]);
                                assert(obj_hits(mb[i], ray, gmin, gmax));
                            }
                        }
                    }
                }
                r
            },
        }
    }
}

impl Bvh {
    /// The cached box of the whole subtree.
    pub fn bounding_box(&self) -> (r: Aabb)
        ensures
            r == self.bbox,
    {
        self.bbox
    }

    /// Traverse the tree: reject on the node box, otherwise query the left
    /// child and then the right child with the range cut down to the best
    /// parameter found, preferring the right result, which the cut-down
    /// range guarantees to be no farther.
    ///
    /// Unconditionally, anything returned is a true closest-candidate hit of
    /// some object below the node. Under the `box_clear` hypothesis — no ray
    /// grazing any member box exactly at a hit — the traversal agrees
    /// exactly with the flat list: it finds a hit whenever one exists, and
    /// reports the minimal parameter.
    pub fn hit<'a>(&'a self, ray: Ray, ray_t: Interval) -> (r: Option<Hit<'a>>)
        requires
            bvh_wf(*self),
            ray.wf(),
            len2(ray.direction) > 0,
            -T_LIMIT <= ray_t.minimum <= ray_t.maximum,
            ray_t.maximum <= T_LIMIT,
        ensures
            r matches Some(h) ==> {
                &&& exists|i: int|
                    0 <= i < bvh_members(*self).len() && obj_hits(
                        #[trigger] bvh_members(*self)[i],
                        ray,
                        ray_t.minimum as int,
                        ray_t.maximum as int,
                    ) && obj_record(bvh_members(*self)[i], ray, ray_t.minimum as int, h) && h.t
                        == obj_t(bvh_members(*self)[i], ray, ray_t.minimum as int)
                &&& ray_t.minimum <= h.t <= ray_t.maximum
            },
            (forall|i: int|
                0 <= i < bvh_members(*self).len() ==> box_clear(
                    #[trigger] bvh_members(*self)[i],
                    ray,
                    ray_t.minimum as int,
                    ray_t.maximum as int,
                )) ==> {
                &&& r.is_some() == exists|i: int|
                    0 <= i < bvh_members(*self).len() && obj_hits(
                        #[trigger] bvh_members(*self)[i],
                        ray,
                        ray_t.minimum as int,
                        ray_t.maximum as int,
                    )
                &&& r matches Some(h) ==> forall|i: int|
                    0 <= i < bvh_members(*self).len() && obj_hits(
                        #[trigger] bvh_members(*self)[i],
                        ray,
                        ray_t.minimum as int,
                        ray_t.maximum as int,
                    ) ==> h.t <= obj_t(bvh_members(*self)[i], ray, ray_t.minimum as int)
            },
        decreases *self,
    {
        let tmin = ray_t.minimum;
        let tmax = ray_t.maximum;
        let ghost gmin = tmin as int;
        let ghost gmax = tmax as int;
        let ghost mem = bvh_members(*self);
        let ghost ml = child_members(self.left);
        let ghost mr = child_members(self.right);
        proof {
            assert(mem == ml + mr);
            lemma_members_in_box(*self);
        }
        if !self.bbox.hit(ray, Interval::new(tmin, tmax + 1)) {
            proof {
                if forall|i: int|
                    0 <= i < mem.len() ==> box_clear(#[trigger] mem[i], ray, gmin, gmax) {
                    assert forall|i: int| 0 <= i < mem.len() implies !obj_hits(
                        #[trigger] mem[i],
                        ray,
                        gmin,
                        gmax,
                    ) by {
                        if obj_hits(mem[i], ray, gmin, gmax) {
                            assert(box_clear(mem[i], ray, gmin, gmax));
                            assert(box_hit_spec(obj_bbox(mem[i]), ray, gmin, gmax + 1));
                            lemma_box_hit_widen(obj_bbox(mem[i]), self.bbox, ray, gmin, gmax + 1);
                        }
                    }
                }
            }
            return None;
        }
        let hit_left = self.left.hit(ray, ray_t);
        let closest: i64 = if let Some(h) = &hit_left {
            h.t
        } else {
            tmax
        };
        let hit_right = self.right.hit(ray, Interval::new(tmin, closest));
        let ghost gc = closest as int;
        proof {
            // Index bookkeeping between the node's members and its halves.
            assert forall|j: int| 0 <= j < ml.len() implies mem[j] == ml[j] by {}
            assert forall|j: int| 0 <= j < mr.len() implies mem[ml.len() + j] == mr[j] by {}
            // A right-hand hit within the cut range is a hit within the full
            // range with an unchanged record.
            if hit_right is Some {
                let h = hit_right.unwrap();
                let j = choose|j: int|
                    0 <= j < mr.len() && obj_hits(#[trigger] mr[j], ray, gmin, gc) && obj_record(
                        mr[j],
                        ray,
                        gmin,
                        h,
                    ) && h.t == obj_t(mr[j], ray, gmin);
                lemma_obj_hit_ranges(mr[j], ray, gmin, gc, gmax);
                assert(obj_hits(mem[ml.len() + j], ray, gmin, gmax) && obj_record(
                    mem[ml.len() + j],
                    ray,
                    gmin,
                    h,
                ) && h.t == obj_t(mem[ml.len() + j], ray, gmin));
            }
            // Completeness and minimality under the clear-box hypothesis.
            if forall|i: int| 0 <= i < mem.len() ==> box_clear(#[trigger] mem[i], ray, gmin, gmax) {
                assert forall|j: int| 0 <= j < ml.len() implies box_clear(
                    #[trigger] ml[j],
                    ray,
                    gmin,
                    gmax,
                ) by {
                    assert(ml[j] == mem[j]);
                }
                assert forall|j: int| 0 <= j < mr.len() implies box_clear(
                    #[trigger] mr[j],
                    ray,
                    gmin,
                    gc,
                ) by {
                    assert(mr[j] == mem[ml.len() + j]);
                    assert(box_clear(mem[ml.len() + j], ray, gmin, gmax));
                }
                // Existence: a member hit forces a result.
                if exists|i: int|
                    0 <= i < mem.len() && obj_hits(#[trigger] mem[i], ray, gmin, gmax) {
                    let i = choose|i: int|
                        0 <= i < mem.len() && obj_hits(#[trigger] mem[i], ray, gmin, gmax);
                    if i < ml.len() {
                        assert(obj_hits(ml[i], ray, gmin, gmax));
                        assert(hit_left is Some);
                    } else {
                        assert(obj_hits(mr[i - ml.len()], ray, gmin, gmax));
                        if hit_left is None {
                            assert(gc == gmax);
                            assert(obj_hits(mr[i - ml.len()], ray, gmin, gc));
                            assert(hit_right is Some);
                        }
                    }
                }
                // Minimality of whichever result is returned.
                if hit_right is Some {
                    let h = hit_right.unwrap();
                    assert forall|i: int|
                        0 <= i < mem.len() && obj_hits(
                            #[trigger] mem[i],
                            ray,
                            gmin,
                            gmax,
                        ) implies h.t <= obj_t(mem[i], ray, gmin) by {
                        if i < ml.len() {
                            assert(obj_hits(ml[i], ray, gmin, gmax));
                            let hl = hit_left.unwrap();
                            assert(hl.t <= obj_t(ml[i], ray, gmin));
                            assert(h.t <= gc);
                        } else {
                            let j = i - ml.len();
                            assert(obj_hits(mr[j], ray, gmin, gmax));
                            if obj_hits(mr[j], ray, gmin, gc) {
                                assert(h.t <= obj_t(mr[j], ray, gmin));
                            } else {
                                lemma_obj_hit_ranges(mr[j], ray, gmin, gc, gmax);
                                assert(obj_t(mr[j], ray, gmin) >= gc);
                                assert(h.t <= gc);
                            }
                        }
                    }
                } else if hit_left is Some {
                    let h = hit_left.unwrap();
                    assert forall|i: int|
                        0 <= i < mem.len() && obj_hits(
                            #[trigger] mem[i],
                            ray,
                            gmin,
                            gmax,
                        ) implies h.t <= obj_t(mem[i], ray, gmin) by {
                        if i < ml.len() {
                            assert(obj_hits(ml[i], ray, gmin, gmax));
                        } else {
                            let j = i - ml.len();
                            assert(obj_hits(mr[j], ray, gmin, gmax));
                            assert(!obj_hits(mr[j], ray, gmin, gc));
                            lemma_obj_hit_ranges(mr[j], ray, gmin, gc, gmax);
                        }
                    }
                }
            }
        }
        match hit_right {
            Some(h) => Some(h),
            None => hit_left,
        }
    }
}

} // verus!
