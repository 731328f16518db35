//! Hierarchies of boxes whose bounds are nested, and what a plane finds in
//! them.

use vstd::prelude::*;

use crate::aabb::{has_volume, hull, AABBRelation, AABB3};
use crate::bvh::{Layout, Shape};
use crate::plane::{corner, every_corner, lemma_extreme_corners, some_corner, Halfspace, Plane3};
use crate::vector::Vec3;

verus! {

/// The box `outer` holds the whole of the box `inner`.
pub open spec fn encloses(outer: Vec3<(i64, i64)>, inner: Vec3<(i64, i64)>) -> bool {
    &&& (outer.0).0 <= (inner.0).0 && (inner.0).1 <= (outer.0).1
    &&& (outer.1).0 <= (inner.1).0 && (inner.1).1 <= (outer.1).1
    &&& (outer.2).0 <= (inner.2).0 && (inner.2).1 <= (outer.2).1
}

/// The hull of two boxes encloses both: a branch whose bound is the hull of
/// the bounds of its children is nested.
pub proof fn lemma_hull_encloses(a: Vec3<(i64, i64)>, b: Vec3<(i64, i64)>)
    ensures
        encloses(hull(a, b), a),
        encloses(hull(a, b), b),
{
}

/// The bound of the node at the root of the subtree `t`.
pub open spec fn bound_at<V>(lay: Layout<AABB3<i64>, V>, t: Shape) -> Vec3<(i64, i64)> {
    match t {
        Shape::Leaf { leaf } => lay.leaves[leaf].bound@,
        Shape::Branch { branch, .. } => lay.branches[branch].bound@,
    }
}

/// In the subtree `t` the bound of every branch encloses the bounds of its
/// two children.
pub open spec fn nested<V>(lay: Layout<AABB3<i64>, V>, t: Shape) -> bool
    decreases t,
{
    match t {
        Shape::Leaf { .. } => true,
        Shape::Branch { left, right, .. } => {
            &&& encloses(bound_at(lay, t), bound_at(lay, *left))
            &&& encloses(bound_at(lay, t), bound_at(lay, *right))
            &&& nested(lay, *left)
            &&& nested(lay, *right)
        },
    }
}

/// In a nested subtree the bound of the root encloses the bound of every
/// leaf.
pub proof fn lemma_root_encloses_leaves<V>(lay: Layout<AABB3<i64>, V>, t: Shape, i: int)
    requires
        nested(lay, t),
        t.in_order(),
        t.first() <= i <= t.last(),
    ensures
        encloses(bound_at(lay, t), lay.leaves[i].bound@),
    decreases t,
{
    match t {
        Shape::Leaf { .. } => {},
        Shape::Branch { left, right, .. } => {
            if i <= left.last() {
                lemma_root_encloses_leaves(lay, *left, i);
            } else {
                lemma_root_encloses_leaves(lay, *right, i);
            }
        },
    }
}

/// Where no corner of a box lies above a plane, no corner of a box inside
/// it does, and where no corner of a box lies below a plane, no corner of a
/// box inside it does.
pub proof fn lemma_halfspace_monotone(
    h: Halfspace,
    outer: Vec3<(i64, i64)>,
    inner: Vec3<(i64, i64)>,
)
    requires
        encloses(outer, inner),
        (inner.0).0 <= (inner.0).1,
        (inner.1).0 <= (inner.1).1,
        (inner.2).0 <= (inner.2).1,
    ensures
        every_corner(outer, |p: Vec3<i64>| h.height(p) <= 0) ==> every_corner(
            inner,
            |p: Vec3<i64>| h.height(p) <= 0,
        ),
        every_corner(outer, |p: Vec3<i64>| h.height(p) >= 0) ==> every_corner(
            inner,
            |p: Vec3<i64>| h.height(p) >= 0,
        ),
{
    assert forall|x: bool, y: bool, z: bool| #![trigger corner(inner, x, y, z)]
        {
            &&& every_corner(outer, |p: Vec3<i64>| h.height(p) <= 0) ==> h.height(
                corner(inner, x, y, z),
            ) <= 0
            &&& every_corner(outer, |p: Vec3<i64>| h.height(p) >= 0) ==> h.height(
                corner(inner, x, y, z),
            ) >= 0
        } by {
        let c = corner(inner, x, y, z);
        lemma_extreme_corners(outer, h.normal, c);
    }
}

/// A box inside a box keeps to the side of the plane on which the outer box
/// lies: inside a box that the half-space contains nothing is disjoint from
/// it, inside a box that is disjoint from it nothing is contained in it,
/// and a box with corners on both sides of the plane lies in no box that is
/// all on one side.
pub proof fn lemma_enclosed_keeps_side(
    h: Halfspace,
    outer: Vec3<(i64, i64)>,
    inner: Vec3<(i64, i64)>,
)
    requires
        encloses(outer, inner),
        (inner.0).0 <= (inner.0).1,
        (inner.1).0 <= (inner.1).1,
        (inner.2).0 <= (inner.2).1,
    ensures
        h.classify(outer) == AABBRelation::Include ==> h.classify(inner)
            != AABBRelation::Interleave,
        h.classify(outer) == AABBRelation::Interleave ==> h.classify(inner)
            != AABBRelation::Include,
        some_corner(inner, |p: Vec3<i64>| h.height(p) < 0) && some_corner(
            inner,
            |p: Vec3<i64>| h.height(p) > 0,
        ) ==> h.classify(outer) == AABBRelation::Intersect,
{
    lemma_halfspace_monotone(h, outer, inner);
}

/// The corners of a box with volume do not all lie on a plane whose normal
/// is not zero.
pub proof fn lemma_volume_leaves_the_plane(h: Halfspace, b: Vec3<(i64, i64)>)
    requires
        (b.0).0 < (b.0).1,
        (b.1).0 < (b.1).1,
        (b.2).0 < (b.2).1,
        h.normal != Vec3(0i64, 0i64, 0i64),
    ensures
        !every_corner(b, |p: Vec3<i64>| h.height(p) == 0),
{
    let n = h.normal;
    lemma_apart(n.0 as int, (b.0).0 as int, (b.0).1 as int);
    lemma_apart(n.1 as int, (b.1).0 as int, (b.1).1 as int);
    lemma_apart(n.2 as int, (b.2).0 as int, (b.2).1 as int);
    if n.0 != 0 {
        assert(h.height(corner(b, false, false, false)) != h.height(
            corner(b, true, false, false),
        ));
    } else if n.1 != 0 {
        assert(h.height(corner(b, false, false, false)) != h.height(
            corner(b, false, true, false),
        ));
    } else {
        assert(h.height(corner(b, false, false, false)) != h.height(
            corner(b, false, false, true),
        ));
    }
}

/// A factor that is not zero keeps two numbers apart.
proof fn lemma_apart(n: int, a: int, b: int)
    by (nonlinear_arith)
    requires
        a < b,
    ensures
        n != 0 ==> a * n != b * n,
{
}

/// Along a nested subtree whose leaves all have volume, the answers of a
/// plane whose normal is not zero agree.
pub proof fn lemma_plane_is_consistent<V>(lay: Layout<AABB3<i64>, V>, t: Shape, plane: Plane3)
    requires
        t.in_order(),
        nested(lay, t),
        forall|i: int| 0 <= i < lay.leaves.len() ==> has_volume(#[trigger] lay.leaves[i].bound@),
        0 <= t.first(),
        t.last() < lay.leaves.len(),
        plane@.normal != Vec3(0i64, 0i64, 0i64),
    ensures
        lay.consistent(t, plane),
    decreases t,
{
    match t {
        Shape::Leaf { .. } => {},
        Shape::Branch { branch, left, right } => {
            left.lemma_in_order_span();
            right.lemma_in_order_span();
            lemma_plane_is_consistent(lay, *left, plane);
            lemma_plane_is_consistent(lay, *right, plane);
            let outer = lay.branches[branch].bound@;
            assert forall|i: int| t.first() <= i <= t.last() implies {
                &&& plane@.classify(outer) == AABBRelation::Interleave ==> !(
                #[trigger] lay.keeps(plane)(i))
                &&& plane@.classify(outer) == AABBRelation::Include ==> lay.keeps(plane)(i)
            } by {
                let inner = lay.leaves[i].bound@;
                lemma_root_encloses_leaves(lay, t, i);
                lemma_halfspace_monotone(plane@, outer, inner);
                lemma_volume_leaves_the_plane(plane@, inner);
            }
        },
    }
}

/// Over a hierarchy whose bounds are nested and whose leaves all have
/// volume, a plane whose normal is not zero finds by the hierarchy just
/// what it finds by a scan of the whole leaf list, in the order of the
/// list.
pub proof fn lemma_plane_yields_scan<V>(lay: Layout<AABB3<i64>, V>, plane: Plane3)
    requires
        lay.wf(),
        lay.leaves.len() > 0 ==> nested(lay, lay.shape()),
        forall|i: int| 0 <= i < lay.leaves.len() ==> has_volume(#[trigger] lay.leaves[i].bound@),
        plane@.normal != Vec3(0i64, 0i64, 0i64),
    ensures
        lay.hits(plane) == lay.scan(plane),
{
    if lay.leaves.len() > 0 {
        lemma_plane_is_consistent(lay, lay.shape(), plane);
    }
    lay.lemma_consistent_yields_scan(plane);
}

} // verus!
