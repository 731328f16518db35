//! The half-space below a plane as a query body for boxes.

use vstd::prelude::*;

use crate::aabb::{firsts, seconds, select_by_sign, AABBQuery, AABBRelation, AABB3};
use crate::vector::{dot, fits_i128, sign_of, Sign, Vec3};

verus! {

/// The mathematical content of a plane query: the normal of the plane and
/// its offset, the dot product of the normal with any point of the plane.
///
/// The query body is the half-space below the plane: a point lies below
/// the plane where its dot product with the normal is less than the offset,
/// on the plane where it is equal, and above it where it is greater.
pub struct Halfspace {
    pub normal: Vec3<i64>,
    pub offset: int,
}

/// The magnitude of the integer `x`.
pub open spec fn magnitude(x: int) -> int {
    if x < 0 {
        -x
    } else {
        x
    }
}

/// The normal is short enough for its dot product with any point to be held
/// in 128 bits: the magnitudes of its components sum to less than 2 to the
/// 64th.
pub open spec fn admissible(normal: Vec3<i64>) -> bool {
    magnitude(normal.0 as int) + magnitude(normal.1 as int) + magnitude(normal.2 as int)
        <= 0xffff_ffff_ffff_ffff
}

/// The signs of the three components of `v`.
pub open spec fn signs(v: Vec3<i64>) -> Vec3<Sign> {
    Vec3(sign_of(v.0 as int), sign_of(v.1 as int), sign_of(v.2 as int))
}

/// One of the eight corners of the box `b`: on each axis the upper end of
/// the interval where the flag is set, the lower end where it is not.
pub open spec fn corner(b: Vec3<(i64, i64)>, x: bool, y: bool, z: bool) -> Vec3<i64> {
    Vec3(
        if x { (b.0).1 } else { (b.0).0 },
        if y { (b.1).1 } else { (b.1).0 },
        if z { (b.2).1 } else { (b.2).0 },
    )
}

/// Every one of the eight corners of the box `b` meets `f`.
pub open spec fn every_corner(b: Vec3<(i64, i64)>, f: spec_fn(Vec3<i64>) -> bool) -> bool {
    &&& f(corner(b, false, false, false))
    &&& f(corner(b, false, false, true))
    &&& f(corner(b, false, true, false))
    &&& f(corner(b, false, true, true))
    &&& f(corner(b, true, false, false))
    &&& f(corner(b, true, false, true))
    &&& f(corner(b, true, true, false))
    &&& f(corner(b, true, true, true))
}

/// One of the eight corners of the box `b` at least meets `f`.
pub open spec fn some_corner(b: Vec3<(i64, i64)>, f: spec_fn(Vec3<i64>) -> bool) -> bool {
    ||| f(corner(b, false, false, false))
    ||| f(corner(b, false, false, true))
    ||| f(corner(b, false, true, false))
    ||| f(corner(b, false, true, true))
    ||| f(corner(b, true, false, false))
    ||| f(corner(b, true, false, true))
    ||| f(corner(b, true, true, false))
    ||| f(corner(b, true, true, true))
}

impl Halfspace {
    /// How far the point `p` lies above the plane, in units of the length
    /// of the normal; negative where it lies below.
    pub open spec fn height(self, p: Vec3<i64>) -> int {
        dot(p, self.normal) - self.offset
    }

    /// How the half-space relates to the box `b`. It contains the box where
    /// no corner lies above the plane and some corner lies below it. It is
    /// disjoint from the box where no corner lies below the plane and some
    /// corner lies above it. In every other case the plane cuts the box: it
    /// has corners on both sides, or all its corners lie on the plane.
    pub open spec fn classify(self, b: Vec3<(i64, i64)>) -> AABBRelation {
        if every_corner(b, |p: Vec3<i64>| self.height(p) <= 0) && some_corner(
            b,
            |p: Vec3<i64>| self.height(p) < 0,
        ) {
            AABBRelation::Include
        } else if every_corner(b, |p: Vec3<i64>| self.height(p) >= 0) && some_corner(
            b,
            |p: Vec3<i64>| self.height(p) > 0,
        ) {
            AABBRelation::Interleave
        } else {
            AABBRelation::Intersect
        }
    }

    /// How the eight corners of the box `b` vote by the side of the plane
    /// they lie on: corners below and none above make the box contained,
    /// corners above and none below make it disjoint, and corners on both
    /// sides, or all of them on the plane, leave it undecided.
    pub open spec fn classify_by_sides(self, b: Vec3<(i64, i64)>) -> AABBRelation {
        let below = some_corner(b, |p: Vec3<i64>| self.height(p) < 0);
        let above = some_corner(b, |p: Vec3<i64>| self.height(p) > 0);
        if above && !below {
            AABBRelation::Interleave
        } else if below && !above {
            AABBRelation::Include
        } else {
            AABBRelation::Intersect
        }
    }

    /// The half-space relates to every box as the corners of the box vote.
    pub proof fn lemma_classify_is_vote(self, b: Vec3<(i64, i64)>)
        ensures
            self.classify(b) == self.classify_by_sides(b),
    {
    }

    /// The half-space on the other side of the same plane: its normal is
    /// the reverse of the normal of this one.
    pub open spec fn mirrors(self, other: Halfspace) -> bool {
        &&& other.normal.0 == -self.normal.0
        &&& other.normal.1 == -self.normal.1
        &&& other.normal.2 == -self.normal.2
        &&& other.offset == -self.offset
    }

    /// A box that one side of a plane contains is disjoint from the other
    /// side, and a box that the plane cuts it cuts from either side.
    pub proof fn lemma_mirror_swaps_sides(self, other: Halfspace, b: Vec3<(i64, i64)>)
        requires
            self.mirrors(other),
        ensures
            self.classify(b) == AABBRelation::Include <==> other.classify(b)
                == AABBRelation::Interleave,
            self.classify(b) == AABBRelation::Interleave <==> other.classify(b)
                == AABBRelation::Include,
            self.classify(b) == AABBRelation::Intersect <==> other.classify(b)
                == AABBRelation::Intersect,
    {
        assert forall|p: Vec3<i64>| other.height(p) == -#[trigger] self.height(p) by {
            lemma_reversed(p.0 as int, self.normal.0 as int);
            lemma_reversed(p.1 as int, self.normal.1 as int);
            lemma_reversed(p.2 as int, self.normal.2 as int);
        }
    }
}

/// The product with the reverse of a factor is the reverse of the product.
proof fn lemma_reversed(a: int, n: int)
    by (nonlinear_arith)
    ensures
        a * (-n) == -(a * n),
{
}

/// A factor that is not negative keeps the order of two numbers; one that
/// is not positive turns it round.
proof fn lemma_scale(n: int, a: int, b: int)
    by (nonlinear_arith)
    requires
        a <= b,
    ensures
        n >= 0 ==> n * a <= n * b,
        n <= 0 ==> n * b <= n * a,
{
}

/// The product of a coordinate and a component of a normal is at most 2 to
/// the 63rd times as large as the component.
proof fn lemma_product_bound(n: int, c: int)
    by (nonlinear_arith)
    requires
        -0x8000_0000_0000_0000 <= c <= 0x7fff_ffff_ffff_ffff,
    ensures
        -0x8000_0000_0000_0000 * magnitude(n) <= c * n <= 0x8000_0000_0000_0000 * magnitude(n),
{
}

/// The dot product of any point with an admissible normal can be held in
/// 128 bits.
pub proof fn lemma_admissible_fits(p: Vec3<i64>, normal: Vec3<i64>)
    requires
        admissible(normal),
    ensures
        fits_i128(dot(p, normal)),
{
    lemma_product_bound(normal.0 as int, p.0 as int);
    lemma_product_bound(normal.1 as int, p.1 as int);
    lemma_product_bound(normal.2 as int, p.2 as int);
}

/// The point `p` lies in the box `b`.
pub open spec fn within(b: Vec3<(i64, i64)>, p: Vec3<i64>) -> bool {
    &&& (b.0).0 <= p.0 <= (b.0).1
    &&& (b.1).0 <= p.1 <= (b.1).1
    &&& (b.2).0 <= p.2 <= (b.2).1
}

/// The corner of the box `b` that lies furthest along the direction
/// `normal`: the first members of what the signs of the direction select.
pub open spec fn far_corner(b: Vec3<(i64, i64)>, normal: Vec3<i64>) -> Vec3<i64> {
    firsts(select_by_sign(b, signs(normal)))
}

/// The corner of the box `b` that lies least far along the direction
/// `normal`: the second members of what the signs of the direction select.
pub open spec fn near_corner(b: Vec3<(i64, i64)>, normal: Vec3<i64>) -> Vec3<i64> {
    seconds(select_by_sign(b, signs(normal)))
}

/// No point of a box lies further along a direction than the far corner,
/// nor less far than the near corner, and these two are corners of the box.
pub proof fn lemma_extreme_corners(b: Vec3<(i64, i64)>, normal: Vec3<i64>, p: Vec3<i64>)
    requires
        within(b, p),
    ensures
        dot(near_corner(b, normal), normal) <= dot(p, normal) <= dot(far_corner(b, normal), normal),
        far_corner(b, normal) == corner(b, normal.0 > 0, normal.1 > 0, normal.2 > 0),
        near_corner(b, normal) == corner(b, !(normal.0 > 0), !(normal.1 > 0), !(normal.2 > 0)),
{
    lemma_scale(normal.0 as int, (b.0).0 as int, p.0 as int);
    lemma_scale(normal.0 as int, p.0 as int, (b.0).1 as int);
    lemma_scale(normal.1 as int, (b.1).0 as int, p.1 as int);
    lemma_scale(normal.1 as int, p.1 as int, (b.1).1 as int);
    lemma_scale(normal.2 as int, (b.2).0 as int, p.2 as int);
    lemma_scale(normal.2 as int, p.2 as int, (b.2).1 as int);
    let far = far_corner(b, normal);
    let near = near_corner(b, normal);
    assert(near.0 * normal.0 <= p.0 * normal.0 <= far.0 * normal.0) by (nonlinear_arith)
        requires
            normal.0 * near.0 <= normal.0 * p.0 <= normal.0 * far.0,
    ;
    assert(near.1 * normal.1 <= p.1 * normal.1 <= far.1 * normal.1) by (nonlinear_arith)
        requires
            normal.1 * near.1 <= normal.1 * p.1 <= normal.1 * far.1,
    ;
    assert(near.2 * normal.2 <= p.2 * normal.2 <= far.2 * normal.2) by (nonlinear_arith)
        requires
            normal.2 * near.2 <= normal.2 * p.2 <= normal.2 * far.2,
    ;
}

/// Two corners decide how the half-space relates to a box without empty
/// intervals. It contains the box just where the far corner lies on the
/// plane or below it and the near corner below it, and is disjoint from it
/// just where the near corner lies on the plane or above it and the far
/// corner above it: no other corner lies further out on either side.
pub proof fn lemma_two_corners_decide(h: Halfspace, b: Vec3<(i64, i64)>)
    requires
        (b.0).0 <= (b.0).1,
        (b.1).0 <= (b.1).1,
        (b.2).0 <= (b.2).1,
    ensures
        h.classify(b) == if h.height(far_corner(b, h.normal)) <= 0 && h.height(
            near_corner(b, h.normal),
        ) < 0 {
            AABBRelation::Include
        } else if h.height(near_corner(b, h.normal)) >= 0 && h.height(
            far_corner(b, h.normal),
        ) > 0 {
            AABBRelation::Interleave
        } else {
            AABBRelation::Intersect
        },
{
    lemma_extreme_corners(b, h.normal, corner(b, false, false, false));
    lemma_extreme_corners(b, h.normal, corner(b, false, false, true));
    lemma_extreme_corners(b, h.normal, corner(b, false, true, false));
    lemma_extreme_corners(b, h.normal, corner(b, false, true, true));
    lemma_extreme_corners(b, h.normal, corner(b, true, false, false));
    lemma_extreme_corners(b, h.normal, corner(b, true, false, true));
    lemma_extreme_corners(b, h.normal, corner(b, true, true, false));
    lemma_extreme_corners(b, h.normal, corner(b, true, true, true));
}

/// A plane, given by its normal and a point on it, as the query body that
/// holds what lies below the plane, where the normal points up.
///
/// The signs of the normal and the offset of the plane are computed once,
/// when the plane is made, for the many boxes it is then held against.
#[derive(Copy, Clone, Debug)]
pub struct Plane3 {
    normal: Vec3<i64>,
    dir: Vec3<Sign>,
    distance: i128,
}

impl View for Plane3 {
    type V = Halfspace;

    closed spec fn view(&self) -> Halfspace {
        Halfspace { normal: self.normal, offset: self.distance as int }
    }
}

impl Plane3 {
    #[verifier::type_invariant]
    closed spec fn inv(self) -> bool {
        admissible(self.normal) && self.dir == signs(self.normal)
    }

    /// The plane through `point` with the normal `normal`.
    pub fn new(point: Vec3<i64>, normal: Vec3<i64>) -> (r: Self)
        requires
            admissible(normal),
        ensures
            r@ == (Halfspace { normal: normal, offset: dot(point, normal) }),
    {
        proof {
            lemma_admissible_fits(point, normal);
        }
        Plane3 { normal: normal, dir: normal.to_ordering(), distance: point ^ normal }
    }

    /// The plane through `point` with the normal `normal`, or `None` where
    /// the normal is too long to be admissible.
    pub fn try_new(point: Vec3<i64>, normal: Vec3<i64>) -> (r: Option<Self>)
        ensures
            match r {
                Some(plane) => admissible(normal) && plane@ == (Halfspace {
                    normal: normal,
                    offset: dot(point, normal),
                }),
                None => !admissible(normal),
            },
    {
        let reach: u128 = size(normal.0) + size(normal.1) + size(normal.2);
        if reach <= 0xffff_ffff_ffff_ffff {
            Some(Plane3::new(point, normal))
        } else {
            None
        }
    }
}

/// The magnitude of `x`.
fn size(x: i64) -> (r: u128)
    ensures
        r == magnitude(x as int),
{
    if x < 0 {
        (-(x as i128)) as u128
    } else {
        x as u128
    }
}

impl AABBQuery<AABB3<i64>> for Plane3 {
    open spec fn relation(&self, bound: &AABB3<i64>) -> AABBRelation {
        self@.classify(bound@)
    }

    /// Classifies a box by the two corners that lie furthest along the
    /// normal and least far along it: no other corner can decide.
    fn check(&self, bound: &AABB3<i64>) -> (r: AABBRelation) {
        proof {
            use_type_invariant(self);
            use_type_invariant(bound);
        }
        let (far, near) = bound.from_ordering(self.dir).unzip();
        proof {
            lemma_admissible_fits(far, self.normal);
            lemma_admissible_fits(near, self.normal);
            lemma_two_corners_decide(self@, bound@);
        }
        let high: i128 = far ^ self.normal;
        let low: i128 = near ^ self.normal;
        if high <= self.distance && low < self.distance {
            AABBRelation::Include
        } else if low >= self.distance && high > self.distance {
            AABBRelation::Interleave
        } else {
            AABBRelation::Intersect
        }
    }
}

} // verus!
