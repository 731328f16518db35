//! Axis-aligned bounding boxes over any totally ordered scalar, the relation of
//! a bound to a query body, and the protocol by which a query body classifies
//! bounds.

use std::cmp::Ordering;
use vstd::laws_cmp::{obeys_cmp, obeys_cmp_ord, obeys_cmp_partial_ord, obeys_partial_cmp_spec_properties};
use vstd::laws_eq::obeys_concrete_eq;
use vstd::prelude::*;
use vstd::std_specs::cmp::OrdSpec;
use vstd::std_specs::convert::FromSpecImpl;

use crate::vector::{Sign, Vec3};

verus! {

/// How a bound relates to a query body.
#[derive(PartialEq, Eq, Clone, Copy, Debug, Structural)]
pub enum AABBRelation {
    /// The query body is disjoint from the bound: nothing below the bound
    /// needs to be tested.
    Interleave,
    /// The query body overlaps the bound without containing it: what lies
    /// below the bound has to be tested in turn.
    Intersect,
    /// The query body contains the bound completely: everything below the
    /// bound is accepted without further tests.
    Include,
}

/// A query body that classifies bounds of type `B`.
///
/// `relation` is the mathematical classification; `check` computes it. A
/// hierarchy prunes soundly only where the classification agrees with the
/// nesting of its bounds: a body that is `Interleave` to a bound has to be
/// `Interleave` to whatever lies inside that bound, and a body that is
/// `Include` to a bound must not be `Interleave` to anything inside it.
pub trait AABBQuery<B> {
    /// How the body relates to `bound`. A body that does not say overlaps
    /// every bound, which leaves every decision to what lies below.
    open spec fn relation(&self, bound: &B) -> AABBRelation {
        AABBRelation::Intersect
    }

    fn check(&self, bound: &B) -> (r: AABBRelation)
        ensures
            r == self.relation(bound),
    ;
}

/// The comparison of `T` is a total order whose equality is equality of
/// values.
pub open spec fn total_order<T: Ord>() -> bool {
    obeys_cmp::<T>() && obeys_concrete_eq::<T>()
}

/// `a` is not greater than `b`.
pub open spec fn le<T: Ord>(a: T, b: T) -> bool {
    a.cmp_spec(&b) != Ordering::Greater
}

/// The lesser of `a` and `b`.
pub open spec fn lower<T: Ord>(a: T, b: T) -> T {
    if le(a, b) {
        a
    } else {
        b
    }
}

/// The greater of `a` and `b`.
pub open spec fn upper<T: Ord>(a: T, b: T) -> T {
    if le(a, b) {
        b
    } else {
        a
    }
}

/// In a total order `le` is reflexive, antisymmetric, transitive and total.
pub proof fn lemma_total_order<T: Ord>()
    requires
        total_order::<T>(),
    ensures
        forall|a: T| #[trigger] le(a, a),
        forall|a: T, b: T| #[trigger] le(a, b) || le(b, a),
        forall|a: T, b: T| #[trigger] le(a, b) && le(b, a) ==> a == b,
        forall|a: T, b: T, c: T| #[trigger] le(a, b) && #[trigger] le(b, c) ==> le(a, c),
        forall|a: T, b: T| #[trigger]
            a.cmp_spec(&b) == Ordering::Greater <==> b.cmp_spec(&a) == Ordering::Less,
{
    reveal(obeys_cmp_ord);
    reveal(obeys_partial_cmp_spec_properties);
    reveal(obeys_concrete_eq);
}

/// The interval `[lo, hi]` of one axis is not empty.
pub open spec fn proper<T: Ord>(i: (T, T)) -> bool {
    le(i.0, i.1)
}

/// The pair of `a` and `b` with the lesser first.
pub open spec fn ordered<T: Ord>(a: T, b: T) -> (T, T) {
    (lower(a, b), upper(a, b))
}

/// The smallest interval that contains both `a` and `b`.
pub open spec fn join<T: Ord>(a: (T, T), b: (T, T)) -> (T, T) {
    (lower(a.0, b.0), upper(a.1, b.1))
}

/// What two closed intervals have in common, if anything.
pub open spec fn meet<T: Ord>(a: (T, T), b: (T, T)) -> Option<(T, T)> {
    if le(a.0, b.1) && le(b.0, a.1) {
        Some((upper(a.0, b.0), lower(a.1, b.1)))
    } else {
        None
    }
}

/// The pair `i` with the end on the outgoing side of a direction of sign `s`
/// first: the upper end for a positive direction, the lower end otherwise.
pub open spec fn facing<T>(i: (T, T), s: Sign) -> (T, T) {
    if s == Sign::Positive {
        (i.1, i.0)
    } else {
        i
    }
}

/// The box `b` has no empty interval.
pub open spec fn proper_box<T: Ord>(b: Vec3<(T, T)>) -> bool {
    proper(b.0) && proper(b.1) && proper(b.2)
}

/// The canonical box with the corners `first` and `second`.
pub open spec fn box_of<T: Ord>(first: Vec3<T>, second: Vec3<T>) -> Vec3<(T, T)> {
    Vec3(ordered(first.0, second.0), ordered(first.1, second.1), ordered(first.2, second.2))
}

/// The smallest box that contains both `a` and `b`.
pub open spec fn hull<T: Ord>(a: Vec3<(T, T)>, b: Vec3<(T, T)>) -> Vec3<(T, T)> {
    Vec3(join(a.0, b.0), join(a.1, b.1), join(a.2, b.2))
}

/// What the boxes `a` and `b` have in common: their intervals overlap on
/// every axis, or there is nothing.
pub open spec fn overlap<T: Ord>(a: Vec3<(T, T)>, b: Vec3<(T, T)>) -> Option<Vec3<(T, T)>> {
    if meet(a.0, b.0) is Some && meet(a.1, b.1) is Some && meet(a.2, b.2) is Some {
        Some(Vec3(meet(a.0, b.0)->0, meet(a.1, b.1)->0, meet(a.2, b.2)->0))
    } else {
        None
    }
}

/// `a` is less than `b`.
pub open spec fn lt<T: Ord>(a: T, b: T) -> bool {
    le(a, b) && a != b
}

/// The box has positive volume: on every axis its lower end is less than
/// its upper end.
pub open spec fn has_volume<T: Ord>(b: Vec3<(T, T)>) -> bool {
    lt((b.0).0, (b.0).1) && lt((b.1).0, (b.1).1) && lt((b.2).0, (b.2).1)
}

/// Two boxes overlap in volume: what they have in common is a box of
/// positive volume. Boxes that only touch do not.
pub open spec fn overlap_in_volume<T: Ord>(a: Vec3<(T, T)>, b: Vec3<(T, T)>) -> bool {
    overlap(a, b) is Some && has_volume(overlap(a, b)->0)
}

/// The box with, on each axis, the end on the outgoing side of the direction
/// of signs `v` first.
pub open spec fn select_by_sign<T>(b: Vec3<(T, T)>, v: Vec3<Sign>) -> Vec3<(T, T)> {
    Vec3(facing(b.0, v.0), facing(b.1, v.1), facing(b.2, v.2))
}

/// Whether `a` is not greater than `b`.
fn at_most<T: Ord>(a: &T, b: &T) -> (r: bool)
    ensures
        total_order::<T>() ==> r == le(*a, *b),
{
    proof {
        reveal(obeys_cmp_ord);
    }
    match a.cmp(b) {
        Ordering::Greater => false,
        _ => true,
    }
}

/// What the intervals `a` and `b` have in common, or `None` where they do
/// not overlap.
pub fn intersect_intervals<T: Ord + Copy>(a: (T, T), b: (T, T)) -> (r: Option<(T, T)>)
    ensures
        total_order::<T>() ==> r == meet(a, b),
{
    if at_most(&a.0, &b.1) && at_most(&b.0, &a.1) {
        let lo = if at_most(&a.0, &b.0) {
            b.0
        } else {
            a.0
        };
        let hi = if at_most(&a.1, &b.1) {
            a.1
        } else {
            b.1
        };
        Some((lo, hi))
    } else {
        None
    }
}

/// The pair of `a` and `b` with the lesser first.
pub fn order_pair<T: Ord + Copy>(a: T, b: T) -> (r: (T, T))
    ensures
        total_order::<T>() ==> r == ordered(a, b),
{
    if at_most(&a, &b) {
        (a, b)
    } else {
        (b, a)
    }
}

/// The pair with its two members exchanged for a positive sign, and as it
/// is for any other.
pub fn reorder_pair<T>(pair: (T, T), s: Sign) -> (r: (T, T))
    ensures
        r == facing(pair, s),
{
    match s {
        Sign::Positive => (pair.1, pair.0),
        _ => (pair.0, pair.1),
    }
}

/// `Some` where `a` and `b` differ.
pub fn is_ne_pair<T: Ord>(a: T, b: T) -> (r: Option<()>)
    ensures
        total_order::<T>() ==> r.is_some() == (a != b),
{
    proof {
        if total_order::<T>() {
            reveal(obeys_cmp_ord);
            reveal(obeys_cmp_partial_ord);
            reveal(obeys_concrete_eq);
        }
    }
    match a.cmp(&b) {
        Ordering::Equal => None,
        _ => Some(()),
    }
}

/// The smallest interval that contains both `a` and `b`.
fn join_intervals<T: Ord + Copy>(a: (T, T), b: (T, T)) -> (r: (T, T))
    ensures
        total_order::<T>() ==> r == join(a, b),
{
    proof {
        if total_order::<T>() {
            reveal(obeys_cmp_ord);
            lemma_total_order::<T>();
        }
    }
    (Ord::min(a.0, b.0), Ord::max(a.1, b.1))
}

/// An axis-aligned bounding box in three dimensions: one closed interval
/// `[lo, hi]` per axis.
///
/// Where the comparison of `T` is a total order, no interval of a box is
/// empty: `lo` is not greater than `hi` on any axis.
#[derive(Copy, Debug)]
pub struct AABB3<T: Ord + Copy>(Vec3<(T, T)>);

impl<T: Ord + Copy> Clone for AABB3<T> {
    fn clone(&self) -> (r: Self)
        ensures
            r == *self,
    {
        *self
    }
}

impl<T: Ord + Copy> View for AABB3<T> {
    type V = Vec3<(T, T)>;

    /// The three intervals, each as the pair of its lower and its upper end.
    closed spec fn view(&self) -> Vec3<(T, T)> {
        self.0
    }
}

impl<T: Ord + Copy> AABB3<T> {
    #[verifier::type_invariant]
    pub open spec fn inv(self) -> bool {
        total_order::<T>() ==> proper_box(self@)
    }

    /// The canonical box with the corners `first` and `second`: on each axis the
    /// lesser of the two coordinates is the lower end, the greater the upper.
    pub fn new(first: Vec3<T>, second: Vec3<T>) -> (r: Self)
        ensures
            total_order::<T>() ==> r@ == box_of(first, second),
    {
        let pairs = first.zip_components(second).map_components(order_pair);
        proof {
            if total_order::<T>() {
                lemma_total_order::<T>();
            }
        }
        AABB3(pairs)
    }

    /// The smallest box that contains both this box and `a`.
    pub fn extends(&self, a: &Self) -> (r: Self)
        ensures
            total_order::<T>() ==> r@ == hull(self@, a@),
    {
        proof {
            use_type_invariant(self);
            use_type_invariant(a);
        }
        let pairs = self.0.zip_components(a.0).map_components(join_intervals);
        proof {
            if total_order::<T>() {
                lemma_hull_proper(self@, a@);
            }
        }
        AABB3(pairs)
    }

    /// What this box and `a` have in common, or `None` where they do not
    /// overlap on every axis.
    ///
    /// Two boxes that only touch have a flat box in common;
    /// `has_positive_volume` tells such a box from one with volume.
    pub fn intersects(&self, a: &Self) -> (r: Option<Self>)
        ensures
            total_order::<T>() ==> match r {
                Some(b) => overlap(self@, a@) == Some(b@),
                None => overlap(self@, a@) is None,
            },
    {
        proof {
            use_type_invariant(self);
            use_type_invariant(a);
        }
        let found = self.0.zip_components(a.0).try_zip_components(intersect_intervals);
        match found {
            Some(pairs) => Some(AABB3(pairs)),
            None => None,
        }
    }

    /// Whether the box has positive volume: whether on every axis its lower
    /// end is less than its upper end.
    pub fn has_positive_volume(&self) -> (r: bool)
        ensures
            total_order::<T>() ==> r == has_volume(self@),
    {
        proof {
            use_type_invariant(self);
        }
        self.0.try_zip_components(is_ne_pair).is_some()
    }

    /// The same test as `has_positive_volume`: `true` for a box with volume,
    /// `false` for one that is flat on some axis.
    pub fn is_degraded(&self) -> (r: bool)
        ensures
            total_order::<T>() ==> r == has_volume(self@),
    {
        self.has_positive_volume()
    }

    /// Whether this box and `a` overlap in volume. Two boxes that share no
    /// more than a face, an edge or a point do not.
    pub fn does_intersects_with(&self, a: &Self) -> (r: bool)
        ensures
            total_order::<T>() ==> r == overlap_in_volume(self@, a@),
    {
        if let Some(body) = self.intersects(a) {
            return body.has_positive_volume();
        }
        false
    }

    /// The two ends of each interval, with the end on the outgoing side of
    /// the direction of signs `v` first.
    ///
    /// The first members make up the corner of the box that lies furthest
    /// along the direction, the second members the corner opposite to it.
    pub fn from_ordering(&self, v: Vec3<Sign>) -> (r: Vec3<(T, T)>)
        ensures
            r == select_by_sign(self@, v),
    {
        self.0.zip_components(v).map_components(reorder_pair)
    }
}

/// The first members of the three pairs of `v`.
pub open spec fn firsts<T>(v: Vec3<(T, T)>) -> Vec3<T> {
    Vec3((v.0).0, (v.1).0, (v.2).0)
}

/// The second members of the three pairs of `v`.
pub open spec fn seconds<T>(v: Vec3<(T, T)>) -> Vec3<T> {
    Vec3((v.0).1, (v.1).1, (v.2).1)
}

impl<T: Ord + Copy> FromSpecImpl<AABB3<T>> for Vec3<(T, T)> {
    open spec fn obeys_from_spec() -> bool {
        true
    }

    open spec fn from_spec(v: AABB3<T>) -> Vec3<(T, T)> {
        v@
    }
}

/// The three intervals of a box, each as the pair of its lower and its upper
/// end.
impl<T: Ord + Copy> From<AABB3<T>> for Vec3<(T, T)> {
    fn from(v: AABB3<T>) -> (r: Vec3<(T, T)>) {
        v.0
    }
}

impl<T: Ord + Copy> FromSpecImpl<Vec3<(T, T)>> for AABB3<T> {
    open spec fn obeys_from_spec() -> bool {
        total_order::<T>()
    }

    closed spec fn from_spec(v: Vec3<(T, T)>) -> AABB3<T> {
        AABB3(box_of(firsts(v), seconds(v)))
    }
}

/// The canonical box whose corners are the first members and the second
/// members of three pairs.
impl<T: Ord + Copy> From<Vec3<(T, T)>> for AABB3<T> {
    fn from(v: Vec3<(T, T)>) -> (r: AABB3<T>)
        ensures
            total_order::<T>() ==> r@ == box_of(firsts(v), seconds(v)),
    {
        let (x, y) = v.unzip();
        AABB3::new(x, y)
    }
}

/// The canonical box does not depend on which of the two corners gives
/// which coordinate: the corners may be exchanged as a whole, or on any of
/// the axes.
pub proof fn lemma_new_symmetric<T: Ord>(first: Vec3<T>, second: Vec3<T>, x: bool, y: bool, z: bool)
    requires
        total_order::<T>(),
    ensures
        box_of(second, first) == box_of(first, second),
        box_of(
            Vec3(
                if x { second.0 } else { first.0 },
                if y { second.1 } else { first.1 },
                if z { second.2 } else { first.2 },
            ),
            Vec3(
                if x { first.0 } else { second.0 },
                if y { first.1 } else { second.1 },
                if z { first.2 } else { second.2 },
            ),
        ) == box_of(first, second),
{
    lemma_ordered_symmetric(first.0, second.0);
    lemma_ordered_symmetric(first.1, second.1);
    lemma_ordered_symmetric(first.2, second.2);
}

proof fn lemma_ordered_symmetric<T: Ord>(a: T, b: T)
    requires
        total_order::<T>(),
    ensures
        ordered(a, b) == ordered(b, a),
        lower(a, b) == lower(b, a),
        upper(a, b) == upper(b, a),
{
    lemma_total_order::<T>();
}

proof fn lemma_lower_upper_associative<T: Ord>(a: T, b: T, c: T)
    requires
        total_order::<T>(),
    ensures
        lower(lower(a, b), c) == lower(a, lower(b, c)),
        upper(upper(a, b), c) == upper(a, upper(b, c)),
{
    lemma_total_order::<T>();
}

/// The hull of two boxes does not depend on their order.
pub proof fn lemma_extends_commutative<T: Ord>(a: Vec3<(T, T)>, b: Vec3<(T, T)>)
    requires
        total_order::<T>(),
    ensures
        hull(a, b) == hull(b, a),
{
    lemma_ordered_symmetric((a.0).0, (b.0).0);
    lemma_ordered_symmetric((a.0).1, (b.0).1);
    lemma_ordered_symmetric((a.1).0, (b.1).0);
    lemma_ordered_symmetric((a.1).1, (b.1).1);
    lemma_ordered_symmetric((a.2).0, (b.2).0);
    lemma_ordered_symmetric((a.2).1, (b.2).1);
}

/// The hull of three boxes does not depend on how they are grouped.
pub proof fn lemma_extends_associative<T: Ord>(
    a: Vec3<(T, T)>,
    b: Vec3<(T, T)>,
    c: Vec3<(T, T)>,
)
    requires
        total_order::<T>(),
    ensures
        hull(hull(a, b), c) == hull(a, hull(b, c)),
{
    lemma_lower_upper_associative((a.0).0, (b.0).0, (c.0).0);
    lemma_lower_upper_associative((a.0).1, (b.0).1, (c.0).1);
    lemma_lower_upper_associative((a.1).0, (b.1).0, (c.1).0);
    lemma_lower_upper_associative((a.1).1, (b.1).1, (c.1).1);
    lemma_lower_upper_associative((a.2).0, (b.2).0, (c.2).0);
    lemma_lower_upper_associative((a.2).1, (b.2).1, (c.2).1);
}

/// The hull of a box and itself is that box.
pub proof fn lemma_extends_idempotent<T: Ord>(a: Vec3<(T, T)>)
    ensures
        hull(a, a) == a,
{
}

/// What two boxes have in common does not depend on their order.
pub proof fn lemma_intersects_commutative<T: Ord>(a: Vec3<(T, T)>, b: Vec3<(T, T)>)
    requires
        total_order::<T>(),
    ensures
        overlap(a, b) == overlap(b, a),
{
    lemma_ordered_symmetric((a.0).0, (b.0).0);
    lemma_ordered_symmetric((a.0).1, (b.0).1);
    lemma_ordered_symmetric((a.1).0, (b.1).0);
    lemma_ordered_symmetric((a.1).1, (b.1).1);
    lemma_ordered_symmetric((a.2).0, (b.2).0);
    lemma_ordered_symmetric((a.2).1, (b.2).1);
}

/// A box without empty intervals has itself in common with itself.
pub proof fn lemma_intersects_idempotent<T: Ord>(a: Vec3<(T, T)>)
    requires
        proper_box(a),
    ensures
        overlap(a, a) == Some(a),
{
}

/// Two boxes without empty intervals that meet in no more than a face, an
/// edge or a point, one ending on some axis where the other begins, do not
/// overlap in volume.
pub proof fn lemma_contact_is_no_overlap<T: Ord>(a: Vec3<(T, T)>, b: Vec3<(T, T)>)
    requires
        total_order::<T>(),
        proper_box(a),
        proper_box(b),
        (a.0).1 == (b.0).0 || (a.1).1 == (b.1).0 || (a.2).1 == (b.2).0,
    ensures
        !overlap_in_volume(a, b),
        !overlap_in_volume(b, a),
{
    lemma_intersects_commutative(a, b);
}

/// The hull of two boxes without empty intervals has none.
pub proof fn lemma_hull_proper<T: Ord>(a: Vec3<(T, T)>, b: Vec3<(T, T)>)
    requires
        total_order::<T>(),
        proper_box(a),
        proper_box(b),
    ensures
        proper_box(hull(a, b)),
{
    lemma_join_proper(a.0, b.0);
    lemma_join_proper(a.1, b.1);
    lemma_join_proper(a.2, b.2);
}

proof fn lemma_join_proper<T: Ord>(a: (T, T), b: (T, T))
    requires
        total_order::<T>(),
        proper(a),
        proper(b),
    ensures
        proper(join(a, b)),
{
    lemma_total_order::<T>();
}

/// What two boxes without empty intervals have in common has none.
pub proof fn lemma_overlap_proper<T: Ord>(a: Vec3<(T, T)>, b: Vec3<(T, T)>)
    requires
        total_order::<T>(),
        proper_box(a),
        proper_box(b),
        overlap(a, b) is Some,
    ensures
        proper_box(overlap(a, b)->0),
{
}

} // verus!
