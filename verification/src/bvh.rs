//! The bounding volume hierarchy: its two node lists, the shape they encode,
//! and what a query over it yields.

use vstd::prelude::*;

use crate::aabb::{AABBQuery, AABBRelation};
use crate::generator::Enumerator;
use crate::validate::is_well_formed;

verus! {

/// An inner node: a bound and the references of its two children.
pub struct BVHBranch<B> {
    pub bound: B,
    pub left: usize,
    pub right: usize,
}

/// A leaf: a bound and the payload stored under it.
pub struct BVHLeaf<B, V> {
    pub bound: B,
    pub value: V,
}

/// The shape of a subtree, by the indices of its branches and leaves.
pub enum Shape {
    Leaf { leaf: int },
    Branch { branch: int, left: Box<Shape>, right: Box<Shape> },
}

/// The integers `from, from + 1, .., until - 1` in ascending order.
pub open spec fn range(from: int, until: int) -> Seq<int> {
    Seq::new((until - from) as nat, |k: int| from + k)
}

impl Shape {
    /// The leaf indices of the subtree from left to right.
    pub open spec fn leaves(self) -> Seq<int>
        decreases self,
    {
        match self {
            Shape::Leaf { leaf } => seq![leaf],
            Shape::Branch { left, right, .. } => left.leaves() + right.leaves(),
        }
    }

    /// The index of the leaf reached by always descending to the left.
    pub open spec fn first(self) -> int
        decreases self,
    {
        match self {
            Shape::Leaf { leaf } => leaf,
            Shape::Branch { left, .. } => left.first(),
        }
    }

    /// The index of the leaf reached by always descending to the right.
    pub open spec fn last(self) -> int
        decreases self,
    {
        match self {
            Shape::Leaf { leaf } => leaf,
            Shape::Branch { right, .. } => right.last(),
        }
    }

    /// The number of nodes, branches and leaves together.
    pub open spec fn nodes(self) -> nat
        decreases self,
    {
        match self {
            Shape::Leaf { .. } => 1,
            Shape::Branch { left, right, .. } => 1 + left.nodes() + right.nodes(),
        }
    }

    /// The number of nodes on the longest way from the root of the subtree
    /// down to a leaf.
    pub open spec fn height(self) -> nat
        decreases self,
    {
        match self {
            Shape::Leaf { .. } => 1,
            Shape::Branch { left, right, .. } => {
                if left.height() >= right.height() {
                    1 + left.height()
                } else {
                    1 + right.height()
                }
            },
        }
    }

    /// The number of branches.
    pub open spec fn branch_count(self) -> nat
        decreases self,
    {
        match self {
            Shape::Leaf { .. } => 0,
            Shape::Branch { left, right, .. } => 1 + left.branch_count() + right.branch_count(),
        }
    }

    /// Under every branch the leaves of the right subtree continue the
    /// numbering where those of the left subtree end.
    pub open spec fn in_order(self) -> bool
        decreases self,
    {
        match self {
            Shape::Leaf { .. } => true,
            Shape::Branch { left, right, .. } => {
                &&& left.in_order()
                &&& right.in_order()
                &&& right.first() == left.last() + 1
            },
        }
    }

    /// A subtree in order spans the contiguous range of leaves from its first
    /// to its last, and has one branch less than it has leaves.
    pub proof fn lemma_in_order_span(self)
        requires
            self.in_order(),
        ensures
            self.first() <= self.last(),
            self.leaves() == range(self.first(), self.last() + 1),
            self.branch_count() == self.last() - self.first(),
            self.nodes() == 2 * (self.last() - self.first()) + 1,
        decreases self,
    {
        match self {
            Shape::Leaf { .. } => {},
            Shape::Branch { left, right, .. } => {
                left.lemma_in_order_span();
                right.lemma_in_order_span();
            },
        }
    }
}

/// The members of `s` grow from each to the next.
pub open spec fn ascending(s: Seq<int>) -> bool {
    forall|i: int, j: int| 0 <= i < j < s.len() ==> s[i] < s[j]
}

/// A filter that no member of a sequence passes leaves nothing.
proof fn lemma_filter_none(s: Seq<int>, f: spec_fn(int) -> bool)
    requires
        forall|k: int| 0 <= k < s.len() ==> !f(#[trigger] s[k]),
    ensures
        s.filter(f) == Seq::<int>::empty(),
    decreases s.len(),
{
    reveal(Seq::filter);
    if s.len() > 0 {
        lemma_filter_none(s.drop_last(), f);
    }
}

/// A filter that every member of a sequence passes leaves the sequence.
proof fn lemma_filter_all(s: Seq<int>, f: spec_fn(int) -> bool)
    requires
        forall|k: int| 0 <= k < s.len() ==> f(#[trigger] s[k]),
    ensures
        s.filter(f) == s,
    decreases s.len(),
{
    reveal(Seq::filter);
    if s.len() > 0 {
        lemma_filter_all(s.drop_last(), f);
    }
}

/// The mathematical content of a hierarchy: the root reference and the two
/// node lists.
///
/// A node reference is an integer whose lowest bit is the tag (1 for a
/// branch, 0 for a leaf) and whose remaining bits are the index into the
/// list that the tag selects.
pub struct Layout<B, V> {
    pub root: usize,
    pub branches: Seq<BVHBranch<B>>,
    pub leaves: Seq<BVHLeaf<B, V>>,
}

impl<B, V> Layout<B, V> {
    /// The subtree that the reference `id` leads to has the shape `t`.
    pub open spec fn encodes(self, id: usize, t: Shape) -> bool
        decreases t,
    {
        match t {
            Shape::Leaf { leaf } => 0 <= leaf < self.leaves.len() && id == 2 * leaf,
            Shape::Branch { branch, left, right } => {
                &&& 0 <= branch < self.branches.len()
                &&& id == 2 * branch + 1
                &&& self.encodes(self.branches[branch].left, *left)
                &&& self.encodes(self.branches[branch].right, *right)
            },
        }
    }

    /// `t` is the shape of the whole hierarchy: it hangs from the root and
    /// its leaves are, from left to right, all the leaves of the list.
    pub open spec fn describes(self, t: Shape) -> bool {
        &&& self.encodes(self.root, t)
        &&& t.in_order()
        &&& t.first() == 0
        &&& t.last() == self.leaves.len() - 1
    }

    /// The subtree that hangs from the branch with the index `branch` has the
    /// shape `t`.
    pub open spec fn hangs(self, branch: int, t: Shape) -> bool {
        &&& t is Branch
        &&& t->branch == branch
        &&& 0 <= branch < self.branches.len()
        &&& self.encodes(self.branches[branch].left, *t->left)
        &&& self.encodes(self.branches[branch].right, *t->right)
    }

    /// A subtree hangs from the branch with the index `branch`: its child
    /// references lead, in finitely many steps and within the two lists, to
    /// leaves.
    pub open spec fn carries(self, branch: int) -> bool {
        exists|t: Shape| self.hangs(branch, t)
    }

    /// The shape of the subtree that hangs from the branch with the index
    /// `branch`.
    pub open spec fn below(self, branch: int) -> Shape {
        choose|t: Shape| self.hangs(branch, t)
    }

    /// An empty hierarchy has no node at all and the root reference 0. Any
    /// other is a strict binary tree: its `n` leaves are stored in the order
    /// in which the tree meets them from left to right, and it has exactly
    /// `n - 1` branches.
    pub open spec fn wf(self) -> bool {
        if self.leaves.len() == 0 {
            self.branches.len() == 0 && self.root == 0
        } else {
            &&& self.branches.len() + 1 == self.leaves.len()
            &&& exists|t: Shape| self.describes(t)
        }
    }

    /// The shape of a hierarchy that is not empty.
    pub open spec fn shape(self) -> Shape {
        choose|t: Shape| self.describes(t)
    }

    /// The indices of the leaves that a traversal of the subtree `t` yields
    /// for the query body `q`, in the order in which it yields them.
    ///
    /// A leaf is yielded unless the body is disjoint from its bound. A branch
    /// whose bound the body is disjoint from yields nothing; one whose bound
    /// the body contains yields every leaf below it; any other yields what
    /// its left subtree yields, then what its right subtree yields.
    pub open spec fn visit<Q: AABBQuery<B>>(self, t: Shape, q: Q) -> Seq<int>
        decreases t,
    {
        match t {
            Shape::Leaf { leaf } => {
                if q.relation(&self.leaves[leaf].bound) == AABBRelation::Interleave {
                    Seq::empty()
                } else {
                    seq![leaf]
                }
            },
            Shape::Branch { branch, left, right } => {
                match q.relation(&self.branches[branch].bound) {
                    AABBRelation::Interleave => Seq::empty(),
                    AABBRelation::Intersect => self.visit(*left, q) + self.visit(*right, q),
                    AABBRelation::Include => t.leaves(),
                }
            },
        }
    }

    /// The indices of the leaves that a query with the body `q` yields, in
    /// the order in which it yields them.
    pub open spec fn hits<Q: AABBQuery<B>>(self, q: Q) -> Seq<int> {
        if self.leaves.len() == 0 {
            Seq::empty()
        } else {
            self.visit(self.shape(), q)
        }
    }

    /// Whether the body `q` is not disjoint from the bound of the leaf `i`.
    pub open spec fn keeps<Q: AABBQuery<B>>(self, q: Q) -> spec_fn(int) -> bool {
        |i: int| q.relation(&self.leaves[i].bound) != AABBRelation::Interleave
    }

    /// What a scan of the whole leaf list keeps: the indices of the leaves
    /// from whose bound the body `q` is not disjoint, in ascending order.
    pub open spec fn scan<Q: AABBQuery<B>>(self, q: Q) -> Seq<int> {
        range(0, self.leaves.len() as int).filter(self.keeps(q))
    }

    /// A reference leads to at most one shape.
    pub proof fn lemma_encodes_unique(self, id: usize, t1: Shape, t2: Shape)
        requires
            self.encodes(id, t1),
            self.encodes(id, t2),
        ensures
            t1 == t2,
        decreases t1,
    {
        match t1 {
            Shape::Leaf { .. } => {},
            Shape::Branch { branch, left, right } => {
                match t2 {
                    Shape::Leaf { .. } => {},
                    Shape::Branch { branch: b2, left: l2, right: r2 } => {
                        self.lemma_encodes_unique(self.branches[branch].left, *left, *l2);
                        self.lemma_encodes_unique(self.branches[branch].right, *right, *r2);
                    },
                }
            },
        }
    }

    /// No more than one shape describes a hierarchy: what a query yields
    /// does not depend on a choice.
    pub proof fn lemma_describes_unique(self, t: Shape)
        requires
            self.describes(t),
        ensures
            self.shape() == t,
    {
        self.lemma_encodes_unique(self.root, t, self.shape());
    }

    /// No more than one shape hangs from a branch.
    pub proof fn lemma_hangs_unique(self, branch: int, t: Shape)
        requires
            self.hangs(branch, t),
        ensures
            self.carries(branch),
            self.below(branch) == t,
    {
        let other = self.below(branch);
        self.lemma_encodes_unique(self.branches[branch].left, *t->left, *other->left);
        self.lemma_encodes_unique(self.branches[branch].right, *t->right, *other->right);
    }

    /// Every leaf of an encoded shape is a leaf of the list.
    pub proof fn lemma_encodes_bounds(self, id: usize, t: Shape)
        requires
            self.encodes(id, t),
        ensures
            0 <= t.first() < self.leaves.len(),
            0 <= t.last() < self.leaves.len(),
        decreases t,
    {
        match t {
            Shape::Leaf { .. } => {},
            Shape::Branch { branch, left, right } => {
                self.lemma_encodes_bounds(self.branches[branch].left, *left);
                self.lemma_encodes_bounds(self.branches[branch].right, *right);
            },
        }
    }

    /// The two children of a branch in order are different nodes.
    pub proof fn lemma_children_differ(self, id: usize, t: Shape)
        requires
            self.encodes(id, t),
            t.in_order(),
            t is Branch,
        ensures
            self.branches[t->branch].left != self.branches[t->branch].right,
    {
        let l = *t->left;
        let r = *t->right;
        if self.branches[t->branch].left == self.branches[t->branch].right {
            self.lemma_encodes_unique(self.branches[t->branch].left, l, r);
            l.lemma_in_order_span();
        }
    }

    /// A query over an empty hierarchy yields nothing.
    pub proof fn lemma_empty_yields_nothing<Q: AABBQuery<B>>(self, q: Q)
        requires
            self.leaves.len() == 0,
        ensures
            self.hits(q) == Seq::<int>::empty(),
    {
    }

    /// A query body that contains every bound yields all the leaves, in the
    /// order of the leaf list.
    pub proof fn lemma_include_yields_all<Q: AABBQuery<B>>(self, q: Q)
        requires
            self.wf(),
            forall|b: B| #[trigger] q.relation(&b) == AABBRelation::Include,
        ensures
            self.hits(q) == range(0, self.leaves.len() as int),
    {
        if self.leaves.len() > 0 {
            self.shape().lemma_in_order_span();
        }
    }

    /// A query body that is disjoint from every bound yields nothing.
    pub proof fn lemma_interleave_yields_nothing<Q: AABBQuery<B>>(self, q: Q)
        requires
            self.wf(),
            forall|b: B| #[trigger] q.relation(&b) == AABBRelation::Interleave,
        ensures
            self.hits(q) == Seq::<int>::empty(),
    {

    }

    /// The answers of the body `q` agree along the subtree `t`: where it is
    /// disjoint from the bound of a branch it is disjoint from the bound of
    /// every leaf below, and where it contains the bound of a branch it is
    /// disjoint from the bound of no leaf below.
    pub open spec fn consistent<Q: AABBQuery<B>>(self, t: Shape, q: Q) -> bool
        decreases t,
    {
        match t {
            Shape::Leaf { .. } => true,
            Shape::Branch { branch, left, right } => {
                &&& q.relation(&self.branches[branch].bound) == AABBRelation::Interleave
                    ==> forall|i: int| t.first() <= i <= t.last() ==> !(#[trigger] self.keeps(q)(i))
                &&& q.relation(&self.branches[branch].bound) == AABBRelation::Include
                    ==> forall|i: int| t.first() <= i <= t.last() ==> #[trigger] self.keeps(q)(i)
                &&& self.consistent(*left, q)
                &&& self.consistent(*right, q)
            },
        }
    }

    /// Along a subtree where the answers of the body `q` agree, the
    /// traversal yields what a scan of the subtree's run of leaves keeps:
    /// pruning loses nothing and the shortcut adds nothing.
    pub proof fn lemma_visit_is_scan<Q: AABBQuery<B>>(self, t: Shape, q: Q)
        requires
            t.in_order(),
            self.consistent(t, q),
        ensures
            self.visit(t, q) == range(t.first(), t.last() + 1).filter(self.keeps(q)),
        decreases t,
    {
        let keep = self.keeps(q);
        let run = range(t.first(), t.last() + 1);
        t.lemma_in_order_span();
        match t {
            Shape::Leaf { .. } => {
                reveal_with_fuel(Seq::filter, 2);
            },
            Shape::Branch { branch, left, right } => {
                match q.relation(&self.branches[branch].bound) {
                    AABBRelation::Interleave => {
                        lemma_filter_none(run, keep);
                    },
                    AABBRelation::Include => {
                        lemma_filter_all(run, keep);
                    },
                    AABBRelation::Intersect => {
                        self.lemma_visit_is_scan(*left, q);
                        self.lemma_visit_is_scan(*right, q);
                        left.lemma_in_order_span();
                        right.lemma_in_order_span();
                        let low = range(left.first(), left.last() + 1);
                        let high = range(right.first(), right.last() + 1);
                        assert(run =~= low + high);
                        Seq::filter_distributes_over_add(low, high, keep);
                    },
                }
            },
        }
    }

    /// Where the answers of the query body agree along the whole hierarchy,
    /// the query yields what a scan of the whole leaf list keeps, in the
    /// order of the leaf list.
    pub proof fn lemma_consistent_yields_scan<Q: AABBQuery<B>>(self, q: Q)
        requires
            self.wf(),
            self.leaves.len() > 0 ==> self.consistent(self.shape(), q),
        ensures
            self.hits(q) == self.scan(q),
    {
        if self.leaves.len() > 0 {
            self.lemma_visit_is_scan(self.shape(), q);
        }
    }

    /// The answers of a body that overlaps every branch without containing
    /// it agree along every subtree.
    pub proof fn lemma_intersect_is_consistent<Q: AABBQuery<B>>(self, id: usize, t: Shape, q: Q)
        requires
            self.encodes(id, t),
            forall|j: int|
                0 <= j < self.branches.len() ==> q.relation(&(#[trigger] self.branches[j]).bound)
                    == AABBRelation::Intersect,
        ensures
            self.consistent(t, q),
        decreases t,
    {
        match t {
            Shape::Leaf { .. } => {},
            Shape::Branch { branch, left, right } => {
                self.lemma_intersect_is_consistent(self.branches[branch].left, *left, q);
                self.lemma_intersect_is_consistent(self.branches[branch].right, *right, q);
            },
        }
    }

    /// Where the query body overlaps every branch without containing it, the
    /// query yields what a scan of the whole leaf list keeps, in the order of
    /// the leaf list.
    pub proof fn lemma_intersect_yields_scan<Q: AABBQuery<B>>(self, q: Q)
        requires
            self.wf(),
            forall|j: int|
                0 <= j < self.branches.len() ==> q.relation(&(#[trigger] self.branches[j]).bound)
                    == AABBRelation::Intersect,
        ensures
            self.hits(q) == self.scan(q),
    {
        if self.leaves.len() > 0 {
            self.lemma_intersect_is_consistent(self.root, self.shape(), q);
        }
        self.lemma_consistent_yields_scan(q);
    }

    /// The height of the hierarchy: the number of nodes on the longest way
    /// from the root down to a leaf, and 0 for the empty hierarchy.
    pub open spec fn height(self) -> nat {
        if self.leaves.len() == 0 {
            0
        } else {
            self.shape().height()
        }
    }

    /// What a subtree in order yields are leaves of its own run, in ascending
    /// order.
    pub proof fn lemma_visit_ascending<Q: AABBQuery<B>>(self, t: Shape, q: Q)
        requires
            t.in_order(),
        ensures
            ascending(self.visit(t, q)),
            forall|k: int|
                0 <= k < self.visit(t, q).len() ==> t.first() <= #[trigger] self.visit(t, q)[k]
                    <= t.last(),
        decreases t,
    {
        match t {
            Shape::Leaf { .. } => {},
            Shape::Branch { left, right, .. } => {
                self.lemma_visit_ascending(*left, q);
                self.lemma_visit_ascending(*right, q);
                left.lemma_in_order_span();
                right.lemma_in_order_span();
            },
        }
    }

    /// A query yields leaves of the list in the order of the list, none of
    /// them twice.
    pub proof fn lemma_hits_ascending<Q: AABBQuery<B>>(self, q: Q)
        requires
            self.wf(),
        ensures
            ascending(self.hits(q)),
            forall|k: int|
                0 <= k < self.hits(q).len() ==> 0 <= #[trigger] self.hits(q)[k]
                    < self.leaves.len(),
    {
        if self.leaves.len() > 0 {
            self.lemma_visit_ascending(self.shape(), q);
        }
    }
}

/// An immutable bounding volume hierarchy: a strict binary tree whose
/// branches hold a bound and two child references, and whose leaves hold a
/// bound and a payload.
///
/// Branches and leaves are kept in two separate lists. The leaves are stored
/// in the order in which the tree meets them from left to right, so that the
/// leaves below any branch are a contiguous run of the leaf list.
pub struct BVH<B, V> {
    pub(crate) root: usize,
    pub(crate) branches: Vec<BVHBranch<B>>,
    pub(crate) leaves: Vec<BVHLeaf<B, V>>,
}

impl<B, V> View for BVH<B, V> {
    type V = Layout<B, V>;

    open(crate) spec fn view(&self) -> Layout<B, V> {
        Layout { root: self.root, branches: self.branches@, leaves: self.leaves@ }
    }
}

/// Splits a node reference into the index it carries and its tag: whether it
/// refers to a branch.
pub fn decompose(id: usize) -> (r: (usize, bool))
    ensures
        r.0 == id / 2,
        r.1 == (id % 2 == 1),
{
    assert(id >> 1 == id / 2) by (bit_vector);
    assert((id & 1 != 0) == (id % 2 == 1)) by (bit_vector);
    (id >> 1, (id & 1) != 0)
}

impl<B, V> BVH<B, V> {
    #[verifier::type_invariant]
    pub open(crate) spec fn inv(self) -> bool {
        self@.wf()
    }

    /// Takes over a hierarchy that was assembled elsewhere.
    pub fn new(root: usize, branches: Vec<BVHBranch<B>>, leaves: Vec<BVHLeaf<B, V>>) -> (r: Self)
        requires
            (Layout { root: root, branches: branches@, leaves: leaves@ }).wf(),
        ensures
            r@ == (Layout { root: root, branches: branches@, leaves: leaves@ }),
    {
        BVH { root, branches, leaves }
    }

    /// Takes over a hierarchy that was assembled elsewhere, if it is well
    /// formed, and only then.
    pub fn try_new(root: usize, branches: Vec<BVHBranch<B>>, leaves: Vec<BVHLeaf<B, V>>) -> (r:
        Option<Self>)
        ensures
            match r {
                Some(bvh) => {
                    &&& bvh@ == (Layout { root: root, branches: branches@, leaves: leaves@ })
                    &&& bvh@.wf()
                },
                None => !(Layout { root: root, branches: branches@, leaves: leaves@ }).wf(),
            },
    {
        if is_well_formed(root, &branches, &leaves) {
            Some(BVH { root, branches, leaves })
        } else {
            None
        }
    }

    /// The index of the leftmost leaf below the branch with the index
    /// `branch`: the leaf reached by always descending to the left.
    pub fn leftmost(&self, branch: usize) -> (r: usize)
        requires
            branch < self@.branches.len(),
        ensures
            self@.carries(branch as int),
            r == self@.below(branch as int).first(),
    {
        proof {
            use_type_invariant(self);
            self@.lemma_every_branch_carries(branch as int);
        }
        let ghost t = self@.below(branch as int);
        let mut node = &self.branches[branch];
        let ghost mut cur = t;
        loop
            invariant
                cur is Branch,
                0 <= cur->branch < self.branches.len(),
                *node == self.branches[cur->branch],
                self@.encodes(node.left, *cur->left),
                cur.first() == t.first(),
                t == self@.below(branch as int),
                self@.carries(branch as int),
            decreases cur.nodes(),
        {
            let (id, is_branch) = decompose(node.left);
            if !is_branch {
                proof {
                    let end = *cur->left;
                    assert(cur.first() == end.first());
                }
                return id;
            }
            proof {
                cur = *cur->left;
            }
            node = &self.branches[id];
        }
    }

    /// The index of the rightmost leaf below the branch with the index
    /// `branch`: the leaf reached by always descending to the right.
    pub fn rightmost(&self, branch: usize) -> (r: usize)
        requires
            branch < self@.branches.len(),
        ensures
            self@.carries(branch as int),
            r == self@.below(branch as int).last(),
    {
        proof {
            use_type_invariant(self);
            self@.lemma_every_branch_carries(branch as int);
        }
        let ghost t = self@.below(branch as int);
        let mut node = &self.branches[branch];
        let ghost mut cur = t;
        loop
            invariant
                cur is Branch,
                0 <= cur->branch < self.branches.len(),
                *node == self.branches[cur->branch],
                self@.encodes(node.right, *cur->right),
                cur.last() == t.last(),
                t == self@.below(branch as int),
                self@.carries(branch as int),
            decreases cur.nodes(),
        {
            let (id, is_branch) = decompose(node.right);
            if !is_branch {
                proof {
                    let end = *cur->right;
                    assert(cur.last() == end.last());
                }
                return id;
            }
            proof {
                cur = *cur->right;
            }
            node = &self.branches[id];
        }
    }

    /// Starts a traversal that yields, one at a time, the payloads of the
    /// leaves that the query body `q` hits, in the order of the leaf list.
    ///
    /// Nothing is visited before the first payload is asked for. Each call
    /// starts a traversal of its own.
    pub fn query<'a, 'b, Q: AABBQuery<B>>(&'b self, q: &'a Q) -> (e: Enumerator<'a, 'b, B, V, Q>)
        ensures
            e.wf(),
            e.hierarchy() == self,
            e.body() == q,
            e.remaining() == self@.hits(*q),
            self@.leaves.len() == 0 ==> e.remaining() == Seq::<int>::empty(),
            e.depth() <= self@.height(),
    {
        Enumerator::new(self, q)
    }
}

} // verus!
