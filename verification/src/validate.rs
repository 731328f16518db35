//! The test that tells whether two node lists and a root reference make up
//! a hierarchy.

use vstd::prelude::*;

use crate::bvh::{decompose, BVHBranch, BVHLeaf, Layout, Shape};

verus! {

impl<B, V> Layout<B, V> {
    /// A tour of the nodes that hang from the pending references, the last
    /// of them first and each left subtree before the right one: it has to
    /// meet the leaves in the order of their indices, beginning with `next`,
    /// and may pass no more than `budget` branches. The tour ends behind the
    /// last leaf it has met, or fails.
    pub open spec fn tour(self, pending: Seq<usize>, next: int, budget: nat) -> Option<int>
        decreases budget + self.leaves.len() - next,
    {
        if pending.len() == 0 {
            Some(next)
        } else if next < 0 || next > self.leaves.len() {
            None
        } else {
            let id = pending.last();
            let rest = pending.drop_last();
            let index = id as int / 2;
            if id % 2 == 0 {
                if index == next && next < self.leaves.len() {
                    self.tour(rest, next + 1, budget)
                } else {
                    None
                }
            } else {
                if index < self.branches.len() && budget > 0 {
                    self.tour(
                        rest.push(self.branches[index].right).push(self.branches[index].left),
                        next,
                        (budget - 1) as nat,
                    )
                } else {
                    None
                }
            }
        }
    }

    /// A tour that passes the node `id` and goes on has found a subtree in
    /// order under it, and goes on behind that subtree.
    pub proof fn lemma_tour_finds_shape(
        self,
        rest: Seq<usize>,
        id: usize,
        next: int,
        budget: nat,
    ) -> (t: Shape)
        requires
            0 <= next <= self.leaves.len(),
            self.tour(rest.push(id), next, budget) is Some,
        ensures
            self.encodes(id, t),
            t.in_order(),
            t.first() == next,
            next <= t.last() < self.leaves.len(),
            t.branch_count() <= budget,
            self.tour(rest.push(id), next, budget) == self.tour(
                rest,
                t.last() + 1,
                (budget - t.branch_count()) as nat,
            ),
        decreases budget + self.leaves.len() - next,
    {
        let pending = rest.push(id);
        assert(pending.drop_last() =~= rest);
        let index = id as int / 2;
        if id % 2 == 0 {
            Shape::Leaf { leaf: index }
        } else {
            let left_id = self.branches[index].left;
            let right_id = self.branches[index].right;
            let left = self.lemma_tour_finds_shape(
                rest.push(right_id),
                left_id,
                next,
                (budget - 1) as nat,
            );
            let right = self.lemma_tour_finds_shape(
                rest,
                right_id,
                left.last() + 1,
                (budget - 1 - left.branch_count()) as nat,
            );
            let t = Shape::Branch { branch: index, left: Box::new(left), right: Box::new(right) };
            t
        }
    }

    /// A tour passes a subtree in order that begins with the leaf it is to
    /// meet next, if its budget holds out, and goes on behind the subtree.
    pub proof fn lemma_tour_passes_shape(
        self,
        rest: Seq<usize>,
        id: usize,
        t: Shape,
        budget: nat,
    )
        requires
            self.encodes(id, t),
            t.in_order(),
            t.branch_count() <= budget,
        ensures
            self.tour(rest.push(id), t.first(), budget) == self.tour(
                rest,
                t.last() + 1,
                (budget - t.branch_count()) as nat,
            ),
        decreases t,
    {
        let pending = rest.push(id);
        assert(pending.drop_last() =~= rest);
        match t {
            Shape::Leaf { .. } => {},
            Shape::Branch { branch, left, right } => {
                let left_id = self.branches[branch].left;
                let right_id = self.branches[branch].right;
                self.lemma_tour_passes_shape(
                    rest.push(right_id),
                    left_id,
                    *left,
                    (budget - 1) as nat,
                );
                self.lemma_tour_passes_shape(
                    rest,
                    right_id,
                    *right,
                    (budget - 1 - left.branch_count()) as nat,
                );
            },
        }
    }

    /// A hierarchy with leaves is well formed just where it has one branch
    /// less than it has leaves and a tour from its root meets all its leaves
    /// in order.
    pub proof fn lemma_wf_is_tour(self)
        requires
            self.leaves.len() > 0,
        ensures
            self.wf() <==> {
                &&& self.branches.len() + 1 == self.leaves.len()
                &&& self.tour(seq![self.root], 0, self.branches.len()) == Some(
                    self.leaves.len() as int,
                )
            },
    {
        let start = seq![self.root];
        let none = Seq::<usize>::empty();
        if self.wf() {
            let t = self.shape();
            t.lemma_in_order_span();
            self.lemma_tour_passes_shape(none, self.root, t, self.branches.len());
        }
        if self.branches.len() + 1 == self.leaves.len() && self.tour(
            start,
            0,
            self.branches.len(),
        ) == Some(self.leaves.len() as int) {
            let t = self.lemma_tour_finds_shape(none, self.root, 0, self.branches.len());
            assert(self.describes(t));
        }
    }
}

/// Whether the root reference and the two node lists make up a well-formed
/// hierarchy.
///
/// The nodes are toured from the root with a stack of pending references.
/// The tour takes no more steps than there are nodes: a reference that
/// leads round in a circle, or to a node that was met before, ends it.
pub fn is_well_formed<B, V>(
    root: usize,
    branches: &Vec<BVHBranch<B>>,
    leaves: &Vec<BVHLeaf<B, V>>,
) -> (ok: bool)
    ensures
        ok == (Layout { root: root, branches: branches@, leaves: leaves@ }).wf(),
{
    let ghost lay = Layout { root: root, branches: branches@, leaves: leaves@ };
    let count: usize = leaves.len();
    if count == 0 {
        return branches.len() == 0 && root == 0;
    }
    if branches.len() != count - 1 {
        return false;
    }
    proof {
        lay.lemma_wf_is_tour();
    }
    let mut pending: Vec<usize> = Vec::new();
    pending.push(root);
    let mut next: usize = 0;
    let mut budget: usize = branches.len();
    while pending.len() > 0
        invariant
            lay == (Layout { root: root, branches: branches@, leaves: leaves@ }),
            count == leaves.len(),
            count == branches.len() + 1,
            next <= count,
            lay.wf() <==> lay.tour(seq![root], 0, branches.len() as nat) == Some(count as int),
            lay.tour(pending@, next as int, budget as nat) == lay.tour(
                seq![root],
                0,
                branches.len() as nat,
            ),
        decreases budget + count - next,
    {
        let id: usize = pending.pop().unwrap();
        let (index, is_branch) = decompose(id);
        if is_branch {
            if index >= branches.len() || budget == 0 {
                return false;
            }
            budget = budget - 1;
            pending.push(branches[index].right);
            pending.push(branches[index].left);
        } else {
            if index != next || next >= count {
                return false;
            }
            next = next + 1;
        }
    }
    next == count
}

} // verus!
