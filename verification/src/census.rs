//! Every branch of a well-formed hierarchy occurs in its tree, and occurs
//! once.

use vstd::prelude::*;
use vstd::set_lib::{lemma_int_range, lemma_set_disjoint_lens, lemma_subset_equality, set_int_range};

use crate::bvh::{Layout, Shape};

verus! {

impl Shape {
    /// The indices of the branches of the subtree.
    pub open spec fn branches(self) -> Set<int>
        decreases self,
    {
        match self {
            Shape::Leaf { .. } => Set::empty(),
            Shape::Branch { branch, left, right } => left.branches().union(
                right.branches(),
            ).insert(branch),
        }
    }
}

impl<B, V> Layout<B, V> {
    /// From a branch of a subtree in order hangs a subtree that lies within
    /// the run of leaves of the whole and is no larger than the whole.
    pub proof fn lemma_member_hangs(self, id: usize, t: Shape, k: int)
        requires
            self.encodes(id, t),
            t.in_order(),
            t.branches().contains(k),
        ensures
            self.carries(k),
            t.first() <= self.below(k).first() <= self.below(k).last() <= t.last(),
            self.below(k).nodes() <= t.nodes(),
        decreases t,
    {
        match t {
            Shape::Leaf { .. } => {},
            Shape::Branch { branch, left, right } => {
                left.lemma_in_order_span();
                right.lemma_in_order_span();
                if left.branches().contains(k) {
                    self.lemma_member_hangs(self.branches[branch].left, *left, k);
                } else if right.branches().contains(k) {
                    self.lemma_member_hangs(self.branches[branch].right, *right, k);
                } else {
                    self.lemma_hangs_unique(branch, t);
                }
            },
        }
    }

    /// No branch occurs twice in a subtree in order: the subtree has as many
    /// branches as it has indices of branches, all of them indices of the
    /// list.
    pub proof fn lemma_branches_counted(self, id: usize, t: Shape)
        requires
            self.encodes(id, t),
            t.in_order(),
        ensures
            t.branches().finite(),
            t.branches().len() == t.branch_count(),
            t.branches().subset_of(set_int_range(0, self.branches.len() as int)),
        decreases t,
    {
        match t {
            Shape::Leaf { .. } => {},
            Shape::Branch { branch, left, right } => {
                let left_id = self.branches[branch].left;
                let right_id = self.branches[branch].right;
                let low = left.branches();
                let high = right.branches();
                self.lemma_branches_counted(left_id, *left);
                self.lemma_branches_counted(right_id, *right);
                self.lemma_hangs_unique(branch, t);
                assert forall|k: int| low.contains(k) implies !high.contains(k) by {
                    if high.contains(k) {
                        self.lemma_member_hangs(left_id, *left, k);
                        self.lemma_member_hangs(right_id, *right, k);
                    }
                }
                lemma_set_disjoint_lens(low, high);
                if low.contains(branch) {
                    self.lemma_member_hangs(left_id, *left, branch);
                }
                if high.contains(branch) {
                    self.lemma_member_hangs(right_id, *right, branch);
                }
            },
        }
    }

    /// In a well-formed hierarchy a subtree hangs from every branch of the
    /// list.
    pub proof fn lemma_every_branch_carries(self, branch: int)
        requires
            self.wf(),
            0 <= branch < self.branches.len(),
        ensures
            self.carries(branch),
    {
        let t = self.shape();
        let all = set_int_range(0, self.branches.len() as int);
        t.lemma_in_order_span();
        self.lemma_branches_counted(self.root, t);
        lemma_int_range(0, self.branches.len() as int);
        lemma_subset_equality(t.branches(), all);
        self.lemma_member_hangs(self.root, t, branch);
    }
}

} // verus!
