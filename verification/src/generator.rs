//! The traversal of a hierarchy as a state that is resumed for one payload at
//! a time.

use vstd::prelude::*;

use crate::aabb::{AABBQuery, AABBRelation};
use crate::bvh::{decompose, range, Layout, Shape, BVH};

verus! {

/// The node `child_id` with the shape `child` is one of the two children of
/// the branch with the shape `parent`.
spec fn child_of<B, V>(lay: Layout<B, V>, parent: Shape, child_id: usize, child: Shape) -> bool {
    &&& parent is Branch
    &&& {
        ||| child_id == lay.branches[parent->branch].left && child == *parent->left
        ||| child_id == lay.branches[parent->branch].right && child == *parent->right
    }
}

/// The stack holds a path of the hierarchy: each entry is a reference to a
/// node whose shape stands at the same place in `path`, and each entry but
/// the first is a child of the entry below it.
spec fn linked<B, V>(lay: Layout<B, V>, stack: Seq<usize>, path: Seq<Shape>) -> bool
    decreases stack.len(),
{
    &&& stack.len() == path.len()
    &&& stack.len() > 0 ==> {
        &&& lay.encodes(stack.last(), path.last())
        &&& path.last().in_order()
        &&& stack.len() > 1 ==> child_of(lay, path[stack.len() - 2], stack.last(), path.last())
        &&& linked(lay, stack.drop_last(), path.drop_last())
    }
}

/// What is still to be yielded once the subtree at the top of the stack is
/// done: for each entry that is the left child of the entry below it, from
/// the top down, what the right child of that entry yields.
spec fn after<B, V, Q: AABBQuery<B>>(
    lay: Layout<B, V>,
    q: Q,
    stack: Seq<usize>,
    path: Seq<Shape>,
) -> Seq<int>
    decreases stack.len(),
{
    if stack.len() <= 1 {
        Seq::empty()
    } else {
        let parent = path[stack.len() - 2];
        let turn = if stack.last() == lay.branches[parent->branch].left {
            lay.visit(*parent->right, q)
        } else {
            Seq::empty()
        };
        turn + after(lay, q, stack.drop_last(), path.drop_last())
    }
}

/// The number of nodes that `after` speaks of.
spec fn after_cost<B, V>(lay: Layout<B, V>, stack: Seq<usize>, path: Seq<Shape>) -> nat
    decreases stack.len(),
{
    if stack.len() <= 1 {
        0
    } else {
        let parent = path[stack.len() - 2];
        let turn = if stack.last() == lay.branches[parent->branch].left {
            (*parent->right).nodes()
        } else {
            0
        };
        turn + after_cost(lay, stack.drop_last(), path.drop_last())
    }
}

/// What the traversal yields from the stack: what the subtree at the top
/// yields, then what follows it.
spec fn ahead<B, V, Q: AABBQuery<B>>(
    lay: Layout<B, V>,
    q: Q,
    stack: Seq<usize>,
    path: Seq<Shape>,
) -> Seq<int> {
    if stack.len() == 0 {
        Seq::empty()
    } else {
        lay.visit(path.last(), q) + after(lay, q, stack, path)
    }
}

/// The number of nodes that `ahead` speaks of.
spec fn ahead_cost<B, V>(lay: Layout<B, V>, stack: Seq<usize>, path: Seq<Shape>) -> nat {
    if stack.len() == 0 {
        0
    } else {
        path.last().nodes() + after_cost(lay, stack, path)
    }
}

/// The subtree at the end of a path lies as deep in the subtree at its start
/// as the path is long: a path is no longer than its first subtree is high.
proof fn lemma_path_height<B, V>(lay: Layout<B, V>, stack: Seq<usize>, path: Seq<Shape>)
    requires
        linked(lay, stack, path),
        stack.len() > 0,
    ensures
        stack.len() + path.last().height() <= path[0].height() + 1,
        path.last().height() >= 1,
    decreases stack.len(),
{
    if stack.len() > 1 {
        lemma_path_height(lay, stack.drop_last(), path.drop_last());
    }
}

/// A traversal of a hierarchy that is suspended between two payloads.
///
/// It holds the stack of pending node references, which is never deeper than
/// the hierarchy is high, and the run of leaves that a branch contained in
/// the query body left to be yielded.
pub struct Enumerator<'a, 'b, B, V, Q: AABBQuery<B>> {
    bvh: &'b BVH<B, V>,
    body: &'a Q,
    stack: Vec<usize>,
    next_leaf: usize,
    end_leaf: usize,
    path: Ghost<Seq<Shape>>,
}

impl<'a, 'b, B, V, Q: AABBQuery<B>> Enumerator<'a, 'b, B, V, Q> {
    /// The traversal is in a state that `new` and `next` can leave it in.
    pub closed spec fn wf(&self) -> bool {
        &&& self.bvh@.wf()
        &&& linked(self.bvh@, self.stack@, self.path@)
        &&& self.stack@.len() > 0 ==> self.path@[0] == self.bvh@.shape()
            && self.bvh@.leaves.len() > 0
        &&& self.next_leaf <= self.end_leaf <= self.bvh@.leaves.len()
    }

    /// The number of pending node references: how deep the traversal stands
    /// in the hierarchy.
    pub closed spec fn depth(&self) -> nat {
        self.stack@.len()
    }

    /// The stack of pending node references is never deeper than the
    /// hierarchy is high.
    pub proof fn lemma_depth_bounded(&self)
        requires
            self.wf(),
        ensures
            self.depth() <= self.hierarchy()@.height(),
    {
        if self.stack@.len() > 0 {
            lemma_path_height(self.bvh@, self.stack@, self.path@);
        }
    }

    /// The hierarchy that is traversed.
    pub closed spec fn hierarchy(&self) -> &'b BVH<B, V> {
        self.bvh
    }

    /// The query body that steers the traversal.
    pub closed spec fn body(&self) -> &'a Q {
        self.body
    }

    /// The indices of the leaves whose payloads are still to be yielded, in
    /// the order in which they will be.
    pub closed spec fn remaining(&self) -> Seq<int> {
        range(self.next_leaf as int, self.end_leaf as int) + ahead(
            self.bvh@,
            *self.body,
            self.stack@,
            self.path@,
        )
    }

    /// Starts a traversal of `bvh` for the query body `q`, with the root as
    /// the only pending node.
    pub fn new(bvh: &'b BVH<B, V>, q: &'a Q) -> (e: Self)
        ensures
            e.wf(),
            e.hierarchy() == bvh,
            e.body() == q,
            e.remaining() == bvh@.hits(*q),
            e.depth() <= bvh@.height(),
    {
        proof {
            use_type_invariant(bvh);
        }
        let mut stack: Vec<usize> = Vec::new();
        let ghost mut path: Seq<Shape> = Seq::empty();
        if bvh.leaves.len() != 0 {
            stack.push(bvh.root);
            proof {
                path = seq![bvh@.shape()];
            }
        }
        let e = Enumerator { bvh, body: q, stack, next_leaf: 0, end_leaf: 0, path: Ghost(path) };
        proof {
            if bvh@.leaves.len() != 0 {
                assert(linked(bvh@, e.stack@.drop_last(), e.path@.drop_last()));
            }
        }
        e
    }

    /// Leaves the node at the top of the stack: ascends as long as the node
    /// left was a right child, and descends into the right sibling of the
    /// first node that was a left child.
    fn backtrack(&mut self)
        requires
            old(self).wf(),
            old(self).stack@.len() > 0,
        ensures
            final(self).wf(),
            final(self).bvh == old(self).bvh,
            final(self).body == old(self).body,
            final(self).next_leaf == old(self).next_leaf,
            final(self).end_leaf == old(self).end_leaf,
            ahead(final(self).bvh@, *final(self).body, final(self).stack@, final(self).path@)
                == after(old(self).bvh@, *old(self).body, old(self).stack@, old(self).path@),
            ahead_cost(final(self).bvh@, final(self).stack@, final(self).path@) == after_cost(
                old(self).bvh@,
                old(self).stack@,
                old(self).path@,
            ),
    {
        let bvh = self.bvh;
        let ghost lay = self.bvh@;
        let ghost q = *self.body;
        let ghost want = after(lay, q, self.stack@, self.path@);
        let ghost want_cost = after_cost(lay, self.stack@, self.path@);
        let ghost mut oldshape = self.path@.last();
        let mut oldtop: usize = self.stack.pop().unwrap();
        self.path = Ghost(self.path@.drop_last());
        assert(self.stack@.push(oldtop) =~= old(self).stack@);
        assert(self.path@.push(oldshape) =~= old(self).path@);
        while self.stack.len() > 0
            invariant
                self.bvh == old(self).bvh,
                bvh == self.bvh,
                lay == self.bvh@,
                lay.wf(),
                self.body == old(self).body,
                q == *self.body,
                self.next_leaf == old(self).next_leaf,
                self.end_leaf == old(self).end_leaf,
                self.next_leaf <= self.end_leaf <= lay.leaves.len(),
                want == after(old(self).bvh@, *old(self).body, old(self).stack@, old(self).path@),
                want_cost == after_cost(old(self).bvh@, old(self).stack@, old(self).path@),
                linked(lay, self.stack@.push(oldtop), self.path@.push(oldshape)),
                self.path@.push(oldshape)[0] == lay.shape(),
                lay.leaves.len() > 0,
                after(lay, q, self.stack@.push(oldtop), self.path@.push(oldshape)) == want,
                after_cost(lay, self.stack@.push(oldtop), self.path@.push(oldshape)) == want_cost,
            decreases self.stack.len(),
        {
            let ghost below = self.stack@;
            let ghost below_path = self.path@;
            let ghost parent = below_path.last();
            let newtop: usize = self.stack[self.stack.len() - 1];
            let (index, _is_branch) = decompose(newtop);
            proof {
                assert(below.push(oldtop).drop_last() =~= below);
                assert(below_path.push(oldshape).drop_last() =~= below_path);
                assert(linked(lay, below, below_path));
            }
            let node = &bvh.branches[index];
            if oldtop == node.left {
                self.stack.push(node.right);
                self.path = Ghost(self.path@.push(*parent->right));
                proof {
                    lay.lemma_children_differ(newtop, parent);
                    assert(self.stack@.drop_last() =~= below);
                    assert(self.path@.drop_last() =~= below_path);
                }
                return ;
            } else {
                self.stack.pop();
                self.path = Ghost(self.path@.drop_last());
                oldtop = newtop;
                proof {
                    oldshape = parent;
                    assert(self.stack@.push(oldtop) =~= below);
                    assert(self.path@.push(oldshape) =~= below_path);
                }
            }
        }
    }

    /// Resumes the traversal up to the next payload and yields it, or
    /// `None` once the traversal is over.
    ///
    /// The payload is that of the first leaf of `remaining`, which then
    /// loses it. Nothing beyond that leaf is visited.
    pub fn next(&mut self) -> (r: Option<&'b V>)
        requires
            old(self).wf(),
        ensures
            final(self).wf(),
            final(self).hierarchy() == old(self).hierarchy(),
            final(self).body() == old(self).body(),
            final(self).depth() <= final(self).hierarchy()@.height(),
            match r {
                Some(v) => {
                    &&& old(self).remaining().len() > 0
                    &&& 0 <= old(self).remaining()[0] < old(self).hierarchy()@.leaves.len()
                    &&& *v == old(self).hierarchy()@.leaves[old(self).remaining()[0]].value
                    &&& final(self).remaining() == old(self).remaining().skip(1)
                },
                None => old(self).remaining().len() == 0 && final(self).remaining().len() == 0,
            },
    {
        let bvh = self.bvh;
        let ghost lay = self.bvh@;
        let ghost q = *self.body;
        loop
            invariant
                self.wf(),
                self.bvh == old(self).bvh,
                bvh == self.bvh,
                lay == self.bvh@,
                self.body == old(self).body,
                q == *self.body,
                self.remaining() == old(self).remaining(),
            decreases ahead_cost(lay, self.stack@, self.path@),
        {
            if self.next_leaf < self.end_leaf {
                let v = &bvh.leaves[self.next_leaf].value;
                self.next_leaf = self.next_leaf + 1;
                proof {
                    self.lemma_depth_bounded();
                }
                return Some(v);
            }
            if self.stack.len() == 0 {
                return None;
            }
            let ghost stack = self.stack@;
            let ghost path = self.path@;
            let ghost t = self.path@.last();
            let top: usize = self.stack[self.stack.len() - 1];
            let (id, is_branch) = decompose(top);
            proof {
                lay.lemma_encodes_bounds(top, t);
                t.lemma_in_order_span();
            }
            if is_branch {
                let branch = &bvh.branches[id];
                match self.body.check(&branch.bound) {
                    AABBRelation::Interleave => {
                        self.backtrack();
                    },
                    AABBRelation::Intersect => {
                        self.stack.push(branch.left);
                        self.path = Ghost(self.path@.push(*t->left));
                        proof {
                            assert(self.stack@.drop_last() =~= stack);
                            assert(self.path@.drop_last() =~= path);
                        }
                    },
                    AABBRelation::Include => {
                        proof {
                            lay.lemma_hangs_unique(id as int, t);
                        }
                        assert(lay.leaves.len() == bvh.leaves.len());
                        let low: usize = bvh.leftmost(id);
                        let high: usize = bvh.rightmost(id);
                        self.next_leaf = low;
                        self.end_leaf = high + 1;
                        self.backtrack();
                    },
                }
            } else {
                let leaf = &bvh.leaves[id];
                match self.body.check(&leaf.bound) {
                    AABBRelation::Interleave => {},
                    _ => {
                        self.next_leaf = id;
                        self.end_leaf = id + 1;
                    },
                }
                self.backtrack();
            }
        }
    }

    /// Runs the traversal to its end and gathers what it yields.
    pub fn collect(self) -> (out: Vec<&'b V>)
        requires
            self.wf(),
        ensures
            out@.len() == self.remaining().len(),
            forall|k: int|
                0 <= k < out@.len() ==> {
                    &&& 0 <= #[trigger] self.remaining()[k] < self.hierarchy()@.leaves.len()
                    &&& *out@[k] == self.hierarchy()@.leaves[self.remaining()[k]].value
                },
    {
        let mut cursor = self;
        let mut out: Vec<&'b V> = Vec::new();
        loop
            invariant
                cursor.wf(),
                cursor.hierarchy() == self.hierarchy(),
                out@.len() + cursor.remaining().len() == self.remaining().len(),
                cursor.remaining() == self.remaining().skip(out@.len() as int),
                forall|k: int|
                    0 <= k < out@.len() ==> {
                        &&& 0 <= #[trigger] self.remaining()[k] < self.hierarchy()@.leaves.len()
                        &&& *out@[k] == self.hierarchy()@.leaves[self.remaining()[k]].value
                    },
            decreases cursor.remaining().len(),
        {
            match cursor.next() {
                Some(v) => {
                    out.push(v);
                },
                None => {
                    return out;
                },
            }
        }
    }
}

} // verus!
