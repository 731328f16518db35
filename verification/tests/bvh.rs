use rand::prng::chacha::ChaChaRng;
use rand::{Rng, SeedableRng};
use spatial::validate::is_well_formed;
use spatial::{decompose, AABBQuery, AABBRelation, BVHBranch, BVHLeaf, Enumerator, Plane3, Vec3, AABB3, BVH};
use std::cell::Cell;

/// A bound that only says what the node is: a branch or a leaf, and a key.
#[derive(Clone, Copy, Debug, PartialEq)]
struct Tag {
    branch: bool,
    key: i64,
}

struct Always(AABBRelation);

impl AABBQuery<Tag> for Always {
    fn check(&self, _bound: &Tag) -> AABBRelation {
        self.0
    }
}

/// Overlaps every branch, and holds the leaves with an even key.
struct EvenLeaves;

impl AABBQuery<Tag> for EvenLeaves {
    fn check(&self, bound: &Tag) -> AABBRelation {
        if bound.branch {
            AABBRelation::Intersect
        } else if bound.key % 2 == 0 {
            AABBRelation::Include
        } else {
            AABBRelation::Interleave
        }
    }
}

/// Answers by a table from keys to relations, and counts the questions.
struct Table {
    branches: Vec<AABBRelation>,
    leaves: Vec<AABBRelation>,
    asked: Cell<usize>,
}

impl AABBQuery<Tag> for Table {
    fn check(&self, bound: &Tag) -> AABBRelation {
        self.asked.set(self.asked.get() + 1);
        if bound.branch {
            self.branches[bound.key as usize]
        } else {
            self.leaves[bound.key as usize]
        }
    }
}

fn leaf(i: usize) -> usize {
    2 * i
}

fn branch(j: usize) -> usize {
    2 * j + 1
}

/// The tree
///
/// ```text
///            b0
///          /    \
///        b2      b1
///       /  \    /  \
///      l0  b3  l3  l4
///         /  \
///        l1  l2
/// ```
///
/// with the payload `10 * i` under the leaf `i`.
fn sample() -> BVH<Tag, i64> {
    let tag = |branch: bool, key: i64| Tag { branch, key };
    let branches = vec![
        BVHBranch { bound: tag(true, 0), left: branch(2), right: branch(1) },
        BVHBranch { bound: tag(true, 1), left: leaf(3), right: leaf(4) },
        BVHBranch { bound: tag(true, 2), left: leaf(0), right: branch(3) },
        BVHBranch { bound: tag(true, 3), left: leaf(1), right: leaf(2) },
    ];
    let leaves = (0..5).map(|i| BVHLeaf { bound: tag(false, i), value: 10 * i }).collect();
    BVH::new(branch(0), branches, leaves)
}

fn values(e: Enumerator<Tag, i64, impl AABBQuery<Tag>>) -> Vec<i64> {
    e.collect().into_iter().copied().collect()
}

#[test]
fn test_decompose() {
    assert_eq!(decompose(0), (0, false));
    assert_eq!(decompose(1), (0, true));
    assert_eq!(decompose(6), (3, false));
    assert_eq!(decompose(7), (3, true));
    assert_eq!(decompose(usize::MAX), (usize::MAX / 2, true));
}

#[test]
fn test_bvh_empty_yields_nothing() {
    let bvh: BVH<Tag, i64> = BVH::new(0, Vec::new(), Vec::new());
    for relation in [AABBRelation::Include, AABBRelation::Intersect, AABBRelation::Interleave] {
        let q = Always(relation);
        let mut e = bvh.query(&q);
        assert_eq!(e.next(), None);
        assert_eq!(e.next(), None);
        assert!(bvh.query(&q).collect().is_empty());
    }
}

#[test]
fn test_bvh_single_leaf() {
    let leaves = vec![BVHLeaf { bound: Tag { branch: false, key: 0 }, value: 42i64 }];
    let bvh = BVH::new(leaf(0), Vec::new(), leaves);
    assert_eq!(values(bvh.query(&Always(AABBRelation::Include))), vec![42]);
    assert_eq!(values(bvh.query(&Always(AABBRelation::Intersect))), vec![42]);
    assert_eq!(values(bvh.query(&Always(AABBRelation::Interleave))), Vec::<i64>::new());
}

#[test]
fn test_bvh_include_yields_all_leaves_in_order() {
    let bvh = sample();
    assert_eq!(values(bvh.query(&Always(AABBRelation::Include))), vec![0, 10, 20, 30, 40]);
}

#[test]
fn test_bvh_interleave_yields_nothing() {
    let bvh = sample();
    assert_eq!(values(bvh.query(&Always(AABBRelation::Interleave))), Vec::<i64>::new());
}

#[test]
fn test_bvh_intersect_everywhere_yields_all_leaves() {
    let bvh = sample();
    assert_eq!(values(bvh.query(&Always(AABBRelation::Intersect))), vec![0, 10, 20, 30, 40]);
}

#[test]
fn test_bvh_partial_branches_yield_the_scan() {
    let bvh = sample();
    assert_eq!(values(bvh.query(&EvenLeaves)), vec![0, 20, 40]);
}

fn table(branches: [AABBRelation; 4], leaves: [AABBRelation; 5]) -> Table {
    Table { branches: branches.to_vec(), leaves: leaves.to_vec(), asked: Cell::new(0) }
}

const IN: AABBRelation = AABBRelation::Include;
const CUT: AABBRelation = AABBRelation::Intersect;
const OUT: AABBRelation = AABBRelation::Interleave;

#[test]
fn test_bvh_disjoint_branch_prunes_its_subtree() {
    let bvh = sample();
    let q = table([CUT, CUT, OUT, CUT], [IN, IN, IN, IN, OUT]);
    assert_eq!(values(bvh.query(&q)), vec![30]);
    // The root, the branch 2, the branch 1 and its two leaves.
    assert_eq!(q.asked.get(), 5);
}

#[test]
fn test_bvh_included_branch_yields_its_run_untested() {
    let bvh = sample();
    let q = table([CUT, OUT, IN, OUT], [OUT, OUT, OUT, IN, IN]);
    assert_eq!(values(bvh.query(&q)), vec![0, 10, 20]);
    // The root, the branch 2 and the branch 1: no leaf is asked about.
    assert_eq!(q.asked.get(), 3);
}

#[test]
fn test_bvh_included_inner_branch() {
    let bvh = sample();
    let q = table([CUT, CUT, CUT, IN], [OUT, OUT, OUT, CUT, OUT]);
    assert_eq!(values(bvh.query(&q)), vec![10, 20, 30]);
}

#[test]
fn test_bvh_traversal_is_lazy() {
    let bvh = sample();
    let q = table([CUT, CUT, CUT, CUT], [IN, IN, IN, IN, IN]);
    let mut e = bvh.query(&q);
    assert_eq!(q.asked.get(), 0);
    assert_eq!(e.next(), Some(&0));
    // The root, the branch 2 and the leaf 0.
    assert_eq!(q.asked.get(), 3);
    assert_eq!(e.next(), Some(&10));
    // The branch 3 and the leaf 1.
    assert_eq!(q.asked.get(), 5);
    assert_eq!(e.next(), Some(&20));
    assert_eq!(q.asked.get(), 6);
    assert_eq!(e.next(), Some(&30));
    assert_eq!(q.asked.get(), 8);
    assert_eq!(e.next(), Some(&40));
    assert_eq!(q.asked.get(), 9);
    assert_eq!(e.next(), None);
    assert_eq!(e.next(), None);
    assert_eq!(q.asked.get(), 9);
}

#[test]
fn test_bvh_included_run_is_yielded_one_at_a_time() {
    let bvh = sample();
    let q = table([IN, OUT, OUT, OUT], [OUT, OUT, OUT, OUT, OUT]);
    let mut e = bvh.query(&q);
    for i in 0..5 {
        assert_eq!(e.next(), Some(&(10 * i)));
        assert_eq!(q.asked.get(), 1);
    }
    assert_eq!(e.next(), None);
}

#[test]
fn test_bvh_traversals_are_independent() {
    let bvh = sample();
    let all = Always(AABBRelation::Intersect);
    let even = EvenLeaves;
    let mut a = bvh.query(&all);
    let mut b = bvh.query(&even);
    assert_eq!(a.next(), Some(&0));
    assert_eq!(b.next(), Some(&0));
    assert_eq!(a.next(), Some(&10));
    assert_eq!(b.next(), Some(&20));
    let mut c = bvh.query(&all);
    assert_eq!(c.next(), Some(&0));
    drop(a);
    assert_eq!(b.next(), Some(&40));
    assert_eq!(b.next(), None);
    assert_eq!(values(c), vec![10, 20, 30, 40]);
}

#[test]
fn test_bvh_yields_references_to_the_stored_payloads() {
    let leaves = vec![
        BVHLeaf { bound: Tag { branch: false, key: 0 }, value: String::from("left") },
        BVHLeaf { bound: Tag { branch: false, key: 1 }, value: String::from("right") },
    ];
    let branches = vec![BVHBranch { bound: Tag { branch: true, key: 0 }, left: leaf(0), right: leaf(1) }];
    let bvh = BVH::new(branch(0), branches, leaves);
    let q = Always(AABBRelation::Intersect);
    let found: Vec<&String> = bvh.query(&q).collect();
    assert_eq!(found, vec!["left", "right"]);
}

/// Builds a tree of random shape over the boxes, in their order, with the
/// hull of its two children as the bound of each branch.
fn grow(
    rng: &mut impl Rng,
    boxes: &[AABB3<i64>],
    from: usize,
    until: usize,
    branches: &mut Vec<BVHBranch<AABB3<i64>>>,
) -> (usize, AABB3<i64>) {
    if until - from == 1 {
        return (leaf(from), boxes[from]);
    }
    let index = branches.len();
    branches.push(BVHBranch { bound: boxes[from], left: 0, right: 0 });
    let middle = from + 1 + rng.gen::<usize>() % (until - from - 1);
    let (left, low) = grow(rng, boxes, from, middle, branches);
    let (right, high) = grow(rng, boxes, middle, until, branches);
    let bound = low.extends(&high);
    branches[index] = BVHBranch { bound, left, right };
    (branch(index), bound)
}

fn small(rng: &mut impl Rng) -> i64 {
    (rng.gen::<i32>() % 1000) as i64
}

fn random_box(rng: &mut impl Rng) -> AABB3<i64> {
    let corner = Vec3::new(small(rng), small(rng), small(rng));
    let size = Vec3::new(small(rng).abs() + 1, small(rng).abs() + 1, small(rng).abs() + 1);
    AABB3::new(corner, corner + size)
}

#[test]
fn test_bvh_random_trees_agree_with_linear_scan() {
    let rng = &mut ChaChaRng::from_seed([7u8; 32]);
    let mut pruned = 0usize;
    let mut shortcut = 0usize;
    for round in 0..300 {
        let count = 1 + rng.gen::<usize>() % 40;
        let boxes: Vec<AABB3<i64>> = (0..count).map(|_| random_box(rng)).collect();
        let mut branches = Vec::new();
        let (root, _) = grow(rng, &boxes, 0, count, &mut branches);
        assert_eq!(branches.len() + 1, count);
        let leaves = boxes.iter().enumerate().map(|(i, b)| BVHLeaf { bound: *b, value: i }).collect();
        let bvh = BVH::try_new(root, branches, leaves).expect("a tree in order");
        for _ in 0..20 {
            let point = Vec3::new(small(rng), small(rng), small(rng));
            let mut normal = Vec3::new(small(rng), small(rng), small(rng));
            while (normal ^ normal) == 0 {
                normal = Vec3::new(small(rng), small(rng), small(rng));
            }
            let plane = Plane3::new(point, normal);
            let expected: Vec<usize> = (0..count)
                .filter(|i| plane.check(&boxes[*i]) != AABBRelation::Interleave)
                .collect();
            let found: Vec<usize> = bvh.query(&plane).collect().into_iter().copied().collect();
            assert_eq!(found, expected, "round {}", round);
            if found.is_empty() {
                pruned += 1;
            }
            if found.len() == count {
                shortcut += 1;
            }
        }
    }
    assert!(pruned > 0);
    assert!(shortcut > 0);
}

#[test]
fn test_bvh_plane_query_over_slabs() {
    // Four slabs stacked along z, under a tree that pairs them two by two.
    let slab = |lo: i64, hi: i64| AABB3::new(Vec3::new(0, 0, lo), Vec3::new(1, 1, hi));
    let boxes = [slab(0, 1), slab(2, 3), slab(4, 5), slab(6, 7)];
    let branches = vec![
        BVHBranch { bound: slab(0, 7), left: branch(1), right: branch(2) },
        BVHBranch { bound: slab(0, 3), left: leaf(0), right: leaf(1) },
        BVHBranch { bound: slab(4, 7), left: leaf(2), right: leaf(3) },
    ];
    let leaves = boxes.iter().enumerate().map(|(i, b)| BVHLeaf { bound: *b, value: i }).collect();
    let bvh = BVH::new(branch(0), branches, leaves);
    let below = |z: i64| Plane3::new(Vec3::new(0, 0, z), Vec3::new(0, 0, 1));
    let found = |z: i64| -> Vec<usize> {
        let plane = below(z);
        bvh.query(&plane).collect().into_iter().copied().collect()
    };
    assert_eq!(found(-1), Vec::<usize>::new());
    assert_eq!(found(0), Vec::<usize>::new());
    assert_eq!(found(1), vec![0]);
    assert_eq!(found(2), vec![0]);
    assert_eq!(found(3), vec![0, 1]);
    assert_eq!(found(5), vec![0, 1, 2]);
    assert_eq!(found(7), vec![0, 1, 2, 3]);
    assert_eq!(found(100), vec![0, 1, 2, 3]);
}

fn tagged_leaves(count: usize) -> Vec<BVHLeaf<Tag, i64>> {
    (0..count).map(|i| BVHLeaf { bound: Tag { branch: false, key: i as i64 }, value: 10 * i as i64 }).collect()
}

fn tagged_branches(children: &[(usize, usize)]) -> Vec<BVHBranch<Tag>> {
    children
        .iter()
        .enumerate()
        .map(|(j, (left, right))| BVHBranch {
            bound: Tag { branch: true, key: j as i64 },
            left: *left,
            right: *right,
        })
        .collect()
}

fn accepted(root: usize, children: &[(usize, usize)], count: usize) -> bool {
    let branches = tagged_branches(children);
    let leaves = tagged_leaves(count);
    let ok = is_well_formed(root, &branches, &leaves);
    assert_eq!(BVH::try_new(root, branches, leaves).is_some(), ok);
    ok
}

#[test]
fn test_bvh_try_new_accepts_trees_in_order() {
    assert!(accepted(0, &[], 0));
    assert!(accepted(leaf(0), &[], 1));
    assert!(accepted(branch(0), &[(leaf(0), leaf(1))], 2));
    let sample = [(branch(2), branch(1)), (leaf(3), leaf(4)), (leaf(0), branch(3)), (leaf(1), leaf(2))];
    assert!(accepted(branch(0), &sample, 5));
    // A tree that leans to the right, and one that leans to the left.
    assert!(accepted(branch(0), &[(leaf(0), branch(1)), (leaf(1), branch(2)), (leaf(2), leaf(3))], 4));
    assert!(accepted(branch(2), &[(leaf(0), leaf(1)), (branch(0), leaf(2)), (branch(1), leaf(3))], 4));
}

#[test]
fn test_bvh_try_new_yields_what_new_yields() {
    let children = [(branch(2), branch(1)), (leaf(3), leaf(4)), (leaf(0), branch(3)), (leaf(1), leaf(2))];
    let bvh = BVH::try_new(branch(0), tagged_branches(&children), tagged_leaves(5)).unwrap();
    assert_eq!(values(bvh.query(&EvenLeaves)), vec![0, 20, 40]);
}

#[test]
fn test_bvh_try_new_refuses_a_wrong_root() {
    // Nothing but the root reference 0 stands for the tree without leaves.
    assert!(!accepted(1, &[], 0));
    assert!(!accepted(2, &[], 0));
    // The root has to lead to every leaf.
    assert!(!accepted(leaf(1), &[], 1));
    assert!(!accepted(branch(0), &[], 1));
    assert!(!accepted(leaf(0), &[(leaf(0), leaf(1))], 2));
    assert!(!accepted(branch(1), &[(leaf(0), leaf(1))], 2));
}

#[test]
fn test_bvh_try_new_refuses_wrong_counts() {
    assert!(!accepted(0, &[(leaf(0), leaf(1))], 0));
    assert!(!accepted(leaf(0), &[(leaf(0), leaf(0))], 1));
    assert!(!accepted(branch(0), &[(leaf(0), leaf(1))], 3));
    assert!(!accepted(branch(0), &[(leaf(0), leaf(1)), (leaf(0), leaf(1))], 2));
}

#[test]
fn test_bvh_try_new_refuses_leaves_out_of_order() {
    assert!(!accepted(branch(0), &[(leaf(1), leaf(0))], 2));
    assert!(!accepted(branch(0), &[(leaf(0), branch(1)), (leaf(2), leaf(1))], 3));
    assert!(!accepted(branch(0), &[(branch(1), leaf(0)), (leaf(1), leaf(2))], 3));
}

#[test]
fn test_bvh_try_new_refuses_references_out_of_range() {
    assert!(!accepted(branch(0), &[(leaf(0), leaf(2))], 2));
    assert!(!accepted(branch(0), &[(leaf(0), branch(1))], 2));
    assert!(!accepted(branch(0), &[(usize::MAX, leaf(1))], 2));
    assert!(!accepted(branch(0), &[(leaf(0), usize::MAX - 1)], 2));
}

#[test]
fn test_bvh_try_new_refuses_circles_and_shared_nodes() {
    // A branch that is its own child.
    assert!(!accepted(branch(0), &[(branch(0), leaf(1))], 2));
    assert!(!accepted(branch(0), &[(leaf(0), branch(0))], 2));
    // Two branches that are each other's child.
    assert!(!accepted(branch(0), &[(leaf(0), branch(1)), (branch(0), leaf(1))], 3));
    // A leaf under two branches, and a branch under two branches.
    assert!(!accepted(branch(0), &[(leaf(0), branch(1)), (leaf(0), leaf(1))], 3));
    assert!(!accepted(branch(0), &[(branch(1), branch(1)), (leaf(0), leaf(1)), (leaf(2), leaf(3))], 4));
    // A branch that nothing leads to.
    assert!(!accepted(branch(0), &[(leaf(0), leaf(1)), (leaf(1), leaf(2))], 3));
}

#[test]
fn test_bvh_payloads_outlive_the_query_body() {
    let bvh = sample();
    let found: Vec<&i64> = {
        let q = EvenLeaves;
        bvh.query(&q).collect()
    };
    assert_eq!(found, vec![&0, &20, &40]);
    let first: Option<&i64> = {
        let q = Always(AABBRelation::Include);
        let mut e = bvh.query(&q);
        e.next()
    };
    assert_eq!(first, Some(&0));
}

#[test]
fn test_enumerator_new_starts_a_traversal() {
    let bvh = sample();
    let q = EvenLeaves;
    let mut e = Enumerator::new(&bvh, &q);
    assert_eq!(e.next(), Some(&0));
    assert_eq!(e.next(), Some(&20));
    assert_eq!(e.next(), Some(&40));
    assert_eq!(e.next(), None);
}

#[test]
fn test_bvh_leftmost_and_rightmost() {
    let bvh = sample();
    assert_eq!((bvh.leftmost(0), bvh.rightmost(0)), (0, 4));
    assert_eq!((bvh.leftmost(1), bvh.rightmost(1)), (3, 4));
    assert_eq!((bvh.leftmost(2), bvh.rightmost(2)), (0, 2));
    assert_eq!((bvh.leftmost(3), bvh.rightmost(3)), (1, 2));
}

#[test]
fn test_bvh_yields_in_ascending_order() {
    let bvh = sample();
    let relations = [IN, CUT, OUT];
    // Every way of answering for the four branches, over leaves that are
    // held in turn.
    for code in 0..81usize {
        let branches = [
            relations[code % 3],
            relations[code / 3 % 3],
            relations[code / 9 % 3],
            relations[code / 27 % 3],
        ];
        let q = table(branches, [IN, CUT, IN, CUT, IN]);
        let found = values(bvh.query(&q));
        assert!(found.windows(2).all(|pair| pair[0] < pair[1]), "{:?}", branches);
        assert!(found.iter().all(|v| v % 10 == 0 && (0..50).contains(v)));
    }
}
