//! Building the bounding-volume hierarchy: pick an axis at random, order the
//! objects by their boxes' lower corner on it, split at the midpoint and
//! recurse.  Construction succeeds exactly when the input is nonempty and
//! every member reports a bounding box; it refuses (returns nothing) instead
//! of aborting, and the caller decides how loudly to fail.  A built node's
//! box contains every input member's box, and its leaves are exactly the
//! input objects.

use crate::aabb::Aabb;
use crate::fixed::{sabs, T_INF};
use crate::hittable::{
    bbox_model, flatten, lemma_seq_wf_from_all, lemma_seq_wf_index, seq_wf, BVHNode, Hittable,
    HittableList,
};
use crate::rng::random_index;
use vstd::prelude::*;

verus! {

broadcast use
    vstd::seq_lib::group_to_multiset_ensures,
    vstd::seq_lib::to_multiset_insert,
    vstd::multiset::group_multiset_axioms;

/// Every member can report a bounding box over the exposure interval.
pub open spec fn all_boundable(s: Seq<Hittable>, t0: i64, t1: i64) -> bool {
    forall|k: int| 0 <= k < s.len() ==> (#[trigger] bbox_model(s[k], t0, t1)) is Some
}

/// No member is itself a hierarchy node.
pub open spec fn no_nodes(s: Seq<Hittable>) -> bool {
    forall|k: int| 0 <= k < s.len() ==> !((#[trigger] s[k]) is BVHNode)
}

/// The given box encloses every member's box.
pub open spec fn covers_all(root_box: Aabb, s: Seq<Hittable>, t0: i64, t1: i64) -> bool {
    forall|k: int|
        0 <= k < s.len() ==> (#[trigger] bbox_model(s[k], t0, t1)) is Some
            && root_box.contains_box(bbox_model(s[k], t0, t1)->0)
}

/// The count of any element in a union splits over the parts.
proof fn lemma_union_count(s1: Seq<Hittable>, s2: Seq<Hittable>, u: Seq<Hittable>, x: Hittable)
    requires
        s1.to_multiset().add(s2.to_multiset()) == u.to_multiset(),
    ensures
        u.to_multiset().count(x) == s1.to_multiset().count(x) + s2.to_multiset().count(x),
{
}

/// Boundability holds of a union exactly when it holds of both parts.
proof fn lemma_boundable_union(
    s1: Seq<Hittable>,
    s2: Seq<Hittable>,
    u: Seq<Hittable>,
    t0: i64,
    t1: i64,
)
    requires
        s1.to_multiset().add(s2.to_multiset()) == u.to_multiset(),
    ensures
        all_boundable(u, t0, t1) <==> (all_boundable(s1, t0, t1) && all_boundable(s2, t0, t1)),
{
    if all_boundable(u, t0, t1) {
        assert forall|k: int|
            0 <= k < s1.len() implies (#[trigger] bbox_model(s1[k], t0, t1)) is Some by {
            assert(s1.contains(s1[k]));
            lemma_union_count(s1, s2, u, s1[k]);
            assert(u.contains(s1[k]));
            let i = choose|i: int| 0 <= i < u.len() && u[i] == s1[k];
            assert(bbox_model(u[i], t0, t1) is Some);
        }
        assert forall|k: int|
            0 <= k < s2.len() implies (#[trigger] bbox_model(s2[k], t0, t1)) is Some by {
            assert(s2.contains(s2[k]));
            lemma_union_count(s1, s2, u, s2[k]);
            assert(u.contains(s2[k]));
            let i = choose|i: int| 0 <= i < u.len() && u[i] == s2[k];
            assert(bbox_model(u[i], t0, t1) is Some);
        }
    }
    if all_boundable(s1, t0, t1) && all_boundable(s2, t0, t1) {
        assert forall|k: int|
            0 <= k < u.len() implies (#[trigger] bbox_model(u[k], t0, t1)) is Some by {
            assert(u.contains(u[k]));
            lemma_union_count(s1, s2, u, u[k]);
            if s1.to_multiset().count(u[k]) > 0 {
                assert(s1.contains(u[k]));
                let i = choose|i: int| 0 <= i < s1.len() && s1[i] == u[k];
                assert(bbox_model(s1[i], t0, t1) is Some);
            } else {
                assert(s2.contains(u[k]));
                let i = choose|i: int| 0 <= i < s2.len() && s2[i] == u[k];
                assert(bbox_model(s2[i], t0, t1) is Some);
            }
        }
    }
}

/// Node-freeness holds of a union exactly when it holds of both parts.
proof fn lemma_no_nodes_union(s1: Seq<Hittable>, s2: Seq<Hittable>, u: Seq<Hittable>)
    requires
        s1.to_multiset().add(s2.to_multiset()) == u.to_multiset(),
    ensures
        no_nodes(u) <==> (no_nodes(s1) && no_nodes(s2)),
{
    if no_nodes(u) {
        assert forall|k: int| 0 <= k < s1.len() implies !((#[trigger] s1[k]) is BVHNode) by {
            assert(s1.contains(s1[k]));
            lemma_union_count(s1, s2, u, s1[k]);
            assert(u.contains(s1[k]));
            let i = choose|i: int| 0 <= i < u.len() && u[i] == s1[k];
            assert(!(u[i] is BVHNode));
        }
        assert forall|k: int| 0 <= k < s2.len() implies !((#[trigger] s2[k]) is BVHNode) by {
            assert(s2.contains(s2[k]));
            lemma_union_count(s1, s2, u, s2[k]);
            assert(u.contains(s2[k]));
            let i = choose|i: int| 0 <= i < u.len() && u[i] == s2[k];
            assert(!(u[i] is BVHNode));
        }
    }
    if no_nodes(s1) && no_nodes(s2) {
        assert forall|k: int| 0 <= k < u.len() implies !((#[trigger] u[k]) is BVHNode) by {
            assert(u.contains(u[k]));
            lemma_union_count(s1, s2, u, u[k]);
            if s1.to_multiset().count(u[k]) > 0 {
                assert(s1.contains(u[k]));
                let i = choose|i: int| 0 <= i < s1.len() && s1[i] == u[k];
                assert(!(s1[i] is BVHNode));
            } else {
                assert(s2.contains(u[k]));
                let i = choose|i: int| 0 <= i < s2.len() && s2[i] == u[k];
                assert(!(s2[i] is BVHNode));
            }
        }
    }
}

/// A box covering both halves of a partition covers the whole.
proof fn lemma_covers_union(
    root_box: Aabb,
    s1: Seq<Hittable>,
    s2: Seq<Hittable>,
    u: Seq<Hittable>,
    t0: i64,
    t1: i64,
)
    requires
        s1.to_multiset().add(s2.to_multiset()) == u.to_multiset(),
        covers_all(root_box, s1, t0, t1),
        covers_all(root_box, s2, t0, t1),
    ensures
        covers_all(root_box, u, t0, t1),
{
    assert forall|k: int|
        0 <= k < u.len() implies (#[trigger] bbox_model(u[k], t0, t1)) is Some
        && root_box.contains_box(bbox_model(u[k], t0, t1)->0) by {
        assert(u.contains(u[k]));
        lemma_union_count(s1, s2, u, u[k]);
        if s1.to_multiset().count(u[k]) > 0 {
            assert(s1.contains(u[k]));
            let i = choose|i: int| 0 <= i < s1.len() && s1[i] == u[k];
            assert(bbox_model(s1[i], t0, t1) is Some && root_box.contains_box(
                bbox_model(s1[i], t0, t1)->0,
            ));
        } else {
            assert(s2.contains(u[k]));
            let i = choose|i: int| 0 <= i < s2.len() && s2[i] == u[k];
            assert(bbox_model(s2[i], t0, t1) is Some && root_box.contains_box(
                bbox_model(s2[i], t0, t1)->0,
            ));
        }
    }
}

/// The sort key: the box's lower corner along the chosen axis, or zero for
/// an unbounded member (which construction will refuse later anyway).
fn box_key(h: &Hittable, axis: usize, time0: i64, time1: i64) -> (r: i64)
    requires
        h.wf(),
        axis < 3,
        sabs(time0 as int) <= T_INF as int,
        sabs(time1 as int) <= T_INF as int,
{
    match h.bounding_box(time0, time1) {
        None => 0,
        Some(b) => b.min().axis(axis),
    }
}

/// Order the objects by box corner along `axis`: a permutation of the input,
/// which is all correctness relies on — the order itself is a traversal
/// heuristic.
#[verifier::loop_isolation(false)]
fn sort_by_axis(v: &mut Vec<Hittable>, axis: usize, time0: i64, time1: i64)
    requires
        axis < 3,
        forall|k: int| 0 <= k < old(v)@.len() ==> (#[trigger] old(v)@[k]).wf(),
        sabs(time0 as int) <= T_INF as int,
        sabs(time1 as int) <= T_INF as int,
    ensures
        final(v)@.len() == old(v)@.len(),
        final(v)@.to_multiset() == old(v)@.to_multiset(),
        forall|k: int| 0 <= k < final(v)@.len() ==> (#[trigger] final(v)@[k]).wf(),
{
    let mut i: usize = 1;
    while i < v.len()
        invariant
            1 <= i,
            v@.len() == old(v)@.len(),
            v@.to_multiset() == old(v)@.to_multiset(),
            forall|k: int| 0 <= k < v@.len() ==> (#[trigger] v@[k]).wf(),
        decreases v@.len() - i,
    {
        let ghost before = v@;
        let x = v.remove(i);
        proof {
            assert(before.contains(before[i as int]));
            assert(v@.to_multiset() == before.to_multiset().remove(x));
            assert forall|k: int| 0 <= k < v@.len() implies (#[trigger] v@[k]).wf() by {
                if k < i {
                    assert(v@[k] == before[k]);
                } else {
                    assert(v@[k] == before[k + 1]);
                }
            }
        }
        let key_x: i64 = box_key(&x, axis, time0, time1);
        let mut j: usize = 0;
        while j < i
            invariant
                0 <= j <= i,
                i <= v@.len(),
                forall|k: int| 0 <= k < v@.len() ==> (#[trigger] v@[k]).wf(),
            decreases i - j,
        {
            let key_j: i64 = box_key(&v[j], axis, time0, time1);
            if key_j > key_x {
                break ;
            }
            j = j + 1;
        }
        let ghost mid = v@;
        v.insert(j, x);
        proof {
            assert(v@.to_multiset() == mid.to_multiset().insert(x));
            assert(v@.to_multiset() =~= before.to_multiset());
            assert forall|k: int| 0 <= k < v@.len() implies (#[trigger] v@[k]).wf() by {
                if k < j {
                    assert(v@[k] == mid[k]);
                } else if k == j {
                    assert(v@[k] == x);
                } else {
                    assert(v@[k] == mid[k - 1]);
                }
            }
        }
        i = i + 1;
    }
}

impl BVHNode {
    /// Wrap a list's objects into a hierarchy.
    pub fn new_from_list(list: HittableList, time0: i64, time1: i64) -> (res: Option<Hittable>)
        requires
            seq_wf(list.objects@),
            sabs(time0 as int) <= T_INF as int,
            sabs(time1 as int) <= T_INF as int,
        ensures
            res is Some ==> res->0.wf() && bbox_model(res->0, time0, time1) is Some,
            (res is Some) == (list.objects@.len() > 0 && all_boundable(
                list.objects@,
                time0,
                time1,
            )),
            res is Some && no_nodes(list.objects@) ==> flatten(res->0).to_multiset()
                == list.objects@.to_multiset(),
            res is Some ==> covers_all(
                bbox_model(res->0, time0, time1)->0,
                list.objects@,
                time0,
                time1,
            ),
    {
        Self::new_from_array(list.objects, time0, time1)
    }

    /// Build a node over the whole slice: a single bounded object stands for
    /// itself, two are ordered along a random axis, more are sorted and
    /// split at the midpoint.
    #[verifier::loop_isolation(false)]
    #[verifier::rlimit(100)]
    #[verifier::spinoff_prover]
    pub fn new_from_array(objects: Vec<Hittable>, time0: i64, time1: i64) -> (res: Option<
        Hittable,
    >)
        requires
            seq_wf(objects@),
            sabs(time0 as int) <= T_INF as int,
            sabs(time1 as int) <= T_INF as int,
        ensures
            res is Some ==> res->0.wf() && bbox_model(res->0, time0, time1) is Some,
            (res is Some) == (objects@.len() > 0 && all_boundable(objects@, time0, time1)),
            res is Some && no_nodes(objects@) ==> flatten(res->0).to_multiset()
                == objects@.to_multiset(),
            res is Some ==> covers_all(
                bbox_model(res->0, time0, time1)->0,
                objects@,
                time0,
                time1,
            ),
        decreases objects@.len(),
    {
        let ghost input = objects@;
        let mut objects = objects;
        if objects.len() == 0 {
            return None;
        }
        let axis: usize = random_index(0, 2);
        if objects.len() == 1 {
            proof {
                lemma_seq_wf_index(input, 0);
            }
            let obj = match objects.pop() {
                Some(o) => o,
                None => {
                    return None;
                },
            };
            match obj.bounding_box(time0, time1) {
                None => {
                    assert(!all_boundable(input, time0, time1));
                    None
                },
                Some(_) => {
                    proof {
                        assert(input =~= Seq::empty().push(obj));
                        if !(obj is BVHNode) {
                            assert(flatten(obj) =~= Seq::empty().push(obj));
                        }
                    }
                    Some(obj)
                },
            }
        } else if objects.len() == 2 {
            proof {
                lemma_seq_wf_index(input, 0);
                lemma_seq_wf_index(input, 1);
            }
            let b = match objects.pop() {
                Some(o) => o,
                None => {
                    return None;
                },
            };
            let a = match objects.pop() {
                Some(o) => o,
                None => {
                    return None;
                },
            };
            let box_a = match a.bounding_box(time0, time1) {
                None => {
                    assert(!all_boundable(input, time0, time1));
                    return None;
                },
                Some(x) => x,
            };
            let box_b = match b.bounding_box(time0, time1) {
                None => {
                    assert(!all_boundable(input, time0, time1));
                    return None;
                },
                Some(x) => x,
            };
            let bbox = Aabb::surrounding_box(&box_a, &box_b);
            proof {
                crate::aabb::lemma_surrounding_contains(box_a, box_b);
                assert(input =~= Seq::empty().push(a).push(b));
            }
            let ka: i64 = box_a.min().axis(axis);
            let kb: i64 = box_b.min().axis(axis);
            let node = if ka <= kb {
                BVHNode { left: Box::new(a), right: Box::new(b), bbox }
            } else {
                BVHNode { left: Box::new(b), right: Box::new(a), bbox }
            };
            let res = Hittable::BVHNode(node);
            proof {
                if no_nodes(input) {
                    assert(flatten(a) =~= Seq::empty().push(a));
                    assert(flatten(b) =~= Seq::empty().push(b));
                    vstd::seq_lib::lemma_multiset_commutative(flatten(a), flatten(b));
                    vstd::seq_lib::lemma_multiset_commutative(flatten(b), flatten(a));
                    assert(flatten(res).to_multiset() =~= input.to_multiset());
                }
            }
            Some(res)
        } else {
            proof {
                assert forall|k: int| 0 <= k < objects@.len() implies (#[trigger] objects@[k]).wf() by {
                    lemma_seq_wf_index(input, k);
                }
            }
            sort_by_axis(&mut objects, axis, time0, time1);
            let ghost sorted = objects@;
            let mid: usize = objects.len() / 2;
            proof {
                assert(1 <= mid < objects@.len()) by (nonlinear_arith)
                    requires
                        mid == objects@.len() / 2 && objects@.len() >= 3,
                ;
            }
            let mut right_part: Vec<Hittable> = Vec::new();
            while objects.len() > mid
                invariant
                    mid <= objects@.len() <= sorted.len(),
                    right_part@.len() == sorted.len() - objects@.len(),
                    objects@.to_multiset().add(right_part@.to_multiset()) =~= sorted.to_multiset(),
                    forall|k: int| 0 <= k < objects@.len() ==> (#[trigger] objects@[k]).wf(),
                    forall|k: int|
                        0 <= k < right_part@.len() ==> (#[trigger] right_part@[k]).wf(),
                decreases objects@.len(),
            {
                let ghost before = objects@;
                let o = match objects.pop() {
                    Some(o) => o,
                    None => {
                        return None;
                    },
                };
                proof {
                    assert(before =~= objects@.push(o));
                }
                right_part.push(o);
            }
            proof {
                lemma_seq_wf_from_all(objects@);
                lemma_seq_wf_from_all(right_part@);
            }
            let ghost left_seq = objects@;
            let ghost right_seq = right_part@;
            let left = match Self::new_from_array(objects, time0, time1) {
                None => {
                    proof {
                        lemma_split_iff(left_seq, right_seq, sorted, input, time0, time1);
                    }
                    return None;
                },
                Some(h) => h,
            };
            let right = match Self::new_from_array(right_part, time0, time1) {
                None => {
                    proof {
                        lemma_split_iff(left_seq, right_seq, sorted, input, time0, time1);
                    }
                    return None;
                },
                Some(h) => h,
            };
            let box_left = match left.bounding_box(time0, time1) {
                None => {
                    return None;
                },
                Some(x) => x,
            };
            let box_right = match right.bounding_box(time0, time1) {
                None => {
                    return None;
                },
                Some(x) => x,
            };
            let bbox = Aabb::surrounding_box(&box_left, &box_right);
            let res = Hittable::BVHNode(
                BVHNode { left: Box::new(left), right: Box::new(right), bbox },
            );
            proof {
                crate::aabb::lemma_surrounding_contains(box_left, box_right);
                lemma_split_iff(left_seq, right_seq, sorted, input, time0, time1);
                assert(covers_all(bbox, left_seq, time0, time1));
                assert(covers_all(bbox, right_seq, time0, time1));
                lemma_covers_union(bbox, left_seq, right_seq, input, time0, time1);
                if no_nodes(input) {
                    lemma_no_nodes_union(left_seq, right_seq, input);
                    vstd::seq_lib::lemma_multiset_commutative(flatten(left), flatten(right));
                    assert(flatten(res).to_multiset() =~= input.to_multiset());
                }
            }
            Some(res)
        }
    }
}

/// Boundability of the whole input is boundability of both halves of the
/// split, because the halves partition the input as a multiset.
proof fn lemma_split_iff(
    left_seq: Seq<Hittable>,
    right_seq: Seq<Hittable>,
    sorted: Seq<Hittable>,
    input: Seq<Hittable>,
    time0: i64,
    time1: i64,
)
    requires
        left_seq.to_multiset().add(right_seq.to_multiset()) == sorted.to_multiset(),
        sorted.to_multiset() == input.to_multiset(),
    ensures
        all_boundable(input, time0, time1) <==> (all_boundable(left_seq, time0, time1)
            && all_boundable(right_seq, time0, time1)),
        no_nodes(input) <==> (no_nodes(left_seq) && no_nodes(right_seq)),
        left_seq.to_multiset().add(right_seq.to_multiset()) == input.to_multiset(),
{
    lemma_boundable_union(left_seq, right_seq, input, time0, time1);
    lemma_no_nodes_union(left_seq, right_seq, input);
}

} // verus!
