//! Building the bounding-volume hierarchy.
//!
//! Construction picks a random split axis, orders the objects by the low
//! corner of their boxes on that axis, splits at the midpoint and recurses;
//! each node caches the union of its children's boxes. The ordering only
//! shapes the tree: construction proves that the finished hierarchy
//! reports, for every ray and range, exactly the closest hit of the list
//! it was built from — the ordering and splitting never change the answer.

use crate::aabb::{box_contains, union_box, AABB};
use crate::fx::RAY_BOUND;
use crate::hittable::{
    best_num, best_num_seq, closer, covered_by, covered_by_seq, has_empty_list, has_empty_list_seq,
    lemma_closer_assoc, lemma_covered_by_mono, lemma_take_snoc_empty, shape_box, spans_times,
    spans_times_seq, time_ok, time_ok_seq, wf_shape, wf_shape_seq, BvhNode, HittableEnum,
    HittableList,
};
use crate::random::random_axis;
use crate::rat::Rat;
use crate::ray::Ray;
use vstd::prelude::*;
use vstd::seq_lib::group_to_multiset_ensures;

verus! {

/// Why a hierarchy could not be built: an empty collection, or an object
/// without a bounding box (a nested empty list) — an invariant violation
/// in the scene, reported rather than silently recovered.
#[derive(Clone, Copy, Debug, PartialEq, Eq, Structural)]
pub enum BvhBuildError {
    EmptyList,
    UnboundedObject,
}

/// Whether the shape lacks a bounding box somewhere.
pub fn is_unbounded(h: &HittableEnum) -> (r: bool)
    ensures
        r == has_empty_list(*h),
    decreases *h, 1int,
{
    match h {
        HittableEnum::Sphere(_) => false,
        HittableEnum::MovingSphere(_) => false,
        HittableEnum::BvhNode(_) => false,
        HittableEnum::HittableList(l) => list_is_unbounded(l),
    }
}

/// Whether the list is empty or holds an object without a bounding box.
fn list_is_unbounded(l: &HittableList) -> (r: bool)
    ensures
        r == (l.objects@.len() == 0 || has_empty_list_seq(l.objects@)),
    decreases *l, 0int,
{
    let n = l.objects.len();
    if n == 0 {
        return true;
    }
    let mut i: usize = 0;
    while i < n
        invariant
            n == l.objects@.len(),
            i <= n,
            !has_empty_list_seq(l.objects@.take(i as int)),
        decreases n - i,
    {
        if is_unbounded(&l.objects[i]) {
            proof {
                crate::hittable::lemma_has_empty_list_seq_index(l.objects@, i as int);
            }
            return true;
        }
        proof {
            lemma_take_snoc_empty(l.objects@, i as int);
        }
        i = i + 1;
    }
    proof {
        assert(l.objects@.take(n as int) =~= l.objects@);
    }
    false
}

/// Whether the first object's box starts no later than the second's on
/// the given axis, as a specification value (boxes taken at time zero, as
/// the build ordering does).
pub open spec fn box_starts_before(a: HittableEnum, b: HittableEnum, axis: int) -> bool {
    shape_box(a, 0, 0).minimum.spec_axis(axis) <= shape_box(b, 0, 0).minimum.spec_axis(axis)
}

/// Orders two objects by the low corner of their boxes on the given axis,
/// without losing either: the comparator's winner comes first.
pub fn order_two(first: HittableEnum, second: HittableEnum, axis: usize) -> (r: (
    HittableEnum,
    HittableEnum,
))
    requires
        wf_shape(first),
        wf_shape(second),
        !has_empty_list(first),
        !has_empty_list(second),
    ensures
        r == if box_starts_before(first, second, axis as int) {
            (first, second)
        } else {
            (second, first)
        },
        (r.0 == first && r.1 == second) || (r.0 == second && r.1 == first),
{
    if compare_boxes(&first, &second, axis) {
        (first, second)
    } else {
        (second, first)
    }
}

/// Whether the first object's box starts no later than the second's on
/// the given axis. The ordering only shapes the tree; the intersection
/// contracts never depend on it.
pub fn compare_boxes(a: &HittableEnum, b: &HittableEnum, axis: usize) -> (r: bool)
    requires
        wf_shape(*a),
        wf_shape(*b),
        !has_empty_list(*a),
        !has_empty_list(*b),
    ensures
        r == box_starts_before(*a, *b, axis as int),
{
    let box_a = match a.bounding_box(0, 0) {
        Some(bb) => bb,
        None => {
            proof {
                assert(false);
            }
            return true;
        },
    };
    let box_b = match b.bounding_box(0, 0) {
        Some(bb) => bb,
        None => {
            proof {
                assert(false);
            }
            return true;
        },
    };
    box_a.min().axis(axis) <= box_b.min().axis(axis)
}

/// The box comparison on the x axis.
pub fn compare_box_x(a: &HittableEnum, b: &HittableEnum) -> bool
    requires
        wf_shape(*a),
        wf_shape(*b),
        !has_empty_list(*a),
        !has_empty_list(*b),
{
    compare_boxes(a, b, 0)
}

/// The box comparison on the y axis.
pub fn compare_box_y(a: &HittableEnum, b: &HittableEnum) -> bool
    requires
        wf_shape(*a),
        wf_shape(*b),
        !has_empty_list(*a),
        !has_empty_list(*b),
{
    compare_boxes(a, b, 1)
}

/// The box comparison on the z axis.
pub fn compare_box_z(a: &HittableEnum, b: &HittableEnum) -> bool
    requires
        wf_shape(*a),
        wf_shape(*b),
        !has_empty_list(*a),
        !has_empty_list(*b),
{
    compare_boxes(a, b, 2)
}

/// The right child the builder gives a one-object range: an empty list,
/// which never reports a hit and has no box of its own.
pub open spec fn solitary_right(node: BvhNode) -> bool {
    *node.right matches HittableEnum::HittableList(l) && l.objects@.len() == 0
}

/// The cached-box rule of every built node: a one-object node caches its
/// object's box; every other node caches the union of its children's.
pub open spec fn cached_box_ok(node: BvhNode) -> bool {
    if solitary_right(node) {
        node.bbox == shape_box(*node.left, node.time0 as int, node.time1 as int)
    } else {
        node.bbox == union_box(
            shape_box(*node.left, node.time0 as int, node.time1 as int),
            shape_box(*node.right, node.time0 as int, node.time1 as int),
        )
    }
}

/// The element-wise conditions carried through sorting and splitting.
pub open spec fn build_ok(h: HittableEnum, time0: int, time1: int) -> bool {
    wf_shape(h) && !has_empty_list(h) && spans_times(h, time0, time1)
}

/// Orders the objects by box position on the axis (selection order),
/// returning a permutation: the multiset of objects is unchanged.
fn sort_by_axis(objects: Vec<HittableEnum>, axis: usize, Ghost(time0): Ghost<int>, Ghost(
    time1,
): Ghost<int>) -> (r: Vec<HittableEnum>)
    requires
        forall|i: int|
            0 <= i < objects@.len() ==> build_ok(#[trigger] objects@[i], time0, time1),
    ensures
        r@.to_multiset() == objects@.to_multiset(),
        r@.len() == objects@.len(),
        forall|i: int| 0 <= i < r@.len() ==> build_ok(#[trigger] r@[i], time0, time1),
{
    proof {
        broadcast use group_to_multiset_ensures;

    }
    let ghost orig = objects@;
    let mut rest = objects;
    let mut out: Vec<HittableEnum> = Vec::new();
    while rest.len() > 0
        invariant
            out@.to_multiset().add(rest@.to_multiset()) == orig.to_multiset(),
            out@.len() + rest@.len() == orig.len(),
            forall|i: int| 0 <= i < rest@.len() ==> build_ok(#[trigger] rest@[i], time0, time1),
            forall|i: int| 0 <= i < out@.len() ==> build_ok(#[trigger] out@[i], time0, time1),
        decreases rest@.len(),
    {
        proof {
            broadcast use group_to_multiset_ensures;

        }
        let n = rest.len();
        let mut best_i: usize = 0;
        let mut j: usize = 1;
        while j < n
            invariant
                n == rest@.len(),
                0 < n,
                best_i < n,
                j <= n,
                forall|i: int|
                    0 <= i < rest@.len() ==> build_ok(#[trigger] rest@[i], time0, time1),
            decreases n - j,
        {
            if compare_boxes(&rest[j], &rest[best_i], axis) {
                best_i = j;
            }
            j = j + 1;
        }
        let ghost pre_rest = rest@;
        let ghost pre_out = out@;
        let x = rest.remove(best_i);
        out.push(x);
        proof {
            assert(pre_rest.remove(best_i as int).to_multiset() =~= pre_rest.to_multiset().remove(
                x,
            ));
            assert(pre_out.push(x).to_multiset() =~= pre_out.to_multiset().insert(x));
            assert(pre_rest.to_multiset().count(x) > 0) by {
                assert(pre_rest.contains(x));
            }
            assert(pre_out.to_multiset().insert(x).add(pre_rest.to_multiset().remove(x))
                =~= pre_out.to_multiset().add(pre_rest.to_multiset()));
            assert forall|i: int| 0 <= i < rest@.len() implies build_ok(
                #[trigger] rest@[i],
                time0,
                time1,
            ) by {
                if i < best_i {
                    assert(rest@[i] == pre_rest[i]);
                } else {
                    assert(rest@[i] == pre_rest[i + 1]);
                }
            }
        }
    }
    proof {
        assert(rest@.to_multiset().len() == 0);
        assert(out@.to_multiset().add(rest@.to_multiset()) =~= out@.to_multiset());
    }
    out
}

/// The closest-report combination is commutative (ties give the shared
/// value either way).
pub proof fn lemma_closer_comm(a: Option<int>, b: Option<int>)
    ensures
        closer(a, b) == closer(b, a),
{
}

/// Scanning a concatenation combines the two scans.
pub proof fn lemma_best_num_seq_append(
    s1: Seq<HittableEnum>,
    s2: Seq<HittableEnum>,
    r: Ray,
    t_min: Rat,
    t_max: Rat,
)
    ensures
        best_num_seq(s1 + s2, r, t_min, t_max) == closer(
            best_num_seq(s1, r, t_min, t_max),
            best_num_seq(s2, r, t_min, t_max),
        ),
    decreases s1.len(),
{
    if s1.len() == 0 {
        assert(s1 + s2 =~= s2);
    } else {
        assert((s1 + s2)[0] == s1[0]);
        assert((s1 + s2).drop_first() =~= s1.drop_first() + s2);
        lemma_best_num_seq_append(s1.drop_first(), s2, r, t_min, t_max);
        lemma_closer_assoc(
            best_num(s1[0], r, t_min, t_max),
            best_num_seq(s1.drop_first(), r, t_min, t_max),
            best_num_seq(s2, r, t_min, t_max),
        );
    }
}

/// Any element can be scanned first: extracting one element combines its
/// report with the scan of the rest.
proof fn lemma_best_num_seq_extract(s: Seq<HittableEnum>, j: int, r: Ray, t_min: Rat, t_max: Rat)
    requires
        0 <= j < s.len(),
    ensures
        best_num_seq(s, r, t_min, t_max) == closer(
            best_num(s[j], r, t_min, t_max),
            best_num_seq(s.remove(j), r, t_min, t_max),
        ),
    decreases j,
{
    if j == 0 {
        assert(s.remove(0) =~= s.drop_first());
    } else {
        assert(s.remove(j)[0] == s[0]);
        assert(s.remove(j).drop_first() =~= s.drop_first().remove(j - 1));
        assert(s.drop_first()[j - 1] == s[j]);
        lemma_best_num_seq_extract(s.drop_first(), j - 1, r, t_min, t_max);
        lemma_closer_assoc(
            best_num(s[j], r, t_min, t_max),
            best_num(s[0], r, t_min, t_max),
            best_num_seq(s.drop_first().remove(j - 1), r, t_min, t_max),
        );
        lemma_closer_comm(best_num(s[j], r, t_min, t_max), best_num(s[0], r, t_min, t_max));
        lemma_closer_assoc(
            best_num(s[0], r, t_min, t_max),
            best_num(s[j], r, t_min, t_max),
            best_num_seq(s.drop_first().remove(j - 1), r, t_min, t_max),
        );
    }
}

/// Scanning is invariant under permutation: two sequences with the same
/// multiset of objects report the same closest hit.
pub proof fn lemma_best_num_seq_perm(
    s1: Seq<HittableEnum>,
    s2: Seq<HittableEnum>,
    r: Ray,
    t_min: Rat,
    t_max: Rat,
)
    requires
        s1.to_multiset() == s2.to_multiset(),
    ensures
        best_num_seq(s1, r, t_min, t_max) == best_num_seq(s2, r, t_min, t_max),
    decreases s1.len(),
{
    broadcast use group_to_multiset_ensures;

    if s1.len() == 0 {
        assert(s2.to_multiset().len() == 0);
        assert(s2.len() == 0);
    } else {
        let x = s1[0];
        assert(s1.contains(x));
        assert(s1.to_multiset().count(x) > 0);
        assert(s2.to_multiset().count(x) > 0);
        assert(s2.contains(x));
        let j = choose|j: int| 0 <= j < s2.len() && s2[j] == x;
        lemma_best_num_seq_extract(s2, j, r, t_min, t_max);
        assert(s1.drop_first() =~= s1.remove(0));
        assert(s1.remove(0).to_multiset() =~= s1.to_multiset().remove(x));
        assert(s2.remove(j).to_multiset() =~= s2.to_multiset().remove(x));
        lemma_best_num_seq_perm(s1.drop_first(), s2.remove(j), r, t_min, t_max);
    }
}

/// The element-wise build conditions transfer across a permutation.
proof fn lemma_build_ok_perm(s1: Seq<HittableEnum>, s2: Seq<HittableEnum>, time0: int, time1: int)
    requires
        s1.to_multiset() == s2.to_multiset(),
        forall|i: int| 0 <= i < s1.len() ==> build_ok(#[trigger] s1[i], time0, time1),
    ensures
        forall|i: int| 0 <= i < s2.len() ==> build_ok(#[trigger] s2[i], time0, time1),
{
    broadcast use group_to_multiset_ensures;

    assert forall|i: int| 0 <= i < s2.len() implies build_ok(
        #[trigger] s2[i],
        time0,
        time1,
    ) by {
        assert(s2.contains(s2[i]));
        assert(s2.to_multiset().count(s2[i]) > 0);
        assert(s1.to_multiset().count(s2[i]) > 0);
        assert(s1.contains(s2[i]));
        let j = choose|j: int| 0 <= j < s1.len() && s1[j] == s2[i];
        assert(build_ok(s1[j], time0, time1));
    }
}

/// The recursive sequence predicates are the element-wise conditions.
pub proof fn lemma_seq_preds_iff(s: Seq<HittableEnum>, time0: int, time1: int)
    ensures
        wf_shape_seq(s) <==> (forall|i: int| 0 <= i < s.len() ==> wf_shape(#[trigger] s[i])),
        has_empty_list_seq(s) <==> (exists|i: int|
            0 <= i < s.len() && has_empty_list(#[trigger] s[i])),
        spans_times_seq(s, time0, time1) <==> (forall|i: int|
            0 <= i < s.len() ==> spans_times(#[trigger] s[i], time0, time1)),
    decreases s.len(),
{
    if s.len() != 0 {
        lemma_seq_preds_iff(s.drop_first(), time0, time1);
        assert forall|i: int| 0 <= i < s.drop_first().len() implies s.drop_first()[i] == s[i
            + 1] by {}
        if wf_shape_seq(s) {
            assert forall|i: int| 0 <= i < s.len() implies wf_shape(#[trigger] s[i]) by {
                if i > 0 {
                    assert(s.drop_first()[i - 1] == s[i]);
                }
            }
        }
        if forall|i: int| 0 <= i < s.len() ==> wf_shape(#[trigger] s[i]) {
            assert forall|i: int| 0 <= i < s.drop_first().len() implies wf_shape(
                #[trigger] s.drop_first()[i],
            ) by {
                assert(s.drop_first()[i] == s[i + 1]);
            }
        }
        if has_empty_list_seq(s) {
            if has_empty_list(s[0]) {
            } else {
                let i = choose|i: int|
                    0 <= i < s.drop_first().len() && has_empty_list(#[trigger] s.drop_first()[i]);
                assert(s.drop_first()[i] == s[i + 1]);
                assert(has_empty_list(s[i + 1]));
            }
        }
        if exists|i: int| 0 <= i < s.len() && has_empty_list(#[trigger] s[i]) {
            let i = choose|i: int| 0 <= i < s.len() && has_empty_list(#[trigger] s[i]);
            if i > 0 {
                assert(s.drop_first()[i - 1] == s[i]);
                assert(has_empty_list(s.drop_first()[i - 1]));
            }
        }
        if spans_times_seq(s, time0, time1) {
            assert forall|i: int| 0 <= i < s.len() implies spans_times(
                #[trigger] s[i],
                time0,
                time1,
            ) by {
                if i > 0 {
                    assert(s.drop_first()[i - 1] == s[i]);
                }
            }
        }
        if forall|i: int| 0 <= i < s.len() ==> spans_times(#[trigger] s[i], time0, time1) {
            assert forall|i: int| 0 <= i < s.drop_first().len() implies spans_times(
                #[trigger] s.drop_first()[i],
                time0,
                time1,
            ) by {
                assert(s.drop_first()[i] == s[i + 1]);
            }
        }
    }
}

/// A tree whose node intervals span `[time0, time1]` accepts every time
/// stamp within it.
pub proof fn lemma_spans_to_time_ok(h: HittableEnum, time0: int, time1: int, time: int)
    requires
        spans_times(h, time0, time1),
        time0 <= time <= time1,
    ensures
        time_ok(h, time),
    decreases h, 1int,
{
    match h {
        HittableEnum::Sphere(_) => {
        },
        HittableEnum::MovingSphere(_) => {
        },
        HittableEnum::HittableList(l) => {
            lemma_spans_to_time_ok_seq(l.objects@, time0, time1, time);
        },
        HittableEnum::BvhNode(b) => {
            lemma_spans_to_time_ok(*b.left, time0, time1, time);
            lemma_spans_to_time_ok(*b.right, time0, time1, time);
        },
    }
}

/// The sequence form of the time-stamp fact.
pub proof fn lemma_spans_to_time_ok_seq(s: Seq<HittableEnum>, time0: int, time1: int, time: int)
    requires
        spans_times_seq(s, time0, time1),
        time0 <= time <= time1,
    ensures
        time_ok_seq(s, time),
    decreases s, 0int, s.len(),
{
    if s.len() != 0 {
        lemma_spans_to_time_ok(s[0], time0, time1, time);
        lemma_spans_to_time_ok_seq(s.drop_first(), time0, time1, time);
    }
}

impl BvhNode {
    /// Builds the hierarchy over the list's objects for the given time
    /// interval. Fails on an empty collection and on objects without a
    /// bounding box; otherwise the finished tree reports, for every ray
    /// and every search range, exactly what the list itself would.
    pub fn new(list: HittableList, time0: i64, time1: i64) -> (res: Result<BvhNode, BvhBuildError>)
        requires
            wf_shape_seq(list.objects@),
            spans_times_seq(list.objects@, time0 as int, time1 as int),
            time0 <= time1,
            -RAY_BOUND as int <= time0 <= RAY_BOUND as int,
            -RAY_BOUND as int <= time1 <= RAY_BOUND as int,
        ensures
            res matches Ok(node) ==> node.wf() && node.time0 == time0 && node.time1 == time1
                && cached_box_ok(node) && spans_times(
                HittableEnum::BvhNode(node),
                time0 as int,
                time1 as int,
            ) && (forall|
                r: Ray,
                a: Rat,
                b: Rat,
            |
                #[trigger] best_num(HittableEnum::BvhNode(node), r, a, b) == best_num_seq(
                    list.objects@,
                    r,
                    a,
                    b,
                )),
            res is Err ==> list.objects@.len() == 0 || has_empty_list_seq(list.objects@),
    {
        let n = list.objects.len();
        if n == 0 {
            return Err(BvhBuildError::EmptyList);
        }
        let mut i: usize = 0;
        while i < n
            invariant
                n == list.objects@.len(),
                i <= n,
                !has_empty_list_seq(list.objects@.take(i as int)),
            decreases n - i,
        {
            if is_unbounded(&list.objects[i]) {
                proof {
                    crate::hittable::lemma_has_empty_list_seq_index(list.objects@, i as int);
                }
                return Err(BvhBuildError::UnboundedObject);
            }
            proof {
                lemma_take_snoc_empty(list.objects@, i as int);
            }
            i = i + 1;
        }
        proof {
            assert(list.objects@.take(n as int) =~= list.objects@);
            lemma_seq_preds_iff(list.objects@, time0 as int, time1 as int);
        }
        let node = Self::construct_tree(list.objects, time0, time1);
        Ok(node)
    }

    /// The recursive build. A single object becomes the left child with an
    /// empty list as the right (an empty list never reports a hit, so the
    /// node reports exactly what its one object does); two objects are
    /// ordered by the comparator; more are ordered, split at the midpoint
    /// and built recursively.
    fn construct_tree(objects: Vec<HittableEnum>, time0: i64, time1: i64) -> (node: BvhNode)
        requires
            objects@.len() >= 1,
            forall|i: int|
                0 <= i < objects@.len() ==> build_ok(
                    #[trigger] objects@[i],
                    time0 as int,
                    time1 as int,
                ),
            time0 <= time1,
            -RAY_BOUND as int <= time0 <= RAY_BOUND as int,
            -RAY_BOUND as int <= time1 <= RAY_BOUND as int,
        ensures
            node.wf(),
            node.time0 == time0,
            node.time1 == time1,
            cached_box_ok(node),
            spans_times(HittableEnum::BvhNode(node), time0 as int, time1 as int),
            forall|r: Ray, a: Rat, b: Rat|
                #[trigger] best_num(HittableEnum::BvhNode(node), r, a, b) == best_num_seq(
                    objects@,
                    r,
                    a,
                    b,
                ),
        decreases objects@.len(),
    {
        let ghost orig = objects@;
        let axis = random_axis();
        let n = objects.len();
        if n == 1 {
            let mut objects = objects;
            let only = objects.pop().unwrap();
            let bbox = match only.bounding_box(time0, time1) {
                Some(bb) => bb,
                None => {
                    proof {
                        assert(false);
                    }
                    AABB::new(crate::vec3::Vec3::zero(), crate::vec3::Vec3::zero())
                },
            };
            let node = BvhNode {
                left: Box::new(only),
                right: Box::new(HittableEnum::HittableList(HittableList::new())),
                bbox,
                time0,
                time1,
            };
            proof {
                assert(orig.len() == 1);
                assert(orig[0] == *node.left);
                match &*node.right {
                    HittableEnum::HittableList(el) => {
                        assert(el.objects@.len() == 0);
                        assert(wf_shape_seq(el.objects@));
                        assert(covered_by_seq(el.objects@, bbox, time0 as int, time1 as int));
                        assert(spans_times_seq(el.objects@, time0 as int, time1 as int));
                        assert(wf_shape(*node.right));
                        assert(covered_by(*node.right, bbox, time0 as int, time1 as int));
                        assert(spans_times(*node.right, time0 as int, time1 as int));
                    },
                    _ => {
                        assert(false);
                    },
                }
                assert forall|r: Ray, a: Rat, b: Rat|
                    #[trigger] best_num(HittableEnum::BvhNode(node), r, a, b) == best_num_seq(
                        orig,
                        r,
                        a,
                        b,
                    ) by {
                    match &*node.right {
                        HittableEnum::HittableList(el) => {
                            assert(el.objects@.len() == 0);
                            assert(best_num_seq(el.objects@, r, a, b) is None);
                            assert(best_num(*node.right, r, a, b) is None);
                        },
                        _ => {
                            assert(false);
                        },
                    }
                    assert(best_num(HittableEnum::BvhNode(node), r, a, b) == closer(
                        best_num(*node.left, r, a, b),
                        best_num(*node.right, r, a, b),
                    ));
                    assert(orig.drop_first().len() == 0);
                    assert(best_num_seq(orig.drop_first(), r, a, b) is None);
                    assert(best_num_seq(orig, r, a, b) == closer(
                        best_num(orig[0], r, a, b),
                        best_num_seq(orig.drop_first(), r, a, b),
                    ));
                }
            }
            node
        } else if n == 2 {
            let mut objects = objects;
            let second = objects.pop().unwrap();
            let first = objects.pop().unwrap();
            let (left_obj, right_obj) = order_two(first, second, axis);
            let left_box = match left_obj.bounding_box(time0, time1) {
                Some(bb) => bb,
                None => {
                    proof {
                        assert(false);
                    }
                    AABB::new(crate::vec3::Vec3::zero(), crate::vec3::Vec3::zero())
                },
            };
            let right_box = match right_obj.bounding_box(time0, time1) {
                Some(bb) => bb,
                None => {
                    proof {
                        assert(false);
                    }
                    AABB::new(crate::vec3::Vec3::zero(), crate::vec3::Vec3::zero())
                },
            };
            let bbox = AABB::surrounding_box(left_box, right_box);
            proof {
                lemma_covered_by_mono(left_obj, left_box, bbox, time0 as int, time1 as int);
                lemma_covered_by_mono(right_obj, right_box, bbox, time0 as int, time1 as int);
            }
            let node = BvhNode { left: Box::new(left_obj), right: Box::new(right_obj), bbox, time0, time1 };
            proof {
                assert(orig.len() == 2);
                assert(orig[0] == first && orig[1] == second);
                assert forall|r: Ray, a: Rat, b: Rat|
                    #[trigger] best_num(HittableEnum::BvhNode(node), r, a, b) == best_num_seq(
                        orig,
                        r,
                        a,
                        b,
                    ) by {
                    assert(best_num(HittableEnum::BvhNode(node), r, a, b) == closer(
                        best_num(*node.left, r, a, b),
                        best_num(*node.right, r, a, b),
                    ));
                    assert(orig.drop_first()[0] == orig[1]);
                    assert(orig.drop_first().drop_first().len() == 0);
                    assert(best_num_seq(orig.drop_first().drop_first(), r, a, b) is None);
                    assert(best_num_seq(orig.drop_first(), r, a, b) == closer(
                        best_num(second, r, a, b),
                        Option::None,
                    ));
                    assert(best_num_seq(orig, r, a, b) == closer(
                        best_num(first, r, a, b),
                        closer(best_num(second, r, a, b), Option::None),
                    ));
                    lemma_closer_comm(best_num(first, r, a, b), best_num(second, r, a, b));
                }
            }
            node
        } else {
            let sorted = sort_by_axis(objects, axis, Ghost(time0 as int), Ghost(time1 as int));
            let ghost sorted_view = sorted@;
            let mut left_part = sorted;
            let mid = n / 2;
            let right_part = left_part.split_off(mid);
            proof {
                assert(left_part@ =~= sorted_view.take(mid as int));
                assert(right_part@ =~= sorted_view.skip(mid as int));
                assert forall|i: int| 0 <= i < left_part@.len() implies build_ok(
                    #[trigger] left_part@[i],
                    time0 as int,
                    time1 as int,
                ) by {
                    assert(left_part@[i] == sorted_view[i]);
                }
                assert forall|i: int| 0 <= i < right_part@.len() implies build_ok(
                    #[trigger] right_part@[i],
                    time0 as int,
                    time1 as int,
                ) by {
                    assert(right_part@[i] == sorted_view[i + mid]);
                }
            }
            let left_node = Self::construct_tree(left_part, time0, time1);
            let right_node = Self::construct_tree(right_part, time0, time1);
            let bbox = AABB::surrounding_box(left_node.bbox, right_node.bbox);
            proof {
                lemma_node_covered(left_node, bbox, time0 as int, time1 as int);
                lemma_node_covered(right_node, bbox, time0 as int, time1 as int);
            }
            let ghost lv = sorted_view.take(mid as int);
            let ghost rv = sorted_view.skip(mid as int);
            let node = BvhNode {
                left: Box::new(HittableEnum::BvhNode(left_node)),
                right: Box::new(HittableEnum::BvhNode(right_node)),
                bbox,
                time0,
                time1,
            };
            proof {
                assert forall|r: Ray, a: Rat, b: Rat|
                    #[trigger] best_num(HittableEnum::BvhNode(node), r, a, b) == best_num_seq(
                        orig,
                        r,
                        a,
                        b,
                    ) by {
                    assert(best_num(HittableEnum::BvhNode(left_node), r, a, b) == best_num_seq(
                        lv,
                        r,
                        a,
                        b,
                    ));
                    assert(best_num(HittableEnum::BvhNode(right_node), r, a, b) == best_num_seq(
                        rv,
                        r,
                        a,
                        b,
                    ));
                    assert(lv + rv =~= sorted_view);
                    lemma_best_num_seq_append(lv, rv, r, a, b);
                    lemma_best_num_seq_perm(sorted_view, orig, r, a, b);
                }
            }
            node
        }
    }
}

/// A finished node, seen as a shape, is covered by any box containing its
/// cached box.
proof fn lemma_node_covered(node: BvhNode, bb: AABB, time0: int, time1: int)
    requires
        node.wf(),
        node.time0 as int == time0,
        node.time1 as int == time1,
        box_contains(bb, node.bbox),
    ensures
        covered_by(HittableEnum::BvhNode(node), bb, time0, time1),
{
    lemma_covered_by_mono(*node.left, node.bbox, bb, time0, time1);
    lemma_covered_by_mono(*node.right, node.bbox, bb, time0, time1);
}

} // verus!
