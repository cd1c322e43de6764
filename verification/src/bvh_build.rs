//! Building the hierarchy: the shapes are sorted along the longest axis of
//! their joined box and parted in the middle, over and over.

use crate::aabb::AABB;
use crate::bvh::{BvhChild, BvhNode};
use crate::hittable::Object;
use crate::hittable_list::{bounds_of, HittableList};
use crate::interval::Interval;
use crate::reorder::lemma_same_things;
use crate::scalar::{value_lt, Scalar};
use std::cmp::Ordering;
use vstd::prelude::*;
use vstd::seq_lib::lemma_multiset_commutative;

verus! {

/// The number by which a shape is ordered along `axis`: the lower end of
/// its box on that axis.
pub open spec fn sort_key(o: Object, axis: u32) -> Scalar {
    o.bbox.side(axis).min
}

/// How `x` stands to `y`; two numbers of which neither is less, and any
/// pair with a NaN in it, count as equal.
pub open spec fn order_of(x: Scalar, y: Scalar) -> Ordering {
    if value_lt(x@, y@) {
        Ordering::Less
    } else if value_lt(y@, x@) {
        Ordering::Greater
    } else {
        Ordering::Equal
    }
}

/// Whether `a` has to stand after `b`: its key is the greater.
pub open spec fn after(a: Object, b: Object, axis: u32) -> bool {
    value_lt(sort_key(b, axis)@, sort_key(a, axis)@)
}

/// The sequence `s` with `x` put in from the end: `x` passes every shape
/// that has to stand after it and stops at the first that has not.
pub open spec fn inserted(s: Seq<Object>, x: Object, axis: u32) -> Seq<Object>
    decreases s.len(),
{
    if s.len() > 0 && after(s.last(), x, axis) {
        inserted(s.drop_last(), x, axis).push(s.last())
    } else {
        s.push(x)
    }
}

/// The shapes of `s` sorted by their keys along `axis`, least first, each
/// put in after those that stood before it: shapes with equal keys keep
/// their order.
pub open spec fn sorted_by_key(s: Seq<Object>, axis: u32) -> Seq<Object>
    decreases s.len(),
{
    if s.len() == 0 {
        s
    } else {
        inserted(sorted_by_key(s.drop_last(), axis), s.last(), axis)
    }
}

/// Whether no sort key along `axis` is a NaN.
pub open spec fn keys_are_numbers(objs: Seq<Object>, axis: u32) -> bool {
    forall|i: int| 0 <= i < objs.len() ==> !(sort_key(#[trigger] objs[i], axis)@ is Nan)
}

/// Whether no shape stands before one with a lesser key.
pub open spec fn ascending(objs: Seq<Object>, axis: u32) -> bool {
    forall|i: int, j: int|
        0 <= i < j < objs.len() ==> !after(#[trigger] objs[i], #[trigger] objs[j], axis)
}

/// Whether no shape of the first half has a greater key than one of the
/// second half, the halves being parted at `objs.len() / 2`.
pub open spec fn halves_in_order(objs: Seq<Object>, axis: u32) -> bool {
    forall|i: int, j: int|
        0 <= i < objs.len() / 2 <= j < objs.len() ==> !after(
            #[trigger] objs[i],
            #[trigger] objs[j],
            axis,
        )
}

/// Where every shape from place `m` on has to stand after `x` and the one
/// before place `m` has not, `x` is put in at place `m`.
pub proof fn lemma_inserted_at(s: Seq<Object>, x: Object, axis: u32, m: int)
    requires
        0 <= m <= s.len(),
        forall|k: int| m <= k < s.len() ==> after(#[trigger] s[k], x, axis),
        m == 0 || !after(s[m - 1], x, axis),
    ensures
        inserted(s, x, axis) == s.take(m).push(x) + s.skip(m),
    decreases s.len() - m,
{
    if m == s.len() {
        assert(s.take(m) == s);
        assert(s.skip(m) == Seq::<Object>::empty());
        assert(s.push(x) + Seq::<Object>::empty() == s.push(x));
    } else {
        let t = s.drop_last();
        assert(after(s[s.len() - 1], x, axis));
        assert forall|k: int| m <= k < t.len() implies after(#[trigger] t[k], x, axis) by {
            assert(t[k] == s[k]);
        }
        if m > 0 {
            assert(t[m - 1] == s[m - 1]);
        }
        lemma_inserted_at(t, x, axis, m);
        assert((t.take(m).push(x) + t.skip(m)).push(s.last()) == s.take(m).push(x) + s.skip(m));
    }
}

/// Putting a shape in adds that shape and nothing else.
pub proof fn lemma_inserted_keeps_all(s: Seq<Object>, x: Object, axis: u32)
    ensures
        inserted(s, x, axis).to_multiset() == s.to_multiset().insert(x),
        inserted(s, x, axis).len() == s.len() + 1,
    decreases s.len(),
{
    broadcast use vstd::seq_lib::group_to_multiset_ensures;
    broadcast use vstd::multiset::group_multiset_axioms;

    if s.len() > 0 && after(s.last(), x, axis) {
        let t = s.drop_last();
        lemma_inserted_keeps_all(t, x, axis);
        assert(s == t.push(s.last()));
        assert(inserted(s, x, axis).to_multiset() =~= s.to_multiset().insert(x));
    }
}

/// Sorting keeps every shape, as often as it was there.
pub proof fn lemma_sorted_keeps_all(s: Seq<Object>, axis: u32)
    ensures
        sorted_by_key(s, axis).to_multiset() == s.to_multiset(),
        sorted_by_key(s, axis).len() == s.len(),
    decreases s.len(),
{
    broadcast use vstd::seq_lib::group_to_multiset_ensures;

    if s.len() > 0 {
        let t = s.drop_last();
        lemma_sorted_keeps_all(t, axis);
        lemma_inserted_keeps_all(sorted_by_key(t, axis), s.last(), axis);
        assert(s == t.push(s.last()));
    }
}

/// Putting a shape into an ascending sequence leaves it ascending, where
/// every key is a number.
pub proof fn lemma_inserted_ascends(s: Seq<Object>, x: Object, axis: u32)
    requires
        ascending(s, axis),
        keys_are_numbers(s, axis),
        !(sort_key(x, axis)@ is Nan),
    ensures
        ascending(inserted(s, x, axis), axis),
        keys_are_numbers(inserted(s, x, axis), axis),
    decreases s.len(),
{
    let r = inserted(s, x, axis);
    lemma_inserted_keeps_all(s, x, axis);
    if s.len() > 0 && after(s.last(), x, axis) {
        let t = s.drop_last();
        let last = s.last();
        assert forall|i: int, j: int| 0 <= i < j < t.len() implies !after(
            #[trigger] t[i],
            #[trigger] t[j],
            axis,
        ) by {
            assert(t[i] == s[i] && t[j] == s[j]);
        }
        assert forall|i: int| 0 <= i < t.len() implies !(sort_key(#[trigger] t[i], axis)@ is Nan) by {
            assert(t[i] == s[i]);
        }
        lemma_inserted_ascends(t, x, axis);
        let u = inserted(t, x, axis);
        lemma_inserted_keeps_all(t, x, axis);
        assert(t.push(x).to_multiset() == t.to_multiset().insert(x)) by {
            broadcast use vstd::seq_lib::group_to_multiset_ensures;

        }
        lemma_same_things(u, t.push(x));
        assert forall|i: int, j: int| 0 <= i < j < r.len() implies !after(
            #[trigger] r[i],
            #[trigger] r[j],
            axis,
        ) by {
            if j < u.len() {
                assert(r[i] == u[i] && r[j] == u[j]);
            } else {
                assert(r[j] == last);
                assert(r[i] == u[i]);
                assert(t.push(x).contains(u[i]));
                let k = choose|k: int| 0 <= k < t.push(x).len() && t.push(x)[k] == u[i];
                if k < t.len() {
                    assert(t[k] == s[k]);
                    assert(!after(s[k], s[s.len() - 1], axis));
                }
            }
        }
        assert forall|i: int| 0 <= i < r.len() implies !(sort_key(#[trigger] r[i], axis)@ is Nan) by {
            if i < u.len() {
                assert(r[i] == u[i]);
            }
        }
    } else {
        assert forall|i: int, j: int| 0 <= i < j < r.len() implies !after(
            #[trigger] r[i],
            #[trigger] r[j],
            axis,
        ) by {
            if j < s.len() {
                assert(r[i] == s[i] && r[j] == s[j]);
            } else {
                assert(r[j] == x);
                assert(r[i] == s[i]);
                assert(!after(s[s.len() - 1], x, axis));
                if i < s.len() - 1 {
                    assert(!after(s[i], s[s.len() - 1], axis));
                }
            }
        }
        assert forall|i: int| 0 <= i < r.len() implies !(sort_key(#[trigger] r[i], axis)@ is Nan) by {
            if i < s.len() {
                assert(r[i] == s[i]);
            }
        }
    }
}

/// Sorted shapes ascend, where every key is a number.
pub proof fn lemma_sorted_ascends(s: Seq<Object>, axis: u32)
    requires
        keys_are_numbers(s, axis),
    ensures
        ascending(sorted_by_key(s, axis), axis),
        keys_are_numbers(sorted_by_key(s, axis), axis),
    decreases s.len(),
{
    if s.len() > 0 {
        let t = s.drop_last();
        assert forall|i: int| 0 <= i < t.len() implies !(sort_key(#[trigger] t[i], axis)@ is Nan) by {
            assert(t[i] == s[i]);
        }
        lemma_sorted_ascends(t, axis);
        assert(s.last() == s[s.len() - 1]);
        lemma_inserted_ascends(sorted_by_key(t, axis), s.last(), axis);
    }
}

/// Shapes that ascend already are left as they stand: none passes another
/// with an equal key.
pub proof fn lemma_sorted_leaves_ascending_alone(s: Seq<Object>, axis: u32)
    requires
        ascending(s, axis),
    ensures
        sorted_by_key(s, axis) == s,
    decreases s.len(),
{
    if s.len() > 0 {
        let t = s.drop_last();
        assert forall|i: int, j: int| 0 <= i < j < t.len() implies !after(
            #[trigger] t[i],
            #[trigger] t[j],
            axis,
        ) by {
            assert(t[i] == s[i] && t[j] == s[j]);
        }
        lemma_sorted_leaves_ascending_alone(t, axis);
        if t.len() > 0 {
            assert(t.last() == s[s.len() - 2]);
            assert(s.last() == s[s.len() - 1]);
            assert(!after(s[s.len() - 2], s[s.len() - 1], axis));
        }
        assert(t.push(s.last()) == s);
    }
}

/// Shapes that were sorted as a whole and then reordered within each half
/// are still the same shapes, with the halves in order.
pub proof fn lemma_parted(before: Seq<Object>, sorted: Seq<Object>, objs: Seq<Object>, axis: u32)
    requires
        sorted.to_multiset() == before.to_multiset(),
        sorted.len() == objs.len(),
        objs.take((objs.len() / 2) as int).to_multiset() == sorted.take(
            (objs.len() / 2) as int,
        ).to_multiset(),
        objs.skip((objs.len() / 2) as int).to_multiset() == sorted.skip(
            (objs.len() / 2) as int,
        ).to_multiset(),
        keys_are_numbers(before, axis) ==> ascending(sorted, axis),
    ensures
        objs.to_multiset() == before.to_multiset(),
        keys_are_numbers(objs, axis) ==> halves_in_order(objs, axis),
{
    let half = (objs.len() / 2) as int;
    let lo = objs.take(half);
    let hi = objs.skip(half);
    let slo = sorted.take(half);
    let shi = sorted.skip(half);
    assert(objs == lo + hi);
    assert(sorted == slo + shi);
    lemma_multiset_commutative(lo, hi);
    lemma_multiset_commutative(slo, shi);
    if keys_are_numbers(objs, axis) {
        lemma_same_things(before, objs);
        lemma_same_things(lo, slo);
        lemma_same_things(hi, shi);
        assert forall|i: int| 0 <= i < before.len() implies !(sort_key(
            #[trigger] before[i],
            axis,
        )@ is Nan) by {
            assert(objs.contains(before[i]));
            let b = choose|b: int| 0 <= b < objs.len() && objs[b] == before[i];
            assert(!(sort_key(objs[b], axis)@ is Nan));
        }
        assert(ascending(sorted, axis));
        assert forall|i: int, j: int| 0 <= i < objs.len() / 2 <= j < objs.len() implies !after(
            #[trigger] objs[i],
            #[trigger] objs[j],
            axis,
        ) by {
            assert(lo[i] == objs[i]);
            assert(hi[j - half] == objs[j]);
            assert(slo.contains(lo[i]));
            assert(shi.contains(hi[j - half]));
            let a = choose|a: int| 0 <= a < slo.len() && slo[a] == lo[i];
            let b = choose|b: int| 0 <= b < shi.len() && shi[b] == hi[j - half];
            assert(sorted[a] == slo[a]);
            assert(sorted[half + b] == shi[b]);
        }
    }
}

impl BvhNode {
    /// How `a` stands to `b` along the axis `axis_index`: by the lower ends
    /// of their boxes on that axis, equal where neither is less.
    pub fn box_compare(a: &Object, b: &Object, axis_index: u32) -> (o: Ordering)
        ensures
            o == order_of(sort_key(*a, axis_index), sort_key(*b, axis_index)),
    {
        let x = a.bbox.axis_interval(axis_index).min;
        let y = b.bbox.axis_interval(axis_index).min;
        if x.lt(y) {
            Ordering::Less
        } else if y.lt(x) {
            Ordering::Greater
        } else {
            Ordering::Equal
        }
    }

    /// Whether `a` has to come after `b`.
    fn comes_after(a: &Object, b: &Object, axis: u32) -> (r: bool)
        ensures
            r == after(*a, *b, axis),
    {
        match Self::box_compare(a, b, axis) {
            Ordering::Greater => true,
            _ => false,
        }
    }

    /// Sorts the shapes from `start` up to `end` by their keys along `axis`,
    /// least first. Shapes with equal keys keep their order.
    pub fn sort_span(objects: &mut Vec<Object>, start: usize, end: usize, axis: u32)
        requires
            start <= end <= old(objects)@.len(),
        ensures
            final(objects)@.len() == old(objects)@.len(),
            forall|i: int|
                0 <= i < start || end <= i < old(objects)@.len() ==> final(objects)@[i] == old(
                    objects,
                )@[i],
            final(objects)@.subrange(start as int, end as int) == sorted_by_key(
                old(objects)@.subrange(start as int, end as int),
                axis,
            ),
    {
        let ghost begin = objects@;
        let mut i: usize = start;
        proof {
            assert(begin.subrange(start as int, start as int) == Seq::<Object>::empty());
        }
        while i < end
            invariant
                start <= i <= end <= objects@.len(),
                objects@.len() == begin.len(),
                forall|k: int| 0 <= k < start || i <= k < begin.len() ==> objects@[k] == begin[k],
                objects@.subrange(start as int, i as int) == sorted_by_key(
                    begin.subrange(start as int, i as int),
                    axis,
                ),
            decreases end - i,
        {
            let ghost done = objects@.subrange(start as int, i as int);
            let ghost x = begin[i as int];
            let mut j: usize = i;
            proof {
                assert(objects@.subrange(start as int, i + 1) == done.take(i - start).push(x)
                    + done.skip(i - start));
            }
            while j > start && Self::comes_after(&objects[j - 1], &objects[j], axis)
                invariant
                    start <= j <= i < end <= objects@.len(),
                    objects@.len() == begin.len(),
                    done.len() == i - start,
                    forall|k: int|
                        0 <= k < start || i < k < begin.len() ==> objects@[k] == begin[k],
                    objects@.subrange(start as int, i + 1) == done.take(j - start).push(x)
                        + done.skip(j - start),
                    forall|k: int| j - start <= k < done.len() ==> after(#[trigger] done[k], x, axis),
                decreases j,
            {
                let ghost prior = objects@;
                let ghost m = j - start;
                let a = objects[j - 1];
                let b = objects[j];
                proof {
                    let span = prior.subrange(start as int, i + 1);
                    assert(span[m - 1] == prior[j - 1]);
                    assert(span[m] == prior[j as int]);
                    assert(a == done[m - 1]);
                    assert(b == x);
                }
                objects[j - 1] = b;
                objects[j] = a;
                proof {
                    let span = objects@.subrange(start as int, i + 1);
                    let want = done.take(m - 1).push(x) + done.skip(m - 1);
                    let was = prior.subrange(start as int, i + 1);
                    assert(span.len() == want.len());
                    assert forall|k: int| 0 <= k < span.len() implies span[k] == want[k] by {
                        if k < m - 1 {
                            assert(span[k] == prior[start + k]);
                            assert(was[k] == prior[start + k]);
                        } else if k == m - 1 {
                        } else if k == m {
                        } else {
                            assert(span[k] == prior[start + k]);
                            assert(was[k] == prior[start + k]);
                        }
                    }
                    assert(span == want);
                }
                j = j - 1;
            }
            proof {
                let m = j - start;
                if m > 0 {
                    let span = objects@.subrange(start as int, i + 1);
                    assert(span[m - 1] == objects@[j - 1]);
                    assert(span[m] == objects@[j as int]);
                    assert(done.take(m).push(x)[m - 1] == done[m - 1]);
                }
                lemma_inserted_at(done, x, axis, m);
                let upto = begin.subrange(start as int, i + 1);
                assert(upto.drop_last() == begin.subrange(start as int, i as int));
                assert(upto.last() == x);
            }
            i = i + 1;
        }
    }

    /// Whether the node is the hierarchy that the build makes of the shapes
    /// `input`, and `output` the order in which the build leaves them.
    ///
    /// One shape hangs below both sides; of two, one hangs below each; both
    /// are left as they stand. More shapes are sorted along the longest axis
    /// of their joined box, as `extent` measures it; the first half (rounded
    /// down) goes to the left side and the rest to the right, and each side
    /// is built in the same way. Every box is the join of the two boxes
    /// below it.
    #[verifier::opaque]
    pub open spec fn built_from<F: Fn(Interval) -> Scalar>(
        self,
        input: Seq<Object>,
        output: Seq<Object>,
        extent: &F,
    ) -> bool
        decreases self,
    {
        if input.len() == 1 {
            &&& output == input
            &&& self.left == BvhChild::Leaf(input[0])
            &&& self.right == BvhChild::Leaf(input[0])
            &&& self.bbox == AABB::union(input[0].bbox, input[0].bbox)
        } else if input.len() == 2 {
            &&& output == input
            &&& self.left == BvhChild::Leaf(input[0])
            &&& self.right == BvhChild::Leaf(input[1])
            &&& self.bbox == AABB::union(input[0].bbox, input[1].bbox)
        } else if input.len() > 2 {
            exists|axis: u32| #[trigger]
                bounds_of(input).longest_is(extent, axis) && {
                    let sorted = sorted_by_key(input, axis);
                    let mid = (input.len() / 2) as int;
                    &&& output.len() == input.len()
                    &&& self.left matches BvhChild::Node(l) && l.built_from(
                        sorted.take(mid),
                        output.take(mid),
                        extent,
                    )
                    &&& self.right matches BvhChild::Node(r) && r.built_from(
                        sorted.skip(mid),
                        output.skip(mid),
                        extent,
                    )
                    &&& self.bbox == AABB::union(self.left.bounds(), self.right.bounds())
                }
        } else {
            false
        }
    }

    /// Builds the hierarchy over all the shapes of `list`, which must not be
    /// empty, and leaves them in the order of the leaves. `extent` measures
    /// one side of a box, as in [`AABB::longest_axis`].
    pub fn initialise<F: Fn(Interval) -> Scalar>(list: &mut HittableList, extent: &F) -> (node: Self)
        requires
            old(list).objects@.len() > 0,
            forall|side: Interval| call_requires(extent, (side,)),
        ensures
            final(list).bbox == old(list).bbox,
            node.built_from(old(list).objects@, final(list).objects@, extent),
    {
        let len = list.size();
        let node = Self::new(&mut list.objects, 0, len, extent);
        proof {
            assert(list.objects@.subrange(0, len as int) == list.objects@);
            assert(old(list).objects@.subrange(0, len as int) == old(list).objects@);
        }
        node
    }

    /// Builds the hierarchy over the shapes from `start` up to `end`, of
    /// which there must be at least one, and reorders them on the way.
    ///
    /// The boxes of the span are joined and the longest axis of the joined
    /// box is taken. One shape or two are hung below the node as they stand.
    /// More are sorted along that axis by the lower ends of their boxes and
    /// parted in the middle, and each half is built in the same way.
    pub fn new<F: Fn(Interval) -> Scalar>(
        objects: &mut Vec<Object>,
        start: usize,
        end: usize,
        extent: &F,
    ) -> (node: Self)
        requires
            start < end <= old(objects)@.len(),
            forall|side: Interval| call_requires(extent, (side,)),
        ensures
            final(objects)@.len() == old(objects)@.len(),
            forall|i: int|
                0 <= i < start || end <= i < old(objects)@.len() ==> final(objects)@[i] == old(
                    objects,
                )@[i],
            node.built_from(
                old(objects)@.subrange(start as int, end as int),
                final(objects)@.subrange(start as int, end as int),
                extent,
            ),
        decreases end - start,
    {
        proof {
            reveal_with_fuel(BvhNode::built_from, 1);
        }
        let ghost input = objects@.subrange(start as int, end as int);
        let mut bbox = AABB::default();
        let mut k: usize = start;
        proof {
            assert(objects@.subrange(start as int, start as int) == Seq::<Object>::empty());
        }
        while k < end
            invariant
                start <= k <= end <= objects@.len(),
                bbox == bounds_of(objects@.subrange(start as int, k as int)),
            decreases end - k,
        {
            proof {
                let upto = objects@.subrange(start as int, k + 1);
                assert(upto.drop_last() == objects@.subrange(start as int, k as int));
                assert(upto.last() == objects@[k as int]);
            }
            bbox = AABB::box_new(&bbox, &objects[k].bbox);
            k = k + 1;
        }
        let axis = bbox.longest_axis(extent);
        let object_span: usize = end - start;
        if object_span == 1 {
            let left = objects[start];
            let right = objects[start];
            proof {
                assert(input[0] == objects@[start as int]);
            }
            Self {
                left: BvhChild::Leaf(left),
                right: BvhChild::Leaf(right),
                bbox: AABB::box_new(&left.bbox, &right.bbox),
            }
        } else if object_span == 2 {
            let left = objects[start];
            let right = objects[start + 1];
            proof {
                assert(input[0] == objects@[start as int]);
                assert(input[1] == objects@[start + 1]);
            }
            Self {
                left: BvhChild::Leaf(left),
                right: BvhChild::Leaf(right),
                bbox: AABB::box_new(&left.bbox, &right.bbox),
            }
        } else {
            Self::sort_span(objects, start, end, axis);
            let ghost sorted = objects@.subrange(start as int, end as int);
            let ghost sorted_all = objects@;
            let mid = start + object_span / 2;
            let left = Self::new(objects, start, mid, extent);
            let ghost halfway = objects@;
            let right = Self::new(objects, mid, end, extent);
            let bbox = AABB::box_new(&left.bbox, &right.bbox);
            let node = Self {
                left: BvhChild::Node(Box::new(left)),
                right: BvhChild::Node(Box::new(right)),
                bbox,
            };
            proof {
                let output = objects@.subrange(start as int, end as int);
                let half = (mid - start) as int;
                assert(half == input.len() / 2);
                assert(sorted == sorted_by_key(input, axis));
                assert(output.take(half) == halfway.subrange(start as int, mid as int));
                assert(output.skip(half) == objects@.subrange(mid as int, end as int));
                assert(sorted.take(half) == sorted_all.subrange(start as int, mid as int));
                assert(sorted.skip(half) == sorted_all.subrange(mid as int, end as int));
                assert(sorted.skip(half) == halfway.subrange(mid as int, end as int));
                assert(bounds_of(input).longest_is(extent, axis));
                assert(node.built_from(input, output, extent));
            }
            node
        }
    }
}

impl BvhNode {
    /// The axis along which the build parted the shapes `input` at this
    /// node; meaningful for more than two shapes.
    pub open spec fn parted_along<F: Fn(Interval) -> Scalar>(
        self,
        input: Seq<Object>,
        output: Seq<Object>,
        extent: &F,
    ) -> u32 {
        let tree = self;
        choose|axis: u32| #[trigger]
            bounds_of(input).longest_is(extent, axis) && {
                let sorted = sorted_by_key(input, axis);
                let mid = (input.len() / 2) as int;
                &&& output.len() == input.len()
                &&& tree.left matches BvhChild::Node(l) && l.built_from(
                    sorted.take(mid),
                    output.take(mid),
                    extent,
                )
                &&& tree.right matches BvhChild::Node(r) && r.built_from(
                    sorted.skip(mid),
                    output.skip(mid),
                    extent,
                )
                &&& tree.bbox == AABB::union(tree.left.bounds(), tree.right.bounds())
            }
    }
}

/// What a hierarchy built over one shape or two looks like.
pub proof fn lemma_built_of_few<F: Fn(Interval) -> Scalar>(
    tree: BvhNode,
    input: Seq<Object>,
    output: Seq<Object>,
    extent: &F,
)
    requires
        tree.built_from(input, output, extent),
        input.len() <= 2,
    ensures
        1 <= input.len(),
        output == input,
        tree.left == BvhChild::Leaf(input[0]),
        tree.right == BvhChild::Leaf(input[input.len() - 1]),
        tree.bbox == AABB::union(input[0].bbox, input[input.len() - 1].bbox),
{
    reveal_with_fuel(BvhNode::built_from, 1);
}

/// What a hierarchy built over more than two shapes looks like.
pub proof fn lemma_built_of_many<F: Fn(Interval) -> Scalar>(
    tree: BvhNode,
    input: Seq<Object>,
    output: Seq<Object>,
    extent: &F,
)
    requires
        tree.built_from(input, output, extent),
        input.len() > 2,
    ensures
        output.len() == input.len(),
        bounds_of(input).longest_is(extent, tree.parted_along(input, output, extent)),
        tree.left is Node,
        tree.right is Node,
        tree.left->Node_0.built_from(
            sorted_by_key(input, tree.parted_along(input, output, extent)).take(
                (input.len() / 2) as int,
            ),
            output.take((input.len() / 2) as int),
            extent,
        ),
        tree.right->Node_0.built_from(
            sorted_by_key(input, tree.parted_along(input, output, extent)).skip(
                (input.len() / 2) as int,
            ),
            output.skip((input.len() / 2) as int),
            extent,
        ),
        tree.bbox == AABB::union(tree.left.bounds(), tree.right.bounds()),
{
    reveal_with_fuel(BvhNode::built_from, 1);
}

/// The build leaves the same shapes behind, as often as they were there.
pub proof fn lemma_built_keeps_all<F: Fn(Interval) -> Scalar>(
    tree: BvhNode,
    input: Seq<Object>,
    output: Seq<Object>,
    extent: &F,
)
    requires
        tree.built_from(input, output, extent),
    ensures
        output.to_multiset() == input.to_multiset(),
        output.len() == input.len(),
    decreases tree,
{
    if input.len() > 2 {
        lemma_built_of_many(tree, input, output, extent);
        let axis = tree.parted_along(input, output, extent);
        let sorted = sorted_by_key(input, axis);
        let mid = (input.len() / 2) as int;
        let l = tree.left->Node_0;
        let r = tree.right->Node_0;
        lemma_sorted_keeps_all(input, axis);
        lemma_built_keeps_all(*l, sorted.take(mid), output.take(mid), extent);
        lemma_built_keeps_all(*r, sorted.skip(mid), output.skip(mid), extent);
        assert(output == output.take(mid) + output.skip(mid));
        assert(sorted == sorted.take(mid) + sorted.skip(mid));
        lemma_multiset_commutative(output.take(mid), output.skip(mid));
        lemma_multiset_commutative(sorted.take(mid), sorted.skip(mid));
    } else {
        lemma_built_of_few(tree, input, output, extent);
    }
}

/// In a hierarchy that was built, every box is the join of the two boxes
/// below it.
pub proof fn lemma_built_boxes_are_unions<F: Fn(Interval) -> Scalar>(
    tree: BvhNode,
    input: Seq<Object>,
    output: Seq<Object>,
    extent: &F,
)
    requires
        tree.built_from(input, output, extent),
    ensures
        tree.boxes_are_unions(),
    decreases tree,
{
    if input.len() > 2 {
        lemma_built_of_many(tree, input, output, extent);
        let axis = tree.parted_along(input, output, extent);
        let sorted = sorted_by_key(input, axis);
        let mid = (input.len() / 2) as int;
        let l = tree.left->Node_0;
        let r = tree.right->Node_0;
        lemma_built_boxes_are_unions(*l, sorted.take(mid), output.take(mid), extent);
        lemma_built_boxes_are_unions(*r, sorted.skip(mid), output.skip(mid), extent);
    } else {
        lemma_built_of_few(tree, input, output, extent);
    }
}

/// Below a hierarchy that was built hang the shapes that the build left
/// behind, and no others.
pub proof fn lemma_built_leaves<F: Fn(Interval) -> Scalar>(
    tree: BvhNode,
    input: Seq<Object>,
    output: Seq<Object>,
    extent: &F,
)
    requires
        tree.built_from(input, output, extent),
    ensures
        crate::nearest::same_shapes(tree.leaves(), output),
    decreases tree,
{
    if input.len() <= 2 {
        lemma_built_leaves_of_few(tree, input, output, extent);
    } else {
        lemma_built_of_many(tree, input, output, extent);
        let axis = tree.parted_along(input, output, extent);
        let sorted = sorted_by_key(input, axis);
        let mid = (input.len() / 2) as int;
        let lo = output.take(mid);
        let hi = output.skip(mid);
        let l = tree.left->Node_0;
        let r = tree.right->Node_0;
        lemma_built_leaves(*l, sorted.take(mid), lo, extent);
        lemma_built_leaves(*r, sorted.skip(mid), hi, extent);
        lemma_joined_shapes(l.leaves(), r.leaves(), lo, hi);
        assert(tree.leaves() == l.leaves() + r.leaves());
        assert(output == lo + hi);
    }
}

/// Below a hierarchy that was built over one shape or two hang those
/// shapes.
pub proof fn lemma_built_leaves_of_few<F: Fn(Interval) -> Scalar>(
    tree: BvhNode,
    input: Seq<Object>,
    output: Seq<Object>,
    extent: &F,
)
    requires
        tree.built_from(input, output, extent),
        input.len() <= 2,
    ensures
        crate::nearest::same_shapes(tree.leaves(), output),
{
    lemma_built_of_few(tree, input, output, extent);
    let leaves = tree.leaves();
    if input.len() == 1 {
        assert(leaves == seq![input[0], input[0]]);
        assert(output == seq![input[0]]);
        lemma_one_shape_twice(input[0]);
    } else {
        assert(leaves == seq![input[0], input[1]]);
        assert(output == leaves);
        lemma_shapes_are_their_own(leaves);
    }
}

/// One shape listed twice is still that one shape.
pub proof fn lemma_one_shape_twice(o: Object)
    ensures
        crate::nearest::same_shapes(seq![o, o], seq![o]),
{
    reveal(crate::nearest::holds_shape);
    let a = seq![o, o];
    let b = seq![o];
    assert forall|i: int| 0 <= i < a.len() implies crate::nearest::holds_shape(
        b,
        (#[trigger] a[i]).id,
    ) by {
        assert(b[0].id == a[i].id);
    }
    assert forall|i: int| 0 <= i < b.len() implies crate::nearest::holds_shape(
        a,
        (#[trigger] b[i]).id,
    ) by {
        assert(a[0].id == b[i].id);
    }
}

/// Any shapes are the same shapes as themselves.
pub proof fn lemma_shapes_are_their_own(s: Seq<Object>)
    ensures
        crate::nearest::same_shapes(s, s),
{
    reveal(crate::nearest::holds_shape);
    assert forall|i: int| 0 <= i < s.len() implies crate::nearest::holds_shape(
        s,
        (#[trigger] s[i]).id,
    ) by {
        assert(s[i].id == s[i].id);
    }
}

/// Two runs of shapes side by side hold what the two runs hold.
pub proof fn lemma_joined_shapes(ll: Seq<Object>, rl: Seq<Object>, lo: Seq<Object>, hi: Seq<Object>)
    requires
        crate::nearest::same_shapes(ll, lo),
        crate::nearest::same_shapes(rl, hi),
    ensures
        crate::nearest::same_shapes(ll + rl, lo + hi),
{
    lemma_joined_among(ll, rl, lo, hi);
    lemma_joined_among(lo, hi, ll, rl);
}

/// Shapes that are all among some others stay among them side by side.
pub proof fn lemma_joined_among(ll: Seq<Object>, rl: Seq<Object>, lo: Seq<Object>, hi: Seq<Object>)
    requires
        crate::nearest::all_among(ll, lo),
        crate::nearest::all_among(rl, hi),
    ensures
        crate::nearest::all_among(ll + rl, lo + hi),
{
    reveal(crate::nearest::holds_shape);
    let a = ll + rl;
    let b = lo + hi;
    assert forall|i: int| 0 <= i < a.len() implies crate::nearest::holds_shape(
        b,
        (#[trigger] a[i]).id,
    ) by {
        if i < ll.len() {
            assert(a[i] == ll[i]);
            assert(crate::nearest::holds_shape(lo, ll[i].id));
            let j = choose|j: int| 0 <= j < lo.len() && (#[trigger] lo[j]).id == ll[i].id;
            assert(b[j] == lo[j]);
        } else {
            assert(a[i] == rl[i - ll.len()]);
            assert(crate::nearest::holds_shape(hi, rl[i - ll.len()].id));
            let j = choose|j: int| 0 <= j < hi.len() && (#[trigger] hi[j]).id == rl[i - ll.len()].id;
            assert(b[lo.len() + j] == hi[j]);
        }
    }
}

/// Shapes that are the same as some others are the same as those others in
/// any order.
pub proof fn lemma_same_shapes_in_any_order(a: Seq<Object>, b: Seq<Object>, c: Seq<Object>)
    requires
        crate::nearest::same_shapes(a, b),
        b.to_multiset() == c.to_multiset(),
    ensures
        crate::nearest::same_shapes(a, c),
{
    reveal(crate::nearest::holds_shape);
    lemma_same_things(b, c);
    lemma_same_things(c, b);
    assert forall|i: int| 0 <= i < a.len() implies crate::nearest::holds_shape(
        c,
        (#[trigger] a[i]).id,
    ) by {
        assert(crate::nearest::holds_shape(b, a[i].id));
        let j = choose|j: int| 0 <= j < b.len() && (#[trigger] b[j]).id == a[i].id;
        assert(c.contains(b[j]));
        let k = choose|k: int| 0 <= k < c.len() && c[k] == b[j];
        assert(c[k].id == a[i].id);
    }
    assert forall|i: int| 0 <= i < c.len() implies crate::nearest::holds_shape(
        a,
        (#[trigger] c[i]).id,
    ) by {
        assert(b.contains(c[i]));
        let k = choose|k: int| 0 <= k < b.len() && b[k] == c[i];
        assert(crate::nearest::holds_shape(a, b[k].id));
    }
}

/// Where the build parted more than two shapes and every key along the axis
/// taken is a number, no shape of the first half has a greater key than one
/// of the second half.
pub proof fn lemma_built_halves_are_in_order<F: Fn(Interval) -> Scalar>(
    tree: BvhNode,
    input: Seq<Object>,
    output: Seq<Object>,
    extent: &F,
)
    requires
        tree.built_from(input, output, extent),
        input.len() > 2,
    ensures
        bounds_of(input).longest_is(extent, tree.parted_along(input, output, extent)),
        keys_are_numbers(output, tree.parted_along(input, output, extent)) ==> halves_in_order(
            output,
            tree.parted_along(input, output, extent),
        ),
{
    lemma_built_of_many(tree, input, output, extent);
    let axis = tree.parted_along(input, output, extent);
    let sorted = sorted_by_key(input, axis);
    let mid = (input.len() / 2) as int;
    let l = tree.left->Node_0;
    let r = tree.right->Node_0;
    lemma_sorted_keeps_all(input, axis);
    lemma_built_keeps_all(*l, sorted.take(mid), output.take(mid), extent);
    lemma_built_keeps_all(*r, sorted.skip(mid), output.skip(mid), extent);
    if keys_are_numbers(input, axis) {
        lemma_sorted_ascends(input, axis);
    }
    lemma_parted(input, sorted, output, axis);
}

/// What the build leaves behind: the same shapes in another order, all of
/// them below the node and no others, and every box the join of the two
/// below it.
pub proof fn lemma_built_tree_holds_the_shapes<F: Fn(Interval) -> Scalar>(
    tree: BvhNode,
    input: Seq<Object>,
    output: Seq<Object>,
    extent: &F,
)
    requires
        tree.built_from(input, output, extent),
    ensures
        output.to_multiset() == input.to_multiset(),
        crate::nearest::same_shapes(tree.leaves(), output),
        crate::nearest::same_shapes(tree.leaves(), input),
        tree.boxes_are_unions(),
{
    lemma_built_keeps_all(tree, input, output, extent);
    lemma_built_boxes_are_unions(tree, input, output, extent);
    lemma_built_leaves(tree, input, output, extent);
    lemma_same_shapes_in_any_order(tree.leaves(), output, input);
}

} // verus!
