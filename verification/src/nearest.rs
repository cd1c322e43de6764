//! Why the hierarchy may stand in for the list: both find the nearest hit.
//!
//! The statements here are about probes that behave like a shape with one
//! first crossing beyond the start of the window: asked within a window, the
//! probe reports that crossing where it lies within the window and nothing
//! otherwise.

use crate::aabb::AABB;
use crate::bvh::{answers, BvhChild, BvhNode};
use crate::hittable::{shrunk, HitRecord, Object};
use crate::hittable_list::{is_scan, last_hit};
use crate::interval::Interval;
use crate::scalar::{lemma_order_is_total, value_lt, Scalar};
use vstd::prelude::*;

verus! {

/// How a ray meets one shape: the first crossing beyond the start of the
/// window, if there is one, and whether the shape counts a crossing at the
/// very end of a window as a hit, as the flat shapes do, or only one that
/// lies strictly inside, as the sphere does.
pub ghost struct Meeting {
    pub crossing: Option<HitRecord>,
    pub closed: bool,
}

/// What a probe reports within the window `w` of a shape that the ray meets
/// as `m` says.
pub open spec fn seen(m: Meeting, w: Interval) -> Option<HitRecord> {
    match m.crossing {
        Some(h) => if (m.closed && w.holds(h.t)) || (!m.closed && w.holds_inside(h.t)) {
            Some(h)
        } else {
            None
        },
        None => None,
    }
}

/// Whether `probe`, asked within a window that starts at `start`, reports
/// of every shape its first crossing according to `first`.
pub open spec fn probe_reports<P: Fn(usize, Interval) -> Option<HitRecord>>(
    probe: &P,
    first: spec_fn(usize) -> Meeting,
    start: Scalar,
) -> bool {
    forall|id: usize, w: Interval, o: Option<HitRecord>|
        w.min == start && #[trigger] call_ensures(probe, (id, w), o) ==> o == seen(first(id), w)
}

/// The nearest first crossing within `w` among `objects`; of several at one
/// distance, the one that stands first.
pub open spec fn best(
    objects: Seq<Object>,
    first: spec_fn(usize) -> Meeting,
    w: Interval,
) -> Option<HitRecord>
    decreases objects.len(),
{
    if objects.len() == 0 {
        None
    } else {
        let prev = best(objects.drop_last(), first, w);
        let cur = seen(first(objects.last().id), shrunk(w, prev));
        if cur is Some {
            cur
        } else {
            prev
        }
    }
}

/// Whether every shape of `a` is also in `b`, by its handle.
pub open spec fn all_among(a: Seq<Object>, b: Seq<Object>) -> bool {
    forall|i: int| 0 <= i < a.len() ==> holds_shape(b, (#[trigger] a[i]).id)
}

/// Whether a shape with the handle `id` is in `b`.
#[verifier::opaque]
pub open spec fn holds_shape(b: Seq<Object>, id: usize) -> bool {
    exists|j: int| 0 <= j < b.len() && (#[trigger] b[j]).id == id
}

/// Whether `a` and `b` hold the same shapes, in whatever order and however
/// often.
pub open spec fn same_shapes(a: Seq<Object>, b: Seq<Object>) -> bool {
    all_among(a, b) && all_among(b, a)
}

/// Whether no two crossings within `w` among `objects` lie at one distance
/// without being one and the same record.
pub open spec fn no_two_coincide(
    objects: Seq<Object>,
    first: spec_fn(usize) -> Meeting,
    w: Interval,
) -> bool {
    forall|i: int, j: int|
        0 <= i < objects.len() && 0 <= j < objects.len() ==> match (
            seen(first(#[trigger] objects[i].id), w),
            seen(first(#[trigger] objects[j].id), w),
        ) {
            (Some(g), Some(h)) => g.t@ == h.t@ ==> g == h,
            _ => true,
        }
}

impl BvhNode {
    /// Whether the boxes are safe to prune by: where `inside` says that the
    /// ray misses a node's box within a window that starts at `start`, no
    /// shape below that node has its first crossing within the window.
    pub open spec fn prunes_safely<B: Fn(AABB, Interval) -> bool>(
        self,
        inside: &B,
        first: spec_fn(usize) -> Meeting,
        start: Scalar,
    ) -> bool
        decreases self,
    {
        &&& forall|w: Interval, i: int|
            w.min == start && #[trigger] call_ensures(inside, (self.bbox, w), false) && 0 <= i
                < self.leaves().len() ==> seen(first(#[trigger] self.leaves()[i].id), w) is None
        &&& match self.left {
            BvhChild::Leaf(_) => true,
            BvhChild::Node(n) => n.prunes_safely(inside, first, start),
        }
        &&& match self.right {
            BvhChild::Leaf(_) => true,
            BvhChild::Node(n) => n.prunes_safely(inside, first, start),
        }
    }
}

/// Probing a list shape by shape finds the nearest first crossing.
pub proof fn lemma_scan_finds_best<P: Fn(usize, Interval) -> Option<HitRecord>>(
    objects: Seq<Object>,
    probe: &P,
    first: spec_fn(usize) -> Meeting,
    ray_t: Interval,
    outcomes: Seq<Option<HitRecord>>,
)
    requires
        probe_reports(probe, first, ray_t.min),
        is_scan(objects, probe, ray_t, outcomes),
    ensures
        last_hit(outcomes) == best(objects, first, ray_t),
    decreases objects.len(),
{
    if objects.len() > 0 {
        let n = objects.len() - 1;
        let objs = objects.drop_last();
        let outs = outcomes.drop_last();
        assert forall|i: int| 0 <= i < objs.len() implies call_ensures(
            probe,
            (objs[i].id, shrunk(ray_t, last_hit(outs.take(i)))),
            #[trigger] outs[i],
        ) by {
            assert(outs.take(i) == outcomes.take(i));
            assert(outs[i] == outcomes[i]);
        }
        lemma_scan_finds_best(objs, probe, first, ray_t, outs);
        assert(outcomes.take(n) == outs);
        assert(call_ensures(probe, (objects[n].id, shrunk(ray_t, last_hit(outs))), outcomes[n]));
        assert(shrunk(ray_t, last_hit(outs)).min == ray_t.min);
    }
}

/// The nearest crossing among two runs of shapes is found by taking the
/// nearest of the first run and then looking no further than that in the
/// second.
pub proof fn lemma_best_of_two_runs(
    a: Seq<Object>,
    b: Seq<Object>,
    first: spec_fn(usize) -> Meeting,
    w: Interval,
)
    ensures
        best(a + b, first, w) == {
            let l = best(a, first, w);
            let r = best(b, first, shrunk(w, l));
            if r is Some {
                r
            } else {
                l
            }
        },
    decreases b.len(),
{
    if b.len() == 0 {
        assert(a + b == a);
    } else {
        let bb = b.drop_last();
        assert((a + b).drop_last() == a + bb);
        assert((a + b).last() == b.last());
        lemma_best_of_two_runs(a, bb, first, w);
        let l = best(a, first, w);
        let rr = best(bb, first, shrunk(w, l));
        let prev = best(a + bb, first, w);
        assert(shrunk(w, prev) == shrunk(shrunk(w, l), rr));
    }
}

/// Where no shape has a crossing within the window, none is found.
pub proof fn lemma_best_of_none(
    objects: Seq<Object>,
    first: spec_fn(usize) -> Meeting,
    w: Interval,
)
    requires
        forall|i: int| 0 <= i < objects.len() ==> seen(first(#[trigger] objects[i].id), w) is None,
    ensures
        best(objects, first, w) is None,
    decreases objects.len(),
{
    if objects.len() > 0 {
        let objs = objects.drop_last();
        assert forall|i: int| 0 <= i < objs.len() implies seen(first(#[trigger] objs[i].id), w) is None by {
            assert(objs[i] == objects[i]);
        }
        lemma_best_of_none(objs, first, w);
        assert(objects.last() == objects[objects.len() - 1]);
    }
}

/// What is found is a crossing of one of the shapes within the window, and
/// no shape has a crossing within the window that lies nearer.
pub proof fn lemma_best_is_nearest(
    objects: Seq<Object>,
    first: spec_fn(usize) -> Meeting,
    w: Interval,
)
    ensures
        best(objects, first, w) is None ==> forall|i: int|
            0 <= i < objects.len() ==> seen(first(#[trigger] objects[i].id), w) is None,
        best(objects, first, w) matches Some(h) ==> {
            &&& w.holds(h.t)
            &&& exists|i: int| 0 <= i < objects.len() && seen(first(#[trigger] objects[i].id), w) == Some(h)
            &&& forall|j: int|
                0 <= j < objects.len() ==> (seen(first(#[trigger] objects[j].id), w) matches Some(g)
                    ==> !value_lt(g.t@, h.t@))
        },
    decreases objects.len(),
{
    if objects.len() > 0 {
        let n = objects.len() - 1;
        let objs = objects.drop_last();
        lemma_best_is_nearest(objs, first, w);
        let prev = best(objs, first, w);
        let x = objects[n];
        assert(objects.last() == x);
        let cur = seen(first(x.id), shrunk(w, prev));
        let res = best(objects, first, w);
        assert forall|i: int| 0 <= i < objs.len() implies #[trigger] objs[i] == objects[i] by {}
        match res {
            None => {
                assert forall|i: int| 0 <= i < objects.len() implies seen(
                    first(#[trigger] objects[i].id),
                    w,
                ) is None by {
                    if i < n {
                        assert(objs[i] == objects[i]);
                    }
                }
            },
            Some(h) => {
                if cur is Some {
                    assert(seen(first(objects[n].id), w) == Some(h));
                } else {
                    let i = choose|i: int| 0 <= i < objs.len() && seen(first(#[trigger] objs[i].id), w) == Some(h);
                    assert(objs[i] == objects[i]);
                    assert(seen(first(objects[i].id), w) == Some(h));
                }
                assert forall|j: int| 0 <= j < objects.len() implies (seen(
                    first(#[trigger] objects[j].id),
                    w,
                ) matches Some(g) ==> !value_lt(g.t@, h.t@)) by {
                    if j < n {
                        assert(objs[j] == objects[j]);
                    }
                }
            },
        }
    }
}

/// A query of the hierarchy finds the nearest first crossing among its
/// leaves, provided its boxes are safe to prune by.
pub proof fn lemma_tree_finds_best<B: Fn(AABB, Interval) -> bool, P: Fn(usize, Interval) -> Option<HitRecord>>(
    tree: BvhNode,
    inside: &B,
    probe: &P,
    first: spec_fn(usize) -> Meeting,
    ray_t: Interval,
    rec: Option<HitRecord>,
)
    requires
        probe_reports(probe, first, ray_t.min),
        tree.prunes_safely(inside, first, ray_t.min),
        tree.outcome(inside, probe, ray_t, rec),
    ensures
        rec == best(tree.leaves(), first, ray_t),
    decreases tree,
{
    let (through, l, r): (bool, Option<HitRecord>, Option<HitRecord>) = choose|
        through: bool,
        l: Option<HitRecord>,
        r: Option<HitRecord>,
    | #[trigger]
        answers(through, l, r) && call_ensures(inside, (tree.bbox, ray_t), through) && (!through
            ==> rec is None) && (through ==> tree.left_outcome(inside, probe, ray_t, l)
            && tree.right_outcome(inside, probe, shrunk(ray_t, l), r) && rec == if r is Some {
            r
        } else {
            l
        });
    if !through {
        assert forall|i: int| 0 <= i < tree.leaves().len() implies seen(
            first(#[trigger] tree.leaves()[i].id),
            ray_t,
        ) is None by {}
        lemma_best_of_none(tree.leaves(), first, ray_t);
    } else {
        let w = shrunk(ray_t, l);
        match tree.left {
            BvhChild::Leaf(o) => {
                lemma_best_of_one(o, first, ray_t);
            },
            BvhChild::Node(n) => {
                lemma_tree_finds_best(*n, inside, probe, first, ray_t, l);
            },
        }
        assert(l == best(tree.left_leaves(), first, ray_t));
        match tree.right {
            BvhChild::Leaf(o) => {
                lemma_best_of_one(o, first, w);
            },
            BvhChild::Node(n) => {
                lemma_tree_finds_best(*n, inside, probe, first, w, r);
            },
        }
        assert(r == best(tree.right_leaves(), first, w));
        lemma_best_of_two_runs(tree.left_leaves(), tree.right_leaves(), first, ray_t);
        assert(tree.leaves() == tree.left_leaves() + tree.right_leaves());
    }
}

/// Of one shape alone, what is found is what the probe reports of it.
pub proof fn lemma_best_of_one(o: Object, first: spec_fn(usize) -> Meeting, w: Interval)
    ensures
        best(seq![o], first, w) == seen(first(o.id), w),
{
    let s = seq![o];
    assert(s.drop_last().len() == 0);
    assert(best(s.drop_last(), first, w) is None);
    assert(s.last() == o);
}

/// A query of the hierarchy and a scan of the list agree.
///
/// Let the tree and the list hold the same shapes, let the probe report of
/// each shape its first crossing where that lies within the window, as the
/// shape counts it, and let the boxes be safe to prune by. Then the tree finds a hit exactly
/// if the scan does, both hits lie at the same distance along the ray, and
/// where no two crossings within the window lie at one distance the two
/// records are the same.
pub proof fn lemma_bvh_agrees_with_scan<B: Fn(AABB, Interval) -> bool, P: Fn(usize, Interval) -> Option<HitRecord>>(
    tree: BvhNode,
    objects: Seq<Object>,
    inside: &B,
    probe: &P,
    first: spec_fn(usize) -> Meeting,
    ray_t: Interval,
    from_tree: Option<HitRecord>,
    outcomes: Seq<Option<HitRecord>>,
)
    requires
        same_shapes(tree.leaves(), objects),
        probe_reports(probe, first, ray_t.min),
        tree.prunes_safely(inside, first, ray_t.min),
        tree.outcome(inside, probe, ray_t, from_tree),
        is_scan(objects, probe, ray_t, outcomes),
    ensures
        from_tree is Some <==> last_hit(outcomes) is Some,
        from_tree matches Some(g) ==> g.t@ == last_hit(outcomes).unwrap().t@,
        no_two_coincide(objects, first, ray_t) ==> from_tree == last_hit(outcomes),
{
    reveal(holds_shape);
    let leaves = tree.leaves();
    lemma_tree_finds_best(tree, inside, probe, first, ray_t, from_tree);
    lemma_scan_finds_best(objects, probe, first, ray_t, outcomes);
    lemma_best_is_nearest(leaves, first, ray_t);
    lemma_best_is_nearest(objects, first, ray_t);
    let from_scan = last_hit(outcomes);
    if let Some(g) = from_tree {
        let i = choose|i: int| 0 <= i < leaves.len() && seen(first(#[trigger] leaves[i].id), ray_t) == Some(g);
        assert(holds_shape(objects, leaves[i].id));
        let j = choose|j: int| 0 <= j < objects.len() && (#[trigger] objects[j]).id == leaves[i].id;
        assert(seen(first(objects[j].id), ray_t) == Some(g));
        assert(from_scan is Some);
    }
    if let Some(h) = from_scan {
        let j = choose|j: int| 0 <= j < objects.len() && seen(first(#[trigger] objects[j].id), ray_t) == Some(h);
        assert(holds_shape(leaves, objects[j].id));
        let i = choose|i: int| 0 <= i < leaves.len() && (#[trigger] leaves[i]).id == objects[j].id;
        assert(seen(first(leaves[i].id), ray_t) == Some(h));
        assert(from_tree is Some);
        let g = from_tree.unwrap();
        let i2 = choose|i: int| 0 <= i < leaves.len() && seen(first(#[trigger] leaves[i].id), ray_t) == Some(g);
        assert(holds_shape(objects, leaves[i2].id));
        let j2 = choose|j: int| 0 <= j < objects.len() && (#[trigger] objects[j]).id == leaves[i2].id;
        assert(seen(first(objects[j2].id), ray_t) == Some(g));
        assert(!value_lt(g.t@, h.t@));
        assert(!value_lt(h.t@, g.t@));
        lemma_order_is_total(g.t@, h.t@);
        assert(g.t@ == h.t@);
        if no_two_coincide(objects, first, ray_t) {
            assert(seen(first(objects[j].id), ray_t) == Some(h));
            assert(g == h);
        }
    }
}

} // verus!
