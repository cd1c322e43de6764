//! The bounding-volume hierarchy: a binary tree over the shapes of a scene
//! in which every node keeps the box that bounds what lies below it.
//!
//! The tree holds handles and boxes only. Whether a ray passes through a box
//! and where it meets a shape is arithmetic on reals, which the caller does:
//! a query is handed one function that tests a box and one that probes a
//! shape.

use crate::aabb::AABB;
use crate::hittable::{shrunk, HitRecord, Object};
use crate::interval::Interval;
use vstd::prelude::*;

verus! {

/// What hangs below a node: one shape, or another node.
#[derive(Debug)]
pub enum BvhChild {
    Leaf(Object),
    Node(Box<BvhNode>),
}

/// A node of the hierarchy: two children and the box that bounds both.
#[derive(Debug)]
pub struct BvhNode {
    pub left: BvhChild,
    pub right: BvhChild,
    pub bbox: AABB,
}

/// Names the three answers that a query of one node gathers: whether the
/// ray passes through the node's box, and what each side reports.
pub open spec fn answers(through: bool, l: Option<HitRecord>, r: Option<HitRecord>) -> bool {
    true
}

impl BvhChild {
    /// The box of the shape or of the node.
    pub open spec fn bounds(self) -> AABB {
        match self {
            BvhChild::Leaf(o) => o.bbox,
            BvhChild::Node(n) => n.bbox,
        }
    }
}

impl BvhNode {
    /// The shapes below the node, from left to right. A shape that hangs
    /// below both sides is listed twice.
    pub open spec fn leaves(self) -> Seq<Object>
        decreases self,
    {
        (match self.left {
            BvhChild::Leaf(o) => seq![o],
            BvhChild::Node(n) => n.leaves(),
        }) + (match self.right {
            BvhChild::Leaf(o) => seq![o],
            BvhChild::Node(n) => n.leaves(),
        })
    }

    /// The shapes below the left side.
    pub open spec fn left_leaves(self) -> Seq<Object> {
        match self.left {
            BvhChild::Leaf(o) => seq![o],
            BvhChild::Node(n) => n.leaves(),
        }
    }

    /// The shapes below the right side.
    pub open spec fn right_leaves(self) -> Seq<Object> {
        match self.right {
            BvhChild::Leaf(o) => seq![o],
            BvhChild::Node(n) => n.leaves(),
        }
    }

    /// Whether every node's box is the join of the boxes of its children.
    pub open spec fn boxes_are_unions(self) -> bool
        decreases self,
    {
        &&& self.bbox == AABB::union(self.left.bounds(), self.right.bounds())
        &&& (match self.left {
            BvhChild::Leaf(_) => true,
            BvhChild::Node(n) => n.boxes_are_unions(),
        })
        &&& (match self.right {
            BvhChild::Leaf(_) => true,
            BvhChild::Node(n) => n.boxes_are_unions(),
        })
    }

    /// Whether `rec` is what a query of this node within `ray_t` may
    /// return, given what `inside` and `probe` may answer.
    ///
    /// A node whose box the ray misses gives nothing. Otherwise the left
    /// side is asked within `ray_t`, the right side within `ray_t` drawn in
    /// to the left side's hit, and the right side's hit is returned where
    /// there is one, else the left side's.
    pub open spec fn outcome<B: Fn(AABB, Interval) -> bool, P: Fn(usize, Interval) -> Option<HitRecord>>(
        self,
        inside: &B,
        probe: &P,
        ray_t: Interval,
        rec: Option<HitRecord>,
    ) -> bool
        decreases self, 1int,
    {
        exists|through: bool, l: Option<HitRecord>, r: Option<HitRecord>| #[trigger]
            answers(through, l, r) && call_ensures(inside, (self.bbox, ray_t), through) && (!through
                ==> rec is None) && (through ==> self.left_outcome(inside, probe, ray_t, l)
                && self.right_outcome(inside, probe, shrunk(ray_t, l), r) && rec == if r is Some {
                r
            } else {
                l
            })
    }

    /// Whether `l` is what the left side may answer within `ray_t`.
    pub open spec fn left_outcome<B: Fn(AABB, Interval) -> bool, P: Fn(usize, Interval) -> Option<HitRecord>>(
        self,
        inside: &B,
        probe: &P,
        ray_t: Interval,
        l: Option<HitRecord>,
    ) -> bool
        decreases self, 0int,
    {
        match self.left {
            BvhChild::Leaf(o) => call_ensures(probe, (o.id, ray_t), l),
            BvhChild::Node(n) => n.outcome(inside, probe, ray_t, l),
        }
    }

    /// Whether `r` is what the right side may answer within `ray_t`.
    pub open spec fn right_outcome<B: Fn(AABB, Interval) -> bool, P: Fn(usize, Interval) -> Option<HitRecord>>(
        self,
        inside: &B,
        probe: &P,
        ray_t: Interval,
        r: Option<HitRecord>,
    ) -> bool
        decreases self, 0int,
    {
        match self.right {
            BvhChild::Leaf(o) => call_ensures(probe, (o.id, ray_t), r),
            BvhChild::Node(n) => n.outcome(inside, probe, ray_t, r),
        }
    }

    /// Whether `inside` and `probe` may be asked whatever a query of this
    /// node within a window that starts at `start` will ask them.
    pub open spec fn may_ask<B: Fn(AABB, Interval) -> bool, P: Fn(usize, Interval) -> Option<HitRecord>>(
        self,
        inside: &B,
        probe: &P,
        start: crate::scalar::Scalar,
    ) -> bool {
        &&& forall|b: AABB, w: Interval| w.min == start ==> #[trigger] call_requires(inside, (b, w))
        &&& forall|i: int, w: Interval|
            0 <= i < self.leaves().len() && w.min == start ==> #[trigger] call_requires(
                probe,
                (self.leaves()[i].id, w),
            )
    }

    /// The box that bounds everything below the node.
    pub fn bounding_box(&self) -> (r: AABB)
        ensures
            r == self.bbox,
    {
        self.bbox
    }

    /// The nearest hit of a ray within `ray_t` among the shapes below the
    /// node. `inside` says whether the ray passes through a box within a
    /// window, `probe` intersects the ray with the shape of a given handle
    /// within a window.
    pub fn hit<B: Fn(AABB, Interval) -> bool, P: Fn(usize, Interval) -> Option<HitRecord>>(
        &self,
        inside: &B,
        probe: &P,
        ray_t: &Interval,
    ) -> (rec: Option<HitRecord>)
        requires
            self.may_ask(inside, probe, ray_t.min),
        ensures
            self.outcome(inside, probe, *ray_t, rec),
        decreases self,
    {
        let through = inside(self.bbox, *ray_t);
        if !through {
            proof {
                assert(answers(through, None, None));
                assert(self.outcome(inside, probe, *ray_t, None));
            }
            return None;
        }
        let ghost ll = self.left_leaves();
        let ghost rl = self.right_leaves();
        proof {
            assert(self.leaves() == ll + rl);
            assert forall|i: int| 0 <= i < ll.len() implies ll[i] == self.leaves()[i] by {}
            assert forall|i: int| 0 <= i < rl.len() implies rl[i] == self.leaves()[ll.len() + i] by {}
        }
        let l = match &self.left {
            BvhChild::Leaf(o) => {
                proof {
                    assert(ll[0] == *o);
                    assert(self.leaves()[0] == *o);
                }
                probe(o.id, *ray_t)
            },
            BvhChild::Node(n) => {
                proof {
                    assert forall|i: int, w: Interval|
                        0 <= i < n.leaves().len() && w.min == ray_t.min implies #[trigger] call_requires(
                        probe,
                        (n.leaves()[i].id, w),
                    ) by {
                        assert(n.leaves()[i] == self.leaves()[i]);
                    }
                }
                n.hit(inside, probe, ray_t)
            },
        };
        let mut closest_so_far = ray_t.max;
        if let Some(temp_rec) = l {
            closest_so_far = temp_rec.t;
        }
        let window = Interval::new(ray_t.min, closest_so_far);
        assert(window == shrunk(*ray_t, l));
        let r = match &self.right {
            BvhChild::Leaf(o) => {
                proof {
                    assert(rl[0] == *o);
                    assert(self.leaves()[ll.len() as int] == *o);
                }
                probe(o.id, window)
            },
            BvhChild::Node(n) => {
                proof {
                    assert forall|i: int, w: Interval|
                        0 <= i < n.leaves().len() && w.min == window.min implies #[trigger] call_requires(
                        probe,
                        (n.leaves()[i].id, w),
                    ) by {
                        assert(n.leaves()[i] == self.leaves()[ll.len() + i]);
                    }
                }
                n.hit(inside, probe, &window)
            },
        };
        let rec = if r.is_some() { r } else { l };
        proof {
            assert(self.left_outcome(inside, probe, *ray_t, l));
            assert(self.right_outcome(inside, probe, shrunk(*ray_t, l), r));
            assert(call_ensures(inside, (self.bbox, *ray_t), through));
            assert(answers(through, l, r));
            assert(self.outcome(inside, probe, *ray_t, rec));
        }
        rec
    }
}

} // verus!
