//! The scene as a plain list of shapes.

use crate::aabb::AABB;
use crate::hittable::{shrunk, HitRecord, Object};
use crate::interval::Interval;
use crate::rtweekend::random_int_range;
use vstd::prelude::*;

verus! {

/// A list of shapes with the box that bounds them all.
#[derive(Debug)]
pub struct HittableList {
    pub objects: Vec<Object>,
    pub bbox: AABB,
}

/// The last hit among `outcomes`, which is the nearest where each probe
/// looked no further than the hit before it.
pub open spec fn last_hit(outcomes: Seq<Option<HitRecord>>) -> Option<HitRecord>
    decreases outcomes.len(),
{
    if outcomes.len() == 0 {
        None
    } else if outcomes.last() is Some {
        outcomes.last()
    } else {
        last_hit(outcomes.drop_last())
    }
}

/// Whether `outcomes` is what probing the shapes `objects` one after the
/// other may give: each shape is probed within the window `ray_t`, drawn in
/// to the nearest hit found before it.
pub open spec fn is_scan<P: Fn(usize, Interval) -> Option<HitRecord>>(
    objects: Seq<Object>,
    probe: &P,
    ray_t: Interval,
    outcomes: Seq<Option<HitRecord>>,
) -> bool {
    &&& outcomes.len() == objects.len()
    &&& forall|i: int|
        0 <= i < objects.len() ==> call_ensures(
            probe,
            (objects[i].id, shrunk(ray_t, last_hit(outcomes.take(i)))),
            #[trigger] outcomes[i],
        )
}

/// The box that bounds all of `objects`, joined on one after the other.
pub open spec fn bounds_of(objects: Seq<Object>) -> AABB
    decreases objects.len(),
{
    if objects.len() == 0 {
        AABB::nothing()
    } else {
        AABB::union(bounds_of(objects.drop_last()), objects.last().bbox)
    }
}

impl HittableList {
    /// The empty list, bounded by the empty box.
    pub fn new() -> (r: Self)
        ensures
            r.objects@ == Seq::<Object>::empty(),
            r.bbox == AABB::nothing(),
    {
        HittableList { objects: Vec::new(), bbox: AABB::default() }
    }

    /// Adds `object`, as [`HittableList::add`] does.
    pub fn initialise(&mut self, object: Object)
        ensures
            final(self).objects@ == old(self).objects@.push(object),
            final(self).bbox == AABB::union(old(self).bbox, object.bbox),
    {
        self.add(object);
    }

    /// The number of shapes.
    pub fn size(&self) -> (r: usize)
        ensures
            r == self.objects@.len(),
    {
        self.objects.len()
    }

    /// Puts `object` at the end of the list and widens the box to hold it.
    pub fn add(&mut self, object: Object)
        ensures
            final(self).objects@ == old(self).objects@.push(object),
            final(self).bbox == AABB::union(old(self).bbox, object.bbox),
    {
        self.objects.push(object);
        self.bbox = AABB::box_new(&self.bbox, &object.bbox);
    }

    /// Takes every shape out of the list. The box stays as it was.
    pub fn clear(&mut self)
        ensures
            final(self).objects@ == Seq::<Object>::empty(),
            final(self).bbox == old(self).bbox,
    {
        self.objects.clear();
    }

    /// The box that bounds the list.
    pub fn bounding_box(&self) -> (r: AABB)
        ensures
            r == self.bbox,
    {
        self.bbox
    }

    /// The nearest hit of a ray within `ray_t`. `probe` intersects the ray
    /// with the shape of a given handle within a given window; the shapes
    /// are probed in the order of the list, each no further than the nearest
    /// hit so far, and the last hit reported is returned.
    pub fn hit<P: Fn(usize, Interval) -> Option<HitRecord>>(
        &self,
        probe: &P,
        ray_t: &Interval,
    ) -> (rec: Option<HitRecord>)
        requires
            forall|i: int, w: Interval|
                0 <= i < self.objects@.len() && w.min == ray_t.min ==> #[trigger] call_requires(
                    probe,
                    (self.objects@[i].id, w),
                ),
        ensures
            exists|outcomes: Seq<Option<HitRecord>>|
                is_scan(self.objects@, probe, *ray_t, outcomes) && rec == last_hit(outcomes),
    {
        let mut rec: Option<HitRecord> = None;
        let mut closest_so_far = ray_t.max;
        let ghost mut outcomes: Seq<Option<HitRecord>> = Seq::empty();
        let mut k: usize = 0;
        while k < self.objects.len()
            invariant
                k <= self.objects@.len(),
                outcomes.len() == k,
                rec == last_hit(outcomes),
                closest_so_far == shrunk(*ray_t, rec).max,
                forall|i: int, w: Interval|
                    0 <= i < self.objects@.len() && w.min == ray_t.min ==> #[trigger] call_requires(
                        probe,
                        (self.objects@[i].id, w),
                    ),
                forall|i: int|
                    0 <= i < k ==> call_ensures(
                        probe,
                        (self.objects@[i].id, shrunk(*ray_t, last_hit(outcomes.take(i)))),
                        #[trigger] outcomes[i],
                    ),
            decreases self.objects@.len() - k,
        {
            let window = Interval::new(ray_t.min, closest_so_far);
            let found = probe(self.objects[k].id, window);
            proof {
                let before = outcomes;
                outcomes = outcomes.push(found);
                assert(outcomes.drop_last() == before);
                assert(window == shrunk(*ray_t, last_hit(before)));
                assert forall|i: int| 0 <= i < k + 1 implies call_ensures(
                    probe,
                    (self.objects@[i].id, shrunk(*ray_t, last_hit(outcomes.take(i)))),
                    #[trigger] outcomes[i],
                ) by {
                    if i < k {
                        assert(outcomes.take(i) == before.take(i));
                        assert(outcomes[i] == before[i]);
                    } else {
                        assert(outcomes.take(i) == before);
                    }
                }
            }
            if let Some(temp_rec) = found {
                closest_so_far = temp_rec.t;
                rec = Some(temp_rec);
            }
            k = k + 1;
        }
        proof {
            assert(is_scan(self.objects@, probe, *ray_t, outcomes));
        }
        rec
    }

    /// The place in the list of a shape drawn at random, each place being
    /// as likely as any other. The list must not be empty.
    pub fn random(&self) -> (r: usize)
        requires
            0 < self.objects@.len() <= u32::MAX,
        ensures
            r < self.objects@.len(),
    {
        let int_size = self.size();
        random_int_range(0, (int_size - 1) as u32) as usize
    }
}

impl Default for HittableList {
    /// The empty list.
    fn default() -> (r: Self)
        ensures
            r.objects@ == Seq::<Object>::empty(),
            r.bbox == AABB::nothing(),
    {
        Self::new()
    }
}

} // verus!
