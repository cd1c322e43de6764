//! Axis-aligned boxes: one range per axis.
//!
//! A box is built from ranges or from two corners, and each of its sides is
//! made at least `0.0001` thick, so that a flat shape is still bounded by a
//! box that a ray can pass through. Measuring and widening a side is
//! arithmetic on reals, which the caller hands in as two functions, as it
//! hands in the ray parameters at which a ray crosses the six planes of a
//! box: the library orders the corners, joins boxes, decides where to
//! thicken and decides the slab test.

use crate::interval::{hull, Interval};
use crate::scalar::{value_le, value_lt, Scalar, Value};
use crate::vec3::Vector;
use vstd::prelude::*;

verus! {

/// A box with its sides parallel to the axes.
#[derive(Clone, Copy, Debug)]
pub struct AABB {
    pub x: Interval,
    pub y: Interval,
    pub z: Interval,
}

/// The ray parameters at which a ray crosses the two planes that bound a box
/// along one axis, in no particular order.
#[derive(Clone, Copy, Debug)]
pub struct Crossing {
    pub t0: Scalar,
    pub t1: Scalar,
}

impl Crossing {
    /// The crossing that comes first along the ray.
    pub open spec fn near(&self) -> Scalar {
        if value_lt(self.t0@, self.t1@) {
            self.t0
        } else {
            self.t1
        }
    }

    /// The crossing that comes last along the ray.
    pub open spec fn far(&self) -> Scalar {
        if value_lt(self.t0@, self.t1@) {
            self.t1
        } else {
            self.t0
        }
    }

    /// Whether neither parameter is a NaN.
    pub open spec fn is_number(&self) -> bool {
        !(self.t0@ is Nan) && !(self.t1@ is Nan)
    }
}

/// The pattern of `0.0001`, the least thickness of a side of a box.
pub const THINNEST_BITS: u64 = 0x3F1A_36E2_EB1C_432D;

/// Names the two answers that thickening one side gathers: its extent, and
/// the widened side.
pub open spec fn measured(size: Scalar, wide: Interval) -> bool {
    true
}

/// Whether `out` is what thickening `side` may give, given what `extent`
/// and `expand` may answer: the side widened by `0.0001` where its extent is
/// less than that, and the side itself otherwise.
pub open spec fn padded<E: Fn(Interval) -> Scalar, X: Fn(Interval, Scalar) -> Interval>(
    side: Interval,
    extent: &E,
    expand: &X,
    out: Interval,
) -> bool {
    exists|size: Scalar, wide: Interval| #[trigger]
        measured(size, wide) && call_ensures(extent, (side,), size) && out == wide && if value_lt(
            size@,
            (Scalar { bits: THINNEST_BITS })@,
        ) {
            call_ensures(expand, (side, Scalar { bits: THINNEST_BITS }), wide)
        } else {
            wide == side
        }
}

/// The range `t` cut down to what lies between the two planes of `c`.
pub open spec fn narrowed(t: Interval, c: Crossing) -> Interval {
    Interval {
        min: if value_lt(t.min@, c.near()@) { c.near() } else { t.min },
        max: if value_lt(c.far()@, t.max@) { c.far() } else { t.max },
    }
}

/// Whether the range has run out: `max <= min`.
pub open spec fn exhausted(t: Interval) -> bool {
    value_le(t.max@, t.min@)
}

/// The slab test: the range is cut down axis by axis and the ray misses as
/// soon as nothing is left.
pub open spec fn slab_hit(t: Interval, c: Seq<Crossing>) -> bool {
    let a = narrowed(t, c[0]);
    let b = narrowed(a, c[1]);
    let d = narrowed(b, c[2]);
    !exhausted(a) && !exhausted(b) && !exhausted(d)
}

/// The axis of the greatest of three extents: the later axis wins a tie.
pub open spec fn widest_axis(sx: Scalar, sy: Scalar, sz: Scalar) -> u32 {
    if value_lt(sy@, sx@) {
        if value_lt(sz@, sx@) {
            0
        } else {
            2
        }
    } else if value_lt(sz@, sy@) {
        1
    } else {
        2
    }
}

impl AABB {
    /// The side `side`, made at least `0.0001` thick: where `extent` finds
    /// it thinner, `expand` widens it by that much, half at either end.
    pub fn pad<E: Fn(Interval) -> Scalar, X: Fn(Interval, Scalar) -> Interval>(
        side: Interval,
        extent: &E,
        expand: &X,
    ) -> (r: Interval)
        requires
            call_requires(extent, (side,)),
            call_requires(expand, (side, Scalar { bits: THINNEST_BITS })),
        ensures
            padded(side, extent, expand, r),
    {
        let delta = Scalar::from_bits(THINNEST_BITS);
        let size = extent(side);
        if size.lt(delta) {
            let wide = expand(side, delta);
            proof {
                assert(measured(size, wide));
            }
            wide
        } else {
            proof {
                assert(measured(size, side));
            }
            side
        }
    }

    /// The box with the three ranges as its sides, each made at least
    /// `0.0001` thick as in [`AABB::pad`].
    pub fn new<E: Fn(Interval) -> Scalar, X: Fn(Interval, Scalar) -> Interval>(
        a: Interval,
        b: Interval,
        c: Interval,
        extent: &E,
        expand: &X,
    ) -> (r: Self)
        requires
            forall|side: Interval| call_requires(extent, (side,)),
            forall|side: Interval, by: Scalar| call_requires(expand, (side, by)),
        ensures
            padded(a, extent, expand, r.x),
            padded(b, extent, expand, r.y),
            padded(c, extent, expand, r.z),
    {
        Self {
            x: Self::pad(a, extent, expand),
            y: Self::pad(b, extent, expand),
            z: Self::pad(c, extent, expand),
        }
    }

    /// The box with `a` and `b` as opposite corners, whichever way round
    /// they are given, each side made at least `0.0001` thick as in
    /// [`AABB::pad`].
    pub fn point_new<E: Fn(Interval) -> Scalar, X: Fn(Interval, Scalar) -> Interval>(
        a: &Vector,
        b: &Vector,
        extent: &E,
        expand: &X,
    ) -> (r: Self)
        requires
            forall|side: Interval| call_requires(extent, (side,)),
            forall|side: Interval, by: Scalar| call_requires(expand, (side, by)),
        ensures
            padded(ordered(a.x, b.x), extent, expand, r.x),
            padded(ordered(a.y, b.y), extent, expand, r.y),
            padded(ordered(a.z, b.z), extent, expand, r.z),
    {
        let x = if a.x.le(b.x) { Interval::new(a.x, b.x) } else { Interval::new(b.x, a.x) };
        let y = if a.y.le(b.y) { Interval::new(a.y, b.y) } else { Interval::new(b.y, a.y) };
        let z = if a.z.le(b.z) { Interval::new(a.z, b.z) } else { Interval::new(b.z, a.z) };
        Self::new(x, y, z, extent, expand)
    }

    /// The smallest box that holds both `a` and `b`.
    pub fn box_new(a: &AABB, b: &AABB) -> (r: Self)
        ensures
            r == AABB::union(*a, *b),
    {
        Self {
            x: Interval::interval_new(a.x, b.x),
            y: Interval::interval_new(a.y, b.y),
            z: Interval::interval_new(a.z, b.z),
        }
    }

    /// The side along axis `n`: `y` for 1, `z` for 2, `x` for any other
    /// index.
    pub fn axis_interval(&self, n: u32) -> (r: Interval)
        ensures
            r == self.side(n),
    {
        if n == 1 {
            self.y
        } else if n == 2 {
            self.z
        } else {
            self.x
        }
    }

    /// The axis of the greatest of the three extents `sx`, `sy`, `sz`. `x`
    /// is compared with `y` and the winner with `z`; a tie goes to the later
    /// axis.
    pub fn widest(sx: Scalar, sy: Scalar, sz: Scalar) -> (r: u32)
        ensures
            r == widest_axis(sx, sy, sz),
            r < 3,
    {
        if sx.gt(sy) {
            if sx.gt(sz) {
                0
            } else {
                2
            }
        } else if sy.gt(sz) {
            1
        } else {
            2
        }
    }

    /// The axis along which the box reaches furthest. `extent` measures one
    /// side (its `max - min`); it is asked once for each side, in the order
    /// `x`, `y`, `z`, and [`AABB::widest`] picks among the three answers.
    pub fn longest_axis<F: Fn(Interval) -> Scalar>(&self, extent: &F) -> (r: u32)
        requires
            call_requires(extent, (self.x,)),
            call_requires(extent, (self.y,)),
            call_requires(extent, (self.z,)),
        ensures
            self.longest_is(extent, r),
            r < 3,
    {
        let sx = extent(self.x);
        let sy = extent(self.y);
        let sz = extent(self.z);
        Self::widest(sx, sy, sz)
    }

    /// Whether a ray whose crossings of the three pairs of planes are
    /// `crossings` passes through the box at a parameter within `ray_t`.
    pub fn hit(crossings: &[Crossing; 3], ray_t: &Interval) -> (r: bool)
        ensures
            r == slab_hit(*ray_t, crossings@),
    {
        let mut cur = Interval::new(ray_t.min, ray_t.max);
        let mut axis: usize = 0;
        while axis < 3
            invariant
                axis <= 3,
                axis == 0 ==> cur == *ray_t,
                axis == 1 ==> cur == narrowed(*ray_t, crossings@[0]) && !exhausted(cur),
                axis == 2 ==> cur == narrowed(narrowed(*ray_t, crossings@[0]), crossings@[1])
                    && !exhausted(narrowed(*ray_t, crossings@[0])) && !exhausted(cur),
                axis == 3 ==> slab_hit(*ray_t, crossings@),
            decreases 3 - axis,
        {
            let c = crossings[axis];
            if c.t0.lt(c.t1) {
                if c.t0.gt(cur.min) {
                    cur.min = c.t0;
                }
                if c.t1.lt(cur.max) {
                    cur.max = c.t1;
                }
            } else {
                if c.t1.gt(cur.min) {
                    cur.min = c.t1;
                }
                if c.t0.lt(cur.max) {
                    cur.max = c.t0;
                }
            }
            if cur.max.le(cur.min) {
                return false;
            }
            axis = axis + 1;
        }
        true
    }

    /// What [`AABB::axis_interval`] returns.
    pub open spec fn side(&self, n: u32) -> Interval {
        if n == 1 {
            self.y
        } else if n == 2 {
            self.z
        } else {
            self.x
        }
    }

    /// What [`AABB::box_new`] returns.
    pub open spec fn union(a: AABB, b: AABB) -> AABB {
        AABB { x: hull(a.x, b.x), y: hull(a.y, b.y), z: hull(a.z, b.z) }
    }

    /// The box that holds nothing.
    pub open spec fn nothing() -> AABB {
        AABB { x: Interval::nothing(), y: Interval::nothing(), z: Interval::nothing() }
    }

    /// Whether `axis` is what [`AABB::widest`] picks for some three extents
    /// that `extent` may report for the sides of this box.
    pub open spec fn longest_is<F: Fn(Interval) -> Scalar>(&self, extent: &F, axis: u32) -> bool {
        exists|sx: Scalar, sy: Scalar, sz: Scalar|
            call_ensures(extent, (self.x,), sx) && call_ensures(extent, (self.y,), sy)
                && call_ensures(extent, (self.z,), sz) && axis == #[trigger] widest_axis(
                sx,
                sy,
                sz,
            )
    }

    /// Whether no end of any side is a NaN.
    pub open spec fn is_number(&self) -> bool {
        &&& !(self.x.min@ is Nan) && !(self.x.max@ is Nan)
        &&& !(self.y.min@ is Nan) && !(self.y.max@ is Nan)
        &&& !(self.z.min@ is Nan) && !(self.z.max@ is Nan)
    }
}

/// The range between `a` and `b`, the lesser first.
pub open spec fn ordered(a: Scalar, b: Scalar) -> Interval {
    if value_le(a@, b@) {
        Interval { min: a, max: b }
    } else {
        Interval { min: b, max: a }
    }
}

impl Default for AABB {
    /// The box that holds nothing.
    fn default() -> (r: Self)
        ensures
            r == AABB::nothing(),
    {
        Self { x: Interval::empty(), y: Interval::empty(), z: Interval::empty() }
    }
}

/// The lower ends that a parameter has to exceed: that of the range and the
/// near crossing of each axis.
pub open spec fn lower_bounds(t: Interval, c: Seq<Crossing>) -> Seq<Scalar> {
    seq![t.min, c[0].near(), c[1].near(), c[2].near()]
}

/// The upper ends that a parameter has to stay below: that of the range and
/// the far crossing of each axis.
pub open spec fn upper_bounds(t: Interval, c: Seq<Crossing>) -> Seq<Scalar> {
    seq![t.max, c[0].far(), c[1].far(), c[2].far()]
}

/// Cutting a range down by one axis keeps exactly the parameters that lie
/// within the range and between the two planes.
pub proof fn lemma_narrowed(t: Interval, c: Crossing)
    requires
        !(t.min@ is Nan),
        !(t.max@ is Nan),
        c.is_number(),
    ensures
        !(narrowed(t, c).min@ is Nan),
        !(narrowed(t, c).max@ is Nan),
        !(c.near()@ is Nan),
        !(c.far()@ is Nan),
        exhausted(narrowed(t, c)) == !value_lt(narrowed(t, c).min@, narrowed(t, c).max@),
        forall|v: Value| #[trigger]
            value_lt(narrowed(t, c).min@, v) == (value_lt(t.min@, v) && value_lt(c.near()@, v)),
        forall|v: Value| #[trigger]
            value_lt(v, narrowed(t, c).max@) == (value_lt(v, t.max@) && value_lt(v, c.far()@)),
{
}

/// The slab test agrees with the test axis by axis: where no parameter is a
/// NaN, the ray passes through the box within the range exactly if every
/// lower end lies below every upper end.
pub proof fn lemma_slab_hit_is_per_axis_overlap(t: Interval, c: Seq<Crossing>)
    requires
        c.len() == 3,
        !(t.min@ is Nan),
        !(t.max@ is Nan),
        forall|i: int| 0 <= i < 3 ==> (#[trigger] c[i]).is_number(),
    ensures
        slab_hit(t, c) <==> (forall|i: int, j: int|
            0 <= i < 4 && 0 <= j < 4 ==> value_lt(
                (#[trigger] lower_bounds(t, c)[i])@,
                (#[trigger] upper_bounds(t, c)[j])@,
            )),
{
    let lo = lower_bounds(t, c);
    let hi = upper_bounds(t, c);
    let a = narrowed(t, c[0]);
    let b = narrowed(a, c[1]);
    let d = narrowed(b, c[2]);
    assert(c[0].is_number() && c[1].is_number() && c[2].is_number());
    lemma_narrowed(t, c[0]);
    lemma_narrowed(a, c[1]);
    lemma_narrowed(b, c[2]);
    let all = value_lt(lo[0]@, hi[0]@) && value_lt(lo[0]@, hi[1]@) && value_lt(lo[0]@, hi[2]@)
        && value_lt(lo[0]@, hi[3]@) && value_lt(lo[1]@, hi[0]@) && value_lt(lo[1]@, hi[1]@)
        && value_lt(lo[1]@, hi[2]@) && value_lt(lo[1]@, hi[3]@) && value_lt(lo[2]@, hi[0]@)
        && value_lt(lo[2]@, hi[1]@) && value_lt(lo[2]@, hi[2]@) && value_lt(lo[2]@, hi[3]@)
        && value_lt(lo[3]@, hi[0]@) && value_lt(lo[3]@, hi[1]@) && value_lt(lo[3]@, hi[2]@)
        && value_lt(lo[3]@, hi[3]@);
    assert(value_lt(a.min@, a.max@) == (value_lt(lo[0]@, hi[0]@) && value_lt(lo[0]@, hi[1]@)
        && value_lt(lo[1]@, hi[0]@) && value_lt(lo[1]@, hi[1]@)));
    assert(value_lt(b.min@, b.max@) == (value_lt(a.min@, a.max@) && value_lt(lo[0]@, hi[2]@)
        && value_lt(lo[1]@, hi[2]@) && value_lt(lo[2]@, hi[0]@) && value_lt(lo[2]@, hi[1]@)
        && value_lt(lo[2]@, hi[2]@)));
    assert(value_lt(d.min@, d.max@) == (value_lt(b.min@, b.max@) && value_lt(lo[0]@, hi[3]@)
        && value_lt(lo[1]@, hi[3]@) && value_lt(lo[2]@, hi[3]@) && value_lt(lo[3]@, hi[0]@)
        && value_lt(lo[3]@, hi[1]@) && value_lt(lo[3]@, hi[2]@) && value_lt(lo[3]@, hi[3]@)));
    assert(slab_hit(t, c) == all);
    if all {
        assert forall|i: int, j: int| 0 <= i < 4 && 0 <= j < 4 implies value_lt(
            (#[trigger] lo[i])@,
            (#[trigger] hi[j])@,
        ) by {}
    }
}

/// Whether `extent` gives one answer for each side, and whatever `expand`
/// makes of a side is in order and measures no less than it was asked to
/// widen by.
pub open spec fn measures_and_widens<E: Fn(Interval) -> Scalar, X: Fn(Interval, Scalar) -> Interval>(
    extent: &E,
    expand: &X,
) -> bool {
    &&& forall|s: Interval, a: Scalar, b: Scalar|
        #![trigger call_ensures(extent, (s,), a), call_ensures(extent, (s,), b)]
        call_ensures(extent, (s,), a) && call_ensures(extent, (s,), b) ==> a == b
    &&& forall|s: Interval, by: Scalar, w: Interval, m: Scalar|
        #![trigger call_ensures(expand, (s, by), w), call_ensures(extent, (w,), m)]
        call_ensures(expand, (s, by), w) && call_ensures(extent, (w,), m) ==> value_le(
            w.min@,
            w.max@,
        ) && !value_lt(m@, by@)
}

/// A side that was thickened is in order and at least `0.0001` thick.
///
/// Let the ends of `side` be numbers with the lesser first, let `extent`
/// give one answer for each side, and let whatever `expand` makes of a side
/// be in order and measure at least `0.0001`. Then the thickened side is in
/// order, and `extent` does not find it thinner than `0.0001`.
pub proof fn lemma_padded_is_thick<E: Fn(Interval) -> Scalar, X: Fn(Interval, Scalar) -> Interval>(
    side: Interval,
    extent: &E,
    expand: &X,
    out: Interval,
    size: Scalar,
)
    requires
        value_le(side.min@, side.max@),
        measures_and_widens(extent, expand),
        padded(side, extent, expand, out),
        call_ensures(extent, (out,), size),
    ensures
        value_le(out.min@, out.max@),
        !value_lt(size@, (Scalar { bits: THINNEST_BITS })@),
{
    let (was, wide): (Scalar, Interval) = choose|was: Scalar, wide: Interval| #[trigger]
        measured(was, wide) && call_ensures(extent, (side,), was) && out == wide && if value_lt(
            was@,
            (Scalar { bits: THINNEST_BITS })@,
        ) {
            call_ensures(expand, (side, Scalar { bits: THINNEST_BITS }), wide)
        } else {
            wide == side
        };
}

/// A box made from two corners has every side in order and at least
/// `0.0001` thick, under what [`lemma_padded_is_thick`] asks of `extent` and
/// `expand`, where no coordinate of the corners is a NaN.
pub proof fn lemma_point_box_is_thick<E: Fn(Interval) -> Scalar, X: Fn(Interval, Scalar) -> Interval>(
    a: Vector,
    b: Vector,
    extent: &E,
    expand: &X,
    r: AABB,
    n: u32,
    size: Scalar,
)
    requires
        !(a.component(n)@ is Nan),
        !(b.component(n)@ is Nan),
        measures_and_widens(extent, expand),
        padded(ordered(a.x, b.x), extent, expand, r.x),
        padded(ordered(a.y, b.y), extent, expand, r.y),
        padded(ordered(a.z, b.z), extent, expand, r.z),
        call_ensures(extent, (r.side(n),), size),
    ensures
        value_le(r.side(n).min@, r.side(n).max@),
        !value_lt(size@, (Scalar { bits: THINNEST_BITS })@),
{
    let side = ordered(a.component(n), b.component(n));
    lemma_padded_is_thick(side, extent, expand, r.side(n), size);
}

/// Whether whatever `expand` makes of a side whose ends are numbers reaches
/// at least as far as the side at either end.
pub open spec fn widens_outward<X: Fn(Interval, Scalar) -> Interval>(expand: &X) -> bool {
    forall|s: Interval, by: Scalar, w: Interval|
        !(s.min@ is Nan) && !(s.max@ is Nan) && #[trigger] call_ensures(expand, (s, by), w)
            ==> value_le(w.min@, s.min@) && value_le(s.max@, w.max@)
}

/// A box made from two corners holds both corners: along every axis the
/// side is in order and both coordinates lie within it, where no coordinate
/// of the corners is a NaN and widening a side reaches outward.
pub proof fn lemma_point_box_holds_corners<E: Fn(Interval) -> Scalar, X: Fn(Interval, Scalar) -> Interval>(
    a: Vector,
    b: Vector,
    extent: &E,
    expand: &X,
    r: AABB,
    n: u32,
)
    requires
        !(a.component(n)@ is Nan),
        !(b.component(n)@ is Nan),
        widens_outward(expand),
        padded(ordered(a.x, b.x), extent, expand, r.x),
        padded(ordered(a.y, b.y), extent, expand, r.y),
        padded(ordered(a.z, b.z), extent, expand, r.z),
    ensures
        value_le(r.side(n).min@, r.side(n).max@),
        r.side(n).holds(a.component(n)),
        r.side(n).holds(b.component(n)),
{
    let side = ordered(a.component(n), b.component(n));
    let out = r.side(n);
    assert(padded(side, extent, expand, out));
    let (was, wide): (Scalar, Interval) = choose|was: Scalar, wide: Interval| #[trigger]
        measured(was, wide) && call_ensures(extent, (side,), was) && out == wide && if value_lt(
            was@,
            (Scalar { bits: THINNEST_BITS })@,
        ) {
            call_ensures(expand, (side, Scalar { bits: THINNEST_BITS }), wide)
        } else {
            wide == side
        };
    assert(side.holds(a.component(n)) && side.holds(b.component(n)));
}

} // verus!
