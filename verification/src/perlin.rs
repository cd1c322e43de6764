//! The tables behind gradient noise: three shuffles of the numbers below
//! 256 and a table of directions that they lead to.

use crate::reorder::{lemma_exchange_keeps_all, lemma_same_things};
use crate::rtweekend::random_int_range;
use crate::vec3::Vector;
use vstd::prelude::*;

verus! {

/// The number of lattice directions, and the length of each shuffle.
pub const POINT_COUNT: i32 = 256;

/// The tables of the noise.
#[derive(Debug)]
pub struct Perlin {
    pub randvec: Vec<Vector>,
    pub perm_x: Vec<i32>,
    pub perm_y: Vec<i32>,
    pub perm_z: Vec<i32>,
}

/// The whole numbers from 0 up to 255, in order.
pub open spec fn in_order() -> Seq<i32> {
    Seq::new(256, |i: int| i as i32)
}

/// Whether `p` holds each number from 0 up to 255 once, in some order.
pub open spec fn is_shuffle(p: Seq<i32>) -> bool {
    p.to_multiset() == in_order().to_multiset()
}

/// A shuffle has 256 entries, each at least 0 and below 256.
pub proof fn lemma_shuffle_is_within(p: Seq<i32>)
    requires
        is_shuffle(p),
    ensures
        p.len() == 256,
        forall|i: int| 0 <= i < 256 ==> 0 <= #[trigger] p[i] < 256,
{
    lemma_same_things(p, in_order());
    assert forall|i: int| 0 <= i < 256 implies 0 <= #[trigger] p[i] < 256 by {
        assert(in_order().contains(p[i]));
        let k = choose|k: int| 0 <= k < in_order().len() && in_order()[k] == p[i];
    }
}

/// The place in the table of directions to which the lattice point
/// `(i, j, k)` leads: the three shuffles are read at the low eight bits of
/// the coordinates and what they hold is joined bit by bit.
pub open spec fn lattice_place(
    perm_x: Seq<i32>,
    perm_y: Seq<i32>,
    perm_z: Seq<i32>,
    i: i64,
    j: i64,
    k: i64,
) -> int {
    (perm_x[(i & 255) as int] ^ perm_y[(j & 255) as int] ^ perm_z[(k & 255) as int]) as int
}

impl Perlin {
    /// Whether the tables are complete: 256 directions, and three
    /// shuffles.
    pub open spec fn wf(&self) -> bool {
        &&& self.randvec@.len() == 256
        &&& is_shuffle(self.perm_x@)
        &&& is_shuffle(self.perm_y@)
        &&& is_shuffle(self.perm_z@)
    }

    /// The empty tables.
    pub fn new() -> (r: Self)
        ensures
            r.randvec@.len() == 0,
            r.perm_x@.len() == 0,
            r.perm_y@.len() == 0,
            r.perm_z@.len() == 0,
    {
        Perlin { randvec: Vec::new(), perm_x: Vec::new(), perm_y: Vec::new(), perm_z: Vec::new() }
    }

    /// Fills the tables: `randvec` are the 256 directions, drawn by the
    /// caller, and each of the three shuffles is drawn afresh.
    pub fn initialise(&mut self, randvec: Vec<Vector>)
        requires
            randvec@.len() == 256,
        ensures
            final(self).wf(),
            final(self).randvec@ == randvec@,
    {
        self.randvec = randvec;
        let mut x: Vec<i32> = Vec::new();
        let mut y: Vec<i32> = Vec::new();
        let mut z: Vec<i32> = Vec::new();
        Perlin::perlin_generate_perm(&mut x);
        Perlin::perlin_generate_perm(&mut y);
        Perlin::perlin_generate_perm(&mut z);
        self.perm_x = x;
        self.perm_y = y;
        self.perm_z = z;
    }

    /// Makes `a`, which must be empty, a shuffle.
    pub fn perlin_generate_perm(a: &mut Vec<i32>)
        requires
            old(a)@.len() == 0,
        ensures
            is_shuffle(final(a)@),
    {
        let mut i: i32 = 0;
        while i < POINT_COUNT
            invariant
                0 <= i <= 256,
                a@.len() == i,
                forall|k: int| 0 <= k < i ==> a@[k] == k as i32,
            decreases 256 - i,
        {
            a.push(i);
            i = i + 1;
        }
        proof {
            assert(a@ == in_order());
        }
        Self::permute(a, POINT_COUNT);
    }

    /// Shuffles the first `n` entries of `p`: from the last of them down
    /// to the second, each is exchanged with one drawn at random from those
    /// up to and including itself, as [`Perlin::exchange`] exchanges two.
    pub fn permute(p: &mut Vec<i32>, n: i32)
        requires
            0 <= n <= old(p)@.len(),
        ensures
            exists|targets: Seq<u32>| #[trigger]
                drawn_for(targets, n as int) && final(p)@ == shuffled(old(p)@, targets, n as int),
            final(p)@.len() == old(p)@.len(),
            final(p)@.to_multiset() == old(p)@.to_multiset(),
            forall|k: int| n <= k < old(p)@.len() ==> final(p)@[k] == old(p)@[k],
    {
        let mut i: i32 = n;
        let ghost mut targets: Seq<u32> = Seq::empty();
        while i > 1
            invariant
                0 <= i <= n <= p@.len(),
                n >= 1 ==> i >= 1,
                p@.len() == old(p)@.len(),
                p@.to_multiset() == old(p)@.to_multiset(),
                forall|k: int| n <= k < old(p)@.len() ==> p@[k] == old(p)@[k],
                targets.len() == n - i,
                forall|k: int| 0 <= k < targets.len() ==> #[trigger] targets[k] <= n - 1 - k,
                p@ == shuffled(old(p)@, targets, n as int),
            decreases i,
        {
            i = i - 1;
            let target = random_int_range(0, i as u32);
            let ghost prior = p@;
            let ghost drawn = targets;
            Self::exchange(p, i as usize, target as usize);
            proof {
                lemma_exchange_keeps_all(prior, i as int, target as int);
                targets = drawn.push(target);
                assert(targets.drop_last() == drawn);
                assert(targets.last() == target);
                assert forall|k: int| 0 <= k < targets.len() implies #[trigger] targets[k] <= n - 1
                    - k by {
                    if k < drawn.len() {
                        assert(targets[k] == drawn[k]);
                    }
                }
            }
        }
        proof {
            assert(drawn_for(targets, n as int));
        }
    }

    /// Exchanges the entries at the places `i` and `target` of `p`, which
    /// is one step of the shuffle once the place `target` has been drawn.
    pub fn exchange(p: &mut Vec<i32>, i: usize, target: usize)
        requires
            i < old(p)@.len(),
            target < old(p)@.len(),
        ensures
            final(p)@ == exchanged(old(p)@, i as int, target as int),
    {
        let a = p[i];
        let b = p[target];
        p[i] = b;
        p[target] = a;
    }

    /// The direction at the lattice point `(i, j, k)`.
    pub fn lattice_vector(&self, i: i64, j: i64, k: i64) -> (r: Vector)
        requires
            self.wf(),
        ensures
            0 <= lattice_place(self.perm_x@, self.perm_y@, self.perm_z@, i, j, k) < 256,
            r == self.randvec@[lattice_place(self.perm_x@, self.perm_y@, self.perm_z@, i, j, k)],
    {
        proof {
            lemma_shuffle_is_within(self.perm_x@);
            lemma_shuffle_is_within(self.perm_y@);
            lemma_shuffle_is_within(self.perm_z@);
        }
        let a = i & 255;
        let b = j & 255;
        let c = k & 255;
        assert(0 <= a < 256) by (bit_vector)
            requires
                a == i & 255,
        ;
        assert(0 <= b < 256) by (bit_vector)
            requires
                b == j & 255,
        ;
        assert(0 <= c < 256) by (bit_vector)
            requires
                c == k & 255,
        ;
        let x = self.perm_x[a as usize];
        let y = self.perm_y[b as usize];
        let z = self.perm_z[c as usize];
        let place = x ^ y ^ z;
        assert(0 <= place < 256) by (bit_vector)
            requires
                place == x ^ y ^ z,
                0 <= x < 256,
                0 <= y < 256,
                0 <= z < 256,
        ;
        self.randvec[place as usize]
    }
}

/// The sequence `s` with the entries at the places `i` and `j` exchanged.
pub open spec fn exchanged(s: Seq<i32>, i: int, j: int) -> Seq<i32> {
    s.update(i, s[j]).update(j, s[i])
}

/// Whether `targets` are places that a shuffle of `n` entries may draw: one
/// for each entry from the last down to the second, in the order in which
/// they are drawn, and none beyond the entry that it is drawn for.
pub open spec fn drawn_for(targets: Seq<u32>, n: int) -> bool {
    &&& targets.len() == if n >= 1 {
        n - 1
    } else {
        0
    }
    &&& forall|k: int| 0 <= k < targets.len() ==> #[trigger] targets[k] <= n - 1 - k
}

/// What a shuffle of the first `n` entries of `s` leaves where the places
/// drawn are `targets`: the entry at place `n - 1` is exchanged with the one
/// at the first place drawn, then the entry at place `n - 2` with the one at
/// the second place drawn, and so on.
pub open spec fn shuffled(s: Seq<i32>, targets: Seq<u32>, n: int) -> Seq<i32>
    decreases targets.len(),
{
    if targets.len() == 0 {
        s
    } else {
        exchanged(
            shuffled(s, targets.drop_last(), n),
            n - targets.len(),
            targets.last() as int,
        )
    }
}

} // verus!
