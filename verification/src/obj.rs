//! Meshes: which corners make up the triangles.
//!
//! A mesh comes as a list of corner numbers and, where its faces are not
//! all triangles, a list that says how many corners each face has.

use vstd::prelude::*;

verus! {

/// The triangles of one face, as a fan about its first corner: the first
/// corner with each pair of neighbours among the rest.
pub open spec fn fan(face: Seq<u32>) -> Seq<(u32, u32, u32)> {
    Seq::new(
        if face.len() >= 2 {
            (face.len() - 2) as nat
        } else {
            0
        },
        |k: int| (face[0], face[k + 1], face[k + 2]),
    )
}

/// The triangles of the faces with the given numbers of corners, the
/// corners of the first face standing at place `from` of `indices` and
/// those of each later face after those of the face before it.
pub open spec fn fans(face_arities: Seq<u32>, indices: Seq<u32>, from: int) -> Seq<(u32, u32, u32)>
    decreases face_arities.len(),
{
    if face_arities.len() == 0 {
        Seq::empty()
    } else {
        fans(face_arities.drop_last(), indices, from) + fan(
            indices.subrange(
                from + total(face_arities.drop_last()),
                from + total(face_arities.drop_last()) + face_arities.last(),
            ),
        )
    }
}

/// The number of corners of all the faces together.
pub open spec fn total(face_arities: Seq<u32>) -> int
    decreases face_arities.len(),
{
    if face_arities.len() == 0 {
        0
    } else {
        total(face_arities.drop_last()) + face_arities.last()
    }
}

/// The triangles of a mesh whose faces are all triangles: each three
/// corners in a row, any left over at the end being dropped.
pub open spec fn triples(indices: Seq<u32>) -> Seq<(u32, u32, u32)> {
    Seq::new(
        (indices.len() / 3) as nat,
        |k: int| (indices[3 * k], indices[3 * k + 1], indices[3 * k + 2]),
    )
}

/// Whether the faces are well laid out: each has at least one corner, and
/// all their corners are there.
pub open spec fn faces_fit(face_arities: Seq<u32>, indices: Seq<u32>) -> bool {
    &&& forall|i: int| 0 <= i < face_arities.len() ==> #[trigger] face_arities[i] >= 1
    &&& total(face_arities) <= indices.len()
}

/// The corners of the faces before the last are among those of all.
pub proof fn lemma_total_grows(face_arities: Seq<u32>, n: int)
    requires
        0 <= n <= face_arities.len(),
    ensures
        0 <= total(face_arities.take(n)) <= total(face_arities),
    decreases face_arities.len() - n,
{
    if n == face_arities.len() {
        assert(face_arities.take(n) == face_arities);
        lemma_total_is_not_negative(face_arities);
    } else {
        lemma_total_grows(face_arities, n + 1);
        lemma_total_is_not_negative(face_arities.take(n));
        assert(face_arities.take(n + 1).drop_last() == face_arities.take(n));
        assert(face_arities.take(n + 1).last() == face_arities[n]);
    }
}

/// A mesh has no fewer than no corners.
pub proof fn lemma_total_is_not_negative(face_arities: Seq<u32>)
    ensures
        0 <= total(face_arities),
    decreases face_arities.len(),
{
    if face_arities.len() > 0 {
        lemma_total_is_not_negative(face_arities.drop_last());
    }
}

/// Whether the faces are well laid out, as [`faces_fit`] has it.
pub fn check_faces(face_arities: &Vec<u32>, indices: &Vec<u32>) -> (r: bool)
    ensures
        r == faces_fit(face_arities@, indices@),
{
    let mut sum: usize = 0;
    let mut n: usize = 0;
    while n < face_arities.len()
        invariant
            n <= face_arities@.len(),
            sum == total(face_arities@.take(n as int)),
            sum <= indices@.len(),
            forall|i: int| 0 <= i < n ==> #[trigger] face_arities@[i] >= 1,
        decreases face_arities@.len() - n,
    {
        let arity = face_arities[n] as usize;
        proof {
            assert(face_arities@.take(n + 1).drop_last() == face_arities@.take(n as int));
            assert(face_arities@.take(n + 1).last() == face_arities@[n as int]);
            lemma_total_grows(face_arities@, n + 1);
            assert(total(face_arities@.take(n + 1)) == sum + arity);
        }
        if arity < 1 || arity > indices.len() - sum {
            return false;
        }
        sum = sum + arity;
        n = n + 1;
    }
    proof {
        assert(face_arities@.take(n as int) == face_arities@);
    }
    true
}

/// The triangles of a mesh, each as the numbers of its three corners.
///
/// Where `face_arities` is empty the faces are all triangles and every
/// three of `indices` in a row are one. Otherwise `face_arities` gives the
/// number of corners of each face, the faces must be well laid out, and each
/// face is cut into a fan of triangles about its first corner.
pub fn triangulate(face_arities: &Vec<u32>, indices: &Vec<u32>) -> (r: Vec<(u32, u32, u32)>)
    requires
        faces_fit(face_arities@, indices@),
    ensures
        r@ == if face_arities@.len() == 0 {
            triples(indices@)
        } else {
            fans(face_arities@, indices@, 0)
        },
{
    let mut out: Vec<(u32, u32, u32)> = Vec::new();
    if face_arities.len() == 0 {
        let mut k: usize = 0;
        while k < indices.len() / 3
            invariant
                k <= indices@.len() / 3,
                out@.len() == k,
                forall|m: int|
                    0 <= m < k ==> out@[m] == (
                        indices@[3 * m],
                        indices@[3 * m + 1],
                        indices@[3 * m + 2],
                    ),
            decreases indices@.len() / 3 - k,
        {
            out.push((indices[3 * k], indices[3 * k + 1], indices[3 * k + 2]));
            k = k + 1;
        }
        proof {
            assert(out@ =~= triples(indices@));
        }
        return out;
    }
    let corners = indices.len();
    let mut next_face: usize = 0;
    let mut f: usize = 0;
    while f < face_arities.len()
        invariant
            f <= face_arities@.len(),
            faces_fit(face_arities@, indices@),
            next_face == total(face_arities@.take(f as int)),
            next_face <= indices@.len(),
            corners == indices@.len(),
            out@ == fans(face_arities@.take(f as int), indices@, 0),
        decreases face_arities@.len() - f,
    {
        let arity = face_arities[f] as usize;
        proof {
            assert(face_arities@.take(f + 1).drop_last() == face_arities@.take(f as int));
            assert(face_arities@.take(f + 1).last() == face_arities@[f as int]);
            lemma_total_grows(face_arities@, f + 1);
            assert(total(face_arities@.take(f + 1)) == next_face + arity);
        }
        let end = next_face + arity;
        let ghost face = indices@.subrange(next_face as int, end as int);
        let ghost before = out@;
        let first = indices[next_face];
        let mut k: usize = 2;
        while k < arity
            invariant
                2 <= k,
                arity >= 2 ==> k <= arity,
                arity < 2 ==> k == 2,
                end == next_face + arity,
                end <= indices@.len(),
                first == indices@[next_face as int],
                face == indices@.subrange(next_face as int, end as int),
                out@.len() == before.len() + k - 2,
                forall|m: int| 0 <= m < before.len() ==> out@[m] == before[m],
                forall|m: int|
                    before.len() <= m < out@.len() ==> #[trigger] out@[m] == (
                        face[0],
                        face[m - before.len() + 1],
                        face[m - before.len() + 2],
                    ),
            decreases arity - k,
        {
            out.push((first, indices[next_face + k - 1], indices[next_face + k]));
            k = k + 1;
        }
        proof {
            assert(face.len() == arity);
            assert(fan(face).len() == if arity >= 2 {
                arity - 2
            } else {
                0
            });
            assert(out@.len() == before.len() + fan(face).len());
            assert forall|m: int| 0 <= m < out@.len() implies out@[m] == (before + fan(face))[m] by {
                if m >= before.len() {
                    assert(fan(face)[m - before.len()] == (
                        face[0],
                        face[m - before.len() + 1],
                        face[m - before.len() + 2],
                    ));
                }
            }
            assert(out@ =~= before + fan(face));
        }
        next_face = end;
        f = f + 1;
    }
    proof {
        assert(face_arities@.take(f as int) == face_arities@);
    }
    out
}

} // verus!
