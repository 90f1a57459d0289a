use crate::obj::Indice;
use vstd::prelude::*;

verus! {

/// A triangle as three corners of (position, texture coordinate).
pub type Triangle<P, T> = ((P, T), (P, T), (P, T));

/// Every face corner names an existing position.
pub open spec fn positions_in_range(count: nat, indices: Seq<Indice>) -> bool {
    forall|k: int|
        0 <= k < indices.len() ==> (#[trigger] indices[k]).0.0 < count && indices[k].1.0 < count
            && indices[k].2.0 < count
}

/// The corner that a (position, texture coordinate) index pair names; a
/// texture coordinate that does not exist reads as `missing`.
pub open spec fn corner_of<P, T>(positions: Seq<P>, uvs: Seq<T>, c: (usize, usize), missing: T) -> (
    P,
    T,
) {
    (positions[c.0 as int], if c.1 < uvs.len() {
        uvs[c.1 as int]
    } else {
        missing
    })
}

pub open spec fn triangle_of<P, T>(positions: Seq<P>, uvs: Seq<T>, f: Indice, missing: T) -> Triangle<
    P,
    T,
> {
    (
        corner_of(positions, uvs, f.0, missing),
        corner_of(positions, uvs, f.1, missing),
        corner_of(positions, uvs, f.2, missing),
    )
}

fn corner<P: Copy, T: Copy>(positions: &[P], uvs: &[T], c: (usize, usize), missing: T) -> (r: (P, T))
    requires
        c.0 < positions@.len(),
    ensures
        r == corner_of(positions@, uvs@, c, missing),
{
    let uv = if c.1 < uvs.len() {
        uvs[c.1]
    } else {
        missing
    };
    (positions[c.0], uv)
}

/// The triangles of a mesh, face by face in the order of the index table;
/// none when a corner names a position that does not exist.
pub fn triangles<P: Copy, T: Copy>(positions: &[P], uvs: &[T], indices: &[Indice], missing: T) -> (r:
    Option<Vec<Triangle<P, T>>>)
    ensures
        r is Some <==> positions_in_range(positions@.len(), indices@),
        r matches Some(ts) ==> ts@.len() == indices@.len() && forall|k: int|
            0 <= k < indices@.len() ==> #[trigger] ts@[k] == triangle_of(
                positions@,
                uvs@,
                indices@[k],
                missing,
            ),
{
    let n = positions.len();
    let mut out: Vec<Triangle<P, T>> = Vec::new();
    let mut k: usize = 0;
    while k < indices.len()
        invariant
            k <= indices@.len(),
            n == positions@.len(),
            out@.len() == k,
            positions_in_range(n as nat, indices@.subrange(0, k as int)),
            forall|j: int|
                0 <= j < k ==> #[trigger] out@[j] == triangle_of(
                    positions@,
                    uvs@,
                    indices@[j],
                    missing,
                ),
        decreases indices@.len() - k,
    {
        let (a, b, c) = indices[k];
        if a.0 >= n || b.0 >= n || c.0 >= n {
            assert(!positions_in_range(n as nat, indices@)) by {
                assert(indices@[k as int] == (a, b, c));
            }
            return None;
        }
        out.push((corner(positions, uvs, a, missing), corner(positions, uvs, b, missing), corner(positions, uvs, c, missing)));
        proof {
            let sub = indices@.subrange(0, k as int + 1);
            assert forall|j: int| 0 <= j < sub.len() implies (#[trigger] sub[j]).0.0 < n
                && sub[j].1.0 < n && sub[j].2.0 < n by {
                if j < k {
                    assert(sub[j] == indices@.subrange(0, k as int)[j]);
                } else {
                    assert(sub[j] == (a, b, c));
                }
            }
        }
        k = k + 1;
    }
    assert(indices@.subrange(0, indices@.len() as int) =~= indices@);
    Some(out)
}

} // verus!
