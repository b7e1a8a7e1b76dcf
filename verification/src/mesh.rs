//! Index bookkeeping when merging the primitives of a model into one mesh.
use vstd::prelude::*;

verus! {

/// Appends a primitive's `u16` indices to the merged index list, shifted by
/// the number of vertices merged before the primitive.
pub fn append_offset_indices(indices: &mut Vec<u16>, read: &[u16], num_vertices: u16)
    requires
        forall|i: int| 0 <= i < read@.len() ==> read@[i] + num_vertices <= u16::MAX,
    ensures
        final(indices)@.len() == old(indices)@.len() + read@.len(),
        final(indices)@.subrange(0, old(indices)@.len() as int) == old(indices)@,
        forall|i: int|
            0 <= i < read@.len() ==> #[trigger] final(indices)@[old(indices)@.len() + i] == read@[i]
                + num_vertices,
{
    let ghost start = indices@;
    let mut j: usize = 0;
    while j < read.len()
        invariant
            j <= read@.len(),
            forall|i: int| 0 <= i < read@.len() ==> read@[i] + num_vertices <= u16::MAX,
            indices@.len() == start.len() + j,
            indices@.subrange(0, start.len() as int) == start,
            forall|i: int| 0 <= i < j ==> #[trigger] indices@[start.len() + i] == read@[i] + num_vertices,
        decreases read@.len() - j,
    {
        indices.push(read[j] + num_vertices);
        proof {
            assert(indices@.subrange(0, start.len() as int) =~= start);
        }
        j = j + 1;
    }
}

/// The vertex numbers of the triangles of an index list: each run of three
/// indices is one triangle.
pub fn triangle_corners(indices: &[u16]) -> (triangles: Vec<(usize, usize, usize)>)
    requires
        indices@.len() % 3 == 0,
    ensures
        triangles@.len() * 3 == indices@.len(),
        forall|t: int|
            0 <= t < triangles@.len() ==> #[trigger] triangles@[t] == (
                indices@[3 * t] as usize,
                indices@[3 * t + 1] as usize,
                indices@[3 * t + 2] as usize,
            ),
{
    let mut triangles: Vec<(usize, usize, usize)> = Vec::new();
    let mut k: usize = 0;
    while k < indices.len() / 3
        invariant
            indices@.len() % 3 == 0,
            k <= indices@.len() / 3,
            triangles@.len() == k,
            forall|t: int|
                0 <= t < k ==> #[trigger] triangles@[t] == (
                    indices@[3 * t] as usize,
                    indices@[3 * t + 1] as usize,
                    indices@[3 * t + 2] as usize,
                ),
        decreases indices@.len() / 3 - k,
    {
        triangles.push((indices[3 * k] as usize, indices[3 * k + 1] as usize, indices[3 * k + 2] as usize));
        k = k + 1;
    }
    triangles
}

} // verus!
