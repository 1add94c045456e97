//! Mesh-face triangulation.

use vstd::prelude::*;

verus! {

/// Triangulate a polygonal face by a fan from its first vertex: vertices
/// `v0 v1 ... vn` become the triangles `(v0, v1, v2), (v0, v2, v3), ...`.
/// The vertices are given as indices into a vertex table.
#[verifier::loop_isolation(false)]
pub fn face_triangulation(vertices: Vec<usize>) -> (r: Vec<[usize; 3]>)
    requires
        vertices@.len() >= 3,
    ensures
        r@.len() == vertices@.len() - 2,
        forall|i: int|
            0 <= i < r@.len() ==> #[trigger] r@[i] == [
                vertices@[0],
                vertices@[i + 1],
                vertices@[i + 2],
            ],
{
    let mut parsed_triangles: Vec<[usize; 3]> = Vec::new();
    let vertex1 = vertices[0];
    let mut i: usize = 1;
    while i < vertices.len() - 1
        invariant
            1 <= i <= vertices@.len() - 1,
            parsed_triangles@.len() == i - 1,
            forall|k: int|
                0 <= k < parsed_triangles@.len() ==> #[trigger] parsed_triangles@[k] == [
                    vertices@[0],
                    vertices@[k + 1],
                    vertices@[k + 2],
                ],
        decreases vertices@.len() - i,
    {
        parsed_triangles.push([vertex1, vertices[i], vertices[i + 1]]);
        i = i + 1;
    }
    parsed_triangles
}

} // verus!
