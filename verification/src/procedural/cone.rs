//! The faces of a cone.

use crate::math::Vec3;
use crate::procedural::utils::{
    closed_fan, disc, push_closed_circle_indices, push_degenerate_top_ring_indices, split,
    split_index_buffer,
};
use vstd::prelude::*;

verus! {

/// One corner of a face: the index of its place, which is that of its texture
/// coordinates too, and the index of its normal.
pub open spec fn corner(place: int, normal: int) -> Vec3<u32> {
    Vec3 { x: place as u32, y: place as u32, z: normal as u32 }
}

/// The face `j` of a cone whose base is a circle of `nsubdiv` points, the
/// points `0` to `nsubdiv - 1`, under the apex, the point `nsubdiv`. The first
/// `nsubdiv` faces are the sides: the base point `j`, the apex and the next
/// base point; on the side `j` the apex has the normal `j`, and a base point
/// the normal of its own index. The other faces fill the base from the point
/// `0`, and their corners all have the normal `nsubdiv`.
pub open spec fn cone_face(nsubdiv: u32, j: int) -> Vec3<Vec3<u32>> {
    if j < nsubdiv {
        let next = if j + 1 < nsubdiv {
            j + 1
        } else {
            0
        };
        Vec3 { x: corner(j, j), y: corner(nsubdiv as int, j), z: corner(next, next) }
    } else {
        let i = j - nsubdiv;
        Vec3 {
            x: corner(0, nsubdiv as int),
            y: corner(i + 1, nsubdiv as int),
            z: corner(i + 2, nsubdiv as int),
        }
    }
}

/// The faces of a cone whose base has `nsubdiv` points.
pub open spec fn cone_faces(nsubdiv: u32) -> Seq<Vec3<Vec3<u32>>> {
    Seq::new((2 * nsubdiv - 2) as nat, |j: int| cone_face(nsubdiv, j))
}

/// The faces of a cone whose base is a circle of `nsubdiv` points: for each
/// corner the indices of its place, of its texture coordinates and of its
/// normal. The places are the base points, then the apex; the normals are one
/// for each base point, then one for the base.
pub fn unit_cone_indices(nsubdiv: u32) -> (indices: Vec<Vec3<Vec3<u32>>>)
    requires
        2 <= nsubdiv < u32::MAX,
    ensures
        indices@ == cone_faces(nsubdiv),
{
    let mut flat: Vec<Vec3<u32>> = Vec::new();
    push_degenerate_top_ring_indices(0, nsubdiv, nsubdiv, &mut flat);
    push_closed_circle_indices(0, nsubdiv, &mut flat);
    let ghost faces = closed_fan(0, nsubdiv, nsubdiv) + disc(0, (nsubdiv - 2) as nat);
    assert(flat@ =~= faces);
    let mut indices = split_index_buffer(flat.as_slice());
    let ilen = indices.len();
    let sides: usize = ilen - (nsubdiv as usize - 2);
    let mut id: usize = 0;
    while id < sides
        invariant
            id <= sides,
            sides == nsubdiv,
            2 <= nsubdiv < u32::MAX,
            indices@.len() == 2 * nsubdiv - 2,
            faces == closed_fan(0, nsubdiv, nsubdiv) + disc(0, (nsubdiv - 2) as nat),
            forall|j: int| 0 <= j < id ==> indices@[j] == cone_face(nsubdiv, j),
            forall|j: int| id <= j < indices@.len() ==> indices@[j] == split(faces[j]),
        decreases sides - id,
    {
        let mut face = indices[id];
        face.y.z = id as u32;
        indices[id] = face;
        id += 1;
    }
    let mut id: usize = sides;
    while id < ilen
        invariant
            sides <= id <= ilen,
            sides == nsubdiv,
            ilen == indices@.len(),
            2 <= nsubdiv < u32::MAX,
            indices@.len() == 2 * nsubdiv - 2,
            faces == closed_fan(0, nsubdiv, nsubdiv) + disc(0, (nsubdiv - 2) as nat),
            forall|j: int| 0 <= j < id ==> indices@[j] == cone_face(nsubdiv, j),
            forall|j: int| id <= j < indices@.len() ==> indices@[j] == split(faces[j]),
        decreases ilen - id,
    {
        let mut face = indices[id];
        face.x.z = nsubdiv;
        face.y.z = nsubdiv;
        face.z.z = nsubdiv;
        indices[id] = face;
        id += 1;
    }
    assert(indices@ =~= cone_faces(nsubdiv));
    indices
}

} // verus!
