//! The faces of a cylinder.

use crate::math::Vec3;
use crate::procedural::cone::corner;
use crate::procedural::utils::{
    disc, push_closed_circle_indices, push_ring_indices, reverse_clockwising, reversed, ring, split,
    split_index_buffer,
};
use vstd::prelude::*;

verus! {

/// The face `j` of a cylinder between two circles of `nsubdiv` points, the
/// points `0` to `nsubdiv - 1` and the points `nsubdiv` to `2 * nsubdiv - 1`.
/// The first `2 * nsubdiv` faces are the sides, two for each point `i` of the
/// first circle: the point, the point above it and the point above the next;
/// then the point, the point above the next and the next. A corner of a side
/// has the normal of the point of the first circle that it is or lies above.
/// Then come the faces that fill the first circle from its first point, with
/// the normal `nsubdiv`, and the faces that fill the second circle from its
/// first point, turned the other way round, with the normal `nsubdiv + 1`.
pub open spec fn cylinder_face(nsubdiv: u32, j: int) -> Vec3<Vec3<u32>> {
    if j < 2 * nsubdiv {
        let i = j / 2;
        let next = if i + 1 < nsubdiv {
            i + 1
        } else {
            0
        };
        if j % 2 == 0 {
            Vec3 { x: corner(i, i), y: corner(nsubdiv + i, i), z: corner(nsubdiv + next, next) }
        } else {
            Vec3 { x: corner(i, i), y: corner(nsubdiv + next, next), z: corner(next, next) }
        }
    } else if j < 3 * nsubdiv - 2 {
        let i = j - 2 * nsubdiv;
        Vec3 {
            x: corner(0, nsubdiv as int),
            y: corner(i + 1, nsubdiv as int),
            z: corner(i + 2, nsubdiv as int),
        }
    } else {
        let i = j - (3 * nsubdiv - 2);
        Vec3 {
            x: corner(nsubdiv + 1 + i, nsubdiv + 1),
            y: corner(nsubdiv as int, nsubdiv + 1),
            z: corner(nsubdiv + 2 + i, nsubdiv + 1),
        }
    }
}

/// The faces of a cylinder between two circles of `nsubdiv` points.
pub open spec fn cylinder_faces(nsubdiv: u32) -> Seq<Vec3<Vec3<u32>>> {
    Seq::new((4 * nsubdiv - 4) as nat, |j: int| cylinder_face(nsubdiv, j))
}

/// The normal of a corner of a side: the index of the point of the first
/// circle that the corner is or lies above.
fn side_normal(normal: u32, nsubdiv: u32) -> (r: u32)
    ensures
        r == if normal >= nsubdiv {
            normal - nsubdiv
        } else {
            normal as int
        },
{
    if normal >= nsubdiv {
        normal - nsubdiv
    } else {
        normal
    }
}

/// The faces of a cylinder between two circles of `nsubdiv` points: for each
/// corner the indices of its place, of its texture coordinates and of its
/// normal. The normals are one for each point of a circle, then one for each
/// of the two lids.
pub fn unit_cylinder_indices(nsubdiv: u32) -> (indices: Vec<Vec3<Vec3<u32>>>)
    requires
        2 <= nsubdiv,
        2 * nsubdiv <= u32::MAX,
    ensures
        indices@ == cylinder_faces(nsubdiv),
{
    let mut flat: Vec<Vec3<u32>> = Vec::new();
    push_ring_indices(0, nsubdiv, nsubdiv, &mut flat);
    push_closed_circle_indices(0, nsubdiv, &mut flat);
    let mut lid: Vec<Vec3<u32>> = Vec::new();
    push_closed_circle_indices(nsubdiv, nsubdiv, &mut lid);
    reverse_clockwising(lid.as_mut_slice());
    flat.append(&mut lid);
    let ghost faces = ring(0, nsubdiv, nsubdiv) + disc(0, (nsubdiv - 2) as nat) + disc(
        nsubdiv,
        (nsubdiv - 2) as nat,
    ).map_values(|t: Vec3<u32>| reversed(t));
    assert(flat@ =~= faces);
    let mut indices = split_index_buffer(flat.as_slice());
    let len = indices.len();
    let bottom_start_id: usize = len - (nsubdiv as usize - 2);
    let top_start_id: usize = len - 2 * (nsubdiv as usize - 2);
    let mut id: usize = 0;
    while id < top_start_id
        invariant
            id <= top_start_id,
            top_start_id == 2 * nsubdiv,
            2 <= nsubdiv,
            2 * nsubdiv <= u32::MAX,
            indices@.len() == 4 * nsubdiv - 4,
            faces == ring(0, nsubdiv, nsubdiv) + disc(0, (nsubdiv - 2) as nat) + disc(
                nsubdiv,
                (nsubdiv - 2) as nat,
            ).map_values(|t: Vec3<u32>| reversed(t)),
            forall|j: int| 0 <= j < id ==> indices@[j] == cylinder_face(nsubdiv, j),
            forall|j: int| id <= j < indices@.len() ==> indices@[j] == split(faces[j]),
        decreases top_start_id - id,
    {
        let mut face = indices[id];
        face.x.z = side_normal(face.x.z, nsubdiv);
        face.y.z = side_normal(face.y.z, nsubdiv);
        face.z.z = side_normal(face.z.z, nsubdiv);
        indices[id] = face;
        id += 1;
    }
    let mut id: usize = top_start_id;
    while id < bottom_start_id
        invariant
            top_start_id <= id <= bottom_start_id,
            top_start_id == 2 * nsubdiv,
            bottom_start_id == 3 * nsubdiv - 2,
            2 <= nsubdiv,
            2 * nsubdiv <= u32::MAX,
            indices@.len() == 4 * nsubdiv - 4,
            faces == ring(0, nsubdiv, nsubdiv) + disc(0, (nsubdiv - 2) as nat) + disc(
                nsubdiv,
                (nsubdiv - 2) as nat,
            ).map_values(|t: Vec3<u32>| reversed(t)),
            forall|j: int| 0 <= j < id ==> indices@[j] == cylinder_face(nsubdiv, j),
            forall|j: int| id <= j < indices@.len() ==> indices@[j] == split(faces[j]),
        decreases bottom_start_id - id,
    {
        let mut face = indices[id];
        face.x.z = nsubdiv;
        face.y.z = nsubdiv;
        face.z.z = nsubdiv;
        indices[id] = face;
        id += 1;
    }
    let mut id: usize = bottom_start_id;
    while id < len
        invariant
            bottom_start_id <= id <= len,
            bottom_start_id == 3 * nsubdiv - 2,
            len == indices@.len(),
            2 <= nsubdiv,
            2 * nsubdiv <= u32::MAX,
            indices@.len() == 4 * nsubdiv - 4,
            faces == ring(0, nsubdiv, nsubdiv) + disc(0, (nsubdiv - 2) as nat) + disc(
                nsubdiv,
                (nsubdiv - 2) as nat,
            ).map_values(|t: Vec3<u32>| reversed(t)),
            forall|j: int| 0 <= j < id ==> indices@[j] == cylinder_face(nsubdiv, j),
            forall|j: int| id <= j < indices@.len() ==> indices@[j] == split(faces[j]),
        decreases len - id,
    {
        let mut face = indices[id];
        face.x.z = nsubdiv + 1;
        face.y.z = nsubdiv + 1;
        face.z.z = nsubdiv + 1;
        indices[id] = face;
        id += 1;
    }
    assert(indices@ =~= cylinder_faces(nsubdiv));
    indices
}

} // verus!
