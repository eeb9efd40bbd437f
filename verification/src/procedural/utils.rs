//! Triangles between circles of points. A circle is a run of `nsubdiv` points
//! whose indices follow one another from a base index on.

use crate::math::Vec3;
use vstd::prelude::*;

verus! {

/// The triangles of the first `count` quads between two circles: for the quad
/// `i`, the lower point `i` with the upper points `i` and `i + 1`, then the
/// lower point `i` with the upper point `i + 1` and the lower point `i + 1`.
pub open spec fn ring_strip(base_lower_circle: u32, base_upper_circle: u32, count: nat) -> Seq<
    Vec3<u32>,
> {
    Seq::new(
        2 * count,
        |j: int|
            {
                let bli = base_lower_circle + j / 2;
                let bui = base_upper_circle + j / 2;
                if j % 2 == 0 {
                    Vec3 { x: bli as u32, y: bui as u32, z: (bui + 1) as u32 }
                } else {
                    Vec3 { x: bli as u32, y: (bui + 1) as u32, z: (bli + 1) as u32 }
                }
            },
    )
}

/// The two triangles that close a ring: between the last points of the two
/// circles and their first points.
pub open spec fn ring_seam(base_lower_circle: u32, base_upper_circle: u32, nsubdiv: u32) -> Seq<
    Vec3<u32>,
> {
    seq![
        Vec3 {
            x: (base_lower_circle + nsubdiv - 1) as u32,
            y: (base_upper_circle + nsubdiv - 1) as u32,
            z: base_upper_circle,
        },
        Vec3 {
            x: (base_lower_circle + nsubdiv - 1) as u32,
            y: base_upper_circle,
            z: base_lower_circle,
        },
    ]
}

/// The first `count` triangles between a circle and one point: the point `i`
/// of the circle, the point, and the point `i + 1` of the circle.
pub open spec fn fan(base_circle: u32, point: u32, count: nat) -> Seq<Vec3<u32>> {
    Seq::new(
        count,
        |i: int| Vec3 { x: (base_circle + i) as u32, y: point, z: (base_circle + i + 1) as u32 },
    )
}

/// The triangles between a circle and one point, the last point of the circle
/// linked to the first.
pub open spec fn closed_fan(base_circle: u32, point: u32, nsubdiv: u32) -> Seq<Vec3<u32>> {
    fan(base_circle, point, (nsubdiv - 1) as nat).push(
        Vec3 { x: (base_circle + nsubdiv - 1) as u32, y: point, z: base_circle },
    )
}

/// The triangles between two circles, the last points linked to the first.
pub open spec fn ring(base_lower_circle: u32, base_upper_circle: u32, nsubdiv: u32) -> Seq<
    Vec3<u32>,
> {
    ring_strip(base_lower_circle, base_upper_circle, (nsubdiv - 1) as nat) + ring_seam(
        base_lower_circle,
        base_upper_circle,
        nsubdiv,
    )
}

/// The first `count` triangles that fill a circle from its first point: the
/// first point with the points `i + 1` and `i + 2`.
pub open spec fn disc(base_circle: u32, count: nat) -> Seq<Vec3<u32>> {
    Seq::new(
        count,
        |i: int|
            Vec3 { x: base_circle, y: (base_circle + 1 + i) as u32, z: (base_circle + 2 + i) as u32 },
    )
}

/// The triangle with its first two corners exchanged.
pub open spec fn reversed(t: Vec3<u32>) -> Vec3<u32> {
    Vec3 { x: t.y, y: t.x, z: t.z }
}

/// The triangle in which each corner stands three times: for its place, its
/// texture coordinates and its normal.
pub open spec fn split(t: Vec3<u32>) -> Vec3<Vec3<u32>> {
    Vec3 {
        x: Vec3 { x: t.x, y: t.x, z: t.x },
        y: Vec3 { x: t.y, y: t.y, z: t.y },
        z: Vec3 { x: t.z, y: t.z, z: t.z },
    }
}

/// Creates the faces from two circles with the same discretization.
pub fn push_ring_indices(
    base_lower_circle: u32,
    base_upper_circle: u32,
    nsubdiv: u32,
    out: &mut Vec<Vec3<u32>>,
)
    requires
        nsubdiv > 0,
        base_lower_circle + nsubdiv - 1 <= u32::MAX,
        base_upper_circle + nsubdiv - 1 <= u32::MAX,
    ensures
        final(out)@ == old(out)@ + ring(base_lower_circle, base_upper_circle, nsubdiv),
{
    push_open_ring_indices(base_lower_circle, base_upper_circle, nsubdiv, out);
    let ghost open = out@;
    out.push(
        Vec3 {
            x: base_lower_circle + (nsubdiv - 1),
            y: base_upper_circle + (nsubdiv - 1),
            z: base_upper_circle,
        },
    );
    out.push(
        Vec3 { x: base_lower_circle + (nsubdiv - 1), y: base_upper_circle, z: base_lower_circle },
    );
    assert(out@ =~= open + ring_seam(base_lower_circle, base_upper_circle, nsubdiv));
    assert(out@ =~= old(out)@ + ring(base_lower_circle, base_upper_circle, nsubdiv));
}

/// Creates the faces from two circles with the same discretization.
/// The created ring is open (the start and end points are not linked together).
pub fn push_open_ring_indices(
    base_lower_circle: u32,
    base_upper_circle: u32,
    nsubdiv: u32,
    out: &mut Vec<Vec3<u32>>,
)
    requires
        nsubdiv > 0,
        base_lower_circle + nsubdiv - 1 <= u32::MAX,
        base_upper_circle + nsubdiv - 1 <= u32::MAX,
    ensures
        final(out)@ == old(out)@ + ring_strip(
            base_lower_circle,
            base_upper_circle,
            (nsubdiv - 1) as nat,
        ),
{
    let mut i: u32 = 0;
    while i < nsubdiv - 1
        invariant
            nsubdiv > 0,
            i <= nsubdiv - 1,
            base_lower_circle + nsubdiv - 1 <= u32::MAX,
            base_upper_circle + nsubdiv - 1 <= u32::MAX,
            out@ =~= old(out)@ + ring_strip(base_lower_circle, base_upper_circle, i as nat),
        decreases nsubdiv - 1 - i,
    {
        let bli = base_lower_circle + i;
        let bui = base_upper_circle + i;
        out.push(Vec3 { x: bli, y: bui, z: bui + 1 });
        out.push(Vec3 { x: bli, y: bui + 1, z: bli + 1 });
        i += 1;
    }
}

/// Creates the faces from a circle and a point that is shared by all triangle.
pub fn push_degenerate_top_ring_indices(
    base_circle: u32,
    point: u32,
    nsubdiv: u32,
    out: &mut Vec<Vec3<u32>>,
)
    requires
        nsubdiv > 0,
        base_circle + nsubdiv - 1 <= u32::MAX,
    ensures
        final(out)@ == old(out)@ + closed_fan(base_circle, point, nsubdiv),
{
    push_degenerate_open_top_ring_indices(base_circle, point, nsubdiv, out);
    out.push(Vec3 { x: base_circle + (nsubdiv - 1), y: point, z: base_circle });
    assert(out@ =~= old(out)@ + closed_fan(base_circle, point, nsubdiv));
}

/// Creates the faces from a circle and a point that is shared by all triangle.
/// The fan is open: the last point of the circle is not linked to the first.
pub fn push_degenerate_open_top_ring_indices(
    base_circle: u32,
    point: u32,
    nsubdiv: u32,
    out: &mut Vec<Vec3<u32>>,
)
    requires
        nsubdiv > 0,
        base_circle + nsubdiv - 1 <= u32::MAX,
    ensures
        final(out)@ == old(out)@ + fan(base_circle, point, (nsubdiv - 1) as nat),
{
    let mut i: u32 = 0;
    while i < nsubdiv - 1
        invariant
            nsubdiv > 0,
            i <= nsubdiv - 1,
            base_circle + nsubdiv - 1 <= u32::MAX,
            out@ =~= old(out)@ + fan(base_circle, point, i as nat),
        decreases nsubdiv - 1 - i,
    {
        out.push(Vec3 { x: base_circle + i, y: point, z: base_circle + i + 1 });
        i += 1;
    }
}

/// Pushes indices so that a circle is filled with triangles. Each triangle will have the
/// `base_circle` point in common.
/// Pushes `nsubdiv - 2` elements to `out`, and none where `nsubdiv` is below 2.
pub fn push_closed_circle_indices(base_circle: u32, nsubdiv: u32, out: &mut Vec<Vec3<u32>>)
    requires
        nsubdiv >= 2 ==> base_circle + nsubdiv - 1 <= u32::MAX,
    ensures
        final(out)@ == old(out)@ + disc(
            base_circle,
            if nsubdiv >= 2 {
                (nsubdiv - 2) as nat
            } else {
                0
            },
        ),
{
    if nsubdiv < 2 {
        assert(out@ =~= old(out)@ + disc(base_circle, 0));
        return ;
    }
    let count: u32 = nsubdiv - 2;
    let mut i: u32 = 0;
    while i < count
        invariant
            i <= count,
            count == nsubdiv - 2,
            base_circle + nsubdiv - 1 <= u32::MAX,
            out@ =~= old(out)@ + disc(base_circle, i as nat),
        decreases count - i,
    {
        out.push(Vec3 { x: base_circle, y: base_circle + 1 + i, z: base_circle + 2 + i });
        i += 1;
    }
}

/// Reverses the clockwising of a set of faces.
pub fn reverse_clockwising(indices: &mut [Vec3<u32>])
    ensures
        final(indices)@ == old(indices)@.map_values(|t: Vec3<u32>| reversed(t)),
{
    let n = indices.len();
    let mut i: usize = 0;
    while i < n
        invariant
            i <= n,
            n == indices@.len(),
            indices@.len() == old(indices)@.len(),
            forall|j: int| 0 <= j < i ==> indices@[j] == reversed(old(indices)@[j]),
            forall|j: int| i <= j < n ==> indices@[j] == old(indices)@[j],
        decreases n - i,
    {
        let t = indices[i];
        indices[i] = Vec3 { x: t.y, y: t.x, z: t.z };
        i += 1;
    }
    assert(indices@ =~= old(indices)@.map_values(|t: Vec3<u32>| reversed(t)));
}

/// Duplicates the indices of each triangle on the given index buffer.
///
/// For example: [ (0, 1, 2) ] becomes: [ ((0, 0, 0), (1, 1, 1), (2, 2, 2)) ].
pub fn split_index_buffer(indices: &[Vec3<u32>]) -> (resi: Vec<Vec3<Vec3<u32>>>)
    ensures
        resi@ == indices@.map_values(|t: Vec3<u32>| split(t)),
{
    let mut resi: Vec<Vec3<Vec3<u32>>> = Vec::new();
    let mut i: usize = 0;
    while i < indices.len()
        invariant
            i <= indices.len(),
            resi@.len() == i,
            forall|j: int| 0 <= j < i ==> resi@[j] == split(indices@[j]),
        decreases indices.len() - i,
    {
        let vertex = indices[i];
        resi.push(
            Vec3 {
                x: Vec3 { x: vertex.x, y: vertex.x, z: vertex.x },
                y: Vec3 { x: vertex.y, y: vertex.y, z: vertex.y },
                z: Vec3 { x: vertex.z, y: vertex.z, z: vertex.z },
            },
        );
        i += 1;
    }
    assert(resi@ =~= indices@.map_values(|t: Vec3<u32>| split(t)));
    resi
}

} // verus!
