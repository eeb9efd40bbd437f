//! The faces of a sphere and of a half sphere.

use crate::math::Vec3;
use crate::procedural::utils::{
    closed_fan, push_degenerate_top_ring_indices, push_ring_indices, reverse_clockwising, reversed,
    ring,
};
use vstd::prelude::*;

verus! {

/// The faces of `count` rings, one above the other: between the circle of
/// `ntheta` points that starts at the index `base` and the circle after it,
/// between that one and the next, and so on.
pub open spec fn stacked_rings(base: u32, ntheta: u32, count: nat) -> Seq<Vec3<u32>>
    decreases count,
{
    if count == 0 {
        Seq::empty()
    } else {
        stacked_rings(base, ntheta, (count - 1) as nat) + ring(
            (base + (count - 1) * ntheta) as u32,
            (base + count * ntheta) as u32,
            ntheta,
        )
    }
}

/// The faces of a sphere over these points: the lower pole, the point `0`;
/// then `2 * nphi_subdiv - 1` circles of `ntheta_subdiv` points each, from the
/// lowest up; then the upper pole. The faces are those between the lower pole
/// and the lowest circle, turned the other way round, those of the rings
/// between one circle and the next, and those between the highest circle and
/// the upper pole.
pub open spec fn sphere_faces(ntheta_subdiv: u32, nphi_subdiv: u32) -> Seq<Vec3<u32>> {
    let rings = (2 * nphi_subdiv - 2) as nat;
    closed_fan(1, 0, ntheta_subdiv).map_values(|t: Vec3<u32>| reversed(t)) + stacked_rings(
        1,
        ntheta_subdiv,
        rings,
    ) + closed_fan(
        (1 + rings * ntheta_subdiv) as u32,
        (1 + (rings + 1) * ntheta_subdiv) as u32,
        ntheta_subdiv,
    )
}

/// The faces of a half sphere over these points: `nphi_subdiv - 1` circles of
/// `ntheta_subdiv` points each, from the lowest up, the first at the index
/// `0`; then the pole. The faces are those of the rings between one circle and
/// the next and those between the highest circle and the pole.
pub open spec fn hemisphere_faces(ntheta_subdiv: u32, nphi_subdiv: u32) -> Seq<Vec3<u32>> {
    let rings = (nphi_subdiv - 2) as nat;
    stacked_rings(0, ntheta_subdiv, rings) + closed_fan(
        (rings * ntheta_subdiv) as u32,
        ((rings + 1) * ntheta_subdiv) as u32,
        ntheta_subdiv,
    )
}

/// Appends the faces of `count` rings, one above the other, the lowest circle
/// at the index `base`.
pub fn push_stacked_rings(base: u32, ntheta_subdiv: u32, count: u32, out: &mut Vec<Vec3<u32>>)
    requires
        ntheta_subdiv > 0,
        base + (count + 1) * ntheta_subdiv - 1 <= u32::MAX,
    ensures
        final(out)@ == old(out)@ + stacked_rings(base, ntheta_subdiv, count as nat),
{
    let mut i: u32 = 0;
    while i < count
        invariant
            i <= count,
            ntheta_subdiv > 0,
            base + (count + 1) * ntheta_subdiv - 1 <= u32::MAX,
            out@ =~= old(out)@ + stacked_rings(base, ntheta_subdiv, i as nat),
        decreases count - i,
    {
        assert((i + 2) * ntheta_subdiv <= (count + 1) * ntheta_subdiv) by (nonlinear_arith)
            requires
                i + 2 <= count + 1,
                ntheta_subdiv > 0,
        ;
        assert((i + 2) * ntheta_subdiv == i * ntheta_subdiv + 2 * ntheta_subdiv
            && (i + 1) * ntheta_subdiv == i * ntheta_subdiv + ntheta_subdiv && i * ntheta_subdiv
            >= 0) by (nonlinear_arith);
        let lower: u32 = base + i * ntheta_subdiv;
        let upper: u32 = base + (i + 1) * ntheta_subdiv;
        push_ring_indices(lower, upper, ntheta_subdiv, out);
        i += 1;
    }
}

/// The faces of a sphere whose points are the lower pole, then
/// `2 * nphi_subdiv - 1` circles of `ntheta_subdiv` points each, then the upper
/// pole.
pub fn unit_sphere_indices(ntheta_subdiv: u32, nphi_subdiv: u32) -> (idx: Vec<Vec3<u32>>)
    requires
        ntheta_subdiv > 0,
        nphi_subdiv > 0,
        1 + (2 * nphi_subdiv - 1) * ntheta_subdiv <= u32::MAX,
    ensures
        idx@ == sphere_faces(ntheta_subdiv, nphi_subdiv),
{
    assert((2 * nphi_subdiv - 1) * ntheta_subdiv >= 2 * nphi_subdiv - 1) by (nonlinear_arith)
        requires
            ntheta_subdiv > 0,
            nphi_subdiv > 0,
    ;
    assert((2 * nphi_subdiv - 1) * ntheta_subdiv == (2 * nphi_subdiv - 2) * ntheta_subdiv
        + ntheta_subdiv && (2 * nphi_subdiv - 2) * ntheta_subdiv >= 0) by (nonlinear_arith)
        requires
            nphi_subdiv > 0,
    ;
    let rings: u32 = 2 * nphi_subdiv - 2;
    let mut idx: Vec<Vec3<u32>> = Vec::new();
    push_degenerate_top_ring_indices(1, 0, ntheta_subdiv, &mut idx);
    reverse_clockwising(idx.as_mut_slice());
    push_stacked_rings(1, ntheta_subdiv, rings, &mut idx);
    let last_circle: u32 = 1 + rings * ntheta_subdiv;
    let pole: u32 = last_circle + ntheta_subdiv;
    push_degenerate_top_ring_indices(last_circle, pole, ntheta_subdiv, &mut idx);
    assert((rings + 1) * ntheta_subdiv == rings * ntheta_subdiv + ntheta_subdiv)
        by (nonlinear_arith);
    assert(idx@ =~= sphere_faces(ntheta_subdiv, nphi_subdiv));
    idx
}

/// The faces of a half sphere whose points are `nphi_subdiv - 1` circles of
/// `ntheta_subdiv` points each, then the pole.
pub fn unit_hemisphere_indices(ntheta_subdiv: u32, nphi_subdiv: u32) -> (idx: Vec<Vec3<u32>>)
    requires
        ntheta_subdiv > 0,
        nphi_subdiv >= 2,
        (nphi_subdiv - 1) * ntheta_subdiv <= u32::MAX,
    ensures
        idx@ == hemisphere_faces(ntheta_subdiv, nphi_subdiv),
{
    assert((nphi_subdiv - 1) * ntheta_subdiv == (nphi_subdiv - 2) * ntheta_subdiv + ntheta_subdiv
        && (nphi_subdiv - 2) * ntheta_subdiv >= 0) by (nonlinear_arith)
        requires
            nphi_subdiv >= 2,
    ;
    let rings: u32 = nphi_subdiv - 2;
    let mut idx: Vec<Vec3<u32>> = Vec::new();
    push_stacked_rings(0, ntheta_subdiv, rings, &mut idx);
    let last_circle: u32 = rings * ntheta_subdiv;
    let pole: u32 = last_circle + ntheta_subdiv;
    push_degenerate_top_ring_indices(last_circle, pole, ntheta_subdiv, &mut idx);
    assert((rings + 1) * ntheta_subdiv == rings * ntheta_subdiv + ntheta_subdiv)
        by (nonlinear_arith);
    assert(idx@ =~= hemisphere_faces(ntheta_subdiv, nphi_subdiv));
    idx
}

} // verus!
