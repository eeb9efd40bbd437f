//! How near two shapes are: touching, within a margin of each other, or
//! further apart.

use crate::math::Point;
use crate::shape::Ball;
use vstd::prelude::*;

verus! {

/// The three states of a pair of shapes with a margin between them.
#[derive(Clone, Copy, Debug, PartialEq, Eq, Structural)]
pub enum Proximity {
    /// The shapes touch or overlap.
    Intersecting,
    /// The shapes do not touch, and are no further apart than the margin.
    WithinMargin,
    /// The shapes are further apart than the margin.
    Disjoint,
}

/// The state of two balls with the radii `r1` and `r2` whose centres are at
/// the squared distance `d2`. Both borders belong to the nearer state.
pub open spec fn classify(d2: int, r1: int, r2: int, margin: int) -> Proximity {
    let reach = r1 + r2;
    let loose = reach + margin;
    if d2 > loose * loose {
        Proximity::Disjoint
    } else if d2 > reach * reach {
        Proximity::WithinMargin
    } else {
        Proximity::Intersecting
    }
}

/// The place of a state in the order in which growing distance passes
/// through them.
pub open spec fn rank(state: Proximity) -> int {
    match state {
        Proximity::Intersecting => 0,
        Proximity::WithinMargin => 1,
        Proximity::Disjoint => 2,
    }
}

/// The proximity of two balls at the given centres.
pub fn ball_against_ball<const D: usize>(
    center1: &Point<D>,
    b1: &Ball,
    center2: &Point<D>,
    b2: &Ball,
    margin: u32,
) -> (r: Proximity)
    ensures
        r == classify(
            center1.distance_squared(center2),
            b1.spec_radius() as int,
            b2.spec_radius() as int,
            margin as int,
        ),
{
    let distance_squared: u128 = center1.distance_squared_to(center2);
    let sum_radius: u128 = b1.radius() as u128 + b2.radius() as u128;
    let sum_radius_with_error: u128 = sum_radius + margin as u128;
    assert(sum_radius_with_error * sum_radius_with_error <= 0x3_0000_0000 * 0x3_0000_0000)
        by (nonlinear_arith)
        requires
            sum_radius_with_error <= 0x3_0000_0000,
    ;
    assert(sum_radius * sum_radius <= 0x2_0000_0000 * 0x2_0000_0000) by (nonlinear_arith)
        requires
            sum_radius <= 0x2_0000_0000,
    ;
    if distance_squared <= sum_radius_with_error * sum_radius_with_error {
        if distance_squared <= sum_radius * sum_radius {
            Proximity::Intersecting
        } else {
            Proximity::WithinMargin
        }
    } else {
        Proximity::Disjoint
    }
}

/// Two balls whose centres are at the distance `d` touch or overlap as far as
/// the sum of their radii, are within the margin from there as far as that sum
/// and the margin, and are apart beyond.
pub proof fn lemma_proximity_borders(d: int, r1: int, r2: int, margin: int)
    requires
        0 <= d,
        0 <= r1,
        0 <= r2,
        0 <= margin,
    ensures
        classify(d * d, r1, r2, margin) == Proximity::Intersecting <==> d <= r1 + r2,
        classify(d * d, r1, r2, margin) == Proximity::WithinMargin <==> r1 + r2 < d <= r1 + r2
            + margin,
        classify(d * d, r1, r2, margin) == Proximity::Disjoint <==> r1 + r2 + margin < d,
{
    let reach = r1 + r2;
    let loose = reach + margin;
    assert(d * d <= reach * reach <==> d <= reach) by (nonlinear_arith)
        requires
            0 <= d,
            0 <= reach,
    ;
    assert(d * d <= loose * loose <==> d <= loose) by (nonlinear_arith)
        requires
            0 <= d,
            0 <= loose,
    ;
}

/// As the centres of two balls move apart, their state never goes back: from
/// touching it passes to within the margin, and from there to apart.
pub proof fn lemma_proximity_monotone(near: int, far: int, r1: int, r2: int, margin: int)
    requires
        0 <= near <= far,
        0 <= r1,
        0 <= r2,
        0 <= margin,
    ensures
        rank(classify(near, r1, r2, margin)) <= rank(classify(far, r1, r2, margin)),
{
    let reach = r1 + r2;
    let loose = reach + margin;
    assert(reach * reach <= loose * loose) by (nonlinear_arith)
        requires
            0 <= reach <= loose,
    ;
}

} // verus!
