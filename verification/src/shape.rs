//! Convex shapes.

use crate::bounding_volume::Aabb;
use crate::implicit::{HasMargin, Implicit};
use crate::math::{Point, Vector};
use vstd::prelude::*;

verus! {

/// A ball, given by its radius. A ball of radius zero is a point.
#[derive(Clone, Copy, Debug)]
pub struct Ball {
    radius: u32,
}

impl Ball {
    /// The radius of the ball.
    pub closed spec fn spec_radius(&self) -> u32 {
        self.radius
    }

    /// The ball with the given radius.
    pub fn new(radius: u32) -> (b: Ball)
        ensures
            b.spec_radius() == radius,
    {
        Ball { radius }
    }

    /// The radius of the ball.
    pub fn radius(&self) -> (r: u32)
        ensures
            r == self.spec_radius(),
    {
        self.radius
    }

    /// Whether `b` is the smallest box around the ball with its centre at
    /// `center`: it reaches one radius from the centre each way.
    pub open spec fn boxed_by<const D: usize>(&self, center: &Point<D>, b: &Aabb<D>) -> bool {
        forall|k: int|
            #![trigger b.mins[k]]
            #![trigger b.maxs[k]]
            0 <= k < D ==> b.mins[k] == center.coords[k] - self.spec_radius() && b.maxs[k]
                == center.coords[k] + self.spec_radius()
    }

    /// The smallest box around the ball with its centre at `center`.
    pub fn aabb<const D: usize>(&self, center: &Point<D>) -> (b: Aabb<D>)
        ensures
            b.valid(),
            self.boxed_by(center, &b),
    {
        let mut mins: [i64; D] = [0; D];
        let mut maxs: [i64; D] = [0; D];
        let mut k: usize = 0;
        while k < D
            invariant
                k <= D,
                forall|j: int|
                    #![trigger mins[j]]
                    #![trigger maxs[j]]
                    0 <= j < k ==> mins[j] == center.coords[j] - self.radius && maxs[j]
                        == center.coords[j] + self.radius,
            decreases D - k,
        {
            mins[k] = center.coords[k] as i64 - self.radius as i64;
            maxs[k] = center.coords[k] as i64 + self.radius as i64;
            k += 1;
        }
        Aabb { mins, maxs }
    }
}

/// A box with its faces along the axes, given by half of its edge lengths,
/// with a margin around it. With its margin the shape is the box whose half
/// edge lengths are each longer by the margin.
#[derive(Clone, Copy, Debug)]
pub struct Cuboid<const D: usize> {
    half_extents: [u32; D],
    margin: u32,
}

impl<const D: usize> Cuboid<D> {
    /// Half of the edge length along the axis `k`, without the margin.
    pub closed spec fn half_extent(&self, k: int) -> int {
        self.half_extents[k] as int
    }

    /// The cuboid with the given half edge lengths and margin.
    pub fn new(half_extents: [u32; D], margin: u32) -> (c: Cuboid<D>)
        ensures
            c.spec_margin() == margin,
            forall|k: int| 0 <= k < D ==> #[trigger] c.half_extent(k) == half_extents[k],
    {
        Cuboid { half_extents, margin }
    }

    /// Half of the edge lengths, without the margin.
    pub fn half_extents(&self) -> (h: [u32; D])
        ensures
            forall|k: int| 0 <= k < D ==> #[trigger] self.half_extent(k) == h[k],
    {
        self.half_extents
    }

    /// The corner of the box with half edge lengths longer by `margin` that
    /// lies furthest along `dir`, with the centre at `m`. Along an axis on
    /// which `dir` is zero, the upper face is taken.
    pub open spec fn corner(&self, m: &Point<D>, dir: &Vector<D>, margin: int, p: &Vector<D>) -> bool {
        forall|k: int|
            #![trigger p.coords[k]]
            0 <= k < D ==> p.coords[k] == if dir.coords[k] < 0 {
                m.coords[k] - (self.half_extent(k) + margin)
            } else {
                m.coords[k] + (self.half_extent(k) + margin)
            }
    }

    fn corner_towards(&self, m: &Point<D>, dir: &Vector<D>, margin: u32) -> (p: Vector<D>)
        ensures
            self.corner(m, dir, margin as int, &p),
    {
        let mut coords: [i64; D] = [0; D];
        let mut k: usize = 0;
        while k < D
            invariant
                k <= D,
                forall|j: int|
                    #![trigger coords[j]]
                    0 <= j < k ==> coords[j] == if dir.coords[j] < 0 {
                        m.coords[j] - (self.half_extent(j) + margin)
                    } else {
                        m.coords[j] + (self.half_extent(j) + margin)
                    },
            decreases D - k,
        {
            let reach: i64 = self.half_extents[k] as i64 + margin as i64;
            coords[k] = if dir.coords[k] < 0 {
                m.coords[k] as i64 - reach
            } else {
                m.coords[k] as i64 + reach
            };
            k += 1;
        }
        Vector { coords }
    }

    /// Whether `b` is the smallest box around the cuboid with its margin and
    /// its centre at `center`.
    pub open spec fn boxed_by(&self, center: &Point<D>, b: &Aabb<D>) -> bool {
        forall|k: int|
            #![trigger b.mins[k]]
            #![trigger b.maxs[k]]
            0 <= k < D ==> b.mins[k] == center.coords[k] - (self.half_extent(k)
                + self.spec_margin()) && b.maxs[k] == center.coords[k] + (self.half_extent(k)
                + self.spec_margin())
    }

    /// The smallest box around the cuboid with its margin and its centre at
    /// `center`.
    pub fn aabb(&self, center: &Point<D>) -> (b: Aabb<D>)
        ensures
            b.valid(),
            self.boxed_by(center, &b),
    {
        let mut mins: [i64; D] = [0; D];
        let mut maxs: [i64; D] = [0; D];
        let mut k: usize = 0;
        while k < D
            invariant
                k <= D,
                forall|j: int|
                    #![trigger mins[j]]
                    #![trigger maxs[j]]
                    0 <= j < k ==> mins[j] == center.coords[j] - (self.half_extent(j) + self.margin)
                        && maxs[j] == center.coords[j] + (self.half_extent(j) + self.margin),
            decreases D - k,
        {
            let reach: i64 = self.half_extents[k] as i64 + self.margin as i64;
            mins[k] = center.coords[k] as i64 - reach;
            maxs[k] = center.coords[k] as i64 + reach;
            k += 1;
        }
        Aabb { mins, maxs }
    }
}

impl<const D: usize> HasMargin for Cuboid<D> {
    closed spec fn spec_margin(&self) -> u32 {
        self.margin
    }

    fn margin(&self) -> (m: u32) {
        self.margin
    }
}

impl<const D: usize> Implicit<Vector<D>, Point<D>> for Cuboid<D> {
    open spec fn supports(&self, m: &Point<D>, dir: &Vector<D>, p: &Vector<D>) -> bool {
        self.corner(m, dir, self.spec_margin() as int, p)
    }

    open spec fn supports_without_margin(&self, m: &Point<D>, dir: &Vector<D>, p: &Vector<D>) -> bool {
        self.corner(m, dir, 0, p)
    }

    fn support_point(&self, m: &Point<D>, dir: &Vector<D>) -> (p: Vector<D>) {
        self.corner_towards(m, dir, self.margin)
    }

    fn support_point_without_margin(&self, m: &Point<D>, dir: &Vector<D>) -> (p: Vector<D>) {
        self.corner_towards(m, dir, 0)
    }
}

/// The squared distance of two points is at least the squared difference
/// along any one axis.
proof fn lemma_distance_covers_axis<const D: usize>(a: &Point<D>, b: &Point<D>, n: int, k: int)
    requires
        0 <= k < n <= D,
    ensures
        (b.coords[k] - a.coords[k]) * (b.coords[k] - a.coords[k]) <= a.distance_squared_upto(b, n),
        0 <= a.distance_squared_upto(b, k),
    decreases n,
{
    let last = b.coords[n - 1] - a.coords[n - 1];
    assert(0 <= last * last) by (nonlinear_arith);
    if k < n - 1 {
        lemma_distance_covers_axis(a, b, n - 1, k);
    } else {
        lemma_distance_nonnegative(a, b, n - 1);
    }
    lemma_distance_nonnegative(a, b, k);
}

/// A squared distance is not negative.
proof fn lemma_distance_nonnegative<const D: usize>(a: &Point<D>, b: &Point<D>, n: int)
    requires
        0 <= n <= D,
    ensures
        0 <= a.distance_squared_upto(b, n),
    decreases n,
{
    if n > 0 {
        let last = b.coords[n - 1] - a.coords[n - 1];
        assert(0 <= last * last) by (nonlinear_arith);
        lemma_distance_nonnegative(a, b, n - 1);
    }
}

/// The box around a ball holds every point of the ball: each point that is
/// no further from the centre than the radius.
pub proof fn lemma_ball_within_aabb<const D: usize>(
    ball: &Ball,
    center: &Point<D>,
    b: &Aabb<D>,
    p: &Point<D>,
)
    requires
        ball.boxed_by(center, b),
        center.distance_squared(p) <= ball.spec_radius() * ball.spec_radius(),
    ensures
        forall|k: int| 0 <= k < D ==> b.mins[k] <= #[trigger] p.coords[k] <= b.maxs[k],
{
    let r = ball.spec_radius() as int;
    assert forall|k: int| 0 <= k < D implies b.mins[k] <= #[trigger] p.coords[k] <= b.maxs[k] by {
        lemma_distance_covers_axis(center, p, D as int, k);
        let delta = p.coords[k] - center.coords[k];
        assert(-r <= delta <= r) by (nonlinear_arith)
            requires
                delta * delta <= r * r,
                0 <= r,
        ;
    }
}

/// The box around a cuboid holds each of its support points, with and without
/// the margin.
pub proof fn lemma_cuboid_within_aabb<const D: usize>(
    cuboid: &Cuboid<D>,
    center: &Point<D>,
    b: &Aabb<D>,
    dir: &Vector<D>,
    p: &Vector<D>,
)
    requires
        cuboid.boxed_by(center, b),
        cuboid.supports(center, dir, p) || cuboid.supports_without_margin(center, dir, p),
    ensures
        forall|k: int| 0 <= k < D ==> b.mins[k] <= #[trigger] p.coords[k] <= b.maxs[k],
{
}

} // verus!
