//! Points and vectors over integer coordinates.

use vstd::prelude::*;

verus! {

/// A point in `D` dimensions. It also serves as the place of a shape: the
/// shift that carries the origin to the point.
#[derive(Clone, Copy, Debug)]
pub struct Point<const D: usize> {
    pub coords: [i32; D],
}

/// A direction, or a point in the wider range that a shape around a `Point`
/// reaches.
#[derive(Clone, Copy, Debug)]
pub struct Vector<const D: usize> {
    pub coords: [i64; D],
}

/// Three values of one type, named `x`, `y` and `z`: the three corners of a
/// triangle, or the three indices of one corner.
#[derive(Clone, Copy, Debug, PartialEq, Eq)]
pub struct Vec3<N> {
    pub x: N,
    pub y: N,
    pub z: N,
}

impl<N> Vec3<N> {
    /// The triple of the three values.
    pub fn new(x: N, y: N, z: N) -> (v: Vec3<N>)
        ensures
            v.x == x,
            v.y == y,
            v.z == z,
    {
        Vec3 { x, y, z }
    }
}

impl<const D: usize> Point<D> {
    /// Sum over the first `k` axes of the squared difference of the two points.
    pub open spec fn distance_squared_upto(&self, other: &Point<D>, k: int) -> int
        decreases k,
    {
        if k <= 0 {
            0
        } else {
            let delta = other.coords[k - 1] - self.coords[k - 1];
            self.distance_squared_upto(other, k - 1) + delta * delta
        }
    }

    /// The squared distance of the two points.
    pub open spec fn distance_squared(&self, other: &Point<D>) -> int {
        self.distance_squared_upto(other, D as int)
    }

    /// The point with the given coordinates.
    pub fn new(coords: [i32; D]) -> (p: Point<D>)
        ensures
            p.coords == coords,
    {
        Point { coords }
    }

    /// The squared distance of the two points.
    pub fn distance_squared_to(&self, other: &Point<D>) -> (r: u128)
        ensures
            r == self.distance_squared(other),
    {
        let mut sum: u128 = 0;
        let mut k: usize = 0;
        while k < D
            invariant
                k <= D,
                sum == self.distance_squared_upto(other, k as int),
                sum <= k * 0xffff_fffe_0000_0001,
            decreases D - k,
        {
            let delta: i64 = other.coords[k] as i64 - self.coords[k] as i64;
            let wide: u128 = if delta < 0 {
                (-delta) as u128
            } else {
                delta as u128
            };
            assert(wide * wide == delta * delta) by (nonlinear_arith)
                requires
                    wide == delta || wide == -delta,
            ;
            assert(wide * wide <= 0xffff_fffe_0000_0001) by (nonlinear_arith)
                requires
                    0 <= wide <= 0xffff_ffff,
            ;
            assert((k + 1) * 0xffff_fffe_0000_0001 <= 0xffff_ffff_ffff_ffff * 0xffff_fffe_0000_0001)
                by (nonlinear_arith)
                requires
                    k + 1 <= 0xffff_ffff_ffff_ffff,
            ;
            assert(self.distance_squared_upto(other, k + 1) == self.distance_squared_upto(
                other,
                k as int,
            ) + delta * delta);
            sum = sum + wide * wide;
            k += 1;
        }
        sum
    }
}

impl<const D: usize> Vector<D> {
    /// The vector with the given coordinates.
    pub fn new(coords: [i64; D]) -> (v: Vector<D>)
        ensures
            v.coords == coords,
    {
        Vector { coords }
    }
}

} // verus!
