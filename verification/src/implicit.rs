//! What the algorithms ask of a convex shape: its margin, and the point of
//! the shape that lies furthest in a direction.

use vstd::prelude::*;

verus! {

/// A shape with a margin: a skin of that width around the shape proper.
pub trait HasMargin {
    /// The margin of the shape.
    spec fn spec_margin(&self) -> u32;

    /// The margin of the shape.
    fn margin(&self) -> (m: u32)
        ensures
            m == self.spec_margin(),
    ;
}

/// A convex shape given by its support mapping. `V` is the type of directions
/// and of points, `M` that of the place of the shape.
pub trait Implicit<V, M> {
    /// Whether `p` is the point that the shape, with its margin and placed by
    /// `m`, gives as its furthest along `dir`.
    spec fn supports(&self, m: &M, dir: &V, p: &V) -> bool;

    /// Whether `p` is the point that the shape, without its margin and placed
    /// by `m`, gives as its furthest along `dir`.
    spec fn supports_without_margin(&self, m: &M, dir: &V, p: &V) -> bool;

    /// The point of the shape, with its margin, that lies furthest along `dir`.
    fn support_point(&self, m: &M, dir: &V) -> (p: V)
        ensures
            self.supports(m, dir, &p),
    ;

    /// The point of the shape, without its margin, that lies furthest along
    /// `dir`.
    fn support_point_without_margin(&self, m: &M, dir: &V) -> (p: V)
        ensures
            self.supports_without_margin(m, dir, &p),
    ;
}

} // verus!
