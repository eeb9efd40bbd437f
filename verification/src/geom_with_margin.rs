//! A shape enlarged by its margin.

use crate::implicit::{HasMargin, Implicit};
use vstd::prelude::*;

verus! {

/// A shape taken together with its margin. Asked for a support point without
/// margin, it gives that of the shape with its margin, and its own margin is
/// zero: the margin of the shape counts once, however the question is put.
pub struct GeomWithMargin<'a, G> {
    geom: &'a G,
}

impl<'a, G> GeomWithMargin<'a, G> {
    /// The shape that is wrapped.
    pub closed spec fn wrapped(&self) -> &G {
        self.geom
    }

    /// Wraps the shape.
    pub fn new(geom: &'a G) -> (w: GeomWithMargin<'a, G>)
        ensures
            w.wrapped() == geom,
    {
        GeomWithMargin { geom }
    }

    /// The shape that is wrapped.
    pub fn geom<'b>(&'b self) -> (g: &'b G)
        ensures
            g == self.wrapped(),
    {
        self.geom
    }
}

impl<'a, G> HasMargin for GeomWithMargin<'a, G> {
    open spec fn spec_margin(&self) -> u32 {
        0
    }

    fn margin(&self) -> (m: u32) {
        0
    }
}

impl<'a, V, M, G: Implicit<V, M>> Implicit<V, M> for GeomWithMargin<'a, G> {
    open spec fn supports(&self, m: &M, dir: &V, p: &V) -> bool {
        self.wrapped().supports(m, dir, p)
    }

    open spec fn supports_without_margin(&self, m: &M, dir: &V, p: &V) -> bool {
        self.wrapped().supports(m, dir, p)
    }

    fn support_point(&self, m: &M, dir: &V) -> (p: V) {
        self.geom.support_point(m, dir)
    }

    fn support_point_without_margin(&self, m: &M, dir: &V) -> (p: V) {
        self.geom.support_point(m, dir)
    }
}

/// Wrapping a wrapped shape once more changes no answer: the margin of the
/// shape is never counted a second time.
pub proof fn lemma_wrapping_twice<'a, 'b, V, M, G: Implicit<V, M>>(
    outer: GeomWithMargin<'b, GeomWithMargin<'a, G>>,
    m: &M,
    dir: &V,
    p: &V,
)
    ensures
        outer.supports(m, dir, p) == outer.wrapped().wrapped().supports(m, dir, p),
        outer.supports_without_margin(m, dir, p) == outer.wrapped().wrapped().supports(m, dir, p),
        outer.spec_margin() == 0,
{
}

} // verus!
