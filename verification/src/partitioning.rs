//! A dynamic bounding-volume tree: a binary tree whose leaves are boxes with
//! an identifier and whose inner nodes hold the smallest box around their two
//! children.

use crate::bounding_volume::{
    lemma_encloses_transitive, lemma_overlaps_grows, lemma_overlaps_itself, Aabb,
};
use crate::pairs::push_new;
use vstd::prelude::*;

verus! {

/// Both ends of the pair are keys of `m`, the first not above the second, and
/// their boxes share a point.
pub open spec fn inner_hit<const D: usize>(p: (usize, usize), m: Map<usize, Aabb<D>>) -> bool {
    &&& p.0 <= p.1
    &&& m.contains_key(p.0)
    &&& m.contains_key(p.1)
    &&& m[p.0].overlaps(&m[p.1])
}

/// One end of the pair is a key of `a`, the other a key of `b`.
spec fn across<const D: usize>(
    p: (usize, usize),
    a: Map<usize, Aabb<D>>,
    b: Map<usize, Aabb<D>>,
) -> bool {
    (a.contains_key(p.0) && b.contains_key(p.1)) || (a.contains_key(p.1) && b.contains_key(p.0))
}

/// One end of the pair is a key of `a`, the other a key of `b`, the first end is
/// not above the second, and their boxes share a point.
spec fn cross_hit<const D: usize>(
    p: (usize, usize),
    a: Map<usize, Aabb<D>>,
    b: Map<usize, Aabb<D>>,
) -> bool {
    &&& p.0 <= p.1
    &&& ((a.contains_key(p.0) && b.contains_key(p.1) && a[p.0].overlaps(&b[p.1])) || (
    a.contains_key(p.1) && b.contains_key(p.0) && a[p.1].overlaps(&b[p.0])))
}

/// A node of the tree: a leaf, which is a box with an identifier, or an inner
/// node over two children, which holds the smallest box around them.
pub enum Node<const D: usize> {
    Leaf { volume: Aabb<D>, id: usize },
    Internal { volume: Aabb<D>, left: Box<Node<D>>, right: Box<Node<D>> },
}

impl<const D: usize> Node<D> {
    /// The box of the node.
    pub open spec fn volume(&self) -> Aabb<D> {
        match self {
            Node::Leaf { volume, .. } => *volume,
            Node::Internal { volume, .. } => *volume,
        }
    }

    /// The leaves below the node: each identifier with its box.
    pub open spec fn leaves(&self) -> Map<usize, Aabb<D>>
        decreases self,
    {
        match self {
            Node::Leaf { volume, id } => Map::empty().insert(*id, *volume),
            Node::Internal { left, right, .. } => left.leaves().union_prefer_right(right.leaves()),
        }
    }

    /// No leaf is empty, no identifier occurs twice, and the box of an inner
    /// node is the smallest one around its two children.
    pub open spec fn wf(&self) -> bool
        decreases self,
    {
        match self {
            Node::Leaf { volume, .. } => volume.valid(),
            Node::Internal { volume, left, right } => {
                &&& left.wf()
                &&& right.wf()
                &&& volume.unites(&left.volume(), &right.volume())
                &&& left.leaves().dom().disjoint(right.leaves().dom())
            },
        }
    }

    /// Whether `after` is the node with the leaf `id` added. At an inner node
    /// the leaf goes to the child whose box grows less by it, in the sum of its
    /// edge lengths, and to the left child where both grow alike. The leaf at
    /// which it arrives becomes an inner node with itself to the left and the
    /// new leaf to the right. Each inner node on the way holds the smallest box
    /// around its children again.
    pub open spec fn grown(&self, volume: Aabb<D>, id: usize, after: &Node<D>) -> bool
        decreases self,
    {
        match (self, after) {
            (Node::Leaf { .. }, Node::Internal { volume: around, left, right }) => {
                &&& **left == *self
                &&& **right == Node::Leaf { volume, id }
                &&& around.unites(&left.volume(), &right.volume())
            },
            (
                Node::Internal { left, right, .. },
                Node::Internal { volume: around, left: new_left, right: new_right },
            ) => {
                &&& around.unites(&new_left.volume(), &new_right.volume())
                &&& if left.volume().growth(&volume) <= right.volume().growth(&volume) {
                    left.grown(volume, id, &**new_left) && new_right == right
                } else {
                    right.grown(volume, id, &**new_right) && new_left == left
                }
            },
            _ => false,
        }
    }

    /// Whether `after` is what is left of the node when its leaf `id` is taken
    /// out: nothing of the leaf itself; of an inner node over the leaf, the
    /// other child; of any other inner node, the node over what is left of the
    /// child that held the leaf and over the other child, with the smallest
    /// box around the two.
    pub open spec fn pruned(&self, id: usize, after: Option<Node<D>>) -> bool
        decreases self,
    {
        match self {
            Node::Leaf { id: own_id, .. } => *own_id == id && after.is_none(),
            Node::Internal { left, right, .. } => {
                if left.leaves().contains_key(id) {
                    match **left {
                        Node::Leaf { .. } => after == Some(**right),
                        Node::Internal { .. } => {
                            &&& after matches Some(
                                Node::Internal { volume: around, left: new_left, right: new_right },
                            )
                            &&& left.pruned(id, Some(*new_left))
                            &&& new_right == *right
                            &&& around.unites(&new_left.volume(), &new_right.volume())
                        },
                    }
                } else {
                    match **right {
                        Node::Leaf { .. } => after == Some(**left),
                        Node::Internal { .. } => {
                            &&& after matches Some(
                                Node::Internal { volume: around, left: new_left, right: new_right },
                            )
                            &&& right.pruned(id, Some(*new_right))
                            &&& new_left == *left
                            &&& around.unites(&new_left.volume(), &new_right.volume())
                        },
                    }
                }
            },
        }
    }

    /// The box of a node holds every leaf below it, and none of them is empty.
    pub proof fn lemma_leaves_enclosed(&self)
        requires
            self.wf(),
        ensures
            self.volume().valid(),
            self.leaves().dom().finite(),
            self.leaves().dom().len() >= 1,
            forall|id: usize| #[trigger]
                self.leaves().contains_key(id) ==> self.leaves()[id].valid()
                    && self.volume().encloses(&self.leaves()[id]),
        decreases self,
    {
        match self {
            Node::Leaf { volume, id } => {
                assert(self.leaves().dom() =~= Set::empty().insert(*id));
            },
            Node::Internal { volume, left, right } => {
                left.lemma_leaves_enclosed();
                right.lemma_leaves_enclosed();
                assert(self.leaves().dom() =~= left.leaves().dom().union(right.leaves().dom()));
                vstd::set_lib::lemma_set_disjoint_lens(left.leaves().dom(), right.leaves().dom());
                assert(left.leaves().dom() + right.leaves().dom() =~= left.leaves().dom().union(
                    right.leaves().dom(),
                ));
            },
        }
    }

    /// The box of the node.
    fn bounding(&self) -> (v: &Aabb<D>)
        ensures
            *v == self.volume(),
    {
        match self {
            Node::Leaf { volume, .. } => volume,
            Node::Internal { volume, .. } => volume,
        }
    }

    /// Adds a leaf. At an inner node the leaf goes to the child whose box
    /// grows less by it, to the left one where both grow alike; the leaf it
    /// arrives at becomes an inner node over itself and the new leaf.
    fn insert(self, volume: Aabb<D>, id: usize) -> (r: Node<D>)
        requires
            self.wf(),
            volume.valid(),
            !self.leaves().contains_key(id),
        ensures
            r.wf(),
            r.leaves() =~= self.leaves().insert(id, volume),
            self.grown(volume, id, &r),
        decreases self,
    {
        match self {
            Node::Leaf { volume: own, id: own_id } => {
                let around = own.merged(&volume);
                let old_leaf = Node::Leaf { volume: own, id: own_id };
                let new_leaf = Node::Leaf { volume, id };
                proof {
                    assert(old_leaf.leaves().dom() =~= Set::empty().insert(own_id));
                    assert(new_leaf.leaves().dom() =~= Set::empty().insert(id));
                    assert(self.leaves().contains_key(own_id));
                    assert(old_leaf.wf() && new_leaf.wf());
                    assert(old_leaf.leaves().dom().disjoint(new_leaf.leaves().dom()));
                }
                let r = Node::Internal {
                    volume: around,
                    left: Box::new(old_leaf),
                    right: Box::new(new_leaf),
                };
                assert(r.leaves() =~= self.leaves().insert(id, volume));
                assert(r.wf());
                r
            },
            Node::Internal { volume: _, left, right } => {
                proof {
                    left.lemma_leaves_enclosed();
                    right.lemma_leaves_enclosed();
                }
                if left.bounding().growth_by(&volume) <= right.bounding().growth_by(&volume) {
                    let grown = (*left).insert(volume, id);
                    let around = grown.bounding().merged(right.bounding());
                    let r = Node::Internal { volume: around, left: Box::new(grown), right };
                    assert(r.leaves() =~= self.leaves().insert(id, volume));
                    assert(!right.leaves().contains_key(id));
                    assert(grown.leaves().dom().disjoint(right.leaves().dom()));
                    assert(r.wf());
                    r
                } else {
                    let grown = (*right).insert(volume, id);
                    let around = left.bounding().merged(grown.bounding());
                    let r = Node::Internal { volume: around, left, right: Box::new(grown) };
                    assert(r.leaves() =~= self.leaves().insert(id, volume));
                    assert(!left.leaves().contains_key(id));
                    assert(left.leaves().dom().disjoint(grown.leaves().dom()));
                    assert(r.wf());
                    r
                }
            },
        }
    }
    /// Takes the leaf `id` out, looking only below nodes whose box holds
    /// `volume`. The sibling of the leaf takes the place of their parent, and
    /// the boxes above are made anew. Where `id` is no leaf, nothing changes.
    fn remove(self, id: usize, volume: &Aabb<D>) -> (r: (Option<Node<D>>, bool))
        requires
            self.wf(),
            self.leaves().contains_key(id) ==> self.leaves()[id].encloses(volume),
        ensures
            r.1 == self.leaves().contains_key(id),
            !r.1 ==> r.0 == Some(self),
            r.1 ==> match r.0 {
                Some(rest) => rest.wf() && rest.leaves() =~= self.leaves().remove(id),
                None => self.leaves().remove(id) =~= Map::empty(),
            },
            r.1 ==> self.pruned(id, r.0),
        decreases self,
    {
        match self {
            Node::Leaf { volume: own, id: own_id } => {
                if own_id == id {
                    (None, true)
                } else {
                    (Some(Node::Leaf { volume: own, id: own_id }), false)
                }
            },
            Node::Internal { volume: around, left, right } => {
                proof {
                    left.lemma_leaves_enclosed();
                    right.lemma_leaves_enclosed();
                    if left.leaves().contains_key(id) {
                        lemma_encloses_transitive(&left.volume(), &left.leaves()[id], volume);
                    }
                    if right.leaves().contains_key(id) {
                        lemma_encloses_transitive(&right.volume(), &right.leaves()[id], volume);
                    }
                }
                let mut left = left;
                let mut right = right;
                if left.bounding().contains(volume) {
                    let (rest, found) = (*left).remove(id, volume);
                    if found {
                        match rest {
                            None => {
                                let r = *right;
                                assert(r.leaves() =~= self.leaves().remove(id));
                                return (Some(r), true);
                            },
                            Some(shrunk) => {
                                let v = shrunk.bounding().merged(right.bounding());
                                let r = Node::Internal { volume: v, left: Box::new(shrunk), right };
                                assert(r.leaves() =~= self.leaves().remove(id));
                                assert(shrunk.leaves().dom().disjoint(right.leaves().dom()));
                                return (Some(r), true);
                            },
                        }
                    }
                    left = Box::new(rest.unwrap());
                }
                if right.bounding().contains(volume) {
                    let (rest, found) = (*right).remove(id, volume);
                    if found {
                        match rest {
                            None => {
                                let r = *left;
                                assert(r.leaves() =~= self.leaves().remove(id));
                                return (Some(r), true);
                            },
                            Some(shrunk) => {
                                let v = left.bounding().merged(shrunk.bounding());
                                let r = Node::Internal { volume: v, left, right: Box::new(shrunk) };
                                assert(r.leaves() =~= self.leaves().remove(id));
                                assert(left.leaves().dom().disjoint(shrunk.leaves().dom()));
                                return (Some(r), true);
                            },
                        }
                    }
                    right = Box::new(rest.unwrap());
                }
                (Some(Node::Internal { volume: around, left, right }), false)
            },
        }
    }

    /// Appends every pair made of a leaf below `self` and a leaf below `other`
    /// whose boxes share a point, the lower identifier first. Two nodes are
    /// opened together only where their boxes share a point.
    fn collect_cross(&self, other: &Node<D>, out: &mut Vec<(usize, usize)>)
        requires
            self.wf(),
            other.wf(),
            self.leaves().dom().disjoint(other.leaves().dom()),
            old(out)@.no_duplicates(),
            forall|p: (usize, usize)| #[trigger]
                old(out)@.contains(p) ==> !across(p, self.leaves(), other.leaves()),
        ensures
            final(out)@.no_duplicates(),
            forall|p: (usize, usize)|
                #![trigger final(out)@.contains(p)]
                #![trigger old(out)@.contains(p)]
                #![trigger cross_hit(p, self.leaves(), other.leaves())]
                final(out)@.contains(p) <==> (old(out)@.contains(p) || cross_hit(
                    p,
                    self.leaves(),
                    other.leaves(),
                )),
        decreases self, other,
    {
        proof {
            self.lemma_leaves_enclosed();
            other.lemma_leaves_enclosed();
        }
        if !self.bounding().intersects(other.bounding()) {
            proof {
                let a = self.leaves();
                let b = other.leaves();
                assert forall|p: (usize, usize)| !cross_hit(p, a, b) by {
                    if a.contains_key(p.0) && b.contains_key(p.1) && a[p.0].overlaps(&b[p.1]) {
                        lemma_overlaps_grows(&a[p.0], &b[p.1], &self.volume(), &other.volume());
                    }
                    if a.contains_key(p.1) && b.contains_key(p.0) && a[p.1].overlaps(&b[p.0]) {
                        lemma_overlaps_grows(&a[p.1], &b[p.0], &self.volume(), &other.volume());
                    }
                }
            }
            return ;
        }
        match self {
            Node::Internal { left, right, .. } => {
                left.collect_cross(other, out);
                right.collect_cross(other, out);
            },
            Node::Leaf { volume, id } => match other {
                Node::Internal { left, right, .. } => {
                    self.collect_cross(left, out);
                    self.collect_cross(right, out);
                },
                Node::Leaf { volume: other_volume, id: other_id } => {
                    let p = if *id <= *other_id {
                        (*id, *other_id)
                    } else {
                        (*other_id, *id)
                    };
                    assert(across(p, self.leaves(), other.leaves()));
                    push_new(out, p);
                },
            },
        }
    }

    /// Appends every pair of leaves below the node whose boxes share a point,
    /// the lower identifier first; a leaf forms a pair with itself.
    fn collect_inner(&self, out: &mut Vec<(usize, usize)>)
        requires
            self.wf(),
            old(out)@.no_duplicates(),
            forall|p: (usize, usize)| #[trigger]
                old(out)@.contains(p) ==> !(self.leaves().contains_key(p.0)
                    && self.leaves().contains_key(p.1)),
        ensures
            final(out)@.no_duplicates(),
            forall|p: (usize, usize)|
                #![trigger final(out)@.contains(p)]
                #![trigger old(out)@.contains(p)]
                #![trigger inner_hit(p, self.leaves())]
                final(out)@.contains(p) <==> (old(out)@.contains(p) || inner_hit(p, self.leaves())),
        decreases self,
    {
        match self {
            Node::Leaf { volume, id } => {
                proof {
                    lemma_overlaps_itself(volume);
                }
                push_new(out, (*id, *id));
            },
            Node::Internal { left, right, .. } => {
                left.collect_inner(out);
                right.collect_inner(out);
                left.collect_cross(right, out);
            },
        }
    }
}

/// A dynamic bounding-volume tree over boxes with identifiers.
pub struct Dbvt<const D: usize> {
    root: Option<Node<D>>,
}

impl<const D: usize> Dbvt<D> {
    /// The topmost node, if the tree has a leaf.
    pub closed spec fn root(&self) -> Option<Node<D>> {
        self.root
    }

    /// The leaves of the tree: each identifier with its box.
    pub open spec fn leaves(&self) -> Map<usize, Aabb<D>> {
        match self.root() {
            Some(node) => node.leaves(),
            None => Map::empty(),
        }
    }

    /// No leaf is empty, no identifier occurs twice, and the box of an inner
    /// node is the smallest one around its two children.
    pub open spec fn wf(&self) -> bool {
        match self.root() {
            Some(node) => node.wf(),
            None => true,
        }
    }

    /// The tree without leaves.
    pub fn new() -> (t: Dbvt<D>)
        ensures
            t.root().is_none(),
    {
        Dbvt { root: None }
    }

    /// Adds the leaf `id` with the box `volume`. From the root down the leaf
    /// goes to the child whose box grows less by it, and to the left child
    /// where both grow alike; the leaf at which it arrives becomes an inner
    /// node over itself and the new leaf. No leaf that was there changes.
    pub fn insert(&mut self, volume: Aabb<D>, id: usize)
        requires
            old(self).wf(),
            volume.valid(),
            !old(self).leaves().contains_key(id),
        ensures
            final(self).wf(),
            final(self).leaves() =~= old(self).leaves().insert(id, volume),
            match old(self).root() {
                None => final(self).root() == Some(Node::Leaf { volume, id }),
                Some(node) => final(self).root().is_some() && node.grown(
                    volume,
                    id,
                    &final(self).root().unwrap(),
                ),
            },
    {
        let grown = match self.root.take() {
            None => Node::Leaf { volume, id },
            Some(node) => node.insert(volume, id),
        };
        self.root = Some(grown);
    }

    /// Takes the leaf `id` out and says whether there was such a leaf. The
    /// leaf is looked for only below nodes whose box holds `volume`, so
    /// `volume` has to lie in the box of the leaf. The other child of the
    /// parent of the leaf takes the place of the parent, and each node above
    /// holds the smallest box around its children again. Where there is no such
    /// leaf the tree stays as it is.
    pub fn remove(&mut self, id: usize, volume: &Aabb<D>) -> (found: bool)
        requires
            old(self).wf(),
            old(self).leaves().contains_key(id) ==> old(self).leaves()[id].encloses(volume),
        ensures
            final(self).wf(),
            found == old(self).leaves().contains_key(id),
            final(self).leaves() =~= old(self).leaves().remove(id),
            !found ==> final(self).root() == old(self).root(),
            found ==> old(self).root().unwrap().pruned(id, final(self).root()),
    {
        match self.root.take() {
            None => false,
            Some(node) => {
                let (rest, found) = node.remove(id, volume);
                self.root = rest;
                found
            },
        }
    }

    /// Every pair of leaves whose boxes share a point, each pair once and with
    /// the lower identifier first; a leaf forms a pair with itself. The tree is
    /// walked from the root, two nodes together only where their boxes share a
    /// point.
    pub fn interferences(&self) -> (out: Vec<(usize, usize)>)
        requires
            self.wf(),
        ensures
            out@.no_duplicates(),
            forall|p: (usize, usize)| #[trigger] out@.contains(p) <==> inner_hit(p, self.leaves()),
    {
        let mut out: Vec<(usize, usize)> = Vec::new();
        match &self.root {
            None => {},
            Some(node) => {
                node.collect_inner(&mut out);
            },
        }
        out
    }
}

} // verus!
