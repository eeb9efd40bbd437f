//! The broad phase: a set of proxies, each a box with a payload, kept in a
//! dynamic bounding-volume tree, and the set of pairs of proxies whose boxes
//! share a point.

use crate::bounding_volume::{lemma_loosened_encloses, lemma_overlaps_grows, Aabb};
use crate::pairs::{
    changes, heard, in_pair_order, increasing, lemma_came_earlier, lemma_increasing_no_duplicates,
    lemma_no_change_no_events, lemma_replayed_events, lemma_take_next, lemma_without, ordered,
    precedes, push_last, push_new, reports_change, sorted, without, Heard, PairEvent,
};
use crate::partitioning::{inner_hit, Dbvt};
use vstd::prelude::*;

verus! {

/// Why the broad phase turned a call down.
#[derive(Clone, Copy, Debug, PartialEq, Eq, Structural)]
pub enum BroadPhaseError {
    /// A proxy identifier that is not in use: never handed out, or removed.
    InvalidHandle,
    /// An empty box.
    DegenerateInput,
}

/// Decides which pairs of proxies may interfere at all. For a pair of proxies
/// the payload of the one with the lower identifier is handed over first.
pub trait PairFilter<T> {
    /// Whether proxies with these payloads may form a pair.
    spec fn accepts(&self, a: &T, b: &T) -> bool;

    /// Whether proxies with these payloads may form a pair.
    fn is_pair_valid(&self, a: &T, b: &T) -> (r: bool)
        ensures
            r == self.accepts(a, b),
    ;
}

/// The filter that lets every pair through, also the pair of a proxy with
/// itself.
pub struct AllPairs;

impl<T> PairFilter<T> for AllPairs {
    open spec fn accepts(&self, a: &T, b: &T) -> bool {
        true
    }

    fn is_pair_valid(&self, a: &T, b: &T) -> (r: bool) {
        true
    }
}

/// The filter that lets a pair through where the two payloads differ. With
/// payloads that tell the proxies apart, no proxy then pairs with itself.
pub struct DistinctPayloads;

impl PairFilter<usize> for DistinctPayloads {
    open spec fn accepts(&self, a: &usize, b: &usize) -> bool {
        *a != *b
    }

    fn is_pair_valid(&self, a: &usize, b: &usize) -> (r: bool) {
        *a != *b
    }
}

impl PairFilter<u64> for DistinctPayloads {
    open spec fn accepts(&self, a: &u64, b: &u64) -> bool {
        *a != *b
    }

    fn is_pair_valid(&self, a: &u64, b: &u64) -> (r: bool) {
        *a != *b
    }
}

/// What the broad phase knows of a proxy: its box and its payload.
pub ghost struct ProxyView<T, const D: usize> {
    pub aabb: Aabb<D>,
    pub payload: T,
}

/// The pairs of proxies, the lower identifier first and a proxy with itself
/// included, whose boxes share a point and which the filter lets through.
pub open spec fn accepted_overlaps<T, const D: usize, F: PairFilter<T>>(
    proxies: Map<usize, ProxyView<T, D>>,
    filter: &F,
) -> Set<(usize, usize)> {
    Set::new(
        |p: (usize, usize)|
            {
                &&& p.0 <= p.1
                &&& proxies.contains_key(p.0)
                &&& proxies.contains_key(p.1)
                &&& proxies[p.0].aabb.overlaps(&proxies[p.1].aabb)
                &&& filter.accepts(&proxies[p.0].payload, &proxies[p.1].payload)
            },
    )
}

/// Whether the removal of the proxies `ids` reports the pair `q`: its first end
/// is removed, the two were a pair of `before`, and where both are removed
/// the lower end comes first.
pub open spec fn dissolved_by(ids: Seq<usize>, before: Set<(usize, usize)>, q: (usize, usize)) -> bool {
    &&& ids.contains(q.0)
    &&& before.contains(ordered(q))
    &&& (ids.contains(q.1) ==> q.0 <= q.1)
}

/// Each pair of the list, taken with its lower end first, comes before every
/// pair after it.
pub open spec fn in_order_of_pairs(dissolved: Seq<(usize, usize)>) -> bool {
    forall|i: int, j: int|
        0 <= i < j < dissolved.len() ==> precedes(
            ordered(#[trigger] dissolved[i]),
            ordered(#[trigger] dissolved[j]),
        )
}

/// The broad phase over boxes in `D` dimensions with payloads of type `T`.
pub struct DbvtBroadPhase<T, const D: usize> {
    margin: u64,
    /// One slot for each identifier handed out; `None` once the proxy is removed.
    payloads: Vec<Option<T>>,
    /// The box of each proxy as the caller last gave it.
    tight: Vec<Aabb<D>>,
    /// The box under which the proxy is a leaf of the tree.
    loose: Vec<Aabb<D>>,
    tree: Dbvt<D>,
    pairs: Vec<(usize, usize)>,
}

impl<T, const D: usize> DbvtBroadPhase<T, D> {
    /// By how much a box is loosened when its proxy enters the tree.
    pub closed spec fn spec_margin(&self) -> u64 {
        self.margin
    }

    /// How many identifiers were handed out. They are `0`, `1`, and so on, in
    /// the order of creation, and none is used again.
    pub closed spec fn issued(&self) -> nat {
        self.payloads.len() as nat
    }

    /// The proxies in use, by identifier.
    pub closed spec fn proxies(&self) -> Map<usize, ProxyView<T, D>> {
        Map::new(
            |id: usize| id < self.payloads.len() && self.payloads[id as int].is_some(),
            |id: usize|
                ProxyView { aabb: self.tight[id as int], payload: self.payloads[id as int].unwrap() },
        )
    }

    /// The set of interferences as the last `update` or `remove` left it.
    pub closed spec fn interferences(&self) -> Set<(usize, usize)> {
        self.pairs@.to_set()
    }

    /// The tree holds the proxies in use, and the interferences are pairs of such
    /// proxies.
    pub closed spec fn wf(&self) -> bool {
        &&& self.tight.len() == self.payloads.len()
        &&& self.loose.len() == self.payloads.len()
        &&& self.tree.wf()
        &&& forall|id: usize| #[trigger]
            self.tree.leaves().contains_key(id) <==> (id < self.payloads.len()
                && self.payloads[id as int].is_some())
        &&& forall|id: usize| #[trigger]
            self.tree.leaves().contains_key(id) ==> self.tree.leaves()[id] == self.loose[id as int]
                && self.tight[id as int].valid()
        &&& increasing(self.pairs@)
        &&& forall|p: (usize, usize)| #[trigger]
            self.pairs@.contains(p) ==> p.0 <= p.1 && self.tree.leaves().contains_key(p.0)
                && self.tree.leaves().contains_key(p.1)
    }

    /// The interferences are finitely many pairs of proxies in use, the lower
    /// identifier first.
    pub proof fn lemma_interferences(&self)
        requires
            self.wf(),
        ensures
            self.interferences().finite(),
            forall|p: (usize, usize)| #[trigger]
                self.interferences().contains(p) ==> p.0 <= p.1 && self.proxies().contains_key(p.0)
                    && self.proxies().contains_key(p.1),
            forall|id: usize| #[trigger]
                self.proxies().contains_key(id) ==> id < self.issued() && self.proxies()[id].aabb.valid(),
    {
        assert forall|id: usize| #[trigger] self.proxies().contains_key(id) implies id
            < self.issued() && self.proxies()[id].aabb.valid() by {
            assert(self.tree.leaves().contains_key(id));
        }
    }

    /// A broad phase without proxies, which loosens boxes by `margin`.
    pub fn new(margin: u64) -> (bp: Self)
        ensures
            bp.wf(),
            bp.spec_margin() == margin,
            bp.issued() == 0,
            bp.proxies() =~= Map::empty(),
            bp.interferences() =~= Set::empty(),
    {
        DbvtBroadPhase {
            margin,
            payloads: Vec::new(),
            tight: Vec::new(),
            loose: Vec::new(),
            tree: Dbvt::new(),
            pairs: Vec::new(),
        }
    }

    /// The margin that the broad phase was made with.
    pub fn margin(&self) -> (m: u64)
        ensures
            m == self.spec_margin(),
    {
        self.margin
    }

    /// The size of the set of interferences. Nothing is computed anew: the set
    /// is the one that the last `update` or `remove` left.
    pub fn num_interferences(&self) -> (n: usize)
        requires
            self.wf(),
        ensures
            n == self.interferences().len(),
    {
        proof {
            lemma_increasing_no_duplicates(self.pairs@);
            self.pairs@.unique_seq_to_set();
        }
        self.pairs.len()
    }

    /// Makes a proxy with the box `aabb` and the payload `payload`, as a new
    /// leaf of the tree, and returns its identifier. An empty box is turned
    /// down, and nothing changes. The set of interferences stays as it is until
    /// the next `update`.
    pub fn create_proxy(&mut self, aabb: Aabb<D>, payload: T) -> (r: Result<usize, BroadPhaseError>)
        requires
            old(self).wf(),
        ensures
            r.is_ok() == aabb.valid(),
            r.is_err() ==> r == Err::<usize, BroadPhaseError>(BroadPhaseError::DegenerateInput)
                && *final(self) == *old(self),
            r.is_ok() ==> {
                &&& r.unwrap() == old(self).issued()
                &&& final(self).wf()
                &&& final(self).spec_margin() == old(self).spec_margin()
                &&& final(self).issued() == old(self).issued() + 1
                &&& final(self).proxies() =~= old(self).proxies().insert(
                    r.unwrap(),
                    ProxyView { aabb, payload },
                )
                &&& final(self).interferences() == old(self).interferences()
            },
    {
        if !aabb.is_valid() {
            return Err(BroadPhaseError::DegenerateInput);
        }
        let id = self.payloads.len();
        let fat = aabb.loosened(self.margin);
        proof {
            lemma_loosened_encloses(&fat, &aabb, self.margin as int);
        }
        self.tree.insert(fat, id);
        self.payloads.push(Some(payload));
        self.tight.push(aabb);
        self.loose.push(fat);
        Ok(id)
    }

    /// Gives the proxy `id` the box `aabb`. The tree and the set of
    /// interferences follow at the next `update`.
    pub fn set_bounding_volume(&mut self, id: usize, aabb: Aabb<D>) -> (r: Result<
        (),
        BroadPhaseError,
    >)
        requires
            old(self).wf(),
        ensures
            r.is_ok() == (old(self).proxies().contains_key(id) && aabb.valid()),
            r.is_err() ==> *final(self) == *old(self) && r == Err::<(), BroadPhaseError>(
                if old(self).proxies().contains_key(id) {
                    BroadPhaseError::DegenerateInput
                } else {
                    BroadPhaseError::InvalidHandle
                },
            ),
            r.is_ok() ==> {
                &&& final(self).wf()
                &&& final(self).spec_margin() == old(self).spec_margin()
                &&& final(self).issued() == old(self).issued()
                &&& final(self).proxies() =~= old(self).proxies().insert(
                    id,
                    ProxyView { aabb, payload: old(self).proxies()[id].payload },
                )
                &&& final(self).interferences() == old(self).interferences()
            },
    {
        if id >= self.payloads.len() || self.payloads[id].is_none() {
            return Err(BroadPhaseError::InvalidHandle);
        }
        if !aabb.is_valid() {
            return Err(BroadPhaseError::DegenerateInput);
        }
        self.tight[id] = aabb;
        Ok(())
    }
    /// What `update` leaves behind: the proxies are those of `pre`, the set of
    /// interferences is made of exactly the pairs of proxies whose boxes share
    /// a point and which the filter lets through, and the events tell how the
    /// set of `pre` became that one.
    pub open spec fn updated<F: PairFilter<T>>(
        pre: Self,
        filter: &F,
        post: Self,
        events: Seq<PairEvent>,
    ) -> bool {
        &&& post.wf()
        &&& post.spec_margin() == pre.spec_margin()
        &&& post.issued() == pre.issued()
        &&& post.proxies() == pre.proxies()
        &&& post.interferences() == accepted_overlaps(pre.proxies(), filter)
        &&& reports_change(events, pre.interferences(), post.interferences())
        &&& in_pair_order(events)
    }

    /// The box in the tree of every proxy in use holds the box of the proxy.
    spec fn fitted(&self) -> bool {
        forall|id: usize| #[trigger]
            self.tree.leaves().contains_key(id) ==> self.loose[id as int].encloses(
                &self.tight[id as int],
            )
    }

    /// Whether the filter lets the pair through and the boxes of its two
    /// proxies share a point.
    spec fn admits<F: PairFilter<T>>(&self, filter: &F, p: (usize, usize)) -> bool {
        &&& self.tight[p.0 as int].overlaps(&self.tight[p.1 as int])
        &&& filter.accepts(
            &self.payloads[p.0 as int].unwrap(),
            &self.payloads[p.1 as int].unwrap(),
        )
    }

    /// Takes out of the tree each proxy whose box has left the box of its leaf,
    /// and puts it back under its box loosened by the margin.
    fn refit(&mut self)
        requires
            old(self).wf(),
        ensures
            final(self).wf(),
            final(self).fitted(),
            final(self).margin == old(self).margin,
            final(self).payloads == old(self).payloads,
            final(self).tight == old(self).tight,
            final(self).pairs == old(self).pairs,
    {
        let n = self.payloads.len();
        let mut id: usize = 0;
        while id < n
            invariant
                id <= n,
                n == self.payloads.len(),
                self.wf(),
                self.margin == old(self).margin,
                self.payloads == old(self).payloads,
                self.tight == old(self).tight,
                self.pairs == old(self).pairs,
                forall|j: usize| #[trigger]
                    self.tree.leaves().contains_key(j) && j < id ==> self.loose[j as int].encloses(
                        &self.tight[j as int],
                    ),
            decreases n - id,
        {
            if self.payloads[id].is_some() && !self.loose[id].contains(&self.tight[id]) {
                let stale = self.loose[id];
                let fat = self.tight[id].loosened(self.margin);
                proof {
                    assert(self.tree.leaves().contains_key(id));
                    lemma_loosened_encloses(&fat, &self.tight[id as int], self.margin as int);
                }
                let ghost before = self.tree.leaves();
                self.tree.remove(id, &stale);
                self.tree.insert(fat, id);
                self.loose[id] = fat;
                proof {
                    assert(self.tree.leaves() =~= before.insert(id, fat));
                    assert forall|j: usize| #[trigger]
                        self.tree.leaves().contains_key(j) implies self.tree.leaves()[j]
                        == self.loose[j as int] && self.tight[j as int].valid() by {
                        assert(before.contains_key(j));
                    }
                }
            }
            id += 1;
        }
    }

    /// Of the pairs of leaves whose boxes in the tree share a point, those
    /// whose own boxes do so too and which the filter lets through.
    fn accept<F: PairFilter<T>>(&self, candidates: &Vec<(usize, usize)>, filter: &F) -> (accepted:
        Vec<(usize, usize)>)
        requires
            self.wf(),
            self.fitted(),
            candidates@.no_duplicates(),
            forall|p: (usize, usize)| #[trigger]
                candidates@.contains(p) <==> inner_hit(p, self.tree.leaves()),
        ensures
            accepted@.no_duplicates(),
            accepted@.to_set() =~= accepted_overlaps(self.proxies(), filter),
            forall|p: (usize, usize)| #[trigger]
                accepted@.contains(p) ==> p.0 <= p.1 && self.tree.leaves().contains_key(p.0)
                    && self.tree.leaves().contains_key(p.1),
    {
        let mut accepted: Vec<(usize, usize)> = Vec::new();
        let mut k: usize = 0;
        while k < candidates.len()
            invariant
                k <= candidates.len(),
                self.wf(),
                candidates@.no_duplicates(),
                forall|p: (usize, usize)| #[trigger]
                    candidates@.contains(p) <==> inner_hit(p, self.tree.leaves()),
                accepted@.no_duplicates(),
                forall|p: (usize, usize)| #[trigger]
                    accepted@.contains(p) <==> candidates@.take(k as int).contains(p) && self.admits(
                        filter,
                        p,
                    ),
            decreases candidates.len() - k,
        {
            let p = candidates[k];
            proof {
                assert forall|q: (usize, usize)|
                    candidates@.take(k + 1).contains(q) <==> candidates@.take(k as int).contains(q)
                        || candidates@[k as int] == q by {
                    lemma_take_next(candidates@, k as int, q);
                }
                lemma_take_next(candidates@, k as int, p);
                assert(candidates@.contains(p));
                assert(inner_hit(p, self.tree.leaves()));
            }
            if self.tight[p.0].intersects(&self.tight[p.1]) {
                let first = self.payloads[p.0].as_ref().unwrap();
                let second = self.payloads[p.1].as_ref().unwrap();
                if filter.is_pair_valid(first, second) {
                    push_new(&mut accepted, p);
                }
            }
            k += 1;
        }
        proof {
            assert(candidates@.take(candidates.len() as int) =~= candidates@);
            let leaves = self.tree.leaves();
            let goal = accepted_overlaps(self.proxies(), filter);
            assert forall|p: (usize, usize)| accepted@.to_set().contains(p) <==> goal.contains(
                p,
            ) by {
                if goal.contains(p) {
                    assert(leaves.contains_key(p.0) && leaves.contains_key(p.1));
                    lemma_overlaps_grows(
                        &self.tight[p.0 as int],
                        &self.tight[p.1 as int],
                        &self.loose[p.0 as int],
                        &self.loose[p.1 as int],
                    );
                    assert(inner_hit(p, leaves));
                    assert(candidates@.contains(p));
                }
                if accepted@.contains(p) {
                    assert(candidates@.contains(p));
                    assert(inner_hit(p, leaves));
                }
            }
            assert forall|p: (usize, usize)| #[trigger] accepted@.contains(p) implies p.0 <= p.1
                && leaves.contains_key(p.0) && leaves.contains_key(p.1) by {
                assert(candidates@.contains(p));
                assert(inner_hit(p, leaves));
            }
        }
        accepted
    }

    /// Brings the tree and the set of interferences up to date. Each proxy
    /// whose box has left the box of its leaf is taken out of the tree and put
    /// back under its box loosened by the margin. Then the tree is walked, two
    /// nodes together only where their boxes share a point, and the set of
    /// interferences becomes the set of the pairs of proxies whose boxes share
    /// a point and which the filter lets through. The events returned name each
    /// pair that entered the set and each pair that left it, once.
    pub fn update<F: PairFilter<T>>(&mut self, filter: &F) -> (events: Vec<PairEvent>)
        requires
            old(self).wf(),
        ensures
            Self::updated(*old(self), filter, *final(self), events@),
    {
        self.refit();
        let candidates = self.tree.interferences();
        let found = self.accept(&candidates, filter);
        let ghost unordered = found@;
        let accepted = sorted(found);
        proof {
            assert(accepted@.to_set() =~= unordered.to_set());
            assert forall|p: (usize, usize)| #[trigger] accepted@.contains(p) implies p.0 <= p.1
                && self.tree.leaves().contains_key(p.0) && self.tree.leaves().contains_key(p.1) by {
                assert(unordered.contains(p));
            }
        }
        let events = changes(&self.pairs, &accepted);
        self.pairs = accepted;
        events
    }
    /// Each of the identifiers is that of a proxy in use, and none is named
    /// twice.
    pub open spec fn all_in_use(&self, ids: Seq<usize>) -> bool {
        &&& ids.no_duplicates()
        &&& forall|k: int| 0 <= k < ids.len() ==> self.proxies().contains_key(#[trigger] ids[k])
    }

    /// What `remove` leaves behind: the proxies `ids` are gone, the set of
    /// interferences has lost exactly the pairs with a removed end, and
    /// `dissolved` names each of those pairs once, a removed end first.
    pub open spec fn removed(
        pre: Self,
        ids: Seq<usize>,
        post: Self,
        dissolved: Seq<(usize, usize)>,
    ) -> bool {
        &&& post.wf()
        &&& post.spec_margin() == pre.spec_margin()
        &&& post.issued() == pre.issued()
        &&& post.proxies() == pre.proxies().remove_keys(ids.to_set())
        &&& post.interferences() == pre.interferences().filter(
            |p: (usize, usize)| !ids.contains(p.0) && !ids.contains(p.1),
        )
        &&& dissolved.no_duplicates()
        &&& in_order_of_pairs(dissolved)
        &&& forall|q: (usize, usize)| #[trigger]
            dissolved.contains(q) <==> dissolved_by(ids, pre.interferences(), q)
    }

    /// For each identifier handed out, whether `ids` names it; `None` where
    /// `ids` names a proxy that is not in use, or one proxy twice.
    fn marks(&self, ids: &[usize]) -> (r: Option<Vec<bool>>)
        requires
            self.wf(),
        ensures
            r.is_some() == self.all_in_use(ids@),
            r.is_some() ==> r.unwrap()@.len() == self.payloads.len() && forall|x: usize|
                #![trigger r.unwrap()@[x as int]]
                #![trigger ids@.contains(x)]
                x < self.payloads.len() ==> r.unwrap()@[x as int] == ids@.contains(x),
    {
        let n = self.payloads.len();
        let mut doomed: Vec<bool> = Vec::new();
        let mut i: usize = 0;
        while i < n
            invariant
                i <= n,
                doomed.len() == i,
                forall|x: int| 0 <= x < i ==> !doomed@[x],
            decreases n - i,
        {
            doomed.push(false);
            i += 1;
        }
        let mut k: usize = 0;
        while k < ids.len()
            invariant
                k <= ids.len(),
                n == self.payloads.len(),
                doomed.len() == n,
                ids@.take(k as int).no_duplicates(),
                forall|j: int| 0 <= j < k ==> self.proxies().contains_key(#[trigger] ids@[j]),
                forall|x: usize|
                    #![trigger doomed@[x as int]]
                    #![trigger ids@.take(k as int).contains(x)]
                    x < n ==> doomed@[x as int] == ids@.take(k as int).contains(x),
            decreases ids.len() - k,
        {
            let id = ids[k];
            proof {
                assert forall|x: usize|
                    ids@.take(k + 1).contains(x) <==> ids@.take(k as int).contains(x) || ids@[k as int]
                        == x by {
                    lemma_take_next(ids@, k as int, x);
                }
                assert(ids@.take(k + 1) =~= ids@.take(k as int).push(id));
            }
            if id >= n || self.payloads[id].is_none() {
                return None;
            }
            if doomed[id] {
                proof {
                    let short = ids@.take(k as int);
                    let j = choose|j: int| 0 <= j < short.len() && short[j] == id;
                    assert(ids@[j] == ids@[k as int]);
                }
                return None;
            }
            doomed[id] = true;
            k += 1;
        }
        proof {
            assert(ids@.take(ids.len() as int) =~= ids@);
        }
        Some(doomed)
    }

    /// Removes the proxies `ids`: each leaves the tree, where its sibling takes
    /// the place of their parent, and each pair of the set of interferences
    /// with a removed end leaves the set. The pairs that left are returned,
    /// each once: the removed proxy, then its former partner; where both are
    /// removed, the lower identifier first. Where `ids` names a proxy that is
    /// not in use, or one proxy twice, the call is turned down and nothing
    /// changes.
    pub fn remove(&mut self, ids: &[usize]) -> (r: Result<Vec<(usize, usize)>, BroadPhaseError>)
        requires
            old(self).wf(),
        ensures
            r.is_ok() == old(self).all_in_use(ids@),
            r.is_err() ==> r.unwrap_err() == BroadPhaseError::InvalidHandle && *final(self) == *old(
                self,
            ),
            r.is_ok() ==> Self::removed(*old(self), ids@, *final(self), r.unwrap()@),
    {
        let doomed = match self.marks(ids) {
            None => {
                return Err(BroadPhaseError::InvalidHandle);
            },
            Some(doomed) => doomed,
        };
        let n = self.payloads.len();
        let mut kept: Vec<(usize, usize)> = Vec::new();
        let mut dissolved: Vec<(usize, usize)> = Vec::new();
        let mut j: usize = 0;
        while j < self.pairs.len()
            invariant
                j <= self.pairs.len(),
                *self == *old(self),
                self.wf(),
                n == self.payloads.len(),
                doomed@.len() == n,
                forall|x: usize|
                    #![trigger doomed@[x as int]]
                    #![trigger ids@.contains(x)]
                    x < n ==> doomed@[x as int] == ids@.contains(x),
                increasing(kept@),
                dissolved@.no_duplicates(),
                in_order_of_pairs(dissolved@),
                forall|p: (usize, usize)| #[trigger]
                    kept@.contains(p) <==> self.pairs@.take(j as int).contains(p) && !ids@.contains(
                        p.0,
                    ) && !ids@.contains(p.1),
                forall|q: (usize, usize)| #[trigger]
                    dissolved@.contains(q) <==> self.pairs@.take(j as int).contains(ordered(q))
                        && ids@.contains(q.0) && (ids@.contains(q.1) ==> q.0 <= q.1),
            decreases self.pairs.len() - j,
        {
            let p = self.pairs[j];
            proof {
                assert forall|q: (usize, usize)|
                    self.pairs@.take(j + 1).contains(q) <==> self.pairs@.take(j as int).contains(q)
                        || self.pairs@[j as int] == q by {
                    lemma_take_next(self.pairs@, j as int, q);
                }
                lemma_take_next(self.pairs@, j as int, p);
                assert(self.pairs@.contains(p));
                assert(self.tree.leaves().contains_key(p.0));
                assert(self.tree.leaves().contains_key(p.1));
            }
            proof {
                assert forall|i: int| 0 <= i < kept@.len() implies precedes(
                    #[trigger] kept@[i],
                    p,
                ) by {
                    assert(kept@.contains(kept@[i]));
                    lemma_came_earlier(self.pairs@, j as int, kept@[i]);
                }
                assert forall|i: int| 0 <= i < dissolved@.len() implies precedes(
                    ordered(#[trigger] dissolved@[i]),
                    p,
                ) by {
                    assert(dissolved@.contains(dissolved@[i]));
                    lemma_came_earlier(self.pairs@, j as int, ordered(dissolved@[i]));
                }
            }
            if doomed[p.0] {
                push_new(&mut dissolved, (p.0, p.1));
            } else if doomed[p.1] {
                push_new(&mut dissolved, (p.1, p.0));
            } else {
                push_last(&mut kept, p);
            }
            j += 1;
        }
        proof {
            assert(self.pairs@.take(self.pairs.len() as int) =~= self.pairs@);
            assert(kept@.to_set() =~= self.interferences().filter(
                |p: (usize, usize)| !ids@.contains(p.0) && !ids@.contains(p.1),
            ));
        }
        self.pairs = kept;
        let mut k: usize = 0;
        while k < ids.len()
            invariant
                k <= ids.len(),
                self.wf(),
                old(self).wf(),
                old(self).all_in_use(ids@),
                n == self.payloads.len(),
                self.margin == old(self).margin,
                self.tight == old(self).tight,
                self.payloads.len() == old(self).payloads.len(),
                self.pairs@ == kept@,
                forall|p: (usize, usize)| #[trigger]
                    kept@.contains(p) ==> !ids@.contains(p.0) && !ids@.contains(p.1),
                forall|x: usize|
                    #![trigger self.payloads[x as int]]
                    x < n ==> self.payloads[x as int] == if ids@.take(k as int).contains(x) {
                        None
                    } else {
                        old(self).payloads[x as int]
                    },
            decreases ids.len() - k,
        {
            let id = ids[k];
            proof {
                assert forall|x: usize|
                    ids@.take(k + 1).contains(x) <==> ids@.take(k as int).contains(x) || ids@[k as int]
                        == x by {
                    lemma_take_next(ids@, k as int, x);
                }
                lemma_take_next(ids@, k as int, id);
                assert(old(self).proxies().contains_key(ids@[k as int]));
                assert(self.tree.leaves().contains_key(id));
                assert(ids@.contains(id));
            }
            let fat = self.loose[id];
            let ghost before = self.tree.leaves();
            self.tree.remove(id, &fat);
            self.payloads[id] = None;
            proof {
                assert forall|j: usize| #[trigger]
                    self.tree.leaves().contains_key(j) implies self.tree.leaves()[j]
                    == self.loose[j as int] && self.tight[j as int].valid() by {
                    assert(before.contains_key(j));
                }
                assert forall|p: (usize, usize)| #[trigger] self.pairs@.contains(p) implies p.0
                    <= p.1 && self.tree.leaves().contains_key(p.0) && self.tree.leaves().contains_key(
                    p.1,
                ) by {
                    assert(kept@.contains(p));
                    assert(before.contains_key(p.0) && before.contains_key(p.1));
                }
            }
            k += 1;
        }
        proof {
            assert(ids@.take(ids.len() as int) =~= ids@);
            assert(self.proxies() =~= old(self).proxies().remove_keys(ids@.to_set()));
        }
        Ok(dissolved)
    }
    /// The payload of the proxy `id`, if it is in use.
    pub fn payload(&self, id: usize) -> (r: Option<&T>)
        requires
            self.wf(),
        ensures
            r.is_some() == self.proxies().contains_key(id),
            r.is_some() ==> *r.unwrap() == self.proxies()[id].payload,
    {
        if id < self.payloads.len() {
            self.payloads[id].as_ref()
        } else {
            None
        }
    }

    /// The box of the proxy `id` as it was last given, if the proxy is in use.
    pub fn bounding_volume(&self, id: usize) -> (r: Option<Aabb<D>>)
        requires
            self.wf(),
        ensures
            r.is_some() == self.proxies().contains_key(id),
            r.is_some() ==> r.unwrap() == self.proxies()[id].aabb,
    {
        if id < self.payloads.len() && self.payloads[id].is_some() {
            Some(self.tight[id])
        } else {
            None
        }
    }

    /// The pairs of the set of interferences, each once, the lower identifier
    /// first, in the order of their first and then of their second identifier.
    pub fn interfering_pairs(&self) -> (list: &Vec<(usize, usize)>)
        requires
            self.wf(),
        ensures
            increasing(list@),
            list@.to_set() == self.interferences(),
    {
        &self.pairs
    }

    /// A listener who follows the events of an `update` from the set of
    /// interferences before it arrives at the set after it, so that the set
    /// counts as many pairs as the listener holds.
    pub proof fn lemma_update_replayed<F: PairFilter<T>>(
        pre: Self,
        filter: &F,
        post: Self,
        events: Seq<PairEvent>,
    )
        requires
            Self::updated(pre, filter, post, events),
        ensures
            post.interferences() == heard(pre.interferences(), Heard::Updated(events)),
    {
        lemma_replayed_events(events, pre.interferences(), post.interferences());
    }

    /// A listener who takes the pairs that a `remove` returns out of the set of
    /// interferences before it arrives at the set after it.
    pub proof fn lemma_remove_replayed(
        pre: Self,
        ids: Seq<usize>,
        post: Self,
        dissolved: Seq<(usize, usize)>,
    )
        requires
            pre.wf(),
            Self::removed(pre, ids, post, dissolved),
        ensures
            post.interferences() == heard(pre.interferences(), Heard::Removed(dissolved)),
    {
        pre.lemma_interferences();
        lemma_without(pre.interferences(), dissolved);
        let before = pre.interferences();
        assert forall|p: (usize, usize)| without(before, dissolved).contains(p)
            <==> post.interferences().contains(p) by {
            if before.contains(p) {
                assert(p.0 <= p.1);
                assert(ordered(p) == p);
                assert(dissolved.contains(p) <==> dissolved_by(ids, before, p));
                assert(dissolved.contains((p.1, p.0)) <==> dissolved_by(ids, before, (p.1, p.0)));
                assert(ordered((p.1, p.0)) == p);
            }
        }
        assert(without(before, dissolved) =~= post.interferences());
    }

    /// A second `update` with the same filter, with no call between the two,
    /// returns no event.
    pub proof fn lemma_update_twice<F: PairFilter<T>>(
        pre: Self,
        filter: &F,
        once: Self,
        first_events: Seq<PairEvent>,
        twice: Self,
        second_events: Seq<PairEvent>,
    )
        requires
            Self::updated(pre, filter, once, first_events),
            Self::updated(once, filter, twice, second_events),
        ensures
            second_events.len() == 0,
            twice.interferences() == once.interferences(),
    {
        lemma_no_change_no_events(second_events, once.interferences());
    }

    /// Where the set of interferences holds exactly the pairs of proxies whose
    /// boxes share a point and which a filter lets through, as after an
    /// `update`, it does so after a `remove` too, for the proxies that are left;
    /// and the pairs that left the set are those with a removed end.
    pub proof fn lemma_remove_keeps_exact<F: PairFilter<T>>(
        pre: Self,
        filter: &F,
        ids: Seq<usize>,
        post: Self,
        dissolved: Seq<(usize, usize)>,
    )
        requires
            pre.wf(),
            pre.interferences() == accepted_overlaps(pre.proxies(), filter),
            Self::removed(pre, ids, post, dissolved),
        ensures
            post.interferences() == accepted_overlaps(post.proxies(), filter),
            forall|p: (usize, usize)|
                pre.interferences().contains(p) && !post.interferences().contains(p) <==> (
                pre.interferences().contains(p) && (ids.contains(p.0) || ids.contains(p.1))),
    {
        assert(post.interferences() =~= accepted_overlaps(post.proxies(), filter));
    }
}

} // verus!
