//! Lists of pairs in order, and the events that lead from one set of pairs to
//! the next.

use vstd::prelude::*;

verus! {

/// A pair that entered or left the set of interferences. `first` is never
/// above `second`.
#[derive(Clone, Copy, Debug, PartialEq, Eq, Structural)]
pub struct PairEvent {
    pub first: usize,
    pub second: usize,
    /// `true` where the pair entered the set, `false` where it left.
    pub started: bool,
}

/// The events name each pair that is in `after` and not in `before` once, as
/// started, each pair that is in `before` and not in `after` once, as stopped,
/// and nothing else.
pub open spec fn reports_change(
    events: Seq<PairEvent>,
    before: Set<(usize, usize)>,
    after: Set<(usize, usize)>,
) -> bool {
    &&& events.no_duplicates()
    &&& forall|e: PairEvent| #[trigger]
        events.contains(e) <==> if e.started {
            after.contains((e.first, e.second)) && !before.contains((e.first, e.second))
        } else {
            before.contains((e.first, e.second)) && !after.contains((e.first, e.second))
        }
}

/// The set that a listener arrives at who starts from `pairs` and follows the
/// events in their order: a started pair is put in, a stopped one taken out.
pub open spec fn replayed(pairs: Set<(usize, usize)>, events: Seq<PairEvent>) -> Set<(usize, usize)>
    decreases events.len(),
{
    if events.len() == 0 {
        pairs
    } else {
        let e = events.last();
        let before = replayed(pairs, events.drop_last());
        if e.started {
            before.insert((e.first, e.second))
        } else {
            before.remove((e.first, e.second))
        }
    }
}

/// What is among the first `k + 1` items of a list is among the first `k` or
/// is the item after them.
pub proof fn lemma_take_next<A>(s: Seq<A>, k: int, x: A)
    requires
        0 <= k < s.len(),
    ensures
        s.take(k + 1).contains(x) <==> s.take(k).contains(x) || s[k] == x,
        s.no_duplicates() ==> !s.take(k).contains(s[k]),
        s.take(0).len() == 0,
        s.take(s.len() as int) =~= s,
{
    let short = s.take(k);
    let long = s.take(k + 1);
    if short.contains(x) {
        let i = choose|i: int| 0 <= i < short.len() && short[i] == x;
        assert(long[i] == x);
    }
    if s[k] == x {
        assert(long[k] == x);
    }
    if long.contains(x) {
        let i = choose|i: int| 0 <= i < long.len() && long[i] == x;
        if i < k {
            assert(short[i] == x);
        }
    }
    if s.no_duplicates() && short.contains(s[k]) {
        let i = choose|i: int| 0 <= i < short.len() && short[i] == s[k];
        assert(s[i] == s[k]);
    }
}

/// Appends an item that the list does not hold yet.
pub(crate) fn push_new<A>(out: &mut Vec<A>, x: A)
    requires
        old(out)@.no_duplicates(),
        !old(out)@.contains(x),
    ensures
        final(out)@ == old(out)@.push(x),
        final(out)@.no_duplicates(),
        forall|y: A| final(out)@.contains(y) <==> old(out)@.contains(y) || y == x,
{
    out.push(x);
    proof {
        let before = old(out)@;
        assert forall|y: A| out@.contains(y) <==> before.contains(y) || y == x by {
            if before.contains(y) {
                let i = choose|i: int| 0 <= i < before.len() && before[i] == y;
                assert(out@[i] == y);
            }
            if y == x {
                assert(out@[before.len() as int] == y);
            }
        }
    }
}

/// Whether `a` comes before `b`: by the first end, then by the second.
pub open spec fn precedes(a: (usize, usize), b: (usize, usize)) -> bool {
    a.0 < b.0 || (a.0 == b.0 && a.1 < b.1)
}

/// Each pair of the list comes before every pair after it.
pub open spec fn increasing(s: Seq<(usize, usize)>) -> bool {
    forall|i: int, j: int| 0 <= i < j < s.len() ==> precedes(#[trigger] s[i], #[trigger] s[j])
}

/// The pair of each event comes before the pair of every event after it.
pub open spec fn in_pair_order(events: Seq<PairEvent>) -> bool {
    forall|i: int, j: int|
        0 <= i < j < events.len() ==> precedes(
            (#[trigger] events[i].first, events[i].second),
            (#[trigger] events[j].first, events[j].second),
        )
}

/// A list in which each pair comes before the ones after it holds no pair
/// twice.
pub proof fn lemma_increasing_no_duplicates(s: Seq<(usize, usize)>)
    requires
        increasing(s),
    ensures
        s.no_duplicates(),
{
    assert forall|i: int, j: int| 0 <= i < s.len() && 0 <= j < s.len() && i != j implies s[i]
        != s[j] by {
        if i < j {
            assert(precedes(s[i], s[j]));
        } else {
            assert(precedes(s[j], s[i]));
        }
    }
}

/// In a list in order, a pair among the first `k` comes before the pair after
/// them.
pub proof fn lemma_came_earlier(s: Seq<(usize, usize)>, k: int, q: (usize, usize))
    requires
        increasing(s),
        0 <= k < s.len(),
        s.take(k).contains(q),
    ensures
        precedes(q, s[k]),
{
    let short = s.take(k);
    let i = choose|i: int| 0 <= i < short.len() && short[i] == q;
    assert(precedes(s[i], s[k]));
}

/// Whether `a` comes before `b`.
fn comes_before(a: (usize, usize), b: (usize, usize)) -> (r: bool)
    ensures
        r == precedes(a, b),
{
    a.0 < b.0 || (a.0 == b.0 && a.1 < b.1)
}

/// Appends a pair that comes after every pair of the list.
pub(crate) fn push_last(out: &mut Vec<(usize, usize)>, p: (usize, usize))
    requires
        increasing(old(out)@),
        forall|i: int| 0 <= i < old(out)@.len() ==> precedes(#[trigger] old(out)@[i], p),
    ensures
        final(out)@ == old(out)@.push(p),
        increasing(final(out)@),
        forall|q: (usize, usize)| final(out)@.contains(q) <==> old(out)@.contains(q) || q == p,
{
    proof {
        lemma_increasing_no_duplicates(out@);
        if out@.contains(p) {
            let i = choose|i: int| 0 <= i < out@.len() && out@[i] == p;
            assert(precedes(out@[i], p));
        }
    }
    push_new(out, p);
}

/// The pairs of two lists in one, each once and in their order.
fn merged(a: &Vec<(usize, usize)>, b: &Vec<(usize, usize)>) -> (out: Vec<(usize, usize)>)
    requires
        increasing(a@),
        increasing(b@),
    ensures
        increasing(out@),
        forall|q: (usize, usize)| out@.contains(q) <==> a@.contains(q) || b@.contains(q),
{
    let mut out: Vec<(usize, usize)> = Vec::new();
    let mut i: usize = 0;
    let mut j: usize = 0;
    while i < a.len() || j < b.len()
        invariant
            i <= a.len(),
            j <= b.len(),
            increasing(a@),
            increasing(b@),
            increasing(out@),
            forall|k: int| 0 <= k < out@.len() && i < a.len() ==> precedes(#[trigger] out@[k], a@[i as int]),
            forall|k: int| 0 <= k < out@.len() && j < b.len() ==> precedes(#[trigger] out@[k], b@[j as int]),
            forall|q: (usize, usize)|
                out@.contains(q) <==> a@.take(i as int).contains(q) || b@.take(j as int).contains(q),
        decreases (a.len() - i) + (b.len() - j),
    {
        proof {
            assert forall|q: (usize, usize)|
                (i < a.len() ==> (a@.take(i + 1).contains(q) <==> a@.take(i as int).contains(q)
                    || a@[i as int] == q)) && (j < b.len() ==> (b@.take(j + 1).contains(q)
                    <==> b@.take(j as int).contains(q) || b@[j as int] == q)) by {
                if i < a.len() {
                    lemma_take_next(a@, i as int, q);
                }
                if j < b.len() {
                    lemma_take_next(b@, j as int, q);
                }
            }
        }
        if j >= b.len() || (i < a.len() && comes_before(a[i], b[j])) {
            push_last(&mut out, a[i]);
            proof {
                if i + 1 < a.len() {
                    assert(precedes(a@[i as int], a@[i + 1]));
                }
            }
            i += 1;
        } else if i >= a.len() || comes_before(b[j], a[i]) {
            push_last(&mut out, b[j]);
            proof {
                if j + 1 < b.len() {
                    assert(precedes(b@[j as int], b@[j + 1]));
                }
            }
            j += 1;
        } else {
            assert(a@[i as int] == b@[j as int]);
            push_last(&mut out, a[i]);
            proof {
                if i + 1 < a.len() {
                    assert(precedes(a@[i as int], a@[i + 1]));
                }
                if j + 1 < b.len() {
                    assert(precedes(b@[j as int], b@[j + 1]));
                }
            }
            i += 1;
            j += 1;
        }
    }
    proof {
        assert(a@.take(a.len() as int) =~= a@);
        assert(b@.take(b.len() as int) =~= b@);
    }
    out
}

/// The pairs of a list, each once, in their order.
pub(crate) fn sorted(list: Vec<(usize, usize)>) -> (out: Vec<(usize, usize)>)
    ensures
        increasing(out@),
        forall|q: (usize, usize)| out@.contains(q) <==> list@.contains(q),
    decreases list@.len(),
{
    let n = list.len();
    if n <= 1 {
        return list;
    }
    let mut lower = list;
    let upper = lower.split_off(n / 2);
    proof {
        let mid = (n / 2) as int;
        assert forall|q: (usize, usize)| list@.contains(q) <==> lower@.contains(q)
            || upper@.contains(q) by {
            if list@.contains(q) {
                let i = choose|i: int| 0 <= i < list@.len() && list@[i] == q;
                if i < mid {
                    assert(lower@[i] == q);
                } else {
                    assert(upper@[i - mid] == q);
                }
            }
            if lower@.contains(q) {
                let i = choose|i: int| 0 <= i < lower@.len() && lower@[i] == q;
                assert(list@[i] == q);
            }
            if upper@.contains(q) {
                let i = choose|i: int| 0 <= i < upper@.len() && upper@[i] == q;
                assert(list@[i + mid] == q);
            }
        }
    }
    let lower = sorted(lower);
    let upper = sorted(upper);
    merged(&lower, &upper)
}

/// The events that lead from the pairs of `before` to those of `after`, in the
/// order of their pairs: a pair that only `after` holds as started, a pair
/// that only `before` holds as stopped.
pub(crate) fn changes(before: &Vec<(usize, usize)>, after: &Vec<(usize, usize)>) -> (events: Vec<
    PairEvent,
>)
    requires
        increasing(before@),
        increasing(after@),
    ensures
        reports_change(events@, before@.to_set(), after@.to_set()),
        in_pair_order(events@),
{
    let mut events: Vec<PairEvent> = Vec::new();
    let mut i: usize = 0;
    let mut j: usize = 0;
    while i < before.len() || j < after.len()
        invariant
            i <= before.len(),
            j <= after.len(),
            increasing(before@),
            increasing(after@),
            in_pair_order(events@),
            forall|k: int|
                0 <= k < events@.len() && i < before.len() ==> precedes(
                    (#[trigger] events@[k].first, events@[k].second),
                    before@[i as int],
                ),
            forall|k: int|
                0 <= k < events@.len() && j < after.len() ==> precedes(
                    (#[trigger] events@[k].first, events@[k].second),
                    after@[j as int],
                ),
            forall|q: (usize, usize)|
                i < before.len() && #[trigger] after@.take(j as int).contains(q) ==> precedes(
                    q,
                    before@[i as int],
                ),
            forall|q: (usize, usize)|
                j < after.len() && #[trigger] before@.take(i as int).contains(q) ==> precedes(
                    q,
                    after@[j as int],
                ),
            forall|e: PairEvent| #[trigger]
                events@.contains(e) <==> if e.started {
                    after@.take(j as int).contains((e.first, e.second)) && !before@.contains(
                        (e.first, e.second),
                    )
                } else {
                    before@.take(i as int).contains((e.first, e.second)) && !after@.contains(
                        (e.first, e.second),
                    )
                },
        decreases (before.len() - i) + (after.len() - j),
    {
        proof {
            if i < before.len() {
                assert forall|q: (usize, usize)| #[trigger]
                    before@.take(i + 1).contains(q) <==> before@.take(i as int).contains(q)
                        || before@[i as int] == q by {
                    lemma_take_next(before@, i as int, q);
                }
            }
            if j < after.len() {
                assert forall|q: (usize, usize)| #[trigger]
                    after@.take(j + 1).contains(q) <==> after@.take(j as int).contains(q)
                        || after@[j as int] == q by {
                    lemma_take_next(after@, j as int, q);
                }
            }
            if i + 1 < before.len() {
                assert(precedes(before@[i as int], before@[i + 1]));
            }
            if j + 1 < after.len() {
                assert(precedes(after@[j as int], after@[j + 1]));
            }
        }
        if j >= after.len() || (i < before.len() && comes_before(before[i], after[j])) {
            let p = before[i];
            proof {
                lemma_absent_beyond(after@, j as int, p);
            }
            push_event(&mut events, PairEvent { first: p.0, second: p.1, started: false });
            i += 1;
        } else if i >= before.len() || comes_before(after[j], before[i]) {
            let p = after[j];
            proof {
                lemma_absent_beyond(before@, i as int, p);
            }
            push_event(&mut events, PairEvent { first: p.0, second: p.1, started: true });
            j += 1;
        } else {
            assert(before@[i as int] == after@[j as int]);
            assert(before@.contains(before@[i as int]));
            assert(after@.contains(after@[j as int]));
            i += 1;
            j += 1;
        }
    }
    proof {
        assert(before@.take(before.len() as int) =~= before@);
        assert(after@.take(after.len() as int) =~= after@);
        lemma_events_once(events@);
    }
    events
}

/// A list in order does not hold a pair that comes after each of its first
/// `k` pairs and before the pair after them.
proof fn lemma_absent_beyond(s: Seq<(usize, usize)>, k: int, p: (usize, usize))
    requires
        increasing(s),
        0 <= k <= s.len(),
        forall|q: (usize, usize)| #[trigger] s.take(k).contains(q) ==> precedes(q, p),
        k < s.len() ==> precedes(p, s[k]),
    ensures
        !s.contains(p),
{
    if s.contains(p) {
        let i = choose|i: int| 0 <= i < s.len() && s[i] == p;
        let short = s.take(k);
        if i < k {
            assert(short[i] == p);
            assert(short.contains(p));
            assert(precedes(p, p));
        } else if i > k {
            assert(precedes(s[k], s[i]));
        }
    }
}

/// Events in the order of their pairs name no pair twice.
proof fn lemma_events_once(events: Seq<PairEvent>)
    requires
        in_pair_order(events),
    ensures
        events.no_duplicates(),
{
    assert forall|i: int, j: int|
        0 <= i < events.len() && 0 <= j < events.len() && i != j implies events[i]
        != events[j] by {
        if i < j {
            assert(precedes((events[i].first, events[i].second), (events[j].first, events[j].second)));
        } else {
            assert(precedes((events[j].first, events[j].second), (events[i].first, events[i].second)));
        }
    }
}

/// Appends an event whose pair comes after the pair of every event of the
/// list.
fn push_event(out: &mut Vec<PairEvent>, e: PairEvent)
    requires
        in_pair_order(old(out)@),
        forall|k: int|
            0 <= k < old(out)@.len() ==> precedes(
                (#[trigger] old(out)@[k].first, old(out)@[k].second),
                (e.first, e.second),
            ),
    ensures
        final(out)@ == old(out)@.push(e),
        in_pair_order(final(out)@),
        forall|x: PairEvent| final(out)@.contains(x) <==> old(out)@.contains(x) || x == e,
{
    proof {
        lemma_events_once(out@);
        if out@.contains(e) {
            let i = choose|i: int| 0 <= i < out@.len() && out@[i] == e;
            assert(precedes((out@[i].first, out@[i].second), (e.first, e.second)));
        }
    }
    push_new(out, e);
}

/// The pair with its lower end first.
pub open spec fn ordered(q: (usize, usize)) -> (usize, usize) {
    if q.0 <= q.1 {
        q
    } else {
        (q.1, q.0)
    }
}

/// The set that is left of `pairs` when each pair of `dissolved` is taken
/// out, whichever of its ends is named first.
pub open spec fn without(pairs: Set<(usize, usize)>, dissolved: Seq<(usize, usize)>) -> Set<
    (usize, usize),
>
    decreases dissolved.len(),
{
    if dissolved.len() == 0 {
        pairs
    } else {
        without(pairs, dissolved.drop_last()).remove(ordered(dissolved.last()))
    }
}

/// After the first `n` events the listener holds the pairs of `before` and the
/// pairs started so far, but for the pairs stopped so far.
proof fn lemma_replayed_prefix(
    events: Seq<PairEvent>,
    before: Set<(usize, usize)>,
    after: Set<(usize, usize)>,
    n: int,
)
    requires
        reports_change(events, before, after),
        0 <= n <= events.len(),
    ensures
        forall|p: (usize, usize)| #[trigger]
            replayed(before, events.take(n)).contains(p) <==> (before.contains(p) || events.take(
                n,
            ).contains(PairEvent { first: p.0, second: p.1, started: true })) && !events.take(
                n,
            ).contains(PairEvent { first: p.0, second: p.1, started: false }),
    decreases n,
{
    let now = events.take(n);
    if n == 0 {
        assert(now.len() == 0);
    } else {
        let e = events[n - 1];
        let earlier = events.take(n - 1);
        lemma_replayed_prefix(events, before, after, n - 1);
        assert(now.drop_last() =~= earlier);
        assert(now.last() == e);
        assert(events.contains(e));
        assert forall|p: (usize, usize)| #[trigger]
            replayed(before, now).contains(p) <==> (before.contains(p) || now.contains(
                PairEvent { first: p.0, second: p.1, started: true },
            )) && !now.contains(PairEvent { first: p.0, second: p.1, started: false }) by {
            let on = PairEvent { first: p.0, second: p.1, started: true };
            let off = PairEvent { first: p.0, second: p.1, started: false };
            lemma_take_next(events, n - 1, on);
            lemma_take_next(events, n - 1, off);
            assert(replayed(before, earlier).contains(p) <==> (before.contains(p)
                || earlier.contains(on)) && !earlier.contains(off));
            if earlier.contains(off) {
                let i = choose|i: int| 0 <= i < earlier.len() && earlier[i] == off;
                assert(events[i] == off);
                assert(events.contains(off));
            }
            if earlier.contains(on) {
                let i = choose|i: int| 0 <= i < earlier.len() && earlier[i] == on;
                assert(events[i] == on);
                assert(events.contains(on));
            }
        }
    }
}

/// A listener who starts from the set before a change and follows the events
/// of the change arrives at the set after it.
pub proof fn lemma_replayed_events(
    events: Seq<PairEvent>,
    before: Set<(usize, usize)>,
    after: Set<(usize, usize)>,
)
    requires
        reports_change(events, before, after),
    ensures
        replayed(before, events) == after,
{
    lemma_replayed_prefix(events, before, after, events.len() as int);
    assert(events.take(events.len() as int) =~= events);
    assert forall|p: (usize, usize)| replayed(before, events).contains(p) <==> after.contains(
        p,
    ) by {
        let on = PairEvent { first: p.0, second: p.1, started: true };
        let off = PairEvent { first: p.0, second: p.1, started: false };
        assert(events.contains(on) <==> after.contains(p) && !before.contains(p));
        assert(events.contains(off) <==> before.contains(p) && !after.contains(p));
    }
    assert(replayed(before, events) =~= after);
}

/// Events that lead from a set to the same set are none.
pub proof fn lemma_no_change_no_events(events: Seq<PairEvent>, pairs: Set<(usize, usize)>)
    requires
        reports_change(events, pairs, pairs),
    ensures
        events.len() == 0,
{
    if events.len() > 0 {
        assert(events.contains(events[0]));
    }
}

/// What is left of a set of pairs, lower end first, when each pair of a list is
/// taken out: the pairs that the list names in neither order.
pub proof fn lemma_without(pairs: Set<(usize, usize)>, dissolved: Seq<(usize, usize)>)
    ensures
        forall|p: (usize, usize)| #[trigger]
            without(pairs, dissolved).contains(p) <==> pairs.contains(p) && !(p.0 <= p.1 && (
            dissolved.contains(p) || dissolved.contains((p.1, p.0)))),
    decreases dissolved.len(),
{
    if dissolved.len() > 0 {
        let earlier = dissolved.drop_last();
        let q = dissolved.last();
        lemma_without(pairs, earlier);
        let n = dissolved.len() - 1;
        assert(dissolved.take(n) =~= earlier);
        assert(dissolved.take(n + 1) =~= dissolved);
        assert forall|p: (usize, usize)| #[trigger]
            without(pairs, dissolved).contains(p) <==> pairs.contains(p) && !(p.0 <= p.1 && (
            dissolved.contains(p) || dissolved.contains((p.1, p.0)))) by {
            let mirror = (p.1, p.0);
            lemma_take_next(dissolved, n, p);
            lemma_take_next(dissolved, n, mirror);
            assert(dissolved.contains(p) <==> earlier.contains(p) || q == p);
            assert(dissolved.contains(mirror) <==> earlier.contains(mirror) || q == mirror);
            assert(ordered(q) == p <==> p.0 <= p.1 && (q == p || q == mirror));
            assert(without(pairs, dissolved) == without(pairs, earlier).remove(ordered(q)));
        }
    }
}

/// What a listener hears of a call that changes the set of interferences: the
/// events of an update, or the pairs that a removal dissolved.
pub ghost enum Heard {
    Updated(Seq<PairEvent>),
    Removed(Seq<(usize, usize)>),
}

/// The set that a listener holds who held `pairs` and then heard `call`.
pub open spec fn heard(pairs: Set<(usize, usize)>, call: Heard) -> Set<(usize, usize)> {
    match call {
        Heard::Updated(events) => replayed(pairs, events),
        Heard::Removed(dissolved) => without(pairs, dissolved),
    }
}

/// The set that a listener holds who started with nothing and heard the calls
/// in their order.
pub open spec fn listened(calls: Seq<Heard>) -> Set<(usize, usize)>
    decreases calls.len(),
{
    if calls.len() == 0 {
        Set::empty()
    } else {
        heard(listened(calls.drop_last()), calls.last())
    }
}

/// Where the set of interferences starts empty and each call leaves the set
/// that a listener arrives at from the set before it, the listener who heard
/// every call holds the set as it is after the last.
pub proof fn lemma_listener_holds_the_set(sets: Seq<Set<(usize, usize)>>, calls: Seq<Heard>)
    requires
        sets.len() == calls.len() + 1,
        sets[0] == Set::<(usize, usize)>::empty(),
        forall|i: int| 0 <= i < calls.len() ==> #[trigger] sets[i + 1] == heard(sets[i], calls[i]),
    ensures
        listened(calls) == sets.last(),
    decreases calls.len(),
{
    if calls.len() > 0 {
        let n = calls.len() - 1;
        let earlier_sets = sets.drop_last();
        let earlier_calls = calls.drop_last();
        assert forall|i: int| 0 <= i < earlier_calls.len() implies #[trigger] earlier_sets[i + 1]
            == heard(earlier_sets[i], earlier_calls[i]) by {
            assert(sets[i + 1] == heard(sets[i], calls[i]));
        }
        lemma_listener_holds_the_set(earlier_sets, earlier_calls);
        assert(sets[n + 1] == heard(sets[n], calls[n]));
    }
}

} // verus!
