use collision_kernel::bounding_volume::Aabb;
use collision_kernel::broad_phase::{
    AllPairs, BroadPhaseError, DbvtBroadPhase, DistinctPayloads, PairFilter,
};
use collision_kernel::math::Point;
use collision_kernel::pairs::PairEvent;
use collision_kernel::shape::Ball;
use std::collections::BTreeSet;

fn square(x: i64, y: i64, half: i64) -> Aabb<2> {
    Aabb::new([x - half, y - half], [x + half, y + half])
}

fn overlap(a: &Aabb<2>, b: &Aabb<2>) -> bool {
    (0..2).all(|k| a.mins[k] <= b.maxs[k] && b.mins[k] <= a.maxs[k])
}

/// Every pair `(i, j)` with `i <= j` of the boxes that are still there, whose
/// boxes share a point and whose payloads the rule lets through.
fn brute_force(
    boxes: &[Option<Aabb<2>>],
    allowed: &dyn Fn(usize, usize) -> bool,
) -> BTreeSet<(usize, usize)> {
    let mut found = BTreeSet::new();
    for i in 0..boxes.len() {
        for j in i..boxes.len() {
            if let (Some(a), Some(b)) = (&boxes[i], &boxes[j]) {
                if overlap(a, b) && allowed(i, j) {
                    found.insert((i, j));
                }
            }
        }
    }
    found
}

fn as_set(list: &Vec<(usize, usize)>) -> BTreeSet<(usize, usize)> {
    let set: BTreeSet<(usize, usize)> = list.iter().copied().collect();
    assert_eq!(set.len(), list.len());
    set
}

fn follow(held: &mut BTreeSet<(usize, usize)>, events: &Vec<PairEvent>) {
    for e in events {
        assert!(e.first <= e.second);
        if e.started {
            assert!(held.insert((e.first, e.second)));
        } else {
            assert!(held.remove(&(e.first, e.second)));
        }
    }
}

/// A sequence of numbers that looks scattered and is the same on every run.
fn scatter(seed: &mut u64, below: i64) -> i64 {
    *seed = seed.wrapping_mul(6364136223846793005).wrapping_add(1442695040888963407);
    ((*seed >> 33) % below as u64) as i64
}

#[test]
fn four_balls_give_six_pairs_and_one_after_two_leave() {
    // One unit is a tenth: radius 0.5, centres 0.5 apart, margin 0.2.
    let ball = Ball::new(5);
    let mut bf: DbvtBroadPhase<usize, 2> = DbvtBroadPhase::new(2);
    let proxy1 = bf.create_proxy(ball.aabb(&Point::new([0, 0])), 0).unwrap();
    let proxy2 = bf.create_proxy(ball.aabb(&Point::new([0, 5])), 1).unwrap();
    let _ = bf.create_proxy(ball.aabb(&Point::new([5, 0])), 2).unwrap();
    let _ = bf.create_proxy(ball.aabb(&Point::new([5, 5])), 3).unwrap();

    let events = bf.update(&DistinctPayloads);
    assert_eq!(bf.num_interferences(), 6);
    assert_eq!(events.len(), 6);
    assert!(events.iter().all(|e| e.started && e.first < e.second));

    let dissolved = bf.remove(&[proxy1, proxy2]).unwrap();
    assert_eq!(dissolved.len(), 5);

    let events = bf.update(&DistinctPayloads);
    assert_eq!(bf.num_interferences(), 1);
    assert!(events.is_empty());
    assert_eq!(bf.interfering_pairs(), &vec![(2usize, 3usize)]);
}

#[test]
fn new_broad_phase_is_empty() {
    let bf: DbvtBroadPhase<usize, 3> = DbvtBroadPhase::new(7);
    assert_eq!(bf.margin(), 7);
    assert_eq!(bf.num_interferences(), 0);
    assert!(bf.interfering_pairs().is_empty());
    assert!(bf.payload(0).is_none());
    assert!(bf.bounding_volume(0).is_none());
}

#[test]
fn identifiers_count_up_from_zero() {
    let mut bf: DbvtBroadPhase<&str, 2> = DbvtBroadPhase::new(0);
    assert_eq!(bf.create_proxy(square(0, 0, 1), "a"), Ok(0));
    assert_eq!(bf.create_proxy(square(9, 9, 1), "b"), Ok(1));
    assert_eq!(bf.remove(&[0]), Ok(vec![]));
    assert_eq!(bf.create_proxy(square(4, 4, 1), "c"), Ok(2));
    assert_eq!(bf.payload(1), Some(&"b"));
    assert_eq!(bf.payload(2), Some(&"c"));
    assert_eq!(bf.payload(0), None);
    assert_eq!(bf.bounding_volume(2).map(|b| (b.mins, b.maxs)), Some(([3, 3], [5, 5])));
}

#[test]
fn create_proxy_waits_for_update() {
    let mut bf: DbvtBroadPhase<usize, 2> = DbvtBroadPhase::new(1);
    bf.create_proxy(square(0, 0, 2), 0).unwrap();
    bf.create_proxy(square(1, 1, 2), 1).unwrap();
    assert_eq!(bf.num_interferences(), 0);
    let events = bf.update(&DistinctPayloads);
    assert_eq!(events, vec![PairEvent { first: 0, second: 1, started: true }]);
    assert_eq!(bf.num_interferences(), 1);
}

#[test]
fn empty_box_is_turned_down() {
    let mut bf: DbvtBroadPhase<usize, 2> = DbvtBroadPhase::new(1);
    bf.create_proxy(square(0, 0, 2), 0).unwrap();
    let inverted = Aabb::new([0, 3], [5, 2]);
    assert_eq!(bf.create_proxy(inverted, 1), Err(BroadPhaseError::DegenerateInput));
    assert_eq!(bf.set_bounding_volume(0, inverted), Err(BroadPhaseError::DegenerateInput));
    // Nothing was made: the next identifier is still 1, the box of 0 is as before.
    assert_eq!(bf.bounding_volume(0).map(|b| (b.mins, b.maxs)), Some(([-2, -2], [2, 2])));
    assert_eq!(bf.create_proxy(square(0, 0, 0), 1), Ok(1));
}

#[test]
fn point_box_is_accepted() {
    let mut bf: DbvtBroadPhase<usize, 2> = DbvtBroadPhase::new(0);
    let point = Ball::new(0).aabb(&Point::new([3, 3]));
    assert_eq!((point.mins, point.maxs), ([3, 3], [3, 3]));
    bf.create_proxy(point, 0).unwrap();
    bf.create_proxy(square(4, 4, 1), 1).unwrap();
    bf.create_proxy(square(6, 6, 1), 2).unwrap();
    bf.update(&DistinctPayloads);
    assert_eq!(as_set(bf.interfering_pairs()), BTreeSet::from([(0, 1), (1, 2)]));
}

#[test]
fn unknown_and_stale_identifiers_are_turned_down() {
    let mut bf: DbvtBroadPhase<usize, 2> = DbvtBroadPhase::new(1);
    let a = bf.create_proxy(square(0, 0, 2), 10).unwrap();
    let b = bf.create_proxy(square(1, 1, 2), 11).unwrap();
    bf.update(&DistinctPayloads);
    assert_eq!(bf.remove(&[99]), Err(BroadPhaseError::InvalidHandle));
    assert_eq!(bf.set_bounding_volume(99, square(0, 0, 1)), Err(BroadPhaseError::InvalidHandle));
    // One bad identifier turns the whole call down: `a` stays.
    assert_eq!(bf.remove(&[a, 99]), Err(BroadPhaseError::InvalidHandle));
    assert_eq!(bf.remove(&[a, a]), Err(BroadPhaseError::InvalidHandle));
    assert_eq!(bf.payload(a), Some(&10));
    assert_eq!(bf.num_interferences(), 1);
    assert_eq!(bf.remove(&[a]), Ok(vec![(a, b)]));
    // Now `a` is stale.
    assert_eq!(bf.remove(&[a]), Err(BroadPhaseError::InvalidHandle));
    assert_eq!(bf.set_bounding_volume(a, square(0, 0, 1)), Err(BroadPhaseError::InvalidHandle));
    // An invalid identifier is reported before an empty box.
    assert_eq!(
        bf.set_bounding_volume(a, Aabb::new([1, 1], [0, 0])),
        Err(BroadPhaseError::InvalidHandle)
    );
    assert_eq!(bf.payload(a), None);
    assert_eq!(bf.payload(b), Some(&11));
    assert_eq!(bf.num_interferences(), 0);
}

#[test]
fn filter_decides_on_self_pairs() {
    let mut bf: DbvtBroadPhase<usize, 2> = DbvtBroadPhase::new(0);
    bf.create_proxy(square(0, 0, 1), 0).unwrap();
    bf.create_proxy(square(10, 10, 1), 1).unwrap();
    bf.update(&AllPairs);
    assert_eq!(as_set(bf.interfering_pairs()), BTreeSet::from([(0, 0), (1, 1)]));
    let events = bf.update(&DistinctPayloads);
    assert_eq!(bf.num_interferences(), 0);
    assert_eq!(events.len(), 2);
    assert!(events.iter().all(|e| !e.started));
}

#[test]
fn filter_sees_payloads_not_identifiers() {
    // Two proxies with the same payload: the filter on payloads keeps them apart.
    let mut bf: DbvtBroadPhase<u64, 2> = DbvtBroadPhase::new(0);
    bf.create_proxy(square(0, 0, 2), 7).unwrap();
    bf.create_proxy(square(1, 1, 2), 7).unwrap();
    bf.create_proxy(square(2, 2, 2), 8).unwrap();
    bf.update(&DistinctPayloads);
    assert_eq!(as_set(bf.interfering_pairs()), BTreeSet::from([(0, 2), (1, 2)]));
    assert!(!DistinctPayloads.is_pair_valid(&7u64, &7u64));
    assert!(DistinctPayloads.is_pair_valid(&7u64, &8u64));
    assert!(AllPairs.is_pair_valid(&7u64, &7u64));
}

#[test]
fn touching_faces_interfere() {
    let mut bf: DbvtBroadPhase<usize, 2> = DbvtBroadPhase::new(5);
    bf.create_proxy(Aabb::new([0, 0], [2, 2]), 0).unwrap();
    bf.create_proxy(Aabb::new([2, 0], [4, 2]), 1).unwrap();
    // A gap of one unit: inside the margin of the tree, and yet no pair.
    bf.create_proxy(Aabb::new([5, 0], [6, 2]), 2).unwrap();
    bf.update(&DistinctPayloads);
    assert_eq!(bf.interfering_pairs(), &vec![(0usize, 1usize)]);
}

#[test]
fn moving_a_proxy_starts_and_stops_pairs() {
    let mut bf: DbvtBroadPhase<usize, 2> = DbvtBroadPhase::new(3);
    let a = bf.create_proxy(square(0, 0, 1), 0).unwrap();
    let b = bf.create_proxy(square(1, 0, 1), 1).unwrap();
    let c = bf.create_proxy(square(100, 0, 1), 2).unwrap();
    let events = bf.update(&DistinctPayloads);
    assert_eq!(events, vec![PairEvent { first: a, second: b, started: true }]);

    // A small step, inside the loosened box: the pair with `b` stops all the same.
    bf.set_bounding_volume(a, square(-2, 0, 0)).unwrap();
    let events = bf.update(&DistinctPayloads);
    assert_eq!(events, vec![PairEvent { first: a, second: b, started: false }]);
    assert_eq!(bf.num_interferences(), 0);

    // A long step, out of the loosened box.
    bf.set_bounding_volume(a, square(99, 1, 1)).unwrap();
    let events = bf.update(&DistinctPayloads);
    assert_eq!(events, vec![PairEvent { first: a, second: c, started: true }]);

    // And back, next to `b` again.
    bf.set_bounding_volume(a, square(2, 2, 1)).unwrap();
    let events = bf.update(&DistinctPayloads);
    assert_eq!(
        events,
        vec![
            PairEvent { first: a, second: b, started: true },
            PairEvent { first: a, second: c, started: false },
        ]
    );
    assert_eq!(bf.interfering_pairs(), &vec![(a, b)]);
}

#[test]
fn interferences_equal_brute_force() {
    let mut seed = 12345u64;
    for round in 0..20 {
        let count = 1 + round * 3;
        let mut bf: DbvtBroadPhase<usize, 2> = DbvtBroadPhase::new(round as u64);
        let mut boxes: Vec<Option<Aabb<2>>> = Vec::new();
        for i in 0..count {
            let b = square(scatter(&mut seed, 60), scatter(&mut seed, 60), scatter(&mut seed, 6));
            assert_eq!(bf.create_proxy(b, i), Ok(i));
            boxes.push(Some(b));
        }
        bf.update(&DistinctPayloads);
        assert_eq!(as_set(bf.interfering_pairs()), brute_force(&boxes, &|i, j| i != j));
        bf.update(&AllPairs);
        assert_eq!(as_set(bf.interfering_pairs()), brute_force(&boxes, &|_, _| true));
        assert_eq!(bf.num_interferences(), bf.interfering_pairs().len());
    }
}

#[test]
fn interferences_equal_brute_force_while_proxies_move_and_leave() {
    let mut seed = 777u64;
    let mut bf: DbvtBroadPhase<usize, 2> = DbvtBroadPhase::new(2);
    let mut boxes: Vec<Option<Aabb<2>>> = Vec::new();
    let mut held: BTreeSet<(usize, usize)> = BTreeSet::new();
    for step in 0..60 {
        for _ in 0..3 {
            let b = square(scatter(&mut seed, 40), scatter(&mut seed, 40), scatter(&mut seed, 5));
            let id = bf.create_proxy(b, boxes.len()).unwrap();
            assert_eq!(id, boxes.len());
            boxes.push(Some(b));
        }
        for id in 0..boxes.len() {
            if boxes[id].is_some() && scatter(&mut seed, 3) == 0 {
                let b =
                    square(scatter(&mut seed, 40), scatter(&mut seed, 40), scatter(&mut seed, 5));
                bf.set_bounding_volume(id, b).unwrap();
                boxes[id] = Some(b);
            }
        }
        if step % 4 == 3 {
            let gone: Vec<usize> =
                (0..boxes.len()).filter(|id| boxes[*id].is_some() && id % 5 == step % 5).collect();
            let dissolved = bf.remove(&gone).unwrap();
            for (id, partner) in &dissolved {
                assert!(gone.contains(id));
                let pair = if id <= partner { (*id, *partner) } else { (*partner, *id) };
                assert!(held.remove(&pair));
            }
            for id in &gone {
                boxes[*id] = None;
            }
            assert!(held.iter().all(|p| !gone.contains(&p.0) && !gone.contains(&p.1)));
            assert_eq!(bf.num_interferences(), held.len());
        }
        let events = bf.update(&DistinctPayloads);
        follow(&mut held, &events);
        assert_eq!(held, brute_force(&boxes, &|i, j| i != j));
        assert_eq!(as_set(bf.interfering_pairs()), held);
        assert_eq!(bf.num_interferences(), held.len());
    }
}

#[test]
fn second_update_reports_nothing() {
    let mut seed = 99u64;
    let mut bf: DbvtBroadPhase<usize, 2> = DbvtBroadPhase::new(1);
    for i in 0..40 {
        bf.create_proxy(
            square(scatter(&mut seed, 30), scatter(&mut seed, 30), scatter(&mut seed, 4)),
            i,
        )
        .unwrap();
    }
    let first = bf.update(&DistinctPayloads);
    assert!(!first.is_empty());
    let before = bf.interfering_pairs().clone();
    let second = bf.update(&DistinctPayloads);
    assert!(second.is_empty());
    assert_eq!(bf.interfering_pairs(), &before);
}

#[test]
fn removal_reports_each_pair_once() {
    let mut bf: DbvtBroadPhase<usize, 2> = DbvtBroadPhase::new(0);
    let boxes = [square(0, 0, 2), square(1, 1, 2), square(2, 2, 2), square(20, 20, 1)];
    for (i, b) in boxes.iter().enumerate() {
        bf.create_proxy(*b, i).unwrap();
    }
    bf.update(&AllPairs);
    // (0,0) (0,1) (0,2) (1,1) (1,2) (2,2) (3,3)
    assert_eq!(bf.num_interferences(), 7);
    let dissolved = bf.remove(&[2, 0]).unwrap();
    let reported: BTreeSet<(usize, usize)> = dissolved.iter().copied().collect();
    assert_eq!(reported.len(), dissolved.len());
    // A removed proxy comes first; of two removed ones, the lower.
    assert_eq!(reported, BTreeSet::from([(0, 0), (0, 1), (0, 2), (2, 1), (2, 2)]));
    assert_eq!(as_set(bf.interfering_pairs()), BTreeSet::from([(1, 1), (3, 3)]));
    let left = [None, Some(boxes[1]), None, Some(boxes[3])];
    assert_eq!(as_set(bf.interfering_pairs()), brute_force(&left, &|_, _| true));
    assert!(bf.update(&AllPairs).is_empty());
}

#[test]
fn removing_every_proxy_empties_the_tree() {
    let mut bf: DbvtBroadPhase<usize, 3> = DbvtBroadPhase::new(1);
    for i in 0..10usize {
        let x = i as i64;
        bf.create_proxy(Aabb::new([x, 0, 0], [x + 1, 1, 1]), i).unwrap();
    }
    bf.update(&DistinctPayloads);
    assert_eq!(bf.num_interferences(), 9);
    let all: Vec<usize> = (0..10).rev().collect();
    assert_eq!(bf.remove(&all).unwrap().len(), 9);
    assert_eq!(bf.num_interferences(), 0);
    assert!(bf.update(&DistinctPayloads).is_empty());
    assert_eq!(bf.remove(&[]), Ok(vec![]));
    assert_eq!(bf.create_proxy(Aabb::new([0, 0, 0], [1, 1, 1]), 10), Ok(10));
    assert_eq!(bf.update(&AllPairs), vec![PairEvent { first: 10, second: 10, started: true }]);
}

#[test]
fn boxes_at_the_ends_of_the_range() {
    let mut bf: DbvtBroadPhase<usize, 1> = DbvtBroadPhase::new(u64::MAX);
    bf.create_proxy(Aabb::new([i64::MIN], [i64::MIN + 1]), 0).unwrap();
    bf.create_proxy(Aabb::new([i64::MAX - 1], [i64::MAX]), 1).unwrap();
    bf.create_proxy(Aabb::new([i64::MIN], [i64::MAX]), 2).unwrap();
    bf.update(&DistinctPayloads);
    assert_eq!(as_set(bf.interfering_pairs()), BTreeSet::from([(0, 2), (1, 2)]));
}

#[test]
fn pairs_and_events_come_in_the_order_of_their_identifiers() {
    let mut bf: DbvtBroadPhase<usize, 1> = DbvtBroadPhase::new(0);
    // Made in an order that differs from the order of the boxes on the line.
    for (i, x) in [40, 0, 30, 10, 20, 50].iter().enumerate() {
        bf.create_proxy(Aabb::new([*x], [*x + 10]), i).unwrap();
    }
    let events = bf.update(&DistinctPayloads);
    let pairs = vec![(0, 2), (0, 5), (1, 3), (2, 4), (3, 4)];
    assert_eq!(bf.interfering_pairs(), &pairs);
    let started: Vec<PairEvent> =
        pairs.iter().map(|p| PairEvent { first: p.0, second: p.1, started: true }).collect();
    assert_eq!(events, started);

    // Proxy 4 leaves the middle for the far end: two pairs stop, one starts.
    bf.set_bounding_volume(4, Aabb::new([60], [70])).unwrap();
    let events = bf.update(&DistinctPayloads);
    assert_eq!(
        events,
        vec![
            PairEvent { first: 2, second: 4, started: false },
            PairEvent { first: 3, second: 4, started: false },
            PairEvent { first: 4, second: 5, started: true },
        ]
    );
    assert_eq!(bf.interfering_pairs(), &vec![(0, 2), (0, 5), (1, 3), (4, 5)]);

    // Removal names the pairs in the same order, the removed proxy first.
    assert_eq!(bf.remove(&[5, 3]), Ok(vec![(5, 0), (3, 1), (5, 4)]));
    assert_eq!(bf.interfering_pairs(), &vec![(0, 2)]);
}
