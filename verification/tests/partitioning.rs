use collision_kernel::bounding_volume::Aabb;
use collision_kernel::partitioning::Dbvt;
use std::collections::BTreeSet;

fn line(from: i64, to: i64) -> Aabb<1> {
    Aabb::new([from], [to])
}

fn found(tree: &Dbvt<1>) -> BTreeSet<(usize, usize)> {
    let list = tree.interferences();
    let set: BTreeSet<(usize, usize)> = list.iter().copied().collect();
    assert_eq!(set.len(), list.len());
    set
}

#[test]
fn tree_reports_each_overlapping_pair_once() {
    let mut tree: Dbvt<1> = Dbvt::new();
    assert!(tree.interferences().is_empty());
    let boxes = [line(0, 4), line(3, 5), line(10, 12), line(5, 10), line(-3, -1), line(11, 11)];
    for (id, b) in boxes.iter().enumerate() {
        tree.insert(*b, id);
    }
    let mut expected = BTreeSet::new();
    for i in 0..boxes.len() {
        for j in i..boxes.len() {
            if boxes[i].intersects(&boxes[j]) {
                expected.insert((i, j));
            }
        }
    }
    assert_eq!(expected.len(), 6 + 4);
    assert_eq!(found(&tree), expected);
}

#[test]
fn tree_forgets_removed_leaves() {
    let mut tree: Dbvt<1> = Dbvt::new();
    tree.insert(line(0, 4), 7);
    tree.insert(line(3, 5), 2);
    tree.insert(line(4, 9), 5);
    assert_eq!(found(&tree), BTreeSet::from([(2, 2), (2, 5), (2, 7), (5, 5), (5, 7), (7, 7)]));
    assert!(!tree.remove(3, &line(0, 4)));
    assert!(tree.remove(2, &line(3, 5)));
    assert!(!tree.remove(2, &line(3, 5)));
    assert_eq!(found(&tree), BTreeSet::from([(5, 5), (5, 7), (7, 7)]));
    assert!(tree.remove(7, &line(0, 4)));
    assert!(tree.remove(5, &line(4, 9)));
    assert!(tree.interferences().is_empty());
    tree.insert(line(1, 1), 2);
    assert_eq!(tree.interferences(), vec![(2, 2)]);
}
