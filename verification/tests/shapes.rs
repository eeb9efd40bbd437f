use collision_kernel::bounding_volume::Aabb;
use collision_kernel::geom_with_margin::GeomWithMargin;
use collision_kernel::implicit::{HasMargin, Implicit};
use collision_kernel::math::{Point, Vector};
use collision_kernel::shape::{Ball, Cuboid};

fn corners<const D: usize>(b: &Aabb<D>) -> ([i64; D], [i64; D]) {
    (b.mins, b.maxs)
}

#[test]
fn aabb_reports_empty_boxes() {
    assert!(Aabb::new([0, 0], [0, 0]).is_valid());
    assert!(Aabb::new([-1, 5], [3, 5]).is_valid());
    assert!(!Aabb::new([0, 1], [5, 0]).is_valid());
    assert!(!Aabb::new([1, 0], [0, 5]).is_valid());
    assert!(Aabb::<0>::new([], []).is_valid());
}

#[test]
fn aabb_intersects_on_every_axis_or_not_at_all() {
    let a = Aabb::new([0, 0], [4, 4]);
    assert!(a.intersects(&a));
    assert!(a.intersects(&Aabb::new([4, 4], [6, 6])));
    assert!(Aabb::new([4, 4], [6, 6]).intersects(&a));
    assert!(!a.intersects(&Aabb::new([5, 0], [6, 4])));
    assert!(!a.intersects(&Aabb::new([0, -3], [4, -1])));
    assert!(a.intersects(&Aabb::new([1, 1], [2, 2])));
}

#[test]
fn aabb_contains_what_lies_inside() {
    let a = Aabb::new([0, 0], [4, 4]);
    assert!(a.contains(&a));
    assert!(a.contains(&Aabb::new([1, 0], [4, 3])));
    assert!(!a.contains(&Aabb::new([1, 0], [5, 3])));
    assert!(!a.contains(&Aabb::new([-1, 0], [4, 3])));
    assert!(!Aabb::new([1, 0], [4, 3]).contains(&a));
}

#[test]
fn aabb_merged_is_the_box_around_both() {
    let a = Aabb::new([0, 5, -1], [4, 6, 0]);
    let b = Aabb::new([-2, 5, 3], [1, 9, 4]);
    assert_eq!(corners(&a.merged(&b)), ([-2, 5, -1], [4, 9, 4]));
    assert_eq!(corners(&b.merged(&a)), ([-2, 5, -1], [4, 9, 4]));
    assert_eq!(corners(&a.merged(&a)), corners(&a));
}

#[test]
fn aabb_loosened_stops_at_the_ends_of_the_range() {
    let a = Aabb::new([0, i64::MIN + 1], [4, i64::MAX - 3]);
    assert_eq!(corners(&a.loosened(0)), corners(&a));
    assert_eq!(corners(&a.loosened(2)), ([-2, i64::MIN], [6, i64::MAX - 1]));
    assert_eq!(corners(&a.loosened(u64::MAX)), ([i64::MIN, i64::MIN], [i64::MAX, i64::MAX]));
}

#[test]
fn ball_aabb_reaches_one_radius_each_way() {
    let b = Ball::new(5).aabb(&Point::new([0, 5, -7]));
    assert_eq!(corners(&b), ([-5, 0, -12], [5, 10, -2]));
    let wide = Ball::new(u32::MAX).aabb(&Point::new([i32::MIN, i32::MAX]));
    assert_eq!(
        corners(&wide),
        (
            [i32::MIN as i64 - u32::MAX as i64, i32::MAX as i64 - u32::MAX as i64],
            [i32::MIN as i64 + u32::MAX as i64, i32::MAX as i64 + u32::MAX as i64]
        )
    );
}

#[test]
fn cuboid_supports_at_its_corners() {
    let c = Cuboid::new([2, 3], 1);
    assert_eq!(c.margin(), 1);
    assert_eq!(c.half_extents(), [2, 3]);
    let at = Point::new([10, 20]);
    assert_eq!(c.support_point(&at, &Vector::new([1, -1])).coords, [13, 16]);
    assert_eq!(c.support_point_without_margin(&at, &Vector::new([1, -1])).coords, [12, 17]);
    assert_eq!(c.support_point(&at, &Vector::new([-5, 0])).coords, [7, 24]);
    assert_eq!(c.support_point_without_margin(&at, &Vector::new([0, 0])).coords, [12, 23]);
    assert_eq!(corners(&c.aabb(&at)), ([7, 16], [13, 24]));
}

#[test]
fn wrapped_shape_counts_its_margin_once() {
    let c = Cuboid::new([2, 3], 4);
    let at = Point::new([-1, 1]);
    let wrapped = GeomWithMargin::new(&c);
    assert_eq!(wrapped.margin(), 0);
    assert_eq!(wrapped.geom().margin(), 4);
    for dir in [[1, 1], [1, -1], [-1, 1], [-1, -1], [0, 3]] {
        let dir = Vector::new(dir);
        let with = c.support_point(&at, &dir).coords;
        assert_ne!(with, c.support_point_without_margin(&at, &dir).coords);
        assert_eq!(wrapped.support_point(&at, &dir).coords, with);
        assert_eq!(wrapped.support_point_without_margin(&at, &dir).coords, with);
        let twice = GeomWithMargin::new(&wrapped);
        assert_eq!(twice.margin(), 0);
        assert_eq!(twice.support_point(&at, &dir).coords, with);
        assert_eq!(twice.support_point_without_margin(&at, &dir).coords, with);
    }
    assert_eq!(wrapped.support_point_without_margin(&at, &Vector::new([1, 1])).coords, [5, 8]);
}
