use collision_kernel::math::Vec3;
use collision_kernel::procedural::cone::unit_cone_indices;
use collision_kernel::procedural::cylinder::unit_cylinder_indices;
use collision_kernel::procedural::sphere::{
    push_stacked_rings, unit_hemisphere_indices, unit_sphere_indices,
};
use collision_kernel::procedural::utils::{
    push_closed_circle_indices, push_degenerate_open_top_ring_indices,
    push_degenerate_top_ring_indices, push_open_ring_indices, push_ring_indices,
    reverse_clockwising, split_index_buffer,
};

fn tri(x: u32, y: u32, z: u32) -> Vec3<u32> {
    Vec3::new(x, y, z)
}

fn face(x: (u32, u32), y: (u32, u32), z: (u32, u32)) -> Vec3<Vec3<u32>> {
    Vec3::new(tri(x.0, x.0, x.1), tri(y.0, y.0, y.1), tri(z.0, z.0, z.1))
}

#[test]
fn open_ring_links_neighbours() {
    let mut out = vec![tri(9, 9, 9)];
    push_open_ring_indices(10, 20, 3, &mut out);
    assert_eq!(
        out,
        vec![tri(9, 9, 9), tri(10, 20, 21), tri(10, 21, 11), tri(11, 21, 22), tri(11, 22, 12)]
    );
    let mut none = Vec::new();
    push_open_ring_indices(10, 20, 1, &mut none);
    assert!(none.is_empty());
}

#[test]
fn ring_links_the_last_points_to_the_first() {
    let mut out = Vec::new();
    push_ring_indices(0, 3, 3, &mut out);
    assert_eq!(
        out,
        vec![tri(0, 3, 4), tri(0, 4, 1), tri(1, 4, 5), tri(1, 5, 2), tri(2, 5, 3), tri(2, 3, 0)]
    );
    let mut one = Vec::new();
    push_ring_indices(7, 8, 1, &mut one);
    assert_eq!(one, vec![tri(7, 8, 8), tri(7, 8, 7)]);
    let mut top = Vec::new();
    push_ring_indices(u32::MAX - 3, u32::MAX - 1, 2, &mut top);
    assert_eq!(top.len(), 4);
    assert_eq!(top[2], tri(u32::MAX - 2, u32::MAX, u32::MAX - 1));
}

#[test]
fn fans_share_one_point() {
    let mut open = Vec::new();
    push_degenerate_open_top_ring_indices(4, 0, 3, &mut open);
    assert_eq!(open, vec![tri(4, 0, 5), tri(5, 0, 6)]);
    let mut closed = Vec::new();
    push_degenerate_top_ring_indices(4, 0, 3, &mut closed);
    assert_eq!(closed, vec![tri(4, 0, 5), tri(5, 0, 6), tri(6, 0, 4)]);
}

#[test]
fn closed_circle_pushes_two_less_than_its_points() {
    let mut out = Vec::new();
    push_closed_circle_indices(5, 5, &mut out);
    assert_eq!(out, vec![tri(5, 6, 7), tri(5, 7, 8), tri(5, 8, 9)]);
    for n in 0..3 {
        let mut none = Vec::new();
        push_closed_circle_indices(5, n, &mut none);
        assert!(none.is_empty());
    }
}

#[test]
fn reverse_clockwising_swaps_the_first_two_corners() {
    let mut faces = vec![tri(1, 2, 3), tri(4, 5, 6)];
    reverse_clockwising(&mut faces);
    assert_eq!(faces, vec![tri(2, 1, 3), tri(5, 4, 6)]);
    reverse_clockwising(&mut faces[1..]);
    assert_eq!(faces, vec![tri(2, 1, 3), tri(4, 5, 6)]);
}

#[test]
fn split_index_buffer_repeats_each_corner() {
    assert_eq!(
        split_index_buffer(&[tri(0, 1, 2), tri(7, 8, 9)]),
        vec![
            Vec3::new(tri(0, 0, 0), tri(1, 1, 1), tri(2, 2, 2)),
            Vec3::new(tri(7, 7, 7), tri(8, 8, 8), tri(9, 9, 9)),
        ]
    );
    assert!(split_index_buffer(&[]).is_empty());
}

#[test]
fn cone_has_sides_and_a_base() {
    assert_eq!(
        unit_cone_indices(4),
        vec![
            face((0, 0), (4, 0), (1, 1)),
            face((1, 1), (4, 1), (2, 2)),
            face((2, 2), (4, 2), (3, 3)),
            face((3, 3), (4, 3), (0, 0)),
            face((0, 4), (1, 4), (2, 4)),
            face((0, 4), (2, 4), (3, 4)),
        ]
    );
    assert_eq!(unit_cone_indices(2), vec![face((0, 0), (2, 0), (1, 1)), face((1, 1), (2, 1), (0, 0))]);
}

#[test]
fn cylinder_has_sides_and_two_lids() {
    assert_eq!(
        unit_cylinder_indices(3),
        vec![
            face((0, 0), (3, 0), (4, 1)),
            face((0, 0), (4, 1), (1, 1)),
            face((1, 1), (4, 1), (5, 2)),
            face((1, 1), (5, 2), (2, 2)),
            face((2, 2), (5, 2), (3, 0)),
            face((2, 2), (3, 0), (0, 0)),
            face((0, 3), (1, 3), (2, 3)),
            face((4, 4), (3, 4), (5, 4)),
        ]
    );
    assert_eq!(unit_cylinder_indices(2).len(), 4);
    assert_eq!(unit_cylinder_indices(10).len(), 36);
}

#[test]
fn stacked_rings_follow_one_another() {
    let mut out = Vec::new();
    push_stacked_rings(1, 2, 2, &mut out);
    assert_eq!(
        out,
        vec![
            tri(1, 3, 4),
            tri(1, 4, 2),
            tri(2, 4, 3),
            tri(2, 3, 1),
            tri(3, 5, 6),
            tri(3, 6, 4),
            tri(4, 6, 5),
            tri(4, 5, 3),
        ]
    );
}

#[test]
fn sphere_runs_from_pole_to_pole() {
    // Points: pole 0, circles 1..=3, 4..=6, 7..=9, pole 10.
    let idx = unit_sphere_indices(3, 2);
    assert_eq!(idx.len(), 3 + 2 * 6 + 3);
    assert_eq!(&idx[..3], &[tri(0, 1, 2), tri(0, 2, 3), tri(0, 3, 1)]);
    assert_eq!(&idx[3..5], &[tri(1, 4, 5), tri(1, 5, 2)]);
    assert_eq!(&idx[13..15], &[tri(6, 9, 7), tri(6, 7, 4)]);
    assert_eq!(&idx[15..], &[tri(7, 10, 8), tri(8, 10, 9), tri(9, 10, 7)]);
    // The smallest sphere: both poles and one circle.
    assert_eq!(unit_sphere_indices(2, 1), vec![tri(0, 1, 2), tri(0, 2, 1), tri(1, 3, 2), tri(2, 3, 1)]);
}

#[test]
fn hemisphere_ends_at_its_pole() {
    // Points: circles 0..=2 and 3..=5, pole 6.
    assert_eq!(
        unit_hemisphere_indices(3, 3),
        vec![
            tri(0, 3, 4),
            tri(0, 4, 1),
            tri(1, 4, 5),
            tri(1, 5, 2),
            tri(2, 5, 3),
            tri(2, 3, 0),
            tri(3, 6, 4),
            tri(4, 6, 5),
            tri(5, 6, 3),
        ]
    );
    assert_eq!(unit_hemisphere_indices(2, 2), vec![tri(0, 2, 1), tri(1, 2, 0)]);
}
