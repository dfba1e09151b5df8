use marching_shapes::MarchPoint;
use marching_shapes::MarchPoint::At;
use marching_shapes::MarchPoint::Between;
use marching_shapes::Mask;

#[test]
fn empty_mask_has_no_triangles() {
    assert_eq!(Mask::<6>::new(0b000000).march(), Vec::<[MarchPoint; 3]>::new());
}

#[test]
fn empty_mask_has_no_triangles_for_every_size() {
    assert!(Mask::<1>::new(0).march().is_empty());
    assert!(Mask::<2>::new(0).march().is_empty());
    assert!(Mask::<3>::new(0).march().is_empty());
    assert!(Mask::<4>::new(0).march().is_empty());
    assert!(Mask::<5>::new(0).march().is_empty());
    assert!(Mask::<7>::new(0).march().is_empty());
    assert!(Mask::<8>::new(0).march().is_empty());
}

#[test]
fn full_mask_is_a_fan_from_vertex_zero() {
    assert_eq!(
        Mask::<6>::new(0b111111).march(),
        vec![
            [At(0), At(1), At(2)],
            [At(0), At(2), At(3)],
            [At(0), At(3), At(4)],
            [At(0), At(4), At(5)],
        ]
    );
}

#[test]
fn full_mask_of_eight_vertices() {
    let mesh = Mask::<8>::new(0b11111111).march();
    assert_eq!(mesh.len(), 6);
    for (i, triangle) in mesh.iter().enumerate() {
        assert_eq!(*triangle, [At(0), At(i as u8 + 1), At(i as u8 + 2)]);
    }
}

#[test]
fn full_mask_of_a_triangle() {
    assert_eq!(Mask::<3>::new(0b111).march(), vec![[At(0), At(1), At(2)]]);
}

#[test]
fn full_mask_of_fewer_than_three_vertices_is_empty() {
    assert!(Mask::<1>::new(0b1).march().is_empty());
    assert!(Mask::<2>::new(0b11).march().is_empty());
}

#[test]
fn single_active_vertex_is_one_cap() {
    assert_eq!(Mask::<6>::new(0b000001).march(), vec![[At(0), Between(0, 1), Between(0, 5)]]);
}

#[test]
fn single_active_vertex_in_the_middle() {
    assert_eq!(Mask::<6>::new(0b001000).march(), vec![[At(3), Between(3, 4), Between(3, 2)]]);
}

#[test]
fn single_active_vertex_at_the_end() {
    assert_eq!(Mask::<6>::new(0b100000).march(), vec![[At(5), Between(5, 0), Between(5, 4)]]);
}

#[test]
fn run_of_three_and_a_single_vertex() {
    assert_eq!(
        Mask::<6>::new(0b010111).march(),
        vec![
            // the cluster of the vertices 0, 1 and 2
            [At(0), Between(0, 1), Between(0, 5)],
            [Between(1, 0), At(1), Between(0, 5)],
            [At(1), Between(1, 2), Between(0, 5)],
            [Between(2, 1), At(2), Between(0, 5)],
            [At(2), Between(2, 3), Between(0, 5)],
            // the cluster of vertex 4, and the bridge back to the first one
            [At(4), Between(4, 5), Between(4, 3)],
            [Between(4, 3), Between(0, 5), Between(2, 3)],
            // the bridge over the gap from the last cluster to the first
            [Between(0, 5), Between(4, 3), Between(4, 5)],
            // the join points
            [Between(0, 5), Between(4, 3), Between(0, 5)],
        ]
    );
}

#[test]
fn walk_begins_at_the_first_vertex_of_a_cluster() {
    assert_eq!(
        Mask::<6>::new(0b000110).march(),
        vec![
            [At(1), Between(1, 2), Between(1, 0)],
            [Between(2, 1), At(2), Between(1, 0)],
            [At(2), Between(2, 3), Between(1, 0)],
        ]
    );
}

#[test]
fn cluster_around_the_end_is_one_cluster() {
    assert_eq!(
        Mask::<6>::new(0b100001).march(),
        vec![
            [At(5), Between(5, 0), Between(5, 4)],
            [Between(0, 5), At(0), Between(5, 4)],
            [At(0), Between(0, 1), Between(5, 4)],
        ]
    );
}

#[test]
fn cluster_around_the_end_and_another() {
    // The walk begins at vertex 3; the vertices 5, 0 and 1 form the second cluster.
    assert_eq!(
        Mask::<6>::new(0b101011).march(),
        vec![
            [At(3), Between(3, 4), Between(3, 2)],
            [At(5), Between(5, 0), Between(5, 4)],
            [Between(5, 4), Between(3, 2), Between(3, 4)],
            [Between(0, 5), At(0), Between(5, 4)],
            [At(0), Between(0, 1), Between(5, 4)],
            [Between(1, 0), At(1), Between(5, 4)],
            [At(1), Between(1, 2), Between(5, 4)],
            [Between(3, 2), Between(5, 4), Between(1, 2)],
            [Between(3, 2), Between(5, 4), Between(3, 2)],
        ]
    );
}

#[test]
fn three_clusters_leave_one_triangle_in_the_middle() {
    assert_eq!(
        Mask::<6>::new(0b010101).march(),
        vec![
            [At(0), Between(0, 1), Between(0, 5)],
            [At(2), Between(2, 3), Between(2, 1)],
            [Between(2, 1), Between(0, 5), Between(0, 1)],
            [At(4), Between(4, 5), Between(4, 3)],
            [Between(4, 3), Between(2, 1), Between(2, 3)],
            [Between(0, 5), Between(4, 3), Between(4, 5)],
            [Between(0, 5), Between(2, 1), Between(4, 3)],
        ]
    );
}

#[test]
fn four_clusters_leave_two_triangles_in_the_middle() {
    assert_eq!(
        Mask::<8>::new(0b01010101).march(),
        vec![
            [At(0), Between(0, 1), Between(0, 7)],
            [At(2), Between(2, 3), Between(2, 1)],
            [Between(2, 1), Between(0, 7), Between(0, 1)],
            [At(4), Between(4, 5), Between(4, 3)],
            [Between(4, 3), Between(2, 1), Between(2, 3)],
            [At(6), Between(6, 7), Between(6, 5)],
            [Between(6, 5), Between(4, 3), Between(4, 5)],
            [Between(0, 7), Between(6, 5), Between(6, 7)],
            [Between(0, 7), Between(2, 1), Between(4, 3)],
            [Between(4, 3), Between(6, 5), Between(0, 7)],
        ]
    );
}

#[test]
fn polygon_of_two_vertices() {
    assert_eq!(Mask::<2>::new(0b01).march(), vec![[At(0), Between(0, 1), Between(0, 1)]]);
    assert_eq!(Mask::<2>::new(0b10).march(), vec![[At(1), Between(1, 0), Between(1, 0)]]);
}

#[test]
fn all_but_one_vertex() {
    let mesh = Mask::<8>::new(0b01111111).march();
    assert_eq!(mesh.len(), 13);
    assert_eq!(mesh[0], [At(0), Between(0, 1), Between(0, 7)]);
    assert_eq!(mesh[11], [Between(6, 5), At(6), Between(0, 7)]);
    assert_eq!(mesh[12], [At(6), Between(6, 7), Between(0, 7)]);
}

#[test]
fn marching_twice_gives_the_same_mesh() {
    let mask = Mask::<6>::new(0b010111);
    assert_eq!(mask.march(), mask.march());
    assert_eq!(Mask::<6>::new(0b010111).march(), mask.march());
}

#[test]
fn default_mask_is_empty() {
    let mask: Mask<6> = Mask::default();
    assert!(mask.march().is_empty());
    assert_eq!(mask.to_binary_string(), "0b000000");
}
