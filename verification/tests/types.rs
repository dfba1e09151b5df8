use marching_shapes::MarchIndices;
use marching_shapes::MarchPoint;
use marching_shapes::MarchPoint::At;
use marching_shapes::MarchPoint::Between;
use marching_shapes::Mask;
use marching_shapes::Triangle;

#[test]
fn largest_mask_of_each_size() {
    assert_eq!(Mask::<1>::max(), 0b1);
    assert_eq!(Mask::<2>::max(), 0b11);
    assert_eq!(Mask::<3>::max(), 0b111);
    assert_eq!(Mask::<4>::max(), 0b1111);
    assert_eq!(Mask::<5>::max(), 0b11111);
    assert_eq!(Mask::<6>::max(), 0b111111);
    assert_eq!(Mask::<7>::max(), 0b1111111);
    assert_eq!(Mask::<8>::max(), 0b11111111);
}

#[test]
fn try_new_takes_masks_that_fit() {
    assert!(Mask::<6>::try_new(0).is_some());
    assert!(Mask::<6>::try_new(0b010111).is_some());
    assert!(Mask::<6>::try_new(0b111111).is_some());
    assert!(Mask::<8>::try_new(0xff).is_some());
    assert!(Mask::<1>::try_new(1).is_some());
}

#[test]
fn try_new_refuses_bits_beyond_the_polygon() {
    assert!(Mask::<6>::try_new(0b1000000).is_none());
    assert!(Mask::<6>::try_new(0xff).is_none());
    assert!(Mask::<1>::try_new(2).is_none());
    assert!(Mask::<7>::try_new(0b10000000).is_none());
}

#[test]
fn try_new_refuses_polygons_without_vertices_or_with_too_many() {
    assert!(Mask::<0>::try_new(0).is_none());
    assert!(Mask::<9>::try_new(0).is_none());
    assert!(Mask::<9>::try_new(1).is_none());
    assert!(Mask::<300>::try_new(0).is_none());
}

#[test]
fn try_new_gives_the_mask_that_new_gives() {
    let mask = Mask::<6>::try_new(0b010111).unwrap();
    assert_eq!(mask.march(), Mask::<6>::new(0b010111).march());
    assert_eq!(mask.to_binary_string(), "0b010111");
}

#[test]
fn is_set_reads_each_bit() {
    let mask = Mask::<6>::new(0b010111);
    assert!(mask.is_set(0));
    assert!(mask.is_set(1));
    assert!(mask.is_set(2));
    assert!(!mask.is_set(3));
    assert!(mask.is_set(4));
    assert!(!mask.is_set(5));
    assert!(!mask.is_set(6));
    assert!(!mask.is_set(7));
}

#[test]
fn binary_string_is_padded_to_the_number_of_vertices() {
    assert_eq!(Mask::<6>::new(0b010111).to_binary_string(), "0b010111");
    assert_eq!(Mask::<6>::new(0).to_binary_string(), "0b000000");
    assert_eq!(Mask::<6>::new(1).to_binary_string(), "0b000001");
    assert_eq!(Mask::<6>::new(0b100000).to_binary_string(), "0b100000");
    assert_eq!(Mask::<8>::new(0b10000001).to_binary_string(), "0b10000001");
    assert_eq!(Mask::<1>::new(1).to_binary_string(), "0b1");
    assert_eq!(Mask::<3>::new(0b110).to_binary_string(), "0b110");
}

#[test]
fn fill_is_the_fan_of_the_whole_polygon() {
    assert_eq!(
        Mask::<6>::fill(),
        vec![
            [At(0), At(1), At(2)],
            [At(0), At(2), At(3)],
            [At(0), At(3), At(4)],
            [At(0), At(4), At(5)],
        ]
    );
    assert_eq!(Mask::<3>::fill(), vec![[At(0), At(1), At(2)]]);
    assert!(Mask::<2>::fill().is_empty());
    assert!(Mask::<1>::fill().is_empty());
    assert_eq!(Mask::<8>::fill(), Mask::<8>::new(0xff).march());
}

#[test]
fn mask_is_copied() {
    let mask = Mask::<6>::new(0b000110);
    let copy = mask;
    assert_eq!(mask.march(), copy.march());
    assert_eq!(mask.clone().to_binary_string(), "0b000110");
}

#[test]
fn point_fits_a_table_that_reaches_its_indices() {
    assert!(At(0).fits(1));
    assert!(!At(0).fits(0));
    assert!(At(5).fits(6));
    assert!(!At(5).fits(5));
    assert!(Between(5, 0).fits(6));
    assert!(!Between(5, 0).fits(5));
    assert!(!Between(0, 5).fits(5));
    assert!(Between(2, 3).fits(4));
    assert!(At(255).fits(256));
    assert!(!At(255).fits(255));
}

#[test]
fn points_compare_by_their_indices() {
    assert_eq!(At(3), At(3));
    assert_ne!(At(3), At(4));
    assert_ne!(Between(1, 2), Between(2, 1));
    assert_ne!(At(1), Between(1, 1));
    let point = Between(4, 5);
    let copy = point;
    assert_eq!(point, copy);
    assert_eq!(format!("{:?}", point), "Between(4, 5)");
    assert_eq!(format!("{:?}", MarchPoint::At(7)), "At(7)");
}

#[test]
fn triangle_new_keeps_the_corners_in_order() {
    let triangle = Triangle::new(At(1), Between(1, 2), Between(1, 0));
    assert_eq!(triangle.indices, [At(1), Between(1, 2), Between(1, 0)]);
    assert_ne!(triangle, Triangle::new(Between(1, 2), At(1), Between(1, 0)));
}

#[test]
fn triangle_at_names_three_vertices() {
    assert_eq!(Triangle::at(0, 3, 4).indices, [At(0), At(3), At(4)]);
    assert_eq!(Triangle::at(0, 3, 4), Triangle::new(At(0), At(3), At(4)));
}

#[test]
fn filled_is_the_fan_of_the_whole_polygon() {
    let mesh = MarchIndices::filled(6);
    let triangles: Vec<Triangle> = mesh.iter().copied().collect();
    assert_eq!(
        triangles,
        vec![
            Triangle::at(0, 1, 2),
            Triangle::at(0, 2, 3),
            Triangle::at(0, 3, 4),
            Triangle::at(0, 4, 5),
        ]
    );
    assert_eq!(MarchIndices::filled(2).iter().count(), 0);
    assert_eq!(MarchIndices::filled(3).iter().count(), 1);
    assert_eq!(MarchIndices::filled(255).iter().count(), 253);
}

#[test]
fn filled_agrees_with_the_full_mask() {
    let corners: Vec<[MarchPoint; 3]> = MarchIndices::filled(8).iter().map(|t| t.indices).collect();
    assert_eq!(corners, Mask::<8>::new(0xff).march());
}

#[test]
fn add_triangle_appends() {
    let mut mesh = MarchIndices::default();
    assert_eq!(mesh.iter().count(), 0);
    mesh.add_triangle(At(0), Between(0, 1), Between(0, 5));
    mesh.add_triangle(Between(1, 0), At(1), Between(0, 5));
    let triangles: Vec<Triangle> = mesh.iter().copied().collect();
    assert_eq!(
        triangles,
        vec![
            Triangle::new(At(0), Between(0, 1), Between(0, 5)),
            Triangle::new(Between(1, 0), At(1), Between(0, 5)),
        ]
    );
}

#[test]
fn add_triangle_after_filled() {
    let mut mesh = MarchIndices::filled(4);
    mesh.add_triangle(At(3), At(2), At(1));
    let corners: Vec<[MarchPoint; 3]> = mesh.iter().map(|t| t.indices).collect();
    assert_eq!(
        corners,
        vec![[At(0), At(1), At(2)], [At(0), At(2), At(3)], [At(3), At(2), At(1)]]
    );
}

#[test]
fn mesh_collected_from_march() {
    let mut mesh = MarchIndices::default();
    for [a, b, c] in Mask::<6>::new(0b000110).march() {
        mesh.add_triangle(a, b, c);
    }
    let corners: Vec<[MarchPoint; 3]> = mesh.iter().map(|t| t.indices).collect();
    assert_eq!(corners, Mask::<6>::new(0b000110).march());
}
