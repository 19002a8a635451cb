use amine::topology::{Coord3D, Dimensions};

#[test]
fn test_mobius_boundary_right_crossing() {
    let dims = Dimensions::new(9, 9, 3);
    let base = Coord3D::new(8, 2, 0);
    let neighbor = dims.map_neighbor(base, 1, 0, 0);
    assert_eq!(neighbor, Some(Coord3D::new(0, 6, 2)));
}

#[test]
fn test_mobius_boundary_left_crossing() {
    let dims = Dimensions::new(9, 9, 3);
    let base = Coord3D::new(0, 7, 2);
    let neighbor = dims.map_neighbor(base, -1, 0, 0);
    assert_eq!(neighbor, Some(Coord3D::new(8, 1, 0)));
}

#[test]
fn test_vertical_truncation() {
    let dims = Dimensions::new(9, 9, 3);
    let base = Coord3D::new(4, 8, 1);
    let neighbor = dims.map_neighbor(base, 0, 1, 0);
    assert_eq!(neighbor, None);
}

#[test]
fn test_depth_truncation() {
    let dims = Dimensions::new(9, 9, 3);
    let base = Coord3D::new(4, 4, 2);
    let neighbor = dims.map_neighbor(base, 0, 0, 1);
    assert_eq!(neighbor, None);
}

#[test]
fn test_corner_mobius_cross_diagonal() {
    let dims = Dimensions::new(9, 9, 3);
    let base = Coord3D::new(8, 0, 0);
    let neighbor = dims.map_neighbor(base, 1, 1, 1);
    assert_eq!(neighbor, Some(Coord3D::new(0, 7, 1)));
}

#[test]
fn test_coord_indexing() {
    let dims = Dimensions::new(16, 16, 4);
    for z in 0..dims.depth {
        for y in 0..dims.height {
            for x in 0..dims.width {
                let coord = Coord3D::new(x, y, z);
                let idx = coord.to_index(dims.width, dims.height);
                let restored = Coord3D::from_index(idx, dims.width, dims.height);
                assert_eq!(coord, restored);
            }
        }
    }
}

#[test]
fn index_formula_is_row_major_by_layer() {
    let c = Coord3D::new(3, 2, 1);
    assert_eq!(c.to_index(9, 9), 3 + 2 * 9 + 1 * 81);
    assert_eq!(Coord3D::from_index(97, 9, 9), Coord3D::new(7, 1, 1));
}

#[test]
fn interior_cell_has_all_twenty_six_neighbours() {
    let dims = Dimensions::new(9, 9, 3);
    let c = Coord3D::new(4, 4, 1);
    let ns = dims.get_neighbors(c);
    assert_eq!(ns.len(), 26);
    assert!(!ns.contains(&c));
    assert_eq!(c.neighbors_26(dims).len(), 26);
}

#[test]
fn corner_cell_neighbours_cross_the_seam() {
    let dims = Dimensions::new(9, 9, 3);
    let c = Coord3D::new(0, 0, 0);
    let ns = dims.get_neighbors(c);
    // Across the seam at x = 0 the mirrored cells of the right edge count.
    assert!(ns.contains(&Coord3D::new(8, 8, 2)));
    assert!(ns.contains(&Coord3D::new(1, 0, 0)));
    // Nothing above row 0 or in front of layer 0.
    for n in &ns {
        assert!(dims.is_valid_coord(*n));
    }
}

#[test]
fn neighbourhood_is_symmetric_on_a_small_board() {
    let dims = Dimensions::new(4, 3, 2);
    for i in 0..dims.total_cells() {
        let a = Coord3D::from_index(i, 4, 3);
        for b in dims.get_neighbors(a) {
            assert!(dims.get_neighbors(b).contains(&a), "{:?} and {:?}", a, b);
        }
    }
}

#[test]
fn validity_and_totals() {
    let dims = Dimensions::new(9, 9, 3);
    assert_eq!(dims.total_cells(), 243);
    assert!(dims.is_valid_coord(Coord3D::new(8, 8, 2)));
    assert!(!dims.is_valid_coord(Coord3D::new(9, 0, 0)));
    assert!(!dims.is_valid_coord(Coord3D::new(0, 9, 0)));
    assert!(!dims.is_valid_coord(Coord3D::new(0, 0, 3)));
    assert_eq!(dims.map_neighbor(Coord3D::new(4, 0, 1), 0, -1, 0), None);
    assert_eq!(dims.map_neighbor(Coord3D::new(4, 4, 0), 0, 0, -1), None);
    assert_eq!(dims.map_neighbor(Coord3D::new(4, 4, 1), 1, 1, 1), Some(Coord3D::new(5, 5, 2)));
}
