use terrain_synth::lattice::{cell_corners_2d, cell_corners_3d, wrap_coord};

#[test]
fn lattice_wrap_is_euclidean() {
    assert_eq!(wrap_coord(7, 5), 2);
    assert_eq!(wrap_coord(-1, 5), 4);
    assert_eq!(wrap_coord(-5, 5), 0);
    assert_eq!(wrap_coord(0, 1), 0);
    assert_eq!(wrap_coord(i64::MIN, 3), (i64::MIN).rem_euclid(3) as u32);
}

#[test]
fn lattice_corners_2d_order_and_wrap() {
    // (3, 0) on a lattice of side 4: x + 1 wraps to 0
    assert_eq!(cell_corners_2d(4, 3, 0), [12, 13, 0, 1]);
    assert_eq!(cell_corners_2d(4, 1, 2), [6, 7, 10, 11]);
    assert_eq!(cell_corners_2d(4, -1, -1), [15, 12, 3, 0]);
}

#[test]
fn lattice_corners_2d_periodic() {
    for x in -6i64..6 {
        for y in -6i64..6 {
            let base = cell_corners_2d(5, x, y);
            assert_eq!(cell_corners_2d(5, x + 5, y), base);
            assert_eq!(cell_corners_2d(5, x, y + 5), base);
        }
    }
}

#[test]
fn lattice_corners_3d_order_and_wrap() {
    assert_eq!(cell_corners_3d(2, 1, 1, 1), [7, 6, 5, 4, 3, 2, 1, 0]);
    assert_eq!(cell_corners_3d(3, 0, 0, 0), [0, 1, 3, 4, 9, 10, 12, 13]);
    assert_eq!(cell_corners_3d(3, 3, -3, 6), cell_corners_3d(3, 0, 0, 0));
}

#[test]
fn lattice_single_point_ring() {
    assert_eq!(cell_corners_2d(1, 5, -9), [0, 0, 0, 0]);
    assert_eq!(cell_corners_3d(1, 0, 2, -3), [0; 8]);
}
