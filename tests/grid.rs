use terrain_synth::grid::GridDims;

#[test]
fn grid_four_by_three_counts() {
    let dims = GridDims::new(4, 3).unwrap();
    assert_eq!(dims.vertex_count(), 20);
    assert_eq!(dims.index_count(), 72);
    let indices = dims.triangle_indices();
    assert_eq!(indices.len(), 72);
    assert!(indices.iter().all(|&i| i < 20));
}

#[test]
fn grid_first_and_last_cell_winding() {
    let dims = GridDims::new(4, 3).unwrap();
    let indices = dims.triangle_indices();
    // vertex (x, y) has index 4 * x + y
    assert_eq!(&indices[0..6], &[0, 1, 5, 5, 4, 0]);
    assert_eq!(&indices[66..72], &[14, 15, 19, 19, 18, 14]);
}

#[test]
fn grid_every_vertex_is_in_a_triangle() {
    let dims = GridDims::new(4, 3).unwrap();
    let indices = dims.triangle_indices();
    for v in 0..20u32 {
        assert!(indices.contains(&v), "vertex {} uncovered", v);
    }
}

#[test]
fn grid_vertex_index_and_coords() {
    let dims = GridDims::new(4, 3).unwrap();
    assert_eq!(dims.vertex_index(0, 0), 0);
    assert_eq!(dims.vertex_index(2, 1), 9);
    assert_eq!(dims.vertex_index(4, 3), 19);
    for v in 0..20u32 {
        let (x, y) = dims.vertex_coords(v);
        assert_eq!(dims.vertex_index(x, y), v);
    }
    assert_eq!(dims.vertex_coords(9), (2, 1));
}

#[test]
fn grid_empty_and_degenerate() {
    let dims = GridDims::new(0, 0).unwrap();
    assert_eq!(dims.vertex_count(), 1);
    assert_eq!(dims.index_count(), 0);
    assert!(dims.triangle_indices().is_empty());
    let strip = GridDims::new(3, 0).unwrap();
    assert_eq!(strip.vertex_count(), 4);
    assert!(strip.triangle_indices().is_empty());
}

#[test]
fn grid_too_large_is_refused() {
    assert!(GridDims::new(u32::MAX, 0).is_none());
    assert!(GridDims::new(65535, 65535).is_none());
    assert!(GridDims::new(65535, 65534).is_some());
}

#[test]
fn grid_thousand_by_thousand() {
    let dims = GridDims::new(1000, 1000).unwrap();
    assert_eq!(dims.vertex_count(), 1_002_001);
    assert_eq!(dims.index_count(), 6_000_000);
    let indices = dims.triangle_indices();
    assert_eq!(indices.len(), 6_000_000);
    assert!(indices.iter().all(|&i| i < 1_002_001));
}
