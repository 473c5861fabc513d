use terrain_synth::grid::GridDims;
use terrain_synth::stencil::{kernel_offsets, neighbor_index};

#[test]
fn stencil_kernel_offsets_radius_four() {
    let k = kernel_offsets(4);
    assert_eq!(k.len(), 81);
    assert_eq!(k[0], (-4, -4));
    assert_eq!(k[1], (-4, -3));
    assert_eq!(k[9], (-3, -4));
    assert_eq!(k[40], (0, 0));
    assert_eq!(k[80], (4, 4));
}

#[test]
fn stencil_kernel_offsets_radius_zero_and_one() {
    assert_eq!(kernel_offsets(0), vec![(0, 0)]);
    assert_eq!(
        kernel_offsets(1),
        vec![(-1, -1), (-1, 0), (-1, 1), (0, -1), (0, 0), (0, 1), (1, -1), (1, 0), (1, 1)]
    );
}

#[test]
fn stencil_neighbors_clamp_to_border() {
    let dims = GridDims::new(4, 3).unwrap();
    assert_eq!(neighbor_index(&dims, 0, 0, -2, -2), 0);
    assert_eq!(neighbor_index(&dims, 4, 3, 1, 1), 19);
    assert_eq!(neighbor_index(&dims, 2, 1, 1, -1), 12);
    assert_eq!(neighbor_index(&dims, 2, 1, 4, 0), 17);
    assert_eq!(neighbor_index(&dims, 1, 2, -4, 4), 3);
}

#[test]
fn stencil_kernel_is_symmetric() {
    for radius in 0..6u16 {
        let k = kernel_offsets(radius);
        let last = k.len() - 1;
        for (n, &(dx, dy)) in k.iter().enumerate() {
            assert_eq!(k[last - n], (-dx, -dy));
        }
    }
}
