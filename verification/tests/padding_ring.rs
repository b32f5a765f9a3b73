use forgia::padding_ring::{restore_padding_ring, save_padding_ring};

/// Save + mutate everything + restore: the border comes back, the interior
/// keeps the mutation.
#[test]
fn padding_ring_round_trip_preserves_border() {
    let w = 5;
    let d = 5;
    let original: Vec<f32> = (0..(w * d)).map(|i| i as f32).collect();
    let mut h = original.clone();

    let ring = save_padding_ring(&h, w, d);
    for v in h.iter_mut() {
        *v = -999.0;
    }
    restore_padding_ring(&mut h, w, d, &ring);

    for x in 0..w {
        assert_eq!(h[x], original[x], "top row px={x} differs");
        assert_eq!(h[x + w * (d - 1)], original[x + w * (d - 1)], "bottom row px={x} differs");
    }
    for z in 1..d - 1 {
        assert_eq!(h[w * z], original[w * z], "left col pz={z} differs");
        assert_eq!(h[w - 1 + w * z], original[w - 1 + w * z], "right col pz={z} differs");
    }
    for z in 1..d - 1 {
        for x in 1..w - 1 {
            assert_eq!(h[x + w * z], -999.0, "interior stays as it was");
        }
    }
}

#[test]
fn the_ring_is_saved_column_pairs_first_then_inner_rows() {
    let h: Vec<u32> = (0..12).collect(); // 4 wide, 3 deep
    let ring = save_padding_ring(&h, 4, 3);
    let idx: Vec<usize> = ring.iter().map(|e| e.0).collect();
    assert_eq!(idx, vec![0, 8, 1, 9, 2, 10, 3, 11, 4, 7]);
    assert!(ring.iter().all(|&(i, v)| v == h[i]));
}

#[test]
fn a_single_row_saves_each_cell_twice() {
    let h = [7u8, 8, 9];
    let ring = save_padding_ring(&h, 3, 1);
    assert_eq!(ring, vec![(0, 7), (0, 7), (1, 8), (1, 8), (2, 9), (2, 9)]);
}
