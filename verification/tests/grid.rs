use egui_tiles::{grid_shape, grid_shape_candidates, GridShape};

fn columns(n: usize) -> Vec<usize> {
    grid_shape_candidates(n).iter().map(|s| s.num_columns).collect()
}

/// Four tiles are laid out 1x4, 2x2 or 4x1, never 2x3 or 3x2.
#[test]
fn four_tiles_never_get_three_columns() {
    assert_eq!(columns(4), vec![1, 2, 4]);
    assert_eq!(
        grid_shape_candidates(4),
        vec![
            GridShape { num_columns: 1, num_rows: 4, num_empty_cells: 0 },
            GridShape { num_columns: 2, num_rows: 2, num_empty_cells: 0 },
            GridShape { num_columns: 4, num_rows: 1, num_empty_cells: 0 },
        ]
    );
}

#[test]
fn one_column_short_is_skipped_from_four_on() {
    assert_eq!(columns(8), vec![1, 2, 3, 4, 5, 6, 8]);
    assert_eq!(columns(3), vec![1, 2, 3]);
    assert_eq!(columns(1), vec![1]);
    assert!(columns(0).is_empty());
}

#[test]
fn shapes_hold_every_tile() {
    assert_eq!(grid_shape(5, 2), GridShape { num_columns: 2, num_rows: 3, num_empty_cells: 1 });
    assert_eq!(grid_shape(7, 3), GridShape { num_columns: 3, num_rows: 3, num_empty_cells: 2 });
    assert_eq!(grid_shape(6, 3), GridShape { num_columns: 3, num_rows: 2, num_empty_cells: 0 });
    assert_eq!(grid_shape(0, 3), GridShape { num_columns: 3, num_rows: 0, num_empty_cells: 0 });
    for n in 0..40usize {
        for s in grid_shape_candidates(n) {
            assert!(s.num_rows * s.num_columns >= n);
            assert!(s.num_empty_cells < s.num_columns);
            assert_eq!(s.num_rows * s.num_columns - n, s.num_empty_cells);
        }
    }
    let big = grid_shape(usize::MAX, 2);
    assert_eq!(big.num_rows, usize::MAX / 2 + 1);
    assert_eq!(big.num_empty_cells, 1);
}
