use katara::spatial_grid::{
    cell_offset, get_key_from_hash, hash_cell, SpatialGrid, EMPTY_BUCKET, HASH_PRIME_X,
    HASH_PRIME_Y,
};

#[test]
fn hash_of_small_cells() {
    assert_eq!(hash_cell(0, 0), 0);
    assert_eq!(hash_cell(1, 0), 73_856_093);
    assert_eq!(hash_cell(0, 1), 19_349_663);
    assert_eq!(hash_cell(1, 1), 73_856_093 ^ 19_349_663);
    assert_eq!(hash_cell(2, 3), (2 * HASH_PRIME_X) ^ (3 * HASH_PRIME_Y));
}

#[test]
fn hash_of_negative_cells_reinterprets_the_bits() {
    let x = (-1i32) as u32 as u64;
    assert_eq!(hash_cell(-1, 0), x.wrapping_mul(HASH_PRIME_X));
    assert_eq!(hash_cell(0, -1), x.wrapping_mul(HASH_PRIME_Y));
}

#[test]
fn key_is_hash_modulo_length() {
    assert_eq!(get_key_from_hash(10, 3), 1);
    assert_eq!(get_key_from_hash(73_856_093, 1000), 93);
    assert_eq!(get_key_from_hash(5, 1), 0);
}

#[test]
fn offsets_cover_the_three_by_three_block_row_by_row() {
    let offsets: Vec<(i32, i32)> = (0..9).map(cell_offset).collect();
    assert_eq!(
        offsets,
        vec![(-1, -1), (0, -1), (1, -1), (-1, 0), (0, 0), (1, 0), (-1, 1), (0, 1), (1, 1)]
    );
}

#[test]
fn empty_bucket_marker_is_usize_max() {
    assert_eq!(EMPTY_BUCKET, usize::MAX);
}

fn sorted(mut v: Vec<usize>) -> Vec<usize> {
    v.sort();
    v
}

#[test]
fn neighbours_are_the_particles_of_the_surrounding_block() {
    let cells = vec![(0, 0), (1, 0), (5, 5), (-1, -1), (2, 2), (0, 1), (1, 1)];
    let mut grid = SpatialGrid::new();
    grid.update_spatial_lookup(&cells);
    assert_eq!(sorted(grid.neighbor_candidates(&cells, (0, 0))), vec![0, 1, 3, 5, 6]);
    assert_eq!(sorted(grid.neighbor_candidates(&cells, (5, 5))), vec![2]);
    assert_eq!(sorted(grid.neighbor_candidates(&cells, (1, 1))), vec![0, 1, 4, 5, 6]);
    assert!(grid.neighbor_candidates(&cells, (20, 20)).is_empty());
}

#[test]
fn neighbours_follow_the_offsets_then_the_lookup_order() {
    let cells = vec![(1, 1), (0, 0), (0, 0)];
    let mut grid = SpatialGrid::new();
    grid.update_spatial_lookup(&cells);
    assert_eq!(grid.neighbor_candidates(&cells, (0, 0)), vec![1, 2, 0]);
}

#[test]
fn empty_grid_has_no_neighbours() {
    let grid = SpatialGrid::new();
    assert!(grid.neighbor_candidates(&[], (0, 0)).is_empty());
}

#[test]
fn stale_grid_reports_no_neighbours() {
    let mut grid = SpatialGrid::new();
    grid.update_spatial_lookup(&[(0, 0)]);
    let cells = vec![(0, 0), (0, 0)];
    assert!(grid.neighbor_candidates(&cells, (0, 0)).is_empty());
}

#[test]
fn no_particles_no_neighbours_even_at_the_edge_of_the_cell_range() {
    let grid = SpatialGrid::new();
    assert!(grid.neighbor_candidates(&[], (i32::MAX, i32::MIN)).is_empty());
    let mut stale = SpatialGrid::new();
    stale.update_spatial_lookup(&[(0, 0)]);
    assert!(stale.neighbor_candidates(&[(0, 0), (1, 1)], (i32::MAX, 0)).is_empty());
}
