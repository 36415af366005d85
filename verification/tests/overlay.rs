use katara::overlay::{
    box_edge, corner_sign, required_capacity_for_config, spatial_grid_line_count, GridAxis,
    OverlayToggles, SpatialGridOverlay, BOUNDS_LINE_COUNT, MAX_SPATIAL_GRID_LINES,
};

#[test]
fn box_has_twelve_edges_between_neighbouring_corners() {
    assert_eq!(BOUNDS_LINE_COUNT, 12);
    for e in 0..12 {
        let (a, b) = box_edge(e);
        let (sa, sb) = (corner_sign(a), corner_sign(b));
        let diff = (sa.0 != sb.0) as u8 + (sa.1 != sb.1) as u8 + (sa.2 != sb.2) as u8;
        assert_eq!(diff, 1);
    }
    assert_eq!(corner_sign(0), (-1, -1, -1));
    assert_eq!(corner_sign(6), (1, 1, 1));
    assert_eq!(box_edge(3), (3, 0));
    assert_eq!(box_edge(7), (7, 4));
    assert_eq!(box_edge(11), (3, 7));
}

#[test]
fn axis_counts() {
    let axis = GridAxis::new(-2, 7);
    assert_eq!(axis.raw_count(), 10);
    assert_eq!(axis.sampled_count(3), 4);
    assert_eq!(axis.iter_cells(3), vec![-2, 1, 4, 7]);
    assert_eq!(GridAxis::new(5, 4).raw_count(), 0);
    assert!(GridAxis::new(5, 4).iter_cells(1).is_empty());
}

#[test]
fn small_grid_draws_every_line() {
    let grid = SpatialGridOverlay::new(GridAxis::new(0, 9), GridAxis::new(0, 19));
    assert_eq!(grid.stride, 1);
    assert_eq!(grid.line_count(), 30);
}

#[test]
fn dense_grid_is_sampled() {
    let grid = SpatialGridOverlay::new(GridAxis::new(0, 299), GridAxis::new(0, 99));
    assert_eq!(grid.stride, 4);
    assert_eq!(grid.line_count(), 75 + 25);
    assert!(grid.line_count() <= MAX_SPATIAL_GRID_LINES + 1);
    assert_eq!(spatial_grid_line_count(Some(grid)), 100);
    assert_eq!(spatial_grid_line_count(None), 0);
}

#[test]
fn capacity_by_toggles() {
    let all = OverlayToggles { enabled: true, velocity: true, bounds: true, grid: true };
    assert_eq!(required_capacity_for_config(&all, 1000, 40), 1052);
    let off = OverlayToggles { enabled: false, ..all };
    assert_eq!(required_capacity_for_config(&off, 1000, 40), 0);
    let no_vel = OverlayToggles { velocity: false, ..all };
    assert_eq!(required_capacity_for_config(&no_vel, 1000, 40), 52);
}

#[test]
fn full_grid_counts_every_cell_of_the_three_axes() {
    let n = katara::overlay::full_grid_line_count(
        GridAxis::new(-3, 3),
        GridAxis::new(-2, 2),
        GridAxis::new(-1, 1),
    );
    assert_eq!(n, 7 + 5 + 3);
}
