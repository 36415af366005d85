//! Line budgeting of the debug overlay: the bounding box wireframe, the
//! spatial-grid lines, and the line capacity the overlay reserves.
//!
//! The world positions of the lines are computed by the renderer; this module
//! decides which grid cells get a line and how many lines the overlay needs.

use vstd::prelude::*;

verus! {

/// Lines of the bounding box wireframe.
pub const BOUNDS_LINE_COUNT: usize = 12;

/// Most spatial-grid lines the particle overlay draws; denser grids are sampled.
pub const MAX_SPATIAL_GRID_LINES: usize = 128;

/// Sign (-1 or +1) of each coordinate of corner `i` of a box, `i < 8`.
pub open spec fn spec_corner_sign(i: int) -> (int, int, int) {
    if i == 0 {
        (-1, -1, -1)
    } else if i == 1 {
        (1, -1, -1)
    } else if i == 2 {
        (1, 1, -1)
    } else if i == 3 {
        (-1, 1, -1)
    } else if i == 4 {
        (-1, -1, 1)
    } else if i == 5 {
        (1, -1, 1)
    } else if i == 6 {
        (1, 1, 1)
    } else {
        (-1, 1, 1)
    }
}

/// Corners of edge `e` of the box wireframe, `e < 12`.
pub open spec fn spec_box_edge(e: int) -> (int, int) {
    if e < 4 {
        (e, (e + 1) % 4)
    } else if e < 8 {
        (e, 4 + (e - 3) % 4)
    } else {
        (e - 8, e - 4)
    }
}

/// Number of coordinates in which two corners differ.
pub open spec fn corner_distance(a: int, b: int) -> int {
    let sa = spec_corner_sign(a);
    let sb = spec_corner_sign(b);
    (if sa.0 != sb.0 {
        1int
    } else {
        0int
    }) + (if sa.1 != sb.1 {
        1int
    } else {
        0int
    }) + (if sa.2 != sb.2 {
        1int
    } else {
        0int
    })
}

/// Signs of the coordinates of corner `i` of a box (-1 or +1 each).
pub fn corner_sign(i: usize) -> (s: (i8, i8, i8))
    requires
        i < 8,
    ensures
        (s.0 as int, s.1 as int, s.2 as int) == spec_corner_sign(i as int),
{
    match i {
        0 => (-1, -1, -1),
        1 => (1, -1, -1),
        2 => (1, 1, -1),
        3 => (-1, 1, -1),
        4 => (-1, -1, 1),
        5 => (1, -1, 1),
        6 => (1, 1, 1),
        _ => (-1, 1, 1),
    }
}

/// Corners joined by edge `e` of the box wireframe.
pub fn box_edge(e: usize) -> (c: (usize, usize))
    requires
        e < BOUNDS_LINE_COUNT,
    ensures
        (c.0 as int, c.1 as int) == spec_box_edge(e as int),
{
    match e {
        0 => (0, 1),
        1 => (1, 2),
        2 => (2, 3),
        3 => (3, 0),
        4 => (4, 5),
        5 => (5, 6),
        6 => (6, 7),
        7 => (7, 4),
        8 => (0, 4),
        9 => (1, 5),
        10 => (2, 6),
        _ => (3, 7),
    }
}

/// Law: the twelve wireframe edges are exactly the edges of the box: each
/// joins two corners that differ in one coordinate, no edge is listed twice,
/// and every such pair of corners is joined by an edge.
pub proof fn lemma_box_edges_are_cube_edges()
    ensures
        forall|e: int|
            0 <= e < 12 ==> 0 <= (#[trigger] spec_box_edge(e)).0 < 8 && 0 <= spec_box_edge(e).1 < 8
                && corner_distance(spec_box_edge(e).0, spec_box_edge(e).1) == 1,
        forall|e: int, f: int|
            0 <= e < f < 12 ==> {
                let (a, b) = #[trigger] spec_box_edge(e);
                let (c, d) = #[trigger] spec_box_edge(f);
                !((a == c && b == d) || (a == d && b == c))
            },
        forall|a: int, b: int|
            0 <= a < b < 8 && #[trigger] corner_distance(a, b) == 1 ==> exists|e: int|
                0 <= e < 12 && ((spec_box_edge(e).0 == a && spec_box_edge(e).1 == b) || (
                spec_box_edge(e).0 == b && spec_box_edge(e).1 == a)),
{
    assert forall|a: int, b: int|
        0 <= a < b < 8 && #[trigger] corner_distance(a, b) == 1 implies exists|e: int|
        0 <= e < 12 && ((spec_box_edge(e).0 == a && spec_box_edge(e).1 == b) || (spec_box_edge(
            e,
        ).0 == b && spec_box_edge(e).1 == a)) by {
        if a == 0 && b == 1 {
            assert(spec_box_edge(0) == (0int, 1int));
        } else if a == 1 && b == 2 {
            assert(spec_box_edge(1) == (1int, 2int));
        } else if a == 2 && b == 3 {
            assert(spec_box_edge(2) == (2int, 3int));
        } else if a == 0 && b == 3 {
            assert(spec_box_edge(3) == (3int, 0int));
        } else if a == 4 && b == 5 {
            assert(spec_box_edge(4) == (4int, 5int));
        } else if a == 5 && b == 6 {
            assert(spec_box_edge(5) == (5int, 6int));
        } else if a == 6 && b == 7 {
            assert(spec_box_edge(6) == (6int, 7int));
        } else if a == 4 && b == 7 {
            assert(spec_box_edge(7) == (7int, 4int));
        } else if a == 0 && b == 4 {
            assert(spec_box_edge(8) == (0int, 4int));
        } else if a == 1 && b == 5 {
            assert(spec_box_edge(9) == (1int, 5int));
        } else if a == 2 && b == 6 {
            assert(spec_box_edge(10) == (2int, 6int));
        } else {
            assert(a == 3 && b == 7);
            assert(spec_box_edge(11) == (3int, 7int));
        }
    }
}

/// Cells covered along one axis of the grid, `start_cell..=end_cell`.
#[derive(Debug, Clone, Copy, PartialEq, Eq, Structural)]
pub struct GridAxis {
    pub start_cell: i32,
    pub end_cell: i32,
}

/// The cell count of the axis, and the difference it is computed from, fit in `i32`.
pub open spec fn axis_fits(axis: GridAxis) -> bool {
    i32::MIN <= axis.end_cell - axis.start_cell && axis.end_cell - axis.start_cell + 1 <= i32::MAX
}

/// Number of cells of an axis (zero when the range is empty).
pub open spec fn spec_raw_count(axis: GridAxis) -> int {
    if axis.end_cell - axis.start_cell + 1 > 0 {
        axis.end_cell - axis.start_cell + 1
    } else {
        0
    }
}

/// `a / b` rounded up.
pub open spec fn spec_div_ceil(a: int, b: int) -> int {
    (a + b - 1) / b
}

impl GridAxis {
    pub fn new(start_cell: i32, end_cell: i32) -> (axis: Self)
        ensures
            axis.start_cell == start_cell,
            axis.end_cell == end_cell,
    {
        GridAxis { start_cell, end_cell }
    }

    /// Number of cells of the axis.
    pub fn raw_count(&self) -> (n: usize)
        requires
            axis_fits(*self),
        ensures
            n == spec_raw_count(*self),
    {
        let count = self.end_cell - self.start_cell + 1;
        if count > 0 {
            count as usize
        } else {
            0
        }
    }

    /// Number of cells visited when taking every `stride`-th cell.
    pub fn sampled_count(&self, stride: usize) -> (n: usize)
        requires
            stride > 0,
            axis_fits(*self),
        ensures
            n == spec_div_ceil(spec_raw_count(*self), stride as int),
    {
        let raw = self.raw_count();
        let q = raw / stride;
        let r = raw % stride;
        proof {
            lemma_div_ceil_cases(raw as int, stride as int);
        }
        if r == 0 {
            q
        } else {
            q + 1
        }
    }

    /// Every `stride`-th cell of the axis, from its first cell.
    pub fn iter_cells(&self, stride: usize) -> (cells: Vec<i32>)
        requires
            stride > 0,
            axis_fits(*self),
        ensures
            cells.len() == spec_div_ceil(spec_raw_count(*self), stride as int),
            forall|t: int|
                0 <= t < cells.len() ==> #[trigger] cells@[t] == self.start_cell + t * stride,
            forall|t: int| 0 <= t < cells.len() ==> #[trigger] cells@[t] <= self.end_cell,
    {
        let mut cells: Vec<i32> = Vec::new();
        let raw = self.raw_count();
        let total = self.sampled_count(stride);
        let mut t: usize = 0;
        while t < total
            invariant
                stride > 0,
                axis_fits(*self),
                raw == spec_raw_count(*self),
                total == spec_div_ceil(raw as int, stride as int),
                t <= total,
                cells.len() == t,
                forall|u: int| 0 <= u < t ==> #[trigger] cells@[u] == self.start_cell + u * stride,
                forall|u: int| 0 <= u < t ==> #[trigger] cells@[u] <= self.end_cell,
            decreases total - t,
        {
            proof {
                lemma_sample_in_range(raw as int, stride as int, t as int);
            }
            let step = t * stride;
            assert(step < raw);
            assert(raw == self.end_cell - self.start_cell + 1);
            assert(step <= i32::MAX);
            let offset = step as i32;
            assert(offset == t * stride);
            cells.push(self.start_cell + offset);
            t = t + 1;
        }
        cells
    }
}

/// The `t`-th sample of a range of `raw` cells taken every `stride` cells is
/// inside the range.
proof fn lemma_sample_in_range(raw: int, stride: int, t: int)
    requires
        stride > 0,
        raw >= 0,
        0 <= t < spec_div_ceil(raw, stride),
    ensures
        t * stride < raw,
{
    vstd::arithmetic::div_mod::lemma_fundamental_div_mod(raw + stride - 1, stride);
    vstd::arithmetic::div_mod::lemma_mod_bound(raw + stride - 1, stride);
    assert((t + 1) * stride <= spec_div_ceil(raw, stride) * stride) by (nonlinear_arith)
        requires
            t + 1 <= spec_div_ceil(raw, stride),
            stride > 0,
    ;
    assert((t + 1) * stride == t * stride + stride) by (nonlinear_arith);
}

/// Rounded-up division is the quotient, plus one when there is a remainder.
proof fn lemma_div_ceil_cases(a: int, b: int)
    requires
        a >= 0,
        b > 0,
    ensures
        spec_div_ceil(a, b) == if a % b == 0 {
            a / b
        } else {
            a / b + 1
        },
{
    let q = a / b;
    let r = a % b;
    vstd::arithmetic::div_mod::lemma_fundamental_div_mod(a, b);
    vstd::arithmetic::div_mod::lemma_mod_bound(a, b);
    if r == 0 {
        vstd::arithmetic::div_mod::lemma_fundamental_div_mod_converse(a + b - 1, b, q, b - 1);
    } else {
        assert(a + b - 1 == (q + 1) * b + (r - 1)) by (nonlinear_arith)
            requires
                a == b * q + r,
        ;
        vstd::arithmetic::div_mod::lemma_fundamental_div_mod_converse(a + b - 1, b, q + 1, r - 1);
    }
}

/// Rounding up a division by a positive stride never exceeds the dividend.
proof fn lemma_div_ceil_at_most(a: int, s: int)
    requires
        a >= 0,
        s >= 1,
    ensures
        0 <= spec_div_ceil(a, s) <= a,
{
    if a == 0 {
        vstd::arithmetic::div_mod::lemma_basic_div(s - 1, s);
    } else {
        assert(a + s - 1 <= a * s) by (nonlinear_arith)
            requires
                a >= 1,
                s >= 1,
        ;
        vstd::arithmetic::div_mod::lemma_div_is_ordered(a + s - 1, a * s, s);
        vstd::arithmetic::div_mod::lemma_div_by_multiple(a, s);
        vstd::arithmetic::div_mod::lemma_div_pos_is_pos(a + s - 1, s);
    }
}

/// Sampling of the spatial-grid lines: every `stride`-th cell line of each
/// axis is drawn, the stride chosen so at most about `MAX_SPATIAL_GRID_LINES`
/// lines are drawn.
#[derive(Debug, Clone, Copy, PartialEq, Eq, Structural)]
pub struct SpatialGridOverlay {
    pub x_axis: GridAxis,
    pub y_axis: GridAxis,
    pub stride: usize,
}

/// Smallest stride that keeps `line_count` lines to `MAX_SPATIAL_GRID_LINES` samples.
pub open spec fn spec_grid_stride(line_count: int) -> int {
    let s = spec_div_ceil(line_count, MAX_SPATIAL_GRID_LINES as int);
    if s > 1 {
        s
    } else {
        1
    }
}


impl SpatialGridOverlay {
    pub fn new(x_axis: GridAxis, y_axis: GridAxis) -> (grid: Self)
        requires
            axis_fits(x_axis),
            axis_fits(y_axis),
        ensures
            grid.x_axis == x_axis,
            grid.y_axis == y_axis,
            grid.stride == spec_grid_stride(spec_raw_count(x_axis) + spec_raw_count(y_axis)),
    {
        let line_count = x_axis.raw_count() + y_axis.raw_count();
        let q = line_count / MAX_SPATIAL_GRID_LINES;
        let r = line_count % MAX_SPATIAL_GRID_LINES;
        let s = if r == 0 {
            q
        } else {
            q + 1
        };
        proof {
            lemma_div_ceil_cases(line_count as int, MAX_SPATIAL_GRID_LINES as int);
        }
        let stride = if s > 1 {
            s
        } else {
            1
        };
        SpatialGridOverlay { x_axis, y_axis, stride }
    }

    /// Number of grid lines drawn.
    pub fn line_count(&self) -> (n: usize)
        requires
            axis_fits(self.x_axis),
            axis_fits(self.y_axis),
            self.stride > 0,
        ensures
            n == spec_div_ceil(spec_raw_count(self.x_axis), self.stride as int) + spec_div_ceil(
                spec_raw_count(self.y_axis),
                self.stride as int,
            ),
    {
        let x = self.x_axis.sampled_count(self.stride);
        let y = self.y_axis.sampled_count(self.stride);
        proof {
            lemma_div_ceil_at_most(spec_raw_count(self.x_axis), self.stride as int);
            lemma_div_ceil_at_most(spec_raw_count(self.y_axis), self.stride as int);
        }
        x + y
    }
}

/// Law: the sampled spatial grid draws at most `MAX_SPATIAL_GRID_LINES + 1`
/// lines, whatever the size of the grid.
pub proof fn lemma_sampled_grid_is_bounded(raw_x: int, raw_y: int)
    requires
        raw_x >= 0,
        raw_y >= 0,
    ensures
        spec_grid_stride(raw_x + raw_y) >= 1,
        spec_div_ceil(raw_x, spec_grid_stride(raw_x + raw_y)) + spec_div_ceil(
            raw_y,
            spec_grid_stride(raw_x + raw_y),
        ) <= MAX_SPATIAL_GRID_LINES + 1,
{
    let t = raw_x + raw_y;
    let m = MAX_SPATIAL_GRID_LINES as int;
    let s = spec_grid_stride(t);
    lemma_div_ceil_cases(t, m);
    vstd::arithmetic::div_mod::lemma_fundamental_div_mod(t, m);
    vstd::arithmetic::div_mod::lemma_mod_bound(t, m);
    assert(m * s >= t) by (nonlinear_arith)
        requires
            s >= spec_div_ceil(t, m),
            spec_div_ceil(t, m) == if t % m == 0 {
                t / m
            } else {
                t / m + 1
            },
            t == m * (t / m) + t % m,
            0 <= t % m < m,
            s >= 1,
            m > 0,
    ;
    let a = spec_div_ceil(raw_x, s);
    let b = spec_div_ceil(raw_y, s);
    vstd::arithmetic::div_mod::lemma_fundamental_div_mod(raw_x + s - 1, s);
    vstd::arithmetic::div_mod::lemma_mod_bound(raw_x + s - 1, s);
    vstd::arithmetic::div_mod::lemma_fundamental_div_mod(raw_y + s - 1, s);
    vstd::arithmetic::div_mod::lemma_mod_bound(raw_y + s - 1, s);
    assert(a + b <= m + 1) by (nonlinear_arith)
        requires
            raw_x + s - 1 == s * a + (raw_x + s - 1) % s,
            raw_y + s - 1 == s * b + (raw_y + s - 1) % s,
            (raw_x + s - 1) % s >= 0,
            (raw_y + s - 1) % s >= 0,
            m * s >= raw_x + raw_y,
            s >= 1,
    ;
}

/// Which parts of the debug overlay are drawn.
#[derive(Debug, Clone, Copy, PartialEq, Eq, Structural)]
pub struct OverlayToggles {
    pub enabled: bool,
    pub velocity: bool,
    pub bounds: bool,
    pub grid: bool,
}

/// Lines the overlay needs: one velocity vector per particle, the box, and the grid.
pub open spec fn spec_required_capacity(
    config: OverlayToggles,
    particle_count: int,
    grid_lines: int,
) -> int {
    if !config.enabled {
        0
    } else {
        (if config.velocity {
            particle_count
        } else {
            0
        }) + (if config.bounds {
            BOUNDS_LINE_COUNT as int
        } else {
            0
        }) + (if config.grid {
            grid_lines
        } else {
            0
        })
    }
}

/// Number of spatial-grid lines of an overlay (none when there is no grid).
pub fn spatial_grid_line_count(grid: Option<SpatialGridOverlay>) -> (n: usize)
    requires
        grid matches Some(g) ==> axis_fits(g.x_axis) && axis_fits(g.y_axis) && g.stride > 0,
    ensures
        n == match grid {
            Some(g) => spec_div_ceil(spec_raw_count(g.x_axis), g.stride as int) + spec_div_ceil(
                spec_raw_count(g.y_axis),
                g.stride as int,
            ),
            None => 0,
        },
{
    match grid {
        Some(g) => g.line_count(),
        None => 0,
    }
}

/// Line capacity the overlay reserves for `particle_count` particles and a
/// grid of `grid_lines` lines.
pub fn required_capacity_for_config(
    config: &OverlayToggles,
    particle_count: usize,
    grid_lines: usize,
) -> (capacity: usize)
    requires
        spec_required_capacity(*config, particle_count as int, grid_lines as int) <= usize::MAX,
    ensures
        capacity == spec_required_capacity(*config, particle_count as int, grid_lines as int),
{
    if !config.enabled {
        return 0;
    }
    let mut capacity: usize = 0;
    if config.velocity {
        capacity = capacity + particle_count;
    }
    if config.bounds {
        capacity = capacity + BOUNDS_LINE_COUNT;
    }
    if config.grid {
        capacity = capacity + grid_lines;
    }
    capacity
}

/// Lines counted for the unsampled grid of the GPU pipeline's overlay: one
/// per cell of each of its three axes (z included, though only x and y lines
/// are drawn).
pub fn full_grid_line_count(x_axis: GridAxis, y_axis: GridAxis, z_axis: GridAxis) -> (n: usize)
    requires
        axis_fits(x_axis),
        axis_fits(y_axis),
        axis_fits(z_axis),
        spec_raw_count(x_axis) + spec_raw_count(y_axis) + spec_raw_count(z_axis) <= usize::MAX,
    ensures
        n == spec_raw_count(x_axis) + spec_raw_count(y_axis) + spec_raw_count(z_axis),
{
    x_axis.raw_count() + y_axis.raw_count() + z_axis.raw_count()
}

} // verus!
