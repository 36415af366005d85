//! Integer bookkeeping of the GPU simulation: how many workgroups cover the
//! particles, where the initial particles sit on a lattice, and which of the
//! two ping-pong particle buffers a step reads.

use vstd::prelude::*;

verus! {

/// Particles handled by one compute workgroup.
pub const WORKGROUP_SIZE: u32 = 128;

/// Smallest number of workgroups of `size` items that covers `n` items.
pub open spec fn spec_div_ceil(n: int, size: int) -> int {
    (n + size - 1) / size
}

/// Number of workgroups dispatched for `num_particles` particles.
pub fn workgroup_count(num_particles: u32) -> (count: u32)
    ensures
        count == spec_div_ceil(num_particles as int, WORKGROUP_SIZE as int),
        count * WORKGROUP_SIZE >= num_particles,
        num_particles > 0 ==> (count - 1) * WORKGROUP_SIZE < num_particles,
{
    let n = num_particles as u64;
    let size = WORKGROUP_SIZE as u64;
    let count = (n + size - 1) / size;
    count as u32
}

/// Number of lattice layers needed for `n` particles laid out `nx` by `ny`
/// per layer.
pub fn lattice_layers(n: usize, nx: usize, ny: usize) -> (nz: usize)
    requires
        nx > 0,
        ny > 0,
        nx * ny <= usize::MAX,
    ensures
        nz == spec_div_ceil(n as int, nx * ny),
        nz * (nx * ny) >= n,
{
    let per_layer = nx * ny;
    proof {
        lemma_positive_product(nx as int, ny as int);
    }
    let q = n / per_layer;
    let r = n % per_layer;
    proof {
        vstd::arithmetic::div_mod::lemma_fundamental_div_mod(n as int, per_layer as int);
        vstd::arithmetic::div_mod::lemma_mod_bound(n as int, per_layer as int);
        lemma_div_ceil_parts(n as int, per_layer as int);
        assert(r > 0 ==> q + 1 <= n) by (nonlinear_arith)
            requires
                n == per_layer * q + r,
                per_layer >= 1,
                q >= 0,
        ;
    }
    if r == 0 {
        q
    } else {
        q + 1
    }
}

proof fn lemma_positive_product(a: int, b: int)
    requires
        a > 0,
        b > 0,
    ensures
        a * b > 0,
{
    assert(a * b > 0) by (nonlinear_arith)
        requires
            a > 0,
            b > 0,
    ;
}

/// Ceiling division by parts: `n / d` rounded up.
proof fn lemma_div_ceil_parts(n: int, d: int)
    requires
        n >= 0,
        d > 0,
    ensures
        spec_div_ceil(n, d) == if n % d == 0 {
            n / d
        } else {
            n / d + 1
        },
        spec_div_ceil(n, d) * d >= n,
{
    vstd::arithmetic::div_mod::lemma_fundamental_div_mod(n, d);
    vstd::arithmetic::div_mod::lemma_mod_bound(n, d);
    let q = n / d;
    let r = n % d;
    assert(n == q * d + r) by (nonlinear_arith)
        requires
            n == d * q + r,
    ;
    if r == 0 {
        vstd::arithmetic::div_mod::lemma_fundamental_div_mod_converse(n + d - 1, d, q, d - 1);
    } else {
        assert((q + 1) * d == q * d + d) by (nonlinear_arith);
        vstd::arithmetic::div_mod::lemma_fundamental_div_mod_converse(n + d - 1, d, q + 1, r - 1);
    }
    assert(spec_div_ceil(n, d) * d >= n) by (nonlinear_arith)
        requires
            n == q * d + r,
            0 <= r < d,
            spec_div_ceil(n, d) == if r == 0 {
                q
            } else {
                q + 1
            },
    ;
}

/// Lattice cell of particle `i`: `nx` cells along x, then `ny` rows along
/// y, then layers along z.
pub open spec fn spec_lattice_cell(i: int, nx: int, ny: int) -> (int, int, int) {
    (i % nx, (i / nx) % ny, i / (nx * ny))
}

/// The lattice cell of particle `i`.
pub fn lattice_cell(i: usize, nx: usize, ny: usize) -> (cell: (usize, usize, usize))
    requires
        nx > 0,
        ny > 0,
        nx * ny <= usize::MAX,
    ensures
        cell.0 == spec_lattice_cell(i as int, nx as int, ny as int).0,
        cell.1 == spec_lattice_cell(i as int, nx as int, ny as int).1,
        cell.2 == spec_lattice_cell(i as int, nx as int, ny as int).2,
{
    proof {
        lemma_positive_product(nx as int, ny as int);
    }
    (i % nx, (i / nx) % ny, i / (nx * ny))
}

proof fn lemma_lattice_index(i: int, nx: int, ny: int)
    requires
        i >= 0,
        nx > 0,
        ny > 0,
    ensures
        i == spec_lattice_cell(i, nx, ny).0 + nx * (spec_lattice_cell(i, nx, ny).1 + ny
            * spec_lattice_cell(i, nx, ny).2),
{
    let a = i % nx;
    let q = i / nx;
    let b = q % ny;
    let c = q / ny;
    vstd::arithmetic::div_mod::lemma_fundamental_div_mod(i, nx);
    vstd::arithmetic::div_mod::lemma_fundamental_div_mod(q, ny);
    vstd::arithmetic::div_mod::lemma_div_denominator(i, nx, ny);
    assert(i == a + nx * (b + ny * c)) by (nonlinear_arith)
        requires
            i == nx * q + a,
            q == ny * c + b,
    ;
}

/// Law: the initial lattice puts every particle in a cell of its own, and
/// `n` particles fit in `lattice_layers(n, nx, ny)` layers of `nx` by `ny`
/// cells.
pub proof fn lemma_lattice_cells_distinct(n: int, nx: int, ny: int, i: int, j: int)
    requires
        nx > 0,
        ny > 0,
        0 <= i < n,
        0 <= j < n,
        i != j,
    ensures
        spec_lattice_cell(i, nx, ny) != spec_lattice_cell(j, nx, ny),
        0 <= spec_lattice_cell(i, nx, ny).0 < nx,
        0 <= spec_lattice_cell(i, nx, ny).1 < ny,
        0 <= spec_lattice_cell(i, nx, ny).2 < spec_div_ceil(n, nx * ny),
{
    lemma_lattice_index(i, nx, ny);
    lemma_lattice_index(j, nx, ny);
    vstd::arithmetic::div_mod::lemma_mod_bound(i, nx);
    vstd::arithmetic::div_mod::lemma_div_pos_is_pos(i, nx);
    vstd::arithmetic::div_mod::lemma_mod_bound(i / nx, ny);
    lemma_positive_product(nx, ny);
    vstd::arithmetic::div_mod::lemma_div_pos_is_pos(i, nx * ny);
    lemma_div_ceil_parts(n, nx * ny);
    let per = nx * ny;
    let z = i / per;
    vstd::arithmetic::div_mod::lemma_fundamental_div_mod(i, per);
    vstd::arithmetic::div_mod::lemma_mod_bound(i, per);
    assert(z < spec_div_ceil(n, per)) by (nonlinear_arith)
        requires
            i == per * z + i % per,
            0 <= i % per,
            i < n,
            spec_div_ceil(n, per) * per >= n,
            per > 0,
    ;
}

/// Which of the two particle buffers the simulation reads next.
pub struct PingPong {
    pub swapped: bool,
}

impl PingPong {
    pub fn new() -> (p: Self)
        ensures
            !p.swapped,
    {
        PingPong { swapped: false }
    }

    /// A step has run: the buffers trade places.
    pub fn advance(&mut self)
        ensures
            final(self).swapped == !old(self).swapped,
    {
        self.swapped = !self.swapped;
    }

    /// Index of the velocity buffer the next step reads: the one the last
    /// step did not write.
    pub fn velocity_buffer_index(&self) -> (i: usize)
        ensures
            i == if self.swapped {
                1usize
            } else {
                0usize
            },
    {
        if self.swapped {
            1
        } else {
            0
        }
    }
}

} // verus!
