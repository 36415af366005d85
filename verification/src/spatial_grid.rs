//! Spatial hash grid used by the CPU SPH simulation to find the particles
//! near a sample point.
//!
//! Every particle lies in an integer grid cell (the cell of its predicted
//! position, computed by the caller from the smoothing radius).  Each cell is
//! hashed into one of `n` buckets (`n` = particle count).  The grid keeps the
//! particles sorted by bucket, plus, for each bucket, the first position of
//! that bucket in the sorted list.

use vstd::prelude::*;

verus! {

/// First multiplier of the cell hash.
pub const HASH_PRIME_X: u64 = 73_856_093;

/// Second multiplier of the cell hash.
pub const HASH_PRIME_Y: u64 = 19_349_663;

/// Marks a bucket that holds no particle.
pub const EMPTY_BUCKET: usize = usize::MAX;

/// One slot of the sorted lookup: a particle and the bucket of its cell.
#[derive(Debug, Clone, Copy, PartialEq, Eq, Structural)]
pub struct GridEntry {
    pub cell_key: usize,
    pub particle_idx: usize,
}

// ---------------------------------------------------------------------------
// Specification
// ---------------------------------------------------------------------------

/// The hash of an integer cell: both coordinates are reinterpreted as `u32`,
/// widened, multiplied (wrapping) by a prime each, and combined with xor.
pub open spec fn spec_hash_cell(cell_x: i32, cell_y: i32) -> u64 {
    ((cell_x as u32) as u64).wrapping_mul(HASH_PRIME_X) ^ ((cell_y as u32) as u64).wrapping_mul(
        HASH_PRIME_Y,
    )
}

/// The bucket of a hash for a table of `length` buckets.
pub open spec fn spec_key_from_hash(hash: u64, length: usize) -> usize {
    ((hash as usize) % length) as usize
}

/// The bucket of every particle's cell, for a table with one bucket per particle.
pub open spec fn cell_keys(cells: Seq<(i32, i32)>) -> Seq<usize> {
    Seq::new(
        cells.len(),
        |i: int| spec_key_from_hash(spec_hash_cell(cells[i].0, cells[i].1), cells.len() as usize),
    )
}

/// Number of particles before position `i` whose bucket is `k`.
pub open spec fn count_key(keys: Seq<usize>, i: int, k: int) -> nat
    decreases i,
{
    if i <= 0 {
        0
    } else {
        count_key(keys, i - 1, k) + if keys[i - 1] == k {
            1nat
        } else {
            0nat
        }
    }
}

/// Number of particles before position `i` whose bucket is smaller than `k`.
pub open spec fn count_less(keys: Seq<usize>, i: int, k: int) -> nat
    decreases i,
{
    if i <= 0 {
        0
    } else {
        count_less(keys, i - 1, k) + if keys[i - 1] < k {
            1nat
        } else {
            0nat
        }
    }
}

/// The position of particle `i` in the stably sorted lookup: all particles of
/// smaller buckets come first, then the particles of its own bucket in index order.
pub open spec fn rank(keys: Seq<usize>, i: int) -> int {
    (count_less(keys, keys.len() as int, keys[i] as int) + count_key(keys, i, keys[i] as int)) as int
}

/// `lookup` is the stable sort by bucket of the particles whose buckets are `keys`.
pub open spec fn lookup_sorts(lookup: Seq<GridEntry>, keys: Seq<usize>) -> bool {
    &&& lookup.len() == keys.len()
    &&& forall|j: int|
        0 <= j < keys.len() ==> #[trigger] lookup[rank(keys, j)] == (GridEntry {
            cell_key: keys[j],
            particle_idx: j as usize,
        })
    &&& forall|p: int|
        0 <= p < keys.len() ==> (#[trigger] lookup[p]).particle_idx < keys.len() && rank(
            keys,
            lookup[p].particle_idx as int,
        ) == p
}

/// `starts[k]` is the first position of bucket `k` in the sorted lookup, or
/// `EMPTY_BUCKET` when no particle falls in bucket `k`.
pub open spec fn starts_index(starts: Seq<usize>, keys: Seq<usize>) -> bool {
    &&& starts.len() == keys.len()
    &&& forall|k: int|
        0 <= k < keys.len() ==> #[trigger] starts[k] == if count_key(
            keys,
            keys.len() as int,
            k,
        ) > 0 {
            count_less(keys, keys.len() as int, k) as usize
        } else {
            EMPTY_BUCKET
        }
}

/// Some slot of `lookup` holds particle `j`.
pub open spec fn lists_particle(lookup: Seq<GridEntry>, j: int) -> bool {
    exists|p: int| 0 <= p < lookup.len() && (#[trigger] lookup[p]).particle_idx == j
}

/// Cell `c` is `center` or one of its eight neighbours.
pub open spec fn in_block(c: (i32, i32), center: (i32, i32)) -> bool {
    -1 <= c.0 - center.0 <= 1 && -1 <= c.1 - center.1 <= 1
}

/// Position of cell `c` in the visiting order of the 3x3 block around `center`
/// (row by row, from the lower-left neighbour).
pub open spec fn block_order(c: (i32, i32), center: (i32, i32)) -> int {
    (c.1 - center.1 + 1) * 3 + (c.0 - center.0 + 1)
}

/// Particle `a` is listed before particle `b` around `center`: its cell
/// comes first in the block's visiting order, or both share a cell and `a`
/// has the smaller index.
pub open spec fn block_before(cells: Seq<(i32, i32)>, center: (i32, i32), a: int, b: int) -> bool {
    block_order(cells[a], center) < block_order(cells[b], center) || (block_order(cells[a], center)
        == block_order(cells[b], center) && a < b)
}

/// The `o`-th cell offset of the 3x3 block.
pub open spec fn spec_cell_offset(o: int) -> (i32, i32) {
    ((o % 3 - 1) as i32, (o / 3 - 1) as i32)
}

// ---------------------------------------------------------------------------
// Counting lemmas
// ---------------------------------------------------------------------------

proof fn lemma_count_key_mono(keys: Seq<usize>, i1: int, i2: int, k: int)
    requires
        0 <= i1 <= i2,
    ensures
        count_key(keys, i1, k) <= count_key(keys, i2, k),
    decreases i2,
{
    if i1 < i2 {
        lemma_count_key_mono(keys, i1, i2 - 1, k);
    }
}

proof fn lemma_count_key_bound(keys: Seq<usize>, i: int, k: int)
    requires
        0 <= i,
    ensures
        count_key(keys, i, k) <= i,
    decreases i,
{
    if i > 0 {
        lemma_count_key_bound(keys, i - 1, k);
    }
}

proof fn lemma_count_less_step(keys: Seq<usize>, m: int, k: int)
    requires
        0 <= m,
    ensures
        count_less(keys, m, k + 1) == count_less(keys, m, k) + count_key(keys, m, k),
    decreases m,
{
    if m > 0 {
        lemma_count_less_step(keys, m - 1, k);
    }
}

proof fn lemma_count_less_mono(keys: Seq<usize>, m: int, k1: int, k2: int)
    requires
        0 <= m,
        k1 <= k2,
    ensures
        count_less(keys, m, k1) <= count_less(keys, m, k2),
    decreases m,
{
    if m > 0 {
        lemma_count_less_mono(keys, m - 1, k1, k2);
    }
}

proof fn lemma_count_less_zero(keys: Seq<usize>, m: int)
    requires
        0 <= m,
    ensures
        count_less(keys, m, 0) == 0,
    decreases m,
{
    if m > 0 {
        lemma_count_less_zero(keys, m - 1);
    }
}

proof fn lemma_count_less_all(keys: Seq<usize>, m: int, n: int)
    requires
        0 <= m <= keys.len(),
        forall|j: int| 0 <= j < keys.len() ==> keys[j] < n,
    ensures
        count_less(keys, m, n) == m,
    decreases m,
{
    if m > 0 {
        lemma_count_less_all(keys, m - 1, n);
    }
}

/// Particle `i` sits inside the block of positions reserved for its bucket.
proof fn lemma_rank_range(keys: Seq<usize>, i: int)
    requires
        0 <= i < keys.len(),
    ensures
        count_less(keys, keys.len() as int, keys[i] as int) <= rank(keys, i),
        rank(keys, i) < count_less(keys, keys.len() as int, keys[i] + 1),
{
    let n = keys.len() as int;
    let k = keys[i] as int;
    lemma_count_key_mono(keys, i + 1, n, k);
    lemma_count_less_step(keys, n, k);
}

/// Ranks are ordered first by bucket, then by particle index.
proof fn lemma_rank_order(keys: Seq<usize>, a: int, b: int)
    requires
        0 <= a < keys.len(),
        0 <= b < keys.len(),
        keys[a] < keys[b] || (keys[a] == keys[b] && a < b),
    ensures
        rank(keys, a) < rank(keys, b),
{
    let n = keys.len() as int;
    lemma_rank_range(keys, a);
    lemma_rank_range(keys, b);
    if keys[a] < keys[b] {
        lemma_count_less_mono(keys, n, keys[a] + 1, keys[b] as int);
    } else {
        lemma_count_key_mono(keys, a + 1, b, keys[a] as int);
    }
}

proof fn lemma_rank_injective(keys: Seq<usize>, a: int, b: int)
    requires
        0 <= a < keys.len(),
        0 <= b < keys.len(),
        a != b,
    ensures
        rank(keys, a) != rank(keys, b),
{
    if keys[a] < keys[b] || (keys[a] == keys[b] && a < b) {
        lemma_rank_order(keys, a, b);
    } else {
        lemma_rank_order(keys, b, a);
    }
}

proof fn lemma_rank_bound(keys: Seq<usize>, i: int)
    requires
        0 <= i < keys.len(),
        forall|j: int| 0 <= j < keys.len() ==> keys[j] < keys.len(),
    ensures
        0 <= rank(keys, i) < keys.len(),
{
    let n = keys.len() as int;
    lemma_rank_range(keys, i);
    lemma_count_less_mono(keys, n, keys[i] + 1, n);
    lemma_count_less_all(keys, n, n);
}

/// Finds the bucket whose block of positions holds position `p`.
proof fn lemma_find_bucket(keys: Seq<usize>, p: int, k: int) -> (b: int)
    requires
        0 <= k,
        count_less(keys, keys.len() as int, k) <= p,
        p < count_less(keys, keys.len() as int, keys.len() as int),
    ensures
        k <= b < keys.len(),
        count_less(keys, keys.len() as int, b) <= p < count_less(keys, keys.len() as int, b + 1),
    decreases keys.len() - k,
{
    let n = keys.len() as int;
    if p < count_less(keys, n, k + 1) {
        if k >= n {
            lemma_count_less_mono(keys, n, n, k);
        }
        k
    } else {
        if k >= n {
            lemma_count_less_mono(keys, n, n, k);
        }
        lemma_find_bucket(keys, p, k + 1)
    }
}

/// Finds the particle that is the `c`-th occurrence of bucket `k` before position `m`.
proof fn lemma_find_occurrence(keys: Seq<usize>, m: int, k: int, c: nat) -> (j: int)
    requires
        0 <= m <= keys.len(),
        c < count_key(keys, m, k),
    ensures
        0 <= j < m,
        keys[j] == k,
        count_key(keys, j, k) == c,
    decreases m,
{
    if count_key(keys, m - 1, k) > c {
        lemma_find_occurrence(keys, m - 1, k, c)
    } else {
        m - 1
    }
}

/// Every position of the sorted lookup is the rank of some particle.
proof fn lemma_rank_onto(keys: Seq<usize>, p: int) -> (j: int)
    requires
        0 <= p < keys.len(),
        forall|i: int| 0 <= i < keys.len() ==> keys[i] < keys.len(),
    ensures
        0 <= j < keys.len(),
        rank(keys, j) == p,
{
    let n = keys.len() as int;
    lemma_count_less_zero(keys, n);
    lemma_count_less_all(keys, n, n);
    let b = lemma_find_bucket(keys, p, 0);
    lemma_count_less_step(keys, n, b);
    let c = (p - count_less(keys, n, b)) as nat;
    lemma_find_occurrence(keys, n, b, c)
}

/// A position inside the block of bucket `k` holds a particle of bucket `k`.
proof fn lemma_position_bucket(lookup: Seq<GridEntry>, keys: Seq<usize>, p: int, k: int)
    requires
        lookup_sorts(lookup, keys),
        0 <= p < keys.len(),
        count_less(keys, keys.len() as int, k) <= p < count_less(keys, keys.len() as int, k + 1),
    ensures
        lookup[p].cell_key == k,
        keys[lookup[p].particle_idx as int] == k,
{
    let n = keys.len() as int;
    let j = lookup[p].particle_idx as int;
    assert(rank(keys, j) == p);
    assert(lookup[rank(keys, j)] == GridEntry { cell_key: keys[j], particle_idx: j as usize });
    lemma_rank_range(keys, j);
    if keys[j] < k {
        lemma_count_less_mono(keys, n, keys[j] + 1, k);
    } else if keys[j] > k {
        lemma_count_less_mono(keys, n, k + 1, keys[j] as int);
    }
}

// ---------------------------------------------------------------------------
// Executable grid
// ---------------------------------------------------------------------------

/// Hashes an integer cell into a 64-bit value.
pub fn hash_cell(cell_x: i32, cell_y: i32) -> (h: u64)
    ensures
        h == spec_hash_cell(cell_x, cell_y),
{
    let x = cell_x as u32 as u64;
    let y = cell_y as u32 as u64;
    x.wrapping_mul(HASH_PRIME_X) ^ y.wrapping_mul(HASH_PRIME_Y)
}

/// Maps a hash onto one of `length` buckets.
pub fn get_key_from_hash(hash: u64, length: usize) -> (k: usize)
    requires
        length > 0,
    ensures
        k == spec_key_from_hash(hash, length),
        k < length,
{
    hash as usize % length
}

/// The `o`-th offset of the 3x3 block of cells visited around a sample cell.
pub fn cell_offset(o: usize) -> (off: (i32, i32))
    requires
        o < 9,
    ensures
        off == spec_cell_offset(o as int),
{
    match o {
        0 => (-1, -1),
        1 => (0, -1),
        2 => (1, -1),
        3 => (-1, 0),
        4 => (0, 0),
        5 => (1, 0),
        6 => (-1, 1),
        7 => (0, 1),
        _ => (1, 1),
    }
}

/// Particles sorted by the bucket of their cell, with the first position of each bucket.
pub struct SpatialGrid {
    spatial_lookup: Vec<GridEntry>,
    start_indices: Vec<usize>,
}

impl View for SpatialGrid {
    type V = (Seq<GridEntry>, Seq<usize>);

    closed spec fn view(&self) -> (Seq<GridEntry>, Seq<usize>) {
        (self.spatial_lookup@, self.start_indices@)
    }
}

impl SpatialGrid {
    #[verifier::type_invariant]
    spec fn well_formed(self) -> bool {
        &&& self.spatial_lookup.len() == self.start_indices.len()
        &&& forall|p: int|
            0 <= p < self.spatial_lookup.len() ==> (#[trigger] self.spatial_lookup@[p]).particle_idx
                < self.spatial_lookup.len()
        &&& forall|k: int|
            0 <= k < self.start_indices.len() ==> #[trigger] self.start_indices@[k] == EMPTY_BUCKET
                || self.start_indices@[k] < self.start_indices.len()
    }

    /// The grid indexes exactly the particles whose cells are `cells`.
    pub open spec fn built_from(self, cells: Seq<(i32, i32)>) -> bool {
        &&& lookup_sorts(self@.0, cell_keys(cells))
        &&& starts_index(self@.1, cell_keys(cells))
    }

    pub fn new() -> (grid: Self)
        ensures
            grid@.0.len() == 0,
            grid@.1.len() == 0,
            grid.built_from(Seq::empty()),
    {
        SpatialGrid { spatial_lookup: Vec::new(), start_indices: Vec::new() }
    }

    /// Rebuilds the grid for particles lying in `cells` (one cell per particle).
    ///
    /// The lookup is sorted stably by bucket; each bucket's first position is
    /// recorded in the start indices.
    pub fn update_spatial_lookup(&mut self, cells: &[(i32, i32)])
        ensures
            final(self).built_from(cells@),
            final(self)@.0.len() == cells.len(),
    {
        let n = cells.len();
        let ghost cs = cells@;
        let ghost ks = cell_keys(cs);

        // Bucket of every particle.
        let mut keys: Vec<usize> = Vec::with_capacity(n);
        for i in 0..n
            invariant
                n == cells.len(),
                cs == cells@,
                ks == cell_keys(cs),
                keys.len() == i,
                forall|j: int| 0 <= j < i ==> keys@[j] == ks[j],
        {
            let c = cells[i];
            keys.push(get_key_from_hash(hash_cell(c.0, c.1), n));
        }
        assert(keys@ == ks);
        assert forall|j: int| 0 <= j < n implies ks[j] < n by {
            assert(keys@[j] == ks[j]);
        }

        // Particles per bucket.
        let mut counts: Vec<usize> = Vec::with_capacity(n);
        for k in 0..n
            invariant
                counts.len() == k,
                forall|j: int| 0 <= j < k ==> counts@[j] == 0,
        {
            counts.push(0);
        }
        for i in 0..n
            invariant
                n == cells.len(),
                keys@ == ks,
                ks.len() == n,
                forall|j: int| 0 <= j < n ==> ks[j] < n,
                counts.len() == n,
                forall|k: int| 0 <= k < n ==> #[trigger] counts@[k] == count_key(ks, i as int, k),
        {
            let k = keys[i];
            proof {
                lemma_count_key_bound(ks, i as int, k as int);
            }
            let c = counts[k];
            counts.set(k, c + 1);
        }

        // First position of every bucket: the number of particles in smaller buckets.
        let mut starts: Vec<usize> = Vec::with_capacity(n);
        let mut acc: usize = 0;
        proof {
            lemma_count_less_zero(ks, n as int);
        }
        for k in 0..n
            invariant
                n == cells.len(),
                keys@ == ks,
                ks.len() == n,
                forall|j: int| 0 <= j < n ==> ks[j] < n,
                counts.len() == n,
                forall|kk: int| 0 <= kk < n ==> #[trigger] counts@[kk] == count_key(ks, n as int, kk),
                starts.len() == k,
                acc == count_less(ks, n as int, k as int),
                forall|kk: int| 0 <= kk < k ==> #[trigger] starts@[kk] == count_less(ks, n as int, kk),
        {
            starts.push(acc);
            proof {
                lemma_count_less_step(ks, n as int, k as int);
                lemma_count_less_mono(ks, n as int, k + 1, n as int);
                lemma_count_less_all(ks, n as int, n as int);
            }
            acc = acc + counts[k];
        }

        // Scatter every particle to its rank.
        let mut next: Vec<usize> = Vec::with_capacity(n);
        let mut lookup: Vec<GridEntry> = Vec::with_capacity(n);
        for k in 0..n
            invariant
                starts.len() == n,
                next.len() == k,
                lookup.len() == k,
                forall|kk: int| 0 <= kk < k ==> next@[kk] == starts@[kk],
        {
            next.push(starts[k]);
            lookup.push(GridEntry { cell_key: 0, particle_idx: 0 });
        }
        for i in 0..n
            invariant
                n == cells.len(),
                keys@ == ks,
                ks.len() == n,
                forall|j: int| 0 <= j < n ==> ks[j] < n,
                next.len() == n,
                lookup.len() == n,
                forall|k: int|
                    0 <= k < n ==> #[trigger] next@[k] == count_less(ks, n as int, k) + count_key(
                        ks,
                        i as int,
                        k,
                    ),
                forall|j: int|
                    0 <= j < i ==> #[trigger] lookup@[rank(ks, j)] == (GridEntry {
                        cell_key: ks[j],
                        particle_idx: j as usize,
                    }),
        {
            let k = keys[i];
            let pos = next[k];
            proof {
                lemma_rank_bound(ks, i as int);
                assert(pos == rank(ks, i as int));
            }
            let ghost old_lookup = lookup@;
            lookup.set(pos, GridEntry { cell_key: k, particle_idx: i });
            next.set(k, pos + 1);
            proof {
                assert forall|j: int| 0 <= j < i + 1 implies #[trigger] lookup@[rank(ks, j)] == (
                GridEntry { cell_key: ks[j], particle_idx: j as usize }) by {
                    lemma_rank_bound(ks, j);
                    if j < i {
                        lemma_rank_injective(ks, j, i as int);
                        assert(old_lookup[rank(ks, j)] == GridEntry {
                            cell_key: ks[j],
                            particle_idx: j as usize,
                        });
                    }
                }
            }
        }

        // Start index of every bucket, or the empty marker.
        let mut start_indices: Vec<usize> = Vec::with_capacity(n);
        for k in 0..n
            invariant
                n == cells.len(),
                ks.len() == n,
                counts.len() == n,
                starts.len() == n,
                forall|kk: int| 0 <= kk < n ==> #[trigger] counts@[kk] == count_key(ks, n as int, kk),
                forall|kk: int| 0 <= kk < n ==> #[trigger] starts@[kk] == count_less(ks, n as int, kk),
                start_indices.len() == k,
                forall|kk: int|
                    0 <= kk < k ==> #[trigger] start_indices@[kk] == if count_key(ks, n as int, kk)
                        > 0 {
                        count_less(ks, n as int, kk) as usize
                    } else {
                        EMPTY_BUCKET
                    },
        {
            if counts[k] > 0 {
                start_indices.push(starts[k]);
            } else {
                start_indices.push(EMPTY_BUCKET);
            }
        }

        proof {
            assert forall|p: int| 0 <= p < n implies (#[trigger] lookup@[p]).particle_idx < n
                && rank(ks, lookup@[p].particle_idx as int) == p by {
                let j = lemma_rank_onto(ks, p);
                assert(lookup@[rank(ks, j)] == GridEntry { cell_key: ks[j], particle_idx: j as usize });
            }
            assert forall|k: int| 0 <= k < n implies #[trigger] start_indices@[k] == EMPTY_BUCKET
                || start_indices@[k] < n by {
                if count_key(ks, n as int, k) > 0 {
                    lemma_count_less_step(ks, n as int, k);
                    lemma_count_less_mono(ks, n as int, k + 1, n as int);
                    lemma_count_less_all(ks, n as int, n as int);
                }
            }
        }
        *self = SpatialGrid { spatial_lookup: lookup, start_indices };
    }

    /// Appends to `res` the particles of cell `cur`, found by scanning the
    /// bucket of `cur` from its start index.
    fn collect_cell(&self, cells: &[(i32, i32)], cur: (i32, i32), res: &mut Vec<usize>)
        requires
            cells.len() > 0,
            self@.0.len() == cells.len(),
            self@.1.len() == cells.len(),
        ensures
            final(res)@.len() >= old(res)@.len(),
            final(res)@.subrange(0, old(res)@.len() as int) == old(res)@,
            forall|t: int|
                old(res)@.len() <= t < final(res)@.len() ==> (#[trigger] final(res)@[t])
                    < cells.len() && cells@[final(res)@[t] as int] == cur,
            self.built_from(cells@) ==> forall|j: int|
                0 <= j < cells.len() && #[trigger] cells@[j] == cur ==> final(res)@.contains(
                    j as usize,
                ),
            self.built_from(cells@) ==> forall|t1: int, t2: int|
                old(res)@.len() <= t1 < t2 < final(res)@.len() ==> #[trigger] final(res)@[t1]
                    < #[trigger] final(res)@[t2],
    {
        proof {
            use_type_invariant(self);
        }
        let n = cells.len();
        let ghost bf = self.built_from(cells@);
        let ghost ks = cell_keys(cells@);
        let ghost lk = self@.0;
        let ghost st = self@.1;
        let ghost old_res = res@;
        let key = get_key_from_hash(hash_cell(cur.0, cur.1), n);
        let start = self.start_indices[key];
        proof {
            if bf {
                assert(st[key as int] == if count_key(ks, n as int, key as int) > 0 {
                    count_less(ks, n as int, key as int) as usize
                } else {
                    EMPTY_BUCKET
                });
                lemma_count_less_mono(ks, n as int, key as int, n as int);
                assert forall|j: int| 0 <= j < n implies ks[j] < n by {}
                lemma_count_less_all(ks, n as int, n as int);
                lemma_count_less_step(ks, n as int, key as int);
                lemma_count_less_mono(ks, n as int, key + 1, n as int);
                assert forall|j: int| 0 <= j < n implies rank(ks, j) < n by {
                    lemma_rank_bound(ks, j);
                }
            }
        }
        if start == EMPTY_BUCKET {
            proof {
                if bf {
                    assert forall|j: int| 0 <= j < n && #[trigger] cells@[j] == cur implies res@.contains(
                        j as usize,
                    ) by {
                        assert(ks[j] == key);
                        lemma_count_key_mono(ks, j + 1, n as int, key as int);
                        assert(count_key(ks, n as int, key as int) > 0);
                    }
                }
                assert(res@.subrange(0, old_res.len() as int) =~= old_res);
            }
            return;
        }
        let mut i = start;
        while i < n
            invariant_except_break
                n == cells.len(),
                self.spatial_lookup.len() == n,
                self.start_indices.len() == n,
                bf == self.built_from(cells@),
                ks == cell_keys(cells@),
                lk == self@.0,
                start <= i <= n,
                key == spec_key_from_hash(spec_hash_cell(cur.0, cur.1), n),
                bf ==> start == count_less(ks, n as int, key as int),
                bf ==> forall|j: int| 0 <= j < n ==> #[trigger] rank(ks, j) < n,
                forall|p: int| start <= p < i ==> (#[trigger] lk[p]).cell_key == key,
                res@.len() >= old_res.len(),
                res@.subrange(0, old_res.len() as int) == old_res,
                forall|t: int|
                    old_res.len() <= t < res@.len() ==> (#[trigger] res@[t]) < n && cells@[res@[t] as int]
                        == cur && (bf ==> rank(ks, res@[t] as int) < i),
                bf ==> forall|j: int|
                    0 <= j < n && #[trigger] cells@[j] == cur && rank(ks, j) < i
                        ==> res@.contains(j as usize),
                bf ==> forall|t1: int, t2: int|
                    old_res.len() <= t1 < t2 < res@.len() ==> #[trigger] res@[t1]
                        < #[trigger] res@[t2],
            ensures
                res@.len() >= old_res.len(),
                res@.subrange(0, old_res.len() as int) == old_res,
                forall|t: int|
                    old_res.len() <= t < res@.len() ==> (#[trigger] res@[t]) < n && cells@[res@[t] as int]
                        == cur,
                bf ==> forall|j: int|
                    0 <= j < n && #[trigger] cells@[j] == cur ==> res@.contains(j as usize),
                bf ==> forall|t1: int, t2: int|
                    old_res.len() <= t1 < t2 < res@.len() ==> #[trigger] res@[t1]
                        < #[trigger] res@[t2],
            decreases n - i,
        {
            proof {
                use_type_invariant(self);
            }
            let entry = self.spatial_lookup[i];
            if entry.cell_key != key {
                proof {
                    if bf {
                        assert forall|j: int| 0 <= j < n && #[trigger] cells@[j] == cur implies res@.contains(
                            j as usize,
                        ) by {
                            self.lemma_bucket_scan_complete(cells@, cur, j, i as int);
                        }
                    }
                }
                break;
            }
            let idx = entry.particle_idx;
            let c = cells[idx];
            let ghost before = res@;
            if c.0 == cur.0 && c.1 == cur.1 {
                res.push(idx);
                proof {
                    assert(res@.subrange(0, old_res.len() as int) =~= before.subrange(
                        0,
                        old_res.len() as int,
                    ));
                    if bf {
                        assert(rank(ks, idx as int) == i);
                        assert forall|t: int| old_res.len() <= t < before.len() implies before[t]
                            < idx by {
                            let a = before[t] as int;
                            assert(cells@[a] == cur);
                            assert(ks[a] == ks[idx as int]);
                            if a >= idx {
                                if a > idx {
                                    lemma_rank_order(ks, idx as int, a);
                                }
                            }
                        }
                        assert forall|t1: int, t2: int|
                            old_res.len() <= t1 < t2 < res@.len() implies #[trigger] res@[t1]
                            < #[trigger] res@[t2] by {
                            if t2 == res@.len() - 1 {
                                assert(res@[t1] == before[t1]);
                            } else {
                                assert(res@[t1] == before[t1]);
                                assert(res@[t2] == before[t2]);
                            }
                        }
                    }
                }
            }
            proof {
                if bf {
                    assert forall|j: int|
                        0 <= j < n && #[trigger] cells@[j] == cur && rank(ks, j) < i
                            + 1 implies res@.contains(j as usize) by {
                        if rank(ks, j) == i {
                            assert(lk[rank(ks, j)] == GridEntry {
                                cell_key: ks[j],
                                particle_idx: j as usize,
                            });
                            assert(res@[res@.len() - 1] == j as usize);
                        } else {
                            assert(before.contains(j as usize));
                            let t = choose|t: int| 0 <= t < before.len() && before[t] == j as usize;
                            assert(res@[t] == j as usize);
                        }
                    }
                }
            }
            i = i + 1;
        }
    }

    /// The particles whose cell is `center` or one of its eight neighbours,
    /// found through the buckets of those nine cells.
    ///
    /// Every returned particle lies in the 3x3 block; when the grid was built
    /// from `cells`, every particle of the block is returned, once, cell by
    /// cell in the block's visiting order and by index within a cell.
    pub fn neighbor_candidates(&self, cells: &[(i32, i32)], center: (i32, i32)) -> (res: Vec<
        usize,
    >)
        requires
            cells.len() > 0 && self@.0.len() == cells.len() ==> i32::MIN < center.0 < i32::MAX
                && i32::MIN < center.1 < i32::MAX,
        ensures
            cells.len() == 0 || self@.0.len() != cells.len() ==> res.len() == 0,
            forall|t: int|
                0 <= t < res.len() ==> (#[trigger] res@[t]) < cells.len() && in_block(
                    cells@[res@[t] as int],
                    center,
                ),
            self.built_from(cells@) ==> forall|j: int|
                0 <= j < cells.len() && #[trigger] in_block(cells@[j], center) ==> res@.contains(
                    j as usize,
                ),
            self.built_from(cells@) ==> res@.no_duplicates(),
            self.built_from(cells@) ==> forall|t1: int, t2: int|
                0 <= t1 < t2 < res.len() ==> block_before(
                    cells@,
                    center,
                    #[trigger] res@[t1] as int,
                    #[trigger] res@[t2] as int,
                ),
    {
        let n = cells.len();
        let mut res: Vec<usize> = Vec::new();
        proof {
            use_type_invariant(self);
        }
        if n == 0 || self.spatial_lookup.len() != n || self.start_indices.len() != n {
            return res;
        }
        let ghost bf = self.built_from(cells@);
        for o in 0..9
            invariant
                n == cells.len(),
                n > 0,
                self@.0.len() == n,
                self@.1.len() == n,
                bf == self.built_from(cells@),
                i32::MIN < center.0 < i32::MAX,
                i32::MIN < center.1 < i32::MAX,
                forall|t: int|
                    0 <= t < res.len() ==> (#[trigger] res@[t]) < n && in_block(
                        cells@[res@[t] as int],
                        center,
                    ) && block_order(cells@[res@[t] as int], center) < o,
                bf ==> forall|j: int|
                    0 <= j < n && #[trigger] in_block(cells@[j], center) && block_order(
                        cells@[j],
                        center,
                    ) < o ==> res@.contains(j as usize),
                bf ==> res@.no_duplicates(),
                bf ==> forall|t1: int, t2: int|
                    0 <= t1 < t2 < res.len() ==> block_before(
                        cells@,
                        center,
                        #[trigger] res@[t1] as int,
                        #[trigger] res@[t2] as int,
                    ),
        {
            let off = cell_offset(o);
            let cur: (i32, i32) = (center.0 + off.0, center.1 + off.1);
            assert(block_order(cur, center) == o);
            let ghost before = res@;
            self.collect_cell(cells, cur, &mut res);
            proof {
                assert forall|t: int| 0 <= t < before.len() implies res@[t] == before[t] by {
                    assert(res@.subrange(0, before.len() as int)[t] == before[t]);
                }
                assert forall|t: int| 0 <= t < res.len() implies (#[trigger] res@[t]) < n
                    && in_block(cells@[res@[t] as int], center) && block_order(
                    cells@[res@[t] as int],
                    center,
                ) < o + 1 by {
                    if t < before.len() {
                        assert(res@[t] == before[t]);
                    }
                }
                if bf {
                    assert forall|j: int|
                        0 <= j < n && #[trigger] in_block(cells@[j], center) && block_order(
                            cells@[j],
                            center,
                        ) < o + 1 implies res@.contains(j as usize) by {
                        if block_order(cells@[j], center) < o {
                            let t = choose|t: int| 0 <= t < before.len() && before[t] == j as usize;
                            assert(res@[t] == j as usize);
                        } else {
                            assert(cells@[j] == cur);
                        }
                    }
                    assert forall|t1: int, t2: int|
                        0 <= t1 < res.len() && 0 <= t2 < res.len() && t1 != t2 implies res@[t1]
                        != res@[t2] by {
                        if t1 < before.len() && t2 < before.len() {
                            assert(res@[t1] == before[t1]);
                            assert(res@[t2] == before[t2]);
                        } else if t1 < before.len() {
                            assert(res@[t1] == before[t1]);
                            assert(block_order(cells@[before[t1] as int], center) < o);
                        } else if t2 < before.len() {
                            assert(res@[t2] == before[t2]);
                            assert(block_order(cells@[before[t2] as int], center) < o);
                        } else if t1 < t2 {
                            assert(res@[t1] != res@[t2]);
                        } else {
                            assert(res@[t2] != res@[t1]);
                        }
                    }
                    assert forall|t1: int, t2: int| 0 <= t1 < t2 < res.len() implies block_before(
                        cells@,
                        center,
                        #[trigger] res@[t1] as int,
                        #[trigger] res@[t2] as int,
                    ) by {
                        if t2 < before.len() {
                            assert(res@[t1] == before[t1]);
                            assert(res@[t2] == before[t2]);
                        } else if t1 < before.len() {
                            assert(res@[t1] == before[t1]);
                            assert(block_order(cells@[before[t1] as int], center) < o);
                            assert(cells@[res@[t2] as int] == cur);
                        } else {
                            assert(cells@[res@[t1] as int] == cur);
                            assert(cells@[res@[t2] as int] == cur);
                            assert(res@[t1] < res@[t2]);
                        }
                    }
                }
            }
        }
        proof {
            if bf {
                assert forall|j: int|
                    0 <= j < n && #[trigger] in_block(cells@[j], center) implies res@.contains(
                    j as usize,
                ) by {
                    assert(block_order(cells@[j], center) < 9);
                }
            }
        }
        res
    }

    /// A particle of cell `cur` lies before the first position, at or after
    /// the start of its bucket, whose bucket differs from that of `cur`.
    proof fn lemma_bucket_scan_complete(
        self,
        cells: Seq<(i32, i32)>,
        cur: (i32, i32),
        j: int,
        i: int,
    )
        requires
            self.built_from(cells),
            0 <= j < cells.len(),
            cells[j] == cur,
            0 <= i < cells.len(),
            self@.0[i].cell_key != cell_keys(cells)[j],
            count_less(cell_keys(cells), cells.len() as int, cell_keys(cells)[j] as int) <= i,
            forall|p: int|
                count_less(cell_keys(cells), cells.len() as int, cell_keys(cells)[j] as int) <= p
                    < i ==> (#[trigger] self@.0[p]).cell_key == cell_keys(cells)[j],
        ensures
            rank(cell_keys(cells), j) < i,
    {
        let ks = cell_keys(cells);
        let n = cells.len() as int;
        let k = ks[j] as int;
        lemma_rank_range(ks, j);
        if rank(ks, j) >= i {
            lemma_position_bucket(self@.0, ks, i, k);
        }
    }
}

/// Law: a grid built from `cells` lists every particle exactly once, sorted
/// by bucket, with particles of the same bucket in index order, each slot
/// carrying the bucket of its particle's cell.
pub proof fn lemma_lookup_sorted_permutation(grid: SpatialGrid, cells: Seq<(i32, i32)>)
    requires
        grid.built_from(cells),
        cells.len() <= usize::MAX,
    ensures
        grid@.0.len() == cells.len(),
        forall|p: int|
            0 <= p < cells.len() ==> (#[trigger] grid@.0[p]).particle_idx < cells.len()
                && grid@.0[p].cell_key == cell_keys(cells)[grid@.0[p].particle_idx as int],
        forall|p: int, q: int|
            0 <= p < q < cells.len() ==> (#[trigger] grid@.0[p]).cell_key < (
            #[trigger] grid@.0[q]).cell_key || (grid@.0[p].cell_key == grid@.0[q].cell_key
                && grid@.0[p].particle_idx < grid@.0[q].particle_idx),
        forall|j: int| 0 <= j < cells.len() ==> #[trigger] lists_particle(grid@.0, j),
{
    let ks = cell_keys(cells);
    let lk = grid@.0;
    let n = cells.len() as int;
    assert forall|p: int| 0 <= p < n implies (#[trigger] lk[p]).particle_idx < n
        && lk[p].cell_key == ks[lk[p].particle_idx as int] by {
        let j = lk[p].particle_idx as int;
        assert(lk[rank(ks, j)] == GridEntry { cell_key: ks[j], particle_idx: j as usize });
    }
    assert forall|p: int, q: int| 0 <= p < q < n implies (#[trigger] lk[p]).cell_key < (
    #[trigger] lk[q]).cell_key || (lk[p].cell_key == lk[q].cell_key && lk[p].particle_idx
        < lk[q].particle_idx) by {
        let a = lk[p].particle_idx as int;
        let b = lk[q].particle_idx as int;
        assert(lk[rank(ks, a)] == GridEntry { cell_key: ks[a], particle_idx: a as usize });
        assert(lk[rank(ks, b)] == GridEntry { cell_key: ks[b], particle_idx: b as usize });
        if ks[b] < ks[a] || (ks[a] == ks[b] && b < a) {
            lemma_rank_order(ks, b, a);
        }
    }
    assert forall|j: int| 0 <= j < n implies #[trigger] lists_particle(lk, j) by {
        assert forall|i: int| 0 <= i < n implies ks[i] < n by {}
        lemma_rank_bound(ks, j);
        let p = rank(ks, j);
        assert(lk[p] == GridEntry { cell_key: ks[j], particle_idx: j as usize });
        assert(lk[p].particle_idx == j);
    }
}

/// Law: the start index of a bucket is the first slot holding that bucket
/// (every earlier slot holds a smaller bucket), and a bucket is marked empty
/// exactly when no particle's cell hashes into it.
pub proof fn lemma_start_index_is_first_slot(grid: SpatialGrid, cells: Seq<(i32, i32)>, k: int)
    requires
        grid.built_from(cells),
        cells.len() <= usize::MAX,
        0 <= k < cells.len(),
    ensures
        (grid@.1[k] == EMPTY_BUCKET) <==> (forall|j: int|
            0 <= j < cells.len() ==> #[trigger] cell_keys(cells)[j] != k),
        grid@.1[k] != EMPTY_BUCKET ==> grid@.1[k] < cells.len() && grid@.0[grid@.1[k] as int].cell_key
            == k && forall|p: int| 0 <= p < grid@.1[k] ==> (#[trigger] grid@.0[p]).cell_key < k,
{
    let ks = cell_keys(cells);
    let lk = grid@.0;
    let n = cells.len() as int;
    assert forall|i: int| 0 <= i < n implies ks[i] < n by {}
    lemma_count_less_step(ks, n, k);
    lemma_count_less_mono(ks, n, k + 1, n);
    lemma_count_less_all(ks, n, n);
    assert(grid@.1[k] == if count_key(ks, n, k) > 0 {
        count_less(ks, n, k) as usize
    } else {
        EMPTY_BUCKET
    });
    if count_key(ks, n, k) > 0 {
        let j = lemma_find_occurrence(ks, n, k, 0);
        assert(ks[j] == k);
        lemma_position_bucket(lk, ks, count_less(ks, n, k) as int, k);
        assert forall|p: int| 0 <= p < grid@.1[k] implies (#[trigger] lk[p]).cell_key < k by {
            lemma_count_less_zero(ks, n);
            let b = lemma_find_bucket(ks, p, 0);
            lemma_position_bucket(lk, ks, p, b);
            if b >= k {
                lemma_count_less_mono(ks, n, k, b);
            }
        }
    } else {
        assert forall|j: int| 0 <= j < n implies #[trigger] ks[j] != k by {
            if ks[j] == k {
                lemma_count_key_mono(ks, j + 1, n, k);
            }
        }
    }
}

} // verus!
