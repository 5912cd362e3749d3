//! How large the blocks are in which a zoom level is rendered.
use vstd::arithmetic::power2::{lemma2_to64, lemma_pow2_unfold, pow2};
use vstd::prelude::*;

use crate::jobs::{TileJob, TileRange};
use crate::options::{ChunkTiles, RasterOptions};

verus! {

/// Blocks that each worker should get.
pub const DEFAULT_AUTO_CHUNK_TARGETS_PER_WORKER: u64 = 8;

/// Least and greatest memory that a block may take, where its size is chosen.
pub const AUTO_CHUNK_MIN_BYTES: u64 = 0x200_0000;

pub const AUTO_CHUNK_MAX_BYTES: u64 = 0x1000_0000;

/// Least and greatest space that is kept free for directories.
pub const MIN_RESERVED_DIRECTORY_BYTES: u64 = 0x1_0000;

pub const MAX_RESERVED_DIRECTORY_BYTES: u64 = 0x100_0000;

pub open spec fn least(a: int, b: int) -> int {
    if a < b {
        a
    } else {
        b
    }
}

pub open spec fn greatest(a: int, b: int) -> int {
    if a > b {
        a
    } else {
        b
    }
}

fn smaller(a: u64, b: u64) -> (r: u64)
    ensures
        r == least(a as int, b as int),
{
    if a < b {
        a
    } else {
        b
    }
}

fn larger(a: u64, b: u64) -> (r: u64)
    ensures
        r == greatest(a as int, b as int),
{
    if a > b {
        a
    } else {
        b
    }
}

/// The product, or the greatest number where that is larger.
fn saturating_product(a: u64, b: u64) -> (r: u64)
    ensures
        r == least(a * b, u64::MAX as int),
{
    match a.checked_mul(b) {
        Some(v) => v,
        None => u64::MAX,
    }
}

/// Space for the directories of so many tiles.
pub open spec fn reserved_space(tile_count: nat) -> int {
    greatest(
        MIN_RESERVED_DIRECTORY_BYTES as int,
        least(24 * tile_count as int, MAX_RESERVED_DIRECTORY_BYTES as int),
    )
}

/// Space that is kept free for the directories of so many tiles.
pub fn reserved_directory_bytes(tile_count: usize) -> (r: u64)
    ensures
        r == reserved_space(tile_count as nat),
{
    let estimate: u64 = saturating_product(tile_count as u64, 24);
    larger(MIN_RESERVED_DIRECTORY_BYTES, smaller(estimate, MAX_RESERVED_DIRECTORY_BYTES))
}

/// Workers that are of use for so many items.
pub open spec fn useful_workers(workers: nat, items: nat) -> int {
    least(greatest(workers as int, 1), greatest(items as int, 1))
}

/// Workers that are started for so many items.
pub fn worker_count(workers: usize, items: usize) -> (r: usize)
    ensures
        r == useful_workers(workers as nat, items as nat),
        r >= 1,
{
    let workers: usize = if workers > 1 {
        workers
    } else {
        1
    };
    let items: usize = if items > 1 {
        items
    } else {
        1
    };
    if workers < items {
        workers
    } else {
        items
    }
}

/// The smallest range that covers all jobs; that of one tile in the corner where there are none.
pub open spec fn is_extent(jobs: Seq<TileJob>, range: TileRange) -> bool {
    if jobs.len() == 0 {
        range == (TileRange { min_x: 0, max_x: 0, min_y: 0, max_y: 0 })
    } else {
        &&& forall|i: int|
            0 <= i < jobs.len() ==> range.covers(
                (#[trigger] jobs[i]).x as int,
                jobs[i].y as int,
            )
        &&& exists|i: int| 0 <= i < jobs.len() && (#[trigger] jobs[i]).x == range.min_x
        &&& exists|i: int| 0 <= i < jobs.len() && (#[trigger] jobs[i]).x == range.max_x
        &&& exists|i: int| 0 <= i < jobs.len() && (#[trigger] jobs[i]).y == range.min_y
        &&& exists|i: int| 0 <= i < jobs.len() && (#[trigger] jobs[i]).y == range.max_y
    }
}

/// The smallest range that covers all jobs.
pub open spec fn extent_of(jobs: Seq<TileJob>) -> TileRange {
    choose|range: TileRange| is_extent(jobs, range)
}

/// The smallest range that covers all jobs.
pub fn tile_extent(jobs: &[TileJob]) -> (r: TileRange)
    ensures
        is_extent(jobs@, r),
        r == extent_of(jobs@),
{
    if jobs.len() == 0 {
        let r = TileRange { min_x: 0, max_x: 0, min_y: 0, max_y: 0 };
        proof {
            assert(is_extent(jobs@, r));
            law_extent_is_unique(jobs@, r, extent_of(jobs@));
        }
        return r;
    }
    let first = jobs[0];
    let mut r = TileRange { min_x: first.x, max_x: first.x, min_y: first.y, max_y: first.y };
    let total: usize = jobs.len();
    let mut i: usize = 1;
    assert(jobs@.take(1)[0] == first);
    while i < total
        invariant
            1 <= i <= total == jobs@.len(),
            is_extent(jobs@.take(i as int), r),
        decreases total - i,
    {
        let job = jobs[i];
        let ghost before = jobs@.take(i as int);
        let ghost after = jobs@.take(i + 1);
        let ghost old_r = r;
        if job.x < r.min_x {
            r.min_x = job.x;
        }
        if job.x > r.max_x {
            r.max_x = job.x;
        }
        if job.y < r.min_y {
            r.min_y = job.y;
        }
        if job.y > r.max_y {
            r.max_y = job.y;
        }
        proof {
            let a = choose|k: int| 0 <= k < before.len() && (#[trigger] before[k]).x == old_r.min_x;
            let b = choose|k: int| 0 <= k < before.len() && (#[trigger] before[k]).x == old_r.max_x;
            let c = choose|k: int| 0 <= k < before.len() && (#[trigger] before[k]).y == old_r.min_y;
            let d = choose|k: int| 0 <= k < before.len() && (#[trigger] before[k]).y == old_r.max_y;
            assert(after[i as int] == job);
            assert(after[a] == before[a] && after[b] == before[b] && after[c] == before[c]
                && after[d] == before[d]);
            assert forall|k: int| 0 <= k < after.len() implies r.covers(
                (#[trigger] after[k]).x as int,
                after[k].y as int,
            ) by {
                if k < i {
                    assert(after[k] == before[k]);
                }
            }
        }
        i = i + 1;
    }
    assert(jobs@.take(total as int) =~= jobs@);
    proof {
        law_extent_is_unique(jobs@, r, extent_of(jobs@));
    }
    r
}

/// There is only one smallest range.
pub proof fn law_extent_is_unique(jobs: Seq<TileJob>, a: TileRange, b: TileRange)
    requires
        is_extent(jobs, a),
        is_extent(jobs, b),
    ensures
        a == b,
{
    if jobs.len() > 0 {
        let i = choose|k: int| 0 <= k < jobs.len() && (#[trigger] jobs[k]).x == a.min_x;
        let j = choose|k: int| 0 <= k < jobs.len() && (#[trigger] jobs[k]).x == b.min_x;
        assert(a.min_x == b.min_x);
        let i = choose|k: int| 0 <= k < jobs.len() && (#[trigger] jobs[k]).x == a.max_x;
        let j = choose|k: int| 0 <= k < jobs.len() && (#[trigger] jobs[k]).x == b.max_x;
        assert(a.max_x == b.max_x);
        let i = choose|k: int| 0 <= k < jobs.len() && (#[trigger] jobs[k]).y == a.min_y;
        let j = choose|k: int| 0 <= k < jobs.len() && (#[trigger] jobs[k]).y == b.min_y;
        assert(a.min_y == b.min_y);
        let i = choose|k: int| 0 <= k < jobs.len() && (#[trigger] jobs[k]).y == a.max_y;
        let j = choose|k: int| 0 <= k < jobs.len() && (#[trigger] jobs[k]).y == b.max_y;
        assert(a.max_y == b.max_y);
    }
}

impl TileRange {
    /// Number of columns.
    pub open spec fn columns(self) -> int {
        self.max_x - self.min_x + 1
    }

    /// Number of rows.
    pub open spec fn rows(self) -> int {
        self.max_y - self.min_y + 1
    }
}

/// Number of pieces of length `size` that are needed to cover `len`.
pub open spec fn pieces(len: int, size: int) -> int
    recommends
        size > 0,
{
    (len + size - 1) / size
}

fn div_ceil(len: u32, size: u32) -> (r: u64)
    requires
        size > 0,
    ensures
        r == pieces(len as int, size as int),
        r <= len,
{
    let r: u64 = (len as u64 + size as u64 - 1) / size as u64;
    assert(r <= len) by (nonlinear_arith)
        requires
            size > 0,
            r == (len + size - 1) / (size as int),
    ;
    r
}

/// Number of blocks that cover a rectangle of tiles.
pub open spec fn blocks(width_tiles: int, height_tiles: int, chunk_tiles: int) -> int {
    pieces(width_tiles, greatest(chunk_tiles, 1)) * pieces(height_tiles, greatest(chunk_tiles, 1))
}

/// Number of blocks that cover a rectangle of tiles.
pub fn chunk_count(width_tiles: u32, height_tiles: u32, chunk_tiles: u32) -> (r: u64)
    ensures
        r == blocks(width_tiles as int, height_tiles as int, chunk_tiles as int),
{
    let size: u32 = if chunk_tiles > 1 {
        chunk_tiles
    } else {
        1
    };
    let a: u64 = div_ceil(width_tiles, size);
    let b: u64 = div_ceil(height_tiles, size);
    assert(a * b <= 0xffff_ffff * 0xffff_ffff) by (nonlinear_arith)
        requires
            0 <= a <= 0xffff_ffff,
            0 <= b <= 0xffff_ffff,
    ;
    a * b
}

/// Bytes that are taken by a block of so many tiles: two copies of four bands, or the greatest
/// number where that is less.
pub open spec fn block_bytes(tile_size: int, width_tiles: int, height_tiles: int) -> int {
    least((width_tiles * tile_size) * (height_tiles * tile_size) * 8, u64::MAX as int)
}

/// Bytes that are taken while a block of so many tiles is rendered: its pixels in four bands,
/// once as output and once as they are read.
pub fn estimate_chunk_bytes_for_span(tile_size: u32, width_tiles: u32, height_tiles: u32) -> (r:
    u64)
    ensures
        r == block_bytes(tile_size as int, width_tiles as int, height_tiles as int),
{
    assert(width_tiles * tile_size <= 0xffff_ffff * 0xffff_ffff) by (nonlinear_arith)
        requires
            width_tiles <= 0xffff_ffff,
            tile_size <= 0xffff_ffff,
    ;
    assert(height_tiles * tile_size <= 0xffff_ffff * 0xffff_ffff) by (nonlinear_arith)
        requires
            height_tiles <= 0xffff_ffff,
            tile_size <= 0xffff_ffff,
    ;
    let width: u64 = width_tiles as u64 * tile_size as u64;
    let height: u64 = height_tiles as u64 * tile_size as u64;
    let pixels: u64 = saturating_product(width, height);
    let bytes: u64 = saturating_product(pixels, 4);
    let both: u64 = saturating_product(bytes, 2);
    assert(width * height >= 0) by (nonlinear_arith);
    both
}

/// Greatest place that a column has within its block; 0 where there are no jobs.
pub open spec fn greatest_column(jobs: Seq<TileJob>, chunk_tiles: int) -> int
    decreases jobs.len(),
{
    if jobs.len() == 0 {
        0
    } else {
        greatest(
            greatest_column(jobs.drop_last(), chunk_tiles),
            jobs.last().x as int % chunk_tiles,
        )
    }
}

/// Greatest place that a row has within its block; 0 where there are no jobs.
pub open spec fn greatest_row(jobs: Seq<TileJob>, chunk_tiles: int) -> int
    decreases jobs.len(),
{
    if jobs.len() == 0 {
        0
    } else {
        greatest(
            greatest_row(jobs.drop_last(), chunk_tiles),
            jobs.last().y as int % chunk_tiles,
        )
    }
}

/// Bytes that the largest block of a zoom level takes.
pub open spec fn working_set(tile_size: int, jobs: Seq<TileJob>, chunk_tiles: int) -> int {
    block_bytes(
        tile_size,
        greatest_column(jobs, chunk_tiles) + 1,
        greatest_row(jobs, chunk_tiles) + 1,
    )
}

/// Bytes that the largest block of a zoom level takes.
pub fn estimate_chunk_working_set(tile_size: u32, zoom_jobs: &[TileJob], chunk_tiles: u32) -> (r:
    u64)
    requires
        chunk_tiles > 0,
    ensures
        r == working_set(tile_size as int, zoom_jobs@, chunk_tiles as int),
{
    let mut w: u32 = 0;
    let mut h: u32 = 0;
    let total: usize = zoom_jobs.len();
    let mut i: usize = 0;
    assert(zoom_jobs@.take(0) =~= Seq::empty());
    while i < total
        invariant
            chunk_tiles > 0,
            i <= total == zoom_jobs@.len(),
            w < chunk_tiles,
            h < chunk_tiles,
            w == greatest_column(zoom_jobs@.take(i as int), chunk_tiles as int),
            h == greatest_row(zoom_jobs@.take(i as int), chunk_tiles as int),
        decreases total - i,
    {
        let x: u32 = zoom_jobs[i].x % chunk_tiles;
        let y: u32 = zoom_jobs[i].y % chunk_tiles;
        assert(zoom_jobs@.take(i + 1).drop_last() =~= zoom_jobs@.take(i as int));
        if x > w {
            w = x;
        }
        if y > h {
            h = y;
        }
        i = i + 1;
    }
    assert(zoom_jobs@.take(total as int) =~= zoom_jobs@);
    estimate_chunk_bytes_for_span(tile_size, w + 1, h + 1)
}

/// The smallest power of two that is not below the number.
pub open spec fn power_from(m: nat) -> nat
    decreases m,
{
    if m <= 1 {
        1
    } else {
        2 * power_from(((m + 1) / 2) as nat)
    }
}

fn next_power_of_two(m: u64) -> (r: u64)
    requires
        m <= 0x8000_0000,
    ensures
        r == power_from(m as nat),
        r <= 0x8000_0000,
    decreases m,
{
    proof {
        lemma2_to64();
        lemma_power_from_bound(m as nat, 31);
    }
    if m <= 1 {
        1
    } else {
        let half: u64 = next_power_of_two((m + 1) / 2);
        2 * half
    }
}

proof fn lemma_power_from_bound(m: nat, k: nat)
    requires
        m <= pow2(k),
    ensures
        1 <= power_from(m) <= pow2(k),
    decreases k,
{
    lemma2_to64();
    if m > 1 {
        if k == 0 {
        } else {
            lemma_pow2_unfold(k);
            lemma_power_from_bound(((m + 1) / 2) as nat, (k - 1) as nat);
        }
    } else {
        vstd::arithmetic::power2::lemma_pow2_pos(k);
    }
}

/// What decides about the size of blocks.
pub ghost struct ChunkGoal {
    pub width_tiles: nat,
    pub height_tiles: nat,
    pub tile_size: nat,
    /// Blocks that there should be at most.
    pub target_chunks: int,
    /// Bytes that a block should take at most.
    pub memory_budget: int,
}

impl ChunkGoal {
    pub open spec fn blocks(self, size: nat) -> int {
        blocks(self.width_tiles as int, self.height_tiles as int, size as int)
    }

    pub open spec fn bytes(self, size: nat) -> int {
        block_bytes(self.tile_size as int, size as int, size as int)
    }

    /// Size beyond which one block covers everything.
    pub open spec fn limit(self) -> nat {
        power_from(greatest(self.width_tiles as int, self.height_tiles as int) as nat)
    }

    /// Doubles the size while there are too many blocks and the doubled size is of use.
    pub open spec fn grown(self, size: nat) -> nat
        decreases self.limit() - size,
    {
        if size == 0 || self.blocks(size) <= self.target_chunks || 2 * size > self.limit()
            || self.bytes(2 * size) > self.memory_budget {
            size
        } else {
            self.grown(2 * size)
        }
    }

    /// Halves the size while a block takes too much memory.
    pub open spec fn shrunk(self, size: nat) -> nat
        decreases size,
    {
        if size > 1 && self.bytes(size) > self.memory_budget {
            self.shrunk(size / 2)
        } else {
            size
        }
    }

    /// The size of blocks that is chosen.
    pub open spec fn size(self) -> nat {
        self.shrunk(self.grown(4))
    }
}

/// The goal for the jobs of a zoom level that lie in the given range.
pub open spec fn chunk_goal(
    workers: nat,
    tile_size: nat,
    warp_memory_bytes: nat,
    job_count: nat,
    range: TileRange,
) -> ChunkGoal {
    let tile_count = greatest(job_count as int, 1);
    ChunkGoal {
        width_tiles: range.columns() as nat,
        height_tiles: range.rows() as nat,
        tile_size,
        target_chunks: least(
            DEFAULT_AUTO_CHUNK_TARGETS_PER_WORKER * useful_workers(workers, job_count),
            tile_count,
        ),
        memory_budget: greatest(
            AUTO_CHUNK_MIN_BYTES as int,
            least(warp_memory_bytes as int / 2, AUTO_CHUNK_MAX_BYTES as int),
        ),
    }
}

/// The size of blocks that is chosen for the jobs of a zoom level.
pub open spec fn auto_size(opts: RasterOptions, jobs: Seq<TileJob>) -> nat {
    chunk_goal(
        opts.workers as nat,
        opts.tile_size as nat,
        opts.warp_memory_bytes as nat,
        jobs.len(),
        extent_of(jobs),
    ).size()
}

/// The size of blocks for a zoom level; none where it is rendered in one piece.
pub open spec fn chunk_size(opts: RasterOptions, jobs: Seq<TileJob>) -> Option<u32> {
    match opts.chunk_tiles {
        ChunkTiles::Disabled => None,
        ChunkTiles::Fixed(chunk_tiles) => Some(chunk_tiles),
        ChunkTiles::Auto => Some(auto_size(opts, jobs) as u32),
    }
}

/// The indices of the jobs are those of zoom levels up to 31.
pub open spec fn indices_in_reach(jobs: Seq<TileJob>) -> bool {
    forall|i: int|
        0 <= i < jobs.len() ==> (#[trigger] jobs[i]).x < 0x8000_0000 && jobs[i].y < 0x8000_0000
}

/// Chooses the size of blocks so that each worker gets several of them and none takes too much
/// memory.
pub fn auto_chunk_tiles(opts: &RasterOptions, zoom_jobs: &[TileJob]) -> (r: u32)
    requires
        indices_in_reach(zoom_jobs@),
    ensures
        r == auto_size(*opts, zoom_jobs@),
        r >= 1,
{
    let range = tile_extent(zoom_jobs);
    let count: usize = zoom_jobs.len();
    let ghost goal = chunk_goal(
        opts.workers as nat,
        opts.tile_size as nat,
        opts.warp_memory_bytes as nat,
        zoom_jobs@.len(),
        range,
    );
    let tile_count: u64 = larger(count as u64, 1);
    let workers: usize = worker_count(opts.workers, count);
    let wanted: u64 = saturating_product(DEFAULT_AUTO_CHUNK_TARGETS_PER_WORKER, workers as u64);
    let target_chunks: u64 = smaller(wanted, tile_count);
    let width_tiles: u32 = range.max_x - range.min_x + 1;
    let height_tiles: u32 = range.max_y - range.min_y + 1;
    let memory_budget: u64 = larger(
        AUTO_CHUNK_MIN_BYTES,
        smaller(opts.warp_memory_bytes / 2, AUTO_CHUNK_MAX_BYTES),
    );
    let limit: u64 = next_power_of_two(larger(width_tiles as u64, height_tiles as u64));

    let mut chunk_tiles: u32 = 4;
    while chunk_count(width_tiles, height_tiles, chunk_tiles) > target_chunks
        invariant_except_break
            4 <= chunk_tiles <= 0x8000_0000,
            limit <= 0x8000_0000,
            width_tiles == goal.width_tiles,
            height_tiles == goal.height_tiles,
            opts.tile_size == goal.tile_size,
            target_chunks == goal.target_chunks,
            memory_budget == goal.memory_budget,
            limit == goal.limit(),
            goal.grown(chunk_tiles as nat) == goal.grown(4),
        ensures
            4 <= chunk_tiles,
            chunk_tiles == goal.grown(4),
        decreases 0x1_0000_0000 - chunk_tiles,
    {
        if 2 * chunk_tiles as u64 > limit {
            break;
        }
        let next: u32 = 2 * chunk_tiles;
        if estimate_chunk_bytes_for_span(opts.tile_size, next, next) > memory_budget {
            break;
        }
        chunk_tiles = next;
    }
    while chunk_tiles > 1 && estimate_chunk_bytes_for_span(opts.tile_size, chunk_tiles, chunk_tiles)
        > memory_budget
        invariant
            chunk_tiles >= 1,
            opts.tile_size == goal.tile_size,
            memory_budget == goal.memory_budget,
            goal.shrunk(chunk_tiles as nat) == goal.shrunk(goal.grown(4)),
        decreases chunk_tiles,
    {
        chunk_tiles = chunk_tiles / 2;
    }
    chunk_tiles
}

/// The size of blocks for a zoom level; none where it is rendered in one piece.
pub fn chunk_tiles_for_zoom(opts: &RasterOptions, zoom_jobs: &[TileJob]) -> (r: Option<u32>)
    requires
        indices_in_reach(zoom_jobs@),
    ensures
        r == chunk_size(*opts, zoom_jobs@),
{
    match opts.chunk_tiles {
        ChunkTiles::Disabled => None,
        ChunkTiles::Fixed(chunk_tiles) => Some(chunk_tiles),
        ChunkTiles::Auto => Some(auto_chunk_tiles(opts, zoom_jobs)),
    }
}

proof fn lemma_grown(goal: ChunkGoal, size: nat, k: nat)
    requires
        size == pow2(k),
        size >= 4,
        size > 4 ==> goal.blocks((size / 2) as nat) > goal.target_chunks,
        size > 4 ==> goal.bytes(size) <= goal.memory_budget,
    ensures
        exists|j: nat| goal.grown(size) == #[trigger] pow2(j),
        goal.grown(size) >= 4,
        goal.grown(size) > 4 ==> goal.blocks((goal.grown(size) / 2) as nat) > goal.target_chunks,
        goal.grown(size) > 4 ==> goal.bytes(goal.grown(size)) <= goal.memory_budget,
    decreases goal.limit() - size,
{
    if goal.blocks(size) <= goal.target_chunks || 2 * size > goal.limit() || goal.bytes(2 * size)
        > goal.memory_budget {
        assert(goal.grown(size) == pow2(k));
    } else {
        lemma_pow2_unfold(k + 1);
        assert((2 * size) / 2 == size);
        lemma_grown(goal, 2 * size, k + 1);
    }
}

proof fn lemma_shrunk(goal: ChunkGoal, size: nat, k: nat)
    requires
        size == pow2(k),
    ensures
        exists|j: nat| goal.shrunk(size) == #[trigger] pow2(j),
        goal.shrunk(size) == 1 || goal.bytes(goal.shrunk(size)) <= goal.memory_budget,
        goal.shrunk(size) <= size,
    decreases size,
{
    vstd::arithmetic::power2::lemma_pow2_pos(k);
    if size > 1 && goal.bytes(size) > goal.memory_budget {
        lemma2_to64();
        assert(k > 0);
        lemma_pow2_unfold(k);
        lemma_shrunk(goal, size / 2, (k - 1) as nat);
    } else {
        assert(goal.shrunk(size) == pow2(k));
    }
}

/// The size of blocks that is chosen is a power of two. A block keeps to the memory budget,
/// unless it is a single tile; and blocks are larger than four by four only where blocks of
/// half the size would be too many.
pub proof fn law_chosen_chunk_size(goal: ChunkGoal)
    ensures
        exists|k: nat| goal.size() == #[trigger] pow2(k),
        goal.size() == 1 || goal.bytes(goal.size()) <= goal.memory_budget,
        goal.size() > 4 ==> goal.blocks(goal.size() / 2) > goal.target_chunks,
{
    lemma2_to64();
    lemma_grown(goal, 4, 2);
    let g = goal.grown(4);
    let k = choose|k: nat| g == #[trigger] pow2(k);
    lemma_shrunk(goal, g, k);
    if goal.size() > 4 {
        assert(goal.bytes(g) <= goal.memory_budget);
        assert(goal.shrunk(g) == g);
    }
}

/// Space for directories is 24 bytes for each tile, but at least 64 KiB and at most 16 MiB.
pub proof fn law_reserved_space(tile_count: nat)
    ensures
        65_536 <= reserved_space(tile_count) <= 16_777_216,
        65_536 <= 24 * tile_count <= 16_777_216 ==> reserved_space(tile_count) == 24 * tile_count,
        24 * tile_count < 65_536 ==> reserved_space(tile_count) == 65_536,
        24 * tile_count > 16_777_216 ==> reserved_space(tile_count) == 16_777_216,
{
}

/// There is always a worker; there are no more than the user allows and no more than there are
/// items; and there are as many as both allow.
pub proof fn law_useful_workers(workers: nat, items: nat)
    ensures
        useful_workers(workers, items) >= 1,
        workers >= 1 ==> useful_workers(workers, items) <= workers,
        items >= 1 ==> useful_workers(workers, items) <= items,
        useful_workers(workers, items) == 1 || useful_workers(workers, items) == workers
            || useful_workers(workers, items) == items,
        workers >= 2 && items >= 2 ==> useful_workers(workers, items) == workers
            || useful_workers(workers, items) == items,
{
}

/// No job lies outside of the range, and on each of its four sides lies a job.
pub proof fn law_extent(jobs: Seq<TileJob>, range: TileRange, i: int)
    requires
        is_extent(jobs, range),
        0 <= i < jobs.len(),
    ensures
        range.min_x <= jobs[i].x <= range.max_x,
        range.min_y <= jobs[i].y <= range.max_y,
        exists|k: int| 0 <= k < jobs.len() && (#[trigger] jobs[k]).x == range.min_x,
        exists|k: int| 0 <= k < jobs.len() && (#[trigger] jobs[k]).x == range.max_x,
        exists|k: int| 0 <= k < jobs.len() && (#[trigger] jobs[k]).y == range.min_y,
        exists|k: int| 0 <= k < jobs.len() && (#[trigger] jobs[k]).y == range.max_y,
        range.columns() == range.max_x - range.min_x + 1,
        range.rows() == range.max_y - range.min_y + 1,
{
    assert(range.covers(jobs[i].x as int, jobs[i].y as int));
}

/// So many pieces cover a length, and one less does not.
pub proof fn law_pieces(len: int, size: int)
    requires
        size > 0,
        len >= 0,
    ensures
        pieces(len, size) >= 0,
        pieces(len, size) * size >= len,
        len > 0 ==> (pieces(len, size) - 1) * size < len,
        len == 0 ==> pieces(len, size) == 0,
{
    let p = pieces(len, size);
    vstd::arithmetic::div_mod::lemma_fundamental_div_mod(len + size - 1, size);
    vstd::arithmetic::div_mod::lemma_mod_bound(len + size - 1, size);
    assert(size * p == p * size) by (nonlinear_arith);
    assert((p - 1) * size == p * size - size) by (nonlinear_arith);
    assert(p >= 0) by (nonlinear_arith)
        requires
            p * size + size > len + size - 1,
            len >= 0,
            size > 0,
    ;
    if len == 0 {
        assert(p == 0) by (nonlinear_arith)
            requires
                p * size <= size - 1,
                p >= 0,
                size > 0,
        ;
    }
}

/// A rectangle is covered by as many blocks as its columns need times as many as its rows need;
/// blocks are at least one tile wide.
pub proof fn law_blocks(width: int, height: int, size: int)
    ensures
        size >= 1 ==> blocks(width, height, size) == pieces(width, size) * pieces(height, size),
        size < 1 ==> blocks(width, height, size) == pieces(width, 1) * pieces(height, 1),
{
}

/// A block takes eight bytes for each of its pixels, as far as that can be counted in 64 bits.
pub proof fn law_block_bytes(tile_size: int, width: int, height: int)
    requires
        tile_size >= 0,
        width >= 0,
        height >= 0,
    ensures
        ({
            let bytes = 8 * ((width * tile_size) * (height * tile_size));
            &&& bytes <= u64::MAX ==> block_bytes(tile_size, width, height) == bytes
            &&& bytes > u64::MAX ==> block_bytes(tile_size, width, height) == u64::MAX
        }),
{
}

/// The largest block of a zoom level is as wide and as high as the places of its tiles within
/// their blocks ask for, and no wider or higher.
pub proof fn law_working_set(tile_size: int, jobs: Seq<TileJob>, chunk_tiles: int, i: int)
    requires
        chunk_tiles > 0,
        0 <= i < jobs.len(),
    ensures
        exists|w: int, h: int|
            {
                &&& working_set(tile_size, jobs, chunk_tiles) == #[trigger] block_bytes(
                    tile_size,
                    w,
                    h,
                )
                &&& jobs[i].x as int % chunk_tiles < w <= chunk_tiles
                &&& jobs[i].y as int % chunk_tiles < h <= chunk_tiles
                &&& exists|k: int|
                    0 <= k < jobs.len() && (#[trigger] jobs[k]).x as int % chunk_tiles + 1 == w
                &&& exists|k: int|
                    0 <= k < jobs.len() && (#[trigger] jobs[k]).y as int % chunk_tiles + 1 == h
            },
{
    lemma_greatest_places(jobs, chunk_tiles);
    let w = greatest_column(jobs, chunk_tiles) + 1;
    let h = greatest_row(jobs, chunk_tiles) + 1;
    let a = choose|k: int|
        0 <= k < jobs.len() && (#[trigger] jobs[k]).x as int % chunk_tiles == greatest_column(
            jobs,
            chunk_tiles,
        );
    let b = choose|k: int|
        0 <= k < jobs.len() && (#[trigger] jobs[k]).y as int % chunk_tiles == greatest_row(
            jobs,
            chunk_tiles,
        );
    vstd::arithmetic::div_mod::lemma_mod_bound(jobs[a].x as int, chunk_tiles);
    vstd::arithmetic::div_mod::lemma_mod_bound(jobs[b].y as int, chunk_tiles);
    assert(jobs[a].x as int % chunk_tiles + 1 == w);
    assert(jobs[b].y as int % chunk_tiles + 1 == h);
    assert(jobs[i].x as int % chunk_tiles < w && jobs[i].y as int % chunk_tiles < h);
    assert(working_set(tile_size, jobs, chunk_tiles) == block_bytes(tile_size, w, h));
}

proof fn lemma_greatest_places(jobs: Seq<TileJob>, chunk_tiles: int)
    requires
        chunk_tiles > 0,
    ensures
        greatest_column(jobs, chunk_tiles) >= 0,
        greatest_row(jobs, chunk_tiles) >= 0,
        forall|i: int|
            0 <= i < jobs.len() ==> (#[trigger] jobs[i]).x as int % chunk_tiles <= greatest_column(
                jobs,
                chunk_tiles,
            ) && jobs[i].y as int % chunk_tiles <= greatest_row(jobs, chunk_tiles),
        jobs.len() > 0 ==> exists|k: int|
            0 <= k < jobs.len() && (#[trigger] jobs[k]).x as int % chunk_tiles == greatest_column(
                jobs,
                chunk_tiles,
            ),
        jobs.len() > 0 ==> exists|k: int|
            0 <= k < jobs.len() && (#[trigger] jobs[k]).y as int % chunk_tiles == greatest_row(
                jobs,
                chunk_tiles,
            ),
    decreases jobs.len(),
{
    if jobs.len() > 0 {
        let rest = jobs.drop_last();
        let n = jobs.len() - 1;
        lemma_greatest_places(rest, chunk_tiles);
        assert(jobs[n] == jobs.last());
        vstd::arithmetic::div_mod::lemma_mod_bound(jobs.last().x as int, chunk_tiles);
        vstd::arithmetic::div_mod::lemma_mod_bound(jobs.last().y as int, chunk_tiles);
        assert forall|i: int| 0 <= i < jobs.len() implies (#[trigger] jobs[i]).x as int
            % chunk_tiles <= greatest_column(jobs, chunk_tiles) && jobs[i].y as int % chunk_tiles
            <= greatest_row(jobs, chunk_tiles) by {
            if i < n {
                assert(rest[i] == jobs[i]);
            }
        }
        if rest.len() > 0 {
            let a = choose|k: int|
                0 <= k < rest.len() && (#[trigger] rest[k]).x as int % chunk_tiles
                    == greatest_column(rest, chunk_tiles);
            let b = choose|k: int|
                0 <= k < rest.len() && (#[trigger] rest[k]).y as int % chunk_tiles == greatest_row(
                    rest,
                    chunk_tiles,
                );
            assert(jobs[a] == rest[a] && jobs[b] == rest[b]);
        }
    }
}

/// The power of two that is not below a number, of which half is.
pub proof fn law_power_from(m: nat)
    ensures
        exists|k: nat| power_from(m) == #[trigger] pow2(k),
        power_from(m) >= m,
        m > 1 ==> power_from(m) < 2 * m,
        m <= 1 ==> power_from(m) == 1,
    decreases m,
{
    lemma2_to64();
    if m > 1 {
        let half = ((m + 1) / 2) as nat;
        law_power_from(half);
        let k = choose|k: nat| power_from(half) == #[trigger] pow2(k);
        lemma_pow2_unfold(k + 1);
        assert(power_from(m) == pow2(k + 1));
        if half > 1 {
            lemma_power_gap(m, half, power_from(half), k);
        }
    } else {
        assert(power_from(m) == pow2(0));
    }
}

proof fn lemma_power_gap(m: nat, half: nat, p: nat, k: nat)
    requires
        m > 1,
        half == (m + 1) / 2,
        half > 1,
        p == pow2(k),
        half <= p < 2 * half,
    ensures
        2 * p < 2 * m,
{
    lemma2_to64();
    if k > 0 {
        lemma_pow2_unfold(k);
        // An even number below two halves of an odd number, rounded up, is below the number.
        assert(p % 2 == 0);
    }
}

/// What decides about the size of blocks: there should be eight blocks for each worker that is of
/// use, but no more blocks than tiles; and a block should take half of the memory for warps, but
/// at least 32 MiB and at most 256 MiB.
pub proof fn law_chunk_goal(
    workers: nat,
    tile_size: nat,
    warp_memory_bytes: nat,
    job_count: nat,
    range: TileRange,
)
    requires
        range.min_x <= range.max_x,
        range.min_y <= range.max_y,
        job_count >= 1,
    ensures
        ({
            let goal = chunk_goal(workers, tile_size, warp_memory_bytes, job_count, range);
            &&& goal.width_tiles == range.max_x - range.min_x + 1
            &&& goal.height_tiles == range.max_y - range.min_y + 1
            &&& goal.tile_size == tile_size
            &&& goal.target_chunks <= job_count
            &&& goal.target_chunks <= 8 * useful_workers(workers, job_count)
            &&& goal.target_chunks == job_count || goal.target_chunks == 8 * useful_workers(
                workers,
                job_count,
            )
            &&& 33_554_432 <= goal.memory_budget <= 268_435_456
            &&& 67_108_864 <= warp_memory_bytes <= 536_870_912 ==> goal.memory_budget
                == warp_memory_bytes / 2
            &&& warp_memory_bytes < 67_108_864 ==> goal.memory_budget == 33_554_432
            &&& warp_memory_bytes > 536_870_912 ==> goal.memory_budget == 268_435_456
        }),
{
}

/// The size of blocks is not smaller than it has to be: blocks of four by four tiles, or larger
/// ones, are few enough, or blocks of twice the size would cover more than there is or take too
/// much memory; and blocks are smaller than four by four only where twice the size would take
/// too much memory.
pub proof fn law_chunk_size_is_not_too_small(goal: ChunkGoal)
    ensures
        goal.size() >= 1,
        goal.size() >= 4 ==> goal.blocks(goal.size()) <= goal.target_chunks || 2 * goal.size()
            > power_from(
            (if goal.width_tiles > goal.height_tiles {
                goal.width_tiles
            } else {
                goal.height_tiles
            }),
        ) || goal.bytes(2 * goal.size()) > goal.memory_budget,
        goal.size() < 4 ==> goal.bytes(2 * goal.size()) > goal.memory_budget,
        forall|size: nat|
            #[trigger] goal.blocks(size) == blocks(
                goal.width_tiles as int,
                goal.height_tiles as int,
                size as int,
            ),
        forall|size: nat|
            #[trigger] goal.bytes(size) == block_bytes(
                goal.tile_size as int,
                size as int,
                size as int,
            ),
{
    lemma2_to64();
    lemma_grown(goal, 4, 2);
    lemma_grown_stops(goal, 4);
    let g = goal.grown(4);
    let k = choose|k: nat| g == #[trigger] pow2(k);
    lemma_shrunk_stops(goal, g, k);
}

proof fn lemma_grown_stops(goal: ChunkGoal, size: nat)
    requires
        size > 0,
    ensures
        ({
            let g = goal.grown(size);
            ||| goal.blocks(g) <= goal.target_chunks
            ||| 2 * g > goal.limit()
            ||| goal.bytes(2 * g) > goal.memory_budget
        }),
    decreases goal.limit() - size,
{
    if !(goal.blocks(size) <= goal.target_chunks || 2 * size > goal.limit() || goal.bytes(2 * size)
        > goal.memory_budget) {
        lemma_grown_stops(goal, 2 * size);
    }
}

proof fn lemma_shrunk_stops(goal: ChunkGoal, size: nat, k: nat)
    requires
        size == pow2(k),
    ensures
        goal.shrunk(size) >= 1,
        goal.shrunk(size) == size || goal.bytes(2 * goal.shrunk(size)) > goal.memory_budget,
    decreases size,
{
    vstd::arithmetic::power2::lemma_pow2_pos(k);
    if size > 1 && goal.bytes(size) > goal.memory_budget {
        lemma2_to64();
        assert(k > 0);
        lemma_pow2_unfold(k);
        assert(2 * (size / 2) == size);
        lemma_shrunk_stops(goal, size / 2, (k - 1) as nat);
    }
}

/// Blocks have the size that the user gave, none where the user switched them off, and the one
/// that is chosen for the zoom level where the user left it open.
pub proof fn law_chunk_size(opts: RasterOptions, jobs: Seq<TileJob>)
    ensures
        opts.chunk_tiles == ChunkTiles::Disabled ==> chunk_size(opts, jobs) is None,
        opts.chunk_tiles matches ChunkTiles::Fixed(n) ==> chunk_size(opts, jobs) == Some(n),
        opts.chunk_tiles == ChunkTiles::Auto ==> chunk_size(opts, jobs) == Some(
            chunk_goal(
                opts.workers as nat,
                opts.tile_size as nat,
                opts.warp_memory_bytes as nat,
                jobs.len(),
                extent_of(jobs),
            ).size() as u32,
        ),
        auto_size(opts, jobs) == chunk_goal(
            opts.workers as nat,
            opts.tile_size as nat,
            opts.warp_memory_bytes as nat,
            jobs.len(),
            extent_of(jobs),
        ).size(),
{
}

} // verus!
