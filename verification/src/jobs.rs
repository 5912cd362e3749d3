//! The tiles that are rendered, and how they are grouped.
use vstd::arithmetic::power2::{lemma2_to64, lemma_pow2_strictly_increases, pow2};
use vstd::prelude::*;

use crate::error::{invalid_input, refused, Error};
use crate::order::{
    arrange, arranged, is_stable_order, law_stable_sort, lemma_order_no_duplicates, precedes,
    stable_order, stably_sorted,
};
use crate::tile_id::{
    law_tile_ids_are_distinct, law_tile_ids_follow_zoom, lemma_hilbert_bound, lemma_zoom_base,
    on_grid, tile_id, zxy_to_tile_id,
};

verus! {

/// A tile to render.
#[derive(Clone, Copy, Debug, PartialEq, Eq, Structural)]
pub struct TileJob {
    pub z: u8,
    pub x: u32,
    pub y: u32,
    pub tile_id: u64,
}

/// Columns and rows of tiles, the last ones included.
#[derive(Clone, Copy, Debug, PartialEq, Eq, Structural)]
pub struct TileRange {
    pub min_x: u32,
    pub max_x: u32,
    pub min_y: u32,
    pub max_y: u32,
}

impl TileRange {
    pub open spec fn covers(self, x: int, y: int) -> bool {
        self.min_x <= x <= self.max_x && self.min_y <= y <= self.max_y
    }
}

impl TileJob {
    /// The tile lies on the grid of its zoom level and has its own number.
    pub open spec fn wf(self) -> bool {
        &&& self.z <= 31
        &&& on_grid(self.z as nat, self.x as nat, self.y as nat)
        &&& self.tile_id == tile_id(self.z as nat, self.x as nat, self.y as nat)
    }
}

/// The ranges lie on the grids of the zoom levels from `min_zoom` on.
pub open spec fn ranges_on_grid(ranges: Seq<TileRange>, min_zoom: int) -> bool {
    forall|k: int|
        0 <= k < ranges.len() ==> (#[trigger] ranges[k]).max_x < pow2((min_zoom + k) as nat)
            && ranges[k].max_y < pow2((min_zoom + k) as nat)
}

/// The job is a tile in the range of its zoom level.
pub open spec fn job_in(ranges: Seq<TileRange>, min_zoom: int, job: TileJob) -> bool {
    &&& min_zoom <= job.z < min_zoom + ranges.len()
    &&& ranges[job.z - min_zoom].covers(job.x as int, job.y as int)
    &&& job.tile_id == tile_id(job.z as nat, job.x as nat, job.y as nat)
}

/// The jobs come in the order of their tile numbers, none twice.
pub open spec fn in_tile_order(jobs: Seq<TileJob>) -> bool {
    forall|i: int, j: int|
        0 <= i < j < jobs.len() ==> (#[trigger] jobs[i]).tile_id < (#[trigger] jobs[j]).tile_id
}

/// No two jobs are for the same tile number.
pub open spec fn no_tile_twice(jobs: Seq<TileJob>) -> bool {
    forall|i: int, j: int|
        0 <= i < j < jobs.len() ==> (#[trigger] jobs[i]).tile_id != (#[trigger] jobs[j]).tile_id
}

/// The key by which jobs are sorted.
pub open spec fn job_key() -> spec_fn(TileJob) -> u128 {
    |job: TileJob| job.tile_id as u128
}

/// Order in which the tiles are listed before they are sorted: zoom by zoom, row by row.
spec fn listed_before(a: TileJob, z: int, x: int, y: int) -> bool {
    a.z < z || (a.z == z && (a.y < y || (a.y == y && a.x < x)))
}

spec fn listed_in_order(jobs: Seq<TileJob>) -> bool {
    forall|i: int, j: int|
        0 <= i < j < jobs.len() ==> listed_before(
            #[trigger] jobs[i],
            (#[trigger] jobs[j]).z as int,
            jobs[j].x as int,
            jobs[j].y as int,
        )
}

/// The jobs are the tiles of the ranges that are listed before the given position.
spec fn listed_up_to(
    jobs: Seq<TileJob>,
    ranges: Seq<TileRange>,
    min_zoom: int,
    z: int,
    x: int,
    y: int,
) -> bool {
    &&& listed_in_order(jobs)
    &&& forall|i: int|
        0 <= i < jobs.len() ==> job_in(ranges, min_zoom, #[trigger] jobs[i]) && listed_before(
            jobs[i],
            z,
            x,
            y,
        )
    &&& forall|job: TileJob|
        job_in(ranges, min_zoom, job) && listed_before(job, z, x, y)
            ==> #[trigger] jobs.contains(job)
}

proof fn lemma_listed_more(
    jobs: Seq<TileJob>,
    job: TileJob,
    ranges: Seq<TileRange>,
    min_zoom: int,
)
    requires
        listed_up_to(jobs, ranges, min_zoom, job.z as int, job.x as int, job.y as int),
        job_in(ranges, min_zoom, job),
    ensures
        listed_up_to(
            jobs.push(job),
            ranges,
            min_zoom,
            job.z as int,
            job.x + 1,
            job.y as int,
        ),
{
    let more = jobs.push(job);
    assert(more[jobs.len() as int] == job);
    assert forall|other: TileJob|
        job_in(ranges, min_zoom, other) && listed_before(
            other,
            job.z as int,
            job.x + 1,
            job.y as int,
        ) implies #[trigger] more.contains(other) by {
        if listed_before(other, job.z as int, job.x as int, job.y as int) {
            assert(jobs.contains(other));
            let k = choose|k: int| 0 <= k < jobs.len() && jobs[k] == other;
            assert(more[k] == other);
        } else {
            assert(other == job);
        }
    }
}

/// The position moves on over places that hold no tile of the ranges.
proof fn lemma_listed_on(
    jobs: Seq<TileJob>,
    ranges: Seq<TileRange>,
    min_zoom: int,
    from: (int, int, int),
    to: (int, int, int),
)
    requires
        listed_up_to(jobs, ranges, min_zoom, from.0, from.1, from.2),
        forall|job: TileJob|
            job_in(ranges, min_zoom, job) ==> listed_before(job, from.0, from.1, from.2)
                == listed_before(job, to.0, to.1, to.2),
    ensures
        listed_up_to(jobs, ranges, min_zoom, to.0, to.1, to.2),
{
}

fn list_zoom(
    jobs: &mut Vec<TileJob>,
    z: u8,
    range: &TileRange,
    Ghost(ranges): Ghost<Seq<TileRange>>,
    Ghost(min_zoom): Ghost<int>,
)
    requires
        z <= 31,
        0 <= min_zoom <= z < min_zoom + ranges.len(),
        ranges[z - min_zoom] == *range,
        ranges_on_grid(ranges, min_zoom),
        listed_up_to(old(jobs)@, ranges, min_zoom, z as int, 0, 0),
    ensures
        listed_up_to(final(jobs)@, ranges, min_zoom, z + 1, 0, 0),
{
    proof {
        lemma2_to64();
        if z < 31 {
            lemma_pow2_strictly_increases(z as nat, 31);
        }
        lemma_listed_on(
            jobs@,
            ranges,
            min_zoom,
            (z as int, 0, 0),
            (z as int, range.min_x as int, range.min_y as int),
        );
    }
    let mut y: u32 = range.min_y;
    while y <= range.max_y
        invariant
            z <= 31,
            0 <= min_zoom <= z < min_zoom + ranges.len(),
            ranges[z - min_zoom] == *range,
            ranges_on_grid(ranges, min_zoom),
            range.max_x < pow2(z as nat) <= 0x8000_0000,
            range.max_y < pow2(z as nat),
            range.min_y <= y <= range.max_y + 1 || y == range.min_y,
            listed_up_to(jobs@, ranges, min_zoom, z as int, range.min_x as int, y as int),
        decreases range.max_y + 1 - y,
    {
        let mut x: u32 = range.min_x;
        while x <= range.max_x
            invariant
                z <= 31,
                0 <= min_zoom <= z < min_zoom + ranges.len(),
                ranges[z - min_zoom] == *range,
                range.min_y <= y <= range.max_y,
                range.max_x < pow2(z as nat) <= 0x8000_0000,
                range.max_y < pow2(z as nat),
                range.min_x <= x <= range.max_x + 1 || x == range.min_x,
                listed_up_to(jobs@, ranges, min_zoom, z as int, x as int, y as int),
            decreases range.max_x + 1 - x,
        {
            assert((x as nat) % pow2(z as nat) == x) by {
                vstd::arithmetic::div_mod::lemma_small_mod(x as nat, pow2(z as nat));
            }
            assert((y as nat) % pow2(z as nat) == y) by {
                vstd::arithmetic::div_mod::lemma_small_mod(y as nat, pow2(z as nat));
            }
            if let Ok(id) = zxy_to_tile_id(z, x, y) {
                let job = TileJob { z, x, y, tile_id: id };
                proof {
                    lemma_listed_more(jobs@, job, ranges, min_zoom);
                }
                jobs.push(job);
            }
            x = x + 1;
        }
        proof {
            lemma_listed_on(
                jobs@,
                ranges,
                min_zoom,
                (z as int, x as int, y as int),
                (z as int, range.min_x as int, y + 1),
            );
        }
        y = y + 1;
    }
    proof {
        lemma_listed_on(
            jobs@,
            ranges,
            min_zoom,
            (z as int, range.min_x as int, y as int),
            (z + 1, 0, 0),
        );
    }
}

fn sort_jobs(jobs: Vec<TileJob>) -> (r: Vec<TileJob>)
    ensures
        stably_sorted(jobs@, r@, job_key()),
{
    let mut keys: Vec<u128> = Vec::new();
    let mut i: usize = 0;
    while i < jobs.len()
        invariant
            i <= jobs@.len(),
            keys@ == jobs@.map_values(job_key()).take(i as int),
        decreases jobs@.len() - i,
    {
        keys.push(jobs[i].tile_id as u128);
        i = i + 1;
        assert(keys@ =~= jobs@.map_values(job_key()).take(i as int));
    }
    assert(keys@ =~= jobs@.map_values(job_key()));
    let p = stable_order(&keys);
    proof {
        lemma_order_no_duplicates(keys@, p@);
    }
    arrange(jobs, &p)
}

proof fn lemma_sorted_jobs(
    listed: Seq<TileJob>,
    sorted: Seq<TileJob>,
    ranges: Seq<TileRange>,
    min_zoom: int,
)
    requires
        0 <= min_zoom,
        min_zoom + ranges.len() <= 32,
        ranges_on_grid(ranges, min_zoom),
        listed.len() <= usize::MAX,
        listed_up_to(listed, ranges, min_zoom, min_zoom + ranges.len(), 0, 0),
        stably_sorted(listed, sorted, job_key()),
    ensures
        in_tile_order(sorted),
        forall|job: TileJob| #[trigger] sorted.contains(job) <==> job_in(ranges, min_zoom, job),
{
    let keys = listed.map_values(job_key());
    let p = choose|p: Seq<usize>|
        #[trigger] is_stable_order(listed.map_values(job_key()), p) && sorted == arranged(
            listed,
            p,
        );
    lemma_order_no_duplicates(keys, p);
    assert forall|i: int, j: int| 0 <= i < j < sorted.len() implies (
    #[trigger] sorted[i]).tile_id < (#[trigger] sorted[j]).tile_id by {
        assert(precedes(keys, p[i], p[j]));
        let a = sorted[i];
        let b = sorted[j];
        assert(a == listed[p[i] as int] && b == listed[p[j] as int]);
        assert(job_in(ranges, min_zoom, a) && job_in(ranges, min_zoom, b));
        if a.tile_id == b.tile_id {
            assert(ranges[a.z - min_zoom].max_x < pow2(a.z as nat));
            assert(ranges[b.z - min_zoom].max_x < pow2(b.z as nat));
            law_tile_ids_are_distinct(
                a.z as nat,
                a.x as nat,
                a.y as nat,
                b.z as nat,
                b.x as nat,
                b.y as nat,
            );
            assert(a == b);
        }
    }
    assert forall|job: TileJob| #[trigger] sorted.contains(job) <==> job_in(
        ranges,
        min_zoom,
        job,
    ) by {
        if sorted.contains(job) {
            let i = choose|i: int| 0 <= i < sorted.len() && sorted[i] == job;
            assert(job == listed[p[i] as int]);
        }
        if job_in(ranges, min_zoom, job) {
            assert(listed.contains(job));
            let k = choose|k: int| 0 <= k < listed.len() && listed[k] == job;
            assert(p.contains(k as usize));
            let i = choose|i: int| 0 <= i < p.len() && p[i] == k as usize;
            assert(sorted[i] == job);
        }
    }
}

/// Lists all tiles of the zoom levels from `min_zoom` to `max_zoom`, where `ranges` holds the
/// columns and rows of each of them.
pub fn enumerate_tile_jobs(ranges: &Vec<TileRange>, min_zoom: u8, max_zoom: u8) -> (r: Result<
    Vec<TileJob>,
    Error,
>)
    requires
        min_zoom <= max_zoom <= 31 ==> ranges@.len() == max_zoom - min_zoom + 1 && ranges_on_grid(
            ranges@,
            min_zoom as int,
        ),
    ensures
        if min_zoom > max_zoom {
            refused(r, "--zoom minimum must be <= maximum"@)
        } else if max_zoom > 31 {
            refused(r, "PMTiles tile ids support zoom levels 0..31"@)
        } else {
            &&& r matches Ok(jobs)
            &&& in_tile_order(jobs@)
            &&& forall|job: TileJob|
                #[trigger] jobs@.contains(job) <==> job_in(ranges@, min_zoom as int, job)
        },
{
    if min_zoom > max_zoom {
        return Err(invalid_input("--zoom minimum must be <= maximum"));
    }
    if max_zoom > 31 {
        return Err(invalid_input("PMTiles tile ids support zoom levels 0..31"));
    }
    let mut jobs: Vec<TileJob> = Vec::new();
    let mut k: usize = 0;
    while k < ranges.len()
        invariant
            min_zoom <= max_zoom <= 31,
            k <= ranges@.len(),
            ranges@.len() == max_zoom - min_zoom + 1,
            ranges_on_grid(ranges@, min_zoom as int),
            listed_up_to(jobs@, ranges@, min_zoom as int, min_zoom + k, 0, 0),
        decreases ranges@.len() - k,
    {
        let z: u8 = min_zoom + k as u8;
        list_zoom(&mut jobs, z, &ranges[k], Ghost(ranges@), Ghost(min_zoom as int));
        k = k + 1;
    }
    let ghost listed = jobs@;
    let _count: usize = jobs.len();
    let sorted = sort_jobs(jobs);
    proof {
        lemma_sorted_jobs(listed, sorted@, ranges@, min_zoom as int);
    }
    Ok(sorted)
}

/// The jobs that are listed are tiles on their grids, zoom level after zoom level.
pub proof fn law_listed_jobs_are_tiles(jobs: Seq<TileJob>, ranges: Seq<TileRange>, min_zoom: int)
    requires
        0 <= min_zoom,
        min_zoom + ranges.len() <= 32,
        ranges_on_grid(ranges, min_zoom),
        in_tile_order(jobs),
        forall|job: TileJob| #[trigger] jobs.contains(job) <==> job_in(ranges, min_zoom, job),
    ensures
        forall|i: int| 0 <= i < jobs.len() ==> (#[trigger] jobs[i]).wf(),
        forall|i: int, j: int|
            0 <= i <= j < jobs.len() ==> (#[trigger] jobs[i]).z <= (#[trigger] jobs[j]).z,
{
    assert forall|i: int| 0 <= i < jobs.len() implies (#[trigger] jobs[i]).wf() by {
        assert(jobs.contains(jobs[i]));
        assert(ranges[jobs[i].z - min_zoom].max_x < pow2(jobs[i].z as nat));
    }
    assert forall|i: int, j: int| 0 <= i <= j < jobs.len() implies (#[trigger] jobs[i]).z <= (
    #[trigger] jobs[j]).z by {
        let a = jobs[i];
        let b = jobs[j];
        assert(a.wf() && b.wf());
        if a.z > b.z {
            law_tile_ids_follow_zoom(
                b.z as nat,
                b.x as nat,
                b.y as nat,
                a.z as nat,
                a.x as nat,
                a.y as nat,
            );
        }
    }
}

/// Number of jobs at the start of a list that have the key of the first.
pub open spec fn run_len(s: Seq<TileJob>, key: spec_fn(TileJob) -> int) -> nat
    decreases s.len(),
{
    if s.len() == 0 {
        0
    } else if s.len() == 1 || key(s[1]) != key(s[0]) {
        1
    } else {
        1 + run_len(s.drop_first(), key)
    }
}

proof fn lemma_run_len(s: Seq<TileJob>, key: spec_fn(TileJob) -> int)
    ensures
        run_len(s, key) <= s.len(),
        s.len() > 0 ==> run_len(s, key) > 0,
        forall|i: int| 0 <= i < run_len(s, key) ==> key(#[trigger] s[i]) == key(s[0]),
        run_len(s, key) < s.len() ==> key(s[run_len(s, key) as int]) != key(s[0]),
    decreases s.len(),
{
    if s.len() > 1 && key(s[1]) == key(s[0]) {
        let t = s.drop_first();
        lemma_run_len(t, key);
        assert forall|i: int| 0 <= i < run_len(s, key) implies key(#[trigger] s[i]) == key(
            s[0],
        ) by {
            if i > 0 {
                assert(key(t[i - 1]) == key(t[0]));
            }
        }
        if run_len(s, key) < s.len() {
            assert(t[run_len(t, key) as int] == s[run_len(s, key) as int]);
        }
    }
}

proof fn lemma_run_len_is(s: Seq<TileJob>, key: spec_fn(TileJob) -> int, n: nat)
    requires
        0 < n <= s.len(),
        forall|i: int| 0 <= i < n ==> key(#[trigger] s[i]) == key(s[0]),
        n < s.len() ==> key(s[n as int]) != key(s[0]),
    ensures
        run_len(s, key) == n,
{
    lemma_run_len(s, key);
    let m = run_len(s, key);
    if m < n {
        assert(key(s[m as int]) == key(s[0]));
    }
}

/// The list cut where the key changes.
pub open spec fn runs(s: Seq<TileJob>, key: spec_fn(TileJob) -> int) -> Seq<Seq<TileJob>>
    decreases s.len(),
    via runs_decreases
{
    if s.len() == 0 {
        Seq::empty()
    } else {
        seq![s.take(run_len(s, key) as int)] + runs(s.skip(run_len(s, key) as int), key)
    }
}

#[via_fn]
proof fn runs_decreases(s: Seq<TileJob>, key: spec_fn(TileJob) -> int) {
    lemma_run_len(s, key);
}

/// The runs of a list, one after the other, are the list. Each holds at least one job, all of
/// its jobs have one key, and that of the next run is another.
pub proof fn law_runs(s: Seq<TileJob>, key: spec_fn(TileJob) -> int)
    ensures
        runs(s, key).flatten() == s,
        forall|i: int| 0 <= i < runs(s, key).len() ==> (#[trigger] runs(s, key)[i]).len() > 0,
        forall|i: int, k: int|
            0 <= i < runs(s, key).len() && 0 <= k < runs(s, key)[i].len() ==> key(
                #[trigger] runs(s, key)[i][k],
            ) == key(runs(s, key)[i][0]),
        forall|i: int|
            0 < i < runs(s, key).len() ==> key((#[trigger] runs(s, key)[i])[0]) != key(
                runs(s, key)[i - 1][0],
            ),
        s.len() > 0 ==> runs(s, key).len() > 0 && runs(s, key)[0][0] == s[0],
    decreases s.len(),
{
    if s.len() > 0 {
        lemma_run_len(s, key);
        let n = run_len(s, key) as int;
        let rest = s.skip(n);
        let all = runs(s, key);
        let tail = runs(rest, key);
        law_runs(rest, key);
        assert(all.drop_first() =~= tail);
        assert(all.flatten() =~= s.take(n) + rest);
        assert(s.take(n) + rest =~= s);
        assert forall|i: int| 0 <= i < all.len() implies (#[trigger] all[i]).len() > 0 by {
            if i > 0 {
                assert(all[i] == tail[i - 1]);
            }
        }
        assert forall|i: int, k: int| 0 <= i < all.len() && 0 <= k < all[i].len() implies key(
            #[trigger] all[i][k],
        ) == key(all[i][0]) by {
            if i > 0 {
                assert(all[i] == tail[i - 1]);
                assert(key(tail[i - 1][k]) == key(tail[i - 1][0]));
            } else {
                assert(all[0][k] == s[k]);
            }
        }
        assert forall|i: int| 0 < i < all.len() implies key((#[trigger] all[i])[0]) != key(
            all[i - 1][0],
        ) by {
            assert(all[i] == tail[i - 1]);
            if i > 1 {
                assert(all[i - 1] == tail[i - 2]);
                assert(key(tail[i - 1][0]) != key(tail[i - 2][0]));
            } else {
                assert(tail[0][0] == rest[0]);
                assert(rest[0] == s[n]);
            }
        }
    } else {
        assert(runs(s, key).flatten() =~= s);
    }
}

/// Where the keys never fall along the list, those of its runs rise: no key has two runs.
pub proof fn law_runs_of_sorted(s: Seq<TileJob>, key: spec_fn(TileJob) -> int)
    requires
        forall|i: int, j: int|
            0 <= i <= j < s.len() ==> key(#[trigger] s[i]) <= key(#[trigger] s[j]),
    ensures
        forall|i: int, j: int|
            0 <= i < j < runs(s, key).len() ==> key((#[trigger] runs(s, key)[i])[0]) < key(
                (#[trigger] runs(s, key)[j])[0],
            ),
    decreases s.len(),
{
    if s.len() > 0 {
        lemma_run_len(s, key);
        let n = run_len(s, key) as int;
        let rest = s.skip(n);
        let all = runs(s, key);
        let tail = runs(rest, key);
        assert forall|i: int, j: int| 0 <= i <= j < rest.len() implies key(#[trigger] rest[i])
            <= key(#[trigger] rest[j]) by {
            assert(key(s[i + n]) <= key(s[j + n]));
        }
        law_runs_of_sorted(rest, key);
        law_runs(rest, key);
        law_runs(s, key);
        assert forall|i: int, j: int| 0 <= i < j < all.len() implies key((#[trigger] all[i])[0])
            < key((#[trigger] all[j])[0]) by {
            assert(all[j] == tail[j - 1]);
            if i > 0 {
                assert(all[i] == tail[i - 1]);
            } else {
                assert(tail[0][0] == rest[0] && rest[0] == s[n]);
                assert(key(s[0]) <= key(s[n]));
                if j > 1 {
                    assert(key(tail[0][0]) < key(tail[j - 1][0]));
                }
            }
        }
    }
}

/// The zoom level of a job.
pub open spec fn zoom_key() -> spec_fn(TileJob) -> int {
    |job: TileJob| job.z as int
}

/// The jobs in a list of slices.
pub open spec fn slices(v: Seq<&[TileJob]>) -> Seq<Seq<TileJob>> {
    v.map_values(|s: &[TileJob]| s@)
}

/// Cuts the list where the zoom level changes.
pub fn jobs_by_zoom<'a>(jobs: &'a [TileJob]) -> (r: Vec<&'a [TileJob]>)
    ensures
        slices(r@) == runs(jobs@, zoom_key()),
{
    let mut ranges: Vec<&'a [TileJob]> = Vec::new();
    let mut start: usize = 0;
    let total: usize = jobs.len();
    assert(jobs@.skip(0) =~= jobs@);
    assert(slices(ranges@) + runs(jobs@, zoom_key()) =~= runs(jobs@, zoom_key()));
    while start < total
        invariant
            start <= total == jobs@.len(),
            slices(ranges@) + runs(jobs@.skip(start as int), zoom_key()) == runs(
                jobs@,
                zoom_key(),
            ),
        decreases total - start,
    {
        let zoom: u8 = jobs[start].z;
        let mut end: usize = start + 1;
        while end < total && jobs[end].z == zoom
            invariant
                start < end <= total == jobs@.len(),
                zoom == jobs@[start as int].z,
                forall|k: int| start <= k < end ==> (#[trigger] jobs@[k]).z == zoom,
            decreases total - end,
        {
            end = end + 1;
        }
        let ghost rest = jobs@.skip(start as int);
        let part = vstd::slice::slice_subrange(jobs, start, end);
        proof {
            lemma_run_len_is(rest, zoom_key(), (end - start) as nat);
            assert(rest.take(end - start) =~= part@);
            assert(rest.skip(end - start) =~= jobs@.skip(end as int));
        }
        let ghost before = slices(ranges@);
        ranges.push(part);
        assert(slices(ranges@) =~= before.push(part@));
        assert(before + (seq![part@] + runs(jobs@.skip(end as int), zoom_key())) =~= slices(
            ranges@,
        ) + runs(jobs@.skip(end as int), zoom_key()));
        start = end;
    }
    assert(slices(ranges@) + runs(jobs@.skip(start as int), zoom_key()) =~= slices(ranges@));
    ranges
}

/// The square block of tiles that the job lies in; blocks are numbered column by column.
pub open spec fn block_key(chunk_tiles: u32) -> spec_fn(TileJob) -> int {
    |job: TileJob| (job.x / chunk_tiles) * 0x1_0000_0000 + job.y / chunk_tiles
}

/// The key that sorts jobs by block, and by tile number within a block.
pub open spec fn block_order_key(chunk_tiles: u32) -> spec_fn(TileJob) -> u128 {
    |job: TileJob|
        (block_key(chunk_tiles)(job) * 0x1_0000_0000_0000_0000 + job.tile_id) as u128
}

/// The jobs in a list of lists.
pub open spec fn lists(v: Seq<Vec<TileJob>>) -> Seq<Seq<TileJob>> {
    v.map_values(|s: Vec<TileJob>| s@)
}

/// The chunks are the blocks that hold jobs, in the order of the blocks, and each chunk holds
/// its jobs in the order of their tile numbers.
pub open spec fn chunked(
    jobs: Seq<TileJob>,
    chunk_tiles: u32,
    chunks: Seq<Seq<TileJob>>,
) -> bool {
    exists|sorted: Seq<TileJob>|
        #[trigger] stably_sorted(jobs, sorted, block_order_key(chunk_tiles)) && chunks == runs(
            sorted,
            block_key(chunk_tiles),
        )
}

/// Groups the jobs into square blocks of `chunk_tiles` by `chunk_tiles` tiles.
pub fn chunk_jobs(jobs: &[TileJob], chunk_tiles: u32) -> (r: Vec<Vec<TileJob>>)
    requires
        chunk_tiles > 0,
    ensures
        chunked(jobs@, chunk_tiles, lists(r@)),
{
    let ghost order_key = block_order_key(chunk_tiles);
    let ghost key = block_key(chunk_tiles);
    let total: usize = jobs.len();
    let mut keys: Vec<u128> = Vec::new();
    let mut i: usize = 0;
    while i < total
        invariant
            chunk_tiles > 0,
            order_key == block_order_key(chunk_tiles),
            i <= total == jobs@.len(),
            keys@ == jobs@.map_values(order_key).take(i as int),
        decreases total - i,
    {
        let job = jobs[i];
        let column: u128 = (job.x / chunk_tiles) as u128;
        let row: u128 = (job.y / chunk_tiles) as u128;
        keys.push((column * 0x1_0000_0000 + row) * 0x1_0000_0000_0000_0000 + job.tile_id as u128);
        i = i + 1;
        assert(keys@ =~= jobs@.map_values(order_key).take(i as int));
    }
    assert(keys@ =~= jobs@.map_values(order_key));
    let p = stable_order(&keys);
    let ghost sorted = arranged(jobs@, p@);
    let mut chunks: Vec<Vec<TileJob>> = Vec::new();
    let mut start: usize = 0;
    assert(sorted.skip(0) =~= sorted);
    assert(lists(chunks@) + runs(sorted, key) =~= runs(sorted, key));
    while start < p.len()
        invariant
            chunk_tiles > 0,
            key == block_key(chunk_tiles),
            sorted == arranged(jobs@, p@),
            p@.len() == jobs@.len(),
            forall|k: int| 0 <= k < p@.len() ==> (#[trigger] p@[k]) < jobs@.len(),
            start <= p@.len(),
            lists(chunks@) + runs(sorted.skip(start as int), key) == runs(sorted, key),
        decreases p@.len() - start,
    {
        let first = jobs[p[start]];
        let column: u32 = first.x / chunk_tiles;
        let row: u32 = first.y / chunk_tiles;
        let mut chunk: Vec<TileJob> = Vec::new();
        chunk.push(first);
        let mut end: usize = start + 1;
        while end < p.len() && jobs[p[end]].x / chunk_tiles == column && jobs[p[end]].y
            / chunk_tiles == row
            invariant
                chunk_tiles > 0,
                key == block_key(chunk_tiles),
                sorted == arranged(jobs@, p@),
                p@.len() == jobs@.len(),
                forall|k: int| 0 <= k < p@.len() ==> (#[trigger] p@[k]) < jobs@.len(),
                start < end <= p@.len(),
                first == sorted[start as int],
                column == first.x / chunk_tiles,
                row == first.y / chunk_tiles,
                chunk@ == sorted.subrange(start as int, end as int),
                forall|k: int| start <= k < end ==> key(#[trigger] sorted[k]) == key(first),
            decreases p@.len() - end,
        {
            chunk.push(jobs[p[end]]);
            end = end + 1;
            assert(chunk@ =~= sorted.subrange(start as int, end as int));
        }
        let ghost rest = sorted.skip(start as int);
        proof {
            if end < p@.len() {
                lemma_blocks_differ(sorted[end as int], first, chunk_tiles);
            }
            assert forall|k: int| 0 <= k < end - start implies key(#[trigger] rest[k]) == key(
                rest[0],
            ) by {
                assert(rest[k] == sorted[k + start]);
            }
            lemma_run_len_is(rest, key, (end - start) as nat);
            assert(rest.take(end - start) =~= chunk@);
            assert(rest.skip(end - start) =~= sorted.skip(end as int));
        }
        let ghost before = lists(chunks@);
        let ghost part = chunk@;
        chunks.push(chunk);
        assert(lists(chunks@) =~= before.push(part));
        assert(before + (seq![part] + runs(sorted.skip(end as int), key)) =~= lists(chunks@)
            + runs(sorted.skip(end as int), key));
        start = end;
    }
    assert(lists(chunks@) + runs(sorted.skip(start as int), key) =~= lists(chunks@));
    assert(stably_sorted(jobs@, sorted, order_key));
    chunks
}

proof fn lemma_blocks_differ(a: TileJob, b: TileJob, chunk_tiles: u32)
    requires
        chunk_tiles > 0,
        a.x / chunk_tiles != b.x / chunk_tiles || a.y / chunk_tiles != b.y / chunk_tiles,
    ensures
        block_key(chunk_tiles)(a) != block_key(chunk_tiles)(b),
{
    lemma_quotient(a.y, chunk_tiles);
    lemma_quotient(b.y, chunk_tiles);
    lemma_quotient(a.x, chunk_tiles);
    lemma_quotient(b.x, chunk_tiles);
}

proof fn lemma_runs_keep_order(
    s: Seq<TileJob>,
    key: spec_fn(TileJob) -> int,
    order: spec_fn(TileJob) -> u128,
)
    requires
        forall|i: int, j: int|
            0 <= i <= j < s.len() ==> order(#[trigger] s[i]) <= order(#[trigger] s[j]),
    ensures
        forall|i: int, a: int, b: int|
            0 <= i < runs(s, key).len() && 0 <= a <= b < runs(s, key)[i].len() ==> order(
                #[trigger] runs(s, key)[i][a],
            ) <= order(#[trigger] runs(s, key)[i][b]),
    decreases s.len(),
{
    if s.len() > 0 {
        lemma_run_len(s, key);
        let n = run_len(s, key) as int;
        let rest = s.skip(n);
        let all = runs(s, key);
        assert forall|i: int, j: int| 0 <= i <= j < rest.len() implies order(#[trigger] rest[i])
            <= order(#[trigger] rest[j]) by {
            assert(order(s[i + n]) <= order(s[j + n]));
        }
        lemma_runs_keep_order(rest, key, order);
        assert forall|i: int, a: int, b: int|
            0 <= i < all.len() && 0 <= a <= b < all[i].len() implies order(
            #[trigger] all[i][a],
        ) <= order(#[trigger] all[i][b]) by {
            if i > 0 {
                assert(all[i] == runs(rest, key)[i - 1]);
            } else {
                assert(all[0][a] == s[a] && all[0][b] == s[b]);
            }
        }
    }
}

/// Grouping into chunks loses no job and adds none. A chunk is not empty, its jobs lie in one
/// block, in the order of their tile numbers, and no block has two chunks.
pub proof fn law_chunks(jobs: Seq<TileJob>, chunk_tiles: u32, chunks: Seq<Seq<TileJob>>)
    requires
        chunk_tiles > 0,
        jobs.len() <= usize::MAX,
        chunked(jobs, chunk_tiles, chunks),
    ensures
        chunks.flatten().to_multiset() == jobs.to_multiset(),
        forall|i: int| 0 <= i < chunks.len() ==> (#[trigger] chunks[i]).len() > 0,
        forall|i: int, a: int, b: int|
            0 <= i < chunks.len() && 0 <= a <= b < chunks[i].len() ==> {
                &&& (#[trigger] chunks[i][a]).x / chunk_tiles == (#[trigger] chunks[i][b]).x
                    / chunk_tiles
                &&& chunks[i][a].y / chunk_tiles == chunks[i][b].y / chunk_tiles
                &&& chunks[i][a].tile_id <= chunks[i][b].tile_id
            },
        forall|i: int, j: int|
            0 <= i < j < chunks.len() ==> block_key(chunk_tiles)((#[trigger] chunks[i])[0])
                < block_key(chunk_tiles)((#[trigger] chunks[j])[0]),
{
    let key = block_key(chunk_tiles);
    let order = block_order_key(chunk_tiles);
    let sorted = choose|sorted: Seq<TileJob>|
        #[trigger] stably_sorted(jobs, sorted, order) && chunks == runs(sorted, key);
    law_stable_sort(jobs, sorted, order);
    law_runs(sorted, key);
    assert forall|a: TileJob, b: TileJob| #![trigger order(a), order(b)] order(a)
        <= order(b) implies key(a) <= key(b) by {
        lemma_order_key(a, b, chunk_tiles);
    }
    assert forall|i: int, j: int| 0 <= i <= j < sorted.len() implies key(#[trigger] sorted[i])
        <= key(#[trigger] sorted[j]) by {
        assert(order(sorted[i]) <= order(sorted[j]));
    }
    law_runs_of_sorted(sorted, key);
    lemma_runs_keep_order(sorted, key, order);
    assert forall|i: int, a: int, b: int|
        0 <= i < chunks.len() && 0 <= a <= b < chunks[i].len() implies {
        &&& (#[trigger] chunks[i][a]).x / chunk_tiles == (#[trigger] chunks[i][b]).x / chunk_tiles
        &&& chunks[i][a].y / chunk_tiles == chunks[i][b].y / chunk_tiles
        &&& chunks[i][a].tile_id <= chunks[i][b].tile_id
    } by {
        let u = chunks[i][a];
        let v = chunks[i][b];
        assert(key(u) == key(v));
        if u.x / chunk_tiles != v.x / chunk_tiles || u.y / chunk_tiles != v.y / chunk_tiles {
            lemma_blocks_differ(u, v, chunk_tiles);
        }
        assert(order(u) <= order(v));
        lemma_order_key(u, v, chunk_tiles);
    }
}

proof fn lemma_order_key(a: TileJob, b: TileJob, chunk_tiles: u32)
    requires
        chunk_tiles > 0,
        block_order_key(chunk_tiles)(a) <= block_order_key(chunk_tiles)(b),
    ensures
        block_key(chunk_tiles)(a) <= block_key(chunk_tiles)(b),
        block_key(chunk_tiles)(a) == block_key(chunk_tiles)(b) ==> a.tile_id <= b.tile_id,
{
    lemma_quotient(a.y, chunk_tiles);
    lemma_quotient(b.y, chunk_tiles);
    lemma_quotient(a.x, chunk_tiles);
    lemma_quotient(b.x, chunk_tiles);
}

proof fn lemma_quotient(v: u32, d: u32)
    requires
        d > 0,
    ensures
        0 <= v / d < 0x1_0000_0000,
{
    assert(0 <= v / d <= v) by (nonlinear_arith)
        requires
            d > 0,
    ;
}

/// Every tile in the range of its zoom level has exactly one job, with its own number, and no
/// other tile has one. The numbers rise along the list.
pub proof fn law_each_tile_has_one_job(
    jobs: Seq<TileJob>,
    ranges: Seq<TileRange>,
    min_zoom: int,
    z: u8,
    x: u32,
    y: u32,
)
    requires
        0 <= min_zoom,
        min_zoom + ranges.len() <= 32,
        ranges_on_grid(ranges, min_zoom),
        in_tile_order(jobs),
        forall|job: TileJob| #[trigger] jobs.contains(job) <==> job_in(ranges, min_zoom, job),
    ensures
        ({
            let wanted = min_zoom <= z < min_zoom + ranges.len() && {
                let range = ranges[z - min_zoom];
                range.min_x <= x <= range.max_x && range.min_y <= y <= range.max_y
            };
            &&& wanted <==> exists|i: int|
                0 <= i < jobs.len() && (#[trigger] jobs[i]).z == z && jobs[i].x == x && jobs[i].y
                    == y
            &&& forall|i: int, j: int|
                0 <= i < j < jobs.len() ==> (#[trigger] jobs[i]).tile_id < (
                #[trigger] jobs[j]).tile_id
            &&& forall|i: int, j: int|
                0 <= i < j < jobs.len() ==> !((#[trigger] jobs[i]).z == (#[trigger] jobs[j]).z
                    && jobs[i].x == jobs[j].x && jobs[i].y == jobs[j].y)
            &&& forall|i: int|
                0 <= i < jobs.len() ==> (#[trigger] jobs[i]).tile_id == tile_id(
                    jobs[i].z as nat,
                    jobs[i].x as nat,
                    jobs[i].y as nat,
                )
        }),
{
    assert forall|i: int| 0 <= i < jobs.len() implies job_in(
        ranges,
        min_zoom,
        #[trigger] jobs[i],
    ) by {
        assert(jobs.contains(jobs[i]));
    }
    let wanted = min_zoom <= z < min_zoom + ranges.len() && {
        let range = ranges[z - min_zoom];
        range.min_x <= x <= range.max_x && range.min_y <= y <= range.max_y
    };
    if wanted {
        lemma2_to64();
        lemma_id_fits(z, x, y, ranges, min_zoom);
        let job = TileJob { z, x, y, tile_id: tile_id(z as nat, x as nat, y as nat) as u64 };
        assert(jobs.contains(job));
        let i = choose|i: int| 0 <= i < jobs.len() && jobs[i] == job;
        assert(jobs[i].z == z && jobs[i].x == x && jobs[i].y == y);
    }
    if exists|i: int|
        0 <= i < jobs.len() && (#[trigger] jobs[i]).z == z && jobs[i].x == x && jobs[i].y == y {
        let i = choose|i: int|
            0 <= i < jobs.len() && (#[trigger] jobs[i]).z == z && jobs[i].x == x && jobs[i].y == y;
        assert(job_in(ranges, min_zoom, jobs[i]));
    }
    assert forall|i: int, j: int| 0 <= i < j < jobs.len() implies !((#[trigger] jobs[i]).z == (
    #[trigger] jobs[j]).z && jobs[i].x == jobs[j].x && jobs[i].y == jobs[j].y) by {
        assert(jobs[i].tile_id < jobs[j].tile_id);
    }
}

proof fn lemma_id_fits(z: u8, x: u32, y: u32, ranges: Seq<TileRange>, min_zoom: int)
    requires
        0 <= min_zoom <= z < min_zoom + ranges.len(),
        min_zoom + ranges.len() <= 32,
        ranges_on_grid(ranges, min_zoom),
        x <= ranges[z - min_zoom].max_x,
        y <= ranges[z - min_zoom].max_y,
    ensures
        tile_id(z as nat, x as nat, y as nat) <= u64::MAX,
{
    lemma2_to64();
    let k = z - min_zoom;
    assert(ranges[k].max_x < pow2((min_zoom + k) as nat));
    if z < 31 {
        lemma_pow2_strictly_increases(z as nat, 31);
    }
    let p = pow2(z as nat);
    lemma_zoom_base(z as nat);
    lemma_hilbert_bound(z as nat, x as nat, y as nat);
    assert(p * p <= 0x8000_0000 * 0x8000_0000) by (nonlinear_arith)
        requires
            0 <= p <= 0x8000_0000,
    ;
}

/// The groups of a list of jobs, one after the other, are the list; a group holds jobs of one
/// zoom level, and the next group those of another.
pub proof fn law_groups_are_zoom_levels(jobs: Seq<TileJob>, groups: Seq<Seq<TileJob>>)
    requires
        groups == runs(jobs, zoom_key()),
    ensures
        groups.flatten() == jobs,
        forall|i: int| 0 <= i < groups.len() ==> (#[trigger] groups[i]).len() > 0,
        forall|i: int, k: int|
            0 <= i < groups.len() && 0 <= k < groups[i].len() ==> (#[trigger] groups[i][k]).z
                == groups[i][0].z,
        forall|i: int|
            0 < i < groups.len() ==> (#[trigger] groups[i])[0].z != groups[i - 1][0].z,
{
    law_runs(jobs, zoom_key());
    let key = zoom_key();
    assert forall|i: int, k: int| 0 <= i < groups.len() && 0 <= k < groups[i].len() implies (
    #[trigger] groups[i][k]).z == groups[i][0].z by {
        assert(key(groups[i][k]) == key(groups[i][0]));
    }
    assert forall|i: int| 0 < i < groups.len() implies (#[trigger] groups[i])[0].z != groups[i
        - 1][0].z by {
        assert(key(groups[i][0]) != key(groups[i - 1][0]));
    }
}

/// Chunks go column by column of blocks, and down each column.
pub proof fn law_chunks_go_down_columns(
    jobs: Seq<TileJob>,
    chunk_tiles: u32,
    chunks: Seq<Seq<TileJob>>,
    i: int,
    j: int,
)
    requires
        chunk_tiles > 0,
        jobs.len() <= usize::MAX,
        chunked(jobs, chunk_tiles, chunks),
        0 <= i < j < chunks.len(),
    ensures
        ({
            let (a, b) = (chunks[i][0], chunks[j][0]);
            ||| a.x / chunk_tiles < b.x / chunk_tiles
            ||| a.x / chunk_tiles == b.x / chunk_tiles && a.y / chunk_tiles < b.y / chunk_tiles
        }),
{
    law_chunks(jobs, chunk_tiles, chunks);
    let (a, b) = (chunks[i][0], chunks[j][0]);
    assert(block_key(chunk_tiles)(a) < block_key(chunk_tiles)(b));
    lemma_quotient(a.x, chunk_tiles);
    lemma_quotient(a.y, chunk_tiles);
    lemma_quotient(b.x, chunk_tiles);
    lemma_quotient(b.y, chunk_tiles);
}

} // verus!
