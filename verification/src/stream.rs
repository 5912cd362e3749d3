//! Writing tiles in the order of their numbers, whatever the order in which they were rendered.
use std::collections::BTreeMap;

use vstd::prelude::*;
use vstd::string::StringExecFns;

use crate::archive::{
    lemma_total_first, lemma_total_grows, rows_of, total_length, ArchiveWriter,
};
use crate::directory::Entry;
use crate::error::{failed, invalid_input, other, refused, Error, ErrorKind};
use crate::jobs::{in_tile_order, no_tile_twice, TileJob};
use crate::order::{
    arrange, law_stable_sort, lemma_order_no_duplicates, stable_order, stably_sorted,
};
use crate::text::{decimal, decimal_text};

verus! {

/// A tile and its encoded image.
#[derive(Debug)]
pub struct RenderedTile {
    pub tile_id: u64,
    pub data: Vec<u8>,
}

/// The message about a tile that is too long for a directory.
pub open spec fn tile_too_long(id: u64) -> Seq<char> {
    "encoded tile exceeds PMTiles entry limit: "@ + decimal(id as nat)
}

/// The image is too long for a directory.
pub open spec fn too_long(tile: RenderedTile) -> bool {
    tile.data@.len() > u32::MAX
}

/// The row of a directory for a tile whose data start at `offset`.
pub open spec fn row_for(tile: RenderedTile, offset: u64) -> Entry {
    Entry { tile_id: tile.tile_id, offset, length: tile.data@.len() as u32, run_length: 1 }
}

/// The length of an encoded tile, as it stands in a directory.
pub fn entry_length(tile_id: u64, length: usize) -> (r: Result<u32, Error>)
    ensures
        if length > u32::MAX {
            refused(r, tile_too_long(tile_id))
        } else {
            r == Ok::<u32, Error>(length as u32)
        },
{
    if length as u64 > u32::MAX as u64 {
        let mut message = "encoded tile exceeds PMTiles entry limit: ".to_owned();
        message.append(decimal_text(tile_id).as_str());
        return Err(invalid_input(message.as_str()));
    }
    Ok(length as u32)
}

/// Adds a rendered tile to the archive. Its data are to be written next.
pub fn write_rendered_tile(writer: &mut ArchiveWriter, rendered: &RenderedTile) -> (r: Result<
    (),
    Error,
>)
    requires
        old(writer).wf(),
        !too_long(*rendered) ==> old(writer).tile_data_length + rendered.data@.len() <= u64::MAX,
    ensures
        final(writer).wf(),
        final(writer).reserved == old(writer).reserved,
        if too_long(*rendered) {
            &&& refused(r, tile_too_long(rendered.tile_id))
            &&& *final(writer) == *old(writer)
        } else {
            &&& r is Ok
            &&& final(writer).entries@ == old(writer).entries@.push(
                row_for(*rendered, old(writer).tile_data_length),
            )
            &&& final(writer).tile_data_length == old(writer).tile_data_length
                + rendered.data@.len()
        },
{
    let length: u32 = entry_length(rendered.tile_id, rendered.data.len())?;
    writer.add_tile(rendered.tile_id, length);
    Ok(())
}

/// The tiles that wait for others, and what was written of a zoom level.
pub struct TileStream {
    pub pending: BTreeMap<u64, RenderedTile>,
    pub next_expected: usize,
    pub completed_chunks: usize,
}

/// Each tile is kept under its number.
pub open spec fn keyed(pending: Map<u64, RenderedTile>) -> bool {
    forall|id: u64| #[trigger] pending.contains_key(id) ==> pending[id].tile_id == id
}

/// The waiting tiles and some more.
pub open spec fn with_tiles(
    pending: Map<u64, RenderedTile>,
    tiles: Seq<RenderedTile>,
) -> Map<u64, RenderedTile>
    decreases tiles.len(),
{
    if tiles.len() == 0 {
        pending
    } else {
        with_tiles(pending, tiles.drop_last()).insert(tiles.last().tile_id, tiles.last())
    }
}

/// What can be written while no expected tile is missing.
pub ghost struct Ready {
    /// The tiles that are written.
    pub tiles: Seq<RenderedTile>,
    /// Number of expected tiles that were written then.
    pub next: nat,
    /// The tiles that go on waiting.
    pub pending: Map<u64, RenderedTile>,
    /// The tile that is too long, where there is one in the way.
    pub refused: Option<u64>,
}

/// Takes tiles out in the expected order until one is missing or too long.
pub open spec fn ready(
    expected: Seq<TileJob>,
    next: nat,
    pending: Map<u64, RenderedTile>,
) -> Ready
    decreases expected.len() - next,
{
    if next >= expected.len() || !pending.contains_key(expected[next as int].tile_id) {
        Ready { tiles: Seq::empty(), next, pending, refused: None }
    } else {
        let id = expected[next as int].tile_id;
        let tile = pending[id];
        let rest = pending.remove(id);
        if too_long(tile) {
            Ready { tiles: Seq::empty(), next, pending: rest, refused: Some(tile.tile_id) }
        } else {
            let more = ready(expected, next + 1, rest);
            Ready { tiles: seq![tile] + more.tiles, ..more }
        }
    }
}

/// Rows of a directory, and the length of the tile data, after some more tiles.
pub open spec fn rows_with(rows: Seq<Entry>, length: u64, tiles: Seq<RenderedTile>) -> (
    Seq<Entry>,
    u64,
)
    decreases tiles.len(),
{
    if tiles.len() == 0 {
        (rows, length)
    } else {
        rows_with(
            rows.push(row_for(tiles[0], length)),
            (length + tiles[0].data@.len()) as u64,
            tiles.drop_first(),
        )
    }
}

/// The message about a zoom level that was not written completely.
pub open spec fn unfinished(
    completed_chunks: nat,
    chunk_count: nat,
    written: nat,
    expected: nat,
    waiting: bool,
) -> Option<Seq<char>> {
    if completed_chunks != chunk_count {
        Some("not all chunk workers completed"@)
    } else if written != expected || waiting {
        Some("not all rendered tiles were written"@)
    } else {
        None
    }
}

/// A zoom level is complete only where all chunks came in, all expected tiles were written and
/// none is left waiting.
pub proof fn law_zoom_is_complete(
    completed_chunks: nat,
    chunk_count: nat,
    written: nat,
    expected: nat,
    waiting: bool,
)
    ensures
        unfinished(completed_chunks, chunk_count, written, expected, waiting) is None
            <==> completed_chunks == chunk_count && written == expected && !waiting,
        completed_chunks != chunk_count ==> unfinished(
            completed_chunks,
            chunk_count,
            written,
            expected,
            waiting,
        ) == Some("not all chunk workers completed"@),
        completed_chunks == chunk_count && (written != expected || waiting) ==> unfinished(
            completed_chunks,
            chunk_count,
            written,
            expected,
            waiting,
        ) == Some("not all rendered tiles were written"@),
{
}

/// The tiles whose data are to be written now, in order, and the error that comes after them.
pub struct ReadyTiles {
    pub tiles: Vec<RenderedTile>,
    pub error: Option<Error>,
}

impl TileStream {
    /// Each waiting tile is kept under its number.
    pub open spec fn wf(self) -> bool {
        keyed(self.pending@)
    }

    /// A stream in which nothing waits.
    pub fn new() -> (r: TileStream)
        ensures
            r.wf(),
            r.pending@ == Map::<u64, RenderedTile>::empty(),
            r.next_expected == 0,
            r.completed_chunks == 0,
    {
        TileStream { pending: BTreeMap::new(), next_expected: 0, completed_chunks: 0 }
    }

    /// Takes in the tiles of a chunk, and adds to the archive all tiles for which no earlier one
    /// is missing.
    pub fn write_ready_tiles(
        &mut self,
        writer: &mut ArchiveWriter,
        expected_jobs: &[TileJob],
        rendered_tiles: Vec<RenderedTile>,
    ) -> (r: ReadyTiles)
        requires
            old(self).wf(),
            old(writer).wf(),
            old(writer).tile_data_length + total_length(
                tile_lengths(
                    ready(
                        expected_jobs@,
                        old(self).next_expected as nat,
                        with_tiles(old(self).pending@, rendered_tiles@),
                    ).tiles,
                ),
            ) <= u64::MAX,
        ensures
            final(self).wf(),
            final(writer).wf(),
            final(writer).reserved == old(writer).reserved,
            final(self).completed_chunks == old(self).completed_chunks,
            ({
                let now = ready(
                    expected_jobs@,
                    old(self).next_expected as nat,
                    with_tiles(old(self).pending@, rendered_tiles@),
                );
                &&& r.tiles@ == now.tiles
                &&& final(self).next_expected == now.next
                &&& final(self).pending@ == now.pending
                &&& (final(writer).entries@, final(writer).tile_data_length) == rows_with(
                    old(writer).entries@,
                    old(writer).tile_data_length,
                    now.tiles,
                )
                &&& match now.refused {
                    Some(id) => r.error matches Some(e) && e.says(
                        ErrorKind::InvalidInput,
                        tile_too_long(id),
                    ),
                    None => r.error is None,
                }
            }),
    {
        let ghost start = self.pending@;
        let ghost given = rendered_tiles@;
        assert(given.take(0) =~= Seq::empty());
        for rendered in it: rendered_tiles
            invariant
                it.seq() == given,
                self.pending@ == with_tiles(start, given.take(it.index())),
                keyed(self.pending@),
                self.next_expected == old(self).next_expected,
                self.completed_chunks == old(self).completed_chunks,
        {
            let ghost k = it.index();
            let ghost before = self.pending@;
            self.pending.insert(rendered.tile_id, rendered);
            proof {
                assert(given.take(k + 1).drop_last() =~= given.take(k));
                assert(given.take(k + 1).last() == rendered);
            }
        }
        assert(given.take(given.len() as int) =~= given);
        let ghost now = ready(
            expected_jobs@,
            self.next_expected as nat,
            with_tiles(start, given),
        );
        let ghost rows = writer.entries@;
        let ghost length = writer.tile_data_length;
        let mut tiles: Vec<RenderedTile> = Vec::new();
        let total: usize = expected_jobs.len();
        let mut going: bool = true;
        assert(tiles@ + now.tiles =~= now.tiles);
        while going && self.next_expected < total
            invariant
                total == expected_jobs@.len(),
                now == ready(
                    expected_jobs@,
                    old(self).next_expected as nat,
                    with_tiles(old(self).pending@, rendered_tiles@),
                ),
                rows == old(writer).entries@,
                length == old(writer).tile_data_length,
                keyed(self.pending@),
                writer.wf(),
                writer.reserved == old(writer).reserved,
                self.completed_chunks == old(self).completed_chunks,
                self.next_expected <= total || self.next_expected == old(self).next_expected,
                ({
                    let rest = ready(expected_jobs@, self.next_expected as nat, self.pending@);
                    &&& tiles@ + rest.tiles == now.tiles
                    &&& writer.tile_data_length + total_length(tile_lengths(rest.tiles))
                        <= u64::MAX
                    &&& rest.next == now.next
                    &&& rest.pending == now.pending
                    &&& rest.refused == now.refused
                    &&& rows_with(writer.entries@, writer.tile_data_length, rest.tiles)
                        == rows_with(rows, length, now.tiles)
                    &&& !going ==> rest.tiles.len() == 0 && rest.refused is None && rest.next
                        == self.next_expected && rest.pending == self.pending@
                }),
            decreases total - self.next_expected, (if going { 1int } else { 0int }),
        {
            let tile_id: u64 = expected_jobs[self.next_expected].tile_id;
            let ghost next = self.next_expected as nat;
            let ghost pending = self.pending@;
            let ghost rest = ready(expected_jobs@, next, pending);
            match self.pending.remove(&tile_id) {
                Some(rendered) => {
                    let ghost left = self.pending@;
                    assert(left =~= pending.remove(tile_id));
                    assert(rendered == pending[tile_id]);
                    let ghost tile = rendered;
                    let ghost more = ready(expected_jobs@, next + 1, left);
                    proof {
                        if !too_long(tile) {
                            assert(rest.tiles.drop_first() =~= more.tiles);
                            lemma_total_first(tile_lengths(rest.tiles));
                            assert(tile_lengths(rest.tiles).drop_first() =~= tile_lengths(
                                more.tiles,
                            ));
                        }
                    }
                    match write_rendered_tile(writer, &rendered) {
                        Err(error) => {
                            assert(tiles@ + Seq::<RenderedTile>::empty() =~= tiles@);
                            return ReadyTiles { tiles, error: Some(error) };
                        },
                        Ok(()) => {
                            proof {
                                assert(tiles@ + rest.tiles =~= tiles@.push(tile) + more.tiles);
                            }
                            tiles.push(rendered);
                            self.next_expected = self.next_expected + 1;
                        },
                    }
                },
                None => {
                    assert(self.pending@ =~= pending);
                    going = false;
                },
            }
        }
        proof {
            let rest = ready(expected_jobs@, self.next_expected as nat, self.pending@);
            assert(rest.tiles.len() == 0);
            assert(tiles@ + rest.tiles =~= tiles@);
        }
        ReadyTiles { tiles, error: None }
    }

    /// Counts one more chunk that came in.
    pub fn count_chunk(&mut self)
        requires
            old(self).completed_chunks < usize::MAX,
        ensures
            *final(self) == (TileStream {
                completed_chunks: (old(self).completed_chunks + 1) as usize,
                ..*old(self)
            }),
    {
        self.completed_chunks = self.completed_chunks + 1;
    }

    /// Looks whether all chunks came in and all tiles were written.
    pub fn finish(&self, chunk_count: usize, expected_jobs: &[TileJob]) -> (r: Result<(), Error>)
        ensures
            match unfinished(
                self.completed_chunks as nat,
                chunk_count as nat,
                self.next_expected as nat,
                expected_jobs@.len(),
                self.pending@.dom() != Set::<u64>::empty(),
            ) {
                Some(message) => failed(r, message),
                None => r is Ok,
            },
            if self.completed_chunks != chunk_count {
                failed(r, "not all chunk workers completed"@)
            } else if self.next_expected != expected_jobs@.len() || self.pending@.dom()
                != Set::<u64>::empty() {
                failed(r, "not all rendered tiles were written"@)
            } else {
                r is Ok
            },
    {
        if self.completed_chunks != chunk_count {
            return Err(other("not all chunk workers completed"));
        }
        let empty = self.pending.is_empty();
        assert(empty <==> self.pending@.dom() == Set::<u64>::empty()) by {
            if self.pending@.dom() == Set::<u64>::empty() {
                assert(self.pending@ =~= Map::empty());
            }
        }
        if self.next_expected != expected_jobs.len() || !empty {
            return Err(other("not all rendered tiles were written"));
        }
        Ok(())
    }
}

/// The tiles of each chunk, by the place of the chunk.
pub struct ChunkCollector {
    pub slots: Vec<Option<Vec<RenderedTile>>>,
    pub completed: usize,
}

/// All tiles of the chunks, one chunk after the other.
pub open spec fn joined_chunks(slots: Seq<Option<Vec<RenderedTile>>>) -> Seq<RenderedTile>
    decreases slots.len(),
{
    if slots.len() == 0 {
        Seq::empty()
    } else {
        joined_chunks(slots.drop_last()) + (match slots.last() {
            Some(tiles) => tiles@,
            None => Seq::empty(),
        })
    }
}

impl ChunkCollector {
    /// A collector for so many chunks.
    pub fn new(chunk_count: usize) -> (r: ChunkCollector)
        ensures
            r.slots@.len() == chunk_count,
            forall|i: int| 0 <= i < chunk_count ==> (#[trigger] r.slots@[i]) is None,
            r.completed == 0,
    {
        let mut slots: Vec<Option<Vec<RenderedTile>>> = Vec::new();
        let mut i: usize = 0;
        while i < chunk_count
            invariant
                i <= chunk_count,
                slots@.len() == i,
                forall|k: int| 0 <= k < i ==> (#[trigger] slots@[k]) is None,
            decreases chunk_count - i,
        {
            slots.push(None);
            i = i + 1;
        }
        ChunkCollector { slots, completed: 0 }
    }

    /// Takes in the tiles of one chunk.
    pub fn put(&mut self, chunk_index: usize, tiles: Vec<RenderedTile>)
        requires
            chunk_index < old(self).slots@.len(),
            old(self).completed < usize::MAX,
        ensures
            final(self).slots@ == old(self).slots@.update(chunk_index as int, Some(tiles)),
            final(self).completed == old(self).completed + 1,
    {
        self.completed = self.completed + 1;
        self.slots[chunk_index] = Some(tiles);
    }

    /// All tiles in the order of the chunks.
    pub fn finish(self) -> (r: Result<Vec<RenderedTile>, Error>)
        ensures
            if self.completed != self.slots@.len() {
                failed(r, "not all chunk workers completed"@)
            } else if exists|i: int|
                0 <= i < self.slots@.len() && (#[trigger] self.slots@[i]) is None {
                failed(r, "missing rendered chunk"@)
            } else {
                r matches Ok(tiles) && tiles@ == joined_chunks(self.slots@)
            },
    {
        if self.completed != self.slots.len() {
            return Err(other("not all chunk workers completed"));
        }
        let ghost slots = self.slots@;
        let mut all: Vec<RenderedTile> = Vec::new();
        assert(slots.take(0) =~= Seq::empty());
        for slot in it: self.slots
            invariant
                it.seq() == slots,
                slots == self.slots@,
                self.completed == slots.len(),
                forall|k: int| 0 <= k < it.index() ==> (#[trigger] slots[k]) is Some,
                all@ == joined_chunks(slots.take(it.index())),
        {
            let ghost k = it.index();
            assert(slots.take(k + 1).drop_last() =~= slots.take(k));
            assert(slot == slots[k]);
            match slot {
                Some(tiles) => {
                    let mut tiles = tiles;
                    all.append(&mut tiles);
                },
                None => {
                    return Err(other("missing rendered chunk"));
                },
            }
        }
        assert(slots.take(slots.len() as int) =~= slots);
        Ok(all)
    }
}

/// The key by which rendered tiles are sorted.
pub open spec fn tile_key() -> spec_fn(RenderedTile) -> u128 {
    |tile: RenderedTile| tile.tile_id as u128
}

/// Sorts rendered tiles by their numbers.
pub fn sort_tiles(tiles: Vec<RenderedTile>) -> (r: Vec<RenderedTile>)
    ensures
        stably_sorted(tiles@, r@, tile_key()),
{
    let mut keys: Vec<u128> = Vec::new();
    let mut i: usize = 0;
    while i < tiles.len()
        invariant
            i <= tiles@.len(),
            keys@ == tiles@.map_values(tile_key()).take(i as int),
        decreases tiles@.len() - i,
    {
        keys.push(tiles[i].tile_id as u128);
        i = i + 1;
        assert(keys@ =~= tiles@.map_values(tile_key()).take(i as int));
    }
    assert(keys@ =~= tiles@.map_values(tile_key()));
    let p = stable_order(&keys);
    proof {
        lemma_order_no_duplicates(keys@, p@);
    }
    arrange(tiles, &p)
}

/// The tiles that several workers rendered, sorted by their numbers.
pub fn collect_tiles(rendered: Vec<RenderedTile>, job_count: usize) -> (r: Result<
    Vec<RenderedTile>,
    Error,
>)
    ensures
        if rendered@.len() != job_count {
            failed(r, "not all tile workers completed"@)
        } else {
            r matches Ok(tiles) && stably_sorted(rendered@, tiles@, tile_key())
        },
{
    if rendered.len() != job_count {
        return Err(other("not all tile workers completed"));
    }
    Ok(sort_tiles(rendered))
}

/// What is written next are the tiles of the next expected jobs, one for each, in their order.
pub proof fn law_ready_tiles_follow_jobs(
    expected: Seq<TileJob>,
    next: nat,
    pending: Map<u64, RenderedTile>,
)
    requires
        keyed(pending),
        next <= expected.len(),
    ensures
        ({
            let now = ready(expected, next, pending);
            &&& now.next == next + now.tiles.len()
            &&& now.next <= expected.len()
            &&& forall|k: int|
                0 <= k < now.tiles.len() ==> (#[trigger] now.tiles[k]).tile_id == expected[next
                    + k].tile_id
            &&& in_tile_order(expected) ==> forall|i: int, j: int|
                0 <= i < j < now.tiles.len() ==> (#[trigger] now.tiles[i]).tile_id < (
                #[trigger] now.tiles[j]).tile_id
        }),
    decreases expected.len() - next,
{
    let now = ready(expected, next, pending);
    if next < expected.len() && pending.contains_key(expected[next as int].tile_id) {
        let id = expected[next as int].tile_id;
        let rest = pending.remove(id);
        if !too_long(pending[id]) {
            law_ready_tiles_follow_jobs(expected, next + 1, rest);
            let more = ready(expected, next + 1, rest);
            assert forall|k: int| 0 <= k < now.tiles.len() implies (
            #[trigger] now.tiles[k]).tile_id == expected[next + k].tile_id by {
                if k > 0 {
                    assert(now.tiles[k] == more.tiles[k - 1]);
                }
            }
        }
    }
    if in_tile_order(expected) {
        assert forall|i: int, j: int| 0 <= i < j < now.tiles.len() implies (
        #[trigger] now.tiles[i]).tile_id < (#[trigger] now.tiles[j]).tile_id by {
            assert(expected[next + i].tile_id < expected[next + j].tile_id);
        }
    }
}

/// It makes no difference whether tiles come in at once or one batch after the other.
pub proof fn law_batches(
    expected: Seq<TileJob>,
    next: nat,
    first: Map<u64, RenderedTile>,
    second: Map<u64, RenderedTile>,
)
    requires
        first.dom().disjoint(second.dom()),
        ready(expected, next, first).refused is None,
    ensures
        ({
            let one = ready(expected, next, first);
            let two = ready(expected, one.next, one.pending.union_prefer_right(second));
            let both = ready(expected, next, first.union_prefer_right(second));
            &&& both.tiles == one.tiles + two.tiles
            &&& both.next == two.next
            &&& both.pending == two.pending
            &&& both.refused == two.refused
        }),
    decreases expected.len() - next,
{
    let one = ready(expected, next, first);
    let both = ready(expected, next, first.union_prefer_right(second));
    if next < expected.len() && first.contains_key(expected[next as int].tile_id) {
        let id = expected[next as int].tile_id;
        let rest = first.remove(id);
        law_batches(expected, next + 1, rest, second);
        assert(first.union_prefer_right(second).remove(id) =~= rest.union_prefer_right(second));
        assert(first.union_prefer_right(second)[id] == first[id]);
        let two = ready(expected, one.next, one.pending.union_prefer_right(second));
        assert(both.tiles =~= one.tiles + two.tiles);
    } else {
        assert(both.tiles =~= one.tiles + both.tiles);
    }
}

/// Where every expected tile is there, and no other, and none is too long, all are written and
/// none is left.
pub proof fn law_all_tiles_are_written(
    expected: Seq<TileJob>,
    next: nat,
    pending: Map<u64, RenderedTile>,
)
    requires
        next <= expected.len(),
        no_tile_twice(expected),
        forall|id: u64| #[trigger] pending.contains_key(id) ==> !too_long(pending[id]),
        forall|id: u64| #[trigger]
            pending.contains_key(id) <==> exists|k: int|
                next <= k < expected.len() && (#[trigger] expected[k]).tile_id == id,
    ensures
        ready(expected, next, pending).next == expected.len(),
        ready(expected, next, pending).pending == Map::<u64, RenderedTile>::empty(),
        ready(expected, next, pending).refused is None,
    decreases expected.len() - next,
{
    if next < expected.len() {
        let id = expected[next as int].tile_id;
        assert(pending.contains_key(id));
        let rest = pending.remove(id);
        assert forall|other: u64| #[trigger] rest.contains_key(other) <==> exists|k: int|
            next + 1 <= k < expected.len() && (#[trigger] expected[k]).tile_id == other by {
            if rest.contains_key(other) {
                assert(pending.contains_key(other));
                let k = choose|k: int|
                    next <= k < expected.len() && (#[trigger] expected[k]).tile_id == other;
                assert(k != next);
            }
            if exists|k: int|
                next + 1 <= k < expected.len() && (#[trigger] expected[k]).tile_id == other {
                let k = choose|k: int|
                    next + 1 <= k < expected.len() && (#[trigger] expected[k]).tile_id == other;
                assert(expected[next as int].tile_id != expected[k].tile_id);
                assert(pending.contains_key(other));
            }
        }
        assert forall|other: u64| #[trigger] rest.contains_key(other) implies !too_long(
            rest[other],
        ) by {
            assert(pending.contains_key(other));
        }
        law_all_tiles_are_written(expected, next + 1, rest);
    } else {
        assert forall|id: u64| !#[trigger] pending.contains_key(id) by {}
        assert(pending =~= Map::empty());
    }
}

/// What is written while one batch of tiles comes in after the other. Nothing more is taken in
/// after a tile that is too long.
pub open spec fn streamed(
    expected: Seq<TileJob>,
    next: nat,
    pending: Map<u64, RenderedTile>,
    batches: Seq<Seq<RenderedTile>>,
) -> Ready
    decreases batches.len(),
{
    if batches.len() == 0 {
        Ready { tiles: Seq::empty(), next, pending, refused: None }
    } else {
        let now = ready(expected, next, with_tiles(pending, batches[0]));
        if now.refused is Some {
            now
        } else {
            let more = streamed(expected, now.next, now.pending, batches.drop_first());
            Ready { tiles: now.tiles + more.tiles, ..more }
        }
    }
}

/// The numbers of some tiles.
pub open spec fn tile_ids(tiles: Seq<RenderedTile>) -> Seq<u64> {
    tiles.map_values(|tile: RenderedTile| tile.tile_id)
}

/// None of the waiting tiles is too long for a directory.
pub open spec fn none_too_long(pending: Map<u64, RenderedTile>) -> bool {
    forall|id: u64| #[trigger] pending.contains_key(id) ==> !too_long(pending[id])
}

proof fn lemma_with_tiles(pending: Map<u64, RenderedTile>, tiles: Seq<RenderedTile>)
    ensures
        forall|id: u64| #[trigger]
            with_tiles(pending, tiles).contains_key(id) <==> pending.contains_key(id)
                || tile_ids(tiles).contains(id),
        keyed(pending) ==> keyed(with_tiles(pending, tiles)),
        none_too_long(pending) && (forall|i: int|
            0 <= i < tiles.len() ==> !too_long(#[trigger] tiles[i])) ==> none_too_long(
            with_tiles(pending, tiles),
        ),
        with_tiles(pending, tiles) == pending.union_prefer_right(
            with_tiles(Map::empty(), tiles),
        ),
    decreases tiles.len(),
{
    let ids = tile_ids(tiles);
    if tiles.len() == 0 {
        assert(with_tiles(pending, tiles) =~= pending.union_prefer_right(
            with_tiles(Map::empty(), tiles),
        ));
        assert forall|id: u64| !#[trigger] ids.contains(id) by {}
    } else {
        let rest = tiles.drop_last();
        let last = tiles.last();
        lemma_with_tiles(pending, rest);
        assert(ids =~= tile_ids(rest).push(last.tile_id));
        assert forall|id: u64| #[trigger] ids.contains(id) <==> tile_ids(rest).contains(id) || id
            == last.tile_id by {
            if tile_ids(rest).contains(id) {
                let k = choose|k: int| 0 <= k < tile_ids(rest).len() && tile_ids(rest)[k] == id;
                assert(ids[k] == id);
            }
            if id == last.tile_id {
                assert(ids[tiles.len() - 1] == id);
            }
        }
        assert(with_tiles(pending, tiles) =~= pending.union_prefer_right(
            with_tiles(Map::empty(), tiles),
        ));
        if none_too_long(pending) && (forall|i: int|
            0 <= i < tiles.len() ==> !too_long(#[trigger] tiles[i])) {
            assert forall|i: int| 0 <= i < rest.len() implies !too_long(#[trigger] rest[i]) by {
                assert(rest[i] == tiles[i]);
            }
            assert(!too_long(tiles[tiles.len() - 1]));
        }
    }
}

proof fn lemma_with_tiles_twice(
    pending: Map<u64, RenderedTile>,
    a: Seq<RenderedTile>,
    b: Seq<RenderedTile>,
)
    ensures
        with_tiles(pending, a + b) == with_tiles(with_tiles(pending, a), b),
    decreases b.len(),
{
    if b.len() == 0 {
        assert(a + b =~= a);
    } else {
        lemma_with_tiles_twice(pending, a, b.drop_last());
        assert((a + b).drop_last() =~= a + b.drop_last());
    }
}

proof fn lemma_ready_takes_out(
    expected: Seq<TileJob>,
    next: nat,
    pending: Map<u64, RenderedTile>,
)
    requires
        none_too_long(pending),
    ensures
        ready(expected, next, pending).refused is None,
        none_too_long(ready(expected, next, pending).pending),
        forall|id: u64| #[trigger]
            ready(expected, next, pending).pending.contains_key(id) ==> pending.contains_key(id),
    decreases expected.len() - next,
{
    if next < expected.len() && pending.contains_key(expected[next as int].tile_id) {
        let id = expected[next as int].tile_id;
        assert(!too_long(pending[id]));
        let rest = pending.remove(id);
        assert forall|other: u64| #[trigger] rest.contains_key(other) implies !too_long(
            rest[other],
        ) by {
            assert(pending.contains_key(other));
        }
        lemma_ready_takes_out(expected, next + 1, rest);
    }
}

proof fn lemma_streamed(
    expected: Seq<TileJob>,
    next: nat,
    pending: Map<u64, RenderedTile>,
    batches: Seq<Seq<RenderedTile>>,
)
    requires
        none_too_long(pending),
        forall|i: int|
            0 <= i < batches.flatten().len() ==> !too_long(#[trigger] batches.flatten()[i]),
        tile_ids(batches.flatten()).no_duplicates(),
        forall|id: u64| #[trigger]
            tile_ids(batches.flatten()).contains(id) ==> !pending.contains_key(id),
        batches.len() == 0 ==> ready(expected, next, pending).tiles.len() == 0,
    ensures
        streamed(expected, next, pending, batches) == ready(
            expected,
            next,
            with_tiles(pending, batches.flatten()),
        ),
    decreases batches.len(),
{
    let all = batches.flatten();
    if batches.len() == 0 {
        lemma_ready_takes_out(expected, next, pending);
        let now = ready(expected, next, pending);
        assert(now.tiles =~= Seq::empty());
        if next < expected.len() && pending.contains_key(expected[next as int].tile_id) {
            assert(!too_long(pending[expected[next as int].tile_id]));
        }
    } else {
        let first = batches[0];
        let rest = batches.drop_first();
        let later = rest.flatten();
        let have = with_tiles(pending, first);
        let one = ready(expected, next, have);
        assert(all =~= first + later);
        assert forall|i: int| 0 <= i < first.len() implies !too_long(#[trigger] first[i]) by {
            assert(all[i] == first[i]);
        }
        assert forall|i: int| 0 <= i < later.len() implies !too_long(#[trigger] later[i]) by {
            assert(all[first.len() + i] == later[i]);
        }
        let ids = tile_ids(all);
        assert(tile_ids(later).no_duplicates()) by {
            assert forall|i: int, j: int|
                0 <= i < later.len() && 0 <= j < later.len() && i != j implies tile_ids(later)[i]
                != tile_ids(later)[j] by {
                assert(ids[first.len() + i] == tile_ids(later)[i]);
                assert(ids[first.len() + j] == tile_ids(later)[j]);
            }
        }
        lemma_with_tiles(pending, first);
        lemma_ready_takes_out(expected, next, have);
        assert forall|id: u64| #[trigger] tile_ids(later).contains(id) implies !have.contains_key(
            id,
        ) by {
            let j = choose|j: int| 0 <= j < later.len() && tile_ids(later)[j] == id;
            assert(ids[first.len() + j] == id);
            assert(ids.contains(id));
            if tile_ids(first).contains(id) {
                let i = choose|i: int| 0 <= i < first.len() && tile_ids(first)[i] == id;
                assert(ids[i] == id);
            }
        }
        lemma_still_nothing(expected, next, have);
        lemma_streamed(expected, one.next, one.pending, rest);
        let second = with_tiles(Map::empty(), later);
        lemma_with_tiles(Map::empty(), later);
        lemma_with_tiles(have, later);
        lemma_with_tiles(one.pending, later);
        lemma_with_tiles_twice(pending, first, later);
        assert(have.dom().disjoint(second.dom()));
        law_batches(expected, next, have, second);
    }
}

/// After what is ready was taken out, nothing more is.
proof fn lemma_still_nothing(expected: Seq<TileJob>, next: nat, pending: Map<u64, RenderedTile>)
    requires
        none_too_long(pending),
    ensures
        ready(
            expected,
            ready(expected, next, pending).next,
            ready(expected, next, pending).pending,
        ).tiles.len() == 0,
    decreases expected.len() - next,
{
    if next < expected.len() && pending.contains_key(expected[next as int].tile_id) {
        let id = expected[next as int].tile_id;
        assert(!too_long(pending[id]));
        let rest = pending.remove(id);
        assert forall|other: u64| #[trigger] rest.contains_key(other) implies !too_long(
            rest[other],
        ) by {
            assert(pending.contains_key(other));
        }
        lemma_still_nothing(expected, next + 1, rest);
    }
}

/// A zoom level is written completely and in order: where the batches together hold one tile for
/// each expected job and no other, then, in whatever batches and order they come in, the tiles
/// are written in the order of the jobs, and nothing is left.
pub proof fn law_stream_writes_all_tiles_in_order(
    expected: Seq<TileJob>,
    batches: Seq<Seq<RenderedTile>>,
)
    requires
        no_tile_twice(expected),
        forall|i: int|
            0 <= i < batches.flatten().len() ==> !too_long(#[trigger] batches.flatten()[i]),
        tile_ids(batches.flatten()).no_duplicates(),
        forall|id: u64| #[trigger]
            tile_ids(batches.flatten()).contains(id) <==> exists|k: int|
                0 <= k < expected.len() && (#[trigger] expected[k]).tile_id == id,
    ensures
        ({
            let all = streamed(expected, 0, Map::empty(), batches);
            &&& all.next == expected.len()
            &&& all.pending == Map::<u64, RenderedTile>::empty()
            &&& all.refused is None
            &&& all.tiles.len() == expected.len()
            &&& forall|k: int|
                0 <= k < expected.len() ==> (#[trigger] all.tiles[k]).tile_id
                    == expected[k].tile_id
        }),
{
    let tiles = batches.flatten();
    let have = with_tiles(Map::empty(), tiles);
    lemma_with_tiles(Map::empty(), tiles);
    assert(none_too_long(have));
    assert(ready(expected, 0, Map::<u64, RenderedTile>::empty()).tiles.len() == 0);
    lemma_streamed(expected, 0, Map::empty(), batches);
    assert forall|id: u64| #[trigger] have.contains_key(id) <==> exists|k: int|
        0 <= k < expected.len() && (#[trigger] expected[k]).tile_id == id by {
        assert(have.contains_key(id) <==> tile_ids(tiles).contains(id));
    }
    law_all_tiles_are_written(expected, 0, have);
    law_ready_tiles_follow_jobs(expected, 0, have);
}

/// Number and length of each of some tiles.
pub open spec fn tile_lengths(tiles: Seq<RenderedTile>) -> Seq<(u64, u32)> {
    tiles.map_values(|tile: RenderedTile| (tile.tile_id, tile.data@.len() as u32))
}

/// The rows that are added while tiles are written are those of the tiles behind the ones that
/// were there before.
pub proof fn law_written_rows(written: Seq<(u64, u32)>, tiles: Seq<RenderedTile>)
    requires
        forall|i: int| 0 <= i < tiles.len() ==> !too_long(#[trigger] tiles[i]),
        total_length(written + tile_lengths(tiles)) <= u64::MAX,
    ensures
        rows_with(rows_of(written), total_length(written) as u64, tiles) == (
            rows_of(written + tile_lengths(tiles)),
            total_length(written + tile_lengths(tiles)) as u64,
        ),
    decreases tiles.len(),
{
    if tiles.len() == 0 {
        assert(written + tile_lengths(tiles) =~= written);
    } else {
        let first = (tiles[0].tile_id, tiles[0].data@.len() as u32);
        let rest = tiles.drop_first();
        let more = written.push(first);
        assert(more + tile_lengths(rest) =~= written + tile_lengths(tiles));
        assert(more.drop_last() =~= written);
        lemma_total_grows(more, tile_lengths(rest));
        assert(!too_long(tiles[0]));
        assert forall|i: int| 0 <= i < rest.len() implies !too_long(#[trigger] rest[i]) by {
            assert(rest[i] == tiles[i + 1]);
        }
        law_written_rows(more, rest);
    }
}

/// A tile is too long for a directory where its length takes more than 32 bits, and the row of
/// any other holds its number, its place and its length, and says that it is one tile.
pub proof fn law_row_of_tile(tile: RenderedTile, offset: u64)
    ensures
        too_long(tile) <==> tile.data@.len() > 4_294_967_295,
        !too_long(tile) ==> row_for(tile, offset).length == tile.data@.len(),
        row_for(tile, offset).tile_id == tile.tile_id,
        row_for(tile, offset).offset == offset,
        row_for(tile, offset).run_length == 1,
{
}

/// Tiles that come in wait under their numbers; of two with one number the later is kept, and
/// those that waited before go on waiting.
pub proof fn law_tiles_wait(
    pending: Map<u64, RenderedTile>,
    tiles: Seq<RenderedTile>,
    next: RenderedTile,
    id: u64,
)
    ensures
        with_tiles(pending, Seq::empty()) == pending,
        with_tiles(pending, tiles.push(next)).contains_key(next.tile_id),
        with_tiles(pending, tiles.push(next))[next.tile_id] == next,
        id != next.tile_id ==> (with_tiles(pending, tiles.push(next)).contains_key(id)
            <==> with_tiles(pending, tiles).contains_key(id)),
        id != next.tile_id ==> with_tiles(pending, tiles.push(next))[id] == with_tiles(
            pending,
            tiles,
        )[id],
{
    assert(tiles.push(next).drop_last() =~= tiles);
}

/// What is written are waiting tiles as they came in, and they wait no longer; all others go on
/// waiting. Writing stops only where all jobs are done, where the next tile is not there, or where
/// it is too long, and then that tile is the one that is refused.
pub proof fn law_ready_writes_what_it_can(
    expected: Seq<TileJob>,
    next: nat,
    pending: Map<u64, RenderedTile>,
    id: u64,
)
    requires
        keyed(pending),
        no_tile_twice(expected),
        next <= expected.len(),
    ensures
        ({
            let now = ready(expected, next, pending);
            &&& forall|k: int|
                0 <= k < now.tiles.len() ==> pending.contains_key(
                    (#[trigger] now.tiles[k]).tile_id,
                ) && now.tiles[k] == pending[now.tiles[k].tile_id] && now.tiles[k].data@.len()
                    <= 4_294_967_295 && now.tiles[k].tile_id == expected[next + k].tile_id
            &&& now.next == next + now.tiles.len()
            &&& now.pending.contains_key(id) ==> pending.contains_key(id) && now.pending[id]
                == pending[id]
            &&& now.refused is None && now.next < expected.len() ==> !pending.contains_key(
                expected[now.next as int].tile_id,
            )
            &&& now.refused matches Some(refused) ==> {
                &&& now.next < expected.len()
                &&& refused == expected[now.next as int].tile_id
                &&& pending.contains_key(refused)
                &&& pending[refused].data@.len() > 4_294_967_295
            }
        }),
    decreases expected.len() - next,
{
    let now = ready(expected, next, pending);
    if next < expected.len() && pending.contains_key(expected[next as int].tile_id) {
        let first = expected[next as int].tile_id;
        let rest = pending.remove(first);
        if !too_long(pending[first]) {
            law_ready_writes_what_it_can(expected, next + 1, rest, id);
            let more = ready(expected, next + 1, rest);
            assert forall|k: int| 0 <= k < now.tiles.len() implies pending.contains_key(
                (#[trigger] now.tiles[k]).tile_id,
            ) && now.tiles[k] == pending[now.tiles[k].tile_id] && now.tiles[k].data@.len()
                <= 4_294_967_295 && now.tiles[k].tile_id == expected[next + k].tile_id by {
                if k > 0 {
                    assert(now.tiles[k] == more.tiles[k - 1]);
                }
            }
            if now.next < expected.len() {
                assert(expected[now.next as int].tile_id != expected[next as int].tile_id);
            }
        }
    }
}

/// All tiles of the chunks are joined in the order of the chunks.
pub proof fn law_chunks_are_joined(
    slots: Seq<Option<Vec<RenderedTile>>>,
    next: Vec<RenderedTile>,
)
    ensures
        joined_chunks(Seq::empty()).len() == 0,
        joined_chunks(slots.push(Some(next))) == joined_chunks(slots) + next@,
        joined_chunks(slots.push(None)) == joined_chunks(slots),
{
    assert(slots.push(Some(next)).drop_last() =~= slots);
    assert(slots.push(None).drop_last() =~= slots);
    assert(joined_chunks(slots.push(None)) =~= joined_chunks(slots));
}

/// The tiles of several workers are kept and put in the order of their numbers.
pub proof fn law_tiles_are_sorted(before: Seq<RenderedTile>, after: Seq<RenderedTile>)
    requires
        stably_sorted(before, after, tile_key()),
        before.len() <= usize::MAX,
    ensures
        after.to_multiset() == before.to_multiset(),
        forall|i: int, j: int|
            0 <= i <= j < after.len() ==> (#[trigger] after[i]).tile_id <= (
            #[trigger] after[j]).tile_id,
{
    law_stable_sort(before, after, tile_key());
    assert forall|i: int, j: int| 0 <= i <= j < after.len() implies (
    #[trigger] after[i]).tile_id <= (#[trigger] after[j]).tile_id by {
        assert(tile_key()(after[i]) <= tile_key()(after[j]));
    }
}

} // verus!
