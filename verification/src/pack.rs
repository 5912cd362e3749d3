//! Tiles that are packed from a directory.
use vstd::arithmetic::power2::{lemma2_to64, lemma_pow2_pos, lemma_pow2_strictly_increases, pow2};
use vstd::prelude::*;
use vstd::string::StringExecFns;

use crate::archive::{lemma_total_grows, rows_of, total_length, ArchiveWriter};
use crate::error::{invalid_input, refused, Error};
use crate::numbers::{law_unsigned_value, parse_u32, unsigned_value};
use crate::order::{
    arrange, law_stable_sort, lemma_order_no_duplicates, stable_order, stably_sorted,
};
use crate::text::{decimal, decimal_text, lowered, text_eq, to_lower};
use crate::tile_id::{on_grid, tile_id, zxy_to_tile_id};

verus! {

/// Image format of tiles.
#[derive(Clone, Copy, Debug, PartialEq, Eq, Structural)]
pub enum TileType {
    Png,
    Jpeg,
    Webp,
    Avif,
}

/// The image format with the given file extension.
pub open spec fn type_of_extension(ext: Seq<char>) -> Option<TileType> {
    let low = lowered(ext);
    if low == "png"@ {
        Some(TileType::Png)
    } else if low == "jpg"@ || low == "jpeg"@ {
        Some(TileType::Jpeg)
    } else if low == "webp"@ {
        Some(TileType::Webp)
    } else if low == "avif"@ {
        Some(TileType::Avif)
    } else {
        None
    }
}

impl TileType {
    /// The image format with the given file extension.
    pub fn from_extension(ext: &str) -> (r: Option<TileType>)
        ensures
            r == type_of_extension(ext@),
    {
        let low = to_lower(ext);
        let low = low.as_str();
        if text_eq(low, "png") {
            Some(TileType::Png)
        } else if text_eq(low, "jpg") || text_eq(low, "jpeg") {
            Some(TileType::Jpeg)
        } else if text_eq(low, "webp") {
            Some(TileType::Webp)
        } else if text_eq(low, "avif") {
            Some(TileType::Avif)
        } else {
            None
        }
    }

    pub open spec fn name(self) -> Seq<char> {
        match self {
            TileType::Png => "png"@,
            TileType::Jpeg => "jpg"@,
            TileType::Webp => "webp"@,
            TileType::Avif => "avif"@,
        }
    }

    /// Name of the format in metadata.
    pub fn as_str(self) -> (r: &'static str)
        ensures
            r@ == self.name(),
    {
        match self {
            TileType::Png => "png",
            TileType::Jpeg => "jpg",
            TileType::Webp => "webp",
            TileType::Avif => "avif",
        }
    }

    pub open spec fn number(self) -> u8 {
        match self {
            TileType::Png => 2,
            TileType::Jpeg => 3,
            TileType::Webp => 4,
            TileType::Avif => 5,
        }
    }

    /// Number of the format in an archive header.
    pub fn code(self) -> (r: u8)
        ensures
            r == self.number(),
    {
        match self {
            TileType::Png => 2,
            TileType::Jpeg => 3,
            TileType::Webp => 4,
            TileType::Avif => 5,
        }
    }
}

/// The name of a format is also one of its extensions.
pub proof fn law_extension_round_trip(tile_type: TileType)
    ensures
        type_of_extension(tile_type.name()) == Some(tile_type),
{
    reveal_strlit("png");
    reveal_strlit("jpg");
    reveal_strlit("jpeg");
    reveal_strlit("webp");
    reveal_strlit("avif");
    assert(lowered(tile_type.name()) =~= tile_type.name());
    assert("png"@[0] == 'p' && "jpg"@[0] == 'j' && "webp"@[0] == 'w' && "avif"@[0] == 'a'
        && "jpeg"@[0] == 'j');
}

/// A tile on disk.
#[derive(Debug)]
pub struct TilePath {
    pub z: u8,
    pub x: u32,
    pub y: u32,
    pub tile_id: u64,
    pub path: String,
    pub byte_len: u64,
}

impl TilePath {
    /// The tile lies on the grid of its zoom level, has its own number and is not too long.
    pub open spec fn wf(self) -> bool {
        &&& self.z <= 31
        &&& on_grid(self.z as nat, self.x as nat, self.y as nat)
        &&& self.tile_id == tile_id(self.z as nat, self.x as nat, self.y as nat)
        &&& self.byte_len <= u32::MAX
    }
}

/// The image format and the row of a tile file.
pub open spec fn named_tile(stem: Seq<char>, ext: Seq<char>) -> Option<(TileType, u32)> {
    match (type_of_extension(ext), unsigned_value(stem, u32::MAX as nat)) {
        (Some(tile_type), Some(y)) => Some((tile_type, y as u32)),
        _ => None,
    }
}

/// A file whose name is a row and whose extension is that of an image format is a tile of that
/// row and format; no other file is one.
pub proof fn law_tile_names(y: nat, stem: Seq<char>, ext: Seq<char>)
    ensures
        y <= u32::MAX ==> named_tile(decimal(y), "png"@) == Some((TileType::Png, y as u32)),
        y <= u32::MAX ==> named_tile(decimal(y), "jpg"@) == Some((TileType::Jpeg, y as u32)),
        y <= u32::MAX ==> named_tile(decimal(y), "jpeg"@) == Some((TileType::Jpeg, y as u32)),
        y <= u32::MAX ==> named_tile(decimal(y), "webp"@) == Some((TileType::Webp, y as u32)),
        y <= u32::MAX ==> named_tile(decimal(y), "avif"@) == Some((TileType::Avif, y as u32)),
        y > u32::MAX ==> named_tile(decimal(y), ext) is None,
        unsigned_value(stem, u32::MAX as nat) is None ==> named_tile(stem, ext) is None,
        type_of_extension(ext) is None ==> named_tile(stem, ext) is None,
{
    law_unsigned_value(y, Seq::empty(), u32::MAX as nat);
    law_extension_round_trip(TileType::Png);
    law_extension_round_trip(TileType::Jpeg);
    law_extension_round_trip(TileType::Webp);
    law_extension_round_trip(TileType::Avif);
    law_extensions("jpeg"@);
    reveal_strlit("jpeg");
    assert(lowered("jpeg"@) =~= "jpeg"@);
}

/// The image format and the row of a tile file, from the two parts of its name; none where it
/// is no tile.
pub fn read_tile_name(stem: &str, ext: &str) -> (r: Option<(TileType, u32)>)
    ensures
        r == named_tile(stem@, ext@),
        match (type_of_extension(ext@), unsigned_value(stem@, u32::MAX as nat)) {
            (Some(tile_type), Some(y)) => r == Some((tile_type, y as u32)),
            _ => r is None,
        },
{
    match TileType::from_extension(ext) {
        Some(tile_type) => match parse_u32(stem) {
            Some(y) => Some((tile_type, y)),
            None => None,
        },
        None => None,
    }
}

/// The message about a tile that lies outside of the grid.
pub open spec fn outside_bounds(z: u8, x: u32, y: u32) -> Seq<char> {
    "tile "@ + decimal(z as nat) + "/"@ + decimal(x as nat) + "/"@ + decimal(y as nat)
        + " is outside XYZ bounds"@
}

fn power(z: u8) -> (r: u64)
    requires
        z <= 31,
    ensures
        r == pow2(z as nat),
        1 <= r <= 0x8000_0000,
{
    proof {
        lemma2_to64();
        lemma_pow2_pos(z as nat);
        if z < 31 {
            lemma_pow2_strictly_increases(z as nat, 31);
        }
        vstd::bits::lemma_u64_shl_is_mul(1, z as u64);
    }
    1u64 << z
}

/// The message that refuses a tile, where there is no such tile.
pub open spec fn grid_error(z: u8, x: u32, y: u32) -> Option<Seq<char>> {
    if z > 31 {
        Some("PMTiles tile ids support zoom levels 0..31"@)
    } else if !on_grid(z as nat, x as nat, y as nat) {
        Some(outside_bounds(z, x, y))
    } else {
        None
    }
}

/// A tile is taken exactly where its zoom level is 31 at most and its column and row lie among
/// the `2^z` of the level; the message about a tile outside of them names it as `z/x/y`.
pub proof fn law_grid_error(z: u8, x: u32, y: u32)
    ensures
        grid_error(z, x, y) is None <==> z <= 31 && x < pow2(z as nat) && y < pow2(z as nat),
        z > 31 ==> grid_error(z, x, y) == Some("PMTiles tile ids support zoom levels 0..31"@),
        z <= 31 && !(x < pow2(z as nat) && y < pow2(z as nat)) ==> grid_error(z, x, y) == Some(
            "tile "@ + decimal(z as nat) + "/"@ + decimal(x as nat) + "/"@ + decimal(y as nat)
                + " is outside XYZ bounds"@,
        ),
{
}

/// Looks whether a tile lies on the grid of its zoom level.
pub fn validate_xyz(z: u8, x: u32, y: u32) -> (r: Result<(), Error>)
    ensures
        match grid_error(z, x, y) {
            Some(message) => refused(r, message),
            None => r is Ok,
        },
        if z > 31 {
            refused(r, "PMTiles tile ids support zoom levels 0..31"@)
        } else if !on_grid(z as nat, x as nat, y as nat) {
            refused(r, outside_bounds(z, x, y))
        } else {
            r is Ok
        },
{
    if z > 31 {
        return Err(invalid_input("PMTiles tile ids support zoom levels 0..31"));
    }
    let limit: u64 = power(z);
    if x as u64 >= limit || y as u64 >= limit {
        let mut message = "tile ".to_owned();
        message.append(decimal_text(z as u64).as_str());
        message.append("/");
        message.append(decimal_text(x as u64).as_str());
        message.append("/");
        message.append(decimal_text(y as u64).as_str());
        message.append(" is outside XYZ bounds");
        return Err(invalid_input(message.as_str()));
    }
    Ok(())
}

/// Describes a tile file.
pub fn tile_path(z: u8, x: u32, y: u32, path: String, byte_len: u64) -> (r: Result<TilePath, Error>)
    ensures
        if z > 31 {
            refused(r, "PMTiles tile ids support zoom levels 0..31"@)
        } else if !on_grid(z as nat, x as nat, y as nat) {
            refused(r, outside_bounds(z, x, y))
        } else if byte_len > u32::MAX {
            refused(r, "tile exceeds PMTiles entry length limit: "@ + path@)
        } else {
            &&& r matches Ok(tile)
            &&& tile.wf()
            &&& tile.z == z
            &&& tile.x == x
            &&& tile.y == y
            &&& tile.path@ == path@
            &&& tile.byte_len == byte_len
        },
{
    validate_xyz(z, x, y)?;
    if byte_len > u32::MAX as u64 {
        let mut message = "tile exceeds PMTiles entry length limit: ".to_owned();
        message.append(path.as_str());
        return Err(invalid_input(message.as_str()));
    }
    proof {
        vstd::arithmetic::div_mod::lemma_small_mod(x as nat, pow2(z as nat));
        vstd::arithmetic::div_mod::lemma_small_mod(y as nat, pow2(z as nat));
    }
    let tile_id: u64 = zxy_to_tile_id(z, x, y)?;
    Ok(TilePath { z, x, y, tile_id, path, byte_len })
}

/// A line between tiles: the one before the column or row `index` at a zoom level.
#[derive(Clone, Copy, Debug, PartialEq, Eq, Structural)]
pub struct Edge {
    pub index: u32,
    pub zoom: u8,
}

/// The first line lies before the second, that is, farther to the west or to the north.
pub open spec fn before(a: Edge, b: Edge) -> bool {
    a.index * pow2(b.zoom as nat) < b.index * pow2(a.zoom as nat)
}

fn lies_before(a: &Edge, b: &Edge) -> (r: bool)
    requires
        a.zoom <= 31,
        b.zoom <= 31,
    ensures
        r == before(*a, *b),
{
    let a_cells: u64 = power(a.zoom);
    let b_cells: u64 = power(b.zoom);
    assert(a.index * b_cells <= 0xffff_ffff * 0x8000_0000) by (nonlinear_arith)
        requires
            a.index <= 0xffff_ffff,
            0 <= b_cells <= 0x8000_0000,
    ;
    assert(b.index * a_cells <= 0xffff_ffff * 0x8000_0000) by (nonlinear_arith)
        requires
            b.index <= 0xffff_ffff,
            0 <= a_cells <= 0x8000_0000,
    ;
    (a.index as u64 * b_cells) < (b.index as u64 * a_cells)
}

/// What is known of all tiles together.
#[derive(Clone, Copy, Debug, PartialEq, Eq, Structural)]
pub struct TileStats {
    pub min_zoom: u8,
    pub max_zoom: u8,
    pub seen_any: bool,
    pub west: Edge,
    pub south: Edge,
    pub east: Edge,
    pub north: Edge,
    pub min_tile_x: u32,
    pub min_tile_y: u32,
    pub max_tile_x: u32,
    pub max_tile_y: u32,
}

/// What is known of a single tile: its zoom level, its indices and the lines around it.
pub open spec fn stats_of_one(z: u8, x: u32, y: u32) -> TileStats {
    TileStats {
        min_zoom: z,
        max_zoom: z,
        seen_any: true,
        west: Edge { index: x, zoom: z },
        south: Edge { index: (y + 1) as u32, zoom: z },
        east: Edge { index: (x + 1) as u32, zoom: z },
        north: Edge { index: y, zoom: z },
        min_tile_x: x,
        min_tile_y: y,
        max_tile_x: x,
        max_tile_y: y,
    }
}

/// What is known after one more tile.
pub open spec fn observed(s: TileStats, z: u8, x: u32, y: u32) -> TileStats {
    let one = stats_of_one(z, x, y);
    if !s.seen_any {
        one
    } else {
        TileStats {
            min_zoom: if z < s.min_zoom {
                z
            } else {
                s.min_zoom
            },
            max_zoom: if z > s.max_zoom {
                z
            } else {
                s.max_zoom
            },
            seen_any: true,
            west: if before(one.west, s.west) {
                one.west
            } else {
                s.west
            },
            south: if before(s.south, one.south) {
                one.south
            } else {
                s.south
            },
            east: if before(s.east, one.east) {
                one.east
            } else {
                s.east
            },
            north: if before(one.north, s.north) {
                one.north
            } else {
                s.north
            },
            min_tile_x: if x < s.min_tile_x {
                x
            } else {
                s.min_tile_x
            },
            min_tile_y: if y < s.min_tile_y {
                y
            } else {
                s.min_tile_y
            },
            max_tile_x: if x > s.max_tile_x {
                x
            } else {
                s.max_tile_x
            },
            max_tile_y: if y > s.max_tile_y {
                y
            } else {
                s.max_tile_y
            },
        }
    }
}

impl TileStats {
    /// The lines are those of zoom levels up to 31.
    pub open spec fn wf(self) -> bool {
        &&& self.west.zoom <= 31
        &&& self.south.zoom <= 31
        &&& self.east.zoom <= 31
        &&& self.north.zoom <= 31
    }

    /// Nothing is known.
    pub open spec fn none() -> TileStats {
        TileStats {
            min_zoom: 0,
            max_zoom: 0,
            seen_any: false,
            west: Edge { index: 0, zoom: 0 },
            south: Edge { index: 0, zoom: 0 },
            east: Edge { index: 0, zoom: 0 },
            north: Edge { index: 0, zoom: 0 },
            min_tile_x: 0,
            min_tile_y: 0,
            max_tile_x: 0,
            max_tile_y: 0,
        }
    }

    /// Statistics of no tiles.
    pub fn new() -> (r: TileStats)
        ensures
            r == TileStats::none(),
            r.wf(),
    {
        let edge = Edge { index: 0, zoom: 0 };
        TileStats {
            min_zoom: 0,
            max_zoom: 0,
            seen_any: false,
            west: edge,
            south: edge,
            east: edge,
            north: edge,
            min_tile_x: 0,
            min_tile_y: 0,
            max_tile_x: 0,
            max_tile_y: 0,
        }
    }

    /// Takes note of a tile.
    pub fn observe(&mut self, tile: &TilePath)
        requires
            old(self).wf(),
            tile.z <= 31,
            tile.x < u32::MAX,
            tile.y < u32::MAX,
        ensures
            final(self).wf(),
            *final(self) == observed(*old(self), tile.z, tile.x, tile.y),
    {
        let west = Edge { index: tile.x, zoom: tile.z };
        let south = Edge { index: tile.y + 1, zoom: tile.z };
        let east = Edge { index: tile.x + 1, zoom: tile.z };
        let north = Edge { index: tile.y, zoom: tile.z };
        if !self.seen_any {
            self.min_zoom = tile.z;
            self.max_zoom = tile.z;
            self.min_tile_x = tile.x;
            self.max_tile_x = tile.x;
            self.min_tile_y = tile.y;
            self.max_tile_y = tile.y;
            self.west = west;
            self.south = south;
            self.east = east;
            self.north = north;
            self.seen_any = true;
            return;
        }
        if tile.z < self.min_zoom {
            self.min_zoom = tile.z;
        }
        if tile.z > self.max_zoom {
            self.max_zoom = tile.z;
        }
        if tile.x < self.min_tile_x {
            self.min_tile_x = tile.x;
        }
        if tile.x > self.max_tile_x {
            self.max_tile_x = tile.x;
        }
        if tile.y < self.min_tile_y {
            self.min_tile_y = tile.y;
        }
        if tile.y > self.max_tile_y {
            self.max_tile_y = tile.y;
        }
        if lies_before(&west, &self.west) {
            self.west = west;
        }
        if lies_before(&self.south, &south) {
            self.south = south;
        }
        if lies_before(&self.east, &east) {
            self.east = east;
        }
        if lies_before(&north, &self.north) {
            self.north = north;
        }
    }
}

/// What is known of some tiles.
pub open spec fn stats_of(tiles: Seq<TilePath>) -> TileStats
    decreases tiles.len(),
{
    if tiles.len() == 0 {
        TileStats::none()
    } else {
        observed(stats_of(tiles.drop_last()), tiles.last().z, tiles.last().x, tiles.last().y)
    }
}

/// No tile is outside of what the statistics say: neither in zoom level nor on any side.
pub open spec fn within(s: TileStats, z: u8, x: u32, y: u32) -> bool {
    let one = stats_of_one(z, x, y);
    &&& s.min_zoom <= z <= s.max_zoom
    &&& s.min_tile_x <= x <= s.max_tile_x
    &&& s.min_tile_y <= y <= s.max_tile_y
    &&& !before(one.west, s.west)
    &&& !before(s.south, one.south)
    &&& !before(s.east, one.east)
    &&& !before(one.north, s.north)
}

proof fn lemma_before_transitive(a: Edge, b: Edge, c: Edge)
    requires
        !before(b, a),
        !before(c, b),
    ensures
        !before(c, a),
{
    let p = pow2(a.zoom as nat) as int;
    let q = pow2(b.zoom as nat) as int;
    let r = pow2(c.zoom as nat) as int;
    lemma_pow2_pos(a.zoom as nat);
    lemma_pow2_pos(b.zoom as nat);
    lemma_pow2_pos(c.zoom as nat);
    let (i, j, k) = (a.index as int, b.index as int, c.index as int);
    // i/p <= j/q and j/q <= k/r.
    assert(i * q <= j * p);
    assert(j * r <= k * q);
    assert(i * r <= k * p) by (nonlinear_arith)
        requires
            i * q <= j * p,
            j * r <= k * q,
            p > 0,
            q > 0,
            r > 0,
            i >= 0,
            j >= 0,
            k >= 0,
    {
        assert((i * q) * r <= (j * p) * r);
        assert((j * r) * p <= (k * q) * p);
        assert((i * q) * r == (i * r) * q);
        assert((j * p) * r == (j * r) * p);
        assert((k * q) * p == (k * p) * q);
    }
}

/// The statistics of some tiles cover each of them, and each side of theirs is one of a tile.
pub proof fn law_stats_cover_tiles(tiles: Seq<TilePath>)
    ensures
        tiles.len() > 0 ==> stats_of(tiles).seen_any,
        forall|i: int|
            0 <= i < tiles.len() ==> within(
                stats_of(tiles),
                (#[trigger] tiles[i]).z,
                tiles[i].x,
                tiles[i].y,
            ),
        tiles.len() > 0 ==> {
            let s = stats_of(tiles);
            &&& exists|i: int|
                0 <= i < tiles.len() && s.west == stats_of_one(
                    (#[trigger] tiles[i]).z,
                    tiles[i].x,
                    tiles[i].y,
                ).west
            &&& exists|i: int|
                0 <= i < tiles.len() && s.south == stats_of_one(
                    (#[trigger] tiles[i]).z,
                    tiles[i].x,
                    tiles[i].y,
                ).south
            &&& exists|i: int|
                0 <= i < tiles.len() && s.east == stats_of_one(
                    (#[trigger] tiles[i]).z,
                    tiles[i].x,
                    tiles[i].y,
                ).east
            &&& exists|i: int|
                0 <= i < tiles.len() && s.north == stats_of_one(
                    (#[trigger] tiles[i]).z,
                    tiles[i].x,
                    tiles[i].y,
                ).north
        },
    decreases tiles.len(),
{
    if tiles.len() > 0 {
        let rest = tiles.drop_last();
        let last = tiles.last();
        let s = stats_of(rest);
        let t = stats_of(tiles);
        let one = stats_of_one(last.z, last.x, last.y);
        law_stats_cover_tiles(rest);
        assert(tiles[tiles.len() - 1] == last);
        assert forall|i: int| 0 <= i < tiles.len() implies within(
            t,
            (#[trigger] tiles[i]).z,
            tiles[i].x,
            tiles[i].y,
        ) by {
            if i < rest.len() {
                assert(rest[i] == tiles[i]);
                assert(within(s, rest[i].z, rest[i].x, rest[i].y));
                let some = stats_of_one(tiles[i].z, tiles[i].x, tiles[i].y);
                if t.west != s.west {
                    lemma_before_asymmetric(one.west, s.west);
                    lemma_before_transitive(t.west, s.west, some.west);
                }
                if t.north != s.north {
                    lemma_before_asymmetric(one.north, s.north);
                    lemma_before_transitive(t.north, s.north, some.north);
                }
                if t.east != s.east {
                    lemma_before_asymmetric(s.east, one.east);
                    lemma_before_transitive(some.east, s.east, t.east);
                }
                if t.south != s.south {
                    lemma_before_asymmetric(s.south, one.south);
                    lemma_before_transitive(some.south, s.south, t.south);
                }
            }
        }
        if rest.len() > 0 {
            let a = choose|i: int|
                0 <= i < rest.len() && s.west == stats_of_one(
                    (#[trigger] rest[i]).z,
                    rest[i].x,
                    rest[i].y,
                ).west;
            assert(tiles[a] == rest[a]);
            let b = choose|i: int|
                0 <= i < rest.len() && s.south == stats_of_one(
                    (#[trigger] rest[i]).z,
                    rest[i].x,
                    rest[i].y,
                ).south;
            assert(tiles[b] == rest[b]);
            let c = choose|i: int|
                0 <= i < rest.len() && s.east == stats_of_one(
                    (#[trigger] rest[i]).z,
                    rest[i].x,
                    rest[i].y,
                ).east;
            assert(tiles[c] == rest[c]);
            let d = choose|i: int|
                0 <= i < rest.len() && s.north == stats_of_one(
                    (#[trigger] rest[i]).z,
                    rest[i].x,
                    rest[i].y,
                ).north;
            assert(tiles[d] == rest[d]);
        }
    }
}

proof fn lemma_before_asymmetric(a: Edge, b: Edge)
    requires
        before(a, b),
    ensures
        !before(b, a),
{
}

/// The tiles that are packed.
pub struct TileSet {
    pub tiles: Vec<TilePath>,
    pub tile_type: Option<TileType>,
    pub stats: TileStats,
}

impl TileSet {
    /// All tiles are sound, and the statistics are those of the tiles.
    pub open spec fn wf(self) -> bool {
        &&& forall|i: int| 0 <= i < self.tiles@.len() ==> (#[trigger] self.tiles@[i]).wf()
        &&& self.stats == stats_of(self.tiles@)
        &&& self.stats.wf()
        &&& self.tile_type is Some <==> self.tiles@.len() > 0
    }

    /// A set without tiles.
    pub fn new() -> (r: TileSet)
        ensures
            r.wf(),
            r.tiles@.len() == 0,
    {
        TileSet { tiles: Vec::new(), tile_type: None, stats: TileStats::new() }
    }

    /// Adds a tile, which must have the image format of the others.
    pub fn add_tile(&mut self, tile: TilePath, tile_type: TileType) -> (r: Result<(), Error>)
        requires
            old(self).wf(),
            tile.wf(),
        ensures
            final(self).wf(),
            if old(self).tile_type is Some && old(self).tile_type != Some(tile_type) {
                &&& refused(r, "mixed tile image formats are not supported yet"@)
                &&& *final(self) == *old(self)
            } else {
                &&& r is Ok
                &&& final(self).tiles@ == old(self).tiles@.push(tile)
                &&& final(self).tile_type == Some(tile_type)
            },
    {
        if let Some(existing) = self.tile_type {
            if existing != tile_type {
                return Err(invalid_input("mixed tile image formats are not supported yet"));
            }
        }
        self.tile_type = Some(tile_type);
        proof {
            lemma2_to64();
            if tile.z < 31 {
                lemma_pow2_strictly_increases(tile.z as nat, 31);
            }
        }
        self.stats.observe(&tile);
        let ghost before = self.tiles@;
        self.tiles.push(tile);
        assert(self.tiles@.drop_last() =~= before);
        Ok(())
    }

    /// Sorts the tiles by number; there must be some.
    pub fn finish(self) -> (r: Result<PackedTiles, Error>)
        requires
            self.wf(),
        ensures
            if self.tiles@.len() == 0 {
                refused(r, "no XYZ image tiles found"@)
            } else {
                &&& r matches Ok(packed)
                &&& stably_sorted(self.tiles@, packed.tiles@, path_key())
                &&& Some(packed.tile_type) == self.tile_type
                &&& packed.stats == self.stats
            },
    {
        match self.tile_type {
            None => Err(invalid_input("no XYZ image tiles found")),
            Some(tile_type) => Ok(
                PackedTiles { tiles: sort_paths(self.tiles), tile_type, stats: self.stats },
            ),
        }
    }
}

/// Tiles in the order in which they are written.
pub struct PackedTiles {
    pub tiles: Vec<TilePath>,
    pub tile_type: TileType,
    pub stats: TileStats,
}

/// The key by which tiles are sorted.
pub open spec fn path_key() -> spec_fn(TilePath) -> u128 {
    |tile: TilePath| tile.tile_id as u128
}

fn sort_paths(tiles: Vec<TilePath>) -> (r: Vec<TilePath>)
    ensures
        stably_sorted(tiles@, r@, path_key()),
{
    let mut keys: Vec<u128> = Vec::new();
    let mut i: usize = 0;
    while i < tiles.len()
        invariant
            i <= tiles@.len(),
            keys@ == tiles@.map_values(path_key()).take(i as int),
        decreases tiles@.len() - i,
    {
        keys.push(tiles[i].tile_id as u128);
        i = i + 1;
        assert(keys@ =~= tiles@.map_values(path_key()).take(i as int));
    }
    assert(keys@ =~= tiles@.map_values(path_key()));
    let p = stable_order(&keys);
    proof {
        lemma_order_no_duplicates(keys@, p@);
    }
    arrange(tiles, &p)
}

/// Number and length of each of some tiles.
pub open spec fn path_lengths(tiles: Seq<TilePath>) -> Seq<(u64, u32)> {
    tiles.map_values(|tile: TilePath| (tile.tile_id, tile.byte_len as u32))
}

/// Starts an archive of the given tiles, whose data are to be written in the same order.
pub fn archive_of(tiles: &Vec<TilePath>) -> (r: ArchiveWriter)
    requires
        forall|i: int| 0 <= i < tiles@.len() ==> (#[trigger] tiles@[i]).byte_len <= u32::MAX,
        total_length(path_lengths(tiles@)) <= u64::MAX,
    ensures
        r.wf(),
        r.entries@ == rows_of(path_lengths(tiles@)),
        r.tile_data_length == total_length(path_lengths(tiles@)),
        r.reserved == 0,
{
    let ghost all = path_lengths(tiles@);
    let mut writer = ArchiveWriter::create();
    let mut i: usize = 0;
    assert(all.take(0) =~= Seq::empty());
    assert(writer.entries@ =~= rows_of(all.take(0)));
    while i < tiles.len()
        invariant
            i <= tiles@.len(),
            all == path_lengths(tiles@),
            forall|k: int| 0 <= k < tiles@.len() ==> (#[trigger] tiles@[k]).byte_len <= u32::MAX,
            total_length(all) <= u64::MAX,
            writer.wf(),
            writer.reserved == 0,
            writer.entries@ == rows_of(all.take(i as int)),
            writer.tile_data_length == total_length(all.take(i as int)),
        decreases tiles@.len() - i,
    {
        proof {
            assert(all.take(i + 1) + all.skip(i + 1) =~= all);
            lemma_total_grows(all.take(i + 1), all.skip(i + 1));
        }
        assert(all.take(i + 1).drop_last() =~= all.take(i as int));
        writer.add_tile(tiles[i].tile_id, tiles[i].byte_len as u32);
        i = i + 1;
    }
    assert(all.take(tiles@.len() as int) =~= all);
    writer
}

/// Progress is shown after so many tiles.
pub open spec fn progress_due(completed: int, total: int) -> bool {
    completed == total || completed % 100 == 0
}

/// Progress is shown after the last tile and after every full hundred, and after no other tile.
pub proof fn law_progress(hundreds: int, more: int, total: int)
    requires
        0 <= hundreds,
        0 < more < 100,
        100 * hundreds + more < total,
    ensures
        progress_due(total, total),
        progress_due(100 * hundreds, total),
        !progress_due(100 * hundreds + more, total),
{
}

/// Progress is shown after every hundredth tile and after the last.
pub fn shows_progress(completed: usize, total: usize) -> (r: bool)
    ensures
        r == progress_due(completed as int, total as int),
        r == (completed == total || completed % 100 == 0),
{
    completed == total || completed % 100 == 0
}

/// The file extensions that tiles can have, in any case, and the format that each stands for.
pub proof fn law_extensions(ext: Seq<char>)
    ensures
        type_of_extension(ext) == Some(TileType::Png) <==> lowered(ext) == "png"@,
        type_of_extension(ext) == Some(TileType::Jpeg) <==> lowered(ext) == "jpg"@ || lowered(ext)
            == "jpeg"@,
        type_of_extension(ext) == Some(TileType::Webp) <==> lowered(ext) == "webp"@,
        type_of_extension(ext) == Some(TileType::Avif) <==> lowered(ext) == "avif"@,
        TileType::Png.name() == "png"@,
        TileType::Jpeg.name() == "jpg"@,
        TileType::Webp.name() == "webp"@,
        TileType::Avif.name() == "avif"@,
{
    reveal_strlit("png");
    reveal_strlit("jpg");
    reveal_strlit("jpeg");
    reveal_strlit("webp");
    reveal_strlit("avif");
    assert("png"@[0] == 'p' && "jpg"@[0] == 'j' && "jpeg"@[0] == 'j' && "webp"@[0] == 'w'
        && "avif"@[0] == 'a');
}

/// Every tile lies within the area of the statistics: its left side is not to the left of the
/// west, its lower side not below the south, its right side not to the right of the east, and its
/// upper side not above the north. The zoom levels and the indices lie between the least and the
/// greatest.
pub proof fn law_tiles_lie_in_area(tiles: Seq<TilePath>, i: int)
    requires
        0 <= i < tiles.len(),
        tiles[i].x < u32::MAX,
        tiles[i].y < u32::MAX,
    ensures
        ({
            let s = stats_of(tiles);
            let t = tiles[i];
            let side = pow2(t.z as nat);
            &&& s.west.index * side <= t.x * pow2(s.west.zoom as nat)
            &&& (t.y + 1) * pow2(s.south.zoom as nat) <= s.south.index * side
            &&& (t.x + 1) * pow2(s.east.zoom as nat) <= s.east.index * side
            &&& s.north.index * side <= t.y * pow2(s.north.zoom as nat)
            &&& s.min_zoom <= t.z <= s.max_zoom
            &&& s.min_tile_x <= t.x <= s.max_tile_x
            &&& s.min_tile_y <= t.y <= s.max_tile_y
        }),
{
    law_stats_cover_tiles(tiles);
    let s = stats_of(tiles);
    let t = tiles[i];
    assert(within(s, t.z, t.x, t.y));
}

/// No side of the area and no least or greatest value is farther out than some tile.
pub proof fn law_area_is_tight(tiles: Seq<TilePath>)
    requires
        tiles.len() > 0,
        forall|i: int|
            0 <= i < tiles.len() ==> (#[trigger] tiles[i]).x < u32::MAX && tiles[i].y < u32::MAX,
    ensures
        ({
            let s = stats_of(tiles);
            &&& exists|i: int|
                0 <= i < tiles.len() && (#[trigger] tiles[i]).x == s.west.index && tiles[i].z
                    == s.west.zoom
            &&& exists|i: int|
                0 <= i < tiles.len() && (#[trigger] tiles[i]).y + 1 == s.south.index && tiles[i].z
                    == s.south.zoom
            &&& exists|i: int|
                0 <= i < tiles.len() && (#[trigger] tiles[i]).x + 1 == s.east.index && tiles[i].z
                    == s.east.zoom
            &&& exists|i: int|
                0 <= i < tiles.len() && (#[trigger] tiles[i]).y == s.north.index && tiles[i].z
                    == s.north.zoom
            &&& exists|i: int| 0 <= i < tiles.len() && (#[trigger] tiles[i]).z == s.min_zoom
            &&& exists|i: int| 0 <= i < tiles.len() && (#[trigger] tiles[i]).z == s.max_zoom
            &&& exists|i: int| 0 <= i < tiles.len() && (#[trigger] tiles[i]).x == s.min_tile_x
            &&& exists|i: int| 0 <= i < tiles.len() && (#[trigger] tiles[i]).x == s.max_tile_x
            &&& exists|i: int| 0 <= i < tiles.len() && (#[trigger] tiles[i]).y == s.min_tile_y
            &&& exists|i: int| 0 <= i < tiles.len() && (#[trigger] tiles[i]).y == s.max_tile_y
        }),
{
    law_stats_cover_tiles(tiles);
    lemma_least_and_greatest(tiles);
    let s = stats_of(tiles);
    let a = choose|i: int|
        0 <= i < tiles.len() && s.west == stats_of_one(
            (#[trigger] tiles[i]).z,
            tiles[i].x,
            tiles[i].y,
        ).west;
    assert(tiles[a].x == s.west.index);
    let b = choose|i: int|
        0 <= i < tiles.len() && s.south == stats_of_one(
            (#[trigger] tiles[i]).z,
            tiles[i].x,
            tiles[i].y,
        ).south;
    assert(tiles[b].y + 1 == s.south.index);
    let c = choose|i: int|
        0 <= i < tiles.len() && s.east == stats_of_one(
            (#[trigger] tiles[i]).z,
            tiles[i].x,
            tiles[i].y,
        ).east;
    assert(tiles[c].x + 1 == s.east.index);
    let d = choose|i: int|
        0 <= i < tiles.len() && s.north == stats_of_one(
            (#[trigger] tiles[i]).z,
            tiles[i].x,
            tiles[i].y,
        ).north;
    assert(tiles[d].y == s.north.index);
}

proof fn lemma_least_and_greatest(tiles: Seq<TilePath>)
    requires
        tiles.len() > 0,
    ensures
        ({
            let s = stats_of(tiles);
            &&& s.seen_any
            &&& exists|i: int| 0 <= i < tiles.len() && (#[trigger] tiles[i]).z == s.min_zoom
            &&& exists|i: int| 0 <= i < tiles.len() && (#[trigger] tiles[i]).z == s.max_zoom
            &&& exists|i: int| 0 <= i < tiles.len() && (#[trigger] tiles[i]).x == s.min_tile_x
            &&& exists|i: int| 0 <= i < tiles.len() && (#[trigger] tiles[i]).x == s.max_tile_x
            &&& exists|i: int| 0 <= i < tiles.len() && (#[trigger] tiles[i]).y == s.min_tile_y
            &&& exists|i: int| 0 <= i < tiles.len() && (#[trigger] tiles[i]).y == s.max_tile_y
        }),
    decreases tiles.len(),
{
    let rest = tiles.drop_last();
    let s = stats_of(rest);
    let n = tiles.len() - 1;
    assert(tiles[n] == tiles.last());
    if rest.len() > 0 {
        lemma_least_and_greatest(rest);
        let a = choose|i: int| 0 <= i < rest.len() && (#[trigger] rest[i]).z == s.min_zoom;
        let b = choose|i: int| 0 <= i < rest.len() && (#[trigger] rest[i]).z == s.max_zoom;
        let c = choose|i: int| 0 <= i < rest.len() && (#[trigger] rest[i]).x == s.min_tile_x;
        let d = choose|i: int| 0 <= i < rest.len() && (#[trigger] rest[i]).x == s.max_tile_x;
        let e = choose|i: int| 0 <= i < rest.len() && (#[trigger] rest[i]).y == s.min_tile_y;
        let f = choose|i: int| 0 <= i < rest.len() && (#[trigger] rest[i]).y == s.max_tile_y;
        assert(tiles[a] == rest[a] && tiles[b] == rest[b] && tiles[c] == rest[c] && tiles[d]
            == rest[d] && tiles[e] == rest[e] && tiles[f] == rest[f]);
    }
}

/// The tiles of a packed archive are those that were found, in the order of their numbers.
pub proof fn law_packed_tiles_are_sorted(found: Seq<TilePath>, packed: Seq<TilePath>)
    requires
        stably_sorted(found, packed, path_key()),
        found.len() <= usize::MAX,
    ensures
        packed.to_multiset() == found.to_multiset(),
        forall|i: int, j: int|
            0 <= i <= j < packed.len() ==> (#[trigger] packed[i]).tile_id <= (
            #[trigger] packed[j]).tile_id,
{
    law_stable_sort(found, packed, path_key());
    assert forall|i: int, j: int| 0 <= i <= j < packed.len() implies (
    #[trigger] packed[i]).tile_id <= (#[trigger] packed[j]).tile_id by {
        assert(path_key()(packed[i]) <= path_key()(packed[j]));
    }
}

/// A packed archive holds the number and the length of each tile.
pub proof fn law_path_lengths(tiles: Seq<TilePath>, i: int)
    requires
        0 <= i < tiles.len(),
        tiles[i].byte_len <= u32::MAX,
    ensures
        path_lengths(tiles).len() == tiles.len(),
        path_lengths(tiles)[i].0 == tiles[i].tile_id,
        path_lengths(tiles)[i].1 == tiles[i].byte_len,
{
}

/// A tile that is packed lies on the grid of its zoom level, which is 31 at most, and can be
/// found in a directory.
pub proof fn law_packed_tiles_are_sound(tile: TilePath)
    requires
        tile.wf(),
    ensures
        tile.z <= 31,
        tile.x < pow2(tile.z as nat),
        tile.y < pow2(tile.z as nat),
        tile.byte_len <= 4_294_967_295,
        tile.tile_id == tile_id(tile.z as nat, tile.x as nat, tile.y as nat),
{
}

} // verus!
