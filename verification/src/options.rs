//! What the user can choose, and the texts that stand for each choice.
use vstd::prelude::*;

use crate::error::{answers, invalid_input, refused, Error};
use crate::numbers::{
    law_decimal_round_trip, law_signed_value, law_unsigned_value, parse_i32, parse_u32,
    parse_u8, parse_usize, signed_value, unsigned_value,
};
use crate::text::{
    chars_of, decimal, decimal_text, law_decimal, law_split_at_all, law_split_once, lemma_find,
    lowered, split, split_at_all, split_once, split_once_at, text_eq, text_of, texts, to_lower,
};

verus! {

/// Image format of the tiles that are rendered.
#[derive(Clone, Copy, Debug, PartialEq, Eq, Structural)]
pub enum RasterFormat {
    Png,
    Jpeg,
    Webp,
}

/// Threads that one warp may use.
#[derive(Clone, Copy, Debug, PartialEq, Eq, Structural)]
pub enum WarpThreads {
    /// Share the processors between the warps that run at the same time.
    Auto,
    /// All processors for each warp.
    All,
    Count(usize),
}

/// Side length, in tiles, of the blocks in which a zoom level is rendered.
#[derive(Clone, Copy, Debug, PartialEq, Eq, Structural)]
pub enum ChunkTiles {
    Auto,
    Fixed(u32),
    Disabled,
}

/// How source pixels are combined.
#[derive(Clone, Copy, Debug, PartialEq, Eq, Structural)]
pub enum Resampling {
    Nearest,
    Bilinear,
    Cubic,
    CubicSpline,
    Lanczos,
    Average,
}

/// The way of rendering that the user asked for.
#[derive(Clone, Copy, Debug, PartialEq, Eq, Structural)]
pub enum StrategyPreference {
    Auto,
    SameCrs,
    Geographic,
    GdalWarp,
}

/// Settings of the raster library.
#[derive(Debug)]
pub struct GdalTuning {
    pub cache_bytes: Option<u64>,
    pub config_options: Vec<(String, String)>,
    pub open_options: Vec<(String, String)>,
}

/// A rendering task. The bounds and the image quality are kept elsewhere.
#[derive(Debug)]
pub struct RasterOptions {
    pub input: String,
    pub output: String,
    pub min_zoom: u8,
    pub max_zoom: u8,
    pub format: RasterFormat,
    pub tile_size: u32,
    pub workers: usize,
    pub chunk_tiles: ChunkTiles,
    pub warp_memory_bytes: u64,
    pub warp_threads: WarpThreads,
    pub resampling: Resampling,
    pub strategy: StrategyPreference,
    pub webp_method: i32,
    pub gdal_tuning: GdalTuning,
    pub warp_options: Vec<(String, String)>,
    pub plan_only: bool,
}

impl RasterFormat {
    pub open spec fn name(self) -> Seq<char> {
        match self {
            RasterFormat::Png => "png"@,
            RasterFormat::Jpeg => "jpg"@,
            RasterFormat::Webp => "webp"@,
        }
    }

    /// File extension and metadata name of the format.
    pub fn as_str(self) -> (r: &'static str)
        ensures
            r@ == self.name(),
    {
        match self {
            RasterFormat::Png => "png",
            RasterFormat::Jpeg => "jpg",
            RasterFormat::Webp => "webp",
        }
    }

    pub open spec fn code(self) -> u8 {
        match self {
            RasterFormat::Png => 2,
            RasterFormat::Jpeg => 3,
            RasterFormat::Webp => 4,
        }
    }

    /// Number of the format in an archive header.
    pub fn pmtiles_type(self) -> (r: u8)
        ensures
            r == self.code(),
    {
        match self {
            RasterFormat::Png => 2,
            RasterFormat::Jpeg => 3,
            RasterFormat::Webp => 4,
        }
    }
}

impl WarpThreads {
    pub open spec fn name(self) -> Seq<char> {
        match self {
            WarpThreads::Auto => "auto"@,
            WarpThreads::All => "all"@,
            WarpThreads::Count(count) => decimal(count as nat),
        }
    }

    /// How the choice is shown.
    pub fn label(self) -> (r: String)
        ensures
            r@ == self.name(),
    {
        match self {
            WarpThreads::Auto => "auto".to_owned(),
            WarpThreads::All => "all".to_owned(),
            WarpThreads::Count(count) => decimal_text(count as u64),
        }
    }

    /// What the raster library is told, where `concurrent_warps` warps share `available`
    /// processors.
    pub open spec fn gdal_value(self, concurrent_warps: nat, available: nat) -> Seq<char> {
        match self {
            WarpThreads::Auto => if concurrent_warps <= 1 {
                "ALL_CPUS"@
            } else if available < concurrent_warps {
                decimal(1)
            } else {
                decimal(available / concurrent_warps)
            },
            WarpThreads::All => "ALL_CPUS"@,
            WarpThreads::Count(count) => decimal(count as nat),
        }
    }

    /// What the raster library is told about threads.
    pub fn as_gdal_value(self, concurrent_warps: usize, available: usize) -> (r: String)
        ensures
            r@ == self.gdal_value(concurrent_warps as nat, available as nat),
    {
        match self {
            WarpThreads::Auto => {
                if concurrent_warps <= 1 {
                    "ALL_CPUS".to_owned()
                } else if available < concurrent_warps {
                    decimal_text(1)
                } else {
                    decimal_text((available / concurrent_warps) as u64)
                }
            },
            WarpThreads::All => "ALL_CPUS".to_owned(),
            WarpThreads::Count(count) => decimal_text(count as u64),
        }
    }
}

impl ChunkTiles {
    pub open spec fn name(self) -> Seq<char> {
        match self {
            ChunkTiles::Auto => "auto"@,
            ChunkTiles::Fixed(chunk_tiles) => decimal(chunk_tiles as nat),
            ChunkTiles::Disabled => "disabled"@,
        }
    }

    /// How the choice is shown.
    pub fn label(self) -> (r: String)
        ensures
            r@ == self.name(),
    {
        match self {
            ChunkTiles::Auto => "auto".to_owned(),
            ChunkTiles::Fixed(chunk_tiles) => decimal_text(chunk_tiles as u64),
            ChunkTiles::Disabled => "disabled".to_owned(),
        }
    }
}

impl Resampling {
    pub open spec fn name(self) -> Seq<char> {
        match self {
            Resampling::Nearest => "nearest"@,
            Resampling::Bilinear => "bilinear"@,
            Resampling::Cubic => "cubic"@,
            Resampling::CubicSpline => "cubicspline"@,
            Resampling::Lanczos => "lanczos"@,
            Resampling::Average => "average"@,
        }
    }

    /// How the choice is shown.
    pub fn label(self) -> (r: &'static str)
        ensures
            r@ == self.name(),
    {
        match self {
            Resampling::Nearest => "nearest",
            Resampling::Bilinear => "bilinear",
            Resampling::Cubic => "cubic",
            Resampling::CubicSpline => "cubicspline",
            Resampling::Lanczos => "lanczos",
            Resampling::Average => "average",
        }
    }
}

impl StrategyPreference {
    pub open spec fn name(self) -> Seq<char> {
        match self {
            StrategyPreference::Auto => "auto"@,
            StrategyPreference::SameCrs => "same-crs"@,
            StrategyPreference::Geographic => "geographic"@,
            StrategyPreference::GdalWarp => "gdal-warp"@,
        }
    }

    /// How the choice is shown.
    pub fn label(self) -> (r: &'static str)
        ensures
            r@ == self.name(),
    {
        match self {
            StrategyPreference::Auto => "auto",
            StrategyPreference::SameCrs => "same-crs",
            StrategyPreference::Geographic => "geographic",
            StrategyPreference::GdalWarp => "gdal-warp",
        }
    }
}

/// A zoom level, or two with a hyphen between them.
pub open spec fn zoom_choice(s: Seq<char>) -> Result<(u8, u8), Seq<char>> {
    let (left, right) = match split_once_at(s, '-') {
        Some(parts) => parts,
        None => (s, s),
    };
    match (unsigned_value(left, 255), unsigned_value(right, 255)) {
        (Some(a), Some(b)) => Ok((a as u8, b as u8)),
        _ => Err("--zoom must be a zoom or range like 0-13"@),
    }
}

/// Reads a zoom level or a range of them.
pub fn parse_zoom(value: &str) -> (r: Result<(u8, u8), Error>)
    ensures
        answers(r, zoom_choice(value@)),
{
    if let Some((left, right)) = split_once(value, '-') {
        let min_zoom: u8 = parse_zoom_part(left.as_str())?;
        let max_zoom: u8 = parse_zoom_part(right.as_str())?;
        return Ok((min_zoom, max_zoom));
    }
    let zoom: u8 = parse_zoom_part(value)?;
    Ok((zoom, zoom))
}

/// Reads one zoom level.
pub fn parse_zoom_part(value: &str) -> (r: Result<u8, Error>)
    ensures
        match unsigned_value(value@, 255) {
            Some(v) => r == Ok::<u8, Error>(v as u8),
            None => refused(r, "--zoom must be a zoom or range like 0-13"@),
        },
{
    match parse_u8(value) {
        Some(zoom) => Ok(zoom),
        None => Err(invalid_input("--zoom must be a zoom or range like 0-13")),
    }
}

/// The image format that a text names, or the message that refuses it.
pub open spec fn format_choice(s: Seq<char>) -> Result<RasterFormat, Seq<char>> {
    if s == "png"@ {
        Ok(RasterFormat::Png)
    } else if s == "jpeg"@ || s == "jpg"@ {
        Ok(RasterFormat::Jpeg)
    } else if s == "webp"@ {
        Ok(RasterFormat::Webp)
    } else {
        Err("--format must be png, jpeg, jpg, or webp"@)
    }
}

/// Reads an image format.
pub fn parse_format(value: &str) -> (r: Result<RasterFormat, Error>)
    ensures
        answers(r, format_choice(value@)),
{
    if text_eq(value, "png") {
        Ok(RasterFormat::Png)
    } else if text_eq(value, "jpeg") || text_eq(value, "jpg") {
        Ok(RasterFormat::Jpeg)
    } else if text_eq(value, "webp") {
        Ok(RasterFormat::Webp)
    } else {
        Err(invalid_input("--format must be png, jpeg, jpg, or webp"))
    }
}

/// The tile size that a text holds, or the message that refuses it.
pub open spec fn tile_size_choice(s: Seq<char>) -> Result<u32, Seq<char>> {
    match unsigned_value(s, u32::MAX as nat) {
        Some(v) => if v == 0 {
            Err("--tile-size must be greater than zero"@)
        } else {
            Ok(v as u32)
        },
        None => Err("--tile-size must be an integer"@),
    }
}

/// Reads a tile size.
pub fn parse_tile_size(value: &str) -> (r: Result<u32, Error>)
    ensures
        answers(r, tile_size_choice(value@)),
{
    match parse_u32(value) {
        Some(tile_size) => {
            if tile_size == 0 {
                Err(invalid_input("--tile-size must be greater than zero"))
            } else {
                Ok(tile_size)
            }
        },
        None => Err(invalid_input("--tile-size must be an integer")),
    }
}

/// The number of workers that a text holds, or the message that refuses it.
pub open spec fn workers_choice(s: Seq<char>) -> Result<usize, Seq<char>> {
    match unsigned_value(s, usize::MAX as nat) {
        Some(v) => if v == 0 {
            Err("--workers must be greater than zero"@)
        } else {
            Ok(v as usize)
        },
        None => Err("--workers must be an integer"@),
    }
}

/// Reads a number of workers.
pub fn parse_workers(value: &str) -> (r: Result<usize, Error>)
    ensures
        answers(r, workers_choice(value@)),
{
    match parse_usize(value) {
        Some(workers) => {
            if workers == 0 {
                Err(invalid_input("--workers must be greater than zero"))
            } else {
                Ok(workers)
            }
        },
        None => Err(invalid_input("--workers must be an integer")),
    }
}

/// The size of blocks that a text holds, or the message that refuses it.
pub open spec fn chunk_tiles_choice(s: Seq<char>) -> Result<ChunkTiles, Seq<char>> {
    if lowered(s) == "auto"@ {
        Ok(ChunkTiles::Auto)
    } else if s == "disabled"@ || s == "disable"@ || s == "none"@ || s == "off"@ {
        Ok(ChunkTiles::Disabled)
    } else {
        match unsigned_value(s, u32::MAX as nat) {
            Some(v) => if v == 0 {
                Err("--chunk-tiles must be greater than zero or disabled"@)
            } else {
                Ok(ChunkTiles::Fixed(v as u32))
            },
            None => Err("--chunk-tiles must be auto, an integer, or disabled"@),
        }
    }
}

/// Reads the size of blocks.
pub fn parse_chunk_tiles(value: &str) -> (r: Result<ChunkTiles, Error>)
    ensures
        answers(r, chunk_tiles_choice(value@)),
{
    let low = to_lower(value);
    if text_eq(low.as_str(), "auto") {
        return Ok(ChunkTiles::Auto);
    }
    if text_eq(value, "disabled") || text_eq(value, "disable") || text_eq(value, "none") || text_eq(
        value,
        "off",
    ) {
        return Ok(ChunkTiles::Disabled);
    }
    match parse_u32(value) {
        Some(chunk_tiles) => {
            if chunk_tiles == 0 {
                Err(invalid_input("--chunk-tiles must be greater than zero or disabled"))
            } else {
                Ok(ChunkTiles::Fixed(chunk_tiles))
            }
        },
        None => Err(invalid_input("--chunk-tiles must be auto, an integer, or disabled")),
    }
}

/// The number of warp threads that a text holds, or the message that refuses it.
pub open spec fn warp_threads_choice(s: Seq<char>) -> Result<WarpThreads, Seq<char>> {
    if lowered(s) == "auto"@ {
        Ok(WarpThreads::Auto)
    } else if lowered(s) == "all"@ || lowered(s) == "all_cpus"@ {
        Ok(WarpThreads::All)
    } else {
        match unsigned_value(s, usize::MAX as nat) {
            Some(v) => if v == 0 {
                Err("--warp-threads must be greater than zero"@)
            } else {
                Ok(WarpThreads::Count(v as usize))
            },
            None => Err("--warp-threads must be all or an integer"@),
        }
    }
}

/// Reads the number of warp threads.
pub fn parse_warp_threads(value: &str) -> (r: Result<WarpThreads, Error>)
    ensures
        answers(r, warp_threads_choice(value@)),
{
    let low = to_lower(value);
    if text_eq(low.as_str(), "auto") {
        return Ok(WarpThreads::Auto);
    }
    if text_eq(low.as_str(), "all") || text_eq(low.as_str(), "all_cpus") {
        return Ok(WarpThreads::All);
    }
    match parse_usize(value) {
        Some(count) => {
            if count == 0 {
                Err(invalid_input("--warp-threads must be greater than zero"))
            } else {
                Ok(WarpThreads::Count(count))
            }
        },
        None => Err(invalid_input("--warp-threads must be all or an integer")),
    }
}

/// The value of the setting that a text stands for, or the message that refuses it.
pub open spec fn disable_readdir_choice(s: Seq<char>) -> Result<Seq<char>, Seq<char>> {
    let low = lowered(s);
    if low == "true"@ || low == "yes"@ || low == "on"@ {
        Ok("TRUE"@)
    } else if low == "false"@ || low == "no"@ || low == "off"@ {
        Ok("FALSE"@)
    } else if low == "empty_dir"@ || low == "empty-dir"@ || low == "empty"@ {
        Ok("EMPTY_DIR"@)
    } else {
        Err("--gdal-disable-readdir must be true, false, or empty-dir"@)
    }
}

/// Reads whether directories are listed when a source is opened.
pub fn parse_gdal_disable_readdir(value: &str) -> (r: Result<String, Error>)
    ensures
        match disable_readdir_choice(value@) {
            Ok(v) => r matches Ok(s) && s@ == v,
            Err(message) => refused(r, message),
        },
{
    let low = to_lower(value);
    let low = low.as_str();
    if text_eq(low, "true") || text_eq(low, "yes") || text_eq(low, "on") {
        Ok("TRUE".to_owned())
    } else if text_eq(low, "false") || text_eq(low, "no") || text_eq(low, "off") {
        Ok("FALSE".to_owned())
    } else if text_eq(low, "empty_dir") || text_eq(low, "empty-dir") || text_eq(low, "empty") {
        Ok("EMPTY_DIR".to_owned())
    } else {
        Err(invalid_input("--gdal-disable-readdir must be true, false, or empty-dir"))
    }
}

/// The way of resampling that a text names, or the message that refuses it.
pub open spec fn resampling_choice(s: Seq<char>) -> Result<Resampling, Seq<char>> {
    if s == "near"@ || s == "nearest"@ {
        Ok(Resampling::Nearest)
    } else if s == "bilinear"@ {
        Ok(Resampling::Bilinear)
    } else if s == "cubic"@ {
        Ok(Resampling::Cubic)
    } else if s == "cubicspline"@ || s == "cubic_spline"@ {
        Ok(Resampling::CubicSpline)
    } else if s == "lanczos"@ {
        Ok(Resampling::Lanczos)
    } else if s == "average"@ {
        Ok(Resampling::Average)
    } else {
        Err("--resampling must be nearest, bilinear, cubic, cubicspline, lanczos, or average"@)
    }
}

/// Reads a way of resampling.
pub fn parse_resampling(value: &str) -> (r: Result<Resampling, Error>)
    ensures
        answers(r, resampling_choice(value@)),
{
    if text_eq(value, "near") || text_eq(value, "nearest") {
        Ok(Resampling::Nearest)
    } else if text_eq(value, "bilinear") {
        Ok(Resampling::Bilinear)
    } else if text_eq(value, "cubic") {
        Ok(Resampling::Cubic)
    } else if text_eq(value, "cubicspline") || text_eq(value, "cubic_spline") {
        Ok(Resampling::CubicSpline)
    } else if text_eq(value, "lanczos") {
        Ok(Resampling::Lanczos)
    } else if text_eq(value, "average") {
        Ok(Resampling::Average)
    } else {
        Err(
            invalid_input(
                "--resampling must be nearest, bilinear, cubic, cubicspline, lanczos, or average",
            ),
        )
    }
}

/// The way of rendering that a text names, or the message that refuses it.
pub open spec fn strategy_choice(s: Seq<char>) -> Result<StrategyPreference, Seq<char>> {
    if s == "auto"@ {
        Ok(StrategyPreference::Auto)
    } else if s == "same-crs"@ || s == "same_crs"@ {
        Ok(StrategyPreference::SameCrs)
    } else if s == "geographic"@ || s == "wgs84"@ {
        Ok(StrategyPreference::Geographic)
    } else if s == "gdal-warp"@ || s == "gdal_warp"@ {
        Ok(StrategyPreference::GdalWarp)
    } else {
        Err("--strategy must be auto, same-crs, geographic, or gdal-warp"@)
    }
}

/// Reads a way of rendering.
pub fn parse_strategy(value: &str) -> (r: Result<StrategyPreference, Error>)
    ensures
        answers(r, strategy_choice(value@)),
{
    if text_eq(value, "auto") {
        Ok(StrategyPreference::Auto)
    } else if text_eq(value, "same-crs") || text_eq(value, "same_crs") {
        Ok(StrategyPreference::SameCrs)
    } else if text_eq(value, "geographic") || text_eq(value, "wgs84") {
        Ok(StrategyPreference::Geographic)
    } else if text_eq(value, "gdal-warp") || text_eq(value, "gdal_warp") {
        Ok(StrategyPreference::GdalWarp)
    } else {
        Err(invalid_input("--strategy must be auto, same-crs, geographic, or gdal-warp"))
    }
}

/// The WebP method that a text holds, or the message that refuses it.
pub open spec fn webp_method_choice(s: Seq<char>) -> Result<i32, Seq<char>> {
    match signed_value(s) {
        Some(v) => if 0 <= v <= 6 {
            Ok(v as i32)
        } else {
            Err("--webp-method must be between 0 and 6"@)
        },
        None => Err("--webp-method must be an integer from 0 to 6"@),
    }
}

/// Reads a WebP method.
pub fn parse_webp_method(value: &str) -> (r: Result<i32, Error>)
    ensures
        answers(r, webp_method_choice(value@)),
{
    match parse_i32(value) {
        Some(method) => {
            if 0 <= method && method <= 6 {
                Ok(method)
            } else {
                Err(invalid_input("--webp-method must be between 0 and 6"))
            }
        },
        None => Err(invalid_input("--webp-method must be an integer from 0 to 6")),
    }
}

/// A name and a value with `=` between them, neither of them empty.
pub open spec fn name_value_choice(s: Seq<char>) -> Result<(Seq<char>, Seq<char>), Seq<char>> {
    match split_once_at(s, '=') {
        Some((name, value)) => if name.len() == 0 || value.len() == 0 {
            Err("--warp-option must be NAME=VALUE"@)
        } else {
            Ok((name, value))
        },
        None => Err("--warp-option must be NAME=VALUE"@),
    }
}

/// Reads a name and a value.
pub fn parse_name_value(value: &str) -> (r: Result<(String, String), Error>)
    ensures
        match name_value_choice(value@) {
            Ok((name, value)) => r matches Ok(p) && p.0@ == name && p.1@ == value,
            Err(message) => refused(r, message),
        },
{
    match split_once(value, '=') {
        Some((name, option_value)) => {
            let name_chars = chars_of(name.as_str());
            let value_chars = chars_of(option_value.as_str());
            if name_chars.len() == 0 || value_chars.len() == 0 {
                Err(invalid_input("--warp-option must be NAME=VALUE"))
            } else {
                Ok((name, option_value))
            }
        },
        None => Err(invalid_input("--warp-option must be NAME=VALUE")),
    }
}

/// The four numbers of a bounding box are separated by commas.
pub open spec fn bounds_parts(s: Seq<char>) -> Result<Seq<Seq<char>>, Seq<char>> {
    let parts = split_at_all(s, ',');
    if parts.len() == 4 {
        Ok(parts)
    } else {
        Err("--bounds must be west,south,east,north"@)
    }
}

/// Takes a bounding box apart into the texts of its four numbers.
pub fn split_bounds(value: &str) -> (r: Result<Vec<String>, Error>)
    ensures
        match bounds_parts(value@) {
            Ok(parts) => r matches Ok(v) && texts(v@) == parts,
            Err(message) => refused(r, message),
        },
{
    let parts = split(value, ',');
    if parts.len() == 4 {
        Ok(parts)
    } else {
        Err(invalid_input("--bounds must be west,south,east,north"))
    }
}

/// White space in the sense of Unicode.
pub open spec fn is_white(c: char) -> bool {
    ||| '\u{9}' <= c && c <= '\u{d}'
    ||| c == '\u{20}'
    ||| c == '\u{85}'
    ||| c == '\u{a0}'
    ||| c == '\u{1680}'
    ||| '\u{2000}' <= c && c <= '\u{200a}'
    ||| c == '\u{2028}'
    ||| c == '\u{2029}'
    ||| c == '\u{202f}'
    ||| c == '\u{205f}'
    ||| c == '\u{3000}'
}

fn is_white_char(c: char) -> (r: bool)
    ensures
        r == is_white(c),
{
    ('\u{9}' <= c && c <= '\u{d}') || c == '\u{20}' || c == '\u{85}' || c == '\u{a0}' || c
        == '\u{1680}' || ('\u{2000}' <= c && c <= '\u{200a}') || c == '\u{2028}' || c == '\u{2029}'
        || c == '\u{202f}' || c == '\u{205f}' || c == '\u{3000}'
}

/// The text without white space at its start.
pub open spec fn trimmed_start(s: Seq<char>) -> Seq<char>
    decreases s.len(),
{
    if s.len() > 0 && is_white(s[0]) {
        trimmed_start(s.drop_first())
    } else {
        s
    }
}

/// The text without white space at its end.
pub open spec fn trimmed_end(s: Seq<char>) -> Seq<char>
    decreases s.len(),
{
    if s.len() > 0 && is_white(s.last()) {
        trimmed_end(s.drop_last())
    } else {
        s
    }
}

/// Bytes that the letter after an amount of memory stands for.
pub open spec fn memory_suffix(c: char) -> Option<u64> {
    if c == 'k' || c == 'K' {
        Some(0x400)
    } else if c == 'm' || c == 'M' {
        Some(0x10_0000)
    } else if c == 'g' || c == 'G' {
        Some(0x4000_0000)
    } else {
        None
    }
}

/// The number in an amount of memory, and the bytes that one of it stands for: a megabyte where
/// no letter follows.
pub open spec fn memory_parts(s: Seq<char>) -> Result<(Seq<char>, u64), Seq<char>> {
    let t = trimmed_end(trimmed_start(s));
    if t.len() == 0 {
        Err("--warp-memory requires a value"@)
    } else {
        match memory_suffix(t.last()) {
            Some(unit) => Ok((t.drop_last(), unit)),
            None => Ok((t, 0x10_0000)),
        }
    }
}

/// Takes an amount of memory apart into the text of its number and the bytes that one of it
/// stands for.
pub fn split_memory(value: &str) -> (r: Result<(String, u64), Error>)
    ensures
        match memory_parts(value@) {
            Ok((number, unit)) => r matches Ok(p) && p.0@ == number && p.1 == unit,
            Err(message) => refused(r, message),
        },
{
    let chars = chars_of(value);
    let mut from: usize = 0;
    assert(chars@.skip(0) =~= value@);
    while from < chars.len() && is_white_char(chars[from])
        invariant
            chars@ == value@,
            from <= chars@.len(),
            trimmed_start(value@.skip(from as int)) == trimmed_start(value@),
        decreases chars@.len() - from,
    {
        assert(value@.skip(from as int).drop_first() =~= value@.skip(from + 1));
        from = from + 1;
    }
    let mut to: usize = chars.len();
    assert(value@.subrange(from as int, to as int) =~= value@.skip(from as int));
    while from < to && is_white_char(chars[to - 1])
        invariant
            chars@ == value@,
            from <= to <= chars@.len(),
            trimmed_end(value@.subrange(from as int, to as int)) == trimmed_end(
                trimmed_start(value@),
            ),
        decreases to - from,
    {
        assert(value@.subrange(from as int, to as int).drop_last() =~= value@.subrange(
            from as int,
            to - 1,
        ));
        to = to - 1;
    }
    let ghost t = value@.subrange(from as int, to as int);
    if from == to {
        return Err(invalid_input("--warp-memory requires a value"));
    }
    let last = chars[to - 1];
    assert(t.drop_last() =~= value@.subrange(from as int, to - 1));
    if last == 'k' || last == 'K' {
        Ok((text_of(&chars, from, to - 1), 0x400))
    } else if last == 'm' || last == 'M' {
        Ok((text_of(&chars, from, to - 1), 0x10_0000))
    } else if last == 'g' || last == 'G' {
        Ok((text_of(&chars, from, to - 1), 0x4000_0000))
    } else {
        Ok((text_of(&chars, from, to), 0x10_0000))
    }
}

proof fn lemma_digits_are_no_words(v: nat)
    ensures
        lowered(decimal(v)) == decimal(v),
        decimal(v).len() > 0,
        crate::numbers::is_digit(decimal(v)[0]),
    decreases v,
{
    if v >= 10 {
        lemma_digits_are_no_words(v / 10);
    }
    assert(lowered(decimal(v)) =~= decimal(v));
}

/// Each choice is read back from the text that shows it.
pub proof fn law_choices_round_trip(
    format: RasterFormat,
    resampling: Resampling,
    strategy: StrategyPreference,
)
    ensures
        format_choice(format.name()) == Ok::<RasterFormat, Seq<char>>(format),
        resampling_choice(resampling.name()) == Ok::<Resampling, Seq<char>>(resampling),
        strategy_choice(strategy.name()) == Ok::<StrategyPreference, Seq<char>>(strategy),
{
    reveal_strlit("png");
    reveal_strlit("jpeg");
    reveal_strlit("jpg");
    reveal_strlit("webp");
    reveal_strlit("near");
    reveal_strlit("nearest");
    reveal_strlit("bilinear");
    reveal_strlit("cubic");
    reveal_strlit("cubicspline");
    reveal_strlit("cubic_spline");
    reveal_strlit("lanczos");
    reveal_strlit("average");
    reveal_strlit("auto");
    reveal_strlit("same-crs");
    reveal_strlit("same_crs");
    reveal_strlit("geographic");
    reveal_strlit("wgs84");
    reveal_strlit("gdal-warp");
    assert("png"@[0] == 'p' && "jpeg"@[0] == 'j' && "jpg"@[0] == 'j' && "webp"@[0] == 'w');
    assert("nearest"@[0] == 'n' && "bilinear"@[0] == 'b' && "lanczos"@[0] == 'l' && "average"@[0]
        == 'a' && "cubic"@[0] == 'c' && "cubicspline"@[0] == 'c' && "near"@[0] == 'n');
    assert("cubic"@.len() == 5 && "cubicspline"@.len() == 11);
    assert("same-crs"@[0] == 's' && "geographic"@[0] == 'g' && "gdal-warp"@[0] == 'g'
        && "geographic"@[1] == 'e' && "gdal-warp"@[1] == 'd' && "wgs84"@[0] == 'w' && "auto"@[0]
        == 'a' && "same_crs"@[0] == 's');
}

/// The number of warp threads, and that of tiles in a block, are read back from the text that
/// shows them.
pub proof fn law_counts_round_trip(threads: WarpThreads, chunks: ChunkTiles)
    requires
        threads != WarpThreads::Count(0),
        chunks != ChunkTiles::Fixed(0),
    ensures
        warp_threads_choice(threads.name()) == Ok::<WarpThreads, Seq<char>>(threads),
        chunk_tiles_choice(chunks.name()) == Ok::<ChunkTiles, Seq<char>>(chunks),
{
    reveal_strlit("auto");
    reveal_strlit("all");
    reveal_strlit("all_cpus");
    reveal_strlit("disabled");
    reveal_strlit("disable");
    reveal_strlit("none");
    reveal_strlit("off");
    assert(lowered("auto"@) =~= "auto"@);
    assert(lowered("all"@) =~= "all"@);
    assert("auto"@[0] == 'a' && "auto"@[1] == 'u' && "all"@[0] == 'a' && "all"@[1] == 'l'
        && "all_cpus"@[0] == 'a' && "disabled"@[0] == 'd' && "disable"@[0] == 'd' && "none"@[0]
        == 'n' && "off"@[0] == 'o');
    assert(lowered("disabled"@)[0] == 'd');
    if let WarpThreads::Count(count) = threads {
        lemma_digits_are_no_words(count as nat);
        law_decimal_round_trip(count as nat, usize::MAX as nat);
    }
    if let ChunkTiles::Fixed(count) = chunks {
        lemma_digits_are_no_words(count as nat);
        law_decimal_round_trip(count as nat, u32::MAX as nat);
    }
}

/// The texts that stand for an image format, and the format that each stands for.
pub proof fn law_format_texts(s: Seq<char>)
    ensures
        format_choice(s) == Ok::<RasterFormat, Seq<char>>(RasterFormat::Png) <==> s == "png"@,
        format_choice(s) == Ok::<RasterFormat, Seq<char>>(RasterFormat::Jpeg) <==> s == "jpeg"@
            || s == "jpg"@,
        format_choice(s) == Ok::<RasterFormat, Seq<char>>(RasterFormat::Webp) <==> s == "webp"@,
        RasterFormat::Png.name() == "png"@,
        RasterFormat::Jpeg.name() == "jpg"@,
        RasterFormat::Webp.name() == "webp"@,
{
    reveal_strlit("png");
    reveal_strlit("jpeg");
    reveal_strlit("jpg");
    reveal_strlit("webp");
    assert("png"@[0] == 'p' && "jpeg"@[0] == 'j' && "jpg"@[0] == 'j' && "webp"@[0] == 'w');
}

/// The texts that stand for a way of resampling, and the way that each stands for.
pub proof fn law_resampling_texts(s: Seq<char>)
    ensures
        resampling_choice("near"@) == Ok::<Resampling, Seq<char>>(Resampling::Nearest),
        resampling_choice("nearest"@) == Ok::<Resampling, Seq<char>>(Resampling::Nearest),
        resampling_choice("bilinear"@) == Ok::<Resampling, Seq<char>>(Resampling::Bilinear),
        resampling_choice("cubic"@) == Ok::<Resampling, Seq<char>>(Resampling::Cubic),
        resampling_choice("cubicspline"@) == Ok::<Resampling, Seq<char>>(Resampling::CubicSpline),
        resampling_choice("cubic_spline"@) == Ok::<Resampling, Seq<char>>(Resampling::CubicSpline),
        resampling_choice("lanczos"@) == Ok::<Resampling, Seq<char>>(Resampling::Lanczos),
        resampling_choice("average"@) == Ok::<Resampling, Seq<char>>(Resampling::Average),
        resampling_choice(s) is Ok ==> s == "near"@ || s == "nearest"@ || s == "bilinear"@ || s
            == "cubic"@ || s == "cubicspline"@ || s == "cubic_spline"@ || s == "lanczos"@ || s
            == "average"@,
{
    reveal_strlit("near");
    reveal_strlit("nearest");
    reveal_strlit("bilinear");
    reveal_strlit("cubic");
    reveal_strlit("cubicspline");
    reveal_strlit("cubic_spline");
    reveal_strlit("lanczos");
    reveal_strlit("average");
    assert("near"@[0] == 'n' && "nearest"@[0] == 'n' && "bilinear"@[0] == 'b' && "cubic"@[0] == 'c'
        && "cubicspline"@[0] == 'c' && "cubic_spline"@[0] == 'c' && "lanczos"@[0] == 'l'
        && "average"@[0] == 'a');
    assert("cubic"@.len() == 5 && "cubicspline"@.len() == 11 && "cubic_spline"@.len() == 12);
}

/// The texts that stand for a way of rendering, and the way that each stands for.
pub proof fn law_strategy_texts(s: Seq<char>)
    ensures
        strategy_choice("auto"@) == Ok::<StrategyPreference, Seq<char>>(StrategyPreference::Auto),
        strategy_choice("same-crs"@) == Ok::<StrategyPreference, Seq<char>>(
            StrategyPreference::SameCrs,
        ),
        strategy_choice("same_crs"@) == Ok::<StrategyPreference, Seq<char>>(
            StrategyPreference::SameCrs,
        ),
        strategy_choice("geographic"@) == Ok::<StrategyPreference, Seq<char>>(
            StrategyPreference::Geographic,
        ),
        strategy_choice("wgs84"@) == Ok::<StrategyPreference, Seq<char>>(
            StrategyPreference::Geographic,
        ),
        strategy_choice("gdal-warp"@) == Ok::<StrategyPreference, Seq<char>>(
            StrategyPreference::GdalWarp,
        ),
        strategy_choice("gdal_warp"@) == Ok::<StrategyPreference, Seq<char>>(
            StrategyPreference::GdalWarp,
        ),
        strategy_choice(s) is Ok ==> s == "auto"@ || s == "same-crs"@ || s == "same_crs"@ || s
            == "geographic"@ || s == "wgs84"@ || s == "gdal-warp"@ || s == "gdal_warp"@,
{
    reveal_strlit("auto");
    reveal_strlit("same-crs");
    reveal_strlit("same_crs");
    reveal_strlit("geographic");
    reveal_strlit("wgs84");
    reveal_strlit("gdal-warp");
    reveal_strlit("gdal_warp");
    assert("auto"@[0] == 'a' && "same-crs"@[0] == 's' && "same_crs"@[0] == 's' && "geographic"@[0]
        == 'g' && "geographic"@[1] == 'e' && "wgs84"@[0] == 'w' && "gdal-warp"@[0] == 'g'
        && "gdal-warp"@[1] == 'd' && "gdal_warp"@[0] == 'g' && "gdal_warp"@[1] == 'd');
}

/// A zoom level is read as a range of one level. Two of them with a hyphen between them are read
/// as the lowest and the highest level. No level is above 255.
pub proof fn law_zoom_texts(a: nat, b: nat)
    ensures
        a <= 255 ==> zoom_choice(decimal(a)) == Ok::<(u8, u8), Seq<char>>((a as u8, a as u8)),
        a > 255 ==> zoom_choice(decimal(a)) is Err,
        a <= 255 && b <= 255 ==> zoom_choice(decimal(a) + seq!['-'] + decimal(b)) == Ok::<
            (u8, u8),
            Seq<char>,
        >((a as u8, b as u8)),
        a > 255 || b > 255 ==> zoom_choice(decimal(a) + seq!['-'] + decimal(b)) is Err,
{
    law_decimal(a, a);
    law_decimal(b, b);
    law_unsigned_value(a, Seq::empty(), 255);
    law_unsigned_value(b, Seq::empty(), 255);
    law_split_once(decimal(a), '-');
    assert(!decimal(a).contains('-'));
    let s = decimal(a) + seq!['-'] + decimal(b);
    let n = decimal(a).len() as int;
    assert(s[n] == '-');
    assert forall|k: int| 0 <= k < n implies s[k] != '-' by {
        assert(s[k] == decimal(a)[k]);
    }
    lemma_find(s, '-', n);
    assert(s.take(n) =~= decimal(a));
    assert(s.skip(n + 1) =~= decimal(b));
}

/// Sizes and numbers of workers are read as they are written, and must not be zero.
pub proof fn law_size_texts(v: nat)
    ensures
        0 < v <= u32::MAX ==> tile_size_choice(decimal(v)) == Ok::<u32, Seq<char>>(v as u32),
        v == 0 || v > u32::MAX ==> tile_size_choice(decimal(v)) is Err,
        0 < v <= usize::MAX ==> workers_choice(decimal(v)) == Ok::<usize, Seq<char>>(v as usize),
        v == 0 || v > usize::MAX ==> workers_choice(decimal(v)) is Err,
{
    law_unsigned_value(v, Seq::empty(), u32::MAX as nat);
    law_unsigned_value(v, Seq::empty(), usize::MAX as nat);
}

/// The texts that stand for a size of blocks: a number that is not zero, `auto` in any case, and
/// four words that switch blocks off.
pub proof fn law_chunk_texts(v: nat, s: Seq<char>)
    ensures
        0 < v <= u32::MAX ==> chunk_tiles_choice(decimal(v)) == Ok::<ChunkTiles, Seq<char>>(
            ChunkTiles::Fixed(v as u32),
        ),
        v == 0 || v > u32::MAX ==> chunk_tiles_choice(decimal(v)) is Err,
        chunk_tiles_choice(s) == Ok::<ChunkTiles, Seq<char>>(ChunkTiles::Auto) <==> lowered(s)
            == "auto"@,
        chunk_tiles_choice(s) == Ok::<ChunkTiles, Seq<char>>(ChunkTiles::Disabled) <==> s
            == "disabled"@ || s == "disable"@ || s == "none"@ || s == "off"@,
{
    reveal_strlit("auto");
    reveal_strlit("disabled");
    reveal_strlit("disable");
    reveal_strlit("none");
    reveal_strlit("off");
    assert("auto"@[0] == 'a' && "disabled"@[0] == 'd' && "disable"@[0] == 'd' && "none"@[0] == 'n'
        && "off"@[0] == 'o');
    assert(lowered("disabled"@)[0] == 'd' && lowered("disable"@)[0] == 'd' && lowered("none"@)[0]
        == 'n' && lowered("off"@)[0] == 'o');
    lemma_digits_are_no_words(v);
    law_unsigned_value(v, Seq::empty(), u32::MAX as nat);
}

/// The texts that stand for a number of warp threads: a number that is not zero, and `auto`,
/// `all` and `all_cpus` in any case.
pub proof fn law_thread_texts(v: nat, s: Seq<char>)
    ensures
        0 < v <= usize::MAX ==> warp_threads_choice(decimal(v)) == Ok::<WarpThreads, Seq<char>>(
            WarpThreads::Count(v as usize),
        ),
        v == 0 || v > usize::MAX ==> warp_threads_choice(decimal(v)) is Err,
        warp_threads_choice(s) == Ok::<WarpThreads, Seq<char>>(WarpThreads::Auto) <==> lowered(s)
            == "auto"@,
        warp_threads_choice(s) == Ok::<WarpThreads, Seq<char>>(WarpThreads::All) <==> lowered(s)
            == "all"@ || lowered(s) == "all_cpus"@,
{
    reveal_strlit("auto");
    reveal_strlit("all");
    reveal_strlit("all_cpus");
    assert("auto"@[1] == 'u' && "all"@[1] == 'l' && "all_cpus"@[1] == 'l' && "auto"@[0] == 'a'
        && "all"@[0] == 'a' && "all_cpus"@[0] == 'a');
    lemma_digits_are_no_words(v);
    law_unsigned_value(v, Seq::empty(), usize::MAX as nat);
}

/// The seven WebP methods are read as they are written, and no other number is taken.
pub proof fn law_method_texts(v: nat)
    ensures
        v <= 6 ==> webp_method_choice(decimal(v)) == Ok::<i32, Seq<char>>(v as i32),
        v > 6 ==> webp_method_choice(decimal(v)) is Err,
        v > 0 ==> webp_method_choice(seq!['-'] + decimal(v)) is Err,
{
    law_decimal(v, v);
    law_signed_value(v, decimal(v));
    law_unsigned_value(v, Seq::empty(), 0x7fff_ffff);
}

/// The texts that say whether directories are listed, in any case, and what each stands for.
pub proof fn law_readdir_texts(s: Seq<char>)
    ensures
        ({
            let low = lowered(s);
            let r = disable_readdir_choice(s);
            &&& low == "true"@ || low == "yes"@ || low == "on"@ ==> r == Ok::<
                Seq<char>,
                Seq<char>,
            >("TRUE"@)
            &&& low == "false"@ || low == "no"@ || low == "off"@ ==> r == Ok::<
                Seq<char>,
                Seq<char>,
            >("FALSE"@)
            &&& low == "empty_dir"@ || low == "empty-dir"@ || low == "empty"@ ==> r == Ok::<
                Seq<char>,
                Seq<char>,
            >("EMPTY_DIR"@)
            &&& r is Ok ==> low == "true"@ || low == "yes"@ || low == "on"@ || low == "false"@
                || low == "no"@ || low == "off"@ || low == "empty_dir"@ || low == "empty-dir"@
                || low == "empty"@
        }),
{
    reveal_strlit("true");
    reveal_strlit("yes");
    reveal_strlit("on");
    reveal_strlit("false");
    reveal_strlit("no");
    reveal_strlit("off");
    reveal_strlit("empty_dir");
    reveal_strlit("empty-dir");
    reveal_strlit("empty");
    assert("true"@[0] == 't' && "yes"@[0] == 'y' && "on"@[0] == 'o' && "false"@[0] == 'f'
        && "no"@[0] == 'n' && "off"@[0] == 'o' && "empty"@[0] == 'e' && "empty_dir"@[0] == 'e'
        && "empty-dir"@[0] == 'e');
    assert("on"@.len() == 2 && "off"@.len() == 3);
}

/// A name and a value are parted at the first `=`; neither may be empty.
pub proof fn law_name_value(s: Seq<char>)
    ensures
        name_value_choice(s) matches Ok((name, value)) ==> {
            &&& s == name + seq!['='] + value
            &&& !name.contains('=')
            &&& name.len() > 0
            &&& value.len() > 0
        },
        name_value_choice(s) is Err ==> !s.contains('=') || s[0] == '=' || (s.last() == '='
            && !s.drop_last().contains('=')),
{
    law_split_once(s, '=');
    if let Some((name, value)) = split_once_at(s, '=') {
        if name.len() == 0 {
            assert(s[0] == '=');
        }
        if value.len() == 0 {
            assert(s.last() == '=');
            assert(s.drop_last() =~= name);
        }
    }
}

/// Four texts without commas, with commas between them, are the four parts of bounds in their
/// order: west, south, east and north.
pub proof fn law_bounds_parts(
    west: Seq<char>,
    south: Seq<char>,
    east: Seq<char>,
    north: Seq<char>,
    s: Seq<char>,
)
    requires
        !west.contains(','),
        !south.contains(','),
        !east.contains(','),
        !north.contains(','),
    ensures
        bounds_parts(
            west + seq![','] + (south + seq![','] + (east + seq![','] + north)),
        ) == Ok::<Seq<Seq<char>>, Seq<char>>(seq![west, south, east, north]),
        bounds_parts(s) matches Ok(parts) ==> parts.len() == 4,
        bounds_parts(west) is Err,
        bounds_parts(west + seq![','] + south) is Err,
        bounds_parts(west + seq![','] + (south + seq![','] + east)) is Err,
{
    law_split_at_all(north, Seq::empty(), ',');
    law_split_at_all(east, north, ',');
    law_split_at_all(south, east + seq![','] + north, ',');
    law_split_at_all(west, south + seq![','] + (east + seq![','] + north), ',');
    law_split_at_all(west, south, ',');
    law_split_at_all(south, east, ',');
    law_split_at_all(west, south + seq![','] + east, ',');
    assert(seq![west] + (seq![south] + (seq![east] + seq![north])) =~= seq![
        west,
        south,
        east,
        north,
    ]);
}

/// An amount of memory is in kilobytes, megabytes or gigabytes where a letter says so, in either
/// case, and else in megabytes. White space around it does not matter, and something must be
/// there.
pub proof fn law_memory_parts(number: Seq<char>, s: Seq<char>)
    requires
        number.len() > 0,
        !is_white(number[0]),
        !is_white(number.last()),
    ensures
        memory_parts(number.push('k')) == Ok::<(Seq<char>, u64), Seq<char>>((number, 1024)),
        memory_parts(number.push('K')) == Ok::<(Seq<char>, u64), Seq<char>>((number, 1024)),
        memory_parts(number.push('m')) == Ok::<(Seq<char>, u64), Seq<char>>((number, 1_048_576)),
        memory_parts(number.push('M')) == Ok::<(Seq<char>, u64), Seq<char>>((number, 1_048_576)),
        memory_parts(number.push('g')) == Ok::<(Seq<char>, u64), Seq<char>>(
            (number, 1_073_741_824),
        ),
        memory_parts(number.push('G')) == Ok::<(Seq<char>, u64), Seq<char>>(
            (number, 1_073_741_824),
        ),
        !seq!['k', 'K', 'm', 'M', 'g', 'G'].contains(number.last()) ==> memory_parts(number)
            == Ok::<(Seq<char>, u64), Seq<char>>((number, 1_048_576)),
        memory_parts(seq![' '] + s) == memory_parts(s),
        memory_parts(number.push(' ')) == memory_parts(number),
        memory_parts(Seq::empty()) is Err,
{
    assert forall|c: char| !is_white(c) implies trimmed_end(
        trimmed_start(#[trigger] number.push(c)),
    ) == number.push(c) && number.push(c).drop_last() == number && number.push(c).last() == c by {
        assert(number.push(c)[0] == number[0]);
        assert(number.push(c).drop_last() =~= number);
    }
    assert(trimmed_end(trimmed_start(number)) == number);
    let k = seq!['k', 'K', 'm', 'M', 'g', 'G'];
    assert(k[0] == 'k' && k[1] == 'K' && k[2] == 'm' && k[3] == 'M' && k[4] == 'g' && k[5] == 'G');
    let t = seq![' '] + s;
    assert(t.drop_first() =~= s);
    assert(is_white(t[0]));
    let u = number.push(' ');
    assert(u[0] == number[0]);
    assert(u.drop_last() =~= number);
    assert(trimmed_start(u) == u);
    assert(is_white(u.last()));
}

/// Warps that run at the same time share the processors, as far as each has at least one; a warp
/// of its own has all of them, and a number that the user gave is handed on.
pub proof fn law_threads_are_shared(concurrent: nat, available: nat, count: usize)
    ensures
        WarpThreads::All.gdal_value(concurrent, available) == "ALL_CPUS"@,
        WarpThreads::Count(count).gdal_value(concurrent, available) == decimal(count as nat),
        concurrent <= 1 ==> WarpThreads::Auto.gdal_value(concurrent, available) == "ALL_CPUS"@,
        concurrent > 1 ==> exists|threads: nat|
            {
                &&& WarpThreads::Auto.gdal_value(concurrent, available) == #[trigger] decimal(
                    threads,
                )
                &&& threads >= 1
                &&& available >= concurrent ==> threads * concurrent <= available < (threads + 1)
                    * concurrent
                &&& available < concurrent ==> threads == 1
            },
{
    if concurrent > 1 {
        let threads = if available < concurrent {
            1
        } else {
            available / concurrent
        };
        if available >= concurrent {
            vstd::arithmetic::div_mod::lemma_fundamental_div_mod(
                available as int,
                concurrent as int,
            );
            vstd::arithmetic::div_mod::lemma_mod_bound(available as int, concurrent as int);
            assert(concurrent * threads == threads * concurrent) by (nonlinear_arith);
            assert((threads + 1) * concurrent == threads * concurrent + concurrent)
                by (nonlinear_arith);
            assert(threads >= 1) by (nonlinear_arith)
                requires
                    available < (threads + 1) * concurrent,
                    available >= concurrent,
                    threads >= 0,
            ;
        }
        assert(WarpThreads::Auto.gdal_value(concurrent, available) == decimal(threads));
    }
}

/// How each choice is shown.
pub proof fn law_labels(count: usize, tiles: u32)
    ensures
        Resampling::Nearest.name() == "nearest"@,
        Resampling::Bilinear.name() == "bilinear"@,
        Resampling::Cubic.name() == "cubic"@,
        Resampling::CubicSpline.name() == "cubicspline"@,
        Resampling::Lanczos.name() == "lanczos"@,
        Resampling::Average.name() == "average"@,
        StrategyPreference::Auto.name() == "auto"@,
        StrategyPreference::SameCrs.name() == "same-crs"@,
        StrategyPreference::Geographic.name() == "geographic"@,
        StrategyPreference::GdalWarp.name() == "gdal-warp"@,
        WarpThreads::Auto.name() == "auto"@,
        WarpThreads::All.name() == "all"@,
        WarpThreads::Count(count).name() == decimal(count as nat),
        ChunkTiles::Auto.name() == "auto"@,
        ChunkTiles::Fixed(tiles).name() == decimal(tiles as nat),
        ChunkTiles::Disabled.name() == "disabled"@,
{
}

} // verus!
