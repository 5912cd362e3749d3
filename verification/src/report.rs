//! What is shown to the user.
use vstd::prelude::*;
use vstd::string::StringExecFns;

use crate::args::pairs;
use crate::chunking::{auto_chunk_tiles, auto_size, indices_in_reach};
use crate::header::{Header, ParsedHeader};
use crate::jobs::{jobs_by_zoom, law_runs, runs, slices, zoom_key, TileJob};
use crate::numbers::{
    bytes_shown, degrees_shown, format_bytes, format_count, format_degrees, grouped,
};
use crate::options::{ChunkTiles, RasterFormat, RasterOptions};
use crate::pack::TileType;
use crate::render::{lemma_member_of_parts, RenderStrategy};
use crate::text::{chars_of, decimal, decimal_text, find, law_decimal, lemma_find, texts};

verus! {

/// So many spaces.
pub open spec fn spaces(n: nat) -> Seq<char> {
    Seq::new(n, |i: int| ' ')
}

/// The text, with spaces behind it up to the given width.
pub open spec fn padded(s: Seq<char>, width: nat) -> Seq<char> {
    if s.len() >= width {
        s
    } else {
        s + spaces((width - s.len()) as nat)
    }
}

/// A label and a value, the values of all lines below each other.
pub open spec fn labelled(label: Seq<char>, value: Seq<char>, width: nat) -> Seq<char> {
    "  "@ + padded(label, width) + " "@ + value
}

/// A line of a report.
pub open spec fn field(label: Seq<char>, value: Seq<char>) -> Seq<char> {
    labelled(label, value, 20)
}

/// A line about work under way.
pub open spec fn status(label: Seq<char>, value: Seq<char>) -> Seq<char> {
    labelled(label, value, 18)
}

fn labelled_line(label: &str, value: &str, width: usize) -> (r: String)
    ensures
        r@ == labelled(label@, value@, width as nat),
{
    let mut line = "  ".to_owned();
    line.append(label);
    let ghost start = line@;
    let count: usize = chars_of(label).len();
    let mut i: usize = count;
    assert(spaces(0) =~= Seq::empty());
    assert(line@ =~= start + spaces(0));
    while i < width
        invariant
            count <= i,
            i <= width || i == count,
            line@ == start + spaces((i - count) as nat),
        decreases width - i,
    {
        line.push(' ');
        i = i + 1;
        assert(line@ =~= start + spaces((i - count) as nat));
    }
    assert(line@ =~= "  "@ + padded(label@, width as nat));
    line.append(" ");
    line.append(value);
    line
}

/// A line of a report.
pub fn field_line(label: &str, value: &str) -> (r: String)
    ensures
        r@ == field(label@, value@),
{
    labelled_line(label, value, 20)
}

/// A line about work under way.
pub fn status_line(label: &str, value: &str) -> (r: String)
    ensures
        r@ == status(label@, value@),
{
    labelled_line(label, value, 18)
}

fn add_line(out: &mut Vec<String>, line: String)
    ensures
        texts(final(out)@) == texts(old(out)@).push(line@),
{
    out.push(line);
    assert(texts(out@) =~= texts(old(out)@).push(line@));
}

fn add_text(out: &mut Vec<String>, line: &str)
    ensures
        texts(final(out)@) == texts(old(out)@).push(line@),
{
    add_line(out, line.to_owned());
}

fn add_field(out: &mut Vec<String>, label: &str, value: &str)
    ensures
        texts(final(out)@) == texts(old(out)@).push(field(label@, value@)),
{
    add_line(out, field_line(label, value));
}

/// Two texts with a third between them.
fn joined(a: &str, between: &str, b: &str) -> (r: String)
    ensures
        r@ == a@ + between@ + b@,
{
    let mut s = a.to_owned();
    s.append(between);
    s.append(b);
    s
}

/// A text with another behind it.
fn followed(a: &str, b: &str) -> (r: String)
    ensures
        r@ == a@ + b@,
{
    let mut s = a.to_owned();
    s.append(b);
    s
}

pub open spec fn yes_or_no(value: bool) -> Seq<char> {
    if value {
        "yes"@
    } else {
        "no"@
    }
}

/// How a truth value is shown.
pub fn bool_label(value: bool) -> (r: &'static str)
    ensures
        r@ == yes_or_no(value),
{
    if value {
        "yes"
    } else {
        "no"
    }
}

pub open spec fn type_label(value: u8) -> Seq<char> {
    if value == 1 {
        "mvt"@
    } else if value == 2 {
        "png"@
    } else if value == 3 {
        "jpeg"@
    } else if value == 4 {
        "webp"@
    } else if value == 5 {
        "avif"@
    } else if value == 6 {
        "mlt"@
    } else {
        "unknown"@
    }
}

/// Name of the tile format with the given number.
pub fn tile_type_name(value: u8) -> (r: &'static str)
    ensures
        r@ == type_label(value),
{
    match value {
        1 => "mvt",
        2 => "png",
        3 => "jpeg",
        4 => "webp",
        5 => "avif",
        6 => "mlt",
        _ => "unknown",
    }
}

pub open spec fn compression_label(value: u8) -> Seq<char> {
    if value == 1 {
        "none"@
    } else if value == 2 {
        "gzip"@
    } else if value == 3 {
        "brotli"@
    } else if value == 4 {
        "zstd"@
    } else {
        "unknown"@
    }
}

/// Name of the compression with the given number.
pub fn compression_name(value: u8) -> (r: &'static str)
    ensures
        r@ == compression_label(value),
{
    match value {
        1 => "none",
        2 => "gzip",
        3 => "brotli",
        4 => "zstd",
        _ => "unknown",
    }
}

/// A number of tiles.
pub open spec fn tiles_shown(count: nat) -> Seq<char> {
    grouped(count) + " "@ + (if count == 1 {
        "tile"@
    } else {
        "tiles"@
    })
}

/// A number of tiles.
pub fn format_tile_count(count: usize) -> (r: String)
    ensures
        r@ == tiles_shown(count as nat),
{
    let number = format_count(count as u64);
    joined(
        number.as_str(),
        " ",
        if count == 1 {
            "tile"
        } else {
            "tiles"
        },
    )
}

/// A range of zoom levels.
pub open spec fn zooms_shown(min_zoom: nat, max_zoom: nat) -> Seq<char> {
    decimal(min_zoom) + ".."@ + decimal(max_zoom)
}

/// A range of zoom levels.
pub fn format_zooms(min_zoom: u8, max_zoom: u8) -> (r: String)
    ensures
        r@ == zooms_shown(min_zoom as nat, max_zoom as nat),
{
    let a = decimal_text(min_zoom as u64);
    let b = decimal_text(max_zoom as u64);
    joined(a.as_str(), "..", b.as_str())
}

/// Four numbers, of which the texts are given.
pub open spec fn bounds_shown(
    west: Seq<char>,
    south: Seq<char>,
    east: Seq<char>,
    north: Seq<char>,
) -> Seq<char> {
    west + ", "@ + south + ", "@ + east + ", "@ + north
}

/// Four numbers, of which the texts are given.
pub fn format_bounds(west: &str, south: &str, east: &str, north: &str) -> (r: String)
    ensures
        r@ == bounds_shown(west@, south@, east@, north@),
{
    let mut s = joined(west, ", ", south);
    s.append(", ");
    s.append(east);
    s.append(", ");
    s.append(north);
    s
}

/// A label and a value on a line of the inspection report.
pub open spec fn entry(label: Seq<char>, value: Seq<char>) -> Seq<char> {
    label + ": "@ + value
}

fn add_entry(out: &mut Vec<String>, label: &str, value: &str)
    ensures
        texts(final(out)@) == texts(old(out)@).push(entry(label@, value@)),
{
    add_line(out, joined(label, ": ", value));
}

/// Length and place of a section of an archive.
pub open spec fn section(label: Seq<char>, length: u64, offset: u64) -> Seq<char> {
    entry(label, bytes_shown(length as nat) + " @ "@ + bytes_shown(offset as nat))
}

fn add_section(out: &mut Vec<String>, label: &str, length: u64, offset: u64)
    ensures
        texts(final(out)@) == texts(old(out)@).push(section(label@, length, offset)),
{
    let a = format_bytes(length);
    let b = format_bytes(offset);
    let value = joined(a.as_str(), " @ ", b.as_str());
    add_entry(out, label, value.as_str());
}

/// The bounds of an archive.
pub open spec fn area_shown(h: Header) -> Seq<char> {
    "["@ + bounds_shown(
        degrees_shown(h.min_lon_e7 as int),
        degrees_shown(h.min_lat_e7 as int),
        degrees_shown(h.max_lon_e7 as int),
        degrees_shown(h.max_lat_e7 as int),
    ) + "]"@
}

/// The centre of an archive.
pub open spec fn center_shown(h: Header) -> Seq<char> {
    degrees_shown(h.center_lon_e7 as int) + ", "@ + degrees_shown(h.center_lat_e7 as int)
        + ", z"@ + decimal(h.center_zoom as nat)
}

/// The part of the inspection report about the tiles.
pub open spec fn tiles_part(path: Seq<char>, version: u8, h: Header) -> Seq<Seq<char>> {
    seq![
        entry("file"@, path),
        entry("version"@, decimal(version as nat)),
        entry("tile type"@, type_label(h.tile_type)),
        entry("zoom"@, zooms_shown(h.min_zoom as nat, h.max_zoom as nat)),
        entry("bounds"@, area_shown(h)),
        entry("addressed tiles"@, decimal(h.addressed_tiles_count as nat)),
        entry("tile entries"@, decimal(h.tile_entries_count as nat)),
        entry("tile contents"@, decimal(h.tile_contents_count as nat)),
    ]
}

/// The part of the inspection report about the sections.
pub open spec fn sections_part(h: Header) -> Seq<Seq<char>> {
    seq![
        section("tile data"@, h.tile_data_length, h.tile_data_offset),
        section("root"@, h.root_length, h.root_offset),
        section("metadata"@, h.metadata_length, h.metadata_offset),
        section("leaves"@, h.leaf_directory_length, h.leaf_directory_offset),
    ]
}

/// The part of the inspection report about how the archive was made.
pub open spec fn making_part(h: Header) -> Seq<Seq<char>> {
    seq![
        entry("clustered"@, yes_or_no(h.clustered)),
        entry("tile compression"@, compression_label(h.tile_compression)),
        entry("internal compression"@, compression_label(h.internal_compression)),
        entry("center"@, center_shown(h)),
    ]
}

fn format_area(h: &Header) -> (r: String)
    ensures
        r@ == area_shown(*h),
{
    let west = format_degrees(h.min_lon_e7);
    let south = format_degrees(h.min_lat_e7);
    let east = format_degrees(h.max_lon_e7);
    let north = format_degrees(h.max_lat_e7);
    let bounds = format_bounds(west.as_str(), south.as_str(), east.as_str(), north.as_str());
    joined("[", bounds.as_str(), "]")
}

fn format_center(h: &Header) -> (r: String)
    ensures
        r@ == center_shown(*h),
{
    let lon = format_degrees(h.center_lon_e7);
    let lat = format_degrees(h.center_lat_e7);
    let mut center = joined(lon.as_str(), ", ", lat.as_str());
    center.append(", z");
    center.append(decimal_text(h.center_zoom as u64).as_str());
    center
}

fn add_tiles_part(out: &mut Vec<String>, path: &str, version: u8, h: &Header)
    ensures
        texts(final(out)@) == texts(old(out)@) + tiles_part(path@, version, *h),
{
    let ghost start = texts(out@);
    add_entry(out, "file", path);
    add_entry(out, "version", decimal_text(version as u64).as_str());
    add_entry(out, "tile type", tile_type_name(h.tile_type));
    add_entry(out, "zoom", format_zooms(h.min_zoom, h.max_zoom).as_str());
    add_entry(out, "bounds", format_area(h).as_str());
    add_entry(out, "addressed tiles", decimal_text(h.addressed_tiles_count).as_str());
    add_entry(out, "tile entries", decimal_text(h.tile_entries_count).as_str());
    add_entry(out, "tile contents", decimal_text(h.tile_contents_count).as_str());
    assert(texts(out@) =~= start + tiles_part(path@, version, *h));
}

fn add_sections_part(out: &mut Vec<String>, h: &Header)
    ensures
        texts(final(out)@) == texts(old(out)@) + sections_part(*h),
{
    let ghost start = texts(out@);
    add_section(out, "tile data", h.tile_data_length, h.tile_data_offset);
    add_section(out, "root", h.root_length, h.root_offset);
    add_section(out, "metadata", h.metadata_length, h.metadata_offset);
    add_section(out, "leaves", h.leaf_directory_length, h.leaf_directory_offset);
    assert(texts(out@) =~= start + sections_part(*h));
}

fn add_making_part(out: &mut Vec<String>, h: &Header)
    ensures
        texts(final(out)@) == texts(old(out)@) + making_part(*h),
{
    let ghost start = texts(out@);
    add_entry(out, "clustered", bool_label(h.clustered));
    add_entry(out, "tile compression", compression_name(h.tile_compression));
    add_entry(out, "internal compression", compression_name(h.internal_compression));
    add_entry(out, "center", format_center(h).as_str());
    assert(texts(out@) =~= start + making_part(*h));
}

/// The inspection report, up to the metadata.
pub open spec fn inspection(path: Seq<char>, version: u8, h: Header) -> Seq<Seq<char>> {
    tiles_part(path, version, h) + sections_part(h) + making_part(h)
}

/// The inspection report of an archive, up to the metadata.
pub fn inspect_lines(path: &str, header: &ParsedHeader) -> (r: Vec<String>)
    ensures
        texts(r@) == inspection(path@, header.version, header.fields),
{
    let mut out: Vec<String> = Vec::new();
    assert(texts(out@) =~= Seq::empty());
    add_tiles_part(&mut out, path, header.version, &header.fields);
    add_sections_part(&mut out, &header.fields);
    add_making_part(&mut out, &header.fields);
    assert(texts(out@) =~= inspection(path@, header.version, header.fields));
    out
}

/// The part of the inspection report about the metadata: their text where they are not
/// compressed, and their length where they are.
pub open spec fn metadata_part(h: Header, text: Seq<char>) -> Seq<Seq<char>> {
    seq![
        if h.internal_compression == 1 {
            entry("json"@, text)
        } else {
            entry(
                "payload"@,
                bytes_shown(h.metadata_length as nat) + " ("@ + compression_label(
                    h.internal_compression,
                ) + ")"@,
            )
        },
    ]
}

/// The part of the inspection report about the metadata, of which the text is given.
pub fn metadata_lines(header: &ParsedHeader, text: &str) -> (r: Vec<String>)
    ensures
        texts(r@) == metadata_part(header.fields, text@),
{
    let h = &header.fields;
    let mut out: Vec<String> = Vec::new();
    assert(texts(out@) =~= Seq::empty());
    if h.internal_compression == 1 {
        add_entry(&mut out, "json", text);
    } else {
        let bytes = format_bytes(h.metadata_length);
        let mut value = joined(bytes.as_str(), " (", compression_name(h.internal_compression));
        value.append(")");
        add_entry(&mut out, "payload", value.as_str());
    }
    assert(texts(out@) =~= metadata_part(header.fields, text@));
    out
}

/// What is shown after tiles were packed.
pub open spec fn pack_summary(
    output: Seq<char>,
    tile_count: nat,
    min_zoom: nat,
    max_zoom: nat,
    format: Seq<char>,
    bounds: Seq<char>,
    size: nat,
) -> Seq<Seq<char>> {
    seq![
        "Created "@ + output,
        field("Tiles"@, grouped(tile_count)),
        field("Zooms"@, zooms_shown(min_zoom, max_zoom)),
        field("Format"@, format),
        field("Bounds"@, bounds),
        field("Size"@, bytes_shown(size)),
    ]
}

/// What is shown after tiles were packed.
pub fn pack_summary_lines(
    output: &str,
    tile_count: usize,
    min_zoom: u8,
    max_zoom: u8,
    tile_type: TileType,
    bounds: &str,
    size: u64,
) -> (r: Vec<String>)
    ensures
        texts(r@) == pack_summary(
            output@,
            tile_count as nat,
            min_zoom as nat,
            max_zoom as nat,
            tile_type.name(),
            bounds@,
            size as nat,
        ),
{
    let mut out: Vec<String> = Vec::new();
    assert(texts(out@) =~= Seq::empty());
    add_line(&mut out, followed("Created ", output));
    add_field(&mut out, "Tiles", format_count(tile_count as u64).as_str());
    add_field(&mut out, "Zooms", format_zooms(min_zoom, max_zoom).as_str());
    add_field(&mut out, "Format", tile_type.as_str());
    add_field(&mut out, "Bounds", bounds);
    add_field(&mut out, "Size", format_bytes(size).as_str());
    assert(texts(out@) =~= pack_summary(
        output@,
        tile_count as nat,
        min_zoom as nat,
        max_zoom as nat,
        tile_type.name(),
        bounds@,
        size as nat,
    ));
    out
}

/// What is shown after tiles were rendered. The elapsed time and the throughput are given as
/// texts.
pub open spec fn render_summary(
    opts: RasterOptions,
    tile_count: nat,
    size: nat,
    elapsed: Seq<char>,
    throughput: Seq<char>,
) -> Seq<Seq<char>> {
    seq![
        "Created "@ + opts.output@,
        field("Tiles"@, grouped(tile_count)),
        field("Zooms"@, zooms_shown(opts.min_zoom as nat, opts.max_zoom as nat)),
        field("Format"@, opts.format.name()),
        field("Tile size"@, decimal(opts.tile_size as nat) + " px"@),
        field("Size"@, bytes_shown(size)),
        field("Elapsed"@, elapsed + "s"@),
        field("Throughput"@, throughput + " tiles/s"@),
    ]
}

/// What is shown after tiles were rendered.
pub fn render_summary_lines(
    opts: &RasterOptions,
    tile_count: usize,
    size: u64,
    elapsed: &str,
    throughput: &str,
) -> (r: Vec<String>)
    ensures
        texts(r@) == render_summary(*opts, tile_count as nat, size as nat, elapsed@, throughput@),
{
    let mut out: Vec<String> = Vec::new();
    assert(texts(out@) =~= Seq::empty());
    add_line(&mut out, followed("Created ", opts.output.as_str()));
    add_field(&mut out, "Tiles", format_count(tile_count as u64).as_str());
    add_field(&mut out, "Zooms", format_zooms(opts.min_zoom, opts.max_zoom).as_str());
    add_field(&mut out, "Format", opts.format.as_str());
    let side = decimal_text(opts.tile_size as u64);
    add_field(&mut out, "Tile size", followed(side.as_str(), " px").as_str());
    add_field(&mut out, "Size", format_bytes(size).as_str());
    add_field(&mut out, "Elapsed", followed(elapsed, "s").as_str());
    add_field(&mut out, "Throughput", followed(throughput, " tiles/s").as_str());
    assert(texts(out@) =~= render_summary(
        *opts,
        tile_count as nat,
        size as nat,
        elapsed@,
        throughput@,
    ));
    out
}

/// How the WebP options are shown, where the quality is given as a text.
pub open spec fn webp_shown(quality: Seq<char>, method: i32) -> Seq<char> {
    "quality "@ + quality + ", method "@ + decimal(method as nat)
}

fn webp_text(quality: &str, method: i32) -> (r: String)
    requires
        method >= 0,
    ensures
        r@ == webp_shown(quality@, method),
{
    let mut s = followed("quality ", quality);
    s.append(", method ");
    s.append(decimal_text(method as u64).as_str());
    s
}

/// The texts of numbers that a plan shows: the quality, the bounds, and the bounds of the first
/// tile.
#[derive(Debug)]
pub struct PlanTexts {
    pub quality: String,
    pub bounds: String,
    pub first_tile: String,
}

/// The part of a plan about the options.
pub open spec fn options_part(opts: RasterOptions, plan: PlanTexts) -> Seq<Seq<char>> {
    seq![
        "Render Plan"@,
        field("Input"@, opts.input@),
        field("Output"@, opts.output@),
        field("Format"@, opts.format.name()),
        field("Tile size"@, decimal(opts.tile_size as nat) + " px"@),
        field("Workers"@, decimal(opts.workers as nat)),
        field("Warp memory"@, bytes_shown(opts.warp_memory_bytes as nat)),
        field("Warp threads"@, opts.warp_threads.name()),
        field("Resampling"@, opts.resampling.name()),
        field("Strategy"@, opts.strategy.name()),
    ] + (if opts.format == RasterFormat::Webp {
        seq![field("WebP"@, webp_shown(plan.quality@, opts.webp_method))]
    } else {
        Seq::empty()
    })
}

/// The part of a plan about options of the warp.
pub open spec fn warp_part(opts: RasterOptions) -> Seq<Seq<char>> {
    if opts.warp_options@.len() == 0 {
        Seq::empty()
    } else {
        seq![""@, "Warp Options"@] + pairs(opts.warp_options@).map_values(
            |p: (Seq<char>, Seq<char>)| field(p.0, p.1),
        )
    }
}

/// The part of a plan about what is covered.
pub open spec fn coverage_part(opts: RasterOptions, job_count: nat, plan: PlanTexts) -> Seq<
    Seq<char>,
> {
    seq![""@, "Coverage"@, field("Chunk tiles"@, opts.chunk_tiles.name())] + (
    match opts.gdal_tuning.cache_bytes {
        Some(bytes) => seq![field("GDAL cache"@, bytes_shown(bytes as nat))],
        None => Seq::empty(),
    }) + (if opts.gdal_tuning.open_options@.len() > 0 {
        seq![field("GDAL open options"@, grouped(opts.gdal_tuning.open_options@.len()))]
    } else {
        Seq::empty()
    }) + (if opts.gdal_tuning.config_options@.len() > 0 {
        seq![field("GDAL config"@, grouped(opts.gdal_tuning.config_options@.len()))]
    } else {
        Seq::empty()
    }) + seq![
        field("Zooms"@, zooms_shown(opts.min_zoom as nat, opts.max_zoom as nat)),
        field("Bounds"@, plan.bounds@),
        field("Tiles"@, grouped(job_count)),
    ] + (if job_count > 0 {
        seq![field("First tile"@, plan.first_tile@)]
    } else {
        Seq::empty()
    })
}

/// Number of jobs at a zoom level.
pub open spec fn count_at(jobs: Seq<TileJob>, z: int) -> nat
    decreases jobs.len(),
{
    if jobs.len() == 0 {
        0
    } else {
        count_at(jobs.drop_last(), z) + (if jobs.last().z == z {
            1nat
        } else {
            0nat
        })
    }
}

/// How a zoom level is shown.
pub open spec fn zoom_label(z: nat) -> Seq<char> {
    "z"@ + decimal(z)
}

/// The lines for the first `n` zoom levels from `min_zoom` on.
pub open spec fn zoom_counts(jobs: Seq<TileJob>, min_zoom: nat, n: nat) -> Seq<Seq<char>> {
    Seq::new(
        n,
        |k: int| field(zoom_label((min_zoom + k) as nat), grouped(count_at(jobs, min_zoom + k))),
    )
}

/// The part of a plan about the number of tiles of each zoom level.
pub open spec fn zooms_part(opts: RasterOptions, jobs: Seq<TileJob>) -> Seq<Seq<char>> {
    seq![""@, "Tiles by Zoom"@] + zoom_counts(
        jobs,
        opts.min_zoom as nat,
        if opts.min_zoom <= opts.max_zoom {
            (opts.max_zoom - opts.min_zoom + 1) as nat
        } else {
            0
        },
    )
}

/// The part of a plan about the size of blocks at each zoom level.
pub open spec fn chunks_part(opts: RasterOptions, jobs: Seq<TileJob>) -> Seq<Seq<char>> {
    if opts.chunk_tiles == ChunkTiles::Auto {
        seq![""@, "Auto Chunk Tiles"@] + runs(jobs, zoom_key()).map_values(
            |part: Seq<TileJob>|
                field(zoom_label(part[0].z as nat), decimal(auto_size(opts, part))),
        )
    } else {
        Seq::empty()
    }
}

/// The plan of a rendering task.
pub open spec fn plan_report(opts: RasterOptions, jobs: Seq<TileJob>, plan: PlanTexts) -> Seq<
    Seq<char>,
> {
    options_part(opts, plan) + warp_part(opts) + coverage_part(opts, jobs.len(), plan)
        + zooms_part(opts, jobs) + chunks_part(opts, jobs)
}

fn add_options_part(out: &mut Vec<String>, opts: &RasterOptions, plan: &PlanTexts)
    requires
        opts.webp_method >= 0,
    ensures
        texts(final(out)@) == texts(old(out)@) + options_part(*opts, *plan),
{
    let ghost start = texts(out@);
    add_text(out, "Render Plan");
    add_field(out, "Input", opts.input.as_str());
    add_field(out, "Output", opts.output.as_str());
    add_field(out, "Format", opts.format.as_str());
    let side = decimal_text(opts.tile_size as u64);
    add_field(out, "Tile size", followed(side.as_str(), " px").as_str());
    add_field(out, "Workers", decimal_text(opts.workers as u64).as_str());
    add_field(out, "Warp memory", format_bytes(opts.warp_memory_bytes).as_str());
    add_field(out, "Warp threads", opts.warp_threads.label().as_str());
    add_field(out, "Resampling", opts.resampling.label());
    add_field(out, "Strategy", opts.strategy.label());
    let is_webp = match opts.format {
        RasterFormat::Webp => true,
        _ => false,
    };
    if is_webp {
        add_field(out, "WebP", webp_text(plan.quality.as_str(), opts.webp_method).as_str());
    }
    assert(texts(out@) =~= start + options_part(*opts, *plan));
}

fn add_warp_part(out: &mut Vec<String>, opts: &RasterOptions)
    ensures
        texts(final(out)@) == texts(old(out)@) + warp_part(*opts),
{
    let ghost start = texts(out@);
    if opts.warp_options.len() == 0 {
        assert(start + warp_part(*opts) =~= start);
        return;
    }
    add_text(out, "");
    add_text(out, "Warp Options");
    let ghost lines = pairs(opts.warp_options@).map_values(
        |p: (Seq<char>, Seq<char>)| field(p.0, p.1),
    );
    let mut i: usize = 0;
    assert(texts(out@) =~= start + seq![""@, "Warp Options"@] + lines.take(0));
    while i < opts.warp_options.len()
        invariant
            i <= opts.warp_options@.len(),
            lines == pairs(opts.warp_options@).map_values(
                |p: (Seq<char>, Seq<char>)| field(p.0, p.1),
            ),
            texts(out@) == start + seq![""@, "Warp Options"@] + lines.take(i as int),
        decreases opts.warp_options@.len() - i,
    {
        let name = opts.warp_options[i].0.as_str();
        let value = opts.warp_options[i].1.as_str();
        assert(lines[i as int] == field(name@, value@));
        add_field(out, name, value);
        i = i + 1;
        assert(texts(out@) =~= start + seq![""@, "Warp Options"@] + lines.take(i as int));
    }
    assert(lines.take(lines.len() as int) =~= lines);
    assert(texts(out@) =~= start + warp_part(*opts));
}

fn add_coverage_part(
    out: &mut Vec<String>,
    opts: &RasterOptions,
    job_count: usize,
    plan: &PlanTexts,
)
    ensures
        texts(final(out)@) == texts(old(out)@) + coverage_part(*opts, job_count as nat, *plan),
{
    let ghost start = texts(out@);
    add_text(out, "");
    add_text(out, "Coverage");
    add_field(out, "Chunk tiles", opts.chunk_tiles.label().as_str());
    if let Some(bytes) = opts.gdal_tuning.cache_bytes {
        add_field(out, "GDAL cache", format_bytes(bytes).as_str());
    }
    if opts.gdal_tuning.open_options.len() > 0 {
        let count = format_count(opts.gdal_tuning.open_options.len() as u64);
        add_field(out, "GDAL open options", count.as_str());
    }
    if opts.gdal_tuning.config_options.len() > 0 {
        let count = format_count(opts.gdal_tuning.config_options.len() as u64);
        add_field(out, "GDAL config", count.as_str());
    }
    add_field(out, "Zooms", format_zooms(opts.min_zoom, opts.max_zoom).as_str());
    add_field(out, "Bounds", plan.bounds.as_str());
    add_field(out, "Tiles", format_count(job_count as u64).as_str());
    if job_count > 0 {
        add_field(out, "First tile", plan.first_tile.as_str());
    }
    assert(texts(out@) =~= start + coverage_part(*opts, job_count as nat, *plan));
}

fn count_jobs(jobs: &[TileJob], z: u8) -> (r: usize)
    ensures
        r == count_at(jobs@, z as int),
{
    let total: usize = jobs.len();
    let mut count: usize = 0;
    let mut i: usize = 0;
    assert(jobs@.take(0) =~= Seq::empty());
    while i < total
        invariant
            i <= total == jobs@.len(),
            count <= i,
            count == count_at(jobs@.take(i as int), z as int),
        decreases total - i,
    {
        assert(jobs@.take(i + 1).drop_last() =~= jobs@.take(i as int));
        if jobs[i].z == z {
            count = count + 1;
        }
        i = i + 1;
    }
    assert(jobs@.take(total as int) =~= jobs@);
    count
}

fn zoom_text(z: u8) -> (r: String)
    ensures
        r@ == zoom_label(z as nat),
{
    followed("z", decimal_text(z as u64).as_str())
}

fn add_zooms_part(out: &mut Vec<String>, opts: &RasterOptions, jobs: &[TileJob])
    ensures
        texts(final(out)@) == texts(old(out)@) + zooms_part(*opts, jobs@),
{
    let ghost start = texts(out@);
    add_text(out, "");
    add_text(out, "Tiles by Zoom");
    let count: u16 = if opts.min_zoom <= opts.max_zoom {
        (opts.max_zoom - opts.min_zoom) as u16 + 1
    } else {
        0
    };
    let mut k: u16 = 0;
    assert(texts(out@) =~= start + seq![""@, "Tiles by Zoom"@] + zoom_counts(
        jobs@,
        opts.min_zoom as nat,
        0,
    ));
    while k < count
        invariant
            k <= count <= 256,
            opts.min_zoom + count <= 256,
            texts(out@) == start + seq![""@, "Tiles by Zoom"@] + zoom_counts(
                jobs@,
                opts.min_zoom as nat,
                k as nat,
            ),
        decreases count - k,
    {
        let z: u8 = (opts.min_zoom as u16 + k) as u8;
        let number = format_count(count_jobs(jobs, z) as u64);
        add_field(out, zoom_text(z).as_str(), number.as_str());
        k = k + 1;
        assert(texts(out@) =~= start + seq![""@, "Tiles by Zoom"@] + zoom_counts(
            jobs@,
            opts.min_zoom as nat,
            k as nat,
        ));
    }
    assert(texts(out@) =~= start + zooms_part(*opts, jobs@));
}

fn add_chunks_part(out: &mut Vec<String>, opts: &RasterOptions, jobs: &[TileJob])
    requires
        indices_in_reach(jobs@),
    ensures
        texts(final(out)@) == texts(old(out)@) + chunks_part(*opts, jobs@),
{
    let ghost start = texts(out@);
    let is_auto = match opts.chunk_tiles {
        ChunkTiles::Auto => true,
        _ => false,
    };
    if !is_auto {
        assert(start + chunks_part(*opts, jobs@) =~= start);
        return;
    }
    add_text(out, "");
    add_text(out, "Auto Chunk Tiles");
    let ghost head = seq![""@, "Auto Chunk Tiles"@];
    let ghost parts = runs(jobs@, zoom_key());
    let ghost lines = parts.map_values(
        |part: Seq<TileJob>| field(zoom_label(part[0].z as nat), decimal(auto_size(*opts, part))),
    );
    proof {
        law_runs(jobs@, zoom_key());
    }
    let groups = jobs_by_zoom(jobs);
    let mut i: usize = 0;
    assert(texts(out@) =~= start + head + lines.take(0));
    while i < groups.len()
        invariant
            i <= groups@.len(),
            indices_in_reach(jobs@),
            slices(groups@) == parts,
            parts.flatten() == jobs@,
            forall|k: int| 0 <= k < parts.len() ==> (#[trigger] parts[k]).len() > 0,
            lines == parts.map_values(
                |part: Seq<TileJob>|
                    field(zoom_label(part[0].z as nat), decimal(auto_size(*opts, part))),
            ),
            texts(out@) == start + head + lines.take(i as int),
        decreases groups@.len() - i,
    {
        let group = groups[i];
        assert(slices(groups@)[i as int] == group@);
        assert(parts[i as int].len() > 0);
        assert forall|k: int| 0 <= k < group@.len() implies (#[trigger] group@[k]).x < 0x8000_0000
            && group@[k].y < 0x8000_0000 by {
            lemma_member_of_parts(parts, i as int, k);
            let j = choose|j: int| 0 <= j < jobs@.len() && jobs@[j] == parts[i as int][k];
            assert(jobs@[j].x < 0x8000_0000);
        }
        let size: u32 = auto_chunk_tiles(opts, group);
        let label = zoom_text(group[0].z);
        let value = decimal_text(size as u64);
        assert(lines[i as int] == field(label@, value@));
        add_field(out, label.as_str(), value.as_str());
        i = i + 1;
        assert(texts(out@) =~= start + head + lines.take(i as int));
    }
    assert(lines.take(lines.len() as int) =~= lines);
    assert(texts(out@) =~= start + chunks_part(*opts, jobs@));
}

/// The plan of a rendering task.
pub fn plan_lines(opts: &RasterOptions, jobs: &[TileJob], plan: &PlanTexts) -> (r: Vec<String>)
    requires
        opts.webp_method >= 0,
        indices_in_reach(jobs@),
    ensures
        texts(r@) == plan_report(*opts, jobs@, *plan),
{
    let mut out: Vec<String> = Vec::new();
    assert(texts(out@) =~= Seq::empty());
    add_options_part(&mut out, opts, plan);
    add_warp_part(&mut out, opts);
    add_coverage_part(&mut out, opts, jobs.len(), plan);
    add_zooms_part(&mut out, opts, jobs);
    add_chunks_part(&mut out, opts, jobs);
    assert(texts(out@) =~= plan_report(*opts, jobs@, *plan));
    out
}

/// What is shown before tiles are rendered.
pub open spec fn render_intro(
    opts: RasterOptions,
    job_count: nat,
    strategy: RenderStrategy,
    plan: PlanTexts,
) -> Seq<Seq<char>> {
    seq![
        "Rendering"@,
        status("Input"@, opts.input@),
        status("Output"@, opts.output@),
        status("Zooms"@, zooms_shown(opts.min_zoom as nat, opts.max_zoom as nat)),
        status("Tiles"@, tiles_shown(job_count)),
        status("Format"@, opts.format.name() + ", "@ + decimal(opts.tile_size as nat) + " px"@),
    ] + (if opts.format == RasterFormat::Webp {
        seq![status("WebP"@, webp_shown(plan.quality@, opts.webp_method))]
    } else {
        Seq::empty()
    }) + seq![status("Strategy"@, strategy.name()), status("Bounds"@, plan.bounds@), ""@]
}

/// What is shown before tiles are rendered.
pub fn render_intro_lines(
    opts: &RasterOptions,
    job_count: usize,
    strategy: RenderStrategy,
    plan: &PlanTexts,
) -> (r: Vec<String>)
    requires
        opts.webp_method >= 0,
    ensures
        texts(r@) == render_intro(*opts, job_count as nat, strategy, *plan),
{
    let mut out: Vec<String> = Vec::new();
    assert(texts(out@) =~= Seq::empty());
    add_text(&mut out, "Rendering");
    add_line(&mut out, status_line("Input", opts.input.as_str()));
    add_line(&mut out, status_line("Output", opts.output.as_str()));
    add_line(&mut out, status_line("Zooms", format_zooms(opts.min_zoom, opts.max_zoom).as_str()));
    add_line(&mut out, status_line("Tiles", format_tile_count(job_count).as_str()));
    let side = decimal_text(opts.tile_size as u64);
    let mut format = joined(opts.format.as_str(), ", ", side.as_str());
    format.append(" px");
    add_line(&mut out, status_line("Format", format.as_str()));
    let is_webp = match opts.format {
        RasterFormat::Webp => true,
        _ => false,
    };
    if is_webp {
        let webp = webp_text(plan.quality.as_str(), opts.webp_method);
        add_line(&mut out, status_line("WebP", webp.as_str()));
    }
    add_line(&mut out, status_line("Strategy", strategy.label()));
    add_line(&mut out, status_line("Bounds", plan.bounds.as_str()));
    add_text(&mut out, "");
    assert(texts(out@) =~= render_intro(*opts, job_count as nat, strategy, *plan));
    out
}

/// What is shown when a zoom level is begun in blocks.
pub open spec fn chunks_begun(
    z: nat,
    job_count: nat,
    chunk_count: nat,
    chunk_tiles: nat,
    workers: nat,
    strategy: RenderStrategy,
    working_set: nat,
) -> Seq<char> {
    status(
        "Zoom "@ + zoom_label(z),
        "rendering "@ + tiles_shown(job_count) + " in "@ + grouped(chunk_count)
            + " chunks of up to "@ + decimal(chunk_tiles) + "x"@ + decimal(chunk_tiles)
            + " tiles ("@ + decimal(workers) + " workers, "@ + strategy.name() + ", "@
            + bytes_shown(working_set) + ")"@,
    )
}

/// What is shown when a zoom level is begun in blocks.
pub fn chunks_begun_line(
    z: u8,
    job_count: usize,
    chunk_count: usize,
    chunk_tiles: u32,
    workers: usize,
    strategy: RenderStrategy,
    working_set: u64,
) -> (r: String)
    ensures
        r@ == chunks_begun(
            z as nat,
            job_count as nat,
            chunk_count as nat,
            chunk_tiles as nat,
            workers as nat,
            strategy,
            working_set as nat,
        ),
{
    let mut s = followed("rendering ", format_tile_count(job_count).as_str());
    s.append(" in ");
    s.append(format_count(chunk_count as u64).as_str());
    s.append(" chunks of up to ");
    s.append(decimal_text(chunk_tiles as u64).as_str());
    s.append("x");
    s.append(decimal_text(chunk_tiles as u64).as_str());
    s.append(" tiles (");
    s.append(decimal_text(workers as u64).as_str());
    s.append(" workers, ");
    s.append(strategy.label());
    s.append(", ");
    s.append(format_bytes(working_set).as_str());
    s.append(")");
    let label = followed("Zoom ", zoom_text(z).as_str());
    status_line(label.as_str(), s.as_str())
}

/// What is shown when a zoom level is begun in one piece.
pub fn zoom_begun_line(z: u8, job_count: usize) -> (r: String)
    ensures
        r@ == status(
            "Zoom "@ + zoom_label(z as nat),
            "rendering "@ + tiles_shown(job_count as nat),
        ),
{
    let label = followed("Zoom ", zoom_text(z).as_str());
    let value = followed("rendering ", format_tile_count(job_count).as_str());
    status_line(label.as_str(), value.as_str())
}

/// What is shown when a block is done; the seconds are given as a text.
pub open spec fn chunk_done(
    z: nat,
    completed: nat,
    chunk_count: nat,
    seconds: Seq<char>,
    tile_count: nat,
) -> Seq<char> {
    status(
        "Zoom "@ + zoom_label(z),
        "chunk "@ + decimal(completed) + "/"@ + decimal(chunk_count) + " done in "@ + seconds
            + "s ("@ + tiles_shown(tile_count) + ")"@,
    )
}

/// What is shown when a block is done; the seconds are given as a text.
pub fn chunk_done_line(
    z: u8,
    completed: usize,
    chunk_count: usize,
    seconds: &str,
    tile_count: usize,
) -> (r: String)
    ensures
        r@ == chunk_done(
            z as nat,
            completed as nat,
            chunk_count as nat,
            seconds@,
            tile_count as nat,
        ),
{
    let mut s = followed("chunk ", decimal_text(completed as u64).as_str());
    s.append("/");
    s.append(decimal_text(chunk_count as u64).as_str());
    s.append(" done in ");
    s.append(seconds);
    s.append("s (");
    s.append(format_tile_count(tile_count).as_str());
    s.append(")");
    let label = followed("Zoom ", zoom_text(z).as_str());
    status_line(label.as_str(), s.as_str())
}

/// What is shown when a zoom level is done; the seconds and the share are given as texts.
pub open spec fn zoom_done(
    z: nat,
    seconds: Seq<char>,
    completed: nat,
    total: nat,
    percent: Seq<char>,
) -> Seq<char> {
    status(
        "Zoom "@ + zoom_label(z),
        "done in "@ + seconds + "s ("@ + grouped(completed) + " of "@ + grouped(total) + ", "@
            + percent + "%)"@,
    )
}

/// What is shown when a zoom level is done; the seconds and the share are given as texts.
pub fn zoom_done_line(z: u8, seconds: &str, completed: usize, total: usize, percent: &str) -> (r:
    String)
    ensures
        r@ == zoom_done(z as nat, seconds@, completed as nat, total as nat, percent@),
{
    let mut s = followed("done in ", seconds);
    s.append("s (");
    s.append(format_count(completed as u64).as_str());
    s.append(" of ");
    s.append(format_count(total as u64).as_str());
    s.append(", ");
    s.append(percent);
    s.append("%)");
    let label = followed("Zoom ", zoom_text(z).as_str());
    status_line(label.as_str(), s.as_str())
}

/// What is shown while tiles are packed; the share and the seconds are given as texts.
pub open spec fn pack_progress(
    completed: nat,
    total: nat,
    percent: Seq<char>,
    seconds: Seq<char>,
) -> Seq<char> {
    "Progress: "@ + grouped(completed) + "/"@ + grouped(total) + " tiles ("@ + percent
        + "%) elapsed "@ + seconds + "s"@
}

/// What is shown while tiles are packed; the share and the seconds are given as texts.
pub fn pack_progress_line(completed: usize, total: usize, percent: &str, seconds: &str) -> (r:
    String)
    ensures
        r@ == pack_progress(completed as nat, total as nat, percent@, seconds@),
{
    let mut s = followed("Progress: ", format_count(completed as u64).as_str());
    s.append("/");
    s.append(format_count(total as u64).as_str());
    s.append(" tiles (");
    s.append(percent);
    s.append("%) elapsed ");
    s.append(seconds);
    s.append("s");
    s
}

/// In a report all values that have labels of up to twenty characters start in one column.
pub proof fn law_values_line_up(label: Seq<char>, value: Seq<char>)
    requires
        label.len() <= 20,
    ensures
        field(label, value).len() == 23 + value.len(),
        field(label, value).skip(23) == value,
{
    reveal_strlit("  ");
    reveal_strlit(" ");
    assert(field(label, value).skip(23) =~= value);
}

/// The inspection report shows each field of the header on its own line, behind its label: the
/// zoom levels as the lowest, two points and the highest; the bounds as west, south, east and
/// north; and of each section its length and then its place.
pub proof fn law_inspection_lines(path: Seq<char>, version: u8, h: Header)
    ensures
        ({
            let lines = inspection(path, version, h);
            &&& lines.len() == 16
            &&& lines[0] == "file: "@ + path
            &&& lines[1] == "version: "@ + decimal(version as nat)
            &&& lines[2] == "tile type: "@ + type_label(h.tile_type)
            &&& lines[3] == "zoom: "@ + decimal(h.min_zoom as nat) + ".."@ + decimal(
                h.max_zoom as nat,
            )
            &&& lines[4] == "bounds: ["@ + degrees_shown(h.min_lon_e7 as int) + ", "@
                + degrees_shown(h.min_lat_e7 as int) + ", "@ + degrees_shown(h.max_lon_e7 as int)
                + ", "@ + degrees_shown(h.max_lat_e7 as int) + "]"@
            &&& lines[5] == "addressed tiles: "@ + decimal(h.addressed_tiles_count as nat)
            &&& lines[6] == "tile entries: "@ + decimal(h.tile_entries_count as nat)
            &&& lines[7] == "tile contents: "@ + decimal(h.tile_contents_count as nat)
            &&& lines[8] == "tile data: "@ + bytes_shown(h.tile_data_length as nat) + " @ "@
                + bytes_shown(h.tile_data_offset as nat)
            &&& lines[9] == "root: "@ + bytes_shown(h.root_length as nat) + " @ "@
                + bytes_shown(h.root_offset as nat)
            &&& lines[10] == "metadata: "@ + bytes_shown(h.metadata_length as nat) + " @ "@
                + bytes_shown(h.metadata_offset as nat)
            &&& lines[11] == "leaves: "@ + bytes_shown(h.leaf_directory_length as nat) + " @ "@
                + bytes_shown(h.leaf_directory_offset as nat)
            &&& lines[12] == "clustered: "@ + (if h.clustered {
                "yes"@
            } else {
                "no"@
            })
            &&& lines[13] == "tile compression: "@ + compression_label(h.tile_compression)
            &&& lines[14] == "internal compression: "@ + compression_label(h.internal_compression)
            &&& lines[15] == "center: "@ + degrees_shown(h.center_lon_e7 as int) + ", "@
                + degrees_shown(h.center_lat_e7 as int) + ", z"@ + decimal(h.center_zoom as nat)
        }),
{
    lemma_labels();
    let (a, b) = (decimal(h.min_zoom as nat), decimal(h.max_zoom as nat));
    lemma_three("zoom"@ + ": "@, a, ".."@, b);
    lemma_three(
        "tile data"@ + ": "@,
        bytes_shown(h.tile_data_length as nat),
        " @ "@,
        bytes_shown(h.tile_data_offset as nat),
    );
    lemma_three(
        "root"@ + ": "@,
        bytes_shown(h.root_length as nat),
        " @ "@,
        bytes_shown(h.root_offset as nat),
    );
    lemma_three(
        "metadata"@ + ": "@,
        bytes_shown(h.metadata_length as nat),
        " @ "@,
        bytes_shown(h.metadata_offset as nat),
    );
    lemma_three(
        "leaves"@ + ": "@,
        bytes_shown(h.leaf_directory_length as nat),
        " @ "@,
        bytes_shown(h.leaf_directory_offset as nat),
    );
    let (lon, lat) = (degrees_shown(h.center_lon_e7 as int), degrees_shown(h.center_lat_e7 as int));
    lemma_three("center"@ + ": "@, lon + ", "@ + lat, ", z"@, decimal(h.center_zoom as nat));
    lemma_three("center"@ + ": "@, lon, ", "@, lat);
    let (w, s, e, n) = (
        degrees_shown(h.min_lon_e7 as int),
        degrees_shown(h.min_lat_e7 as int),
        degrees_shown(h.max_lon_e7 as int),
        degrees_shown(h.max_lat_e7 as int),
    );
    let inner = bounds_shown(w, s, e, n);
    lemma_three("bounds"@ + ": "@, "["@, inner, "]"@);
    lemma_three("bounds: ["@, w + ", "@ + s + ", "@ + e, ", "@, n);
    lemma_three("bounds: ["@, w + ", "@ + s, ", "@, e);
    lemma_three("bounds: ["@, w, ", "@, s);
    let lines = inspection(path, version, h);
    assert(lines.len() == 16);
    assert(lines[15] == making_part(h)[3]);
    assert(lines[12] == making_part(h)[0]);
    assert(lines[13] == making_part(h)[1]);
    assert(lines[14] == making_part(h)[2]);
    assert(lines[8] == sections_part(h)[0]);
    assert(lines[9] == sections_part(h)[1]);
    assert(lines[10] == sections_part(h)[2]);
    assert(lines[11] == sections_part(h)[3]);
}

/// It makes no difference whether texts are put together from the front or from the back.
proof fn lemma_three(front: Seq<char>, a: Seq<char>, b: Seq<char>, c: Seq<char>)
    ensures
        front + (a + b + c) == front + a + b + c,
{
    assert(front + (a + b + c) =~= front + a + b + c);
}

/// The labels of the inspection report with the colon behind them.
proof fn lemma_labels()
    ensures
        "file"@ + ": "@ == "file: "@,
        "version"@ + ": "@ == "version: "@,
        "tile type"@ + ": "@ == "tile type: "@,
        "zoom"@ + ": "@ == "zoom: "@,
        "bounds"@ + ": "@ == "bounds: "@,
        "addressed tiles"@ + ": "@ == "addressed tiles: "@,
        "tile entries"@ + ": "@ == "tile entries: "@,
        "tile contents"@ + ": "@ == "tile contents: "@,
        "tile data"@ + ": "@ == "tile data: "@,
        "root"@ + ": "@ == "root: "@,
        "metadata"@ + ": "@ == "metadata: "@,
        "leaves"@ + ": "@ == "leaves: "@,
        "clustered"@ + ": "@ == "clustered: "@,
        "tile compression"@ + ": "@ == "tile compression: "@,
        "internal compression"@ + ": "@ == "internal compression: "@,
        "center"@ + ": "@ == "center: "@,
        "bounds: "@ + "["@ == "bounds: ["@,
{
    reveal_strlit(": ");
    reveal_strlit("[");
    reveal_strlit("bounds: [");
    reveal_strlit("file");
    reveal_strlit("file: ");
    reveal_strlit("version");
    reveal_strlit("version: ");
    reveal_strlit("tile type");
    reveal_strlit("tile type: ");
    reveal_strlit("zoom");
    reveal_strlit("zoom: ");
    reveal_strlit("bounds");
    reveal_strlit("bounds: ");
    reveal_strlit("addressed tiles");
    reveal_strlit("addressed tiles: ");
    reveal_strlit("tile entries");
    reveal_strlit("tile entries: ");
    reveal_strlit("tile contents");
    reveal_strlit("tile contents: ");
    reveal_strlit("tile data");
    reveal_strlit("tile data: ");
    reveal_strlit("root");
    reveal_strlit("root: ");
    reveal_strlit("metadata");
    reveal_strlit("metadata: ");
    reveal_strlit("leaves");
    reveal_strlit("leaves: ");
    reveal_strlit("clustered");
    reveal_strlit("clustered: ");
    reveal_strlit("tile compression");
    reveal_strlit("tile compression: ");
    reveal_strlit("internal compression");
    reveal_strlit("internal compression: ");
    reveal_strlit("center");
    reveal_strlit("center: ");
    assert("file"@ + ": "@ =~= "file: "@);
    assert("version"@ + ": "@ =~= "version: "@);
    assert("tile type"@ + ": "@ =~= "tile type: "@);
    assert("zoom"@ + ": "@ =~= "zoom: "@);
    assert("bounds"@ + ": "@ =~= "bounds: "@);
    assert("addressed tiles"@ + ": "@ =~= "addressed tiles: "@);
    assert("tile entries"@ + ": "@ =~= "tile entries: "@);
    assert("tile contents"@ + ": "@ =~= "tile contents: "@);
    assert("tile data"@ + ": "@ =~= "tile data: "@);
    assert("root"@ + ": "@ =~= "root: "@);
    assert("metadata"@ + ": "@ =~= "metadata: "@);
    assert("leaves"@ + ": "@ =~= "leaves: "@);
    assert("clustered"@ + ": "@ =~= "clustered: "@);
    assert("tile compression"@ + ": "@ =~= "tile compression: "@);
    assert("internal compression"@ + ": "@ =~= "internal compression: "@);
    assert("center"@ + ": "@ =~= "center: "@);
    assert("bounds: "@ + "["@ =~= "bounds: ["@);
}

/// The metadata are shown as they are where the archive is not compressed inside, and else by
/// their length and the name of the compression.
pub proof fn law_metadata_line(h: Header, text: Seq<char>)
    ensures
        metadata_part(h, text).len() == 1,
        h.internal_compression == 1 ==> metadata_part(h, text)[0] == "json: "@ + text,
        h.internal_compression != 1 ==> metadata_part(h, text)[0] == "payload: "@ + bytes_shown(
            h.metadata_length as nat,
        ) + " ("@ + compression_label(h.internal_compression) + ")"@,
{
    reveal_strlit("json");
    reveal_strlit("json: ");
    reveal_strlit("payload");
    reveal_strlit("payload: ");
    reveal_strlit(": ");
    assert("json"@ + ": "@ =~= "json: "@);
    assert("payload"@ + ": "@ =~= "payload: "@);
    if h.internal_compression != 1 {
        assert(metadata_part(h, text)[0] =~= "payload: "@ + bytes_shown(h.metadata_length as nat)
            + " ("@ + compression_label(h.internal_compression) + ")"@);
    }
}

proof fn lemma_zooms_shown(a: nat, b: nat)
    ensures
        find(zooms_shown(a, b), '.') == decimal(a).len(),
        zooms_shown(a, b).take(decimal(a).len() as int) == decimal(a),
        zooms_shown(a, b).skip(decimal(a).len() as int + 2) == decimal(b),
{
    let s = zooms_shown(a, b);
    reveal_strlit("..");
    law_decimal(a, a);
    assert(s[decimal(a).len() as int] == '.');
    assert forall|k: int| 0 <= k < decimal(a).len() implies s[k] != '.' by {
        assert(s[k] == decimal(a)[k]);
    }
    lemma_find(s, '.', decimal(a).len() as int);
    assert(s.take(decimal(a).len() as int) =~= decimal(a));
    assert(s.skip(decimal(a).len() as int + 2) =~= decimal(b));
}

/// The zoom levels and the counts can be read back from the report: headers that differ in one
/// of them have different reports.
pub proof fn law_reports_tell_headers_apart(path: Seq<char>, version: u8, a: Header, b: Header)
    requires
        inspection(path, version, a) == inspection(path, version, b),
    ensures
        a.min_zoom == b.min_zoom,
        a.max_zoom == b.max_zoom,
        a.addressed_tiles_count == b.addressed_tiles_count,
        a.tile_entries_count == b.tile_entries_count,
        a.tile_contents_count == b.tile_contents_count,
{
    let (s, t) = (inspection(path, version, a), inspection(path, version, b));
    law_inspection_lines(path, version, a);
    law_inspection_lines(path, version, b);
    assert(s[3] == t[3] && s[5] == t[5] && s[6] == t[6] && s[7] == t[7]);
    let (p, q) = (a.min_zoom as nat, a.max_zoom as nat);
    let (u, v) = (b.min_zoom as nat, b.max_zoom as nat);
    lemma_three("zoom: "@, decimal(p), ".."@, decimal(q));
    lemma_three("zoom: "@, decimal(u), ".."@, decimal(v));
    lemma_same_tail("zoom: "@, zooms_shown(p, q), zooms_shown(u, v));
    lemma_zooms_shown(p, q);
    lemma_zooms_shown(u, v);
    law_decimal(p, u);
    law_decimal(q, v);
    lemma_same_number("addressed tiles: "@, a.addressed_tiles_count, b.addressed_tiles_count);
    lemma_same_number("tile entries: "@, a.tile_entries_count, b.tile_entries_count);
    lemma_same_number("tile contents: "@, a.tile_contents_count, b.tile_contents_count);
}

proof fn lemma_same_tail(front: Seq<char>, a: Seq<char>, b: Seq<char>)
    requires
        front + a == front + b,
    ensures
        a == b,
{
    assert((front + a).skip(front.len() as int) =~= a);
    assert((front + b).skip(front.len() as int) =~= b);
}

proof fn lemma_same_number(front: Seq<char>, a: u64, b: u64)
    requires
        front + decimal(a as nat) == front + decimal(b as nat),
    ensures
        a == b,
{
    lemma_same_tail(front, decimal(a as nat), decimal(b as nat));
    law_decimal(a as nat, b as nat);
}

/// The formats of tiles and the compressions have the numbers of the archive format, and the
/// header of a rendered or packed archive is shown with the format of its tiles.
pub proof fn law_codes_have_names(value: u8)
    ensures
        type_label(1) == "mvt"@,
        type_label(2) == "png"@,
        type_label(3) == "jpeg"@,
        type_label(4) == "webp"@,
        type_label(5) == "avif"@,
        type_label(6) == "mlt"@,
        value == 0 || value > 6 ==> type_label(value) == "unknown"@,
        compression_label(1) == "none"@,
        compression_label(2) == "gzip"@,
        compression_label(3) == "brotli"@,
        compression_label(4) == "zstd"@,
        value == 0 || value > 4 ==> compression_label(value) == "unknown"@,
        type_label(RasterFormat::Png.code()) == "png"@,
        type_label(RasterFormat::Jpeg.code()) == "jpeg"@,
        type_label(RasterFormat::Webp.code()) == "webp"@,
        type_label(TileType::Png.number()) == "png"@,
        type_label(TileType::Jpeg.number()) == "jpeg"@,
        type_label(TileType::Webp.number()) == "webp"@,
        type_label(TileType::Avif.number()) == "avif"@,
        RasterFormat::Png.code() == 2,
        RasterFormat::Jpeg.code() == 3,
        RasterFormat::Webp.code() == 4,
        TileType::Png.number() == 2,
        TileType::Jpeg.number() == 3,
        TileType::Webp.number() == 4,
        TileType::Avif.number() == 5,
{
}

/// A line of a report has two spaces, a label, spaces up to the column of the values, and the
/// value, which stands behind a space where the label is longer.
pub proof fn law_line_layout(label: Seq<char>, value: Seq<char>)
    ensures
        field(label, value).take(2) == "  "@,
        field(label, value).subrange(2, 2 + label.len() as int) == label,
        label.len() <= 20 ==> field(label, value).skip(23) == value && forall|i: int|
            2 + label.len() <= i < 23 ==> (#[trigger] field(label, value)[i]) == ' ',
        label.len() > 20 ==> field(label, value) == "  "@ + label + " "@ + value,
        status(label, value).take(2) == "  "@,
        status(label, value).subrange(2, 2 + label.len() as int) == label,
        label.len() <= 18 ==> status(label, value).skip(21) == value && forall|i: int|
            2 + label.len() <= i < 21 ==> (#[trigger] status(label, value)[i]) == ' ',
        label.len() > 18 ==> status(label, value) == "  "@ + label + " "@ + value,
{
    reveal_strlit("  ");
    reveal_strlit(" ");
    assert(field(label, value).take(2) =~= "  "@);
    assert(field(label, value).subrange(2, 2 + label.len() as int) =~= label);
    assert(status(label, value).take(2) =~= "  "@);
    assert(status(label, value).subrange(2, 2 + label.len() as int) =~= label);
    if label.len() <= 20 {
        assert(field(label, value).skip(23) =~= value);
    }
    if label.len() <= 18 {
        assert(status(label, value).skip(21) =~= value);
    }
}

/// One tile is a tile, and any other number of them are tiles.
pub proof fn law_tiles_shown(count: nat)
    ensures
        count == 1 ==> tiles_shown(count) == grouped(count) + " "@ + "tile"@,
        count != 1 ==> tiles_shown(count) == grouped(count) + " "@ + "tiles"@,
{
}

/// What is shown after packing: the archive, the number of tiles, the lowest and the highest zoom
/// level, the format, the bounds and the size.
pub proof fn law_pack_summary(
    output: Seq<char>,
    tile_count: nat,
    min_zoom: nat,
    max_zoom: nat,
    format: Seq<char>,
    bounds: Seq<char>,
    size: nat,
)
    ensures
        ({
            let lines = pack_summary(
                output,
                tile_count,
                min_zoom,
                max_zoom,
                format,
                bounds,
                size,
            );
            &&& lines.len() == 6
            &&& lines[0] == "Created "@ + output
            &&& lines[1] == field("Tiles"@, grouped(tile_count))
            &&& lines[2] == field("Zooms"@, decimal(min_zoom) + ".."@ + decimal(max_zoom))
            &&& lines[3] == field("Format"@, format)
            &&& lines[4] == field("Bounds"@, bounds)
            &&& lines[5] == field("Size"@, bytes_shown(size))
        }),
{
}

/// What is shown after rendering: the archive, the number of tiles, the lowest and the highest
/// zoom level, the format, the size of tiles and of the archive, the time and the throughput.
pub proof fn law_render_summary(
    opts: RasterOptions,
    tile_count: nat,
    size: nat,
    elapsed: Seq<char>,
    throughput: Seq<char>,
)
    ensures
        ({
            let lines = render_summary(opts, tile_count, size, elapsed, throughput);
            &&& lines.len() == 8
            &&& lines[0] == "Created "@ + opts.output@
            &&& lines[1] == field("Tiles"@, grouped(tile_count))
            &&& lines[2] == field(
                "Zooms"@,
                decimal(opts.min_zoom as nat) + ".."@ + decimal(opts.max_zoom as nat),
            )
            &&& lines[3] == field("Format"@, opts.format.name())
            &&& lines[4] == field("Tile size"@, decimal(opts.tile_size as nat) + " px"@)
            &&& lines[5] == field("Size"@, bytes_shown(size))
            &&& lines[6] == field("Elapsed"@, elapsed + "s"@)
            &&& lines[7] == field("Throughput"@, throughput + " tiles/s"@)
        }),
{
}

/// A plan starts with the options, one line each, and with the WebP options where tiles are WebP.
pub proof fn law_plan_options(opts: RasterOptions, jobs: Seq<TileJob>, plan: PlanTexts)
    ensures
        ({
            let lines = plan_report(opts, jobs, plan);
            &&& lines.len() >= 10
            &&& lines[0] == "Render Plan"@
            &&& lines[1] == field("Input"@, opts.input@)
            &&& lines[2] == field("Output"@, opts.output@)
            &&& lines[3] == field("Format"@, opts.format.name())
            &&& lines[4] == field("Tile size"@, decimal(opts.tile_size as nat) + " px"@)
            &&& lines[5] == field("Workers"@, decimal(opts.workers as nat))
            &&& lines[6] == field("Warp memory"@, bytes_shown(opts.warp_memory_bytes as nat))
            &&& lines[7] == field("Warp threads"@, opts.warp_threads.name())
            &&& lines[8] == field("Resampling"@, opts.resampling.name())
            &&& lines[9] == field("Strategy"@, opts.strategy.name())
            &&& opts.format == RasterFormat::Webp ==> lines[10] == field(
                "WebP"@,
                "quality "@ + plan.quality@ + ", method "@ + decimal(opts.webp_method as nat),
            )
        }),
{
    let head = options_part(opts, plan);
    let lines = plan_report(opts, jobs, plan);
    assert(lines.take(head.len() as int) =~= head);
    assert forall|i: int| 0 <= i < head.len() implies lines[i] == #[trigger] head[i] by {
        assert(lines.take(head.len() as int)[i] == lines[i]);
    }
    assert(head[0] == "Render Plan"@);
    assert(head[9] == field("Strategy"@, opts.strategy.name()));
    assert(lines[0] == head[0] && lines[1] == head[1] && lines[2] == head[2] && lines[3] == head[3]
        && lines[4] == head[4] && lines[5] == head[5] && lines[6] == head[6] && lines[7] == head[7]
        && lines[8] == head[8] && lines[9] == head[9]);
    if opts.format == RasterFormat::Webp {
        assert(lines[10] == head[10]);
    }
}

/// Of what is covered a plan shows the size of blocks, the settings of the raster library that
/// were given, the lowest and the highest zoom level, the bounds, the number of tiles and the
/// first tile, where there is one.
pub proof fn law_plan_coverage(opts: RasterOptions, job_count: nat, plan: PlanTexts)
    ensures
        ({
            let lines = coverage_part(opts, job_count, plan);
            let given = (if opts.gdal_tuning.cache_bytes is Some {
                1int
            } else {
                0
            }) + (if opts.gdal_tuning.open_options@.len() > 0 {
                1int
            } else {
                0
            }) + (if opts.gdal_tuning.config_options@.len() > 0 {
                1int
            } else {
                0
            });
            &&& lines.len() == 6 + given + (if job_count > 0 {
                1int
            } else {
                0
            })
            &&& lines[0] == ""@
            &&& lines[1] == "Coverage"@
            &&& lines[2] == field("Chunk tiles"@, opts.chunk_tiles.name())
            &&& opts.gdal_tuning.cache_bytes matches Some(bytes) ==> lines[3] == field(
                "GDAL cache"@,
                bytes_shown(bytes as nat),
            )
            &&& lines[3 + given] == field(
                "Zooms"@,
                decimal(opts.min_zoom as nat) + ".."@ + decimal(opts.max_zoom as nat),
            )
            &&& lines[4 + given] == field("Bounds"@, plan.bounds@)
            &&& lines[5 + given] == field("Tiles"@, grouped(job_count))
            &&& job_count > 0 ==> lines[6 + given] == field("First tile"@, plan.first_tile@)
        }),
{
}

/// The number of jobs at a zoom level grows by one with each job at that level and by none with
/// any other.
pub proof fn law_count_at(jobs: Seq<TileJob>, job: TileJob, z: int)
    ensures
        count_at(Seq::empty(), z) == 0,
        job.z == z ==> count_at(jobs.push(job), z) == count_at(jobs, z) + 1,
        job.z != z ==> count_at(jobs.push(job), z) == count_at(jobs, z),
{
    assert(jobs.push(job).drop_last() =~= jobs);
}

/// A plan shows the number of tiles of each zoom level from the lowest to the highest, and where
/// the size of blocks is left open, the size that is chosen for each zoom level with tiles.
pub proof fn law_plan_zooms(opts: RasterOptions, jobs: Seq<TileJob>, k: int)
    requires
        opts.min_zoom <= opts.max_zoom,
        0 <= k <= opts.max_zoom - opts.min_zoom,
    ensures
        zooms_part(opts, jobs).len() == 3 + (opts.max_zoom - opts.min_zoom),
        zooms_part(opts, jobs)[1] == "Tiles by Zoom"@,
        zooms_part(opts, jobs)[2 + k] == field(
            "z"@ + decimal((opts.min_zoom + k) as nat),
            grouped(count_at(jobs, opts.min_zoom + k)),
        ),
        opts.chunk_tiles != ChunkTiles::Auto ==> chunks_part(opts, jobs).len() == 0,
        opts.chunk_tiles == ChunkTiles::Auto ==> chunks_part(opts, jobs).len() == 2 + runs(
            jobs,
            zoom_key(),
        ).len(),
        opts.chunk_tiles == ChunkTiles::Auto ==> forall|i: int|
            0 <= i < runs(jobs, zoom_key()).len() ==> #[trigger] chunks_part(opts, jobs)[2 + i]
                == field(
                "z"@ + decimal(runs(jobs, zoom_key())[i][0].z as nat),
                decimal(auto_size(opts, runs(jobs, zoom_key())[i])),
            ),
{
}

/// What is shown before rendering.
pub proof fn law_render_intro(
    opts: RasterOptions,
    job_count: nat,
    strategy: RenderStrategy,
    plan: PlanTexts,
)
    ensures
        ({
            let lines = render_intro(opts, job_count, strategy, plan);
            let n = lines.len() as int;
            &&& n == (if opts.format == RasterFormat::Webp {
                10int
            } else {
                9
            })
            &&& lines[0] == "Rendering"@
            &&& lines[1] == status("Input"@, opts.input@)
            &&& lines[2] == status("Output"@, opts.output@)
            &&& lines[3] == status(
                "Zooms"@,
                decimal(opts.min_zoom as nat) + ".."@ + decimal(opts.max_zoom as nat),
            )
            &&& lines[4] == status("Tiles"@, tiles_shown(job_count))
            &&& lines[5] == status(
                "Format"@,
                opts.format.name() + ", "@ + decimal(opts.tile_size as nat) + " px"@,
            )
            &&& opts.format == RasterFormat::Webp ==> lines[6] == status(
                "WebP"@,
                "quality "@ + plan.quality@ + ", method "@ + decimal(opts.webp_method as nat),
            )
            &&& lines[n - 3] == status("Strategy"@, strategy.name())
            &&& lines[n - 2] == status("Bounds"@, plan.bounds@)
            &&& lines[n - 1] == ""@
        }),
{
}

/// What is shown while work is under way: what is done comes before what there is in all.
pub proof fn law_progress_lines(
    z: nat,
    completed: nat,
    total: nat,
    percent: Seq<char>,
    seconds: Seq<char>,
    tile_count: nat,
)
    ensures
        pack_progress(completed, total, percent, seconds) == "Progress: "@ + grouped(completed)
            + "/"@ + grouped(total) + " tiles ("@ + percent + "%) elapsed "@ + seconds + "s"@,
        zoom_done(z, seconds, completed, total, percent) == status(
            "Zoom "@ + ("z"@ + decimal(z)),
            "done in "@ + seconds + "s ("@ + grouped(completed) + " of "@ + grouped(total) + ", "@
                + percent + "%)"@,
        ),
        chunk_done(z, completed, total, seconds, tile_count) == status(
            "Zoom "@ + ("z"@ + decimal(z)),
            "chunk "@ + decimal(completed) + "/"@ + decimal(total) + " done in "@ + seconds + "s ("@
                + tiles_shown(tile_count) + ")"@,
        ),
{
}

/// What is shown when a zoom level is begun in blocks: the tiles, the blocks, the side of a block
/// twice, the workers, the way of rendering and the memory of a block.
pub proof fn law_chunks_begun(
    z: nat,
    job_count: nat,
    chunk_count: nat,
    chunk_tiles: nat,
    workers: nat,
    strategy: RenderStrategy,
    working_set: nat,
)
    ensures
        chunks_begun(
            z,
            job_count,
            chunk_count,
            chunk_tiles,
            workers,
            strategy,
            working_set,
        ) == status(
            "Zoom "@ + ("z"@ + decimal(z)),
            "rendering "@ + tiles_shown(job_count) + " in "@ + grouped(chunk_count)
                + " chunks of up to "@ + decimal(chunk_tiles) + "x"@ + decimal(chunk_tiles)
                + " tiles ("@ + decimal(workers) + " workers, "@ + strategy.name() + ", "@
                + bytes_shown(working_set) + ")"@,
        ),
{
}

} // verus!
