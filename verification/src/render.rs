//! What is decided before and while tiles are rendered.
use vstd::prelude::*;
use vstd::string::StringExecFns;

use crate::args::pairs;
use crate::chunking::{
    chunk_size, chunk_tiles_for_zoom, estimate_chunk_working_set, indices_in_reach,
    useful_workers, worker_count, working_set,
};
use crate::error::{invalid_input, refused, Error};
use crate::jobs::{
    chunk_jobs, chunked, enumerate_tile_jobs, in_tile_order, job_in, jobs_by_zoom, lists,
    ranges_on_grid, runs, slices, zoom_key, TileJob, TileRange, law_runs,
};
use crate::options::{
    format_choice, GdalTuning, RasterFormat, RasterOptions, Resampling, StrategyPreference,
};
use crate::text::{decimal, decimal_text, lowered, texts};

verus! {

/// A way of rendering.
#[derive(Clone, Copy, Debug, PartialEq, Eq, Structural)]
pub enum RenderStrategy {
    SameCrsWebMercator,
    GeographicWgs84,
    GdalWarp,
}

impl RenderStrategy {
    pub open spec fn name(self) -> Seq<char> {
        match self {
            RenderStrategy::SameCrsWebMercator => "Web Mercator fast path"@,
            RenderStrategy::GeographicWgs84 => "EPSG:4326 fast path"@,
            RenderStrategy::GdalWarp => "GDAL warp"@,
        }
    }

    /// How the way of rendering is shown.
    pub fn label(self) -> (r: &'static str)
        ensures
            r@ == self.name(),
    {
        match self {
            RenderStrategy::SameCrsWebMercator => "Web Mercator fast path",
            RenderStrategy::GeographicWgs84 => "EPSG:4326 fast path",
            RenderStrategy::GdalWarp => "GDAL warp",
        }
    }
}

/// The coordinate system of a source, as far as it matters.
#[derive(Clone, Copy, Debug, PartialEq, Eq, Structural)]
pub enum SourceCrs {
    WebMercator,
    Wgs84,
    /// Another one, or none.
    Other,
}

/// A coordinate system is the one with the given number.
pub open spec fn is_epsg(same: bool, auth_code: Option<i32>, epsg: i32) -> bool {
    same || auth_code == Some(epsg)
}

/// A coordinate system that equals the one with the number is that one, whatever number it says.
/// Another one is where it says that number, and not where it says a different one or none.
pub proof fn law_epsg(code: i32, epsg: i32, auth_code: Option<i32>)
    ensures
        is_epsg(true, auth_code, epsg),
        is_epsg(false, Some(epsg), epsg),
        code != epsg ==> !is_epsg(false, Some(code), epsg),
        !is_epsg(false, None, epsg),
{
}

/// A coordinate system is the one with the given number if it equals that one or says so.
pub fn matches_epsg(same: bool, auth_code: Option<i32>, epsg: i32) -> (r: bool)
    ensures
        r == is_epsg(same, auth_code, epsg),
        r == (same || auth_code == Some(epsg)),
{
    same || match auth_code {
        Some(code) => code == epsg,
        None => false,
    }
}

/// Only these ways of resampling can do without a warp.
pub open spec fn is_fast_resampling(resampling: Resampling) -> bool {
    resampling == Resampling::Bilinear || resampling == Resampling::Nearest
}

/// Whether the way of resampling can do without a warp.
pub fn fast_path_resampling(resampling: Resampling) -> (r: bool)
    ensures
        r == is_fast_resampling(resampling),
        r == match resampling {
            Resampling::Bilinear => true,
            Resampling::Nearest => true,
            Resampling::Cubic => false,
            Resampling::CubicSpline => false,
            Resampling::Lanczos => false,
            Resampling::Average => false,
        },
{
    match resampling {
        Resampling::Bilinear => true,
        Resampling::Nearest => true,
        _ => false,
    }
}

/// The way of rendering follows from what the user asked for alone.
pub open spec fn decided_by_options(
    preference: StrategyPreference,
    resampling: Resampling,
) -> Option<RenderStrategy> {
    match preference {
        StrategyPreference::GdalWarp => Some(RenderStrategy::GdalWarp),
        StrategyPreference::SameCrs => Some(RenderStrategy::SameCrsWebMercator),
        StrategyPreference::Geographic => Some(RenderStrategy::GeographicWgs84),
        StrategyPreference::Auto => if is_fast_resampling(resampling) {
            None
        } else {
            Some(RenderStrategy::GdalWarp)
        },
    }
}

/// The way of rendering, where the source need not be asked for its coordinate system.
pub fn strategy_by_options(preference: StrategyPreference, resampling: Resampling) -> (r: Option<
    RenderStrategy,
>)
    ensures
        r == decided_by_options(preference, resampling),
{
    match preference {
        StrategyPreference::GdalWarp => Some(RenderStrategy::GdalWarp),
        StrategyPreference::SameCrs => Some(RenderStrategy::SameCrsWebMercator),
        StrategyPreference::Geographic => Some(RenderStrategy::GeographicWgs84),
        StrategyPreference::Auto => {
            if fast_path_resampling(resampling) {
                None
            } else {
                Some(RenderStrategy::GdalWarp)
            }
        },
    }
}

/// The fast path for a coordinate system, or a warp.
pub open spec fn path_for(crs: SourceCrs) -> RenderStrategy {
    match crs {
        SourceCrs::WebMercator => RenderStrategy::SameCrsWebMercator,
        SourceCrs::Wgs84 => RenderStrategy::GeographicWgs84,
        SourceCrs::Other => RenderStrategy::GdalWarp,
    }
}

/// The way of rendering for a source.
pub fn select_render_strategy(
    preference: StrategyPreference,
    resampling: Resampling,
    crs: SourceCrs,
) -> (r: RenderStrategy)
    ensures
        r == match decided_by_options(preference, resampling) {
            Some(strategy) => strategy,
            None => path_for(crs),
        },
        preference == StrategyPreference::GdalWarp ==> r == RenderStrategy::GdalWarp,
        preference == StrategyPreference::SameCrs ==> r == RenderStrategy::SameCrsWebMercator,
        preference == StrategyPreference::Geographic ==> r == RenderStrategy::GeographicWgs84,
        preference == StrategyPreference::Auto && (resampling == Resampling::Cubic || resampling
            == Resampling::CubicSpline || resampling == Resampling::Lanczos || resampling
            == Resampling::Average) ==> r == RenderStrategy::GdalWarp,
{
    match strategy_by_options(preference, resampling) {
        Some(strategy) => strategy,
        None => match crs {
            SourceCrs::WebMercator => RenderStrategy::SameCrsWebMercator,
            SourceCrs::Wgs84 => RenderStrategy::GeographicWgs84,
            SourceCrs::Other => RenderStrategy::GdalWarp,
        },
    }
}

/// Where the choice is left open, a fast path is taken only for a source in its coordinate
/// system and for resampling that it can do.
pub proof fn law_fast_paths_fit(resampling: Resampling, crs: SourceCrs)
    ensures
        ({
            let chosen = match decided_by_options(StrategyPreference::Auto, resampling) {
                Some(strategy) => strategy,
                None => path_for(crs),
            };
            &&& chosen == RenderStrategy::SameCrsWebMercator ==> crs == SourceCrs::WebMercator
                && is_fast_resampling(resampling)
            &&& chosen == RenderStrategy::GeographicWgs84 ==> crs == SourceCrs::Wgs84
                && is_fast_resampling(resampling)
        }),
{
}

/// What the user asked for is done. Where the choice is left open, cubic, cubic spline, Lanczos
/// and average resampling go through a warp whatever the source, and bilinear and nearest
/// resampling take the path of the coordinate system of the source.
pub proof fn law_strategy(preference: StrategyPreference, resampling: Resampling, crs: SourceCrs)
    ensures
        ({
            let chosen = match decided_by_options(preference, resampling) {
                Some(strategy) => strategy,
                None => path_for(crs),
            };
            match preference {
                StrategyPreference::GdalWarp => chosen == RenderStrategy::GdalWarp,
                StrategyPreference::SameCrs => chosen == RenderStrategy::SameCrsWebMercator,
                StrategyPreference::Geographic => chosen == RenderStrategy::GeographicWgs84,
                StrategyPreference::Auto => match resampling {
                    Resampling::Cubic => chosen == RenderStrategy::GdalWarp,
                    Resampling::CubicSpline => chosen == RenderStrategy::GdalWarp,
                    Resampling::Lanczos => chosen == RenderStrategy::GdalWarp,
                    Resampling::Average => chosen == RenderStrategy::GdalWarp,
                    Resampling::Bilinear | Resampling::Nearest => match crs {
                        SourceCrs::WebMercator => chosen == RenderStrategy::SameCrsWebMercator,
                        SourceCrs::Wgs84 => chosen == RenderStrategy::GeographicWgs84,
                        SourceCrs::Other => chosen == RenderStrategy::GdalWarp,
                    },
                },
            }
        }),
{
}

/// The source is asked for its coordinate system only where the answer can matter: for bilinear
/// and nearest resampling, with the choice left open.
pub proof fn law_source_is_asked(preference: StrategyPreference, resampling: Resampling)
    ensures
        decided_by_options(preference, resampling) is None <==> preference
            == StrategyPreference::Auto && (resampling == Resampling::Bilinear || resampling
            == Resampling::Nearest),
        is_fast_resampling(resampling) <==> resampling == Resampling::Bilinear || resampling
            == Resampling::Nearest,
{
}

/// Bands that are rendered of a source with so many.
pub open spec fn bands_of(raster_count: int) -> int {
    if raster_count < 1 {
        1
    } else if raster_count > 4 {
        4
    } else {
        raster_count
    }
}

/// From one to four bands are rendered: all of them where there are no more, and never more than
/// of a source with more bands.
pub proof fn law_bands(a: int, b: int)
    requires
        0 <= a <= b,
    ensures
        1 <= bands_of(a) <= bands_of(b) <= 4,
        1 <= a <= 4 ==> bands_of(a) == a,
{
}

/// Bands of the source that are rendered.
pub fn rendered_bands(raster_count: usize) -> (r: usize)
    ensures
        r == bands_of(raster_count as int),
        r == if raster_count < 1 {
            1
        } else if raster_count > 4 {
            4
        } else {
            raster_count as int
        },
{
    if raster_count < 1 {
        1
    } else if raster_count > 4 {
        4
    } else {
        raster_count
    }
}

/// Width and height in pixels of the tiles in a range.
pub open spec fn pixels_of(range: TileRange, tile_size: int) -> (int, int) {
    (range.columns() * tile_size, range.rows() * tile_size)
}

/// The width comes from the columns and the height from the rows, the last ones included; a range
/// of one tile is as large as a tile.
pub proof fn law_range_pixels(range: TileRange, tile_size: int)
    ensures
        pixels_of(range, tile_size).0 == (range.max_x - range.min_x + 1) * tile_size,
        pixels_of(range, tile_size).1 == (range.max_y - range.min_y + 1) * tile_size,
        range.min_x == range.max_x && range.min_y == range.max_y ==> pixels_of(range, tile_size)
            == (tile_size, tile_size),
{
    assert(1 * tile_size == tile_size);
}

/// Width and height in pixels of the tiles in a range.
pub fn range_pixels(range: &TileRange, tile_size: u32) -> (r: (u64, u64))
    requires
        range.min_x <= range.max_x,
        range.min_y <= range.max_y,
        range.columns() <= u32::MAX,
        range.rows() <= u32::MAX,
    ensures
        (r.0 as int, r.1 as int) == pixels_of(*range, tile_size as int),
        r.0 == range.columns() * tile_size,
        r.1 == range.rows() * tile_size,
{
    let columns: u32 = range.max_x - range.min_x + 1;
    let rows: u32 = range.max_y - range.min_y + 1;
    assert(columns * tile_size <= 0xffff_ffff * 0xffff_ffff) by (nonlinear_arith)
        requires
            columns <= 0xffff_ffff,
            tile_size <= 0xffff_ffff,
    ;
    assert(rows * tile_size <= 0xffff_ffff * 0xffff_ffff) by (nonlinear_arith)
        requires
            rows <= 0xffff_ffff,
            tile_size <= 0xffff_ffff,
    ;
    (columns as u64 * tile_size as u64, rows as u64 * tile_size as u64)
}

/// Looks whether a source has pixels.
pub fn require_pixels(width: usize, height: usize) -> (r: Result<(), Error>)
    ensures
        if width == 0 || height == 0 {
            refused(r, "raster has no pixels"@)
        } else {
            r is Ok
        },
{
    if width == 0 || height == 0 {
        return Err(invalid_input("raster has no pixels"));
    }
    Ok(())
}

/// Bytes of an image; none where they cannot be counted.
pub fn image_bytes(width: usize, height: usize, band_count: usize) -> (r: Option<usize>)
    ensures
        match r {
            Some(bytes) => bytes == width * height * band_count,
            None => width * height > usize::MAX || width * height * band_count > usize::MAX,
        },
{
    match width.checked_mul(height) {
        Some(pixels) => pixels.checked_mul(band_count),
        None => None,
    }
}

/// A part of the pixels of an image, not empty.
#[derive(Clone, Copy, Debug, PartialEq, Eq, Structural)]
pub struct PixelWindow {
    pub x: usize,
    pub y: usize,
    pub width: usize,
    pub height: usize,
}

/// The pixels between two columns and two rows.
pub open spec fn window_of(x: usize, x_end: usize, y: usize, y_end: usize) -> Option<PixelWindow> {
    if x < x_end && y < y_end {
        Some(PixelWindow { x, y, width: (x_end - x) as usize, height: (y_end - y) as usize })
    } else {
        None
    }
}

/// A pixel lies in the window exactly where its column lies from the first column up to the last
/// and its row from the first row up to the last; a window without pixels is none.
pub proof fn law_window(x: usize, x_end: usize, y: usize, y_end: usize, column: int, row: int)
    ensures
        ({
            let inside = x <= column < x_end && y <= row < y_end;
            match window_of(x, x_end, y, y_end) {
                Some(w) => inside <==> w.x <= column < w.x + w.width && w.y <= row < w.y + w.height,
                None => !inside,
            }
        }),
        window_of(x, x_end, y, y_end) matches Some(w) ==> w.width > 0 && w.height > 0,
{
}

/// The pixels between two columns and two rows.
pub fn window_between(x: usize, x_end: usize, y: usize, y_end: usize) -> (r: Option<PixelWindow>)
    ensures
        r == window_of(x, x_end, y, y_end),
        if x < x_end && y < y_end {
            r == Some(
                PixelWindow {
                    x,
                    y,
                    width: (x_end - x) as usize,
                    height: (y_end - y) as usize,
                },
            )
        } else {
            r is None
        },
{
    if x < x_end && y < y_end {
        Some(PixelWindow { x, y, width: x_end - x, height: y_end - y })
    } else {
        None
    }
}

/// Largest number that the raster library takes.
pub const GDAL_INT_MAX: usize = 0x7fff_ffff;

/// A row of pixels that is read from the source.
#[derive(Clone, Copy, Debug, PartialEq, Eq, Structural)]
pub struct RowRequest {
    pub x: i32,
    pub y: i32,
    pub width: i32,
    pub band_count: i32,
    pub line_stride: i32,
}

/// A row of pixels is as many bytes long as it has columns times bands, and numbers that the
/// raster library cannot take are refused.
pub open spec fn row_of(x: usize, y: usize, width: usize, band_count: usize) -> Option<RowRequest> {
    if x <= GDAL_INT_MAX && y <= GDAL_INT_MAX && width <= GDAL_INT_MAX && band_count
        <= GDAL_INT_MAX && width * band_count <= GDAL_INT_MAX {
        Some(
            RowRequest {
                x: x as i32,
                y: y as i32,
                width: width as i32,
                band_count: band_count as i32,
                line_stride: (width * band_count) as i32,
            },
        )
    } else {
        None
    }
}

/// The row that is read is the one that was asked for, and its lines are as far apart as it is
/// long. Only what does not fit 32 bits with a sign is refused.
pub proof fn law_row_request(x: usize, y: usize, width: usize, band_count: usize)
    ensures
        row_of(x, y, width, band_count) matches Some(r) ==> {
            &&& r.x == x
            &&& r.y == y
            &&& r.width == width
            &&& r.band_count == band_count
            &&& r.line_stride == width * band_count
        },
        row_of(x, y, width, band_count) is None <==> x > 2_147_483_647 || y > 2_147_483_647 || width
            > 2_147_483_647 || band_count > 2_147_483_647 || width * band_count > 2_147_483_647,
{
    assert(width * band_count >= 0) by (nonlinear_arith)
        requires
            width >= 0,
            band_count >= 0,
    ;
}

/// Prepares to read a row of pixels.
pub fn row_request(x: usize, y: usize, width: usize, band_count: usize) -> (r: Result<
    RowRequest,
    Error,
>)
    requires
        width * band_count <= usize::MAX,
    ensures
        if x > GDAL_INT_MAX {
            refused(r, "source column exceeds GDAL int range"@)
        } else if y > GDAL_INT_MAX {
            refused(r, "source row exceeds GDAL int range"@)
        } else if width > GDAL_INT_MAX {
            refused(r, "source width exceeds GDAL int range"@)
        } else if band_count > GDAL_INT_MAX {
            refused(r, "band count exceeds GDAL int range"@)
        } else if width * band_count > GDAL_INT_MAX {
            refused(r, "line stride exceeds GDAL int range"@)
        } else {
            r == Ok::<RowRequest, Error>(
                RowRequest {
                    x: x as i32,
                    y: y as i32,
                    width: width as i32,
                    band_count: band_count as i32,
                    line_stride: (width * band_count) as i32,
                },
            )
        },
        match row_of(x, y, width, band_count) {
            Some(request) => r == Ok::<RowRequest, Error>(request),
            None => r is Err,
        },
{
    if x > GDAL_INT_MAX {
        return Err(invalid_input("source column exceeds GDAL int range"));
    }
    if y > GDAL_INT_MAX {
        return Err(invalid_input("source row exceeds GDAL int range"));
    }
    if width > GDAL_INT_MAX {
        return Err(invalid_input("source width exceeds GDAL int range"));
    }
    if band_count > GDAL_INT_MAX {
        return Err(invalid_input("band count exceeds GDAL int range"));
    }
    assert(width * band_count >= 0) by (nonlinear_arith);
    let line: usize = width * band_count;
    if line > GDAL_INT_MAX {
        return Err(invalid_input("line stride exceeds GDAL int range"));
    }
    Ok(
        RowRequest {
            x: x as i32,
            y: y as i32,
            width: width as i32,
            band_count: band_count as i32,
            line_stride: line as i32,
        },
    )
}

/// A window of pixels that is read from the source and resampled.
#[derive(Clone, Copy, Debug, PartialEq, Eq, Structural)]
pub struct WindowRequest {
    pub width: i32,
    pub height: i32,
    pub band_count: i32,
    pub line_stride: i64,
}

/// A window of pixels, where the raster library can take its numbers.
pub open spec fn window_asked(width: usize, height: usize, band_count: usize) -> Option<
    WindowRequest,
> {
    if width <= GDAL_INT_MAX && height <= GDAL_INT_MAX && band_count <= GDAL_INT_MAX {
        Some(
            WindowRequest {
                width: width as i32,
                height: height as i32,
                band_count: band_count as i32,
                line_stride: (width * band_count) as i64,
            },
        )
    } else {
        None
    }
}

/// The window that is read is the one that was asked for, and its lines are as far apart as they
/// are long. Only what does not fit 32 bits with a sign is refused.
pub proof fn law_window_request(width: usize, height: usize, band_count: usize)
    ensures
        window_asked(width, height, band_count) matches Some(r) ==> {
            &&& r.width == width
            &&& r.height == height
            &&& r.band_count == band_count
            &&& r.line_stride == width * band_count
        },
        window_asked(width, height, band_count) is None <==> width > 2_147_483_647 || height
            > 2_147_483_647 || band_count > 2_147_483_647,
{
    if width <= 0x7fff_ffff && band_count <= 0x7fff_ffff {
        assert(0 <= width * band_count <= 0x7fff_ffff * 0x7fff_ffff) by (nonlinear_arith)
            requires
                0 <= width <= 0x7fff_ffff,
                0 <= band_count <= 0x7fff_ffff,
        ;
    }
}

/// Prepares to read a window of pixels.
pub fn window_request(width: usize, height: usize, band_count: usize) -> (r: Result<
    WindowRequest,
    Error,
>)
    ensures
        if width > GDAL_INT_MAX {
            refused(r, "destination width exceeds GDAL int range"@)
        } else if height > GDAL_INT_MAX {
            refused(r, "destination height exceeds GDAL int range"@)
        } else if band_count > GDAL_INT_MAX {
            refused(r, "band count exceeds GDAL int range"@)
        } else {
            r == Ok::<WindowRequest, Error>(
                WindowRequest {
                    width: width as i32,
                    height: height as i32,
                    band_count: band_count as i32,
                    line_stride: (width * band_count) as i64,
                },
            )
        },
        match window_asked(width, height, band_count) {
            Some(request) => r == Ok::<WindowRequest, Error>(request),
            None => r is Err,
        },
{
    if width > GDAL_INT_MAX {
        return Err(invalid_input("destination width exceeds GDAL int range"));
    }
    if height > GDAL_INT_MAX {
        return Err(invalid_input("destination height exceeds GDAL int range"));
    }
    if band_count > GDAL_INT_MAX {
        return Err(invalid_input("band count exceeds GDAL int range"));
    }
    assert(0 <= width * band_count <= 0x7fff_ffff * 0x7fff_ffff) by (nonlinear_arith)
        requires
            width <= 0x7fff_ffff,
            band_count <= 0x7fff_ffff,
    ;
    Ok(
        WindowRequest {
            width: width as i32,
            height: height as i32,
            band_count: band_count as i32,
            line_stride: width as i64 * band_count as i64,
        },
    )
}

/// The two source pixels between which a value lies.
#[derive(Clone, Copy, Debug, PartialEq, Eq, Structural)]
pub struct SamplePair {
    pub lower: usize,
    pub upper: usize,
}

/// A range of source columns.
#[derive(Clone, Copy, Debug, PartialEq, Eq, Structural)]
pub struct ColumnRange {
    pub start: usize,
    pub width: usize,
}

/// The columns from the first to the last that the samples use; one column where there are none.
pub open spec fn is_column_range(samples: Seq<SamplePair>, columns: ColumnRange) -> bool {
    if samples.len() == 0 {
        columns == (ColumnRange { start: 0, width: 1 })
    } else {
        &&& forall|i: int|
            0 <= i < samples.len() ==> columns.start <= (#[trigger] samples[i]).lower
                && samples[i].upper < columns.start + columns.width
        &&& exists|i: int|
            0 <= i < samples.len() && (#[trigger] samples[i]).lower == columns.start
        &&& exists|i: int|
            0 <= i < samples.len() && (#[trigger] samples[i]).upper + 1 == columns.start
                + columns.width
    }
}

/// The columns reach from the least lower sample to the greatest upper one: no sample lies
/// outside of them, and both ends are used.
pub proof fn law_sampled_columns(samples: Seq<SamplePair>, columns: ColumnRange, i: int)
    requires
        is_column_range(samples, columns),
    ensures
        samples.len() == 0 ==> columns.start == 0 && columns.width == 1,
        0 <= i < samples.len() ==> columns.start <= samples[i].lower && samples[i].upper
            < columns.start + columns.width,
        samples.len() > 0 ==> exists|k: int|
            0 <= k < samples.len() && (#[trigger] samples[k]).lower == columns.start,
        samples.len() > 0 ==> exists|k: int|
            0 <= k < samples.len() && (#[trigger] samples[k]).upper == columns.start + columns.width
                - 1,
{
    if samples.len() > 0 {
        let k = choose|k: int|
            0 <= k < samples.len() && (#[trigger] samples[k]).upper + 1 == columns.start
                + columns.width;
        assert(samples[k].upper == columns.start + columns.width - 1);
    }
}

/// The source columns that the samples use.
pub fn sampled_columns(samples: &Vec<SamplePair>) -> (r: ColumnRange)
    requires
        forall|i: int|
            0 <= i < samples@.len() ==> (#[trigger] samples@[i]).lower <= samples@[i].upper
                && samples@[i].upper < usize::MAX,
    ensures
        is_column_range(samples@, r),
{
    if samples.len() == 0 {
        return ColumnRange { start: 0, width: 1 };
    }
    let mut start: usize = samples[0].lower;
    let mut last: usize = samples[0].upper;
    let ghost mut a: int = 0;
    let ghost mut b: int = 0;
    let mut i: usize = 1;
    while i < samples.len()
        invariant
            1 <= i <= samples@.len(),
            0 <= a < i,
            0 <= b < i,
            samples@[a].lower == start,
            samples@[b].upper == last,
            start <= last < usize::MAX,
            forall|k: int|
                0 <= k < samples@.len() ==> (#[trigger] samples@[k]).lower <= samples@[k].upper
                    && samples@[k].upper < usize::MAX,
            forall|k: int|
                0 <= k < i ==> start <= (#[trigger] samples@[k]).lower && samples@[k].upper
                    <= last,
        decreases samples@.len() - i,
    {
        if samples[i].lower < start {
            start = samples[i].lower;
            proof {
                a = i as int;
            }
        }
        if samples[i].upper > last {
            last = samples[i].upper;
            proof {
                b = i as int;
            }
        }
        i = i + 1;
    }
    ColumnRange { start, width: last + 1 - start }
}

/// How a buffer gets the row that is wanted.
#[derive(Clone, Copy, Debug, PartialEq, Eq, Structural)]
pub enum RowStep {
    /// It holds the row.
    Keep,
    /// The row is read from the source.
    Read(usize),
    /// The row is copied from the first buffer.
    Copy,
}

/// The source rows that two buffers hold.
#[derive(Clone, Copy, Debug, PartialEq, Eq, Structural)]
pub struct RowCache {
    pub first: Option<usize>,
    pub second: Option<usize>,
}

/// The row that a buffer holds after a step.
pub open spec fn held_after(step: RowStep, held: Option<usize>, first: Option<usize>) -> Option<
    usize,
> {
    match step {
        RowStep::Keep => held,
        RowStep::Read(row) => Some(row),
        RowStep::Copy => first,
    }
}

/// How the first buffer gets its row.
pub open spec fn first_step(cache: RowCache, lower: usize) -> RowStep {
    if cache.first == Some(lower) {
        RowStep::Keep
    } else {
        RowStep::Read(lower)
    }
}

/// How the second buffer gets its row, after the first has its own.
pub open spec fn second_step(cache: RowCache, lower: usize, upper: usize) -> RowStep {
    if cache.second == Some(upper) {
        RowStep::Keep
    } else if upper == lower {
        RowStep::Copy
    } else {
        RowStep::Read(upper)
    }
}

/// A row is kept exactly where its buffer holds it. It is copied where the first buffer has it,
/// and read from the source only where neither buffer does.
pub proof fn law_rows_are_read_once(cache: RowCache, lower: usize, upper: usize)
    ensures
        first_step(cache, lower) == RowStep::Keep <==> cache.first == Some(lower),
        first_step(cache, lower) != RowStep::Keep ==> first_step(cache, lower) == RowStep::Read(
            lower,
        ),
        second_step(cache, lower, upper) == RowStep::Keep <==> cache.second == Some(upper),
        second_step(cache, lower, upper) == RowStep::Copy <==> cache.second != Some(upper) && upper
            == lower,
        second_step(cache, lower, upper) == RowStep::Read(upper) <==> cache.second != Some(upper)
            && upper != lower,
{
}

impl RowCache {
    /// Buffers that hold no row.
    pub fn new() -> (r: RowCache)
        ensures
            r.first is None,
            r.second is None,
    {
        RowCache { first: None, second: None }
    }

    /// Prepares the buffers for the rows `lower` and `upper`. The first step is for the first
    /// buffer and is done first. A buffer that holds its row is kept, and no row is read where
    /// it can be copied.
    pub fn advance(&mut self, lower: usize, upper: usize) -> (r: (RowStep, RowStep))
        ensures
            final(self).first == Some(lower),
            final(self).second == Some(upper),
            r.0 == first_step(*old(self), lower),
            r.0 == if old(self).first == Some(lower) {
                RowStep::Keep
            } else {
                RowStep::Read(lower)
            },
            r.1 == second_step(*old(self), lower, upper),
            r.1 == if old(self).second == Some(upper) {
                RowStep::Keep
            } else if upper == lower {
                RowStep::Copy
            } else {
                RowStep::Read(upper)
            },
    {
        let holds_lower = match self.first {
            Some(row) => row == lower,
            None => false,
        };
        let holds_upper = match self.second {
            Some(row) => row == upper,
            None => false,
        };
        let first = if holds_lower {
            RowStep::Keep
        } else {
            RowStep::Read(lower)
        };
        let second = if holds_upper {
            RowStep::Keep
        } else if upper == lower {
            RowStep::Copy
        } else {
            RowStep::Read(upper)
        };
        self.first = Some(lower);
        self.second = Some(upper);
        (first, second)
    }
}

/// After the two steps each buffer holds the row that was asked for.
pub proof fn law_buffers_hold_rows(cache: RowCache, lower: usize, upper: usize)
    ensures
        ({
            let first = first_step(cache, lower);
            let second = second_step(cache, lower, upper);
            let held = held_after(first, cache.first, None);
            &&& held == Some(lower)
            &&& held_after(second, cache.second, held) == Some(upper)
        }),
{
}

/// Size of an image that is handed to the WebP encoder.
#[derive(Clone, Copy, Debug, PartialEq, Eq, Structural)]
pub struct WebpSize {
    pub side: i32,
    pub stride: i32,
}

/// Prepares the size of a tile for the WebP encoder.
pub fn webp_size(tile_size: usize, row_stride: usize) -> (r: Result<WebpSize, Error>)
    ensures
        if tile_size > i32::MAX {
            refused(r, "tile width exceeds libwebp int range"@)
        } else if row_stride > i32::MAX {
            refused(r, "tile stride exceeds libwebp int range"@)
        } else {
            r == Ok::<WebpSize, Error>(
                WebpSize { side: tile_size as i32, stride: row_stride as i32 },
            )
        },
{
    if tile_size > 0x7fff_ffff {
        return Err(invalid_input("tile width exceeds libwebp int range"));
    }
    if row_stride > 0x7fff_ffff {
        return Err(invalid_input("tile stride exceeds libwebp int range"));
    }
    Ok(WebpSize { side: tile_size as i32, stride: row_stride as i32 })
}

/// Who encodes a tile.
#[derive(Clone, Copy, Debug, PartialEq, Eq, Structural)]
pub enum Encoder {
    /// The WebP library, for red, green and blue.
    WebpRgb,
    /// The WebP library, for red, green, blue and alpha.
    WebpRgba,
    /// A driver of the raster library, which may be told a quality.
    Driver { with_quality: bool },
}

/// The encoder for a tile.
pub open spec fn encoder_for(format: RasterFormat, band_count: int) -> Encoder {
    if format == RasterFormat::Webp && band_count == 3 {
        Encoder::WebpRgb
    } else if format == RasterFormat::Webp && band_count == 4 {
        Encoder::WebpRgba
    } else {
        Encoder::Driver { with_quality: format != RasterFormat::Png }
    }
}

/// The WebP library encodes the WebP tiles of three and of four bands and no others. A driver is
/// told a quality unless it writes PNG.
pub proof fn law_encoder(format: RasterFormat, band_count: int)
    ensures
        encoder_for(format, band_count) == Encoder::WebpRgb <==> format == RasterFormat::Webp
            && band_count == 3,
        encoder_for(format, band_count) == Encoder::WebpRgba <==> format == RasterFormat::Webp
            && band_count == 4,
        encoder_for(RasterFormat::Png, band_count) == (Encoder::Driver { with_quality: false }),
        encoder_for(RasterFormat::Jpeg, band_count) == (Encoder::Driver { with_quality: true }),
        encoder_for(RasterFormat::Webp, band_count) != (Encoder::Driver { with_quality: false }),
{
}

/// Chooses the encoder for a tile.
pub fn choose_encoder(format: RasterFormat, band_count: usize) -> (r: Encoder)
    ensures
        r == encoder_for(format, band_count as int),
        r == if format == RasterFormat::Webp && band_count == 3 {
            Encoder::WebpRgb
        } else if format == RasterFormat::Webp && band_count == 4 {
            Encoder::WebpRgba
        } else {
            Encoder::Driver { with_quality: format != RasterFormat::Png }
        },
{
    match format {
        RasterFormat::Webp => {
            if band_count == 3 {
                Encoder::WebpRgb
            } else if band_count == 4 {
                Encoder::WebpRgba
            } else {
                Encoder::Driver { with_quality: true }
            }
        },
        RasterFormat::Jpeg => Encoder::Driver { with_quality: true },
        RasterFormat::Png => Encoder::Driver { with_quality: false },
    }
}

/// The driver that encodes a format.
pub open spec fn driver_of(format: RasterFormat) -> Seq<char> {
    match format {
        RasterFormat::Png => "PNG"@,
        RasterFormat::Jpeg => "JPEG"@,
        RasterFormat::Webp => "WEBP"@,
    }
}

/// In small letters the name of a driver is one under which the user can ask for its format.
pub proof fn law_driver(format: RasterFormat)
    ensures
        format_choice(lowered(driver_of(format))) == Ok::<RasterFormat, Seq<char>>(format),
        lowered(driver_of(RasterFormat::Png)) == "png"@,
        lowered(driver_of(RasterFormat::Jpeg)) == "jpeg"@,
        lowered(driver_of(RasterFormat::Webp)) == "webp"@,
{
    reveal_strlit("PNG");
    reveal_strlit("JPEG");
    reveal_strlit("WEBP");
    reveal_strlit("png");
    reveal_strlit("jpg");
    reveal_strlit("jpeg");
    reveal_strlit("webp");
    assert(lowered("PNG"@) =~= "png"@);
    assert(lowered("JPEG"@) =~= "jpeg"@);
    assert(lowered("WEBP"@) =~= "webp"@);
    assert("png"@[0] == 'p' && "jpeg"@[0] == 'j' && "webp"@[0] == 'w');
}

/// Name of the driver that encodes a format.
pub fn driver_name(format: RasterFormat) -> (r: &'static str)
    ensures
        r@ == driver_of(format),
        r@ == match format {
            RasterFormat::Png => "PNG"@,
            RasterFormat::Jpeg => "JPEG"@,
            RasterFormat::Webp => "WEBP"@,
        },
{
    match format {
        RasterFormat::Png => "PNG",
        RasterFormat::Jpeg => "JPEG",
        RasterFormat::Webp => "WEBP",
    }
}

/// Name of the file in memory to which a tile is encoded.
pub open spec fn memory_path(process: nat, job: TileJob, format: RasterFormat) -> Seq<char> {
    "/vsimem/pmtiler-"@ + decimal(process) + "-"@ + decimal(job.z as nat) + "-"@ + decimal(
        job.x as nat,
    ) + "-"@ + decimal(job.y as nat) + "."@ + format.name()
}

/// Name of the file in memory to which a tile is encoded.
pub fn vsimem_path(process: u32, job: &TileJob, format: RasterFormat) -> (r: String)
    ensures
        r@ == memory_path(process as nat, *job, format),
{
    let mut path = "/vsimem/pmtiler-".to_owned();
    path.append(decimal_text(process as u64).as_str());
    path.append("-");
    path.append(decimal_text(job.z as u64).as_str());
    path.append("-");
    path.append(decimal_text(job.x as u64).as_str());
    path.append("-");
    path.append(decimal_text(job.y as u64).as_str());
    path.append(".");
    path.append(format.as_str());
    path
}

fn push_pairs(out: &mut Vec<(String, String)>, more: &Vec<(String, String)>)
    ensures
        pairs(final(out)@) == pairs(old(out)@) + pairs(more@),
{
    let ghost start = pairs(out@);
    let mut i: usize = 0;
    assert(pairs(out@) =~= start + pairs(more@).take(0));
    while i < more.len()
        invariant
            i <= more@.len(),
            pairs(out@) == start + pairs(more@).take(i as int),
        decreases more@.len() - i,
    {
        let ghost before = out@;
        out.push((more[i].0.clone(), more[i].1.clone()));
        i = i + 1;
        assert(pairs(out@) =~= pairs(before).push((more@[i - 1].0@, more@[i - 1].1@)));
        assert(pairs(out@) =~= start + pairs(more@).take(i as int));
    }
    assert(pairs(more@).take(more@.len() as int) =~= pairs(more@));
}

/// Options of a warp.
pub open spec fn warp_pairs(opts: RasterOptions, concurrent_warps: nat, available: nat) -> Seq<
    (Seq<char>, Seq<char>),
> {
    seq![
        ("NUM_THREADS"@, opts.warp_threads.gdal_value(concurrent_warps, available)),
        ("SKIP_NOSOURCE"@, "YES"@),
    ] + pairs(opts.warp_options@)
}

/// A warp is told its number of threads and to skip areas without source, and then what the user
/// added, in the order in which it was given.
pub proof fn law_warp_options(opts: RasterOptions, concurrent_warps: nat, available: nat, i: int)
    requires
        0 <= i < opts.warp_options@.len(),
    ensures
        ({
            let list = warp_pairs(opts, concurrent_warps, available);
            &&& list.len() == 2 + opts.warp_options@.len()
            &&& list[0].0 == "NUM_THREADS"@
            &&& list[0].1 == opts.warp_threads.gdal_value(concurrent_warps, available)
            &&& list[1].0 == "SKIP_NOSOURCE"@
            &&& list[1].1 == "YES"@
            &&& list[2 + i].0 == opts.warp_options@[i].0@
            &&& list[2 + i].1 == opts.warp_options@[i].1@
        }),
{
    assert(pairs(opts.warp_options@)[i] == (opts.warp_options@[i].0@, opts.warp_options@[i].1@));
}

/// Options of a warp: the number of threads, that areas without source are skipped, and what the
/// user added.
pub fn warp_option_list(opts: &RasterOptions, concurrent_warps: usize, available: usize) -> (r: Vec<
    (String, String),
>)
    ensures
        pairs(r@) == warp_pairs(*opts, concurrent_warps as nat, available as nat),
        pairs(r@) == seq![
            (
                "NUM_THREADS"@,
                opts.warp_threads.gdal_value(concurrent_warps as nat, available as nat),
            ),
            ("SKIP_NOSOURCE"@, "YES"@),
        ] + pairs(opts.warp_options@),
{
    let mut list: Vec<(String, String)> = Vec::new();
    let threads = opts.warp_threads.as_gdal_value(concurrent_warps, available);
    list.push(("NUM_THREADS".to_owned(), threads));
    list.push(("SKIP_NOSOURCE".to_owned(), "YES".to_owned()));
    assert(pairs(list@) =~= seq![
        (
            "NUM_THREADS"@,
            opts.warp_threads.gdal_value(concurrent_warps as nat, available as nat),
        ),
        ("SKIP_NOSOURCE"@, "YES"@),
    ]);
    push_pairs(&mut list, &opts.warp_options);
    list
}

/// Settings of the raster library.
pub open spec fn config_pairs(tuning: GdalTuning) -> Seq<(Seq<char>, Seq<char>)> {
    (match tuning.cache_bytes {
        Some(bytes) => seq![("GDAL_CACHEMAX"@, decimal(bytes as nat))],
        None => Seq::empty(),
    }) + pairs(tuning.config_options@)
}

/// The raster library is told the size of its cache in bytes, where the user chose one, and then
/// what the user added, in the order in which it was given.
pub proof fn law_config_settings(tuning: GdalTuning)
    ensures
        ({
            let list = config_pairs(tuning);
            let first = if tuning.cache_bytes is Some {
                1int
            } else {
                0
            };
            &&& list.len() == first + tuning.config_options@.len()
            &&& tuning.cache_bytes matches Some(bytes) ==> list[0].0 == "GDAL_CACHEMAX"@
                && list[0].1 == decimal(bytes as nat)
            &&& forall|i: int| #![trigger tuning.config_options@[i]]
                0 <= i < tuning.config_options@.len() ==> list[first + i].0
                    == tuning.config_options@[i].0@ && list[first + i].1
                    == tuning.config_options@[i].1@
        }),
{
}

/// Settings that the raster library is given before a source is opened: the size of its cache,
/// where the user chose one, and what the user added.
pub fn config_settings(tuning: &GdalTuning) -> (r: Vec<(String, String)>)
    ensures
        pairs(r@) == config_pairs(*tuning),
        pairs(r@) == (match tuning.cache_bytes {
            Some(bytes) => seq![("GDAL_CACHEMAX"@, decimal(bytes as nat))],
            None => Seq::empty(),
        }) + pairs(tuning.config_options@),
{
    let mut list: Vec<(String, String)> = Vec::new();
    assert(pairs(list@) =~= Seq::empty());
    if let Some(bytes) = tuning.cache_bytes {
        list.push(("GDAL_CACHEMAX".to_owned(), decimal_text(bytes)));
        assert(pairs(list@) =~= seq![("GDAL_CACHEMAX"@, decimal(bytes as nat))]);
    }
    push_pairs(&mut list, &tuning.config_options);
    list
}

/// An option as one text.
pub open spec fn option_text(pair: (Seq<char>, Seq<char>)) -> Seq<char> {
    pair.0 + "="@ + pair.1
}

/// An option is its name, an equals sign and its value.
pub proof fn law_option_text(name: Seq<char>, value: Seq<char>)
    ensures
        option_text((name, value)) == name + seq!['='] + value,
{
    reveal_strlit("=");
    assert("="@ =~= seq!['=']);
}

/// Tiles are encoded to files in memory that differ for each process and each tile, and whose
/// names end with the extension of the format.
pub proof fn law_memory_path(process: nat, job: TileJob, format: RasterFormat)
    ensures
        memory_path(process, job, format) == "/vsimem/pmtiler-"@ + decimal(process) + "-"@
            + decimal(job.z as nat) + "-"@ + decimal(job.x as nat) + "-"@ + decimal(job.y as nat)
            + "."@ + format.name(),
{
}

/// Options with which a source is opened, one text each.
pub fn open_option_texts(tuning: &GdalTuning) -> (r: Vec<String>)
    ensures
        texts(r@) == pairs(tuning.open_options@).map_values(
            |pair: (Seq<char>, Seq<char>)| option_text(pair),
        ),
{
    let ghost whole = pairs(tuning.open_options@).map_values(
        |pair: (Seq<char>, Seq<char>)| option_text(pair),
    );
    let mut list: Vec<String> = Vec::new();
    let mut i: usize = 0;
    assert(texts(list@) =~= whole.take(0));
    while i < tuning.open_options.len()
        invariant
            i <= tuning.open_options@.len(),
            whole == pairs(tuning.open_options@).map_values(
                |pair: (Seq<char>, Seq<char>)| option_text(pair),
            ),
            texts(list@) == whole.take(i as int),
        decreases tuning.open_options@.len() - i,
    {
        let mut text = tuning.open_options[i].0.clone();
        text.append("=");
        text.append(tuning.open_options[i].1.as_str());
        let ghost before = list@;
        assert(whole[i as int] == text@);
        list.push(text);
        i = i + 1;
        assert(texts(list@) =~= texts(before).push(text@));
        assert(texts(list@) =~= whole.take(i as int));
    }
    assert(whole.take(whole.len() as int) =~= whole);
    list
}

/// Parts into which each side of a source is cut to find its bounds.
pub const DENSIFY: u32 = 21;

/// A point on the edge of a source: how many of the parts of its width and of its height lie
/// before it.
#[derive(Clone, Copy, Debug, PartialEq, Eq, Structural)]
pub struct EdgePoint {
    pub x: u32,
    pub y: u32,
}

/// The points along the upper and the lower edge, in pairs from left to right, and then those
/// along the left and the right edge, without the corners.
pub open spec fn edge_point(k: int) -> EdgePoint {
    if k < 44 {
        EdgePoint {
            x: (k / 2) as u32,
            y: if k % 2 == 0 {
                0
            } else {
                DENSIFY
            },
        }
    } else {
        EdgePoint {
            x: if k % 2 == 0 {
                0
            } else {
                DENSIFY
            },
            y: ((k - 44) / 2 + 1) as u32,
        }
    }
}

/// The points on the edge of a source from which its bounds are found.
pub fn edge_points() -> (r: Vec<EdgePoint>)
    ensures
        r@ == Seq::new(84, |k: int| edge_point(k)),
{
    let ghost whole = Seq::new(84, |k: int| edge_point(k));
    let mut points: Vec<EdgePoint> = Vec::new();
    let mut i: u32 = 0;
    while i <= DENSIFY
        invariant
            i <= DENSIFY + 1,
            whole == Seq::new(84, |k: int| edge_point(k)),
            points@ == whole.take(2 * i),
        decreases DENSIFY + 1 - i,
    {
        points.push(EdgePoint { x: i, y: 0 });
        points.push(EdgePoint { x: i, y: DENSIFY });
        i = i + 1;
        assert(points@ =~= whole.take(2 * i));
    }
    let mut i: u32 = 1;
    while i < DENSIFY
        invariant
            1 <= i <= DENSIFY,
            whole == Seq::new(84, |k: int| edge_point(k)),
            points@ == whole.take(42 + 2 * i),
        decreases DENSIFY - i,
    {
        points.push(EdgePoint { x: 0, y: i });
        points.push(EdgePoint { x: DENSIFY, y: i });
        i = i + 1;
        assert(points@ =~= whole.take(42 + 2 * i));
    }
    assert(whole.take(84) =~= whole);
    points
}

/// Every point of the grid that lies on the edge is used, and no other.
pub proof fn law_edge_points_go_round(x: u32, y: u32)
    requires
        x <= DENSIFY,
        y <= DENSIFY,
    ensures
        (exists|k: int| 0 <= k < 84 && #[trigger] edge_point(k) == (EdgePoint { x, y })) <==> (x
            == 0 || x == DENSIFY || y == 0 || y == DENSIFY),
{
    let p = EdgePoint { x, y };
    if y == 0 {
        assert(edge_point(2 * x) == p);
    } else if y == DENSIFY {
        assert(edge_point(2 * x + 1) == p);
    } else if x == 0 {
        assert(edge_point(42 + 2 * y) == p);
    } else if x == DENSIFY {
        assert(edge_point(43 + 2 * y) == p);
    }
}

/// Each side is cut into 21 parts: the points with an index of 0 or 21 in one direction are used,
/// each of them once, and no others.
pub proof fn law_edge_points_are_distinct(j: int, k: int, x: u32, y: u32)
    requires
        0 <= j < k < 84,
        x <= 21,
        y <= 21,
    ensures
        edge_point(j) != edge_point(k),
        (exists|i: int| 0 <= i < 84 && #[trigger] edge_point(i) == (EdgePoint { x, y })) <==> (x
            == 0 || x == 21 || y == 0 || y == 21),
{
    law_edge_points_go_round(x, y);
}

/// What the raster command does with its tiles.
#[derive(Debug)]
pub enum Task {
    /// The plan is shown.
    Plan(Vec<TileJob>),
    /// The tiles are rendered.
    Render(Vec<TileJob>),
}

impl Task {
    pub open spec fn jobs(self) -> Seq<TileJob> {
        match self {
            Task::Plan(jobs) => jobs@,
            Task::Render(jobs) => jobs@,
        }
    }
}

/// Lists the tiles of the raster command, and decides whether they are rendered.
pub fn run(opts: &RasterOptions, ranges: &Vec<TileRange>) -> (r: Result<Task, Error>)
    requires
        opts.min_zoom <= opts.max_zoom <= 31 ==> ranges@.len() == opts.max_zoom - opts.min_zoom + 1
            && ranges_on_grid(ranges@, opts.min_zoom as int),
    ensures
        if opts.min_zoom > opts.max_zoom {
            refused(r, "--zoom minimum must be <= maximum"@)
        } else if opts.max_zoom > 31 {
            refused(r, "PMTiles tile ids support zoom levels 0..31"@)
        } else {
            &&& r matches Ok(task)
            &&& task is Plan <==> opts.plan_only
            &&& in_tile_order(task.jobs())
            &&& forall|job: TileJob| #[trigger]
                task.jobs().contains(job) <==> job_in(ranges@, opts.min_zoom as int, job)
        },
{
    let jobs = enumerate_tile_jobs(ranges, opts.min_zoom, opts.max_zoom)?;
    if opts.plan_only {
        Ok(Task::Plan(jobs))
    } else {
        Ok(Task::Render(jobs))
    }
}

/// The tiles of one zoom level, the size of the blocks in which they are rendered, and how many
/// tiles are done after them.
pub struct ZoomTask<'a> {
    pub jobs: &'a [TileJob],
    pub chunk_tiles: Option<u32>,
    pub completed: usize,
}

/// Number of tiles in the first of some lists.
pub open spec fn total_len(parts: Seq<Seq<TileJob>>, n: nat) -> nat
    decreases n,
{
    if n == 0 {
        0
    } else {
        total_len(parts, (n - 1) as nat) + parts[n - 1].len()
    }
}

proof fn lemma_total_len(parts: Seq<Seq<TileJob>>, n: nat)
    requires
        n <= parts.len(),
    ensures
        total_len(parts, n) == parts.take(n as int).flatten().len(),
        total_len(parts, n) <= parts.flatten().len(),
    decreases n,
{
    if n > 0 {
        lemma_total_len(parts, (n - 1) as nat);
        let some = parts.take(n as int);
        assert(some.drop_last() =~= parts.take(n - 1));
        some.lemma_flatten_and_flatten_alt_are_equivalent();
        some.drop_last().lemma_flatten_and_flatten_alt_are_equivalent();
    }
    lemma_flatten_split(parts, n as int);
}

proof fn lemma_flatten_split(parts: Seq<Seq<TileJob>>, n: int)
    requires
        0 <= n <= parts.len(),
    ensures
        parts.flatten().len() == parts.take(n).flatten().len() + parts.skip(n).flatten().len(),
    decreases n,
{
    if n == 0 {
        assert(parts.take(0) =~= Seq::empty());
        assert(parts.skip(0) =~= parts);
    } else {
        lemma_flatten_split(parts.drop_first(), n - 1);
        assert(parts.take(n).drop_first() =~= parts.drop_first().take(n - 1));
        assert(parts.skip(n) =~= parts.drop_first().skip(n - 1));
    }
}

pub(crate) proof fn lemma_member_of_parts(parts: Seq<Seq<TileJob>>, i: int, k: int)
    requires
        0 <= i < parts.len(),
        0 <= k < parts[i].len(),
    ensures
        parts.flatten().contains(parts[i][k]),
    decreases parts.len(),
{
    let whole = parts.flatten();
    if i == 0 {
        assert(whole[k] == parts[0][k]);
    } else {
        let rest = parts.drop_first();
        lemma_member_of_parts(rest, i - 1, k);
        let j = choose|j: int| 0 <= j < rest.flatten().len() && rest.flatten()[j] == parts[i][k];
        assert(whole[parts[0].len() + j] == parts[i][k]);
    }
}

/// Cuts the rendering of all tiles into zoom levels.
pub fn zoom_tasks<'a>(opts: &RasterOptions, jobs: &'a [TileJob]) -> (r: Vec<ZoomTask<'a>>)
    requires
        indices_in_reach(jobs@),
    ensures
        r@.len() == runs(jobs@, zoom_key()).len(),
        forall|i: int|
            0 <= i < r@.len() ==> {
                &&& (#[trigger] r@[i]).jobs@ == runs(jobs@, zoom_key())[i]
                &&& r@[i].chunk_tiles == chunk_size(*opts, r@[i].jobs@)
                &&& r@[i].completed == total_len(runs(jobs@, zoom_key()), (i + 1) as nat)
            },
{
    let ghost parts = runs(jobs@, zoom_key());
    let groups = jobs_by_zoom(jobs);
    let _total: usize = jobs.len();
    proof {
        law_runs(jobs@, zoom_key());
    }
    let mut tasks: Vec<ZoomTask<'a>> = Vec::new();
    let mut completed: usize = 0;
    let mut i: usize = 0;
    while i < groups.len()
        invariant
            i <= groups@.len(),
            slices(groups@) == parts,
            parts.flatten() == jobs@,
            _total == jobs@.len(),
            indices_in_reach(jobs@),
            completed == total_len(parts, i as nat),
            tasks@.len() == i,
            forall|k: int|
                0 <= k < i ==> {
                    &&& (#[trigger] tasks@[k]).jobs@ == parts[k]
                    &&& tasks@[k].chunk_tiles == chunk_size(*opts, tasks@[k].jobs@)
                    &&& tasks@[k].completed == total_len(parts, (k + 1) as nat)
                },
        decreases groups@.len() - i,
    {
        let group = groups[i];
        proof {
            assert(slices(groups@)[i as int] == group@);
            assert forall|k: int| 0 <= k < group@.len() implies (#[trigger] group@[k]).x
                < 0x8000_0000 && group@[k].y < 0x8000_0000 by {
                lemma_member_of_parts(parts, i as int, k);
                let j = choose|j: int| 0 <= j < jobs@.len() && jobs@[j] == parts[i as int][k];
                assert(jobs@[j].x < 0x8000_0000);
            }
            lemma_total_len(parts, (i + 1) as nat);
        }
        let chunk_tiles = chunk_tiles_for_zoom(opts, group);
        completed = completed + group.len();
        tasks.push(ZoomTask { jobs: group, chunk_tiles, completed });
        i = i + 1;
    }
    tasks
}

/// After the last zoom level all tiles are done.
pub proof fn law_zoom_tasks_cover_jobs(jobs: Seq<TileJob>)
    ensures
        total_len(runs(jobs, zoom_key()), runs(jobs, zoom_key()).len()) == jobs.len(),
{
    let parts = runs(jobs, zoom_key());
    law_runs(jobs, zoom_key());
    lemma_total_len(parts, parts.len());
    assert(parts.take(parts.len() as int) =~= parts);
}

/// The blocks of a zoom level, and how they are worked on.
pub struct ZoomChunks {
    pub chunks: Vec<Vec<TileJob>>,
    pub worker_count: usize,
    /// One worker does all blocks.
    pub sequential: bool,
    /// Bytes that the largest block takes.
    pub working_set: u64,
}

/// One worker does all blocks.
pub open spec fn one_worker(worker_count: int, chunk_count: int) -> bool {
    worker_count == 1 || chunk_count <= 1
}

/// Blocks are shared between workers exactly where there are several of both.
pub proof fn law_blocks_are_shared(workers: nat, chunk_count: nat)
    ensures
        !one_worker(useful_workers(workers, chunk_count), chunk_count as int) <==> workers >= 2
            && chunk_count >= 2,
{
}

/// Cuts a zoom level into blocks.
pub fn zoom_chunks(opts: &RasterOptions, zoom_jobs: &[TileJob], chunk_tiles: u32) -> (r: ZoomChunks)
    requires
        chunk_tiles > 0,
    ensures
        chunked(zoom_jobs@, chunk_tiles, lists(r.chunks@)),
        r.worker_count == useful_workers(opts.workers as nat, r.chunks@.len()),
        r.sequential == one_worker(r.worker_count as int, r.chunks@.len() as int),
        r.sequential == (r.worker_count == 1 || r.chunks@.len() <= 1),
        r.working_set == working_set(opts.tile_size as int, zoom_jobs@, chunk_tiles as int),
{
    let chunks = chunk_jobs(zoom_jobs, chunk_tiles);
    let workers: usize = worker_count(opts.workers, chunks.len());
    let sequential = workers == 1 || chunks.len() <= 1;
    let bytes: u64 = estimate_chunk_working_set(opts.tile_size, zoom_jobs, chunk_tiles);
    ZoomChunks { chunks, worker_count: workers, sequential, working_set: bytes }
}

/// The tiles of a zoom level are done when those of all levels before it are, and of its own; so
/// the number that is done grows by its number of tiles.
pub proof fn law_completed_tiles(parts: Seq<Seq<TileJob>>, n: nat)
    ensures
        total_len(parts, 0) == 0,
        total_len(parts, n + 1) == total_len(parts, n) + parts[n as int].len(),
{
}

/// Each way of rendering is shown by its name.
pub proof fn law_strategy_names()
    ensures
        RenderStrategy::SameCrsWebMercator.name() == "Web Mercator fast path"@,
        RenderStrategy::GeographicWgs84.name() == "EPSG:4326 fast path"@,
        RenderStrategy::GdalWarp.name() == "GDAL warp"@,
{
}

} // verus!
