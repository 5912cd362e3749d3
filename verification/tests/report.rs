use pmtiler::header::{Header, ParsedHeader};
use pmtiler::jobs::{enumerate_tile_jobs, TileRange};
use pmtiler::options::{
    ChunkTiles, GdalTuning, RasterFormat, RasterOptions, Resampling, StrategyPreference,
    WarpThreads,
};
use pmtiler::pack::TileType;
use pmtiler::render::RenderStrategy;
use pmtiler::report::{
    bool_label, chunk_done_line, chunks_begun_line, compression_name, field_line, format_bounds,
    format_tile_count, inspect_lines, metadata_lines, pack_progress_line, pack_summary_lines,
    plan_lines, render_intro_lines, render_summary_lines, status_line, tile_type_name,
    zoom_begun_line, zoom_done_line, PlanTexts,
};

fn pair(name: &str, value: &str) -> (String, String) {
    (name.to_owned(), value.to_owned())
}

fn options() -> RasterOptions {
    RasterOptions {
        input: "in.tif".to_owned(),
        output: "out.pmtiles".to_owned(),
        min_zoom: 0,
        max_zoom: 2,
        format: RasterFormat::Webp,
        tile_size: 512,
        workers: 8,
        chunk_tiles: ChunkTiles::Auto,
        warp_memory_bytes: 512 * 1024 * 1024,
        warp_threads: WarpThreads::All,
        resampling: Resampling::Bilinear,
        strategy: StrategyPreference::Auto,
        webp_method: 4,
        gdal_tuning: GdalTuning {
            cache_bytes: Some(64 * 1024 * 1024),
            config_options: vec![pair("A", "1")],
            open_options: vec![pair("B", "2"), pair("C", "3")],
        },
        warp_options: vec![pair("SOURCE_EXTRA", "5")],
        plan_only: true,
    }
}

fn texts() -> PlanTexts {
    PlanTexts {
        quality: "100.0".to_owned(),
        bounds: "B".to_owned(),
        first_tile: "F".to_owned(),
    }
}

#[test]
fn fields_line_up() {
    assert_eq!(field_line("Tiles", "5"), format!("  {:<20} {}", "Tiles", "5"));
    assert_eq!(
        field_line("A label of more than twenty", "x"),
        "  A label of more than twenty x"
    );
    assert_eq!(status_line("Zoom z3 é", "y"), format!("  {:<18} {}", "Zoom z3 é", "y"));
}

#[test]
fn codes_have_names() {
    let names: Vec<&str> = (0..8).map(tile_type_name).collect();
    assert_eq!(names, ["unknown", "mvt", "png", "jpeg", "webp", "avif", "mlt", "unknown"]);
    let names: Vec<&str> = (0..6).map(compression_name).collect();
    assert_eq!(names, ["unknown", "none", "gzip", "brotli", "zstd", "unknown"]);
    assert_eq!((bool_label(true), bool_label(false)), ("yes", "no"));
    assert_eq!(format_tile_count(1), "1 tile");
    assert_eq!(format_tile_count(0), "0 tiles");
    assert_eq!(format_tile_count(5461), "5,461 tiles");
    assert_eq!(format_bounds("1", "2", "3", "4"), "1, 2, 3, 4");
}

fn header() -> ParsedHeader {
    ParsedHeader {
        version: 3,
        fields: Header {
            root_offset: 127,
            root_length: 168,
            metadata_offset: 295,
            metadata_length: 343,
            leaf_directory_offset: 638,
            leaf_directory_length: 525_312,
            tile_data_offset: 2_222_815,
            tile_data_length: 4_509_715_660,
            addressed_tiles_count: 92_612,
            tile_entries_count: 92_612,
            tile_contents_count: 92_612,
            clustered: true,
            internal_compression: 1,
            tile_compression: 2,
            tile_type: 4,
            min_zoom: 0,
            max_zoom: 11,
            min_lon_e7: -1_260_015_000,
            min_lat_e7: 249_985_000,
            max_lon_e7: -599_985_000,
            max_lat_e7: 500_015_000,
            center_zoom: 0,
            center_lon_e7: -930_000_000,
            center_lat_e7: 375_000_000,
        },
    }
}

#[test]
fn archives_are_inspected() {
    assert_eq!(
        inspect_lines("a.pmtiles", &header()),
        vec![
            "file: a.pmtiles",
            "version: 3",
            "tile type: webp",
            "zoom: 0..11",
            "bounds: [-126.0015000, 24.9985000, -59.9985000, 50.0015000]",
            "addressed tiles: 92612",
            "tile entries: 92612",
            "tile contents: 92612",
            "tile data: 4.2 GiB @ 2.1 MiB",
            "root: 168 B @ 127 B",
            "metadata: 343 B @ 295 B",
            "leaves: 513.0 KiB @ 638 B",
            "clustered: yes",
            "tile compression: gzip",
            "internal compression: none",
            "center: -93.0000000, 37.5000000, z0",
        ]
    );
}

#[test]
fn a_world_archive_is_inspected() {
    let mut header = header();
    header.fields.max_zoom = 5;
    header.fields.min_lon_e7 = -1_800_000_000;
    header.fields.min_lat_e7 = -850_511_288;
    header.fields.max_lon_e7 = 1_800_000_000;
    header.fields.max_lat_e7 = 850_511_288;
    header.fields.addressed_tiles_count = 1365;
    header.fields.tile_entries_count = 1365;
    header.fields.tile_contents_count = 1365;
    assert_eq!(
        inspect_lines("datasets/blue_marble.pmtiles", &header)[..8],
        [
            "file: datasets/blue_marble.pmtiles",
            "version: 3",
            "tile type: webp",
            "zoom: 0..5",
            "bounds: [-180.0000000, -85.0511288, 180.0000000, 85.0511288]",
            "addressed tiles: 1365",
            "tile entries: 1365",
            "tile contents: 1365",
        ]
    );
}

#[test]
fn metadata_are_shown_where_they_can_be_read() {
    let mut header = header();
    assert_eq!(metadata_lines(&header, "{}"), vec!["json: {}"]);
    header.fields.internal_compression = 2;
    assert_eq!(metadata_lines(&header, "{}"), vec!["payload: 343 B (gzip)"]);
}

#[test]
fn plans_are_shown() {
    let ranges = (0..3)
        .map(|z| TileRange { min_x: 0, max_x: (1 << z) - 1, min_y: 0, max_y: (1 << z) - 1 })
        .collect();
    let jobs = enumerate_tile_jobs(&ranges, 0, 2).unwrap();
    let mut opts = options();
    assert_eq!(
        plan_lines(&opts, &jobs, &texts()),
        vec![
            "Render Plan",
            "  Input                in.tif",
            "  Output               out.pmtiles",
            "  Format               webp",
            "  Tile size            512 px",
            "  Workers              8",
            "  Warp memory          512.0 MiB",
            "  Warp threads         all",
            "  Resampling           bilinear",
            "  Strategy             auto",
            "  WebP                 quality 100.0, method 4",
            "",
            "Warp Options",
            "  SOURCE_EXTRA         5",
            "",
            "Coverage",
            "  Chunk tiles          auto",
            "  GDAL cache           64.0 MiB",
            "  GDAL open options    2",
            "  GDAL config          1",
            "  Zooms                0..2",
            "  Bounds               B",
            "  Tiles                21",
            "  First tile           F",
            "",
            "Tiles by Zoom",
            "  z0                   1",
            "  z1                   4",
            "  z2                   16",
            "",
            "Auto Chunk Tiles",
            "  z0                   4",
            "  z1                   4",
            "  z2                   4",
        ]
    );

    opts.format = RasterFormat::Png;
    opts.chunk_tiles = ChunkTiles::Disabled;
    opts.warp_options.clear();
    opts.gdal_tuning.cache_bytes = None;
    opts.gdal_tuning.config_options.clear();
    opts.gdal_tuning.open_options.clear();
    let lines = plan_lines(&opts, &[], &texts());
    assert_eq!(lines.len(), 21);
    assert_eq!(lines[3], "  Format               png");
    assert_eq!(lines[10], "");
    assert_eq!(lines[12], "  Chunk tiles          disabled");
    assert_eq!(lines[15], "  Tiles                0");
    assert_eq!(lines[20], "  z2                   0");
}

#[test]
fn work_is_summed_up() {
    assert_eq!(
        pack_summary_lines("out.pmtiles", 1365, 0, 5, TileType::Jpeg, "B", 2048),
        vec![
            "Created out.pmtiles",
            "  Tiles                1,365",
            "  Zooms                0..5",
            "  Format               jpg",
            "  Bounds               B",
            "  Size                 2.0 KiB",
        ]
    );
    assert_eq!(
        render_summary_lines(&options(), 5461, 100, "65.2", "83.8"),
        vec![
            "Created out.pmtiles",
            "  Tiles                5,461",
            "  Zooms                0..2",
            "  Format               webp",
            "  Tile size            512 px",
            "  Size                 100 B",
            "  Elapsed              65.2s",
            "  Throughput           83.8 tiles/s",
        ]
    );
    assert_eq!(
        render_intro_lines(&options(), 1, RenderStrategy::GeographicWgs84, &texts()),
        vec![
            "Rendering",
            "  Input              in.tif",
            "  Output             out.pmtiles",
            "  Zooms              0..2",
            "  Tiles              1 tile",
            "  Format             webp, 512 px",
            "  WebP               quality 100.0, method 4",
            "  Strategy           EPSG:4326 fast path",
            "  Bounds             B",
            "",
        ]
    );
}

#[test]
fn progress_is_told() {
    assert_eq!(
        chunks_begun_line(6, 4096, 64, 8, 8, RenderStrategy::GdalWarp, 1 << 27),
        "  Zoom z6            rendering 4,096 tiles in 64 chunks of up to 8x8 tiles \
         (8 workers, GDAL warp, 128.0 MiB)"
    );
    assert_eq!(zoom_begun_line(0, 1), "  Zoom z0            rendering 1 tile");
    assert_eq!(
        chunk_done_line(3, 2, 4, "1.5", 16),
        "  Zoom z3            chunk 2/4 done in 1.5s (16 tiles)"
    );
    assert_eq!(
        zoom_done_line(3, "2.0", 85, 5461, "2"),
        "  Zoom z3            done in 2.0s (85 of 5,461, 2%)"
    );
    assert_eq!(
        pack_progress_line(1200, 5461, "22", "0.3"),
        "Progress: 1,200/5,461 tiles (22%) elapsed 0.3s"
    );
}
