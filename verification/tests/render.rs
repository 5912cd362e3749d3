use pmtiler::error::ErrorKind;
use pmtiler::jobs::{TileJob, TileRange};
use pmtiler::options::{
    ChunkTiles, GdalTuning, RasterFormat, RasterOptions, Resampling, StrategyPreference,
    WarpThreads,
};
use pmtiler::render::{
    choose_encoder, config_settings, driver_name, edge_points, fast_path_resampling, image_bytes,
    matches_epsg, open_option_texts, range_pixels, rendered_bands, require_pixels, row_request, sampled_columns,
    select_render_strategy, strategy_by_options, vsimem_path, warp_option_list, webp_size,
    window_between, window_request, ColumnRange, EdgePoint, Encoder, PixelWindow, RenderStrategy,
    RowCache, RowRequest, RowStep, SamplePair, SourceCrs, WebpSize, WindowRequest,
};

fn pair(name: &str, value: &str) -> (String, String) {
    (name.to_owned(), value.to_owned())
}

fn options() -> RasterOptions {
    RasterOptions {
        input: "in.tif".to_owned(),
        output: "out.pmtiles".to_owned(),
        min_zoom: 0,
        max_zoom: 1,
        format: RasterFormat::Png,
        tile_size: 256,
        workers: 2,
        chunk_tiles: ChunkTiles::Fixed(8),
        warp_memory_bytes: 1024,
        warp_threads: WarpThreads::Auto,
        resampling: Resampling::Average,
        strategy: StrategyPreference::GdalWarp,
        webp_method: 4,
        gdal_tuning: GdalTuning {
            cache_bytes: Some(1 << 26),
            config_options: vec![pair("A", "1"), pair("B", "2")],
            open_options: vec![pair("C", "3"), pair("D", "4")],
        },
        warp_options: vec![pair("SKIP_NOSOURCE", "NO")],
        plan_only: false,
    }
}

#[test]
fn users_choose_strategies() {
    for crs in [SourceCrs::WebMercator, SourceCrs::Wgs84, SourceCrs::Other] {
        for resampling in [Resampling::Nearest, Resampling::Cubic] {
            for (preference, strategy) in [
                (StrategyPreference::GdalWarp, RenderStrategy::GdalWarp),
                (StrategyPreference::SameCrs, RenderStrategy::SameCrsWebMercator),
                (StrategyPreference::Geographic, RenderStrategy::GeographicWgs84),
            ] {
                assert_eq!(strategy_by_options(preference, resampling), Some(strategy));
                assert_eq!(select_render_strategy(preference, resampling, crs), strategy);
            }
        }
    }
}

#[test]
fn sources_decide_where_users_do_not() {
    let auto = StrategyPreference::Auto;
    for (crs, strategy) in [
        (SourceCrs::WebMercator, RenderStrategy::SameCrsWebMercator),
        (SourceCrs::Wgs84, RenderStrategy::GeographicWgs84),
        (SourceCrs::Other, RenderStrategy::GdalWarp),
    ] {
        for resampling in [Resampling::Nearest, Resampling::Bilinear] {
            assert_eq!(select_render_strategy(auto, resampling, crs), strategy);
            assert_eq!(strategy_by_options(auto, resampling), None);
            assert!(fast_path_resampling(resampling));
        }
        assert_eq!(
            select_render_strategy(auto, Resampling::Lanczos, crs),
            RenderStrategy::GdalWarp
        );
    }
    assert!(!fast_path_resampling(Resampling::Average));
    assert!(matches_epsg(true, None, 3857));
    assert!(matches_epsg(false, Some(3857), 3857));
    assert!(!matches_epsg(false, Some(4326), 3857));
    assert!(!matches_epsg(false, None, 3857));
}

#[test]
fn strategies_have_labels() {
    assert_eq!(RenderStrategy::SameCrsWebMercator.label(), "Web Mercator fast path");
    assert_eq!(RenderStrategy::GeographicWgs84.label(), "EPSG:4326 fast path");
    assert_eq!(RenderStrategy::GdalWarp.label(), "GDAL warp");
}

#[test]
fn images_are_measured() {
    assert_eq!([0, 1, 3, 4, 7].map(rendered_bands), [1, 1, 3, 4, 4]);
    assert!(require_pixels(1, 1).is_ok());
    let error = require_pixels(5, 0).unwrap_err();
    assert_eq!(error.kind, ErrorKind::InvalidInput);
    assert_eq!(error.message, "raster has no pixels");
    assert!(require_pixels(0, 5).is_err());
    let range = TileRange { min_x: 2, max_x: 4, min_y: 7, max_y: 7 };
    assert_eq!(range_pixels(&range, 512), (1536, 512));
    assert_eq!(image_bytes(1536, 512, 3), Some(2_359_296));
    assert_eq!(image_bytes(usize::MAX, 2, 1), None);
    assert_eq!(image_bytes(usize::MAX, 1, 2), None);
    assert_eq!(
        window_between(3, 10, 2, 4),
        Some(PixelWindow { x: 3, y: 2, width: 7, height: 2 })
    );
    assert_eq!(window_between(3, 3, 2, 4), None);
    assert_eq!(window_between(3, 10, 5, 4), None);
}

#[test]
fn reads_keep_to_the_range_of_the_library() {
    assert_eq!(
        row_request(5, 6, 100, 3).unwrap(),
        RowRequest { x: 5, y: 6, width: 100, band_count: 3, line_stride: 300 }
    );
    let over = 1usize << 31;
    for (args, message) in [
        ((over, over, over, 1), "source column exceeds GDAL int range"),
        ((0, over, over, 1), "source row exceeds GDAL int range"),
        ((0, 0, over, 1), "source width exceeds GDAL int range"),
        ((0, 0, 1, over), "band count exceeds GDAL int range"),
        ((0, 0, over / 2, 2), "line stride exceeds GDAL int range"),
    ] {
        let error = row_request(args.0, args.1, args.2, args.3).unwrap_err();
        assert_eq!(error.kind, ErrorKind::InvalidInput);
        assert_eq!(error.message, message);
    }
    assert_eq!(
        window_request(over - 1, 7, 4).unwrap(),
        WindowRequest { width: i32::MAX, height: 7, band_count: 4, line_stride: 0x1_ffff_fffc }
    );
    for (args, message) in [
        ((over, 1, 1), "destination width exceeds GDAL int range"),
        ((1, over, 1), "destination height exceeds GDAL int range"),
        ((1, 1, over), "band count exceeds GDAL int range"),
    ] {
        let error = window_request(args.0, args.1, args.2).unwrap_err();
        assert_eq!(error.message, message);
    }
    assert_eq!(webp_size(512, 2048).unwrap(), WebpSize { side: 512, stride: 2048 });
    assert_eq!(webp_size(over, 1).unwrap_err().message, "tile width exceeds libwebp int range");
    assert_eq!(webp_size(1, over).unwrap_err().message, "tile stride exceeds libwebp int range");
}

#[test]
fn samples_use_a_range_of_columns() {
    let sample = |lower, upper| SamplePair { lower, upper };
    assert_eq!(
        sampled_columns(&vec![sample(4, 5), sample(2, 3), sample(7, 8), sample(6, 6)]),
        ColumnRange { start: 2, width: 7 }
    );
    assert_eq!(sampled_columns(&vec![sample(3, 3)]), ColumnRange { start: 3, width: 1 });
    assert_eq!(sampled_columns(&Vec::new()), ColumnRange { start: 0, width: 1 });
}

#[test]
fn rows_are_read_only_where_needed() {
    let mut cache = RowCache::new();
    assert_eq!(cache.advance(3, 4), (RowStep::Read(3), RowStep::Read(4)));
    assert_eq!(cache.advance(3, 4), (RowStep::Keep, RowStep::Keep));
    assert_eq!(cache.advance(4, 5), (RowStep::Read(4), RowStep::Read(5)));
    assert_eq!(cache.advance(6, 6), (RowStep::Read(6), RowStep::Copy));
    assert_eq!(cache.advance(5, 6), (RowStep::Read(5), RowStep::Keep));
    assert_eq!(cache, RowCache { first: Some(5), second: Some(6) });
}

#[test]
fn encoders_fit_formats_and_bands() {
    assert_eq!(choose_encoder(RasterFormat::Webp, 3), Encoder::WebpRgb);
    assert_eq!(choose_encoder(RasterFormat::Webp, 4), Encoder::WebpRgba);
    assert_eq!(
        choose_encoder(RasterFormat::Webp, 1),
        Encoder::Driver { with_quality: true }
    );
    assert_eq!(
        choose_encoder(RasterFormat::Jpeg, 3),
        Encoder::Driver { with_quality: true }
    );
    assert_eq!(
        choose_encoder(RasterFormat::Png, 4),
        Encoder::Driver { with_quality: false }
    );
    assert_eq!(
        [RasterFormat::Png, RasterFormat::Jpeg, RasterFormat::Webp].map(driver_name),
        ["PNG", "JPEG", "WEBP"]
    );
    let job = TileJob { z: 3, x: 5, y: 7, tile_id: 0 };
    assert_eq!(vsimem_path(1234, &job, RasterFormat::Jpeg), "/vsimem/pmtiler-1234-3-5-7.jpg");
}

#[test]
fn library_options_are_listed() {
    let opts = options();
    assert_eq!(
        warp_option_list(&opts, 4, 16),
        vec![
            pair("NUM_THREADS", "4"),
            pair("SKIP_NOSOURCE", "YES"),
            pair("SKIP_NOSOURCE", "NO"),
        ]
    );
    assert_eq!(
        config_settings(&opts.gdal_tuning),
        vec![pair("GDAL_CACHEMAX", "67108864"), pair("A", "1"), pair("B", "2")]
    );
    assert_eq!(open_option_texts(&opts.gdal_tuning), vec!["C=3", "D=4"]);
    let plain = GdalTuning {
        cache_bytes: None,
        config_options: vec![pair("A", "1")],
        open_options: Vec::new(),
    };
    assert_eq!(config_settings(&plain), vec![pair("A", "1")]);
    assert!(open_option_texts(&plain).is_empty());
}

#[test]
fn points_go_round_the_edge() {
    let points = edge_points();
    assert_eq!(points.len(), 84);
    assert_eq!(points[0], EdgePoint { x: 0, y: 0 });
    assert_eq!(points[1], EdgePoint { x: 0, y: 21 });
    assert_eq!(points[43], EdgePoint { x: 21, y: 21 });
    assert_eq!(points[44], EdgePoint { x: 0, y: 1 });
    assert_eq!(points[83], EdgePoint { x: 21, y: 20 });
    assert!(points.iter().all(|p| p.x % 21 == 0 || p.y % 21 == 0));
    let mut cells: Vec<(u32, u32)> = points.iter().map(|p| (p.x, p.y)).collect();
    cells.sort();
    cells.dedup();
    assert_eq!(cells.len(), 84);
}
