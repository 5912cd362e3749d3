use pmtiler::commands::PackOptions;
use pmtiler::error::ErrorKind;
use pmtiler::metadata::{build_pack_metadata, build_raster_metadata, json_escape, AreaTexts};
use pmtiler::options::{
    ChunkTiles, GdalTuning, RasterFormat, RasterOptions, Resampling, StrategyPreference,
    WarpThreads,
};
use pmtiler::pack::{
    archive_of, read_tile_name, shows_progress, tile_path, validate_xyz, Edge, TilePath, TileSet,
    TileType,
};

fn tile(z: u8, x: u32, y: u32, byte_len: u64) -> TilePath {
    tile_path(z, x, y, format!("{z}/{x}/{y}.png"), byte_len).unwrap()
}

#[test]
fn extensions_name_formats() {
    assert_eq!(TileType::from_extension("PNG"), Some(TileType::Png));
    assert_eq!(TileType::from_extension("jpg"), Some(TileType::Jpeg));
    assert_eq!(TileType::from_extension("Jpeg"), Some(TileType::Jpeg));
    assert_eq!(TileType::from_extension("webp"), Some(TileType::Webp));
    assert_eq!(TileType::from_extension("avif"), Some(TileType::Avif));
    assert_eq!(TileType::from_extension("gif"), None);
    let all = [TileType::Png, TileType::Jpeg, TileType::Webp, TileType::Avif];
    assert_eq!(all.map(|t| t.as_str()), ["png", "jpg", "webp", "avif"]);
    assert_eq!(all.map(|t| t.code()), [2, 3, 4, 5]);
    for tile_type in all {
        assert_eq!(TileType::from_extension(tile_type.as_str()), Some(tile_type));
    }
}

#[test]
fn tile_files_are_recognised() {
    assert_eq!(read_tile_name("12", "webp"), Some((TileType::Webp, 12)));
    assert_eq!(read_tile_name("x", "webp"), None);
    assert_eq!(read_tile_name("12", "txt"), None);
    assert_eq!(read_tile_name("4294967296", "png"), None);
}

#[test]
fn tiles_lie_on_the_grid() {
    assert!(validate_xyz(0, 0, 0).is_ok());
    assert!(validate_xyz(31, (1 << 31) - 1, 0).is_ok());
    let error = validate_xyz(2, 4, 1).unwrap_err();
    assert_eq!(error.kind, ErrorKind::InvalidInput);
    assert_eq!(error.message, "tile 2/4/1 is outside XYZ bounds");
    assert_eq!(validate_xyz(2, 1, 4).unwrap_err().message, "tile 2/1/4 is outside XYZ bounds");
    assert_eq!(
        validate_xyz(32, 0, 0).unwrap_err().message,
        "PMTiles tile ids support zoom levels 0..31"
    );
}

#[test]
fn tile_files_are_described() {
    let tile = tile(1, 1, 1, 9);
    assert_eq!((tile.z, tile.x, tile.y, tile.tile_id, tile.byte_len), (1, 1, 1, 3, 9));
    assert_eq!(tile.path, "1/1/1.png");
    let error = tile_path(1, 1, 1, "big.png".to_owned(), 1 << 32).unwrap_err();
    assert_eq!(error.kind, ErrorKind::InvalidInput);
    assert_eq!(error.message, "tile exceeds PMTiles entry length limit: big.png");
    assert_eq!(
        tile_path(1, 2, 1, "x".to_owned(), 1 << 32).unwrap_err().message,
        "tile 1/2/1 is outside XYZ bounds"
    );
    assert_eq!(
        tile_path(40, 2, 1, "x".to_owned(), 0).unwrap_err().message,
        "PMTiles tile ids support zoom levels 0..31"
    );
}

#[test]
fn tiles_are_gathered_and_sorted() {
    let mut set = TileSet::new();
    set.add_tile(tile(2, 3, 1, 10), TileType::Png).unwrap();
    set.add_tile(tile(1, 0, 0, 20), TileType::Png).unwrap();
    set.add_tile(tile(3, 2, 7, 30), TileType::Png).unwrap();
    let error = set.add_tile(tile(0, 0, 0, 1), TileType::Webp).unwrap_err();
    assert_eq!(error.kind, ErrorKind::InvalidInput);
    assert_eq!(error.message, "mixed tile image formats are not supported yet");

    let packed = set.finish().ok().unwrap();
    assert_eq!(packed.tile_type, TileType::Png);
    let order: Vec<(u8, u64)> = packed.tiles.iter().map(|t| (t.z, t.byte_len)).collect();
    assert_eq!(order, vec![(1, 20), (2, 10), (3, 30)]);
    let stats = packed.stats;
    assert_eq!((stats.min_zoom, stats.max_zoom), (1, 3));
    assert_eq!((stats.min_tile_x, stats.max_tile_x), (0, 3));
    assert_eq!((stats.min_tile_y, stats.max_tile_y), (0, 7));
    assert_eq!(stats.west, Edge { index: 0, zoom: 1 });
    assert_eq!(stats.north, Edge { index: 0, zoom: 1 });
    assert_eq!(stats.east, Edge { index: 4, zoom: 2 });
    assert_eq!(stats.south, Edge { index: 8, zoom: 3 });

    let writer = archive_of(&packed.tiles);
    let rows: Vec<(u64, u32)> = writer.entries.iter().map(|e| (e.offset, e.length)).collect();
    assert_eq!(rows, vec![(0, 20), (20, 10), (30, 30)]);
    assert_eq!(writer.tile_data_length, 60);
}

#[test]
fn edges_are_compared_across_zooms() {
    let mut set = TileSet::new();
    set.add_tile(tile(3, 3, 3, 1), TileType::Jpeg).unwrap();
    set.add_tile(tile(4, 5, 6, 1), TileType::Jpeg).unwrap();
    let stats = set.stats;
    // 5/16 < 3/8, 6/16 = 3/8, 6/16 < 4/8 and 7/16 < 4/8.
    assert_eq!(stats.west, Edge { index: 5, zoom: 4 });
    assert_eq!(stats.north, Edge { index: 3, zoom: 3 });
    assert_eq!(stats.east, Edge { index: 4, zoom: 3 });
    assert_eq!(stats.south, Edge { index: 4, zoom: 3 });
}

#[test]
fn no_tiles_are_an_error() {
    let error = TileSet::new().finish().err().unwrap();
    assert_eq!(error.kind, ErrorKind::InvalidInput);
    assert_eq!(error.message, "no XYZ image tiles found");
}

#[test]
fn progress_is_shown_now_and_then() {
    assert!(shows_progress(100, 250));
    assert!(!shows_progress(101, 250));
    assert!(shows_progress(250, 250));
}

#[test]
fn json_texts_are_escaped() {
    assert_eq!(json_escape("plain é"), "plain é");
    assert_eq!(json_escape("a\"b\\c\nd\re\tf"), "a\\\"b\\\\c\\nd\\re\\tf");
}

fn area() -> AreaTexts {
    AreaTexts {
        west: "-1.0000000".to_owned(),
        south: "-2.0000000".to_owned(),
        east: "3.0000000".to_owned(),
        north: "4.0000000".to_owned(),
        center_lon: "1.0000000".to_owned(),
        center_lat: "1.5000000".to_owned(),
    }
}

#[test]
fn packed_metadata_are_json() {
    let mut opts = PackOptions {
        input_dir: "some/dir".to_owned(),
        output: "out.pmtiles".to_owned(),
        name: Some("N \"1\"".to_owned()),
        description: Some("D".to_owned()),
        attribution: Some("A".to_owned()),
        tile_size: 256,
    };
    let dir = Some("dir".to_owned());
    assert_eq!(
        build_pack_metadata(&opts, &dir, "png", 1, 9, &area()),
        "{\"name\":\"N \\\"1\\\"\",\"description\":\"D\",\"attribution\":\"A\",\"type\":\"overlay\",\
         \"version\":\"1.0.0\",\"format\":\"png\",\"tileSize\":256,\"minzoom\":1,\"maxzoom\":9,\
         \"bounds\":[-1.0000000,-2.0000000,3.0000000,4.0000000],\
         \"center\":[1.0000000,1.5000000,1]}"
    );
    opts.name = None;
    opts.description = None;
    opts.attribution = None;
    let text = build_pack_metadata(&opts, &dir, "png", 1, 9, &area());
    assert!(text.starts_with("{\"name\":\"dir\",\"description\":\"dir\",\"attribution\":\"\","));
    let text = build_pack_metadata(&opts, &None, "png", 1, 9, &area());
    assert!(text.starts_with(
        "{\"name\":\"pmtiler archive\",\"description\":\"pmtiler archive\",\"attribution\":\"\","
    ));
}

#[test]
fn rendered_metadata_are_json() {
    let opts = RasterOptions {
        input: "a\\b.tif".to_owned(),
        output: "out.pmtiles".to_owned(),
        min_zoom: 2,
        max_zoom: 5,
        format: RasterFormat::Jpeg,
        tile_size: 512,
        workers: 2,
        chunk_tiles: ChunkTiles::Fixed(8),
        warp_memory_bytes: 1024,
        warp_threads: WarpThreads::All,
        resampling: Resampling::Average,
        strategy: StrategyPreference::Auto,
        webp_method: 4,
        gdal_tuning: GdalTuning {
            cache_bytes: None,
            config_options: Vec::new(),
            open_options: Vec::new(),
        },
        warp_options: Vec::new(),
        plan_only: false,
    };
    assert_eq!(
        build_raster_metadata(&opts, &Some("out.pmtiles".to_owned()), &area()),
        "{\"name\":\"out.pmtiles\",\"description\":\"a\\\\b.tif\",\"attribution\":\"\",\
         \"type\":\"overlay\",\"version\":\"1.0.0\",\"format\":\"jpg\",\"tileSize\":512,\
         \"minzoom\":2,\"maxzoom\":5,\"bounds\":[-1.0000000,-2.0000000,3.0000000,4.0000000],\
         \"center\":[1.0000000,1.5000000,2]}"
    );
    let text = build_raster_metadata(&opts, &None, &area());
    assert!(text.starts_with("{\"name\":\"pmtiler raster\","));
}
