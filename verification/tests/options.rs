use pmtiler::args::{expect_arg, parse_args, NumberSetting, RasterOutcome};
use pmtiler::commands::{
    parse_command, parse_inspect_args, parse_pack_args, Command, InspectOutcome, PackOutcome,
};
use pmtiler::error::ErrorKind;
use pmtiler::options::{
    parse_chunk_tiles, parse_format, parse_gdal_disable_readdir, parse_name_value,
    parse_resampling, parse_strategy, parse_tile_size, parse_warp_threads, parse_webp_method,
    parse_workers, parse_zoom, parse_zoom_part, split_bounds, split_memory, ChunkTiles,
    RasterFormat, RasterOptions, Resampling, StrategyPreference, WarpThreads,
};

fn strings(args: &[&str]) -> Vec<String> {
    args.iter().map(|arg| (*arg).to_owned()).collect()
}

fn raster(args: &[&str]) -> RasterOptions {
    match parse_args(&strings(args), 6).outcome {
        RasterOutcome::Options(options) => options,
        other => panic!("{other:?}"),
    }
}

fn raster_error(args: &[&str]) -> String {
    match parse_args(&strings(args), 6).outcome {
        RasterOutcome::Refused(error) => {
            assert_eq!(error.kind, ErrorKind::InvalidInput);
            error.message
        }
        other => panic!("{other:?}"),
    }
}

#[test]
fn strategy_parser_accepts_expected_values() {
    assert_eq!(parse_strategy("auto").unwrap(), StrategyPreference::Auto);
    assert_eq!(
        parse_strategy("same-crs").unwrap(),
        StrategyPreference::SameCrs
    );
    assert_eq!(
        parse_strategy("geographic").unwrap(),
        StrategyPreference::Geographic
    );
    assert_eq!(
        parse_strategy("gdal-warp").unwrap(),
        StrategyPreference::GdalWarp
    );
}

#[test]
fn chunk_parser_accepts_auto_fixed_and_disabled() {
    assert_eq!(parse_chunk_tiles("auto").unwrap(), ChunkTiles::Auto);
    assert_eq!(parse_chunk_tiles("4").unwrap(), ChunkTiles::Fixed(4));
    assert_eq!(parse_chunk_tiles("off").unwrap(), ChunkTiles::Disabled);
}

#[test]
fn strategies_have_other_spellings() {
    assert_eq!(parse_strategy("same_crs").unwrap(), StrategyPreference::SameCrs);
    assert_eq!(parse_strategy("wgs84").unwrap(), StrategyPreference::Geographic);
    assert_eq!(parse_strategy("gdal_warp").unwrap(), StrategyPreference::GdalWarp);
    let error = parse_strategy("Auto").unwrap_err();
    assert_eq!(error.kind, ErrorKind::InvalidInput);
    assert_eq!(
        error.message,
        "--strategy must be auto, same-crs, geographic, or gdal-warp"
    );
}

#[test]
fn chunk_parser_refuses_other_values() {
    assert_eq!(parse_chunk_tiles("AUTO").unwrap(), ChunkTiles::Auto);
    assert_eq!(parse_chunk_tiles("+16").unwrap(), ChunkTiles::Fixed(16));
    for word in ["disabled", "disable", "none"] {
        assert_eq!(parse_chunk_tiles(word).unwrap(), ChunkTiles::Disabled);
    }
    assert_eq!(
        parse_chunk_tiles("0").unwrap_err().message,
        "--chunk-tiles must be greater than zero or disabled"
    );
    for word in ["", "Off", "-1", "4294967296", "4 "] {
        assert_eq!(
            parse_chunk_tiles(word).unwrap_err().message,
            "--chunk-tiles must be auto, an integer, or disabled"
        );
    }
}

#[test]
fn zooms_are_single_or_ranges() {
    assert_eq!(parse_zoom("7").unwrap(), (7, 7));
    assert_eq!(parse_zoom("0-13").unwrap(), (0, 13));
    assert_eq!(parse_zoom("13-2").unwrap(), (13, 2));
    assert_eq!(parse_zoom("+3-4").unwrap(), (3, 4));
    assert_eq!(parse_zoom_part("255").unwrap(), 255);
    for word in ["", "-", "1-", "-1", "a", "1-2-3", "256", "1..2"] {
        assert_eq!(
            parse_zoom(word).unwrap_err().message,
            "--zoom must be a zoom or range like 0-13"
        );
    }
}

#[test]
fn formats_and_resampling_have_names() {
    assert_eq!(parse_format("png").unwrap(), RasterFormat::Png);
    assert_eq!(parse_format("jpeg").unwrap(), RasterFormat::Jpeg);
    assert_eq!(parse_format("jpg").unwrap(), RasterFormat::Jpeg);
    assert_eq!(parse_format("webp").unwrap(), RasterFormat::Webp);
    assert_eq!(
        parse_format("PNG").unwrap_err().message,
        "--format must be png, jpeg, jpg, or webp"
    );
    for (name, value) in [
        ("near", Resampling::Nearest),
        ("nearest", Resampling::Nearest),
        ("bilinear", Resampling::Bilinear),
        ("cubic", Resampling::Cubic),
        ("cubicspline", Resampling::CubicSpline),
        ("cubic_spline", Resampling::CubicSpline),
        ("lanczos", Resampling::Lanczos),
        ("average", Resampling::Average),
    ] {
        assert_eq!(parse_resampling(name).unwrap(), value);
    }
    assert_eq!(
        parse_resampling("mode").unwrap_err().message,
        "--resampling must be nearest, bilinear, cubic, cubicspline, lanczos, or average"
    );
}

#[test]
fn labels_are_read_back() {
    for format in [RasterFormat::Png, RasterFormat::Jpeg, RasterFormat::Webp] {
        assert_eq!(parse_format(format.as_str()).unwrap(), format);
    }
    for resampling in [
        Resampling::Nearest,
        Resampling::Bilinear,
        Resampling::Cubic,
        Resampling::CubicSpline,
        Resampling::Lanczos,
        Resampling::Average,
    ] {
        assert_eq!(parse_resampling(resampling.label()).unwrap(), resampling);
    }
    for strategy in [
        StrategyPreference::Auto,
        StrategyPreference::SameCrs,
        StrategyPreference::Geographic,
        StrategyPreference::GdalWarp,
    ] {
        assert_eq!(parse_strategy(strategy.label()).unwrap(), strategy);
    }
    for threads in [WarpThreads::Auto, WarpThreads::All, WarpThreads::Count(12)] {
        assert_eq!(parse_warp_threads(&threads.label()).unwrap(), threads);
    }
    for chunks in [ChunkTiles::Auto, ChunkTiles::Disabled, ChunkTiles::Fixed(37)] {
        assert_eq!(parse_chunk_tiles(&chunks.label()).unwrap(), chunks);
    }
    assert_eq!(RasterFormat::Jpeg.as_str(), "jpg");
    assert_eq!(
        [RasterFormat::Png, RasterFormat::Jpeg, RasterFormat::Webp].map(|f| f.pmtiles_type()),
        [2, 3, 4]
    );
}

#[test]
fn sizes_and_workers_are_positive() {
    assert_eq!(parse_tile_size("512").unwrap(), 512);
    assert_eq!(
        parse_tile_size("0").unwrap_err().message,
        "--tile-size must be greater than zero"
    );
    assert_eq!(parse_tile_size("x").unwrap_err().message, "--tile-size must be an integer");
    assert_eq!(parse_workers("8").unwrap(), 8);
    assert_eq!(parse_workers("18446744073709551615").unwrap(), usize::MAX);
    assert_eq!(
        parse_workers("0").unwrap_err().message,
        "--workers must be greater than zero"
    );
    assert_eq!(parse_workers("1.5").unwrap_err().message, "--workers must be an integer");
    assert_eq!(
        parse_workers("18446744073709551616").unwrap_err().message,
        "--workers must be an integer"
    );
}

#[test]
fn warp_threads_are_shared() {
    assert_eq!(parse_warp_threads("ALL_CPUS").unwrap(), WarpThreads::All);
    assert_eq!(
        parse_warp_threads("0").unwrap_err().message,
        "--warp-threads must be greater than zero"
    );
    assert_eq!(
        parse_warp_threads("some").unwrap_err().message,
        "--warp-threads must be all or an integer"
    );
    assert_eq!(WarpThreads::Auto.as_gdal_value(1, 16), "ALL_CPUS");
    assert_eq!(WarpThreads::Auto.as_gdal_value(0, 16), "ALL_CPUS");
    assert_eq!(WarpThreads::Auto.as_gdal_value(5, 16), "3");
    assert_eq!(WarpThreads::Auto.as_gdal_value(32, 16), "1");
    assert_eq!(WarpThreads::All.as_gdal_value(5, 16), "ALL_CPUS");
    assert_eq!(WarpThreads::Count(7).as_gdal_value(5, 16), "7");
}

#[test]
fn webp_methods_go_from_0_to_6() {
    assert_eq!(parse_webp_method("0").unwrap(), 0);
    assert_eq!(parse_webp_method("+6").unwrap(), 6);
    assert_eq!(parse_webp_method("-0").unwrap(), 0);
    for word in ["7", "-1", "2147483647", "-2147483648"] {
        assert_eq!(
            parse_webp_method(word).unwrap_err().message,
            "--webp-method must be between 0 and 6"
        );
    }
    for word in ["", "-", "2147483648", "x"] {
        assert_eq!(
            parse_webp_method(word).unwrap_err().message,
            "--webp-method must be an integer from 0 to 6"
        );
    }
}

#[test]
fn directory_listing_can_be_disabled() {
    for word in ["true", "YES", "on"] {
        assert_eq!(parse_gdal_disable_readdir(word).unwrap(), "TRUE");
    }
    for word in ["false", "No", "OFF"] {
        assert_eq!(parse_gdal_disable_readdir(word).unwrap(), "FALSE");
    }
    for word in ["empty_dir", "empty-dir", "Empty"] {
        assert_eq!(parse_gdal_disable_readdir(word).unwrap(), "EMPTY_DIR");
    }
    assert_eq!(
        parse_gdal_disable_readdir("maybe").unwrap_err().message,
        "--gdal-disable-readdir must be true, false, or empty-dir"
    );
}

#[test]
fn names_and_values_are_split_at_the_first_sign() {
    assert_eq!(
        parse_name_value("A=B=C").unwrap(),
        ("A".to_owned(), "B=C".to_owned())
    );
    for word in ["", "A", "=B", "A="] {
        assert_eq!(
            parse_name_value(word).unwrap_err().message,
            "--warp-option must be NAME=VALUE"
        );
    }
}

#[test]
fn bounds_have_four_parts() {
    assert_eq!(split_bounds("-180,-85.5,,x").unwrap(), vec!["-180", "-85.5", "", "x"]);
    for word in ["", "1,2,3", "1,2,3,4,5"] {
        assert_eq!(
            split_bounds(word).unwrap_err().message,
            "--bounds must be west,south,east,north"
        );
    }
}

#[test]
fn memory_has_a_unit() {
    let cases = [
        ("512M", "512", 1024 * 1024),
        (" 1.5g\u{3000}", "1.5", 1024 * 1024 * 1024),
        ("64k", "64", 1024),
        ("64K", "64", 1024),
        ("100", "100", 1024 * 1024),
        ("\t2 G\n", "2 ", 1024 * 1024 * 1024),
        ("m", "", 1024 * 1024),
    ];
    for (text, number, unit) in cases {
        assert_eq!(split_memory(text).unwrap(), (number.to_owned(), unit));
    }
    for text in ["", "  ", "\u{a0}\u{2003}"] {
        assert_eq!(split_memory(text).unwrap_err().message, "--warp-memory requires a value");
    }
}

#[test]
fn white_space_is_that_of_unicode() {
    for code in 0..=0x10ffff_u32 {
        if let Some(c) = char::from_u32(code) {
            if c.is_whitespace() {
                assert!(split_memory(&c.to_string()).is_err());
            } else if code < 0x4000 {
                assert!(split_memory(&c.to_string()).is_ok());
            }
        }
    }
}

#[test]
fn raster_arguments_have_defaults() {
    let options = raster(&["in.tif", "out.pmtiles", "--zoom", "0-5"]);
    assert_eq!(options.input, "in.tif");
    assert_eq!(options.output, "out.pmtiles");
    assert_eq!((options.min_zoom, options.max_zoom), (0, 5));
    assert_eq!(options.format, RasterFormat::Webp);
    assert_eq!(options.tile_size, 512);
    assert_eq!(options.workers, 6);
    assert_eq!(options.chunk_tiles, ChunkTiles::Fixed(8));
    assert_eq!(options.warp_memory_bytes, 512 * 1024 * 1024);
    assert_eq!(options.warp_threads, WarpThreads::All);
    assert_eq!(options.resampling, Resampling::Bilinear);
    assert_eq!(options.strategy, StrategyPreference::Auto);
    assert_eq!(options.webp_method, 4);
    assert_eq!(options.gdal_tuning.cache_bytes, None);
    assert!(options.gdal_tuning.config_options.is_empty());
    assert!(options.gdal_tuning.open_options.is_empty());
    assert!(options.warp_options.is_empty());
    assert!(!options.plan_only);
}

#[test]
fn raster_arguments_are_read_in_both_forms() {
    let separate = [
        "--zoom", "3", "--format", "png", "--tile-size", "256", "--workers", "2",
        "--chunk-tiles", "off", "--warp-threads", "3", "--resampling", "cubic", "--strategy",
        "gdal-warp", "--webp-method", "1", "--warp-option", "A=1", "--gdal-config", "B=2",
        "--open-option", "C=3", "--gdal-disable-readdir", "yes", "a", "b", "--plan",
    ];
    let together = [
        "--zoom=3", "--format=png", "--tile-size=256", "--workers=2", "--chunk-tiles=off", "a",
        "--warp-threads=3", "--resampling=cubic", "--strategy=gdal-warp", "--webp-method=1",
        "--plan", "--warp-option=A=1", "--gdal-config=B=2", "--open-option=C=3", "b",
        "--gdal-disable-readdir=yes",
    ];
    for args in [&separate[..], &together[..]] {
        let options = raster(args);
        assert_eq!((options.input.as_str(), options.output.as_str()), ("a", "b"));
        assert_eq!((options.min_zoom, options.max_zoom), (3, 3));
        assert_eq!(options.format, RasterFormat::Png);
        assert_eq!(options.tile_size, 256);
        assert_eq!(options.workers, 2);
        assert_eq!(options.chunk_tiles, ChunkTiles::Disabled);
        assert_eq!(options.warp_threads, WarpThreads::Count(3));
        assert_eq!(options.resampling, Resampling::Cubic);
        assert_eq!(options.strategy, StrategyPreference::GdalWarp);
        assert_eq!(options.webp_method, 1);
        assert_eq!(options.warp_options, vec![("A".to_owned(), "1".to_owned())]);
        assert_eq!(
            options.gdal_tuning.config_options,
            vec![
                ("B".to_owned(), "2".to_owned()),
                ("GDAL_DISABLE_READDIR_ON_OPEN".to_owned(), "TRUE".to_owned()),
            ]
        );
        assert_eq!(
            options.gdal_tuning.open_options,
            vec![("C".to_owned(), "3".to_owned())]
        );
        assert!(options.plan_only);
    }
    // The last of several values counts.
    assert_eq!(raster(&["a", "b", "--zoom=1", "--zoom=2"]).min_zoom, 2);
}

#[test]
fn fractional_values_are_handed_on_in_order() {
    let args = parse_args(
        &strings(&[
            "--quality=75", "--bounds", "1,2,3,4", "--warp-memory=1G", "--webp-quality", "80",
            "--gdal-cache", "64M", "--zoom=x", "--quality=1",
        ]),
        1,
    );
    let numbers: Vec<(NumberSetting, &str)> =
        args.numbers.iter().map(|n| (n.setting, n.text.as_str())).collect();
    assert_eq!(
        numbers,
        vec![
            (NumberSetting::Quality, "75"),
            (NumberSetting::Bounds, "1,2,3,4"),
            (NumberSetting::WarpMemory, "1G"),
            (NumberSetting::Quality, "80"),
            (NumberSetting::GdalCache, "64M"),
        ]
    );
    assert!(matches!(args.outcome, RasterOutcome::Refused(_)));
}

#[test]
fn raster_arguments_are_refused() {
    assert_eq!(
        raster_error(&["a", "--zoom", "1"]),
        "raster requires <RASTER_OR_VRT> and <OUTPUT.pmtiles>"
    );
    assert_eq!(
        raster_error(&["a", "b", "c", "--zoom", "1"]),
        "raster requires <RASTER_OR_VRT> and <OUTPUT.pmtiles>"
    );
    assert_eq!(raster_error(&["a", "b"]), "raster requires --zoom");
    assert_eq!(raster_error(&["a", "--zoom"]), "--zoom requires a value");
    assert_eq!(raster_error(&["--webp-quality"]), "--quality requires a value");
    assert_eq!(raster_error(&["--nope"]), "unknown raster option `--nope`");
    assert_eq!(raster_error(&["-"]), "unknown raster option `-`");
    assert_eq!(raster_error(&["--plan=1"]), "unknown raster option `--plan=1`");
    assert_eq!(
        raster_error(&["--zoom=1-x", "--nope"]),
        "--zoom must be a zoom or range like 0-13"
    );
    assert_eq!(raster_error(&["--gdal-config", "A"]), "--warp-option must be NAME=VALUE");
    // An option takes the next argument, whatever it is.
    assert_eq!(
        raster_error(&["--format", "--plan"]),
        "--format must be png, jpeg, jpg, or webp"
    );
    let help = parse_args(&strings(&["a", "-h", "--nope"]), 1);
    assert!(matches!(help.outcome, RasterOutcome::Help));
    let help = parse_args(&strings(&["--help"]), 1);
    assert!(matches!(help.outcome, RasterOutcome::Help));
}

#[test]
fn options_behind_complete_arguments_take_certain_values() {
    let takes = |option: &str, value: &str| {
        let mut args = vec!["in.tif", "out.pmtiles", "--zoom", "0", "--bounds=-180,-85,180,85"];
        args.extend([option, value]);
        let read = parse_args(&strings(&args), 6);
        assert_eq!(read.numbers.len(), if option == "--quality" { 2 } else { 1 });
        match read.outcome {
            RasterOutcome::Options(_) => true,
            RasterOutcome::Refused(error) => {
                assert_eq!(error.kind, ErrorKind::InvalidInput);
                false
            }
            RasterOutcome::Help => panic!("no help was asked for"),
        }
    };
    for (option, good, bad) in [
        ("--format", vec!["png", "jpeg", "jpg", "webp"], vec!["", "PNG", "gif", "webp "]),
        ("--webp-method", vec!["0", "+3", "6", "-0"], vec!["-1", "7", "2.0", ""]),
        ("--tile-size", vec!["1", "512", "4294967295"], vec!["0", "4294967296", "-1", "x"]),
        ("--workers", vec!["1", "+8"], vec!["0", "-1", "", "all"]),
        (
            "--chunk-tiles",
            vec!["auto", "AUTO", "disabled", "disable", "none", "off", "8"],
            vec!["0", "Off", "4294967296", "-8"],
        ),
        ("--warp-threads", vec!["auto", "ALL", "all_cpus", "2"], vec!["0", "none"]),
        ("--quality", vec!["100", "any text"], vec![]),
    ] {
        assert!(good.iter().all(|value| takes(option, value)), "{option}");
        assert!(!bad.iter().any(|value| takes(option, value)), "{option}");
    }
}

#[test]
fn settings_are_never_zero() {
    for args in [
        &["--tile-size=0"][..],
        &["--workers=0"][..],
        &["--chunk-tiles=0"][..],
        &["--warp-threads=0"][..],
        &["--webp-method=7"][..],
    ] {
        let args = [args, &["a", "b", "--zoom=1"][..]].concat();
        assert!(matches!(parse_args(&strings(&args), 1).outcome, RasterOutcome::Refused(_)));
    }
    let options = raster(&["a", "b", "--zoom=1", "--tile-size=1", "--workers=1"]);
    assert_eq!((options.tile_size, options.workers), (1, 1));
}

#[test]
fn values_are_expected_behind_options() {
    let args = strings(&["a", "b"]);
    assert_eq!(expect_arg(&args, 1, "--name").unwrap(), "b");
    let error = expect_arg(&args, 2, "--name").unwrap_err();
    assert_eq!(error.kind, ErrorKind::InvalidInput);
    assert_eq!(error.message, "--name requires a value");
}

#[test]
fn commands_are_told_apart() {
    let command = |args: &[&str]| parse_command(&strings(args));
    assert_eq!(command(&[]).unwrap(), Command::Help);
    assert_eq!(command(&["-h"]).unwrap(), Command::Help);
    assert_eq!(command(&["--help"]).unwrap(), Command::Help);
    assert_eq!(command(&["help"]).unwrap(), Command::Help);
    assert_eq!(command(&["pack", "x"]).unwrap(), Command::Pack);
    assert_eq!(command(&["raster"]).unwrap(), Command::Raster);
    assert_eq!(command(&["inspect"]).unwrap(), Command::Inspect);
    assert_eq!(command(&["help", "pack"]).unwrap(), Command::HelpPack);
    assert_eq!(command(&["help", "raster", "x"]).unwrap(), Command::HelpRaster);
    assert_eq!(command(&["help", "inspect"]).unwrap(), Command::HelpInspect);
    let error = command(&["help", "me"]).unwrap_err();
    assert_eq!(error.kind, ErrorKind::InvalidInput);
    assert_eq!(error.message, "unknown command `me`");
    assert_eq!(command(&["Pack"]).unwrap_err().message, "unknown command `Pack`");
}

#[test]
fn pack_arguments_are_read() {
    let outcome = parse_pack_args(&strings(&[
        "--name", "N", "dir", "--description", "-D", "--attribution", "A", "--tile-size", "0",
        "out",
    ]));
    let PackOutcome::Options(options) = outcome else {
        panic!("{outcome:?}");
    };
    assert_eq!(options.input_dir, "dir");
    assert_eq!(options.output, "out");
    assert_eq!(options.name.as_deref(), Some("N"));
    assert_eq!(options.description.as_deref(), Some("-D"));
    assert_eq!(options.attribution.as_deref(), Some("A"));
    assert_eq!(options.tile_size, 0);

    let PackOutcome::Options(options) = parse_pack_args(&strings(&["dir", "out"])) else {
        panic!("two paths are enough");
    };
    assert_eq!(options.tile_size, 512);
    assert_eq!((options.name, options.description, options.attribution), (None, None, None));

    assert!(matches!(parse_pack_args(&strings(&["x", "--help"])), PackOutcome::Help));
    for (args, message) in [
        (&["dir"][..], "pack requires <TILE_DIR> and <OUTPUT.pmtiles>"),
        (&["--name"][..], "--name requires a value"),
        (&["--tile-size", "x"][..], "--tile-size must be an integer"),
        (&["--name=N"][..], "unknown option `--name=N`"),
    ] {
        let PackOutcome::Refused(error) = parse_pack_args(&strings(args)) else {
            panic!("{message}");
        };
        assert_eq!(error.kind, ErrorKind::InvalidInput);
        assert_eq!(error.message, message);
    }
}

#[test]
fn inspect_takes_one_path() {
    assert!(matches!(parse_inspect_args(&strings(&["-h"])), InspectOutcome::Help));
    assert!(matches!(parse_inspect_args(&strings(&["--help"])), InspectOutcome::Help));
    let InspectOutcome::Archive(path) = parse_inspect_args(&strings(&["a.pmtiles"])) else {
        panic!("one path is enough");
    };
    assert_eq!(path, "a.pmtiles");
    for args in [&[][..], &["a", "b"][..], &["a", "-h"][..]] {
        let InspectOutcome::Refused(error) = parse_inspect_args(&strings(args)) else {
            panic!("two paths are too many");
        };
        assert_eq!(error.message, "inspect requires <ARCHIVE.pmtiles>");
    }
}
