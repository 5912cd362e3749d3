//! The command line.
use vstd::prelude::*;
use vstd::string::StringExecFns;

use crate::error::{invalid_input, ErrorKind, Error};
use crate::numbers::{signed_value, unsigned_value};
use crate::options::{
    chunk_tiles_choice, disable_readdir_choice, format_choice, name_value_choice,
    parse_chunk_tiles, parse_format, parse_gdal_disable_readdir, parse_name_value,
    parse_resampling, parse_strategy, parse_tile_size, parse_warp_threads, parse_webp_method,
    parse_workers, parse_zoom, resampling_choice, strategy_choice, tile_size_choice,
    warp_threads_choice, webp_method_choice, workers_choice, zoom_choice, ChunkTiles, GdalTuning,
    RasterFormat, RasterOptions, Resampling, StrategyPreference, WarpThreads,
};
use crate::text::{
    find, has_prefix, law_split_once, lemma_find, lowered, split_once, split_once_at,
    strip_prefix, text_eq, texts,
};

verus! {

/// Options of the raster command that take a value.
#[derive(Clone, Copy, Debug, PartialEq, Eq, Structural)]
pub enum Setting {
    Zoom,
    Bounds,
    Format,
    TileSize,
    Workers,
    ChunkTiles,
    WarpMemory,
    WarpThreads,
    Resampling,
    Strategy,
    Quality,
    WebpMethod,
    WarpOption,
    GdalCache,
    GdalConfig,
    OpenOption,
    DisableReaddir,
}

/// The option that has the given name.
#[verifier::opaque]
pub open spec fn setting_named(name: Seq<char>) -> Option<Setting> {
    if name == "--zoom"@ {
        Some(Setting::Zoom)
    } else if name == "--bounds"@ {
        Some(Setting::Bounds)
    } else if name == "--format"@ {
        Some(Setting::Format)
    } else if name == "--tile-size"@ {
        Some(Setting::TileSize)
    } else if name == "--workers"@ {
        Some(Setting::Workers)
    } else if name == "--chunk-tiles"@ {
        Some(Setting::ChunkTiles)
    } else if name == "--warp-memory"@ {
        Some(Setting::WarpMemory)
    } else if name == "--warp-threads"@ {
        Some(Setting::WarpThreads)
    } else if name == "--resampling"@ {
        Some(Setting::Resampling)
    } else if name == "--strategy"@ {
        Some(Setting::Strategy)
    } else if name == "--quality"@ || name == "--webp-quality"@ {
        Some(Setting::Quality)
    } else if name == "--webp-method"@ {
        Some(Setting::WebpMethod)
    } else if name == "--warp-option"@ {
        Some(Setting::WarpOption)
    } else if name == "--gdal-cache"@ {
        Some(Setting::GdalCache)
    } else if name == "--gdal-config"@ {
        Some(Setting::GdalConfig)
    } else if name == "--open-option"@ {
        Some(Setting::OpenOption)
    } else if name == "--gdal-disable-readdir"@ {
        Some(Setting::DisableReaddir)
    } else {
        None
    }
}

fn find_setting(name: &str) -> (r: Option<Setting>)
    ensures
        r == setting_named(name@),
{
    proof {
        reveal(setting_named);
    }
    if text_eq(name, "--zoom") {
        Some(Setting::Zoom)
    } else if text_eq(name, "--bounds") {
        Some(Setting::Bounds)
    } else if text_eq(name, "--format") {
        Some(Setting::Format)
    } else if text_eq(name, "--tile-size") {
        Some(Setting::TileSize)
    } else if text_eq(name, "--workers") {
        Some(Setting::Workers)
    } else if text_eq(name, "--chunk-tiles") {
        Some(Setting::ChunkTiles)
    } else if text_eq(name, "--warp-memory") {
        Some(Setting::WarpMemory)
    } else if text_eq(name, "--warp-threads") {
        Some(Setting::WarpThreads)
    } else if text_eq(name, "--resampling") {
        Some(Setting::Resampling)
    } else if text_eq(name, "--strategy") {
        Some(Setting::Strategy)
    } else if text_eq(name, "--quality") || text_eq(name, "--webp-quality") {
        Some(Setting::Quality)
    } else if text_eq(name, "--webp-method") {
        Some(Setting::WebpMethod)
    } else if text_eq(name, "--warp-option") {
        Some(Setting::WarpOption)
    } else if text_eq(name, "--gdal-cache") {
        Some(Setting::GdalCache)
    } else if text_eq(name, "--gdal-config") {
        Some(Setting::GdalConfig)
    } else if text_eq(name, "--open-option") {
        Some(Setting::OpenOption)
    } else if text_eq(name, "--gdal-disable-readdir") {
        Some(Setting::DisableReaddir)
    } else {
        None
    }
}

impl Setting {
    /// The name under which messages speak of the option.
    pub open spec fn name(self) -> Seq<char> {
        match self {
            Setting::Zoom => "--zoom"@,
            Setting::Bounds => "--bounds"@,
            Setting::Format => "--format"@,
            Setting::TileSize => "--tile-size"@,
            Setting::Workers => "--workers"@,
            Setting::ChunkTiles => "--chunk-tiles"@,
            Setting::WarpMemory => "--warp-memory"@,
            Setting::WarpThreads => "--warp-threads"@,
            Setting::Resampling => "--resampling"@,
            Setting::Strategy => "--strategy"@,
            Setting::Quality => "--quality"@,
            Setting::WebpMethod => "--webp-method"@,
            Setting::WarpOption => "--warp-option"@,
            Setting::GdalCache => "--gdal-cache"@,
            Setting::GdalConfig => "--gdal-config"@,
            Setting::OpenOption => "--open-option"@,
            Setting::DisableReaddir => "--gdal-disable-readdir"@,
        }
    }

    fn label(self) -> (r: &'static str)
        ensures
            r@ == self.name(),
    {
        match self {
            Setting::Zoom => "--zoom",
            Setting::Bounds => "--bounds",
            Setting::Format => "--format",
            Setting::TileSize => "--tile-size",
            Setting::Workers => "--workers",
            Setting::ChunkTiles => "--chunk-tiles",
            Setting::WarpMemory => "--warp-memory",
            Setting::WarpThreads => "--warp-threads",
            Setting::Resampling => "--resampling",
            Setting::Strategy => "--strategy",
            Setting::Quality => "--quality",
            Setting::WebpMethod => "--webp-method",
            Setting::WarpOption => "--warp-option",
            Setting::GdalCache => "--gdal-cache",
            Setting::GdalConfig => "--gdal-config",
            Setting::OpenOption => "--open-option",
            Setting::DisableReaddir => "--gdal-disable-readdir",
        }
    }
}

/// Options whose value holds numbers with a fraction. They are read by the caller, who goes
/// through them in the order in which they were given.
#[derive(Clone, Copy, Debug, PartialEq, Eq, Structural)]
pub enum NumberSetting {
    Bounds,
    WarpMemory,
    Quality,
    GdalCache,
}

/// An option with a fractional value, and the text of the value.
#[derive(Debug)]
pub struct NumberArg {
    pub setting: NumberSetting,
    pub text: String,
}

/// What the arguments of the raster command have set so far.
pub ghost struct RasterSettings {
    pub positional: Seq<Seq<char>>,
    pub zoom: Option<(u8, u8)>,
    pub format: RasterFormat,
    pub tile_size: u32,
    pub workers: usize,
    pub chunk_tiles: ChunkTiles,
    pub warp_threads: WarpThreads,
    pub resampling: Resampling,
    pub strategy: StrategyPreference,
    pub webp_method: i32,
    pub config_options: Seq<(Seq<char>, Seq<char>)>,
    pub open_options: Seq<(Seq<char>, Seq<char>)>,
    pub warp_options: Seq<(Seq<char>, Seq<char>)>,
    pub plan_only: bool,
    pub numbers: Seq<(NumberSetting, Seq<char>)>,
}

/// How going through the arguments ended.
pub ghost enum ArgsEnd {
    Help,
    Refused(Seq<char>),
    Complete,
}

/// The texts of a list of pairs.
pub open spec fn pairs(v: Seq<(String, String)>) -> Seq<(Seq<char>, Seq<char>)> {
    v.map_values(|p: (String, String)| (p.0@, p.1@))
}

pub open spec fn number_texts(v: Seq<NumberArg>) -> Seq<(NumberSetting, Seq<char>)> {
    v.map_values(|n: NumberArg| (n.setting, n.text@))
}

/// What holds where no option is given.
pub open spec fn default_settings(workers: usize) -> RasterSettings {
    RasterSettings {
        positional: Seq::empty(),
        zoom: None,
        format: RasterFormat::Webp,
        tile_size: 512,
        workers,
        chunk_tiles: ChunkTiles::Fixed(8),
        warp_threads: WarpThreads::All,
        resampling: Resampling::Bilinear,
        strategy: StrategyPreference::Auto,
        webp_method: 4,
        config_options: Seq::empty(),
        open_options: Seq::empty(),
        warp_options: Seq::empty(),
        plan_only: false,
        numbers: Seq::empty(),
    }
}

/// The settings after one more option, or the message that refuses its value.
#[verifier::opaque]
pub open spec fn with_setting(
    s: RasterSettings,
    setting: Setting,
    value: Seq<char>,
) -> Result<RasterSettings, Seq<char>> {
    match setting {
        Setting::Zoom => match zoom_choice(value) {
            Ok(zoom) => Ok(RasterSettings { zoom: Some(zoom), ..s }),
            Err(m) => Err(m),
        },
        Setting::Bounds => Ok(
            RasterSettings { numbers: s.numbers.push((NumberSetting::Bounds, value)), ..s },
        ),
        Setting::Format => match format_choice(value) {
            Ok(format) => Ok(RasterSettings { format, ..s }),
            Err(m) => Err(m),
        },
        Setting::TileSize => match tile_size_choice(value) {
            Ok(tile_size) => Ok(RasterSettings { tile_size, ..s }),
            Err(m) => Err(m),
        },
        Setting::Workers => match workers_choice(value) {
            Ok(workers) => Ok(RasterSettings { workers, ..s }),
            Err(m) => Err(m),
        },
        Setting::ChunkTiles => match chunk_tiles_choice(value) {
            Ok(chunk_tiles) => Ok(RasterSettings { chunk_tiles, ..s }),
            Err(m) => Err(m),
        },
        Setting::WarpMemory => Ok(
            RasterSettings { numbers: s.numbers.push((NumberSetting::WarpMemory, value)), ..s },
        ),
        Setting::WarpThreads => match warp_threads_choice(value) {
            Ok(warp_threads) => Ok(RasterSettings { warp_threads, ..s }),
            Err(m) => Err(m),
        },
        Setting::Resampling => match resampling_choice(value) {
            Ok(resampling) => Ok(RasterSettings { resampling, ..s }),
            Err(m) => Err(m),
        },
        Setting::Strategy => match strategy_choice(value) {
            Ok(strategy) => Ok(RasterSettings { strategy, ..s }),
            Err(m) => Err(m),
        },
        Setting::Quality => Ok(
            RasterSettings { numbers: s.numbers.push((NumberSetting::Quality, value)), ..s },
        ),
        Setting::WebpMethod => match webp_method_choice(value) {
            Ok(webp_method) => Ok(RasterSettings { webp_method, ..s }),
            Err(m) => Err(m),
        },
        Setting::WarpOption => match name_value_choice(value) {
            Ok(pair) => Ok(RasterSettings { warp_options: s.warp_options.push(pair), ..s }),
            Err(m) => Err(m),
        },
        Setting::GdalCache => Ok(
            RasterSettings { numbers: s.numbers.push((NumberSetting::GdalCache, value)), ..s },
        ),
        Setting::GdalConfig => match name_value_choice(value) {
            Ok(pair) => Ok(RasterSettings { config_options: s.config_options.push(pair), ..s }),
            Err(m) => Err(m),
        },
        Setting::OpenOption => match name_value_choice(value) {
            Ok(pair) => Ok(RasterSettings { open_options: s.open_options.push(pair), ..s }),
            Err(m) => Err(m),
        },
        Setting::DisableReaddir => match disable_readdir_choice(value) {
            Ok(v) => Ok(
                RasterSettings {
                    config_options: s.config_options.push(("GDAL_DISABLE_READDIR_ON_OPEN"@, v)),
                    ..s
                },
            ),
            Err(m) => Err(m),
        },
    }
}

/// The option and its value where one argument holds both, with `=` between them.
pub open spec fn joined_setting(arg: Seq<char>) -> Option<(Setting, Seq<char>)> {
    match split_once_at(arg, '=') {
        Some((name, value)) => match setting_named(name) {
            Some(setting) => Some((setting, value)),
            None => None,
        },
        None => None,
    }
}

/// The message about an option whose value is missing.
pub open spec fn missing_value(option: Seq<char>) -> Seq<char> {
    option + " requires a value"@
}

/// The message about an option that does not exist.
pub open spec fn unknown_raster_option(arg: Seq<char>) -> Seq<char> {
    "unknown raster option `"@ + arg + "`"@
}

/// What the next argument does.
pub ghost enum ArgStep {
    /// Going through the arguments ends.
    Stop(ArgsEnd),
    /// The settings change, and the arguments that are left are gone through.
    Next(RasterSettings, Seq<Seq<char>>),
}

/// The settings after an option and its value, and the arguments that are left.
pub open spec fn setting_step(
    s: RasterSettings,
    setting: Setting,
    value: Seq<char>,
    rest: Seq<Seq<char>>,
) -> ArgStep {
    match with_setting(s, setting, value) {
        Ok(next) => ArgStep::Next(next, rest),
        Err(message) => ArgStep::Stop(ArgsEnd::Refused(message)),
    }
}

/// What the first of some arguments does.
pub open spec fn arg_step(args: Seq<Seq<char>>, s: RasterSettings) -> ArgStep {
    let arg = args[0];
    if arg == "-h"@ || arg == "--help"@ {
        ArgStep::Stop(ArgsEnd::Help)
    } else if arg == "--plan"@ {
        ArgStep::Next(RasterSettings { plan_only: true, ..s }, args.skip(1))
    } else if let Some(setting) = setting_named(arg) {
        if args.len() == 1 {
            ArgStep::Stop(ArgsEnd::Refused(missing_value(setting.name())))
        } else {
            setting_step(s, setting, args[1], args.skip(2))
        }
    } else if let Some((setting, value)) = joined_setting(arg) {
        setting_step(s, setting, value, args.skip(1))
    } else if has_prefix(arg, "-"@) {
        ArgStep::Stop(ArgsEnd::Refused(unknown_raster_option(arg)))
    } else {
        ArgStep::Next(
            RasterSettings { positional: s.positional.push(arg), ..s },
            args.skip(1),
        )
    }
}

/// What all arguments together set, and how going through them ends.
pub open spec fn scan_raster_args(args: Seq<Seq<char>>, s: RasterSettings) -> (
    RasterSettings,
    ArgsEnd,
)
    decreases args.len(),
{
    if args.len() == 0 {
        (s, ArgsEnd::Complete)
    } else {
        match arg_step(args, s) {
            ArgStep::Stop(end) => (s, end),
            ArgStep::Next(next, rest) => scan_raster_args(rest, next),
        }
    }
}

/// What is done with the arguments of the raster command.
#[derive(Debug)]
pub enum RasterOutcome {
    Help,
    Refused(Error),
    Options(RasterOptions),
}

/// The arguments of the raster command: the fractional values that are still to be read, in
/// order, and what follows once each of them was found good.
#[derive(Debug)]
pub struct RasterArgs {
    pub numbers: Vec<NumberArg>,
    pub outcome: RasterOutcome,
}

impl RasterOptions {
    /// The options hold what the settings say, with default values for what is fractional.
    pub open spec fn from_settings(self, s: RasterSettings, zoom: (u8, u8)) -> bool {
        &&& self.input@ == s.positional[0]
        &&& self.output@ == s.positional[1]
        &&& self.min_zoom == zoom.0
        &&& self.max_zoom == zoom.1
        &&& self.format == s.format
        &&& self.tile_size == s.tile_size
        &&& self.workers == s.workers
        &&& self.chunk_tiles == s.chunk_tiles
        &&& self.warp_memory_bytes == 512 * 1024 * 1024
        &&& self.warp_threads == s.warp_threads
        &&& self.resampling == s.resampling
        &&& self.strategy == s.strategy
        &&& self.webp_method == s.webp_method
        &&& self.gdal_tuning.cache_bytes is None
        &&& pairs(self.gdal_tuning.config_options@) == s.config_options
        &&& pairs(self.gdal_tuning.open_options@) == s.open_options
        &&& pairs(self.warp_options@) == s.warp_options
        &&& self.plan_only == s.plan_only
    }
}

impl RasterOutcome {
    /// The outcome is a refusal with this message.
    pub open spec fn refuses(self, message: Seq<char>) -> bool {
        self matches RasterOutcome::Refused(e) && e.says(ErrorKind::InvalidInput, message)
    }

    /// The outcome is the one that the settings and the end of the arguments call for.
    pub open spec fn follows(self, s: RasterSettings, end: ArgsEnd) -> bool {
        match end {
            ArgsEnd::Help => self is Help,
            ArgsEnd::Refused(message) => self.refuses(message),
            ArgsEnd::Complete => if s.positional.len() != 2 {
                self.refuses("raster requires <RASTER_OR_VRT> and <OUTPUT.pmtiles>"@)
            } else {
                match s.zoom {
                    Some(zoom) => self matches RasterOutcome::Options(o) && o.from_settings(
                        s,
                        zoom,
                    ),
                    None => self.refuses("raster requires --zoom"@),
                }
            },
        }
    }
}

struct Draft {
    positional: Vec<String>,
    zoom: Option<(u8, u8)>,
    format: RasterFormat,
    tile_size: u32,
    workers: usize,
    chunk_tiles: ChunkTiles,
    warp_threads: WarpThreads,
    resampling: Resampling,
    strategy: StrategyPreference,
    webp_method: i32,
    config_options: Vec<(String, String)>,
    open_options: Vec<(String, String)>,
    warp_options: Vec<(String, String)>,
    plan_only: bool,
    numbers: Vec<NumberArg>,
}

impl Draft {
    spec fn model(self) -> RasterSettings {
        RasterSettings {
            positional: texts(self.positional@),
            zoom: self.zoom,
            format: self.format,
            tile_size: self.tile_size,
            workers: self.workers,
            chunk_tiles: self.chunk_tiles,
            warp_threads: self.warp_threads,
            resampling: self.resampling,
            strategy: self.strategy,
            webp_method: self.webp_method,
            config_options: pairs(self.config_options@),
            open_options: pairs(self.open_options@),
            warp_options: pairs(self.warp_options@),
            plan_only: self.plan_only,
            numbers: number_texts(self.numbers@),
        }
    }

    fn new(workers: usize) -> (r: Draft)
        ensures
            r.model() == default_settings(workers),
    {
        let r = Draft {
            positional: Vec::new(),
            zoom: None,
            format: RasterFormat::Webp,
            tile_size: 512,
            workers,
            chunk_tiles: ChunkTiles::Fixed(8),
            warp_threads: WarpThreads::All,
            resampling: Resampling::Bilinear,
            strategy: StrategyPreference::Auto,
            webp_method: 4,
            config_options: Vec::new(),
            open_options: Vec::new(),
            warp_options: Vec::new(),
            plan_only: false,
            numbers: Vec::new(),
        };
        assert(r.model().positional =~= Seq::empty());
        assert(r.model().config_options =~= Seq::empty());
        assert(r.model().open_options =~= Seq::empty());
        assert(r.model().warp_options =~= Seq::empty());
        assert(r.model().numbers =~= Seq::empty());
        r
    }

    fn push_number(&mut self, setting: NumberSetting, value: &str)
        ensures
            final(self).model() == (RasterSettings {
                numbers: old(self).model().numbers.push((setting, value@)),
                ..old(self).model()
            }),
    {
        self.numbers.push(NumberArg { setting, text: value.to_owned() });
        assert(self.model().numbers =~= old(self).model().numbers.push((setting, value@)));
    }

    fn set(&mut self, setting: Setting, value: &str) -> (r: Result<(), Error>)
        ensures
            match with_setting(old(self).model(), setting, value@) {
                Ok(next) => r is Ok && final(self).model() == next,
                Err(message) => crate::error::refused(r, message) && final(self).model() == old(
                    self,
                ).model(),
            },
    {
        proof {
            reveal(with_setting);
        }
        match setting {
            Setting::Zoom => {
                self.zoom = Some(parse_zoom(value)?);
            },
            Setting::Bounds => {
                self.push_number(NumberSetting::Bounds, value);
            },
            Setting::Format => {
                self.format = parse_format(value)?;
            },
            Setting::TileSize => {
                self.tile_size = parse_tile_size(value)?;
            },
            Setting::Workers => {
                self.workers = parse_workers(value)?;
            },
            Setting::ChunkTiles => {
                self.chunk_tiles = parse_chunk_tiles(value)?;
            },
            Setting::WarpMemory => {
                self.push_number(NumberSetting::WarpMemory, value);
            },
            Setting::WarpThreads => {
                self.warp_threads = parse_warp_threads(value)?;
            },
            Setting::Resampling => {
                self.resampling = parse_resampling(value)?;
            },
            Setting::Strategy => {
                self.strategy = parse_strategy(value)?;
            },
            Setting::Quality => {
                self.push_number(NumberSetting::Quality, value);
            },
            Setting::WebpMethod => {
                self.webp_method = parse_webp_method(value)?;
            },
            Setting::WarpOption => {
                let pair = parse_name_value(value)?;
                self.warp_options.push(pair);
                assert(self.model().warp_options =~= old(self).model().warp_options.push(
                    (pair.0@, pair.1@),
                ));
            },
            Setting::GdalCache => {
                self.push_number(NumberSetting::GdalCache, value);
            },
            Setting::GdalConfig => {
                let pair = parse_name_value(value)?;
                self.config_options.push(pair);
                assert(self.model().config_options =~= old(self).model().config_options.push(
                    (pair.0@, pair.1@),
                ));
            },
            Setting::OpenOption => {
                let pair = parse_name_value(value)?;
                self.open_options.push(pair);
                assert(self.model().open_options =~= old(self).model().open_options.push(
                    (pair.0@, pair.1@),
                ));
            },
            Setting::DisableReaddir => {
                let choice = parse_gdal_disable_readdir(value)?;
                let name = "GDAL_DISABLE_READDIR_ON_OPEN".to_owned();
                self.config_options.push((name, choice));
                assert(self.model().config_options =~= old(self).model().config_options.push(
                    ("GDAL_DISABLE_READDIR_ON_OPEN"@, choice@),
                ));
            },
        }
        Ok(())
    }

    fn finish(self) -> (r: RasterArgs)
        ensures
            number_texts(r.numbers@) == self.model().numbers,
            r.outcome.follows(self.model(), ArgsEnd::Complete),
    {
        let mut positional = self.positional;
        let ghost names = positional@;
        if positional.len() != 2 {
            return RasterArgs {
                numbers: self.numbers,
                outcome: RasterOutcome::Refused(
                    invalid_input("raster requires <RASTER_OR_VRT> and <OUTPUT.pmtiles>"),
                ),
            };
        }
        let outcome = match self.zoom {
            None => RasterOutcome::Refused(invalid_input("raster requires --zoom")),
            Some((min_zoom, max_zoom)) => {
                let input = positional.remove(0);
                let output = positional.remove(0);
                assert(texts(names)[0] == input@ && texts(names)[1] == output@);
                RasterOutcome::Options(
                    RasterOptions {
                        input,
                        output,
                        min_zoom,
                        max_zoom,
                        format: self.format,
                        tile_size: self.tile_size,
                        workers: self.workers,
                        chunk_tiles: self.chunk_tiles,
                        warp_memory_bytes: 512 * 1024 * 1024,
                        warp_threads: self.warp_threads,
                        resampling: self.resampling,
                        strategy: self.strategy,
                        webp_method: self.webp_method,
                        gdal_tuning: GdalTuning {
                            cache_bytes: None,
                            config_options: self.config_options,
                            open_options: self.open_options,
                        },
                        warp_options: self.warp_options,
                        plan_only: self.plan_only,
                    },
                )
            },
        };
        RasterArgs { numbers: self.numbers, outcome }
    }
}

pub(crate) fn quoted(before: &str, arg: &str) -> (r: Error)
    ensures
        r.says(ErrorKind::InvalidInput, before@ + arg@ + "`"@),
{
    let mut message = before.to_owned();
    message.append(arg);
    message.append("`");
    invalid_input(message.as_str())
}

fn value_missing(option: &str) -> (r: Error)
    ensures
        r.says(ErrorKind::InvalidInput, missing_value(option@)),
{
    let mut message = option.to_owned();
    message.append(" requires a value");
    invalid_input(message.as_str())
}

/// The argument at `index`, which is the value of `option`.
pub fn expect_arg<'a>(args: &'a Vec<String>, index: usize, option: &str) -> (r: Result<
    &'a str,
    Error,
>)
    ensures
        if index < args@.len() {
            r matches Ok(value) && value@ == args@[index as int]@
        } else {
            crate::error::refused(r, missing_value(option@))
        },
{
    if index < args.len() {
        Ok(args[index].as_str())
    } else {
        Err(value_missing(option))
    }
}

pub(crate) fn starts_with_hyphen(arg: &str) -> (r: bool)
    ensures
        r == has_prefix(arg@, "-"@),
{
    strip_prefix(arg, "-").is_some()
}

fn find_joined(arg: &str) -> (r: Option<(Setting, String)>)
    ensures
        match joined_setting(arg@) {
            Some((setting, value)) => r matches Some(p) && p.0 == setting && p.1@ == value,
            None => r is None,
        },
{
    match split_once(arg, '=') {
        Some((name, value)) => match find_setting(name.as_str()) {
            Some(setting) => Some((setting, value)),
            None => None,
        },
        None => None,
    }
}

/// What came of taking an argument.
enum Taken {
    Help,
    Refused(Error),
    /// So many arguments were used.
    Used(usize),
}

impl Draft {
    fn take(&mut self, args: &Vec<String>, i: usize) -> (r: Taken)
        requires
            i < args@.len(),
        ensures
            match arg_step(texts(args@).skip(i as int), old(self).model()) {
                ArgStep::Stop(ArgsEnd::Help) => r is Help && final(self).model() == old(
                    self,
                ).model(),
                ArgStep::Stop(ArgsEnd::Refused(message)) => {
                    &&& r matches Taken::Refused(e)
                    &&& e.says(ErrorKind::InvalidInput, message)
                    &&& final(self).model() == old(self).model()
                },
                ArgStep::Stop(ArgsEnd::Complete) => false,
                ArgStep::Next(next, rest) => {
                    &&& r matches Taken::Used(n)
                    &&& 1 <= n <= args@.len() - i
                    &&& final(self).model() == next
                    &&& rest == texts(args@).skip(i + n)
                },
            },
    {
        let _total: usize = args.len();
        let arg = args[i].as_str();
        let ghost rest = texts(args@).skip(i as int);
        assert(rest[0] == arg@);
        assert(rest.skip(1) =~= texts(args@).skip(i + 1));
        if text_eq(arg, "-h") || text_eq(arg, "--help") {
            return Taken::Help;
        }
        if text_eq(arg, "--plan") {
            self.plan_only = true;
            return Taken::Used(1);
        }
        if let Some(setting) = find_setting(arg) {
            let value = match expect_arg(args, i + 1, setting.label()) {
                Ok(value) => value,
                Err(error) => {
                    return Taken::Refused(error);
                },
            };
            assert(rest[1] == value@);
            assert(rest.skip(2) =~= texts(args@).skip(i + 2));
            return match self.set(setting, value) {
                Ok(()) => Taken::Used(2),
                Err(error) => Taken::Refused(error),
            };
        }
        if let Some((setting, value)) = find_joined(arg) {
            return match self.set(setting, value.as_str()) {
                Ok(()) => Taken::Used(1),
                Err(error) => Taken::Refused(error),
            };
        }
        if starts_with_hyphen(arg) {
            return Taken::Refused(quoted("unknown raster option `", arg));
        }
        self.positional.push(arg.to_owned());
        assert(self.model().positional =~= old(self).model().positional.push(arg@));
        Taken::Used(1)
    }
}

/// Reads the arguments of the raster command.
pub fn parse_args(args: &Vec<String>, default_workers: usize) -> (r: RasterArgs)
    ensures
        ({
            let (s, end) = scan_raster_args(texts(args@), default_settings(default_workers));
            &&& number_texts(r.numbers@) == s.numbers
            &&& r.outcome.follows(s, end)
        }),
{
    let ghost all = scan_raster_args(texts(args@), default_settings(default_workers));
    let mut draft = Draft::new(default_workers);
    let mut i: usize = 0;
    assert(texts(args@).skip(0) =~= texts(args@));
    while i < args.len()
        invariant
            i <= args@.len(),
            all == scan_raster_args(texts(args@), default_settings(default_workers)),
            all == scan_raster_args(texts(args@).skip(i as int), draft.model()),
        decreases args@.len() - i,
    {
        match draft.take(args, i) {
            Taken::Help => {
                return RasterArgs { numbers: draft.numbers, outcome: RasterOutcome::Help };
            },
            Taken::Refused(error) => {
                return RasterArgs {
                    numbers: draft.numbers,
                    outcome: RasterOutcome::Refused(error),
                };
            },
            Taken::Used(n) => {
                i = i + n;
            },
        }
    }
    draft.finish()
}

/// The arguments are complete and none of them is refused, as far as whole numbers and names go.
pub open spec fn accepted(args: Seq<Seq<char>>, workers: usize) -> bool {
    let (s, end) = scan_raster_args(args, default_settings(workers));
    end is Complete && s.positional.len() == 2 && s.zoom is Some
}

/// Options come out of the accepted arguments and of no others; what is not accepted, and asks
/// for no help, is refused as invalid input.
pub proof fn law_accepted_arguments(
    args: Seq<Seq<char>>,
    workers: usize,
    outcome: RasterOutcome,
)
    requires
        ({
            let (s, end) = scan_raster_args(args, default_settings(workers));
            outcome.follows(s, end)
        }),
    ensures
        outcome is Options <==> accepted(args, workers),
        outcome is Help <==> scan_raster_args(args, default_settings(workers)).1 is Help,
        outcome matches RasterOutcome::Refused(e) ==> e.kind == ErrorKind::InvalidInput,
{
}

/// Arguments behind others that were gone through to their end change what those have set.
pub proof fn law_arguments_follow(
    first: Seq<Seq<char>>,
    second: Seq<Seq<char>>,
    s: RasterSettings,
)
    requires
        scan_raster_args(first, s).1 is Complete,
    ensures
        scan_raster_args(first + second, s) == scan_raster_args(
            second,
            scan_raster_args(first, s).0,
        ),
    decreases first.len(),
{
    let all = first + second;
    if first.len() == 0 {
        assert(all =~= second);
    } else {
        assert(all[0] == first[0]);
        assert(first.len() > 1 ==> all[1] == first[1]);
        assert(all.skip(1) =~= first.skip(1) + second);
        assert(first.len() > 1 ==> all.skip(2) =~= first.skip(2) + second);
        if let ArgStep::Next(next, rest) = arg_step(first, s) {
            law_arguments_follow(rest, second, next);
        }
    }
}

/// The values that an option takes. Those of fractional options are left to the caller.
pub open spec fn takes(setting: Setting, value: Seq<char>) -> bool {
    match setting {
        Setting::Format => value == "png"@ || value == "jpeg"@ || value == "jpg"@ || value
            == "webp"@,
        Setting::WebpMethod => signed_value(value) matches Some(v) && 0 <= v <= 6,
        Setting::TileSize => unsigned_value(value, u32::MAX as nat) matches Some(v) && v > 0,
        Setting::Workers => unsigned_value(value, usize::MAX as nat) matches Some(v) && v > 0,
        Setting::ChunkTiles => {
            ||| lowered(value) == "auto"@
            ||| value == "disabled"@
            ||| value == "disable"@
            ||| value == "none"@
            ||| value == "off"@
            ||| unsigned_value(value, u32::MAX as nat) matches Some(v) && v > 0
        },
        Setting::WarpThreads => {
            ||| lowered(value) == "auto"@
            ||| lowered(value) == "all"@
            ||| lowered(value) == "all_cpus"@
            ||| unsigned_value(value, usize::MAX as nat) matches Some(v) && v > 0
        },
        Setting::Zoom => match split_once_at(value, '-') {
            Some((min, max)) => unsigned_value(min, 255) is Some && unsigned_value(max, 255)
                is Some,
            None => unsigned_value(value, 255) is Some,
        },
        Setting::Resampling => {
            ||| value == "near"@
            ||| value == "nearest"@
            ||| value == "bilinear"@
            ||| value == "cubic"@
            ||| value == "cubicspline"@
            ||| value == "cubic_spline"@
            ||| value == "lanczos"@
            ||| value == "average"@
        },
        Setting::Strategy => {
            ||| value == "auto"@
            ||| value == "same-crs"@
            ||| value == "same_crs"@
            ||| value == "geographic"@
            ||| value == "wgs84"@
            ||| value == "gdal-warp"@
            ||| value == "gdal_warp"@
        },
        Setting::WarpOption | Setting::GdalConfig | Setting::OpenOption => split_once_at(
            value,
            '=',
        ) matches Some((name, content)) && name.len() > 0 && content.len() > 0,
        Setting::DisableReaddir => {
            let low = lowered(value);
            ||| low == "true"@
            ||| low == "yes"@
            ||| low == "on"@
            ||| low == "false"@
            ||| low == "no"@
            ||| low == "off"@
            ||| low == "empty_dir"@
            ||| low == "empty-dir"@
            ||| low == "empty"@
        },
        Setting::Bounds | Setting::WarpMemory | Setting::Quality | Setting::GdalCache => true,
    }
}

/// The fractional option that a setting is.
pub open spec fn number_setting(setting: Setting) -> Option<NumberSetting> {
    match setting {
        Setting::Bounds => Some(NumberSetting::Bounds),
        Setting::WarpMemory => Some(NumberSetting::WarpMemory),
        Setting::Quality => Some(NumberSetting::Quality),
        Setting::GdalCache => Some(NumberSetting::GdalCache),
        _ => None,
    }
}

proof fn lemma_with_setting(s: RasterSettings, setting: Setting, value: Seq<char>)
    ensures
        with_setting(s, setting, value) is Ok <==> takes(setting, value),
        with_setting(s, setting, value) matches Ok(next) ==> {
            &&& next.positional == s.positional
            &&& s.zoom is Some ==> next.zoom is Some
            &&& next.numbers == match number_setting(setting) {
                Some(number) => s.numbers.push((number, value)),
                None => s.numbers,
            }
        },
{
    reveal(with_setting);
}

/// Behind accepted arguments an option is accepted exactly with the values that it takes. A
/// fractional value is handed on to the caller; other options hand nothing on.
pub proof fn law_option_behind_accepted_arguments(
    args: Seq<Seq<char>>,
    workers: usize,
    name: Seq<char>,
    value: Seq<char>,
)
    requires
        accepted(args, workers),
        setting_named(name) is Some,
    ensures
        ({
            let setting = setting_named(name)->0;
            let before = scan_raster_args(args, default_settings(workers)).0;
            let (after, end) = scan_raster_args(
                args + seq![name, value],
                default_settings(workers),
            );
            &&& accepted(args + seq![name, value], workers) <==> takes(setting, value)
            &&& end is Complete || end is Refused
            &&& match with_setting(before, setting, value) {
                Ok(next) => after == next,
                Err(message) => after == before && end == ArgsEnd::Refused(message),
            }
            &&& after.numbers == match number_setting(setting) {
                Some(number) => before.numbers.push((number, value)),
                None => before.numbers,
            }
        }),
{
    let setting = setting_named(name)->0;
    let before = scan_raster_args(args, default_settings(workers)).0;
    let last = seq![name, value];
    law_arguments_follow(args, last, default_settings(workers));
    lemma_names_differ(name);
    lemma_with_setting(before, setting, value);
    assert(last[0] == name && last[1] == value);
    assert(last.skip(2) =~= Seq::empty());
    if let Ok(next) = with_setting(before, setting, value) {
        assert(scan_raster_args(last.skip(2), next) == (next, ArgsEnd::Complete));
    }
}

/// No setting is one that no value can give: sizes and numbers of workers and threads are
/// positive, and the WebP method is one of seven.
pub open spec fn sound(s: RasterSettings) -> bool {
    &&& s.tile_size > 0
    &&& s.workers > 0
    &&& s.chunk_tiles != ChunkTiles::Fixed(0)
    &&& s.warp_threads != WarpThreads::Count(0)
    &&& 0 <= s.webp_method <= 6
}

proof fn lemma_setting_stays_sound(s: RasterSettings, setting: Setting, value: Seq<char>)
    requires
        sound(s),
    ensures
        with_setting(s, setting, value) matches Ok(next) ==> sound(next),
{
    if with_setting(s, setting, value) is Ok {
        let next = with_setting(s, setting, value)->Ok_0;
        match setting {
            Setting::TileSize => {
                assert(next == (RasterSettings { tile_size: next.tile_size, ..s }) && next.tile_size
                    > 0) by {
                    reveal(with_setting);
                }
            },
            Setting::Workers => {
                assert(next == (RasterSettings { workers: next.workers, ..s }) && next.workers > 0)
                    by {
                    reveal(with_setting);
                }
            },
            Setting::ChunkTiles => {
                assert(next == (RasterSettings { chunk_tiles: next.chunk_tiles, ..s })
                    && next.chunk_tiles != ChunkTiles::Fixed(0)) by {
                    reveal(with_setting);
                }
            },
            Setting::WarpThreads => {
                assert(next == (RasterSettings { warp_threads: next.warp_threads, ..s })
                    && next.warp_threads != WarpThreads::Count(0)) by {
                    reveal(with_setting);
                }
            },
            Setting::WebpMethod => {
                assert(next == (RasterSettings { webp_method: next.webp_method, ..s }) && 0
                    <= next.webp_method <= 6) by {
                    reveal(with_setting);
                }
            },
            _ => {
                assert(sound(next)) by {
                    reveal(with_setting);
                }
            },
        }
    }
}

/// Whatever the arguments, the settings stay sound.
pub proof fn law_settings_stay_sound(args: Seq<Seq<char>>, s: RasterSettings)
    requires
        sound(s),
    ensures
        sound(scan_raster_args(args, s).0),
    decreases args.len(),
{
    if args.len() > 0 {
        if let ArgStep::Next(next, rest) = arg_step(args, s) {
            if let Some(setting) = setting_named(args[0]) {
                lemma_setting_stays_sound(s, setting, args[1]);
            } else if let Some((setting, value)) = joined_setting(args[0]) {
                lemma_setting_stays_sound(s, setting, value);
            }
            law_settings_stay_sound(rest, next);
        }
    }
}

/// The text holds no `=`.
spec fn plain(s: Seq<char>) -> bool {
    forall|i: int| 0 <= i < s.len() ==> s[i] != '='
}

proof fn lemma_names_are_plain(name: Seq<char>)
    requires
        setting_named(name) is Some,
    ensures
        plain(name),
{
    reveal(setting_named);
    reveal_strlit("--zoom");
    reveal_strlit("--bounds");
    reveal_strlit("--format");
    reveal_strlit("--tile-size");
    reveal_strlit("--workers");
    reveal_strlit("--chunk-tiles");
    reveal_strlit("--warp-memory");
    reveal_strlit("--warp-threads");
    reveal_strlit("--resampling");
    reveal_strlit("--strategy");
    reveal_strlit("--quality");
    reveal_strlit("--webp-quality");
    reveal_strlit("--webp-method");
    reveal_strlit("--warp-option");
    reveal_strlit("--gdal-cache");
    reveal_strlit("--gdal-config");
    reveal_strlit("--open-option");
    reveal_strlit("--gdal-disable-readdir");
}

/// An option and its value mean the same as two arguments and as one argument with `=` between
/// them.
pub proof fn law_joined_values_agree(
    name: Seq<char>,
    value: Seq<char>,
    rest: Seq<Seq<char>>,
    s: RasterSettings,
)
    requires
        setting_named(name) is Some,
    ensures
        scan_raster_args(seq![name, value] + rest, s) == scan_raster_args(
            seq![name + seq!['='] + value] + rest,
            s,
        ),
{
    let two = seq![name, value] + rest;
    let one = seq![name + seq!['='] + value] + rest;
    let arg = name + seq!['='] + value;
    lemma_names_are_plain(name);
    assert(two[0] == name && two[1] == value);
    assert(two.skip(2) =~= rest);
    assert(one[0] == arg);
    assert(one.skip(1) =~= rest);
    assert(arg[name.len() as int] == '=');
    assert forall|k: int| 0 <= k < name.len() implies arg[k] != '=' by {
        assert(arg[k] == name[k]);
    }
    lemma_find(arg, '=', name.len() as int);
    assert(arg.take(find(arg, '=') as int) =~= name);
    assert(arg.skip(find(arg, '=') as int + 1) =~= value);
    if setting_named(arg) is Some {
        lemma_names_are_plain(arg);
    }
    reveal_strlit("-h");
    reveal_strlit("--help");
    reveal_strlit("--plan");
    assert("-h"@ =~= seq!['-', 'h']);
    assert(plain("-h"@) && plain("--help"@) && plain("--plan"@));
    lemma_names_differ(name);
}

proof fn lemma_names_differ(name: Seq<char>)
    requires
        setting_named(name) is Some,
    ensures
        name != "-h"@,
        name != "--help"@,
        name != "--plan"@,
{
    reveal(setting_named);
    reveal_strlit("-h");
    reveal_strlit("--help");
    reveal_strlit("--plan");
    reveal_strlit("--zoom");
    reveal_strlit("--bounds");
    reveal_strlit("--format");
    reveal_strlit("--tile-size");
    reveal_strlit("--workers");
    reveal_strlit("--chunk-tiles");
    reveal_strlit("--warp-memory");
    reveal_strlit("--warp-threads");
    reveal_strlit("--resampling");
    reveal_strlit("--strategy");
    reveal_strlit("--quality");
    reveal_strlit("--webp-quality");
    reveal_strlit("--webp-method");
    reveal_strlit("--warp-option");
    reveal_strlit("--gdal-cache");
    reveal_strlit("--gdal-config");
    reveal_strlit("--open-option");
    reveal_strlit("--gdal-disable-readdir");
    assert(name.len() > 2);
    assert(name.len() == 6 ==> name[2] == 'z');
    assert("--help"@[2] == 'h' && "--plan"@[2] == 'p');
}

/// Each option has its name, the quality has two, and nothing else is an option with a value.
pub proof fn law_option_names(name: Seq<char>)
    ensures
        setting_named("--zoom"@) == Some(Setting::Zoom),
        setting_named("--bounds"@) == Some(Setting::Bounds),
        setting_named("--format"@) == Some(Setting::Format),
        setting_named("--tile-size"@) == Some(Setting::TileSize),
        setting_named("--workers"@) == Some(Setting::Workers),
        setting_named("--chunk-tiles"@) == Some(Setting::ChunkTiles),
        setting_named("--warp-memory"@) == Some(Setting::WarpMemory),
        setting_named("--warp-threads"@) == Some(Setting::WarpThreads),
        setting_named("--resampling"@) == Some(Setting::Resampling),
        setting_named("--strategy"@) == Some(Setting::Strategy),
        setting_named("--quality"@) == Some(Setting::Quality),
        setting_named("--webp-quality"@) == Some(Setting::Quality),
        setting_named("--webp-method"@) == Some(Setting::WebpMethod),
        setting_named("--warp-option"@) == Some(Setting::WarpOption),
        setting_named("--gdal-cache"@) == Some(Setting::GdalCache),
        setting_named("--gdal-config"@) == Some(Setting::GdalConfig),
        setting_named("--open-option"@) == Some(Setting::OpenOption),
        setting_named("--gdal-disable-readdir"@) == Some(Setting::DisableReaddir),
        setting_named(name) is Some ==> {
            ||| name == "--zoom"@
            ||| name == "--bounds"@
            ||| name == "--format"@
            ||| name == "--tile-size"@
            ||| name == "--workers"@
            ||| name == "--chunk-tiles"@
            ||| name == "--warp-memory"@
            ||| name == "--warp-threads"@
            ||| name == "--resampling"@
            ||| name == "--strategy"@
            ||| name == "--quality"@
            ||| name == "--webp-quality"@
            ||| name == "--webp-method"@
            ||| name == "--warp-option"@
            ||| name == "--gdal-cache"@
            ||| name == "--gdal-config"@
            ||| name == "--open-option"@
            ||| name == "--gdal-disable-readdir"@
        },
{
    reveal(setting_named);
    reveal_strlit("--zoom");
    reveal_strlit("--bounds");
    reveal_strlit("--format");
    reveal_strlit("--tile-size");
    reveal_strlit("--workers");
    reveal_strlit("--chunk-tiles");
    reveal_strlit("--warp-memory");
    reveal_strlit("--warp-threads");
    reveal_strlit("--resampling");
    reveal_strlit("--strategy");
    reveal_strlit("--quality");
    reveal_strlit("--webp-quality");
    reveal_strlit("--webp-method");
    reveal_strlit("--warp-option");
    reveal_strlit("--gdal-cache");
    reveal_strlit("--gdal-config");
    reveal_strlit("--open-option");
    reveal_strlit("--gdal-disable-readdir");
    assert("--zoom"@.len() == 6);
    assert("--bounds"@.len() == 8);
    assert("--format"@.len() == 8);
    assert("--tile-size"@.len() == 11);
    assert("--workers"@.len() == 9);
    assert("--chunk-tiles"@.len() == 13);
    assert("--warp-memory"@.len() == 13);
    assert("--warp-threads"@.len() == 14);
    assert("--resampling"@.len() == 12);
    assert("--strategy"@.len() == 10);
    assert("--quality"@.len() == 9);
    assert("--webp-quality"@.len() == 14);
    assert("--webp-method"@.len() == 13);
    assert("--warp-option"@.len() == 13);
    assert("--gdal-cache"@.len() == 12);
    assert("--gdal-config"@.len() == 13);
    assert("--open-option"@.len() == 13);
    assert("--gdal-disable-readdir"@.len() == 22);
    assert("--format"@[2] == 'f' && "--bounds"@[2] == 'b');
    assert("--warp-memory"@[2] == 'w' && "--chunk-tiles"@[2] == 'c');
    assert("--quality"@[2] == 'q' && "--workers"@[2] == 'w');
    assert("--webp-quality"@[3] == 'e' && "--warp-threads"@[3] == 'a');
    assert("--webp-method"@[2] == 'w' && "--chunk-tiles"@[2] == 'c');
    assert("--webp-method"@[3] == 'e' && "--warp-memory"@[3] == 'a');
    assert("--warp-option"@[2] == 'w' && "--chunk-tiles"@[2] == 'c');
    assert("--warp-option"@[7] == 'o' && "--warp-memory"@[7] == 'm');
    assert("--warp-option"@[3] == 'a' && "--webp-method"@[3] == 'e');
    assert("--gdal-cache"@[2] == 'g' && "--resampling"@[2] == 'r');
    assert("--gdal-config"@[2] == 'g' && "--chunk-tiles"@[2] == 'c');
    assert("--gdal-config"@[2] == 'g' && "--warp-memory"@[2] == 'w');
    assert("--gdal-config"@[2] == 'g' && "--webp-method"@[2] == 'w');
    assert("--gdal-config"@[2] == 'g' && "--warp-option"@[2] == 'w');
    assert("--open-option"@[2] == 'o' && "--chunk-tiles"@[2] == 'c');
    assert("--open-option"@[2] == 'o' && "--warp-memory"@[2] == 'w');
    assert("--open-option"@[2] == 'o' && "--webp-method"@[2] == 'w');
    assert("--open-option"@[2] == 'o' && "--warp-option"@[2] == 'w');
    assert("--open-option"@[2] == 'o' && "--gdal-config"@[2] == 'g');
}

/// An option sets what it is named for, to the value that its text stands for, and nothing else.
pub proof fn law_options_set_what_they_name(s: RasterSettings, setting: Setting, value: Seq<char>)
    ensures
        ({
            let r = with_setting(s, setting, value);
            match setting {
                Setting::Zoom => match zoom_choice(value) {
                    Ok(v) => r == Ok::<RasterSettings, Seq<char>>(
                        RasterSettings { zoom: Some(v), ..s },
                    ),
                    Err(message) => r == Err::<RasterSettings, Seq<char>>(message),
                },
                Setting::Format => match format_choice(value) {
                    Ok(v) => r == Ok::<RasterSettings, Seq<char>>(
                        RasterSettings { format: v, ..s },
                    ),
                    Err(message) => r == Err::<RasterSettings, Seq<char>>(message),
                },
                Setting::TileSize => match tile_size_choice(value) {
                    Ok(v) => r == Ok::<RasterSettings, Seq<char>>(
                        RasterSettings { tile_size: v, ..s },
                    ),
                    Err(message) => r == Err::<RasterSettings, Seq<char>>(message),
                },
                Setting::Workers => match workers_choice(value) {
                    Ok(v) => r == Ok::<RasterSettings, Seq<char>>(
                        RasterSettings { workers: v, ..s },
                    ),
                    Err(message) => r == Err::<RasterSettings, Seq<char>>(message),
                },
                Setting::ChunkTiles => match chunk_tiles_choice(value) {
                    Ok(v) => r == Ok::<RasterSettings, Seq<char>>(
                        RasterSettings { chunk_tiles: v, ..s },
                    ),
                    Err(message) => r == Err::<RasterSettings, Seq<char>>(message),
                },
                Setting::WarpThreads => match warp_threads_choice(value) {
                    Ok(v) => r == Ok::<RasterSettings, Seq<char>>(
                        RasterSettings { warp_threads: v, ..s },
                    ),
                    Err(message) => r == Err::<RasterSettings, Seq<char>>(message),
                },
                Setting::Resampling => match resampling_choice(value) {
                    Ok(v) => r == Ok::<RasterSettings, Seq<char>>(
                        RasterSettings { resampling: v, ..s },
                    ),
                    Err(message) => r == Err::<RasterSettings, Seq<char>>(message),
                },
                Setting::Strategy => match strategy_choice(value) {
                    Ok(v) => r == Ok::<RasterSettings, Seq<char>>(
                        RasterSettings { strategy: v, ..s },
                    ),
                    Err(message) => r == Err::<RasterSettings, Seq<char>>(message),
                },
                Setting::WebpMethod => match webp_method_choice(value) {
                    Ok(v) => r == Ok::<RasterSettings, Seq<char>>(
                        RasterSettings { webp_method: v, ..s },
                    ),
                    Err(message) => r == Err::<RasterSettings, Seq<char>>(message),
                },
                Setting::WarpOption => match name_value_choice(value) {
                    Ok(v) => r == Ok::<RasterSettings, Seq<char>>(
                        RasterSettings { warp_options: s.warp_options.push(v), ..s },
                    ),
                    Err(message) => r == Err::<RasterSettings, Seq<char>>(message),
                },
                Setting::GdalConfig => match name_value_choice(value) {
                    Ok(v) => r == Ok::<RasterSettings, Seq<char>>(
                        RasterSettings { config_options: s.config_options.push(v), ..s },
                    ),
                    Err(message) => r == Err::<RasterSettings, Seq<char>>(message),
                },
                Setting::OpenOption => match name_value_choice(value) {
                    Ok(v) => r == Ok::<RasterSettings, Seq<char>>(
                        RasterSettings { open_options: s.open_options.push(v), ..s },
                    ),
                    Err(message) => r == Err::<RasterSettings, Seq<char>>(message),
                },
                Setting::DisableReaddir => match disable_readdir_choice(value) {
                    Ok(v) => r == Ok::<RasterSettings, Seq<char>>(
                        RasterSettings {
                            config_options: s.config_options.push(
                                ("GDAL_DISABLE_READDIR_ON_OPEN"@, v),
                            ),
                            ..s
                        },
                    ),
                    Err(message) => r == Err::<RasterSettings, Seq<char>>(message),
                },
                Setting::Bounds => r == Ok::<RasterSettings, Seq<char>>(
                    RasterSettings {
                        numbers: s.numbers.push((NumberSetting::Bounds, value)),
                        ..s
                    },
                ),
                Setting::WarpMemory => r == Ok::<RasterSettings, Seq<char>>(
                    RasterSettings {
                        numbers: s.numbers.push((NumberSetting::WarpMemory, value)),
                        ..s
                    },
                ),
                Setting::Quality => r == Ok::<RasterSettings, Seq<char>>(
                    RasterSettings {
                        numbers: s.numbers.push((NumberSetting::Quality, value)),
                        ..s
                    },
                ),
                Setting::GdalCache => r == Ok::<RasterSettings, Seq<char>>(
                    RasterSettings {
                        numbers: s.numbers.push((NumberSetting::GdalCache, value)),
                        ..s
                    },
                ),
            }
        }),
{
    reveal(with_setting);
}

/// What holds without options: WebP tiles of 512 pixels, blocks of eight by eight tiles, all
/// processors for each warp, bilinear resampling, the WebP method 4, and rendering at once in a
/// way that is left open.
pub proof fn law_defaults(workers: usize)
    ensures
        ({
            let s = default_settings(workers);
            &&& s.positional.len() == 0
            &&& s.zoom is None
            &&& s.format == RasterFormat::Webp
            &&& s.tile_size == 512
            &&& s.workers == workers
            &&& s.chunk_tiles == ChunkTiles::Fixed(8)
            &&& s.warp_threads == WarpThreads::All
            &&& s.resampling == Resampling::Bilinear
            &&& s.strategy == StrategyPreference::Auto
            &&& s.webp_method == 4
            &&& s.config_options.len() == 0
            &&& s.open_options.len() == 0
            &&& s.warp_options.len() == 0
            &&& !s.plan_only
            &&& s.numbers.len() == 0
        }),
{
}

/// Arguments are taken one after the other: help ends them; `--plan` asks for a plan; an option
/// takes the next argument, which must be there; another argument that starts with a hyphen is
/// unknown; and every other one is a path.
pub proof fn law_arguments_are_taken_in_turn(
    arg: Seq<char>,
    value: Seq<char>,
    rest: Seq<Seq<char>>,
    s: RasterSettings,
)
    ensures
        scan_raster_args(Seq::empty(), s) == (s, ArgsEnd::Complete),
        scan_raster_args(seq!["-h"@] + rest, s) == (s, ArgsEnd::Help),
        scan_raster_args(seq!["--help"@] + rest, s) == (s, ArgsEnd::Help),
        scan_raster_args(seq!["--plan"@] + rest, s) == scan_raster_args(
            rest,
            RasterSettings { plan_only: true, ..s },
        ),
        setting_named(arg) matches Some(setting) ==> {
            &&& scan_raster_args(seq![arg], s) == (
                s,
                ArgsEnd::Refused(setting.name() + " requires a value"@),
            )
            &&& scan_raster_args(seq![arg, value] + rest, s) == match with_setting(
                s,
                setting,
                value,
            ) {
                Ok(next) => scan_raster_args(rest, next),
                Err(message) => (s, ArgsEnd::Refused(message)),
            }
        },
        arg.len() == 0 || (arg[0] != '-' && !arg.contains('=')) ==> scan_raster_args(
            seq![arg] + rest,
            s,
        ) == scan_raster_args(
            rest,
            RasterSettings { positional: s.positional.push(arg), ..s },
        ),
        arg.len() > 0 && arg[0] == '-' && arg != "-h"@ && arg != "--help"@ && arg != "--plan"@
            && setting_named(arg) is None && !arg.contains('=') ==> scan_raster_args(
            seq![arg] + rest,
            s,
        ) == (s, ArgsEnd::Refused("unknown raster option `"@ + arg + "`"@)),
{
    let one = seq![arg] + rest;
    assert(one[0] == arg);
    assert(one.skip(1) =~= rest);
    reveal_strlit("-h");
    reveal_strlit("--help");
    reveal_strlit("--plan");
    reveal_strlit("-");
    let plan = seq!["--plan"@] + rest;
    assert(plan[0] == "--plan"@ && plan.skip(1) =~= rest);
    assert("--plan"@[0] == '-' && "-h"@[0] == '-' && "--help"@[0] == '-');
    assert("--plan"@[2] == 'p' && "--help"@[2] == 'h' && "-h"@.len() == 2);
    assert((seq!["-h"@] + rest)[0] == "-h"@);
    assert((seq!["--help"@] + rest)[0] == "--help"@);
    if setting_named(arg) is Some {
        lemma_names_differ(arg);
        let two = seq![arg, value] + rest;
        assert(two[0] == arg && two[1] == value);
        assert(two.skip(2) =~= rest);
    }
    law_split_once(arg, '=');
    assert("-"@ =~= seq!['-']);
    if arg.len() > 0 {
        assert(arg.take(1)[0] == arg[0]);
        assert(arg[0] == '-' ==> arg.take(1) =~= "-"@);
        assert(arg[0] != '-' ==> arg.take(1) != "-"@);
    }
    if setting_named(arg) is Some {
        lemma_names_start(arg);
    }
}

proof fn lemma_names_start(name: Seq<char>)
    requires
        setting_named(name) is Some,
    ensures
        name.len() > 0,
        name[0] == '-',
{
    reveal(setting_named);
    reveal_strlit("--zoom");
    reveal_strlit("--bounds");
    reveal_strlit("--format");
    reveal_strlit("--tile-size");
    reveal_strlit("--workers");
    reveal_strlit("--chunk-tiles");
    reveal_strlit("--warp-memory");
    reveal_strlit("--warp-threads");
    reveal_strlit("--resampling");
    reveal_strlit("--strategy");
    reveal_strlit("--quality");
    reveal_strlit("--webp-quality");
    reveal_strlit("--webp-method");
    reveal_strlit("--warp-option");
    reveal_strlit("--gdal-cache");
    reveal_strlit("--gdal-config");
    reveal_strlit("--open-option");
    reveal_strlit("--gdal-disable-readdir");
}

/// The options of a rendering task are what was set: the first path is the source and the second
/// the archive.
pub proof fn law_options_hold_settings(o: RasterOptions, s: RasterSettings, zoom: (u8, u8))
    requires
        o.from_settings(s, zoom),
    ensures
        o.input@ == s.positional[0],
        o.output@ == s.positional[1],
        o.min_zoom == zoom.0,
        o.max_zoom == zoom.1,
        o.format == s.format,
        o.tile_size == s.tile_size,
        o.workers == s.workers,
        o.chunk_tiles == s.chunk_tiles,
        o.warp_threads == s.warp_threads,
        o.resampling == s.resampling,
        o.strategy == s.strategy,
        o.webp_method == s.webp_method,
        o.plan_only == s.plan_only,
        o.warp_memory_bytes == 536_870_912,
        o.gdal_tuning.cache_bytes is None,
        o.warp_options@.len() == s.warp_options.len(),
        forall|i: int|
            0 <= i < s.warp_options.len() ==> (#[trigger] o.warp_options@[i]).0@
                == s.warp_options[i].0 && o.warp_options@[i].1@ == s.warp_options[i].1,
        o.gdal_tuning.config_options@.len() == s.config_options.len(),
        forall|i: int|
            0 <= i < s.config_options.len() ==> (#[trigger] o.gdal_tuning.config_options@[i]).0@
                == s.config_options[i].0 && o.gdal_tuning.config_options@[i].1@
                == s.config_options[i].1,
        o.gdal_tuning.open_options@.len() == s.open_options.len(),
        forall|i: int|
            0 <= i < s.open_options.len() ==> (#[trigger] o.gdal_tuning.open_options@[i]).0@
                == s.open_options[i].0 && o.gdal_tuning.open_options@[i].1@
                == s.open_options[i].1,
{
    assert forall|i: int| 0 <= i < s.warp_options.len() implies (
    #[trigger] o.warp_options@[i]).0@ == s.warp_options[i].0 && o.warp_options@[i].1@
        == s.warp_options[i].1 by {
        assert(pairs(o.warp_options@)[i] == s.warp_options[i]);
    }
    assert forall|i: int| 0 <= i < s.config_options.len() implies (
    #[trigger] o.gdal_tuning.config_options@[i]).0@ == s.config_options[i].0
        && o.gdal_tuning.config_options@[i].1@ == s.config_options[i].1 by {
        assert(pairs(o.gdal_tuning.config_options@)[i] == s.config_options[i]);
    }
    assert forall|i: int| 0 <= i < s.open_options.len() implies (
    #[trigger] o.gdal_tuning.open_options@[i]).0@ == s.open_options[i].0
        && o.gdal_tuning.open_options@[i].1@ == s.open_options[i].1 by {
        assert(pairs(o.gdal_tuning.open_options@)[i] == s.open_options[i]);
    }
}

/// What comes of the arguments: help where it was asked for, a refusal with its message, or
/// options, for which two paths and the zoom levels must have been given.
pub proof fn law_outcome(outcome: RasterOutcome, s: RasterSettings, end: ArgsEnd)
    requires
        outcome.follows(s, end),
    ensures
        end is Help ==> outcome is Help,
        end matches ArgsEnd::Refused(message) ==> (outcome matches RasterOutcome::Refused(e)
            && e.kind == ErrorKind::InvalidInput && e.message@ == message),
        end is Complete && s.positional.len() != 2 ==> (outcome matches RasterOutcome::Refused(e)
            && e.kind == ErrorKind::InvalidInput && e.message@
            == "raster requires <RASTER_OR_VRT> and <OUTPUT.pmtiles>"@),
        end is Complete && s.positional.len() == 2 && s.zoom is None ==> (
        outcome matches RasterOutcome::Refused(e) && e.kind == ErrorKind::InvalidInput && e.message@
            == "raster requires --zoom"@),
        end is Complete && s.positional.len() == 2 ==> (s.zoom matches Some(zoom) ==> (
        outcome matches RasterOutcome::Options(o) && o.from_settings(s, zoom))),
{
}

/// Messages speak of each option by its own name.
pub proof fn law_setting_names(setting: Setting)
    ensures
        setting_named(setting.name()) == Some(setting),
        Setting::Quality.name() == "--quality"@,
{
    law_option_names(setting.name());
}

/// An argument with `=` in it that does not start with the name of an option is a path, or an
/// unknown option where it starts with a hyphen.
pub proof fn law_other_arguments_with_equals(
    name: Seq<char>,
    value: Seq<char>,
    rest: Seq<Seq<char>>,
    s: RasterSettings,
)
    requires
        setting_named(name) is None,
        !name.contains('='),
    ensures
        ({
            let arg = name + seq!['='] + value;
            scan_raster_args(seq![arg] + rest, s) == if name.len() > 0 && name[0] == '-' {
                (s, ArgsEnd::Refused("unknown raster option `"@ + arg + "`"@))
            } else {
                scan_raster_args(
                    rest,
                    RasterSettings { positional: s.positional.push(arg), ..s },
                )
            }
        }),
{
    let arg = name + seq!['='] + value;
    let one = seq![arg] + rest;
    assert(one[0] == arg);
    assert(one.skip(1) =~= rest);
    assert(arg[name.len() as int] == '=');
    assert forall|k: int| 0 <= k < name.len() implies arg[k] != '=' by {
        assert(arg[k] == name[k]);
        assert(name.contains(name[k]));
    }
    lemma_find(arg, '=', name.len() as int);
    assert(arg.take(find(arg, '=') as int) =~= name);
    if setting_named(arg) is Some {
        lemma_names_are_plain(arg);
    }
    reveal_strlit("-h");
    reveal_strlit("--help");
    reveal_strlit("--plan");
    reveal_strlit("-");
    assert("-"@ =~= seq!['-']);
    assert(plain("-h"@) && plain("--help"@) && plain("--plan"@));
    assert(arg.take(1)[0] == arg[0]);
    assert(arg[0] == if name.len() > 0 {
        name[0]
    } else {
        '='
    });
    assert(arg[0] == '-' ==> arg.take(1) =~= "-"@);
    assert(arg[0] != '-' ==> arg.take(1) != "-"@);
}

} // verus!
