//! The commands of the program, and the arguments of those that read no raster.
use vstd::prelude::*;

use crate::args::{expect_arg, missing_value, quoted, starts_with_hyphen, ArgsEnd};
use crate::error::{answers, invalid_input, Error, ErrorKind};
use crate::numbers::{law_unsigned_value, parse_u32, unsigned_value};
use crate::text::{decimal, has_prefix, text_eq, texts};

verus! {

/// What the first arguments ask for.
#[derive(Clone, Copy, Debug, PartialEq, Eq, Structural)]
pub enum Command {
    Help,
    Pack,
    Raster,
    Inspect,
    HelpPack,
    HelpRaster,
    HelpInspect,
}

/// The message about a command that does not exist.
pub open spec fn unknown_command(command: Seq<char>) -> Seq<char> {
    "unknown command `"@ + command + "`"@
}

/// The command that the arguments name; without arguments, help.
pub open spec fn command_of(args: Seq<Seq<char>>) -> Result<Command, Seq<char>> {
    if args.len() == 0 || args[0] == "-h"@ || args[0] == "--help"@ {
        Ok(Command::Help)
    } else if args[0] == "pack"@ {
        Ok(Command::Pack)
    } else if args[0] == "inspect"@ {
        Ok(Command::Inspect)
    } else if args[0] == "raster"@ {
        Ok(Command::Raster)
    } else if args[0] == "help"@ {
        if args.len() == 1 {
            Ok(Command::Help)
        } else if args[1] == "pack"@ {
            Ok(Command::HelpPack)
        } else if args[1] == "raster"@ {
            Ok(Command::HelpRaster)
        } else if args[1] == "inspect"@ {
            Ok(Command::HelpInspect)
        } else {
            Err(unknown_command(args[1]))
        }
    } else {
        Err(unknown_command(args[0]))
    }
}

/// Reads the command from the arguments of the program.
pub fn parse_command(args: &Vec<String>) -> (r: Result<Command, Error>)
    ensures
        answers(r, command_of(texts(args@))),
{
    if args.len() == 0 {
        return Ok(Command::Help);
    }
    let command = args[0].as_str();
    assert(texts(args@)[0] == command@);
    if text_eq(command, "-h") || text_eq(command, "--help") {
        return Ok(Command::Help);
    }
    if text_eq(command, "pack") {
        return Ok(Command::Pack);
    }
    if text_eq(command, "inspect") {
        return Ok(Command::Inspect);
    }
    if text_eq(command, "raster") {
        return Ok(Command::Raster);
    }
    if text_eq(command, "help") {
        if args.len() == 1 {
            return Ok(Command::Help);
        }
        let topic = args[1].as_str();
        assert(texts(args@)[1] == topic@);
        if text_eq(topic, "pack") {
            return Ok(Command::HelpPack);
        }
        if text_eq(topic, "raster") {
            return Ok(Command::HelpRaster);
        }
        if text_eq(topic, "inspect") {
            return Ok(Command::HelpInspect);
        }
        return Err(quoted("unknown command `", topic));
    }
    Err(quoted("unknown command `", command))
}

/// What is packed, and what its metadata say.
#[derive(Debug)]
pub struct PackOptions {
    pub input_dir: String,
    pub output: String,
    pub name: Option<String>,
    pub description: Option<String>,
    pub attribution: Option<String>,
    pub tile_size: u32,
}

/// What is done with the arguments of the pack command.
#[derive(Debug)]
pub enum PackOutcome {
    Help,
    Refused(Error),
    Options(PackOptions),
}

/// What the arguments of the pack command have set so far.
pub ghost struct PackSettings {
    pub positional: Seq<Seq<char>>,
    pub name: Option<Seq<char>>,
    pub description: Option<Seq<char>>,
    pub attribution: Option<Seq<char>>,
    pub tile_size: u32,
}

/// What holds where no option is given.
pub open spec fn default_pack_settings() -> PackSettings {
    PackSettings {
        positional: Seq::empty(),
        name: None,
        description: None,
        attribution: None,
        tile_size: 512,
    }
}

/// The pack option takes a value.
pub open spec fn takes_pack_value(arg: Seq<char>) -> bool {
    arg == "--name"@ || arg == "--description"@ || arg == "--attribution"@ || arg
        == "--tile-size"@
}

/// The settings after one more option, or the message that refuses its value.
pub open spec fn with_pack_setting(
    s: PackSettings,
    option: Seq<char>,
    value: Seq<char>,
) -> Result<PackSettings, Seq<char>> {
    if option == "--name"@ {
        Ok(PackSettings { name: Some(value), ..s })
    } else if option == "--description"@ {
        Ok(PackSettings { description: Some(value), ..s })
    } else if option == "--attribution"@ {
        Ok(PackSettings { attribution: Some(value), ..s })
    } else {
        match unsigned_value(value, u32::MAX as nat) {
            Some(tile_size) => Ok(PackSettings { tile_size: tile_size as u32, ..s }),
            None => Err("--tile-size must be an integer"@),
        }
    }
}

/// What all arguments together set, and how going through them ends.
pub open spec fn scan_pack_args(args: Seq<Seq<char>>, s: PackSettings) -> (PackSettings, ArgsEnd)
    decreases args.len(),
{
    if args.len() == 0 {
        (s, ArgsEnd::Complete)
    } else {
        let arg = args[0];
        if arg == "-h"@ || arg == "--help"@ {
            (s, ArgsEnd::Help)
        } else if takes_pack_value(arg) {
            if args.len() == 1 {
                (s, ArgsEnd::Refused(missing_value(arg)))
            } else {
                match with_pack_setting(s, arg, args[1]) {
                    Ok(next) => scan_pack_args(args.skip(2), next),
                    Err(message) => (s, ArgsEnd::Refused(message)),
                }
            }
        } else if has_prefix(arg, "-"@) {
            (s, ArgsEnd::Refused("unknown option `"@ + arg + "`"@))
        } else {
            scan_pack_args(
                args.skip(1),
                PackSettings { positional: s.positional.push(arg), ..s },
            )
        }
    }
}

/// The text in an option, where there is one.
pub open spec fn text_in(v: Option<String>) -> Option<Seq<char>> {
    match v {
        Some(s) => Some(s@),
        None => None,
    }
}

impl PackOptions {
    /// The options hold what the settings say.
    pub open spec fn from_settings(self, s: PackSettings) -> bool {
        &&& self.input_dir@ == s.positional[0]
        &&& self.output@ == s.positional[1]
        &&& text_in(self.name) == s.name
        &&& text_in(self.description) == s.description
        &&& text_in(self.attribution) == s.attribution
        &&& self.tile_size == s.tile_size
    }
}

impl PackOutcome {
    /// The outcome is a refusal with this message.
    pub open spec fn refuses(self, message: Seq<char>) -> bool {
        self matches PackOutcome::Refused(e) && e.says(ErrorKind::InvalidInput, message)
    }

    /// The outcome is the one that the settings and the end of the arguments call for.
    pub open spec fn follows(self, s: PackSettings, end: ArgsEnd) -> bool {
        match end {
            ArgsEnd::Help => self is Help,
            ArgsEnd::Refused(message) => self.refuses(message),
            ArgsEnd::Complete => if s.positional.len() != 2 {
                self.refuses("pack requires <TILE_DIR> and <OUTPUT.pmtiles>"@)
            } else {
                self matches PackOutcome::Options(o) && o.from_settings(s)
            },
        }
    }
}

/// Reads the arguments of the pack command.
pub fn parse_pack_args(args: &Vec<String>) -> (r: PackOutcome)
    ensures
        ({
            let (s, end) = scan_pack_args(texts(args@), default_pack_settings());
            r.follows(s, end)
        }),
{
    let ghost given = texts(args@);
    let ghost all = scan_pack_args(given, default_pack_settings());
    let mut positional: Vec<String> = Vec::new();
    let mut name: Option<String> = None;
    let mut description: Option<String> = None;
    let mut attribution: Option<String> = None;
    let mut tile_size: u32 = 512;
    let mut i: usize = 0;
    let ghost mut s = default_pack_settings();
    assert(given.skip(0) =~= given);
    assert(texts(positional@) =~= Seq::empty());
    while i < args.len()
        invariant
            i <= args@.len(),
            given == texts(args@),
            all == scan_pack_args(given, default_pack_settings()),
            all == scan_pack_args(given.skip(i as int), s),
            s == (PackSettings {
                positional: texts(positional@),
                name: text_in(name),
                description: text_in(description),
                attribution: text_in(attribution),
                tile_size,
            }),
        decreases args@.len() - i,
    {
        let arg = args[i].as_str();
        let ghost rest = given.skip(i as int);
        assert(rest[0] == arg@);
        assert(rest.skip(1) =~= given.skip(i + 1));
        if text_eq(arg, "-h") || text_eq(arg, "--help") {
            return PackOutcome::Help;
        }
        if text_eq(arg, "--name") || text_eq(arg, "--description") || text_eq(arg, "--attribution")
            || text_eq(arg, "--tile-size") {
            i = i + 1;
            match expect_arg(args, i, arg) {
                Ok(value) => {
                    assert(rest[1] == value@);
                    assert(rest.skip(2) =~= given.skip(i + 1));
                    if text_eq(arg, "--name") {
                        name = Some(value.to_owned());
                        proof {
                            s = PackSettings { name: Some(value@), ..s };
                        }
                    } else if text_eq(arg, "--description") {
                        description = Some(value.to_owned());
                        proof {
                            s = PackSettings { description: Some(value@), ..s };
                        }
                    } else if text_eq(arg, "--attribution") {
                        attribution = Some(value.to_owned());
                        proof {
                            s = PackSettings { attribution: Some(value@), ..s };
                        }
                    } else {
                        match parse_u32(value) {
                            Some(number) => {
                                tile_size = number;
                                proof {
                                    s = PackSettings { tile_size: number, ..s };
                                }
                            },
                            None => {
                                return PackOutcome::Refused(
                                    invalid_input("--tile-size must be an integer"),
                                );
                            },
                        }
                    }
                },
                Err(error) => {
                    return PackOutcome::Refused(error);
                },
            }
        } else if starts_with_hyphen(arg) {
            return PackOutcome::Refused(quoted("unknown option `", arg));
        } else {
            positional.push(arg.to_owned());
            proof {
                s = PackSettings { positional: s.positional.push(arg@), ..s };
                assert(texts(positional@) =~= s.positional);
            }
        }
        i = i + 1;
    }
    let ghost names = positional@;
    if positional.len() != 2 {
        return PackOutcome::Refused(
            invalid_input("pack requires <TILE_DIR> and <OUTPUT.pmtiles>"),
        );
    }
    let input_dir = positional.remove(0);
    let output = positional.remove(0);
    assert(texts(names)[0] == input_dir@ && texts(names)[1] == output@);
    PackOutcome::Options(
        PackOptions { input_dir, output, name, description, attribution, tile_size },
    )
}

/// What is done with the arguments of the inspect command.
#[derive(Debug)]
pub enum InspectOutcome {
    Help,
    Refused(Error),
    Archive(String),
}

/// What the arguments of the inspect command ask for: help, a path, or nothing that can be done.
pub open spec fn inspect_of(args: Seq<Seq<char>>) -> (bool, Option<Seq<char>>) {
    if args.len() != 1 {
        (false, None)
    } else if args[0] == "-h"@ || args[0] == "--help"@ {
        (true, None)
    } else {
        (false, Some(args[0]))
    }
}

/// One argument is the path of an archive, unless it asks for help; none, or more than one, is
/// refused.
pub proof fn law_inspect_arguments(path: Seq<char>, args: Seq<Seq<char>>)
    ensures
        path != "-h"@ && path != "--help"@ ==> inspect_of(seq![path]) == (false, Some(path)),
        inspect_of(seq!["-h"@]) == (true, None::<Seq<char>>),
        inspect_of(seq!["--help"@]) == (true, None::<Seq<char>>),
        args.len() != 1 ==> inspect_of(args) == (false, None::<Seq<char>>),
{
}

/// Reads the arguments of the inspect command.
pub fn parse_inspect_args(args: &Vec<String>) -> (r: InspectOutcome)
    ensures
        ({
            let (help, path) = inspect_of(texts(args@));
            &&& r is Help <==> help
            &&& r is Refused <==> !help && path is None
            &&& path matches Some(p) ==> (r matches InspectOutcome::Archive(a) && a@ == p)
        }),
        if args@.len() != 1 {
            r matches InspectOutcome::Refused(e) && e.says(
                ErrorKind::InvalidInput,
                "inspect requires <ARCHIVE.pmtiles>"@,
            )
        } else if args@[0]@ == "-h"@ || args@[0]@ == "--help"@ {
            r is Help
        } else {
            r matches InspectOutcome::Archive(path) && path@ == args@[0]@
        },
{
    if args.len() != 1 {
        return InspectOutcome::Refused(invalid_input("inspect requires <ARCHIVE.pmtiles>"));
    }
    let arg = args[0].as_str();
    assert(texts(args@)[0] == arg@);
    if text_eq(arg, "-h") || text_eq(arg, "--help") {
        return InspectOutcome::Help;
    }
    InspectOutcome::Archive(arg.to_owned())
}

/// The first argument names the command, and behind `help` the second names the command that help
/// is asked for. Without arguments help is shown, and other names are refused.
pub proof fn law_commands(first: Seq<char>, second: Seq<char>, rest: Seq<Seq<char>>)
    ensures
        command_of(Seq::empty()) == Ok::<Command, Seq<char>>(Command::Help),
        command_of(seq!["-h"@] + rest) == Ok::<Command, Seq<char>>(Command::Help),
        command_of(seq!["--help"@] + rest) == Ok::<Command, Seq<char>>(Command::Help),
        command_of(seq!["pack"@] + rest) == Ok::<Command, Seq<char>>(Command::Pack),
        command_of(seq!["raster"@] + rest) == Ok::<Command, Seq<char>>(Command::Raster),
        command_of(seq!["inspect"@] + rest) == Ok::<Command, Seq<char>>(Command::Inspect),
        command_of(seq!["help"@]) == Ok::<Command, Seq<char>>(Command::Help),
        command_of(seq!["help"@, "pack"@] + rest) == Ok::<Command, Seq<char>>(Command::HelpPack),
        command_of(seq!["help"@, "raster"@] + rest) == Ok::<Command, Seq<char>>(
            Command::HelpRaster,
        ),
        command_of(seq!["help"@, "inspect"@] + rest) == Ok::<Command, Seq<char>>(
            Command::HelpInspect,
        ),
        second != "pack"@ && second != "raster"@ && second != "inspect"@ ==> command_of(
            seq!["help"@, second] + rest,
        ) == Err::<Command, Seq<char>>("unknown command `"@ + second + "`"@),
        first != "-h"@ && first != "--help"@ && first != "pack"@ && first != "raster"@ && first
            != "inspect"@ && first != "help"@ ==> command_of(seq![first] + rest) == Err::<
            Command,
            Seq<char>,
        >("unknown command `"@ + first + "`"@),
{
    reveal_strlit("-h");
    reveal_strlit("--help");
    reveal_strlit("pack");
    reveal_strlit("raster");
    reveal_strlit("inspect");
    reveal_strlit("help");
    assert("-h"@[0] == '-' && "--help"@[0] == '-' && "pack"@[0] == 'p' && "raster"@[0] == 'r'
        && "inspect"@[0] == 'i' && "help"@[0] == 'h');
    assert((seq!["-h"@] + rest)[0] == "-h"@);
    assert((seq!["--help"@] + rest)[0] == "--help"@);
    assert((seq!["pack"@] + rest)[0] == "pack"@);
    assert((seq!["raster"@] + rest)[0] == "raster"@);
    assert((seq!["inspect"@] + rest)[0] == "inspect"@);
    assert((seq![first] + rest)[0] == first);
    let two = seq!["help"@, "pack"@] + rest;
    assert(two[0] == "help"@ && two[1] == "pack"@);
    let two = seq!["help"@, "raster"@] + rest;
    assert(two[0] == "help"@ && two[1] == "raster"@);
    let two = seq!["help"@, "inspect"@] + rest;
    assert(two[0] == "help"@ && two[1] == "inspect"@);
    let two = seq!["help"@, second] + rest;
    assert(two[0] == "help"@ && two[1] == second);
}

/// Arguments of the pack command are taken one after the other. Each of its four options sets
/// what it is named for, and nothing else; the tile size is 512 where none is given.
pub proof fn law_pack_arguments(
    value: Seq<char>,
    size: nat,
    path: Seq<char>,
    rest: Seq<Seq<char>>,
    s: PackSettings,
)
    ensures
        default_pack_settings().positional.len() == 0,
        default_pack_settings().name is None,
        default_pack_settings().description is None,
        default_pack_settings().attribution is None,
        default_pack_settings().tile_size == 512,
        scan_pack_args(Seq::empty(), s) == (s, ArgsEnd::Complete),
        scan_pack_args(seq!["-h"@] + rest, s) == (s, ArgsEnd::Help),
        scan_pack_args(seq!["--help"@] + rest, s) == (s, ArgsEnd::Help),
        scan_pack_args(seq!["--name"@, value] + rest, s) == scan_pack_args(
            rest,
            PackSettings { name: Some(value), ..s },
        ),
        scan_pack_args(seq!["--description"@, value] + rest, s) == scan_pack_args(
            rest,
            PackSettings { description: Some(value), ..s },
        ),
        scan_pack_args(seq!["--attribution"@, value] + rest, s) == scan_pack_args(
            rest,
            PackSettings { attribution: Some(value), ..s },
        ),
        size <= u32::MAX ==> scan_pack_args(seq!["--tile-size"@, decimal(size)] + rest, s)
            == scan_pack_args(rest, PackSettings { tile_size: size as u32, ..s }),
        size > u32::MAX ==> scan_pack_args(seq!["--tile-size"@, decimal(size)] + rest, s) == (
            s,
            ArgsEnd::Refused("--tile-size must be an integer"@),
        ),
        scan_pack_args(seq!["--name"@], s) == (
            s,
            ArgsEnd::Refused("--name"@ + " requires a value"@),
        ),
        scan_pack_args(seq!["--tile-size"@], s) == (
            s,
            ArgsEnd::Refused("--tile-size"@ + " requires a value"@),
        ),
        path.len() == 0 || path[0] != '-' ==> scan_pack_args(seq![path] + rest, s)
            == scan_pack_args(rest, PackSettings { positional: s.positional.push(path), ..s }),
        path.len() > 0 && path[0] == '-' && path != "-h"@ && path != "--help"@ && path != "--name"@
            && path != "--description"@ && path != "--attribution"@ && path != "--tile-size"@
            ==> scan_pack_args(seq![path] + rest, s) == (
            s,
            ArgsEnd::Refused("unknown option `"@ + path + "`"@),
        ),
{
    reveal_strlit("-");
    reveal_strlit("-h");
    reveal_strlit("--help");
    reveal_strlit("--name");
    reveal_strlit("--description");
    reveal_strlit("--attribution");
    reveal_strlit("--tile-size");
    assert("--name"@[2] == 'n' && "--help"@[2] == 'h' && "--description"@[2] == 'd'
        && "--attribution"@[2] == 'a' && "--tile-size"@[2] == 't' && "-h"@.len() == 2);
    assert("--name"@[0] == '-' && "--help"@[0] == '-' && "--description"@[0] == '-'
        && "--attribution"@[0] == '-' && "--tile-size"@[0] == '-' && "-h"@[0] == '-');
    law_unsigned_value(size, Seq::empty(), u32::MAX as nat);
    assert((seq!["-h"@] + rest)[0] == "-h"@);
    assert((seq!["--help"@] + rest)[0] == "--help"@);
    let a = seq!["--name"@, value] + rest;
    assert(a[0] == "--name"@ && a[1] == value && a.skip(2) =~= rest);
    let a = seq!["--description"@, value] + rest;
    assert(a[0] == "--description"@ && a[1] == value && a.skip(2) =~= rest);
    let a = seq!["--attribution"@, value] + rest;
    assert(a[0] == "--attribution"@ && a[1] == value && a.skip(2) =~= rest);
    let a = seq!["--tile-size"@, decimal(size)] + rest;
    assert(a[0] == "--tile-size"@ && a[1] == decimal(size) && a.skip(2) =~= rest);
    let a = seq![path] + rest;
    assert(a[0] == path && a.skip(1) =~= rest);
    assert("-"@ =~= seq!['-']);
    if path.len() > 0 {
        assert(path.take(1)[0] == path[0]);
        assert(path[0] == '-' ==> path.take(1) =~= "-"@);
        assert(path[0] != '-' ==> path.take(1) != "-"@);
    }
}

/// What comes of the arguments of the pack command: help, a refusal with its message, or options,
/// for which two paths must have been given, that of the tiles first.
pub proof fn law_pack_outcome(outcome: PackOutcome, s: PackSettings, end: ArgsEnd)
    requires
        outcome.follows(s, end),
    ensures
        end is Help ==> outcome is Help,
        end matches ArgsEnd::Refused(message) ==> (outcome matches PackOutcome::Refused(e) && e.kind
            == ErrorKind::InvalidInput && e.message@ == message),
        end is Complete && s.positional.len() != 2 ==> (outcome matches PackOutcome::Refused(e)
            && e.kind == ErrorKind::InvalidInput && e.message@
            == "pack requires <TILE_DIR> and <OUTPUT.pmtiles>"@),
        end is Complete && s.positional.len() == 2 ==> (outcome matches PackOutcome::Options(o) && {
            &&& o.input_dir@ == s.positional[0]
            &&& o.output@ == s.positional[1]
            &&& o.tile_size == s.tile_size
            &&& (s.name is Some <==> o.name is Some)
            &&& (s.name matches Some(name) ==> o.name->0@ == name)
            &&& (s.description is Some <==> o.description is Some)
            &&& (s.description matches Some(text) ==> o.description->0@ == text)
            &&& (s.attribution is Some <==> o.attribution is Some)
            &&& (s.attribution matches Some(text) ==> o.attribution->0@ == text)
        }),
{
}

} // verus!
