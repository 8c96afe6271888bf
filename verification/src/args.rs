//! The command line.
use vstd::prelude::*;

use crate::config::{apply_config_file, parse_color, Config, ConfigError, Problem};
#[allow(unused_imports)]
use crate::config::{color_value, file_set, seen, Loaded, Settings};
use crate::number::parse_number;
#[allow(unused_imports)]
use crate::number::number_value;
use crate::text::same_text;
#[allow(unused_imports)]
use crate::text::texts;

verus! {

/// Where the command line says that the settings file is, and whether to read one.
pub struct ConfigSource {
    pub path: Option<String>,
    pub load: bool,
}

/// What a `ConfigSource` says.
#[verifier::ext_equal]
pub struct Source {
    pub path: Option<Seq<char>>,
    pub load: bool,
}

impl View for ConfigSource {
    type V = Source;

    open spec fn view(&self) -> Source {
        Source {
            path: match self.path {
                Some(path) => Some(path@),
                None => None,
            },
            load: self.load,
        }
    }
}

/// Whether an argument is an option whose value does not concern the settings file.
pub open spec fn takes_other_value(argument: Seq<char>) -> bool {
    argument == "--color"@ || argument == "--off-after"@ || argument == "--pam-service"@
}

/// What the options from number `i` on say of the settings file; a later one prevails.
/// The values of other options say nothing of it, nor does the power-off command, which
/// takes all that follows.
pub open spec fn source_from(args: Seq<Seq<char>>, i: int, source: Source) -> Result<
    Source,
    Problem<Seq<char>>,
>
    decreases args.len() + 1 - i,
{
    if i >= args.len() || args[i] == "--power-off-command"@ {
        Ok(source)
    } else if args[i] == "--config"@ {
        if i + 1 >= args.len() {
            Err(Problem::MissingPath)
        } else {
            source_from(args, i + 2, Source { path: Some(args[i + 1]), ..source })
        }
    } else if args[i] == "--no-config"@ {
        source_from(args, i + 1, Source { load: false, ..source })
    } else if takes_other_value(args[i]) {
        source_from(args, i + 2, source)
    } else {
        source_from(args, i + 1, source)
    }
}

/// What the arguments say of the settings file.
pub open spec fn source_of(args: Seq<Seq<char>>) -> Result<Source, Problem<Seq<char>>> {
    source_from(args, 0, Source { path: None, load: true })
}

/// Looks up in the arguments where the settings file is and whether to read one.
pub fn config_source(args: &Vec<String>) -> (source: Result<ConfigSource, ConfigError>)
    ensures
        match source {
            Ok(found) => source_of(texts(args@)) == Ok::<Source, Problem<Seq<char>>>(found@),
            Err(error) => source_of(texts(args@)) == Err::<Source, Problem<Seq<char>>>(error@),
        },
{
    let mut source = ConfigSource { path: None, load: true };
    let mut index: usize = 0;
    while index < args.len()
        invariant
            index <= args@.len(),
            source_of(texts(args@)) == source_from(texts(args@), index as int, source@),
        decreases args@.len() - index,
    {
        let arg: &str = args[index].as_str();
        let more = index + 1 < args.len();
        proof {
            assert(texts(args@)[index as int] == arg@);
            if more {
                assert(texts(args@)[index + 1] == args@[index + 1]@);
            }
        }
        if same_text(arg, "--power-off-command") {
            return Ok(source);
        } else if same_text(arg, "--config") {
            if !more {
                return Err(Problem::MissingPath);
            }
            source.path = Some(args[index + 1].clone());
            index = index + 2;
        } else if same_text(arg, "--no-config") {
            source.load = false;
            index = index + 1;
        } else if same_text(arg, "--color") || same_text(arg, "--off-after") || same_text(
            arg,
            "--pam-service",
        ) {
            if !more {
                assert(source_from(texts(args@), index + 2, source@) == Ok::<
                    Source,
                    Problem<Seq<char>>,
                >(source@));
                return Ok(source);
            }
            index = index + 2;
        } else {
            index = index + 1;
        }
    }
    Ok(source)
}

/// The folder of the settings file and its path in that folder, where the command line
/// names none: `XDG_CONFIG_HOME` if it is set, else the home folder.
pub fn default_config_path<P>(xdg_config_home: Option<P>, home: Option<P>) -> (path: Option<
    (P, &'static str),
>)
    ensures
        match (xdg_config_home, home) {
            (Some(folder), _) => path matches Some((base, rest)) && base == folder && rest@
                == "waylock-rs/config"@,
            (None, Some(folder)) => path matches Some((base, rest)) && base == folder && rest@
                == ".config/waylock-rs/config"@,
            (None, None) => path is None,
        },
{
    match xdg_config_home {
        Some(folder) => Some((folder, "waylock-rs/config")),
        None => match home {
            Some(folder) => Some((folder, ".config/waylock-rs/config")),
            None => None,
        },
    }
}

/// Which settings file to read. `P` is the type of a folder.
pub enum Place<P> {
    /// None.
    Nothing,
    /// The one that the command line names.
    Named(String),
    /// The one with this path in this folder.
    InFolder(P, &'static str),
}

/// Finds out which settings file to read: none if the command line forbids it, else the
/// one that it names, else the default one.
pub fn file_to_read<P>(
    source: ConfigSource,
    xdg_config_home: Option<P>,
    home: Option<P>,
) -> (place: Place<P>)
    ensures
        if !source.load {
            place is Nothing
        } else if source.path is Some {
            place matches Place::Named(path) && Some(path@) == source@.path
        } else {
            match (xdg_config_home, home) {
                (Some(folder), _) => place matches Place::InFolder(base, rest) && base == folder
                    && rest@ == "waylock-rs/config"@,
                (None, Some(folder)) => place matches Place::InFolder(base, rest) && base == folder
                    && rest@ == ".config/waylock-rs/config"@,
                (None, None) => place is Nothing,
            }
        },
{
    if !source.load {
        return Place::Nothing;
    }
    match source.path {
        Some(path) => Place::Named(path),
        None => match default_config_path(xdg_config_home, home) {
            Some((folder, rest)) => Place::InFolder(folder, rest),
            None => Place::Nothing,
        },
    }
}

/// What the command line asks for.
#[derive(Clone, Copy, PartialEq, Eq, Debug, Structural)]
pub enum Request {
    /// To lock the screen.
    Lock,
    /// To explain the options.
    Help,
    /// To name the version.
    Version,
}

/// What comes of reading arguments: the settings, and what is asked for.
#[verifier::ext_equal]
pub struct Parsed {
    pub settings: Settings,
    pub request: Result<Request, Problem<Seq<char>>>,
}

/// What comes of reading the arguments from number `i` on. Each option sets a value,
/// except that `--power-off-command` takes all that follows as the program and its
/// arguments, and that a request for help or for the version ends the reading.
pub open spec fn args_from(args: Seq<Seq<char>>, i: int, settings: Settings) -> Parsed
    decreases args.len() - i,
{
    if i >= args.len() {
        Parsed { settings, request: Ok(Request::Lock) }
    } else if args[i] == "-h"@ || args[i] == "--help"@ {
        Parsed { settings, request: Ok(Request::Help) }
    } else if args[i] == "--version"@ || args[i] == "-V"@ {
        Parsed { settings, request: Ok(Request::Version) }
    } else if args[i] == "--color"@ {
        if i + 1 >= args.len() {
            Parsed { settings, request: Err(Problem::MissingColor) }
        } else {
            match color_value(args[i + 1]) {
                Ok(color) => args_from(args, i + 2, Settings { color: color as u32, ..settings }),
                Err(problem) => Parsed { settings, request: Err(problem) },
            }
        }
    } else if args[i] == "--off-after"@ {
        if i + 1 >= args.len() {
            Parsed { settings, request: Err(Problem::MissingSeconds) }
        } else {
            match number_value(args[i + 1], 10, u64::MAX as int) {
                Ok(seconds) => args_from(
                    args,
                    i + 2,
                    Settings { off_after: seconds as u64, ..settings },
                ),
                Err(error) => Parsed { settings, request: Err(Problem::Number(error)) },
            }
        }
    } else if args[i] == "--power-off-command"@ {
        if i + 1 >= args.len() {
            Parsed { settings, request: Err(Problem::MissingProgram) }
        } else {
            Parsed {
                settings: Settings { power_off_command: Some(args.skip(i + 1)), ..settings },
                request: Ok(Request::Lock),
            }
        }
    } else if args[i] == "--pam-service"@ {
        if i + 1 >= args.len() {
            Parsed { settings, request: Err(Problem::MissingName) }
        } else {
            args_from(args, i + 2, Settings { pam_service: args[i + 1], ..settings })
        }
    } else if args[i] == "--config"@ {
        if i + 1 >= args.len() {
            Parsed { settings, request: Err(Problem::MissingPath) }
        } else {
            args_from(args, i + 2, settings)
        }
    } else if args[i] == "--no-config"@ {
        args_from(args, i + 1, settings)
    } else {
        Parsed { settings, request: Err(Problem::UnknownArgument { argument: args[i] }) }
    }
}

/// Sets what the options say, and finds out what is asked for.
pub fn apply_args(config: &mut Config, args: &Vec<String>) -> (request: Result<
    Request,
    ConfigError,
>)
    ensures
        final(config)@ == args_from(texts(args@), 0, old(config)@).settings,
        seen(request) == args_from(texts(args@), 0, old(config)@).request,
{
    let ghost list = texts(args@);
    let ghost before = config@;
    let mut index: usize = 0;
    while index < args.len()
        invariant
            index <= args@.len(),
            list == texts(args@),
            before == old(config)@,
            args_from(list, 0, before) == args_from(list, index as int, config@),
        decreases args@.len() - index,
    {
        let arg: &str = args[index].as_str();
        let more = index + 1 < args.len();
        proof {
            assert(list[index as int] == arg@);
            if more {
                assert(list[index + 1] == args@[index + 1]@);
            }
        }
        if same_text(arg, "-h") || same_text(arg, "--help") {
            return Ok(Request::Help);
        } else if same_text(arg, "--version") || same_text(arg, "-V") {
            return Ok(Request::Version);
        } else if same_text(arg, "--color") {
            if !more {
                return Err(Problem::MissingColor);
            }
            match parse_color(args[index + 1].as_str()) {
                Ok(color) => {
                    config.color = color;
                },
                Err(error) => {
                    return Err(error);
                },
            }
            index = index + 2;
        } else if same_text(arg, "--off-after") {
            if !more {
                return Err(Problem::MissingSeconds);
            }
            match parse_number(args[index + 1].as_str(), 10, u64::MAX) {
                Ok(seconds) => {
                    config.off_after = seconds;
                },
                Err(error) => {
                    return Err(Problem::Number(error));
                },
            }
            index = index + 2;
        } else if same_text(arg, "--power-off-command") {
            if !more {
                return Err(Problem::MissingProgram);
            }
            let command = rest_of(args, index + 1);
            assert(texts(command@) =~= list.skip(index + 1));
            config.power_off_command = Some(command);
            return Ok(Request::Lock);
        } else if same_text(arg, "--pam-service") {
            if !more {
                return Err(Problem::MissingName);
            }
            config.pam_service = args[index + 1].clone();
            index = index + 2;
        } else if same_text(arg, "--config") {
            if !more {
                return Err(Problem::MissingPath);
            }
            index = index + 2;
        } else if same_text(arg, "--no-config") {
            index = index + 1;
        } else {
            return Err(Problem::UnknownArgument { argument: args[index].clone() });
        }
    }
    Ok(Request::Lock)
}

/// The strings of a list from number `start` on.
pub(crate) fn rest_of(list: &Vec<String>, start: usize) -> (rest: Vec<String>)
    requires
        start <= list@.len(),
    ensures
        texts(rest@) == texts(list@).skip(start as int),
{
    let mut rest: Vec<String> = Vec::new();
    let mut i: usize = start;
    while i < list.len()
        invariant
            start <= i <= list@.len(),
            rest@.len() == i - start,
            forall|j: int| 0 <= j < rest@.len() ==> #[trigger] rest@[j]@ == list@[start + j]@,
        decreases list@.len() - i,
    {
        rest.push(list[i].clone());
        i = i + 1;
    }
    assert(texts(rest@) =~= texts(list@).skip(start as int));
    rest
}

/// A settings file that was read.
pub struct ConfigFile {
    pub path: String,
    pub contents: String,
}

/// What comes of a start: the defaults are overridden by the settings file, if there is
/// one and the arguments do not forbid to read it, and that by the arguments.
pub open spec fn started(args: Seq<Seq<char>>, file: Option<(Seq<char>, Seq<char>)>) -> Parsed {
    match source_of(args) {
        Err(problem) => Parsed { settings: Settings::initial(), request: Err(problem) },
        Ok(source) => {
            let loaded = match file {
                Some((path, contents)) if source.load => file_set(
                    Settings::initial(),
                    contents,
                    path,
                    1,
                ),
                _ => Loaded { settings: Settings::initial(), problem: None },
            };
            match loaded.problem {
                Some(problem) => Parsed { settings: loaded.settings, request: Err(problem) },
                None => args_from(args, 0, loaded.settings),
            }
        },
    }
}

/// The path and the contents of a settings file.
pub open spec fn file_texts(file: Option<ConfigFile>) -> Option<(Seq<char>, Seq<char>)> {
    match file {
        Some(read) => Some((read.path@, read.contents@)),
        None => None,
    }
}

/// Finds the settings and what is asked for, given the arguments and the settings file
/// that was read, if one was. Where the arguments forbid to read one it does not count.
pub fn parse_args(args: &Vec<String>, file: &Option<ConfigFile>) -> (parsed: Result<
    (Config, Request),
    ConfigError,
>)
    ensures
        match parsed {
            Ok((config, request)) => started(texts(args@), file_texts(*file)) == (Parsed {
                settings: config@,
                request: Ok(request),
            }),
            Err(error) => started(texts(args@), file_texts(*file)).request == Err::<
                Request,
                Problem<Seq<char>>,
            >(error@),
        },
{
    let source = match config_source(args) {
        Ok(source) => source,
        Err(error) => {
            return Err(error);
        },
    };
    let mut config = Config::default();
    if source.load {
        if let Some(read) = file {
            match apply_config_file(&mut config, read.path.as_str(), read.contents.as_str()) {
                Ok(()) => {},
                Err(error) => {
                    return Err(error);
                },
            }
        }
    }
    match apply_args(&mut config, args) {
        Ok(request) => Ok((config, request)),
        Err(error) => Err(error),
    }
}

} // verus!
