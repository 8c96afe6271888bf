//! What a start comes to: which file counts, what the options do, and what is said of
//! mistakes.
use vstd::prelude::*;

#[allow(unused_imports)]
use crate::args::{args_from, source_from, source_of, started, Parsed, Request, Source};
#[allow(unused_imports)]
use crate::config::{color_value, file_set, Problem, Settings};
#[allow(unused_imports)]
use crate::config_laws::{
    law_args_are_read_in_order, lemma_args_shift, lemma_source_goes_on, open_ended,
    source_open_ended,
};
#[allow(unused_imports)]
use crate::number::{number_value, NumberError};
#[allow(unused_imports)]
use crate::settings_laws::lemma_option_names;

verus! {

/// Options mean the same for the settings file behind others.
proof fn lemma_source_shift(
    first: Seq<Seq<char>>,
    second: Seq<Seq<char>>,
    j: int,
    source: Source,
)
    requires
        0 <= j,
    ensures
        source_from(first + second, first.len() + j, source) == source_from(second, j, source),
    decreases second.len() + 1 - j,
{
    let whole = first + second;
    if j < second.len() {
        assert(whole[first.len() + j] == second[j]);
        lemma_source_shift(first, second, j + 1, source);
        lemma_source_shift(first, second, j + 1, Source { load: false, ..source });
        if j + 1 < second.len() {
            assert(whole[first.len() + j + 1] == second[j + 1]);
        }
        lemma_source_shift(first, second, j + 2, source);
        lemma_source_shift(
            first,
            second,
            j + 2,
            Source { path: Some(second[j + 1]), ..source },
        );
    }
}

/// The path that was named before does not matter for whether to read a file.
proof fn lemma_path_does_not_matter(args: Seq<Seq<char>>, i: int, one: Source, other: Source)
    requires
        one.load == other.load,
    ensures
        match (source_from(args, i, one), source_from(args, i, other)) {
            (Ok(a), Ok(b)) => a.load == b.load,
            (Err(a), Err(b)) => a == b,
            _ => false,
        },
    decreases args.len() + 1 - i,
{
    if i < args.len() {
        lemma_path_does_not_matter(args, i + 1, one, other);
        lemma_path_does_not_matter(
            args,
            i + 1,
            Source { load: false, ..one },
            Source { load: false, ..other },
        );
        if i + 1 <= args.len() {
            lemma_path_does_not_matter(args, i + 2, one, other);
            let path = Some(args[i + 1]);
            lemma_path_does_not_matter(
                args,
                i + 2,
                Source { path, ..one },
                Source { path, ..other },
            );
        }
    }
}

/// Unless the options forbid it, a file that was read counts, whether they name it or it
/// is the default one: the options are read on top of what it sets on top of the defaults,
/// and a mistake in it is the result.
pub proof fn law_file_that_was_read_counts(
    args: Seq<Seq<char>>,
    source: Source,
    path: Seq<char>,
    contents: Seq<char>,
)
    requires
        source_of(args) == Ok::<Source, Problem<Seq<char>>>(source),
        source.load,
    ensures
        ({
            let loaded = file_set(Settings::initial(), contents, path, 1);
            match loaded.problem {
                None => started(args, Some((path, contents))) == args_from(
                    args,
                    0,
                    loaded.settings,
                ),
                Some(problem) => started(args, Some((path, contents))).request == Err::<
                    Request,
                    Problem<Seq<char>>,
                >(problem),
            }
        }),
{
}

/// Without a file, or where the options forbid to read one, they alone decide.
pub proof fn law_options_alone_decide_without_a_file(
    args: Seq<Seq<char>>,
    source: Source,
    file: Option<(Seq<char>, Seq<char>)>,
)
    requires
        source_of(args) == Ok::<Source, Problem<Seq<char>>>(source),
        file is None || !source.load,
    ensures
        started(args, file) == args_from(args, 0, Settings::initial()),
{
}

/// Only `--no-config` forbids to read a file, and only `--config` names one.
pub proof fn law_file_is_read_unless_forbidden(args: Seq<Seq<char>>)
    ensures
        (forall|i: int| 0 <= i < args.len() ==> #[trigger] args[i] != "--no-config"@) ==> (source_of(
            args,
        ) matches Ok(source) ==> source.load),
        (forall|i: int| 0 <= i < args.len() ==> #[trigger] args[i] != "--config"@) ==> (source_of(
            args,
        ) matches Ok(source) && source.path is None),
{
    let source = Source { path: None, load: true };
    lemma_source_stays(args, 0, source);
}

/// Where an option does not occur, what it would say is not said.
proof fn lemma_source_stays(args: Seq<Seq<char>>, i: int, source: Source)
    requires
        0 <= i,
    ensures
        (forall|j: int| 0 <= j < args.len() ==> #[trigger] args[j] != "--no-config"@) ==> (
        source_from(args, i, source) matches Ok(found) ==> found.load == source.load),
        (forall|j: int| 0 <= j < args.len() ==> #[trigger] args[j] != "--config"@) ==> (source_from(
            args,
            i,
            source,
        ) matches Ok(found) && found.path == source.path),
    decreases args.len() + 1 - i,
{
    if i < args.len() {
        lemma_source_stays(args, i + 1, source);
        lemma_source_stays(args, i + 1, Source { load: false, ..source });
        lemma_source_stays(args, i + 2, source);
        lemma_source_stays(args, i + 2, Source { path: Some(args[i + 1]), ..source });
    }
}

/// To name the file changes nothing in how the file that was read counts.
pub proof fn law_named_file_counts_like_the_default_one(
    path: Seq<char>,
    args: Seq<Seq<char>>,
    file: Option<(Seq<char>, Seq<char>)>,
)
    ensures
        started(seq!["--config"@, path] + args, file) == started(args, file),
{
    lemma_option_names();
    let first = seq!["--config"@, path];
    let whole = first + args;
    let initial = Source { path: None, load: true };
    let named = Source { path: Some(path), load: true };
    assert(whole[0] == "--config"@ && whole[1] == path);
    assert(source_of(whole) == source_from(whole, 2, named));
    lemma_source_shift(first, args, 0, named);
    lemma_path_does_not_matter(args, 0, named, initial);
    if let Some((place, contents)) = file {
        let settings = file_set(Settings::initial(), contents, place, 1).settings;
        assert(args_from(whole, 0, settings) == args_from(whole, 2, settings));
        lemma_args_shift(first, args, 0, settings);
    }
    let settings = Settings::initial();
    assert(args_from(whole, 0, settings) == args_from(whole, 2, settings));
    lemma_args_shift(first, args, 0, settings);
}

/// A setting that the options do not name has the value that the file gives it: with no
/// options at all the file alone decides.
pub proof fn law_file_alone_decides_without_options(path: Seq<char>, contents: Seq<char>)
    ensures
        ({
            let loaded = file_set(Settings::initial(), contents, path, 1);
            loaded.problem is None ==> started(Seq::empty(), Some((path, contents))) == (Parsed {
                settings: loaded.settings,
                request: Ok(Request::Lock),
            })
        }),
        started(Seq::empty(), None) == (Parsed {
            settings: Settings::initial(),
            request: Ok(Request::Lock),
        }),
{
}

/// By default the screen is dark violet, it goes off after ten minutes, nothing is started
/// and the service is that of `swaylock`.
pub proof fn law_defaults()
    ensures
        Settings::initial().color == 0x4B3F72,
        Settings::initial().off_after == 600,
        Settings::initial().power_off_command is None,
        Settings::initial().pam_service == "swaylock"@,
{
}

/// What each option says of the settings file: nothing, but for the two that are there
/// for that. A path that is missing is a mistake.
pub proof fn law_other_options_say_nothing_of_the_file(
    first: Seq<Seq<char>>,
    argument: Seq<char>,
    value: Seq<char>,
)
    requires
        source_open_ended(first, 0),
    ensures
        source_of(Seq::empty()) == Ok::<Source, Problem<Seq<char>>>(
            Source { path: None, load: true },
        ),
        source_of(first + seq!["--config"@]) == Err::<Source, Problem<Seq<char>>>(
            Problem::MissingPath,
        ),
        argument == "--color"@ || argument == "--off-after"@ || argument == "--pam-service"@
            ==> source_of(first + seq![argument, value]) == source_of(first),
        argument != "--color"@ && argument != "--off-after"@ && argument != "--pam-service"@
            && argument != "--config"@ && argument != "--no-config"@ ==> source_of(
            first + seq![argument],
        ) == source_of(first),
{
    lemma_option_names();
    let initial = Source { path: None, load: true };
    let left = source_of(first)->Ok_0;
    let count = first.len() as int;
    lemma_source_goes_on(first, seq!["--config"@], 0, initial);
    assert((first + seq!["--config"@])[count] == "--config"@);
    let pair = first + seq![argument, value];
    lemma_source_goes_on(first, seq![argument, value], 0, initial);
    assert(pair[count] == argument);
    assert(source_from(pair, count + 2, left) == Ok::<Source, Problem<Seq<char>>>(left));
    let single = first + seq![argument];
    lemma_source_goes_on(first, seq![argument], 0, initial);
    assert(single[count] == argument);
    assert(source_from(single, count + 1, left) == Ok::<Source, Problem<Seq<char>>>(left));
}

/// A request for help or for the version, behind any options, is the result, whatever
/// follows.
pub proof fn law_requests_are_answered(
    settings: Settings,
    first: Seq<Seq<char>>,
    rest: Seq<Seq<char>>,
)
    requires
        open_ended(first, 0),
        args_from(first, 0, settings).request is Ok,
    ensures
        args_from(first + (seq!["-h"@] + rest), 0, settings) == (Parsed {
            settings: args_from(first, 0, settings).settings,
            request: Ok(Request::Help),
        }),
        args_from(first + (seq!["--help"@] + rest), 0, settings) == (Parsed {
            settings: args_from(first, 0, settings).settings,
            request: Ok(Request::Help),
        }),
        args_from(first + (seq!["-V"@] + rest), 0, settings) == (Parsed {
            settings: args_from(first, 0, settings).settings,
            request: Ok(Request::Version),
        }),
        args_from(first + (seq!["--version"@] + rest), 0, settings) == (Parsed {
            settings: args_from(first, 0, settings).settings,
            request: Ok(Request::Version),
        }),
{
    lemma_option_names();
    law_args_are_read_in_order(first, seq!["-h"@] + rest, 0, settings);
    law_args_are_read_in_order(first, seq!["--help"@] + rest, 0, settings);
    law_args_are_read_in_order(first, seq!["-V"@] + rest, 0, settings);
    law_args_are_read_in_order(first, seq!["--version"@] + rest, 0, settings);
    assert((seq!["-h"@] + rest)[0] == "-h"@);
    assert((seq!["--help"@] + rest)[0] == "--help"@);
    assert((seq!["-V"@] + rest)[0] == "-V"@);
    assert((seq!["--version"@] + rest)[0] == "--version"@);
}

/// The options about the settings file set nothing themselves, and no options at all ask
/// for a lock with the settings as they are.
pub proof fn law_file_options_set_nothing(
    settings: Settings,
    first: Seq<Seq<char>>,
    path: Seq<char>,
)
    requires
        open_ended(first, 0),
        args_from(first, 0, settings).request is Ok,
    ensures
        args_from(Seq::empty(), 0, settings) == (Parsed { settings, request: Ok(Request::Lock) }),
        args_from(first + seq!["--config"@, path], 0, settings) == (Parsed {
            settings: args_from(first, 0, settings).settings,
            request: Ok(Request::Lock),
        }),
        args_from(first + seq!["--no-config"@], 0, settings) == (Parsed {
            settings: args_from(first, 0, settings).settings,
            request: Ok(Request::Lock),
        }),
{
    lemma_option_names();
    let left = args_from(first, 0, settings).settings;
    let named = seq!["--config"@, path];
    let forbidden = seq!["--no-config"@];
    law_args_are_read_in_order(first, named, 0, settings);
    law_args_are_read_in_order(first, forbidden, 0, settings);
    assert(args_from(named, 2, left) == (Parsed { settings: left, request: Ok(Request::Lock) }));
    assert(args_from(named, 0, left) == args_from(named, 2, left));
    assert(args_from(forbidden, 1, left) == (Parsed { settings: left, request: Ok(Request::Lock) }));
    assert(args_from(forbidden, 0, left) == args_from(forbidden, 1, left));
}

/// An option whose value is missing, and an argument that is no option, are mistakes.
pub proof fn law_mistakes_among_options(
    settings: Settings,
    first: Seq<Seq<char>>,
    argument: Seq<char>,
    rest: Seq<Seq<char>>,
)
    requires
        open_ended(first, 0),
        args_from(first, 0, settings).request is Ok,
        argument != "-h"@ && argument != "--help"@ && argument != "-V"@ && argument
            != "--version"@,
        argument != "--color"@ && argument != "--off-after"@ && argument != "--pam-service"@,
        argument != "--power-off-command"@ && argument != "--config"@ && argument
            != "--no-config"@,
    ensures
        args_from(first + seq!["--color"@], 0, settings) == (Parsed {
            settings: args_from(first, 0, settings).settings,
            request: Err(Problem::MissingColor),
        }),
        args_from(first + seq!["--off-after"@], 0, settings) == (Parsed {
            settings: args_from(first, 0, settings).settings,
            request: Err(Problem::MissingSeconds),
        }),
        args_from(first + seq!["--power-off-command"@], 0, settings) == (Parsed {
            settings: args_from(first, 0, settings).settings,
            request: Err(Problem::MissingProgram),
        }),
        args_from(first + seq!["--pam-service"@], 0, settings) == (Parsed {
            settings: args_from(first, 0, settings).settings,
            request: Err(Problem::MissingName),
        }),
        args_from(first + seq!["--config"@], 0, settings) == (Parsed {
            settings: args_from(first, 0, settings).settings,
            request: Err(Problem::MissingPath),
        }),
        args_from(first + (seq![argument] + rest), 0, settings) == (Parsed {
            settings: args_from(first, 0, settings).settings,
            request: Err(Problem::UnknownArgument { argument }),
        }),
{
    lemma_option_names();
    law_args_are_read_in_order(first, seq!["--color"@], 0, settings);
    law_args_are_read_in_order(first, seq!["--off-after"@], 0, settings);
    law_args_are_read_in_order(first, seq!["--power-off-command"@], 0, settings);
    law_args_are_read_in_order(first, seq!["--pam-service"@], 0, settings);
    law_args_are_read_in_order(first, seq!["--config"@], 0, settings);
    law_args_are_read_in_order(first, seq![argument] + rest, 0, settings);
    assert((seq![argument] + rest)[0] == argument);
}

/// A value that cannot be read is a mistake, whatever follows.
pub proof fn law_wrong_values_are_mistakes(
    settings: Settings,
    first: Seq<Seq<char>>,
    value: Seq<char>,
    rest: Seq<Seq<char>>,
)
    requires
        open_ended(first, 0),
        args_from(first, 0, settings).request is Ok,
    ensures
        color_value(value) matches Err(problem) ==> args_from(
            first + (seq!["--color"@, value] + rest),
            0,
            settings,
        ) == (Parsed {
            settings: args_from(first, 0, settings).settings,
            request: Err(problem),
        }),
        number_value(value, 10, 0xFFFF_FFFF_FFFF_FFFF) matches Err(error) ==> args_from(
            first + (seq!["--off-after"@, value] + rest),
            0,
            settings,
        ) == (Parsed {
            settings: args_from(first, 0, settings).settings,
            request: Err(Problem::Number(error)),
        }),
{
    lemma_option_names();
    let color = seq!["--color"@, value] + rest;
    let off_after = seq!["--off-after"@, value] + rest;
    law_args_are_read_in_order(first, color, 0, settings);
    law_args_are_read_in_order(first, off_after, 0, settings);
    assert(color[0] == "--color"@ && color[1] == value);
    assert(off_after[0] == "--off-after"@ && off_after[1] == value);
}

/// A path that is missing is said before anything else, also before a request is answered
/// or a mistake in the file is found.
pub proof fn law_missing_path_comes_first(
    first: Seq<Seq<char>>,
    file: Option<(Seq<char>, Seq<char>)>,
)
    requires
        source_open_ended(first, 0),
    ensures
        started(first + seq!["--config"@], file).request == Err::<Request, Problem<Seq<char>>>(
            Problem::MissingPath,
        ),
{
    law_other_options_say_nothing_of_the_file(first, "--config"@, "--config"@);
}

/// A message about the file begins with the place, and one about a name ends with it.
pub proof fn law_messages_say_what_is_wrong(
    place: Seq<char>,
    name: Seq<char>,
    error: NumberError,
)
    ensures
        (Problem::InvalidOffAfter { place }).text() == place + ": invalid off-after"@,
        (Problem::ExpectedKeyValue { place }).text() == place + ": expected key = value"@,
        (Problem::UnknownKey { place, key: name }).text() == place + ": unknown key "@ + name,
        (Problem::UnknownArgument { argument: name }).text() == "unknown argument: "@ + name,
        Problem::<Seq<char>>::Number(error).text() == error.text(),
{
}

} // verus!
