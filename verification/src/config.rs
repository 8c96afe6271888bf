//! The settings and the file that they are read from.
use vstd::prelude::*;
#[allow(unused_imports)]
use vstd::utf8::encode_utf8;

use crate::number::{parse_digits, parse_number, NumberError};
#[allow(unused_imports)]
use crate::number::{digits_value, number_value};
use crate::text::{characters, find, push_decimal, same_text, split_words, to_text, trim};
#[allow(unused_imports)]
use crate::text::{decimal, first_place, texts, trimmed, words};

verus! {

/// Background colour by default, as red, green and blue.
pub const DEFAULT_COLOR: u32 = 0x4B3F72;

/// Seconds without activity after which the screen goes off by default.
pub const DEFAULT_OFF_AFTER: u64 = 600;

/// The settings.
pub struct Config {
    pub color: u32,
    pub off_after: u64,
    pub power_off_command: Option<Vec<String>>,
    pub pam_service: String,
}

/// What the settings say.
#[verifier::ext_equal]
pub struct Settings {
    pub color: u32,
    pub off_after: u64,
    pub power_off_command: Option<Seq<Seq<char>>>,
    pub pam_service: Seq<char>,
}

impl View for Config {
    type V = Settings;

    open spec fn view(&self) -> Settings {
        Settings {
            color: self.color,
            off_after: self.off_after,
            power_off_command: match self.power_off_command {
                Some(command) => Some(texts(command@)),
                None => None,
            },
            pam_service: self.pam_service@,
        }
    }
}

impl Settings {
    /// The settings by default.
    pub open spec fn initial() -> Settings {
        Settings {
            color: DEFAULT_COLOR,
            off_after: DEFAULT_OFF_AFTER,
            power_off_command: None,
            pam_service: "swaylock"@,
        }
    }

    /// Whether a command, if there is one, names a program.
    pub open spec fn valid(self) -> bool {
        self.power_off_command matches Some(command) ==> command.len() > 0
    }
}

impl Default for Config {
    fn default() -> (config: Config)
        ensures
            config@ == Settings::initial(),
    {
        Config {
            color: DEFAULT_COLOR,
            off_after: DEFAULT_OFF_AFTER,
            power_off_command: None,
            pam_service: "swaylock".to_owned(),
        }
    }
}

/// Why settings cannot be read. `S` is the type of the texts in it.
#[derive(Debug)]
pub enum Problem<S> {
    /// A colour does not have six digits.
    ColorLength,
    /// A number cannot be read.
    Number(NumberError),
    /// The number of seconds in the file cannot be read.
    InvalidOffAfter { place: S },
    /// The file has a key that there is no setting for.
    UnknownKey { place: S, key: S },
    /// A line of the file has no equals sign.
    ExpectedKeyValue { place: S },
    /// `--config` comes last.
    MissingPath,
    /// `--color` comes last.
    MissingColor,
    /// `--off-after` comes last.
    MissingSeconds,
    /// `--power-off-command` comes last.
    MissingProgram,
    /// `--pam-service` comes last.
    MissingName,
    /// There is no such option.
    UnknownArgument { argument: S },
}

/// Why settings cannot be read.
pub type ConfigError = Problem<String>;

impl View for Problem<String> {
    type V = Problem<Seq<char>>;

    open spec fn view(&self) -> Problem<Seq<char>> {
        match *self {
            Problem::ColorLength => Problem::ColorLength,
            Problem::Number(error) => Problem::Number(error),
            Problem::InvalidOffAfter { place } => Problem::InvalidOffAfter { place: place@ },
            Problem::UnknownKey { place, key } => Problem::UnknownKey { place: place@, key: key@ },
            Problem::ExpectedKeyValue { place } => Problem::ExpectedKeyValue { place: place@ },
            Problem::MissingPath => Problem::MissingPath,
            Problem::MissingColor => Problem::MissingColor,
            Problem::MissingSeconds => Problem::MissingSeconds,
            Problem::MissingProgram => Problem::MissingProgram,
            Problem::MissingName => Problem::MissingName,
            Problem::UnknownArgument { argument } => Problem::UnknownArgument {
                argument: argument@,
            },
        }
    }
}

impl Problem<Seq<char>> {
    /// The problem in words.
    pub open spec fn text(self) -> Seq<char> {
        match self {
            Problem::ColorLength => "color must be exactly six hexadecimal digits"@,
            Problem::Number(error) => error.text(),
            Problem::InvalidOffAfter { place } => place + ": invalid off-after"@,
            Problem::UnknownKey { place, key } => place + ": unknown key "@ + key,
            Problem::ExpectedKeyValue { place } => place + ": expected key = value"@,
            Problem::MissingPath => "--config requires a path"@,
            Problem::MissingColor => "--color requires RRGGBB"@,
            Problem::MissingSeconds => "--off-after requires seconds"@,
            Problem::MissingProgram => "--power-off-command requires a program"@,
            Problem::MissingName => "--pam-service requires a name"@,
            Problem::UnknownArgument { argument } => "unknown argument: "@ + argument,
        }
    }
}

impl Problem<String> {
    /// The problem in words.
    pub fn message(&self) -> (message: String)
        ensures
            message@ == self@.text(),
    {
        match self {
            Problem::ColorLength => "color must be exactly six hexadecimal digits".to_owned(),
            Problem::Number(error) => error.message().to_owned(),
            Problem::InvalidOffAfter { place } => place.clone().concat(": invalid off-after"),
            Problem::UnknownKey { place, key } => {
                place.clone().concat(": unknown key ").concat(key.as_str())
            },
            Problem::ExpectedKeyValue { place } => place.clone().concat(": expected key = value"),
            Problem::MissingPath => "--config requires a path".to_owned(),
            Problem::MissingColor => "--color requires RRGGBB".to_owned(),
            Problem::MissingSeconds => "--off-after requires seconds".to_owned(),
            Problem::MissingProgram => "--power-off-command requires a program".to_owned(),
            Problem::MissingName => "--pam-service requires a name".to_owned(),
            Problem::UnknownArgument { argument } => {
                "unknown argument: ".to_owned().concat(argument.as_str())
            },
        }
    }
}

/// A result with its error in terms of what the error says.
pub open spec fn seen<T>(result: Result<T, ConfigError>) -> Result<T, Problem<Seq<char>>> {
    match result {
        Ok(value) => Ok(value),
        Err(error) => Err(error@),
    }
}

/// A value without the quotation marks around it, if it has the same ones on both sides.
pub open spec fn unquoted(s: Seq<char>) -> Seq<char> {
    if s.len() >= 2 && s[0] == s.last() && (s[0] == '"' || s[0] == '\'') {
        s.subrange(1, s.len() - 1)
    } else {
        s
    }
}

/// Takes the quotation marks from a value, if it has the same ones on both sides.
pub fn unquote(value: &str) -> (inner: &str)
    ensures
        inner@ == unquoted(value@),
{
    let count: usize = value.unicode_len();
    if count < 2 {
        return value;
    }
    let first: char = value.get_char(0);
    let last: char = value.get_char(count - 1);
    if first == last && (first == '"' || first == '\'') {
        value.substring_char(1, count - 1)
    } else {
        value
    }
}

/// A text without a hash sign in front.
pub open spec fn without_hash(s: Seq<char>) -> Seq<char> {
    if s.len() > 0 && s[0] == '#' {
        s.skip(1)
    } else {
        s
    }
}

/// The colour that a text says: exactly six hexadecimal digits, after a hash sign or not.
/// The length of another text is counted in bytes.
pub open spec fn color_value(s: Seq<char>) -> Result<int, Problem<Seq<char>>> {
    let digits = without_hash(s);
    if encode_utf8(digits).len() != 6 {
        Err(Problem::ColorLength)
    } else {
        match digits_value(digits, 16, u32::MAX as int) {
            Ok(color) => Ok(color),
            Err(error) => Err(Problem::Number(error)),
        }
    }
}

/// Reads a colour.
pub fn parse_color(value: &str) -> (color: Result<u32, ConfigError>)
    ensures
        match color {
            Ok(rgb) => color_value(value@) == Ok::<int, Problem<Seq<char>>>(rgb as int),
            Err(error) => color_value(value@) == Err::<int, Problem<Seq<char>>>(error@),
        },
{
    let count: usize = value.unicode_len();
    let digits: &str = if count > 0 && value.get_char(0) == '#' {
        value.substring_char(1, count)
    } else {
        value
    };
    assert(digits@ =~= without_hash(value@));
    if digits.as_bytes().len() != 6 {
        return Err(Problem::ColorLength);
    }
    match parse_digits(characters(digits).as_slice(), 16, u32::MAX as u64) {
        Ok(rgb) => Ok(rgb as u32),
        Err(error) => Err(Problem::Number(error)),
    }
}

/// The command that a value of the file says: its words, or none.
pub open spec fn command_value(value: Seq<char>) -> Option<Seq<Seq<char>>> {
    if trimmed(value).len() == 0 {
        None
    } else {
        Some(words(value))
    }
}

/// The settings after a key of the file, at the given place in it, has set a value.
pub open spec fn value_set(
    settings: Settings,
    key: Seq<char>,
    value: Seq<char>,
    place: Seq<char>,
) -> Result<Settings, Problem<Seq<char>>> {
    if key == "color"@ {
        match color_value(value) {
            Ok(color) => Ok(Settings { color: color as u32, ..settings }),
            Err(problem) => Err(problem),
        }
    } else if key == "off-after"@ || key == "off_after"@ {
        match number_value(value, 10, u64::MAX as int) {
            Ok(seconds) => Ok(Settings { off_after: seconds as u64, ..settings }),
            Err(_) => Err(Problem::InvalidOffAfter { place }),
        }
    } else if key == "power-off-command"@ || key == "power_off_command"@ {
        Ok(Settings { power_off_command: command_value(value), ..settings })
    } else if key == "pam-service"@ || key == "pam_service"@ {
        Ok(Settings { pam_service: value, ..settings })
    } else {
        Err(Problem::UnknownKey { place, key })
    }
}

/// Sets the value of a key. Where that fails the settings stay as they are.
pub fn apply_config_value(config: &mut Config, key: &str, value: &str, source: &str) -> (result:
    Result<(), ConfigError>)
    ensures
        match value_set(old(config)@, key@, value@, source@) {
            Ok(settings) => result is Ok && final(config)@ == settings,
            Err(problem) => seen(result) == Err::<(), Problem<Seq<char>>>(problem)
                && *final(config) == *old(config),
        },
{
    if same_text(key, "color") {
        match parse_color(value) {
            Ok(color) => {
                config.color = color;
            },
            Err(error) => {
                return Err(error);
            },
        }
    } else if same_text(key, "off-after") || same_text(key, "off_after") {
        match parse_number(value, 10, u64::MAX) {
            Ok(seconds) => {
                config.off_after = seconds;
            },
            Err(_) => {
                return Err(Problem::InvalidOffAfter { place: source.to_owned() });
            },
        }
    } else if same_text(key, "power-off-command") || same_text(key, "power_off_command") {
        let chars = characters(value);
        config.power_off_command = if trim(chars.as_slice()).len() == 0 {
            None
        } else {
            Some(split_words(chars.as_slice()))
        };
    } else if same_text(key, "pam-service") || same_text(key, "pam_service") {
        config.pam_service = value.to_owned();
    } else {
        return Err(Problem::UnknownKey { place: source.to_owned(), key: key.to_owned() });
    }
    Ok(())
}

/// How a line of a file is referred to.
pub open spec fn place_of(path: Seq<char>, line: nat) -> Seq<char> {
    path + ":"@ + decimal(line)
}

/// What a line says: the part before a hash sign, without white space around it.
pub open spec fn line_body(line: Seq<char>) -> Seq<char> {
    trimmed(line.take(first_place(line, '#') as int))
}

/// The settings after a line of the file: one that says nothing leaves them as they
/// are, another one sets the value behind its first equals sign.
pub open spec fn line_set(settings: Settings, line: Seq<char>, place: Seq<char>) -> Result<
    Settings,
    Problem<Seq<char>>,
> {
    let body = line_body(line);
    let sign = first_place(body, '=') as int;
    if body.len() == 0 {
        Ok(settings)
    } else if sign >= body.len() {
        Err(Problem::ExpectedKeyValue { place })
    } else {
        value_set(
            settings,
            trimmed(body.take(sign)),
            unquoted(trimmed(body.skip(sign + 1))),
            place,
        )
    }
}

/// What comes of reading a file: the settings, and the problem that it ended with.
#[verifier::ext_equal]
pub struct Loaded {
    pub settings: Settings,
    pub problem: Option<Problem<Seq<char>>>,
}

/// What comes of reading the lines of a text, the first of which has the given number.
pub open spec fn file_set(
    settings: Settings,
    contents: Seq<char>,
    path: Seq<char>,
    line: nat,
) -> Loaded
    decreases contents.len(),
{
    let end = first_place(contents, '\n') as int;
    match line_set(settings, contents.take(end), place_of(path, line)) {
        Err(problem) => Loaded { settings, problem: Some(problem) },
        Ok(next) => if end >= contents.len() {
            Loaded { settings: next, problem: None }
        } else {
            file_set(next, contents.skip(end + 1), path, line + 1)
        },
    }
}

/// Sets what one line of a file says.
fn apply_config_line(config: &mut Config, line: &[char], path: &str, number: u128) -> (result:
    Result<(), ConfigError>)
    ensures
        match line_set(old(config)@, line@, place_of(path@, number as nat)) {
            Ok(settings) => result is Ok && final(config)@ == settings,
            Err(problem) => seen(result) == Err::<(), Problem<Seq<char>>>(problem) && final(config)@
                == old(config)@,
        },
{
    let body: &[char] = trim(vstd::slice::slice_subrange(line, 0, find(line, '#')));
    assert(body@ == line_body(line@)) by {
        assert(line@.subrange(0, first_place(line@, '#') as int) =~= line@.take(
            first_place(line@, '#') as int,
        ));
    }
    if body.len() == 0 {
        return Ok(());
    }
    let mut source = path.to_owned().concat(":");
    push_decimal(&mut source, number);
    let sign: usize = find(body, '=');
    if sign == body.len() {
        return Err(Problem::ExpectedKeyValue { place: source });
    }
    let key = to_text(trim(vstd::slice::slice_subrange(body, 0, sign)));
    let value = to_text(trim(vstd::slice::slice_subrange(body, sign + 1, body.len())));
    proof {
        assert(body@.subrange(0, sign as int) =~= body@.take(sign as int));
        assert(body@.subrange(sign + 1, body@.len() as int) =~= body@.skip(sign + 1));
    }
    apply_config_value(config, key.as_str(), unquote(value.as_str()), source.as_str())
}

/// Sets what a file says, line by line, up to the first line that is wrong.
pub fn apply_config_file(config: &mut Config, path: &str, contents: &str) -> (result: Result<
    (),
    ConfigError,
>)
    ensures
        final(config)@ == file_set(old(config)@, contents@, path@, 1).settings,
        match file_set(old(config)@, contents@, path@, 1).problem {
            None => result is Ok,
            Some(problem) => seen(result) == Err::<(), Problem<Seq<char>>>(problem),
        },
{
    let chars = characters(contents);
    let ghost before = config@;
    let mut start: usize = 0;
    let mut number: u128 = 1;
    assert(contents@.skip(0) =~= contents@);
    loop
        invariant
            start <= chars@.len(),
            number <= start + 1,
            chars@ == contents@,
            before == old(config)@,
            file_set(before, contents@, path@, 1) == file_set(
                config@,
                contents@.skip(start as int),
                path@,
                number as nat,
            ),
        decreases chars@.len() - start,
    {
        let rest: &[char] = vstd::slice::slice_subrange(chars.as_slice(), start, chars.len());
        let end: usize = find(rest, '\n');
        let line: &[char] = vstd::slice::slice_subrange(rest, 0, end);
        proof {
            assert(rest@ =~= contents@.skip(start as int));
            assert(line@ =~= rest@.take(end as int));
        }
        match apply_config_line(config, line, path, number) {
            Err(error) => {
                return Err(error);
            },
            Ok(()) => {},
        }
        if end == rest.len() {
            return Ok(());
        }
        proof {
            assert(rest@.skip(end + 1) =~= contents@.skip(start + end + 1));
        }
        start = start + end + 1;
        number = number + 1;
    }
}

} // verus!
