//! What holds of the settings file and of the command line in general.
use vstd::prelude::*;
#[allow(unused_imports)]
use vstd::utf8::encode_utf8;

#[allow(unused_imports)]
use crate::args::{args_from, source_from, source_of, started, Parsed, Request, Source};
#[allow(unused_imports)]
use crate::config::{
    color_value, command_value, file_set, line_body, line_set, place_of, unquoted, value_set,
    without_hash, Problem, Settings,
};
#[allow(unused_imports)]
use crate::number::{digit_value, digits_value, number_value, NumberError};
#[allow(unused_imports)]
use crate::text::{decimal, first_place, is_white, trimmed, trimmed_end, trimmed_start, words};

verus! {

/// Quotation marks around a value are no part of it.
pub proof fn law_unquote_undoes_quoting(value: Seq<char>, mark: char)
    requires
        mark == '"' || mark == '\'',
    ensures
        unquoted(seq![mark] + value + seq![mark]) == value,
{
    let quoted = seq![mark] + value + seq![mark];
    assert(quoted.subrange(1, quoted.len() - 1) =~= value);
}

/// A hash sign in front of a colour makes no difference.
pub proof fn law_hash_is_optional(value: Seq<char>)
    requires
        value.len() > 0 ==> value[0] != '#',
    ensures
        color_value(seq!['#'] + value) == color_value(value),
{
    assert((seq!['#'] + value).skip(1) =~= value);
}

/// A row of digits has a value if each character is a digit, unless the value is too large.
proof fn lemma_digits(s: Seq<char>, max: int)
    requires
        forall|i: int| 0 <= i < s.len() ==> digit_value(#[trigger] s[i], 16) is Some,
        s.len() <= 6,
        max >= 0xFF_FFFF,
    ensures
        digits_value(s, 16, max) matches Ok(value) && 0 <= value && (s.len() == 0 ==> value == 0)
            && (s.len() == 1 ==> value < 0x10) && (s.len() == 2 ==> value < 0x100) && (s.len() == 3
            ==> value < 0x1000) && (s.len() == 4 ==> value < 0x1_0000) && (s.len() == 5 ==> value
            < 0x10_0000) && value < 0x100_0000,
    decreases s.len(),
{
    if s.len() > 0 {
        let before = s.drop_last();
        assert forall|i: int| 0 <= i < before.len() implies digit_value(
            #[trigger] before[i],
            16,
        ) is Some by {
            assert(before[i] == s[i]);
        }
        lemma_digits(before, max);
        assert(digit_value(s[s.len() - 1], 16) is Some);
    }
}

/// A row of characters has a value only if each of them is a digit, and a row of at most
/// six is never too large.
proof fn lemma_only_digits(s: Seq<char>, max: int)
    requires
        s.len() <= 6,
        max >= 0xFF_FFFF,
    ensures
        digits_value(s, 16, max) is Ok <==> forall|i: int|
            0 <= i < s.len() ==> digit_value(#[trigger] s[i], 16) is Some,
        digits_value(s, 16, max) matches Err(error) ==> error == NumberError::InvalidDigit,
    decreases s.len(),
{
    if forall|i: int| 0 <= i < s.len() ==> digit_value(#[trigger] s[i], 16) is Some {
        lemma_digits(s, max);
    } else {
        let i = choose|i: int| 0 <= i < s.len() && digit_value(#[trigger] s[i], 16) is None;
        let before = s.drop_last();
        lemma_only_digits(before, max);
        if i < before.len() {
            assert(before[i] == s[i]);
        } else if digits_value(before, 16, max) is Ok {
            assert(s.last() == s[i]);
        }
    }
}

/// A colour is exactly six hexadecimal digits, after a hash sign or not; six bytes that
/// are not all digits are refused for the one that is none.
pub proof fn law_color_is_six_digits(value: Seq<char>)
    ensures
        color_value(value) is Ok <==> without_hash(value).len() == 6 && forall|i: int|
            0 <= i < without_hash(value).len() ==> digit_value(
                #[trigger] without_hash(value)[i],
                16,
            ) is Some,
        color_value(value) matches Ok(color) ==> 0 <= color < 0x100_0000,
        color_value(value) matches Err(problem) ==> problem == if encode_utf8(
            without_hash(value),
        ).len() != 6 {
            Problem::<Seq<char>>::ColorLength
        } else {
            Problem::Number(NumberError::InvalidDigit)
        },
{
    let digits = without_hash(value);
    let max = u32::MAX as int;
    lemma_encoding_is_longer(digits);
    if forall|i: int| 0 <= i < digits.len() ==> digit_value(#[trigger] digits[i], 16) is Some {
        assert forall|i: int| 0 <= i < digits.len() implies '\0' <= #[trigger] digits[i]
            <= '\u{7f}' by {
            let c: char = digits[i];
            assert(digit_value(c, 16) is Some);
            vstd::utf8::char_is_scalar(c);
            vstd::utf8::char_u32_cast(c, c as u32);
        }
        assert(vstd::utf8::is_ascii_chars(digits));
        vstd::utf8::is_ascii_chars_encode_utf8(digits);
        if digits.len() == 6 {
            lemma_digits(digits, max);
        }
    } else if encode_utf8(digits).len() == 6 {
        lemma_only_digits(digits, max);
    }
}

/// A text has at least as many bytes as characters.
proof fn lemma_encoding_is_longer(s: Seq<char>)
    ensures
        encode_utf8(s).len() >= s.len(),
    decreases s.len(),
{
    if s.len() > 0 {
        lemma_encoding_is_longer(s.drop_first());
    }
}

/// A digit of the hexadecimal system.
pub open spec fn hex_digit(n: int) -> char {
    if n < 10 {
        (n + 0x30) as char
    } else {
        (n - 10 + 0x41) as char
    }
}

/// A colour as red, green and blue, two digits each.
pub open spec fn rrggbb(color: int) -> Seq<char> {
    seq![
        hex_digit(color / 0x10_0000),
        hex_digit((color / 0x1_0000) % 16),
        hex_digit((color / 0x1000) % 16),
        hex_digit((color / 0x100) % 16),
        hex_digit((color / 0x10) % 16),
        hex_digit(color % 16),
    ]
}

/// Every colour reads back from its six digits.
pub proof fn law_color_reads_back(color: int)
    requires
        0 <= color < 0x100_0000,
    ensures
        color_value(rrggbb(color)) == Ok::<int, Problem<Seq<char>>>(color),
{
    let s = rrggbb(color);
    assert forall|d: int| 0 <= d < 16 implies #[trigger] digit_value(hex_digit(d), 16) == Some(d)
        && (hex_digit(d) as u32) < 0x80 && hex_digit(d) != '#' && hex_digit(d) != '+' by {}
    assert(vstd::utf8::is_ascii_chars(s));
    vstd::utf8::is_ascii_chars_encode_utf8(s);
    let max = u32::MAX as int;
    assert(s.take(0) =~= Seq::<char>::empty());
    assert(s.take(1).drop_last() =~= s.take(0));
    assert(s.take(2).drop_last() =~= s.take(1));
    assert(s.take(3).drop_last() =~= s.take(2));
    assert(s.take(4).drop_last() =~= s.take(3));
    assert(s.take(5).drop_last() =~= s.take(4));
    assert(s.drop_last() =~= s.take(5));
    assert(digits_value(s.take(0), 16, max) == Ok::<int, NumberError>(0));
    assert(digits_value(s.take(1), 16, max) == Ok::<int, NumberError>(color / 0x10_0000));
    assert(digits_value(s.take(2), 16, max) == Ok::<int, NumberError>(color / 0x1_0000));
    assert(digits_value(s.take(3), 16, max) == Ok::<int, NumberError>(color / 0x1000));
    assert(digits_value(s.take(4), 16, max) == Ok::<int, NumberError>(color / 0x100));
    assert(digits_value(s.take(5), 16, max) == Ok::<int, NumberError>(color / 0x10));
    assert(digits_value(s, 16, max) == Ok::<int, NumberError>(color));
}

/// Every number up to the largest reads back from its decimal digits.
pub proof fn law_number_reads_back(n: nat, max: int)
    requires
        n <= max,
    ensures
        number_value(decimal(n), 10, max) == Ok::<int, NumberError>(n as int),
{
    lemma_digits_read_back(n, max);
    lemma_decimal_is_unsigned(n);
}

/// A decimal number is not empty and begins with no sign.
proof fn lemma_decimal_is_unsigned(n: nat)
    ensures
        decimal(n).len() > 0,
        decimal(n)[0] != '+',
    decreases n,
{
    if n >= 10 {
        lemma_decimal_is_unsigned(n / 10);
    }
}

/// A row of decimal digits reads back.
proof fn lemma_digits_read_back(n: nat, max: int)
    requires
        n <= max,
    ensures
        digits_value(decimal(n), 10, max) == Ok::<int, NumberError>(n as int),
    decreases n,
{
    let s = decimal(n);
    if n < 10 {
        assert(s.drop_last() =~= Seq::<char>::empty());
        assert(digits_value(s.drop_last(), 10, max) == Ok::<int, NumberError>(0));
        assert(digit_value(s.last(), 10) == Some(n as int));
    } else {
        lemma_digits_read_back(n / 10, max);
        assert(s.drop_last() =~= decimal(n / 10));
        assert(digit_value(s.last(), 10) == Some((n % 10) as int));
    }
}

/// A text that is not all white space has a word.
proof fn lemma_some_word(s: Seq<char>, i: int)
    requires
        0 <= i < s.len(),
        !is_white(s[i]),
    ensures
        words(s).len() > 0,
    decreases s.len(),
{
    let before = s.drop_last();
    if is_white(s.last()) {
        lemma_some_word(before, i);
    }
}

/// If anything is left of a text, then something in it is not white space.
proof fn lemma_trimmed_not_empty(s: Seq<char>) -> (i: int)
    requires
        trimmed(s).len() > 0,
    ensures
        0 <= i < s.len(),
        !is_white(s[i]),
    decreases s.len(),
{
    if s.len() > 0 && is_white(s[0]) {
        lemma_trimmed_not_empty(s.skip(1)) + 1
    } else {
        assert(trimmed_start(s) == s);
        if s.len() == 0 {
            assert(trimmed_end(s).len() == 0);
        }
        0
    }
}

/// The words of a text are not empty and hold no white space.
pub proof fn law_words_are_solid(s: Seq<char>, i: int)
    requires
        0 <= i < words(s).len(),
    ensures
        words(s)[i].len() > 0,
        forall|j: int| 0 <= j < words(s)[i].len() ==> !is_white(#[trigger] words(s)[i][j]),
    decreases s.len(),
{
    let before = s.drop_last();
    let earlier = words(before);
    if is_white(s.last()) {
        law_words_are_solid(before, i);
    } else if before.len() == 0 || is_white(before.last()) {
        if i < earlier.len() {
            law_words_are_solid(before, i);
        }
    } else {
        lemma_some_word(before, before.len() - 1);
        law_words_are_solid(before, i);
    }
}

/// A command in the file that is nothing but white space stands for none, and any other
/// one names a program.
pub proof fn law_blank_command_disables(value: Seq<char>)
    ensures
        command_value(value) is None <==> forall|i: int|
            0 <= i < value.len() ==> is_white(#[trigger] value[i]),
        command_value(value) matches Some(command) ==> command.len() > 0,
{
    if trimmed(value).len() > 0 {
        let i = lemma_trimmed_not_empty(value);
        lemma_some_word(value, i);
    } else {
        assert forall|i: int| 0 <= i < value.len() implies is_white(#[trigger] value[i]) by {
            if !is_white(value[i]) {
                lemma_trimmed_keeps(value, i);
            }
        }
    }
}

/// A character that is not white space is not trimmed.
proof fn lemma_trimmed_keeps(s: Seq<char>, i: int)
    requires
        0 <= i < s.len(),
        !is_white(s[i]),
    ensures
        trimmed(s).len() > 0,
    decreases s.len(),
{
    if is_white(s[0]) {
        lemma_trimmed_keeps(s.skip(1), i - 1);
    } else {
        assert(trimmed_start(s) == s);
        lemma_trimmed_end_keeps(s);
    }
}

/// A first character that is not white space is not trimmed from the end.
proof fn lemma_trimmed_end_keeps(s: Seq<char>)
    requires
        s.len() > 0,
        !is_white(s[0]),
    ensures
        trimmed_end(s).len() > 0,
    decreases s.len(),
{
    if is_white(s.last()) {
        lemma_trimmed_end_keeps(s.drop_last());
    }
}

/// A value in the file leaves the settings valid.
pub proof fn law_values_keep_settings_valid(
    settings: Settings,
    key: Seq<char>,
    value: Seq<char>,
    place: Seq<char>,
)
    requires
        settings.valid(),
    ensures
        value_set(settings, key, value, place) matches Ok(next) ==> next.valid(),
{
    law_blank_command_disables(value);
}

/// A whole file leaves the settings valid, also where it ends with a problem.
pub proof fn law_file_keeps_settings_valid(
    settings: Settings,
    contents: Seq<char>,
    path: Seq<char>,
    line: nat,
)
    requires
        settings.valid(),
    ensures
        file_set(settings, contents, path, line).settings.valid(),
    decreases contents.len(),
{
    let end = first_place(contents, '\n') as int;
    let body = line_body(contents.take(end));
    let sign = first_place(body, '=') as int;
    law_values_keep_settings_valid(
        settings,
        trimmed(body.take(sign)),
        unquoted(trimmed(body.skip(sign + 1))),
        place_of(path, line),
    );
    if let Ok(next) = line_set(settings, contents.take(end), place_of(path, line)) {
        if end < contents.len() {
            law_file_keeps_settings_valid(next, contents.skip(end + 1), path, line + 1);
        }
    }
}

/// The arguments leave the settings valid.
pub proof fn law_args_keep_settings_valid(args: Seq<Seq<char>>, i: int, settings: Settings)
    requires
        0 <= i,
        settings.valid(),
    ensures
        args_from(args, i, settings).settings.valid(),
    decreases args.len() - i,
{
    if i < args.len() {
        law_args_keep_settings_valid(args, i + 1, settings);
        if i + 1 < args.len() {
            law_args_keep_settings_valid(args, i + 2, settings);
            if let Ok(color) = color_value(args[i + 1]) {
                law_args_keep_settings_valid(
                    args,
                    i + 2,
                    Settings { color: color as u32, ..settings },
                );
            }
            if let Ok(seconds) = number_value(args[i + 1], 10, u64::MAX as int) {
                law_args_keep_settings_valid(
                    args,
                    i + 2,
                    Settings { off_after: seconds as u64, ..settings },
                );
            }
            law_args_keep_settings_valid(
                args,
                i + 2,
                Settings { pam_service: args[i + 1], ..settings },
            );
        }
    }
}

/// Whatever the file and the arguments, a command that comes out names a program.
pub proof fn law_started_settings_are_valid(
    args: Seq<Seq<char>>,
    file: Option<(Seq<char>, Seq<char>)>,
)
    ensures
        started(args, file).settings.valid(),
{
    let initial = Settings::initial();
    law_args_keep_settings_valid(args, 0, initial);
    if let Some((path, contents)) = file {
        law_file_keeps_settings_valid(initial, contents, path, 1);
        law_args_keep_settings_valid(args, 0, file_set(initial, contents, path, 1).settings);
    }
}

/// A line that says nothing changes nothing.
pub proof fn law_blank_line_changes_nothing(settings: Settings, line: Seq<char>, place: Seq<char>)
    requires
        line_body(line).len() == 0,
    ensures
        line_set(settings, line, place) == Ok::<Settings, Problem<Seq<char>>>(settings),
{
}

/// What follows a hash sign on a line says nothing.
pub proof fn law_comment_says_nothing(
    settings: Settings,
    line: Seq<char>,
    comment: Seq<char>,
    place: Seq<char>,
)
    ensures
        line_set(settings, line + seq!['#'] + comment, place) == line_set(settings, line, place),
{
    let longer = line + seq!['#'] + comment;
    lemma_first_place(line, '#', seq!['#'] + comment);
    assert(line + (seq!['#'] + comment) =~= longer);
    let end = first_place(line, '#') as int;
    assert(longer.take(end) =~= line.take(end));
}

/// The first place of a character is not moved by what comes behind it.
proof fn lemma_first_place(s: Seq<char>, c: char, rest: Seq<char>)
    requires
        rest.len() > 0,
        rest[0] == c,
    ensures
        first_place(s, c) <= s.len(),
        first_place(s + rest, c) == first_place(s, c),
    decreases s.len(),
{
    if s.len() == 0 {
        assert(s + rest =~= rest);
    } else if s[0] != c {
        lemma_first_place(s.skip(1), c, rest);
        assert((s + rest).skip(1) =~= s.skip(1) + rest);
    }
}

/// How many line ends a text has.
pub open spec fn line_ends(contents: Seq<char>) -> nat
    decreases contents.len(),
{
    let end = first_place(contents, '\n') as int;
    if end >= contents.len() {
        0
    } else {
        1 + line_ends(contents.skip(end + 1))
    }
}

/// A file in two parts, with a line end between them, sets what the first part sets and
/// then what the second one sets: what comes later prevails.
pub proof fn law_file_is_read_in_order(
    settings: Settings,
    first: Seq<char>,
    second: Seq<char>,
    path: Seq<char>,
    line: nat,
)
    ensures
        ({
            let loaded = file_set(settings, first, path, line);
            file_set(settings, first + seq!['\n'] + second, path, line)
                == if loaded.problem is Some {
                loaded
            } else {
                file_set(loaded.settings, second, path, line + line_ends(first) + 1)
            }
        }),
    decreases first.len(),
{
    let whole = first + seq!['\n'] + second;
    let end = first_place(first, '\n') as int;
    lemma_first_place(first, '\n', seq!['\n'] + second);
    assert(first + (seq!['\n'] + second) =~= whole);
    assert(whole.take(end) =~= first.take(end));
    if let Ok(next) = line_set(settings, first.take(end), place_of(path, line)) {
        if end >= first.len() {
            assert(whole.skip(end + 1) =~= second);
        } else {
            let rest = first.skip(end + 1);
            assert(whole.skip(end + 1) =~= rest + seq!['\n'] + second);
            law_file_is_read_in_order(next, rest, second, path, line + 1);
        }
    }
}

/// Whether an argument is an option that takes a value.
pub open spec fn takes_value(argument: Seq<char>) -> bool {
    argument == "--color"@ || argument == "--off-after"@ || argument == "--pam-service"@ || argument
        == "--config"@
}

/// Whether an argument ends the reading, with a request or by taking all that follows.
pub open spec fn ends_reading(argument: Seq<char>) -> bool {
    argument == "-h"@ || argument == "--help"@ || argument == "--version"@ || argument == "-V"@
        || argument == "--power-off-command"@
}

/// Whether the arguments from number `i` on are options with their values to the end, so
/// that more can follow.
pub open spec fn open_ended(args: Seq<Seq<char>>, i: int) -> bool
    decreases args.len() + 1 - i,
{
    if i >= args.len() {
        i == args.len()
    } else if ends_reading(args[i]) {
        false
    } else if takes_value(args[i]) {
        open_ended(args, i + 2)
    } else {
        open_ended(args, i + 1)
    }
}

/// Arguments are read in order: after options with their values, what follows is read
/// with the settings that they left.
pub proof fn law_args_are_read_in_order(
    first: Seq<Seq<char>>,
    second: Seq<Seq<char>>,
    i: int,
    settings: Settings,
)
    requires
        0 <= i,
        open_ended(first, i),
        args_from(first, i, settings).request is Ok,
    ensures
        args_from(first + second, i, settings) == args_from(
            second,
            0,
            args_from(first, i, settings).settings,
        ),
    decreases first.len() - i,
{
    let whole = first + second;
    if i == first.len() {
        lemma_args_shift(first, second, 0, settings);
    } else {
        assert(whole[i] == first[i]);
        if takes_value(first[i]) {
            assert(i + 1 < first.len());
            assert(whole[i + 1] == first[i + 1]);
            if first[i] == "--color"@ {
                let color = color_value(first[i + 1])->Ok_0;
                law_args_are_read_in_order(
                    first,
                    second,
                    i + 2,
                    Settings { color: color as u32, ..settings },
                );
            } else if first[i] == "--off-after"@ {
                let seconds = number_value(first[i + 1], 10, u64::MAX as int)->Ok_0;
                law_args_are_read_in_order(
                    first,
                    second,
                    i + 2,
                    Settings { off_after: seconds as u64, ..settings },
                );
            } else if first[i] == "--pam-service"@ {
                law_args_are_read_in_order(
                    first,
                    second,
                    i + 2,
                    Settings { pam_service: first[i + 1], ..settings },
                );
            } else {
                law_args_are_read_in_order(first, second, i + 2, settings);
            }
        } else {
            law_args_are_read_in_order(first, second, i + 1, settings);
        }
    }
}

/// An option at the end prevails over what was set before, be it by the settings file or
/// by an earlier option, and leaves the other settings as they were.
pub proof fn law_last_option_prevails(
    settings: Settings,
    first: Seq<Seq<char>>,
    value: Seq<char>,
    command: Seq<Seq<char>>,
)
    requires
        open_ended(first, 0),
        args_from(first, 0, settings).request is Ok,
        command.len() > 0,
    ensures
        ({
            let left = args_from(first, 0, settings).settings;
            &&& color_value(value) matches Ok(color) ==> args_from(
                first + seq!["--color"@, value],
                0,
                settings,
            ) == (Parsed {
                settings: Settings { color: color as u32, ..left },
                request: Ok(Request::Lock),
            })
            &&& number_value(value, 10, u64::MAX as int) matches Ok(seconds) ==> args_from(
                first + seq!["--off-after"@, value],
                0,
                settings,
            ) == (Parsed {
                settings: Settings { off_after: seconds as u64, ..left },
                request: Ok(Request::Lock),
            })
            &&& args_from(first + seq!["--pam-service"@, value], 0, settings) == (Parsed {
                settings: Settings { pam_service: value, ..left },
                request: Ok(Request::Lock),
            })
            &&& args_from(first + (seq!["--power-off-command"@] + command), 0, settings) == (
            Parsed {
                settings: Settings { power_off_command: Some(command), ..left },
                request: Ok(Request::Lock),
            })
        }),
{
    let left = args_from(first, 0, settings).settings;
    reveal_strlit("-h");
    reveal_strlit("--help");
    reveal_strlit("-V");
    reveal_strlit("--version");
    reveal_strlit("--color");
    reveal_strlit("--off-after");
    reveal_strlit("--pam-service");
    reveal_strlit("--power-off-command");
    assert("--color"@[2] != "--help"@[2] && "--color"@.len() != "--version"@.len());
    assert("--off-after"@.len() != "--color"@.len());
    assert("--pam-service"@.len() != "--off-after"@.len());
    assert("--power-off-command"@.len() != "--pam-service"@.len());
    let color = seq!["--color"@, value];
    let off_after = seq!["--off-after"@, value];
    let service = seq!["--pam-service"@, value];
    let program = seq!["--power-off-command"@] + command;
    law_args_are_read_in_order(first, color, 0, settings);
    law_args_are_read_in_order(first, off_after, 0, settings);
    law_args_are_read_in_order(first, service, 0, settings);
    law_args_are_read_in_order(first, program, 0, settings);
    if let Ok(rgb) = color_value(value) {
        let next = Settings { color: rgb as u32, ..left };
        assert(args_from(color, 2, next) == (Parsed { settings: next, request: Ok(Request::Lock) }));
        assert(args_from(color, 0, left) == args_from(color, 2, next));
    }
    if let Ok(seconds) = number_value(value, 10, u64::MAX as int) {
        let next = Settings { off_after: seconds as u64, ..left };
        assert(args_from(off_after, 2, next) == (Parsed {
            settings: next,
            request: Ok(Request::Lock),
        }));
        assert(args_from(off_after, 0, left) == args_from(off_after, 2, next));
    }
    let next = Settings { pam_service: value, ..left };
    assert(args_from(service, 2, next) == (Parsed { settings: next, request: Ok(Request::Lock) }));
    assert(args_from(service, 0, left) == args_from(service, 2, next));
    assert(program.skip(1) =~= command);
}

/// Arguments mean the same behind others.
pub(crate) proof fn lemma_args_shift(
    first: Seq<Seq<char>>,
    second: Seq<Seq<char>>,
    j: int,
    settings: Settings,
)
    requires
        0 <= j,
    ensures
        args_from(first + second, first.len() + j, settings) == args_from(second, j, settings),
    decreases second.len() - j,
{
    let whole = first + second;
    if j < second.len() {
        assert(whole[first.len() + j] == second[j]);
        lemma_args_shift(first, second, j + 1, settings);
        if j + 1 < second.len() {
            assert(whole[first.len() + j + 1] == second[j + 1]);
            lemma_args_shift(first, second, j + 2, settings);
            if let Ok(color) = color_value(second[j + 1]) {
                lemma_args_shift(
                    first,
                    second,
                    j + 2,
                    Settings { color: color as u32, ..settings },
                );
            }
            if let Ok(seconds) = number_value(second[j + 1], 10, u64::MAX as int) {
                lemma_args_shift(
                    first,
                    second,
                    j + 2,
                    Settings { off_after: seconds as u64, ..settings },
                );
            }
            lemma_args_shift(
                first,
                second,
                j + 2,
                Settings { pam_service: second[j + 1], ..settings },
            );
        }
        assert(whole.skip(first.len() + j + 1) =~= second.skip(j + 1));
    }
}

/// Whether the arguments from number `i` on are options with their values to the end, as
/// far as the settings file is concerned, so that more can be said of it.
pub open spec fn source_open_ended(args: Seq<Seq<char>>, i: int) -> bool
    decreases args.len() + 1 - i,
{
    if i >= args.len() {
        i == args.len()
    } else if args[i] == "--power-off-command"@ {
        false
    } else if takes_value(args[i]) {
        source_open_ended(args, i + 2)
    } else {
        source_open_ended(args, i + 1)
    }
}

/// What the options say of the settings file is said in order, too: a later path
/// prevails, and the file is not read once that is forbidden.
pub proof fn law_last_path_prevails(first: Seq<Seq<char>>, path: Seq<char>)
    requires
        source_open_ended(first, 0),
    ensures
        source_of(first) is Ok,
        source_of(first + seq!["--config"@, path]) == Ok::<Source, Problem<Seq<char>>>(
            Source { path: Some(path), ..source_of(first)->Ok_0 },
        ),
        source_of(first + seq!["--no-config"@]) == Ok::<Source, Problem<Seq<char>>>(
            Source { load: false, ..source_of(first)->Ok_0 },
        ),
{
    reveal_strlit("--config");
    reveal_strlit("--no-config");
    reveal_strlit("--power-off-command");
    assert("--config"@.len() == 8 && "--no-config"@.len() == 11 && "--power-off-command"@.len()
        == 19);
    let source = Source { path: None, load: true };
    lemma_source_goes_on(first, seq!["--config"@, path], 0, source);
    lemma_source_goes_on(first, seq!["--no-config"@], 0, source);
    let left = source_of(first)->Ok_0;
    let named = first + seq!["--config"@, path];
    let count = first.len() as int;
    assert(named[count] == "--config"@ && named[count + 1] == path);
    assert(source_from(named, count + 2, Source { path: Some(path), ..left }) == Ok::<
        Source,
        Problem<Seq<char>>,
    >(Source { path: Some(path), ..left }));
    let forbidden = first + seq!["--no-config"@];
    assert(forbidden[count] == "--no-config"@);
    assert(source_from(forbidden, count + 1, Source { load: false, ..left }) == Ok::<
        Source,
        Problem<Seq<char>>,
    >(Source { load: false, ..left }));
}

/// After options with their values the reading goes on with what they said.
pub(crate) proof fn lemma_source_goes_on(
    first: Seq<Seq<char>>,
    second: Seq<Seq<char>>,
    i: int,
    source: Source,
)
    requires
        0 <= i <= first.len(),
        source_open_ended(first, i),
    ensures
        source_from(first, i, source) is Ok,
        source_from(first + second, i, source) == source_from(
            first + second,
            first.len() as int,
            source_from(first, i, source)->Ok_0,
        ),
    decreases first.len() - i,
{
    let whole = first + second;
    reveal_with_fuel(source_open_ended, 2);
    if i < first.len() {
        assert(whole[i] == first[i]);
        if first[i] == "--config"@ {
            assert(whole[i + 1] == first[i + 1]);
            lemma_source_goes_on(
                first,
                second,
                i + 2,
                Source { path: Some(first[i + 1]), ..source },
            );
        } else if takes_value(first[i]) {
            reveal_strlit("--no-config");
            reveal_strlit("--color");
            reveal_strlit("--off-after");
            reveal_strlit("--pam-service");
            assert("--no-config"@[2] == 'n' && "--off-after"@[2] == 'o');
            lemma_source_goes_on(first, second, i + 2, source);
        } else if first[i] == "--no-config"@ {
            lemma_source_goes_on(first, second, i + 1, Source { load: false, ..source });
        } else {
            lemma_source_goes_on(first, second, i + 1, source);
        }
    }
}

/// Nothing that follows allows to read a file that was forbidden.
proof fn lemma_forbidden_stays(args: Seq<Seq<char>>, i: int, source: Source)
    requires
        !source.load,
    ensures
        source_from(args, i, source) matches Ok(found) ==> !found.load,
    decreases args.len() + 1 - i,
{
    if i < args.len() {
        lemma_forbidden_stays(args, i + 1, source);
        lemma_forbidden_stays(args, i + 1, Source { load: false, ..source });
        if i + 1 <= args.len() {
            lemma_forbidden_stays(args, i + 2, source);
            lemma_forbidden_stays(args, i + 2, Source { path: Some(args[i + 1]), ..source });
        }
    }
}

/// With the option `--no-config` no settings file matters, wherever among the options it
/// stands and whatever file is named besides: the result is that of the arguments alone.
pub proof fn law_no_config_ignores_the_file(
    first: Seq<Seq<char>>,
    rest: Seq<Seq<char>>,
    file: Option<(Seq<char>, Seq<char>)>,
)
    requires
        source_open_ended(first, 0),
    ensures
        ({
            let args = first + seq!["--no-config"@] + rest;
            &&& source_of(args) matches Ok(source) ==> !source.load
            &&& started(args, file) == started(args, None)
        }),
{
    reveal_strlit("--config");
    reveal_strlit("--no-config");
    reveal_strlit("--power-off-command");
    assert("--config"@.len() == 8 && "--no-config"@.len() == 11 && "--power-off-command"@.len()
        == 19);
    let second = seq!["--no-config"@] + rest;
    let args = first + seq!["--no-config"@] + rest;
    assert(args =~= first + second);
    let initial = Source { path: None, load: true };
    lemma_source_goes_on(first, second, 0, initial);
    let left = source_of(first)->Ok_0;
    let count = first.len() as int;
    assert(args[count] == "--no-config"@);
    lemma_forbidden_stays(args, count + 1, Source { load: false, ..left });
}

/// The arguments of the power-off command say nothing of the settings file.
pub proof fn law_command_arguments_name_no_file(first: Seq<Seq<char>>, command: Seq<Seq<char>>)
    requires
        source_open_ended(first, 0),
    ensures
        source_of(first + seq!["--power-off-command"@] + command) == source_of(first),
{
    let second = seq!["--power-off-command"@] + command;
    let args = first + seq!["--power-off-command"@] + command;
    assert(args =~= first + second);
    lemma_source_goes_on(first, second, 0, Source { path: None, load: true });
    assert(args[first.len() as int] == "--power-off-command"@);
}

/// Looking for the settings file finds no mistake in options that ask for a lock: with no
/// file the start comes to what the options say.
pub proof fn law_good_options_start(args: Seq<Seq<char>>)
    requires
        args_from(args, 0, Settings::initial()).request == Ok::<Request, Problem<Seq<char>>>(
            Request::Lock,
        ),
    ensures
        source_of(args) is Ok,
        started(args, None) == args_from(args, 0, Settings::initial()),
{
    lemma_good_options_have_source(
        args,
        0,
        Settings::initial(),
        Source { path: None, load: true },
    );
}

/// Where the options from number `i` on ask for a lock, each `--config` has its path.
proof fn lemma_good_options_have_source(
    args: Seq<Seq<char>>,
    i: int,
    settings: Settings,
    source: Source,
)
    requires
        0 <= i,
        args_from(args, i, settings).request == Ok::<Request, Problem<Seq<char>>>(Request::Lock),
    ensures
        source_from(args, i, source) is Ok,
    decreases args.len() + 1 - i,
{
    if i < args.len() && args[i] != "--power-off-command"@ {
        reveal_strlit("--color");
        reveal_strlit("--off-after");
        reveal_strlit("--pam-service");
        reveal_strlit("--config");
        reveal_strlit("--no-config");
        assert("--no-config"@[2] == 'n' && "--off-after"@[2] == 'o');
        assert("--color"@.len() == 7 && "--config"@.len() == 8 && "--pam-service"@.len() == 13);
        assert("--no-config"@.len() == 11 && "--off-after"@.len() == 11);
        if args[i] == "--color"@ {
            let color = color_value(args[i + 1])->Ok_0;
            let next = Settings { color: color as u32, ..settings };
            lemma_good_options_have_source(args, i + 2, next, source);
        } else if args[i] == "--off-after"@ {
            let seconds = number_value(args[i + 1], 10, u64::MAX as int)->Ok_0;
            let next = Settings { off_after: seconds as u64, ..settings };
            lemma_good_options_have_source(args, i + 2, next, source);
        } else if args[i] == "--pam-service"@ {
            let next = Settings { pam_service: args[i + 1], ..settings };
            lemma_good_options_have_source(args, i + 2, next, source);
        } else if args[i] == "--config"@ {
            let named = Source { path: Some(args[i + 1]), ..source };
            lemma_good_options_have_source(args, i + 2, settings, named);
        } else {
            let forbidden = Source { load: false, ..source };
            lemma_good_options_have_source(args, i + 1, settings, forbidden);
        }
    }
}

} // verus!
