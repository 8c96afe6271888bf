//! What a line of the settings file, an option and a whole start come to.
use vstd::prelude::*;

#[allow(unused_imports)]
use crate::args::{args_from, Parsed, Request};
#[allow(unused_imports)]
use crate::config::{
    color_value, command_value, file_set, line_body, line_set, unquoted, value_set, without_hash,
    Problem, Settings,
};
#[allow(unused_imports)]
use crate::config_laws::{law_blank_command_disables, law_color_is_six_digits};
#[allow(unused_imports)]
use crate::number::{digit_value, digits_value, number_value, NumberError};
#[allow(unused_imports)]
use crate::text::{decimal, first_place, is_white, trimmed, trimmed_end, words};
#[allow(unused_imports)]
use crate::text_laws::{
    all_white, law_first_place_is_the_first, law_trimming_leaves_the_inside, lemma_trimmed_start,
    tight,
};

verus! {

/// Whether a character is a hexadecimal digit, in either case.
pub open spec fn is_hex(c: char) -> bool {
    0x30 <= c as u32 <= 0x39 || 0x41 <= c as u32 <= 0x46 || 0x61 <= c as u32 <= 0x66
}

/// Whether a character stands for this number from 0 to 15, in either case.
pub open spec fn stands_for(c: char, n: int) -> bool {
    0 <= n < 16 && (c == "0123456789abcdef"@[n] || c == "0123456789ABCDEF"@[n])
}

/// A digit is worth what it stands for.
proof fn lemma_hex(c: char, n: int)
    requires
        stands_for(c, n),
    ensures
        digit_value(c, 16) == Some(n),
        is_hex(c),
{
    reveal_strlit("0123456789abcdef");
    reveal_strlit("0123456789ABCDEF");
}

/// The texts that say a colour are exactly those of six hexadecimal digits, and those with
/// one hash sign in front of them.
pub proof fn law_colors_are_six_digits_or_hash_and_six(s: Seq<char>)
    ensures
        color_value(s) is Ok <==> (s.len() == 6 && forall|i: int|
            0 <= i < 6 ==> is_hex(#[trigger] s[i])) || (s.len() == 7 && s[0] == '#' && forall|i: int|

            1 <= i < 7 ==> is_hex(#[trigger] s[i])),
{
    law_color_is_six_digits(s);
    let digits = without_hash(s);
    assert forall|c: char| #[trigger] is_hex(c) == (digit_value(c, 16) is Some) by {}
    if s.len() > 0 && s[0] == '#' {
        assert(!is_hex(s[0]));
        if color_value(s) is Ok {
            assert forall|i: int| 1 <= i < 7 implies is_hex(#[trigger] s[i]) by {
                assert(digits[i - 1] == s[i]);
                assert(digit_value(digits[i - 1], 16) is Some);
            }
        }
        if s.len() == 7 && forall|i: int| 1 <= i < 7 ==> is_hex(#[trigger] s[i]) {
            assert forall|i: int| 0 <= i < digits.len() implies digit_value(
                #[trigger] digits[i],
                16,
            ) is Some by {
                assert(digits[i] == s[i + 1]);
                assert(is_hex(s[i + 1]));
            }
        }
    } else {
        assert(digits == s);
        if color_value(s) is Ok {
            assert forall|i: int| 0 <= i < 6 implies is_hex(#[trigger] s[i]) by {
                assert(digit_value(digits[i], 16) is Some);
            }
        }
        if s.len() == 6 && forall|i: int| 0 <= i < 6 ==> is_hex(#[trigger] s[i]) {
            assert forall|i: int| 0 <= i < digits.len() implies digit_value(
                #[trigger] digits[i],
                16,
            ) is Some by {
                assert(is_hex(s[i]));
            }
        }
    }
}

/// A colour is read digit by digit, two each for red, green and blue, in either case and
/// with a hash sign or not.
pub proof fn law_color_is_read_digit_by_digit(s: Seq<char>, n: Seq<int>)
    requires
        s.len() == 6,
        n.len() == 6,
        forall|i: int| 0 <= i < 6 ==> stands_for(#[trigger] s[i], n[i]),
    ensures
        color_value(s) == Ok::<int, Problem<Seq<char>>>(
            0x1_0000 * (16 * n[0] + n[1]) + 0x100 * (16 * n[2] + n[3]) + 16 * n[4] + n[5],
        ),
        color_value(seq!['#'] + s) == color_value(s),
{
    assert forall|i: int| 0 <= i < 6 implies is_hex(#[trigger] s[i]) && digit_value(s[i], 16)
        == Some(n[i]) && s[i] != '#' && 0 <= n[i] < 16 by {
        assert(stands_for(s[i], n[i]));
        lemma_hex(s[i], n[i]);
    }
    assert((seq!['#'] + s).skip(1) =~= s);
    assert(s[0] != '#');
    law_colors_are_six_digits_or_hash_and_six(s);
    assert(without_hash(s) == s);
    let max = u32::MAX as int;
    assert(s.take(0) =~= Seq::<char>::empty());
    assert(s.take(1).drop_last() =~= s.take(0) && s.take(1).last() == s[0]);
    assert(s.take(2).drop_last() =~= s.take(1) && s.take(2).last() == s[1]);
    assert(s.take(3).drop_last() =~= s.take(2) && s.take(3).last() == s[2]);
    assert(s.take(4).drop_last() =~= s.take(3) && s.take(4).last() == s[3]);
    assert(s.take(5).drop_last() =~= s.take(4) && s.take(5).last() == s[4]);
    assert(s.drop_last() =~= s.take(5) && s.last() == s[5]);
    let a = n[0];
    let b = 16 * a + n[1];
    let c = 16 * b + n[2];
    let d = 16 * c + n[3];
    let e = 16 * d + n[4];
    assert(digits_value(s.take(0), 16, max) == Ok::<int, NumberError>(0));
    assert(digits_value(s.take(1), 16, max) == Ok::<int, NumberError>(a));
    assert(digits_value(s.take(2), 16, max) == Ok::<int, NumberError>(b));
    assert(digits_value(s.take(3), 16, max) == Ok::<int, NumberError>(c));
    assert(digits_value(s.take(4), 16, max) == Ok::<int, NumberError>(d));
    assert(digits_value(s.take(5), 16, max) == Ok::<int, NumberError>(e));
    assert(digits_value(s, 16, max) == Ok::<int, NumberError>(16 * e + n[5]));
}

/// The names of the options differ.
pub(crate) proof fn lemma_option_names()
    ensures
        "-h"@.len() == 2 && "-V"@.len() == 2 && "-h"@[1] == 'h' && "-V"@[1] == 'V',
        "--help"@.len() == 6 && "--color"@.len() == 7 && "--config"@.len() == 8,
        "--version"@.len() == 9 && "--off-after"@.len() == 11 && "--no-config"@.len() == 11,
        "--off-after"@[2] == 'o' && "--no-config"@[2] == 'n',
        "--pam-service"@.len() == 13 && "--power-off-command"@.len() == 19,
{
    reveal_strlit("-h");
    reveal_strlit("-V");
    reveal_strlit("--help");
    reveal_strlit("--color");
    reveal_strlit("--config");
    reveal_strlit("--version");
    reveal_strlit("--off-after");
    reveal_strlit("--no-config");
    reveal_strlit("--pam-service");
    reveal_strlit("--power-off-command");
}

/// The keys of the file differ.
proof fn lemma_key_names()
    ensures
        "color"@.len() == 5 && "off-after"@.len() == 9 && "off_after"@.len() == 9,
        "pam-service"@.len() == 11 && "pam_service"@.len() == 11,
        "power-off-command"@.len() == 17 && "power_off_command"@.len() == 17,
{
    reveal_strlit("color");
    reveal_strlit("off-after");
    reveal_strlit("off_after");
    reveal_strlit("pam-service");
    reveal_strlit("pam_service");
    reveal_strlit("power-off-command");
    reveal_strlit("power_off_command");
}

/// A key of the file does what the option of its name does, and fails on the same values.
pub proof fn law_file_and_options_agree(settings: Settings, value: Seq<char>, place: Seq<char>)
    ensures
        ({
            let by_option = args_from(seq!["--color"@, value], 0, settings);
            match value_set(settings, "color"@, value, place) {
                Ok(next) => by_option == (Parsed { settings: next, request: Ok(Request::Lock) }),
                Err(problem) => by_option == (Parsed { settings, request: Err(problem) }),
            }
        }),
        ({
            let by_option = args_from(seq!["--off-after"@, value], 0, settings);
            match value_set(settings, "off-after"@, value, place) {
                Ok(next) => by_option == (Parsed { settings: next, request: Ok(Request::Lock) }),
                Err(problem) => problem == (Problem::InvalidOffAfter { place }) && by_option.settings
                    == settings && by_option.request is Err,
            }
        }),
        ({
            let by_option = args_from(seq!["--pam-service"@, value], 0, settings);
            match value_set(settings, "pam-service"@, value, place) {
                Ok(next) => by_option == (Parsed { settings: next, request: Ok(Request::Lock) }),
                Err(_) => false,
            }
        }),
        ({
            let by_option = args_from(seq!["--power-off-command"@] + words(value), 0, settings);
            match value_set(settings, "power-off-command"@, value, place) {
                Ok(next) => if all_white(value) {
                    next == (Settings { power_off_command: None, ..settings })
                } else {
                    by_option == (Parsed { settings: next, request: Ok(Request::Lock) })
                },
                Err(_) => false,
            }
        }),
{
    lemma_option_names();
    lemma_key_names();
    law_blank_command_disables(value);
    let color = seq!["--color"@, value];
    let off_after = seq!["--off-after"@, value];
    let service = seq!["--pam-service"@, value];
    let program = seq!["--power-off-command"@] + words(value);
    assert(program.skip(1) =~= words(value));
    if let Ok(rgb) = color_value(value) {
        let next = Settings { color: rgb as u32, ..settings };
        assert(args_from(color, 2, next) == (Parsed { settings: next, request: Ok(Request::Lock) }));
    }
    if let Ok(seconds) = number_value(value, 10, u64::MAX as int) {
        let next = Settings { off_after: seconds as u64, ..settings };
        assert(args_from(off_after, 2, next) == (Parsed {
            settings: next,
            request: Ok(Request::Lock),
        }));
    }
    let next = Settings { pam_service: value, ..settings };
    assert(args_from(service, 2, next) == (Parsed { settings: next, request: Ok(Request::Lock) }));
    if all_white(value) {
        assert(command_value(value) is None);
    } else {
        assert(command_value(value) is Some);
        assert(words(value).len() > 0);
    }
}

/// A key sets its own value and no other.
pub proof fn law_keys_set_their_own_value(settings: Settings, value: Seq<char>, place: Seq<char>)
    ensures
        value_set(settings, "color"@, value, place) matches Ok(next) ==> color_value(value) == Ok::<
            int,
            Problem<Seq<char>>,
        >(next.color as int) && next == (Settings { color: next.color, ..settings }),
        value_set(settings, "off-after"@, value, place) matches Ok(next) ==> number_value(
            value,
            10,
            0xFFFF_FFFF_FFFF_FFFF,
        ) == Ok::<int, NumberError>(next.off_after as int) && next == (Settings {
            off_after: next.off_after,
            ..settings
        }),
        value_set(settings, "pam-service"@, value, place) == Ok::<Settings, Problem<Seq<char>>>(
            Settings { pam_service: value, ..settings },
        ),
        value_set(settings, "power-off-command"@, value, place) matches Ok(next) && next == (
        Settings { power_off_command: next.power_off_command, ..settings })
            && next.power_off_command == if all_white(value) {
            None
        } else {
            Some(words(value))
        },
{
    lemma_key_names();
    law_blank_command_disables(value);
    law_color_is_six_digits(value);
    lemma_number_is_bounded(value, u64::MAX as int);
}

/// A number that is read is from zero to the largest.
proof fn lemma_number_is_bounded(s: Seq<char>, max: int)
    requires
        max >= 0,
    ensures
        number_value(s, 10, max) matches Ok(n) ==> 0 <= n <= max,
{
    lemma_digits_are_bounded(s, max);
    lemma_digits_are_bounded(s.skip(1), max);
}

/// A row of digits that is read is from zero to the largest.
proof fn lemma_digits_are_bounded(s: Seq<char>, max: int)
    requires
        max >= 0,
    ensures
        digits_value(s, 10, max) matches Ok(n) ==> 0 <= n <= max,
    decreases s.len(),
{
    if s.len() > 0 {
        lemma_digits_are_bounded(s.drop_last(), max);
    }
}

/// Keys may be written with underscores.
pub proof fn law_underscores_are_hyphens(settings: Settings, value: Seq<char>, place: Seq<char>)
    ensures
        value_set(settings, "off_after"@, value, place) == value_set(
            settings,
            "off-after"@,
            value,
            place,
        ),
        value_set(settings, "power_off_command"@, value, place) == value_set(
            settings,
            "power-off-command"@,
            value,
            place,
        ),
        value_set(settings, "pam_service"@, value, place) == value_set(
            settings,
            "pam-service"@,
            value,
            place,
        ),
{
    lemma_key_names();
}

/// Any other key is refused, whatever its value.
pub proof fn law_other_keys_are_refused(
    settings: Settings,
    key: Seq<char>,
    value: Seq<char>,
    place: Seq<char>,
)
    requires
        key != "color"@,
        key != "off-after"@,
        key != "off_after"@,
        key != "power-off-command"@,
        key != "power_off_command"@,
        key != "pam-service"@,
        key != "pam_service"@,
    ensures
        value_set(settings, key, value, place) == Err::<Settings, Problem<Seq<char>>>(
            Problem::UnknownKey { place, key },
        ),
{
}

/// Only a pair of the same quotation marks comes off.
pub proof fn law_other_marks_stay(value: Seq<char>)
    requires
        value.len() < 2 || value[0] != value[value.len() - 1] || (value[0] != '"' && value[0]
            != '\''),
    ensures
        unquoted(value) == value,
{
}

/// Whether a character does not occur in a text.
pub open spec fn lacks(s: Seq<char>, c: char) -> bool {
    forall|i: int| 0 <= i < s.len() ==> #[trigger] s[i] != c
}

/// Where a character does not occur, its place is the end.
proof fn lemma_lacks(s: Seq<char>, c: char)
    requires
        lacks(s, c),
    ensures
        first_place(s, c) == s.len(),
{
    law_first_place_is_the_first(s, c);
}

/// The place of a character behind a text without it.
proof fn lemma_place_behind(s: Seq<char>, c: char, rest: Seq<char>)
    requires
        lacks(s, c),
    ensures
        first_place(s + seq![c] + rest, c) == s.len(),
{
    let whole = s + seq![c] + rest;
    law_first_place_is_the_first(whole, c);
    assert(whole[s.len() as int] == c);
    if first_place(whole, c) < s.len() {
        assert(whole[first_place(whole, c) as int] == s[first_place(whole, c) as int]);
    }
}

/// A line with a key, an equals sign and a value gives the key that value, whatever white
/// space lies around them. The value may hold further equals signs.
pub proof fn law_line_sets_its_key(
    settings: Settings,
    before: Seq<char>,
    key: Seq<char>,
    left: Seq<char>,
    right: Seq<char>,
    value: Seq<char>,
    after: Seq<char>,
    place: Seq<char>,
)
    requires
        all_white(before) && all_white(left) && all_white(right) && all_white(after),
        key.len() > 0 && tight(key) && lacks(key, '=') && lacks(key, '#'),
        value.len() > 0 && tight(value) && lacks(value, '#'),
    ensures
        line_set(settings, before + key + left + seq!['='] + right + value + after, place)
            == value_set(settings, key, unquoted(value), place),
{
    let line = before + key + left + seq!['='] + right + value + after;
    let body = key + left + seq!['='] + right + value;
    assert(line =~= before + body + after);
    assert forall|i: int| 0 <= i < line.len() implies #[trigger] line[i] != '#' by {
        let a = before.len() as int;
        let b = a + key.len();
        let c = b + left.len();
        let d = c + 1 + right.len();
        let e = d + value.len();
        if i < a {
            assert(line[i] == before[i] && is_white(before[i]));
        } else if i < b {
            assert(line[i] == key[i - a]);
        } else if i < c {
            assert(line[i] == left[i - b] && is_white(left[i - b]));
        } else if i > c && i < d {
            assert(line[i] == right[i - c - 1] && is_white(right[i - c - 1]));
        } else if i >= d && i < e {
            assert(line[i] == value[i - d]);
        } else if i >= e {
            assert(line[i] == after[i - e] && is_white(after[i - e]));
        }
    }
    lemma_lacks(line, '#');
    assert(line.take(line.len() as int) =~= line);
    assert(body[0] == key[0]);
    assert(body[body.len() - 1] == value[value.len() - 1]);
    law_trimming_leaves_the_inside(before, body, after);
    let head = key + left;
    assert forall|i: int| 0 <= i < head.len() implies #[trigger] head[i] != '=' by {
        if i < key.len() {
            assert(head[i] == key[i]);
        } else {
            assert(head[i] == left[i - key.len()] && is_white(left[i - key.len()]));
        }
    }
    assert(body =~= head + seq!['='] + (right + value));
    lemma_place_behind(head, '=', right + value);
    let empty = Seq::<char>::empty();
    assert(body.take(head.len() as int) =~= empty + key + left);
    assert(body.skip(head.len() as int + 1) =~= right + value + empty);
    law_trimming_leaves_the_inside(empty, key, left);
    law_trimming_leaves_the_inside(right, value, empty);
}

/// A line with a key and an equals sign and no more gives the key an empty value.
pub proof fn law_line_may_have_no_value(
    settings: Settings,
    before: Seq<char>,
    key: Seq<char>,
    left: Seq<char>,
    after: Seq<char>,
    place: Seq<char>,
)
    requires
        all_white(before) && all_white(left) && all_white(after),
        key.len() > 0 && tight(key) && lacks(key, '=') && lacks(key, '#'),
    ensures
        line_set(settings, before + key + left + seq!['='] + after, place) == value_set(
            settings,
            key,
            Seq::empty(),
            place,
        ),
{
    let line = before + key + left + seq!['='] + after;
    let body = key + left + seq!['='];
    assert(line =~= before + body + after);
    assert forall|i: int| 0 <= i < line.len() implies #[trigger] line[i] != '#' by {
        let a = before.len() as int;
        let b = a + key.len();
        let c = b + left.len();
        if i < a {
            assert(line[i] == before[i] && is_white(before[i]));
        } else if i < b {
            assert(line[i] == key[i - a]);
        } else if i < c {
            assert(line[i] == left[i - b] && is_white(left[i - b]));
        } else if i > c {
            assert(line[i] == after[i - c - 1] && is_white(after[i - c - 1]));
        }
    }
    lemma_lacks(line, '#');
    assert(line.take(line.len() as int) =~= line);
    assert(body[0] == key[0]);
    assert(body[body.len() - 1] == '=');
    law_trimming_leaves_the_inside(before, body, after);
    let head = key + left;
    let empty = Seq::<char>::empty();
    assert forall|i: int| 0 <= i < head.len() implies #[trigger] head[i] != '=' by {
        if i < key.len() {
            assert(head[i] == key[i]);
        } else {
            assert(head[i] == left[i - key.len()] && is_white(left[i - key.len()]));
        }
    }
    assert(body =~= head + seq!['='] + empty);
    lemma_place_behind(head, '=', empty);
    assert(body.take(head.len() as int) =~= empty + key + left);
    assert(body.skip(head.len() as int + 1) =~= empty + empty + empty);
    law_trimming_leaves_the_inside(empty, key, left);
    law_trimming_leaves_the_inside(empty, empty, empty);
    assert(unquoted(empty) == empty);
}

/// A line that says something without an equals sign is a mistake; one of white space is
/// none.
pub proof fn law_line_needs_an_equals_sign(
    settings: Settings,
    before: Seq<char>,
    body: Seq<char>,
    after: Seq<char>,
    place: Seq<char>,
)
    requires
        all_white(before) && all_white(after),
        tight(body) && lacks(body, '=') && lacks(body, '#'),
    ensures
        body.len() > 0 ==> line_set(settings, before + body + after, place) == Err::<
            Settings,
            Problem<Seq<char>>,
        >(Problem::ExpectedKeyValue { place }),
        body.len() == 0 ==> line_set(settings, before + body + after, place) == Ok::<
            Settings,
            Problem<Seq<char>>,
        >(settings),
{
    let line = before + body + after;
    assert forall|i: int| 0 <= i < line.len() implies #[trigger] line[i] != '#' by {
        let a = before.len() as int;
        let b = a + body.len();
        if i < a {
            assert(line[i] == before[i] && is_white(before[i]));
        } else if i < b {
            assert(line[i] == body[i - a]);
        } else {
            assert(line[i] == after[i - b] && is_white(after[i - b]));
        }
    }
    lemma_lacks(line, '#');
    lemma_lacks(body, '=');
    assert(line.take(line.len() as int) =~= line);
    law_trimming_leaves_the_inside(before, body, after);
}

/// A file of one line sets what the line says; a mistake in it is referred to by the path
/// and the number of the line.
pub proof fn law_file_of_one_line(
    settings: Settings,
    line: Seq<char>,
    path: Seq<char>,
    number: nat,
)
    requires
        lacks(line, '\n'),
    ensures
        match line_set(settings, line, path + seq![':'] + decimal(number)) {
            Ok(next) => file_set(settings, line, path, number).settings == next && file_set(
                settings,
                line,
                path,
                number,
            ).problem is None,
            Err(problem) => file_set(settings, line, path, number).settings == settings && file_set(
                settings,
                line,
                path,
                number,
            ).problem == Some(problem),
        },
{
    reveal_strlit(":");
    lemma_lacks(line, '\n');
    assert(line.take(line.len() as int) =~= line);
    assert(":"@ =~= seq![':']);
}

/// One hash sign in front of a colour comes off, and nothing else does.
pub proof fn law_one_hash_sign_comes_off(s: Seq<char>)
    ensures
        without_hash(seq!['#'] + s) == s,
        s.len() == 0 || s[0] != '#' ==> without_hash(s) == s,
{
    assert((seq!['#'] + s).skip(1) =~= s);
}

/// A line without a key in front of its equals sign is refused, whatever its value.
pub proof fn law_line_needs_a_key(
    settings: Settings,
    before: Seq<char>,
    value: Seq<char>,
    place: Seq<char>,
)
    requires
        all_white(before),
        lacks(value, '#'),
    ensures
        line_set(settings, before + seq!['='] + value, place) == Err::<
            Settings,
            Problem<Seq<char>>,
        >(Problem::UnknownKey { place, key: Seq::empty() }),
{
    let line = before + seq!['='] + value;
    let empty = Seq::<char>::empty();
    assert forall|i: int| 0 <= i < line.len() implies #[trigger] line[i] != '#' by {
        if i < before.len() {
            assert(line[i] == before[i] && is_white(before[i]));
        } else if i > before.len() {
            assert(line[i] == value[i - before.len() - 1]);
        }
    }
    lemma_lacks(line, '#');
    assert(line.take(line.len() as int) =~= line);
    let rest = seq!['='] + value;
    assert(line =~= before + rest);
    lemma_trimmed_start(before, rest);
    assert(rest[0] == '=');
    lemma_trimmed_end_keeps_first(rest);
    let body = line_body(line);
    assert(body[0] == '=');
    assert(body.take(0) =~= empty + empty + empty);
    law_trimming_leaves_the_inside(empty, empty, empty);
    lemma_key_names();
}

/// A first character that is not white space stays when the end is trimmed.
proof fn lemma_trimmed_end_keeps_first(s: Seq<char>)
    requires
        s.len() > 0,
        !is_white(s[0]),
    ensures
        trimmed_end(s).len() > 0,
        trimmed_end(s)[0] == s[0],
    decreases s.len(),
{
    if is_white(s.last()) {
        lemma_trimmed_end_keeps_first(s.drop_last());
    }
}

} // verus!
