//! What the countdown and the clock say.
use vstd::prelude::*;

#[allow(unused_imports)]
use crate::config_laws::law_number_reads_back;
#[allow(unused_imports)]
use crate::number::{number_value, NumberError};
#[allow(unused_imports)]
use crate::session::{clock_text, countdown_text, duration_text, two_places};
#[allow(unused_imports)]
use crate::text::{decimal, two_digits};
#[allow(unused_imports)]
use crate::text_laws::{
    law_decimal_has_no_leading_zero, law_digit_is_a_number, law_number_is_read_digit_by_digit,
    law_two_places_are_filled,
};

verus! {

/// A number reads back from its two places.
proof fn lemma_two_digits_read_back(n: nat, max: int)
    requires
        n <= max,
        max >= 9,
    ensures
        number_value(two_digits(n), 10, max) == Ok::<int, NumberError>(n as int),
{
    if n < 10 {
        assert('0' as u32 == 0x30);
        law_digit_is_a_number('0', 0, 10, max);
        let digit = two_digits(n)[1];
        assert(digit as u32 == n + 0x30);
        law_number_is_read_digit_by_digit(seq!['0'], digit, n as int, 10, max);
        assert(seq!['0'].push(digit) =~= two_digits(n));
    } else {
        law_number_reads_back(n, max);
    }
}

/// A length of time reads back: minutes of at least two places, a colon, and seconds of
/// two places that are fewer than sixty.
pub proof fn law_duration_reads_back(seconds: nat, max: int)
    requires
        seconds <= max,
        max >= 59,
    ensures
        ({
            let text = duration_text(seconds);
            let colon = text.len() - 3;
            &&& colon >= 2
            &&& text[colon] == ':'
            &&& number_value(text.take(colon), 10, max) matches Ok(minutes) && number_value(
                text.skip(colon + 1),
                10,
                max,
            ) matches Ok(rest) && 0 <= rest < 60 && 60 * minutes + rest == seconds
            &&& colon > 2 ==> text[0] != '0'
        }),
{
    reveal_strlit(":");
    let text = duration_text(seconds);
    let minutes = two_digits(seconds / 60);
    let rest = two_digits(seconds % 60);
    law_two_places_are_filled(seconds / 60);
    law_two_places_are_filled(seconds % 60);
    lemma_two_digits_read_back(seconds / 60, max);
    lemma_two_digits_read_back(seconds % 60, max);
    let colon = text.len() - 3;
    assert(text.take(colon) =~= minutes);
    assert(text.skip(colon + 1) =~= rest);
    assert(text[0] == minutes[0]);
    if colon > 2 {
        assert(seconds / 60 >= 100);
    }
}

/// The countdown is a length of time behind its label.
pub proof fn law_countdown_has_its_label(seconds: nat)
    ensures
        countdown_text(seconds) == seq!['O', 'F', 'F', ' ', 'I', 'N', ' '] + duration_text(seconds),
{
    reveal_strlit("OFF IN ");
    assert("OFF IN "@ =~= seq!['O', 'F', 'F', ' ', 'I', 'N', ' ']);
}

/// A time of day reads back: hours, minutes and seconds of two places, with colons
/// between them.
pub proof fn law_clock_reads_back(hour: int, minute: int, second: int, max: int)
    requires
        0 <= hour < 100,
        0 <= minute < 100,
        0 <= second < 100,
        max >= 99,
    ensures
        ({
            let text = clock_text(hour, minute, second);
            &&& text.len() == 8
            &&& text[2] == ':' && text[5] == ':'
            &&& number_value(text.subrange(0, 2), 10, max) == Ok::<int, NumberError>(hour)
            &&& number_value(text.subrange(3, 5), 10, max) == Ok::<int, NumberError>(minute)
            &&& number_value(text.subrange(6, 8), 10, max) == Ok::<int, NumberError>(second)
        }),
{
    reveal_strlit(":");
    law_two_places_are_filled(hour as nat);
    law_two_places_are_filled(minute as nat);
    law_two_places_are_filled(second as nat);
    lemma_two_digits_read_back(hour as nat, max);
    lemma_two_digits_read_back(minute as nat, max);
    lemma_two_digits_read_back(second as nat, max);
    let text = clock_text(hour, minute, second);
    assert(text.subrange(0, 2) =~= two_digits(hour as nat));
    assert(text.subrange(3, 5) =~= two_digits(minute as nat));
    assert(text.subrange(6, 8) =~= two_digits(second as nat));
}

/// A number below zero has a sign in front of its digits.
pub proof fn law_negative_numbers_have_a_sign(n: nat)
    requires
        n > 0,
    ensures
        two_places(-(n as int)) == seq!['-'] + decimal(n),
        two_places(n as int) == two_digits(n),
{
    reveal_strlit("-");
    assert("-"@ =~= seq!['-']);
}

/// Hours, minutes and seconds are written in this order, with colons between them.
pub proof fn law_clock_has_its_order(hour: int, minute: int, second: int)
    ensures
        ({
            let text = clock_text(hour, minute, second);
            let first = two_places(hour).len() as int;
            let second_colon = first + 1 + two_places(minute).len();
            &&& text.take(first) == two_places(hour)
            &&& text[first] == ':' && text[second_colon] == ':'
            &&& text.subrange(first + 1, second_colon) == two_places(minute)
            &&& text.skip(second_colon + 1) == two_places(second)
        }),
{
    reveal_strlit(":");
    let text = clock_text(hour, minute, second);
    let first = two_places(hour).len() as int;
    let second_colon = first + 1 + two_places(minute).len();
    assert(text.take(first) =~= two_places(hour));
    assert(text.subrange(first + 1, second_colon) =~= two_places(minute));
    assert(text.skip(second_colon + 1) =~= two_places(second));
}

} // verus!
