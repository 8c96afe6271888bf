//! What holds of trimming, of words and of numbers in text.
use vstd::prelude::*;

#[allow(unused_imports)]
use crate::number::{digit_value, digits_value, lemma_error_stays, number_value, NumberError};
#[allow(unused_imports)]
use crate::text::{
    decimal, decimal_digit, first_place, is_white, texts, trimmed, trimmed_end, trimmed_start,
    two_digits, words,
};

verus! {

/// Whether a text is nothing but white space.
pub open spec fn all_white(s: Seq<char>) -> bool {
    forall|i: int| 0 <= i < s.len() ==> is_white(#[trigger] s[i])
}

/// Whether a text holds no white space.
pub open spec fn solid(s: Seq<char>) -> bool {
    forall|i: int| 0 <= i < s.len() ==> !is_white(#[trigger] s[i])
}

/// Whether a text neither begins nor ends with white space.
pub open spec fn tight(s: Seq<char>) -> bool {
    s.len() > 0 ==> !is_white(s[0]) && !is_white(s[s.len() - 1])
}

/// White space in front is trimmed.
pub(crate) proof fn lemma_trimmed_start(before: Seq<char>, s: Seq<char>)
    requires
        all_white(before),
    ensures
        trimmed_start(before + s) == trimmed_start(s),
    decreases before.len(),
{
    if before.len() == 0 {
        assert(before + s =~= s);
    } else {
        let shorter = before.skip(1);
        assert forall|i: int| 0 <= i < shorter.len() implies is_white(#[trigger] shorter[i]) by {
            assert(shorter[i] == before[i + 1]);
        }
        assert((before + s)[0] == before[0]);
        assert((before + s).skip(1) =~= shorter + s);
        lemma_trimmed_start(shorter, s);
    }
}

/// White space at the end is trimmed.
proof fn lemma_trimmed_end(s: Seq<char>, after: Seq<char>)
    requires
        all_white(after),
    ensures
        trimmed_end(s + after) == trimmed_end(s),
    decreases after.len(),
{
    if after.len() == 0 {
        assert(s + after =~= s);
    } else {
        let shorter = after.drop_last();
        assert forall|i: int| 0 <= i < shorter.len() implies is_white(#[trigger] shorter[i]) by {
            assert(shorter[i] == after[i]);
        }
        assert((s + after).last() == after[after.len() - 1]);
        assert((s + after).drop_last() =~= s + shorter);
        lemma_trimmed_end(s, shorter);
    }
}

/// Trimming takes the white space from both ends, and nothing else.
pub proof fn law_trimming_leaves_the_inside(before: Seq<char>, inside: Seq<char>, after: Seq<char>)
    requires
        all_white(before),
        all_white(after),
        tight(inside),
    ensures
        trimmed(before + inside + after) == inside,
{
    assert(before + inside + after =~= before + (inside + after));
    lemma_trimmed_start(before, inside + after);
    if inside.len() == 0 {
        assert(inside + after =~= after + inside);
        lemma_trimmed_start(after, inside);
        assert(trimmed(before + inside + after) =~= inside);
    } else {
        assert((inside + after)[0] == inside[0]);
        lemma_trimmed_end(inside, after);
    }
}

/// A text without white space is one word.
pub proof fn law_solid_text_is_one_word(s: Seq<char>)
    requires
        s.len() > 0,
        solid(s),
    ensures
        words(s) == seq![s],
    decreases s.len(),
{
    let before = s.drop_last();
    assert(!is_white(s[s.len() - 1]));
    if before.len() == 0 {
        assert(words(before) =~= Seq::<Seq<char>>::empty());
        assert(seq![s.last()] =~= s);
        assert(words(s) =~= seq![s]);
    } else {
        assert forall|i: int| 0 <= i < before.len() implies !is_white(#[trigger] before[i]) by {
            assert(before[i] == s[i]);
        }
        assert(!is_white(before[before.len() - 1]));
        law_solid_text_is_one_word(before);
        assert(before.push(s.last()) =~= s);
        assert(words(s) =~= seq![s]);
    }
}

/// A text that does not end with white space has a word.
proof fn lemma_last_word(s: Seq<char>)
    requires
        s.len() > 0,
        !is_white(s.last()),
    ensures
        words(s).len() > 0,
{
}

/// White space parts words: those of the text before it come first, then those of the text
/// behind it.
pub proof fn law_white_space_parts_words(first: Seq<char>, white: char, second: Seq<char>)
    requires
        is_white(white),
    ensures
        words(first + seq![white] + second) == words(first) + words(second),
        words(Seq::empty()).len() == 0,
    decreases second.len(),
{
    let s = first + seq![white] + second;
    if second.len() == 0 {
        assert(s.drop_last() =~= first);
        assert(s.last() == white);
        assert(words(second) =~= Seq::<Seq<char>>::empty());
        assert(words(first) + words(second) =~= words(first));
    } else {
        let shorter = second.drop_last();
        let before = s.drop_last();
        law_white_space_parts_words(first, white, shorter);
        assert(before =~= first + seq![white] + shorter);
        assert(s.last() == second.last());
        if is_white(second.last()) {
        } else if shorter.len() == 0 {
            assert(before.last() == white);
            assert(words(shorter) =~= Seq::<Seq<char>>::empty());
            assert(words(s) =~= words(first) + words(second));
        } else {
            assert(before.last() == shorter.last());
            if is_white(shorter.last()) {
                assert(words(s) =~= words(first) + words(second));
            } else {
                lemma_last_word(shorter);
                assert(words(before).last() == words(shorter).last());
                assert(words(before).drop_last() =~= words(first) + words(shorter).drop_last());
                assert(words(s) =~= words(first) + words(second));
            }
        }
    }
}

/// The place that is found is the first of the character, or the end.
pub proof fn law_first_place_is_the_first(s: Seq<char>, c: char)
    ensures
        first_place(s, c) <= s.len(),
        first_place(s, c) < s.len() ==> s[first_place(s, c) as int] == c,
        forall|i: int| 0 <= i < first_place(s, c) ==> #[trigger] s[i] != c,
    decreases s.len(),
{
    if s.len() > 0 && s[0] != c {
        let rest = s.skip(1);
        law_first_place_is_the_first(rest, c);
        assert forall|i: int| 0 <= i < first_place(s, c) implies #[trigger] s[i] != c by {
            if i > 0 {
                assert(rest[i - 1] == s[i]);
            }
        }
    }
}

/// Whether a character is the digit for `d`: a decimal one, or a letter of either case
/// behind `9`.
pub open spec fn is_digit_for(c: char, d: int) -> bool {
    let code = c as u32 as int;
    ||| 0 <= d < 10 && code == 0x30 + d
    ||| 10 <= d < 36 && (code == 0x41 + d - 10 || code == 0x61 + d - 10)
}

/// A digit has its value, and what is no digit has none.
proof fn lemma_digit(c: char, d: int, radix: int)
    requires
        2 <= radix <= 36,
    ensures
        is_digit_for(c, d) && d < radix ==> digit_value(c, radix) == Some(d),
        (forall|e: int| #[trigger] is_digit_for(c, e) ==> e >= radix) ==> digit_value(c, radix)
            is None,
{
    if digit_value(c, radix) is Some {
        assert(is_digit_for(c, digit_value(c, radix)->0));
    }
}

/// A digit more makes a number as many times as large as there are digits and adds its
/// value, as long as the number is not too large.
pub proof fn law_number_is_read_digit_by_digit(s: Seq<char>, c: char, d: int, radix: int, max: int)
    requires
        2 <= radix <= 36,
        number_value(s, radix, max) is Ok,
        is_digit_for(c, d),
        d < radix,
    ensures
        ({
            let next = radix * number_value(s, radix, max)->Ok_0 + d;
            &&& next <= max ==> number_value(s.push(c), radix, max) == Ok::<int, NumberError>(next)
            &&& next > max ==> number_value(s.push(c), radix, max) == Err::<int, NumberError>(
                NumberError::TooLarge,
            )
        }),
{
    lemma_digit(c, d, radix);
    let value = number_value(s, radix, max)->Ok_0;
    assert(radix * value == value * radix) by (nonlinear_arith);
    assert(s.push(c).drop_last() =~= s);
    if s[0] == '+' {
        assert(s.push(c).skip(1).drop_last() =~= s.skip(1));
    }
}

/// A single digit is a number, after a plus sign or not.
pub proof fn law_digit_is_a_number(c: char, d: int, radix: int, max: int)
    requires
        2 <= radix <= 36,
        is_digit_for(c, d),
        d < radix,
        max >= d,
    ensures
        number_value(seq![c], radix, max) == Ok::<int, NumberError>(d),
        number_value(seq!['+', c], radix, max) == Ok::<int, NumberError>(d),
{
    lemma_digit(c, d, radix);
    let empty = Seq::<char>::empty();
    assert(seq![c].drop_last() =~= empty);
    assert(seq!['+', c].skip(1) =~= seq![c]);
    assert(digits_value(empty, radix, max) == Ok::<int, NumberError>(0));
    assert(0 * radix == 0) by (nonlinear_arith);
    assert(digits_value(seq![c], radix, max) == Ok::<int, NumberError>(d));
}

/// Nothing is no number, nor is a sign alone.
pub proof fn law_number_needs_a_digit(radix: int, max: int)
    ensures
        number_value(Seq::empty(), radix, max) == Err::<int, NumberError>(NumberError::Empty),
        number_value(seq!['+'], radix, max) == Err::<int, NumberError>(NumberError::InvalidDigit),
{
}

/// A plus sign in front makes no difference.
pub proof fn law_plus_sign_makes_no_difference(s: Seq<char>, radix: int, max: int)
    requires
        s.len() > 0,
        s[0] != '+',
    ensures
        number_value(seq!['+'] + s, radix, max) == number_value(s, radix, max),
{
    assert((seq!['+'] + s).skip(1) =~= s);
}

/// What comes first from the left decides: behind digits that make up a number, a
/// character that is no digit makes the text no number, and a digit too many makes the
/// number too large, whatever follows.
pub proof fn law_first_mistake_decides(
    s: Seq<char>,
    c: char,
    rest: Seq<char>,
    radix: int,
    max: int,
)
    requires
        2 <= radix <= 36,
        number_value(s, radix, max) is Ok,
    ensures
        (forall|e: int| #[trigger] is_digit_for(c, e) ==> e >= radix) ==> number_value(
            s + seq![c] + rest,
            radix,
            max,
        ) == Err::<int, NumberError>(NumberError::InvalidDigit),
        forall|d: int|
            #[trigger] is_digit_for(c, d) && d < radix && radix * number_value(s, radix, max)->Ok_0
                + d > max ==> number_value(s + seq![c] + rest, radix, max) == Err::<
                int,
                NumberError,
            >(NumberError::TooLarge),
{
    let whole = s + seq![c] + rest;
    let digits = if s[0] == '+' {
        s.skip(1)
    } else {
        s
    };
    let tail = if s[0] == '+' {
        whole.skip(1)
    } else {
        whole
    };
    let count = digits.len() as int;
    assert(whole[0] == s[0]);
    assert(tail =~= digits + seq![c] + rest);
    assert(tail.take(count + 1).drop_last() =~= digits);
    assert(tail.take(count + 1).last() == c);
    let value = number_value(s, radix, max)->Ok_0;
    assert(radix * value == value * radix) by (nonlinear_arith);
    lemma_digit(c, 0, radix);
    assert forall|d: int| #[trigger] is_digit_for(c, d) && d < radix implies digit_value(c, radix)
        == Some(d) by {
        lemma_digit(c, d, radix);
    }
    if digits_value(tail.take(count + 1), radix, max) is Err {
        lemma_error_stays(tail, count + 1, radix, max);
    }
}

/// A text that begins with neither a digit nor a sign is no number.
pub proof fn law_number_begins_with_a_digit(c: char, rest: Seq<char>, radix: int, max: int)
    requires
        2 <= radix <= 36,
        forall|e: int| #[trigger] is_digit_for(c, e) ==> e >= radix,
        c != '+',
    ensures
        number_value(seq![c] + rest, radix, max) == Err::<int, NumberError>(
            NumberError::InvalidDigit,
        ),
        number_value(seq!['+', c] + rest, radix, max) == Err::<int, NumberError>(
            NumberError::InvalidDigit,
        ),
{
    let tail = seq![c] + rest;
    let empty = Seq::<char>::empty();
    lemma_digit(c, 0, radix);
    assert((seq!['+', c] + rest).skip(1) =~= tail);
    assert(tail.take(1).drop_last() =~= empty);
    assert(tail.take(1).last() == c);
    assert(digits_value(empty, radix, max) == Ok::<int, NumberError>(0));
    assert(digits_value(tail.take(1), radix, max) == Err::<int, NumberError>(
        NumberError::InvalidDigit,
    ));
    lemma_error_stays(tail, 1, radix, max);
}

/// A number is written without leading zeros.
pub proof fn law_decimal_has_no_leading_zero(n: nat)
    ensures
        decimal(n).len() > 0,
        decimal(n)[0] == '0' ==> n == 0,
        decimal(n).len() == 1 <==> n < 10,
        decimal(n).len() == 2 <==> 10 <= n < 100,
    decreases n,
{
    if n >= 10 {
        law_decimal_has_no_leading_zero(n / 10);
        assert(decimal(n)[0] == decimal(n / 10)[0]);
    } else {
        let digit = decimal_digit(n as int);
        assert(digit as u32 == n + 0x30);
    }
}

/// With two places a number takes at least two, and a zero stands in front only of one
/// that has a single digit.
pub proof fn law_two_places_are_filled(n: nat)
    ensures
        two_digits(n).len() >= 2,
        n < 100 ==> two_digits(n).len() == 2,
        two_digits(n)[0] == '0' <==> n < 10,
        n < 10 ==> two_digits(n) == seq!['0'] + decimal(n),
        n >= 10 ==> two_digits(n) == decimal(n),
{
    law_decimal_has_no_leading_zero(n);
    if n < 10 {
        assert(two_digits(n) =~= seq!['0'] + decimal(n));
    }
}

/// The texts of a list of strings are those of its strings, one for one.
pub proof fn law_texts_are_those_of_the_strings(strings: Seq<String>)
    ensures
        texts(strings).len() == strings.len(),
        forall|i: int| 0 <= i < strings.len() ==> #[trigger] texts(strings)[i] == strings[i]@,
{
}

} // verus!
