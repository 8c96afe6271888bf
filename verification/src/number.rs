//! Reading unsigned numbers.
use vstd::prelude::*;

use crate::text::characters;

verus! {

/// Why a text is not a number.
#[derive(Clone, Copy, PartialEq, Eq, Debug, Structural)]
pub enum NumberError {
    /// There is nothing to read.
    Empty,
    /// A character is not a digit.
    InvalidDigit,
    /// The number is too large.
    TooLarge,
}

impl NumberError {
    /// The error in words.
    pub open spec fn text(self) -> Seq<char> {
        match self {
            NumberError::Empty => "cannot parse integer from empty string"@,
            NumberError::InvalidDigit => "invalid digit found in string"@,
            NumberError::TooLarge => "number too large to fit in target type"@,
        }
    }

    /// The error in words.
    pub fn message(self) -> (message: &'static str)
        ensures
            message@ == self.text(),
    {
        match self {
            NumberError::Empty => "cannot parse integer from empty string",
            NumberError::InvalidDigit => "invalid digit found in string",
            NumberError::TooLarge => "number too large to fit in target type",
        }
    }
}

/// The value of a digit; letters of either case follow after `9`.
pub open spec fn digit_value(c: char, radix: int) -> Option<int> {
    let code = c as u32 as int;
    let value = if 0x30 <= code <= 0x39 {
        code - 0x30
    } else if 0x41 <= code <= 0x5A {
        code - 0x41 + 10
    } else if 0x61 <= code <= 0x7A {
        code - 0x61 + 10
    } else {
        radix
    };
    if value < radix {
        Some(value)
    } else {
        None
    }
}

/// The value of a row of digits, or the first thing that is wrong, from left to right.
pub open spec fn digits_value(s: Seq<char>, radix: int, max: int) -> Result<int, NumberError>
    decreases s.len(),
{
    if s.len() == 0 {
        Ok(0)
    } else {
        match digits_value(s.drop_last(), radix, max) {
            Err(error) => Err(error),
            Ok(high) => match digit_value(s.last(), radix) {
                None => Err(NumberError::InvalidDigit),
                Some(low) => if high * radix + low > max {
                    Err(NumberError::TooLarge)
                } else {
                    Ok(high * radix + low)
                },
            },
        }
    }
}

/// The number that a text says: digits, after a plus sign or not.
pub open spec fn number_value(s: Seq<char>, radix: int, max: int) -> Result<int, NumberError> {
    if s.len() == 0 {
        Err(NumberError::Empty)
    } else if s[0] == '+' {
        if s.len() == 1 {
            Err(NumberError::InvalidDigit)
        } else {
            digits_value(s.skip(1), radix, max)
        }
    } else {
        digits_value(s, radix, max)
    }
}

/// The value of a digit.
fn digit(c: char, radix: u64) -> (value: Option<u64>)
    requires
        radix <= 36,
    ensures
        value is Some <==> digit_value(c, radix as int) is Some,
        value matches Some(v) ==> v < radix && digit_value(c, radix as int) == Some(v as int),
{
    let code: u32 = c as u32;
    let value: u64 = if 0x30 <= code && code <= 0x39 {
        (code - 0x30) as u64
    } else if 0x41 <= code && code <= 0x5A {
        (code - 0x41 + 10) as u64
    } else if 0x61 <= code && code <= 0x7A {
        (code - 0x61 + 10) as u64
    } else {
        radix
    };
    if value < radix {
        Some(value)
    } else {
        None
    }
}

/// Whether two results say the same.
pub open spec fn same_number(
    result: Result<u64, NumberError>,
    value: Result<int, NumberError>,
) -> bool {
    match result {
        Ok(n) => value == Ok::<int, NumberError>(n as int),
        Err(error) => value == Err::<int, NumberError>(error),
    }
}

/// An error in the first digits is an error of the whole.
pub(crate) proof fn lemma_error_stays(s: Seq<char>, i: int, radix: int, max: int)
    requires
        0 <= i <= s.len(),
        digits_value(s.take(i), radix, max) is Err,
    ensures
        digits_value(s, radix, max) == digits_value(s.take(i), radix, max),
    decreases s.len() - i,
{
    if i < s.len() {
        assert(s.take(i + 1).drop_last() =~= s.take(i));
        lemma_error_stays(s, i + 1, radix, max);
    } else {
        assert(s.take(i) =~= s);
    }
}

/// Reads a row of digits that says a number of at most `max`.
pub fn parse_digits(digits: &[char], radix: u64, max: u64) -> (number: Result<u64, NumberError>)
    requires
        2 <= radix <= 36,
    ensures
        same_number(number, digits_value(digits@, radix as int, max as int)),
        number matches Ok(n) ==> n <= max,
{
    assert(digits@.take(0) =~= Seq::<char>::empty());
    let mut value: u64 = 0;
    let mut i: usize = 0;
    while i < digits.len()
        invariant
            i <= digits@.len(),
            2 <= radix <= 36,
            value <= max,
            digits_value(digits@.take(i as int), radix as int, max as int) == Ok::<
                int,
                NumberError,
            >(value as int),
        decreases digits@.len() - i,
    {
        let ghost read = digits@.take(i + 1);
        proof {
            assert(read.drop_last() =~= digits@.take(i as int));
            assert(read.last() == digits@[i as int]);
            assert(value * radix <= 0xFFFF_FFFF_FFFF_FFFF * 36) by (nonlinear_arith)
                requires
                    value <= 0xFFFF_FFFF_FFFF_FFFF,
                    radix <= 36,
            ;
        }
        match digit(digits[i], radix) {
            None => {
                proof {
                    lemma_error_stays(digits@, i + 1, radix as int, max as int);
                }
                return Err(NumberError::InvalidDigit);
            },
            Some(low) => {
                let next: u128 = value as u128 * radix as u128 + low as u128;
                if next > max as u128 {
                    proof {
                        lemma_error_stays(digits@, i + 1, radix as int, max as int);
                    }
                    return Err(NumberError::TooLarge);
                }
                value = next as u64;
            },
        }
        i = i + 1;
    }
    assert(digits@.take(digits@.len() as int) =~= digits@);
    Ok(value)
}

/// Reads a number of at most `max`.
pub fn parse_number(text: &str, radix: u64, max: u64) -> (number: Result<u64, NumberError>)
    requires
        2 <= radix <= 36,
    ensures
        same_number(number, number_value(text@, radix as int, max as int)),
        number matches Ok(n) ==> n <= max,
{
    let chars = characters(text);
    if chars.len() == 0 {
        return Err(NumberError::Empty);
    }
    if chars[0] == '+' {
        if chars.len() == 1 {
            return Err(NumberError::InvalidDigit);
        }
        let digits: &[char] = vstd::slice::slice_subrange(chars.as_slice(), 1, chars.len());
        assert(digits@ =~= text@.skip(1));
        parse_digits(digits, radix, max)
    } else {
        parse_digits(chars.as_slice(), radix, max)
    }
}

} // verus!
