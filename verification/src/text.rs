//! Characters, words and numbers in text.
use vstd::prelude::*;

verus! {

/// `String::push` of the standard library: appends one character to the end.
pub assume_specification[ String::push ](s: &mut String, ch: char)
    ensures
        final(s)@ == old(s)@.push(ch),
;

/// The characters of a text, one after the other.
pub fn characters(text: &str) -> (chars: Vec<char>)
    ensures
        chars@ == text@,
{
    let mut chars: Vec<char> = Vec::new();
    for c in it: text.chars()
        invariant
            chars@ == text@.take(it.index()),
            it.seq() == text@,
    {
        chars.push(c);
        assert(text@.take(it.index() + 1) =~= text@.take(it.index()).push(c));
    }
    assert(text@.take(text@.len() as int) =~= text@);
    chars
}

/// Whether the two texts hold the same characters.
pub fn same_text(a: &str, b: &str) -> (same: bool)
    ensures
        same == (a@ == b@),
{
    let xs = characters(a);
    let ys = characters(b);
    if xs.len() != ys.len() {
        return false;
    }
    let mut i: usize = 0;
    while i < xs.len()
        invariant
            i <= xs.len(),
            xs@ == a@,
            ys@ == b@,
            xs.len() == ys.len(),
            forall|j: int| 0 <= j < i ==> xs[j] == ys[j],
        decreases xs.len() - i,
    {
        if xs[i] != ys[i] {
            return false;
        }
        i = i + 1;
    }
    assert(a@ =~= b@);
    true
}

/// Characters put together to a text.
pub fn to_text(chars: &[char]) -> (text: String)
    ensures
        text@ == chars@,
{
    let mut text = String::new();
    let mut i: usize = 0;
    while i < chars.len()
        invariant
            i <= chars@.len(),
            text@ == chars@.take(i as int),
        decreases chars@.len() - i,
    {
        text.push(chars[i]);
        assert(chars@.take(i + 1) =~= chars@.take(i as int).push(chars@[i as int]));
        i = i + 1;
    }
    assert(chars@.take(chars@.len() as int) =~= chars@);
    text
}

/// The texts that a list of strings holds.
pub open spec fn texts(strings: Seq<String>) -> Seq<Seq<char>> {
    Seq::new(strings.len(), |i: int| strings[i]@)
}

/// Whether a character is white space: whether it has Unicode's property `White_Space`.
pub open spec fn is_white(c: char) -> bool {
    let code = c as u32;
    ||| 0x09 <= code <= 0x0D
    ||| code == 0x20
    ||| code == 0x85
    ||| code == 0xA0
    ||| code == 0x1680
    ||| 0x2000 <= code <= 0x200A
    ||| code == 0x2028
    ||| code == 0x2029
    ||| code == 0x202F
    ||| code == 0x205F
    ||| code == 0x3000
}

/// Whether a character is white space.
pub fn white(c: char) -> (yes: bool)
    ensures
        yes == is_white(c),
{
    let code: u32 = c as u32;
    (0x09 <= code && code <= 0x0D) || code == 0x20 || code == 0x85 || code == 0xA0 || code == 0x1680
        || (0x2000 <= code && code <= 0x200A) || code == 0x2028 || code == 0x2029 || code == 0x202F
        || code == 0x205F || code == 0x3000
}

/// Whether a character is a control code: whether it is of Unicode's category `Cc`.
pub open spec fn is_control_code(c: char) -> bool {
    let code = c as u32;
    code <= 0x1F || 0x7F <= code <= 0x9F
}

/// Whether a character is a control code.
pub fn control_code(c: char) -> (yes: bool)
    ensures
        yes == is_control_code(c),
{
    let code: u32 = c as u32;
    code <= 0x1F || (0x7F <= code && code <= 0x9F)
}

/// A text without the white space at its beginning.
pub open spec fn trimmed_start(s: Seq<char>) -> Seq<char>
    decreases s.len(),
{
    if s.len() > 0 && is_white(s[0]) {
        trimmed_start(s.skip(1))
    } else {
        s
    }
}

/// A text without the white space at its end.
pub open spec fn trimmed_end(s: Seq<char>) -> Seq<char>
    decreases s.len(),
{
    if s.len() > 0 && is_white(s.last()) {
        trimmed_end(s.drop_last())
    } else {
        s
    }
}

/// A text without the white space at both ends.
pub open spec fn trimmed(s: Seq<char>) -> Seq<char> {
    trimmed_end(trimmed_start(s))
}

/// Takes the white space from both ends.
pub fn trim(chars: &[char]) -> (inner: &[char])
    ensures
        inner@ == trimmed(chars@),
{
    let mut start: usize = 0;
    assert(chars@.skip(0) =~= chars@);
    while start < chars.len() && white(chars[start])
        invariant
            start <= chars@.len(),
            trimmed_start(chars@) == trimmed_start(chars@.skip(start as int)),
        decreases chars@.len() - start,
    {
        assert(chars@.skip(start as int).skip(1) =~= chars@.skip(start + 1));
        start = start + 1;
    }
    let mut end: usize = chars.len();
    let ghost rest = chars@.skip(start as int);
    assert(chars@.subrange(start as int, end as int) =~= rest);
    while start < end && white(chars[end - 1])
        invariant
            start <= end <= chars@.len(),
            trimmed_end(rest) == trimmed_end(chars@.subrange(start as int, end as int)),
        decreases end,
    {
        assert(chars@.subrange(start as int, end as int).drop_last() =~= chars@.subrange(
            start as int,
            end - 1,
        ));
        end = end - 1;
    }
    vstd::slice::slice_subrange(chars, start, end)
}

/// The words of a text: its longest runs of characters that are not white space.
pub open spec fn words(s: Seq<char>) -> Seq<Seq<char>>
    decreases s.len(),
{
    if s.len() == 0 {
        Seq::empty()
    } else {
        let before = s.drop_last();
        if is_white(s.last()) {
            words(before)
        } else if before.len() == 0 || is_white(before.last()) {
            words(before).push(seq![s.last()])
        } else {
            words(before).drop_last().push(words(before).last().push(s.last()))
        }
    }
}

/// Splits a text into its words.
pub fn split_words(chars: &[char]) -> (list: Vec<String>)
    ensures
        texts(list@) == words(chars@),
{
    let mut list: Vec<String> = Vec::new();
    let mut word = String::new();
    let mut in_word = false;
    let mut i: usize = 0;
    while i < chars.len()
        invariant
            i <= chars@.len(),
            in_word == (i > 0 && !is_white(chars@[i - 1])),
            !in_word ==> word@.len() == 0,
            words(chars@.take(i as int)) == if in_word {
                texts(list@).push(word@)
            } else {
                texts(list@)
            },
        decreases chars@.len() - i,
    {
        let c: char = chars[i];
        let ghost before = chars@.take(i as int);
        proof {
            assert(chars@.take(i + 1).drop_last() =~= before);
            assert(chars@.take(i + 1).last() == c);
            if i > 0 {
                assert(before.last() == chars@[i - 1]);
            }
        }
        if white(c) {
            if in_word {
                let ghost shorter = texts(list@);
                let ghost done = word@;
                list.push(word);
                word = String::new();
                assert(texts(list@) =~= shorter.push(done));
            }
            in_word = false;
        } else {
            let ghost part = word@;
            word.push(c);
            proof {
                if in_word {
                    assert(words(before).drop_last() =~= texts(list@));
                    assert(words(before).last() == part);
                } else {
                    assert(word@ =~= seq![c]);
                }
            }
            in_word = true;
        }
        i = i + 1;
    }
    assert(chars@.take(chars@.len() as int) =~= chars@);
    if in_word {
        let ghost shorter = texts(list@);
        let ghost done = word@;
        list.push(word);
        assert(texts(list@) =~= shorter.push(done));
    }
    list
}

/// The place of the first `c` in a text, or its length where there is none.
pub open spec fn first_place(s: Seq<char>, c: char) -> nat
    decreases s.len(),
{
    if s.len() == 0 || s[0] == c {
        0
    } else {
        1 + first_place(s.skip(1), c)
    }
}

/// Finds the first `c` in a text.
pub fn find(chars: &[char], c: char) -> (place: usize)
    ensures
        place == first_place(chars@, c),
        place <= chars@.len(),
        place < chars@.len() ==> chars@[place as int] == c,
        forall|j: int| 0 <= j < place ==> #[trigger] chars@[j] != c,
{
    let mut place: usize = 0;
    assert(chars@.skip(0) =~= chars@);
    while place < chars.len() && chars[place] != c
        invariant
            place <= chars@.len(),
            first_place(chars@, c) == place + first_place(chars@.skip(place as int), c),
            forall|j: int| 0 <= j < place ==> #[trigger] chars@[j] != c,
        decreases chars@.len() - place,
    {
        assert(chars@.skip(place as int).skip(1) =~= chars@.skip(place + 1));
        place = place + 1;
    }
    place
}

/// A digit of the decimal system.
pub open spec fn decimal_digit(n: int) -> char {
    (n + 0x30) as char
}

/// A number in the decimal system.
pub open spec fn decimal(n: nat) -> Seq<char>
    decreases n,
{
    if n < 10 {
        seq![decimal_digit(n as int)]
    } else {
        decimal(n / 10).push(decimal_digit((n % 10) as int))
    }
}

/// A number in the decimal system, with a leading zero if it has one digit only.
pub open spec fn two_digits(n: nat) -> Seq<char> {
    if n < 10 {
        seq!['0', decimal_digit(n as int)]
    } else {
        decimal(n)
    }
}

/// Appends a number in the decimal system.
pub fn push_decimal(text: &mut String, n: u128)
    ensures
        final(text)@ == old(text)@ + decimal(n as nat),
    decreases n,
{
    let digit: char = (48 + (n % 10) as u8) as char;
    if n < 10 {
        text.push(digit);
    } else {
        push_decimal(text, n / 10);
        text.push(digit);
    }
}

/// Appends a number in the decimal system, with a leading zero if it has one digit only.
pub fn push_two_digits(text: &mut String, n: u64)
    ensures
        final(text)@ == old(text)@ + two_digits(n as nat),
{
    if n < 10 {
        text.push('0');
    }
    push_decimal(text, n as u128);
    assert(final(text)@ =~= old(text)@ + two_digits(n as nat));
}

} // verus!
