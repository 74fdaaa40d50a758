//! Moving between strings and character vectors, and decimal numerals.

use vstd::prelude::*;

verus! {

/// Whether `c` is alphabetic, as the Unicode standard has it.
pub uninterp spec fn is_alphabetic(c: char) -> bool;

/// Whether `c` is white space, as the Unicode standard has it.
pub uninterp spec fn is_whitespace(c: char) -> bool;

/// `char::is_alphabetic` tells whether the character has the Unicode
/// property `Alphabetic`.
pub assume_specification[ char::is_alphabetic ](c: char) -> (b: bool)
    ensures
        b == is_alphabetic(c),
;

/// `char::is_whitespace` tells whether the character has the Unicode
/// property `White_Space`.
pub assume_specification[ char::is_whitespace ](c: char) -> (b: bool)
    ensures
        b == is_whitespace(c),
;

/// `String::push` appends one character to the end of the string.
pub assume_specification[ String::push ](s: &mut String, c: char)
    ensures
        final(s)@ == old(s)@.push(c),
;

/// The views of the strings in `strings`.
pub open spec fn string_views(strings: Seq<String>) -> Seq<Seq<char>> {
    Seq::new(strings.len(), |i: int| strings[i]@)
}

/// Whether `list` holds a string equal to `wanted`.
pub fn lists_string(list: &Vec<String>, wanted: &String) -> (found: bool)
    ensures
        found == string_views(list@).contains(wanted@),
{
    let mut i: usize = 0;
    while i < list.len()
        invariant
            i <= list.len(),
            forall|k: int| 0 <= k < i ==> string_views(list@)[k] != wanted@,
        decreases list.len() - i,
    {
        if list[i] == *wanted {
            assert(string_views(list@)[i as int] == wanted@);
            return true;
        }
        i += 1;
    }
    false
}

/// The characters of `s`, in order.
pub fn chars_of(s: &str) -> (chars: Vec<char>)
    ensures
        chars@ == s@,
{
    let mut chars: Vec<char> = Vec::new();
    let it = s.chars();
    for c in iter: it
        invariant
            chars@ == iter.seq().take(iter.index() as int),
    {
        chars.push(c);
    }
    chars
}

/// The string made of `chars`, in order.
pub fn string_of(chars: &Vec<char>) -> (s: String)
    ensures
        s@ == chars@,
{
    let mut s = String::new();
    let mut i: usize = 0;
    while i < chars.len()
        invariant
            i <= chars.len(),
            s@ == chars@.take(i as int),
        decreases chars.len() - i,
    {
        s.push(chars[i]);
        i += 1;
    }
    s
}

/// The character that writes the digit `d`.
pub open spec fn digit_char(d: nat) -> char {
    if d == 0 {
        '0'
    } else if d == 1 {
        '1'
    } else if d == 2 {
        '2'
    } else if d == 3 {
        '3'
    } else if d == 4 {
        '4'
    } else if d == 5 {
        '5'
    } else if d == 6 {
        '6'
    } else if d == 7 {
        '7'
    } else if d == 8 {
        '8'
    } else {
        '9'
    }
}

/// Whether `c` is one of the ten decimal digits `0` to `9`.
pub open spec fn is_digit(c: char) -> bool {
    c == '0' || c == '1' || c == '2' || c == '3' || c == '4' || c == '5' || c == '6' || c == '7'
        || c == '8' || c == '9'
}

/// The value of the digit `c`.
pub open spec fn digit_value(c: char) -> nat {
    if c == '1' {
        1
    } else if c == '2' {
        2
    } else if c == '3' {
        3
    } else if c == '4' {
        4
    } else if c == '5' {
        5
    } else if c == '6' {
        6
    } else if c == '7' {
        7
    } else if c == '8' {
        8
    } else if c == '9' {
        9
    } else {
        0
    }
}

/// Whether `c` is one of the 128 characters of ASCII.
pub open spec fn is_ascii(c: char) -> bool {
    (c as u32) < 128
}

/// Whether `c` is white space. In ASCII these are the space, the tab, the
/// line feed, the vertical tab, the form feed and the carriage return;
/// beyond ASCII the Unicode standard decides.
pub open spec fn is_space(c: char) -> bool {
    if is_ascii(c) {
        c == ' ' || c == '\t' || c == '\n' || c == '\u{b}' || c == '\u{c}' || c == '\r'
    } else {
        is_whitespace(c)
    }
}

/// Whether `c` is a letter. In ASCII these are `a` to `z` and `A` to `Z`;
/// beyond ASCII the Unicode standard decides.
pub open spec fn is_letter(c: char) -> bool {
    if is_ascii(c) {
        0x41 <= (c as u32) <= 0x5A || 0x61 <= (c as u32) <= 0x7A
    } else {
        is_alphabetic(c)
    }
}

/// The decimal numeral of `n`, without leading zeros.
pub open spec fn decimal(n: nat) -> Seq<char>
    decreases n,
{
    if n < 10 {
        seq![digit_char(n)]
    } else {
        decimal(n / 10).push(digit_char(n % 10))
    }
}

/// The number that the digits write in decimal; 0 for no digits.
pub open spec fn number(digits: Seq<char>) -> nat
    decreases digits.len(),
{
    if digits.len() == 0 {
        0
    } else {
        number(digits.drop_last()) * 10 + digit_value(digits.last())
    }
}

/// Where the run of digits that starts at `pos` ends.
pub open spec fn digits_end(text: Seq<char>, pos: int) -> int
    decreases text.len() - pos,
{
    if 0 <= pos < text.len() && is_digit(text[pos]) {
        digits_end(text, pos + 1)
    } else {
        pos
    }
}

/// Where the run of white space that starts at `pos` ends.
pub open spec fn blanks_end(text: Seq<char>, pos: int) -> int
    decreases text.len() - pos,
{
    if 0 <= pos < text.len() && is_space(text[pos]) {
        blanks_end(text, pos + 1)
    } else {
        pos
    }
}

/// Whether `c` is a decimal digit.
pub fn char_is_digit(c: char) -> (b: bool)
    ensures
        b == is_digit(c),
{
    c == '0' || c == '1' || c == '2' || c == '3' || c == '4' || c == '5' || c == '6' || c == '7'
        || c == '8' || c == '9'
}

/// Whether `c` is white space.
pub fn char_is_space(c: char) -> (b: bool)
    ensures
        b == is_space(c),
{
    if (c as u32) < 128 {
        c == ' ' || c == '\t' || c == '\n' || c == '\u{b}' || c == '\u{c}' || c == '\r'
    } else {
        c.is_whitespace()
    }
}

/// Whether `c` is a letter.
pub fn char_is_letter(c: char) -> (b: bool)
    ensures
        b == is_letter(c),
{
    let code = c as u32;
    if code < 128 {
        (0x41 <= code && code <= 0x5A) || (0x61 <= code && code <= 0x7A)
    } else {
        c.is_alphabetic()
    }
}

fn value_of_digit(c: char) -> (v: u64)
    ensures
        v == digit_value(c),
        v <= 9,
{
    if c == '1' {
        1
    } else if c == '2' {
        2
    } else if c == '3' {
        3
    } else if c == '4' {
        4
    } else if c == '5' {
        5
    } else if c == '6' {
        6
    } else if c == '7' {
        7
    } else if c == '8' {
        8
    } else if c == '9' {
        9
    } else {
        0
    }
}

fn char_of_digit(d: u128) -> (c: char)
    requires
        d < 10,
    ensures
        c == digit_char(d as nat),
{
    if d == 0 {
        '0'
    } else if d == 1 {
        '1'
    } else if d == 2 {
        '2'
    } else if d == 3 {
        '3'
    } else if d == 4 {
        '4'
    } else if d == 5 {
        '5'
    } else if d == 6 {
        '6'
    } else if d == 7 {
        '7'
    } else if d == 8 {
        '8'
    } else {
        '9'
    }
}

/// Appends the decimal numeral of `n` to `out`.
pub fn push_decimal(out: &mut Vec<char>, n: u128)
    ensures
        final(out)@ == old(out)@ + decimal(n as nat),
    decreases n,
{
    if n >= 10 {
        push_decimal(out, n / 10);
    }
    out.push(char_of_digit(n % 10));
}

/// Appends the characters of `text` to `out`.
pub fn push_chars(out: &mut Vec<char>, text: &Vec<char>)
    ensures
        final(out)@ == old(out)@ + text@,
{
    let mut i: usize = 0;
    while i < text.len()
        invariant
            i <= text.len(),
            out@ == old(out)@ + text@.take(i as int),
        decreases text.len() - i,
    {
        out.push(text[i]);
        i += 1;
    }
}

/// Where the run of blanks that starts at `pos` ends.
pub fn skip_blanks(text: &Vec<char>, pos: usize) -> (end: usize)
    requires
        pos <= text.len(),
    ensures
        end == blanks_end(text@, pos as int),
        pos <= end <= text.len(),
{
    let mut i = pos;
    while i < text.len() && char_is_space(text[i])
        invariant
            pos <= i <= text.len(),
            blanks_end(text@, pos as int) == blanks_end(text@, i as int),
        decreases text.len() - i,
    {
        i += 1;
    }
    i
}

/// Reads the run of digits that starts at `pos`. Returns where the run
/// ends and the number it writes, or `None` for a number above `u64::MAX`.
pub fn scan_number(text: &Vec<char>, pos: usize) -> (run: (usize, Option<u64>))
    requires
        pos <= text.len(),
    ensures
        run.0 == digits_end(text@, pos as int),
        pos <= run.0 <= text.len(),
        match run.1 {
            Some(v) => v == number(text@.subrange(pos as int, run.0 as int)),
            None => number(text@.subrange(pos as int, run.0 as int)) > u64::MAX,
        },
{
    let mut i = pos;
    let mut value: Option<u64> = Some(0);
    assert(text@.subrange(pos as int, pos as int) =~= Seq::empty());
    while i < text.len() && char_is_digit(text[i])
        invariant
            pos <= i <= text.len(),
            digits_end(text@, pos as int) == digits_end(text@, i as int),
            match value {
                Some(v) => v == number(text@.subrange(pos as int, i as int)),
                None => number(text@.subrange(pos as int, i as int)) > u64::MAX,
            },
        decreases text.len() - i,
    {
        let d = value_of_digit(text[i]);
        proof {
            let next = text@.subrange(pos as int, i + 1);
            assert(next.drop_last() =~= text@.subrange(pos as int, i as int));
            assert(next.last() == text@[i as int]);
        }
        value = match value {
            Some(v) => {
                if v <= (u64::MAX - d) / 10 {
                    Some(v * 10 + d)
                } else {
                    None
                }
            },
            None => None,
        };
        i += 1;
    }
    (i, value)
}

} // verus!
