//! Text: the characters of strings, numbers written and read in decimal, and
//! the splitting rules that the line-oriented formats share.

use vstd::prelude::*;
use vstd::utf8::{decode_utf8, encode_utf8, valid_utf8};

verus! {

/// `String::push` appends one character.
pub assume_specification[ String::push ](text: &mut String, c: char)
    ensures
        final(text)@ == old(text)@.push(c),
;

/// `String::push_str` appends a string slice.
pub assume_specification[ String::push_str ](text: &mut String, more: &str)
    ensures
        final(text)@ == old(text)@ + more@,
;

/// The text that `std::str::Utf8Error` displays for bytes that are not UTF-8.
pub uninterp spec fn utf8_error_text(bytes: Seq<u8>) -> Seq<char>;

/// `std::str::from_utf8`: succeeds on exactly the valid UTF-8 sequences and
/// gives the text that they encode. On other bytes the displayed text of the
/// `Utf8Error` comes back; it depends on the bytes alone.
#[verifier::external_body]
pub(crate) fn utf8_text(bytes: &[u8]) -> (text: Result<String, String>)
    ensures
        text is Ok <==> valid_utf8(bytes@),
        text matches Ok(t) ==> t@ == decode_utf8(bytes@),
        text matches Err(e) ==> e@ == utf8_error_text(bytes@),
{
    match std::str::from_utf8(bytes) {
        Ok(text) => Ok(text.to_string()),
        Err(err) => Err(format!("{err}")),
    }
}

/// The text that a string's `Debug` form shows: quoted and escaped.
pub uninterp spec fn debug_of(text: Seq<char>) -> Seq<char>;

/// `{:?}` of a string: its quoted, escaped form, a function of the text.
#[verifier::external_body]
pub(crate) fn debug_text(text: &str) -> (shown: String)
    ensures
        shown@ == debug_of(text@),
{
    format!("{text:?}")
}

/// The text that `std::num::ParseIntError` displays for a text that is not a
/// `usize`.
pub uninterp spec fn parse_error_text(text: Seq<char>) -> Seq<char>;

/// `str::parse::<usize>`: an optional plus sign and decimal digits whose value
/// fits. On other texts the displayed text of the `ParseIntError` comes back;
/// it depends on the text alone.
#[verifier::external_body]
pub(crate) fn parse_usize(text: &str) -> (value: Result<usize, String>)
    ensures
        match value {
            Ok(n) => parsed_uint(text@, usize::MAX as nat) == Some(n as nat),
            Err(e) => parsed_uint(text@, usize::MAX as nat) is None && e@ == parse_error_text(
                text@,
            ),
        },
{
    match text.parse::<usize>() {
        Ok(n) => Ok(n),
        Err(err) => Err(format!("{err}")),
    }
}

/// The texts of a sequence of strings.
pub open spec fn texts(strings: Seq<String>) -> Seq<Seq<char>> {
    strings.map_values(|s: String| s@)
}

/// The contents of a sequence of byte vectors.
pub open spec fn blobs(vectors: Seq<Vec<u8>>) -> Seq<Seq<u8>> {
    vectors.map_values(|v: Vec<u8>| v@)
}

/// The text of an optional string.
pub open spec fn text_opt(text: Option<String>) -> Option<Seq<char>> {
    match text {
        Some(t) => Some(t@),
        None => None,
    }
}

/// The number of bytes that a text takes in UTF-8.
pub open spec fn byte_len(text: Seq<char>) -> nat {
    encode_utf8(text).len()
}

/// The characters of a string.
pub fn chars_of(text: &str) -> (chars: Vec<char>)
    ensures
        chars@ == text@,
{
    let mut chars: Vec<char> = Vec::new();
    for c in it: text.chars()
        invariant
            chars@ == it.seq().take(it.index()),
            it.seq() == text@,
    {
        chars.push(c);
        assert(chars@ =~= it.seq().take(it.index() + 1));
    }
    assert(chars@ =~= text@);
    chars
}

/// The string made of the given characters.
pub fn text_of(chars: &[char]) -> (text: String)
    ensures
        text@ == chars@,
{
    let mut text = String::new();
    let mut i: usize = 0;
    while i < chars.len()
        invariant
            i <= chars@.len(),
            text@ == chars@.take(i as int),
        decreases chars@.len() - i,
    {
        text.push(chars[i]);
        i = i + 1;
        assert(text@ =~= chars@.take(i as int));
    }
    assert(text@ =~= chars@);
    text
}

/// Whether two character slices are equal.
pub fn same_chars(a: &[char], b: &[char]) -> (same: bool)
    ensures
        same == (a@ == b@),
{
    if a.len() != b.len() {
        return false;
    }
    let mut i: usize = 0;
    while i < a.len()
        invariant
            a@.len() == b@.len(),
            i <= a@.len(),
            forall|j: int| 0 <= j < i ==> a@[j] == b@[j],
        decreases a@.len() - i,
    {
        if a[i] != b[i] {
            return false;
        }
        i = i + 1;
    }
    assert(a@ =~= b@);
    true
}

/// Whether two strings are equal.
pub fn same_text(a: &str, b: &str) -> (same: bool)
    ensures
        same == (a@ == b@),
{
    let x = chars_of(a);
    let y = chars_of(b);
    same_chars(&x, &y)
}

/// The decimal digit for a number below ten.
pub open spec fn digit_char(digit: nat) -> char {
    (48 + digit) as char
}

/// A number written in decimal, without leading zeros.
pub open spec fn dec(n: nat) -> Seq<char>
    decreases n,
{
    if n < 10 {
        seq![digit_char(n)]
    } else {
        dec(n / 10).push(digit_char(n % 10))
    }
}

/// A number written in decimal, filled up with zeros to at least `width`.
pub open spec fn dec_padded(n: nat, width: nat) -> Seq<char> {
    let digits = dec(n);
    if digits.len() >= width {
        digits
    } else {
        Seq::new((width - digits.len()) as nat, |i: int| '0') + digits
    }
}

/// The lower-case hexadecimal digit for a number below sixteen.
pub open spec fn hex_char(digit: nat) -> char {
    if digit < 10 {
        (48 + digit) as char
    } else {
        (87 + digit) as char
    }
}

/// The `width` low-order hexadecimal digits of a number.
pub open spec fn hex_padded(n: nat, width: nat) -> Seq<char>
    decreases width,
{
    if width == 0 {
        Seq::empty()
    } else {
        hex_padded(n / 16, (width - 1) as nat).push(hex_char(n % 16))
    }
}

/// A padded number has the given width, and each of its characters is a digit or one
/// of the first six small letters.
pub proof fn lemma_hex_padded_len(n: nat, width: nat)
    ensures
        hex_padded(n, width).len() == width,
        forall|i: int|
            0 <= i < width ==> ('0' <= #[trigger] hex_padded(n, width)[i] <= '9' || 'a'
                <= hex_padded(n, width)[i] <= 'f'),
    decreases width,
{
    if width > 0 {
        lemma_hex_padded_len(n / 16, (width - 1) as nat);
    }
}

/// Appends a number in decimal.
pub fn push_dec(out: &mut String, n: u128)
    ensures
        final(out)@ == old(out)@ + dec(n as nat),
    decreases n,
{
    if n >= 10 {
        push_dec(out, n / 10);
    }
    let digit: u8 = (n % 10) as u8;
    out.push((48u8 + digit) as char);
    assert(out@ =~= old(out)@ + dec(n as nat));
}

/// A number in decimal.
pub fn dec_text(n: u128) -> (text: String)
    ensures
        text@ == dec(n as nat),
{
    let mut text = String::new();
    push_dec(&mut text, n);
    assert(text@ =~= dec(n as nat));
    text
}

/// The length of a decimal number is positive, and its digits are digits.
pub proof fn lemma_dec_digits(n: nat)
    ensures
        dec(n).len() > 0,
        forall|i: int| 0 <= i < dec(n).len() ==> is_digit(#[trigger] dec(n)[i]),
    decreases n,
{
    if n >= 10 {
        lemma_dec_digits(n / 10);
    }
}

/// Whether a character is a decimal digit.
pub open spec fn is_digit(c: char) -> bool {
    '0' <= c && c <= '9'
}

/// Appends `count` copies of a character.
fn push_repeated(out: &mut String, c: char, count: usize)
    ensures
        final(out)@ == old(out)@ + Seq::new(count as nat, |i: int| c),
    decreases count,
{
    if count > 0 {
        push_repeated(out, c, count - 1);
        out.push(c);
    }
    assert(out@ =~= old(out)@ + Seq::new(count as nat, |i: int| c));
}

/// Appends a number in decimal, filled up with zeros to at least `width`.
pub fn push_dec_padded(out: &mut String, n: u128, width: usize)
    ensures
        final(out)@ == old(out)@ + dec_padded(n as nat, width as nat),
{
    let digits = dec_text(n);
    let chars = chars_of(&digits);
    if chars.len() < width {
        push_repeated(out, '0', width - chars.len());
    }
    out.push_str(&digits);
    assert(out@ =~= old(out)@ + dec_padded(n as nat, width as nat));
}

/// The milliseconds past the last whole second, as a decimal fraction without
/// zeros at its end.
pub open spec fn second_fraction(millis: nat) -> Seq<char> {
    if millis % 1000 == 0 {
        Seq::empty()
    } else if millis % 100 == 0 {
        "."@ + dec(millis % 1000 / 100)
    } else if millis % 10 == 0 {
        "."@ + dec_padded(millis % 1000 / 10, 2)
    } else {
        "."@ + dec_padded(millis % 1000, 3)
    }
}

/// A span of time in words: in seconds, below one second in milliseconds, and a
/// span of no length in nanoseconds.
pub open spec fn duration_of(millis: nat) -> Seq<char> {
    if millis == 0 {
        "0ns"@
    } else if millis < 1000 {
        dec(millis) + "ms"@
    } else {
        dec(millis / 1000) + second_fraction(millis) + "s"@
    }
}

/// A span of time in words.
pub fn duration_text(millis: u64) -> (shown: String)
    ensures
        shown@ == duration_of(millis as nat),
{
    let mut shown = String::new();
    if millis == 0 {
        shown.push_str("0ns");
    } else if millis < 1000 {
        push_dec(&mut shown, millis as u128);
        shown.push_str("ms");
    } else {
        push_dec(&mut shown, (millis / 1000) as u128);
        let part: u128 = (millis % 1000) as u128;
        if part != 0 {
            shown.push_str(".");
            if part % 100 == 0 {
                push_dec(&mut shown, part / 100);
            } else if part % 10 == 0 {
                push_dec_padded(&mut shown, part / 10, 2);
            } else {
                push_dec_padded(&mut shown, part, 3);
            }
        }
        shown.push_str("s");
    }
    assert(shown@ =~= duration_of(millis as nat));
    shown
}

/// Appends the `width` low-order hexadecimal digits of a number.
pub fn push_hex_padded(out: &mut String, n: u64, width: usize)
    ensures
        final(out)@ == old(out)@ + hex_padded(n as nat, width as nat),
    decreases width,
{
    if width > 0 {
        push_hex_padded(out, n / 16, width - 1);
        let digit: u8 = (n % 16) as u8;
        if digit < 10 {
            out.push((48u8 + digit) as char);
        } else {
            out.push((87u8 + digit) as char);
        }
    }
    assert(out@ =~= old(out)@ + hex_padded(n as nat, width as nat));
}

/// Bytes written in decimal and joined by `, `.
pub open spec fn byte_items(bytes: Seq<u8>) -> Seq<char>
    decreases bytes.len(),
{
    if bytes.len() == 0 {
        Seq::empty()
    } else if bytes.len() == 1 {
        dec(bytes[0] as nat)
    } else {
        byte_items(bytes.drop_last()) + ", "@ + dec(bytes.last() as nat)
    }
}

/// A byte sequence as a bracketed list, `[87, 77]`.
pub open spec fn byte_list(bytes: Seq<u8>) -> Seq<char> {
    "["@ + byte_items(bytes) + "]"@
}

/// Appends a byte sequence as a bracketed list.
pub fn push_byte_list(out: &mut String, bytes: &[u8])
    ensures
        final(out)@ == old(out)@ + byte_list(bytes@),
{
    out.push_str("[");
    let ghost start = out@;
    let mut i: usize = 0;
    assert(out@ =~= start + byte_items(bytes@.take(0)));
    while i < bytes.len()
        invariant
            i <= bytes@.len(),
            out@ == start + byte_items(bytes@.take(i as int)),
        decreases bytes@.len() - i,
    {
        if i > 0 {
            out.push_str(", ");
        }
        push_dec(out, bytes[i] as u128);
        proof {
            let upto = bytes@.take(i + 1);
            assert(upto.drop_last() =~= bytes@.take(i as int));
            assert(out@ =~= start + byte_items(upto));
        }
        i = i + 1;
    }
    out.push_str("]");
    assert(bytes@.take(i as int) =~= bytes@);
    assert(out@ =~= old(out)@ + byte_list(bytes@));
}

// ---- reading numbers ----

/// The number that decimal digits denote.
pub open spec fn digits_value(digits: Seq<char>) -> nat
    decreases digits.len(),
{
    if digits.len() == 0 {
        0
    } else {
        10 * digits_value(digits.drop_last()) + (digits.last() as nat - 48) as nat
    }
}

/// Whether every character is a decimal digit.
pub open spec fn all_digits(text: Seq<char>) -> bool {
    forall|i: int| 0 <= i < text.len() ==> is_digit(#[trigger] text[i])
}

/// An unsigned number in decimal: an optional plus sign and one or more
/// digits, with a value of at most `max`.
pub open spec fn parsed_uint(text: Seq<char>, max: nat) -> Option<nat> {
    let digits = if text.len() > 0 && text[0] == '+' {
        text.drop_first()
    } else {
        text
    };
    if digits.len() > 0 && all_digits(digits) && digits_value(digits) <= max {
        Some(digits_value(digits))
    } else {
        None
    }
}

/// More digits never denote a smaller number.
proof fn lemma_digits_value_grows(digits: Seq<char>, n: int)
    requires
        0 <= n <= digits.len(),
        all_digits(digits),
    ensures
        digits_value(digits.take(n)) <= digits_value(digits),
    decreases digits.len(),
{
    if n == digits.len() {
        assert(digits.take(n) =~= digits);
    } else {
        assert(digits.drop_last().take(n) =~= digits.take(n));
        lemma_digits_value_grows(digits.drop_last(), n);
    }
}

/// Reads an unsigned number in decimal.
pub fn parse_uint(text: &[char], max: u128) -> (value: Option<u128>)
    ensures
        match value {
            Some(v) => parsed_uint(text@, max as nat) == Some(v as nat),
            None => parsed_uint(text@, max as nat) is None,
        },
{
    let start: usize = if text.len() > 0 && text[0] == '+' {
        1
    } else {
        0
    };
    let ghost digits = text@.skip(start as int);
    proof {
        if start == 0 {
            assert(digits =~= text@);
        } else {
            assert(digits =~= text@.drop_first());
        }
    }
    if start == text.len() {
        return None;
    }
    let mut value: u128 = 0;
    let mut i: usize = start;
    while i < text.len()
        invariant
            start <= i <= text@.len(),
            start <= 1,
            digits == text@.skip(start as int),
            digits == if text@.len() > 0 && text@[0] == '+' {
                text@.drop_first()
            } else {
                text@
            },
            value == digits_value(digits.take(i - start)),
            value <= max,
            forall|j: int| 0 <= j < i - start ==> is_digit(#[trigger] digits[j]),
        decreases text@.len() - i,
    {
        let c = text[i];
        let ghost n = i - start;
        assert(digits[n] == c);
        if c < '0' || c > '9' {
            assert(!is_digit(digits[n]));
            return None;
        }
        let digit: u128 = (c as u32 - 48) as u128;
        proof {
            assert(digits.take(n + 1).drop_last() =~= digits.take(n));
            if all_digits(digits) {
                lemma_digits_value_grows(digits, n + 1);
            }
        }
        let scaled: u128 = match value.checked_mul(10) {
            Some(scaled) => scaled,
            None => {
                return None;
            },
        };
        value = match scaled.checked_add(digit) {
            Some(sum) => sum,
            None => {
                return None;
            },
        };
        if value > max {
            return None;
        }
        i = i + 1;
    }
    assert(digits.take(i - start) =~= digits);
    Some(value)
}

/// A number written in decimal reads as itself.
pub proof fn lemma_dec_parses(n: nat, max: nat)
    requires
        n <= max,
    ensures
        parsed_uint(dec(n), max) == Some(n),
{
    lemma_dec_digits(n);
    lemma_dec_value(n);
    assert(is_digit(dec(n)[0]));
}

/// The digits of a decimal number denote it.
pub proof fn lemma_dec_value(n: nat)
    ensures
        digits_value(dec(n)) == n,
    decreases n,
{
    if n >= 10 {
        lemma_dec_value(n / 10);
        assert(dec(n).drop_last() =~= dec(n / 10));
    } else {
        assert(dec(n).drop_last() =~= Seq::<char>::empty());
        assert(digits_value(dec(n).drop_last()) == 0);
    }
}

proof fn lemma_leading_zeros(zeros: nat, digits: Seq<char>)
    ensures
        digits_value(Seq::new(zeros, |i: int| '0') + digits) == digits_value(digits),
    decreases digits.len(), zeros,
{
    let all = Seq::new(zeros, |i: int| '0') + digits;
    if digits.len() > 0 {
        lemma_leading_zeros(zeros, digits.drop_last());
        assert(all.drop_last() =~= Seq::new(zeros, |i: int| '0') + digits.drop_last());
    } else if zeros > 0 {
        lemma_leading_zeros((zeros - 1) as nat, digits);
        assert(all.drop_last() =~= Seq::new((zeros - 1) as nat, |i: int| '0') + digits);
    } else {
        assert(all =~= digits);
    }
}

/// A number padded with zeros denotes the number.
pub proof fn lemma_padded_value(n: nat, width: nat)
    ensures
        digits_value(dec_padded(n, width)) == n,
{
    lemma_dec_value(n);
    let digits = dec(n);
    if digits.len() < width {
        lemma_leading_zeros((width - digits.len()) as nat, digits);
    }
}

// ---- splitting ----

/// The position of the first `c`, or the length where there is none.
pub open spec fn find_char(text: Seq<char>, c: char) -> nat
    decreases text.len(),
{
    if text.len() == 0 || text[0] == c {
        0
    } else {
        1 + find_char(text.drop_first(), c)
    }
}

/// What the first position of a character means.
pub proof fn lemma_find_char(text: Seq<char>, c: char)
    ensures
        find_char(text, c) <= text.len(),
        find_char(text, c) < text.len() ==> text[find_char(text, c) as int] == c,
        forall|i: int| 0 <= i < find_char(text, c) ==> #[trigger] text[i] != c,
    decreases text.len(),
{
    if text.len() > 0 && text[0] != c {
        lemma_find_char(text.drop_first(), c);
        assert forall|i: int| 0 <= i < find_char(text, c) implies #[trigger] text[i] != c by {
            if i > 0 {
                assert(text.drop_first()[i - 1] == text[i]);
            }
        }
    }
}

/// A position is the first one of a character if that character is there (or
/// the text ends there) and nowhere before.
pub proof fn lemma_find_char_is(text: Seq<char>, c: char, at: int)
    requires
        0 <= at <= text.len(),
        at < text.len() ==> text[at] == c,
        forall|i: int| 0 <= i < at ==> #[trigger] text[i] != c,
    ensures
        find_char(text, c) == at,
{
    lemma_find_char(text, c);
}

/// Finds the first `c` at or behind `start`.
pub fn find_from(text: &[char], start: usize, c: char) -> (at: usize)
    requires
        start <= text@.len(),
    ensures
        at == start + find_char(text@.skip(start as int), c),
        start <= at <= text@.len(),
{
    let ghost rest = text@.skip(start as int);
    let mut i: usize = start;
    while i < text.len()
        invariant
            start <= i <= text@.len(),
            rest == text@.skip(start as int),
            forall|j: int| 0 <= j < i - start ==> #[trigger] rest[j] != c,
        decreases text@.len() - i,
    {
        if text[i] == c {
            proof {
                lemma_find_char_is(rest, c, i - start);
            }
            return i;
        }
        i = i + 1;
    }
    proof {
        lemma_find_char_is(rest, c, i - start);
    }
    i
}

/// The parts of a text between the occurrences of a separator.
pub open spec fn split_char(text: Seq<char>, c: char) -> Seq<Seq<char>>
    decreases text.len(),
    via split_char_shrinks
{
    let at = find_char(text, c);
    if at >= text.len() {
        seq![text]
    } else {
        seq![text.take(at as int)] + split_char(text.skip(at as int + 1), c)
    }
}

#[via_fn]
proof fn split_char_shrinks(text: Seq<char>, c: char) {
    lemma_find_char(text, c);
}

/// The characters of a sequence of vectors.
pub open spec fn char_parts(parts: Seq<Vec<char>>) -> Seq<Seq<char>> {
    parts.map_values(|p: Vec<char>| p@)
}

/// An owned copy of a range of characters.
pub fn copy_chars(text: &[char], start: usize, end: usize) -> (part: Vec<char>)
    requires
        start <= end <= text@.len(),
    ensures
        part@ == text@.subrange(start as int, end as int),
{
    let mut part: Vec<char> = Vec::new();
    let mut i: usize = start;
    while i < end
        invariant
            start <= i <= end <= text@.len(),
            part@ == text@.subrange(start as int, i as int),
        decreases end - i,
    {
        part.push(text[i]);
        i = i + 1;
        assert(part@ =~= text@.subrange(start as int, i as int));
    }
    part
}

/// Splits a text at a separator.
pub fn split_at_char(text: &[char], c: char) -> (parts: Vec<Vec<char>>)
    ensures
        char_parts(parts@) == split_char(text@, c),
        parts@.len() >= 1,
{
    let mut parts: Vec<Vec<char>> = Vec::new();
    let mut start: usize = 0;
    assert(text@.skip(0) =~= text@);
    assert(char_parts(parts@) + split_char(text@.skip(0), c) =~= split_char(text@, c));
    loop
        invariant
            start <= text@.len(),
            char_parts(parts@) + split_char(text@.skip(start as int), c) == split_char(text@, c),
        decreases text@.len() - start,
    {
        let ghost rest = text@.skip(start as int);
        let ghost before = parts@;
        let at: usize = find_from(text, start, c);
        let part = copy_chars(text, start, at);
        assert(part@ =~= rest.take(at - start));
        parts.push(part);
        assert(char_parts(parts@) =~= char_parts(before).push(part@));
        if at == text.len() {
            assert(part@ =~= rest);
            assert(char_parts(parts@) =~= char_parts(before) + seq![rest]);
            return parts;
        }
        assert(rest.skip(at - start + 1) =~= text@.skip(at + 1));
        assert(char_parts(parts@) + split_char(text@.skip(at + 1), c) =~= char_parts(before) + (
        seq![part@] + split_char(text@.skip(at + 1), c)));
        start = at + 1;
    }
}

/// Whether a character does not occur in a text.
pub open spec fn absent(text: Seq<char>, c: char) -> bool {
    forall|i: int| 0 <= i < text.len() ==> #[trigger] text[i] != c
}

/// A text without separators is one part.
pub proof fn lemma_split_whole(text: Seq<char>, c: char)
    requires
        absent(text, c),
    ensures
        split_char(text, c) == seq![text],
{
    lemma_find_char_is(text, c, text.len() as int);
}

/// The part before the first separator comes first.
pub proof fn lemma_split_first(first: Seq<char>, c: char, rest: Seq<char>)
    requires
        absent(first, c),
    ensures
        split_char(first + seq![c] + rest, c) == seq![first] + split_char(rest, c),
{
    let text = first + seq![c] + rest;
    let at = first.len() as int;
    assert(text[at] == c);
    assert forall|i: int| 0 <= i < at implies #[trigger] text[i] != c by {
        assert(text[i] == first[i]);
    }
    lemma_find_char_is(text, c, at);
    assert(text.take(at) =~= first);
    assert(text.skip(at + 1) =~= rest);
}

/// A text without a carriage return at its end.
pub open spec fn strip_cr(line: Seq<char>) -> Seq<char> {
    if line.len() > 0 && line.last() == '\r' {
        line.drop_last()
    } else {
        line
    }
}

/// The lines of a text: each ends with a line feed, before which one carriage
/// return is dropped; what follows the last line feed is a line unless empty.
pub open spec fn lines_of(text: Seq<char>) -> Seq<Seq<char>>
    decreases text.len(),
    via lines_of_shrinks
{
    let at = find_char(text, '\n');
    if text.len() == 0 {
        Seq::empty()
    } else if at >= text.len() {
        seq![text]
    } else {
        seq![strip_cr(text.take(at as int))] + lines_of(text.skip(at as int + 1))
    }
}

#[via_fn]
proof fn lines_of_shrinks(text: Seq<char>) {
    lemma_find_char(text, '\n');
}

/// Splits a text into lines.
pub fn split_lines(text: &[char]) -> (lines: Vec<Vec<char>>)
    ensures
        char_parts(lines@) == lines_of(text@),
{
    let mut lines: Vec<Vec<char>> = Vec::new();
    let mut start: usize = 0;
    assert(text@.skip(0) =~= text@);
    assert(char_parts(lines@) + lines_of(text@.skip(0)) =~= lines_of(text@));
    while start < text.len()
        invariant
            start <= text@.len(),
            char_parts(lines@) + lines_of(text@.skip(start as int)) == lines_of(text@),
        decreases text@.len() - start,
    {
        let ghost rest = text@.skip(start as int);
        let ghost before = lines@;
        let at: usize = find_from(text, start, '\n');
        if at == text.len() {
            let line = copy_chars(text, start, at);
            assert(line@ =~= rest);
            lines.push(line);
            assert(char_parts(lines@) =~= char_parts(before) + seq![rest]);
            return lines;
        }
        let ghost line_text = rest.take(at - start);
        let end: usize = if at > start && text[at - 1] == '\r' {
            at - 1
        } else {
            at
        };
        let line = copy_chars(text, start, end);
        assert(line@ =~= strip_cr(line_text));
        lines.push(line);
        assert(char_parts(lines@) =~= char_parts(before).push(line@));
        assert(rest.skip(at - start + 1) =~= text@.skip(at + 1));
        assert(char_parts(lines@) + lines_of(text@.skip(at + 1)) =~= char_parts(before) + (
        seq![line@] + lines_of(text@.skip(at + 1))));
        start = at + 1;
    }
    assert(text@.skip(start as int) =~= Seq::<char>::empty());
    assert(char_parts(lines@) + lines_of(text@.skip(start as int)) =~= char_parts(lines@));
    lines
}

/// A line feed after a text without one ends its first line.
pub proof fn lemma_first_line(line: Seq<char>, rest: Seq<char>)
    requires
        forall|i: int| 0 <= i < line.len() ==> #[trigger] line[i] != '\n',
    ensures
        lines_of(line + seq!['\n'] + rest) == seq![strip_cr(line)] + lines_of(rest),
{
    let text = line + seq!['\n'] + rest;
    let at = line.len() as int;
    assert(text[at] == '\n');
    assert forall|i: int| 0 <= i < at implies #[trigger] text[i] != '\n' by {
        assert(text[i] == line[i]);
    }
    lemma_find_char_is(text, '\n', at);
    assert(text.take(at) =~= line);
    assert(text.skip(at + 1) =~= rest);
}

// ---- lists keyed by strings ----

/// Whether no two entries have the same key.
pub open spec fn distinct_keys<T>(entries: Seq<(String, T)>) -> bool {
    forall|i: int, j: int|
        0 <= i < j < entries.len() ==> (#[trigger] entries[i]).0@ != (#[trigger] entries[j]).0@
}

/// The map that a list of entries with distinct keys stands for.
pub open spec fn entry_map<T>(entries: Seq<(String, T)>) -> Map<Seq<char>, T>
    decreases entries.len(),
{
    if entries.len() == 0 {
        Map::empty()
    } else {
        entry_map(entries.drop_last()).insert(entries.last().0@, entries.last().1)
    }
}

/// An entry of a list with distinct keys is what the map holds at its key, and
/// the map holds nothing else.
pub proof fn lemma_entry_map<T>(entries: Seq<(String, T)>)
    requires
        distinct_keys(entries),
    ensures
        forall|i: int|
            #![trigger entries[i]]
            0 <= i < entries.len() ==> entry_map(entries).dom().contains(entries[i].0@)
                && entry_map(entries)[entries[i].0@] == entries[i].1,
        forall|k: Seq<char>| #[trigger]
            entry_map(entries).dom().contains(k) ==> exists|i: int|
                0 <= i < entries.len() && (#[trigger] entries[i]).0@ == k,
    decreases entries.len(),
{
    if entries.len() > 0 {
        let shorter = entries.drop_last();
        lemma_entry_map(shorter);
        assert forall|i: int| #![trigger entries[i]] 0 <= i < entries.len() implies entry_map(
            entries,
        ).dom().contains(entries[i].0@) && entry_map(entries)[entries[i].0@] == entries[i].1 by {
            if i < entries.len() - 1 {
                assert(shorter[i] == entries[i]);
            }
        }
        assert forall|k: Seq<char>| #[trigger]
            entry_map(entries).dom().contains(k) implies exists|i: int|
            0 <= i < entries.len() && (#[trigger] entries[i]).0@ == k by {
            if k == entries.last().0@ {
                assert(entries[entries.len() - 1].0@ == k);
            } else {
                assert(entry_map(shorter).dom().contains(k));
                let i = choose|i: int| 0 <= i < shorter.len() && (#[trigger] shorter[i]).0@ == k;
                assert(entries[i].0@ == k);
            }
        }
    }
}

/// Finds the entry with a key.
pub fn position_of<T>(entries: &[(String, T)], key: &str) -> (found: Option<usize>)
    ensures
        match found {
            Some(i) => i < entries@.len() && entries@[i as int].0@ == key@,
            None => forall|i: int| 0 <= i < entries@.len() ==> (#[trigger] entries@[i]).0@ != key@,
        },
{
    let mut i: usize = 0;
    while i < entries.len()
        invariant
            i <= entries@.len(),
            forall|j: int| 0 <= j < i ==> (#[trigger] entries@[j]).0@ != key@,
        decreases entries@.len() - i,
    {
        if same_text(&entries[i].0, key) {
            return Some(i);
        }
        i = i + 1;
    }
    None
}

/// Whether a text starts with a prefix.
pub fn chars_start_with(text: &[char], prefix: &[char]) -> (found: bool)
    ensures
        found == prefix@.is_prefix_of(text@),
{
    if text.len() < prefix.len() {
        return false;
    }
    let mut i: usize = 0;
    while i < prefix.len()
        invariant
            i <= prefix@.len() <= text@.len(),
            forall|j: int| 0 <= j < i ==> prefix@[j] == text@[j],
        decreases prefix@.len() - i,
    {
        if text[i] != prefix[i] {
            assert(prefix@[i as int] != text@.subrange(0, prefix@.len() as int)[i as int]);
            return false;
        }
        i = i + 1;
    }
    assert(prefix@ =~= text@.subrange(0, prefix@.len() as int));
    true
}

// ---- white space and case ----

/// Whether a character is white space in Unicode.
pub open spec fn is_white(c: char) -> bool {
    let n = c as u32;
    ||| 9 <= n <= 13
    ||| n == 0x20
    ||| n == 0x85
    ||| n == 0xa0
    ||| n == 0x1680
    ||| 0x2000 <= n <= 0x200a
    ||| n == 0x2028
    ||| n == 0x2029
    ||| n == 0x202f
    ||| n == 0x205f
    ||| n == 0x3000
}

/// Whether a character is white space in Unicode.
pub fn white(c: char) -> (white: bool)
    ensures
        white == is_white(c),
{
    let n: u32 = c as u32;
    (9 <= n && n <= 13) || n == 0x20 || n == 0x85 || n == 0xa0 || n == 0x1680 || (0x2000 <= n && n
        <= 0x200a) || n == 0x2028 || n == 0x2029 || n == 0x202f || n == 0x205f || n == 0x3000
}

/// A text without the white space at its start.
pub open spec fn trim_start(text: Seq<char>) -> Seq<char>
    decreases text.len(),
{
    if text.len() == 0 || !is_white(text[0]) {
        text
    } else {
        trim_start(text.drop_first())
    }
}

/// A text without the white space at its end.
pub open spec fn trim_end(text: Seq<char>) -> Seq<char>
    decreases text.len(),
{
    if text.len() == 0 || !is_white(text.last()) {
        text
    } else {
        trim_end(text.drop_last())
    }
}

/// A text without the white space at its start and its end.
pub open spec fn trimmed(text: Seq<char>) -> Seq<char> {
    trim_end(trim_start(text))
}

/// Skips white space from `start` on.
fn skip_white(text: &[char], start: usize) -> (at: usize)
    requires
        start <= text@.len(),
    ensures
        start <= at <= text@.len(),
        text@.skip(at as int) == trim_start(text@.skip(start as int)),
        at < text@.len() ==> !is_white(text@[at as int]),
{
    let ghost all = trim_start(text@.skip(start as int));
    let mut at: usize = start;
    while at < text.len() && white(text[at])
        invariant
            start <= at <= text@.len(),
            all == trim_start(text@.skip(start as int)),
            all == trim_start(text@.skip(at as int)),
        decreases text@.len() - at,
    {
        assert(text@.skip(at as int).drop_first() =~= text@.skip(at + 1));
        at = at + 1;
    }
    at
}

/// Removes the white space at the start and the end of a text.
pub fn trim(text: &[char]) -> (part: Vec<char>)
    ensures
        part@ == trimmed(text@),
{
    let start: usize = skip_white(text, 0);
    assert(text@.skip(0) =~= text@);
    let ghost all = trimmed(text@);
    let mut end: usize = text.len();
    assert(text@.subrange(start as int, end as int) =~= text@.skip(start as int));
    while end > start && white(text[end - 1])
        invariant
            start <= end <= text@.len(),
            all == trim_end(text@.subrange(start as int, end as int)),
        decreases end,
    {
        assert(text@.subrange(start as int, end as int).drop_last() =~= text@.subrange(
            start as int,
            end - 1,
        ));
        end = end - 1;
    }
    copy_chars(text, start, end)
}

/// The length of the word that a text starts with.
pub open spec fn word_len(text: Seq<char>) -> nat
    decreases text.len(),
{
    if text.len() == 0 || is_white(text[0]) {
        0
    } else {
        1 + word_len(text.drop_first())
    }
}

/// The words of a text: its parts between runs of white space.
pub open spec fn words_of(text: Seq<char>) -> Seq<Seq<char>>
    decreases text.len(),
    via words_of_shrinks
{
    let rest = trim_start(text);
    if rest.len() == 0 {
        Seq::empty()
    } else {
        seq![rest.take(word_len(rest) as int)] + words_of(rest.skip(word_len(rest) as int))
    }
}

#[via_fn]
proof fn words_of_shrinks(text: Seq<char>) {
    lemma_trim_start(text);
    lemma_word_len(trim_start(text));
}

proof fn lemma_trim_start(text: Seq<char>)
    ensures
        trim_start(text).len() <= text.len(),
        trim_start(text).len() > 0 ==> !is_white(trim_start(text)[0]),
    decreases text.len(),
{
    if text.len() > 0 && is_white(text[0]) {
        lemma_trim_start(text.drop_first());
    }
}

proof fn lemma_word_len(text: Seq<char>)
    ensures
        word_len(text) <= text.len(),
        text.len() > 0 && !is_white(text[0]) ==> word_len(text) > 0,
    decreases text.len(),
{
    if text.len() > 0 && !is_white(text[0]) {
        lemma_word_len(text.drop_first());
    }
}

/// Splits a text into its words.
pub fn split_words(text: &[char]) -> (words: Vec<Vec<char>>)
    ensures
        char_parts(words@) == words_of(text@),
{
    let mut words: Vec<Vec<char>> = Vec::new();
    let ghost all = words_of(text@);
    let mut start: usize = 0;
    assert(text@.skip(0) =~= text@);
    assert(char_parts(words@) + words_of(text@) =~= words_of(text@));
    loop
        invariant
            start <= text@.len(),
            all == words_of(text@),
            char_parts(words@) + words_of(text@.skip(start as int)) == all,
        decreases text@.len() - start,
    {
        let first: usize = skip_white(text, start);
        let ghost rest = text@.skip(first as int);
        if first == text.len() {
            assert(rest.len() == 0);
            assert(char_parts(words@) + Seq::<Seq<char>>::empty() =~= char_parts(words@));
            return words;
        }
        let mut end: usize = first;
        assert(rest.skip(0) =~= rest);
        while end < text.len() && !white(text[end])
            invariant
                first <= end <= text@.len(),
                rest == text@.skip(first as int),
                word_len(rest) == end - first + word_len(rest.skip(end - first)),
            decreases text@.len() - end,
        {
            assert(rest.skip(end - first)[0] == text@[end as int]);
            assert(rest.skip(end - first).drop_first() =~= rest.skip(end + 1 - first));
            end = end + 1;
        }
        proof {
            lemma_word_len(rest);
            if end < text@.len() {
                assert(rest.skip(end - first)[0] == text@[end as int]);
            } else {
                assert(rest.skip(end - first).len() == 0);
            }
        }
        let ghost before = words@;
        let word = copy_chars(text, first, end);
        assert(word@ =~= rest.take(end - first));
        words.push(word);
        assert(char_parts(words@) =~= char_parts(before).push(word@));
        assert(rest.skip(end - first) =~= text@.skip(end as int));
        assert(char_parts(words@) + words_of(text@.skip(end as int)) =~= char_parts(before) + (
        seq![word@] + words_of(text@.skip(end as int))));
        start = end;
    }
}

/// An ASCII letter in lower case; any other character as it is.
pub open spec fn lower(c: char) -> char {
    if 'A' <= c && c <= 'Z' {
        (c as u32 + 32) as char
    } else {
        c
    }
}

/// A text with its ASCII letters in lower case.
pub open spec fn lowered(text: Seq<char>) -> Seq<char> {
    text.map_values(|c: char| lower(c))
}

/// Puts the ASCII letters of a text in lower case.
pub fn lower_chars(text: &[char]) -> (out: Vec<char>)
    ensures
        out@ == lowered(text@),
{
    let mut out: Vec<char> = Vec::new();
    let mut i: usize = 0;
    while i < text.len()
        invariant
            i <= text@.len(),
            out@ == lowered(text@.take(i as int)),
        decreases text@.len() - i,
    {
        let c = text[i];
        if 'A' <= c && c <= 'Z' {
            let code: u8 = (c as u32 + 32) as u8;
            out.push(code as char);
        } else {
            out.push(c);
        }
        assert(out@ =~= lowered(text@.take(i + 1)));
        i = i + 1;
    }
    assert(text@.take(i as int) =~= text@);
    out
}

/// Whether a text equals a string.
pub fn chars_are(text: &[char], other: &str) -> (same: bool)
    ensures
        same == (text@ == other@),
{
    let y = chars_of(other);
    same_chars(text, &y)
}

/// An unsigned number is read from its digits, with or without a plus sign, if it is
/// not too large; nothing is read from an empty text.
pub proof fn numbers_are_read(n: nat, max: nat)
    requires
        n <= max,
    ensures
        parsed_uint(dec(n), max) == Some(n),
        parsed_uint(seq!['+'] + dec(n), max) == Some(n),
        parsed_uint(dec(max + 1), max) is None,
        parsed_uint(Seq::empty(), max) is None,
        parsed_uint(seq!['+'], max) is None,
{
    lemma_dec_parses(n, max);
    lemma_dec_digits(n);
    lemma_dec_value(n);
    lemma_dec_digits(max + 1);
    lemma_dec_value(max + 1);
    assert((seq!['+'] + dec(n)).drop_first() =~= dec(n));
    assert(seq!['+'].drop_first() =~= Seq::<char>::empty());
    assert(is_digit(dec(max + 1)[0]));
}

/// Trimming takes white space off both ends and nothing else: what is left neither
/// starts nor ends with white space, and what was taken is white.
pub proof fn trimmed_is_the_middle(text: Seq<char>)
    ensures
        trimmed(text).len() > 0 ==> !is_white(trimmed(text)[0]) && !is_white(trimmed(text).last()),
        exists|a: int, b: int|
            #![trigger text.subrange(a, b)]
            0 <= a <= b <= text.len() && trimmed(text) == text.subrange(a, b) && (forall|i: int|
                0 <= i < a ==> is_white(#[trigger] text[i])) && (forall|i: int|
                b <= i < text.len() ==> is_white(#[trigger] text[i])),
{
    let start = trim_start(text);
    let a = lemma_trim_start_at(text);
    let n = lemma_trim_end_at(start);
    let b = a + n;
    assert(trimmed(text) =~= text.subrange(a, b));
    assert forall|i: int| b <= i < text.len() implies is_white(#[trigger] text[i]) by {
        assert(start[i - a] == text[i]);
    }
    lemma_trim_start(text);
    if n > 0 {
        assert(trimmed(text)[0] == start[0]);
    }
}

proof fn lemma_trim_start_at(text: Seq<char>) -> (at: int)
    ensures
        0 <= at <= text.len(),
        trim_start(text) == text.skip(at),
        forall|i: int| 0 <= i < at ==> is_white(#[trigger] text[i]),
    decreases text.len(),
{
    if text.len() == 0 || !is_white(text[0]) {
        assert(text.skip(0) =~= text);
        0
    } else {
        let at = lemma_trim_start_at(text.drop_first());
        assert(text.drop_first().skip(at) =~= text.skip(at + 1));
        assert forall|i: int| 0 <= i < at + 1 implies is_white(#[trigger] text[i]) by {
            if i > 0 {
                assert(text.drop_first()[i - 1] == text[i]);
            }
        }
        at + 1
    }
}

proof fn lemma_trim_end_at(text: Seq<char>) -> (at: int)
    ensures
        0 <= at <= text.len(),
        trim_end(text) == text.take(at),
        at > 0 ==> !is_white(text[at - 1]),
        forall|i: int| at <= i < text.len() ==> is_white(#[trigger] text[i]),
    decreases text.len(),
{
    if text.len() == 0 || !is_white(text.last()) {
        assert(text.take(text.len() as int) =~= text);
        text.len() as int
    } else {
        let at = lemma_trim_end_at(text.drop_last());
        assert(text.drop_last().take(at) =~= text.take(at));
        assert forall|i: int| at <= i < text.len() implies is_white(#[trigger] text[i]) by {
            if i < text.len() - 1 {
                assert(text.drop_last()[i] == text[i]);
            }
        }
        at
    }
}

/// Blanks, tabs and line ends are white space, and what shows in ASCII is not.
pub proof fn white_space_in_ascii(c: char)
    requires
        c as u32 <= 0x7f,
    ensures
        is_white(c) <==> c == ' ' || c == '\t' || c == '\n' || c == '\r' || c as u32 == 11 || c as u32
            == 12,
{
}

/// A text's words are read in turn: a word without white space comes first where white
/// space follows it, however the text goes on.
pub proof fn words_are_read_in_turn(word: Seq<char>, blank: char, rest: Seq<char>)
    requires
        word.len() > 0,
        forall|i: int| 0 <= i < word.len() ==> !is_white(#[trigger] word[i]),
        is_white(blank),
    ensures
        words_of(word + seq![blank] + rest) == seq![word] + words_of(rest),
        words_of(word) == seq![word],
        words_of(seq![blank] + word) == seq![word],
        words_of(Seq::empty()) == Seq::<Seq<char>>::empty(),
{
    let text = word + seq![blank] + rest;
    lemma_word_len_is(text, word.len() as int);
    assert(text[0] == word[0]);
    assert(text.take(word.len() as int) =~= word);
    let tail = text.skip(word.len() as int);
    assert(tail[0] == blank);
    assert(tail.drop_first() =~= rest);
    assert(trim_start(tail) == trim_start(rest));
    assert(words_of(tail) == words_of(rest)) by {
        reveal_with_fuel(words_of, 2);
    }
    lemma_word_len_is(word, word.len() as int);
    assert(word.take(word.len() as int) =~= word);
    assert(word.skip(word.len() as int) =~= Seq::<char>::empty());
    assert(words_of(Seq::<char>::empty()) == Seq::<Seq<char>>::empty());
    assert(words_of(word) =~= seq![word]);
    let led = seq![blank] + word;
    assert(led.drop_first() =~= word);
    assert(trim_start(led) == trim_start(word));
    assert(words_of(led) == words_of(word)) by {
        reveal_with_fuel(words_of, 2);
    }
}

proof fn lemma_word_len_is(text: Seq<char>, n: int)
    requires
        0 <= n <= text.len(),
        forall|i: int| 0 <= i < n ==> !is_white(#[trigger] text[i]),
        n < text.len() ==> is_white(text[n]),
    ensures
        word_len(text) == n,
    decreases text.len(),
{
    if n > 0 {
        assert(!is_white(text[0]));
        let rest = text.drop_first();
        assert forall|i: int| 0 <= i < n - 1 implies !is_white(#[trigger] rest[i]) by {
            assert(rest[i] == text[i + 1]);
        }
        lemma_word_len_is(rest, n - 1);
    }
}

/// Only capital letters change when a text is put in lower case, each to the small
/// letter of its own.
pub proof fn capitals_become_small(text: Seq<char>)
    ensures
        lowered(text).len() == text.len(),
        forall|i: int|
            #![trigger lowered(text)[i]]
            0 <= i < text.len() ==> lowered(text)[i] as int == text[i] as int + if 'A' <= text[i]
                <= 'Z' {
                32int
            } else {
                0
            },
        lowered(lowered(text)) == lowered(text),
{
    assert(lowered(lowered(text)) =~= lowered(text));
}

/// A span below a second is told in milliseconds and a longer one in seconds, the
/// whole ones before the point and the milliseconds that are left behind it.
pub proof fn spans_are_told_in_their_unit(secs: nat, millis: nat)
    requires
        millis < 1000,
    ensures
        secs == 0 && millis > 0 ==> duration_of(millis) == dec(millis) + "ms"@,
        secs > 0 && millis == 0 ==> duration_of(1000 * secs) == dec(secs) + "s"@,
        secs > 0 && millis % 10 != 0 ==> duration_of(1000 * secs + millis) == dec(secs) + "."@
            + dec_padded(millis, 3) + "s"@,
{
    assert((1000 * secs + millis) / 1000 == secs);
    assert((1000 * secs + millis) % 1000 == millis);
    assert((1000 * secs + millis) % 10 == millis % 10);
    assert((1000 * secs + millis) % 100 == millis % 100);
    if secs > 0 && millis == 0 {
        assert(dec(secs) + Seq::<char>::empty() + "s"@ =~= dec(secs) + "s"@);
    }
    if secs > 0 && millis % 10 != 0 {
        assert(dec(secs) + ("."@ + dec_padded(millis, 3)) + "s"@ =~= dec(secs) + "."@ + dec_padded(
            millis,
            3,
        ) + "s"@);
    }
}

} // verus!
