//! Text as sequences of characters: letter case, white space, lines, numbers
//! and the few standard library calls that the rest of the crate builds on.

use vstd::prelude::*;
use vstd::string::*;
use vstd::utf8::*;

verus! {

broadcast use vstd::string::group_string_axioms;

// ---------------------------------------------------------------------------
// Standard library calls
// ---------------------------------------------------------------------------

/// `String::push`: appends one character to the end of the string.
pub assume_specification[ String::push ](s: &mut String, ch: char)
    ensures
        final(s)@ == old(s)@.push(ch),
;

/// The error of `std::str::from_utf8`, which carries nothing that is read here.
#[verifier::external_type_specification]
#[verifier::external_body]
pub struct ExUtf8Error(core::str::Utf8Error);

/// `std::str::from_utf8`: succeeds exactly on well-formed UTF-8, and the text
/// it hands out is made of those same bytes.
pub assume_specification[ core::str::from_utf8 ](v: &[u8]) -> (r: Result<
    &str,
    core::str::Utf8Error,
>)
    ensures
        r is Ok <==> valid_utf8(v@),
        r matches Ok(s) ==> s.spec_bytes() == v@,
;

/// What `str::to_uppercase` makes of a text: the Unicode upper case of each of
/// its characters, in order.
pub uninterp spec fn unicode_uppercase(text: Seq<char>) -> Seq<char>;

/// `str::to_uppercase`: the Unicode upper case of the text, which on ASCII text
/// is the ASCII upper case.
pub assume_specification[ str::to_uppercase ](s: &str) -> (r: String)
    ensures
        r@ == unicode_uppercase(s@),
        is_ascii_chars(s@) ==> r@ == ascii_upper(s@),
;

// ---------------------------------------------------------------------------
// Characters
// ---------------------------------------------------------------------------

/// The lower case of an ASCII letter; every other character stays.
pub open spec fn lower_char(c: char) -> char {
    if 'A' <= c <= 'Z' {
        (c as u8 + 32) as char
    } else {
        c
    }
}

/// The upper case of an ASCII letter; every other character stays.
pub open spec fn upper_char(c: char) -> char {
    if 'a' <= c <= 'z' {
        (c as u8 - 32) as char
    } else {
        c
    }
}

pub open spec fn ascii_lower(text: Seq<char>) -> Seq<char> {
    text.map_values(|c: char| lower_char(c))
}

pub open spec fn ascii_upper(text: Seq<char>) -> Seq<char> {
    text.map_values(|c: char| upper_char(c))
}

/// The characters with the Unicode property `White_Space`.
pub open spec fn is_white_space(c: char) -> bool {
    let u = c as u32;
    ||| 0x09 <= u <= 0x0d
    ||| u == 0x20
    ||| u == 0x85
    ||| u == 0xa0
    ||| u == 0x1680
    ||| 0x2000 <= u <= 0x200a
    ||| u == 0x2028
    ||| u == 0x2029
    ||| u == 0x202f
    ||| u == 0x205f
    ||| u == 0x3000
}

pub fn to_lower_char(c: char) -> (lower: char)
    ensures
        lower == lower_char(c),
{
    if 'A' <= c && c <= 'Z' {
        (c as u8 + 32) as char
    } else {
        c
    }
}

pub fn to_upper_char(c: char) -> (upper: char)
    ensures
        upper == upper_char(c),
{
    if 'a' <= c && c <= 'z' {
        (c as u8 - 32) as char
    } else {
        c
    }
}

pub fn white_space(c: char) -> (yes: bool)
    ensures
        yes == is_white_space(c),
{
    let u: u32 = c as u32;
    (0x09 <= u && u <= 0x0d) || u == 0x20 || u == 0x85 || u == 0xa0 || u == 0x1680 || (0x2000 <= u
        && u <= 0x200a) || u == 0x2028 || u == 0x2029 || u == 0x202f || u == 0x205f || u == 0x3000
}

// ---------------------------------------------------------------------------
// Between strings and characters
// ---------------------------------------------------------------------------

/// The characters of a text.
pub fn to_chars(text: &str) -> (chars: Vec<char>)
    ensures
        chars@ == text@,
{
    let mut chars: Vec<char> = Vec::new();
    for c in it: text.chars()
        invariant
            chars@ == text@.take(it.index()),
            it.seq() == text@,
    {
        chars.push(c);
    }
    chars
}

/// The text of the characters from `from` up to `to`.
pub fn text_between(chars: &Vec<char>, from: usize, to: usize) -> (text: String)
    requires
        from <= to <= chars@.len(),
    ensures
        text@ == chars@.subrange(from as int, to as int),
{
    let mut text: String = String::new();
    let mut i: usize = from;
    while i < to
        invariant
            from <= i <= to <= chars@.len(),
            text@ == chars@.subrange(from as int, i as int),
        decreases to - i,
    {
        text.push(chars[i]);
        i += 1;
        assert(chars@.subrange(from as int, i as int) == chars@.subrange(
            from as int,
            i - 1,
        ).push(chars@[i - 1]));
    }
    text
}

pub fn from_chars(chars: &Vec<char>) -> (text: String)
    ensures
        text@ == chars@,
{
    let text = text_between(chars, 0, chars.len());
    assert(chars@.subrange(0, chars@.len() as int) == chars@);
    text
}

/// Whether two texts are the same.
pub fn same_text(left: &str, right: &str) -> (same: bool)
    ensures
        same == (left@ == right@),
{
    let a = left.as_bytes();
    let b = right.as_bytes();
    if a.len() != b.len() {
        return false;
    }
    let mut i: usize = 0;
    while i < a.len()
        invariant
            a@ == left.spec_bytes(),
            b@ == right.spec_bytes(),
            a@.len() == b@.len(),
            i <= a@.len(),
            a@.take(i as int) == b@.take(i as int),
        decreases a@.len() - i,
    {
        if a[i] != b[i] {
            return false;
        }
        i += 1;
        assert(a@.take(i as int) == a@.take(i - 1).push(a@[i - 1]));
        assert(b@.take(i as int) == b@.take(i - 1).push(b@[i - 1]));
    }
    assert(a@.take(a@.len() as int) == a@);
    assert(b@.take(b@.len() as int) == b@);
    proof {
        encode_utf8_decode_utf8(left@);
        encode_utf8_decode_utf8(right@);
    }
    true
}

/// The text of some bytes, where they are well-formed UTF-8.
pub open spec fn utf8_text(bytes: Seq<u8>) -> Option<Seq<char>> {
    if valid_utf8(bytes) {
        Some(decode_utf8(bytes))
    } else {
        None
    }
}

pub open spec fn text_option(text: Option<String>) -> Option<Seq<char>> {
    match text {
        Some(t) => Some(t@),
        None => None,
    }
}

pub fn parse_utf8(bytes: &[u8]) -> (text: Option<String>)
    ensures
        text_option(text) == utf8_text(bytes@),
{
    broadcast use vstd::utf8::encode_utf8_decode_utf8;

    match core::str::from_utf8(bytes) {
        Ok(t) => Some(t.to_owned()),
        Err(_) => None,
    }
}

pub fn to_ascii_lower(text: &str) -> (lower: String)
    ensures
        lower@ == ascii_lower(text@),
{
    let mut lower: String = String::new();
    for c in it: text.chars()
        invariant
            lower@ == ascii_lower(text@.take(it.index())),
            it.seq() == text@,
    {
        lower.push(to_lower_char(c));
        assert(ascii_lower(text@.take(it.index() + 1)) == ascii_lower(
            text@.take(it.index()),
        ).push(lower_char(c)));
    }
    assert(text@.take(text@.len() as int) == text@);
    lower
}

pub fn to_ascii_upper(text: &str) -> (upper: String)
    ensures
        upper@ == ascii_upper(text@),
{
    let mut upper: String = String::new();
    for c in it: text.chars()
        invariant
            upper@ == ascii_upper(text@.take(it.index())),
            it.seq() == text@,
    {
        upper.push(to_upper_char(c));
        assert(ascii_upper(text@.take(it.index() + 1)) == ascii_upper(
            text@.take(it.index()),
        ).push(upper_char(c)));
    }
    assert(text@.take(text@.len() as int) == text@);
    upper
}

// ---------------------------------------------------------------------------
// White space
// ---------------------------------------------------------------------------

/// The text without the white space at its end.
pub open spec fn trim_end(text: Seq<char>) -> Seq<char>
    decreases text.len(),
{
    if text.len() > 0 && is_white_space(text.last()) {
        trim_end(text.drop_last())
    } else {
        text
    }
}

/// The text without the white space at its start.
pub open spec fn trim_start(text: Seq<char>) -> Seq<char>
    decreases text.len(),
{
    if text.len() > 0 && is_white_space(text.first()) {
        trim_start(text.drop_first())
    } else {
        text
    }
}

/// The text without the white space at either end.
pub open spec fn trim(text: Seq<char>) -> Seq<char> {
    trim_start(trim_end(text))
}

/// The part of `chars` up to the end of its last character that is no white
/// space, as its length.
pub fn trimmed_end(chars: &Vec<char>) -> (end: usize)
    ensures
        end <= chars@.len(),
        chars@.take(end as int) == trim_end(chars@),
{
    let mut end: usize = chars.len();
    assert(chars@.take(end as int) == chars@);
    while end > 0 && white_space(chars[end - 1])
        invariant
            end <= chars@.len(),
            trim_end(chars@.take(end as int)) == trim_end(chars@),
        decreases end,
    {
        assert(chars@.take(end as int).drop_last() == chars@.take(end - 1));
        end -= 1;
    }
    end
}

/// `str::trim` on characters.
pub fn trim_chars(chars: &Vec<char>) -> (text: String)
    ensures
        text@ == trim(chars@),
{
    let end: usize = trimmed_end(chars);
    let ghost whole = chars@.take(end as int);
    let mut start: usize = 0;
    assert(whole.skip(0) == whole);
    while start < end && white_space(chars[start])
        invariant
            start <= end <= chars@.len(),
            whole == chars@.take(end as int),
            trim_start(whole.skip(start as int)) == trim_start(whole),
        decreases end - start,
    {
        assert(whole.skip(start as int).drop_first() == whole.skip(start + 1));
        start += 1;
    }
    assert(chars@.subrange(start as int, end as int) == whole.skip(start as int));
    text_between(chars, start, end)
}

pub fn trim_text(text: &str) -> (trimmed: String)
    ensures
        trimmed@ == trim(text@),
{
    trim_chars(&to_chars(text))
}

/// A trimmed text has no white space at its ends.
pub proof fn lemma_trim_ends(text: Seq<char>)
    ensures
        trim(text).len() > 0 ==> !is_white_space(trim(text).first()) && !is_white_space(
            trim(text).last(),
        ),
        trim(text).len() <= text.len(),
{
    lemma_trim_end_ends(text);
    lemma_trim_start_ends(trim_end(text));
}

proof fn lemma_trim_end_ends(text: Seq<char>)
    ensures
        trim_end(text).len() > 0 ==> !is_white_space(trim_end(text).last()),
        trim_end(text).len() <= text.len(),
    decreases text.len(),
{
    if text.len() > 0 && is_white_space(text.last()) {
        lemma_trim_end_ends(text.drop_last());
    }
}

proof fn lemma_trim_start_ends(text: Seq<char>)
    ensures
        trim_start(text).len() > 0 ==> !is_white_space(trim_start(text).first()),
        trim_start(text).len() > 0 ==> trim_start(text).last() == text.last(),
        trim_start(text).len() <= text.len(),
    decreases text.len(),
{
    if text.len() > 0 && is_white_space(text.first()) {
        lemma_trim_start_ends(text.drop_first());
        assert(text.drop_first().len() > 0 ==> text.drop_first().last() == text.last());
    }
}

proof fn lemma_trim_end_part(text: Seq<char>) -> (to: int)
    ensures
        0 <= to <= text.len(),
        trim_end(text) == text.take(to),
        forall|i: int| to <= i < text.len() ==> is_white_space(#[trigger] text[i]),
    decreases text.len(),
{
    if text.len() > 0 && is_white_space(text.last()) {
        let init = text.drop_last();
        let to = lemma_trim_end_part(init);
        assert(init.take(to) =~= text.take(to));
        assert forall|i: int| to <= i < text.len() implies is_white_space(#[trigger] text[i]) by {
            if i < init.len() {
                assert(init[i] == text[i]);
            }
        }
        to
    } else {
        assert(text.take(text.len() as int) =~= text);
        text.len() as int
    }
}

proof fn lemma_trim_start_part(text: Seq<char>) -> (from: int)
    ensures
        0 <= from <= text.len(),
        trim_start(text) == text.skip(from),
        forall|i: int| 0 <= i < from ==> is_white_space(#[trigger] text[i]),
    decreases text.len(),
{
    if text.len() > 0 && is_white_space(text.first()) {
        let rest = text.drop_first();
        let from = lemma_trim_start_part(rest);
        assert(rest.skip(from) =~= text.skip(from + 1));
        assert forall|i: int| 0 <= i < from + 1 implies is_white_space(#[trigger] text[i]) by {
            if i > 0 {
                assert(rest[i - 1] == text[i]);
            }
        }
        from + 1
    } else {
        assert(text.skip(0) =~= text);
        0
    }
}

/// What trimming leaves is a part of the text, with nothing but white space around
/// it.
pub proof fn lemma_trim_part(text: Seq<char>) -> (part: (int, int))
    ensures
        0 <= part.0 <= part.1 <= text.len(),
        trim(text) == text.subrange(part.0, part.1),
        forall|i: int|
            0 <= i < part.0 || part.1 <= i < text.len() ==> is_white_space(#[trigger] text[i]),
{
    let to = lemma_trim_end_part(text);
    let kept = text.take(to);
    let from = lemma_trim_start_part(kept);
    assert(kept.skip(from) =~= text.subrange(from, to));
    assert(forall|i: int| 0 <= i < to ==> kept[i] == text[i]);
    (from, to)
}

/// Trimming a trimmed text changes nothing.
pub proof fn law_trim_idempotent(text: Seq<char>)
    ensures
        trim(trim(text)) == trim(text),
{
    lemma_trim_ends(text);
}

// ---------------------------------------------------------------------------
// Lines
// ---------------------------------------------------------------------------

/// Where the first newline stands, or the length of the text if it has none.
pub open spec fn newline_at(text: Seq<char>) -> int
    decreases text.len(),
{
    if text.len() == 0 || text[0] == '\n' {
        0
    } else {
        1 + newline_at(text.drop_first())
    }
}

/// A line without the carriage return that belongs to its line ending.
pub open spec fn without_return(line: Seq<char>) -> Seq<char> {
    if line.len() > 0 && line.last() == '\r' {
        line.drop_last()
    } else {
        line
    }
}

/// The lines of a text. A line ends with a newline, with or without a carriage
/// return before it; at the end of the text no line ending is needed.
pub open spec fn text_lines(text: Seq<char>) -> Seq<Seq<char>>
    decreases text.len(),
    via text_lines_decreases
{
    if text.len() == 0 {
        Seq::empty()
    } else if newline_at(text) == text.len() {
        seq![text]
    } else {
        seq![without_return(text.take(newline_at(text)))] + text_lines(
            text.skip(newline_at(text) + 1),
        )
    }
}

#[via_fn]
proof fn text_lines_decreases(text: Seq<char>) {
    lemma_newline_at(text);
}

pub proof fn lemma_newline_at(text: Seq<char>)
    ensures
        0 <= newline_at(text) <= text.len(),
        newline_at(text) < text.len() ==> text[newline_at(text)] == '\n',
        forall|i: int| 0 <= i < newline_at(text) ==> text[i] != '\n',
    decreases text.len(),
{
    if text.len() > 0 && text[0] != '\n' {
        lemma_newline_at(text.drop_first());
        assert forall|i: int| 0 <= i < newline_at(text) implies text[i] != '\n' by {
            if i > 0 {
                assert(text[i] == text.drop_first()[i - 1]);
            }
        }
    }
}

proof fn lemma_newline_at_is(text: Seq<char>, n: int)
    requires
        0 <= n <= text.len(),
        forall|i: int| 0 <= i < n ==> text[i] != '\n',
        n < text.len() ==> text[n] == '\n',
    ensures
        newline_at(text) == n,
{
    lemma_newline_at(text);
}

pub open spec fn views(lines: Seq<Vec<char>>) -> Seq<Seq<char>> {
    lines.map_values(|line: Vec<char>| line@)
}

/// `str::lines`, each line as its characters.
pub fn split_lines(text: &str) -> (lines: Vec<Vec<char>>)
    ensures
        views(lines@) == text_lines(text@),
{
    let chars = to_chars(text);
    let mut lines: Vec<Vec<char>> = Vec::new();
    let mut start: usize = 0;
    assert(chars@.skip(0) == chars@);
    assert(views(lines@) + text_lines(chars@) == text_lines(chars@));
    while start < chars.len()
        invariant
            start <= chars@.len(),
            views(lines@) + text_lines(chars@.skip(start as int)) == text_lines(chars@),
        decreases chars@.len() - start,
    {
        let ghost rest = chars@.skip(start as int);
        let mut end: usize = start;
        while end < chars.len() && chars[end] != '\n'
            invariant
                start <= end <= chars@.len(),
                rest == chars@.skip(start as int),
                forall|i: int| 0 <= i < end - start ==> rest[i] != '\n',
            decreases chars@.len() - end,
        {
            end += 1;
        }
        proof {
            lemma_newline_at_is(rest, end - start);
        }
        let ended = end < chars.len();
        let mut stop: usize = end;
        if ended && stop > start && chars[stop - 1] == '\r' {
            stop -= 1;
        }
        let line = chars_between(&chars, start, stop);
        let ghost before = views(lines@);
        lines.push(line);
        assert(views(lines@) == before.push(line@));
        if ended {
            assert(line@ == without_return(rest.take(end - start)));
            assert(rest.skip(end - start + 1) == chars@.skip(end + 1));
            start = end + 1;
            assert(before.push(line@) + text_lines(chars@.skip(start as int)) == before
                + text_lines(rest));
        } else {
            assert(line@ == rest);
            start = end;
            assert(chars@.skip(start as int).len() == 0);
            assert(before.push(line@) + text_lines(chars@.skip(start as int)) == before
                + text_lines(rest));
        }
    }
    assert(text_lines(chars@.skip(start as int)).len() == 0);
    lines
}

/// The characters from `from` up to `to`.
pub fn chars_between(chars: &Vec<char>, from: usize, to: usize) -> (part: Vec<char>)
    requires
        from <= to <= chars@.len(),
    ensures
        part@ == chars@.subrange(from as int, to as int),
{
    let mut part: Vec<char> = Vec::new();
    let mut i: usize = from;
    while i < to
        invariant
            from <= i <= to <= chars@.len(),
            part@ == chars@.subrange(from as int, i as int),
        decreases to - i,
    {
        part.push(chars[i]);
        i += 1;
    }
    part
}

// ---------------------------------------------------------------------------
// Numbers
// ---------------------------------------------------------------------------

/// The character of a decimal digit.
pub open spec fn digit(d: nat) -> char {
    (0x30 + d) as u8 as char
}

/// A number in decimal, without leading zeros.
pub open spec fn decimal(n: nat) -> Seq<char>
    decreases n,
{
    if n < 10 {
        seq![digit(n)]
    } else {
        decimal(n / 10).push(digit(n % 10))
    }
}

pub fn push_decimal(text: &mut String, n: u64)
    ensures
        final(text)@ == old(text)@ + decimal(n as nat),
    decreases n,
{
    if n >= 10 {
        push_decimal(text, n / 10);
    }
    text.push((0x30 + (n % 10) as u8) as char);
    assert(text@ == old(text)@ + decimal(n as nat));
}

// ---------------------------------------------------------------------------
// Laws
// ---------------------------------------------------------------------------

/// Only ASCII letters have another case, the one 32 characters behind the other,
/// and each case of a letter has the same other one.
pub proof fn law_case(c: char)
    ensures
        'A' <= c <= 'Z' ==> lower_char(c) as u32 == c as u32 + 32,
        'a' <= c <= 'z' ==> upper_char(c) as u32 == c as u32 - 32,
        lower_char(c) != c ==> 'A' <= c <= 'Z' && upper_char(lower_char(c)) == c,
        upper_char(c) != c ==> 'a' <= c <= 'z' && lower_char(upper_char(c)) == c,
{
}

/// The case of a text changes character by character.
pub proof fn law_case_of_text(text: Seq<char>, i: int)
    requires
        0 <= i < text.len(),
    ensures
        ascii_lower(text).len() == text.len(),
        ascii_upper(text).len() == text.len(),
        ascii_lower(text)[i] == lower_char(text[i]),
        ascii_upper(text)[i] == upper_char(text[i]),
{
}

/// A text is made of its first line, a newline, perhaps with a carriage return
/// before it, and its other lines.
pub proof fn law_lines(line: Seq<char>, rest: Seq<char>)
    requires
        !line.contains('\n'),
    ensures
        text_lines(Seq::empty()) == Seq::<Seq<char>>::empty(),
        line.len() > 0 ==> text_lines(line) == seq![line],
        text_lines(line.push('\r').push('\n') + rest) == seq![line] + text_lines(rest),
        line.len() == 0 || line.last() != '\r' ==> text_lines(line.push('\n') + rest) == seq![line]
            + text_lines(rest),
{
    let plain = line.push('\n') + rest;
    let returned = line.push('\r').push('\n') + rest;
    assert(forall|i: int| 0 <= i < line.len() ==> line[i] != '\n') by {
        assert(forall|i: int| 0 <= i < line.len() ==> line.contains(line[i]));
    }
    if line.len() > 0 {
        lemma_newline_at_is(line, line.len() as int);
    }
    lemma_newline_at_is(plain, line.len() as int);
    lemma_newline_at_is(returned, line.len() as int + 1);
    assert(plain.take(line.len() as int) =~= line);
    assert(plain.skip(line.len() as int + 1) =~= rest);
    assert(returned.take(line.len() as int + 1) =~= line.push('\r'));
    assert(returned.take(line.len() as int + 1).drop_last() =~= line);
    assert(returned.skip(line.len() as int + 2) =~= rest);
}

/// The number that a text of decimal digits stands for.
pub open spec fn number_of(text: Seq<char>) -> nat
    decreases text.len(),
{
    if text.len() == 0 {
        0
    } else {
        10 * number_of(text.drop_last()) + (text.last() as u32 - '0' as u32) as nat
    }
}

/// A number in decimal reads as that number, and has no leading zero.
pub proof fn law_decimal(n: nat)
    ensures
        number_of(decimal(n)) == n,
        decimal(n).len() > 0,
        forall|i: int| 0 <= i < decimal(n).len() ==> '0' <= #[trigger] decimal(n)[i] <= '9',
        decimal(n)[0] == '0' ==> n == 0 && decimal(n).len() == 1,
    decreases n,
{
    let digits = decimal(n);
    assert(digit(n % 10) as u32 == 0x30 + n % 10);
    if n < 10 {
        reveal_with_fuel(number_of, 2);
        assert(digit(n) as u32 == 0x30 + n);
        assert(digits.drop_last().len() == 0);
    } else {
        let front = decimal(n / 10);
        law_decimal(n / 10);
        assert(digits.drop_last() =~= front);
        assert(digits[0] == front[0]);
        assert forall|i: int| 0 <= i < digits.len() implies '0' <= #[trigger] digits[i] <= '9' by {
            if i < front.len() {
                assert(digits[i] == front[i]);
            }
        }
    }
}

/// The characters that count as white space.
pub proof fn law_white_space(c: char)
    ensures
        is_white_space(c) <==> seq![
            '\t',
            '\n',
            '\u{b}',
            '\u{c}',
            '\r',
            ' ',
            '\u{85}',
            '\u{a0}',
            '\u{1680}',
            '\u{2000}',
            '\u{2001}',
            '\u{2002}',
            '\u{2003}',
            '\u{2004}',
            '\u{2005}',
            '\u{2006}',
            '\u{2007}',
            '\u{2008}',
            '\u{2009}',
            '\u{200a}',
            '\u{2028}',
            '\u{2029}',
            '\u{202f}',
            '\u{205f}',
            '\u{3000}',
        ].contains(c),
{
    let known = seq![
        '\t',
        '\n',
        '\u{b}',
        '\u{c}',
        '\r',
        ' ',
        '\u{85}',
        '\u{a0}',
        '\u{1680}',
        '\u{2000}',
        '\u{2001}',
        '\u{2002}',
        '\u{2003}',
        '\u{2004}',
        '\u{2005}',
        '\u{2006}',
        '\u{2007}',
        '\u{2008}',
        '\u{2009}',
        '\u{200a}',
        '\u{2028}',
        '\u{2029}',
        '\u{202f}',
        '\u{205f}',
        '\u{3000}',
    ];
    assert(known[0] == 0x09 as char && known[1] == 0x0a as char && known[2] == 0x0b as char);
    assert(known[3] == 0x0c as char && known[4] == 0x0d as char && known[5] == 0x20 as char);
    assert(known[6] == 0x85 as char && known[7] == 0xa0 as char && known[8] == 0x1680 as char);
    assert(known[9] == 0x2000 as char && known[10] == 0x2001 as char);
    assert(known[11] == 0x2002 as char && known[12] == 0x2003 as char);
    assert(known[13] == 0x2004 as char && known[14] == 0x2005 as char);
    assert(known[15] == 0x2006 as char && known[16] == 0x2007 as char);
    assert(known[17] == 0x2008 as char && known[18] == 0x2009 as char);
    assert(known[19] == 0x200a as char && known[20] == 0x2028 as char);
    assert(known[21] == 0x2029 as char && known[22] == 0x202f as char);
    assert(known[23] == 0x205f as char && known[24] == 0x3000 as char);
}

pub(crate) proof fn lemma_trim_end_of(text: Seq<char>, white: Seq<char>)
    requires
        text.len() == 0 || !is_white_space(text.last()),
        forall|i: int| 0 <= i < white.len() ==> is_white_space(#[trigger] white[i]),
    ensures
        trim_end(text + white) == text,
    decreases white.len(),
{
    if white.len() == 0 {
        assert(text + white =~= text);
    } else {
        assert((text + white).drop_last() =~= text + white.drop_last());
        lemma_trim_end_of(text, white.drop_last());
    }
}

proof fn lemma_trim_start_of(white: Seq<char>, text: Seq<char>)
    requires
        text.len() == 0 || !is_white_space(text.first()),
        forall|i: int| 0 <= i < white.len() ==> is_white_space(#[trigger] white[i]),
    ensures
        trim_start(white + text) == text,
    decreases white.len(),
{
    if white.len() == 0 {
        assert(white + text =~= text);
    } else {
        assert((white + text).drop_first() =~= white.drop_first() + text);
        lemma_trim_start_of(white.drop_first(), text);
    }
}

/// Trimming takes away all the white space around a text, and nothing else.
pub proof fn law_trim(before: Seq<char>, text: Seq<char>, behind: Seq<char>)
    requires
        forall|i: int| 0 <= i < before.len() ==> is_white_space(#[trigger] before[i]),
        forall|i: int| 0 <= i < behind.len() ==> is_white_space(#[trigger] behind[i]),
        text.len() > 0 ==> !is_white_space(text.first()) && !is_white_space(text.last()),
    ensures
        trim(before + text + behind) == text,
{
    if text.len() == 0 {
        let white = before + behind;
        assert(before + text + behind =~= Seq::empty() + white);
        lemma_trim_end_of(Seq::empty(), white);
    } else {
        lemma_trim_end_of(before + text, behind);
        lemma_trim_start_of(before, text);
    }
}

/// A further line, behind a newline, comes after the lines of a text that does not
/// end with one.
pub proof fn law_more_lines(text: Seq<char>, line: Seq<char>)
    requires
        text.len() > 0,
        text.last() != '\n',
        text.last() != '\r',
        line.len() > 0,
        !line.contains('\n'),
    ensures
        text_lines(text.push('\n') + line) == text_lines(text).push(line),
    decreases text.len(),
{
    law_lines(line, Seq::empty());
    lemma_newline_at(text);
    let n = newline_at(text);
    let all = text.push('\n') + line;
    if n == text.len() {
        assert(!text.contains('\n'));
        law_lines(text, line);
        law_lines(text, Seq::empty());
        assert(seq![text] + seq![line] =~= seq![text].push(line));
    } else {
        let rest = text.skip(n + 1);
        law_more_lines(rest, line);
        lemma_newline_at_is(all, n);
        assert(all.skip(n + 1) =~= rest.push('\n') + line);
        assert(all.take(n) =~= text.take(n));
        assert(text_lines(all) == seq![without_return(text.take(n))] + text_lines(rest).push(line));
        assert(text_lines(all) =~= text_lines(text).push(line));
    }
}

/// Bytes are read as the text that they encode, and as none where they encode none.
pub proof fn law_utf8_text(text: Seq<char>, bytes: Seq<u8>)
    ensures
        utf8_text(encode_utf8(text)) == Some(text),
        utf8_text(bytes) is Some <==> valid_utf8(bytes),
        utf8_text(bytes) matches Some(read) ==> encode_utf8(read) == bytes,
{
    encode_utf8_valid_utf8(text);
    encode_utf8_decode_utf8(text);
    if valid_utf8(bytes) {
        decode_utf8_encode_utf8(bytes);
    }
}

} // verus!
