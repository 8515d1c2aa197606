//! What the tile of a stored item says about it.

use vstd::prelude::*;
use vstd::string::*;

use crate::paths::{FilePath, PathView};
use crate::records::{RecordView, StoredImage, StoredImageKind};
use crate::text;
use crate::text::{same_text, to_ascii_upper, to_chars};

verus! {

broadcast use vstd::string::group_string_axioms;

// ---------------------------------------------------------------------------
// Sizes
// ---------------------------------------------------------------------------

/// A quotient, rounded to the nearest whole number, and to the even one of two
/// that are as near.
pub open spec fn round_half_even(dividend: nat, divisor: nat) -> nat {
    let quotient = dividend / divisor;
    let twice_rest = 2 * (dividend % divisor);
    if twice_rest < divisor || (twice_rest == divisor && quotient % 2 == 0) {
        quotient
    } else {
        quotient + 1
    }
}

/// Numbers below this one have 53 binary digits at most.
pub const EXACT_LIMIT: u128 = 0x20_0000_0000_0000;

/// The power of two that a number is counted in where only its 53 leading binary
/// digits are kept.
pub open spec fn counting_unit(n: nat) -> nat
    decreases n,
{
    if n < EXACT_LIMIT {
        1
    } else {
        2 * counting_unit(n / 2)
    }
}

/// The number rounded to 53 leading binary digits, as a 64-bit floating-point
/// number holds it.
pub open spec fn leading_digits(n: nat) -> nat {
    round_half_even(n, counting_unit(n)) * counting_unit(n)
}

/// The tenths of a unit in a number of bytes.
pub open spec fn tenths(byte_len: u64, unit: nat) -> nat {
    round_half_even(10 * leading_digits(byte_len as nat), unit)
}

/// A number of tenths with a decimal point.
pub open spec fn one_decimal(tenths: nat) -> Seq<char> {
    text::decimal(tenths / 10).push('.').push(text::digit(tenths % 10))
}

/// A number of bytes, in bytes, kilobytes or megabytes.
pub open spec fn byte_len_text(byte_len: u64) -> Seq<char> {
    if byte_len < 1024 {
        text::decimal(byte_len as nat) + " B"@
    } else if byte_len < 1024 * 1024 {
        one_decimal(tenths(byte_len, 1024)) + " KB"@
    } else {
        one_decimal(tenths(byte_len, 1024 * 1024)) + " MB"@
    }
}

fn rounded(dividend: u128, divisor: u128) -> (quotient: u128)
    requires
        0 < divisor <= 0x1000_0000_0000_0000,
        dividend < 0x1_0000_0000_0000_0000_0000,
    ensures
        quotient == round_half_even(dividend as nat, divisor as nat),
        quotient <= dividend + 1,
{
    let quotient: u128 = dividend / divisor;
    let twice_rest: u128 = 2 * (dividend % divisor);
    assert(quotient <= dividend) by (nonlinear_arith)
        requires
            0 < divisor,
            quotient == dividend / divisor,
    ;
    if twice_rest < divisor || (twice_rest == divisor && quotient % 2 == 0) {
        quotient
    } else {
        quotient + 1
    }
}

proof fn lemma_unit_bounds(n: nat)
    requires
        n < 0x1_0000_0000_0000_0000,
    ensures
        1 <= counting_unit(n) <= 2048,
        n < EXACT_LIMIT * counting_unit(n),
    decreases n,
{
    reveal_with_fuel(counting_unit, 13);
}

fn unit_of(n: u64) -> (unit: u128)
    ensures
        unit == counting_unit(n as nat),
        1 <= unit <= 2048,
        n < EXACT_LIMIT * unit,
    decreases n,
{
    proof {
        lemma_unit_bounds(n as nat);
    }
    if (n as u128) < EXACT_LIMIT {
        1
    } else {
        2 * unit_of(n / 2)
    }
}

fn to_leading_digits(n: u64) -> (kept: u128)
    ensures
        kept == leading_digits(n as nat),
        kept <= 0x1_0000_0000_0000_0000,
{
    let unit: u128 = unit_of(n);
    let count: u128 = rounded(n as u128, unit);
    assert(n as u128 / unit < EXACT_LIMIT) by (nonlinear_arith)
        requires
            1 <= unit,
            n < EXACT_LIMIT * unit,
    ;
    assert(count <= EXACT_LIMIT);
    assert(0 <= count * unit <= EXACT_LIMIT * 2048) by (nonlinear_arith)
        requires
            0 <= count <= EXACT_LIMIT,
            1 <= unit <= 2048,
    ;
    count * unit
}

/// A number of bytes, in bytes, kilobytes or megabytes.
pub fn format_byte_len(byte_len: u64) -> (shown: String)
    ensures
        shown@ == byte_len_text(byte_len),
{
    let mut shown: String = String::new();
    if byte_len < 1024 {
        text::push_decimal(&mut shown, byte_len);
        shown.append(" B");
        assert(shown@ =~= byte_len_text(byte_len));
        return shown;
    }
    let unit: u128 = if byte_len < 1024 * 1024 {
        1024
    } else {
        1024 * 1024
    };
    let kept: u128 = to_leading_digits(byte_len);
    let count: u128 = rounded(10 * kept, unit);
    assert(count / 10 <= u64::MAX) by {
        assert((10 * kept) / (unit as int) <= (10 * kept) / 1024) by (nonlinear_arith)
            requires
                unit >= 1024,
                kept >= 0,
        ;
    }
    text::push_decimal(&mut shown, (count / 10) as u64);
    shown.push('.');
    shown.push((0x30 + (count % 10) as u8) as char);
    assert(shown@ =~= one_decimal(count as nat));
    if byte_len < 1024 * 1024 {
        shown.append(" KB");
    } else {
        shown.append(" MB");
    }
    shown
}

// ---------------------------------------------------------------------------
// Badges, subtitles and previews
// ---------------------------------------------------------------------------

pub open spec fn first_chars(text: Seq<char>, count: int) -> Seq<char> {
    if text.len() <= count {
        text
    } else {
        text.take(count)
    }
}

/// The badge of a text: its extension, shortened and in upper case.
pub open spec fn text_badge(record: RecordView) -> Seq<char> {
    let extension = if record.file_extension == "markdown"@ {
        "md"@
    } else if record.file_extension == "text"@ {
        "txt"@
    } else {
        record.file_extension
    };
    text::ascii_upper(first_chars(extension, 4))
}

/// The badge of any other file: its extension, shortened and in upper case.
pub open spec fn plain_badge(record: RecordView) -> Seq<char> {
    text::ascii_upper(first_chars(record.file_extension, 5))
}

pub open spec fn text_subtitle(record: RecordView) -> Seq<char> {
    text_badge(record) + " • "@ + text::decimal(record.line_count as nat) + (if record.line_count
        == 1 {
        " line • "@
    } else {
        " lines • "@
    }) + byte_len_text(record.byte_len)
}

pub open spec fn plain_subtitle(record: RecordView) -> Seq<char> {
    plain_badge(record) + " file • "@ + byte_len_text(record.byte_len)
}

/// A width and a height.
pub open spec fn size_text(width: u32, height: u32) -> Seq<char> {
    text::decimal(width as nat).push('x') + text::decimal(height as nat)
}

/// The directory that a path lies in, or the path itself where that is nothing.
pub open spec fn path_preview(path: PathView) -> Seq<char> {
    match path.parent {
        Some(parent) if parent.len() > 0 => parent,
        _ => path.text,
    }
}

/// A line number with two digits at least.
pub open spec fn line_number(n: nat) -> Seq<char> {
    if n < 10 {
        seq!['0', text::digit(n)]
    } else {
        text::decimal(n)
    }
}

/// The numbers of some lines, one below the other.
pub open spec fn numbered(count: nat) -> Seq<char>
    decreases count,
{
    if count == 0 {
        Seq::empty()
    } else if count == 1 {
        line_number(1)
    } else {
        numbered((count - 1) as nat).push('\n') + line_number(count)
    }
}

/// The numbers of the lines of a preview; even an empty one has a first line.
pub open spec fn preview_numbers(preview: Seq<char>) -> Seq<char> {
    let count = text::text_lines(preview).len();
    numbered(
        if count == 0 {
            1
        } else {
            count
        },
    )
}

fn upper_start(extension: &str, count: usize) -> (badge: String)
    ensures
        badge@ == text::ascii_upper(first_chars(extension@, count as int)),
{
    let chars = to_chars(extension);
    let end: usize = if chars.len() <= count {
        chars.len()
    } else {
        count
    };
    let start = text::text_between(&chars, 0, end);
    assert(start@ =~= first_chars(extension@, count as int));
    to_ascii_upper(start.as_str())
}

/// The badge of a text.
pub fn text_file_badge(record: &StoredImage) -> (badge: String)
    ensures
        badge@ == text_badge(record@),
{
    let extension = record.file_extension.as_str();
    if same_text(extension, "markdown") {
        upper_start("md", 4)
    } else if same_text(extension, "text") {
        upper_start("txt", 4)
    } else {
        upper_start(extension, 4)
    }
}

/// The subtitle of a text: its kind, how many lines it has and how large it is.
pub fn text_file_subtitle(record: &StoredImage) -> (subtitle: String)
    ensures
        subtitle@ == text_subtitle(record@),
{
    let mut subtitle = text_file_badge(record);
    subtitle.append(" • ");
    text::push_decimal(&mut subtitle, record.line_count as u64);
    if record.line_count == 1 {
        subtitle.append(" line • ");
    } else {
        subtitle.append(" lines • ");
    }
    subtitle.append(format_byte_len(record.byte_len).as_str());
    subtitle
}

/// The badge of a file that is neither image nor text.
pub fn file_badge(record: &StoredImage) -> (badge: String)
    ensures
        badge@ == plain_badge(record@),
{
    upper_start(record.file_extension.as_str(), 5)
}

/// The subtitle of a file that is neither image nor text.
pub fn file_subtitle(record: &StoredImage) -> (subtitle: String)
    ensures
        subtitle@ == plain_subtitle(record@),
{
    let mut subtitle = file_badge(record);
    subtitle.append(" file • ");
    subtitle.append(format_byte_len(record.byte_len).as_str());
    subtitle
}

/// The directory that a path lies in, or the path itself where that is nothing.
pub fn compact_path_preview(path: &FilePath) -> (preview: String)
    ensures
        preview@ == path_preview(path@),
{
    match &path.parent {
        Some(parent) => {
            if parent.as_str().is_empty() {
                path.text.clone()
            } else {
                parent.clone()
            }
        },
        None => path.text.clone(),
    }
}

fn push_line_number(numbers: &mut String, n: u64)
    ensures
        final(numbers)@ == old(numbers)@ + line_number(n as nat),
{
    if n < 10 {
        numbers.push('0');
    }
    text::push_decimal(numbers, n);
    assert(numbers@ =~= old(numbers)@ + line_number(n as nat));
}

/// The numbers of the lines of a preview.
pub fn preview_line_numbers(preview: &str) -> (numbers: String)
    ensures
        numbers@ == preview_numbers(preview@),
{
    let lines = text::split_lines(preview);
    assert(lines@.len() == text::views(lines@).len());
    let count: usize = if lines.len() == 0 {
        1
    } else {
        lines.len()
    };
    let mut numbers: String = String::new();
    push_line_number(&mut numbers, 1);
    assert(numbers@ =~= numbered(1));
    let mut done: usize = 1;
    while done < count
        invariant
            1 <= done <= count,
            numbers@ == numbered(done as nat),
        decreases count - done,
    {
        numbers.push('\n');
        push_line_number(&mut numbers, done as u64 + 1);
        done += 1;
        assert(numbers@ =~= numbered(done as nat));
    }
    numbers
}

// ---------------------------------------------------------------------------
// Captions
// ---------------------------------------------------------------------------

/// The texts of a tile.
#[derive(Debug)]
pub struct Caption {
    pub title: String,
    pub subtitle: String,
    pub badge: String,
    pub preview: String,
    pub line_numbers: String,
}

#[verifier::ext_equal]
pub struct CaptionView {
    pub title: Seq<char>,
    pub subtitle: Seq<char>,
    pub badge: Seq<char>,
    pub preview: Seq<char>,
    pub line_numbers: Seq<char>,
}

impl View for Caption {
    type V = CaptionView;

    open spec fn view(&self) -> CaptionView {
        CaptionView {
            title: self.title@,
            subtitle: self.subtitle@,
            badge: self.badge@,
            preview: self.preview@,
            line_numbers: self.line_numbers@,
        }
    }
}

impl Clone for Caption {
    fn clone(&self) -> (copy: Self)
        ensures
            copy@ == self@,
    {
        Caption {
            title: self.title.clone(),
            subtitle: self.subtitle.clone(),
            badge: self.badge.clone(),
            preview: self.preview.clone(),
            line_numbers: self.line_numbers.clone(),
        }
    }
}

/// The texts of the tile of an item.
pub open spec fn caption_of(record: RecordView) -> CaptionView {
    CaptionView {
        title: record.display_name,
        subtitle: match record.kind {
            StoredImageKind::Gif => size_text(record.width, record.height) + " GIF"@,
            StoredImageKind::Raster => size_text(record.width, record.height),
            StoredImageKind::Text => text_subtitle(record),
            StoredImageKind::File => plain_subtitle(record),
        },
        badge: match record.kind {
            StoredImageKind::Gif => "GIF"@,
            StoredImageKind::Raster => text::ascii_upper(record.file_extension),
            StoredImageKind::Text => text_badge(record),
            StoredImageKind::File => plain_badge(record),
        },
        preview: match record.kind {
            StoredImageKind::File => path_preview(record.original_path),
            _ => record.text_preview,
        },
        line_numbers: match record.kind {
            StoredImageKind::Text => preview_numbers(record.text_preview),
            _ => Seq::empty(),
        },
    }
}

proof fn lemma_size_text(width: u32, height: u32)
    ensures
        size_text(width, height) == text::decimal(width as nat) + "x"@ + text::decimal(
            height as nat,
        ),
{
    reveal_strlit("x");
    assert(size_text(width, height) =~= text::decimal(width as nat) + "x"@ + text::decimal(
        height as nat,
    ));
}

proof fn lemma_short_badges()
    ensures
        text::ascii_upper(first_chars("md"@, 4)) == "MD"@,
        text::ascii_upper(first_chars("txt"@, 4)) == "TXT"@,
        "markdown"@ != "text"@,
{
    reveal_strlit("md");
    reveal_strlit("MD");
    reveal_strlit("txt");
    reveal_strlit("TXT");
    reveal_strlit("markdown");
    reveal_strlit("text");
    assert("markdown"@.len() == 8 && "text"@.len() == 4);
    assert(text::ascii_upper("md"@) =~= "MD"@);
    assert(text::ascii_upper("txt"@) =~= "TXT"@);
}

fn format_size(width: u32, height: u32) -> (size: String)
    ensures
        size@ == size_text(width, height),
{
    let mut size: String = String::new();
    text::push_decimal(&mut size, width as u64);
    size.push('x');
    text::push_decimal(&mut size, height as u64);
    assert(size@ =~= size_text(width, height));
    size
}

/// The texts of the tile of an item.
pub fn caption(record: &StoredImage) -> (caption: Caption)
    ensures
        caption@ == caption_of(record@),
        caption.title@ == record.display_name@,
        record.kind == StoredImageKind::Raster ==> caption.subtitle@ == text::decimal(
            record.width as nat,
        ) + "x"@ + text::decimal(record.height as nat),
        record.kind == StoredImageKind::Gif ==> caption.subtitle@ == text::decimal(
            record.width as nat,
        ) + "x"@ + text::decimal(record.height as nat) + " GIF"@,
        record.kind == StoredImageKind::Text ==> caption.subtitle@ == caption.badge@ + " • "@
            + text::decimal(record.line_count as nat) + (if record.line_count == 1 {
            " line • "@
        } else {
            " lines • "@
        }) + byte_len_text(record.byte_len),
        record.kind == StoredImageKind::File ==> caption.subtitle@ == caption.badge@
            + " file • "@ + byte_len_text(record.byte_len),
        record.kind == StoredImageKind::Raster ==> caption.badge@ == text::ascii_upper(
            record.file_extension@,
        ),
        record.kind == StoredImageKind::Gif ==> caption.badge@ == "GIF"@,
        record.kind == StoredImageKind::File && record.file_extension@.len() <= 5
            ==> caption.badge@ == text::ascii_upper(record.file_extension@),
        record.kind == StoredImageKind::File && record.file_extension@.len() > 5
            ==> caption.badge@ == text::ascii_upper(record.file_extension@.take(5)),
        record.kind == StoredImageKind::Text && record.file_extension@ == "markdown"@
            ==> caption.badge@ == "MD"@,
        record.kind == StoredImageKind::Text && record.file_extension@ == "text"@
            ==> caption.badge@ == "TXT"@,
        record.kind == StoredImageKind::Text && record.file_extension@ != "markdown"@
            && record.file_extension@ != "text"@ ==> caption.badge@ == text::ascii_upper(
            if record.file_extension@.len() <= 4 {
                record.file_extension@
            } else {
                record.file_extension@.take(4)
            },
        ),
        record.kind == StoredImageKind::File ==> match record.original_path@.parent {
            Some(parent) => caption.preview@ == if parent.len() > 0 {
                parent
            } else {
                record.original_path@.text
            },
            None => caption.preview@ == record.original_path@.text,
        },
        record.kind != StoredImageKind::File ==> caption.preview@ == record.text_preview@,
        record.kind != StoredImageKind::Text ==> caption.line_numbers@.len() == 0,
        record.kind == StoredImageKind::Text ==> caption.line_numbers@ == preview_numbers(
            record.text_preview@,
        ),
{
    proof {
        lemma_size_text(record.width, record.height);
        lemma_short_badges();
    }
    let badge = match record.kind {
        StoredImageKind::Gif => "GIF".to_owned(),
        StoredImageKind::Raster => to_ascii_upper(record.file_extension.as_str()),
        StoredImageKind::Text => text_file_badge(record),
        StoredImageKind::File => file_badge(record),
    };
    let subtitle = match record.kind {
        StoredImageKind::Gif => {
            let mut size = format_size(record.width, record.height);
            size.append(" GIF");
            size
        },
        StoredImageKind::Raster => format_size(record.width, record.height),
        StoredImageKind::Text => text_file_subtitle(record),
        StoredImageKind::File => file_subtitle(record),
    };
    let preview = match record.kind {
        StoredImageKind::File => compact_path_preview(&record.original_path),
        _ => record.text_preview.clone(),
    };
    let line_numbers = match record.kind {
        StoredImageKind::Text => preview_line_numbers(record.text_preview.as_str()),
        _ => String::new(),
    };
    let caption = Caption {
        title: record.display_name.clone(),
        subtitle,
        badge,
        preview,
        line_numbers,
    };
    assert(caption@ =~= caption_of(record@));
    caption
}

// ---------------------------------------------------------------------------
// Laws
// ---------------------------------------------------------------------------

/// The tile of an image says how wide and how high it is, in this order, and that of
/// an animation that it is one.
pub proof fn law_image_subtitle(record: RecordView)
    ensures
        record.kind == StoredImageKind::Raster ==> caption_of(record).subtitle == text::decimal(
            record.width as nat,
        ) + "x"@ + text::decimal(record.height as nat),
        record.kind == StoredImageKind::Gif ==> caption_of(record).subtitle == text::decimal(
            record.width as nat,
        ) + "x"@ + text::decimal(record.height as nat) + " GIF"@,
{
    lemma_size_text(record.width, record.height);
}

/// A rounded quotient is nearest to the exact one, and even where two are as near.
pub proof fn law_round_half_even(dividend: nat, divisor: nat)
    requires
        divisor > 0,
    ensures
        ({
            let rounded = round_half_even(dividend, divisor);
            &&& 2 * dividend <= 2 * (rounded * divisor) + divisor
            &&& 2 * (rounded * divisor) <= 2 * dividend + divisor
            &&& 2 * dividend == 2 * (rounded * divisor) + divisor || 2 * (rounded * divisor) == 2
                * dividend + divisor ==> rounded % 2 == 0
        }),
{
    let quotient = dividend / divisor;
    let rest = dividend % divisor;
    assert(dividend == quotient * divisor + rest && 0 <= rest < divisor) by (nonlinear_arith)
        requires
            divisor > 0,
            quotient == dividend / divisor,
            rest == dividend % divisor,
    ;
    assert((quotient + 1) * divisor == quotient * divisor + divisor) by (nonlinear_arith);
}

/// The number of tenths that a text such as `12.5` stands for.
pub open spec fn tenths_of(text: Seq<char>) -> nat {
    text::number_of(text.take(text.len() - 2).push(text.last()))
}

/// Fewer than 1024 bytes are counted one by one. More are given in units of 1024
/// bytes, or of 1024 times 1024 where they are as many, to the nearest tenth, and to
/// the even one of two that are as near. Of a number of bytes only the leading digits
/// count.
pub proof fn law_byte_len(byte_len: u64) -> (shown: Seq<char>)
    ensures
        byte_len < 1024 ==> byte_len_text(byte_len) == shown + " B"@ && shown == text::decimal(
            byte_len as nat,
        ),
        1024 <= byte_len < 1048576 ==> byte_len_text(byte_len) == shown + " KB"@,
        1048576 <= byte_len ==> byte_len_text(byte_len) == shown + " MB"@,
        byte_len >= 1024 ==> shown.len() >= 3 && shown[shown.len() - 2] == '.' && ({
            let unit: int = if byte_len < 1048576 {
                1024
            } else {
                1048576
            };
            let exact = 20 * leading_digits(byte_len as nat);
            let twice = 2 * (tenths_of(shown) * unit);
            &&& exact - unit <= twice <= exact + unit
            &&& twice == exact - unit || twice == exact + unit ==> tenths_of(shown) % 2 == 0
        }),
{
    if byte_len >= 1024 {
        let unit: nat = if byte_len < 1048576 {
            1024
        } else {
            1048576
        };
        assert(1024 * 1024 == 1048576);
        let count = tenths(byte_len, unit);
        law_round_half_even((10 * leading_digits(byte_len as nat)) as nat, unit);
        lemma_one_decimal(count);
        one_decimal(count)
    } else {
        text::decimal(byte_len as nat)
    }
}

proof fn lemma_one_decimal(tenths: nat)
    ensures
        one_decimal(tenths).len() >= 3,
        one_decimal(tenths)[one_decimal(tenths).len() - 2] == '.',
        tenths_of(one_decimal(tenths)) == tenths,
{
    let shown = one_decimal(tenths);
    let whole = text::decimal(tenths / 10);
    text::law_decimal(tenths / 10);
    let digits = shown.take(shown.len() - 2).push(shown.last());
    assert(shown.take(shown.len() - 2) =~= whole);
    assert(digits.drop_last() =~= whole);
    assert(text::digit(tenths % 10) as u32 == 0x30 + tenths % 10);
}

/// The leading digits of a number are the number itself where it has 53 binary digits
/// at most, and otherwise the multiple of a power of two that is nearest to it and has
/// as many digits besides; of two that are as near, the even multiple.
pub proof fn law_leading_digits(n: nat, unit: nat, count: nat)
    requires
        seq![1nat, 2, 4, 8, 16, 32, 64, 128, 256, 512, 1024, 2048].contains(unit),
        n < 0x20_0000_0000_0000 * unit,
        unit > 1 ==> n >= 0x10_0000_0000_0000 * unit,
        2 * n <= 2 * (count * unit) + unit,
        2 * (count * unit) <= 2 * n + unit,
        2 * n == 2 * (count * unit) + unit || 2 * (count * unit) == 2 * n + unit ==> count % 2 == 0,
    ensures
        leading_digits(n) == count * unit,
        unit == 1 ==> leading_digits(n) == n,
{
    let units = seq![1nat, 2, 4, 8, 16, 32, 64, 128, 256, 512, 1024, 2048];
    let k = choose|k: int| 0 <= k < units.len() && units[k] == unit;
    assert(units[k] == unit);
    lemma_unit_is(n, unit);
    law_round_half_even(n, unit);
    let rounded = round_half_even(n, unit);
    if rounded != count {
        if rounded > count {
            assert(rounded * unit >= count * unit + unit) by (nonlinear_arith)
                requires
                    rounded >= count + 1,
                    unit >= 0,
            ;
            assert(rounded == count + 1) by (nonlinear_arith)
                requires
                    rounded > count,
                    unit >= 1,
                    2 * (rounded * unit) <= 2 * n + unit,
                    2 * n <= 2 * (count * unit) + unit,
            ;
        } else {
            assert(count * unit >= rounded * unit + unit) by (nonlinear_arith)
                requires
                    count >= rounded + 1,
                    unit >= 0,
            ;
            assert(count == rounded + 1) by (nonlinear_arith)
                requires
                    count > rounded,
                    unit >= 1,
                    2 * (count * unit) <= 2 * n + unit,
                    2 * n <= 2 * (rounded * unit) + unit,
            ;
        }
    }
}

proof fn lemma_unit_is(n: nat, unit: nat)
    requires
        unit == 1 || unit == 2 || unit == 4 || unit == 8 || unit == 16 || unit == 32 || unit == 64
            || unit == 128 || unit == 256 || unit == 512 || unit == 1024 || unit == 2048,
        n < 0x20_0000_0000_0000 * unit,
        unit > 1 ==> n >= 0x10_0000_0000_0000 * unit,
    ensures
        counting_unit(n) == unit,
    decreases unit,
{
    if unit > 1 {
        lemma_unit_is(n / 2, unit / 2);
    }
}

proof fn lemma_numbered(count: nat)
    requires
        count > 0,
    ensures
        numbered(count).len() > 0,
        numbered(count).last() != '\n',
        !numbered(count).contains('\r'),
        text::text_lines(numbered(count)).len() == count,
        forall|i: int|
            0 <= i < count ==> #[trigger] text::text_lines(numbered(count))[i] == line_number(
                (i + 1) as nat,
            ),
    decreases count,
{
    lemma_line_number(count);
    text::law_lines(line_number(count), Seq::empty());
    if count > 1 {
        let before = (count - 1) as nat;
        lemma_numbered(before);
        let start = numbered(before).push('\n');
        let number = line_number(count);
        assert(number.contains(number.last()));
        assert(numbered(before).contains(numbered(before).last()));
        text::law_more_lines(numbered(before), number);
        assert forall|i: int| 0 <= i < numbered(count).len() implies #[trigger] numbered(count)[i]
            != '\r' by {
            if i < numbered(before).len() {
                assert(numbered(before).contains(numbered(before)[i]));
            } else if i >= start.len() {
                assert(number.contains(number[i - start.len()]));
            }
        }
    } else {
        assert(line_number(count).contains(line_number(count).last()));
    }
}

proof fn lemma_line_number(n: nat)
    ensures
        line_number(n).len() >= 2,
        !line_number(n).contains('\n'),
        !line_number(n).contains('\r'),
        text::number_of(line_number(n)) == n,
{
    let shown = line_number(n);
    text::law_decimal(n);
    if n < 10 {
        reveal_with_fuel(text::number_of, 3);
        assert(text::digit(n) as u32 == 0x30 + n);
        assert(shown.drop_last() =~= seq!['0']);
        assert(shown.drop_last().drop_last().len() == 0);
    } else {
        if text::decimal(n).len() == 1 {
            reveal_with_fuel(text::number_of, 2);
            assert(text::decimal(n).drop_last().len() == 0);
        }
    }
    assert forall|i: int| 0 <= i < shown.len() implies '0' <= #[trigger] shown[i] <= '9' by {
        if n >= 10 {
            assert(shown[i] == text::decimal(n)[i]);
        } else {
            assert(text::digit(n) as u32 == 0x30 + n);
        }
    }
}

/// The lines of a preview are numbered from 1, one number to a line and with two
/// digits at least; even an empty preview has a first line.
pub proof fn law_line_numbers(preview: Seq<char>)
    ensures
        ({
            let numbers = text::text_lines(preview_numbers(preview));
            let lines = text::text_lines(preview);
            &&& numbers.len() == if lines.len() == 0 {
                1
            } else {
                lines.len()
            }
            &&& forall|i: int|
                0 <= i < numbers.len() ==> (#[trigger] numbers[i]).len() >= 2 && text::number_of(
                    numbers[i],
                ) == i + 1
            &&& forall|i: int|
                0 <= i < numbers.len() ==> #[trigger] numbers[i] == if i < 9 {
                    seq!['0'] + text::decimal((i + 1) as nat)
                } else {
                    text::decimal((i + 1) as nat)
                }
        }),
        preview_numbers(preview).last() != '\n',
        !preview_numbers(preview).contains('\r'),
{
    let count: nat = if text::text_lines(preview).len() == 0 {
        1
    } else {
        text::text_lines(preview).len()
    };
    lemma_numbered(count);
    let numbers = text::text_lines(preview_numbers(preview));
    assert forall|i: int| 0 <= i < numbers.len() implies (#[trigger] numbers[i]).len() >= 2
        && text::number_of(numbers[i]) == i + 1 && numbers[i] == (if i < 9 {
        seq!['0'] + text::decimal((i + 1) as nat)
    } else {
        text::decimal((i + 1) as nat)
    }) by {
        lemma_line_number((i + 1) as nat);
        if i < 9 {
            assert(text::decimal((i + 1) as nat) == seq![text::digit((i + 1) as nat)]);
            assert(numbers[i] =~= seq!['0'] + text::decimal((i + 1) as nat));
        }
    }
}

} // verus!
