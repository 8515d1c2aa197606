//! The names and text excerpts under which stored items are shown.

use vstd::prelude::*;
use vstd::string::*;

use crate::text;
use crate::text::{
    from_chars, split_lines, text_between, to_chars, trim_text, trimmed_end,
};

verus! {

broadcast use vstd::string::group_string_axioms;

// ---------------------------------------------------------------------------
// Names
// ---------------------------------------------------------------------------

/// A display name: the trimmed name, or `Item` where nothing is left of it.
pub open spec fn display_name(name: Seq<char>) -> Seq<char> {
    if text::trim(name).len() == 0 {
        "Item"@
    } else {
        text::trim(name)
    }
}

/// The start of a hash by which an item is told from others.
pub open spec fn display_id(hash: Seq<char>) -> Seq<char> {
    text::unicode_uppercase(if hash.len() < 8 { hash } else { hash.take(8) })
}

pub fn normalize_display_name(name: &str) -> (normal: String)
    ensures
        normal@ == display_name(name@),
{
    let trimmed = trim_text(name);
    if trimmed.as_str().is_empty() {
        "Item".to_owned()
    } else {
        trimmed
    }
}

/// The first eight characters of a hash, in upper case.
pub fn short_display_id(hash: &str) -> (id: String)
    ensures
        id@ == display_id(hash@),
        vstd::utf8::is_ascii_chars(hash@) ==> id@ == text::ascii_upper(
            if hash@.len() < 8 { hash@ } else { hash@.take(8) },
        ),
{
    let chars = to_chars(hash);
    let count: usize = if chars.len() < 8 {
        chars.len()
    } else {
        8
    };
    let start = text_between(&chars, 0, count);
    assert(start@ == (if hash@.len() < 8 { hash@ } else { hash@.take(8) }));
    start.as_str().to_uppercase()
}

/// The display name of a stored item: what its metadata file holds, where that
/// could be read, or else a name made from its hash.
pub open spec fn stored_name(metadata: Option<Seq<char>>, hash: Seq<char>) -> Seq<char> {
    match metadata {
        Some(name) => display_name(name),
        None => "Item "@ + display_id(hash),
    }
}

pub fn load_display_name(metadata: &Option<String>, hash: &str) -> (name: String)
    ensures
        name@ == stored_name(text::text_option(*metadata), hash@),
        metadata is None ==> name@ == "Item "@ + text::unicode_uppercase(
            if hash@.len() < 8 { hash@ } else { hash@.take(8) },
        ),
        metadata matches Some(kept) && text::trim(kept@).len() > 0 ==> name@ == text::trim(
            metadata->0@,
        ),
        metadata matches Some(kept) && text::trim(kept@).len() == 0 ==> name@ == "Item"@,
{
    match metadata {
        Some(name) => normalize_display_name(name.as_str()),
        None => {
            let mut name = "Item ".to_owned();
            name.append(short_display_id(hash).as_str());
            name
        },
    }
}

/// A display name is never empty, has no white space at its ends, and is its own
/// display name.
pub proof fn law_display_name_normal(name: Seq<char>)
    ensures
        display_name(name).len() > 0,
        !text::is_white_space(display_name(name).first()),
        !text::is_white_space(display_name(name).last()),
        display_name(display_name(name)) == display_name(name),
{
    reveal_strlit("Item");
    text::lemma_trim_ends(name);
    text::law_trim_idempotent(name);
}

/// The name written to a metadata file is the name read back from it.
pub proof fn law_stored_name_round_trip(name: Seq<char>, hash: Seq<char>)
    ensures
        stored_name(Some(display_name(name)), hash) == display_name(name),
{
    law_display_name_normal(name);
}

// ---------------------------------------------------------------------------
// Excerpts
// ---------------------------------------------------------------------------

/// The most characters of a line that are shown.
pub const PREVIEW_LINE_CHARS: usize = 88;

/// The most lines that are shown.
pub const PREVIEW_LINES: usize = 8;

/// The text with each tab turned into four spaces.
pub open spec fn expand_tabs(text: Seq<char>) -> Seq<char>
    decreases text.len(),
{
    if text.len() == 0 {
        Seq::empty()
    } else if text.last() == '\t' {
        expand_tabs(text.drop_last()) + "    "@
    } else {
        expand_tabs(text.drop_last()).push(text.last())
    }
}

/// A line as it is shown: without trailing white space, tabs expanded, and cut
/// where it is long, with three dots in place of the rest.
pub open spec fn preview_line(line: Seq<char>) -> Seq<char> {
    let whole = expand_tabs(text::trim_end(line));
    if whole.len() > PREVIEW_LINE_CHARS {
        whole.take(PREVIEW_LINE_CHARS as int) + "..."@
    } else {
        whole
    }
}

pub open spec fn nonempty_line() -> spec_fn(Seq<char>) -> bool {
    |line: Seq<char>| line.len() > 0
}

/// The lines of a text that have something to show, as they are shown.
pub open spec fn shown_lines(text: Seq<char>) -> Seq<Seq<char>> {
    text::text_lines(text).map_values(|line: Seq<char>| preview_line(line)).filter(
        nonempty_line(),
    )
}

/// The lines with a newline between each two.
pub open spec fn join_lines(lines: Seq<Seq<char>>) -> Seq<char>
    decreases lines.len(),
{
    if lines.len() == 0 {
        Seq::empty()
    } else if lines.len() == 1 {
        lines[0]
    } else {
        join_lines(lines.drop_last()).push('\n') + lines.last()
    }
}

/// The excerpt of a text: its first eight lines that have something to show.
pub open spec fn text_preview(text: Seq<char>) -> Seq<char> {
    let shown = shown_lines(text);
    if shown.len() == 0 {
        "Empty file"@
    } else if shown.len() > PREVIEW_LINES {
        join_lines(shown.take(PREVIEW_LINES as int))
    } else {
        join_lines(shown)
    }
}

/// A line as it is shown in an excerpt.
pub fn compact_text_preview_line(line: &Vec<char>) -> (shown: String)
    ensures
        shown@ == preview_line(line@),
{
    let end = trimmed_end(line);
    let ghost kept = text::trim_end(line@);
    let mut whole: Vec<char> = Vec::new();
    let mut i: usize = 0;
    while i < end
        invariant
            i <= end <= line@.len(),
            kept == line@.take(end as int),
            whole@ == expand_tabs(kept.take(i as int)),
        decreases end - i,
    {
        if line[i] == '\t' {
            whole.push(' ');
            whole.push(' ');
            whole.push(' ');
            whole.push(' ');
        } else {
            whole.push(line[i]);
        }
        i += 1;
        proof {
            reveal_strlit("    ");
            assert(kept.take(i as int).drop_last() == kept.take(i - 1));
            assert(whole@ == expand_tabs(kept.take(i as int)));
        }
    }
    assert(kept.take(end as int) == kept);
    if whole.len() > PREVIEW_LINE_CHARS {
        let mut shown = text_between(&whole, 0, PREVIEW_LINE_CHARS);
        assert(shown@ == whole@.take(PREVIEW_LINE_CHARS as int));
        shown.append("...");
        shown
    } else {
        from_chars(&whole)
    }
}

/// The excerpt of a text.
pub fn build_text_preview(text: &str) -> (preview: String)
    ensures
        preview@ == text_preview(text@),
{
    let lines = split_lines(text);
    let ghost all = text::text_lines(text@).map_values(|line: Seq<char>| preview_line(line));
    let ghost mut kept: Seq<Seq<char>> = Seq::empty();
    let mut preview: String = String::new();
    let mut count: usize = 0;
    let mut i: usize = 0;
    proof {
        reveal(Seq::filter);
        assert(all.take(0) == Seq::<Seq<char>>::empty());
    }
    while i < lines.len() && count < PREVIEW_LINES
        invariant
            i <= lines@.len(),
            all.len() == lines@.len(),
            forall|j: int| 0 <= j < all.len() ==> #[trigger] all[j] == preview_line(lines@[j]@),
            kept == all.take(i as int).filter(nonempty_line()),
            kept.len() == count <= PREVIEW_LINES,
            preview@ == join_lines(kept),
            forall|j: int| 0 <= j < kept.len() ==> (#[trigger] kept[j]).len() > 0,
            count > 0 ==> preview@.len() > 0,
        decreases lines@.len() - i,
    {
        let line = compact_text_preview_line(&lines[i]);
        let ghost before = kept;
        proof {
            reveal(Seq::filter);
            assert(all.take(i + 1).drop_last() == all.take(i as int));
            assert(all.take(i + 1).last() == line@);
        }
        if !line.as_str().is_empty() {
            if count > 0 {
                preview.push('\n');
            }
            preview.append(line.as_str());
            count += 1;
            proof {
                kept = kept.push(line@);
                assert(kept.drop_last() == before);
                assert(preview@ == join_lines(kept));
            }
        }
        i += 1;
    }
    proof {
        let rest = all.skip(i as int);
        assert(all == all.take(i as int) + rest);
        Seq::filter_distributes_over_add(all.take(i as int), rest, nonempty_line());
        assert(shown_lines(text@) == kept + rest.filter(nonempty_line()));
        if i == lines@.len() {
            reveal(Seq::filter);
            assert(rest.filter(nonempty_line()) == Seq::<Seq<char>>::empty());
            assert(shown_lines(text@) == kept);
        } else {
            assert(shown_lines(text@).take(PREVIEW_LINES as int) == kept);
        }
    }
    if count == 0 {
        "Empty file".to_owned()
    } else {
        assert(shown_lines(text@).len() == PREVIEW_LINES ==> shown_lines(text@) == kept);
        preview
    }
}

// ---------------------------------------------------------------------------
// Laws of excerpts
// ---------------------------------------------------------------------------

/// A line that reads the same when it is written between newlines.
spec fn plain_line(line: Seq<char>) -> bool {
    line.len() > 0 && !line.contains('\n') && line.last() != '\r'
}

proof fn lemma_expand_tabs(text: Seq<char>)
    requires
        !text.contains('\n'),
    ensures
        !expand_tabs(text).contains('\n'),
        !expand_tabs(text).contains('\t'),
        text.len() > 0 ==> expand_tabs(text).len() > 0,
        text.len() > 0 && text.last() != '\t' ==> expand_tabs(text).last() == text.last(),
    decreases text.len(),
{
    reveal_strlit("    ");
    if text.len() > 0 {
        let init = text.drop_last();
        assert(!init.contains('\n')) by {
            assert(forall|i: int| 0 <= i < init.len() ==> init[i] == text[i]);
        }
        lemma_expand_tabs(init);
        assert(text.contains(text.last()));
    }
}

proof fn lemma_trim_end_plain(line: Seq<char>)
    requires
        !line.contains('\n'),
    ensures
        !text::trim_end(line).contains('\n'),
        text::trim_end(line).len() > 0 ==> !text::is_white_space(
            text::trim_end(line).last(),
        ),
    decreases line.len(),
{
    if line.len() > 0 && text::is_white_space(line.last()) {
        let init = line.drop_last();
        assert(!init.contains('\n')) by {
            assert(forall|i: int| 0 <= i < init.len() ==> init[i] == line[i]);
        }
        lemma_trim_end_plain(init);
    }
}

proof fn lemma_preview_line(line: Seq<char>)
    requires
        !line.contains('\n'),
    ensures
        preview_line(line).len() <= PREVIEW_LINE_CHARS + 3,
        preview_line(line).len() > 0 ==> plain_line(preview_line(line)),
        !preview_line(line).contains('\t'),
{
    reveal_strlit("...");
    let kept = text::trim_end(line);
    lemma_trim_end_plain(line);
    lemma_expand_tabs(kept);
    let whole = expand_tabs(kept);
    assert(forall|i: int| 0 <= i < whole.len() ==> whole.contains(whole[i]));
    if kept.len() == 0 {
        assert(whole.len() == 0);
    }
}

proof fn lemma_no_tabs(text: Seq<char>)
    ensures
        !expand_tabs(text).contains('\t'),
        text.len() > 0 ==> expand_tabs(text).len() > 0,
        text.len() > 0 && text.last() != '\t' ==> expand_tabs(text).last() == text.last(),
        !text.contains('\t') ==> expand_tabs(text) == text,
    decreases text.len(),
{
    reveal_strlit("    ");
    if text.len() > 0 {
        let init = text.drop_last();
        lemma_no_tabs(init);
        assert(text.contains(text.last()));
        if !text.contains('\t') {
            assert(!init.contains('\t')) by {
                assert(forall|i: int| 0 <= i < init.len() ==> init[i] == text[i]);
            }
            assert(init.push(text.last()) =~= text);
        }
    }
}

proof fn lemma_trim_end_blank(line: Seq<char>)
    ensures
        text::trim_end(line).len() == 0 <==> forall|i: int|
            0 <= i < line.len() ==> text::is_white_space(#[trigger] line[i]),
        text::trim_end(line).len() > 0 ==> !text::is_white_space(text::trim_end(line).last()),
    decreases line.len(),
{
    if line.len() > 0 {
        if text::is_white_space(line.last()) {
            let init = line.drop_last();
            lemma_trim_end_blank(init);
            assert(forall|i: int| 0 <= i < init.len() ==> init[i] == line[i]);
        } else {
            assert(!text::is_white_space(line[line.len() - 1]));
        }
    }
}

/// A line as it is shown has no tab and a limited length, is empty only where the
/// line is blank, and is shown as itself.
pub proof fn law_shown_line(line: Seq<char>)
    ensures
        !preview_line(line).contains('\t'),
        preview_line(line).len() <= PREVIEW_LINE_CHARS + 3,
        preview_line(line).len() == 0 <==> forall|i: int|
            0 <= i < line.len() ==> text::is_white_space(#[trigger] line[i]),
        preview_line(preview_line(line)) == preview_line(line),
{
    reveal_strlit("...");
    let kept = text::trim_end(line);
    let whole = expand_tabs(kept);
    let shown = preview_line(line);
    lemma_trim_end_blank(line);
    lemma_no_tabs(kept);
    assert(text::is_white_space('\t'));
    assert(!text::is_white_space('.'));
    assert forall|i: int| 0 <= i < shown.len() implies shown[i] != '\t' by {
        if i < whole.len() {
            assert(whole.contains(whole[i]));
        }
    }
    assert(text::trim_end(shown) == shown);
    lemma_no_tabs(shown);
    if whole.len() > PREVIEW_LINE_CHARS {
        assert(shown.take(PREVIEW_LINE_CHARS as int) =~= whole.take(PREVIEW_LINE_CHARS as int));
    }
}

proof fn lemma_lines_have_no_newline(text: Seq<char>)
    ensures
        forall|i: int|
            0 <= i < text::text_lines(text).len() ==> !(
            #[trigger] text::text_lines(text)[i]).contains('\n'),
    decreases text.len(),
{
    if text.len() > 0 {
        let n = text::newline_at(text);
        text::lemma_newline_at(text);
        if n < text.len() {
            lemma_lines_have_no_newline(text.skip(n + 1));
            let first = text::without_return(text.take(n));
            assert(forall|i: int| 0 <= i < first.len() ==> first[i] == text[i]);
            assert(!first.contains('\n'));
            assert(text::text_lines(text) == seq![first] + text::text_lines(text.skip(n + 1)));
        } else {
            assert(!text.contains('\n'));
            assert(text::text_lines(text) == seq![text]);
        }
    }
}

proof fn lemma_shown_lines(text: Seq<char>)
    ensures
        forall|i: int|
            0 <= i < shown_lines(text).len() ==> plain_line(#[trigger] shown_lines(text)[i]),
        forall|i: int|
            0 <= i < shown_lines(text).len() ==> (#[trigger] shown_lines(text)[i]).len()
                <= PREVIEW_LINE_CHARS + 3,
{
    let lines = text::text_lines(text);
    let all = lines.map_values(|line: Seq<char>| preview_line(line));
    lemma_lines_have_no_newline(text);
    broadcast use Seq::lemma_filter_pred;

    assert forall|i: int| 0 <= i < shown_lines(text).len() implies plain_line(
        #[trigger] shown_lines(text)[i],
    ) && shown_lines(text)[i].len() <= PREVIEW_LINE_CHARS + 3 by {
        let line = shown_lines(text)[i];
        assert(line.len() > 0);
        lemma_filter_member(all, nonempty_line(), i);
        let k = choose|k: int| 0 <= k < all.len() && all[k] == line;
        lemma_preview_line(lines[k]);
    }
}

proof fn lemma_filter_member<A>(s: Seq<A>, pred: spec_fn(A) -> bool, i: int)
    requires
        0 <= i < s.filter(pred).len(),
    ensures
        exists|k: int| 0 <= k < s.len() && s[k] == s.filter(pred)[i],
    decreases s.len(),
{
    reveal(Seq::filter);
    let rest = s.drop_last();
    if i < rest.filter(pred).len() {
        lemma_filter_member(rest, pred, i);
        let k = choose|k: int| 0 <= k < rest.len() && rest[k] == rest.filter(pred)[i];
        assert(s[k] == s.filter(pred)[i]);
    } else {
        assert(s[s.len() - 1] == s.filter(pred)[i]);
    }
}

/// Text that ends with a line ending is split where the next text begins.
proof fn lemma_lines_split(first: Seq<char>, second: Seq<char>)
    ensures
        text::text_lines(first.push('\n') + second) == text::text_lines(
            first.push('\n'),
        ) + text::text_lines(second),
    decreases first.len(),
{
    let ended = first.push('\n');
    let whole = ended + second;
    let n = text::newline_at(ended);
    text::lemma_newline_at(ended);
    text::lemma_newline_at(whole);
    assert(ended[first.len() as int] == '\n');
    assert(forall|i: int| 0 <= i < ended.len() ==> whole[i] == ended[i]);
    assert(text::newline_at(whole) == n);
    assert(whole.take(n) == ended.take(n));
    assert(whole.skip(n + 1) == ended.skip(n + 1) + second);
    if n < first.len() {
        let rest = first.skip(n + 1);
        assert(ended.skip(n + 1) == rest.push('\n'));
        lemma_lines_split(rest, second);
        assert(text::text_lines(whole) == text::text_lines(ended)
            + text::text_lines(second));
    } else {
        assert(ended.skip(n + 1) == Seq::<char>::empty());
        assert(ended.skip(n + 1) + second == second);
        assert(text::text_lines(ended.skip(n + 1)) == Seq::<Seq<char>>::empty());
        assert(text::text_lines(whole) == text::text_lines(ended)
            + text::text_lines(second));
    }
}

/// A last line that does not end with a carriage return needs no line ending.
proof fn lemma_lines_ended(text: Seq<char>)
    requires
        text.len() > 0,
        text.last() != '\r',
        text.last() != '\n',
    ensures
        text::text_lines(text.push('\n')) == text::text_lines(text),
    decreases text.len(),
{
    let ended = text.push('\n');
    let n = text::newline_at(text);
    text::lemma_newline_at(text);
    text::lemma_newline_at(ended);
    assert(forall|i: int| 0 <= i < text.len() ==> ended[i] == text[i]);
    assert(ended[text.len() as int] == '\n');
    assert(text::newline_at(ended) == n);
    if n < text.len() {
        assert(n < text.len() - 1);
        lemma_lines_ended(text.skip(n + 1));
        assert(ended.skip(n + 1) == text.skip(n + 1).push('\n'));
        assert(ended.take(n) == text.take(n));
    } else {
        assert(ended.take(n) == text);
        assert(ended.skip(n + 1) == Seq::<char>::empty());
        assert(text::text_lines(ended.skip(n + 1)) == Seq::<Seq<char>>::empty());
        assert(text::text_lines(ended) == seq![text]);
    }
}

proof fn lemma_join_lines(lines: Seq<Seq<char>>)
    requires
        lines.len() > 0,
        forall|i: int| 0 <= i < lines.len() ==> plain_line(#[trigger] lines[i]),
    ensures
        join_lines(lines).len() > 0,
        join_lines(lines).last() == lines.last().last(),
        text::text_lines(join_lines(lines)) == lines,
    decreases lines.len(),
{
    assert(plain_line(lines.last()));
    assert(lines.last().contains(lines.last().last()));
    text::lemma_newline_at(lines.last());
    assert(text::newline_at(lines.last()) == lines.last().len());
    assert(text::text_lines(lines.last()) == seq![lines.last()]);
    if lines.len() == 1 {
        assert(lines == seq![lines.last()]);
    } else {
        let init = lines.drop_last();
        assert forall|i: int| 0 <= i < init.len() implies plain_line(#[trigger] init[i]) by {
            assert(init[i] == lines[i]);
        }
        lemma_join_lines(init);
        let start = join_lines(init);
        assert(plain_line(init.last()));
        assert(init.last().contains(init.last().last()));
        lemma_lines_split(start, lines.last());
        lemma_lines_ended(start);
        assert(init + seq![lines.last()] == lines);
    }
}

/// An excerpt is never empty and has at most eight lines, each of at most 91
/// characters.
pub proof fn law_text_preview_bounds(text: Seq<char>)
    ensures
        text_preview(text).len() > 0,
        1 <= text::text_lines(text_preview(text)).len() <= PREVIEW_LINES,
        forall|i: int|
            0 <= i < text::text_lines(text_preview(text)).len() ==> (
            #[trigger] text::text_lines(text_preview(text))[i]).len()
                <= PREVIEW_LINE_CHARS + 3,
{
    let shown = shown_lines(text);
    lemma_shown_lines(text);
    if shown.len() == 0 {
        reveal_strlit("Empty file");
        text::lemma_newline_at("Empty file"@);
        assert(text::text_lines("Empty file"@) == seq!["Empty file"@]);
    } else if shown.len() > PREVIEW_LINES {
        lemma_join_lines(shown.take(PREVIEW_LINES as int));
    } else {
        lemma_join_lines(shown);
    }
}

/// White space around a name does not count, and a name of nothing else becomes
/// `Item`.
pub proof fn law_display_name(before: Seq<char>, name: Seq<char>, behind: Seq<char>)
    requires
        forall|i: int| 0 <= i < before.len() ==> text::is_white_space(#[trigger] before[i]),
        forall|i: int| 0 <= i < behind.len() ==> text::is_white_space(#[trigger] behind[i]),
        name.len() > 0 ==> !text::is_white_space(name.first()) && !text::is_white_space(
            name.last(),
        ),
    ensures
        display_name(before + name + behind) == (if name.len() > 0 {
            name
        } else {
            "Item"@
        }),
{
    text::law_trim(before, name, behind);
}

/// Each tab becomes four spaces, and every other character stays as it is, in its
/// place.
pub proof fn law_expand_tabs(first: Seq<char>, c: char, second: Seq<char>)
    ensures
        expand_tabs(first + second) == expand_tabs(first) + expand_tabs(second),
        expand_tabs(seq!['\t']) == seq![' ', ' ', ' ', ' '],
        c != '\t' ==> expand_tabs(seq![c]) == seq![c],
        expand_tabs(Seq::empty()) == Seq::<char>::empty(),
    decreases second.len(),
{
    reveal_with_fuel(expand_tabs, 2);
    reveal_strlit("    ");
    assert(seq!['\t'].drop_last() =~= Seq::empty());
    assert(seq![c].drop_last() =~= Seq::empty());
    assert(expand_tabs(seq!['\t']) =~= seq![' ', ' ', ' ', ' ']);
    if second.len() == 0 {
        assert(first + second =~= first);
    } else {
        assert((first + second).drop_last() =~= first + second.drop_last());
        law_expand_tabs(first, c, second.drop_last());
        assert(expand_tabs(first + second) =~= expand_tabs(first) + expand_tabs(second));
    }
}

/// White space at the end of a line is not shown; what is left, with its tabs
/// expanded, is shown as it is up to 88 characters, and beyond that its first 88
/// followed by three dots.
pub proof fn law_preview_line(line: Seq<char>, white: Seq<char>)
    requires
        forall|i: int| 0 <= i < white.len() ==> text::is_white_space(#[trigger] white[i]),
        line.len() > 0 ==> !text::is_white_space(line.last()),
    ensures
        expand_tabs(line).len() <= 88 ==> preview_line(line + white) == expand_tabs(line),
        expand_tabs(line).len() > 88 ==> preview_line(line + white) == expand_tabs(line).take(88)
            + seq!['.', '.', '.'],
{
    text::lemma_trim_end_of(line, white);
    reveal_strlit("...");
    assert("..."@ =~= seq!['.', '.', '.']);
}

/// The lines of an excerpt are the first eight of the lines of the text that have
/// something to show, as they are shown and in their order; a text with none has an
/// excerpt that says so.
pub proof fn law_text_preview(text: Seq<char>)
    ensures
        ({
            let shown = text::text_lines(text).map_values(
                |line: Seq<char>| preview_line(line),
            ).filter(|line: Seq<char>| line.len() > 0);
            &&& shown.len() == 0 ==> text_preview(text) == "Empty file"@
            &&& 0 < shown.len() <= 8 ==> text::text_lines(text_preview(text)) == shown
                && text_preview(text) == join_lines(shown)
            &&& shown.len() > 8 ==> text::text_lines(text_preview(text)) == shown.take(8)
                && text_preview(text) == join_lines(shown.take(8))
        }),
{
    let shown = shown_lines(text);
    assert(nonempty_line() =~= (|line: Seq<char>| line.len() > 0));
    lemma_shown_lines(text);
    if shown.len() > 8 {
        lemma_join_lines(shown.take(8));
    } else if shown.len() > 0 {
        lemma_join_lines(shown);
    }
}

/// The lines of an excerpt stand with one newline between each two.
pub proof fn law_join_lines(lines: Seq<Seq<char>>, line: Seq<char>)
    ensures
        join_lines(seq![line]) == line,
        lines.len() > 0 ==> join_lines(lines.push(line)) == join_lines(lines).push('\n') + line,
{
    assert(lines.push(line).drop_last() =~= lines);
}

} // verus!
