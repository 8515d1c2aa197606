//! What the clipboard offers: paths among the lines of a text, and in which order
//! its files, its image and its text are tried.

use vstd::prelude::*;
use vstd::string::*;

use crate::digest::content_hash;
use crate::paths::{FilePath, PathView};
use crate::records::{ErrorView, StoreError};
use crate::store::ImageStore;
use crate::text::{same_text, to_chars};
use crate::{digest, store, text};

verus! {

broadcast use vstd::string::group_string_axioms;

// ---------------------------------------------------------------------------
// Paths in a text
// ---------------------------------------------------------------------------

pub open spec fn is_quote(c: char) -> bool {
    c == '"' || c == '\''
}

/// The text without the quotes at its end.
pub open spec fn unquote_end(text: Seq<char>) -> Seq<char>
    decreases text.len(),
{
    if text.len() > 0 && is_quote(text.last()) {
        unquote_end(text.drop_last())
    } else {
        text
    }
}

/// The text without the quotes at its start.
pub open spec fn unquote_start(text: Seq<char>) -> Seq<char>
    decreases text.len(),
{
    if text.len() > 0 && is_quote(text.first()) {
        unquote_start(text.drop_first())
    } else {
        text
    }
}

/// The text without the quotes at either end.
pub open spec fn unquote(text: Seq<char>) -> Seq<char> {
    unquote_start(unquote_end(text))
}

pub open spec fn without_prefix(text: Seq<char>, prefix: Seq<char>) -> Seq<char> {
    if prefix.is_prefix_of(text) {
        text.skip(prefix.len() as int)
    } else {
        text
    }
}

/// A text such as `/C:/pictures` without its slash. A drive is named by one
/// ASCII character and a colon.
pub open spec fn without_drive_slash(text: Seq<char>) -> Seq<char> {
    if text.len() >= 3 && text[0] == '/' && text[1] <= '\x7f' && text[2] == ':' {
        text.drop_first()
    } else {
        text
    }
}

/// The path that a line of text may stand for: the line without white space and
/// quotes around it, and without the scheme of a file URL.
pub open spec fn path_candidate(line: Seq<char>, windows: bool) -> Option<Seq<char>> {
    let unquoted = unquote(text::trim(line));
    if unquoted.len() == 0 {
        None
    } else {
        let path = without_prefix(unquoted, "file://"@);
        if windows {
            Some(without_drive_slash(path))
        } else {
            Some(path)
        }
    }
}

/// The paths that the lines may stand for, in order.
pub open spec fn line_candidates(lines: Seq<Seq<char>>, windows: bool) -> Seq<Seq<char>>
    decreases lines.len(),
{
    if lines.len() == 0 {
        Seq::empty()
    } else {
        let before = line_candidates(lines.drop_last(), windows);
        match path_candidate(lines.last(), windows) {
            Some(path) => before.push(path),
            None => before,
        }
    }
}

/// Whether the path is among the paths.
pub open spec fn lists_path(paths: Seq<PathView>, path: PathView) -> bool {
    exists|i: int|
        0 <= i < paths.len() && (#[trigger] paths[i]).components == path.components
}

/// The paths of regular files, in order, each once.
pub open spec fn existing_files(probed: Seq<(PathView, bool)>) -> Seq<PathView>
    decreases probed.len(),
{
    if probed.len() == 0 {
        Seq::empty()
    } else {
        let before = existing_files(probed.drop_last());
        let (path, is_file) = probed.last();
        if is_file && !lists_path(before, path) {
            before.push(path)
        } else {
            before
        }
    }
}

pub open spec fn path_views(paths: Seq<FilePath>) -> Seq<PathView> {
    paths.map_values(|path: FilePath| path@)
}

pub open spec fn probed_views(probed: Seq<(FilePath, bool)>) -> Seq<(PathView, bool)> {
    probed.map_values(|item: (FilePath, bool)| (item.0@, item.1))
}

fn unquoted(chars: &Vec<char>) -> (inner: Vec<char>)
    ensures
        inner@ == unquote(chars@),
{
    let mut end: usize = chars.len();
    assert(chars@.take(end as int) == chars@);
    while end > 0 && (chars[end - 1] == '"' || chars[end - 1] == '\'')
        invariant
            end <= chars@.len(),
            unquote_end(chars@.take(end as int)) == unquote_end(chars@),
        decreases end,
    {
        assert(chars@.take(end as int).drop_last() == chars@.take(end - 1));
        end -= 1;
    }
    let ghost whole = chars@.take(end as int);
    let mut start: usize = 0;
    assert(whole.skip(0) == whole);
    while start < end && (chars[start] == '"' || chars[start] == '\'')
        invariant
            start <= end <= chars@.len(),
            whole == chars@.take(end as int),
            unquote_start(whole.skip(start as int)) == unquote_start(whole),
        decreases end - start,
    {
        assert(whole.skip(start as int).drop_first() == whole.skip(start + 1));
        start += 1;
    }
    assert(chars@.subrange(start as int, end as int) == whole.skip(start as int));
    text::chars_between(chars, start, end)
}

fn strip_prefix(chars: Vec<char>, prefix: &str) -> (rest: Vec<char>)
    ensures
        rest@ == without_prefix(chars@, prefix@),
{
    let expected = to_chars(prefix);
    let mut same: usize = 0;
    while same < expected.len()
        invariant
            expected@ == prefix@,
            same <= expected@.len(),
            same <= chars@.len(),
            forall|i: int| 0 <= i < same ==> chars@[i] == expected@[i],
        decreases expected@.len() - same,
    {
        if same >= chars.len() || chars[same] != expected[same] {
            assert(!prefix@.is_prefix_of(chars@)) by {
                if prefix@.is_prefix_of(chars@) {
                    assert(prefix@[same as int] == chars@[same as int]);
                }
            }
            return chars;
        }
        same += 1;
    }
    assert(prefix@.is_prefix_of(chars@));
    assert(chars@.subrange(same as int, chars@.len() as int) == chars@.skip(same as int));
    text::chars_between(&chars, same, chars.len())
}

/// The path that a line of text may stand for.
pub fn parse_clipboard_path_candidate(line: &str, windows: bool) -> (candidate: Option<String>)
    ensures
        text::text_option(candidate) == path_candidate(line@, windows),
{
    let trimmed = text::trim_text(line);
    let inner = unquoted(&to_chars(trimmed.as_str()));
    if inner.len() == 0 {
        return None;
    }
    let path = strip_prefix(inner, "file://");
    let first: usize = if windows && path.len() >= 3 && path[0] == '/' && path[1] <= '\x7f'
        && path[2] == ':' {
        1
    } else {
        0
    };
    assert(path@.subrange(first as int, path@.len() as int) =~= if windows {
        without_drive_slash(path@)
    } else {
        path@
    });
    Some(text::text_between(&path, first, path.len()))
}

/// The paths that the lines of a text may stand for, in order.
pub fn clipboard_path_candidates(contents: &str, windows: bool) -> (candidates: Vec<String>)
    ensures
        candidates@.map_values(|path: String| path@) == line_candidates(
            text::text_lines(contents@),
            windows,
        ),
{
    let lines = text::split_lines(contents);
    let ghost all = text::views(lines@);
    let mut candidates: Vec<String> = Vec::new();
    let mut i: usize = 0;
    assert(candidates@.map_values(|path: String| path@) =~= line_candidates(all.take(0), windows));
    while i < lines.len()
        invariant
            i <= lines@.len(),
            all == text::views(lines@),
            candidates@.map_values(|path: String| path@) == line_candidates(
                all.take(i as int),
                windows,
            ),
        decreases lines@.len() - i,
    {
        let ghost before = candidates@.map_values(|path: String| path@);
        let line = text::from_chars(&lines[i]);
        assert(line@ == all[i as int]);
        assert(all.take(i + 1).drop_last() == all.take(i as int));
        match parse_clipboard_path_candidate(line.as_str(), windows) {
            Some(path) => {
                candidates.push(path);
                assert(candidates@.map_values(|path: String| path@) =~= before.push(path@));
            },
            None => {},
        }
        i += 1;
    }
    assert(all.take(all.len() as int) == all);
    candidates
}

fn holds_path(paths: &Vec<FilePath>, path: &FilePath) -> (yes: bool)
    ensures
        yes == lists_path(path_views(paths@), path@),
{
    let ghost views = path_views(paths@);
    let mut i: usize = 0;
    while i < paths.len()
        invariant
            i <= paths@.len(),
            views == path_views(paths@),
            forall|j: int| 0 <= j < i ==> (#[trigger] views[j]).components != path@.components,
        decreases paths@.len() - i,
    {
        assert(views[i as int] == paths@[i as int]@);
        if paths[i].same_path(path) {
            assert(views[i as int].components == path@.components);
            return true;
        }
        i += 1;
    }
    false
}

/// The paths that are those of regular files, in order, each once.
pub fn extract_existing_paths_from_clipboard_text(probed: Vec<(FilePath, bool)>) -> (paths: Vec<
    FilePath,
>)
    ensures
        path_views(paths@) == existing_files(probed_views(probed@)),
{
    let ghost all = probed_views(probed@);
    let mut rest = probed;
    let mut paths: Vec<FilePath> = Vec::new();
    assert(path_views(paths@) =~= existing_files(all.take(0)));
    while rest.len() > 0
        invariant
            rest@.len() <= all.len(),
            probed_views(rest@) == all.skip(all.len() - rest@.len()),
            path_views(paths@) == existing_files(all.take(all.len() - rest@.len())),
        decreases rest@.len(),
    {
        let ghost done = all.len() - rest@.len();
        let ghost waiting = probed_views(rest@);
        let ghost before = path_views(paths@);
        let (path, is_file) = rest.remove(0);
        assert((path@, is_file) == waiting[0]);
        assert(probed_views(rest@) =~= waiting.drop_first());
        assert(waiting.drop_first() == all.skip(done + 1));
        assert(all.take(done + 1).drop_last() == all.take(done));
        if is_file && !holds_path(&paths, &path) {
            paths.push(path);
            assert(path_views(paths@) =~= before.push(path@));
        }
    }
    assert(all.take(all.len() as int) == all);
    paths
}

/// Each regular file among the probed paths is listed, and nothing else is.
pub proof fn law_existing_files(probed: Seq<(PathView, bool)>, path: PathView)
    ensures
        lists_path(existing_files(probed), path) <==> exists|i: int|
            0 <= i < probed.len() && (#[trigger] probed[i]).1 && probed[i].0.components
                == path.components,
    decreases probed.len(),
{
    if probed.len() > 0 {
        let rest = probed.drop_last();
        let before = existing_files(rest);
        let all = existing_files(probed);
        law_existing_files(rest, path);
        law_existing_files(rest, probed.last().0);
        assert(forall|i: int| 0 <= i < rest.len() ==> #[trigger] rest[i] == probed[i]);
        assert(forall|i: int| 0 <= i < before.len() ==> #[trigger] all[i] == before[i]);
        if lists_path(before, path) {
            let k = choose|k: int|
                0 <= k < before.len() && (#[trigger] before[k]).components == path.components;
            assert(all[k].components == path.components);
        }
        if lists_path(all, path) {
            let k = choose|k: int|
                0 <= k < all.len() && (#[trigger] all[k]).components == path.components;
            if k < before.len() {
                assert(before[k].components == path.components);
                let i = choose|i: int|
                    0 <= i < rest.len() && (#[trigger] rest[i]).1 && rest[i].0.components
                        == path.components;
                assert(probed[i].1);
            } else {
                assert(probed[probed.len() - 1].1);
            }
        }
        if exists|i: int|
            0 <= i < probed.len() && (#[trigger] probed[i]).1 && probed[i].0.components
                == path.components {
            let i = choose|i: int|
                0 <= i < probed.len() && (#[trigger] probed[i]).1 && probed[i].0.components
                    == path.components;
            if i < rest.len() {
                assert(rest[i].1);
            } else if lists_path(before, probed.last().0) {
                let k = choose|k: int|
                    0 <= k < before.len() && (#[trigger] before[k]).components
                        == probed.last().0.components;
                assert(all[k].components == path.components);
            } else {
                assert(all[all.len() - 1] == probed.last().0);
            }
        }
    }
}

/// No file is listed twice.
pub proof fn law_existing_files_once(probed: Seq<(PathView, bool)>, i: int, j: int)
    requires
        0 <= i < j < existing_files(probed).len(),
    ensures
        existing_files(probed)[i].components != existing_files(probed)[j].components,
    decreases probed.len(),
{
    if probed.len() > 0 {
        let before = existing_files(probed.drop_last());
        if j < before.len() {
            law_existing_files_once(probed.drop_last(), i, j);
        } else {
            assert(existing_files(probed)[i] == before[i]);
        }
    }
}

/// A listed file is one of the probed paths, the first that names this file.
pub proof fn law_existing_files_first(probed: Seq<(PathView, bool)>, k: int) -> (i: int)
    requires
        0 <= k < existing_files(probed).len(),
    ensures
        0 <= i < probed.len(),
        probed[i] == (existing_files(probed)[k], true),
        forall|j: int|
            0 <= j < i && (#[trigger] probed[j]).1 ==> probed[j].0.components
                != probed[i].0.components,
    decreases probed.len(),
{
    let rest = probed.drop_last();
    let before = existing_files(rest);
    if k < before.len() {
        let i = law_existing_files_first(rest, k);
        assert(forall|j: int| 0 <= j < rest.len() ==> rest[j] == #[trigger] probed[j]);
        i
    } else {
        let (path, is_file) = probed.last();
        law_existing_files(rest, path);
        assert forall|j: int| 0 <= j < rest.len() && (#[trigger] probed[j]).1 implies
            probed[j].0.components != path.components by {
            assert(rest[j] == probed[j]);
        }
        probed.len() - 1
    }
}

/// The files are listed in the order in which they were probed: those of further
/// paths come behind.
pub proof fn law_existing_files_order(first: Seq<(PathView, bool)>, second: Seq<(PathView, bool)>)
    ensures
        existing_files(first).is_prefix_of(existing_files(first + second)),
    decreases second.len(),
{
    if second.len() == 0 {
        assert(first + second =~= first);
    } else {
        assert((first + second).drop_last() =~= first + second.drop_last());
        law_existing_files_order(first, second.drop_last());
    }
}

proof fn lemma_unquote_end_of(text: Seq<char>, quotes: Seq<char>)
    requires
        text.len() > 0 ==> !is_quote(text.last()),
        forall|i: int| 0 <= i < quotes.len() ==> is_quote(#[trigger] quotes[i]),
    ensures
        unquote_end(text + quotes) == text,
    decreases quotes.len(),
{
    if quotes.len() == 0 {
        assert(text + quotes =~= text);
    } else {
        assert((text + quotes).drop_last() =~= text + quotes.drop_last());
        lemma_unquote_end_of(text, quotes.drop_last());
    }
}

proof fn lemma_unquote_start_of(quotes: Seq<char>, text: Seq<char>)
    requires
        text.len() > 0 ==> !is_quote(text.first()),
        forall|i: int| 0 <= i < quotes.len() ==> is_quote(#[trigger] quotes[i]),
    ensures
        unquote_start(quotes + text) == text,
    decreases quotes.len(),
{
    if quotes.len() == 0 {
        assert(quotes + text =~= text);
    } else {
        assert((quotes + text).drop_first() =~= quotes.drop_first() + text);
        lemma_unquote_start_of(quotes.drop_first(), text);
    }
}

/// White space around a line, and quotes around what is left, do not count: the line
/// stands for the path inside, and for none where nothing is inside. Of a file URL
/// the scheme does not count either, and on Windows nor does the slash before a drive.
pub proof fn law_path_candidate(
    before: Seq<char>,
    opening: Seq<char>,
    path: Seq<char>,
    closing: Seq<char>,
    behind: Seq<char>,
)
    requires
        forall|i: int| 0 <= i < before.len() ==> text::is_white_space(#[trigger] before[i]),
        forall|i: int| 0 <= i < behind.len() ==> text::is_white_space(#[trigger] behind[i]),
        forall|i: int|
            0 <= i < opening.len() ==> #[trigger] opening[i] == '"' || opening[i] == '\'',
        forall|i: int|
            0 <= i < closing.len() ==> #[trigger] closing[i] == '"' || closing[i] == '\'',
        path.len() > 0 ==> path.first() != '"' && path.first() != '\'' && path.last() != '"'
            && path.last() != '\'',
        (opening + path + closing).len() > 0 ==> !text::is_white_space(
            (opening + path + closing).first(),
        ) && !text::is_white_space((opening + path + closing).last()),
    ensures
        ({
            let line = before + (opening + path + closing) + behind;
            &&& path.len() == 0 ==> path_candidate(line, false) is None && path_candidate(
                line,
                true,
            ) is None
            &&& path.len() > 0 && !"file://"@.is_prefix_of(path) ==> path_candidate(line, false)
                == Some(path)
            &&& forall|rest: Seq<char>|
                path == #[trigger] ("file://"@ + rest) ==> path_candidate(line, false) == Some(rest)
            &&& path.len() > 0 ==> match path_candidate(line, false) {
                Some(plain) => path_candidate(line, true) == Some(
                    if plain.len() >= 3 && plain[0] == '/' && plain[1] <= '\x7f' && plain[2] == ':' {
                        plain.skip(1)
                    } else {
                        plain
                    },
                ),
                None => false,
            }
        }),
{
    let quoted = opening + path + closing;
    let line = before + quoted + behind;
    text::law_trim(before, quoted, behind);
    if path.len() == 0 {
        let quotes = opening + closing;
        assert(quoted =~= Seq::empty() + quotes);
        lemma_unquote_end_of(Seq::empty(), quotes);
    } else {
        lemma_unquote_end_of(opening + path, closing);
        lemma_unquote_start_of(opening, path);
    }
    assert(unquote(text::trim(line)) == path);
    assert forall|rest: Seq<char>| path == #[trigger] ("file://"@ + rest) implies path_candidate(
        line,
        false,
    ) == Some(rest) by {
        reveal_strlit("file://");
        assert("file://"@.is_prefix_of(path));
        assert(path.skip("file://"@.len() as int) =~= rest);
    }
}

/// The paths of some lines come before those of further lines, and a line gives one
/// path at most.
pub proof fn law_line_candidates(
    first: Seq<Seq<char>>,
    line: Seq<char>,
    second: Seq<Seq<char>>,
    windows: bool,
)
    ensures
        line_candidates(first + second, windows) == line_candidates(first, windows)
            + line_candidates(second, windows),
        line_candidates(Seq::empty(), windows) == Seq::<Seq<char>>::empty(),
        match path_candidate(line, windows) {
            Some(path) => line_candidates(seq![line], windows) == seq![path],
            None => line_candidates(seq![line], windows) == Seq::<Seq<char>>::empty(),
        },
    decreases second.len(),
{
    reveal_with_fuel(line_candidates, 2);
    assert(seq![line].drop_last() =~= Seq::empty());
    if second.len() == 0 {
        assert(first + second =~= first);
    } else {
        assert((first + second).drop_last() =~= first + second.drop_last());
        law_line_candidates(first, line, second.drop_last(), windows);
    }
}

// ---------------------------------------------------------------------------
// Pasting
// ---------------------------------------------------------------------------

/// What a paste asks for next.
#[derive(Debug)]
pub enum PasteRequest {
    /// Import the file, leaving it where it is, and hand in the result.
    Import { path: FilePath },
    /// Look for an image on the clipboard.
    ReadImage,
    /// Store the image that was found; the result is that of the paste.
    StoreImage,
    /// Look for a text on the clipboard.
    ReadText,
    /// The paste has ended.
    Finish { result: Result<bool, StoreError> },
}

#[verifier::ext_equal]
pub enum PasteRequestView {
    Import { path: PathView },
    ReadImage,
    StoreImage,
    ReadText,
    Finish { result: Result<bool, ErrorView> },
}

impl View for PasteRequest {
    type V = PasteRequestView;

    open spec fn view(&self) -> PasteRequestView {
        match *self {
            PasteRequest::Import { path } => PasteRequestView::Import { path: path@ },
            PasteRequest::ReadImage => PasteRequestView::ReadImage,
            PasteRequest::StoreImage => PasteRequestView::StoreImage,
            PasteRequest::ReadText => PasteRequestView::ReadText,
            PasteRequest::Finish { result } => PasteRequestView::Finish {
                result: store::result_view(result),
            },
        }
    }
}

/// A paste under way: the files that are still to be imported, and whether one
/// has been.
#[derive(Debug)]
pub struct Paste {
    /// Whether the files are those that a text names.
    pub from_text: bool,
    pub imported: bool,
    pub waiting: Vec<FilePath>,
}

#[verifier::ext_equal]
pub struct PasteView {
    pub from_text: bool,
    pub imported: bool,
    pub waiting: Seq<PathView>,
}

impl View for Paste {
    type V = PasteView;

    open spec fn view(&self) -> PasteView {
        PasteView {
            from_text: self.from_text,
            imported: self.imported,
            waiting: path_views(self.waiting@),
        }
    }
}

impl PasteView {
    pub open spec fn importing(from_text: bool, paths: Seq<PathView>) -> PasteView {
        PasteView { from_text, imported: false, waiting: paths }
    }

    /// One file after the other; then the end, or the image if the files were
    /// those on the clipboard and none of them was imported.
    pub open spec fn next(self) -> (PasteView, PasteRequestView) {
        if self.waiting.len() > 0 {
            (
                PasteView { waiting: self.waiting.drop_first(), ..self },
                PasteRequestView::Import { path: self.waiting[0] },
            )
        } else if self.from_text || self.imported {
            (self, PasteRequestView::Finish { result: Ok(self.imported) })
        } else {
            (self, PasteRequestView::ReadImage)
        }
    }

    /// What follows the import of a file. The first failure ends the paste.
    pub open spec fn after_import(self, result: Result<bool, ErrorView>) -> (
        PasteView,
        PasteRequestView,
    ) {
        match result {
            Ok(changed) => PasteView { imported: self.imported || changed, ..self }.next(),
            Err(error) => (self, PasteRequestView::Finish { result: Err(error) }),
        }
    }

    /// What follows the imports of some files, one after the other.
    pub open spec fn after_imports(
        self,
        request: PasteRequestView,
        results: Seq<Result<bool, ErrorView>>,
    ) -> (PasteView, PasteRequestView)
        decreases results.len(),
    {
        if results.len() == 0 {
            (self, request)
        } else {
            let (paste, next) = self.after_import(results[0]);
            paste.after_imports(next, results.drop_first())
        }
    }
}

/// The request that a paste makes once it knows the files on the clipboard.
pub open spec fn files_request(paths: Option<Seq<PathView>>) -> (PasteView, PasteRequestView) {
    match paths {
        Some(paths) => PasteView::importing(false, paths).next(),
        None => (PasteView::importing(false, Seq::empty()), PasteRequestView::ReadImage),
    }
}

/// The request that a paste makes once it knows the files that the text on the
/// clipboard names.
pub open spec fn text_request(paths: Option<Seq<PathView>>) -> (PasteView, PasteRequestView) {
    match paths {
        Some(paths) => PasteView::importing(true, paths).next(),
        None => (
            PasteView::importing(true, Seq::empty()),
            PasteRequestView::Finish { result: Ok(false) },
        ),
    }
}

impl Paste {
    fn next(&mut self) -> (request: PasteRequest)
        ensures
            (final(self)@, request@) == old(self)@.next(),
    {
        if self.waiting.len() > 0 {
            let ghost waiting = path_views(self.waiting@);
            let path = self.waiting.remove(0);
            assert(path@ == waiting[0]);
            assert(path_views(self.waiting@) =~= waiting.drop_first());
            PasteRequest::Import { path }
        } else if self.from_text || self.imported {
            PasteRequest::Finish { result: Ok(self.imported) }
        } else {
            PasteRequest::ReadImage
        }
    }

    /// Goes on after the import of a file.
    pub fn after_import(&mut self, result: Result<bool, StoreError>) -> (request: PasteRequest)
        ensures
            (final(self)@, request@) == old(self)@.after_import(store::result_view(result)),
    {
        match result {
            Ok(changed) => {
                self.imported = self.imported || changed;
                self.next()
            },
            Err(error) => PasteRequest::Finish { result: Err(error) },
        }
    }

    /// Goes on once it is known whether the clipboard holds an image.
    pub fn after_image(found: bool) -> (request: PasteRequest)
        ensures
            request@ == if found {
                PasteRequestView::StoreImage
            } else {
                PasteRequestView::ReadText
            },
    {
        if found {
            PasteRequest::StoreImage
        } else {
            PasteRequest::ReadText
        }
    }

    /// Goes on with the files that the text on the clipboard names, if it holds
    /// a text.
    pub fn after_text(files: Option<Vec<FilePath>>) -> (begun: (Paste, PasteRequest))
        ensures
            (begun.0@, begun.1@) == text_request(
                match files {
                    Some(paths) => Some(path_views(paths@)),
                    None => None,
                },
            ),
    {
        match files {
            Some(paths) => {
                let mut paste = Paste { from_text: true, imported: false, waiting: paths };
                assert(paste@ =~= PasteView::importing(true, path_views(paths@)));
                let request = paste.next();
                (paste, request)
            },
            None => {
                let paste = Paste { from_text: true, imported: false, waiting: Vec::new() };
                assert(paste@ =~= PasteView::importing(true, Seq::empty()));
                (paste, PasteRequest::Finish { result: Ok(false) })
            },
        }
    }
}

impl ImageStore {
    /// Begins to store what the clipboard holds, with its files if it holds any.
    pub fn add_current_clipboard_item(files: Option<Vec<FilePath>>) -> (begun: (Paste, PasteRequest))
        ensures
            (begun.0@, begun.1@) == files_request(
                match files {
                    Some(paths) => Some(path_views(paths@)),
                    None => None,
                },
            ),
    {
        match files {
            Some(paths) => {
                let mut paste = Paste { from_text: false, imported: false, waiting: paths };
                assert(paste@ =~= PasteView::importing(false, path_views(paths@)));
                let request = paste.next();
                (paste, request)
            },
            None => {
                let paste = Paste { from_text: false, imported: false, waiting: Vec::new() };
                assert(paste@ =~= PasteView::importing(false, Seq::empty()));
                (paste, PasteRequest::ReadImage)
            },
        }
    }
}

/// Whether one of the imports changed something.
pub open spec fn any_changed(results: Seq<Result<bool, ErrorView>>) -> bool {
    exists|i: int| 0 <= i < results.len() && #[trigger] results[i] == Ok::<bool, ErrorView>(true)
}

proof fn lemma_imports(
    paste: PasteView,
    request: PasteRequestView,
    results: Seq<Result<bool, ErrorView>>,
)
    requires
        results.len() > 0,
        paste.waiting.len() + 1 == results.len(),
        forall|i: int| 0 <= i < results.len() ==> (#[trigger] results[i]) is Ok,
    ensures
        paste.after_imports(request, results).1 == (if paste.from_text || paste.imported
            || any_changed(results) {
            PasteRequestView::Finish { result: Ok(paste.imported || any_changed(results)) }
        } else {
            PasteRequestView::ReadImage
        }),
    decreases results.len(),
{
    let rest = results.drop_first();
    let (after, next) = paste.after_import(results[0]);
    assert(forall|i: int| 0 <= i < rest.len() ==> #[trigger] rest[i] == results[i + 1]);
    if results[0] == Ok::<bool, ErrorView>(true) {
        assert(any_changed(results));
    }
    if any_changed(rest) {
        let i = choose|i: int|
            0 <= i < rest.len() && #[trigger] rest[i] == Ok::<bool, ErrorView>(true);
        assert(results[i + 1] == Ok::<bool, ErrorView>(true));
    }
    if any_changed(results) {
        let i = choose|i: int|
            0 <= i < results.len() && #[trigger] results[i] == Ok::<bool, ErrorView>(true);
        if i > 0 {
            assert(rest[i - 1] == Ok::<bool, ErrorView>(true));
        }
    }
    if paste.waiting.len() > 0 {
        lemma_imports(after, next, rest);
    } else {
        assert(rest.len() == 0);
    }
}

/// The files on the clipboard come first: where importing all of them succeeds
/// and one of the imports changes something, the paste ends there; where none
/// does, the image is looked for.
pub proof fn law_files_first(paths: Seq<PathView>, results: Seq<Result<bool, ErrorView>>)
    requires
        results.len() == paths.len(),
        forall|i: int| 0 <= i < results.len() ==> (#[trigger] results[i]) is Ok,
    ensures
        ({
            let (paste, request) = files_request(Some(paths));
            paste.after_imports(request, results).1
        }) == (if any_changed(results) {
            PasteRequestView::Finish { result: Ok(true) }
        } else {
            PasteRequestView::ReadImage
        }),
{
    let (paste, request) = files_request(Some(paths));
    if paths.len() > 0 {
        lemma_imports(paste, request, results);
    }
}

/// The files that a text names come last: where importing all of them succeeds,
/// the paste says whether one of the imports changed something.
pub proof fn law_text_last(paths: Seq<PathView>, results: Seq<Result<bool, ErrorView>>)
    requires
        results.len() == paths.len(),
        forall|i: int| 0 <= i < results.len() ==> (#[trigger] results[i]) is Ok,
    ensures
        ({
            let (paste, request) = text_request(Some(paths));
            paste.after_imports(request, results).1
        }) == (PasteRequestView::Finish { result: Ok(any_changed(results)) }),
{
    let (paste, request) = text_request(Some(paths));
    if paths.len() > 0 {
        lemma_imports(paste, request, results);
    }
}

proof fn lemma_waiting(
    paste: PasteView,
    request: PasteRequestView,
    results: Seq<Result<bool, ErrorView>>,
)
    requires
        results.len() <= paste.waiting.len(),
        forall|i: int| 0 <= i < results.len() ==> (#[trigger] results[i]) is Ok,
    ensures
        ({
            let (after, next) = paste.after_imports(request, results);
            &&& after.waiting == paste.waiting.skip(results.len() as int)
            &&& next == if results.len() == 0 {
                request
            } else {
                PasteRequestView::Import { path: paste.waiting[results.len() - 1] }
            }
        }),
    decreases results.len(),
{
    if results.len() > 0 {
        let rest = results.drop_first();
        let (after, next) = paste.after_import(results[0]);
        assert(forall|i: int| 0 <= i < rest.len() ==> #[trigger] rest[i] == results[i + 1]);
        assert(after.waiting == paste.waiting.drop_first());
        lemma_waiting(after, next, rest);
        assert(after.waiting.skip(rest.len() as int) =~= paste.waiting.skip(results.len() as int));
    } else {
        assert(paste.waiting.skip(0) =~= paste.waiting);
    }
}

/// The files that a paste asks to import, while every import succeeds, are those it
/// began with, each once and in order.
pub proof fn law_imports_in_order(paths: Seq<PathView>, results: Seq<Result<bool, ErrorView>>)
    requires
        results.len() < paths.len(),
        forall|i: int| 0 <= i < results.len() ==> (#[trigger] results[i]) is Ok,
    ensures
        ({
            let (paste, request) = files_request(Some(paths));
            paste.after_imports(request, results).1
        }) == (PasteRequestView::Import { path: paths[results.len() as int] }),
        ({
            let (paste, request) = text_request(Some(paths));
            paste.after_imports(request, results).1
        }) == (PasteRequestView::Import { path: paths[results.len() as int] }),
{
    let (paste, request) = files_request(Some(paths));
    lemma_waiting(paste, request, results);
    let (paste, request) = text_request(Some(paths));
    lemma_waiting(paste, request, results);
}

proof fn lemma_last_import(
    paste: PasteView,
    request: PasteRequestView,
    results: Seq<Result<bool, ErrorView>>,
    result: Result<bool, ErrorView>,
)
    ensures
        ({
            let (before, last) = paste.after_imports(request, results);
            paste.after_imports(request, results.push(result)) == before.after_import(result)
        }),
    decreases results.len(),
{
    reveal_with_fuel(PasteView::after_imports, 2);
    let all = results.push(result);
    if results.len() > 0 {
        let (after, next) = paste.after_import(results[0]);
        lemma_last_import(after, next, results.drop_first(), result);
        assert(all.drop_first() =~= results.drop_first().push(result));
    } else {
        assert(all.drop_first().len() == 0);
    }
}

/// The first import that fails ends the paste with its error, and no further file is
/// asked for.
pub proof fn law_failed_import(
    paths: Seq<PathView>,
    results: Seq<Result<bool, ErrorView>>,
    error: ErrorView,
)
    requires
        results.len() < paths.len(),
        forall|i: int| 0 <= i < results.len() ==> (#[trigger] results[i]) is Ok,
    ensures
        ({
            let (paste, request) = files_request(Some(paths));
            paste.after_imports(request, results.push(Err(error))).1
        }) == (PasteRequestView::Finish { result: Err(error) }),
        ({
            let (paste, request) = text_request(Some(paths));
            paste.after_imports(request, results.push(Err(error))).1
        }) == (PasteRequestView::Finish { result: Err(error) }),
{
    let (paste, request) = files_request(Some(paths));
    lemma_last_import(paste, request, results, Err(error));
    let (paste, request) = text_request(Some(paths));
    lemma_last_import(paste, request, results, Err(error));
}

/// A clipboard without files is asked for an image, and a text without files changes
/// nothing.
pub proof fn law_no_files(files: Option<Seq<PathView>>)
    requires
        files matches Some(paths) ==> paths.len() == 0,
    ensures
        files_request(files).1 == PasteRequestView::ReadImage,
        text_request(files).1 == (PasteRequestView::Finish { result: Ok(false) }),
{
}

// ---------------------------------------------------------------------------
// Watching
// ---------------------------------------------------------------------------

/// A watch on the clipboard: the hash of the image that was last seen on it, if
/// the last look found one.
#[derive(Debug)]
pub struct ClipboardWatch {
    pub last: Option<String>,
}

#[verifier::ext_equal]
pub struct WatchView {
    pub last: Option<Seq<char>>,
}

impl View for ClipboardWatch {
    type V = WatchView;

    open spec fn view(&self) -> WatchView {
        WatchView { last: text::text_option(self.last) }
    }
}

impl WatchView {
    /// The watch after a look at the clipboard, and whether there is an image on
    /// it that was not there at the last look.
    pub open spec fn looked(self, pixels: Option<Seq<u8>>) -> (WatchView, bool) {
        match pixels {
            Some(pixels) => {
                let seen = Some(digest::blake3_hex(pixels));
                (WatchView { last: seen }, self.last != seen)
            },
            None => (WatchView { last: None }, false),
        }
    }
}

impl ClipboardWatch {
    /// A watch that has seen nothing yet.
    pub fn new() -> (watch: ClipboardWatch)
        ensures
            watch@ == (WatchView { last: None }),
    {
        ClipboardWatch { last: None }
    }

    /// Takes note of the pixels of the image on the clipboard, if there is one,
    /// and says whether it is to be stored.
    pub fn look(&mut self, pixels: Option<&Vec<u8>>) -> (store_it: bool)
        ensures
            (final(self)@, store_it) == old(self)@.looked(
                match pixels {
                    Some(pixels) => Some(pixels@),
                    None => None,
                },
            ),
    {
        match pixels {
            Some(pixels) => {
                let hash = content_hash(pixels);
                let known = match &self.last {
                    Some(last) => same_text(last.as_str(), hash.as_str()),
                    None => false,
                };
                self.last = Some(hash);
                !known
            },
            None => {
                self.last = None;
                false
            },
        }
    }
}

/// An image that stays on the clipboard is stored once; one that comes back after
/// something else is stored again.
pub proof fn law_watch(watch: WatchView, pixels: Seq<u8>)
    ensures
        !watch.looked(Some(pixels)).0.looked(Some(pixels)).1,
        watch.looked(None).0.looked(Some(pixels)).1,
{
}

/// An image is stored where its hash is not that of the image seen at the last look,
/// and nothing is where there is none.
pub proof fn law_watch_changes(watch: WatchView, first: Seq<u8>, second: Seq<u8>)
    ensures
        watch.last is None ==> watch.looked(Some(first)).1,
        watch.looked(Some(first)).0.looked(Some(second)).1 <==> digest::blake3_hex(first)
            != digest::blake3_hex(second),
        !watch.looked(None).1,
{
}

/// What a request is taken to ask for is what it asks for, and the files that a paste
/// waits for are those in its list, in order.
pub proof fn law_paste_views(paste: Paste, path: FilePath, i: int)
    ensures
        (PasteRequest::Import { path })@ == (PasteRequestView::Import { path: path@ }),
        PasteRequest::ReadImage@ == PasteRequestView::ReadImage,
        PasteRequest::StoreImage@ == PasteRequestView::StoreImage,
        PasteRequest::ReadText@ == PasteRequestView::ReadText,
        paste@.from_text == paste.from_text,
        paste@.imported == paste.imported,
        paste@.waiting.len() == paste.waiting@.len(),
        0 <= i < paste.waiting@.len() ==> paste@.waiting[i] == paste.waiting@[i]@,
{
}

} // verus!
