//! File paths as plain values, and what their names say about the files.

use vstd::prelude::*;
use vstd::string::*;
use vstd::utf8::*;

use crate::text;
use crate::text::{parse_utf8, same_text, to_ascii_lower};

verus! {

broadcast use vstd::string::group_string_axioms;

// ---------------------------------------------------------------------------
// Paths
// ---------------------------------------------------------------------------

/// The kinds of path components, as `std::path::Component` tells them apart.
#[derive(Clone, Copy, Debug, PartialEq, Eq, Structural)]
pub enum ComponentKind {
    Prefix,
    RootDir,
    CurDir,
    ParentDir,
    Normal,
}

/// One component of a path, with its name in the platform's own encoding, a
/// superset of UTF-8.
#[derive(Debug)]
pub struct PathComponent {
    pub kind: ComponentKind,
    pub name: Vec<u8>,
}

/// A path. It is identified by its components; the texts are what a reader is
/// shown where the path is not well-formed text.
#[derive(Debug)]
pub struct FilePath {
    /// The path as text.
    pub text: String,
    /// The path of the directory that holds it as text, if there is one.
    pub parent: Option<String>,
    pub components: Vec<PathComponent>,
}

#[verifier::ext_equal]
pub struct ComponentView {
    pub kind: ComponentKind,
    pub name: Seq<u8>,
}

#[verifier::ext_equal]
pub struct PathView {
    pub text: Seq<char>,
    pub parent: Option<Seq<char>>,
    pub components: Seq<ComponentView>,
}

impl View for PathComponent {
    type V = ComponentView;

    open spec fn view(&self) -> ComponentView {
        ComponentView { kind: self.kind, name: self.name@ }
    }
}

impl View for FilePath {
    type V = PathView;

    open spec fn view(&self) -> PathView {
        PathView {
            text: self.text@,
            parent: text::text_option(self.parent),
            components: self.components@.map_values(|c: PathComponent| c@),
        }
    }
}

impl Clone for PathComponent {
    fn clone(&self) -> (copy: Self)
        ensures
            copy@ == self@,
    {
        PathComponent { kind: self.kind, name: copy_bytes(&self.name) }
    }
}

impl Clone for FilePath {
    fn clone(&self) -> (copy: Self)
        ensures
            copy@ == self@,
    {
        let parent = match &self.parent {
            Some(parent) => Some(parent.clone()),
            None => None,
        };
        let copy = FilePath {
            text: self.text.clone(),
            parent,
            components: copy_components(&self.components),
        };
        assert(copy@ == self@);
        copy
    }
}

impl PartialEq for FilePath {
    fn eq(&self, other: &Self) -> (same: bool) {
        self.same_path(other)
    }
}

impl vstd::std_specs::cmp::PartialEqSpecImpl for FilePath {
    open spec fn obeys_eq_spec() -> bool {
        true
    }

    open spec fn eq_spec(&self, other: &Self) -> bool {
        self@.components == other@.components
    }
}

impl Eq for FilePath {

}

/// A copy of some bytes.
pub fn copy_bytes(bytes: &Vec<u8>) -> (copy: Vec<u8>)
    ensures
        copy@ == bytes@,
{
    let copy = bytes.clone();
    assert(copy@ == bytes@);
    copy
}

fn copy_components(components: &Vec<PathComponent>) -> (copy: Vec<PathComponent>)
    ensures
        copy@.map_values(|c: PathComponent| c@) == components@.map_values(
            |c: PathComponent| c@,
        ),
{
    let mut copy: Vec<PathComponent> = Vec::new();
    let mut i: usize = 0;
    while i < components.len()
        invariant
            i <= components@.len(),
            copy@.len() == i,
            forall|j: int| 0 <= j < i ==> (#[trigger] copy@[j])@ == components@[j]@,
        decreases components@.len() - i,
    {
        copy.push(components[i].clone());
        i += 1;
    }
    copy
}

// ---------------------------------------------------------------------------
// File names
// ---------------------------------------------------------------------------

/// Where the last dot of a name stands, or -1 if it has none.
pub open spec fn last_dot(name: Seq<u8>) -> int
    decreases name.len(),
{
    if name.len() == 0 {
        -1
    } else if name.last() == 0x2e {
        name.len() - 1
    } else {
        last_dot(name.drop_last())
    }
}

/// The part of a file name behind its last dot. A name with no dot, or with its
/// only dot in front, has no extension.
pub open spec fn extension_of(name: Seq<u8>) -> Option<Seq<u8>> {
    if last_dot(name) > 0 {
        Some(name.skip(last_dot(name) + 1))
    } else {
        None
    }
}

/// A file name without its extension and the dot before it.
pub open spec fn stem_of(name: Seq<u8>) -> Seq<u8> {
    if last_dot(name) > 0 {
        name.take(last_dot(name))
    } else {
        name
    }
}

pub open spec fn text_of(name: Option<Seq<u8>>) -> Option<Seq<char>> {
    match name {
        Some(name) => text::utf8_text(name),
        None => None,
    }
}

pub open spec fn lower_of(text: Option<Seq<char>>) -> Option<Seq<char>> {
    match text {
        Some(text) => Some(text::ascii_lower(text)),
        None => None,
    }
}

impl PathView {
    /// The last component, where it is a name.
    pub open spec fn file_name(self) -> Option<Seq<u8>> {
        if self.components.len() > 0 && self.components.last().kind == ComponentKind::Normal {
            Some(self.components.last().name)
        } else {
            None
        }
    }

    pub open spec fn file_stem(self) -> Option<Seq<u8>> {
        match self.file_name() {
            Some(name) => Some(stem_of(name)),
            None => None,
        }
    }

    pub open spec fn extension(self) -> Option<Seq<u8>> {
        match self.file_name() {
            Some(name) => extension_of(name),
            None => None,
        }
    }

    /// The extension in lower case, where it is text.
    pub open spec fn lower_extension(self) -> Option<Seq<char>> {
        lower_of(text_of(self.extension()))
    }

    /// Whether the path is `base` or lies below it.
    pub open spec fn starts_with(self, base: PathView) -> bool {
        base.components.is_prefix_of(self.components)
    }

    /// Whether the path is a prefix of the platform alone, such as a drive.
    pub open spec fn is_bare_prefix(self) -> bool {
        self.components.len() == 1 && self.components[0].kind == ComponentKind::Prefix
    }

    /// Whether the first component is a prefix behind which only backslashes
    /// separate components.
    pub open spec fn is_verbatim(self) -> bool {
        &&& self.components.len() > 0
        &&& self.components[0].kind == ComponentKind::Prefix
        &&& self.components[0].name.len() >= 4
        &&& self.components[0].name.take(4) == verbatim_mark()
    }

    /// Whether the entries of this directory are written right behind it: where it
    /// is empty, ends in a separator, or is a drive alone.
    pub open spec fn needs_no_separator(self, separator: char) -> bool {
        ||| self.text.len() == 0
        ||| self.text.last() == separator
        ||| self.text.last() == '/' && !self.is_verbatim()
        ||| self.is_bare_prefix() && drive_name(self.components[0].name)
    }

    /// The path of the entry `name` of this directory. A prefix alone that is no
    /// drive is joined at its root.
    pub open spec fn join(self, name: Seq<char>, separator: char) -> PathView {
        let base = if self.is_bare_prefix() && !drive_name(self.components[0].name) {
            self.components.push(
                ComponentView {
                    kind: ComponentKind::RootDir,
                    name: encode_utf8(seq![separator]),
                },
            )
        } else {
            self.components
        };
        PathView {
            text: if self.needs_no_separator(separator) {
                self.text + name
            } else {
                self.text.push(separator) + name
            },
            parent: Some(self.text),
            components: base.push(
                ComponentView { kind: ComponentKind::Normal, name: encode_utf8(name) },
            ),
        }
    }

    /// The path that a file name is on its own.
    pub open spec fn of_name(name: Seq<char>) -> PathView {
        let kind = if name == "."@ {
            ComponentKind::CurDir
        } else if name == ".."@ {
            ComponentKind::ParentDir
        } else {
            ComponentKind::Normal
        };
        PathView {
            text: name,
            parent: Some(Seq::empty()),
            components: seq![ComponentView { kind, name: encode_utf8(name) }],
        }
    }
}

/// How the prefix of a verbatim path begins.
pub open spec fn verbatim_mark() -> Seq<u8> {
    seq![0x5cu8, 0x5cu8, 0x3fu8, 0x5cu8]
}

/// Whether the name of a prefix is that of a drive: a letter and a colon.
pub open spec fn drive_name(name: Seq<u8>) -> bool {
    &&& name.len() == 2
    &&& name[1] == 0x3a
    &&& 0x41 <= name[0] <= 0x5a || 0x61 <= name[0] <= 0x7a
}

pub(crate) proof fn lemma_last_dot(name: Seq<u8>)
    ensures
        -1 <= last_dot(name) < name.len(),
        last_dot(name) >= 0 ==> name[last_dot(name)] == 0x2e,
        forall|i: int| last_dot(name) < i < name.len() ==> name[i] != 0x2e,
    decreases name.len(),
{
    if name.len() > 0 && name.last() != 0x2e {
        lemma_last_dot(name.drop_last());
        assert forall|i: int| last_dot(name) < i < name.len() implies name[i] != 0x2e by {
            if i < name.len() - 1 {
                assert(name[i] == name.drop_last()[i]);
            }
        }
    }
}

proof fn lemma_last_dot_is(name: Seq<u8>, n: int)
    requires
        -1 <= n < name.len(),
        n >= 0 ==> name[n] == 0x2e,
        forall|i: int| n < i < name.len() ==> name[i] != 0x2e,
    ensures
        last_dot(name) == n,
{
    lemma_last_dot(name);
}

/// The position behind the last dot, or 0 if there is none.
fn behind_last_dot(name: &Vec<u8>) -> (end: usize)
    ensures
        end == last_dot(name@) + 1,
{
    let mut end: usize = name.len();
    while end > 0 && name[end - 1] != 0x2e
        invariant
            end <= name@.len(),
            forall|i: int| end <= i < name@.len() ==> name@[i] != 0x2e,
        decreases end,
    {
        end -= 1;
    }
    proof {
        lemma_last_dot_is(name@, end - 1);
    }
    end
}

fn bytes_between(bytes: &Vec<u8>, from: usize, to: usize) -> (part: Vec<u8>)
    requires
        from <= to <= bytes@.len(),
    ensures
        part@ == bytes@.subrange(from as int, to as int),
{
    let mut part: Vec<u8> = Vec::new();
    let mut i: usize = from;
    while i < to
        invariant
            from <= i <= to <= bytes@.len(),
            part@ == bytes@.subrange(from as int, i as int),
        decreases to - i,
    {
        part.push(bytes[i]);
        i += 1;
    }
    part
}

pub fn same_bytes(left: &Vec<u8>, right: &Vec<u8>) -> (same: bool)
    ensures
        same == (left@ == right@),
{
    let same = *left == *right;
    assert(same ==> left@ == right@);
    same
}

fn same_component(left: &PathComponent, right: &PathComponent) -> (same: bool)
    ensures
        same == (left@ == right@),
{
    left.kind == right.kind && same_bytes(&left.name, &right.name)
}

impl FilePath {
    /// The file name, in the platform's encoding.
    pub fn file_name_bytes(&self) -> (name: Option<&Vec<u8>>)
        ensures
            match name {
                Some(name) => self@.file_name() == Some(name@),
                None => self@.file_name() is None,
            },
    {
        let count = self.components.len();
        if count > 0 && self.components[count - 1].kind == ComponentKind::Normal {
            Some(&self.components[count - 1].name)
        } else {
            None
        }
    }

    /// The file name, where it is text.
    pub fn file_name(&self) -> (name: Option<String>)
        ensures
            text::text_option(name) == text_of(self@.file_name()),
    {
        match self.file_name_bytes() {
            Some(name) => parse_utf8(name.as_slice()),
            None => None,
        }
    }

    /// The file name without its extension, where it is text.
    pub fn file_stem(&self) -> (stem: Option<String>)
        ensures
            text::text_option(stem) == text_of(self@.file_stem()),
    {
        match self.file_name_bytes() {
            Some(name) => {
                let behind = behind_last_dot(name);
                proof {
                    lemma_last_dot(name@);
                }
                let stem = if behind > 1 {
                    bytes_between(name, 0, behind - 1)
                } else {
                    copy_bytes(name)
                };
                assert(stem@ == stem_of(name@));
                parse_utf8(stem.as_slice())
            },
            None => None,
        }
    }

    /// The extension, where there is one and it is text.
    pub fn extension(&self) -> (extension: Option<String>)
        ensures
            text::text_option(extension) == text_of(self@.extension()),
    {
        match self.file_name_bytes() {
            Some(name) => {
                let behind = behind_last_dot(name);
                proof {
                    lemma_last_dot(name@);
                }
                if behind > 1 {
                    let extension = bytes_between(name, behind, name.len());
                    assert(extension@ == name@.skip(last_dot(name@) + 1));
                    parse_utf8(extension.as_slice())
                } else {
                    None
                }
            },
            None => None,
        }
    }

    /// The extension in lower case, where there is one and it is text.
    pub fn lower_extension(&self) -> (extension: Option<String>)
        ensures
            text::text_option(extension) == self@.lower_extension(),
    {
        match self.extension() {
            Some(extension) => Some(to_ascii_lower(extension.as_str())),
            None => None,
        }
    }

    /// Whether the path is `base` or lies below it, by whole components.
    pub fn starts_with(&self, base: &FilePath) -> (yes: bool)
        ensures
            yes == self@.starts_with(base@),
    {
        if base.components.len() > self.components.len() {
            return false;
        }
        let mut i: usize = 0;
        while i < base.components.len()
            invariant
                i <= base.components@.len() <= self.components@.len(),
                forall|j: int|
                    0 <= j < i ==> #[trigger] base@.components[j] == self@.components[j],
            decreases base.components@.len() - i,
        {
            if !same_component(&base.components[i], &self.components[i]) {
                assert(base@.components[i as int] != self@.components[i as int]);
                return false;
            }
            i += 1;
        }
        assert(base@.components =~= self@.components.take(base@.components.len() as int));
        true
    }

    /// Whether both paths have the same components.
    pub fn same_path(&self, other: &FilePath) -> (same: bool)
        ensures
            same == (self@.components == other@.components),
    {
        if self.components.len() != other.components.len() {
            assert(self@.components.len() != other@.components.len());
            return false;
        }
        let same = self.starts_with(other);
        assert(same ==> self@.components =~= other@.components);
        same
    }

    fn is_bare_prefix(&self) -> (yes: bool)
        ensures
            yes == self@.is_bare_prefix(),
    {
        self.components.len() == 1 && self.components[0].kind == ComponentKind::Prefix
    }

    /// Whether the path is a drive alone.
    fn is_bare_drive(&self) -> (yes: bool)
        ensures
            yes == (self@.is_bare_prefix() && drive_name(self@.components[0].name)),
    {
        if !self.is_bare_prefix() {
            return false;
        }
        let name = &self.components[0].name;
        name.len() == 2 && name[1] == 0x3a && (0x41 <= name[0] && name[0] <= 0x5a || 0x61
            <= name[0] && name[0] <= 0x7a)
    }

    fn is_verbatim(&self) -> (yes: bool)
        ensures
            yes == self@.is_verbatim(),
    {
        if self.components.len() == 0 || self.components[0].kind != ComponentKind::Prefix {
            return false;
        }
        let name = &self.components[0].name;
        assert(name@ == self@.components[0].name);
        let yes = name.len() >= 4 && name[0] == 0x5c && name[1] == 0x5c && name[2] == 0x3f
            && name[3] == 0x5c;
        assert(yes ==> name@.take(4) =~= verbatim_mark());
        assert(name@.len() >= 4 && name@.take(4) == verbatim_mark() ==> yes) by {
            if name@.len() >= 4 && name@.take(4) == verbatim_mark() {
                assert(name@.take(4)[0] == 0x5c);
                assert(name@.take(4)[1] == 0x5c);
                assert(name@.take(4)[2] == 0x3f);
                assert(name@.take(4)[3] == 0x5c);
            }
        }
        yes
    }

    /// The path of the entry `name` of this directory.
    pub fn join(&self, name: &str, separator: char) -> (joined: FilePath)
        ensures
            joined@ == self@.join(name@, separator),
    {
        let chars = text::to_chars(self.text.as_str());
        let bare_drive = self.is_bare_drive();
        let mut text = self.text.clone();
        if chars.len() > 0 && chars[chars.len() - 1] != separator && (chars[chars.len() - 1] != '/'
            || self.is_verbatim()) && !bare_drive {
            text.push(separator);
        }
        text.append(name);
        let mut components = copy_components(&self.components);
        if self.is_bare_prefix() && !bare_drive {
            let mut root = String::new();
            root.push(separator);
            assert(root@ =~= seq![separator]);
            components.push(
                PathComponent { kind: ComponentKind::RootDir, name: root.as_str().as_bytes_vec() },
            );
        }
        components.push(PathComponent { kind: ComponentKind::Normal, name: name.as_bytes_vec() });
        let joined = FilePath { text, parent: Some(self.text.clone()), components };
        assert(joined@.components =~= self@.join(name@, separator).components);
        assert(joined@.text =~= self@.join(name@, separator).text);
        joined
    }

    /// The path that a file name is on its own.
    pub fn of_name(name: &str) -> (path: FilePath)
        ensures
            path@ == PathView::of_name(name@),
    {
        let kind = if same_text(name, ".") {
            ComponentKind::CurDir
        } else if same_text(name, "..") {
            ComponentKind::ParentDir
        } else {
            ComponentKind::Normal
        };
        let mut components: Vec<PathComponent> = Vec::new();
        components.push(PathComponent { kind, name: name.as_bytes_vec() });
        let parent = String::new();
        let path = FilePath { text: name.to_owned(), parent: Some(parent), components };
        assert(path@.components =~= PathView::of_name(name@).components);
        assert(parent@ =~= Seq::<char>::empty());
        assert(path@ =~= PathView::of_name(name@));
        path
    }
}

// ---------------------------------------------------------------------------
// What a name says about a file
// ---------------------------------------------------------------------------

/// The extensions of the image files that can be decoded.
pub open spec fn image_extension(extension: Seq<char>) -> bool {
    ||| extension == "png"@
    ||| extension == "jpg"@
    ||| extension == "jpeg"@
    ||| extension == "gif"@
    ||| extension == "webp"@
    ||| extension == "bmp"@
    ||| extension == "tif"@
    ||| extension == "tiff"@
}

/// The extensions that mark a file as text without a look inside.
pub open spec fn text_extension(extension: Seq<char>) -> bool {
    ||| extension == "txt"@
    ||| extension == "md"@
    ||| extension == "markdown"@
    ||| extension == "rst"@
    ||| extension == "log"@
    ||| extension == "csv"@
    ||| extension == "tsv"@
    ||| extension == "json"@
    ||| extension == "jsonc"@
    ||| extension == "yaml"@
    ||| extension == "yml"@
    ||| extension == "toml"@
    ||| extension == "ini"@
    ||| extension == "cfg"@
    ||| extension == "conf"@
    ||| extension == "xml"@
    ||| extension == "html"@
    ||| extension == "htm"@
    ||| extension == "css"@
    ||| extension == "scss"@
    ||| extension == "less"@
    ||| extension == "js"@
    ||| extension == "jsx"@
    ||| extension == "ts"@
    ||| extension == "tsx"@
    ||| extension == "mjs"@
    ||| extension == "cjs"@
    ||| extension == "py"@
    ||| extension == "rs"@
    ||| extension == "c"@
    ||| extension == "h"@
    ||| extension == "cpp"@
    ||| extension == "cc"@
    ||| extension == "cxx"@
    ||| extension == "hpp"@
    ||| extension == "java"@
    ||| extension == "kt"@
    ||| extension == "kts"@
    ||| extension == "swift"@
    ||| extension == "go"@
    ||| extension == "rb"@
    ||| extension == "php"@
    ||| extension == "sh"@
    ||| extension == "bash"@
    ||| extension == "zsh"@
    ||| extension == "fish"@
    ||| extension == "sql"@
    ||| extension == "graphql"@
    ||| extension == "gql"@
    ||| extension == "proto"@
    ||| extension == "env"@
    ||| extension == "gitignore"@
}

/// The file names that mark a file as text without a look inside.
pub open spec fn text_file_name(name: Seq<char>) -> bool {
    ||| name == "Dockerfile"@
    ||| name == "Makefile"@
    ||| name == "Justfile"@
    ||| name == "Procfile"@
    ||| name == "CMakeLists.txt"@
    ||| name == ".env"@
    ||| name == ".gitignore"@
    ||| name == ".gitattributes"@
}

impl PathView {
    pub open spec fn is_supported_image_file(self) -> bool {
        self.lower_extension() matches Some(extension) && image_extension(extension)
    }

    pub open spec fn is_png_file(self) -> bool {
        self.lower_extension() == Some("png"@)
    }

    pub open spec fn is_gif_file(self) -> bool {
        self.lower_extension() == Some("gif"@)
    }

    /// A file name that is text and either is one of the known names or has one
    /// of the known extensions.
    pub open spec fn looks_like_supported_text_path(self) -> bool {
        text_of(self.file_name()) matches Some(name) && (text_file_name(name) || (
        self.lower_extension() matches Some(extension) && text_extension(extension)))
    }

    /// The extension of a text file as it is shown and stored.
    pub open spec fn normalized_text_extension(self) -> Seq<char> {
        nonempty_or(self.lower_extension(), "text"@)
    }
}

/// The text, where there is one and it is not empty, or else the other one.
pub open spec fn nonempty_or(text: Option<Seq<char>>, other: Seq<char>) -> Seq<char> {
    match text {
        Some(text) if text.len() > 0 => text,
        _ => other,
    }
}

fn known_image_extension(extension: &str) -> (yes: bool)
    ensures
        yes == image_extension(extension@),
{
    same_text(extension, "png")
        || same_text(extension, "jpg")
        || same_text(extension, "jpeg")
        || same_text(extension, "gif")
        || same_text(extension, "webp")
        || same_text(extension, "bmp")
        || same_text(extension, "tif")
        || same_text(extension, "tiff")
}

fn known_text_extension(extension: &str) -> (yes: bool)
    ensures
        yes == text_extension(extension@),
{
    same_text(extension, "txt")
        || same_text(extension, "md")
        || same_text(extension, "markdown")
        || same_text(extension, "rst")
        || same_text(extension, "log")
        || same_text(extension, "csv")
        || same_text(extension, "tsv")
        || same_text(extension, "json")
        || same_text(extension, "jsonc")
        || same_text(extension, "yaml")
        || same_text(extension, "yml")
        || same_text(extension, "toml")
        || same_text(extension, "ini")
        || same_text(extension, "cfg")
        || same_text(extension, "conf")
        || same_text(extension, "xml")
        || same_text(extension, "html")
        || same_text(extension, "htm")
        || same_text(extension, "css")
        || same_text(extension, "scss")
        || same_text(extension, "less")
        || same_text(extension, "js")
        || same_text(extension, "jsx")
        || same_text(extension, "ts")
        || same_text(extension, "tsx")
        || same_text(extension, "mjs")
        || same_text(extension, "cjs")
        || same_text(extension, "py")
        || same_text(extension, "rs")
        || same_text(extension, "c")
        || same_text(extension, "h")
        || same_text(extension, "cpp")
        || same_text(extension, "cc")
        || same_text(extension, "cxx")
        || same_text(extension, "hpp")
        || same_text(extension, "java")
        || same_text(extension, "kt")
        || same_text(extension, "kts")
        || same_text(extension, "swift")
        || same_text(extension, "go")
        || same_text(extension, "rb")
        || same_text(extension, "php")
        || same_text(extension, "sh")
        || same_text(extension, "bash")
        || same_text(extension, "zsh")
        || same_text(extension, "fish")
        || same_text(extension, "sql")
        || same_text(extension, "graphql")
        || same_text(extension, "gql")
        || same_text(extension, "proto")
        || same_text(extension, "env")
        || same_text(extension, "gitignore")
}

fn known_text_file_name(name: &str) -> (yes: bool)
    ensures
        yes == text_file_name(name@),
{
    same_text(name, "Dockerfile")
        || same_text(name, "Makefile")
        || same_text(name, "Justfile")
        || same_text(name, "Procfile")
        || same_text(name, "CMakeLists.txt")
        || same_text(name, ".env")
        || same_text(name, ".gitignore")
        || same_text(name, ".gitattributes")
}

/// Whether the extension is that of an image that can be decoded.
pub fn is_supported_image_file(path: &FilePath) -> (yes: bool)
    ensures
        yes == path@.is_supported_image_file(),
{
    match path.lower_extension() {
        Some(extension) => known_image_extension(extension.as_str()),
        None => false,
    }
}

pub fn is_png_file(path: &FilePath) -> (yes: bool)
    ensures
        yes == path@.is_png_file(),
{
    match path.lower_extension() {
        Some(extension) => same_text(extension.as_str(), "png"),
        None => false,
    }
}

pub fn is_gif_file(path: &FilePath) -> (yes: bool)
    ensures
        yes == path@.is_gif_file(),
{
    match path.lower_extension() {
        Some(extension) => same_text(extension.as_str(), "gif"),
        None => false,
    }
}

/// Whether a stored original is text: the images are all stored as PNG or GIF.
pub fn is_text_file(path: &FilePath) -> (yes: bool)
    ensures
        yes == (!path@.is_png_file() && !path@.is_gif_file()),
{
    !is_png_file(path) && !is_gif_file(path)
}

/// Whether the name alone marks the file as text.
pub fn looks_like_supported_text_path(path: &FilePath) -> (yes: bool)
    ensures
        yes == path@.looks_like_supported_text_path(),
{
    match path.file_name() {
        Some(name) => {
            if known_text_file_name(name.as_str()) {
                return true;
            }
            match path.lower_extension() {
                Some(extension) => known_text_extension(extension.as_str()),
                None => false,
            }
        },
        None => false,
    }
}

/// Bytes that are well-formed UTF-8 and hold no zero byte.
pub open spec fn text_bytes(bytes: Seq<u8>) -> bool {
    !bytes.contains(0) && valid_utf8(bytes)
}

pub fn looks_like_text_bytes(bytes: &Vec<u8>) -> (yes: bool)
    ensures
        yes == text_bytes(bytes@),
{
    let mut i: usize = 0;
    while i < bytes.len()
        invariant
            i <= bytes@.len(),
            forall|j: int| 0 <= j < i ==> bytes@[j] != 0,
        decreases bytes@.len() - i,
    {
        if bytes[i] == 0 {
            assert(bytes@[i as int] == 0);
            return false;
        }
        i += 1;
    }
    match core::str::from_utf8(bytes.as_slice()) {
        Ok(_) => true,
        Err(_) => false,
    }
}

fn nonempty_text_or(text: Option<String>, other: &str) -> (chosen: String)
    ensures
        chosen@ == nonempty_or(text::text_option(text), other@),
{
    match text {
        Some(text) => {
            if text.as_str().is_empty() {
                other.to_owned()
            } else {
                text
            }
        },
        None => other.to_owned(),
    }
}

/// The extension of a text file in lower case, or `text` where it has none.
pub fn normalized_text_extension(path: &FilePath) -> (extension: String)
    ensures
        extension@ == path@.normalized_text_extension(),
{
    nonempty_text_or(path.lower_extension(), "text")
}

/// The extension under which a text file is stored.
pub fn persisted_text_extension(path: &FilePath) -> (extension: String)
    ensures
        extension@ == path@.normalized_text_extension(),
{
    normalized_text_extension(path)
}

/// The extension of the name that a file is shown under, which is taken as a path,
/// or `file` where it has none.
pub open spec fn extension_from_name(name: PathView) -> Seq<char> {
    nonempty_or(name.lower_extension(), "file"@)
}

/// The extension of the name that a file is shown under in lower case, or `file`
/// where it has none.
pub fn normalized_file_extension_from_name(display_name: &FilePath) -> (extension: String)
    ensures
        extension@ == extension_from_name(display_name@),
{
    nonempty_text_or(display_name.lower_extension(), "file")
}

/// The extension of a path in lower case; where it has none, that of the name
/// it is shown under.
pub fn normalized_file_extension(path: &FilePath, display_name: &FilePath) -> (extension: String)
    ensures
        extension@ == nonempty_or(path@.lower_extension(), extension_from_name(display_name@)),
{
    let other = normalized_file_extension_from_name(display_name);
    nonempty_text_or(path.lower_extension(), other.as_str())
}

/// The extension of a path in lower case, or `png` where it has none that is
/// text.
pub fn image_file_extension(path: &FilePath) -> (extension: String)
    ensures
        extension@ == (match path@.lower_extension() {
            Some(extension) => extension,
            None => "png"@,
        }),
{
    match path.lower_extension() {
        Some(extension) => extension,
        None => "png".to_owned(),
    }
}

// ---------------------------------------------------------------------------
// Names that are put together and taken apart
// ---------------------------------------------------------------------------

proof fn lemma_encode_concat(first: Seq<char>, second: Seq<char>)
    ensures
        encode_utf8(first + second) == encode_utf8(first) + encode_utf8(second),
    decreases first.len(),
{
    if first.len() == 0 {
        assert(first + second == second);
        assert(encode_utf8(first) + encode_utf8(second) == encode_utf8(second));
    } else {
        let rest = first.drop_first();
        lemma_encode_concat(rest, second);
        assert((first + second).drop_first() == rest + second);
        assert(encode_utf8(first + second) == encode_scalar(first[0] as u32) + encode_utf8(
            rest + second,
        ));
        assert(encode_utf8(first) == encode_scalar(first[0] as u32) + encode_utf8(rest));
        assert(encode_utf8(first + second) == encode_utf8(first) + encode_utf8(second));
    }
}

/// A character of ASCII is encoded as its own byte, and no other is encoded with it.
proof fn lemma_encode_scalar_ascii(c: char, ascii: char)
    requires
        ascii as u32 <= 0x7f,
    ensures
        c == ascii ==> encode_scalar(c as u32) == seq![ascii as u8],
        c != ascii ==> !encode_scalar(c as u32).contains(ascii as u8),
{
    let u = c as u32;
    assert(is_scalar(u));
    if has_width_1_encoding(u) {
        assert(u <= 0x7f ==> (u & 0x7f) as u8 == u) by (bit_vector);
        assert(encode_scalar(u) == seq![u as u8]);
    } else {
        assert(leading_byte_width_2(u) >= 0x80) by (bit_vector);
        assert(leading_byte_width_3(u) >= 0x80) by (bit_vector);
        assert(leading_byte_width_4(u) >= 0x80) by (bit_vector);
        assert(last_continuation_byte(u) >= 0x80) by (bit_vector);
        assert(second_last_continuation_byte(u) >= 0x80) by (bit_vector);
        assert(third_last_continuation_byte(u) >= 0x80) by (bit_vector);
    }
}

/// Only a dot is encoded with the byte of a dot.
proof fn lemma_encode_scalar_dot(c: char)
    ensures
        c == '.' ==> encode_scalar(c as u32) == seq![0x2eu8],
        c != '.' ==> !encode_scalar(c as u32).contains(0x2e),
{
    lemma_encode_scalar_ascii(c, '.');
}

proof fn lemma_encode_ascii(text: Seq<char>, ascii: char)
    requires
        ascii as u32 <= 0x7f,
    ensures
        text.contains(ascii) <==> encode_utf8(text).contains(ascii as u8),
    decreases text.len(),
{
    if text.len() > 0 {
        let byte = ascii as u8;
        let rest = text.drop_first();
        lemma_encode_ascii(rest, ascii);
        lemma_encode_scalar_ascii(text[0], ascii);
        let first = encode_scalar(text[0] as u32);
        let whole = encode_utf8(text);
        assert(whole == first + encode_utf8(rest));
        assert(text.contains(ascii) <==> text[0] == ascii || rest.contains(ascii)) by {
            if text.contains(ascii) && text[0] != ascii {
                let i = choose|i: int| 0 <= i < text.len() && text[i] == ascii;
                assert(rest[i - 1] == ascii);
            }
            if rest.contains(ascii) {
                let i = choose|i: int| 0 <= i < rest.len() && rest[i] == ascii;
                assert(text[i + 1] == ascii);
            }
        }
        assert(whole.contains(byte) <==> first.contains(byte) || encode_utf8(rest).contains(
            byte,
        )) by {
            if whole.contains(byte) {
                let i = choose|i: int| 0 <= i < whole.len() && whole[i] == byte;
                if i < first.len() {
                    assert(first[i] == byte);
                } else {
                    assert(encode_utf8(rest)[i - first.len()] == byte);
                }
            }
            if first.contains(byte) {
                let i = choose|i: int| 0 <= i < first.len() && first[i] == byte;
                assert(whole[i] == byte);
            }
            if encode_utf8(rest).contains(byte) {
                let i = choose|i: int|
                    0 <= i < encode_utf8(rest).len() && encode_utf8(rest)[i] == byte;
                assert(whole[i + first.len()] == byte);
            }
        }
        if text[0] == ascii {
            assert(first[0] == byte);
        }
    }
}

pub(crate) proof fn lemma_encode_dots(text: Seq<char>)
    ensures
        text.contains('.') <==> encode_utf8(text).contains(0x2e),
{
    lemma_encode_ascii(text, '.');
}

proof fn lemma_lower_keeps_dots(text: Seq<char>)
    ensures
        text::ascii_lower(text).contains('.') <==> text.contains('.'),
        text::ascii_lower(text::ascii_lower(text)) == text::ascii_lower(text),
{
    let lower = text::ascii_lower(text);
    if text.contains('.') {
        let i = choose|i: int| 0 <= i < text.len() && text[i] == '.';
        assert(lower[i] == '.');
    }
    if lower.contains('.') {
        let i = choose|i: int| 0 <= i < lower.len() && lower[i] == '.';
        assert(text[i] == '.');
    }
    assert(text::ascii_lower(lower) =~= lower);
}

pub(crate) proof fn lemma_name_bytes(stem: Seq<char>, extension: Seq<char>)
    ensures
        encode_utf8(stem.push('.') + extension) == encode_utf8(stem) + seq![0x2eu8]
            + encode_utf8(extension),
{
    lemma_encode_concat(stem.push('.'), extension);
    assert(stem.push('.') == stem + seq!['.']);
    lemma_encode_concat(stem, seq!['.']);
    lemma_encode_scalar_dot('.');
    let dot = seq!['.'];
    assert(dot.drop_first() == Seq::<char>::empty());
    assert(encode_utf8(dot.drop_first()) == Seq::<u8>::empty());
    assert(encode_utf8(dot) == encode_scalar('.' as u32) + encode_utf8(dot.drop_first()));
    assert(encode_utf8(dot) == seq![0x2eu8]);
}

proof fn lemma_name_parts(stem: Seq<char>, extension: Seq<char>)
    requires
        stem.len() > 0,
        !extension.contains('.'),
    ensures
        stem_of(encode_utf8(stem.push('.') + extension)) == encode_utf8(stem),
        extension_of(encode_utf8(stem.push('.') + extension)) == Some(encode_utf8(extension)),
        text_of(Some(encode_utf8(stem))) == Some(stem),
        text_of(Some(encode_utf8(extension))) == Some(extension),
{
    let bytes = encode_utf8(stem.push('.') + extension);
    let front = encode_utf8(stem);
    let back = encode_utf8(extension);
    lemma_name_bytes(stem, extension);
    lemma_encode_dots(extension);
    assert forall|i: int| front.len() < i < bytes.len() implies bytes[i] != 0x2e by {
        assert(bytes[i] == back[i - front.len() - 1]);
    }
    assert(bytes[front.len() as int] == 0x2e);
    lemma_last_dot_is(bytes, front.len() as int);
    encode_utf8_first_scalar(stem);
    assert(front.len() > 0);
    assert(stem_of(bytes) == front);
    assert(bytes.skip(last_dot(bytes) + 1) == back);
    encode_utf8_valid_utf8(stem);
    encode_utf8_valid_utf8(extension);
    encode_utf8_decode_utf8(stem);
    encode_utf8_decode_utf8(extension);
}

/// A name made of a stem, a dot and an extension that has no dot is taken apart
/// into that stem and that extension.
pub proof fn law_name_round_trip(dir: PathView, stem: Seq<char>, extension: Seq<char>, separator: char)
    requires
        stem.len() > 0,
        !extension.contains('.'),
    ensures
        text_of(dir.join(stem.push('.') + extension, separator).file_stem()) == Some(stem),
        text_of(dir.join(stem.push('.') + extension, separator).extension()) == Some(extension),
{
    lemma_name_parts(stem, extension);
}

/// The extension of a text file, as it is stored, has no dot, is not empty, and
/// is in lower case.
pub proof fn lemma_text_extension_plain(path: PathView)
    ensures
        path.normalized_text_extension().len() > 0,
        !path.normalized_text_extension().contains('.'),
        text::ascii_lower(path.normalized_text_extension()) == path.normalized_text_extension(),
{
    reveal_strlit("text");
    assert(text::ascii_lower("text"@) =~= "text"@);
    match path.extension() {
        Some(bytes) => {
            let name = path.file_name()->0;
            lemma_last_dot(name);
            assert(!bytes.contains(0x2e)) by {
                if bytes.contains(0x2e) {
                    let i = choose|i: int| 0 <= i < bytes.len() && bytes[i] == 0x2e;
                    assert(name[last_dot(name) + 1 + i] == 0x2e);
                }
            }
            if valid_utf8(bytes) {
                let extension = decode_utf8(bytes);
                decode_utf8_encode_utf8(bytes);
                lemma_encode_dots(extension);
                lemma_lower_keeps_dots(extension);
            }
        },
        None => {},
    }
}

proof fn lemma_last_dot_of_text(text: Seq<char>) -> (at: int)
    ensures
        -1 <= at < text.len(),
        at >= 0 ==> text[at] == '.',
        forall|i: int| at < i < text.len() ==> text[i] != '.',
    decreases text.len(),
{
    if text.len() == 0 {
        -1
    } else if text.last() == '.' {
        text.len() - 1
    } else {
        let at = lemma_last_dot_of_text(text.drop_last());
        assert(at >= 0 ==> text[at] == text.drop_last()[at]);
        assert forall|i: int| at < i < text.len() implies text[i] != '.' by {
            if i < text.len() - 1 {
                assert(text[i] == text.drop_last()[i]);
            }
        }
        at
    }
}

/// The extension of a name is what stands behind its last dot.
pub(crate) proof fn lemma_extension_of_text(text: Seq<char>, at: int)
    requires
        -1 <= at < text.len(),
        at >= 0 ==> text[at] == '.',
        forall|i: int| at < i < text.len() ==> text[i] != '.',
    ensures
        at > 0 ==> text_of(extension_of(encode_utf8(text))) == Some(text.skip(at + 1)),
        at <= 0 ==> extension_of(encode_utf8(text)) is None,
{
    let bytes = encode_utf8(text);
    if at < 0 {
        lemma_encode_dots(text);
        lemma_last_dot_is(bytes, -1);
    } else {
        let behind = text.skip(at + 1);
        assert(text =~= text.take(at).push('.') + behind);
        assert(!behind.contains('.'));
        if at > 0 {
            lemma_name_parts(text.take(at), behind);
        } else {
            lemma_name_bytes(text.take(at), behind);
            lemma_encode_dots(behind);
            assert(encode_utf8(text.take(at)) =~= Seq::<u8>::empty());
            assert(bytes =~= seq![0x2eu8] + encode_utf8(behind));
            assert forall|i: int| 0 < i < bytes.len() implies bytes[i] != 0x2e by {
                assert(bytes[i] == encode_utf8(behind)[i - 1]);
            }
            lemma_last_dot_is(bytes, 0);
        }
    }
}

proof fn lemma_known_name(name: Seq<char>)
    requires
        text_file_name(name),
    ensures
        extension_of(encode_utf8(name)) matches Some(extension) ==> text_of(Some(extension))
            == Some("txt"@),
{
    reveal_strlit("Dockerfile");
    reveal_strlit("Makefile");
    reveal_strlit("Justfile");
    reveal_strlit("Procfile");
    reveal_strlit("CMakeLists.txt");
    reveal_strlit("txt");
    reveal_strlit(".env");
    reveal_strlit(".gitignore");
    reveal_strlit(".gitattributes");
    if name == "CMakeLists.txt"@ {
        assert(name.skip(11) =~= "txt"@);
        lemma_extension_of_text(name, 10);
    } else if name == ".env"@ || name == ".gitignore"@ || name == ".gitattributes"@ {
        lemma_extension_of_text(name, 0);
    } else {
        lemma_extension_of_text(name, -1);
    }
}

/// A name that has no extension of its own has none either when it is trimmed.
pub(crate) proof fn lemma_trimmed_extension(name: Seq<char>)
    requires
        text_of(extension_of(encode_utf8(name))) matches Some(extension) ==> extension.len() == 0,
    ensures
        extension_from_name(PathView::of_name(text::trim(name))) == "file"@,
{
    let (from, to) = text::lemma_trim_part(name);
    let part = text::trim(name);
    let at = lemma_last_dot_of_text(name);
    lemma_extension_of_text(name, at);
    assert(!text::is_white_space('.'));
    assert(forall|i: int| 0 <= i < part.len() ==> part[i] == name[from + i]);
    if at >= 0 {
        assert(from <= at < to);
        let own = at - from;
        assert(part[own] == '.');
        assert(at == 0 || at == name.len() - 1);
        lemma_extension_of_text(part, own);
        assert(own > 0 ==> part.skip(own + 1).len() == 0);
    } else {
        lemma_extension_of_text(part, -1);
    }
}

/// Whether a path is one of a text, or of an image, depends on its file name alone.
pub proof fn law_kind_by_name(path: PathView, other: PathView)
    requires
        path.file_name() == other.file_name(),
    ensures
        path.looks_like_supported_text_path() == other.looks_like_supported_text_path(),
        path.is_supported_image_file() == other.is_supported_image_file(),
{
}

/// The case of its extension does not matter for whether a path is one of a text,
/// or of an image.
pub proof fn law_kind_in_any_case(
    path: PathView,
    other: PathView,
    stem: Seq<char>,
    extension: Seq<char>,
    other_extension: Seq<char>,
)
    requires
        stem.len() > 0,
        !extension.contains('.'),
        !other_extension.contains('.'),
        text::ascii_lower(extension) == text::ascii_lower(other_extension),
        path.file_name() == Some(encode_utf8(stem.push('.') + extension)),
        other.file_name() == Some(encode_utf8(stem.push('.') + other_extension)),
    ensures
        path.looks_like_supported_text_path() == other.looks_like_supported_text_path(),
        path.is_supported_image_file() == other.is_supported_image_file(),
{
    let name = stem.push('.') + extension;
    let other_name = stem.push('.') + other_extension;
    lemma_name_parts(stem, extension);
    lemma_name_parts(stem, other_extension);
    encode_utf8_valid_utf8(name);
    encode_utf8_valid_utf8(other_name);
    encode_utf8_decode_utf8(name);
    encode_utf8_decode_utf8(other_name);
    reveal_strlit("txt");
    assert(text::ascii_lower("txt"@) =~= "txt"@);
    if text_file_name(name) {
        lemma_known_name(name);
    }
    if text_file_name(other_name) {
        lemma_known_name(other_name);
    }
}

proof fn lemma_extensions_apart(extension: Seq<char>)
    requires
        text_extension(extension),
    ensures
        !image_extension(extension),
{
    reveal_strlit("png");
    reveal_strlit("jpg");
    reveal_strlit("jpeg");
    reveal_strlit("gif");
    reveal_strlit("webp");
    reveal_strlit("bmp");
    reveal_strlit("tif");
    reveal_strlit("tiff");
    reveal_strlit("txt");
    reveal_strlit("md");
    reveal_strlit("markdown");
    reveal_strlit("rst");
    reveal_strlit("log");
    reveal_strlit("csv");
    reveal_strlit("tsv");
    reveal_strlit("json");
    reveal_strlit("jsonc");
    reveal_strlit("yaml");
    reveal_strlit("yml");
    reveal_strlit("toml");
    reveal_strlit("ini");
    reveal_strlit("cfg");
    reveal_strlit("conf");
    reveal_strlit("xml");
    reveal_strlit("html");
    reveal_strlit("htm");
    reveal_strlit("css");
    reveal_strlit("scss");
    reveal_strlit("less");
    reveal_strlit("js");
    reveal_strlit("jsx");
    reveal_strlit("ts");
    reveal_strlit("tsx");
    reveal_strlit("mjs");
    reveal_strlit("cjs");
    reveal_strlit("py");
    reveal_strlit("rs");
    reveal_strlit("c");
    reveal_strlit("h");
    reveal_strlit("cpp");
    reveal_strlit("cc");
    reveal_strlit("cxx");
    reveal_strlit("hpp");
    reveal_strlit("java");
    reveal_strlit("kt");
    reveal_strlit("kts");
    reveal_strlit("swift");
    reveal_strlit("go");
    reveal_strlit("rb");
    reveal_strlit("php");
    reveal_strlit("sh");
    reveal_strlit("bash");
    reveal_strlit("zsh");
    reveal_strlit("fish");
    reveal_strlit("sql");
    reveal_strlit("graphql");
    reveal_strlit("gql");
    reveal_strlit("proto");
    reveal_strlit("env");
    reveal_strlit("gitignore");
    if extension == "png"@ {
        assert(extension.len() == 3);
        assert(extension[0] == 'p' && extension[1] == 'n' && extension[2] == 'g');
    }
    if extension == "jpg"@ {
        assert(extension.len() == 3);
        assert(extension[0] == 'j' && extension[1] == 'p' && extension[2] == 'g');
    }
    if extension == "jpeg"@ {
        assert(extension.len() == 4);
        assert(extension[0] == 'j' && extension[1] == 'p' && extension[2] == 'e' && extension[3] == 'g');
    }
    if extension == "gif"@ {
        assert(extension.len() == 3);
        assert(extension[0] == 'g' && extension[1] == 'i' && extension[2] == 'f');
    }
    if extension == "webp"@ {
        assert(extension.len() == 4);
        assert(extension[0] == 'w' && extension[1] == 'e' && extension[2] == 'b' && extension[3] == 'p');
    }
    if extension == "bmp"@ {
        assert(extension.len() == 3);
        assert(extension[0] == 'b' && extension[1] == 'm' && extension[2] == 'p');
    }
    if extension == "tif"@ {
        assert(extension.len() == 3);
        assert(extension[0] == 't' && extension[1] == 'i' && extension[2] == 'f');
    }
    if extension == "tiff"@ {
        assert(extension.len() == 4);
        assert(extension[0] == 't' && extension[1] == 'i' && extension[2] == 'f' && extension[3] == 'f');
    }
}

/// No path is one of a text and of an image.
pub proof fn law_text_is_no_image(path: PathView)
    requires
        path.looks_like_supported_text_path(),
    ensures
        !path.is_supported_image_file(),
{
    let name = text_of(path.file_name())->0;
    decode_utf8_encode_utf8(path.file_name()->0);
    if text_file_name(name) {
        lemma_known_name(name);
    }
    reveal_strlit("txt");
    assert(text::ascii_lower("txt"@) =~= "txt"@);
    if let Some(extension) = path.lower_extension() {
        lemma_extensions_apart(extension);
    }
}

// ---------------------------------------------------------------------------
// What counts as text or as an image
// ---------------------------------------------------------------------------

/// Every text without the character U+0000 counts as text once it is encoded as
/// UTF-8, whatever its characters are; and whatever counts as text is such a text.
pub proof fn law_text_bytes(text: Seq<char>, bytes: Seq<u8>)
    ensures
        text_bytes(encode_utf8(text)) <==> !text.contains('\0'),
        text_bytes(bytes) ==> encode_utf8(decode_utf8(bytes)) == bytes && !decode_utf8(
            bytes,
        ).contains('\0'),
{
    lemma_encode_ascii(text, '\0');
    encode_utf8_valid_utf8(text);
    if text_bytes(bytes) {
        decode_utf8_encode_utf8(bytes);
        lemma_encode_ascii(decode_utf8(bytes), '\0');
    }
}

/// The files that are images by their names are those with one of these
/// extensions.
pub proof fn law_image_extensions(extension: Seq<char>)
    ensures
        image_extension(extension) <==> seq![
            "png"@,
            "jpg"@,
            "jpeg"@,
            "gif"@,
            "webp"@,
            "bmp"@,
            "tif"@,
            "tiff"@,
        ].contains(extension),
{
    let known = seq![
        "png"@,
        "jpg"@,
        "jpeg"@,
        "gif"@,
        "webp"@,
        "bmp"@,
        "tif"@,
        "tiff"@,
    ];
    if known.contains(extension) {
        let i = choose|i: int| 0 <= i < known.len() && known[i] == extension;
    }
    assert(known[0] == "png"@);
    assert(known[1] == "jpg"@);
    assert(known[2] == "jpeg"@);
    assert(known[3] == "gif"@);
    assert(known[4] == "webp"@);
    assert(known[5] == "bmp"@);
    assert(known[6] == "tif"@);
    assert(known[7] == "tiff"@);
}

/// The files that are texts by their extensions are those with one of these.
pub proof fn law_text_extensions(extension: Seq<char>)
    ensures
        text_extension(extension) <==> seq![
            "txt"@,
            "md"@,
            "markdown"@,
            "rst"@,
            "log"@,
            "csv"@,
            "tsv"@,
            "json"@,
            "jsonc"@,
            "yaml"@,
            "yml"@,
            "toml"@,
            "ini"@,
            "cfg"@,
            "conf"@,
            "xml"@,
            "html"@,
            "htm"@,
            "css"@,
            "scss"@,
            "less"@,
            "js"@,
            "jsx"@,
            "ts"@,
            "tsx"@,
            "mjs"@,
            "cjs"@,
            "py"@,
            "rs"@,
            "c"@,
            "h"@,
            "cpp"@,
            "cc"@,
            "cxx"@,
            "hpp"@,
            "java"@,
            "kt"@,
            "kts"@,
            "swift"@,
            "go"@,
            "rb"@,
            "php"@,
            "sh"@,
            "bash"@,
            "zsh"@,
            "fish"@,
            "sql"@,
            "graphql"@,
            "gql"@,
            "proto"@,
            "env"@,
            "gitignore"@,
        ].contains(extension),
{
    let known = seq![
        "txt"@,
        "md"@,
        "markdown"@,
        "rst"@,
        "log"@,
        "csv"@,
        "tsv"@,
        "json"@,
        "jsonc"@,
        "yaml"@,
        "yml"@,
        "toml"@,
        "ini"@,
        "cfg"@,
        "conf"@,
        "xml"@,
        "html"@,
        "htm"@,
        "css"@,
        "scss"@,
        "less"@,
        "js"@,
        "jsx"@,
        "ts"@,
        "tsx"@,
        "mjs"@,
        "cjs"@,
        "py"@,
        "rs"@,
        "c"@,
        "h"@,
        "cpp"@,
        "cc"@,
        "cxx"@,
        "hpp"@,
        "java"@,
        "kt"@,
        "kts"@,
        "swift"@,
        "go"@,
        "rb"@,
        "php"@,
        "sh"@,
        "bash"@,
        "zsh"@,
        "fish"@,
        "sql"@,
        "graphql"@,
        "gql"@,
        "proto"@,
        "env"@,
        "gitignore"@,
    ];
    if known.contains(extension) {
        let i = choose|i: int| 0 <= i < known.len() && known[i] == extension;
    }
    assert(known[0] == "txt"@);
    assert(known[1] == "md"@);
    assert(known[2] == "markdown"@);
    assert(known[3] == "rst"@);
    assert(known[4] == "log"@);
    assert(known[5] == "csv"@);
    assert(known[6] == "tsv"@);
    assert(known[7] == "json"@);
    assert(known[8] == "jsonc"@);
    assert(known[9] == "yaml"@);
    assert(known[10] == "yml"@);
    assert(known[11] == "toml"@);
    assert(known[12] == "ini"@);
    assert(known[13] == "cfg"@);
    assert(known[14] == "conf"@);
    assert(known[15] == "xml"@);
    assert(known[16] == "html"@);
    assert(known[17] == "htm"@);
    assert(known[18] == "css"@);
    assert(known[19] == "scss"@);
    assert(known[20] == "less"@);
    assert(known[21] == "js"@);
    assert(known[22] == "jsx"@);
    assert(known[23] == "ts"@);
    assert(known[24] == "tsx"@);
    assert(known[25] == "mjs"@);
    assert(known[26] == "cjs"@);
    assert(known[27] == "py"@);
    assert(known[28] == "rs"@);
    assert(known[29] == "c"@);
    assert(known[30] == "h"@);
    assert(known[31] == "cpp"@);
    assert(known[32] == "cc"@);
    assert(known[33] == "cxx"@);
    assert(known[34] == "hpp"@);
    assert(known[35] == "java"@);
    assert(known[36] == "kt"@);
    assert(known[37] == "kts"@);
    assert(known[38] == "swift"@);
    assert(known[39] == "go"@);
    assert(known[40] == "rb"@);
    assert(known[41] == "php"@);
    assert(known[42] == "sh"@);
    assert(known[43] == "bash"@);
    assert(known[44] == "zsh"@);
    assert(known[45] == "fish"@);
    assert(known[46] == "sql"@);
    assert(known[47] == "graphql"@);
    assert(known[48] == "gql"@);
    assert(known[49] == "proto"@);
    assert(known[50] == "env"@);
    assert(known[51] == "gitignore"@);
}

/// The files that are texts by their whole names are those with one of these.
pub proof fn law_text_file_names(name: Seq<char>)
    ensures
        text_file_name(name) <==> seq![
            "Dockerfile"@,
            "Makefile"@,
            "Justfile"@,
            "Procfile"@,
            "CMakeLists.txt"@,
            ".env"@,
            ".gitignore"@,
            ".gitattributes"@,
        ].contains(name),
{
    let known = seq![
        "Dockerfile"@,
        "Makefile"@,
        "Justfile"@,
        "Procfile"@,
        "CMakeLists.txt"@,
        ".env"@,
        ".gitignore"@,
        ".gitattributes"@,
    ];
    if known.contains(name) {
        let i = choose|i: int| 0 <= i < known.len() && known[i] == name;
    }
    assert(known[0] == "Dockerfile"@);
    assert(known[1] == "Makefile"@);
    assert(known[2] == "Justfile"@);
    assert(known[3] == "Procfile"@);
    assert(known[4] == "CMakeLists.txt"@);
    assert(known[5] == ".env"@);
    assert(known[6] == ".gitignore"@);
    assert(known[7] == ".gitattributes"@);
}

/// A file name is its stem, a dot and its extension, which has no dot, and the stem
/// is not empty; a name that cannot be taken apart so has no extension, and its stem
/// is the whole name.
pub proof fn law_name_parts(name: Seq<u8>)
    ensures
        match extension_of(name) {
            Some(extension) => {
                &&& name == stem_of(name).push(0x2e) + extension
                &&& stem_of(name).len() > 0
                &&& !extension.contains(0x2e)
            },
            None => stem_of(name) == name && forall|i: int|
                0 < i < name.len() ==> #[trigger] name[i] != 0x2e,
        },
{
    lemma_last_dot(name);
    let at = last_dot(name);
    if at > 0 {
        let extension = name.skip(at + 1);
        assert(name =~= name.take(at).push(0x2e) + extension);
        if extension.contains(0x2e) {
            let i = choose|i: int| 0 <= i < extension.len() && extension[i] == 0x2e;
            assert(name[at + 1 + i] == 0x2e);
        }
    }
}

/// What a path is called by its last component, and only where that is a name.
pub proof fn law_last_component(path: PathView, name: Seq<u8>)
    ensures
        path.file_name() == Some(name) <==> path.components.len() > 0
            && path.components[path.components.len() - 1] == (ComponentView {
            kind: ComponentKind::Normal,
            name,
        }),
        path.file_name() == Some(name) ==> path.file_stem() == Some(stem_of(name))
            && path.extension() == extension_of(name),
        path.file_name() is None ==> path.file_stem() is None && path.extension() is None,
{
}

/// An extension is read without regard to the case of its letters: it is known as
/// PNG, GIF, an image or a text by its lower case alone.
pub proof fn law_extension_case(path: PathView, extension: Seq<char>)
    requires
        path.extension() == Some(encode_utf8(extension)),
    ensures
        path.lower_extension() == Some(text::ascii_lower(extension)),
        path.is_png_file() <==> text::ascii_lower(extension) == "png"@,
        path.is_gif_file() <==> text::ascii_lower(extension) == "gif"@,
        path.is_supported_image_file() <==> image_extension(text::ascii_lower(extension)),
        text_extension(text::ascii_lower(extension)) && text_of(path.file_name()) is Some
            ==> path.looks_like_supported_text_path(),
        path.normalized_text_extension() == (if extension.len() > 0 {
            text::ascii_lower(extension)
        } else {
            "text"@
        }),
{
    encode_utf8_valid_utf8(extension);
    encode_utf8_decode_utf8(extension);
}

/// A path lies below another exactly where its components are those of the other
/// and some more.
pub proof fn law_starts_with(path: PathView, base: PathView, rest: Seq<ComponentView>)
    ensures
        path.components == base.components + rest ==> path.starts_with(base),
        path.starts_with(base) ==> path.components == base.components + path.components.skip(
            base.components.len() as int,
        ),
{
    if path.components == base.components + rest {
        assert(base.components =~= path.components.subrange(0, base.components.len() as int));
    }
    if path.starts_with(base) {
        assert(path.components =~= base.components + path.components.skip(
            base.components.len() as int,
        ));
    }
}

/// An entry that is joined to a directory lies below it and is called by its name,
/// and its text is that of the directory, one separator at most, and the name.
pub proof fn law_joined(dir: PathView, name: Seq<char>, separator: char)
    ensures
        dir.join(name, separator).starts_with(dir),
        dir.join(name, separator).file_name() == Some(encode_utf8(name)),
        dir.join(name, separator).parent == Some(dir.text),
        dir.join(name, separator).text == dir.text + name || dir.join(name, separator).text
            == dir.text.push(separator) + name,
        dir.text.len() > 0 && dir.text.last() != separator && dir.text.last() != '/'
            && !dir.is_bare_prefix() ==> dir.join(name, separator).text == dir.text.push(separator)
            + name,
        dir.text.len() > 0 && dir.text.last() == separator ==> dir.join(name, separator).text
            == dir.text + name,
{
    let joined = dir.join(name, separator);
    assert(dir.components =~= joined.components.subrange(0, dir.components.len() as int));
}

/// What is joined to a directory becomes one more component, and the text of the
/// directory gets a separator where it needs one: none behind nothing, behind another
/// separator or behind a drive alone. A prefix alone that is no drive is joined at its
/// root.
pub proof fn law_joined_components(dir: PathView, name: Seq<char>, separator: char)
    ensures
        ({
            let joined = dir.join(name, separator);
            let last = ComponentView { kind: ComponentKind::Normal, name: encode_utf8(name) };
            let prefix = dir.components.len() == 1 && dir.components[0].kind
                == ComponentKind::Prefix;
            let mark = dir.components[0].name;
            let drive = prefix && mark.len() == 2 && mark[1] == 0x3a && (0x41 <= mark[0] <= 0x5a
                || 0x61 <= mark[0] <= 0x7a);
            &&& !prefix || drive ==> joined.components == dir.components.push(last)
            &&& prefix && !drive ==> joined.components == dir.components.push(
                ComponentView {
                    kind: ComponentKind::RootDir,
                    name: encode_utf8(seq![separator]),
                },
            ).push(last)
            &&& dir.text.len() == 0 ==> joined.text == name
            &&& drive ==> joined.text == dir.text + name
            &&& dir.text.len() > 0 && dir.text.last() == separator ==> joined.text == dir.text
                + name
            &&& dir.text.len() > 0 && dir.text.last() == '/' && (dir.components.len() == 0
                || dir.components[0].kind != ComponentKind::Prefix) ==> joined.text == dir.text
                + name
            &&& dir.text.len() > 0 && dir.text.last() != separator && dir.text.last() != '/'
                && !drive ==> joined.text == dir.text.push(separator) + name
        }),
{
    if dir.text.len() == 0 {
        assert(dir.text + name =~= name);
    }
}

/// Behind the prefix of a verbatim path a slash is part of a name, and no separator.
pub proof fn law_joined_verbatim(dir: PathView, mark: Seq<u8>, name: Seq<char>, separator: char)
    requires
        dir.components.len() > 1,
        dir.components[0] == (ComponentView { kind: ComponentKind::Prefix, name: mark }),
        mark.len() >= 4,
        dir.text.len() > 0,
        dir.text.last() == '/',
        separator != '/',
    ensures
        mark[0] == 0x5c && mark[1] == 0x5c && mark[2] == 0x3f && mark[3] == 0x5c ==> dir.join(
            name,
            separator,
        ).text == dir.text.push(separator) + name,
        mark[0] != 0x5c || mark[1] != 0x5c || mark[2] != 0x3f || mark[3] != 0x5c ==> dir.join(
            name,
            separator,
        ).text == dir.text + name,
{
    let start = mark.take(4);
    if mark[0] == 0x5c && mark[1] == 0x5c && mark[2] == 0x3f && mark[3] == 0x5c {
        assert(start =~= verbatim_mark());
    } else {
        assert(start[0] == mark[0] && start[1] == mark[1] && start[2] == mark[2] && start[3]
            == mark[3]);
        assert(start != verbatim_mark());
    }
}

/// A name on its own is a path of one component, called by this name unless it is one
/// of the two that stand for a directory.
pub proof fn law_of_name(name: Seq<char>)
    ensures
        PathView::of_name(name).text == name,
        PathView::of_name(name).components.len() == 1,
        name != "."@ && name != ".."@ ==> PathView::of_name(name).file_name() == Some(
            encode_utf8(name),
        ),
        PathView::of_name("."@).file_name() is None,
        PathView::of_name(".."@).file_name() is None,
{
}

/// A text counts where there is one and it is not empty, and otherwise the other does.
pub proof fn law_nonempty_or(text: Seq<char>, other: Seq<char>)
    ensures
        text.len() > 0 ==> nonempty_or(Some(text), other) == text,
        text.len() == 0 ==> nonempty_or(Some(text), other) == other,
        nonempty_or(None, other) == other,
{
}

/// A path is that of a text by its whole name or by its extension, and that of an
/// image by its extension alone; one without extension, or whose name is no text, is
/// none of the latter.
pub proof fn law_kinds_of_path(path: PathView, name: Seq<char>)
    ensures
        path.file_name() == Some(encode_utf8(name)) && path.extension() is None ==> (
        path.looks_like_supported_text_path() <==> text_file_name(name)),
        path.file_name() == Some(encode_utf8(name)) && text_file_name(name)
            ==> path.looks_like_supported_text_path(),
        path.file_name() == Some(encode_utf8(name)) && !text_file_name(name) ==> (
        path.looks_like_supported_text_path() <==> exists|extension: Seq<char>|
            text_extension(extension) && #[trigger] path.has_lower_extension(extension)),
        path.extension() is None ==> !path.is_supported_image_file() && !path.is_png_file()
            && !path.is_gif_file(),
        path.file_name() is None ==> !path.looks_like_supported_text_path()
            && !path.is_supported_image_file(),
        path.is_supported_image_file() <==> exists|extension: Seq<char>|
            image_extension(extension) && #[trigger] path.has_lower_extension(extension),
{
    encode_utf8_valid_utf8(name);
    encode_utf8_decode_utf8(name);
    if let Some(extension) = path.lower_extension() {
        assert(path.has_lower_extension(extension));
    }
}

impl PathView {
    /// Whether the extension is a text that has this lower case.
    pub open spec fn has_lower_extension(self, lower: Seq<char>) -> bool {
        match self.extension() {
            Some(bytes) => valid_utf8(bytes) && text::ascii_lower(decode_utf8(bytes)) == lower,
            None => false,
        }
    }
}

} // verus!
