//! The records of stored items, the errors of the store, and what is known of a
//! file on disk.

use vstd::prelude::*;
use vstd::string::*;

use crate::paths::{FilePath, PathView};
use crate::pixels::{PixelsView, RgbaPixels};
use crate::text::same_text;
use crate::{paths, text};

verus! {

broadcast use vstd::string::group_string_axioms;

// ---------------------------------------------------------------------------
// Records
// ---------------------------------------------------------------------------

#[derive(Clone, Copy, Debug, PartialEq, Eq, Structural)]
pub enum StoredImageKind {
    Raster,
    Gif,
    Text,
    File,
}

/// Whether the file that an item is imported from stays or goes.
#[derive(Clone, Copy, Debug, PartialEq, Eq, Structural)]
pub enum ImportMode {
    Copy,
    Move,
}

/// A stored item.
#[derive(Debug)]
pub struct StoredImage {
    pub hash: String,
    pub display_name: String,
    pub width: u32,
    pub height: u32,
    pub kind: StoredImageKind,
    /// The file with the contents.
    pub original_path: FilePath,
    pub thumbnail_path: Option<FilePath>,
    /// The file that refers to `original_path`, where that lies outside the store.
    pub reference_path: Option<FilePath>,
    pub text_preview: String,
    pub line_count: usize,
    pub byte_len: u64,
    pub file_extension: String,
}

#[verifier::ext_equal]
pub struct RecordView {
    pub hash: Seq<char>,
    pub display_name: Seq<char>,
    pub width: u32,
    pub height: u32,
    pub kind: StoredImageKind,
    pub original_path: PathView,
    pub thumbnail_path: Option<PathView>,
    pub reference_path: Option<PathView>,
    pub text_preview: Seq<char>,
    pub line_count: usize,
    pub byte_len: u64,
    pub file_extension: Seq<char>,
}

pub open spec fn path_option(path: Option<FilePath>) -> Option<PathView> {
    match path {
        Some(path) => Some(path@),
        None => None,
    }
}

impl View for StoredImage {
    type V = RecordView;

    open spec fn view(&self) -> RecordView {
        RecordView {
            hash: self.hash@,
            display_name: self.display_name@,
            width: self.width,
            height: self.height,
            kind: self.kind,
            original_path: self.original_path@,
            thumbnail_path: path_option(self.thumbnail_path),
            reference_path: path_option(self.reference_path),
            text_preview: self.text_preview@,
            line_count: self.line_count,
            byte_len: self.byte_len,
            file_extension: self.file_extension@,
        }
    }
}

/// The records of a store, in order.
pub open spec fn record_views(records: Seq<StoredImage>) -> Seq<RecordView> {
    records.map_values(|record: StoredImage| record@)
}

pub open spec fn same_location(left: Option<PathView>, right: Option<PathView>) -> bool {
    match (left, right) {
        (Some(left), Some(right)) => left.components == right.components,
        (None, None) => true,
        _ => false,
    }
}

impl RecordView {
    /// Whether two records are equal. Paths are equal if their components are.
    pub open spec fn same(self, other: RecordView) -> bool {
        &&& self.hash == other.hash
        &&& self.display_name == other.display_name
        &&& self.width == other.width
        &&& self.height == other.height
        &&& self.kind == other.kind
        &&& self.original_path.components == other.original_path.components
        &&& same_location(self.thumbnail_path, other.thumbnail_path)
        &&& same_location(self.reference_path, other.reference_path)
        &&& self.text_preview == other.text_preview
        &&& self.line_count == other.line_count
        &&& self.byte_len == other.byte_len
        &&& self.file_extension == other.file_extension
    }
}

pub fn copy_path_option(path: &Option<FilePath>) -> (copy: Option<FilePath>)
    ensures
        path_option(copy) == path_option(*path),
{
    match path {
        Some(path) => Some(path.clone()),
        None => None,
    }
}

fn same_path_option(left: &Option<FilePath>, right: &Option<FilePath>) -> (same: bool)
    ensures
        same == same_location(path_option(*left), path_option(*right)),
{
    match (left, right) {
        (Some(left), Some(right)) => left.same_path(right),
        (None, None) => true,
        _ => false,
    }
}

impl Clone for StoredImage {
    fn clone(&self) -> (copy: Self)
        ensures
            copy@ == self@,
    {
        StoredImage {
            hash: self.hash.clone(),
            display_name: self.display_name.clone(),
            width: self.width,
            height: self.height,
            kind: self.kind,
            original_path: self.original_path.clone(),
            thumbnail_path: copy_path_option(&self.thumbnail_path),
            reference_path: copy_path_option(&self.reference_path),
            text_preview: self.text_preview.clone(),
            line_count: self.line_count,
            byte_len: self.byte_len,
            file_extension: self.file_extension.clone(),
        }
    }
}

impl PartialEq for StoredImage {
    fn eq(&self, other: &Self) -> (same: bool) {
        same_text(self.hash.as_str(), other.hash.as_str()) && same_text(
            self.display_name.as_str(),
            other.display_name.as_str(),
        ) && self.width == other.width && self.height == other.height && self.kind == other.kind
            && self.original_path.same_path(&other.original_path) && same_path_option(
            &self.thumbnail_path,
            &other.thumbnail_path,
        ) && same_path_option(&self.reference_path, &other.reference_path) && same_text(
            self.text_preview.as_str(),
            other.text_preview.as_str(),
        ) && self.line_count == other.line_count && self.byte_len == other.byte_len && same_text(
            self.file_extension.as_str(),
            other.file_extension.as_str(),
        )
    }
}

impl vstd::std_specs::cmp::PartialEqSpecImpl for StoredImage {
    open spec fn obeys_eq_spec() -> bool {
        true
    }

    open spec fn eq_spec(&self, other: &Self) -> bool {
        self@.same(other@)
    }
}

impl Eq for StoredImage {

}

/// Whether two lists hold equal records in the same order.
pub open spec fn same_records(left: Seq<RecordView>, right: Seq<RecordView>) -> bool {
    left.len() == right.len() && forall|i: int|
        0 <= i < left.len() ==> (#[trigger] left[i]).same(right[i])
}

/// Whether two lists hold equal records in the same order.
pub fn equal_records(left: &Vec<StoredImage>, right: &Vec<StoredImage>) -> (same: bool)
    ensures
        same == same_records(record_views(left@), record_views(right@)),
{
    if left.len() != right.len() {
        return false;
    }
    let mut i: usize = 0;
    while i < left.len()
        invariant
            i <= left@.len() == right@.len(),
            forall|j: int|
                0 <= j < i ==> (#[trigger] record_views(left@)[j]).same(record_views(right@)[j]),
        decreases left@.len() - i,
    {
        if !(left[i] == right[i]) {
            assert(!record_views(left@)[i as int].same(record_views(right@)[i as int]));
            return false;
        }
        i += 1;
    }
    true
}

// ---------------------------------------------------------------------------
// Errors
// ---------------------------------------------------------------------------

/// What went wrong.
#[derive(Clone, Copy, Debug, PartialEq, Eq, Structural)]
pub enum ErrorKind {
    /// No stored image has the index.
    NoImageAt,
    /// No stored item has the index.
    NoItemAt,
    NotRegularFile,
    NotTextFile,
    NotTextItem,
    ReadFailed,
    MetadataFailed,
    DecodeFailed,
    SaveFailed,
    RemoveFailed,
    OpenFailed,
    PreviewFailed,
    RevealFailed,
    /// The pixels of a clipboard image do not match its size.
    BufferMismatch,
    /// The item has no image to show.
    NoPreview,
    RevealUnsupported,
}

/// An error of the store: what went wrong, with what (a path or an index), and
/// for what reason, where the system gave one.
#[derive(Debug)]
pub struct StoreError {
    pub kind: ErrorKind,
    pub subject: String,
    pub cause: Option<String>,
}

#[verifier::ext_equal]
pub struct ErrorView {
    pub kind: ErrorKind,
    pub subject: Seq<char>,
    pub cause: Option<Seq<char>>,
}

impl View for StoreError {
    type V = ErrorView;

    open spec fn view(&self) -> ErrorView {
        ErrorView {
            kind: self.kind,
            subject: self.subject@,
            cause: text::text_option(self.cause),
        }
    }
}

/// What an error says before its subject.
pub open spec fn message_start(kind: ErrorKind) -> Seq<char> {
    match kind {
        ErrorKind::NoImageAt => "image index "@,
        ErrorKind::NoItemAt => "item index "@,
        ErrorKind::NotRegularFile => ""@,
        ErrorKind::NotTextFile => ""@,
        ErrorKind::NotTextItem => ""@,
        ErrorKind::ReadFailed => "failed to read "@,
        ErrorKind::MetadataFailed => "failed to read metadata for "@,
        ErrorKind::DecodeFailed => "failed to decode "@,
        ErrorKind::SaveFailed => "failed to save "@,
        ErrorKind::RemoveFailed => "failed to remove "@,
        ErrorKind::OpenFailed => "failed to open "@,
        ErrorKind::PreviewFailed => "failed to open preview "@,
        ErrorKind::RevealFailed => "failed to reveal "@,
        ErrorKind::BufferMismatch => "clipboard image buffer does not match dimensions"@,
        ErrorKind::NoPreview => "this item does not expose image previews"@,
        ErrorKind::RevealUnsupported => "revealing files is not supported on this platform"@,
    }
}

/// What an error says after its subject.
pub open spec fn message_end(kind: ErrorKind) -> Seq<char> {
    match kind {
        ErrorKind::NoImageAt | ErrorKind::NoItemAt => " does not exist"@,
        ErrorKind::NotRegularFile => " is not a regular file"@,
        ErrorKind::NotTextFile => " does not look like a text file"@,
        ErrorKind::NotTextItem => " is not a supported text item"@,
        _ => ""@,
    }
}

impl ErrorView {
    /// The error as one line, the reason behind a colon.
    pub open spec fn message(self) -> Seq<char> {
        let message = message_start(self.kind) + self.subject + message_end(self.kind);
        match self.cause {
            Some(cause) => message + ": "@ + cause,
            None => message,
        }
    }
}

pub open spec fn path_error(kind: ErrorKind, path: PathView) -> ErrorView {
    ErrorView { kind, subject: path.text, cause: None }
}

pub open spec fn io_error(kind: ErrorKind, path: PathView, cause: Seq<char>) -> ErrorView {
    ErrorView { kind, subject: path.text, cause: Some(cause) }
}

pub open spec fn index_error(kind: ErrorKind, index: usize) -> ErrorView {
    ErrorView { kind, subject: text::decimal(index as nat), cause: None }
}

pub open spec fn bare_error(kind: ErrorKind) -> ErrorView {
    ErrorView { kind, subject: ""@, cause: None }
}

impl StoreError {
    /// An error about a path.
    pub fn of_path(kind: ErrorKind, path: &FilePath) -> (error: StoreError)
        ensures
            error@ == path_error(kind, path@),
    {
        StoreError { kind, subject: path.text.clone(), cause: None }
    }

    /// An error about a path, with the reason that the system gave.
    pub fn of_io(kind: ErrorKind, path: &FilePath, cause: &str) -> (error: StoreError)
        ensures
            error@ == io_error(kind, path@, cause@),
    {
        StoreError { kind, subject: path.text.clone(), cause: Some(cause.to_owned()) }
    }

    /// An error about an index.
    pub fn of_index(kind: ErrorKind, index: usize) -> (error: StoreError)
        ensures
            error@ == index_error(kind, index),
    {
        let mut subject: String = String::new();
        text::push_decimal(&mut subject, index as u64);
        assert(subject@ == text::decimal(index as nat));
        StoreError { kind, subject, cause: None }
    }

    /// An error about nothing in particular.
    pub fn bare(kind: ErrorKind) -> (error: StoreError)
        ensures
            error@ == bare_error(kind),
    {
        StoreError { kind, subject: "".to_owned(), cause: None }
    }

    /// The error as one line, the reason behind a colon.
    pub fn message(&self) -> (message: String)
        ensures
            message@ == self@.message(),
    {
        let mut message = match self.kind {
            ErrorKind::NoImageAt => "image index ".to_owned(),
            ErrorKind::NoItemAt => "item index ".to_owned(),
            ErrorKind::NotRegularFile => "".to_owned(),
            ErrorKind::NotTextFile => "".to_owned(),
            ErrorKind::NotTextItem => "".to_owned(),
            ErrorKind::ReadFailed => "failed to read ".to_owned(),
            ErrorKind::MetadataFailed => "failed to read metadata for ".to_owned(),
            ErrorKind::DecodeFailed => "failed to decode ".to_owned(),
            ErrorKind::SaveFailed => "failed to save ".to_owned(),
            ErrorKind::RemoveFailed => "failed to remove ".to_owned(),
            ErrorKind::OpenFailed => "failed to open ".to_owned(),
            ErrorKind::PreviewFailed => "failed to open preview ".to_owned(),
            ErrorKind::RevealFailed => "failed to reveal ".to_owned(),
            ErrorKind::BufferMismatch => {
                "clipboard image buffer does not match dimensions".to_owned()
            },
            ErrorKind::NoPreview => "this item does not expose image previews".to_owned(),
            ErrorKind::RevealUnsupported => {
                "revealing files is not supported on this platform".to_owned()
            },
        };
        message.append(self.subject.as_str());
        match self.kind {
            ErrorKind::NoImageAt | ErrorKind::NoItemAt => message.append(" does not exist"),
            ErrorKind::NotRegularFile => message.append(" is not a regular file"),
            ErrorKind::NotTextFile => message.append(" does not look like a text file"),
            ErrorKind::NotTextItem => message.append(" is not a supported text item"),
            _ => message.append(""),
        }
        match &self.cause {
            Some(cause) => {
                message.append(": ");
                message.append(cause.as_str());
            },
            None => {},
        }
        message
    }
}

// ---------------------------------------------------------------------------
// Files on disk
// ---------------------------------------------------------------------------

/// What the disk said about one file. A reading that failed holds the reason.
#[derive(Debug)]
pub struct FileProbe {
    pub path: FilePath,
    pub byte_len: Result<u64, String>,
    pub contents: Result<Vec<u8>, String>,
    /// The image that the contents decode to.
    pub pixels: Result<RgbaPixels, String>,
}

#[verifier::ext_equal]
pub struct ProbeView {
    pub path: PathView,
    pub byte_len: Result<u64, Seq<char>>,
    pub contents: Result<Seq<u8>, Seq<char>>,
    pub pixels: Result<PixelsView, Seq<char>>,
}

impl View for FileProbe {
    type V = ProbeView;

    open spec fn view(&self) -> ProbeView {
        ProbeView {
            path: self.path@,
            byte_len: match self.byte_len {
                Ok(byte_len) => Ok(byte_len),
                Err(cause) => Err(cause@),
            },
            contents: match self.contents {
                Ok(contents) => Ok(contents@),
                Err(cause) => Err(cause@),
            },
            pixels: match self.pixels {
                Ok(pixels) => Ok(pixels@),
                Err(cause) => Err(cause@),
            },
        }
    }
}

impl ProbeView {
    /// Whether a thumbnail can be made of the image, if there is one.
    pub open spec fn storable(self) -> bool {
        self.pixels matches Ok(pixels) ==> pixels.storable()
    }
}

impl FileProbe {
    /// Whether a thumbnail can be made of the image, if there is one.
    pub fn is_storable(&self) -> (yes: bool)
        ensures
            yes == self@.storable(),
    {
        match &self.pixels {
            Ok(pixels) => pixels.is_storable(),
            Err(_) => true,
        }
    }
}

/// A file that is to be imported: what the disk said about the path that was
/// given, and about the same file under its canonical path. Where there is no
/// canonical path, the given one stands in its place.
#[derive(Debug)]
pub struct SourceFile {
    pub given: FileProbe,
    /// Whether the given path is that of a regular file.
    pub is_file: bool,
    pub canonical: FileProbe,
}

#[verifier::ext_equal]
pub struct SourceView {
    pub given: ProbeView,
    pub is_file: bool,
    pub canonical: ProbeView,
}

impl View for SourceFile {
    type V = SourceView;

    open spec fn view(&self) -> SourceView {
        SourceView {
            given: self.given@,
            is_file: self.is_file,
            canonical: self.canonical@,
        }
    }
}

impl SourceView {
    /// Whether an import only refers to the file: it is to be copied, or is neither
    /// image nor text.
    pub open spec fn only_referred(self, mode: ImportMode) -> bool {
        mode == ImportMode::Copy || {
            &&& !self.given.path.is_supported_image_file()
            &&& !self.given.path.looks_like_supported_text_path()
            &&& self.given.contents matches Ok(contents) ==> !paths::text_bytes(contents)
        }
    }

    /// Whether a thumbnail can be made of the image that the file is imported as, if
    /// it is one.
    pub open spec fn storable(self, mode: ImportMode) -> bool {
        if self.only_referred(mode) {
            self.canonical.storable()
        } else {
            self.given.path.is_supported_image_file() ==> self.given.storable()
        }
    }
}

impl SourceFile {
    /// Whether a thumbnail can be made of the image that the file is imported as, if
    /// it is one.
    pub fn is_storable(&self, mode: ImportMode) -> (yes: bool)
        ensures
            yes == self@.storable(mode),
    {
        let path = &self.given.path;
        if mode == ImportMode::Copy {
            return self.canonical.is_storable();
        }
        if paths::is_supported_image_file(path) {
            return self.given.is_storable();
        }
        if paths::looks_like_supported_text_path(path) {
            return true;
        }
        match &self.given.contents {
            Ok(contents) => paths::looks_like_text_bytes(contents) || self.canonical.is_storable(),
            Err(_) => self.canonical.is_storable(),
        }
    }
}

// ---------------------------------------------------------------------------
// Laws
// ---------------------------------------------------------------------------

/// What an error says: what went wrong and with what, and the reason behind a colon
/// where there is one.
pub proof fn law_message(kind: ErrorKind, subject: Seq<char>, cause: Seq<char>)
    ensures
        ({
            let said = ErrorView { kind, subject, cause: None }.message();
            &&& ErrorView { kind, subject, cause: Some(cause) }.message() == said + ": "@ + cause
            &&& kind == ErrorKind::NoImageAt ==> said == "image index "@ + subject
                + " does not exist"@
            &&& kind == ErrorKind::NoItemAt ==> said == "item index "@ + subject
                + " does not exist"@
            &&& kind == ErrorKind::NotRegularFile ==> said == subject + " is not a regular file"@
            &&& kind == ErrorKind::NotTextFile ==> said == subject
                + " does not look like a text file"@
            &&& kind == ErrorKind::NotTextItem ==> said == subject
                + " is not a supported text item"@
            &&& kind == ErrorKind::ReadFailed ==> said == "failed to read "@ + subject
            &&& kind == ErrorKind::MetadataFailed ==> said == "failed to read metadata for "@
                + subject
            &&& kind == ErrorKind::DecodeFailed ==> said == "failed to decode "@ + subject
            &&& kind == ErrorKind::SaveFailed ==> said == "failed to save "@ + subject
            &&& kind == ErrorKind::RemoveFailed ==> said == "failed to remove "@ + subject
            &&& kind == ErrorKind::OpenFailed ==> said == "failed to open "@ + subject
            &&& kind == ErrorKind::PreviewFailed ==> said == "failed to open preview "@ + subject
            &&& kind == ErrorKind::RevealFailed ==> said == "failed to reveal "@ + subject
            &&& kind == ErrorKind::BufferMismatch ==> said
                == "clipboard image buffer does not match dimensions"@ + subject
            &&& kind == ErrorKind::NoPreview ==> said == "this item does not expose image previews"@
                + subject
            &&& kind == ErrorKind::RevealUnsupported ==> said
                == "revealing files is not supported on this platform"@ + subject
        }),
{
    reveal_strlit("");
    assert(""@ =~= Seq::empty());
    assert(""@ + subject =~= subject);
    let start = message_start(kind);
    assert(start + subject + ""@ =~= start + subject);
}

/// What an error is about: a path as it is written, an index in decimal, or nothing;
/// and the reason that was given, where one was.
pub proof fn law_subjects(kind: ErrorKind, path: PathView, cause: Seq<char>, index: usize)
    ensures
        path_error(kind, path).kind == kind,
        path_error(kind, path).subject == path.text,
        path_error(kind, path).cause is None,
        io_error(kind, path, cause).kind == kind,
        io_error(kind, path, cause).subject == path.text,
        io_error(kind, path, cause).cause == Some(cause),
        index_error(kind, index).kind == kind,
        text::number_of(index_error(kind, index).subject) == index,
        index_error(kind, index).cause is None,
        bare_error(kind).kind == kind,
        bare_error(kind).subject.len() == 0,
        bare_error(kind).cause is None,
{
    text::law_decimal(index as nat);
    reveal_strlit("");
}

/// Two records are equal where all that they say is, and paths are where they have the
/// same components; whatever else differs makes them different.
pub proof fn law_same(left: RecordView, right: RecordView)
    ensures
        left.same(left),
        left.same(right) == right.same(left),
        left.same(right) && left.original_path == right.original_path && left.thumbnail_path
            == right.thumbnail_path && left.reference_path == right.reference_path ==> left
            == right,
        left.same(right) ==> left.original_path.components == right.original_path.components && (
        left.thumbnail_path is Some <==> right.thumbnail_path is Some) && (left.reference_path is Some
            <==> right.reference_path is Some),
        left.same(right) && left.thumbnail_path is Some ==> left.thumbnail_path->0.components
            == right.thumbnail_path->0.components,
        left.same(right) && left.reference_path is Some ==> left.reference_path->0.components
            == right.reference_path->0.components,
{
}

/// Two lists hold equal records only where they are as long and equal at each place.
pub proof fn law_same_records(left: Seq<RecordView>, right: Seq<RecordView>, i: int)
    ensures
        same_records(left, left),
        left.len() != right.len() ==> !same_records(left, right),
        0 <= i < left.len() && same_records(left, right) ==> left[i].same(right[i]),
        left.len() == right.len() && !same_records(left, right) ==> exists|k: int|
            0 <= k < left.len() && !(#[trigger] left[k]).same(right[k]),
{
}

/// What a record is taken to say is what it says.
pub proof fn law_record_view(record: StoredImage)
    ensures
        record@.hash == record.hash@,
        record@.display_name == record.display_name@,
        record@.width == record.width,
        record@.height == record.height,
        record@.kind == record.kind,
        record@.original_path == record.original_path@,
        record@.thumbnail_path is Some <==> record.thumbnail_path is Some,
        record.thumbnail_path matches Some(path) ==> record@.thumbnail_path == Some(path@),
        record@.reference_path is Some <==> record.reference_path is Some,
        record.reference_path matches Some(path) ==> record@.reference_path == Some(path@),
        record@.text_preview == record.text_preview@,
        record@.line_count == record.line_count,
        record@.byte_len == record.byte_len,
        record@.file_extension == record.file_extension@,
{
}

/// Only an image has to be scaled: that of the file itself where it is moved into the
/// store, and that behind its canonical path where it is only referred to.
pub proof fn law_source_storable(source: SourceView)
    ensures
        source.storable(ImportMode::Copy) == source.canonical.storable(),
        source.given.path.is_supported_image_file() ==> source.storable(ImportMode::Move)
            == source.given.storable(),
        !source.given.path.is_supported_image_file()
            && source.given.path.looks_like_supported_text_path() ==> source.storable(
            ImportMode::Move,
        ),
        !source.given.path.is_supported_image_file()
            && !source.given.path.looks_like_supported_text_path() ==> match source.given.contents {
            Ok(bytes) => source.storable(ImportMode::Move) == (paths::text_bytes(bytes)
                || source.canonical.storable()),
            Err(_) => source.storable(ImportMode::Move) == source.canonical.storable(),
        },
        source.canonical.pixels is Err ==> source.canonical.storable(),
        source.canonical.pixels matches Ok(pixels) ==> source.canonical.storable()
            == pixels.storable(),
{
}

} // verus!
