//! Where the files of the store lie.

use vstd::prelude::*;
use vstd::string::*;

use crate::paths;
use crate::paths::{FilePath, PathView};
use crate::records;

verus! {

broadcast use vstd::string::group_string_axioms;

/// The directory of the store, and the character that separates the components
/// of a path.
#[derive(Debug)]
pub struct StoreLayout {
    pub root: FilePath,
    pub separator: char,
}

#[verifier::ext_equal]
pub struct LayoutView {
    pub root: PathView,
    pub separator: char,
}

impl View for StoreLayout {
    type V = LayoutView;

    open spec fn view(&self) -> LayoutView {
        LayoutView { root: self.root@, separator: self.separator }
    }
}

/// A file name: a hash, a dot and an extension.
pub open spec fn file_name_of(hash: Seq<char>, extension: Seq<char>) -> Seq<char> {
    hash.push('.') + extension
}

impl LayoutView {
    pub open spec fn originals_dir(self) -> PathView {
        self.root.join("originals"@, self.separator)
    }

    pub open spec fn thumbnails_dir(self) -> PathView {
        self.root.join("thumbnails"@, self.separator)
    }

    pub open spec fn metadata_dir(self) -> PathView {
        self.root.join("metadata"@, self.separator)
    }

    pub open spec fn file_refs_dir(self) -> PathView {
        self.root.join("file-refs"@, self.separator)
    }

    /// Where the contents of an item are stored.
    pub open spec fn original_path(self, hash: Seq<char>, extension: Seq<char>) -> PathView {
        self.originals_dir().join(file_name_of(hash, extension), self.separator)
    }

    pub open spec fn thumbnail_path(self, hash: Seq<char>) -> PathView {
        self.thumbnails_dir().join(file_name_of(hash, "png"@), self.separator)
    }

    /// Where the display name of an item is stored.
    pub open spec fn metadata_path(self, hash: Seq<char>) -> PathView {
        self.metadata_dir().join(file_name_of(hash, "txt"@), self.separator)
    }

    /// Where the path that a reference is to is stored.
    pub open spec fn reference_path(self, hash: Seq<char>) -> PathView {
        self.file_refs_dir().join(file_name_of(hash, "path"@), self.separator)
    }
}

fn hash_file_name(hash: &str, extension: &str) -> (name: String)
    ensures
        name@ == file_name_of(hash@, extension@),
{
    let mut name = hash.to_owned();
    name.push('.');
    name.append(extension);
    name
}

impl LayoutView {
    /// Where the store of a user lies: below the directory for local data, or
    /// below that for temporary files where there is none.
    pub open spec fn of_user(
        data_local_dir: Option<PathView>,
        temp_dir: PathView,
        separator: char,
    ) -> LayoutView {
        let base = match data_local_dir {
            Some(dir) => dir,
            None => temp_dir,
        };
        LayoutView { root: base.join("pictray"@, separator), separator }
    }

    /// The directories of the store.
    pub open spec fn directories(self) -> Seq<PathView> {
        seq![
            self.originals_dir(),
            self.thumbnails_dir(),
            self.metadata_dir(),
            self.file_refs_dir(),
        ]
    }
}

impl StoreLayout {
    /// Where the store of a user lies.
    pub fn of_user(
        data_local_dir: Option<FilePath>,
        temp_dir: FilePath,
        separator: char,
    ) -> (layout: StoreLayout)
        ensures
            layout@ == LayoutView::of_user(
                records::path_option(data_local_dir),
                temp_dir@,
                separator,
            ),
    {
        let base = match data_local_dir {
            Some(dir) => dir,
            None => temp_dir,
        };
        StoreLayout { root: base.join("pictray", separator), separator }
    }

    /// The directories of the store, which have to be there before it is opened.
    pub fn directories(&self) -> (dirs: Vec<FilePath>)
        ensures
            dirs@.map_values(|dir: FilePath| dir@) == self@.directories(),
    {
        let mut dirs: Vec<FilePath> = Vec::new();
        dirs.push(self.originals_dir());
        dirs.push(self.thumbnails_dir());
        dirs.push(self.metadata_dir());
        dirs.push(self.file_refs_dir());
        assert(dirs@.map_values(|dir: FilePath| dir@) =~= self@.directories());
        dirs
    }

    pub fn originals_dir(&self) -> (dir: FilePath)
        ensures
            dir@ == self@.originals_dir(),
    {
        self.root.join("originals", self.separator)
    }

    pub fn thumbnails_dir(&self) -> (dir: FilePath)
        ensures
            dir@ == self@.thumbnails_dir(),
    {
        self.root.join("thumbnails", self.separator)
    }

    pub fn metadata_dir(&self) -> (dir: FilePath)
        ensures
            dir@ == self@.metadata_dir(),
    {
        self.root.join("metadata", self.separator)
    }

    pub fn file_refs_dir(&self) -> (dir: FilePath)
        ensures
            dir@ == self@.file_refs_dir(),
    {
        self.root.join("file-refs", self.separator)
    }

    /// Where the contents of an item are stored.
    pub fn original_path(&self, hash: &str, extension: &str) -> (path: FilePath)
        ensures
            path@ == self@.original_path(hash@, extension@),
    {
        self.originals_dir().join(hash_file_name(hash, extension).as_str(), self.separator)
    }

    pub fn thumbnail_path(&self, hash: &str) -> (path: FilePath)
        ensures
            path@ == self@.thumbnail_path(hash@),
    {
        self.thumbnails_dir().join(hash_file_name(hash, "png").as_str(), self.separator)
    }

    /// Where the display name of an item is stored.
    pub fn metadata_path(&self, hash: &str) -> (path: FilePath)
        ensures
            path@ == self@.metadata_path(hash@),
    {
        self.metadata_dir().join(hash_file_name(hash, "txt").as_str(), self.separator)
    }

    /// Where the path that a reference is to is stored.
    pub fn reference_path(&self, hash: &str) -> (path: FilePath)
        ensures
            path@ == self@.reference_path(hash@),
    {
        self.file_refs_dir().join(hash_file_name(hash, "path").as_str(), self.separator)
    }
}

/// The store lies in `pictray` below the directory for local data, or below that for
/// temporary files where there is none.
pub proof fn law_of_user(dir: PathView, temp_dir: PathView, separator: char)
    ensures
        LayoutView::of_user(Some(dir), temp_dir, separator).root == dir.join(
            "pictray"@,
            separator,
        ),
        LayoutView::of_user(None, temp_dir, separator).root == temp_dir.join(
            "pictray"@,
            separator,
        ),
        LayoutView::of_user(Some(dir), temp_dir, separator).separator == separator,
        LayoutView::of_user(None, temp_dir, separator).separator == separator,
{
}

/// The files of an item are called by its hash, and each kind of them lies in its own
/// directory of the store.
pub proof fn law_file_names(layout: LayoutView, hash: Seq<char>, extension: Seq<char>)
    ensures
        layout.original_path(hash, extension).file_name() == Some(
            vstd::utf8::encode_utf8(hash + seq!['.'] + extension),
        ),
        layout.thumbnail_path(hash).file_name() == Some(
            vstd::utf8::encode_utf8(hash + seq!['.'] + "png"@),
        ),
        layout.metadata_path(hash).file_name() == Some(
            vstd::utf8::encode_utf8(hash + seq!['.'] + "txt"@),
        ),
        layout.reference_path(hash).file_name() == Some(
            vstd::utf8::encode_utf8(hash + seq!['.'] + "path"@),
        ),
        layout.original_path(hash, extension).parent == Some(
            layout.root.join("originals"@, layout.separator).text,
        ),
        layout.thumbnail_path(hash).parent == Some(
            layout.root.join("thumbnails"@, layout.separator).text,
        ),
        layout.metadata_path(hash).parent == Some(
            layout.root.join("metadata"@, layout.separator).text,
        ),
        layout.reference_path(hash).parent == Some(
            layout.root.join("file-refs"@, layout.separator).text,
        ),
        layout.original_path(hash, extension).starts_with(
            layout.root.join("originals"@, layout.separator),
        ),
        layout.thumbnail_path(hash).starts_with(layout.root.join("thumbnails"@, layout.separator)),
        layout.metadata_path(hash).starts_with(layout.root.join("metadata"@, layout.separator)),
        layout.reference_path(hash).starts_with(layout.root.join("file-refs"@, layout.separator)),
{
    paths::law_joined(
        layout.originals_dir(),
        file_name_of(hash, extension),
        layout.separator,
    );
    paths::law_joined(layout.thumbnails_dir(), file_name_of(hash, "png"@), layout.separator);
    paths::law_joined(layout.metadata_dir(), file_name_of(hash, "txt"@), layout.separator);
    paths::law_joined(layout.file_refs_dir(), file_name_of(hash, "path"@), layout.separator);
    assert(file_name_of(hash, extension) =~= hash + seq!['.'] + extension);
    assert(file_name_of(hash, "png"@) =~= hash + seq!['.'] + "png"@);
    assert(file_name_of(hash, "txt"@) =~= hash + seq!['.'] + "txt"@);
    assert(file_name_of(hash, "path"@) =~= hash + seq!['.'] + "path"@);
}

/// The directories of the store are its four, and nothing else.
pub proof fn law_directories(layout: LayoutView, dir: PathView)
    ensures
        layout.directories().contains(dir) <==> dir == layout.root.join(
            "originals"@,
            layout.separator,
        ) || dir == layout.root.join("thumbnails"@, layout.separator) || dir == layout.root.join(
            "metadata"@,
            layout.separator,
        ) || dir == layout.root.join("file-refs"@, layout.separator),
{
    assert(layout.directories()[0] == layout.originals_dir());
    assert(layout.directories()[1] == layout.thumbnails_dir());
    assert(layout.directories()[2] == layout.metadata_dir());
    assert(layout.directories()[3] == layout.file_refs_dir());
}

} // verus!
