//! A model of the disk: what the operations of the store leave on it, and that
//! what was stored is found again there.

use vstd::prelude::*;
use vstd::string::*;

use crate::actions::{ActionView, FinishView};
use crate::layout::LayoutView;
use crate::loading::{OriginalEntryView, ReferenceEntryView};
use crate::paths::{ComponentView, PathView};
use crate::pixels::PixelsView;
use crate::records::{ImportMode, ProbeView, RecordView, SourceView};
use crate::store::StoreView;
use crate::{digest, laws, loading, paths, store, summary, text};

verus! {

// ---------------------------------------------------------------------------
// Model
// ---------------------------------------------------------------------------

/// A file: the bytes in it, and when it last changed.
#[verifier::ext_equal]
pub struct FileView {
    pub bytes: Seq<u8>,
    pub modified: int,
}

/// The files on a disk, by the components of their paths, and the time there. Time
/// goes on with each write.
#[verifier::ext_equal]
pub struct DiskView {
    pub files: Map<Seq<ComponentView>, FileView>,
    pub clock: int,
}

/// How an image is encoded as PNG.
pub type PngEncoding = spec_fn(PixelsView) -> Seq<u8>;

impl DiskView {
    /// The file, if there is one.
    pub open spec fn file(self, path: PathView) -> Option<FileView> {
        if self.files.contains_key(path.components) {
            Some(self.files[path.components])
        } else {
            None
        }
    }

    /// What the file holds, if there is one.
    pub open spec fn read(self, path: PathView) -> Option<Seq<u8>> {
        match self.file(path) {
            Some(file) => Some(file.bytes),
            None => None,
        }
    }

    /// When the file last changed, if there is one.
    pub open spec fn modified(self, path: PathView) -> Option<int> {
        match self.file(path) {
            Some(file) => Some(file.modified),
            None => None,
        }
    }

    /// The disk once the bytes are written to the file.
    pub open spec fn with(self, path: PathView, bytes: Seq<u8>) -> DiskView {
        let now = self.clock + 1;
        DiskView {
            files: self.files.insert(path.components, FileView { bytes, modified: now }),
            clock: now,
        }
    }

    pub open spec fn without(self, path: PathView) -> DiskView {
        DiskView { files: self.files.remove(path.components), clock: self.clock }
    }

    /// The disk after a step that succeeded. A file that is moved keeps its time.
    pub open spec fn performed(self, step: ActionView, png: PngEncoding) -> DiskView {
        match step {
            ActionView::Write { path, bytes } => self.with(path, bytes),
            ActionView::SavePng { path, image } => self.with(path, png(image)),
            ActionView::CopyFile { from, to } => match self.read(from) {
                Some(bytes) => self.with(to, bytes),
                None => self,
            },
            ActionView::MoveFile { from, to } => match self.file(from) {
                Some(file) => DiskView {
                    files: self.files.remove(from.components).insert(to.components, file),
                    clock: self.clock,
                },
                None => self,
            },
            ActionView::RemoveIfExists { path } => self.without(path),
            ActionView::Touch { path } | ActionView::TouchIfPresent { path } => match self.read(
                path,
            ) {
                Some(bytes) => self.with(path, bytes),
                None => self,
            },
        }
    }

    /// The disk after some steps that succeeded, one after the other.
    pub open spec fn after(self, steps: Seq<ActionView>, png: PngEncoding) -> DiskView
        decreases steps.len(),
    {
        if steps.len() == 0 {
            self
        } else {
            self.after(steps.drop_last(), png).performed(steps.last(), png)
        }
    }
}

/// Steps that stay within the store change nothing outside of it.
pub proof fn law_outside_unchanged(
    disk: DiskView,
    steps: Seq<ActionView>,
    png: PngEncoding,
    root: PathView,
    path: PathView,
)
    requires
        laws::all_within(steps, root),
        !path.starts_with(root),
    ensures
        disk.after(steps, png).file(path) == disk.file(path),
    decreases steps.len(),
{
    if steps.len() > 0 {
        let before = steps.drop_last();
        assert forall|i: int| 0 <= i < before.len() implies laws::stays_within(
            #[trigger] before[i],
            root,
        ) by {
            assert(before[i] == steps[i]);
        }
        law_outside_unchanged(disk, before, png, root, path);
        assert(laws::stays_within(steps[steps.len() - 1], root));
    }
}

/// Steps that stay within the store, but that they may take one file away, change
/// nothing else outside of it.
pub proof fn law_others_unchanged(
    disk: DiskView,
    steps: Seq<ActionView>,
    png: PngEncoding,
    root: PathView,
    source: PathView,
    path: PathView,
)
    requires
        laws::all_within_but(steps, root, source),
        !path.starts_with(root),
        path.components != source.components,
    ensures
        disk.after(steps, png).file(path) == disk.file(path),
    decreases steps.len(),
{
    if steps.len() > 0 {
        let before = steps.drop_last();
        assert forall|i: int| 0 <= i < before.len() implies laws::stays_within_but(
            #[trigger] before[i],
            root,
            source,
        ) by {
            assert(before[i] == steps[i]);
        }
        law_others_unchanged(disk, before, png, root, source, path);
        assert(laws::stays_within_but(steps[steps.len() - 1], root, source));
    }
}

/// Whether one of the steps writes or removes the file.
pub open spec fn some_targets(steps: Seq<ActionView>, path: PathView) -> bool {
    exists|i: int|
        0 <= i < steps.len() && (#[trigger] steps[i]).target().components == path.components
}

/// Steps that move no file leave every file as it is that they neither write nor
/// remove.
pub proof fn law_untargeted_unchanged(
    disk: DiskView,
    steps: Seq<ActionView>,
    png: PngEncoding,
    path: PathView,
)
    requires
        forall|i: int| 0 <= i < steps.len() ==> (#[trigger] steps[i]) !is MoveFile,
        !some_targets(steps, path),
    ensures
        disk.after(steps, png).file(path) == disk.file(path),
    decreases steps.len(),
{
    if steps.len() > 0 {
        let before = steps.drop_last();
        assert forall|i: int| 0 <= i < before.len() implies (#[trigger] before[i]) !is MoveFile by {
            assert(before[i] == steps[i]);
        }
        if some_targets(before, path) {
            let i = choose|i: int|
                0 <= i < before.len() && (#[trigger] before[i]).target().components
                    == path.components;
            assert(steps[i].target().components == path.components);
        }
        law_untargeted_unchanged(disk, before, png, path);
        assert(steps[steps.len() - 1] !is MoveFile);
        assert(steps[steps.len() - 1].target().components != path.components);
    }
}

/// An import that only refers to its file leaves it, and every other file, as it
/// is, except for the files of the store that it writes or removes. None of those
/// lies outside the store.
pub proof fn law_referred_source_stays(
    view: StoreView,
    source: SourceView,
    mode: ImportMode,
    disk: DiskView,
    png: PngEncoding,
    path: PathView,
)
    requires
        source.only_referred(mode),
    ensures
        ({
            let steps = view.import(source, mode).1.steps();
            &&& !some_targets(steps, path) ==> disk.after(steps, png).file(path) == disk.file(path)
            &&& laws::all_placed(view) && !path.starts_with(view.layout.root) ==> !some_targets(
                steps,
                path,
            )
        }),
{
    let steps = view.import(source, mode).1.steps();
    laws::lemma_referring_moves_nothing(view, source);
    if !some_targets(steps, path) {
        law_untargeted_unchanged(disk, steps, png, path);
    }
    if laws::all_placed(view) && !path.starts_with(view.layout.root) {
        laws::law_referring_import_stays_within(view, source, mode);
        if some_targets(steps, path) {
            let i = choose|i: int|
                0 <= i < steps.len() && (#[trigger] steps[i]).target().components
                    == path.components;
            assert(laws::stays_within(steps[i], view.layout.root));
        }
    }
}

// ---------------------------------------------------------------------------
// Files of the store are told apart
// ---------------------------------------------------------------------------

proof fn lemma_encodings_apart(first: Seq<char>, second: Seq<char>)
    requires
        first != second,
    ensures
        vstd::utf8::encode_utf8(first) != vstd::utf8::encode_utf8(second),
{
    vstd::utf8::encode_utf8_decode_utf8(first);
    vstd::utf8::encode_utf8_decode_utf8(second);
}

proof fn lemma_directories_apart(
    layout: LayoutView,
    first: Seq<char>,
    second: Seq<char>,
    first_name: Seq<char>,
    second_name: Seq<char>,
)
    requires
        first != second,
    ensures
        layout.root.join(first, layout.separator).join(first_name, layout.separator).components
            != layout.root.join(second, layout.separator).join(
            second_name,
            layout.separator,
        ).components,
{
    lemma_encodings_apart(first, second);
    let depth = layout.root.join(first, layout.separator).components.len() - 1;
    let a = layout.root.join(first, layout.separator).join(first_name, layout.separator).components;
    let b = layout.root.join(second, layout.separator).join(
        second_name,
        layout.separator,
    ).components;
    assert(a[depth].name == vstd::utf8::encode_utf8(first));
    assert(b[depth].name == vstd::utf8::encode_utf8(second));
}

/// The contents, the thumbnail, the name and the reference of an item are four
/// different files.
pub proof fn law_files_apart(layout: LayoutView, hash: Seq<char>, extension: Seq<char>)
    ensures
        layout.original_path(hash, extension).components != layout.thumbnail_path(hash).components,
        layout.original_path(hash, extension).components != layout.metadata_path(hash).components,
        layout.original_path(hash, extension).components != layout.reference_path(hash).components,
        layout.thumbnail_path(hash).components != layout.metadata_path(hash).components,
        layout.thumbnail_path(hash).components != layout.reference_path(hash).components,
        layout.metadata_path(hash).components != layout.reference_path(hash).components,
{
    reveal_strlit("originals");
    reveal_strlit("thumbnails");
    reveal_strlit("metadata");
    reveal_strlit("file-refs");
    assert("originals"@[0] != "thumbnails"@[0]);
    assert("originals"@[0] != "metadata"@[0]);
    assert("originals"@[0] != "file-refs"@[0]);
    assert("thumbnails"@[0] != "metadata"@[0]);
    assert("thumbnails"@[0] != "file-refs"@[0]);
    assert("metadata"@[0] != "file-refs"@[0]);
    let original = crate::layout::file_name_of(hash, extension);
    let png = crate::layout::file_name_of(hash, "png"@);
    let txt = crate::layout::file_name_of(hash, "txt"@);
    let path = crate::layout::file_name_of(hash, "path"@);
    lemma_directories_apart(layout, "originals"@, "thumbnails"@, original, png);
    lemma_directories_apart(layout, "originals"@, "metadata"@, original, txt);
    lemma_directories_apart(layout, "originals"@, "file-refs"@, original, path);
    lemma_directories_apart(layout, "thumbnails"@, "metadata"@, png, txt);
    lemma_directories_apart(layout, "thumbnails"@, "file-refs"@, png, path);
    lemma_directories_apart(layout, "metadata"@, "file-refs"@, txt, path);
}

// ---------------------------------------------------------------------------
// What is on disk once an item is stored
// ---------------------------------------------------------------------------

/// An image that was stored is on disk as PNG, with its thumbnail and its name.
pub proof fn law_raster_on_disk(
    view: StoreView,
    image: PixelsView,
    name: Seq<char>,
    record: RecordView,
    disk: DiskView,
    png: PngEncoding,
)
    requires
        view.persist_rgba(image, name).1.finish == (FinishView::Insert { record }),
    ensures
        ({
            let after = disk.after(view.persist_rgba(image, name).1.required, png);
            &&& after.read(record.original_path) == Some(png(image))
            &&& record.thumbnail_path matches Some(path) && after.read(path) == Some(
                png(image.thumbnail()),
            )
            &&& after.read(view.layout.metadata_path(record.hash)) == Some(
                vstd::utf8::encode_utf8(record.display_name),
            )
        }),
{
    reveal_with_fuel(DiskView::after, 4);
    law_files_apart(view.layout, record.hash, "png"@);
    let steps = view.persist_rgba(image, name).1.required;
    assert(steps.drop_last().drop_last().drop_last().len() == 0);
    assert(steps.drop_last().drop_last().last() == steps[0]);
    assert(steps.drop_last().last() == steps[1]);
}

/// An animation that was stored is on disk byte for byte, with its thumbnail and
/// its name.
pub proof fn law_gif_on_disk(
    view: StoreView,
    probe: ProbeView,
    name: Seq<char>,
    record: RecordView,
    disk: DiskView,
    png: PngEncoding,
)
    requires
        view.persist_gif(probe, name).1.finish == (FinishView::Insert { record }),
        probe.contents matches Ok(encoded) && disk.read(probe.path) == Some(encoded),
    ensures
        ({
            let after = disk.after(view.persist_gif(probe, name).1.required, png);
            &&& after.read(record.original_path) == disk.read(probe.path)
            &&& record.thumbnail_path matches Some(path) && after.read(path) is Some
            &&& after.read(view.layout.metadata_path(record.hash)) == Some(
                vstd::utf8::encode_utf8(record.display_name),
            )
        }),
{
    reveal_with_fuel(DiskView::after, 4);
    law_files_apart(view.layout, record.hash, "gif"@);
    let steps = view.persist_gif(probe, name).1.required;
    assert(steps.drop_last().drop_last().drop_last().len() == 0);
    assert(steps.drop_last().drop_last().last() == steps[0]);
    assert(steps.drop_last().last() == steps[1]);
}

/// A text that was moved into the store is on disk byte for byte, with its name.
/// Its source is gone if it lay outside the store.
pub proof fn law_text_on_disk(
    view: StoreView,
    probe: ProbeView,
    mode: ImportMode,
    record: RecordView,
    disk: DiskView,
    png: PngEncoding,
)
    requires
        view.move_text(probe, mode).1.finish == (FinishView::Insert { record }),
        probe.contents matches Ok(encoded) && disk.read(probe.path) == Some(encoded),
    ensures
        ({
            let after = disk.after(view.move_text(probe, mode).1.required, png);
            &&& after.read(record.original_path) == disk.read(probe.path)
            &&& after.read(view.layout.metadata_path(record.hash)) == Some(
                vstd::utf8::encode_utf8(record.display_name),
            )
            &&& store::removes_source(probe.path, mode, view.layout.root) ==> after.read(
                probe.path,
            ) is None
        }),
{
    reveal_with_fuel(DiskView::after, 3);
    let extension = probe.path.normalized_text_extension();
    law_files_apart(view.layout, record.hash, extension);
    laws::lemma_layout_below(view.layout, record.hash, extension);
    let steps = view.move_text(probe, mode).1.required;
    assert(steps.drop_last().drop_last().len() == 0);
    assert(steps.drop_last().last() == steps[0]);
}

/// A file that was referred to is on disk as it was if it lies outside the store,
/// and its path is on disk with the name of the item.
pub proof fn law_reference_on_disk(
    view: StoreView,
    source: SourceView,
    record: RecordView,
    disk: DiskView,
    png: PngEncoding,
)
    requires
        laws::all_placed(view),
        view.add_reference(source).1.finish == (FinishView::Insert { record }),
    ensures
        ({
            let after = disk.after(view.add_reference(source).1.required, png);
            &&& !record.original_path.starts_with(view.layout.root) ==> after.read(
                record.original_path,
            ) == disk.read(record.original_path)
            &&& record.reference_path matches Some(path) && after.read(path) == Some(
                vstd::utf8::encode_utf8(record.original_path.text),
            )
            &&& after.read(view.layout.metadata_path(record.hash)) == Some(
                vstd::utf8::encode_utf8(record.display_name),
            )
        }),
{
    reveal_with_fuel(DiskView::after, 3);
    law_files_apart(view.layout, record.hash, "png"@);
    laws::law_reference_stays_within(view, source);
    let steps = view.add_reference(source).1.required;
    assert(steps.drop_last().last() == steps[steps.len() - 2]);
    if !record.original_path.starts_with(view.layout.root) {
        law_outside_unchanged(disk, steps, png, view.layout.root, record.original_path);
    }
}

proof fn lemma_removed_stays_removed(
    disk: DiskView,
    steps: Seq<ActionView>,
    png: PngEncoding,
    path: PathView,
    at: int,
)
    requires
        0 <= at < steps.len(),
        steps[at] == (ActionView::RemoveIfExists { path }),
        forall|i: int| 0 <= i < steps.len() ==> (#[trigger] steps[i]) is RemoveIfExists,
    ensures
        disk.after(steps, png).read(path) is None,
    decreases steps.len(),
{
    let before = steps.drop_last();
    assert forall|i: int| 0 <= i < before.len() implies (
    #[trigger] before[i]) is RemoveIfExists by {
        assert(before[i] == steps[i]);
    }
    assert(steps[steps.len() - 1] is RemoveIfExists);
    if at < before.len() {
        lemma_removed_stays_removed(disk, before, png, path, at);
    }
}

/// Once an item is taken out, none of its own files is left on disk, and whatever
/// lies outside the store is as it was.
pub proof fn law_removal_on_disk(
    layout: LayoutView,
    record: RecordView,
    disk: DiskView,
    png: PngEncoding,
    other: PathView,
)
    requires
        laws::placed(layout, record),
    ensures
        ({
            let after = disk.after(store::removal_steps(layout, record), png);
            &&& record.reference_path is None ==> after.read(record.original_path) is None
            &&& record.thumbnail_path matches Some(path) ==> after.read(path) is None
            &&& record.reference_path matches Some(path) ==> after.read(path) is None
            &&& after.read(layout.metadata_path(record.hash)) is None
            &&& !other.starts_with(layout.root) ==> after.read(other) == disk.read(other)
        }),
{
    let steps = store::removal_steps(layout, record);
    let own = if record.reference_path is None {
        1int
    } else {
        0
    };
    let thumbnail = store::remove_step(record.thumbnail_path).len() as int;
    let reference = store::remove_step(record.reference_path).len() as int;
    assert(forall|i: int| 0 <= i < steps.len() ==> (#[trigger] steps[i]) is RemoveIfExists);
    if record.reference_path is None {
        lemma_removed_stays_removed(disk, steps, png, record.original_path, 0);
    }
    if let Some(path) = record.thumbnail_path {
        lemma_removed_stays_removed(disk, steps, png, path, own);
    }
    if let Some(path) = record.reference_path {
        lemma_removed_stays_removed(disk, steps, png, path, own + thumbnail);
    }
    lemma_removed_stays_removed(
        disk,
        steps,
        png,
        layout.metadata_path(record.hash),
        own + thumbnail + reference,
    );
    laws::law_removal_stays_within(layout, record);
    if !other.starts_with(layout.root) {
        law_outside_unchanged(disk, steps, png, layout.root, other);
    }
}

// ---------------------------------------------------------------------------
// What was stored is found again
// ---------------------------------------------------------------------------

/// Whether what is known of a file among the originals is what the disk holds.
pub open spec fn read_from(
    disk: DiskView,
    layout: LayoutView,
    hash: Seq<char>,
    entry: OriginalEntryView,
) -> bool {
    &&& entry.metadata == paths::text_of(disk.read(layout.metadata_path(hash)))
    &&& match disk.read(entry.probe.path) {
        Some(bytes) => entry.probe.contents == Ok::<Seq<u8>, Seq<char>>(bytes)
            && entry.probe.byte_len == Ok::<u64, Seq<char>>(bytes.len() as u64),
        None => entry.probe.contents is Err,
    }
}

proof fn lemma_name_read(name: Seq<char>)
    ensures
        paths::text_of(Some(vstd::utf8::encode_utf8(name))) == Some(name),
{
    vstd::utf8::encode_utf8_valid_utf8(name);
    vstd::utf8::encode_utf8_decode_utf8(name);
}

pub(crate) proof fn lemma_stored_file_name(layout: LayoutView, hash: Seq<char>, extension: Seq<char>)
    requires
        hash.len() > 0,
        !extension.contains('.'),
        text::ascii_lower(extension) == extension,
    ensures
        paths::text_of(layout.original_path(hash, extension).file_stem()) == Some(hash),
        layout.original_path(hash, extension).lower_extension() == Some(extension),
{
    paths::law_name_round_trip(layout.originals_dir(), hash, extension, layout.separator);
}

/// An image that was stored as PNG is found again on the disk that it was stored
/// to, if the PNG decodes to an image of the same size: with the record that was
/// put into the store, except that the length is that of the file.
pub proof fn law_raster_found_again(
    view: StoreView,
    image: PixelsView,
    name: Seq<char>,
    record: RecordView,
    disk: DiskView,
    png: PngEncoding,
    entry: OriginalEntryView,
    saved: PixelsView,
)
    requires
        view.persist_rgba(image, name).1.finish == (FinishView::Insert { record }),
        digest::item_hash(record.hash),
        entry.probe.path == record.original_path,
        read_from(
            disk.after(view.persist_rgba(image, name).1.required, png),
            view.layout,
            record.hash,
            entry,
        ),
        entry.probe.pixels == Ok::<PixelsView, Seq<char>>(saved),
        saved.width == image.width,
        saved.height == image.height,
    ensures
        loading::loaded_original(view.layout, entry) matches Ok(Some((loaded, _)))
            && loaded.record == (RecordView { byte_len: png(image).len() as u64, ..record }),
{
    reveal_strlit("png");
    reveal_strlit("gif");
    assert(text::ascii_lower("png"@) =~= "png"@);
    assert("png"@[0] != "gif"@[0]);
    lemma_stored_file_name(view.layout, record.hash, "png"@);
    law_raster_on_disk(view, image, name, record, disk, png);
    lemma_name_read(record.display_name);
    summary::law_stored_name_round_trip(name, record.hash);
}

/// An animation that was stored is found again on the disk that it was stored to,
/// if it decodes as it did: with the record that was put into the store.
pub proof fn law_gif_found_again(
    view: StoreView,
    probe: ProbeView,
    name: Seq<char>,
    record: RecordView,
    disk: DiskView,
    png: PngEncoding,
    entry: OriginalEntryView,
)
    requires
        view.persist_gif(probe, name).1.finish == (FinishView::Insert { record }),
        probe.contents matches Ok(encoded) && disk.read(probe.path) == Some(encoded),
        digest::item_hash(record.hash),
        entry.probe.path == record.original_path,
        read_from(
            disk.after(view.persist_gif(probe, name).1.required, png),
            view.layout,
            record.hash,
            entry,
        ),
        entry.probe.pixels == probe.pixels,
    ensures
        loading::loaded_original(view.layout, entry) matches Ok(Some((loaded, _)))
            && loaded.record == record,
{
    reveal_strlit("gif");
    reveal_strlit("png");
    assert(text::ascii_lower("gif"@) =~= "gif"@);
    assert("gif"@[0] != "png"@[0]);
    lemma_stored_file_name(view.layout, record.hash, "gif"@);
    law_gif_on_disk(view, probe, name, record, disk, png);
    lemma_name_read(record.display_name);
    summary::law_stored_name_round_trip(name, record.hash);
}

/// A text that was moved into the store, and is not named like an image that the
/// store keeps, is found again on the disk that it was moved on: with the record
/// that was put into the store.
pub proof fn law_text_found_again(
    view: StoreView,
    probe: ProbeView,
    mode: ImportMode,
    record: RecordView,
    disk: DiskView,
    png: PngEncoding,
    entry: OriginalEntryView,
)
    requires
        !probe.path.is_png_file(),
        !probe.path.is_gif_file(),
        view.move_text(probe, mode).1.finish == (FinishView::Insert { record }),
        probe.contents matches Ok(encoded) && disk.read(probe.path) == Some(encoded),
        digest::item_hash(record.hash),
        entry.probe.path == record.original_path,
        read_from(
            disk.after(view.move_text(probe, mode).1.required, png),
            view.layout,
            record.hash,
            entry,
        ),
    ensures
        loading::loaded_original(view.layout, entry) matches Ok(Some((loaded, _)))
            && loaded.record == record,
{
    paths::lemma_text_extension_plain(probe.path);
    lemma_stored_file_name(view.layout, record.hash, probe.path.normalized_text_extension());
    reveal_strlit("text");
    reveal_strlit("png");
    reveal_strlit("gif");
    assert("text"@[0] != "png"@[0]);
    assert("text"@[0] != "gif"@[0]);
    law_text_on_disk(view, probe, mode, record, disk, png);
    lemma_name_read(record.display_name);
    let stem = store::text_or(paths::text_of(probe.path.file_stem()), "Text file"@);
    summary::law_stored_name_round_trip(stem, record.hash);
}

/// A reference that was stored is found again on the disk that it was stored to,
/// as long as the file that it refers to is what it was: with the record that was
/// put into the store.
pub proof fn law_reference_found_again(
    view: StoreView,
    source: SourceView,
    record: RecordView,
    disk: DiskView,
    png: PngEncoding,
    entry: ReferenceEntryView,
)
    requires
        laws::all_placed(view),
        view.add_reference(source).1.finish == (FinishView::Insert { record }),
        digest::item_hash(record.hash),
        record.reference_path == Some(entry.path),
        entry.failure is None,
        entry.is_file,
        entry.referred == source.canonical,
        entry.metadata == paths::text_of(
            disk.after(view.add_reference(source).1.required, png).read(
                view.layout.metadata_path(record.hash),
            ),
        ),
    ensures
        loading::loaded_reference(view.layout, entry) matches Ok(Some((loaded, _)))
            && loaded.record == record,
        paths::text_of(
            disk.after(view.add_reference(source).1.required, png).read(entry.path),
        ) == Some(entry.referred.path.text),
{
    let path = source.canonical.path;
    reveal_strlit("path");
    assert(text::ascii_lower("path"@) =~= "path"@);
    paths::law_name_round_trip(
        view.layout.file_refs_dir(),
        record.hash,
        "path"@,
        view.layout.separator,
    );
    law_reference_on_disk(view, source, record, disk, png);
    lemma_name_read(record.display_name);
    lemma_name_read(path.text);
    summary::law_display_name_normal(
        store::text_or(paths::text_of(path.file_stem()), "Text file"@),
    );
    summary::law_display_name_normal(
        store::text_or(paths::text_of(path.file_stem()), "Imported image"@),
    );
    summary::law_display_name_normal(store::text_or(paths::text_of(path.file_name()), "File"@));
    assert(summary::display_name(record.display_name) == record.display_name);
}

} // verus!
