//! What the store leaves on disk, seen as a whole: each item keeps to its own
//! files, and a store that is opened again holds what it held, in its order.

use vstd::prelude::*;
use vstd::string::*;

use crate::actions::{ActionView, FinishView, OutcomeView};
use crate::disk::{DiskView, PngEncoding};
use crate::layout::LayoutView;
use crate::loading::{LoadedView, OriginalEntryView, ReferenceEntryView};
use crate::paths::PathView;
use crate::pixels::PixelsView;
use crate::records::{ImportMode, ProbeView, RecordView, SourceView, StoredImageKind};
use crate::store::StoreView;
use crate::{digest, disk, laws, layout, loading, paths, store, text};

verus! {

// ---------------------------------------------------------------------------
// The files of an item
// ---------------------------------------------------------------------------

/// Whether a file name is the hash, alone or with a dot and more behind it.
pub open spec fn named_by(name: Seq<u8>, hash: Seq<char>) -> bool {
    let front = vstd::utf8::encode_utf8(hash);
    &&& front.is_prefix_of(name)
    &&& name.len() > front.len() ==> name[front.len() as int] == 0x2e
}

/// Whether a path is that of a file of the item: one within the store that is
/// named by its hash.
pub open spec fn file_of(layout: LayoutView, hash: Seq<char>, path: PathView) -> bool {
    &&& path.starts_with(layout.root)
    &&& path.components.len() > 0
    &&& named_by(path.components.last().name, hash)
}

proof fn lemma_named_by(hash: Seq<char>, extension: Seq<char>)
    ensures
        named_by(vstd::utf8::encode_utf8(layout::file_name_of(hash, extension)), hash),
{
    paths::lemma_name_bytes(hash, extension);
}

/// The contents, the thumbnail, the name and the reference of an item are files of
/// that item.
pub proof fn law_own_files(layout: LayoutView, hash: Seq<char>, extension: Seq<char>)
    ensures
        file_of(layout, hash, layout.original_path(hash, extension)),
        file_of(layout, hash, layout.thumbnail_path(hash)),
        file_of(layout, hash, layout.metadata_path(hash)),
        file_of(layout, hash, layout.reference_path(hash)),
{
    laws::lemma_layout_below(layout, hash, extension);
    lemma_named_by(hash, extension);
    lemma_named_by(hash, "png"@);
    lemma_named_by(hash, "txt"@);
    lemma_named_by(hash, "path"@);
}

proof fn lemma_hash_plain(hash: Seq<char>)
    requires
        digest::item_hash(hash),
    ensures
        hash.len() > 0,
        !hash.contains('.'),
{
    reveal_strlit("ref-");
    assert forall|i: int| 0 <= i < hash.len() implies hash[i] != '.' by {
        if digest::hex_hash(hash) {
            assert(digest::hex_digit(hash[i]));
        } else if i < 4 {
            assert(hash[i] == hash.take(4)[i]);
            assert("ref-"@[i] != '.');
        } else {
            assert(hash[i] == hash.skip(4)[i - 4]);
            assert(digest::hex_digit(hash.skip(4)[i - 4]));
        }
    }
}

/// No file is one of two items.
pub proof fn law_items_apart(
    layout: LayoutView,
    hash: Seq<char>,
    other: Seq<char>,
    path: PathView,
)
    requires
        digest::item_hash(hash),
        digest::item_hash(other),
        hash != other,
        file_of(layout, hash, path),
    ensures
        !file_of(layout, other, path),
{
    if file_of(layout, other, path) {
        let name = path.components.last().name;
        let a = vstd::utf8::encode_utf8(hash);
        let b = vstd::utf8::encode_utf8(other);
        lemma_hash_plain(hash);
        lemma_hash_plain(other);
        paths::lemma_encode_dots(hash);
        paths::lemma_encode_dots(other);
        if a.len() < b.len() {
            assert(b[a.len() as int] == name[a.len() as int]);
            assert(b.contains(0x2e));
        } else if b.len() < a.len() {
            assert(a[b.len() as int] == name[b.len() as int]);
            assert(a.contains(0x2e));
        } else {
            assert(a =~= b);
            vstd::utf8::encode_utf8_decode_utf8(hash);
            vstd::utf8::encode_utf8_decode_utf8(other);
        }
    }
}

/// Whether a step is about the files of one item: it writes or removes no other
/// file of the store.
pub open spec fn concerns(step: ActionView, layout: LayoutView, hash: Seq<char>) -> bool {
    &&& file_of(layout, hash, step.target()) || (step is RemoveIfExists
        && !step.target().starts_with(layout.root))
    &&& step matches ActionView::MoveFile { from, .. } ==> !from.starts_with(layout.root)
}

pub open spec fn all_concern(
    steps: Seq<ActionView>,
    layout: LayoutView,
    hash: Seq<char>,
) -> bool {
    forall|i: int| 0 <= i < steps.len() ==> concerns(#[trigger] steps[i], layout, hash)
}

/// Whether one of the steps takes the file away.
pub open spec fn some_takes_away(steps: Seq<ActionView>, path: PathView) -> bool {
    exists|i: int| 0 <= i < steps.len() && (#[trigger] steps[i]).takes_away(path)
}

/// Steps about the files of one item leave every other file as it is, except those
/// outside the store that they take away.
pub proof fn law_others_kept(
    disk: DiskView,
    steps: Seq<ActionView>,
    png: PngEncoding,
    layout: LayoutView,
    hash: Seq<char>,
    path: PathView,
)
    requires
        all_concern(steps, layout, hash),
        !file_of(layout, hash, path),
        path.starts_with(layout.root) || !some_takes_away(steps, path),
    ensures
        disk.after(steps, png).file(path) == disk.file(path),
    decreases steps.len(),
{
    if steps.len() > 0 {
        let before = steps.drop_last();
        let last = steps[steps.len() - 1];
        assert forall|i: int| 0 <= i < before.len() implies concerns(
            #[trigger] before[i],
            layout,
            hash,
        ) by {
            assert(before[i] == steps[i]);
        }
        if some_takes_away(before, path) {
            let i = choose|i: int| 0 <= i < before.len() && (#[trigger] before[i]).takes_away(path);
            assert(steps[i].takes_away(path));
        }
        law_others_kept(disk, before, png, layout, hash, path);
        assert(concerns(last, layout, hash));
        if last.target().components == path.components {
            assert(!file_of(layout, hash, last.target()));
            assert(steps[steps.len() - 1].takes_away(path));
            assert(some_takes_away(steps, path));
        }
        if last.takes_away(path) {
            assert(some_takes_away(steps, path));
        }
    }
}

// ---------------------------------------------------------------------------
// Operations keep to the files of their item
// ---------------------------------------------------------------------------

/// Whether the files that an item has in the store are its own.
pub open spec fn owns_files(layout: LayoutView, record: RecordView) -> bool {
    &&& record.reference_path is None ==> file_of(layout, record.hash, record.original_path)
    &&& record.thumbnail_path matches Some(path) ==> file_of(layout, record.hash, path)
    &&& record.reference_path matches Some(path) ==> file_of(layout, record.hash, path)
}

pub open spec fn all_own(view: StoreView) -> bool {
    forall|i: int|
        0 <= i < view.records.len() ==> owns_files(view.layout, #[trigger] view.records[i])
}

proof fn lemma_stem_names(path: PathView, hash: Seq<char>)
    requires
        paths::text_of(path.file_stem()) == Some(hash),
    ensures
        path.components.len() > 0,
        named_by(path.components.last().name, hash),
{
    let name = path.components.last().name;
    let stem = paths::stem_of(name);
    paths::lemma_last_dot(name);
    vstd::utf8::decode_utf8_encode_utf8(stem);
    assert(stem == vstd::utf8::encode_utf8(hash));
}

/// The files of the items that are found when the store is opened are their own.
pub proof fn law_found_own(
    layout: LayoutView,
    original: OriginalEntryView,
    reference: ReferenceEntryView,
)
    requires
        original.probe.path.starts_with(layout.root),
        reference.path.starts_with(layout.root),
    ensures
        loading::loaded_original(layout, original) matches Ok(Some((loaded, _))) ==> owns_files(
            layout,
            loaded.record,
        ),
        loading::loaded_reference(layout, reference) matches Ok(Some((loaded, _))) ==> owns_files(
            layout,
            loaded.record,
        ),
{
    if let Some(hash) = paths::text_of(original.probe.path.file_stem()) {
        law_own_files(layout, hash, "png"@);
        lemma_stem_names(original.probe.path, hash);
    }
    if let Some(hash) = paths::text_of(reference.path.file_stem()) {
        law_own_files(layout, hash, "png"@);
        lemma_stem_names(reference.path, hash);
    }
}

proof fn lemma_promotion_concerns(view: StoreView, hash: Seq<char>)
    requires
        all_own(view),
        view.holds(hash),
    ensures
        all_concern(view.promotion_steps(hash), view.layout, hash),
{
    store::lemma_position(view.records, hash);
    law_own_files(view.layout, hash, "png"@);
    assert(owns_files(view.layout, view.records[store::position(view.records, hash)]));
}

proof fn lemma_raster_concerns(view: StoreView, image: PixelsView, name: Seq<char>)
    requires
        all_own(view),
    ensures
        all_concern(
            view.persist_rgba(image, name).1.steps(),
            view.layout,
            digest::blake3_hex(image.pixels),
        ),
{
    let hash = digest::blake3_hex(image.pixels);
    law_own_files(view.layout, hash, "png"@);
    if view.holds(hash) {
        lemma_promotion_concerns(view, hash);
    }
}

proof fn lemma_gif_concerns(view: StoreView, probe: ProbeView, name: Seq<char>)
    requires
        all_own(view),
    ensures
        probe.contents matches Ok(encoded) ==> all_concern(
            view.persist_gif(probe, name).1.steps(),
            view.layout,
            digest::blake3_hex(encoded),
        ),
{
    if let Ok(encoded) = probe.contents {
        let hash = digest::blake3_hex(encoded);
        law_own_files(view.layout, hash, "gif"@);
        if view.holds(hash) {
            lemma_promotion_concerns(view, hash);
        }
    }
}

proof fn lemma_text_concerns(view: StoreView, probe: ProbeView, mode: ImportMode)
    requires
        all_own(view),
    ensures
        probe.contents matches Ok(encoded) ==> all_concern(
            view.move_text(probe, mode).1.steps(),
            view.layout,
            digest::blake3_hex(encoded),
        ),
{
    if let Ok(encoded) = probe.contents {
        let hash = digest::blake3_hex(encoded);
        law_own_files(view.layout, hash, probe.path.normalized_text_extension());
        if view.holds(hash) {
            let promotion = view.promotion_steps(hash);
            lemma_promotion_concerns(view, hash);
            let steps = view.move_text(probe, mode).1.steps();
            assert forall|i: int| 0 <= i < steps.len() implies concerns(
                #[trigger] steps[i],
                view.layout,
                hash,
            ) by {
                if i < promotion.len() {
                    assert(steps[i] == promotion[i]);
                }
            }
        }
    }
}

proof fn lemma_reference_concerns(view: StoreView, source: SourceView)
    requires
        all_own(view),
    ensures
        all_concern(
            view.add_reference(source).1.steps(),
            view.layout,
            digest::reference_hash_of(source.canonical.path.text),
        ),
{
    let hash = digest::reference_hash_of(source.canonical.path.text);
    let index = store::position(view.records, hash);
    let steps = view.add_reference(source).1.steps();
    let stale = view.stale_steps(hash);
    store::lemma_position(view.records, hash);
    law_own_files(view.layout, hash, "png"@);
    if view.holds(hash) {
        lemma_promotion_concerns(view, hash);
        assert(owns_files(view.layout, view.records[index]));
    }
    if source.is_file && !(view.holds(hash) && view.records[index].reference_path is None) {
        assert(all_concern(stale, view.layout, hash));
        assert forall|i: int| 0 <= i < steps.len() implies concerns(
            #[trigger] steps[i],
            view.layout,
            hash,
        ) by {
            if i < stale.len() {
                assert(steps[i] == stale[i]);
            } else if let Ok(built) = store::reference_record(
                view.layout,
                hash,
                source.canonical,
            ) {
                if i < stale.len() + built.1.len() {
                    assert(steps[i] == built.1[i - stale.len()]);
                }
            }
        }
    }
}

proof fn lemma_removal_concerns(layout: LayoutView, record: RecordView)
    requires
        owns_files(layout, record),
    ensures
        all_concern(store::removal_steps(layout, record), layout, record.hash),
{
    law_own_files(layout, record.hash, "png"@);
}

proof fn lemma_rest_own(view: StoreView, hash: Seq<char>)
    requires
        all_own(view),
    ensures
        all_own(view.without_stale(hash)),
        view.holds(hash) ==> all_own(view.promoted(hash)),
{
    store::lemma_position(view.records, hash);
    if view.holds(hash) {
        let index = store::position(view.records, hash);
        let rest = view.without_stale(hash);
        assert forall|i: int| 0 <= i < rest.records.len() implies owns_files(
            rest.layout,
            #[trigger] rest.records[i],
        ) by {
            if i < index {
                assert(rest.records[i] == view.records[i]);
            } else {
                assert(rest.records[i] == view.records[i + 1]);
            }
        }
        assert(owns_files(view.layout, view.records[index]));
        lemma_front_own(rest, view.records[index]);
        assert(view.promoted(hash) =~= rest.with_records(
            seq![view.records[index]] + rest.records,
        ));
    }
}

proof fn lemma_front_own(view: StoreView, record: RecordView)
    requires
        all_own(view),
        owns_files(view.layout, record),
    ensures
        all_own(view.with_records(seq![record] + view.records)),
{
    let after = view.with_records(seq![record] + view.records);
    assert forall|i: int| 0 <= i < after.records.len() implies owns_files(
        after.layout,
        #[trigger] after.records[i],
    ) by {
        if i > 0 {
            assert(after.records[i] == view.records[i - 1]);
        }
    }
}

spec fn own_after(step: (StoreView, OutcomeView)) -> bool {
    all_own(step.0.completed(step.1.finish).0)
}

proof fn lemma_raster_own(view: StoreView, image: PixelsView, name: Seq<char>)
    requires
        all_own(view),
    ensures
        own_after(view.persist_rgba(image, name)),
{
    let hash = digest::blake3_hex(image.pixels);
    law_own_files(view.layout, hash, "png"@);
    lemma_rest_own(view, hash);
    if !view.holds(hash) {
        lemma_front_own(view, store::raster_record(view.layout, image, name));
    }
}

proof fn lemma_reference_own(view: StoreView, source: SourceView)
    requires
        all_own(view),
    ensures
        own_after(view.add_reference(source)),
{
    let hash = digest::reference_hash_of(source.canonical.path.text);
    law_own_files(view.layout, hash, "png"@);
    lemma_rest_own(view, hash);
    if let FinishView::Insert { record } = view.add_reference(source).1.finish {
        lemma_front_own(view.without_stale(hash), record);
    }
}

proof fn lemma_gif_own(view: StoreView, probe: ProbeView, name: Seq<char>)
    requires
        all_own(view),
    ensures
        own_after(view.persist_gif(probe, name)),
{
    if let Ok(encoded) = probe.contents {
        let hash = digest::blake3_hex(encoded);
        law_own_files(view.layout, hash, "gif"@);
        lemma_rest_own(view, hash);
        if let FinishView::Insert { record } = view.persist_gif(probe, name).1.finish {
            lemma_front_own(view, record);
        }
    }
}

proof fn lemma_text_own(view: StoreView, probe: ProbeView, mode: ImportMode)
    requires
        all_own(view),
    ensures
        own_after(view.move_text(probe, mode)),
{
    if let Ok(encoded) = probe.contents {
        let hash = digest::blake3_hex(encoded);
        law_own_files(view.layout, hash, probe.path.normalized_text_extension());
        lemma_rest_own(view, hash);
        if let FinishView::Insert { record } = view.move_text(probe, mode).1.finish {
            lemma_front_own(view, record);
        }
    }
}

/// Importing a file leaves the files of all items their own.
pub proof fn law_import_keeps_own(view: StoreView, source: SourceView, mode: ImportMode)
    requires
        all_own(view),
    ensures
        ({
            let (after, outcome) = view.import(source, mode);
            all_own(after.completed(outcome.finish).0)
        }),
{
    let name = store::image_name(source.given.path);
    lemma_reference_own(view, source);
    lemma_text_own(view, source.given, mode);
    lemma_gif_own(view, source.given, name);
    if let Ok(image) = source.given.pixels {
        lemma_raster_own(view, image, name);
    }
}

/// Storing an image from the clipboard leaves the files of all items their own.
pub proof fn law_clipboard_image_keeps_own(
    view: StoreView,
    width: u32,
    height: u32,
    bytes: Seq<u8>,
)
    requires
        all_own(view),
    ensures
        ({
            let (after, outcome) = view.add_clipboard_image(width, height, bytes);
            all_own(after.completed(outcome.finish).0)
        }),
{
    lemma_raster_own(view, PixelsView { width, height, pixels: bytes }, "Clipboard"@);
}

/// Storing an image leaves the files of every other item as they are.
pub proof fn law_image_keeps_others(
    view: StoreView,
    image: PixelsView,
    name: Seq<char>,
    disk: DiskView,
    png: PngEncoding,
    other: Seq<char>,
    path: PathView,
)
    requires
        all_own(view),
        digest::item_hash(other),
        file_of(view.layout, other, path),
    ensures
        ({
            let hash = digest::blake3_hex(image.pixels);
            digest::item_hash(hash) && other != hash ==> disk.after(
                view.persist_rgba(image, name).1.steps(),
                png,
            ).file(path) == disk.file(path)
        }),
{
    let hash = digest::blake3_hex(image.pixels);
    let steps = view.persist_rgba(image, name).1.steps();
    if digest::item_hash(hash) && other != hash {
        lemma_raster_concerns(view, image, name);
        law_items_apart(view.layout, other, hash, path);
        law_others_kept(disk, steps, png, view.layout, hash, path);
    }
}

/// Storing an animation leaves the files of every other item as they are.
pub proof fn law_animation_keeps_others(
    view: StoreView,
    probe: ProbeView,
    name: Seq<char>,
    disk: DiskView,
    png: PngEncoding,
    other: Seq<char>,
    path: PathView,
)
    requires
        all_own(view),
        digest::item_hash(other),
        file_of(view.layout, other, path),
    ensures
        ({
            let steps = view.persist_gif(probe, name).1.steps();
            match probe.contents {
                Ok(encoded) => digest::item_hash(digest::blake3_hex(encoded)) && other
                    != digest::blake3_hex(encoded) ==> disk.after(steps, png).file(path)
                    == disk.file(path),
                Err(_) => disk.after(steps, png) == disk,
            }
        }),
{
    let steps = view.persist_gif(probe, name).1.steps();
    if let Ok(encoded) = probe.contents {
        let hash = digest::blake3_hex(encoded);
        if digest::item_hash(hash) && other != hash {
            lemma_gif_concerns(view, probe, name);
            law_items_apart(view.layout, other, hash, path);
            law_others_kept(disk, steps, png, view.layout, hash, path);
        }
    }
}

/// Moving a text into the store leaves the files of every other item as they are.
pub proof fn law_text_keeps_others(
    view: StoreView,
    probe: ProbeView,
    mode: ImportMode,
    disk: DiskView,
    png: PngEncoding,
    other: Seq<char>,
    path: PathView,
)
    requires
        all_own(view),
        digest::item_hash(other),
        file_of(view.layout, other, path),
    ensures
        ({
            let steps = view.move_text(probe, mode).1.steps();
            match probe.contents {
                Ok(encoded) => digest::item_hash(digest::blake3_hex(encoded)) && other
                    != digest::blake3_hex(encoded) ==> disk.after(steps, png).file(path)
                    == disk.file(path),
                Err(_) => disk.after(steps, png) == disk,
            }
        }),
{
    let steps = view.move_text(probe, mode).1.steps();
    if let Ok(encoded) = probe.contents {
        let hash = digest::blake3_hex(encoded);
        if digest::item_hash(hash) && other != hash {
            lemma_text_concerns(view, probe, mode);
            law_items_apart(view.layout, other, hash, path);
            law_others_kept(disk, steps, png, view.layout, hash, path);
        }
    }
}

/// Referring to a file leaves the files of every other item as they are.
pub proof fn law_reference_keeps_others(
    view: StoreView,
    source: SourceView,
    disk: DiskView,
    png: PngEncoding,
    other: Seq<char>,
    path: PathView,
)
    requires
        all_own(view),
        digest::item_hash(other),
        file_of(view.layout, other, path),
    ensures
        ({
            let hash = digest::reference_hash_of(source.canonical.path.text);
            digest::item_hash(hash) && other != hash ==> disk.after(
                view.add_reference(source).1.steps(),
                png,
            ).file(path) == disk.file(path)
        }),
{
    let hash = digest::reference_hash_of(source.canonical.path.text);
    let steps = view.add_reference(source).1.steps();
    if digest::item_hash(hash) && other != hash {
        lemma_reference_concerns(view, source);
        law_items_apart(view.layout, other, hash, path);
        law_others_kept(disk, steps, png, view.layout, hash, path);
    }
}

/// An import that only refers to its file leaves every file as it is that is not
/// named by the hash of the reference; so also its own file, wherever that lies.
pub proof fn law_referred_source_kept(
    view: StoreView,
    source: SourceView,
    mode: ImportMode,
    disk: DiskView,
    png: PngEncoding,
    path: PathView,
)
    requires
        all_own(view),
        laws::all_placed(view),
        source.only_referred(mode),
    ensures
        !file_of(
            view.layout,
            digest::reference_hash_of(source.canonical.path.text),
            path,
        ) ==> disk.after(view.import(source, mode).1.steps(), png).file(path) == disk.file(path),
{
    let hash = digest::reference_hash_of(source.canonical.path.text);
    let steps = view.import(source, mode).1.steps();
    if !file_of(view.layout, hash, path) {
        lemma_reference_concerns(view, source);
        laws::law_referring_import_stays_within(view, source, mode);
        if !path.starts_with(view.layout.root) {
            disk::law_outside_unchanged(disk, steps, png, view.layout.root, path);
        } else {
            law_others_kept(disk, steps, png, view.layout, hash, path);
        }
    }
}

/// Taking an item out leaves the files of every other item as they are.
pub proof fn law_removal_keeps_others(
    layout: LayoutView,
    record: RecordView,
    disk: DiskView,
    png: PngEncoding,
    other: Seq<char>,
    path: PathView,
)
    requires
        owns_files(layout, record),
        digest::item_hash(record.hash),
        digest::item_hash(other),
        other != record.hash,
        file_of(layout, other, path),
    ensures
        disk.after(store::removal_steps(layout, record), png).file(path) == disk.file(path),
{
    lemma_removal_concerns(layout, record);
    law_items_apart(layout, other, record.hash, path);
    law_others_kept(
        disk,
        store::removal_steps(layout, record),
        png,
        layout,
        record.hash,
        path,
    );
}

// ---------------------------------------------------------------------------
// What the disk says of an item
// ---------------------------------------------------------------------------

/// How an image is decoded, given the extension of its file in lower case.
pub type ImageDecoding = spec_fn(Option<Seq<char>>, Seq<u8>) -> Result<PixelsView, Seq<char>>;

/// What the disk says of a file.
pub open spec fn probed(disk: DiskView, path: PathView, decode: ImageDecoding) -> ProbeView {
    match disk.read(path) {
        Some(bytes) => ProbeView {
            path,
            byte_len: Ok(bytes.len() as u64),
            contents: Ok(bytes),
            pixels: decode(path.lower_extension(), bytes),
        },
        None => ProbeView {
            path,
            byte_len: Err(Seq::empty()),
            contents: Err(Seq::empty()),
            pixels: Err(Seq::empty()),
        },
    }
}

/// What is found of an item in one of the directories of the store.
pub enum EntryView {
    Original { original: OriginalEntryView },
    Reference { reference: ReferenceEntryView },
}

/// The record of what is found, if there is one.
pub open spec fn loaded_entry(layout: LayoutView, entry: EntryView) -> Option<LoadedView> {
    match entry {
        EntryView::Original { original: entry } => match loading::loaded_original(layout, entry) {
            Ok(Some((loaded, _))) => Some(loaded),
            _ => None,
        },
        EntryView::Reference { reference: entry } => match loading::loaded_reference(layout, entry) {
            Ok(Some((loaded, _))) => Some(loaded),
            _ => None,
        },
    }
}

/// Whether a time that was read is that of a file on the disk.
pub open spec fn same_time(time: Option<i128>, modified: Option<int>) -> bool {
    match (time, modified) {
        (Some(time), Some(modified)) => time == modified,
        (None, None) => true,
        _ => false,
    }
}

/// Whether what was found of an item is what the disk says of it. The text in the
/// file of a reference is taken to be that of one path only.
pub open spec fn entry_of(
    disk: DiskView,
    layout: LayoutView,
    record: RecordView,
    decode: ImageDecoding,
    entry: EntryView,
) -> bool {
    let metadata = layout.metadata_path(record.hash);
    match entry {
        EntryView::Original { original: entry } => {
            &&& record.reference_path is None
            &&& entry.probe == probed(disk, record.original_path, decode)
            &&& entry.metadata == paths::text_of(disk.read(metadata))
            &&& same_time(entry.metadata_modified, disk.modified(metadata))
            &&& same_time(entry.modified, disk.modified(record.original_path))
            &&& entry.thumbnail_exists == (disk.read(layout.thumbnail_path(record.hash)) is Some)
        },
        EntryView::Reference { reference: entry } => {
            &&& record.reference_path == Some(entry.path)
            &&& entry.failure is None <==> paths::text_of(disk.read(entry.path)) is Some
            &&& paths::text_of(disk.read(entry.path)) == Some(record.original_path.text) ==> {
                &&& entry.referred == probed(disk, record.original_path, decode)
                &&& entry.is_file == (disk.read(record.original_path) is Some)
            }
            &&& entry.metadata == paths::text_of(disk.read(metadata))
            &&& same_time(entry.modified, disk.modified(entry.path))
        },
    }
}

/// Whether a record that was found is the one that the store held: the same, but
/// that the length of an image stored as PNG is that of its file.
pub open spec fn alike(found: RecordView, record: RecordView) -> bool {
    if record.kind == StoredImageKind::Raster && record.reference_path is None {
        found == (RecordView { byte_len: found.byte_len, ..record })
    } else {
        found == record
    }
}

/// The file whose time says how recent an item is.
pub open spec fn recency_file(layout: LayoutView, record: RecordView) -> PathView {
    match record.reference_path {
        Some(path) => path,
        None => layout.metadata_path(record.hash),
    }
}

/// Whether the disk holds an item: its record can be made from what is there.
pub open spec fn stored(
    disk: DiskView,
    layout: LayoutView,
    record: RecordView,
    decode: ImageDecoding,
) -> bool {
    let metadata = paths::text_of(disk.read(layout.metadata_path(record.hash)));
    let probe = probed(disk, record.original_path, decode);
    let entry = match record.reference_path {
        None => EntryView::Original {
            original: OriginalEntryView {
                probe,
                metadata,
                metadata_modified: None,
                modified: None,
                thumbnail_exists: true,
            },
        },
        Some(path) => EntryView::Reference {
            reference: ReferenceEntryView {
                path,
                failure: None,
                referred: probe,
                is_file: true,
                metadata,
                modified: None,
            },
        },
    };
    &&& disk.read(record.original_path) is Some
    &&& record.reference_path matches Some(path) ==> paths::text_of(disk.read(path)) == Some(
        record.original_path.text,
    )
    &&& loaded_entry(layout, entry) matches Some(loaded) && alike(loaded.record, record)
}

/// Whether the files that an item has in the store are its own and lie where they
/// belong.
pub open spec fn settled(layout: LayoutView, record: RecordView) -> bool {
    &&& digest::item_hash(record.hash)
    &&& laws::placed(layout, record)
    &&& owns_files(layout, record)
}

/// Whether the disk holds the items of a store, and their times fall from each to
/// the next.
pub open spec fn kept(view: StoreView, disk: DiskView, decode: ImageDecoding) -> bool {
    &&& store::distinct(view.records)
    &&& forall|i: int|
        0 <= i < view.records.len() ==> settled(view.layout, #[trigger] view.records[i])
    &&& forall|i: int|
        0 <= i < view.records.len() ==> stored(
            disk,
            view.layout,
            #[trigger] view.records[i],
            decode,
        )
    &&& forall|i: int|
        0 <= i < view.records.len() ==> timed(disk, view.layout, #[trigger] view.records[i])
    &&& forall|i: int, j: int|
        0 <= i < j < view.records.len() ==> more_recent(
            disk,
            view.layout,
            #[trigger] view.records[i],
            #[trigger] view.records[j],
        )
}

/// Whether it is known how recent an item is.
pub open spec fn timed(disk: DiskView, layout: LayoutView, record: RecordView) -> bool {
    disk.modified(recency_file(layout, record)) matches Some(time) && time <= disk.clock
}

pub open spec fn more_recent(
    disk: DiskView,
    layout: LayoutView,
    record: RecordView,
    other: RecordView,
) -> bool {
    &&& disk.modified(recency_file(layout, record)) matches Some(time)
    &&& disk.modified(recency_file(layout, other)) matches Some(earlier)
    &&& time > earlier
}

// ---------------------------------------------------------------------------
// A store that is opened again
// ---------------------------------------------------------------------------

/// An item that the disk holds is found again, as recent as the time of its file
/// says.
pub proof fn law_item_found_again(
    disk: DiskView,
    layout: LayoutView,
    record: RecordView,
    decode: ImageDecoding,
    entry: EntryView,
)
    requires
        stored(disk, layout, record, decode),
        timed(disk, layout, record),
        entry_of(disk, layout, record, decode, entry),
    ensures
        loaded_entry(layout, entry) matches Some(loaded) && alike(loaded.record, record)
            && Some(loaded.modified as int) == disk.modified(recency_file(layout, record)),
{
}

/// A store whose items the disk holds, with times that fall from each to the next,
/// holds the same items in the same order when it is opened again, in whichever
/// order they are found.
pub proof fn law_store_found_again(
    view: StoreView,
    disk: DiskView,
    decode: ImageDecoding,
    entries: Seq<EntryView>,
    found: Seq<LoadedView>,
)
    requires
        kept(view, disk, decode),
        entries.len() == view.records.len(),
        forall|i: int|
            0 <= i < entries.len() ==> entry_of(
                disk,
                view.layout,
                view.records[i],
                decode,
                #[trigger] entries[i],
            ),
        found.to_multiset() == Seq::new(
            entries.len(),
            |i: int| loaded_entry(view.layout, entries[i])->0,
        ).to_multiset(),
    ensures
        forall|i: int|
            0 <= i < entries.len() ==> loaded_entry(view.layout, #[trigger] entries[i]) is Some,
        loading::loaded_records(loading::newest_first(found)).len() == view.records.len(),
        forall|i: int|
            0 <= i < view.records.len() ==> alike(
                #[trigger] loading::loaded_records(loading::newest_first(found))[i],
                view.records[i],
            ),
{
    let items = Seq::new(entries.len(), |i: int| loaded_entry(view.layout, entries[i])->0);
    assert forall|i: int| 0 <= i < items.len() implies {
        &&& loaded_entry(view.layout, #[trigger] entries[i]) is Some
        &&& alike(items[i].record, view.records[i])
        &&& Some(items[i].modified as int) == disk.modified(
            recency_file(view.layout, view.records[i]),
        )
    } by {
        law_item_found_again(disk, view.layout, view.records[i], decode, entries[i]);
    }
    assert forall|i: int, j: int| 0 <= i < j < items.len() implies loading::goes_before(
        #[trigger] items[i],
        #[trigger] items[j],
    ) by {
        assert(entry_of(disk, view.layout, view.records[i], decode, entries[i]));
        assert(entry_of(disk, view.layout, view.records[j], decode, entries[j]));
        assert(more_recent(disk, view.layout, view.records[i], view.records[j]));
    }
    laws::law_order_found_again(items, found);
    assert forall|i: int| 0 <= i < view.records.len() implies alike(
        #[trigger] loading::loaded_records(loading::newest_first(found))[i],
        view.records[i],
    ) by {
        assert(loaded_entry(view.layout, entries[i]) is Some);
    }
}

/// A store that was opened again is on disk as it was before.
pub proof fn law_opened_store_kept(
    view: StoreView,
    opened: StoreView,
    disk: DiskView,
    decode: ImageDecoding,
)
    requires
        kept(view, disk, decode),
        opened.layout == view.layout,
        opened.records.len() == view.records.len(),
        forall|i: int|
            0 <= i < view.records.len() ==> alike(#[trigger] opened.records[i], view.records[i]),
    ensures
        kept(opened, disk, decode),
{
    assert forall|i: int| 0 <= i < opened.records.len() implies {
        &&& settled(view.layout, #[trigger] opened.records[i])
        &&& stored(disk, view.layout, opened.records[i], decode)
        &&& timed(disk, view.layout, opened.records[i])
    } by {
        assert(settled(view.layout, view.records[i]));
    }
    assert forall|i: int, j: int| 0 <= i < j < opened.records.len() implies {
        &&& (#[trigger] opened.records[i]).hash != (#[trigger] opened.records[j]).hash
        &&& more_recent(disk, view.layout, opened.records[i], opened.records[j])
    } by {
        assert(more_recent(disk, view.layout, view.records[i], view.records[j]));
    }
}

// ---------------------------------------------------------------------------
// Steps, and the items on disk
// ---------------------------------------------------------------------------

proof fn lemma_after_both(
    disk: DiskView,
    first: Seq<ActionView>,
    second: Seq<ActionView>,
    png: PngEncoding,
)
    ensures
        disk.after(first + second, png) == disk.after(first, png).after(second, png),
    decreases second.len(),
{
    if second.len() == 0 {
        assert(first + second =~= first);
    } else {
        assert((first + second).drop_last() =~= first + second.drop_last());
        assert((first + second).last() == second.last());
        lemma_after_both(disk, first, second.drop_last(), png);
    }
}

proof fn lemma_clock(disk: DiskView, steps: Seq<ActionView>, png: PngEncoding)
    ensures
        disk.after(steps, png).clock >= disk.clock,
    decreases steps.len(),
{
    if steps.len() > 0 {
        lemma_clock(disk, steps.drop_last(), png);
    }
}

proof fn lemma_same_reads(
    disk: DiskView,
    after: DiskView,
    layout: LayoutView,
    record: RecordView,
    decode: ImageDecoding,
)
    requires
        stored(disk, layout, record, decode),
        after.read(record.original_path) == disk.read(record.original_path),
        after.read(layout.metadata_path(record.hash)) == disk.read(
            layout.metadata_path(record.hash),
        ),
        record.reference_path matches Some(path) ==> after.read(path) == disk.read(path),
    ensures
        stored(after, layout, record, decode),
{
}

/// Whether the files that the items refer to hold what they held.
pub open spec fn referred_unchanged(
    records: Seq<RecordView>,
    disk: DiskView,
    after: DiskView,
) -> bool {
    forall|i: int|
        0 <= i < records.len() && (#[trigger] records[i]).reference_path is Some ==> after.read(
            records[i].original_path,
        ) == disk.read(records[i].original_path)
}

/// Steps that stay within the store leave the files that items refer to outside of
/// it as they are.
pub proof fn law_outside_referred_unchanged(
    records: Seq<RecordView>,
    disk: DiskView,
    steps: Seq<ActionView>,
    png: PngEncoding,
    root: PathView,
)
    requires
        laws::all_within(steps, root),
        forall|i: int|
            0 <= i < records.len() && (#[trigger] records[i]).reference_path is Some
                ==> !records[i].original_path.starts_with(root),
    ensures
        referred_unchanged(records, disk, disk.after(steps, png)),
{
    assert forall|i: int|
        0 <= i < records.len() && (#[trigger] records[i]).reference_path is Some implies disk.after(
        steps,
        png,
    ).read(records[i].original_path) == disk.read(records[i].original_path) by {
        disk::law_outside_unchanged(disk, steps, png, root, records[i].original_path);
    }
}

proof fn lemma_other_item_kept(
    disk: DiskView,
    steps: Seq<ActionView>,
    png: PngEncoding,
    layout: LayoutView,
    hash: Seq<char>,
    record: RecordView,
    decode: ImageDecoding,
)
    requires
        settled(layout, record),
        stored(disk, layout, record, decode),
        digest::item_hash(hash),
        record.hash != hash,
        all_concern(steps, layout, hash),
        record.reference_path is Some ==> disk.after(steps, png).read(record.original_path)
            == disk.read(record.original_path),
    ensures
        stored(disk.after(steps, png), layout, record, decode),
        disk.after(steps, png).modified(recency_file(layout, record)) == disk.modified(
            recency_file(layout, record),
        ),
{
    law_own_files(layout, record.hash, "png"@);
    law_items_apart(layout, record.hash, hash, layout.metadata_path(record.hash));
    law_others_kept(disk, steps, png, layout, hash, layout.metadata_path(record.hash));
    match record.reference_path {
        None => {
            law_items_apart(layout, record.hash, hash, record.original_path);
            law_others_kept(disk, steps, png, layout, hash, record.original_path);
        },
        Some(path) => {
            law_items_apart(layout, record.hash, hash, path);
            law_others_kept(disk, steps, png, layout, hash, path);
        },
    }
    lemma_same_reads(disk, disk.after(steps, png), layout, record, decode);
}

/// The items of a store stay on disk, and in their order, through steps about an
/// item that is none of them.
proof fn lemma_rest_kept(
    view: StoreView,
    disk: DiskView,
    steps: Seq<ActionView>,
    png: PngEncoding,
    hash: Seq<char>,
    decode: ImageDecoding,
)
    requires
        kept(view, disk, decode),
        digest::item_hash(hash),
        forall|i: int| 0 <= i < view.records.len() ==> (#[trigger] view.records[i]).hash != hash,
        all_concern(steps, view.layout, hash),
        referred_unchanged(view.records, disk, disk.after(steps, png)),
    ensures
        kept(view, disk.after(steps, png), decode),
        forall|i: int|
            0 <= i < view.records.len() ==> disk.after(steps, png).modified(
                recency_file(view.layout, #[trigger] view.records[i]),
            ) == disk.modified(recency_file(view.layout, view.records[i])),
{
    let after = disk.after(steps, png);
    lemma_clock(disk, steps, png);
    assert forall|i: int| 0 <= i < view.records.len() implies {
        &&& stored(after, view.layout, #[trigger] view.records[i], decode)
        &&& after.modified(recency_file(view.layout, view.records[i])) == disk.modified(
            recency_file(view.layout, view.records[i]),
        )
    } by {
        lemma_other_item_kept(disk, steps, png, view.layout, hash, view.records[i], decode);
    }
    assert forall|i: int| 0 <= i < view.records.len() implies timed(
        after,
        view.layout,
        #[trigger] view.records[i],
    ) by {
        assert(timed(disk, view.layout, view.records[i]));
    }
    assert forall|i: int, j: int| 0 <= i < j < view.records.len() implies more_recent(
        after,
        view.layout,
        #[trigger] view.records[i],
        #[trigger] view.records[j],
    ) by {
        assert(more_recent(disk, view.layout, view.records[i], view.records[j]));
    }
}

/// A store keeps being on disk when one of its items is left out.
proof fn lemma_left_out_kept(view: StoreView, disk: DiskView, decode: ImageDecoding, index: int)
    requires
        kept(view, disk, decode),
        0 <= index < view.records.len(),
    ensures
        kept(view.with_records(view.records.remove(index)), disk, decode),
        forall|i: int|
            0 <= i < view.records.len() - 1 ==> (#[trigger] view.records.remove(index)[i]).hash
                != view.records[index].hash,
{
    let rest = view.records.remove(index);
    let origin = |i: int|
        if i < index {
            i
        } else {
            i + 1
        };
    assert forall|i: int| 0 <= i < rest.len() implies {
        &&& settled(view.layout, #[trigger] rest[i])
        &&& stored(disk, view.layout, rest[i], decode)
        &&& timed(disk, view.layout, rest[i])
        &&& rest[i].hash != view.records[index].hash
    } by {
        assert(rest[i] == view.records[origin(i)]);
    }
    assert forall|i: int, j: int| 0 <= i < j < rest.len() implies {
        &&& (#[trigger] rest[i]).hash != (#[trigger] rest[j]).hash
        &&& more_recent(disk, view.layout, rest[i], rest[j])
    } by {
        assert(rest[i] == view.records[origin(i)]);
        assert(rest[j] == view.records[origin(j)]);
    }
}

/// Whether an item is more recent than anything that was on the disk before.
pub open spec fn newest(
    disk: DiskView,
    after: DiskView,
    layout: LayoutView,
    record: RecordView,
) -> bool {
    after.modified(recency_file(layout, record)) matches Some(time) && disk.clock < time
        <= after.clock
}

/// A store with one more item in front is on disk, if that item is, newer than the
/// others.
proof fn lemma_front_kept(
    view: StoreView,
    disk: DiskView,
    steps: Seq<ActionView>,
    png: PngEncoding,
    record: RecordView,
    decode: ImageDecoding,
)
    requires
        kept(view, disk, decode),
        forall|i: int|
            0 <= i < view.records.len() ==> (#[trigger] view.records[i]).hash != record.hash,
        all_concern(steps, view.layout, record.hash),
        referred_unchanged(view.records, disk, disk.after(steps, png)),
        settled(view.layout, record),
        stored(disk.after(steps, png), view.layout, record, decode),
        newest(disk, disk.after(steps, png), view.layout, record),
    ensures
        kept(
            view.with_records(seq![record] + view.records),
            disk.after(steps, png),
            decode,
        ),
{
    let after = disk.after(steps, png);
    let all = seq![record] + view.records;
    lemma_rest_kept(view, disk, steps, png, record.hash, decode);
    assert forall|i: int| 0 <= i < all.len() implies {
        &&& settled(view.layout, #[trigger] all[i])
        &&& stored(after, view.layout, all[i], decode)
        &&& timed(after, view.layout, all[i])
    } by {
        if i > 0 {
            assert(all[i] == view.records[i - 1]);
        }
    }
    assert forall|i: int, j: int| 0 <= i < j < all.len() implies {
        &&& (#[trigger] all[i]).hash != (#[trigger] all[j]).hash
        &&& more_recent(after, view.layout, all[i], all[j])
    } by {
        assert(all[j] == view.records[j - 1]);
        assert(timed(disk, view.layout, view.records[j - 1]));
        if i > 0 {
            assert(all[i] == view.records[i - 1]);
        }
    }
}

// ---------------------------------------------------------------------------
// Operations keep the store on disk
// ---------------------------------------------------------------------------

proof fn lemma_removals_keep(
    disk: DiskView,
    steps: Seq<ActionView>,
    png: PngEncoding,
    path: PathView,
)
    requires
        forall|i: int| 0 <= i < steps.len() ==> (#[trigger] steps[i]) is RemoveIfExists,
        !some_takes_away(steps, path),
    ensures
        disk.after(steps, png).file(path) == disk.file(path),
        disk.after(steps, png).clock == disk.clock,
    decreases steps.len(),
{
    if steps.len() > 0 {
        let before = steps.drop_last();
        assert forall|i: int| 0 <= i < before.len() implies (
        #[trigger] before[i]) is RemoveIfExists by {
            assert(before[i] == steps[i]);
        }
        if some_takes_away(before, path) {
            let i = choose|i: int| 0 <= i < before.len() && (#[trigger] before[i]).takes_away(path);
            assert(steps[i].takes_away(path));
        }
        lemma_removals_keep(disk, before, png, path);
        assert(!steps[steps.len() - 1].takes_away(path));
        assert(steps[steps.len() - 1] is RemoveIfExists);
    }
}

/// An item that is touched is the most recent one, and every file holds what it
/// held.
pub proof fn law_touched(
    disk: DiskView,
    layout: LayoutView,
    record: RecordView,
    png: PngEncoding,
    path: PathView,
)
    requires
        timed(disk, layout, record),
    ensures
        ({
            let after = disk.after(
                store::touch_steps(layout, record.hash, record.reference_path),
                png,
            );
            &&& newest(disk, after, layout, record)
            &&& after.read(path) == disk.read(path)
        }),
{
    reveal_with_fuel(DiskView::after, 3);
    let steps = store::touch_steps(layout, record.hash, record.reference_path);
    assert(steps.drop_last().len() == 0 || steps.drop_last().last() == steps[0]);
}

/// Whether the steps only remove files outside the store.
spec fn clears_outside(steps: Seq<ActionView>, layout: LayoutView) -> bool {
    forall|i: int|
        0 <= i < steps.len() ==> (#[trigger] steps[i]) is RemoveIfExists
            && !steps[i].target().starts_with(layout.root)
}

/// An item stays on disk, as recent as it was, when files outside the store go, if
/// what it refers to is unchanged.
proof fn lemma_cleared_kept(
    disk: DiskView,
    steps: Seq<ActionView>,
    png: PngEncoding,
    layout: LayoutView,
    record: RecordView,
    decode: ImageDecoding,
)
    requires
        clears_outside(steps, layout),
        settled(layout, record),
        stored(disk, layout, record, decode),
        record.reference_path is Some ==> disk.after(steps, png).read(record.original_path)
            == disk.read(record.original_path),
    ensures
        stored(disk.after(steps, png), layout, record, decode),
        disk.after(steps, png).modified(recency_file(layout, record)) == disk.modified(
            recency_file(layout, record),
        ),
        disk.after(steps, png).clock == disk.clock,
{
    law_own_files(layout, record.hash, "png"@);
    assert forall|path: PathView| path.starts_with(layout.root) implies !some_takes_away(
        steps,
        path,
    ) by {}
    lemma_removals_keep(disk, steps, png, layout.metadata_path(record.hash));
    match record.reference_path {
        None => {
            lemma_removals_keep(disk, steps, png, record.original_path);
        },
        Some(path) => {
            lemma_removals_keep(disk, steps, png, path);
        },
    }
    lemma_same_reads(disk, disk.after(steps, png), layout, record, decode);
}

proof fn lemma_touched_item(
    disk: DiskView,
    others: Seq<ActionView>,
    png: PngEncoding,
    layout: LayoutView,
    record: RecordView,
    decode: ImageDecoding,
)
    requires
        clears_outside(others, layout),
        settled(layout, record),
        stored(disk, layout, record, decode),
        timed(disk, layout, record),
        record.reference_path is Some ==> disk.after(
            store::touch_steps(layout, record.hash, record.reference_path) + others,
            png,
        ).read(record.original_path) == disk.read(record.original_path),
    ensures
        ({
            let steps = store::touch_steps(layout, record.hash, record.reference_path) + others;
            let after = disk.after(steps, png);
            &&& stored(after, layout, record, decode)
            &&& newest(disk, after, layout, record)
        }),
{
    let promotion = store::touch_steps(layout, record.hash, record.reference_path);
    let touched = disk.after(promotion, png);
    law_touched(disk, layout, record, png, record.original_path);
    law_touched(disk, layout, record, png, layout.metadata_path(record.hash));
    if let Some(path) = record.reference_path {
        law_touched(disk, layout, record, png, path);
    }
    lemma_same_reads(disk, touched, layout, record, decode);
    lemma_after_both(disk, promotion, others, png);
    lemma_cleared_kept(touched, others, png, layout, record, decode);
}

proof fn lemma_both_concern(
    first: Seq<ActionView>,
    second: Seq<ActionView>,
    layout: LayoutView,
    hash: Seq<char>,
)
    requires
        all_concern(first, layout, hash),
        all_concern(second, layout, hash),
    ensures
        all_concern(first + second, layout, hash),
{
    let both = first + second;
    assert forall|i: int| 0 <= i < both.len() implies concerns(
        #[trigger] both[i],
        layout,
        hash,
    ) by {
        if i < first.len() {
            assert(both[i] == first[i]);
        } else {
            assert(both[i] == second[i - first.len()]);
        }
    }
}

proof fn lemma_unchanged_apart(
    record: RecordView,
    rest: Seq<RecordView>,
    disk: DiskView,
    after: DiskView,
)
    requires
        referred_unchanged(seq![record] + rest, disk, after),
    ensures
        referred_unchanged(rest, disk, after),
        record.reference_path is Some ==> after.read(record.original_path) == disk.read(
            record.original_path,
        ),
{
    let all = seq![record] + rest;
    assert(all[0] == record);
    assert forall|i: int| 0 <= i < rest.len() && (#[trigger] rest[i]).reference_path is Some implies
        after.read(rest[i].original_path) == disk.read(rest[i].original_path) by {
        assert(all[i + 1] == rest[i]);
    }
}

proof fn lemma_kept_own(view: StoreView, disk: DiskView, decode: ImageDecoding)
    requires
        kept(view, disk, decode),
    ensures
        all_own(view),
        laws::all_placed(view),
{
    assert forall|i: int| 0 <= i < view.records.len() implies {
        &&& owns_files(view.layout, #[trigger] view.records[i])
        &&& laws::placed(view.layout, view.records[i])
    } by {
        assert(settled(view.layout, view.records[i]));
    }
}

proof fn lemma_promoted_kept(
    view: StoreView,
    hash: Seq<char>,
    others: Seq<ActionView>,
    disk: DiskView,
    png: PngEncoding,
    decode: ImageDecoding,
)
    requires
        kept(view, disk, decode),
        view.holds(hash),
        clears_outside(others, view.layout),
        referred_unchanged(
            view.promoted(hash).records,
            disk,
            disk.after(view.promotion_steps(hash) + others, png),
        ),
    ensures
        kept(
            view.promoted(hash),
            disk.after(view.promotion_steps(hash) + others, png),
            decode,
        ),
{
    store::lemma_position(view.records, hash);
    let index = store::position(view.records, hash);
    let record = view.records[index];
    let rest = view.with_records(view.records.remove(index));
    let promotion = view.promotion_steps(hash);
    let steps = promotion + others;
    lemma_left_out_kept(view, disk, decode, index);
    lemma_unchanged_apart(record, rest.records, disk, disk.after(steps, png));
    lemma_touched_item(disk, others, png, view.layout, record, decode);
    lemma_kept_own(view, disk, decode);
    lemma_promotion_concerns(view, hash);
    lemma_both_concern(promotion, others, view.layout, hash);
    lemma_front_kept(rest, disk, steps, png, record, decode);
    assert(view.promoted(hash) =~= rest.with_records(seq![record] + rest.records));
}

proof fn lemma_inserted_kept(
    view: StoreView,
    record: RecordView,
    required: Seq<ActionView>,
    cleanup: Seq<ActionView>,
    disk: DiskView,
    png: PngEncoding,
    decode: ImageDecoding,
)
    requires
        kept(view, disk, decode),
        forall|i: int|
            0 <= i < view.records.len() ==> (#[trigger] view.records[i]).hash != record.hash,
        all_concern(required, view.layout, record.hash),
        clears_outside(cleanup, view.layout),
        referred_unchanged(view.records, disk, disk.after(required + cleanup, png)),
        settled(view.layout, record),
        record.reference_path is Some ==> disk.after(required + cleanup, png).read(
            record.original_path,
        ) == disk.after(required, png).read(record.original_path),
        stored(disk.after(required, png), view.layout, record, decode),
        newest(disk, disk.after(required, png), view.layout, record),
    ensures
        kept(
            view.with_records(seq![record] + view.records),
            disk.after(required + cleanup, png),
            decode,
        ),
{
    lemma_after_both(disk, required, cleanup, png);
    lemma_cleared_kept(disk.after(required, png), cleanup, png, view.layout, record, decode);
    assert(all_concern(cleanup, view.layout, record.hash));
    lemma_both_concern(required, cleanup, view.layout, record.hash);
    lemma_front_kept(view, disk, required + cleanup, png, record, decode);
}

/// Whether a PNG that is to be stored is an image of the size that its record says.
pub open spec fn decodes(
    png: PngEncoding,
    decode: ImageDecoding,
    image: PixelsView,
) -> bool {
    decode(Some("png"@), png(image)) matches Ok(saved) && saved.width == image.width
        && saved.height == image.height
}

/// An image that was stored is on disk, as the most recent item.
pub proof fn law_image_stored(
    view: StoreView,
    image: PixelsView,
    name: Seq<char>,
    record: RecordView,
    disk: DiskView,
    png: PngEncoding,
    decode: ImageDecoding,
)
    requires
        view.persist_rgba(image, name).1.finish == (FinishView::Insert { record }),
        digest::item_hash(record.hash),
        decodes(png, decode, image),
    ensures
        settled(view.layout, record),
        ({
            let after = disk.after(view.persist_rgba(image, name).1.required, png);
            &&& stored(after, view.layout, record, decode)
            &&& newest(disk, after, view.layout, record)
        }),
{
    let steps = view.persist_rgba(image, name).1.required;
    let after = disk.after(steps, png);
    laws::lemma_layout_below(view.layout, record.hash, "png"@);
    law_own_files(view.layout, record.hash, "png"@);
    reveal_strlit("png");
    assert(text::ascii_lower("png"@) =~= "png"@);
    disk::lemma_stored_file_name(view.layout, record.hash, "png"@);
    disk::law_raster_on_disk(view, image, name, record, disk, png);
    lemma_clock(disk, steps.drop_last(), png);
    assert(steps.last() == steps[2]);
    let entry = OriginalEntryView {
        probe: probed(after, record.original_path, decode),
        metadata: paths::text_of(after.read(view.layout.metadata_path(record.hash))),
        metadata_modified: None,
        modified: None,
        thumbnail_exists: true,
    };
    disk::law_raster_found_again(
        view,
        image,
        name,
        record,
        disk,
        png,
        entry,
        decode(Some("png"@), png(image))->Ok_0,
    );
}

/// An animation that was stored is on disk, as the most recent item.
pub proof fn law_animation_stored(
    view: StoreView,
    probe: ProbeView,
    name: Seq<char>,
    record: RecordView,
    disk: DiskView,
    png: PngEncoding,
    decode: ImageDecoding,
)
    requires
        probe.path.is_gif_file(),
        probe == probed(disk, probe.path, decode),
        view.persist_gif(probe, name).1.finish == (FinishView::Insert { record }),
        digest::item_hash(record.hash),
    ensures
        settled(view.layout, record),
        ({
            let after = disk.after(view.persist_gif(probe, name).1.required, png);
            &&& stored(after, view.layout, record, decode)
            &&& newest(disk, after, view.layout, record)
        }),
{
    let steps = view.persist_gif(probe, name).1.required;
    let after = disk.after(steps, png);
    laws::lemma_layout_below(view.layout, record.hash, "gif"@);
    law_own_files(view.layout, record.hash, "gif"@);
    reveal_strlit("gif");
    assert(text::ascii_lower("gif"@) =~= "gif"@);
    disk::lemma_stored_file_name(view.layout, record.hash, "gif"@);
    disk::law_gif_on_disk(view, probe, name, record, disk, png);
    lemma_clock(disk, steps.drop_last(), png);
    assert(steps.last() == steps[2]);
    let entry = OriginalEntryView {
        probe: probed(after, record.original_path, decode),
        metadata: paths::text_of(after.read(view.layout.metadata_path(record.hash))),
        metadata_modified: None,
        modified: None,
        thumbnail_exists: true,
    };
    disk::law_gif_found_again(view, probe, name, record, disk, png, entry);
}

/// A text that was moved into the store is on disk, as the most recent item.
pub proof fn law_text_stored(
    view: StoreView,
    probe: ProbeView,
    mode: ImportMode,
    record: RecordView,
    disk: DiskView,
    png: PngEncoding,
    decode: ImageDecoding,
)
    requires
        !probe.path.is_png_file(),
        !probe.path.is_gif_file(),
        probe == probed(disk, probe.path, decode),
        view.move_text(probe, mode).1.finish == (FinishView::Insert { record }),
        digest::item_hash(record.hash),
    ensures
        settled(view.layout, record),
        ({
            let after = disk.after(view.move_text(probe, mode).1.required, png);
            &&& stored(after, view.layout, record, decode)
            &&& newest(disk, after, view.layout, record)
        }),
{
    let steps = view.move_text(probe, mode).1.required;
    let after = disk.after(steps, png);
    let extension = probe.path.normalized_text_extension();
    laws::lemma_layout_below(view.layout, record.hash, extension);
    law_own_files(view.layout, record.hash, extension);
    disk::law_text_on_disk(view, probe, mode, record, disk, png);
    lemma_clock(disk, steps.drop_last(), png);
    assert(steps.last() == steps[1]);
    let entry = OriginalEntryView {
        probe: probed(after, record.original_path, decode),
        metadata: paths::text_of(after.read(view.layout.metadata_path(record.hash))),
        metadata_modified: None,
        modified: None,
        thumbnail_exists: true,
    };
    disk::law_text_found_again(view, probe, mode, record, disk, png, entry);
}

/// A reference to a file that is as it was is on disk, as the most recent item.
pub proof fn law_reference_stored(
    view: StoreView,
    source: SourceView,
    record: RecordView,
    disk: DiskView,
    png: PngEncoding,
    decode: ImageDecoding,
)
    requires
        laws::all_placed(view),
        source.canonical == probed(disk, source.canonical.path, decode),
        view.add_reference(source).1.finish == (FinishView::Insert { record }),
        digest::item_hash(record.hash),
        disk.after(view.add_reference(source).1.required, png).read(record.original_path)
            == disk.read(record.original_path),
    ensures
        settled(view.layout, record),
        ({
            let after = disk.after(view.add_reference(source).1.required, png);
            &&& stored(after, view.layout, record, decode)
            &&& newest(disk, after, view.layout, record)
        }),
{
    reveal_with_fuel(DiskView::after, 3);
    let steps = view.add_reference(source).1.required;
    let after = disk.after(steps, png);
    let path = view.layout.reference_path(record.hash);
    laws::lemma_layout_below(view.layout, record.hash, "png"@);
    law_own_files(view.layout, record.hash, "png"@);
    disk::law_files_apart(view.layout, record.hash, "png"@);
    disk::law_reference_on_disk(view, source, record, disk, png);
    lemma_clock(disk, steps.drop_last().drop_last(), png);
    assert(steps.drop_last().last() == steps[steps.len() - 2]);
    let entry = ReferenceEntryView {
        path,
        failure: None,
        referred: probed(after, record.original_path, decode),
        is_file: true,
        metadata: paths::text_of(after.read(view.layout.metadata_path(record.hash))),
        modified: None,
    };
    disk::law_reference_found_again(view, source, record, disk, png, entry);
}

proof fn lemma_none_of(records: Seq<RecordView>, hash: Seq<char>)
    requires
        store::position(records, hash) >= records.len(),
    ensures
        forall|i: int| 0 <= i < records.len() ==> (#[trigger] records[i]).hash != hash,
{
    store::lemma_position(records, hash);
}

/// Whether a store is on disk once the steps of an operation are done.
spec fn kept_after(
    step: (StoreView, OutcomeView),
    cleanup: Seq<ActionView>,
    disk: DiskView,
    png: PngEncoding,
    decode: ImageDecoding,
) -> bool {
    kept(
        step.0.completed(step.1.finish).0,
        disk.after(step.1.refresh + step.1.required + cleanup, png),
        decode,
    )
}

proof fn lemma_image_kept(
    view: StoreView,
    image: PixelsView,
    name: Seq<char>,
    cleanup: Seq<ActionView>,
    disk: DiskView,
    png: PngEncoding,
    decode: ImageDecoding,
)
    requires
        kept(view, disk, decode),
        view.persist_rgba(image, name).1.well_hashed(),
        decodes(png, decode, image),
        clears_outside(cleanup, view.layout),
        ({
            let (ended, outcome) = view.persist_rgba(image, name);
            referred_unchanged(
                ended.completed(outcome.finish).0.records,
                disk,
                disk.after(outcome.refresh + outcome.required + cleanup, png),
            )
        }),
    ensures
        kept_after(view.persist_rgba(image, name), cleanup, disk, png, decode),
{
    let hash = digest::blake3_hex(image.pixels);
    let outcome = view.persist_rgba(image, name).1;
    if view.holds(hash) {
        assert(outcome.refresh + outcome.required + cleanup =~= view.promotion_steps(hash)
            + cleanup);
        lemma_promoted_kept(view, hash, cleanup, disk, png, decode);
    } else {
        let record = store::raster_record(view.layout, image, name);
        assert(outcome.refresh + outcome.required + cleanup =~= outcome.required + cleanup);
        assert(outcome.steps() =~= outcome.required);
        lemma_unchanged_apart(
            record,
            view.records,
            disk,
            disk.after(outcome.required + cleanup, png),
        );
        lemma_none_of(view.records, hash);
        lemma_kept_own(view, disk, decode);
        lemma_raster_concerns(view, image, name);
        law_image_stored(view, image, name, record, disk, png, decode);
        lemma_inserted_kept(view, record, outcome.required, cleanup, disk, png, decode);
    }
}

proof fn lemma_animation_kept(
    view: StoreView,
    probe: ProbeView,
    name: Seq<char>,
    cleanup: Seq<ActionView>,
    disk: DiskView,
    png: PngEncoding,
    decode: ImageDecoding,
)
    requires
        kept(view, disk, decode),
        probe.path.is_gif_file(),
        probe == probed(disk, probe.path, decode),
        view.persist_gif(probe, name).1.finish !is Fail,
        view.persist_gif(probe, name).1.well_hashed(),
        clears_outside(cleanup, view.layout),
        ({
            let (ended, outcome) = view.persist_gif(probe, name);
            referred_unchanged(
                ended.completed(outcome.finish).0.records,
                disk,
                disk.after(outcome.refresh + outcome.required + cleanup, png),
            )
        }),
    ensures
        kept_after(view.persist_gif(probe, name), cleanup, disk, png, decode),
{
    let encoded = probe.contents->Ok_0;
    let hash = digest::blake3_hex(encoded);
    let outcome = view.persist_gif(probe, name).1;
    if view.holds(hash) {
        assert(outcome.refresh + outcome.required + cleanup =~= view.promotion_steps(hash)
            + cleanup);
        lemma_promoted_kept(view, hash, cleanup, disk, png, decode);
    } else {
        let record = store::gif_record(view.layout, encoded, probe.pixels->Ok_0, name);
        assert(outcome.refresh + outcome.required + cleanup =~= outcome.required + cleanup);
        assert(outcome.steps() =~= outcome.required);
        lemma_unchanged_apart(
            record,
            view.records,
            disk,
            disk.after(outcome.required + cleanup, png),
        );
        lemma_none_of(view.records, hash);
        lemma_kept_own(view, disk, decode);
        lemma_gif_concerns(view, probe, name);
        law_animation_stored(view, probe, name, record, disk, png, decode);
        lemma_inserted_kept(view, record, outcome.required, cleanup, disk, png, decode);
    }
}

proof fn lemma_text_kept(
    view: StoreView,
    probe: ProbeView,
    mode: ImportMode,
    disk: DiskView,
    png: PngEncoding,
    decode: ImageDecoding,
)
    requires
        kept(view, disk, decode),
        !probe.path.is_png_file(),
        !probe.path.is_gif_file(),
        probe == probed(disk, probe.path, decode),
        view.move_text(probe, mode).1.finish !is Fail,
        view.move_text(probe, mode).1.well_hashed(),
        referred_unchanged(
            view.move_text(probe, mode).0.completed(
                view.move_text(probe, mode).1.finish,
            ).0.records,
            disk,
            disk.after(view.move_text(probe, mode).1.steps(), png),
        ),
    ensures
        kept(
            view.move_text(probe, mode).0.completed(view.move_text(probe, mode).1.finish).0,
            disk.after(view.move_text(probe, mode).1.steps(), png),
            decode,
        ),
{
    let encoded = probe.contents->Ok_0;
    let hash = digest::blake3_hex(encoded);
    let outcome = view.move_text(probe, mode).1;
    if view.holds(hash) {
        assert(outcome.steps() =~= view.promotion_steps(hash) + outcome.required);
        lemma_promoted_kept(view, hash, outcome.required, disk, png, decode);
    } else {
        let extension = probe.path.normalized_text_extension();
        let record = store::text_record(
            hash,
            store::text_name(probe.path),
            view.layout.original_path(hash, extension),
            encoded,
            extension,
        );
        assert(outcome.steps() =~= outcome.required);
        assert(outcome.required + Seq::empty() =~= outcome.required);
        lemma_unchanged_apart(record, view.records, disk, disk.after(outcome.required, png));
        lemma_none_of(view.records, hash);
        lemma_kept_own(view, disk, decode);
        lemma_text_concerns(view, probe, mode);
        law_text_stored(view, probe, mode, record, disk, png, decode);
        lemma_inserted_kept(view, record, outcome.required, Seq::empty(), disk, png, decode);
    }
}

proof fn lemma_without_stale_kept(
    view: StoreView,
    hash: Seq<char>,
    disk: DiskView,
    decode: ImageDecoding,
)
    requires
        kept(view, disk, decode),
    ensures
        kept(view.without_stale(hash), disk, decode),
        forall|i: int|
            0 <= i < view.without_stale(hash).records.len() ==> (
            #[trigger] view.without_stale(hash).records[i]).hash != hash,
{
    store::lemma_position(view.records, hash);
    if view.holds(hash) {
        let index = store::position(view.records, hash);
        lemma_left_out_kept(view, disk, decode, index);
    } else {
        lemma_none_of(view.records, hash);
    }
}

/// Referring to a file keeps the items of the store on disk, with the reference as
/// the most recent one, as long as the files that the items refer to are unchanged.
pub proof fn law_reference_keeps_store(
    view: StoreView,
    source: SourceView,
    disk: DiskView,
    png: PngEncoding,
    decode: ImageDecoding,
)
    requires
        kept(view, disk, decode),
        source.canonical == probed(disk, source.canonical.path, decode),
        view.add_reference(source).1.finish !is Fail,
        view.add_reference(source).1.well_hashed(),
        referred_unchanged(
            view.add_reference(source).0.completed(
                view.add_reference(source).1.finish,
            ).0.records,
            disk,
            disk.after(view.add_reference(source).1.steps(), png),
        ),
    ensures
        kept(
            view.add_reference(source).0.completed(view.add_reference(source).1.finish).0,
            disk.after(view.add_reference(source).1.steps(), png),
            decode,
        ),
{
    let hash = digest::reference_hash_of(source.canonical.path.text);
    let outcome = view.add_reference(source).1;
    let index = store::position(view.records, hash);
    lemma_kept_own(view, disk, decode);
    if view.holds(hash) && view.records[index].reference_path is None {
        assert(outcome.steps() =~= view.promotion_steps(hash) + Seq::empty());
        lemma_promoted_kept(view, hash, Seq::empty(), disk, png, decode);
    } else {
        let record = outcome.finish->record;
        let rest = view.without_stale(hash);
        assert(outcome.steps() =~= outcome.required);
        assert(outcome.required + Seq::empty() =~= outcome.required);
        lemma_unchanged_apart(record, rest.records, disk, disk.after(outcome.required, png));
        lemma_without_stale_kept(view, hash, disk, decode);
        lemma_reference_concerns(view, source);
        law_reference_stored(view, source, record, disk, png, decode);
        lemma_inserted_kept(rest, record, outcome.required, Seq::empty(), disk, png, decode);
    }
}

/// Storing an image from the clipboard keeps the items of the store on disk, with
/// the image as the most recent one, as long as the files that the items refer to are
/// unchanged.
pub proof fn law_clipboard_image_keeps_store(
    view: StoreView,
    width: u32,
    height: u32,
    bytes: Seq<u8>,
    disk: DiskView,
    png: PngEncoding,
    decode: ImageDecoding,
)
    requires
        kept(view, disk, decode),
        decodes(png, decode, PixelsView { width, height, pixels: bytes }),
        view.add_clipboard_image(width, height, bytes).1.well_hashed(),
        ({
            let (after, outcome) = view.add_clipboard_image(width, height, bytes);
            referred_unchanged(
                after.completed(outcome.finish).0.records,
                disk,
                disk.after(outcome.steps(), png),
            )
        }),
    ensures
        ({
            let (after, outcome) = view.add_clipboard_image(width, height, bytes);
            kept(after.completed(outcome.finish).0, disk.after(outcome.steps(), png), decode)
        }),
{
    let image = PixelsView { width, height, pixels: bytes };
    let outcome = view.add_clipboard_image(width, height, bytes).1;
    if crate::pixels::buffer_fits(width, height, bytes.len()) {
        assert(outcome.steps() =~= outcome.refresh + outcome.required + Seq::empty());
        lemma_image_kept(view, image, "Clipboard"@, Seq::empty(), disk, png, decode);
    }
}

proof fn lemma_move_import_kept(
    view: StoreView,
    source: SourceView,
    disk: DiskView,
    png: PngEncoding,
    decode: ImageDecoding,
)
    requires
        kept(view, disk, decode),
        source.given.path.is_supported_image_file(),
        source.given == probed(disk, source.given.path, decode),
        source.given.pixels matches Ok(image) ==> decodes(png, decode, image),
        view.import_image(source, ImportMode::Move).1.finish !is Fail,
        view.import_image(source, ImportMode::Move).1.well_hashed(),
        ({
            let (after, outcome) = view.import_image(source, ImportMode::Move);
            referred_unchanged(
                after.completed(outcome.finish).0.records,
                disk,
                disk.after(outcome.steps(), png),
            )
        }),
    ensures
        ({
            let (after, outcome) = view.import_image(source, ImportMode::Move);
            kept(after.completed(outcome.finish).0, disk.after(outcome.steps(), png), decode)
        }),
{
    let name = store::image_name(source.given.path);
    let outcome = view.import_image(source, ImportMode::Move).1;
    let inner = view.persist_image_file(source.given).1;
    assert(outcome.steps() == inner.refresh + inner.required + outcome.cleanup);
    assert(clears_outside(outcome.cleanup, view.layout));
    if source.given.path.is_gif_file() {
        lemma_animation_kept(view, source.given, name, outcome.cleanup, disk, png, decode);
    } else if let Ok(image) = source.given.pixels {
        lemma_image_kept(view, image, name, outcome.cleanup, disk, png, decode);
    }
}

/// Importing a file keeps the items of the store on disk, with the item that it
/// became as the most recent one, unless it fails, as long as the files that the items
/// refer to are unchanged.
pub proof fn law_import_keeps_store(
    view: StoreView,
    source: SourceView,
    mode: ImportMode,
    disk: DiskView,
    png: PngEncoding,
    decode: ImageDecoding,
)
    requires
        kept(view, disk, decode),
        source.given == probed(disk, source.given.path, decode),
        source.canonical == probed(disk, source.canonical.path, decode),
        source.given.pixels matches Ok(image) ==> decodes(png, decode, image),
        view.import(source, mode).1.finish !is Fail,
        view.import(source, mode).1.well_hashed(),
        ({
            let (after, outcome) = view.import(source, mode);
            referred_unchanged(
                after.completed(outcome.finish).0.records,
                disk,
                disk.after(outcome.steps(), png),
            )
        }),
    ensures
        ({
            let (after, outcome) = view.import(source, mode);
            kept(after.completed(outcome.finish).0, disk.after(outcome.steps(), png), decode)
        }),
{
    reveal_strlit("png");
    reveal_strlit("gif");
    if source.only_referred(mode) {
        law_reference_keeps_store(view, source, disk, png, decode);
    } else if source.given.path.is_supported_image_file() {
        lemma_move_import_kept(view, source, disk, png, decode);
    } else {
        lemma_text_kept(view, source.given, mode, disk, png, decode);
    }
}

/// Taking an item out of the store keeps the others on disk, in their order, as long
/// as the files that they refer to are unchanged.
pub proof fn law_removal_keeps_store(
    view: StoreView,
    index: int,
    disk: DiskView,
    png: PngEncoding,
    decode: ImageDecoding,
)
    requires
        kept(view, disk, decode),
        0 <= index < view.records.len(),
        referred_unchanged(
            view.records.remove(index),
            disk,
            disk.after(store::removal_steps(view.layout, view.records[index]), png),
        ),
    ensures
        kept(
            view.with_records(view.records.remove(index)),
            disk.after(store::removal_steps(view.layout, view.records[index]), png),
            decode,
        ),
{
    let record = view.records[index];
    let steps = store::removal_steps(view.layout, record);
    let rest = view.with_records(view.records.remove(index));
    assert(settled(view.layout, record));
    lemma_left_out_kept(view, disk, decode, index);
    lemma_removal_concerns(view.layout, record);
    lemma_rest_kept(rest, disk, steps, png, record.hash, decode);
}

/// A store without items is on every disk.
pub proof fn law_empty_store_kept(layout: LayoutView, disk: DiskView, decode: ImageDecoding)
    ensures
        kept(StoreView { layout, records: Seq::empty() }, disk, decode),
{
}

} // verus!
