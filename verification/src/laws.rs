//! What holds of the store across its operations.

use vstd::prelude::*;
use vstd::string::*;

use crate::actions::{ActionView, FinishView, OutcomeView};
use crate::layout::LayoutView;
use crate::loading::{LoadedView, OriginalEntryView, ReferenceEntryView};
use crate::paths::PathView;
use crate::pixels::PixelsView;
use crate::records::{ErrorView, ImportMode, ProbeView, RecordView, SourceView};
use crate::store::StoreView;
use crate::{digest, layout, loading, paths, records, store};

verus! {

// ---------------------------------------------------------------------------
// No item twice
// ---------------------------------------------------------------------------

proof fn lemma_remove_distinct(records: Seq<RecordView>, index: int)
    requires
        store::distinct(records),
        0 <= index < records.len(),
    ensures
        store::distinct(records.remove(index)),
        !exists|i: int|
            0 <= i < records.remove(index).len() && (#[trigger] records.remove(index)[i]).hash
                == records[index].hash,
{
    let rest = records.remove(index);
    assert forall|i: int| 0 <= i < rest.len() implies (#[trigger] rest[i]).hash
        != records[index].hash by {
        if i < index {
            assert(rest[i] == records[i]);
        } else {
            assert(rest[i] == records[i + 1]);
        }
    }
    assert forall|i: int, j: int| 0 <= i < j < rest.len() implies (#[trigger] rest[i]).hash != (
    #[trigger] rest[j]).hash by {
        let a = if i < index {
            i
        } else {
            i + 1
        };
        let b = if j < index {
            j
        } else {
            j + 1
        };
        assert(rest[i] == records[a]);
        assert(rest[j] == records[b]);
    }
}

proof fn lemma_front_distinct(record: RecordView, records: Seq<RecordView>)
    requires
        store::distinct(records),
        forall|i: int| 0 <= i < records.len() ==> (#[trigger] records[i]).hash != record.hash,
    ensures
        store::distinct(seq![record] + records),
{
    let all = seq![record] + records;
    assert forall|i: int, j: int| 0 <= i < j < all.len() implies (#[trigger] all[i]).hash != (
    #[trigger] all[j]).hash by {
        assert(all[j] == records[j - 1]);
        if i > 0 {
            assert(all[i] == records[i - 1]);
        }
    }
}

proof fn lemma_to_front_distinct(records: Seq<RecordView>, index: int)
    requires
        store::distinct(records),
        0 <= index < records.len(),
    ensures
        store::distinct(store::to_front(records, index)),
{
    lemma_remove_distinct(records, index);
    lemma_front_distinct(records[index], records.remove(index));
}

/// Whether neither the store nor what it becomes when the operation ends holds
/// an item twice.
spec fn stays_distinct(step: (StoreView, OutcomeView)) -> bool {
    &&& store::distinct(step.0.records)
    &&& store::distinct(step.0.completed(step.1.finish).0.records)
}

proof fn lemma_persist_rgba_distinct(view: StoreView, image: PixelsView, name: Seq<char>)
    requires
        store::distinct(view.records),
    ensures
        stays_distinct(view.persist_rgba(image, name)),
{
    let hash = digest::blake3_hex(image.pixels);
    store::lemma_position(view.records, hash);
    if view.holds(hash) {
        lemma_to_front_distinct(view.records, store::position(view.records, hash));
    } else {
        lemma_front_distinct(store::raster_record(view.layout, image, name), view.records);
    }
}

proof fn lemma_persist_gif_distinct(view: StoreView, probe: ProbeView, name: Seq<char>)
    requires
        store::distinct(view.records),
    ensures
        stays_distinct(view.persist_gif(probe, name)),
{
    if let Ok(encoded) = probe.contents {
        let hash = digest::blake3_hex(encoded);
        store::lemma_position(view.records, hash);
        if view.holds(hash) {
            lemma_to_front_distinct(view.records, store::position(view.records, hash));
        } else if let Ok(image) = probe.pixels {
            lemma_front_distinct(
                store::gif_record(view.layout, encoded, image, name),
                view.records,
            );
        }
    }
}

proof fn lemma_move_text_distinct(view: StoreView, probe: ProbeView, mode: ImportMode)
    requires
        store::distinct(view.records),
    ensures
        stays_distinct(view.move_text(probe, mode)),
{
    if let Ok(encoded) = probe.contents {
        if paths::text_bytes(encoded) {
            let hash = digest::blake3_hex(encoded);
            store::lemma_position(view.records, hash);
            if view.holds(hash) {
                lemma_to_front_distinct(view.records, store::position(view.records, hash));
            } else {
                let extension = probe.path.normalized_text_extension();
                lemma_front_distinct(
                    store::text_record(
                        hash,
                        store::text_name(probe.path),
                        view.layout.original_path(hash, extension),
                        encoded,
                        extension,
                    ),
                    view.records,
                );
            }
        }
    }
}

proof fn lemma_reference_hash_kept(layout: LayoutView, hash: Seq<char>, probe: ProbeView)
    ensures
        store::reference_record(layout, hash, probe) matches Ok(built) ==> built.0.hash == hash,
{
}

proof fn lemma_add_reference_distinct(view: StoreView, source: SourceView)
    requires
        store::distinct(view.records),
    ensures
        stays_distinct(view.add_reference(source)),
{
    let hash = digest::reference_hash_of(source.canonical.path.text);
    let index = store::position(view.records, hash);
    store::lemma_position(view.records, hash);
    lemma_reference_hash_kept(view.layout, hash, source.canonical);
    if source.is_file {
        if view.holds(hash) {
            lemma_to_front_distinct(view.records, index);
            lemma_remove_distinct(view.records, index);
        }
        if !(view.holds(hash) && view.records[index].reference_path is None) {
            let kept = view.without_stale(hash).records;
            if let Ok(built) = store::reference_record(view.layout, hash, source.canonical) {
                assert forall|i: int| 0 <= i < kept.len() implies (#[trigger] kept[i]).hash
                    != hash by {
                    if !view.holds(hash) {
                        assert(kept[i] == view.records[i]);
                    }
                }
                lemma_front_distinct(
                    built.0.with_reference(view.layout.reference_path(hash)),
                    kept,
                );
            }
        }
    }
}

/// Importing a file never makes the store hold an item twice.
pub proof fn law_import_keeps_distinct(view: StoreView, source: SourceView, mode: ImportMode)
    requires
        store::distinct(view.records),
    ensures
        store::distinct(view.import(source, mode).0.records),
        ({
            let (after, outcome) = view.import(source, mode);
            store::distinct(after.completed(outcome.finish).0.records)
        }),
{
    lemma_add_reference_distinct(view, source);
    lemma_move_text_distinct(view, source.given, mode);
    lemma_persist_gif_distinct(view, source.given, store::image_name(source.given.path));
    if let Ok(image) = source.given.pixels {
        lemma_persist_rgba_distinct(view, image, store::image_name(source.given.path));
    }
}

/// Referring to a file never makes the store hold an item twice.
pub proof fn law_reference_keeps_distinct(view: StoreView, source: SourceView)
    requires
        store::distinct(view.records),
    ensures
        store::distinct(view.add_reference(source).0.records),
        ({
            let (after, outcome) = view.add_reference(source);
            store::distinct(after.completed(outcome.finish).0.records)
        }),
{
    lemma_add_reference_distinct(view, source);
}

/// Storing an image from the clipboard never makes the store hold an item twice.
pub proof fn law_clipboard_image_keeps_distinct(
    view: StoreView,
    width: u32,
    height: u32,
    bytes: Seq<u8>,
)
    requires
        store::distinct(view.records),
    ensures
        store::distinct(view.add_clipboard_image(width, height, bytes).0.records),
        ({
            let (after, outcome) = view.add_clipboard_image(width, height, bytes);
            store::distinct(after.completed(outcome.finish).0.records)
        }),
{
    lemma_persist_rgba_distinct(view, PixelsView { width, height, pixels: bytes }, "Clipboard"@);
}

/// Taking an item out, or moving one, never makes the store hold an item twice.
pub proof fn law_rearranging_keeps_distinct(records: Seq<RecordView>, from: int, to: int)
    requires
        store::distinct(records),
        0 <= from < records.len(),
        0 <= to < records.len(),
    ensures
        store::distinct(records.remove(from)),
        store::distinct(store::moved(records, from, to)),
{
    lemma_remove_distinct(records, from);
    let rest = records.remove(from);
    let after = store::moved(records, from, to);
    assert forall|i: int, j: int| 0 <= i < j < after.len() implies (#[trigger] after[i]).hash != (
    #[trigger] after[j]).hash by {
        if i != to && j != to {
            let a = if i < to {
                i
            } else {
                i - 1
            };
            let b = if j < to {
                j
            } else {
                j - 1
            };
            assert(after[i] == rest[a]);
            assert(after[j] == rest[b]);
        } else if i == to {
            assert(after[j] == rest[j - 1]);
        } else {
            assert(after[i] == rest[i]);
        }
    }
}

/// Moving an item there and back leaves the order as it was.
pub proof fn law_moving_back(records: Seq<RecordView>, from: int, to: int)
    requires
        0 <= from < records.len(),
        0 <= to < records.len(),
    ensures
        store::moved(store::moved(records, from, to), to, from) == records,
{
    assert(store::moved(store::moved(records, from, to), to, from) =~= records);
}

// ---------------------------------------------------------------------------
// To the front
// ---------------------------------------------------------------------------

/// An item that comes to the front is the first one afterwards; nothing is added
/// or lost, and the others keep their order.
pub proof fn law_promoted(view: StoreView, hash: Seq<char>)
    requires
        view.holds(hash),
    ensures
        view.promoted(hash).records[0].hash == hash,
        view.promoted(hash).records.len() == view.records.len(),
        view.promoted(hash).records.drop_first() == view.records.remove(
            store::position(view.records, hash),
        ),
        view.promoted(hash).records.to_multiset() == view.records.to_multiset(),
        view.promoted(hash).layout == view.layout,
{
    store::lemma_position(view.records, hash);
    let index = store::position(view.records, hash);
    let rest = view.records.remove(index);
    let after = view.promoted(hash).records;
    assert(after.drop_first() == rest);
    assert(after == rest.insert(0, view.records[index]));
    broadcast use vstd::seq_lib::group_to_multiset_ensures;

    assert(view.records.to_multiset().count(view.records[index]) > 0) by {
        assert(view.records.contains(view.records[index]));
    }
    vstd::seq_lib::to_multiset_remove(view.records, index);
    vstd::seq_lib::to_multiset_insert(rest, 0, view.records[index]);
    assert(after.to_multiset() =~= view.records.to_multiset());
}

/// Whether an operation, if it does not fail, leaves its item at the front and all
/// others as they were, in their order, and reports a change.
pub open spec fn comes_first(view: StoreView, after: (StoreView, OutcomeView)) -> bool {
    let (ended, result) = after.0.completed(after.1.finish);
    after.1.finish is Fail || {
        &&& result == Ok::<bool, ErrorView>(true)
        &&& ended.layout == view.layout
        &&& ended.records.len() > 0
        &&& ended.records.drop_first() == view.without_stale(ended.records[0].hash).records
    }
}

proof fn lemma_promotion_comes_first(view: StoreView, hash: Seq<char>)
    requires
        view.holds(hash),
    ensures
        view.promoted(hash).records[0].hash == hash,
        view.promoted(hash).records.drop_first() == view.without_stale(hash).records,
{
    law_promoted(view, hash);
}

proof fn lemma_insertion_comes_first(view: StoreView, record: RecordView)
    ensures
        (seq![record] + view.records).drop_first() == view.records,
{
}

/// An image that is stored comes first, and is not stored twice.
pub proof fn law_image_comes_first(view: StoreView, image: PixelsView, name: Seq<char>)
    ensures
        comes_first(view, view.persist_rgba(image, name)),
        view.persist_rgba(image, name).1.finish !is Fail,
{
    let hash = digest::blake3_hex(image.pixels);
    if view.holds(hash) {
        lemma_promotion_comes_first(view, hash);
    } else {
        lemma_insertion_comes_first(view, store::raster_record(view.layout, image, name));
    }
}

proof fn lemma_gif_comes_first(view: StoreView, probe: ProbeView, name: Seq<char>)
    ensures
        comes_first(view, view.persist_gif(probe, name)),
{
    if let Ok(encoded) = probe.contents {
        let hash = digest::blake3_hex(encoded);
        if view.holds(hash) {
            lemma_promotion_comes_first(view, hash);
        }
        if let FinishView::Insert { record } = view.persist_gif(probe, name).1.finish {
            lemma_insertion_comes_first(view, record);
        }
    }
}

proof fn lemma_text_comes_first(view: StoreView, probe: ProbeView, mode: ImportMode)
    ensures
        comes_first(view, view.move_text(probe, mode)),
{
    if let Ok(encoded) = probe.contents {
        let hash = digest::blake3_hex(encoded);
        if view.holds(hash) {
            lemma_promotion_comes_first(view, hash);
        }
        if let FinishView::Insert { record } = view.move_text(probe, mode).1.finish {
            lemma_insertion_comes_first(view, record);
        }
    }
}

/// A file that is referred to comes first, and is not referred to twice.
pub proof fn law_reference_comes_first(view: StoreView, source: SourceView)
    ensures
        comes_first(view, view.add_reference(source)),
{
    let hash = digest::reference_hash_of(source.canonical.path.text);
    if view.holds(hash) {
        lemma_promotion_comes_first(view, hash);
    }
    if let FinishView::Insert { record } = view.add_reference(source).1.finish {
        lemma_insertion_comes_first(view.without_stale(hash), record);
    }
}

/// The hash of the item that an imported file becomes.
pub open spec fn imported_hash(source: SourceView, mode: ImportMode) -> Seq<char> {
    let given = source.given;
    if source.only_referred(mode) {
        digest::reference_hash_of(source.canonical.path.text)
    } else if given.path.is_supported_image_file() && !given.path.is_gif_file() {
        digest::blake3_hex(given.pixels->Ok_0.pixels)
    } else {
        digest::blake3_hex(given.contents->Ok_0)
    }
}

/// A file that is imported comes first, and is not stored twice.
pub proof fn law_import_comes_first(view: StoreView, source: SourceView, mode: ImportMode)
    ensures
        comes_first(view, view.import(source, mode)),
        ({
            let (after, outcome) = view.import(source, mode);
            outcome.finish is Fail || after.completed(outcome.finish).0.records[0].hash
                == imported_hash(source, mode)
        }),
{
    law_reference_comes_first(view, source);
    lemma_text_comes_first(view, source.given, mode);
    lemma_gif_comes_first(view, source.given, store::image_name(source.given.path));
    if let Ok(image) = source.given.pixels {
        law_image_comes_first(view, image, store::image_name(source.given.path));
    }
    if view.holds(imported_hash(source, mode)) {
        law_promoted(view, imported_hash(source, mode));
    }
}

/// Storing an image a second time changes nothing in the store.
pub proof fn law_storing_twice(
    view: StoreView,
    image: PixelsView,
    name: Seq<char>,
    other_name: Seq<char>,
)
    ensures
        ({
            let (first, outcome) = view.persist_rgba(image, name);
            let once = first.completed(outcome.finish).0;
            let (second, again) = once.persist_rgba(image, other_name);
            &&& once.records[0].hash == digest::blake3_hex(image.pixels)
            &&& second.completed(again.finish).0 == once
        }),
{
    let hash = digest::blake3_hex(image.pixels);
    let (first, outcome) = view.persist_rgba(image, name);
    let once = first.completed(outcome.finish).0;
    store::lemma_position(view.records, hash);
    assert(once.records[0].hash == hash);
    assert(store::position(once.records, hash) == 0);
    assert(store::to_front(once.records, 0) =~= once.records);
    assert(once.promoted(hash) =~= once);
}

/// Referring a second time to a file that is as it was changes nothing in the
/// store.
pub proof fn law_referring_twice(view: StoreView, source: SourceView)
    requires
        view.add_reference(source).1.finish !is Fail,
    ensures
        ({
            let (first, outcome) = view.add_reference(source);
            let once = first.completed(outcome.finish).0;
            let (second, again) = once.add_reference(source);
            &&& once.records[0].hash == digest::reference_hash_of(source.canonical.path.text)
            &&& second.completed(again.finish) == (once, Ok::<bool, ErrorView>(true))
        }),
{
    let hash = digest::reference_hash_of(source.canonical.path.text);
    let (first, outcome) = view.add_reference(source);
    let once = first.completed(outcome.finish).0;
    if view.holds(hash) {
        lemma_promotion_comes_first(view, hash);
    }
    assert(once.records[0].hash == hash);
    assert(store::position(once.records, hash) == 0);
    assert(store::to_front(once.records, 0) =~= once.records);
    assert(once.promoted(hash) =~= once);
    if let FinishView::Insert { record } = outcome.finish {
        lemma_insertion_comes_first(first, record);
        assert(once.records.remove(0) =~= first.records);
        assert(once.without_stale(hash) =~= first);
    }
}

// ---------------------------------------------------------------------------
// Files of the store, and others
// ---------------------------------------------------------------------------

/// Whether the files of an item lie where the store keeps them.
pub open spec fn placed(layout: LayoutView, record: RecordView) -> bool {
    &&& record.reference_path is None ==> record.original_path.starts_with(layout.originals_dir())
    &&& record.thumbnail_path matches Some(path) ==> path.starts_with(layout.thumbnails_dir())
    &&& record.reference_path matches Some(path) ==> path.starts_with(layout.file_refs_dir())
}

pub open spec fn all_placed(view: StoreView) -> bool {
    forall|i: int|
        0 <= i < view.records.len() ==> placed(view.layout, #[trigger] view.records[i])
}

/// Whether a step neither writes nor removes anything outside `root`.
pub open spec fn stays_within(step: ActionView, root: PathView) -> bool {
    &&& step.target().starts_with(root)
    &&& step matches ActionView::MoveFile { from, .. } ==> from.starts_with(root)
}

pub open spec fn all_within(steps: Seq<ActionView>, root: PathView) -> bool {
    forall|i: int| 0 <= i < steps.len() ==> stays_within(#[trigger] steps[i], root)
}

/// Whether a step stays within `root`, but that it may take `source` away.
pub open spec fn stays_within_but(step: ActionView, root: PathView, source: PathView) -> bool {
    ||| stays_within(step, root)
    ||| step == (ActionView::RemoveIfExists { path: source })
    ||| step matches ActionView::MoveFile { from, to } && from == source && to.starts_with(root)
}

pub open spec fn all_within_but(steps: Seq<ActionView>, root: PathView, source: PathView) -> bool {
    forall|i: int| 0 <= i < steps.len() ==> stays_within_but(#[trigger] steps[i], root, source)
}

/// The entries of a directory lie below what the directory lies below.
pub proof fn lemma_join_below(dir: PathView, name: Seq<char>, separator: char, base: PathView)
    requires
        dir.starts_with(base),
    ensures
        dir.join(name, separator).starts_with(base),
{
    let joined = dir.join(name, separator).components;
    assert(base.components =~= joined.subrange(0, base.components.len() as int)) by {
        assert(base.components =~= dir.components.subrange(0, base.components.len() as int));
    }
}

proof fn lemma_below_self(path: PathView)
    ensures
        path.starts_with(path),
{
    assert(path.components =~= path.components.subrange(0, path.components.len() as int));
}

proof fn lemma_below_below(path: PathView, dir: PathView, base: PathView)
    requires
        path.starts_with(dir),
        dir.starts_with(base),
    ensures
        path.starts_with(base),
{
    assert(base.components =~= path.components.subrange(0, base.components.len() as int)) by {
        assert(base.components =~= dir.components.subrange(0, base.components.len() as int));
        assert(dir.components =~= path.components.subrange(0, dir.components.len() as int));
    }
}

/// Every file that the layout names lies in its own directory below the root.
pub(crate) proof fn lemma_layout_below(layout: LayoutView, hash: Seq<char>, extension: Seq<char>)
    ensures
        layout.originals_dir().starts_with(layout.root),
        layout.thumbnails_dir().starts_with(layout.root),
        layout.file_refs_dir().starts_with(layout.root),
        layout.original_path(hash, extension).starts_with(layout.originals_dir()),
        layout.thumbnail_path(hash).starts_with(layout.thumbnails_dir()),
        layout.reference_path(hash).starts_with(layout.file_refs_dir()),
        layout.original_path(hash, extension).starts_with(layout.root),
        layout.thumbnail_path(hash).starts_with(layout.root),
        layout.reference_path(hash).starts_with(layout.root),
        layout.metadata_path(hash).starts_with(layout.root),
{
    lemma_below_self(layout.root);
    lemma_join_below(layout.root, "originals"@, layout.separator, layout.root);
    lemma_join_below(layout.root, "thumbnails"@, layout.separator, layout.root);
    lemma_join_below(layout.root, "metadata"@, layout.separator, layout.root);
    lemma_join_below(layout.root, "file-refs"@, layout.separator, layout.root);
    lemma_below_self(layout.originals_dir());
    lemma_below_self(layout.thumbnails_dir());
    lemma_below_self(layout.file_refs_dir());
    let original = layout::file_name_of(hash, extension);
    let png = layout::file_name_of(hash, "png"@);
    let txt = layout::file_name_of(hash, "txt"@);
    let path = layout::file_name_of(hash, "path"@);
    lemma_join_below(layout.originals_dir(), original, layout.separator, layout.originals_dir());
    lemma_join_below(layout.thumbnails_dir(), png, layout.separator, layout.thumbnails_dir());
    lemma_join_below(layout.file_refs_dir(), path, layout.separator, layout.file_refs_dir());
    lemma_join_below(layout.originals_dir(), original, layout.separator, layout.root);
    lemma_join_below(layout.thumbnails_dir(), png, layout.separator, layout.root);
    lemma_join_below(layout.file_refs_dir(), path, layout.separator, layout.root);
    lemma_join_below(layout.metadata_dir(), txt, layout.separator, layout.root);
}

proof fn lemma_placed_within(layout: LayoutView, record: RecordView)
    requires
        placed(layout, record),
    ensures
        record.reference_path is None ==> record.original_path.starts_with(layout.root),
        record.thumbnail_path matches Some(path) ==> path.starts_with(layout.root),
        record.reference_path matches Some(path) ==> path.starts_with(layout.root),
{
    lemma_layout_below(layout, record.hash, "png"@);
    if record.reference_path is None {
        lemma_below_below(record.original_path, layout.originals_dir(), layout.root);
    }
    if let Some(path) = record.thumbnail_path {
        lemma_below_below(path, layout.thumbnails_dir(), layout.root);
    }
    if let Some(path) = record.reference_path {
        lemma_below_below(path, layout.file_refs_dir(), layout.root);
    }
}

/// The files that go with an item all belong to the store; a file outside that
/// the item only refers to stays.
pub proof fn law_removal_stays_within(layout: LayoutView, record: RecordView)
    requires
        placed(layout, record),
    ensures
        all_within(store::removal_steps(layout, record), layout.root),
        !record.original_path.starts_with(layout.root) ==> forall|i: int|
            0 <= i < store::removal_steps(layout, record).len() ==> !(
            #[trigger] store::removal_steps(layout, record)[i]).takes_away(record.original_path),
{
    lemma_layout_below(layout, record.hash, "png"@);
    lemma_placed_within(layout, record);
    let steps = store::removal_steps(layout, record);
    assert forall|i: int| 0 <= i < steps.len() implies stays_within(
        #[trigger] steps[i],
        layout.root,
    ) by {}
    if !record.original_path.starts_with(layout.root) {
        assert forall|i: int| 0 <= i < steps.len() implies !(#[trigger] steps[i]).takes_away(
            record.original_path,
        ) by {
            assert(stays_within(steps[i], layout.root));
        }
    }
}

/// Clearing the store removes only files of the store.
pub proof fn law_clearing_stays_within(view: StoreView)
    requires
        all_placed(view),
    ensures
        all_within(store::clearing_steps(view.layout, view.records), view.layout.root),
    decreases view.records.len(),
{
    if view.records.len() > 0 {
        let rest = view.with_records(view.records.drop_last());
        assert forall|i: int| 0 <= i < rest.records.len() implies placed(
            rest.layout,
            #[trigger] rest.records[i],
        ) by {
            assert(rest.records[i] == view.records[i]);
        }
        law_clearing_stays_within(rest);
        assert(placed(view.layout, view.records[view.records.len() - 1]));
        law_removal_stays_within(view.layout, view.records.last());
    }
}

/// What is asked of an operation: it stays within the store, but that it may take
/// `source` away, and it keeps the files of all items where they belong.
spec fn tidy(step: (StoreView, OutcomeView), source: PathView, root: PathView) -> bool {
    &&& all_placed(step.0)
    &&& all_placed(step.0.completed(step.1.finish).0)
    &&& all_within(step.1.refresh, root)
    &&& all_within_but(step.1.required, root, source)
    &&& all_within_but(step.1.cleanup, root, source)
}

proof fn lemma_promoted_placed(view: StoreView, hash: Seq<char>)
    requires
        all_placed(view),
        view.holds(hash),
    ensures
        all_placed(view.promoted(hash)),
        all_within(view.promotion_steps(hash), view.layout.root),
{
    store::lemma_position(view.records, hash);
    let index = store::position(view.records, hash);
    let after = view.promoted(hash);
    assert forall|i: int| 0 <= i < after.records.len() implies placed(
        after.layout,
        #[trigger] after.records[i],
    ) by {
        if i == 0 {
            assert(after.records[i] == view.records[index]);
        } else if i <= index {
            assert(after.records[i] == view.records[i - 1]);
        } else {
            assert(after.records[i] == view.records[i]);
        }
    }
    assert(placed(view.layout, view.records[index]));
    lemma_placed_within(view.layout, view.records[index]);
    lemma_layout_below(view.layout, hash, "png"@);
}

proof fn lemma_front_placed(view: StoreView, record: RecordView)
    requires
        all_placed(view),
        placed(view.layout, record),
    ensures
        all_placed(view.with_records(seq![record] + view.records)),
{
    let after = view.with_records(seq![record] + view.records);
    assert forall|i: int| 0 <= i < after.records.len() implies placed(
        after.layout,
        #[trigger] after.records[i],
    ) by {
        if i > 0 {
            assert(after.records[i] == view.records[i - 1]);
        }
    }
}

proof fn lemma_persist_rgba_tidy(
    view: StoreView,
    image: PixelsView,
    name: Seq<char>,
    source: PathView,
)
    requires
        all_placed(view),
    ensures
        tidy(view.persist_rgba(image, name), source, view.layout.root),
        view.persist_rgba(image, name).1.cleanup.len() == 0,
        all_within(view.persist_rgba(image, name).1.required, view.layout.root),
{
    let hash = digest::blake3_hex(image.pixels);
    lemma_layout_below(view.layout, hash, "png"@);
    if view.holds(hash) {
        lemma_promoted_placed(view, hash);
    } else {
        lemma_front_placed(view, store::raster_record(view.layout, image, name));
    }
}

proof fn lemma_persist_gif_tidy(
    view: StoreView,
    probe: ProbeView,
    name: Seq<char>,
    source: PathView,
)
    requires
        all_placed(view),
    ensures
        tidy(view.persist_gif(probe, name), source, view.layout.root),
{
    if let Ok(encoded) = probe.contents {
        let hash = digest::blake3_hex(encoded);
        lemma_layout_below(view.layout, hash, "gif"@);
        if view.holds(hash) {
            lemma_promoted_placed(view, hash);
        } else if let Ok(image) = probe.pixels {
            lemma_front_placed(view, store::gif_record(view.layout, encoded, image, name));
        }
    }
}

proof fn lemma_move_text_tidy(view: StoreView, probe: ProbeView, mode: ImportMode)
    requires
        all_placed(view),
    ensures
        tidy(view.move_text(probe, mode), probe.path, view.layout.root),
{
    if let Ok(encoded) = probe.contents {
        if paths::text_bytes(encoded) {
            let hash = digest::blake3_hex(encoded);
            let extension = probe.path.normalized_text_extension();
            lemma_layout_below(view.layout, hash, extension);
            if view.holds(hash) {
                lemma_promoted_placed(view, hash);
            } else {
                lemma_front_placed(
                    view,
                    store::text_record(
                        hash,
                        store::text_name(probe.path),
                        view.layout.original_path(hash, extension),
                        encoded,
                        extension,
                    ),
                );
            }
        }
    }
}

proof fn lemma_add_reference_tidy(view: StoreView, source: SourceView)
    requires
        all_placed(view),
    ensures
        tidy(view.add_reference(source), source.given.path, view.layout.root),
        view.add_reference(source).1.cleanup.len() == 0,
        all_within(view.add_reference(source).1.required, view.layout.root),
{
    let hash = digest::reference_hash_of(source.canonical.path.text);
    let index = store::position(view.records, hash);
    let root = view.layout.root;
    store::lemma_position(view.records, hash);
    lemma_layout_below(view.layout, hash, "png"@);
    if source.is_file {
        if view.holds(hash) {
            lemma_promoted_placed(view, hash);
            assert(placed(view.layout, view.records[index]));
            lemma_placed_within(view.layout, view.records[index]);
        }
        if !(view.holds(hash) && view.records[index].reference_path is None) {
            let kept = view.without_stale(hash);
            assert forall|i: int| 0 <= i < kept.records.len() implies placed(
                kept.layout,
                #[trigger] kept.records[i],
            ) by {
                if view.holds(hash) && i >= index {
                    assert(kept.records[i] == view.records[i + 1]);
                } else {
                    assert(kept.records[i] == view.records[i]);
                }
            }
            assert(all_within(view.stale_steps(hash), root));
            if let Ok(built) = store::reference_record(view.layout, hash, source.canonical) {
                let record = built.0.with_reference(view.layout.reference_path(hash));
                assert(placed(view.layout, record));
                lemma_front_placed(kept, record);
                assert(all_within(built.1, root));
                let required = view.add_reference(source).1.required;
                assert forall|i: int| 0 <= i < required.len() implies stays_within(
                    #[trigger] required[i],
                    root,
                ) by {
                    let stale = view.stale_steps(hash);
                    if i < stale.len() {
                        assert(required[i] == stale[i]);
                    } else if i < stale.len() + built.1.len() {
                        assert(required[i] == built.1[i - stale.len()]);
                    }
                }
            }
        }
    }
}

/// Referring to a file changes nothing outside the store.
pub proof fn law_reference_stays_within(view: StoreView, source: SourceView)
    requires
        all_placed(view),
    ensures
        all_within(view.add_reference(source).1.refresh, view.layout.root),
        all_within(view.add_reference(source).1.required, view.layout.root),
        view.add_reference(source).1.cleanup.len() == 0,
{
    lemma_add_reference_tidy(view, source);
}

pub(crate) proof fn lemma_referring_moves_nothing(view: StoreView, source: SourceView)
    ensures
        forall|i: int|
            0 <= i < view.add_reference(source).1.steps().len() ==> (
            #[trigger] view.add_reference(source).1.steps()[i]) !is MoveFile,
{
    let hash = digest::reference_hash_of(source.canonical.path.text);
    let steps = view.add_reference(source).1.steps();
    let stale = view.stale_steps(hash);
    assert forall|i: int| 0 <= i < steps.len() implies (#[trigger] steps[i]) !is MoveFile by {
        if let Ok(built) = store::reference_record(view.layout, hash, source.canonical) {
            if i >= stale.len() && i < stale.len() + built.1.len() {
                assert(built.1[i - stale.len()] !is MoveFile);
            }
        }
        if i < stale.len() {
            assert(stale[i] !is MoveFile);
        }
    }
}

/// An import that only refers to its file changes nothing outside the store.
pub proof fn law_referring_import_stays_within(
    view: StoreView,
    source: SourceView,
    mode: ImportMode,
)
    requires
        all_placed(view),
        source.only_referred(mode),
    ensures
        all_within(view.import(source, mode).1.steps(), view.layout.root),
{
    lemma_add_reference_tidy(view, source);
}

/// Importing a file, in whichever mode, changes nothing outside the store but
/// that the file itself may go; and afterwards, and also once the operation has
/// ended, the files of all items lie where they belong.
pub proof fn law_import_tidy(view: StoreView, source: SourceView, mode: ImportMode)
    requires
        all_placed(view),
    ensures
        ({
            let (after, outcome) = view.import(source, mode);
            &&& all_placed(after)
            &&& all_placed(after.completed(outcome.finish).0)
            &&& all_within(outcome.refresh, view.layout.root)
            &&& all_within_but(outcome.required, view.layout.root, source.given.path)
            &&& all_within_but(outcome.cleanup, view.layout.root, source.given.path)
        }),
{
    let name = store::image_name(source.given.path);
    lemma_add_reference_tidy(view, source);
    lemma_move_text_tidy(view, source.given, mode);
    lemma_persist_gif_tidy(view, source.given, name, source.given.path);
    if let Ok(image) = source.given.pixels {
        lemma_persist_rgba_tidy(view, image, name, source.given.path);
    }
}

/// Storing an image from the clipboard changes nothing outside the store.
pub proof fn law_clipboard_image_tidy(view: StoreView, width: u32, height: u32, bytes: Seq<u8>)
    requires
        all_placed(view),
    ensures
        ({
            let (after, outcome) = view.add_clipboard_image(width, height, bytes);
            &&& all_placed(after)
            &&& all_placed(after.completed(outcome.finish).0)
            &&& all_within(outcome.refresh, view.layout.root)
            &&& all_within(outcome.required, view.layout.root)
            &&& outcome.cleanup.len() == 0
        }),
{
    lemma_persist_rgba_tidy(
        view,
        PixelsView { width, height, pixels: bytes },
        "Clipboard"@,
        view.layout.root,
    );
}

/// A file of the store is not removed when it is imported, unless it is the
/// thumbnail of an item and is only referred to.
pub proof fn law_own_files_stay(view: StoreView, source: SourceView, mode: ImportMode)
    requires
        source.given.path.starts_with(view.layout.root),
        (mode == ImportMode::Move && source.given.path.is_supported_image_file()) || forall|i: int|
            0 <= i < view.records.len() ==> !records::same_location(
                (#[trigger] view.records[i]).thumbnail_path,
                Some(source.given.path),
            ),
    ensures
        ({
            let (after, outcome) = view.import(source, mode);
            &&& outcome.cleanup.len() == 0
            &&& forall|i: int|
                0 <= i < outcome.required.len() ==> !(
                #[trigger] outcome.required[i]).takes_away(source.given.path)
        }),
{
    let hash = digest::reference_hash_of(source.canonical.path.text);
    store::lemma_position(view.records, hash);
    let (after, outcome) = view.add_reference(source);
    if !(mode == ImportMode::Move && source.given.path.is_supported_image_file()) {
        let stale = view.stale_steps(hash);
        assert(outcome.cleanup.len() == 0);
        assert forall|i: int| 0 <= i < outcome.required.len() implies !(
        #[trigger] outcome.required[i]).takes_away(source.given.path) by {
            if i < stale.len() {
                assert(outcome.required[i] == stale[i]);
            } else if let Ok(built) = store::reference_record(
                view.layout,
                hash,
                source.canonical,
            ) {
                if i < stale.len() + built.1.len() {
                    assert(outcome.required[i] == built.1[i - stale.len()]);
                }
            }
        }
    }
}

/// The files of the items that are found when the store is opened lie where they
/// belong.
pub proof fn law_found_placed(
    layout: LayoutView,
    original: OriginalEntryView,
    reference: ReferenceEntryView,
)
    requires
        original.probe.path.starts_with(layout.originals_dir()),
        reference.path.starts_with(layout.file_refs_dir()),
    ensures
        loading::loaded_original(layout, original) matches Ok(Some((loaded, steps))) ==> placed(
            layout,
            loaded.record,
        ) && all_within(steps, layout.root),
        loading::loaded_reference(layout, reference) matches Ok(Some((loaded, steps))) ==> placed(
            layout,
            loaded.record,
        ) && all_within(steps, layout.root),
{
    if let Some(hash) = paths::text_of(original.probe.path.file_stem()) {
        lemma_layout_below(layout, hash, "png"@);
    }
    if let Some(hash) = paths::text_of(reference.path.file_stem()) {
        lemma_layout_below(layout, hash, "png"@);
    }
}

// ---------------------------------------------------------------------------
// Order
// ---------------------------------------------------------------------------

proof fn lemma_text_less_splits(a: Seq<char>, b: Seq<char>, c: Seq<char>)
    ensures
        text_order_facts(a, b, c),
    decreases a.len(),
{
    if a.len() > 0 && b.len() > 0 && c.len() > 0 {
        lemma_text_less_splits(a.drop_first(), b.drop_first(), c.drop_first());
    }
    if a.len() > 0 && b.len() > 0 {
        lemma_text_less_asymmetric(a, b);
    }
    lemma_text_less_asymmetric(a, b);
    lemma_text_less_asymmetric(b, c);
    lemma_text_less_asymmetric(a, c);
}

spec fn text_order_facts(a: Seq<char>, b: Seq<char>, c: Seq<char>) -> bool {
    &&& loading::text_less(a, c) ==> loading::text_less(a, b) || loading::text_less(b, c)
    &&& !(loading::text_less(a, b) && loading::text_less(b, a))
}

proof fn lemma_text_less_asymmetric(a: Seq<char>, b: Seq<char>)
    ensures
        !(loading::text_less(a, b) && loading::text_less(b, a)),
    decreases a.len(),
{
    if a.len() > 0 && b.len() > 0 {
        lemma_text_less_asymmetric(a.drop_first(), b.drop_first());
    }
}

proof fn lemma_goes_before(a: LoadedView, b: LoadedView, c: LoadedView)
    ensures
        !(loading::goes_before(a, b) && loading::goes_before(b, a)),
        loading::goes_before(a, c) ==> loading::goes_before(a, b) || loading::goes_before(b, c),
{
    lemma_text_less_splits(c.record.hash, b.record.hash, a.record.hash);
    lemma_text_less_asymmetric(a.record.hash, b.record.hash);
}

/// Whether no item goes before one that stands ahead of it.
pub open spec fn in_order(items: Seq<LoadedView>) -> bool {
    forall|i: int, j: int|
        0 <= i < j < items.len() ==> !loading::goes_before(#[trigger] items[j], #[trigger] items[i])
}

proof fn lemma_insert_in_order(ordered: Seq<LoadedView>, item: LoadedView)
    requires
        in_order(ordered),
    ensures
        in_order(loading::insert_ordered(ordered, item)),
        loading::insert_ordered(ordered, item).to_multiset() == ordered.to_multiset().insert(item),
        forall|i: int|
            0 <= i < loading::insert_ordered(ordered, item).len() ==> ordered.contains(
                #[trigger] loading::insert_ordered(ordered, item)[i],
            ) || loading::insert_ordered(ordered, item)[i] == item,
    decreases ordered.len(),
{
    broadcast use vstd::seq_lib::group_to_multiset_ensures;

    let after = loading::insert_ordered(ordered, item);
    if ordered.len() > 0 && loading::goes_before(item, ordered.last()) {
        let rest = ordered.drop_last();
        let last = ordered.last();
        assert(in_order(rest));
        lemma_insert_in_order(rest, item);
        let inner = loading::insert_ordered(rest, item);
        assert forall|i: int| 0 <= i < inner.len() implies !loading::goes_before(
            last,
            #[trigger] inner[i],
        ) by {
            if inner[i] == item {
                lemma_goes_before(item, last, item);
            } else {
                let k = choose|k: int| 0 <= k < rest.len() && rest[k] == inner[i];
                assert(ordered[k] == inner[i]);
                assert(!loading::goes_before(ordered[ordered.len() - 1], ordered[k]));
            }
        }
        assert(after == inner.push(last));
        assert forall|i: int| 0 <= i < after.len() implies ordered.contains(#[trigger] after[i])
            || after[i] == item by {
            if i < inner.len() {
                assert(after[i] == inner[i]);
                if rest.contains(inner[i]) {
                    let k = choose|k: int| 0 <= k < rest.len() && rest[k] == inner[i];
                    assert(ordered[k] == inner[i]);
                }
            } else {
                assert(ordered[ordered.len() - 1] == after[i]);
            }
        }
        assert(ordered == rest.push(last));
        assert(after.to_multiset() =~= ordered.to_multiset().insert(item));
    } else {
        assert(after == ordered.push(item));
        assert forall|i: int, j: int| 0 <= i < j < after.len() implies !loading::goes_before(
            #[trigger] after[j],
            #[trigger] after[i],
        ) by {
            if j == ordered.len() {
                lemma_goes_before(item, ordered.last(), ordered[i]);
                if i < ordered.len() - 1 {
                    assert(!loading::goes_before(ordered[ordered.len() - 1], ordered[i]));
                }
            }
        }
        assert forall|i: int| 0 <= i < after.len() implies ordered.contains(#[trigger] after[i])
            || after[i] == item by {
            if i < ordered.len() {
                assert(ordered[i] == after[i]);
            }
        }
    }
}

/// Opening the store puts the most recent records first, and of those that are as
/// recent the ones with the greater hash; no record is added or lost.
pub proof fn law_newest_first(items: Seq<LoadedView>)
    ensures
        in_order(loading::newest_first(items)),
        loading::newest_first(items).to_multiset() == items.to_multiset(),
    decreases items.len(),
{
    broadcast use vstd::seq_lib::group_to_multiset_ensures;

    if items.len() > 0 {
        law_newest_first(items.drop_last());
        lemma_insert_in_order(loading::newest_first(items.drop_last()), items.last());
        assert(items == items.drop_last().push(items.last()));
    } else {
        assert(loading::newest_first(items) =~= items);
    }
}

/// Records that are as recent as each other and have the same hash stay in the
/// order in which they were found.
pub proof fn law_newest_first_stable(items: Seq<LoadedView>, modified: i128, hash: Seq<char>)
    ensures
        loading::newest_first(items).filter(
            |item: LoadedView| item.modified == modified && item.record.hash == hash,
        ) == items.filter(
            |item: LoadedView| item.modified == modified && item.record.hash == hash,
        ),
    decreases items.len(),
{
    let alike = |item: LoadedView| item.modified == modified && item.record.hash == hash;
    reveal(Seq::filter);
    if items.len() > 0 {
        let rest = items.drop_last();
        law_newest_first_stable(rest, modified, hash);
        lemma_insert_stable(loading::newest_first(rest), items.last(), alike, modified, hash);
    }
}

proof fn lemma_insert_stable(
    ordered: Seq<LoadedView>,
    item: LoadedView,
    alike: spec_fn(LoadedView) -> bool,
    modified: i128,
    hash: Seq<char>,
)
    requires
        forall|other: LoadedView| #[trigger]
            alike(other) == (other.modified == modified && other.record.hash == hash),
    ensures
        loading::insert_ordered(ordered, item).filter(alike) == if alike(item) {
            ordered.filter(alike).push(item)
        } else {
            ordered.filter(alike)
        },
    decreases ordered.len(),
{
    reveal(Seq::filter);
    if ordered.len() > 0 && loading::goes_before(item, ordered.last()) {
        let rest = ordered.drop_last();
        lemma_insert_stable(rest, item, alike, modified, hash);
        let inner = loading::insert_ordered(rest, item);
        assert(inner.push(ordered.last()).drop_last() == inner);
        lemma_text_less_asymmetric(item.record.hash, item.record.hash);
        assert(!(alike(item) && alike(ordered.last())));
    } else {
        assert(ordered.push(item).drop_last() == ordered);
    }
}

/// Records whose recency falls from each to the next are put back into that order
/// when the store is opened, in whichever order they are found.
pub proof fn law_order_found_again(items: Seq<LoadedView>, found: Seq<LoadedView>)
    requires
        forall|i: int, j: int|
            0 <= i < j < items.len() ==> loading::goes_before(
                #[trigger] items[i],
                #[trigger] items[j],
            ),
        found.to_multiset() == items.to_multiset(),
    ensures
        loading::newest_first(found) == items,
{
    law_newest_first(found);
    lemma_same_order(items, loading::newest_first(found));
}

proof fn lemma_same_order(items: Seq<LoadedView>, other: Seq<LoadedView>)
    requires
        forall|i: int, j: int|
            0 <= i < j < items.len() ==> loading::goes_before(
                #[trigger] items[i],
                #[trigger] items[j],
            ),
        in_order(other),
        other.to_multiset() == items.to_multiset(),
    ensures
        other == items,
    decreases items.len(),
{
    broadcast use vstd::seq_lib::group_to_multiset_ensures;

    assert(items.to_multiset().len() == items.len());
    assert(other.to_multiset().len() == other.len());
    if items.len() > 0 {
        let first = items[0];
        assert(items.contains(first));
        assert(other.to_multiset().count(first) > 0);
        assert(other.contains(first));
        let k = choose|k: int| 0 <= k < other.len() && other[k] == first;
        assert(items.to_multiset().count(other[0]) > 0) by {
            assert(other.contains(other[0]));
        }
        assert(items.contains(other[0]));
        let m = choose|m: int| 0 <= m < items.len() && items[m] == other[0];
        if m > 0 {
            assert(loading::goes_before(items[0], items[m]));
            if k > 0 {
                assert(!loading::goes_before(other[k], other[0]));
            }
        }
        assert(other[0] == first);
        let rest = items.remove(0);
        let others = other.remove(0);
        assert(rest.to_multiset() =~= items.to_multiset().remove(first));
        assert(others.to_multiset() =~= other.to_multiset().remove(first));
        assert forall|i: int, j: int| 0 <= i < j < rest.len() implies loading::goes_before(
            #[trigger] rest[i],
            #[trigger] rest[j],
        ) by {
            assert(rest[i] == items[i + 1]);
            assert(rest[j] == items[j + 1]);
        }
        assert forall|i: int, j: int| 0 <= i < j < others.len() implies !loading::goes_before(
            #[trigger] others[j],
            #[trigger] others[i],
        ) by {
            assert(others[i] == other[i + 1]);
            assert(others[j] == other[j + 1]);
        }
        lemma_same_order(rest, others);
        assert(items =~= rest.insert(0, first));
        assert(other =~= others.insert(0, first));
    } else {
        assert(other =~= items);
    }
}

} // verus!
