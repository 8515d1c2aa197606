//! Opening the store: the records of the files that it finds on disk, and their
//! order.

use vstd::prelude::*;
use vstd::string::*;

use crate::actions::{ActionView, DiskAction};
use crate::layout::{LayoutView, StoreLayout};
use crate::paths::{FilePath, PathView};
use crate::pixels::PixelsView;
use crate::records::{
    ErrorKind, ErrorView, FileProbe, ProbeView, RecordView, StoreError, StoredImage,
    StoredImageKind,
};
use crate::store::ImageStore;
use crate::text::to_chars;
use crate::{actions, paths, records, store, summary, text};

verus! {

broadcast use vstd::string::group_string_axioms;

// ---------------------------------------------------------------------------
// What was found on disk
// ---------------------------------------------------------------------------

/// A file among the originals, with what belongs to it. Times are nanoseconds
/// since the Unix epoch.
#[derive(Debug)]
pub struct OriginalEntry {
    pub probe: FileProbe,
    /// What the metadata file of its hash holds, if it could be read.
    pub metadata: Option<String>,
    /// When the metadata file last changed.
    pub metadata_modified: Option<i128>,
    /// When the file itself last changed.
    pub modified: Option<i128>,
    /// Whether there is a thumbnail of its hash.
    pub thumbnail_exists: bool,
}

#[verifier::ext_equal]
pub struct OriginalEntryView {
    pub probe: ProbeView,
    pub metadata: Option<Seq<char>>,
    pub metadata_modified: Option<i128>,
    pub modified: Option<i128>,
    pub thumbnail_exists: bool,
}

impl View for OriginalEntry {
    type V = OriginalEntryView;

    open spec fn view(&self) -> OriginalEntryView {
        OriginalEntryView {
            probe: self.probe@,
            metadata: text::text_option(self.metadata),
            metadata_modified: self.metadata_modified,
            modified: self.modified,
            thumbnail_exists: self.thumbnail_exists,
        }
    }
}

/// A file among the references, with what belongs to it.
#[derive(Debug)]
pub struct ReferenceEntry {
    pub path: FilePath,
    /// Why the file could not be read, if it could not.
    pub failure: Option<String>,
    /// What the disk said about the path that the file holds.
    pub referred: FileProbe,
    /// Whether that path is of a regular file.
    pub is_file: bool,
    /// What the metadata file of its hash holds, if it could be read.
    pub metadata: Option<String>,
    /// When the reference last changed.
    pub modified: Option<i128>,
}

#[verifier::ext_equal]
pub struct ReferenceEntryView {
    pub path: PathView,
    pub failure: Option<Seq<char>>,
    pub referred: ProbeView,
    pub is_file: bool,
    pub metadata: Option<Seq<char>>,
    pub modified: Option<i128>,
}

impl View for ReferenceEntry {
    type V = ReferenceEntryView;

    open spec fn view(&self) -> ReferenceEntryView {
        ReferenceEntryView {
            path: self.path@,
            failure: text::text_option(self.failure),
            referred: self.referred@,
            is_file: self.is_file,
            metadata: text::text_option(self.metadata),
            modified: self.modified,
        }
    }
}

/// A record that was found, and how recent it is.
#[derive(Debug)]
pub struct Loaded {
    pub modified: i128,
    pub record: StoredImage,
}

#[verifier::ext_equal]
pub struct LoadedView {
    pub modified: i128,
    pub record: RecordView,
}

impl View for Loaded {
    type V = LoadedView;

    open spec fn view(&self) -> LoadedView {
        LoadedView { modified: self.modified, record: self.record@ }
    }
}

pub open spec fn loaded_views(loaded: Seq<Loaded>) -> Seq<LoadedView> {
    loaded.map_values(|item: Loaded| item@)
}

/// A record that was found and the steps that it needs. The record counts only
/// if they succeed.
#[derive(Debug)]
pub struct LoadPlan {
    pub loaded: Loaded,
    pub steps: Vec<DiskAction>,
}

pub open spec fn plan_result(result: Result<Option<LoadPlan>, StoreError>) -> Result<
    Option<(LoadedView, Seq<ActionView>)>,
    ErrorView,
> {
    match result {
        Ok(Some(plan)) => Ok(Some((plan.loaded@, actions::action_views(plan.steps@)))),
        Ok(None) => Ok(None),
        Err(error) => Err(error@),
    }
}

// ---------------------------------------------------------------------------
// Records
// ---------------------------------------------------------------------------

/// How recent a record is: by the first of the two times that is known, or else
/// as old as the epoch.
pub open spec fn recency(primary: Option<i128>, fallback: Option<i128>) -> i128 {
    match (primary, fallback) {
        (Some(modified), _) => modified,
        (None, Some(modified)) => modified,
        (None, None) => 0,
    }
}

/// The record of a stored image.
pub open spec fn stored_image_record(
    layout: LayoutView,
    hash: Seq<char>,
    entry: OriginalEntryView,
    width: u32,
    height: u32,
) -> RecordView {
    let path = entry.probe.path;
    RecordView {
        hash,
        display_name: summary::stored_name(entry.metadata, hash),
        width,
        height,
        kind: if path.is_gif_file() {
            StoredImageKind::Gif
        } else {
            StoredImageKind::Raster
        },
        original_path: path,
        thumbnail_path: Some(layout.thumbnail_path(hash)),
        reference_path: None,
        text_preview: Seq::empty(),
        line_count: 0,
        byte_len: match entry.probe.byte_len {
            Ok(byte_len) => byte_len,
            Err(_) => 0,
        },
        file_extension: store::text_or(path.lower_extension(), "png"@),
    }
}

/// The record of a stored text.
pub open spec fn loaded_text(hash: Seq<char>, entry: OriginalEntryView) -> Result<
    Option<(LoadedView, Seq<ActionView>)>,
    ErrorView,
> {
    let path = entry.probe.path;
    match entry.probe.contents {
        Err(cause) => Err(records::io_error(ErrorKind::ReadFailed, path, cause)),
        Ok(encoded) => if !paths::text_bytes(encoded) {
            Err(records::path_error(ErrorKind::NotTextItem, path))
        } else {
            Ok(
                Some(
                    (
                        LoadedView {
                            modified: recency(entry.metadata_modified, entry.modified),
                            record: store::text_record(
                                hash,
                                summary::stored_name(entry.metadata, hash),
                                path,
                                encoded,
                                path.normalized_text_extension(),
                            ),
                        },
                        Seq::empty(),
                    ),
                ),
            )
        },
    }
}

/// The record of a file among the originals. Its name without the extension is
/// its hash; what is neither PNG nor GIF is text. A missing thumbnail is made.
pub open spec fn loaded_original(layout: LayoutView, entry: OriginalEntryView) -> Result<
    Option<(LoadedView, Seq<ActionView>)>,
    ErrorView,
> {
    let path = entry.probe.path;
    match paths::text_of(path.file_stem()) {
        None => Ok(None),
        Some(hash) => if !path.is_png_file() && !path.is_gif_file() {
            loaded_text(hash, entry)
        } else {
            match entry.probe.pixels {
                Err(cause) => Err(records::io_error(ErrorKind::DecodeFailed, path, cause)),
                Ok(image) => Ok(
                    Some(
                        (
                            LoadedView {
                                modified: recency(entry.metadata_modified, entry.modified),
                                record: stored_image_record(
                                    layout,
                                    hash,
                                    entry,
                                    image.width,
                                    image.height,
                                ),
                            },
                            if entry.thumbnail_exists {
                                Seq::empty()
                            } else {
                                seq![store::thumbnail_step(layout, hash, image)]
                            },
                        ),
                    ),
                ),
            }
        },
    }
}

/// The record of a file among the references. Its name without the extension is
/// its hash. A reference to a file that is gone counts for nothing.
pub open spec fn loaded_reference(layout: LayoutView, entry: ReferenceEntryView) -> Result<
    Option<(LoadedView, Seq<ActionView>)>,
    ErrorView,
> {
    match paths::text_of(entry.path.file_stem()) {
        None => Ok(None),
        Some(hash) => match entry.failure {
            Some(cause) => Err(records::io_error(ErrorKind::ReadFailed, entry.path, cause)),
            None => if !entry.is_file {
                Ok(None)
            } else {
                match store::reference_record(layout, hash, entry.referred) {
                    Err(error) => Err(error),
                    Ok((record, steps)) => Ok(
                        Some(
                            (
                                LoadedView {
                                    modified: recency(None, entry.modified),
                                    record: record.with_name(
                                        summary::stored_name(entry.metadata, hash),
                                    ).with_reference(entry.path),
                                },
                                steps,
                            ),
                        ),
                    ),
                }
            },
        },
    }
}

/// How recent a record is, by the first of the two times that is known.
pub fn record_recency(primary: Option<i128>, fallback: Option<i128>) -> (modified: i128)
    ensures
        modified == recency(primary, fallback),
{
    match primary {
        Some(modified) => modified,
        None => match fallback {
            Some(modified) => modified,
            None => 0,
        },
    }
}

/// The record of a file among the originals.
pub fn load_record(layout: &StoreLayout, entry: &OriginalEntry) -> (plan: Result<
    Option<LoadPlan>,
    StoreError,
>)
    requires
        !entry@.thumbnail_exists ==> entry@.probe.storable(),
    ensures
        plan_result(plan) == loaded_original(layout@, entry@),
{
    let path = &entry.probe.path;
    let hash = match path.file_stem() {
        Some(hash) => hash,
        None => {
            return Ok(None);
        },
    };
    if paths::is_text_file(path) {
        return load_text_record(hash.as_str(), entry);
    }
    let image = match &entry.probe.pixels {
        Ok(image) => image,
        Err(cause) => {
            return Err(StoreError::of_io(ErrorKind::DecodeFailed, path, cause.as_str()));
        },
    };
    let thumbnail_path = layout.thumbnail_path(hash.as_str());
    let display_name = summary::load_display_name(&entry.metadata, hash.as_str());
    let kind = if paths::is_gif_file(path) {
        StoredImageKind::Gif
    } else {
        StoredImageKind::Raster
    };
    let mut steps: Vec<DiskAction> = Vec::new();
    if !entry.thumbnail_exists {
        steps.push(DiskAction::SavePng { path: thumbnail_path.clone(), image: image.thumbnail() });
    }
    assert(actions::action_views(steps@) =~= if entry@.thumbnail_exists {
        Seq::empty()
    } else {
        seq![store::thumbnail_step(layout@, hash@, image@)]
    });
    let byte_len: u64 = match &entry.probe.byte_len {
        Ok(byte_len) => *byte_len,
        Err(_) => 0,
    };
    let record = StoredImage {
        hash,
        display_name,
        width: image.width,
        height: image.height,
        kind,
        original_path: path.clone(),
        thumbnail_path: Some(thumbnail_path),
        reference_path: None,
        text_preview: String::new(),
        line_count: 0,
        byte_len,
        file_extension: paths::image_file_extension(path),
    };
    assert(record@ =~= stored_image_record(layout@, hash@, entry@, image@.width, image@.height));
    let modified: i128 = record_recency(entry.metadata_modified, entry.modified);
    Ok(Some(LoadPlan { loaded: Loaded { modified, record }, steps }))
}

/// The record of a stored text.
fn load_text_record(hash: &str, entry: &OriginalEntry) -> (plan: Result<
    Option<LoadPlan>,
    StoreError,
>)
    ensures
        plan_result(plan) == loaded_text(hash@, entry@),
{
    let path = &entry.probe.path;
    let encoded = match &entry.probe.contents {
        Ok(encoded) => encoded,
        Err(cause) => {
            return Err(StoreError::of_io(ErrorKind::ReadFailed, path, cause.as_str()));
        },
    };
    let contents = match store::text_contents(encoded) {
        Some(contents) => contents,
        None => {
            return Err(StoreError::of_path(ErrorKind::NotTextItem, path));
        },
    };
    let record = store::build_text_record(
        hash.to_owned(),
        summary::load_display_name(&entry.metadata, hash),
        path.clone(),
        encoded,
        contents.as_str(),
        paths::normalized_text_extension(path),
    );
    let steps: Vec<DiskAction> = Vec::new();
    assert(actions::action_views(steps@) =~= Seq::<ActionView>::empty());
    let modified: i128 = record_recency(entry.metadata_modified, entry.modified);
    Ok(Some(LoadPlan { loaded: Loaded { modified, record }, steps }))
}

/// The record of a file among the references.
pub fn load_reference_record(layout: &StoreLayout, entry: &ReferenceEntry) -> (plan: Result<
    Option<LoadPlan>,
    StoreError,
>)
    requires
        entry@.referred.storable(),
    ensures
        plan_result(plan) == loaded_reference(layout@, entry@),
{
    let hash = match entry.path.file_stem() {
        Some(hash) => hash,
        None => {
            return Ok(None);
        },
    };
    match &entry.failure {
        Some(cause) => {
            return Err(StoreError::of_io(ErrorKind::ReadFailed, &entry.path, cause.as_str()));
        },
        None => {},
    }
    if !entry.is_file {
        return Ok(None);
    }
    let (mut record, steps) = match store::build_reference_record_from_disk(
        &entry.referred,
        layout,
        hash.as_str(),
    ) {
        Ok(built) => built,
        Err(error) => {
            return Err(error);
        },
    };
    let ghost built = record@;
    record.display_name = summary::load_display_name(&entry.metadata, hash.as_str());
    record.reference_path = Some(entry.path.clone());
    assert(record@ =~= built.with_name(
        summary::stored_name(entry@.metadata, hash@),
    ).with_reference(entry@.path));
    let modified: i128 = record_recency(None, entry.modified);
    Ok(Some(LoadPlan { loaded: Loaded { modified, record }, steps }))
}

// ---------------------------------------------------------------------------
// Order
// ---------------------------------------------------------------------------

/// Whether a text comes before another one, character by character.
pub open spec fn text_less(left: Seq<char>, right: Seq<char>) -> bool
    decreases left.len(),
{
    if right.len() == 0 {
        false
    } else if left.len() == 0 {
        true
    } else if left[0] != right[0] {
        left[0] < right[0]
    } else {
        text_less(left.drop_first(), right.drop_first())
    }
}

/// Whether a record goes before another one: the more recent one does, and of
/// two that are as recent the one with the greater hash.
pub open spec fn goes_before(left: LoadedView, right: LoadedView) -> bool {
    left.modified > right.modified || (left.modified == right.modified && text_less(
        right.record.hash,
        left.record.hash,
    ))
}

/// An ordered list with one more item, behind those that it does not go before.
pub open spec fn insert_ordered(ordered: Seq<LoadedView>, item: LoadedView) -> Seq<LoadedView>
    decreases ordered.len(),
{
    if ordered.len() > 0 && goes_before(item, ordered.last()) {
        insert_ordered(ordered.drop_last(), item).push(ordered.last())
    } else {
        ordered.push(item)
    }
}

/// The items in order; those that do not go before each other stay as they were.
pub open spec fn newest_first(items: Seq<LoadedView>) -> Seq<LoadedView>
    decreases items.len(),
{
    if items.len() == 0 {
        Seq::empty()
    } else {
        insert_ordered(newest_first(items.drop_last()), items.last())
    }
}

pub open spec fn loaded_records(items: Seq<LoadedView>) -> Seq<RecordView> {
    items.map_values(|item: LoadedView| item.record)
}

fn text_comes_before(left: &str, right: &str) -> (yes: bool)
    ensures
        yes == text_less(left@, right@),
{
    let a = to_chars(left);
    let b = to_chars(right);
    let mut i: usize = 0;
    assert(a@.skip(0) == a@);
    assert(b@.skip(0) == b@);
    while i < a.len() && i < b.len()
        invariant
            i <= a@.len(),
            i <= b@.len(),
            a@ == left@,
            b@ == right@,
            text_less(a@, b@) == text_less(a@.skip(i as int), b@.skip(i as int)),
        decreases a@.len() - i,
    {
        let x: char = a[i];
        let y: char = b[i];
        assert(x == a@.skip(i as int)[0] && y == b@.skip(i as int)[0]);
        if x != y {
            return x < y;
        }
        assert(a@.skip(i as int).drop_first() == a@.skip(i + 1));
        assert(b@.skip(i as int).drop_first() == b@.skip(i + 1));
        i += 1;
    }
    i < b.len()
}

fn comes_before(left: &Loaded, right: &Loaded) -> (yes: bool)
    ensures
        yes == goes_before(left@, right@),
{
    left.modified > right.modified || (left.modified == right.modified && text_comes_before(
        right.record.hash.as_str(),
        left.record.hash.as_str(),
    ))
}

proof fn lemma_insert_ordered_at(ordered: Seq<LoadedView>, item: LoadedView, at: int)
    requires
        0 <= at <= ordered.len(),
        forall|i: int| at <= i < ordered.len() ==> goes_before(item, #[trigger] ordered[i]),
        at > 0 ==> !goes_before(item, ordered[at - 1]),
    ensures
        insert_ordered(ordered, item) == ordered.insert(at, item),
    decreases ordered.len() - at,
{
    if at < ordered.len() {
        assert(goes_before(item, ordered[ordered.len() - 1]));
        lemma_insert_ordered_at(ordered.drop_last(), item, at);
        assert(ordered.insert(at, item) == ordered.drop_last().insert(at, item).push(
            ordered.last(),
        ));
    } else {
        assert(ordered.insert(at, item) == ordered.push(item));
    }
}

/// Puts the items in order.
fn load_records(loaded: Vec<Loaded>) -> (ordered: Vec<Loaded>)
    ensures
        loaded_views(ordered@) == newest_first(loaded_views(loaded@)),
{
    let mut rest = loaded;
    let mut ordered: Vec<Loaded> = Vec::new();
    let ghost all = loaded_views(loaded@);
    assert(loaded_views(ordered@) == newest_first(all.take(0)));
    while rest.len() > 0
        invariant
            rest@.len() <= all.len(),
            loaded_views(rest@) == all.skip(all.len() - rest@.len()),
            loaded_views(ordered@) == newest_first(all.take(all.len() - rest@.len())),
        decreases rest@.len(),
    {
        let ghost done = all.len() - rest@.len();
        let ghost before = loaded_views(ordered@);
        let ghost waiting = loaded_views(rest@);
        let item = rest.remove(0);
        assert(item@ == waiting[0]);
        assert(loaded_views(rest@) =~= waiting.drop_first());
        assert(waiting.drop_first() == all.skip(done + 1));
        let mut at: usize = ordered.len();
        while at > 0 && comes_before(&item, &ordered[at - 1])
            invariant
                at <= ordered@.len(),
                before == loaded_views(ordered@),
                forall|i: int| at <= i < before.len() ==> goes_before(item@, #[trigger] before[i]),
            decreases at,
        {
            at -= 1;
        }
        proof {
            lemma_insert_ordered_at(before, item@, at as int);
            assert(all.take(done + 1).drop_last() == all.take(done));
        }
        ordered.insert(at, item);
        assert(loaded_views(ordered@) =~= before.insert(at as int, item@));
    }
    assert(all.take(all.len() as int) == all);
    ordered
}

/// What is said about a file that was found and could not be used.
pub open spec fn skipping(is_reference: bool, path: PathView, error: ErrorView) -> Seq<char> {
    (if is_reference {
        "skipping file reference "@
    } else {
        "skipping stored image "@
    }) + path.text + ": "@ + error.message()
}

/// Takes a record into the list, once its steps are done. A file of which no
/// record could be made, or whose steps failed, is skipped for that reason.
pub fn take_in(
    loaded: &mut Vec<Loaded>,
    plan: Result<Option<LoadPlan>, StoreError>,
    failure: Option<StoreError>,
) -> (skipped: Option<StoreError>)
    ensures
        match (plan, failure) {
            (Ok(Some(plan)), None) => skipped is None && final(loaded)@ == old(loaded)@.push(
                plan.loaded,
            ),
            (Ok(Some(_)), Some(error)) => skipped == Some(error) && final(loaded)@ == old(
                loaded,
            )@,
            (Ok(None), _) => skipped is None && final(loaded)@ == old(loaded)@,
            (Err(error), _) => skipped == Some(error) && final(loaded)@ == old(loaded)@,
        },
{
    match plan {
        Ok(Some(plan)) => match failure {
            None => {
                loaded.push(plan.loaded);
                None
            },
            Some(error) => Some(error),
        },
        Ok(None) => None,
        Err(error) => Some(error),
    }
}

/// What is said about a file that was found and could not be used.
pub fn skip_notice(is_reference: bool, path: &FilePath, error: &StoreError) -> (notice: String)
    ensures
        notice@ == skipping(is_reference, path@, error@),
        is_reference ==> notice@ == "skipping file reference "@ + path@.text + ": "@
            + error@.message(),
        !is_reference ==> notice@ == "skipping stored image "@ + path@.text + ": "@
            + error@.message(),
{
    let mut notice = if is_reference {
        "skipping file reference ".to_owned()
    } else {
        "skipping stored image ".to_owned()
    };
    notice.append(path.text.as_str());
    notice.append(": ");
    notice.append(error.message().as_str());
    notice
}

impl ImageStore {
    /// The store with the records that were found, the most recent one first.
    pub fn open_at(layout: StoreLayout, loaded: Vec<Loaded>) -> (store: ImageStore)
        ensures
            store@.layout == layout@,
            store@.records == loaded_records(newest_first(loaded_views(loaded@))),
    {
        let mut ordered = load_records(loaded);
        let ghost all = loaded_views(ordered@);
        let mut records: Vec<StoredImage> = Vec::new();
        while ordered.len() > 0
            invariant
                ordered@.len() + records@.len() == all.len(),
                loaded_views(ordered@) == all.skip(records@.len() as int),
                records::record_views(records@) == loaded_records(all.take(records@.len() as int)),
            decreases ordered@.len(),
        {
            let ghost done = records@.len() as int;
            let ghost waiting = loaded_views(ordered@);
            let ghost taken = records::record_views(records@);
            let item = ordered.remove(0);
            assert(item@ == waiting[0]);
            records.push(item.record);
            assert(loaded_views(ordered@) =~= waiting.drop_first());
            assert(waiting.drop_first() == all.skip(done + 1));
            assert(records::record_views(records@) =~= taken.push(item@.record));
            assert(loaded_records(all.take(done + 1)) =~= loaded_records(all.take(done)).push(
                all[done].record,
            ));
        }
        assert(all.take(all.len() as int) == all);
        ImageStore::with_records(layout, records)
    }
}

// ---------------------------------------------------------------------------
// Laws
// ---------------------------------------------------------------------------

/// Of two times the first that is known counts, and the epoch where neither is.
pub proof fn law_recency(first: i128, other: Option<i128>, second: i128)
    ensures
        recency(Some(first), other) == first,
        recency(None, Some(second)) == second,
        recency(None, None) == 0,
{
}

/// Of two texts that begin alike the one with the lesser character behind that comes
/// first, and a text comes before any longer one that begins with it.
pub proof fn law_text_less(
    start: Seq<char>,
    first: char,
    second: char,
    left: Seq<char>,
    right: Seq<char>,
)
    ensures
        first < second ==> text_less(start.push(first) + left, start.push(second) + right),
        first < second ==> !text_less(start.push(second) + right, start.push(first) + left),
        text_less(start, start.push(first) + left),
        !text_less(start.push(first) + left, start),
        !text_less(start, start),
    decreases start.len(),
{
    reveal_with_fuel(text_less, 2);
    let a = start.push(first) + left;
    let b = start.push(second) + right;
    if start.len() > 0 {
        let rest = start.drop_first();
        law_text_less(rest, first, second, left, right);
        assert(a.drop_first() =~= rest.push(first) + left);
        assert(b.drop_first() =~= rest.push(second) + right);
        assert(a[0] == start[0] && b[0] == start[0]);
    } else {
        assert(a[0] == first && b[0] == second);
    }
}

/// The more recent of two items goes before the other, and of two that are as recent
/// the one with the greater hash.
pub proof fn law_goes_before(left: LoadedView, right: LoadedView)
    ensures
        left.modified > right.modified ==> goes_before(left, right) && !goes_before(right, left),
        left.modified == right.modified ==> goes_before(left, right) == text_less(
            right.record.hash,
            left.record.hash,
        ),
{
}

/// An image among the originals is found again under its hash, with the size that it
/// decodes to and the name that was stored; a missing thumbnail is made anew.
pub proof fn law_found_image(
    layout: LayoutView,
    entry: OriginalEntryView,
    hash: Seq<char>,
    image: PixelsView,
)
    requires
        entry.probe.path.file_stem() == Some(vstd::utf8::encode_utf8(hash)),
        entry.probe.path.is_png_file() || entry.probe.path.is_gif_file(),
        entry.probe.pixels == Ok::<PixelsView, Seq<char>>(image),
    ensures
        ({
            let path = entry.probe.path;
            let found = loaded_original(layout, entry);
            let (item, steps) = found->Ok_0->0;
            let record = item.record;
            &&& found is Ok && found->Ok_0 is Some
            &&& record.hash == hash
            &&& record.kind == if path.is_gif_file() {
                StoredImageKind::Gif
            } else {
                StoredImageKind::Raster
            }
            &&& record.width == image.width
            &&& record.height == image.height
            &&& record.original_path == path
            &&& record.thumbnail_path == Some(layout.thumbnail_path(hash))
            &&& record.reference_path is None
            &&& entry.metadata matches Some(name) ==> record.display_name == summary::display_name(
                name,
            )
            &&& entry.metadata is None ==> record.display_name == "Item "@ + summary::display_id(
                hash,
            )
            &&& entry.probe.byte_len matches Ok(byte_len) ==> record.byte_len == byte_len
            &&& entry.probe.byte_len is Err ==> record.byte_len == 0
            &&& record.text_preview.len() == 0
            &&& record.line_count == 0
            &&& Some(record.file_extension) == path.lower_extension()
            &&& entry.thumbnail_exists ==> steps.len() == 0
            &&& !entry.thumbnail_exists ==> steps == seq![
                ActionView::SavePng {
                    path: layout.thumbnail_path(hash),
                    image: image.thumbnail(),
                },
            ]
            &&& entry.metadata_modified matches Some(time) ==> item.modified == time
            &&& entry.metadata_modified is None && entry.modified is Some ==> item.modified
                == entry.modified->0
            &&& entry.metadata_modified is None && entry.modified is None ==> item.modified == 0
        }),
{
    vstd::utf8::encode_utf8_valid_utf8(hash);
    vstd::utf8::encode_utf8_decode_utf8(hash);
}

/// A text among the originals is found again under its hash, with its own excerpt and
/// the name that was stored.
pub proof fn law_found_text(
    layout: LayoutView,
    entry: OriginalEntryView,
    hash: Seq<char>,
    contents: Seq<char>,
)
    requires
        entry.probe.path.file_stem() == Some(vstd::utf8::encode_utf8(hash)),
        !entry.probe.path.is_png_file(),
        !entry.probe.path.is_gif_file(),
        entry.probe.contents == Ok::<Seq<u8>, Seq<char>>(vstd::utf8::encode_utf8(contents)),
        !contents.contains('\0'),
    ensures
        ({
            let found = loaded_original(layout, entry);
            let (item, steps) = found->Ok_0->0;
            let record = item.record;
            &&& found is Ok && found->Ok_0 is Some
            &&& record.hash == hash
            &&& record.kind == StoredImageKind::Text
            &&& record.width == 0
            &&& record.height == 0
            &&& record.original_path == entry.probe.path
            &&& record.thumbnail_path is None
            &&& record.reference_path is None
            &&& record.text_preview == summary::text_preview(contents)
            &&& record.line_count == text::text_lines(contents).len() as usize
            &&& record.byte_len == vstd::utf8::encode_utf8(contents).len() as u64
            &&& record.file_extension == entry.probe.path.normalized_text_extension()
            &&& entry.metadata matches Some(name) ==> record.display_name == summary::display_name(
                name,
            )
            &&& entry.metadata is None ==> record.display_name == "Item "@ + summary::display_id(
                hash,
            )
            &&& steps.len() == 0
            &&& entry.metadata_modified matches Some(time) ==> item.modified == time
            &&& entry.metadata_modified is None && entry.modified is Some ==> item.modified
                == entry.modified->0
            &&& entry.metadata_modified is None && entry.modified is None ==> item.modified == 0
        }),
{
    vstd::utf8::encode_utf8_valid_utf8(hash);
    vstd::utf8::encode_utf8_decode_utf8(hash);
    vstd::utf8::encode_utf8_decode_utf8(contents);
    paths::law_text_bytes(contents, vstd::utf8::encode_utf8(contents));
}

/// What cannot be used of the originals is skipped with its path and the reason.
pub proof fn law_found_unusable(layout: LayoutView, entry: OriginalEntryView, hash: Seq<char>)
    requires
        entry.probe.path.file_stem() == Some(vstd::utf8::encode_utf8(hash)),
    ensures
        ({
            let probe = entry.probe;
            let found = loaded_original(layout, entry);
            let image = probe.path.is_png_file() || probe.path.is_gif_file();
            &&& image ==> (found is Err <==> probe.pixels is Err)
            &&& !image ==> (found is Err <==> !(probe.contents matches Ok(bytes)
                && paths::text_bytes(bytes)))
            &&& found matches Err(error) ==> error.subject == probe.path.text && error.kind == if image
            {
                ErrorKind::DecodeFailed
            } else if probe.contents is Err {
                ErrorKind::ReadFailed
            } else {
                ErrorKind::NotTextItem
            }
        }),
{
    vstd::utf8::encode_utf8_valid_utf8(hash);
    vstd::utf8::encode_utf8_decode_utf8(hash);
}

/// A reference is found again under its hash where the file that it refers to is
/// there, as the item that this file is, with the name that was stored; where the file
/// is gone, it counts for nothing.
pub proof fn law_found_reference(layout: LayoutView, entry: ReferenceEntryView, hash: Seq<char>)
    requires
        entry.path.file_stem() == Some(vstd::utf8::encode_utf8(hash)),
    ensures
        ({
            let found = loaded_reference(layout, entry);
            let built = store::reference_record(layout, hash, entry.referred);
            let (item, steps) = found->Ok_0->0;
            let record = item.record;
            &&& entry.failure matches Some(cause) ==> found is Err && found->Err_0 == (ErrorView {
                kind: ErrorKind::ReadFailed,
                subject: entry.path.text,
                cause: Some(cause),
            })
            &&& entry.failure is None && !entry.is_file ==> found is Ok && found->Ok_0 is None
            &&& entry.failure is None && entry.is_file ==> (found is Ok <==> built is Ok)
            &&& entry.failure is None && entry.is_file && built is Ok ==> {
                let from = built->Ok_0.0;
                &&& found->Ok_0 is Some
                &&& record.hash == from.hash
                &&& record.kind == from.kind
                &&& record.width == from.width
                &&& record.height == from.height
                &&& record.original_path == from.original_path
                &&& record.thumbnail_path == from.thumbnail_path
                &&& record.reference_path == Some(entry.path)
                &&& record.text_preview == from.text_preview
                &&& record.line_count == from.line_count
                &&& record.byte_len == from.byte_len
                &&& record.file_extension == from.file_extension
                &&& entry.metadata matches Some(name) ==> record.display_name
                    == summary::display_name(name)
                &&& entry.metadata is None ==> record.display_name == "Item "@
                    + summary::display_id(hash)
                &&& entry.modified matches Some(time) ==> item.modified == time
                &&& entry.modified is None ==> item.modified == 0
                &&& steps == built->Ok_0.1
            }
        }),
{
    vstd::utf8::encode_utf8_valid_utf8(hash);
    vstd::utf8::encode_utf8_decode_utf8(hash);
}

/// A file whose name is no text belongs to no item, and counts for nothing.
pub proof fn law_found_unnamed(
    layout: LayoutView,
    original: OriginalEntryView,
    reference: ReferenceEntryView,
)
    requires
        paths::text_of(original.probe.path.file_stem()) is None,
        paths::text_of(reference.path.file_stem()) is None,
    ensures
        loaded_original(layout, original) matches Ok(found) && found is None,
        loaded_reference(layout, reference) matches Ok(found) && found is None,
{
}

} // verus!
