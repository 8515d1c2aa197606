//! The store: which items it holds, in what order, and what has to be done on
//! disk as they come and go.

use vstd::prelude::*;
use vstd::string::*;

use crate::actions::{ActionView, DiskAction, Finish, FinishView, Outcome, OutcomeView};
use crate::digest::content_hash;
use crate::layout::{LayoutView, StoreLayout};
use crate::paths::{copy_bytes, FilePath, PathView};
use crate::records::{
    copy_path_option, ErrorKind, ErrorView, FileProbe, ImportMode, ProbeView, RecordView,
    SourceFile, SourceView, StoreError, StoredImage, StoredImageKind,
};
use crate::pixels::{PixelsView, RgbaPixels};
use crate::summary::normalize_display_name;
use crate::text::same_text;
use crate::{actions, digest, paths, records, summary, text};

verus! {

broadcast use vstd::string::group_string_axioms;

// ---------------------------------------------------------------------------
// Model
// ---------------------------------------------------------------------------

/// The stored items, the most recent one first.
#[derive(Debug)]
pub struct ImageStore {
    layout: StoreLayout,
    records: Vec<StoredImage>,
}

#[verifier::ext_equal]
pub struct StoreView {
    pub layout: LayoutView,
    pub records: Seq<RecordView>,
}

impl View for ImageStore {
    type V = StoreView;

    closed spec fn view(&self) -> StoreView {
        StoreView { layout: self.layout@, records: records::record_views(self.records@) }
    }
}

/// The index of the first record with the hash, or the number of records if
/// there is none.
pub open spec fn position(records: Seq<RecordView>, hash: Seq<char>) -> int
    decreases records.len(),
{
    if records.len() == 0 || records[0].hash == hash {
        0
    } else {
        1 + position(records.drop_first(), hash)
    }
}

/// The records with the one at `index` moved to the front.
pub open spec fn to_front(records: Seq<RecordView>, index: int) -> Seq<RecordView> {
    seq![records[index]] + records.remove(index)
}

/// No two records have the same hash.
pub open spec fn distinct(records: Seq<RecordView>) -> bool {
    forall|i: int, j: int|
        0 <= i < j < records.len() ==> (#[trigger] records[i]).hash != (#[trigger] records[j]).hash
}

impl StoreView {
    /// Whether the store holds an item with the hash.
    pub open spec fn holds(self, hash: Seq<char>) -> bool {
        position(self.records, hash) < self.records.len()
    }

    pub open spec fn with_records(self, records: Seq<RecordView>) -> StoreView {
        StoreView { layout: self.layout, records }
    }
}

/// `position` is what its name says.
pub proof fn lemma_position(records: Seq<RecordView>, hash: Seq<char>)
    ensures
        0 <= position(records, hash) <= records.len(),
        position(records, hash) < records.len() ==> records[position(records, hash)].hash == hash,
        forall|i: int| 0 <= i < position(records, hash) ==> (#[trigger] records[i]).hash != hash,
    decreases records.len(),
{
    if records.len() > 0 && records[0].hash != hash {
        lemma_position(records.drop_first(), hash);
        assert forall|i: int| 0 <= i < position(records, hash) implies (
        #[trigger] records[i]).hash != hash by {
            if i > 0 {
                assert(records[i] == records.drop_first()[i - 1]);
            }
        }
    }
}

// ---------------------------------------------------------------------------
// Recency
// ---------------------------------------------------------------------------

/// The steps by which an item counts as the most recent one when the store is
/// next opened.
pub open spec fn touch_steps(
    layout: LayoutView,
    hash: Seq<char>,
    reference: Option<PathView>,
) -> Seq<ActionView> {
    let metadata = ActionView::TouchIfPresent { path: layout.metadata_path(hash) };
    match reference {
        Some(path) => seq![ActionView::Touch { path }, metadata],
        None => seq![metadata],
    }
}

impl StoreView {
    /// The store with the item of that hash at the front.
    pub open spec fn promoted(self, hash: Seq<char>) -> StoreView {
        self.with_records(to_front(self.records, position(self.records, hash)))
    }

    /// The steps by which the item of that hash counts as the most recent one.
    pub open spec fn promotion_steps(self, hash: Seq<char>) -> Seq<ActionView> {
        touch_steps(
            self.layout,
            hash,
            self.records[position(self.records, hash)].reference_path,
        )
    }
}

impl ImageStore {
    /// A store with the given records.
    pub(crate) fn with_records(layout: StoreLayout, records: Vec<StoredImage>) -> (store:
        ImageStore)
        ensures
            store@.layout == layout@,
            store@.records == records::record_views(records@),
    {
        ImageStore { layout, records }
    }

    /// The steps by which an item counts as the most recent one.
    fn touch_record_recency(&self, hash: &str, reference: Option<FilePath>) -> (steps: Vec<
        DiskAction,
    >)
        ensures
            actions::action_views(steps@) == touch_steps(
                self@.layout,
                hash@,
                records::path_option(reference),
            ),
    {
        let mut steps: Vec<DiskAction> = Vec::new();
        if let Some(path) = reference {
            steps.push(DiskAction::Touch { path });
        }
        steps.push(DiskAction::TouchIfPresent { path: self.layout.metadata_path(hash) });
        assert(actions::action_views(steps@) =~= touch_steps(
            self@.layout,
            hash@,
            records::path_option(reference),
        ));
        steps
    }

    /// The index of the first record with the hash, if there is one.
    fn position(&self, hash: &str) -> (index: Option<usize>)
        ensures
            match index {
                Some(index) => index == position(self@.records, hash@) && index
                    < self@.records.len(),
                None => !self@.holds(hash@),
            },
    {
        let mut i: usize = 0;
        proof {
            lemma_position(self@.records, hash@);
        }
        while i < self.records.len()
            invariant
                i <= self.records@.len(),
                self@.records.len() == self.records@.len(),
                0 <= position(self@.records, hash@) <= self@.records.len(),
                position(self@.records, hash@) < self@.records.len() ==> self@.records[position(
                    self@.records,
                    hash@,
                )].hash == hash@,
                forall|j: int|
                    0 <= j < position(self@.records, hash@) ==> (
                    #[trigger] self@.records[j]).hash != hash@,
                i <= position(self@.records, hash@),
            decreases self.records@.len() - i,
        {
            if same_text(self.records[i].hash.as_str(), hash) {
                assert(self@.records[i as int].hash == hash@);
                return Some(i);
            }
            assert(self@.records[i as int].hash != hash@);
            i += 1;
        }
        None
    }

    /// Brings the item with the hash to the front, if the store holds it, and
    /// says what makes it count as the most recent one.
    pub fn promote_existing(&mut self, hash: &str) -> (refresh: Option<Vec<DiskAction>>)
        ensures
            refresh is Some <==> old(self)@.holds(hash@),
            refresh matches Some(steps) ==> {
                &&& final(self)@ == old(self)@.promoted(hash@)
                &&& actions::action_views(steps@) == old(self)@.promotion_steps(hash@)
            },
            refresh is None ==> final(self)@ == old(self)@,
    {
        let index = match self.position(hash) {
            Some(index) => index,
            None => {
                return None;
            },
        };
        let reference = copy_path_option(&self.records[index].reference_path);
        if index > 0 {
            let record = self.records.remove(index);
            self.records.insert(0, record);
        }
        assert(self@.records =~= to_front(old(self)@.records, index as int));
        assert(self@ =~= old(self)@.promoted(hash@));
        Some(self.touch_record_recency(hash, reference))
    }
}

// ---------------------------------------------------------------------------
// Items stored with their contents
// ---------------------------------------------------------------------------

/// The step that stores the display name of an item.
pub open spec fn metadata_step(layout: LayoutView, hash: Seq<char>, name: Seq<char>) -> ActionView {
    ActionView::Write {
        path: layout.metadata_path(hash),
        bytes: vstd::utf8::encode_utf8(name),
    }
}

pub open spec fn thumbnail_step(
    layout: LayoutView,
    hash: Seq<char>,
    image: PixelsView,
) -> ActionView {
    ActionView::SavePng { path: layout.thumbnail_path(hash), image: image.thumbnail() }
}

/// The record of an image that is stored as PNG.
pub open spec fn raster_record(
    layout: LayoutView,
    image: PixelsView,
    name: Seq<char>,
) -> RecordView {
    let hash = digest::blake3_hex(image.pixels);
    RecordView {
        hash,
        display_name: summary::display_name(name),
        width: image.width,
        height: image.height,
        kind: StoredImageKind::Raster,
        original_path: layout.original_path(hash, "png"@),
        thumbnail_path: Some(layout.thumbnail_path(hash)),
        reference_path: None,
        text_preview: Seq::empty(),
        line_count: 0,
        byte_len: image.pixels.len() as u64,
        file_extension: "png"@,
    }
}

/// The record of an animation that is stored as it came, with the size of its
/// first frame.
pub open spec fn gif_record(
    layout: LayoutView,
    encoded: Seq<u8>,
    first_frame: PixelsView,
    name: Seq<char>,
) -> RecordView {
    let hash = digest::blake3_hex(encoded);
    RecordView {
        hash,
        display_name: summary::display_name(name),
        width: first_frame.width,
        height: first_frame.height,
        kind: StoredImageKind::Gif,
        original_path: layout.original_path(hash, "gif"@),
        thumbnail_path: Some(layout.thumbnail_path(hash)),
        reference_path: None,
        text_preview: Seq::empty(),
        line_count: 0,
        byte_len: encoded.len() as u64,
        file_extension: "gif"@,
    }
}

/// What the record of a text says about its contents.
pub open spec fn text_record(
    hash: Seq<char>,
    name: Seq<char>,
    original_path: PathView,
    encoded: Seq<u8>,
    extension: Seq<char>,
) -> RecordView {
    let contents = vstd::utf8::decode_utf8(encoded);
    RecordView {
        hash,
        display_name: name,
        width: 0,
        height: 0,
        kind: StoredImageKind::Text,
        original_path,
        thumbnail_path: None,
        reference_path: None,
        text_preview: summary::text_preview(contents),
        line_count: text::text_lines(contents).len() as usize,
        byte_len: encoded.len() as u64,
        file_extension: extension,
    }
}

/// Whether an import removes the file that it is from: only when it is to be
/// moved, and never a file of the store itself.
pub open spec fn removes_source(path: PathView, mode: ImportMode, root: PathView) -> bool {
    mode == ImportMode::Move && !path.starts_with(root)
}

pub open spec fn text_or(text: Option<Seq<char>>, other: Seq<char>) -> Seq<char> {
    match text {
        Some(text) => text,
        None => other,
    }
}

/// The name of an imported image: that of its file, without the extension.
pub open spec fn image_name(path: PathView) -> Seq<char> {
    match paths::text_of(path.file_stem()) {
        Some(stem) if text::trim(stem).len() > 0 => text::trim(stem),
        _ => "Imported image"@,
    }
}

/// The name of a text: that of its file, without the extension.
pub open spec fn text_name(path: PathView) -> Seq<char> {
    summary::display_name(text_or(paths::text_of(path.file_stem()), "Text file"@))
}

impl OutcomeView {
    /// Whether a record that goes into the store has a hash of the usual form.
    pub open spec fn well_hashed(self) -> bool {
        self.finish matches FinishView::Insert { record } ==> digest::item_hash(record.hash)
    }
}

impl StoreView {
    /// Storing an image: where the store holds it, it comes to the front;
    /// otherwise it is saved and put there.
    pub open spec fn persist_rgba(self, image: PixelsView, name: Seq<char>) -> (
        StoreView,
        OutcomeView,
    ) {
        let hash = digest::blake3_hex(image.pixels);
        if self.holds(hash) {
            (
                self.promoted(hash),
                OutcomeView::promoting(self.promotion_steps(hash), Seq::empty()),
            )
        } else {
            (
                self,
                OutcomeView::inserting(
                    seq![
                        ActionView::SavePng {
                            path: self.layout.original_path(hash, "png"@),
                            image,
                        },
                        thumbnail_step(self.layout, hash, image),
                        metadata_step(self.layout, hash, summary::display_name(name)),
                    ],
                    raster_record(self.layout, image, name),
                ),
            )
        }
    }

    /// Storing an animation, whose file is copied as it is.
    pub open spec fn persist_gif(self, probe: ProbeView, name: Seq<char>) -> (
        StoreView,
        OutcomeView,
    ) {
        match probe.contents {
            Err(cause) => (
                self,
                OutcomeView::failing(
                    Seq::empty(),
                    records::io_error(ErrorKind::ReadFailed, probe.path, cause),
                ),
            ),
            Ok(encoded) => {
                let hash = digest::blake3_hex(encoded);
                if self.holds(hash) {
                    (
                        self.promoted(hash),
                        OutcomeView::promoting(self.promotion_steps(hash), Seq::empty()),
                    )
                } else {
                    match probe.pixels {
                        Err(cause) => (
                            self,
                            OutcomeView::failing(
                                Seq::empty(),
                                records::io_error(ErrorKind::DecodeFailed, probe.path, cause),
                            ),
                        ),
                        Ok(first_frame) => (
                            self,
                            OutcomeView::inserting(
                                seq![
                                    ActionView::CopyFile {
                                        from: probe.path,
                                        to: self.layout.original_path(hash, "gif"@),
                                    },
                                    thumbnail_step(self.layout, hash, first_frame),
                                    metadata_step(
                                        self.layout,
                                        hash,
                                        summary::display_name(name),
                                    ),
                                ],
                                gif_record(self.layout, encoded, first_frame, name),
                            ),
                        ),
                    }
                }
            },
        }
    }

    /// Moving a text file into the store. Where the store holds the same text,
    /// that comes to the front and the file only goes.
    pub open spec fn move_text(self, probe: ProbeView, mode: ImportMode) -> (
        StoreView,
        OutcomeView,
    ) {
        let removed = removes_source(probe.path, mode, self.layout.root);
        match probe.contents {
            Err(cause) => (
                self,
                OutcomeView::failing(
                    Seq::empty(),
                    records::io_error(ErrorKind::ReadFailed, probe.path, cause),
                ),
            ),
            Ok(encoded) => if !paths::text_bytes(encoded) {
                (
                    self,
                    OutcomeView::failing(
                        Seq::empty(),
                        records::path_error(ErrorKind::NotTextFile, probe.path),
                    ),
                )
            } else {
                let hash = digest::blake3_hex(encoded);
                let extension = probe.path.normalized_text_extension();
                let original = self.layout.original_path(hash, extension);
                if self.holds(hash) {
                    (
                        self.promoted(hash),
                        OutcomeView::promoting(
                            self.promotion_steps(hash),
                            if removed {
                                seq![ActionView::RemoveIfExists { path: probe.path }]
                            } else {
                                Seq::empty()
                            },
                        ),
                    )
                } else {
                    (
                        self,
                        OutcomeView::inserting(
                            seq![
                                if removed {
                                    ActionView::MoveFile { from: probe.path, to: original }
                                } else {
                                    ActionView::Write { path: original, bytes: encoded }
                                },
                                metadata_step(self.layout, hash, text_name(probe.path)),
                            ],
                            text_record(hash, text_name(probe.path), original, encoded, extension),
                        ),
                    )
                }
            },
        }
    }
}

/// Whether an import removes the file that it is from.
pub fn should_remove_source(path: &FilePath, mode: ImportMode, store_root: &FilePath) -> (yes: bool)
    ensures
        yes == removes_source(path@, mode, store_root@),
{
    mode == ImportMode::Move && !path.starts_with(store_root)
}

fn file_stem_or(path: &FilePath, other: &str) -> (stem: String)
    ensures
        stem@ == text_or(paths::text_of(path@.file_stem()), other@),
{
    match path.file_stem() {
        Some(stem) => stem,
        None => other.to_owned(),
    }
}

/// The name of an imported image: that of its file, without the extension.
fn imported_image_name(path: &FilePath) -> (name: String)
    ensures
        name@ == image_name(path@),
{
    match path.file_stem() {
        Some(stem) => {
            let trimmed = text::trim_text(stem.as_str());
            if trimmed.as_str().is_empty() {
                "Imported image".to_owned()
            } else {
                trimmed
            }
        },
        None => "Imported image".to_owned(),
    }
}

/// The record of a text with the given contents.
pub(crate) fn build_text_record(
    hash: String,
    display_name: String,
    original_path: FilePath,
    encoded: &Vec<u8>,
    contents: &str,
    file_extension: String,
) -> (record: StoredImage)
    requires
        contents@ == vstd::utf8::decode_utf8(encoded@),
    ensures
        record@ == text_record(
            hash@,
            display_name@,
            original_path@,
            encoded@,
            file_extension@,
        ),
{
    let lines = text::split_lines(contents);
    assert(lines@.len() == text::views(lines@).len());
    StoredImage {
        hash,
        display_name,
        width: 0,
        height: 0,
        kind: StoredImageKind::Text,
        original_path,
        thumbnail_path: None,
        reference_path: None,
        text_preview: summary::build_text_preview(contents),
        line_count: lines.len(),
        byte_len: encoded.len() as u64,
        file_extension,
    }
}

/// The text of some bytes, where they look like text.
pub(crate) fn text_contents(encoded: &Vec<u8>) -> (contents: Option<String>)
    ensures
        text::text_option(contents) == (if paths::text_bytes(encoded@) {
            Some(vstd::utf8::decode_utf8(encoded@))
        } else {
            None
        }),
{
    if paths::looks_like_text_bytes(encoded) {
        text::parse_utf8(encoded.as_slice())
    } else {
        None
    }
}

impl ImageStore {
    fn metadata_action(&self, hash: &str, name: &str) -> (step: DiskAction)
        ensures
            step@ == metadata_step(self@.layout, hash@, name@),
    {
        DiskAction::Write { path: self.layout.metadata_path(hash), bytes: name.as_bytes_vec() }
    }

    /// Stores an image, or brings it to the front if the store holds it.
    pub fn persist_rgba_image(&mut self, rgba_image: &RgbaPixels, display_name: &str) -> (outcome:
        Outcome)
        requires
            rgba_image@.storable(),
        ensures
            (final(self)@, outcome@) == old(self)@.persist_rgba(rgba_image@, display_name@),
            outcome@.well_hashed(),
    {
        let hash = content_hash(&rgba_image.pixels);
        if let Some(refresh) = self.promote_existing(hash.as_str()) {
            let required: Vec<DiskAction> = Vec::new();
            assert(actions::action_views(required@) =~= Seq::<ActionView>::empty());
            return Outcome::promoting(refresh, required);
        }
        let name = normalize_display_name(display_name);
        let original_path = self.layout.original_path(hash.as_str(), "png");
        let thumbnail_path = self.layout.thumbnail_path(hash.as_str());
        let mut required: Vec<DiskAction> = Vec::new();
        required.push(
            DiskAction::SavePng { path: original_path.clone(), image: rgba_image.clone() },
        );
        required.push(
            DiskAction::SavePng { path: thumbnail_path.clone(), image: rgba_image.thumbnail() },
        );
        required.push(self.metadata_action(hash.as_str(), name.as_str()));
        assert(actions::action_views(required@) =~= seq![
            ActionView::SavePng {
                path: self@.layout.original_path(hash@, "png"@),
                image: rgba_image@,
            },
            thumbnail_step(self@.layout, hash@, rgba_image@),
            metadata_step(self@.layout, hash@, name@),
        ]);
        let record = StoredImage {
            hash,
            display_name: name,
            width: rgba_image.width,
            height: rgba_image.height,
            kind: StoredImageKind::Raster,
            original_path,
            thumbnail_path: Some(thumbnail_path),
            reference_path: None,
            text_preview: String::new(),
            line_count: 0,
            byte_len: rgba_image.pixels.len() as u64,
            file_extension: "png".to_owned(),
        };
        assert(record@ =~= raster_record(self@.layout, rgba_image@, display_name@));
        Outcome::inserting(required, record)
    }

    /// Stores an animation, or brings it to the front if the store holds it.
    pub fn persist_gif_image(&mut self, probe: &FileProbe, display_name: &str) -> (outcome: Outcome)
        requires
            probe@.storable(),
        ensures
            (final(self)@, outcome@) == old(self)@.persist_gif(probe@, display_name@),
            outcome@.well_hashed(),
    {
        let none: Vec<DiskAction> = Vec::new();
        assert(actions::action_views(none@) =~= Seq::<ActionView>::empty());
        let encoded = match &probe.contents {
            Ok(encoded) => encoded,
            Err(cause) => {
                return Outcome::failing(
                    none,
                    StoreError::of_io(ErrorKind::ReadFailed, &probe.path, cause.as_str()),
                );
            },
        };
        let hash = content_hash(encoded);
        if let Some(refresh) = self.promote_existing(hash.as_str()) {
            return Outcome::promoting(refresh, none);
        }
        let first_frame = match &probe.pixels {
            Ok(first_frame) => first_frame,
            Err(cause) => {
                return Outcome::failing(
                    none,
                    StoreError::of_io(ErrorKind::DecodeFailed, &probe.path, cause.as_str()),
                );
            },
        };
        let name = normalize_display_name(display_name);
        let original_path = self.layout.original_path(hash.as_str(), "gif");
        let thumbnail_path = self.layout.thumbnail_path(hash.as_str());
        let mut required: Vec<DiskAction> = Vec::new();
        required.push(
            DiskAction::CopyFile { from: probe.path.clone(), to: original_path.clone() },
        );
        required.push(
            DiskAction::SavePng { path: thumbnail_path.clone(), image: first_frame.thumbnail() },
        );
        required.push(self.metadata_action(hash.as_str(), name.as_str()));
        assert(actions::action_views(required@) =~= seq![
            ActionView::CopyFile {
                from: probe@.path,
                to: self@.layout.original_path(hash@, "gif"@),
            },
            thumbnail_step(self@.layout, hash@, first_frame@),
            metadata_step(self@.layout, hash@, name@),
        ]);
        let record = StoredImage {
            hash,
            display_name: name,
            width: first_frame.width,
            height: first_frame.height,
            kind: StoredImageKind::Gif,
            original_path,
            thumbnail_path: Some(thumbnail_path),
            reference_path: None,
            text_preview: String::new(),
            line_count: 0,
            byte_len: encoded.len() as u64,
            file_extension: "gif".to_owned(),
        };
        assert(record@ =~= gif_record(self@.layout, encoded@, first_frame@, display_name@));
        Outcome::inserting(required, record)
    }

    /// Moves a text file into the store.
    fn move_text_file(&mut self, probe: &FileProbe, mode: ImportMode) -> (outcome: Outcome)
        ensures
            (final(self)@, outcome@) == old(self)@.move_text(probe@, mode),
            outcome@.well_hashed(),
    {
        let mut required: Vec<DiskAction> = Vec::new();
        assert(actions::action_views(required@) =~= Seq::<ActionView>::empty());
        let encoded = match &probe.contents {
            Ok(encoded) => encoded,
            Err(cause) => {
                return Outcome::failing(
                    required,
                    StoreError::of_io(ErrorKind::ReadFailed, &probe.path, cause.as_str()),
                );
            },
        };
        let contents = match text_contents(encoded) {
            Some(contents) => contents,
            None => {
                return Outcome::failing(
                    required,
                    StoreError::of_path(ErrorKind::NotTextFile, &probe.path),
                );
            },
        };
        let hash = content_hash(encoded);
        let removed = should_remove_source(&probe.path, mode, &self.layout.root);
        if let Some(refresh) = self.promote_existing(hash.as_str()) {
            if removed {
                required.push(DiskAction::RemoveIfExists { path: probe.path.clone() });
            }
            assert(actions::action_views(required@) =~= if removed {
                seq![ActionView::RemoveIfExists { path: probe@.path }]
            } else {
                Seq::empty()
            });
            return Outcome::promoting(refresh, required);
        }
        let name = normalize_display_name(file_stem_or(&probe.path, "Text file").as_str());
        let extension = paths::normalized_text_extension(&probe.path);
        let original_path = self.layout.original_path(
            hash.as_str(),
            paths::persisted_text_extension(&probe.path).as_str(),
        );
        if removed {
            required.push(
                DiskAction::MoveFile { from: probe.path.clone(), to: original_path.clone() },
            );
        } else {
            required.push(
                DiskAction::Write { path: original_path.clone(), bytes: copy_bytes(encoded) },
            );
        }
        required.push(self.metadata_action(hash.as_str(), name.as_str()));
        assert(actions::action_views(required@) =~= seq![
            if removed {
                ActionView::MoveFile { from: probe@.path, to: original_path@ }
            } else {
                ActionView::Write { path: original_path@, bytes: encoded@ }
            },
            metadata_step(self@.layout, hash@, name@),
        ]);
        let record = build_text_record(
            hash,
            name,
            original_path,
            encoded,
            contents.as_str(),
            extension,
        );
        Outcome::inserting(required, record)
    }
}

// ---------------------------------------------------------------------------
// References to files outside the store
// ---------------------------------------------------------------------------

/// What kind of item a file is: by its extension, by its name, or by a look at
/// its contents.
pub open spec fn file_kind(probe: ProbeView) -> Result<StoredImageKind, ErrorView> {
    if probe.path.is_gif_file() {
        Ok(StoredImageKind::Gif)
    } else if probe.path.is_supported_image_file() {
        Ok(StoredImageKind::Raster)
    } else if probe.path.looks_like_supported_text_path() {
        Ok(StoredImageKind::Text)
    } else {
        match probe.contents {
            Err(cause) => Err(records::io_error(ErrorKind::ReadFailed, probe.path, cause)),
            Ok(contents) => if paths::text_bytes(contents) {
                Ok(StoredImageKind::Text)
            } else {
                Ok(StoredImageKind::File)
            },
        }
    }
}

/// The record of an image outside the store.
pub open spec fn image_reference(
    layout: LayoutView,
    hash: Seq<char>,
    path: PathView,
    kind: StoredImageKind,
    image: PixelsView,
    byte_len: u64,
) -> RecordView {
    RecordView {
        hash,
        display_name: summary::display_name(
            text_or(paths::text_of(path.file_stem()), "Imported image"@),
        ),
        width: image.width,
        height: image.height,
        kind,
        original_path: path,
        thumbnail_path: Some(layout.thumbnail_path(hash)),
        reference_path: None,
        text_preview: Seq::empty(),
        line_count: 0,
        byte_len,
        file_extension: text_or(path.lower_extension(), "png"@),
    }
}

/// The record of a file outside the store that is neither image nor text.
pub open spec fn file_reference(hash: Seq<char>, path: PathView, byte_len: u64) -> RecordView {
    let name = summary::display_name(text_or(paths::text_of(path.file_name()), "File"@));
    RecordView {
        hash,
        display_name: name,
        width: 0,
        height: 0,
        kind: StoredImageKind::File,
        original_path: path,
        thumbnail_path: None,
        reference_path: None,
        text_preview: Seq::empty(),
        line_count: 0,
        byte_len,
        file_extension: paths::nonempty_or(
            path.lower_extension(),
            paths::extension_from_name(PathView::of_name(name)),
        ),
    }
}

/// The record of a file outside the store, and the steps that its thumbnail
/// needs.
pub open spec fn reference_record(layout: LayoutView, hash: Seq<char>, probe: ProbeView) -> Result<
    (RecordView, Seq<ActionView>),
    ErrorView,
> {
    match probe.byte_len {
        Err(cause) => Err(records::io_error(ErrorKind::MetadataFailed, probe.path, cause)),
        Ok(byte_len) => match file_kind(probe) {
            Err(error) => Err(error),
            Ok(StoredImageKind::Text) => match probe.contents {
                Err(cause) => Err(records::io_error(ErrorKind::ReadFailed, probe.path, cause)),
                Ok(encoded) => if !paths::text_bytes(encoded) {
                    Err(records::path_error(ErrorKind::NotTextFile, probe.path))
                } else {
                    Ok(
                        (
                            text_record(
                                hash,
                                text_name(probe.path),
                                probe.path,
                                encoded,
                                probe.path.normalized_text_extension(),
                            ),
                            Seq::empty(),
                        ),
                    )
                },
            },
            Ok(StoredImageKind::File) => Ok(
                (file_reference(hash, probe.path, byte_len), Seq::empty()),
            ),
            Ok(kind) => match probe.pixels {
                Err(cause) => Err(records::io_error(ErrorKind::DecodeFailed, probe.path, cause)),
                Ok(image) => Ok(
                    (
                        image_reference(layout, hash, probe.path, kind, image, byte_len),
                        seq![thumbnail_step(layout, hash, image)],
                    ),
                ),
            },
        },
    }
}

/// A file outside the store that is neither image nor text is shown with the
/// extension of its path, or as `file`: its display name adds no other.
pub proof fn law_file_extension(hash: Seq<char>, path: PathView, byte_len: u64)
    ensures
        file_reference(hash, path, byte_len).file_extension == paths::nonempty_or(
            path.lower_extension(),
            "file"@,
        ),
{
    let name = text_or(paths::text_of(path.file_name()), "File"@);
    let extension = path.lower_extension();
    reveal_strlit("File");
    reveal_strlit("Item");
    if extension is None || extension->0.len() == 0 {
        match paths::text_of(path.file_name()) {
            Some(_) => {
                vstd::utf8::decode_utf8_encode_utf8(path.file_name()->0);
            },
            None => {
                paths::lemma_extension_of_text("File"@, -1);
            },
        }
        paths::lemma_trimmed_extension(name);
        paths::lemma_extension_of_text("Item"@, -1);
    }
}

impl RecordView {
    pub open spec fn with_reference(self, reference_path: PathView) -> RecordView {
        RecordView { reference_path: Some(reference_path), ..self }
    }

    pub open spec fn with_name(self, display_name: Seq<char>) -> RecordView {
        RecordView { display_name, ..self }
    }
}

impl StoreView {
    /// The store without a reference of that hash.
    pub open spec fn without_stale(self, hash: Seq<char>) -> StoreView {
        if self.holds(hash) {
            self.with_records(self.records.remove(position(self.records, hash)))
        } else {
            self
        }
    }

    /// The steps that remove what belonged to the stale reference.
    pub open spec fn stale_steps(self, hash: Seq<char>) -> Seq<ActionView> {
        if self.holds(hash) {
            match self.records[position(self.records, hash)].thumbnail_path {
                Some(path) => seq![ActionView::RemoveIfExists { path }],
                None => Seq::empty(),
            }
        } else {
            Seq::empty()
        }
    }

    /// Storing a reference to a file. A reference to the same path is replaced;
    /// any other item with that hash comes to the front instead.
    pub open spec fn add_reference(self, source: SourceView) -> (StoreView, OutcomeView) {
        let path = source.canonical.path;
        let hash = digest::reference_hash_of(path.text);
        if !source.is_file {
            (
                self,
                OutcomeView::failing(
                    Seq::empty(),
                    records::path_error(ErrorKind::NotRegularFile, source.given.path),
                ),
            )
        } else if self.holds(hash) && self.records[position(
            self.records,
            hash,
        )].reference_path is None {
            (
                self.promoted(hash),
                OutcomeView::promoting(self.promotion_steps(hash), Seq::empty()),
            )
        } else {
            (
                self.without_stale(hash),
                match reference_record(self.layout, hash, source.canonical) {
                    Err(error) => OutcomeView::failing(self.stale_steps(hash), error),
                    Ok((record, steps)) => OutcomeView::inserting(
                        self.stale_steps(hash) + steps + seq![
                            ActionView::Write {
                                path: self.layout.reference_path(hash),
                                bytes: vstd::utf8::encode_utf8(path.text),
                            },
                            metadata_step(self.layout, hash, record.display_name),
                        ],
                        record.with_reference(self.layout.reference_path(hash)),
                    ),
                },
            )
        }
    }
}

/// What kind of item a file is.
pub fn classify_file_kind(probe: &FileProbe) -> (kind: Result<StoredImageKind, StoreError>)
    ensures
        match kind {
            Ok(kind) => file_kind(probe@) == Ok::<StoredImageKind, ErrorView>(kind),
            Err(error) => file_kind(probe@) == Err::<StoredImageKind, ErrorView>(error@),
        },
{
    if paths::is_gif_file(&probe.path) {
        Ok(StoredImageKind::Gif)
    } else if paths::is_supported_image_file(&probe.path) {
        Ok(StoredImageKind::Raster)
    } else if paths::looks_like_supported_text_path(&probe.path) {
        Ok(StoredImageKind::Text)
    } else {
        match &probe.contents {
            Ok(contents) => {
                if paths::looks_like_text_bytes(contents) {
                    Ok(StoredImageKind::Text)
                } else {
                    Ok(StoredImageKind::File)
                }
            },
            Err(cause) => Err(
                StoreError::of_io(ErrorKind::ReadFailed, &probe.path, cause.as_str()),
            ),
        }
    }
}

fn file_name_or(path: &FilePath, other: &str) -> (name: String)
    ensures
        name@ == text_or(paths::text_of(path@.file_name()), other@),
{
    match path.file_name() {
        Some(name) => name,
        None => other.to_owned(),
    }
}

/// The record of a file outside the store, and the steps that its thumbnail
/// needs.
pub fn build_reference_record_from_disk(
    probe: &FileProbe,
    layout: &StoreLayout,
    hash: &str,
) -> (built: Result<(StoredImage, Vec<DiskAction>), StoreError>)
    requires
        probe@.storable(),
    ensures
        match built {
            Ok((record, steps)) => reference_record(layout@, hash@, probe@) == Ok::<
                (RecordView, Seq<ActionView>),
                ErrorView,
            >((record@, actions::action_views(steps@))),
            Err(error) => reference_record(layout@, hash@, probe@) == Err::<
                (RecordView, Seq<ActionView>),
                ErrorView,
            >(error@),
        },
{
    let byte_len: u64 = match &probe.byte_len {
        Ok(byte_len) => *byte_len,
        Err(cause) => {
            return Err(
                StoreError::of_io(ErrorKind::MetadataFailed, &probe.path, cause.as_str()),
            );
        },
    };
    let kind = match classify_file_kind(probe) {
        Ok(kind) => kind,
        Err(error) => {
            return Err(error);
        },
    };
    let mut steps: Vec<DiskAction> = Vec::new();
    assert(actions::action_views(steps@) =~= Seq::<ActionView>::empty());
    match kind {
        StoredImageKind::Gif | StoredImageKind::Raster => {
            let image = match &probe.pixels {
                Ok(image) => image,
                Err(cause) => {
                    return Err(
                        StoreError::of_io(ErrorKind::DecodeFailed, &probe.path, cause.as_str()),
                    );
                },
            };
            let thumbnail_path = layout.thumbnail_path(hash);
            steps.push(
                DiskAction::SavePng { path: thumbnail_path.clone(), image: image.thumbnail() },
            );
            assert(actions::action_views(steps@) =~= seq![
                thumbnail_step(layout@, hash@, image@),
            ]);
            let record = StoredImage {
                hash: hash.to_owned(),
                display_name: normalize_display_name(
                    file_stem_or(&probe.path, "Imported image").as_str(),
                ),
                width: image.width,
                height: image.height,
                kind,
                original_path: probe.path.clone(),
                thumbnail_path: Some(thumbnail_path),
                reference_path: None,
                text_preview: String::new(),
                line_count: 0,
                byte_len,
                file_extension: paths::image_file_extension(&probe.path),
            };
            assert(record@ =~= image_reference(
                layout@,
                hash@,
                probe@.path,
                kind,
                image@,
                byte_len,
            ));
            Ok((record, steps))
        },
        StoredImageKind::Text => {
            let encoded = match &probe.contents {
                Ok(encoded) => encoded,
                Err(cause) => {
                    return Err(
                        StoreError::of_io(ErrorKind::ReadFailed, &probe.path, cause.as_str()),
                    );
                },
            };
            let contents = match text_contents(encoded) {
                Some(contents) => contents,
                None => {
                    return Err(StoreError::of_path(ErrorKind::NotTextFile, &probe.path));
                },
            };
            let record = build_text_record(
                hash.to_owned(),
                normalize_display_name(file_stem_or(&probe.path, "Text file").as_str()),
                probe.path.clone(),
                encoded,
                contents.as_str(),
                paths::normalized_text_extension(&probe.path),
            );
            Ok((record, steps))
        },
        StoredImageKind::File => {
            let display_name = normalize_display_name(file_name_or(&probe.path, "File").as_str());
            let file_extension = paths::normalized_file_extension(
                &probe.path,
                &FilePath::of_name(display_name.as_str()),
            );
            let record = StoredImage {
                hash: hash.to_owned(),
                display_name,
                width: 0,
                height: 0,
                kind,
                original_path: probe.path.clone(),
                thumbnail_path: None,
                reference_path: None,
                text_preview: String::new(),
                line_count: 0,
                byte_len,
                file_extension,
            };
            assert(record@ =~= file_reference(hash@, probe@.path, byte_len));
            Ok((record, steps))
        },
    }
}

impl ImageStore {
    fn build_reference_record(&self, probe: &FileProbe, hash: &str) -> (built: Result<
        (StoredImage, Vec<DiskAction>),
        StoreError,
    >)
        requires
            probe@.storable(),
        ensures
            match built {
                Ok((record, steps)) => reference_record(self@.layout, hash@, probe@) == Ok::<
                    (RecordView, Seq<ActionView>),
                    ErrorView,
                >((record@, actions::action_views(steps@))),
                Err(error) => reference_record(self@.layout, hash@, probe@) == Err::<
                    (RecordView, Seq<ActionView>),
                    ErrorView,
                >(error@),
            },
    {
        build_reference_record_from_disk(probe, &self.layout, hash)
    }

    /// Stores a reference to a file.
    fn add_path_reference(&mut self, source: &SourceFile) -> (outcome: Outcome)
        requires
            source@.canonical.storable(),
        ensures
            (final(self)@, outcome@) == old(self)@.add_reference(source@),
            outcome@.well_hashed(),
    {
        let mut required: Vec<DiskAction> = Vec::new();
        assert(actions::action_views(required@) =~= Seq::<ActionView>::empty());
        if !source.is_file {
            return Outcome::failing(
                required,
                StoreError::of_path(ErrorKind::NotRegularFile, &source.given.path),
            );
        }
        let path_text = source.canonical.path.text.as_str();
        let hash = digest::reference_hash(path_text);
        let reference_path = self.layout.reference_path(hash.as_str());
        if let Some(index) = self.position(hash.as_str()) {
            if self.records[index].reference_path.is_none() {
                match self.promote_existing(hash.as_str()) {
                    Some(refresh) => {
                        return Outcome::promoting(refresh, required);
                    },
                    None => {},
                }
            }
            let stale = self.records.remove(index);
            assert(self@.records =~= old(self)@.records.remove(index as int));
            if let Some(path) = stale.thumbnail_path {
                required.push(DiskAction::RemoveIfExists { path });
            }
        }
        assert(self@ =~= old(self)@.without_stale(hash@));
        assert(actions::action_views(required@) =~= old(self)@.stale_steps(hash@));
        let (mut record, mut steps) = match self.build_reference_record(
            &source.canonical,
            hash.as_str(),
        ) {
            Ok(built) => built,
            Err(error) => {
                return Outcome::failing(required, error);
            },
        };
        let ghost built_record = record@;
        let ghost built_steps = actions::action_views(steps@);
        required.append(&mut steps);
        required.push(
            DiskAction::Write { path: reference_path.clone(), bytes: path_text.as_bytes_vec() },
        );
        required.push(self.metadata_action(hash.as_str(), record.display_name.as_str()));
        assert(actions::action_views(required@) =~= old(self)@.stale_steps(hash@) + built_steps
            + seq![
            ActionView::Write {
                path: self@.layout.reference_path(hash@),
                bytes: vstd::utf8::encode_utf8(path_text@),
            },
            metadata_step(self@.layout, hash@, built_record.display_name),
        ]);
        record.reference_path = Some(reference_path);
        assert(record@ =~= built_record.with_reference(reference_path@));
        Outcome::inserting(required, record)
    }
}

// ---------------------------------------------------------------------------
// Importing
// ---------------------------------------------------------------------------

impl OutcomeView {
    /// The same, with the file at `path` removed at the end unless the operation
    /// fails before.
    pub open spec fn removing(self, path: PathView) -> OutcomeView {
        if self.finish is Fail {
            self
        } else {
            OutcomeView { cleanup: seq![ActionView::RemoveIfExists { path }], ..self }
        }
    }
}

impl StoreView {
    /// Storing an image that is moved into the store.
    pub open spec fn persist_image_file(self, probe: ProbeView) -> (StoreView, OutcomeView) {
        if probe.path.is_gif_file() {
            self.persist_gif(probe, image_name(probe.path))
        } else {
            match probe.pixels {
                Err(cause) => (
                    self,
                    OutcomeView::failing(
                        Seq::empty(),
                        records::io_error(ErrorKind::DecodeFailed, probe.path, cause),
                    ),
                ),
                Ok(image) => self.persist_rgba(image, image_name(probe.path)),
            }
        }
    }

    /// Importing an image: it is moved into the store, or only referred to.
    pub open spec fn import_image(self, source: SourceView, mode: ImportMode) -> (
        StoreView,
        OutcomeView,
    ) {
        match mode {
            ImportMode::Copy => self.add_reference(source),
            ImportMode::Move => {
                let (store, outcome) = self.persist_image_file(source.given);
                if removes_source(source.given.path, mode, self.layout.root) {
                    (store, outcome.removing(source.given.path))
                } else {
                    (store, outcome)
                }
            },
        }
    }

    /// Importing a text: it is moved into the store, or only referred to.
    pub open spec fn import_text(self, source: SourceView, mode: ImportMode) -> (
        StoreView,
        OutcomeView,
    ) {
        match mode {
            ImportMode::Copy => self.add_reference(source),
            ImportMode::Move => self.move_text(source.given, mode),
        }
    }

    /// Importing a file as what its name, or else its contents, say it is. A file
    /// that is neither image nor text is only referred to.
    pub open spec fn import(self, source: SourceView, mode: ImportMode) -> (
        StoreView,
        OutcomeView,
    ) {
        if source.given.path.is_supported_image_file() {
            self.import_image(source, mode)
        } else if source.given.path.looks_like_supported_text_path() {
            self.import_text(source, mode)
        } else {
            match source.given.contents {
                Err(cause) => (
                    self,
                    OutcomeView::failing(
                        Seq::empty(),
                        records::io_error(ErrorKind::ReadFailed, source.given.path, cause),
                    ),
                ),
                Ok(contents) => if paths::text_bytes(contents) {
                    self.import_text(source, mode)
                } else {
                    self.add_reference(source)
                },
            }
        }
    }

    /// Storing an image from the clipboard.
    pub open spec fn add_clipboard_image(self, width: u32, height: u32, bytes: Seq<u8>) -> (
        StoreView,
        OutcomeView,
    ) {
        if crate::pixels::buffer_fits(width, height, bytes.len()) {
            self.persist_rgba(PixelsView { width, height, pixels: bytes }, "Clipboard"@)
        } else {
            (
                self,
                OutcomeView::failing(
                    Seq::empty(),
                    records::bare_error(ErrorKind::BufferMismatch),
                ),
            )
        }
    }

    /// The store once an operation has ended, and what the operation returns.
    pub open spec fn completed(self, finish: FinishView) -> (StoreView, Result<bool, ErrorView>) {
        match finish {
            FinishView::Done { changed } => (self, Ok(changed)),
            FinishView::Insert { record } => (
                self.with_records(seq![record] + self.records),
                Ok(true),
            ),
            FinishView::Fail { error } => (self, Err(error)),
        }
    }
}

pub open spec fn result_view(result: Result<bool, StoreError>) -> Result<bool, ErrorView> {
    match result {
        Ok(changed) => Ok(changed),
        Err(error) => Err(error@),
    }
}

impl ImageStore {
    /// Ends an operation whose required steps are all done.
    pub fn complete(&mut self, finish: Finish) -> (result: Result<bool, StoreError>)
        ensures
            (final(self)@, result_view(result)) == old(self)@.completed(finish@),
    {
        match finish {
            Finish::Done { changed } => Ok(changed),
            Finish::Insert { record } => {
                self.records.insert(0, record);
                assert(self@.records =~= seq![record@] + old(self)@.records);
                Ok(true)
            },
            Finish::Fail { error } => Err(error),
        }
    }

    /// Stores an image from the clipboard.
    pub fn add_clipboard_image(&mut self, width: usize, height: usize, bytes: Vec<u8>) -> (outcome:
        Outcome)
        requires
            crate::pixels::buffer_fits(width as u32, height as u32, bytes@.len())
                ==> crate::pixels::thumbnail_fits(
                width as u32,
                height as u32,
                crate::pixels::THUMBNAIL_SIDE,
                crate::pixels::THUMBNAIL_SIDE,
            ),
        ensures
            (final(self)@, outcome@) == old(self)@.add_clipboard_image(
                width as u32,
                height as u32,
                bytes@,
            ),
            outcome@.well_hashed(),
    {
        let width: u32 = width as u32;
        let height: u32 = height as u32;
        match crate::pixels::checked_buffer(width, height, bytes) {
            Some(pixels) => {
                let image = RgbaPixels { width, height, pixels };
                self.persist_rgba_image(&image, "Clipboard")
            },
            None => {
                let required: Vec<DiskAction> = Vec::new();
                assert(actions::action_views(required@) =~= Seq::<ActionView>::empty());
                Outcome::failing(required, StoreError::bare(ErrorKind::BufferMismatch))
            },
        }
    }

    /// Refers to an image file.
    pub fn add_image_file(&mut self, source: &SourceFile) -> (outcome: Outcome)
        requires
            source@.storable(ImportMode::Copy),
        ensures
            (final(self)@, outcome@) == old(self)@.import_image(source@, ImportMode::Copy),
            outcome@.well_hashed(),
    {
        self.add_image_file_with_mode(source, ImportMode::Copy)
    }

    /// Imports a file as what its name, or else its contents, say it is.
    pub fn import_path(&mut self, source: &SourceFile, mode: ImportMode) -> (outcome: Outcome)
        requires
            source@.storable(mode),
        ensures
            (final(self)@, outcome@) == old(self)@.import(source@, mode),
            outcome@.well_hashed(),
    {
        if paths::is_supported_image_file(&source.given.path) {
            self.add_image_file_with_mode(source, mode)
        } else if paths::looks_like_supported_text_path(&source.given.path) {
            self.add_text_file(source, mode)
        } else {
            match &source.given.contents {
                Ok(contents) => {
                    if paths::looks_like_text_bytes(contents) {
                        self.add_text_file(source, mode)
                    } else {
                        self.add_file_reference(source)
                    }
                },
                Err(cause) => {
                    let required: Vec<DiskAction> = Vec::new();
                    assert(actions::action_views(required@) =~= Seq::<ActionView>::empty());
                    Outcome::failing(
                        required,
                        StoreError::of_io(
                            ErrorKind::ReadFailed,
                            &source.given.path,
                            cause.as_str(),
                        ),
                    )
                },
            }
        }
    }

    /// Refers to a file, whatever it is.
    pub fn add_file_reference(&mut self, source: &SourceFile) -> (outcome: Outcome)
        requires
            source@.canonical.storable(),
        ensures
            (final(self)@, outcome@) == old(self)@.add_reference(source@),
            outcome@.well_hashed(),
    {
        self.add_path_reference(source)
    }

    fn add_image_file_with_mode(&mut self, source: &SourceFile, mode: ImportMode) -> (outcome:
        Outcome)
        requires
            match mode {
                ImportMode::Copy => source@.canonical.storable(),
                ImportMode::Move => source@.given.storable(),
            },
        ensures
            (final(self)@, outcome@) == old(self)@.import_image(source@, mode),
            outcome@.well_hashed(),
    {
        if mode == ImportMode::Copy {
            return self.add_path_reference(source);
        }
        let probe = &source.given;
        let removed = should_remove_source(&probe.path, mode, &self.layout.root);
        let display_name = imported_image_name(&probe.path);
        let mut outcome = if paths::is_gif_file(&probe.path) {
            self.persist_gif_image(probe, display_name.as_str())
        } else {
            match &probe.pixels {
                Ok(image) => self.persist_rgba_image(image, display_name.as_str()),
                Err(cause) => {
                    let required: Vec<DiskAction> = Vec::new();
                    assert(actions::action_views(required@) =~= Seq::<ActionView>::empty());
                    Outcome::failing(
                        required,
                        StoreError::of_io(ErrorKind::DecodeFailed, &probe.path, cause.as_str()),
                    )
                },
            }
        };
        let ghost before = outcome@;
        if removed {
            let failed = match &outcome.finish {
                Finish::Fail { .. } => true,
                _ => false,
            };
            if !failed {
                let mut cleanup: Vec<DiskAction> = Vec::new();
                cleanup.push(DiskAction::RemoveIfExists { path: probe.path.clone() });
                outcome.cleanup = cleanup;
                assert(actions::action_views(outcome.cleanup@) =~= seq![
                    ActionView::RemoveIfExists { path: probe@.path },
                ]);
                assert(outcome@ =~= before.removing(probe@.path));
            }
        }
        outcome
    }

    fn add_text_file(&mut self, source: &SourceFile, mode: ImportMode) -> (outcome: Outcome)
        requires
            mode == ImportMode::Copy ==> source@.canonical.storable(),
        ensures
            (final(self)@, outcome@) == old(self)@.import_text(source@, mode),
            outcome@.well_hashed(),
    {
        if mode == ImportMode::Copy {
            return self.add_path_reference(source);
        }
        self.move_text_file(&source.given, mode)
    }
}

// ---------------------------------------------------------------------------
// Taking items out
// ---------------------------------------------------------------------------

pub open spec fn remove_step(path: Option<PathView>) -> Seq<ActionView> {
    match path {
        Some(path) => seq![ActionView::RemoveIfExists { path }],
        None => Seq::empty(),
    }
}

/// The steps that remove the files of an item. A file that is only referred to
/// stays.
pub open spec fn removal_steps(layout: LayoutView, record: RecordView) -> Seq<ActionView> {
    (if record.reference_path is None {
        seq![ActionView::RemoveIfExists { path: record.original_path }]
    } else {
        Seq::empty()
    }) + remove_step(record.thumbnail_path) + remove_step(record.reference_path) + seq![
        ActionView::RemoveIfExists { path: layout.metadata_path(record.hash) },
    ]
}

/// The steps that remove the files of all items, in order.
pub open spec fn clearing_steps(layout: LayoutView, records: Seq<RecordView>) -> Seq<ActionView>
    decreases records.len(),
{
    if records.len() == 0 {
        Seq::empty()
    } else {
        clearing_steps(layout, records.drop_last()) + removal_steps(layout, records.last())
    }
}

/// The records with one of them moved.
pub open spec fn moved(records: Seq<RecordView>, from: int, to: int) -> Seq<RecordView> {
    records.remove(from).insert(to, records[from])
}

impl ImageStore {
    fn push_removal(&self, steps: &mut Vec<DiskAction>, record: StoredImage)
        ensures
            actions::action_views(final(steps)@) == actions::action_views(old(steps)@)
                + removal_steps(self@.layout, record@),
    {
        let ghost before = actions::action_views(steps@);
        let referred = record.reference_path.is_some();
        if !referred {
            steps.push(DiskAction::RemoveIfExists { path: record.original_path });
        }
        if let Some(path) = record.thumbnail_path {
            steps.push(DiskAction::RemoveIfExists { path });
        }
        if let Some(path) = record.reference_path {
            steps.push(DiskAction::RemoveIfExists { path });
        }
        steps.push(
            DiskAction::RemoveIfExists { path: self.layout.metadata_path(record.hash.as_str()) },
        );
        assert(actions::action_views(steps@) =~= before + removal_steps(self@.layout, record@));
    }

    /// Takes an item out of the store, and says which files go with it. Where
    /// there is no item of that index, nothing happens.
    pub fn delete(&mut self, index: usize) -> (steps: Vec<DiskAction>)
        ensures
            index < old(self)@.records.len() ==> {
                &&& final(self)@ == old(self)@.with_records(
                    old(self)@.records.remove(index as int),
                )
                &&& actions::action_views(steps@) == removal_steps(
                    old(self)@.layout,
                    old(self)@.records[index as int],
                )
            },
            index >= old(self)@.records.len() ==> {
                &&& final(self)@ == old(self)@
                &&& steps@.len() == 0
            },
    {
        let mut steps: Vec<DiskAction> = Vec::new();
        assert(actions::action_views(steps@) =~= Seq::<ActionView>::empty());
        if index >= self.records.len() {
            return steps;
        }
        let record = self.records.remove(index);
        assert(self@.records =~= old(self)@.records.remove(index as int));
        self.push_removal(&mut steps, record);
        assert(actions::action_views(steps@) =~= removal_steps(
            old(self)@.layout,
            old(self)@.records[index as int],
        ));
        steps
    }

    /// Takes all items out of the store, and says which files go with them.
    pub fn clear(&mut self) -> (steps: Vec<DiskAction>)
        ensures
            final(self)@ == old(self)@.with_records(Seq::empty()),
            actions::action_views(steps@) == clearing_steps(
                old(self)@.layout,
                old(self)@.records,
            ),
    {
        let mut steps: Vec<DiskAction> = Vec::new();
        let count = self.records.len();
        let mut i: usize = 0;
        assert(actions::action_views(steps@) =~= clearing_steps(
            self@.layout,
            self@.records.take(0),
        ));
        while i < count
            invariant
                i <= count == self.records@.len(),
                *self == *old(self),
                actions::action_views(steps@) == clearing_steps(
                    self@.layout,
                    self@.records.take(i as int),
                ),
            decreases count - i,
        {
            let record = self.records[i].clone();
            self.push_removal(&mut steps, record);
            i += 1;
            assert(self@.records.take(i as int).drop_last() == self@.records.take(i - 1));
        }
        assert(self@.records.take(count as int) == self@.records);
        self.records.clear();
        assert(self@ =~= old(self)@.with_records(Seq::empty()));
        steps
    }

    /// Moves an item to another place, and says whether that changed anything.
    pub fn move_record(&mut self, from_index: usize, target_index: usize) -> (result: Result<
        bool,
        StoreError,
    >)
        ensures
            from_index >= old(self)@.records.len() ==> {
                &&& result matches Err(error) && error@ == records::index_error(
                    ErrorKind::NoItemAt,
                    from_index,
                )
                &&& final(self)@ == old(self)@
            },
            from_index < old(self)@.records.len() && target_index >= old(self)@.records.len() ==> {
                &&& result matches Err(error) && error@ == records::index_error(
                    ErrorKind::NoItemAt,
                    target_index,
                )
                &&& final(self)@ == old(self)@
            },
            from_index < old(self)@.records.len() && target_index < old(self)@.records.len() ==> {
                &&& result == Ok::<bool, StoreError>(from_index != target_index)
                &&& final(self)@ == old(self)@.with_records(
                    moved(old(self)@.records, from_index as int, target_index as int),
                )
                &&& final(self)@.records[target_index as int]
                    == old(self)@.records[from_index as int]
                &&& final(self)@.records.remove(target_index as int) == old(self)@.records.remove(
                    from_index as int,
                )
            },
    {
        proof {
            if from_index < self@.records.len() && target_index < self@.records.len() {
                let after = moved(self@.records, from_index as int, target_index as int);
                assert(after.remove(target_index as int) =~= self@.records.remove(
                    from_index as int,
                ));
            }
        }
        if from_index >= self.records.len() {
            return Err(StoreError::of_index(ErrorKind::NoItemAt, from_index));
        }
        if target_index >= self.records.len() {
            return Err(StoreError::of_index(ErrorKind::NoItemAt, target_index));
        }
        if from_index == target_index {
            assert(self@.records =~= moved(
                old(self)@.records,
                from_index as int,
                target_index as int,
            ));
            assert(self@ =~= old(self)@.with_records(self@.records));
            return Ok(false);
        }
        let record = self.records.remove(from_index);
        self.records.insert(target_index, record);
        assert(self@.records =~= moved(old(self)@.records, from_index as int, target_index as int));
        Ok(true)
    }
}

// ---------------------------------------------------------------------------
// Handing items out
// ---------------------------------------------------------------------------

/// What goes to the clipboard for an item.
#[derive(Debug)]
pub enum ClipboardPayload {
    /// The text that the file holds.
    TextOfFile { path: FilePath },
    /// The text itself.
    Text { text: String },
    /// The file, as an entry of a file list.
    FileList { path: FilePath },
    /// The image that the file decodes to.
    ImageOfFile { path: FilePath },
}

#[verifier::ext_equal]
pub enum PayloadView {
    TextOfFile { path: PathView },
    Text { text: Seq<char> },
    FileList { path: PathView },
    ImageOfFile { path: PathView },
}

impl View for ClipboardPayload {
    type V = PayloadView;

    open spec fn view(&self) -> PayloadView {
        match *self {
            ClipboardPayload::TextOfFile { path } => PayloadView::TextOfFile { path: path@ },
            ClipboardPayload::Text { text } => PayloadView::Text { text: text@ },
            ClipboardPayload::FileList { path } => PayloadView::FileList { path: path@ },
            ClipboardPayload::ImageOfFile { path } => PayloadView::ImageOfFile { path: path@ },
        }
    }
}

/// What goes to the clipboard for an item: the contents of a text; of the others
/// the file if it is referred to, and otherwise its path or its image.
pub open spec fn payload_of(record: RecordView) -> PayloadView {
    let path = record.original_path;
    match record.kind {
        StoredImageKind::Text => PayloadView::TextOfFile { path },
        StoredImageKind::File => if record.reference_path is Some {
            PayloadView::FileList { path }
        } else {
            PayloadView::Text { text: path.text }
        },
        StoredImageKind::Gif | StoredImageKind::Raster => if record.reference_path is Some {
            PayloadView::FileList { path }
        } else {
            PayloadView::ImageOfFile { path }
        },
    }
}

/// The systems whose file managers are known.
#[derive(Clone, Copy, Debug, PartialEq, Eq, Structural)]
pub enum Platform {
    MacOs,
    Windows,
    OtherUnix,
    Unknown,
}

/// What a file manager is asked to show.
#[derive(Clone, Copy, Debug, PartialEq, Eq, Structural)]
pub enum RevealTarget {
    /// The item itself.
    Item,
    /// The directory that holds the item, or the item where there is none.
    Parent,
}

/// A program to run, with some arguments and then the target.
#[derive(Debug)]
pub struct RevealRequest {
    pub program: String,
    pub arguments: Vec<String>,
    pub path: FilePath,
    pub target: RevealTarget,
}

#[verifier::ext_equal]
pub struct RevealView {
    pub program: Seq<char>,
    pub arguments: Seq<Seq<char>>,
    pub path: PathView,
    pub target: RevealTarget,
}

impl View for RevealRequest {
    type V = RevealView;

    open spec fn view(&self) -> RevealView {
        RevealView {
            program: self.program@,
            arguments: self.arguments@.map_values(|argument: String| argument@),
            path: self.path@,
            target: self.target,
        }
    }
}

/// How the file manager of a system shows a file.
pub open spec fn revealing(platform: Platform, path: PathView) -> Result<RevealView, ErrorView> {
    match platform {
        Platform::MacOs => Ok(
            RevealView {
                program: "open"@,
                arguments: seq!["-R"@],
                path,
                target: RevealTarget::Item,
            },
        ),
        Platform::Windows => Ok(
            RevealView {
                program: "explorer"@,
                arguments: seq!["/select,"@],
                path,
                target: RevealTarget::Item,
            },
        ),
        Platform::OtherUnix => Ok(
            RevealView {
                program: "xdg-open"@,
                arguments: Seq::empty(),
                path,
                target: RevealTarget::Parent,
            },
        ),
        Platform::Unknown => Err(records::bare_error(ErrorKind::RevealUnsupported)),
    }
}

impl RevealView {
    /// What is said of the target where it could not be shown.
    pub open spec fn failure(self, cause: Option<Seq<char>>) -> ErrorView {
        match self.target {
            RevealTarget::Item => ErrorView {
                kind: ErrorKind::RevealFailed,
                subject: self.path.text,
                cause,
            },
            RevealTarget::Parent => ErrorView {
                kind: ErrorKind::OpenFailed,
                subject: text_or(self.path.parent, self.path.text),
                cause,
            },
        }
    }

    /// What revealing comes to: the program was run and succeeded, or it was run
    /// and did not, or it could not be run.
    pub open spec fn outcome(self, ran: Result<bool, String>) -> Result<(), ErrorView> {
        match ran {
            Ok(true) => Ok(()),
            Ok(false) => Err(self.failure(None)),
            Err(cause) => Err(self.failure(Some(cause@))),
        }
    }
}

impl RevealRequest {
    fn failure(&self, cause: Option<String>) -> (error: StoreError)
        ensures
            error@ == self@.failure(text::text_option(cause)),
    {
        match self.target {
            RevealTarget::Item => StoreError {
                kind: ErrorKind::RevealFailed,
                subject: self.path.text.clone(),
                cause,
            },
            RevealTarget::Parent => StoreError {
                kind: ErrorKind::OpenFailed,
                subject: match &self.path.parent {
                    Some(parent) => parent.clone(),
                    None => self.path.text.clone(),
                },
                cause,
            },
        }
    }

    /// What revealing comes to, given whether the program succeeded, or why it
    /// could not be run.
    pub fn outcome(&self, ran: Result<bool, String>) -> (outcome: Result<(), StoreError>)
        ensures
            match outcome {
                Ok(()) => self@.outcome(ran) is Ok,
                Err(error) => self@.outcome(ran) == Err::<(), ErrorView>(error@),
            },
            outcome is Ok <==> ran == Ok::<bool, String>(true),
            outcome matches Err(error) ==> {
                &&& self.target == RevealTarget::Item ==> error.kind == ErrorKind::RevealFailed
                    && error@.subject == self@.path.text
                &&& self.target == RevealTarget::Parent ==> error.kind == ErrorKind::OpenFailed
                    && error@.subject == match self@.path.parent {
                    Some(parent) => parent,
                    None => self@.path.text,
                }
                &&& ran matches Err(cause) ==> error@.cause == Some(cause@)
                &&& ran is Ok ==> error@.cause is None
            },
    {
        match ran {
            Ok(true) => Ok(()),
            Ok(false) => Err(self.failure(None)),
            Err(cause) => Err(self.failure(Some(cause))),
        }
    }
}

pub open spec fn reveal_result(result: Result<RevealRequest, StoreError>) -> Result<
    RevealView,
    ErrorView,
> {
    match result {
        Ok(request) => Ok(request@),
        Err(error) => Err(error@),
    }
}

impl StoredImage {
    /// The file that a preview is decoded from, where the item has one.
    pub fn preview_rgba(&self) -> (source: Result<FilePath, StoreError>)
        ensures
            match source {
                Ok(path) => (self.kind == StoredImageKind::Raster || self.kind
                    == StoredImageKind::Gif) && path@ == self@.original_path,
                Err(error) => (self.kind == StoredImageKind::Text || self.kind
                    == StoredImageKind::File) && error@ == records::bare_error(
                    ErrorKind::NoPreview,
                ),
            },
    {
        match self.kind {
            StoredImageKind::Raster | StoredImageKind::Gif => Ok(self.original_path.clone()),
            StoredImageKind::Text | StoredImageKind::File => Err(
                StoreError::bare(ErrorKind::NoPreview),
            ),
        }
    }
}

/// How the file manager of a system shows a file.
pub fn reveal_path_in_file_manager(platform: Platform, path: FilePath) -> (request: Result<
    RevealRequest,
    StoreError,
>)
    ensures
        reveal_result(request) == revealing(platform, path@),
        platform == Platform::Unknown <==> request is Err,
        request matches Ok(request) ==> {
            &&& request@.path == path@
            &&& platform == Platform::MacOs ==> request.program@ == "open"@ && request@.arguments
                == seq!["-R"@] && request.target == RevealTarget::Item
            &&& platform == Platform::Windows ==> request.program@ == "explorer"@
                && request@.arguments == seq!["/select,"@] && request.target == RevealTarget::Item
            &&& platform == Platform::OtherUnix ==> request.program@ == "xdg-open"@
                && request@.arguments.len() == 0 && request.target == RevealTarget::Parent
        },
        request matches Err(error) ==> error.kind == ErrorKind::RevealUnsupported,
{
    let mut arguments: Vec<String> = Vec::new();
    let (program, target) = match platform {
        Platform::MacOs => {
            arguments.push("-R".to_owned());
            ("open", RevealTarget::Item)
        },
        Platform::Windows => {
            arguments.push("/select,".to_owned());
            ("explorer", RevealTarget::Item)
        },
        Platform::OtherUnix => ("xdg-open", RevealTarget::Parent),
        Platform::Unknown => {
            return Err(StoreError::bare(ErrorKind::RevealUnsupported));
        },
    };
    let request = RevealRequest { program: program.to_owned(), arguments, path, target };
    assert(request@.arguments =~= revealing(platform, path@)->Ok_0.arguments);
    Ok(request)
}

/// An item that is only referred to goes to the clipboard as the file it is, of
/// whichever kind it is, except for a text, which goes there as its contents; an image
/// goes there as such only where the store itself keeps it.
pub proof fn law_payload(record: RecordView)
    ensures
        ({
            let path = record.original_path;
            let payload = payload_of(record);
            &&& record.kind == StoredImageKind::Text ==> payload == (PayloadView::TextOfFile {
                path,
            })
            &&& record.kind != StoredImageKind::Text && record.reference_path is Some ==> payload
                == (PayloadView::FileList { path })
            &&& payload is ImageOfFile ==> record.reference_path is None && (record.kind
                == StoredImageKind::Raster || record.kind == StoredImageKind::Gif)
            &&& record.reference_path is None && (record.kind == StoredImageKind::Raster
                || record.kind == StoredImageKind::Gif) ==> payload == (PayloadView::ImageOfFile {
                path,
            })
            &&& record.kind == StoredImageKind::File && record.reference_path is None ==> payload
                == (PayloadView::Text { text: path.text })
        }),
{
}

impl ImageStore {
    /// What goes to the clipboard for the item of that index.
    pub fn copy_to_clipboard(&self, index: usize) -> (payload: Result<
        ClipboardPayload,
        StoreError,
    >)
        ensures
            match payload {
                Ok(payload) => index < self@.records.len() && payload@ == payload_of(
                    self@.records[index as int],
                ),
                Err(error) => index >= self@.records.len() && error@ == records::index_error(
                    ErrorKind::NoImageAt,
                    index,
                ),
            },
            payload matches Ok(payload) ==> {
                let record = self@.records[index as int];
                let path = record.original_path;
                &&& record.kind == StoredImageKind::Text <==> payload is TextOfFile
                &&& record.kind != StoredImageKind::Text && record.reference_path is Some
                    <==> payload is FileList
                &&& payload is ImageOfFile <==> record.reference_path is None && (record.kind
                    == StoredImageKind::Raster || record.kind == StoredImageKind::Gif)
                &&& payload is Text <==> record.reference_path is None && record.kind
                    == StoredImageKind::File
                &&& payload@ == (PayloadView::TextOfFile { path }) || payload@ == (
                PayloadView::FileList { path }) || payload@ == (PayloadView::ImageOfFile { path })
                    || payload@ == (PayloadView::Text { text: path.text })
            },
    {
        if index >= self.records.len() {
            return Err(StoreError::of_index(ErrorKind::NoImageAt, index));
        }
        let record = &self.records[index];
        let path = record.original_path.clone();
        match record.kind {
            StoredImageKind::Text => Ok(ClipboardPayload::TextOfFile { path }),
            StoredImageKind::File => {
                if record.reference_path.is_some() {
                    Ok(ClipboardPayload::FileList { path })
                } else {
                    Ok(ClipboardPayload::Text { text: path.text })
                }
            },
            StoredImageKind::Gif | StoredImageKind::Raster => {
                if record.reference_path.is_some() {
                    Ok(ClipboardPayload::FileList { path })
                } else {
                    Ok(ClipboardPayload::ImageOfFile { path })
                }
            },
        }
    }

    /// What goes to the clipboard for the most recent item, if there is one.
    pub fn copy_latest_to_clipboard(&self) -> (payload: Option<ClipboardPayload>)
        ensures
            match payload {
                Some(payload) => self@.records.len() > 0 && payload@ == payload_of(
                    self@.records[0],
                ),
                None => self@.records.len() == 0,
            },
            payload matches Some(payload) ==> {
                let record = self@.records[0];
                let path = record.original_path;
                &&& record.kind == StoredImageKind::Text ==> payload@ == (
                PayloadView::TextOfFile { path })
                &&& record.kind != StoredImageKind::Text && record.reference_path is Some
                    ==> payload@ == (PayloadView::FileList { path })
                &&& record.kind == StoredImageKind::File && record.reference_path is None
                    ==> payload@ == (PayloadView::Text { text: path.text })
                &&& record.kind != StoredImageKind::Text && record.kind != StoredImageKind::File
                    && record.reference_path is None ==> payload@ == (PayloadView::ImageOfFile {
                    path,
                })
            },
    {
        if self.records.is_empty() {
            return None;
        }
        match self.copy_to_clipboard(0) {
            Ok(payload) => Some(payload),
            Err(_) => None,
        }
    }

    fn item_path(&self, index: usize) -> (path: Result<FilePath, StoreError>)
        ensures
            match path {
                Ok(path) => index < self@.records.len() && path@
                    == self@.records[index as int].original_path,
                Err(error) => index >= self@.records.len() && error@ == records::index_error(
                    ErrorKind::NoItemAt,
                    index,
                ),
            },
    {
        if index >= self.records.len() {
            return Err(StoreError::of_index(ErrorKind::NoItemAt, index));
        }
        Ok(self.records[index].original_path.clone())
    }

    /// The file that is dragged out for the item of that index.
    pub fn drag_path(&self, index: usize) -> (path: Result<FilePath, StoreError>)
        ensures
            match path {
                Ok(path) => index < self@.records.len() && path@
                    == self@.records[index as int].original_path,
                Err(error) => index >= self@.records.len() && error@ == records::index_error(
                    ErrorKind::NoItemAt,
                    index,
                ),
            },
    {
        self.item_path(index)
    }

    /// The file to open for the item of that index.
    pub fn open_in_associated_app(&self, index: usize) -> (path: Result<FilePath, StoreError>)
        ensures
            match path {
                Ok(path) => index < self@.records.len() && path@
                    == self@.records[index as int].original_path,
                Err(error) => index >= self@.records.len() && error@ == records::index_error(
                    ErrorKind::NoItemAt,
                    index,
                ),
            },
    {
        self.item_path(index)
    }

    /// How the file manager of a system shows the item of that index.
    pub fn reveal_in_file_manager(&self, index: usize, platform: Platform) -> (request: Result<
        RevealRequest,
        StoreError,
    >)
        ensures
            reveal_result(request) == (if index < self@.records.len() {
                revealing(platform, self@.records[index as int].original_path)
            } else {
                Err(records::index_error(ErrorKind::NoItemAt, index))
            }),
    {
        match self.item_path(index) {
            Ok(path) => reveal_path_in_file_manager(platform, path),
            Err(error) => Err(error),
        }
    }

    /// The stored items, the most recent one first.
    pub fn records(&self) -> (records: &Vec<StoredImage>)
        ensures
            records::record_views(records@) == self@.records,
    {
        &self.records
    }

    /// The directory of the store.
    pub fn root(&self) -> (root: &FilePath)
        ensures
            root@ == self@.layout.root,
    {
        &self.layout.root
    }

    /// Where the files of the store lie.
    pub fn layout(&self) -> (layout: &StoreLayout)
        ensures
            layout@ == self@.layout,
    {
        &self.layout
    }
}

} // verus!
