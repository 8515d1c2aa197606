//! The tiles of the gallery: their images, the animations among them, and which
//! tiles are kept when the stored items change.

use vstd::prelude::*;
use vstd::string::*;

use crate::pixels::{PixelsView, RgbaPixels};
use crate::records::{equal_records, RecordView, StoredImage, StoredImageKind};
use crate::text::same_text;
use crate::tiles::{caption, Caption, CaptionView};
use crate::{records, store, tiles};

verus! {

broadcast use vstd::string::group_string_axioms;

// ---------------------------------------------------------------------------
// Animations
// ---------------------------------------------------------------------------

/// The shortest time that a frame is shown, in nanoseconds.
pub const SHORTEST_DELAY: u64 = 50_000_000;

/// How long a frame is shown, in nanoseconds, given its delay in milliseconds as
/// a fraction.
pub open spec fn frame_delay(numerator: u32, denominator: u32) -> int {
    let nanos = (numerator * 1_000_000) / (if denominator == 0 {
        1
    } else {
        denominator as int
    });
    if nanos < SHORTEST_DELAY {
        SHORTEST_DELAY as int
    } else {
        nanos
    }
}

/// How long a frame is shown, in nanoseconds, given its delay in milliseconds as
/// a fraction.
pub fn normalized_gif_delay(numerator: u32, denominator: u32) -> (delay: u64)
    ensures
        delay == frame_delay(numerator, denominator),
        delay >= SHORTEST_DELAY,
{
    let divisor: u64 = if denominator == 0 {
        1
    } else {
        denominator as u64
    };
    let nanos: u64 = (numerator as u64 * 1_000_000) / divisor;
    if nanos < SHORTEST_DELAY {
        SHORTEST_DELAY
    } else {
        nanos
    }
}

/// A frame as it is shown, and for how many nanoseconds.
#[derive(Debug)]
pub struct AnimatedFrame {
    pub image: RgbaPixels,
    pub delay: u64,
}

/// An animation that is being shown. Times are nanoseconds since the application
/// started.
#[derive(Debug)]
pub struct AnimatedPreview {
    pub frames: Vec<AnimatedFrame>,
    pub current_frame: usize,
    pub next_frame_at: u128,
}

#[verifier::ext_equal]
pub struct FrameView {
    pub image: PixelsView,
    pub delay: u64,
}

#[verifier::ext_equal]
pub struct AnimationView {
    pub frames: Seq<FrameView>,
    pub current_frame: int,
    pub next_frame_at: int,
}

impl View for AnimatedFrame {
    type V = FrameView;

    open spec fn view(&self) -> FrameView {
        FrameView { image: self.image@, delay: self.delay }
    }
}

pub open spec fn frame_views(frames: Seq<AnimatedFrame>) -> Seq<FrameView> {
    frames.map_values(|frame: AnimatedFrame| frame@)
}

impl View for AnimatedPreview {
    type V = AnimationView;

    open spec fn view(&self) -> AnimationView {
        AnimationView {
            frames: frame_views(self.frames@),
            current_frame: self.current_frame as int,
            next_frame_at: self.next_frame_at as int,
        }
    }
}

impl AnimationView {
    /// Whether there is a frame to show and each frame is shown for some time.
    pub open spec fn playable(self) -> bool {
        &&& 0 <= self.current_frame < self.frames.len()
        &&& forall|i: int| 0 <= i < self.frames.len() ==> (#[trigger] self.frames[i]).delay > 0
    }

    /// The animation one frame later. After the last frame comes the first.
    pub open spec fn stepped(self) -> AnimationView {
        let frame = (self.current_frame + 1) % (self.frames.len() as int);
        AnimationView {
            frames: self.frames,
            current_frame: frame,
            next_frame_at: self.next_frame_at + self.frames[frame].delay,
        }
    }

    /// How far the animation is behind.
    pub open spec fn lag(self, now: u64) -> nat {
        if self.next_frame_at <= now {
            (now - self.next_frame_at + 1) as nat
        } else {
            0
        }
    }

    /// The animation as it is at the time `now`.
    pub open spec fn advanced(self, now: u64) -> AnimationView
        decreases self.lag(now),
    {
        if self.playable() && self.next_frame_at <= now {
            self.stepped().advanced(now)
        } else {
            self
        }
    }
}

/// An animation at the time `now` waits for a time to come; it still has the
/// same frames and shows one of them.
pub proof fn law_advanced(animation: AnimationView, now: u64)
    requires
        animation.playable(),
    ensures
        animation.advanced(now).next_frame_at > now,
        animation.advanced(now).frames == animation.frames,
        animation.advanced(now).playable(),
    decreases animation.lag(now),
{
    if animation.next_frame_at <= now {
        law_advanced(animation.stepped(), now);
    }
}

/// It makes no difference how often an animation is brought up to date.
pub proof fn law_advanced_twice(animation: AnimationView, early: u64, late: u64)
    requires
        animation.playable(),
        early <= late,
    ensures
        animation.advanced(early).advanced(late) == animation.advanced(late),
    decreases animation.lag(early),
{
    if animation.next_frame_at <= early {
        law_advanced_twice(animation.stepped(), early, late);
    }
}

impl Clone for AnimatedFrame {
    fn clone(&self) -> (copy: Self)
        ensures
            copy@ == self@,
    {
        AnimatedFrame { image: self.image.clone(), delay: self.delay }
    }
}

impl Clone for AnimatedPreview {
    fn clone(&self) -> (copy: Self)
        ensures
            copy@ == self@,
    {
        let mut frames: Vec<AnimatedFrame> = Vec::new();
        let mut i: usize = 0;
        while i < self.frames.len()
            invariant
                i <= self.frames@.len(),
                frames@.len() == i,
                forall|j: int| 0 <= j < i ==> (#[trigger] frames@[j])@ == self.frames@[j]@,
            decreases self.frames@.len() - i,
        {
            frames.push(self.frames[i].clone());
            i += 1;
        }
        assert(frame_views(frames@) =~= frame_views(self.frames@));
        AnimatedPreview {
            frames,
            current_frame: self.current_frame,
            next_frame_at: self.next_frame_at,
        }
    }
}

impl AnimatedPreview {
    /// Brings the animation up to date, and says whether another frame is shown
    /// or the same one again.
    pub fn advance(&mut self, now: u64) -> (changed: bool)
        requires
            old(self)@.playable(),
        ensures
            final(self)@ == old(self)@.advanced(now),
            changed == (old(self)@.next_frame_at <= now),
    {
        let mut changed = false;
        while self.next_frame_at <= now as u128
            invariant
                self@.playable(),
                self@.advanced(now) == old(self)@.advanced(now),
                changed ==> old(self)@.next_frame_at <= now,
                !changed ==> self@ == old(self)@,
            decreases self@.lag(now),
        {
            let ghost before = self@;
            assert(self.current_frame < self.frames@.len());
            let next: usize = if self.current_frame < self.frames.len() - 1 {
                self.current_frame + 1
            } else {
                0
            };
            assert(next == (before.current_frame + 1) % (before.frames.len() as int)) by {
                if before.current_frame + 1 < before.frames.len() {
                    vstd::arithmetic::div_mod::lemma_small_mod(
                        (before.current_frame + 1) as nat,
                        before.frames.len(),
                    );
                } else {
                    vstd::arithmetic::div_mod::lemma_mod_self_0(before.frames.len() as int);
                }
            }
            let delay: u64 = self.frames[next].delay;
            assert(delay == before.frames[next as int].delay);
            self.current_frame = next;
            self.next_frame_at = self.next_frame_at + delay as u128;
            assert(self@ =~= before.stepped());
            changed = true;
        }
        changed
    }
}

/// A frame as it was decoded, with its delay in milliseconds as a fraction.
#[derive(Debug)]
pub struct DecodedFrame {
    pub image: RgbaPixels,
    pub numerator: u32,
    pub denominator: u32,
}

#[verifier::ext_equal]
pub struct DecodedView {
    pub image: PixelsView,
    pub numerator: u32,
    pub denominator: u32,
}

impl View for DecodedFrame {
    type V = DecodedView;

    open spec fn view(&self) -> DecodedView {
        DecodedView {
            image: self.image@,
            numerator: self.numerator,
            denominator: self.denominator,
        }
    }
}

pub open spec fn decoded_views(frames: Seq<DecodedFrame>) -> Seq<DecodedView> {
    frames.map_values(|frame: DecodedFrame| frame@)
}

/// Whether the frames can be scaled to the size in which they are shown.
pub open spec fn showable_frames(frames: Seq<DecodedView>) -> bool {
    forall|i: int| 0 <= i < frames.len() ==> (#[trigger] frames[i]).image.showable()
}

/// The frames as they are shown.
pub open spec fn shown_frames(frames: Seq<DecodedView>) -> Seq<FrameView> {
    frames.map_values(
        |frame: DecodedView|
            FrameView {
                image: frame.image.frame(),
                delay: frame_delay(frame.numerator, frame.denominator) as u64,
            },
    )
}

/// The animation of some frames, from the first one on. One frame alone makes no
/// animation.
pub open spec fn animation_of(frames: Seq<DecodedView>, now: u64) -> Option<AnimationView> {
    if frames.len() < 2 {
        None
    } else {
        Some(
            AnimationView {
                frames: shown_frames(frames),
                current_frame: 0,
                next_frame_at: now + shown_frames(frames)[0].delay,
            },
        )
    }
}

pub open spec fn animation_option(animation: Option<AnimatedPreview>) -> Option<AnimationView> {
    match animation {
        Some(animation) => Some(animation@),
        None => None,
    }
}

/// The animation of some frames, from the first one on.
pub fn load_animated_preview(frames: &Vec<DecodedFrame>, now: u64) -> (animation: Option<
    AnimatedPreview,
>)
    requires
        showable_frames(decoded_views(frames@)),
    ensures
        animation_option(animation) == animation_of(decoded_views(frames@), now),
        animation matches Some(animation) ==> animation@.playable(),
{
    if frames.len() < 2 {
        return None;
    }
    let ghost decoded = decoded_views(frames@);
    let mut shown: Vec<AnimatedFrame> = Vec::new();
    let mut i: usize = 0;
    while i < frames.len()
        invariant
            i <= frames@.len(),
            decoded == decoded_views(frames@),
            showable_frames(decoded),
            shown@.len() == i,
            forall|j: int|
                0 <= j < i ==> (#[trigger] shown@[j])@ == shown_frames(decoded)[j] && shown@[j].delay
                    > 0,
        decreases frames@.len() - i,
    {
        let frame = &frames[i];
        assert(decoded[i as int] == frame@);
        let delay: u64 = normalized_gif_delay(frame.numerator, frame.denominator);
        shown.push(AnimatedFrame { image: frame.image.frame(), delay });
        i += 1;
    }
    let first_delay: u64 = shown[0].delay;
    assert(frame_views(shown@) =~= shown_frames(decoded));
    Some(
        AnimatedPreview {
            frames: shown,
            current_frame: 0,
            next_frame_at: now as u128 + first_delay as u128,
        },
    )
}

// ---------------------------------------------------------------------------
// Tiles
// ---------------------------------------------------------------------------

/// The image of a tile.
#[derive(Debug)]
pub enum CachedTileImage {
    /// An image that does not move, if there is one.
    Static(Option<RgbaPixels>),
    Animated(AnimatedPreview),
}

#[verifier::ext_equal]
pub enum TileImageView {
    Static(Option<PixelsView>),
    Animated(AnimationView),
}

pub open spec fn image_option(image: Option<RgbaPixels>) -> Option<PixelsView> {
    match image {
        Some(image) => Some(image@),
        None => None,
    }
}

impl View for CachedTileImage {
    type V = TileImageView;

    open spec fn view(&self) -> TileImageView {
        match *self {
            CachedTileImage::Static(image) => TileImageView::Static(image_option(image)),
            CachedTileImage::Animated(animation) => TileImageView::Animated(animation@),
        }
    }
}

fn copy_image(image: &Option<RgbaPixels>) -> (copy: Option<RgbaPixels>)
    ensures
        image_option(copy) == image_option(*image),
{
    match image {
        Some(image) => Some(image.clone()),
        None => None,
    }
}

impl Clone for CachedTileImage {
    fn clone(&self) -> (copy: Self)
        ensures
            copy@ == self@,
    {
        match self {
            CachedTileImage::Static(image) => CachedTileImage::Static(copy_image(image)),
            CachedTileImage::Animated(animation) => CachedTileImage::Animated(animation.clone()),
        }
    }
}

/// The tile of an item.
#[derive(Debug)]
pub struct CachedTile {
    pub caption: Caption,
    pub is_text: bool,
    pub is_file: bool,
    pub has_thumbnail: bool,
    pub image: CachedTileImage,
}

#[verifier::ext_equal]
pub struct TileView {
    pub caption: CaptionView,
    pub is_text: bool,
    pub is_file: bool,
    pub has_thumbnail: bool,
    pub image: TileImageView,
}

impl View for CachedTile {
    type V = TileView;

    open spec fn view(&self) -> TileView {
        TileView {
            caption: self.caption@,
            is_text: self.is_text,
            is_file: self.is_file,
            has_thumbnail: self.has_thumbnail,
            image: self.image@,
        }
    }
}

impl Clone for CachedTile {
    fn clone(&self) -> (copy: Self)
        ensures
            copy@ == self@,
    {
        CachedTile {
            caption: self.caption.clone(),
            is_text: self.is_text,
            is_file: self.is_file,
            has_thumbnail: self.has_thumbnail,
            image: self.image.clone(),
        }
    }
}

/// A tile as it is shown.
#[derive(Debug)]
pub struct ImageTile {
    pub caption: Caption,
    pub is_text: bool,
    pub is_file: bool,
    pub has_thumbnail: bool,
    pub thumbnail: Option<RgbaPixels>,
}

#[verifier::ext_equal]
pub struct ShownTileView {
    pub caption: CaptionView,
    pub is_text: bool,
    pub is_file: bool,
    pub has_thumbnail: bool,
    pub thumbnail: Option<PixelsView>,
}

impl View for ImageTile {
    type V = ShownTileView;

    open spec fn view(&self) -> ShownTileView {
        ShownTileView {
            caption: self.caption@,
            is_text: self.is_text,
            is_file: self.is_file,
            has_thumbnail: self.has_thumbnail,
            thumbnail: image_option(self.thumbnail),
        }
    }
}

impl TileView {
    /// Whether the image, if it is an animation, can be played.
    pub open spec fn playable(self) -> bool {
        self.image matches TileImageView::Animated(animation) ==> animation.playable()
    }

    /// Whether another frame is due.
    pub open spec fn due(self, now: u64) -> bool {
        self.image matches TileImageView::Animated(animation) && animation.next_frame_at <= now
    }

    /// The tile as it is at the time `now`.
    pub open spec fn advanced(self, now: u64) -> TileView {
        match self.image {
            TileImageView::Static(_) => self,
            TileImageView::Animated(animation) => TileView {
                image: TileImageView::Animated(animation.advanced(now)),
                ..self
            },
        }
    }

    /// The image that the tile shows.
    pub open spec fn current_image(self) -> Option<PixelsView> {
        match self.image {
            TileImageView::Static(image) => image,
            TileImageView::Animated(animation) => Some(
                animation.frames[animation.current_frame].image,
            ),
        }
    }

    /// The tile as it is shown.
    pub open spec fn rendered(self) -> ShownTileView {
        ShownTileView {
            caption: self.caption,
            is_text: self.is_text,
            is_file: self.is_file,
            has_thumbnail: self.has_thumbnail,
            thumbnail: self.current_image(),
        }
    }
}

impl CachedTile {
    /// The tile as it is shown.
    pub fn render(&self) -> (tile: ImageTile)
        requires
            self@.playable(),
        ensures
            tile@ == self@.rendered(),
    {
        ImageTile {
            caption: self.caption.clone(),
            is_text: self.is_text,
            is_file: self.is_file,
            has_thumbnail: self.has_thumbnail,
            thumbnail: self.current_image(),
        }
    }

    fn current_image(&self) -> (image: Option<RgbaPixels>)
        requires
            self@.playable(),
        ensures
            image_option(image) == self@.current_image(),
    {
        match &self.image {
            CachedTileImage::Static(image) => copy_image(image),
            CachedTileImage::Animated(animation) => {
                Some(animation.frames[animation.current_frame].image.clone())
            },
        }
    }

    /// Brings the tile up to date, and says whether another frame was due.
    fn advance(&mut self, now: u64) -> (changed: bool)
        requires
            old(self)@.playable(),
        ensures
            final(self)@ == old(self)@.advanced(now),
            changed == old(self)@.due(now),
    {
        match &mut self.image {
            CachedTileImage::Static(_) => false,
            CachedTileImage::Animated(animation) => animation.advance(now),
        }
    }
}

/// What the disk holds for the tile of an item.
#[derive(Debug)]
pub struct PreviewSource {
    /// Whether the thumbnail of the item is a regular file.
    pub thumbnail_is_file: bool,
    /// The thumbnail, if it could be decoded.
    pub thumbnail: Option<RgbaPixels>,
    /// The image that the item is, if it could be decoded.
    pub original: Option<RgbaPixels>,
    /// The frames of the item, if they could be decoded.
    pub frames: Option<Vec<DecodedFrame>>,
}

#[verifier::ext_equal]
pub struct PreviewSourceView {
    pub thumbnail_is_file: bool,
    pub thumbnail: Option<PixelsView>,
    pub original: Option<PixelsView>,
    pub frames: Option<Seq<DecodedView>>,
}

impl View for PreviewSource {
    type V = PreviewSourceView;

    open spec fn view(&self) -> PreviewSourceView {
        PreviewSourceView {
            thumbnail_is_file: self.thumbnail_is_file,
            thumbnail: image_option(self.thumbnail),
            original: image_option(self.original),
            frames: match self.frames {
                Some(frames) => Some(decoded_views(frames@)),
                None => None,
            },
        }
    }
}

impl PreviewSourceView {
    /// Whether the frames, if there are any, can be scaled.
    pub open spec fn showable(self) -> bool {
        self.frames matches Some(frames) ==> showable_frames(frames)
    }
}

impl PreviewSource {
    /// Nothing on disk.
    pub fn nothing() -> (source: PreviewSource)
        ensures
            source@ == (PreviewSourceView {
                thumbnail_is_file: false,
                thumbnail: None,
                original: None,
                frames: None,
            }),
    {
        PreviewSource { thumbnail_is_file: false, thumbnail: None, original: None, frames: None }
    }

    /// Whether the frames, if there are any, can be scaled.
    pub fn is_showable(&self) -> (yes: bool)
        ensures
            yes == self@.showable(),
    {
        match &self.frames {
            Some(frames) => are_showable(frames),
            None => true,
        }
    }
}

fn are_showable(frames: &Vec<DecodedFrame>) -> (yes: bool)
    ensures
        yes == showable_frames(decoded_views(frames@)),
{
    let ghost decoded = decoded_views(frames@);
    let mut i: usize = 0;
    while i < frames.len()
        invariant
            i <= frames@.len(),
            decoded == decoded_views(frames@),
            forall|j: int| 0 <= j < i ==> (#[trigger] decoded[j]).image.showable(),
        decreases frames@.len() - i,
    {
        assert(decoded[i as int] == frames@[i as int]@);
        if !frames[i].image.is_showable() {
            assert(!decoded[i as int].image.showable());
            return false;
        }
        i += 1;
    }
    true
}

/// The image of a tile that does not move: the thumbnail, or else the item
/// itself if it is an image.
pub open spec fn still_image(record: RecordView, source: PreviewSourceView) -> Option<PixelsView> {
    if record.thumbnail_path is Some && source.thumbnail_is_file && source.thumbnail is Some {
        source.thumbnail
    } else if record.kind == StoredImageKind::Raster || record.kind == StoredImageKind::Gif {
        source.original
    } else {
        None
    }
}

/// The tile of an item.
pub open spec fn tile_of(record: RecordView, source: PreviewSourceView, now: u64) -> TileView {
    let has_thumbnail = record.thumbnail_path is Some && source.thumbnail_is_file;
    let still = TileImageView::Static(still_image(record, source));
    TileView {
        caption: tiles::caption_of(record),
        is_text: record.kind == StoredImageKind::Text,
        is_file: record.kind == StoredImageKind::File,
        has_thumbnail,
        image: match record.kind {
            StoredImageKind::Gif => match source.frames {
                Some(frames) => match animation_of(frames, now) {
                    Some(animation) => TileImageView::Animated(animation),
                    None => still,
                },
                None => still,
            },
            StoredImageKind::Raster => still,
            StoredImageKind::File => if has_thumbnail {
                still
            } else {
                TileImageView::Static(None)
            },
            StoredImageKind::Text => TileImageView::Static(None),
        },
    }
}

/// The image of a tile that does not move.
pub fn load_static_preview_image(record: &StoredImage, source: &PreviewSource) -> (image: Option<
    RgbaPixels,
>)
    ensures
        image_option(image) == still_image(record@, source@),
{
    if record.thumbnail_path.is_some() && source.thumbnail_is_file && source.thumbnail.is_some() {
        return copy_image(&source.thumbnail);
    }
    match record.preview_rgba() {
        Ok(_) => copy_image(&source.original),
        Err(_) => None,
    }
}

/// The tile of an item.
pub fn load_tile_preview(record: &StoredImage, source: &PreviewSource, now: u64) -> (tile:
    CachedTile)
    requires
        record.kind == StoredImageKind::Gif ==> source@.showable(),
    ensures
        tile@ == tile_of(record@, source@, now),
        tile@.playable(),
{
    let has_thumbnail = record.thumbnail_path.is_some() && source.thumbnail_is_file;
    let image = match record.kind {
        StoredImageKind::Gif => {
            let animation = match &source.frames {
                Some(frames) => load_animated_preview(frames, now),
                None => None,
            };
            match animation {
                Some(animation) => CachedTileImage::Animated(animation),
                None => CachedTileImage::Static(load_static_preview_image(record, source)),
            }
        },
        StoredImageKind::Raster => {
            CachedTileImage::Static(load_static_preview_image(record, source))
        },
        StoredImageKind::File => {
            if has_thumbnail {
                CachedTileImage::Static(load_static_preview_image(record, source))
            } else {
                CachedTileImage::Static(None)
            }
        },
        StoredImageKind::Text => CachedTileImage::Static(None),
    };
    CachedTile {
        caption: caption(record),
        is_text: record.kind == StoredImageKind::Text,
        is_file: record.kind == StoredImageKind::File,
        has_thumbnail,
        image,
    }
}

// ---------------------------------------------------------------------------
// The gallery
// ---------------------------------------------------------------------------

/// The items that are shown, and their tiles.
#[derive(Debug)]
pub struct PreviewState {
    pub records: Vec<StoredImage>,
    pub tiles: Vec<CachedTile>,
}

#[verifier::ext_equal]
pub struct PreviewStateView {
    pub records: Seq<RecordView>,
    pub tiles: Seq<TileView>,
}

pub open spec fn tile_views(tiles: Seq<CachedTile>) -> Seq<TileView> {
    tiles.map_values(|tile: CachedTile| tile@)
}

pub open spec fn source_views(sources: Seq<PreviewSource>) -> Seq<PreviewSourceView> {
    sources.map_values(|source: PreviewSource| source@)
}

pub open spec fn shown_views(tiles: Seq<ImageTile>) -> Seq<ShownTileView> {
    tiles.map_values(|tile: ImageTile| tile@)
}

pub open spec fn row_views(rows: Seq<(usize, ImageTile)>) -> Seq<(usize, ShownTileView)> {
    rows.map_values(|row: (usize, ImageTile)| (row.0, row.1@))
}

impl View for PreviewState {
    type V = PreviewStateView;

    open spec fn view(&self) -> PreviewStateView {
        PreviewStateView {
            records: records::record_views(self.records@),
            tiles: tile_views(self.tiles@),
        }
    }
}

impl Default for PreviewState {
    fn default() -> (state: Self)
        ensures
            state@ == (PreviewStateView { records: Seq::empty(), tiles: Seq::empty() }),
    {
        let state = PreviewState { records: Vec::new(), tiles: Vec::new() };
        assert(state@ =~= (PreviewStateView { records: Seq::empty(), tiles: Seq::empty() }));
        state
    }
}

/// The index of the last of the first `count` records that has the hash, or -1
/// if none of them has.
pub open spec fn last_position(records: Seq<RecordView>, hash: Seq<char>, count: int) -> int
    decreases count,
{
    if count <= 0 {
        -1
    } else if records[count - 1].hash == hash {
        count - 1
    } else {
        last_position(records, hash, count - 1)
    }
}

/// The rows whose tiles are due for another frame, among the first `count`.
pub open spec fn due_rows(tiles: Seq<TileView>, now: u64, count: int) -> Seq<usize>
    decreases count,
{
    if count <= 0 {
        Seq::empty()
    } else if tiles[count - 1].due(now) {
        due_rows(tiles, now, count - 1).push((count - 1) as usize)
    } else {
        due_rows(tiles, now, count - 1)
    }
}

impl PreviewStateView {
    /// How many records have a tile.
    pub open spec fn paired(self) -> int {
        if self.records.len() <= self.tiles.len() {
            self.records.len() as int
        } else {
            self.tiles.len() as int
        }
    }

    /// Whether all animations can be played.
    pub open spec fn playable(self) -> bool {
        forall|i: int| 0 <= i < self.tiles.len() ==> (#[trigger] self.tiles[i]).playable()
    }

    /// The tile that is kept for an item: that of an equal record, which is the
    /// last one with its hash.
    pub open spec fn kept_tile(self, record: RecordView) -> Option<TileView> {
        let index = last_position(self.records, record.hash, self.paired());
        if index >= 0 && self.records[index].same(record) {
            Some(self.tiles[index])
        } else {
            None
        }
    }

    /// The tile of an item: the one that is kept, or else one that is loaded.
    pub open spec fn next_tile(
        self,
        record: RecordView,
        source: PreviewSourceView,
        now: u64,
    ) -> TileView {
        match self.kept_tile(record) {
            Some(tile) => tile,
            None => tile_of(record, source, now),
        }
    }

    /// The gallery with other records.
    pub open spec fn synced(
        self,
        records: Seq<RecordView>,
        sources: Seq<PreviewSourceView>,
        now: u64,
    ) -> PreviewStateView {
        PreviewStateView {
            records,
            tiles: Seq::new(
                records.len(),
                |i: int| self.next_tile(records[i], sources[i], now),
            ),
        }
    }

    /// The gallery as it is at the time `now`.
    pub open spec fn advanced(self, now: u64) -> PreviewStateView {
        PreviewStateView {
            records: self.records,
            tiles: self.tiles.map_values(|tile: TileView| tile.advanced(now)),
        }
    }

    /// The rows whose tiles are due for another frame.
    pub open spec fn due(self, now: u64) -> Seq<usize> {
        due_rows(self.tiles, now, self.tiles.len() as int)
    }

    /// The tiles as they are shown.
    pub open spec fn rendered(self) -> Seq<ShownTileView> {
        self.tiles.map_values(|tile: TileView| tile.rendered())
    }
}

/// Whether the tiles of the records can be loaded.
pub open spec fn loadable(records: Seq<RecordView>, sources: Seq<PreviewSourceView>) -> bool {
    &&& sources.len() == records.len()
    &&& forall|i: int|
        0 <= i < records.len() && records[i].kind == StoredImageKind::Gif ==> (
        #[trigger] sources[i]).showable()
}

/// What of the gallery is to be shown anew.
#[derive(Debug)]
pub enum Refresh {
    /// All of it; no item is selected any more.
    All { tiles: Vec<ImageTile> },
    /// Some rows.
    Rows { rows: Vec<(usize, ImageTile)> },
}

impl PreviewState {
    fn last_position(&self, hash: &str) -> (index: Option<usize>)
        ensures
            match index {
                Some(index) => index == last_position(self@.records, hash@, self@.paired())
                    && index < self@.paired(),
                None => last_position(self@.records, hash@, self@.paired()) < 0,
            },
    {
        let mut count: usize = if self.records.len() <= self.tiles.len() {
            self.records.len()
        } else {
            self.tiles.len()
        };
        while count > 0
            invariant
                count <= self@.paired() <= self.records@.len(),
                last_position(self@.records, hash@, self@.paired()) == last_position(
                    self@.records,
                    hash@,
                    count as int,
                ),
            decreases count,
        {
            assert(self@.records[count - 1].hash == self.records@[count - 1].hash@);
            if same_text(self.records[count - 1].hash.as_str(), hash) {
                return Some(count - 1);
            }
            count -= 1;
        }
        None
    }

    fn kept_index(&self, record: &StoredImage) -> (index: Option<usize>)
        ensures
            match index {
                Some(index) => index < self.tiles@.len() && self@.kept_tile(record@) == Some(
                    self.tiles@[index as int]@,
                ),
                None => self@.kept_tile(record@) is None,
            },
    {
        match self.last_position(record.hash.as_str()) {
            Some(index) => {
                assert(self@.records[index as int] == self.records@[index as int]@);
                if self.records[index] == *record {
                    Some(index)
                } else {
                    None
                }
            },
            None => None,
        }
    }

    /// Whether the tile of the item has to be loaded.
    pub fn needs_loading(&self, record: &StoredImage) -> (yes: bool)
        ensures
            yes == (self@.kept_tile(record@) is None),
    {
        match self.kept_index(record) {
            Some(_) => false,
            None => true,
        }
    }

    /// Whether the records are others than those that are shown.
    pub fn differs(&self, records: &Vec<StoredImage>) -> (yes: bool)
        ensures
            yes == !records::same_records(records::record_views(records@), self@.records),
    {
        !equal_records(records, &self.records)
    }

    /// Shows other records. A tile is kept where its record is, and loaded where
    /// it is not.
    pub fn sync(&mut self, records: Vec<StoredImage>, sources: &Vec<PreviewSource>, now: u64)
        requires
            loadable(records::record_views(records@), source_views(sources@)),
        ensures
            final(self)@ == old(self)@.synced(
                records::record_views(records@),
                source_views(sources@),
                now,
            ),
    {
        let ghost views = records::record_views(records@);
        let ghost source_list = source_views(sources@);
        let ghost expected = self@.synced(views, source_list, now).tiles;
        let mut tiles: Vec<CachedTile> = Vec::new();
        let mut i: usize = 0;
        while i < records.len()
            invariant
                i <= records@.len(),
                *self == *old(self),
                views == records::record_views(records@),
                source_list == source_views(sources@),
                loadable(views, source_list),
                expected == self@.synced(views, source_list, now).tiles,
                tiles@.len() == i,
                forall|j: int| 0 <= j < i ==> (#[trigger] tiles@[j])@ == expected[j],
            decreases records@.len() - i,
        {
            assert(views[i as int] == records@[i as int]@);
            assert(source_list[i as int] == sources@[i as int]@);
            let tile = match self.kept_index(&records[i]) {
                Some(index) => self.tiles[index].clone(),
                None => load_tile_preview(&records[i], &sources[i], now),
            };
            assert(tile@ == expected[i as int]);
            tiles.push(tile);
            i += 1;
        }
        assert(tile_views(tiles@) =~= expected);
        self.tiles = tiles;
        self.records = records;
    }

    /// Brings the animations up to date, and says in which rows another frame was
    /// due.
    pub fn advance_animations(&mut self, now: u64) -> (changed_rows: Vec<usize>)
        requires
            old(self)@.playable(),
        ensures
            final(self)@ == old(self)@.advanced(now),
            changed_rows@ == old(self)@.due(now),
    {
        let ghost before = self@;
        let mut changed_rows: Vec<usize> = Vec::new();
        let mut i: usize = 0;
        while i < self.tiles.len()
            invariant
                i <= self.tiles@.len() == before.tiles.len(),
                before.playable(),
                self@.records == before.records,
                forall|j: int|
                    0 <= j < i ==> (#[trigger] self.tiles@[j])@ == before.tiles[j].advanced(now),
                forall|j: int|
                    i <= j < before.tiles.len() ==> (#[trigger] self.tiles@[j])@ == before.tiles[j],
                changed_rows@ == due_rows(before.tiles, now, i as int),
            decreases self.tiles@.len() - i,
        {
            assert(self.tiles@[i as int]@ == before.tiles[i as int]);
            let changed = self.tiles[i].advance(now);
            if changed {
                changed_rows.push(i);
            }
            i += 1;
        }
        assert(self@ =~= before.advanced(now));
        changed_rows
    }

    /// The tiles as they are shown.
    pub fn render_tiles(&self) -> (tiles: Vec<ImageTile>)
        requires
            self@.playable(),
        ensures
            shown_views(tiles@) == self@.rendered(),
    {
        let mut tiles: Vec<ImageTile> = Vec::new();
        let mut i: usize = 0;
        while i < self.tiles.len()
            invariant
                i <= self.tiles@.len(),
                self@.playable(),
                tiles@.len() == i,
                forall|j: int| 0 <= j < i ==> (#[trigger] tiles@[j])@ == self@.tiles[j].rendered(),
            decreases self.tiles@.len() - i,
        {
            assert(self@.tiles[i as int] == self.tiles@[i as int]@);
            tiles.push(self.tiles[i].render());
            i += 1;
        }
        assert(shown_views(tiles@) =~= self@.rendered());
        tiles
    }

    /// The tile of a row as it is shown, if there is such a row.
    pub fn render_tile(&self, index: usize) -> (tile: Option<ImageTile>)
        requires
            self@.playable(),
        ensures
            match tile {
                Some(tile) => index < self@.tiles.len() && tile@
                    == self@.tiles[index as int].rendered(),
                None => index >= self@.tiles.len(),
            },
    {
        if index < self.tiles.len() {
            assert(self@.tiles[index as int] == self.tiles@[index as int]@);
            Some(self.tiles[index].render())
        } else {
            None
        }
    }

    fn render_rows(&self, rows: &Vec<usize>) -> (shown: Vec<(usize, ImageTile)>)
        requires
            self@.playable(),
            forall|i: int| 0 <= i < rows@.len() ==> (#[trigger] rows@[i]) < self@.tiles.len(),
        ensures
            row_views(shown@) == shown_rows(self@.tiles, rows@),
    {
        let mut shown: Vec<(usize, ImageTile)> = Vec::new();
        let mut i: usize = 0;
        while i < rows.len()
            invariant
                i <= rows@.len(),
                self@.playable(),
                forall|j: int| 0 <= j < rows@.len() ==> (#[trigger] rows@[j]) < self@.tiles.len(),
                shown@.len() == i,
                forall|j: int|
                    0 <= j < i ==> (#[trigger] shown@[j]).0 == rows@[j] && shown@[j].1@
                        == self@.tiles[rows@[j] as int].rendered(),
            decreases rows@.len() - i,
        {
            let row: usize = rows[i];
            if let Some(tile) = self.render_tile(row) {
                shown.push((row, tile));
            }
            i += 1;
        }
        assert(row_views(shown@) =~= shown_rows(self@.tiles, rows@));
        shown
    }

    /// Brings the gallery up to date: it shows the records if they are others
    /// than those that are shown, and plays the animations if they are not.
    pub fn refresh_previews(
        &mut self,
        records: Vec<StoredImage>,
        sources: &Vec<PreviewSource>,
        now: u64,
    ) -> (refresh: Refresh)
        requires
            old(self)@.playable(),
            loadable(records::record_views(records@), source_views(sources@)) || records::same_records(
                records::record_views(records@),
                old(self)@.records,
            ),
        ensures
            final(self)@.playable(),
            if records::same_records(records::record_views(records@), old(self)@.records) {
                &&& final(self)@ == old(self)@.advanced(now)
                &&& refresh matches Refresh::Rows { rows } && row_views(rows@) == shown_rows(
                    final(self)@.tiles,
                    old(self)@.due(now),
                )
            } else {
                &&& final(self)@ == old(self)@.synced(
                    records::record_views(records@),
                    source_views(sources@),
                    now,
                )
                &&& refresh matches Refresh::All { tiles } && shown_views(tiles@)
                    == final(self)@.rendered()
            },
    {
        if self.differs(&records) {
            proof {
                law_sync_playable(
                    self@,
                    records::record_views(records@),
                    source_views(sources@),
                    now,
                );
            }
            self.sync(records, sources, now);
            Refresh::All { tiles: self.render_tiles() }
        } else {
            proof {
                law_advance_playable(self@, now);
                assert(self@.tiles.len() == self.tiles.len());
                lemma_due_rows(self@.tiles, now, self@.tiles.len() as int);
            }
            let rows = self.advance_animations(now);
            Refresh::Rows { rows: self.render_rows(&rows) }
        }
    }
}

/// Some rows with their tiles as they are shown.
pub open spec fn shown_rows(tiles: Seq<TileView>, rows: Seq<usize>) -> Seq<(usize, ShownTileView)> {
    rows.map_values(|row: usize| (row, tiles[row as int].rendered()))
}

proof fn lemma_due_rows(tiles: Seq<TileView>, now: u64, count: int)
    requires
        0 <= count <= tiles.len(),
        tiles.len() <= usize::MAX,
    ensures
        forall|i: int|
            0 <= i < due_rows(tiles, now, count).len() ==> (#[trigger] due_rows(
                tiles,
                now,
                count,
            )[i]) < count && tiles[due_rows(tiles, now, count)[i] as int].due(now),
        forall|row: int|
            0 <= row < count && (#[trigger] tiles[row]).due(now) ==> due_rows(
                tiles,
                now,
                count,
            ).contains(row as usize),
    decreases count,
{
    if count > 0 {
        lemma_due_rows(tiles, now, count - 1);
        let before = due_rows(tiles, now, count - 1);
        let all = due_rows(tiles, now, count);
        assert forall|row: int|
            0 <= row < count && (#[trigger] tiles[row]).due(now) implies all.contains(
            row as usize,
        ) by {
            if row < count - 1 {
                assert(before.contains(row as usize));
                let i = choose|i: int| 0 <= i < before.len() && before[i] == row as usize;
                assert(all[i] == row as usize);
            } else {
                assert(all[all.len() - 1] == row as usize);
            }
        }
    }
}

// ---------------------------------------------------------------------------
// Laws
// ---------------------------------------------------------------------------

/// The rows that are shown anew are those of the tiles that were due, and a tile
/// of any other row looks as it did.
pub proof fn law_due(state: PreviewStateView, now: u64, row: usize)
    requires
        row < state.tiles.len() <= usize::MAX,
    ensures
        state.due(now).contains(row) <==> state.tiles[row as int].due(now),
        !state.due(now).contains(row) ==> state.advanced(now).tiles[row as int]
            == state.tiles[row as int],
{
    lemma_due_rows(state.tiles, now, state.tiles.len() as int);
    if state.due(now).contains(row) {
        let i = choose|i: int| 0 <= i < state.due(now).len() && state.due(now)[i] == row;
        assert(state.tiles[state.due(now)[i] as int].due(now));
    }
}

/// Playing the animations leaves them playable, and none of them behind.
pub proof fn law_advance_playable(state: PreviewStateView, now: u64)
    requires
        state.playable(),
    ensures
        state.advanced(now).playable(),
        forall|i: int|
            0 <= i < state.tiles.len() ==> !(#[trigger] state.advanced(now).tiles[i]).due(now),
{
    let after = state.advanced(now);
    assert forall|i: int| 0 <= i < after.tiles.len() implies (#[trigger] after.tiles[i]).playable()
        && !after.tiles[i].due(now) by {
        assert(state.tiles[i].playable());
        if let TileImageView::Animated(animation) = state.tiles[i].image {
            law_advanced(animation, now);
        }
    }
}

proof fn lemma_last_position(records: Seq<RecordView>, hash: Seq<char>, count: int)
    requires
        0 <= count <= records.len(),
    ensures
        -1 <= last_position(records, hash, count) < count,
        last_position(records, hash, count) >= 0 ==> records[last_position(
            records,
            hash,
            count,
        )].hash == hash,
        forall|i: int|
            last_position(records, hash, count) < i < count ==> (#[trigger] records[i]).hash
                != hash,
    decreases count,
{
    if count > 0 {
        lemma_last_position(records, hash, count - 1);
    }
}

/// Showing other records leaves the animations playable.
pub proof fn law_sync_playable(
    state: PreviewStateView,
    records: Seq<RecordView>,
    sources: Seq<PreviewSourceView>,
    now: u64,
)
    requires
        state.playable(),
    ensures
        state.synced(records, sources, now).playable(),
{
    let after = state.synced(records, sources, now);
    assert forall|i: int| 0 <= i < after.tiles.len() implies (
    #[trigger] after.tiles[i]).playable() by {
        lemma_last_position(state.records, records[i].hash, state.paired());
        let tile = tile_of(records[i], sources[i], now);
        if let TileImageView::Animated(animation) = tile.image {
            assert forall|j: int| 0 <= j < animation.frames.len() implies (
            #[trigger] animation.frames[j]).delay > 0 by {
                let frame = sources[i].frames->Some_0[j];
                lemma_frame_delay(frame.numerator, frame.denominator);
            }
        }
    }
}

proof fn lemma_frame_delay(numerator: u32, denominator: u32)
    ensures
        SHORTEST_DELAY <= frame_delay(numerator, denominator) <= u64::MAX,
{
    let divisor = if denominator == 0 {
        1
    } else {
        denominator as int
    };
    assert((numerator * 1_000_000) / divisor <= numerator * 1_000_000) by (nonlinear_arith)
        requires
            divisor >= 1,
            numerator >= 0,
    ;
}

/// The tile of an item that was shown before is kept, wherever among the records
/// the item now stands.
pub proof fn law_sync_keeps(
    state: PreviewStateView,
    records: Seq<RecordView>,
    sources: Seq<PreviewSourceView>,
    now: u64,
    from: int,
    to: int,
)
    requires
        store::distinct(state.records),
        state.tiles.len() == state.records.len(),
        0 <= from < state.records.len(),
        0 <= to < records.len(),
        state.records[from].same(records[to]),
    ensures
        state.synced(records, sources, now).tiles[to] == state.tiles[from],
{
    let hash = records[to].hash;
    lemma_last_position(state.records, hash, state.paired());
    let index = last_position(state.records, hash, state.paired());
    if index != from {
        assert(state.records[from].hash == hash);
        assert(index < from ==> state.records[from].hash != hash);
        assert(index > from ==> state.records[from].hash != state.records[index].hash);
    }
}

/// The tile of an item that was not shown before is loaded.
pub proof fn law_sync_loads(
    state: PreviewStateView,
    records: Seq<RecordView>,
    sources: Seq<PreviewSourceView>,
    now: u64,
    to: int,
)
    requires
        0 <= to < records.len(),
        forall|i: int|
            0 <= i < state.records.len() ==> !(#[trigger] state.records[i]).same(records[to]),
    ensures
        state.synced(records, sources, now).tiles[to] == tile_of(records[to], sources[to], now),
{
    lemma_last_position(state.records, records[to].hash, state.paired());
}

/// A frame is shown for as many whole nanoseconds as its delay has, and for 50
/// milliseconds at least; a delay without a denominator counts in milliseconds.
pub proof fn law_frame_delay(numerator: u32, denominator: u32)
    ensures
        frame_delay(numerator, denominator) >= 50_000_000,
        denominator > 0 && frame_delay(numerator, denominator) > 50_000_000 ==> frame_delay(
            numerator,
            denominator,
        ) * denominator <= numerator * 1_000_000 < (frame_delay(numerator, denominator) + 1)
            * denominator,
        denominator > 0 && frame_delay(numerator, denominator) == 50_000_000 ==> numerator
            * 1_000_000 < 50_000_001 * denominator,
        frame_delay(numerator, 0) == frame_delay(numerator, 1),
{
    let wanted = numerator * 1_000_000;
    if denominator > 0 {
        let divisor = denominator as int;
        let quotient = wanted / divisor;
        vstd::arithmetic::div_mod::lemma_fundamental_div_mod(wanted, divisor);
        assert(divisor * quotient == quotient * divisor) by (nonlinear_arith);
        assert((quotient + 1) * divisor == quotient * divisor + divisor) by (nonlinear_arith);
        assert(0 <= wanted % divisor < divisor) by (nonlinear_arith)
            requires
                divisor > 0,
        ;
        if quotient < 50_000_000 {
            assert((quotient + 1) * divisor <= 50_000_001 * divisor) by (nonlinear_arith)
                requires
                    quotient < 50_000_000,
                    divisor > 0,
            ;
        }
    }
}

/// The frames of an animation follow each other, and after the last one the first
/// comes again; each is shown for its own delay.
pub proof fn law_stepped(animation: AnimationView)
    requires
        animation.playable(),
    ensures
        ({
            let next = animation.stepped();
            &&& next.frames == animation.frames
            &&& animation.current_frame + 1 < animation.frames.len() ==> next.current_frame
                == animation.current_frame + 1
            &&& animation.current_frame + 1 == animation.frames.len() ==> next.current_frame == 0
            &&& next.next_frame_at == animation.next_frame_at
                + animation.frames[next.current_frame].delay
        }),
{
    if animation.current_frame + 1 < animation.frames.len() {
        vstd::arithmetic::div_mod::lemma_small_mod(
            (animation.current_frame + 1) as nat,
            animation.frames.len(),
        );
    } else {
        vstd::arithmetic::div_mod::lemma_mod_self_0(animation.frames.len() as int);
    }
}

/// An animation shows its frame until the time for the next one has come, and then
/// goes on frame by frame.
pub proof fn law_advanced_by_one(animation: AnimationView, now: u64)
    requires
        animation.playable(),
    ensures
        now < animation.next_frame_at ==> animation.advanced(now) == animation,
        animation.next_frame_at <= now ==> animation.advanced(now) == animation.stepped().advanced(
            now,
        ),
{
}

/// Two frames and more make an animation: each frame is scaled and shown for its
/// delay, beginning with the first one now.
pub proof fn law_animation_of(frames: Seq<DecodedView>, now: u64)
    ensures
        frames.len() < 2 <==> animation_of(frames, now) is None,
        animation_of(frames, now) matches Some(animation) ==> {
            &&& animation.frames.len() == frames.len()
            &&& forall|i: int|
                0 <= i < frames.len() ==> (#[trigger] animation.frames[i]).image
                    == frames[i].image.frame() && animation.frames[i].delay == frame_delay(
                    frames[i].numerator,
                    frames[i].denominator,
                )
            &&& animation.current_frame == 0
            &&& animation.next_frame_at == now + animation.frames[0].delay
        },
{
    if let Some(animation) = animation_of(frames, now) {
        assert forall|i: int| 0 <= i < frames.len() implies (#[trigger] animation.frames[i]).image
            == frames[i].image.frame() && animation.frames[i].delay == frame_delay(
            frames[i].numerator,
            frames[i].denominator,
        ) by {
            lemma_frame_delay(frames[i].numerator, frames[i].denominator);
        }
    }
}

/// What a tile shows: an animation where the item is one, the thumbnail of an image
/// or else the image itself, and nothing for a text or for a file without thumbnail.
pub proof fn law_tile(record: RecordView, source: PreviewSourceView, now: u64)
    ensures
        ({
            let tile = tile_of(record, source, now);
            let kind = record.kind;
            let moves = kind == StoredImageKind::Gif && source.frames is Some
                && source.frames->0.len() >= 2;
            let image = kind == StoredImageKind::Raster || kind == StoredImageKind::Gif;
            &&& tile.caption == tiles::caption_of(record)
            &&& tile.is_text <==> kind == StoredImageKind::Text
            &&& tile.is_file <==> kind == StoredImageKind::File
            &&& tile.has_thumbnail <==> record.thumbnail_path is Some && source.thumbnail_is_file
            &&& tile.image is Animated <==> moves
            &&& moves ==> Some(tile.image->Animated_0) == animation_of(source.frames->0, now)
            &&& image && !moves && tile.has_thumbnail && source.thumbnail is Some ==> tile.image
                == TileImageView::Static(source.thumbnail)
            &&& image && !moves && !(tile.has_thumbnail && source.thumbnail is Some) ==> tile.image
                == TileImageView::Static(source.original)
            &&& kind == StoredImageKind::Text ==> tile.image == TileImageView::Static(None)
            &&& kind == StoredImageKind::File && tile.has_thumbnail ==> tile.image
                == TileImageView::Static(source.thumbnail)
            &&& kind == StoredImageKind::File && !tile.has_thumbnail ==> tile.image
                == TileImageView::Static(None)
        }),
{
}

/// A tile is shown with its texts and with its image, or with the frame at which its
/// animation is; only an animation is ever due, once the time of its next frame has
/// come.
pub proof fn law_rendered(tile: TileView, now: u64)
    ensures
        tile.rendered().caption == tile.caption,
        tile.rendered().is_text == tile.is_text,
        tile.rendered().is_file == tile.is_file,
        tile.rendered().has_thumbnail == tile.has_thumbnail,
        match tile.image {
            TileImageView::Static(image) => tile.rendered().thumbnail == image && !tile.due(now)
                && tile.advanced(now) == tile,
            TileImageView::Animated(animation) => {
                &&& tile.rendered().thumbnail == Some(
                    animation.frames[animation.current_frame].image,
                )
                &&& tile.due(now) <==> animation.next_frame_at <= now
                &&& tile.advanced(now).image == TileImageView::Animated(animation.advanced(now))
                &&& tile.advanced(now).caption == tile.caption
                &&& tile.advanced(now).is_text == tile.is_text
                &&& tile.advanced(now).is_file == tile.is_file
                &&& tile.advanced(now).has_thumbnail == tile.has_thumbnail
            },
        },
{
}

/// Each item has one tile, in the order of the items; playing the animations and
/// showing the tiles keep this order.
pub proof fn law_gallery(
    state: PreviewStateView,
    records: Seq<RecordView>,
    sources: Seq<PreviewSourceView>,
    now: u64,
)
    ensures
        state.synced(records, sources, now).records == records,
        state.synced(records, sources, now).tiles.len() == records.len(),
        state.advanced(now).records == state.records,
        state.advanced(now).tiles.len() == state.tiles.len(),
        forall|i: int|
            0 <= i < state.tiles.len() ==> #[trigger] state.advanced(now).tiles[i]
                == state.tiles[i].advanced(now),
        state.rendered().len() == state.tiles.len(),
        forall|i: int|
            0 <= i < state.tiles.len() ==> #[trigger] state.rendered()[i]
                == state.tiles[i].rendered(),
{
}

proof fn lemma_due_rows_rise(tiles: Seq<TileView>, now: u64, count: int)
    requires
        0 <= count <= tiles.len() <= usize::MAX,
    ensures
        forall|i: int, j: int|
            0 <= i < j < due_rows(tiles, now, count).len() ==> #[trigger] due_rows(
                tiles,
                now,
                count,
            )[i] < #[trigger] due_rows(tiles, now, count)[j],
    decreases count,
{
    if count > 0 {
        lemma_due_rows_rise(tiles, now, count - 1);
        lemma_due_rows(tiles, now, count - 1);
        let before = due_rows(tiles, now, count - 1);
        let all = due_rows(tiles, now, count);
        assert forall|i: int, j: int| 0 <= i < j < all.len() implies #[trigger] all[i]
            < #[trigger] all[j] by {
            assert(all[i] == before[i]);
            if j < before.len() {
                assert(all[j] == before[j]);
            }
        }
    }
}

/// The rows that are shown anew come from top to bottom, each once, with their tiles.
pub proof fn law_due_rows(state: PreviewStateView, now: u64)
    requires
        state.tiles.len() <= usize::MAX,
    ensures
        forall|i: int, j: int|
            0 <= i < j < state.due(now).len() ==> #[trigger] state.due(now)[i]
                < #[trigger] state.due(now)[j],
        shown_rows(state.tiles, state.due(now)).len() == state.due(now).len(),
        forall|i: int|
            0 <= i < state.due(now).len() ==> #[trigger] shown_rows(state.tiles, state.due(now))[i]
                == (state.due(now)[i], state.tiles[state.due(now)[i] as int].rendered()),
{
    lemma_due_rows_rise(state.tiles, now, state.tiles.len() as int);
}

/// The frames of an item can be shown where each of them can, and where there are none.
pub proof fn law_showable(source: PreviewSourceView, i: int)
    ensures
        source.frames is None ==> source.showable(),
        source.showable() && source.frames is Some && 0 <= i < source.frames->0.len()
            ==> source.frames->0[i].image.showable(),
        !source.showable() ==> source.frames is Some && exists|k: int|
            0 <= k < source.frames->0.len() && !(#[trigger] source.frames->0[k]).image.showable(),
{
    if source.showable() && source.frames is Some && 0 <= i < source.frames->0.len() {
        let frames = source.frames->0;
        assert(frames[i].image.showable());
    }
}

} // verus!
