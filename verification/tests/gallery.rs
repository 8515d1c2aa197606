use image::{Rgba, RgbaImage};
use pictray::icon::{app_icon_rgba, Shape, APP_ICON_SIZE};
use pictray::paths::{ComponentKind, FilePath, PathComponent};
use pictray::pixels::RgbaPixels;
use pictray::previews::{
    load_animated_preview, load_tile_preview, normalized_gif_delay, AnimatedFrame,
    AnimatedPreview, CachedTile, CachedTileImage, DecodedFrame, PreviewSource, PreviewState,
    Refresh,
};
use pictray::records::{StoredImage, StoredImageKind};
use pictray::tiles::{
    compact_path_preview, file_badge, file_subtitle, format_byte_len, preview_line_numbers,
    text_file_badge, text_file_subtitle, Caption,
};

fn path(text: &str) -> FilePath {
    let parent = text.rfind('/').map(|end| text[..end].to_owned());
    FilePath {
        text: text.to_owned(),
        parent,
        components: vec![PathComponent { kind: ComponentKind::Normal, name: text.as_bytes().to_vec() }],
    }
}

fn sample_record(hash: &str, display_name: &str) -> StoredImage {
    StoredImage {
        hash: hash.to_owned(),
        display_name: display_name.to_owned(),
        width: 10,
        height: 10,
        kind: StoredImageKind::Raster,
        original_path: path(&format!("/tmp/{hash}.png")),
        thumbnail_path: None,
        reference_path: None,
        text_preview: String::new(),
        line_count: 0,
        byte_len: 4,
        file_extension: "png".to_owned(),
    }
}

fn caption(title: &str, subtitle: &str, badge: &str) -> Caption {
    Caption {
        title: title.to_owned(),
        subtitle: subtitle.to_owned(),
        badge: badge.to_owned(),
        preview: String::new(),
        line_numbers: String::new(),
    }
}

fn pixel(shade: u8) -> RgbaPixels {
    RgbaPixels { width: 1, height: 1, pixels: vec![shade, 0, 0, 255] }
}

fn animation(delays: &[u64], next_frame_at: u128) -> AnimatedPreview {
    AnimatedPreview {
        frames: delays
            .iter()
            .enumerate()
            .map(|(i, delay)| AnimatedFrame { image: pixel(i as u8), delay: *delay })
            .collect(),
        current_frame: 0,
        next_frame_at,
    }
}

fn tile(title: &str, image: CachedTileImage) -> CachedTile {
    CachedTile {
        caption: caption(title, "10x10", "PNG"),
        is_text: false,
        is_file: false,
        has_thumbnail: true,
        image,
    }
}

// ---------------------------------------------------------------------------
// Tiles that are kept
// ---------------------------------------------------------------------------

#[test]
fn sync_reuses_cached_tiles_when_records_are_reordered() {
    let first = sample_record("first", "First");
    let second = sample_record("second", "Second");
    let original_next_frame_at = 5_000_000_000u128;

    let mut state = PreviewState {
        records: vec![first.clone(), second.clone()],
        tiles: vec![
            CachedTile {
                caption: caption("First", "10x10", "PNG"),
                is_text: false,
                is_file: false,
                has_thumbnail: true,
                image: CachedTileImage::Static(None),
            },
            CachedTile {
                caption: caption("Second", "10x10", "GIF"),
                is_text: false,
                is_file: false,
                has_thumbnail: true,
                image: CachedTileImage::Animated(AnimatedPreview {
                    frames: vec![AnimatedFrame { image: pixel(0), delay: 100_000_000 }],
                    current_frame: 0,
                    next_frame_at: original_next_frame_at,
                }),
            },
        ],
    };

    let sources = vec![PreviewSource::nothing(), PreviewSource::nothing()];
    state.sync(vec![second, first], &sources, 0);

    match &state.tiles[0].image {
        CachedTileImage::Animated(animated) => {
            assert_eq!(animated.next_frame_at, original_next_frame_at);
        }
        CachedTileImage::Static(_) => panic!("expected animated tile to be preserved"),
    }
    assert_eq!(state.tiles[1].caption.title, "First");
    assert_eq!(state.records[0].hash, "second");
}

#[test]
fn changed_records_get_new_tiles() {
    let first = sample_record("first", "First");
    let mut renamed = first.clone();
    renamed.display_name = "Renamed".to_owned();
    let mut state =
        PreviewState { records: vec![first.clone()], tiles: vec![tile("First", CachedTileImage::Static(None))] };
    assert!(!state.needs_loading(&first));
    assert!(state.needs_loading(&renamed));
    assert!(state.needs_loading(&sample_record("other", "First")));
    let source = PreviewSource {
        thumbnail_is_file: false,
        thumbnail: None,
        original: Some(pixel(9)),
        frames: None,
    };
    state.sync(vec![renamed], &vec![source], 0);
    assert_eq!(state.tiles[0].caption.title, "Renamed");
    assert!(!state.tiles[0].has_thumbnail);
    assert!(matches!(
        &state.tiles[0].image,
        CachedTileImage::Static(Some(image)) if image.pixels[0] == 9
    ));
}

#[test]
fn of_two_records_with_one_hash_the_last_counts() {
    let first = sample_record("same", "First");
    let second = sample_record("same", "Second");
    let state = PreviewState {
        records: vec![first.clone(), second.clone()],
        tiles: vec![
            tile("First", CachedTileImage::Static(None)),
            tile("Second", CachedTileImage::Static(None)),
        ],
    };
    assert!(state.needs_loading(&first));
    assert!(!state.needs_loading(&second));
}

// ---------------------------------------------------------------------------
// Animations
// ---------------------------------------------------------------------------

#[test]
fn animations_advance() {
    let mut shown = animation(&[50, 70, 90], 50);
    assert!(!shown.advance(49));
    assert_eq!((shown.current_frame, shown.next_frame_at), (0, 50));
    assert!(shown.advance(50));
    assert_eq!((shown.current_frame, shown.next_frame_at), (1, 120));
    assert!(shown.advance(300));
    assert_eq!((shown.current_frame, shown.next_frame_at), (1, 330));
}

#[test]
fn advancing_in_steps_or_at_once_is_the_same() {
    for late in 0..500 {
        for early in [0, late / 3, late / 2, late] {
            let mut stepwise = animation(&[50, 70, 90], 50);
            stepwise.advance(early);
            stepwise.advance(late);
            let mut at_once = animation(&[50, 70, 90], 50);
            at_once.advance(late);
            assert_eq!(stepwise.current_frame, at_once.current_frame);
            assert_eq!(stepwise.next_frame_at, at_once.next_frame_at);
            assert!(at_once.next_frame_at > late as u128);
        }
    }
}

#[test]
fn delays_of_frames() {
    assert_eq!(normalized_gif_delay(80, 1), 80_000_000);
    assert_eq!(normalized_gif_delay(100, 3), 50_000_000);
    assert_eq!(normalized_gif_delay(1000, 3), 333_333_333);
    assert_eq!(normalized_gif_delay(60, 0), 60_000_000);
    assert_eq!(normalized_gif_delay(0, 1), 50_000_000);
    assert_eq!(normalized_gif_delay(u32::MAX, 1), 4_294_967_295_000_000);
}

fn decoded(color: [u8; 4], numerator: u32) -> DecodedFrame {
    let image = RgbaImage::from_pixel(4, 4, Rgba(color));
    DecodedFrame {
        image: RgbaPixels { width: 4, height: 4, pixels: image.into_raw() },
        numerator,
        denominator: 1,
    }
}

#[test]
fn two_frames_make_an_animation() {
    let frames = vec![decoded([1, 2, 3, 255], 80), decoded([4, 5, 6, 255], 20)];
    assert!(frames.iter().all(|frame| frame.image.is_showable()));
    let shown = load_animated_preview(&frames, 1000).unwrap();
    assert_eq!(shown.next_frame_at, 1000 + 80_000_000);
    assert_eq!(shown.frames[1].delay, 50_000_000);
    assert_eq!((shown.frames[0].image.width, shown.frames[0].image.height), (320, 168));
    let expected =
        image::imageops::thumbnail(&RgbaImage::from_pixel(4, 4, Rgba([4, 5, 6, 255])), 320, 168);
    assert_eq!(shown.frames[1].image.pixels, expected.into_raw());
    assert!(load_animated_preview(&vec![decoded([1, 2, 3, 255], 80)], 0).is_none());
    assert!(load_animated_preview(&Vec::new(), 0).is_none());
}

#[test]
fn rows_whose_animation_is_due() {
    let mut state = PreviewState {
        records: vec![
            sample_record("a", "a"),
            sample_record("b", "b"),
            sample_record("c", "c"),
        ],
        tiles: vec![
            tile("a", CachedTileImage::Animated(animation(&[10, 10], 10))),
            tile("b", CachedTileImage::Static(Some(pixel(7)))),
            tile("c", CachedTileImage::Animated(animation(&[10, 10], 30))),
        ],
    };
    assert!(state.advance_animations(9).is_empty());
    assert_eq!(state.advance_animations(10), [0]);
    assert_eq!(state.render_tile(0).unwrap().thumbnail.unwrap().pixels[0], 1);
    assert_eq!(state.advance_animations(30), [0, 2]);
    assert_eq!(state.render_tile(1).unwrap().thumbnail.unwrap().pixels[0], 7);
    assert!(state.render_tile(3).is_none());
    assert_eq!(state.render_tiles().len(), 3);
}

#[test]
fn refreshing_the_gallery() {
    let mut state = PreviewState::default();
    let records = vec![sample_record("a", "a")];
    assert!(state.differs(&records));
    let sources = vec![PreviewSource::nothing()];
    match state.refresh_previews(records.clone(), &sources, 0) {
        Refresh::All { tiles } => assert_eq!(tiles[0].caption.subtitle, "10x10"),
        Refresh::Rows { .. } => panic!("expected all tiles"),
    }
    assert!(!state.differs(&records));
    state.tiles[0].image = CachedTileImage::Animated(animation(&[10, 10], 10));
    match state.refresh_previews(records, &Vec::new(), 10) {
        Refresh::Rows { rows } => {
            assert_eq!(rows.len(), 1);
            assert_eq!(rows[0].0, 0);
        }
        Refresh::All { .. } => panic!("expected some rows"),
    }
}

// ---------------------------------------------------------------------------
// What tiles show
// ---------------------------------------------------------------------------

#[test]
fn lengths_are_formatted_like_floating_point_numbers() {
    let expected = |byte_len: u64| {
        if byte_len < 1024 {
            format!("{byte_len} B")
        } else if byte_len < 1024 * 1024 {
            format!("{:.1} KB", byte_len as f64 / 1024.0)
        } else {
            format!("{:.1} MB", byte_len as f64 / (1024.0 * 1024.0))
        }
    };
    assert_eq!(format_byte_len(0), "0 B");
    assert_eq!(format_byte_len(1536), "1.5 KB");
    assert_eq!(format_byte_len(3 * 1024 * 1024), "3.0 MB");
    for byte_len in 0..200_000 {
        assert_eq!(format_byte_len(byte_len), expected(byte_len));
    }
    let mut seed = 1u64;
    for _ in 0..100_000 {
        seed = seed.wrapping_mul(6364136223846793005).wrapping_add(1442695040888963407);
        for shift in [0, 5, 11, 12, 20, 30, 40] {
            let byte_len = seed >> shift;
            assert_eq!(format_byte_len(byte_len), expected(byte_len), "{byte_len}");
        }
    }
    for byte_len in [
        u64::MAX,
        u64::MAX - 1024,
        1 << 53,
        (1 << 53) + 1,
        (1 << 53) + 3,
        (1 << 54) + 2,
        (1 << 54) + 6,
        1_048_575,
        1_048_576,
        1_048_576 + 52_429,
    ] {
        assert_eq!(format_byte_len(byte_len), expected(byte_len), "{byte_len}");
    }
}

#[test]
fn badges_and_subtitles() {
    let mut record = sample_record("a", "a");
    record.file_extension = "markdown".to_owned();
    assert_eq!(text_file_badge(&record), "MD");
    record.file_extension = "text".to_owned();
    assert_eq!(text_file_badge(&record), "TXT");
    record.file_extension = "properties".to_owned();
    assert_eq!(text_file_badge(&record), "PROP");
    assert_eq!(file_badge(&record), "PROPE");
    record.line_count = 1;
    assert_eq!(text_file_subtitle(&record), "PROP • 1 line • 4 B");
    record.line_count = 20;
    assert_eq!(text_file_subtitle(&record), "PROP • 20 lines • 4 B");
    record.file_extension = "file".to_owned();
    assert_eq!(file_subtitle(&record), "FILE file • 4 B");
}

#[test]
fn path_previews_and_line_numbers() {
    assert_eq!(compact_path_preview(&path("/a/b/c")), "/a/b");
    assert_eq!(compact_path_preview(&path("c")), "c");
    let mut bare = path("c");
    bare.parent = Some(String::new());
    assert_eq!(compact_path_preview(&bare), "c");
    assert_eq!(preview_line_numbers(""), "01");
    assert_eq!(preview_line_numbers("a\nb"), "01\n02");
    let long = vec!["x"; 12].join("\n");
    assert_eq!(
        preview_line_numbers(&long),
        "01\n02\n03\n04\n05\n06\n07\n08\n09\n10\n11\n12"
    );
}

#[test]
fn tiles_of_all_kinds() {
    let source = || PreviewSource {
        thumbnail_is_file: true,
        thumbnail: Some(pixel(1)),
        original: Some(pixel(2)),
        frames: Some(vec![decoded([1, 1, 1, 255], 80), decoded([2, 2, 2, 255], 80)]),
    };
    assert!(source().is_showable());
    let shade = |tile: &CachedTile| tile.render().thumbnail.map(|image| image.pixels[0]);

    let mut record = sample_record("a", "Title");
    record.thumbnail_path = Some(path("/t/a.png"));
    let tile = load_tile_preview(&record, &source(), 0);
    assert_eq!(tile.caption.title, "Title");
    assert_eq!(tile.caption.badge, "PNG");
    assert_eq!(tile.caption.subtitle, "10x10");
    assert!(tile.has_thumbnail && !tile.is_text && !tile.is_file);
    assert_eq!(shade(&tile), Some(1));

    let mut undecoded = source();
    undecoded.thumbnail = None;
    assert_eq!(shade(&load_tile_preview(&record, &undecoded, 0)), Some(2));
    undecoded.original = None;
    assert_eq!(shade(&load_tile_preview(&record, &undecoded, 0)), None);

    record.kind = StoredImageKind::Gif;
    let tile = load_tile_preview(&record, &source(), 3);
    assert_eq!((tile.caption.badge.as_str(), tile.caption.subtitle.as_str()), ("GIF", "10x10 GIF"));
    assert!(matches!(&tile.image, CachedTileImage::Animated(shown) if shown.next_frame_at == 80_000_003));
    let mut still = source();
    still.frames = None;
    assert_eq!(shade(&load_tile_preview(&record, &still, 0)), Some(1));
    still.frames = Some(vec![decoded([1, 1, 1, 255], 80)]);
    assert_eq!(shade(&load_tile_preview(&record, &still, 0)), Some(1));

    record.kind = StoredImageKind::Text;
    record.text_preview = "a\nb".to_owned();
    let tile = load_tile_preview(&record, &source(), 0);
    assert!(tile.is_text);
    assert_eq!(tile.caption.preview, "a\nb");
    assert_eq!(tile.caption.line_numbers, "01\n02");
    assert_eq!(shade(&tile), None);

    record.kind = StoredImageKind::File;
    let tile = load_tile_preview(&record, &source(), 0);
    assert!(tile.is_file);
    assert_eq!(tile.caption.preview, "/tmp");
    assert_eq!(shade(&tile), Some(1));
    record.thumbnail_path = None;
    let tile = load_tile_preview(&record, &source(), 0);
    assert!(!tile.has_thumbnail);
    assert_eq!(shade(&tile), None);
}

// ---------------------------------------------------------------------------
// The icon
// ---------------------------------------------------------------------------

fn icon_pixel(rgba: &[u8], x: usize, y: usize) -> [u8; 4] {
    let start = 4 * (y * APP_ICON_SIZE + x);
    [rgba[start], rgba[start + 1], rgba[start + 2], rgba[start + 3]]
}

#[test]
fn the_corners_of_a_triangle_may_come_in_any_order() {
    let (a, b, c) = ((12, 44), (26, 29), (40, 44));
    let first = Shape::Triangle { a, b, c };
    assert!(first.is_over(12, 44));
    assert!(first.is_over(26, 29));
    assert!(first.is_over(26, 40));
    assert!(!first.is_over(13, 30));
    assert!(!first.is_over(26, 45));
    for other in [
        Shape::Triangle { a, b: c, c: b },
        Shape::Triangle { a: b, b: a, c },
        Shape::Triangle { a: b, b: c, c: a },
        Shape::Triangle { a: c, b: a, c: b },
        Shape::Triangle { a: c, b, c: a },
    ] {
        for y in 20..50 {
            for x in 0..50 {
                assert_eq!(other.is_over(x, y), first.is_over(x, y));
            }
        }
    }
}

#[test]
fn the_icon() {
    let rgba = app_icon_rgba();
    assert_eq!(rgba.len(), 4 * 64 * 64);
    assert!(rgba.chunks(4).all(|pixel| pixel[3] == 255 || pixel == [0, 0, 0, 0]));
    assert_eq!(icon_pixel(&rgba, 0, 0), [0, 0, 0, 0]);
    assert_eq!(icon_pixel(&rgba, 63, 63), [0, 0, 0, 0]);
    // The frame, the paper, the sun and the two peaks.
    assert_eq!(icon_pixel(&rgba, 7, 35), [22, 33, 45, 255]);
    assert_eq!(icon_pixel(&rgba, 12, 28), [247, 243, 235, 255]);
    assert_eq!(icon_pixel(&rgba, 45, 30), [255, 191, 68, 255]);
    assert_eq!(icon_pixel(&rgba, 26, 35), [14, 122, 138, 255]);
    assert_eq!(icon_pixel(&rgba, 43, 38), [7, 74, 92, 255]);
    // The corners of the frame are rounded off.
    assert_eq!(icon_pixel(&rgba, 6, 22), [0, 0, 0, 0]);
    assert_eq!(icon_pixel(&rgba, 11, 22), [22, 33, 45, 255]);
}
