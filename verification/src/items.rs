//! What an imported file becomes: the kind, the texts and the sizes of its item, and
//! what is written for it.

use vstd::prelude::*;
use vstd::utf8::{encode_utf8, encode_utf8_decode_utf8};

use crate::actions::{ActionView, FinishView};
use crate::layout::LayoutView;
use crate::paths::PathView;
use crate::pixels::PixelsView;
use crate::records::{
    ErrorKind, ErrorView, ImportMode, ProbeView, RecordView, SourceView, StoredImageKind,
};
use crate::store::{Platform, RevealTarget, RevealView, StoreView};
use crate::{digest, paths, store, summary, text};

verus! {

// ---------------------------------------------------------------------------
// Texts
// ---------------------------------------------------------------------------

/// Whether a record is that of a text with the given contents.
pub open spec fn tells_text(record: RecordView, contents: Seq<char>, path: PathView) -> bool {
    &&& record.kind == StoredImageKind::Text
    &&& record.text_preview == summary::text_preview(contents)
    &&& record.line_count == text::text_lines(contents).len() as usize
    &&& record.byte_len == encode_utf8(contents).len() as u64
    &&& record.file_extension == path.normalized_text_extension()
    &&& record.display_name == store::text_name(path)
    &&& record.thumbnail_path is None
    &&& record.width == 0
    &&& record.height == 0
}

/// Every regular file that holds a text without the character U+0000 is imported as a
/// text, with the excerpt of this text, whatever its characters are, unless its name
/// says that it is an image. It is never refused.
pub proof fn law_text_imported(
    view: StoreView,
    source: SourceView,
    mode: ImportMode,
    contents: Seq<char>,
)
    requires
        !contents.contains('\0'),
        source.is_file,
        source.given.contents == Ok::<Seq<u8>, Seq<char>>(encode_utf8(contents)),
        source.canonical.contents == Ok::<Seq<u8>, Seq<char>>(encode_utf8(contents)),
        source.canonical.byte_len is Ok,
        !source.given.path.is_supported_image_file(),
        !source.canonical.path.is_supported_image_file(),
    ensures
        ({
            let finish = view.import(source, mode).1.finish;
            &&& finish !is Fail
            &&& finish matches FinishView::Insert { record } ==> {
                let path = if mode == ImportMode::Copy {
                    source.canonical.path
                } else {
                    source.given.path
                };
                &&& tells_text(record, contents, path)
                &&& mode == ImportMode::Copy ==> record.original_path == path && record.hash
                    == digest::reference_hash_of(path.text) && record.reference_path is Some
                &&& mode == ImportMode::Move ==> record.original_path == view.layout.original_path(
                    record.hash,
                    path.normalized_text_extension(),
                ) && record.hash == digest::blake3_hex(encode_utf8(contents))
                    && record.reference_path is None
            }
            &&& mode == ImportMode::Move ==> (finish is Insert <==> !view.holds(
                digest::blake3_hex(encode_utf8(contents)),
            ))
        }),
{
    paths::law_text_bytes(contents, encode_utf8(contents));
    encode_utf8_decode_utf8(contents);
    lemma_gif_is_image(source.canonical.path);
}

/// A regular file whose name says that it is a text is refused exactly where it holds
/// something else, or cannot be read.
pub proof fn law_text_refused(view: StoreView, source: SourceView, mode: ImportMode)
    requires
        source.is_file,
        source.given.path.looks_like_supported_text_path(),
        source.canonical.path.looks_like_supported_text_path(),
        source.given.contents == source.canonical.contents,
        source.canonical.byte_len is Ok,
        mode == ImportMode::Copy ==> !view.holds(
            digest::reference_hash_of(source.canonical.path.text),
        ),
    ensures
        ({
            let finish = view.import(source, mode).1.finish;
            let path = if mode == ImportMode::Copy {
                source.canonical.path
            } else {
                source.given.path
            };
            &&& finish is Fail <==> match source.given.contents {
                Ok(bytes) => !(exists|contents: Seq<char>|
                    bytes == #[trigger] encode_utf8(contents) && !contents.contains('\0')),
                Err(_) => true,
            }
            &&& finish matches FinishView::Fail { error } ==> match source.given.contents {
                Ok(bytes) => error == (ErrorView {
                    kind: ErrorKind::NotTextFile,
                    subject: path.text,
                    cause: None,
                }),
                Err(cause) => error == (ErrorView {
                    kind: ErrorKind::ReadFailed,
                    subject: path.text,
                    cause: Some(cause),
                }),
            }
        }),
{
    paths::law_text_is_no_image(source.given.path);
    paths::law_text_is_no_image(source.canonical.path);
    lemma_gif_is_image(source.canonical.path);
    if let Ok(bytes) = source.given.contents {
        paths::law_text_bytes(vstd::utf8::decode_utf8(bytes), bytes);
        assert forall|contents: Seq<char>|
            bytes == #[trigger] encode_utf8(contents) && !contents.contains(
                '\0',
            ) implies paths::text_bytes(bytes) by {
            paths::law_text_bytes(contents, bytes);
        }
        if paths::text_bytes(bytes) {
            assert(bytes == encode_utf8(vstd::utf8::decode_utf8(bytes)));
        }
    }
}

proof fn lemma_gif_is_image(path: PathView)
    ensures
        path.is_gif_file() ==> path.is_supported_image_file(),
{
}

// ---------------------------------------------------------------------------
// Kinds
// ---------------------------------------------------------------------------

/// What kind of item a file is: an animation or an image by its extension, a text by
/// its name or by what it holds, and otherwise just a file.
pub proof fn law_file_kind(probe: ProbeView)
    ensures
        ({
            let kind = store::file_kind(probe);
            &&& kind == Ok::<StoredImageKind, ErrorView>(StoredImageKind::Gif)
                <==> probe.path.lower_extension() == Some("gif"@)
            &&& kind == Ok::<StoredImageKind, ErrorView>(StoredImageKind::Raster)
                <==> probe.path.is_supported_image_file() && probe.path.lower_extension() != Some(
                "gif"@,
            )
            &&& kind == Ok::<StoredImageKind, ErrorView>(StoredImageKind::Text)
                <==> !probe.path.is_supported_image_file() && (
            probe.path.looks_like_supported_text_path() || (probe.contents matches Ok(bytes)
                && paths::text_bytes(bytes)))
            &&& kind == Ok::<StoredImageKind, ErrorView>(StoredImageKind::File)
                <==> !probe.path.is_supported_image_file()
                && !probe.path.looks_like_supported_text_path() && (probe.contents matches Ok(bytes)
                && !paths::text_bytes(bytes))
            &&& kind is Err <==> !probe.path.is_supported_image_file()
                && !probe.path.looks_like_supported_text_path() && probe.contents is Err
            &&& kind matches Err(error) ==> error == (ErrorView {
                kind: ErrorKind::ReadFailed,
                subject: probe.path.text,
                cause: Some(probe.contents->Err_0),
            })
        }),
{
    lemma_gif_is_image(probe.path);
}

// ---------------------------------------------------------------------------
// Images
// ---------------------------------------------------------------------------

/// An image that the store does not hold is saved as it is, beside its thumbnail and
/// its name, and its record tells its size.
pub proof fn law_image_stored(view: StoreView, image: PixelsView, name: Seq<char>)
    requires
        !view.holds(digest::blake3_hex(image.pixels)),
    ensures
        ({
            let (after, outcome) = view.persist_rgba(image, name);
            &&& after == view
            &&& outcome.finish matches FinishView::Insert { record } && {
                &&& record.kind == StoredImageKind::Raster
                &&& record.hash == digest::blake3_hex(image.pixels)
                &&& record.width == image.width
                &&& record.height == image.height
                &&& record.display_name == summary::display_name(name)
                &&& record.byte_len == image.pixels.len() as u64
                &&& record.file_extension == "png"@
                &&& record.text_preview.len() == 0
                &&& record.line_count == 0
                &&& record.reference_path is None
                &&& record.original_path == view.layout.original_path(record.hash, "png"@)
                &&& record.thumbnail_path == Some(view.layout.thumbnail_path(record.hash))
                &&& outcome.required.len() == 3
                &&& outcome.required[0] == (ActionView::SavePng {
                    path: record.original_path,
                    image,
                })
                &&& outcome.required[1] == (ActionView::SavePng {
                    path: record.thumbnail_path->0,
                    image: image.thumbnail(),
                })
                &&& outcome.required[2] == (ActionView::Write {
                    path: view.layout.metadata_path(record.hash),
                    bytes: encode_utf8(record.display_name),
                })
            }
            &&& outcome.cleanup.len() == 0
            &&& outcome.refresh.len() == 0
        }),
{
}

/// A thumbnail is a square of 196 pixels, and the frame of a tile has 320 times 168.
pub proof fn law_scaled_sizes(image: PixelsView)
    ensures
        image.thumbnail().width == 196,
        image.thumbnail().height == 196,
        image.thumbnail().pixels == crate::pixels::thumbnail_pixels(
            image.width,
            image.height,
            image.pixels,
            196,
            196,
        ),
        image.frame().width == 320,
        image.frame().height == 168,
        image.frame().pixels == crate::pixels::thumbnail_pixels(
            image.width,
            image.height,
            image.pixels,
            320,
            168,
        ),
{
}

/// An animation that the store does not hold is copied as it is, beside the thumbnail
/// of its first frame and its name, and its record tells the size of this frame.
pub proof fn law_animation_stored(
    view: StoreView,
    probe: ProbeView,
    encoded: Seq<u8>,
    first_frame: PixelsView,
    name: Seq<char>,
)
    requires
        probe.contents == Ok::<Seq<u8>, Seq<char>>(encoded),
        probe.pixels == Ok::<PixelsView, Seq<char>>(first_frame),
        !view.holds(digest::blake3_hex(encoded)),
    ensures
        ({
            let (after, outcome) = view.persist_gif(probe, name);
            &&& after == view
            &&& outcome.finish matches FinishView::Insert { record } && {
                &&& record.kind == StoredImageKind::Gif
                &&& record.hash == digest::blake3_hex(encoded)
                &&& record.width == first_frame.width
                &&& record.height == first_frame.height
                &&& record.display_name == summary::display_name(name)
                &&& record.byte_len == encoded.len() as u64
                &&& record.file_extension == "gif"@
                &&& record.text_preview.len() == 0
                &&& record.line_count == 0
                &&& record.reference_path is None
                &&& record.original_path == view.layout.original_path(record.hash, "gif"@)
                &&& record.thumbnail_path == Some(view.layout.thumbnail_path(record.hash))
                &&& outcome.required.len() == 3
                &&& outcome.required[0] == (ActionView::CopyFile {
                    from: probe.path,
                    to: record.original_path,
                })
                &&& outcome.required[1] == (ActionView::SavePng {
                    path: record.thumbnail_path->0,
                    image: first_frame.thumbnail(),
                })
                &&& outcome.required[2] == (ActionView::Write {
                    path: view.layout.metadata_path(record.hash),
                    bytes: encode_utf8(record.display_name),
                })
            }
            &&& outcome.cleanup.len() == 0
            &&& outcome.refresh.len() == 0
        }),
{
}

/// What cannot be read or decoded is refused with its path and the cause, and the
/// store stays as it is.
pub proof fn law_image_refused(view: StoreView, source: SourceView)
    requires
        source.given.path.is_supported_image_file(),
    ensures
        ({
            let given = source.given;
            let (after, outcome) = view.import(source, ImportMode::Move);
            &&& outcome.finish is Fail ==> after == view && outcome.required.len() == 0
                && outcome.cleanup.len() == 0 && outcome.refresh.len() == 0
            &&& given.path.is_gif_file() ==> (outcome.finish is Fail <==> given.contents is Err || (
            given.pixels is Err && !view.holds(digest::blake3_hex(given.contents->Ok_0))))
            &&& !given.path.is_gif_file() ==> (outcome.finish is Fail <==> given.pixels is Err)
            &&& outcome.finish matches FinishView::Fail { error } ==> error == (
            if given.path.is_gif_file() && given.contents is Err {
                ErrorView {
                    kind: ErrorKind::ReadFailed,
                    subject: given.path.text,
                    cause: Some(given.contents->Err_0),
                }
            } else {
                ErrorView {
                    kind: ErrorKind::DecodeFailed,
                    subject: given.path.text,
                    cause: Some(given.pixels->Err_0),
                }
            })
        }),
{
}

/// The item of an imported image is called like its file without the extension, or
/// `Imported image` where nothing is left of that.
pub proof fn law_image_name(path: PathView, stem: Seq<char>)
    requires
        path.file_stem() == Some(encode_utf8(stem)),
    ensures
        text::trim(stem).len() > 0 ==> store::image_name(path) == text::trim(stem),
        text::trim(stem).len() == 0 ==> store::image_name(path) == "Imported image"@,
        store::text_name(path) == summary::display_name(stem),
{
    vstd::utf8::encode_utf8_valid_utf8(stem);
    encode_utf8_decode_utf8(stem);
}

/// Where the name of a file is no text, its item is called by what it is.
pub proof fn law_unnamed(view: StoreView, source: SourceView, path: PathView)
    requires
        paths::text_of(path.file_stem()) is None,
        paths::text_of(path.file_name()) is None,
        source.canonical.path == path,
    ensures
        store::image_name(path) == "Imported image"@,
        store::text_name(path) == "Text file"@,
        view.add_reference(source).1.finish matches FinishView::Insert { record } ==> {
            &&& record.kind == StoredImageKind::Text ==> record.display_name == "Text file"@
            &&& record.kind == StoredImageKind::File ==> record.display_name == "File"@
            &&& record.kind != StoredImageKind::Text && record.kind != StoredImageKind::File
                ==> record.display_name == "Imported image"@
        },
{
    lemma_plain_name("Text file"@);
    lemma_plain_name("File"@);
    lemma_plain_name("Imported image"@);
}

proof fn lemma_plain_name(name: Seq<char>)
    requires
        name == "Text file"@ || name == "File"@ || name == "Imported image"@ || name
            == "Clipboard"@,
    ensures
        summary::display_name(name) == name,
{
    reveal_strlit("Text file");
    reveal_strlit("File");
    reveal_strlit("Imported image");
    reveal_strlit("Clipboard");
    assert("Text file"@.first() == 'T' && "Text file"@.last() == 'e');
    assert("File"@.first() == 'F' && "File"@.last() == 'e');
    assert("Imported image"@.first() == 'I' && "Imported image"@.last() == 'e');
    assert("Clipboard"@.first() == 'C' && "Clipboard"@.last() == 'd');
    text::law_trim(Seq::empty(), name, Seq::empty());
    assert(Seq::empty() + name + Seq::empty() =~= name);
}

/// An image from the clipboard is stored under the name `Clipboard`, where its buffer
/// holds four bytes for each of its pixels; a shorter buffer is refused.
pub proof fn law_clipboard_image(view: StoreView, width: u32, height: u32, bytes: Seq<u8>)
    requires
        4 * width <= usize::MAX,
    ensures
        ({
            let (after, outcome) = view.add_clipboard_image(width, height, bytes);
            &&& bytes.len() < 4 * width * height ==> after == view && outcome.finish == (
            FinishView::Fail {
                error: ErrorView {
                    kind: ErrorKind::BufferMismatch,
                    subject: ""@,
                    cause: None,
                },
            })
            &&& bytes.len() >= 4 * width * height ==> outcome.finish !is Fail && (
            outcome.finish matches FinishView::Insert { record } ==> record.display_name
                == "Clipboard"@ && record.width == width && record.height == height && record.hash
                == digest::blake3_hex(bytes))
        }),
{
    lemma_plain_name("Clipboard"@);
}

// ---------------------------------------------------------------------------
// References
// ---------------------------------------------------------------------------

/// A regular file that the store does not refer to yet is referred to: the record
/// leads to the file itself and tells its kind, its sizes and its name, and what is
/// written is its path and its name, and for an image the thumbnail.
pub proof fn law_reference_stored(view: StoreView, source: SourceView)
    requires
        source.is_file,
        !view.holds(digest::reference_hash_of(source.canonical.path.text)),
        view.add_reference(source).1.finish !is Fail,
    ensures
        ({
            let probe = source.canonical;
            let (after, outcome) = view.add_reference(source);
            &&& after == view
            &&& outcome.finish matches FinishView::Insert { record } && {
                let image = record.kind == StoredImageKind::Raster || record.kind
                    == StoredImageKind::Gif;
                let count = outcome.required.len();
                &&& record.hash == digest::reference_hash_of(probe.path.text)
                &&& store::file_kind(probe) == Ok::<StoredImageKind, ErrorView>(record.kind)
                &&& record.original_path == probe.path
                &&& record.reference_path == Some(view.layout.reference_path(record.hash))
                &&& record.kind != StoredImageKind::Text ==> probe.byte_len == Ok::<
                    u64,
                    Seq<char>,
                >(record.byte_len) && record.text_preview.len() == 0 && record.line_count == 0
                &&& image ==> {
                    let pixels = probe.pixels->Ok_0;
                    &&& probe.pixels is Ok
                    &&& record.width == pixels.width
                    &&& record.height == pixels.height
                    &&& record.thumbnail_path == Some(view.layout.thumbnail_path(record.hash))
                    &&& outcome.required[0] == (ActionView::SavePng {
                        path: record.thumbnail_path->0,
                        image: pixels.thumbnail(),
                    })
                }
                &&& !image ==> record.thumbnail_path is None && record.width == 0 && record.height
                    == 0
                &&& count == if image {
                    3int
                } else {
                    2
                }
                &&& outcome.required[count - 2] == (ActionView::Write {
                    path: view.layout.reference_path(record.hash),
                    bytes: encode_utf8(probe.path.text),
                })
                &&& outcome.required[count - 1] == (ActionView::Write {
                    path: view.layout.metadata_path(record.hash),
                    bytes: encode_utf8(record.display_name),
                })
            }
            &&& outcome.cleanup.len() == 0
        }),
{
}

/// A file that is referred to is called like the file, without the extension where it
/// is an image or a text, and has the extension of its path.
pub proof fn law_reference_name(
    view: StoreView,
    source: SourceView,
    name: Seq<char>,
    stem: Seq<char>,
)
    requires
        source.canonical.path.file_name() == Some(encode_utf8(name)),
        source.canonical.path.file_stem() == Some(encode_utf8(stem)),
    ensures
        view.add_reference(source).1.finish matches FinishView::Insert { record } ==> {
            &&& record.kind == StoredImageKind::File ==> record.display_name
                == summary::display_name(name)
            &&& record.kind != StoredImageKind::File ==> record.display_name
                == summary::display_name(stem)
            &&& record.kind == StoredImageKind::Raster || record.kind == StoredImageKind::Gif
                ==> Some(record.file_extension) == source.canonical.path.lower_extension()
        },
{
    vstd::utf8::encode_utf8_valid_utf8(stem);
    encode_utf8_decode_utf8(stem);
    vstd::utf8::encode_utf8_valid_utf8(name);
    encode_utf8_decode_utf8(name);
}

/// What is no regular file is not referred to, and neither is one whose size, contents
/// or pixels cannot be had where they are needed.
pub proof fn law_reference_refused(view: StoreView, source: SourceView)
    requires
        !view.holds(digest::reference_hash_of(source.canonical.path.text)),
    ensures
        ({
            let probe = source.canonical;
            let (after, outcome) = view.add_reference(source);
            let kind = store::file_kind(probe);
            &&& outcome.finish is Fail ==> after == view && outcome.required.len() == 0
            &&& !source.is_file ==> outcome.finish == (FinishView::Fail {
                error: ErrorView {
                    kind: ErrorKind::NotRegularFile,
                    subject: source.given.path.text,
                    cause: None,
                },
            })
            &&& source.is_file && probe.byte_len is Err ==> outcome.finish == (FinishView::Fail {
                error: ErrorView {
                    kind: ErrorKind::MetadataFailed,
                    subject: probe.path.text,
                    cause: Some(probe.byte_len->Err_0),
                },
            })
            &&& source.is_file && probe.byte_len is Ok ==> (outcome.finish is Fail <==> kind is Err
                || (kind->Ok_0 == StoredImageKind::Text && !(probe.contents matches Ok(bytes)
                && paths::text_bytes(bytes))) || ((kind->Ok_0 == StoredImageKind::Raster
                || kind->Ok_0 == StoredImageKind::Gif) && probe.pixels is Err))
        }),
{
}

// ---------------------------------------------------------------------------
// Where the file goes
// ---------------------------------------------------------------------------

/// A file is taken away only where it is to be moved and lies outside the store.
pub proof fn law_removes_source(path: PathView, root: PathView)
    ensures
        !store::removes_source(path, ImportMode::Copy, root),
        store::removes_source(path, ImportMode::Move, root) <==> !path.starts_with(root),
{
}

/// An image that is moved into the store from outside is removed at the end, once it
/// is stored, and one that lies in the store stays.
pub proof fn law_moved_image_goes(view: StoreView, source: SourceView)
    requires
        source.given.path.is_supported_image_file(),
        view.import(source, ImportMode::Move).1.finish !is Fail,
    ensures
        ({
            let outcome = view.import(source, ImportMode::Move).1;
            &&& !source.given.path.starts_with(view.layout.root) ==> outcome.cleanup == seq![
                ActionView::RemoveIfExists { path: source.given.path },
            ]
            &&& source.given.path.starts_with(view.layout.root) ==> outcome.cleanup.len() == 0
        }),
{
}

/// A text that is moved into the store from outside goes there, or only goes where the
/// store holds it; one that lies in the store is written anew, and stays.
pub proof fn law_moved_text_goes(view: StoreView, source: SourceView, contents: Seq<char>)
    requires
        !contents.contains('\0'),
        source.given.contents == Ok::<Seq<u8>, Seq<char>>(encode_utf8(contents)),
        !source.given.path.is_supported_image_file(),
    ensures
        ({
            let path = source.given.path;
            let hash = digest::blake3_hex(encode_utf8(contents));
            let original = view.layout.original_path(hash, path.normalized_text_extension());
            let outcome = view.import(source, ImportMode::Move).1;
            let inside = path.starts_with(view.layout.root);
            &&& outcome.cleanup.len() == 0
            &&& view.holds(hash) && !inside ==> outcome.required == seq![
                ActionView::RemoveIfExists { path },
            ]
            &&& view.holds(hash) && inside ==> outcome.required.len() == 0
            &&& !view.holds(hash) ==> outcome.required.len() == 2
            &&& !view.holds(hash) && !inside ==> outcome.required[0] == (ActionView::MoveFile {
                from: path,
                to: original,
            })
            &&& !view.holds(hash) && inside ==> outcome.required[0] == (ActionView::Write {
                path: original,
                bytes: encode_utf8(contents),
            })
            &&& !view.holds(hash) ==> outcome.required[1] == (ActionView::Write {
                path: view.layout.metadata_path(hash),
                bytes: encode_utf8(store::text_name(path)),
            })
        }),
{
    paths::law_text_bytes(contents, encode_utf8(contents));
}

/// Which items count as the most recent ones is told by their files: an item that
/// comes to the front has its name touched, and its path first where it is only
/// referred to.
pub proof fn law_promotion_steps(view: StoreView, hash: Seq<char>, i: int)
    requires
        0 <= i < view.records.len(),
        view.records[i].hash == hash,
        store::distinct(view.records),
    ensures
        ({
            let steps = view.promotion_steps(hash);
            let metadata = ActionView::TouchIfPresent { path: view.layout.metadata_path(hash) };
            match view.records[i].reference_path {
                Some(path) => steps == seq![ActionView::Touch { path }, metadata],
                None => steps == seq![metadata],
            }
        }),
{
    store::lemma_position(view.records, hash);
    let at = store::position(view.records, hash);
    assert(at == i);
}

/// What an item the store holds already asks for is only that it counts as the most
/// recent one.
pub proof fn law_held_again(view: StoreView, image: PixelsView, name: Seq<char>)
    requires
        view.holds(digest::blake3_hex(image.pixels)),
    ensures
        ({
            let hash = digest::blake3_hex(image.pixels);
            let (after, outcome) = view.persist_rgba(image, name);
            &&& after == view.promoted(hash)
            &&& outcome.refresh == view.promotion_steps(hash)
            &&& outcome.required.len() == 0
            &&& outcome.cleanup.len() == 0
            &&& outcome.finish == (FinishView::Done { changed: true })
        }),
{
}

/// The same holds of an animation and of a text: where the store holds it, it only
/// comes to the front.
pub proof fn law_file_held_again(view: StoreView, probe: ProbeView, name: Seq<char>, bytes: Seq<u8>)
    requires
        probe.contents == Ok::<Seq<u8>, Seq<char>>(bytes),
        view.holds(digest::blake3_hex(bytes)),
    ensures
        ({
            let hash = digest::blake3_hex(bytes);
            let (after, outcome) = view.persist_gif(probe, name);
            &&& after == view.promoted(hash)
            &&& outcome.refresh == view.promotion_steps(hash)
            &&& outcome.required.len() == 0
            &&& outcome.cleanup.len() == 0
            &&& outcome.finish == (FinishView::Done { changed: true })
        }),
        paths::text_bytes(bytes) ==> ({
            let hash = digest::blake3_hex(bytes);
            let (after, outcome) = view.move_text(probe, ImportMode::Move);
            &&& after == view.promoted(hash)
            &&& outcome.refresh == view.promotion_steps(hash)
            &&& outcome.cleanup.len() == 0
            &&& outcome.finish == (FinishView::Done { changed: true })
        }),
{
}

// ---------------------------------------------------------------------------
// Taking out and moving
// ---------------------------------------------------------------------------

/// The files that go with an item: its own contents but not a file that it only
/// refers to, its thumbnail, its reference and its name; nothing else.
pub proof fn law_removal_steps(layout: LayoutView, record: RecordView, step: ActionView)
    ensures
        store::removal_steps(layout, record).contains(step) <==> match step {
            ActionView::RemoveIfExists { path } => (record.reference_path is None && path
                == record.original_path) || record.thumbnail_path == Some(path)
                || record.reference_path == Some(path) || path == layout.metadata_path(record.hash),
            _ => false,
        },
{
    let steps = store::removal_steps(layout, record);
    let first = if record.reference_path is None {
        seq![ActionView::RemoveIfExists { path: record.original_path }]
    } else {
        Seq::empty()
    };
    let second = store::remove_step(record.thumbnail_path);
    let third = store::remove_step(record.reference_path);
    assert(steps[steps.len() - 1] == (ActionView::RemoveIfExists {
        path: layout.metadata_path(record.hash),
    }));
    if record.reference_path is None {
        assert(steps[0] == first[0]);
    } else {
        assert(steps[(first.len() + second.len()) as int] == third[0]);
    }
    if record.thumbnail_path is Some {
        assert(steps[first.len() as int] == second[0]);
    }
}

/// The files of an item are removed in this order: its contents, its thumbnail, its
/// reference and its name, each once.
pub proof fn law_removal_order(layout: LayoutView, record: RecordView)
    ensures
        ({
            let steps = store::removal_steps(layout, record);
            let contents = ActionView::RemoveIfExists { path: record.original_path };
            let name = ActionView::RemoveIfExists { path: layout.metadata_path(record.hash) };
            match (record.thumbnail_path, record.reference_path) {
                (None, None) => steps == seq![contents, name],
                (Some(path), None) => steps == seq![
                    contents,
                    ActionView::RemoveIfExists { path },
                    name,
                ],
                (None, Some(path)) => steps == seq![ActionView::RemoveIfExists { path }, name],
                (Some(path), Some(reference)) => steps == seq![
                    ActionView::RemoveIfExists { path },
                    ActionView::RemoveIfExists { path: reference },
                    name,
                ],
            }
        }),
{
    let steps = store::removal_steps(layout, record);
    let contents = ActionView::RemoveIfExists { path: record.original_path };
    let name = ActionView::RemoveIfExists { path: layout.metadata_path(record.hash) };
    match (record.thumbnail_path, record.reference_path) {
        (None, None) => {
            assert(steps =~= seq![contents, name]);
        },
        (Some(path), None) => {
            assert(steps =~= seq![contents, ActionView::RemoveIfExists { path }, name]);
        },
        (None, Some(path)) => {
            assert(steps =~= seq![ActionView::RemoveIfExists { path }, name]);
        },
        (Some(path), Some(reference)) => {
            assert(steps =~= seq![
                ActionView::RemoveIfExists { path },
                ActionView::RemoveIfExists { path: reference },
                name,
            ]);
        },
    }
}

/// The files of some items are removed before those of further ones.
pub proof fn law_clearing_order(
    layout: LayoutView,
    first: Seq<RecordView>,
    record: RecordView,
    second: Seq<RecordView>,
)
    ensures
        store::clearing_steps(layout, first + second) == store::clearing_steps(layout, first)
            + store::clearing_steps(layout, second),
        store::clearing_steps(layout, seq![record]) == store::removal_steps(layout, record),
        store::clearing_steps(layout, Seq::empty()) == Seq::<ActionView>::empty(),
    decreases second.len(),
{
    reveal_with_fuel(store::clearing_steps, 2);
    assert(seq![record].drop_last() =~= Seq::empty());
    assert(store::clearing_steps(layout, seq![record]) =~= store::removal_steps(layout, record));
    if second.len() == 0 {
        assert(first + second =~= first);
        assert(store::clearing_steps(layout, first) + store::clearing_steps(layout, second)
            =~= store::clearing_steps(layout, first));
    } else {
        assert((first + second).drop_last() =~= first + second.drop_last());
        law_clearing_order(layout, first, record, second.drop_last());
        assert(store::clearing_steps(layout, first + second) =~= store::clearing_steps(
            layout,
            first,
        ) + store::clearing_steps(layout, second));
    }
}

/// Clearing the store takes away the files of every item, and no others.
pub proof fn law_clearing_steps(layout: LayoutView, items: Seq<RecordView>, step: ActionView)
    ensures
        store::clearing_steps(layout, items).contains(step) <==> exists|i: int|
            0 <= i < items.len() && store::removal_steps(layout, #[trigger] items[i]).contains(step),
    decreases items.len(),
{
    if items.len() > 0 {
        let rest = items.drop_last();
        let before = store::clearing_steps(layout, rest);
        let last = store::removal_steps(layout, items.last());
        let all = store::clearing_steps(layout, items);
        law_clearing_steps(layout, rest, step);
        assert(all == before + last);
        if before.contains(step) {
            let k = choose|k: int| 0 <= k < before.len() && before[k] == step;
            assert(all[k] == step);
            let i = choose|i: int|
                0 <= i < rest.len() && store::removal_steps(layout, #[trigger] rest[i]).contains(
                    step,
                );
            assert(items[i] == rest[i]);
        }
        if last.contains(step) {
            let k = choose|k: int| 0 <= k < last.len() && last[k] == step;
            assert(all[before.len() + k] == step);
            assert(items[items.len() - 1] == items.last());
        }
        if all.contains(step) {
            let k = choose|k: int| 0 <= k < all.len() && all[k] == step;
            if k < before.len() {
                assert(before[k] == step);
            } else {
                assert(last[k - before.len()] == step);
            }
        }
        if exists|i: int|
            0 <= i < items.len() && store::removal_steps(layout, #[trigger] items[i]).contains(
                step,
            ) {
            let i = choose|i: int|
                0 <= i < items.len() && store::removal_steps(layout, #[trigger] items[i]).contains(
                    step,
                );
            if i < rest.len() {
                assert(rest[i] == items[i]);
            }
        }
    }
}

/// An item that is moved stands where it was put, and the others keep their order.
pub proof fn law_moved(items: Seq<RecordView>, from: int, to: int)
    requires
        0 <= from < items.len(),
        0 <= to < items.len(),
    ensures
        store::moved(items, from, to).len() == items.len(),
        store::moved(items, from, to)[to] == items[from],
        store::moved(items, from, to).remove(to) == items.remove(from),
{
    assert(store::moved(items, from, to).remove(to) =~= items.remove(from));
}

// ---------------------------------------------------------------------------
// Which way an import goes
// ---------------------------------------------------------------------------

/// A file that is to be copied is only referred to, and so is one that is neither image
/// nor text, whatever is to become of it; a file of unknown kind that cannot be read
/// is refused.
pub proof fn law_import_refers(view: StoreView, source: SourceView, mode: ImportMode)
    ensures
        ({
            let path = source.given.path;
            let known = path.is_supported_image_file() || path.looks_like_supported_text_path();
            &&& mode == ImportMode::Copy && (known || source.given.contents is Ok) ==> view.import(
                source,
                mode,
            ) == view.add_reference(source)
            &&& !known && source.given.contents is Ok && !paths::text_bytes(
                source.given.contents->Ok_0,
            ) ==> view.import(source, mode) == view.add_reference(source)
            &&& !known && source.given.contents is Err ==> {
                let (after, outcome) = view.import(source, mode);
                &&& after == view
                &&& outcome.finish == (FinishView::Fail {
                    error: ErrorView {
                        kind: ErrorKind::ReadFailed,
                        subject: path.text,
                        cause: Some(source.given.contents->Err_0),
                    },
                })
                &&& outcome.required.len() == 0
            }
        }),
{
}

/// An image that is to be moved into the store is stored as an animation where its
/// extension says so, and otherwise by its pixels, under the name of its file.
pub proof fn law_import_moves_image(view: StoreView, source: SourceView)
    requires
        source.given.path.is_supported_image_file(),
    ensures
        ({
            let given = source.given;
            let name = store::image_name(given.path);
            let (after, outcome) = view.import(source, ImportMode::Move);
            &&& given.path.lower_extension() == Some("gif"@) ==> after == view.persist_gif(
                given,
                name,
            ).0 && outcome.finish == view.persist_gif(given, name).1.finish && outcome.required
                == view.persist_gif(given, name).1.required && outcome.refresh == view.persist_gif(
                given,
                name,
            ).1.refresh
            &&& given.path.lower_extension() != Some("gif"@) && given.pixels is Ok ==> {
                let stored = view.persist_rgba(given.pixels->Ok_0, name);
                &&& after == stored.0
                &&& outcome.finish == stored.1.finish
                &&& outcome.required == stored.1.required
                &&& outcome.refresh == stored.1.refresh
            }
        }),
{
}

/// A reference to a file that the store refers to already takes the place of the old
/// one: that goes, with its thumbnail, and everything else is written as for a new one.
pub proof fn law_reference_replaced(view: StoreView, source: SourceView, i: int)
    requires
        source.is_file,
        0 <= i < view.records.len(),
        view.records[i].hash == digest::reference_hash_of(source.canonical.path.text),
        view.records[i].reference_path is Some,
        store::distinct(view.records),
    ensures
        ({
            let hash = digest::reference_hash_of(source.canonical.path.text);
            let rest = view.with_records(view.records.remove(i));
            let (after, outcome) = view.add_reference(source);
            let anew = rest.add_reference(source).1;
            &&& after.layout == view.layout
            &&& after.records == view.records.remove(i)
            &&& !rest.holds(hash)
            &&& outcome.finish == anew.finish
            &&& outcome.refresh.len() == 0
            &&& outcome.cleanup.len() == 0
            &&& view.records[i].thumbnail_path matches Some(path) ==> outcome.required == seq![
                ActionView::RemoveIfExists { path },
            ] + anew.required
            &&& view.records[i].thumbnail_path is None ==> outcome.required == anew.required
        }),
{
    let hash = digest::reference_hash_of(source.canonical.path.text);
    let rest = view.with_records(view.records.remove(i));
    store::lemma_position(view.records, hash);
    assert(store::position(view.records, hash) == i);
    store::lemma_position(rest.records, hash);
    if rest.holds(hash) {
        let k = store::position(rest.records, hash);
        assert(rest.records[k].hash == hash);
        if k < i {
            assert(rest.records[k] == view.records[k]);
        } else {
            assert(rest.records[k] == view.records[k + 1]);
        }
    }
    let anew = rest.add_reference(source).1;
    assert(rest.stale_steps(hash) == Seq::<ActionView>::empty());
    let outcome = view.add_reference(source).1;
    match view.records[i].thumbnail_path {
        Some(path) => {
            assert(outcome.required =~= seq![ActionView::RemoveIfExists { path }] + anew.required);
        },
        None => {
            assert(outcome.required =~= anew.required);
        },
    }
}

/// Where the store itself keeps an item of the hash, that item only comes to the front.
pub proof fn law_reference_held(view: StoreView, source: SourceView, i: int)
    requires
        source.is_file,
        0 <= i < view.records.len(),
        view.records[i].hash == digest::reference_hash_of(source.canonical.path.text),
        view.records[i].reference_path is None,
        store::distinct(view.records),
    ensures
        ({
            let (after, outcome) = view.add_reference(source);
            &&& after.layout == view.layout
            &&& after.records == seq![view.records[i]] + view.records.remove(i)
            &&& outcome.finish == (FinishView::Done { changed: true })
            &&& outcome.required.len() == 0
            &&& outcome.cleanup.len() == 0
            &&& outcome.refresh == seq![
                ActionView::TouchIfPresent {
                    path: view.layout.metadata_path(view.records[i].hash),
                },
            ]
        }),
{
    let hash = digest::reference_hash_of(source.canonical.path.text);
    store::lemma_position(view.records, hash);
    assert(store::position(view.records, hash) == i);
}

/// How each system shows a file, and that it is this file.
pub proof fn law_revealing(path: PathView)
    ensures
        store::revealing(Platform::MacOs, path) == Ok::<RevealView, ErrorView>(
            RevealView {
                program: "open"@,
                arguments: seq!["-R"@],
                path,
                target: RevealTarget::Item,
            },
        ),
        store::revealing(Platform::Windows, path) == Ok::<RevealView, ErrorView>(
            RevealView {
                program: "explorer"@,
                arguments: seq!["/select,"@],
                path,
                target: RevealTarget::Item,
            },
        ),
        store::revealing(Platform::OtherUnix, path) == Ok::<RevealView, ErrorView>(
            RevealView {
                program: "xdg-open"@,
                arguments: Seq::empty(),
                path,
                target: RevealTarget::Parent,
            },
        ),
        store::revealing(Platform::Unknown, path) is Err,
{
}

/// An operation that ends puts its item first and reports a change, or reports what
/// was said, and changes nothing else.
pub proof fn law_completed(view: StoreView, record: RecordView, changed: bool, error: ErrorView)
    ensures
        ({
            let (after, result) = view.completed(FinishView::Insert { record });
            &&& after.layout == view.layout
            &&& after.records.len() == view.records.len() + 1
            &&& after.records[0] == record
            &&& after.records.skip(1) == view.records
            &&& result == Ok::<bool, ErrorView>(true)
        }),
        view.completed(FinishView::Done { changed }) == (view, Ok::<bool, ErrorView>(changed)),
        view.completed(FinishView::Fail { error }) == (view, Err::<bool, ErrorView>(error)),
{
    let after = view.completed(FinishView::Insert { record }).0;
    assert(after.records.skip(1) =~= view.records);
}

} // verus!
