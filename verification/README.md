# Pictray

Pictray is a small tray application that keeps a history of copied images and
dropped files. It starts hidden, watches the clipboard for images, stores them
locally, and lets recent items be reopened or copied again from a compact window.

- Images are stored once; one that comes again moves to the front.
- A file that is dropped into the window is kept as a reference, and its path is
  copied to the clipboard.
- `Ctrl+Shift+C` copies the most recent item from anywhere; `Ctrl+V` or `Cmd+V`
  pastes into the open window, and `Ctrl+C` or `Cmd+C` copies the selected item.
- Items lie below the local data directory, in `pictray/originals`,
  `pictray/thumbnails`, `pictray/metadata` and `pictray/file-refs`.

## Layout

- `src/` is the library, verified with Verus: which items there are and in what
  order, what has to be done on disk, what the window says and shows. It does no
  I/O; it takes what was read as plain values, and hands out the work to be done.
- `app/` is the application around it: files, clipboard, hotkey, tray and window.
- `tests/` runs the library, over a disk in memory where one is needed.

## What the library rests on

A few functions are believed rather than proved, each with a contract and a note
where it is declared: `blake3::hash`, `image::imageops::thumbnail` and
`image::RgbaImage::from_raw` in `digest.rs` and `pixels.rs`; `String::push`,
`str::from_utf8` and `str::to_uppercase` in `text.rs`.
