use std::io::Cursor;

use image::{Delay, Frame, ImageFormat, Rgba, RgbaImage};
use pictray::actions::{DiskAction, Finish, Outcome, Trouble};
use pictray::layout::StoreLayout;
use pictray::loading::{
    load_record, load_reference_record, record_recency, skip_notice, take_in, LoadPlan, Loaded,
    OriginalEntry, ReferenceEntry,
};
use pictray::paths::{ComponentKind, FilePath, PathComponent};
use pictray::pixels::{scaling_fits, RgbaPixels};
use pictray::records::{
    ErrorKind, FileProbe, ImportMode, SourceFile, StoreError, StoredImage, StoredImageKind,
};
use pictray::store::{
    classify_file_kind, reveal_path_in_file_manager, should_remove_source, ClipboardPayload,
    ImageStore, Platform, RevealTarget,
};
use pictray::work::{Work, WorkStep};

const ROOT: &str = "/home/someone/pictray";

// ---------------------------------------------------------------------------
// A disk in memory
// ---------------------------------------------------------------------------

fn file_path(text: &str) -> FilePath {
    let mut components = vec![PathComponent { kind: ComponentKind::RootDir, name: b"/".to_vec() }];
    for name in text.split('/').filter(|name| !name.is_empty()) {
        components.push(PathComponent { kind: ComponentKind::Normal, name: name.as_bytes().to_vec() });
    }
    let parent = text.rfind('/').map(|end| if end == 0 { "/".to_owned() } else { text[..end].to_owned() });
    FilePath { text: text.to_owned(), parent, components }
}

struct DiskFile {
    path: String,
    bytes: Vec<u8>,
    modified: i128,
}

#[derive(Default)]
struct Disk {
    files: Vec<DiskFile>,
    clock: i128,
    /// Paths at which nothing can be changed.
    broken: Vec<String>,
}

impl Disk {
    fn put(&mut self, path: &str, bytes: Vec<u8>) {
        self.clock += 20_000_000;
        let modified = self.clock;
        self.files.retain(|file| file.path != path);
        self.files.push(DiskFile { path: path.to_owned(), bytes, modified });
    }

    fn get(&self, path: &str) -> Option<&DiskFile> {
        self.files.iter().find(|file| file.path == path)
    }

    fn has(&self, path: &str) -> bool {
        self.get(path).is_some()
    }

    fn read_text(&self, path: &str) -> Option<String> {
        self.get(path).and_then(|file| String::from_utf8(file.bytes.clone()).ok())
    }

    fn perform(&mut self, action: &DiskAction) -> Result<(), Trouble> {
        let target = match action {
            DiskAction::Write { path, .. } => path,
            DiskAction::SavePng { path, .. } => path,
            DiskAction::CopyFile { to, .. } => to,
            DiskAction::MoveFile { to, .. } => to,
            DiskAction::RemoveIfExists { path } => path,
            DiskAction::Touch { path } => path,
            DiskAction::TouchIfPresent { path } => path,
        };
        if self.broken.contains(&target.text) {
            return Err(Trouble::Saving { cause: "disk full".to_owned() });
        }
        match action {
            DiskAction::Write { path, bytes } => self.put(&path.text, bytes.clone()),
            DiskAction::SavePng { path, image } => self.put(&path.text, encode_png(image)),
            DiskAction::CopyFile { from, to } => {
                let bytes = self.get(&from.text).map(|file| file.bytes.clone());
                match bytes {
                    Some(bytes) => self.put(&to.text, bytes),
                    None => return Err(Trouble::Saving { cause: "no such file".to_owned() }),
                }
            }
            DiskAction::MoveFile { from, to } => {
                let bytes = self.get(&from.text).map(|file| file.bytes.clone());
                match bytes {
                    Some(bytes) => self.put(&to.text, bytes),
                    None => return Err(Trouble::Saving { cause: "no such file".to_owned() }),
                }
                if self.broken.contains(&from.text) {
                    return Err(Trouble::Removing { cause: "read-only".to_owned() });
                }
                self.files.retain(|file| file.path != from.text);
            }
            DiskAction::RemoveIfExists { path } => {
                self.files.retain(|file| file.path != path.text);
            }
            DiskAction::Touch { path } => match self.get(&path.text).map(|file| file.bytes.clone()) {
                Some(bytes) => self.put(&path.text, bytes),
                None => return Err(Trouble::Saving { cause: "no such file".to_owned() }),
            },
            DiskAction::TouchIfPresent { path } => {
                if let Some(bytes) = self.get(&path.text).map(|file| file.bytes.clone()) {
                    self.put(&path.text, bytes);
                }
            }
        }
        Ok(())
    }

    fn carry_out(&mut self, store: &mut ImageStore, mut work: Work) -> Result<bool, StoreError> {
        loop {
            match work.next(store) {
                WorkStep::Done { result } => return result,
                WorkStep::Perform { action, work: rest } => {
                    work = match self.perform(&action) {
                        Ok(()) => rest,
                        Err(trouble) => rest.failed(&action, &trouble),
                    };
                }
            }
        }
    }

    fn run(&mut self, store: &mut ImageStore, outcome: Outcome) -> Result<bool, StoreError> {
        self.carry_out(store, Work::begin(outcome))
    }

    fn probe(&self, path: &FilePath) -> FileProbe {
        let missing = || "no such file".to_owned();
        match self.get(&path.text) {
            Some(file) => FileProbe {
                path: path.clone(),
                byte_len: Ok(file.bytes.len() as u64),
                contents: Ok(file.bytes.clone()),
                pixels: decode(&file.bytes),
            },
            None => FileProbe {
                path: path.clone(),
                byte_len: Err(missing()),
                contents: Err(missing()),
                pixels: Err(missing()),
            },
        }
    }

    fn source(&self, text: &str) -> SourceFile {
        let path = file_path(text);
        SourceFile {
            given: self.probe(&path),
            is_file: self.has(text),
            canonical: self.probe(&path),
        }
    }

    fn modified(&self, path: &str) -> Option<i128> {
        self.get(path).map(|file| file.modified)
    }

    fn below(&self, dir: &FilePath) -> Vec<FilePath> {
        let start = format!("{}/", dir.text);
        self.files
            .iter()
            .filter(|file| file.path.starts_with(&start))
            .map(|file| file_path(&file.path))
            .collect()
    }

    fn open(&mut self, root: &str) -> ImageStore {
        let layout = store_layout(root);
        let mut loaded: Vec<Loaded> = Vec::new();
        for path in self.below(&layout.originals_dir()) {
            let hash = path.file_stem().unwrap_or_default();
            let metadata = layout.metadata_path(&hash);
            let entry = OriginalEntry {
                probe: self.probe(&path),
                metadata: self.read_text(&metadata.text),
                metadata_modified: self.modified(&metadata.text),
                modified: self.modified(&path.text),
                thumbnail_exists: self.has(&layout.thumbnail_path(&hash).text),
            };
            let plan = load_record(&layout, &entry);
            let failure = self.prepare(&plan);
            take_in(&mut loaded, plan, failure);
        }
        for path in self.below(&layout.file_refs_dir()) {
            let hash = path.file_stem().unwrap_or_default();
            let referred = self.read_text(&path.text);
            let target = file_path(referred.as_deref().unwrap_or("/"));
            let entry = ReferenceEntry {
                failure: if referred.is_some() { None } else { Some("not text".to_owned()) },
                referred: self.probe(&target),
                is_file: self.has(&target.text),
                metadata: self.read_text(&layout.metadata_path(&hash).text),
                modified: self.modified(&path.text),
                path,
            };
            let plan = load_reference_record(&layout, &entry);
            let failure = self.prepare(&plan);
            take_in(&mut loaded, plan, failure);
        }
        ImageStore::open_at(layout, loaded)
    }

    fn prepare(&mut self, plan: &Result<Option<LoadPlan>, StoreError>) -> Option<StoreError> {
        if let Ok(Some(plan)) = plan {
            for action in &plan.steps {
                if let Err(trouble) = self.perform(action) {
                    return Some(action.failure(&trouble));
                }
            }
        }
        None
    }
}

fn store_layout(root: &str) -> StoreLayout {
    StoreLayout { root: file_path(root), separator: '/' }
}

fn encode_png(image: &RgbaPixels) -> Vec<u8> {
    let mut bytes = Vec::new();
    RgbaImage::from_raw(image.width, image.height, image.pixels.clone())
        .unwrap()
        .write_to(&mut Cursor::new(&mut bytes), ImageFormat::Png)
        .unwrap();
    bytes
}

fn decode(bytes: &[u8]) -> Result<RgbaPixels, String> {
    match image::load_from_memory(bytes) {
        Ok(image) => Ok(plain(image.to_rgba8())),
        Err(error) => Err(format!("{error}")),
    }
}

fn plain(image: RgbaImage) -> RgbaPixels {
    RgbaPixels { width: image.width(), height: image.height(), pixels: image.into_raw() }
}

fn one_color(width: u32, height: u32, color: [u8; 4]) -> RgbaPixels {
    plain(RgbaImage::from_pixel(width, height, Rgba(color)))
}

fn test_gif() -> Vec<u8> {
    let mut bytes = Vec::new();
    {
        let mut encoder = image::codecs::gif::GifEncoder::new(&mut bytes);
        let frames = vec![
            Frame::from_parts(
                RgbaImage::from_pixel(2, 2, Rgba([255, 0, 0, 255])),
                0,
                0,
                Delay::from_numer_denom_ms(80, 1),
            ),
            Frame::from_parts(
                RgbaImage::from_pixel(2, 2, Rgba([0, 0, 255, 255])),
                0,
                0,
                Delay::from_numer_denom_ms(80, 1),
            ),
        ];
        encoder.encode_frames(frames).unwrap();
    }
    bytes
}

fn names(store: &ImageStore) -> Vec<String> {
    store.records().iter().map(|record| record.display_name.clone()).collect()
}

// ---------------------------------------------------------------------------
// Storing and reopening
// ---------------------------------------------------------------------------

#[test]
fn reloads_saved_images_on_open() {
    let mut disk = Disk::default();
    let mut store = disk.open(ROOT);
    let first = one_color(2, 2, [255, 0, 0, 255]);
    let second = one_color(3, 1, [0, 255, 0, 255]);

    let outcome = store.persist_rgba_image(&first, "First image");
    assert!(disk.run(&mut store, outcome).unwrap());
    let outcome = store.persist_rgba_image(&second, "Second image");
    assert!(disk.run(&mut store, outcome).unwrap());

    let reopened = disk.open(ROOT);
    assert_eq!(reopened.records().len(), 2);
    assert_eq!((reopened.records()[0].width, reopened.records()[0].height), (3, 1));
    assert_eq!(reopened.records()[0].display_name, "Second image");
    assert_eq!((reopened.records()[1].width, reopened.records()[1].height), (2, 2));
    assert_eq!(reopened.records()[1].display_name, "First image");
}

#[test]
fn readding_existing_image_moves_it_to_front() {
    let mut disk = Disk::default();
    let mut store = disk.open(ROOT);
    let first = one_color(4, 4, [12, 34, 56, 255]);
    let second = one_color(5, 5, [78, 90, 123, 255]);

    let outcome = store.persist_rgba_image(&first, "First");
    assert!(disk.run(&mut store, outcome).unwrap());
    let outcome = store.persist_rgba_image(&second, "Second");
    assert!(disk.run(&mut store, outcome).unwrap());
    assert_eq!(store.records()[0].display_name, "Second");
    assert_eq!(store.records()[1].display_name, "First");

    let outcome = store.persist_rgba_image(&first, "First");
    assert!(disk.run(&mut store, outcome).unwrap());
    assert_eq!(store.records().len(), 2);
    assert_eq!(store.records()[0].display_name, "First");
    assert_eq!(store.records()[1].display_name, "Second");

    // The order is the same when the store is opened again.
    assert_eq!(names(&disk.open(ROOT)), ["First", "Second"]);
}

/// The records as they are when the store is opened again: the length of an image
/// that is stored as PNG is that of its file.
fn reopened_records(store: &ImageStore, disk: &Disk) -> Vec<String> {
    store
        .records()
        .iter()
        .map(|record| {
            let mut record = record.clone();
            if record.kind == StoredImageKind::Raster && record.reference_path.is_none() {
                let file = disk.get(&record.original_path.text).unwrap();
                record.byte_len = file.bytes.len() as u64;
            }
            format!("{record:?}")
        })
        .collect()
}

fn shown_records(store: &ImageStore) -> Vec<String> {
    store.records().iter().map(|record| format!("{record:?}")).collect()
}

/// A store with an item of every kind.
fn full_store(disk: &mut Disk) -> ImageStore {
    let mut store = disk.open(ROOT);
    disk.put("/home/someone/notes.md", b"one\ntwo\n".to_vec());
    disk.put("/home/someone/loop.gif", test_gif());
    disk.put("/home/someone/kept.txt", b"kept".to_vec());
    disk.put("/home/someone/blob.bin", vec![0, 1, 2]);
    let photo = encode_png(&one_color(7, 5, [9, 8, 7, 255]));
    disk.put("/home/someone/photo.png", photo);

    let outcome = store.persist_rgba_image(&one_color(2, 2, [255, 0, 0, 255]), "Red");
    assert!(disk.run(&mut store, outcome).unwrap());
    for (path, mode) in [
        ("/home/someone/notes.md", ImportMode::Move),
        ("/home/someone/loop.gif", ImportMode::Move),
        ("/home/someone/kept.txt", ImportMode::Copy),
        ("/home/someone/blob.bin", ImportMode::Move),
        ("/home/someone/photo.png", ImportMode::Copy),
    ] {
        let source = disk.source(path);
        assert!(source.is_storable(mode));
        let outcome = store.import_path(&source, mode);
        assert!(disk.run(&mut store, outcome).unwrap());
    }
    let bytes = one_color(3, 1, [0, 255, 0, 255]).pixels;
    let outcome = store.add_clipboard_image(3, 1, bytes);
    assert!(disk.run(&mut store, outcome).unwrap());
    store
}

#[test]
fn a_store_is_opened_again_with_its_items_in_their_order() {
    let mut disk = Disk::default();
    let mut store = full_store(&mut disk);
    assert_eq!(
        names(&store),
        ["Clipboard", "photo", "blob.bin", "kept", "loop", "notes", "Red"]
    );
    let reopened = disk.open(ROOT);
    assert_eq!(shown_records(&reopened), reopened_records(&store, &disk));

    // Items that come to the front again.
    let outcome = store.persist_rgba_image(&one_color(2, 2, [255, 0, 0, 255]), "Red");
    assert!(disk.run(&mut store, outcome).unwrap());
    let outcome = store.import_path(&disk.source("/home/someone/kept.txt"), ImportMode::Copy);
    assert!(disk.run(&mut store, outcome).unwrap());
    let reopened = disk.open(ROOT);
    assert_eq!(shown_records(&reopened), reopened_records(&store, &disk));

    // An item that goes.
    for action in store.delete(3) {
        disk.perform(&action).unwrap();
    }
    assert_eq!(names(&store), ["kept", "Red", "Clipboard", "blob.bin", "loop", "notes"]);
    let reopened = disk.open(ROOT);
    assert_eq!(shown_records(&reopened), reopened_records(&store, &disk));

    // And in whichever order the files are found.
    disk.files.reverse();
    let reopened = disk.open(ROOT);
    assert_eq!(shown_records(&reopened), reopened_records(&store, &disk));
}

#[test]
fn a_reference_into_the_store_is_found_again() {
    let mut disk = Disk::default();
    let mut store = full_store(&mut disk);
    let thumbnail = store.records()[0].thumbnail_path.clone().unwrap();
    let before = disk.get(&thumbnail.text).unwrap().bytes.clone();
    let source = disk.source(&thumbnail.text);
    let outcome = store.import_path(&source, ImportMode::Copy);
    assert!(disk.run(&mut store, outcome).unwrap());
    assert_eq!(disk.get(&thumbnail.text).unwrap().bytes, before);
    assert_eq!(store.records()[0].original_path.text, thumbnail.text);
    let reopened = disk.open(ROOT);
    assert_eq!(shown_records(&reopened), reopened_records(&store, &disk));
}

#[test]
fn storing_an_item_leaves_the_files_of_the_others() {
    let mut disk = Disk::default();
    let mut store = full_store(&mut disk);
    let before: Vec<(String, Vec<u8>, i128)> = disk
        .files
        .iter()
        .map(|file| (file.path.clone(), file.bytes.clone(), file.modified))
        .collect();
    let outcome = store.persist_rgba_image(&one_color(6, 6, [1, 2, 3, 255]), "New");
    assert!(disk.run(&mut store, outcome).unwrap());
    for action in store.delete(0) {
        disk.perform(&action).unwrap();
    }
    let after: Vec<(String, Vec<u8>, i128)> = disk
        .files
        .iter()
        .map(|file| (file.path.clone(), file.bytes.clone(), file.modified))
        .collect();
    assert_eq!(before, after);
}

#[test]
fn an_import_leaves_the_other_items_in_their_order() {
    let mut disk = Disk::default();
    let mut store = full_store(&mut disk);
    let before = shown_records(&store);
    disk.put("/home/someone/more.txt", b"more".to_vec());
    let source = disk.source("/home/someone/more.txt");
    let outcome = store.import_path(&source, ImportMode::Copy);
    assert_eq!(disk.run(&mut store, outcome).unwrap(), true);
    assert_eq!(store.records()[0].display_name, "more");
    assert_eq!(shown_records(&store)[1..], before[..]);
    assert_eq!(disk.read_text("/home/someone/more.txt").unwrap(), "more");
}

#[test]
fn referring_twice_to_a_file_changes_nothing() {
    let mut disk = Disk::default();
    let mut store = full_store(&mut disk);
    let path = "/home/someone/photo.png";
    let hash = format!("ref-{}", blake3::hash(path.as_bytes()).to_hex());
    let outcome = store.add_file_reference(&disk.source(path));
    assert!(disk.run(&mut store, outcome).unwrap());
    let once = shown_records(&store);
    let outcome = store.add_file_reference(&disk.source(path));
    assert_eq!(disk.run(&mut store, outcome).unwrap(), true);
    assert_eq!(shown_records(&store), once);
    assert_eq!(store.records()[0].hash, hash);
    let pointer = store.records()[0].reference_path.clone().unwrap();
    assert_eq!(disk.read_text(&pointer.text).unwrap(), path);
}

#[test]
fn images_of_which_no_thumbnail_can_be_made() {
    assert!(scaling_fits(1, 3_100_000, 196, 196));
    assert!(scaling_fits(3_100_000, 1, 196, 196));
    assert!(scaling_fits(800_000, 800_000, 196, 196));
    assert!(!scaling_fits(900_000, 900_000, 196, 196));
    assert!(scaling_fits(0, 0, 196, 196));
    assert!(!scaling_fits(1, 1, 0, 196));
    assert!(!scaling_fits(1, 1, 196, 2000));

    // A buffer that is too small is refused before a thumbnail would be made.
    let mut disk = Disk::default();
    let mut store = disk.open(ROOT);
    let outcome = store.add_clipboard_image(900_000, 900_000, vec![0; 4]);
    let error = disk.run(&mut store, outcome).unwrap_err();
    assert!(matches!(error.kind, ErrorKind::BufferMismatch));

    // A narrow image.
    let tall = plain(RgbaImage::from_fn(1, 5000, |_, y| Rgba([(y / 20) as u8, 0, 0, 255])));
    assert!(tall.is_storable());
    let expected = image::imageops::thumbnail(
        &RgbaImage::from_raw(1, 5000, tall.pixels.clone()).unwrap(),
        196,
        196,
    );
    assert_eq!(tall.thumbnail().pixels, expected.into_raw());
}

#[test]
fn imported_gif_is_preserved_and_reloaded() {
    let mut disk = Disk::default();
    let input_gif = "/home/someone/sample.gif";
    disk.put(input_gif, test_gif());
    let canonical_input = file_path(input_gif);

    let root = "/home/someone/store";
    let mut store = disk.open(root);
    let source = disk.source(input_gif);
    assert!(source.given.is_storable());
    let outcome = store.add_image_file(&source);
    assert!(disk.run(&mut store, outcome).unwrap());
    assert_eq!(store.records().len(), 1);
    assert_eq!(store.records()[0].kind, StoredImageKind::Gif);
    assert_eq!(store.records()[0].original_path, canonical_input);
    assert!(store.records()[0].reference_path.is_some());
    assert_eq!(store.records()[0].original_path.extension(), Some("gif".to_owned()));

    let reopened = disk.open(root);
    assert_eq!(reopened.records().len(), 1);
    assert_eq!(reopened.records()[0].kind, StoredImageKind::Gif);
    assert_eq!(reopened.records()[0].original_path, canonical_input);
    assert!(reopened.records()[0].reference_path.is_some());
    assert_eq!(reopened.records()[0].original_path.extension(), Some("gif".to_owned()));
    assert!(reopened.records()[0] == store.records()[0]);
}

#[test]
fn imported_text_file_is_preserved_and_reloaded() {
    let mut disk = Disk::default();
    let input_file = "/home/someone/snippet.rs";
    disk.put(
        input_file,
        b"fn main() {\n    println!(\"hello from pictray\");\n}\n".to_vec(),
    );
    let canonical_input = file_path(input_file);

    let root = "/home/someone/store";
    let mut store = disk.open(root);
    let outcome = store.import_path(&disk.source(input_file), ImportMode::Copy);
    assert!(disk.run(&mut store, outcome).unwrap());
    assert_eq!(store.records().len(), 1);
    assert_eq!(store.records()[0].kind, StoredImageKind::Text);
    assert_eq!(store.records()[0].file_extension, "rs");
    assert!(store.records()[0].thumbnail_path.is_none());
    assert_eq!(store.records()[0].original_path, canonical_input);
    assert!(store.records()[0].reference_path.is_some());
    assert!(store.records()[0].text_preview.contains("println!"));
    assert!(disk.has(input_file));

    let reopened = disk.open(root);
    assert_eq!(reopened.records().len(), 1);
    assert_eq!(reopened.records()[0].kind, StoredImageKind::Text);
    assert_eq!(reopened.records()[0].file_extension, "rs");
    assert_eq!(reopened.records()[0].original_path, canonical_input);
    assert!(reopened.records()[0].reference_path.is_some());
    assert!(reopened.records()[0].text_preview.contains("println!"));
}

#[test]
fn generic_file_reference_is_preserved_without_copying_source() {
    let mut disk = Disk::default();
    let input_file = "/home/someone/archive.bin";
    disk.put(input_file, vec![0, 159, 146, 150, 255]);

    let root = "/home/someone/store";
    let mut store = disk.open(root);
    let outcome = store.add_file_reference(&disk.source(input_file));
    assert!(disk.run(&mut store, outcome).unwrap());
    assert_eq!(store.records().len(), 1);
    assert_eq!(store.records()[0].kind, StoredImageKind::File);
    assert_eq!(store.records()[0].file_extension, "bin");
    assert_eq!(store.records()[0].byte_len, 5);
    assert!(disk.has(input_file));

    let reference_path = store.records()[0]
        .reference_path
        .clone()
        .expect("file references store a pointer file");
    assert!(disk.has(&reference_path.text));

    let mut reopened = disk.open(root);
    assert_eq!(reopened.records().len(), 1);
    assert_eq!(reopened.records()[0].kind, StoredImageKind::File);
    assert_eq!(reopened.records()[0].display_name, "archive.bin");

    let steps = reopened.delete(0);
    assert!(disk.carry_out(&mut reopened, Work::removing(steps)).unwrap());
    assert!(disk.has(input_file));
    assert!(!disk.has(&reference_path.text));
}

#[test]
fn moving_text_file_removes_source_after_buffering() {
    let mut disk = Disk::default();
    let input_file = "/home/someone/todo.txt";
    disk.put(input_file, b"ship move support\nship copy support\n".to_vec());

    let root = "/home/someone/store";
    let mut store = disk.open(root);
    let outcome = store.import_path(&disk.source(input_file), ImportMode::Move);
    assert!(disk.run(&mut store, outcome).unwrap());
    assert_eq!(store.records().len(), 1);
    assert_eq!(store.records()[0].kind, StoredImageKind::Text);
    assert!(!disk.has(input_file));
    assert!(disk.has(&store.records()[0].original_path.text));
}

// ---------------------------------------------------------------------------
// Hashes, thumbnails and buffers
// ---------------------------------------------------------------------------

#[test]
fn items_are_told_apart_by_their_blake3_hash() {
    let mut disk = Disk::default();
    let mut store = disk.open(ROOT);
    let image = one_color(1, 1, [1, 2, 3, 4]);
    let outcome = store.persist_rgba_image(&image, "x");
    assert!(disk.run(&mut store, outcome).unwrap());
    let expected = blake3::hash(&[1, 2, 3, 4]).to_hex().to_string();
    assert_eq!(store.records()[0].hash, expected);
    assert_eq!(store.records()[0].original_path.text, format!("{ROOT}/originals/{expected}.png"));
    assert_eq!(
        pictray::digest::reference_hash("abc"),
        "ref-6437b3ac38465133ffb63b75273a8db548c558465d79db03fd359c6cd5bd9d85"
    );
}

#[test]
fn thumbnails_have_a_fixed_size_and_the_colors_of_the_image() {
    let mut disk = Disk::default();
    let mut store = disk.open(ROOT);
    let image = one_color(400, 300, [10, 20, 30, 255]);
    assert!(image.is_storable());
    let outcome = store.persist_rgba_image(&image, "x");
    assert!(disk.run(&mut store, outcome).unwrap());
    let path = store.records()[0].thumbnail_path.clone().unwrap();
    let saved = decode(&disk.get(&path.text).unwrap().bytes).unwrap();
    assert_eq!((saved.width, saved.height), (196, 196));
    assert!(saved.pixels.chunks(4).all(|pixel| pixel == [10, 20, 30, 255]));
    assert_eq!(image.frame().pixels.len(), 4 * 320 * 168);
}

#[test]
fn clipboard_images_need_a_buffer_of_their_size() {
    let mut disk = Disk::default();
    let mut store = disk.open(ROOT);
    let outcome = store.add_clipboard_image(2, 2, vec![7; 15]);
    let error = disk.run(&mut store, outcome).unwrap_err();
    assert_eq!(error.kind, ErrorKind::BufferMismatch);
    assert_eq!(error.message(), "clipboard image buffer does not match dimensions");
    assert!(store.records().is_empty());

    let outcome = store.add_clipboard_image(2, 2, vec![7; 16]);
    assert!(disk.run(&mut store, outcome).unwrap());
    assert_eq!(names(&store), ["Clipboard"]);
    assert_eq!(store.records()[0].byte_len, 16);
}

// ---------------------------------------------------------------------------
// Importing
// ---------------------------------------------------------------------------

#[test]
fn storing_an_image_twice_changes_nothing() {
    let mut disk = Disk::default();
    let mut store = disk.open(ROOT);
    let image = one_color(2, 1, [9, 9, 9, 255]);
    let outcome = store.persist_rgba_image(&image, "One");
    assert!(disk.run(&mut store, outcome).unwrap());
    let before: Vec<StoredImage> = store.records().clone();
    let outcome = store.persist_rgba_image(&image, "Two");
    assert!(disk.run(&mut store, outcome).unwrap());
    assert!(pictray::records::equal_records(&before, store.records()));
}

#[test]
fn a_file_is_referred_to_once() {
    let mut disk = Disk::default();
    disk.put("/home/someone/a.bin", vec![0, 1]);
    disk.put("/home/someone/b.bin", vec![0, 2]);
    let mut store = disk.open(ROOT);
    for path in ["/home/someone/a.bin", "/home/someone/b.bin", "/home/someone/a.bin"] {
        let outcome = store.import_path(&disk.source(path), ImportMode::Copy);
        assert!(disk.run(&mut store, outcome).unwrap());
    }
    assert_eq!(names(&store), ["a.bin", "b.bin"]);
    assert_eq!(names(&disk.open(ROOT)), ["a.bin", "b.bin"]);
}

#[test]
fn a_moved_image_is_stored_and_its_source_goes() {
    let mut disk = Disk::default();
    let image = one_color(3, 2, [1, 1, 1, 255]);
    disk.put("/home/someone/ My photo .PNG", encode_png(&image));
    let mut store = disk.open(ROOT);
    let outcome =
        store.import_path(&disk.source("/home/someone/ My photo .PNG"), ImportMode::Move);
    assert!(disk.run(&mut store, outcome).unwrap());
    assert_eq!(names(&store), ["My photo"]);
    assert_eq!(store.records()[0].kind, StoredImageKind::Raster);
    assert!(!disk.has("/home/someone/ My photo .PNG"));

    let reopened = disk.open(ROOT);
    let mut expected = store.records()[0].clone();
    expected.byte_len = disk.get(&expected.original_path.text).unwrap().bytes.len() as u64;
    assert!(reopened.records()[0] == expected);
}

#[test]
fn a_moved_gif_is_stored_as_it_is() {
    let mut disk = Disk::default();
    disk.put("/home/someone/dance.gif", test_gif());
    let mut store = disk.open(ROOT);
    let outcome = store.import_path(&disk.source("/home/someone/dance.gif"), ImportMode::Move);
    assert!(disk.run(&mut store, outcome).unwrap());
    assert!(!disk.has("/home/someone/dance.gif"));
    let record = store.records()[0].clone();
    assert_eq!(disk.get(&record.original_path.text).unwrap().bytes, test_gif());
    assert_eq!((record.width, record.height), (2, 2));
    assert!(disk.open(ROOT).records()[0] == record);
}

#[test]
fn files_of_the_store_itself_are_not_moved_away() {
    let inside = file_path("/home/someone/pictray/originals/x.txt");
    let outside = file_path("/home/someone/pictray-notes/x.txt");
    let root = file_path(ROOT);
    assert!(!should_remove_source(&inside, ImportMode::Move, &root));
    assert!(should_remove_source(&outside, ImportMode::Move, &root));
    assert!(!should_remove_source(&outside, ImportMode::Copy, &root));
}

#[test]
fn a_moved_text_is_found_again() {
    let mut disk = Disk::default();
    disk.put("/home/someone/Notes.MD", b"# Title\r\n\r\nbody\n".to_vec());
    let mut store = disk.open(ROOT);
    let outcome = store.import_path(&disk.source("/home/someone/Notes.MD"), ImportMode::Move);
    assert!(disk.run(&mut store, outcome).unwrap());
    let record = store.records()[0].clone();
    assert_eq!(record.file_extension, "md");
    assert_eq!(record.line_count, 3);
    assert_eq!(record.byte_len, 16);
    assert!(disk.open(ROOT).records()[0] == record);
}

#[test]
fn a_known_text_only_comes_to_the_front() {
    let mut disk = Disk::default();
    disk.put("/home/someone/a.txt", b"same".to_vec());
    disk.put("/home/someone/b.txt", b"same".to_vec());
    disk.put("/home/someone/c.txt", b"other".to_vec());
    let mut store = disk.open(ROOT);
    for path in ["/home/someone/a.txt", "/home/someone/c.txt", "/home/someone/b.txt"] {
        let outcome = store.import_path(&disk.source(path), ImportMode::Move);
        assert!(disk.run(&mut store, outcome).unwrap());
        assert!(!disk.has(path));
    }
    assert_eq!(names(&store), ["a", "c"]);
}

#[test]
fn kinds_of_files() {
    let mut disk = Disk::default();
    disk.put("/f/a.GIF", vec![1]);
    disk.put("/f/a.jpeg", vec![1]);
    disk.put("/f/Makefile", vec![0]);
    disk.put("/f/readable", b"text".to_vec());
    disk.put("/f/binary", vec![0, 255]);
    let kind = |path: &str| classify_file_kind(&disk.probe(&file_path(path)));
    assert_eq!(kind("/f/a.GIF").unwrap(), StoredImageKind::Gif);
    assert_eq!(kind("/f/a.jpeg").unwrap(), StoredImageKind::Raster);
    assert_eq!(kind("/f/Makefile").unwrap(), StoredImageKind::Text);
    assert_eq!(kind("/f/readable").unwrap(), StoredImageKind::Text);
    assert_eq!(kind("/f/binary").unwrap(), StoredImageKind::File);
    assert_eq!(kind("/f/missing").unwrap_err().kind, ErrorKind::ReadFailed);
}

// ---------------------------------------------------------------------------
// Errors
// ---------------------------------------------------------------------------

#[test]
fn errors_of_imports() {
    let mut disk = Disk::default();
    disk.put("/f/broken.png", b"no image".to_vec());
    disk.put("/f/broken.txt", vec![0, 255]);
    let mut store = disk.open(ROOT);

    let outcome = store.add_file_reference(&disk.source("/f/none"));
    let error = disk.run(&mut store, outcome).unwrap_err();
    assert_eq!(error.kind, ErrorKind::NotRegularFile);
    assert_eq!(error.message(), "/f/none is not a regular file");

    let outcome = store.import_path(&disk.source("/f/none"), ImportMode::Copy);
    let error = disk.run(&mut store, outcome).unwrap_err();
    assert_eq!(error.kind, ErrorKind::ReadFailed);
    assert_eq!(error.message(), "failed to read /f/none: no such file");

    let outcome = store.import_path(&disk.source("/f/broken.png"), ImportMode::Move);
    let error = disk.run(&mut store, outcome).unwrap_err();
    assert_eq!(error.kind, ErrorKind::DecodeFailed);
    assert!(error.message().starts_with("failed to decode /f/broken.png: "));

    let outcome = store.import_path(&disk.source("/f/broken.txt"), ImportMode::Move);
    let error = disk.run(&mut store, outcome).unwrap_err();
    assert_eq!(error.kind, ErrorKind::NotTextFile);
    assert_eq!(error.message(), "/f/broken.txt does not look like a text file");

    let mut source = disk.source("/f/broken.png");
    source.canonical.byte_len = Err("gone".to_owned());
    let outcome = store.add_image_file(&source);
    let error = disk.run(&mut store, outcome).unwrap_err();
    assert_eq!(error.kind, ErrorKind::MetadataFailed);
    assert_eq!(error.message(), "failed to read metadata for /f/broken.png: gone");
    assert!(store.records().is_empty());
}

#[test]
fn a_required_step_that_fails_leaves_the_store_as_it_was() {
    let mut disk = Disk::default();
    let mut store = disk.open(ROOT);
    let image = one_color(1, 1, [5, 5, 5, 255]);
    let hash = blake3::hash(&image.pixels).to_hex().to_string();
    let thumbnail = format!("{ROOT}/thumbnails/{hash}.png");
    disk.broken.push(thumbnail.clone());
    let outcome = store.persist_rgba_image(&image, "x");
    let error = disk.run(&mut store, outcome).unwrap_err();
    assert_eq!(error.kind, ErrorKind::SaveFailed);
    assert_eq!(error.message(), format!("failed to save {thumbnail}: disk full"));
    assert!(store.records().is_empty());
    assert!(!disk.has(&format!("{ROOT}/metadata/{hash}.txt")));
}

#[test]
fn a_source_that_stays_is_reported_after_the_image_is_stored() {
    let mut disk = Disk::default();
    disk.put("/f/a.png", encode_png(&one_color(1, 1, [1, 2, 3, 255])));
    disk.broken.push("/f/a.png".to_owned());
    let mut store = disk.open(ROOT);
    let outcome = store.import_path(&disk.source("/f/a.png"), ImportMode::Move);
    let error = disk.run(&mut store, outcome).unwrap_err();
    assert_eq!(error.message(), "failed to remove /f/a.png: disk full");
    assert_eq!(names(&store), ["a"]);
}

#[test]
fn a_text_that_cannot_be_moved_away_is_reported() {
    let mut disk = Disk::default();
    disk.put("/f/a.txt", b"abc".to_vec());
    disk.broken.push("/f/a.txt".to_owned());
    let mut store = disk.open(ROOT);
    let outcome = store.import_path(&disk.source("/f/a.txt"), ImportMode::Move);
    let error = disk.run(&mut store, outcome).unwrap_err();
    assert_eq!(error.kind, ErrorKind::RemoveFailed);
    assert_eq!(error.message(), "failed to remove /f/a.txt: read-only");
    assert!(store.records().is_empty());
}

#[test]
fn a_refresh_that_fails_is_passed_over() {
    let mut disk = Disk::default();
    let mut store = disk.open(ROOT);
    let image = one_color(1, 1, [5, 5, 5, 255]);
    let outcome = store.persist_rgba_image(&image, "x");
    assert!(disk.run(&mut store, outcome).unwrap());
    let hash = store.records()[0].hash.clone();
    disk.broken.push(format!("{ROOT}/metadata/{hash}.txt"));
    let outcome = store.persist_rgba_image(&image, "x");
    assert!(disk.run(&mut store, outcome).unwrap());
}

#[test]
fn errors_about_indices() {
    let mut disk = Disk::default();
    let mut store = disk.open(ROOT);
    assert_eq!(
        store.copy_to_clipboard(3).unwrap_err().message(),
        "image index 3 does not exist"
    );
    assert_eq!(store.drag_path(0).unwrap_err().message(), "item index 0 does not exist");
    assert_eq!(
        store.open_in_associated_app(12).unwrap_err().message(),
        "item index 12 does not exist"
    );
    assert_eq!(
        store.reveal_in_file_manager(1, Platform::MacOs).unwrap_err().kind,
        ErrorKind::NoItemAt
    );
    assert_eq!(store.move_record(0, 0).unwrap_err().kind, ErrorKind::NoItemAt);
    assert!(store.copy_latest_to_clipboard().is_none());
    assert!(store.delete(0).is_empty());
}

#[test]
fn messages_of_the_other_errors() {
    let path = file_path("/f/x");
    let message = |kind| StoreError::of_path(kind, &path).message();
    assert_eq!(message(ErrorKind::NotTextItem), "/f/x is not a supported text item");
    assert_eq!(message(ErrorKind::OpenFailed), "failed to open /f/x");
    assert_eq!(message(ErrorKind::PreviewFailed), "failed to open preview /f/x");
    assert_eq!(message(ErrorKind::RevealFailed), "failed to reveal /f/x");
    assert_eq!(
        StoreError::bare(ErrorKind::NoPreview).message(),
        "this item does not expose image previews"
    );
    assert_eq!(
        StoreError::bare(ErrorKind::RevealUnsupported).message(),
        "revealing files is not supported on this platform"
    );
}

// ---------------------------------------------------------------------------
// Opening
// ---------------------------------------------------------------------------

#[test]
fn the_store_of_a_user_lies_below_the_local_data() {
    let layout = StoreLayout::of_user(Some(file_path("/data")), file_path("/tmp"), '/');
    assert_eq!(layout.root.text, "/data/pictray");
    let dirs: Vec<String> = layout.directories().iter().map(|dir| dir.text.clone()).collect();
    assert_eq!(
        dirs,
        [
            "/data/pictray/originals",
            "/data/pictray/thumbnails",
            "/data/pictray/metadata",
            "/data/pictray/file-refs"
        ]
    );
    let layout = StoreLayout::of_user(None, file_path("/tmp"), '/');
    assert_eq!(layout.root.text, "/tmp/pictray");
}

#[test]
fn files_that_cannot_be_used_are_skipped() {
    let mut disk = Disk::default();
    disk.put(&format!("{ROOT}/originals/abc.png"), b"no image".to_vec());
    disk.put(&format!("{ROOT}/originals/def.txt"), vec![0, 255]);
    disk.put(&format!("{ROOT}/originals/good.txt"), b"good".to_vec());
    disk.put(&format!("{ROOT}/file-refs/ref-1.path"), b"/f/gone".to_vec());
    disk.put(&format!("{ROOT}/file-refs/ref-2.path"), vec![255]);
    let store = disk.open(ROOT);
    assert_eq!(names(&store), ["Item GOOD"]);

    let path = file_path("/s/originals/abc.png");
    let error = StoreError::of_path(ErrorKind::NotTextItem, &path);
    assert_eq!(
        skip_notice(false, &path, &error),
        "skipping stored image /s/originals/abc.png: /s/originals/abc.png is not a supported text item"
    );
    assert_eq!(
        skip_notice(true, &path, &error),
        "skipping file reference /s/originals/abc.png: /s/originals/abc.png is not a supported text item"
    );
}

#[test]
fn a_missing_thumbnail_is_made_when_the_store_is_opened() {
    let mut disk = Disk::default();
    let mut store = disk.open(ROOT);
    let outcome = store.persist_rgba_image(&one_color(2, 2, [1, 2, 3, 255]), "x");
    assert!(disk.run(&mut store, outcome).unwrap());
    let thumbnail = store.records()[0].thumbnail_path.clone().unwrap();
    disk.files.retain(|file| file.path != thumbnail.text);
    let reopened = disk.open(ROOT);
    assert!(disk.has(&thumbnail.text));
    assert_eq!(reopened.records().len(), 1);

    disk.files.retain(|file| file.path != thumbnail.text);
    disk.broken.push(thumbnail.text.clone());
    assert!(disk.open(ROOT).records().is_empty());
}

#[test]
fn records_are_ordered_by_time_and_then_by_hash() {
    let item = |modified: i128, hash: &str| Loaded {
        modified,
        record: StoredImage {
            hash: hash.to_owned(),
            display_name: hash.to_owned(),
            width: 0,
            height: 0,
            kind: StoredImageKind::Text,
            original_path: file_path("/x"),
            thumbnail_path: None,
            reference_path: None,
            text_preview: String::new(),
            line_count: 0,
            byte_len: 0,
            file_extension: String::new(),
        },
    };
    let loaded = vec![item(1, "b"), item(5, "a"), item(1, "c"), item(1, "ba"), item(5, "a")];
    let store = ImageStore::open_at(store_layout(ROOT), loaded);
    assert_eq!(names(&store), ["a", "a", "c", "ba", "b"]);
    assert_eq!(record_recency(Some(3), Some(4)), 3);
    assert_eq!(record_recency(None, Some(4)), 4);
    assert_eq!(record_recency(None, None), 0);
}

// ---------------------------------------------------------------------------
// Taking out, reordering and handing out
// ---------------------------------------------------------------------------

fn store_of_three(disk: &mut Disk) -> ImageStore {
    let mut store = disk.open(ROOT);
    for (shade, name) in [(1, "one"), (2, "two"), (3, "three")] {
        let outcome = store.persist_rgba_image(&one_color(1, 1, [shade, 0, 0, 255]), name);
        assert!(disk.run(&mut store, outcome).unwrap());
    }
    store
}

#[test]
fn clearing_removes_all_files_of_the_store_and_no_others() {
    let mut disk = Disk::default();
    disk.put("/f/a.bin", vec![0]);
    let mut store = store_of_three(&mut disk);
    let outcome = store.import_path(&disk.source("/f/a.bin"), ImportMode::Copy);
    assert!(disk.run(&mut store, outcome).unwrap());
    assert_eq!(store.records().len(), 4);
    let steps = store.clear();
    assert!(disk.carry_out(&mut store, Work::removing(steps)).unwrap());
    assert!(store.records().is_empty());
    assert_eq!(disk.files.len(), 1);
    assert!(disk.has("/f/a.bin"));
}

#[test]
fn a_file_that_cannot_be_removed_ends_the_clearing() {
    let mut disk = Disk::default();
    let mut store = store_of_three(&mut disk);
    let first = store.records()[0].original_path.text.clone();
    disk.broken.push(first.clone());
    let before = disk.files.len();
    let steps = store.clear();
    let error = disk.carry_out(&mut store, Work::removing(steps)).unwrap_err();
    assert_eq!(error.message(), format!("failed to remove {first}: disk full"));
    assert!(store.records().is_empty());
    assert_eq!(disk.files.len(), before);
}

#[test]
fn moving_an_item_and_moving_it_back() {
    let mut disk = Disk::default();
    let mut store = store_of_three(&mut disk);
    assert_eq!(names(&store), ["three", "two", "one"]);
    assert!(store.move_record(0, 2).unwrap());
    assert_eq!(names(&store), ["two", "one", "three"]);
    assert!(store.move_record(2, 0).unwrap());
    assert_eq!(names(&store), ["three", "two", "one"]);
    assert!(!store.move_record(1, 1).unwrap());
    assert_eq!(store.move_record(1, 3).unwrap_err().message(), "item index 3 does not exist");
}

#[test]
fn what_goes_to_the_clipboard() {
    let mut disk = Disk::default();
    disk.put("/f/a.bin", vec![0]);
    disk.put("/f/a.txt", b"abc".to_vec());
    disk.put("/f/a.png", encode_png(&one_color(1, 1, [1, 1, 1, 255])));
    let mut store = store_of_three(&mut disk);
    for path in ["/f/a.bin", "/f/a.txt", "/f/a.png"] {
        let outcome = store.import_path(&disk.source(path), ImportMode::Copy);
        assert!(disk.run(&mut store, outcome).unwrap());
    }
    let payload = |index| store.copy_to_clipboard(index).unwrap();
    assert!(matches!(payload(0), ClipboardPayload::FileList { path } if path.text == "/f/a.png"));
    assert!(matches!(payload(1), ClipboardPayload::TextOfFile { path } if path.text == "/f/a.txt"));
    assert!(matches!(payload(2), ClipboardPayload::FileList { path } if path.text == "/f/a.bin"));
    assert!(matches!(payload(3), ClipboardPayload::ImageOfFile { .. }));
    assert!(matches!(
        store.copy_latest_to_clipboard(),
        Some(ClipboardPayload::FileList { path }) if path.text == "/f/a.png"
    ));
    assert_eq!(store.drag_path(1).unwrap().text, "/f/a.txt");
    assert_eq!(store.open_in_associated_app(2).unwrap().text, "/f/a.bin");
    assert_eq!(store.root().text, ROOT);

    let mut lone = store.records()[2].clone();
    lone.reference_path = None;
    let loaded = vec![Loaded { modified: 0, record: lone }];
    let other = ImageStore::open_at(store_layout(ROOT), loaded);
    assert!(matches!(
        other.copy_to_clipboard(0).unwrap(),
        ClipboardPayload::Text { text } if text == "/f/a.bin"
    ));
}

#[test]
fn revealing_files() {
    let path = || file_path("/f/a.bin");
    let request = reveal_path_in_file_manager(Platform::MacOs, path()).unwrap();
    assert_eq!((request.program.as_str(), request.arguments), ("open", vec!["-R".to_owned()]));
    assert_eq!(request.target, RevealTarget::Item);
    let request = reveal_path_in_file_manager(Platform::Windows, path()).unwrap();
    assert_eq!(request.program, "explorer");
    assert!(request.outcome(Ok(true)).is_ok());
    assert_eq!(
        request.outcome(Ok(false)).unwrap_err().message(),
        "failed to reveal /f/a.bin"
    );
    assert_eq!(
        request.outcome(Err("no program".to_owned())).unwrap_err().message(),
        "failed to reveal /f/a.bin: no program"
    );
    assert_eq!(request.arguments, vec!["/select,".to_owned()]);
    let request = reveal_path_in_file_manager(Platform::OtherUnix, path()).unwrap();
    assert_eq!(request.program, "xdg-open");
    assert!(request.arguments.is_empty());
    assert_eq!(request.target, RevealTarget::Parent);
    assert_eq!(request.outcome(Ok(false)).unwrap_err().message(), "failed to open /f");
    assert_eq!(
        reveal_path_in_file_manager(Platform::Unknown, path()).unwrap_err().kind,
        ErrorKind::RevealUnsupported
    );
}

#[test]
fn previews_of_items() {
    let mut disk = Disk::default();
    disk.put("/f/a.txt", b"abc".to_vec());
    let mut store = store_of_three(&mut disk);
    let outcome = store.import_path(&disk.source("/f/a.txt"), ImportMode::Copy);
    assert!(disk.run(&mut store, outcome).unwrap());
    assert_eq!(store.records()[0].preview_rgba().unwrap_err().kind, ErrorKind::NoPreview);
    let image = store.records()[1].clone();
    assert_eq!(image.preview_rgba().unwrap(), image.original_path);
}

#[test]
fn completing_an_operation() {
    let mut disk = Disk::default();
    let mut store = disk.open(ROOT);
    assert!(!store.complete(Finish::Done { changed: false }).unwrap());
    let error = StoreError::bare(ErrorKind::NoPreview);
    assert_eq!(store.complete(Finish::Fail { error }).unwrap_err().kind, ErrorKind::NoPreview);
    assert!(store.promote_existing("none").is_none());
}
