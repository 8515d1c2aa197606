use pictray::clipboard::{
    clipboard_path_candidates, extract_existing_paths_from_clipboard_text,
    parse_clipboard_path_candidate, ClipboardWatch, Paste, PasteRequest,
};
use pictray::paths::{ComponentKind, FilePath, PathComponent};
use pictray::records::{ErrorKind, StoreError};
use pictray::store::ImageStore;

fn file(name: &str) -> FilePath {
    FilePath {
        text: name.to_owned(),
        parent: None,
        components: vec![PathComponent { kind: ComponentKind::Normal, name: name.as_bytes().to_vec() }],
    }
}

fn texts(paths: &[FilePath]) -> Vec<String> {
    paths.iter().map(|path| path.text.clone()).collect()
}

#[test]
fn candidates_of_lines() {
    let parse = |line: &str| parse_clipboard_path_candidate(line, false);
    assert_eq!(parse("/a/b"), Some("/a/b".to_owned()));
    assert_eq!(parse("  \"/a b\"  "), Some("/a b".to_owned()));
    assert_eq!(parse("'\"x\"'"), Some("x".to_owned()));
    assert_eq!(parse("\" x \""), Some(" x ".to_owned()));
    assert_eq!(parse("file:///tmp/x"), Some("/tmp/x".to_owned()));
    assert_eq!(parse("file://"), Some(String::new()));
    assert_eq!(parse("FILE:///x"), Some("FILE:///x".to_owned()));
    assert_eq!(parse("file:/x"), Some("file:/x".to_owned()));
    assert_eq!(parse(" \t "), None);
    assert_eq!(parse("\"'\""), None);
    assert_eq!(parse("/C:/x"), Some("/C:/x".to_owned()));
}

#[test]
fn candidates_of_lines_on_windows() {
    let parse = |line: &str| parse_clipboard_path_candidate(line, true);
    assert_eq!(parse("file:///C:/x"), Some("C:/x".to_owned()));
    assert_eq!(parse("/c:"), Some("c:".to_owned()));
    assert_eq!(parse("/é:/x"), Some("/é:/x".to_owned()));
    assert_eq!(parse("//server/x"), Some("//server/x".to_owned()));
    assert_eq!(parse("/c"), Some("/c".to_owned()));
}

#[test]
fn candidates_of_texts() {
    assert_eq!(clipboard_path_candidates("/a\r\n\n '/b' \nfile:///c", false), ["/a", "/b", "/c"]);
    assert!(clipboard_path_candidates("", false).is_empty());
}

#[test]
fn only_regular_files_and_each_once() {
    let probed = vec![
        (file("a"), true),
        (file("b"), false),
        (file("c"), true),
        (file("a"), true),
        (file("b"), true),
    ];
    assert_eq!(texts(&extract_existing_paths_from_clipboard_text(probed)), ["a", "c", "b"]);
}

fn imported(request: PasteRequest) -> String {
    match request {
        PasteRequest::Import { path } => path.text,
        other => panic!("no import but {other:?}"),
    }
}

#[test]
fn files_on_the_clipboard_come_first() {
    let (mut paste, request) =
        ImageStore::add_current_clipboard_item(Some(vec![file("a"), file("b")]));
    assert_eq!(imported(request), "a");
    assert_eq!(imported(paste.after_import(Ok(true))), "b");
    assert!(matches!(paste.after_import(Ok(false)), PasteRequest::Finish { result: Ok(true) }));
}

#[test]
fn without_an_imported_file_the_image_is_tried() {
    let (mut paste, request) = ImageStore::add_current_clipboard_item(Some(vec![file("a")]));
    assert_eq!(imported(request), "a");
    assert!(matches!(paste.after_import(Ok(false)), PasteRequest::ReadImage));
    let (_, request) = ImageStore::add_current_clipboard_item(Some(Vec::new()));
    assert!(matches!(request, PasteRequest::ReadImage));
    let (_, request) = ImageStore::add_current_clipboard_item(None);
    assert!(matches!(request, PasteRequest::ReadImage));
    assert!(matches!(Paste::after_image(true), PasteRequest::StoreImage));
    assert!(matches!(Paste::after_image(false), PasteRequest::ReadText));
}

#[test]
fn files_that_a_text_names_come_last() {
    let (mut paste, request) = Paste::after_text(Some(vec![file("a"), file("b")]));
    assert_eq!(imported(request), "a");
    assert_eq!(imported(paste.after_import(Ok(false))), "b");
    assert!(matches!(paste.after_import(Ok(false)), PasteRequest::Finish { result: Ok(false) }));
    let (mut paste, _) = Paste::after_text(Some(vec![file("a")]));
    assert!(matches!(paste.after_import(Ok(true)), PasteRequest::Finish { result: Ok(true) }));
    assert!(matches!(Paste::after_text(None).1, PasteRequest::Finish { result: Ok(false) }));
    assert!(matches!(
        Paste::after_text(Some(Vec::new())).1,
        PasteRequest::Finish { result: Ok(false) }
    ));
}

#[test]
fn an_import_that_fails_ends_the_paste() {
    let (mut paste, _) = ImageStore::add_current_clipboard_item(Some(vec![file("a"), file("b")]));
    let error = StoreError::bare(ErrorKind::BufferMismatch);
    assert!(matches!(
        paste.after_import(Err(error)),
        PasteRequest::Finish { result: Err(error) } if error.kind == ErrorKind::BufferMismatch
    ));
}

#[test]
fn an_image_that_stays_on_the_clipboard_is_stored_once() {
    let first = vec![1, 2, 3, 4];
    let second = vec![4, 3, 2, 1];
    let mut watch = ClipboardWatch::new();
    assert!(!watch.look(None));
    assert!(watch.look(Some(&first)));
    assert!(!watch.look(Some(&first)));
    assert_eq!(watch.last, Some(blake3::hash(&first).to_hex().to_string()));
    assert!(watch.look(Some(&second)));
    assert!(watch.look(Some(&first)));
    assert!(!watch.look(None));
    assert!(watch.look(Some(&first)));
}
