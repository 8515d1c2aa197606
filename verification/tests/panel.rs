use pictray::layout::StoreLayout;
use pictray::loading::Loaded;
use pictray::panel::{
    clear_items, confirm_clear, copy_target, delete_item, drag_copied, file_dropped, item_copied,
    item_deleted, item_dragged, item_opened, item_revealed, items_cleared, latest_copied,
    move_item_by_offset, order_unavailable, pasted, reorder_image, reorder_target_index,
    select_item, shortcut_copied, DragStep, Failure, PanelChange, Removal,
};
use pictray::paths::{ComponentKind, FilePath, PathComponent};
use pictray::records::{StoredImage, StoredImageKind};
use pictray::store::ImageStore;

fn file(name: &str) -> FilePath {
    FilePath {
        text: name.to_owned(),
        parent: None,
        components: vec![PathComponent { kind: ComponentKind::Normal, name: name.as_bytes().to_vec() }],
    }
}

fn store(names: &[&str]) -> ImageStore {
    let mut modified = 100;
    let mut loaded = Vec::new();
    for name in names {
        modified -= 1;
        loaded.push(Loaded {
            modified,
            record: StoredImage {
                hash: name.to_string(),
                display_name: name.to_string(),
                width: 0,
                height: 0,
                kind: StoredImageKind::Text,
                original_path: file(name),
                thumbnail_path: None,
                reference_path: None,
                text_preview: String::new(),
                line_count: 0,
                byte_len: 0,
                file_extension: "txt".to_owned(),
            },
        });
    }
    ImageStore::open_at(StoreLayout { root: file("root"), separator: '/' }, loaded)
}

fn names(store: &ImageStore) -> Vec<String> {
    store.records().iter().map(|record| record.display_name.clone()).collect()
}

fn said(change: &PanelChange) -> &str {
    change.status.as_deref().unwrap_or("")
}

fn error(message: &str) -> Failure {
    Failure::Error { message: message.to_owned() }
}

#[test]
fn what_is_said_about_one_item() {
    assert_eq!(said(&item_copied(Ok(()))), "Copied item back to clipboard.");
    assert_eq!(said(&item_copied(Err(error("x")))), "Copy failed: x");
    assert_eq!(
        said(&item_copied(Err(Failure::Poisoned))),
        "Copy failed: storage lock is poisoned."
    );
    assert_eq!(said(&item_revealed(Ok(()))), "Revealed item in file browser.");
    assert_eq!(said(&item_revealed(Err(error("x")))), "Inspect failed: x");
    let opened = item_opened(Ok(()));
    assert_eq!(said(&opened), "Opened item in its app.");
    assert_eq!(opened.selected_index, Some(-1));
    assert_eq!(said(&item_opened(Err(Failure::Poisoned))), "Open failed: storage lock is poisoned.");
}

#[test]
fn dragging_an_item_out() {
    assert!(matches!(
        item_dragged(Ok(true)),
        DragStep::Done { change } if said(&change) == "Started file drag."
    ));
    assert!(matches!(item_dragged(Ok(false)), DragStep::CopyPath));
    assert!(matches!(
        item_dragged(Err("x".to_owned())),
        DragStep::Done { change } if said(&change) == "Drag failed: x"
    ));
    assert_eq!(said(&drag_copied(&file("/a"), Ok(()))), "Copied path to clipboard: /a");
    assert_eq!(said(&drag_copied(&file("/a"), Err("x".to_owned()))), "Drag failed: x");
}

#[test]
fn selecting_an_item_twice_selects_none() {
    assert_eq!(select_item(-1, 3).selected_index, Some(3));
    assert_eq!(select_item(3, 3).selected_index, Some(-1));
    assert_eq!(select_item(2, 3).selected_index, Some(3));
}

#[test]
fn taking_items_out() {
    let mut items = store(&["a", "b"]);
    assert!(delete_item(&mut items, 2).is_none());
    assert_eq!(delete_item(&mut items, 0).unwrap().len(), 2);
    assert_eq!(names(&items), ["b"]);
    assert!(clear_items(&mut items).is_some());
    assert!(clear_items(&mut items).is_none());

    let change = item_deleted(Removal::Removed { failure: None });
    assert_eq!(said(&change), "Removed item from the buffer.");
    assert_eq!((change.selected_index, change.confirm_clear), (Some(-1), Some(false)));
    assert!(change.storage_changed);
    let change = item_deleted(Removal::Removed { failure: Some("x".to_owned()) });
    assert_eq!(said(&change), "Removed item from this session, but cleanup failed: x");
    assert!(change.storage_changed);
    let change = item_deleted(Removal::Nothing);
    assert_eq!(said(&change), "No buffered item is available to remove.");
    assert_eq!((change.selected_index, change.confirm_clear), (None, Some(false)));
    assert!(!change.storage_changed);
    assert_eq!(
        said(&item_deleted(Removal::Poisoned)),
        "Remove failed: storage lock is poisoned."
    );

    let change = items_cleared(Removal::Removed { failure: None });
    assert_eq!(said(&change), "Buffer cleared.");
    assert_eq!((change.selected_index, change.confirm_clear), (Some(-1), Some(false)));
    assert_eq!(
        said(&items_cleared(Removal::Removed { failure: Some("x".to_owned()) })),
        "Buffer cleared from this session, but cleanup failed: x"
    );
    assert_eq!(said(&items_cleared(Removal::Nothing)), "Buffer is already empty.");
    assert_eq!(said(&items_cleared(Removal::Poisoned)), "Clear failed: storage lock is poisoned.");
    assert_eq!(confirm_clear(true).confirm_clear, Some(true));
    assert_eq!(confirm_clear(false).confirm_clear, Some(false));
}

// The tiles as a floating-point layout has them.
fn expected_target(pointer_y: f32, item_count: usize, selected_index: i32) -> usize {
    if item_count == 0 {
        return 0;
    }
    let mut current_y = 0.0f32;
    for index in 0..item_count {
        let height = if selected_index == index as i32 { 214.0 } else { 168.0 };
        if pointer_y <= current_y + height / 2.0 {
            return index;
        }
        current_y += height + 8.0;
    }
    item_count - 1
}

#[test]
fn where_a_dragged_item_goes() {
    assert_eq!(reorder_target_index(84, 3, -1), 0);
    assert_eq!(reorder_target_index(85, 3, -1), 1);
    assert_eq!(reorder_target_index(107, 3, 0), 0);
    assert_eq!(reorder_target_index(108, 3, 0), 1);
    assert_eq!(reorder_target_index(i64::MAX, 3, 0), 2);
    assert_eq!(reorder_target_index(i64::MIN, 3, 0), 0);
    assert_eq!(reorder_target_index(5, 0, 0), 0);
    for selected in -1..4 {
        for tenth in -20..9000 {
            let pointer_y = tenth as f32 / 10.0;
            assert_eq!(
                reorder_target_index(pointer_y.ceil() as i64, 4, selected),
                expected_target(pointer_y, 4, selected)
            );
        }
    }
}

#[test]
fn dragging_an_item_to_another_place() {
    let mut items = store(&["a", "b", "c"]);
    let change = reorder_image(&mut items, 0, 1000, -1);
    assert_eq!(said(&change), "Moved item to position 3.");
    assert!(change.storage_changed);
    assert_eq!(names(&items), ["b", "c", "a"]);
    let change = reorder_image(&mut items, 1, 200, -1);
    assert_eq!(said(&change), "Item stayed in the same position.");
    assert!(!change.storage_changed);
    for index in [-1, 3] {
        assert_eq!(
            said(&reorder_image(&mut items, index, 0, -1)),
            "Reorder failed: dragged item is no longer available."
        );
    }
    assert_eq!(
        said(&reorder_image(&mut store(&["a"]), 0, 0, -1)),
        "Need at least two buffered items to reorder."
    );
    assert_eq!(said(&order_unavailable(true)), "Reorder failed: storage lock is poisoned.");
}

#[test]
fn moving_an_item_by_some_places() {
    let mut items = store(&["a", "b", "c"]);
    assert_eq!(said(&move_item_by_offset(&mut items, 0, 1)), "Moved item to position 2.");
    assert_eq!(names(&items), ["b", "a", "c"]);
    assert_eq!(said(&move_item_by_offset(&mut items, 1, -1)), "Moved item to position 1.");
    assert_eq!(names(&items), ["a", "b", "c"]);
    assert_eq!(said(&move_item_by_offset(&mut items, 0, -1)), "Item stayed in the same position.");
    assert_eq!(said(&move_item_by_offset(&mut items, 2, 1)), "Item stayed in the same position.");
    assert_eq!(said(&move_item_by_offset(&mut items, 2, isize::MIN)), "Moved item to position 1.");
    assert_eq!(said(&move_item_by_offset(&mut items, 0, isize::MAX)), "Moved item to position 3.");
    for index in [-1, 3] {
        assert_eq!(
            said(&move_item_by_offset(&mut items, index, 1)),
            "Move failed: selected item is no longer available."
        );
    }
    assert_eq!(
        said(&move_item_by_offset(&mut store(&[]), 0, 1)),
        "Need at least two buffered items to reorder."
    );
    assert_eq!(said(&order_unavailable(false)), "Move failed: storage lock is poisoned.");
}

#[test]
fn what_is_said_about_the_clipboard() {
    let change = pasted(Ok(true));
    assert_eq!(said(&change), "Buffered clipboard item.");
    assert!(change.storage_changed);
    let change = pasted(Ok(false));
    assert_eq!(said(&change), "Clipboard does not contain a supported image or file.");
    assert!(!change.storage_changed);
    assert_eq!(said(&pasted(Err("x".to_owned()))), "Paste failed: x");

    assert_eq!(copy_target(-1), None);
    assert_eq!(copy_target(4), Some(4));
    assert_eq!(said(&shortcut_copied(0, Ok(true))), "Copied selected item to the clipboard.");
    assert_eq!(said(&shortcut_copied(-1, Ok(true))), "Copied latest item to the clipboard.");
    assert_eq!(said(&shortcut_copied(-1, Ok(false))), "No buffered item is available to copy.");
    assert_eq!(said(&shortcut_copied(0, Err("x".to_owned()))), "Copy failed: x");

    assert_eq!(said(&latest_copied(Ok(true))), "Copied latest item back to clipboard.");
    assert_eq!(said(&latest_copied(Ok(false))), "No stored item is available yet.");
    assert_eq!(said(&latest_copied(Err(error("x")))), "Copy failed: x");
    assert_eq!(
        said(&latest_copied(Err(Failure::Poisoned))),
        "Copy failed: storage lock is poisoned."
    );
}

#[test]
fn what_is_said_about_a_dropped_file() {
    let path = file("/f/a");
    let fail = || Err("x".to_owned());
    let change = file_dropped(&path, Ok(()), Ok(true));
    assert_eq!(said(&change), "Buffered file path and copied it: /f/a");
    assert!(change.storage_changed);
    assert_eq!(said(&file_dropped(&path, Ok(()), Ok(false))), "Copied existing file path: /f/a");
    assert_eq!(
        said(&file_dropped(&path, Ok(()), fail())),
        "Copied path, but buffering failed: x"
    );
    assert_eq!(said(&file_dropped(&path, Err("y".to_owned()), fail())), "Copy failed: y");
}
