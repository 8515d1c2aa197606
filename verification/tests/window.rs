use pictray::events::{
    hotkey_event, menu_entries, menu_event, respond, respond_to_all, tray_event, AppEvent,
    EventBridge, KeyInput, MenuEntry, Shortcut, WindowAnchor, WindowStep, COPY_LATEST_KEY,
};
use pictray::placement::{can_place, place_window_near_anchor, MonitorArea, WindowSize};

fn steps(event: AppEvent, visible: bool) -> Vec<String> {
    respond(event, visible).iter().map(|step| format!("{step:?}")).collect()
}

#[test]
fn showing_the_window() {
    assert_eq!(
        steps(AppEvent::ShowWindow(None), false),
        ["Show", "KeepOnTop", "ApplyEffects", "Focus", "Redraw"]
    );
    assert_eq!(
        steps(AppEvent::ShowWindow(None), true),
        ["KeepOnTop", "ApplyEffects", "Focus", "Redraw"]
    );
    let anchor = WindowAnchor { x: 1, y: 2, width: 3, height: 4 };
    let placed = respond(AppEvent::ShowWindow(Some(anchor)), true);
    assert!(matches!(placed[2], WindowStep::Place(WindowAnchor { x: 1, y: 2, width: 3, height: 4 })));
}

#[test]
fn toggling_the_window() {
    assert_eq!(steps(AppEvent::ToggleWindow(None), true), ["Hide"]);
    assert_eq!(
        steps(AppEvent::ToggleWindow(None), false),
        ["Show", "KeepOnTop", "ApplyEffects", "Focus", "Redraw"]
    );
}

#[test]
fn the_other_events() {
    assert_eq!(
        steps(AppEvent::RequestClearHistory, false),
        ["Show", "KeepOnTop", "ApplyEffects", "ConfirmClear", "Focus", "Redraw"]
    );
    assert_eq!(steps(AppEvent::CopyLatest, true), ["CopyLatest"]);
    assert!(steps(AppEvent::StorageChanged, true).is_empty());
    assert_eq!(steps(AppEvent::Quit, false), ["Quit"]);
}

#[test]
fn events_are_answered_in_order_and_none_behind_the_last() {
    let events = vec![
        AppEvent::ToggleWindow(None),
        AppEvent::StorageChanged,
        AppEvent::ToggleWindow(None),
        AppEvent::CopyLatest,
        AppEvent::Quit,
        AppEvent::CopyLatest,
        AppEvent::ShowWindow(None),
    ];
    let all: Vec<String> =
        respond_to_all(&events, false).iter().map(|step| format!("{step:?}")).collect();
    assert_eq!(
        all,
        ["Show", "KeepOnTop", "ApplyEffects", "Focus", "Redraw", "Hide", "CopyLatest", "Quit"]
    );
    assert!(respond_to_all(&vec![AppEvent::StorageChanged], true).is_empty());

    let mut bridge = EventBridge::new();
    assert!(bridge.accept(AppEvent::CopyLatest));
    assert!(!bridge.closed());
    assert!(bridge.accept(AppEvent::Quit));
    assert!(bridge.closed());
    assert!(!bridge.accept(AppEvent::CopyLatest));
    assert!(!bridge.accept(AppEvent::Quit));
}

#[test]
fn the_tray_menu() {
    let labels: Vec<String> = menu_entries().iter().map(MenuEntry::label).collect();
    assert_eq!(
        labels,
        ["Show Pictray", "Toggle Pictray", "Copy Latest Image", "Clear History", "Quit"]
    );
    let entries: Vec<(String, MenuEntry)> =
        menu_entries().into_iter().enumerate().map(|(i, entry)| (format!("{i}"), entry)).collect();
    assert!(matches!(menu_event(&entries, "0"), Some(AppEvent::ShowWindow(None))));
    assert!(matches!(menu_event(&entries, "1"), Some(AppEvent::ToggleWindow(None))));
    assert!(matches!(menu_event(&entries, "2"), Some(AppEvent::CopyLatest)));
    assert!(matches!(menu_event(&entries, "3"), Some(AppEvent::RequestClearHistory)));
    assert!(matches!(menu_event(&entries, "4"), Some(AppEvent::Quit)));
    assert!(menu_event(&entries, "5").is_none());
}

#[test]
fn clicks_on_the_tray_icon() {
    assert!(matches!(
        tray_event(true, true, -3, 4, 5, 6),
        Some(AppEvent::ToggleWindow(Some(WindowAnchor { x: -3, y: 4, width: 5, height: 6 })))
    ));
    assert!(matches!(
        tray_event(true, true, 0, 0, u32::MAX, 0x8000_0000),
        Some(AppEvent::ToggleWindow(Some(WindowAnchor { width: -1, height: i32::MIN, .. })))
    ));
    assert!(tray_event(false, true, 0, 0, 0, 0).is_none());
    assert!(tray_event(true, false, 0, 0, 0, 0).is_none());
}

#[test]
fn the_global_hotkey() {
    assert_eq!(COPY_LATEST_KEY, 'C');
    assert!(matches!(hotkey_event(7, 7, true), Some(AppEvent::CopyLatest)));
    assert!(hotkey_event(7, 7, false).is_none());
    assert!(hotkey_event(8, 7, true).is_none());
}

fn key(character: Option<&str>, super_key: bool, control_key: bool) -> KeyInput {
    KeyInput {
        pressed: true,
        synthetic: false,
        super_key,
        control_key,
        character: character.map(str::to_owned),
    }
}

#[test]
fn shortcuts_of_the_window() {
    assert_eq!(key(Some("v"), false, true).shortcut(), Some(Shortcut::Paste));
    assert_eq!(key(Some("V"), true, false).shortcut(), Some(Shortcut::Paste));
    assert_eq!(key(Some("c"), true, true).shortcut(), Some(Shortcut::Copy));
    assert_eq!(key(Some("C"), false, true).shortcut(), Some(Shortcut::Copy));
    assert_eq!(key(Some("v"), false, false).shortcut(), None);
    assert_eq!(key(Some("x"), false, true).shortcut(), None);
    assert_eq!(key(Some("vv"), false, true).shortcut(), None);
    assert_eq!(key(None, false, true).shortcut(), None);
    let mut released = key(Some("v"), false, true);
    released.pressed = false;
    assert_eq!(released.shortcut(), None);
    let mut synthetic = key(Some("v"), false, true);
    synthetic.synthetic = true;
    assert_eq!(synthetic.shortcut(), None);
}

const MONITOR: MonitorArea = MonitorArea { x: 0, y: 0, width: 1000, height: 800 };

fn place(x: i32, y: i32, width: i32, height: i32, monitor: Option<MonitorArea>) -> (i32, i32) {
    let anchor = WindowAnchor { x, y, width: 20, height: 20 };
    let size = WindowSize { width, height };
    assert!(can_place(anchor, size, monitor));
    place_window_near_anchor(anchor, size, monitor)
}

#[test]
fn the_window_lies_below_or_above_its_anchor() {
    assert_eq!(place(500, 0, 300, 400, None), (360, 23));
    assert_eq!(place(500, 0, 301, 400, None), (360, 23));
    assert_eq!(place(500, 0, 300, 400, Some(MONITOR)), (360, 23));
    assert_eq!(place(500, 780, 300, 400, Some(MONITOR)), (360, 377));
}

#[test]
fn the_window_stays_within_the_monitor() {
    assert_eq!(place(990, 0, 300, 400, Some(MONITOR)).0, 694);
    assert_eq!(place(-50, 0, 300, 400, Some(MONITOR)).0, 6);
    assert_eq!(place(500, -100, 300, 400, Some(MONITOR)).1, 6);
    assert_eq!(place(500, 400, 2000, 2000, Some(MONITOR)), (6, 6));
    let second = MonitorArea { x: -1000, y: 100, width: 1000, height: 800 };
    assert_eq!(place(-500, 100, 300, 400, Some(second)), (-640, 123));
}

#[test]
fn places_outside_of_the_coordinates() {
    let anchor = WindowAnchor { x: 0, y: i32::MAX, width: 0, height: 1 };
    let size = WindowSize { width: 10, height: 10 };
    assert!(!can_place(anchor, size, None));
    let anchor = WindowAnchor { x: 0, y: 0, width: 0, height: 0 };
    let far = MonitorArea { x: i32::MAX, y: 0, width: 10, height: 10 };
    assert!(!can_place(anchor, size, Some(far)));
    assert!(can_place(anchor, size, None));
}
