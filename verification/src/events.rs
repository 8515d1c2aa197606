//! What happens outside the window, and what the application does about it.

use vstd::prelude::*;
use vstd::string::*;

use crate::text;
use crate::text::{same_text, to_ascii_lower};

verus! {

broadcast use vstd::string::group_string_axioms;

// ---------------------------------------------------------------------------
// Events
// ---------------------------------------------------------------------------

/// The rectangle that the window is placed next to.
#[derive(Debug, Clone, Copy)]
pub struct WindowAnchor {
    pub x: i32,
    pub y: i32,
    pub width: i32,
    pub height: i32,
}

#[derive(Debug, Clone, Copy)]
pub enum AppEvent {
    ShowWindow(Option<WindowAnchor>),
    ToggleWindow(Option<WindowAnchor>),
    CopyLatest,
    RequestClearHistory,
    StorageChanged,
    Quit,
}

/// One thing to do in response to an event.
#[derive(Debug, Clone, Copy)]
pub enum WindowStep {
    Show,
    Hide,
    /// Put the window above all others.
    KeepOnTop,
    /// Ask the system for its background effects.
    ApplyEffects,
    /// Place the window next to the anchor.
    Place(WindowAnchor),
    /// Ask whether the history is to be cleared.
    ConfirmClear,
    Focus,
    Redraw,
    /// Copy the most recent item to the clipboard.
    CopyLatest,
    /// End the application; no further event is handled.
    Quit,
}

pub open spec fn place_step(anchor: Option<WindowAnchor>) -> Seq<WindowStep> {
    match anchor {
        Some(anchor) => seq![WindowStep::Place(anchor)],
        None => Seq::empty(),
    }
}

/// The steps that bring the window up, whether or not it is visible.
pub open spec fn raise_steps(visible: bool) -> Seq<WindowStep> {
    (if visible {
        Seq::empty()
    } else {
        seq![WindowStep::Show]
    }) + seq![WindowStep::KeepOnTop, WindowStep::ApplyEffects]
}

/// What is done about an event, in order.
pub open spec fn response(event: AppEvent, visible: bool) -> Seq<WindowStep> {
    match event {
        AppEvent::ShowWindow(anchor) => raise_steps(visible) + place_step(anchor) + seq![
            WindowStep::Focus,
            WindowStep::Redraw,
        ],
        AppEvent::ToggleWindow(anchor) => if visible {
            seq![WindowStep::Hide]
        } else {
            raise_steps(false) + place_step(anchor) + seq![WindowStep::Focus, WindowStep::Redraw]
        },
        AppEvent::CopyLatest => seq![WindowStep::CopyLatest],
        AppEvent::RequestClearHistory => raise_steps(visible) + seq![
            WindowStep::ConfirmClear,
            WindowStep::Focus,
            WindowStep::Redraw,
        ],
        AppEvent::StorageChanged => Seq::empty(),
        AppEvent::Quit => seq![WindowStep::Quit],
    }
}

/// Whether the window is visible after the steps.
pub open spec fn visible_after(visible: bool, steps: Seq<WindowStep>) -> bool
    decreases steps.len(),
{
    if steps.len() == 0 {
        visible
    } else {
        match steps.last() {
            WindowStep::Show => true,
            WindowStep::Hide => false,
            _ => visible_after(visible, steps.drop_last()),
        }
    }
}

fn push_raise(steps: &mut Vec<WindowStep>, visible: bool)
    ensures
        final(steps)@ == old(steps)@ + raise_steps(visible),
{
    if !visible {
        steps.push(WindowStep::Show);
    }
    steps.push(WindowStep::KeepOnTop);
    steps.push(WindowStep::ApplyEffects);
    assert(steps@ =~= old(steps)@ + raise_steps(visible));
}

fn push_placed(steps: &mut Vec<WindowStep>, anchor: Option<WindowAnchor>)
    ensures
        final(steps)@ == old(steps)@ + place_step(anchor) + seq![
            WindowStep::Focus,
            WindowStep::Redraw,
        ],
{
    if let Some(anchor) = anchor {
        steps.push(WindowStep::Place(anchor));
    }
    steps.push(WindowStep::Focus);
    steps.push(WindowStep::Redraw);
    assert(steps@ =~= old(steps)@ + place_step(anchor) + seq![
        WindowStep::Focus,
        WindowStep::Redraw,
    ]);
}

/// What is done about an event, in order.
pub fn respond(event: AppEvent, visible: bool) -> (steps: Vec<WindowStep>)
    ensures
        steps@ == response(event, visible),
{
    let mut steps: Vec<WindowStep> = Vec::new();
    match event {
        AppEvent::ShowWindow(anchor) => {
            push_raise(&mut steps, visible);
            push_placed(&mut steps, anchor);
        },
        AppEvent::ToggleWindow(anchor) => {
            if visible {
                steps.push(WindowStep::Hide);
            } else {
                push_raise(&mut steps, false);
                push_placed(&mut steps, anchor);
            }
        },
        AppEvent::CopyLatest => {
            steps.push(WindowStep::CopyLatest);
        },
        AppEvent::RequestClearHistory => {
            push_raise(&mut steps, visible);
            steps.push(WindowStep::ConfirmClear);
            steps.push(WindowStep::Focus);
            steps.push(WindowStep::Redraw);
        },
        AppEvent::StorageChanged => {},
        AppEvent::Quit => {
            steps.push(WindowStep::Quit);
        },
    }
    assert(steps@ =~= response(event, visible));
    steps
}

/// Asking for the window, or to clear the history, leaves the window visible;
/// toggling it changes whether it is; nothing else does.
pub proof fn law_visibility(event: AppEvent, visible: bool)
    ensures
        visible_after(visible, response(event, visible)) == match event {
            AppEvent::ShowWindow(_) | AppEvent::RequestClearHistory => true,
            AppEvent::ToggleWindow(_) => !visible,
            _ => visible,
        },
{
    reveal_with_fuel(visible_after, 7);
}

/// Toggling the window twice leaves it as visible as it was.
pub proof fn law_toggle_twice(
    first: Option<WindowAnchor>,
    second: Option<WindowAnchor>,
    visible: bool,
)
    ensures
        ({
            let once = visible_after(visible, response(AppEvent::ToggleWindow(first), visible));
            visible_after(once, response(AppEvent::ToggleWindow(second), once))
        }) == visible,
{
    law_visibility(AppEvent::ToggleWindow(first), visible);
    law_visibility(AppEvent::ToggleWindow(second), !visible);
}

/// Asking to clear the history only asks: it neither copies anything nor ends the
/// application, and that the storage has changed calls for nothing.
pub proof fn law_only_asks(visible: bool, step: WindowStep)
    ensures
        response(AppEvent::RequestClearHistory, visible).contains(WindowStep::ConfirmClear),
        response(AppEvent::RequestClearHistory, visible).contains(step) ==> step !is CopyLatest
            && step !is Quit && step !is Hide,
        response(AppEvent::StorageChanged, visible).len() == 0,
{
    let steps = response(AppEvent::RequestClearHistory, visible);
    assert(steps[steps.len() - 3] == WindowStep::ConfirmClear);
}

// ---------------------------------------------------------------------------
// Many events
// ---------------------------------------------------------------------------

/// Where events come in, one after the other. It closes when the application is to
/// end.
#[derive(Debug)]
pub struct EventBridge {
    closed: bool,
}

impl EventBridge {
    /// Whether no further event is handled.
    pub closed spec fn is_closed(&self) -> bool {
        self.closed
    }

    pub fn new() -> (bridge: EventBridge)
        ensures
            !bridge.is_closed(),
    {
        EventBridge { closed: false }
    }

    /// Whether the event that comes in is handled: every one is up to the one that
    /// ends the application, and none behind it.
    pub fn accept(&mut self, event: AppEvent) -> (accepted: bool)
        ensures
            accepted == !old(self).is_closed(),
            final(self).is_closed() == (old(self).is_closed() || event is Quit),
    {
        if self.closed {
            return false;
        }
        if matches!(event, AppEvent::Quit) {
            self.closed = true;
        }
        true
    }

    /// Whether no further event is handled.
    pub fn closed(&self) -> (yes: bool)
        ensures
            yes == self.is_closed(),
    {
        self.closed
    }
}

/// Whether one of the events ends the application.
pub open spec fn some_quits(events: Seq<AppEvent>) -> bool {
    exists|i: int| 0 <= i < events.len() && (#[trigger] events[i]) is Quit
}

/// The events that an open bridge accepts of those that come in, in order.
pub open spec fn accepted(events: Seq<AppEvent>) -> Seq<AppEvent>
    decreases events.len(),
{
    if events.len() == 0 {
        Seq::empty()
    } else if some_quits(events.drop_last()) {
        accepted(events.drop_last())
    } else {
        accepted(events.drop_last()).push(events.last())
    }
}

/// What is done about events, in order. Each is answered as the window is once the
/// steps before are taken.
pub open spec fn responses(events: Seq<AppEvent>, visible: bool) -> Seq<WindowStep>
    decreases events.len(),
{
    if events.len() == 0 {
        Seq::empty()
    } else {
        let before = responses(events.drop_last(), visible);
        before + response(events.last(), visible_after(visible, before))
    }
}

proof fn lemma_all_accepted(events: Seq<AppEvent>)
    requires
        !some_quits(events),
    ensures
        accepted(events) == events,
    decreases events.len(),
{
    if events.len() > 0 {
        let before = events.drop_last();
        if some_quits(before) {
            let i = choose|i: int| 0 <= i < before.len() && (#[trigger] before[i]) is Quit;
            assert(events[i] is Quit);
        }
        lemma_all_accepted(before);
        assert(before.push(events.last()) =~= events);
    }
}

/// Events are handled in the order in which they come in, up to the first that ends
/// the application, and none behind it.
pub proof fn law_events_in_order(before: Seq<AppEvent>, behind: Seq<AppEvent>)
    requires
        !some_quits(before),
    ensures
        accepted(before) == before,
        accepted(before.push(AppEvent::Quit) + behind) == before.push(AppEvent::Quit),
    decreases behind.len(),
{
    lemma_all_accepted(before);
    let ending = before.push(AppEvent::Quit);
    if behind.len() == 0 {
        assert(ending.drop_last() =~= before);
        assert(ending + behind =~= ending);
    } else {
        let all = ending + behind;
        assert(all.drop_last() =~= ending + behind.drop_last());
        assert(all.drop_last()[before.len() as int] is Quit);
        law_events_in_order(before, behind.drop_last());
    }
}

proof fn lemma_visible_after_both(
    visible: bool,
    first: Seq<WindowStep>,
    second: Seq<WindowStep>,
)
    ensures
        visible_after(visible, first + second) == visible_after(
            visible_after(visible, first),
            second,
        ),
    decreases second.len(),
{
    if second.len() == 0 {
        assert(first + second =~= first);
    } else {
        assert((first + second).drop_last() =~= first + second.drop_last());
        lemma_visible_after_both(visible, first, second.drop_last());
    }
}

/// What is done about some events and then about others is what is done about the
/// former, followed by what is then done about the latter.
pub proof fn law_responses_in_order(
    first: Seq<AppEvent>,
    second: Seq<AppEvent>,
    visible: bool,
)
    ensures
        ({
            let before = responses(first, visible);
            responses(first + second, visible) == before + responses(
                second,
                visible_after(visible, before),
            )
        }),
    decreases second.len(),
{
    let before = responses(first, visible);
    if second.len() == 0 {
        assert(first + second =~= first);
    } else {
        let rest = second.drop_last();
        let between = responses(rest, visible_after(visible, before));
        assert((first + second).drop_last() =~= first + rest);
        law_responses_in_order(first, rest, visible);
        lemma_visible_after_both(visible, before, between);
        assert(responses(first + second, visible) =~= before + responses(
            second,
            visible_after(visible, before),
        ));
    }
}

/// What is done about events that come in one after the other.
pub fn respond_to_all(events: &Vec<AppEvent>, visible: bool) -> (steps: Vec<WindowStep>)
    ensures
        steps@ == responses(accepted(events@), visible),
{
    let mut bridge = EventBridge::new();
    let mut steps: Vec<WindowStep> = Vec::new();
    let mut shown = visible;
    let mut i: usize = 0;
    while i < events.len()
        invariant
            i <= events@.len(),
            bridge.is_closed() == some_quits(events@.take(i as int)),
            steps@ == responses(accepted(events@.take(i as int)), visible),
            shown == visible_after(visible, steps@),
        decreases events@.len() - i,
    {
        let event = events[i];
        let ghost past = events@.take(i as int);
        let ghost known = events@.take(i + 1);
        assert(known.drop_last() == past);
        proof {
            if some_quits(past) {
                let k = choose|k: int| 0 <= k < past.len() && (#[trigger] past[k]) is Quit;
                assert(known[k] is Quit);
            }
            assert(known[i as int] == event);
            if some_quits(known) && !some_quits(past) {
                let k = choose|k: int| 0 <= k < known.len() && (#[trigger] known[k]) is Quit;
                assert(k < i ==> past[k] is Quit);
            }
        }
        if bridge.accept(event) {
            let mut more = respond(event, shown);
            proof {
                law_visibility(event, shown);
                lemma_visible_after_both(visible, steps@, more@);
                assert(accepted(known).drop_last() == accepted(past));
            }
            steps.append(&mut more);
            shown = match event {
                AppEvent::ShowWindow(_) | AppEvent::RequestClearHistory => true,
                AppEvent::ToggleWindow(_) => !shown,
                _ => shown,
            };
        }
        i += 1;
    }
    assert(events@.take(i as int) == events@);
    steps
}

// ---------------------------------------------------------------------------
// The tray
// ---------------------------------------------------------------------------

/// The entries of the tray menu. A separator stands before `Quit`.
#[derive(Debug, Clone, Copy, PartialEq, Eq, Structural)]
pub enum MenuEntry {
    Show,
    Toggle,
    CopyLatest,
    ClearHistory,
    Quit,
}

impl MenuEntry {
    pub open spec fn shown_label(self) -> Seq<char> {
        match self {
            MenuEntry::Show => "Show Pictray"@,
            MenuEntry::Toggle => "Toggle Pictray"@,
            MenuEntry::CopyLatest => "Copy Latest Image"@,
            MenuEntry::ClearHistory => "Clear History"@,
            MenuEntry::Quit => "Quit"@,
        }
    }

    pub open spec fn chosen(self) -> AppEvent {
        match self {
            MenuEntry::Show => AppEvent::ShowWindow(None),
            MenuEntry::Toggle => AppEvent::ToggleWindow(None),
            MenuEntry::CopyLatest => AppEvent::CopyLatest,
            MenuEntry::ClearHistory => AppEvent::RequestClearHistory,
            MenuEntry::Quit => AppEvent::Quit,
        }
    }

    /// What the entry is called in the menu.
    pub fn label(&self) -> (label: String)
        ensures
            label@ == self.shown_label(),
            *self == MenuEntry::Show ==> label@ == "Show Pictray"@,
            *self == MenuEntry::Toggle ==> label@ == "Toggle Pictray"@,
            *self == MenuEntry::CopyLatest ==> label@ == "Copy Latest Image"@,
            *self == MenuEntry::ClearHistory ==> label@ == "Clear History"@,
            *self == MenuEntry::Quit ==> label@ == "Quit"@,
    {
        match self {
            MenuEntry::Show => "Show Pictray".to_owned(),
            MenuEntry::Toggle => "Toggle Pictray".to_owned(),
            MenuEntry::CopyLatest => "Copy Latest Image".to_owned(),
            MenuEntry::ClearHistory => "Clear History".to_owned(),
            MenuEntry::Quit => "Quit".to_owned(),
        }
    }

    /// What choosing the entry means.
    pub fn event(&self) -> (event: AppEvent)
        ensures
            event == self.chosen(),
            *self == MenuEntry::Show ==> event == AppEvent::ShowWindow(None),
            *self == MenuEntry::Toggle ==> event == AppEvent::ToggleWindow(None),
            *self == MenuEntry::CopyLatest ==> event is CopyLatest,
            *self == MenuEntry::ClearHistory ==> event is RequestClearHistory,
            *self == MenuEntry::Quit ==> event is Quit,
    {
        match self {
            MenuEntry::Show => AppEvent::ShowWindow(None),
            MenuEntry::Toggle => AppEvent::ToggleWindow(None),
            MenuEntry::CopyLatest => AppEvent::CopyLatest,
            MenuEntry::ClearHistory => AppEvent::RequestClearHistory,
            MenuEntry::Quit => AppEvent::Quit,
        }
    }
}

/// The entries of the tray menu, from top to bottom.
pub open spec fn menu() -> Seq<MenuEntry> {
    seq![
        MenuEntry::Show,
        MenuEntry::Toggle,
        MenuEntry::CopyLatest,
        MenuEntry::ClearHistory,
        MenuEntry::Quit,
    ]
}

/// The entries of the tray menu, from top to bottom.
pub fn menu_entries() -> (entries: Vec<MenuEntry>)
    ensures
        entries@ == menu(),
        entries@.len() == 5,
        entries@[0] == MenuEntry::Show,
        entries@[1] == MenuEntry::Toggle,
        entries@[2] == MenuEntry::CopyLatest,
        entries@[3] == MenuEntry::ClearHistory,
        entries@[4] == MenuEntry::Quit,
{
    let mut entries: Vec<MenuEntry> = Vec::new();
    entries.push(MenuEntry::Show);
    entries.push(MenuEntry::Toggle);
    entries.push(MenuEntry::CopyLatest);
    entries.push(MenuEntry::ClearHistory);
    entries.push(MenuEntry::Quit);
    assert(entries@ =~= menu());
    entries
}

/// The event of the first entry with the identifier that was chosen.
pub open spec fn menu_choice(
    entries: Seq<(Seq<char>, MenuEntry)>,
    chosen: Seq<char>,
) -> Option<AppEvent>
    decreases entries.len(),
{
    if entries.len() == 0 {
        None
    } else if entries[0].0 == chosen {
        Some(entries[0].1.chosen())
    } else {
        menu_choice(entries.drop_first(), chosen)
    }
}

pub open spec fn entry_views(entries: Seq<(String, MenuEntry)>) -> Seq<(Seq<char>, MenuEntry)> {
    entries.map_values(|entry: (String, MenuEntry)| (entry.0@, entry.1))
}

/// What choosing from the menu means, given the identifiers of its entries.
pub fn menu_event(entries: &Vec<(String, MenuEntry)>, chosen: &str) -> (event: Option<AppEvent>)
    ensures
        event == menu_choice(entry_views(entries@), chosen@),
{
    let ghost all = entry_views(entries@);
    let mut i: usize = 0;
    assert(all.skip(0) == all);
    while i < entries.len()
        invariant
            i <= entries@.len(),
            all == entry_views(entries@),
            menu_choice(all, chosen@) == menu_choice(all.skip(i as int), chosen@),
        decreases entries@.len() - i,
    {
        assert(all.skip(i as int)[0] == (entries@[i as int].0@, entries@[i as int].1));
        if same_text(entries[i].0.as_str(), chosen) {
            return Some(entries[i].1.event());
        }
        assert(all.skip(i as int).drop_first() == all.skip(i + 1));
        i += 1;
    }
    assert(all.skip(i as int).len() == 0);
    None
}

/// What a click on the tray icon means: the left button, once it is let go,
/// toggles the window next to the icon.
pub fn tray_event(
    left_button: bool,
    released: bool,
    x: i32,
    y: i32,
    width: u32,
    height: u32,
) -> (event: Option<AppEvent>)
    ensures
        event == (if left_button && released {
            Some(
                AppEvent::ToggleWindow(
                    Some(
                        WindowAnchor {
                            x,
                            y,
                            width: #[verifier::truncate] (width as i32),
                            height: #[verifier::truncate] (height as i32),
                        },
                    ),
                ),
            )
        } else {
            None
        }),
{
    if left_button && released {
        Some(
            AppEvent::ToggleWindow(
                Some(
                    WindowAnchor {
                        x,
                        y,
                        width: #[verifier::truncate] (width as i32),
                        height: #[verifier::truncate] (height as i32),
                    },
                ),
            ),
        )
    } else {
        None
    }
}

// ---------------------------------------------------------------------------
// Keys
// ---------------------------------------------------------------------------

/// The keys that copy the most recent item, from whatever application they are
/// pressed in: the letter together with the control and the shift key.
pub const COPY_LATEST_KEY: char = 'C';

/// What a global hotkey means: the application's own, when it is pressed, copies
/// the most recent item.
pub fn hotkey_event(id: u32, own_id: u32, pressed: bool) -> (event: Option<AppEvent>)
    ensures
        event == (if id == own_id && pressed {
            Some(AppEvent::CopyLatest)
        } else {
            None
        }),
{
    if id == own_id && pressed {
        Some(AppEvent::CopyLatest)
    } else {
        None
    }
}

/// The keys that the window itself answers.
#[derive(Debug, Clone, Copy, PartialEq, Eq, Structural)]
pub enum Shortcut {
    Paste,
    Copy,
}

/// A key that was pressed or let go in the window, and the modifiers that were
/// held.
#[derive(Debug)]
pub struct KeyInput {
    pub pressed: bool,
    /// Whether the system made the event up, such as when the window gets focus.
    pub synthetic: bool,
    pub super_key: bool,
    pub control_key: bool,
    /// What the key types, if it types something.
    pub character: Option<String>,
}

/// Which shortcut a key is: V pastes and C copies, in either case, together with
/// the control key or the super key.
pub open spec fn shortcut_of(
    pressed: bool,
    synthetic: bool,
    super_key: bool,
    control_key: bool,
    character: Option<Seq<char>>,
) -> Option<Shortcut> {
    match character {
        Some(typed) if pressed && !synthetic && (super_key || control_key) => if text::ascii_lower(
            typed,
        ) == "v"@ {
            Some(Shortcut::Paste)
        } else if text::ascii_lower(typed) == "c"@ {
            Some(Shortcut::Copy)
        } else {
            None
        },
        _ => None,
    }
}

proof fn lemma_one_letter(typed: Seq<char>)
    ensures
        text::ascii_lower(typed) == "v"@ <==> typed == seq!['v'] || typed == seq!['V'],
        text::ascii_lower(typed) == "c"@ <==> typed == seq!['c'] || typed == seq!['C'],
        "v"@ != "c"@,
{
    reveal_strlit("v");
    reveal_strlit("c");
    assert("v"@.len() == 1 && "v"@[0] == 'v');
    assert("c"@.len() == 1 && "c"@[0] == 'c');
    let lower = text::ascii_lower(typed);
    assert(lower.len() == typed.len());
    assert(typed.len() == 1 ==> lower[0] == text::lower_char(typed[0]));
    if typed == seq!['v'] || typed == seq!['V'] {
        assert(lower =~= "v"@);
    }
    if typed == seq!['c'] || typed == seq!['C'] {
        assert(lower =~= "c"@);
    }
    if lower == "v"@ {
        assert(typed.len() == 1 && lower[0] == 'v');
        assert(typed =~= seq![typed[0]]);
    }
    if lower == "c"@ {
        assert(typed.len() == 1 && lower[0] == 'c');
        assert(typed =~= seq![typed[0]]);
    }
}

impl KeyInput {
    /// Which shortcut the key is.
    pub fn shortcut(&self) -> (shortcut: Option<Shortcut>)
        ensures
            shortcut == shortcut_of(
                self.pressed,
                self.synthetic,
                self.super_key,
                self.control_key,
                text::text_option(self.character),
            ),
            shortcut == Some(Shortcut::Paste) <==> self.pressed && !self.synthetic && (
            self.super_key || self.control_key) && (text::text_option(self.character) == Some(
                seq!['v'],
            ) || text::text_option(self.character) == Some(seq!['V'])),
            shortcut == Some(Shortcut::Copy) <==> self.pressed && !self.synthetic && (
            self.super_key || self.control_key) && (text::text_option(self.character) == Some(
                seq!['c'],
            ) || text::text_option(self.character) == Some(seq!['C'])),
    {
        proof {
            if let Some(typed) = text::text_option(self.character) {
                lemma_one_letter(typed);
            }
        }
        if !self.pressed || self.synthetic || !(self.super_key || self.control_key) {
            return None;
        }
        match &self.character {
            Some(typed) => {
                let lower = to_ascii_lower(typed.as_str());
                if same_text(lower.as_str(), "v") {
                    Some(Shortcut::Paste)
                } else if same_text(lower.as_str(), "c") {
                    Some(Shortcut::Copy)
                } else {
                    None
                }
            },
            None => None,
        }
    }
}

// ---------------------------------------------------------------------------
// What each event leads to
// ---------------------------------------------------------------------------

/// Where a step stands among those of a response.
pub open spec fn step_rank(step: WindowStep) -> int {
    match step {
        WindowStep::Show => 0,
        WindowStep::KeepOnTop => 1,
        WindowStep::ApplyEffects => 2,
        WindowStep::Place(_) => 3,
        WindowStep::ConfirmClear => 4,
        WindowStep::Focus => 5,
        WindowStep::Redraw => 6,
        WindowStep::Hide => 7,
        WindowStep::CopyLatest => 8,
        WindowStep::Quit => 9,
    }
}

/// The window is shown before it is put above all others, placed, asked about,
/// focused and drawn, in this order, and none of that is done twice.
pub proof fn law_steps_in_order(event: AppEvent, visible: bool, i: int, j: int)
    requires
        0 <= i < j < response(event, visible).len(),
    ensures
        step_rank(response(event, visible)[i]) < step_rank(response(event, visible)[j]),
{
}

/// Which steps an event leads to. Asking for the window, asking to clear the history
/// and toggling a window that is not visible bring the window up; it is placed where
/// the event has an anchor, and at this anchor.
pub proof fn law_steps(event: AppEvent, visible: bool, anchor: WindowAnchor)
    ensures
        ({
            let steps = response(event, visible);
            let up = event is ShowWindow || event is RequestClearHistory || (event is ToggleWindow
                && !visible);
            &&& steps.contains(WindowStep::Show) <==> up && !visible
            &&& steps.contains(WindowStep::KeepOnTop) <==> up
            &&& steps.contains(WindowStep::ApplyEffects) <==> up
            &&& steps.contains(WindowStep::Focus) <==> up
            &&& steps.contains(WindowStep::Redraw) <==> up
            &&& steps.contains(WindowStep::Place(anchor)) <==> event == AppEvent::ShowWindow(
                Some(anchor),
            ) || (event == AppEvent::ToggleWindow(Some(anchor)) && !visible)
            &&& steps.contains(WindowStep::ConfirmClear) <==> event is RequestClearHistory
            &&& steps.contains(WindowStep::Hide) <==> event is ToggleWindow && visible
            &&& steps.contains(WindowStep::CopyLatest) <==> event is CopyLatest
            &&& steps.contains(WindowStep::Quit) <==> event is Quit
        }),
{
    let steps = response(event, visible);
    let first: int = if visible {
        0
    } else {
        1
    };
    match event {
        AppEvent::ShowWindow(wanted) => {
            assert(steps[first] == WindowStep::KeepOnTop);
            assert(steps[first + 1] == WindowStep::ApplyEffects);
            assert(steps[steps.len() - 2] == WindowStep::Focus);
            assert(steps[steps.len() - 1] == WindowStep::Redraw);
            assert(!visible ==> steps[0] == WindowStep::Show);
            assert(wanted == Some(anchor) ==> steps[first + 2] == WindowStep::Place(anchor));
        },
        AppEvent::ToggleWindow(wanted) => {
            if visible {
                assert(steps[0] == WindowStep::Hide);
            } else {
                assert(steps[0] == WindowStep::Show);
                assert(steps[1] == WindowStep::KeepOnTop);
                assert(steps[2] == WindowStep::ApplyEffects);
                assert(steps[steps.len() - 2] == WindowStep::Focus);
                assert(steps[steps.len() - 1] == WindowStep::Redraw);
                assert(wanted == Some(anchor) ==> steps[3] == WindowStep::Place(anchor));
            }
        },
        AppEvent::RequestClearHistory => {
            assert(steps[first] == WindowStep::KeepOnTop);
            assert(steps[first + 1] == WindowStep::ApplyEffects);
            assert(steps[first + 2] == WindowStep::ConfirmClear);
            assert(steps[first + 3] == WindowStep::Focus);
            assert(steps[first + 4] == WindowStep::Redraw);
            assert(!visible ==> steps[0] == WindowStep::Show);
        },
        AppEvent::CopyLatest => {
            assert(steps[0] == WindowStep::CopyLatest);
        },
        AppEvent::StorageChanged => {},
        AppEvent::Quit => {
            assert(steps[0] == WindowStep::Quit);
        },
    }
}

/// Whenever an event with an anchor leaves the window visible, the window is placed
/// once, at that very anchor, after it is shown.
pub proof fn law_placed_at_anchor(anchor: WindowAnchor, visible: bool, event: AppEvent)
    requires
        event == AppEvent::ShowWindow(Some(anchor)) || event == AppEvent::ToggleWindow(
            Some(anchor),
        ),
        visible_after(visible, response(event, visible)),
    ensures
        ({
            let steps = response(event, visible);
            exists|i: int|
                0 <= i < steps.len() && #[trigger] steps[i] == WindowStep::Place(anchor) && (
                forall|j: int|
                    0 <= j < steps.len() ==> (#[trigger] steps[j] is Place ==> j == i) && (steps[j]
                        is Show ==> j < i))
        }),
{
    law_visibility(event, visible);
    let steps = response(event, visible);
    let i: int = if visible {
        2
    } else {
        3
    };
    assert(steps[i] == WindowStep::Place(anchor));
}

/// What is done about one event is the response to it.
pub proof fn law_one_response(event: AppEvent, visible: bool)
    ensures
        responses(Seq::empty(), visible) == Seq::<WindowStep>::empty(),
        responses(seq![event], visible) == response(event, visible),
{
    reveal_with_fuel(responses, 2);
    reveal_with_fuel(visible_after, 1);
    assert(seq![event].drop_last() =~= Seq::empty());
    assert(responses(seq![event], visible) =~= response(event, visible));
}

/// Whether the window is visible depends on the last step that shows or hides it.
pub proof fn law_visible_after(visible: bool, before: Seq<WindowStep>, behind: Seq<WindowStep>)
    requires
        forall|i: int|
            0 <= i < behind.len() ==> !(#[trigger] behind[i] is Show) && !(behind[i] is Hide),
    ensures
        visible_after(visible, behind) == visible,
        visible_after(visible, before.push(WindowStep::Show) + behind),
        !visible_after(visible, before.push(WindowStep::Hide) + behind),
    decreases behind.len(),
{
    let shown = before.push(WindowStep::Show);
    let hidden = before.push(WindowStep::Hide);
    if behind.len() == 0 {
        assert(shown + behind =~= shown);
        assert(hidden + behind =~= hidden);
    } else {
        let less = behind.drop_last();
        assert(forall|i: int| 0 <= i < less.len() ==> #[trigger] less[i] == behind[i]);
        assert((shown + behind).drop_last() =~= shown + less);
        assert((hidden + behind).drop_last() =~= hidden + less);
        law_visible_after(visible, before, less);
    }
}

/// The entry that is chosen is the first with the identifier, and there is no event
/// where no entry has it.
pub proof fn law_menu_choice(entries: Seq<(Seq<char>, MenuEntry)>, chosen: Seq<char>, i: int)
    ensures
        0 <= i < entries.len() && entries[i].0 == chosen && (forall|j: int|
            0 <= j < i ==> (#[trigger] entries[j]).0 != chosen) ==> menu_choice(entries, chosen)
            == Some(entries[i].1.chosen()),
        (forall|j: int| 0 <= j < entries.len() ==> (#[trigger] entries[j]).0 != chosen)
            ==> menu_choice(entries, chosen) is None,
    decreases entries.len(),
{
    if entries.len() > 0 && entries[0].0 != chosen {
        let rest = entries.drop_first();
        assert(forall|j: int| 0 <= j < rest.len() ==> #[trigger] rest[j] == entries[j + 1]);
        law_menu_choice(rest, chosen, i - 1);
    }
}

/// No two entries of the menu are called the same, and no two mean the same.
pub proof fn law_menu_entries_apart(first: MenuEntry, second: MenuEntry)
    ensures
        first.shown_label() == second.shown_label() ==> first == second,
        first.chosen() == second.chosen() ==> first == second,
        menu().contains(first),
        menu().no_duplicates(),
{
    reveal_strlit("Show Pictray");
    reveal_strlit("Toggle Pictray");
    reveal_strlit("Copy Latest Image");
    reveal_strlit("Clear History");
    reveal_strlit("Quit");
    assert("Show Pictray"@[0] == 'S');
    assert("Toggle Pictray"@[0] == 'T');
    assert("Copy Latest Image"@[1] == 'o');
    assert("Clear History"@[1] == 'l');
    assert("Quit"@[0] == 'Q');
    assert("Copy Latest Image"@[0] == 'C' && "Clear History"@[0] == 'C');
    assert(menu()[0] == MenuEntry::Show && menu()[1] == MenuEntry::Toggle);
    assert(menu()[2] == MenuEntry::CopyLatest && menu()[3] == MenuEntry::ClearHistory);
    assert(menu()[4] == MenuEntry::Quit);
}

} // verus!
