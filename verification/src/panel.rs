//! What the window's controls do: what is said, what stays selected, and how the
//! stored items are taken out or put in another order.

use vstd::prelude::*;
use vstd::string::*;

use crate::actions::DiskAction;
use crate::paths::{FilePath, PathView};
use crate::records::RecordView;
use crate::store::{ImageStore, StoreView};
use crate::{actions, store, text};

verus! {

broadcast use vstd::string::group_string_axioms;

// ---------------------------------------------------------------------------
// Changes
// ---------------------------------------------------------------------------

/// What becomes of the window after something was done in it.
#[derive(Debug)]
pub struct PanelChange {
    /// What is said in the status line, if anything new is.
    pub status: Option<String>,
    /// The index of the item that is selected, or -1, if that changes.
    pub selected_index: Option<i32>,
    /// Whether it is asked if the history is to be cleared, if that changes.
    pub confirm_clear: Option<bool>,
    /// Whether the others are told that the store has changed.
    pub storage_changed: bool,
}

#[verifier::ext_equal]
pub struct ChangeView {
    pub status: Option<Seq<char>>,
    pub selected_index: Option<i32>,
    pub confirm_clear: Option<bool>,
    pub storage_changed: bool,
}

impl View for PanelChange {
    type V = ChangeView;

    open spec fn view(&self) -> ChangeView {
        ChangeView {
            status: text::text_option(self.status),
            selected_index: self.selected_index,
            confirm_clear: self.confirm_clear,
            storage_changed: self.storage_changed,
        }
    }
}

/// No item is selected.
pub const NOTHING_SELECTED: i32 = -1;

impl ChangeView {
    /// Something is said, and the store is as it was.
    pub open spec fn saying(status: Seq<char>) -> ChangeView {
        ChangeView {
            status: Some(status),
            selected_index: None,
            confirm_clear: None,
            storage_changed: false,
        }
    }

    /// Something is said, and the store has changed.
    pub open spec fn announcing(status: Seq<char>) -> ChangeView {
        ChangeView { storage_changed: true, ..ChangeView::saying(status) }
    }

    pub open spec fn unselecting(self) -> ChangeView {
        ChangeView { selected_index: Some(NOTHING_SELECTED), ..self }
    }

    pub open spec fn confirming(self, confirm: bool) -> ChangeView {
        ChangeView { confirm_clear: Some(confirm), ..self }
    }
}

fn saying(status: String) -> (change: PanelChange)
    ensures
        change@ == ChangeView::saying(status@),
{
    PanelChange {
        status: Some(status),
        selected_index: None,
        confirm_clear: None,
        storage_changed: false,
    }
}

fn announcing(status: String) -> (change: PanelChange)
    ensures
        change@ == ChangeView::announcing(status@),
{
    PanelChange {
        status: Some(status),
        selected_index: None,
        confirm_clear: None,
        storage_changed: true,
    }
}

fn joined(start: &str, end: &str) -> (whole: String)
    ensures
        whole@ == start@ + end@,
{
    let mut whole = start.to_owned();
    whole.append(end);
    whole
}

// ---------------------------------------------------------------------------
// One item
// ---------------------------------------------------------------------------

/// Why nothing could be done with the store.
#[derive(Debug)]
pub enum Failure {
    /// Another holder of the store panicked.
    Poisoned,
    Error { message: String },
}

pub open spec fn failure_text(failure: Failure) -> Seq<char> {
    match failure {
        Failure::Poisoned => "storage lock is poisoned."@,
        Failure::Error { message } => message@,
    }
}

/// What is said about an attempt: the one text if it succeeded, and the other
/// with the reason if it did not.
pub open spec fn attempt_text(
    result: Result<(), Failure>,
    success: Seq<char>,
    failed: Seq<char>,
) -> Seq<char> {
    match result {
        Ok(()) => success,
        Err(failure) => failed + failure_text(failure),
    }
}

fn describe_attempt(result: Result<(), Failure>, success: &str, failed: &str) -> (status: String)
    ensures
        status@ == attempt_text(result, success@, failed@),
{
    match result {
        Ok(()) => success.to_owned(),
        Err(Failure::Poisoned) => joined(failed, "storage lock is poisoned."),
        Err(Failure::Error { message }) => joined(failed, message.as_str()),
    }
}

/// After an item was copied to the clipboard.
pub fn item_copied(result: Result<(), Failure>) -> (change: PanelChange)
    ensures
        change@ == ChangeView::saying(
            attempt_text(result, "Copied item back to clipboard."@, "Copy failed: "@),
        ),
{
    saying(describe_attempt(result, "Copied item back to clipboard.", "Copy failed: "))
}

/// After an item was shown in the file manager.
pub fn item_revealed(result: Result<(), Failure>) -> (change: PanelChange)
    ensures
        change@ == ChangeView::saying(
            attempt_text(result, "Revealed item in file browser."@, "Inspect failed: "@),
        ),
{
    saying(describe_attempt(result, "Revealed item in file browser.", "Inspect failed: "))
}

/// After an item was opened. It is no longer selected.
pub fn item_opened(result: Result<(), Failure>) -> (change: PanelChange)
    ensures
        change@ == ChangeView::saying(
            attempt_text(result, "Opened item in its app."@, "Open failed: "@),
        ).unselecting(),
{
    let status = describe_attempt(result, "Opened item in its app.", "Open failed: ");
    PanelChange {
        status: Some(status),
        selected_index: Some(NOTHING_SELECTED),
        confirm_clear: None,
        storage_changed: false,
    }
}

/// What a drag of an item does next.
#[derive(Debug)]
pub enum DragStep {
    /// The drag has ended.
    Done { change: PanelChange },
    /// The system cannot drag files: copy the path of the file to the clipboard.
    CopyPath,
}

/// After the system was asked to drag the file of an item, if the item has one.
/// The system says whether it has begun to.
pub fn item_dragged(native: Result<bool, String>) -> (step: DragStep)
    ensures
        match native {
            Ok(true) => step matches DragStep::Done { change } && change@ == ChangeView::saying(
                "Started file drag."@,
            ),
            Ok(false) => step is CopyPath,
            Err(message) => step matches DragStep::Done { change } && change@
                == ChangeView::saying("Drag failed: "@ + message@),
        },
{
    match native {
        Ok(true) => DragStep::Done { change: saying("Started file drag.".to_owned()) },
        Ok(false) => DragStep::CopyPath,
        Err(message) => DragStep::Done { change: saying(joined("Drag failed: ", message.as_str())) },
    }
}

/// After the path of a dragged file was copied to the clipboard.
pub fn drag_copied(path: &FilePath, copied: Result<(), String>) -> (change: PanelChange)
    ensures
        change@ == ChangeView::saying(
            match copied {
                Ok(()) => "Copied path to clipboard: "@ + path@.text,
                Err(message) => "Drag failed: "@ + message@,
            },
        ),
{
    match copied {
        Ok(()) => saying(joined("Copied path to clipboard: ", path.text.as_str())),
        Err(message) => saying(joined("Drag failed: ", message.as_str())),
    }
}

/// Selects the item, or none if it is the one that is selected.
pub fn select_item(selected_index: i32, index: i32) -> (change: PanelChange)
    ensures
        change@ == (ChangeView {
            status: None,
            selected_index: Some(
                if selected_index == index {
                    NOTHING_SELECTED
                } else {
                    index
                },
            ),
            confirm_clear: None,
            storage_changed: false,
        }),
{
    let next: i32 = if selected_index == index {
        NOTHING_SELECTED
    } else {
        index
    };
    PanelChange {
        status: None,
        selected_index: Some(next),
        confirm_clear: None,
        storage_changed: false,
    }
}

// ---------------------------------------------------------------------------
// Taking items out
// ---------------------------------------------------------------------------

/// How taking items out has ended.
#[derive(Debug)]
pub enum Removal {
    /// Another holder of the store panicked.
    Poisoned,
    /// There was nothing to take out.
    Nothing,
    /// The items are out of the store; the message says why their files could
    /// not all be removed, if they could not.
    Removed { failure: Option<String> },
}

/// Takes an item out, and says which files go with it; nothing if there is no
/// item of that index.
pub fn delete_item(store: &mut ImageStore, index: usize) -> (steps: Option<Vec<DiskAction>>)
    ensures
        steps is Some <==> index < old(store)@.records.len(),
        steps matches Some(steps) ==> {
            &&& final(store)@ == old(store)@.with_records(
                old(store)@.records.remove(index as int),
            )
            &&& actions::action_views(steps@) == store::removal_steps(
                old(store)@.layout,
                old(store)@.records[index as int],
            )
        },
        steps is None ==> final(store)@ == old(store)@,
{
    if index >= store.records().len() {
        return None;
    }
    Some(store.delete(index))
}

/// After an item was taken out.
pub fn item_deleted(removal: Removal) -> (change: PanelChange)
    ensures
        change@ == (match removal {
            Removal::Poisoned => ChangeView::saying("Remove failed: storage lock is poisoned."@),
            Removal::Nothing => ChangeView::saying("No buffered item is available to remove."@),
            Removal::Removed { failure: None } => ChangeView::announcing(
                "Removed item from the buffer."@,
            ).unselecting(),
            Removal::Removed { failure: Some(message) } => ChangeView::announcing(
                "Removed item from this session, but cleanup failed: "@ + message@,
            ).unselecting(),
        }).confirming(false),
{
    let mut change = match removal {
        Removal::Poisoned => saying("Remove failed: storage lock is poisoned.".to_owned()),
        Removal::Nothing => saying("No buffered item is available to remove.".to_owned()),
        Removal::Removed { failure: None } => announcing(
            "Removed item from the buffer.".to_owned(),
        ),
        Removal::Removed { failure: Some(message) } => announcing(
            joined(
                "Removed item from this session, but cleanup failed: ",
                message.as_str(),
            ),
        ),
    };
    if change.storage_changed {
        change.selected_index = Some(NOTHING_SELECTED);
    }
    change.confirm_clear = Some(false);
    change
}

/// Asks whether the history is to be cleared, or takes the question back.
pub fn confirm_clear(ask: bool) -> (change: PanelChange)
    ensures
        change@ == (ChangeView {
            status: None,
            selected_index: None,
            confirm_clear: Some(ask),
            storage_changed: false,
        }),
{
    PanelChange {
        status: None,
        selected_index: None,
        confirm_clear: Some(ask),
        storage_changed: false,
    }
}

/// Takes all items out, and says which files go with them; nothing if there are
/// no items.
pub fn clear_items(store: &mut ImageStore) -> (steps: Option<Vec<DiskAction>>)
    ensures
        steps is Some <==> old(store)@.records.len() > 0,
        steps matches Some(steps) ==> {
            &&& final(store)@ == old(store)@.with_records(Seq::empty())
            &&& actions::action_views(steps@) == store::clearing_steps(
                old(store)@.layout,
                old(store)@.records,
            )
        },
        steps is None ==> final(store)@ == old(store)@,
{
    if store.records().len() == 0 {
        return None;
    }
    Some(store.clear())
}

/// After all items were taken out.
pub fn items_cleared(removal: Removal) -> (change: PanelChange)
    ensures
        change@ == (match removal {
            Removal::Poisoned => ChangeView::saying("Clear failed: storage lock is poisoned."@),
            Removal::Nothing => ChangeView::saying("Buffer is already empty."@),
            Removal::Removed { failure: None } => ChangeView::announcing(
                "Buffer cleared."@,
            ).unselecting(),
            Removal::Removed { failure: Some(message) } => ChangeView::announcing(
                "Buffer cleared from this session, but cleanup failed: "@ + message@,
            ).unselecting(),
        }).confirming(false),
{
    let mut change = match removal {
        Removal::Poisoned => saying("Clear failed: storage lock is poisoned.".to_owned()),
        Removal::Nothing => saying("Buffer is already empty.".to_owned()),
        Removal::Removed { failure: None } => announcing("Buffer cleared.".to_owned()),
        Removal::Removed { failure: Some(message) } => announcing(
            joined(
                "Buffer cleared from this session, but cleanup failed: ",
                message.as_str(),
            ),
        ),
    };
    if change.storage_changed {
        change.selected_index = Some(NOTHING_SELECTED);
    }
    change.confirm_clear = Some(false);
    change
}

// ---------------------------------------------------------------------------
// Putting items in another order
// ---------------------------------------------------------------------------

/// How high a tile is, how high the selected one is, and how far apart they are.
pub const TILE_HEIGHT: i128 = 168;

pub const TILE_HEIGHT_SELECTED: i128 = 214;

pub const TILE_SPACING: i128 = 8;

/// Whether the tile of that index is the selected one.
pub open spec fn tile_selected(index: int, selected_index: i32) -> bool {
    selected_index == #[verifier::truncate] ((index as usize) as i32)
}

pub open spec fn tile_height(index: int, selected_index: i32) -> int {
    if tile_selected(index, selected_index) {
        TILE_HEIGHT_SELECTED as int
    } else {
        TILE_HEIGHT as int
    }
}

/// Where the upper edge of a tile lies.
pub open spec fn tile_top(index: int, selected_index: i32) -> int
    decreases index,
{
    if index <= 0 {
        0
    } else {
        tile_top(index - 1, selected_index) + tile_height(index - 1, selected_index)
            + TILE_SPACING
    }
}

/// Where the middle of a tile lies.
pub open spec fn tile_middle(index: int, selected_index: i32) -> int {
    tile_top(index, selected_index) + tile_height(index, selected_index) / 2
}

/// Whether an item that is let go at `pointer_y` belongs at the place `target`:
/// that of the first tile whose middle lies no higher, or else the last one.
pub open spec fn drop_place(
    pointer_y: int,
    item_count: int,
    selected_index: i32,
    target: int,
) -> bool {
    if item_count == 0 {
        target == 0
    } else {
        &&& 0 <= target < item_count
        &&& forall|i: int|
            0 <= i < target ==> #[trigger] tile_middle(i, selected_index) < pointer_y
        &&& target < item_count - 1 ==> pointer_y <= tile_middle(target, selected_index)
    }
}

/// The place where an item that is let go at `pointer_y` belongs.
pub open spec fn drop_target(pointer_y: int, item_count: int, selected_index: i32) -> int {
    choose|target: int| drop_place(pointer_y, item_count, selected_index, target)
}

/// Where an item that is let go at `pointer_y` belongs. The ordinate is rounded
/// up to a whole number.
pub fn reorder_target_index(pointer_y: i64, item_count: usize, selected_index: i32) -> (target:
    usize)
    ensures
        drop_place(pointer_y as int, item_count as int, selected_index, target as int),
        target == drop_target(pointer_y as int, item_count as int, selected_index),
{
    let target: usize = first_tile_below(pointer_y, item_count, selected_index);
    proof {
        law_drop_place_unique(
            pointer_y as int,
            item_count as int,
            selected_index,
            target as int,
            drop_target(pointer_y as int, item_count as int, selected_index),
        );
    }
    target
}

fn first_tile_below(pointer_y: i64, item_count: usize, selected_index: i32) -> (target: usize)
    ensures
        drop_place(pointer_y as int, item_count as int, selected_index, target as int),
{
    if item_count == 0 {
        return 0;
    }
    let mut current_y: i128 = 0;
    let mut index: usize = 0;
    while index < item_count
        invariant
            0 < item_count,
            index <= item_count,
            current_y == tile_top(index as int, selected_index),
            0 <= current_y <= 222 * index,
            forall|i: int|
                0 <= i < index ==> #[trigger] tile_middle(i, selected_index) < pointer_y,
        decreases item_count - index,
    {
        let height: i128 = if selected_index == #[verifier::truncate] (index as i32) {
            TILE_HEIGHT_SELECTED
        } else {
            TILE_HEIGHT
        };
        assert(height == tile_height(index as int, selected_index));
        let midpoint: i128 = current_y + height / 2;
        assert(midpoint == tile_middle(index as int, selected_index));
        if pointer_y as i128 <= midpoint {
            return index;
        }
        current_y = current_y + height + TILE_SPACING;
        index += 1;
    }
    item_count - 1
}

/// Letting an item go further down never puts it further up.
pub proof fn law_drop_further_down(
    upper_y: int,
    lower_y: int,
    item_count: int,
    selected_index: i32,
    upper: int,
    lower: int,
)
    requires
        upper_y <= lower_y,
        drop_place(upper_y, item_count, selected_index, upper),
        drop_place(lower_y, item_count, selected_index, lower),
    ensures
        upper <= lower,
{
    if lower < upper {
        assert(tile_middle(lower, selected_index) < upper_y);
    }
}

/// The place of an item that is let go is fixed by where that happens.
pub proof fn law_drop_place_unique(
    pointer_y: int,
    item_count: int,
    selected_index: i32,
    first: int,
    second: int,
)
    requires
        drop_place(pointer_y, item_count, selected_index, first),
        drop_place(pointer_y, item_count, selected_index, second),
    ensures
        first == second,
{
    law_drop_further_down(pointer_y, pointer_y, item_count, selected_index, first, second);
    law_drop_further_down(pointer_y, pointer_y, item_count, selected_index, second, first);
}

proof fn lemma_tile_tops(lower: int, upper: int, selected_index: i32)
    requires
        0 <= lower < upper,
    ensures
        tile_top(lower, selected_index) + tile_height(lower, selected_index) <= tile_top(
            upper,
            selected_index,
        ),
    decreases upper,
{
    if lower < upper - 1 {
        lemma_tile_tops(lower, upper - 1, selected_index);
    }
}

/// An item that is let go on the upper half of a tile takes its place.
pub proof fn law_drop_on_tile(pointer_y: int, item_count: int, selected_index: i32, index: int)
    requires
        0 <= index < item_count,
        tile_top(index, selected_index) <= pointer_y <= tile_middle(index, selected_index),
    ensures
        drop_place(pointer_y, item_count, selected_index, index),
{
    assert forall|i: int| 0 <= i < index implies #[trigger] tile_middle(i, selected_index)
        < pointer_y by {
        lemma_tile_tops(i, index, selected_index);
    }
}

/// The item that goes from one place to another, or the text that says why it
/// does not.
pub open spec fn reordered(
    view: StoreView,
    index: i32,
    target: int,
    gone: Seq<char>,
) -> (Seq<RecordView>, ChangeView) {
    if view.records.len() < 2 {
        (view.records, ChangeView::saying("Need at least two buffered items to reorder."@))
    } else if index < 0 || index >= view.records.len() {
        (view.records, ChangeView::saying(gone))
    } else if index == target {
        (view.records, ChangeView::saying("Item stayed in the same position."@))
    } else {
        (
            store::moved(view.records, index as int, target),
            ChangeView::announcing(
                "Moved item to position "@ + text::decimal((target + 1) as nat) + "."@,
            ),
        )
    }
}

fn moved_status(target_index: usize) -> (status: String)
    requires
        target_index < usize::MAX,
    ensures
        status@ == "Moved item to position "@ + text::decimal((target_index + 1) as nat) + "."@,
{
    let mut status = "Moved item to position ".to_owned();
    text::push_decimal(&mut status, target_index as u64 + 1);
    status.append(".");
    status
}

/// Moves an item of the store, and says whether that changed anything.
fn move_to(
    store: &mut ImageStore,
    from_index: usize,
    target_index: usize,
    failed: &str,
) -> (change: PanelChange)
    requires
        from_index < old(store)@.records.len(),
        target_index < old(store)@.records.len() <= usize::MAX,
    ensures
        final(store)@ == old(store)@.with_records(
            store::moved(old(store)@.records, from_index as int, target_index as int),
        ),
        change@ == if from_index == target_index {
            ChangeView::saying("Item stayed in the same position."@)
        } else {
            ChangeView::announcing(
                "Moved item to position "@ + text::decimal((target_index + 1) as nat) + "."@,
            )
        },
{
    match store.move_record(from_index, target_index) {
        Ok(true) => announcing(moved_status(target_index)),
        Ok(false) => saying("Item stayed in the same position.".to_owned()),
        Err(error) => saying(joined(failed, error.message().as_str())),
    }
}

proof fn lemma_moved_to_itself(records: Seq<RecordView>, index: int)
    requires
        0 <= index < records.len(),
    ensures
        store::moved(records, index, index) == records,
{
    assert(store::moved(records, index, index) =~= records);
}

proof fn lemma_moved_alone(records: Seq<RecordView>, from: int, to: int)
    requires
        0 <= from < records.len(),
        0 <= to < records.len(),
    ensures
        store::moved(records, from, to)[to] == records[from],
        store::moved(records, from, to).remove(to) == records.remove(from),
{
    assert(store::moved(records, from, to).remove(to) =~= records.remove(from));
}

/// Puts the item that was dragged where it was let go.
pub fn reorder_image(
    store: &mut ImageStore,
    from_index: i32,
    pointer_y: i64,
    selected_index: i32,
) -> (change: PanelChange)
    ensures
        (final(store)@.records, change@) == reordered(
            old(store)@,
            from_index,
            drop_target(pointer_y as int, old(store)@.records.len() as int, selected_index),
            "Reorder failed: dragged item is no longer available."@,
        ),
        final(store)@.layout == old(store)@.layout,
        old(store)@.records.len() >= 2 && 0 <= from_index < old(store)@.records.len() ==> exists|
            target: int,
        |
            {
                &&& #[trigger] drop_place(
                    pointer_y as int,
                    old(store)@.records.len() as int,
                    selected_index,
                    target,
                )
                &&& final(store)@.records[target] == old(store)@.records[from_index as int]
                &&& final(store)@.records.remove(target) == old(store)@.records.remove(
                    from_index as int,
                )
                &&& change@.storage_changed <==> target != from_index
            },
        !(old(store)@.records.len() >= 2 && 0 <= from_index < old(store)@.records.len())
            ==> final(store)@.records == old(store)@.records && !change@.storage_changed,
{
    let item_count = store.records().len();
    assert(item_count == store@.records.len());
    if item_count < 2 {
        return saying("Need at least two buffered items to reorder.".to_owned());
    }
    if from_index < 0 || from_index as usize >= item_count {
        return saying("Reorder failed: dragged item is no longer available.".to_owned());
    }
    proof {
        lemma_moved_to_itself(store@.records, from_index as int);
    }
    let target_index = reorder_target_index(pointer_y, item_count, selected_index);
    proof {
        lemma_moved_alone(store@.records, from_index as int, target_index as int);
    }
    move_to(store, from_index as usize, target_index, "Reorder failed: ")
}

/// The place that lies `offset` places away, as far as there are items.
pub open spec fn offset_place(index: int, offset: int, item_count: int) -> int {
    if index + offset < 0 {
        0
    } else if index + offset >= item_count {
        item_count - 1
    } else {
        index + offset
    }
}

/// Moves an item by some places, as far as there are items.
pub fn move_item_by_offset(store: &mut ImageStore, index: i32, offset: isize) -> (change:
    PanelChange)
    ensures
        (final(store)@.records, change@) == reordered(
            old(store)@,
            index,
            offset_place(index as int, offset as int, old(store)@.records.len() as int),
            "Move failed: selected item is no longer available."@,
        ),
        final(store)@.layout == old(store)@.layout,
        old(store)@.records.len() >= 2 && 0 <= index < old(store)@.records.len() ==> {
            let last = old(store)@.records.len() - 1;
            let target = if index + offset < 0 {
                0
            } else if index + offset > last {
                last
            } else {
                index + offset
            };
            &&& final(store)@.records[target] == old(store)@.records[index as int]
            &&& final(store)@.records.remove(target) == old(store)@.records.remove(index as int)
            &&& change@.storage_changed <==> target != index
            &&& target != index ==> change@.status == Some(
                "Moved item to position "@ + text::decimal((target + 1) as nat) + "."@,
            )
        },
        !(old(store)@.records.len() >= 2 && 0 <= index < old(store)@.records.len())
            ==> final(store)@.records == old(store)@.records && !change@.storage_changed,
{
    let item_count = store.records().len();
    assert(item_count == store@.records.len());
    if item_count < 2 {
        return saying("Need at least two buffered items to reorder.".to_owned());
    }
    if index < 0 || index as usize >= item_count {
        return saying("Move failed: selected item is no longer available.".to_owned());
    }
    let wanted: i128 = index as i128 + offset as i128;
    let target_index: usize = if wanted < 0 {
        0
    } else if wanted >= item_count as i128 {
        item_count - 1
    } else {
        wanted as usize
    };
    proof {
        lemma_moved_to_itself(store@.records, index as int);
        lemma_moved_alone(store@.records, index as int, target_index as int);
    }
    move_to(store, index as usize, target_index, "Move failed: ")
}

/// What is said when another holder of the store panicked.
pub fn order_unavailable(dragged: bool) -> (change: PanelChange)
    ensures
        change@ == ChangeView::saying(
            if dragged {
                "Reorder failed: storage lock is poisoned."@
            } else {
                "Move failed: storage lock is poisoned."@
            },
        ),
{
    if dragged {
        saying("Reorder failed: storage lock is poisoned.".to_owned())
    } else {
        saying("Move failed: storage lock is poisoned.".to_owned())
    }
}

/// An item that is moved down and then up again, with items below it, is where
/// it was, and so are the others.
pub proof fn law_move_down_and_up(view: StoreView, index: i32, gone: Seq<char>)
    requires
        0 <= index < i32::MAX,
        index + 1 < view.records.len(),
    ensures
        ({
            let count = view.records.len() as int;
            let (records, _) = reordered(view, index, offset_place(index as int, 1, count), gone);
            reordered(
                view.with_records(records),
                (index + 1) as i32,
                offset_place(index + 1, -1, count),
                gone,
            ).0
        }) == view.records,
{
    let moved = store::moved(view.records, index as int, index + 1);
    assert(moved.len() == view.records.len());
    assert(store::moved(moved, index + 1, index as int) =~= view.records);
}

// ---------------------------------------------------------------------------
// The clipboard
// ---------------------------------------------------------------------------

/// After what the clipboard holds was pasted into the window.
pub fn pasted(result: Result<bool, String>) -> (change: PanelChange)
    ensures
        change@ == (match result {
            Ok(true) => ChangeView::announcing("Buffered clipboard item."@),
            Ok(false) => ChangeView::saying(
                "Clipboard does not contain a supported image or file."@,
            ),
            Err(message) => ChangeView::saying("Paste failed: "@ + message@),
        }),
{
    match result {
        Ok(true) => announcing("Buffered clipboard item.".to_owned()),
        Ok(false) => saying("Clipboard does not contain a supported image or file.".to_owned()),
        Err(message) => saying(joined("Paste failed: ", message.as_str())),
    }
}

/// Which item the copy shortcut copies: the selected one, or else the most recent
/// one.
pub fn copy_target(selected_index: i32) -> (index: Option<usize>)
    ensures
        match index {
            Some(index) => selected_index >= 0 && index == selected_index,
            None => selected_index < 0,
        },
{
    if selected_index >= 0 {
        Some(selected_index as usize)
    } else {
        None
    }
}

/// After the copy shortcut. The result says whether there was an item to copy.
pub fn shortcut_copied(selected_index: i32, result: Result<bool, String>) -> (change: PanelChange)
    ensures
        change@ == ChangeView::saying(
            match result {
                Ok(true) => if selected_index >= 0 {
                    "Copied selected item to the clipboard."@
                } else {
                    "Copied latest item to the clipboard."@
                },
                Ok(false) => "No buffered item is available to copy."@,
                Err(message) => "Copy failed: "@ + message@,
            },
        ),
{
    match result {
        Ok(true) => {
            if selected_index >= 0 {
                saying("Copied selected item to the clipboard.".to_owned())
            } else {
                saying("Copied latest item to the clipboard.".to_owned())
            }
        },
        Ok(false) => saying("No buffered item is available to copy.".to_owned()),
        Err(message) => saying(joined("Copy failed: ", message.as_str())),
    }
}

/// After the most recent item was copied from outside the window. The result says
/// whether there was an item to copy.
pub fn latest_copied(result: Result<bool, Failure>) -> (change: PanelChange)
    ensures
        change@ == ChangeView::saying(
            match result {
                Ok(true) => "Copied latest item back to clipboard."@,
                Ok(false) => "No stored item is available yet."@,
                Err(failure) => "Copy failed: "@ + failure_text(failure),
            },
        ),
{
    match result {
        Ok(true) => saying("Copied latest item back to clipboard.".to_owned()),
        Ok(false) => saying("No stored item is available yet.".to_owned()),
        Err(Failure::Poisoned) => saying(joined("Copy failed: ", "storage lock is poisoned.")),
        Err(Failure::Error { message }) => saying(joined("Copy failed: ", message.as_str())),
    }
}

/// What is said about a file that was dropped, given whether its path could be
/// copied to the clipboard and whether the store took it.
pub open spec fn dropped_text(
    path: PathView,
    copied: Result<(), String>,
    stored: Result<bool, String>,
) -> Seq<char> {
    match (copied, stored) {
        (Err(message), _) => "Copy failed: "@ + message@,
        (Ok(()), Ok(true)) => "Buffered file path and copied it: "@ + path.text,
        (Ok(()), Ok(false)) => "Copied existing file path: "@ + path.text,
        (Ok(()), Err(message)) => "Copied path, but buffering failed: "@ + message@,
    }
}

/// After a file was dropped into the window.
pub fn file_dropped(path: &FilePath, copied: Result<(), String>, stored: Result<bool, String>) -> (
    change: PanelChange)
    ensures
        change@ == ChangeView::announcing(dropped_text(path@, copied, stored)),
        change.storage_changed,
        copied matches Err(message) ==> change@.status == Some("Copy failed: "@ + message@),
        copied is Ok && stored == Ok::<bool, String>(true) ==> change@.status == Some(
            "Buffered file path and copied it: "@ + path@.text,
        ),
        copied is Ok && stored == Ok::<bool, String>(false) ==> change@.status == Some(
            "Copied existing file path: "@ + path@.text,
        ),
        copied is Ok && stored is Err ==> change@.status == Some(
            "Copied path, but buffering failed: "@ + stored->Err_0@,
        ),
{
    match copied {
        Err(message) => announcing(joined("Copy failed: ", message.as_str())),
        Ok(()) => match stored {
            Ok(true) => announcing(
                joined("Buffered file path and copied it: ", path.text.as_str()),
            ),
            Ok(false) => announcing(joined("Copied existing file path: ", path.text.as_str())),
            Err(message) => announcing(
                joined("Copied path, but buffering failed: ", message.as_str()),
            ),
        },
    }
}

// ---------------------------------------------------------------------------
// Laws
// ---------------------------------------------------------------------------

/// What is said is said as it is; only an announcement tells the others, only an item
/// that is no longer there is no longer selected, and nothing else changes.
pub proof fn law_changes(status: Seq<char>, change: ChangeView, confirm: bool)
    ensures
        ChangeView::saying(status).status == Some(status),
        ChangeView::saying(status).selected_index is None,
        ChangeView::saying(status).confirm_clear is None,
        !ChangeView::saying(status).storage_changed,
        ChangeView::announcing(status).status == Some(status),
        ChangeView::announcing(status).selected_index is None,
        ChangeView::announcing(status).confirm_clear is None,
        ChangeView::announcing(status).storage_changed,
        change.unselecting().selected_index == Some(-1i32),
        change.unselecting().status == change.status,
        change.unselecting().confirm_clear == change.confirm_clear,
        change.unselecting().storage_changed == change.storage_changed,
        change.confirming(confirm).confirm_clear == Some(confirm),
        change.confirming(confirm).status == change.status,
        change.confirming(confirm).selected_index == change.selected_index,
        change.confirming(confirm).storage_changed == change.storage_changed,
{
}

/// An attempt that succeeded is told as such, and one that failed with its reason.
pub proof fn law_attempt(message: String, success: Seq<char>, failed: Seq<char>)
    ensures
        attempt_text(Ok(()), success, failed) == success,
        attempt_text(Err(Failure::Poisoned), success, failed) == failed
            + "storage lock is poisoned."@,
        attempt_text(Err(Failure::Error { message }), success, failed) == failed + message@,
{
}

/// The tiles stand one below the other, each 168 pixels high and the selected one 214,
/// with 8 between each two.
pub proof fn law_tiles(index: int, selected_index: i32)
    requires
        0 <= index <= i32::MAX,
    ensures
        tile_height(index, selected_index) == if index == selected_index {
            214int
        } else {
            168
        },
        tile_top(index, selected_index) == if 0 <= selected_index < index {
            176 * index + 46
        } else {
            176 * index
        },
        tile_middle(index, selected_index) == tile_top(index, selected_index)
            + if index == selected_index {
            107int
        } else {
            84
        },
    decreases index,
{
    if index > 0 {
        law_tiles(index - 1, selected_index);
    }
}

/// An item that is let go above the middle of the first tile goes first, one that is
/// let go below the middle of the last tile goes last, and one that is let go between
/// the middles of two tiles takes the place of the lower one.
pub proof fn law_drop_between(pointer_y: int, item_count: int, selected_index: i32, index: int)
    requires
        0 <= index < item_count,
    ensures
        pointer_y <= tile_middle(0, selected_index) ==> drop_place(
            pointer_y,
            item_count,
            selected_index,
            0,
        ),
        pointer_y > tile_middle(item_count - 1, selected_index) ==> drop_place(
            pointer_y,
            item_count,
            selected_index,
            item_count - 1,
        ),
        index > 0 && tile_middle(index - 1, selected_index) < pointer_y <= tile_middle(
            index,
            selected_index,
        ) ==> drop_place(pointer_y, item_count, selected_index, index),
{
    assert forall|i: int, j: int| 0 <= i < j implies #[trigger] tile_middle(i, selected_index)
        < #[trigger] tile_middle(j, selected_index) by {
        lemma_tile_tops(i, j, selected_index);
    }
}

/// A place some places away is that many away where there is one, and otherwise the
/// first or the last.
pub proof fn law_offset_place(index: int, offset: int, item_count: int)
    requires
        0 <= index < item_count,
    ensures
        0 <= offset_place(index, offset, item_count) < item_count,
        0 <= index + offset < item_count ==> offset_place(index, offset, item_count) == index
            + offset,
        index + offset < 0 ==> offset_place(index, offset, item_count) == 0,
        index + offset >= item_count ==> offset_place(index, offset, item_count) == item_count - 1,
{
}

} // verus!
