//! Where the window is placed: centred below its anchor, or above it where there
//! is no room, and within the monitor.

use vstd::prelude::*;

use crate::events::WindowAnchor;

verus! {

/// The outer size of the window.
#[derive(Debug, Clone, Copy)]
pub struct WindowSize {
    pub width: i32,
    pub height: i32,
}

/// The rectangle of a monitor.
#[derive(Debug, Clone, Copy)]
pub struct MonitorArea {
    pub x: i32,
    pub y: i32,
    pub width: i32,
    pub height: i32,
}

/// How far the window stays away from its anchor.
pub const TRAY_GAP: i64 = 3;

/// How far the window stays away from the edges of the monitor.
pub const MONITOR_PADDING: i64 = 6;

/// Half of a number, rounded towards zero.
pub open spec fn half(n: int) -> int {
    if n >= 0 {
        n / 2
    } else {
        -((-n) / 2)
    }
}

/// The number of the range that lies nearest. An empty range counts as its lower
/// end alone.
pub open spec fn nearest_within(n: int, low: int, high: int) -> int {
    if n <= low || high <= low {
        low
    } else if n > high {
        high
    } else {
        n
    }
}

pub open spec fn centred_x(anchor: WindowAnchor, size: WindowSize) -> int {
    anchor.x + half(anchor.width - size.width)
}

pub open spec fn below_y(anchor: WindowAnchor) -> int {
    anchor.y + anchor.height + TRAY_GAP
}

pub open spec fn above_y(anchor: WindowAnchor, size: WindowSize) -> int {
    anchor.y - size.height - TRAY_GAP
}

/// The furthest left and the highest place within a monitor.
pub open spec fn first_place(monitor: MonitorArea) -> (int, int) {
    (monitor.x + MONITOR_PADDING, monitor.y + MONITOR_PADDING)
}

/// The furthest right and the lowest place within a monitor.
pub open spec fn last_place(size: WindowSize, monitor: MonitorArea) -> (int, int) {
    (
        monitor.x + monitor.width - size.width - MONITOR_PADDING,
        monitor.y + monitor.height - size.height - MONITOR_PADDING,
    )
}

/// Where the upper left corner of the window goes.
pub open spec fn window_place(
    anchor: WindowAnchor,
    size: WindowSize,
    monitor: Option<MonitorArea>,
) -> (int, int) {
    let x = centred_x(anchor, size);
    let y = below_y(anchor);
    match monitor {
        None => (x, y),
        Some(monitor) => {
            let (min_x, min_y) = first_place(monitor);
            let (max_x, max_y) = last_place(size, monitor);
            (
                nearest_within(x, min_x, max_x),
                nearest_within(
                    if y > max_y {
                        above_y(anchor, size)
                    } else {
                        y
                    },
                    min_y,
                    max_y,
                ),
            )
        },
    }
}

pub open spec fn is_i32(n: int) -> bool {
    i32::MIN <= n <= i32::MAX
}

/// Whether all coordinates that the place is computed from are 32-bit numbers.
pub open spec fn placeable(
    anchor: WindowAnchor,
    size: WindowSize,
    monitor: Option<MonitorArea>,
) -> bool {
    &&& is_i32(anchor.width - size.width)
    &&& is_i32(centred_x(anchor, size))
    &&& is_i32(anchor.y + anchor.height)
    &&& is_i32(below_y(anchor))
    &&& monitor matches Some(monitor) ==> {
        &&& is_i32(first_place(monitor).0)
        &&& is_i32(first_place(monitor).1)
        &&& is_i32(monitor.x + monitor.width)
        &&& is_i32(monitor.x + monitor.width - size.width)
        &&& is_i32(last_place(size, monitor).0)
        &&& is_i32(monitor.y + monitor.height)
        &&& is_i32(monitor.y + monitor.height - size.height)
        &&& is_i32(last_place(size, monitor).1)
        &&& below_y(anchor) > last_place(size, monitor).1 ==> is_i32(anchor.y - size.height)
            && is_i32(above_y(anchor, size))
    }
}

fn fits_i32(n: i64) -> (yes: bool)
    ensures
        yes == is_i32(n as int),
{
    i32::MIN as i64 <= n && n <= i32::MAX as i64
}

/// Whether all coordinates that the place is computed from are 32-bit numbers.
pub fn can_place(anchor: WindowAnchor, size: WindowSize, monitor: Option<MonitorArea>) -> (yes:
    bool)
    ensures
        yes == placeable(anchor, size, monitor),
{
    let width: i64 = size.width as i64;
    let height: i64 = size.height as i64;
    let y: i64 = anchor.y as i64 + anchor.height as i64 + TRAY_GAP;
    if !fits_i32(anchor.width as i64 - width) || !fits_i32(centre(anchor, size)) || !fits_i32(
        anchor.y as i64 + anchor.height as i64,
    ) || !fits_i32(y) {
        return false;
    }
    match monitor {
        None => true,
        Some(monitor) => {
            let right: i64 = monitor.x as i64 + monitor.width as i64;
            let bottom: i64 = monitor.y as i64 + monitor.height as i64;
            let max_y: i64 = bottom - height - MONITOR_PADDING;
            fits_i32(monitor.x as i64 + MONITOR_PADDING) && fits_i32(
                monitor.y as i64 + MONITOR_PADDING,
            ) && fits_i32(right) && fits_i32(right - width) && fits_i32(
                right - width - MONITOR_PADDING,
            ) && fits_i32(bottom) && fits_i32(bottom - height) && fits_i32(max_y) && (y <= max_y
                || (fits_i32(anchor.y as i64 - height) && fits_i32(
                anchor.y as i64 - height - TRAY_GAP,
            )))
        },
    }
}

fn centre(anchor: WindowAnchor, size: WindowSize) -> (x: i64)
    ensures
        x == centred_x(anchor, size),
{
    let space: i64 = anchor.width as i64 - size.width as i64;
    if space >= 0 {
        anchor.x as i64 + space / 2
    } else {
        anchor.x as i64 - (-space) / 2
    }
}

fn clamp(n: i64, low: i64, high: i64) -> (nearest: i64)
    ensures
        nearest == nearest_within(n as int, low as int, high as int),
{
    if n <= low || high <= low {
        low
    } else if n > high {
        high
    } else {
        n
    }
}

/// Where the upper left corner of the window goes.
pub fn place_window_near_anchor(
    anchor: WindowAnchor,
    size: WindowSize,
    monitor: Option<MonitorArea>,
) -> (place: (i32, i32))
    requires
        placeable(anchor, size, monitor),
    ensures
        (place.0 as int, place.1 as int) == window_place(anchor, size, monitor),
{
    let x: i64 = centre(anchor, size);
    let y: i64 = anchor.y as i64 + anchor.height as i64 + TRAY_GAP;
    match monitor {
        None => (x as i32, y as i32),
        Some(monitor) => {
            let min_x: i64 = monitor.x as i64 + MONITOR_PADDING;
            let max_x: i64 = monitor.x as i64 + monitor.width as i64 - size.width as i64
                - MONITOR_PADDING;
            let min_y: i64 = monitor.y as i64 + MONITOR_PADDING;
            let max_y: i64 = monitor.y as i64 + monitor.height as i64 - size.height as i64
                - MONITOR_PADDING;
            let wanted: i64 = if y > max_y {
                anchor.y as i64 - size.height as i64 - TRAY_GAP
            } else {
                y
            };
            (clamp(x, min_x, max_x) as i32, clamp(wanted, min_y, max_y) as i32)
        },
    }
}

/// A window that fits into the monitor, with the padding, lies within it.
pub proof fn law_within_monitor(anchor: WindowAnchor, size: WindowSize, monitor: MonitorArea)
    requires
        size.width + 2 * MONITOR_PADDING <= monitor.width,
        size.height + 2 * MONITOR_PADDING <= monitor.height,
    ensures
        ({
            let (x, y) = window_place(anchor, size, Some(monitor));
            &&& monitor.x + MONITOR_PADDING <= x
            &&& x + size.width <= monitor.x + monitor.width - MONITOR_PADDING
            &&& monitor.y + MONITOR_PADDING <= y
            &&& y + size.height <= monitor.y + monitor.height - MONITOR_PADDING
        }),
{
}

/// A window that does not fit into the monitor starts at its upper left corner,
/// but for the padding.
pub proof fn law_larger_than_monitor(anchor: WindowAnchor, size: WindowSize, monitor: MonitorArea)
    requires
        size.width + 2 * MONITOR_PADDING >= monitor.width,
        size.height + 2 * MONITOR_PADDING >= monitor.height,
    ensures
        window_place(anchor, size, Some(monitor)) == first_place(monitor),
{
}

/// A window that lies above or below its anchor, with room to spare there, does
/// not cover it.
pub proof fn law_clear_of_anchor(anchor: WindowAnchor, size: WindowSize, monitor: MonitorArea)
    requires
        first_place(monitor).1 <= below_y(anchor) <= last_place(size, monitor).1
            || first_place(monitor).1 <= above_y(anchor, size) <= last_place(size, monitor).1
            < below_y(anchor),
    ensures
        ({
            let (_, y) = window_place(anchor, size, Some(monitor));
            y >= anchor.y + anchor.height + TRAY_GAP || y + size.height + TRAY_GAP <= anchor.y
        }),
{
}

/// Without a monitor the window is centred below its anchor, three pixels away from
/// it; where it cannot be centred exactly, half a pixel is left over.
pub proof fn law_below_anchor(anchor: WindowAnchor, size: WindowSize)
    ensures
        ({
            let (x, y) = window_place(anchor, size, None);
            let left = x - anchor.x;
            let right = anchor.x + anchor.width - (x + size.width);
            &&& y == anchor.y + anchor.height + 3
            &&& -1 <= left - right <= 1
            &&& anchor.width >= size.width ==> left <= right
            &&& anchor.width <= size.width ==> left >= right
        }),
{
}

/// On a monitor the window stays below its anchor where there is room, six pixels
/// away from the edge, and otherwise goes above it, three pixels away, where there is
/// room there; where there is none, it goes to the edge that is nearest.
pub proof fn law_above_or_below(anchor: WindowAnchor, size: WindowSize, monitor: MonitorArea)
    requires
        size.height + 12 <= monitor.height,
    ensures
        ({
            let (_, y) = window_place(anchor, size, Some(monitor));
            let top = monitor.y + 6;
            let bottom = monitor.y + monitor.height - 6;
            let below = anchor.y + anchor.height + 3;
            let above = anchor.y - 3 - size.height;
            &&& below + size.height <= bottom && below >= top ==> y == below
            &&& below + size.height <= bottom && below < top ==> y == top
            &&& below + size.height > bottom && above >= top && above + size.height <= bottom ==> y
                == above
            &&& below + size.height > bottom && above < top ==> y == top
            &&& below + size.height > bottom && above + size.height > bottom ==> y + size.height
                == bottom
        }),
{
}

/// On a monitor the window is as far to the left as without one, but for what keeps it
/// six pixels away from the edges.
pub proof fn law_sideways(anchor: WindowAnchor, size: WindowSize, monitor: MonitorArea)
    requires
        size.width + 12 <= monitor.width,
    ensures
        ({
            let free = window_place(anchor, size, None).0;
            let x = window_place(anchor, size, Some(monitor)).0;
            let left = monitor.x + 6;
            let right = monitor.x + monitor.width - 6;
            &&& left <= free && free + size.width <= right ==> x == free
            &&& free < left ==> x == left
            &&& free + size.width > right ==> x + size.width == right
        }),
{
}

/// In a direction in which the window does not fit into the monitor it starts six
/// pixels from the edge.
pub proof fn law_too_large(anchor: WindowAnchor, size: WindowSize, monitor: MonitorArea)
    ensures
        size.width + 12 >= monitor.width ==> window_place(anchor, size, Some(monitor)).0
            == monitor.x + 6,
        size.height + 12 >= monitor.height ==> window_place(anchor, size, Some(monitor)).1
            == monitor.y + 6,
{
}

/// Wherever on a screen of a quarter of a billion pixels either way the anchor and the
/// monitor lie, the window can be placed.
pub proof fn law_placeable(anchor: WindowAnchor, size: WindowSize, monitor: MonitorArea)
    requires
        -0x1000_0000 <= anchor.x <= 0x1000_0000,
        -0x1000_0000 <= anchor.y <= 0x1000_0000,
        0 <= anchor.width <= 0x1000_0000,
        0 <= anchor.height <= 0x1000_0000,
        0 <= size.width <= 0x1000_0000,
        0 <= size.height <= 0x1000_0000,
        -0x1000_0000 <= monitor.x <= 0x1000_0000,
        -0x1000_0000 <= monitor.y <= 0x1000_0000,
        0 <= monitor.width <= 0x1000_0000,
        0 <= monitor.height <= 0x1000_0000,
    ensures
        placeable(anchor, size, None),
        placeable(anchor, size, Some(monitor)),
{
}

} // verus!
