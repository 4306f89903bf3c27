//! Placement of the clipboard panel next to the cursor, and the decisions
//! behind hiding it when the user clicks or switches away.
use vstd::prelude::*;

verus! {

/// The cursor position and the work area of the monitor it is on.
#[derive(Clone, Copy, PartialEq, Eq, Structural, Debug)]
pub struct WorkArea {
    pub cursor_x: i32,
    pub cursor_y: i32,
    pub left: i32,
    pub top: i32,
    pub right: i32,
    pub bottom: i32,
}

/// Distance from the cursor to the panel's corner, in pixels.
pub const CURSOR_OFFSET: i32 = 14;

/// Panel size used when the window's size cannot be read.
pub const DEFAULT_WIDTH: u32 = 383;

/// Panel size used when the window's size cannot be read.
pub const DEFAULT_HEIGHT: u32 = 509;

/// Position used when the cursor or work area cannot be read.
pub const FALLBACK_POSITION: i32 = 100;

/// `v` held within `lo..=hi`.
pub open spec fn clamp_to(v: int, lo: int, hi: int) -> int {
    if v < lo {
        lo
    } else if v > hi {
        hi
    } else {
        v
    }
}

/// One coordinate of the panel: past the cursor by the offset, flipped to
/// the other side of the cursor when it would cross the far edge, then held
/// within the work area.
pub open spec fn place_axis(cursor: int, size: int, near: int, far: int) -> int {
    let first = cursor + CURSOR_OFFSET;
    let flipped = if first + size > far {
        cursor - size - CURSOR_OFFSET
    } else {
        first
    };
    let hi = if far - size > near {
        far - size
    } else {
        near
    };
    clamp_to(flipped, near, hi)
}

/// Every value the placement computes along one axis fits in `i32`.
pub open spec fn axis_fits(cursor: int, size: int, near: int, far: int) -> bool {
    &&& in_i32(cursor + CURSOR_OFFSET)
    &&& in_i32(cursor + CURSOR_OFFSET + size)
    &&& in_i32(cursor - size)
    &&& in_i32(cursor - size - CURSOR_OFFSET)
    &&& in_i32(far - size)
}

/// `v` fits in `i32`.
pub open spec fn in_i32(v: int) -> bool {
    i32::MIN <= v <= i32::MAX
}

/// The panel size in pixels as signed values (`as i32`, as the window
/// reports it), or the default size when it cannot be read.
pub open spec fn panel_size(size: Option<(u32, u32)>) -> (int, int) {
    match size {
        Some((w, h)) => ((w as i32) as int, (h as i32) as int),
        None => ((DEFAULT_WIDTH as i32) as int, (DEFAULT_HEIGHT as i32) as int),
    }
}

fn place(cursor: i32, size: i32, near: i32, far: i32) -> (r: i32)
    requires
        axis_fits(cursor as int, size as int, near as int, far as int),
    ensures
        r == place_axis(cursor as int, size as int, near as int, far as int),
{
    let mut v = cursor + CURSOR_OFFSET;
    if v + size > far {
        v = cursor - size - CURSOR_OFFSET;
    }
    let hi = if far - size > near {
        far - size
    } else {
        near
    };
    if v < near {
        near
    } else if v > hi {
        hi
    } else {
        v
    }
}

/// Where the panel goes: to the lower right of the cursor, flipped left or
/// up when it would not fit, and held inside the work area; at (100, 100)
/// when the cursor and work area cannot be read.
pub fn position_near_cursor(size: Option<(u32, u32)>, area: Option<WorkArea>) -> (r: (i32, i32))
    requires
        area matches Some(a) ==> axis_fits(
            a.cursor_x as int,
            panel_size(size).0,
            a.left as int,
            a.right as int,
        ) && axis_fits(a.cursor_y as int, panel_size(size).1, a.top as int, a.bottom as int),
    ensures
        area is None ==> r == (FALLBACK_POSITION, FALLBACK_POSITION),
        area matches Some(a) ==> r.0 == place_axis(
            a.cursor_x as int,
            panel_size(size).0,
            a.left as int,
            a.right as int,
        ) && r.1 == place_axis(a.cursor_y as int, panel_size(size).1, a.top as int, a.bottom as int),
{
    let (wu, hu) = match size {
        Some(s) => s,
        None => (DEFAULT_WIDTH, DEFAULT_HEIGHT),
    };
    #[verifier::truncate]
    let w = wu as i32;
    #[verifier::truncate]
    let h = hu as i32;
    match area {
        Some(a) => (place(a.cursor_x, w, a.left, a.right), place(a.cursor_y, h, a.top, a.bottom)),
        None => (FALLBACK_POSITION, FALLBACK_POSITION),
    }
}

/// Wherever the cursor is, the panel lies wholly inside the work area when
/// it fits there, and starts at the work area's near edge when it does not.
/// When it fits past the cursor (and the cursor is not far before the work
/// area), it sits exactly the offset past the cursor.
pub proof fn law_panel_inside_work_area(cursor: int, size: int, near: int, far: int)
    requires
        0 <= size,
    ensures
        size <= far - near ==> near <= place_axis(cursor, size, near, far) && place_axis(
            cursor,
            size,
            near,
            far,
        ) + size <= far,
        size > far - near ==> place_axis(cursor, size, near, far) == near,
        near <= cursor + CURSOR_OFFSET && cursor + CURSOR_OFFSET + size <= far ==> place_axis(
            cursor,
            size,
            near,
            far,
        ) == cursor + CURSOR_OFFSET,
{
}

/// A click or focus change hides the panel only when it is showing and no
/// folder dialog is open.
pub fn dismiss_panel(dialog_open: bool, visible: bool) -> (hide: bool)
    ensures
        hide == (!dialog_open && visible),
{
    !dialog_open && visible
}

/// Whether a mouse hook event is a button press outside the panel's
/// rectangle `[left, right) x [top, bottom)`; events with a negative hook
/// code are passed on untouched.
pub fn click_outside(
    code: i32,
    button_down: bool,
    x: i32,
    y: i32,
    left: i32,
    top: i32,
    right: i32,
    bottom: i32,
) -> (r: bool)
    ensures
        r == (code >= 0 && button_down && !(left <= x < right && top <= y < bottom)),
{
    if code < 0 || !button_down {
        return false;
    }
    let inside = x >= left && x < right && y >= top && y < bottom;
    !inside
}

/// Virtual-key code of the Esc key.
pub const VK_ESCAPE: u32 = 0x1B;

/// Whether a keyboard hook event is an Esc key press (which hides the panel
/// and is then swallowed); events with a negative hook code are passed on.
pub fn escape_pressed(code: i32, key_down: bool, vk_code: u32) -> (r: bool)
    ensures
        r == (code >= 0 && key_down && vk_code == VK_ESCAPE),
{
    code >= 0 && key_down && vk_code == VK_ESCAPE
}

/// The extended window style with the no-activate flag set (`on`) or
/// cleared, or `None` when the style already is so.
pub open spec fn no_activate_next(cur: isize, flag: isize, on: bool) -> Option<isize> {
    let next = if on {
        cur | flag
    } else {
        cur & !flag
    };
    if next != cur {
        Some(next)
    } else {
        None
    }
}

/// The new extended window style when toggling the no-activate flag, or
/// `None` when nothing changes.
pub fn no_activate_style(cur: isize, flag: isize, on: bool) -> (r: Option<isize>)
    ensures
        r == no_activate_next(cur, flag, on),
{
    let next = if on {
        cur | flag
    } else {
        cur & !flag
    };
    if next != cur {
        Some(next)
    } else {
        None
    }
}

} // verus!
