//! Viewport geometry: keeping the current line visible.
//!
//! The view shows `view_rows` lines starting at a scroll position.  After
//! the current line moves or the buffer shrinks, the scroll position is
//! clamped so the view stays filled, then adjusted so a small margin above
//! and below the current line stays visible.

use vstd::prelude::*;

verus! {

/// How many lines above and below the current line stay visible.
pub const SCROLL_MARGIN: usize = 5;

/// The scroll position after keeping the current line in view, as a
/// mathematical function of the old position and the geometry.
pub open spec fn spec_scrolled(
    view_start: int,
    lines_len: int,
    current: int,
    view_rows: int,
) -> int {
    let max_start = if lines_len >= view_rows {
        lines_len - view_rows
    } else {
        0
    };
    let clamped = if view_start > max_start {
        max_start
    } else {
        view_start
    };
    let above = if current >= SCROLL_MARGIN {
        current - SCROLL_MARGIN
    } else {
        0
    };
    if clamped > above {
        above
    } else {
        let below_raw = current + SCROLL_MARGIN;
        let below = if lines_len > 0 && below_raw > lines_len - 1 {
            lines_len - 1
        } else if lines_len == 0 {
            0
        } else {
            below_raw
        };
        let below_start = if below + 1 >= view_rows {
            below + 1 - view_rows
        } else {
            0
        };
        if clamped < below_start {
            below_start
        } else {
            clamped
        }
    }
}

/// Adjust a scroll position so the view stays filled and the current line,
/// with its margin, stays visible: scroll up until the margin above the
/// current line shows, else down until the margin below it does.
pub fn scroll_line_into_view(
    view_start: usize,
    lines_len: usize,
    current: usize,
    view_rows: usize,
) -> (r: usize)
    ensures
        r == spec_scrolled(view_start as int, lines_len as int, current as int, view_rows as int),
{
    // the buffer may have shrunk: keep every view row filled
    let max_start = if lines_len >= view_rows {
        lines_len - view_rows
    } else {
        0
    };
    let clamped = if view_start > max_start {
        max_start
    } else {
        view_start
    };
    // scroll up so the margin above the current line is visible
    let above = if current >= SCROLL_MARGIN {
        current - SCROLL_MARGIN
    } else {
        0
    };
    if clamped > above {
        return above;
    }
    // scroll down so the margin below the current line is visible
    let below_raw = if current > usize::MAX - SCROLL_MARGIN {
        usize::MAX
    } else {
        current + SCROLL_MARGIN
    };
    let below = if lines_len > 0 && below_raw > lines_len - 1 {
        lines_len - 1
    } else if lines_len == 0 {
        0
    } else {
        below_raw
    };
    let below_start = if below + 1 >= view_rows {
        below + 1 - view_rows
    } else {
        0
    };
    if clamped < below_start {
        below_start
    } else {
        clamped
    }
}

} // verus!
