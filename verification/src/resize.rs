//! Interactive resizing: the rectangle a window or a tile takes while one
//! of its edges is dragged. The dragged edge moves; the opposite edge
//! stays where it was.
use vstd::prelude::*;
use crate::geometry::{fits_i32, imax, imin, rect_of, Rect, Size};

verus! {

/// The edges being dragged.
#[derive(Clone, Copy, Debug, PartialEq, Eq, Structural)]
pub struct Edges {
    pub left: bool,
    pub right: bool,
    pub top: bool,
    pub bottom: bool,
}

/// `v` held between the minimum (at least 1) and the maximum (0: none) the
/// client asks for; the maximum wins when the two cross.
pub open spec fn client_clamp(v: int, min: int, max: int) -> int {
    let lo = imax(min, 1);
    let hi = if max == 0 {
        i32::MAX as int
    } else {
        max
    };
    imin(imax(v, lo), hi)
}

/// A client window resized by its edges: the width follows `want_w` (what
/// the pointer asks for) within the client's limits when the right or left
/// edge is dragged, the height likewise with `want_h`; a dragged left or
/// top edge moves so the right or bottom edge stays put.
pub open spec fn client_resize_spec(initial: Rect, edges: Edges, want_w: int, want_h: int, min: Size, max: Size) -> Rect {
    let w = client_clamp(want_w, min.w as int, max.w as int);
    let h = client_clamp(want_h, min.h as int, max.h as int);
    let (x, nw) = if edges.right {
        (initial.loc.x as int, w)
    } else if edges.left {
        ((initial.loc.x + initial.size.w - w) as i32 as int, w)
    } else {
        (initial.loc.x as int, initial.size.w as int)
    };
    let (y, nh) = if edges.bottom {
        (initial.loc.y as int, h)
    } else if edges.top {
        ((initial.loc.y + initial.size.h - h) as i32 as int, h)
    } else {
        (initial.loc.y as int, initial.size.h as int)
    };
    rect_of(x, y, nw, nh)
}

fn client_clamp_exec(v: i32, min: i32, max: i32) -> (r: i32)
    ensures
        r == client_clamp(v as int, min as int, max as int),
{
    let lo = if min > 1 {
        min
    } else {
        1
    };
    let hi = if max == 0 {
        i32::MAX
    } else {
        max
    };
    let a = if v > lo {
        v
    } else {
        lo
    };
    if a < hi {
        a
    } else {
        hi
    }
}

/// The rectangle a client window takes while its edges are dragged;
/// `want_w`/`want_h` are the sizes the pointer asks for along the dragged
/// edges, `min`/`max` the client's size limits.
pub fn client_resize_rect(initial: Rect, edges: Edges, want_w: i32, want_h: i32, min: Size, max: Size) -> (r: Rect)
    requires
        i32::MIN <= initial.loc.x + initial.size.w <= i32::MAX,
        i32::MIN <= initial.loc.y + initial.size.h <= i32::MAX,
    ensures
        r == client_resize_spec(initial, edges, want_w as int, want_h as int, min, max),
{
    let w = client_clamp_exec(want_w, min.w, max.w);
    let h = client_clamp_exec(want_h, min.h, max.h);
    let mut r = initial;
    if edges.right {
        r.size.w = w;
    } else if edges.left {
        let right = (initial.loc.x + initial.size.w) as i64;
        r.loc.x = (right - w as i64) as i32;
        r.size.w = w;
    }
    if edges.bottom {
        r.size.h = h;
    } else if edges.top {
        let bottom = (initial.loc.y + initial.size.h) as i64;
        r.loc.y = (bottom - h as i64) as i32;
        r.size.h = h;
    }
    r
}

/// The smallest a tile may be dragged to: scroll columns keep the scroll
/// minimum width, other tiles a smaller floor.
pub open spec fn min_tile_spec(scroll: bool) -> int {
    if scroll {
        200
    } else {
        80
    }
}

pub fn min_tile(scroll_layout: bool) -> (m: i32)
    ensures
        m == min_tile_spec(scroll_layout),
{
    if scroll_layout {
        200
    } else {
        80
    }
}

/// A tile resized by its edges: dragging the right (bottom) edge sets the
/// width (height) to `grown_w` (`grown_h`), at least `min`; dragging the
/// left (top) edge moves it by `dx` (`dy`), but never closer than `min`
/// to the right (bottom) edge, which stays put.
pub open spec fn tile_resize_spec(initial: Rect, edges: Edges, min: int, grown_w: int, grown_h: int, dx: int, dy: int) -> Rect {
    let right = initial.loc.x + initial.size.w;
    let bottom = initial.loc.y + initial.size.h;
    let nx = imin(initial.loc.x + dx, right - min);
    let ny = imin(initial.loc.y + dy, bottom - min);
    let (x, w) = if edges.right {
        (initial.loc.x as int, imax(grown_w, min))
    } else if edges.left {
        (nx as i32 as int, (right - nx) as i32 as int)
    } else {
        (initial.loc.x as int, initial.size.w as int)
    };
    let (y, h) = if edges.bottom {
        (initial.loc.y as int, imax(grown_h, min))
    } else if edges.top {
        (ny as i32 as int, (bottom - ny) as i32 as int)
    } else {
        (initial.loc.y as int, initial.size.h as int)
    };
    rect_of(x, y, w, h)
}

/// The rectangle a tile takes while its edges are dragged: `grown_w` and
/// `grown_h` are its size grown by the pointer's travel, `dx` and `dy` that
/// travel in whole pixels.
pub fn tile_resize_rect(
    initial: Rect,
    edges: Edges,
    min: i32,
    grown_w: i32,
    grown_h: i32,
    dx: i64,
    dy: i64,
) -> (r: Rect)
    requires
        i32::MIN <= initial.loc.x + initial.size.w <= i32::MAX,
        i32::MIN <= initial.loc.y + initial.size.h <= i32::MAX,
        i64::MIN <= initial.loc.x + dx <= i64::MAX,
        i64::MIN <= initial.loc.y + dy <= i64::MAX,
        initial.loc.x + initial.size.w - imin(initial.loc.x + dx, initial.loc.x + initial.size.w - min) <= i64::MAX,
        initial.loc.y + initial.size.h - imin(initial.loc.y + dy, initial.loc.y + initial.size.h - min) <= i64::MAX,
    ensures
        r == tile_resize_spec(initial, edges, min as int, grown_w as int, grown_h as int, dx as int, dy as int),
{
    let mut r = initial;
    if edges.right {
        r.size.w = if grown_w > min {
            grown_w
        } else {
            min
        };
    } else if edges.left {
        let right = (initial.loc.x + initial.size.w) as i64;
        let a = initial.loc.x as i64 + dx;
        let b = right - min as i64;
        let nx = if a < b {
            a
        } else {
            b
        };
        r.loc.x = nx as i32;
        r.size.w = (right - nx) as i32;
    }
    if edges.bottom {
        r.size.h = if grown_h > min {
            grown_h
        } else {
            min
        };
    } else if edges.top {
        let bottom = (initial.loc.y + initial.size.h) as i64;
        let a = initial.loc.y as i64 + dy;
        let b = bottom - min as i64;
        let ny = if a < b {
            a
        } else {
            b
        };
        r.loc.y = ny as i32;
        r.size.h = (bottom - ny) as i32;
    }
    r
}

/// Dragging a window's left edge leaves its right edge where it was, and
/// dragging the top edge leaves the bottom edge (when the new position
/// fits `i32`).
pub proof fn lemma_client_resize_keeps_far_edges(initial: Rect, edges: Edges, want_w: int, want_h: int, min: Size, max: Size)
    requires
        !edges.right && edges.left ==> fits_i32(initial.loc.x + initial.size.w - client_clamp(want_w, min.w as int, max.w as int)),
        !edges.bottom && edges.top ==> fits_i32(initial.loc.y + initial.size.h - client_clamp(want_h, min.h as int, max.h as int)),
        i32::MIN <= initial.loc.x + initial.size.w <= i32::MAX,
        i32::MIN <= initial.loc.y + initial.size.h <= i32::MAX,
    ensures
        ({
            let r = client_resize_spec(initial, edges, want_w, want_h, min, max);
            &&& !edges.right && edges.left ==> r.loc.x + r.size.w == initial.loc.x + initial.size.w
            &&& !edges.bottom && edges.top ==> r.loc.y + r.size.h == initial.loc.y + initial.size.h
            &&& !edges.right && !edges.left ==> r.loc.x == initial.loc.x && r.size.w == initial.size.w
            &&& !edges.bottom && !edges.top ==> r.loc.y == initial.loc.y && r.size.h == initial.size.h
        }),
{
    let w = client_clamp(want_w, min.w as int, max.w as int);
    let h = client_clamp(want_h, min.h as int, max.h as int);
    assert(fits_i32(w) && fits_i32(h));
}

/// Dragging a tile's left (top) edge leaves its right (bottom) edge where
/// it was and keeps it at least `min` wide (high), when the tile was at
/// least that big and the new edge fits `i32`.
pub proof fn lemma_tile_resize_keeps_far_edges(initial: Rect, edges: Edges, min: int, grown_w: int, grown_h: int, dx: int, dy: int)
    requires
        0 <= min,
        i32::MIN <= initial.loc.x + initial.size.w <= i32::MAX,
        i32::MIN <= initial.loc.y + initial.size.h <= i32::MAX,
        i32::MIN <= imin(initial.loc.x + dx, initial.loc.x + initial.size.w - min),
        i32::MIN <= imin(initial.loc.y + dy, initial.loc.y + initial.size.h - min),
        initial.size.w >= 0,
        initial.size.h >= 0,
        i32::MIN <= initial.loc.x + initial.size.w - imin(initial.loc.x + dx, initial.loc.x + initial.size.w - min) <= i32::MAX,
        i32::MIN <= initial.loc.y + initial.size.h - imin(initial.loc.y + dy, initial.loc.y + initial.size.h - min) <= i32::MAX,
    ensures
        ({
            let r = tile_resize_spec(initial, edges, min, grown_w, grown_h, dx, dy);
            &&& !edges.right && edges.left ==> r.loc.x + r.size.w == initial.loc.x + initial.size.w && r.size.w >= min
            &&& !edges.bottom && edges.top ==> r.loc.y + r.size.h == initial.loc.y + initial.size.h && r.size.h >= min
        }),
{
}

/// Dragging a window's right (bottom) edge leaves its left (top) edge
/// where it was, and the window takes the size the pointer asks for when
/// the client allows it (at least one pixel, at least the client's
/// minimum, at most its maximum when it has one and the two agree).
pub proof fn lemma_client_resize_keeps_near_edges(
    initial: Rect,
    edges: Edges,
    want_w: int,
    want_h: int,
    min: Size,
    max: Size,
)
    requires
        fits_i32(want_w),
        fits_i32(want_h),
    ensures
        ({
            let r = client_resize_spec(initial, edges, want_w, want_h, min, max);
            &&& edges.right ==> r.loc.x == initial.loc.x
            &&& edges.bottom ==> r.loc.y == initial.loc.y
            &&& edges.right && (max.w == 0 || max.w >= imax(min.w as int, 1)) ==> r.size.w >= 1 && r.size.w >= min.w
                && (max.w > 0 ==> r.size.w <= max.w)
            &&& edges.bottom && (max.h == 0 || max.h >= imax(min.h as int, 1)) ==> r.size.h >= 1 && r.size.h >= min.h
                && (max.h > 0 ==> r.size.h <= max.h)
            &&& edges.right && 1 <= want_w && min.w <= want_w && (max.w == 0 || want_w <= max.w) ==> r.size.w == want_w
            &&& edges.bottom && 1 <= want_h && min.h <= want_h && (max.h == 0 || want_h <= max.h) ==> r.size.h == want_h
        }),
{
    let w = client_clamp(want_w, min.w as int, max.w as int);
    let h = client_clamp(want_h, min.h as int, max.h as int);
    assert(fits_i32(w) && fits_i32(h));
}

/// Dragging a tile's right (bottom) edge leaves its left (top) edge where
/// it was, and the tile takes the grown size, never below `min`.
pub proof fn lemma_tile_resize_keeps_near_edges(initial: Rect, edges: Edges, min: int, grown_w: int, grown_h: int, dx: int, dy: int)
    requires
        fits_i32(min),
        fits_i32(grown_w),
        fits_i32(grown_h),
    ensures
        ({
            let r = tile_resize_spec(initial, edges, min, grown_w, grown_h, dx, dy);
            &&& edges.right ==> r.loc.x == initial.loc.x && r.size.w >= min && r.size.w >= grown_w
                && (grown_w >= min ==> r.size.w == grown_w)
            &&& edges.bottom ==> r.loc.y == initial.loc.y && r.size.h >= min && r.size.h >= grown_h
                && (grown_h >= min ==> r.size.h == grown_h)
        }),
{
}

} // verus!
