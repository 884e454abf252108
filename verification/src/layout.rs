//! Scroll (niri-style strip) and stacked-row layout arithmetic.
use std::collections::{HashMap, HashSet};
use vstd::prelude::*;

use crate::geometry::{
    div_trunc, fits_i32, iclamp, imax, imin, rect_of, Point, Rect, Size,
};

verus! {

/// Default width of one scroll column on a screen `w` wide with `gaps`
/// between columns: half the screen minus a gap, at least 200 (or the whole
/// screen when it is narrower), never wider than the screen.
pub open spec fn column_width_spec(w: int, gaps: int) -> int {
    let maximum = imax(w, 1);
    let minimum = imin(200, maximum);
    imin(imax(div_trunc(w - gaps, 2), minimum), maximum)
}

/// Width of the column holding window `id`: the whole screen for the
/// maximized window, the user's resized width (clamped) when one was
/// recorded, the default column width otherwise.
pub open spec fn window_width_spec(
    w: int,
    gaps: int,
    maximized: Option<u64>,
    id: Option<u64>,
    custom: Map<u64, i32>,
) -> int {
    if id == maximized {
        imax(w, 1)
    } else if id is Some && custom.contains_key(id->0) {
        iclamp(custom[id->0] as int, imin(column_width_spec(w, gaps), 200), imax(w, 1))
    } else {
        column_width_spec(w, gaps)
    }
}

/// Left edge of column `i` in strip space: the widths of the columns before
/// it, each followed by one gap.
pub open spec fn column_abs_spec(widths: Seq<i32>, gaps: int, i: int) -> int
    decreases i,
{
    if i <= 0 {
        0
    } else {
        column_abs_spec(widths, gaps, i - 1) + widths[i - 1] + gaps
    }
}

/// Every intermediate sum computed while laying the columns out fits `i32`.
pub open spec fn abs_fits(widths: Seq<i32>, gaps: int) -> bool {
    &&& forall|j: int| 0 <= j < widths.len() ==> #[trigger] fits_i32(widths[j] + gaps)
    &&& forall|i: int| 0 <= i <= widths.len() ==> #[trigger] fits_i32(column_abs_spec(widths, gaps, i))
}

pub open spec fn widths_spec(
    w: int,
    gaps: int,
    maximized: Option<u64>,
    windows: Seq<Option<u64>>,
    custom: Map<u64, i32>,
) -> Seq<i32> {
    Seq::new(windows.len(), |i: int| window_width_spec(w, gaps, maximized, windows[i], custom) as i32)
}

/// Some window of the strip has a user-resized width.
pub open spec fn any_custom_spec(windows: Seq<Option<u64>>, custom: Map<u64, i32>) -> bool {
    exists|i: int| 0 <= i < windows.len() && windows[i] is Some && custom.contains_key(#[trigger] windows[i]->0)
}

/// Horizontal offset of the view in the plain case (no maximized window,
/// no resized column): the active column's strip position, but never so
/// far that the last column would leave the screen's right edge empty.
pub open spec fn plain_offset_spec(w: int, gaps: int, active: int) -> int {
    let width = column_width_spec(w, gaps);
    imin((active as i32) as int * (width + gaps), imax(w - width, 0))
}

/// Where the view sits so that column `active_idx` is on screen.
pub open spec fn view_origin_spec(
    screen: Rect,
    gaps: int,
    active_idx: int,
    maximized: Option<u64>,
    windows: Seq<Option<u64>>,
    custom: Map<u64, i32>,
) -> (int, int) {
    if windows.len() == 0 {
        (screen.loc.x as int, screen.loc.y as int)
    } else {
        let a = imin(active_idx, windows.len() - 1);
        if maximized is None && !any_custom_spec(windows, custom) {
            (screen.loc.x + plain_offset_spec(screen.size.w as int, gaps, a), screen.loc.y as int)
        } else {
            let wa = window_width_spec(screen.size.w as int, gaps, maximized, windows[a], custom);
            (screen.loc.x + div_trunc(screen.size.w - wa, 2), screen.loc.y as int)
        }
    }
}

/// No intermediate value of `scroll_view_origin` leaves `i32`.
pub open spec fn view_origin_fits(
    screen: Rect,
    gaps: int,
    active_idx: int,
    maximized: Option<u64>,
    windows: Seq<Option<u64>>,
    custom: Map<u64, i32>,
) -> bool {
    let w = screen.size.w as int;
    let width = column_width_spec(w, gaps);
    let a = imin(active_idx, windows.len() - 1);
    &&& fits_i32(w - gaps)
    &&& windows.len() > 0 ==> {
        if maximized is None && !any_custom_spec(windows, custom) {
            &&& fits_i32(width + gaps)
            &&& fits_i32((a as i32) as int * (width + gaps))
            &&& fits_i32(w - width)
            &&& fits_i32(screen.loc.x + plain_offset_spec(w, gaps, a))
        } else {
            let wa = window_width_spec(w, gaps, maximized, windows[a], custom);
            &&& fits_i32(w - wa)
            &&& fits_i32(screen.loc.x + div_trunc(w - wa, 2))
        }
    }
}

/// Default scroll column width (shared by layout and viewport positioning).
pub fn scroll_column_width(screen_rect: Rect, gaps: i32) -> (r: i32)
    requires
        fits_i32(screen_rect.size.w - gaps),
    ensures
        r == column_width_spec(screen_rect.size.w as int, gaps as int),
{
    let w = screen_rect.size.w;
    let maximum = if w >= 1 { w } else { 1 };
    let minimum = if 200 <= maximum { 200 } else { maximum };
    let half = (w - gaps) / 2;
    let target = if half >= minimum { half } else { minimum };
    if target <= maximum { target } else { maximum }
}

/// The persisted custom width of window `id`, if it has one.
fn custom_width_of(custom: &HashMap<u64, i32>, id: Option<u64>) -> (r: Option<i32>)
    ensures
        r == (if id is Some && custom@.contains_key(id->0) {
            Some(custom@[id->0])
        } else {
            None::<i32>
        }),
{
    match id {
        Some(key) => match custom.get(&key) {
            Some(width) => Some(*width),
            None => None,
        },
        None => None,
    }
}

/// Width in logical px of each column: the whole output width for the
/// maximized window, a persisted custom width for a window the user resized,
/// otherwise the default column width. `windows[i]` is the window's id (or
/// `None` for a window without a toplevel).
pub fn scroll_column_widths(
    screen_rect: Rect,
    gaps: i32,
    maximized: Option<u64>,
    windows: &[Option<u64>],
    custom: &HashMap<u64, i32>,
) -> (r: Vec<i32>)
    requires
        fits_i32(screen_rect.size.w - gaps),
    ensures
        r@ == widths_spec(screen_rect.size.w as int, gaps as int, maximized, windows@, custom@),
{
    let mut out: Vec<i32> = Vec::new();
    let w = screen_rect.size.w;
    let full = if w >= 1 { w } else { 1 };
    let default_width = scroll_column_width(screen_rect, gaps);
    let mut i: usize = 0;
    while i < windows.len()
        invariant
            i <= windows@.len(),
            fits_i32(screen_rect.size.w - gaps),
            w == screen_rect.size.w,
            full == imax(w as int, 1),
            default_width == column_width_spec(w as int, gaps as int),
            out@.len() == i,
            forall|j: int|
                0 <= j < i ==> out@[j] == window_width_spec(
                    w as int,
                    gaps as int,
                    maximized,
                    windows@[j],
                    custom@,
                ),
        decreases windows@.len() - i,
    {
        let id = windows[i];
        let width = if id == maximized {
            full
        } else {
            match custom_width_of(custom, id) {
                Some(cw) => {
                    let lo = if default_width <= 200 { default_width } else { 200 };
                    if cw < lo {
                        lo
                    } else if cw > full {
                        full
                    } else {
                        cw
                    }
                },
                None => default_width,
            }
        };
        out.push(width);
        i = i + 1;
    }
    proof {
        assert(out@ =~= widths_spec(w as int, gaps as int, maximized, windows@, custom@));
    }
    out
}

/// Absolute left x (in layout space) of each column, laid out left to right
/// from the workspace origin, one gap apart.
pub fn scroll_column_abs(widths: &[i32], gaps: i32) -> (abs: Vec<i32>)
    requires
        abs_fits(widths@, gaps as int),
    ensures
        abs@.len() == widths@.len(),
        forall|i: int| 0 <= i < widths@.len() ==> abs@[i] == column_abs_spec(widths@, gaps as int, i),
{
    let mut abs: Vec<i32> = Vec::new();
    let mut cur: i32 = 0;
    let mut i: usize = 0;
    while i < widths.len()
        invariant
            i <= widths@.len(),
            abs_fits(widths@, gaps as int),
            cur == column_abs_spec(widths@, gaps as int, i as int),
            abs@.len() == i,
            forall|j: int| 0 <= j < i ==> abs@[j] == column_abs_spec(widths@, gaps as int, j),
        decreases widths@.len() - i,
    {
        abs.push(cur);
        assert(fits_i32(widths@[i as int] + gaps));
        assert(fits_i32(column_abs_spec(widths@, gaps as int, i + 1)));
        cur = cur + (widths[i] + gaps);
        i = i + 1;
    }
    abs
}

/// Whether some window of the strip has a custom (resized) column width.
fn any_custom(windows: &[Option<u64>], custom: &HashMap<u64, i32>) -> (b: bool)
    ensures
        b == any_custom_spec(windows@, custom@),
{
    let mut i: usize = 0;
    while i < windows.len()
        invariant
            i <= windows@.len(),
            forall|j: int|
                0 <= j < i ==> !(windows@[j] is Some && custom@.contains_key(#[trigger] windows@[j]->0)),
        decreases windows@.len() - i,
    {
        if custom_width_of(custom, windows[i]).is_some() {
            assert(windows@[i as int] is Some && custom@.contains_key(windows@[i as int]->0));
            return true;
        }
        i = i + 1;
    }
    false
}

/// Where the view should sit so column `active_idx` is on screen.
///
/// Without a maximized window or resized columns the strip scrolls in whole
/// columns; otherwise the active column is centered on the screen.
pub fn scroll_view_origin(
    screen_rect: Rect,
    gaps: i32,
    active_idx: usize,
    maximized: Option<u64>,
    windows: &[Option<u64>],
    custom: &HashMap<u64, i32>,
) -> (p: Point)
    requires
        view_origin_fits(screen_rect, gaps as int, active_idx as int, maximized, windows@, custom@),
    ensures
        (p.x as int, p.y as int) == view_origin_spec(
            screen_rect,
            gaps as int,
            active_idx as int,
            maximized,
            windows@,
            custom@,
        ),
{
    if windows.len() == 0 {
        return screen_rect.loc;
    }
    let active_idx = if active_idx <= windows.len() - 1 { active_idx } else { windows.len() - 1 };
    let w = screen_rect.size.w;
    if maximized.is_none() && !any_custom(windows, custom) {
        let width = scroll_column_width(screen_rect, gaps);
        let step = (active_idx as i32) * (width + gaps);
        let room = w - width;
        let room = if room >= 0 { room } else { 0 };
        let offset = if step <= room { step } else { room };
        return Point { x: screen_rect.loc.x + offset, y: screen_rect.loc.y };
    }
    let widths = scroll_column_widths(screen_rect, gaps, maximized, windows, custom);
    let wa = widths[active_idx];
    Point { x: screen_rect.loc.x + (w - wa) / 2, y: screen_rect.loc.y }
}

/// The tile of column `i` in a scroll layout: the columns keep their strip
/// spacing, shifted so the active column starts at the view origin.
pub open spec fn scroll_tile_spec(
    widths: Seq<i32>,
    gaps: int,
    active: int,
    view_origin: Point,
    col_h: int,
    i: int,
) -> Rect {
    rect_of(
        view_origin.x + column_abs_spec(widths, gaps, i) - column_abs_spec(widths, gaps, active),
        view_origin.y as int,
        widths[i] as int,
        col_h,
    )
}

/// Preconditions of `layout_scroll`: the strip arithmetic fits `i32`.
pub open spec fn layout_scroll_fits(
    screen: Rect,
    gaps: int,
    active_idx: int,
    view_origin: Point,
    maximized: Option<u64>,
    windows: Seq<Option<u64>>,
    custom: Map<u64, i32>,
) -> bool {
    let widths = widths_spec(screen.size.w as int, gaps, maximized, windows, custom);
    let a = imin(active_idx, windows.len() - 1);
    &&& fits_i32(screen.size.w - gaps)
    &&& abs_fits(widths, gaps)
    &&& forall|i: int|
        0 <= i < windows.len() ==> {
            &&& fits_i32(view_origin.x + #[trigger] column_abs_spec(widths, gaps, i))
            &&& fits_i32(
                view_origin.x + column_abs_spec(widths, gaps, i) - column_abs_spec(widths, gaps, a),
            )
        }
}

/// Lay the windows out as full-height columns left to right, the active
/// column at `view_origin`.
pub fn layout_scroll(
    windows: &[Option<u64>],
    screen_rect: Rect,
    gaps: i32,
    active_idx: usize,
    view_origin: Point,
    maximized: Option<u64>,
    custom: &HashMap<u64, i32>,
) -> (layouts: Vec<(Option<u64>, Rect)>)
    requires
        layout_scroll_fits(
            screen_rect,
            gaps as int,
            active_idx as int,
            view_origin,
            maximized,
            windows@,
            custom@,
        ),
    ensures
        layouts@.len() == windows@.len(),
        forall|i: int|
            0 <= i < windows@.len() ==> {
                let widths = widths_spec(screen_rect.size.w as int, gaps as int, maximized, windows@, custom@);
                &&& (#[trigger] layouts@[i]).0 == windows@[i]
                &&& layouts@[i].1 == scroll_tile_spec(
                    widths,
                    gaps as int,
                    imin(active_idx as int, windows@.len() - 1),
                    view_origin,
                    screen_rect.size.h as int,
                    i,
                )
            },
{
    let mut layouts: Vec<(Option<u64>, Rect)> = Vec::new();
    if windows.len() == 0 {
        return layouts;
    }
    let active_idx = if active_idx <= windows.len() - 1 { active_idx } else { windows.len() - 1 };
    let widths = scroll_column_widths(screen_rect, gaps, maximized, windows, custom);
    let abs = scroll_column_abs(widths.as_slice(), gaps);
    let col_h = screen_rect.size.h;
    let ghost ws = widths@;
    let mut i: usize = 0;
    while i < windows.len()
        invariant
            i <= windows@.len(),
            widths@ == ws,
            ws == widths_spec(screen_rect.size.w as int, gaps as int, maximized, windows@, custom@),
            ws.len() == windows@.len(),
            abs@.len() == windows@.len(),
            forall|j: int| 0 <= j < ws.len() ==> abs@[j] == column_abs_spec(ws, gaps as int, j),
            active_idx < windows@.len(),
            active_idx as int == imin(active_idx as int, windows@.len() - 1),
            col_h == screen_rect.size.h,
            layout_scroll_fits(
                screen_rect,
                gaps as int,
                active_idx as int,
                view_origin,
                maximized,
                windows@,
                custom@,
            ),
            layouts@.len() == i,
            forall|j: int|
                0 <= j < i ==> {
                    &&& (#[trigger] layouts@[j]).0 == windows@[j]
                    &&& layouts@[j].1 == scroll_tile_spec(
                        ws,
                        gaps as int,
                        active_idx as int,
                        view_origin,
                        col_h as int,
                        j,
                    )
                },
        decreases windows@.len() - i,
    {
        assert(fits_i32(view_origin.x + column_abs_spec(ws, gaps as int, i as int)));
        let x = view_origin.x + abs[i] - abs[active_idx];
        let rect = Rect { loc: Point { x, y: view_origin.y }, size: Size { w: widths[i], h: col_h } };
        layouts.push((windows[i], rect));
        i = i + 1;
    }
    layouts
}

/// Minimum height of a stacked row in logical px. A stack whose even split
/// would make rows shorter than this overflows the column instead, and the
/// view follows the focused row.
pub const MIN_STACK_ROW_H: i32 = 300;

/// Row height and vertical scroll offset of a stack of `rows` rows
/// (`rows >= 2`) in a column `h` high.
pub open spec fn stack_geometry_spec(h: int, gaps: int, rows: int, focused_row: int) -> (int, int) {
    let g = imax(gaps, 0);
    let f = imin(focused_row, rows - 1);
    let even_h = div_trunc(h - g * (rows - 1), rows);
    if even_h >= 300 {
        (imax(even_h, 1), 0)
    } else {
        let total = rows * (300 + g) - g;
        let center = f * (300 + g) + 150;
        let max_offset = imax(total - h, 0);
        (300, iclamp(center - div_trunc(h, 2), 0, max_offset))
    }
}

/// Row `i` of a stack split out of `column`.
pub open spec fn stack_row_spec(column: Rect, gaps: int, rows: int, focused_row: int, i: int) -> Rect {
    let (row_h, offset) = stack_geometry_spec(column.size.h as int, gaps, rows, focused_row);
    let g = imax(gaps, 0);
    rect_of(column.loc.x as int, column.loc.y + i * (row_h + g) - offset, column.size.w as int, row_h)
}

/// The arithmetic of `layout_stack_rows` fits `i32`.
pub open spec fn stack_fits(column: Rect, gaps: int, rows: int, focused_row: int) -> bool {
    let g = imax(gaps, 0);
    let h = column.size.h as int;
    let (row_h, offset) = stack_geometry_spec(h, gaps, rows, focused_row);
    rows >= 2 ==> {
        &&& rows <= i32::MAX
        &&& fits_i32(g * (rows - 1))
        &&& fits_i32(h - g * (rows - 1))
        &&& fits_i32(rows * (300 + g))
        &&& fits_i32(rows * (300 + g) - g)
        &&& fits_i32(rows * (300 + g) - g - h)
        &&& fits_i32(imin(focused_row, rows - 1) * (300 + g) + 150)
        &&& fits_i32(imin(focused_row, rows - 1) * (300 + g) + 150 - div_trunc(h, 2))
        &&& fits_i32(row_h + g)
        &&& forall|i: int|
            0 <= i < rows ==> {
                &&& fits_i32(#[trigger] (i * (row_h + g)))
                &&& fits_i32(column.loc.y + i * (row_h + g))
                &&& fits_i32(column.loc.y + i * (row_h + g) - offset)
            }
    }
}

/// Split a full-height scroll column into vertical stack rows (niri-style).
///
/// Rows share the column evenly, one gap apart; when that would make them
/// shorter than [`MIN_STACK_ROW_H`], every row gets that height instead and
/// the stack scrolls so the focused row sits as close to the column's center
/// as the stack's ends allow.
pub fn layout_stack_rows(column: Rect, gaps: i32, rows: usize, focused_row: usize) -> (out: Vec<Rect>)
    requires
        stack_fits(column, gaps as int, rows as int, focused_row as int),
    ensures
        rows == 0 ==> out@.len() == 0,
        rows == 1 ==> out@ == seq![column],
        rows >= 2 ==> out@.len() == rows && forall|i: int|
            0 <= i < rows ==> #[trigger] out@[i] == stack_row_spec(
                column,
                gaps as int,
                rows as int,
                focused_row as int,
                i,
            ),
{
    if rows == 0 {
        return Vec::new();
    }
    if rows == 1 {
        let mut one = Vec::new();
        one.push(column);
        proof {
            assert(one@ =~= seq![column]);
        }
        return one;
    }
    let g = if gaps >= 0 { gaps } else { 0 };
    let f = if focused_row <= rows - 1 { focused_row } else { rows - 1 };
    let n = rows as i32;
    let h = column.size.h;
    let ghost geo = stack_geometry_spec(h as int, gaps as int, rows as int, focused_row as int);
    assert(n as int == rows as int);
    let even_h = (h - g * (n - 1)) / n;
    let (row_h, offset) = if even_h >= MIN_STACK_ROW_H {
        (if even_h >= 1 { even_h } else { 1 }, 0i32)
    } else {
        let total = n * (MIN_STACK_ROW_H + g) - g;
        let center = (f as i32) * (MIN_STACK_ROW_H + g) + MIN_STACK_ROW_H / 2;
        let max_offset = if total - h >= 0 { total - h } else { 0 };
        let c = center - h / 2;
        (MIN_STACK_ROW_H, if c < 0 { 0 } else if c > max_offset { max_offset } else { c })
    };
    assert(row_h as int == geo.0 && offset as int == geo.1);
    let mut out: Vec<Rect> = Vec::new();
    let mut i: usize = 0;
    while i < rows
        invariant
            2 <= rows <= i32::MAX,
            i <= rows,
            g as int == imax(gaps as int, 0),
            row_h as int == geo.0,
            offset as int == geo.1,
            geo == stack_geometry_spec(column.size.h as int, gaps as int, rows as int, focused_row as int),
            stack_fits(column, gaps as int, rows as int, focused_row as int),
            out@.len() == i,
            forall|j: int|
                0 <= j < i ==> #[trigger] out@[j] == stack_row_spec(
                    column,
                    gaps as int,
                    rows as int,
                    focused_row as int,
                    j,
                ),
        decreases rows - i,
    {
        assert(fits_i32((i as int) * (row_h + g)));
        let y = column.loc.y + (i as i32) * (row_h + g) - offset;
        out.push(Rect { loc: Point { x: column.loc.x, y }, size: Size { w: column.size.w, h: row_h } });
        i = i + 1;
    }
    out
}

} // verus!

verus! {

/// Consecutive stack rows are exactly one gap apart and all share the row
/// height: row `i + 1` starts `row_h + gap` below row `i`.
pub proof fn lemma_stack_rows_are_gap_apart(column: Rect, gaps: int, rows: int, focused_row: int, i: int)
    requires
        rows >= 2,
        0 <= i < rows - 1,
        stack_fits(column, gaps, rows, focused_row),
    ensures
        stack_row_spec(column, gaps, rows, focused_row, i + 1).loc.y == stack_row_spec(column, gaps, rows, focused_row, i).loc.y
            + stack_row_spec(column, gaps, rows, focused_row, i).size.h + imax(gaps, 0),
        stack_row_spec(column, gaps, rows, focused_row, i + 1).size == stack_row_spec(column, gaps, rows, focused_row, i).size,
        stack_row_spec(column, gaps, rows, focused_row, i).loc.x == column.loc.x,
        stack_row_spec(column, gaps, rows, focused_row, i).size.w == column.size.w,
{
    let (row_h, offset) = stack_geometry_spec(column.size.h as int, gaps, rows, focused_row);
    let g = imax(gaps, 0);
    assert((i + 1) * (row_h + g) == i * (row_h + g) + (row_h + g)) by (nonlinear_arith);
    assert(fits_i32((i + 1) * (row_h + g)));
    assert(fits_i32(i * (row_h + g)));
}

/// When the column is tall enough for an even split, every row lies inside
/// the column.
pub proof fn lemma_stack_even_split_fits(column: Rect, gaps: int, rows: int, focused_row: int, i: int)
    requires
        rows >= 2,
        0 <= i < rows,
        stack_fits(column, gaps, rows, focused_row),
        div_trunc(column.size.h - imax(gaps, 0) * (rows - 1), rows) >= MIN_STACK_ROW_H,
    ensures
        column.loc.y <= stack_row_spec(column, gaps, rows, focused_row, i).loc.y,
        stack_row_spec(column, gaps, rows, focused_row, i).loc.y
            + stack_row_spec(column, gaps, rows, focused_row, i).size.h <= column.loc.y + column.size.h,
{
    let g = imax(gaps, 0);
    let h = column.size.h as int;
    let c = h - g * (rows - 1);
    let e = div_trunc(c, rows);
    assert(c >= 0) by {
        if c < 0 {
            assert(div_trunc(c, rows) <= 0) by (nonlinear_arith)
                requires c < 0, rows >= 2, div_trunc(c, rows) == -((-c) / rows);
        }
    }
    assert(e == c / rows);
    assert(rows * e <= c) by (nonlinear_arith)
        requires e == c / rows, rows >= 2, c >= 0;
    assert(i * (e + g) + e <= (rows - 1) * (e + g) + e) by (nonlinear_arith)
        requires 0 <= i < rows, e >= 0, g >= 0;
    assert((rows - 1) * (e + g) + e == rows * e + g * (rows - 1)) by (nonlinear_arith);
    assert(i * (e + g) >= 0) by (nonlinear_arith)
        requires i >= 0, e >= 0, g >= 0;
    assert(fits_i32(i * (e + g)));
}

/// When the rows overflow the column, the stack still covers the whole
/// column: the first row starts at or above its top and the last row ends
/// at or below its bottom, so scrolling never shows empty space.
pub proof fn lemma_stack_overflow_covers_column(column: Rect, gaps: int, rows: int, focused_row: int)
    requires
        rows >= 2,
        stack_fits(column, gaps, rows, focused_row),
        div_trunc(column.size.h - imax(gaps, 0) * (rows - 1), rows) < MIN_STACK_ROW_H,
    ensures
        stack_row_spec(column, gaps, rows, focused_row, 0).loc.y <= column.loc.y,
        stack_row_spec(column, gaps, rows, focused_row, rows - 1).loc.y
            + stack_row_spec(column, gaps, rows, focused_row, rows - 1).size.h >= column.loc.y + column.size.h,
        forall|i: int| 0 <= i < rows ==> (#[trigger] stack_row_spec(column, gaps, rows, focused_row, i)).size.h == MIN_STACK_ROW_H,
{
    let g = imax(gaps, 0);
    let (row_h, offset) = stack_geometry_spec(column.size.h as int, gaps, rows, focused_row);
    assert(row_h == 300);
    assert(fits_i32(0 * (row_h + g)));
    assert(0 * (row_h + g) == 0);
    assert(fits_i32((rows - 1) * (row_h + g)));
    assert((rows - 1) * (300 + g) + 300 == rows * (300 + g) - g) by (nonlinear_arith);
    let h = column.size.h as int;
    let c = h - g * (rows - 1);
    assert(c < 300 * rows) by {
        if c >= 0 {
            assert(c / rows < 300);
            assert(c < 300 * rows) by (nonlinear_arith)
                requires c / rows < 300, rows >= 2, c >= 0;
        }
    }
    assert(rows * (300 + g) - g == 300 * rows + g * (rows - 1)) by (nonlinear_arith);
}

/// When the overflowing stack does not hit either end, the focused row is
/// centered in the column (its center sits on the column's center line,
/// rounded toward zero).
pub proof fn lemma_stack_overflow_centers_focused(column: Rect, gaps: int, rows: int, focused_row: int)
    requires
        rows >= 2,
        0 <= focused_row < rows,
        stack_fits(column, gaps, rows, focused_row),
        div_trunc(column.size.h - imax(gaps, 0) * (rows - 1), rows) < MIN_STACK_ROW_H,
        ({
            let g = imax(gaps, 0);
            let c = focused_row * (300 + g) + 150 - div_trunc(column.size.h as int, 2);
            0 <= c <= rows * (300 + g) - g - column.size.h
        }),
    ensures
        stack_row_spec(column, gaps, rows, focused_row, focused_row).loc.y + MIN_STACK_ROW_H / 2
            == column.loc.y + div_trunc(column.size.h as int, 2),
{
    let g = imax(gaps, 0);
    assert(fits_i32(focused_row * (300 + g)));
}

} // verus!

verus! {

/// Without a maximized window or resized columns, the view keeps the
/// active column on screen: the view starts inside the screen, no further
/// right than the screen width less one default column, so a column that
/// fits the screen ends on it; and it moves no further than the active
/// column's strip position.
pub proof fn lemma_plain_view_keeps_active_column_on_screen(
    screen: Rect,
    gaps: int,
    active_idx: int,
    windows: Seq<Option<u64>>,
    custom: Map<u64, i32>,
)
    requires
        windows.len() > 0,
        0 <= active_idx,
        gaps >= 0,
        imin(active_idx, windows.len() - 1) <= i32::MAX,
        !any_custom_spec(windows, custom),
    ensures
        ({
            let o = view_origin_spec(screen, gaps, active_idx, None, windows, custom);
            let width = column_width_spec(screen.size.w as int, gaps);
            let a = imin(active_idx, windows.len() - 1);
            &&& o.1 == screen.loc.y
            &&& screen.loc.x <= o.0
            &&& o.0 - screen.loc.x <= imax(screen.size.w - width, 0)
            &&& width <= screen.size.w ==> o.0 + width <= screen.loc.x + screen.size.w
            &&& o.0 - screen.loc.x <= a * (width + gaps)
        }),
{
    let w = screen.size.w as int;
    let width = column_width_spec(w, gaps);
    let a = imin(active_idx, windows.len() - 1);
    assert(width >= 1);
    assert((a as i32) as int == a);
    assert(a * (width + gaps) >= 0) by (nonlinear_arith)
        requires
            a >= 0,
            width + gaps >= 0,
    ;
}

/// In a scroll layout the active column starts exactly at the view origin,
/// and each column starts one gap after the previous column ends.
pub proof fn lemma_scroll_columns_side_by_side(
    widths: Seq<i32>,
    gaps: int,
    active: int,
    view_origin: Point,
    col_h: int,
    i: int,
)
    requires
        0 <= active < widths.len(),
        0 <= i < widths.len() - 1,
        abs_fits(widths, gaps),
        fits_i32(view_origin.x + column_abs_spec(widths, gaps, i) - column_abs_spec(widths, gaps, active)),
        fits_i32(view_origin.x + column_abs_spec(widths, gaps, i + 1) - column_abs_spec(widths, gaps, active)),
    ensures
        scroll_tile_spec(widths, gaps, active, view_origin, col_h, active).loc.x == view_origin.x,
        scroll_tile_spec(widths, gaps, active, view_origin, col_h, i + 1).loc.x
            == scroll_tile_spec(widths, gaps, active, view_origin, col_h, i).loc.x
            + scroll_tile_spec(widths, gaps, active, view_origin, col_h, i).size.w + gaps,
{
}

} // verus!

verus! {

/// `v` saturated to the `i32` range.
pub open spec fn sat_i32(v: int) -> int {
    iclamp(v, i32::MIN as int, i32::MAX as int)
}

/// The outer gap kept on an output `w` x `h`: the configured gap (at least
/// 0), but never so much that less than a pixel stays in the middle.
pub open spec fn outer_gap_spec(gap: int, w: int, h: int) -> int {
    imin(imax(gap, 0), imax(div_trunc(imin(w, h) - 1, 2), 0))
}

/// The output shrunk by the outer gap on every side, at least one pixel
/// each way.
pub open spec fn gapped_screen_spec(output: Rect, gap: int) -> Rect {
    let outer = outer_gap_spec(gap, output.size.w as int, output.size.h as int);
    rect_of(
        output.loc.x + outer,
        output.loc.y + outer,
        imax(output.size.w - 2 * outer, 1),
        imax(output.size.h - 2 * outer, 1),
    )
}

/// Two rectangles share an interior point (far edges saturating at the
/// `i32` range).
pub open spec fn overlaps_spec(a: Rect, b: Rect) -> bool {
    &&& a.loc.x < sat_i32(b.loc.x + b.size.w)
    &&& b.loc.x < sat_i32(a.loc.x + a.size.w)
    &&& a.loc.y < sat_i32(b.loc.y + b.size.h)
    &&& b.loc.y < sat_i32(a.loc.y + a.size.h)
}

/// The far corner of the common part of two rectangles.
pub open spec fn meet_end(a: Rect, b: Rect) -> (int, int) {
    (
        imin(sat_i32(a.loc.x + a.size.w), sat_i32(b.loc.x + b.size.w)),
        imin(sat_i32(a.loc.y + a.size.h), sat_i32(b.loc.y + b.size.h)),
    )
}

/// The common part of two rectangles, when they overlap.
pub open spec fn intersection_spec(a: Rect, b: Rect) -> Option<Rect> {
    if !overlaps_spec(a, b) {
        None
    } else {
        let x0 = imax(a.loc.x as int, b.loc.x as int);
        let y0 = imax(a.loc.y as int, b.loc.y as int);
        let e = meet_end(a, b);
        Some(rect_of(x0, y0, e.0 - x0, e.1 - y0))
    }
}

/// The panels' free zone of an output (given relative to it) in global
/// coordinates.
pub open spec fn zone_global(output: Rect, zone: Rect) -> Rect {
    rect_of(output.loc.x + zone.loc.x, output.loc.y + zone.loc.y, zone.size.w as int, zone.size.h as int)
}

/// Where windows are laid out on an output: the output shrunk by the outer
/// gap, cut down to the zone that layer-shell panels leave free when the
/// two overlap.
pub open spec fn usable_area_spec(output: Rect, gap: int, zone: Rect) -> Rect {
    let screen = gapped_screen_spec(output, gap);
    match intersection_spec(screen, zone_global(output, zone)) {
        Some(r) => r,
        None => screen,
    }
}

/// The compositor's `i32` arithmetic for the usable area does not overflow.
pub open spec fn usable_area_fits(output: Rect, gap: int, zone: Rect) -> bool {
    let outer = outer_gap_spec(gap, output.size.w as int, output.size.h as int);
    let screen = gapped_screen_spec(output, gap);
    let zg = zone_global(output, zone);
    let e = meet_end(screen, zg);
    &&& fits_i32(output.loc.x + outer)
    &&& fits_i32(output.loc.y + outer)
    &&& fits_i32(output.loc.x + zone.loc.x)
    &&& fits_i32(output.loc.y + zone.loc.y)
    &&& fits_i32(e.0 - imax(screen.loc.x as int, zg.loc.x as int))
    &&& fits_i32(e.1 - imax(screen.loc.y as int, zg.loc.y as int))
}

fn sat_add(a: i32, b: i32) -> (r: i64)
    ensures
        r == sat_i32(a + b),
{
    let s = a as i64 + b as i64;
    if s < i32::MIN as i64 {
        i32::MIN as i64
    } else if s > i32::MAX as i64 {
        i32::MAX as i64
    } else {
        s
    }
}

/// The common part of two rectangles, when they overlap.
pub fn rect_intersection(a: Rect, b: Rect) -> (r: Option<Rect>)
    requires
        ({
            let e = meet_end(a, b);
            &&& fits_i32(e.0 - imax(a.loc.x as int, b.loc.x as int))
            &&& fits_i32(e.1 - imax(a.loc.y as int, b.loc.y as int))
        }),
    ensures
        r == intersection_spec(a, b),
{
    let ax1 = sat_add(a.loc.x, a.size.w);
    let bx1 = sat_add(b.loc.x, b.size.w);
    let ay1 = sat_add(a.loc.y, a.size.h);
    let by1 = sat_add(b.loc.y, b.size.h);
    if !((a.loc.x as i64) < bx1 && (b.loc.x as i64) < ax1 && (a.loc.y as i64) < by1 && (b.loc.y as i64)
        < ay1) {
        return None;
    }
    let x0 = if a.loc.x > b.loc.x {
        a.loc.x
    } else {
        b.loc.x
    };
    let y0 = if a.loc.y > b.loc.y {
        a.loc.y
    } else {
        b.loc.y
    };
    let x1 = if ax1 < bx1 {
        ax1
    } else {
        bx1
    };
    let y1 = if ay1 < by1 {
        ay1
    } else {
        by1
    };
    Some(Rect::new(x0, y0, (x1 - x0 as i64) as i32, (y1 - y0 as i64) as i32))
}

/// The output shrunk by the configured outer gap: where a maximized window
/// goes outside the scroll layout, and the start of the usable area.
pub fn gapped_screen(output: Rect, outer_gap: i32) -> (screen: Rect)
    requires
        fits_i32(output.loc.x + outer_gap_spec(outer_gap as int, output.size.w as int, output.size.h as int)),
        fits_i32(output.loc.y + outer_gap_spec(outer_gap as int, output.size.w as int, output.size.h as int)),
    ensures
        screen == gapped_screen_spec(output, outer_gap as int),
{
    let w = output.size.w;
    let h = output.size.h;
    let m = if w < h {
        w
    } else {
        h
    };
    let half = (m as i64 - 1) / 2;
    let cap: i64 = if half > 0 {
        half
    } else {
        0
    };
    let g: i64 = if outer_gap > 0 {
        outer_gap as i64
    } else {
        0
    };
    let outer: i64 = if g < cap {
        g
    } else {
        cap
    };
    proof {
        assert(outer == outer_gap_spec(outer_gap as int, w as int, h as int));
    }
    let sw = w as i64 - 2 * outer;
    let sh = h as i64 - 2 * outer;
    let screen = Rect::new(
        (output.loc.x as i64 + outer) as i32,
        (output.loc.y as i64 + outer) as i32,
        if sw > 1 {
            sw as i32
        } else {
            1
        },
        if sh > 1 {
            sh as i32
        } else {
            1
        },
    );
    assert(screen == gapped_screen_spec(output, outer_gap as int));
    screen
}

/// The area an output lays its windows out in: the output (`output`, in
/// global coordinates) shrunk by the outer gap, cut down to the zone that
/// panels leave free (`zone`, relative to the output) when the two overlap.
pub fn usable_area(output: Rect, outer_gap: i32, zone: Rect) -> (r: Rect)
    requires
        usable_area_fits(output, outer_gap as int, zone),
    ensures
        r == usable_area_spec(output, outer_gap as int, zone),
{
    let screen = gapped_screen(output, outer_gap);
    let zg = Rect::new(output.loc.x + zone.loc.x, output.loc.y + zone.loc.y, zone.size.w, zone.size.h);
    assert(zg == zone_global(output, zone));
    match rect_intersection(screen, zg) {
        Some(r) => r,
        None => screen,
    }
}

} // verus!

verus! {

/// The column representatives of a scroll strip: each column's top window.
pub open spec fn reps_of(cols: Seq<Seq<u64>>) -> Seq<Option<u64>> {
    Seq::new(cols.len(), |i: int| Some(cols[i][0]))
}

/// The rect of column `i` of a scroll strip laid out on `screen` with the
/// active column at `origin`.
pub open spec fn column_rect_spec(
    cols: Seq<Seq<u64>>,
    screen: Rect,
    gaps: int,
    active: int,
    origin: Point,
    maximized: Option<u64>,
    custom: Map<u64, i32>,
    i: int,
) -> Rect {
    scroll_tile_spec(
        widths_spec(screen.size.w as int, gaps, maximized, reps_of(cols), custom),
        gaps,
        imin(active, cols.len() - 1),
        origin,
        screen.size.h as int,
        i,
    )
}

/// The tiles of one column: a lone window fills the column, several share
/// it as stacked rows around the focused `row`.
pub open spec fn column_tiles_spec(col: Seq<u64>, rect: Rect, gaps: int, row: int) -> Seq<(u64, Rect)> {
    Seq::new(
        col.len(),
        |j: int|
            (col[j], if col.len() == 1 {
                rect
            } else {
                stack_row_spec(rect, gaps, col.len() as int, row, j)
            }),
    )
}

/// The tiles of the first `k` columns, column by column, top to bottom.
pub open spec fn scroll_tiles_upto(
    cols: Seq<Seq<u64>>,
    screen: Rect,
    gaps: int,
    active: int,
    origin: Point,
    maximized: Option<u64>,
    custom: Map<u64, i32>,
    rows: Seq<usize>,
    k: int,
) -> Seq<(u64, Rect)>
    decreases k,
{
    if k <= 0 {
        Seq::empty()
    } else {
        scroll_tiles_upto(cols, screen, gaps, active, origin, maximized, custom, rows, k - 1) + column_tiles_spec(
            cols[k - 1],
            column_rect_spec(cols, screen, gaps, active, origin, maximized, custom, k - 1),
            gaps,
            rows[k - 1] as int,
        )
    }
}

/// The i32 arithmetic of [`scroll_tiles`] does not overflow.
pub open spec fn scroll_tiles_fit(
    cols: Seq<Seq<u64>>,
    screen: Rect,
    gaps: int,
    active: int,
    origin: Point,
    maximized: Option<u64>,
    custom: Map<u64, i32>,
    rows: Seq<usize>,
) -> bool {
    &&& layout_scroll_fits(screen, gaps, active, origin, maximized, reps_of(cols), custom)
    &&& forall|i: int|
        0 <= i < cols.len() ==> #[trigger] stack_fits(
            column_rect_spec(cols, screen, gaps, active, origin, maximized, custom, i),
            gaps,
            cols[i].len() as int,
            rows[i] as int,
        )
}

/// Every window of a scroll strip with its tile: the columns laid side by
/// side with the active one at `origin`, each column split into stacked
/// rows around its focused row `rows[i]`.
pub fn scroll_tiles(
    columns: &Vec<Vec<u64>>,
    screen: Rect,
    gaps: i32,
    active: usize,
    origin: Point,
    maximized: Option<u64>,
    custom: &HashMap<u64, i32>,
    rows: &Vec<usize>,
) -> (tiles: Vec<(u64, Rect)>)
    requires
        columns@.len() > 0,
        forall|i: int| 0 <= i < columns@.len() ==> #[trigger] columns@[i]@.len() > 0,
        rows@.len() == columns@.len(),
        scroll_tiles_fit(
            crate::workspace::id_columns(columns@),
            screen,
            gaps as int,
            active as int,
            origin,
            maximized,
            custom@,
            rows@,
        ),
    ensures
        tiles@ == scroll_tiles_upto(
            crate::workspace::id_columns(columns@),
            screen,
            gaps as int,
            active as int,
            origin,
            maximized,
            custom@,
            rows@,
            columns@.len() as int,
        ),
{
    let ghost cols = crate::workspace::id_columns(columns@);
    let n = columns.len();
    let mut reps: Vec<Option<u64>> = Vec::new();
    let mut i: usize = 0;
    while i < n
        invariant
            n == columns@.len(),
            cols == crate::workspace::id_columns(columns@),
            forall|j: int| 0 <= j < n ==> #[trigger] columns@[j]@.len() > 0,
            i <= n,
            reps@ =~= reps_of(cols).take(i as int),
        decreases n - i,
    {
        reps.push(Some(columns[i][0]));
        proof {
            assert(cols[i as int] == columns@[i as int]@);
            assert(reps@ =~= reps_of(cols).take(i + 1));
        }
        i = i + 1;
    }
    proof {
        assert(reps@ =~= reps_of(cols));
    }
    let col_rects = layout_scroll(reps.as_slice(), screen, gaps, active, origin, maximized, custom);
    let mut tiles: Vec<(u64, Rect)> = Vec::new();
    let mut c: usize = 0;
    while c < n
        invariant
            n == columns@.len(),
            cols == crate::workspace::id_columns(columns@),
            reps@ == reps_of(cols),
            forall|j: int| 0 <= j < n ==> #[trigger] columns@[j]@.len() > 0,
            rows@.len() == n,
            col_rects@.len() == n,
            forall|j: int|
                0 <= j < n ==> (#[trigger] col_rects@[j]).1 == column_rect_spec(
                    cols,
                    screen,
                    gaps as int,
                    active as int,
                    origin,
                    maximized,
                    custom@,
                    j,
                ),
            scroll_tiles_fit(cols, screen, gaps as int, active as int, origin, maximized, custom@, rows@),
            c <= n,
            tiles@ == scroll_tiles_upto(cols, screen, gaps as int, active as int, origin, maximized, custom@, rows@, c as int),
        decreases n - c,
    {
        let rect = col_rects[c].1;
        let col = &columns[c];
        proof {
            assert(cols[c as int] == col@);
            assert(stack_fits(
                column_rect_spec(cols, screen, gaps as int, active as int, origin, maximized, custom@, c as int),
                gaps as int,
                cols[c as int].len() as int,
                rows@[c as int] as int,
            ));
        }
        let rs = layout_stack_rows(rect, gaps, col.len(), rows[c]);
        let ghost before = tiles@;
        let ghost part = column_tiles_spec(col@, rect, gaps as int, rows@[c as int] as int);
        let mut j: usize = 0;
        while j < col.len()
            invariant
                col@.len() > 0,
                rs@.len() == col@.len(),
                col@.len() == 1 ==> rs@ == seq![rect],
                col@.len() >= 2 ==> forall|t: int|
                    0 <= t < col@.len() ==> #[trigger] rs@[t] == stack_row_spec(
                        rect,
                        gaps as int,
                        col@.len() as int,
                        rows@[c as int] as int,
                        t,
                    ),
                part == column_tiles_spec(col@, rect, gaps as int, rows@[c as int] as int),
                j <= col@.len(),
                tiles@ =~= before + part.take(j as int),
            decreases col@.len() - j,
        {
            tiles.push((col[j], rs[j]));
            proof {
                assert(part[j as int] == (col@[j as int], rs@[j as int]));
                assert(part.take(j + 1) =~= part.take(j as int).push(part[j as int]));
            }
            j = j + 1;
        }
        proof {
            assert(part.take(col@.len() as int) =~= part);
        }
        c = c + 1;
    }
    tiles
}

} // verus!

verus! {

/// Where each laid-out window is sent, of the first `k` layouts: the window
/// being dragged and windows that are closing are left where they are (out
/// of the list); outside the scroll layout a maximized window gets its
/// given full-screen rect in place of its tile.
pub open spec fn settled_upto(
    layouts: Seq<(u64, Rect)>,
    scroll: bool,
    dragging: Option<u64>,
    closing: Set<u64>,
    maximized: Map<u64, Rect>,
    k: int,
) -> Seq<(u64, Rect)>
    decreases k,
{
    if k <= 0 {
        Seq::empty()
    } else {
        let before = settled_upto(layouts, scroll, dragging, closing, maximized, k - 1);
        let (id, tile) = layouts[k - 1];
        if dragging == Some(id) || closing.contains(id) {
            before
        } else if !scroll && maximized.contains_key(id) {
            before.push((id, maximized[id]))
        } else {
            before.push((id, tile))
        }
    }
}

/// Turn the layouts of every output into the rects the windows are sent.
pub fn settle_targets(
    layouts: &[(u64, Rect)],
    scroll: bool,
    dragging: Option<u64>,
    closing: &HashSet<u64>,
    maximized: &HashMap<u64, Rect>,
) -> (targets: Vec<(u64, Rect)>)
    ensures
        targets@ == settled_upto(layouts@, scroll, dragging, closing@, maximized@, layouts@.len() as int),
{
    let mut targets: Vec<(u64, Rect)> = Vec::new();
    let mut i: usize = 0;
    while i < layouts.len()
        invariant
            i <= layouts@.len(),
            targets@ == settled_upto(layouts@, scroll, dragging, closing@, maximized@, i as int),
        decreases layouts@.len() - i,
    {
        let (id, tile) = layouts[i];
        let dragged = match dragging {
            Some(d) => d == id,
            None => false,
        };
        if !(dragged || closing.contains(&id)) {
            if !scroll {
                match maximized.get(&id) {
                    Some(r) => targets.push((id, *r)),
                    None => targets.push((id, tile)),
                }
            } else {
                targets.push((id, tile));
            }
        }
        i = i + 1;
    }
    targets
}

} // verus!
