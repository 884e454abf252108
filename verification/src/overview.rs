//! Workspace switching and the workspace overview: which desktops exist,
//! where their cells lie, how the selection moves, and which windows stay
//! mapped while a switch slides.
use vstd::prelude::*;
use std::collections::HashMap;
use crate::geometry::{fits_i32, imax, imin, rect_of, Point, Rect, Size};
use crate::layout::{reps_of, scroll_tiles, scroll_tiles_fit, scroll_tiles_upto, scroll_view_origin, view_origin_fits, view_origin_spec};
use crate::workspace::id_columns;

verus! {

/// The monotonic clock's instants (`std::time::Instant`), carried through
/// as opaque values.
#[verifier::external_type_specification]
#[verifier::external_body]
pub struct ExInstant(std::time::Instant);

/// `Instant` is `Copy`: its `clone` returns the same instant.
pub assume_specification[ <std::time::Instant as Clone>::clone ](i: &std::time::Instant) -> (r:
    std::time::Instant)
    ensures
        r == *i,
;

/// A running workspace switch: the outgoing desktop (`old`) stays mapped and
/// slides out while the incoming desktop (`next`) slides in.
#[derive(Debug, Clone)]
pub struct WsPan {
    pub output: String,
    pub old: usize,
    pub next: usize,
    pub start: std::time::Instant,
}

/// Overview camera transition: entering zooms the fitted grid out, exiting
/// zooms back in, shifting slides the strip by `rows` cells on one output.
#[derive(Debug, Clone)]
pub enum OverviewTransition {
    Entering { start: std::time::Instant },
    Exiting { start: std::time::Instant },
    Shifting { output: String, rows: i32, start: std::time::Instant },
}

/// Whether the overview is animating closed.
pub fn overview_closing(transition: &Option<OverviewTransition>) -> (b: bool)
    ensures
        b == (transition matches Some(OverviewTransition::Exiting { .. })),
{
    match transition {
        Some(OverviewTransition::Exiting { .. }) => true,
        _ => false,
    }
}

/// Whether activating workspace `next` (coming from `old`) slides the two
/// desktops: only outside the overview, for a real change, with animations
/// on, and not while the overview is closing.
pub open spec fn pan_wanted_spec(
    overview_active: bool,
    old: usize,
    next: usize,
    animation_enabled: bool,
    closing: bool,
) -> bool {
    !overview_active && next != old && animation_enabled && !closing
}

/// See [`pan_wanted_spec`].
pub fn ws_pan_wanted(
    overview_active: bool,
    old: usize,
    next: usize,
    animation_enabled: bool,
    transition: &Option<OverviewTransition>,
) -> (b: bool)
    ensures
        b == pan_wanted_spec(
            overview_active,
            old,
            next,
            animation_enabled,
            transition matches Some(OverviewTransition::Exiting { .. }),
        ),
{
    !overview_active && next != old && animation_enabled && !overview_closing(transition)
}

/// Whether a window of the activated output stays mapped when workspace
/// `next` is activated: it is on `next`, it is being dragged, or the switch
/// slides and it is on the outgoing workspace `old`.
pub open spec fn stays_mapped_spec(
    window_workspace: Option<usize>,
    dragged: bool,
    pan: bool,
    old: usize,
    next: usize,
) -> bool {
    window_workspace == Some(next) || dragged || (pan && window_workspace == Some(old))
}

/// See [`stays_mapped_spec`].
pub fn stays_mapped(
    window_workspace: Option<usize>,
    dragged: bool,
    pan: bool,
    old: usize,
    next: usize,
) -> (b: bool)
    ensures
        b == stays_mapped_spec(window_workspace, dragged, pan, old, next),
{
    let on_next = match window_workspace {
        Some(w) => w == next,
        None => false,
    };
    let on_old = match window_workspace {
        Some(w) => w == old,
        None => false,
    };
    on_next || dragged || (pan && on_old)
}

/// The workspaces that exist on an output, in order: those its windows
/// use, its active one, and one past the highest (a fresh empty desktop).
pub open spec fn overview_workspace_set(window_workspaces: Seq<usize>, active: usize) -> Set<usize> {
    let used = window_workspaces.to_set().insert(active);
    used.insert(crate::workspace::sat_add(crate::workspace::seq_max(active as int, window_workspaces), 1) as usize)
}

/// Strictly increasing.
pub open spec fn strictly_sorted(s: Seq<usize>) -> bool {
    forall|i: int, j: int| 0 <= i < j < s.len() ==> s[i] < s[j]
}

/// Insert `x` into a strictly increasing vector, keeping it so.
fn insert_sorted(v: &mut Vec<usize>, x: usize)
    requires
        strictly_sorted(old(v)@),
    ensures
        strictly_sorted(final(v)@),
        final(v)@.to_set() == old(v)@.to_set().insert(x),
{
    let mut i: usize = 0;
    while i < v.len() && v[i] < x
        invariant
            i <= v@.len(),
            forall|k: int| 0 <= k < i ==> v@[k] < x,
        decreases v@.len() - i,
    {
        i = i + 1;
    }
    let ghost before = v@;
    if i < v.len() && v[i] == x {
        proof {
            assert(before.to_set() =~= before.to_set().insert(x)) by {
                assert(before.contains(x)) by {
                    assert(before[i as int] == x);
                }
            }
        }
        return;
    }
    v.insert(i, x);
    proof {
        assert(v@ =~= before.subrange(0, i as int).push(x) + before.subrange(i as int, before.len() as int));
        assert forall|a: int, b: int| 0 <= a < b < v@.len() implies v@[a] < v@[b] by {
            if b < i {
            } else if b == i {
            } else if a < i {
                assert(v@[b] == before[b - 1]);
                assert(before[i as int] > x);
                if b - 1 > i {
                    assert(before[i as int] < before[b - 1]);
                }
            } else if a == i {
                assert(v@[b] == before[b - 1]);
                assert(before[i as int] > x);
                if b - 1 > i {
                    assert(before[i as int] < before[b - 1]);
                }
            } else {
                assert(v@[a] == before[a - 1]);
                assert(v@[b] == before[b - 1]);
            }
        }
        assert(v@.to_set() =~= before.to_set().insert(x)) by {
            assert forall|y: usize| v@.to_set().contains(y) implies before.to_set().insert(x).contains(y) by {
                let k = choose|k: int| 0 <= k < v@.len() && v@[k] == y;
                if k < i {
                    assert(before[k] == y);
                } else if k > i {
                    assert(before[k - 1] == y);
                }
            }
            assert forall|y: usize| before.to_set().insert(x).contains(y) implies v@.to_set().contains(y) by {
                if y == x {
                    assert(v@[i as int] == x);
                } else {
                    let k = choose|k: int| 0 <= k < before.len() && before[k] == y;
                    if k < i {
                        assert(v@[k] == y);
                    } else {
                        assert(v@[k + 1] == y);
                    }
                }
            }
        }
    }
}

/// Sorted workspaces that exist on an output: the used ones plus the
/// active one, plus one past the highest, each once, in increasing order.
pub fn overview_workspaces(window_workspaces: &[usize], active: usize) -> (ws: Vec<usize>)
    ensures
        strictly_sorted(ws@),
        ws@.to_set() == overview_workspace_set(window_workspaces@, active),
{
    let mut ws: Vec<usize> = Vec::new();
    let mut i: usize = 0;
    while i < window_workspaces.len()
        invariant
            i <= window_workspaces@.len(),
            strictly_sorted(ws@),
            ws@.to_set() == window_workspaces@.take(i as int).to_set(),
        decreases window_workspaces@.len() - i,
    {
        insert_sorted(&mut ws, window_workspaces[i]);
        proof {
            assert(window_workspaces@.take(i + 1) =~= window_workspaces@.take(i as int).push(
                window_workspaces@[i as int],
            ));
            window_workspaces@.take(i as int).lemma_push_to_set_commute(window_workspaces@[i as int]);
        }
        i = i + 1;
    }
    proof {
        assert(window_workspaces@.take(window_workspaces@.len() as int) =~= window_workspaces@);
    }
    insert_sorted(&mut ws, active);
    let top = crate::workspace::max_workspace_on(active, window_workspaces);
    let fresh = if top == usize::MAX {
        usize::MAX
    } else {
        top + 1
    };
    insert_sorted(&mut ws, fresh);
    ws
}

} // verus!

verus! {

/// Spacing between overview cells, in logical pixels.
pub const OVERVIEW_GAP: i32 = 64;

/// Position of `x` in `s` (first), or 0 when absent.
pub open spec fn position_or_zero(s: Seq<usize>, x: usize) -> int {
    if exists|i: int| 0 <= i < s.len() && s[i] == x {
        choose|i: int| 0 <= i < s.len() && s[i] == x && forall|j: int| 0 <= j < i ==> s[j] != x
    } else {
        0
    }
}

/// The overview cell of the `i`-th workspace: a vertical strip of
/// output-sized cells `gap` apart, the active desktop's cell (at
/// `active_pos`) on the output itself.
pub open spec fn cell_spec(geo: Rect, i: int, active_pos: int) -> Rect {
    let w = if geo.size.w > 1 { geo.size.w as int } else { 1 };
    let h = if geo.size.h > 1 { geo.size.h as int } else { 1 };
    crate::geometry::rect_of(geo.loc.x as int, geo.loc.y + (i - active_pos) * (h + OVERVIEW_GAP), w, h)
}

fn position_of(s: &[usize], x: usize) -> (r: usize)
    ensures
        r == position_or_zero(s@, x),
        r < s@.len() || r == 0,
{
    let mut i: usize = 0;
    while i < s.len()
        invariant
            i <= s@.len(),
            forall|j: int| 0 <= j < i ==> s@[j] != x,
        decreases s@.len() - i,
    {
        if s[i] == x {
            proof {
                let k = choose|k: int| 0 <= k < s@.len() && s@[k] == x && forall|j: int| 0 <= j < k ==> s@[j] != x;
                assert(k == i) by {
                    if k < i {
                        assert(s@[k] != x);
                    } else if k > i {
                        assert(s@[i as int] != x);
                    }
                }
            }
            return i;
        }
        i = i + 1;
    }
    0
}

/// Grid cells for the overview on one output, in workspace order.
pub fn overview_cells(workspaces: &[usize], active: usize, geo: Rect) -> (cells: Vec<(usize, Rect)>)
    requires
        workspaces@.len() <= i32::MAX,
        forall|i: int| 0 <= i < workspaces@.len() ==> #[trigger] fits_i32(
            cell_spec(geo, i, position_or_zero(workspaces@, active)).loc.y as int,
        ),
        fits_i32(geo.size.h + OVERVIEW_GAP),
    ensures
        cells@.len() == workspaces@.len(),
        forall|i: int| 0 <= i < cells@.len() ==> (#[trigger] cells@[i]).0 == workspaces@[i]
            && cells@[i].1 == cell_spec(geo, i, position_or_zero(workspaces@, active)),
{
    let ap = position_of(workspaces, active);
    let w: i32 = if geo.size.w > 1 { geo.size.w } else { 1 };
    let h: i32 = if geo.size.h > 1 { geo.size.h } else { 1 };
    let mut cells: Vec<(usize, Rect)> = Vec::new();
    let mut i: usize = 0;
    while i < workspaces.len()
        invariant
            i <= workspaces@.len() <= i32::MAX,
            ap == position_or_zero(workspaces@, active),
            ap < workspaces@.len() || ap == 0,
            w == (if geo.size.w > 1 { geo.size.w } else { 1 }),
            h == (if geo.size.h > 1 { geo.size.h } else { 1 }),
            fits_i32(geo.size.h + OVERVIEW_GAP),
            forall|k: int| 0 <= k < workspaces@.len() ==> #[trigger] fits_i32(
                cell_spec(geo, k, position_or_zero(workspaces@, active)).loc.y as int,
            ),
            cells@.len() == i,
            forall|k: int| 0 <= k < i ==> (#[trigger] cells@[k]).0 == workspaces@[k]
                && cells@[k].1 == cell_spec(geo, k, ap as int),
        decreases workspaces@.len() - i,
    {
        let d: i64 = i as i64 - ap as i64;
        let step: i64 = h as i64 + OVERVIEW_GAP as i64;
        assert(-(i32::MAX as int) <= d <= i32::MAX);
        assert(1 <= step <= i32::MAX as int + 64);
        assert(-(i32::MAX as int) * (i32::MAX as int + 64) <= d * step <= (i32::MAX as int) * (i32::MAX as int + 64)) by (nonlinear_arith)
            requires -(i32::MAX as int) <= d <= i32::MAX, 1 <= step <= i32::MAX as int + 64;
        let y64: i64 = geo.loc.y as i64 + d * step;
        assert(fits_i32(cell_spec(geo, i as int, ap as int).loc.y as int));
        let y: i32 = y64 as i32;
        let r = Rect { loc: Point { x: geo.loc.x, y }, size: Size { w, h } };
        cells.push((workspaces[i], r));
        i = i + 1;
    }
    cells
}

/// The cell that the overview selection moves to: `dx + dy` cells along
/// the strip, clamped to its ends.
pub open spec fn nav_target_spec(pos: int, len: int, dx: int, dy: int) -> int {
    let t = pos + dx + dy;
    if t < 0 {
        0
    } else if t > len - 1 {
        len - 1
    } else {
        t
    }
}

/// See [`nav_target_spec`].
pub fn overview_nav_target(pos: usize, len: usize, dx: isize, dy: isize) -> (t: usize)
    requires
        0 < len <= isize::MAX,
        pos < len,
        isize::MIN <= pos + dx + dy <= isize::MAX,
        isize::MIN <= pos + dx <= isize::MAX,
    ensures
        t == nav_target_spec(pos as int, len as int, dx as int, dy as int),
{
    let s: isize = pos as isize + dx + dy;
    let last: isize = len as isize - 1;
    if s < 0 {
        0
    } else if s > last {
        last as usize
    } else {
        s as usize
    }
}

/// The transition after the overview selection moved `delta` cells on
/// `output`: a shift that accumulates onto a running one (keeping its
/// start) or starts at `now`.
pub fn next_shift(
    transition: &Option<OverviewTransition>,
    output: String,
    delta: i32,
    now: std::time::Instant,
) -> (t: OverviewTransition)
    requires
        transition matches Some(OverviewTransition::Shifting { rows, .. }) ==> fits_i32(
            rows + delta,
        ),
    ensures
        t matches OverviewTransition::Shifting { output: o, rows, start } && o@ == output@ && (
        match transition {
            Some(OverviewTransition::Shifting { rows: r0, start: s0, .. }) => rows == r0 + delta
                && start == s0,
            _ => rows == delta && start == now,
        }),
{
    match transition {
        Some(OverviewTransition::Shifting { rows, start, .. }) => OverviewTransition::Shifting {
            output,
            rows: *rows + delta,
            start: *start,
        },
        _ => OverviewTransition::Shifting { output, rows: delta, start: now },
    }
}

} // verus!

verus! {

/// A floating window's rect moved from its output into its overview cell.
pub open spec fn floating_in_cell(cell: Rect, output: Rect, r: Rect) -> Rect {
    rect_of(cell.loc.x + r.loc.x - output.loc.x, cell.loc.y + r.loc.y - output.loc.y, r.size.w as int, r.size.h as int)
}

/// A canvas window's world rect placed in its overview cell, at least one
/// pixel each way.
pub open spec fn canvas_in_cell(cell: Rect, w: Rect) -> Rect {
    rect_of(cell.loc.x + w.loc.x, cell.loc.y + w.loc.y, imax(w.size.w as int, 1), imax(w.size.h as int, 1))
}

pub open spec fn floating_cells(cell: Rect, output: Rect, fl: Seq<(u64, Rect)>) -> Seq<(u64, Rect)> {
    Seq::new(fl.len(), |i: int| (fl[i].0, floating_in_cell(cell, output, fl[i].1)))
}

pub open spec fn canvas_cells(cell: Rect, ws: Seq<(u64, Rect)>) -> Seq<(u64, Rect)> {
    Seq::new(ws.len(), |i: int| (ws[i].0, canvas_in_cell(cell, ws[i].1)))
}

/// The remembered focused row of every column (0 when none is).
pub open spec fn remembered_rows(rows: Map<u64, usize>, cols: Seq<Seq<u64>>) -> Seq<usize> {
    Seq::new(
        cols.len(),
        |i: int|
            if rows.contains_key(cols[i][0]) {
                rows[cols[i][0]]
            } else {
                0usize
            },
    )
}

/// The column an overview cell shows in view: the remembered one (the
/// first when none is), never past the last.
pub open spec fn cell_active(n: int, remembered: Option<usize>) -> int {
    let r = match remembered {
        Some(r) => r as int,
        None => 0,
    };
    imin(r, n - 1)
}

pub open spec fn cell_origin(cell: Rect, gaps: int, active: int, cols: Seq<Seq<u64>>, custom: Map<u64, i32>) -> Point {
    let o = view_origin_spec(cell, gaps, active, None, reps_of(cols), custom);
    Point { x: o.0 as i32, y: o.1 as i32 }
}

/// The windows of one workspace inside its overview cell: floating windows
/// keep their place relative to the output; in the canvas layout the other
/// windows keep their world rects; otherwise they are tiled as a scroll
/// strip in the cell, following the remembered column and rows, with no
/// window maximized.
pub open spec fn overview_rects_spec(
    cell: Rect,
    output: Rect,
    floating: Seq<(u64, Rect)>,
    canvas: Option<Seq<(u64, Rect)>>,
    cols: Seq<Seq<u64>>,
    remembered: Option<usize>,
    gaps: int,
    custom: Map<u64, i32>,
    rows: Map<u64, usize>,
) -> Seq<(u64, Rect)> {
    floating_cells(cell, output, floating) + match canvas {
        Some(ws) => canvas_cells(cell, ws),
        None => if cols.len() == 0 {
            Seq::empty()
        } else {
            let active = cell_active(cols.len() as int, remembered);
            scroll_tiles_upto(
                cols,
                cell,
                gaps,
                active,
                cell_origin(cell, gaps, active, cols, custom),
                None,
                custom,
                remembered_rows(rows, cols),
                cols.len() as int,
            )
        },
    }
}

/// The arithmetic of [`overview_window_rects`] fits `i32`.
pub open spec fn overview_rects_fit(
    cell: Rect,
    output: Rect,
    floating: Seq<(u64, Rect)>,
    canvas: Option<Seq<(u64, Rect)>>,
    cols: Seq<Seq<u64>>,
    remembered: Option<usize>,
    gaps: int,
    custom: Map<u64, i32>,
    rows: Map<u64, usize>,
) -> bool {
    &&& forall|i: int|
        0 <= i < floating.len() ==> {
            &&& fits_i32(cell.loc.x + (#[trigger] floating[i]).1.loc.x)
            &&& fits_i32(cell.loc.x + floating[i].1.loc.x - output.loc.x)
            &&& fits_i32(cell.loc.y + floating[i].1.loc.y)
            &&& fits_i32(cell.loc.y + floating[i].1.loc.y - output.loc.y)
        }
    &&& match canvas {
        Some(ws) => forall|i: int|
            0 <= i < ws.len() ==> {
                &&& fits_i32(cell.loc.x + (#[trigger] ws[i]).1.loc.x)
                &&& fits_i32(cell.loc.y + ws[i].1.loc.y)
            },
        None => cols.len() > 0 ==> {
            let active = cell_active(cols.len() as int, remembered);
            &&& forall|i: int| 0 <= i < cols.len() ==> #[trigger] cols[i].len() > 0
            &&& view_origin_fits(cell, gaps, active, None, reps_of(cols), custom)
            &&& scroll_tiles_fit(
                cols,
                cell,
                gaps,
                active,
                cell_origin(cell, gaps, active, cols, custom),
                None,
                custom,
                remembered_rows(rows, cols),
            )
        },
    }
}

/// Lay one workspace's windows out inside its overview cell.
pub fn overview_window_rects(
    cell: Rect,
    output: Rect,
    floating: &[(u64, Rect)],
    canvas: &Option<Vec<(u64, Rect)>>,
    columns: &Vec<Vec<u64>>,
    remembered: Option<usize>,
    gaps: i32,
    custom: &HashMap<u64, i32>,
    rows: &HashMap<u64, usize>,
) -> (out: Vec<(u64, Rect)>)
    requires
        overview_rects_fit(
            cell,
            output,
            floating@,
            match canvas {
                Some(v) => Some(v@),
                None => None,
            },
            id_columns(columns@),
            remembered,
            gaps as int,
            custom@,
            rows@,
        ),
    ensures
        out@ == overview_rects_spec(
            cell,
            output,
            floating@,
            match canvas {
                Some(v) => Some(v@),
                None => None,
            },
            id_columns(columns@),
            remembered,
            gaps as int,
            custom@,
            rows@,
        ),
{
    let ghost cols = id_columns(columns@);
    let mut out: Vec<(u64, Rect)> = Vec::new();
    let mut i: usize = 0;
    while i < floating.len()
        invariant
            i <= floating@.len(),
            forall|j: int|
                0 <= j < floating@.len() ==> {
                    &&& fits_i32(cell.loc.x + (#[trigger] floating@[j]).1.loc.x)
                    &&& fits_i32(cell.loc.x + floating@[j].1.loc.x - output.loc.x)
                    &&& fits_i32(cell.loc.y + floating@[j].1.loc.y)
                    &&& fits_i32(cell.loc.y + floating@[j].1.loc.y - output.loc.y)
                },
            out@ =~= floating_cells(cell, output, floating@).take(i as int),
        decreases floating@.len() - i,
    {
        let (id, r) = floating[i];
        proof {
            assert(floating@[i as int] == (id, r));
        }
        out.push(
            (id, Rect {
                loc: Point { x: cell.loc.x + r.loc.x - output.loc.x, y: cell.loc.y + r.loc.y - output.loc.y },
                size: r.size,
            }),
        );
        proof {
            assert(out@ =~= floating_cells(cell, output, floating@).take(i + 1));
        }
        i = i + 1;
    }
    let ghost head = out@;
    proof {
        assert(head =~= floating_cells(cell, output, floating@));
    }
    let ghost cv = match canvas {
        Some(v) => Some(v@),
        None => None,
    };
    match canvas {
        Some(ws) => {
            proof {
                assert(cv == Some(ws@));
                assert forall|j: int| 0 <= j < ws@.len() implies {
                    &&& fits_i32(cell.loc.x + (#[trigger] ws@[j]).1.loc.x)
                    &&& fits_i32(cell.loc.y + ws@[j].1.loc.y)
                } by {
                    assert(cv->0[j] == ws@[j]);
                }
            }
            let mut k: usize = 0;
            while k < ws.len()
                invariant
                    k <= ws@.len(),
                    forall|j: int|
                        0 <= j < ws@.len() ==> {
                            &&& fits_i32(cell.loc.x + (#[trigger] ws@[j]).1.loc.x)
                            &&& fits_i32(cell.loc.y + ws@[j].1.loc.y)
                        },
                    out@ =~= head + canvas_cells(cell, ws@).take(k as int),
                decreases ws@.len() - k,
            {
                let (id, w) = ws[k];
                proof {
                    assert(ws@[k as int] == (id, w));
                }
                out.push(
                    (id, Rect {
                        loc: Point { x: cell.loc.x + w.loc.x, y: cell.loc.y + w.loc.y },
                        size: Size {
                            w: if w.size.w > 1 { w.size.w } else { 1 },
                            h: if w.size.h > 1 { w.size.h } else { 1 },
                        },
                    }),
                );
                proof {
                    assert(out@ =~= head + canvas_cells(cell, ws@).take(k + 1));
                }
                k = k + 1;
            }
            proof {
                assert(canvas_cells(cell, ws@).take(ws@.len() as int) =~= canvas_cells(cell, ws@));
            }
            out
        },
        None => {
            let n = columns.len();
            if n == 0 {
                proof {
                    assert(out@ =~= head + Seq::<(u64, Rect)>::empty());
                }
                return out;
            }
            let r = match remembered {
                Some(r) => r,
                None => 0,
            };
            let active = if r < n - 1 { r } else { n - 1 };
            let mut reps: Vec<Option<u64>> = Vec::new();
            let mut row_of: Vec<usize> = Vec::new();
            let mut c: usize = 0;
            while c < n
                invariant
                    n == columns@.len(),
                    cols == id_columns(columns@),
                    forall|j: int| 0 <= j < cols.len() ==> #[trigger] cols[j].len() > 0,
                    c <= n,
                    reps@ =~= reps_of(cols).take(c as int),
                    row_of@ =~= remembered_rows(rows@, cols).take(c as int),
                decreases n - c,
            {
                proof {
                    assert(cols[c as int] == columns@[c as int]@);
                }
                let top = columns[c][0];
                reps.push(Some(top));
                let row = match rows.get(&top) {
                    Some(v) => *v,
                    None => 0,
                };
                row_of.push(row);
                proof {
                    assert(reps@ =~= reps_of(cols).take(c + 1));
                    assert(row_of@ =~= remembered_rows(rows@, cols).take(c + 1));
                }
                c = c + 1;
            }
            proof {
                assert(reps@ =~= reps_of(cols));
                assert(row_of@ =~= remembered_rows(rows@, cols));
                assert forall|j: int| 0 <= j < columns@.len() implies #[trigger] columns@[j]@.len() > 0 by {
                    assert(cols[j] == columns@[j]@);
                }
            }
            let origin = scroll_view_origin(cell, gaps, active, None, reps.as_slice(), custom);
            let tiles = scroll_tiles(columns, cell, gaps, active, origin, None, custom, &row_of);
            let mut t: usize = 0;
            while t < tiles.len()
                invariant
                    t <= tiles@.len(),
                    out@ =~= head + tiles@.take(t as int),
                decreases tiles@.len() - t,
            {
                out.push(tiles[t]);
                proof {
                    assert(out@ =~= head + tiles@.take(t + 1));
                }
                t = t + 1;
            }
            proof {
                assert(tiles@.take(tiles@.len() as int) =~= tiles@);
            }
            out
        },
    }
}

} // verus!
