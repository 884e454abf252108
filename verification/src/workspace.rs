//! Scroll-layout columns and workspace navigation: how the ordered windows
//! of an output group into columns, and where focus and workspaces move.
use vstd::prelude::*;
use std::collections::{HashMap, HashSet};

verus! {

/// The columns that the window order forms: a window marked as a column
/// start opens a new column, every other window stacks below the previous
/// one (the first window always opens a column).
pub open spec fn columns_spec(ws: Seq<u64>, starts: Set<u64>) -> Seq<Seq<u64>>
    decreases ws.len(),
{
    if ws.len() == 0 {
        Seq::<Seq<u64>>::empty()
    } else {
        let cs = columns_spec(ws.drop_last(), starts);
        let w = ws.last();
        if starts.contains(w) || cs.len() == 0 {
            cs.push(seq![w])
        } else {
            cs.update(cs.len() - 1, cs.last().push(w))
        }
    }
}

/// The concatenation of the columns.
pub open spec fn flatten(cs: Seq<Seq<u64>>) -> Seq<u64>
    decreases cs.len(),
{
    if cs.len() == 0 {
        Seq::<u64>::empty()
    } else {
        flatten(cs.drop_last()) + cs.last()
    }
}

/// The views of a vector of id vectors.
pub open spec fn id_columns(v: Seq<Vec<u64>>) -> Seq<Seq<u64>> {
    v.map_values(|c: Vec<u64>| c@)
}

/// Group the ordered windows of an output into scroll columns.
pub fn columns_of(windows: &[u64], starts: &HashSet<u64>) -> (cols: Vec<Vec<u64>>)
    ensures
        id_columns(cols@) == columns_spec(windows@, starts@),
{
    let mut cols: Vec<Vec<u64>> = Vec::new();
    let mut i: usize = 0;
    while i < windows.len()
        invariant
            i <= windows@.len(),
            id_columns(cols@) == columns_spec(windows@.take(i as int), starts@),
        decreases windows@.len() - i,
    {
        let w = windows[i];
        proof {
            assert(windows@.take(i + 1).drop_last() =~= windows@.take(i as int));
            assert(windows@.take(i + 1).last() == w);
        }
        let opens = starts.contains(&w);
        if opens || cols.len() == 0 {
            let mut c: Vec<u64> = Vec::new();
            c.push(w);
            cols.push(c);
            proof {
                assert(id_columns(cols@) =~= columns_spec(windows@.take(i + 1), starts@));
            }
        } else {
            let last = cols.len() - 1;
            let mut c = cols[last].clone();
            c.push(w);
            cols.set(last, c);
            proof {
                assert(id_columns(cols@) =~= columns_spec(windows@.take(i + 1), starts@));
            }
        }
        i = i + 1;
    }
    proof {
        assert(windows@.take(windows@.len() as int) =~= windows@);
    }
    cols
}

/// Every column is non-empty, every column but the first opens with a
/// start, no start sits below a column's top, and the columns concatenate
/// back to the window order.
pub open spec fn partitions(cs: Seq<Seq<u64>>, ws: Seq<u64>, starts: Set<u64>) -> bool {
    &&& flatten(cs) == ws
    &&& forall|c: int| 0 <= c < cs.len() ==> #[trigger] cs[c].len() > 0
    &&& forall|c: int| 0 < c < cs.len() ==> starts.contains(#[trigger] cs[c][0])
    &&& forall|c: int, r: int|
        0 <= c < cs.len() && 0 < r < cs[c].len() ==> !starts.contains(#[trigger] cs[c][r])
}

/// The scroll columns partition the window order: they are non-empty,
/// concatenate back to the order, open exactly at the marked column starts
/// (and at the first window).
pub proof fn lemma_columns_partition(ws: Seq<u64>, starts: Set<u64>)
    ensures
        partitions(columns_spec(ws, starts), ws, starts),
        ws.len() == 0 <==> columns_spec(ws, starts).len() == 0,
    decreases ws.len(),
{
    if ws.len() > 0 {
        let pre = ws.drop_last();
        let cs = columns_spec(pre, starts);
        lemma_columns_partition(pre, starts);
        let w = ws.last();
        let out = columns_spec(ws, starts);
        if starts.contains(w) || cs.len() == 0 {
            assert(out.drop_last() =~= cs);
            assert(flatten(out) == flatten(out.drop_last()) + out.last());
            assert(ws =~= pre.push(w));
            assert(flatten(out) =~= ws);
            assert forall|c: int| 0 <= c < out.len() implies #[trigger] out[c].len() > 0 by {
                if c < cs.len() {
                    assert(out[c] == cs[c]);
                }
            }
            assert forall|c: int| 0 < c < out.len() implies starts.contains(#[trigger] out[c][0]) by {
                if c < cs.len() {
                    assert(out[c] == cs[c]);
                }
            }
            assert forall|c: int, r: int|
                0 <= c < out.len() && 0 < r < out[c].len() implies !starts.contains(
                #[trigger] out[c][r],
            ) by {
                if c < cs.len() {
                    assert(out[c] == cs[c]);
                }
            }
        } else {
            let last = cs.last();
            assert(out.drop_last() =~= cs.drop_last());
            assert(flatten(cs) == flatten(cs.drop_last()) + last);
            assert(out.last() == last.push(w));
            assert(flatten(out) == flatten(out.drop_last()) + out.last());
            assert(flatten(out) =~= flatten(cs.drop_last()) + last.push(w));
            assert(ws =~= pre.push(w));
            assert(flatten(out) =~= ws);
            assert forall|c: int| 0 <= c < out.len() implies #[trigger] out[c].len() > 0 by {
                if c < cs.len() - 1 {
                    assert(out[c] == cs[c]);
                }
            }
            assert forall|c: int| 0 < c < out.len() implies starts.contains(#[trigger] out[c][0]) by {
                if c < cs.len() - 1 {
                    assert(out[c] == cs[c]);
                } else {
                    assert(out[c][0] == cs[c][0]);
                }
            }
            assert forall|c: int, r: int|
                0 <= c < out.len() && 0 < r < out[c].len() implies !starts.contains(
                #[trigger] out[c][r],
            ) by {
                if c < cs.len() - 1 {
                    assert(out[c] == cs[c]);
                } else if r < last.len() {
                    assert(out[c][r] == cs[c][r]);
                }
            }
        }
    } else {
        assert(flatten(columns_spec(ws, starts)) =~= ws);
    }
}

} // verus!

verus! {

/// Index of the first element of `s` equal to `x`, from `i` on.
pub open spec fn first_index_of(s: Seq<u64>, x: u64, i: int) -> Option<int>
    decreases s.len() - i,
{
    if i < 0 || i >= s.len() {
        None
    } else if s[i] == x {
        Some(i)
    } else {
        first_index_of(s, x, i + 1)
    }
}

/// (column, row) of `focus`: the first column that holds it, and its first
/// row there.
pub open spec fn position_spec(cs: Seq<Seq<u64>>, focus: u64, c: int) -> Option<(int, int)>
    decreases cs.len() - c,
{
    if c < 0 || c >= cs.len() {
        None
    } else if first_index_of(cs[c], focus, 0) is Some {
        Some((c, first_index_of(cs[c], focus, 0)->0))
    } else {
        position_spec(cs, focus, c + 1)
    }
}

/// The first position of `x` in `s`.
pub fn index_of(s: &[u64], x: u64) -> (r: Option<usize>)
    ensures
        match r {
            Some(i) => first_index_of(s@, x, 0) == Some(i as int),
            None => first_index_of(s@, x, 0) is None,
        },
{
    let mut i: usize = 0;
    while i < s.len()
        invariant
            i <= s@.len(),
            first_index_of(s@, x, 0) == first_index_of(s@, x, i as int),
        decreases s@.len() - i,
    {
        if s[i] == x {
            return Some(i);
        }
        i = i + 1;
    }
    None
}

/// (column, row) of the focused window within `columns`, if it is there.
pub fn focused_column_position(columns: &[Vec<u64>], focus: u64) -> (r: Option<(usize, usize)>)
    ensures
        match r {
            Some((c, row)) => position_spec(id_columns(columns@), focus, 0) == Some(
                (c as int, row as int),
            ),
            None => position_spec(id_columns(columns@), focus, 0) is None,
        },
{
    let ghost cs = id_columns(columns@);
    let mut c: usize = 0;
    while c < columns.len()
        invariant
            c <= columns@.len(),
            cs == id_columns(columns@),
            position_spec(cs, focus, 0) == position_spec(cs, focus, c as int),
        decreases columns@.len() - c,
    {
        proof {
            assert(cs[c as int] == columns@[c as int]@);
        }
        match index_of(columns[c].as_slice(), focus) {
            Some(row) => {
                return Some((c, row));
            },
            None => {},
        }
        c = c + 1;
    }
    None
}

/// The row to land on when paging onto a column of `len` windows: its
/// remembered row, clamped to the column.
pub open spec fn landing_row_spec(len: int, remembered: Option<usize>) -> int {
    let want: int = match remembered {
        Some(r) => r as int,
        None => 0,
    };
    let last: int = if len > 0 {
        len - 1
    } else {
        0
    };
    if want < last {
        want
    } else {
        last
    }
}

/// Row to land on when paging onto a column: its remembered row.
pub fn landing_row(len: usize, remembered: Option<usize>) -> (row: usize)
    ensures
        row == landing_row_spec(len as int, remembered),
{
    let want = match remembered {
        Some(r) => r,
        None => 0,
    };
    let last = if len > 0 {
        len - 1
    } else {
        0
    };
    if want < last {
        want
    } else {
        last
    }
}

/// `i` moved by `delta`, saturating at 0 below and at `last` above.
pub open spec fn step_clamped(i: int, delta: int, last: int) -> int {
    if delta < 0 {
        if i + delta < 0 {
            0
        } else {
            i + delta
        }
    } else if i + delta > last {
        last
    } else {
        i + delta
    }
}

fn step_index(i: usize, delta: isize, last: usize) -> (r: usize)
    requires
        i <= last,
    ensures
        r == step_clamped(i as int, delta as int, last as int),
{
    let target: i128 = i as i128 + delta as i128;
    if delta < 0 {
        if target < 0 {
            0
        } else {
            target as usize
        }
    } else if target > last as i128 {
        last
    } else {
        target as usize
    }
}

/// The column to focus after scrolling `dx` columns: from the focused
/// column (else the remembered one, clamped), saturating at both ends;
/// `None` when nothing moves.
pub open spec fn scroll_column_spec(
    focused: Option<usize>,
    remembered: usize,
    dx: int,
    ncols: int,
) -> Option<int> {
    let from: int = match focused {
        Some(c) => c as int,
        None => remembered as int,
    };
    let current = if from < ncols - 1 {
        from
    } else {
        ncols - 1
    };
    let next = step_clamped(current, dx, ncols - 1);
    if dx == 0 || next == current {
        None
    } else {
        Some(next)
    }
}

/// Where horizontal scrolling of the focused column lands.
pub fn scroll_column_step(focused: Option<usize>, remembered: usize, dx: isize, ncols: usize) -> (r:
    Option<usize>)
    requires
        ncols > 0,
    ensures
        match r {
            Some(n) => scroll_column_spec(focused, remembered, dx as int, ncols as int) == Some(
                n as int,
            ),
            None => scroll_column_spec(focused, remembered, dx as int, ncols as int) is None,
        },
{
    if dx == 0 {
        return None;
    }
    let from = match focused {
        Some(c) => c,
        None => remembered,
    };
    let current = if from < ncols - 1 {
        from
    } else {
        ncols - 1
    };
    let next = step_index(current, dx, ncols - 1);
    if next == current {
        None
    } else {
        Some(next)
    }
}

/// What vertical scrolling within the focused column does.
#[derive(Clone, Copy, Debug, PartialEq, Eq, Structural)]
pub enum StackMove {
    /// Nothing happens.
    Stay,
    /// Switch the workspace by one in this direction (the stack end was hit,
    /// or the output has no windows).
    SwitchWorkspace(isize),
    /// Focus this row of the focused column.
    FocusRow(usize),
}

/// The sign of `d`.
pub open spec fn signum(d: int) -> isize {
    if d < 0 {
        -1isize
    } else if d > 0 {
        1isize
    } else {
        0isize
    }
}

/// Vertical scrolling by `dy` rows: nothing for `dy == 0` or when focus is
/// not in a column; a workspace switch when the output is empty or the
/// stack end is reached; else the new row.
pub open spec fn stack_move_spec(dy: int, windows_empty: bool, focused: Option<(usize, usize)>) -> StackMove {
    if dy == 0 {
        StackMove::Stay
    } else if windows_empty {
        StackMove::SwitchWorkspace(signum(dy))
    } else {
        match focused {
            None => StackMove::Stay,
            Some((row, len)) => {
                let next = step_clamped(row as int, dy, len - 1);
                if next == row {
                    StackMove::SwitchWorkspace(signum(dy))
                } else {
                    StackMove::FocusRow(next as usize)
                }
            },
        }
    }
}

/// Decide what scrolling the focused column by `dy` rows does; `focused`
/// is the focused row and its column's length.
pub fn scroll_stack_step(dy: isize, windows_empty: bool, focused: Option<(usize, usize)>) -> (r:
    StackMove)
    requires
        focused matches Some((row, len)) ==> row < len,
    ensures
        r == stack_move_spec(dy as int, windows_empty, focused),
{
    let sign: isize = if dy < 0 {
        -1
    } else if dy > 0 {
        1
    } else {
        0
    };
    if dy == 0 {
        return StackMove::Stay;
    }
    if windows_empty {
        return StackMove::SwitchWorkspace(sign);
    }
    match focused {
        None => StackMove::Stay,
        Some((row, len)) => {
            let next = step_index(row, dy, len - 1);
            if next == row {
                StackMove::SwitchWorkspace(sign)
            } else {
                StackMove::FocusRow(next)
            }
        },
    }
}

} // verus!

verus! {

/// The largest of `m` and the entries of `s`.
pub open spec fn seq_max(m: int, s: Seq<usize>) -> int
    decreases s.len(),
{
    if s.len() == 0 {
        m
    } else {
        let rest = seq_max(m, s.drop_last());
        if s.last() > rest {
            s.last() as int
        } else {
            rest
        }
    }
}

/// Highest workspace used on an output: its active one and those of the
/// windows on it.
pub fn max_workspace_on(active: usize, window_workspaces: &[usize]) -> (m: usize)
    ensures
        m == seq_max(active as int, window_workspaces@),
{
    let mut m = active;
    let mut i: usize = 0;
    while i < window_workspaces.len()
        invariant
            i <= window_workspaces@.len(),
            m == seq_max(active as int, window_workspaces@.take(i as int)),
        decreases window_workspaces@.len() - i,
    {
        proof {
            assert(window_workspaces@.take(i + 1).drop_last() =~= window_workspaces@.take(i as int));
        }
        if window_workspaces[i] > m {
            m = window_workspaces[i];
        }
        i = i + 1;
    }
    proof {
        assert(window_workspaces@.take(window_workspaces@.len() as int) =~= window_workspaces@);
    }
    m
}

/// `a + b` saturated at `usize::MAX`.
pub open spec fn sat_add(a: int, b: int) -> int {
    if a + b > usize::MAX {
        usize::MAX as int
    } else {
        a + b
    }
}

/// The workspace that `switch_workspace(direction)` shows: up to one past
/// the highest used, not below 0; `None` when it is the current one.
pub open spec fn switch_target_spec(old: int, max_ws: int, direction: int) -> Option<int> {
    let next = if direction < 0 {
        if old + direction < 0 {
            0
        } else {
            old + direction
        }
    } else {
        let up = sat_add(old, direction);
        let cap = sat_add(max_ws, 1);
        if up < cap {
            up
        } else {
            cap
        }
    };
    if next == old {
        None
    } else {
        Some(next)
    }
}

/// Target of a relative workspace switch.
pub fn switch_workspace_target(old: usize, max_ws: usize, direction: isize) -> (r: Option<usize>)
    ensures
        match r {
            Some(n) => switch_target_spec(old as int, max_ws as int, direction as int) == Some(
                n as int,
            ),
            None => switch_target_spec(old as int, max_ws as int, direction as int) is None,
        },
{
    let next: usize = if direction < 0 {
        let t: i128 = old as i128 + direction as i128;
        if t < 0 {
            0
        } else {
            t as usize
        }
    } else {
        let up: usize = if old as u128 + direction as u128 > usize::MAX as u128 {
            usize::MAX
        } else {
            old + direction as usize
        };
        let cap: usize = if max_ws == usize::MAX {
            usize::MAX
        } else {
            max_ws + 1
        };
        if up < cap {
            up
        } else {
            cap
        }
    };
    if next == old {
        None
    } else {
        Some(next)
    }
}

/// The workspace that `goto_workspace(n)` shows: `n`, at most one past the
/// highest used; `None` when it is the current one.
pub open spec fn goto_target_spec(old: int, max_ws: int, n: int) -> Option<int> {
    let cap = sat_add(max_ws, 1);
    let next = if n < cap {
        n
    } else {
        cap
    };
    if next == old {
        None
    } else {
        Some(next)
    }
}

/// Target of a direct workspace jump.
pub fn goto_workspace_target(old: usize, max_ws: usize, n: usize) -> (r: Option<usize>)
    ensures
        match r {
            Some(t) => goto_target_spec(old as int, max_ws as int, n as int) == Some(t as int),
            None => goto_target_spec(old as int, max_ws as int, n as int) is None,
        },
{
    let cap: usize = if max_ws == usize::MAX {
        usize::MAX
    } else {
        max_ws + 1
    };
    let next = if n < cap {
        n
    } else {
        cap
    };
    if next == old {
        None
    } else {
        Some(next)
    }
}

/// The index that Alt+Tab focuses among `len` windows: the next (or
/// previous) one after the focused one (else the first), wrapping around.
pub open spec fn cycle_spec(len: int, current: Option<usize>, backwards: bool) -> int {
    if len == 0 {
        0
    } else {
        let c: int = match current {
            Some(i) => i as int,
            None => 0,
        };
        if backwards {
            (c + len - 1) % len
        } else {
            (c + 1) % len
        }
    }
}

/// Alt+Tab: the window index to focus.
pub fn cycle_focus_next(len: usize, current: Option<usize>, backwards: bool) -> (next: usize)
    requires
        current matches Some(i) ==> i < len,
    ensures
        next == cycle_spec(len as int, current, backwards),
        len > 0 ==> next < len,
{
    if len == 0 {
        return 0;
    }
    let c = match current {
        Some(i) => i,
        None => 0,
    };
    if backwards {
        if c == 0 {
            assert((c + len - 1) % (len as int) == len - 1) by (nonlinear_arith)
                requires c == 0, len > 0;
            len - 1
        } else {
            assert((c + len - 1) % (len as int) == c - 1) by (nonlinear_arith)
                requires 0 < c < len;
            c - 1
        }
    } else if c + 1 == len {
        assert((c + 1) % (len as int) == 0) by (nonlinear_arith)
            requires c + 1 == len, len > 0;
        0
    } else {
        assert((c + 1) % (len as int) == c + 1) by (nonlinear_arith)
            requires c + 1 < len;
        c + 1
    }
}

/// The position the focused window moves to (one step, saturating).
pub fn move_focus_target(current: usize, len: usize, backwards: bool) -> (t: usize)
    requires
        current < len,
    ensures
        t == (if backwards {
            if current == 0 {
                0
            } else {
                current - 1
            }
        } else if current + 1 < len {
            current + 1
        } else {
            len - 1
        }),
{
    if backwards {
        if current == 0 {
            0
        } else {
            current - 1
        }
    } else if current + 1 < len {
        current + 1
    } else {
        len - 1
    }
}

/// Stack the focused window under its left neighbour: the window at
/// `current` (not the first) stops opening a column. Returns the window to
/// focus, `None` (and no change) when there is nothing to do.
pub fn consume_into_column(windows: &[u64], starts: &mut HashSet<u64>, current: Option<usize>) -> (r:
    Option<u64>)
    requires
        current matches Some(i) ==> i < windows@.len(),
    ensures
        match r {
            Some(id) => {
                &&& current matches Some(i) && 0 < i && windows@[i as int] == id
                &&& old(starts)@.contains(id)
                &&& final(starts)@ == old(starts)@.remove(id)
            },
            None => {
                &&& final(starts)@ == old(starts)@
                &&& (current matches Some(i) ==> i == 0 || !old(starts)@.contains(windows@[i as int]))
            },
        },
{
    let i = match current {
        Some(i) => i,
        None => {
            return None;
        },
    };
    if i == 0 {
        return None;
    }
    let id = windows[i];
    if !starts.contains(&id) {
        return None;
    }
    starts.remove(&id);
    Some(id)
}

/// Lift the focused window out of its stack: it opens a column, and so does
/// the window after it. Returns the window to focus, `None` (and no change)
/// when it already opens one.
pub fn expel_from_column(windows: &[u64], starts: &mut HashSet<u64>, current: Option<usize>) -> (r:
    Option<u64>)
    requires
        current matches Some(i) ==> i < windows@.len(),
    ensures
        match r {
            Some(id) => {
                &&& current is Some && windows@[current->0 as int] == id
                &&& !old(starts)@.contains(id)
                &&& final(starts)@ == (if current->0 + 1 < windows@.len() {
                    old(starts)@.insert(id).insert(windows@[current->0 + 1])
                } else {
                    old(starts)@.insert(id)
                })
            },
            None => {
                &&& final(starts)@ == old(starts)@
                &&& (current matches Some(i) ==> old(starts)@.contains(windows@[i as int]))
            },
        },
{
    let i = match current {
        Some(i) => i,
        None => {
            return None;
        },
    };
    let id = windows[i];
    if starts.contains(&id) {
        return None;
    }
    starts.insert(id);
    if i + 1 < windows.len() {
        starts.insert(windows[i + 1]);
    }
    Some(id)
}

} // verus!

verus! {

/// `order` with the first occurrences of `a` and `b` exchanged, when both
/// occur.
pub open spec fn swap_ids_spec(order: Seq<u64>, a: u64, b: u64) -> Seq<u64> {
    match (first_index_of(order, a, 0), first_index_of(order, b, 0)) {
        (Some(pa), Some(pb)) => order.update(pa, b).update(pb, a),
        _ => order,
    }
}

/// Exchange the positions of windows `a` and `b` in the column order.
pub fn swap_ids(order: &mut Vec<u64>, a: u64, b: u64)
    ensures
        final(order)@ == swap_ids_spec(old(order)@, a, b),
{
    let pa = index_of(order.as_slice(), a);
    let pb = index_of(order.as_slice(), b);
    match (pa, pb) {
        (Some(i), Some(j)) => {
            proof {
                lemma_first_index_hit(old(order)@, a, 0);
                lemma_first_index_hit(old(order)@, b, 0);
            }
            order.set(i, b);
            order.set(j, a);
        },
        _ => {},
    }
}

proof fn lemma_first_index_hit(s: Seq<u64>, x: u64, i: int)
    requires
        0 <= i,
    ensures
        first_index_of(s, x, i) matches Some(k) ==> i <= k < s.len() && s[k] == x,
    decreases s.len() - i,
{
    if i < s.len() && s[i] != x {
        lemma_first_index_hit(s, x, i + 1);
    }
}

/// One row up (or down) within a column of `len` rows, saturating.
pub open spec fn row_step(row: int, len: int, backwards: bool) -> int {
    if backwards {
        if row == 0 {
            0
        } else {
            row - 1
        }
    } else if row + 1 < len {
        row + 1
    } else {
        len - 1
    }
}

/// Move the focused window up/down within its scroll column: swap it with
/// the row above/below in the column order. When the swap involves the
/// column's top, the window that ends on top becomes the column start and
/// remembers the landing row. Returns the moved window (to focus), `None`
/// (and no change) at the stack end or without focus.
pub fn move_row(
    columns: &[Vec<u64>],
    focused: Option<(usize, usize)>,
    backwards: bool,
    starts: &mut HashSet<u64>,
    rows: &mut HashMap<u64, usize>,
    order: &mut Vec<u64>,
) -> (r: Option<u64>)
    requires
        focused matches Some((c, row)) ==> c < columns@.len() && row < columns@[c as int]@.len(),
    ensures
        match r {
            None => {
                &&& final(starts)@ == old(starts)@
                &&& final(rows)@ == old(rows)@
                &&& final(order)@ == old(order)@
                &&& (focused matches Some((c, row)) ==> row_step(
                    row as int,
                    columns@[c as int]@.len() as int,
                    backwards,
                ) == row)
            },
            Some(moved) => {
                let (fc, fr) = match focused {
                    Some(p) => p,
                    None => (0usize, 0usize),
                };
                let c = fc as int;
                let row = fr as int;
                let col = columns@[c]@;
                let next = row_step(row, col.len() as int, backwards);
                let other = col[next];
                let top = if row < next {
                    col[next]
                } else {
                    col[row]
                };
                &&& focused is Some
                &&& next != row
                &&& moved == col[row]
                &&& final(order)@ == swap_ids_spec(old(order)@, moved, other)
                &&& final(starts)@ == (if row == 0 || next == 0 {
                    old(starts)@.remove(moved).remove(other).insert(top)
                } else {
                    old(starts)@
                })
                &&& final(rows)@ == (if row == 0 || next == 0 {
                    old(rows)@.remove(moved).remove(other).insert(top, next as usize)
                } else {
                    old(rows)@
                })
            },
        },
{
    let (c, row) = match focused {
        Some(p) => p,
        None => {
            return None;
        },
    };
    let len = columns[c].len();
    let next = if backwards {
        if row == 0 {
            0
        } else {
            row - 1
        }
    } else if row + 1 < len {
        row + 1
    } else {
        len - 1
    };
    if next == row {
        return None;
    }
    let id_a = columns[c][row];
    let id_b = columns[c][next];
    if row == 0 || next == 0 {
        let top = if row < next {
            columns[c][next]
        } else {
            columns[c][row]
        };
        starts.remove(&id_a);
        starts.remove(&id_b);
        starts.insert(top);
        rows.remove(&id_a);
        rows.remove(&id_b);
        rows.insert(top, next);
    }
    swap_ids(order, id_a, id_b);
    Some(id_a)
}

} // verus!

verus! {

/// Alt+Tab forward then backward focuses the window it started from.
pub proof fn lemma_cycle_forward_back(len: int, i: usize)
    requires
        0 <= i < len,
        len <= usize::MAX,
    ensures
        cycle_spec(len, Some(cycle_spec(len, Some(i), false) as usize), true) == i,
{
    let j = cycle_spec(len, Some(i), false);
    if i + 1 < len {
        vstd::arithmetic::div_mod::lemma_fundamental_div_mod_converse_mod(i + 1, len, 0, i + 1);
        vstd::arithmetic::div_mod::lemma_fundamental_div_mod_converse_mod(i + 1 + len - 1, len, 1, i as int);
    } else {
        vstd::arithmetic::div_mod::lemma_fundamental_div_mod_converse_mod(i + 1, len, 1, 0);
        vstd::arithmetic::div_mod::lemma_fundamental_div_mod_converse_mod(len - 1, len, 0, len - 1);
    }
}

/// Switching and jumping never go beyond one past the highest used
/// workspace (nor below 0).
pub proof fn lemma_workspace_targets_bounded(old: usize, max_ws: usize, direction: isize, n: usize)
    ensures
        switch_target_spec(old as int, max_ws as int, direction as int) matches Some(t) ==> 0 <= t
            && (t <= max_ws + 1 || t <= old),
        goto_target_spec(old as int, max_ws as int, n as int) matches Some(t) ==> 0 <= t <= max_ws + 1,
{
}

/// Exchanging the same two windows twice restores the column order (each
/// window occurs once in it).
pub proof fn lemma_swap_twice(order: Seq<u64>, a: u64, b: u64)
    requires
        a != b,
        order.no_duplicates(),
    ensures
        swap_ids_spec(swap_ids_spec(order, a, b), a, b) == order,
{
    lemma_first_index_hit(order, a, 0);
    lemma_first_index_hit(order, b, 0);
    match (first_index_of(order, a, 0), first_index_of(order, b, 0)) {
        (Some(pa), Some(pb)) => {
            let once = order.update(pa, b).update(pb, a);
            lemma_first_index_prefix(order, a, pa);
            lemma_first_index_prefix(order, b, pb);
            assert(pa != pb);
            assert forall|k: int| 0 <= k < order.len() && k != pa implies order[k] != a by {}
            assert forall|k: int| 0 <= k < order.len() && k != pb implies order[k] != b by {}
            if pa < pb {
                lemma_first_index_found(once, b, pa);
                lemma_first_index_found(once, a, pb);
            } else {
                lemma_first_index_found(once, a, pb);
                lemma_first_index_found(once, b, pa);
            }
            lemma_first_index_hit(once, a, 0);
            lemma_first_index_hit(once, b, 0);
            assert(once.update(first_index_of(once, a, 0)->0, b).update(first_index_of(once, b, 0)->0, a) =~= order);
        },
        _ => {},
    }
}

proof fn lemma_first_index_prefix(s: Seq<u64>, x: u64, p: int)
    requires
        first_index_of(s, x, 0) == Some(p),
    ensures
        forall|k: int| 0 <= k < p ==> s[k] != x,
{
    assert forall|k: int| 0 <= k < p implies s[k] != x by {
        lemma_first_index_skip(s, x, 0, k);
    }
}

proof fn lemma_first_index_skip(s: Seq<u64>, x: u64, i: int, k: int)
    requires
        0 <= i <= k,
        first_index_of(s, x, i) matches Some(p) && k < p,
    ensures
        s[k] != x,
    decreases k - i,
{
    lemma_first_index_hit(s, x, i);
    if i < k {
        assert(s[i] != x);
        lemma_first_index_skip(s, x, i + 1, k);
    } else {
        assert(s[i] != x);
    }
}

/// The first occurrence of `x` is at `p` when nothing before `p` is `x`.
proof fn lemma_first_index_found(s: Seq<u64>, x: u64, p: int)
    requires
        0 <= p < s.len(),
        s[p] == x,
        forall|k: int| 0 <= k < p ==> s[k] != x,
    ensures
        first_index_of(s, x, 0) == Some(p),
{
    lemma_first_index_from(s, x, 0, p);
}

proof fn lemma_first_index_from(s: Seq<u64>, x: u64, i: int, p: int)
    requires
        0 <= i <= p < s.len(),
        s[p] == x,
        forall|k: int| i <= k < p ==> s[k] != x,
    ensures
        first_index_of(s, x, i) == Some(p),
    decreases p - i,
{
    if i < p {
        lemma_first_index_from(s, x, i + 1, p);
    }
}

} // verus!

verus! {

/// The top window of the first column, from index `c` on, that holds `id`.
pub open spec fn anchor_from(cols: Seq<Seq<u64>>, id: u64, c: int) -> Option<u64>
    decreases cols.len() - c,
{
    if c < 0 || c >= cols.len() {
        None
    } else if first_index_of(cols[c], id, 0) is Some {
        if cols[c].len() > 0 {
            Some(cols[c][0])
        } else {
            None
        }
    } else {
        anchor_from(cols, id, c + 1)
    }
}

/// The top window of the first of `columns` that holds `id`.
pub fn anchor_in_columns(columns: &Vec<Vec<u64>>, id: u64) -> (r: Option<u64>)
    ensures
        r == anchor_from(id_columns(columns@), id, 0),
{
    let ghost cs = id_columns(columns@);
    let mut c: usize = 0;
    while c < columns.len()
        invariant
            c <= columns@.len(),
            cs == id_columns(columns@),
            anchor_from(cs, id, 0) == anchor_from(cs, id, c as int),
        decreases columns@.len() - c,
    {
        assert(cs[c as int] == columns@[c as int]@);
        if index_of(columns[c].as_slice(), id).is_some() {
            if columns[c].len() > 0 {
                let top = columns[c][0];
                proof {
                    assert(cs[c as int][0] == columns@[c as int]@[0]);
                }
                return Some(top);
            }
            return None;
        }
        c = c + 1;
    }
    None
}

/// The window at the top of the scroll column that holds `id`, among the
/// output's ordered `windows`.
pub fn column_anchor(windows: &[u64], starts: &HashSet<u64>, id: u64) -> (r: Option<u64>)
    ensures
        r == anchor_from(columns_spec(windows@, starts@), id, 0),
{
    let cols = columns_of(windows, starts);
    anchor_in_columns(&cols, id)
}

} // verus!
