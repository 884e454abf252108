//! The border ring around a window as rectangles: for square corners the
//! four edges, for rounded corners one rectangle per run of identical row
//! intervals of the outer rounded rectangle minus the inner one.
use vstd::prelude::*;
use crate::geometry::{imax, imin, fits_i32, rect_contains_spec, rect_of, Point, Rect};

verus! {

/// `m` is the integer square root of `n`.
pub open spec fn is_isqrt(n: int, m: int) -> bool {
    0 <= m && m * m <= n && n < (m + 1) * (m + 1)
}

/// `floor(sqrt(n))`.
pub open spec fn isqrt_spec(n: int) -> int {
    choose|m: int| is_isqrt(n, m)
}

proof fn lemma_isqrt_unique(n: int, a: int, b: int)
    requires
        is_isqrt(n, a),
        is_isqrt(n, b),
    ensures
        a == b,
{
    if a < b {
        assert((a + 1) * (a + 1) <= b * b) by (nonlinear_arith)
            requires
                0 <= a,
                a + 1 <= b,
        ;
    } else if b < a {
        assert((b + 1) * (b + 1) <= a * a) by (nonlinear_arith)
            requires
                0 <= b,
                b + 1 <= a,
        ;
    }
}

/// `floor(sqrt(n))` by bisection, for `n <= bound * bound`.
fn isqrt(n: u64, bound: u64) -> (m: u64)
    requires
        n <= bound * bound,
        bound < 0x1_0000_0000,
    ensures
        is_isqrt(n as int, m as int),
        m == isqrt_spec(n as int),
        m <= bound,
{
    let mut lo: u64 = 0;
    let mut hi: u64 = bound + 1;
    proof {
        assert(n < (bound + 1) * (bound + 1)) by (nonlinear_arith)
            requires
                n <= bound * bound,
                0 <= bound,
        ;
    }
    while hi - lo > 1
        invariant
            lo < hi <= bound + 1,
            bound < 0x1_0000_0000,
            lo * lo <= n,
            n < hi * hi,
        decreases hi - lo,
    {
        let mid = lo + (hi - lo) / 2;
        proof {
            assert(mid * mid <= bound * bound) by (nonlinear_arith)
                requires
                    0 <= mid <= bound,
            ;
            assert(bound * bound < 0x1_0000_0000 * 0x1_0000_0000) by (nonlinear_arith)
                requires
                    0 <= bound < 0x1_0000_0000,
            ;
        }
        if mid * mid <= n {
            lo = mid;
        } else {
            hi = mid;
        }
    }
    proof {
        assert(hi == lo + 1);
        assert(is_isqrt(n as int, lo as int));
        assert(exists|m: int| is_isqrt(n as int, m));
        lemma_isqrt_unique(n as int, lo as int, isqrt_spec(n as int));
    }
    lo
}

/// A corner row `dy` rows in from the top or bottom edge of a rounded
/// rectangle spanning columns `l..=right` with radius `r`.
pub open spec fn corner_span(l: int, right: int, r: int, dy: int) -> Option<(int, int)> {
    if dy < 0 {
        Some((l, right))
    } else {
        let h = dy - r;
        let cut = isqrt_spec(r * r - h * h);
        let x0 = imax(l + r - cut, l);
        let x1 = imin(right - r + cut, right);
        if x0 > x1 {
            None
        } else {
            Some((x0, x1))
        }
    }
}

/// The inclusive column interval that the rectangle at `(l, t)` of size
/// `w` x `h`, with corners rounded to radius `r`, covers on row `y`.
pub open spec fn row_span(l: int, t: int, w: int, h: int, r: int, y: int) -> Option<(int, int)> {
    let right = l + w - 1;
    let b = t + h - 1;
    if y < t || y > b {
        None
    } else if r <= 0 {
        Some((l, right))
    } else if y < t + r {
        corner_span(l, right, r, y - t)
    } else if y > b - r {
        corner_span(l, right, r, b - y)
    } else {
        Some((l, right))
    }
}

/// Coordinates the computations below stay far from `i64` overflow with.
pub open spec fn small(v: int) -> bool {
    -0x100_0000_0000 <= v <= 0x100_0000_0000
}

pub open spec fn span_view(s: Option<(i64, i64)>) -> Option<(int, int)> {
    match s {
        Some((a, b)) => Some((a as int, b as int)),
        None => None,
    }
}

/// The interval, if any, lies within `lo..=hi`.
pub open spec fn span_within(s: Option<(i64, i64)>, lo: int, hi: int) -> bool {
    match s {
        Some(o) => lo <= o.0 && o.1 <= hi,
        None => true,
    }
}

fn corner_span_exec(l: i64, right: i64, r: i64, dy: i64) -> (s: Option<(i64, i64)>)
    requires
        small(l as int),
        -0x300_0000_0000 <= right <= 0x300_0000_0000,
        0 < r < 0x8000_0000,
        dy < r,
    ensures
        span_view(s) == corner_span(l as int, right as int, r as int, dy as int),
        span_within(s, l as int, right as int),
{
    if dy < 0 {
        return Some((l, right));
    }
    let h = dy - r;
    proof {
        assert(h * h <= r * r) by (nonlinear_arith)
            requires
                -r <= h < 0,
        ;
        assert(r * r < 0x8000_0000 * 0x8000_0000) by (nonlinear_arith)
            requires
                0 < r < 0x8000_0000,
        ;
        assert(h * h >= 0) by (nonlinear_arith);
    }
    let n = (r * r - h * h) as u64;
    let bound = r as u64;
    proof {
        assert(n as int == r * r - h * h);
        assert(bound as int == r as int);
        assert(n <= bound * bound);
    }
    let cut = isqrt(n, bound) as i64;
    let a = l + r - cut;
    let x0 = if a > l {
        a
    } else {
        l
    };
    let c = right - r + cut;
    let x1 = if c < right {
        c
    } else {
        right
    };
    if x0 > x1 {
        None
    } else {
        Some((x0, x1))
    }
}

/// `row_span`, computed.
fn row_span_exec(l: i64, t: i64, w: i64, h: i64, r: i64, y: i64) -> (s: Option<(i64, i64)>)
    requires
        small(l as int),
        small(t as int),
        small(w as int),
        small(h as int),
        small(y as int),
        r < 0x8000_0000,
    ensures
        span_view(s) == row_span(l as int, t as int, w as int, h as int, r as int, y as int),
        span_within(s, l as int, l + w - 1),
{
    let right = l + w - 1;
    let b = t + h - 1;
    if y < t || y > b {
        None
    } else if r <= 0 {
        Some((l, right))
    } else if y < t + r {
        corner_span_exec(l, right, r, y - t)
    } else if y > b - r {
        corner_span_exec(l, right, r, b - y)
    } else {
        Some((l, right))
    }
}

/// What is left of the outer interval once the inner one is cut out: at
/// most two intervals, the left one first.
pub open spec fn ring_pieces(os: Option<(int, int)>, is: Option<(int, int)>) -> Seq<(int, int)> {
    match os {
        None => Seq::empty(),
        Some(o) => match is {
            None => seq![o],
            Some(i) => if i.1 < o.0 || i.0 > o.1 {
                seq![o]
            } else {
                let first = if o.0 < i.0 {
                    seq![(o.0, i.0 - 1)]
                } else {
                    Seq::empty()
                };
                let running = imax(o.0, i.1 + 1);
                first + if running <= o.1 {
                    seq![(running, o.1)]
                } else {
                    Seq::empty()
                }
            },
        },
    }
}

/// The outer rounded rectangle's interval on row `row`: the window grown
/// by `bw` on every side, with radius `r + bw`.
pub open spec fn outer_span(x: int, y: int, w: int, h: int, bw: int, r: int, row: int) -> Option<(int, int)> {
    row_span(x - bw, y - bw, w + 2 * bw, h + 2 * bw, r + bw, row)
}

/// The window's own rounded interval on row `row`.
pub open spec fn inner_span(x: int, y: int, w: int, h: int, r: int, row: int) -> Option<(int, int)> {
    row_span(x, y, w, h, r, row)
}

/// The ring's `(row, first column, last column)` intervals over the first
/// `k` rows of the outer rectangle, top to bottom, left to right.
pub open spec fn ring_rows(x: int, y: int, w: int, h: int, bw: int, r: int, k: nat) -> Seq<(int, int, int)>
    decreases k,
{
    if k == 0 {
        Seq::empty()
    } else {
        let row = y - bw + k - 1;
        ring_rows(x, y, w, h, bw, r, (k - 1) as nat) + at_row(
            ring_pieces(outer_span(x, y, w, h, bw, r, row), inner_span(x, y, w, h, r, row)),
            row,
        )
    }
}

/// Intervals tagged with their row.
pub open spec fn at_row(ps: Seq<(int, int)>, row: int) -> Seq<(int, int, int)> {
    ps.map_values(|p: (int, int)| (row, p.0, p.1))
}

/// An interval well inside the range `small` allows.
pub open spec fn span_small(s: Option<(i64, i64)>) -> bool {
    match s {
        Some(o) => -0x80_0000_0000 <= o.0 <= 0x80_0000_0000 && -0x80_0000_0000 <= o.1 <= 0x80_0000_0000,
        None => true,
    }
}

pub open spec fn entry_small(t: (i64, i64, i64)) -> bool {
    small(t.0 as int) && small(t.1 as int) && small(t.2 as int)
}

pub open spec fn rows_view(s: Seq<(i64, i64, i64)>) -> Seq<(int, int, int)> {
    s.map_values(|t: (i64, i64, i64)| (t.0 as int, t.1 as int, t.2 as int))
}

/// Append the pieces of one row.
fn push_row_pieces(rows: &mut Vec<(i64, i64, i64)>, row: i64, os: Option<(i64, i64)>, is: Option<(i64, i64)>)
    requires
        span_small(os),
        span_small(is),
        small(row as int),
    ensures
        rows_view(final(rows)@) == rows_view(old(rows)@) + at_row(
            ring_pieces(span_view(os), span_view(is)),
            row as int,
        ),
        final(rows)@.len() <= old(rows)@.len() + 2,
        forall|k: int| 0 <= k < old(rows)@.len() ==> final(rows)@[k] == old(rows)@[k],
        forall|k: int| old(rows)@.len() <= k < final(rows)@.len() ==> entry_small(#[trigger] final(rows)@[k]),
{
    let ghost before = rows@;
    let ghost ps = ring_pieces(span_view(os), span_view(is));
    match os {
        None => {},
        Some((oa, ob)) => match is {
            None => {
                rows.push((row, oa, ob));
            },
            Some((ia, ib)) => {
                if ib < oa || ia > ob {
                    rows.push((row, oa, ob));
                } else {
                    if oa < ia {
                        rows.push((row, oa, ia - 1));
                    }
                    let running = if oa > ib + 1 {
                        oa
                    } else {
                        ib + 1
                    };
                    if running <= ob {
                        rows.push((row, running, ob));
                    }
                }
            },
        },
    }
    proof {
        assert(rows_view(rows@) =~= rows_view(before) + at_row(ps, row as int));
    }
}

/// The ring's row intervals for a window at `(x, y)` of size `w` x `h`,
/// border width `bw` and inner radius `r`.
fn ring_rows_exec(x: i64, y: i64, w: i64, h: i64, bw: i64, r: i64) -> (rows: Vec<(i64, i64, i64)>)
    requires
        fits_i32(x as int),
        fits_i32(y as int),
        fits_i32(w as int),
        fits_i32(h as int),
        1 <= bw,
        0 < r,
        r + bw < 0x8000_0000,
    ensures
        rows_view(rows@) == ring_rows(x as int, y as int, w as int, h as int, bw as int, r as int, imax(h + 2 * bw, 0) as nat),
        rows@.len() <= 2 * imax(h + 2 * bw, 0),
        forall|k: int| 0 <= k < rows@.len() ==> entry_small(#[trigger] rows@[k]),
{
    let top = y - bw;
    let oh = h + 2 * bw;
    let mut rows: Vec<(i64, i64, i64)> = Vec::new();
    let mut k: i64 = 0;
    while k < oh
        invariant
            fits_i32(x as int),
            fits_i32(y as int),
            fits_i32(w as int),
            fits_i32(h as int),
            1 <= bw,
            0 < r,
            r + bw < 0x8000_0000,
            top == y - bw,
            oh == h + 2 * bw,
            0 <= k <= imax(oh as int, 0),
            rows_view(rows@) == ring_rows(x as int, y as int, w as int, h as int, bw as int, r as int, k as nat),
            rows@.len() <= 2 * k,
            forall|j: int| 0 <= j < rows@.len() ==> entry_small(#[trigger] rows@[j]),
        decreases oh - k,
    {
        let row = top + k;
        let os = row_span_exec(x - bw, top, w + 2 * bw, oh, r + bw, row);
        let is = row_span_exec(x, y, w, h, r, row);
        push_row_pieces(&mut rows, row, os, is);
        proof {
            assert(ring_rows(x as int, y as int, w as int, h as int, bw as int, r as int, (k + 1) as nat)
                == ring_rows(x as int, y as int, w as int, h as int, bw as int, r as int, k as nat) + at_row(
                ring_pieces(span_view(os), span_view(is)),
                row as int,
            ));
        }
        k = k + 1;
    }
    rows
}

/// The rectangle `q = (x, y, w, h)` ends just above row `row` and spans
/// exactly the columns `x0..=x1`.
pub open spec fn continues(q: (int, int, int, int), row: int, x0: int, x1: int) -> bool {
    q.1 + q.3 == row && q.0 == x0 && q.0 + q.2 - 1 == x1
}

/// The first rectangle from index `i` on that the row interval `t`
/// continues.
pub open spec fn first_continued(rs: Seq<(int, int, int, int)>, t: (int, int, int), i: int) -> Option<int>
    decreases rs.len() - i,
{
    if i < 0 || i >= rs.len() {
        None
    } else if continues(rs[i], t.0, t.1, t.2) {
        Some(i)
    } else {
        first_continued(rs, t, i + 1)
    }
}

/// One row interval added: it lengthens the first rectangle it continues,
/// else it starts a rectangle one row high.
pub open spec fn merge_step(rs: Seq<(int, int, int, int)>, t: (int, int, int)) -> Seq<(int, int, int, int)> {
    match first_continued(rs, t, 0) {
        Some(i) => rs.update(i, (rs[i].0, rs[i].1, rs[i].2, rs[i].3 + 1)),
        None => rs.push((t.1, t.0, t.2 - t.1 + 1, 1)),
    }
}

/// Row intervals merged into rectangles, in order.
pub open spec fn merge_rows(rows: Seq<(int, int, int)>) -> Seq<(int, int, int, int)>
    decreases rows.len(),
{
    if rows.len() == 0 {
        Seq::empty()
    } else {
        merge_step(merge_rows(rows.drop_last()), rows.last())
    }
}

pub open spec fn rects_view(s: Seq<(i64, i64, i64, i64)>) -> Seq<(int, int, int, int)> {
    s.map_values(|q: (i64, i64, i64, i64)| (q.0 as int, q.1 as int, q.2 as int, q.3 as int))
}

proof fn lemma_first_skip(rs: Seq<(int, int, int, int)>, t: (int, int, int), i: int, j: int)
    requires
        0 <= i <= j <= rs.len(),
        forall|k: int| i <= k < j ==> !continues(#[trigger] rs[k], t.0, t.1, t.2),
    ensures
        first_continued(rs, t, i) == first_continued(rs, t, j),
    decreases j - i,
{
    if i < j {
        lemma_first_skip(rs, t, i + 1, j);
    }
}

pub open spec fn rect_small(q: (i64, i64, i64, i64), n: int) -> bool {
    small(q.0 as int) && small(q.1 as int) && -0x400_0000_0000 <= q.2 <= 0x400_0000_0000 && 0 <= q.3 <= n
}

fn continues_exec(q: (i64, i64, i64, i64), row: i64, x0: i64, x1: i64) -> (b: bool)
    requires
        rect_small(q, 0x4000_0000_0000_0000),
        small(row as int),
    ensures
        b == continues((q.0 as int, q.1 as int, q.2 as int, q.3 as int), row as int, x0 as int, x1 as int),
{
    q.1 + q.3 == row && q.0 == x0 && q.0 + q.2 - 1 == x1
}

/// `merge_rows`, computed.
fn merge_rows_exec(rows: &Vec<(i64, i64, i64)>) -> (rects: Vec<(i64, i64, i64, i64)>)
    requires
        rows@.len() < 0x4000_0000_0000_0000,
        forall|k: int| 0 <= k < rows@.len() ==> entry_small(#[trigger] rows@[k]),
    ensures
        rects_view(rects@) == merge_rows(rows_view(rows@)),
        forall|j: int| 0 <= j < rects@.len() ==> rect_small(#[trigger] rects@[j], rows@.len() as int),
{
    let mut rects: Vec<(i64, i64, i64, i64)> = Vec::new();
    let mut i: usize = 0;
    while i < rows.len()
        invariant
            i <= rows@.len(),
            rows@.len() < 0x4000_0000_0000_0000,
            forall|k: int| 0 <= k < rows@.len() ==> entry_small(#[trigger] rows@[k]),
            rects_view(rects@) == merge_rows(rows_view(rows@).take(i as int)),
            forall|j: int| 0 <= j < rects@.len() ==> rect_small(#[trigger] rects@[j], i as int),
        decreases rows@.len() - i,
    {
        let t = rows[i];
        let (row, x0, x1) = t;
        assert(entry_small(rows@[i as int]));
        let ghost rs = rects_view(rects@);
        let ghost tv = (row as int, x0 as int, x1 as int);
        proof {
            assert(rows_view(rows@).take(i + 1).drop_last() =~= rows_view(rows@).take(i as int));
            assert(rows_view(rows@).take(i + 1).last() == tv);
        }
        let mut j: usize = 0;
        while j < rects.len() && !continues_exec(rects[j], row, x0, x1)
            invariant
                j <= rects@.len(),
                rs == rects_view(rects@),
                tv == (row as int, x0 as int, x1 as int),
                small(row as int),
                forall|k: int| 0 <= k < rects@.len() ==> rect_small(#[trigger] rects@[k], i as int),
                i < 0x4000_0000_0000_0000,
                forall|k: int| 0 <= k < j ==> !continues(#[trigger] rs[k], tv.0, tv.1, tv.2),
            decreases rects@.len() - j,
        {
            assert(rs[j as int] == (rects@[j as int].0 as int, rects@[j as int].1 as int, rects@[j as int].2 as int, rects@[j as int].3 as int));
            assert(!continues(rs[j as int], tv.0, tv.1, tv.2));
            j = j + 1;
        }
        proof {
            lemma_first_skip(rs, tv, 0, j as int);
        }
        let ghost old_rects = rects@;
        if j < rects.len() {
            let q = rects[j];
            assert(rect_small(rects@[j as int], i as int));
            rects.set(j, (q.0, q.1, q.2, q.3 + 1));
            proof {
                assert(first_continued(rs, tv, 0) == Some(j as int));
                assert(rects_view(rects@) =~= merge_step(rs, tv));
            }
        } else {
            rects.push((x0, row, x1 - x0 + 1, 1));
            proof {
                assert(first_continued(rs, tv, 0) == None::<int>);
                assert(rects_view(rects@) =~= merge_step(rs, tv));
            }
        }
        assert forall|k: int| 0 <= k < rects@.len() implies rect_small(#[trigger] rects@[k], i + 1) by {
            if k != j && k < old_rects.len() {
                assert(rects@[k] == old_rects[k]);
                assert(rect_small(old_rects[k], i as int));
            }
        }
        i = i + 1;
    }
    proof {
        assert(rows_view(rows@).take(rows@.len() as int) =~= rows_view(rows@));
    }
    rects
}

/// The rectangles `(x, y, w, h)` that make up the border ring around
/// `window`. The border is at least 1 wide and the rounding at least 0;
/// square corners give the four edges (top, bottom, left, right), rounded
/// ones the merged row intervals of the outer rounded rectangle (radius
/// `rounding + border`) minus the window's own (radius `rounding`).
pub open spec fn ring_model(window: Rect, border_width: int, rounding: int) -> Seq<(int, int, int, int)> {
    let bw = imax(border_width, 1);
    let r = imax(rounding, 0);
    let x = window.loc.x as int;
    let y = window.loc.y as int;
    let w = window.size.w as int;
    let h = window.size.h as int;
    if r == 0 {
        seq![
            (x - bw, y - bw, w + 2 * bw, bw),
            (x - bw, y + h, w + 2 * bw, bw),
            (x - bw, y, bw, h),
            (x + w, y, bw, h),
        ]
    } else {
        merge_rows(ring_rows(x, y, w, h, bw, r, imax(h + 2 * bw, 0) as nat))
    }
}

/// The ring's edges, as the compositor computes them in `i32`, do not
/// overflow.
pub open spec fn ring_fits(window: Rect, border_width: int, rounding: int) -> bool {
    let bw = imax(border_width, 1);
    let r = imax(rounding, 0);
    let x = window.loc.x as int;
    let y = window.loc.y as int;
    let w = window.size.w as int;
    let h = window.size.h as int;
    &&& fits_i32(x - bw)
    &&& fits_i32(y - bw)
    &&& fits_i32(2 * bw)
    &&& fits_i32(w + 2 * bw)
    &&& fits_i32(h + 2 * bw)
    &&& fits_i32(x + w)
    &&& fits_i32(y + h)
    &&& fits_i32(x + w + bw)
    &&& fits_i32(y + h + bw)
    &&& fits_i32(r + bw)
}

/// Model rectangles as `Rect`s.
pub open spec fn as_rects(s: Seq<(int, int, int, int)>) -> Seq<Rect> {
    s.map_values(|q: (int, int, int, int)| rect_of(q.0, q.1, q.2, q.3))
}

/// Decompose the border ring around `window_rect` into rectangles.
pub fn border_ring_rects(window_rect: Rect, border_width: i32, rounding: i32) -> (rects: Vec<Rect>)
    requires
        ring_fits(window_rect, border_width as int, rounding as int),
    ensures
        rects@ == as_rects(ring_model(window_rect, border_width as int, rounding as int)),
        rects@.len() == ring_model(window_rect, border_width as int, rounding as int).len(),
        forall|i: int|
            0 <= i < rects@.len() ==> {
                let q = #[trigger] ring_model(window_rect, border_width as int, rounding as int)[i];
                &&& rects@[i].loc.x == q.0
                &&& rects@[i].loc.y == q.1
                &&& rects@[i].size.w == q.2
                &&& rects@[i].size.h == q.3
            },
{
    let ghost model = ring_model(window_rect, border_width as int, rounding as int);
    proof {
        lemma_ring_model_fits(window_rect, border_width as int, rounding as int);
    }
    let bw: i32 = if border_width > 1 {
        border_width
    } else {
        1
    };
    let r: i32 = if rounding > 0 {
        rounding
    } else {
        0
    };
    let x = window_rect.loc.x;
    let y = window_rect.loc.y;
    let w = window_rect.size.w;
    let h = window_rect.size.h;
    if r == 0 {
        let mut v: Vec<Rect> = Vec::new();
        v.push(Rect::new(x - bw, y - bw, w + 2 * bw, bw));
        v.push(Rect::new(x - bw, y + h, w + 2 * bw, bw));
        v.push(Rect::new(x - bw, y, bw, h));
        v.push(Rect::new(x + w, y, bw, h));
        proof {
            assert(v@ =~= as_rects(model));
        }
        return v;
    }
    let rows = ring_rows_exec(x as i64, y as i64, w as i64, h as i64, bw as i64, r as i64);
    let merged = merge_rows_exec(&rows);
    let ghost mv = rects_view(merged@);
    let mut out: Vec<Rect> = Vec::new();
    let mut i: usize = 0;
    while i < merged.len()
        invariant
            i <= merged@.len(),
            mv == rects_view(merged@),
            out@ == as_rects(mv.take(i as int)),
        decreases merged@.len() - i,
    {
        let q = merged[i];
        out.push(Rect::new(q.0 as i32, q.1 as i32, q.2 as i32, q.3 as i32));
        proof {
            assert(mv[i as int] == (q.0 as int, q.1 as int, q.2 as int, q.3 as int));
            assert(out@ =~= as_rects(mv.take(i + 1)));
        }
        i = i + 1;
    }
    proof {
        assert(mv.take(mv.len() as int) =~= mv);
    }
    out
}

} // verus!

verus! {

/// The pixel `(px, py)` lies in the rectangle `q = (x, y, w, h)`.
pub open spec fn cell_has(q: (int, int, int, int), px: int, py: int) -> bool {
    q.0 <= px < q.0 + q.2 && q.1 <= py < q.1 + q.3
}

/// Some rectangle of `rs` holds the pixel.
pub open spec fn covers(rs: Seq<(int, int, int, int)>, px: int, py: int) -> bool {
    exists|i: int| 0 <= i < rs.len() && cell_has(#[trigger] rs[i], px, py)
}

/// Column `px` lies in the interval, if there is one.
pub open spec fn in_span(s: Option<(int, int)>, px: int) -> bool {
    match s {
        Some(p) => p.0 <= px <= p.1,
        None => false,
    }
}

/// The pixel lies on the border ring: inside the window grown by the
/// border on every side and outside the window itself, both with their
/// corners rounded (the outer radius being `rounding + border` when the
/// window is rounded, square otherwise).
pub open spec fn on_ring(window: Rect, border_width: int, rounding: int, px: int, py: int) -> bool {
    let bw = imax(border_width, 1);
    let r = imax(rounding, 0);
    let x = window.loc.x as int;
    let y = window.loc.y as int;
    let w = window.size.w as int;
    let h = window.size.h as int;
    let outer_r = if r == 0 {
        0
    } else {
        r + bw
    };
    in_span(row_span(x - bw, y - bw, w + 2 * bw, h + 2 * bw, outer_r, py), px) && !in_span(
        row_span(x, y, w, h, r, py),
        px,
    )
}

pub open spec fn piece_cover(ps: Seq<(int, int)>, px: int) -> bool {
    exists|k: int| 0 <= k < ps.len() && (#[trigger] ps[k]).0 <= px <= ps[k].1
}

pub open spec fn row_has(t: (int, int, int), px: int, py: int) -> bool {
    t.0 == py && t.1 <= px <= t.2
}

pub open spec fn row_cover(rows: Seq<(int, int, int)>, px: int, py: int) -> bool {
    exists|j: int| 0 <= j < rows.len() && row_has(#[trigger] rows[j], px, py)
}

proof fn lemma_pieces_cover(os: Option<(int, int)>, is: Option<(int, int)>, px: int)
    ensures
        piece_cover(ring_pieces(os, is), px) == (in_span(os, px) && !in_span(is, px)),
{
    let ps = ring_pieces(os, is);
    if piece_cover(ps, px) {
        let k = choose|k: int| 0 <= k < ps.len() && (#[trigger] ps[k]).0 <= px <= ps[k].1;
        match os {
            None => {},
            Some(o) => match is {
                None => {},
                Some(i) => {
                    if !(i.1 < o.0 || i.0 > o.1) {
                        let first: Seq<(int, int)> = if o.0 < i.0 {
                            seq![(o.0, i.0 - 1)]
                        } else {
                            Seq::empty()
                        };
                        if k < first.len() {
                            assert(ps[k] == first[k]);
                        } else {
                            assert(ps[k] == (imax(o.0, i.1 + 1), o.1));
                        }
                    }
                },
            },
        }
    }
    if in_span(os, px) && !in_span(is, px) {
        let o = os->Some_0;
        match is {
            None => {
                assert(ps[0] == o);
            },
            Some(i) => {
                if i.1 < o.0 || i.0 > o.1 {
                    assert(ps[0] == o);
                } else if px < i.0 {
                    assert(ps[0] == (o.0, i.0 - 1));
                } else {
                    let first: Seq<(int, int)> = if o.0 < i.0 {
                        seq![(o.0, i.0 - 1)]
                    } else {
                        Seq::empty()
                    };
                    assert(ps[first.len() as int] == (imax(o.0, i.1 + 1), o.1));
                }
            },
        }
    }
}

proof fn lemma_at_row_cover(ps: Seq<(int, int)>, row: int, px: int, py: int)
    ensures
        row_cover(at_row(ps, row), px, py) == (py == row && piece_cover(ps, px)),
{
    let a = at_row(ps, row);
    if row_cover(a, px, py) {
        let j = choose|j: int| 0 <= j < a.len() && row_has(#[trigger] a[j], px, py);
        assert(a[j] == (row, ps[j].0, ps[j].1));
        assert(ps[j].0 <= px <= ps[j].1);
    }
    if py == row && piece_cover(ps, px) {
        let k = choose|k: int| 0 <= k < ps.len() && (#[trigger] ps[k]).0 <= px <= ps[k].1;
        assert(a[k] == (row, ps[k].0, ps[k].1));
        assert(row_has(a[k], px, py));
    }
}

proof fn lemma_row_cover_concat(a: Seq<(int, int, int)>, b: Seq<(int, int, int)>, px: int, py: int)
    ensures
        row_cover(a + b, px, py) == (row_cover(a, px, py) || row_cover(b, px, py)),
{
    let ab = a + b;
    if row_cover(ab, px, py) {
        let j = choose|j: int| 0 <= j < ab.len() && row_has(#[trigger] ab[j], px, py);
        if j < a.len() {
            assert(ab[j] == a[j]);
        } else {
            assert(ab[j] == b[j - a.len()]);
        }
    }
    if row_cover(a, px, py) {
        let j = choose|j: int| 0 <= j < a.len() && row_has(#[trigger] a[j], px, py);
        assert(ab[j] == a[j]);
    }
    if row_cover(b, px, py) {
        let j = choose|j: int| 0 <= j < b.len() && row_has(#[trigger] b[j], px, py);
        assert(ab[j + a.len()] == b[j]);
    }
}

/// The first `k` outer rows' intervals hold exactly the ring pixels of
/// those rows.
proof fn lemma_rows_cover(x: int, y: int, w: int, h: int, bw: int, r: int, k: nat, px: int, py: int)
    ensures
        row_cover(ring_rows(x, y, w, h, bw, r, k), px, py) == (y - bw <= py < y - bw + k && in_span(
            outer_span(x, y, w, h, bw, r, py),
            px,
        ) && !in_span(inner_span(x, y, w, h, r, py), px)),
    decreases k,
{
    if k == 0 {
        assert(!row_cover(Seq::<(int, int, int)>::empty(), px, py));
    } else {
        let row = y - bw + k - 1;
        let prev = ring_rows(x, y, w, h, bw, r, (k - 1) as nat);
        let ps = ring_pieces(outer_span(x, y, w, h, bw, r, row), inner_span(x, y, w, h, r, row));
        lemma_rows_cover(x, y, w, h, bw, r, (k - 1) as nat, px, py);
        lemma_row_cover_concat(prev, at_row(ps, row), px, py);
        lemma_at_row_cover(ps, row, px, py);
        lemma_pieces_cover(outer_span(x, y, w, h, bw, r, row), inner_span(x, y, w, h, r, row), px);
    }
}

proof fn lemma_first_found(rs: Seq<(int, int, int, int)>, t: (int, int, int), i: int)
    ensures
        match first_continued(rs, t, i) {
            Some(j) => 0 <= j < rs.len() && continues(rs[j], t.0, t.1, t.2),
            None => true,
        },
    decreases rs.len() - i,
{
    if 0 <= i < rs.len() && !continues(rs[i], t.0, t.1, t.2) {
        lemma_first_found(rs, t, i + 1);
    }
}

pub open spec fn heights_positive(rs: Seq<(int, int, int, int)>) -> bool {
    forall|i: int| 0 <= i < rs.len() ==> (#[trigger] rs[i]).3 >= 1
}

proof fn lemma_merge_heights(rows: Seq<(int, int, int)>)
    ensures
        heights_positive(merge_rows(rows)),
    decreases rows.len(),
{
    if rows.len() > 0 {
        let rs = merge_rows(rows.drop_last());
        lemma_merge_heights(rows.drop_last());
        lemma_first_found(rs, rows.last(), 0);
        let m = merge_rows(rows);
        assert forall|i: int| 0 <= i < m.len() implies (#[trigger] m[i]).3 >= 1 by {
            if i < rs.len() {
                assert(rs[i].3 >= 1);
            }
        }
    }
}

proof fn lemma_step_covers(rs: Seq<(int, int, int, int)>, t: (int, int, int), px: int, py: int)
    requires
        heights_positive(rs),
    ensures
        covers(merge_step(rs, t), px, py) == (covers(rs, px, py) || row_has(t, px, py)),
{
    let m = merge_step(rs, t);
    lemma_first_found(rs, t, 0);
    match first_continued(rs, t, 0) {
        Some(j) => {
            let q = rs[j];
            assert(m[j] == (q.0, q.1, q.2, q.3 + 1));
            assert(q.3 >= 1);
            if covers(m, px, py) {
                let i = choose|i: int| 0 <= i < m.len() && cell_has(#[trigger] m[i], px, py);
                if i != j {
                    assert(m[i] == rs[i]);
                } else if !cell_has(q, px, py) {
                    assert(row_has(t, px, py));
                }
            }
            if covers(rs, px, py) {
                let i = choose|i: int| 0 <= i < rs.len() && cell_has(#[trigger] rs[i], px, py);
                if i != j {
                    assert(m[i] == rs[i]);
                }
                assert(cell_has(m[i], px, py));
            }
            if row_has(t, px, py) {
                assert(cell_has(m[j], px, py));
            }
        },
        None => {
            let n = rs.len() as int;
            assert(m[n] == (t.1, t.0, t.2 - t.1 + 1, 1int));
            if covers(m, px, py) {
                let i = choose|i: int| 0 <= i < m.len() && cell_has(#[trigger] m[i], px, py);
                if i < n {
                    assert(m[i] == rs[i]);
                }
            }
            if covers(rs, px, py) {
                let i = choose|i: int| 0 <= i < rs.len() && cell_has(#[trigger] rs[i], px, py);
                assert(m[i] == rs[i]);
                assert(cell_has(m[i], px, py));
            }
            if row_has(t, px, py) {
                assert(cell_has(m[n], px, py));
            }
        },
    }
}

/// Merging row intervals into rectangles neither adds nor loses a pixel.
proof fn lemma_merge_covers(rows: Seq<(int, int, int)>, px: int, py: int)
    ensures
        covers(merge_rows(rows), px, py) == row_cover(rows, px, py),
    decreases rows.len(),
{
    if rows.len() == 0 {
        assert(!covers(Seq::<(int, int, int, int)>::empty(), px, py));
    } else {
        let init = rows.drop_last();
        lemma_merge_covers(init, px, py);
        lemma_merge_heights(init);
        lemma_step_covers(merge_rows(init), rows.last(), px, py);
        assert(init + seq![rows.last()] =~= rows);
        lemma_row_cover_concat(init, seq![rows.last()], px, py);
        if row_cover(seq![rows.last()], px, py) {
            let j = choose|j: int| 0 <= j < 1 && row_has(#[trigger] seq![rows.last()][j], px, py);
            assert(j == 0);
        }
        if row_has(rows.last(), px, py) {
            assert(row_has(seq![rows.last()][0], px, py));
        }
    }
}

/// The rectangles of the ring hold exactly the pixels on the ring: the
/// window's border is painted everywhere on it and nowhere else. (For
/// square corners this needs a window of non-negative size.)
pub proof fn lemma_ring_covers_exactly(window: Rect, border_width: int, rounding: int, px: int, py: int)
    requires
        rounding > 0 || (window.size.w >= 0 && window.size.h >= 0),
    ensures
        covers(ring_model(window, border_width, rounding), px, py) == on_ring(window, border_width, rounding, px, py),
{
    let bw = imax(border_width, 1);
    let r = imax(rounding, 0);
    let x = window.loc.x as int;
    let y = window.loc.y as int;
    let w = window.size.w as int;
    let h = window.size.h as int;
    let m = ring_model(window, border_width, rounding);
    if r == 0 {
        if covers(m, px, py) {
            let i = choose|i: int| 0 <= i < m.len() && cell_has(#[trigger] m[i], px, py);
            assert(0 <= i < 4);
        }
        if on_ring(window, border_width, rounding, px, py) {
            if py < y {
                assert(cell_has(m[0], px, py));
            } else if py >= y + h {
                assert(cell_has(m[1], px, py));
            } else if px < x {
                assert(cell_has(m[2], px, py));
            } else {
                assert(cell_has(m[3], px, py));
            }
        }
    } else {
        let oh = imax(h + 2 * bw, 0);
        lemma_merge_covers(ring_rows(x, y, w, h, bw, r, oh as nat), px, py);
        lemma_rows_cover(x, y, w, h, bw, r, oh as nat, px, py);
    }
}

} // verus!

verus! {

/// The interval lies in `l..=l + w - 1`, and is either well-formed or the
/// whole of it.
pub open spec fn span_in(s: Option<(int, int)>, l: int, w: int) -> bool {
    match s {
        Some(p) => l <= p.0 && p.1 <= l + w - 1 && (p.0 <= p.1 || p == (l, l + w - 1)),
        None => true,
    }
}

proof fn lemma_row_span_in(l: int, t: int, w: int, h: int, r: int, y: int)
    ensures
        span_in(row_span(l, t, w, h, r, y), l, w),
        row_span(l, t, w, h, r, y) is Some ==> t <= y <= t + h - 1,
{
}

/// A row interval inside the outer box.
pub open spec fn row_in_box(t: (int, int, int), ox: int, oy: int, ow: int, oh: int) -> bool {
    &&& oy <= t.0 <= oy + oh - 1
    &&& ox <= t.1
    &&& t.2 <= ox + ow - 1
    &&& (t.1 <= t.2 || (t.1 == ox && t.2 == ox + ow - 1))
}

proof fn lemma_pieces_in(os: Option<(int, int)>, is: Option<(int, int)>, l: int, w: int)
    requires
        span_in(os, l, w),
    ensures
        forall|k: int|
            0 <= k < ring_pieces(os, is).len() ==> ({
                let p = #[trigger] ring_pieces(os, is)[k];
                l <= p.0 && p.1 <= l + w - 1 && (p.0 <= p.1 || p == (l, l + w - 1))
            }),
{
    let ps = ring_pieces(os, is);
    assert forall|k: int| 0 <= k < ps.len() implies ({
        let p = #[trigger] ps[k];
        l <= p.0 && p.1 <= l + w - 1 && (p.0 <= p.1 || p == (l, l + w - 1))
    }) by {
        match os {
            None => {},
            Some(o) => match is {
                None => {
                    assert(ps[k] == o);
                },
                Some(i) => {
                    if i.1 < o.0 || i.0 > o.1 {
                        assert(ps[k] == o);
                    } else {
                        let first: Seq<(int, int)> = if o.0 < i.0 {
                            seq![(o.0, i.0 - 1)]
                        } else {
                            Seq::empty()
                        };
                        if k < first.len() {
                            assert(ps[k] == (o.0, i.0 - 1));
                        } else {
                            assert(ps[k] == (imax(o.0, i.1 + 1), o.1));
                        }
                    }
                },
            },
        }
    }
}

/// Rows with non-decreasing row numbers.
pub open spec fn rows_sorted(rows: Seq<(int, int, int)>) -> bool {
    forall|i: int, j: int| 0 <= i <= j < rows.len() ==> rows[i].0 <= rows[j].0
}

proof fn lemma_rows_in_box(x: int, y: int, w: int, h: int, bw: int, r: int, k: nat)
    requires
        k <= imax(h + 2 * bw, 0),
    ensures
        ({
            let rows = ring_rows(x, y, w, h, bw, r, k);
            &&& rows_sorted(rows)
            &&& forall|j: int| 0 <= j < rows.len() ==> row_in_box(#[trigger] rows[j], x - bw, y - bw, w + 2 * bw, h + 2 * bw)
            &&& forall|j: int| 0 <= j < rows.len() ==> (#[trigger] rows[j]).0 <= y - bw + k - 1
        }),
    decreases k,
{
    if k > 0 {
        let row = y - bw + k - 1;
        lemma_rows_in_box(x, y, w, h, bw, r, (k - 1) as nat);
        let prev = ring_rows(x, y, w, h, bw, r, (k - 1) as nat);
        let os = outer_span(x, y, w, h, bw, r, row);
        let is = inner_span(x, y, w, h, r, row);
        lemma_row_span_in(x - bw, y - bw, w + 2 * bw, h + 2 * bw, r + bw, row);
        lemma_pieces_in(os, is, x - bw, w + 2 * bw);
        let ps = ring_pieces(os, is);
        let tail = at_row(ps, row);
        let rows = ring_rows(x, y, w, h, bw, r, k);
        assert(rows == prev + tail);
        assert forall|j: int| 0 <= j < rows.len() implies row_in_box(#[trigger] rows[j], x - bw, y - bw, w + 2 * bw, h + 2 * bw)
            && rows[j].0 <= row by {
            if j >= prev.len() {
                let p = ps[j - prev.len()];
                assert(rows[j] == (row, p.0, p.1));
            } else {
                assert(rows[j] == prev[j]);
            }
        }
        assert forall|i: int, j: int| 0 <= i <= j < rows.len() implies rows[i].0 <= rows[j].0 by {
            if j >= prev.len() {
                assert(rows[j].0 == row);
                if i < prev.len() {
                    assert(rows[i] == prev[i]);
                } else {
                    assert(rows[i].0 == row);
                }
            } else {
                assert(rows[i] == prev[i] && rows[j] == prev[j]);
            }
        }
    }
}

/// A rectangle inside the outer box, at least one row high.
pub open spec fn rect_in_box(q: (int, int, int, int), ox: int, oy: int, ow: int, oh: int) -> bool {
    &&& ox <= q.0 <= imax(ox, ox + ow - 1)
    &&& imin(1, ow) <= q.2 <= imax(ow, 1)
    &&& oy <= q.1
    &&& 1 <= q.3
    &&& q.1 + q.3 - 1 <= oy + oh - 1
}

proof fn lemma_merge_in_box(rows: Seq<(int, int, int)>, ox: int, oy: int, ow: int, oh: int)
    requires
        rows_sorted(rows),
        forall|j: int| 0 <= j < rows.len() ==> row_in_box(#[trigger] rows[j], ox, oy, ow, oh),
    ensures
        forall|i: int| 0 <= i < merge_rows(rows).len() ==> rect_in_box(#[trigger] merge_rows(rows)[i], ox, oy, ow, oh),
        rows.len() > 0 ==> forall|i: int|
            0 <= i < merge_rows(rows).len() ==> (#[trigger] merge_rows(rows)[i]).1 + merge_rows(rows)[i].3 - 1
                <= rows.last().0,
    decreases rows.len(),
{
    if rows.len() > 0 {
        let init = rows.drop_last();
        assert forall|i: int, j: int| 0 <= i <= j < init.len() implies init[i].0 <= init[j].0 by {
            assert(init[i] == rows[i] && init[j] == rows[j]);
        }
        assert forall|j: int| 0 <= j < init.len() implies row_in_box(#[trigger] init[j], ox, oy, ow, oh) by {
            assert(init[j] == rows[j]);
        }
        lemma_merge_in_box(init, ox, oy, ow, oh);
        let rs = merge_rows(init);
        let t = rows.last();
        assert(row_in_box(rows[rows.len() - 1], ox, oy, ow, oh));
        if init.len() > 0 {
            assert(init.last() == rows[rows.len() - 2]);
            assert(rows[rows.len() - 2].0 <= rows[rows.len() - 1].0);
        } else {
            assert(rs.len() == 0);
        }
        lemma_first_found(rs, t, 0);
        let m = merge_rows(rows);
        assert forall|i: int| 0 <= i < m.len() implies rect_in_box(#[trigger] m[i], ox, oy, ow, oh)
            && m[i].1 + m[i].3 - 1 <= t.0 by {
            match first_continued(rs, t, 0) {
                Some(j) => {
                    if i != j {
                        assert(m[i] == rs[i]);
                    }
                },
                None => {
                    if i < rs.len() {
                        assert(m[i] == rs[i]);
                    }
                },
            }
        }
    }
}

/// Every rectangle of the ring has coordinates and a size that fit `i32`
/// (so the returned rectangles are exactly those of the model).
pub proof fn lemma_ring_model_fits(window: Rect, border_width: int, rounding: int)
    requires
        ring_fits(window, border_width, rounding),
    ensures
        forall|i: int|
            0 <= i < ring_model(window, border_width, rounding).len() ==> {
                let q = #[trigger] ring_model(window, border_width, rounding)[i];
                fits_i32(q.0) && fits_i32(q.1) && fits_i32(q.2) && fits_i32(q.3)
            },
{
    let bw = imax(border_width, 1);
    let r = imax(rounding, 0);
    let x = window.loc.x as int;
    let y = window.loc.y as int;
    let w = window.size.w as int;
    let h = window.size.h as int;
    let m = ring_model(window, border_width, rounding);
    if r > 0 {
        let k = imax(h + 2 * bw, 0) as nat;
        lemma_rows_in_box(x, y, w, h, bw, r, k);
        let rows = ring_rows(x, y, w, h, bw, r, k);
        lemma_merge_in_box(rows, x - bw, y - bw, w + 2 * bw, h + 2 * bw);
        assert forall|i: int| 0 <= i < m.len() implies {
            let q = #[trigger] m[i];
            fits_i32(q.0) && fits_i32(q.1) && fits_i32(q.2) && fits_i32(q.3)
        } by {
            assert(rect_in_box(m[i], x - bw, y - bw, w + 2 * bw, h + 2 * bw));
        }
    }
}

} // verus!

verus! {

/// The rectangles `border_ring_rects` returns contain exactly the points
/// on the ring (for square corners, of a window of non-negative size).
pub proof fn lemma_ring_rects_contain_ring(window: Rect, border_width: int, rounding: int, p: Point)
    requires
        ring_fits(window, border_width, rounding),
        rounding > 0 || (window.size.w >= 0 && window.size.h >= 0),
    ensures
        (exists|i: int|
            0 <= i < as_rects(ring_model(window, border_width, rounding)).len() && rect_contains_spec(
                #[trigger] as_rects(ring_model(window, border_width, rounding))[i],
                p,
            )) == on_ring(window, border_width, rounding, p.x as int, p.y as int),
{
    let m = ring_model(window, border_width, rounding);
    let rs = as_rects(m);
    lemma_ring_model_fits(window, border_width, rounding);
    lemma_ring_covers_exactly(window, border_width, rounding, p.x as int, p.y as int);
    assert forall|i: int| 0 <= i < rs.len() implies rect_contains_spec(#[trigger] rs[i], p) == cell_has(m[i], p.x as int, p.y as int) by {
        let q = m[i];
        assert(fits_i32(q.0) && fits_i32(q.1) && fits_i32(q.2) && fits_i32(q.3));
        assert(rs[i] == rect_of(q.0, q.1, q.2, q.3));
    }
    if covers(m, p.x as int, p.y as int) {
        let i = choose|i: int| 0 <= i < m.len() && cell_has(#[trigger] m[i], p.x as int, p.y as int);
        assert(rect_contains_spec(rs[i], p));
    }
}

} // verus!

verus! {

/// Row intervals in strict reading order: each one lies on an earlier row
/// than the next, or on the same row wholly to its left; and none is empty.
pub open spec fn rows_ordered(rows: Seq<(int, int, int)>) -> bool {
    &&& forall|i: int, j: int|
        0 <= i < j < rows.len() ==> (#[trigger] rows[i]).0 < (#[trigger] rows[j]).0 || (rows[i].0 == rows[j].0
            && rows[i].2 < rows[j].1)
    &&& forall|i: int| 0 <= i < rows.len() ==> (#[trigger] rows[i]).1 <= rows[i].2
}

/// No two rectangles share a pixel.
pub open spec fn cells_disjoint(rs: Seq<(int, int, int, int)>) -> bool {
    forall|i: int, j: int, px: int, py: int|
        0 <= i < j < rs.len() ==> !(#[trigger] cell_has(rs[i], px, py) && #[trigger] cell_has(rs[j], px, py))
}

/// Every rectangle is at least one pixel wide and high.
pub open spec fn cells_nonempty(rs: Seq<(int, int, int, int)>) -> bool {
    forall|i: int| 0 <= i < rs.len() ==> (#[trigger] rs[i]).2 >= 1 && rs[i].3 >= 1
}

proof fn lemma_pieces_ordered(os: Option<(int, int)>, is: Option<(int, int)>, l: int, w: int, il: int, iw: int)
    requires
        span_in(os, l, w),
        span_in(is, il, iw),
        w >= 1,
        iw >= 0,
    ensures
        ({
            let ps = ring_pieces(os, is);
            &&& forall|k: int| 0 <= k < ps.len() ==> (#[trigger] ps[k]).0 <= ps[k].1
            &&& forall|a: int, b: int| 0 <= a < b < ps.len() ==> (#[trigger] ps[a]).1 < (#[trigger] ps[b]).0
        }),
{
    let ps = ring_pieces(os, is);
    match os {
        None => {},
        Some(o) => match is {
            None => {
                assert(ps =~= seq![o]);
            },
            Some(i) => {
                if i.1 < o.0 || i.0 > o.1 {
                    assert(ps =~= seq![o]);
                } else {
                    let first: Seq<(int, int)> = if o.0 < i.0 {
                        seq![(o.0, i.0 - 1)]
                    } else {
                        Seq::empty()
                    };
                    let running = imax(o.0, i.1 + 1);
                    let second: Seq<(int, int)> = if running <= o.1 {
                        seq![(running, o.1)]
                    } else {
                        Seq::empty()
                    };
                    assert(ps =~= first + second);
                    assert(i.0 <= i.1 + 1);
                }
            },
        },
    }
}

proof fn lemma_rows_ordered(x: int, y: int, w: int, h: int, bw: int, r: int, k: nat)
    requires
        w >= 0,
        bw >= 1,
        r >= 1,
    ensures
        rows_ordered(ring_rows(x, y, w, h, bw, r, k)),
        forall|j: int|
            0 <= j < ring_rows(x, y, w, h, bw, r, k).len() ==> (#[trigger] ring_rows(x, y, w, h, bw, r, k)[j]).0
                <= y - bw + k - 1,
    decreases k,
{
    if k > 0 {
        let row = y - bw + k - 1;
        lemma_rows_ordered(x, y, w, h, bw, r, (k - 1) as nat);
        let prev = ring_rows(x, y, w, h, bw, r, (k - 1) as nat);
        let os = outer_span(x, y, w, h, bw, r, row);
        let is = inner_span(x, y, w, h, r, row);
        lemma_row_span_in(x - bw, y - bw, w + 2 * bw, h + 2 * bw, r + bw, row);
        lemma_row_span_in(x, y, w, h, r, row);
        lemma_pieces_ordered(os, is, x - bw, w + 2 * bw, x, w);
        let ps = ring_pieces(os, is);
        let tail = at_row(ps, row);
        let rows = ring_rows(x, y, w, h, bw, r, k);
        assert(rows == prev + tail);
        assert forall|j: int| 0 <= j < rows.len() implies (#[trigger] rows[j]).0 <= row && rows[j].1 <= rows[j].2 by {
            if j >= prev.len() {
                assert(rows[j] == (row, ps[j - prev.len()].0, ps[j - prev.len()].1));
            } else {
                assert(rows[j] == prev[j]);
            }
        }
        assert forall|i: int, j: int| 0 <= i < j < rows.len() implies (#[trigger] rows[i]).0 < (
        #[trigger] rows[j]).0 || (rows[i].0 == rows[j].0 && rows[i].2 < rows[j].1) by {
            if j >= prev.len() {
                assert(rows[j] == (row, ps[j - prev.len()].0, ps[j - prev.len()].1));
                if i < prev.len() {
                    assert(rows[i] == prev[i]);
                    if prev[i].0 == row {
                        assert(prev[i].0 <= y - bw + (k - 1) - 1);
                    }
                } else {
                    assert(rows[i] == (row, ps[i - prev.len()].0, ps[i - prev.len()].1));
                    assert(ps[i - prev.len()].1 < ps[j - prev.len()].0);
                }
            } else {
                assert(rows[i] == prev[i] && rows[j] == prev[j]);
            }
        }
    }
}

proof fn lemma_merge_disjoint(rows: Seq<(int, int, int)>)
    requires
        rows_ordered(rows),
    ensures
        cells_disjoint(merge_rows(rows)),
        cells_nonempty(merge_rows(rows)),
    decreases rows.len(),
{
    if rows.len() > 0 {
        let init = rows.drop_last();
        let t = rows.last();
        assert forall|i: int, j: int| 0 <= i < j < init.len() implies (#[trigger] init[i]).0 < (
        #[trigger] init[j]).0 || (init[i].0 == init[j].0 && init[i].2 < init[j].1) by {
            assert(init[i] == rows[i] && init[j] == rows[j]);
        }
        assert forall|i: int| 0 <= i < init.len() implies (#[trigger] init[i]).1 <= init[i].2 by {
            assert(init[i] == rows[i]);
        }
        lemma_merge_disjoint(init);
        lemma_merge_heights(init);
        let rs = merge_rows(init);
        let m = merge_rows(rows);
        lemma_first_found(rs, t, 0);
        assert(rows[rows.len() - 1] == t);
        assert(t.1 <= t.2);
        // A pixel of the new row interval is in no rectangle yet.
        assert forall|i: int, px: int, py: int|
            0 <= i < rs.len() && row_has(t, px, py) implies !#[trigger] cell_has(rs[i], px, py) by {
            if cell_has(rs[i], px, py) {
                assert(covers(rs, px, py));
                lemma_merge_covers(init, px, py);
                let e = choose|e: int| 0 <= e < init.len() && row_has(#[trigger] init[e], px, py);
                assert(init[e] == rows[e]);
                assert(rows[e].0 < rows[rows.len() - 1].0 || (rows[e].0 == rows[rows.len() - 1].0 && rows[e].2
                    < rows[rows.len() - 1].1));
            }
        }
        match first_continued(rs, t, 0) {
            Some(c) => {
                assert(m == rs.update(c, (rs[c].0, rs[c].1, rs[c].2, rs[c].3 + 1)));
                assert forall|i: int, j: int, px: int, py: int|
                    0 <= i < j < m.len() implies !(#[trigger] cell_has(m[i], px, py) && #[trigger] cell_has(m[j], px, py)) by {
                    if i != c && j != c {
                        assert(m[i] == rs[i] && m[j] == rs[j]);
                    } else if i == c {
                        assert(m[j] == rs[j]);
                        if cell_has(m[i], px, py) && !cell_has(rs[c], px, py) {
                            assert(row_has(t, px, py));
                        }
                    } else {
                        assert(m[i] == rs[i]);
                        if cell_has(m[j], px, py) && !cell_has(rs[c], px, py) {
                            assert(row_has(t, px, py));
                        }
                    }
                }
                assert forall|i: int| 0 <= i < m.len() implies (#[trigger] m[i]).2 >= 1 && m[i].3 >= 1 by {
                    assert(rs[i].2 >= 1 && rs[i].3 >= 1);
                }
            },
            None => {
                let n = rs.len() as int;
                assert(m == rs.push((t.1, t.0, t.2 - t.1 + 1, 1int)));
                assert forall|i: int, j: int, px: int, py: int|
                    0 <= i < j < m.len() implies !(#[trigger] cell_has(m[i], px, py) && #[trigger] cell_has(m[j], px, py)) by {
                    assert(m[i] == rs[i]);
                    if j < n {
                        assert(m[j] == rs[j]);
                    } else if cell_has(m[j], px, py) {
                        assert(row_has(t, px, py));
                    }
                }
                assert forall|i: int| 0 <= i < m.len() implies (#[trigger] m[i]).2 >= 1 && m[i].3 >= 1 by {
                    if i < n {
                        assert(m[i] == rs[i]);
                    }
                }
            },
        }
    }
}

/// The ring's rectangles decompose it: no two share a pixel and none is
/// empty (for a window of non-negative size, and, with square corners, of
/// some height, since a flat window has no side edges to speak of).
pub proof fn lemma_ring_rects_disjoint(window: Rect, border_width: int, rounding: int)
    requires
        window.size.w >= 0,
        window.size.h >= 0,
        rounding > 0 || window.size.h > 0,
    ensures
        cells_disjoint(ring_model(window, border_width, rounding)),
        cells_nonempty(ring_model(window, border_width, rounding)),
{
    let bw = imax(border_width, 1);
    let r = imax(rounding, 0);
    let x = window.loc.x as int;
    let y = window.loc.y as int;
    let w = window.size.w as int;
    let h = window.size.h as int;
    let m = ring_model(window, border_width, rounding);
    if r == 0 {
        assert forall|i: int, j: int, px: int, py: int|
            0 <= i < j < m.len() implies !(#[trigger] cell_has(m[i], px, py) && #[trigger] cell_has(m[j], px, py)) by {
        }
    } else {
        let k = imax(h + 2 * bw, 0) as nat;
        lemma_rows_ordered(x, y, w, h, bw, r, k);
        lemma_merge_disjoint(ring_rows(x, y, w, h, bw, r, k));
    }
}

} // verus!
