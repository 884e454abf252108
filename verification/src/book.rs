//! Per-window bookkeeping of the scroll layout, keyed by window id: the
//! column order, which windows open a column, the remembered rows, and the
//! output and workspace each window lives on; how it follows the windows
//! that come and go, and which windows an output lays out.
use vstd::prelude::*;
use std::collections::{HashMap, HashSet};
use crate::geometry::{Point, Rect};
use crate::layout::{
    reps_of, scroll_tiles, scroll_tiles_fit, scroll_tiles_upto, scroll_view_origin, view_origin_fits, view_origin_spec,
};
use crate::text::{str_eq, strings_view};
use crate::workspace::{
    anchor_from, anchor_in_columns, columns_of, columns_spec, first_index_of, flatten, id_columns, index_of,
    landing_row, swap_ids,
    swap_ids_spec,
    landing_row_spec, lemma_columns_partition,
};

verus! {

/// The layout's per-window records.
pub struct WindowBook {
    /// Window ids in column order.
    pub order: Vec<u64>,
    /// Windows that open a scroll column.
    pub starts: HashSet<u64>,
    /// Remembered focus row of a column, by its top window.
    pub rows: HashMap<u64, usize>,
    /// The output each window lives on, by name.
    pub outputs: HashMap<u64, String>,
    /// The workspace each window lives on.
    pub workspaces: HashMap<u64, usize>,
}

/// What a `WindowBook` holds.
#[verifier::ext_equal]
pub struct BookView {
    pub order: Seq<u64>,
    pub starts: Set<u64>,
    pub rows: Map<u64, usize>,
    pub outputs: Map<u64, Seq<char>>,
    pub workspaces: Map<u64, usize>,
}

pub open spec fn names_view(m: Map<u64, String>) -> Map<u64, Seq<char>> {
    m.map_values(|s: String| s@)
}

impl View for WindowBook {
    type V = BookView;

    open spec fn view(&self) -> BookView {
        BookView {
            order: self.order@,
            starts: self.starts@,
            rows: self.rows@,
            outputs: names_view(self.outputs@),
            workspaces: self.workspaces@,
        }
    }
}

/// The active workspace of the named output (0 when it has none yet).
pub open spec fn active_on(active: Seq<(Seq<char>, usize)>, name: Seq<char>) -> usize
    decreases active.len(),
{
    if active.len() == 0 {
        0
    } else if active[0].0 == name {
        active[0].1
    } else {
        active_on(active.drop_first(), name)
    }
}

pub open spec fn active_view(active: Seq<(String, usize)>) -> Seq<(Seq<char>, usize)> {
    active.map_values(|p: (String, usize)| (p.0@, p.1))
}

pub open spec fn opt_name(s: Option<String>) -> Option<Seq<char>> {
    match s {
        Some(x) => Some(x@),
        None => None,
    }
}

/// A live window seen: it joins the order (opening a column) if it is not
/// there yet, gets a workspace (the active one of its output, or of the
/// fallback output) and, with a fallback output, an output.
pub open spec fn visit(b: BookView, id: u64, fallback: Option<Seq<char>>, active: Seq<(Seq<char>, usize)>) -> BookView {
    let fresh = !b.order.contains(id);
    let here = if b.outputs.contains_key(id) {
        Some(b.outputs[id])
    } else {
        fallback
    };
    let ws = match here {
        Some(n) => active_on(active, n),
        None => 0usize,
    };
    BookView {
        order: if fresh {
            b.order.push(id)
        } else {
            b.order
        },
        starts: if fresh {
            b.starts.insert(id)
        } else {
            b.starts
        },
        rows: b.rows,
        outputs: match fallback {
            Some(n) => if b.outputs.contains_key(id) {
                b.outputs
            } else {
                b.outputs.insert(id, n)
            },
            None => b.outputs,
        },
        workspaces: if b.workspaces.contains_key(id) {
            b.workspaces
        } else {
            b.workspaces.insert(id, ws)
        },
    }
}

/// Every live window of `known` visited, in order.
pub open spec fn visit_all(b: BookView, known: Seq<(u64, bool)>, fallback: Option<Seq<char>>, active: Seq<(Seq<char>, usize)>) -> BookView
    decreases known.len(),
{
    if known.len() == 0 {
        b
    } else {
        let prev = visit_all(b, known.drop_last(), fallback, active);
        if known.last().1 {
            visit(prev, known.last().0, fallback, active)
        } else {
            prev
        }
    }
}

/// The ids that `known` marks alive.
pub open spec fn live_ids(known: Seq<(u64, bool)>) -> Set<u64>
    decreases known.len(),
{
    if known.len() == 0 {
        Set::empty()
    } else if known.last().1 {
        live_ids(known.drop_last()).insert(known.last().0)
    } else {
        live_ids(known.drop_last())
    }
}

/// The ids of `s` that are in `live`, in order.
pub open spec fn keep_live(s: Seq<u64>, live: Set<u64>) -> Seq<u64>
    decreases s.len(),
{
    if s.len() == 0 {
        Seq::empty()
    } else if live.contains(s.last()) {
        keep_live(s.drop_last(), live).push(s.last())
    } else {
        keep_live(s.drop_last(), live)
    }
}

/// An output name that is still connected stays; a vanished one is
/// replaced by the fallback output, when there is one.
pub open spec fn rehome(name: Seq<char>, fallback: Option<Seq<char>>, available: Seq<Seq<char>>) -> Seq<char> {
    match fallback {
        Some(f) => if available.contains(name) {
            name
        } else {
            f
        },
        None => name,
    }
}

/// Dead windows dropped from the order, the column starts, the remembered
/// rows and the outputs; outputs that vanished replaced.
pub open spec fn prune(b: BookView, live: Set<u64>, fallback: Option<Seq<char>>, available: Seq<Seq<char>>) -> BookView {
    BookView {
        order: keep_live(b.order, live),
        starts: b.starts.intersect(live),
        rows: b.rows.restrict(live),
        outputs: Map::new(
            |id: u64| live.contains(id) && b.outputs.contains_key(id),
            |id: u64| rehome(b.outputs[id], fallback, available),
        ),
        workspaces: b.workspaces,
    }
}

/// The records after the windows `known` now: `(id, alive)`, the managed
/// windows first, then mapped windows not among them.
pub open spec fn reconciled(b: BookView, known: Seq<(u64, bool)>, fallback: Option<Seq<char>>, active: Seq<(Seq<char>, usize)>, available: Seq<Seq<char>>) -> BookView {
    prune(visit_all(b, known, fallback, active), live_ids(known), fallback, available)
}

fn order_contains(order: &Vec<u64>, id: u64) -> (b: bool)
    ensures
        b == order@.contains(id),
{
    let mut i: usize = 0;
    while i < order.len()
        invariant
            i <= order@.len(),
            forall|k: int| 0 <= k < i ==> order@[k] != id,
        decreases order@.len() - i,
    {
        if order[i] == id {
            return true;
        }
        i = i + 1;
    }
    false
}

/// `active_on`, computed.
fn active_workspace_on(active: &[(String, usize)], name: &str) -> (ws: usize)
    ensures
        ws == active_on(active_view(active@), name@),
{
    let mut i: usize = 0;
    proof {
        assert(active_view(active@).skip(0) =~= active_view(active@));
    }
    while i < active.len()
        invariant
            i <= active@.len(),
            active_on(active_view(active@), name@) == active_on(active_view(active@).skip(i as int), name@),
        decreases active@.len() - i,
    {
        let ghost rest = active_view(active@).skip(i as int);
        proof {
            assert(rest[0] == (active@[i as int].0@, active@[i as int].1));
            assert(rest.drop_first() =~= active_view(active@).skip(i + 1));
        }
        if str_eq(active[i].0.as_str(), name) {
            return active[i].1;
        }
        i = i + 1;
    }
    proof {
        assert(active_view(active@).skip(i as int).len() == 0);
    }
    0
}

fn clone_name(s: &Option<String>) -> (r: Option<String>)
    ensures
        r == *s,
{
    match s {
        Some(x) => Some(x.clone()),
        None => None,
    }
}

fn name_available(available: &[String], name: &str) -> (b: bool)
    ensures
        b == strings_view(available@).contains(name@),
{
    let mut i: usize = 0;
    while i < available.len()
        invariant
            i <= available@.len(),
            forall|k: int| 0 <= k < i ==> strings_view(available@)[k] != name@,
        decreases available@.len() - i,
    {
        if str_eq(available[i].as_str(), name) {
            proof {
                assert(strings_view(available@)[i as int] == name@);
            }
            return true;
        }
        i = i + 1;
    }
    false
}

/// Record one live window.
fn visit_window(book: &mut WindowBook, id: u64, fallback: &Option<String>, active: &[(String, usize)])
    ensures
        final(book)@ == visit(old(book)@, id, opt_name(*fallback), active_view(active@)),
{
    let fresh = !order_contains(&book.order, id);
    if fresh {
        book.order.push(id);
        book.starts.insert(id);
    }
    let here: Option<String> = match book.outputs.get(&id) {
        Some(n) => Some(n.clone()),
        None => clone_name(fallback),
    };
    let ws: usize = match &here {
        Some(n) => active_workspace_on(active, n.as_str()),
        None => 0,
    };
    if !book.workspaces.contains_key(&id) {
        book.workspaces.insert(id, ws);
    }
    match fallback {
        Some(n) => {
            if !book.outputs.contains_key(&id) {
                book.outputs.insert(id, n.clone());
            }
        },
        None => {},
    }
    proof {
        assert(names_view(book.outputs@) =~= visit(old(book)@, id, opt_name(*fallback), active_view(active@)).outputs);
        assert(book@ =~= visit(old(book)@, id, opt_name(*fallback), active_view(active@)));
    }
}

/// Bring the records up to date with the windows known now: `(id,
/// alive)`, the managed windows first, then mapped windows not among them.
/// A live window not yet in the column order is appended and opens a
/// column; it gets a workspace, and an output when `fallback` (the output
/// under the pointer) is known. Dead windows leave the order, the column
/// starts, the remembered rows and the outputs; a window whose output is
/// no longer `available` moves to the fallback output.
pub fn reconcile_column_order(
    book: &mut WindowBook,
    known: &[(u64, bool)],
    fallback: &Option<String>,
    active: &[(String, usize)],
    available: &[String],
)
    ensures
        final(book)@ == reconciled(
            old(book)@,
            known@,
            opt_name(*fallback),
            active_view(active@),
            strings_view(available@),
        ),
{
    let ghost b0 = book@;
    let ghost fb = opt_name(*fallback);
    let ghost act = active_view(active@);
    let mut live: HashSet<u64> = HashSet::new();
    let mut i: usize = 0;
    while i < known.len()
        invariant
            i <= known@.len(),
            fb == opt_name(*fallback),
            act == active_view(active@),
            book@ == visit_all(b0, known@.take(i as int), fb, act),
            live@ == live_ids(known@.take(i as int)),
        decreases known@.len() - i,
    {
        let (id, alive) = known[i];
        proof {
            assert(known@.take(i + 1).drop_last() =~= known@.take(i as int));
            assert(known@.take(i + 1).last() == (id, alive));
        }
        if alive {
            live.insert(id);
            visit_window(book, id, fallback, active);
        }
        i = i + 1;
    }
    proof {
        assert(known@.take(known@.len() as int) =~= known@);
    }
    let ghost v = book@;
    let ghost lv = live@;
    // The order, keeping the live windows.
    let mut order: Vec<u64> = Vec::new();
    let mut j: usize = 0;
    while j < book.order.len()
        invariant
            j <= book.order@.len(),
            v == book@,
            lv == live@,
            order@ == keep_live(book.order@.take(j as int), lv),
        decreases book.order@.len() - j,
    {
        let id = book.order[j];
        proof {
            assert(book.order@.take(j + 1).drop_last() =~= book.order@.take(j as int));
            assert(book.order@.take(j + 1).last() == id);
        }
        if live.contains(&id) {
            order.push(id);
        }
        j = j + 1;
    }
    proof {
        assert(book.order@.take(book.order@.len() as int) =~= book.order@);
    }
    // The starts, rows and outputs of the live windows.
    let mut starts: HashSet<u64> = HashSet::new();
    let mut rows: HashMap<u64, usize> = HashMap::new();
    let mut outputs: HashMap<u64, String> = HashMap::new();
    let ghost avail = strings_view(available@);
    let mut k: usize = 0;
    while k < known.len()
        invariant
            k <= known@.len(),
            v == book@,
            fb == opt_name(*fallback),
            avail == strings_view(available@),
            lv == live_ids(known@),
            starts@ == v.starts.intersect(live_ids(known@.take(k as int))),
            rows@ == v.rows.restrict(live_ids(known@.take(k as int))),
            names_view(outputs@) == Map::new(
                |id: u64| live_ids(known@.take(k as int)).contains(id) && v.outputs.contains_key(id),
                |id: u64| rehome(v.outputs[id], fb, avail),
            ),
        decreases known@.len() - k,
    {
        let (id, alive) = known[k];
        let ghost before = live_ids(known@.take(k as int));
        let ghost old_out = names_view(outputs@);
        proof {
            assert(known@.take(k + 1).drop_last() =~= known@.take(k as int));
            assert(known@.take(k + 1).last() == (id, alive));
        }
        if alive {
            if book.starts.contains(&id) {
                starts.insert(id);
            }
            match book.rows.get(&id) {
                Some(r) => {
                    rows.insert(id, *r);
                },
                None => {},
            }
            match book.outputs.get(&id) {
                Some(n) => {
                    let keep = match fallback {
                        Some(_) => name_available(available, n.as_str()),
                        None => true,
                    };
                    let name = if keep {
                        n.clone()
                    } else {
                        clone_name(fallback).unwrap()
                    };
                    proof {
                        assert(book.outputs@.contains_key(id) && book.outputs@[id] == *n);
                        assert(v.outputs[id] == n@);
                        assert(name@ == rehome(v.outputs[id], fb, avail));
                    }
                    outputs.insert(id, name);
                },
                None => {},
            }
        }
        proof {
            let after = live_ids(known@.take(k + 1));
            assert(starts@ =~= v.starts.intersect(after));
            assert(rows@ =~= v.rows.restrict(after));
            let target = Map::new(
                |id: u64| after.contains(id) && v.outputs.contains_key(id),
                |id: u64| rehome(v.outputs[id], fb, avail),
            );
            assert forall|x: u64| #[trigger] names_view(outputs@).contains_key(x) == target.contains_key(x) by {
                if x != id {
                    assert(after.contains(x) == before.contains(x));
                    assert(names_view(outputs@).contains_key(x) == old_out.contains_key(x));
                    assert(old_out.contains_key(x) == (before.contains(x) && v.outputs.contains_key(x)));
                }
            }
            assert forall|x: u64| #[trigger] names_view(outputs@).contains_key(x) implies names_view(outputs@)[x] == target[x] by {
                if x != id {
                    assert(after.contains(x) == before.contains(x));
                    assert(names_view(outputs@)[x] == old_out[x]);
                    assert(old_out[x] == rehome(v.outputs[x], fb, avail));
                }
            }
            assert(names_view(outputs@) =~= target);
        }
        k = k + 1;
    }
    proof {
        assert(known@.take(known@.len() as int) =~= known@);
    }
    book.order = order;
    book.starts = starts;
    book.rows = rows;
    book.outputs = outputs;
    proof {
        assert(book@ =~= reconciled(b0, known@, fb, act, avail));
    }
}

} // verus!

verus! {

proof fn lemma_keep_live_contains(s: Seq<u64>, live: Set<u64>, id: u64)
    ensures
        keep_live(s, live).contains(id) == (s.contains(id) && live.contains(id)),
    decreases s.len(),
{
    if s.len() > 0 {
        let init = s.drop_last();
        lemma_keep_live_contains(init, live, id);
        let k = keep_live(init, live);
        if live.contains(s.last()) {
            assert(keep_live(s, live) == k.push(s.last()));
            if k.push(s.last()).contains(id) {
                let j = choose|j: int| 0 <= j < k.len() + 1 && k.push(s.last())[j] == id;
                if j < k.len() {
                    assert(k[j] == id);
                }
            }
            if k.contains(id) {
                let j = choose|j: int| 0 <= j < k.len() && k[j] == id;
                assert(k.push(s.last())[j] == id);
            }
            assert(k.push(s.last())[k.len() as int] == s.last());
        }
        if s.contains(id) {
            let j = choose|j: int| 0 <= j < s.len() && s[j] == id;
            if j < s.len() - 1 {
                assert(init[j] == id);
            }
        }
        if init.contains(id) {
            let j = choose|j: int| 0 <= j < init.len() && init[j] == id;
            assert(s[j] == id);
        }
    }
}

proof fn lemma_keep_live_no_dup(s: Seq<u64>, live: Set<u64>)
    requires
        s.no_duplicates(),
    ensures
        keep_live(s, live).no_duplicates(),
    decreases s.len(),
{
    if s.len() > 0 {
        let init = s.drop_last();
        assert forall|i: int, j: int| 0 <= i < j < init.len() implies init[i] != init[j] by {
            assert(init[i] == s[i] && init[j] == s[j]);
        }
        lemma_keep_live_no_dup(init, live);
        let k = keep_live(init, live);
        if live.contains(s.last()) {
            lemma_keep_live_contains(init, live, s.last());
            if init.contains(s.last()) {
                let j = choose|j: int| 0 <= j < init.len() && init[j] == s.last();
                assert(s[j] == s[s.len() - 1]);
            }
            let kk = k.push(s.last());
            assert forall|i: int, j: int| 0 <= i < j < kk.len() implies kk[i] != kk[j] by {
                if j == k.len() {
                    assert(k.contains(k[i]));
                }
            }
        }
    }
}

proof fn lemma_keep_live_append(p: Seq<u64>, q: Seq<u64>, live: Set<u64>)
    ensures
        keep_live(p + q, live) == keep_live(p, live) + keep_live(q, live),
    decreases q.len(),
{
    if q.len() == 0 {
        assert(p + q =~= p);
        assert(keep_live(p, live) + keep_live(q, live) =~= keep_live(p, live));
    } else {
        lemma_keep_live_append(p, q.drop_last(), live);
        assert((p + q).drop_last() =~= p + q.drop_last());
        assert((p + q).last() == q.last());
        if live.contains(q.last()) {
            assert(keep_live(p, live) + keep_live(q.drop_last(), live).push(q.last()) =~= (keep_live(p, live)
                + keep_live(q.drop_last(), live)).push(q.last()));
        }
    }
}

/// What visiting the known windows does to the order: it only appends,
/// each live window ends up in it once, and appended windows open a
/// column.
proof fn lemma_visit_all_order(b: BookView, known: Seq<(u64, bool)>, fb: Option<Seq<char>>, act: Seq<(Seq<char>, usize)>)
    requires
        b.order.no_duplicates(),
    ensures
        ({
            let o = visit_all(b, known, fb, act);
            &&& o.order.len() >= b.order.len()
            &&& o.order.take(b.order.len() as int) == b.order
            &&& o.order.no_duplicates()
            &&& forall|id: u64| #[trigger] o.order.contains(id) == (b.order.contains(id) || live_ids(known).contains(id))
            &&& forall|id: u64| o.order.contains(id) && !b.order.contains(id) ==> #[trigger] o.starts.contains(id)
        }),
    decreases known.len(),
{
    if known.len() > 0 {
        let init = known.drop_last();
        lemma_visit_all_order(b, init, fb, act);
        let p = visit_all(b, init, fb, act);
        let t = known.last();
        if t.1 && !p.order.contains(t.0) {
            let o = p.order.push(t.0);
            assert(o.take(b.order.len() as int) =~= p.order.take(b.order.len() as int));
            assert forall|i: int, j: int| 0 <= i < j < o.len() implies o[i] != o[j] by {
                if j == p.order.len() {
                    assert(p.order.contains(p.order[i]));
                }
            }
            assert forall|id: u64| #[trigger] o.contains(id) == (p.order.contains(id) || id == t.0) by {
                if o.contains(id) {
                    let j = choose|j: int| 0 <= j < o.len() && o[j] == id;
                    if j < p.order.len() {
                        assert(p.order[j] == id);
                    }
                }
                if p.order.contains(id) {
                    let j = choose|j: int| 0 <= j < p.order.len() && p.order[j] == id;
                    assert(o[j] == id);
                }
                assert(o[p.order.len() as int] == t.0);
            }
        }
    }
}

/// The column order after an update holds every live window exactly once
/// and nothing else; the windows it held before keep their relative order
/// ahead of the newcomers, and every newcomer opens a column. No record of
/// a dead window is left among the starts, rows and outputs.
pub proof fn lemma_reconcile_tracks_live_windows(
    b: BookView,
    known: Seq<(u64, bool)>,
    fb: Option<Seq<char>>,
    act: Seq<(Seq<char>, usize)>,
    avail: Seq<Seq<char>>,
)
    requires
        b.order.no_duplicates(),
    ensures
        ({
            let r = reconciled(b, known, fb, act, avail);
            let live = live_ids(known);
            let kept = keep_live(b.order, live);
            &&& r.order.no_duplicates()
            &&& forall|id: u64| #[trigger] r.order.contains(id) == live.contains(id)
            &&& r.order.len() >= kept.len()
            &&& r.order.take(kept.len() as int) == kept
            &&& forall|id: u64| r.order.contains(id) && !b.order.contains(id) ==> #[trigger] r.starts.contains(id)
            &&& forall|id: u64| #[trigger] r.starts.contains(id) ==> live.contains(id)
            &&& forall|id: u64| #[trigger] r.rows.contains_key(id) ==> live.contains(id)
            &&& forall|id: u64| #[trigger] r.outputs.contains_key(id) ==> live.contains(id)
        }),
{
    let o = visit_all(b, known, fb, act);
    let live = live_ids(known);
    let r = reconciled(b, known, fb, act, avail);
    lemma_visit_all_order(b, known, fb, act);
    lemma_keep_live_no_dup(o.order, live);
    assert forall|id: u64| #[trigger] r.order.contains(id) == live.contains(id) by {
        lemma_keep_live_contains(o.order, live, id);
        assert(o.order.contains(id) == (b.order.contains(id) || live.contains(id)));
    }
    let q = o.order.skip(b.order.len() as int);
    assert(o.order =~= b.order + q);
    lemma_keep_live_append(b.order, q, live);
    let kept = keep_live(b.order, live);
    assert(r.order.take(kept.len() as int) =~= kept);
    assert forall|id: u64| r.order.contains(id) && !b.order.contains(id) implies #[trigger] r.starts.contains(id) by {
        lemma_keep_live_contains(o.order, live, id);
    }
}

} // verus!

verus! {

/// Window `id` is tiled on the named output now: it lives there on the
/// output's active workspace `ws`, is not floating, is not the hidden
/// scratchpad, and is mapped.
pub open spec fn tiled_here(
    b: BookView,
    id: u64,
    name: Seq<char>,
    ws: usize,
    floating: Set<u64>,
    scratchpad: Option<u64>,
    scratchpad_visible: bool,
    mapped: Set<u64>,
) -> bool {
    &&& b.outputs.contains_key(id) && b.outputs[id] == name
    &&& b.workspaces.contains_key(id) && b.workspaces[id] == ws
    &&& !floating.contains(id)
    &&& !(scratchpad == Some(id) && !scratchpad_visible)
    &&& mapped.contains(id)
}

/// The windows of `order` tiled on the named output, in column order.
pub open spec fn tiled_on(
    order: Seq<u64>,
    b: BookView,
    name: Seq<char>,
    ws: usize,
    floating: Set<u64>,
    scratchpad: Option<u64>,
    scratchpad_visible: bool,
    mapped: Set<u64>,
) -> Seq<u64>
    decreases order.len(),
{
    if order.len() == 0 {
        Seq::empty()
    } else {
        let prev = tiled_on(order.drop_last(), b, name, ws, floating, scratchpad, scratchpad_visible, mapped);
        if tiled_here(b, order.last(), name, ws, floating, scratchpad, scratchpad_visible, mapped) {
            prev.push(order.last())
        } else {
            prev
        }
    }
}

/// The windows the named output lays out, in column order.
pub fn ordered_windows_on(
    book: &WindowBook,
    output: &str,
    active: &[(String, usize)],
    floating: &HashSet<u64>,
    scratchpad: Option<u64>,
    scratchpad_visible: bool,
    mapped: &HashSet<u64>,
) -> (ids: Vec<u64>)
    ensures
        ids@ == tiled_on(
            book.order@,
            book@,
            output@,
            active_on(active_view(active@), output@),
            floating@,
            scratchpad,
            scratchpad_visible,
            mapped@,
        ),
{
    let ws = active_workspace_on(active, output);
    let ghost b = book@;
    let mut ids: Vec<u64> = Vec::new();
    let mut i: usize = 0;
    while i < book.order.len()
        invariant
            i <= book.order@.len(),
            b == book@,
            ws == active_on(active_view(active@), output@),
            ids@ == tiled_on(book.order@.take(i as int), b, output@, ws, floating@, scratchpad, scratchpad_visible, mapped@),
        decreases book.order@.len() - i,
    {
        let id = book.order[i];
        proof {
            assert(book.order@.take(i + 1).drop_last() =~= book.order@.take(i as int));
            assert(book.order@.take(i + 1).last() == id);
        }
        let here = match book.outputs.get(&id) {
            Some(n) => {
                proof {
                    assert(b.outputs[id] == n@);
                }
                str_eq(n.as_str(), output)
            },
            None => false,
        };
        let on_ws = match book.workspaces.get(&id) {
            Some(w) => *w == ws,
            None => false,
        };
        let hidden = match scratchpad {
            Some(s) => s == id && !scratchpad_visible,
            None => false,
        };
        if here && on_ws && !floating.contains(&id) && !hidden && mapped.contains(&id) {
            ids.push(id);
        }
        i = i + 1;
    }
    proof {
        assert(book.order@.take(book.order@.len() as int) =~= book.order@);
    }
    ids
}

} // verus!

verus! {

/// How many ids of `order` are in `members`.
pub open spec fn member_count(order: Seq<u64>, members: Set<u64>) -> nat
    decreases order.len(),
{
    if order.len() == 0 {
        0
    } else {
        member_count(order.drop_last(), members) + if members.contains(order.last()) {
            1nat
        } else {
            0nat
        }
    }
}

/// `order` with the slots that hold members refilled from `ids`, in turn;
/// the other slots keep their ids.
pub open spec fn refill(order: Seq<u64>, members: Set<u64>, ids: Seq<u64>) -> Seq<u64> {
    Seq::new(
        order.len(),
        |k: int|
            if members.contains(order[k]) {
                ids[member_count(order.take(k), members) as int]
            } else {
                order[k]
            },
    )
}

/// The ids of `w`.
pub open spec fn members_of(w: Seq<u64>) -> Set<u64> {
    Set::new(|id: u64| w.contains(id))
}

proof fn lemma_count_prefix(order: Seq<u64>, members: Set<u64>, k: int)
    requires
        0 <= k <= order.len(),
    ensures
        member_count(order.take(k), members) <= member_count(order, members),
    decreases order.len(),
{
    if k < order.len() {
        assert(order.drop_last().take(k) =~= order.take(k));
        lemma_count_prefix(order.drop_last(), members, k);
    } else {
        assert(order.take(k) =~= order);
    }
}

fn members_set(w: &[u64]) -> (m: HashSet<u64>)
    ensures
        m@ == members_of(w@),
{
    let mut m: HashSet<u64> = HashSet::new();
    let mut i: usize = 0;
    while i < w.len()
        invariant
            i <= w@.len(),
            m@ == members_of(w@.take(i as int)),
        decreases w@.len() - i,
    {
        m.insert(w[i]);
        proof {
            assert forall|id: u64| #[trigger] m@.contains(id) == w@.take(i + 1).contains(id) by {
                if w@.take(i + 1).contains(id) {
                    let j = choose|j: int| 0 <= j < i + 1 && #[trigger] w@.take(i + 1)[j] == id;
                    if j < i {
                        assert(w@.take(i as int)[j] == id);
                    }
                }
                if w@.take(i as int).contains(id) {
                    let j = choose|j: int| 0 <= j < i && #[trigger] w@.take(i as int)[j] == id;
                    assert(w@.take(i + 1)[j] == id);
                }
                assert(w@.take(i + 1)[i as int] == w@[i as int]);
            }
            assert(m@ =~= members_of(w@.take(i + 1)));
        }
        i = i + 1;
    }
    proof {
        assert(w@.take(w@.len() as int) =~= w@);
    }
    m
}

fn copy_ids(w: &[u64]) -> (v: Vec<u64>)
    ensures
        v@ == w@,
{
    let mut v: Vec<u64> = Vec::new();
    let mut i: usize = 0;
    while i < w.len()
        invariant
            i <= w@.len(),
            v@ == w@.take(i as int),
        decreases w@.len() - i,
    {
        v.push(w[i]);
        proof {
            assert(v@ =~= w@.take(i + 1));
        }
        i = i + 1;
    }
    proof {
        assert(w@.take(w@.len() as int) =~= w@);
    }
    v
}

/// Refill the member slots of `order` from `ids`.
fn refill_order(order: &mut Vec<u64>, members: &HashSet<u64>, ids: &[u64])
    requires
        member_count(old(order)@, members@) <= ids@.len(),
    ensures
        final(order)@ == refill(old(order)@, members@, ids@),
{
    let ghost o = order@;
    let mut j: usize = 0;
    let mut k: usize = 0;
    while k < order.len()
        invariant
            o.len() == order@.len(),
            k <= o.len(),
            member_count(o, members@) <= ids@.len(),
            j == member_count(o.take(k as int), members@),
            forall|i: int| 0 <= i < k ==> order@[i] == #[trigger] refill(o, members@, ids@)[i],
            forall|i: int| k <= i < o.len() ==> order@[i] == o[i],
        decreases o.len() - k,
    {
        proof {
            assert(o.take(k + 1).drop_last() =~= o.take(k as int));
            assert(o.take(k + 1).last() == o[k as int]);
            lemma_count_prefix(o, members@, k + 1);
        }
        let id = order[k];
        if members.contains(&id) {
            order.set(k, ids[j]);
            j = j + 1;
        }
        k = k + 1;
    }
    proof {
        assert(order@ =~= refill(o, members@, ids@));
    }
}

/// Refilling member slots from ids that are all members reads back, among
/// the members, as those ids.
proof fn lemma_refill_reads_back(order: Seq<u64>, members: Set<u64>, ids: Seq<u64>)
    requires
        member_count(order, members) <= ids.len(),
        forall|i: int| 0 <= i < ids.len() ==> members.contains(#[trigger] ids[i]),
    ensures
        keep_live(refill(order, members, ids), members) == ids.take(member_count(order, members) as int),
    decreases order.len(),
{
    if order.len() == 0 {
        assert(ids.take(0) =~= Seq::<u64>::empty());
    } else {
        let init = order.drop_last();
        lemma_refill_reads_back(init, members, ids);
        let r = refill(order, members, ids);
        let ri = refill(init, members, ids);
        assert forall|k: int| 0 <= k < init.len() implies order.take(k) =~= init.take(k) by {}
        assert(r.drop_last() =~= ri);
        let c = member_count(init, members);
        assert(order.take(order.len() - 1) =~= init);
        if members.contains(order.last()) {
            assert(r.last() == ids[c as int]);
            assert(ids.take(c as int).push(ids[c as int]) =~= ids.take(c as int + 1));
        }
    }
}

/// Move the focused window (index `current` among the output's `windows`,
/// which hold their slots in the column order) to position `target_index`
/// (clamped to the last): the output's windows then read, in column order,
/// as before with that window taken out and put back at the target; all
/// other windows keep their slots. Returns the target, or `None` (and no
/// change) without windows, without focus, or when the window is there
/// already.
pub fn move_window_to(order: &mut Vec<u64>, windows: &[u64], current: Option<usize>, target_index: usize) -> (moved: Option<usize>)
    requires
        current matches Some(c) ==> c < windows@.len(),
        member_count(old(order)@, members_of(windows@)) <= windows@.len(),
    ensures
        match moved {
            Some(target) => {
                let c = current->0 as int;
                &&& current is Some
                &&& target == (if target_index < windows@.len() - 1 { target_index as int } else { windows@.len() - 1 })
                &&& target != c
                &&& final(order)@ == refill(old(order)@, members_of(windows@), windows@.remove(c).insert(target as int, windows@[c]))
            },
            None => {
                &&& final(order)@ == old(order)@
                &&& (current matches Some(c) ==> windows@.len() > 0 && c == (if target_index < windows@.len() - 1 {
                    target_index as int
                } else {
                    windows@.len() - 1
                }))
            },
        },
{
    if windows.len() == 0 {
        return None;
    }
    let c = match current {
        Some(c) => c,
        None => {
            return None;
        },
    };
    let target = if target_index < windows.len() - 1 {
        target_index
    } else {
        windows.len() - 1
    };
    if target == c {
        return None;
    }
    let mut ids: Vec<u64> = copy_ids(windows);
    let moved = ids.remove(c);
    ids.insert(target, moved);
    let members = members_set(windows);
    proof {
        assert(ids@ == windows@.remove(c as int).insert(target as int, windows@[c as int]));
    }
    refill_order(order, &members, ids.as_slice());
    Some(target)
}

} // verus!

verus! {

proof fn lemma_flatten_concat(p: Seq<Seq<u64>>, q: Seq<Seq<u64>>)
    ensures
        flatten(p + q) == flatten(p) + flatten(q),
    decreases q.len(),
{
    if q.len() == 0 {
        assert(p + q =~= p);
        assert(flatten(p) + flatten(q) =~= flatten(p));
    } else {
        lemma_flatten_concat(p, q.drop_last());
        assert((p + q).drop_last() =~= p + q.drop_last());
        assert((p + q).last() == q.last());
        assert(flatten(p) + flatten(q.drop_last()) + q.last() =~= flatten(p) + (flatten(q.drop_last()) + q.last()));
    }
}

proof fn lemma_flatten_one(x: Seq<u64>)
    ensures
        flatten(seq![x]) == x,
{
    let s = seq![x];
    assert(s.len() == 1);
    assert(s.last() == x);
    assert(s.drop_last() =~= Seq::<Seq<u64>>::empty());
    assert(flatten(s.drop_last()) == Seq::<u64>::empty());
    assert(Seq::<u64>::empty() + x =~= x);
}

/// Moving one column to another position keeps the ids, with their counts.
proof fn lemma_column_move_permutes(cs: Seq<Seq<u64>>, c: int, t: int)
    requires
        0 <= c < cs.len(),
        0 <= t < cs.len(),
    ensures
        flatten(cs.remove(c).insert(t, cs[c])).to_multiset() == flatten(cs).to_multiset(),
{
    broadcast use vstd::seq_lib::lemma_multiset_commutative;
    broadcast use vstd::multiset::group_multiset_axioms;
    let x = cs[c];
    let a = cs.take(c);
    let b = cs.skip(c + 1);
    let d = cs.remove(c);
    assert(cs =~= a + seq![x] + b);
    assert(d =~= a + b);
    lemma_flatten_concat(a + seq![x], b);
    lemma_flatten_concat(a, seq![x]);
    lemma_flatten_concat(a, b);
    lemma_flatten_one(x);
    let e = d.insert(t, x);
    let dl = d.take(t);
    let dr = d.skip(t);
    assert(d =~= dl + dr);
    assert(e =~= dl + seq![x] + dr);
    lemma_flatten_concat(dl + seq![x], dr);
    lemma_flatten_concat(dl, seq![x]);
    lemma_flatten_concat(dl, dr);
    let fa = flatten(a).to_multiset();
    let fb = flatten(b).to_multiset();
    let fx = x.to_multiset();
    let fl = flatten(dl).to_multiset();
    let fr = flatten(dr).to_multiset();
    assert(flatten(cs).to_multiset() =~= fa.add(fx).add(fb));
    assert(flatten(d).to_multiset() =~= fa.add(fb));
    assert(flatten(d).to_multiset() =~= fl.add(fr));
    assert(flatten(e).to_multiset() =~= fl.add(fx).add(fr));
    assert(fa.add(fx).add(fb) =~= fa.add(fb).add(fx));
    assert(fl.add(fx).add(fr) =~= fl.add(fr).add(fx));
    assert(flatten(e).to_multiset() =~= flatten(cs).to_multiset());
}

proof fn lemma_same_multiset_members(a: Seq<u64>, b: Seq<u64>)
    requires
        a.to_multiset() == b.to_multiset(),
    ensures
        members_of(a) == members_of(b),
        a.len() == b.len(),
{
    a.to_multiset_ensures();
    b.to_multiset_ensures();
    assert forall|id: u64| #[trigger] members_of(a).contains(id) == members_of(b).contains(id) by {
        assert(a.to_multiset().count(id) == b.to_multiset().count(id));
        assert(a.contains(id) == (a.to_multiset().count(id) > 0));
        assert(b.contains(id) == (b.to_multiset().count(id) > 0));
        assert(members_of(a).contains(id) == a.contains(id));
        assert(members_of(b).contains(id) == b.contains(id));
    }
    assert(members_of(a) =~= members_of(b));
}

/// The columns of `windows` with column `c` moved to position `t`, read
/// out window by window.
pub open spec fn columns_moved(windows: Seq<u64>, starts: Set<u64>, c: int, t: int) -> Seq<u64> {
    let cs = columns_spec(windows, starts);
    flatten(cs.remove(c).insert(t, cs[c]))
}

fn flatten_columns(cols: &Vec<Vec<u64>>) -> (ids: Vec<u64>)
    ensures
        ids@ == flatten(id_columns(cols@)),
{
    let mut ids: Vec<u64> = Vec::new();
    let mut i: usize = 0;
    while i < cols.len()
        invariant
            i <= cols@.len(),
            ids@ == flatten(id_columns(cols@).take(i as int)),
        decreases cols@.len() - i,
    {
        let ghost before = ids@;
        let col = &cols[i];
        let mut j: usize = 0;
        while j < col.len()
            invariant
                j <= col@.len(),
                ids@ == before + col@.take(j as int),
            decreases col@.len() - j,
        {
            ids.push(col[j]);
            proof {
                assert(ids@ =~= before + col@.take(j + 1));
            }
            j = j + 1;
        }
        proof {
            assert(col@.take(col@.len() as int) =~= col@);
            assert(id_columns(cols@).take(i + 1).drop_last() =~= id_columns(cols@).take(i as int));
            assert(id_columns(cols@).take(i + 1).last() == col@);
        }
        i = i + 1;
    }
    proof {
        assert(id_columns(cols@).take(cols@.len() as int) =~= id_columns(cols@));
    }
    ids
}

/// Move the focused window's scroll column, all its rows, to column
/// position `target_column` (clamped to the last): the output's windows
/// then read, in column order, as the columns with that one moved; all
/// other windows keep their slots. `focused` is the focused window's
/// (column, row). Returns the column it lands in, or `None` (and no
/// change) without windows or focus, or when it is there already.
pub fn move_column_to(
    order: &mut Vec<u64>,
    windows: &[u64],
    starts: &HashSet<u64>,
    focused: Option<(usize, usize)>,
    target_column: usize,
) -> (moved: Option<usize>)
    requires
        focused matches Some((c, r)) ==> c < columns_spec(windows@, starts@).len() && r < columns_spec(
            windows@,
            starts@,
        )[c as int].len(),
        member_count(old(order)@, members_of(windows@)) <= windows@.len(),
    ensures
        ({
            let n = columns_spec(windows@, starts@).len();
            match moved {
                Some(target) => {
                    let c = match focused {
                        Some(p) => p.0 as int,
                        None => 0,
                    };
                    &&& focused is Some
                    &&& target == (if target_column < n - 1 { target_column as int } else { n - 1 })
                    &&& target != c
                    &&& final(order)@ == refill(old(order)@, members_of(windows@), columns_moved(windows@, starts@, c, target as int))
                },
                None => {
                    &&& final(order)@ == old(order)@
                    &&& (focused matches Some((c, r)) ==> c == (if target_column < n - 1 {
                        target_column as int
                    } else {
                        n - 1
                    }))
                },
            }
        }),
{
    if windows.len() == 0 {
        return None;
    }
    let cols = columns_of(windows, starts);
    let ghost cs = columns_spec(windows@, starts@);
    proof {
        lemma_columns_partition(windows@, starts@);
    }
    let (c, _r) = match focused {
        Some(p) => p,
        None => {
            return None;
        },
    };
    let target = if target_column < cols.len() - 1 {
        target_column
    } else {
        cols.len() - 1
    };
    if target == c {
        return None;
    }
    let mut blocks = cols;
    let block = blocks.remove(c);
    blocks.insert(target, block);
    proof {
        assert(id_columns(blocks@) =~= cs.remove(c as int).insert(target as int, cs[c as int]));
    }
    let ids = flatten_columns(&blocks);
    proof {
        lemma_column_move_permutes(cs, c as int, target as int);
        lemma_same_multiset_members(ids@, windows@);
    }
    let members = members_set(windows);
    refill_order(order, &members, ids.as_slice());
    Some(target)
}

/// Moving a window to another position keeps the ids, with their counts.
proof fn lemma_window_move_permutes(w: Seq<u64>, c: int, t: int)
    requires
        0 <= c < w.len(),
        0 <= t < w.len(),
    ensures
        w.remove(c).insert(t, w[c]).to_multiset() == w.to_multiset(),
{
    broadcast use vstd::seq_lib::group_to_multiset_ensures;
    assert(w.remove(c).insert(t, w[c]).to_multiset() =~= w.to_multiset().remove(w[c]).insert(w[c]));
}

/// Refilling the slots of `windows` (each holding exactly one slot of the
/// column order) with a rearrangement of them: those windows then read,
/// in column order, as the rearrangement, and every other slot keeps its
/// window.
proof fn lemma_rearranged_reads_back(order: Seq<u64>, windows: Seq<u64>, ids: Seq<u64>)
    requires
        member_count(order, members_of(windows)) == windows.len(),
        ids.to_multiset() == windows.to_multiset(),
    ensures
        keep_live(refill(order, members_of(windows), ids), members_of(windows)) == ids,
        refill(order, members_of(windows), ids).len() == order.len(),
        forall|k: int|
            0 <= k < order.len() && !members_of(windows).contains(order[k]) ==> #[trigger] refill(
                order,
                members_of(windows),
                ids,
            )[k] == order[k],
{
    lemma_same_multiset_members(ids, windows);
    assert forall|i: int| 0 <= i < ids.len() implies members_of(windows).contains(#[trigger] ids[i]) by {
        assert(members_of(ids).contains(ids[i]));
    }
    lemma_refill_reads_back(order, members_of(windows), ids);
    assert(ids.take(ids.len() as int) =~= ids);
}

/// After moving the focused window (position `c`) to position `t`, the
/// output's windows read, in column order, as before with that window
/// moved, and no other window changes slot (each of the output's windows
/// holding one slot of the column order).
pub proof fn lemma_window_move_reads_back(order: Seq<u64>, windows: Seq<u64>, c: int, t: int)
    requires
        member_count(order, members_of(windows)) == windows.len(),
        0 <= c < windows.len(),
        0 <= t < windows.len(),
    ensures
        ({
            let moved = windows.remove(c).insert(t, windows[c]);
            let r = refill(order, members_of(windows), moved);
            &&& keep_live(r, members_of(windows)) == moved
            &&& r.len() == order.len()
            &&& forall|k: int| 0 <= k < order.len() && !members_of(windows).contains(order[k]) ==> #[trigger] r[k] == order[k]
        }),
{
    lemma_window_move_permutes(windows, c, t);
    lemma_rearranged_reads_back(order, windows, windows.remove(c).insert(t, windows[c]));
}

/// After moving the focused column (position `c`) to column position `t`,
/// the output's windows read, in column order, as the columns with that
/// one moved, and no other window changes slot (each of the output's
/// windows holding one slot of the column order).
pub proof fn lemma_column_move_reads_back(order: Seq<u64>, windows: Seq<u64>, starts: Set<u64>, c: int, t: int)
    requires
        member_count(order, members_of(windows)) == windows.len(),
        0 <= c < columns_spec(windows, starts).len(),
        0 <= t < columns_spec(windows, starts).len(),
    ensures
        ({
            let moved = columns_moved(windows, starts, c, t);
            let r = refill(order, members_of(windows), moved);
            &&& keep_live(r, members_of(windows)) == moved
            &&& r.len() == order.len()
            &&& forall|k: int| 0 <= k < order.len() && !members_of(windows).contains(order[k]) ==> #[trigger] r[k] == order[k]
        }),
{
    lemma_columns_partition(windows, starts);
    lemma_column_move_permutes(columns_spec(windows, starts), c, t);
    lemma_rearranged_reads_back(order, windows, columns_moved(windows, starts, c, t));
}

} // verus!

verus! {

/// `order` without `id`.
pub open spec fn without(order: Seq<u64>, id: u64) -> Seq<u64>
    decreases order.len(),
{
    if order.len() == 0 {
        Seq::empty()
    } else if order.last() == id {
        without(order.drop_last(), id)
    } else {
        without(order.drop_last(), id).push(order.last())
    }
}

/// Forget a window that was destroyed: it leaves the column order, the
/// column starts, the remembered rows, and its output and workspace.
pub fn forget_window(book: &mut WindowBook, id: u64)
    ensures
        final(book)@.order == without(old(book)@.order, id),
        final(book)@.starts == old(book)@.starts.remove(id),
        final(book)@.rows == old(book)@.rows.remove(id),
        final(book)@.outputs == old(book)@.outputs.remove(id),
        final(book)@.workspaces == old(book)@.workspaces.remove(id),
{
    book.workspaces.remove(&id);
    book.outputs.remove(&id);
    let mut order: Vec<u64> = Vec::new();
    let mut i: usize = 0;
    while i < book.order.len()
        invariant
            i <= book.order@.len(),
            book.order@ == old(book).order@,
            order@ == without(book.order@.take(i as int), id),
        decreases book.order@.len() - i,
    {
        let x = book.order[i];
        proof {
            assert(book.order@.take(i + 1).drop_last() =~= book.order@.take(i as int));
            assert(book.order@.take(i + 1).last() == x);
        }
        if x != id {
            order.push(x);
        }
        i = i + 1;
    }
    proof {
        assert(book.order@.take(book.order@.len() as int) =~= book.order@);
    }
    book.order = order;
    book.starts.remove(&id);
    book.rows.remove(&id);
    proof {
        assert(names_view(book.outputs@) =~= names_view(old(book).outputs@).remove(id));
    }
}

proof fn lemma_without_contains(order: Seq<u64>, id: u64, x: u64)
    ensures
        without(order, id).contains(x) == (order.contains(x) && x != id),
    decreases order.len(),
{
    if order.len() > 0 {
        let init = order.drop_last();
        lemma_without_contains(init, id, x);
        let w = without(init, id);
        if order.last() != id {
            let wp = w.push(order.last());
            if wp.contains(x) {
                let j = choose|j: int| 0 <= j < wp.len() && wp[j] == x;
                if j < w.len() {
                    assert(w[j] == x);
                }
            }
            if w.contains(x) {
                let j = choose|j: int| 0 <= j < w.len() && w[j] == x;
                assert(wp[j] == x);
            }
            assert(wp[w.len() as int] == order.last());
        }
        if order.contains(x) {
            let j = choose|j: int| 0 <= j < order.len() && order[j] == x;
            if j < order.len() - 1 {
                assert(init[j] == x);
            }
        }
        if init.contains(x) {
            let j = choose|j: int| 0 <= j < init.len() && init[j] == x;
            assert(order[j] == x);
        }
    }
}

/// A forgotten window leaves no trace in the records, and every other
/// window's records stay as they were.
pub proof fn lemma_forget_leaves_no_trace(b: BookView, id: u64, other: u64)
    requires
        other != id,
    ensures
        !without(b.order, id).contains(id),
        without(b.order, id).contains(other) == b.order.contains(other),
        !b.starts.remove(id).contains(id),
        b.starts.remove(id).contains(other) == b.starts.contains(other),
        !b.rows.remove(id).contains_key(id),
        !b.outputs.remove(id).contains_key(id),
        !b.workspaces.remove(id).contains_key(id),
        b.outputs.remove(id).contains_key(other) == b.outputs.contains_key(other),
        b.outputs.contains_key(other) ==> b.outputs.remove(id)[other] == b.outputs[other],
        b.workspaces.contains_key(other) ==> b.workspaces.remove(id)[other] == b.workspaces[other],
{
    lemma_without_contains(b.order, id, id);
    lemma_without_contains(b.order, id, other);
}

} // verus!

verus! {

/// The first maximized window, from index `i` of `maximized` on, that lives
/// on the named output and stands in one of `cols`; the top of its column.
pub open spec fn maximized_anchor_from(
    maximized: Seq<u64>,
    cols: Seq<Seq<u64>>,
    outputs: Map<u64, Seq<char>>,
    name: Seq<char>,
    i: int,
) -> Option<u64>
    decreases maximized.len() - i,
{
    if i < 0 || i >= maximized.len() {
        None
    } else {
        let m = maximized[i];
        if outputs.contains_key(m) && outputs[m] == name && anchor_from(cols, m, 0) is Some {
            anchor_from(cols, m, 0)
        } else {
            maximized_anchor_from(maximized, cols, outputs, name, i + 1)
        }
    }
}

/// How the scroll layout arranges one output's columns.
pub struct ScrollPlan {
    /// The column the view follows.
    pub active: usize,
    /// The top window of the maximized window's column, if one is here.
    pub maximized_anchor: Option<u64>,
    /// The focused row of each column.
    pub rows: Vec<usize>,
}

/// The remembered rows once the focused column's row is recorded.
pub open spec fn rows_after(rows: Map<u64, usize>, cols: Seq<Seq<u64>>, focused: Option<(usize, usize)>) -> Map<u64, usize> {
    match focused {
        Some(p) => rows.insert(cols[p.0 as int][0], p.1),
        None => rows,
    }
}

/// The focused row of column `i`: the focused window's row in its column;
/// elsewhere the row remembered for the column's top window (0 if none),
/// as recorded when the columns before it were arranged.
pub open spec fn column_row(rows: Map<u64, usize>, cols: Seq<Seq<u64>>, focused: Option<(usize, usize)>, i: int) -> usize {
    match focused {
        Some(p) => if p.0 == i {
            p.1
        } else {
            let m = if p.0 < i {
                rows_after(rows, cols, focused)
            } else {
                rows
            };
            if m.contains_key(cols[i][0]) {
                m[cols[i][0]]
            } else {
                0
            }
        },
        None => if rows.contains_key(cols[i][0]) {
            rows[cols[i][0]]
        } else {
            0
        },
    }
}

/// The column the view follows: the focused one, else the remembered one
/// (the first when none is), never past the last.
pub open spec fn active_column(n: int, focused: Option<(usize, usize)>, remembered: Option<usize>) -> int {
    let want = match focused {
        Some(p) => p.0 as int,
        None => match remembered {
            Some(r) => r as int,
            None => 0,
        },
    };
    if want < n - 1 {
        want
    } else {
        n - 1
    }
}

/// Arrange the scroll columns of one output: which column is active, where
/// a maximized window's column stands, and which row of each column has
/// focus; the focused column's row is remembered for its top window.
pub fn scroll_plan(
    book: &mut WindowBook,
    columns: &Vec<Vec<u64>>,
    output: &str,
    focused: Option<(usize, usize)>,
    remembered: Option<usize>,
    maximized: &[u64],
) -> (plan: ScrollPlan)
    requires
        columns@.len() > 0,
        forall|i: int| 0 <= i < columns@.len() ==> #[trigger] columns@[i]@.len() > 0,
        focused matches Some(p) ==> p.0 < columns@.len(),
    ensures
        plan.active == active_column(columns@.len() as int, focused, remembered),
        plan.maximized_anchor == maximized_anchor_from(maximized@, id_columns(columns@), old(book)@.outputs, output@, 0),
        plan.rows@.len() == columns@.len(),
        forall|i: int| 0 <= i < columns@.len() ==> #[trigger] plan.rows@[i] == column_row(
            old(book)@.rows,
            id_columns(columns@),
            focused,
            i,
        ),
        final(book)@.rows == rows_after(old(book)@.rows, id_columns(columns@), focused),
        final(book)@.order == old(book)@.order,
        final(book)@.starts == old(book)@.starts,
        final(book)@.outputs == old(book)@.outputs,
        final(book)@.workspaces == old(book)@.workspaces,
{
    let n = columns.len();
    let want = match focused {
        Some(p) => p.0,
        None => match remembered {
            Some(r) => r,
            None => 0,
        },
    };
    let active = if want < n - 1 {
        want
    } else {
        n - 1
    };
    let ghost cs = id_columns(columns@);
    let ghost b0 = book@;
    // The maximized window's column.
    let mut maximized_anchor: Option<u64> = None;
    let mut i: usize = 0;
    while i < maximized.len() && maximized_anchor.is_none()
        invariant
            i <= maximized@.len(),
            cs == id_columns(columns@),
            b0 == book@,
            maximized_anchor is None ==> maximized_anchor_from(maximized@, cs, b0.outputs, output@, 0)
                == maximized_anchor_from(maximized@, cs, b0.outputs, output@, i as int),
            maximized_anchor is Some ==> maximized_anchor_from(maximized@, cs, b0.outputs, output@, 0)
                == maximized_anchor,
        decreases maximized@.len() - i,
    {
        let m = maximized[i];
        let here = match book.outputs.get(&m) {
            Some(name) => {
                proof {
                    assert(b0.outputs[m] == name@);
                }
                str_eq(name.as_str(), output)
            },
            None => false,
        };
        if here {
            let a = anchor_in_columns(columns, m);
            if a.is_some() {
                maximized_anchor = a;
            }
        }
        i = i + 1;
    }
    // The focused row of each column.
    let mut rows: Vec<usize> = Vec::new();
    let mut k: usize = 0;
    while k < n
        invariant
            n == columns@.len(),
            k <= n,
            cs == id_columns(columns@),
            forall|j: int| 0 <= j < columns@.len() ==> #[trigger] columns@[j]@.len() > 0,
            focused matches Some(p) ==> p.0 < columns@.len(),
            rows@.len() == k,
            forall|j: int| 0 <= j < k ==> #[trigger] rows@[j] == column_row(b0.rows, cs, focused, j),
            book@.rows == (match focused {
                Some(p) => if p.0 < k {
                    rows_after(b0.rows, cs, focused)
                } else {
                    b0.rows
                },
                None => b0.rows,
            }),
            book@.order == b0.order,
            book@.starts == b0.starts,
            book@.outputs == b0.outputs,
            book@.workspaces == b0.workspaces,
        decreases n - k,
    {
        assert(columns@[k as int]@.len() > 0);
        let top = columns[k][0];
        assert(cs[k as int][0] == top);
        let row = match focused {
            Some(p) => {
                if p.0 == k {
                    book.rows.insert(top, p.1);
                    p.1
                } else {
                    match book.rows.get(&top) {
                        Some(r) => *r,
                        None => 0,
                    }
                }
            },
            None => match book.rows.get(&top) {
                Some(r) => *r,
                None => 0,
            },
        };
        rows.push(row);
        k = k + 1;
    }
    ScrollPlan { active, maximized_anchor, rows }
}

} // verus!

verus! {

/// The window focus lands on when a workspace comes up, with the column
/// (or, outside the scroll layout, the window position) to remember;
/// `None` when the workspace is empty and focus is cleared.
pub open spec fn workspace_top_spec(
    windows: Seq<u64>,
    starts: Set<u64>,
    rows: Map<u64, usize>,
    scroll: bool,
    remembered: Option<usize>,
) -> Option<(usize, u64)> {
    let want: int = match remembered {
        Some(r) => r as int,
        None => 0,
    };
    if windows.len() == 0 {
        None
    } else if scroll {
        let cs = columns_spec(windows, starts);
        let col = if want < cs.len() - 1 {
            want
        } else {
            cs.len() - 1
        };
        let top = cs[col][0];
        let row = landing_row_spec(
            cs[col].len() as int,
            if rows.contains_key(top) {
                Some(rows[top])
            } else {
                None
            },
        );
        Some((col as usize, cs[col][row]))
    } else {
        let i = if want < windows.len() - 1 {
            want
        } else {
            windows.len() - 1
        };
        Some((i as usize, windows[i]))
    }
}

/// Focus the top of a workspace that just came up on an output: in the
/// scroll layout the remembered column (clamped to the last) at its
/// remembered row, otherwise the remembered position; nothing when the
/// workspace holds no window.
pub fn focus_workspace_top(
    book: &WindowBook,
    windows: &[u64],
    scroll_layout: bool,
    remembered: Option<usize>,
) -> (r: Option<(usize, u64)>)
    ensures
        r == workspace_top_spec(windows@, book@.starts, book@.rows, scroll_layout, remembered),
{
    if windows.len() == 0 {
        return None;
    }
    let want = match remembered {
        Some(r) => r,
        None => 0,
    };
    if scroll_layout {
        let cols = columns_of(windows, &book.starts);
        let ghost cs = columns_spec(windows@, book@.starts);
        proof {
            lemma_columns_partition(windows@, book@.starts);
            assert(cs[0].len() > 0);
        }
        let col = if want < cols.len() - 1 {
            want
        } else {
            cols.len() - 1
        };
        assert(cs[col as int] == cols@[col as int]@);
        assert(cs[col as int].len() > 0);
        let top = cols[col][0];
        let remembered_row = match book.rows.get(&top) {
            Some(r) => Some(*r),
            None => None,
        };
        let row = landing_row(cols[col].len(), remembered_row);
        Some((col, cols[col][row]))
    } else {
        let i = if want < windows.len() - 1 {
            want
        } else {
            windows.len() - 1
        };
        Some((i, windows[i]))
    }
}

} // verus!

verus! {

/// The records once window `id`, dragged with the pointer, is dropped over
/// the output `dest` (if the pointer is over one): it moves to that output
/// and its active workspace. A tiled window dropped onto another window
/// `target` trades places with it in the column order, the other window
/// taking over the dragged one's former output.
pub open spec fn dropped(
    b: BookView,
    id: u64,
    tiled: bool,
    dest: Option<Seq<char>>,
    target: Option<u64>,
    active: Seq<(Seq<char>, usize)>,
) -> BookView {
    match dest {
        None => b,
        Some(d) => {
            let swapped = match target {
                Some(t) => tiled && t != id,
                None => false,
            };
            let t = target->0;
            let outputs = if swapped {
                b.outputs.insert(
                    t,
                    if b.outputs.contains_key(id) {
                        b.outputs[id]
                    } else {
                        d
                    },
                )
            } else {
                b.outputs
            };
            BookView {
                order: if swapped {
                    swap_ids_spec(b.order, id, t)
                } else {
                    b.order
                },
                starts: b.starts,
                rows: b.rows,
                outputs: outputs.insert(id, d),
                workspaces: b.workspaces.insert(id, active_on(active, d)),
            }
        },
    }
}

/// Drop the dragged window `id` (`tiled`: neither floating nor on the
/// canvas) over the output `dest`, onto the window `target` under the
/// pointer if any.
pub fn drop_window(
    book: &mut WindowBook,
    id: u64,
    tiled: bool,
    dest: &Option<String>,
    target: Option<u64>,
    active: &[(String, usize)],
)
    ensures
        final(book)@ == dropped(old(book)@, id, tiled, opt_name(*dest), target, active_view(active@)),
{
    let d = match dest {
        Some(d) => d,
        None => {
            return;
        },
    };
    let ghost b0 = book@;
    match target {
        Some(t) => {
            if tiled && t != id {
                let source = match book.outputs.get(&id) {
                    Some(n) => n.clone(),
                    None => d.clone(),
                };
                book.outputs.insert(t, source);
                swap_ids(&mut book.order, id, t);
            }
        },
        None => {},
    }
    let ws = active_workspace_on(active, d.as_str());
    book.outputs.insert(id, d.clone());
    book.workspaces.insert(id, ws);
    proof {
        assert(names_view(book.outputs@) =~= dropped(b0, id, tiled, opt_name(*dest), target, active_view(active@)).outputs);
        assert(book@ =~= dropped(b0, id, tiled, opt_name(*dest), target, active_view(active@)));
    }
}

} // verus!

verus! {

/// Where window `id` stands in the column order (`usize::MAX` when it is
/// not there).
pub open spec fn order_rank(order: Seq<u64>, id: u64) -> int {
    match first_index_of(order, id, 0) {
        Some(i) => i,
        None => usize::MAX as int,
    }
}

/// Where a window of rank `rank` goes among `s`: before the first window
/// from index `i` on that ranks after it.
pub open spec fn rank_insert_index(order: Seq<u64>, s: Seq<u64>, rank: int, i: int) -> int
    decreases s.len() - i,
{
    if i < 0 || i >= s.len() {
        s.len() as int
    } else if rank < order_rank(order, s[i]) {
        i
    } else {
        rank_insert_index(order, s, rank, i + 1)
    }
}

/// `ids` sorted by their place in the column order; ties keep their order.
pub open spec fn by_column_order(order: Seq<u64>, ids: Seq<u64>) -> Seq<u64>
    decreases ids.len(),
{
    if ids.len() == 0 {
        Seq::empty()
    } else {
        let s = by_column_order(order, ids.drop_last());
        s.insert(rank_insert_index(order, s, order_rank(order, ids.last()), 0), ids.last())
    }
}

/// The overview shows window `id` (with `alive` whether its surface still
/// lives) in the cell of workspace `ws` on the named output.
pub open spec fn shown_in_cell(
    b: BookView,
    id: u64,
    alive: bool,
    closing: Set<u64>,
    scratchpad: Option<u64>,
    scratchpad_visible: bool,
    name: Seq<char>,
    ws: usize,
) -> bool {
    &&& alive
    &&& !closing.contains(id)
    &&& !(scratchpad == Some(id) && !scratchpad_visible)
    &&& b.outputs.contains_key(id) && b.outputs[id] == name
    &&& b.workspaces.contains_key(id) && b.workspaces[id] == ws
}

/// The windows of `known` (`(id, alive)`) that the cell shows, in their
/// order in `known`.
pub open spec fn cell_candidates(
    known: Seq<(u64, bool)>,
    b: BookView,
    closing: Set<u64>,
    scratchpad: Option<u64>,
    scratchpad_visible: bool,
    name: Seq<char>,
    ws: usize,
) -> Seq<u64>
    decreases known.len(),
{
    if known.len() == 0 {
        Seq::empty()
    } else {
        let prev = cell_candidates(known.drop_last(), b, closing, scratchpad, scratchpad_visible, name, ws);
        let t = known.last();
        if shown_in_cell(b, t.0, t.1, closing, scratchpad, scratchpad_visible, name, ws) {
            prev.push(t.0)
        } else {
            prev
        }
    }
}

fn rank_in(order: &Vec<u64>, id: u64) -> (r: usize)
    ensures
        r as int == order_rank(order@, id),
{
    match index_of(order.as_slice(), id) {
        Some(i) => i,
        None => usize::MAX,
    }
}

proof fn lemma_rank_insert_skip(order: Seq<u64>, s: Seq<u64>, rank: int, i: int, j: int)
    requires
        0 <= i <= j <= s.len(),
        forall|k: int| i <= k < j ==> !(rank < order_rank(order, #[trigger] s[k])),
    ensures
        rank_insert_index(order, s, rank, i) == rank_insert_index(order, s, rank, j),
    decreases j - i,
{
    if i < j {
        lemma_rank_insert_skip(order, s, rank, i + 1, j);
    }
}

/// The windows the overview shows in the cell of workspace `ws` on the
/// named output: of `known` (`(id, alive)`, all managed windows), the live
/// ones not closing, not the hidden scratchpad, living there; in column
/// order (windows outside it last, in their order).
pub fn overview_windows(
    book: &WindowBook,
    known: &[(u64, bool)],
    closing: &HashSet<u64>,
    scratchpad: Option<u64>,
    scratchpad_visible: bool,
    output: &str,
    ws: usize,
) -> (ids: Vec<u64>)
    ensures
        ids@ == by_column_order(
            book.order@,
            cell_candidates(known@, book@, closing@, scratchpad, scratchpad_visible, output@, ws),
        ),
{
    let ghost b = book@;
    let ghost cands = cell_candidates(known@, b, closing@, scratchpad, scratchpad_visible, output@, ws);
    let mut picked: Vec<u64> = Vec::new();
    let mut i: usize = 0;
    while i < known.len()
        invariant
            i <= known@.len(),
            b == book@,
            picked@ == cell_candidates(known@.take(i as int), b, closing@, scratchpad, scratchpad_visible, output@, ws),
        decreases known@.len() - i,
    {
        let (id, alive) = known[i];
        proof {
            assert(known@.take(i + 1).drop_last() =~= known@.take(i as int));
            assert(known@.take(i + 1).last() == (id, alive));
        }
        let here = match book.outputs.get(&id) {
            Some(n) => {
                proof {
                    assert(b.outputs[id] == n@);
                }
                str_eq(n.as_str(), output)
            },
            None => false,
        };
        let on_ws = match book.workspaces.get(&id) {
            Some(w) => *w == ws,
            None => false,
        };
        let hidden = match scratchpad {
            Some(s) => s == id && !scratchpad_visible,
            None => false,
        };
        if alive && !closing.contains(&id) && !hidden && here && on_ws {
            picked.push(id);
        }
        i = i + 1;
    }
    proof {
        assert(known@.take(known@.len() as int) =~= known@);
    }
    let mut sorted: Vec<u64> = Vec::new();
    let mut k: usize = 0;
    while k < picked.len()
        invariant
            k <= picked@.len(),
            picked@ == cands,
            sorted@ == by_column_order(book.order@, cands.take(k as int)),
        decreases picked@.len() - k,
    {
        let id = picked[k];
        let rank = rank_in(&book.order, id);
        proof {
            assert(cands.take(k + 1).drop_last() =~= cands.take(k as int));
            assert(cands.take(k + 1).last() == id);
        }
        let mut j: usize = 0;
        while j < sorted.len() && !(rank < rank_in(&book.order, sorted[j]))
            invariant
                j <= sorted@.len(),
                rank as int == order_rank(book.order@, id),
                forall|q: int| 0 <= q < j ==> !(rank < order_rank(book.order@, #[trigger] sorted@[q])),
            decreases sorted@.len() - j,
        {
            j = j + 1;
        }
        proof {
            lemma_rank_insert_skip(book.order@, sorted@, rank as int, 0, j as int);
        }
        sorted.insert(j, id);
        k = k + 1;
    }
    proof {
        assert(cands.take(picked@.len() as int) =~= cands);
    }
    sorted
}

} // verus!

verus! {

/// Output `name` draws window `id`: it lives there, or it is being dragged
/// and the pointer is over this output; the hidden scratchpad never.
pub open spec fn drawn_here(
    b: BookView,
    id: u64,
    name: Seq<char>,
    scratchpad: Option<u64>,
    scratchpad_visible: bool,
    dragging: Option<u64>,
    pointer_here: bool,
) -> bool {
    &&& !(scratchpad == Some(id) && !scratchpad_visible)
    &&& ((b.outputs.contains_key(id) && b.outputs[id] == name) || (pointer_here && dragging == Some(id)))
}

/// The windows of `stacked` an output draws, in stacking order.
pub open spec fn drawn_on(
    stacked: Seq<u64>,
    b: BookView,
    name: Seq<char>,
    scratchpad: Option<u64>,
    scratchpad_visible: bool,
    dragging: Option<u64>,
    pointer_here: bool,
) -> Seq<u64>
    decreases stacked.len(),
{
    if stacked.len() == 0 {
        Seq::empty()
    } else {
        let prev = drawn_on(stacked.drop_last(), b, name, scratchpad, scratchpad_visible, dragging, pointer_here);
        if drawn_here(b, stacked.last(), name, scratchpad, scratchpad_visible, dragging, pointer_here) {
            prev.push(stacked.last())
        } else {
            prev
        }
    }
}

/// The windows the named output draws, in stacking order: `stacked` are
/// the mapped windows bottom to top, `dragging` the window being dragged
/// and `pointer_here` whether the pointer is over this output.
pub fn render_windows_on(
    book: &WindowBook,
    stacked: &[u64],
    output: &str,
    scratchpad: Option<u64>,
    scratchpad_visible: bool,
    dragging: Option<u64>,
    pointer_here: bool,
) -> (ids: Vec<u64>)
    ensures
        ids@ == drawn_on(stacked@, book@, output@, scratchpad, scratchpad_visible, dragging, pointer_here),
{
    let ghost b = book@;
    let dragged_here = pointer_here && dragging.is_some();
    let mut ids: Vec<u64> = Vec::new();
    let mut i: usize = 0;
    while i < stacked.len()
        invariant
            i <= stacked@.len(),
            b == book@,
            dragged_here == (pointer_here && dragging is Some),
            ids@ == drawn_on(stacked@.take(i as int), b, output@, scratchpad, scratchpad_visible, dragging, pointer_here),
        decreases stacked@.len() - i,
    {
        let id = stacked[i];
        proof {
            assert(stacked@.take(i + 1).drop_last() =~= stacked@.take(i as int));
            assert(stacked@.take(i + 1).last() == id);
        }
        let hidden = match scratchpad {
            Some(s) => s == id && !scratchpad_visible,
            None => false,
        };
        let here = match book.outputs.get(&id) {
            Some(n) => {
                proof {
                    assert(b.outputs[id] == n@);
                }
                str_eq(n.as_str(), output)
            },
            None => false,
        };
        let dragged = match dragging {
            Some(d) => dragged_here && d == id,
            None => false,
        };
        if !hidden && (here || dragged) {
            ids.push(id);
        }
        i = i + 1;
    }
    proof {
        assert(stacked@.take(stacked@.len() as int) =~= stacked@);
    }
    ids
}

} // verus!

verus! {

/// The focused row of every column, as [`scroll_plan`] reads them.
pub open spec fn column_rows_spec(rows: Map<u64, usize>, cols: Seq<Seq<u64>>, focused: Option<(usize, usize)>) -> Seq<usize> {
    Seq::new(cols.len(), |i: int| column_row(rows, cols, focused, i))
}

/// Where the scroll view starts: while a tile resize drags a window of the
/// active column, at the resized tile's left edge; otherwise where the
/// active column is brought on screen.
pub open spec fn arranged_origin(
    cols: Seq<Seq<u64>>,
    screen: Rect,
    gaps: int,
    active: int,
    anchor: Option<u64>,
    custom: Map<u64, i32>,
    tile_resize: Option<(u64, i32)>,
) -> Point {
    let o = view_origin_spec(screen, gaps, active, anchor, reps_of(cols), custom);
    match tile_resize {
        Some((rid, x)) => if cols[active].contains(rid) {
            Point { x, y: screen.loc.y }
        } else {
            Point { x: o.0 as i32, y: o.1 as i32 }
        },
        None => Point { x: o.0 as i32, y: o.1 as i32 },
    }
}

/// How one output's scroll strip is arranged.
pub struct ScrollArrangement {
    /// The column the view follows.
    pub active: usize,
    /// Where the active column starts on screen.
    pub origin: Point,
    /// Every window with its tile.
    pub tiles: Vec<(u64, Rect)>,
}

/// The arithmetic of [`arrange_scroll`] fits `i32`.
pub open spec fn arrange_fits(
    rows: Map<u64, usize>,
    outputs: Map<u64, Seq<char>>,
    cols: Seq<Seq<u64>>,
    output: Seq<char>,
    focused: Option<(usize, usize)>,
    remembered: Option<usize>,
    maximized: Seq<u64>,
    tile_resize: Option<(u64, i32)>,
    screen: Rect,
    gaps: int,
    custom: Map<u64, i32>,
) -> bool {
    let active = active_column(cols.len() as int, focused, remembered);
    let anchor = maximized_anchor_from(maximized, cols, outputs, output, 0);
    let origin = arranged_origin(cols, screen, gaps, active, anchor, custom, tile_resize);
    &&& view_origin_fits(screen, gaps, active, anchor, reps_of(cols), custom)
    &&& scroll_tiles_fit(cols, screen, gaps, active, origin, anchor, custom, column_rows_spec(rows, cols, focused))
}

fn column_holds(col: &Vec<u64>, id: u64) -> (b: bool)
    ensures
        b == col@.contains(id),
{
    let mut i: usize = 0;
    while i < col.len()
        invariant
            i <= col@.len(),
            forall|j: int| 0 <= j < i ==> col@[j] != id,
        decreases col@.len() - i,
    {
        if col[i] == id {
            proof {
                assert(col@[i as int] == id);
            }
            return true;
        }
        i = i + 1;
    }
    false
}

/// Arrange the scroll strip of one output on `screen`: choose the active
/// column and the maximized window's column ([`scroll_plan`]), place the
/// view (following a tile resize of the active column when one runs), and
/// tile every window, remembering the focused column's row.
pub fn arrange_scroll(
    book: &mut WindowBook,
    columns: &Vec<Vec<u64>>,
    output: &str,
    focused: Option<(usize, usize)>,
    remembered: Option<usize>,
    maximized: &[u64],
    tile_resize: Option<(u64, i32)>,
    screen: Rect,
    gaps: i32,
    custom: &HashMap<u64, i32>,
) -> (arr: ScrollArrangement)
    requires
        columns@.len() > 0,
        forall|i: int| 0 <= i < columns@.len() ==> #[trigger] columns@[i]@.len() > 0,
        focused matches Some(p) ==> p.0 < columns@.len(),
        arrange_fits(
            old(book)@.rows,
            old(book)@.outputs,
            id_columns(columns@),
            output@,
            focused,
            remembered,
            maximized@,
            tile_resize,
            screen,
            gaps as int,
            custom@,
        ),
    ensures
        ({
            let cols = id_columns(columns@);
            let anchor = maximized_anchor_from(maximized@, cols, old(book)@.outputs, output@, 0);
            &&& arr.active == active_column(cols.len() as int, focused, remembered)
            &&& arr.origin == arranged_origin(cols, screen, gaps as int, arr.active as int, anchor, custom@, tile_resize)
            &&& arr.tiles@ == scroll_tiles_upto(
                cols,
                screen,
                gaps as int,
                arr.active as int,
                arr.origin,
                anchor,
                custom@,
                column_rows_spec(old(book)@.rows, cols, focused),
                cols.len() as int,
            )
        }),
        final(book)@.rows == rows_after(old(book)@.rows, id_columns(columns@), focused),
        final(book)@.order == old(book)@.order,
        final(book)@.starts == old(book)@.starts,
        final(book)@.outputs == old(book)@.outputs,
        final(book)@.workspaces == old(book)@.workspaces,
{
    let ghost cols = id_columns(columns@);
    let ghost b0 = book@;
    let plan = scroll_plan(book, columns, output, focused, remembered, maximized);
    proof {
        assert(plan.rows@ =~= column_rows_spec(b0.rows, cols, focused));
    }
    let n = columns.len();
    let mut reps: Vec<Option<u64>> = Vec::new();
    let mut i: usize = 0;
    while i < n
        invariant
            n == columns@.len(),
            cols == id_columns(columns@),
            forall|j: int| 0 <= j < n ==> #[trigger] columns@[j]@.len() > 0,
            i <= n,
            reps@ =~= reps_of(cols).take(i as int),
        decreases n - i,
    {
        reps.push(Some(columns[i][0]));
        proof {
            assert(cols[i as int] == columns@[i as int]@);
            assert(reps@ =~= reps_of(cols).take(i + 1));
        }
        i = i + 1;
    }
    proof {
        assert(reps@ =~= reps_of(cols));
    }
    let resized_here = match tile_resize {
        Some((rid, _)) => column_holds(&columns[plan.active], rid),
        None => false,
    };
    let origin = if resized_here {
        match tile_resize {
            Some((_, x)) => Point { x, y: screen.loc.y },
            None => screen.loc,
        }
    } else {
        scroll_view_origin(screen, gaps, plan.active, plan.maximized_anchor, reps.as_slice(), custom)
    };
    proof {
        assert(cols[plan.active as int] == columns@[plan.active as int]@);
    }
    let tiles = scroll_tiles(columns, screen, gaps, plan.active, origin, plan.maximized_anchor, custom, &plan.rows);
    ScrollArrangement { active: plan.active, origin, tiles }
}

} // verus!
