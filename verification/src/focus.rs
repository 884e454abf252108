//! Where keyboard focus moves: to the nearest window in a direction, or to
//! the window closest to a place that just lost its window; and which surface
//! the pointer hits.
use vstd::prelude::*;
use crate::geometry::{div_trunc, fits_i32, Rect};
use crate::listing::LayerKind;
use crate::text::str_eq;

verus! {

/// Twice the centre of `r`, so that odd sizes stay exact.
pub open spec fn center2(r: Rect) -> (int, int) {
    (2 * r.loc.x + r.size.w, 2 * r.loc.y + r.size.h)
}

pub open spec fn iabs(v: int) -> int {
    if v < 0 {
        -v
    } else {
        v
    }
}

/// An offset `(dx, dy)` between centres points in direction `d`: mostly
/// left, right, up or down.
pub open spec fn in_direction(d: Seq<char>, dx: int, dy: int) -> bool {
    if d == "left"@ {
        dx < 0 && iabs(dx) >= iabs(dy)
    } else if d == "right"@ {
        dx > 0 && iabs(dx) >= iabs(dy)
    } else if d == "up"@ {
        dy < 0 && iabs(dy) >= iabs(dx)
    } else if d == "down"@ {
        dy > 0 && iabs(dy) >= iabs(dx)
    } else {
        false
    }
}

/// Among the first `k` windows (their rectangles, `None` when unknown),
/// the nearest one in direction `d` from `cur` other than `current`, with
/// its squared (doubled) centre distance; the first one on ties.
pub open spec fn nearest_in_direction(
    rects: Seq<Option<Rect>>,
    cur: Rect,
    current: int,
    d: Seq<char>,
    k: nat,
) -> Option<(int, int)>
    decreases k,
{
    if k == 0 {
        None
    } else {
        let prev = nearest_in_direction(rects, cur, current, d, (k - 1) as nat);
        let i = k - 1;
        match rects[i] {
            Some(r) => {
                let dx = center2(r).0 - center2(cur).0;
                let dy = center2(r).1 - center2(cur).1;
                let dist = dx * dx + dy * dy;
                if i != current && in_direction(d, dx, dy) && (prev matches Some(p) ==> dist < p.0) {
                    Some((dist, i))
                } else {
                    prev
                }
            },
            None => prev,
        }
    }
}

/// Squared distance between the (doubled) centres of two rectangles.
pub open spec fn center_dist2(a: Rect, b: Rect) -> int {
    let dx = center2(b).0 - center2(a).0;
    let dy = center2(b).1 - center2(a).1;
    dx * dx + dy * dy
}

proof fn lemma_nearest_in_direction(rects: Seq<Option<Rect>>, cur: Rect, current: int, d: Seq<char>, k: nat)
    requires
        k <= rects.len(),
    ensures
        nearest_in_direction(rects, cur, current, d, k) matches Some(p) ==> {
            &&& 0 <= p.1 < k
            &&& p.1 != current
            &&& rects[p.1] is Some
            &&& p.0 == center_dist2(cur, rects[p.1]->0)
            &&& in_direction(
                d,
                center2(rects[p.1]->0).0 - center2(cur).0,
                center2(rects[p.1]->0).1 - center2(cur).1,
            )
        },
        forall|j: int|
            0 <= j < k && j != current && #[trigger] rects[j] is Some && in_direction(
                d,
                center2(rects[j]->0).0 - center2(cur).0,
                center2(rects[j]->0).1 - center2(cur).1,
            ) ==> (nearest_in_direction(rects, cur, current, d, k) matches Some(p) && p.0 <= center_dist2(
                cur,
                rects[j]->0,
            )),
    decreases k,
{
    if k > 0 {
        lemma_nearest_in_direction(rects, cur, current, d, (k - 1) as nat);
    }
}

/// A directional focus move outside the scroll layout picks a window that
/// lies mostly in that direction from the focused one (its centre offset
/// points that way and is at least as long along that axis as across it),
/// and no window lying that way is nearer; when nothing lies that way the
/// focus stays.
pub proof fn lemma_focus_moves_that_way(d: Seq<char>, rects: Seq<Option<Rect>>, current: usize)
    requires
        current < rects.len() <= usize::MAX,
        rects[current as int] is Some,
    ensures
        ({
            let cur = rects[current as int]->0;
            let m = direction_move_spec(false, d, rects, Some(current));
            &&& m matches DirectionMove::Focus(j) ==> {
                let r = rects[j as int]->0;
                let dx = center2(r).0 - center2(cur).0;
                let dy = center2(r).1 - center2(cur).1;
                &&& j < rects.len() && j != current && rects[j as int] is Some
                &&& d == "left"@ ==> dx < 0 && -dx >= dy && -dx >= -dy
                &&& d == "right"@ ==> dx > 0 && dx >= dy && dx >= -dy
                &&& d == "up"@ ==> dy < 0 && -dy >= dx && -dy >= -dx
                &&& d == "down"@ ==> dy > 0 && dy >= dx && dy >= -dx
                &&& d != "left"@ && d != "right"@ && d != "up"@ && d != "down"@ ==> false
                &&& forall|k: int|
                    0 <= k < rects.len() && k != current && #[trigger] rects[k] is Some && in_direction(
                        d,
                        center2(rects[k]->0).0 - center2(cur).0,
                        center2(rects[k]->0).1 - center2(cur).1,
                    ) ==> center_dist2(cur, r) <= center_dist2(cur, rects[k]->0)
            }
            &&& m == DirectionMove::Stay ==> forall|k: int|
                0 <= k < rects.len() && k != current && #[trigger] rects[k] is Some ==> !in_direction(
                    d,
                    center2(rects[k]->0).0 - center2(cur).0,
                    center2(rects[k]->0).1 - center2(cur).1,
                )
        }),
{
    let cur = rects[current as int]->0;
    lemma_nearest_in_direction(rects, cur, current as int, d, rects.len());
    reveal_strlit("left");
    reveal_strlit("right");
    reveal_strlit("up");
    reveal_strlit("down");
    assert("left"@ != "right"@ && "left"@ != "up"@ && "left"@ != "down"@ && "right"@ != "up"@ && "right"@ != "down"@
        && "up"@ != "down"@) by {
        assert("left"@[0] != "right"@[0]);
        assert("left"@.len() != "up"@.len());
        assert("left"@[0] != "down"@[0]);
        assert("right"@.len() != "up"@.len());
        assert("right"@[0] != "down"@[0]);
        assert("up"@.len() != "down"@.len());
    }
    match nearest_in_direction(rects, cur, current as int, d, rects.len()) {
        Some(p) => {
            let j = p.1;
            let r = rects[j]->0;
            let dx = center2(r).0 - center2(cur).0;
            let dy = center2(r).1 - center2(cur).1;
            assert(in_direction(d, dx, dy));
            assert((j as usize) as int == j);
            assert(direction_move_spec(false, d, rects, Some(current)) == DirectionMove::Focus(j as usize));
        },
        None => {
            assert(direction_move_spec(false, d, rects, Some(current)) == DirectionMove::Stay);
        },
    }
}

/// What a directional focus request does.
#[derive(Clone, Copy, Debug, PartialEq, Eq, Structural)]
pub enum DirectionMove {
    /// Scroll layout: move by columns (left/right).
    Columns(isize),
    /// Scroll layout: move within the column stack (up/down).
    Stack(isize),
    /// Focus the window at this index.
    Focus(usize),
    /// Nothing to do.
    Stay,
}

/// The directional focus decision: in the scroll layout left/right move
/// by a column and up/down within the stack; otherwise the nearest window
/// in that direction from the focused one (index `current`) is focused.
pub open spec fn direction_move_spec(
    scroll: bool,
    d: Seq<char>,
    rects: Seq<Option<Rect>>,
    current: Option<usize>,
) -> DirectionMove {
    if scroll {
        if d == "left"@ {
            DirectionMove::Columns(-1isize)
        } else if d == "right"@ {
            DirectionMove::Columns(1isize)
        } else if d == "up"@ {
            DirectionMove::Stack(-1isize)
        } else if d == "down"@ {
            DirectionMove::Stack(1isize)
        } else {
            DirectionMove::Stay
        }
    } else {
        match current {
            Some(c) => if c < rects.len() {
                match rects[c as int] {
                    Some(cur) => match nearest_in_direction(rects, cur, c as int, d, rects.len()) {
                        Some(p) => DirectionMove::Focus(p.1 as usize),
                        None => DirectionMove::Stay,
                    },
                    None => DirectionMove::Stay,
                }
            } else {
                DirectionMove::Stay
            },
            None => DirectionMove::Stay,
        }
    }
}

fn in_direction_exec(d: &str, dx: i128, dy: i128) -> (b: bool)
    requires
        -0x1_0000_0000_0000 < dx < 0x1_0000_0000_0000,
        -0x1_0000_0000_0000 < dy < 0x1_0000_0000_0000,
    ensures
        b == in_direction(d@, dx as int, dy as int),
{
    let ax = if dx < 0 {
        -dx
    } else {
        dx
    };
    let ay = if dy < 0 {
        -dy
    } else {
        dy
    };
    if str_eq(d, "left") {
        dx < 0 && ax >= ay
    } else if str_eq(d, "right") {
        dx > 0 && ax >= ay
    } else if str_eq(d, "up") {
        dy < 0 && ay >= ax
    } else if str_eq(d, "down") {
        dy > 0 && ay >= ax
    } else {
        false
    }
}

/// Move focus towards `direction` (`left`, `right`, `up`, `down`). `rects`
/// are the geometries of the output's windows in order (`None` where
/// unknown), `current` the focused one's index.
pub fn focus_direction(
    scroll_layout: bool,
    direction: &str,
    rects: &[Option<Rect>],
    current: Option<usize>,
) -> (m: DirectionMove)
    ensures
        m == direction_move_spec(scroll_layout, direction@, rects@, current),
{
    if scroll_layout {
        return if str_eq(direction, "left") {
            DirectionMove::Columns(-1)
        } else if str_eq(direction, "right") {
            DirectionMove::Columns(1)
        } else if str_eq(direction, "up") {
            DirectionMove::Stack(-1)
        } else if str_eq(direction, "down") {
            DirectionMove::Stack(1)
        } else {
            DirectionMove::Stay
        };
    }
    let c = match current {
        Some(c) => c,
        None => {
            return DirectionMove::Stay;
        },
    };
    if c >= rects.len() {
        return DirectionMove::Stay;
    }
    let cur = match rects[c] {
        Some(r) => r,
        None => {
            return DirectionMove::Stay;
        },
    };
    let cx = 2 * (cur.loc.x as i128) + cur.size.w as i128;
    let cy = 2 * (cur.loc.y as i128) + cur.size.h as i128;
    let mut best: Option<(i128, usize)> = None;
    let mut i: usize = 0;
    while i < rects.len()
        invariant
            i <= rects@.len(),
            c < rects@.len(),
            rects@[c as int] == Some(cur),
            cx == center2(cur).0,
            cy == center2(cur).1,
            match best {
                Some(p) => nearest_in_direction(rects@, cur, c as int, direction@, i as nat) == Some(
                    (p.0 as int, p.1 as int),
                ),
                None => nearest_in_direction(rects@, cur, c as int, direction@, i as nat) is None,
            },
        decreases rects@.len() - i,
    {
        match rects[i] {
            Some(r) => {
                let dx = 2 * (r.loc.x as i128) + r.size.w as i128 - cx;
                let dy = 2 * (r.loc.y as i128) + r.size.h as i128 - cy;
                proof {
                    assert(dx * dx <= 0x1_0000_0000_0000 * 0x1_0000_0000_0000) by (nonlinear_arith)
                        requires
                            -0x1_0000_0000_0000 < dx < 0x1_0000_0000_0000,
                    ;
                    assert(dy * dy <= 0x1_0000_0000_0000 * 0x1_0000_0000_0000) by (nonlinear_arith)
                        requires
                            -0x1_0000_0000_0000 < dy < 0x1_0000_0000_0000,
                    ;
                    assert(dx * dx >= 0 && dy * dy >= 0) by (nonlinear_arith);
                }
                let dist = dx * dx + dy * dy;
                let closer = match best {
                    Some(p) => dist < p.0,
                    None => true,
                };
                if i != c && in_direction_exec(direction, dx, dy) && closer {
                    best = Some((dist, i));
                }
            },
            None => {},
        }
        i = i + 1;
    }
    match best {
        Some(p) => DirectionMove::Focus(p.1),
        None => DirectionMove::Stay,
    }
}

} // verus!

verus! {

/// The centre of `r` as the compositor rounds it (halves toward zero).
pub open spec fn center_of(r: Rect) -> (int, int) {
    (r.loc.x + div_trunc(r.size.w as int, 2), r.loc.y + div_trunc(r.size.h as int, 2))
}

/// Among the first `k` windows (`None` where a window has no place), the
/// one whose centre is closest to `t` in taxicab distance, with that
/// distance; the first one on ties.
pub open spec fn closest_to(windows: Seq<Option<Rect>>, t: (int, int), k: nat) -> Option<(int, int)>
    decreases k,
{
    if k == 0 {
        None
    } else {
        let prev = closest_to(windows, t, (k - 1) as nat);
        match windows[k - 1] {
            Some(r) => {
                let c = center_of(r);
                let d = iabs(c.0 - t.0) + iabs(c.1 - t.1);
                if prev matches Some(p) ==> d < p.0 {
                    Some((d, k - 1))
                } else {
                    prev
                }
            },
            None => prev,
        }
    }
}

/// Where focus goes once the window that stood at a place is gone.
#[derive(Clone, Copy, Debug, PartialEq, Eq, Structural)]
pub enum FocusPick {
    /// Leave focus as it is.
    Keep,
    /// No window is left: focus nothing.
    Clear,
    /// Focus the window at this index.
    Window(usize),
}

pub open spec fn closest_pick_spec(target: Option<Rect>, windows: Seq<Option<Rect>>) -> FocusPick {
    match target {
        None => FocusPick::Keep,
        Some(t) => if windows.len() == 0 {
            FocusPick::Clear
        } else {
            match closest_to(windows, center_of(t), windows.len()) {
                Some(p) => FocusPick::Window(p.1 as usize),
                None => FocusPick::Keep,
            }
        },
    }
}

/// The compositor's `i32` arithmetic on these centres does not overflow.
pub open spec fn closest_fits(target: Option<Rect>, windows: Seq<Option<Rect>>) -> bool {
    match target {
        None => true,
        Some(t) => {
            let tc = center_of(t);
            &&& fits_i32(tc.0)
            &&& fits_i32(tc.1)
            &&& forall|i: int|
                0 <= i < windows.len() ==> match #[trigger] windows[i] {
                    Some(r) => {
                        let c = center_of(r);
                        &&& fits_i32(c.0)
                        &&& fits_i32(c.1)
                        &&& i32::MIN < c.0 - tc.0 <= i32::MAX
                        &&& i32::MIN < c.1 - tc.1 <= i32::MAX
                    },
                    None => true,
                }
        },
    }
}

/// Focus the window closest to `target` (the place of a window that went
/// away): `windows` are the mapped windows' rectangles (`None` where a
/// window has no place). Without a target nothing changes; with no window
/// left focus is cleared.
pub fn focus_closest_window_to(target: Option<Rect>, windows: &[Option<Rect>]) -> (pick: FocusPick)
    requires
        closest_fits(target, windows@),
    ensures
        pick == closest_pick_spec(target, windows@),
{
    let t = match target {
        Some(t) => t,
        None => {
            return FocusPick::Keep;
        },
    };
    if windows.len() == 0 {
        return FocusPick::Clear;
    }
    let tx = t.loc.x + t.size.w / 2;
    let ty = t.loc.y + t.size.h / 2;
    let mut best: Option<(i64, usize)> = None;
    let mut i: usize = 0;
    while i < windows.len()
        invariant
            i <= windows@.len(),
            closest_fits(target, windows@),
            target == Some(t),
            (tx as int, ty as int) == center_of(t),
            match best {
                Some(p) => closest_to(windows@, center_of(t), i as nat) == Some((p.0 as int, p.1 as int)),
                None => closest_to(windows@, center_of(t), i as nat) is None,
            },
        decreases windows@.len() - i,
    {
        match windows[i] {
            Some(r) => {
                assert(match windows@[i as int] {
                    Some(r) => {
                        let c = center_of(r);
                        &&& fits_i32(c.0)
                        &&& fits_i32(c.1)
                        &&& i32::MIN < c.0 - center_of(t).0 <= i32::MAX
                        &&& i32::MIN < c.1 - center_of(t).1 <= i32::MAX
                    },
                    None => true,
                });
                let cx = r.loc.x + r.size.w / 2;
                let cy = r.loc.y + r.size.h / 2;
                let ddx = cx - tx;
                let ddy = cy - ty;
                let ax: i64 = if ddx < 0 {
                    -(ddx as i64)
                } else {
                    ddx as i64
                };
                let ay: i64 = if ddy < 0 {
                    -(ddy as i64)
                } else {
                    ddy as i64
                };
                let d = ax + ay;
                let closer = match best {
                    Some(p) => d < p.0,
                    None => true,
                };
                if closer {
                    best = Some((d, i));
                }
            },
            None => {},
        }
        i = i + 1;
    }
    match best {
        Some(p) => FocusPick::Window(p.1),
        None => FocusPick::Keep,
    }
}

} // verus!

verus! {

/// What the compositor found at the pointer, each layer of the stack asked
/// on its own.
#[derive(Debug, Clone, Copy, PartialEq, Eq, Structural)]
pub struct HitCandidates {
    /// The pointer lies inside some output.
    pub on_output: bool,
    /// The lock surface of the output under the pointer (the containing one,
    /// or the nearest when none contains it) exists.
    pub lock_surface: bool,
    /// An Overlay or Top layer surface is under the pointer.
    pub upper_layer: bool,
    /// A window surface is under the pointer, the window neither the hidden
    /// scratchpad nor shown on another output than the pointer's.
    pub window: bool,
    /// A Bottom or Background layer surface is under the pointer.
    pub lower_layer: bool,
}

/// The surface that receives the pointer.
#[derive(Debug, Clone, Copy, PartialEq, Eq, Structural)]
pub enum HitTarget {
    Lock,
    UpperLayer,
    Window,
    LowerLayer,
    Nothing,
}

/// The stacking order of pointer hits: while the session is locked only a
/// lock surface is hit; otherwise, on an output, Overlay/Top layers come
/// before windows and windows before Bottom/Background layers; off every
/// output only windows can be hit.
pub open spec fn surface_hit_spec(locked: bool, c: HitCandidates) -> HitTarget {
    if locked {
        if c.lock_surface {
            HitTarget::Lock
        } else {
            HitTarget::Nothing
        }
    } else if c.on_output && c.upper_layer {
        HitTarget::UpperLayer
    } else if c.window {
        HitTarget::Window
    } else if c.on_output && c.lower_layer {
        HitTarget::LowerLayer
    } else {
        HitTarget::Nothing
    }
}

/// Picks which of the surfaces found under the pointer receives it.
pub fn surface_hit(locked: bool, c: HitCandidates) -> (t: HitTarget)
    ensures
        t == surface_hit_spec(locked, c),
{
    if locked {
        return if c.lock_surface {
            HitTarget::Lock
        } else {
            HitTarget::Nothing
        };
    }
    if c.on_output && c.upper_layer {
        HitTarget::UpperLayer
    } else if c.window {
        HitTarget::Window
    } else if c.on_output && c.lower_layer {
        HitTarget::LowerLayer
    } else {
        HitTarget::Nothing
    }
}

/// Whether a window may take pointer hits at a place: the window being
/// dragged always may; otherwise a window assigned to an output only on that
/// output, and a window with no output, or a place with no output, always.
pub open spec fn owns_pointer_spec(
    dragged: bool,
    window_output: Option<Seq<char>>,
    pointer_output: Option<Seq<char>>,
) -> bool {
    if dragged {
        true
    } else {
        match (window_output, pointer_output) {
            (Some(w), Some(p)) => w == p,
            _ => true,
        }
    }
}

/// Decides whether a window takes pointer hits at the pointer's place, given
/// the name of the output it is shown on and of the output under the pointer.
pub fn owns_pointer(dragged: bool, window_output: Option<&str>, pointer_output: Option<&str>) -> (r: bool)
    ensures
        r == owns_pointer_spec(
            dragged,
            match window_output {
                Some(s) => Some(s@),
                None => None,
            },
            match pointer_output {
                Some(s) => Some(s@),
                None => None,
            },
        ),
{
    if dragged {
        return true;
    }
    match (window_output, pointer_output) {
        (Some(w), Some(p)) => str_eq(w, p),
        _ => true,
    }
}

/// While the session is locked the pointer reaches nothing but a lock
/// surface, and an Overlay or Top layer on an unlocked output always wins
/// over any window under it.
pub proof fn lemma_lock_and_layers_shield_windows(locked: bool, c: HitCandidates)
    ensures
        locked ==> (surface_hit_spec(locked, c) == HitTarget::Lock || surface_hit_spec(locked, c)
            == HitTarget::Nothing),
        !locked && c.on_output && c.upper_layer ==> surface_hit_spec(locked, c)
            == HitTarget::UpperLayer,
        surface_hit_spec(locked, c) == HitTarget::Window ==> !locked && c.window,
{
}

} // verus!

verus! {

/// What the compositor knows of one layer-shell surface, in stacking order.
#[derive(Debug, Clone, Copy, PartialEq, Eq, Structural)]
pub struct LayerProbe {
    pub layer: LayerKind,
    /// It asked for exclusive keyboard interactivity.
    pub keyboard_exclusive: bool,
    /// It can take keyboard focus at all.
    pub can_focus: bool,
    /// It is mapped on some output.
    pub mapped: bool,
    /// One of its surfaces lies under the pointer.
    pub under_pointer: bool,
}

/// Index of the last of the first `n` probes that satisfies `f` (-1 if none).
pub open spec fn last_match(s: Seq<LayerProbe>, f: spec_fn(LayerProbe) -> bool, n: int) -> int
    decreases n,
{
    if n <= 0 {
        -1
    } else if f(s[n - 1]) {
        n - 1
    } else {
        last_match(s, f, n - 1)
    }
}

pub open spec fn is_upper(l: LayerKind) -> bool {
    l == LayerKind::Top || l == LayerKind::Overlay
}

/// A mapped Top or Overlay layer that asked for exclusive keyboard input.
pub open spec fn grabs_keyboard(p: LayerProbe) -> bool {
    p.keyboard_exclusive && is_upper(p.layer) && p.mapped
}

pub open spec fn keyboard_grab() -> spec_fn(LayerProbe) -> bool {
    |p: LayerProbe| grabs_keyboard(p)
}

/// A focusable surface of layer `tier` under the pointer.
pub open spec fn focusable_in(tier: LayerKind) -> spec_fn(LayerProbe) -> bool {
    |p: LayerProbe| p.layer == tier && p.can_focus && p.under_pointer
}

pub open spec fn index_opt(i: int) -> Option<int> {
    if i >= 0 {
        Some(i)
    } else {
        None
    }
}

pub open spec fn opt_int(r: Option<usize>) -> Option<int> {
    match r {
        Some(i) => Some(i as int),
        None => None,
    }
}

/// The layer surface that takes all keyboard input: the topmost mapped Top
/// or Overlay surface that asked for exclusive interactivity.
pub fn exclusive_keyboard_layer(layers: &[LayerProbe]) -> (r: Option<usize>)
    ensures
        opt_int(r) == index_opt(last_match(layers@, keyboard_grab(), layers@.len() as int)),
        r matches Some(i) ==> i < layers.len(),
{
    let ghost f = keyboard_grab();
    let mut n: usize = layers.len();
    while n > 0
        invariant
            n <= layers@.len(),
            f == keyboard_grab(),
            last_match(layers@, f, layers@.len() as int) == last_match(layers@, f, n as int),
        decreases n,
    {
        let p = layers[n - 1];
        if p.keyboard_exclusive && (p.layer == LayerKind::Top || p.layer == LayerKind::Overlay) && p.mapped {
            return Some(n - 1);
        }
        n = n - 1;
    }
    None
}

fn last_focusable_in(layers: &[LayerProbe], tier: LayerKind) -> (r: Option<usize>)
    ensures
        opt_int(r) == index_opt(last_match(layers@, focusable_in(tier), layers@.len() as int)),
        r matches Some(i) ==> i < layers.len(),
{
    let ghost f = focusable_in(tier);
    let mut n: usize = layers.len();
    while n > 0
        invariant
            n <= layers@.len(),
            f == focusable_in(tier),
            last_match(layers@, f, layers@.len() as int) == last_match(layers@, f, n as int),
        decreases n,
    {
        let p = layers[n - 1];
        if p.layer == tier && p.can_focus && p.under_pointer {
            return Some(n - 1);
        }
        n = n - 1;
    }
    None
}

/// The focusable layer surface under the pointer, searched Overlay then Top
/// when `upper`, Bottom then Background otherwise; within a layer the
/// topmost wins.
pub open spec fn focusable_layer_spec(layers: Seq<LayerProbe>, upper: bool) -> Option<int> {
    let (first, second) = if upper {
        (LayerKind::Overlay, LayerKind::Top)
    } else {
        (LayerKind::Bottom, LayerKind::Background)
    };
    let a = last_match(layers, focusable_in(first), layers.len() as int);
    if a >= 0 {
        Some(a)
    } else {
        index_opt(last_match(layers, focusable_in(second), layers.len() as int))
    }
}

/// Picks the keyboard-focusable layer surface under the pointer, in the
/// upper (Overlay, Top) or the lower (Bottom, Background) tiers.
pub fn focusable_layer_under(layers: &[LayerProbe], upper: bool) -> (r: Option<usize>)
    ensures
        opt_int(r) == focusable_layer_spec(layers@, upper),
        r matches Some(i) ==> i < layers.len(),
{
    let (first, second) = if upper {
        (LayerKind::Overlay, LayerKind::Top)
    } else {
        (LayerKind::Bottom, LayerKind::Background)
    };
    match last_focusable_in(layers, first) {
        Some(i) => Some(i),
        None => last_focusable_in(layers, second),
    }
}

} // verus!
