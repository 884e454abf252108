//! What a key press means: modifier matching, keybinding actions and the
//! modal key handling of the screenshot, recording and overview modes.
use vstd::prelude::*;
use crate::keybind::{has_prefix, Keybind, KeybindView};
use crate::config::{eq_ignore_case, eq_ignore_case_lit};
use crate::resize::Edges;
use crate::text::{
    eq_chars_lit, chars_of, chars_starts_with, is_sep, parse_unsigned, parse_unsigned_spec, pieces_by,
    split_on, str_eq, string_of, trim_chars, trim_spec, join_spaces,
};

verus! {

/// Which modifier a token names: 0 shift, 1 ctrl, 2 alt, 3 logo, 4 the
/// configured main modifier (`mod`), 5 nothing.
pub open spec fn modifier_class(t: Seq<char>) -> int {
    if t == "shift"@ {
        0
    } else if t == "ctrl"@ || t == "control"@ {
        1
    } else if t == "alt"@ {
        2
    } else if t == "super"@ || t == "logo"@ || t == "win"@ || t == "meta"@ {
        3
    } else if t == "mod"@ || t == "MOD"@ {
        4
    } else {
        5
    }
}

fn modifier_class_of(t: &[char]) -> (c: u8)
    ensures
        c == modifier_class(t@),
{
    if eq_chars_lit(t, "shift") {
        0
    } else if eq_chars_lit(t, "ctrl") || eq_chars_lit(t, "control") {
        1
    } else if eq_chars_lit(t, "alt") {
        2
    } else if eq_chars_lit(t, "super") || eq_chars_lit(t, "logo") || eq_chars_lit(t, "win") || eq_chars_lit(t, "meta") {
        3
    } else if eq_chars_lit(t, "mod") || eq_chars_lit(t, "MOD") {
        4
    } else {
        5
    }
}

/// Some token of `tokens` is of class `k`.
pub open spec fn has_class(tokens: Seq<Seq<char>>, k: int) -> bool {
    exists|i: int| 0 <= i < tokens.len() && #[trigger] modifier_class(tokens[i]) == k
}

/// The trimmed `+`-separated parts of the configured main modifier.
pub open spec fn configured_parts(configured: Seq<char>) -> Seq<Seq<char>> {
    pieces_by(configured, is_sep('+')).map_values(|p: Seq<char>| trim_spec(p))
}

/// Whether the configured main modifier names modifier `k` (0 shift,
/// 1 ctrl, 2 alt, 3 logo); there the X name `mod4` also means logo.
pub open spec fn configured_asks(configured: Seq<char>, k: int) -> bool {
    has_class(configured_parts(configured), k) || (k == 3 && configured_parts(configured).contains("mod4"@))
}

/// Whether a binding with modifier tokens `tokens` asks for modifier `k`
/// (0 shift, 1 ctrl, 2 alt, 3 logo): by naming it, or by naming `mod`
/// while the configured main modifier names it.
pub open spec fn requests_modifier(tokens: Seq<Seq<char>>, configured: Seq<char>, k: int) -> bool {
    has_class(tokens, k) || (has_class(tokens, 4) && configured_asks(configured, k))
}

/// The (shift, ctrl, alt, logo) bits a binding asks for.
pub open spec fn modifier_bits_spec(tokens: Seq<Seq<char>>, configured: Seq<char>) -> (
    bool,
    bool,
    bool,
    bool,
) {
    (
        requests_modifier(tokens, configured, 0),
        requests_modifier(tokens, configured, 1),
        requests_modifier(tokens, configured, 2),
        requests_modifier(tokens, configured, 3),
    )
}

/// The classes of a list of tokens, as four "seen" flags plus "mod seen".
fn class_flags(tokens: &Vec<Vec<char>>) -> (r: (bool, bool, bool, bool, bool))
    ensures
        r.0 == has_class(crate::text::deep(tokens@), 0),
        r.1 == has_class(crate::text::deep(tokens@), 1),
        r.2 == has_class(crate::text::deep(tokens@), 2),
        r.3 == has_class(crate::text::deep(tokens@), 3),
        r.4 == has_class(crate::text::deep(tokens@), 4),
{
    let ghost ts = crate::text::deep(tokens@);
    let mut f0 = false;
    let mut f1 = false;
    let mut f2 = false;
    let mut f3 = false;
    let mut f4 = false;
    let mut i: usize = 0;
    while i < tokens.len()
        invariant
            i <= tokens@.len(),
            ts == crate::text::deep(tokens@),
            f0 == has_class(ts.take(i as int), 0),
            f1 == has_class(ts.take(i as int), 1),
            f2 == has_class(ts.take(i as int), 2),
            f3 == has_class(ts.take(i as int), 3),
            f4 == has_class(ts.take(i as int), 4),
        decreases tokens@.len() - i,
    {
        let c = modifier_class_of(tokens[i].as_slice());
        let ghost prev = ts.take(i as int);
        let ghost next = ts.take(i + 1);
        proof {
            assert(ts[i as int] == tokens@[i as int]@);
            assert(next[i as int] == ts[i as int]);
            assert forall|k: int| has_class(next, k) == (has_class(prev, k) || modifier_class(
                ts[i as int],
            ) == k) by {
                if has_class(prev, k) {
                    let j = choose|j: int| 0 <= j < prev.len() && #[trigger] modifier_class(prev[j]) == k;
                    assert(next[j] == prev[j]);
                }
                if has_class(next, k) {
                    let j = choose|j: int| 0 <= j < next.len() && #[trigger] modifier_class(next[j]) == k;
                    if j < i {
                        assert(prev[j] == next[j]);
                    }
                }
            }
        }
        if c == 0 {
            f0 = true;
        } else if c == 1 {
            f1 = true;
        } else if c == 2 {
            f2 = true;
        } else if c == 3 {
            f3 = true;
        } else if c == 4 {
            f4 = true;
        }
        i = i + 1;
    }
    proof {
        assert(ts.take(tokens@.len() as int) =~= ts);
    }
    (f0, f1, f2, f3, f4)
}

/// Compute the (shift, ctrl, alt, logo) modifier bits requested by a
/// binding's modifier tokens. `"mod"` expands to the configured main
/// modifier, itself a `+`-separated list of modifier names.
pub fn bind_modifier_bits(modifiers: &[String], configured: &str) -> (bits: (bool, bool, bool, bool))
    ensures
        bits == modifier_bits_spec(crate::text::strings_view(modifiers@), configured@),
{
    let mut tokens: Vec<Vec<char>> = Vec::new();
    let mut i: usize = 0;
    while i < modifiers.len()
        invariant
            i <= modifiers@.len(),
            tokens@.len() == i,
            crate::text::deep(tokens@) == crate::text::strings_view(modifiers@).take(i as int),
        decreases modifiers@.len() - i,
    {
        let t = chars_of(modifiers[i].as_str());
        tokens.push(t);
        proof {
            assert(tokens@[i as int]@ == modifiers@[i as int]@);
            assert(crate::text::deep(tokens@) =~= crate::text::strings_view(modifiers@).take(i + 1));
        }
        i = i + 1;
    }
    proof {
        assert(crate::text::strings_view(modifiers@).take(modifiers@.len() as int)
            =~= crate::text::strings_view(modifiers@));
    }
    let conf_chars = chars_of(configured);
    let pieces = split_on(conf_chars.as_slice(), '+');
    let mut parts: Vec<Vec<char>> = Vec::new();
    let mut j: usize = 0;
    while j < pieces.len()
        invariant
            j <= pieces@.len(),
            parts@.len() == j,
            crate::text::deep(pieces@) == pieces_by(configured@, is_sep('+')),
            crate::text::deep(parts@) == configured_parts(configured@).take(j as int),
        decreases pieces@.len() - j,
    {
        let t = trim_chars(pieces[j].as_slice());
        parts.push(t);
        proof {
            assert(crate::text::deep(pieces@)[j as int] == pieces@[j as int]@);
            assert(parts@[j as int]@ == trim_spec(pieces@[j as int]@));
            assert(crate::text::deep(parts@) =~= configured_parts(configured@).take(j + 1));
        }
        j = j + 1;
    }
    proof {
        assert(configured_parts(configured@).take(pieces@.len() as int) =~= configured_parts(
            configured@,
        ));
    }
    let own = class_flags(&tokens);
    let conf = class_flags(&parts);
    let mut mod4 = false;
    let mut q: usize = 0;
    while q < parts.len()
        invariant
            q <= parts@.len(),
            crate::text::deep(parts@) == configured_parts(configured@),
            mod4 == crate::text::deep(parts@).take(q as int).contains("mod4"@),
        decreases parts@.len() - q,
    {
        let hit = eq_chars_lit(parts[q].as_slice(), "mod4");
        proof {
            let d = crate::text::deep(parts@);
            assert(d[q as int] == parts@[q as int]@);
            assert(d.take(q + 1) =~= d.take(q as int).push(d[q as int]));
            if d.take(q + 1).contains("mod4"@) {
                let e = choose|e: int| 0 <= e < d.take(q + 1).len() && #[trigger] d.take(q + 1)[e] == "mod4"@;
                if e < q {
                    assert(d.take(q as int)[e] == "mod4"@);
                }
            }
            if d.take(q as int).contains("mod4"@) {
                let e = choose|e: int| 0 <= e < d.take(q as int).len() && #[trigger] d.take(q as int)[e] == "mod4"@;
                assert(d.take(q + 1)[e] == "mod4"@);
            }
            if hit {
                assert(d.take(q + 1)[q as int] == "mod4"@);
            }
        }
        mod4 = mod4 || hit;
        q = q + 1;
    }
    proof {
        assert(crate::text::deep(parts@).take(parts@.len() as int) =~= crate::text::deep(parts@));
    }
    (own.0 || (own.4 && conf.0), own.1 || (own.4 && conf.1), own.2 || (own.4 && conf.2), own.3 || (
    own.4 && (conf.3 || mod4)))
}

proof fn lemma_has_class_concat(a: Seq<Seq<char>>, b: Seq<Seq<char>>, k: int)
    ensures
        has_class(a + b, k) == (has_class(a, k) || has_class(b, k)),
{
    let ab = a + b;
    if has_class(a, k) {
        let j = choose|j: int| 0 <= j < a.len() && #[trigger] modifier_class(a[j]) == k;
        assert(ab[j] == a[j]);
    }
    if has_class(b, k) {
        let j = choose|j: int| 0 <= j < b.len() && #[trigger] modifier_class(b[j]) == k;
        assert(ab[a.len() + j] == b[j]);
    }
    if has_class(ab, k) {
        let j = choose|j: int| 0 <= j < ab.len() && #[trigger] modifier_class(ab[j]) == k;
        if j < a.len() {
            assert(ab[j] == a[j]);
        } else {
            assert(ab[j] == b[j - a.len()]);
        }
    }
}

/// The bits a binding asks for depend only on which tokens it names: the
/// bits of two token lists joined are the union of their bits, and two
/// lists naming the same tokens (in any order, any number of times) ask
/// for the same bits. `mod` asks for exactly the modifiers named by the
/// parts of the configured main modifier.
pub proof fn lemma_modifier_bits_law(a: Seq<Seq<char>>, b: Seq<Seq<char>>, configured: Seq<char>, k: int)
    requires
        0 <= k < 4,
    ensures
        requests_modifier(a + b, configured, k) == (requests_modifier(a, configured, k) || requests_modifier(
            b,
            configured,
            k,
        )),
        (forall|t: Seq<char>| a.contains(t) <==> b.contains(t)) ==> requests_modifier(a, configured, k)
            == requests_modifier(b, configured, k),
        requests_modifier(seq!["mod"@], configured, k) == configured_asks(configured, k),
{
    lemma_has_class_concat(a, b, k);
    lemma_has_class_concat(a, b, 4);
    if forall|t: Seq<char>| a.contains(t) <==> b.contains(t) {
        assert forall|c: int| has_class(a, c) implies has_class(b, c) by {
            let j = choose|j: int| 0 <= j < a.len() && #[trigger] modifier_class(a[j]) == c;
            assert(a.contains(a[j]));
            let m = choose|m: int| 0 <= m < b.len() && b[m] == a[j];
            assert(modifier_class(b[m]) == c);
        }
        assert forall|c: int| has_class(b, c) implies has_class(a, c) by {
            let j = choose|j: int| 0 <= j < b.len() && #[trigger] modifier_class(b[j]) == c;
            assert(b.contains(b[j]));
            let m = choose|m: int| 0 <= m < a.len() && a[m] == b[j];
            assert(modifier_class(a[m]) == c);
        }
    }
    let m = seq!["mod"@];
    reveal_strlit("mod");
    reveal_strlit("shift");
    reveal_strlit("ctrl");
    reveal_strlit("control");
    reveal_strlit("alt");
    reveal_strlit("super");
    reveal_strlit("logo");
    reveal_strlit("win");
    reveal_strlit("meta");
    reveal_strlit("mod4");
    assert("mod"@.len() == 3);
    assert("mod"@[0] == 'm');
    assert("alt"@[0] == 'a');
    assert(modifier_class(m[0]) == 4);
    assert(has_class(m, 4));
    assert(!has_class(m, k)) by {
        if has_class(m, k) {
            let j = choose|j: int| 0 <= j < m.len() && #[trigger] modifier_class(m[j]) == k;
            assert(j == 0);
        }
    }
}

/// The canvas-only actions.
pub open spec fn is_canvas_action_spec(action: Seq<char>) -> bool {
    action == "toggle_pin"@ || has_prefix(action, "canvas_"@) || has_prefix(action, "canvas "@)
}

/// Canvas-only actions only make sense while the canvas layout is active.
pub fn is_canvas_action(action: &str) -> (b: bool)
    ensures
        b == is_canvas_action_spec(action@),
{
    let a = chars_of(action);
    let p1 = chars_of("canvas_");
    let p2 = chars_of("canvas ");
    str_eq(action, "toggle_pin") || chars_starts_with(a.as_slice(), p1.as_slice())
        || chars_starts_with(a.as_slice(), p2.as_slice())
}

} // verus!

verus! {

/// A compositor action that a key press triggers.
#[derive(Clone, Debug)]
pub enum NovaInputAction {
    SpawnTerminal,
    CloseFocused,
    Focus(String),
    MoveFocus(bool),
    CycleFocus(bool),
    ToggleScratchpad,
    Fullscreen,
    ToggleFloat,
    CanvasZoomIn,
    CanvasZoomOut,
    CanvasZoomReset,
    MoveRow(bool),
    ConsumeIntoColumn,
    ExpelFromColumn,
    ToggleOverview,
    Workspace(usize),
    CanvasCenterWindow,
    CanvasZoomToFit,
    CanvasNudge(i32, i32),
    /// Pan the canvas camera by whole logical pixels (the compositor
    /// applies it as a floating-point offset).
    CanvasPan(i32, i32),
    TogglePin,
    CanvasHome,
    OverviewNav(isize, isize),
    OverviewConfirm,
    OverviewCancel,
    OverviewIgnore,
    ScreenshotConfirm,
    ScreenshotCancel,
    RecordToggle,
    RecordDigit(u8),
    RecordMove(i8),
    RecordEnter,
    RecordCancel,
    /// Run an arbitrary shell command (`spawn <cmdline>`).
    Spawn(String),
    /// Show the welcome window (`welcome`).
    Welcome,
}

/// The abstract content of a [`NovaInputAction`]: the same, with strings as
/// character sequences.
pub ghost enum InputActionView {
    SpawnTerminal,
    CloseFocused,
    Focus(Seq<char>),
    MoveFocus(bool),
    CycleFocus(bool),
    ToggleScratchpad,
    Fullscreen,
    ToggleFloat,
    CanvasZoomIn,
    CanvasZoomOut,
    CanvasZoomReset,
    MoveRow(bool),
    ConsumeIntoColumn,
    ExpelFromColumn,
    ToggleOverview,
    Workspace(usize),
    CanvasCenterWindow,
    CanvasZoomToFit,
    CanvasNudge(i32, i32),
    CanvasPan(i32, i32),
    TogglePin,
    CanvasHome,
    OverviewNav(isize, isize),
    OverviewConfirm,
    OverviewCancel,
    OverviewIgnore,
    ScreenshotConfirm,
    ScreenshotCancel,
    RecordToggle,
    RecordDigit(u8),
    RecordMove(i8),
    RecordEnter,
    RecordCancel,
    Spawn(Seq<char>),
    Welcome,
}

impl View for NovaInputAction {
    type V = InputActionView;

    open spec fn view(&self) -> InputActionView {
        match self {
            NovaInputAction::SpawnTerminal => InputActionView::SpawnTerminal,
            NovaInputAction::CloseFocused => InputActionView::CloseFocused,
            NovaInputAction::Focus(s) => InputActionView::Focus(s@),
            NovaInputAction::MoveFocus(a) => InputActionView::MoveFocus(*a),
            NovaInputAction::CycleFocus(a) => InputActionView::CycleFocus(*a),
            NovaInputAction::ToggleScratchpad => InputActionView::ToggleScratchpad,
            NovaInputAction::Fullscreen => InputActionView::Fullscreen,
            NovaInputAction::ToggleFloat => InputActionView::ToggleFloat,
            NovaInputAction::CanvasZoomIn => InputActionView::CanvasZoomIn,
            NovaInputAction::CanvasZoomOut => InputActionView::CanvasZoomOut,
            NovaInputAction::CanvasZoomReset => InputActionView::CanvasZoomReset,
            NovaInputAction::MoveRow(a) => InputActionView::MoveRow(*a),
            NovaInputAction::ConsumeIntoColumn => InputActionView::ConsumeIntoColumn,
            NovaInputAction::ExpelFromColumn => InputActionView::ExpelFromColumn,
            NovaInputAction::ToggleOverview => InputActionView::ToggleOverview,
            NovaInputAction::Workspace(a) => InputActionView::Workspace(*a),
            NovaInputAction::CanvasCenterWindow => InputActionView::CanvasCenterWindow,
            NovaInputAction::CanvasZoomToFit => InputActionView::CanvasZoomToFit,
            NovaInputAction::CanvasNudge(a, b) => InputActionView::CanvasNudge(*a, *b),
            NovaInputAction::CanvasPan(a, b) => InputActionView::CanvasPan(*a, *b),
            NovaInputAction::TogglePin => InputActionView::TogglePin,
            NovaInputAction::CanvasHome => InputActionView::CanvasHome,
            NovaInputAction::OverviewNav(a, b) => InputActionView::OverviewNav(*a, *b),
            NovaInputAction::OverviewConfirm => InputActionView::OverviewConfirm,
            NovaInputAction::OverviewCancel => InputActionView::OverviewCancel,
            NovaInputAction::OverviewIgnore => InputActionView::OverviewIgnore,
            NovaInputAction::ScreenshotConfirm => InputActionView::ScreenshotConfirm,
            NovaInputAction::ScreenshotCancel => InputActionView::ScreenshotCancel,
            NovaInputAction::RecordToggle => InputActionView::RecordToggle,
            NovaInputAction::RecordDigit(a) => InputActionView::RecordDigit(*a),
            NovaInputAction::RecordMove(a) => InputActionView::RecordMove(*a),
            NovaInputAction::RecordEnter => InputActionView::RecordEnter,
            NovaInputAction::RecordCancel => InputActionView::RecordCancel,
            NovaInputAction::Spawn(s) => InputActionView::Spawn(s@),
            NovaInputAction::Welcome => InputActionView::Welcome,
        }
    }
}

} // verus!

verus! {

/// The first argument is `lit`.
pub open spec fn first_is(args: Seq<Seq<char>>, lit: Seq<char>) -> bool {
    args.len() > 0 && args[0] == lit
}

/// The (dx, dy) of a canvas nudge (`step` 50) or pan (`step` 120) towards
/// `direction`; anything but left, right or up means down.
pub open spec fn direction_step(direction: Seq<char>, step: int) -> (int, int) {
    if direction == "left"@ {
        (-step, 0)
    } else if direction == "right"@ {
        (step, 0)
    } else if direction == "up"@ {
        (0, -step)
    } else {
        (0, step)
    }
}

/// The action that a binding's action name and arguments describe; `None`
/// for an unknown name, a missing argument, a bad workspace number, an
/// empty `spawn` command, and the mouse-only `move_window` and
/// `resize_window`.
pub open spec fn keybind_action_spec(action: Seq<char>, args: Seq<Seq<char>>) -> Option<
    InputActionView,
> {
    if action == "spawn_terminal"@ {
        Some(InputActionView::SpawnTerminal)
    } else if action == "close_focused"@ {
        Some(InputActionView::CloseFocused)
    } else if action == "focus"@ {
        if args.len() > 0 {
            Some(InputActionView::Focus(args[0]))
        } else {
            None
        }
    } else if action == "move_list"@ {
        Some(InputActionView::MoveFocus(first_is(args, "previous"@)))
    } else if action == "cycle_focus"@ {
        Some(InputActionView::CycleFocus(first_is(args, "previous"@)))
    } else if action == "move_row"@ {
        Some(InputActionView::MoveRow(first_is(args, "previous"@)))
    } else if action == "consume_into_column"@ {
        Some(InputActionView::ConsumeIntoColumn)
    } else if action == "expel_from_column"@ {
        Some(InputActionView::ExpelFromColumn)
    } else if action == "toggle_overview"@ {
        Some(InputActionView::ToggleOverview)
    } else if action == "toggle_record"@ {
        Some(InputActionView::RecordToggle)
    } else if action == "workspace"@ {
        if args.len() > 0 {
            match parse_unsigned_spec(args[0], usize::MAX as nat) {
                Some(n) => Some(InputActionView::Workspace(n as usize)),
                None => None,
            }
        } else {
            None
        }
    } else if action == "canvas_center_window"@ {
        Some(InputActionView::CanvasCenterWindow)
    } else if action == "canvas_zoom_to_fit"@ {
        Some(InputActionView::CanvasZoomToFit)
    } else if action == "canvas_nudge"@ {
        if args.len() > 0 {
            let (dx, dy) = direction_step(args[0], 50);
            Some(InputActionView::CanvasNudge(dx as i32, dy as i32))
        } else {
            None
        }
    } else if action == "canvas_pan"@ {
        if args.len() > 0 {
            let (dx, dy) = direction_step(args[0], 120);
            Some(InputActionView::CanvasPan(dx as i32, dy as i32))
        } else {
            None
        }
    } else if action == "toggle_pin"@ {
        Some(InputActionView::TogglePin)
    } else if action == "canvas_home"@ {
        Some(InputActionView::CanvasHome)
    } else if action == "toggle_scratchpad"@ {
        Some(InputActionView::ToggleScratchpad)
    } else if action == "fullscreen"@ {
        Some(InputActionView::Fullscreen)
    } else if action == "toggle_float"@ {
        Some(InputActionView::ToggleFloat)
    } else if action == "canvas_zoom_in"@ {
        Some(InputActionView::CanvasZoomIn)
    } else if action == "canvas_zoom_out"@ {
        Some(InputActionView::CanvasZoomOut)
    } else if action == "canvas_zoom_reset"@ {
        Some(InputActionView::CanvasZoomReset)
    } else if action == "spawn"@ {
        if trim_spec(join_spaces(args)).len() == 0 {
            None
        } else {
            Some(InputActionView::Spawn(join_spaces(args)))
        }
    } else if action == "welcome"@ {
        Some(InputActionView::Welcome)
    } else {
        None
    }
}

/// `args.join(" ")`.
fn join_with_spaces(args: &[String]) -> (r: Vec<char>)
    ensures
        r@ == join_spaces(crate::text::strings_view(args@)),
{
    let ghost a = crate::text::strings_view(args@);
    let mut r: Vec<char> = Vec::new();
    let mut i: usize = 0;
    while i < args.len()
        invariant
            i <= args@.len(),
            a == crate::text::strings_view(args@),
            r@ == join_spaces(a.take(i as int)),
        decreases args@.len() - i,
    {
        let w = chars_of(args[i].as_str());
        proof {
            assert(a.take(i + 1).drop_last() =~= a.take(i as int));
            assert(a.take(i + 1).last() == w@);
        }
        if i > 0 {
            r.push(' ');
        }
        let ghost before = r@;
        let mut k: usize = 0;
        while k < w.len()
            invariant
                k <= w@.len(),
                r@ == before + w@.take(k as int),
            decreases w@.len() - k,
        {
            r.push(w[k]);
            proof {
                assert(r@ =~= before + w@.take(k + 1));
            }
            k = k + 1;
        }
        proof {
            assert(w@.take(w@.len() as int) =~= w@);
            if i == 0 {
                assert(r@ =~= w@);
                assert(a.take(1)[0] == w@);
            } else {
                assert(r@ =~= join_spaces(a.take(i as int)).push(' ') + w@);
            }
        }
        i = i + 1;
    }
    proof {
        assert(a.take(args@.len() as int) =~= a);
    }
    r
}

fn first_arg_is(args: &[String], lit: &str) -> (b: bool)
    ensures
        b == first_is(crate::text::strings_view(args@), lit@),
{
    args.len() > 0 && str_eq(args[0].as_str(), lit)
}

fn direction_of(args: &[String], step: i32) -> (r: (i32, i32))
    requires
        args@.len() > 0,
        step == 50 || step == 120,
    ensures
        r.0 == direction_step(args@[0]@, step as int).0,
        r.1 == direction_step(args@[0]@, step as int).1,
{
    let d = args[0].as_str();
    if str_eq(d, "left") {
        (-step, 0)
    } else if str_eq(d, "right") {
        (step, 0)
    } else if str_eq(d, "up") {
        (0, -step)
    } else {
        (0, step)
    }
}

/// Convert a config action string (plus args) into a keybind action.
pub fn parse_keybind_action(action: &str, args: &[String]) -> (r: Option<NovaInputAction>)
    ensures
        match r {
            Some(a) => keybind_action_spec(action@, crate::text::strings_view(args@)) == Some(a@),
            None => keybind_action_spec(action@, crate::text::strings_view(args@)) is None,
        },
{
    let ghost av = crate::text::strings_view(args@);
    proof {
        if args@.len() > 0 {
            assert(av[0] == args@[0]@);
        }
    }
    if str_eq(action, "spawn_terminal") {
        Some(NovaInputAction::SpawnTerminal)
    } else if str_eq(action, "close_focused") {
        Some(NovaInputAction::CloseFocused)
    } else if str_eq(action, "focus") {
        if args.len() > 0 {
            Some(NovaInputAction::Focus(args[0].clone()))
        } else {
            None
        }
    } else if str_eq(action, "move_list") {
        Some(NovaInputAction::MoveFocus(first_arg_is(args, "previous")))
    } else if str_eq(action, "cycle_focus") {
        Some(NovaInputAction::CycleFocus(first_arg_is(args, "previous")))
    } else if str_eq(action, "move_row") {
        Some(NovaInputAction::MoveRow(first_arg_is(args, "previous")))
    } else if str_eq(action, "consume_into_column") {
        Some(NovaInputAction::ConsumeIntoColumn)
    } else if str_eq(action, "expel_from_column") {
        Some(NovaInputAction::ExpelFromColumn)
    } else if str_eq(action, "toggle_overview") {
        Some(NovaInputAction::ToggleOverview)
    } else if str_eq(action, "toggle_record") {
        Some(NovaInputAction::RecordToggle)
    } else if str_eq(action, "workspace") {
        if args.len() > 0 {
            let n = chars_of(args[0].as_str());
            match parse_unsigned(n.as_slice(), usize::MAX as u64) {
                Some(v) => Some(NovaInputAction::Workspace(v as usize)),
                None => None,
            }
        } else {
            None
        }
    } else if str_eq(action, "canvas_center_window") {
        Some(NovaInputAction::CanvasCenterWindow)
    } else if str_eq(action, "canvas_zoom_to_fit") {
        Some(NovaInputAction::CanvasZoomToFit)
    } else if str_eq(action, "canvas_nudge") {
        if args.len() > 0 {
            let (dx, dy) = direction_of(args, 50);
            Some(NovaInputAction::CanvasNudge(dx, dy))
        } else {
            None
        }
    } else if str_eq(action, "canvas_pan") {
        if args.len() > 0 {
            let (dx, dy) = direction_of(args, 120);
            Some(NovaInputAction::CanvasPan(dx, dy))
        } else {
            None
        }
    } else if str_eq(action, "toggle_pin") {
        Some(NovaInputAction::TogglePin)
    } else if str_eq(action, "canvas_home") {
        Some(NovaInputAction::CanvasHome)
    } else if str_eq(action, "toggle_scratchpad") {
        Some(NovaInputAction::ToggleScratchpad)
    } else if str_eq(action, "fullscreen") {
        Some(NovaInputAction::Fullscreen)
    } else if str_eq(action, "toggle_float") {
        Some(NovaInputAction::ToggleFloat)
    } else if str_eq(action, "canvas_zoom_in") {
        Some(NovaInputAction::CanvasZoomIn)
    } else if str_eq(action, "canvas_zoom_out") {
        Some(NovaInputAction::CanvasZoomOut)
    } else if str_eq(action, "canvas_zoom_reset") {
        Some(NovaInputAction::CanvasZoomReset)
    } else if str_eq(action, "spawn") {
        let command = join_with_spaces(args);
        let trimmed = trim_chars(command.as_slice());
        if trimmed.len() == 0 {
            None
        } else {
            Some(NovaInputAction::Spawn(crate::text::string_of(command.as_slice())))
        }
    } else if str_eq(action, "welcome") {
        Some(NovaInputAction::Welcome)
    } else {
        None
    }
}

} // verus!

verus! {

/// The keysyms that the screenshot, recording and overview modes react to.
pub struct ModalKeys {
    /// The keysym named `Escape`.
    pub escape: u32,
    /// The keysym named `Return`.
    pub return_key: u32,
    /// The keysym named `KP_Enter`.
    pub kp_enter: u32,
    /// The keysym named `space`.
    pub space: u32,
    /// The keysym named `Left`.
    pub left: u32,
    /// The keysym named `Right`.
    pub right: u32,
    /// The keysym named `Up`.
    pub up: u32,
    /// The keysym named `Down`.
    pub down: u32,
    /// The keysym named `KP_Left`.
    pub kp_left: u32,
    /// The keysym named `KP_Right`.
    pub kp_right: u32,
    /// The keysym named `KP_Up`.
    pub kp_up: u32,
    /// The keysym named `KP_Down`.
    pub kp_down: u32,
    /// The keysyms named `1` .. `9`.
    pub digits: Vec<u32>,
    /// The keysyms named `KP_1` .. `KP_9`.
    pub kp_digits: Vec<u32>,
}

/// Both digit tables hold the nine digits.
pub open spec fn modal_keys_complete(k: &ModalKeys) -> bool {
    k.digits@.len() == 9 && k.kp_digits@.len() == 9
}

} // verus!

verus! {

/// A key event as the keyboard filter sees it.
#[derive(Clone, Copy, Debug)]
pub struct KeyEvent {
    /// The key went down (releases are always forwarded).
    pub pressed: bool,
    /// The keysym of the key, if any.
    pub sym: Option<u32>,
    pub shift: bool,
    pub ctrl: bool,
    pub alt: bool,
    pub logo: bool,
}

/// The modes that take the keyboard over.
#[derive(Clone, Copy, Debug)]
pub struct KeyModes {
    /// An interactive screenshot selection is open.
    pub screenshot_select: bool,
    /// The recording output picker is open.
    pub record_picker: bool,
    /// The workspace overview is shown.
    pub overview_active: bool,
}

/// What the keyboard filter does with a key event.
#[derive(Clone, Debug)]
pub enum KeyFilter {
    /// Hand the key to the focused client.
    Forward,
    /// Keep the key and run the action.
    Intercept(NovaInputAction),
}

/// The abstract content of a [`KeyFilter`].
pub ghost enum KeyFilterView {
    Forward,
    Intercept(InputActionView),
}

impl View for KeyFilter {
    type V = KeyFilterView;

    open spec fn view(&self) -> KeyFilterView {
        match self {
            KeyFilter::Forward => KeyFilterView::Forward,
            KeyFilter::Intercept(a) => KeyFilterView::Intercept(a@),
        }
    }
}

pub open spec fn is_key(sym: Option<u32>, k: u32) -> bool {
    sym == Some(k)
}

/// The first digit 1..=9 at or after `d` whose main or keypad keysym is `sym`.
pub open spec fn first_digit(keys: &ModalKeys, sym: Option<u32>, d: int) -> Option<u8>
    decreases 10 - d,
{
    if d < 1 || d > 9 {
        None
    } else if is_key(sym, keys.digits@[d - 1]) || is_key(sym, keys.kp_digits@[d - 1]) {
        Some(d as u8)
    } else {
        first_digit(keys, sym, d + 1)
    }
}

/// The binding's key, modifiers and layout condition all match.
pub open spec fn binding_fires(
    b: KeybindView,
    ev: KeyEvent,
    configured: Seq<char>,
    layout: Seq<char>,
) -> bool {
    &&& b.mouse_button is None
    &&& b.key_sym is Some
    &&& ev.sym == b.key_sym
    &&& modifier_bits_spec(b.modifiers, configured) == (ev.shift, ev.ctrl, ev.alt, ev.logo)
    &&& !(is_canvas_action_spec(b.action) && layout != "canvas"@)
}

/// The action of the first binding from index `i` on that fires and names
/// a valid action.
pub open spec fn first_hit(
    binds: Seq<KeybindView>,
    i: int,
    ev: KeyEvent,
    configured: Seq<char>,
    layout: Seq<char>,
) -> Option<InputActionView>
    decreases binds.len() - i,
{
    if i < 0 || i >= binds.len() {
        None
    } else if binding_fires(binds[i], ev, configured, layout) && (keybind_action_spec(
        binds[i].action,
        binds[i].args,
    ) is Some) {
        keybind_action_spec(binds[i].action, binds[i].args)
    } else {
        first_hit(binds, i + 1, ev, configured, layout)
    }
}

/// The overview's own keys: arrows navigate, Return confirms, Escape leaves.
pub open spec fn overview_key(keys: &ModalKeys, sym: Option<u32>) -> Option<InputActionView> {
    if is_key(sym, keys.left) {
        Some(InputActionView::OverviewNav(-1isize, 0isize))
    } else if is_key(sym, keys.right) {
        Some(InputActionView::OverviewNav(1, 0))
    } else if is_key(sym, keys.up) {
        Some(InputActionView::OverviewNav(0isize, -1isize))
    } else if is_key(sym, keys.down) {
        Some(InputActionView::OverviewNav(0, 1))
    } else if is_key(sym, keys.return_key) || is_key(sym, keys.kp_enter) {
        Some(InputActionView::OverviewConfirm)
    } else if is_key(sym, keys.escape) {
        Some(InputActionView::OverviewCancel)
    } else {
        None
    }
}

/// What the keyboard filter does: releases pass; a screenshot selection or
/// the record picker take every key; the overview takes its own keys; then
/// the first matching binding runs; in the overview anything else is
/// swallowed, elsewhere it goes to the client.
pub open spec fn key_filter_spec(
    keys: &ModalKeys,
    ev: KeyEvent,
    modes: KeyModes,
    binds: Seq<KeybindView>,
    configured: Seq<char>,
    layout: Seq<char>,
) -> KeyFilterView {
    let sym = ev.sym;
    let confirm = is_key(sym, keys.return_key) || is_key(sym, keys.kp_enter) || is_key(
        sym,
        keys.space,
    );
    if !ev.pressed {
        KeyFilterView::Forward
    } else if modes.screenshot_select {
        if is_key(sym, keys.escape) {
            KeyFilterView::Intercept(InputActionView::ScreenshotCancel)
        } else if confirm {
            KeyFilterView::Intercept(InputActionView::ScreenshotConfirm)
        } else {
            KeyFilterView::Intercept(InputActionView::OverviewIgnore)
        }
    } else if modes.record_picker {
        if is_key(sym, keys.escape) {
            KeyFilterView::Intercept(InputActionView::RecordCancel)
        } else if (first_digit(keys, sym, 1) is Some) {
            KeyFilterView::Intercept(InputActionView::RecordDigit(first_digit(keys, sym, 1)->0))
        } else if is_key(sym, keys.left) || is_key(sym, keys.kp_left) || is_key(sym, keys.up)
            || is_key(sym, keys.kp_up) {
            KeyFilterView::Intercept(InputActionView::RecordMove(-1i8))
        } else if is_key(sym, keys.right) || is_key(sym, keys.kp_right) || is_key(sym, keys.down)
            || is_key(sym, keys.kp_down) {
            KeyFilterView::Intercept(InputActionView::RecordMove(1))
        } else if confirm {
            KeyFilterView::Intercept(InputActionView::RecordEnter)
        } else {
            KeyFilterView::Intercept(InputActionView::OverviewIgnore)
        }
    } else if modes.overview_active && (overview_key(keys, sym) is Some) {
        KeyFilterView::Intercept(overview_key(keys, sym)->0)
    } else if (first_hit(binds, 0, ev, configured, layout) is Some) {
        KeyFilterView::Intercept(first_hit(binds, 0, ev, configured, layout)->0)
    } else if modes.overview_active {
        KeyFilterView::Intercept(InputActionView::OverviewIgnore)
    } else {
        KeyFilterView::Forward
    }
}

/// The views of a list of bindings.
pub open spec fn binds_view(binds: Seq<Keybind>) -> Seq<KeybindView> {
    binds.map_values(|b: Keybind| b@)
}

fn key_is(sym: Option<u32>, k: u32) -> (b: bool)
    ensures
        b == is_key(sym, k),
{
    match sym {
        Some(s) => s == k,
        None => false,
    }
}

fn record_digit_of(keys: &ModalKeys, sym: Option<u32>) -> (r: Option<u8>)
    requires
        modal_keys_complete(keys),
    ensures
        r == first_digit(keys, sym, 1),
{
    let mut d: u8 = 1;
    while d <= 9
        invariant
            1 <= d <= 10,
            modal_keys_complete(keys),
            first_digit(keys, sym, 1) == first_digit(keys, sym, d as int),
        decreases 10 - d,
    {
        let i = (d - 1) as usize;
        if key_is(sym, keys.digits[i]) || key_is(sym, keys.kp_digits[i]) {
            return Some(d);
        }
        d = d + 1;
    }
    None
}

fn overview_key_of(keys: &ModalKeys, sym: Option<u32>) -> (r: Option<NovaInputAction>)
    ensures
        match r {
            Some(a) => overview_key(keys, sym) == Some(a@),
            None => overview_key(keys, sym) is None,
        },
{
    if key_is(sym, keys.left) {
        Some(NovaInputAction::OverviewNav(-1, 0))
    } else if key_is(sym, keys.right) {
        Some(NovaInputAction::OverviewNav(1, 0))
    } else if key_is(sym, keys.up) {
        Some(NovaInputAction::OverviewNav(0, -1))
    } else if key_is(sym, keys.down) {
        Some(NovaInputAction::OverviewNav(0, 1))
    } else if key_is(sym, keys.return_key) || key_is(sym, keys.kp_enter) {
        Some(NovaInputAction::OverviewConfirm)
    } else if key_is(sym, keys.escape) {
        Some(NovaInputAction::OverviewCancel)
    } else {
        None
    }
}

fn binding_action(b: &Keybind, ev: KeyEvent, configured: &str, layout: &str) -> (r: Option<
    NovaInputAction,
>)
    ensures
        match r {
            Some(a) => binding_fires(b@, ev, configured@, layout@) && keybind_action_spec(
                b@.action,
                b@.args,
            ) == Some(a@),
            None => !(binding_fires(b@, ev, configured@, layout@) && keybind_action_spec(
                b@.action,
                b@.args,
            ) is Some),
        },
{
    if b.is_mouse() {
        return None;
    }
    let bind_sym = match b.key_sym {
        Some(s) => s,
        None => {
            return None;
        },
    };
    if !key_is(ev.sym, bind_sym) {
        return None;
    }
    let bits = bind_modifier_bits(b.modifiers.as_slice(), configured);
    if !(bits.0 == ev.shift && bits.1 == ev.ctrl && bits.2 == ev.alt && bits.3 == ev.logo) {
        return None;
    }
    if is_canvas_action(b.action.as_str()) && !str_eq(layout, "canvas") {
        return None;
    }
    parse_keybind_action(b.action.as_str(), b.args.as_slice())
}

/// The keyboard filter: decide, for a key event in the given modes, whether
/// the compositor keeps the key (and which action it runs) or forwards it.
pub fn key_filter(
    keys: &ModalKeys,
    ev: KeyEvent,
    modes: KeyModes,
    bindings: &[Keybind],
    configured: &str,
    layout: &str,
) -> (r: KeyFilter)
    requires
        modal_keys_complete(keys),
    ensures
        r@ == key_filter_spec(keys, ev, modes, binds_view(bindings@), configured@, layout@),
{
    let sym = ev.sym;
    if !ev.pressed {
        return KeyFilter::Forward;
    }
    let confirm = key_is(sym, keys.return_key) || key_is(sym, keys.kp_enter) || key_is(
        sym,
        keys.space,
    );
    if modes.screenshot_select {
        if key_is(sym, keys.escape) {
            return KeyFilter::Intercept(NovaInputAction::ScreenshotCancel);
        }
        if confirm {
            return KeyFilter::Intercept(NovaInputAction::ScreenshotConfirm);
        }
        return KeyFilter::Intercept(NovaInputAction::OverviewIgnore);
    }
    if modes.record_picker {
        if key_is(sym, keys.escape) {
            return KeyFilter::Intercept(NovaInputAction::RecordCancel);
        }
        if let Some(d) = record_digit_of(keys, sym) {
            return KeyFilter::Intercept(NovaInputAction::RecordDigit(d));
        }
        let left = key_is(sym, keys.left) || key_is(sym, keys.kp_left);
        let right = key_is(sym, keys.right) || key_is(sym, keys.kp_right);
        let up = key_is(sym, keys.up) || key_is(sym, keys.kp_up);
        let down = key_is(sym, keys.down) || key_is(sym, keys.kp_down);
        if left || up {
            return KeyFilter::Intercept(NovaInputAction::RecordMove(-1));
        }
        if right || down {
            return KeyFilter::Intercept(NovaInputAction::RecordMove(1));
        }
        if confirm {
            return KeyFilter::Intercept(NovaInputAction::RecordEnter);
        }
        return KeyFilter::Intercept(NovaInputAction::OverviewIgnore);
    }
    if modes.overview_active {
        let ov = overview_key_of(keys, sym);
        match ov {
            Some(a) => {
                return KeyFilter::Intercept(a);
            },
            None => {},
        }
    }
    let ghost bs = binds_view(bindings@);
    let mut i: usize = 0;
    while i < bindings.len()
        invariant
            i <= bindings@.len(),
            bs == binds_view(bindings@),
            ev.pressed && !modes.screenshot_select && !modes.record_picker,
            !(modes.overview_active && (overview_key(keys, ev.sym) is Some)),
            first_hit(bs, 0, ev, configured@, layout@) == first_hit(
                bs,
                i as int,
                ev,
                configured@,
                layout@,
            ),
        decreases bindings@.len() - i,
    {
        proof {
            assert(bs[i as int] == bindings@[i as int]@);
        }
        if let Some(a) = binding_action(&bindings[i], ev, configured, layout) {
            return KeyFilter::Intercept(a);
        }
        i = i + 1;
    }
    if modes.overview_active {
        return KeyFilter::Intercept(NovaInputAction::OverviewIgnore);
    }
    KeyFilter::Forward
}

} // verus!

verus! {

/// A released key always reaches the client; while a screenshot selection
/// or the record picker is open, no pressed key does.
pub proof fn lemma_modal_keys_swallowed(
    keys: &ModalKeys,
    ev: KeyEvent,
    modes: KeyModes,
    binds: Seq<KeybindView>,
    configured: Seq<char>,
    layout: Seq<char>,
)
    ensures
        !ev.pressed ==> key_filter_spec(keys, ev, modes, binds, configured, layout) is Forward,
        ev.pressed && (modes.screenshot_select || modes.record_picker) ==> key_filter_spec(
            keys,
            ev,
            modes,
            binds,
            configured,
            layout,
        ) is Intercept,
        ev.pressed && modes.overview_active ==> key_filter_spec(keys, ev, modes, binds, configured, layout) is Intercept,
{
}

/// A canvas-only binding never fires outside the canvas layout.
pub proof fn lemma_canvas_binds_need_canvas(
    b: KeybindView,
    ev: KeyEvent,
    configured: Seq<char>,
    layout: Seq<char>,
)
    requires
        is_canvas_action_spec(b.action),
        layout != "canvas"@,
    ensures
        !binding_fires(b, ev, configured, layout),
{
}

} // verus!

verus! {

/// What a pointer button press starts.
#[derive(Clone, Copy, Debug, PartialEq, Eq, Structural)]
pub enum PressPlan {
    /// Resize the window under the pointer freely (it floats, or the canvas
    /// is active) by these edges.
    ResizeFree { window: u64, edges: Edges },
    /// Focus the tiled window under the pointer and resize its tile by
    /// these edges.
    ResizeTile { window: u64, edges: Edges },
    /// Drag the window under the pointer.
    Move(u64),
    /// Pan the canvas with this button; focus then follows the click.
    CanvasPan,
    /// No drag: focus follows the click.
    Click,
}

/// The first mouse binding for `button`, from index `i` on.
pub open spec fn drag_bind_from(binds: Seq<KeybindView>, button: u32, i: int) -> Option<int>
    decreases binds.len() - i,
{
    if i < 0 || i >= binds.len() {
        None
    } else if binds[i].mouse_button == Some(button) {
        Some(i)
    } else {
        drag_bind_from(binds, button, i + 1)
    }
}

/// The edges a resize drags: the half of the window the pointer is in
/// horizontally, and vertically too outside the scroll layout.
pub open spec fn press_edges(right_half: bool, bottom_half: bool, scroll: bool) -> Edges {
    Edges {
        left: !right_half,
        right: right_half,
        top: !scroll && !bottom_half,
        bottom: !scroll && bottom_half,
    }
}

/// The press decision. Over a layer-shell surface nothing is dragged; else
/// the first mouse binding for the button decides, when the held modifiers
/// are exactly the ones it asks for: over a window it resizes
/// (`resize_window`, by the pointer's quarter) or moves it; over empty
/// canvas a `move_window` binding pans.
pub open spec fn press_plan_spec(
    over_layer: bool,
    binds: Seq<KeybindView>,
    button: u32,
    held: (bool, bool, bool, bool),
    modifier: Seq<char>,
    under: Option<(u64, bool)>,
    right_half: bool,
    bottom_half: bool,
    layout: Seq<char>,
    on_output: bool,
) -> PressPlan {
    if over_layer {
        PressPlan::Click
    } else {
        match drag_bind_from(binds, button, 0) {
            None => PressPlan::Click,
            Some(i) => {
                let b = binds[i];
                if modifier_bits_spec(b.modifiers, modifier) != held {
                    PressPlan::Click
                } else {
                    match under {
                        Some((id, floating)) => if b.action == "resize_window"@ {
                            let edges = press_edges(right_half, bottom_half, layout == "scroll"@);
                            if floating || layout == "canvas"@ {
                                PressPlan::ResizeFree { window: id, edges }
                            } else {
                                PressPlan::ResizeTile { window: id, edges }
                            }
                        } else {
                            PressPlan::Move(id)
                        },
                        None => if layout == "canvas"@ && b.action == "move_window"@ && on_output {
                            PressPlan::CanvasPan
                        } else {
                            PressPlan::Click
                        },
                    }
                }
            },
        }
    }
}

/// Decide what a button press starts: `binds` are the configured bindings,
/// `held` the modifiers held (shift, ctrl, alt, logo), `under` the window
/// under the pointer and whether it floats, `right_half`/`bottom_half`
/// where in that window the pointer is, `on_output` whether the pointer is
/// over an output.
pub fn press_plan(
    over_layer: bool,
    binds: &[Keybind],
    button: u32,
    held: (bool, bool, bool, bool),
    modifier: &str,
    under: Option<(u64, bool)>,
    right_half: bool,
    bottom_half: bool,
    layout: &str,
    on_output: bool,
) -> (plan: PressPlan)
    ensures
        plan == press_plan_spec(
            over_layer,
            binds_view(binds@),
            button,
            held,
            modifier@,
            under,
            right_half,
            bottom_half,
            layout@,
            on_output,
        ),
{
    if over_layer {
        return PressPlan::Click;
    }
    let ghost bv = binds_view(binds@);
    let mut i: usize = 0;
    while i < binds.len() && !(binds[i].mouse_button == Some(button))
        invariant
            i <= binds@.len(),
            bv == binds_view(binds@),
            drag_bind_from(bv, button, 0) == drag_bind_from(bv, button, i as int),
        decreases binds@.len() - i,
    {
        assert(bv[i as int] == binds@[i as int]@);
        i = i + 1;
    }
    if i == binds.len() {
        return PressPlan::Click;
    }
    let b = &binds[i];
    assert(bv[i as int] == b@);
    let bits = bind_modifier_bits(b.modifiers.as_slice(), modifier);
    if !(bits.0 == held.0 && bits.1 == held.1 && bits.2 == held.2 && bits.3 == held.3) {
        return PressPlan::Click;
    }
    match under {
        Some((id, floating)) => {
            if str_eq(b.action.as_str(), "resize_window") {
                let scroll = str_eq(layout, "scroll");
                let edges = Edges { left: !right_half, right: right_half, top: !scroll && !bottom_half, bottom: !scroll && bottom_half };
                if floating || str_eq(layout, "canvas") {
                    PressPlan::ResizeFree { window: id, edges }
                } else {
                    PressPlan::ResizeTile { window: id, edges }
                }
            } else {
                PressPlan::Move(id)
            }
        },
        None => {
            if str_eq(layout, "canvas") && str_eq(b.action.as_str(), "move_window") && on_output {
                PressPlan::CanvasPan
            } else {
                PressPlan::Click
            }
        },
    }
}

/// Where keyboard focus goes on a click.
#[derive(Clone, Copy, Debug, PartialEq, Eq, Structural)]
pub enum ClickFocus {
    /// The layer-shell surface above the windows under the pointer.
    UpperLayer,
    /// The window under the pointer, raised first when `raise`.
    Window { id: u64, raise: bool },
    /// A focusable layer-shell surface below the windows.
    LowerLayer,
    /// Nothing.
    Clear,
}

/// Focus follows a click: an upper layer surface first, then the window
/// under the pointer (raised when it floats or nothing floats), then a
/// focusable lower layer surface; otherwise focus is cleared.
pub open spec fn click_focus_spec(over_layer: bool, under: Option<(u64, bool)>, any_floating: bool, lower_layer: bool) -> ClickFocus {
    if over_layer {
        ClickFocus::UpperLayer
    } else {
        match under {
            Some((id, floating)) => ClickFocus::Window { id, raise: floating || !any_floating },
            None => if lower_layer {
                ClickFocus::LowerLayer
            } else {
                ClickFocus::Clear
            },
        }
    }
}

/// Where a click sends keyboard focus.
pub fn click_focus(over_layer: bool, under: Option<(u64, bool)>, any_floating: bool, lower_layer: bool) -> (f: ClickFocus)
    ensures
        f == click_focus_spec(over_layer, under, any_floating, lower_layer),
{
    if over_layer {
        ClickFocus::UpperLayer
    } else {
        match under {
            Some((id, floating)) => ClickFocus::Window { id, raise: floating || !any_floating },
            None => {
                if lower_layer {
                    ClickFocus::LowerLayer
                } else {
                    ClickFocus::Clear
                }
            },
        }
    }
}

} // verus!

verus! {

/// What a scroll-wheel event does.
#[derive(Clone, Copy, Debug, PartialEq, Eq, Structural)]
pub enum WheelAction {
    /// No modifier: the event goes to the client under the pointer.
    PassThrough,
    /// Swallowed without effect (no movement, or still cooling down).
    Nothing,
    /// Switch workspace by this step (stamps the workspace cooldown).
    SwitchWorkspace(isize),
    /// Move within the scroll column's stack (stamps the column cooldown).
    ScrollStack(isize),
    /// Move across scroll columns (stamps the column cooldown).
    ScrollColumns(isize),
    /// Focus the window to the left (stamps the column cooldown).
    FocusLeft,
    /// Focus the window to the right (stamps the column cooldown).
    FocusRight,
    /// Pan the canvas sideways by the horizontal amount.
    CanvasPan,
    /// Zoom the canvas by the vertical amount.
    CanvasZoom,
}

/// The wheel decision. `horizontal_gesture`: the horizontal amount is the
/// larger; `h_sign`/`v_sign`: the signs (-1, 0, 1) of the two amounts;
/// `col_ready`/`ws_ready`: the column and workspace cooldowns have passed.
pub open spec fn wheel_action_spec(
    mod_down: bool,
    canvas: bool,
    scroll: bool,
    shift: bool,
    ctrl: bool,
    horizontal_gesture: bool,
    h_sign: isize,
    v_sign: isize,
    col_ready: bool,
    ws_ready: bool,
) -> WheelAction {
    if !mod_down {
        WheelAction::PassThrough
    } else if canvas {
        if shift && !horizontal_gesture {
            if v_sign != 0 && ws_ready {
                WheelAction::SwitchWorkspace((-v_sign) as isize)
            } else {
                WheelAction::Nothing
            }
        } else if horizontal_gesture {
            if h_sign != 0 {
                WheelAction::CanvasPan
            } else {
                WheelAction::Nothing
            }
        } else {
            WheelAction::CanvasZoom
        }
    } else {
        let step = if horizontal_gesture {
            h_sign
        } else {
            v_sign
        };
        let page_columns = if scroll {
            !(ctrl && !horizontal_gesture)
        } else {
            shift || horizontal_gesture
        };
        if page_columns {
            if step != 0 && col_ready {
                if scroll {
                    if !horizontal_gesture && !shift {
                        WheelAction::ScrollStack(step)
                    } else {
                        WheelAction::ScrollColumns(step)
                    }
                } else if step < 0 {
                    WheelAction::FocusLeft
                } else {
                    WheelAction::FocusRight
                }
            } else {
                WheelAction::Nothing
            }
        } else if step != 0 && ws_ready {
            WheelAction::SwitchWorkspace((-step) as isize)
        } else {
            WheelAction::Nothing
        }
    }
}

/// Decide what a scroll-wheel event does (modifier held, layout, shift and
/// ctrl, the dominant axis, the signs of the amounts, the cooldowns).
pub fn wheel_action(
    mod_down: bool,
    canvas: bool,
    scroll: bool,
    shift: bool,
    ctrl: bool,
    horizontal_gesture: bool,
    h_sign: isize,
    v_sign: isize,
    col_ready: bool,
    ws_ready: bool,
) -> (a: WheelAction)
    requires
        -1 <= h_sign <= 1,
        -1 <= v_sign <= 1,
    ensures
        a == wheel_action_spec(mod_down, canvas, scroll, shift, ctrl, horizontal_gesture, h_sign, v_sign, col_ready, ws_ready),
{
    if !mod_down {
        return WheelAction::PassThrough;
    }
    if canvas {
        return if shift && !horizontal_gesture {
            if v_sign != 0 && ws_ready {
                WheelAction::SwitchWorkspace(-v_sign)
            } else {
                WheelAction::Nothing
            }
        } else if horizontal_gesture {
            if h_sign != 0 {
                WheelAction::CanvasPan
            } else {
                WheelAction::Nothing
            }
        } else {
            WheelAction::CanvasZoom
        };
    }
    let step = if horizontal_gesture {
        h_sign
    } else {
        v_sign
    };
    let page_columns = if scroll {
        !(ctrl && !horizontal_gesture)
    } else {
        shift || horizontal_gesture
    };
    if page_columns {
        if step != 0 && col_ready {
            if scroll {
                if !horizontal_gesture && !shift {
                    WheelAction::ScrollStack(step)
                } else {
                    WheelAction::ScrollColumns(step)
                }
            } else if step < 0 {
                WheelAction::FocusLeft
            } else {
                WheelAction::FocusRight
            }
        } else {
            WheelAction::Nothing
        }
    } else if step != 0 && ws_ready {
        WheelAction::SwitchWorkspace(-step)
    } else {
        WheelAction::Nothing
    }
}

} // verus!

verus! {

/// How long, in milliseconds, a spawn or close keybind stays quiet after it
/// fired, so that a held key does not open a stack of terminals.
pub const ACTION_DEBOUNCE_MS: u64 = 150;

/// A keybind that fired before counts as ready again once this many
/// milliseconds have passed; one that never fired is ready.
pub open spec fn debounce_ready(since_ms: Option<u64>) -> bool {
    match since_ms {
        Some(ms) => ms >= ACTION_DEBOUNCE_MS,
        None => true,
    }
}

/// What the dispatcher does with a keybind action.
#[derive(Debug, Clone, Copy, PartialEq, Eq, Structural)]
pub enum ActionStep {
    /// Nothing happens.
    Skip,
    /// The action runs; `stamp_spawn` / `stamp_close` say whether the time of
    /// the last spawn / close becomes now.
    Run { stamp_spawn: bool, stamp_close: bool },
    /// A workspace key while the overview is open: leave it onto this
    /// workspace index.
    LeaveOverviewTo(usize),
    /// A workspace key otherwise: go to this workspace index.
    GotoWorkspace(usize),
}

/// The step the dispatcher takes for `action`: spawning is debounced against
/// the last spawn, closing against the last close, the canvas zoom and pan
/// keys only act in the canvas layout, and workspace key `n` (counted from
/// one) targets index `n - 1`, saturating at zero.
pub open spec fn action_step_spec(
    action: InputActionView,
    layout_canvas: bool,
    overview_active: bool,
    since_spawn_ms: Option<u64>,
    since_close_ms: Option<u64>,
) -> ActionStep {
    match action {
        InputActionView::SpawnTerminal | InputActionView::Spawn(_) => if debounce_ready(since_spawn_ms) {
            ActionStep::Run { stamp_spawn: true, stamp_close: false }
        } else {
            ActionStep::Skip
        },
        InputActionView::CloseFocused => if debounce_ready(since_close_ms) {
            ActionStep::Run { stamp_spawn: false, stamp_close: true }
        } else {
            ActionStep::Skip
        },
        InputActionView::CanvasZoomIn
        | InputActionView::CanvasZoomOut
        | InputActionView::CanvasZoomReset
        | InputActionView::CanvasPan(_, _) => if layout_canvas {
            ActionStep::Run { stamp_spawn: false, stamp_close: false }
        } else {
            ActionStep::Skip
        },
        InputActionView::Workspace(n) => {
            let target = if n >= 1 { (n - 1) as usize } else { 0usize };
            if overview_active {
                ActionStep::LeaveOverviewTo(target)
            } else {
                ActionStep::GotoWorkspace(target)
            }
        },
        InputActionView::OverviewIgnore => ActionStep::Skip,
        _ => ActionStep::Run { stamp_spawn: false, stamp_close: false },
    }
}

/// Decides what a fired keybind action does, given the layout, whether the
/// overview is open and how long ago (in milliseconds) the last spawn and
/// the last close fired.
pub fn action_step(
    action: &NovaInputAction,
    layout_canvas: bool,
    overview_active: bool,
    since_spawn_ms: Option<u64>,
    since_close_ms: Option<u64>,
) -> (step: ActionStep)
    ensures
        step == action_step_spec(action@, layout_canvas, overview_active, since_spawn_ms, since_close_ms),
{
    let spawn_ready = match since_spawn_ms {
        Some(ms) => ms >= ACTION_DEBOUNCE_MS,
        None => true,
    };
    let close_ready = match since_close_ms {
        Some(ms) => ms >= ACTION_DEBOUNCE_MS,
        None => true,
    };
    let run = ActionStep::Run { stamp_spawn: false, stamp_close: false };
    match action {
        NovaInputAction::SpawnTerminal | NovaInputAction::Spawn(_) => if spawn_ready {
            ActionStep::Run { stamp_spawn: true, stamp_close: false }
        } else {
            ActionStep::Skip
        },
        NovaInputAction::CloseFocused => if close_ready {
            ActionStep::Run { stamp_spawn: false, stamp_close: true }
        } else {
            ActionStep::Skip
        },
        NovaInputAction::CanvasZoomIn
        | NovaInputAction::CanvasZoomOut
        | NovaInputAction::CanvasZoomReset
        | NovaInputAction::CanvasPan(_, _) => if layout_canvas {
            run
        } else {
            ActionStep::Skip
        },
        NovaInputAction::Workspace(n) => {
            let target = if *n >= 1 { *n - 1 } else { 0 };
            if overview_active {
                ActionStep::LeaveOverviewTo(target)
            } else {
                ActionStep::GotoWorkspace(target)
            }
        },
        NovaInputAction::OverviewIgnore => ActionStep::Skip,
        _ => run,
    }
}

} // verus!

verus! {

/// Where a key event goes before any keybinding is looked at.
#[derive(Debug, Clone, Copy, PartialEq, Eq, Structural)]
pub enum KeyRoute {
    /// Straight to the layer surface that grabbed the keyboard.
    ExclusiveLayer,
    /// Straight to the lock surface.
    LockSurface,
    /// Through the keybinding filter.
    Shortcuts,
}

pub open spec fn key_route_spec(exclusive_layer: bool, locked: bool) -> KeyRoute {
    if locked {
        KeyRoute::LockSurface
    } else if exclusive_layer {
        KeyRoute::ExclusiveLayer
    } else {
        KeyRoute::Shortcuts
    }
}

/// Routes a key event: while the session is locked it goes to the lock
/// surface alone; otherwise a layer surface holding an exclusive keyboard
/// grab gets it; only when neither holds do keybindings apply.
pub fn key_route(exclusive_layer: bool, locked: bool) -> (r: KeyRoute)
    ensures
        r == key_route_spec(exclusive_layer, locked),
{
    if locked {
        KeyRoute::LockSurface
    } else if exclusive_layer {
        KeyRoute::ExclusiveLayer
    } else {
        KeyRoute::Shortcuts
    }
}

/// While the session is locked every key goes to the lock surface: no
/// compositor shortcut fires and no layer grab takes it.
pub proof fn lemma_locked_session_has_no_shortcuts(exclusive_layer: bool)
    ensures
        key_route_spec(exclusive_layer, true) == KeyRoute::LockSurface,
{
}

} // verus!

verus! {

/// A pointer acceleration profile named in the `input` config.
#[derive(Debug, Clone, Copy, PartialEq, Eq, Structural)]
pub enum AccelProfile {
    Flat,
    Adaptive,
}

/// A touchpad click method named in the `input` config.
#[derive(Debug, Clone, Copy, PartialEq, Eq, Structural)]
pub enum ClickMethod {
    ButtonAreas,
    Clickfinger,
}

/// The profile a config name selects, ignoring surrounding whitespace and
/// ASCII case; unknown names select none and leave the device default.
pub open spec fn accel_profile_spec(name: Seq<char>) -> Option<AccelProfile> {
    let t = trim_spec(name);
    if eq_ignore_case(t, "flat"@) {
        Some(AccelProfile::Flat)
    } else if eq_ignore_case(t, "adaptive"@) {
        Some(AccelProfile::Adaptive)
    } else {
        None
    }
}

/// The click method a config name selects, with the same leniency and the
/// spellings `button-areas`, `button_areas`, `buttonareas`, `clickfinger`,
/// `click-finger` and `click_finger`.
pub open spec fn click_method_spec(name: Seq<char>) -> Option<ClickMethod> {
    let t = trim_spec(name);
    if eq_ignore_case(t, "button-areas"@) || eq_ignore_case(t, "button_areas"@) || eq_ignore_case(
        t,
        "buttonareas"@,
    ) {
        Some(ClickMethod::ButtonAreas)
    } else if eq_ignore_case(t, "clickfinger"@) || eq_ignore_case(t, "click-finger"@) || eq_ignore_case(
        t,
        "click_finger"@,
    ) {
        Some(ClickMethod::Clickfinger)
    } else {
        None
    }
}

fn trimmed(name: &str) -> (t: String)
    ensures
        t@ == trim_spec(name@),
{
    let v = chars_of(name);
    let w = trim_chars(v.as_slice());
    string_of(w.as_slice())
}

/// Reads an acceleration profile name from the config.
pub fn parse_accel_profile(name: &str) -> (p: Option<AccelProfile>)
    ensures
        p == accel_profile_spec(name@),
{
    let t = trimmed(name);
    if eq_ignore_case_lit(t.as_str(), "flat") {
        Some(AccelProfile::Flat)
    } else if eq_ignore_case_lit(t.as_str(), "adaptive") {
        Some(AccelProfile::Adaptive)
    } else {
        None
    }
}

/// Reads a click method name from the config.
pub fn parse_click_method(name: &str) -> (m: Option<ClickMethod>)
    ensures
        m == click_method_spec(name@),
{
    let t = trimmed(name);
    let s = t.as_str();
    if eq_ignore_case_lit(s, "button-areas") || eq_ignore_case_lit(s, "button_areas") || eq_ignore_case_lit(
        s,
        "buttonareas",
    ) {
        Some(ClickMethod::ButtonAreas)
    } else if eq_ignore_case_lit(s, "clickfinger") || eq_ignore_case_lit(s, "click-finger")
        || eq_ignore_case_lit(s, "click_finger") {
        Some(ClickMethod::Clickfinger)
    } else {
        None
    }
}

} // verus!
