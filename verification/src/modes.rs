//! Window modes: the scratchpad terminal that is shown and hidden on a key,
//! and floating and maximized windows.
use vstd::prelude::*;
use std::collections::{HashMap, HashSet};
use crate::geometry::Rect;
use crate::text::{chars_of, deep, split_whitespace, string_of, strings_of, strings_view, words_spec};

verus! {

/// The scratchpad terminal's state.
#[derive(Clone, Copy, Debug, PartialEq, Eq, Structural)]
pub struct Scratchpad {
    /// The scratchpad window, once it has mapped.
    pub id: Option<u64>,
    /// Whether it is shown.
    pub visible: bool,
    /// A terminal was started and its window is awaited.
    pub pending: bool,
}

/// What toggling the scratchpad asks of the compositor.
#[derive(Debug)]
pub enum ScratchpadAction {
    /// Start the terminal: this program with these arguments.
    Spawn { program: String, args: Vec<String> },
    /// Hide it; focus moves to the output's first window, or nowhere.
    Hide,
    /// Show it and focus this window.
    Show(u64),
}

/// The program of a terminal command line: its first word, `foot` when it
/// has none.
pub open spec fn terminal_program(terminal: Seq<char>) -> Seq<char> {
    if words_spec(terminal).len() > 0 {
        words_spec(terminal)[0]
    } else {
        "foot"@
    }
}

/// The arguments of a terminal command line: its other words.
pub open spec fn terminal_args(terminal: Seq<char>) -> Seq<Seq<char>> {
    if words_spec(terminal).len() > 0 {
        words_spec(terminal).drop_first()
    } else {
        Seq::empty()
    }
}

/// Split a terminal command line into the program (`foot` when the line
/// is blank) and its arguments, at whitespace.
pub fn terminal_command(terminal: &str) -> (cmd: (String, Vec<String>))
    ensures
        cmd.0@ == terminal_program(terminal@),
        strings_view(cmd.1@) == terminal_args(terminal@),
{
    let chars = chars_of(terminal);
    let words = split_whitespace(chars.as_slice());
    let program = if words.len() > 0 {
        string_of(words[0].as_slice())
    } else {
        let f = chars_of("foot");
        string_of(f.as_slice())
    };
    let args = if words.len() > 0 {
        strings_of(words.as_slice(), 1, words.len())
    } else {
        Vec::new()
    };
    proof {
        if words@.len() > 0 {
            assert(deep(words@)[0] == words@[0]@);
            assert(deep(words@).subrange(1, words@.len() as int) =~= words_spec(terminal@).drop_first());
        } else {
            assert(strings_view(args@) =~= Seq::<Seq<char>>::empty());
        }
    }
    (program, args)
}

/// The scratchpad after a toggle: a window that no longer exists is
/// forgotten; without a window a terminal is started (and will show);
/// otherwise it flips between shown and hidden.
pub open spec fn toggled(pad: Scratchpad, exists: bool) -> Scratchpad {
    let id = if pad.id is Some && !exists {
        None
    } else {
        pad.id
    };
    match id {
        None => Scratchpad { id: None, visible: true, pending: true },
        Some(i) => Scratchpad { id: Some(i), visible: !pad.visible, pending: pad.pending },
    }
}

/// Toggle the scratchpad terminal (`terminal` is the configured command
/// line; `exists` whether the scratchpad window is still mapped).
pub fn toggle_scratchpad(pad: &mut Scratchpad, exists: bool, terminal: &str) -> (action: ScratchpadAction)
    ensures
        *final(pad) == toggled(*old(pad), exists),
        match action {
            ScratchpadAction::Spawn { program, args } => {
                &&& toggled(*old(pad), exists).id is None
                &&& program@ == terminal_program(terminal@)
                &&& strings_view(args@) == terminal_args(terminal@)
            },
            ScratchpadAction::Hide => toggled(*old(pad), exists).id is Some && old(pad).visible,
            ScratchpadAction::Show(id) => toggled(*old(pad), exists).id == Some(id) && !old(pad).visible,
        },
{
    if pad.id.is_some() && !exists {
        pad.id = None;
    }
    match pad.id {
        None => {
            let (program, args) = terminal_command(terminal);
            pad.pending = true;
            pad.visible = true;
            ScratchpadAction::Spawn { program, args }
        },
        Some(id) => {
            if pad.visible {
                pad.visible = false;
                ScratchpadAction::Hide
            } else {
                pad.visible = true;
                ScratchpadAction::Show(id)
            }
        },
    }
}

/// Showing and then hiding the scratchpad (its window still there) brings
/// it back to where it was.
pub proof fn lemma_scratchpad_toggle_twice(pad: Scratchpad)
    requires
        pad.id is Some,
    ensures
        toggled(toggled(pad, true), true) == pad,
{
}

} // verus!

verus! {

/// Toggle maximize on window `id`: a maximized window goes back to its
/// place; any other window stops floating and is maximized. Returns
/// whether the window is maximized now.
pub fn toggle_maximized(maximized: &mut HashSet<u64>, floating: &mut HashMap<u64, Rect>, id: u64) -> (now: bool)
    ensures
        now == !old(maximized)@.contains(id),
        final(maximized)@ == (if now {
            old(maximized)@.insert(id)
        } else {
            old(maximized)@.remove(id)
        }),
        final(floating)@ == (if now {
            old(floating)@.remove(id)
        } else {
            old(floating)@
        }),
{
    if maximized.contains(&id) {
        maximized.remove(&id);
        false
    } else {
        floating.remove(&id);
        maximized.insert(id);
        true
    }
}

/// Toggle floating on window `id` (now at `rect`): a floating window
/// rejoins the layout; any other window floats at `rect`, leaving maximize.
/// Returns whether it floats now.
pub fn toggle_float(maximized: &mut HashSet<u64>, floating: &mut HashMap<u64, Rect>, id: u64, rect: Rect) -> (now: bool)
    ensures
        now == !old(floating)@.contains_key(id),
        final(floating)@ == (if now {
            old(floating)@.insert(id, rect)
        } else {
            old(floating)@.remove(id)
        }),
        final(maximized)@ == (if now {
            old(maximized)@.remove(id)
        } else {
            old(maximized)@
        }),
{
    if floating.contains_key(&id) {
        floating.remove(&id);
        false
    } else {
        maximized.remove(&id);
        floating.insert(id, rect);
        true
    }
}

/// A window is never floating and maximized at once after either toggle,
/// when it was not both before.
pub proof fn lemma_toggles_keep_modes_apart(
    maximized: Set<u64>,
    floating: Map<u64, Rect>,
    id: u64,
    rect: Rect,
)
    requires
        !(maximized.contains(id) && floating.contains_key(id)),
    ensures
        ({
            let now = !maximized.contains(id);
            let m = if now {
                maximized.insert(id)
            } else {
                maximized.remove(id)
            };
            let f = if now {
                floating.remove(id)
            } else {
                floating
            };
            !(m.contains(id) && f.contains_key(id))
        }),
        ({
            let now = !floating.contains_key(id);
            let f = if now {
                floating.insert(id, rect)
            } else {
                floating.remove(id)
            };
            let m = if now {
                maximized.remove(id)
            } else {
                maximized
            };
            !(m.contains(id) && f.contains_key(id))
        }),
{
}

} // verus!

verus! {

/// `r` moved by `(dx, dy)`.
pub open spec fn moved_by(r: Rect, dx: int, dy: int) -> Rect {
    Rect { loc: crate::geometry::Point { x: (r.loc.x + dx) as i32, y: (r.loc.y + dy) as i32 }, size: r.size }
}

/// Nudge window `id` on the canvas by `(dx, dy)`: it stops being pinned to
/// the screen, and its floating rectangle, or else its canvas rectangle,
/// moves. Returns whether it had one to move.
pub fn canvas_nudge(
    floating: &mut HashMap<u64, Rect>,
    canvas_rects: &mut HashMap<u64, Rect>,
    pinned: &mut HashMap<u64, Rect>,
    id: u64,
    dx: i32,
    dy: i32,
) -> (moved: bool)
    requires
        old(floating)@.contains_key(id) ==> crate::geometry::fits_i32(old(floating)@[id].loc.x + dx)
            && crate::geometry::fits_i32(old(floating)@[id].loc.y + dy),
        !old(floating)@.contains_key(id) && old(canvas_rects)@.contains_key(id) ==> crate::geometry::fits_i32(
            old(canvas_rects)@[id].loc.x + dx,
        ) && crate::geometry::fits_i32(old(canvas_rects)@[id].loc.y + dy),
    ensures
        final(pinned)@ == old(pinned)@.remove(id),
        moved == (old(floating)@.contains_key(id) || old(canvas_rects)@.contains_key(id)),
        final(floating)@ == (if old(floating)@.contains_key(id) {
            old(floating)@.insert(id, moved_by(old(floating)@[id], dx as int, dy as int))
        } else {
            old(floating)@
        }),
        final(canvas_rects)@ == (if !old(floating)@.contains_key(id) && old(canvas_rects)@.contains_key(id) {
            old(canvas_rects)@.insert(id, moved_by(old(canvas_rects)@[id], dx as int, dy as int))
        } else {
            old(canvas_rects)@
        }),
{
    pinned.remove(&id);
    match floating.get(&id) {
        Some(r) => {
            let mut m = *r;
            m.loc.x = m.loc.x + dx;
            m.loc.y = m.loc.y + dy;
            floating.insert(id, m);
            return true;
        },
        None => {},
    }
    match canvas_rects.get(&id) {
        Some(r) => {
            let mut m = *r;
            m.loc.x = m.loc.x + dx;
            m.loc.y = m.loc.y + dy;
            canvas_rects.insert(id, m);
            true
        },
        None => false,
    }
}

} // verus!
