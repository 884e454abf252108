//! Keybinding specs from the `keybinds` config block and the built-in
//! default bindings.
use vstd::prelude::*;
use crate::text::{
    chars_of, chars_skip, chars_starts_with, deep, is_sep, keep_nonempty, nonempty_pieces,
    parse_unsigned, parse_unsigned_spec, pieces_by, split_on, split_whitespace, string_of,
    strings_of, strings_view, words_spec, lemma_pieces_nonempty,
};

verus! {

/// One parsed keybinding.
#[derive(Clone, Debug)]
pub struct Keybind {
    /// Modifier tokens, e.g. `["mod"]` or `["mod", "shift"]`.
    pub modifiers: Vec<String>,
    /// The keysym name as written, e.g. "Return", "c", "grave".
    pub key: String,
    /// The raw keysym of `key`, filled in by [`Keybind::resolve_key_sym`]
    /// from the keymap's name table; `None` while unresolved and for a name
    /// the table lacks (the binding is inert).
    pub key_sym: Option<u32>,
    /// For mouse bindings: the input-event button code, e.g. 272 = left click.
    pub mouse_button: Option<u32>,
    /// The action name, e.g. "focus", "spawn_terminal".
    pub action: String,
    /// Extra action arguments, e.g. `["left"]` for `focus left`.
    pub args: Vec<String>,
}

/// The abstract content of a [`Keybind`].
pub ghost struct KeybindView {
    pub modifiers: Seq<Seq<char>>,
    pub key: Seq<char>,
    pub key_sym: Option<u32>,
    pub mouse_button: Option<u32>,
    pub action: Seq<char>,
    pub args: Seq<Seq<char>>,
}

impl View for Keybind {
    type V = KeybindView;

    open spec fn view(&self) -> KeybindView {
        KeybindView {
            modifiers: strings_view(self.modifiers@),
            key: self.key@,
            key_sym: self.key_sym,
            mouse_button: self.mouse_button,
            action: self.action@,
            args: strings_view(self.args@),
        }
    }
}

/// The non-empty `+`-separated parts of a binding spec.
pub open spec fn spec_parts(spec: Seq<char>) -> Seq<Seq<char>> {
    nonempty_pieces(pieces_by(spec, is_sep('+')))
}

/// Whether `s` begins with `prefix`.
pub open spec fn has_prefix(s: Seq<char>, prefix: Seq<char>) -> bool {
    prefix.len() <= s.len() && s.take(prefix.len() as int) == prefix
}

/// The last part of a spec with a `mouse:` prefix removed: the key name.
pub open spec fn key_text(combo: Seq<char>) -> Seq<char> {
    if has_prefix(combo, "mouse:"@) {
        combo.skip("mouse:"@.len() as int)
    } else {
        combo
    }
}

/// The button of a `mouse:<code>` part (`None` for a key or a bad number).
pub open spec fn mouse_button_of(combo: Seq<char>) -> Option<u32> {
    if has_prefix(combo, "mouse:"@) {
        match parse_unsigned_spec(combo.skip("mouse:"@.len() as int), u32::MAX as nat) {
            Some(n) => Some(n as u32),
            None => None,
        }
    } else {
        None
    }
}

/// The binding that `spec` (e.g. `mod+shift+h`, `mod+mouse:272`) and
/// `action` (e.g. `focus left`) describe; `None` when the spec has no
/// non-empty part.
pub open spec fn parse_spec(spec: Seq<char>, action: Seq<char>) -> Option<KeybindView> {
    let parts = spec_parts(spec);
    if parts.len() == 0 {
        None
    } else {
        let combo = parts.last();
        let words = words_spec(action);
        Some(
            KeybindView {
                modifiers: parts.drop_last(),
                key: key_text(combo),
                key_sym: None,
                mouse_button: mouse_button_of(combo),
                action: if words.len() > 0 {
                    words[0]
                } else {
                    Seq::<char>::empty()
                },
                args: if words.len() > 0 {
                    words.drop_first()
                } else {
                    Seq::<Seq<char>>::empty()
                },
            },
        )
    }
}

impl Keybind {
    /// Parse `spec` like `"mod+shift+h"` or `"mod+mouse:272"` and an action
    /// string like `"focus left"` into a binding. The keysym is left
    /// unresolved: the caller looks `key` up in the keymap's name table and
    /// records the result with [`Keybind::resolve_key_sym`].
    pub fn parse(spec: &str, action: &str) -> (r: Option<Keybind>)
        ensures
            match r {
                Some(kb) => parse_spec(spec@, action@) == Some(kb@),
                None => parse_spec(spec@, action@) is None,
            },
    {
        let spec_chars = chars_of(spec);
        let pieces = split_on(spec_chars.as_slice(), '+');
        let parts = keep_nonempty(pieces);
        let n = parts.len();
        if n == 0 {
            return None;
        }
        let modifiers = strings_of(parts.as_slice(), 0, n - 1);
        proof {
            assert(deep(parts@).subrange(0, n - 1) =~= spec_parts(spec@).drop_last());
        }
        let combo = &parts[n - 1];
        let prefix = chars_of("mouse:");
        let is_mouse = chars_starts_with(combo.as_slice(), prefix.as_slice());
        let rest = if is_mouse {
            chars_skip(combo.as_slice(), prefix.len())
        } else {
            combo.clone()
        };
        let mouse_button = if is_mouse {
            match parse_unsigned(rest.as_slice(), 0xffff_ffff) {
                Some(b) => Some(b as u32),
                None => None,
            }
        } else {
            None
        };
        let key = string_of(rest.as_slice());
        let action_chars = chars_of(action);
        let words = split_whitespace(action_chars.as_slice());
        let (action_name, args) = if words.len() > 0 {
            let first = string_of(words[0].as_slice());
            let rest_words = strings_of(words.as_slice(), 1, words.len());
            proof {
                assert(deep(words@).subrange(1, words@.len() as int) =~= words_spec(
                    action@,
                ).drop_first());
            }
            (first, rest_words)
        } else {
            (String::new(), Vec::new())
        };
        proof {
            assert(strings_view(args@) =~= (if words_spec(action@).len() > 0 {
                words_spec(action@).drop_first()
            } else {
                Seq::<Seq<char>>::empty()
            }));
        }
        Some(Keybind { modifiers, key, key_sym: None, mouse_button, action: action_name, args })
    }

    /// Record the keysym that the keymap's name table gives for `key`
    /// (0 when the name is unknown, leaving the binding inert).
    pub fn resolve_key_sym(&mut self, raw: u32)
        ensures
            final(self)@ == (KeybindView {
                key_sym: if raw != 0 {
                    Some(raw)
                } else {
                    None
                },
                ..old(self)@
            }),
    {
        self.key_sym = if raw != 0 {
            Some(raw)
        } else {
            None
        };
    }

    /// True if this is a mouse (mod+drag) binding.
    pub fn is_mouse(&self) -> (b: bool)
        ensures
            b == self.mouse_button is Some,
    {
        self.mouse_button.is_some()
    }
}

} // verus!
verus! {

/// Number of built-in bindings.
pub const DEFAULT_BINDING_COUNT: usize = 46;

/// Entry `i` of the built-in binding table: (spec, action).
pub open spec fn default_entry(i: int) -> (Seq<char>, Seq<char>) {
    if i == 0 {
        ("mod+Return"@, "spawn_terminal"@)
    } else if i == 1 {
        ("mod+c"@, "close_focused"@)
    } else if i == 2 {
        ("mod+h"@, "focus left"@)
    } else if i == 3 {
        ("mod+l"@, "focus right"@)
    } else if i == 4 {
        ("mod+j"@, "focus down"@)
    } else if i == 5 {
        ("mod+k"@, "focus up"@)
    } else if i == 6 {
        ("mod+shift+h"@, "move_list previous"@)
    } else if i == 7 {
        ("mod+shift+l"@, "move_list next"@)
    } else if i == 8 {
        ("mod+shift+j"@, "move_row next"@)
    } else if i == 9 {
        ("mod+shift+k"@, "move_row previous"@)
    } else if i == 10 {
        ("mod+comma"@, "consume_into_column"@)
    } else if i == 11 {
        ("mod+period"@, "expel_from_column"@)
    } else if i == 12 {
        ("mod+o"@, "toggle_overview"@)
    } else if i == 13 {
        ("mod+shift+r"@, "toggle_record"@)
    } else if i == 14 {
        ("mod+1"@, "workspace 1"@)
    } else if i == 15 {
        ("mod+2"@, "workspace 2"@)
    } else if i == 16 {
        ("mod+3"@, "workspace 3"@)
    } else if i == 17 {
        ("mod+4"@, "workspace 4"@)
    } else if i == 18 {
        ("mod+5"@, "workspace 5"@)
    } else if i == 19 {
        ("mod+6"@, "workspace 6"@)
    } else if i == 20 {
        ("mod+7"@, "workspace 7"@)
    } else if i == 21 {
        ("mod+8"@, "workspace 8"@)
    } else if i == 22 {
        ("mod+9"@, "workspace 9"@)
    } else if i == 23 {
        ("mod+x"@, "canvas_center_window"@)
    } else if i == 24 {
        ("mod+w"@, "canvas_zoom_to_fit"@)
    } else if i == 25 {
        ("mod+shift+Left"@, "canvas_nudge left"@)
    } else if i == 26 {
        ("mod+shift+Right"@, "canvas_nudge right"@)
    } else if i == 27 {
        ("mod+shift+Up"@, "canvas_nudge up"@)
    } else if i == 28 {
        ("mod+shift+Down"@, "canvas_nudge down"@)
    } else if i == 29 {
        ("mod+ctrl+Left"@, "canvas_pan left"@)
    } else if i == 30 {
        ("mod+ctrl+Right"@, "canvas_pan right"@)
    } else if i == 31 {
        ("mod+ctrl+Up"@, "canvas_pan up"@)
    } else if i == 32 {
        ("mod+ctrl+Down"@, "canvas_pan down"@)
    } else if i == 33 {
        ("mod+t"@, "toggle_pin"@)
    } else if i == 34 {
        ("mod+a"@, "canvas_home"@)
    } else if i == 35 {
        ("mod+Tab"@, "cycle_focus next"@)
    } else if i == 36 {
        ("mod+shift+Tab"@, "cycle_focus previous"@)
    } else if i == 37 {
        ("mod+grave"@, "toggle_scratchpad"@)
    } else if i == 38 {
        ("mod+F1"@, "welcome"@)
    } else if i == 39 {
        ("mod+f"@, "fullscreen"@)
    } else if i == 40 {
        ("mod+v"@, "toggle_float"@)
    } else if i == 41 {
        ("mod+equal"@, "canvas_zoom_in"@)
    } else if i == 42 {
        ("mod+minus"@, "canvas_zoom_out"@)
    } else if i == 43 {
        ("mod+0"@, "canvas_zoom_reset"@)
    } else if i == 44 {
        ("mod+mouse:272"@, "move_window"@)
    } else {
        ("mod+mouse:273"@, "resize_window"@)
    }
}

/// The literals of entry `i` of the built-in table.
fn default_entry_text(i: usize) -> (r: (&'static str, &'static str))
    requires
        i < DEFAULT_BINDING_COUNT,
    ensures
        r.0@ == default_entry(i as int).0,
        r.1@ == default_entry(i as int).1,
{
    if i == 0 {
        ("mod+Return", "spawn_terminal")
    } else if i == 1 {
        ("mod+c", "close_focused")
    } else if i == 2 {
        ("mod+h", "focus left")
    } else if i == 3 {
        ("mod+l", "focus right")
    } else if i == 4 {
        ("mod+j", "focus down")
    } else if i == 5 {
        ("mod+k", "focus up")
    } else if i == 6 {
        ("mod+shift+h", "move_list previous")
    } else if i == 7 {
        ("mod+shift+l", "move_list next")
    } else if i == 8 {
        ("mod+shift+j", "move_row next")
    } else if i == 9 {
        ("mod+shift+k", "move_row previous")
    } else if i == 10 {
        ("mod+comma", "consume_into_column")
    } else if i == 11 {
        ("mod+period", "expel_from_column")
    } else if i == 12 {
        ("mod+o", "toggle_overview")
    } else if i == 13 {
        ("mod+shift+r", "toggle_record")
    } else if i == 14 {
        ("mod+1", "workspace 1")
    } else if i == 15 {
        ("mod+2", "workspace 2")
    } else if i == 16 {
        ("mod+3", "workspace 3")
    } else if i == 17 {
        ("mod+4", "workspace 4")
    } else if i == 18 {
        ("mod+5", "workspace 5")
    } else if i == 19 {
        ("mod+6", "workspace 6")
    } else if i == 20 {
        ("mod+7", "workspace 7")
    } else if i == 21 {
        ("mod+8", "workspace 8")
    } else if i == 22 {
        ("mod+9", "workspace 9")
    } else if i == 23 {
        ("mod+x", "canvas_center_window")
    } else if i == 24 {
        ("mod+w", "canvas_zoom_to_fit")
    } else if i == 25 {
        ("mod+shift+Left", "canvas_nudge left")
    } else if i == 26 {
        ("mod+shift+Right", "canvas_nudge right")
    } else if i == 27 {
        ("mod+shift+Up", "canvas_nudge up")
    } else if i == 28 {
        ("mod+shift+Down", "canvas_nudge down")
    } else if i == 29 {
        ("mod+ctrl+Left", "canvas_pan left")
    } else if i == 30 {
        ("mod+ctrl+Right", "canvas_pan right")
    } else if i == 31 {
        ("mod+ctrl+Up", "canvas_pan up")
    } else if i == 32 {
        ("mod+ctrl+Down", "canvas_pan down")
    } else if i == 33 {
        ("mod+t", "toggle_pin")
    } else if i == 34 {
        ("mod+a", "canvas_home")
    } else if i == 35 {
        ("mod+Tab", "cycle_focus next")
    } else if i == 36 {
        ("mod+shift+Tab", "cycle_focus previous")
    } else if i == 37 {
        ("mod+grave", "toggle_scratchpad")
    } else if i == 38 {
        ("mod+F1", "welcome")
    } else if i == 39 {
        ("mod+f", "fullscreen")
    } else if i == 40 {
        ("mod+v", "toggle_float")
    } else if i == 41 {
        ("mod+equal", "canvas_zoom_in")
    } else if i == 42 {
        ("mod+minus", "canvas_zoom_out")
    } else if i == 43 {
        ("mod+0", "canvas_zoom_reset")
    } else if i == 44 {
        ("mod+mouse:272", "move_window")
    } else {
        ("mod+mouse:273", "resize_window")
    }
}

/// A spec that ends in a non-separator has a part.
pub open spec fn plain_spec(s: Seq<char>) -> bool {
    s.len() > 0 && s.last() != '+'
}

proof fn lemma_default_entries_plain(i: int)
    requires
        0 <= i < DEFAULT_BINDING_COUNT,
    ensures
        plain_spec(default_entry(i).0),
{
    reveal_strlit("mod+Return");
    reveal_strlit("mod+c");
    reveal_strlit("mod+h");
    reveal_strlit("mod+l");
    reveal_strlit("mod+j");
    reveal_strlit("mod+k");
    reveal_strlit("mod+shift+h");
    reveal_strlit("mod+shift+l");
    reveal_strlit("mod+shift+j");
    reveal_strlit("mod+shift+k");
    reveal_strlit("mod+comma");
    reveal_strlit("mod+period");
    reveal_strlit("mod+o");
    reveal_strlit("mod+shift+r");
    reveal_strlit("mod+1");
    reveal_strlit("mod+2");
    reveal_strlit("mod+3");
    reveal_strlit("mod+4");
    reveal_strlit("mod+5");
    reveal_strlit("mod+6");
    reveal_strlit("mod+7");
    reveal_strlit("mod+8");
    reveal_strlit("mod+9");
    reveal_strlit("mod+x");
    reveal_strlit("mod+w");
    reveal_strlit("mod+shift+Left");
    reveal_strlit("mod+shift+Right");
    reveal_strlit("mod+shift+Up");
    reveal_strlit("mod+shift+Down");
    reveal_strlit("mod+ctrl+Left");
    reveal_strlit("mod+ctrl+Right");
    reveal_strlit("mod+ctrl+Up");
    reveal_strlit("mod+ctrl+Down");
    reveal_strlit("mod+t");
    reveal_strlit("mod+a");
    reveal_strlit("mod+Tab");
    reveal_strlit("mod+shift+Tab");
    reveal_strlit("mod+grave");
    reveal_strlit("mod+F1");
    reveal_strlit("mod+f");
    reveal_strlit("mod+v");
    reveal_strlit("mod+equal");
    reveal_strlit("mod+minus");
    reveal_strlit("mod+0");
    reveal_strlit("mod+mouse:272");
    reveal_strlit("mod+mouse:273");
}

} // verus!

verus! {

proof fn lemma_nonempty_pieces_keep_last(ps: Seq<Seq<char>>)
    requires
        ps.len() > 0,
        ps.last().len() > 0,
    ensures
        nonempty_pieces(ps).len() > 0,
{
}

/// A plain spec has a non-empty part.
proof fn lemma_plain_spec_parses(s: Seq<char>)
    requires
        plain_spec(s),
    ensures
        spec_parts(s).len() > 0,
{
    let ps = pieces_by(s, is_sep('+'));
    lemma_pieces_nonempty(s.drop_last(), is_sep('+'));
    assert(ps.last().len() > 0);
    lemma_nonempty_pieces_keep_last(ps);
}

/// The bindings used when the config has no `keybinds` block: every entry
/// of the built-in table, parsed, in table order.
pub fn default_keybindings() -> (r: Vec<Keybind>)
    ensures
        r@.len() == DEFAULT_BINDING_COUNT,
        forall|i: int|
            0 <= i < DEFAULT_BINDING_COUNT ==> parse_spec(default_entry(i).0, default_entry(i).1)
                == Some(#[trigger] r@[i]@),
{
    let mut r: Vec<Keybind> = Vec::new();
    let mut i: usize = 0;
    while i < DEFAULT_BINDING_COUNT
        invariant
            i <= DEFAULT_BINDING_COUNT,
            r@.len() == i,
            forall|j: int|
                0 <= j < i ==> parse_spec(default_entry(j).0, default_entry(j).1) == Some(
                    #[trigger] r@[j]@,
                ),
        decreases DEFAULT_BINDING_COUNT - i,
    {
        let (spec, action) = default_entry_text(i);
        proof {
            lemma_default_entries_plain(i as int);
            lemma_plain_spec_parses(spec@);
        }
        match Keybind::parse(spec, action) {
            Some(kb) => {
                r.push(kb);
            },
            None => {
                assert(false);
            },
        }
        i = i + 1;
    }
    r
}

} // verus!
