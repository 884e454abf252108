//! Session helpers: where logs and the welcome marker live, the welcome
//! tour's keybinding table, client log names and the startup command line.
use vstd::prelude::*;
use crate::keybind::Keybind;
use crate::text::{chars_of, push_chars, push_str, string_of, strings_view};

verus! {

/// What `Path::new(base).join(name)` gives, as text.
pub uninterp spec fn path_joined(base: Seq<char>, name: Seq<char>) -> Seq<char>;

/// Calls `std::path::Path::join` on UTF-8 text (joining valid UTF-8 gives
/// valid UTF-8, so the conversion back is exact). The contract claims that
/// the result is a function of the two texts and the documented Unix rule
/// of `PathBuf::push`: an absolute `name` replaces `base`, and a relative
/// one extends a `base` that does not end in a separator, one `/` between
/// them. What an empty `base`, or one ending in `/`, gives is left unsaid.
#[verifier::external_body]
pub(crate) fn path_join(base: &str, name: &str) -> (r: String)
    ensures
        r@ == path_joined(base@, name@),
        name@.len() > 0 && name@[0] == '/' ==> r@ == name@,
        !(name@.len() > 0 && name@[0] == '/') && base@.len() > 0 && base@.last() != '/' ==> r@ == base@ + "/"@
            + name@,
{
    std::path::Path::new(base).join(name).to_string_lossy().into_owned()
}

/// The three log files of a session.
pub struct LogPaths {
    pub life: String,
    pub trace: String,
    pub crash: String,
}

/// The log files inside the chosen log directory.
pub fn log_paths(directory: &str) -> (p: LogPaths)
    ensures
        p.life@ == path_joined(directory@, "novawm-life.log"@),
        p.trace@ == path_joined(directory@, "novawm-trace.log"@),
        p.crash@ == path_joined(directory@, "novawm-crash.log"@),
{
    LogPaths {
        life: path_join(directory, "novawm-life.log"),
        trace: path_join(directory, "novawm-trace.log"),
        crash: path_join(directory, "novawm-crash.log"),
    }
}

/// An environment value that is set and not empty.
pub open spec fn present(v: Option<String>) -> bool {
    v matches Some(s) && s@.len() > 0
}

/// The log directories to try, in order: `$NOVAWM_LOG_DIR`, then
/// `$HOME/.local/state/novawm` and `$HOME`, then a per-process temp dir.
pub fn log_dir_candidates(log_dir: Option<String>, home: Option<String>, temp_fallback: String) -> (c:
    Vec<String>)
    ensures
        strings_view(c@) == (if present(log_dir) {
            seq![log_dir->0@]
        } else {
            Seq::<Seq<char>>::empty()
        }) + (if present(home) {
            seq![path_joined(home->0@, ".local/state/novawm"@), home->0@]
        } else {
            Seq::<Seq<char>>::empty()
        }) + seq![temp_fallback@],
{
    let mut c: Vec<String> = Vec::new();
    let ghost mut expect: Seq<Seq<char>> = Seq::empty();
    if let Some(d) = log_dir {
        if chars_of(d.as_str()).len() > 0 {
            c.push(d);
        }
    }
    if let Some(h) = home {
        if chars_of(h.as_str()).len() > 0 {
            let state = path_join(h.as_str(), ".local/state/novawm");
            c.push(state);
            c.push(h);
        }
    }
    c.push(temp_fallback);
    proof {
        assert(strings_view(c@) =~= (if present(log_dir) {
            seq![log_dir->0@]
        } else {
            Seq::<Seq<char>>::empty()
        }) + (if present(home) {
            seq![path_joined(home->0@, ".local/state/novawm"@), home->0@]
        } else {
            Seq::<Seq<char>>::empty()
        }) + seq![temp_fallback@]);
    }
    c
}

/// State dir for the welcome marker and the tour script:
/// `$XDG_STATE_HOME/novawm`, else `$HOME/.local/state/novawm`, else
/// `<temp>/novawm`.
pub fn welcome_state_dir(xdg_state_home: Option<String>, home: Option<String>, temp: &str) -> (d:
    String)
    ensures
        d@ == (if present(xdg_state_home) {
            path_joined(xdg_state_home->0@, "novawm"@)
        } else if present(home) {
            path_joined(home->0@, ".local/state/novawm"@)
        } else {
            path_joined(temp@, "novawm"@)
        }),
{
    if let Some(x) = &xdg_state_home {
        if chars_of(x.as_str()).len() > 0 {
            return path_join(x.as_str(), "novawm");
        }
    }
    if let Some(h) = &home {
        if chars_of(h.as_str()).len() > 0 {
            return path_join(h.as_str(), ".local/state/novawm");
        }
    }
    path_join(temp, "novawm")
}

/// The marker file whose presence means the welcome tour was shown.
pub fn welcome_marker(state_dir: &str) -> (m: String)
    ensures
        m@ == path_joined(state_dir@, "welcomed"@),
{
    path_join(state_dir, "welcomed")
}

/// Whether the welcome tour is due: enabled in the config and not shown
/// before (no marker file).
pub fn welcome_due(enabled: bool, marker_exists: bool) -> (b: bool)
    ensures
        b == (enabled && !marker_exists),
{
    enabled && !marker_exists
}

/// `s` padded with spaces on the right to at least `width` characters
/// (what `format!("{s:<width$}")` writes).
pub open spec fn pad_right(s: Seq<char>, width: nat) -> Seq<char> {
    if s.len() >= width {
        s
    } else {
        s + Seq::new((width - s.len()) as nat, |i: int| ' ')
    }
}

/// Words joined with `sep`.
pub open spec fn join_with(ws: Seq<Seq<char>>, sep: Seq<char>) -> Seq<char>
    decreases ws.len(),
{
    if ws.len() == 0 {
        Seq::<char>::empty()
    } else if ws.len() == 1 {
        ws[0]
    } else {
        join_with(ws.drop_last(), sep) + sep + ws.last()
    }
}

/// How a binding is written in the tour: `mod+shift+h`.
pub open spec fn combo_text(mods: Seq<Seq<char>>, key: Seq<char>) -> Seq<char> {
    if mods.len() == 0 {
        key
    } else {
        join_with(mods, "+"@) + "+"@ + key
    }
}

/// The action with its arguments: `focus left`.
pub open spec fn action_text(action: Seq<char>, args: Seq<Seq<char>>) -> Seq<char> {
    if args.len() == 0 {
        action
    } else {
        action + " "@ + join_with(args, " "@)
    }
}

/// The tour's line for one keyboard binding.
pub open spec fn welcome_row(kb: Keybind) -> Seq<char> {
    "  "@ + pad_right(combo_text(strings_view(kb.modifiers@), kb.key@), 22) + " "@ + action_text(
        kb.action@,
        strings_view(kb.args@),
    ) + "\n"@
}

/// The rows of the first `n` bindings, mouse bindings left out.
pub open spec fn welcome_rows_upto(binds: Seq<Keybind>, n: int) -> Seq<char>
    decreases n,
{
    if n <= 0 {
        Seq::<char>::empty()
    } else {
        let prev = welcome_rows_upto(binds, n - 1);
        if binds[n - 1].mouse_button is Some {
            prev
        } else {
            prev + welcome_row(binds[n - 1])
        }
    }
}

/// The tour's keybinding table: a row per keyboard binding among the first
/// 64, or a placeholder line when there is none.
pub open spec fn welcome_table(binds: Seq<Keybind>) -> Seq<char> {
    let n = if binds.len() < 64 { binds.len() as int } else { 64 };
    let rows = welcome_rows_upto(binds, n);
    if rows.len() == 0 {
        "  (no keybindings configured)\n"@
    } else {
        rows
    }
}

fn push_joined(out: &mut Vec<char>, ws: &[String], sep: &str)
    ensures
        final(out)@ == old(out)@ + join_with(strings_view(ws@), sep@),
{
    let ghost w = strings_view(ws@);
    let ghost start = out@;
    let mut i: usize = 0;
    while i < ws.len()
        invariant
            i <= ws@.len(),
            w == strings_view(ws@),
            out@ == start + join_with(w.take(i as int), sep@),
        decreases ws@.len() - i,
    {
        proof {
            assert(w.take(i + 1).drop_last() =~= w.take(i as int));
            assert(w.take(i + 1).last() == ws@[i as int]@);
        }
        let ghost before = out@;
        if i > 0 {
            push_str(out, sep);
        }
        push_str(out, ws[i].as_str());
        proof {
            if i == 0 {
                assert(w.take(1)[0] == ws@[0]@);
                assert(out@ =~= start + join_with(w.take(1), sep@));
            } else {
                assert(out@ =~= start + join_with(w.take(i + 1), sep@));
            }
        }
        i = i + 1;
    }
    proof {
        assert(w.take(ws@.len() as int) =~= w);
    }
}

fn push_row(out: &mut Vec<char>, kb: &Keybind)
    ensures
        final(out)@ == old(out)@ + welcome_row(*kb),
{
    let mut combo: Vec<char> = Vec::new();
    push_joined(&mut combo, kb.modifiers.as_slice(), "+");
    if kb.modifiers.len() > 0 {
        push_str(&mut combo, "+");
    }
    push_str(&mut combo, kb.key.as_str());
    proof {
        if kb.modifiers@.len() == 0 {
            assert(join_with(strings_view(kb.modifiers@), "+"@) =~= Seq::<char>::empty());
            assert(combo@ =~= kb.key@);
        }
        assert(combo@ =~= combo_text(strings_view(kb.modifiers@), kb.key@));
    }
    let ghost combo_v = combo@;
    while combo.len() < 22
        invariant
            combo@.len() <= 22 || combo@ == combo_v,
            combo_v.len() < 22 ==> combo@ == combo_v + Seq::new((combo@.len() - combo_v.len()) as nat, |i: int| ' '),
            combo_v.len() >= 22 ==> combo@ == combo_v,
            combo@.len() >= combo_v.len(),
        decreases 22 - combo@.len(),
    {
        combo.push(' ');
        proof {
            assert(combo@ =~= combo_v + Seq::new((combo@.len() - combo_v.len()) as nat, |i: int| ' '));
        }
    }
    proof {
        if combo_v.len() < 22 {
            assert(combo@ =~= pad_right(combo_v, 22));
        } else {
            assert(combo@ =~= pad_right(combo_v, 22));
        }
    }
    push_str(out, "  ");
    push_chars(out, combo.as_slice());
    push_str(out, " ");
    push_str(out, kb.action.as_str());
    if kb.args.len() > 0 {
        push_str(out, " ");
        push_joined(out, kb.args.as_slice(), " ");
    }
    push_str(out, "\n");
    proof {
        assert(final(out)@ =~= old(out)@ + welcome_row(*kb));
    }
}

/// The welcome tour's keybinding table.
pub fn welcome_rows(bindings: &[Keybind]) -> (t: String)
    ensures
        t@ == welcome_table(bindings@),
{
    let n: usize = if bindings.len() < 64 { bindings.len() } else { 64 };
    let mut out: Vec<char> = Vec::new();
    let mut i: usize = 0;
    while i < n
        invariant
            i <= n <= bindings@.len(),
            n == (if bindings@.len() < 64 { bindings@.len() } else { 64 }),
            out@ == welcome_rows_upto(bindings@, i as int),
        decreases n - i,
    {
        if bindings[i].mouse_button.is_none() {
            push_row(&mut out, &bindings[i]);
        }
        i = i + 1;
    }
    if out.len() == 0 {
        push_str(&mut out, "  (no keybindings configured)\n");
    }
    string_of(out.as_slice())
}

/// A character kept in a client log file name.
pub open spec fn name_safe(c: char) -> bool {
    ('a' <= c && c <= 'z') || ('A' <= c && c <= 'Z') || ('0' <= c && c <= '9') || c == '-' || c
        == '_' || c == '.'
}

/// The last `/`-separated segment of `s`.
pub open spec fn last_segment(s: Seq<char>) -> Seq<char>
    decreases s.len(),
{
    if s.len() == 0 {
        s
    } else if s.last() == '/' {
        Seq::<char>::empty()
    } else {
        last_segment(s.drop_last()).push(s.last())
    }
}

/// The client log name of a program: the file name of its path, each
/// character other than ASCII letters, digits, `-`, `_` and `.` replaced
/// by `_`.
pub open spec fn safe_name_spec(bin: Seq<char>) -> Seq<char> {
    last_segment(bin).map_values(|c: char| if name_safe(c) { c } else { '_' })
}

/// See [`safe_name_spec`].
pub fn safe_client_name(bin: &str) -> (n: String)
    ensures
        n@ == safe_name_spec(bin@),
{
    let cs = chars_of(bin);
    let mut start: usize = cs.len();
    proof {
        assert(cs@.take(cs@.len() as int) =~= cs@);
        assert(last_segment(cs@) + cs@.skip(cs@.len() as int) =~= last_segment(cs@));
    }
    while start > 0 && cs[start - 1] != '/'
        invariant
            start <= cs@.len(),
            cs@ == bin@,
            last_segment(cs@) == last_segment(cs@.take(start as int)) + cs@.skip(start as int),
        decreases start,
    {
        proof {
            let t = cs@.take(start as int);
            assert(t.drop_last() =~= cs@.take(start - 1));
            assert(t.last() == cs@[start - 1]);
            assert(cs@.skip(start - 1) =~= seq![cs@[start - 1]] + cs@.skip(start as int));
            assert(last_segment(t) == last_segment(cs@.take(start - 1)).push(cs@[start - 1]));
            assert(last_segment(cs@.take(start - 1)).push(cs@[start - 1]) + cs@.skip(start as int)
                =~= last_segment(cs@.take(start - 1)) + cs@.skip(start - 1));
        }
        start = start - 1;
    }
    proof {
        let t = cs@.take(start as int);
        if start > 0 {
            assert(t.last() == '/');
            assert(last_segment(t) =~= Seq::<char>::empty());
        } else {
            assert(last_segment(t) =~= Seq::<char>::empty());
        }
        assert(last_segment(cs@) =~= cs@.skip(start as int));
    }
    let mut out: Vec<char> = Vec::new();
    let mut i: usize = start;
    while i < cs.len()
        invariant
            start <= i <= cs@.len(),
            out@ == cs@.subrange(start as int, i as int).map_values(
                |c: char| if name_safe(c) { c } else { '_' },
            ),
        decreases cs@.len() - i,
    {
        let c = cs[i];
        let safe = ('a' <= c && c <= 'z') || ('A' <= c && c <= 'Z') || ('0' <= c && c <= '9') || c
            == '-' || c == '_' || c == '.';
        out.push(if safe { c } else { '_' });
        proof {
            assert(out@ =~= cs@.subrange(start as int, i + 1).map_values(
                |c: char| if name_safe(c) { c } else { '_' },
            ));
        }
        i = i + 1;
    }
    proof {
        assert(cs@.subrange(start as int, cs@.len() as int) =~= cs@.skip(start as int));
    }
    string_of(out.as_slice())
}

} // verus!

verus! {

/// The tour script up to the keybinding table: a banner about the strip,
/// workspaces, the overview and the config.
pub open spec fn welcome_head() -> Seq<char> {
    "#!/bin/sh\nclear 2>/dev/null || true\ncat <<\"NOVAWELCOME\"\n  +--------------------------------------------------------------+\n  |  Welcome to NovaWM                                           |\n  |  A scrollable-tiling Wayland compositor                      |\n  +--------------------------------------------------------------+\n  |  Windows live on a horizontal strip you scroll through.      |\n  |  Each monitor keeps its own workspaces (1-9).                |\n  |  mod+o opens the overview; mod+Return opens a terminal.      |\n  |  Your config is config.kdl next to the NovaWM checkout;      |\n  |  most settings reload live when you save.                    |\n  +--------------------------------------------------------------+\n\n  Your keybindings (live, from your config):\n\n"@
}

/// The tour script after the keybinding table: tips, then a prompt that
/// keeps the terminal open until Enter.
pub open spec fn welcome_tail() -> Seq<char> {
    "\n  Tips:\n    scroll the strip ......... mod+h / mod+l\n    move a window ............ mod+shift+h / mod+shift+l\n    columns .................. mod+comma eats a window into a column,\n                               mod+period pops it back out\n    scratchpad ............... mod+grave stashes / recalls a window\n    help ..................... this window reopens with mod+F1\n\nNOVAWELCOME\nprintf '\\nPress Enter to close this window.\\n'\nread novawm_dummy\n"@
}

/// The welcome tour, a shell script that prints the banner, the live
/// keybinding table and some tips.
pub fn welcome_script(bindings: &[Keybind]) -> (script: String)
    ensures
        script@ == welcome_head() + welcome_table(bindings@) + welcome_tail(),
{
    let rows = welcome_rows(bindings);
    let mut out: Vec<char> = Vec::new();
    push_str(&mut out, "#!/bin/sh\nclear 2>/dev/null || true\ncat <<\"NOVAWELCOME\"\n  +--------------------------------------------------------------+\n  |  Welcome to NovaWM                                           |\n  |  A scrollable-tiling Wayland compositor                      |\n  +--------------------------------------------------------------+\n  |  Windows live on a horizontal strip you scroll through.      |\n  |  Each monitor keeps its own workspaces (1-9).                |\n  |  mod+o opens the overview; mod+Return opens a terminal.      |\n  |  Your config is config.kdl next to the NovaWM checkout;      |\n  |  most settings reload live when you save.                    |\n  +--------------------------------------------------------------+\n\n  Your keybindings (live, from your config):\n\n");
    push_str(&mut out, rows.as_str());
    push_str(&mut out, "\n  Tips:\n    scroll the strip ......... mod+h / mod+l\n    move a window ............ mod+shift+h / mod+shift+l\n    columns .................. mod+comma eats a window into a column,\n                               mod+period pops it back out\n    scratchpad ............... mod+grave stashes / recalls a window\n    help ..................... this window reopens with mod+F1\n\nNOVAWELCOME\nprintf '\\nPress Enter to close this window.\\n'\nread novawm_dummy\n");
    string_of(out.as_slice())
}

} // verus!
