//! The control socket's listings: `list-windows`, `monitors` and `layers`,
//! one tab-separated line per entry under a `#` header line.
use vstd::prelude::*;
use crate::geometry::Rect;
use crate::text::{decimal_spec, push_decimal, push_str, string_of};

verus! {

/// The decimal numeral of `v`, with a leading `-` when negative.
pub open spec fn int_text(v: int) -> Seq<char> {
    if v < 0 {
        "-"@ + decimal_spec((-v) as nat)
    } else {
        decimal_spec(v as nat)
    }
}

/// `true` or `false`.
pub open spec fn bool_text(b: bool) -> Seq<char> {
    if b {
        "true"@
    } else {
        "false"@
    }
}

/// The text of an optional string, empty when there is none.
pub open spec fn opt_text(s: Option<String>) -> Seq<char> {
    match s {
        Some(x) => x@,
        None => Seq::empty(),
    }
}

/// Append `v` in decimal.
pub fn push_int(out: &mut Vec<char>, v: i32)
    ensures
        final(out)@ == old(out)@ + int_text(v as int),
{
    if v < 0 {
        push_str(out, "-");
        let m: i64 = -(v as i64);
        push_decimal(out, m as u64);
        proof {
            reveal_strlit("-");
            assert(final(out)@ =~= old(out)@ + int_text(v as int));
        }
    } else {
        push_decimal(out, v as u64);
    }
}

fn push_bool(out: &mut Vec<char>, b: bool)
    ensures
        final(out)@ == old(out)@ + bool_text(b),
{
    if b {
        push_str(out, "true");
    } else {
        push_str(out, "false");
    }
}

fn push_opt(out: &mut Vec<char>, s: &Option<String>)
    ensures
        final(out)@ == old(out)@ + opt_text(*s),
{
    match s {
        Some(x) => push_str(out, x.as_str()),
        None => {
            assert(old(out)@ + Seq::<char>::empty() =~= old(out)@);
        },
    }
}

/// A header line and then one line per entry, each on its own line.
pub open spec fn listing(header: Seq<char>, lines: Seq<Seq<char>>) -> Seq<char>
    decreases lines.len(),
{
    if lines.len() == 0 {
        header
    } else {
        listing(header, lines.drop_last()) + "\n"@ + lines.last()
    }
}

/// One mapped window, as `list-windows` reports it.
pub struct WindowRow {
    /// Position among the mapped windows (what `close <index>` takes).
    pub index: usize,
    pub app_id: Option<String>,
    pub title: Option<String>,
    /// The output the window lives on, if known.
    pub output: Option<String>,
    /// The workspace it lives on, if known.
    pub workspace: Option<usize>,
    pub floating: bool,
    pub focused: bool,
    /// Location on the output layout.
    pub x: i32,
    pub y: i32,
    /// Size of the window's geometry.
    pub w: i32,
    pub h: i32,
}

/// `index, app id, title, output (<none>), workspace (0)`, tab-separated.
pub open spec fn window_fields(r: WindowRow) -> Seq<char> {
    let output = match r.output {
        Some(o) => o@,
        None => "<none>"@,
    };
    let ws = match r.workspace {
        Some(w) => w as nat,
        None => 0nat,
    };
    decimal_spec(r.index as nat) + "\t"@ + opt_text(r.app_id) + "\t"@ + opt_text(r.title) + "\t"@
        + output + "\t"@ + decimal_spec(ws)
}

/// `floating` and `focused`, tab-separated and tab-enclosed.
pub open spec fn window_flags(r: WindowRow) -> Seq<char> {
    "\t"@ + bool_text(r.floating) + "\t"@ + bool_text(r.focused) + "\t"@
}

/// `index x,y,wxh`.
pub open spec fn window_geometry(r: WindowRow) -> Seq<char> {
    decimal_spec(r.index as nat) + " "@ + int_text(r.x as int) + ","@ + int_text(r.y as int) + ","@
        + int_text(r.w as int) + "x"@ + int_text(r.h as int)
}

/// One `list-windows` line.
pub open spec fn window_line(r: WindowRow) -> Seq<char> {
    window_fields(r) + window_flags(r) + window_geometry(r)
}

pub open spec fn window_lines(rows: Seq<WindowRow>) -> Seq<Seq<char>> {
    rows.map_values(|r: WindowRow| window_line(r))
}

pub open spec fn windows_header() -> Seq<char> {
    "# index\tapp_id\ttitle\toutput\tworkspace\tfloating\tfocused\tgeometry"@
}

fn push_window_fields(out: &mut Vec<char>, r: &WindowRow)
    ensures
        final(out)@ == old(out)@ + window_fields(*r),
{
    push_decimal(out, r.index as u64);
    push_str(out, "\t");
    push_opt(out, &r.app_id);
    push_str(out, "\t");
    push_opt(out, &r.title);
    push_str(out, "\t");
    match &r.output {
        Some(o) => push_str(out, o.as_str()),
        None => push_str(out, "<none>"),
    }
    push_str(out, "\t");
    let ws: usize = match r.workspace {
        Some(w) => w,
        None => 0,
    };
    push_decimal(out, ws as u64);
    proof {
        assert(final(out)@ =~= old(out)@ + window_fields(*r));
    }
}

fn push_window_flags(out: &mut Vec<char>, r: &WindowRow)
    ensures
        final(out)@ == old(out)@ + window_flags(*r),
{
    push_str(out, "\t");
    push_bool(out, r.floating);
    push_str(out, "\t");
    push_bool(out, r.focused);
    push_str(out, "\t");
    proof {
        assert(final(out)@ =~= old(out)@ + window_flags(*r));
    }
}

fn push_window_geometry(out: &mut Vec<char>, r: &WindowRow)
    ensures
        final(out)@ == old(out)@ + window_geometry(*r),
{
    push_decimal(out, r.index as u64);
    push_str(out, " ");
    push_int(out, r.x);
    push_str(out, ",");
    push_int(out, r.y);
    push_str(out, ",");
    push_int(out, r.w);
    push_str(out, "x");
    push_int(out, r.h);
    proof {
        assert(final(out)@ =~= old(out)@ + window_geometry(*r));
    }
}

fn push_window_line(out: &mut Vec<char>, r: &WindowRow)
    ensures
        final(out)@ == old(out)@ + window_line(*r),
{
    push_window_fields(out, r);
    push_window_flags(out, r);
    push_window_geometry(out, r);
    proof {
        assert(final(out)@ =~= old(out)@ + window_line(*r));
    }
}

/// The `list-windows` reply.
pub fn list_windows_reply(rows: &[WindowRow]) -> (r: String)
    ensures
        r@ == listing(windows_header(), window_lines(rows@)) + "\n"@,
{
    let mut out: Vec<char> = Vec::new();
    push_str(
        &mut out,
        "# index\tapp_id\ttitle\toutput\tworkspace\tfloating\tfocused\tgeometry",
    );
    let ghost lines = window_lines(rows@);
    let mut i: usize = 0;
    while i < rows.len()
        invariant
            i <= rows@.len(),
            lines == window_lines(rows@),
            out@ == listing(windows_header(), lines.take(i as int)),
        decreases rows@.len() - i,
    {
        proof {
            assert(lines.take(i + 1).drop_last() =~= lines.take(i as int));
            assert(lines.take(i + 1).last() == window_line(rows@[i as int]));
        }
        push_str(&mut out, "\n");
        push_window_line(&mut out, &rows[i]);
        i = i + 1;
    }
    proof {
        assert(lines.take(rows@.len() as int) =~= lines);
    }
    push_str(&mut out, "\n");
    string_of(out.as_slice())
}

} // verus!

verus! {

/// One output, as `monitors` reports it.
pub struct MonitorRow {
    pub name: String,
    /// Its place in the output layout, when it has one.
    pub geometry: Option<Rect>,
}

/// `name, x, y, width, height` tab-separated, or `name` and `?`.
pub open spec fn monitor_line(m: MonitorRow) -> Seq<char> {
    match m.geometry {
        Some(g) => m.name@ + "\t"@ + int_text(g.loc.x as int) + "\t"@ + int_text(g.loc.y as int) + "\t"@
            + int_text(g.size.w as int) + "\t"@ + int_text(g.size.h as int),
        None => m.name@ + "\t?"@,
    }
}

pub open spec fn monitor_lines(rows: Seq<MonitorRow>) -> Seq<Seq<char>> {
    rows.map_values(|m: MonitorRow| monitor_line(m))
}

pub open spec fn monitors_header() -> Seq<char> {
    "# name\tx\ty\twidth\theight"@
}

fn push_monitor_line(out: &mut Vec<char>, m: &MonitorRow)
    ensures
        final(out)@ == old(out)@ + monitor_line(*m),
{
    push_str(out, m.name.as_str());
    match m.geometry {
        Some(g) => {
            push_str(out, "\t");
            push_int(out, g.loc.x);
            push_str(out, "\t");
            push_int(out, g.loc.y);
            push_str(out, "\t");
            push_int(out, g.size.w);
            push_str(out, "\t");
            push_int(out, g.size.h);
        },
        None => {
            push_str(out, "\t?");
        },
    }
    proof {
        assert(final(out)@ =~= old(out)@ + monitor_line(*m));
    }
}

/// The `monitors` reply.
pub fn monitors_reply(rows: &[MonitorRow]) -> (r: String)
    ensures
        r@ == listing(monitors_header(), monitor_lines(rows@)) + "\n"@,
{
    let mut out: Vec<char> = Vec::new();
    push_str(&mut out, "# name\tx\ty\twidth\theight");
    let ghost lines = monitor_lines(rows@);
    let mut i: usize = 0;
    while i < rows.len()
        invariant
            i <= rows@.len(),
            lines == monitor_lines(rows@),
            out@ == listing(monitors_header(), lines.take(i as int)),
        decreases rows@.len() - i,
    {
        proof {
            assert(lines.take(i + 1).drop_last() =~= lines.take(i as int));
            assert(lines.take(i + 1).last() == monitor_line(rows@[i as int]));
        }
        push_str(&mut out, "\n");
        push_monitor_line(&mut out, &rows[i]);
        i = i + 1;
    }
    proof {
        assert(lines.take(rows@.len() as int) =~= lines);
    }
    push_str(&mut out, "\n");
    string_of(out.as_slice())
}

/// The layer-shell layer a surface sits in.
#[derive(Clone, Copy, Debug, PartialEq, Eq, Structural)]
pub enum LayerKind {
    Background,
    Bottom,
    Top,
    Overlay,
}

pub open spec fn layer_name(l: LayerKind) -> Seq<char> {
    match l {
        LayerKind::Background => "background"@,
        LayerKind::Bottom => "bottom"@,
        LayerKind::Top => "top"@,
        LayerKind::Overlay => "overlay"@,
    }
}

/// One layer-shell surface, as `layers` reports it.
pub struct LayerRow {
    pub output: String,
    pub namespace: String,
    pub layer: LayerKind,
    /// Whether it can take keyboard focus.
    pub keyboard_focus: bool,
    /// Its geometry on the output, when known.
    pub geometry: Option<Rect>,
}

/// `x,y wxh`, or `?` without a geometry.
pub open spec fn layer_geometry(g: Option<Rect>) -> Seq<char> {
    match g {
        Some(g) => int_text(g.loc.x as int) + ","@ + int_text(g.loc.y as int) + " "@ + int_text(g.size.w as int)
            + "x"@ + int_text(g.size.h as int),
        None => "?"@,
    }
}

/// `output, namespace, layer, keyboard_focus` and the geometry,
/// tab-separated.
pub open spec fn layer_line(l: LayerRow) -> Seq<char> {
    l.output@ + "\t"@ + l.namespace@ + "\t"@ + layer_name(l.layer) + "\t"@ + bool_text(l.keyboard_focus) + "\t"@
        + layer_geometry(l.geometry)
}

pub open spec fn layer_lines(rows: Seq<LayerRow>) -> Seq<Seq<char>> {
    rows.map_values(|l: LayerRow| layer_line(l))
}

pub open spec fn layers_header() -> Seq<char> {
    "# output\tnamespace\tlayer\tkeyboard_focus\tgeometry"@
}

fn push_layer_line(out: &mut Vec<char>, l: &LayerRow)
    ensures
        final(out)@ == old(out)@ + layer_line(*l),
{
    push_str(out, l.output.as_str());
    push_str(out, "\t");
    push_str(out, l.namespace.as_str());
    push_str(out, "\t");
    match l.layer {
        LayerKind::Background => push_str(out, "background"),
        LayerKind::Bottom => push_str(out, "bottom"),
        LayerKind::Top => push_str(out, "top"),
        LayerKind::Overlay => push_str(out, "overlay"),
    }
    push_str(out, "\t");
    push_bool(out, l.keyboard_focus);
    push_str(out, "\t");
    push_layer_geometry(out, l.geometry);
    proof {
        assert(final(out)@ =~= old(out)@ + layer_line(*l));
    }
}

fn push_layer_geometry(out: &mut Vec<char>, g: Option<Rect>)
    ensures
        final(out)@ == old(out)@ + layer_geometry(g),
{
    match g {
        Some(g) => {
            push_int(out, g.loc.x);
            push_str(out, ",");
            push_int(out, g.loc.y);
            push_str(out, " ");
            push_int(out, g.size.w);
            push_str(out, "x");
            push_int(out, g.size.h);
        },
        None => {
            push_str(out, "?");
        },
    }
    proof {
        assert(final(out)@ =~= old(out)@ + layer_geometry(g));
    }
}

/// The `layers` reply.
pub fn layers_reply(rows: &[LayerRow]) -> (r: String)
    ensures
        r@ == listing(layers_header(), layer_lines(rows@)) + "\n"@,
{
    let mut out: Vec<char> = Vec::new();
    push_str(&mut out, "# output\tnamespace\tlayer\tkeyboard_focus\tgeometry");
    let ghost lines = layer_lines(rows@);
    let mut i: usize = 0;
    while i < rows.len()
        invariant
            i <= rows@.len(),
            lines == layer_lines(rows@),
            out@ == listing(layers_header(), lines.take(i as int)),
        decreases rows@.len() - i,
    {
        proof {
            assert(lines.take(i + 1).drop_last() =~= lines.take(i as int));
            assert(lines.take(i + 1).last() == layer_line(rows@[i as int]));
        }
        push_str(&mut out, "\n");
        push_layer_line(&mut out, &rows[i]);
        i = i + 1;
    }
    proof {
        assert(lines.take(rows@.len() as int) =~= lines);
    }
    push_str(&mut out, "\n");
    string_of(out.as_slice())
}

} // verus!
