//! The configuration: its settings, their defaults, and how a KDL document
//! (the main file or an included one) overrides them.
use vstd::prelude::*;
use crate::kdl_doc::{
    lemma_nodes_view_len, node_view, nodes_view, values_view, ConfigNode, ConfigNumber, ConfigValue,
    NodeView, ValueView,
};
use crate::keybind::{default_keybindings, Keybind, KeybindView, DEFAULT_BINDING_COUNT, default_entry, parse_spec};
use crate::rules::{RuleView, WindowRule};
use crate::text::{chars_of, str_eq, string_of, strings_view};

verus! {

/// Where a named monitor goes in the global layout.
#[derive(Clone, Debug)]
pub struct MonitorConfig {
    pub name: String,
    pub x: i32,
    pub y: i32,
}

/// The abstract content of a [`MonitorConfig`].
pub ghost struct MonitorView {
    pub name: Seq<char>,
    pub x: i32,
    pub y: i32,
}

impl View for MonitorConfig {
    type V = MonitorView;

    open spec fn view(&self) -> MonitorView {
        MonitorView { name: self.name@, x: self.x, y: self.y }
    }
}

// ---------------------------------------------------------------------
// Looking things up in a document.

/// The first node named `name`, from index `i` on.
pub open spec fn doc_get_from(ns: Seq<NodeView>, name: Seq<char>, i: int) -> Option<NodeView>
    decreases ns.len() - i,
{
    if i < 0 || i >= ns.len() {
        None
    } else if ns[i].name == name {
        Some(ns[i])
    } else {
        doc_get_from(ns, name, i + 1)
    }
}

/// The first node named `name` (what `KdlDocument::get` finds).
pub open spec fn doc_get(ns: Seq<NodeView>, name: Seq<char>) -> Option<NodeView> {
    doc_get_from(ns, name, 0)
}

/// The first child named `name` of a node, if the node and its children
/// block exist.
pub open spec fn child(n: Option<NodeView>, name: Seq<char>) -> Option<NodeView> {
    match n {
        Some(x) => match x.children {
            Some(cs) => doc_get(cs, name),
            None => None,
        },
        None => None,
    }
}

/// The first entry of a node.
pub open spec fn first_entry(n: Option<NodeView>) -> Option<ValueView> {
    match n {
        Some(x) => if x.entries.len() > 0 {
            Some(x.entries[0])
        } else {
            None
        },
        None => None,
    }
}

/// The node's first entry, if it is a string.
pub open spec fn node_text(n: Option<NodeView>) -> Option<Seq<char>> {
    match first_entry(n) {
        Some(ValueView::Text(s)) => Some(s),
        _ => None,
    }
}

/// The node's first entry, if it is an integer.
pub open spec fn node_int(n: Option<NodeView>) -> Option<int> {
    match first_entry(n) {
        Some(ValueView::Integer(i)) => Some(i),
        _ => None,
    }
}

/// The node's first entry, if it is a boolean.
pub open spec fn node_bool(n: Option<NodeView>) -> Option<bool> {
    match first_entry(n) {
        Some(ValueView::Bool(b)) => Some(b),
        _ => None,
    }
}

/// A value, if it is a number (float or integer).
pub open spec fn number_of(v: ValueView) -> Option<ConfigNumber> {
    match v {
        ValueView::Float(b) => Some(ConfigNumber::Float(b)),
        ValueView::Integer(i) => Some(ConfigNumber::Integer(i as i128)),
        _ => None,
    }
}

/// The node's first entry, if it is a number.
pub open spec fn node_number(n: Option<NodeView>) -> Option<ConfigNumber> {
    match first_entry(n) {
        Some(v) => number_of(v),
        None => None,
    }
}

/// A flag node: its first entry if it is a boolean, else on (a bare flag).
pub open spec fn node_flag(n: Option<NodeView>) -> Option<bool> {
    match n {
        Some(_) => match node_bool(n) {
            Some(b) => Some(b),
            None => Some(true),
        },
        None => None,
    }
}

/// `new` if present, else `old`.
pub open spec fn or_keep<T>(new: Option<T>, old: T) -> T {
    match new {
        Some(v) => v,
        None => old,
    }
}

fn find_node<'a>(ns: &'a [ConfigNode], name: &str) -> (r: Option<&'a ConfigNode>)
    ensures
        match r {
            Some(n) => doc_get(nodes_view(ns@), name@) == Some(node_view(*n)),
            None => doc_get(nodes_view(ns@), name@) is None,
        },
{
    proof {
        lemma_nodes_view_len(ns@);
    }
    let ghost vs = nodes_view(ns@);
    let mut i: usize = 0;
    while i < ns.len()
        invariant
            i <= ns@.len(),
            vs == nodes_view(ns@),
            vs.len() == ns@.len(),
            forall|k: int| 0 <= k < ns@.len() ==> #[trigger] vs[k] == node_view(ns@[k]),
            doc_get(vs, name@) == doc_get_from(vs, name@, i as int),
        decreases ns@.len() - i,
    {
        assert(vs[i as int] == node_view(ns@[i as int]));
        if str_eq(ns[i].name.as_str(), name) {
            return Some(&ns[i]);
        }
        i = i + 1;
    }
    None
}

/// The first child named `name` of `n`.
fn child_node<'a>(n: Option<&'a ConfigNode>, name: &str) -> (r: Option<&'a ConfigNode>)
    ensures
        match r {
            Some(c) => child(
                match n {
                    Some(x) => Some(node_view(*x)),
                    None => None,
                },
                name@,
            ) == Some(node_view(*c)),
            None => child(
                match n {
                    Some(x) => Some(node_view(*x)),
                    None => None,
                },
                name@,
            ) is None,
        },
{
    match n {
        Some(x) => match &x.children {
            Some(cs) => find_node(cs.as_slice(), name),
            None => None,
        },
        None => None,
    }
}

/// The view of an optional node reference.
pub open spec fn opt_node(n: Option<&ConfigNode>) -> Option<NodeView> {
    match n {
        Some(x) => Some(node_view(*x)),
        None => None,
    }
}

fn first_value(n: Option<&ConfigNode>) -> (r: Option<&ConfigValue>)
    ensures
        match r {
            Some(v) => first_entry(opt_node(n)) == Some(crate::kdl_doc::value_view(*v)),
            None => first_entry(opt_node(n)) is None,
        },
{
    match n {
        Some(x) => if x.entries.len() > 0 {
            proof {
                assert(values_view(x.entries@)[0] == crate::kdl_doc::value_view(x.entries@[0]));
            }
            Some(&x.entries[0])
        } else {
            None
        },
        None => None,
    }
}

fn text_value(n: Option<&ConfigNode>) -> (r: Option<String>)
    ensures
        match r {
            Some(s) => node_text(opt_node(n)) == Some(s@),
            None => node_text(opt_node(n)) is None,
        },
{
    match first_value(n) {
        Some(ConfigValue::Text(s)) => Some(s.clone()),
        _ => None,
    }
}

fn int_value(n: Option<&ConfigNode>) -> (r: Option<i128>)
    ensures
        match r {
            Some(i) => node_int(opt_node(n)) == Some(i as int),
            None => node_int(opt_node(n)) is None,
        },
{
    match first_value(n) {
        Some(ConfigValue::Integer(i)) => Some(*i),
        _ => None,
    }
}

fn bool_value(n: Option<&ConfigNode>) -> (r: Option<bool>)
    ensures
        r == node_bool(opt_node(n)),
{
    match first_value(n) {
        Some(ConfigValue::Bool(b)) => Some(*b),
        _ => None,
    }
}

fn number_value(v: &ConfigValue) -> (r: Option<ConfigNumber>)
    ensures
        r == number_of(crate::kdl_doc::value_view(*v)),
{
    match v {
        ConfigValue::Float(b) => Some(ConfigNumber::Float(*b)),
        ConfigValue::Integer(i) => Some(ConfigNumber::Integer(*i)),
        _ => None,
    }
}

fn node_number_value(n: Option<&ConfigNode>) -> (r: Option<ConfigNumber>)
    ensures
        r == node_number(opt_node(n)),
{
    match first_value(n) {
        Some(v) => number_value(v),
        None => None,
    }
}

fn flag_value(n: Option<&ConfigNode>) -> (r: Option<bool>)
    ensures
        r == node_flag(opt_node(n)),
{
    match n {
        Some(_) => match bool_value(n) {
            Some(b) => Some(b),
            None => Some(true),
        },
        None => None,
    }
}

} // verus!

verus! {

/// `s` without its leading `#` characters (`trim_start_matches('#')`).
pub open spec fn trim_hashes(s: Seq<char>) -> Seq<char>
    decreases s.len(),
{
    if s.len() > 0 && s[0] == '#' {
        trim_hashes(s.drop_first())
    } else {
        s
    }
}

/// The UTF-8 length of a character.
pub open spec fn utf8_len(c: char) -> nat {
    if (c as u32) < 0x80 {
        1
    } else if (c as u32) < 0x800 {
        2
    } else if (c as u32) < 0x10000 {
        3
    } else {
        4
    }
}

/// The UTF-8 length of a string.
pub open spec fn byte_len(s: Seq<char>) -> nat
    decreases s.len(),
{
    if s.len() == 0 {
        0
    } else {
        byte_len(s.drop_last()) + utf8_len(s.last())
    }
}

pub open spec fn is_ascii_char(c: char) -> bool {
    (c as u32) < 0x80
}

/// The value of a hexadecimal digit.
pub open spec fn hex_digit(c: char) -> Option<nat> {
    if '0' <= c && c <= '9' {
        Some((c as u32 - '0' as u32) as nat)
    } else if 'a' <= c && c <= 'f' {
        Some((c as u32 - 'a' as u32 + 10) as nat)
    } else if 'A' <= c && c <= 'F' {
        Some((c as u32 - 'A' as u32 + 10) as nat)
    } else {
        None
    }
}

/// What `u8::from_str_radix(p, 16)` gives for a two-character text: two
/// hex digits, or a `+` and one digit.
pub open spec fn hex_pair(p: Seq<char>) -> Option<u8> {
    if p.len() != 2 {
        None
    } else if p[0] == '+' {
        match hex_digit(p[1]) {
            Some(d) => Some(d as u8),
            None => None,
        }
    } else {
        match (hex_digit(p[0]), hex_digit(p[1])) {
            (Some(a), Some(b)) => Some((a * 16 + b) as u8),
            _ => None,
        }
    }
}

/// Pair `i` (characters `2i`, `2i + 1`) of `s`.
pub open spec fn pair_at(s: Seq<char>, i: int) -> Option<u8> {
    hex_pair(s.subrange(2 * i, 2 * i + 2))
}

/// The first non-ASCII character's position, if any.
pub open spec fn first_non_ascii(s: Seq<char>) -> Option<int> {
    if exists|i: int| 0 <= i < s.len() && !is_ascii_char(s[i]) {
        Some(choose|i: int| 0 <= i < s.len() && !is_ascii_char(s[i]) && forall|j: int| 0 <= j < i ==> is_ascii_char(s[j]))
    } else {
        None
    }
}

/// Whether parsing the color text would cut a multi-byte character: its
/// byte length is 6 or 8, the pairs before the first non-ASCII character
/// are valid, and the slice that reaches that character ends inside it.
pub open spec fn hex_color_panics(hex: Seq<char>) -> bool {
    let clean = trim_hashes(hex);
    match first_non_ascii(clean) {
        Some(p) => {
            &&& (byte_len(clean) == 6 || byte_len(clean) == 8)
            &&& forall|j: int| 0 <= j < p / 2 ==> #[trigger] pair_at(clean, j) is Some
            &&& (p % 2 == 1 || utf8_len(clean[p]) >= 3)
        },
        None => false,
    }
}

/// The RGBA bytes of a `#rrggbb` or `#rrggbbaa` color (alpha 255 for the
/// short form); `None` for anything else.
pub open spec fn hex_color_spec(hex: Seq<char>) -> Option<[u8; 4]> {
    let clean = trim_hashes(hex);
    if first_non_ascii(clean) is Some {
        None
    } else if clean.len() == 6 {
        match (pair_at(clean, 0), pair_at(clean, 1), pair_at(clean, 2)) {
            (Some(r), Some(g), Some(b)) => Some([r, g, b, 255u8]),
            _ => None,
        }
    } else if clean.len() == 8 {
        match (pair_at(clean, 0), pair_at(clean, 1), pair_at(clean, 2), pair_at(clean, 3)) {
            (Some(r), Some(g), Some(b), Some(a)) => Some([r, g, b, a]),
            _ => None,
        }
    } else {
        None
    }
}

fn hex_digit_of(c: char) -> (r: Option<u8>)
    ensures
        match r {
            Some(d) => hex_digit(c) == Some(d as nat),
            None => hex_digit(c) is None,
        },
{
    if '0' <= c && c <= '9' {
        Some((c as u32 - '0' as u32) as u8)
    } else if 'a' <= c && c <= 'f' {
        Some((c as u32 - 'a' as u32 + 10) as u8)
    } else if 'A' <= c && c <= 'F' {
        Some((c as u32 - 'A' as u32 + 10) as u8)
    } else {
        None
    }
}

fn pair_value(s: &[char], i: usize) -> (r: Option<u8>)
    requires
        i < 4,
        2 * i + 2 <= s@.len(),
    ensures
        r == pair_at(s@, i as int),
{
    let a = s[2 * i];
    let b = s[2 * i + 1];
    let ghost p = s@.subrange(2 * i, 2 * i + 2);
    assert(p[0] == a && p[1] == b);
    if a == '+' {
        match hex_digit_of(b) {
            Some(d) => Some(d),
            None => None,
        }
    } else {
        match (hex_digit_of(a), hex_digit_of(b)) {
            (Some(x), Some(y)) => Some(x * 16 + y),
            _ => None,
        }
    }
}

/// Parse a `#rrggbb` / `#rrggbbaa` border color into RGBA bytes.
pub fn parse_hex_color(hex: &str) -> (r: Option<[u8; 4]>)
    requires
        !hex_color_panics(hex@),
    ensures
        r == hex_color_spec(hex@),
{
    let clean = trim_hash_chars(hex);
    let mut k: usize = 0;
    while k < clean.len()
        invariant
            k <= clean@.len(),
            clean@ == trim_hashes(hex@),
            forall|j: int| 0 <= j < k ==> is_ascii_char(#[trigger] clean@[j]),
        decreases clean@.len() - k,
    {
        if !((clean[k] as u32) < 0x80) {
            proof {
                assert(!is_ascii_char(clean@[k as int]));
                assert(exists|i: int| 0 <= i < clean@.len() && !is_ascii_char(clean@[i]));
                assert(clean@ == trim_hashes(hex@));
            }
            return None;
        }
        k = k + 1;
    }
    proof {
        assert(!(exists|i: int| 0 <= i < clean@.len() && !is_ascii_char(clean@[i])));
    }
    let c = clean.as_slice();
    if c.len() == 6 {
        match (pair_value(c, 0), pair_value(c, 1), pair_value(c, 2)) {
            (Some(r), Some(g), Some(b)) => Some([r, g, b, 255u8]),
            _ => None,
        }
    } else if c.len() == 8 {
        match (pair_value(c, 0), pair_value(c, 1), pair_value(c, 2), pair_value(c, 3)) {
            (Some(r), Some(g), Some(b), Some(a)) => Some([r, g, b, a]),
            _ => None,
        }
    } else {
        None
    }
}

} // verus!

verus! {

/// The compositor's settings. Floating-point settings are kept as the
/// document wrote them (`None` for the built-in default) and converted
/// by the compositor.
pub struct Config {
    pub inner_gap: i32,
    pub outer_gap: i32,
    pub modifier: String,
    pub animation_enabled: bool,
    /// Animation length in ms as written (`None`: 300).
    pub animation_duration: Option<ConfigNumber>,
    /// Animation curve control points as written (`None`: 0.25, 0.1, 0.25, 1.0).
    pub animation_bezier: Option<(ConfigNumber, ConfigNumber, ConfigNumber, ConfigNumber)>,
    pub animation_open: String,
    pub focus_follows_mouse: bool,
    pub rounding: i32,
    pub border_width: i32,
    /// RGBA bytes (`None`: the built-in pink).
    pub active_border_color: Option<[u8; 4]>,
    /// RGBA bytes (`None`: the built-in grey).
    pub inactive_border_color: Option<[u8; 4]>,
    pub border_effect: String,
    /// As written (`None`: 1.0).
    pub border_effect_speed: Option<ConfigNumber>,
    /// RGBA bytes (`None`: the built-in cyan).
    pub border_gradient_color: Option<[u8; 4]>,
    pub blur: bool,
    /// Inactive window opacity as written (`None`: 0.85).
    pub opacity: Option<ConfigNumber>,
    pub layout: String,
    pub scroll_speed: i32,
    /// As written (`None`: 0.5).
    pub dwindle_split_ratio: Option<ConfigNumber>,
    pub dwindle_split_direction: String,
    pub startup_apps: Vec<String>,
    pub terminal: String,
    pub background: String,
    pub xcursor_theme: String,
    pub xcursor_size: i32,
    pub xkb_rules: String,
    pub xkb_model: String,
    pub xkb_layout: String,
    pub xkb_variant: String,
    pub xkb_options: String,
    pub touchpad_tap: bool,
    pub touchpad_natural_scroll: bool,
    pub touchpad_accel_profile: String,
    /// As written (`None`: 0.0; the compositor clamps to -1..=1).
    pub touchpad_accel_speed: Option<ConfigNumber>,
    pub touchpad_click_method: String,
    pub touchpad_dwt: bool,
    pub mouse_natural_scroll: bool,
    pub mouse_accel_profile: String,
    /// As written (`None`: 0.0; the compositor clamps to -1..=1).
    pub mouse_accel_speed: Option<ConfigNumber>,
    pub welcome: bool,
    /// As written (`None`: 1.0).
    pub focus_opacity: Option<ConfigNumber>,
    pub grain: bool,
    /// As written (`None`: 0.05).
    pub grain_intensity: Option<ConfigNumber>,
    pub monitor_configs: Vec<MonitorConfig>,
    pub window_rules: Vec<WindowRule>,
    pub keybindings: Vec<Keybind>,
    /// Merge state, not a config key: set once a document's `keybinds` block
    /// replaced the built-in defaults, so later documents merge into it.
    pub keybindings_from_file: bool,
}

/// The abstract content of a [`Config`].
pub ghost struct ConfigView {
    pub inner_gap: i32,
    pub outer_gap: i32,
    pub modifier: Seq<char>,
    pub animation_enabled: bool,
    pub animation_duration: Option<ConfigNumber>,
    pub animation_bezier: Option<(ConfigNumber, ConfigNumber, ConfigNumber, ConfigNumber)>,
    pub animation_open: Seq<char>,
    pub focus_follows_mouse: bool,
    pub rounding: i32,
    pub border_width: i32,
    pub active_border_color: Option<[u8; 4]>,
    pub inactive_border_color: Option<[u8; 4]>,
    pub border_effect: Seq<char>,
    pub border_effect_speed: Option<ConfigNumber>,
    pub border_gradient_color: Option<[u8; 4]>,
    pub blur: bool,
    pub opacity: Option<ConfigNumber>,
    pub layout: Seq<char>,
    pub scroll_speed: i32,
    pub dwindle_split_ratio: Option<ConfigNumber>,
    pub dwindle_split_direction: Seq<char>,
    pub startup_apps: Seq<Seq<char>>,
    pub terminal: Seq<char>,
    pub background: Seq<char>,
    pub xcursor_theme: Seq<char>,
    pub xcursor_size: i32,
    pub xkb_rules: Seq<char>,
    pub xkb_model: Seq<char>,
    pub xkb_layout: Seq<char>,
    pub xkb_variant: Seq<char>,
    pub xkb_options: Seq<char>,
    pub touchpad_tap: bool,
    pub touchpad_natural_scroll: bool,
    pub touchpad_accel_profile: Seq<char>,
    pub touchpad_accel_speed: Option<ConfigNumber>,
    pub touchpad_click_method: Seq<char>,
    pub touchpad_dwt: bool,
    pub mouse_natural_scroll: bool,
    pub mouse_accel_profile: Seq<char>,
    pub mouse_accel_speed: Option<ConfigNumber>,
    pub welcome: bool,
    pub focus_opacity: Option<ConfigNumber>,
    pub grain: bool,
    pub grain_intensity: Option<ConfigNumber>,
    pub monitor_configs: Seq<MonitorView>,
    pub window_rules: Seq<RuleView>,
    pub keybindings: Seq<KeybindView>,
    pub keybindings_from_file: bool,
}

impl View for Config {
    type V = ConfigView;

    open spec fn view(&self) -> ConfigView {
        ConfigView {
            inner_gap: self.inner_gap,
            outer_gap: self.outer_gap,
            modifier: self.modifier@,
            animation_enabled: self.animation_enabled,
            animation_duration: self.animation_duration,
            animation_bezier: self.animation_bezier,
            animation_open: self.animation_open@,
            focus_follows_mouse: self.focus_follows_mouse,
            rounding: self.rounding,
            border_width: self.border_width,
            active_border_color: self.active_border_color,
            inactive_border_color: self.inactive_border_color,
            border_effect: self.border_effect@,
            border_effect_speed: self.border_effect_speed,
            border_gradient_color: self.border_gradient_color,
            blur: self.blur,
            opacity: self.opacity,
            layout: self.layout@,
            scroll_speed: self.scroll_speed,
            dwindle_split_ratio: self.dwindle_split_ratio,
            dwindle_split_direction: self.dwindle_split_direction@,
            startup_apps: strings_view(self.startup_apps@),
            terminal: self.terminal@,
            background: self.background@,
            xcursor_theme: self.xcursor_theme@,
            xcursor_size: self.xcursor_size,
            xkb_rules: self.xkb_rules@,
            xkb_model: self.xkb_model@,
            xkb_layout: self.xkb_layout@,
            xkb_variant: self.xkb_variant@,
            xkb_options: self.xkb_options@,
            touchpad_tap: self.touchpad_tap,
            touchpad_natural_scroll: self.touchpad_natural_scroll,
            touchpad_accel_profile: self.touchpad_accel_profile@,
            touchpad_accel_speed: self.touchpad_accel_speed,
            touchpad_click_method: self.touchpad_click_method@,
            touchpad_dwt: self.touchpad_dwt,
            mouse_natural_scroll: self.mouse_natural_scroll,
            mouse_accel_profile: self.mouse_accel_profile@,
            mouse_accel_speed: self.mouse_accel_speed,
            welcome: self.welcome,
            focus_opacity: self.focus_opacity,
            grain: self.grain,
            grain_intensity: self.grain_intensity,
            monitor_configs: self.monitor_configs@.map_values(|m: MonitorConfig| m@),
            window_rules: self.window_rules@.map_values(|r: WindowRule| r@),
            keybindings: crate::input::binds_view(self.keybindings@),
            keybindings_from_file: self.keybindings_from_file,
        }
    }
}

/// The built-in settings, used where no document says otherwise.
pub open spec fn default_config_spec(c: ConfigView) -> bool {
    &&& c.inner_gap == 10
    &&& c.outer_gap == 15
    &&& c.modifier == "alt"@
    &&& c.animation_enabled == true
    &&& c.animation_duration is None
    &&& c.animation_bezier is None
    &&& c.animation_open == "scale_up"@
    &&& c.focus_follows_mouse == true
    &&& c.rounding == 12
    &&& c.border_width == 2
    &&& c.active_border_color is None
    &&& c.inactive_border_color is None
    &&& c.border_effect == "none"@
    &&& c.border_effect_speed is None
    &&& c.border_gradient_color is None
    &&& c.blur == true
    &&& c.opacity is None
    &&& c.layout == "dwindle"@
    &&& c.scroll_speed == 400
    &&& c.dwindle_split_ratio is None
    &&& c.dwindle_split_direction == "auto"@
    &&& c.startup_apps.len() == 0
    &&& c.terminal == "foot"@
    &&& c.background == "wallpaper.png"@
    &&& c.xcursor_theme == ""@
    &&& c.xcursor_size == 24
    &&& c.xkb_rules == ""@
    &&& c.xkb_model == ""@
    &&& c.xkb_layout == ""@
    &&& c.xkb_variant == ""@
    &&& c.xkb_options == ""@
    &&& c.touchpad_tap == false
    &&& c.touchpad_natural_scroll == false
    &&& c.touchpad_accel_profile == "adaptive"@
    &&& c.touchpad_accel_speed is None
    &&& c.touchpad_click_method == "button-areas"@
    &&& c.touchpad_dwt == true
    &&& c.mouse_natural_scroll == false
    &&& c.mouse_accel_profile == "adaptive"@
    &&& c.mouse_accel_speed is None
    &&& c.welcome == true
    &&& c.focus_opacity is None
    &&& c.grain == true
    &&& c.grain_intensity is None
    &&& c.monitor_configs.len() == 0
    &&& c.window_rules.len() == 0
    &&& c.keybindings.len() == DEFAULT_BINDING_COUNT
        && forall|i: int| 0 <= i < DEFAULT_BINDING_COUNT ==> parse_spec(default_entry(i).0, default_entry(i).1) == Some(#[trigger] c.keybindings[i])
    &&& c.keybindings_from_file == false
}

impl Config {
    /// The built-in settings.
    pub fn new() -> (c: Config)
        ensures
            default_config_spec(c@),
    {
        let keybindings = default_keybindings();
        let c = Config {
            inner_gap: 10,
            outer_gap: 15,
            modifier: lit("alt"),
            animation_enabled: true,
            animation_duration: None,
            animation_bezier: None,
            animation_open: lit("scale_up"),
            focus_follows_mouse: true,
            rounding: 12,
            border_width: 2,
            active_border_color: None,
            inactive_border_color: None,
            border_effect: lit("none"),
            border_effect_speed: None,
            border_gradient_color: None,
            blur: true,
            opacity: None,
            layout: lit("dwindle"),
            scroll_speed: 400,
            dwindle_split_ratio: None,
            dwindle_split_direction: lit("auto"),
            startup_apps: Vec::new(),
            terminal: lit("foot"),
            background: lit("wallpaper.png"),
            xcursor_theme: lit(""),
            xcursor_size: 24,
            xkb_rules: lit(""),
            xkb_model: lit(""),
            xkb_layout: lit(""),
            xkb_variant: lit(""),
            xkb_options: lit(""),
            touchpad_tap: false,
            touchpad_natural_scroll: false,
            touchpad_accel_profile: lit("adaptive"),
            touchpad_accel_speed: None,
            touchpad_click_method: lit("button-areas"),
            touchpad_dwt: true,
            mouse_natural_scroll: false,
            mouse_accel_profile: lit("adaptive"),
            mouse_accel_speed: None,
            welcome: true,
            focus_opacity: None,
            grain: true,
            grain_intensity: None,
            monitor_configs: Vec::new(),
            window_rules: Vec::new(),
            keybindings: keybindings,
            keybindings_from_file: false,
        };
        proof {
            assert(c@.keybindings == crate::input::binds_view(c.keybindings@));
        }
        c
    }
}

fn lit(s: &str) -> (r: String)
    ensures
        r@ == s@,
{
    let v = chars_of(s);
    string_of(v.as_slice())
}

} // verus!

verus! {

fn set_inner_gap(config: &mut Config, v: i32)
    ensures
        final(config)@ == (ConfigView { inner_gap: v, ..old(config)@ }),
{
    config.inner_gap = v;
}

fn set_outer_gap(config: &mut Config, v: i32)
    ensures
        final(config)@ == (ConfigView { outer_gap: v, ..old(config)@ }),
{
    config.outer_gap = v;
}

fn set_modifier(config: &mut Config, v: String)
    ensures
        final(config)@ == (ConfigView { modifier: v@, ..old(config)@ }),
{
    config.modifier = v;
}

fn set_animation_enabled(config: &mut Config, v: bool)
    ensures
        final(config)@ == (ConfigView { animation_enabled: v, ..old(config)@ }),
{
    config.animation_enabled = v;
}

fn set_animation_duration(config: &mut Config, v: Option<ConfigNumber>)
    ensures
        final(config)@ == (ConfigView { animation_duration: v, ..old(config)@ }),
{
    config.animation_duration = v;
}

fn set_animation_bezier(config: &mut Config, v: Option<(ConfigNumber, ConfigNumber, ConfigNumber, ConfigNumber)>)
    ensures
        final(config)@ == (ConfigView { animation_bezier: v, ..old(config)@ }),
{
    config.animation_bezier = v;
}

fn set_animation_open(config: &mut Config, v: String)
    ensures
        final(config)@ == (ConfigView { animation_open: v@, ..old(config)@ }),
{
    config.animation_open = v;
}

fn set_focus_follows_mouse(config: &mut Config, v: bool)
    ensures
        final(config)@ == (ConfigView { focus_follows_mouse: v, ..old(config)@ }),
{
    config.focus_follows_mouse = v;
}

fn set_rounding(config: &mut Config, v: i32)
    ensures
        final(config)@ == (ConfigView { rounding: v, ..old(config)@ }),
{
    config.rounding = v;
}

fn set_border_width(config: &mut Config, v: i32)
    ensures
        final(config)@ == (ConfigView { border_width: v, ..old(config)@ }),
{
    config.border_width = v;
}

fn set_active_border_color(config: &mut Config, v: Option<[u8; 4]>)
    ensures
        final(config)@ == (ConfigView { active_border_color: v, ..old(config)@ }),
{
    config.active_border_color = v;
}

fn set_inactive_border_color(config: &mut Config, v: Option<[u8; 4]>)
    ensures
        final(config)@ == (ConfigView { inactive_border_color: v, ..old(config)@ }),
{
    config.inactive_border_color = v;
}

fn set_border_effect(config: &mut Config, v: String)
    ensures
        final(config)@ == (ConfigView { border_effect: v@, ..old(config)@ }),
{
    config.border_effect = v;
}

fn set_border_effect_speed(config: &mut Config, v: Option<ConfigNumber>)
    ensures
        final(config)@ == (ConfigView { border_effect_speed: v, ..old(config)@ }),
{
    config.border_effect_speed = v;
}

fn set_border_gradient_color(config: &mut Config, v: Option<[u8; 4]>)
    ensures
        final(config)@ == (ConfigView { border_gradient_color: v, ..old(config)@ }),
{
    config.border_gradient_color = v;
}

fn set_blur(config: &mut Config, v: bool)
    ensures
        final(config)@ == (ConfigView { blur: v, ..old(config)@ }),
{
    config.blur = v;
}

fn set_opacity(config: &mut Config, v: Option<ConfigNumber>)
    ensures
        final(config)@ == (ConfigView { opacity: v, ..old(config)@ }),
{
    config.opacity = v;
}

fn set_layout(config: &mut Config, v: String)
    ensures
        final(config)@ == (ConfigView { layout: v@, ..old(config)@ }),
{
    config.layout = v;
}

fn set_scroll_speed(config: &mut Config, v: i32)
    ensures
        final(config)@ == (ConfigView { scroll_speed: v, ..old(config)@ }),
{
    config.scroll_speed = v;
}

fn set_dwindle_split_ratio(config: &mut Config, v: Option<ConfigNumber>)
    ensures
        final(config)@ == (ConfigView { dwindle_split_ratio: v, ..old(config)@ }),
{
    config.dwindle_split_ratio = v;
}

fn set_dwindle_split_direction(config: &mut Config, v: String)
    ensures
        final(config)@ == (ConfigView { dwindle_split_direction: v@, ..old(config)@ }),
{
    config.dwindle_split_direction = v;
}

fn set_startup_apps(config: &mut Config, v: Vec<String>)
    ensures
        final(config)@ == (ConfigView { startup_apps: strings_view(v@), ..old(config)@ }),
{
    config.startup_apps = v;
}

fn set_terminal(config: &mut Config, v: String)
    ensures
        final(config)@ == (ConfigView { terminal: v@, ..old(config)@ }),
{
    config.terminal = v;
}

fn set_background(config: &mut Config, v: String)
    ensures
        final(config)@ == (ConfigView { background: v@, ..old(config)@ }),
{
    config.background = v;
}

fn set_xcursor_theme(config: &mut Config, v: String)
    ensures
        final(config)@ == (ConfigView { xcursor_theme: v@, ..old(config)@ }),
{
    config.xcursor_theme = v;
}

fn set_xcursor_size(config: &mut Config, v: i32)
    ensures
        final(config)@ == (ConfigView { xcursor_size: v, ..old(config)@ }),
{
    config.xcursor_size = v;
}

fn set_xkb_rules(config: &mut Config, v: String)
    ensures
        final(config)@ == (ConfigView { xkb_rules: v@, ..old(config)@ }),
{
    config.xkb_rules = v;
}

fn set_xkb_model(config: &mut Config, v: String)
    ensures
        final(config)@ == (ConfigView { xkb_model: v@, ..old(config)@ }),
{
    config.xkb_model = v;
}

fn set_xkb_layout(config: &mut Config, v: String)
    ensures
        final(config)@ == (ConfigView { xkb_layout: v@, ..old(config)@ }),
{
    config.xkb_layout = v;
}

fn set_xkb_variant(config: &mut Config, v: String)
    ensures
        final(config)@ == (ConfigView { xkb_variant: v@, ..old(config)@ }),
{
    config.xkb_variant = v;
}

fn set_xkb_options(config: &mut Config, v: String)
    ensures
        final(config)@ == (ConfigView { xkb_options: v@, ..old(config)@ }),
{
    config.xkb_options = v;
}

fn set_touchpad_tap(config: &mut Config, v: bool)
    ensures
        final(config)@ == (ConfigView { touchpad_tap: v, ..old(config)@ }),
{
    config.touchpad_tap = v;
}

fn set_touchpad_natural_scroll(config: &mut Config, v: bool)
    ensures
        final(config)@ == (ConfigView { touchpad_natural_scroll: v, ..old(config)@ }),
{
    config.touchpad_natural_scroll = v;
}

fn set_touchpad_accel_profile(config: &mut Config, v: String)
    ensures
        final(config)@ == (ConfigView { touchpad_accel_profile: v@, ..old(config)@ }),
{
    config.touchpad_accel_profile = v;
}

fn set_touchpad_accel_speed(config: &mut Config, v: Option<ConfigNumber>)
    ensures
        final(config)@ == (ConfigView { touchpad_accel_speed: v, ..old(config)@ }),
{
    config.touchpad_accel_speed = v;
}

fn set_touchpad_click_method(config: &mut Config, v: String)
    ensures
        final(config)@ == (ConfigView { touchpad_click_method: v@, ..old(config)@ }),
{
    config.touchpad_click_method = v;
}

fn set_touchpad_dwt(config: &mut Config, v: bool)
    ensures
        final(config)@ == (ConfigView { touchpad_dwt: v, ..old(config)@ }),
{
    config.touchpad_dwt = v;
}

fn set_mouse_natural_scroll(config: &mut Config, v: bool)
    ensures
        final(config)@ == (ConfigView { mouse_natural_scroll: v, ..old(config)@ }),
{
    config.mouse_natural_scroll = v;
}

fn set_mouse_accel_profile(config: &mut Config, v: String)
    ensures
        final(config)@ == (ConfigView { mouse_accel_profile: v@, ..old(config)@ }),
{
    config.mouse_accel_profile = v;
}

fn set_mouse_accel_speed(config: &mut Config, v: Option<ConfigNumber>)
    ensures
        final(config)@ == (ConfigView { mouse_accel_speed: v, ..old(config)@ }),
{
    config.mouse_accel_speed = v;
}

fn set_welcome(config: &mut Config, v: bool)
    ensures
        final(config)@ == (ConfigView { welcome: v, ..old(config)@ }),
{
    config.welcome = v;
}

fn set_focus_opacity(config: &mut Config, v: Option<ConfigNumber>)
    ensures
        final(config)@ == (ConfigView { focus_opacity: v, ..old(config)@ }),
{
    config.focus_opacity = v;
}

fn set_grain(config: &mut Config, v: bool)
    ensures
        final(config)@ == (ConfigView { grain: v, ..old(config)@ }),
{
    config.grain = v;
}

fn set_grain_intensity(config: &mut Config, v: Option<ConfigNumber>)
    ensures
        final(config)@ == (ConfigView { grain_intensity: v, ..old(config)@ }),
{
    config.grain_intensity = v;
}

fn set_keybindings(config: &mut Config, v: Vec<Keybind>)
    ensures
        final(config)@ == (ConfigView { keybindings: crate::input::binds_view(v@), ..old(config)@ }),
{
    config.keybindings = v;
}

fn set_keybindings_from_file(config: &mut Config, v: bool)
    ensures
        final(config)@ == (ConfigView { keybindings_from_file: v, ..old(config)@ }),
{
    config.keybindings_from_file = v;
}

} // verus!

verus! {

/// `scrolling` is another name of the `scroll` layout.
pub open spec fn layout_name(v: Seq<char>) -> Seq<char> {
    if v == "scrolling"@ || v == "scroll"@ {
        "scroll"@
    } else {
        v
    }
}

/// The non-empty strings among `vs`, in order.
pub open spec fn nonempty_texts(vs: Seq<ValueView>) -> Seq<Seq<char>>
    decreases vs.len(),
{
    if vs.len() == 0 {
        Seq::<Seq<char>>::empty()
    } else {
        let r = nonempty_texts(vs.drop_last());
        match vs.last() {
            ValueView::Text(s) => if s.len() > 0 {
                r.push(s)
            } else {
                r
            },
            _ => r,
        }
    }
}

/// An integer setting, truncated to `i32` as the compositor stores it.
pub open spec fn int_setting(v: Option<int>, old: i32) -> i32 {
    match v {
        Some(i) => i as i32,
        None => old,
    }
}

/// A number setting.
pub open spec fn number_setting(v: Option<ConfigNumber>, old: Option<ConfigNumber>) -> Option<ConfigNumber> {
    match v {
        Some(n) => Some(n),
        None => old,
    }
}

pub open spec fn modifier_step(c: ConfigView, doc: Seq<NodeView>) -> ConfigView {
    ConfigView { modifier: or_keep(node_text(doc_get(doc, "modifier"@)), c.modifier), ..c }
}

pub open spec fn layout_step(c: ConfigView, doc: Seq<NodeView>) -> ConfigView {
    ConfigView {
        layout: match node_text(doc_get(doc, "layout"@)) {
            Some(v) => layout_name(v),
            None => c.layout,
        },
        ..c
    }
}

pub open spec fn scroll_step(c: ConfigView, doc: Seq<NodeView>) -> ConfigView {
    ConfigView {
        scroll_speed: int_setting(node_int(child(doc_get(doc, "scroll"@), "speed"@)), c.scroll_speed),
        ..c
    }
}

pub open spec fn dwindle_step(c: ConfigView, doc: Seq<NodeView>) -> ConfigView {
    let dwindle = doc_get(doc, "dwindle"@);
    ConfigView {
        dwindle_split_ratio: number_setting(
            node_number(child(dwindle, "split_ratio"@)),
            c.dwindle_split_ratio,
        ),
        dwindle_split_direction: or_keep(
            node_text(child(dwindle, "split_direction"@)),
            c.dwindle_split_direction,
        ),
        ..c
    }
}

pub open spec fn background_step(c: ConfigView, doc: Seq<NodeView>) -> ConfigView {
    ConfigView { background: or_keep(node_text(doc_get(doc, "background"@)), c.background), ..c }
}

pub open spec fn startup_step(c: ConfigView, doc: Seq<NodeView>) -> ConfigView {
    let apps = match doc_get(doc, "startup"@) {
        Some(s) => nonempty_texts(s.entries),
        None => Seq::<Seq<char>>::empty(),
    };
    ConfigView {
        startup_apps: if apps.len() > 0 {
            apps
        } else {
            c.startup_apps
        },
        ..c
    }
}

pub open spec fn terminal_step(c: ConfigView, doc: Seq<NodeView>) -> ConfigView {
    let term = node_text(doc_get(doc, "terminal"@));
    ConfigView {
        terminal: if term is Some && term->0.len() > 0 {
            term->0
        } else {
            c.terminal
        },
        ..c
    }
}

/// `modifier`, `layout`, `scroll { speed }`, `dwindle { split_ratio
/// split_direction }`, `background`, `startup` and `terminal`.
pub open spec fn general_section(c: ConfigView, doc: Seq<NodeView>) -> ConfigView {
    terminal_step(
        startup_step(
            background_step(
                dwindle_step(scroll_step(layout_step(modifier_step(c, doc), doc), doc), doc),
                doc,
            ),
            doc,
        ),
        doc,
    )
}

fn nonempty_text_values(vs: &Vec<ConfigValue>) -> (r: Vec<String>)
    ensures
        strings_view(r@) == nonempty_texts(values_view(vs@)),
{
    let ghost vv = values_view(vs@);
    let mut r: Vec<String> = Vec::new();
    let mut i: usize = 0;
    while i < vs.len()
        invariant
            i <= vs@.len(),
            vv == values_view(vs@),
            strings_view(r@) == nonempty_texts(vv.take(i as int)),
        decreases vs@.len() - i,
    {
        proof {
            assert(vv.take(i + 1).drop_last() =~= vv.take(i as int));
            assert(vv.take(i + 1).last() == crate::kdl_doc::value_view(vs@[i as int]));
        }
        match &vs[i] {
            ConfigValue::Text(s) => {
                if chars_of(s.as_str()).len() > 0 {
                    r.push(s.clone());
                    proof {
                        assert(strings_view(r@) =~= nonempty_texts(vv.take(i as int)).push(s@));
                    }
                }
            },
            _ => {},
        }
        i = i + 1;
    }
    proof {
        assert(vv.take(vs@.len() as int) =~= vv);
    }
    r
}

fn apply_modifier(config: &mut Config, doc: &[ConfigNode])
    ensures
        final(config)@ == modifier_step(old(config)@, nodes_view(doc@)),
{
    if let Some(v) = text_value(find_node(doc, "modifier")) {
        set_modifier(config, v);
    }
}

fn apply_layout(config: &mut Config, doc: &[ConfigNode])
    ensures
        final(config)@ == layout_step(old(config)@, nodes_view(doc@)),
{
    if let Some(v) = text_value(find_node(doc, "layout")) {
        let name = if str_eq(v.as_str(), "scrolling") || str_eq(v.as_str(), "scroll") {
            lit("scroll")
        } else {
            v
        };
        set_layout(config, name);
    }
}

fn apply_scroll(config: &mut Config, doc: &[ConfigNode])
    ensures
        final(config)@ == scroll_step(old(config)@, nodes_view(doc@)),
{
    if let Some(v) = int_value(child_node(find_node(doc, "scroll"), "speed")) {
        set_scroll_speed(config, v as i32);
    }
}

fn apply_dwindle(config: &mut Config, doc: &[ConfigNode])
    ensures
        final(config)@ == dwindle_step(old(config)@, nodes_view(doc@)),
{
    let dwindle = find_node(doc, "dwindle");
    if let Some(n) = node_number_value(child_node(dwindle, "split_ratio")) {
        set_dwindle_split_ratio(config, Some(n));
    }
    if let Some(v) = text_value(child_node(dwindle, "split_direction")) {
        set_dwindle_split_direction(config, v);
    }
}

fn apply_background(config: &mut Config, doc: &[ConfigNode])
    ensures
        final(config)@ == background_step(old(config)@, nodes_view(doc@)),
{
    if let Some(v) = text_value(find_node(doc, "background")) {
        set_background(config, v);
    }
}

fn apply_startup(config: &mut Config, doc: &[ConfigNode])
    ensures
        final(config)@ == startup_step(old(config)@, nodes_view(doc@)),
{
    if let Some(s) = find_node(doc, "startup") {
        let apps = nonempty_text_values(&s.entries);
        if apps.len() > 0 {
            set_startup_apps(config, apps);
        }
    }
}

fn apply_terminal(config: &mut Config, doc: &[ConfigNode])
    ensures
        final(config)@ == terminal_step(old(config)@, nodes_view(doc@)),
{
    if let Some(v) = text_value(find_node(doc, "terminal")) {
        if chars_of(v.as_str()).len() > 0 {
            set_terminal(config, v);
        }
    }
}

fn apply_general(config: &mut Config, doc: &[ConfigNode])
    ensures
        final(config)@ == general_section(old(config)@, nodes_view(doc@)),
{
    apply_modifier(config, doc);
    apply_layout(config, doc);
    apply_scroll(config, doc);
    apply_dwindle(config, doc);
    apply_background(config, doc);
    apply_startup(config, doc);
    apply_terminal(config, doc);
}

} // verus!

verus! {

/// The integers among `vs`, in order.
pub open spec fn int_values(vs: Seq<ValueView>) -> Seq<int>
    decreases vs.len(),
{
    if vs.len() == 0 {
        Seq::<int>::empty()
    } else {
        let r = int_values(vs.drop_last());
        match vs.last() {
            ValueView::Integer(i) => r.push(i),
            _ => r,
        }
    }
}

/// The monitor a `monitor "<name>" { position <x> <y> }` node places;
/// `None` for other nodes, an empty name or fewer than two integers.
pub open spec fn monitor_of(n: NodeView) -> Option<MonitorView> {
    if n.name != "monitor"@ {
        None
    } else {
        let name = or_keep(node_text(Some(n)), Seq::<char>::empty());
        if name.len() == 0 {
            None
        } else {
            match child(Some(n), "position"@) {
                Some(p) => {
                    let ints = int_values(p.entries);
                    if ints.len() >= 2 {
                        Some(MonitorView { name, x: ints[0] as i32, y: ints[1] as i32 })
                    } else {
                        None
                    }
                },
                None => None,
            }
        }
    }
}

/// The monitors that the first `k` nodes place, in order.
pub open spec fn monitors_upto(doc: Seq<NodeView>, k: int) -> Seq<MonitorView>
    decreases k,
{
    if k <= 0 {
        Seq::<MonitorView>::empty()
    } else {
        let r = monitors_upto(doc, k - 1);
        match monitor_of(doc[k - 1]) {
            Some(m) => r.push(m),
            None => r,
        }
    }
}

/// Monitor placements are appended in document order.
pub open spec fn monitors_step(c: ConfigView, doc: Seq<NodeView>) -> ConfigView {
    ConfigView { monitor_configs: c.monitor_configs + monitors_upto(doc, doc.len() as int), ..c }
}

fn int_entries(vs: &Vec<ConfigValue>) -> (r: Vec<i128>)
    ensures
        r@.map_values(|i: i128| i as int) == int_values(values_view(vs@)),
{
    let ghost vv = values_view(vs@);
    let mut r: Vec<i128> = Vec::new();
    let mut i: usize = 0;
    while i < vs.len()
        invariant
            i <= vs@.len(),
            vv == values_view(vs@),
            r@.map_values(|i: i128| i as int) == int_values(vv.take(i as int)),
        decreases vs@.len() - i,
    {
        proof {
            assert(vv.take(i + 1).drop_last() =~= vv.take(i as int));
            assert(vv.take(i + 1).last() == crate::kdl_doc::value_view(vs@[i as int]));
        }
        match &vs[i] {
            ConfigValue::Integer(x) => {
                r.push(*x);
                proof {
                    assert(r@.map_values(|i: i128| i as int) =~= int_values(vv.take(i as int)).push(
                        *x as int,
                    ));
                }
            },
            _ => {},
        }
        i = i + 1;
    }
    proof {
        assert(vv.take(vs@.len() as int) =~= vv);
    }
    r
}

fn monitor_of_node(n: &ConfigNode) -> (r: Option<MonitorConfig>)
    ensures
        match r {
            Some(m) => monitor_of(node_view(*n)) == Some(m@),
            None => monitor_of(node_view(*n)) is None,
        },
{
    if !str_eq(n.name.as_str(), "monitor") {
        return None;
    }
    let name = match text_value(Some(n)) {
        Some(s) => s,
        None => String::new(),
    };
    if chars_of(name.as_str()).len() == 0 {
        return None;
    }
    match child_node(Some(n), "position") {
        Some(p) => {
            let ints = int_entries(&p.entries);
            if ints.len() >= 2 {
                proof {
                    assert(ints@.map_values(|i: i128| i as int)[0] == ints@[0] as int);
                    assert(ints@.map_values(|i: i128| i as int)[1] == ints@[1] as int);
                }
                Some(MonitorConfig { name, x: ints[0] as i32, y: ints[1] as i32 })
            } else {
                None
            }
        },
        None => None,
    }
}

fn push_monitor(config: &mut Config, m: MonitorConfig)
    ensures
        final(config)@ == (ConfigView {
            monitor_configs: old(config)@.monitor_configs.push(m@),
            ..old(config)@
        }),
{
    config.monitor_configs.push(m);
    proof {
        assert(final(config)@.monitor_configs =~= old(config)@.monitor_configs.push(m@));
    }
}

fn apply_monitors(config: &mut Config, doc: &[ConfigNode])
    ensures
        final(config)@ == monitors_step(old(config)@, nodes_view(doc@)),
{
    proof {
        lemma_nodes_view_len(doc@);
    }
    let ghost start = config@;
    let ghost d = nodes_view(doc@);
    let mut i: usize = 0;
    while i < doc.len()
        invariant
            i <= doc@.len(),
            d == nodes_view(doc@),
            d.len() == doc@.len(),
            forall|k: int| 0 <= k < doc@.len() ==> #[trigger] d[k] == node_view(doc@[k]),
            config@ == (ConfigView {
                monitor_configs: start.monitor_configs + monitors_upto(d, i as int),
                ..start
            }),
        decreases doc@.len() - i,
    {
        assert(d[i as int] == node_view(doc@[i as int]));
        match monitor_of_node(&doc[i]) {
            Some(m) => {
                push_monitor(config, m);
                proof {
                    assert(start.monitor_configs + monitors_upto(d, i + 1) =~= (start.monitor_configs
                        + monitors_upto(d, i as int)).push(m@));
                }
            },
            None => {},
        }
        i = i + 1;
    }
}

} // verus!

verus! {

/// The numbers (floats or integers) among `vs`, in order.
pub open spec fn number_values(vs: Seq<ValueView>) -> Seq<ConfigNumber>
    decreases vs.len(),
{
    if vs.len() == 0 {
        Seq::<ConfigNumber>::empty()
    } else {
        let r = number_values(vs.drop_last());
        match number_of(vs.last()) {
            Some(n) => r.push(n),
            None => r,
        }
    }
}

/// The four control points of a `bezier` node with exactly four numbers.
pub open spec fn bezier_of(n: Option<NodeView>) -> Option<(ConfigNumber, ConfigNumber, ConfigNumber, ConfigNumber)> {
    match n {
        Some(x) => {
            let ns = number_values(x.entries);
            if ns.len() == 4 {
                Some((ns[0], ns[1], ns[2], ns[3]))
            } else {
                None
            }
        },
        None => None,
    }
}

/// A color setting: a parsable hex color replaces the old one.
pub open spec fn color_setting(t: Option<Seq<char>>, old: Option<[u8; 4]>) -> Option<[u8; 4]> {
    match t {
        Some(s) => match hex_color_spec(s) {
            Some(rgba) => Some(rgba),
            None => old,
        },
        None => old,
    }
}

/// The colors of a document can be parsed without cutting a character.
pub open spec fn colors_ok(doc: Seq<NodeView>) -> bool {
    let deco = doc_get(doc, "decorations"@);
    &&& (node_text(child(deco, "active_border_color"@)) matches Some(t) ==> !hex_color_panics(t))
    &&& (node_text(child(deco, "inactive_border_color"@)) matches Some(t) ==> !hex_color_panics(t))
    &&& (node_text(child(deco, "border_gradient_color"@)) matches Some(t) ==> !hex_color_panics(t))
}

fn number_entries(vs: &Vec<ConfigValue>) -> (r: Vec<ConfigNumber>)
    ensures
        r@ == number_values(values_view(vs@)),
{
    let ghost vv = values_view(vs@);
    let mut r: Vec<ConfigNumber> = Vec::new();
    let mut i: usize = 0;
    while i < vs.len()
        invariant
            i <= vs@.len(),
            vv == values_view(vs@),
            r@ == number_values(vv.take(i as int)),
        decreases vs@.len() - i,
    {
        proof {
            assert(vv.take(i + 1).drop_last() =~= vv.take(i as int));
            assert(vv.take(i + 1).last() == crate::kdl_doc::value_view(vs@[i as int]));
        }
        match number_value(&vs[i]) {
            Some(n) => {
                r.push(n);
            },
            None => {},
        }
        i = i + 1;
    }
    proof {
        assert(vv.take(vs@.len() as int) =~= vv);
    }
    r
}

pub open spec fn inner_gap_step(c: ConfigView, doc: Seq<NodeView>) -> ConfigView {
    ConfigView { inner_gap: int_setting(node_int(child(doc_get(doc, "gaps"@), "inner"@)), c.inner_gap), ..c }
}

fn apply_inner_gap(config: &mut Config, doc: &[ConfigNode])
    ensures
        final(config)@ == inner_gap_step(old(config)@, nodes_view(doc@)),
{
    if let Some(v) = int_value(child_node(find_node(doc, "gaps"), "inner")) {
        set_inner_gap(config, v as i32);
    }
}

pub open spec fn outer_gap_step(c: ConfigView, doc: Seq<NodeView>) -> ConfigView {
    ConfigView { outer_gap: int_setting(node_int(child(doc_get(doc, "gaps"@), "outer"@)), c.outer_gap), ..c }
}

fn apply_outer_gap(config: &mut Config, doc: &[ConfigNode])
    ensures
        final(config)@ == outer_gap_step(old(config)@, nodes_view(doc@)),
{
    if let Some(v) = int_value(child_node(find_node(doc, "gaps"), "outer")) {
        set_outer_gap(config, v as i32);
    }
}

pub open spec fn animation_enabled_step(c: ConfigView, doc: Seq<NodeView>) -> ConfigView {
    ConfigView { animation_enabled: or_keep(node_bool(child(doc_get(doc, "animations"@), "enabled"@)), c.animation_enabled), ..c }
}

fn apply_animation_enabled(config: &mut Config, doc: &[ConfigNode])
    ensures
        final(config)@ == animation_enabled_step(old(config)@, nodes_view(doc@)),
{
    if let Some(v) = bool_value(child_node(find_node(doc, "animations"), "enabled")) {
        set_animation_enabled(config, v);
    }
}

pub open spec fn animation_duration_step(c: ConfigView, doc: Seq<NodeView>) -> ConfigView {
    ConfigView { animation_duration: number_setting(node_number(child(doc_get(doc, "animations"@), "duration"@)), c.animation_duration), ..c }
}

fn apply_animation_duration(config: &mut Config, doc: &[ConfigNode])
    ensures
        final(config)@ == animation_duration_step(old(config)@, nodes_view(doc@)),
{
    if let Some(v) = node_number_value(child_node(find_node(doc, "animations"), "duration")) {
        set_animation_duration(config, Some(v));
    }
}

pub open spec fn animation_bezier_step(c: ConfigView, doc: Seq<NodeView>) -> ConfigView {
    ConfigView { animation_bezier: match bezier_of(child(doc_get(doc, "animations"@), "bezier"@)) { Some(b) => Some(b), None => c.animation_bezier }, ..c }
}

fn apply_animation_bezier(config: &mut Config, doc: &[ConfigNode])
    ensures
        final(config)@ == animation_bezier_step(old(config)@, nodes_view(doc@)),
{
    if let Some(n) = child_node(find_node(doc, "animations"), "bezier") {
        let ns = number_entries(&n.entries);
        if ns.len() == 4 {
            set_animation_bezier(config, Some((ns[0], ns[1], ns[2], ns[3])));
        }
    }
}

pub open spec fn animation_open_step(c: ConfigView, doc: Seq<NodeView>) -> ConfigView {
    ConfigView { animation_open: or_keep(node_text(child(doc_get(doc, "animations"@), "open"@)), c.animation_open), ..c }
}

fn apply_animation_open(config: &mut Config, doc: &[ConfigNode])
    ensures
        final(config)@ == animation_open_step(old(config)@, nodes_view(doc@)),
{
    if let Some(v) = text_value(child_node(find_node(doc, "animations"), "open")) {
        set_animation_open(config, v);
    }
}

pub open spec fn focus_follows_mouse_step(c: ConfigView, doc: Seq<NodeView>) -> ConfigView {
    ConfigView { focus_follows_mouse: or_keep(node_bool(child(doc_get(doc, "focus"@), "follows_mouse"@)), c.focus_follows_mouse), ..c }
}

fn apply_focus_follows_mouse(config: &mut Config, doc: &[ConfigNode])
    ensures
        final(config)@ == focus_follows_mouse_step(old(config)@, nodes_view(doc@)),
{
    if let Some(v) = bool_value(child_node(find_node(doc, "focus"), "follows_mouse")) {
        set_focus_follows_mouse(config, v);
    }
}

pub open spec fn rounding_step(c: ConfigView, doc: Seq<NodeView>) -> ConfigView {
    ConfigView { rounding: int_setting(node_int(child(doc_get(doc, "decorations"@), "rounding"@)), c.rounding), ..c }
}

fn apply_rounding(config: &mut Config, doc: &[ConfigNode])
    ensures
        final(config)@ == rounding_step(old(config)@, nodes_view(doc@)),
{
    if let Some(v) = int_value(child_node(find_node(doc, "decorations"), "rounding")) {
        set_rounding(config, v as i32);
    }
}

pub open spec fn border_width_step(c: ConfigView, doc: Seq<NodeView>) -> ConfigView {
    ConfigView { border_width: int_setting(node_int(child(doc_get(doc, "decorations"@), "border_width"@)), c.border_width), ..c }
}

fn apply_border_width(config: &mut Config, doc: &[ConfigNode])
    ensures
        final(config)@ == border_width_step(old(config)@, nodes_view(doc@)),
{
    if let Some(v) = int_value(child_node(find_node(doc, "decorations"), "border_width")) {
        set_border_width(config, v as i32);
    }
}

pub open spec fn blur_step(c: ConfigView, doc: Seq<NodeView>) -> ConfigView {
    ConfigView { blur: or_keep(node_bool(child(doc_get(doc, "decorations"@), "blur"@)), c.blur), ..c }
}

fn apply_blur(config: &mut Config, doc: &[ConfigNode])
    ensures
        final(config)@ == blur_step(old(config)@, nodes_view(doc@)),
{
    if let Some(v) = bool_value(child_node(find_node(doc, "decorations"), "blur")) {
        set_blur(config, v);
    }
}

pub open spec fn opacity_step(c: ConfigView, doc: Seq<NodeView>) -> ConfigView {
    ConfigView { opacity: number_setting(node_number(child(doc_get(doc, "decorations"@), "opacity"@)), c.opacity), ..c }
}

fn apply_opacity(config: &mut Config, doc: &[ConfigNode])
    ensures
        final(config)@ == opacity_step(old(config)@, nodes_view(doc@)),
{
    if let Some(v) = node_number_value(child_node(find_node(doc, "decorations"), "opacity")) {
        set_opacity(config, Some(v));
    }
}

pub open spec fn focus_opacity_step(c: ConfigView, doc: Seq<NodeView>) -> ConfigView {
    ConfigView { focus_opacity: number_setting(node_number(child(doc_get(doc, "decorations"@), "focus_opacity"@)), c.focus_opacity), ..c }
}

fn apply_focus_opacity(config: &mut Config, doc: &[ConfigNode])
    ensures
        final(config)@ == focus_opacity_step(old(config)@, nodes_view(doc@)),
{
    if let Some(v) = node_number_value(child_node(find_node(doc, "decorations"), "focus_opacity")) {
        set_focus_opacity(config, Some(v));
    }
}

pub open spec fn grain_step(c: ConfigView, doc: Seq<NodeView>) -> ConfigView {
    ConfigView { grain: or_keep(node_bool(child(doc_get(doc, "decorations"@), "grain"@)), c.grain), ..c }
}

fn apply_grain(config: &mut Config, doc: &[ConfigNode])
    ensures
        final(config)@ == grain_step(old(config)@, nodes_view(doc@)),
{
    if let Some(v) = bool_value(child_node(find_node(doc, "decorations"), "grain")) {
        set_grain(config, v);
    }
}

pub open spec fn grain_intensity_step(c: ConfigView, doc: Seq<NodeView>) -> ConfigView {
    ConfigView { grain_intensity: number_setting(node_number(child(doc_get(doc, "decorations"@), "grain_intensity"@)), c.grain_intensity), ..c }
}

fn apply_grain_intensity(config: &mut Config, doc: &[ConfigNode])
    ensures
        final(config)@ == grain_intensity_step(old(config)@, nodes_view(doc@)),
{
    if let Some(v) = node_number_value(child_node(find_node(doc, "decorations"), "grain_intensity")) {
        set_grain_intensity(config, Some(v));
    }
}

pub open spec fn active_border_color_step(c: ConfigView, doc: Seq<NodeView>) -> ConfigView {
    ConfigView { active_border_color: color_setting(node_text(child(doc_get(doc, "decorations"@), "active_border_color"@)), c.active_border_color), ..c }
}

fn apply_active_border_color(config: &mut Config, doc: &[ConfigNode])
    requires
        node_text(child(doc_get(nodes_view(doc@), "decorations"@), "active_border_color"@)) matches Some(t) ==> !hex_color_panics(t),
    ensures
        final(config)@ == active_border_color_step(old(config)@, nodes_view(doc@)),
{
    if let Some(v) = text_value(child_node(find_node(doc, "decorations"), "active_border_color")) {
        if let Some(rgba) = parse_hex_color(v.as_str()) {
            set_active_border_color(config, Some(rgba));
        }
    }
}

pub open spec fn inactive_border_color_step(c: ConfigView, doc: Seq<NodeView>) -> ConfigView {
    ConfigView { inactive_border_color: color_setting(node_text(child(doc_get(doc, "decorations"@), "inactive_border_color"@)), c.inactive_border_color), ..c }
}

fn apply_inactive_border_color(config: &mut Config, doc: &[ConfigNode])
    requires
        node_text(child(doc_get(nodes_view(doc@), "decorations"@), "inactive_border_color"@)) matches Some(t) ==> !hex_color_panics(t),
    ensures
        final(config)@ == inactive_border_color_step(old(config)@, nodes_view(doc@)),
{
    if let Some(v) = text_value(child_node(find_node(doc, "decorations"), "inactive_border_color")) {
        if let Some(rgba) = parse_hex_color(v.as_str()) {
            set_inactive_border_color(config, Some(rgba));
        }
    }
}

pub open spec fn border_effect_step(c: ConfigView, doc: Seq<NodeView>) -> ConfigView {
    ConfigView { border_effect: or_keep(node_text(child(doc_get(doc, "decorations"@), "border_effect"@)), c.border_effect), ..c }
}

fn apply_border_effect(config: &mut Config, doc: &[ConfigNode])
    ensures
        final(config)@ == border_effect_step(old(config)@, nodes_view(doc@)),
{
    if let Some(v) = text_value(child_node(find_node(doc, "decorations"), "border_effect")) {
        set_border_effect(config, v);
    }
}

pub open spec fn border_effect_speed_step(c: ConfigView, doc: Seq<NodeView>) -> ConfigView {
    ConfigView { border_effect_speed: number_setting(node_number(child(doc_get(doc, "decorations"@), "border_effect_speed"@)), c.border_effect_speed), ..c }
}

fn apply_border_effect_speed(config: &mut Config, doc: &[ConfigNode])
    ensures
        final(config)@ == border_effect_speed_step(old(config)@, nodes_view(doc@)),
{
    if let Some(v) = node_number_value(child_node(find_node(doc, "decorations"), "border_effect_speed")) {
        set_border_effect_speed(config, Some(v));
    }
}

pub open spec fn border_gradient_color_step(c: ConfigView, doc: Seq<NodeView>) -> ConfigView {
    ConfigView { border_gradient_color: color_setting(node_text(child(doc_get(doc, "decorations"@), "border_gradient_color"@)), c.border_gradient_color), ..c }
}

fn apply_border_gradient_color(config: &mut Config, doc: &[ConfigNode])
    requires
        node_text(child(doc_get(nodes_view(doc@), "decorations"@), "border_gradient_color"@)) matches Some(t) ==> !hex_color_panics(t),
    ensures
        final(config)@ == border_gradient_color_step(old(config)@, nodes_view(doc@)),
{
    if let Some(v) = text_value(child_node(find_node(doc, "decorations"), "border_gradient_color")) {
        if let Some(rgba) = parse_hex_color(v.as_str()) {
            set_border_gradient_color(config, Some(rgba));
        }
    }
}

/// `gaps`, `animations`, `focus` and `decorations`.
pub open spec fn blocks_section(c: ConfigView, doc: Seq<NodeView>) -> ConfigView {
    border_gradient_color_step(border_effect_speed_step(border_effect_step(inactive_border_color_step(active_border_color_step(grain_intensity_step(grain_step(focus_opacity_step(opacity_step(blur_step(border_width_step(rounding_step(focus_follows_mouse_step(animation_open_step(animation_bezier_step(animation_duration_step(animation_enabled_step(outer_gap_step(inner_gap_step(c, doc), doc), doc), doc), doc), doc), doc), doc), doc), doc), doc), doc), doc), doc), doc), doc), doc), doc), doc)
}

fn apply_blocks(config: &mut Config, doc: &[ConfigNode])
    requires
        colors_ok(nodes_view(doc@)),
    ensures
        final(config)@ == blocks_section(old(config)@, nodes_view(doc@)),
{
    apply_inner_gap(config, doc);
    apply_outer_gap(config, doc);
    apply_animation_enabled(config, doc);
    apply_animation_duration(config, doc);
    apply_animation_bezier(config, doc);
    apply_animation_open(config, doc);
    apply_focus_follows_mouse(config, doc);
    apply_rounding(config, doc);
    apply_border_width(config, doc);
    apply_blur(config, doc);
    apply_opacity(config, doc);
    apply_focus_opacity(config, doc);
    apply_grain(config, doc);
    apply_grain_intensity(config, doc);
    apply_active_border_color(config, doc);
    apply_inactive_border_color(config, doc);
    apply_border_effect(config, doc);
    apply_border_effect_speed(config, doc);
    apply_border_gradient_color(config, doc);
}

} // verus!

verus! {

/// The first node named `a`, else the first named `b`.
pub open spec fn doc_either(doc: Seq<NodeView>, a: Seq<char>, b: Seq<char>) -> Option<NodeView> {
    match doc_get(doc, a) {
        Some(x) => Some(x),
        None => doc_get(doc, b),
    }
}

/// The first child named `a` of `n`, else the first named `b`.
pub open spec fn child_either(n: Option<NodeView>, a: Seq<char>, b: Seq<char>) -> Option<NodeView> {
    match child(n, a) {
        Some(x) => Some(x),
        None => child(n, b),
    }
}

fn find_either<'a>(doc: &'a [ConfigNode], a: &str, b: &str) -> (r: Option<&'a ConfigNode>)
    ensures
        opt_node(r) == doc_either(nodes_view(doc@), a@, b@),
{
    match find_node(doc, a) {
        Some(x) => Some(x),
        None => find_node(doc, b),
    }
}

fn child_either_node<'a>(n: Option<&'a ConfigNode>, a: &str, b: &str) -> (r: Option<&'a ConfigNode>)
    ensures
        opt_node(r) == child_either(opt_node(n), a@, b@),
{
    match child_node(n, a) {
        Some(x) => Some(x),
        None => child_node(n, b),
    }
}

pub open spec fn xcursor_theme_step(c: ConfigView, doc: Seq<NodeView>) -> ConfigView {
    ConfigView {
        xcursor_theme: or_keep(
            node_text(doc_either(doc, "xcursor-theme"@, "xcursor_theme"@)),
            c.xcursor_theme,
        ),
        ..c
    }
}

fn apply_xcursor_theme(config: &mut Config, doc: &[ConfigNode])
    ensures
        final(config)@ == xcursor_theme_step(old(config)@, nodes_view(doc@)),
{
    if let Some(v) = text_value(find_either(doc, "xcursor-theme", "xcursor_theme")) {
        set_xcursor_theme(config, v);
    }
}

/// The cursor size: at least 8.
pub open spec fn xcursor_size_step(c: ConfigView, doc: Seq<NodeView>) -> ConfigView {
    ConfigView {
        xcursor_size: match node_int(doc_either(doc, "xcursor-size"@, "xcursor_size"@)) {
            Some(i) => (if i > 8 {
                i
            } else {
                8
            }) as i32,
            None => c.xcursor_size,
        },
        ..c
    }
}

fn apply_xcursor_size(config: &mut Config, doc: &[ConfigNode])
    ensures
        final(config)@ == xcursor_size_step(old(config)@, nodes_view(doc@)),
{
    if let Some(v) = int_value(find_either(doc, "xcursor-size", "xcursor_size")) {
        let m: i128 = if v > 8 {
            v
        } else {
            8
        };
        set_xcursor_size(config, m as i32);
    }
}

/// `welcome` alone or `welcome #true` shows the tour; `welcome #false`
/// does not.
pub open spec fn welcome_step(c: ConfigView, doc: Seq<NodeView>) -> ConfigView {
    ConfigView { welcome: or_keep(node_flag(doc_get(doc, "welcome"@)), c.welcome), ..c }
}

fn apply_welcome(config: &mut Config, doc: &[ConfigNode])
    ensures
        final(config)@ == welcome_step(old(config)@, nodes_view(doc@)),
{
    if let Some(v) = flag_value(find_node(doc, "welcome")) {
        set_welcome(config, v);
    }
}

pub open spec fn input_follows_step(c: ConfigView, doc: Seq<NodeView>) -> ConfigView {
    ConfigView { focus_follows_mouse: or_keep(node_flag(child_either(doc_get(doc, "input"@), "focus-follows-mouse"@, "focus_follows_mouse"@)), c.focus_follows_mouse), ..c }
}

fn apply_input_follows(config: &mut Config, doc: &[ConfigNode])
    ensures
        final(config)@ == input_follows_step(old(config)@, nodes_view(doc@)),
{
    if let Some(v) = flag_value(child_either_node(find_node(doc, "input"), "focus-follows-mouse", "focus_follows_mouse")) {
        set_focus_follows_mouse(config, v);
    }
}

pub open spec fn xkb_rules_step(c: ConfigView, doc: Seq<NodeView>) -> ConfigView {
    ConfigView { xkb_rules: or_keep(node_text(child(child(child(doc_get(doc, "input"@), "keyboard"@), "xkb"@), "rules"@)), c.xkb_rules), ..c }
}

fn apply_xkb_rules(config: &mut Config, doc: &[ConfigNode])
    ensures
        final(config)@ == xkb_rules_step(old(config)@, nodes_view(doc@)),
{
    if let Some(v) = text_value(child_node(child_node(child_node(find_node(doc, "input"), "keyboard"), "xkb"), "rules")) {
        set_xkb_rules(config, v);
    }
}

pub open spec fn xkb_model_step(c: ConfigView, doc: Seq<NodeView>) -> ConfigView {
    ConfigView { xkb_model: or_keep(node_text(child(child(child(doc_get(doc, "input"@), "keyboard"@), "xkb"@), "model"@)), c.xkb_model), ..c }
}

fn apply_xkb_model(config: &mut Config, doc: &[ConfigNode])
    ensures
        final(config)@ == xkb_model_step(old(config)@, nodes_view(doc@)),
{
    if let Some(v) = text_value(child_node(child_node(child_node(find_node(doc, "input"), "keyboard"), "xkb"), "model")) {
        set_xkb_model(config, v);
    }
}

pub open spec fn xkb_layout_step(c: ConfigView, doc: Seq<NodeView>) -> ConfigView {
    ConfigView { xkb_layout: or_keep(node_text(child(child(child(doc_get(doc, "input"@), "keyboard"@), "xkb"@), "layout"@)), c.xkb_layout), ..c }
}

fn apply_xkb_layout(config: &mut Config, doc: &[ConfigNode])
    ensures
        final(config)@ == xkb_layout_step(old(config)@, nodes_view(doc@)),
{
    if let Some(v) = text_value(child_node(child_node(child_node(find_node(doc, "input"), "keyboard"), "xkb"), "layout")) {
        set_xkb_layout(config, v);
    }
}

pub open spec fn xkb_variant_step(c: ConfigView, doc: Seq<NodeView>) -> ConfigView {
    ConfigView { xkb_variant: or_keep(node_text(child(child(child(doc_get(doc, "input"@), "keyboard"@), "xkb"@), "variant"@)), c.xkb_variant), ..c }
}

fn apply_xkb_variant(config: &mut Config, doc: &[ConfigNode])
    ensures
        final(config)@ == xkb_variant_step(old(config)@, nodes_view(doc@)),
{
    if let Some(v) = text_value(child_node(child_node(child_node(find_node(doc, "input"), "keyboard"), "xkb"), "variant")) {
        set_xkb_variant(config, v);
    }
}

pub open spec fn xkb_options_step(c: ConfigView, doc: Seq<NodeView>) -> ConfigView {
    ConfigView { xkb_options: or_keep(node_text(child(child(child(doc_get(doc, "input"@), "keyboard"@), "xkb"@), "options"@)), c.xkb_options), ..c }
}

fn apply_xkb_options(config: &mut Config, doc: &[ConfigNode])
    ensures
        final(config)@ == xkb_options_step(old(config)@, nodes_view(doc@)),
{
    if let Some(v) = text_value(child_node(child_node(child_node(find_node(doc, "input"), "keyboard"), "xkb"), "options")) {
        set_xkb_options(config, v);
    }
}

pub open spec fn touchpad_tap_step(c: ConfigView, doc: Seq<NodeView>) -> ConfigView {
    ConfigView { touchpad_tap: or_keep(node_flag(child(child(doc_get(doc, "input"@), "touchpad"@), "tap"@)), c.touchpad_tap), ..c }
}

fn apply_touchpad_tap(config: &mut Config, doc: &[ConfigNode])
    ensures
        final(config)@ == touchpad_tap_step(old(config)@, nodes_view(doc@)),
{
    if let Some(v) = flag_value(child_node(child_node(find_node(doc, "input"), "touchpad"), "tap")) {
        set_touchpad_tap(config, v);
    }
}

pub open spec fn touchpad_natural_scroll_step(c: ConfigView, doc: Seq<NodeView>) -> ConfigView {
    ConfigView { touchpad_natural_scroll: or_keep(node_flag(child_either(child(doc_get(doc, "input"@), "touchpad"@), "natural-scroll"@, "natural_scroll"@)), c.touchpad_natural_scroll), ..c }
}

fn apply_touchpad_natural_scroll(config: &mut Config, doc: &[ConfigNode])
    ensures
        final(config)@ == touchpad_natural_scroll_step(old(config)@, nodes_view(doc@)),
{
    if let Some(v) = flag_value(child_either_node(child_node(find_node(doc, "input"), "touchpad"), "natural-scroll", "natural_scroll")) {
        set_touchpad_natural_scroll(config, v);
    }
}

pub open spec fn touchpad_accel_profile_step(c: ConfigView, doc: Seq<NodeView>) -> ConfigView {
    ConfigView { touchpad_accel_profile: or_keep(node_text(child_either(child(doc_get(doc, "input"@), "touchpad"@), "accel-profile"@, "accel_profile"@)), c.touchpad_accel_profile), ..c }
}

fn apply_touchpad_accel_profile(config: &mut Config, doc: &[ConfigNode])
    ensures
        final(config)@ == touchpad_accel_profile_step(old(config)@, nodes_view(doc@)),
{
    if let Some(v) = text_value(child_either_node(child_node(find_node(doc, "input"), "touchpad"), "accel-profile", "accel_profile")) {
        set_touchpad_accel_profile(config, v);
    }
}

pub open spec fn touchpad_accel_speed_step(c: ConfigView, doc: Seq<NodeView>) -> ConfigView {
    ConfigView { touchpad_accel_speed: number_setting(node_number(child_either(child(doc_get(doc, "input"@), "touchpad"@), "accel-speed"@, "accel_speed"@)), c.touchpad_accel_speed), ..c }
}

fn apply_touchpad_accel_speed(config: &mut Config, doc: &[ConfigNode])
    ensures
        final(config)@ == touchpad_accel_speed_step(old(config)@, nodes_view(doc@)),
{
    if let Some(v) = node_number_value(child_either_node(child_node(find_node(doc, "input"), "touchpad"), "accel-speed", "accel_speed")) {
        set_touchpad_accel_speed(config, Some(v));
    }
}

pub open spec fn touchpad_click_method_step(c: ConfigView, doc: Seq<NodeView>) -> ConfigView {
    ConfigView { touchpad_click_method: or_keep(node_text(child_either(child(doc_get(doc, "input"@), "touchpad"@), "click-method"@, "click_method"@)), c.touchpad_click_method), ..c }
}

fn apply_touchpad_click_method(config: &mut Config, doc: &[ConfigNode])
    ensures
        final(config)@ == touchpad_click_method_step(old(config)@, nodes_view(doc@)),
{
    if let Some(v) = text_value(child_either_node(child_node(find_node(doc, "input"), "touchpad"), "click-method", "click_method")) {
        set_touchpad_click_method(config, v);
    }
}

pub open spec fn touchpad_dwt_step(c: ConfigView, doc: Seq<NodeView>) -> ConfigView {
    ConfigView { touchpad_dwt: or_keep(node_flag(child_either(child(doc_get(doc, "input"@), "touchpad"@), "disable-while-typing"@, "disable_while_typing"@)), c.touchpad_dwt), ..c }
}

fn apply_touchpad_dwt(config: &mut Config, doc: &[ConfigNode])
    ensures
        final(config)@ == touchpad_dwt_step(old(config)@, nodes_view(doc@)),
{
    if let Some(v) = flag_value(child_either_node(child_node(find_node(doc, "input"), "touchpad"), "disable-while-typing", "disable_while_typing")) {
        set_touchpad_dwt(config, v);
    }
}

pub open spec fn mouse_natural_scroll_step(c: ConfigView, doc: Seq<NodeView>) -> ConfigView {
    ConfigView { mouse_natural_scroll: or_keep(node_flag(child_either(child(doc_get(doc, "input"@), "mouse"@), "natural-scroll"@, "natural_scroll"@)), c.mouse_natural_scroll), ..c }
}

fn apply_mouse_natural_scroll(config: &mut Config, doc: &[ConfigNode])
    ensures
        final(config)@ == mouse_natural_scroll_step(old(config)@, nodes_view(doc@)),
{
    if let Some(v) = flag_value(child_either_node(child_node(find_node(doc, "input"), "mouse"), "natural-scroll", "natural_scroll")) {
        set_mouse_natural_scroll(config, v);
    }
}

pub open spec fn mouse_accel_profile_step(c: ConfigView, doc: Seq<NodeView>) -> ConfigView {
    ConfigView { mouse_accel_profile: or_keep(node_text(child_either(child(doc_get(doc, "input"@), "mouse"@), "accel-profile"@, "accel_profile"@)), c.mouse_accel_profile), ..c }
}

fn apply_mouse_accel_profile(config: &mut Config, doc: &[ConfigNode])
    ensures
        final(config)@ == mouse_accel_profile_step(old(config)@, nodes_view(doc@)),
{
    if let Some(v) = text_value(child_either_node(child_node(find_node(doc, "input"), "mouse"), "accel-profile", "accel_profile")) {
        set_mouse_accel_profile(config, v);
    }
}

pub open spec fn mouse_accel_speed_step(c: ConfigView, doc: Seq<NodeView>) -> ConfigView {
    ConfigView { mouse_accel_speed: number_setting(node_number(child_either(child(doc_get(doc, "input"@), "mouse"@), "accel-speed"@, "accel_speed"@)), c.mouse_accel_speed), ..c }
}

fn apply_mouse_accel_speed(config: &mut Config, doc: &[ConfigNode])
    ensures
        final(config)@ == mouse_accel_speed_step(old(config)@, nodes_view(doc@)),
{
    if let Some(v) = node_number_value(child_either_node(child_node(find_node(doc, "input"), "mouse"), "accel-speed", "accel_speed")) {
        set_mouse_accel_speed(config, Some(v));
    }
}

/// `xcursor-theme`, `xcursor-size`, `welcome` and the `input` block
/// (keyboard layout, touchpad and mouse).
pub open spec fn devices_section(c: ConfigView, doc: Seq<NodeView>) -> ConfigView {
    mouse_accel_speed_step(mouse_accel_profile_step(mouse_natural_scroll_step(touchpad_dwt_step(touchpad_click_method_step(touchpad_accel_speed_step(touchpad_accel_profile_step(touchpad_natural_scroll_step(touchpad_tap_step(xkb_options_step(xkb_variant_step(xkb_layout_step(xkb_model_step(xkb_rules_step(input_follows_step(welcome_step(xcursor_size_step(xcursor_theme_step(c, doc), doc), doc), doc), doc), doc), doc), doc), doc), doc), doc), doc), doc), doc), doc), doc), doc), doc)
}

fn apply_devices(config: &mut Config, doc: &[ConfigNode])
    ensures
        final(config)@ == devices_section(old(config)@, nodes_view(doc@)),
{
    apply_xcursor_theme(config, doc);
    apply_xcursor_size(config, doc);
    apply_welcome(config, doc);
    apply_input_follows(config, doc);
    apply_xkb_rules(config, doc);
    apply_xkb_model(config, doc);
    apply_xkb_layout(config, doc);
    apply_xkb_variant(config, doc);
    apply_xkb_options(config, doc);
    apply_touchpad_tap(config, doc);
    apply_touchpad_natural_scroll(config, doc);
    apply_touchpad_accel_profile(config, doc);
    apply_touchpad_accel_speed(config, doc);
    apply_touchpad_click_method(config, doc);
    apply_touchpad_dwt(config, doc);
    apply_mouse_natural_scroll(config, doc);
    apply_mouse_accel_profile(config, doc);
    apply_mouse_accel_speed(config, doc);
}

} // verus!

verus! {

/// The strings among `vs`, in order (empty ones included).
pub open spec fn all_texts(vs: Seq<ValueView>) -> Seq<Seq<char>>
    decreases vs.len(),
{
    if vs.len() == 0 {
        Seq::<Seq<char>>::empty()
    } else {
        let r = all_texts(vs.drop_last());
        match vs.last() {
            ValueView::Text(s) => r.push(s),
            _ => r,
        }
    }
}

/// A `bindm` spec whose key part did not parse as a mouse button gets a
/// second chance from its last raw `+`-separated piece.
pub open spec fn fallback_button(spec: Seq<char>) -> Option<u32> {
    let last = crate::text::pieces_by(spec, crate::text::is_sep('+')).last();
    if crate::keybind::has_prefix(last, "mouse:"@) {
        match crate::text::parse_unsigned_spec(last.skip("mouse:"@.len() as int), u32::MAX as nat) {
            Some(n) => Some(n as u32),
            None => None,
        }
    } else {
        None
    }
}

/// The binding of a `bind "<spec>" "<action>"` or `bindm ...` node; `None`
/// for other nodes, fewer than two strings, a spec without parts, or a
/// `bindm` without a mouse button.
pub open spec fn bind_of(n: NodeView) -> Option<KeybindView> {
    let es = all_texts(n.entries);
    if (n.name != "bind"@ && n.name != "bindm"@) || es.len() < 2 {
        None
    } else if n.name == "bindm"@ {
        match parse_spec(es[0], es[1]) {
            Some(kb) => if kb.mouse_button is Some {
                Some(kb)
            } else {
                match fallback_button(es[0]) {
                    Some(b) => Some(KeybindView { mouse_button: Some(b), ..kb }),
                    None => None,
                }
            },
            None => None,
        }
    } else {
        parse_spec(es[0], es[1])
    }
}

/// The bindings of the first `k` nodes of a `keybinds` block, in order.
pub open spec fn binds_upto(cs: Seq<NodeView>, k: int) -> Seq<KeybindView>
    decreases k,
{
    if k <= 0 {
        Seq::<KeybindView>::empty()
    } else {
        let r = binds_upto(cs, k - 1);
        match bind_of(cs[k - 1]) {
            Some(kb) => r.push(kb),
            None => r,
        }
    }
}

/// Two bindings occupy the same slot: same modifiers, key and button.
pub open spec fn same_slot(a: KeybindView, b: KeybindView) -> bool {
    a.modifiers == b.modifiers && a.key == b.key && a.mouse_button == b.mouse_button
}

/// The bindings of `es` outside `kb`'s slot, in order.
pub open spec fn without_slot(es: Seq<KeybindView>, kb: KeybindView) -> Seq<KeybindView>
    decreases es.len(),
{
    if es.len() == 0 {
        es
    } else {
        let r = without_slot(es.drop_last(), kb);
        if same_slot(es.last(), kb) {
            r
        } else {
            r.push(es.last())
        }
    }
}

/// Merge `parsed` into `es`: each new binding replaces those of its slot
/// and goes last.
pub open spec fn merge_binds(es: Seq<KeybindView>, parsed: Seq<KeybindView>) -> Seq<KeybindView>
    decreases parsed.len(),
{
    if parsed.len() == 0 {
        es
    } else {
        without_slot(merge_binds(es, parsed.drop_last()), parsed.last()).push(parsed.last())
    }
}

/// The first document with bindings replaces the built-in ones; later
/// documents merge theirs in.
pub open spec fn keybinds_step(c: ConfigView, doc: Seq<NodeView>) -> ConfigView {
    match doc_get(doc, "keybinds"@) {
        Some(k) => match k.children {
            Some(cs) => {
                let parsed = binds_upto(cs, cs.len() as int);
                if parsed.len() == 0 {
                    c
                } else if !c.keybindings_from_file {
                    ConfigView { keybindings: parsed, keybindings_from_file: true, ..c }
                } else {
                    ConfigView { keybindings: merge_binds(c.keybindings, parsed), ..c }
                }
            },
            None => c,
        },
        None => c,
    }
}

fn all_text_values(vs: &Vec<ConfigValue>) -> (r: Vec<String>)
    ensures
        strings_view(r@) == all_texts(values_view(vs@)),
{
    let ghost vv = values_view(vs@);
    let mut r: Vec<String> = Vec::new();
    let mut i: usize = 0;
    while i < vs.len()
        invariant
            i <= vs@.len(),
            vv == values_view(vs@),
            strings_view(r@) == all_texts(vv.take(i as int)),
        decreases vs@.len() - i,
    {
        proof {
            assert(vv.take(i + 1).drop_last() =~= vv.take(i as int));
            assert(vv.take(i + 1).last() == crate::kdl_doc::value_view(vs@[i as int]));
        }
        match &vs[i] {
            ConfigValue::Text(s) => {
                r.push(s.clone());
                proof {
                    assert(strings_view(r@) =~= all_texts(vv.take(i as int)).push(s@));
                }
            },
            _ => {},
        }
        i = i + 1;
    }
    proof {
        assert(vv.take(vs@.len() as int) =~= vv);
    }
    r
}

fn fallback_button_of(spec: &str) -> (r: Option<u32>)
    ensures
        r == fallback_button(spec@),
{
    let cs = chars_of(spec);
    let pieces = crate::text::split_on(cs.as_slice(), '+');
    proof {
        crate::text::lemma_pieces_nonempty(spec@, crate::text::is_sep('+'));
        assert(crate::text::deep(pieces@).last() == pieces@[pieces@.len() - 1]@);
    }
    let last = &pieces[pieces.len() - 1];
    let prefix = chars_of("mouse:");
    if crate::text::chars_starts_with(last.as_slice(), prefix.as_slice()) {
        let rest = crate::text::chars_skip(last.as_slice(), prefix.len());
        match crate::text::parse_unsigned(rest.as_slice(), 0xffff_ffff) {
            Some(b) => Some(b as u32),
            None => None,
        }
    } else {
        None
    }
}

fn bind_of_node(n: &ConfigNode) -> (r: Option<Keybind>)
    ensures
        match r {
            Some(kb) => bind_of(node_view(*n)) == Some(kb@),
            None => bind_of(node_view(*n)) is None,
        },
{
    let is_bind = str_eq(n.name.as_str(), "bind");
    let is_bindm = str_eq(n.name.as_str(), "bindm");
    let es = all_text_values(&n.entries);
    if !(is_bind || is_bindm) || es.len() < 2 {
        return None;
    }
    proof {
        assert(strings_view(es@)[0] == es@[0]@);
        assert(strings_view(es@)[1] == es@[1]@);
    }
    let parsed = Keybind::parse(es[0].as_str(), es[1].as_str());
    if is_bindm {
        match parsed {
            Some(kb) => {
                if kb.is_mouse() {
                    Some(kb)
                } else {
                    match fallback_button_of(es[0].as_str()) {
                        Some(b) => {
                            let mut kb = kb;
                            kb.mouse_button = Some(b);
                            Some(kb)
                        },
                        None => None,
                    }
                }
            },
            None => None,
        }
    } else {
        parsed
    }
}

fn same_strings(a: &[String], b: &[String]) -> (r: bool)
    ensures
        r == (strings_view(a@) == strings_view(b@)),
{
    if a.len() != b.len() {
        proof {
            assert(strings_view(a@).len() != strings_view(b@).len());
        }
        return false;
    }
    let mut i: usize = 0;
    while i < a.len()
        invariant
            i <= a@.len(),
            a@.len() == b@.len(),
            forall|j: int| 0 <= j < i ==> a@[j]@ == b@[j]@,
        decreases a@.len() - i,
    {
        if !str_eq(a[i].as_str(), b[i].as_str()) {
            proof {
                assert(strings_view(a@)[i as int] != strings_view(b@)[i as int]);
            }
            return false;
        }
        i = i + 1;
    }
    proof {
        assert(strings_view(a@) =~= strings_view(b@));
    }
    true
}

fn same_slot_of(a: &Keybind, b: &Keybind) -> (r: bool)
    ensures
        r == same_slot(a@, b@),
{
    let buttons = match (a.mouse_button, b.mouse_button) {
        (Some(x), Some(y)) => x == y,
        (None, None) => true,
        _ => false,
    };
    same_strings(a.modifiers.as_slice(), b.modifiers.as_slice()) && str_eq(
        a.key.as_str(),
        b.key.as_str(),
    ) && buttons
}

/// Put `kb` into its slot: the bindings of the same slot leave, `kb` goes
/// last.
fn merge_binding(binds: Vec<Keybind>, kb: Keybind) -> (r: Vec<Keybind>)
    ensures
        crate::input::binds_view(r@) == without_slot(crate::input::binds_view(binds@), kb@).push(
            kb@,
        ),
{
    let ghost bv = crate::input::binds_view(binds@);
    let mut rest = binds;
    let mut kept: Vec<Keybind> = Vec::new();
    let ghost mut taken: int = 0;
    proof {
        assert(bv.skip(0) =~= bv);
        assert(bv.take(0) =~= Seq::<KeybindView>::empty());
    }
    while rest.len() > 0
        invariant
            0 <= taken <= bv.len(),
            rest@.len() == bv.len() - taken,
            crate::input::binds_view(rest@) == bv.skip(taken),
            crate::input::binds_view(kept@) == without_slot(bv.take(taken), kb@),
        decreases rest@.len(),
    {
        let ghost old_rest = rest@;
        let x = rest.remove(0);
        proof {
            assert(bv.skip(taken)[0] == x@);
            assert(rest@ =~= old_rest.subrange(1, old_rest.len() as int));
            assert forall|k: int| 0 <= k < rest@.len() implies #[trigger] crate::input::binds_view(rest@)[k] == bv.skip(taken + 1)[k] by {
                assert(crate::input::binds_view(old_rest)[k + 1] == bv.skip(taken)[k + 1]);
            }
            assert(bv.take(taken + 1).drop_last() =~= bv.take(taken));
            assert(bv.take(taken + 1).last() == x@);
            assert(crate::input::binds_view(rest@) =~= bv.skip(taken + 1));
        }
        if !same_slot_of(&x, &kb) {
            kept.push(x);
            proof {
                assert(crate::input::binds_view(kept@) =~= without_slot(bv.take(taken), kb@).push(
                    x@,
                ));
            }
        }
        proof {
            taken = taken + 1;
        }
    }
    proof {
        assert(bv.skip(taken).len() == 0);
        assert(bv.take(taken) =~= bv);
    }
    kept.push(kb);
    proof {
        assert(crate::input::binds_view(kept@) =~= without_slot(bv, kb@).push(kb@));
    }
    kept
}

fn apply_keybinds(config: &mut Config, doc: &[ConfigNode])
    ensures
        final(config)@ == keybinds_step(old(config)@, nodes_view(doc@)),
{
    let k = match find_node(doc, "keybinds") {
        Some(k) => k,
        None => {
            return;
        },
    };
    let cs = match &k.children {
        Some(cs) => cs,
        None => {
            return;
        },
    };
    proof {
        lemma_nodes_view_len(cs@);
    }
    let ghost cv = nodes_view(cs@);
    let mut parsed: Vec<Keybind> = Vec::new();
    let mut i: usize = 0;
    while i < cs.len()
        invariant
            i <= cs@.len(),
            cv == nodes_view(cs@),
            cv.len() == cs@.len(),
            forall|j: int| 0 <= j < cs@.len() ==> #[trigger] cv[j] == node_view(cs@[j]),
            crate::input::binds_view(parsed@) == binds_upto(cv, i as int),
        decreases cs@.len() - i,
    {
        assert(cv[i as int] == node_view(cs@[i as int]));
        match bind_of_node(&cs[i]) {
            Some(kb) => {
                parsed.push(kb);
                proof {
                    assert(crate::input::binds_view(parsed@) =~= binds_upto(cv, i as int).push(
                        kb@,
                    ));
                }
            },
            None => {},
        }
        i = i + 1;
    }
    if parsed.len() == 0 {
        return;
    }
    if !config.keybindings_from_file {
        set_keybindings(config, parsed);
        set_keybindings_from_file(config, true);
    } else {
        let ghost start = config@;
        let ghost pv = crate::input::binds_view(parsed@);
        let mut binds: Vec<Keybind> = Vec::new();
        std::mem::swap(&mut binds, &mut config.keybindings);
        proof {
            assert(config@.keybindings =~= Seq::<KeybindView>::empty());
            assert(crate::input::binds_view(binds@) == start.keybindings);
            assert(pv.take(0) =~= Seq::<KeybindView>::empty());
            assert(pv.skip(0) =~= pv);
            assert(pv.len() == parsed@.len());
        }
        let mut j: usize = 0;
        let mut rest = parsed;
        while rest.len() > 0
            invariant
                0 <= j <= pv.len(),
                pv.len() <= usize::MAX,
                rest@.len() == pv.len() - j,
                crate::input::binds_view(rest@) == pv.skip(j as int),
                crate::input::binds_view(binds@) == merge_binds(start.keybindings, pv.take(j as int)),
                config@ == (ConfigView { keybindings: Seq::<KeybindView>::empty(), ..start }),
            decreases rest@.len(),
        {
            let ghost old_rest = rest@;
            let kb = rest.remove(0);
            proof {
                assert(pv.skip(j as int)[0] == kb@);
                assert(rest@ =~= old_rest.subrange(1, old_rest.len() as int));
                assert forall|k: int| 0 <= k < rest@.len() implies #[trigger] crate::input::binds_view(rest@)[k] == pv.skip(j + 1)[k] by {
                    assert(crate::input::binds_view(old_rest)[k + 1] == pv.skip(j as int)[k + 1]);
                }
                assert(pv.take(j + 1).drop_last() =~= pv.take(j as int));
                assert(pv.take(j + 1).last() == kb@);
                assert(crate::input::binds_view(rest@) =~= pv.skip(j + 1));
            }
            binds = merge_binding(binds, kb);
            j = j + 1;
        }
        proof {
            assert(pv.take(j as int) =~= pv);
        }
        set_keybindings(config, binds);
    }
}

} // verus!

verus! {

/// A rule that matches nothing and asks for nothing.
pub open spec fn empty_rule() -> RuleView {
    RuleView {
        app_id: Seq::<char>::empty(),
        title: Seq::<char>::empty(),
        float: false,
        opacity: None,
        workspace: None,
        center: false,
    }
}

/// What one child of a `windowrule` block sets.
pub open spec fn rule_child(r: RuleView, ch: NodeView) -> RuleView {
    let tag = ch.name;
    let n = Some(ch);
    if tag == "app_id"@ || tag == "appid"@ || tag == "class"@ {
        RuleView { app_id: or_keep(node_text(n), r.app_id), ..r }
    } else if tag == "title"@ {
        RuleView { title: or_keep(node_text(n), r.title), ..r }
    } else if tag == "float"@ || tag == "floating"@ {
        RuleView { float: or_keep(node_bool(n), true), ..r }
    } else if tag == "opacity"@ {
        RuleView { opacity: number_setting(node_number(n), r.opacity), ..r }
    } else if tag == "workspace"@ || tag == "ws"@ {
        match node_int(n) {
            Some(i) => if 1 <= i <= 9 {
                RuleView { workspace: Some(i as u8), ..r }
            } else {
                r
            },
            None => r,
        }
    } else if tag == "center"@ {
        RuleView { center: or_keep(node_bool(n), true), ..r }
    } else {
        r
    }
}

/// The rule after its first `k` children.
pub open spec fn rule_children_upto(r: RuleView, cs: Seq<NodeView>, k: int) -> RuleView
    decreases k,
{
    if k <= 0 {
        r
    } else {
        rule_child(rule_children_upto(r, cs, k - 1), cs[k - 1])
    }
}

/// ASCII lower-casing of a character's code.
pub open spec fn lower_code(c: char) -> u32 {
    if 65 <= (c as u32) && (c as u32) <= 90 {
        (c as u32 + 32) as u32
    } else {
        c as u32
    }
}

/// `str::eq_ignore_ascii_case`.
pub open spec fn eq_ignore_case(s: Seq<char>, lit: Seq<char>) -> bool {
    s.len() == lit.len() && forall|i: int| 0 <= i < s.len() ==> lower_code(#[trigger] s[i])
        == lower_code(lit[i])
}

/// What the `i`-th entry of a `windowrule` node sets: the first string is
/// the app id (unless a child set one), `float` and `center` (any case)
/// are flags.
pub open spec fn rule_entry(r: RuleView, i: int, v: ValueView) -> RuleView {
    match v {
        ValueView::Text(s) => if i == 0 && r.app_id.len() == 0 {
            RuleView { app_id: s, ..r }
        } else if eq_ignore_case(s, "float"@) {
            RuleView { float: true, ..r }
        } else if eq_ignore_case(s, "center"@) {
            RuleView { center: true, ..r }
        } else {
            r
        },
        _ => r,
    }
}

/// The rule after its first `k` entries.
pub open spec fn rule_entries_upto(r: RuleView, vs: Seq<ValueView>, k: int) -> RuleView
    decreases k,
{
    if k <= 0 {
        r
    } else {
        rule_entry(rule_entries_upto(r, vs, k - 1), k - 1, vs[k - 1])
    }
}

/// A rule that matches or asks for something.
pub open spec fn rule_is_set(r: RuleView) -> bool {
    r.app_id.len() > 0 || r.title.len() > 0 || r.float || r.opacity is Some || r.workspace is Some
        || r.center
}

/// The rule of a `windowrule` (or `window_rule`) node: children first, then
/// its own entries; `None` for other nodes and for empty rules.
pub open spec fn rule_of(n: NodeView) -> Option<RuleView> {
    if n.name != "windowrule"@ && n.name != "window_rule"@ {
        None
    } else {
        let r1 = match n.children {
            Some(cs) => rule_children_upto(empty_rule(), cs, cs.len() as int),
            None => empty_rule(),
        };
        let r2 = rule_entries_upto(r1, n.entries, n.entries.len() as int);
        if rule_is_set(r2) {
            Some(r2)
        } else {
            None
        }
    }
}

/// The rules of the first `k` nodes, in order.
pub open spec fn rules_upto(doc: Seq<NodeView>, k: int) -> Seq<RuleView>
    decreases k,
{
    if k <= 0 {
        Seq::<RuleView>::empty()
    } else {
        let r = rules_upto(doc, k - 1);
        match rule_of(doc[k - 1]) {
            Some(x) => r.push(x),
            None => r,
        }
    }
}

/// Window rules are appended in document order.
pub open spec fn rules_step(c: ConfigView, doc: Seq<NodeView>) -> ConfigView {
    ConfigView { window_rules: c.window_rules + rules_upto(doc, doc.len() as int), ..c }
}

fn lower_code_of(c: char) -> (r: u32)
    ensures
        r == lower_code(c),
{
    let v = c as u32;
    if 65 <= v && v <= 90 {
        v + 32
    } else {
        v
    }
}

pub(crate) fn eq_ignore_case_lit(s: &str, lit: &str) -> (b: bool)
    ensures
        b == eq_ignore_case(s@, lit@),
{
    let a = chars_of(s);
    let l = chars_of(lit);
    if a.len() != l.len() {
        return false;
    }
    let mut i: usize = 0;
    while i < a.len()
        invariant
            i <= a@.len(),
            a@ == s@,
            l@ == lit@,
            a@.len() == l@.len(),
            forall|j: int| 0 <= j < i ==> lower_code(#[trigger] a@[j]) == lower_code(l@[j]),
        decreases a@.len() - i,
    {
        if lower_code_of(a[i]) != lower_code_of(l[i]) {
            return false;
        }
        i = i + 1;
    }
    true
}

fn rule_with_child(r: WindowRule, ch: &ConfigNode) -> (out: WindowRule)
    ensures
        out@ == rule_child(r@, node_view(*ch)),
{
    let mut r = r;
    let tag = ch.name.as_str();
    let n = Some(ch);
    if str_eq(tag, "app_id") || str_eq(tag, "appid") || str_eq(tag, "class") {
        if let Some(v) = text_value(n) {
            r.app_id = v;
        }
    } else if str_eq(tag, "title") {
        if let Some(v) = text_value(n) {
            r.title = v;
        }
    } else if str_eq(tag, "float") || str_eq(tag, "floating") {
        r.float = match bool_value(n) {
            Some(b) => b,
            None => true,
        };
    } else if str_eq(tag, "opacity") {
        if let Some(v) = node_number_value(n) {
            r.opacity = Some(v);
        }
    } else if str_eq(tag, "workspace") || str_eq(tag, "ws") {
        if let Some(i) = int_value(n) {
            if 1 <= i && i <= 9 {
                r.workspace = Some(i as u8);
            }
        }
    } else if str_eq(tag, "center") {
        r.center = match bool_value(n) {
            Some(b) => b,
            None => true,
        };
    }
    r
}

fn rule_of_node(n: &ConfigNode) -> (r: Option<WindowRule>)
    ensures
        match r {
            Some(x) => rule_of(node_view(*n)) == Some(x@),
            None => rule_of(node_view(*n)) is None,
        },
{
    if !(str_eq(n.name.as_str(), "windowrule") || str_eq(n.name.as_str(), "window_rule")) {
        return None;
    }
    let mut rule = WindowRule {
        app_id: String::new(),
        title: String::new(),
        float: false,
        opacity: None,
        workspace: None,
        center: false,
    };
    proof {
        assert(rule@ == empty_rule());
    }
    if let Some(cs) = &n.children {
        proof {
            lemma_nodes_view_len(cs@);
        }
        let ghost cv = nodes_view(cs@);
        let mut i: usize = 0;
        while i < cs.len()
            invariant
                i <= cs@.len(),
                cv == nodes_view(cs@),
                cv.len() == cs@.len(),
                forall|j: int| 0 <= j < cs@.len() ==> #[trigger] cv[j] == node_view(cs@[j]),
                rule@ == rule_children_upto(empty_rule(), cv, i as int),
            decreases cs@.len() - i,
        {
            assert(cv[i as int] == node_view(cs@[i as int]));
            rule = rule_with_child(rule, &cs[i]);
            i = i + 1;
        }
    }
    let ghost r1 = rule@;
    let ghost vv = values_view(n.entries@);
    let mut i: usize = 0;
    while i < n.entries.len()
        invariant
            i <= n.entries@.len(),
            vv == values_view(n.entries@),
            rule@ == rule_entries_upto(r1, vv, i as int),
        decreases n.entries@.len() - i,
    {
        proof {
            assert(vv[i as int] == crate::kdl_doc::value_view(n.entries@[i as int]));
        }
        match &n.entries[i] {
            ConfigValue::Text(s) => {
                if i == 0 && chars_of(rule.app_id.as_str()).len() == 0 {
                    rule.app_id = s.clone();
                } else if eq_ignore_case_lit(s.as_str(), "float") {
                    rule.float = true;
                } else if eq_ignore_case_lit(s.as_str(), "center") {
                    rule.center = true;
                }
            },
            _ => {},
        }
        i = i + 1;
    }
    let set = chars_of(rule.app_id.as_str()).len() > 0 || chars_of(rule.title.as_str()).len() > 0
        || rule.float || rule.opacity.is_some() || rule.workspace.is_some() || rule.center;
    if set {
        Some(rule)
    } else {
        None
    }
}

fn push_rule(config: &mut Config, r: WindowRule)
    ensures
        final(config)@ == (ConfigView {
            window_rules: old(config)@.window_rules.push(r@),
            ..old(config)@
        }),
{
    config.window_rules.push(r);
    proof {
        assert(final(config)@.window_rules =~= old(config)@.window_rules.push(r@));
    }
}

fn apply_rules(config: &mut Config, doc: &[ConfigNode])
    ensures
        final(config)@ == rules_step(old(config)@, nodes_view(doc@)),
{
    proof {
        lemma_nodes_view_len(doc@);
    }
    let ghost start = config@;
    let ghost d = nodes_view(doc@);
    let mut i: usize = 0;
    while i < doc.len()
        invariant
            i <= doc@.len(),
            d == nodes_view(doc@),
            d.len() == doc@.len(),
            forall|k: int| 0 <= k < doc@.len() ==> #[trigger] d[k] == node_view(doc@[k]),
            config@ == (ConfigView {
                window_rules: start.window_rules + rules_upto(d, i as int),
                ..start
            }),
        decreases doc@.len() - i,
    {
        assert(d[i as int] == node_view(doc@[i as int]));
        match rule_of_node(&doc[i]) {
            Some(r) => {
                push_rule(config, r);
                proof {
                    assert(start.window_rules + rules_upto(d, i + 1) =~= (start.window_rules
                        + rules_upto(d, i as int)).push(r@));
                }
            },
            None => {},
        }
        i = i + 1;
    }
}

/// Every node of a document, applied onto a config: values the document
/// sets override the existing ones, monitors and window rules are appended,
/// bindings replace the built-in ones or merge into earlier documents'.
pub open spec fn apply_document_spec(c: ConfigView, doc: Seq<NodeView>) -> ConfigView {
    rules_step(
        keybinds_step(
            devices_section(blocks_section(monitors_step(general_section(c, doc), doc), doc), doc),
            doc,
        ),
        doc,
    )
}

/// What a document needs for it to be applied: its colors can be parsed.
pub open spec fn document_ok(doc: Seq<NodeView>) -> bool {
    colors_ok(doc)
}

/// Apply every node from `doc` onto an already-initialized config. Values
/// present in the document overwrite the existing ones (last applied wins).
pub fn apply_document(config: &mut Config, doc: &[ConfigNode])
    requires
        document_ok(nodes_view(doc@)),
    ensures
        final(config)@ == apply_document_spec(old(config)@, nodes_view(doc@)),
{
    apply_general(config, doc);
    apply_monitors(config, doc);
    apply_blocks(config, doc);
    apply_devices(config, doc);
    apply_keybinds(config, doc);
    apply_rules(config, doc);
}

} // verus!

verus! {

fn utf8_len_of(c: char) -> (n: usize)
    ensures
        n == utf8_len(c),
{
    let v = c as u32;
    if v < 0x80 {
        1
    } else if v < 0x800 {
        2
    } else if v < 0x10000 {
        3
    } else {
        4
    }
}

proof fn lemma_byte_len_at_least(s: Seq<char>)
    ensures
        byte_len(s) >= s.len(),
    decreases s.len(),
{
    if s.len() > 0 {
        lemma_byte_len_at_least(s.drop_last());
    }
}

proof fn lemma_byte_len_push(s: Seq<char>, c: char)
    ensures
        byte_len(s.push(c)) == byte_len(s) + utf8_len(c),
{
    assert(s.push(c).drop_last() =~= s);
}

/// `hex` without its leading `#` characters.
fn trim_hash_chars(hex: &str) -> (r: Vec<char>)
    ensures
        r@ == trim_hashes(hex@),
{
    let cs = chars_of(hex);
    let mut start: usize = 0;
    proof {
        assert(cs@.skip(0) =~= cs@);
    }
    while start < cs.len() && cs[start] == '#'
        invariant
            start <= cs@.len(),
            cs@ == hex@,
            trim_hashes(hex@) == trim_hashes(cs@.skip(start as int)),
        decreases cs@.len() - start,
    {
        proof {
            assert(cs@.skip(start as int).drop_first() =~= cs@.skip(start + 1));
        }
        start = start + 1;
    }
    let clean = crate::text::chars_skip(cs.as_slice(), start);
    proof {
        assert(trim_hashes(cs@.skip(start as int)) == cs@.skip(start as int));
    }
    clean
}

fn first_non_ascii_of(s: &[char]) -> (r: Option<usize>)
    ensures
        match r {
            Some(p) => first_non_ascii(s@) == Some(p as int) && p < s@.len(),
            None => first_non_ascii(s@) is None,
        },
{
    let mut i: usize = 0;
    while i < s.len()
        invariant
            i <= s@.len(),
            forall|j: int| 0 <= j < i ==> is_ascii_char(#[trigger] s@[j]),
        decreases s@.len() - i,
    {
        if !((s[i] as u32) < 0x80) {
            proof {
                assert(!is_ascii_char(s@[i as int]));
                let q = choose|k: int| 0 <= k < s@.len() && !is_ascii_char(s@[k]) && forall|j: int| 0 <= j < k ==> is_ascii_char(s@[j]);
                assert(q == i) by {
                    if q < i {
                        assert(is_ascii_char(s@[q]));
                    } else if q > i {
                        assert(is_ascii_char(s@[i as int]));
                    }
                }
            }
            return Some(i);
        }
        i = i + 1;
    }
    None
}

fn capped_byte_len(s: &[char]) -> (n: usize)
    ensures
        n == (if byte_len(s@) < 9 { byte_len(s@) } else { 9 }),
{
    let mut total: usize = 0;
    let mut i: usize = 0;
    while i < s.len()
        invariant
            i <= s@.len(),
            total == (if byte_len(s@.take(i as int)) < 9 { byte_len(s@.take(i as int)) } else { 9 }),
        decreases s@.len() - i,
    {
        proof {
            assert(s@.take(i + 1) =~= s@.take(i as int).push(s@[i as int]));
            lemma_byte_len_push(s@.take(i as int), s@[i as int]);
        }
        if total < 9 {
            let add = utf8_len_of(s[i]);
            total = if total + add < 9 { total + add } else { 9 };
        }
        i = i + 1;
    }
    proof {
        assert(s@.take(s@.len() as int) =~= s@);
    }
    total
}

fn pairs_ok(s: &[char], n: usize) -> (b: bool)
    requires
        n <= 4,
        2 * n <= s@.len(),
    ensures
        b == (forall|k: int| 0 <= k < n ==> #[trigger] pair_at(s@, k) is Some),
{
    let mut j: usize = 0;
    while j < n
        invariant
            j <= n <= 4,
            2 * n <= s@.len(),
            forall|k: int| 0 <= k < j ==> #[trigger] pair_at(s@, k) is Some,
        decreases n - j,
    {
        if pair_value(s, j).is_none() {
            proof {
                assert(!(pair_at(s@, j as int) is Some));
            }
            return false;
        }
        j = j + 1;
    }
    true
}

/// Whether parsing the color text `hex` would cut a character.
pub fn color_panics(hex: &str) -> (b: bool)
    ensures
        b == hex_color_panics(hex@),
{
    let clean = trim_hash_chars(hex);
    match first_non_ascii_of(clean.as_slice()) {
        None => false,
        Some(p) => {
            let total = capped_byte_len(clean.as_slice());
            if !(total == 6 || total == 8) {
                return false;
            }
            proof {
                lemma_byte_len_at_least(clean@);
            }
            if !pairs_ok(clean.as_slice(), p / 2) {
                return false;
            }
            p % 2 == 1 || utf8_len_of(clean[p]) >= 3
        },
    }
}

} // verus!

verus! {

fn color_text_ok(n: Option<&ConfigNode>) -> (b: bool)
    ensures
        b == (node_text(opt_node(n)) matches Some(t) ==> !hex_color_panics(t)),
{
    match text_value(n) {
        Some(t) => !color_panics(t.as_str()),
        None => true,
    }
}

/// Whether a document can be applied: [`document_ok`].
pub fn document_ok_check(doc: &[ConfigNode]) -> (b: bool)
    ensures
        b == document_ok(nodes_view(doc@)),
{
    let deco = find_node(doc, "decorations");
    color_text_ok(child_node(deco, "active_border_color")) && color_text_ok(
        child_node(deco, "inactive_border_color"),
    ) && color_text_ok(child_node(deco, "border_gradient_color"))
}

/// The strings of `vs` in order, of the `include` nodes in order: the
/// files a document includes.
pub open spec fn includes_upto(doc: Seq<NodeView>, k: int) -> Seq<Seq<char>>
    decreases k,
{
    if k <= 0 {
        Seq::<Seq<char>>::empty()
    } else {
        let r = includes_upto(doc, k - 1);
        if doc[k - 1].name == "include"@ {
            r + all_texts(doc[k - 1].entries)
        } else {
            r
        }
    }
}

/// The file names that a document's `include "<file>"` nodes name, in
/// order.
pub fn include_names(doc: &[ConfigNode]) -> (names: Vec<String>)
    ensures
        strings_view(names@) == includes_upto(nodes_view(doc@), doc@.len() as int),
{
    proof {
        lemma_nodes_view_len(doc@);
    }
    let ghost d = nodes_view(doc@);
    let mut names: Vec<String> = Vec::new();
    let mut i: usize = 0;
    while i < doc.len()
        invariant
            i <= doc@.len(),
            d == nodes_view(doc@),
            d.len() == doc@.len(),
            forall|k: int| 0 <= k < doc@.len() ==> #[trigger] d[k] == node_view(doc@[k]),
            strings_view(names@) == includes_upto(d, i as int),
        decreases doc@.len() - i,
    {
        assert(d[i as int] == node_view(doc@[i as int]));
        if str_eq(doc[i].name.as_str(), "include") {
            let more = all_text_values(&doc[i].entries);
            let mut k: usize = 0;
            let ghost before = strings_view(names@);
            proof {
                assert(strings_view(more@).take(0) =~= Seq::<Seq<char>>::empty());
                assert(before + strings_view(more@).take(0) =~= before);
            }
            while k < more.len()
                invariant
                    k <= more@.len(),
                    strings_view(names@) == before + strings_view(more@).take(k as int),
                    names@.len() == before.len() + k,
                decreases more@.len() - k,
            {
                let ghost old_names = names@;
                names.push(more[k].clone());
                proof {
                    assert(names@[names@.len() - 1]@ == more@[k as int]@);
                    assert(strings_view(names@) =~= strings_view(old_names).push(more@[k as int]@));
                    assert(strings_view(more@)[k as int] == more@[k as int]@);
                    assert(strings_view(names@) =~= before + strings_view(more@).take(k + 1));
                }
                k = k + 1;
            }
            proof {
                assert(strings_view(more@).take(more@.len() as int) =~= strings_view(more@));
            }
        }
        i = i + 1;
    }
    names
}

/// Includes nest at most this deep.
pub const MAX_INCLUDE_DEPTH: usize = 8;

/// Whether an include chain of this depth is refused.
pub fn include_depth_exceeded(depth: usize) -> (b: bool)
    ensures
        b == (depth > MAX_INCLUDE_DEPTH),
{
    depth > MAX_INCLUDE_DEPTH
}

} // verus!

verus! {

/// A document without nodes changes nothing.
pub proof fn lemma_empty_document_changes_nothing(c: ConfigView)
    ensures
        apply_document_spec(c, Seq::<NodeView>::empty()) == c,
{
    let e = Seq::<NodeView>::empty();
    assert(c.monitor_configs + monitors_upto(e, 0) =~= c.monitor_configs);
    assert(c.window_rules + rules_upto(e, 0) =~= c.window_rules);
}

/// Of two documents applied in turn (a file and one it includes), the
/// later one's `modifier` and `layout` win.
pub proof fn lemma_later_document_wins(c: ConfigView, first: Seq<NodeView>, second: Seq<NodeView>)
    ensures
        node_text(doc_get(second, "modifier"@)) matches Some(m) ==> apply_document_spec(
            apply_document_spec(c, first),
            second,
        ).modifier == m,
        node_text(doc_get(second, "layout"@)) matches Some(l) ==> apply_document_spec(
            apply_document_spec(c, first),
            second,
        ).layout == layout_name(l),
{
}

/// Merging bindings keeps every earlier binding whose slot no new binding
/// takes, and ends with the last new binding.
pub proof fn lemma_merge_keeps_other_slots(es: Seq<KeybindView>, parsed: Seq<KeybindView>, kb: KeybindView)
    requires
        es.contains(kb),
        forall|i: int| 0 <= i < parsed.len() ==> !same_slot(#[trigger] parsed[i], kb),
    ensures
        merge_binds(es, parsed).contains(kb),
        parsed.len() > 0 ==> merge_binds(es, parsed).last() == parsed.last(),
    decreases parsed.len(),
{
    if parsed.len() > 0 {
        let p = parsed.drop_last();
        assert forall|i: int| 0 <= i < p.len() implies !same_slot(#[trigger] p[i], kb) by {
            assert(p[i] == parsed[i]);
        }
        lemma_merge_keeps_other_slots(es, p, kb);
        assert(!same_slot(parsed[parsed.len() - 1], kb));
        lemma_without_slot_keeps(merge_binds(es, p), parsed.last(), kb);
        let w = without_slot(merge_binds(es, p), parsed.last());
        let j = choose|j: int| 0 <= j < w.len() && w[j] == kb;
        assert(w.push(parsed.last())[j] == kb);
        assert(merge_binds(es, parsed) == w.push(parsed.last()));
    }
}

proof fn lemma_without_slot_keeps(es: Seq<KeybindView>, gone: KeybindView, kb: KeybindView)
    requires
        es.contains(kb),
        !same_slot(kb, gone),
    ensures
        without_slot(es, gone).contains(kb),
    decreases es.len(),
{
    if es.len() > 0 {
        if es.last() == kb {
            assert(without_slot(es, gone).last() == kb);
        } else {
            let k = choose|k: int| 0 <= k < es.len() && es[k] == kb;
            assert(es.drop_last()[k] == kb);
            lemma_without_slot_keeps(es.drop_last(), gone, kb);
            let w = without_slot(es.drop_last(), gone);
            let j = choose|j: int| 0 <= j < w.len() && w[j] == kb;
            if !same_slot(es.last(), gone) {
                assert(w.push(es.last())[j] == kb);
            }
        }
    }
}

/// Merging removes every earlier binding of a new binding's slot but the
/// new one itself.
pub proof fn lemma_merge_drops_rebound_slot(es: Seq<KeybindView>, kb: KeybindView)
    ensures
        forall|i: int| 0 <= i < without_slot(es, kb).len() ==> !same_slot(#[trigger] without_slot(es, kb)[i], kb),
    decreases es.len(),
{
    if es.len() > 0 {
        lemma_merge_drops_rebound_slot(es.drop_last(), kb);
        let r = without_slot(es.drop_last(), kb);
        assert forall|i: int| 0 <= i < without_slot(es, kb).len() implies !same_slot(
            #[trigger] without_slot(es, kb)[i],
            kb,
        ) by {
            if i < r.len() {
                assert(without_slot(es, kb)[i] == r[i]);
            }
        }
    }
}

} // verus!

verus! {

impl Config {
    /// The keyboard's XKB settings: rules, model, layout, variant, and the
    /// options when any are set.
    pub fn xkb_parts(&self) -> (parts: (String, String, String, String, Option<String>))
        ensures
            parts.0@ == self@.xkb_rules,
            parts.1@ == self@.xkb_model,
            parts.2@ == self@.xkb_layout,
            parts.3@ == self@.xkb_variant,
            match parts.4 {
                Some(o) => self@.xkb_options.len() > 0 && o@ == self@.xkb_options,
                None => self@.xkb_options.len() == 0,
            },
    {
        let options = if crate::text::chars_of(self.xkb_options.as_str()).len() == 0 {
            None
        } else {
            Some(self.xkb_options.clone())
        };
        (self.xkb_rules.clone(), self.xkb_model.clone(), self.xkb_layout.clone(), self.xkb_variant.clone(), options)
    }
}

} // verus!
