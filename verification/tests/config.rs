use novawm::config::{
    apply_document, color_panics, document_ok_check, include_names, parse_hex_color, Config,
};
use novawm::kdl_doc::{parse_config_document, ConfigNumber, ConfigNode};

fn doc(text: &str) -> Vec<ConfigNode> {
    parse_config_document(text).expect("test document must parse")
}

fn applied(text: &str) -> Config {
    let mut config = Config::new();
    let d = doc(text);
    assert!(document_ok_check(&d));
    apply_document(&mut config, &d);
    config
}

fn opacity_of(n: ConfigNumber) -> f32 {
    match n {
        ConfigNumber::Float(bits) => (f64::from_bits(bits) as f32).clamp(0.0, 1.0),
        ConfigNumber::Integer(i) => (i as f32).clamp(0.0, 1.0),
    }
}

#[test]
fn window_rules_parse() {
    let config = applied(
        r#"
windowrule {
    app_id "mpv"
    float
    opacity 1.0
}
windowrule {
    title "Picture-in-Picture"
    float
    center
}
windowrule {
    app_id "discord"
    workspace 3
    opacity 0.95
}
"#,
    );
    assert_eq!(config.window_rules.len(), 3);
    assert_eq!(config.window_rules[0].app_id, "mpv");
    assert!(config.window_rules[0].float);
    assert_eq!(config.window_rules[0].opacity.map(opacity_of), Some(1.0));
    assert_eq!(config.window_rules[1].title, "Picture-in-Picture");
    assert!(config.window_rules[1].center);
    assert_eq!(config.window_rules[2].workspace, Some(3));
}

#[test]
fn defaults_without_a_document() {
    let c = Config::new();
    assert_eq!(c.modifier, "alt");
    assert_eq!(c.layout, "dwindle");
    assert_eq!((c.inner_gap, c.outer_gap, c.scroll_speed, c.xcursor_size), (10, 15, 400, 24));
    assert_eq!(c.keybindings.len(), 46);
    assert!(!c.keybindings_from_file);
    assert!(c.welcome && c.blur && c.grain && c.touchpad_dwt && !c.touchpad_tap);
    assert_eq!(c.animation_duration, None);
}

#[test]
fn scalar_settings_override() {
    let c = applied(
        r##"
modifier "super"
layout "scrolling"
scroll { speed 250 }
dwindle { split_ratio 0.6; split_direction "vertical" }
terminal ""
startup "waybar" "" "mako"
gaps { inner 4; outer 8 }
animations { enabled #false; duration 150; bezier 0 0.5 1 1; open "fade" }
decorations { rounding 6; active_border_color "#ff000080"; inactive_border_color "bogus" }
xcursor_size 2
welcome
input {
    focus_follows_mouse #false
    keyboard { xkb { layout "de"; options "caps:escape" } }
    touchpad { tap; accel-speed 2 }
}
"##,
    );
    assert_eq!(c.modifier, "super");
    assert_eq!(c.layout, "scroll");
    assert_eq!(c.scroll_speed, 250);
    assert_eq!(c.dwindle_split_ratio, Some(ConfigNumber::Float(0.6f64.to_bits())));
    assert_eq!(c.dwindle_split_direction, "vertical");
    assert_eq!(c.terminal, "foot");
    assert_eq!(c.startup_apps, vec!["waybar".to_string(), "mako".to_string()]);
    assert_eq!((c.inner_gap, c.outer_gap), (4, 8));
    assert!(!c.animation_enabled);
    assert_eq!(c.animation_duration, Some(ConfigNumber::Integer(150)));
    assert_eq!(
        c.animation_bezier,
        Some((ConfigNumber::Integer(0), ConfigNumber::Float(0.5f64.to_bits()), ConfigNumber::Integer(1), ConfigNumber::Integer(1)))
    );
    assert_eq!(c.animation_open, "fade");
    assert_eq!(c.rounding, 6);
    assert_eq!(c.active_border_color, Some([255, 0, 0, 128]));
    assert_eq!(c.inactive_border_color, None);
    assert_eq!(c.xcursor_size, 8);
    assert!(c.welcome);
    assert!(!c.focus_follows_mouse);
    assert_eq!(c.xkb_layout, "de");
    assert_eq!(c.xkb_options, "caps:escape");
    assert!(c.touchpad_tap);
    assert_eq!(c.touchpad_accel_speed, Some(ConfigNumber::Integer(2)));
}

#[test]
fn monitors_need_a_name_and_two_integers() {
    let c = applied(
        r#"
monitor "eDP-1" { position 0 0 }
monitor "HDMI-A-1" { position 2560 0 }
monitor "" { position 1 1 }
monitor "DP-2" { position 5 }
"#,
    );
    let got: Vec<(&str, i32, i32)> = c.monitor_configs.iter().map(|m| (m.name.as_str(), m.x, m.y)).collect();
    assert_eq!(got, vec![("eDP-1", 0, 0), ("HDMI-A-1", 2560, 0)]);
}

#[test]
fn keybinds_replace_then_merge() {
    let mut c = Config::new();
    let first = doc(r#"keybinds { bind "mod+Return" "spawn_terminal"; bind "mod+c" "close_focused"; bindm "mod+mouse:272" "move_window" }"#);
    apply_document(&mut c, &first);
    assert!(c.keybindings_from_file);
    let actions: Vec<&str> = c.keybindings.iter().map(|k| k.action.as_str()).collect();
    assert_eq!(actions, vec!["spawn_terminal", "close_focused", "move_window"]);
    let second = doc(r#"keybinds { bind "mod+c" "toggle_float"; bind "mod+equal" "canvas_zoom_in" }"#);
    apply_document(&mut c, &second);
    let actions: Vec<&str> = c.keybindings.iter().map(|k| k.action.as_str()).collect();
    assert_eq!(actions, vec!["spawn_terminal", "move_window", "toggle_float", "canvas_zoom_in"]);
    let ignored = doc(r#"keybinds { bindm "mod+c" "move_window"; unbind "x" "y"; bind "only-one" }"#);
    apply_document(&mut c, &ignored);
    assert_eq!(c.keybindings.len(), 4);
}

#[test]
fn hex_colors() {
    assert_eq!(parse_hex_color("#102030"), Some([16, 32, 48, 255]));
    assert_eq!(parse_hex_color("##a0B0c0d0"), Some([160, 176, 192, 208]));
    assert_eq!(parse_hex_color("+f+f+f"), Some([15, 15, 15, 255]));
    assert_eq!(parse_hex_color("#12345"), None);
    assert_eq!(parse_hex_color("#gg0000"), None);
    assert_eq!(parse_hex_color("éé12"), None);
    assert!(color_panics("€123"));
    assert!(color_panics("12€1"));
    assert!(!color_panics("éé12"));
    assert!(!color_panics("#102030"));
}

#[test]
fn documents_that_cannot_be_applied_are_detected() {
    let bad_color = doc(r##"decorations { active_border_color "€123" }"##);
    assert!(!document_ok_check(&bad_color));
    assert!(parse_config_document("windowrule {").is_none());
}

#[test]
fn includes_are_listed_in_order() {
    let d = doc(r#"
include "keys.kdl" "more.kdl"
modifier "alt"
include "canvas_keys.kdl"
"#);
    assert_eq!(include_names(&d), vec!["keys.kdl".to_string(), "more.kdl".to_string(), "canvas_keys.kdl".to_string()]);
}

#[test]
fn xkb_parts_leave_out_empty_options() {
    let c = Config::new();
    let (rules, model, layout, variant, options) = c.xkb_parts();
    assert_eq!((rules.as_str(), model.as_str(), layout.as_str(), variant.as_str()), ("", "", "", ""));
    assert_eq!(options, None);
    let c = applied(r#"input { keyboard { xkb { layout "us,il"; options "grp:alt_shift_toggle" } } }"#);
    let (_, _, layout, _, options) = c.xkb_parts();
    assert_eq!(layout, "us,il");
    assert_eq!(options.as_deref(), Some("grp:alt_shift_toggle"));
}
