use novawm::input::{
    bind_modifier_bits, click_focus, is_canvas_action, key_filter, parse_keybind_action, press_plan,
    ClickFocus, KeyEvent, KeyFilter, KeyModes, ModalKeys, NovaInputAction, PressPlan, wheel_action,
    WheelAction, action_step, ActionStep, key_route, KeyRoute, parse_accel_profile, parse_click_method,
    AccelProfile, ClickMethod,
};
use novawm::resize::Edges;
use novawm::keybind::{default_keybindings, Keybind};

/// The X keysym values of the modal keys.
fn modal_keys() -> ModalKeys {
    ModalKeys {
        escape: 0xff1b,
        return_key: 0xff0d,
        kp_enter: 0xff8d,
        space: 0x20,
        left: 0xff51,
        right: 0xff53,
        up: 0xff52,
        down: 0xff54,
        kp_left: 0xff96,
        kp_right: 0xff98,
        kp_up: 0xff97,
        kp_down: 0xff99,
        digits: (0x31..=0x39).collect(),
        kp_digits: (0xffb1..=0xffb9).collect(),
    }
}

/// The default bindings with the keysyms of the keys these tests press.
fn resolved_defaults() -> Vec<Keybind> {
    let mut binds = default_keybindings();
    for kb in binds.iter_mut() {
        let raw = match kb.key.as_str() {
            "Return" => 0xff0d,
            "x" => 0x78,
            "c" => 0x63,
            _ => 0,
        };
        kb.resolve_key_sym(raw);
    }
    binds
}

fn s(v: &[&str]) -> Vec<String> {
    v.iter().map(|x| x.to_string()).collect()
}

fn press(sym: u32, shift: bool, ctrl: bool, alt: bool, logo: bool) -> KeyEvent {
    KeyEvent { pressed: true, sym: Some(sym), shift, ctrl, alt, logo }
}

const NO_MODES: KeyModes = KeyModes { screenshot_select: false, record_picker: false, overview_active: false };

#[test]
fn mod_expands_to_the_configured_modifier() {
    assert_eq!(bind_modifier_bits(&s(&["mod", "shift"]), "super"), (true, false, false, true));
    assert_eq!(bind_modifier_bits(&s(&["MOD"]), "alt + ctrl"), (false, true, true, false));
    assert_eq!(bind_modifier_bits(&s(&["control", "meta"]), "alt"), (false, true, false, true));
    assert_eq!(bind_modifier_bits(&s(&["shift"]), "super"), (true, false, false, false));
    assert_eq!(bind_modifier_bits(&s(&["hyper"]), "super"), (false, false, false, false));
    assert_eq!(bind_modifier_bits(&s(&[]), "super"), (false, false, false, false));
}

#[test]
fn canvas_actions_are_recognised() {
    assert!(is_canvas_action("toggle_pin"));
    assert!(is_canvas_action("canvas_pan"));
    assert!(is_canvas_action("canvas zoom"));
    assert!(!is_canvas_action("canvas"));
    assert!(!is_canvas_action("focus"));
}

#[test]
fn actions_parse_with_their_arguments() {
    assert!(matches!(parse_keybind_action("focus", &s(&["left"])), Some(NovaInputAction::Focus(d)) if d == "left"));
    assert!(parse_keybind_action("focus", &s(&[])).is_none());
    assert!(matches!(parse_keybind_action("move_list", &s(&["previous"])), Some(NovaInputAction::MoveFocus(true))));
    assert!(matches!(parse_keybind_action("cycle_focus", &s(&["next"])), Some(NovaInputAction::CycleFocus(false))));
    assert!(matches!(parse_keybind_action("workspace", &s(&["3"])), Some(NovaInputAction::Workspace(3))));
    assert!(parse_keybind_action("workspace", &s(&["three"])).is_none());
    assert!(matches!(parse_keybind_action("canvas_pan", &s(&["up"])), Some(NovaInputAction::CanvasPan(0, -120))));
    assert!(matches!(parse_keybind_action("canvas_nudge", &s(&["sideways"])), Some(NovaInputAction::CanvasNudge(0, 50))));
    assert!(matches!(parse_keybind_action("spawn", &s(&["foot", "-e", "htop"])), Some(NovaInputAction::Spawn(c)) if c == "foot -e htop"));
    assert!(parse_keybind_action("spawn", &s(&[" "])).is_none());
    assert!(parse_keybind_action("move_window", &s(&[])).is_none());
    assert!(parse_keybind_action("bogus", &s(&[])).is_none());
    assert!(matches!(parse_keybind_action("welcome", &s(&[])), Some(NovaInputAction::Welcome)));
}

#[test]
fn bindings_fire_with_the_right_modifiers() {
    let keys = modal_keys();
    let binds = resolved_defaults();
    let hit = key_filter(&keys, press(0xff0d, false, false, false, true), NO_MODES, &binds, "super", "scroll");
    assert!(matches!(hit, KeyFilter::Intercept(NovaInputAction::SpawnTerminal)));
    let wrong_mods = key_filter(&keys, press(0xff0d, false, false, true, false), NO_MODES, &binds, "super", "scroll");
    assert!(matches!(wrong_mods, KeyFilter::Forward));
    let mut release = press(0xff0d, false, false, false, true);
    release.pressed = false;
    assert!(matches!(key_filter(&keys, release, NO_MODES, &binds, "super", "scroll"), KeyFilter::Forward));
}

#[test]
fn canvas_bindings_need_the_canvas_layout() {
    let keys = modal_keys();
    let binds = resolved_defaults();
    let x = press(0x78, false, false, true, false);
    assert!(matches!(key_filter(&keys, x, NO_MODES, &binds, "alt", "scroll"), KeyFilter::Forward));
    assert!(matches!(
        key_filter(&keys, x, NO_MODES, &binds, "alt", "canvas"),
        KeyFilter::Intercept(NovaInputAction::CanvasCenterWindow)
    ));
}

#[test]
fn modes_take_the_keyboard() {
    let keys = modal_keys();
    let binds = resolved_defaults();
    let shot = KeyModes { screenshot_select: true, record_picker: false, overview_active: false };
    let esc = press(0xff1b, false, false, false, false);
    assert!(matches!(key_filter(&keys, esc, shot, &binds, "alt", "scroll"), KeyFilter::Intercept(NovaInputAction::ScreenshotCancel)));
    let space = press(0x20, false, false, false, false);
    assert!(matches!(key_filter(&keys, space, shot, &binds, "alt", "scroll"), KeyFilter::Intercept(NovaInputAction::ScreenshotConfirm)));
    let picker = KeyModes { screenshot_select: false, record_picker: true, overview_active: false };
    let three = press(0x33, false, false, false, false);
    assert!(matches!(key_filter(&keys, three, picker, &binds, "alt", "scroll"), KeyFilter::Intercept(NovaInputAction::RecordDigit(3))));
    let kp_three = press(0xffb3, false, false, false, false);
    assert!(matches!(key_filter(&keys, kp_three, picker, &binds, "alt", "scroll"), KeyFilter::Intercept(NovaInputAction::RecordDigit(3))));
    let up = press(0xff52, false, false, false, false);
    assert!(matches!(key_filter(&keys, up, picker, &binds, "alt", "scroll"), KeyFilter::Intercept(NovaInputAction::RecordMove(-1))));
    let overview = KeyModes { screenshot_select: false, record_picker: false, overview_active: true };
    let left = press(0xff51, false, false, false, false);
    assert!(matches!(key_filter(&keys, left, overview, &binds, "alt", "scroll"), KeyFilter::Intercept(NovaInputAction::OverviewNav(-1, 0))));
    let q = press(0x71, false, false, false, false);
    assert!(matches!(key_filter(&keys, q, overview, &binds, "alt", "scroll"), KeyFilter::Intercept(NovaInputAction::OverviewIgnore)));
    assert!(matches!(key_filter(&keys, q, NO_MODES, &binds, "alt", "scroll"), KeyFilter::Forward));
}

#[test]
fn unresolved_bindings_never_fire() {
    let keys = modal_keys();
    let binds = default_keybindings();
    let ret = press(0xff0d, false, false, true, false);
    assert!(matches!(key_filter(&keys, ret, NO_MODES, &binds, "alt", "scroll"), KeyFilter::Forward));
}

#[test]
fn button_presses_start_drags_by_binding() {
    let binds = vec![
        Keybind::parse("mod+mouse:272", "move_window").unwrap(),
        Keybind::parse("mod+mouse:273", "resize_window").unwrap(),
    ];
    let held = bind_modifier_bits(&["mod".to_string()], "super");
    let under = Some((5u64, false));
    assert_eq!(press_plan(false, &binds, 272, held, "super", under, true, true, "scroll", true), PressPlan::Move(5));
    let right_only = Edges { left: false, right: true, top: false, bottom: false };
    assert_eq!(
        press_plan(false, &binds, 273, held, "super", under, true, true, "scroll", true),
        PressPlan::ResizeTile { window: 5, edges: right_only }
    );
    let top_left = Edges { left: true, right: false, top: true, bottom: false };
    assert_eq!(
        press_plan(false, &binds, 273, held, "super", Some((5, true)), false, false, "dwindle", true),
        PressPlan::ResizeFree { window: 5, edges: top_left }
    );
    assert_eq!(press_plan(false, &binds, 272, (true, false, false, true), "super", under, true, true, "scroll", true), PressPlan::Click);
    assert_eq!(press_plan(true, &binds, 272, held, "super", under, true, true, "scroll", true), PressPlan::Click);
    assert_eq!(press_plan(false, &binds, 274, held, "super", under, true, true, "scroll", true), PressPlan::Click);
    assert_eq!(press_plan(false, &binds, 272, held, "super", None, true, true, "canvas", true), PressPlan::CanvasPan);
    assert_eq!(press_plan(false, &binds, 272, held, "super", None, true, true, "canvas", false), PressPlan::Click);
    assert_eq!(press_plan(false, &binds, 272, held, "super", None, true, true, "scroll", true), PressPlan::Click);
}

#[test]
fn clicks_focus_layers_then_windows() {
    assert_eq!(click_focus(true, Some((1, false)), false, true), ClickFocus::UpperLayer);
    assert_eq!(click_focus(false, Some((1, false)), true, true), ClickFocus::Window { id: 1, raise: false });
    assert_eq!(click_focus(false, Some((1, true)), true, true), ClickFocus::Window { id: 1, raise: true });
    assert_eq!(click_focus(false, Some((1, false)), false, false), ClickFocus::Window { id: 1, raise: true });
    assert_eq!(click_focus(false, None, false, true), ClickFocus::LowerLayer);
    assert_eq!(click_focus(false, None, false, false), ClickFocus::Clear);
}

#[test]
fn modifier_wheel_pages_columns_or_workspaces() {
    // Without the modifier the client gets the event.
    assert_eq!(wheel_action(false, false, true, false, false, false, 0, 1, true, true), WheelAction::PassThrough);
    // Scroll layout: the vertical wheel walks the stack, shift or a sideways swipe the columns.
    assert_eq!(wheel_action(true, false, true, false, false, false, 0, 1, true, true), WheelAction::ScrollStack(1));
    assert_eq!(wheel_action(true, false, true, true, false, false, 0, -1, true, true), WheelAction::ScrollColumns(-1));
    assert_eq!(wheel_action(true, false, true, false, false, true, 1, 0, true, true), WheelAction::ScrollColumns(1));
    // Ctrl with the vertical wheel switches workspace, against the wheel.
    assert_eq!(wheel_action(true, false, true, false, true, false, 0, 1, true, true), WheelAction::SwitchWorkspace(-1));
    // Cooling down: nothing.
    assert_eq!(wheel_action(true, false, true, false, false, false, 0, 1, false, true), WheelAction::Nothing);
    // Other layouts: the vertical wheel switches workspace, shift focuses sideways.
    assert_eq!(wheel_action(true, false, false, false, false, false, 0, -1, true, true), WheelAction::SwitchWorkspace(1));
    assert_eq!(wheel_action(true, false, false, true, false, false, 0, -1, true, true), WheelAction::FocusLeft);
    assert_eq!(wheel_action(true, false, false, false, false, true, 1, 0, true, true), WheelAction::FocusRight);
    // Canvas: shift switches workspace, sideways pans, otherwise zoom.
    assert_eq!(wheel_action(true, true, false, true, false, false, 0, -1, true, true), WheelAction::SwitchWorkspace(1));
    assert_eq!(wheel_action(true, true, false, false, false, true, -1, 0, true, true), WheelAction::CanvasPan);
    assert_eq!(wheel_action(true, true, false, false, false, false, 0, 1, true, true), WheelAction::CanvasZoom);
}

#[test]
fn spawn_is_debounced_against_the_last_spawn() {
    let a = NovaInputAction::SpawnTerminal;
    assert_eq!(action_step(&a, false, false, None, None), ActionStep::Run { stamp_spawn: true, stamp_close: false });
    assert_eq!(action_step(&a, false, false, Some(149), None), ActionStep::Skip);
    assert_eq!(action_step(&a, false, false, Some(150), Some(0)), ActionStep::Run { stamp_spawn: true, stamp_close: false });
    let s = NovaInputAction::Spawn("firefox".to_string());
    assert_eq!(action_step(&s, false, false, Some(10), None), ActionStep::Skip);
}

#[test]
fn close_is_debounced_against_the_last_close() {
    let a = NovaInputAction::CloseFocused;
    assert_eq!(action_step(&a, false, false, Some(0), None), ActionStep::Run { stamp_spawn: false, stamp_close: true });
    assert_eq!(action_step(&a, false, false, None, Some(100)), ActionStep::Skip);
}

#[test]
fn canvas_keys_need_the_canvas_layout() {
    for a in [NovaInputAction::CanvasZoomIn, NovaInputAction::CanvasZoomOut, NovaInputAction::CanvasZoomReset, NovaInputAction::CanvasPan(4, -4)] {
        assert_eq!(action_step(&a, false, false, None, None), ActionStep::Skip);
        assert_eq!(action_step(&a, true, false, None, None), ActionStep::Run { stamp_spawn: false, stamp_close: false });
    }
}

#[test]
fn workspace_keys_count_from_one() {
    assert_eq!(action_step(&NovaInputAction::Workspace(3), false, false, None, None), ActionStep::GotoWorkspace(2));
    assert_eq!(action_step(&NovaInputAction::Workspace(0), false, false, None, None), ActionStep::GotoWorkspace(0));
    assert_eq!(action_step(&NovaInputAction::Workspace(1), false, true, None, None), ActionStep::LeaveOverviewTo(0));
    assert_eq!(action_step(&NovaInputAction::OverviewIgnore, true, true, None, None), ActionStep::Skip);
    assert_eq!(action_step(&NovaInputAction::ToggleFloat, false, false, None, None), ActionStep::Run { stamp_spawn: false, stamp_close: false });
}

#[test]
fn keys_reach_shortcuts_only_when_nothing_grabs_them() {
    assert_eq!(key_route(true, true), KeyRoute::LockSurface);
    assert_eq!(key_route(true, false), KeyRoute::ExclusiveLayer);
    assert_eq!(key_route(false, true), KeyRoute::LockSurface);
    assert_eq!(key_route(false, false), KeyRoute::Shortcuts);
}

#[test]
fn accel_profiles_ignore_case_and_whitespace() {
    assert_eq!(parse_accel_profile("flat"), Some(AccelProfile::Flat));
    assert_eq!(parse_accel_profile("  FLAT\t"), Some(AccelProfile::Flat));
    assert_eq!(parse_accel_profile("Adaptive"), Some(AccelProfile::Adaptive));
    assert_eq!(parse_accel_profile("adaptive2"), None);
    assert_eq!(parse_accel_profile(""), None);
}

#[test]
fn click_methods_accept_their_spellings() {
    for name in ["button-areas", "button_areas", " ButtonAreas "] {
        assert_eq!(parse_click_method(name), Some(ClickMethod::ButtonAreas));
    }
    for name in ["clickfinger", "Click-Finger", "CLICK_FINGER\n"] {
        assert_eq!(parse_click_method(name), Some(ClickMethod::Clickfinger));
    }
    assert_eq!(parse_click_method("two-finger"), None);
}

#[test]
fn mod4_means_super() {
    let modifiers = vec!["mod".to_string()];
    assert_eq!(bind_modifier_bits(&modifiers, "mod4"), (false, false, false, true));
    assert_eq!(bind_modifier_bits(&modifiers, "mod4+shift"), (true, false, false, true));
    // `mod4` is a name for the configured modifier only, not a binding token.
    let direct = vec!["mod4".to_string(), "alt".to_string()];
    assert_eq!(bind_modifier_bits(&direct, "ctrl"), (false, false, true, false));
}

#[test]
fn modifier_bits_ignore_order_and_repetition() {
    let a = vec!["shift".to_string(), "mod".to_string()];
    let b = vec!["mod".to_string(), "shift".to_string(), "mod".to_string()];
    assert_eq!(bind_modifier_bits(&a, "super"), bind_modifier_bits(&b, "super"));
    assert_eq!(bind_modifier_bits(&a, "super"), (true, false, false, true));
}
