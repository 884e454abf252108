use novawm::keybind::{default_keybindings, Keybind, DEFAULT_BINDING_COUNT};

#[test]
fn parse_splits_modifiers_key_and_action() {
    let kb = Keybind::parse("mod+shift+h", "move_list previous").unwrap();
    assert_eq!(kb.modifiers, vec!["mod".to_string(), "shift".to_string()]);
    assert_eq!(kb.key, "h");
    assert_eq!(kb.key_sym, None);
    assert_eq!(kb.mouse_button, None);
    assert_eq!(kb.action, "move_list");
    assert_eq!(kb.args, vec!["previous".to_string()]);
    assert!(!kb.is_mouse());
}

#[test]
fn parse_reads_mouse_buttons() {
    let kb = Keybind::parse("mod+mouse:272", "move_window").unwrap();
    assert_eq!(kb.mouse_button, Some(272));
    assert_eq!(kb.key, "272");
    assert!(kb.is_mouse());
    let bad = Keybind::parse("mod+mouse:left", "move_window").unwrap();
    assert_eq!(bad.mouse_button, None);
}

#[test]
fn parse_skips_empty_parts_and_needs_one() {
    let kb = Keybind::parse("++mod++Return+", "  spawn_terminal  ").unwrap();
    assert_eq!(kb.modifiers, vec!["mod".to_string()]);
    assert_eq!(kb.key, "Return");
    assert_eq!(kb.action, "spawn_terminal");
    assert!(kb.args.is_empty());
    assert!(Keybind::parse("+++", "x").is_none());
    assert!(Keybind::parse("", "x").is_none());
}

#[test]
fn resolving_records_known_keysyms_only() {
    let mut kb = Keybind::parse("mod+h", "focus left").unwrap();
    kb.resolve_key_sym(0x68);
    assert_eq!(kb.key_sym, Some(0x68));
    assert_eq!(kb.key, "h");
    kb.resolve_key_sym(0);
    assert_eq!(kb.key_sym, None);
    let empty_action = Keybind::parse("mod+c", "").unwrap();
    assert_eq!(empty_action.action, "");
}

#[test]
fn defaults_parse_the_whole_table() {
    let binds = default_keybindings();
    assert_eq!(binds.len(), DEFAULT_BINDING_COUNT);
    assert_eq!(binds.len(), 46);
    assert_eq!(binds[0].key, "Return");
    assert_eq!(binds[0].action, "spawn_terminal");
    assert_eq!(binds[14].key, "1");
    assert_eq!(binds[14].args, vec!["1".to_string()]);
    assert_eq!(binds[44].mouse_button, Some(272));
    assert_eq!(binds[45].mouse_button, Some(273));
    assert!(binds.iter().all(|b| b.modifiers[0] == "mod"));
}
