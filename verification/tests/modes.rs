use novawm::geometry::Rect;
use novawm::modes::{canvas_nudge, terminal_command, toggle_float, toggle_maximized, toggle_scratchpad, Scratchpad, ScratchpadAction};
use std::collections::{HashMap, HashSet};

#[test]
fn scratchpad_spawns_then_flips() {
    let mut pad = Scratchpad { id: None, visible: false, pending: false };
    match toggle_scratchpad(&mut pad, false, "  alacritty -e  btop ") {
        ScratchpadAction::Spawn { program, args } => {
            assert_eq!(program, "alacritty");
            assert_eq!(args, vec!["-e".to_string(), "btop".to_string()]);
        }
        other => panic!("unexpected {other:?}"),
    }
    assert_eq!(pad, Scratchpad { id: None, visible: true, pending: true });
    pad.id = Some(7);
    assert!(matches!(toggle_scratchpad(&mut pad, true, "foot"), ScratchpadAction::Hide));
    assert!(!pad.visible);
    assert!(matches!(toggle_scratchpad(&mut pad, true, "foot"), ScratchpadAction::Show(7)));
    assert!(pad.visible);
    // The window went away: a new terminal is started.
    match toggle_scratchpad(&mut pad, false, "") {
        ScratchpadAction::Spawn { program, args } => {
            assert_eq!(program, "foot");
            assert!(args.is_empty());
        }
        other => panic!("unexpected {other:?}"),
    }
    assert_eq!(pad.id, None);
}

#[test]
fn float_and_maximize_exclude_each_other() {
    let mut maximized: HashSet<u64> = HashSet::new();
    let mut floating: HashMap<u64, Rect> = HashMap::new();
    let r = Rect::new(5, 5, 300, 200);
    assert!(toggle_float(&mut maximized, &mut floating, 1, r));
    assert_eq!(floating.get(&1), Some(&r));
    assert!(toggle_maximized(&mut maximized, &mut floating, 1));
    assert!(maximized.contains(&1) && !floating.contains_key(&1));
    assert!(toggle_float(&mut maximized, &mut floating, 1, r));
    assert!(!maximized.contains(&1) && floating.contains_key(&1));
    assert!(!toggle_float(&mut maximized, &mut floating, 1, r));
    assert!(floating.is_empty());
    assert!(toggle_maximized(&mut maximized, &mut floating, 2));
    assert!(!toggle_maximized(&mut maximized, &mut floating, 2));
    assert!(maximized.is_empty());
}

#[test]
fn nudging_moves_the_floating_or_canvas_rect_and_unpins() {
    let mut floating: HashMap<u64, Rect> = HashMap::new();
    let mut canvas: HashMap<u64, Rect> = HashMap::new();
    let mut pinned: HashMap<u64, Rect> = HashMap::new();
    floating.insert(1, Rect::new(0, 0, 10, 10));
    canvas.insert(1, Rect::new(50, 50, 10, 10));
    canvas.insert(2, Rect::new(50, 50, 10, 10));
    pinned.insert(2, Rect::new(0, 0, 1, 1));
    assert!(canvas_nudge(&mut floating, &mut canvas, &mut pinned, 1, 5, -5));
    assert_eq!(floating[&1], Rect::new(5, -5, 10, 10));
    assert_eq!(canvas[&1], Rect::new(50, 50, 10, 10));
    assert!(canvas_nudge(&mut floating, &mut canvas, &mut pinned, 2, -50, 0));
    assert_eq!(canvas[&2], Rect::new(0, 50, 10, 10));
    assert!(pinned.is_empty());
    assert!(!canvas_nudge(&mut floating, &mut canvas, &mut pinned, 3, 1, 1));
}

#[test]
fn terminal_command_lines_split_at_whitespace() {
    assert_eq!(terminal_command("foot"), ("foot".to_string(), vec![]));
    assert_eq!(
        terminal_command("kitty --single-instance  -o x=1"),
        ("kitty".to_string(), vec!["--single-instance".to_string(), "-o".to_string(), "x=1".to_string()])
    );
    assert_eq!(terminal_command("   "), ("foot".to_string(), vec![]));
}
