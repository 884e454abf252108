use novawm::overview::overview_window_rects;
use std::collections::HashMap;
use novawm::geometry::Rect;
use novawm::overview::{
    next_shift, overview_cells, overview_closing, overview_nav_target, overview_workspaces,
    stays_mapped, ws_pan_wanted, OverviewTransition,
};

#[test]
fn workspaces_are_sorted_unique_with_a_fresh_one() {
    assert_eq!(overview_workspaces(&[2, 0, 2], 1), vec![0, 1, 2, 3]);
    assert_eq!(overview_workspaces(&[], 0), vec![0, 1]);
    assert_eq!(overview_workspaces(&[5], 5), vec![5, 6]);
}

#[test]
fn cells_stack_vertically_around_the_active_desktop() {
    let geo = Rect::new(100, 0, 1920, 1080);
    let cells = overview_cells(&[0, 1, 2], 1, geo);
    assert_eq!(cells.len(), 3);
    assert_eq!(cells[0], (0, Rect::new(100, -1144, 1920, 1080)));
    assert_eq!(cells[1], (1, Rect::new(100, 0, 1920, 1080)));
    assert_eq!(cells[2], (2, Rect::new(100, 1144, 1920, 1080)));
    let missing = overview_cells(&[4, 5], 9, geo);
    assert_eq!(missing[0].1.loc.y, 0);
}

#[test]
fn selection_moves_and_clamps() {
    assert_eq!(overview_nav_target(1, 4, 0, 1), 2);
    assert_eq!(overview_nav_target(0, 4, -1, 0), 0);
    assert_eq!(overview_nav_target(3, 4, 1, 0), 3);
}

#[test]
fn pan_only_for_real_animated_switches() {
    let exiting = Some(OverviewTransition::Exiting { start: std::time::Instant::now() });
    assert!(ws_pan_wanted(false, 0, 1, true, &None));
    assert!(!ws_pan_wanted(true, 0, 1, true, &None));
    assert!(!ws_pan_wanted(false, 1, 1, true, &None));
    assert!(!ws_pan_wanted(false, 0, 1, false, &None));
    assert!(!ws_pan_wanted(false, 0, 1, true, &exiting));
    assert!(overview_closing(&exiting));
    assert!(!overview_closing(&None));
}

#[test]
fn sliding_keeps_the_outgoing_desktop_mapped() {
    assert!(stays_mapped(Some(2), false, false, 1, 2));
    assert!(!stays_mapped(Some(1), false, false, 1, 2));
    assert!(stays_mapped(Some(1), false, true, 1, 2));
    assert!(stays_mapped(Some(7), true, false, 1, 2));
    assert!(!stays_mapped(None, false, true, 1, 2));
}

#[test]
fn shifts_accumulate_and_keep_their_start() {
    let t0 = std::time::Instant::now();
    let first = next_shift(&None, "eDP-1".to_string(), 1, t0);
    match &first {
        OverviewTransition::Shifting { output, rows, start } => {
            assert_eq!(output, "eDP-1");
            assert_eq!(*rows, 1);
            assert_eq!(*start, t0);
        }
        _ => panic!("expected a shift"),
    }
    let later = std::time::Instant::now();
    match next_shift(&Some(first), "eDP-1".to_string(), -2, later) {
        OverviewTransition::Shifting { rows, start, .. } => {
            assert_eq!(rows, -1);
            assert_eq!(start, t0);
        }
        _ => panic!("expected a shift"),
    }
}

#[test]
fn overview_cell_keeps_floating_and_canvas_places() {
    let cell = Rect::new(100, 50, 400, 300);
    let output = Rect::new(1000, 0, 1920, 1080);
    let floating = vec![(9u64, Rect::new(1200, 100, 300, 200))];
    let canvas = Some(vec![(5u64, Rect::new(10, 20, 0, 40))]);
    let custom: HashMap<u64, i32> = HashMap::new();
    let rows: HashMap<u64, usize> = HashMap::new();
    let out = overview_window_rects(cell, output, &floating, &canvas, &vec![], None, 10, &custom, &rows);
    assert_eq!(out, vec![(9, Rect::new(300, 150, 300, 200)), (5, Rect::new(110, 70, 1, 40))]);
    let out = overview_window_rects(cell, output, &floating, &None, &vec![], None, 10, &custom, &rows);
    assert_eq!(out, vec![(9, Rect::new(300, 150, 300, 200))]);
}

#[test]
fn overview_cell_tiles_the_scroll_strip() {
    let cell = Rect::new(0, 0, 1000, 800);
    let custom: HashMap<u64, i32> = HashMap::new();
    let rows: HashMap<u64, usize> = [(2u64, 1usize)].into_iter().collect();
    let columns = vec![vec![1u64], vec![2u64, 3]];
    let out = overview_window_rects(cell, cell, &[], &None, &columns, Some(7), 10, &custom, &rows);
    // The remembered column is clamped to the last one, which the view brings on screen.
    assert_eq!(
        out,
        vec![
            (1, Rect::new(0, 0, 495, 800)),
            (2, Rect::new(505, 0, 495, 395)),
            (3, Rect::new(505, 405, 495, 395)),
        ]
    );
}
