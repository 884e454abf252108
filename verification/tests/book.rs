use novawm::geometry::{Point, Rect};
use novawm::book::{render_windows_on, overview_windows, drop_window, focus_workspace_top, forget_window, move_column_to, scroll_plan, arrange_scroll, move_window_to, ordered_windows_on, reconcile_column_order, WindowBook};
use std::collections::{HashMap, HashSet};

fn sample_book() -> WindowBook {
    WindowBook {
        order: vec![1, 2, 3],
        starts: [1u64].into_iter().collect(),
        rows: [(1u64, 2usize), (2u64, 0usize)].into_iter().collect(),
        outputs: [(1u64, "A".to_string()), (2u64, "B".to_string()), (3u64, "C".to_string())]
            .into_iter()
            .collect(),
        workspaces: [(1u64, 2usize), (2u64, 0usize), (3u64, 1usize)].into_iter().collect(),
    }
}

#[test]
fn reconcile_appends_newcomers_and_drops_the_dead() {
    let mut book = sample_book();
    let known = [(1u64, true), (2u64, false), (4u64, true), (3u64, true), (4u64, true)];
    let active = vec![("A".to_string(), 2usize)];
    let available = vec!["A".to_string(), "B".to_string()];
    reconcile_column_order(&mut book, &known, &Some("A".to_string()), &active, &available);
    assert_eq!(book.order, vec![1, 3, 4]);
    let starts: HashSet<u64> = [1u64, 4].into_iter().collect();
    assert_eq!(book.starts, starts);
    let rows: HashMap<u64, usize> = [(1u64, 2usize)].into_iter().collect();
    assert_eq!(book.rows, rows);
    let outputs: HashMap<u64, String> =
        [(1u64, "A".to_string()), (3u64, "A".to_string()), (4u64, "A".to_string())].into_iter().collect();
    assert_eq!(book.outputs, outputs);
    assert_eq!(book.workspaces.get(&4), Some(&2));
    assert_eq!(book.workspaces.get(&2), Some(&0));
}

#[test]
fn reconcile_without_fallback_keeps_outputs() {
    let mut book = sample_book();
    let known = [(1u64, true), (2u64, true), (3u64, true), (5u64, true)];
    reconcile_column_order(&mut book, &known, &None, &[], &[]);
    assert_eq!(book.order, vec![1, 2, 3, 5]);
    assert_eq!(book.outputs.get(&3).map(|s| s.as_str()), Some("C"));
    assert_eq!(book.outputs.get(&5), None);
    assert_eq!(book.workspaces.get(&5), Some(&0));
    assert!(book.starts.contains(&5));
}

#[test]
fn ordered_windows_follow_output_and_workspace() {
    let mut book = sample_book();
    book.outputs.insert(3, "A".to_string());
    book.workspaces.insert(3, 2);
    book.order.push(6);
    book.outputs.insert(6, "A".to_string());
    book.workspaces.insert(6, 2);
    let active = vec![("B".to_string(), 0usize), ("A".to_string(), 2usize)];
    let mapped: HashSet<u64> = [1u64, 2, 3, 6].into_iter().collect();
    let none: HashSet<u64> = HashSet::new();
    assert_eq!(ordered_windows_on(&book, "A", &active, &none, None, false, &mapped), vec![1, 3, 6]);
    let floating: HashSet<u64> = [3u64].into_iter().collect();
    assert_eq!(ordered_windows_on(&book, "A", &active, &floating, Some(6), false, &mapped), vec![1]);
    assert_eq!(ordered_windows_on(&book, "A", &active, &floating, Some(6), true, &mapped), vec![1, 6]);
    assert_eq!(ordered_windows_on(&book, "B", &active, &none, None, false, &mapped), vec![2]);
    assert_eq!(ordered_windows_on(&book, "C", &active, &none, None, false, &mapped), Vec::<u64>::new());
}

#[test]
fn moving_a_window_refills_only_its_outputs_slots() {
    let mut order = vec![9u64, 1, 2, 8, 3];
    assert_eq!(move_window_to(&mut order, &[1, 2, 3], Some(0), 2), Some(2));
    assert_eq!(order, vec![9, 2, 3, 8, 1]);
    let mut order = vec![9u64, 1, 2, 8, 3];
    assert_eq!(move_window_to(&mut order, &[1, 2, 3], Some(2), 0), Some(0));
    assert_eq!(order, vec![9, 3, 1, 8, 2]);
    let mut order = vec![9u64, 1, 2, 8, 3];
    assert_eq!(move_window_to(&mut order, &[1, 2, 3], Some(2), 40), None);
    assert_eq!(move_window_to(&mut order, &[1, 2, 3], None, 0), None);
    assert_eq!(move_window_to(&mut order, &[], Some(0), 0), None);
    assert_eq!(order, vec![9, 1, 2, 8, 3]);
}

#[test]
fn moving_a_column_carries_its_rows() {
    let starts: HashSet<u64> = [1u64, 3].into_iter().collect();
    let mut order = vec![9u64, 1, 2, 8, 3];
    assert_eq!(move_column_to(&mut order, &[1, 2, 3], &starts, Some((0, 1)), 7), Some(1));
    assert_eq!(order, vec![9, 3, 1, 8, 2]);
    let mut order = vec![9u64, 1, 2, 8, 3];
    assert_eq!(move_column_to(&mut order, &[1, 2, 3], &starts, Some((1, 0)), 1), None);
    assert_eq!(move_column_to(&mut order, &[1, 2, 3], &starts, None, 0), None);
    assert_eq!(order, vec![9, 1, 2, 8, 3]);
}

#[test]
fn forgetting_a_window_clears_its_records() {
    let mut book = sample_book();
    book.starts.insert(2);
    forget_window(&mut book, 2);
    assert_eq!(book.order, vec![1, 3]);
    assert!(!book.starts.contains(&2));
    assert!(book.starts.contains(&1));
    assert_eq!(book.rows.get(&2), None);
    assert_eq!(book.rows.get(&1), Some(&2));
    assert_eq!(book.outputs.get(&2), None);
    assert_eq!(book.workspaces.get(&2), None);
    forget_window(&mut book, 42);
    assert_eq!(book.order, vec![1, 3]);
}

#[test]
fn scroll_plan_follows_focus_and_remembers_rows() {
    let mut book = sample_book();
    book.rows = [(1u64, 1usize), (3u64, 5usize)].into_iter().collect();
    let columns = vec![vec![1u64, 2], vec![3u64], vec![4u64, 5, 6]];
    let plan = scroll_plan(&mut book, &columns, "A", Some((2, 1)), Some(0), &[]);
    assert_eq!(plan.active, 2);
    assert_eq!(plan.maximized_anchor, None);
    assert_eq!(plan.rows, vec![1, 5, 1]);
    assert_eq!(book.rows.get(&4), Some(&1));
    // Without focus the remembered column is active, clamped to the last.
    let plan = scroll_plan(&mut book, &columns, "A", None, Some(7), &[]);
    assert_eq!(plan.active, 2);
    assert_eq!(plan.rows, vec![1, 5, 1]);
    let plan = scroll_plan(&mut book, &columns, "A", None, None, &[]);
    assert_eq!(plan.active, 0);
}

#[test]
fn scroll_plan_finds_the_maximized_column_on_this_output() {
    let mut book = sample_book();
    book.outputs.insert(2, "A".to_string());
    let columns = vec![vec![1u64, 2], vec![3u64]];
    // Window 3 lives on output C; window 2 on A, in the first column.
    let plan = scroll_plan(&mut book, &columns, "A", None, None, &[3, 2]);
    assert_eq!(plan.maximized_anchor, Some(1));
    let plan = scroll_plan(&mut book, &columns, "C", None, None, &[3, 2]);
    assert_eq!(plan.maximized_anchor, Some(3));
    let plan = scroll_plan(&mut book, &columns, "A", None, None, &[9]);
    assert_eq!(plan.maximized_anchor, None);
}

#[test]
fn workspace_top_lands_on_the_remembered_column_and_row() {
    let mut book = sample_book();
    book.starts = [1u64, 3].into_iter().collect();
    book.rows = [(1u64, 1usize)].into_iter().collect();
    assert_eq!(focus_workspace_top(&book, &[1, 2, 3], true, Some(0)), Some((0, 2)));
    assert_eq!(focus_workspace_top(&book, &[1, 2, 3], true, Some(9)), Some((1, 3)));
    assert_eq!(focus_workspace_top(&book, &[1, 2, 3], true, None), Some((0, 2)));
    assert_eq!(focus_workspace_top(&book, &[1, 2, 3], false, Some(1)), Some((1, 2)));
    assert_eq!(focus_workspace_top(&book, &[1, 2, 3], false, Some(7)), Some((2, 3)));
    assert_eq!(focus_workspace_top(&book, &[], true, Some(0)), None);
}

#[test]
fn dropping_a_window_moves_it_and_trades_places() {
    let active = vec![("B".to_string(), 4usize)];
    let mut book = sample_book();
    drop_window(&mut book, 1, true, &Some("B".to_string()), Some(3), &active);
    assert_eq!(book.order, vec![3, 2, 1]);
    assert_eq!(book.outputs.get(&3).map(|s| s.as_str()), Some("A"));
    assert_eq!(book.outputs.get(&1).map(|s| s.as_str()), Some("B"));
    assert_eq!(book.workspaces.get(&1), Some(&4));
    // A floating window only moves to the output.
    let mut book = sample_book();
    drop_window(&mut book, 1, false, &Some("C".to_string()), Some(3), &active);
    assert_eq!(book.order, vec![1, 2, 3]);
    assert_eq!(book.outputs.get(&3).map(|s| s.as_str()), Some("C"));
    assert_eq!(book.outputs.get(&1).map(|s| s.as_str()), Some("C"));
    assert_eq!(book.workspaces.get(&1), Some(&0));
    // Off every output nothing changes.
    let mut book = sample_book();
    drop_window(&mut book, 1, true, &None, Some(3), &active);
    assert_eq!(book.order, vec![1, 2, 3]);
    assert_eq!(book.workspaces.get(&1), Some(&2));
}

#[test]
fn overview_cells_list_their_windows_in_column_order() {
    let mut book = sample_book();
    book.outputs.insert(3, "A".to_string());
    book.workspaces.insert(3, 2);
    book.outputs.insert(7, "A".to_string());
    book.workspaces.insert(7, 2);
    let known = [(7u64, true), (3u64, true), (1u64, true), (2u64, true), (8u64, false)];
    let none: HashSet<u64> = HashSet::new();
    assert_eq!(overview_windows(&book, &known, &none, None, false, "A", 2), vec![1, 3, 7]);
    let closing: HashSet<u64> = [3u64].into_iter().collect();
    assert_eq!(overview_windows(&book, &known, &closing, None, false, "A", 2), vec![1, 7]);
    assert_eq!(overview_windows(&book, &known, &none, Some(1), false, "A", 2), vec![3, 7]);
    assert_eq!(overview_windows(&book, &known, &none, Some(1), true, "A", 2), vec![1, 3, 7]);
    assert_eq!(overview_windows(&book, &known, &none, None, false, "B", 0), vec![2]);
}

#[test]
fn outputs_draw_their_own_windows_and_the_dragged_one() {
    let book = sample_book();
    assert_eq!(render_windows_on(&book, &[3, 1, 2], "A", None, false, None, false), vec![1]);
    assert_eq!(render_windows_on(&book, &[3, 1, 2], "A", None, false, Some(2), true), vec![1, 2]);
    assert_eq!(render_windows_on(&book, &[3, 1, 2], "A", None, false, Some(2), false), vec![1]);
    assert_eq!(render_windows_on(&book, &[3, 1, 2], "A", Some(1), false, None, false), Vec::<u64>::new());
    assert_eq!(render_windows_on(&book, &[3, 1, 2], "C", Some(1), true, None, true), vec![3]);
}

#[test]
fn arrange_scroll_tiles_columns_and_rows() {
    let mut book = sample_book();
    let columns = vec![vec![1u64], vec![2u64, 3]];
    let screen = Rect::new(0, 0, 1000, 800);
    let custom: HashMap<u64, i32> = HashMap::new();
    let arr = arrange_scroll(&mut book, &columns, "A", Some((0, 0)), None, &[], None, screen, 10, &custom);
    assert_eq!(arr.active, 0);
    assert_eq!(arr.origin, Point::new(0, 0));
    assert_eq!(
        arr.tiles,
        vec![
            (1, Rect::new(0, 0, 495, 800)),
            (2, Rect::new(505, 0, 495, 395)),
            (3, Rect::new(505, 405, 495, 395)),
        ]
    );
    assert_eq!(book.rows.get(&1), Some(&0));
}

#[test]
fn arrange_scroll_follows_a_tile_resize_of_the_active_column() {
    let mut book = sample_book();
    let columns = vec![vec![1u64], vec![2u64, 3]];
    let screen = Rect::new(0, 0, 1000, 800);
    let custom: HashMap<u64, i32> = HashMap::new();
    let arr = arrange_scroll(&mut book, &columns, "A", Some((1, 0)), None, &[], None, screen, 10, &custom);
    assert_eq!(arr.origin, Point::new(505, 0));
    let arr = arrange_scroll(&mut book, &columns, "A", Some((1, 0)), None, &[], Some((3, 120)), screen, 10, &custom);
    assert_eq!(arr.active, 1);
    assert_eq!(arr.origin, Point::new(120, 0));
    assert_eq!(arr.tiles[0], (1, Rect::new(-385, 0, 495, 800)));
    // A resize of a window outside the active column leaves the view alone.
    let arr = arrange_scroll(&mut book, &columns, "A", Some((1, 0)), None, &[], Some((1, 120)), screen, 10, &custom);
    assert_eq!(arr.origin, Point::new(505, 0));
}
