use novawm::workspace::{
    columns_of, consume_into_column, cycle_focus_next, expel_from_column, focused_column_position,
    goto_workspace_target, landing_row, max_workspace_on, move_focus_target, move_row,
    scroll_column_step, scroll_stack_step, swap_ids, switch_workspace_target, StackMove,
};
use std::collections::{HashMap, HashSet};

#[test]
fn columns_open_at_marked_starts() {
    let starts: HashSet<u64> = [3u64, 5].into_iter().collect();
    let cols = columns_of(&[1, 2, 3, 4, 5], &starts);
    assert_eq!(cols, vec![vec![1, 2], vec![3, 4], vec![5]]);
    assert!(columns_of(&[], &starts).is_empty());
    let flat: Vec<u64> = cols.concat();
    assert_eq!(flat, vec![1, 2, 3, 4, 5]);
}

#[test]
fn focus_position_and_landing_row() {
    let cols = vec![vec![1, 2], vec![3, 4, 5]];
    assert_eq!(focused_column_position(&cols, 4), Some((1, 1)));
    assert_eq!(focused_column_position(&cols, 9), None);
    assert_eq!(landing_row(3, Some(7)), 2);
    assert_eq!(landing_row(3, None), 0);
    assert_eq!(landing_row(0, Some(1)), 0);
}

#[test]
fn horizontal_scroll_saturates() {
    assert_eq!(scroll_column_step(Some(1), 0, 1, 3), Some(2));
    assert_eq!(scroll_column_step(Some(2), 0, 1, 3), None);
    assert_eq!(scroll_column_step(None, 5, -1, 3), Some(1));
    assert_eq!(scroll_column_step(Some(1), 0, -5, 3), Some(0));
    assert_eq!(scroll_column_step(Some(1), 0, 0, 3), None);
}

#[test]
fn vertical_scroll_switches_workspace_at_the_ends() {
    assert_eq!(scroll_stack_step(1, false, Some((0, 3))), StackMove::FocusRow(1));
    assert_eq!(scroll_stack_step(1, false, Some((2, 3))), StackMove::SwitchWorkspace(1));
    assert_eq!(scroll_stack_step(-2, false, Some((0, 3))), StackMove::SwitchWorkspace(-1));
    assert_eq!(scroll_stack_step(-1, true, None), StackMove::SwitchWorkspace(-1));
    assert_eq!(scroll_stack_step(0, true, None), StackMove::Stay);
    assert_eq!(scroll_stack_step(1, false, None), StackMove::Stay);
}

#[test]
fn workspace_targets_allow_one_fresh_desktop() {
    assert_eq!(max_workspace_on(1, &[0, 4, 2]), 4);
    assert_eq!(max_workspace_on(3, &[]), 3);
    assert_eq!(switch_workspace_target(2, 2, 1), Some(3));
    assert_eq!(switch_workspace_target(3, 2, 1), None);
    assert_eq!(switch_workspace_target(0, 2, -1), None);
    assert_eq!(switch_workspace_target(2, 2, -5), Some(0));
    assert_eq!(goto_workspace_target(0, 1, 8), Some(2));
    assert_eq!(goto_workspace_target(2, 1, 8), None);
    assert_eq!(goto_workspace_target(2, 5, 0), Some(0));
}

#[test]
fn alt_tab_wraps() {
    assert_eq!(cycle_focus_next(3, Some(2), false), 0);
    assert_eq!(cycle_focus_next(3, Some(0), true), 2);
    assert_eq!(cycle_focus_next(3, None, false), 1);
    assert_eq!(cycle_focus_next(0, None, true), 0);
    assert_eq!(move_focus_target(0, 3, true), 0);
    assert_eq!(move_focus_target(2, 3, false), 2);
    assert_eq!(move_focus_target(1, 3, false), 2);
}

#[test]
fn consume_and_expel_edit_column_starts() {
    let windows = [1u64, 2, 3];
    let mut starts: HashSet<u64> = [2u64].into_iter().collect();
    assert_eq!(consume_into_column(&windows, &mut starts, Some(1)), Some(2));
    assert!(starts.is_empty());
    assert_eq!(consume_into_column(&windows, &mut starts, Some(1)), None);
    assert_eq!(consume_into_column(&windows, &mut starts, Some(0)), None);
    assert_eq!(expel_from_column(&windows, &mut starts, Some(1)), Some(2));
    let expected: HashSet<u64> = [2u64, 3].into_iter().collect();
    assert_eq!(starts, expected);
    assert_eq!(expel_from_column(&windows, &mut starts, Some(1)), None);
    assert_eq!(expel_from_column(&windows, &mut starts, None), None);
}

#[test]
fn move_row_swaps_within_the_column() {
    let cols = vec![vec![10u64, 11, 12]];
    let mut starts: HashSet<u64> = [10u64].into_iter().collect();
    let mut rows: HashMap<u64, usize> = HashMap::new();
    let mut order = vec![10u64, 11, 12];
    assert_eq!(move_row(&cols, Some((0, 0)), false, &mut starts, &mut rows, &mut order), Some(10));
    assert_eq!(order, vec![11, 10, 12]);
    let expected: HashSet<u64> = [11u64].into_iter().collect();
    assert_eq!(starts, expected);
    assert_eq!(rows.get(&11), Some(&1));
    let cols = vec![vec![11u64, 10, 12]];
    assert_eq!(move_row(&cols, Some((0, 2)), false, &mut starts, &mut rows, &mut order), None);
    assert_eq!(move_row(&cols, Some((0, 2)), true, &mut starts, &mut rows, &mut order), Some(12));
    assert_eq!(order, vec![11, 12, 10]);
}

#[test]
fn swap_ignores_missing_ids() {
    let mut order = vec![1u64, 2, 3];
    swap_ids(&mut order, 1, 9);
    assert_eq!(order, vec![1, 2, 3]);
    swap_ids(&mut order, 3, 1);
    assert_eq!(order, vec![3, 2, 1]);
}

#[test]
fn swapping_twice_restores_the_order() {
    let mut order = vec![4u64, 7, 9, 2];
    swap_ids(&mut order, 7, 2);
    assert_eq!(order, vec![4, 2, 9, 7]);
    swap_ids(&mut order, 7, 2);
    assert_eq!(order, vec![4, 7, 9, 2]);
}

#[test]
fn alt_tab_forward_then_back_returns() {
    for i in 0..5usize {
        let next = cycle_focus_next(5, Some(i), false);
        assert_eq!(cycle_focus_next(5, Some(next), true), i);
    }
}
