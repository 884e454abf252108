use novawm::layout::{gapped_screen, settle_targets};
use std::collections::{HashMap, HashSet};
use novawm::geometry::{Point, Rect, Size};
use novawm::layout::{layout_stack_rows, rect_intersection, scroll_column_abs, scroll_column_width, usable_area, MIN_STACK_ROW_H};

fn column(h: i32) -> Rect {
    Rect::new(0, 0, 960, h)
}

#[test]
fn stack_single_row_keeps_column() {
    let col = column(1000);
    assert_eq!(layout_stack_rows(col, 8, 1, 0), vec![col]);
}

#[test]
fn stack_even_split_fits() {
    let rows = layout_stack_rows(column(1000), 8, 2, 1);
    assert_eq!(rows.len(), 2);
    assert_eq!(rows[0], Rect::new(0, 0, 960, 496));
    assert_eq!(rows[1], Rect::new(0, 504, 960, 496));
}

#[test]
fn stack_overflow_centers_focused() {
    let rows = layout_stack_rows(column(1000), 8, 5, 2);
    assert_eq!(rows.len(), 5);
    assert!(rows.iter().all(|r| r.size.h == MIN_STACK_ROW_H));
    assert_eq!(rows[2].loc.y, 350);
    assert!(rows[0].loc.y < 0);
    assert!(rows[4].loc.y + rows[4].size.h > 1000);
}

#[test]
fn stack_overflow_clamps_at_ends() {
    let top = layout_stack_rows(column(1000), 8, 5, 0);
    assert_eq!(top[0].loc.y, 0);
    let bottom = layout_stack_rows(column(1000), 8, 5, 4);
    assert_eq!(bottom[4].loc.y + bottom[4].size.h, 1000);
}

#[test]
fn stack_rows_are_gap_apart() {
    let rows = layout_stack_rows(column(1000), 10, 3, 0);
    for pair in rows.windows(2) {
        assert_eq!(pair[0].loc.y + pair[0].size.h + 10, pair[1].loc.y);
    }
}

#[test]
fn empty_stack_has_no_rows() {
    assert!(layout_stack_rows(column(1000), 8, 0, 0).is_empty());
}

#[test]
fn column_abs_positions_accumulate() {
    assert_eq!(scroll_column_abs(&[100, 200, 300], 10), vec![0, 110, 320]);
    assert!(scroll_column_abs(&[], 10).is_empty());
}

#[test]
fn rect_contains_is_half_open() {
    let r = Rect::new(0, 0, 10, 10);
    assert!(r.contains(Point::new(0, 0)));
    assert!(r.contains(Point::new(9, 9)));
    assert!(!r.contains(Point::new(10, 0)));
    assert_eq!(r.size, Size { w: 10, h: 10 });
}

#[test]
fn default_column_width() {
    let w = scroll_column_width(Rect::new(0, 0, 1920, 1080), 10);
    assert_eq!(w, 955);
    assert_eq!(scroll_column_width(Rect::new(0, 0, 300, 1080), 10), 200);
    assert_eq!(scroll_column_width(Rect::new(0, 0, 150, 1080), 10), 150);
}

#[test]
fn usable_area_applies_gap_and_panel_zone() {
    let out = Rect::new(0, 0, 1920, 1080);
    assert_eq!(usable_area(out, 10, Rect::new(0, 30, 1920, 1050)), Rect::new(10, 30, 1900, 1040));
    assert_eq!(usable_area(out, -5, Rect::new(0, 0, 1920, 1080)), out);
    assert_eq!(usable_area(Rect::new(0, 0, 100, 50), 10000, Rect::new(0, 0, 100, 50)), Rect::new(24, 24, 52, 2));
    assert_eq!(usable_area(out, 10, Rect::new(5000, 5000, 10, 10)), Rect::new(10, 10, 1900, 1060));
    let second = Rect::new(1920, 0, 1280, 1024);
    assert_eq!(usable_area(second, 8, Rect::new(0, 0, 1280, 1000)), Rect::new(1928, 8, 1264, 992));
}

#[test]
fn rectangles_meet_only_when_they_overlap() {
    assert_eq!(rect_intersection(Rect::new(0, 0, 10, 10), Rect::new(5, 5, 10, 10)), Some(Rect::new(5, 5, 5, 5)));
    assert_eq!(rect_intersection(Rect::new(0, 0, 10, 10), Rect::new(10, 0, 10, 10)), None);
}

#[test]
fn settled_targets_skip_dragged_and_closing_windows() {
    let layouts = vec![(1u64, Rect::new(0, 0, 10, 10)), (2, Rect::new(10, 0, 10, 10)), (3, Rect::new(20, 0, 10, 10)), (4, Rect::new(30, 0, 10, 10))];
    let closing: HashSet<u64> = [3u64].into_iter().collect();
    let full = gapped_screen(Rect::new(0, 0, 1920, 1080), 20);
    assert_eq!(full, Rect::new(20, 20, 1880, 1040));
    let maximized: HashMap<u64, Rect> = [(4u64, full)].into_iter().collect();
    assert_eq!(
        settle_targets(&layouts, false, Some(2), &closing, &maximized),
        vec![(1, Rect::new(0, 0, 10, 10)), (4, full)]
    );
    // The scroll layout sizes a maximized window itself.
    assert_eq!(
        settle_targets(&layouts, true, None, &closing, &maximized),
        vec![(1, Rect::new(0, 0, 10, 10)), (2, Rect::new(10, 0, 10, 10)), (4, Rect::new(30, 0, 10, 10))]
    );
    // A huge gap still leaves a pixel.
    assert_eq!(gapped_screen(Rect::new(0, 0, 10, 4), 50), Rect::new(1, 1, 8, 2));
}
