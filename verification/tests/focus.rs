use novawm::focus::{
    exclusive_keyboard_layer, focus_closest_window_to, focus_direction, focusable_layer_under,
    owns_pointer, surface_hit, DirectionMove, FocusPick, HitCandidates, HitTarget, LayerProbe,
};
use novawm::listing::LayerKind;
use novawm::geometry::Rect;
use novawm::workspace::column_anchor;
use std::collections::HashSet;

fn row() -> Vec<Option<Rect>> {
    vec![
        Some(Rect::new(0, 0, 100, 100)),
        Some(Rect::new(110, 0, 100, 100)),
        Some(Rect::new(220, 0, 100, 100)),
        Some(Rect::new(110, 110, 100, 100)),
    ]
}

#[test]
fn direction_picks_nearest_window_that_way() {
    let rects = row();
    assert_eq!(focus_direction(false, "right", &rects, Some(0)), DirectionMove::Focus(1));
    assert_eq!(focus_direction(false, "left", &rects, Some(2)), DirectionMove::Focus(1));
    assert_eq!(focus_direction(false, "down", &rects, Some(1)), DirectionMove::Focus(3));
    assert_eq!(focus_direction(false, "left", &rects, Some(0)), DirectionMove::Stay);
    assert_eq!(focus_direction(false, "sideways", &rects, Some(0)), DirectionMove::Stay);
    assert_eq!(focus_direction(false, "right", &rects, None), DirectionMove::Stay);
    // Diagonal: (110,110) from (0,0) is as far right as down; both accept it.
    assert_eq!(focus_direction(false, "down", &rects, Some(0)), DirectionMove::Focus(3));
}

#[test]
fn direction_in_scroll_layout_moves_columns_and_rows() {
    let rects = row();
    assert_eq!(focus_direction(true, "left", &rects, Some(0)), DirectionMove::Columns(-1));
    assert_eq!(focus_direction(true, "right", &rects, None), DirectionMove::Columns(1));
    assert_eq!(focus_direction(true, "up", &rects, None), DirectionMove::Stack(-1));
    assert_eq!(focus_direction(true, "down", &rects, None), DirectionMove::Stack(1));
    assert_eq!(focus_direction(true, "over", &rects, None), DirectionMove::Stay);
}

#[test]
fn closest_window_takes_over_focus() {
    let target = Some(Rect::new(0, 0, 100, 100));
    let windows = vec![Some(Rect::new(500, 500, 10, 10)), Some(Rect::new(90, 0, 20, 20)), None];
    assert_eq!(focus_closest_window_to(target, &windows), FocusPick::Window(1));
    assert_eq!(focus_closest_window_to(target, &[]), FocusPick::Clear);
    assert_eq!(focus_closest_window_to(None, &windows), FocusPick::Keep);
    assert_eq!(focus_closest_window_to(target, &[None]), FocusPick::Keep);
    // Ties go to the first window.
    let twins = vec![Some(Rect::new(60, 0, 20, 20)), Some(Rect::new(60, 0, 20, 20))];
    assert_eq!(focus_closest_window_to(target, &twins), FocusPick::Window(0));
}

#[test]
fn column_anchor_is_the_column_top() {
    let starts: HashSet<u64> = [1u64, 3].into_iter().collect();
    assert_eq!(column_anchor(&[1, 2, 3], &starts, 2), Some(1));
    assert_eq!(column_anchor(&[1, 2, 3], &starts, 3), Some(3));
    assert_eq!(column_anchor(&[1, 2, 3], &starts, 9), None);
}

fn hits(on_output: bool, lock_surface: bool, upper_layer: bool, window: bool, lower_layer: bool) -> HitCandidates {
    HitCandidates { on_output, lock_surface, upper_layer, window, lower_layer }
}

#[test]
fn locked_session_only_hits_the_lock_surface() {
    assert_eq!(surface_hit(true, hits(true, true, true, true, true)), HitTarget::Lock);
    assert_eq!(surface_hit(true, hits(true, false, true, true, true)), HitTarget::Nothing);
}

#[test]
fn layers_stack_around_windows() {
    assert_eq!(surface_hit(false, hits(true, false, true, true, true)), HitTarget::UpperLayer);
    assert_eq!(surface_hit(false, hits(true, false, false, true, true)), HitTarget::Window);
    assert_eq!(surface_hit(false, hits(true, false, false, false, true)), HitTarget::LowerLayer);
    assert_eq!(surface_hit(false, hits(true, false, false, false, false)), HitTarget::Nothing);
    // Off every output there are no layers to hit, only windows.
    assert_eq!(surface_hit(false, hits(false, false, true, false, true)), HitTarget::Nothing);
    assert_eq!(surface_hit(false, hits(false, false, true, true, true)), HitTarget::Window);
}

#[test]
fn windows_take_hits_on_their_own_output() {
    assert!(owns_pointer(false, Some("DP-1"), Some("DP-1")));
    assert!(!owns_pointer(false, Some("DP-1"), Some("HDMI-A-1")));
    assert!(owns_pointer(true, Some("DP-1"), Some("HDMI-A-1")));
    assert!(owns_pointer(false, None, Some("HDMI-A-1")));
    assert!(owns_pointer(false, Some("DP-1"), None));
}

fn probe(layer: LayerKind, keyboard_exclusive: bool, can_focus: bool, under_pointer: bool) -> LayerProbe {
    LayerProbe { layer, keyboard_exclusive, can_focus, mapped: true, under_pointer }
}

#[test]
fn the_topmost_exclusive_upper_layer_grabs_the_keyboard() {
    let layers = vec![
        probe(LayerKind::Overlay, true, true, false),
        probe(LayerKind::Bottom, true, true, false),
        probe(LayerKind::Top, true, true, false),
        probe(LayerKind::Top, false, true, false),
    ];
    assert_eq!(exclusive_keyboard_layer(&layers), Some(2));
    let mut unmapped = layers.clone();
    unmapped[2].mapped = false;
    assert_eq!(exclusive_keyboard_layer(&unmapped), Some(0));
    assert_eq!(exclusive_keyboard_layer(&layers[1..2]), None);
}

#[test]
fn focusable_layers_are_searched_tier_by_tier() {
    let layers = vec![
        probe(LayerKind::Top, false, true, true),
        probe(LayerKind::Overlay, false, true, true),
        probe(LayerKind::Overlay, false, false, true),
        probe(LayerKind::Background, false, true, true),
        probe(LayerKind::Bottom, false, true, false),
    ];
    // Overlay before Top, and an Overlay that cannot take focus is passed over.
    assert_eq!(focusable_layer_under(&layers, true), Some(1));
    // The Bottom surface is not under the pointer, so Background is next.
    assert_eq!(focusable_layer_under(&layers, false), Some(3));
    assert_eq!(focusable_layer_under(&layers[..1], false), None);
}
