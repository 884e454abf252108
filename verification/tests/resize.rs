use novawm::geometry::{Rect, Size};
use novawm::resize::{client_resize_rect, min_tile, tile_resize_rect, Edges};

const NONE: Edges = Edges { left: false, right: false, top: false, bottom: false };

#[test]
fn client_resize_respects_limits_and_anchors() {
    let r = Rect::new(100, 100, 400, 300);
    let free = Size { w: 0, h: 0 };
    let right = Edges { right: true, ..NONE };
    assert_eq!(client_resize_rect(r, right, 50, 0, free, free), Rect::new(100, 100, 50, 300));
    assert_eq!(client_resize_rect(r, right, -5, 0, free, free), Rect::new(100, 100, 1, 300));
    let left = Edges { left: true, ..NONE };
    assert_eq!(client_resize_rect(r, left, 500, 0, free, free), Rect::new(0, 100, 500, 300));
    assert_eq!(client_resize_rect(r, left, 500, 0, Size { w: 600, h: 0 }, free), Rect::new(-100, 100, 600, 300));
    assert_eq!(client_resize_rect(r, left, 500, 0, free, Size { w: 450, h: 0 }), Rect::new(50, 100, 450, 300));
    let top_left = Edges { left: true, top: true, ..NONE };
    assert_eq!(client_resize_rect(r, top_left, 300, 200, free, free), Rect::new(200, 200, 300, 200));
    assert_eq!(client_resize_rect(r, NONE, 1, 1, free, free), r);
}

#[test]
fn tile_resize_keeps_the_minimum() {
    let r = Rect::new(0, 0, 1000, 800);
    let min = min_tile(true);
    assert_eq!(min, 200);
    assert_eq!(min_tile(false), 80);
    let right = Edges { right: true, ..NONE };
    assert_eq!(tile_resize_rect(r, right, min, 100, 0, 0, 0), Rect::new(0, 0, 200, 800));
    let left = Edges { left: true, ..NONE };
    assert_eq!(tile_resize_rect(r, left, min, 0, 0, 900, 0), Rect::new(800, 0, 200, 800));
    assert_eq!(tile_resize_rect(r, left, min, 0, 0, -50, 0), Rect::new(-50, 0, 1050, 800));
    let top = Edges { top: true, ..NONE };
    assert_eq!(tile_resize_rect(r, top, min, 0, 0, 0, 10), Rect::new(0, 10, 1000, 790));
}
