use novawm::geometry::{Point, Rect};
use novawm::ring::border_ring_rects;

fn on_any(rects: &[Rect], x: i32, y: i32) -> usize {
    rects.iter().filter(|r| r.contains(Point::new(x, y))).count()
}

#[test]
fn ring_rect_count_is_sane() {
    for (name, w, h, max) in [("medium", 700, 420, 80), ("large", 2560, 1600, 200)] {
        let rect = Rect::new(0, 0, w, h);
        let rects = border_ring_rects(rect, 2, 12);
        println!("{name}: {} rects", rects.len());
        assert!(
            rects.len() <= max,
            "{name}: expected <= {max} rects, got {}",
            rects.len()
        );
    }
}

#[test]
fn square_ring_is_four_edges() {
    let rects = border_ring_rects(Rect::new(10, 20, 100, 50), 3, 0);
    assert_eq!(
        rects,
        vec![
            Rect::new(7, 17, 106, 3),
            Rect::new(7, 70, 106, 3),
            Rect::new(7, 20, 3, 50),
            Rect::new(110, 20, 3, 50),
        ]
    );
}

#[test]
fn border_width_and_rounding_are_clamped() {
    // A zero or negative border is drawn one pixel wide; negative rounding is square.
    let a = border_ring_rects(Rect::new(0, 0, 10, 10), 0, -4);
    let b = border_ring_rects(Rect::new(0, 0, 10, 10), 1, 0);
    assert_eq!(a, b);
    assert_eq!(a[0], Rect::new(-1, -1, 12, 1));
}

#[test]
fn rounded_ring_covers_each_ring_pixel_once() {
    let window = Rect::new(0, 0, 40, 30);
    let rects = border_ring_rects(window, 2, 6);
    // Straight edges are covered, the window inside is not, nor the far outside.
    assert_eq!(on_any(&rects, 20, -1), 1);
    assert_eq!(on_any(&rects, 20, -2), 1);
    assert_eq!(on_any(&rects, -1, 15), 1);
    assert_eq!(on_any(&rects, 40, 15), 1);
    assert_eq!(on_any(&rects, 20, 15), 0);
    assert_eq!(on_any(&rects, 20, -3), 0);
    // The outer corner pixel is cut away by the rounding.
    assert_eq!(on_any(&rects, -2, -2), 0);
    // Inside the window's rounded corner, the ring fills the cut-away part.
    assert_eq!(on_any(&rects, 2, 0), 1);
    assert_eq!(on_any(&rects, 0, 0), 0);
    for y in -2..32 {
        for x in -2..42 {
            assert!(on_any(&rects, x, y) <= 1, "pixel ({x}, {y}) covered twice");
        }
    }
}

#[test]
fn ring_rects_are_disjoint_and_nonempty() {
    for (rounding, border) in [(0, 2), (12, 2), (30, 5), (3, 1)] {
        let rects = border_ring_rects(Rect::new(10, 20, 300, 200), border, rounding);
        for (i, a) in rects.iter().enumerate() {
            assert!(a.size.w > 0 && a.size.h > 0, "empty rect {a:?}");
            for b in rects.iter().skip(i + 1) {
                let overlap_w = (a.loc.x + a.size.w).min(b.loc.x + b.size.w) - a.loc.x.max(b.loc.x);
                let overlap_h = (a.loc.y + a.size.h).min(b.loc.y + b.size.h) - a.loc.y.max(b.loc.y);
                assert!(overlap_w <= 0 || overlap_h <= 0, "{a:?} overlaps {b:?}");
            }
        }
    }
}
