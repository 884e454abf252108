use novawm::dwindle::{
    dwindle_insert, dwindle_new, dwindle_plan, dwindle_prune, dwindle_remove, split_rect_for, DwindleNode,
};
use novawm::geometry::{Point, Rect};

fn half_ratio() -> u32 {
    0.5f32.to_bits()
}

#[test]
fn new_tree_is_one_leaf() {
    let t = dwindle_new(7, Rect::new(0, 0, 1000, 500));
    assert!(t.contains(7));
    assert!(!t.contains(8));
    assert_eq!(t.leaves(), vec![(7, Rect::new(0, 0, 1000, 500))]);
}

#[test]
fn insert_splits_the_wide_leaf_side_by_side() {
    let mut t = dwindle_new(1, Rect::new(0, 0, 1000, 500));
    // content 1000 - 10 = 990, half = 495
    dwindle_insert(&mut t, 2, Point::new(900, 100), 10, half_ratio(), 495, "auto");
    let leaves = t.leaves();
    assert_eq!(leaves.len(), 2);
    assert_eq!(leaves[0], (1, Rect::new(0, 0, 495, 500)));
    assert_eq!(leaves[1], (2, Rect::new(505, 0, 495, 500)));
}

#[test]
fn insert_then_remove_gives_back_the_window_set() {
    let mut t = dwindle_new(1, Rect::new(0, 0, 1000, 500));
    dwindle_insert(&mut t, 2, Point::new(900, 100), 10, half_ratio(), 495, "auto");
    let mut root = Some(t);
    assert!(!dwindle_remove(&mut root, 2));
    let t = root.unwrap();
    let ids: Vec<u64> = t.leaves().iter().map(|l| l.0).collect();
    assert_eq!(ids, vec![1]);
}

#[test]
fn removing_the_last_window_empties_the_tree() {
    let mut root = Some(dwindle_new(3, Rect::new(0, 0, 100, 100)));
    assert!(dwindle_remove(&mut root, 3));
    assert!(root.is_none());
    let mut none: Option<DwindleNode> = None;
    assert!(dwindle_remove(&mut none, 3));
}

#[test]
fn split_rect_shares_content_after_one_gap() {
    let (a, b) = split_rect_for(Rect::new(0, 0, 1000, 500), true, 400, 10);
    assert_eq!(a, Rect::new(0, 0, 400, 500));
    assert_eq!(b, Rect::new(410, 0, 590, 500));
    let (c, d) = split_rect_for(Rect::new(0, 0, 500, 1000), false, 300, 20);
    assert_eq!(c, Rect::new(0, 0, 500, 300));
    assert_eq!(d, Rect::new(0, 320, 500, 680));
}

#[test]
fn new_window_takes_the_pointer_side_half() {
    let mut t = dwindle_new(1, Rect::new(0, 0, 100, 50));
    dwindle_insert(&mut t, 2, Point::new(10, 25), 0, half_ratio(), 50, "auto");
    assert_eq!(t.leaves(), vec![(2, Rect::new(0, 0, 50, 50)), (1, Rect::new(50, 0, 50, 50))]);
    match &t {
        DwindleNode::Split { horizontal, ratio, rect, .. } => {
            assert!(*horizontal);
            assert_eq!(*ratio, half_ratio());
            assert_eq!(*rect, Rect::new(0, 0, 100, 50));
        }
        DwindleNode::Leaf { .. } => panic!("expected a split"),
    }
    // Pointer in the lower half of a tall leaf: the new window goes below.
    let mut t = dwindle_new(1, Rect::new(0, 0, 50, 100));
    dwindle_insert(&mut t, 2, Point::new(25, 90), 0, half_ratio(), 50, "auto");
    assert_eq!(t.leaves(), vec![(1, Rect::new(0, 0, 50, 50)), (2, Rect::new(0, 50, 50, 50))]);
}

#[test]
fn removal_promotes_the_sibling_into_the_split() {
    let mut t = dwindle_new(1, Rect::new(0, 0, 100, 100));
    dwindle_insert(&mut t, 2, Point::new(90, 50), 0, half_ratio(), 50, "auto");
    // 1 left, 2 right; split the right one vertically with 3 below.
    dwindle_insert(&mut t, 3, Point::new(75, 90), 0, half_ratio(), 50, "auto");
    assert_eq!(
        t.leaves(),
        vec![(1, Rect::new(0, 0, 50, 100)), (2, Rect::new(50, 0, 50, 50)), (3, Rect::new(50, 50, 50, 50))]
    );
    let mut root = Some(t);
    assert!(!dwindle_remove(&mut root, 2));
    // 3 takes over the rect of the split that held 2; 1 is untouched.
    assert_eq!(root.unwrap().leaves(), vec![(1, Rect::new(0, 0, 50, 100)), (3, Rect::new(50, 0, 50, 100))]);
}

fn three_leaves() -> DwindleNode {
    let mut t = dwindle_new(1, Rect::new(0, 0, 100, 100));
    dwindle_insert(&mut t, 2, Point::new(90, 50), 0, half_ratio(), 50, "auto");
    dwindle_insert(&mut t, 3, Point::new(75, 90), 0, half_ratio(), 50, "auto");
    t
}

#[test]
fn pruning_drops_every_window_that_left() {
    let mut root = Some(three_leaves());
    dwindle_prune(&mut root, &[1, 3, 9]);
    assert_eq!(root.as_ref().unwrap().leaves(), vec![(1, Rect::new(0, 0, 50, 100)), (3, Rect::new(50, 0, 50, 100))]);
    dwindle_prune(&mut root, &[]);
    assert!(root.is_none());
    let mut none: Option<DwindleNode> = None;
    dwindle_prune(&mut none, &[1]);
    assert!(none.is_none());
}

#[test]
fn plan_seeds_a_tree_and_inserts_the_rest() {
    let p = dwindle_plan(&None, &[4, 5, 4, 6]);
    assert!(!p.clear);
    assert_eq!(p.seed, Some(4));
    assert_eq!(p.inserts, vec![5, 6]);
    let root = Some(three_leaves());
    let p = dwindle_plan(&root, &[1, 7, 2, 3, 8]);
    assert_eq!(p.seed, None);
    assert_eq!(p.inserts, vec![7, 8]);
    let p = dwindle_plan(&root, &[]);
    assert!(p.clear);
    assert!(p.inserts.is_empty());
}
