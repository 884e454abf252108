//! The dwindle layout: a persistent binary split tree of windows (i3 /
//! Hyprland style). New windows split the leaf under the pointer; removing a
//! window collapses the split that held it.
//!
//! A split's `ratio` is the `f32` fraction of its content space given to the
//! left/top child, held here by its bit pattern (`f32::to_bits`). The
//! floating-point work on it (sizing a new split, recomputing rects after a
//! ratio change) is done by the caller, which hands the resulting integer
//! lengths to the functions below.
use vstd::prelude::*;

use crate::geometry::{div_trunc, fits_i32, imax, rect_contains_spec, rect_of, Point, Rect, Size};
use crate::text::str_eq;

verus! {

/// A node of the dwindle tree. Windows are identified by their id.
#[derive(Debug)]
pub enum DwindleNode {
    Leaf { window: u64, rect: Rect },
    Split {
        /// `true` => children are laid out left/right, `false` => top/bottom.
        horizontal: bool,
        /// Bit pattern of the `f32` fraction of the split's content space
        /// given to the left/top child.
        ratio: u32,
        rect: Rect,
        left_or_top: Box<DwindleNode>,
        right_or_bottom: Box<DwindleNode>,
    },
}

impl DwindleNode {
    /// The leaves of the subtree, left/top first: (window, rect).
    pub open spec fn leaves_spec(self) -> Seq<(u64, Rect)>
        decreases self,
    {
        match self {
            DwindleNode::Leaf { window, rect } => seq![(window, rect)],
            DwindleNode::Split { left_or_top, right_or_bottom, .. } => left_or_top.leaves_spec()
                + right_or_bottom.leaves_spec(),
        }
    }

    /// The windows of the subtree in tree order.
    pub open spec fn windows_spec(self) -> Seq<u64> {
        self.leaves_spec().map_values(|l: (u64, Rect)| l.0)
    }

    /// The node's own rect (leaf tile or split base).
    pub open spec fn rect_spec(self) -> Rect {
        match self {
            DwindleNode::Leaf { rect, .. } => rect,
            DwindleNode::Split { rect, .. } => rect,
        }
    }

    /// The number of splits on the longest root-to-leaf path.
    pub open spec fn height(self) -> nat
        decreases self,
    {
        match self {
            DwindleNode::Leaf { .. } => 0,
            DwindleNode::Split { left_or_top, right_or_bottom, .. } => 1 + imax(
                left_or_top.height() as int,
                right_or_bottom.height() as int,
            ) as nat,
        }
    }

    /// Does this node (or its subtree) hold the given window?
    pub fn contains(&self, window: u64) -> (b: bool)
        ensures
            b == self.windows_spec().contains(window),
        decreases self,
    {
        proof {
            lemma_windows_split(*self);
        }
        match self {
            DwindleNode::Leaf { window: w, .. } => {
                proof {
                    assert(self.windows_spec() =~= seq![*w]);
                    if self.windows_spec().contains(window) {
                        assert(self.windows_spec()[0] == *w);
                    }
                    if *w == window {
                        assert(self.windows_spec()[0] == window);
                    }
                }
                *w == window
            },
            DwindleNode::Split { left_or_top, right_or_bottom, .. } => {
                let a = left_or_top.contains(window);
                let b = right_or_bottom.contains(window);
                proof {
                    lemma_seq_concat_contains(left_or_top.windows_spec(), right_or_bottom.windows_spec(), window);
                }
                a || b
            },
        }
    }

    /// All leaves (window, rect) in tree order.
    pub fn leaves(&self) -> (out: Vec<(u64, Rect)>)
        ensures
            out@ == self.leaves_spec(),
    {
        let mut out: Vec<(u64, Rect)> = Vec::new();
        self.for_each_leaf(&mut out);
        proof {
            assert(out@ =~= self.leaves_spec());
        }
        out
    }

    fn for_each_leaf(&self, out: &mut Vec<(u64, Rect)>)
        ensures
            final(out)@ == old(out)@ + self.leaves_spec(),
        decreases self,
    {
        match self {
            DwindleNode::Leaf { window, rect } => {
                out.push((*window, *rect));
                proof {
                    assert(out@ =~= old(out)@ + self.leaves_spec());
                }
            },
            DwindleNode::Split { left_or_top, right_or_bottom, .. } => {
                left_or_top.for_each_leaf(out);
                right_or_bottom.for_each_leaf(out);
                proof {
                    assert(out@ =~= old(out)@ + self.leaves_spec());
                }
            },
        }
    }
}

pub proof fn lemma_seq_concat_contains(a: Seq<u64>, b: Seq<u64>, x: u64)
    ensures
        (a + b).contains(x) == (a.contains(x) || b.contains(x)),
{
    if (a + b).contains(x) {
        let i = choose|i: int| 0 <= i < (a + b).len() && (a + b)[i] == x;
        if i < a.len() {
            assert(a[i] == x);
        } else {
            assert(b[i - a.len()] == x);
        }
    }
    if a.contains(x) {
        let i = choose|i: int| 0 <= i < a.len() && a[i] == x;
        assert((a + b)[i] == x);
    }
    if b.contains(x) {
        let i = choose|i: int| 0 <= i < b.len() && b[i] == x;
        assert((a + b)[a.len() + i] == x);
    }
}

/// The windows of a split are the left windows followed by the right ones.
pub proof fn lemma_windows_split(node: DwindleNode)
    ensures
        node is Leaf ==> node.windows_spec() =~= seq![node->window],
        node matches DwindleNode::Split { left_or_top, right_or_bottom, .. } ==> node.windows_spec()
            =~= left_or_top.windows_spec() + right_or_bottom.windows_spec(),
        node.leaves_spec().len() == node.windows_spec().len(),
{
    match node {
        DwindleNode::Leaf { window, rect } => {},
        DwindleNode::Split { left_or_top, right_or_bottom, .. } => {
            let l = left_or_top.leaves_spec();
            let r = right_or_bottom.leaves_spec();
            assert((l + r).map_values(|x: (u64, Rect)| x.0) =~= l.map_values(|x: (u64, Rect)| x.0) + r.map_values(
                |x: (u64, Rect)| x.0,
            ));
        },
    }
}


impl DwindleNode {
    /// The same node with its own rect replaced.
    pub open spec fn with_rect(self, rect: Rect) -> DwindleNode {
        match self {
            DwindleNode::Leaf { window, .. } => DwindleNode::Leaf { window, rect },
            DwindleNode::Split { horizontal, ratio, left_or_top, right_or_bottom, .. } => DwindleNode::Split {
                horizontal,
                ratio,
                rect,
                left_or_top,
                right_or_bottom,
            },
        }
    }

    /// Assign a new rect (leaf tile or split base).
    pub fn set_rect(&mut self, rect: Rect)
        ensures
            *final(self) == old(self).with_rect(rect),
    {
        match self {
            DwindleNode::Leaf { rect: r, .. } => {
                *r = rect;
            },
            DwindleNode::Split { rect: r, .. } => {
                *r = rect;
            },
        }
    }
}

/// Create the root dwindle leaf for the first window.
pub fn dwindle_new(window: u64, rect: Rect) -> (node: DwindleNode)
    ensures
        node == (DwindleNode::Leaf { window, rect }),
{
    DwindleNode::Leaf { window, rect }
}

/// Position of the first occurrence of `w` in `ids` (`ids.len()` if none).
pub open spec fn first_index(ids: Seq<u64>, w: u64) -> int
    decreases ids.len(),
{
    if ids.len() == 0 {
        0
    } else if ids[0] == w {
        0
    } else {
        1 + first_index(ids.drop_first(), w)
    }
}

pub proof fn lemma_first_index(ids: Seq<u64>, w: u64)
    ensures
        0 <= first_index(ids, w) <= ids.len(),
        forall|j: int| 0 <= j < first_index(ids, w) ==> ids[j] != w,
        ids.contains(w) ==> first_index(ids, w) < ids.len() && ids[first_index(ids, w)] == w,
        !ids.contains(w) ==> first_index(ids, w) == ids.len(),
    decreases ids.len(),
{
    if ids.len() > 0 && ids[0] != w {
        lemma_first_index(ids.drop_first(), w);
        assert forall|j: int| 0 <= j < first_index(ids, w) implies ids[j] != w by {
            if j > 0 {
                assert(ids[j] == ids.drop_first()[j - 1]);
            }
        }
        if ids.contains(w) {
            let i = choose|i: int| 0 <= i < ids.len() && ids[i] == w;
            assert(ids.drop_first()[i - 1] == w);
        }
        if ids.drop_first().contains(w) {
            let i = choose|i: int| 0 <= i < ids.drop_first().len() && ids.drop_first()[i] == w;
            assert(ids[i + 1] == w);
        }
    } else if ids.len() > 0 {
        assert(ids.contains(w)) by {
            assert(ids[0] == w);
        }
    }
}

/// The first occurrence in a concatenation is found in the first part when
/// it holds the value, after it otherwise.
pub proof fn lemma_first_index_concat(a: Seq<u64>, b: Seq<u64>, w: u64)
    ensures
        a.contains(w) ==> first_index(a + b, w) == first_index(a, w),
        !a.contains(w) ==> first_index(a + b, w) == a.len() + first_index(b, w),
    decreases a.len(),
{
    if a.len() > 0 {
        if a[0] != w {
            lemma_first_index_concat(a.drop_first(), b, w);
            assert((a + b).drop_first() =~= a.drop_first() + b);
            if a.contains(w) {
                let i = choose|i: int| 0 <= i < a.len() && a[i] == w;
                assert(a.drop_first()[i - 1] == w);
            }
            if a.drop_first().contains(w) {
                let i = choose|i: int| 0 <= i < a.drop_first().len() && a.drop_first()[i] == w;
                assert(a[i + 1] == w);
            }
        } else {
            assert(a.contains(w)) by {
                assert(a[0] == w);
            }
        }
    } else {
        assert(a + b =~= b);
    }
}

/// Whether a split of `leaf_rect` for split direction `direction` is
/// horizontal (children side by side): forced by `"horizontal"` /
/// `"vertical"`, otherwise along the longer side.
pub open spec fn split_horizontal_spec(leaf_rect: Rect, direction: Seq<char>) -> bool {
    if direction == "horizontal"@ {
        true
    } else if direction == "vertical"@ {
        false
    } else {
        leaf_rect.size.w >= leaf_rect.size.h
    }
}

/// Orientation of a new split of `leaf_rect`.
pub fn split_is_horizontal(leaf_rect: Rect, split_direction: &str) -> (h: bool)
    ensures
        h == split_horizontal_spec(leaf_rect, split_direction@),
{
    if str_eq(split_direction, "horizontal") {
        true
    } else if str_eq(split_direction, "vertical") {
        false
    } else {
        leaf_rect.size.w >= leaf_rect.size.h
    }
}

/// Whether the new window goes to the left/top half: the pointer is before
/// the leaf's center along the split axis.
pub open spec fn new_on_side_spec(leaf_rect: Rect, mouse: Point, horizontal: bool) -> bool {
    if horizontal {
        mouse.x < leaf_rect.loc.x + div_trunc(leaf_rect.size.w as int, 2)
    } else {
        mouse.y < leaf_rect.loc.y + div_trunc(leaf_rect.size.h as int, 2)
    }
}

/// The rects of the left/top (`.0`) and right/bottom (`.1`) halves after
/// splitting `leaf_rect`, the first half `first_len` long along the split
/// axis and the second one gap after it.
pub open spec fn split_rects_spec(leaf_rect: Rect, horizontal: bool, first_len: int, gaps: int) -> (Rect, Rect) {
    let (x, y, w, h) = (
        leaf_rect.loc.x as int,
        leaf_rect.loc.y as int,
        leaf_rect.size.w as int,
        leaf_rect.size.h as int,
    );
    if horizontal {
        (rect_of(x, y, first_len, h), rect_of(x + first_len + gaps, y, w - first_len - gaps, h))
    } else {
        (rect_of(x, y, w, first_len), rect_of(x, y + first_len + gaps, w, h - first_len - gaps))
    }
}

/// The two leaves that replace the leaf `(old_window, leaf_rect)` when
/// `new_window` splits it, in tree order: the new window takes the half on
/// the pointer's side, the old window the other one.
pub open spec fn split_leaves_spec(
    old_window: u64,
    leaf_rect: Rect,
    new_window: u64,
    mouse: Point,
    gaps: int,
    first_len: int,
    direction: Seq<char>,
) -> Seq<(u64, Rect)> {
    let horizontal = split_horizontal_spec(leaf_rect, direction);
    let (first, second) = split_rects_spec(leaf_rect, horizontal, first_len, gaps);
    if new_on_side_spec(leaf_rect, mouse, horizontal) {
        seq![(new_window, first), (old_window, second)]
    } else {
        seq![(old_window, first), (new_window, second)]
    }
}

/// The split node that replaces the leaf `(old_window, leaf_rect)` when
/// `new_window` splits it: oriented by `direction`, holding the ratio bits
/// `ratio`, based on the leaf's rect, with the two leaves of
/// [`split_leaves_spec`] as children.
pub open spec fn split_node_spec(
    old_window: u64,
    leaf_rect: Rect,
    new_window: u64,
    mouse: Point,
    gaps: int,
    ratio: u32,
    first_len: int,
    direction: Seq<char>,
) -> DwindleNode {
    let horizontal = split_horizontal_spec(leaf_rect, direction);
    let (first, second) = split_rects_spec(leaf_rect, horizontal, first_len, gaps);
    let (a, b) = if new_on_side_spec(leaf_rect, mouse, horizontal) {
        (DwindleNode::Leaf { window: new_window, rect: first }, DwindleNode::Leaf { window: old_window, rect: second })
    } else {
        (DwindleNode::Leaf { window: old_window, rect: first }, DwindleNode::Leaf { window: new_window, rect: second })
    };
    DwindleNode::Split { horizontal, ratio, rect: leaf_rect, left_or_top: Box::new(a), right_or_bottom: Box::new(b) }
}

/// The split a new window makes follows the configured direction: with
/// `"vertical"` the two halves are stacked top and bottom, each as wide as
/// the leaf and in its column; with `"horizontal"` they sit side by side,
/// each as high as the leaf and on its row; otherwise they split the
/// leaf's longer side.
pub proof fn lemma_split_follows_direction(
    old_window: u64,
    leaf_rect: Rect,
    new_window: u64,
    mouse: Point,
    gaps: int,
    ratio: u32,
    first_len: int,
    direction: Seq<char>,
)
    ensures
        ({
            let n = split_node_spec(old_window, leaf_rect, new_window, mouse, gaps, ratio, first_len, direction);
            let a = n->Split_left_or_top.rect_spec();
            let b = n->Split_right_or_bottom.rect_spec();
            &&& n is Split
            &&& n->Split_rect == leaf_rect
            &&& direction == "vertical"@ ==> !n->Split_horizontal && a.loc.x == leaf_rect.loc.x
                && b.loc.x == leaf_rect.loc.x && a.size.w == leaf_rect.size.w && b.size.w == leaf_rect.size.w
                && a.loc.y == leaf_rect.loc.y
            &&& direction == "horizontal"@ ==> n->Split_horizontal && a.loc.y == leaf_rect.loc.y
                && b.loc.y == leaf_rect.loc.y && a.size.h == leaf_rect.size.h && b.size.h == leaf_rect.size.h
                && a.loc.x == leaf_rect.loc.x
            &&& direction != "vertical"@ && direction != "horizontal"@ ==> n->Split_horizontal == (
            leaf_rect.size.w >= leaf_rect.size.h)
        }),
{
    reveal_strlit("vertical");
    reveal_strlit("horizontal");
    assert("vertical"@ != "horizontal"@) by {
        assert("vertical"@[0] != "horizontal"@[0]);
    }
}

/// The split arithmetic for `leaf_rect` fits `i32`.
pub open spec fn split_fits(leaf_rect: Rect, gaps: int, first_len: int) -> bool {
    let (x, y, w, h) = (
        leaf_rect.loc.x as int,
        leaf_rect.loc.y as int,
        leaf_rect.size.w as int,
        leaf_rect.size.h as int,
    );
    &&& fits_i32(x + div_trunc(w, 2))
    &&& fits_i32(y + div_trunc(h, 2))
    &&& fits_i32(x + first_len)
    &&& fits_i32(x + first_len + gaps)
    &&& fits_i32(w - first_len)
    &&& fits_i32(w - first_len - gaps)
    &&& fits_i32(y + first_len)
    &&& fits_i32(y + first_len + gaps)
    &&& fits_i32(h - first_len)
    &&& fits_i32(h - first_len - gaps)
}

/// Returns tile boxes for both halves (left/top first), with the *new*
/// window occupying the mouse-side half: the first half when `new_on_side`.
pub fn rect_pair(
    rect_first: Rect,
    rect_second: Rect,
    old_window: u64,
    new_window: u64,
    new_on_side: bool,
) -> (pair: (DwindleNode, DwindleNode))
    ensures
        new_on_side ==> pair == (DwindleNode::Leaf { window: new_window, rect: rect_first }, DwindleNode::Leaf {
            window: old_window,
            rect: rect_second,
        }),
        !new_on_side ==> pair == (DwindleNode::Leaf { window: old_window, rect: rect_first }, DwindleNode::Leaf {
            window: new_window,
            rect: rect_second,
        }),
{
    if new_on_side {
        (DwindleNode::Leaf { window: new_window, rect: rect_first }, DwindleNode::Leaf { window: old_window, rect: rect_second })
    } else {
        (DwindleNode::Leaf { window: old_window, rect: rect_first }, DwindleNode::Leaf { window: new_window, rect: rect_second })
    }
}

/// Build the split node replacing a leaf: old window + new window, oriented
/// by `split_direction` and ordered by the pointer position relative to the
/// leaf's center. `first_len` is the left/top child's length along the
/// split axis (the split ratio applied to the content space) and `ratio`
/// the bit pattern of the (clamped) ratio it came from.
pub fn build_split(
    old_window: u64,
    leaf_rect: Rect,
    new_window: u64,
    mouse: Point,
    gaps: i32,
    ratio: u32,
    first_len: i32,
    split_direction: &str,
) -> (node: DwindleNode)
    requires
        split_fits(leaf_rect, gaps as int, first_len as int),
    ensures
        node.leaves_spec() == split_leaves_spec(
            old_window,
            leaf_rect,
            new_window,
            mouse,
            gaps as int,
            first_len as int,
            split_direction@,
        ),
        node.rect_spec() == leaf_rect,
        node == split_node_spec(
            old_window,
            leaf_rect,
            new_window,
            mouse,
            gaps as int,
            ratio,
            first_len as int,
            split_direction@,
        ),
{
    let horizontal = split_is_horizontal(leaf_rect, split_direction);
    let center_x = leaf_rect.loc.x + leaf_rect.size.w / 2;
    let center_y = leaf_rect.loc.y + leaf_rect.size.h / 2;
    let new_on_side = if horizontal { mouse.x < center_x } else { mouse.y < center_y };
    let (rect_first, rect_second) = if horizontal {
        let first = Rect { loc: leaf_rect.loc, size: Size { w: first_len, h: leaf_rect.size.h } };
        let second = Rect {
            loc: Point { x: leaf_rect.loc.x + first_len + gaps, y: leaf_rect.loc.y },
            size: Size { w: leaf_rect.size.w - first_len - gaps, h: leaf_rect.size.h },
        };
        (first, second)
    } else {
        let first = Rect { loc: leaf_rect.loc, size: Size { w: leaf_rect.size.w, h: first_len } };
        let second = Rect {
            loc: Point { x: leaf_rect.loc.x, y: leaf_rect.loc.y + first_len + gaps },
            size: Size { w: leaf_rect.size.w, h: leaf_rect.size.h - first_len - gaps },
        };
        (first, second)
    };
    let (left_or_top, right_or_bottom) = rect_pair(rect_first, rect_second, old_window, new_window, new_on_side);
    let ghost lt = left_or_top;
    let ghost rb = right_or_bottom;
    let node = DwindleNode::Split {
        horizontal,
        ratio,
        rect: leaf_rect,
        left_or_top: Box::new(left_or_top),
        right_or_bottom: Box::new(right_or_bottom),
    };
    proof {
        let sr = split_rects_spec(leaf_rect, horizontal, first_len as int, gaps as int);
        assert(rect_first == sr.0);
        assert(rect_second == sr.1);
        assert(new_on_side == new_on_side_spec(leaf_rect, mouse, horizontal));
        assert(node.leaves_spec() == lt.leaves_spec() + rb.leaves_spec());
        assert(lt.leaves_spec() == seq![(lt->Leaf_window, lt->Leaf_rect)]);
        assert(rb.leaves_spec() == seq![(rb->Leaf_window, rb->Leaf_rect)]);
        assert(node.leaves_spec() =~= split_leaves_spec(
            old_window,
            leaf_rect,
            new_window,
            mouse,
            gaps as int,
            first_len as int,
            split_direction@,
        ));
    }
    node
}

/// The leaves after `new_window` splits the first leaf of `target`.
pub open spec fn inserted_leaves_spec(
    leaves: Seq<(u64, Rect)>,
    target: u64,
    new_window: u64,
    mouse: Point,
    gaps: int,
    first_len: int,
    direction: Seq<char>,
) -> Seq<(u64, Rect)> {
    let k = first_index(leaves.map_values(|l: (u64, Rect)| l.0), target);
    leaves.take(k) + split_leaves_spec(target, leaves[k].1, new_window, mouse, gaps, first_len, direction)
        + leaves.skip(k + 1)
}

/// The tree after `new_window` splits the first leaf of `target`: that leaf
/// becomes the split node of [`split_node_spec`] and every other node stays
/// as it was; a tree without `target` is unchanged.
pub open spec fn inserted_tree_spec(
    node: DwindleNode,
    target: u64,
    new_window: u64,
    mouse: Point,
    gaps: int,
    ratio: u32,
    first_len: int,
    direction: Seq<char>,
) -> DwindleNode
    decreases node,
{
    match node {
        DwindleNode::Leaf { window, rect } => if window == target {
            split_node_spec(window, rect, new_window, mouse, gaps, ratio, first_len, direction)
        } else {
            node
        },
        DwindleNode::Split { horizontal, ratio: r, rect, left_or_top, right_or_bottom } => {
            if left_or_top.windows_spec().contains(target) {
                DwindleNode::Split {
                    horizontal,
                    ratio: r,
                    rect,
                    left_or_top: Box::new(
                        inserted_tree_spec(*left_or_top, target, new_window, mouse, gaps, ratio, first_len, direction),
                    ),
                    right_or_bottom,
                }
            } else if right_or_bottom.windows_spec().contains(target) {
                DwindleNode::Split {
                    horizontal,
                    ratio: r,
                    rect,
                    left_or_top,
                    right_or_bottom: Box::new(
                        inserted_tree_spec(
                            *right_or_bottom,
                            target,
                            new_window,
                            mouse,
                            gaps,
                            ratio,
                            first_len,
                            direction,
                        ),
                    ),
                }
            } else {
                node
            }
        },
    }
}

/// Recursive descent: replace the first leaf of `target` with a new split
/// rooted at that leaf's position. A tree without `target` is returned
/// unchanged.
fn insert_into(
    node: DwindleNode,
    target: u64,
    new_window: u64,
    mouse: Point,
    gaps: i32,
    ratio: u32,
    first_len: i32,
    split_direction: &str,
) -> (out: DwindleNode)
    requires
        node.windows_spec().contains(target) ==> split_fits(
            node.leaves_spec()[first_index(node.windows_spec(), target)].1,
            gaps as int,
            first_len as int,
        ),
    ensures
        !node.windows_spec().contains(target) ==> out == node,
        node.windows_spec().contains(target) ==> out.leaves_spec() == inserted_leaves_spec(
            node.leaves_spec(),
            target,
            new_window,
            mouse,
            gaps as int,
            first_len as int,
            split_direction@,
        ),
        out.rect_spec() == node.rect_spec(),
        out == inserted_tree_spec(node, target, new_window, mouse, gaps as int, ratio, first_len as int, split_direction@),
    decreases node,
{
    proof {
        lemma_windows_split(node);
        lemma_first_index(node.windows_spec(), target);
    }
    match node {
        DwindleNode::Leaf { window, rect } => {
            if window == target {
                let out = build_split(window, rect, new_window, mouse, gaps, ratio, first_len, split_direction);
                proof {
                    assert(node.leaves_spec().take(0) =~= Seq::<(u64, Rect)>::empty());
                    assert(node.leaves_spec().skip(1) =~= Seq::<(u64, Rect)>::empty());
                    assert(out.leaves_spec() =~= inserted_leaves_spec(
                        node.leaves_spec(),
                        target,
                        new_window,
                        mouse,
                        gaps as int,
                        first_len as int,
                        split_direction@,
                    ));
                }
                out
            } else {
                proof {
                    assert(!node.windows_spec().contains(target)) by {
                        if node.windows_spec().contains(target) {
                            assert(node.windows_spec()[0] == target);
                        }
                    }
                }
                DwindleNode::Leaf { window, rect }
            }
        },
        DwindleNode::Split { horizontal, ratio: r, rect, left_or_top, right_or_bottom } => {
            let left = *left_or_top;
            let right = *right_or_bottom;
            let ghost wl = left.windows_spec();
            let ghost wr = right.windows_spec();
            let ghost ll = left.leaves_spec();
            let ghost lr = right.leaves_spec();
            proof {
                lemma_seq_concat_contains(wl, wr, target);
                lemma_first_index_concat(wl, wr, target);
                lemma_windows_split(left);
                lemma_windows_split(right);
                lemma_first_index(wl, target);
                lemma_first_index(wr, target);
            }
            if left.contains(target) {
                proof {
                    let k = first_index(wl, target);
                    assert(node.leaves_spec()[k] == ll[k]);
                }
                let new_left = insert_into(left, target, new_window, mouse, gaps, ratio, first_len, split_direction);
                let out = DwindleNode::Split {
                    horizontal,
                    ratio: r,
                    rect,
                    left_or_top: Box::new(new_left),
                    right_or_bottom: Box::new(right),
                };
                proof {
                    let k = first_index(wl, target);
                    let all = node.leaves_spec();
                    assert(all.map_values(|l: (u64, Rect)| l.0) == wl + wr);
                    assert(all.take(k) =~= ll.take(k));
                    assert(all.skip(k + 1) =~= ll.skip(k + 1) + lr);
                    assert(out.leaves_spec() =~= inserted_leaves_spec(
                        all,
                        target,
                        new_window,
                        mouse,
                        gaps as int,
                        first_len as int,
                        split_direction@,
                    ));
                }
                out
            } else {
                proof {
                    if wr.contains(target) {
                        let k = first_index(wr, target);
                        assert(node.leaves_spec()[ll.len() + k] == lr[k]);
                    }
                }
                let new_right = insert_into(right, target, new_window, mouse, gaps, ratio, first_len, split_direction);
                let out = DwindleNode::Split {
                    horizontal,
                    ratio: r,
                    rect,
                    left_or_top: Box::new(left),
                    right_or_bottom: Box::new(new_right),
                };
                proof {
                    if wr.contains(target) {
                        let k = first_index(wr, target);
                        let n = ll.len() as int;
                        let all = node.leaves_spec();
                        assert(all.map_values(|l: (u64, Rect)| l.0) == wl + wr);
                        assert(all.take(n + k) =~= ll + lr.take(k));
                        assert(all.skip(n + k + 1) =~= lr.skip(k + 1));
                        assert(out.leaves_spec() =~= inserted_leaves_spec(
                            all,
                            target,
                            new_window,
                            mouse,
                            gaps as int,
                            first_len as int,
                            split_direction@,
                        ));
                    }
                }
                out
            }
        },
    }
}


/// Manhattan distance from the pointer to a leaf's top-left corner.
pub open spec fn corner_distance(r: Rect, p: Point) -> int {
    let dx = r.loc.x - p.x;
    let dy = r.loc.y - p.y;
    (if dx >= 0 { dx } else { -dx }) + (if dy >= 0 { dy } else { -dy })
}

/// Index of the first leaf at or after `i` whose rect contains `mouse`
/// (-1 if none).
pub open spec fn first_containing(leaves: Seq<(u64, Rect)>, mouse: Point, i: int) -> int
    decreases leaves.len() - i,
{
    if i < 0 || i >= leaves.len() {
        -1
    } else if rect_contains_spec(leaves[i].1, mouse) {
        i
    } else {
        first_containing(leaves, mouse, i + 1)
    }
}

/// Index of the first leaf among the first `n` with the smallest corner
/// distance to `mouse`.
pub open spec fn nearest_upto(leaves: Seq<(u64, Rect)>, mouse: Point, n: int) -> int
    decreases n,
{
    if n <= 1 {
        0
    } else {
        let b = nearest_upto(leaves, mouse, n - 1);
        if corner_distance(leaves[n - 1].1, mouse) < corner_distance(leaves[b].1, mouse) {
            n - 1
        } else {
            b
        }
    }
}

/// The leaf a new window splits: the first leaf under the pointer, else the
/// leaf whose corner is nearest to it (the first of equally near ones).
pub open spec fn closest_leaf_index(leaves: Seq<(u64, Rect)>, mouse: Point) -> int {
    let c = first_containing(leaves, mouse, 0);
    if c >= 0 {
        c
    } else {
        nearest_upto(leaves, mouse, leaves.len() as int)
    }
}

proof fn lemma_nearest_upto_range(leaves: Seq<(u64, Rect)>, mouse: Point, n: int)
    requires
        n >= 1,
    ensures
        0 <= nearest_upto(leaves, mouse, n) < n,
    decreases n,
{
    if n > 1 {
        lemma_nearest_upto_range(leaves, mouse, n - 1);
    }
}

proof fn lemma_first_containing_skip(leaves: Seq<(u64, Rect)>, mouse: Point, i: int, c: int)
    requires
        0 <= i <= c,
        c <= leaves.len(),
        forall|j: int| i <= j < c ==> !rect_contains_spec(#[trigger] leaves[j].1, mouse),
    ensures
        first_containing(leaves, mouse, i) == first_containing(leaves, mouse, c),
    decreases c - i,
{
    if i < c {
        lemma_first_containing_skip(leaves, mouse, i + 1, c);
    }
}

proof fn lemma_leaves_nonempty(node: DwindleNode)
    ensures
        node.leaves_spec().len() >= 1,
    decreases node,
{
    match node {
        DwindleNode::Leaf { .. } => {},
        DwindleNode::Split { left_or_top, right_or_bottom, .. } => {
            lemma_leaves_nonempty(*left_or_top);
        },
    }
}

fn abs_diff(a: i32, b: i32) -> (d: i64)
    ensures
        d == (if a - b >= 0 { a - b } else { b - a }),
{
    let d = a as i64 - b as i64;
    if d >= 0 { d } else { -d }
}

/// Find the leaf whose rect contains `mouse`, or the closest leaf.
pub fn find_leaf_under_or_closest(root: &DwindleNode, mouse: Point) -> (id: u64)
    ensures
        id == root.leaves_spec()[closest_leaf_index(root.leaves_spec(), mouse)].0,
        0 <= closest_leaf_index(root.leaves_spec(), mouse) < root.leaves_spec().len(),
{
    let leaves = root.leaves();
    proof {
        lemma_leaves_nonempty(*root);
    }
    let ghost ls = leaves@;
    let mut best: usize = 0;
    let mut best_dist: i64 = 0;
    let mut i: usize = 0;
    while i < leaves.len()
        invariant
            ls == leaves@,
            ls == root.leaves_spec(),
            ls.len() >= 1,
            i <= ls.len(),
            forall|j: int| 0 <= j < i ==> !rect_contains_spec(#[trigger] ls[j].1, mouse),
            i > 0 ==> best as int == nearest_upto(ls, mouse, i as int),
            i > 0 ==> best_dist == corner_distance(ls[best as int].1, mouse),
            i > 0 ==> best < i,
        decreases ls.len() - i,
    {
        let rect = leaves[i].1;
        if rect.contains(mouse) {
            proof {
                lemma_first_containing_skip(ls, mouse, 0, i as int);
                assert(rect == ls[i as int].1);
                assert(first_containing(ls, mouse, i as int) == i);
            }
            return leaves[i].0;
        }
        let dist = abs_diff(rect.loc.x, mouse.x) + abs_diff(rect.loc.y, mouse.y);
        if i == 0 || dist < best_dist {
            best = i;
            best_dist = dist;
        }
        i = i + 1;
    }
    proof {
        lemma_first_containing_skip(ls, mouse, 0, ls.len() as int);
        lemma_nearest_upto_range(ls, mouse, ls.len() as int);
    }
    leaves[best].0
}

/// Insert `new_window` into the tree, splitting the leaf under the mouse
/// pointer (or the closest one), Hyprland `dwindle` style. `first_len` is the
/// length the split ratio gives the left/top child of that leaf and
/// `split_ratio` the bit pattern of the clamped ratio.
pub fn dwindle_insert(
    root: &mut DwindleNode,
    new_window: u64,
    mouse: Point,
    gaps: i32,
    split_ratio: u32,
    first_len: i32,
    split_direction: &str,
)
    requires
        ({
            let ls = old(root).leaves_spec();
            let t = ls[closest_leaf_index(ls, mouse)].0;
            split_fits(ls[first_index(old(root).windows_spec(), t)].1, gaps as int, first_len as int)
        }),
    ensures
        ({
            let ls = old(root).leaves_spec();
            let t = ls[closest_leaf_index(ls, mouse)].0;
            final(root).leaves_spec() == inserted_leaves_spec(
                ls,
                t,
                new_window,
                mouse,
                gaps as int,
                first_len as int,
                split_direction@,
            )
        }),
        final(root).rect_spec() == old(root).rect_spec(),
        *final(root) == inserted_tree_spec(
            *old(root),
            old(root).leaves_spec()[closest_leaf_index(old(root).leaves_spec(), mouse)].0,
            new_window,
            mouse,
            gaps as int,
            split_ratio,
            first_len as int,
            split_direction@,
        ),
{
    let target = find_leaf_under_or_closest(root, mouse);
    proof {
        let ls = old(root).leaves_spec();
        let k = closest_leaf_index(ls, mouse);
        assert(old(root).windows_spec()[k] == target);
        assert(old(root).windows_spec().contains(target));
    }
    let mut tree = DwindleNode::Leaf { window: new_window, rect: Rect { loc: mouse, size: Size { w: 0, h: 0 } } };
    std::mem::swap(&mut tree, root);
    *root = insert_into(tree, target, new_window, mouse, gaps, split_ratio, first_len, split_direction);
}

/// The two halves of `rect` along the split axis when the first one is
/// `a_len` long: the content (size minus one gap, at least 0) is shared,
/// the second half starts one gap after the first.
pub open spec fn split_rect_spec(rect: Rect, horizontal: bool, a_len: int, gaps: int) -> (Rect, Rect) {
    let (x, y, w, h) = (rect.loc.x as int, rect.loc.y as int, rect.size.w as int, rect.size.h as int);
    if horizontal {
        let content = imax(w - gaps, 0);
        (rect_of(x, y, a_len, h), rect_of(x + a_len + gaps, y, content - a_len, h))
    } else {
        let content = imax(h - gaps, 0);
        (rect_of(x, y, w, a_len), rect_of(x, y + a_len + gaps, w, content - a_len))
    }
}

/// Split a rect into its two children given the first child's length
/// `a_len` along the split axis (the ratio applied to the content space).
pub fn split_rect_for(rect: Rect, horizontal: bool, a_len: i32, gaps: i32) -> (halves: (Rect, Rect))
    requires
        ({
            let len = if horizontal { rect.size.w as int } else { rect.size.h as int };
            let start = if horizontal { rect.loc.x as int } else { rect.loc.y as int };
            &&& fits_i32(len - gaps)
            &&& fits_i32(imax(len - gaps, 0) - a_len)
            &&& fits_i32(start + a_len)
            &&& fits_i32(start + a_len + gaps)
        }),
    ensures
        halves == split_rect_spec(rect, horizontal, a_len as int, gaps as int),
{
    if horizontal {
        let content = if rect.size.w - gaps >= 0 { rect.size.w - gaps } else { 0 };
        let b_len = content - a_len;
        let a = Rect { loc: rect.loc, size: Size { w: a_len, h: rect.size.h } };
        let b = Rect {
            loc: Point { x: rect.loc.x + a_len + gaps, y: rect.loc.y },
            size: Size { w: b_len, h: rect.size.h },
        };
        (a, b)
    } else {
        let content = if rect.size.h - gaps >= 0 { rect.size.h - gaps } else { 0 };
        let b_len = content - a_len;
        let a = Rect { loc: rect.loc, size: Size { w: rect.size.w, h: a_len } };
        let b = Rect {
            loc: Point { x: rect.loc.x, y: rect.loc.y + a_len + gaps },
            size: Size { w: rect.size.w, h: b_len },
        };
        (a, b)
    }
}

/// The tree with the first leaf of `window` taken out: the split that held
/// it is replaced by its sibling subtree, which takes over that split's
/// rect, and every other node stays as it was. `None` when the tree was
/// that leaf alone; a tree without `window` is unchanged.
pub open spec fn removed_spec(node: DwindleNode, window: u64) -> Option<DwindleNode>
    decreases node,
{
    match node {
        DwindleNode::Leaf { window: w, .. } => if w == window {
            None
        } else {
            Some(node)
        },
        DwindleNode::Split { horizontal, ratio, rect, left_or_top, right_or_bottom } => {
            if left_or_top.windows_spec().contains(window) {
                match removed_spec(*left_or_top, window) {
                    Some(a) => Some(
                        DwindleNode::Split { horizontal, ratio, rect, left_or_top: Box::new(a), right_or_bottom },
                    ),
                    None => Some(right_or_bottom.with_rect(rect)),
                }
            } else if right_or_bottom.windows_spec().contains(window) {
                match removed_spec(*right_or_bottom, window) {
                    Some(b) => Some(
                        DwindleNode::Split { horizontal, ratio, rect, left_or_top, right_or_bottom: Box::new(b) },
                    ),
                    None => Some(left_or_top.with_rect(rect)),
                }
            } else {
                Some(node)
            }
        },
    }
}

/// Recursively remove the first leaf of `window`, returning `None` when the
/// subtree it was in became empty. The surviving sibling is promoted into
/// the removed parent's place and takes over the parent's rect.
fn remove_from(node: DwindleNode, window: u64) -> (out: Option<DwindleNode>)
    ensures
        !node.windows_spec().contains(window) ==> out == Some(node),
        node.windows_spec().contains(window) ==> {
            &&& out is None <==> node.windows_spec().len() == 1
            &&& out matches Some(n) ==> {
                &&& n.windows_spec() == node.windows_spec().remove(first_index(node.windows_spec(), window))
                &&& n.rect_spec() == node.rect_spec()
            }
        },
        out == removed_spec(node, window),
    decreases node,
{
    proof {
        lemma_windows_split(node);
        lemma_first_index(node.windows_spec(), window);
    }
    match node {
        DwindleNode::Leaf { window: w, rect } => {
            if w == window {
                None
            } else {
                proof {
                    assert(!node.windows_spec().contains(window)) by {
                        if node.windows_spec().contains(window) {
                            assert(node.windows_spec()[0] == window);
                        }
                    }
                }
                Some(DwindleNode::Leaf { window: w, rect })
            }
        },
        DwindleNode::Split { horizontal, ratio, rect, left_or_top, right_or_bottom } => {
            let left = *left_or_top;
            let right = *right_or_bottom;
            let ghost wl = left.windows_spec();
            let ghost wr = right.windows_spec();
            proof {
                lemma_seq_concat_contains(wl, wr, window);
                lemma_first_index_concat(wl, wr, window);
                lemma_windows_split(left);
                lemma_windows_split(right);
                lemma_leaves_nonempty(left);
                lemma_leaves_nonempty(right);
                lemma_first_index(wl, window);
                lemma_first_index(wr, window);
            }
            if left.contains(window) {
                let new_left = remove_from(left, window);
                match new_left {
                    Some(a) => {
                        let out = DwindleNode::Split {
                            horizontal,
                            ratio,
                            rect,
                            left_or_top: Box::new(a),
                            right_or_bottom: Box::new(right),
                        };
                        proof {
                            lemma_windows_split(out);
                            let k = first_index(wl, window);
                            assert(out.windows_spec() =~= (wl + wr).remove(k));
                        }
                        Some(out)
                    },
                    None => {
                        let mut b = right;
                        b.set_rect(rect);
                        proof {
                            assert(wl.len() == 1);
                            assert(first_index(wl, window) == 0);
                            lemma_windows_split(b);
                            assert(b.windows_spec() =~= (wl + wr).remove(0)) by {
                                assert(b.windows_spec() =~= right.windows_spec()) by {
                                    match right {
                                        DwindleNode::Leaf { .. } => {
                                            assert(b.windows_spec() =~= seq![right->Leaf_window]);
                                            assert(right.windows_spec() =~= seq![right->Leaf_window]);
                                        },
                                        DwindleNode::Split { .. } => {},
                                    }
                                }
                            }
                        }
                        Some(b)
                    },
                }
            } else if right.contains(window) {
                let new_right = remove_from(right, window);
                match new_right {
                    Some(bn) => {
                        let out = DwindleNode::Split {
                            horizontal,
                            ratio,
                            rect,
                            left_or_top: Box::new(left),
                            right_or_bottom: Box::new(bn),
                        };
                        proof {
                            lemma_windows_split(out);
                            let k = first_index(wr, window);
                            assert(out.windows_spec() =~= (wl + wr).remove(wl.len() + k));
                        }
                        Some(out)
                    },
                    None => {
                        let mut a = left;
                        a.set_rect(rect);
                        proof {
                            assert(wr.len() == 1);
                            assert(first_index(wr, window) == 0);
                            assert(a.windows_spec() =~= (wl + wr).remove(wl.len() as int)) by {
                                assert(a.windows_spec() =~= left.windows_spec()) by {
                                    match left {
                                        DwindleNode::Leaf { .. } => {
                                            assert(a.windows_spec() =~= seq![left->Leaf_window]);
                                            assert(left.windows_spec() =~= seq![left->Leaf_window]);
                                        },
                                        DwindleNode::Split { .. } => {},
                                    }
                                }
                            }
                        }
                        Some(a)
                    },
                }
            } else {
                Some(
                    DwindleNode::Split {
                        horizontal,
                        ratio,
                        rect,
                        left_or_top: Box::new(left),
                        right_or_bottom: Box::new(right),
                    },
                )
            }
        },
    }
}

/// Remove a window from the tree, collapsing the split that held it.
/// Returns `true` if the tree became (or was) empty. The rects of the
/// surviving leaves still have to be recomputed from the root by the caller.
pub fn dwindle_remove(root: &mut Option<DwindleNode>, window: u64) -> (empty: bool)
    ensures
        empty == (*final(root) is None),
        *old(root) is None ==> *final(root) is None,
        *old(root) matches Some(t) ==> {
            &&& !t.windows_spec().contains(window) ==> *final(root) == Some(t)
            &&& t.windows_spec().contains(window) ==> {
                &&& *final(root) is None <==> t.windows_spec().len() == 1
                &&& *final(root) matches Some(n) ==> {
                    &&& n.windows_spec() == t.windows_spec().remove(first_index(t.windows_spec(), window))
                    &&& n.rect_spec() == t.rect_spec()
                }
            }
        },
        *final(root) == (match *old(root) {
            Some(t) => removed_spec(t, window),
            None => None,
        }),
{
    let taken = root.take();
    match taken {
        None => true,
        Some(node) => {
            match remove_from(node, window) {
                None => true,
                Some(n) => {
                    *root = Some(n);
                    false
                },
            }
        },
    }
}

/// Number of horizontal (`.1`) and vertical (`.2`) splits between the node
/// and the first leaf of `id`; `.0` tells whether the node holds `id` (no
/// splits are counted when it does not).
pub open spec fn path_counts_spec(node: DwindleNode, id: u64) -> (bool, nat, nat)
    decreases node,
{
    match node {
        DwindleNode::Leaf { window, .. } => (window == id, 0, 0),
        DwindleNode::Split { horizontal, left_or_top, right_or_bottom, .. } => {
            if left_or_top.windows_spec().contains(id) || right_or_bottom.windows_spec().contains(id) {
                let c = if left_or_top.windows_spec().contains(id) {
                    path_counts_spec(*left_or_top, id)
                } else {
                    path_counts_spec(*right_or_bottom, id)
                };
                if horizontal {
                    (c.0, c.1 + 1, c.2)
                } else {
                    (c.0, c.1, c.2 + 1)
                }
            } else {
                (false, 0, 0)
            }
        },
    }
}

proof fn lemma_path_counts_bounded(node: DwindleNode, id: u64)
    ensures
        path_counts_spec(node, id).1 + path_counts_spec(node, id).2 <= node.height(),
        path_counts_spec(node, id).0 == node.windows_spec().contains(id),
    decreases node,
{
    lemma_windows_split(node);
    match node {
        DwindleNode::Leaf { window, .. } => {
            if node.windows_spec().contains(id) {
                assert(node.windows_spec()[0] == id);
            }
            if window == id {
                assert(node.windows_spec()[0] == id);
            }
        },
        DwindleNode::Split { left_or_top, right_or_bottom, .. } => {
            lemma_path_counts_bounded(*left_or_top, id);
            lemma_path_counts_bounded(*right_or_bottom, id);
            lemma_seq_concat_contains(left_or_top.windows_spec(), right_or_bottom.windows_spec(), id);
        },
    }
}

/// Count how many horizontal (`nx`) and vertical (`ny`) splits sit between
/// `node` and the leaf `id`; returns whether the node holds `id`.
pub fn path_split_counts(node: &DwindleNode, id: u64, nx: &mut usize, ny: &mut usize) -> (found: bool)
    requires
        *old(nx) + *old(ny) + node.height() <= usize::MAX,
    ensures
        found == path_counts_spec(*node, id).0,
        *final(nx) == *old(nx) + path_counts_spec(*node, id).1,
        *final(ny) == *old(ny) + path_counts_spec(*node, id).2,
    decreases node,
{
    proof {
        lemma_path_counts_bounded(*node, id);
        lemma_windows_split(*node);
    }
    match node {
        DwindleNode::Leaf { window, .. } => *window == id,
        DwindleNode::Split { horizontal, left_or_top, right_or_bottom, .. } => {
            let child = if left_or_top.contains(id) {
                left_or_top
            } else if right_or_bottom.contains(id) {
                right_or_bottom
            } else {
                return false;
            };
            proof {
                lemma_path_counts_bounded(**child, id);
            }
            if !path_split_counts(child, id, nx, ny) {
                return false;
            }
            if *horizontal {
                *nx = *nx + 1;
            } else {
                *ny = *ny + 1;
            }
            true
        },
    }
}

} // verus!

verus! {

/// Inserting a window the tree does not hold and then removing it gives
/// back the tree's earlier window order: a new window only splits the
/// leaf it landed on.
pub proof fn lemma_insert_then_remove_restores_windows(
    leaves: Seq<(u64, Rect)>,
    target: u64,
    new_window: u64,
    mouse: Point,
    gaps: int,
    first_len: int,
    direction: Seq<char>,
)
    requires
        leaves.map_values(|l: (u64, Rect)| l.0).contains(target),
        !leaves.map_values(|l: (u64, Rect)| l.0).contains(new_window),
    ensures
        ({
            let after = inserted_leaves_spec(leaves, target, new_window, mouse, gaps, first_len, direction).map_values(
                |l: (u64, Rect)| l.0,
            );
            &&& after.contains(new_window)
            &&& after.remove(first_index(after, new_window)) == leaves.map_values(|l: (u64, Rect)| l.0)
        }),
{
    let ids = leaves.map_values(|l: (u64, Rect)| l.0);
    lemma_first_index(ids, target);
    let k = first_index(ids, target);
    let pair = split_leaves_spec(target, leaves[k].1, new_window, mouse, gaps, first_len, direction);
    let after_leaves = leaves.take(k) + pair + leaves.skip(k + 1);
    let after = after_leaves.map_values(|l: (u64, Rect)| l.0);
    let head = ids.take(k);
    let tail = ids.skip(k + 1);
    assert(target != new_window) by {
        if target == new_window {
            assert(ids[k] == target);
        }
    }
    assert(!head.contains(new_window)) by {
        if head.contains(new_window) {
            let j = choose|j: int| 0 <= j < head.len() && head[j] == new_window;
            assert(ids[j] == new_window);
        }
    }
    let horizontal = split_horizontal_spec(leaves[k].1, direction);
    if new_on_side_spec(leaves[k].1, mouse, horizontal) {
        assert(after =~= head + seq![new_window, target] + tail);
        lemma_first_index_concat(head, seq![new_window, target] + tail, new_window);
        assert(first_index(seq![new_window, target] + tail, new_window) == 0);
        assert(first_index(after, new_window) == k) by {
            assert(after =~= head + (seq![new_window, target] + tail));
        }
        assert(after.remove(k) =~= ids) by {
            assert(ids =~= head + seq![target] + tail);
        }
        assert(after[k] == new_window);
    } else {
        assert(after =~= head + seq![target, new_window] + tail);
        lemma_first_index_concat(head, seq![target, new_window] + tail, new_window);
        assert((seq![target, new_window] + tail).drop_first() =~= seq![new_window] + tail);
        assert(first_index(seq![new_window] + tail, new_window) == 0);
        assert(first_index(seq![target, new_window] + tail, new_window) == 1);
        assert(first_index(after, new_window) == k + 1) by {
            assert(after =~= head + (seq![target, new_window] + tail));
        }
        assert(after.remove(k + 1) =~= ids) by {
            assert(ids =~= head + seq![target] + tail);
        }
        assert(after[k + 1] == new_window);
    }
}

/// In a tree without duplicate windows, removing a window drops exactly that
/// window and keeps every other one.
pub proof fn lemma_remove_drops_only_that_window(ids: Seq<u64>, window: u64, other: u64)
    requires
        ids.no_duplicates(),
        ids.contains(window),
    ensures
        !ids.remove(first_index(ids, window)).contains(window),
        other != window ==> (ids.remove(first_index(ids, window)).contains(other) == ids.contains(other)),
{
    lemma_first_index(ids, window);
    let k = first_index(ids, window);
    let r = ids.remove(k);
    if r.contains(window) {
        let j = choose|j: int| 0 <= j < r.len() && r[j] == window;
        if j < k {
            assert(ids[j] == window);
        } else {
            assert(ids[j + 1] == window);
        }
    }
    if other != window && ids.contains(other) {
        let j = choose|j: int| 0 <= j < ids.len() && ids[j] == other;
        if j < k {
            assert(r[j] == other);
        } else {
            assert(j != k);
            assert(r[j - 1] == other);
        }
    }
    if r.contains(other) {
        let j = choose|j: int| 0 <= j < r.len() && r[j] == other;
        if j < k {
            assert(ids[j] == other);
        } else {
            assert(ids[j + 1] == other);
        }
    }
}

} // verus!

verus! {

/// Index of the first of `ids`, at or after `i`, that `live` lacks
/// (`ids.len()` when there is none).
pub open spec fn first_missing_index(ids: Seq<u64>, live: Seq<u64>, i: int) -> int
    decreases ids.len() - i,
{
    if i < 0 || i >= ids.len() {
        ids.len() as int
    } else if !live.contains(ids[i]) {
        i
    } else {
        first_missing_index(ids, live, i + 1)
    }
}

/// The tree after at most `k` rounds of taking out the first window (in
/// tree order) that is no longer live.
pub open spec fn pruned_upto(t: Option<DwindleNode>, live: Seq<u64>, k: nat) -> Option<DwindleNode>
    decreases k,
{
    match t {
        Some(n) => {
            let ids = n.windows_spec();
            let m = first_missing_index(ids, live, 0);
            if k > 0 && m < ids.len() {
                pruned_upto(removed_spec(n, ids[m]), live, (k - 1) as nat)
            } else {
                t
            }
        },
        None => None,
    }
}

/// The number of windows of a tree.
pub open spec fn window_count(t: Option<DwindleNode>) -> nat {
    match t {
        Some(n) => n.windows_spec().len(),
        None => 0,
    }
}

proof fn lemma_first_missing(ids: Seq<u64>, live: Seq<u64>, i: int)
    requires
        0 <= i <= ids.len(),
    ensures
        i <= first_missing_index(ids, live, i) <= ids.len(),
        forall|j: int| i <= j < first_missing_index(ids, live, i) ==> live.contains(#[trigger] ids[j]),
        first_missing_index(ids, live, i) < ids.len() ==> !live.contains(ids[first_missing_index(ids, live, i)]),
    decreases ids.len() - i,
{
    if i < ids.len() && live.contains(ids[i]) {
        lemma_first_missing(ids, live, i + 1);
    }
}

fn slice_holds(v: &[u64], x: u64) -> (b: bool)
    ensures
        b == v@.contains(x),
{
    let mut i: usize = 0;
    while i < v.len()
        invariant
            i <= v@.len(),
            forall|j: int| 0 <= j < i ==> v@[j] != x,
        decreases v@.len() - i,
    {
        if v[i] == x {
            proof {
                assert(v@[i as int] == x);
            }
            return true;
        }
        i = i + 1;
    }
    false
}

/// Take every window that `live` lacks out of the tree, one at a time in
/// tree order, each removal collapsing the split that held the window.
/// Afterwards every window left in the tree is live.
pub fn dwindle_prune(root: &mut Option<DwindleNode>, live: &[u64])
    ensures
        *final(root) == pruned_upto(*old(root), live@, window_count(*old(root))),
        *final(root) matches Some(n) ==> forall|j: int|
            0 <= j < n.windows_spec().len() ==> live@.contains(#[trigger] n.windows_spec()[j]),
{
    let ghost orig = *root;
    let ghost fuel = window_count(*root);
    let mut k: usize = match root {
        Some(n) => {
            proof {
                lemma_windows_split(*n);
            }
            n.leaves().len()
        },
        None => 0,
    };
    let mut done = false;
    while k > 0 && !done
        invariant
            pruned_upto(orig, live@, fuel) == pruned_upto(*root, live@, k as nat),
            *root matches Some(n) ==> n.windows_spec().len() <= k,
            done ==> (*root matches Some(n) ==> first_missing_index(n.windows_spec(), live@, 0) == n.windows_spec().len()),
            done ==> *root is Some,
        decreases 2 * k + (if done { 0int } else { 1int }),
    {
        match root {
            None => {
                k = 0;
            },
            Some(n) => {
                let leaves = n.leaves();
                let ghost ids = n.windows_spec();
                proof {
                    lemma_windows_split(*n);
                    lemma_first_missing(ids, live@, 0);
                }
                let mut i: usize = 0;
                let mut missing: Option<u64> = None;
                while i < leaves.len() && missing.is_none()
                    invariant
                        leaves@ == n.leaves_spec(),
                        ids == n.windows_spec(),
                        leaves@.len() == ids.len(),
                        i <= leaves@.len(),
                        0 <= first_missing_index(ids, live@, 0) <= ids.len(),
                        forall|j: int| 0 <= j < first_missing_index(ids, live@, 0) ==> live@.contains(#[trigger] ids[j]),
                        first_missing_index(ids, live@, 0) < ids.len() ==> !live@.contains(
                            ids[first_missing_index(ids, live@, 0)],
                        ),
                        missing is None ==> first_missing_index(ids, live@, 0) >= i,
                        missing matches Some(x) ==> first_missing_index(ids, live@, 0) < ids.len()
                            && x == ids[first_missing_index(ids, live@, 0)],
                    decreases leaves@.len() - i + (if missing is None { 1int } else { 0int }),
                {
                    let id = leaves[i].0;
                    proof {
                        assert(ids[i as int] == leaves@[i as int].0);
                    }
                    if !slice_holds(live, id) {
                        missing = Some(id);
                        proof {
                            if first_missing_index(ids, live@, 0) > i {
                                assert(live@.contains(ids[i as int]));
                            }
                            assert(first_missing_index(ids, live@, 0) == i);
                        }
                    } else {
                        i = i + 1;
                    }
                }
                match missing {
                    Some(id) => {
                        proof {
                            let m = first_missing_index(ids, live@, 0);
                            assert(ids.contains(id)) by {
                                assert(ids[m] == id);
                            }
                            lemma_first_index(ids, id);
                        }
                        dwindle_remove(root, id);
                        k = k - 1;
                    },
                    None => {
                        done = true;
                    },
                }
            },
        }
    }
    proof {
        if let Some(n) = root {
            if !done {
                assert(k == 0);
                lemma_leaves_nonempty(*n);
                lemma_windows_split(*n);
            }
            lemma_first_missing(n.windows_spec(), live@, 0);
        }
    }
}

} // verus!

verus! {

/// The windows a pass over `windows[1..k]` inserts into a tree holding
/// `tree`: each one that neither the tree nor an earlier insertion holds.
pub open spec fn inserts_upto(tree: Seq<u64>, windows: Seq<u64>, k: int) -> Seq<u64>
    decreases k,
{
    if k <= 1 {
        Seq::empty()
    } else {
        let before = inserts_upto(tree, windows, k - 1);
        if (tree + before).contains(windows[k - 1]) {
            before
        } else {
            before.push(windows[k - 1])
        }
    }
}

/// How an output's dwindle tree follows its windows, once the windows that
/// left have been pruned.
pub struct DwindlePlan {
    /// The output has no windows: its tree is dropped.
    pub clear: bool,
    /// There is no tree: a new one starts as a leaf of this window.
    pub seed: Option<u64>,
    /// The windows to insert, in this order, each splitting the leaf under
    /// the pointer.
    pub inserts: Vec<u64>,
}

/// The plan for a (pruned) tree `root` and the output's windows in order:
/// no windows drop the tree; without a tree the first window seeds it;
/// then every later window the tree lacks is inserted.
pub open spec fn dwindle_plan_spec(root: Option<DwindleNode>, windows: Seq<u64>) -> (bool, Option<u64>, Seq<u64>) {
    if windows.len() == 0 {
        (true, None, Seq::empty())
    } else {
        match root {
            Some(n) => (false, None, inserts_upto(n.windows_spec(), windows, windows.len() as int)),
            None => (false, Some(windows[0]), inserts_upto(seq![windows[0]], windows, windows.len() as int)),
        }
    }
}

/// Decides how an output's dwindle tree follows its windows.
pub fn dwindle_plan(root: &Option<DwindleNode>, windows: &[u64]) -> (p: DwindlePlan)
    ensures
        (p.clear, p.seed, p.inserts@) == dwindle_plan_spec(*root, windows@),
{
    if windows.len() == 0 {
        return DwindlePlan { clear: true, seed: None, inserts: Vec::new() };
    }
    let (seed, tree): (Option<u64>, Vec<u64>) = match root {
        Some(n) => {
            let leaves = n.leaves();
            let mut ids: Vec<u64> = Vec::new();
            let mut i: usize = 0;
            while i < leaves.len()
                invariant
                    leaves@ == n.leaves_spec(),
                    i <= leaves@.len(),
                    ids@ =~= n.windows_spec().take(i as int),
                decreases leaves@.len() - i,
            {
                ids.push(leaves[i].0);
                proof {
                    assert(ids@ =~= n.windows_spec().take(i + 1));
                }
                i = i + 1;
            }
            proof {
                lemma_windows_split(*n);
                assert(ids@ =~= n.windows_spec());
            }
            (None, ids)
        },
        None => {
            let v = vec![windows[0]];
            proof {
                assert(v@ =~= seq![windows@[0]]);
            }
            (Some(windows[0]), v)
        },
    };
    let ghost base = tree@;
    assert(match *root {
        Some(n) => seed is None && base == n.windows_spec(),
        None => seed == Some(windows@[0]) && base == seq![windows@[0]],
    });
    let mut inserts: Vec<u64> = Vec::new();
    let mut k: usize = 1;
    while k < windows.len()
        invariant
            1 <= k <= windows@.len(),
            base == tree@,
            inserts@ == inserts_upto(base, windows@, k as int),
        decreases windows@.len() - k,
    {
        let w = windows[k];
        let present = slice_holds(tree.as_slice(), w) || slice_holds(inserts.as_slice(), w);
        proof {
            lemma_seq_concat_contains(base, inserts@, w);
        }
        if !present {
            inserts.push(w);
        }
        k = k + 1;
    }
    DwindlePlan { clear: false, seed, inserts }
}

} // verus!
