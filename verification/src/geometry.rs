use vstd::prelude::*;

verus! {

/// A point in logical compositor coordinates.
#[derive(Clone, Copy, Debug, PartialEq, Eq, Structural)]
pub struct Point {
    pub x: i32,
    pub y: i32,
}

/// A width/height pair in logical compositor coordinates.
#[derive(Clone, Copy, Debug, PartialEq, Eq, Structural)]
pub struct Size {
    pub w: i32,
    pub h: i32,
}

/// An axis-aligned rectangle: top-left corner plus size.
#[derive(Clone, Copy, Debug, PartialEq, Eq, Structural)]
pub struct Rect {
    pub loc: Point,
    pub size: Size,
}

/// Integer division rounding toward zero (Rust's `/` on signed integers).
pub open spec fn div_trunc(a: int, b: int) -> int {
    if a >= 0 {
        a / b
    } else {
        -((-a) / b)
    }
}

pub open spec fn imax(a: int, b: int) -> int {
    if a >= b {
        a
    } else {
        b
    }
}

pub open spec fn imin(a: int, b: int) -> int {
    if a <= b {
        a
    } else {
        b
    }
}

/// `x.clamp(lo, hi)` for `lo <= hi`.
pub open spec fn iclamp(x: int, lo: int, hi: int) -> int {
    if x < lo {
        lo
    } else if x > hi {
        hi
    } else {
        x
    }
}

pub open spec fn fits_i32(x: int) -> bool {
    i32::MIN <= x <= i32::MAX
}

/// The rectangle with the given corner and size.
pub open spec fn rect_of(x: int, y: int, w: int, h: int) -> Rect {
    Rect {
        loc: Point { x: x as i32, y: y as i32 },
        size: Size { w: w as i32, h: h as i32 },
    }
}

/// Whether `p` lies inside `r`: the left/top edges are inclusive, the
/// right/bottom edges exclusive.
pub open spec fn rect_contains_spec(r: Rect, p: Point) -> bool {
    &&& r.loc.x <= p.x
    &&& r.loc.y <= p.y
    &&& p.x < r.loc.x + r.size.w
    &&& p.y < r.loc.y + r.size.h
}

impl Point {
    pub fn new(x: i32, y: i32) -> (p: Point)
        ensures
            p.x == x,
            p.y == y,
    {
        Point { x, y }
    }
}

impl Rect {
    pub fn new(x: i32, y: i32, w: i32, h: i32) -> (r: Rect)
        ensures
            r.loc.x == x,
            r.loc.y == y,
            r.size.w == w,
            r.size.h == h,
    {
        Rect { loc: Point { x, y }, size: Size { w, h } }
    }

    /// Point containment (half-open on the right and bottom edges).
    pub fn contains(&self, p: Point) -> (b: bool)
        ensures
            b == rect_contains_spec(*self, p),
    {
        let right = self.loc.x as i64 + self.size.w as i64;
        let bottom = self.loc.y as i64 + self.size.h as i64;
        self.loc.x <= p.x && self.loc.y <= p.y && (p.x as i64) < right && (p.y as i64) < bottom
    }
}

} // verus!
