//! Coordinates. A length is a whole number of units, [`PX`] of them to
//! one pixel, so that every constant of the interface is exact.

use vstd::prelude::*;

verus! {

/// Units to one pixel.
pub const PX: i64 = 10_000;

/// No corner of a rectangle lies further out than this, in units.
pub const FAR: i64 = 1_000_000_000_000_000;

#[derive(Clone, Copy, PartialEq, Eq, Structural, Debug)]
pub struct Point {
    pub x: i64,
    pub y: i64,
}

impl Point {
    pub open spec fn wf(self) -> bool {
        near(self.x as int) && near(self.y as int)
    }
}

#[derive(Clone, Copy, PartialEq, Eq, Structural, Debug)]
pub struct Rect {
    pub x: i64,
    pub y: i64,
    pub w: i64,
    pub h: i64,
}

pub open spec fn near(v: int) -> bool {
    -FAR <= v <= FAR
}

pub open spec fn min_of(a: int, b: int) -> int {
    if a <= b {
        a
    } else {
        b
    }
}

pub open spec fn max_of(a: int, b: int) -> int {
    if a >= b {
        a
    } else {
        b
    }
}

/// `v` if it lies between `lo` and `hi`, else the nearer of the two.
pub open spec fn clamp_of(v: int, lo: int, hi: int) -> int {
    if v < lo {
        lo
    } else if v > hi {
        hi
    } else {
        v
    }
}

pub fn least(a: i64, b: i64) -> (r: i64)
    ensures
        r == min_of(a as int, b as int),
{
    if a <= b {
        a
    } else {
        b
    }
}

pub fn most(a: i64, b: i64) -> (r: i64)
    ensures
        r == max_of(a as int, b as int),
{
    if a >= b {
        a
    } else {
        b
    }
}

pub fn clamped(v: i64, lo: i64, hi: i64) -> (r: i64)
    ensures
        r == clamp_of(v as int, lo as int, hi as int),
{
    if v < lo {
        lo
    } else if v > hi {
        hi
    } else {
        v
    }
}

impl Rect {
    pub open spec fn left(self) -> int {
        self.x as int
    }

    pub open spec fn top(self) -> int {
        self.y as int
    }

    pub open spec fn right(self) -> int {
        self.x + self.w
    }

    pub open spec fn bottom(self) -> int {
        self.y + self.h
    }

    /// All four corners lie within reach.
    pub open spec fn wf(self) -> bool {
        near(self.left()) && near(self.top()) && near(self.right()) && near(self.bottom())
    }

    /// Do the two rectangles overlap? Touching edges do not.
    pub open spec fn meets(self, b: Rect) -> bool {
        self.left() < b.right() && self.right() > b.left() && self.top() < b.bottom()
            && self.bottom() > b.top()
    }

    /// Does `b` lie inside, edges included?
    pub open spec fn holds(self, b: Rect) -> bool {
        self.left() <= b.left() && self.top() <= b.top() && b.right() <= self.right() && b.bottom()
            <= self.bottom()
    }

    /// Does the unit square of pixel (`px`, `py`) lie inside?
    pub open spec fn holds_pixel(self, px: int, py: int) -> bool {
        self.left() <= px * PX && (px + 1) * PX <= self.right() && self.top() <= py * PX && (py + 1)
            * PX <= self.bottom()
    }

    /// Is (`px`, `py`) inside, edges included?
    pub open spec fn has(self, p: Point) -> bool {
        self.left() <= p.x <= self.right() && self.top() <= p.y <= self.bottom()
    }

    /// The least rectangle that holds both.
    pub open spec fn joined(self, b: Rect) -> Rect {
        let x = min_of(self.left(), b.left());
        let y = min_of(self.top(), b.top());
        Rect {
            x: x as i64,
            y: y as i64,
            w: (max_of(self.right(), b.right()) - x) as i64,
            h: (max_of(self.bottom(), b.bottom()) - y) as i64,
        }
    }
}

/// Do two rectangles overlap?
pub fn intersects(a: Rect, b: Rect) -> (r: bool)
    requires
        a.wf(),
        b.wf(),
    ensures
        r == a.meets(b),
{
    a.x < b.x + b.w && a.x + a.w > b.x && a.y < b.y + b.h && a.y + a.h > b.y
}

/// The union of two rectangles: the least one that holds both.
pub fn union_rect(a: Rect, b: Rect) -> (r: Rect)
    requires
        a.wf(),
        b.wf(),
    ensures
        r == a.joined(b),
        r.wf(),
        r.left() == min_of(a.left(), b.left()),
        r.top() == min_of(a.top(), b.top()),
        r.right() == max_of(a.right(), b.right()),
        r.bottom() == max_of(a.bottom(), b.bottom()),
{
    let x: i64 = least(a.x, b.x);
    let y: i64 = least(a.y, b.y);
    Rect { x, y, w: most(a.x + a.w, b.x + b.w) - x, h: most(a.y + a.h, b.y + b.h) - y }
}

/// The whole pixels of `v`, rounded down.
pub fn floor_px(v: i64) -> (r: i64)
    ensures
        r == v as int / PX as int,
{
    if v >= 0 {
        v / PX
    } else {
        -((-(v + 1)) / PX) - 1
    }
}

/// The whole pixels of `v`, rounded up.
pub open spec fn ceil_of(v: int) -> int {
    -((-v) / PX as int)
}

pub fn ceil_px(v: i64) -> (r: i64)
    requires
        near(v as int),
    ensures
        r == ceil_of(v as int),
{
    -floor_px(-v)
}

/// The whole pixels of `v`, rounded towards zero.
pub open spec fn trunc_of(v: int) -> int {
    if v >= 0 {
        v / PX as int
    } else {
        -((-v) / PX as int)
    }
}

pub fn trunc_px(v: i64) -> (r: i64)
    requires
        near(v as int),
    ensures
        r == trunc_of(v as int),
{
    if v >= 0 {
        v / PX
    } else {
        -((-v) / PX)
    }
}

/// `a / b`, rounded down.
pub fn floor_div(a: i128, b: i128) -> (r: i128)
    requires
        b > 0,
        a > i128::MIN,
    ensures
        r == a as int / b as int,
{
    if a >= 0 {
        a / b
    } else {
        let q: i128 = (-(a + 1)) / b;
        proof {
            let n = -(a + 1);
            assert(a as int / b as int == -(n / b as int) - 1) by (nonlinear_arith)
                requires
                    n == -(a + 1),
                    n >= 0,
                    b > 0,
            ;
        }
        -q - 1
    }
}

/// A length's whole pixels: rounded up, the first pixel edge not before
/// it; towards nothing, the last one not past it, with the sign left out.
pub proof fn law_whole_pixels(v: int)
    ensures
        (ceil_of(v) - 1) * PX < v <= ceil_of(v) * PX,
        v >= 0 ==> trunc_of(v) * PX <= v < (trunc_of(v) + 1) * PX,
        trunc_of(-v) == -trunc_of(v),
{
}

/// A clamped value lies between the bounds, and is the value where that
/// does, or the bound next to it.
pub proof fn law_clamped(v: int, lo: int, hi: int)
    requires
        lo <= hi,
    ensures
        lo <= clamp_of(v, lo, hi) <= hi,
        lo <= v <= hi ==> clamp_of(v, lo, hi) == v,
        v <= lo ==> clamp_of(v, lo, hi) == lo,
        v >= hi ==> clamp_of(v, lo, hi) == hi,
{
}

/// Two rectangles meet where a point lies strictly inside both; what holds
/// both of two rectangles holds the rectangle joined from them, which
/// holds each.
pub proof fn law_rectangles(a: Rect, b: Rect, x: int, y: int, c: Rect)
    requires
        a.wf() && b.wf(),
    ensures
        a.left() < x < a.right() && b.left() < x < b.right() && a.top() < y < a.bottom() && b.top()
            < y < b.bottom() ==> a.meets(b),
        a.meets(b) == b.meets(a),
        a.right() <= b.left() || a.bottom() <= b.top() ==> !a.meets(b),
        a.joined(b).holds(a) && a.joined(b).holds(b),
        c.holds(a) && c.holds(b) ==> c.holds(a.joined(b)),
{
}

} // verus!
