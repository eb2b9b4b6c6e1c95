//! The region picker over a frozen frame: its geometry. Pointer
//! positions, selections and the window's own size are in units; the
//! frame, the monitors and the windows are in pixels.

use vstd::prelude::*;
use crate::card::DISPLAY;
use crate::geom::{clamp_of, clamped, floor_div, least, max_of, min_of, most, near, Point, Rect, FAR, PX};
use crate::pipeline::Region;
use crate::screen::WinRect;

verus! {

/// Positions in the picker's window lie within this.
pub const SPAN: i64 = 20_000_000_000_000;

/// No pixel under the pointer lies further out than this.
pub const PIXEL_FAR: i64 = 30_000_000_000_000;

/// The edge of a resize handle, in units.
pub const HANDLE: i64 = 100_000;

/// A selection below this in either direction is none.
pub const MIN_SIZE: i64 = 30_000;

pub open spec fn spanned(p: Point) -> bool {
    -SPAN <= p.x <= SPAN && -SPAN <= p.y <= SPAN
}

/// The region between two corners, inside a frame of this size.
pub open spec fn corner_region(a: Point, b: Point, w: int, h: int) -> Region {
    let x = clamp_of(min_of(a.x as int, b.x as int), 0, w * PX);
    let y = clamp_of(min_of(a.y as int, b.y as int), 0, h * PX);
    let right = clamp_of(max_of(a.x as int, b.x as int), 0, w * PX);
    let bottom = clamp_of(max_of(a.y as int, b.y as int), 0, h * PX);
    Region {
        x: (x / PX as int) as u32,
        y: (y / PX as int) as u32,
        width: ((right - x) / PX as int) as u32,
        height: ((bottom - y) / PX as int) as u32,
    }
}

/// The longest side a square from `anchor` towards `cursor` can have.
pub open spec fn square_side(anchor: Point, cursor: Point, size: (int, int)) -> int {
    let r = corner_region(anchor, cursor, size.0 / PX as int, size.1 / PX as int);
    let want = max_of(r.width as int, r.height as int) * PX;
    let across = if cursor.x >= anchor.x {
        size.0 - anchor.x
    } else {
        anchor.x as int
    };
    let down = if cursor.y >= anchor.y {
        size.1 - anchor.y
    } else {
        anchor.y as int
    };
    min_of(min_of(want, across), down)
}

/// Where a side of this length starts, seen from the anchor.
pub open spec fn square_start(anchor: int, cursor: int, side: int) -> int {
    max_of(
        if cursor >= anchor {
            anchor
        } else {
            anchor - side
        },
        0,
    ) / PX as int
}

/// The region a drag from `anchor` to `cursor` selects in a window of
/// this size. Locked to a square it grows away from the anchor in the
/// drag's direction.
#[verifier::opaque]
pub open spec fn dragged(anchor: Point, cursor: Point, size: (int, int), square: bool) -> Region {
    if square {
        let side = square_side(anchor, cursor, size);
        Region {
            x: square_start(anchor.x as int, cursor.x as int, side) as u32,
            y: square_start(anchor.y as int, cursor.y as int, side) as u32,
            width: (max_of(side, 0) / PX as int) as u32,
            height: (max_of(side, 0) / PX as int) as u32,
        }
    } else {
        corner_region(anchor, cursor, size.0 / PX as int, size.1 / PX as int)
    }
}

/// A size that the picker's window can have.
pub open spec fn window_size(size: (i64, i64)) -> bool {
    0 < size.0 <= SPAN && 0 < size.1 <= SPAN
}

/// A region that a drag can give.
pub open spec fn drawable(r: Region) -> bool {
    &&& r.x * PX <= 2 * SPAN && r.y * PX <= 2 * SPAN
    &&& r.width * PX <= SPAN && r.height * PX <= SPAN
}

fn start_px(anchor: i64, cursor: i64, side: i64) -> (r: u32)
    requires
        -SPAN <= anchor <= SPAN,
        -SPAN <= side <= 2 * SPAN,
    ensures
        r == square_start(anchor as int, cursor as int, side as int),
        side >= 0 ==> r * PX <= SPAN,
{
    let from: i64 = if cursor >= anchor {
        anchor
    } else {
        anchor - side
    };
    (most(from, 0) / PX) as u32
}

/// The region a drag selects, clamped to a window of this size.
/// `square` locks it to a square.
pub fn drag_region(anchor: Point, cursor: Point, size: (i64, i64), square: bool) -> (r: Region)
    requires
        spanned(anchor),
        window_size(size),
    ensures
        r == dragged(anchor, cursor, (size.0 as int, size.1 as int), square),
        drawable(r),
{
    proof {
        reveal(dragged);
    }
    let (w, h): (u32, u32) = ((size.0 / PX) as u32, (size.1 / PX) as u32);
    let region = Region::from_corners(anchor, cursor, w, h);
    assert(region == corner_region(anchor, cursor, size.0 as int / PX as int, size.1 as int / PX as int));
    if !square {
        return region;
    }
    let want: i64 = if region.width >= region.height {
        region.width as i64 * PX
    } else {
        region.height as i64 * PX
    };
    let across: i64 = if cursor.x >= anchor.x {
        size.0 - anchor.x
    } else {
        anchor.x
    };
    let down: i64 = if cursor.y >= anchor.y {
        size.1 - anchor.y
    } else {
        anchor.y
    };
    let side: i64 = least(least(want, across), down);
    let n: u32 = (most(side, 0) / PX) as u32;
    Region {
        x: start_px(anchor.x, cursor.x, side),
        y: start_px(anchor.y, cursor.y, side),
        width: n,
        height: n,
    }
}

/// Whole pixels.
pub open spec fn whole(v: int) -> bool {
    v % PX as int == 0
}

/// A square drag from a point of the window is square, inside the window
/// and has the anchor for a corner, where everything is in whole pixels.
pub proof fn law_square_drag(anchor: Point, cursor: Point, size: (i64, i64))
    requires
        window_size(size),
        0 <= anchor.x <= size.0 && 0 <= anchor.y <= size.1,
        whole(anchor.x as int) && whole(anchor.y as int),
        whole(size.0 as int) && whole(size.1 as int),
    ensures
        ({
            let r = dragged(anchor, cursor, (size.0 as int, size.1 as int), true);
            &&& r.width == r.height
            &&& (r.x + r.width) * PX <= size.0 && (r.y + r.height) * PX <= size.1
            &&& r.x * PX == anchor.x || (r.x + r.width) * PX == anchor.x
            &&& r.y * PX == anchor.y || (r.y + r.height) * PX == anchor.y
        }),
{
    reveal(dragged);
    let side = square_side(anchor, cursor, (size.0 as int, size.1 as int));
    let w = size.0 as int / PX as int;
    let h = size.1 as int / PX as int;
    let c = corner_region(anchor, cursor, w, h);
    assert(0 <= c.width && 0 <= c.height);
    assert(whole(side));
    assert(0 <= side);
}

pub open spec fn selection_of(r: Region) -> Rect {
    Rect {
        x: (r.x * PX) as i64,
        y: (r.y * PX) as i64,
        w: (r.width * PX) as i64,
        h: (r.height * PX) as i64,
    }
}

/// A region as a selection, in units.
pub fn selection(r: Region) -> (s: Rect)
    requires
        drawable(r),
    ensures
        s == selection_of(r),
        0 <= s.x <= 2 * SPAN && 0 <= s.y <= 2 * SPAN,
        0 <= s.w <= SPAN && 0 <= s.h <= SPAN,
{
    Rect {
        x: r.x as i64 * PX,
        y: r.y as i64 * PX,
        w: r.width as i64 * PX,
        h: r.height as i64 * PX,
    }
}

/// The eight handles of a selection: the corners, then the middles of
/// the edges.
pub open spec fn handle(r: Rect, i: int) -> (int, int) {
    let (mx, my) = (r.x + r.w as int / 2, r.y + r.h as int / 2);
    if i == 0 {
        (r.left(), r.top())
    } else if i == 1 {
        (r.right(), r.top())
    } else if i == 2 {
        (r.left(), r.bottom())
    } else if i == 3 {
        (r.right(), r.bottom())
    } else if i == 4 {
        (mx, r.top())
    } else if i == 5 {
        (mx, r.bottom())
    } else if i == 6 {
        (r.left(), my)
    } else {
        (r.right(), my)
    }
}

/// A selection that the picker can hold.
pub open spec fn selectable(r: Rect) -> bool {
    r.wf() && r.w >= 0 && r.h >= 0
}

/// The eight resize handles of a selection: NW, NE, SW, SE, then N, S,
/// W, E.
pub fn handles(r: Rect) -> (hs: [Point; 8])
    requires
        selectable(r),
    ensures
        forall|i: int|
            0 <= i < 8 ==> (#[trigger] hs@[i]).x == handle(r, i).0 && hs@[i].y == handle(r, i).1,
{
    let (mx, my): (i64, i64) = (r.x + r.w / 2, r.y + r.h / 2);
    [
        Point { x: r.x, y: r.y },
        Point { x: r.x + r.w, y: r.y },
        Point { x: r.x, y: r.y + r.h },
        Point { x: r.x + r.w, y: r.y + r.h },
        Point { x: mx, y: r.y },
        Point { x: mx, y: r.y + r.h },
        Point { x: r.x, y: my },
        Point { x: r.x + r.w, y: my },
    ]
}

/// Is `p` in the handle centred on `h`?
pub open spec fn grips(h: (int, int), p: Point) -> bool {
    2 * h.0 - HANDLE <= 2 * p.x <= 2 * h.0 + HANDLE && 2 * h.1 - HANDLE <= 2 * p.y <= 2 * h.1
        + HANDLE
}

/// The first handle from `i` on that `p` is in.
pub open spec fn gripped(r: Rect, p: Point, i: int) -> Option<usize>
    decreases 8 - i,
{
    if i < 0 || i >= 8 {
        None
    } else if grips(handle(r, i), p) {
        Some(i as usize)
    } else {
        gripped(r, p, i + 1)
    }
}

/// The handle of a selection that `p` is in.
pub fn handle_of(r: Rect, p: Point) -> (h: Option<usize>)
    requires
        selectable(r),
        spanned(p),
    ensures
        h == gripped(r, p, 0),
        h matches Some(i) ==> i < 8,
{
    let hs = handles(r);
    let mut i: usize = 0;
    while i < 8
        invariant
            i <= 8,
            selectable(r),
            spanned(p),
            forall|j: int|
                0 <= j < 8 ==> (#[trigger] hs@[j]).x == handle(r, j).0 && hs@[j].y == handle(
                    r,
                    j,
                ).1,
            gripped(r, p, 0) == gripped(r, p, i as int),
        decreases 8 - i,
    {
        let c = hs[i];
        assert(c == hs@[i as int]);
        if 2 * p.x >= 2 * c.x - HANDLE && 2 * p.x <= 2 * c.x + HANDLE && 2 * p.y >= 2 * c.y - HANDLE
            && 2 * p.y <= 2 * c.y + HANDLE {
            return Some(i);
        }
        i = i + 1;
    }
    None
}

/// How the picker's window shows the frame: the frame's corner on the
/// screen, how many of its pixels are shown, and the window's size.
#[derive(Clone, Copy, Debug)]
pub struct Lens {
    pub origin: (i32, i32),
    pub view: (u32, u32),
    pub size: (i64, i64),
}

/// `a / b`, rounded towards zero.
pub open spec fn trunc_div(a: int, b: int) -> int {
    if a >= 0 {
        a / b
    } else {
        -((-a) / b)
    }
}

/// An edge at `at` in the window, in frame pixels times `size`, kept in
/// the frame.
pub open spec fn edge(at: int, view: int, size: int) -> int {
    clamp_of(at * view, 0, view * size)
}

impl Lens {
    /// A pixel of the frame is at most four pixels of the window across
    /// and at least a unit.
    pub open spec fn wf(self) -> bool {
        &&& window_size(self.size)
        &&& self.view.0 <= self.size.0 && self.view.1 <= self.size.1
        &&& self.view.0 > 0 ==> self.size.0 <= self.view.0 * (4 * PX)
        &&& self.view.1 > 0 ==> self.size.1 <= self.view.1 * (4 * PX)
    }

    pub open spec fn sees(self) -> bool {
        self.view.0 > 0 && self.view.1 > 0
    }

    /// Is `p`, in the window, over `w`, on the screen?
    pub open spec fn over(self, p: Point, w: WinRect) -> bool {
        let x = self.origin.0 * self.size.0 + p.x * self.view.0;
        let y = self.origin.1 * self.size.1 + p.y * self.view.1;
        &&& w.x * self.size.0 <= x < w.right() * self.size.0
        &&& w.y * self.size.1 <= y < w.bottom() * self.size.1
    }

    /// The topmost window that `p` is over; the list is bottom to top.
    pub open spec fn topmost(self, p: Point, windows: Seq<WinRect>) -> Option<WinRect>
        decreases windows.len(),
    {
        if windows.len() == 0 {
            None
        } else if self.over(p, windows.last()) {
            Some(windows.last())
        } else {
            self.topmost(p, windows.drop_last())
        }
    }

    /// A rectangle of the screen, in the window.
    pub open spec fn logical(self, w: WinRect) -> Rect {
        Rect {
            x: (((w.x - self.origin.0) * self.size.0) / self.view.0 as int) as i64,
            y: (((w.y - self.origin.1) * self.size.1) / self.view.1 as int) as i64,
            w: ((w.width * self.size.0) / self.view.0 as int) as i64,
            h: ((w.height * self.size.1) / self.view.1 as int) as i64,
        }
    }

    /// A rectangle of the window in frame pixels, cut to the frame.
    pub open spec fn framed(self, r: Rect) -> Region {
        let x0 = edge(r.left(), self.view.0 as int, self.size.0 as int);
        let y0 = edge(r.top(), self.view.1 as int, self.size.1 as int);
        let x1 = edge(r.right(), self.view.0 as int, self.size.0 as int);
        let y1 = edge(r.bottom(), self.view.1 as int, self.size.1 as int);
        Region {
            x: (x0 / self.size.0 as int) as u32,
            y: (y0 / self.size.1 as int) as u32,
            width: ((x1 - x0) / self.size.0 as int) as u32,
            height: ((y1 - y0) / self.size.1 as int) as u32,
        }
    }

    /// The frame pixel under `p`.
    pub open spec fn pixel(self, p: Point) -> (int, int) {
        (
            trunc_div(p.x * self.view.0, self.size.0 as int),
            trunc_div(p.y * self.view.1, self.size.1 as int),
        )
    }
}

proof fn lemma_product(a: int, b: int, m: int, n: int)
    requires
        -m <= a <= m,
        0 <= b <= n,
    ensures
        -(m * n) <= a * b <= m * n,
{
    assert(-(m * n) <= a * b <= m * n) by (nonlinear_arith)
        requires
            -m <= a <= m,
            0 <= b <= n,
    ;
}

/// `a * b`, which fits in twice the width.
fn times(a: i64, b: i64) -> (r: i128)
    ensures
        r == a * b,
        -0x4000_0000_0000_0000_0000_0000_0000_0000 <= r
            <= 0x4000_0000_0000_0000_0000_0000_0000_0000,
{
    proof {
        let m: int = 0x8000_0000_0000_0000;
        assert(-(m * m) <= a * b <= m * m) by (nonlinear_arith)
            requires
                -m <= a <= m,
                -m <= b <= m,
        ;
        assert(m * m == 0x4000_0000_0000_0000_0000_0000_0000_0000) by (nonlinear_arith)
            requires
                m == 0x8000_0000_0000_0000,
        ;
    }
    a as i128 * b as i128
}

/// One side of a rectangle of the screen in the window.
fn shown(v: i64, size: i64, view: u32) -> (r: i64)
    requires
        -0x1_0000_0000 <= v <= 0x1_0000_0000,
        0 < size <= SPAN,
        size <= view * (4 * PX),
    ensures
        r == (v * size) / view as int,
        -FAR <= 2 * r <= FAR,
        v <= i32::MAX ==> r <= DISPLAY,
        v >= 0 ==> r >= 0,
{
    let n: i128 = times(v, size);
    proof {
        let q = (v * size) / view as int;
        assert(-0x1_0000_0000 * (4 * PX) <= q <= 0x1_0000_0000 * (4 * PX)) by (nonlinear_arith)
            requires
                q == (v * size) / view as int,
                -0x1_0000_0000 <= v <= 0x1_0000_0000,
                0 < size <= view * (4 * PX),
                PX == 10_000,
                view > 0,
        ;
        assert(v <= 0x7fff_ffff ==> q <= 0x7fff_ffff * (4 * PX)) by (nonlinear_arith)
            requires
                q == (v * size) / view as int,
                0 < size <= view * (4 * PX),
                PX == 10_000,
                view > 0,
        ;
        assert(v >= 0 ==> q >= 0) by (nonlinear_arith)
            requires
                q == (v * size) / view as int,
                0 < size,
                view > 0,
        ;
        assert(view > 0);
    }
    floor_div(n, view as i128) as i64
}

/// An edge, in frame pixels times `size`, kept in the frame.
fn edge_at(at: i64, view: u32, size: i64) -> (r: i128)
    requires
        near(at as int),
        0 < size <= SPAN,
    ensures
        r == edge(at as int, view as int, size as int),
        0 <= r <= view * size,
{
    let v: i128 = times(at, view as i64);
    let most: i128 = times(view as i64, size);
    proof {
        assert(0 <= view * size) by (nonlinear_arith)
            requires
                0 <= view,
                0 < size,
        ;
    }
    if v < 0 {
        0
    } else if v > most {
        most
    } else {
        v
    }
}

/// The start and the length of a span of the window, in frame pixels.
fn span_px(from: i64, to: i64, view: u32, size: i64) -> (r: (u32, u32))
    requires
        near(from as int) && near(to as int),
        from <= to,
        0 < size <= SPAN,
    ensures
        ({
            let lo = edge(from as int, view as int, size as int);
            let hi = edge(to as int, view as int, size as int);
            r.0 == lo / size as int && r.1 == (hi - lo) / size as int
        }),
        r.0 + r.1 <= view,
{
    let lo: i128 = edge_at(from, view, size);
    let hi: i128 = edge_at(to, view, size);
    let ghost a = lo as int / size as int;
    let ghost b = (hi - lo) / size as int;
    proof {
        assert(from * view <= to * view) by (nonlinear_arith)
            requires
                from <= to,
                0 <= view,
        ;
        assert(lo <= hi);
        assert(0 <= a && 0 <= b && a + b <= view) by (nonlinear_arith)
            requires
                a == lo as int / size as int,
                b == (hi - lo) / size as int,
                0 <= lo <= hi <= view * size,
                0 < size,
        ;
    }
    ((lo / size as i128) as u32, ((hi - lo) / size as i128) as u32)
}

/// One coordinate of the frame pixel under a position.
fn pixel_at(at: i64, view: u32, size: i64) -> (r: i64)
    requires
        -SPAN <= at <= SPAN,
        0 < size <= SPAN,
        view <= size,
    ensures
        r == trunc_div(at * view, size as int),
        -PIXEL_FAR <= r <= PIXEL_FAR,
{
    let n: i128 = times(at, view as i64);
    proof {
        let m = if at * view >= 0 {
            at * view
        } else {
            -(at * view)
        };
        let far = if at >= 0 {
            at as int
        } else {
            -at
        };
        assert(m == far * view) by (nonlinear_arith)
            requires
                m == (if at * view >= 0 {
                    at * view
                } else {
                    -(at * view)
                }),
                far == (if at >= 0 {
                    at as int
                } else {
                    -at
                }),
                view >= 0,
        ;
        assert(0 <= m / size as int <= far) by (nonlinear_arith)
            requires
                m == far * view,
                0 <= far,
                0 <= view <= size,
                0 < size,
        ;
    }
    let q: i128 = if n >= 0 {
        n / size as i128
    } else {
        -((-n) / size as i128)
    };
    q as i64
}

/// A selection: drawn by hand, or snapped to a window or a monitor.
#[derive(Clone, Copy, Debug, PartialEq, Eq, Structural)]
pub enum Picked {
    Free(Rect),
    Snap(WinRect),
}

/// The part of a rectangle of the screen that is in a frame with its
/// corner at `origin`, in frame pixels.
pub open spec fn cut_to(w: WinRect, origin: (i32, i32), view: (u32, u32)) -> Region {
    let x = clamp_of(w.x - origin.0, 0, view.0 as int);
    let y = clamp_of(w.y - origin.1, 0, view.1 as int);
    Region {
        x: x as u32,
        y: y as u32,
        width: (clamp_of(w.right() - origin.0, 0, view.0 as int) - x) as u32,
        height: (clamp_of(w.bottom() - origin.1, 0, view.1 as int) - y) as u32,
    }
}

impl Lens {
    /// Where the window shows a selection.
    pub open spec fn rect(self, p: Picked) -> Rect {
        match p {
            Picked::Free(r) => r,
            Picked::Snap(w) => self.logical(w),
        }
    }

    /// The frame pixels of a selection.
    pub open spec fn region(self, p: Picked) -> Region {
        match p {
            Picked::Free(r) => self.framed(r),
            Picked::Snap(w) => cut_to(w, self.origin, self.view),
        }
    }

    /// A selection that this window can show.
    pub open spec fn shows(self, p: Picked) -> bool {
        match p {
            Picked::Free(r) => selectable(r),
            Picked::Snap(_) => self.sees(),
        }
    }

    /// The topmost window under the pointer.
    pub fn window_at(&self, p: Point, windows: &Vec<WinRect>) -> (r: Option<WinRect>)
        requires
            self.wf(),
            spanned(p),
        ensures
            r == self.topmost(p, windows@),
            r matches Some(w) ==> windows@.contains(w),
    {
        proof {
            lemma_product(self.origin.0 as int, self.size.0 as int, 0x8000_0000, SPAN as int);
            lemma_product(self.origin.1 as int, self.size.1 as int, 0x8000_0000, SPAN as int);
        }
        let x: i128 = times(self.origin.0 as i64, self.size.0) + times(p.x, self.view.0 as i64);
        let y: i128 = times(self.origin.1 as i64, self.size.1) + times(p.y, self.view.1 as i64);
        let mut i: usize = windows.len();
        assert(windows@.take(windows@.len() as int) =~= windows@);
        while i > 0
            invariant
                i <= windows@.len(),
                x == self.origin.0 * self.size.0 + p.x * self.view.0,
                y == self.origin.1 * self.size.1 + p.y * self.view.1,
                self.topmost(p, windows@) == self.topmost(p, windows@.take(i as int)),
            decreases i,
        {
            i = i - 1;
            let w = windows[i];
            proof {
                assert(windows@.take(i + 1).drop_last() =~= windows@.take(i as int));
                assert(windows@.take(i + 1).last() == w);
            }
            let right: i64 = w.x as i64 + w.width as i64;
            let bottom: i64 = w.y as i64 + w.height as i64;
            if x >= times(w.x as i64, self.size.0) && x < times(right, self.size.0) && y >= times(
                w.y as i64,
                self.size.1,
            ) && y < times(bottom, self.size.1) {
                assert(windows@[i as int] == w);
                return Some(w);
            }
        }
        None
    }

    /// A rectangle of the screen, in the window.
    pub fn to_logical(&self, w: WinRect) -> (r: Rect)
        requires
            self.wf(),
            self.sees(),
        ensures
            r == self.logical(w),
            selectable(r),
            -FAR <= 2 * r.x <= FAR && -FAR <= 2 * r.y <= FAR,
            w.width <= i32::MAX ==> r.w <= DISPLAY,
            w.height <= i32::MAX ==> r.h <= DISPLAY,
    {
        Rect {
            x: shown(w.x as i64 - self.origin.0 as i64, self.size.0, self.view.0),
            y: shown(w.y as i64 - self.origin.1 as i64, self.size.1, self.view.1),
            w: shown(w.width as i64, self.size.0, self.view.0),
            h: shown(w.height as i64, self.size.1, self.view.1),
        }
    }

    /// Where the window shows a selection.
    pub fn rect_of(&self, p: Picked) -> (r: Rect)
        requires
            self.wf(),
            self.shows(p),
        ensures
            r == self.rect(p),
            selectable(r),
    {
        match p {
            Picked::Free(r) => r,
            Picked::Snap(w) => self.to_logical(w),
        }
    }

    /// A rectangle of the window to frame pixels, cut to the frame.
    pub fn rect_to_frame(&self, r: Rect) -> (g: Region)
        requires
            self.wf(),
            selectable(r),
        ensures
            g == self.framed(r),
            g.x + g.width <= self.view.0,
            g.y + g.height <= self.view.1,
    {
        let (x, w): (u32, u32) = span_px(r.x, r.x + r.w, self.view.0, self.size.0);
        let (y, h): (u32, u32) = span_px(r.y, r.y + r.h, self.view.1, self.size.1);
        Region { x, y, width: w, height: h }
    }

    /// The frame pixels of a selection.
    pub fn region_of(&self, p: Picked) -> (g: Region)
        requires
            self.wf(),
            self.shows(p),
        ensures
            g == self.region(p),
            g.x + g.width <= self.view.0,
            g.y + g.height <= self.view.1,
    {
        match p {
            Picked::Free(r) => self.rect_to_frame(r),
            Picked::Snap(w) => {
                let (vw, vh): (i64, i64) = (self.view.0 as i64, self.view.1 as i64);
                let (left, top): (i64, i64) = (
                    w.x as i64 - self.origin.0 as i64,
                    w.y as i64 - self.origin.1 as i64,
                );
                let x: i64 = clamped(left, 0, vw);
                let y: i64 = clamped(top, 0, vh);
                let right: i64 = clamped(left + w.width as i64, 0, vw);
                let bottom: i64 = clamped(top + w.height as i64, 0, vh);
                Region {
                    x: x as u32,
                    y: y as u32,
                    width: (right - x) as u32,
                    height: (bottom - y) as u32,
                }
            },
        }
    }

    /// The frame pixel under a position of the pointer.
    pub fn frame_pos(&self, p: Point) -> (r: (i64, i64))
        requires
            self.wf(),
            spanned(p),
        ensures
            r.0 == self.pixel(p).0 && r.1 == self.pixel(p).1,
            -PIXEL_FAR <= r.0 <= PIXEL_FAR,
            -PIXEL_FAR <= r.1 <= PIXEL_FAR,
    {
        (
            pixel_at(p.x, self.view.0, self.size.0),
            pixel_at(p.y, self.view.1, self.size.1),
        )
    }
}

/// A window that lies in the frame is captured to the pixel.
pub proof fn law_snap_is_exact(lens: Lens, w: WinRect)
    requires
        lens.origin.0 <= w.x && w.right() <= lens.origin.0 + lens.view.0,
        lens.origin.1 <= w.y && w.bottom() <= lens.origin.1 + lens.view.1,
    ensures
        lens.region(Picked::Snap(w)) == (Region {
            x: (w.x - lens.origin.0) as u32,
            y: (w.y - lens.origin.1) as u32,
            width: w.width,
            height: w.height,
        }),
{
}

/// At one pixel of the window to the pixel, a drawn selection inside the
/// window is captured to the pixel, wherever the frame's corner is on the
/// screen.
pub proof fn law_drawn_is_exact(lens: Lens, r: Rect)
    requires
        lens.wf(),
        lens.size.0 == lens.view.0 * PX && lens.size.1 == lens.view.1 * PX,
        0 <= r.x && 0 <= r.w && r.right() <= lens.size.0,
        0 <= r.y && 0 <= r.h && r.bottom() <= lens.size.1,
    ensures
        lens.framed(r) == (Region {
            x: (r.x as int / PX as int) as u32,
            y: (r.y as int / PX as int) as u32,
            width: (r.w as int / PX as int) as u32,
            height: (r.h as int / PX as int) as u32,
        }),
{
    lemma_native(r.x as int, r.w as int, lens.view.0 as int, lens.size.0 as int);
    lemma_native(r.y as int, r.h as int, lens.view.1 as int, lens.size.1 as int);
}

proof fn lemma_native(x: int, w: int, view: int, size: int)
    requires
        0 < size,
        0 <= view,
        size == view * PX,
        0 <= x && 0 <= w && x + w <= size,
    ensures
        ({
            let lo = edge(x, view, size);
            let hi = edge(x + w, view, size);
            lo / size == x / PX as int && (hi - lo) / size == w / PX as int
        }),
{
    assert(0 <= x * view <= (x + w) * view <= view * size) by (nonlinear_arith)
        requires
            0 <= x,
            0 <= w,
            x + w <= size,
            0 <= view,
    ;
    assert((x + w) * view - x * view == w * view) by (nonlinear_arith);
    lemma_cancel(x, view);
    lemma_cancel(w, view);
}

/// `a * v` over `v * PX` is `a` over `PX`.
proof fn lemma_cancel(a: int, v: int)
    requires
        v > 0,
        a >= 0,
    ensures
        (a * v) / (v * PX) == a / PX as int,
{
    vstd::arithmetic::div_mod::lemma_div_denominator(a * v, v, PX as int);
    assert((a * v) / v == a) by (nonlinear_arith)
        requires
            v > 0,
    ;
}

/// The screen that the picker covers: the monitors and their windows, and
/// the least rectangle round all monitors.
pub struct ShellLayout {
    pub monitors: Vec<WinRect>,
    pub windows: Vec<WinRect>,
    pub union: WinRect,
}

/// The ends of a set of monitors: left, top, right, bottom.
pub open spec fn extent_of(mons: Seq<WinRect>) -> (int, int, int, int)
    decreases mons.len(),
{
    if mons.len() == 0 {
        (0, 0, 0, 0)
    } else {
        let m = mons.last();
        if mons.len() == 1 {
            (m.x as int, m.y as int, m.right(), m.bottom())
        } else {
            let u = extent_of(mons.drop_last());
            (
                min_of(u.0, m.x as int),
                min_of(u.1, m.y as int),
                max_of(u.2, m.right()),
                max_of(u.3, m.bottom()),
            )
        }
    }
}

/// Every monitor lies in the extent.
pub proof fn law_extent_holds(mons: Seq<WinRect>, i: int)
    requires
        0 <= i < mons.len(),
    ensures
        ({
            let u = extent_of(mons);
            &&& u.0 <= mons[i].x && mons[i].right() <= u.2
            &&& u.1 <= mons[i].y && mons[i].bottom() <= u.3
        }),
    decreases mons.len(),
{
    if i < mons.len() - 1 {
        law_extent_holds(mons.drop_last(), i);
        assert(mons.drop_last()[i] == mons[i]);
    }
}

/// The union's extents are those of the monitors.
pub open spec fn union_is(u: WinRect, mons: Seq<WinRect>) -> bool {
    (u.x as int, u.y as int, u.right(), u.bottom()) == extent_of(mons)
}

/// The layout of these monitors and windows. The monitors' right and
/// bottom edges are screen coordinates.
pub fn layout(monitors: Vec<WinRect>, windows: Vec<WinRect>) -> (r: ShellLayout)
    requires
        forall|i: int|
            0 <= i < monitors@.len() ==> (#[trigger] monitors@[i]).right() <= i32::MAX
                && monitors@[i].bottom() <= i32::MAX,
    ensures
        r.monitors == monitors,
        r.windows == windows,
        union_is(r.union, monitors@),
{
    let mut u = WinRect { x: 0, y: 0, width: 0, height: 0 };
    let mut i: usize = 0;
    while i < monitors.len()
        invariant
            i <= monitors@.len(),
            union_is(u, monitors@.take(i as int)),
            u.right() <= i32::MAX && u.bottom() <= i32::MAX,
            forall|j: int|
                0 <= j < monitors@.len() ==> (#[trigger] monitors@[j]).right() <= i32::MAX
                    && monitors@[j].bottom() <= i32::MAX,
        decreases monitors@.len() - i,
    {
        let m = monitors[i];
        assert(monitors@[i as int].right() <= i32::MAX);
        proof {
            assert(monitors@.take(i + 1).drop_last() =~= monitors@.take(i as int));
            assert(monitors@.take(i + 1).last() == m);
        }
        if i == 0 {
            u = m;
        } else {
            let x: i64 = least(u.x as i64, m.x as i64);
            let y: i64 = least(u.y as i64, m.y as i64);
            let right: i64 = most(u.x as i64 + u.width as i64, m.x as i64 + m.width as i64);
            let bottom: i64 = most(u.y as i64 + u.height as i64, m.y as i64 + m.height as i64);
            u = WinRect {
                x: x as i32,
                y: y as i32,
                width: (right - x) as u32,
                height: (bottom - y) as u32,
            };
        }
        i = i + 1;
    }
    assert(monitors@.take(i as int) =~= monitors@);
    ShellLayout { monitors, windows, union: u }
}

/// Can the picker open over this layout? Where the compositor places
/// windows it needs none.
pub fn can_open(wayland: bool, layout: &ShellLayout) -> (r: Result<(), String>)
    ensures
        match r {
            Ok(_) => wayland || (layout.union.width > 0 && layout.union.height > 0),
            Err(e) => !wayland && (layout.union.width == 0 || layout.union.height == 0) && e@
                == "no monitor layout"@,
        },
{
    if !wayland && (layout.union.width == 0 || layout.union.height == 0) {
        return Err("no monitor layout".to_owned());
    }
    Ok(())
}

/// The eight handles stand on the selection's corners, and in the middle
/// of its edges: the even ones of the first four on the left, the last two
/// of them at the bottom; then top, bottom, left and right.
pub proof fn law_handles(r: Rect, i: int)
    requires
        selectable(r),
        0 <= i < 8,
    ensures
        ({
            let (x, y) = handle(r, i);
            let (cx, cy) = (r.left() + r.right(), r.top() + r.bottom());
            &&& i < 4 ==> x == (if i % 2 == 0 {
                r.left()
            } else {
                r.right()
            })
            &&& i < 4 ==> y == (if i < 2 {
                r.top()
            } else {
                r.bottom()
            })
            &&& i == 4 || i == 5 ==> 2 * x <= cx <= 2 * x + 1
            &&& i == 4 ==> y == r.top()
            &&& i == 5 ==> y == r.bottom()
            &&& i == 6 || i == 7 ==> 2 * y <= cy <= 2 * y + 1
            &&& i == 6 ==> x == r.left()
            &&& i == 7 ==> x == r.right()
        }),
{
}

/// A press within half a handle's size of a handle grips it, where the
/// selection is large enough that its handles lie apart.
pub proof fn law_handle_gripped(r: Rect, i: int, p: Point)
    requires
        selectable(r),
        r.w > 2 * HANDLE + 2 && r.h > 2 * HANDLE + 2,
        0 <= i < 8,
        -HANDLE <= 2 * (p.x - handle(r, i).0) <= HANDLE,
        -HANDLE <= 2 * (p.y - handle(r, i).1) <= HANDLE,
    ensures
        gripped(r, p, 0) == Some(i as usize),
{
    reveal_with_fuel(gripped, 9);
}

/// A press further off every handle grips none.
pub proof fn law_handle_missed(r: Rect, p: Point)
    requires
        forall|i: int|
            0 <= i < 8 ==> {
                let h = #[trigger] handle(r, i);
                2 * p.x < 2 * h.0 - HANDLE || 2 * h.0 + HANDLE < 2 * p.x || 2 * p.y < 2 * h.1
                    - HANDLE || 2 * h.1 + HANDLE < 2 * p.y
            },
    ensures
        gripped(r, p, 0) is None,
{
    reveal_with_fuel(gripped, 9);
    assert forall|i: int| 0 <= i < 8 implies !grips(#[trigger] handle(r, i), p) by {}
}

/// A dragged region has the two points as its opposite corners, whichever
/// way it was dragged, as whole pixels.
pub proof fn law_drag_corners(anchor: Point, cursor: Point, size: (i64, i64))
    requires
        window_size(size),
        whole(size.0 as int) && whole(size.1 as int),
        whole(anchor.x as int) && whole(anchor.y as int),
        whole(cursor.x as int) && whole(cursor.y as int),
        0 <= anchor.x <= size.0 && 0 <= anchor.y <= size.1,
        0 <= cursor.x <= size.0 && 0 <= cursor.y <= size.1,
    ensures
        ({
            let r = dragged(anchor, cursor, (size.0 as int, size.1 as int), false);
            &&& r.x * PX == min_of(anchor.x as int, cursor.x as int)
            &&& r.y * PX == min_of(anchor.y as int, cursor.y as int)
            &&& (r.x + r.width) * PX == max_of(anchor.x as int, cursor.x as int)
            &&& (r.y + r.height) * PX == max_of(anchor.y as int, cursor.y as int)
            &&& r == dragged(cursor, anchor, (size.0 as int, size.1 as int), false)
        }),
{
    reveal(dragged);
    let p = PX as int;
    assert((size.0 as int / p) * p == size.0 && (size.1 as int / p) * p == size.1);
    assert((anchor.x as int / p) * p == anchor.x && (anchor.y as int / p) * p == anchor.y);
    assert((cursor.x as int / p) * p == cursor.x && (cursor.y as int / p) * p == cursor.y);
    assert((cursor.x - anchor.x) % p == 0 && (anchor.x - cursor.x) % p == 0);
    assert((cursor.y - anchor.y) % p == 0 && (anchor.y - cursor.y) % p == 0);
}

/// A point beyond the window's edge drags to the edge.
pub proof fn law_drag_clamped(anchor: Point, cursor: Point, at: Point, size: (i64, i64))
    requires
        window_size(size),
        whole(size.0 as int) && whole(size.1 as int),
        at.x == clamp_of(cursor.x as int, 0, size.0 as int),
        at.y == clamp_of(cursor.y as int, 0, size.1 as int),
    ensures
        dragged(anchor, cursor, (size.0 as int, size.1 as int), false) == dragged(
            anchor,
            at,
            (size.0 as int, size.1 as int),
            false,
        ),
{
    reveal(dragged);
    let p = PX as int;
    assert((size.0 as int / p) * p == size.0 && (size.1 as int / p) * p == size.1);
}

/// A square drag is as large as the longer side of the plain one, where
/// the window has room for that on the cursor's side of the anchor, and
/// grows towards the cursor.
pub proof fn law_square_side(anchor: Point, cursor: Point, size: (i64, i64))
    requires
        window_size(size),
        0 <= anchor.x <= size.0 && 0 <= anchor.y <= size.1,
        0 <= cursor.x <= size.0 && 0 <= cursor.y <= size.1,
        whole(anchor.x as int) && whole(anchor.y as int),
        whole(cursor.x as int) && whole(cursor.y as int),
        whole(size.0 as int) && whole(size.1 as int),
    ensures
        ({
            let s = (size.0 as int, size.1 as int);
            let plain = dragged(anchor, cursor, s, false);
            let r = dragged(anchor, cursor, s, true);
            let longer = max_of(plain.width as int, plain.height as int);
            &&& r.width <= longer
            &&& (cursor.x >= anchor.x ==> anchor.x + longer * PX <= size.0) && (cursor.x < anchor.x
                ==> longer * PX <= anchor.x) && (cursor.y >= anchor.y ==> anchor.y + longer * PX
                <= size.1) && (cursor.y < anchor.y ==> longer * PX <= anchor.y) ==> r.width
                == longer
            &&& cursor.x >= anchor.x ==> r.x * PX == anchor.x
            &&& cursor.x < anchor.x ==> (r.x + r.width) * PX == anchor.x
            &&& cursor.y >= anchor.y ==> r.y * PX == anchor.y
            &&& cursor.y < anchor.y ==> (r.y + r.height) * PX == anchor.y
        }),
{
    law_drag_corners(anchor, cursor, size);
    law_square_drag(anchor, cursor, size);
    reveal(dragged);
    let p = PX as int;
    let s = (size.0 as int, size.1 as int);
    let side = square_side(anchor, cursor, s);
    assert((size.0 - anchor.x) % p == 0 && (size.1 - anchor.y) % p == 0);
    assert(side % p == 0 && (side / p) * p == side);
    assert((anchor.x - side) % p == 0 && (anchor.y - side) % p == 0);
}

/// A selection in a window is the region with each pixel as large as on
/// the screen.
pub proof fn law_selection(r: Region)
    requires
        drawable(r),
    ensures
        selection_of(r).left() == r.x * PX,
        selection_of(r).top() == r.y * PX,
        selection_of(r).right() == (r.x + r.width) * PX,
        selection_of(r).bottom() == (r.y + r.height) * PX,
{
}

/// The window under the pointer is the last in the list that the pointer
/// is over: the windows are listed from the bottom to the top.
pub proof fn law_window_topmost(lens: Lens, p: Point, windows: Seq<WinRect>, k: int)
    requires
        0 <= k < windows.len(),
    ensures
        match lens.topmost(p, windows) {
            Some(w) => lens.over(p, w) && exists|i: int|
                0 <= i < windows.len() && #[trigger] windows[i] == w && (i < k ==> !lens.over(
                    p,
                    windows[k],
                )),
            None => !lens.over(p, windows[k]),
        },
    decreases windows.len(),
{
    let n = windows.len() - 1;
    if lens.over(p, windows.last()) {
        assert(windows[n] == windows.last());
    } else {
        let rest = windows.drop_last();
        if rest.len() > 0 {
            let j = if k < n {
                k
            } else {
                0
            };
            law_window_topmost(lens, p, rest, j);
            if let Some(w) = lens.topmost(p, rest) {
                let i = choose|i: int|
                    0 <= i < rest.len() && #[trigger] rest[i] == w && (i < j ==> !lens.over(
                        p,
                        rest[j],
                    ));
                assert(windows[i] == w);
                assert(rest[j] == windows[j]);
            } else {
                assert(rest[j] == windows[j]);
            }
        }
    }
}

/// In a window as large as the frame the pointer is over what its pixel
/// lies in, and the frame's pixel is the one that the pointer stands on.
pub proof fn law_over_exact(lens: Lens, p: Point, w: WinRect)
    requires
        lens.wf() && lens.sees(),
        lens.size.0 == lens.view.0 * PX && lens.size.1 == lens.view.1 * PX,
        p.x >= 0 && p.y >= 0,
    ensures
        lens.over(p, w) == ((w.x - lens.origin.0) * PX <= p.x < (w.right() - lens.origin.0) * PX && (
        w.y - lens.origin.1) * PX <= p.y < (w.bottom() - lens.origin.1) * PX),
        lens.pixel(p).0 * PX <= p.x < (lens.pixel(p).0 + 1) * PX,
        lens.pixel(p).1 * PX <= p.y < (lens.pixel(p).1 + 1) * PX,
        lens.logical(w) == (Rect {
            x: ((w.x - lens.origin.0) * PX) as i64,
            y: ((w.y - lens.origin.1) * PX) as i64,
            w: (w.width * PX) as i64,
            h: (w.height * PX) as i64,
        }),
{
    lemma_exact(p.x as int, w.x as int, w.right(), lens.origin.0 as int, lens.view.0 as int);
    lemma_exact(p.y as int, w.y as int, w.bottom(), lens.origin.1 as int, lens.view.1 as int);
    lemma_scaled(w.x - lens.origin.0, lens.view.0 as int);
    lemma_scaled(w.y - lens.origin.1, lens.view.1 as int);
    lemma_scaled(w.width as int, lens.view.0 as int);
    lemma_scaled(w.height as int, lens.view.1 as int);
}

proof fn lemma_scaled(v: int, view: int)
    requires
        view > 0,
    ensures
        (v * (view * PX)) / view == v * PX,
{
    assert(v * (view * PX) == (v * PX) * view) by (nonlinear_arith);
    vstd::arithmetic::div_mod::lemma_div_multiples_vanish(v * PX, view);
    assert((v * PX) * view == view * (v * PX)) by (nonlinear_arith);
}

proof fn lemma_exact(p: int, lo: int, hi: int, origin: int, view: int)
    requires
        view > 0,
        p >= 0,
    ensures
        ({
            let s = view * PX;
            let x = origin * s + p * view;
            let k = trunc_div(p * view, s);
            &&& (lo * s <= x < hi * s) == ((lo - origin) * PX <= p < (hi - origin) * PX)
            &&& k * PX <= p < (k + 1) * PX
        }),
{
    let s = view * PX;
    let x = origin * s + p * view;
    assert(lo * s - origin * s == ((lo - origin) * PX) * view) by (nonlinear_arith)
        requires
            s == view * PX,
    ;
    assert(hi * s - origin * s == ((hi - origin) * PX) * view) by (nonlinear_arith)
        requires
            s == view * PX,
    ;
    let (a, b) = ((lo - origin) * PX, (hi - origin) * PX);
    assert((a * view <= p * view) == (a <= p)) by (nonlinear_arith)
        requires
            view > 0,
    ;
    assert((p * view < b * view) == (p < b)) by (nonlinear_arith)
        requires
            view > 0,
    ;
    let k = (p * view) / s;
    assert(p * view >= 0) by (nonlinear_arith)
        requires
            p >= 0,
            view > 0,
    ;
    vstd::arithmetic::div_mod::lemma_fundamental_div_mod(p * view, s);
    assert(k * s <= p * view < k * s + s) by (nonlinear_arith)
        requires
            s > 0,
            k == (p * view) / s,
    ;
    assert(k * s == (k * PX) * view && k * s + s == ((k + 1) * PX) * view) by (nonlinear_arith)
        requires
            s == view * PX,
    ;
    let (c, d) = (k * PX, (k + 1) * PX);
    assert((c * view <= p * view) == (c <= p)) by (nonlinear_arith)
        requires
            view > 0,
    ;
    assert((p * view < d * view) == (p < d)) by (nonlinear_arith)
        requires
            view > 0,
    ;
}

/// The desktop is no larger than its monitors: each of its edges is the
/// edge of one.
pub proof fn law_extent_least(mons: Seq<WinRect>)
    requires
        mons.len() > 0,
    ensures
        exists|i: int| 0 <= i < mons.len() && extent_of(mons).0 == (#[trigger] mons[i]).x,
        exists|i: int| 0 <= i < mons.len() && extent_of(mons).1 == (#[trigger] mons[i]).y,
        exists|i: int| 0 <= i < mons.len() && extent_of(mons).2 == (#[trigger] mons[i]).right(),
        exists|i: int| 0 <= i < mons.len() && extent_of(mons).3 == (#[trigger] mons[i]).bottom(),
    decreases mons.len(),
{
    let n = mons.len() - 1;
    let m = mons.last();
    assert(mons[n] == m);
    if n > 0 {
        let rest = mons.drop_last();
        law_extent_least(rest);
        let a = choose|i: int| 0 <= i < rest.len() && extent_of(rest).0 == (#[trigger] rest[i]).x;
        let b = choose|i: int| 0 <= i < rest.len() && extent_of(rest).1 == (#[trigger] rest[i]).y;
        let c = choose|i: int|
            0 <= i < rest.len() && extent_of(rest).2 == (#[trigger] rest[i]).right();
        let d = choose|i: int|
            0 <= i < rest.len() && extent_of(rest).3 == (#[trigger] rest[i]).bottom();
        assert(mons[a] == rest[a] && mons[b] == rest[b] && mons[c] == rest[c] && mons[d] == rest[d]);
    }
}

/// The frame pixels of a selection in the window start with the one that
/// its corner stands on, and are as many as its size comes to at the
/// frame's scale, however the window is scaled.
pub proof fn law_framed(lens: Lens, r: Rect)
    requires
        lens.wf(),
        0 <= r.x && 0 <= r.w && r.right() <= lens.size.0,
        0 <= r.y && 0 <= r.h && r.bottom() <= lens.size.1,
    ensures
        ({
            let g = lens.framed(r);
            let (vw, vh) = (lens.view.0 as int, lens.view.1 as int);
            let (sw, sh) = (lens.size.0 as int, lens.size.1 as int);
            &&& g.x * sw <= r.x * vw < (g.x + 1) * sw
            &&& g.y * sh <= r.y * vh < (g.y + 1) * sh
            &&& g.width * sw <= r.w * vw < (g.width + 1) * sw
            &&& g.height * sh <= r.h * vh < (g.height + 1) * sh
        }),
{
    lemma_framed_side(r.left(), r.right(), lens.view.0 as int, lens.size.0 as int);
    lemma_framed_side(r.top(), r.bottom(), lens.view.1 as int, lens.size.1 as int);
}

proof fn lemma_framed_side(a: int, b: int, view: int, size: int)
    requires
        0 <= a <= b <= size,
        0 < size,
        0 <= view <= u32::MAX,
    ensures
        ({
            let (lo, hi) = (edge(a, view, size), edge(b, view, size));
            let (x, n) = (lo / size, (hi - lo) / size);
            &&& 0 <= x <= u32::MAX && 0 <= n <= u32::MAX
            &&& x * size <= a * view < (x + 1) * size
            &&& n * size <= (b - a) * view < (n + 1) * size
        }),
{
    assert(0 <= a * view <= b * view <= view * size) by (nonlinear_arith)
        requires
            0 <= a <= b <= size,
            0 <= view,
    ;
    assert((b - a) * view == b * view - a * view) by (nonlinear_arith);
    let (lo, d) = (a * view, (b - a) * view);
    let (x, n) = (lo / size, d / size);
    assert(x * size <= lo < (x + 1) * size && 0 <= x <= view) by (nonlinear_arith)
        requires
            x == lo / size,
            0 < size,
            0 <= lo <= view * size,
    ;
    assert(n * size <= d < (n + 1) * size && 0 <= n <= view) by (nonlinear_arith)
        requires
            n == d / size,
            0 < size,
            0 <= d <= view * size,
    ;
}

/// A window's rectangle is shown at the window's scale from the desktop's
/// corner on.
pub proof fn law_logical(lens: Lens, w: WinRect)
    requires
        lens.wf() && lens.sees(),
    ensures
        ({
            let r = lens.logical(w);
            let (vw, vh) = (lens.view.0 as int, lens.view.1 as int);
            let (sw, sh) = (lens.size.0 as int, lens.size.1 as int);
            &&& r.x * vw <= (w.x - lens.origin.0) * sw < (r.x + 1) * vw
            &&& r.y * vh <= (w.y - lens.origin.1) * sh < (r.y + 1) * vh
            &&& r.w * vw <= w.width * sw < (r.w + 1) * vw
            &&& r.h * vh <= w.height * sh < (r.h + 1) * vh
        }),
{
    lemma_logical_side(w.x - lens.origin.0, lens.size.0 as int, lens.view.0 as int);
    lemma_logical_side(w.y - lens.origin.1, lens.size.1 as int, lens.view.1 as int);
    lemma_logical_side(w.width as int, lens.size.0 as int, lens.view.0 as int);
    lemma_logical_side(w.height as int, lens.size.1 as int, lens.view.1 as int);
}

proof fn lemma_logical_side(v: int, size: int, view: int)
    requires
        -0x1_0000_0000 <= v <= 0x1_0000_0000,
        0 < size <= view * (4 * PX),
        0 < view,
    ensures
        ({
            let k = (v * size) / view;
            &&& i64::MIN <= k <= i64::MAX
            &&& k * view <= v * size < (k + 1) * view
        }),
{
    let k = (v * size) / view;
    let m = 0x1_0000_0000 * (4 * PX);
    assert(-(m * view) <= v * size <= m * view) by (nonlinear_arith)
        requires
            -0x1_0000_0000 <= v <= 0x1_0000_0000,
            0 < size <= view * (4 * PX),
            m == 0x1_0000_0000 * (4 * PX),
            PX == 10_000,
    ;
    let n = v * size;
    assert(k * view <= n < (k + 1) * view && -m - 1 <= k <= m) by (nonlinear_arith)
        requires
            k == n / view,
            0 < view,
            -(m * view) <= n <= m * view,
    ;
}

/// The part of a window that is captured is what of it lies on the frame.
pub proof fn law_cut_to(w: WinRect, origin: (i32, i32), view: (u32, u32), x: int, y: int)
    requires
        0 <= x < view.0 && 0 <= y < view.1,
    ensures
        ({
            let g = cut_to(w, origin, view);
            (g.x <= x < g.x + g.width && g.y <= y < g.y + g.height) == (w.x <= origin.0 + x
                < w.right() && w.y <= origin.1 + y < w.bottom())
        }),
{
}

} // verus!
