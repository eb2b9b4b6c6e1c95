//! How the editor's window shows the image: fitted, zoomed and panned.

use vstd::prelude::*;
use crate::geom::{clamp_of, floor_div, max_of, min_of, Point, Rect, PX};

verus! {

/// The zoom at which the image is fitted, and the least and the greatest.
pub const ZOOM: i64 = 1_000_000_000;

pub const ZOOM_LEAST: i64 = 100_000_000;

pub const ZOOM_MOST: i64 = 16_000_000_000;

/// What the bars take on the left and at the top, and what is kept clear
/// on the right and at the bottom.
pub const BARS: i64 = 720_000;

pub const CLEAR: i64 = 240_000;

/// The image is fitted into no less than this.
pub const USABLE: i64 = 1_000_000;

/// No window is larger than this.
pub const WINDOW: i64 = 10_000_000_000;

/// What an image can be panned by and still be placed in 64 bits.
pub const PANNED: i64 = 100_000_000_000_000_000;

pub struct Pane {
    /// In parts of the fitted size.
    pub zoom: i64,
    /// How far the image is moved from the middle.
    pub pan: Point,
    /// Where the pointer last was in a pan.
    pub drag: Option<Point>,
}

pub open spec fn placed(p: Point) -> bool {
    -WINDOW <= p.x <= WINDOW && -WINDOW <= p.y <= WINDOW
}

pub open spec fn window_wf(size: (i64, i64)) -> bool {
    0 <= size.0 <= WINDOW && 0 <= size.1 <= WINDOW
}

/// The room a window's side of this length leaves for the image.
pub open spec fn usable(side: int) -> int {
    max_of(side - BARS - CLEAR, USABLE as int)
}

/// The scale at which the image is fitted, as units over pixels: the
/// lesser of the two sides', and at most four.
pub open spec fn fit_of(dims: (u32, u32), size: (i64, i64)) -> (int, int) {
    let (uw, uh) = (usable(size.0 as int), usable(size.1 as int));
    let (n, d) = if uw * dims.1 <= uh * dims.0 {
        (uw, dims.0 as int)
    } else {
        (uh, dims.1 as int)
    };
    if n > 4 * PX * d {
        (4 * PX as int, 1)
    } else {
        (n, d)
    }
}

/// Twice the middle of the room right of, or below, the bars.
pub open spec fn middle2(side: int) -> int {
    BARS + side
}

/// The image pixel that a point of the window shows, along one side of
/// the image: the nearest, and none outside of the image.
pub open spec fn pixel_of(p: int, side: int, pan: int, len: int, fit: (int, int), zoom: int) -> int {
    let (n, d) = fit;
    let out = 2 * p - middle2(side) - 2 * pan;
    clamp_of((len * n * zoom + out * d * ZOOM + n * zoom) / (2 * (n * zoom)), 0, len)
}

/// How long the image is shown, along a side of this many pixels.
pub open spec fn shown_of(len: int, fit: (int, int), zoom: int) -> int {
    len * fit.0 * zoom / (fit.1 * ZOOM)
}

/// The zoom after a factor, within its bounds.
pub open spec fn zoomed(zoom: int, num: int, den: int) -> int {
    clamp_of(zoom * num / den, ZOOM_LEAST as int, ZOOM_MOST as int)
}

/// The pan that keeps the image under the point `p` of a side, from one
/// zoom to another.
pub open spec fn pan_for(p: int, side: int, pan: int, zoom: int, next: int) -> int {
    let out = 2 * p - middle2(side);
    (out * zoom - (out - 2 * pan) * next) / (2 * zoom)
}

impl Pane {
    pub open spec fn wf(self) -> bool {
        &&& ZOOM_LEAST <= self.zoom <= ZOOM_MOST
        &&& -PANNED <= self.pan.x <= PANNED
        &&& -PANNED <= self.pan.y <= PANNED
        &&& self.drag matches Some(p) ==> placed(p)
    }

    /// The fitted image.
    pub fn new() -> (r: Pane)
        ensures
            r.wf(),
            r == (Pane { zoom: ZOOM, pan: Point { x: 0, y: 0 }, drag: None }),
    {
        Pane { zoom: ZOOM, pan: Point { x: 0, y: 0 }, drag: None }
    }

    /// Fit the image again.
    pub fn zoom_fit(&mut self)
        requires
            old(self).wf(),
        ensures
            final(self).wf(),
            *final(self) == (Pane { zoom: ZOOM, pan: Point { x: 0, y: 0 }, ..*old(self) }),
    {
        self.zoom = ZOOM;
        self.pan = Point { x: 0, y: 0 };
    }

    /// A step closer.
    pub fn zoom_in(&mut self)
        requires
            old(self).wf(),
        ensures
            final(self).wf(),
            *final(self) == (Pane {
                zoom: min_of(old(self).zoom * 5 / 4, ZOOM_MOST as int) as i64,
                ..*old(self)
            }),
    {
        let z: i64 = self.zoom * 5 / 4;
        self.zoom = if z <= ZOOM_MOST {
            z
        } else {
            ZOOM_MOST
        };
    }

    /// A step further away.
    pub fn zoom_out(&mut self)
        requires
            old(self).wf(),
        ensures
            final(self).wf(),
            *final(self) == (Pane {
                zoom: max_of(old(self).zoom * 4 / 5, ZOOM_LEAST as int) as i64,
                ..*old(self)
            }),
    {
        let z: i64 = self.zoom * 4 / 5;
        self.zoom = if z >= ZOOM_LEAST {
            z
        } else {
            ZOOM_LEAST
        };
    }

    /// The zoom after the wheel turned by `dy`.
    pub open spec fn turned(self, dy: i64) -> int {
        if dy > 0 {
            zoomed(self.zoom as int, 112, 100)
        } else {
            zoomed(self.zoom as int, 100, 112)
        }
    }

    /// The image can be placed after the wheel turned by `dy` over `at`.
    pub open spec fn can_turn(self, dy: i64, at: Point, size: (i64, i64)) -> bool {
        let next = self.turned(dy);
        let x = pan_for(at.x as int, size.0 as int, self.pan.x as int, self.zoom as int, next);
        let y = pan_for(at.y as int, size.1 as int, self.pan.y as int, self.zoom as int, next);
        -PANNED <= x <= PANNED && -PANNED <= y <= PANNED
    }

    /// The view after the wheel turned by `dy` over the point `at`.
    pub open spec fn wheeled(self, dy: i64, at: Point, size: (i64, i64)) -> Pane {
        let next = self.turned(dy);
        if -PX < 2 * dy < PX || next == self.zoom {
            self
        } else {
            Pane {
                zoom: next as i64,
                pan: Point {
                    x: pan_for(
                        at.x as int,
                        size.0 as int,
                        self.pan.x as int,
                        self.zoom as int,
                        next,
                    ) as i64,
                    y: pan_for(
                        at.y as int,
                        size.1 as int,
                        self.pan.y as int,
                        self.zoom as int,
                        next,
                    ) as i64,
                },
                ..self
            }
        }
    }

    /// The wheel turned by `dy` over the point `at`: zoom, round that
    /// point. Less than half a pixel is no turn. Did the view change?
    pub fn wheel(&mut self, dy: i64, at: Point, size: (i64, i64)) -> (changed: bool)
        requires
            old(self).wf(),
            -WINDOW <= dy <= WINDOW,
            placed(at),
            window_wf(size),
            old(self).can_turn(dy, at, size),
        ensures
            final(self).wf(),
            *final(self) == old(self).wheeled(dy, at, size),
            !changed ==> *final(self) == *old(self),
            changed ==> final(self).zoom != old(self).zoom,
    {
        if -PX < 2 * dy && 2 * dy < PX {
            return false;
        }
        let z: i64 = if dy > 0 {
            self.zoom * 112 / 100
        } else {
            self.zoom * 100 / 112
        };
        let next: i64 = if z < ZOOM_LEAST {
            ZOOM_LEAST
        } else if z > ZOOM_MOST {
            ZOOM_MOST
        } else {
            z
        };
        if next == self.zoom {
            return false;
        }
        self.pan = Point {
            x: panned(at.x, size.0, self.pan.x, self.zoom, next),
            y: panned(at.y, size.1, self.pan.y, self.zoom, next),
        };
        self.zoom = next;
        true
    }

    /// The pointer went down at `p` for a pan.
    pub fn start_pan(&mut self, p: Point)
        requires
            old(self).wf(),
            placed(p),
        ensures
            final(self).wf(),
            *final(self) == (Pane { drag: Some(p), ..*old(self) }),
    {
        self.drag = Some(p);
    }

    /// The image can be placed after a pan to `p`.
    pub open spec fn can_follow(self, p: Point) -> bool {
        self.drag matches Some(last) ==> {
            &&& -PANNED <= self.pan.x + (p.x - last.x) <= PANNED
            &&& -PANNED <= self.pan.y + (p.y - last.y) <= PANNED
        }
    }

    /// The view after the pointer moved to `p`.
    pub open spec fn followed(self, p: Point) -> Pane {
        match self.drag {
            None => self,
            Some(last) => Pane {
                pan: Point {
                    x: (self.pan.x + (p.x - last.x)) as i64,
                    y: (self.pan.y + (p.y - last.y)) as i64,
                },
                drag: Some(p),
                ..self
            },
        }
    }

    /// The pointer moved to `p`: the image follows it in a pan, which
    /// this tells.
    pub fn pan_to(&mut self, p: Point) -> (panning: bool)
        requires
            old(self).wf(),
            placed(p),
            old(self).can_follow(p),
        ensures
            final(self).wf(),
            panning == (old(self).drag is Some),
            *final(self) == old(self).followed(p),
    {
        match self.drag {
            None => false,
            Some(last) => {
                self.pan = Point {
                    x: self.pan.x + (p.x - last.x),
                    y: self.pan.y + (p.y - last.y),
                };
                self.drag = Some(p);
                true
            },
        }
    }

    /// The button went up: was it a pan?
    pub fn end_pan(&mut self) -> (panned: bool)
        requires
            old(self).wf(),
        ensures
            final(self).wf(),
            panned == (old(self).drag is Some),
            *final(self) == (Pane { drag: None, ..*old(self) }),
    {
        let was = self.drag.is_some();
        self.drag = None;
        was
    }

    /// The pixel of the image that the point `p` of the window shows.
    pub fn to_image(&self, p: Point, dims: (u32, u32), size: (i64, i64)) -> (r: Point)
        requires
            self.wf(),
            placed(p),
            dims.0 > 0 && dims.1 > 0,
            window_wf(size),
        ensures
            r.x == PX * pixel_of(
                p.x as int,
                size.0 as int,
                self.pan.x as int,
                dims.0 as int,
                fit_of(dims, size),
                self.zoom as int,
            ),
            r.y == PX * pixel_of(
                p.y as int,
                size.1 as int,
                self.pan.y as int,
                dims.1 as int,
                fit_of(dims, size),
                self.zoom as int,
            ),
            0 <= r.x <= dims.0 * PX,
            0 <= r.y <= dims.1 * PX,
    {
        let (n, d) = fit(dims, size);
        Point {
            x: PX * pixel_at(p.x, size.0, self.pan.x, dims.0, n, d, self.zoom),
            y: PX * pixel_at(p.y, size.1, self.pan.y, dims.1, n, d, self.zoom),
        }
    }

    /// Where the window shows the image.
    pub fn stage(&self, dims: (u32, u32), size: (i64, i64)) -> (r: Rect)
        requires
            self.wf(),
            dims.0 > 0 && dims.1 > 0,
            window_wf(size),
        ensures
            r.w == shown_of(dims.0 as int, fit_of(dims, size), self.zoom as int),
            r.h == shown_of(dims.1 as int, fit_of(dims, size), self.zoom as int),
            r.x == (middle2(size.0 as int) - r.w) / 2 + self.pan.x,
            r.y == (middle2(size.1 as int) - r.h) / 2 + self.pan.y,
    {
        let (n, d) = fit(dims, size);
        let w: i64 = shown(dims.0, n, d, self.zoom);
        let h: i64 = shown(dims.1, n, d, self.zoom);
        Rect {
            x: halved(BARS + size.0 - w) + self.pan.x,
            y: halved(BARS + size.1 - h) + self.pan.y,
            w,
            h,
        }
    }
}

fn halved(v: i64) -> (r: i64)
    requires
        -0x4000_0000_0000_0000 <= v <= 0x4000_0000_0000_0000,
    ensures
        r == v as int / 2,
{
    if v >= 0 {
        v / 2
    } else {
        -((1 - v) / 2)
    }
}

fn room(side: i64) -> (r: i64)
    requires
        0 <= side <= WINDOW,
    ensures
        r == usable(side as int),
        USABLE <= r <= WINDOW,
{
    let v: i64 = side - BARS - CLEAR;
    if v >= USABLE {
        v
    } else {
        USABLE
    }
}

/// The scale at which the image is fitted.
fn fit(dims: (u32, u32), size: (i64, i64)) -> (r: (i64, i64))
    requires
        dims.0 > 0 && dims.1 > 0,
        window_wf(size),
    ensures
        (r.0 as int, r.1 as int) == fit_of(dims, size),
        0 < r.0 <= WINDOW,
        0 < r.1 <= u32::MAX,
        r.0 <= 4 * PX * r.1,
{
    let uw: i64 = room(size.0);
    let uh: i64 = room(size.1);
    proof {
        assert(0 <= uw * dims.1 <= 10_000_000_000 * 0xffff_ffff) by (nonlinear_arith)
            requires
                0 <= uw <= 10_000_000_000,
                0 <= dims.1 <= 0xffff_ffff,
        ;
        assert(0 <= uh * dims.0 <= 10_000_000_000 * 0xffff_ffff) by (nonlinear_arith)
            requires
                0 <= uh <= 10_000_000_000,
                0 <= dims.0 <= 0xffff_ffff,
        ;
    }
    let (n, d): (i64, i64) = if uw as i128 * dims.1 as i128 <= uh as i128 * dims.0 as i128 {
        (uw, dims.0 as i64)
    } else {
        (uh, dims.1 as i64)
    };
    assert(4 * PX * d == 40_000 * d);
    assert(d <= 0xffff_ffff);
    if n > 40_000 * d {
        (4 * PX, 1)
    } else {
        (n, d)
    }
}

proof fn lemma_bound(a: int, m: int, b: int, n: int)
    requires
        -m <= a <= m,
        -n <= b <= n,
    ensures
        -(m * n) <= a * b <= m * n,
{
    assert(-(m * n) <= a * b <= m * n) by (nonlinear_arith)
        requires
            -m <= a <= m,
            -n <= b <= n,
    ;
}

fn pixel_at(p: i64, side: i64, pan: i64, len: u32, n: i64, d: i64, zoom: i64) -> (r: i64)
    requires
        -WINDOW <= p <= WINDOW,
        0 <= side <= WINDOW,
        -PANNED <= pan <= PANNED,
        0 < n <= WINDOW,
        0 < d <= u32::MAX,
        ZOOM_LEAST <= zoom <= ZOOM_MOST,
    ensures
        r == pixel_of(
            p as int,
            side as int,
            pan as int,
            len as int,
            (n as int, d as int),
            zoom as int,
        ),
        0 <= r <= len,
{
    let out: i64 = 2 * p - (BARS + side) - 2 * pan;
    proof {
        lemma_bound(len as int, 0xffff_ffff, n as int, 10_000_000_000);
        lemma_bound(
            len * n,
            0xffff_ffffint * 10_000_000_000int,
            zoom as int,
            16_000_000_000,
        );
        lemma_bound(out as int, 300_000_000_000_000_000, d as int, 0xffff_ffff);
        lemma_bound(out * d, 300_000_000_000_000_000int * 0xffff_ffffint, ZOOM as int, 1_000_000_000);
        lemma_bound(n as int, 10_000_000_000, zoom as int, 16_000_000_000);
        assert(n * zoom > 0) by (nonlinear_arith)
            requires
                n > 0,
                zoom > 0,
        ;
    }
    let k: i128 = n as i128 * zoom as i128;
    let whole: i128 = len as i128 * n as i128 * zoom as i128;
    let away: i128 = out as i128 * d as i128 * ZOOM as i128;
    let v: i128 = floor_div(whole + away + k, 2 * k);
    if v < 0 {
        0
    } else if v > len as i128 {
        len as i64
    } else {
        v as i64
    }
}

fn shown(len: u32, n: i64, d: i64, zoom: i64) -> (r: i64)
    requires
        0 < n <= WINDOW,
        0 < d <= u32::MAX,
        n <= 4 * PX * d,
        ZOOM_LEAST <= zoom <= ZOOM_MOST,
    ensures
        r == shown_of(len as int, (n as int, d as int), zoom as int),
        0 <= r <= 4_000_000_000_000_000,
{
    proof {
        lemma_bound(len as int, 0xffff_ffff, n as int, 10_000_000_000);
        lemma_bound(len * n, 0xffff_ffffint * 10_000_000_000int, zoom as int, 16_000_000_000);
        let a = len * n * zoom;
        let b = d * ZOOM;
        // At most sixteen times four units for each of the image's units.
        assert(0 <= a) by (nonlinear_arith)
            requires
                a == len * n * zoom,
                len >= 0,
                n > 0,
                zoom > 0,
        ;
        assert(len * n <= len * (40_000 * d)) by (nonlinear_arith)
            requires
                n <= 40_000 * d,
                len >= 0,
        ;
        assert(a <= (len * (40_000 * d)) * 16_000_000_000) by (nonlinear_arith)
            requires
                a == len * n * zoom,
                0 <= len * n <= len * (40_000 * d),
                0 <= zoom <= 16_000_000_000,
        ;
        assert((len * (40_000 * d)) * 16_000_000_000 == (len * 640_000) * b) by (nonlinear_arith)
            requires
                b == d * 1_000_000_000,
        ;
        assert((len * 640_000) * b <= 4_000_000_000_000_000 * b) by (nonlinear_arith)
            requires
                len <= 0xffff_ffff,
                b > 0,
        ;
        assert(0 <= a / b <= 4_000_000_000_000_000) by (nonlinear_arith)
            requires
                0 <= a <= 4_000_000_000_000_000 * b,
                b > 0,
        ;
    }
    (len as i128 * n as i128 * zoom as i128 / (d as i128 * ZOOM as i128)) as i64
}

fn panned(p: i64, side: i64, pan: i64, zoom: i64, next: i64) -> (r: i64)
    requires
        -WINDOW <= p <= WINDOW,
        0 <= side <= WINDOW,
        -PANNED <= pan <= PANNED,
        ZOOM_LEAST <= zoom <= ZOOM_MOST,
        ZOOM_LEAST <= next <= ZOOM_MOST,
        -PANNED <= pan_for(p as int, side as int, pan as int, zoom as int, next as int) <= PANNED,
    ensures
        r == pan_for(p as int, side as int, pan as int, zoom as int, next as int),
{
    let out: i64 = 2 * p - (BARS + side);
    proof {
        lemma_bound(out as int, 31_000_000_000, zoom as int, 16_000_000_000);
        lemma_bound(out - 2 * pan, 300_000_000_000_000_000, next as int, 16_000_000_000);
    }
    floor_div(
        out as i128 * zoom as i128 - (out as i128 - 2 * pan as i128) * next as i128,
        2 * zoom as i128,
    ) as i64
}

/// An image that is panned by no more than a thousandth of what can be
/// placed stays placed, whatever one event of the pointer does.
pub proof fn law_room_to_move(v: Pane, dy: i64, at: Point, size: (i64, i64))
    requires
        v.wf(),
        placed(at),
        window_wf(size),
        -PANNED <= 1000 * v.pan.x <= PANNED,
        -PANNED <= 1000 * v.pan.y <= PANNED,
    ensures
        v.can_turn(dy, at, size),
        v.can_follow(at),
{
    let next = v.turned(dy);
    lemma_pan_room(at.x as int, size.0 as int, v.pan.x as int, v.zoom as int, next);
    lemma_pan_room(at.y as int, size.1 as int, v.pan.y as int, v.zoom as int, next);
}

proof fn lemma_pan_room(p: int, side: int, pan: int, zoom: int, next: int)
    requires
        -WINDOW <= p <= WINDOW,
        0 <= side <= WINDOW,
        -PANNED <= 1000 * pan <= PANNED,
        ZOOM_LEAST <= zoom <= ZOOM_MOST,
        ZOOM_LEAST <= next <= ZOOM_MOST,
    ensures
        -PANNED <= pan_for(p, side, pan, zoom, next) <= PANNED,
{
    let out = 2 * p - middle2(side);
    let far = 300_000_000_000_000int;
    let (a, b) = (out * zoom, (out - 2 * pan) * next);
    assert(-(far * zoom) <= a <= far * zoom) by (nonlinear_arith)
        requires
            a == out * zoom,
            -far <= out <= far,
            zoom > 0,
    ;
    assert(-(far * (160 * zoom)) <= b <= far * (160 * zoom)) by (nonlinear_arith)
        requires
            b == (out - 2 * pan) * next,
            -far <= out - 2 * pan <= far,
            0 < next <= 160 * zoom,
    ;
    let n = a - b;
    assert(-PANNED <= n / (2 * zoom) <= PANNED) by (nonlinear_arith)
        requires
            -(161 * far * zoom) <= n <= 161 * far * zoom,
            far == 300_000_000_000_000,
            zoom > 0,
            PANNED == 100_000_000_000_000_000,
    ;
}

/// Zooming keeps the image under the pointer: its distance from the
/// image's middle, over the zoom, stays the same but for the last unit.
pub proof fn law_zoom_keeps_point(p: int, side: int, pan: int, zoom: int, next: int)
    requires
        zoom > 0,
        next > 0,
    ensures
        ({
            let before = 2 * p - middle2(side) - 2 * pan;
            let after = 2 * p - middle2(side) - 2 * pan_for(p, side, pan, zoom, next);
            before * next <= after * zoom < before * next + 2 * zoom
        }),
{
    let out = 2 * p - middle2(side);
    let before = out - 2 * pan;
    let v = out * zoom - before * next;
    let q = v / (2 * zoom);
    assert(q * (2 * zoom) <= v < (q + 1) * (2 * zoom)) by (nonlinear_arith)
        requires
            q == v / (2 * zoom),
            zoom > 0,
    ;
    assert((q + 1) * (2 * zoom) == q * (2 * zoom) + 2 * zoom) by (nonlinear_arith);
    assert((out - 2 * q) * zoom == out * zoom - q * (2 * zoom)) by (nonlinear_arith);
}

/// A fitted image lies clear of the bars and of the window's edges, where
/// the window has room for it.
pub proof fn law_fitted_is_clear(dims: (u32, u32), size: (i64, i64))
    requires
        dims.0 > 0 && dims.1 > 0,
        size.0 >= BARS + CLEAR + USABLE,
        size.1 >= BARS + CLEAR + USABLE,
    ensures
        ({
            let f = fit_of(dims, size);
            let w = shown_of(dims.0 as int, f, ZOOM as int);
            let h = shown_of(dims.1 as int, f, ZOOM as int);
            let x = (middle2(size.0 as int) - w) / 2;
            let y = (middle2(size.1 as int) - h) / 2;
            &&& x >= BARS + CLEAR as int / 2 && x + w <= size.0 - CLEAR as int / 2 + 1
            &&& y >= BARS + CLEAR as int / 2 && y + h <= size.1 - CLEAR as int / 2 + 1
        }),
{
    let (uw, uh) = (usable(size.0 as int), usable(size.1 as int));
    let f = fit_of(dims, size);
    let (n, d) = f;
    let (w, h) = (dims.0 as int, dims.1 as int);
    assert(w * n <= uw * d && h * n <= uh * d && n > 0 && d > 0) by {
        assert(w * uw == uw * w && h * uw == uw * h && w * uh == uh * w && h * uh == uh * h)
            by (nonlinear_arith);
        let (n0, d0) = if uw * h <= uh * w {
            (uw, w)
        } else {
            (uh, h)
        };
        assert(w * n0 <= uw * d0 && h * n0 <= uh * d0);
        if n0 > 4 * PX * d0 {
            assert(w * (4 * PX) <= uw) by (nonlinear_arith)
                requires
                    w * n0 <= uw * d0,
                    n0 > 40_000 * d0,
                    d0 > 0,
                    w > 0,
                    PX == 10_000,
            ;
            assert(h * (4 * PX) <= uh) by (nonlinear_arith)
                requires
                    h * n0 <= uh * d0,
                    n0 > 40_000 * d0,
                    d0 > 0,
                    h > 0,
                    PX == 10_000,
            ;
        }
    }
    lemma_shown(w, n, d, uw);
    lemma_shown(h, n, d, uh);
}

proof fn lemma_shown(len: int, n: int, d: int, most: int)
    requires
        len > 0,
        n > 0,
        d > 0,
        len * n <= most * d,
    ensures
        0 <= shown_of(len, (n, d), ZOOM as int) <= most,
{
    let z = ZOOM as int;
    assert(0 <= len * n * z / (d * z) <= most) by (nonlinear_arith)
        requires
            len > 0,
            n > 0,
            d > 0,
            len * n <= most * d,
            z == 1_000_000_000,
    ;
}

/// A point of the window that shows the edge between two pixels of the
/// image is taken for that edge, however the image is zoomed and moved.
pub proof fn law_point_shown(
    p: int,
    side: int,
    pan: int,
    len: int,
    fit: (int, int),
    zoom: int,
    k: int,
)
    requires
        0 <= k <= len,
        fit.0 > 0 && fit.1 > 0,
        zoom > 0,
        (2 * p - middle2(side) - 2 * pan) * fit.1 * ZOOM == (2 * k - len) * (fit.0 * zoom),
    ensures
        pixel_of(p, side, pan, len, fit, zoom) == k,
{
    let (n, d) = fit;
    let out = 2 * p - middle2(side) - 2 * pan;
    let u = n * zoom;
    assert(u > 0) by (nonlinear_arith)
        requires
            n > 0,
            zoom > 0,
            u == n * zoom,
    ;
    assert(len * n * zoom == len * u) by (nonlinear_arith)
        requires
            u == n * zoom,
    ;
    assert(len * u + (2 * k - len) * u + u == k * (2 * u) + u) by (nonlinear_arith);
    assert((k * (2 * u) + u) / (2 * u) == k) by (nonlinear_arith)
        requires
            u > 0,
    ;
}

/// A point further along the window is further along the image.
pub proof fn law_points_ordered(
    p: int,
    q: int,
    side: int,
    pan: int,
    len: int,
    fit: (int, int),
    zoom: int,
)
    requires
        p <= q,
        len >= 0,
        fit.0 > 0 && fit.1 > 0,
        zoom > 0,
    ensures
        pixel_of(p, side, pan, len, fit, zoom) <= pixel_of(q, side, pan, len, fit, zoom),
{
    let (n, d) = fit;
    let u = n * zoom;
    assert(u > 0) by (nonlinear_arith)
        requires
            n > 0,
            zoom > 0,
            u == n * zoom,
    ;
    let (a, b) = (2 * p - middle2(side) - 2 * pan, 2 * q - middle2(side) - 2 * pan);
    assert(a * d * ZOOM <= b * d * ZOOM) by (nonlinear_arith)
        requires
            a <= b,
            d > 0,
            ZOOM == 1_000_000_000,
    ;
    vstd::arithmetic::div_mod::lemma_div_is_ordered(
        len * n * zoom + a * d * ZOOM + n * zoom,
        len * n * zoom + b * d * ZOOM + n * zoom,
        2 * (n * zoom),
    );
}

/// The image is fitted as large as the clear room lets it be, and never
/// more than four times its size: fitted, it fills the room one way, or it
/// is four times as large.
pub proof fn law_fitted_is_large(dims: (u32, u32), size: (i64, i64))
    requires
        dims.0 > 0 && dims.1 > 0,
    ensures
        ({
            let f = fit_of(dims, size);
            let (w, h) = (
                shown_of(dims.0 as int, f, ZOOM as int),
                shown_of(dims.1 as int, f, ZOOM as int),
            );
            ||| w == usable(size.0 as int)
            ||| h == usable(size.1 as int)
            ||| w == dims.0 * (4 * PX) && h == dims.1 * (4 * PX)
        }),
        usable(size.0 as int) == size.0 - 96 * PX || usable(size.0 as int) == 100 * PX,
{
    let f = fit_of(dims, size);
    let z = ZOOM as int;
    let (dw, dh) = (dims.0 as int, dims.1 as int);
    let (n, d) = f;
    if f == (4 * PX as int, 1int) {
        assert(dw * (4 * PX) * z / (1 * z) == dw * (4 * PX)) by (nonlinear_arith)
            requires
                z == 1_000_000_000,
        ;
        assert(dh * (4 * PX) * z / (1 * z) == dh * (4 * PX)) by (nonlinear_arith)
            requires
                z == 1_000_000_000,
        ;
    } else {
        assert(d * n * z / (d * z) == n) by (nonlinear_arith)
            requires
                d > 0,
                z == 1_000_000_000,
        ;
    }
}

/// Turning the wheel up enlarges the image by twelve hundredths, turning it
/// down takes them back, between a tenth of the fitted size and sixteen
/// times it.
pub proof fn law_wheel(v: Pane, dy: i64, at: Point, size: (i64, i64))
    requires
        v.wf(),
    ensures
        ({
            let n = v.wheeled(dy, at, size);
            &&& 2 * dy >= PX ==> n.zoom >= v.zoom
            &&& 2 * dy <= -PX ==> n.zoom <= v.zoom
            &&& -PX < 2 * dy < PX ==> n == v
            &&& 10 * n.zoom >= ZOOM && n.zoom <= 16 * ZOOM
            &&& 2 * dy >= PX && v.zoom * 112 <= 1600 * ZOOM ==> 100 * n.zoom <= 112 * v.zoom < 100
                * n.zoom + 100
            &&& 2 * dy <= -PX && v.zoom * 1000 >= 112 * ZOOM ==> 112 * n.zoom <= 100 * v.zoom < 112
                * n.zoom + 112
        }),
{
}

/// A pan carries the image as far as the pointer goes.
pub proof fn law_followed(v: Pane, p: Point, q: Point)
    requires
        v.wf(),
        v.drag == Some(q),
        v.can_follow(p),
    ensures
        ({
            let n = v.followed(p);
            &&& n.pan.x - v.pan.x == p.x - q.x && n.pan.y - v.pan.y == p.y - q.y
            &&& n.zoom == v.zoom && n.drag == Some(p)
            &&& n.followed(q) == v
        }),
{
}

/// Turning the wheel keeps the point of the image that is under the
/// pointer there, both ways, within a unit of its rounding.
pub proof fn law_wheel_keeps_point(v: Pane, dy: i64, at: Point, size: (i64, i64))
    requires
        v.wf(),
        v.can_turn(dy, at, size),
    ensures
        ({
            let n = v.wheeled(dy, at, size);
            let (bx, by) = (
                2 * at.x - middle2(size.0 as int) - 2 * v.pan.x,
                2 * at.y - middle2(size.1 as int) - 2 * v.pan.y,
            );
            let (ax, ay) = (
                2 * at.x - middle2(size.0 as int) - 2 * n.pan.x,
                2 * at.y - middle2(size.1 as int) - 2 * n.pan.y,
            );
            &&& bx * n.zoom <= ax * v.zoom < bx * n.zoom + 2 * v.zoom
            &&& by * n.zoom <= ay * v.zoom < by * n.zoom + 2 * v.zoom
            &&& n.drag == v.drag
        }),
{
    let next = v.turned(dy);
    law_zoom_keeps_point(at.x as int, size.0 as int, v.pan.x as int, v.zoom as int, next);
    law_zoom_keeps_point(at.y as int, size.1 as int, v.pan.y as int, v.zoom as int, next);
}

} // verus!
