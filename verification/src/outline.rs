//! The rows that an action's outline covers.

use vstd::prelude::*;
use crate::action::{close, head_length, Action, Mark, Tool};
use crate::canvas::Canvas;
use crate::geom::{
    ceil_of,
    ceil_px,
    clamp_of,
    clamped,
    floor_div,
    floor_px,
    max_of,
    min_of,
    Point,
    PX,
};
use crate::raster::{
    brush,
    covered,
    covers,
    painted,
    rasterize,
    spans_near,
    Cover,
    Dot,
    Ink,
    Mix,
    Span,
};
use crate::shapes::{
    ceil_div,
    disc_of,
    div_up,
    ellipse_of,
    frame_of,
    in_disc,
    in_stroke,
    lemma_div,
    lemma_product,
    lemma_root_exists,
    lemma_square,
    lemma_within,
    on_sheet,
    polyline_of,
    push_disc,
    push_ellipse,
    push_frame,
    push_polyline,
    push_segment,
    root_of,
    segment_of,
    BRUSH,
    SHEET,
};
use crate::wide::root_product;

verus! {

/// A direction: its cosine and sine, in parts of [`TURN`].
#[derive(Clone, Copy, PartialEq, Eq, Structural, Debug)]
pub struct Heading {
    pub cos: i64,
    pub sin: i64,
}

pub const TURN: i64 = 1_000_000_000;

impl Heading {
    pub open spec fn wf(self) -> bool {
        -TURN <= self.cos <= TURN && -TURN <= self.sin <= TURN
    }
}

pub open spec fn headings(s: Seq<Heading>) -> bool {
    forall|i: int| 0 <= i < s.len() ==> (#[trigger] s[i]).wf()
}

/// How many brush marks the outline of an ellipse takes: about a third of
/// one for each pixel of its two radii, and at least 24.
pub open spec fn ring_count(a: Point, b: Point) -> int {
    let w = if b.x >= a.x {
        b.x - a.x
    } else {
        a.x - b.x
    };
    let h = if b.y >= a.y {
        b.y - a.y
    } else {
        a.y - b.y
    };
    max_of((w + h) * 7 / 400_000, 24)
}

pub fn ring_size(a: Point, b: Point) -> (n: u64)
    requires
        on_sheet(a),
        on_sheet(b),
    ensures
        n == ring_count(a, b),
{
    let w: i64 = if b.x >= a.x {
        b.x - a.x
    } else {
        a.x - b.x
    };
    let h: i64 = if b.y >= a.y {
        b.y - a.y
    } else {
        a.y - b.y
    };
    let n: i64 = (w + h) * 7 / 400_000;
    if n >= 24 {
        n as u64
    } else {
        24
    }
}

/// The point of the ellipse between two corners that lies towards `t`.
pub open spec fn ring_point(a: Point, b: Point, t: Heading) -> Point {
    let w = if b.x >= a.x {
        b.x - a.x
    } else {
        a.x - b.x
    };
    let h = if b.y >= a.y {
        b.y - a.y
    } else {
        a.y - b.y
    };
    Point {
        x: (((a.x + b.x) * TURN + w * t.cos) / (2 * TURN as int)) as i64,
        y: (((a.y + b.y) * TURN + h * t.sin) / (2 * TURN as int)) as i64,
    }
}

/// A coordinate of the ellipse stays between those of the corners.
proof fn lemma_ring(p: int, q: int, c: int)
    requires
        -TURN <= c <= TURN,
        p <= q,
    ensures
        p <= ((p + q) * TURN + (q - p) * c) / (2 * TURN as int) <= q,
{
    let t = TURN as int;
    let w = q - p;
    assert(-(w * t) <= w * c <= w * t) by (nonlinear_arith)
        requires
            w >= 0,
            -t <= c <= t,
    ;
    assert((p + q) * t + w * t == q * (2 * t)) by (nonlinear_arith)
        requires
            w == q - p,
    ;
    assert((p + q) * t - w * t == p * (2 * t)) by (nonlinear_arith)
        requires
            w == q - p,
    ;
    let v = (p + q) * t + w * c;
    lemma_div(v, 2 * t, p);
    lemma_div(v, 2 * t, q + 1);
    assert((q + 1) * (2 * t) == q * (2 * t) + 2 * t) by (nonlinear_arith);
}

fn ring_coord(p: i64, q: i64, c: i64) -> (v: i64)
    requires
        -SHEET <= p <= SHEET,
        -SHEET <= q <= SHEET,
        -TURN <= c <= TURN,
    ensures
        v == ((p + q) * TURN + (if q >= p {
            q - p
        } else {
            p - q
        }) * c) / (2 * TURN as int),
        min_of(p as int, q as int) <= v <= max_of(p as int, q as int),
{
    let w: i128 = if q >= p {
        q as i128 - p as i128
    } else {
        p as i128 - q as i128
    };
    proof {
        lemma_product(w as int, 502_000_000_000_000, c as int, 1_000_000_000);
        if q >= p {
            lemma_ring(p as int, q as int, c as int);
        } else {
            lemma_ring(q as int, p as int, c as int);
        }
    }
    let sum: i128 = (p as i128 + q as i128) * TURN as i128 + w * c as i128;
    floor_div(sum, 2 * TURN as i128) as i64
}

pub proof fn lemma_ring_point(a: Point, b: Point, t: Heading)
    requires
        t.wf(),
    ensures
        min_of(a.x as int, b.x as int) <= ring_point(a, b, t).x <= max_of(a.x as int, b.x as int),
        min_of(a.y as int, b.y as int) <= ring_point(a, b, t).y <= max_of(a.y as int, b.y as int),
{
    lemma_ring(min_of(a.x as int, b.x as int), max_of(a.x as int, b.x as int), t.cos as int);
    lemma_ring(min_of(a.y as int, b.y as int), max_of(a.y as int, b.y as int), t.sin as int);
    assert(a.x + b.x == min_of(a.x as int, b.x as int) + max_of(a.x as int, b.x as int));
    assert(a.y + b.y == min_of(a.y as int, b.y as int) + max_of(a.y as int, b.y as int));
}

/// The outline of an ellipse: a brush mark towards each of the first `n`
/// headings.
pub open spec fn ring_of(a: Point, b: Point, r: int, ts: Seq<Heading>, n: int) -> Seq<Span>
    decreases n,
{
    if n <= 0 {
        Seq::empty()
    } else {
        ring_of(a, b, r, ts, n - 1) + disc_of(ring_point(a, b, ts[n - 1]), r)
    }
}

pub fn push_ring(out: &mut Vec<Span>, a: Point, b: Point, r: i64, ts: &Vec<Heading>)
    requires
        on_sheet(a),
        on_sheet(b),
        0 <= r <= BRUSH,
        headings(ts@),
    ensures
        final(out)@ == old(out)@ + ring_of(a, b, r as int, ts@, ts@.len() as int),
        spans_near(old(out)@) ==> spans_near(final(out)@),
{
    let mut n: usize = 0;
    assert(out@ =~= old(out)@ + ring_of(a, b, r as int, ts@, 0));
    while n < ts.len()
        invariant
            0 <= n <= ts@.len(),
            on_sheet(a),
            on_sheet(b),
            0 <= r <= BRUSH,
            headings(ts@),
            out@ == old(out)@ + ring_of(a, b, r as int, ts@, n as int),
            spans_near(old(out)@) ==> spans_near(out@),
        decreases ts@.len() - n,
    {
        let t = ts[n];
        assert(ts@[n as int].wf());
        let p = Point { x: ring_coord(a.x, b.x, t.cos), y: ring_coord(a.y, b.y, t.sin) };
        assert(p == ring_point(a, b, t));
        push_disc(out, p, r);
        n = n + 1;
        assert(out@ =~= old(out)@ + ring_of(a, b, r as int, ts@, n as int));
    }
}

/// Three points by their height, from the highest on the screen. Equal
/// ones stay in order.
pub open spec fn by_height(u: Point, v: Point, w: Point) -> (Point, Point, Point) {
    if u.y <= v.y {
        if v.y <= w.y {
            (u, v, w)
        } else if u.y <= w.y {
            (u, w, v)
        } else {
            (w, u, v)
        }
    } else {
        if u.y <= w.y {
            (v, u, w)
        } else if v.y <= w.y {
            (v, w, u)
        } else {
            (w, v, u)
        }
    }
}

/// Where the line from `p` down to `q` crosses height `y`: the pixel
/// columns below and above.
pub open spec fn crossing(p: Point, q: Point, y: int) -> (int, int) {
    let h = q.y - p.y;
    let v = p.x * h + (q.x - p.x) * (y - p.y);
    (v / (h * PX), ceil_div(v, h * PX))
}

/// Where the two lower sides of a triangle cross height `y`.
pub open spec fn bend(t: Point, m: Point, b: Point, y: int) -> (int, int) {
    if y <= m.y {
        if m.y == t.y {
            (m.x as int / PX as int, ceil_of(m.x as int))
        } else {
            crossing(t, m, y)
        }
    } else if b.y == m.y {
        (m.x as int / PX as int, ceil_of(m.x as int))
    } else {
        crossing(m, b, y)
    }
}

/// The pixels of row `y` between the two sides that it crosses; a row
/// just above or below the triangle has those of the corner.
pub open spec fn triangle_row(t: Point, m: Point, b: Point, y: int) -> Span {
    let h = clamp_of(y * PX, t.y as int, b.y as int);
    let p = crossing(t, b, h);
    let q = bend(t, m, b, h);
    Span { y: y as i64, x0: min_of(p.0, q.0) as i64, x1: max_of(p.1, q.1) as i64 }
}

/// The rows of a filled triangle, as far as they lie on the image. A
/// flat one is a thin stroke.
pub open spec fn triangle_of(u: Point, v: Point, w: Point) -> Seq<Span> {
    let (t, m, b) = by_height(u, v, w);
    if t.y == b.y {
        segment_of(t, b, PX as int / 2)
    } else {
        let first = max_of(t.y as int / PX as int, 0);
        let last = ceil_of(b.y as int);
        Seq::new(
            max_of(last - first + 1, 0) as nat,
            |i: int| triangle_row(t, m, b, first + i),
        )
    }
}

/// Between its ends a line stays between the columns of its ends.
pub proof fn lemma_crossing(p: Point, q: Point, y: int)
    requires
        p.y < q.y,
        p.y <= y <= q.y,
    ensures
        min_of(p.x as int, q.x as int) - PX < crossing(p, q, y).0 * PX,
        crossing(p, q, y).0 <= crossing(p, q, y).1,
        crossing(p, q, y).1 * PX < max_of(p.x as int, q.x as int) + PX,
{
    let h = q.y - p.y;
    let d = y - p.y;
    let lo = min_of(p.x as int, q.x as int);
    let hi = max_of(p.x as int, q.x as int);
    let v = p.x * h + (q.x - p.x) * d;
    assert(lo * h <= v <= hi * h) by (nonlinear_arith)
        requires
            v == p.x * h + (q.x - p.x) * d,
            0 <= d <= h,
            lo <= p.x <= hi,
            lo <= q.x <= hi,
    ;
    let k = h * PX;
    let a = v / k;
    let c = ceil_div(v, k);
    assert(k > 0);
    lemma_div(v, k, a + 1);
    lemma_div(v, k, c - 1);
    lemma_div(v, k, a);
    lemma_div(v, k, c);
    assert(a <= c) by (nonlinear_arith)
        requires
            a * k <= v,
            v <= c * k,
            k > 0,
    ;
    assert((a + 1) * PX > lo) by (nonlinear_arith)
        requires
            (a + 1) * k > v,
            v >= lo * h,
            k == h * PX,
            h > 0,
    ;
    assert((c - 1) * PX < hi) by (nonlinear_arith)
        requires
            (c - 1) * k < v,
            v <= hi * h,
            k == h * PX,
            h > 0,
    ;
}

fn crossing_at(p: Point, q: Point, y: i64) -> (r: (i64, i64))
    requires
        on_sheet(p),
        on_sheet(q),
        p.y < q.y,
        p.y <= y <= q.y,
    ensures
        (r.0 as int, r.1 as int) == crossing(p, q, y as int),
        -30_000_000_000 <= r.0 <= 30_000_000_000,
        -30_000_000_000 <= r.1 <= 30_000_000_000,
{
    let h: i128 = q.y as i128 - p.y as i128;
    let w: i128 = q.x as i128 - p.x as i128;
    let d: i128 = y as i128 - p.y as i128;
    proof {
        lemma_product(p.x as int, 251_000_000_000_000, h as int, 502_000_000_000_000);
        lemma_product(w as int, 502_000_000_000_000, d as int, 502_000_000_000_000);
        lemma_crossing(p, q, y as int);
    }
    let v: i128 = p.x as i128 * h + w * d;
    let k: i128 = h * PX as i128;
    (floor_div(v, k) as i64, div_up(v, k) as i64)
}

fn bend_at(t: Point, m: Point, b: Point, y: i64) -> (r: (i64, i64))
    requires
        on_sheet(t),
        on_sheet(m),
        on_sheet(b),
        t.y <= m.y <= b.y,
        t.y <= y <= b.y,
    ensures
        (r.0 as int, r.1 as int) == bend(t, m, b, y as int),
        -30_000_000_000 <= r.0 <= 30_000_000_000,
        -30_000_000_000 <= r.1 <= 30_000_000_000,
{
    if y <= m.y {
        if m.y == t.y {
            (floor_px(m.x), ceil_px(m.x))
        } else {
            crossing_at(t, m, y)
        }
    } else if b.y == m.y {
        (floor_px(m.x), ceil_px(m.x))
    } else {
        crossing_at(m, b, y)
    }
}

/// The rows of a filled triangle, after those that are there.
pub fn push_triangle(out: &mut Vec<Span>, u: Point, v: Point, w: Point)
    requires
        on_sheet(u),
        on_sheet(v),
        on_sheet(w),
    ensures
        final(out)@ == old(out)@ + triangle_of(u, v, w),
        spans_near(old(out)@) ==> spans_near(final(out)@),
{
    let (t, m, b) = if u.y <= v.y {
        if v.y <= w.y {
            (u, v, w)
        } else if u.y <= w.y {
            (u, w, v)
        } else {
            (w, u, v)
        }
    } else {
        if u.y <= w.y {
            (v, u, w)
        } else if v.y <= w.y {
            (v, w, u)
        } else {
            (w, v, u)
        }
    };
    if t.y == b.y {
        push_segment(out, t, b, PX / 2);
        return;
    }
    let high: i64 = floor_px(t.y);
    let first: i64 = if high >= 0 {
        high
    } else {
        0
    };
    let last: i64 = ceil_px(b.y);
    let ghost all = triangle_of(u, v, w);
    if last < first {
        assert(out@ =~= old(out)@ + all);
        return;
    }
    let mut y: i64 = first;
    assert(out@ =~= old(out)@ + all.take(0));
    while y <= last
        invariant
            on_sheet(t),
            on_sheet(m),
            on_sheet(b),
            t.y <= m.y <= b.y,
            t.y < b.y,
            all == triangle_of(u, v, w),
            (t, m, b) == by_height(u, v, w),
            all.len() == last - first + 1,
            first == max_of(t.y as int / PX as int, 0),
            last == ceil_of(b.y as int),
            first <= y <= last + 1,
            last <= 30_000_000_000,
            out@ == old(out)@ + all.take(y - first),
            spans_near(old(out)@) ==> spans_near(out@),
        decreases last + 1 - y,
    {
        let h: i64 = clamped(y * PX, t.y, b.y);
        let p = crossing_at(t, b, h);
        let q = bend_at(t, m, b, h);
        let s = Span {
            y,
            x0: if p.0 <= q.0 {
                p.0
            } else {
                q.0
            },
            x1: if p.1 >= q.1 {
                p.1
            } else {
                q.1
            },
        };
        out.push(s);
        proof {
            let i = y - first;
            assert(all[i] == s);
            assert(all.take(i + 1) =~= all.take(i).push(s));
            assert(out@ =~= old(out)@ + all.take(i + 1));
        }
        y = y + 1;
    }
    assert(all.take(y - first) =~= all);
}

/// The cosine and sine of the angle between an arrow's shaft and the side
/// of its head, in parts of [`TURN`].
pub const BARB_COS: i64 = 900_447_102;

pub const BARB_SIN: i64 = 434_965_534;

/// The way from `a` to `b`; to the right if they are the same.
pub open spec fn way_of(a: Point, b: Point) -> (int, int) {
    if a == b {
        (1, 0)
    } else {
        (b.x - a.x, b.y - a.y)
    }
}

/// The corner of an arrow's head beside its tip `b`: `turn` is the sine
/// of the angle to it, positive on one side of the shaft and negative on
/// the other.
pub open spec fn barb_of(a: Point, b: Point, head: int, turn: int) -> Point {
    let (dx, dy) = way_of(a, b);
    let long = root_of((dx * dx + dy * dy) * 1_000_000_000_000) * 1000;
    Point {
        x: (b.x - head * (dx * BARB_COS + dy * turn) / long) as i64,
        y: (b.y - head * (dy * BARB_COS - dx * turn) / long) as i64,
    }
}

/// The rows of an arrow's head.
pub open spec fn head_of(a: Point, b: Point, width: int) -> Seq<Span> {
    let head = head_length(width);
    triangle_of(
        b,
        barb_of(a, b, head, BARB_SIN as int),
        barb_of(a, b, head, -BARB_SIN as int),
    )
}

/// `d` is no further than the whole length `s`.
proof fn lemma_side(d: int, e: int, s: int)
    requires
        s == root_of((d * d + e * e) * 1_000_000_000_000),
    ensures
        -s <= d * 1_000_000 <= s,
        -s <= e * 1_000_000 <= s,
        s >= 0,
{
    let q = (d * d + e * e) * 1_000_000_000_000;
    assert(q >= 0) by (nonlinear_arith)
        requires
            q == (d * d + e * e) * 1_000_000_000_000,
    ;
    lemma_within(d * 1_000_000, q);
    lemma_within(e * 1_000_000, q);
    assert((d * 1_000_000) * (d * 1_000_000) <= q) by (nonlinear_arith)
        requires
            q == (d * d + e * e) * 1_000_000_000_000,
    ;
    assert((e * 1_000_000) * (e * 1_000_000) <= q) by (nonlinear_arith)
        requires
            q == (d * d + e * e) * 1_000_000_000_000,
    ;
}

/// `head * v / long`, where `v` is not longer than twice the way.
proof fn lemma_barb(head: int, v: int, long: int)
    requires
        head >= 0,
        long > 0,
        -(2 * long) <= v <= 2 * long,
    ensures
        -(2 * head) <= head * v / long <= 2 * head,
{
    let k = head * v;
    assert(-(2 * head) * long <= k <= 2 * head * long) by (nonlinear_arith)
        requires
            k == head * v,
            head >= 0,
            -(2 * long) <= v <= 2 * long,
    ;
    assert((2 * head + 1) * long == 2 * head * long + long) by (nonlinear_arith);
    lemma_div(k, long, -(2 * head));
    lemma_div(k, long, 2 * head + 1);
}

/// The corners of an arrow's head are no further from its tip than its
/// sides are long, but for what rounding adds.
pub proof fn lemma_barb_near(a: Point, b: Point, head: int, turn: int)
    requires
        on_paper(a),
        on_paper(b),
        0 <= head <= 25_000_000,
        turn == BARB_SIN || turn == -BARB_SIN,
    ensures
        -head - 30 <= barb_of(a, b, head, turn).x - b.x <= head + 30,
        -head - 30 <= barb_of(a, b, head, turn).y - b.y <= head + 30,
{
    let (dx, dy) = way_of(a, b);
    let q = (dx * dx + dy * dy) * 1_000_000_000_000;
    assert(dx * dx + dy * dy >= 1) by (nonlinear_arith)
        requires
            dx != 0 || dy != 0,
    ;
    lemma_root_exists(q);
    let s = root_of(q);
    if s < 1_000_000 {
        assert((s + 1) * (s + 1) <= 1_000_000_000_000) by (nonlinear_arith)
            requires
                0 <= s < 1_000_000,
        ;
    }
    let c = BARB_COS as int;
    let u = dx * c + dy * turn;
    let v = dy * c - dx * turn;
    lemma_turn_length(dx, dy, c, turn);
    assert(turn * turn == 189_195_015_767_905_156) by (nonlinear_arith)
        requires
            turn == 434_965_534 || turn == -434_965_534,
    ;
    assert(c * c == 810_804_983_500_198_404) by (nonlinear_arith)
        requires
            c == 900_447_102,
    ;
    assert(u * u >= 0 && v * v >= 0) by (nonlinear_arith);
    lemma_barb_coord(head, u, s, dx * dx + dy * dy);
    lemma_barb_coord(head, v, s, dx * dx + dy * dy);
}

/// Turning keeps lengths in proportion.
proof fn lemma_turn_length(dx: int, dy: int, c: int, t: int)
    ensures
        ({
            let u = dx * c + dy * t;
            let v = dy * c - dx * t;
            u * u + v * v == (dx * dx + dy * dy) * (c * c + t * t)
        }),
{
    let (p, q, x, y) = (dx * c, dy * t, dy * c, dx * t);
    assert(p * q == x * y) by (nonlinear_arith)
        requires
            p == dx * c,
            q == dy * t,
            x == dy * c,
            y == dx * t,
    ;
    assert((p + q) * (p + q) == p * p + 2 * (p * q) + q * q) by (nonlinear_arith);
    assert((x - y) * (x - y) == x * x - 2 * (x * y) + y * y) by (nonlinear_arith);
    assert(p * p == (dx * dx) * (c * c)) by (nonlinear_arith)
        requires
            p == dx * c,
    ;
    assert(q * q == (dy * dy) * (t * t)) by (nonlinear_arith)
        requires
            q == dy * t,
    ;
    assert(x * x == (dy * dy) * (c * c)) by (nonlinear_arith)
        requires
            x == dy * c,
    ;
    assert(y * y == (dx * dx) * (t * t)) by (nonlinear_arith)
        requires
            y == dx * t,
    ;
    let (e, f, g, h) = (dx * dx, dy * dy, c * c, t * t);
    assert((e + f) * (g + h) == e * g + e * h + f * g + f * h) by (nonlinear_arith);
}

proof fn lemma_barb_coord(head: int, u: int, s: int, d: int)
    requires
        0 <= head <= 25_000_000,
        s >= 1_000_000,
        d * 1_000_000_000_000 < (s + 1) * (s + 1),
        u * u <= d * 1_000_000_000_000_000_000,
    ensures
        -head - 30 <= head * u / (s * 1000) <= head + 30,
{
    let w = s + 1;
    let k = 1000 * w;
    assert(k * k == 1_000_000 * (w * w)) by (nonlinear_arith)
        requires
            k == 1000 * w,
    ;
    assert(-k < u < k) by (nonlinear_arith)
        requires
            u * u < k * k,
            k > 0,
    ;
    let long = s * 1000;
    let n = head * u;
    let top = head * (long + 1000);
    assert(-top <= n <= top) by (nonlinear_arith)
        requires
            n == head * u,
            top == head * (long + 1000),
            head >= 0,
            -(long + 1000) <= u <= long + 1000,
    ;
    assert(top <= (head + 25) * long) by (nonlinear_arith)
        requires
            top == head * (long + 1000),
            0 <= head <= 25_000_000,
            long >= 1_000_000_000,
    ;
    assert((-head - 25) * long == -((head + 25) * long)) by (nonlinear_arith);
    assert((head + 26) * long == (head + 25) * long + long) by (nonlinear_arith);
    lemma_div(n, long, -head - 25);
    lemma_div(n, long, head + 26);
}

fn barb(a: Point, b: Point, head: i64, turn: i64) -> (p: Point)
    requires
        on_paper(a),
        on_paper(b),
        0 <= head <= 25_000_000,
        turn == BARB_SIN || turn == -BARB_SIN,
    ensures
        p == barb_of(a, b, head as int, turn as int),
        on_sheet(p),
{
    let (dx, dy): (i128, i128) = if a.x == b.x && a.y == b.y {
        (1, 0)
    } else {
        (b.x as i128 - a.x as i128, b.y as i128 - a.y as i128)
    };
    proof {
        lemma_square(dx as int, 500_000_000_000_000);
        lemma_square(dy as int, 500_000_000_000_000);
        lemma_product(dx as int, 500_000_000_000_000, turn as int, 1_000_000_000);
        lemma_product(dy as int, 500_000_000_000_000, turn as int, 1_000_000_000);
        assert(0x200_0000_0000_0000_0000int * 0x200_0000_0000_0000_0000int
            > 500_000_000_000_000_000_000_000_000_000int * 1_000_000_000_000int)
            by (nonlinear_arith);
    }
    let s: i128 = root_product(dx * dx + dy * dy, 1_000_000_000_000);
    let u: i128 = dx * BARB_COS as i128 + dy * turn as i128;
    let v: i128 = dy * BARB_COS as i128 - dx * turn as i128;
    let long: i128 = s * 1000;
    proof {
        lemma_side(dx as int, dy as int, s as int);
        assert(s > 0) by {
            if dx != 0 {
            } else {
                assert(dy != 0);
            }
        }
        lemma_turned(dx as int, dy as int, turn as int, s as int);
        lemma_barb(head as int, u as int, long as int);
        lemma_barb(head as int, v as int, long as int);
        lemma_product(head as int, 25_000_000, u as int, 1_000_000_000_000_000_000_000_000);
        lemma_product(head as int, 25_000_000, v as int, 1_000_000_000_000_000_000_000_000);
    }
    Point {
        x: b.x - floor_div(head as i128 * u, long) as i64,
        y: b.y - floor_div(head as i128 * v, long) as i64,
    }
}

proof fn lemma_turned(dx: int, dy: int, turn: int, s: int)
    requires
        -s <= dx * 1_000_000 <= s,
        -s <= dy * 1_000_000 <= s,
        turn == BARB_SIN || turn == -BARB_SIN,
    ensures
        -(2 * (s * 1000)) <= dx * BARB_COS + dy * turn <= 2 * (s * 1000),
        -(2 * (s * 1000)) <= dy * BARB_COS - dx * turn <= 2 * (s * 1000),
{
    if turn == BARB_SIN {
    } else {
        assert(dy * turn == -(dy * BARB_SIN)) by (nonlinear_arith)
            requires
                turn == -BARB_SIN,
        ;
        assert(dx * turn == -(dx * BARB_SIN)) by (nonlinear_arith)
            requires
                turn == -BARB_SIN,
        ;
    }
}

/// Actions are drawn within this of the origin, in units: as far as any
/// image reaches and any action is within reach.
pub const PAPER: i64 = 250_000_000_000_000;

pub open spec fn on_paper(p: Point) -> bool {
    -PAPER <= p.x <= PAPER && -PAPER <= p.y <= PAPER
}

pub open spec fn all_on_paper(ps: Seq<Point>) -> bool {
    forall|i: int| 0 <= i < ps.len() ==> on_paper(#[trigger] ps[i])
}

/// The rows that an action covers, in the order they are painted; `ts`
/// are the headings of an ellipse's brush marks. A filled rectangle, a
/// text and a blur have none.
pub open spec fn outline_of(m: Mark, ts: Seq<Heading>) -> Seq<Span> {
    if m.points.len() == 0 {
        Seq::empty()
    } else {
        let a = m.points[0];
        let b = m.points[m.points.len() - 1];
        match m.tool {
            Tool::Pen | Tool::Highlight => if m.points.len() == 1 {
                disc_of(a, brush(m))
            } else {
                polyline_of(m.points, m.points.len() as int, brush(m))
            },
            Tool::Line => segment_of(a, b, brush(m)),
            Tool::Arrow => segment_of(a, b, brush(m)) + head_of(a, b, m.width as int),
            Tool::Ellipse => if a.x == b.x || a.y == b.y {
                Seq::empty()
            } else if m.filled {
                ellipse_of(a, b)
            } else {
                ring_of(a, b, brush(m), ts, ts.len() as int)
            },
            Tool::Rect => if m.filled {
                Seq::empty()
            } else {
                frame_of(a, b, brush(m))
            },
            Tool::Counter => disc_of(a, max_of(m.font_size * 9 / 10, PX as int / 2)),
            _ => Seq::empty(),
        }
    }
}

/// The rows that an action covers.
pub fn outline(action: &Action, ts: &Vec<Heading>) -> (r: Vec<Span>)
    requires
        all_on_paper(action@.points),
        0 <= action.width <= 2 * BRUSH,
        0 <= action.font_size <= BRUSH,
        headings(ts@),
    ensures
        r@ == outline_of(action@, ts@),
        spans_near(r@),
{
    let mut out: Vec<Span> = Vec::new();
    let ps = &action.points;
    if ps.len() == 0 {
        assert(out@ =~= outline_of(action@, ts@));
        return out;
    }
    let a = ps[0];
    let b = ps[ps.len() - 1];
    let half: i64 = action.width / 2;
    let r: i64 = if half >= PX / 2 {
        half
    } else {
        PX / 2
    };
    assert(r == brush(action@));
    assert(on_paper(action@.points[0]) && on_paper(action@.points[action@.points.len() - 1]));
    match action.tool {
        Tool::Pen | Tool::Highlight => if ps.len() == 1 {
            push_disc(&mut out, a, r);
        } else {
            push_polyline(&mut out, ps, r);
        },
        Tool::Line => push_segment(&mut out, a, b, r),
        Tool::Arrow => {
            push_segment(&mut out, a, b, r);
            let head: i64 = 14 * PX + action.width;
            let p = barb(a, b, head, BARB_SIN);
            let q = barb(a, b, head, -BARB_SIN);
            push_triangle(&mut out, b, p, q);
        },
        Tool::Ellipse => if a.x == b.x || a.y == b.y {
        } else if action.filled {
            push_ellipse(&mut out, a, b);
        } else {
            push_ring(&mut out, a, b, r, ts);
        },
        Tool::Rect => if !action.filled {
            push_frame(&mut out, a, b, r);
        },
        Tool::Counter => {
            let d: i64 = action.font_size * 9 / 10;
            push_disc(
                &mut out,
                a,
                if d >= PX / 2 {
                    d
                } else {
                    PX / 2
                },
            );
        },
        _ => {},
    }
    assert(out@ =~= outline_of(action@, ts@));
    out
}

/// What an action covers but for its rows: the tables of its colour, and
/// the pixels of its glyphs with theirs.
pub struct Shades {
    pub mix: Mix,
    pub dots: Vec<Dot>,
    pub tones: Vec<Mix>,
}

impl Shades {
    /// With these rows.
    pub open spec fn over(self, spans: Seq<Span>) -> Cover {
        Cover {
            spans,
            mix: self.mix@,
            dots: self.dots@,
            tones: Seq::new(self.tones@.len(), |i: int| self.tones@[i]@),
        }
    }

    pub open spec fn wf(self) -> bool {
        self.over(Seq::empty()).wf()
    }
}

/// What an action covers: the rows of its outline, in its shades.
pub fn ink_for(action: &Action, ts: &Vec<Heading>, shades: Shades) -> (r: Ink)
    requires
        all_on_paper(action@.points),
        0 <= action.width <= 2 * BRUSH,
        0 <= action.font_size <= BRUSH,
        headings(ts@),
        shades.wf(),
    ensures
        r@ == shades.over(outline_of(action@, ts@)),
        r@.wf(),
{
    let spans = outline(action, ts);
    let r = Ink { spans, mix: shades.mix, dots: shades.dots, tones: shades.tones };
    proof {
        let bare = shades.over(Seq::empty());
        assert(r@.tones =~= bare.tones);
        assert(r@.dots == bare.dots && r@.mix == bare.mix);
    }
    r
}

/// Paint an action that is no blur: its outline, in its shades.
pub fn draw(img: &mut Canvas, action: &Action, ts: &Vec<Heading>, shades: Shades)
    requires
        old(img).wf(),
        action@.wf(),
        action.width <= 2 * BRUSH,
        headings(ts@),
        shades.wf(),
    ensures
        final(img).wf(),
        final(img).width == old(img).width,
        final(img).height == old(img).height,
        forall|x: int, y: int|
            old(img).has(x, y) ==> #[trigger] final(img).at(x, y) == painted(
                old(img).at(x, y),
                action@,
                shades.over(outline_of(action@, ts@)),
                x,
                y,
            ),
{
    assert forall|i: int| 0 <= i < action@.points.len() implies on_paper(
        #[trigger] action@.points[i],
    ) by {
        assert(close(action@.points[i]));
    }
    let ink = ink_for(action, ts, shades);
    rasterize(img, action, &ink);
}

/// The pixel's place lies within the brush's radius of the line between two
/// points, or of the one point where they are the same.
pub open spec fn near_line(a: Point, b: Point, r: int, x: int, y: int) -> bool {
    if a == b {
        in_disc(a, r, x * PX, y * PX)
    } else {
        in_stroke(a, b, r, x * PX, y * PX)
    }
}

/// An action's outline covers what its tool draws: a free stroke the way
/// from each of its points to the next, a line and an arrow the way from
/// the first to the last, a rectangle its four sides, a counter its disc.
/// The brush reaches half the stroke's width to each side.
pub proof fn law_outline_covers(m: Mark, ts: Seq<Heading>, x: int, y: int, k: int)
    requires
        m.points.len() >= 2,
        all_on_paper(m.points),
        PX <= m.width <= 2 * BRUSH,
        0 <= m.font_size <= BRUSH,
        1 <= k < m.points.len(),
    ensures
        ({
            let (a, b) = (m.points[0], m.points.last());
            let (c, d) = (Point { x: b.x, y: a.y }, Point { x: a.x, y: b.y });
            let r = m.width as int / 2;
            let o = outline_of(m, ts);
            let on = covered(o, o.len() as int, x, y);
            &&& (m.tool is Pen || m.tool is Highlight) && near_line(
                m.points[k - 1],
                m.points[k],
                r,
                x,
                y,
            ) ==> on
            &&& (m.tool is Line || m.tool is Arrow) && near_line(a, b, r, x, y) ==> on
            &&& m.tool is Rect && !m.filled && (near_line(a, c, r, x, y) || near_line(
                c,
                b,
                r,
                x,
                y,
            ) || near_line(b, d, r, x, y) || near_line(d, a, r, x, y)) ==> on
            &&& m.tool is Counter && in_disc(a, m.font_size * 9 / 10, x * PX, y * PX) ==> on
        }),
{
    let n = m.points.len() as int;
    let (a, b) = (m.points[0], m.points.last());
    let (c, d) = (Point { x: b.x, y: a.y }, Point { x: a.x, y: b.y });
    let r = m.width as int / 2;
    let o = outline_of(m, ts);
    assert(brush(m) == r);
    assert(on_paper(m.points[k - 1]) && on_paper(m.points[k]) && on_paper(a) && on_paper(b));
    match m.tool {
        Tool::Pen | Tool::Highlight => {
            if near_line(m.points[k - 1], m.points[k], r, x, y) {
                crate::shapes::law_segment_covers(m.points[k - 1], m.points[k], r, x, y);
                crate::shapes::law_polyline_covers(m.points, n, r, x, y);
            }
        },
        Tool::Line => {
            if near_line(a, b, r, x, y) {
                crate::shapes::law_segment_covers(a, b, r, x, y);
            }
        },
        Tool::Arrow => {
            if near_line(a, b, r, x, y) {
                crate::shapes::law_segment_covers(a, b, r, x, y);
                crate::shapes::lemma_covered_joined(
                    segment_of(a, b, r),
                    head_of(a, b, m.width as int),
                    x,
                    y,
                );
            }
        },
        Tool::Rect => {
            if near_line(a, c, r, x, y) {
                crate::shapes::law_segment_covers(a, c, r, x, y);
            }
            if near_line(c, b, r, x, y) {
                crate::shapes::law_segment_covers(c, b, r, x, y);
            }
            if near_line(b, d, r, x, y) {
                crate::shapes::law_segment_covers(b, d, r, x, y);
            }
            if near_line(d, a, r, x, y) {
                crate::shapes::law_segment_covers(d, a, r, x, y);
            }
            crate::shapes::law_frame_covers(a, b, r, x, y);
        },
        Tool::Counter => {
            let s = m.font_size * 9 / 10;
            let t = max_of(s, PX as int / 2);
            if in_disc(a, s, x * PX, y * PX) {
                assert(s * s <= t * t) by (nonlinear_arith)
                    requires
                        0 <= s <= t,
                ;
                crate::shapes::law_disc_covers(a, t, x, y);
            }
        },
        _ => {},
    }
}

/// The places on an ellipse's outline: to the right of its middle, below
/// it, and so on round, as their directions say, up to its four sides.
pub proof fn law_ring_points(a: Point, b: Point, t: Heading)
    requires
        on_sheet(a) && on_sheet(b),
        t.wf(),
    ensures
        ({
            let p = ring_point(a, b, t);
            &&& t.cos == TURN ==> p.x == max_of(a.x as int, b.x as int)
            &&& t.cos == -TURN ==> p.x == min_of(a.x as int, b.x as int)
            &&& t.cos == 0 ==> 2 * p.x <= a.x + b.x <= 2 * p.x + 1
            &&& t.sin == TURN ==> p.y == max_of(a.y as int, b.y as int)
            &&& t.sin == -TURN ==> p.y == min_of(a.y as int, b.y as int)
            &&& t.sin == 0 ==> 2 * p.y <= a.y + b.y <= 2 * p.y + 1
        }),
{
    lemma_ring_side(a.x as int, b.x as int, t.cos as int);
    lemma_ring_side(a.y as int, b.y as int, t.sin as int);
}

proof fn lemma_ring_side(p: int, q: int, c: int)
    requires
        -SHEET <= p <= SHEET && -SHEET <= q <= SHEET,
        -TURN <= c <= TURN,
    ensures
        ({
            let w = if q >= p {
                q - p
            } else {
                p - q
            };
            let v = ((p + q) * TURN + w * c) / (2 * TURN as int);
            &&& -SHEET <= v <= SHEET
            &&& c == TURN ==> v == max_of(p, q)
            &&& c == -TURN ==> v == min_of(p, q)
            &&& c == 0 ==> 2 * v <= p + q <= 2 * v + 1
        }),
{
    let w = if q >= p {
        q - p
    } else {
        p - q
    };
    let t = TURN as int;
    assert(-(w * t) <= w * c <= w * t) by (nonlinear_arith)
        requires
            w >= 0,
            -t <= c <= t,
    ;
    assert(c == t ==> w * c == w * t) by (nonlinear_arith);
    assert(c == -t ==> w * c == -(w * t)) by (nonlinear_arith);
    assert(c == 0 ==> w * c == 0) by (nonlinear_arith);
    let u = (p + q) * TURN + w * c;
    let v = u / (2 * TURN as int);
    assert(t == 1_000_000_000);
    assert(u == (p + q) * 1_000_000_000 + w * c);
    assert(v == u / 2_000_000_000);
    assert(w * t == w * 1_000_000_000) by (nonlinear_arith)
        requires
            t == 1_000_000_000,
    ;
    assert(c == t ==> u == (2 * max_of(p, q)) * 1_000_000_000);
    assert(c == -t ==> u == (2 * min_of(p, q)) * 1_000_000_000);
}

/// The brush marks of a ring are counted from its radii: seven to twenty
/// pixels of both, and at least 24.
pub proof fn law_ring_count(a: Point, b: Point)
    ensures
        ring_count(a, b) >= 24,
        ring_count(a, b) == ring_count(b, a),
        ring_count(a, b) > 24 ==> ({
            let both = max_of(a.x - b.x, b.x - a.x) + max_of(a.y - b.y, b.y - a.y);
            40 * (PX * ring_count(a, b)) <= 7 * both < 40 * (PX * ring_count(a, b)) + 40 * PX
        }),
{
}

/// An arrow's barbs lie behind its tip, one to each side of the shaft: of
/// an arrow along an axis they are as far behind the tip, and as far to
/// the two sides.
pub proof fn law_barbs(a: Point, b: Point, head: int)
    requires
        on_sheet(a) && on_sheet(b),
        0 <= head <= 25_000_000,
    ensures
        ({
            let (p, q) = (
                barb_of(a, b, head, BARB_SIN as int),
                barb_of(a, b, head, -BARB_SIN as int),
            );
            let (back, side) = (head * BARB_COS / 1_000_000_000, head * BARB_SIN / 1_000_000_000);
            &&& a.y == b.y && a.x < b.x ==> p.x == b.x - back && q.x == b.x - back && q.y == b.y
                - side && side <= p.y - b.y <= side + 1
            &&& a.x == b.x && a.y < b.y ==> p.y == b.y - back && q.y == b.y - back && p.x == b.x
                - side && side <= q.x - b.x <= side + 1
        }),
{
    if a.y == b.y && a.x < b.x {
        lemma_barb_axis(b.x - a.x, head);
    }
    if a.x == b.x && a.y < b.y {
        lemma_barb_axis(b.y - a.y, head);
    }
}

proof fn lemma_barb_axis(d: int, head: int)
    requires
        0 < d <= 2 * SHEET,
        0 <= head <= 25_000_000,
    ensures
        ({
            let long = root_of((d * d + 0 * 0) * 1_000_000_000_000) * 1000;
            let (c, s) = (BARB_COS as int, BARB_SIN as int);
            let (back, side) = (head * c / 1_000_000_000, head * s / 1_000_000_000);
            &&& long == root_of((0 * 0 + d * d) * 1_000_000_000_000) * 1000
            &&& head * (d * c + 0 * s) / long == back
            &&& head * (d * c + 0 * -s) / long == back
            &&& head * (0 * c - d * s) / long == -side || head * (0 * c - d * s) / long == -side - 1
            &&& head * (0 * c - d * -s) / long == side
            &&& head * (0 * c + d * s) / long == side
            &&& head * (0 * c + d * -s) / long == -side || head * (0 * c + d * -s) / long == -side
                - 1
            &&& head * (d * c - 0 * s) / long == back
            &&& head * (d * c - 0 * -s) / long == back
            &&& 0 <= back <= 25_000_000 && 0 <= side <= 25_000_000
        }),
{
    let q = (d * d + 0 * 0) * 1_000_000_000_000;
    let m = d * 1_000_000;
    assert(0int * 0int == 0);
    assert(crate::shapes::is_root(m, q)) by {
        assert(m * m == d * d * 1_000_000_000_000) by (nonlinear_arith)
            requires
                m == d * 1_000_000,
        ;
        assert((m + 1) * (m + 1) > m * m) by (nonlinear_arith)
            requires
                m > 0,
        ;
    }
    crate::shapes::lemma_root(m, q);
    let long = m * 1000;
    assert(long == d * 1_000_000_000);
    let (c, s) = (BARB_COS as int, BARB_SIN as int);
    lemma_scale(head, c, d);
    lemma_scale(head, s, d);
    let (hc, hs) = (head * c, head * s);
    assert(0 <= hc <= 25_000_000_000_000_000 && 0 <= hs <= 25_000_000_000_000_000) by (nonlinear_arith)
        requires
            0 <= head <= 25_000_000,
            hc == head * c,
            hs == head * s,
            c == 900_447_102,
            s == 434_965_534,
    ;
}

proof fn lemma_scale(head: int, c: int, d: int)
    requires
        0 < d,
        0 <= head,
        0 <= c,
    ensures
        ({
            let long = d * 1_000_000_000;
            let k = head * c / 1_000_000_000;
            &&& head * (d * c) / long == k
            &&& head * -(d * c) / long == -k || head * -(d * c) / long == -k - 1
            &&& head * (d * c + 0 * c) / long == k
        }),
{
    let long = d * 1_000_000_000;
    let v = head * c;
    let k = v / 1_000_000_000;
    assert(v >= 0) by (nonlinear_arith)
        requires
            head >= 0,
            c >= 0,
            v == head * c,
    ;
    assert(head * (d * c) == v * d) by (nonlinear_arith)
        requires
            v == head * c,
    ;
    assert(head * -(d * c) == -(v * d)) by (nonlinear_arith)
        requires
            v == head * c,
    ;
    assert((v * d) / long == k) by (nonlinear_arith)
        requires
            long == d * 1_000_000_000,
            d > 0,
            k * 1_000_000_000 <= v < (k + 1) * 1_000_000_000,
    ;
    assert((-(v * d)) / long == -k || (-(v * d)) / long == -k - 1) by (nonlinear_arith)
        requires
            long == d * 1_000_000_000,
            d > 0,
            k * 1_000_000_000 <= v < (k + 1) * 1_000_000_000,
    ;
    assert(0 * c == 0) by (nonlinear_arith);
}

/// What is drawn is seen: every pixel on the way of a pen, a line, an arrow
/// or a rectangle's side has the action's colour afterwards, opaque.
pub proof fn law_drawn_is_seen(
    p: crate::canvas::Pixel,
    m: Mark,
    ink: Cover,
    ts: Seq<Heading>,
    x: int,
    y: int,
    k: int,
)
    requires
        ink.spans == outline_of(m, ts),
        m.points.len() >= 2,
        all_on_paper(m.points),
        PX <= m.width <= 2 * BRUSH,
        0 <= m.font_size <= BRUSH,
        1 <= k < m.points.len(),
        ({
            let (a, b) = (m.points[0], m.points.last());
            let (c, d) = (Point { x: b.x, y: a.y }, Point { x: a.x, y: b.y });
            let r = m.width as int / 2;
            ||| m.tool is Pen && near_line(m.points[k - 1], m.points[k], r, x, y)
            ||| (m.tool is Line || m.tool is Arrow) && near_line(a, b, r, x, y)
            ||| m.tool is Rect && !m.filled && (near_line(a, c, r, x, y) || near_line(
                c,
                b,
                r,
                x,
                y,
            ) || near_line(b, d, r, x, y) || near_line(d, a, r, x, y))
        }),
    ensures
        painted(p, m, ink, x, y) == (crate::canvas::Pixel {
            a: 255,
            ..crate::action::color_of(m.color)
        }),
{
    law_outline_covers(m, ts, x, y, k);
    crate::raster::law_stroke_paints(p, m, ink, x, y);
}

/// The head of an arrow has its tip at the arrow's end, whichever way the
/// arrow points: of the triangle's corners, the highest and the lowest are
/// covered where they lie on a row of pixels.
pub proof fn law_triangle_corners(u: Point, v: Point, w: Point)
    requires
        on_sheet(u) && on_sheet(v) && on_sheet(w),
    ensures
        ({
            let (t, m, b) = by_height(u, v, w);
            let all = triangle_of(u, v, w);
            &&& t.y <= m.y <= b.y
            &&& seq![u, v, w].to_multiset() == seq![t, m, b].to_multiset()
            &&& t.y < b.y && t.y >= 0 && t.y % PX == 0 ==> covered(
                all,
                all.len() as int,
                t.x as int / PX as int,
                t.y as int / PX as int,
            )
            &&& t.y < b.y && t.y >= 0 && b.y % PX == 0 ==> covered(
                all,
                all.len() as int,
                b.x as int / PX as int,
                b.y as int / PX as int,
            )
        }),
{
    let (t, m, b) = by_height(u, v, w);
    let all = triangle_of(u, v, w);
    lemma_same_corners(u, v, w);
    if t.y < b.y && t.y >= 0 {
        let first = max_of(t.y as int / PX as int, 0);
        let h = b.y - t.y;
        let d = h * PX;
        if t.y % PX == 0 {
            let y = t.y as int / PX as int;
            assert(y * PX == t.y);
            assert((b.x - t.x) * 0 == 0) by (nonlinear_arith);
            lemma_corner(t.x as int, h);
            let s = triangle_row(t, m, b, y);
            assert(crossing(t, b, t.y as int).0 == t.x as int / PX as int);
            assert(all[y - first] == s);
            lemma_bend_near(t, m, b, t.y as int);
            assert(covers(s, t.x as int / PX as int, y));
        }
        if b.y % PX == 0 {
            let y = b.y as int / PX as int;
            assert(y * PX == b.y);
            assert(t.x * h + (b.x - t.x) * h == b.x * h) by (nonlinear_arith);
            lemma_corner(b.x as int, h);
            let s = triangle_row(t, m, b, y);
            assert(crossing(t, b, b.y as int).0 == b.x as int / PX as int);
            assert(all[y - first] == s);
            lemma_bend_near(t, m, b, b.y as int);
            assert(covers(s, b.x as int / PX as int, y));
        }
    }
}

proof fn lemma_same_corners(u: Point, v: Point, w: Point)
    ensures
        ({
            let (t, m, b) = by_height(u, v, w);
            seq![u, v, w].to_multiset() == seq![t, m, b].to_multiset()
        }),
{
    let (t, m, b) = by_height(u, v, w);
    broadcast use vstd::seq_lib::group_to_multiset_ensures;

    let e = Seq::<Point>::empty();
    assert(seq![u, v, w] =~= e.push(u).push(v).push(w));
    assert(seq![t, m, b] =~= e.push(t).push(m).push(b));
    assert(seq![u, v, w].to_multiset() =~= seq![t, m, b].to_multiset());
}

proof fn lemma_corner(x: int, h: int)
    requires
        h > 0,
    ensures
        (x * h) / (h * PX) == x / PX as int,
        ceil_div(x * h, h * PX) == ceil_of(x),
{
    let p = PX as int;
    assert(x * h == h * x && h * PX == h * p) by (nonlinear_arith)
        requires
            p == PX,
    ;
    lemma_ratio(x, h, p);
    lemma_ratio(-x, h, p);
    assert((-x) * h == -(x * h)) by (nonlinear_arith);
}

proof fn lemma_ratio(x: int, h: int, p: int)
    requires
        h > 0,
        p > 0,
    ensures
        (x * h) / (h * p) == x / p,
{
    let k = x / p;
    vstd::arithmetic::div_mod::lemma_fundamental_div_mod(x, p);
    assert(k * p <= x < (k + 1) * p) by (nonlinear_arith)
        requires
            p > 0,
            k == x / p,
    ;
    assert((x * h) / (h * p) == k) by (nonlinear_arith)
        requires
            h > 0,
            p > 0,
            k * p <= x < (k + 1) * p,
    ;
}

/// The bent side of a triangle stays near enough to be counted.
proof fn lemma_bend_near(t: Point, m: Point, b: Point, y: int)
    requires
        on_sheet(t) && on_sheet(m) && on_sheet(b),
        t.y <= m.y <= b.y,
        t.y <= y <= b.y,
    ensures
        -30_000_000_000 <= bend(t, m, b, y).0 <= bend(t, m, b, y).1 <= 30_000_000_000,
{
    if y <= m.y && m.y != t.y {
        lemma_crossing_near(t, m, y);
    } else if y > m.y && b.y != m.y {
        lemma_crossing_near(m, b, y);
    }
}

proof fn lemma_crossing_near(p: Point, q: Point, y: int)
    requires
        on_sheet(p) && on_sheet(q),
        p.y < q.y,
        p.y <= y <= q.y,
    ensures
        -30_000_000_000 <= crossing(p, q, y).0 <= crossing(p, q, y).1 <= 30_000_000_000,
{
    let h = q.y - p.y;
    let v = p.x * h + (q.x - p.x) * (y - p.y);
    let s = SHEET as int;
    assert(-s * h <= v <= s * h) by (nonlinear_arith)
        requires
            -s <= p.x <= s,
            -s <= q.x <= s,
            0 <= y - p.y <= h,
            v == p.x * h + (q.x - p.x) * (y - p.y),
    ;
    let d = h * PX;
    assert(d > 0) by (nonlinear_arith)
        requires
            h > 0,
            d == h * PX,
            PX == 10_000,
    ;
    assert(-25_100_000_000 * d <= v <= 25_100_000_000 * d) by (nonlinear_arith)
        requires
            -s * h <= v <= s * h,
            s == 251_000_000_000_000,
            d == h * 10_000,
            h > 0,
    ;
    assert(-25_100_000_000 <= v / d <= 25_100_000_000 && -25_100_000_000 <= (-v) / d
        <= 25_100_000_000) by (nonlinear_arith)
        requires
            -25_100_000_000 * d <= v <= 25_100_000_000 * d,
            d > 0,
    ;
    assert(v / d <= -((-v) / d)) by (nonlinear_arith)
        requires
            d > 0,
    ;
}

/// A filled ellipse covers every pixel whose place lies in it, and an
/// outlined one the brush's disc at each of its marks.
pub proof fn law_ellipse_outline(m: Mark, ts: Seq<Heading>, x: int, y: int, k: int)
    requires
        m.tool is Ellipse,
        m.points.len() >= 1,
        all_on_paper(m.points),
        PX <= m.width <= 2 * BRUSH,
        m.points[0].x != m.points.last().x && m.points[0].y != m.points.last().y,
        headings(ts),
        0 <= x && 0 <= y,
        0 <= k < ts.len(),
    ensures
        ({
            let (a, b) = (m.points[0], m.points.last());
            let (w, h) = (b.x - a.x, b.y - a.y);
            let (z, d) = (2 * (x * PX) - (a.x + b.x), 2 * (y * PX) - (a.y + b.y));
            let o = outline_of(m, ts);
            let on = covered(o, o.len() as int, x, y);
            &&& m.filled && min_of(a.y as int, b.y as int) <= y * PX <= max_of(
                a.y as int,
                b.y as int,
            ) && z * z * (h * h) + d * d * (w * w) <= w * w * (h * h) ==> on
            &&& !m.filled && in_disc(ring_point(a, b, ts[k]), m.width as int / 2, x * PX, y * PX)
                ==> on
        }),
{
    let (a, b) = (m.points[0], m.points.last());
    let (w, h) = (b.x - a.x, b.y - a.y);
    let (z, d) = (2 * (x * PX) - (a.x + b.x), 2 * (y * PX) - (a.y + b.y));
    assert(on_paper(a) && on_paper(b));
    let r = m.width as int / 2;
    assert(brush(m) == r);
    if m.filled && min_of(a.y as int, b.y as int) <= y * PX <= max_of(a.y as int, b.y as int) && z * z
        * (h * h) + d * d * (w * w) <= w * w * (h * h) {
        crate::shapes::law_ellipse_covers(a, b, x, y);
    }
    if !m.filled && in_disc(ring_point(a, b, ts[k]), r, x * PX, y * PX) {
        lemma_ring_side(a.x as int, b.x as int, ts[k].cos as int);
        lemma_ring_side(a.y as int, b.y as int, ts[k].sin as int);
        assert(ts[k].wf());
        crate::shapes::law_disc_covers(ring_point(a, b, ts[k]), r, x, y);
        lemma_ring_covered(a, b, r, ts, ts.len() as int, k, x, y);
    }
}

proof fn lemma_ring_covered(
    a: Point,
    b: Point,
    r: int,
    ts: Seq<Heading>,
    n: int,
    k: int,
    x: int,
    y: int,
)
    requires
        0 <= k < n <= ts.len(),
        ({
            let one = disc_of(ring_point(a, b, ts[k]), r);
            covered(one, one.len() as int, x, y)
        }),
    ensures
        covered(ring_of(a, b, r, ts, n), ring_of(a, b, r, ts, n).len() as int, x, y),
    decreases n,
{
    let rest = ring_of(a, b, r, ts, n - 1);
    let one = disc_of(ring_point(a, b, ts[n - 1]), r);
    crate::shapes::lemma_covered_joined(rest, one, x, y);
    if k < n - 1 {
        lemma_ring_covered(a, b, r, ts, n - 1, k, x, y);
    }
}

/// An arrow has its head at its end: of one that points straight down, the
/// head covers the end, and nothing of it is above its barbs.
pub proof fn law_head_at_end(a: Point, b: Point, width: int, i: int)
    requires
        on_paper(a) && on_paper(b),
        a.x == b.x && a.y < b.y,
        0 <= width <= 2_000_000,
        b.y >= head_length(width) && b.y % PX == 0,
        0 <= i < head_of(a, b, width).len(),
    ensures
        covered(
            head_of(a, b, width),
            head_of(a, b, width).len() as int,
            b.x as int / PX as int,
            b.y as int / PX as int,
        ),
        b.y - head_length(width) - PX <= head_of(a, b, width)[i].y * PX <= b.y,
{
    let head = head_length(width);
    law_barbs(a, b, head);
    let (p, q) = (barb_of(a, b, head, BARB_SIN as int), barb_of(a, b, head, -BARB_SIN as int));
    let back = head * BARB_COS / 1_000_000_000;
    assert(0 < back <= head) by (nonlinear_arith)
        requires
            140_000 <= head <= 2_140_000,
            back == head * BARB_COS / 1_000_000_000,
            BARB_COS == 900_447_102,
    ;
    let side = head * BARB_SIN / 1_000_000_000;
    assert(0 <= side <= head) by (nonlinear_arith)
        requires
            140_000 <= head <= 2_140_000,
            side == head * BARB_SIN / 1_000_000_000,
            BARB_SIN == 434_965_534,
    ;
    assert(p.y < b.y && q.y == p.y);
    law_triangle_corners(b, p, q);
    let (t, m, z) = by_height(b, p, q);
    assert(z == b && t.y == b.y - back);
    let first = max_of(t.y as int / PX as int, 0);
    assert(head_of(a, b, width)[i] == triangle_row(t, m, z, first + i));
}

} // verus!
