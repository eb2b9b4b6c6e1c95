//! The rows of pixels that a shape covers. A shape lies on the lattice of
//! units; a row of pixels is covered from the pixel that holds the
//! leftmost of its points on that row to the one that holds, or follows,
//! the rightmost.

use vstd::prelude::*;
use crate::geom::{ceil_of, floor_div, max_of, min_of, trunc_of, Point, PX};
use crate::raster::{covered, covers, spans_near, Span};
use crate::wide::{root_product, root_ratio};

verus! {

/// Shapes lie within this of the origin, in units.
pub const SHEET: i64 = 251_000_000_000_000;

/// No brush is wider than this.
pub const BRUSH: i64 = 10_000_000;

/// Wider than any shape.
pub const WIDE: i64 = 1_000_000_000_000_000;

pub open spec fn on_sheet(p: Point) -> bool {
    -SHEET <= p.x <= SHEET && -SHEET <= p.y <= SHEET
}

/// `s` is the square root of `q`, rounded down.
pub open spec fn is_root(s: int, q: int) -> bool {
    0 <= s && s * s <= q && q < (s + 1) * (s + 1)
}

/// The square root of `q`, rounded down.
pub open spec fn root_of(q: int) -> int {
    choose|s: int| is_root(s, q)
}

pub(crate) proof fn lemma_root(s: int, q: int)
    requires
        is_root(s, q),
    ensures
        root_of(q) == s,
{
    let t = root_of(q);
    assert(is_root(t, q));
    if t < s {
        assert((t + 1) * (t + 1) <= s * s) by (nonlinear_arith)
            requires
                0 <= t < s,
        ;
    } else if s < t {
        assert((s + 1) * (s + 1) <= t * t) by (nonlinear_arith)
            requires
                0 <= s < t,
        ;
    }
}

/// The square root of `q`, rounded down.
pub fn root(q: i128) -> (s: i128)
    requires
        0 <= q <= 0x1_0000_0000_0000_0000_0000_0000_0000,
    ensures
        is_root(s as int, q as int),
        s == root_of(q as int),
        0 <= s <= 0x100_0000_0000_0000,
{
    let mut lo: i128 = 0;
    let mut hi: i128 = 0x100_0000_0000_0001;
    proof {
        assert(0x100_0000_0000_0001int * 0x100_0000_0000_0001int
            > 0x1_0000_0000_0000_0000_0000_0000_0000) by (nonlinear_arith);
    }
    while hi - lo > 1
        invariant
            0 <= lo < hi <= 0x100_0000_0000_0001,
            lo * lo <= q < hi * hi,
        decreases hi - lo,
    {
        let mid: i128 = lo + (hi - lo) / 2;
        proof {
            assert(0 <= mid * mid <= 0x100_0000_0000_0001int * 0x100_0000_0000_0001int)
                by (nonlinear_arith)
                requires
                    0 <= mid <= 0x100_0000_0000_0001,
            ;
            assert(0x100_0000_0000_0001int * 0x100_0000_0000_0001int
                <= 0x2_0000_0000_0000_0000_0000_0000_0000) by (nonlinear_arith);
        }
        if mid * mid <= q {
            lo = mid;
        } else {
            hi = mid;
        }
    }
    proof {
        lemma_root(lo as int, q as int);
    }
    lo
}

/// `a / b`, rounded up.
pub open spec fn ceil_div(a: int, b: int) -> int {
    -((-a) / b)
}

pub fn div_up(a: i128, b: i128) -> (r: i128)
    requires
        b > 0,
        a > -0x4000_0000_0000_0000_0000_0000_0000_0000,
        a < 0x4000_0000_0000_0000_0000_0000_0000_0000,
    ensures
        r == ceil_div(a as int, b as int),
{
    proof {
        assert((-a) / b as int > -0x4000_0000_0000_0000_0000_0000_0000_0001 && (-a) / b as int
            <= 0x4000_0000_0000_0000_0000_0000_0000_0000) by (nonlinear_arith)
            requires
                b > 0,
                -0x4000_0000_0000_0000_0000_0000_0000_0000 < a
                    < 0x4000_0000_0000_0000_0000_0000_0000_0000,
        ;
    }
    -floor_div(-a, b)
}

/// The pixel row or column that holds `v`.
pub open spec fn px_down(v: int) -> int {
    v / PX as int
}

/// Half the chord of a disc of radius `r`, `d` above or below its middle.
pub open spec fn chord(r: int, d: int) -> int {
    root_of(max_of(r * r - d * d, 0))
}

/// The row `y` of a disc.
pub open spec fn disc_row(c: Point, r: int, y: int) -> Span {
    let half = chord(r, y * PX - c.y);
    Span {
        y: y as i64,
        x0: px_down(c.x - half) as i64,
        x1: ceil_of(c.x + half) as i64,
    }
}

/// The first row of what reaches from `lo`, and how many rows it has up to
/// `hi`.
pub open spec fn first_row(lo: int) -> int {
    px_down(lo)
}

pub open spec fn rows_to(lo: int, hi: int) -> int {
    ceil_of(hi) - px_down(lo) + 1
}

/// The rows of a disc. A row that the disc does not quite reach has the
/// pixels at its middle.
pub open spec fn disc_of(c: Point, r: int) -> Seq<Span> {
    Seq::new(
        rows_to(c.y - r, c.y + r) as nat,
        |i: int| disc_row(c, r, first_row(c.y - r) + i),
    )
}

pub proof fn lemma_square(d: int, m: int)
    requires
        -m <= d <= m,
    ensures
        0 <= d * d <= m * m,
{
    assert(0 <= d * d <= m * m) by (nonlinear_arith)
        requires
            -m <= d <= m,
    ;
}

/// Half the chord of a disc.
fn half_chord(r: i64, d: i64) -> (h: i64)
    requires
        0 <= r <= BRUSH,
        -2 * WIDE <= d <= 2 * WIDE,
    ensures
        h == chord(r as int, d as int),
        0 <= h <= r,
{
    proof {
        lemma_square(r as int, BRUSH as int);
        lemma_square(d as int, 2 * WIDE as int);
        assert(BRUSH * BRUSH == 100_000_000_000_000) by (nonlinear_arith)
            requires
                BRUSH == 10_000_000,
        ;
        assert((2 * WIDE) * (2 * WIDE) == 4_000_000_000_000_000_000_000_000_000_000)
            by (nonlinear_arith)
            requires
                WIDE == 1_000_000_000_000_000,
        ;
    }
    let q: i128 = r as i128 * r as i128;
    let p: i128 = d as i128 * d as i128;
    let left: i128 = if q > p {
        q - p
    } else {
        0
    };
    let s: i128 = root(left);
    proof {
        if s > r {
            assert(s * s > r * r) by (nonlinear_arith)
                requires
                    s > r,
                    r >= 0,
            ;
        }
    }
    s as i64
}

fn floor_px64(v: i64) -> (r: i64)
    ensures
        r == px_down(v as int),
{
    crate::geom::floor_px(v)
}

fn ceil_px64(v: i64) -> (r: i64)
    requires
        -WIDE <= v <= WIDE,
    ensures
        r == ceil_of(v as int),
{
    crate::geom::ceil_px(v)
}

/// The rows of a disc, after those that are there.
pub fn push_disc(out: &mut Vec<Span>, c: Point, r: i64)
    requires
        on_sheet(c),
        0 <= r <= BRUSH,
    ensures
        final(out)@ == old(out)@ + disc_of(c, r as int),
        spans_near(old(out)@) ==> spans_near(final(out)@),
{
    let first: i64 = floor_px64(c.y - r);
    let last: i64 = ceil_px64(c.y + r);
    let ghost all = disc_of(c, r as int);
    let mut y: i64 = first;
    assert(out@ =~= old(out)@ + all.take(0));
    while y <= last
        invariant
            on_sheet(c),
            0 <= r <= BRUSH,
            all == disc_of(c, r as int),
            first == px_down(c.y - r),
            last == ceil_of(c.y + r),
            first <= y <= last + 1,
            -30_000_000_000 <= first,
            last <= 30_000_000_000,
            out@ == old(out)@ + all.take(y - first),
            spans_near(old(out)@) ==> spans_near(out@),
        decreases last + 1 - y,
    {
        let half: i64 = half_chord(r, y * PX - c.y);
        let s = Span { y, x0: floor_px64(c.x - half), x1: ceil_px64(c.x + half) };
        let ghost before = out@;
        out.push(s);
        proof {
            let i = y - first;
            assert(all[i] == s);
            assert(all.take(i + 1) =~= all.take(i).push(s));
            assert(out@ =~= old(out)@ + all.take(i + 1));
        }
        y = y + 1;
    }
    assert(all.take(y - first) =~= all);
}

/// The whole numbers `x` for which `x * m + c` lies between `k` and `l`,
/// from the least to the greatest. There are none if the first is
/// greater than the second.
pub open spec fn band(m: int, c: int, k: int, l: int) -> (int, int) {
    if m > 0 {
        (ceil_div(k - c, m), (l - c) / m)
    } else {
        (ceil_div(c - l, -m), (c - k) / -m)
    }
}

pub proof fn lemma_div(a: int, m: int, x: int)
    requires
        m > 0,
    ensures
        x <= a / m <==> x * m <= a,
        ceil_div(a, m) <= x <==> a <= x * m,
{
    assert(x <= a / m <==> x * m <= a) by (nonlinear_arith)
        requires
            m > 0,
    ;
    let n = -a;
    assert(-x <= n / m <==> -x * m <= n) by (nonlinear_arith)
        requires
            m > 0,
    ;
    assert(-x * m == -(x * m)) by (nonlinear_arith);
}

/// What a band is.
proof fn lemma_band(m: int, c: int, k: int, l: int, x: int)
    requires
        m != 0,
    ensures
        (band(m, c, k, l).0 <= x <= band(m, c, k, l).1) <==> (k <= x * m + c <= l),
{
    if m > 0 {
        lemma_div(k - c, m, x);
        lemma_div(l - c, m, x);
    } else {
        lemma_div(c - l, -m, x);
        lemma_div(c - k, -m, x);
        assert(x * -m == -(x * m)) by (nonlinear_arith);
    }
}

fn band_at(m: i128, c: i128, k: i128, l: i128) -> (r: (i128, i128))
    requires
        m != 0,
        -0x1000_0000_0000_0000_0000_0000_0000_0000 < m < 0x1000_0000_0000_0000_0000_0000_0000_0000,
        -0x1000_0000_0000_0000_0000_0000_0000_0000 < c < 0x1000_0000_0000_0000_0000_0000_0000_0000,
        -0x1000_0000_0000_0000_0000_0000_0000_0000 < k < 0x1000_0000_0000_0000_0000_0000_0000_0000,
        -0x1000_0000_0000_0000_0000_0000_0000_0000 < l < 0x1000_0000_0000_0000_0000_0000_0000_0000,
    ensures
        (r.0 as int, r.1 as int) == band(m as int, c as int, k as int, l as int),
{
    if m > 0 {
        (div_up(k - c, m), floor_div(l - c, m))
    } else {
        (div_up(c - l, -m), floor_div(c - k, -m))
    }
}

/// The square of the length from `a` to `b`.
pub open spec fn span_of(a: Point, b: Point) -> int {
    (b.x - a.x) * (b.x - a.x) + (b.y - a.y) * (b.y - a.y)
}

/// How far (x, y) lies along the way from `a` to `b`, times its length.
pub open spec fn along(a: Point, b: Point, x: int, y: int) -> int {
    (x - a.x) * (b.x - a.x) + (y - a.y) * (b.y - a.y)
}

/// How far (x, y) lies beside the line from `a` to `b`, times its length.
pub open spec fn beside(a: Point, b: Point, x: int, y: int) -> int {
    (x - a.x) * (b.y - a.y) - (y - a.y) * (b.x - a.x)
}

/// Is (x, y) within `r` of `c`?
pub open spec fn in_disc(c: Point, r: int, x: int, y: int) -> bool {
    (x - c.x) * (x - c.x) + (y - c.y) * (y - c.y) <= r * r
}

/// Is (x, y) beside the segment from `a` to `b`, within `r` of it?
pub open spec fn in_body(a: Point, b: Point, r: int, x: int, y: int) -> bool {
    &&& 0 <= along(a, b, x, y) <= span_of(a, b)
    &&& beside(a, b, x, y) * beside(a, b, x, y) <= r * r * span_of(a, b)
}

/// Is (x, y) within `r` of the segment from `a` to `b`?
pub open spec fn in_stroke(a: Point, b: Point, r: int, x: int, y: int) -> bool {
    in_body(a, b, r, x, y) || in_disc(a, r, x, y) || in_disc(b, r, x, y)
}

/// The part of the body on the line `y`, from the least `x` to the
/// greatest.
pub open spec fn body_of(a: Point, b: Point, r: int, y: int) -> (int, int) {
    let dx = b.x - a.x;
    let dy = b.y - a.y;
    let reach = reach_of(a, b, r);
    let c = -(a.x * dy) - (y - a.y) * dx;
    let e = -(a.x * dx) + (y - a.y) * dy;
    if dy == 0 {
        if -reach <= c <= reach {
            band(dx, e, 0, span_of(a, b))
        } else {
            (1, 0)
        }
    } else if dx == 0 {
        if 0 <= e <= span_of(a, b) {
            band(dy, c, -reach, reach)
        } else {
            (1, 0)
        }
    } else {
        let p = band(dy, c, -reach, reach);
        let q = band(dx, e, 0, span_of(a, b));
        (max_of(p.0, q.0), min_of(p.1, q.1))
    }
}

/// The part of a disc on the line `y`, likewise.
pub open spec fn cap_of(c: Point, r: int, y: int) -> (int, int) {
    if -r <= y - c.y <= r {
        (c.x - chord(r, y - c.y), c.x + chord(r, y - c.y))
    } else {
        (1, 0)
    }
}

/// What holds both parts, if there are any.
pub open spec fn hull(p: (int, int), q: (int, int)) -> (int, int) {
    if p.0 > p.1 {
        q
    } else if q.0 > q.1 {
        p
    } else {
        (min_of(p.0, q.0), max_of(p.1, q.1))
    }
}

/// The part of a stroke from `a` to `b` on the line `y`.
pub open spec fn stroke_of(a: Point, b: Point, r: int, y: int) -> (int, int) {
    hull(hull(body_of(a, b, r, y), cap_of(a, r, y)), cap_of(b, r, y))
}

pub proof fn lemma_root_exists(q: int)
    requires
        q >= 0,
    ensures
        is_root(root_of(q), q),
    decreases q,
{
    if q == 0 {
        assert(is_root(0, 0)) by (nonlinear_arith);
    } else {
        lemma_root_exists(q - 1);
        let s = root_of(q - 1);
        if (s + 1) * (s + 1) <= q {
            assert(q < (s + 2) * (s + 2)) by (nonlinear_arith)
                requires
                    q <= (s + 1) * (s + 1),
                    s >= 0,
            ;
            assert(is_root(s + 1, q));
        } else {
            assert(is_root(s, q));
        }
    }
}

/// A square is no more than `q` just where its root is no more than the
/// root of `q`.
pub proof fn lemma_within(z: int, q: int)
    requires
        q >= 0,
    ensures
        z * z <= q <==> -root_of(q) <= z <= root_of(q),
        root_of(q) >= 0,
{
    lemma_root_exists(q);
    let s = root_of(q);
    if -s <= z <= s {
        lemma_square(z, s);
    } else if z > s {
        assert((s + 1) * (s + 1) <= z * z) by (nonlinear_arith)
            requires
                0 <= s < z,
        ;
    } else {
        assert((s + 1) * (s + 1) <= z * z) by (nonlinear_arith)
            requires
                0 <= s < -z,
        ;
    }
}

proof fn lemma_body(a: Point, b: Point, r: int, y: int, x: int)
    requires
        a.x != b.x || a.y != b.y,
        r >= 0,
    ensures
        (body_of(a, b, r, y).0 <= x <= body_of(a, b, r, y).1) <==> in_body(a, b, r, x, y),
{
    let dx = b.x - a.x;
    let dy = b.y - a.y;
    let q = r * r * span_of(a, b);
    let reach = root_of(q);
    let c = -(a.x * dy) - (y - a.y) * dx;
    let e = -(a.x * dx) + (y - a.y) * dy;
    assert(q >= 0) by (nonlinear_arith)
        requires
            q == r * r * (dx * dx + dy * dy),
    ;
    lemma_within(beside(a, b, x, y), q);
    assert(beside(a, b, x, y) == x * dy + c) by (nonlinear_arith)
        requires
            beside(a, b, x, y) == (x - a.x) * dy - (y - a.y) * dx,
            c == -(a.x * dy) - (y - a.y) * dx,
    ;
    assert(along(a, b, x, y) == x * dx + e) by (nonlinear_arith)
        requires
            along(a, b, x, y) == (x - a.x) * dx + (y - a.y) * dy,
            e == -(a.x * dx) + (y - a.y) * dy,
    ;
    if dy != 0 {
        lemma_band(dy, c, -reach, reach, x);
    } else {
        assert(x * dy == 0);
    }
    if dx != 0 {
        lemma_band(dx, e, 0, span_of(a, b), x);
    } else {
        assert(x * dx == 0);
    }
}

proof fn lemma_cap(c: Point, r: int, y: int, x: int)
    requires
        r >= 0,
    ensures
        (cap_of(c, r, y).0 <= x <= cap_of(c, r, y).1) <==> in_disc(c, r, x, y),
{
    let d = y - c.y;
    let z = x - c.x;
    if -r <= d <= r {
        lemma_square(d, r);
        lemma_within(z, r * r - d * d);
    } else {
        assert(z * z >= 0) by (nonlinear_arith);
        assert(d * d > r * r) by (nonlinear_arith)
            requires
                r >= 0,
                d > r || d < -r,
        ;
    }
}

/// On each line, a stroke's part runs from one of the points within `r`
/// of the segment to another, and holds all of them.
pub proof fn law_stroke(a: Point, b: Point, r: int, y: int, x: int)
    requires
        a.x != b.x || a.y != b.y,
        r >= 0,
    ensures
        in_stroke(a, b, r, x, y) ==> stroke_of(a, b, r, y).0 <= x <= stroke_of(a, b, r, y).1,
        stroke_of(a, b, r, y).0 <= stroke_of(a, b, r, y).1 ==> in_stroke(
            a,
            b,
            r,
            stroke_of(a, b, r, y).0,
            y,
        ) && in_stroke(a, b, r, stroke_of(a, b, r, y).1, y),
{
    let s = stroke_of(a, b, r, y);
    lemma_body(a, b, r, y, x);
    lemma_cap(a, r, y, x);
    lemma_cap(b, r, y, x);
    lemma_body(a, b, r, y, s.0);
    lemma_cap(a, r, y, s.0);
    lemma_cap(b, r, y, s.0);
    lemma_body(a, b, r, y, s.1);
    lemma_cap(a, r, y, s.1);
    lemma_cap(b, r, y, s.1);
}

proof fn lemma_in_disc(c: Point, r: int, x: int, y: int)
    requires
        r >= 0,
        in_disc(c, r, x, y),
    ensures
        c.x - r <= x <= c.x + r,
        c.y - r <= y <= c.y + r,
{
    let p = x - c.x;
    let q = y - c.y;
    assert(-r <= p <= r && -r <= q <= r) by (nonlinear_arith)
        requires
            r >= 0,
            p * p + q * q <= r * r,
    ;
}

/// `z` and `t` times the length, along and beside a segment, give back
/// the distance `p` in one direction, which is then no further out than
/// the segment's ends by more than `r`.
proof fn lemma_out(p: int, d: int, f: int, t: int, z: int, l: int, r: int)
    requires
        l > 0,
        r >= 0,
        l == d * d + f * f,
        p * l == t * d + z * f,
        0 <= t <= l,
        z * z <= r * r * l,
    ensures
        min_of(0, d) - r <= p <= max_of(0, d) + r,
{
    let w = z * f;
    assert(w * w <= (r * l) * (r * l)) by {
        assert(0 <= z * z) by (nonlinear_arith);
        assert(w * w == (z * z) * (f * f)) by (nonlinear_arith)
            requires
                w == z * f,
        ;
        assert(0 <= f * f <= l) by (nonlinear_arith)
            requires
                l == d * d + f * f,
        ;
        assert((z * z) * (f * f) <= (r * r * l) * l) by (nonlinear_arith)
            requires
                0 <= z * z <= r * r * l,
                0 <= f * f <= l,
        ;
        assert((r * r * l) * l == (r * l) * (r * l)) by (nonlinear_arith);
    }
    let m = r * l;
    assert(m >= 0) by (nonlinear_arith)
        requires
            m == r * l,
            r >= 0,
            l > 0,
    ;
    assert(-m <= w <= m) by (nonlinear_arith)
        requires
            w * w <= m * m,
            m >= 0,
    ;
    assert(0 * l == 0);
    assert(min_of(0, d) * l <= t * d <= max_of(0, d) * l) by {
        if d >= 0 {
            assert(0 <= t * d <= d * l) by (nonlinear_arith)
                requires
                    0 <= t <= l,
                    d >= 0,
            ;
        } else {
            assert(d * l <= t * d <= 0) by (nonlinear_arith)
                requires
                    0 <= t <= l,
                    d < 0,
            ;
        }
    }
    let lo = min_of(0, d);
    let hi = max_of(0, d);
    assert((lo - r) * l <= p * l <= (hi + r) * l) by (nonlinear_arith)
        requires
            lo * l - r * l <= p * l <= hi * l + r * l,
    ;
    assert(lo - r <= p <= hi + r) by (nonlinear_arith)
        requires
            (lo - r) * l <= p * l <= (hi + r) * l,
            l > 0,
    ;
}

/// A stroke reaches no further than its radius beyond its ends.
pub proof fn law_stroke_reach(a: Point, b: Point, r: int, x: int, y: int)
    requires
        r >= 0,
        a.x != b.x || a.y != b.y,
        in_stroke(a, b, r, x, y),
    ensures
        min_of(a.x as int, b.x as int) - r <= x <= max_of(a.x as int, b.x as int) + r,
        min_of(a.y as int, b.y as int) - r <= y <= max_of(a.y as int, b.y as int) + r,
{
    if in_disc(a, r, x, y) {
        lemma_in_disc(a, r, x, y);
    } else if in_disc(b, r, x, y) {
        lemma_in_disc(b, r, x, y);
    } else {
        let dx = b.x - a.x;
        let dy = b.y - a.y;
        let p = x - a.x;
        let q = y - a.y;
        let t = along(a, b, x, y);
        let z = beside(a, b, x, y);
        let l = span_of(a, b);
        assert(l > 0) by (nonlinear_arith)
            requires
                l == dx * dx + dy * dy,
                dx != 0 || dy != 0,
        ;
        assert(p * l == t * dx + z * dy) by (nonlinear_arith)
            requires
                t == p * dx + q * dy,
                z == p * dy - q * dx,
                l == dx * dx + dy * dy,
        ;
        assert(q * l == t * dy + (-z) * dx) by (nonlinear_arith)
            requires
                t == p * dx + q * dy,
                z == p * dy - q * dx,
                l == dx * dx + dy * dy,
        ;
        assert((-z) * (-z) == z * z) by (nonlinear_arith);
        lemma_out(p, dx, dy, t, z, l, r);
        lemma_out(q, dy, dx, t, -z, l, r);
    }
}

/// The first `n` rows of a stroke, from `y0` on. A row that the stroke
/// misses is left out.
pub open spec fn stroke_rows(a: Point, b: Point, r: int, y0: int, n: int) -> Seq<Span>
    decreases n,
{
    if n <= 0 {
        Seq::empty()
    } else {
        let rows = stroke_rows(a, b, r, y0, n - 1);
        let p = stroke_of(a, b, r, (y0 + n - 1) * PX);
        if p.0 <= p.1 {
            rows.push(
                Span {
                    y: (y0 + n - 1) as i64,
                    x0: px_down(p.0) as i64,
                    x1: ceil_of(p.1) as i64,
                },
            )
        } else {
            rows
        }
    }
}

/// The rows of a stroke from `a` to `b`: a round brush of radius `r`
/// drawn along the segment.
pub open spec fn segment_of(a: Point, b: Point, r: int) -> Seq<Span> {
    if a == b {
        disc_of(a, r)
    } else {
        let lo = min_of(a.y as int, b.y as int) - r;
        let hi = max_of(a.y as int, b.y as int) + r;
        stroke_rows(a, b, r, first_row(lo), rows_to(lo, hi))
    }
}

/// A product of two numbers that are not too large is not too large.
pub proof fn lemma_product(p: int, m: int, q: int, n: int)
    requires
        -m <= p <= m,
        -n <= q <= n,
    ensures
        -(m * n) <= p * q <= m * n,
{
    assert(-(m * n) <= p * q <= m * n) by (nonlinear_arith)
        requires
            -m <= p <= m,
            -n <= q <= n,
    ;
}

/// How far beside the line from `a` to `b` a brush of radius `r` reaches,
/// times its length.
pub open spec fn reach_of(a: Point, b: Point, r: int) -> int {
    root_of(r * r * span_of(a, b))
}

/// The square of a way on the sheet.
proof fn lemma_span(a: Point, b: Point)
    requires
        on_sheet(a),
        on_sheet(b),
    ensures
        0 <= span_of(a, b) <= 504_008_000_000_000_000_000_000_000_000,
{
    lemma_square(b.x - a.x, 502_000_000_000_000);
    lemma_square(b.y - a.y, 502_000_000_000_000);
}

fn reach_at(a: Point, b: Point, r: i64) -> (s: i128)
    requires
        on_sheet(a),
        on_sheet(b),
        0 <= r <= BRUSH,
    ensures
        s == reach_of(a, b, r as int),
        0 <= s < 0x200_0000_0000_0000_0000,
{
    let dx: i128 = b.x as i128 - a.x as i128;
    let dy: i128 = b.y as i128 - a.y as i128;
    proof {
        lemma_square(dx as int, 502_000_000_000_000);
        lemma_square(dy as int, 502_000_000_000_000);
        lemma_span(a, b);
        lemma_square(r as int, 10_000_000);
        lemma_product(
            r * r,
            100_000_000_000_000,
            span_of(a, b),
            504_008_000_000_000_000_000_000_000_000,
        );
        assert(0x200_0000_0000_0000_0000int * 0x200_0000_0000_0000_0000int
            > 100_000_000_000_000int * 504_008_000_000_000_000_000_000_000_000int)
            by (nonlinear_arith);
    }
    root_product(r as i128 * r as i128, dx * dx + dy * dy)
}

/// The part of a segment's body on the line `y`.
fn body_at(a: Point, b: Point, r: i64, reach: i128, y: i64) -> (p: (i128, i128))
    requires
        on_sheet(a),
        on_sheet(b),
        a.x != b.x || a.y != b.y,
        0 <= r <= BRUSH,
        reach == reach_of(a, b, r as int),
        0 <= reach < 0x200_0000_0000_0000_0000,
        -2 * SHEET <= y <= 2 * SHEET,
    ensures
        (p.0 as int, p.1 as int) == body_of(a, b, r as int, y as int),
{
    let dx: i128 = b.x as i128 - a.x as i128;
    let dy: i128 = b.y as i128 - a.y as i128;
    let q: i128 = y as i128 - a.y as i128;
    proof {
        lemma_product(a.x as int, 251_000_000_000_000, dx as int, 502_000_000_000_000);
        lemma_product(a.x as int, 251_000_000_000_000, dy as int, 502_000_000_000_000);
        lemma_product(q as int, 753_000_000_000_000, dx as int, 502_000_000_000_000);
        lemma_product(q as int, 753_000_000_000_000, dy as int, 502_000_000_000_000);
        lemma_square(dx as int, 502_000_000_000_000);
        lemma_square(dy as int, 502_000_000_000_000);
    }
    let l: i128 = dx * dx + dy * dy;
    let c: i128 = -(a.x as i128 * dy) - q * dx;
    let e: i128 = -(a.x as i128 * dx) + q * dy;
    if dy == 0 {
        if -reach <= c && c <= reach {
            band_at(dx, e, 0, l)
        } else {
            (1, 0)
        }
    } else if dx == 0 {
        if 0 <= e && e <= l {
            band_at(dy, c, -reach, reach)
        } else {
            (1, 0)
        }
    } else {
        let s = band_at(dy, c, -reach, reach);
        let t = band_at(dx, e, 0, l);
        (
            if s.0 >= t.0 {
                s.0
            } else {
                t.0
            },
            if s.1 <= t.1 {
                s.1
            } else {
                t.1
            },
        )
    }
}

fn cap_at(c: Point, r: i64, y: i64) -> (p: (i128, i128))
    requires
        on_sheet(c),
        0 <= r <= BRUSH,
        -2 * SHEET <= y <= 2 * SHEET,
    ensures
        (p.0 as int, p.1 as int) == cap_of(c, r as int, y as int),
{
    let d: i64 = y - c.y;
    if -r <= d && d <= r {
        let half: i64 = half_chord(r, d);
        ((c.x - half) as i128, (c.x + half) as i128)
    } else {
        (1, 0)
    }
}

fn hull_at(p: (i128, i128), q: (i128, i128)) -> (r: (i128, i128))
    ensures
        (r.0 as int, r.1 as int) == hull((p.0 as int, p.1 as int), (q.0 as int, q.1 as int)),
{
    if p.0 > p.1 {
        q
    } else if q.0 > q.1 {
        p
    } else {
        (
            if p.0 <= q.0 {
                p.0
            } else {
                q.0
            },
            if p.1 >= q.1 {
                p.1
            } else {
                q.1
            },
        )
    }
}

/// The rows of a stroke from `a` to `b`, after those that are there.
pub fn push_segment(out: &mut Vec<Span>, a: Point, b: Point, r: i64)
    requires
        on_sheet(a),
        on_sheet(b),
        0 <= r <= BRUSH,
    ensures
        final(out)@ == old(out)@ + segment_of(a, b, r as int),
        spans_near(old(out)@) ==> spans_near(final(out)@),
{
    if a.x == b.x && a.y == b.y {
        push_disc(out, a, r);
        return;
    }
    let lo: i64 = (if a.y <= b.y {
        a.y
    } else {
        b.y
    }) - r;
    let hi: i64 = (if a.y >= b.y {
        a.y
    } else {
        b.y
    }) + r;
    let first: i64 = floor_px64(lo);
    let last: i64 = ceil_px64(hi);
    let reach: i128 = reach_at(a, b, r);
    let mut y: i64 = first;
    assert(out@ =~= old(out)@ + stroke_rows(a, b, r as int, first as int, 0));
    while y <= last
        invariant
            on_sheet(a),
            on_sheet(b),
            a.x != b.x || a.y != b.y,
            0 <= r <= BRUSH,
            reach == reach_of(a, b, r as int),
            0 <= reach < 0x200_0000_0000_0000_0000,
            first <= y <= last + 1,
            -30_000_000_000 <= first,
            last <= 30_000_000_000,
            out@ == old(out)@ + stroke_rows(a, b, r as int, first as int, y - first),
            spans_near(old(out)@) ==> spans_near(out@),
        decreases last + 1 - y,
    {
        let at: i64 = y * PX;
        let p = hull_at(hull_at(body_at(a, b, r, reach, at), cap_at(a, r, at)), cap_at(b, r, at));
        if p.0 <= p.1 {
            proof {
                law_stroke(a, b, r as int, at as int, 0);
                law_stroke_reach(a, b, r as int, p.0 as int, at as int);
                law_stroke_reach(a, b, r as int, p.1 as int, at as int);
            }
            let s = Span { y, x0: floor_px64(p.0 as i64), x1: ceil_px64(p.1 as i64) };
            out.push(s);
            assert(out@ =~= old(out)@ + stroke_rows(
                a,
                b,
                r as int,
                first as int,
                y - first,
            ).push(s));
        }
        y = y + 1;
    }
}

/// The rows of a stroke along the first `n` points.
pub open spec fn polyline_of(ps: Seq<Point>, n: int, r: int) -> Seq<Span>
    decreases n,
{
    if n <= 1 {
        Seq::empty()
    } else {
        polyline_of(ps, n - 1, r) + segment_of(ps[n - 2], ps[n - 1], r)
    }
}

pub open spec fn all_on_sheet(ps: Seq<Point>) -> bool {
    forall|i: int| 0 <= i < ps.len() ==> on_sheet(#[trigger] ps[i])
}

/// The rows of a stroke along the points, after those that are there.
pub fn push_polyline(out: &mut Vec<Span>, ps: &Vec<Point>, r: i64)
    requires
        all_on_sheet(ps@),
        0 <= r <= BRUSH,
    ensures
        final(out)@ == old(out)@ + polyline_of(ps@, ps@.len() as int, r as int),
        spans_near(old(out)@) ==> spans_near(final(out)@),
{
    if ps.len() == 0 {
        assert(out@ =~= old(out)@ + polyline_of(ps@, 0, r as int));
        return;
    }
    let mut n: usize = 1;
    assert(out@ =~= old(out)@ + polyline_of(ps@, 1, r as int));
    while n < ps.len()
        invariant
            1 <= n <= ps@.len(),
            all_on_sheet(ps@),
            0 <= r <= BRUSH,
            out@ == old(out)@ + polyline_of(ps@, n as int, r as int),
            spans_near(old(out)@) ==> spans_near(out@),
        decreases ps@.len() - n,
    {
        push_segment(out, ps[n - 1], ps[n], r);
        n = n + 1;
        assert(out@ =~= old(out)@ + polyline_of(ps@, n as int, r as int));
    }
}

/// The outline of the rectangle between two corners.
pub open spec fn frame_of(a: Point, b: Point, r: int) -> Seq<Span> {
    let c = Point { x: b.x, y: a.y };
    let d = Point { x: a.x, y: b.y };
    segment_of(a, c, r) + segment_of(c, b, r) + segment_of(b, d, r) + segment_of(d, a, r)
}

pub fn push_frame(out: &mut Vec<Span>, a: Point, b: Point, r: i64)
    requires
        on_sheet(a),
        on_sheet(b),
        0 <= r <= BRUSH,
    ensures
        final(out)@ == old(out)@ + frame_of(a, b, r as int),
        spans_near(old(out)@) ==> spans_near(final(out)@),
{
    let c = Point { x: b.x, y: a.y };
    let d = Point { x: a.x, y: b.y };
    push_segment(out, a, c, r);
    push_segment(out, c, b, r);
    push_segment(out, b, d, r);
    push_segment(out, d, a, r);
    assert(out@ =~= old(out)@ + frame_of(a, b, r as int));
}

/// The width of an ellipse in the box between two corners, `y` units
/// down: the greatest whole number of half units within it to each side
/// of its middle.
pub open spec fn half_width(a: Point, b: Point, y: int) -> int {
    let w = b.x - a.x;
    let h = b.y - a.y;
    let d = 2 * y - (a.y + b.y);
    root_of(w * w * max_of(h * h - d * d, 0) / (h * h))
}

pub open spec fn ellipse_row(a: Point, b: Point, y: int) -> Span {
    let half = half_width(a, b, y * PX);
    Span {
        y: y as i64,
        x0: (max_of(a.x + b.x - half, 0) / (2 * PX as int)) as i64,
        x1: half_trunc(a.x + b.x + half) as i64,
    }
}

/// The whole pixels in `v` half units, rounded towards zero.
pub open spec fn half_trunc(v: int) -> int {
    if v >= 0 {
        v / (2 * PX as int)
    } else {
        -((-v) / (2 * PX as int))
    }
}

/// The rows of the filled ellipse in the box between two corners, as far
/// as they lie on the image.
pub open spec fn ellipse_of(a: Point, b: Point) -> Seq<Span> {
    let first = max_of(min_of(a.y as int, b.y as int), 0) / PX as int;
    let last = trunc_of(max_of(a.y as int, b.y as int));
    Seq::new(max_of(last - first + 1, 0) as nat, |i: int| ellipse_row(a, b, first + i))
}

/// The points within an ellipse's width are those inside the ellipse.
pub proof fn law_ellipse(a: Point, b: Point, x: int, y: int)
    requires
        a.y != b.y,
        min_of(a.y as int, b.y as int) <= y <= max_of(a.y as int, b.y as int),
    ensures
        ({
            let w = b.x - a.x;
            let h = b.y - a.y;
            let z = 2 * x - (a.x + b.x);
            let d = 2 * y - (a.y + b.y);
            -half_width(a, b, y) <= z <= half_width(a, b, y) <==> z * z * (h * h) + d * d * (w * w)
                <= w * w * (h * h)
        }),
{
    let w = b.x - a.x;
    let h = b.y - a.y;
    let z = 2 * x - (a.x + b.x);
    let d = 2 * y - (a.y + b.y);
    let k = if h >= 0 {
        h
    } else {
        -h
    };
    lemma_square(d, k);
    assert(k * k == h * h) by (nonlinear_arith)
        requires
            k == h || k == -h,
    ;
    let m = h * h;
    let n = w * w * (m - d * d);
    assert(m > 0) by (nonlinear_arith)
        requires
            m == h * h,
            h != 0,
    ;
    assert(n >= 0) by (nonlinear_arith)
        requires
            n == w * w * (m - d * d),
            m - d * d >= 0,
    ;
    assert(n / m >= 0) by (nonlinear_arith)
        requires
            n >= 0,
            m > 0,
    ;
    lemma_within(z, n / m);
    lemma_div(n, m, z * z);
    assert(n == w * w * m - d * d * (w * w)) by (nonlinear_arith)
        requires
            n == w * w * (m - d * d),
    ;
}

fn half_width_at(a: Point, b: Point, y: i64) -> (r: i64)
    requires
        on_sheet(a),
        on_sheet(b),
        a.y != b.y,
        -2 * SHEET <= y <= 2 * SHEET,
    ensures
        r == half_width(a, b, y as int),
        0 <= r <= 0x4_0000_0000_0000,
{
    let w: i128 = b.x as i128 - a.x as i128;
    let h: i128 = b.y as i128 - a.y as i128;
    let d: i128 = 2 * (y as i128) - (a.y as i128 + b.y as i128);
    proof {
        lemma_square(w as int, 502_000_000_000_000);
        lemma_square(h as int, 502_000_000_000_000);
        lemma_square(d as int, 1_506_000_000_000_000);
        assert(h * h > 0) by (nonlinear_arith)
            requires
                h != 0,
        ;
    }
    let hh: i128 = h * h;
    let dd: i128 = d * d;
    let ww: i128 = w * w;
    let left: i128 = if hh > dd {
        hh - dd
    } else {
        0
    };
    proof {
        assert(0x4_0000_0000_0000int * 0x4_0000_0000_0000int
            > 502_000_000_000_000int * 502_000_000_000_000int) by (nonlinear_arith);
    }
    root_ratio(ww, left, hh) as i64
}

fn trunc_half(v: i64) -> (r: i64)
    requires
        -2 * WIDE <= v <= 2 * WIDE,
    ensures
        r == half_trunc(v as int),
{
    if v >= 0 {
        v / (2 * PX)
    } else {
        -((-v) / (2 * PX))
    }
}

/// The rows of a filled ellipse, after those that are there.
pub fn push_ellipse(out: &mut Vec<Span>, a: Point, b: Point)
    requires
        on_sheet(a),
        on_sheet(b),
        a.y != b.y,
    ensures
        final(out)@ == old(out)@ + ellipse_of(a, b),
        spans_near(old(out)@) ==> spans_near(final(out)@),
{
    let top: i64 = if a.y <= b.y {
        a.y
    } else {
        b.y
    };
    let bottom: i64 = if a.y >= b.y {
        a.y
    } else {
        b.y
    };
    let first: i64 = if top >= 0 {
        top / PX
    } else {
        0
    };
    let last: i64 = crate::geom::trunc_px(bottom);
    let ghost all = ellipse_of(a, b);
    if last < first {
        assert(out@ =~= old(out)@ + all);
        return;
    }
    let mut y: i64 = first;
    assert(out@ =~= old(out)@ + all.take(0));
    while y <= last
        invariant
            on_sheet(a),
            on_sheet(b),
            a.y != b.y,
            all == ellipse_of(a, b),
            all.len() == last - first + 1,
            first == max_of(min_of(a.y as int, b.y as int), 0) / PX as int,
            first <= y <= last + 1,
            0 <= first,
            last <= 30_000_000_000,
            out@ == old(out)@ + all.take(y - first),
            spans_near(old(out)@) ==> spans_near(out@),
        decreases last + 1 - y,
    {
        let half: i64 = half_width_at(a, b, y * PX);
        let left: i64 = a.x + b.x - half;
        let x0: i64 = if left >= 0 {
            left / (2 * PX)
        } else {
            0
        };
        let s = Span { y, x0, x1: trunc_half(a.x + b.x + half) };
        out.push(s);
        proof {
            let i = y - first;
            assert(all[i] == s);
            assert(all.take(i + 1) =~= all.take(i).push(s));
            assert(out@ =~= old(out)@ + all.take(i + 1));
        }
        y = y + 1;
    }
    assert(all.take(y - first) =~= all);
}

/// Half of a chord is no longer than the radius.
proof fn lemma_half(r: int, d: int)
    requires
        r >= 0,
    ensures
        0 <= chord(r, d) <= r,
{
    let q = max_of(r * r - d * d, 0);
    lemma_root_exists(q);
    let s = root_of(q);
    assert(d * d >= 0) by (nonlinear_arith);
    assert(r * r >= 0) by (nonlinear_arith);
    if s > r {
        assert(s * s > r * r) by (nonlinear_arith)
            requires
                s > r,
                r >= 0,
        ;
    }
}

/// A disc covers every pixel whose place lies in it, and none that is a
/// pixel or more off.
pub proof fn law_disc_covers(c: Point, r: int, x: int, y: int)
    requires
        on_sheet(c),
        0 <= r <= BRUSH,
    ensures
        ({
            let all = disc_of(c, r);
            &&& in_disc(c, r, x * PX, y * PX) ==> covered(all, all.len() as int, x, y)
            &&& covered(all, all.len() as int, x, y) ==> c.x - r - PX < x * PX < c.x + r + PX && c.y
                - r - PX < y * PX < c.y + r + PX
        }),
{
    let all = disc_of(c, r);
    if in_disc(c, r, x * PX, y * PX) {
        lemma_cap(c, r, y * PX, x * PX);
        let i = y - first_row(c.y - r);
        lemma_half(r, y * PX - c.y);
        assert(0 <= i < all.len());
        assert(all[i] == disc_row(c, r, y));
        assert(covers(all[i], x, y));
    }
    if covered(all, all.len() as int, x, y) {
        let i = choose|i: int| 0 <= i < all.len() && covers(#[trigger] all[i], x, y);
        let row = first_row(c.y - r) + i;
        lemma_half(r, row * PX - c.y);
        assert(all[i] == disc_row(c, r, row));
        assert(row == y);
    }
}

proof fn lemma_row_in(a: Point, b: Point, r: int, y0: int, n: int, y: int)
    requires
        y0 <= y < y0 + n,
        stroke_of(a, b, r, y * PX).0 <= stroke_of(a, b, r, y * PX).1,
    ensures
        exists|i: int|
            0 <= i < stroke_rows(a, b, r, y0, n).len() && #[trigger] stroke_rows(a, b, r, y0, n)[i]
                == (Span {
                y: y as i64,
                x0: px_down(stroke_of(a, b, r, y * PX).0) as i64,
                x1: ceil_of(stroke_of(a, b, r, y * PX).1) as i64,
            }),
    decreases n,
{
    let all = stroke_rows(a, b, r, y0, n);
    let rest = stroke_rows(a, b, r, y0, n - 1);
    if y == y0 + n - 1 {
        assert(all[rest.len() as int].y == y as i64);
    } else {
        lemma_row_in(a, b, r, y0, n - 1, y);
        let i = choose|i: int|
            0 <= i < rest.len() && #[trigger] rest[i] == (Span {
                y: y as i64,
                x0: px_down(stroke_of(a, b, r, y * PX).0) as i64,
                x1: ceil_of(stroke_of(a, b, r, y * PX).1) as i64,
            });
        assert(all[i] == rest[i]);
    }
}

/// A stroke covers every pixel whose place lies within the brush's radius
/// of the line between its points.
pub proof fn law_segment_covers(a: Point, b: Point, r: int, x: int, y: int)
    requires
        on_sheet(a) && on_sheet(b),
        0 <= r <= BRUSH,
        if a == b {
            in_disc(a, r, x * PX, y * PX)
        } else {
            in_stroke(a, b, r, x * PX, y * PX)
        },
    ensures
        covered(segment_of(a, b, r), segment_of(a, b, r).len() as int, x, y),
{
    let all = segment_of(a, b, r);
    if a == b {
        law_disc_covers(a, r, x, y);
    } else {
        let lo = min_of(a.y as int, b.y as int) - r;
        let hi = max_of(a.y as int, b.y as int) + r;
        let s = stroke_of(a, b, r, y * PX);
        law_stroke(a, b, r, y * PX, x * PX);
        law_stroke_reach(a, b, r, x * PX, y * PX);
        law_stroke_reach(a, b, r, s.0, y * PX);
        law_stroke_reach(a, b, r, s.1, y * PX);
        lemma_row_in(a, b, r, first_row(lo), rows_to(lo, hi), y);
        let i = choose|i: int|
            0 <= i < all.len() && #[trigger] all[i] == (Span {
                y: y as i64,
                x0: px_down(s.0) as i64,
                x1: ceil_of(s.1) as i64,
            });
        assert(covers(all[i], x, y));
    }
}

pub(crate) proof fn lemma_covered_joined(p: Seq<Span>, q: Seq<Span>, x: int, y: int)
    ensures
        covered(p + q, (p + q).len() as int, x, y) == (covered(p, p.len() as int, x, y) || covered(
            q,
            q.len() as int,
            x,
            y,
        )),
{
    let all = p + q;
    if covered(p, p.len() as int, x, y) {
        let i = choose|i: int| 0 <= i < p.len() && covers(#[trigger] p[i], x, y);
        assert(all[i] == p[i]);
    }
    if covered(q, q.len() as int, x, y) {
        let i = choose|i: int| 0 <= i < q.len() && covers(#[trigger] q[i], x, y);
        assert(all[p.len() + i] == q[i]);
    }
    if covered(all, all.len() as int, x, y) {
        let i = choose|i: int| 0 <= i < all.len() && covers(#[trigger] all[i], x, y);
        if i < p.len() {
            assert(all[i] == p[i]);
        } else {
            assert(all[i] == q[i - p.len()]);
        }
    }
}

/// A line through several points is covered where one of its parts is.
pub proof fn law_polyline_covers(ps: Seq<Point>, n: int, r: int, x: int, y: int)
    requires
        0 <= n <= ps.len(),
    ensures
        covered(polyline_of(ps, n, r), polyline_of(ps, n, r).len() as int, x, y) == (exists|k: int|
            1 <= k < n && covered(
                #[trigger] segment_of(ps[k - 1], ps[k], r),
                segment_of(ps[k - 1], ps[k], r).len() as int,
                x,
                y,
            )),
    decreases n,
{
    if n > 1 {
        law_polyline_covers(ps, n - 1, r, x, y);
        let rest = polyline_of(ps, n - 1, r);
        let last = segment_of(ps[n - 2], ps[n - 1], r);
        lemma_covered_joined(rest, last, x, y);
        if exists|k: int|
            1 <= k < n && covered(
                #[trigger] segment_of(ps[k - 1], ps[k], r),
                segment_of(ps[k - 1], ps[k], r).len() as int,
                x,
                y,
            ) {
            let k = choose|k: int|
                1 <= k < n && covered(
                    #[trigger] segment_of(ps[k - 1], ps[k], r),
                    segment_of(ps[k - 1], ps[k], r).len() as int,
                    x,
                    y,
                );
            if k < n - 1 {
                assert(1 <= k < n - 1 && covered(
                    segment_of(ps[k - 1], ps[k], r),
                    segment_of(ps[k - 1], ps[k], r).len() as int,
                    x,
                    y,
                ));
            }
        }
        if covered(last, last.len() as int, x, y) {
            let k = n - 1;
            assert(segment_of(ps[k - 1], ps[k], r) == last);
        }
    }
}

/// The outline of a rectangle is covered on each of its four sides, and
/// nowhere else.
pub proof fn law_frame_covers(a: Point, b: Point, r: int, x: int, y: int)
    ensures
        ({
            let at = |p: Point, q: Point|
                covered(segment_of(p, q, r), segment_of(p, q, r).len() as int, x, y);
            let (c, d) = (Point { x: b.x, y: a.y }, Point { x: a.x, y: b.y });
            covered(frame_of(a, b, r), frame_of(a, b, r).len() as int, x, y) == (at(a, c) || at(c, b)
                || at(b, d) || at(d, a))
        }),
{
    let (c, d) = (Point { x: b.x, y: a.y }, Point { x: a.x, y: b.y });
    let (s1, s2) = (segment_of(a, c, r), segment_of(c, b, r));
    let (s3, s4) = (segment_of(b, d, r), segment_of(d, a, r));
    lemma_covered_joined(s1, s2, x, y);
    lemma_covered_joined(s1 + s2, s3, x, y);
    lemma_covered_joined(s1 + s2 + s3, s4, x, y);
}

/// A filled ellipse covers every pixel whose place lies in it.
pub proof fn law_ellipse_covers(a: Point, b: Point, x: int, y: int)
    requires
        on_sheet(a) && on_sheet(b),
        a.y != b.y,
        0 <= x && 0 <= y,
        min_of(a.y as int, b.y as int) <= y * PX <= max_of(a.y as int, b.y as int),
        ({
            let (w, h) = (b.x - a.x, b.y - a.y);
            let (z, d) = (2 * (x * PX) - (a.x + b.x), 2 * (y * PX) - (a.y + b.y));
            z * z * (h * h) + d * d * (w * w) <= w * w * (h * h)
        }),
    ensures
        covered(ellipse_of(a, b), ellipse_of(a, b).len() as int, x, y),
{
    let all = ellipse_of(a, b);
    let first = max_of(min_of(a.y as int, b.y as int), 0) / PX as int;
    law_ellipse(a, b, x * PX, y * PX);
    lemma_ellipse_width(a, b, y * PX);
    let i = y - first;
    assert(0 <= i < all.len());
    assert(all[i] == ellipse_row(a, b, y));
    assert(covers(all[i], x, y));
}

proof fn lemma_ellipse_width(a: Point, b: Point, y: int)
    requires
        on_sheet(a) && on_sheet(b),
        a.y != b.y,
        min_of(a.y as int, b.y as int) <= y <= max_of(a.y as int, b.y as int),
    ensures
        half_width(a, b, y) <= 502_000_000_000_001,
{
    let (w, h) = (b.x - a.x, b.y - a.y);
    let d = 2 * y - (a.y + b.y);
    let m = max_of(h * h - d * d, 0);
    assert(h * h > 0 && d * d >= 0 && w * w >= 0) by (nonlinear_arith)
        requires
            h != 0,
    ;
    assert(0 <= w * w * m <= w * w * (h * h)) by (nonlinear_arith)
        requires
            0 <= m <= h * h,
            w * w >= 0,
    ;
    let q = w * w * m / (h * h);
    assert(0 <= q <= w * w) by (nonlinear_arith)
        requires
            q == w * w * m / (h * h),
            0 <= w * w * m <= w * w * (h * h),
            h * h > 0,
    ;
    lemma_root_exists(q);
    let s = root_of(q);
    assert(w * w <= 502_000_000_000_000 * 502_000_000_000_000) by (nonlinear_arith)
        requires
            -502_000_000_000_000 <= w <= 502_000_000_000_000,
    ;
    if s > 502_000_000_000_000 {
        assert(s * s > 502_000_000_000_000 * 502_000_000_000_000) by (nonlinear_arith)
            requires
                s > 502_000_000_000_000,
        ;
    }
}

} // verus!
