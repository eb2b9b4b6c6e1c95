//! What an action draws stays inside its box.

use vstd::prelude::*;
use crate::action::{
    all_settled,
    bbox_of,
    footprint_of,
    head_length,
    least_x,
    least_y,
    most_x,
    most_y,
    on_page,
    reach_of,
    Mark,
    Tool,
    MAX_TEXT,
};
use crate::canvas::{sized, Picture, Pixel};
use crate::geom::{ceil_of, clamp_of, max_of, min_of, Point, Rect, PX};
use crate::outline::{
    all_on_paper,
    barb_of,
    by_height,
    crossing,
    head_of,
    headings,
    lemma_barb_near,
    lemma_crossing,
    lemma_ring_point,
    on_paper,
    outline_of,
    ring_of,
    ring_point,
    triangle_of,
    triangle_row,
    Heading,
    BARB_SIN,
    PAPER,
};
use crate::raster::{
    brush,
    covered,
    covers,
    in_fill,
    painted,
    source,
    stippled,
    text_origin,
    through,
    Blend,
    Cover,
    Dot,
    Span,
};
use crate::editor::{blur_area, committed, plan_for, region_of, relisted, Plan};
use crate::editor_input::shifted;
use crate::history::{edit_wf, fits_forward, fits_inverse, forward, inverse, Past};
use crate::rebuild::{planned, render, renumbered};
use crate::repaint::{all_fit, fits, in_image, inked, law_edit_shown, stays, touches, zone};
use crate::shapes::{
    chord,
    disc_of,
    disc_row,
    ellipse_of,
    ellipse_row,
    first_row,
    frame_of,
    half_width,
    law_stroke,
    law_stroke_reach,
    lemma_div,
    lemma_root_exists,
    on_sheet,
    polyline_of,
    px_down,
    root_of,
    rows_to,
    segment_of,
    stroke_of,
    stroke_rows,
    BRUSH,
};

verus! {

/// Four sides, in units.
pub struct Sides {
    pub left: int,
    pub top: int,
    pub right: int,
    pub bottom: int,
}

/// Are the pixels of a span inside the four sides?
pub open spec fn span_in(s: Span, f: Sides) -> bool {
    &&& f.left <= s.x0 * PX
    &&& (s.x1 + 1) * PX <= f.right
    &&& f.top <= s.y * PX
    &&& (s.y + 1) * PX <= f.bottom
}

pub open spec fn all_in(spans: Seq<Span>, f: Sides) -> bool {
    forall|i: int| 0 <= i < spans.len() ==> span_in(#[trigger] spans[i], f)
}

/// Does a brush of radius `r` at `p` stay inside, with the pixels that it
/// only brushes?
pub open spec fn reaches(p: Point, r: int, f: Sides) -> bool {
    &&& f.left <= px_down(p.x - r) * PX
    &&& (ceil_of(p.x + r) + 1) * PX <= f.right
    &&& f.top <= px_down(p.y - r) * PX
    &&& (ceil_of(p.y + r) + 1) * PX <= f.bottom
}

/// The same, with a pixel to spare for where `p` lies on its own.
pub open spec fn clears(p: Point, r: int, f: Sides) -> bool {
    &&& f.left <= p.x - r - PX
    &&& p.x + r + 2 * PX <= f.right
    &&& f.top <= p.y - r - PX
    &&& p.y + r + 2 * PX <= f.bottom
}

proof fn lemma_clears(p: Point, r: int, f: Sides)
    requires
        clears(p, r, f),
    ensures
        reaches(p, r, f),
{
}

proof fn lemma_chord(r: int, d: int)
    requires
        r >= 0,
    ensures
        0 <= chord(r, d) <= r,
{
    let q = max_of(r * r - d * d, 0);
    lemma_root_exists(q);
    let s = root_of(q);
    assert(d * d >= 0) by (nonlinear_arith);
    assert(r * r >= 0) by (nonlinear_arith);
    if s > r {
        assert(s * s > r * r) by (nonlinear_arith)
            requires
                s > r,
                r >= 0,
        ;
    }
}

proof fn lemma_disc_in(c: Point, r: int, f: Sides)
    requires
        on_sheet(c),
        0 <= r <= BRUSH,
        reaches(c, r, f),
    ensures
        all_in(disc_of(c, r), f),
{
    let all = disc_of(c, r);
    assert forall|i: int| 0 <= i < all.len() implies span_in(#[trigger] all[i], f) by {
        let y = first_row(c.y - r) + i;
        lemma_chord(r, y * PX - c.y);
        assert(all[i] == disc_row(c, r, y));
    }
}

proof fn lemma_rows_in(a: Point, b: Point, r: int, y0: int, n: int, f: Sides)
    requires
        on_sheet(a),
        on_sheet(b),
        a != b,
        0 <= r <= BRUSH,
        reaches(a, r, f),
        reaches(b, r, f),
        y0 == first_row(min_of(a.y as int, b.y as int) - r),
        n <= rows_to(
            min_of(a.y as int, b.y as int) - r,
            max_of(a.y as int, b.y as int) + r,
        ),
    ensures
        all_in(stroke_rows(a, b, r, y0, n), f),
    decreases n,
{
    if n > 0 {
        lemma_rows_in(a, b, r, y0, n - 1, f);
        let y = (y0 + n - 1) * PX;
        let p = stroke_of(a, b, r, y);
        if p.0 <= p.1 {
            law_stroke(a, b, r, y, 0);
            law_stroke_reach(a, b, r, p.0, y);
            law_stroke_reach(a, b, r, p.1, y);
        }
    }
}

proof fn lemma_segment_in(a: Point, b: Point, r: int, f: Sides)
    requires
        on_sheet(a),
        on_sheet(b),
        0 <= r <= BRUSH,
        reaches(a, r, f),
        reaches(b, r, f),
    ensures
        all_in(segment_of(a, b, r), f),
{
    if a == b {
        lemma_disc_in(a, r, f);
    } else {
        let lo = min_of(a.y as int, b.y as int) - r;
        let hi = max_of(a.y as int, b.y as int) + r;
        lemma_rows_in(a, b, r, first_row(lo), rows_to(lo, hi), f);
    }
}

proof fn lemma_polyline_in(ps: Seq<Point>, n: int, r: int, f: Sides)
    requires
        n <= ps.len(),
        forall|i: int| 0 <= i < ps.len() ==> on_sheet(#[trigger] ps[i]) && reaches(ps[i], r, f),
        0 <= r <= BRUSH,
    ensures
        all_in(polyline_of(ps, n, r), f),
    decreases n,
{
    if n > 1 {
        lemma_polyline_in(ps, n - 1, r, f);
        assert(on_sheet(ps[n - 2]) && on_sheet(ps[n - 1]));
        lemma_segment_in(ps[n - 2], ps[n - 1], r, f);
    }
}

proof fn lemma_frame_in(a: Point, b: Point, r: int, f: Sides)
    requires
        on_sheet(a),
        on_sheet(b),
        0 <= r <= BRUSH,
        reaches(a, r, f),
        reaches(b, r, f),
    ensures
        all_in(frame_of(a, b, r), f),
{
    let c = Point { x: b.x, y: a.y };
    let d = Point { x: a.x, y: b.y };
    lemma_segment_in(a, c, r, f);
    lemma_segment_in(c, b, r, f);
    lemma_segment_in(b, d, r, f);
    lemma_segment_in(d, a, r, f);
}

proof fn lemma_ring_in(a: Point, b: Point, r: int, ts: Seq<Heading>, n: int, f: Sides)
    requires
        n <= ts.len(),
        headings(ts),
        on_sheet(a),
        on_sheet(b),
        0 <= r <= BRUSH,
        reaches(a, r, f),
        reaches(b, r, f),
    ensures
        all_in(ring_of(a, b, r, ts, n), f),
    decreases n,
{
    if n > 0 {
        lemma_ring_in(a, b, r, ts, n - 1, f);
        assert(ts[n - 1].wf());
        lemma_ring_point(a, b, ts[n - 1]);
        lemma_disc_in(ring_point(a, b, ts[n - 1]), r, f);
    }
}

/// Between its ends a line stays between the columns of its ends.
proof fn lemma_crossing_in(p: Point, q: Point, y: int, f: Sides)
    requires
        on_sheet(p),
        on_sheet(q),
        p.y < q.y,
        p.y <= y <= q.y,
        clears(p, 0, f),
        clears(q, 0, f),
    ensures
        f.left <= crossing(p, q, y).0 * PX,
        (crossing(p, q, y).1 + 1) * PX <= f.right,
        -30_000_000_000 <= crossing(p, q, y).0 <= crossing(p, q, y).1 <= 30_000_000_000,
{
    lemma_crossing(p, q, y);
}

proof fn lemma_triangle_in(u: Point, v: Point, w: Point, f: Sides)
    requires
        on_sheet(u),
        on_sheet(v),
        on_sheet(w),
        clears(u, PX as int / 2, f),
        clears(v, PX as int / 2, f),
        clears(w, PX as int / 2, f),
    ensures
        all_in(triangle_of(u, v, w), f),
{
    let (t, m, b) = by_height(u, v, w);
    if t.y == b.y {
        lemma_clears(t, PX as int / 2, f);
        lemma_clears(b, PX as int / 2, f);
        lemma_segment_in(t, b, PX as int / 2, f);
    } else {
        let first = max_of(t.y as int / PX as int, 0);
        let all = triangle_of(u, v, w);
        assert forall|i: int| 0 <= i < all.len() implies span_in(#[trigger] all[i], f) by {
            let y = first + i;
            let h = clamp_of(y * PX, t.y as int, b.y as int);
            assert(all[i] == triangle_row(t, m, b, y));
            lemma_crossing_in(t, b, h, f);
            assert(first >= t.y as int / PX as int);
            assert(f.top <= y * PX && (y + 1) * PX <= f.bottom);
            if h <= m.y {
                if m.y != t.y {
                    lemma_crossing_in(t, m, h, f);
                }
            } else if b.y != m.y {
                lemma_crossing_in(m, b, h, f);
            }
        }
    }
}

/// An arrow's head stays as far around its tip as its sides are long.
proof fn lemma_head_in(a: Point, b: Point, width: int, f: Sides)
    requires
        on_paper(a),
        on_paper(b),
        0 <= width <= 2 * BRUSH,
        clears(b, head_length(width) + PX as int / 2 + 30, f),
    ensures
        all_in(head_of(a, b, width), f),
{
    let head = head_length(width);
    lemma_barb_near(a, b, head, BARB_SIN as int);
    lemma_barb_near(a, b, head, -BARB_SIN as int);
    lemma_triangle_in(
        b,
        barb_of(a, b, head, BARB_SIN as int),
        barb_of(a, b, head, -BARB_SIN as int),
        f,
    );
}

/// A pixel that no span covers stays as it is.
proof fn lemma_untouched(
    p: Pixel,
    spans: Seq<Span>,
    n: int,
    src: Pixel,
    mix: Blend,
    x: int,
    y: int,
)
    requires
        n <= spans.len(),
        !covered(spans, n, x, y),
    ensures
        through(p, spans, n, src, mix, x, y) == p,
    decreases n,
{
    if n > 0 {
        assert(!covers(spans[n - 1], x, y));
        assert(!covered(spans, n - 1, x, y)) by {
            if covered(spans, n - 1, x, y) {
                let i = choose|i: int| 0 <= i < n - 1 && covers(#[trigger] spans[i], x, y);
                assert(covers(spans[i], x, y));
            }
        }
        lemma_untouched(p, spans, n - 1, src, mix, x, y);
    }
}

proof fn lemma_least_most(ps: Seq<Point>, n: int, i: int)
    requires
        0 <= i < n <= ps.len(),
    ensures
        least_x(ps, n) <= ps[i].x <= most_x(ps, n),
        least_y(ps, n) <= ps[i].y <= most_y(ps, n),
    decreases n,
{
    if n > 1 && i < n - 1 {
        lemma_least_most(ps, n - 1, i);
    }
}

proof fn lemma_extent(ps: Seq<Point>, n: int)
    requires
        1 <= n <= ps.len(),
        all_on_paper(ps),
    ensures
        -PAPER <= least_x(ps, n) <= most_x(ps, n) <= PAPER,
        -PAPER <= least_y(ps, n) <= most_y(ps, n) <= PAPER,
    decreases n,
{
    assert(on_paper(ps[n - 1]));
    assert(on_paper(ps[0]));
    if n > 1 {
        lemma_extent(ps, n - 1);
    }
}

/// A filled ellipse is no wider than its box.
proof fn lemma_half_width(a: Point, b: Point, y: int)
    requires
        a.x != b.x,
        a.y != b.y,
    ensures
        0 <= half_width(a, b, y) <= max_of(b.x - a.x, a.x - b.x),
{
    let w = b.x - a.x;
    let h = b.y - a.y;
    let d = 2 * y - (a.y + b.y);
    let left = max_of(h * h - d * d, 0);
    let m = h * h;
    let n = w * w * left;
    let k = max_of(w, -w);
    assert(d * d >= 0) by (nonlinear_arith);
    assert(m > 0) by (nonlinear_arith)
        requires
            m == h * h,
            h != 0,
    ;
    assert(0 <= n <= w * w * m) by (nonlinear_arith)
        requires
            n == w * w * left,
            0 <= left <= m,
    ;
    assert(n / m >= 0) by (nonlinear_arith)
        requires
            n >= 0,
            m > 0,
    ;
    lemma_div(n, m, w * w + 1);
    assert((w * w + 1) * m == w * w * m + m) by (nonlinear_arith);
    lemma_root_exists(n / m);
    let s = root_of(n / m);
    assert(k * k == w * w) by (nonlinear_arith)
        requires
            k == w || k == -w,
    ;
    if s > k {
        assert(s * s > k * k) by (nonlinear_arith)
            requires
                s > k,
                k >= 0,
        ;
    }
}

/// The visible part of a filled ellipse stays inside its box.
proof fn lemma_ellipse_in(a: Point, b: Point, i: int, x: int, y: int, f: Sides)
    requires
        on_sheet(a),
        on_sheet(b),
        a.x != b.x,
        a.y != b.y,
        clears(a, 0, f),
        clears(b, 0, f),
        0 <= i < ellipse_of(a, b).len(),
        covers(ellipse_of(a, b)[i], x, y),
        x >= 0,
        y >= 0,
    ensures
        f.left <= x * PX && (x + 1) * PX <= f.right,
        f.top <= y * PX && (y + 1) * PX <= f.bottom,
{
    let first = max_of(min_of(a.y as int, b.y as int), 0) / PX as int;
    let row = first + i;
    assert(ellipse_of(a, b)[i] == ellipse_row(a, b, row));
    lemma_half_width(a, b, row * PX);
}

/// The sides of the points' box, `pad` units out.
spec fn sides_of(m: Mark, pad: int) -> Sides {
    let n = m.points.len() as int;
    Sides {
        left: least_x(m.points, n) - pad,
        top: least_y(m.points, n) - pad,
        right: most_x(m.points, n) + pad,
        bottom: most_y(m.points, n) + pad,
    }
}

/// Is the rectangle one of whole pixels, on the image's side of its left
/// and top edge?
pub open spec fn whole(r: Rect) -> bool {
    &&& r.x >= 0 && r.y >= 0
    &&& r.x as int % PX as int == 0 && r.y as int % PX as int == 0
    &&& r.w as int % PX as int == 0 && r.h as int % PX as int == 0
}

/// Are they all points between pixels?
pub open spec fn all_whole(ps: Seq<Point>) -> bool {
    forall|i: int|
        0 <= i < ps.len() ==> (#[trigger] ps[i]).x as int % PX as int == 0 && ps[i].y as int
            % PX as int == 0
}

/// A pen, a highlighter, a line, an arrow, a rectangle or an ellipse, in
/// the box of its points.
pub open spec fn stroked(m: Mark) -> bool {
    &&& m.points.len() >= 1
    &&& all_on_paper(m.points)
    &&& 0 <= m.width <= 2 * BRUSH
    &&& m.bbox == bbox_of(m)
    &&& m.tool is Pen || m.tool is Highlight || m.tool is Line || m.tool is Arrow || m.tool is Rect
        || m.tool is Ellipse
}

/// A stroke or a shape that is at least a pixel wide, or whose points all
/// lie between pixels, or a blur over whole pixels, in the box of its
/// points.
pub open spec fn contained(m: Mark) -> bool {
    ||| stroked(m) && (m.width >= PX || m.tool is Arrow || all_whole(m.points))
    ||| m.tool is Blur && whole(m.blur_rect) && m.bbox == bbox_of(m)
}

/// The greatest and the least coordinate of points between pixels lie
/// between pixels.
proof fn lemma_whole(ps: Seq<Point>, n: int)
    requires
        1 <= n <= ps.len(),
        all_whole(ps),
    ensures
        least_x(ps, n) % PX as int == 0 && most_x(ps, n) % PX as int == 0,
        least_y(ps, n) % PX as int == 0 && most_y(ps, n) % PX as int == 0,
    decreases n,
{
    assert(ps[n - 1].x as int % PX as int == 0 && ps[0].x as int % PX as int == 0);
    if n > 1 {
        lemma_whole(ps, n - 1);
    }
}

/// Each pixel that a stroke or a shape paints lies inside the sides that
/// its brush stays inside, at each of its points.
proof fn lemma_ink_in(m: Mark, ink: Cover, ts: Seq<Heading>, f: Sides, x: int, y: int)
    requires
        stroked(m),
        headings(ts),
        ink.spans == outline_of(m, ts),
        x >= 0 && y >= 0,
        exists|p: Pixel| #[trigger] painted(p, m, ink, x, y) != p,
        forall|i: int|
            0 <= i < m.points.len() ==> reaches(#[trigger] m.points[i], brush(m), f) && clears(
                m.points[i],
                0,
                f,
            ),
        m.tool is Arrow ==> clears(
            m.points[m.points.len() - 1],
            head_length(m.width as int) + PX as int / 2 + 30,
            f,
        ),
    ensures
        f.left <= x * PX && (x + 1) * PX <= f.right,
        f.top <= y * PX && (y + 1) * PX <= f.bottom,
{
    let n = m.points.len() as int;
    let a = m.points[0];
    let b = m.points[n - 1];
    assert(on_paper(a) && on_paper(b));
    assert forall|i: int| 0 <= i < n implies on_sheet(#[trigger] m.points[i]) && reaches(
        m.points[i],
        brush(m),
        f,
    ) by {
        assert(on_paper(m.points[i]));
    }
    if !(m.tool is Ellipse && m.filled) {
        lemma_outline_in(m, ts, f);
    }
    let p = choose|p: Pixel| #[trigger] painted(p, m, ink, x, y) != p;
    let spans = ink.spans;
    let k = spans.len() as int;
    if m.tool is Rect && m.filled {
        assert(in_fill(a, b, x, y));
    } else {
        if !covered(spans, k, x, y) {
            lemma_untouched(p, spans, k, source(m), ink.mix, x, y);
        }
        let i = choose|i: int| 0 <= i < k && covers(#[trigger] spans[i], x, y);
        if m.tool is Ellipse && m.filled {
            lemma_ellipse_in(a, b, i, x, y, f);
        } else {
            assert(span_in(spans[i], f));
            assert(spans[i].x0 <= x <= spans[i].x1);
            assert(spans[i].x0 * PX <= x * PX);
        }
    }
}

/// How far round its points an action's footprint lies.
spec fn pad_of(m: Mark) -> int {
    m.width as int / 2 + 2 * PX + reach_of(m)
}

proof fn lemma_pad(m: Mark)
    requires
        stroked(m),
    ensures
        footprint_of(m) matches Some(g) && ({
            let f = sides_of(m, pad_of(m));
            g.left() == f.left && g.top() == f.top && g.right() == f.right && g.bottom() == f.bottom
        }),
{
    lemma_extent(m.points, m.points.len() as int);
}

/// The brush of a contained stroke stays inside the sides of its footprint
/// at each of its points, and so does an arrow's head at its tip.
proof fn lemma_points_in(m: Mark, f: Sides)
    requires
        stroked(m),
        m.width >= PX || m.tool is Arrow || all_whole(m.points),
        f == sides_of(m, pad_of(m)),
    ensures
        forall|i: int|
            0 <= i < m.points.len() ==> reaches(#[trigger] m.points[i], brush(m), f) && clears(
                m.points[i],
                0,
                f,
            ),
        m.tool is Arrow ==> clears(
            m.points[m.points.len() - 1],
            head_length(m.width as int) + PX as int / 2 + 30,
            f,
        ),
{
    let n = m.points.len() as int;
    lemma_pad(m);
    if all_whole(m.points) {
        lemma_whole(m.points, n);
    }
    assert forall|i: int| 0 <= i < n implies reaches(#[trigger] m.points[i], brush(m), f)
        && clears(m.points[i], 0, f) by {
        lemma_least_most(m.points, n, i);
        if m.width >= PX || m.tool is Arrow {
            lemma_clears(m.points[i], brush(m), f);
        } else {
            assert(m.points[i].x as int % PX as int == 0);
        }
    }
    lemma_least_most(m.points, n, n - 1);
}

/// What a contained action paints, or samples, lies inside its footprint,
/// which is its box for all but an arrow.
pub proof fn law_ink_fits(m: Mark, ink: Cover, ts: Seq<Heading>, iw: int, ih: int)
    requires
        contained(m),
        headings(ts),
        ink.spans == outline_of(m, ts),
    ensures
        stays(m, ink, iw, ih),
        !(m.tool is Arrow) ==> footprint_of(m) == m.bbox,
{
    if m.tool is Blur {
        let g = footprint_of(m)->0;
        assert forall|x: int, y: int|
            in_image(iw, ih, x, y) && #[trigger] touches(m, ink, iw, ih, x, y) implies g.holds_pixel(
            x,
            y,
        ) by {}
    } else {
        let f = sides_of(m, pad_of(m));
        lemma_extent(m.points, m.points.len() as int);
        lemma_pad(m);
        lemma_points_in(m, f);
        let g = footprint_of(m)->0;
        assert forall|x: int, y: int|
            in_image(iw, ih, x, y) && #[trigger] touches(m, ink, iw, ih, x, y) implies g.holds_pixel(
            x,
            y,
        ) by {
            lemma_ink_in(m, ink, ts, f, x, y);
        }
    }
}

/// However thin a stroke is and wherever its points lie, each pixel that it
/// paints has its place inside the footprint, and is one of those that the
/// footprint touches.
pub proof fn law_ink_placed(
    m: Mark,
    ink: Cover,
    ts: Seq<Heading>,
    iw: int,
    ih: int,
    x: int,
    y: int,
)
    requires
        stroked(m),
        headings(ts),
        ink.spans == outline_of(m, ts),
        in_image(iw, ih, x, y),
        touches(m, ink, iw, ih, x, y),
    ensures
        footprint_of(m) matches Some(f) && f.left() <= x * PX < f.right() && f.top() <= y * PX
            < f.bottom() && zone(f, iw, ih)(x, y),
{
    let n = m.points.len() as int;
    let g = sides_of(m, pad_of(m));
    let f = Sides { right: g.right + PX as int / 2, bottom: g.bottom + PX as int / 2, ..g };
    lemma_pad(m);
    assert forall|i: int| 0 <= i < n implies reaches(#[trigger] m.points[i], brush(m), f) && clears(
        m.points[i],
        0,
        f,
    ) by {
        lemma_least_most(m.points, n, i);
        lemma_clears(m.points[i], brush(m), f);
    }
    lemma_least_most(m.points, n, n - 1);
    lemma_ink_in(m, ink, ts, f, x, y);
}

/// A pixel that no glyph covers stays as it is.
proof fn lemma_unlettered(
    p: Pixel,
    dots: Seq<Dot>,
    n: int,
    tones: Seq<Blend>,
    ox: int,
    oy: int,
    x: int,
    y: int,
)
    requires
        n <= dots.len(),
        forall|i: int|
            0 <= i < dots.len() ==> !(ox + (#[trigger] dots[i]).x == x && oy + dots[i].y == y),
    ensures
        stippled(p, dots, n, tones, ox, oy, x, y) == p,
    decreases n,
{
    if n > 0 {
        lemma_unlettered(p, dots, n - 1, tones, ox, oy, x, y);
        assert(!(ox + dots[n - 1].x == x && oy + dots[n - 1].y == y));
    }
}

/// Every pixel of the action's glyphs lies inside `f`.
pub open spec fn glyphs_in(m: Mark, ink: Cover, f: Rect) -> bool {
    let o = text_origin(m);
    forall|i: int|
        0 <= i < ink.dots.len() ==> f.holds_pixel(
            o.0 + (#[trigger] ink.dots[i]).x,
            o.1 + ink.dots[i].y,
        )
}

/// A text or a counter of at least two pixels, in its box.
pub open spec fn titled(m: Mark) -> bool {
    &&& m.points.len() >= 1
    &&& all_on_paper(m.points)
    &&& 2 * PX <= m.font_size <= BRUSH
    &&& m.bbox == bbox_of(m)
    &&& m.tool is Text || m.tool is Counter
    &&& m.tool is Text ==> m.text is Some && m.text->0.len() <= MAX_TEXT
}

/// A text, and a counter with its disc, stay inside their footprint where
/// the font's glyphs do.
pub proof fn law_glyphs_fit(m: Mark, ink: Cover, ts: Seq<Heading>, iw: int, ih: int)
    requires
        titled(m),
        ink.spans == outline_of(m, ts),
        footprint_of(m) matches Some(f) && glyphs_in(m, ink, f),
    ensures
        stays(m, ink, iw, ih),
{
    let c = m.points[0];
    let r = max_of(m.font_size * 9 / 10, PX as int / 2);
    let g = footprint_of(m)->0;
    let f = Sides { left: g.left(), top: g.top(), right: g.right(), bottom: g.bottom() };
    let o = text_origin(m);
    let spans = ink.spans;
    let k = spans.len() as int;
    assert(on_paper(c));
    if m.tool is Counter {
        lemma_clears(c, r, f);
        lemma_disc_in(c, r, f);
    }
    assert forall|x: int, y: int|
        in_image(iw, ih, x, y) && #[trigger] touches(m, ink, iw, ih, x, y) implies g.holds_pixel(
        x,
        y,
    ) by {
        let p = choose|p: Pixel| #[trigger] painted(p, m, ink, x, y) != p;
        let q = if m.tool is Counter {
            through(p, spans, k, source(m), ink.mix, x, y)
        } else {
            p
        };
        if q != p {
            if !covered(spans, k, x, y) {
                lemma_untouched(p, spans, k, source(m), ink.mix, x, y);
            }
            let i = choose|i: int| 0 <= i < k && covers(#[trigger] spans[i], x, y);
            assert(span_in(spans[i], f));
        } else if !g.holds_pixel(x, y) {
            lemma_unlettered(q, ink.dots, ink.dots.len() as int, ink.tones, o.0, o.1, x, y);
        }
    }
}

proof fn lemma_outline_in(m: Mark, ts: Seq<Heading>, f: Sides)
    requires
        m.points.len() >= 1,
        headings(ts),
        0 <= m.width <= 2 * BRUSH,
        forall|i: int|
            0 <= i < m.points.len() ==> on_sheet(#[trigger] m.points[i]) && reaches(
                m.points[i],
                brush(m),
                f,
            ),
        m.tool is Pen || m.tool is Highlight || m.tool is Line || m.tool is Arrow || m.tool is Rect
            || m.tool is Ellipse,
        !(m.tool is Ellipse && m.filled),
        m.tool is Arrow ==> all_on_paper(m.points) && clears(
            m.points[m.points.len() - 1],
            head_length(m.width as int) + PX as int / 2 + 30,
            f,
        ),
    ensures
        all_in(outline_of(m, ts), f),
{
    let n = m.points.len() as int;
    let a = m.points[0];
    let b = m.points[n - 1];
    let r = brush(m);
    assert(on_sheet(a) && on_sheet(b));
    match m.tool {
        Tool::Pen | Tool::Highlight => if n == 1 {
            lemma_disc_in(a, r, f);
        } else {
            lemma_polyline_in(m.points, n, r, f);
        },
        Tool::Line => lemma_segment_in(a, b, r, f),
        Tool::Arrow => {
            assert(on_paper(a) && on_paper(b));
            lemma_segment_in(a, b, r, f);
            lemma_head_in(a, b, m.width as int, f);
        },
        Tool::Ellipse => lemma_ring_in(a, b, r, ts, ts.len() as int, f),
        Tool::Rect => lemma_frame_in(a, b, r, f),
        _ => {},
    }
}

/// The action's rows are those of its outline, with these headings for an
/// ellipse.
pub open spec fn traced(
    ink: spec_fn(Mark) -> Cover,
    ts: spec_fn(Mark) -> Seq<Heading>,
    m: Mark,
) -> bool {
    headings(ts(m)) && ink(m).spans == outline_of(m, ts(m))
}

pub open spec fn outlined(
    ink: spec_fn(Mark) -> Cover,
    ts: spec_fn(Mark) -> Seq<Heading>,
) -> bool {
    forall|m: Mark| #[trigger] traced(ink, ts, m)
}

/// Each action is contained, or known to stay inside its footprint.
pub open spec fn all_stay(
    ms: Seq<Mark>,
    ink: spec_fn(Mark) -> Cover,
    iw: int,
    ih: int,
) -> bool {
    forall|i: int|
        0 <= i < ms.len() ==> contained(#[trigger] ms[i]) || (footprint_of(ms[i]) matches Some(f)
            ==> fits(ms[i], ink(ms[i]), f, iw, ih))
}

/// What the edit adds and takes is contained, or known to stay inside its
/// footprint, as a text or a counter is.
pub open spec fn edit_stays(e: Past, ink: spec_fn(Mark) -> Cover, iw: int, ih: int) -> bool {
    match e {
        Past::Add(m) => contained(m) || stays(m, ink(m), iw, ih),
        Past::Remove(_, m) => contained(m) || stays(m, ink(m), iw, ih),
        Past::Move(_, a, b) => (contained(a) || stays(a, ink(a), iw, ih)) && (contained(b)
            || stays(b, ink(b), iw, ih)),
    }
}

/// Drawing, deleting or moving an action, or taking that back, and
/// repainting only what the edit's plan names shows the new list as
/// painting all of it would.
pub proof fn law_drawn_edit_shown(
    base: Picture,
    iw: int,
    ih: int,
    ms: Seq<Mark>,
    e: Past,
    back: bool,
    ink: spec_fn(Mark) -> Cover,
    ts: spec_fn(Mark) -> Seq<Heading>,
    plan: Plan,
)
    requires
        0 <= iw <= u32::MAX,
        0 <= ih <= u32::MAX,
        sized(base, iw, ih),
        all_settled(ms),
        edit_wf(e),
        outlined(ink, ts),
        edit_stays(e, ink, iw, ih),
        back ==> fits_inverse(e, ms.len() as int) && (e matches Past::Add(m) ==> m == ms.last())
            && (e matches Past::Move(i, _, m) ==> m == ms[i]),
        !back ==> fits_forward(e, ms.len() as int) && (e matches Past::Remove(i, m) ==> m == ms[i])
            && (e matches Past::Move(i, m, _) ==> m == ms[i]),
        ({
            let us = if back {
                inverse(ms, e)
            } else {
                forward(ms, e)
            };
            &&& all_stay(ms, ink, iw, ih)
            &&& all_stay(renumbered(us), ink, iw, ih)
            &&& plan_for(us, region_of(e), iw, ih, plan)
        }),
    ensures
        ({
            let us = if back {
                inverse(ms, e)
            } else {
                forward(ms, e)
            };
            let vs = relisted(us, region_of(e));
            plan matches Plan::Dirty(closed, mark) && planned(
                base,
                render(base, iw, ih, ms, inked(ms, ink), 0, ms.len() as int),
                iw,
                ih,
                vs,
                inked(vs, ink),
                closed,
                mark@,
            ) == render(base, iw, ih, vs, inked(vs, ink), 0, vs.len() as int)
        }),
{
    let us = if back {
        inverse(ms, e)
    } else {
        forward(ms, e)
    };
    lemma_all_fit(ms, ink, ts, iw, ih);
    lemma_all_fit(renumbered(us), ink, ts, iw, ih);
    match e {
        Past::Add(m) => lemma_stays(m, ink, ts, iw, ih),
        Past::Remove(_, m) => lemma_stays(m, ink, ts, iw, ih),
        Past::Move(_, a, b) => {
            lemma_stays(a, ink, ts, iw, ih);
            lemma_stays(b, ink, ts, iw, ih);
        },
    }
    law_edit_shown(base, iw, ih, ms, e, back, ink, plan);
}

proof fn lemma_stays(
    m: Mark,
    ink: spec_fn(Mark) -> Cover,
    ts: spec_fn(Mark) -> Seq<Heading>,
    iw: int,
    ih: int,
)
    requires
        outlined(ink, ts),
        contained(m) || stays(m, ink(m), iw, ih),
    ensures
        stays(m, ink(m), iw, ih),
{
    if contained(m) {
        assert(traced(ink, ts, m));
        law_ink_fits(m, ink(m), ts(m), iw, ih);
    }
}

proof fn lemma_all_fit(
    ms: Seq<Mark>,
    ink: spec_fn(Mark) -> Cover,
    ts: spec_fn(Mark) -> Seq<Heading>,
    iw: int,
    ih: int,
)
    requires
        outlined(ink, ts),
        all_stay(ms, ink, iw, ih),
    ensures
        all_fit(ms, ink, iw, ih),
{
    assert forall|i: int| 0 <= i < ms.len() implies (footprint_of(#[trigger] ms[i]) matches Some(f)
        ==> fits(ms[i], ink(ms[i]), f, iw, ih)) by {
        if contained(ms[i]) {
            assert(traced(ink, ts, ms[i]));
            law_ink_fits(ms[i], ink(ms[i]), ts(ms[i]), iw, ih);
        }
    }
}

/// Drawing makes contained actions: what is committed of a pen, a
/// highlighter, a line, an arrow, a rectangle, an ellipse or a blur is
/// contained, and of a counter it is in its box.
pub proof fn law_committed_contained(m: Mark, bw: int, bh: int)
    requires
        m.drawable(),
        m.width >= PX || m.tool is Arrow || m.tool is Blur || all_whole(m.points),
        m.tool is Counter ==> m.font_size >= 2 * PX,
        0 <= bw <= u32::MAX,
        0 <= bh <= u32::MAX,
        m.tool is Pen || m.tool is Highlight || m.tool is Line || m.tool is Arrow || m.tool is Rect
            || m.tool is Ellipse || m.tool is Blur || m.tool is Counter,
    ensures
        !(m.tool is Counter) ==> contained(committed(m, bw, bh)),
        m.tool is Counter ==> titled(committed(m, bw, bh)),
{
    assert forall|i: int| 0 <= i < m.points.len() implies on_paper(#[trigger] m.points[i]) by {
        assert(on_page(m.points[i]));
    }
    assert(on_paper(m.points[0]) && on_paper(m.points[m.points.len() - 1]));
    if m.tool is Blur {
        let (x, y, w, h) = blur_area(m, bw, bh);
        assert(whole(committed(m, bw, bh).blur_rect));
    }
}

proof fn lemma_least_shift(ps: Seq<Point>, qs: Seq<Point>, n: int, dx: int, dy: int)
    requires
        1 <= n <= ps.len(),
        ps.len() == qs.len(),
        forall|i: int|
            0 <= i < ps.len() ==> (#[trigger] qs[i]).x == ps[i].x + dx && qs[i].y == ps[i].y + dy,
    ensures
        least_x(qs, n) == least_x(ps, n) + dx,
        least_y(qs, n) == least_y(ps, n) + dy,
        most_x(qs, n) == most_x(ps, n) + dx,
        most_y(qs, n) == most_y(ps, n) + dy,
    decreases n,
{
    assert(qs[0].x == ps[0].x + dx);
    assert(qs[n - 1].x == ps[n - 1].x + dx);
    if n > 1 {
        lemma_least_shift(ps, qs, n - 1, dx, dy);
    }
}

/// Moving keeps actions contained: a pen, a highlighter, a line, an
/// arrow, a rectangle or an ellipse wherever it goes on the paper, and a
/// blur, or a stroke thinner than a pixel, by whole pixels.
pub proof fn law_moved_contained(m: Mark, dx: int, dy: int)
    requires
        contained(m),
        -PAPER <= dx <= PAPER,
        -PAPER <= dy <= PAPER,
        all_on_paper(shifted(m, dx, dy).points),
        m.tool is Blur || (m.width < PX && !(m.tool is Arrow)) ==> dx % PX as int == 0 && dy
            % PX as int == 0,
        m.tool is Blur ==> {
            &&& m.blur_rect.x <= PAPER && m.blur_rect.y <= PAPER
            &&& m.blur_rect.x + dx >= 0 && m.blur_rect.y + dy >= 0
        },
    ensures
        contained(shifted(m, dx, dy)),
{
    let n = m.points.len() as int;
    let s = shifted(m, dx, dy);
    if m.tool is Blur {
        assert(s.bbox == bbox_of(s));
    } else {
        assert forall|i: int| 0 <= i < n implies (#[trigger] s.points[i]).x == m.points[i].x + dx
            && s.points[i].y == m.points[i].y + dy by {
            assert(on_paper(m.points[i]));
        }
        lemma_least_shift(m.points, s.points, n, dx, dy);
        lemma_extent(m.points, n);
        lemma_extent(s.points, n);
        assert(s.bbox == bbox_of(s));
        if m.width < PX && !(m.tool is Arrow) {
            assert forall|i: int| 0 <= i < n implies (#[trigger] s.points[i]).x as int % PX as int
                == 0 && s.points[i].y as int % PX as int == 0 by {
                assert(m.points[i].x as int % PX as int == 0 && m.points[i].y as int % PX as int
                    == 0);
            }
        }
    }
}

} // verus!
