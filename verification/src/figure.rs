//! The shapes that show an action on the stage.

use vstd::prelude::*;
use crate::action::{Action, Mark, Tool};
use crate::editor_view::{path_use_of, PathKey};
use crate::geom::Point;

verus! {

/// A shape in the image's coordinates.
#[derive(Clone, Copy, PartialEq, Eq, Structural, Debug)]
pub enum Figure {
    /// A disc with this middle and radius.
    Disc(Point, i64),
    /// A round stroke between two points, this wide.
    Stroke(Point, Point, i64),
    /// The head of an arrow from the first point, its tip at the second,
    /// for a shaft this wide.
    Head(Point, Point, i64),
    /// The filled ellipse between two corners.
    Oval(Point, Point),
    /// The outline of the ellipse between two corners, this wide.
    Ring(Point, Point, i64),
    /// The filled rectangle between two corners.
    Block(Point, Point),
}

/// The strokes of a line through the points, from point `from` on.
pub open spec fn strokes_of(ps: Seq<Point>, w: i64, from: int) -> Seq<Figure> {
    if from + 1 >= ps.len() {
        Seq::empty()
    } else {
        Seq::new(
            (ps.len() - 1 - from) as nat,
            |i: int| Figure::Stroke(ps[from + i], ps[from + i + 1], w),
        )
    }
}

/// The shapes of an action. Blurs and texts have none.
pub open spec fn figures_of(m: Mark) -> Seq<Figure> {
    if m.points.len() == 0 {
        Seq::empty()
    } else {
        let a = m.points[0];
        let b = m.points[m.points.len() - 1];
        match m.tool {
            Tool::Pen | Tool::Highlight => if m.points.len() == 1 {
                seq![Figure::Disc(a, (m.width as int / 2) as i64)]
            } else {
                strokes_of(m.points, m.width, 0)
            },
            Tool::Line => seq![Figure::Stroke(a, b, m.width)],
            Tool::Arrow => seq![Figure::Stroke(a, b, m.width), Figure::Head(a, b, m.width)],
            Tool::Ellipse => if a.x == b.x || a.y == b.y {
                Seq::empty()
            } else if m.filled {
                seq![Figure::Oval(a, b)]
            } else {
                seq![Figure::Ring(a, b, m.width)]
            },
            Tool::Rect => if m.filled {
                seq![Figure::Block(a, b)]
            } else {
                let c = Point { x: b.x, y: a.y };
                let d = Point { x: a.x, y: b.y };
                seq![
                    Figure::Stroke(a, c, m.width),
                    Figure::Stroke(c, b, m.width),
                    Figure::Stroke(b, d, m.width),
                    Figure::Stroke(d, a, m.width),
                ]
            },
            Tool::Counter => seq![Figure::Disc(a, (m.font_size * 9 / 10) as i64)],
            _ => Seq::empty(),
        }
    }
}

/// The strokes of a line through the points, from point `from` on: what a
/// stroke that grew takes beside what it had.
pub fn strokes(a: &Action, from: usize) -> (r: Vec<Figure>)
    ensures
        r@ == strokes_of(a@.points, a.width, from as int),
{
    let mut out: Vec<Figure> = Vec::new();
    let n: usize = a.points.len();
    if n == 0 || from >= n - 1 {
        assert(out@ =~= strokes_of(a@.points, a.width, from as int));
        return out;
    }
    let mut i: usize = from;
    while i < n - 1
        invariant
            n == a.points@.len(),
            from <= i <= n - 1,
            out@.len() == i - from,
            forall|k: int|
                0 <= k < out@.len() ==> #[trigger] out@[k] == Figure::Stroke(
                    a.points@[from + k],
                    a.points@[from + k + 1],
                    a.width,
                ),
        decreases n - i,
    {
        out.push(Figure::Stroke(a.points[i], a.points[i + 1], a.width));
        i = i + 1;
    }
    assert(out@ =~= strokes_of(a@.points, a.width, from as int));
    out
}

/// The shapes of an action, in the order they are painted.
pub fn figures(a: &Action) -> (r: Vec<Figure>)
    requires
        0 <= a.width,
        0 <= a.font_size <= 1_000_000_000_000,
    ensures
        r@ == figures_of(a@),
{
    let mut out: Vec<Figure> = Vec::new();
    let n: usize = a.points.len();
    if n == 0 {
        assert(out@ =~= figures_of(a@));
        return out;
    }
    let p = a.points[0];
    let q = a.points[n - 1];
    let w: i64 = a.width;
    match a.tool {
        Tool::Pen | Tool::Highlight => if n == 1 {
            out.push(Figure::Disc(p, w / 2));
        } else {
            return strokes(a, 0);
        },
        Tool::Line => out.push(Figure::Stroke(p, q, w)),
        Tool::Arrow => {
            out.push(Figure::Stroke(p, q, w));
            out.push(Figure::Head(p, q, w));
        },
        Tool::Ellipse => if p.x == q.x || p.y == q.y {
        } else if a.filled {
            out.push(Figure::Oval(p, q));
        } else {
            out.push(Figure::Ring(p, q, w));
        },
        Tool::Rect => if a.filled {
            out.push(Figure::Block(p, q));
        } else {
            let c = Point { x: q.x, y: p.y };
            let d = Point { x: p.x, y: q.y };
            out.push(Figure::Stroke(p, c, w));
            out.push(Figure::Stroke(c, q, w));
            out.push(Figure::Stroke(q, d, w));
            out.push(Figure::Stroke(d, p, w));
        },
        Tool::Counter => out.push(Figure::Disc(p, a.font_size * 9 / 10)),
        _ => {},
    }
    assert(out@ =~= figures_of(a@));
    out
}

/// A stroke that grew by points at its end, shown by what was kept of it
/// and the strokes from its last point on, shows what it would if it were
/// shown anew.
pub proof fn law_grown_stroke(before: Mark, after: Mark, scale: u32, kept: PathKey)
    requires
        before.points.len() >= 2,
        before.points.len() <= after.points.len() <= usize::MAX,
        after.points.take(before.points.len() as int) == before.points,
        (Mark { points: before.points, ..after }) == before,
        kept == crate::editor_view::key_of(before, scale),
        path_use_of(after, scale, Some(kept)) is Extend,
    ensures
        figures_of(after) == figures_of(before) + strokes_of(
            after.points,
            after.width,
            path_use_of(after, scale, Some(kept))->Extend_0 as int,
        ),
{
    let k = before.points.len() as int;
    assert forall|i: int| 0 <= i < k implies after.points[i] == before.points[i] by {
        assert(after.points.take(k)[i] == after.points[i]);
    }
    assert(figures_of(after) =~= figures_of(before) + strokes_of(
        after.points,
        after.width,
        k - 1,
    ));
}

/// What was kept of an action is what it would be shown as anew, if
/// nothing but its ends and its number of points had to be looked at: a
/// line, an arrow, a rectangle, an ellipse or a counter with the same key
/// has the same shapes.
pub proof fn law_kept_shape(before: Mark, after: Mark, scale: u32)
    requires
        before.points.len() >= 1,
        after.points.len() >= 1,
        before.points.len() <= usize::MAX,
        after.points.len() <= usize::MAX,
        (Mark { points: before.points, ..after }) == before,
        !(after.tool is Pen) && !(after.tool is Highlight),
        path_use_of(after, scale, Some(crate::editor_view::key_of(before, scale))) is Stamp,
    ensures
        figures_of(after) == figures_of(before),
{
}

/// The figures of an action are what its tool draws between its points: an
/// outlined rectangle a closed loop through its four corners, a line one
/// stroke, an arrow the same with a head at its end, a free stroke one for
/// each two points that follow each other.
pub proof fn law_figures(m: Mark, i: int)
    requires
        m.points.len() >= 2,
        0 <= i < m.points.len() - 1,
    ensures
        ({
            let (a, b) = (m.points[0], m.points.last());
            let f = figures_of(m);
            &&& m.tool is Line ==> f == seq![Figure::Stroke(a, b, m.width)]
            &&& m.tool is Arrow ==> f.len() == 2 && f[0] == Figure::Stroke(a, b, m.width) && f[1]
                == Figure::Head(a, b, m.width)
            &&& m.tool is Pen || m.tool is Highlight ==> f.len() == m.points.len() - 1 && f[i]
                == Figure::Stroke(m.points[i], m.points[i + 1], m.width)
            &&& m.tool is Rect && m.filled ==> f == seq![Figure::Block(a, b)]
            &&& m.tool is Rect && !m.filled ==> {
                &&& f.len() == 4
                &&& forall|k: int|
                    #![trigger f[k]]
                    0 <= k < 4 ==> f[k] is Stroke && f[k]->Stroke_2 == m.width && f[k]->Stroke_1
                        == f[(k + 1) % 4]->Stroke_0 && (f[k]->Stroke_0.x == f[k]->Stroke_1.x
                        || f[k]->Stroke_0.y == f[k]->Stroke_1.y)
                &&& f[0]->Stroke_0 == a && f[2]->Stroke_0 == b
            }
            &&& m.tool is Ellipse && a.x != b.x && a.y != b.y ==> f == (if m.filled {
                seq![Figure::Oval(a, b)]
            } else {
                seq![Figure::Ring(a, b, m.width)]
            })
        }),
{
    let f = figures_of(m);
    if m.tool is Rect && !m.filled {
        assert forall|k: int| #![trigger f[k]] 0 <= k < 4 implies f[k] is Stroke && f[k]->Stroke_2
            == m.width && f[k]->Stroke_1 == f[(k + 1) % 4]->Stroke_0 && (f[k]->Stroke_0.x
            == f[k]->Stroke_1.x || f[k]->Stroke_0.y == f[k]->Stroke_1.y) by {
            assert(k == 0 || k == 1 || k == 2 || k == 3);
        }
    }
}

} // verus!
