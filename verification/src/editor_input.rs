//! The editor's pointer and text: drawing, selecting, moving, cropping.

use vstd::prelude::*;
use crate::action::{
    close,
    hit_action,
    lemma_topmost,
    lettering,
    next_step,
    on_page,
    patch_of,
    patches,
    rect_of,
    same_action,
    start_action,
    started,
    text_action,
    tied,
    tight,
    top_step,
    topmost,
    Action,
    Mark,
    Tool,
    PAGE,
    REACH,
};
use crate::editor::{
    added,
    lemma_pasts_push,
    lemma_settled_wf,
    plan_for,
    rebuild_for_edit,
    region_of,
    relisted,
    CropMove,
    Editor,
    MoveDrag,
    Plan,
    TextEntry,
};
use crate::geom::{clamp_of, clamped, least, max_of, min_of, most, Point, Rect, PX};
use crate::history::{pasts, Edit, Past};
use crate::raster::{paint, rasterize, Cover, Ink};
use crate::text::{trim, trimmed};

verus! {

impl Editor {
    /// The text that was typed, if there is any but white space.
    pub open spec fn typed(self) -> Option<Mark> {
        match self.text_entry {
            Some(t) => if trimmed(t.buffer@).len() > 0 {
                Some(
                    lettering(self.color@, self.base_dims.0 as int, t.point, trimmed(t.buffer@)),
                )
            } else {
                None
            },
            None => None,
        }
    }

    /// `next` has the actions, history and picture of this editor with
    /// the mark painted and put on the list, or as they were.
    pub open spec fn adds(self, next: Editor, mark: Option<Mark>, ink: Cover) -> bool {
        match mark {
            None => next.actions == self.actions && next.undos == self.undos && next.redos
                == self.redos && next.composite == self.composite,
            Some(m) => {
                &&& next.list() == self.list().push(m)
                &&& pasts(next.undos@) == pasts(self.undos@).push(Past::Add(m))
                &&& next.redos@.len() == 0
                &&& next.actions@.drop_last() == self.actions@
                &&& patch_of(next.actions@.last()) is None
                &&& added(self.undos@, next.undos@, next.actions@.last())
                &&& next.composite.width == self.composite.width
                &&& next.composite.height == self.composite.height
                &&& next.composite@ == paint(
                    self.composite@,
                    self.composite.width as int,
                    self.composite.height as int,
                    m,
                    ink,
                )
            },
        }
    }

    /// The text that was typed, if there is any but white space.
    pub fn typed_action(&self) -> (r: Option<Action>)
        requires
            self.wf(),
        ensures
            match r {
                Some(a) => self.typed() == Some(a@) && a@.settled() && patch_of(a) is None,
                None => self.typed() is None,
            },
    {
        match &self.text_entry {
            None => None,
            Some(entry) => {
                let value = trim(entry.buffer.as_str());
                if value.as_str().unicode_len() == 0 {
                    return None;
                }
                let action = text_action(
                    self.color.as_str(),
                    self.base_dims.0,
                    entry.point,
                    value,
                );
                assert(action@.settled()) by {
                    reveal_strlit("0");
                }
                Some(action)
            },
        }
    }

    /// End the open text entry; keep what was typed, or drop it.
    pub fn commit_text(&mut self, keep: bool, ink: &Ink)
        requires
            old(self).wf(),
            old(self).room(1),
            ink@.wf(),
        ensures
            final(self).wf(),
            *final(self) == (Editor {
                text_entry: None,
                actions: final(self).actions,
                undos: final(self).undos,
                redos: final(self).redos,
                composite: final(self).composite,
                ..*old(self)
            }),
            old(self).adds(
                *final(self),
                if keep {
                    old(self).typed()
                } else {
                    None
                },
                ink@,
            ),
    {
        let typed = if keep {
            self.typed_action()
        } else {
            None
        };
        self.text_entry = None;
        if let Some(action) = typed {
            let ghost before = self.composite;
            let ghost m = action@;
            rasterize(&mut self.composite, &action, ink);
            proof {
                crate::editor::lemma_painted(before, self.composite, m, m, ink@);
                crate::editor::lemma_marks_push(self.actions@, action);
            }
            self.push_action(action);
            assert(self.actions@.drop_last() =~= old(self).actions@);
        }
    }

    /// Switch tools; what was typed is kept.
    pub fn set_tool(&mut self, tool: Tool, ink: &Ink)
        requires
            old(self).wf(),
            old(self).room(1),
            ink@.wf(),
        ensures
            final(self).wf(),
            *final(self) == (Editor {
                tool,
                text_entry: None,
                actions: final(self).actions,
                undos: final(self).undos,
                redos: final(self).redos,
                composite: final(self).composite,
                ..*old(self)
            }),
            old(self).adds(*final(self), old(self).typed(), ink@),
    {
        self.commit_text(true, ink);
        self.tool = tool;
    }
}

impl Editor {
    /// `next` is this editor after the pointer went down at `p`.
    pub open spec fn presses(self, next: Editor, p: Point, ink: Cover) -> bool {
        if self.space_pan {
            next == (Editor { panning: true, ..self })
        } else {
            &&& self.adds(next, self.typed(), ink)
            &&& match self.tool {
                Tool::Select => {
                    let ms = next.list();
                    let hit = topmost(ms, p, ms.len() as int);
                    &&& next == (Editor {
                        text_entry: None,
                        actions: next.actions,
                        undos: next.undos,
                        redos: next.redos,
                        composite: next.composite,
                        selected: next.selected,
                        move_drag: next.move_drag,
                        ..self
                    })
                    &&& match hit {
                        None => next.selected is None && next.move_drag == self.move_drag,
                        Some(i) => next.selected == Some(i as usize) && (next.move_drag matches Some(d) && d.index == i && d.last == p
                            && same_action(d.before, next.actions@[i])),
                    }
                },
                Tool::Text => {
                    &&& next == (Editor {
                        text_entry: next.text_entry,
                        actions: next.actions,
                        undos: next.undos,
                        redos: next.redos,
                        composite: next.composite,
                        ..self
                    })
                    &&& next.text_entry matches Some(t)
                    &&& t.point == p
                    &&& t.buffer@.len() == 0
                },
                Tool::Crop => {
                    let inside = self.crop_rect matches Some(r) && r.has(p);
                    next == (Editor {
                        text_entry: None,
                        actions: next.actions,
                        undos: next.undos,
                        redos: next.redos,
                        composite: next.composite,
                        crop_move: if inside {
                            Some(CropMove { from: p, rect: self.crop_rect->0 })
                        } else {
                            self.crop_move
                        },
                        crop_rect: if inside {
                            self.crop_rect
                        } else {
                            Some(Rect { x: p.x, y: p.y, w: 0, h: 0 })
                        },
                        crop_anchor: if inside {
                            self.crop_anchor
                        } else {
                            Some(p)
                        },
                        ..self
                    })
                },
                _ => {
                    let ms = next.list();
                    &&& next == (Editor {
                        text_entry: None,
                        actions: next.actions,
                        undos: next.undos,
                        redos: next.redos,
                        composite: next.composite,
                        current: next.current,
                        ..self
                    })
                    &&& next.current matches Some(a)
                    &&& patch_of(a) is None
                    &&& a@ == started(
                        self.tool,
                        self.color@,
                        self.stroke as int,
                        self.fill,
                        self.base_dims.0 as int,
                        (top_step(ms, ms.len() as int) + 1) as u32,
                        p,
                    )
                },
            }
        }
    }

    /// The pointer went down at `p`, a point of the image: pan, select,
    /// start a text, a crop or an action. What was typed is kept.
    pub fn press(&mut self, p: Point, ink: &Ink)
        requires
            old(self).wf(),
            old(self).room(1),
            ink@.wf(),
            on_page(p),
            top_step(old(self).list(), old(self).actions@.len() as int) < u32::MAX,
        ensures
            final(self).wf(),
            old(self).presses(*final(self), p, ink@),
    {
        if self.space_pan {
            self.panning = true;
            return;
        }
        let ghost first = self.list();
        self.commit_text(true, ink);
        proof {
            lemma_settled_wf(self.list());
            if old(self).typed() is Some {
                assert(self.list().drop_last() =~= first);
            }
            lemma_top_step(first, self.list());
            lemma_topmost(self.list(), p, self.list().len() as int);
            assert(self.list().len() == self.actions@.len());
        }
        match self.tool {
            Tool::Select => {
                self.selected = hit_action(&self.actions, p);
                if let Some(i) = self.selected {
                    assert(self.list()[i as int].settled());
                    let before = self.actions[i].copy();
                    self.move_drag = Some(MoveDrag { index: i, last: p, before });
                }
            },
            Tool::Text => {
                self.text_entry = Some(TextEntry { point: p, buffer: String::new() });
            },
            Tool::Crop => {
                let inside = match self.crop_rect {
                    Some(r) => p.x >= r.x && p.x <= r.x + r.w && p.y >= r.y && p.y <= r.y + r.h,
                    None => false,
                };
                if inside {
                    if let Some(r) = self.crop_rect {
                        self.crop_move = Some(CropMove { from: p, rect: r });
                    }
                } else {
                    self.crop_rect = Some(Rect { x: p.x, y: p.y, w: 0, h: 0 });
                    self.crop_anchor = Some(p);
                }
            },
            _ => {
                let step: u32 = next_step(&self.actions);
                let a = start_action(
                    self.tool,
                    self.color.as_str(),
                    self.stroke,
                    self.fill,
                    self.base_dims.0,
                    step,
                    p,
                );
                proof {
                    crate::rebuild::lemma_decimal_len(step as nat);
                    assert(a@.points =~= seq![p]);
                    assert(a@.drawable());
                }
                self.current = Some(a);
            },
        }
    }

    /// Translate one action by `d`, clamped so that its box, which is
    /// `bbox`, stays on the image. How far it went comes back.
    pub fn move_action(&mut self, i: usize, d: Point, bbox: Rect) -> (r: Point)
        requires
            old(self).wf(),
            -4 * REACH <= d.x <= 4 * REACH,
            -4 * REACH <= d.y <= 4 * REACH,
            i < old(self).actions@.len() ==> old(self).list()[i as int].bbox == Some(bbox),
            tight(bbox),
            0 <= bbox.w <= old(self).base_dims.0 * PX,
            0 <= bbox.h <= old(self).base_dims.1 * PX,
        ensures
            final(self).wf(),
            *final(self) == (Editor { actions: final(self).actions, ..*old(self) }),
            ({
                let dx = clamp_of(d.x as int, -bbox.x, old(self).base_dims.0 * PX - bbox.right());
                let dy = clamp_of(d.y as int, -bbox.y, old(self).base_dims.1 * PX - bbox.bottom());
                if i < old(self).actions@.len() {
                    &&& r.x == dx
                    &&& r.y == dy
                    &&& patches(final(self).actions@) == patches(old(self).actions@)
                    &&& final(self).list() == old(self).list().update(
                        i as int,
                        shifted(old(self).list()[i as int], dx, dy),
                    )
                } else {
                    &&& r == (Point { x: 0, y: 0 })
                    &&& final(self).actions@ == old(self).actions@
                }
            }),
    {
        if i >= self.actions.len() {
            return Point { x: 0, y: 0 };
        }
        let ghost ms = self.list();
        let ghost m = ms[i as int];
        assert(m.settled());
        let dx: i64 = clamped(d.x, -bbox.x, self.base_dims.0 as i64 * PX - (bbox.x + bbox.w));
        let dy: i64 = clamped(d.y, -bbox.y, self.base_dims.1 as i64 * PX - (bbox.y + bbox.h));
        let ghost before = self.actions@;
        proof {
            lemma_shifted(m, bbox, dx as int, dy as int, self.base_dims.0 as int, self.base_dims.1 as int);
        }
        shift_action(&mut self.actions[i], dx, dy);
        proof {
            assert(self.actions@ =~= before.update(i as int, self.actions@[i as int]));
            assert(self.list() =~= ms.update(i as int, shifted(m, dx as int, dy as int)));
            assert(patches(self.actions@) =~= patches(before));
            assert forall|j: int| 0 <= j < self.list().len() implies (
            #[trigger] self.list()[j]).settled() by {
                assert(ms[j].settled());
            }
        }
        Point { x: dx, y: dy }
    }
}

/// The action moved by (`dx`, `dy`).
pub open spec fn shifted(m: Mark, dx: int, dy: int) -> Mark {
    Mark {
        points: Seq::new(
            m.points.len(),
            |i: int| Point { x: (m.points[i].x + dx) as i64, y: (m.points[i].y + dy) as i64 },
        ),
        blur_rect: if m.tool is Blur {
            shifted_rect(m.blur_rect, dx, dy)
        } else {
            m.blur_rect
        },
        bbox: match m.bbox {
            Some(b) => Some(shifted_rect(b, dx, dy)),
            None => None,
        },
        ..m
    }
}

pub open spec fn shifted_rect(r: Rect, dx: int, dy: int) -> Rect {
    Rect { x: (r.x + dx) as i64, y: (r.y + dy) as i64, ..r }
}

/// Every part of the action can be moved by (`dx`, `dy`).
spec fn can_shift(m: Mark, dx: int, dy: int) -> bool {
    &&& m.wf()
    &&& forall|i: int|
        0 <= i < m.points.len() ==> -REACH <= (#[trigger] m.points[i]).x + dx <= REACH && -REACH
            <= m.points[i].y + dy <= REACH
    &&& m.tool is Blur ==> tight(m.blur_rect) && m.blur_rect.x + dx <= i64::MAX && m.blur_rect.x
        + dx >= i64::MIN && m.blur_rect.y + dy <= i64::MAX && m.blur_rect.y + dy >= i64::MIN
    &&& m.bbox matches Some(b) ==> b.x + dx <= i64::MAX && b.x + dx >= i64::MIN && b.y + dy
        <= i64::MAX && b.y + dy >= i64::MIN
}

proof fn lemma_shifted(m: Mark, b: Rect, dx: int, dy: int, iw: int, ih: int)
    requires
        m.settled(),
        m.bbox == Some(b),
        0 <= iw <= u32::MAX,
        0 <= ih <= u32::MAX,
        0 <= b.x + dx,
        0 <= b.y + dy,
        b.right() + dx <= iw * PX,
        b.bottom() + dy <= ih * PX,
        0 <= b.w,
        0 <= b.h,
    ensures
        can_shift(m, dx, dy),
        shifted(m, dx, dy).settled(),
{
    assert forall|i: int| 0 <= i < m.points.len() implies -REACH <= (#[trigger] m.points[i]).x + dx
        <= REACH && -REACH <= m.points[i].y + dy <= REACH by {
        assert(tied(m.points[i].x as int, b.left()));
    }
    let n = shifted(m, dx, dy);
    assert forall|i: int| 0 <= i < n.points.len() implies close(#[trigger] n.points[i]) && tied(
        n.points[i].x as int,
        n.bbox->0.left(),
    ) && tied(n.points[i].y as int, n.bbox->0.top()) by {
        assert(tied(m.points[i].x as int, b.left()));
        assert(-REACH <= m.points[i].x + dx <= REACH);
    }
}

fn shift_action(a: &mut Action, dx: i64, dy: i64)
    requires
        can_shift(old(a)@, dx as int, dy as int),
    ensures
        final(a)@ == shifted(old(a)@, dx as int, dy as int),
        final(a).blur_patch == old(a).blur_patch,
{
    let ghost m = a@;
    let n: usize = a.points.len();
    let mut i: usize = 0;
    while i < n
        invariant
            can_shift(m, dx as int, dy as int),
            n == m.points.len(),
            a.points@.len() == n,
            i <= n,
            a@ == (Mark { points: a.points@, ..m }),
            a.blur_patch == old(a).blur_patch,
            forall|j: int|
                0 <= j < n ==> (#[trigger] a.points@[j]) == (if j < i {
                    Point { x: (m.points[j].x + dx) as i64, y: (m.points[j].y + dy) as i64 }
                } else {
                    m.points[j]
                }),
        decreases n - i,
    {
        let p = a.points[i];
        assert(p == m.points[i as int]);
        a.points.set(i, Point { x: p.x + dx, y: p.y + dy });
        i = i + 1;
    }
    if a.tool == Tool::Blur {
        a.blur_rect = Rect {
            x: a.blur_rect.x + dx,
            y: a.blur_rect.y + dy,
            w: a.blur_rect.w,
            h: a.blur_rect.h,
        };
    }
    if let Some(b) = a.bbox {
        a.bbox = Some(Rect { x: b.x + dx, y: b.y + dy, w: b.w, h: b.h });
    }
    assert(a@.points =~= shifted(m, dx as int, dy as int).points);
}

/// A text adds no counter.
proof fn lemma_top_step(a: Seq<Mark>, b: Seq<Mark>)
    requires
        b == a || (b.len() == a.len() + 1 && b.drop_last() == a && !(b.last().tool is Counter)),
    ensures
        top_step(a, a.len() as int) == top_step(b, b.len() as int),
{
    if b != a {
        lemma_top_step_prefix(a, b, a.len() as int);
    }
}

proof fn lemma_top_step_prefix(a: Seq<Mark>, b: Seq<Mark>, n: int)
    requires
        n <= a.len() <= b.len(),
        b.take(a.len() as int) == a,
    ensures
        top_step(a, n) == top_step(b, n),
    decreases n,
{
    if n > 0 {
        lemma_top_step_prefix(a, b, n - 1);
        assert(b.take(a.len() as int)[n - 1] == b[n - 1]);
    }
}

/// A move keeps the box on the image: whatever the pointer does, no side
/// of it leaves.
pub proof fn law_move_stays(m: Mark, b: Rect, d: Point, iw: int, ih: int)
    requires
        m.bbox == Some(b),
        tight(b),
        0 <= iw <= u32::MAX,
        0 <= ih <= u32::MAX,
        0 <= b.w <= iw * PX,
        0 <= b.h <= ih * PX,
    ensures
        ({
            let dx = clamp_of(d.x as int, -b.x, iw * PX - b.right());
            let dy = clamp_of(d.y as int, -b.y, ih * PX - b.bottom());
            shifted(m, dx, dy).bbox matches Some(n) && rect_of(0, 0, iw * PX, ih * PX).holds(n)
        }),
{
}

/// The square of the distance between two points.
pub open spec fn distance2(a: Point, b: Point) -> int {
    (a.x - b.x) * (a.x - b.x) + (a.y - b.y) * (a.y - b.y)
}

/// Are the points more than two pixels apart?
fn apart(a: Point, b: Point) -> (r: bool)
    requires
        on_page(a),
        on_page(b),
    ensures
        r == (distance2(a, b) > 4 * PX * PX),
{
    let dx: i128 = a.x as i128 - b.x as i128;
    let dy: i128 = a.y as i128 - b.y as i128;
    proof {
        assert(0 <= dx * dx <= PAGE * PAGE) by (nonlinear_arith)
            requires
                -PAGE <= dx <= PAGE,
        ;
        assert(0 <= dy * dy <= PAGE * PAGE) by (nonlinear_arith)
            requires
                -PAGE <= dy <= PAGE,
        ;
        assert(PAGE * PAGE < 0x1000_0000_0000_0000_0000_0000) by (nonlinear_arith)
            requires
                PAGE == 42_949_672_960_000,
        ;
    }
    dx * dx + dy * dy > 4 * PX as i128 * PX as i128
}

/// The points of an action being drawn, after the pointer moved to `p`: a
/// stroke takes it up once it is more than two pixels on, a shape has it
/// for its second corner.
pub open spec fn drawn(tool: Tool, ps: Seq<Point>, p: Point) -> Seq<Point> {
    match tool {
        Tool::Pen | Tool::Highlight => if distance2(ps.last(), p) > 4 * PX * PX {
            ps.push(p)
        } else {
            ps
        },
        Tool::Line | Tool::Arrow | Tool::Ellipse | Tool::Rect | Tool::Blur => if ps.len() < 2 {
            ps.push(p)
        } else {
            ps.update(1, p)
        },
        Tool::Select | Tool::Text | Tool::Crop | Tool::Counter => ps,
    }
}

fn draw_to(a: &mut Action, p: Point)
    requires
        old(a)@.drawable(),
        on_page(p),
    ensures
        final(a)@ == (Mark {
            points: drawn(old(a).tool, old(a)@.points, p),
            ..old(a)@
        }),
        final(a)@.drawable(),
        final(a).blur_patch == old(a).blur_patch,
{
    let ghost m = a@;
    let n: usize = a.points.len();
    assert(on_page(m.points[n - 1]));
    match a.tool {
        Tool::Pen | Tool::Highlight => {
            if apart(a.points[n - 1], p) {
                a.points.push(p);
            }
        },
        Tool::Line | Tool::Arrow | Tool::Ellipse | Tool::Rect | Tool::Blur => {
            if n < 2 {
                a.points.push(p);
            } else {
                a.points.set(1, p);
            }
        },
        Tool::Select | Tool::Text | Tool::Crop | Tool::Counter => {},
    }
    proof {
        assert forall|i: int| 0 <= i < a@.points.len() implies on_page(#[trigger] a@.points[i])
            && close(a@.points[i]) by {
            if i < n {
                assert(on_page(m.points[i]));
            }
        }
    }
}

/// The rectangle between two points.
pub open spec fn spanned(a: Point, b: Point) -> Rect {
    rect_of(
        min_of(a.x as int, b.x as int),
        min_of(a.y as int, b.y as int),
        max_of(a.x - b.x, b.x - a.x),
        max_of(a.y - b.y, b.y - a.y),
    )
}

/// The crop rectangle, moved with the pointer and kept on the image.
pub open spec fn crop_moved(c: CropMove, p: Point, iw: int, ih: int) -> Rect {
    rect_of(
        clamp_of(c.rect.x + (p.x - c.from.x), 0, max_of(iw * PX - c.rect.w, 0)),
        clamp_of(c.rect.y + (p.y - c.from.y), 0, max_of(ih * PX - c.rect.h, 0)),
        c.rect.w as int,
        c.rect.h as int,
    )
}

impl Editor {
    /// How far a box goes with the pointer from `last` to `p`: as far as
    /// it stays on the image.
    pub open spec fn follows(self, b: Rect, last: Point, p: Point) -> (int, int) {
        (
            clamp_of(p.x - last.x, -b.x, self.base_dims.0 * PX - b.right()),
            clamp_of(p.y - last.y, -b.y, self.base_dims.1 * PX - b.bottom()),
        )
    }

    /// The action that is being moved, if it is still there, is no larger
    /// than the image, and the pointer's place that is kept with it after
    /// a move to `p` is within reach.
    pub open spec fn can_drag(self, p: Point) -> bool {
        self.move_drag matches Some(d) ==> d.index < self.actions@.len() ==> ({
            let b = self.list()[d.index as int].bbox->0;
            let (dx, dy) = self.follows(b, d.last, p);
            &&& 0 <= b.w <= self.base_dims.0 * PX
            &&& 0 <= b.h <= self.base_dims.1 * PX
            &&& -REACH <= d.last.x + dx <= REACH
            &&& -REACH <= d.last.y + dy <= REACH
        })
    }

    /// `next` is this editor after the action being moved followed the
    /// pointer to `p`: as far as its box stays on the image.
    pub open spec fn moved(self, next: Editor, p: Point) -> bool {
        let d = self.move_drag->0;
        &&& next == (Editor {
            actions: next.actions,
            move_drag: next.move_drag,
            ..self
        })
        &&& next.move_drag matches Some(e)
        &&& e.index == d.index
        &&& e.before == d.before
        &&& if d.index < self.actions@.len() {
            let m = self.list()[d.index as int];
            let (dx, dy) = self.follows(m.bbox->0, d.last, p);
            &&& next.list() == self.list().update(
                d.index as int,
                shifted(m, dx, dy),
            )
            &&& patches(next.actions@) == patches(self.actions@)
            &&& e.last.x == d.last.x + dx
            &&& e.last.y == d.last.y + dy
        } else {
            &&& next.actions == self.actions
            &&& e.last == d.last
        }
    }

    /// `next` is this editor after the pointer moved to `p`.
    pub open spec fn drags(self, next: Editor, p: Point) -> bool {
        if self.panning {
            next == self
        } else if self.move_drag is Some {
            self.moved(next, p)
        } else if self.crop_anchor is Some {
            next == (Editor {
                crop_rect: Some(spanned(self.crop_anchor->0, p)),
                ..self
            })
        } else if self.crop_move is Some {
            next == (Editor {
                crop_rect: Some(
                    crop_moved(
                        self.crop_move->0,
                        p,
                        self.base.width as int,
                        self.base.height as int,
                    ),
                ),
                ..self
            })
        } else if self.current is Some {
            let a = self.current->0;
            &&& next == (Editor { current: next.current, ..self })
            &&& next.current matches Some(b)
            &&& b@ == (Mark { points: drawn(a.tool, a@.points, p), ..a@ })
            &&& patch_of(b) == patch_of(a)
        } else {
            next == self
        }
    }

    /// The pointer moved to `p`, a point of the image: the action, the
    /// crop or the stroke in hand follows it.
    pub fn drag(&mut self, p: Point)
        requires
            old(self).wf(),
            on_page(p),
            old(self).can_drag(p),
        ensures
            final(self).wf(),
            old(self).drags(*final(self), p),
    {
        if self.panning {
            return;
        }
        if self.move_drag.is_some() {
            self.drag_action(p);
        } else if let Some(a) = self.crop_anchor {
            let x: i64 = least(a.x, p.x);
            let y: i64 = least(a.y, p.y);
            self.crop_rect = Some(Rect { x, y, w: most(a.x, p.x) - x, h: most(a.y, p.y) - y });
        } else if let Some(c) = self.crop_move {
            let iw: i64 = self.base.width as i64 * PX;
            let ih: i64 = self.base.height as i64 * PX;
            self.crop_rect = Some(
                Rect {
                    x: clamped(c.rect.x + (p.x - c.from.x), 0, most(iw - c.rect.w, 0)),
                    y: clamped(c.rect.y + (p.y - c.from.y), 0, most(ih - c.rect.h, 0)),
                    w: c.rect.w,
                    h: c.rect.h,
                },
            );
        } else if self.current.is_some() {
            let taken = self.current.take();
            if let Some(mut a) = taken {
                draw_to(&mut a, p);
                self.current = Some(a);
            }
        }
    }

    fn drag_action(&mut self, p: Point)
        requires
            old(self).wf(),
            on_page(p),
            old(self).move_drag is Some,
            old(self).can_drag(p),
        ensures
            final(self).wf(),
            old(self).moved(*final(self), p),
    {
        let taken = self.move_drag.take();
        if let Some(d) = taken {
            let mut r = Point { x: 0, y: 0 };
            if d.index < self.actions.len() {
                assert(self.list()[d.index as int].settled());
                if let Some(b) = self.actions[d.index].bbox {
                    r = self.move_action(
                        d.index,
                        Point { x: p.x - d.last.x, y: p.y - d.last.y },
                        b,
                    );
                }
            }
            let last = Point { x: d.last.x + r.x, y: d.last.y + r.y };
            self.move_drag = Some(MoveDrag { index: d.index, last, before: d.before });
        }
    }
}

/// A box on the image stays on it with the pointer, and the place that is
/// kept of the pointer stays on the image too: such a move is always
/// followed, and so is every later one.
pub proof fn law_drag_stays(e: Editor, p: Point)
    requires
        e.wf(),
        on_page(p),
        e.move_drag matches Some(d) && on_page(d.last) && d.index < e.actions@.len() && ({
            let b = e.list()[d.index as int].bbox->0;
            &&& 0 <= b.x && 0 <= b.w && b.right() <= e.base_dims.0 * PX
            &&& 0 <= b.y && 0 <= b.h && b.bottom() <= e.base_dims.1 * PX
        }),
    ensures
        e.can_drag(p),
        ({
            let d = e.move_drag->0;
            let b = e.list()[d.index as int].bbox->0;
            let (dx, dy) = e.follows(b, d.last, p);
            let to = shifted_rect(b, dx, dy);
            &&& on_page(Point { x: (d.last.x + dx) as i64, y: (d.last.y + dy) as i64 })
            &&& 0 <= to.x && to.right() <= e.base_dims.0 * PX
            &&& 0 <= to.y && to.bottom() <= e.base_dims.1 * PX
        }),
{
}

impl Editor {
    /// `next` is this editor after the pointer let a moved action go, and
    /// `plan` what to repaint for it.
    pub open spec fn releases(self, next: Editor, plan: Option<Plan>) -> bool {
        match plan {
            None => {
                &&& self.panning || (self.move_drag matches Some(d) ==> d.index
                    >= self.actions@.len())
                &&& next == (Editor {
                    move_drag: if self.panning {
                        self.move_drag
                    } else {
                        None
                    },
                    ..self
                })
            },
            Some(p) => {
                &&& !self.panning
                &&& self.move_drag matches Some(d)
                &&& d.index < self.actions@.len()
                &&& ({
                    let us = self.list();
                    let e = Past::Move(d.index as int, d.before@, us[d.index as int]);
                    &&& next == (Editor {
                        actions: next.actions,
                        undos: next.undos,
                        redos: next.redos,
                        move_drag: None,
                        ..self
                    })
                    &&& next.list() == relisted(us, region_of(e))
                    &&& patches(next.actions@) == patches(self.actions@)
                    &&& next.undos@.len() == self.undos@.len() + 1
                    &&& next.undos@.drop_last() == self.undos@
                    &&& next.undos@.last() matches Edit::Move(i, b, a)
                    &&& i == d.index && b == d.before && same_action(
                        a,
                        self.actions@[d.index as int],
                    )
                    &&& pasts(next.undos@) == pasts(self.undos@).push(e)
                    &&& next.redos@.len() == 0
                    &&& plan_for(
                        us,
                        region_of(e),
                        self.composite.width as int,
                        self.composite.height as int,
                        p,
                    )
                })
            },
        }
    }

    /// The pointer was let go: a moved action's move becomes an edit. What
    /// to repaint comes back.
    pub fn release_move(&mut self) -> (plan: Option<Plan>)
        requires
            old(self).wf(),
        ensures
            final(self).wf(),
            old(self).releases(*final(self), plan),
    {
        if self.panning {
            return None;
        }
        let taken = self.move_drag.take();
        match taken {
            None => None,
            Some(d) => {
                if d.index >= self.actions.len() {
                    return None;
                }
                let ghost ms = self.list();
                assert(ms[d.index as int].settled());
                let after = self.actions[d.index].copy();
                let edit = Edit::Move(d.index, d.before, after);
                proof {
                    lemma_pasts_push(self.undos@, edit);
                    assert(pasts(self.undos@).push(edit@).drop_last() =~= pasts(self.undos@));
                }
                let plan = rebuild_for_edit(
                    &mut self.actions,
                    &edit,
                    self.composite.width,
                    self.composite.height,
                );
                self.push_edit(edit);
                assert(self.undos@.drop_last() =~= old(self).undos@);
                Some(plan)
            },
        }
    }

    /// The pointer was let go: panning and cropping end, and what was
    /// being drawn is committed.
    pub fn release_draw(&mut self, ink: &Ink)
        requires
            old(self).wf(),
            old(self).room(1),
            ink@.wf(),
        ensures
            final(self).wf(),
            old(self).panning ==> *final(self) == (Editor { panning: false, ..*old(self) }),
            !old(self).panning ==> (Editor {
                crop_anchor: None,
                crop_move: None,
                ..*old(self)
            }).commits(*final(self), ink@),
    {
        if self.panning {
            self.panning = false;
            return;
        }
        self.crop_anchor = None;
        self.crop_move = None;
        self.commit_current(ink);
    }
}

/// What a press does, with the pointer on the image. A drawing tool starts
/// an action of its own kind in the chosen colour, at the pointer; a
/// counter's number is past every other. The text tool opens an empty text
/// there. The crop tool starts a rectangle there, or takes hold of the one
/// that is under the pointer. The selection picks the topmost action whose
/// box is under the pointer, and takes hold of it.
pub proof fn law_press(e: Editor, next: Editor, p: Point, ink: Cover, k: int)
    requires
        e.presses(next, p, ink),
        next.wf(),
        0 <= k < next.actions@.len(),
        top_step(next.list(), next.list().len() as int) < u32::MAX,
    ensures
        e.space_pan ==> next == (Editor { panning: true, ..e }),
        !e.space_pan && (e.tool is Pen || e.tool is Line || e.tool is Arrow || e.tool is Ellipse
            || e.tool is Rect || e.tool is Highlight || e.tool is Blur || e.tool is Counter) ==> {
            &&& next.current matches Some(a)
            &&& a.tool == e.tool && a.color@ == e.color@ && a.filled == e.fill
            &&& a.points@.len() == 1 && a.points@[0] == p
            &&& next.list()[k].tool is Counter ==> a.step > next.list()[k].step
        },
        !e.space_pan && e.tool is Text ==> (next.text_entry matches Some(t) && t.point == p
            && t.buffer@.len() == 0),
        !e.space_pan && e.tool is Crop && (e.crop_rect matches Some(r) && r.has(p))
            ==> next.crop_rect == e.crop_rect && next.crop_move == Some(
            CropMove { from: p, rect: e.crop_rect->0 },
        ),
        !e.space_pan && e.tool is Crop && !(e.crop_rect matches Some(r) && r.has(p))
            ==> next.crop_rect == Some(Rect { x: p.x, y: p.y, w: 0, h: 0 }) && next.crop_anchor
            == Some(p),
        !e.space_pan && e.tool is Select ==> match next.selected {
            Some(i) => {
                &&& i < next.list().len()
                &&& next.list()[i as int].bbox matches Some(b) && b.has(p)
                &&& i < k ==> !(next.list()[k].bbox matches Some(b) && b.has(p))
                &&& next.move_drag matches Some(d) && d.index == i && d.last == p
            },
            None => !(next.list()[k].bbox matches Some(b) && b.has(p)),
        },
        !e.space_pan ==> next.tool == e.tool && next.color == e.color && next.base == e.base,
{
    let ms = next.list();
    crate::action::law_hit_topmost(ms, p, ms.len() as int, k);
    crate::action::law_next_step(ms, ms.len() as int, k);
}

/// A drawn line or shape runs from where it was pressed to the pointer. A
/// free stroke keeps all its points, and gains the pointer where that is
/// more than two pixels from the last. What is not drawn by dragging stays
/// as it is.
pub proof fn law_drawn(tool: Tool, ps: Seq<Point>, p: Point)
    requires
        1 <= ps.len(),
        tool is Line || tool is Arrow || tool is Ellipse || tool is Rect || tool is Blur ==> ps.len()
            <= 2,
    ensures
        tool is Line || tool is Arrow || tool is Ellipse || tool is Rect || tool is Blur ==> {
            let q = drawn(tool, ps, p);
            q.len() == 2 && q[0] == ps[0] && q[1] == p
        },
        tool is Pen || tool is Highlight ==> {
            let q = drawn(tool, ps, p);
            &&& q.len() >= ps.len() && q.take(ps.len() as int) == ps
            &&& q == ps || q == ps.push(p)
            &&& p == ps.last() ==> q == ps
            &&& p.x - ps.last().x > 2 * PX || ps.last().x - p.x > 2 * PX || p.y - ps.last().y > 2
                * PX || ps.last().y - p.y > 2 * PX ==> q.last() == p && q.len() == ps.len() + 1
        },
        tool is Select || tool is Text || tool is Crop || tool is Counter ==> drawn(tool, ps, p)
            == ps,
{
    let (dx, dy) = (ps.last().x - p.x, ps.last().y - p.y);
    assert(dx * dx >= 0 && dy * dy >= 0) by (nonlinear_arith);
    if dx > 2 * PX || dx < -2 * PX {
        assert(dx * dx > 4 * PX * PX) by (nonlinear_arith)
            requires
                dx > 2 * PX || dx < -2 * PX,
                PX == 10_000,
        ;
    }
    if dy > 2 * PX || dy < -2 * PX {
        assert(dy * dy > 4 * PX * PX) by (nonlinear_arith)
            requires
                dy > 2 * PX || dy < -2 * PX,
                PX == 10_000,
        ;
    }
    assert(p == ps.last() ==> distance2(ps.last(), p) == 0) by {
        assert(0int * 0int == 0);
    }
    assert(ps.take(ps.len() as int) =~= ps);
    assert(ps.push(p).take(ps.len() as int) =~= ps);
}

/// A crop rectangle has the two points for opposite corners, whichever way
/// it was drawn.
pub proof fn law_crop_drawn(a: Point, b: Point)
    requires
        on_page(a) && on_page(b),
    ensures
        spanned(a, b) == spanned(b, a),
        spanned(a, b).left() == min_of(a.x as int, b.x as int),
        spanned(a, b).right() == max_of(a.x as int, b.x as int),
        spanned(a, b).top() == min_of(a.y as int, b.y as int),
        spanned(a, b).bottom() == max_of(a.y as int, b.y as int),
{
}

/// A crop rectangle that is moved keeps its size, follows the pointer, and
/// stays on the image.
pub proof fn law_crop_moved(c: CropMove, p: Point, iw: int, ih: int)
    requires
        on_page(p) && on_page(c.from),
        0 <= c.rect.x && 0 <= c.rect.w && c.rect.right() <= iw * PX,
        0 <= c.rect.y && 0 <= c.rect.h && c.rect.bottom() <= ih * PX,
        0 <= iw <= u32::MAX && 0 <= ih <= u32::MAX,
    ensures
        ({
            let q = crop_moved(c, p, iw, ih);
            let (dx, dy) = (p.x - c.from.x, p.y - c.from.y);
            &&& q.w == c.rect.w && q.h == c.rect.h
            &&& 0 <= q.x && q.right() <= iw * PX && 0 <= q.y && q.bottom() <= ih * PX
            &&& 0 <= c.rect.x + dx && c.rect.right() + dx <= iw * PX ==> q.x == c.rect.x + dx
            &&& 0 <= c.rect.y + dy && c.rect.bottom() + dy <= ih * PX ==> q.y == c.rect.y + dy
            &&& p == c.from ==> q == c.rect
        }),
{
}

/// A moved action is the same action elsewhere: every point of it, its box
/// and the rectangle that it blurs go as far the same way.
pub proof fn law_shifted(m: Mark, dx: int, dy: int, i: int)
    requires
        m.wf(),
        0 <= i < m.points.len(),
        -4 * REACH <= dx <= 4 * REACH && -4 * REACH <= dy <= 4 * REACH,
    ensures
        ({
            let n = shifted(m, dx, dy);
            &&& n == (Mark { points: n.points, blur_rect: n.blur_rect, bbox: n.bbox, ..m })
            &&& n.points.len() == m.points.len()
            &&& n.points[i].x == m.points[i].x + dx && n.points[i].y == m.points[i].y + dy
            &&& m.bbox matches Some(b) ==> (n.bbox matches Some(c) && c.x == b.x + dx && c.y == b.y
                + dy && c.w == b.w && c.h == b.h)
            &&& m.tool is Blur ==> n.blur_rect.x == m.blur_rect.x + dx && n.blur_rect.y
                == m.blur_rect.y + dy && n.blur_rect.w == m.blur_rect.w && n.blur_rect.h
                == m.blur_rect.h
        }),
{
    assert(close(m.points[i]));
}

/// An action that is dragged follows the pointer while its box has room on
/// the image.
pub proof fn law_drag_follows(e: Editor, next: Editor, p: Point)
    requires
        e.drags(next, p),
        !e.panning,
        e.move_drag matches Some(d) && d.index < e.actions@.len() && ({
            let b = e.list()[d.index as int].bbox->0;
            &&& 0 <= b.x + (p.x - d.last.x) && b.right() + (p.x - d.last.x) <= e.base_dims.0 * PX
            &&& 0 <= b.y + (p.y - d.last.y) && b.bottom() + (p.y - d.last.y) <= e.base_dims.1 * PX
        }),
    ensures
        ({
            let d = e.move_drag->0;
            &&& next.list()[d.index as int] == shifted(
                e.list()[d.index as int],
                p.x - d.last.x,
                p.y - d.last.y,
            )
            &&& next.move_drag matches Some(n) && n.last == p
            &&& forall|j: int|
                0 <= j < e.list().len() && j != d.index ==> #[trigger] next.list()[j] == e.list()[j]
        }),
{
}

/// A text is kept as it was typed, without the spaces round it; one with
/// nothing else in it is not kept.
pub proof fn law_text_kept(e: Editor, t: TextEntry)
    requires
        e.text_entry == Some(t),
    ensures
        (e.typed() is None) == (trimmed(t.buffer@).len() == 0),
        e.typed() matches Some(m) ==> m.tool is Text && m.text == Some(trimmed(t.buffer@)) && m.color
            == e.color@ && m.points.len() == 1 && m.points[0] == t.point,
{
}

} // verus!
