//! The editor: actions drawn on a capture, with history, selection and
//! cropping. The image beneath is `base`; `composite` is what is shown
//! and saved.

use vstd::prelude::*;
use crate::action::{
    all_settled,
    all_wf,
    bbox_of,
    on_page,
    PAGE,
    close,
    compute_bbox,
    footprint,
    footprint_of,
    marks,
    patch_of,
    patches,
    same_action,
    rect_of,
    Action,
    Mark,
    Tile,
    Tool,
    MAX_TEXT,
};
use crate::canvas::Canvas;
use crate::geom::{least, max_of, min_of, most, trunc_of, trunc_px, union_rect, Point, Rect, PX};
use crate::history::{
    apply_forward,
    apply_inverse,
    edit_wf,
    fits_forward,
    fits_inverse,
    forward,
    forward_patches,
    inverse,
    inverse_patches,
    pasts,
    redoable,
    undoable,
    Edit,
    Past,
};
use crate::mosaic::{bgra_of, pixelate_region_bgra, region_pixels};
use crate::raster::{blur_box, paint, patched, rasterize, refreshed, Cover, Ink};
use crate::rebuild::{
    apply_plan,
    closure_of,
    covers_of,
    dirty_plan,
    image_rect,
    inks_wf,
    pixels_of,
    planned,
    render,
    render_marked,
    renumbered,
    replay_actions,
    restored,
    seeded,
};

verus! {

/// Text being typed, at the point where it will stand.
pub struct TextEntry {
    pub point: Point,
    pub buffer: String,
}

/// An action being moved: its place, where the pointer was last, and the
/// action as it was.
pub struct MoveDrag {
    pub index: usize,
    pub last: Point,
    pub before: Action,
}

/// A crop rectangle being moved: pointer and rectangle at the start.
#[derive(Clone, Copy, Debug, PartialEq, Eq, Structural)]
pub struct CropMove {
    pub from: Point,
    pub rect: Rect,
}

pub struct Editor {
    pub filename: String,
    /// The name and size shown in the bar.
    pub title: String,
    /// The unedited pixels: a single one until the file is decoded.
    pub base: Canvas,
    /// The image's size, known before it is decoded.
    pub base_dims: (u32, u32),
    /// The base with every action painted over it.
    pub composite: Canvas,
    pub actions: Vec<Action>,
    pub undos: Vec<Edit>,
    pub redos: Vec<Edit>,
    /// The action being drawn.
    pub current: Option<Action>,
    pub tool: Tool,
    /// The stroke width stop, 0 to 2.
    pub stroke: u8,
    pub color: String,
    pub text_entry: Option<TextEntry>,
    pub selected: Option<usize>,
    pub move_drag: Option<MoveDrag>,
    pub crop_rect: Option<Rect>,
    pub crop_anchor: Option<Point>,
    pub crop_move: Option<CropMove>,
    pub copy_menu: bool,
    pub help: bool,
    pub status: Option<String>,
    /// The surface is fading out.
    pub closing: bool,
    /// The file is decoded.
    pub base_ready: bool,
    /// The view is being panned.
    pub panning: bool,
    /// Space is held: the pointer pans.
    pub space_pan: bool,
    /// New rectangles and ellipses are filled.
    pub fill: bool,
}

/// What has to be repainted after an edit.
pub enum Plan {
    /// The region, and which actions to replay in it.
    Dirty(Rect, Vec<bool>),
    /// Everything.
    All,
}

impl Editor {
    /// The actions, without what they last showed.
    pub open spec fn list(self) -> Seq<Mark> {
        marks(self.actions@)
    }

    /// Images are whole and of one size, every action is settled, and the
    /// history fits the list.
    pub open spec fn wf(self) -> bool {
        &&& self.base.wf()
        &&& self.composite.wf()
        &&& self.base.width == self.composite.width
        &&& self.base.height == self.composite.height
        &&& self.stroke < 3
        &&& self.color@.len() >= 1
        &&& all_settled(self.list())
        &&& self.room(0)
        &&& undoable(pasts(self.undos@), self.actions@.len() as int)
        &&& redoable(pasts(self.redos@), self.actions@.len() as int)
        &&& (self.current matches Some(a) ==> a@.drawable())
        &&& (self.text_entry matches Some(t) ==> on_page(t.point) && t.buffer@.len() <= MAX_TEXT)
        &&& (self.move_drag matches Some(d) ==> d.before@.settled() && close(d.last))
        &&& (self.crop_rect matches Some(r) ==> page_rect(r))
        &&& (self.crop_anchor matches Some(p) ==> on_page(p))
        &&& (self.crop_move matches Some(m) ==> on_page(m.from) && page_rect(m.rect))
    }

    /// The list can take `k` more actions.
    pub open spec fn room(self, k: int) -> bool {
        self.actions@.len() + k <= u32::MAX
    }
}

/// A rectangle no larger than an image, from a point of one.
pub open spec fn page_rect(r: Rect) -> bool {
    0 <= r.x <= PAGE && 0 <= r.y <= PAGE && 0 <= r.w <= PAGE && 0 <= r.h <= PAGE
}

/// Is the action kept when it is let go? A single point makes only a dot
/// of a pen, a highlighter or a counter.
pub open spec fn kept(m: Mark) -> bool {
    m.points.len() >= 2 || m.tool is Pen || m.tool is Highlight || m.tool is Counter
}

/// The whole pixels between a blur's first and last point, cut to the
/// image: corner and size.
pub open spec fn blur_area(m: Mark, bw: int, bh: int) -> (int, int, int, int) {
    let a = m.points[0];
    let b = m.points[m.points.len() - 1];
    let x = trunc_of(max_of(min_of(a.x as int, b.x as int), 0));
    let y = trunc_of(max_of(min_of(a.y as int, b.y as int), 0));
    let r = trunc_of(min_of(max_of(a.x as int, b.x as int), bw * PX));
    let t = trunc_of(min_of(max_of(a.y as int, b.y as int), bh * PX));
    (x, y, max_of(r - x, 0), max_of(t - y, 0))
}

/// The action as it is committed: a blur with its rectangle, every one
/// with its box.
pub open spec fn committed(m: Mark, bw: int, bh: int) -> Mark {
    let (x, y, w, h) = blur_area(m, bw, bh);
    let n = if m.tool is Blur {
        Mark { blur_rect: rect_of(x * PX, y * PX, w * PX, h * PX), ..m }
    } else {
        m
    };
    Mark { bbox: bbox_of(n), ..n }
}

/// Is nothing left to blur?
pub open spec fn blurs_nothing(m: Mark, bw: int, bh: int) -> bool {
    m.tool is Blur && (blur_area(m, bw, bh).2 == 0 || blur_area(m, bw, bh).3 == 0)
}

pub(crate) proof fn lemma_pasts_push(v: Seq<Edit>, e: Edit)
    ensures
        pasts(v.push(e)) == pasts(v).push(e@),
{
    assert(pasts(v.push(e)) =~= pasts(v).push(e@));
}

pub(crate) proof fn lemma_marks_push(v: Seq<Action>, a: Action)
    ensures
        marks(v.push(a)) == marks(v).push(a@),
{
    assert(marks(v.push(a)) =~= marks(v).push(a@));
}

/// A drawn action settles once it has its box.
proof fn lemma_committed(m: Mark, bw: int, bh: int)
    requires
        m.drawable(),
        0 <= bw <= u32::MAX,
        0 <= bh <= u32::MAX,
    ensures
        committed(m, bw, bh).settled(),
{
    let n = m.points.len() as int;
    assert(on_page(m.points[0]) && on_page(m.points[n - 1]));
    let c = committed(m, bw, bh);
    lemma_extent_on_page(m.points, n);
    assert forall|i: int| 0 <= i < c.points.len() implies tied_to(
        #[trigger] c.points[i],
        c.bbox->0,
    ) by {
        assert(on_page(m.points[i]));
    }
    assert(c.leashed()) by {
        assert forall|i: int| 0 <= i < c.points.len() implies crate::action::tied(
            (#[trigger] c.points[i]).x as int,
            c.bbox->0.left(),
        ) && crate::action::tied(c.points[i].y as int, c.bbox->0.top()) by {
            assert(tied_to(c.points[i], c.bbox->0));
        }
    }
}

spec fn tied_to(p: Point, b: Rect) -> bool {
    crate::action::tied(p.x as int, b.left()) && crate::action::tied(p.y as int, b.top())
}

proof fn lemma_extent_on_page(ps: Seq<Point>, n: int)
    requires
        1 <= n <= ps.len(),
        forall|i: int| 0 <= i < ps.len() ==> on_page(#[trigger] ps[i]),
    ensures
        0 <= crate::action::least_x(ps, n) <= crate::action::most_x(ps, n) <= PAGE,
        0 <= crate::action::least_y(ps, n) <= crate::action::most_y(ps, n) <= PAGE,
    decreases n,
{
    assert(on_page(ps[n - 1]));
    if n > 1 {
        lemma_extent_on_page(ps, n - 1);
    }
}

/// `next` is the stack `undos` with one more edit, which put `a` on the
/// list.
pub open spec fn added(undos: Seq<Edit>, next: Seq<Edit>, a: Action) -> bool {
    &&& next.len() == undos.len() + 1
    &&& next.drop_last() == undos
    &&& next.last() matches Edit::Add(b) && same_action(b, a)
}

impl Editor {
    /// Record an edit that was made: it can be taken back, and what was
    /// taken back before cannot be done again.
    pub(crate) fn push_edit(&mut self, edit: Edit)
        ensures
            *final(self) == (Editor {
                undos: final(self).undos,
                redos: final(self).redos,
                ..*old(self)
            }),
            final(self).undos@ == old(self).undos@.push(edit),
            final(self).redos@.len() == 0,
    {
        self.undos.push(edit);
        self.redos.clear();
    }

    /// Put a painted action at the end of the list.
    pub(crate) fn push_action(&mut self, action: Action)
        requires
            old(self).wf(),
            old(self).room(1),
            action@.settled(),
        ensures
            final(self).wf(),
            *final(self) == (Editor {
                actions: final(self).actions,
                undos: final(self).undos,
                redos: final(self).redos,
                ..*old(self)
            }),
            final(self).actions@ == old(self).actions@.push(action),
            pasts(final(self).undos@) == pasts(old(self).undos@).push(Past::Add(action@)),
            added(old(self).undos@, final(self).undos@, action),
            final(self).redos@.len() == 0,
    {
        let edit = Edit::Add(action.copy());
        proof {
            lemma_pasts_push(self.undos@, edit);
            lemma_marks_push(self.actions@, action);
            assert(pasts(self.undos@).push(edit@).drop_last() =~= pasts(self.undos@));
        }
        self.push_edit(edit);
        self.actions.push(action);
        assert(self.undos@.drop_last() =~= old(self).undos@);
        proof {
            let ms = marks(old(self).actions@);
            assert forall|i: int| 0 <= i < self.list().len() implies (
            #[trigger] self.list()[i]).settled() by {
                if i < ms.len() {
                    assert(ms[i].settled());
                }
            }
            assert(self.actions@.len() == ms.len() + 1);
            assert(undoable(pasts(self.undos@), self.actions@.len() as int));
            assert(redoable(pasts(self.redos@), self.actions@.len() as int));
        }
    }

    /// `next` is this editor after the action being drawn was let go: it
    /// is painted and put on the list, unless it is nothing or a blur of
    /// an image that is not decoded.
    pub open spec fn commits(self, next: Editor, ink: Cover) -> bool {
        match self.current {
            None => next == self,
            Some(a) => {
                let bw = self.base.width as int;
                let bh = self.base.height as int;
                let m = committed(a@, bw, bh);
                if !kept(a@) || (a.tool is Blur && self.base_ready && blurs_nothing(
                    a@,
                    bw,
                    bh,
                )) {
                    next == (Editor { current: None, ..self })
                } else if a.tool is Blur && !self.base_ready {
                    &&& next == (Editor {
                        current: None,
                        status: next.status,
                        ..self
                    })
                    &&& next.status matches Some(t)
                    &&& t@ == "still decoding"@
                } else {
                    &&& next == (Editor {
                        current: None,
                        selected: None,
                        actions: next.actions,
                        undos: next.undos,
                        redos: next.redos,
                        composite: next.composite,
                        ..self
                    })
                    &&& next.list() == self.list().push(m)
                    &&& pasts(next.undos@) == pasts(self.undos@).push(Past::Add(m))
                    &&& next.redos@.len() == 0
                    &&& next.composite@ == paint(
                        self.composite@,
                        bw,
                        bh,
                        m,
                        ink,
                    )
                    &&& next.actions@.drop_last() == self.actions@
                    &&& added(self.undos@, next.undos@, next.actions@.last())
                    &&& if a.tool is Blur {
                        patched(next.actions@.last(), next.composite@, bw, bh)
                    } else {
                        patch_of(next.actions@.last()) == patch_of(a)
                    }
                }
            },
        }
    }

    /// Paint the action being drawn and put it on the list. A blur needs
    /// the decoded image.
    pub fn commit_current(&mut self, ink: &Ink)
        requires
            old(self).wf(),
            old(self).room(1),
            ink@.wf(),
        ensures
            final(self).wf(),
            old(self).commits(*final(self), ink@),
    {
        let taken = self.current.take();
        match taken {
            None => {},
            Some(mut action) => {
                if action.points.len() < 2 && action.tool != Tool::Pen && action.tool
                    != Tool::Highlight && action.tool != Tool::Counter {
                    return;
                }
                if action.tool == Tool::Blur && !self.base_ready {
                    self.status = Some("still decoding".to_owned());
                    return;
                }
                if !paint_new(&mut self.composite, &mut action, ink) {
                    return;
                }
                proof {
                    lemma_marks_push(self.actions@, action);
                }
                self.push_action(action);
                assert(self.actions@.drop_last() =~= old(self).actions@);
                self.selected = None;
            },
        }
    }
}

/// Paint an action that was let go, and give it its box. False: it is a
/// blur of nothing.
fn paint_new(img: &mut Canvas, action: &mut Action, ink: &Ink) -> (r: bool)
    requires
        old(img).wf(),
        old(action)@.drawable(),
        ink@.wf(),
    ensures
        final(img).wf(),
        final(img).width == old(img).width,
        final(img).height == old(img).height,
        r == !blurs_nothing(old(action)@, old(img).width as int, old(img).height as int),
        !r ==> *final(img) == *old(img),
        r ==> final(action)@ == committed(
            old(action)@,
            old(img).width as int,
            old(img).height as int,
        ) && final(action)@.settled() && final(img)@ == paint(
            old(img)@,
            old(img).width as int,
            old(img).height as int,
            final(action)@,
            ink@,
        ) && if old(action).tool is Blur {
            patched(
                *final(action),
                final(img)@,
                old(img).width as int,
                old(img).height as int,
            )
        } else {
            patch_of(*final(action)) == patch_of(*old(action))
        },
{
    let ghost m = action@;
    let ghost bw = img.width as int;
    let ghost bh = img.height as int;
    let ghost c = committed(m, bw, bh);
    proof {
        lemma_committed(m, bw, bh);
    }
    if action.tool == Tool::Blur {
        if !paint_blur(img, action) {
            return false;
        }
    } else {
        let ghost before = *img;
        rasterize(img, action, ink);
        proof {
            lemma_painted(before, *img, m, c, ink@);
        }
    }
    action.bbox = compute_bbox(action);
    assert(action@ =~= c);
    assert(blur_box(c, bw, bh) == blur_box(Mark { bbox: m.bbox, ..c }, bw, bh));
    true
}

/// Painting does not look at the box.
pub(crate) proof fn lemma_painted(before: Canvas, after: Canvas, m: Mark, c: Mark, ink: Cover)
    requires
        before.width == after.width,
        before.height == after.height,
        !(m.tool is Blur),
        c == (Mark { bbox: c.bbox, ..m }),
        forall|x: int, y: int|
            before.has(x, y) ==> #[trigger] after.at(x, y) == crate::raster::painted(
                before.at(x, y),
                m,
                ink,
                x,
                y,
            ),
    ensures
        after@ == paint(before@, before.width as int, before.height as int, c, ink),
{
    let want = paint(before@, before.width as int, before.height as int, c, ink);
    before.lemma_sized();
    assert forall|x: int, y: int| after.has(x, y) implies #[trigger] after.at(x, y)
        == want[y][x] by {
        assert(before.has(x, y));
        assert(crate::raster::painted(before.at(x, y), m, ink, x, y) == crate::raster::painted(
            before.at(x, y),
            c,
            ink,
            x,
            y,
        ));
    }
    after.lemma_same(want);
}

/// Lay a new blur's mosaic. False: there is nothing to blur.
fn paint_blur(img: &mut Canvas, action: &mut Action) -> (r: bool)
    requires
        old(img).wf(),
        old(action)@.drawable(),
        old(action).tool is Blur,
    ensures
        final(img).wf(),
        final(img).width == old(img).width,
        final(img).height == old(img).height,
        ({
            let iw = old(img).width as int;
            let ih = old(img).height as int;
            let (x, y, w, h) = blur_area(old(action)@, iw, ih);
            let m = Mark { blur_rect: rect_of(x * PX, y * PX, w * PX, h * PX), ..old(action)@ };
            if w == 0 || h == 0 {
                !r && *final(img) == *old(img)
            } else {
                &&& r
                &&& final(action)@ == m
                &&& m.wf()
                &&& blur_box(m, iw, ih) == Some((x, y, w, h))
                &&& final(img)@ == crate::mosaic::mosaic(old(img)@, x, y, w, h)
                &&& final(action).blur_patch matches Some(t)
                &&& t.w == w
                &&& t.h == h
                &&& t.bgra@ == bgra_of(region_pixels(final(img)@, x, y, w, h))
            }
        }),
{
    let n: usize = action.points.len();
    proof {
        assert(on_page(action@.points[0]) && on_page(action@.points[n - 1]));
    }
    let a = action.points[0];
    let b = action.points[n - 1];
    let x: i64 = trunc_px(most(least(a.x, b.x), 0));
    let y: i64 = trunc_px(most(least(a.y, b.y), 0));
    let r: i64 = trunc_px(least(most(a.x, b.x), img.width as i64 * PX));
    let t: i64 = trunc_px(least(most(a.y, b.y), img.height as i64 * PX));
    if r <= x || t <= y {
        return false;
    }
    let w: u32 = (r - x) as u32;
    let h: u32 = (t - y) as u32;
    action.blur_rect = Rect { x: x * PX, y: y * PX, w: w as i64 * PX, h: h as i64 * PX };
    let bgra = pixelate_region_bgra(img, x as u32, y as u32, w, h);
    action.blur_patch = Some(Tile { w, h, bgra });
    true
}

/// Where an edit was: the footprints of what came, went or moved. None:
/// one of them has none.
pub open spec fn region_of(e: Past) -> Option<Rect> {
    match e {
        Past::Add(m) => footprint_of(m),
        Past::Remove(_, m) => footprint_of(m),
        Past::Move(_, a, b) => match (footprint_of(a), footprint_of(b)) {
            (Some(r), Some(t)) => Some(r.joined(t)),
            _ => None,
        },
    }
}

/// The plan after an edit at `region` that left the list `us`: the
/// closed region and its actions, once counters are numbered.
pub open spec fn plan_for(us: Seq<Mark>, region: Option<Rect>, iw: int, ih: int, plan: Plan) -> bool {
    match (region, plan) {
        (Some(r), Plan::Dirty(closed, mark)) => closure_of(
            renumbered(us),
            seeded(us, r, us.len() as int),
            image_rect(iw, ih),
            closed,
            mark@,
        ),
        (None, Plan::All) => true,
        _ => false,
    }
}

/// The list after an edit, with counters numbered where it is planned.
pub open spec fn relisted(us: Seq<Mark>, region: Option<Rect>) -> Seq<Mark> {
    if region is Some {
        renumbered(us)
    } else {
        us
    }
}

fn edit_region(edit: &Edit) -> (r: Option<Rect>)
    requires
        edit_wf(edit@),
    ensures
        r == region_of(edit@),
        r matches Some(b) ==> b.wf(),
{
    match edit {
        Edit::Add(a) => footprint(a),
        Edit::Remove(_, a) => footprint(a),
        Edit::Move(_, a, b) => match (footprint(a), footprint(b)) {
            (Some(r), Some(t)) => Some(union_rect(r, t)),
            _ => None,
        },
    }
}

/// Numbering the counters leaves every action settled.
pub proof fn lemma_renumbered_settled(ms: Seq<Mark>)
    requires
        all_settled(ms),
        ms.len() <= u32::MAX,
    ensures
        all_settled(renumbered(ms)),
{
    assert forall|i: int| 0 <= i < ms.len() implies (#[trigger] renumbered(ms)[i]).settled() by {
        assert(ms[i].settled());
        crate::rebuild::lemma_counters(ms, i + 1);
        crate::rebuild::lemma_decimal_len(crate::rebuild::counters(ms, i + 1) as nat);
        assert(crate::rebuild::numbered(ms, i).leashed());
    }
}

pub(crate) proof fn lemma_settled_wf(ms: Seq<Mark>)
    requires
        all_settled(ms),
    ensures
        all_wf(ms),
{
    assert forall|i: int| 0 <= i < ms.len() implies (#[trigger] ms[i]).wf() by {
        assert(ms[i].settled());
    }
}

/// An edit of settled actions leaves them settled, either way.
pub(crate) proof fn lemma_edit_settled(ms: Seq<Mark>, e: Past)
    requires
        all_settled(ms),
        edit_wf(e),
    ensures
        fits_forward(e, ms.len() as int) ==> all_settled(forward(ms, e)),
        fits_inverse(e, ms.len() as int) ==> all_settled(inverse(ms, e)),
{
    if fits_forward(e, ms.len() as int) {
        let us = forward(ms, e);
        assert forall|i: int| 0 <= i < us.len() implies (#[trigger] us[i]).settled() by {
            match e {
                Past::Add(_) => {
                    if i < ms.len() {
                        assert(ms[i].settled());
                    }
                },
                Past::Remove(k, _) => {
                    if i < k {
                        assert(ms[i].settled());
                    } else {
                        assert(ms[i + 1].settled());
                    }
                },
                Past::Move(k, _, _) => {
                    if i != k {
                        assert(ms[i].settled());
                    }
                },
            }
        }
    }
    if fits_inverse(e, ms.len() as int) {
        let us = inverse(ms, e);
        assert forall|i: int| 0 <= i < us.len() implies (#[trigger] us[i]).settled() by {
            match e {
                Past::Add(_) => {
                    assert(ms[i].settled());
                },
                Past::Remove(k, _) => {
                    if i < k {
                        assert(ms[i].settled());
                    } else if i > k {
                        assert(ms[i - 1].settled());
                    }
                },
                Past::Move(k, _, _) => {
                    if i != k {
                        assert(ms[i].settled());
                    }
                },
            }
        }
    }
}

/// Plan what to repaint after an edit, and number the counters.
pub(crate) fn rebuild_for_edit(actions: &mut Vec<Action>, edit: &Edit, iw: u32, ih: u32) -> (plan: Plan)
    requires
        all_settled(marks(old(actions)@)),
        edit_wf(edit@),
        old(actions)@.len() <= u32::MAX,
    ensures
        marks(final(actions)@) == relisted(marks(old(actions)@), region_of(edit@)),
        patches(final(actions)@) == patches(old(actions)@),
        final(actions)@.len() == old(actions)@.len(),
        all_settled(marks(final(actions)@)),
        plan_for(marks(old(actions)@), region_of(edit@), iw as int, ih as int, plan),
{
    proof {
        lemma_settled_wf(marks(actions@));
        lemma_renumbered_settled(marks(actions@));
    }
    match edit_region(edit) {
        Some(r) => {
            let (closed, mark) = dirty_plan(actions, r, iw, ih);
            assert(marks(actions@).len() == actions@.len());
            assert(patches(actions@) =~= patches(old(actions)@));
            Plan::Dirty(closed, mark)
        },
        None => Plan::All,
    }
}

impl Editor {
    /// Take back the last edit. What to repaint comes back.
    pub fn undo(&mut self) -> (plan: Option<Plan>)
        requires
            old(self).wf(),
            old(self).room(1),
        ensures
            final(self).wf(),
            match plan {
                None => old(self).undos@.len() == 0 && *final(self) == *old(self),
                Some(p) => {
                    let e = pasts(old(self).undos@).last();
                    let us = inverse(old(self).list(), e);
                    &&& old(self).undos@.len() > 0
                    &&& *final(self) == (Editor {
                        actions: final(self).actions,
                        undos: final(self).undos,
                        redos: final(self).redos,
                        selected: None,
                        ..*old(self)
                    })
                    &&& final(self).list() == relisted(us, region_of(e))
                    &&& patches(final(self).actions@) == inverse_patches(
                        patches(old(self).actions@),
                        old(self).undos@.last(),
                    )
                    &&& final(self).undos@ == old(self).undos@.drop_last()
                    &&& final(self).redos@ == old(self).redos@.push(old(self).undos@.last())
                    &&& pasts(final(self).undos@) == pasts(old(self).undos@).drop_last()
                    &&& pasts(final(self).redos@) == pasts(old(self).redos@).push(e)
                    &&& plan_for(
                        us,
                        region_of(e),
                        old(self).composite.width as int,
                        old(self).composite.height as int,
                        p,
                    )
                },
            },
    {
        if self.undos.len() == 0 {
            return None;
        }
        let ghost before = pasts(self.undos@);
        match self.undos.pop() {
            None => None,
            Some(edit) => {
                proof {
                    assert(edit@ == before.last());
                    assert(pasts(self.undos@) =~= before.drop_last());
                    lemma_edit_settled(self.list(), edit@);
                    lemma_pasts_push(self.redos@, edit);
                    assert(pasts(self.redos@).push(edit@).drop_last() =~= pasts(self.redos@));
                }
                apply_inverse(&mut self.actions, &edit);
                assert(self.list().len() == self.actions@.len());
                self.selected = None;
                let plan = rebuild_for_edit(
                    &mut self.actions,
                    &edit,
                    self.composite.width,
                    self.composite.height,
                );
                self.redos.push(edit);
                Some(plan)
            },
        }
    }

    /// Do the edit again that was taken back last. What to repaint comes
    /// back.
    pub fn redo(&mut self) -> (plan: Option<Plan>)
        requires
            old(self).wf(),
            old(self).room(1),
        ensures
            final(self).wf(),
            match plan {
                None => old(self).redos@.len() == 0 && *final(self) == *old(self),
                Some(p) => {
                    let e = pasts(old(self).redos@).last();
                    let us = forward(old(self).list(), e);
                    &&& old(self).redos@.len() > 0
                    &&& *final(self) == (Editor {
                        actions: final(self).actions,
                        undos: final(self).undos,
                        redos: final(self).redos,
                        selected: None,
                        ..*old(self)
                    })
                    &&& final(self).list() == relisted(us, region_of(e))
                    &&& patches(final(self).actions@) == forward_patches(
                        patches(old(self).actions@),
                        old(self).redos@.last(),
                    )
                    &&& final(self).redos@ == old(self).redos@.drop_last()
                    &&& final(self).undos@ == old(self).undos@.push(old(self).redos@.last())
                    &&& pasts(final(self).redos@) == pasts(old(self).redos@).drop_last()
                    &&& pasts(final(self).undos@) == pasts(old(self).undos@).push(e)
                    &&& plan_for(
                        us,
                        region_of(e),
                        old(self).composite.width as int,
                        old(self).composite.height as int,
                        p,
                    )
                },
            },
    {
        if self.redos.len() == 0 {
            return None;
        }
        let ghost before = pasts(self.redos@);
        match self.redos.pop() {
            None => None,
            Some(edit) => {
                proof {
                    assert(edit@ == before.last());
                    assert(pasts(self.redos@) =~= before.drop_last());
                    lemma_edit_settled(self.list(), edit@);
                    lemma_pasts_push(self.undos@, edit);
                    assert(pasts(self.undos@).push(edit@).drop_last() =~= pasts(self.undos@));
                }
                apply_forward(&mut self.actions, &edit);
                assert(self.list().len() == self.actions@.len());
                self.selected = None;
                let plan = rebuild_for_edit(
                    &mut self.actions,
                    &edit,
                    self.composite.width,
                    self.composite.height,
                );
                self.undos.push(edit);
                Some(plan)
            },
        }
    }

    /// Take the selected action out. What to repaint comes back.
    pub fn delete_selected(&mut self) -> (plan: Option<Plan>)
        requires
            old(self).wf(),
        ensures
            final(self).wf(),
            match plan {
                None => {
                    &&& old(self).selected matches Some(i) ==> i >= old(self).actions@.len()
                    &&& *final(self) == (Editor { selected: None, ..*old(self) })
                },
                Some(p) => {
                    &&& old(self).selected matches Some(i)
                    &&& i < old(self).actions@.len()
                    &&& ({
                        let e = Past::Remove(i as int, old(self).list()[i as int]);
                        let us = old(self).list().remove(i as int);
                        &&& *final(self) == (Editor {
                            actions: final(self).actions,
                            undos: final(self).undos,
                            redos: final(self).redos,
                            selected: None,
                            ..*old(self)
                        })
                        &&& final(self).list() == relisted(us, region_of(e))
                        &&& patches(final(self).actions@) == patches(old(self).actions@).remove(
                            i as int,
                        )
                        &&& final(self).undos@ == old(self).undos@.push(
                            Edit::Remove(i, old(self).actions@[i as int]),
                        )
                        &&& pasts(final(self).undos@) == pasts(old(self).undos@).push(e)
                        &&& final(self).redos@.len() == 0
                        &&& plan_for(
                            us,
                            region_of(e),
                            old(self).composite.width as int,
                            old(self).composite.height as int,
                            p,
                        )
                    })
                },
            },
    {
        let chosen = self.selected;
        self.selected = None;
        match chosen {
            None => None,
            Some(i) => {
                if i >= self.actions.len() {
                    return None;
                }
                let ghost ms = self.list();
                let ghost n = self.actions@.len() as int;
                let removed = self.actions.remove(i);
                let edit = Edit::Remove(i, removed);
                proof {
                    assert(self.list() =~= ms.remove(i as int));
                    assert(patches(self.actions@) =~= patches(old(self).actions@).remove(i as int));
                    assert(ms[i as int].settled());
                    lemma_edit_settled(ms, edit@);
                    assert(all_settled(self.list()));
                    lemma_pasts_push(self.undos@, edit);
                    assert(pasts(self.undos@).push(edit@).drop_last() =~= pasts(self.undos@));
                }
                let plan = rebuild_for_edit(
                    &mut self.actions,
                    &edit,
                    self.composite.width,
                    self.composite.height,
                );
                self.push_edit(edit);
                proof {
                    assert(self.actions@.len() == n - 1);
                    assert(undoable(pasts(self.undos@), n - 1));
                    assert(redoable(pasts(self.redos@), n - 1));
                }
                Some(plan)
            },
        }
    }

    /// `next` has each action as replaying them all leaves it: a blur with
    /// what it then showed as its patch.
    pub open spec fn replayed_all(self, next: Editor, inks: Seq<Cover>) -> bool {
        let iw = self.base.width as int;
        let ih = self.base.height as int;
        forall|i: int|
            0 <= i < self.actions@.len() ==> refreshed(
                self.actions@[i],
                #[trigger] next.actions@[i],
                render(self.base@, iw, ih, self.list(), inks, 0, i + 1),
                iw,
                ih,
            )
    }

    /// `next` has each marked action as replaying the marked ones on the
    /// restored region leaves it, and the others as they were.
    pub open spec fn replayed(
        self,
        next: Editor,
        inks: Seq<Cover>,
        closed: Rect,
        mark: Seq<bool>,
    ) -> bool {
        let iw = self.base.width as int;
        let ih = self.base.height as int;
        let (x, y, w, h) = pixels_of(closed, iw, ih);
        let start = restored(self.base@, self.composite@, x, y, w, h);
        forall|i: int|
            0 <= i < self.actions@.len() ==> if mark[i] && w > 0 && h > 0 {
                refreshed(
                    self.actions@[i],
                    #[trigger] next.actions@[i],
                    render_marked(start, iw, ih, self.list(), inks, mark, i + 1),
                    iw,
                    ih,
                )
            } else {
                next.actions@[i] == self.actions@[i]
            }
    }

    /// Repaint what a plan names. `inks` holds what each action covers.
    pub fn rebuild(&mut self, plan: &Plan, inks: &Vec<Ink>)
        requires
            old(self).wf(),
            inks_wf(covers_of(inks@)),
            inks@.len() == old(self).actions@.len(),
            plan matches Plan::Dirty(closed, mark) ==> closed.wf() && mark@.len() == old(self).actions@.len(),
        ensures
            final(self).wf(),
            *final(self) == (Editor {
                actions: final(self).actions,
                composite: final(self).composite,
                ..*old(self)
            }),
            final(self).list() == old(self).list(),
            final(self).composite.width == old(self).composite.width,
            final(self).composite.height == old(self).composite.height,
            final(self).composite@ == (match *plan {
                Plan::Dirty(closed, mark) => planned(
                    old(self).base@,
                    old(self).composite@,
                    old(self).base.width as int,
                    old(self).base.height as int,
                    old(self).list(),
                    covers_of(inks@),
                    closed,
                    mark@,
                ),
                Plan::All => render(
                    old(self).base@,
                    old(self).base.width as int,
                    old(self).base.height as int,
                    old(self).list(),
                    covers_of(inks@),
                    0,
                    old(self).actions@.len() as int,
                ),
            }),
            match *plan {
                Plan::Dirty(closed, mark) => old(self).replayed(
                    *final(self),
                    covers_of(inks@),
                    closed,
                    mark@,
                ),
                Plan::All => old(self).replayed_all(*final(self), covers_of(inks@)),
            },
    {
        proof {
            lemma_settled_wf(self.list());
        }
        match plan {
            Plan::Dirty(closed, mark) => {
                apply_plan(
                    &self.base,
                    &mut self.composite,
                    &mut self.actions,
                    inks,
                    *closed,
                    mark,
                );
                assert(self.list().len() == self.actions@.len());
            },
            Plan::All => {
                self.rebuild_all(inks);
            },
        }
    }

    /// Repaint everything: the base, and every action in order.
    pub fn rebuild_all(&mut self, inks: &Vec<Ink>)
        requires
            old(self).wf(),
            inks_wf(covers_of(inks@)),
            inks@.len() == old(self).actions@.len(),
        ensures
            final(self).wf(),
            *final(self) == (Editor {
                actions: final(self).actions,
                composite: final(self).composite,
                ..*old(self)
            }),
            final(self).list() == old(self).list(),
            final(self).composite.width == old(self).composite.width,
            final(self).composite.height == old(self).composite.height,
            final(self).composite@ == render(
                old(self).base@,
                old(self).base.width as int,
                old(self).base.height as int,
                old(self).list(),
                covers_of(inks@),
                0,
                old(self).actions@.len() as int,
            ),
            old(self).replayed_all(*final(self), covers_of(inks@)),
    {
        proof {
            lemma_settled_wf(self.list());
        }
        self.composite = self.base.copy();
        replay_actions(&mut self.composite, &mut self.actions, inks, 0);
        assert(self.list().len() == self.actions@.len());
    }

    /// Take every action out, for good: the base is shown again.
    pub fn clear(&mut self)
        requires
            old(self).wf(),
        ensures
            final(self).wf(),
            *final(self) == (Editor {
                actions: final(self).actions,
                undos: final(self).undos,
                redos: final(self).redos,
                composite: final(self).composite,
                selected: None,
                ..*old(self)
            }),
            final(self).actions@.len() == 0,
            final(self).undos@.len() == 0,
            final(self).redos@.len() == 0,
            final(self).composite@ == old(self).base@,
    {
        self.actions.clear();
        self.undos.clear();
        self.redos.clear();
        self.selected = None;
        self.composite = self.base.copy();
    }
}

/// A blur covers the pixels between the corners that it was drawn between,
/// whichever way, as far as the image reaches.
pub proof fn law_blur_area(m: Mark, bw: int, bh: int, x: int, y: int)
    requires
        m.points.len() >= 1,
        on_page(m.points[0]) && on_page(m.points.last()),
        0 <= x < bw && 0 <= y < bh,
    ensures
        ({
            let (a, b) = (m.points[0], m.points.last());
            let (x0, y0, w, h) = blur_area(m, bw, bh);
            &&& 0 <= x0 && 0 <= y0 && 0 <= w && 0 <= h
            &&& (x0 <= x < x0 + w) == ((x + 1) * PX > min_of(a.x as int, b.x as int) && (x + 1) * PX
                <= max_of(a.x as int, b.x as int))
            &&& (y0 <= y < y0 + h) == ((y + 1) * PX > min_of(a.y as int, b.y as int) && (y + 1) * PX
                <= max_of(a.y as int, b.y as int))
        }),
{
}

/// What is committed is the action as it was drawn, with its box; a blur
/// has its rectangle too.
pub proof fn law_committed(m: Mark, bw: int, bh: int)
    ensures
        ({
            let c = committed(m, bw, bh);
            &&& c == (Mark { bbox: c.bbox, blur_rect: c.blur_rect, ..m })
            &&& !(m.tool is Blur) ==> c.blur_rect == m.blur_rect && c.bbox == bbox_of(m)
            &&& m.tool is Blur ==> c.bbox == Some(c.blur_rect)
        }),
{
}

/// A blur that is committed blurs just the pixels between the corners that
/// it was drawn between; the rest of the image is left as it was.
pub proof fn law_blur_paints(m: Mark, ink: Cover, pic: crate::canvas::Picture, bw: int, bh: int, x: int, y: int)
    requires
        m.tool is Blur,
        m.points.len() >= 1,
        on_page(m.points[0]) && on_page(m.points.last()),
        0 <= x < bw && 0 <= y < bh,
        bw <= u32::MAX && bh <= u32::MAX,
        crate::canvas::sized(pic, bw, bh),
        !blurs_nothing(m, bw, bh),
    ensures
        ({
            let (a, b) = (m.points[0], m.points.last());
            let (x0, y0, w, h) = blur_area(m, bw, bh);
            let out = paint(pic, bw, bh, committed(m, bw, bh), ink);
            let inside = (x + 1) * PX > min_of(a.x as int, b.x as int) && (x + 1) * PX <= max_of(
                a.x as int,
                b.x as int,
            ) && (y + 1) * PX > min_of(a.y as int, b.y as int) && (y + 1) * PX <= max_of(
                a.y as int,
                b.y as int,
            );
            &&& !inside ==> out[y][x] == pic[y][x]
            &&& inside ==> out[y][x] == crate::mosaic::mosaic(pic, x0, y0, w, h)[y][x]
        }),
{
    law_blur_area(m, bw, bh, x, y);
    let (x0, y0, w, h) = blur_area(m, bw, bh);
    let c = committed(m, bw, bh);
    assert((x0 * PX) / PX as int == x0 && (y0 * PX) / PX as int == y0);
    assert((w * PX) / PX as int == w && (h * PX) / PX as int == h);
    assert(blur_box(c, bw, bh) == Some((x0, y0, w, h)));
}

/// A line, a shape or a blur of a single point is not kept; a dot of the
/// pen or the highlighter and a counter are.
pub proof fn law_kept(m: Mark)
    ensures
        m.points.len() >= 2 ==> kept(m),
        m.points.len() == 1 ==> (kept(m) == (m.tool is Pen || m.tool is Highlight
            || m.tool is Counter)),
{
}

/// What is repainted after an edit holds the action as it was and as it
/// is.
pub proof fn law_edit_region(e: Past, r: Rect)
    requires
        edit_wf(e),
        region_of(e) == Some(r),
    ensures
        e matches Past::Add(m) ==> (footprint_of(m) matches Some(f) && r.holds(f)),
        e matches Past::Remove(_, m) ==> (footprint_of(m) matches Some(f) && r.holds(f)),
        e matches Past::Move(_, a, b) ==> (footprint_of(a) matches Some(f) && r.holds(f)) && (
        footprint_of(b) matches Some(f) && r.holds(f)),
{
    match e {
        Past::Move(_, a, b) => {
            crate::action::law_footprint(a);
            crate::action::law_footprint(b);
        },
        _ => {},
    }
}

} // verus!
