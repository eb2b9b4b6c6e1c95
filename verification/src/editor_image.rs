//! The editor's image: opening, decoding, cropping, turning and saving.

use vstd::prelude::*;
use crate::action::{Tool, Transform};
use crate::canvas::{Canvas, Pixel};
use crate::editor::Editor;
use crate::geom::{least, max_of, min_of, most, trunc_of, trunc_px, PX, Rect};
use crate::raster::{Cover, Ink};
use crate::rebuild::{covers_of, inks_wf, render};
use crate::text::{decimal, push_decimal};

verus! {

/// The name and size in the editor's bar.
pub open spec fn title_of(filename: Seq<char>, w: u32, h: u32) -> Seq<char> {
    filename + " · "@ + decimal(w as nat) + "×"@ + decimal(h as nat)
}

fn make_title(filename: &str, w: u32, h: u32) -> (r: String)
    ensures
        r@ == title_of(filename@, w, h),
{
    let mut t = filename.to_owned();
    t.append(" · ");
    push_decimal(&mut t, w as u64);
    t.append("×");
    push_decimal(&mut t, h as u64);
    t
}

/// A single transparent pixel: what stands in for an image that is not
/// there.
pub open spec fn is_blank(c: Canvas) -> bool {
    c.wf() && c.width == 1 && c.height == 1 && c.at(0, 0) == (Pixel { r: 0, g: 0, b: 0, a: 0 })
}

fn blank() -> (c: Canvas)
    ensures
        is_blank(c),
{
    let c = Canvas::filled(1, 1, Pixel { r: 0, g: 0, b: 0, a: 0 });
    assert(c.has(0, 0));
    c
}

impl Editor {
    /// An editor on a file of this name and size, not decoded yet, with
    /// nothing done: the pen, the middle stroke and the first red.
    pub open spec fn fresh(self, name: Seq<char>, w: u32, h: u32) -> bool {
        &&& self.wf()
        &&& self.filename@ == name
        &&& self.title@ == title_of(name, w, h)
        &&& is_blank(self.base)
        &&& is_blank(self.composite)
        &&& self.base_dims == (w, h)
        &&& self.actions@.len() == 0
        &&& self.undos@.len() == 0
        &&& self.redos@.len() == 0
        &&& self.tool is Pen
        &&& self.stroke == 1
        &&& self.color@ == "#ff453a"@
        &&& self.current is None && self.text_entry is None && self.selected is None
        &&& self.move_drag is None && self.crop_rect is None
        &&& self.crop_anchor is None && self.crop_move is None
        &&& self.status is None
        &&& !self.copy_menu && !self.help && !self.closing && !self.base_ready
        &&& !self.panning && !self.space_pan && !self.fill
    }

    /// An editor on a file of this name and size, not decoded yet.
    pub fn new(filename: String, w: u32, h: u32) -> (r: Editor)
        ensures
            r.fresh(filename@, w, h),
    {
        let title = make_title(filename.as_str(), w, h);
        proof {
            reveal_strlit("#ff453a");
        }
        let r = Editor {
            filename,
            title,
            base: blank(),
            base_dims: (w, h),
            composite: blank(),
            actions: Vec::new(),
            undos: Vec::new(),
            redos: Vec::new(),
            current: None,
            tool: Tool::Pen,
            stroke: 1,
            color: "#ff453a".to_owned(),
            text_entry: None,
            selected: None,
            move_drag: None,
            crop_rect: None,
            crop_anchor: None,
            crop_move: None,
            copy_menu: false,
            help: false,
            status: None,
            closing: false,
            base_ready: false,
            panning: false,
            space_pan: false,
            fill: false,
        };
        r
    }

    /// The file is decoded: it becomes the base, and what was drawn
    /// meanwhile is painted over it.
    pub fn decoded(&mut self, img: Canvas, inks: &Vec<Ink>)
        requires
            old(self).wf(),
            img.wf(),
            inks_wf(covers_of(inks@)),
            inks@.len() == old(self).actions@.len(),
        ensures
            final(self).wf(),
            *final(self) == (Editor {
                base: img,
                base_dims: (img.width, img.height),
                base_ready: true,
                title: final(self).title,
                composite: final(self).composite,
                actions: final(self).actions,
                ..*old(self)
            }),
            final(self).title@ == title_of(old(self).filename@, img.width, img.height),
            final(self).list() == old(self).list(),
            final(self).composite@ == render(
                img@,
                img.width as int,
                img.height as int,
                old(self).list(),
                covers_of(inks@),
                0,
                old(self).actions@.len() as int,
            ),
            (Editor { base: img, ..*old(self) }).replayed_all(*final(self), covers_of(inks@)),
    {
        self.title = make_title(self.filename.as_str(), img.width, img.height);
        self.base_dims = (img.width, img.height);
        self.composite = img.copy();
        self.base = img;
        self.base_ready = true;
        if self.actions.len() > 0 {
            self.rebuild_all(inks);
        }
    }

    /// The file could not be decoded: the status says why.
    pub fn decode_failed(&mut self, e: &str)
        requires
            old(self).wf(),
        ensures
            final(self).wf(),
            *final(self) == (Editor { status: final(self).status, ..*old(self) }),
            final(self).status matches Some(t) && t@ == "decode: "@ + e@,
    {
        self.status = Some("decode: ".to_owned().concat(e));
    }

    /// `next` is this editor with the open text and the action being drawn
    /// committed, in this order.
    pub open spec fn settles(self, next: Editor, text: Cover, stroke: Cover) -> bool {
        exists|mid: Editor|
            {
                &&& mid == (Editor {
                    text_entry: None,
                    actions: mid.actions,
                    undos: mid.undos,
                    redos: mid.redos,
                    composite: mid.composite,
                    ..self
                })
                &&& self.adds(mid, self.typed(), text)
                &&& #[trigger] mid.commits(next, stroke)
            }
    }

    fn settle(&mut self, text: &Ink, stroke: &Ink)
        requires
            old(self).wf(),
            old(self).room(2),
            text@.wf(),
            stroke@.wf(),
        ensures
            final(self).wf(),
            old(self).settles(*final(self), text@, stroke@),
            final(self).base == old(self).base,
            final(self).base_dims == old(self).base_dims,
            final(self).base_ready == old(self).base_ready,
            final(self).crop_rect == old(self).crop_rect,
            final(self).filename == old(self).filename,
            final(self).closing == old(self).closing,
    {
        self.commit_text(true, text);
        let ghost mid = *self;
        assert(self.list().len() == self.actions@.len());
        self.commit_current(stroke);
        assert(mid.commits(*self, stroke@));
    }

    /// `next` is this editor with `img` for its image: nothing is drawn on
    /// it, and nothing can be taken back.
    pub open spec fn flattened(self, next: Editor) -> bool {
        &&& next == (Editor {
            base: next.base,
            base_dims: next.base_dims,
            composite: next.composite,
            title: next.title,
            actions: next.actions,
            undos: next.undos,
            redos: next.redos,
            selected: None,
            ..self
        })
        &&& next.base_dims == (next.composite.width, next.composite.height)
        &&& next.base.width == next.composite.width
        &&& next.base.height == next.composite.height
        &&& next.base@ == next.composite@
        &&& next.title@ == title_of(self.filename@, next.base_dims.0, next.base_dims.1)
        &&& next.actions@.len() == 0
        &&& next.undos@.len() == 0
        &&& next.redos@.len() == 0
    }

    fn flatten(&mut self, img: Canvas)
        requires
            old(self).wf(),
            img.wf(),
        ensures
            final(self).wf(),
            old(self).flattened(*final(self)),
            final(self).composite == img,
    {
        self.base_dims = (img.width, img.height);
        self.title = make_title(self.filename.as_str(), img.width, img.height);
        self.base = img.copy();
        self.composite = img;
        self.actions.clear();
        self.undos.clear();
        self.redos.clear();
        self.selected = None;
    }

    /// The whole pixels of the rectangle that lie on the image: corner and
    /// size.
    pub open spec fn part(self, r: Rect) -> (int, int, int, int) {
        let x = trunc_of(max_of(r.x as int, 0));
        let y = trunc_of(max_of(r.y as int, 0));
        (
            x,
            y,
            min_of(trunc_of(r.w as int), self.composite.width - x),
            min_of(trunc_of(r.h as int), self.composite.height - y),
        )
    }

    /// A part is cut out if it is at least eight pixels either way.
    pub open spec fn cuttable(self, r: Rect) -> bool {
        self.part(r).2 >= 8 && self.part(r).3 >= 8
    }

    /// `next` is this editor cut to the rectangle, if it can be.
    pub open spec fn cuts(self, next: Editor, r: Rect) -> bool {
        let (x, y, w, h) = self.part(r);
        if self.cuttable(r) {
            &&& self.flattened(next)
            &&& next.composite.width == w
            &&& next.composite.height == h
            &&& forall|a: int, b: int|
                next.composite.has(a, b) ==> #[trigger] next.composite.at(a, b)
                    == self.composite.at(x + a, y + b)
        } else {
            next == self
        }
    }

    /// Apply the pending crop: what is drawn becomes part of the image, and
    /// the image is cut to the rectangle, if it can be. Was it?
    pub fn apply_crop(&mut self, text: &Ink, stroke: &Ink) -> (r: bool)
        requires
            old(self).wf(),
            old(self).room(2),
            text@.wf(),
            stroke@.wf(),
        ensures
            final(self).wf(),
            !old(self).base_ready ==> {
                &&& !r
                &&& *final(self) == (Editor {
                    crop_rect: None,
                    status: final(self).status,
                    ..*old(self)
                })
                &&& final(self).status matches Some(t)
                &&& t@ == "still decoding"@
            },
            old(self).base_ready && old(self).crop_rect is None ==> !r && *final(self) == *old(self),
            old(self).base_ready && old(self).crop_rect is Some ==> exists|m: Editor|
                {
                    &&& (Editor { crop_rect: None, ..*old(self) }).settles(m, text@, stroke@)
                    &&& #[trigger] m.cuts(*final(self), old(self).crop_rect->0)
                    &&& r == m.cuttable(old(self).crop_rect->0)
                },
    {
        if !self.base_ready {
            self.crop_rect = None;
            self.status = Some("still decoding".to_owned());
            return false;
        }
        let taken = self.crop_rect;
        match taken {
            None => false,
            Some(rect) => {
                self.crop_rect = None;
                self.settle(text, stroke);
                let ghost m = *self;
                let x: i64 = trunc_px(most(rect.x, 0));
                let y: i64 = trunc_px(most(rect.y, 0));
                let iw: i64 = self.composite.width as i64;
                let ih: i64 = self.composite.height as i64;
                if x >= iw || y >= ih {
                    assert(m.cuts(*self, rect));
                    return false;
                }
                let w: i64 = least(trunc_px(rect.w), iw - x);
                let h: i64 = least(trunc_px(rect.h), ih - y);
                if w < 8 || h < 8 {
                    assert(m.cuts(*self, rect));
                    return false;
                }
                let cut = self.composite.cut(x as u32, y as u32, w as u32, h as u32);
                self.flatten(cut);
                assert(m.cuts(*self, rect));
                true
            },
        }
    }
}

/// `b` is `a` turned or mirrored.
pub open spec fn turned(a: Canvas, b: Canvas, op: Transform) -> bool {
    match op {
        Transform::Rot90 => {
            &&& b.width == a.height
            &&& b.height == a.width
            &&& forall|x: int, y: int|
                b.has(x, y) ==> #[trigger] b.at(x, y) == a.at(y, a.height - 1 - x)
        },
        Transform::FlipH => {
            &&& b.width == a.width
            &&& b.height == a.height
            &&& forall|x: int, y: int|
                b.has(x, y) ==> #[trigger] b.at(x, y) == a.at(a.width - 1 - x, y)
        },
        Transform::FlipV => {
            &&& b.width == a.width
            &&& b.height == a.height
            &&& forall|x: int, y: int|
                b.has(x, y) ==> #[trigger] b.at(x, y) == a.at(x, a.height - 1 - y)
        },
    }
}

/// Do the two images have the same pixels?
pub open spec fn alike(a: Canvas, b: Canvas) -> bool {
    &&& a.width == b.width
    &&& a.height == b.height
    &&& forall|x: int, y: int| a.has(x, y) ==> #[trigger] a.at(x, y) == b.at(x, y)
}

/// An image mirrored twice the same way is as it was.
pub proof fn law_mirrored_twice(a: Canvas, b: Canvas, c: Canvas, op: Transform)
    requires
        op is FlipH || op is FlipV,
        turned(a, b, op),
        turned(b, c, op),
    ensures
        alike(c, a),
{
    assert forall|x: int, y: int| c.has(x, y) implies #[trigger] c.at(x, y) == a.at(x, y) by {
        if op is FlipH {
            assert(b.has(b.width - 1 - x, y));
            assert(c.at(x, y) == b.at(b.width - 1 - x, y));
        } else {
            assert(b.has(x, b.height - 1 - y));
            assert(c.at(x, y) == b.at(x, b.height - 1 - y));
        }
    }
}

/// An image turned four quarters is as it was.
pub proof fn law_turned_around(a: Canvas, b: Canvas, c: Canvas, d: Canvas, e: Canvas)
    requires
        turned(a, b, Transform::Rot90),
        turned(b, c, Transform::Rot90),
        turned(c, d, Transform::Rot90),
        turned(d, e, Transform::Rot90),
    ensures
        alike(e, a),
{
    assert forall|x: int, y: int| e.has(x, y) implies #[trigger] e.at(x, y) == a.at(x, y) by {
        let (p, q) = (y, d.height - 1 - x);
        assert(d.has(p, q));
        assert(e.at(x, y) == d.at(p, q));
        let (r, s) = (q, c.height - 1 - p);
        assert(c.has(r, s));
        assert(d.at(p, q) == c.at(r, s));
        let (t, u) = (s, b.height - 1 - r);
        assert(b.has(t, u));
        assert(c.at(r, s) == b.at(t, u));
    }
}

impl Editor {
    /// Turn or mirror the image; what is drawn becomes part of it. Was it
    /// done?
    pub fn transform(&mut self, op: Transform, text: &Ink, stroke: &Ink) -> (r: bool)
        requires
            old(self).wf(),
            old(self).room(2),
            text@.wf(),
            stroke@.wf(),
        ensures
            final(self).wf(),
            r == old(self).base_ready,
            !r ==> {
                &&& *final(self) == (Editor { status: final(self).status, ..*old(self) })
                &&& final(self).status matches Some(t)
                &&& t@ == "still decoding"@
            },
            r ==> exists|m: Editor|
                {
                    &&& old(self).settles(m, text@, stroke@)
                    &&& #[trigger] m.flattened(*final(self))
                    &&& turned(m.composite, final(self).composite, op)
                    &&& op is FlipH ==> {
                        &&& final(self).composite.width == m.composite.width
                        &&& final(self).composite.height == m.composite.height
                        &&& forall|x: int, y: int|
                            m.composite.has(x, y) ==> #[trigger] m.composite.at(x, y) == final(self).composite.at(m.composite.width - 1 - x, y)
                    }
                    &&& op is FlipV ==> {
                        &&& final(self).composite.width == m.composite.width
                        &&& final(self).composite.height == m.composite.height
                        &&& forall|x: int, y: int|
                            m.composite.has(x, y) ==> #[trigger] m.composite.at(x, y) == final(self).composite.at(x, m.composite.height - 1 - y)
                    }
                    &&& op is Rot90 ==> {
                        &&& final(self).composite.width == m.composite.height
                        &&& final(self).composite.height == m.composite.width
                        &&& forall|x: int, y: int|
                            m.composite.has(x, y) ==> #[trigger] m.composite.at(x, y) == final(self).composite.at(m.composite.height - 1 - y, x)
                    }
                },
    {
        if !self.base_ready {
            self.status = Some("still decoding".to_owned());
            return false;
        }
        self.settle(text, stroke);
        let ghost m = *self;
        let out = match op {
            Transform::Rot90 => self.composite.rotate90(),
            Transform::FlipH => self.composite.flip(false),
            Transform::FlipV => self.composite.flip(true),
        };
        self.flatten(out);
        assert(m.flattened(*self));
        true
    }

    /// Start the fade-out.
    pub fn discard(&mut self)
        requires
            old(self).wf(),
        ensures
            final(self).wf(),
            *final(self) == (Editor { closing: true, ..*old(self) }),
    {
        self.closing = true;
    }

    /// Finish: commit what is open, hand the picture over for saving, and
    /// start the fade-out. None: it is fading already, or not decoded yet.
    pub fn finish(&mut self, text: &Ink, stroke: &Ink) -> (r: Option<Canvas>)
        requires
            old(self).wf(),
            old(self).room(2),
            text@.wf(),
            stroke@.wf(),
        ensures
            final(self).wf(),
            r is Some == (!old(self).closing && old(self).base_ready),
            old(self).closing ==> *final(self) == *old(self),
            !old(self).closing && !old(self).base_ready ==> {
                &&& *final(self) == (Editor { status: final(self).status, ..*old(self) })
                &&& final(self).status matches Some(t)
                &&& t@ == "still decoding"@
            },
            r matches Some(img) ==> exists|m: Editor|
                {
                    &&& #[trigger] old(self).settles(m, text@, stroke@)
                    &&& img == m.composite
                    &&& *final(self) == (Editor {
                        base: final(self).base,
                        composite: final(self).composite,
                        closing: true,
                        ..m
                    })
                    &&& is_blank(final(self).base)
                    &&& is_blank(final(self).composite)
                },
    {
        if self.closing {
            return None;
        }
        if !self.base_ready {
            self.status = Some("still decoding".to_owned());
            return None;
        }
        self.settle(text, stroke);
        let ghost m = *self;
        let mut img = blank();
        std::mem::swap(&mut img, &mut self.composite);
        self.base = blank();
        self.closing = true;
        assert(old(self).settles(m, text@, stroke@));
        Some(img)
    }
}

/// Where each pixel goes. Flipped, it stays in its row and goes to the
/// column as far from the other side; flipped the other way it stays in
/// its column. Turned clockwise, the top row becomes the last column, from
/// the top down.
pub proof fn law_turned_pixels(a: Canvas, b: Canvas, op: Transform, x: int, y: int)
    requires
        turned(a, b, op),
        a.has(x, y),
    ensures
        op is FlipH ==> b.width == a.width && b.height == a.height && b.at(a.width - 1 - x, y)
            == a.at(x, y),
        op is FlipV ==> b.width == a.width && b.height == a.height && b.at(x, a.height - 1 - y)
            == a.at(x, y),
        op is Rot90 ==> b.width == a.height && b.height == a.width && b.at(a.height - 1 - y, x)
            == a.at(x, y),
{
    assert(op is FlipH ==> b.has(a.width - 1 - x, y));
    assert(op is FlipV ==> b.has(x, a.height - 1 - y));
    assert(op is Rot90 ==> b.has(a.height - 1 - y, x));
}

/// What a crop of a rectangle on the image leaves: the pixels that lie
/// inside it, in their places from its corner on. The rest of the image is
/// gone, and with it what could be undone.
pub proof fn law_cut(e: Editor, next: Editor, r: Rect, x: int, y: int)
    requires
        e.cuts(next, r),
        0 <= r.x && 0 <= r.y && r.x % PX == 0 && r.y % PX == 0,
        8 * PX <= r.w && 8 * PX <= r.h && r.w % PX == 0 && r.h % PX == 0,
        r.right() <= e.composite.width * PX && r.bottom() <= e.composite.height * PX,
    ensures
        next.composite.width * PX == r.w && next.composite.height * PX == r.h,
        next.base@ == next.composite@ && next.base_dims == (
            next.composite.width,
            next.composite.height,
        ),
        next.actions@.len() == 0 && next.undos@.len() == 0 && next.redos@.len() == 0,
        r.left() <= x * PX < r.right() && r.top() <= y * PX < r.bottom() ==> next.composite.at(
            x - r.x as int / PX as int,
            y - r.y as int / PX as int,
        ) == e.composite.at(x, y),
{
    let p = PX as int;
    let (cx, cy) = (r.x as int / p, r.y as int / p);
    assert(cx * p == r.x && cy * p == r.y);
    assert((r.w as int / p) * p == r.w && (r.h as int / p) * p == r.h);
    if r.left() <= x * PX < r.right() && r.top() <= y * PX < r.bottom() {
        assert(next.composite.has(x - cx, y - cy));
    }
}

/// A crop that would leave less than eight pixels of either side does
/// nothing.
pub proof fn law_small_cut(e: Editor, next: Editor, r: Rect)
    requires
        e.cuts(next, r),
        0 <= r.w < 8 * PX || 0 <= r.h < 8 * PX,
    ensures
        next == e,
        !e.cuttable(r),
{
}

} // verus!
