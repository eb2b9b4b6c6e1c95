//! The region picker: what the pointer, the keys and the arriving frame
//! do to it, and how a selection is committed.

use vstd::prelude::*;
use crate::card::{card_of, card_rest_rect, rest_of};
use crate::config::ToastPosition;
use crate::geom::{clamp_of, clamped, floor_div, least, max_of, min_of, most, Point, Rect, FAR, PX};
use crate::loupe::{loupe_image, Frame, Loupe};
use crate::overlay::{gripped, handle, handle_of, selectable, spanned, window_size, Lens, MIN_SIZE, PIXEL_FAR, Picked};
use crate::pipeline::{crop_bgra, cropped, inside, offset, region_error, Region};
use crate::screen::{host, host_of, WinRect};

verus! {

/// What a committed selection is for.
#[derive(Clone, Copy, Debug, PartialEq, Eq, Structural)]
pub enum OverlayMode {
    Capture,
    RecordPick,
}

/// A capture on its way from its selection to the toast's card.
#[derive(Clone, Copy, Debug, PartialEq, Eq, Structural)]
pub struct Flight {
    pub from: Rect,
    pub to: Rect,
    pub started: u64,
    /// The monitor it lands on, in logical coordinates of the screen.
    pub screen: Rect,
}

/// The settings a session was opened with.
#[derive(Clone, Copy, Debug, PartialEq, Eq, Structural)]
pub struct Session {
    pub position: ToastPosition,
    pub show_toast: bool,
}

pub struct Overlay {
    /// Parked: the window waits for the next capture.
    pub hidden: bool,
    pub mode: OverlayMode,
    /// None until the grab lands.
    pub frame: Option<Frame>,
    pub origin: (i32, i32),
    pub view: (u32, u32),
    pub monitors: Vec<WinRect>,
    /// Bottom to top.
    pub windows: Vec<WinRect>,
    pub dragging: bool,
    pub anchor: Point,
    /// The handle that is dragged and the selection it was pressed on.
    pub resize: Option<(usize, Rect)>,
    /// Where in the selection the pointer grabbed it.
    pub moving: Option<Point>,
    pub current: Option<Picked>,
    pub hovered: Option<WinRect>,
    pub cursor: Point,
    pub loupe: Option<Loupe>,
    /// The frame pixel that the loupe is for.
    pub loupe_at: Option<(i64, i64)>,
    pub finishing: bool,
    /// Confirmed before the frame landed.
    pub pending_finish: bool,
    pub opened: Option<u64>,
    pub hover_in: Option<u64>,
    pub hover_out: Option<(WinRect, u64)>,
    pub flight: Option<Flight>,
    pub finalize_failed: bool,
    /// The saved capture waits for its flight to end.
    pub landed: bool,
    pub session: Session,
}

/// A point inside a selection, from its corner.
pub open spec fn grabbed(p: Point) -> bool {
    0 <= p.x <= 2 * FAR && 0 <= p.y <= 2 * FAR
}

/// A monitor's sides fit in screen coordinates.
pub open spec fn monitor_wf(m: WinRect) -> bool {
    m.width <= i32::MAX && m.height <= i32::MAX
}

impl Overlay {
    pub open spec fn lens(self, size: (i64, i64)) -> Lens {
        Lens { origin: self.origin, view: self.view, size }
    }

    /// Is there a part of the screen to show?
    pub open spec fn sees(self) -> bool {
        self.view.0 > 0 && self.view.1 > 0
    }

    pub open spec fn wf(self) -> bool {
        &&& self.frame matches Some(f) ==> f.wf()
        &&& spanned(self.anchor) && spanned(self.cursor)
        &&& self.resize matches Some(h) ==> h.0 < 8 && selectable(h.1)
        &&& self.moving matches Some(p) ==> grabbed(p)
        &&& self.current matches Some(p) ==> match p {
            Picked::Free(r) => selectable(r),
            Picked::Snap(_) => self.sees(),
        }
        &&& !self.sees() ==> self.windows@.len() == 0 && self.monitors@.len() == 0
        &&& !self.sees() ==> self.hovered is None && self.hover_out is None
        &&& self.flight matches Some(f) ==> f.from.wf() && f.to.wf()
        &&& self.view.0 <= i32::MAX && self.view.1 <= i32::MAX
        &&& self.origin.0 + self.view.0 <= i32::MAX && self.origin.1 + self.view.1 <= i32::MAX
        &&& forall|i: int| 0 <= i < self.monitors@.len() ==> monitor_wf(#[trigger] self.monitors@[i])
    }

    /// The window has a size that the picker can work with.
    pub open spec fn fits(self, size: (i64, i64)) -> bool {
        self.lens(size).wf()
    }

    /// Where the window shows the selection.
    pub open spec fn shown(self, size: (i64, i64)) -> Option<Rect> {
        match self.current {
            Some(p) => Some(self.lens(size).rect(p)),
            None => None,
        }
    }

    pub(crate) fn lens_of(&self, size: (i64, i64)) -> (r: Lens)
        ensures
            r == self.lens(size),
    {
        Lens { origin: self.origin, view: self.view, size }
    }

    /// Where the window shows the selection.
    pub fn selection_rect(&self, size: (i64, i64)) -> (r: Option<Rect>)
        requires
            self.wf(),
            self.fits(size),
        ensures
            r == self.shown(size),
            r matches Some(q) ==> selectable(q),
    {
        match self.current {
            Some(p) => Some(self.lens_of(size).rect_of(p)),
            None => None,
        }
    }

    /// The handle of the selection that `p` is in.
    pub fn handle_at(&self, p: Point, size: (i64, i64)) -> (h: Option<usize>)
        requires
            self.wf(),
            self.fits(size),
            spanned(p),
        ensures
            h == (match self.shown(size) {
                Some(r) => gripped(r, p, 0),
                None => None,
            }),
            h matches Some(i) ==> i < 8,
    {
        match self.selection_rect(size) {
            Some(r) => handle_of(r, p),
            None => None,
        }
    }
}

/// A selection of this place, carried so that the point `off` of it is
/// at `p`, kept in the window.
pub open spec fn carried(r: Rect, off: Point, p: Point, size: (i64, i64)) -> Rect {
    Rect {
        x: clamp_of(p.x - off.x, 0, size.0 - r.w) as i64,
        y: clamp_of(p.y - off.y, 0, size.1 - r.h) as i64,
        ..r
    }
}

/// The ends of a span, in order and kept in the window.
pub open spec fn kept_span(a: int, b: int, size: int) -> (int, int) {
    (clamp_of(min_of(a, b), 0, size), clamp_of(max_of(a, b), 0, size))
}

/// Does handle `h` move this edge of the selection?
pub open spec fn moves_left(h: int) -> bool {
    h == 0 || h == 2 || h == 6
}

pub open spec fn moves_right(h: int) -> bool {
    h == 1 || h == 3 || h == 7
}

pub open spec fn moves_top(h: int) -> bool {
    h == 0 || h == 1 || h == 4
}

pub open spec fn moves_bottom(h: int) -> bool {
    h == 2 || h == 3 || h == 5
}

/// Selection `r` with the edges of handle `h` at `p`, kept in the window.
pub open spec fn reshaped(r: Rect, h: int, p: Point, size: (i64, i64)) -> Rect {
    let (x0, x1) = kept_span(
        if moves_left(h) {
            p.x as int
        } else {
            r.left()
        },
        if moves_right(h) {
            p.x as int
        } else {
            r.right()
        },
        size.0 as int,
    );
    let (y0, y1) = kept_span(
        if moves_top(h) {
            p.y as int
        } else {
            r.top()
        },
        if moves_bottom(h) {
            p.y as int
        } else {
            r.bottom()
        },
        size.1 as int,
    );
    Rect { x: x0 as i64, y: y0 as i64, w: (x1 - x0) as i64, h: (y1 - y0) as i64 }
}

/// Carry a selection.
pub fn carry(r: Rect, off: Point, p: Point, size: (i64, i64)) -> (q: Rect)
    requires
        selectable(r),
        grabbed(off),
        spanned(p),
        window_size(size),
        r.w <= size.0 && r.h <= size.1,
    ensures
        q == carried(r, off, p, size),
        selectable(q),
        0 <= q.x && q.right() <= size.0,
        0 <= q.y && q.bottom() <= size.1,
{
    Rect {
        x: clamped(p.x - off.x, 0, size.0 - r.w),
        y: clamped(p.y - off.y, 0, size.1 - r.h),
        w: r.w,
        h: r.h,
    }
}

/// Drag a handle of a selection. Both edges stay in the window.
pub fn reshape(r: Rect, h: usize, p: Point, size: (i64, i64)) -> (q: Rect)
    requires
        selectable(r),
        h < 8,
        window_size(size),
    ensures
        q == reshaped(r, h as int, p, size),
        selectable(q),
        0 <= q.x && q.right() <= size.0,
        0 <= q.y && q.bottom() <= size.1,
{
    let x0: i64 = if h == 0 || h == 2 || h == 6 {
        p.x
    } else {
        r.x
    };
    let x1: i64 = if h == 1 || h == 3 || h == 7 {
        p.x
    } else {
        r.x + r.w
    };
    let y0: i64 = if h == 0 || h == 1 || h == 4 {
        p.y
    } else {
        r.y
    };
    let y1: i64 = if h == 2 || h == 3 || h == 5 {
        p.y
    } else {
        r.y + r.h
    };
    let left: i64 = clamped(least(x0, x1), 0, size.0);
    let right: i64 = clamped(most(x0, x1), 0, size.0);
    let top: i64 = clamped(least(y0, y1), 0, size.1);
    let bottom: i64 = clamped(most(y0, y1), 0, size.1);
    Rect { x: left, y: top, w: right - left, h: bottom - top }
}

/// A handle moves only its own edges: every other edge of a selection
/// inside the window stays, while the pointer is on its side.
pub proof fn law_reshape_keeps(r: Rect, h: int, p: Point, size: (i64, i64))
    requires
        0 <= h < 8,
        selectable(r),
        window_size(size),
        0 <= r.x && r.right() <= size.0,
        0 <= r.y && r.bottom() <= size.1,
    ensures
        !moves_left(h) && !moves_right(h) ==> {
            let q = reshaped(r, h, p, size);
            q.x == r.x && q.w == r.w
        },
        !moves_top(h) && !moves_bottom(h) ==> {
            let q = reshaped(r, h, p, size);
            q.y == r.y && q.h == r.h
        },
        moves_left(h) && p.x <= r.right() ==> reshaped(r, h, p, size).right() == r.right(),
        moves_right(h) && p.x >= r.x ==> reshaped(r, h, p, size).x == r.x,
        moves_top(h) && p.y <= r.bottom() ==> reshaped(r, h, p, size).bottom() == r.bottom(),
        moves_bottom(h) && p.y >= r.y ==> reshaped(r, h, p, size).y == r.y,
{
}

impl Overlay {
    /// The loupe after it was asked for frame pixel `at`: one that is for
    /// that pixel already stays; without a frame nothing is made.
    pub open spec fn louped(self, before: Overlay, at: (i64, i64)) -> bool {
        &&& self.loupe_at == Some(at)
        &&& if before.loupe_at != Some(at) && before.frame is Some {
            self.loupe matches Some(l) && l.of(before.frame->0, at.0 as int, at.1 as int)
        } else {
            self.loupe == before.loupe
        }
    }

    /// Make the loupe for frame pixel `at`.
    pub fn update_loupe(&mut self, at: (i64, i64))
        requires
            old(self).wf(),
            -PIXEL_FAR <= at.0 <= PIXEL_FAR,
            -PIXEL_FAR <= at.1 <= PIXEL_FAR,
        ensures
            final(self).wf(),
            final(self).louped(*old(self), at),
            *final(self) == (Overlay {
                loupe: final(self).loupe,
                loupe_at: Some(at),
                ..*old(self)
            }),
    {
        if let Some(was) = self.loupe_at {
            if was.0 == at.0 && was.1 == at.1 {
                return;
            }
        }
        self.loupe_at = Some(at);
        let made: Option<Loupe> = match &self.frame {
            Some(f) => Some(loupe_image(f, at.0, at.1)),
            None => None,
        };
        if made.is_some() {
            self.loupe = made;
        }
    }
}

/// A committed capture.
pub struct Capture {
    /// The region's pixels in BGRA order.
    pub crop: Vec<u8>,
    pub region: Region,
}

/// What a confirmed selection comes to.
pub enum Outcome {
    Nothing,
    /// The frame is not there yet.
    Pending,
    /// No pixel of the frame is selected.
    Cancelled,
    /// Record this part of the screen.
    Record(WinRect),
    /// The capture is lost, for this reason.
    Failed(String),
    Captured(Capture),
}

impl Overlay {
    /// Parked: its images are let go.
    pub open spec fn parked(self) -> Overlay {
        Overlay { hidden: true, frame: None, flight: None, loupe: None, ..self }
    }

    pub open spec fn cancelled(self) -> Overlay {
        (Overlay { pending_finish: false, ..self }).parked()
    }

    /// A region of the frame, on the screen.
    pub open spec fn on_screen(self, g: Region) -> WinRect {
        WinRect {
            x: (g.x + self.origin.0) as i32,
            y: (g.y + self.origin.1) as i32,
            width: g.width,
            height: g.height,
        }
    }

    /// The monitor a region is on: the one that has its middle, else the
    /// first, else all that is shown.
    pub open spec fn host_for(self, g: Region) -> WinRect {
        match host_of(
            self.monitors@,
            self.on_screen(g),
        ) {
            Some(m) => m,
            None => WinRect {
                x: self.origin.0,
                y: self.origin.1,
                width: self.view.0,
                height: self.view.1,
            },
        }
    }

    /// The flight of a region from its selection to the card of its
    /// monitor's toast.
    pub open spec fn flight_of(
        self,
        from: Rect,
        g: Region,
        size: (i64, i64),
        scale: i64,
        now: u64,
    ) -> Flight {
        let m = self.host_for(g);
        let at = self.lens(size).logical(m);
        let card = card_of(g.width as int, g.height as int);
        let rest = rest_of(self.session.position, at.w as int, at.h as int, card.0, card.1);
        Flight {
            from,
            to: Rect { x: (at.x + rest.x) as i64, y: (at.y + rest.y) as i64, w: rest.w, h: rest.h },
            started: now,
            screen: Rect {
                x: ((m.x * (PX * PX)) / scale as int) as i64,
                y: ((m.y * (PX * PX)) / scale as int) as i64,
                w: ((m.width * (PX * PX)) / scale as int) as i64,
                h: ((m.height * (PX * PX)) / scale as int) as i64,
            },
        }
    }

    /// What confirming the selection of `self` gives: the picker `after`
    /// it, and the outcome.
    #[verifier::opaque]
    pub open spec fn finishes(
        self,
        after: Overlay,
        size: (i64, i64),
        scale: i64,
        now: u64,
        r: Outcome,
    ) -> bool {
        let started = Overlay { finishing: true, ..self };
        match self.shown(size) {
            None => r is Nothing && after == self,
            Some(rect) => if self.finishing || rect.w < MIN_SIZE || rect.h < MIN_SIZE {
                r is Nothing && after == self
            } else {
                match self.frame {
                    None => r is Pending && after == (Overlay { pending_finish: true, ..self }),
                    Some(f) => {
                        let g = self.lens(size).region(self.current->0);
                        if g.width == 0 || g.height == 0 {
                            r is Cancelled && after == started.cancelled()
                        } else if self.mode is RecordPick {
                            &&& r == Outcome::Record(self.on_screen(g))
                            &&& after == started.parked()
                        } else if !inside(f.width, f.height, g) {
                            &&& r matches Outcome::Failed(e) && e@ == region_error(
                                f.width,
                                f.height,
                                g,
                            )
                            &&& after == started.cancelled()
                        } else {
                            &&& r matches Outcome::Captured(c) && c.region == g && c.crop@
                                == cropped(f.bgra@, f.width, g, false)
                            &&& after == (if self.session.show_toast {
                                Overlay {
                                    flight: Some(self.flight_of(rect, g, size, scale, now)),
                                    current: None,
                                    hovered: None,
                                    ..started
                                }
                            } else {
                                started.parked()
                            })
                        }
                    },
                }
            },
        }
    }

    /// Park the window: the next capture reuses it.
    pub fn park(&mut self)
        requires
            old(self).wf(),
        ensures
            final(self).wf(),
            *final(self) == old(self).parked(),
    {
        self.hidden = true;
        self.frame = None;
        self.flight = None;
        self.loupe = None;
    }

    /// Give the session up.
    pub fn cancel(&mut self)
        requires
            old(self).wf(),
        ensures
            final(self).wf(),
            *final(self) == old(self).cancelled(),
    {
        self.pending_finish = false;
        self.park();
    }

    /// A region of the frame, on the screen.
    fn to_screen(&self, g: Region) -> (w: WinRect)
        requires
            self.wf(),
            g.x <= self.view.0 && g.y <= self.view.1,
        ensures
            w == self.on_screen(g),
    {
        WinRect {
            x: (g.x as i64 + self.origin.0 as i64) as i32,
            y: (g.y as i64 + self.origin.1 as i64) as i32,
            width: g.width,
            height: g.height,
        }
    }

    /// The monitor a region of the frame is on.
    fn host_rect(&self, g: Region) -> (m: WinRect)
        requires
            self.wf(),
            g.x <= self.view.0 && g.y <= self.view.1,
        ensures
            m == self.host_for(g),
            monitor_wf(m),
    {
        let at = self.to_screen(g);
        match host(at, &self.monitors) {
            Some(m) => {
                proof {
                    lemma_host_in(self.monitors@, at);
                }
                m
            },
            None => WinRect {
                x: self.origin.0,
                y: self.origin.1,
                width: self.view.0,
                height: self.view.1,
            },
        }
    }

    fn make_flight(&self, from: Rect, g: Region, size: (i64, i64), scale: i64, now: u64) -> (r:
        Flight)
        requires
            self.wf(),
            self.fits(size),
            self.sees(),
            scale > 0,
            g.width > 0 && g.height > 0,
            g.x <= self.view.0 && g.y <= self.view.1,
        ensures
            r == self.flight_of(from, g, size, scale, now),
            r.to.wf(),
    {
        let m = self.host_rect(g);
        let at = self.lens_of(size).to_logical(m);
        let rest = card_rest_rect(self.session.position, at.w, at.h, g.width, g.height);
        Flight {
            from,
            to: Rect { x: at.x + rest.x, y: at.y + rest.y, w: rest.w, h: rest.h },
            started: now,
            screen: Rect {
                x: logical_px(m.x as i64, scale),
                y: logical_px(m.y as i64, scale),
                w: logical_px(m.width as i64, scale),
                h: logical_px(m.height as i64, scale),
            },
        }
    }

    /// Confirm the selection. One that is too small, or already being
    /// finished, is left alone; one that comes before the frame waits for
    /// it.
    pub fn finish(&mut self, size: (i64, i64), scale: i64, now: u64) -> (r: Outcome)
        requires
            old(self).wf(),
            old(self).fits(size),
            scale > 0,
        ensures
            final(self).wf(),
            old(self).finishes(*final(self), size, scale, now, r),
    {
        proof {
            reveal(Overlay::finishes);
        }
        if self.finishing {
            return Outcome::Nothing;
        }
        let picked = match self.current {
            None => {
                return Outcome::Nothing;
            },
            Some(p) => p,
        };
        let lens = self.lens_of(size);
        let rect = lens.rect_of(picked);
        if rect.w < MIN_SIZE || rect.h < MIN_SIZE {
            return Outcome::Nothing;
        }
        if self.frame.is_none() {
            self.pending_finish = true;
            return Outcome::Pending;
        }
        self.finishing = true;
        let g = lens.region_of(picked);
        if g.width == 0 || g.height == 0 {
            self.cancel();
            return Outcome::Cancelled;
        }
        if self.mode == OverlayMode::RecordPick {
            let at = self.to_screen(g);
            self.park();
            return Outcome::Record(at);
        }
        self.capture(rect, g, size, scale, now)
    }

    fn capture(&mut self, rect: Rect, g: Region, size: (i64, i64), scale: i64, now: u64) -> (r:
        Outcome)
        requires
            old(self).wf(),
            old(self).fits(size),
            old(self).sees(),
            old(self).frame is Some,
            scale > 0,
            rect.wf(),
            g.width > 0 && g.height > 0,
            g.x <= old(self).view.0 && g.y <= old(self).view.1,
        ensures
            final(self).wf(),
            ({
                let f = old(self).frame->0;
                if !inside(f.width, f.height, g) {
                    &&& r matches Outcome::Failed(e) && e@ == region_error(f.width, f.height, g)
                    &&& *final(self) == old(self).cancelled()
                } else {
                    &&& r matches Outcome::Captured(c) && c.region == g && c.crop@ == cropped(
                        f.bgra@,
                        f.width,
                        g,
                        false,
                    )
                    &&& *final(self) == (if old(self).session.show_toast {
                        Overlay {
                            flight: Some(old(self).flight_of(rect, g, size, scale, now)),
                            current: None,
                            hovered: None,
                            ..*old(self)
                        }
                    } else {
                        old(self).parked()
                    })
                }
            }),
    {
        let cut: Result<Vec<u8>, String> = match &self.frame {
            Some(f) => {
                proof {
                    lemma_has_bytes(*f, g);
                }
                crop_bgra(f.bgra.as_slice(), f.width, f.height, g)
            },
            None => Err(String::new()),
        };
        match cut {
            Err(e) => {
                self.cancel();
                Outcome::Failed(e)
            },
            Ok(crop) => {
                if self.session.show_toast {
                    let flight = self.make_flight(rect, g, size, scale, now);
                    self.flight = Some(flight);
                    self.current = None;
                    self.hovered = None;
                } else {
                    self.park();
                }
                Outcome::Captured(Capture { crop, region: g })
            },
        }
    }
}

/// A window that lies in the frame is recorded where it is on the screen.
pub proof fn law_recorded_in_place(o: Overlay, size: (i64, i64), w: WinRect)
    requires
        o.origin.0 <= w.x && w.right() <= o.origin.0 + o.view.0,
        o.origin.1 <= w.y && w.bottom() <= o.origin.1 + o.view.1,
    ensures
        o.on_screen(o.lens(size).region(Picked::Snap(w))) == w,
{
}

/// A length of the screen in logical units at this scale.
pub(crate) fn logical_px(v: i64, scale: i64) -> (r: i64)
    requires
        -0x8000_0000 <= v <= 0x8000_0000,
        scale > 0,
    ensures
        r == (v * (PX * PX)) / scale as int,
{
    proof {
        let n = v * (PX * PX);
        assert(n == v * 100_000_000);
        assert(-0x8000_0000 * (PX * PX) <= n / scale as int <= 0x8000_0000 * (PX * PX))
            by (nonlinear_arith)
            requires
                n == v * (PX * PX),
                -0x8000_0000 <= v <= 0x8000_0000,
                scale > 0,
                PX == 10_000,
        ;
    }
    floor_div(v as i128 * 100_000_000, scale as i128) as i64
}

proof fn lemma_host_in(mons: Seq<WinRect>, r: WinRect)
    ensures
        host_of(mons, r) matches Some(m) ==> exists|i: int| 0 <= i < mons.len() && mons[i] == m,
{
    lemma_centered_in(mons, r, 0);
}

proof fn lemma_centered_in(mons: Seq<WinRect>, r: WinRect, i: int)
    requires
        0 <= i,
    ensures
        crate::screen::centered_from(mons, r, i) matches Some(m) ==> exists|j: int|
            0 <= j < mons.len() && mons[j] == m,
    decreases mons.len() - i,
{
    if i < mons.len() && !mons[i].centers(r) {
        lemma_centered_in(mons, r, i + 1);
    }
}

proof fn lemma_has_bytes(f: Frame, g: Region)
    requires
        f.wf(),
    ensures
        inside(f.width, f.height, g) ==> offset(
            f.width as int,
            g.x + g.width,
            g.y + g.height - 1,
        ) <= f.bgra@.len(),
{
    if inside(f.width, f.height, g) {
        let last = g.y + g.height - 1;
        assert(last * f.width + f.width <= f.width * f.height) by (nonlinear_arith)
            requires
                last + 1 <= f.height,
                0 <= f.width,
        ;
    }
}

/// A dragged handle is where the pointer is, along each axis on which it
/// lies on an edge, while the pointer stays on its side of the opposite
/// edge, which stays; along the other axis nothing changes. Past the
/// opposite edge the selection turns over there.
pub proof fn law_handle_follows(r: Rect, i: int, p: Point, size: (i64, i64))
    requires
        0 <= i < 8,
        selectable(r),
        r.w >= 2 && r.h >= 2,
        window_size(size),
        0 <= r.x && r.right() <= size.0,
        0 <= r.y && r.bottom() <= size.1,
        0 <= p.x <= size.0 && 0 <= p.y <= size.1,
    ensures
        ({
            let (k, q) = (handle(r, i), reshaped(r, i, p, size));
            let at = handle(q, i);
            &&& k.0 == r.left() && p.x <= r.right() ==> at.0 == p.x && q.left() == p.x && q.right()
                == r.right()
            &&& k.0 == r.left() && p.x > r.right() ==> q.left() == r.right() && q.right() == p.x
            &&& k.0 == r.right() && p.x >= r.left() ==> at.0 == p.x && q.right() == p.x && q.left()
                == r.left()
            &&& k.0 == r.right() && p.x < r.left() ==> q.right() == r.left() && q.left() == p.x
            &&& r.left() < k.0 < r.right() ==> q.left() == r.left() && q.right() == r.right()
            &&& k.1 == r.top() && p.y <= r.bottom() ==> at.1 == p.y && q.top() == p.y && q.bottom()
                == r.bottom()
            &&& k.1 == r.top() && p.y > r.bottom() ==> q.top() == r.bottom() && q.bottom() == p.y
            &&& k.1 == r.bottom() && p.y >= r.top() ==> at.1 == p.y && q.bottom() == p.y && q.top()
                == r.top()
            &&& k.1 == r.bottom() && p.y < r.top() ==> q.bottom() == r.top() && q.top() == p.y
            &&& r.top() < k.1 < r.bottom() ==> q.top() == r.top() && q.bottom() == r.bottom()
        }),
{
}

/// A handle that is dragged to its own place leaves the selection as it
/// is.
pub proof fn law_handle_rests(r: Rect, i: int, p: Point, size: (i64, i64))
    requires
        0 <= i < 8,
        selectable(r),
        window_size(size),
        0 <= r.x && r.right() <= size.0,
        0 <= r.y && r.bottom() <= size.1,
        p.x == handle(r, i).0 && p.y == handle(r, i).1,
    ensures
        reshaped(r, i, p, size) == r,
{
}

/// A selection that is carried keeps its size, and the point of it that
/// was grabbed under the pointer, as far as the window reaches.
pub proof fn law_carried(r: Rect, off: Point, p: Point, size: (i64, i64))
    requires
        selectable(r),
        window_size(size),
        r.w <= size.0 && r.h <= size.1,
    ensures
        ({
            let q = carried(r, off, p, size);
            &&& q.w == r.w && q.h == r.h
            &&& 0 <= q.left() && q.right() <= size.0 && 0 <= q.top() && q.bottom() <= size.1
            &&& 0 <= p.x - off.x <= size.0 - r.w ==> q.x + off.x == p.x
            &&& 0 <= p.y - off.y <= size.1 - r.h ==> q.y + off.y == p.y
            &&& p.x - off.x < 0 ==> q.left() == 0
            &&& p.x - off.x > size.0 - r.w ==> q.right() == size.0
            &&& p.y - off.y < 0 ==> q.top() == 0
            &&& p.y - off.y > size.1 - r.h ==> q.bottom() == size.1
        }),
{
}

/// What confirming the selection does. Nothing where there is none, where
/// it is under three pixels wide or high, or where it is already under
/// way. A region that is picked for a recording is handed over as the part
/// of the screen that it shows; a capture is cut out of the frame, and
/// flies to the toast where there is one.
pub proof fn law_finish(
    o: Overlay,
    after: Overlay,
    size: (i64, i64),
    scale: i64,
    now: u64,
    r: Outcome,
)
    requires
        o.finishes(after, size, scale, now, r),
    ensures
        o.current is None || o.finishing ==> r is Nothing && after == o,
        o.shown(size) matches Some(q) && (q.w < 3 * PX || q.h < 3 * PX) ==> r is Nothing && after
            == o,
        !(r is Nothing) ==> (o.shown(size) matches Some(q) && q.w >= 3 * PX && q.h >= 3 * PX),
        r is Pending ==> o.frame is None && after.pending_finish && !after.finishing,
        o.frame is None ==> r is Nothing || r is Pending,
        r matches Outcome::Record(w) ==> {
            let g = o.lens(size).region(o.current->0);
            &&& o.mode is RecordPick
            &&& after.hidden && after.frame is None
            &&& w.width == g.width && w.height == g.height
            &&& w.x == (g.x + o.origin.0) as i32 && w.y == (g.y + o.origin.1) as i32
        },
        r matches Outcome::Captured(c) ==> {
            let f = o.frame->0;
            &&& o.mode is Capture
            &&& c.region == o.lens(size).region(o.current->0)
            &&& c.crop@ == cropped(f.bgra@, f.width, c.region, false)
            &&& after.hidden == (o.hidden || !o.session.show_toast)
            &&& (after.flight is Some) == o.session.show_toast
            &&& after.flight matches Some(l) ==> l.started == now && l.from == o.lens(size).rect(
                o.current->0,
            )
        },
        r is Cancelled || r is Failed ==> after.hidden && after.flight is None && after.frame is None
            && !after.pending_finish,
{
    reveal(Overlay::finishes);
}

/// A parked window is hidden, and holds neither frame nor flight; what was
/// picked and where its monitors are stays.
pub proof fn law_parked(o: Overlay)
    ensures
        o.parked().hidden && o.parked().frame is None && o.parked().flight is None,
        o.parked().loupe is None,
        o.parked().current == o.current && o.parked().monitors == o.monitors,
        o.cancelled() == (Overlay { pending_finish: false, ..o.parked() }),
{
}

} // verus!
