//! The region picker's events: presses, moves, releases, keys, the frame
//! that arrives, and the session's start and end.

use vstd::prelude::*;
use crate::geom::{Point, Rect, PX};
use crate::loupe::Frame;
use crate::overlay::{
    drag_region,
    dragged,
    gripped,
    selection,
    selection_of,
    spanned,
    Lens,
    Picked,
    ShellLayout,
    MIN_SIZE,
    SPAN,
};
use crate::overlay_input::{
    carried,
    carry,
    monitor_wf,
    reshape,
    reshaped,
    Outcome,
    Overlay,
    OverlayMode,
    Session,
};
use crate::screen::WinRect;

verus! {

impl Overlay {
    /// The left button went down at `p`, for the `clicks`th time. A
    /// second click confirms; a handle is dragged; the selection is
    /// carried; anywhere else a new one is drawn.
    pub fn pressed(&mut self, p: Point, clicks: u32, size: (i64, i64), scale: i64, now: u64) -> (r:
        Outcome)
        requires
            old(self).wf(),
            old(self).fits(size),
            spanned(p),
            scale > 0,
        ensures
            final(self).wf(),
            if clicks == 2 {
                old(self).finishes(*final(self), size, scale, now, r)
            } else {
                r is Nothing && match old(self).shown(size) {
                    Some(q) => match gripped(q, p, 0) {
                        Some(h) => *final(self) == (Overlay {
                            resize: Some((h, q)),
                            ..*old(self)
                        }),
                        None => if q.has(p) {
                            *final(self) == (Overlay {
                                moving: Some(
                                    Point { x: (p.x - q.x) as i64, y: (p.y - q.y) as i64 },
                                ),
                                ..*old(self)
                            })
                        } else {
                            *final(self) == (Overlay {
                                dragging: true,
                                anchor: p,
                                current: None,
                                ..*old(self)
                            })
                        },
                    },
                    None => *final(self) == (Overlay {
                        dragging: true,
                        anchor: p,
                        current: None,
                        ..*old(self)
                    }),
                }
            },
    {
        if clicks == 2 {
            return self.finish(size, scale, now);
        }
        let at = self.selection_rect(size);
        if let Some(h) = self.handle_at(p, size) {
            if let Some(q) = at {
                self.resize = Some((h, q));
                return Outcome::Nothing;
            }
        }
        if let Some(q) = at {
            if p.x >= q.x && p.x <= q.x + q.w && p.y >= q.y && p.y <= q.y + q.h {
                self.moving = Some(Point { x: p.x - q.x, y: p.y - q.y });
                return Outcome::Nothing;
            }
        }
        self.dragging = true;
        self.anchor = p;
        self.current = None;
        Outcome::Nothing
    }

    /// The picker with its loupe put away.
    pub open spec fn unlouped(self) -> Overlay {
        Overlay {
            loupe: None,
            loupe_at: if self.loupe is Some {
                None
            } else {
                self.loupe_at
            },
            ..self
        }
    }

    fn drop_loupe(&mut self)
        requires
            old(self).wf(),
        ensures
            final(self).wf(),
            *final(self) == old(self).unlouped(),
    {
        if self.loupe.is_some() {
            self.loupe_at = None;
        }
        self.loupe = None;
    }

    /// The hover highlight fades out, if there is one.
    pub open spec fn unhovered(self, now: u64) -> Overlay {
        Overlay {
            hover_out: match self.hovered {
                Some(w) => Some((w, now)),
                None => self.hover_out,
            },
            hovered: None,
            hover_in: None,
            ..self
        }
    }

    /// The selection fits the window, so that it can be moved in it.
    pub open spec fn movable(self, size: (i64, i64)) -> bool {
        self.shown(size) matches Some(q) ==> q.w <= size.0 && q.h <= size.1
    }

    /// The pointer moved to `p` while it carries the selection.
    fn carry_to(&mut self, off: Point, p: Point, size: (i64, i64))
        requires
            old(self).wf(),
            old(self).fits(size),
            old(self).movable(size),
            old(self).moving == Some(off),
            spanned(p),
        ensures
            final(self).wf(),
            *final(self) == (Overlay {
                cursor: p,
                current: match old(self).shown(size) {
                    Some(q) => Some(Picked::Free(carried(q, off, p, size))),
                    None => None,
                },
                ..*old(self)
            }),
    {
        self.cursor = p;
        if let Some(q) = self.selection_rect(size) {
            self.current = Some(Picked::Free(carry(q, off, p, size)));
        }
    }

    /// The pointer moved to `p` while it drags handle `h` of the
    /// selection `q`.
    fn reshape_to(&mut self, h: usize, q: Rect, p: Point, size: (i64, i64))
        requires
            old(self).wf(),
            old(self).fits(size),
            old(self).resize == Some((h, q)),
            spanned(p),
        ensures
            final(self).wf(),
            final(self).louped(
                *old(self),
                (
                    old(self).lens(size).pixel(p).0 as i64,
                    old(self).lens(size).pixel(p).1 as i64,
                ),
            ),
            *final(self) == (Overlay {
                cursor: p,
                current: Some(Picked::Free(reshaped(q, h as int, p, size))),
                loupe: final(self).loupe,
                loupe_at: final(self).loupe_at,
                ..*old(self)
            }),
    {
        self.cursor = p;
        self.current = Some(Picked::Free(reshape(q, h, p, size)));
        let at = self.lens_of(size).frame_pos(p);
        self.update_loupe(at);
    }

    /// The pointer moved to `p` while it draws a selection.
    fn draw_to(&mut self, p: Point, square: bool, size: (i64, i64), now: u64)
        requires
            old(self).wf(),
            old(self).fits(size),
            spanned(p),
        ensures
            final(self).wf(),
            final(self).louped(
                *old(self),
                (
                    old(self).lens(size).pixel(p).0 as i64,
                    old(self).lens(size).pixel(p).1 as i64,
                ),
            ),
            *final(self) == (Overlay {
                cursor: p,
                current: Some(
                    Picked::Free(
                        selection_of(
                            dragged(
                                old(self).anchor,
                                p,
                                (size.0 as int, size.1 as int),
                                square,
                            ),
                        ),
                    ),
                ),
                loupe: final(self).loupe,
                loupe_at: final(self).loupe_at,
                ..old(self).unhovered(now)
            }),
    {
        self.cursor = p;
        if let Some(w) = self.hovered {
            self.hover_out = Some((w, now));
        }
        self.hovered = None;
        self.hover_in = None;
        self.current = Some(Picked::Free(selection(drag_region(self.anchor, p, size, square))));
        let at = self.lens_of(size).frame_pos(p);
        self.update_loupe(at);
    }

    /// The pointer over window `w`, or none: the highlight follows.
    pub open spec fn hovering(self, w: Option<WinRect>, now: u64) -> Overlay {
        if w == self.hovered {
            self
        } else {
            Overlay {
                hover_out: match self.hovered {
                    Some(old) => Some((old, now)),
                    None => self.hover_out,
                },
                hover_in: match w {
                    Some(_) => Some(now),
                    None => None,
                },
                hovered: w,
                ..self
            }
        }
    }

    /// The pointer moved to `p` with nothing held.
    fn hover_to(&mut self, p: Point, size: (i64, i64), now: u64) -> (redraw: bool)
        requires
            old(self).wf(),
            old(self).fits(size),
            spanned(p),
        ensures
            final(self).wf(),
            ({
                let w = old(self).lens(size).topmost(p, old(self).windows@);
                &&& *final(self) == (Overlay {
                    cursor: p,
                    loupe: None,
                    loupe_at: None,
                    ..*old(self)
                }).hovering(w, now)
                &&& redraw == (w != old(self).hovered || w is Some || old(self).current is None)
            }),
    {
        self.cursor = p;
        self.loupe = None;
        self.loupe_at = None;
        let over = self.lens_of(size).window_at(p, &self.windows);
        let changed = match (self.hovered, over) {
            (None, None) => false,
            (Some(a), Some(b)) => a != b,
            _ => true,
        };
        if changed {
            if let Some(w) = self.hovered {
                self.hover_out = Some((w, now));
            }
            self.hover_in = if over.is_some() {
                Some(now)
            } else {
                None
            };
            self.hovered = over;
        }
        changed || self.hovered.is_some() || self.current.is_none()
    }

    /// The pointer moved to `p`. Is the picker to be drawn anew?
    pub fn pointer_moved(&mut self, p: Point, square: bool, size: (i64, i64), now: u64) -> (redraw:
        bool)
        requires
            old(self).wf(),
            old(self).fits(size),
            old(self).moving is Some ==> old(self).movable(size),
            spanned(p),
        ensures
            final(self).wf(),
            ({
                let at = (
                    old(self).lens(size).pixel(p).0 as i64,
                    old(self).lens(size).pixel(p).1 as i64,
                );
                match (old(self).moving, old(self).resize) {
                    (Some(off), _) => redraw && *final(self) == (Overlay {
                        cursor: p,
                        current: match old(self).shown(size) {
                            Some(q) => Some(Picked::Free(carried(q, off, p, size))),
                            None => None,
                        },
                        ..*old(self)
                    }),
                    (None, Some(h)) => {
                        &&& redraw && final(self).louped(*old(self), at)
                        &&& *final(self) == (Overlay {
                            cursor: p,
                            current: Some(Picked::Free(reshaped(h.1, h.0 as int, p, size))),
                            loupe: final(self).loupe,
                            loupe_at: final(self).loupe_at,
                            ..*old(self)
                        })
                    },
                    (None, None) => if old(self).dragging {
                        let g = dragged(
                            old(self).anchor,
                            p,
                            (size.0 as int, size.1 as int),
                            square,
                        );
                        &&& redraw && final(self).louped(*old(self), at)
                        &&& *final(self) == (Overlay {
                            cursor: p,
                            current: Some(Picked::Free(selection_of(g))),
                            loupe: final(self).loupe,
                            loupe_at: final(self).loupe_at,
                            ..old(self).unhovered(now)
                        })
                    } else {
                        let w = old(self).lens(size).topmost(p, old(self).windows@);
                        &&& *final(self) == (Overlay {
                            cursor: p,
                            loupe: None,
                            loupe_at: None,
                            ..*old(self)
                        }).hovering(w, now)
                        &&& redraw == (w != old(self).hovered || w is Some || old(self).current is None)
                    },
                }
            }),
    {
        if let Some(off) = self.moving {
            self.carry_to(off, p, size);
            return true;
        }
        if let Some(h) = self.resize {
            self.reshape_to(h.0, h.1, p, size);
            return true;
        }
        if self.dragging {
            self.draw_to(p, square, size, now);
            true
        } else {
            self.hover_to(p, size, now)
        }
    }
}

/// What a drag from `anchor` to `p` shows.
pub open spec fn drawing(anchor: Point, p: Point, square: bool, size: (i64, i64)) -> Picked {
    Picked::Free(selection_of(dragged(anchor, p, (size.0 as int, size.1 as int), square)))
}

/// What a drag that ends at `p` selects: nothing where it is too small.
pub open spec fn committed(anchor: Point, p: Point, square: bool, size: (i64, i64)) -> Option<
    Picked,
> {
    let g = dragged(anchor, p, (size.0 as int, size.1 as int), square);
    if g.width * PX < MIN_SIZE || g.height * PX < MIN_SIZE {
        None
    } else {
        Some(drawing(anchor, p, square, size))
    }
}

/// Did the pointer hardly move: a click?
pub open spec fn click(a: Point, b: Point) -> bool {
    (b.x - a.x) * (b.x - a.x) + (b.y - a.y) * (b.y - a.y) < 16 * (PX * PX)
}

/// The selection a release commits is the one that the drag showed.
pub proof fn law_committed_is_shown(anchor: Point, p: Point, square: bool, size: (i64, i64))
    ensures
        committed(anchor, p, square, size) matches Some(c) ==> c == drawing(anchor, p, square, size),
{
}

fn clicked(a: Point, b: Point) -> (r: bool)
    requires
        spanned(a),
        spanned(b),
    ensures
        r == click(a, b),
{
    let dx: i128 = b.x as i128 - a.x as i128;
    let dy: i128 = b.y as i128 - a.y as i128;
    proof {
        assert(0 <= dx * dx <= (2 * SPAN) * (2 * SPAN)) by (nonlinear_arith)
            requires
                -2 * SPAN <= dx <= 2 * SPAN,
        ;
        assert(0 <= dy * dy <= (2 * SPAN) * (2 * SPAN)) by (nonlinear_arith)
            requires
                -2 * SPAN <= dy <= 2 * SPAN,
        ;
        assert((2 * SPAN) * (2 * SPAN) <= 0x1000_0000_0000_0000_0000_0000_0000) by (nonlinear_arith)
            requires
                SPAN == 20_000_000_000_000,
        ;
    }
    dx * dx + dy * dy < 1_600_000_000
}

impl Overlay {
    /// The picker after the button went up at `p`, but for a click's
    /// confirmation.
    pub open spec fn let_go(self, p: Point, square: bool, size: (i64, i64)) -> Overlay {
        if self.resize is Some || self.moving is Some {
            Overlay {
                resize: None,
                moving: if self.resize is Some {
                    self.moving
                } else {
                    None
                },
                ..self.unlouped()
            }
        } else if !self.dragging {
            self
        } else {
            let up = Overlay { dragging: false, ..self.unlouped() };
            if click(self.anchor, p) {
                match self.lens(size).topmost(p, self.windows@) {
                    Some(w) => Overlay { current: Some(Picked::Snap(w)), hovered: None, ..up },
                    None => Overlay { current: None, ..up },
                }
            } else {
                Overlay { current: committed(self.anchor, p, square, size), ..up }
            }
        }
    }

    /// Does the button's release at `p` capture the window under it?
    pub open spec fn clicks_window(self, p: Point, size: (i64, i64)) -> bool {
        &&& self.resize is None && self.moving is None && self.dragging
        &&& click(self.anchor, p) && self.lens(size).topmost(p, self.windows@) is Some
    }

    /// The left button went up at `p`: a handle or the selection is let
    /// go, a drawn selection is committed, and a click on a window
    /// captures it.
    pub fn released(&mut self, p: Point, square: bool, size: (i64, i64), scale: i64, now: u64) -> (r:
        Outcome)
        requires
            old(self).wf(),
            old(self).fits(size),
            spanned(p),
            scale > 0,
        ensures
            final(self).wf(),
            if old(self).clicks_window(p, size) {
                old(self).let_go(p, square, size).finishes(*final(self), size, scale, now, r)
            } else {
                r is Nothing && *final(self) == old(self).let_go(p, square, size)
            },
    {
        if self.resize.is_some() {
            self.resize = None;
            self.drop_loupe();
            return Outcome::Nothing;
        }
        if self.moving.is_some() {
            self.moving = None;
            self.drop_loupe();
            return Outcome::Nothing;
        }
        if !self.dragging {
            return Outcome::Nothing;
        }
        self.dragging = false;
        self.drop_loupe();
        if clicked(self.anchor, p) {
            match self.lens_of(size).window_at(p, &self.windows) {
                Some(w) => {
                    self.current = Some(Picked::Snap(w));
                    self.hovered = None;
                    return self.finish(size, scale, now);
                },
                None => {
                    self.current = None;
                },
            }
            return Outcome::Nothing;
        }
        let g = drag_region(self.anchor, p, size, square);
        if (g.width as i64) * PX < MIN_SIZE || (g.height as i64) * PX < MIN_SIZE {
            self.current = None;
        } else {
            self.current = Some(Picked::Free(selection(g)));
        }
        Outcome::Nothing
    }

    /// The picker once the frame is there. Where the compositor placed
    /// the window, the frame's own extent is what it shows.
    pub open spec fn with_frame(self, after: Overlay, f: Frame, wayland: bool) -> bool {
        &&& after == (Overlay {
            frame: Some(f),
            pending_finish: false,
            origin: if wayland {
                (0i32, 0i32)
            } else {
                self.origin
            },
            view: if wayland {
                (f.width, f.height)
            } else {
                self.view
            },
            monitors: after.monitors,
            ..self
        })
        &&& after.monitors@ == (if wayland && self.monitors@.len() == 0 {
            seq![WinRect { x: 0, y: 0, width: f.width, height: f.height }]
        } else {
            self.monitors@
        })
    }

    /// What the picker shows once this frame is there.
    pub open spec fn lens_with(self, f: Frame, wayland: bool, size: (i64, i64)) -> Lens {
        if wayland {
            Lens { origin: (0i32, 0i32), view: (f.width, f.height), size }
        } else {
            self.lens(size)
        }
    }

    /// The frame landed. A selection that was confirmed before is
    /// finished now.
    pub fn set_frame(
        &mut self,
        f: Frame,
        wayland: bool,
        size: (i64, i64),
        scale: i64,
        now: u64,
    ) -> (r: Outcome)
        requires
            old(self).wf(),
            f.wf(),
            f.width <= i32::MAX && f.height <= i32::MAX,
            old(self).lens_with(f, wayland, size).wf(),
            scale > 0,
        ensures
            final(self).wf(),
            if old(self).pending_finish {
                exists|mid: Overlay|
                    #![trigger old(self).with_frame(mid, f, wayland)]
                    old(self).with_frame(mid, f, wayland) && mid.finishes(
                        *final(self),
                        size,
                        scale,
                        now,
                        r,
                    )
            } else {
                r is Nothing && old(self).with_frame(*final(self), f, wayland)
            },
    {
        let whole = WinRect { x: 0, y: 0, width: f.width, height: f.height };
        let ghost frame = f;
        if wayland {
            self.origin = (0i32, 0i32);
            self.view = (f.width, f.height);
            if self.monitors.len() == 0 {
                self.monitors.push(whole);
                assert(self.monitors@ =~= seq![whole]);
            }
        }
        self.frame = Some(f);
        let pending = self.pending_finish;
        self.pending_finish = false;
        let ghost mid = *self;
        assert(old(self).with_frame(mid, frame, wayland));
        assert(self.wf());
        if pending {
            self.finish(size, scale, now)
        } else {
            Outcome::Nothing
        }
    }
}

/// A layout that a picker can show.
pub open spec fn layout_wf(l: ShellLayout) -> bool {
    let u = l.union;
    &&& u.width <= i32::MAX && u.height <= i32::MAX
    &&& u.right() <= i32::MAX && u.bottom() <= i32::MAX
    &&& u.width == 0 || u.height == 0 ==> l.windows@.len() == 0 && l.monitors@.len() == 0
    &&& forall|i: int| 0 <= i < l.monitors@.len() ==> monitor_wf(#[trigger] l.monitors@[i])
}

impl Overlay {
    /// The picker at the start of a session, whatever came before.
    pub open spec fn fresh(self, l: ShellLayout, session: Session) -> Overlay {
        Overlay {
            hidden: false,
            mode: OverlayMode::Capture,
            frame: None,
            origin: (l.union.x, l.union.y),
            view: (l.union.width, l.union.height),
            monitors: l.monitors,
            windows: l.windows,
            dragging: false,
            anchor: self.anchor,
            resize: None,
            moving: None,
            current: None,
            hovered: None,
            cursor: self.cursor,
            loupe: None,
            loupe_at: None,
            finishing: false,
            pending_finish: false,
            opened: None,
            hover_in: None,
            hover_out: None,
            flight: None,
            finalize_failed: false,
            landed: false,
            session,
        }
    }

    /// A picker for a new window.
    pub fn new(l: ShellLayout, session: Session) -> (r: Overlay)
        requires
            layout_wf(l),
        ensures
            r.wf(),
            r == r.fresh(l, session),
            r.anchor == (Point { x: 0, y: 0 }),
            r.cursor == (Point { x: 0, y: 0 }),
    {
        Overlay {
            hidden: false,
            mode: OverlayMode::Capture,
            frame: None,
            origin: (l.union.x, l.union.y),
            view: (l.union.width, l.union.height),
            monitors: l.monitors,
            windows: l.windows,
            dragging: false,
            anchor: Point { x: 0, y: 0 },
            resize: None,
            moving: None,
            current: None,
            hovered: None,
            cursor: Point { x: 0, y: 0 },
            loupe: None,
            loupe_at: None,
            finishing: false,
            pending_finish: false,
            opened: None,
            hover_in: None,
            hover_out: None,
            flight: None,
            finalize_failed: false,
            landed: false,
            session,
        }
    }

    /// Make a parked picker ready for a new session. Nothing of the last
    /// one is left.
    pub fn reset(&mut self, l: ShellLayout, session: Session)
        requires
            old(self).wf(),
            layout_wf(l),
        ensures
            final(self).wf(),
            *final(self) == old(self).fresh(l, session),
    {
        let (anchor, cursor) = (self.anchor, self.cursor);
        *self = Overlay::new(l, session);
        self.anchor = anchor;
        self.cursor = cursor;
    }

    /// The saved capture is there, for a toast or not, or could not be
    /// saved.
    pub fn finalized(&mut self, saved: bool, toast: bool)
        requires
            old(self).wf(),
        ensures
            final(self).wf(),
            *final(self) == (Overlay {
                landed: old(self).landed || (saved && toast),
                finalize_failed: old(self).finalize_failed || !saved,
                ..*old(self)
            }),
    {
        if !saved {
            self.finalize_failed = true;
        } else if toast {
            self.landed = true;
        }
    }

    /// A session whose capture could not be saved ends with the next
    /// frame. Did it?
    pub fn drop_failed(&mut self) -> (dropped: bool)
        requires
            old(self).wf(),
        ensures
            final(self).wf(),
            dropped == old(self).finalize_failed,
            *final(self) == (if dropped {
                (Overlay { finalize_failed: false, ..*old(self) }).cancelled()
            } else {
                *old(self)
            }),
    {
        if self.finalize_failed {
            self.finalize_failed = false;
            self.cancel();
            true
        } else {
            false
        }
    }

    /// A frame of the flight. Does it hand its capture to the toast? It
    /// does so once, at rest.
    pub fn flight_frame(&mut self, at_rest: bool) -> (hand_off: bool)
        requires
            old(self).wf(),
        ensures
            final(self).wf(),
            hand_off == (at_rest && old(self).landed),
            *final(self) == (Overlay { landed: old(self).landed && !hand_off, ..*old(self) }),
    {
        if at_rest && self.landed {
            self.landed = false;
            true
        } else {
            false
        }
    }

    /// The toast of the flight that started then is on screen: park,
    /// unless another session owns the window by now.
    pub fn park_after(&mut self, started: u64)
        requires
            old(self).wf(),
        ensures
            final(self).wf(),
            *final(self) == (match old(self).flight {
                Some(f) if f.started == started => old(self).parked(),
                _ => *old(self),
            }),
    {
        if let Some(f) = self.flight {
            if f.started == started {
                self.park();
            }
        }
    }

    /// When the session's first frame was, seen at `now`.
    pub open spec fn since_opened(self, now: u64) -> u64 {
        match self.opened {
            Some(t) => t,
            None => now,
        }
    }

    /// This picker after a frame at `now`: a highlight that was left is
    /// gone once it has faded.
    pub open spec fn framed(self, now: u64, fade: u64) -> Overlay {
        Overlay {
            opened: Some(self.since_opened(now)),
            hover_out: match self.hover_out {
                Some(h) if !self.dragging && self.frame is Some && now >= h.1 + fade => None,
                h => h,
            },
            ..self
        }
    }

    /// A frame at `now`: when the session's first one was, and whether the
    /// highlight that was left has faded.
    pub fn frame_at(&mut self, now: u64, fade: u64) -> (opened: u64)
        requires
            old(self).wf(),
        ensures
            final(self).wf(),
            opened == old(self).since_opened(now),
            *final(self) == old(self).framed(now, fade),
    {
        let opened: u64 = match self.opened {
            Some(t) => t,
            None => now,
        };
        self.opened = Some(opened);
        if !self.dragging && self.frame.is_some() {
            if let Some(h) = self.hover_out {
                if now >= h.1 && now - h.1 >= fade {
                    self.hover_out = None;
                }
            }
        }
        opened
    }
}

/// A press and a release less than four pixels apart are a click, further
/// apart a drag, whichever way.
pub proof fn law_click(a: Point, b: Point)
    ensures
        click(a, b) == click(b, a),
        click(a, a),
        b.x - a.x >= 4 * PX || a.x - b.x >= 4 * PX || b.y - a.y >= 4 * PX || a.y - b.y >= 4 * PX
            ==> !click(a, b),
        b.y == a.y && -4 * PX < b.x - a.x < 4 * PX ==> click(a, b),
        b.x == a.x && -4 * PX < b.y - a.y < 4 * PX ==> click(a, b),
{
    let (dx, dy) = (b.x - a.x, b.y - a.y);
    let (ex, ey) = (a.x - b.x, a.y - b.y);
    assert(dx * dx == ex * ex && dy * dy == ey * ey) by (nonlinear_arith)
        requires
            ex == -dx,
            ey == -dy,
    ;
    assert(dx * dx >= 0 && dy * dy >= 0) by (nonlinear_arith);
    assert(0int * 0int == 0);
    if dx >= 4 * PX || dx <= -4 * PX {
        assert(dx * dx >= 16 * (PX * PX)) by (nonlinear_arith)
            requires
                dx >= 4 * PX || dx <= -4 * PX,
                PX == 10_000,
        ;
    } else {
        assert(dx * dx < 16 * (PX * PX)) by (nonlinear_arith)
            requires
                -4 * PX < dx < 4 * PX,
                PX == 10_000,
        ;
    }
    if dy >= 4 * PX || dy <= -4 * PX {
        assert(dy * dy >= 16 * (PX * PX)) by (nonlinear_arith)
            requires
                dy >= 4 * PX || dy <= -4 * PX,
                PX == 10_000,
        ;
    } else {
        assert(dy * dy < 16 * (PX * PX)) by (nonlinear_arith)
            requires
                -4 * PX < dy < 4 * PX,
                PX == 10_000,
        ;
    }
}

/// A drag commits what it shows where that is three pixels or more each
/// way, and else nothing.
pub proof fn law_committed(anchor: Point, p: Point, square: bool, size: (i64, i64))
    ensures
        ({
            let g = dragged(anchor, p, (size.0 as int, size.1 as int), square);
            committed(anchor, p, square, size) == (if g.width >= 3 && g.height >= 3 {
                Some(Picked::Free(selection_of(g)))
            } else {
                None
            })
        }),
{
}

/// What letting go does. The end of a resize or a move keeps the
/// selection. A click picks the topmost window under the pointer, or
/// nothing; a drag picks what was dragged over.
pub proof fn law_let_go(o: Overlay, p: Point, square: bool, size: (i64, i64))
    ensures
        ({
            let n = o.let_go(p, square, size);
            &&& o.resize is Some || o.moving is Some ==> n.current == o.current && n.resize is None
            &&& o.resize is None && o.moving is Some ==> n.moving is None
            &&& o.resize is None && o.moving is None && !o.dragging ==> n == o
            &&& o.resize is None && o.moving is None && o.dragging ==> {
                &&& !n.dragging
                &&& click(o.anchor, p) ==> n.current == (match o.lens(size).topmost(p, o.windows@) {
                    Some(w) => Some(Picked::Snap(w)),
                    None => None,
                })
                &&& !click(o.anchor, p) ==> n.current == committed(o.anchor, p, square, size)
            }
            &&& n.frame == o.frame && n.windows == o.windows && n.finishing == o.finishing
        }),
{
}

/// A session starts with nothing picked, dragged or hovered, over the whole
/// desktop.
pub proof fn law_fresh(o: Overlay, l: ShellLayout, session: Session)
    ensures
        ({
            let n = o.fresh(l, session);
            &&& !n.hidden && n.mode is Capture && n.frame is None && n.current is None
            &&& !n.dragging && n.resize is None && n.moving is None && n.hovered is None
            &&& !n.finishing && !n.pending_finish && n.flight is None && !n.landed
            &&& !n.finalize_failed && n.opened is None
            &&& n.origin == (l.union.x, l.union.y) && n.view == (l.union.width, l.union.height)
            &&& n.monitors == l.monitors && n.windows == l.windows && n.session == session
        }),
{
}

/// The window that the pointer enters starts to glow, and the one that it
/// leaves starts to fade, at the time of that; over the same window
/// nothing starts anew.
pub proof fn law_hovering(o: Overlay, w: Option<WinRect>, now: u64)
    ensures
        ({
            let n = o.hovering(w, now);
            &&& n.hovered == w
            &&& w == o.hovered ==> n == o
            &&& w != o.hovered && w is Some ==> n.hover_in == Some(now)
            &&& w != o.hovered ==> (o.hovered matches Some(old) ==> n.hover_out == Some((old, now)))
        }),
        o.unhovered(now).hovered is None,
        o.hovered matches Some(old) ==> o.unhovered(now).hover_out == Some((old, now)),
{
}

} // verus!
