//! What a frame of the region picker shows.

use vstd::prelude::*;
use crate::flight::{flight_at_rest, flight_rect, flown, rests, WAY};
use crate::geom::{max_of, most, Point, Rect, PX};
use crate::motion::{ease_out, gone, law_curves, law_movement_ends, part_of, progress, quadratic, share, FADE};
use crate::overlay_input::{logical_px, Flight, Overlay};
use crate::overlay_keys::{coord_at, coord_place, loupe_at, loupe_place};
use crate::screen::WinRect;
use crate::stage::{elapsed, since};

verus! {

/// How dark the frozen frame gets, in parts, and how long that takes.
pub const DIM: i64 = 320_000_000;

pub const DIM_FADE: u64 = 180;

/// How long a highlight takes to come or go.
pub const HOVER_FADE: u64 = 90;

/// How long the flight to the toast's card takes at most.
pub const FLIGHT: u64 = 500;

/// How long the picker's movements take, in milliseconds.
#[derive(Clone, Copy, Debug, PartialEq, Eq, Structural)]
pub struct Pace {
    pub dim: u64,
    pub hover: u64,
    pub flight: u64,
    /// The dim of a flight lifts.
    pub lift: u64,
}

impl Pace {
    /// The pace at which nothing is slowed down.
    pub fn new() -> (r: Pace)
        ensures
            r == (Pace { dim: DIM_FADE, hover: HOVER_FADE, flight: FLIGHT, lift: FADE }),
    {
        Pace { dim: DIM_FADE, hover: HOVER_FADE, flight: FLIGHT, lift: FADE }
    }
}

/// A window that is shown without the dim, this far.
#[derive(Clone, Copy, Debug, PartialEq, Eq, Structural)]
pub struct Glow {
    pub rect: Rect,
    pub alpha: i64,
}

/// The picker's window where the display tells no size.
pub const SHELL: (i64, i64) = (12_800_000, 8_000_000);

/// The bounds the picker's window opens with, in logical units: the whole
/// of the virtual screen, or the primary display's size where the
/// compositor places windows.
pub fn shell_bounds(union: WinRect, wayland: bool, primary: Option<(i64, i64)>, scale: i64) -> (r:
    Rect)
    requires
        scale > 0,
        union.width <= i32::MAX && union.height <= i32::MAX,
    ensures
        r.x == union.x * (PX * PX) / scale as int,
        r.y == union.y * (PX * PX) / scale as int,
        (r.w, r.h) == (if wayland {
            match primary {
                Some(d) => d,
                None => SHELL,
            }
        } else {
            (
                (union.width * (PX * PX) / scale as int) as i64,
                (union.height * (PX * PX) / scale as int) as i64,
            )
        }),
{
    let (w, h): (i64, i64) = if wayland {
        match primary {
            Some(d) => d,
            None => SHELL,
        }
    } else {
        (logical_px(union.width as i64, scale), logical_px(union.height as i64, scale))
    };
    Rect { x: logical_px(union.x as i64, scale), y: logical_px(union.y as i64, scale), w, h }
}

/// What a frame shows over the frozen screen.
#[derive(Clone, Copy, Debug, PartialEq, Eq)]
pub struct Sight {
    /// How dark it is.
    pub dim: i64,
    /// The pointer's coordinates, here.
    pub coord: Option<Point>,
    /// The window the pointer left, and the one it is over.
    pub left: Option<Glow>,
    pub over: Option<Glow>,
    pub selection: Option<Rect>,
    /// The selection's hint and handles.
    pub committed: bool,
    /// The loupe, here.
    pub loupe: Option<Point>,
    /// Another frame is to follow.
    pub again: bool,
}

/// How dark the screen is at `now`, when it was opened then.
pub open spec fn dimmed(opened: u64, now: u64, fade: u64) -> int {
    share(DIM as int, quadratic(gone(since(now, opened), fade as int)))
}

impl Overlay {
    /// Does the pointer's coordinate show? Only while it idles over
    /// nothing.
    pub open spec fn idles(self) -> bool {
        !self.dragging && self.current is None && self.hovered is None
    }

    /// The window that was left, while its highlight fades.
    pub open spec fn fading(self, now: u64, size: (i64, i64), pace: Pace) -> Option<Glow> {
        match self.hover_out {
            Some(h) => {
                let t = gone(since(now, h.1), pace.hover as int);
                if self.dragging || self.frame is None || t >= WAY {
                    None
                } else {
                    Some(Glow { rect: self.lens(size).logical(h.0), alpha: (WAY - t) as i64 })
                }
            },
            None => None,
        }
    }

    /// The window the pointer is over.
    pub open spec fn glowing(self, now: u64, size: (i64, i64), pace: Pace) -> Option<Glow> {
        match self.hovered {
            Some(w) => if self.dragging || self.frame is None {
                None
            } else {
                Some(
                    Glow {
                        rect: self.lens(size).logical(w),
                        alpha: match self.hover_in {
                            Some(then) => gone(since(now, then), pace.hover as int) as i64,
                            None => WAY,
                        },
                    },
                )
            },
            None => None,
        }
    }

    /// What the frame at `now` shows, of a picker that was opened then.
    pub open spec fn seen(self, opened: u64, now: u64, size: (i64, i64), pace: Pace) -> Sight {
        let left = self.fading(now, size, pace);
        let over = self.glowing(now, size, pace);
        Sight {
            dim: dimmed(opened, now, pace.dim) as i64,
            coord: if self.idles() {
                Some(coord_place(self.cursor, size))
            } else {
                None
            },
            left,
            over,
            selection: self.shown(size),
            committed: self.current is Some && !self.dragging,
            loupe: if (self.dragging || self.resize is Some) && self.loupe is Some {
                Some(loupe_place(self.cursor, size))
            } else {
                None
            },
            again: gone(since(now, opened), pace.dim as int) < WAY || left is Some || (
            over matches Some(g) && g.alpha < WAY),
        }
    }

    fn left_glow(&self, now: u64, size: (i64, i64), pace: Pace) -> (r: Option<Glow>)
        requires
            self.wf(),
            self.fits(size),
        ensures
            r == self.fading(now, size, pace),
    {
        match self.hover_out {
            Some(h) => {
                let t: i64 = progress(elapsed(now, h.1), pace.hover);
                if self.dragging || self.frame.is_none() || t >= WAY {
                    None
                } else {
                    Some(Glow { rect: self.lens_of(size).to_logical(h.0), alpha: WAY - t })
                }
            },
            None => None,
        }
    }

    fn over_glow(&self, now: u64, size: (i64, i64), pace: Pace) -> (r: Option<Glow>)
        requires
            self.wf(),
            self.fits(size),
        ensures
            r == self.glowing(now, size, pace),
    {
        match self.hovered {
            Some(w) => {
                if self.dragging || self.frame.is_none() {
                    return None;
                }
                let alpha: i64 = match self.hover_in {
                    Some(then) => progress(elapsed(now, then), pace.hover),
                    None => WAY,
                };
                Some(Glow { rect: self.lens_of(size).to_logical(w), alpha })
            },
            None => None,
        }
    }

    /// A frame at `now`: what it shows.
    pub fn sight(&mut self, now: u64, size: (i64, i64), pace: Pace) -> (r: Sight)
        requires
            old(self).wf(),
            old(self).fits(size),
        ensures
            final(self).wf(),
            *final(self) == old(self).framed(now, pace.hover),
            r == old(self).seen(old(self).since_opened(now), now, size, pace),
            0 <= r.dim <= DIM,
    {
        let left = self.left_glow(now, size, pace);
        let over = self.over_glow(now, size, pace);
        let coord = if !self.dragging && self.current.is_none() && self.hovered.is_none() {
            Some(coord_at(self.cursor, size))
        } else {
            None
        };
        let selection = self.selection_rect(size);
        let committed = self.current.is_some() && !self.dragging;
        let loupe = if (self.dragging || self.resize.is_some()) && self.loupe.is_some() {
            Some(loupe_at(self.cursor, size))
        } else {
            None
        };
        let opened: u64 = self.frame_at(now, pace.hover);
        let t: i64 = progress(elapsed(now, opened), pace.dim);
        let dim: i64 = part_of(DIM, ease_out(t));
        let coming = match over {
            Some(g) => g.alpha < WAY,
            None => false,
        };
        Sight {
            dim,
            coord,
            left,
            over,
            selection,
            committed,
            loupe,
            again: t < WAY || left.is_some() || coming,
        }
    }
}

/// What shows never gets in its own way: the coordinates never stand by a
/// selection or a highlight, and while the pointer drags neither
/// highlights nor hint and handles show under the loupe.
pub proof fn law_sight_is_clear(o: Overlay, opened: u64, now: u64, size: (i64, i64), pace: Pace)
    ensures
        ({
            let s = o.seen(opened, now, size, pace);
            &&& s.coord is Some ==> s.selection is None && s.over is None
            &&& o.dragging ==> s.coord is None && s.left is None && s.over is None && !s.committed
            &&& s.committed ==> s.selection is Some
        }),
{
}

/// A picker that nothing has happened to for a while draws no more
/// frames, fully dimmed.
pub proof fn law_sight_settles(o: Overlay, opened: u64, now: u64, size: (i64, i64), pace: Pace)
    requires
        since(now, opened) >= pace.dim,
        o.hover_out matches Some(h) ==> since(now, h.1) >= pace.hover,
        o.hover_in matches Some(then) ==> since(now, then) >= pace.hover,
    ensures
        !o.seen(opened, now, size, pace).again,
        o.seen(opened, now, size, pace).dim == DIM,
{
    law_movement_ends(since(now, opened), pace.dim as int);
    if let Some(h) = o.hover_out {
        law_movement_ends(since(now, h.1), pace.hover as int);
    }
    if let Some(then) = o.hover_in {
        law_movement_ends(since(now, then), pace.hover as int);
    }
    law_curves(WAY as int);
}

/// A frame of the flight.
#[derive(Clone, Copy, Debug, PartialEq, Eq, Structural)]
pub struct Aloft {
    /// The card, at least a pixel large.
    pub rect: Rect,
    /// How far it is the toast's card: its corners and its shadow.
    pub shape: i64,
    pub dim: i64,
    /// The toast takes the card over.
    pub hand_off: bool,
    /// Another frame is to follow.
    pub again: bool,
}

/// Is a flight over at `now`, its spring this far? The clock ends it
/// whatever the spring does.
pub open spec fn flown_home(f: Flight, now: u64, e: int, pace: Pace) -> bool {
    gone(since(now, f.started), pace.flight as int) >= WAY || rests(f.from, f.to, e)
}

/// No side less than a pixel.
pub open spec fn visible(r: Rect) -> Rect {
    Rect {
        w: max_of(r.w as int, PX as int) as i64,
        h: max_of(r.h as int, PX as int) as i64,
        ..r
    }
}

impl Overlay {
    /// The frame at `now` of this flight, its spring this far.
    pub open spec fn aloft(self, f: Flight, now: u64, e: int, pace: Pace) -> Aloft {
        let home = flown_home(f, now, e, pace);
        let lift = gone(since(now, f.started), pace.lift as int);
        Aloft {
            rect: visible(
                if home {
                    f.to
                } else {
                    flown(f.from, f.to, e)
                },
            ),
            shape: if home {
                WAY
            } else {
                e as i64
            },
            dim: share(dimmed(self.since_opened(now), now, pace.dim), WAY - quadratic(lift)) as i64,
            hand_off: home && self.landed,
            again: !home || lift < WAY,
        }
    }

    /// A frame of the flight at `now`, its spring `e` parts of the way.
    /// None: nothing flies.
    pub fn fly(&mut self, now: u64, e: i64, pace: Pace) -> (r: Option<Aloft>)
        requires
            old(self).wf(),
            crate::flight::progress(e),
        ensures
            final(self).wf(),
            match old(self).flight {
                None => r is None && *final(self) == *old(self),
                Some(f) => {
                    &&& r == Some(old(self).aloft(f, now, e as int, pace))
                    &&& *final(self) == (Overlay {
                        opened: Some(old(self).since_opened(now)),
                        landed: old(self).landed && !flown_home(f, now, e as int, pace),
                        ..*old(self)
                    })
                },
            },
    {
        match self.flight {
            None => None,
            Some(f) => {
                let flew: u64 = elapsed(now, f.started);
                let home = progress(flew, pace.flight) >= WAY || flight_at_rest(f.from, f.to, e);
                let lift: i64 = progress(flew, pace.lift);
                let opened: u64 = match self.opened {
                    Some(t) => t,
                    None => now,
                };
                let dark: i64 = part_of(DIM, ease_out(progress(elapsed(now, opened), pace.dim)));
                let dim: i64 = part_of(dark, WAY - ease_out(lift));
                let card = if home {
                    f.to
                } else {
                    flight_rect(f.from, f.to, e)
                };
                let hand_off = self.flight_frame(home);
                self.opened = Some(opened);
                Some(
                    Aloft {
                        rect: Rect {
                            x: card.x,
                            y: card.y,
                            w: most(card.w, PX),
                            h: most(card.h, PX),
                        },
                        shape: if home {
                            WAY
                        } else {
                            e
                        },
                        dim,
                        hand_off,
                        again: !home || lift < WAY,
                    },
                )
            },
        }
    }
}

/// A flight ends: when its clock has run out the card lies where the
/// toast's card will, in its shape, and the dim is gone.
pub proof fn law_flight_lands(o: Overlay, f: Flight, now: u64, e: int, pace: Pace)
    requires
        f.to.w >= PX,
        f.to.h >= PX,
        since(now, f.started) >= pace.flight,
        since(now, f.started) >= pace.lift,
    ensures
        ({
            let a = o.aloft(f, now, e, pace);
            a.rect == f.to && a.shape == WAY && a.dim == 0 && !a.again && a.hand_off == o.landed
        }),
{
    law_movement_ends(since(now, f.started), pace.flight as int);
    law_movement_ends(since(now, f.started), pace.lift as int);
    law_curves(WAY as int);
    let dark = dimmed(o.since_opened(now), now, pace.dim);
    assert(dark * 0 == 0) by (nonlinear_arith);
}

/// The window under the pointer glows where it stands, all of it once its
/// time is over, and the one that was left fades where it stood.
pub proof fn law_glow(o: Overlay, w: WinRect, at: u64, now: u64, size: (i64, i64), pace: Pace)
    requires
        !o.dragging && o.frame is Some,
        at <= now,
        pace.hover > 0,
    ensures
        o.hovered == Some(w) ==> (o.glowing(now, size, pace) matches Some(g) && g.rect == o.lens(
            size,
        ).logical(w)),
        o.hovered == Some(w) && o.hover_in == Some(at) && now >= at + pace.hover ==> (o.glowing(
            now,
            size,
            pace,
        ) matches Some(g) && g.alpha == WAY),
        o.hovered == Some(w) && o.hover_in == Some(now) ==> (o.glowing(now, size, pace) matches Some(
            g,
        ) && g.alpha == 0),
        o.hover_out == Some((w, now)) ==> (o.fading(now, size, pace) matches Some(g) && g.rect
            == o.lens(size).logical(w) && g.alpha == WAY),
        o.hover_out == Some((w, at)) && now >= at + pace.hover ==> o.fading(now, size, pace) is None,
        o.hovered is None ==> o.glowing(now, size, pace) is None,
{
    crate::motion::law_gone(0, pace.hover as int);
    if now >= at + pace.hover {
        crate::motion::law_movement_ends(now - at, pace.hover as int);
    }
}

} // verus!
