//! Where the toast's and the notice's cards are in a frame: their way in, a
//! swipe and their way out.

use vstd::prelude::*;
use crate::action::PAGE;
use crate::card::MARGIN;
use crate::flight::WAY;
use crate::geom::{clamp_of, clamped, floor_div, PX};
use crate::motion::{
    ease_out,
    ease_out_quartic,
    gone,
    law_curves,
    law_movement_ends,
    part_of,
    progress,
    quadratic,
    quartic,
    share,
};
use crate::notice::{Notice, W};
use crate::stage::{elapsed, since, Bar, Tempo, ToastStage};

verus! {

/// What a leaving card goes beyond its own width and margins.
pub const BEYOND: i64 = 240_000;

/// A leaving card fades over the last third of its way.
pub const FADE_FROM: i64 = 660_000_000;

/// How a frame draws the card, in units and in parts.
#[derive(Clone, Copy, Debug, PartialEq, Eq, Structural)]
pub struct Pose {
    /// How far its edge is from the window's, on the side it lies at.
    pub offset: i64,
    pub opacity: i64,
    pub shadow: i64,
    /// How far its action bar is shown.
    pub bar: i64,
}

/// A card of this width on its way in.
pub open spec fn entering(w: int, e: int) -> int {
    MARGIN - share(w + 2 * MARGIN, WAY - e)
}

/// A card of this width on its way out, from where a swipe had carried it.
pub open spec fn leaving(w: int, from: int, t: int) -> int {
    MARGIN - from - share(share(w + 2 * MARGIN + BEYOND, t), t)
}

/// How far a card is shown on its way out.
pub open spec fn fading(t: int) -> int {
    WAY - clamp_of((t - FADE_FROM) * 100 / 34, 0, WAY as int)
}

impl ToastStage {
    /// The card at rest, swiped or springing back, `back` parts of the way.
    pub open spec fn carried(self, w: int, e: int, back: int) -> int {
        let swipe = match self.swipe {
            Some(s) => s.dx as int,
            None => 0,
        };
        let returning = match self.swipe_return {
            Some(r) => share(r.1 as int, WAY - back),
            None => 0,
        };
        entering(w, e) - swipe - returning
    }

    /// The frame at `now` of a card of this width, its swipe `back` parts
    /// of the way back.
    pub open spec fn posed(self, w: int, now: u64, back: int, t: Tempo) -> Pose {
        let e = quartic(gone(since(now, self.entered(now)), t.enter as int));
        let bar = match self.bar {
            Bar::Shown => WAY as int,
            Bar::Hidden => 0,
            Bar::FadingIn(from) => quadratic(gone(since(now, from), t.fade as int)),
        };
        let out = match self.closing_at {
            Some(c) => gone(since(now, c), self.exit_time(t) as int),
            None => 0,
        };
        let (offset, opacity) = if self.pending_morph is Some {
            (MARGIN as int, WAY as int)
        } else if self.closing_at is None {
            (self.carried(w, e, back), WAY as int)
        } else if self.quick {
            (self.carried(w, e, back), WAY - out)
        } else {
            (leaving(w, self.exit_from as int, out), fading(out))
        };
        Pose {
            offset: offset as i64,
            opacity: opacity as i64,
            shadow: e as i64,
            bar: bar as i64,
        }
    }

    /// The frame at `now` of a card of this width, its swipe `back` parts
    /// of the way back.
    pub fn pose(&self, w: i64, now: u64, back: i64, t: Tempo) -> (r: Pose)
        requires
            self.wf(),
            0 <= w <= PAGE,
            -WAY <= back <= 2 * WAY,
        ensures
            r == self.posed(w as int, now, back as int, t),
            0 <= r.opacity <= WAY,
            0 <= r.shadow <= WAY,
            0 <= r.bar <= WAY,
    {
        let opened: u64 = match self.opened {
            Some(o) => o,
            None => now,
        };
        let e: i64 = ease_out_quartic(progress(elapsed(now, opened), t.enter));
        let bar: i64 = match self.bar {
            Bar::Shown => WAY,
            Bar::Hidden => 0,
            Bar::FadingIn(from) => ease_out(progress(elapsed(now, from), t.fade)),
        };
        if self.pending_morph.is_some() {
            return Pose { offset: MARGIN, opacity: WAY, shadow: e, bar };
        }
        let swipe: i64 = match self.swipe {
            Some(s) => s.dx,
            None => 0,
        };
        let returning: i64 = match self.swipe_return {
            Some(b) => part_of(b.1, WAY - back),
            None => 0,
        };
        let carried: i64 = MARGIN - part_of(w + 2 * MARGIN, WAY - e) - swipe - returning;
        match self.closing_at {
            None => Pose { offset: carried, opacity: WAY, shadow: e, bar },
            Some(c) => {
                let out: i64 = progress(
                    elapsed(now, c),
                    if self.quick {
                        t.replace
                    } else {
                        t.exit
                    },
                );
                if self.quick {
                    Pose { offset: carried, opacity: WAY - out, shadow: e, bar }
                } else {
                    let far: i64 = part_of(w + 2 * MARGIN + BEYOND, out);
                    Pose {
                        offset: MARGIN - self.exit_from - part_of(far, out),
                        opacity: WAY - clamped(over_thirds(out), 0, WAY),
                        shadow: e,
                        bar,
                    }
                }
            },
        }
    }
}

impl Notice {
    /// The frame at `now` of the notice's card, whose way in takes
    /// `enter`, its way out `exit` and its fast fade `replace`: offset,
    /// opacity and shadow.
    pub open spec fn posed(self, now: u64, enter: u64, exit: u64, replace: u64) -> (int, int, int) {
        let from = match self.opened {
            Some(t) => t,
            None => now,
        };
        let e = quartic(gone(since(now, from), enter as int));
        match self.closing {
            None => (entering(W as int, e), WAY as int, e),
            Some(c) => if c.1 {
                (entering(W as int, e), WAY - gone(since(now, c.0), replace as int), e)
            } else {
                let t = gone(since(now, c.0), exit as int);
                (
                    entering(W as int, e) - share(share(W + 2 * MARGIN + BEYOND, t), t),
                    fading(t),
                    e,
                )
            },
        }
    }

    /// The frame at `now` of the notice's card.
    pub fn pose(&self, now: u64, enter: u64, exit: u64, replace: u64) -> (r: (i64, i64, i64))
        ensures
            ({
                let want = self.posed(now, enter, exit, replace);
                r.0 == want.0 && r.1 == want.1 && r.2 == want.2
            }),
            0 <= r.1 <= WAY,
            0 <= r.2 <= WAY,
    {
        let from: u64 = match self.opened {
            Some(t) => t,
            None => now,
        };
        let e: i64 = ease_out_quartic(progress(elapsed(now, from), enter));
        let place: i64 = MARGIN - part_of(W + 2 * MARGIN, WAY - e);
        match self.closing {
            None => (place, WAY, e),
            Some(c) => {
                if c.1 {
                    (place, WAY - progress(elapsed(now, c.0), replace), e)
                } else {
                    let t: i64 = progress(elapsed(now, c.0), exit);
                    let far: i64 = part_of(W + 2 * MARGIN + BEYOND, t);
                    (place - part_of(far, t), WAY - clamped(over_thirds(t), 0, WAY), e)
                }
            },
        }
    }
}

/// A notice that has come in rests at its margin, fully shown; one that
/// has left lies beyond the window's edge and is not shown.
pub proof fn law_notice_comes_and_goes(n: Notice, now: u64, enter: u64, exit: u64, replace: u64)
    requires
        n.opened matches Some(t) && since(now, t) >= enter,
    ensures
        n.closing is None ==> n.posed(now, enter, exit, replace) == (
            MARGIN as int,
            WAY as int,
            WAY as int,
        ),
        n.closing matches Some(c) && !c.1 && since(now, c.0) >= exit ==> ({
            let p = n.posed(now, enter, exit, replace);
            p.0 + W < 0 && p.1 == 0
        }),
{
    law_movement_ends(since(now, n.opened->0), enter as int);
    law_curves(WAY as int);
    assert((W + 2 * MARGIN) * 0 == 0) by (nonlinear_arith);
    if let Some(c) = n.closing {
        if !c.1 && since(now, c.0) >= exit {
            law_movement_ends(since(now, c.0), exit as int);
            law_card_leaves(W as int, 0);
        }
    }
}

fn over_thirds(t: i64) -> (r: i64)
    requires
        0 <= t <= WAY,
    ensures
        r == (t - FADE_FROM) * 100 / 34,
{
    floor_div((t as i128 - FADE_FROM as i128) * 100, 34) as i64
}

/// A card that has come in, that nothing carries and that does not leave
/// is at rest: at its margin, fully shown.
pub proof fn law_card_rests(s: ToastStage, w: int, now: u64, back: int, t: Tempo)
    requires
        s.swipe is None,
        s.swipe_return is None,
        s.closing_at is None,
        since(now, s.entered(now)) >= t.enter,
    ensures
        s.posed(w, now, back, t).offset == MARGIN,
        s.posed(w, now, back, t).opacity == WAY,
        s.posed(w, now, back, t).shadow == WAY,
{
    law_movement_ends(since(now, s.entered(now)), t.enter as int);
    law_curves(WAY as int);
    assert((w + 2 * MARGIN) * 0 == 0) by (nonlinear_arith);
}

/// A card leaves from where a swipe had carried it, and when it is gone
/// it lies wholly beyond the window's edge and is not shown.
pub proof fn law_card_leaves(w: int, from: int)
    requires
        0 <= w,
        0 <= from,
    ensures
        leaving(w, from, 0) == MARGIN - from,
        fading(0) == WAY,
        leaving(w, from, WAY as int) + w < 0,
        fading(WAY as int) == 0,
{
    let len = w + 2 * MARGIN + BEYOND;
    assert(len * 0 == 0 && 0 * 0 == 0) by (nonlinear_arith);
    assert(len * WAY / WAY as int == len) by (nonlinear_arith)
        requires
            WAY == 1_000_000_000,
    ;
}

/// A swipe that is let go starts back from where it was let go, and one
/// that is back has left no trace.
pub proof fn law_swipe_returns(s: ToastStage, w: int, e: int)
    requires
        s.swipe is None,
        s.swipe_return is Some,
    ensures
        s.carried(w, e, 0) == entering(w, e) - (s.swipe_return->0).1,
        s.carried(w, e, WAY as int) == entering(w, e),
{
    let dx = (s.swipe_return->0).1 as int;
    assert(dx * WAY / WAY as int == dx && dx * 0 == 0) by (nonlinear_arith)
        requires
            WAY == 1_000_000_000,
    ;
}

/// A card comes in from beyond the edge to its margin.
pub proof fn law_card_enters(w: int, e: int)
    requires
        0 <= w,
        0 <= e <= WAY,
    ensures
        entering(w, 0) + w == -12 * PX,
        entering(w, WAY as int) == 12 * PX,
        -w - 12 * PX <= entering(w, e) <= 12 * PX,
{
    let d = w + 2 * MARGIN;
    let way = WAY as int;
    assert(d * way / way == d) by (nonlinear_arith)
        requires
            way == 1_000_000_000,
    ;
    assert(d * 0 == 0) by (nonlinear_arith);
    assert(0 <= d * (way - e) <= d * way) by (nonlinear_arith)
        requires
            d >= 0,
            0 <= e <= way,
    ;
}

/// A swipe carries the card as far as it went; one that the editor takes
/// over stays at its place, opaque.
pub proof fn law_card_carried(s: ToastStage, w: int, now: u64, back: int, t: Tempo)
    ensures
        s.swipe_return is None ==> (s.swipe matches Some(p) ==> s.carried(w, WAY as int, back)
            == entering(w, WAY as int) - p.dx),
        s.pending_morph is Some ==> s.posed(w, now, back, t).offset == 12 * PX && s.posed(
            w,
            now,
            back,
            t,
        ).opacity == WAY,
        s.pending_morph is None && s.closing_at is None ==> s.posed(w, now, back, t).opacity == WAY,
        s.bar is Shown ==> s.posed(w, now, back, t).bar == WAY,
        s.bar is Hidden ==> s.posed(w, now, back, t).bar == 0,
{
}

} // verus!
