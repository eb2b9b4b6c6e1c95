//! The toast: how it waits, is swiped, pinned, handed over and leaves.
//! Times are in milliseconds, lengths in units.

use vstd::prelude::*;
use crate::action::PAGE;
use crate::config::{ToastClickAction, ToastPosition};
use crate::geom::{floor_div, least, max_of, min_of, most, Point, Rect, PX};
use crate::text::{decimal, push_decimal};

verus! {

/// A velocity this old at release is that of a stopped finger.
pub const SWIPE_STALE: u64 = 120;

/// A swipe this long, in units, or this fast, in units a second,
/// dismisses.
pub const SWIPE_TRAVEL: i64 = 1_000_000;

pub const SWIPE_VELOCITY: i64 = 4_000_000;

/// How long the toast waits for the editor's first frame, and how long it
/// stays after it.
pub const MORPH_WAIT: u64 = 2000;

pub const PRESENT_GRACE: u64 = 60;

#[derive(Clone, Copy, Debug, PartialEq, Eq, Structural)]
pub enum Gesture {
    Undecided,
    Swipe,
    FileDrag,
}

/// The action bar. A landed toast opens without it.
#[derive(Clone, Copy, Debug, PartialEq, Eq, Structural)]
pub enum Bar {
    Shown,
    Hidden,
    FadingIn(u64),
}

/// A swipe towards the screen's edge: how far it is, its velocity in
/// units a second, and the last sample.
#[derive(Clone, Copy, Debug, PartialEq, Eq, Structural)]
pub struct Swipe {
    pub dx: i64,
    pub vel: i64,
    pub last_at: u64,
    pub last_dx: i64,
}

/// The settings a toast was opened with.
#[derive(Clone, Copy, Debug, PartialEq, Eq, Structural)]
pub struct Prefs {
    pub position: ToastPosition,
    pub click: ToastClickAction,
    pub drag: bool,
}

pub struct ToastStage {
    pub prefs: Prefs,
    /// The scale, in units, that the pixels were made for.
    pub thumb_scale: i64,
    /// The pixels are being made for another scale.
    pub rescaling: bool,
    pub card_screen: Rect,
    pub opened: Option<u64>,
    pub hover_paused: bool,
    pub pinned: bool,
    /// Counts the countdowns; only the latest one dismisses.
    pub dismiss_gen: u64,
    pub closing_at: Option<u64>,
    /// Replaced by a newer capture: a fast fade.
    pub quick: bool,
    /// How far a swipe had carried the card when it left.
    pub exit_from: i64,
    pub drag_start: Option<Point>,
    pub gesture: Gesture,
    pub swipe: Option<Swipe>,
    pub swipe_return: Option<(u64, i64)>,
    pub menu_at: Option<Point>,
    pub menu_opened: Option<u64>,
    /// A press that closed the menu is no click.
    pub swallow_click: bool,
    /// When the card was handed to the editor.
    pub pending_morph: Option<u64>,
    /// When the editor's first frame was seen.
    pub morph_ready_at: Option<u64>,
    pub status: Option<String>,
    /// A result is awaited: the card does not leave.
    pub busy: bool,
    pub bar: Bar,
}

/// What a countdown that ran out does.
#[derive(Clone, Copy, Debug, PartialEq, Eq, Structural)]
pub enum Due {
    Nothing,
    /// It starts over, as this countdown.
    Again(u64),
    Close,
}

impl ToastStage {
    /// Can a countdown start?
    pub open spec fn arms(self) -> bool {
        !self.pinned && self.closing_at is None
    }

    /// The toast after a countdown was started, if it was.
    pub open spec fn armed(self) -> ToastStage {
        if self.arms() {
            ToastStage { dismiss_gen: (self.dismiss_gen + 1) as u64, ..self }
        } else {
            self
        }
    }

    /// The toast after it started to leave, unless it is leaving already.
    pub open spec fn closing(self, now: u64) -> ToastStage {
        if self.closing_at is Some || self.pending_morph is Some {
            self
        } else {
            ToastStage { closing_at: Some(now), ..self }
        }
    }

    /// What countdown `gen` does when it runs out.
    pub open spec fn due(self, gen: u64) -> Due {
        if self.dismiss_gen != gen || self.pinned {
            Due::Nothing
        } else if self.hover_paused || self.menu_at is Some || self.busy {
            if self.arms() {
                Due::Again((self.dismiss_gen + 1) as u64)
            } else {
                Due::Nothing
            }
        } else {
            Due::Close
        }
    }

    /// A toast for a card at this place. A landed one is at rest, without
    /// its action bar; `entered` is when its entrance would have begun.
    pub fn new(prefs: Prefs, scale: i64, card: Rect, landed: bool, entered: u64) -> (r: ToastStage)
        ensures
            r.prefs == prefs,
            r.thumb_scale == scale,
            r.card_screen == card,
            r.opened == (if landed {
                Some(entered)
            } else {
                None
            }),
            r.bar == (if landed {
                Bar::Hidden
            } else {
                Bar::Shown
            }),
            r.dismiss_gen == 0 && r.exit_from == 0,
            !r.rescaling && !r.hover_paused && !r.pinned && !r.quick && !r.swallow_click && !r.busy,
            r.closing_at is None && r.drag_start is None && r.swipe is None,
            r.swipe_return is None && r.menu_at is None && r.menu_opened is None,
            r.pending_morph is None && r.morph_ready_at is None && r.status is None,
            r.gesture is Undecided,
    {
        ToastStage {
            prefs,
            thumb_scale: scale,
            rescaling: false,
            card_screen: card,
            opened: if landed {
                Some(entered)
            } else {
                None
            },
            hover_paused: false,
            pinned: false,
            dismiss_gen: 0,
            closing_at: None,
            quick: false,
            exit_from: 0,
            drag_start: None,
            gesture: Gesture::Undecided,
            swipe: None,
            swipe_return: None,
            menu_at: None,
            menu_opened: None,
            swallow_click: false,
            pending_morph: None,
            morph_ready_at: None,
            status: None,
            busy: false,
            bar: if landed {
                Bar::Hidden
            } else {
                Bar::Shown
            },
        }
    }

    /// Fade in the action bar that a landed toast opened without.
    pub fn reveal_bar(&mut self, now: u64)
        ensures
            *final(self) == (ToastStage {
                bar: if old(self).bar is Hidden {
                    Bar::FadingIn(now)
                } else {
                    old(self).bar
                },
                ..*old(self)
            }),
    {
        if self.bar == Bar::Hidden {
            self.bar = Bar::FadingIn(now);
        }
    }

    /// Start a countdown; its number comes back. A pinned or leaving
    /// toast has none.
    pub fn arm_dismiss(&mut self) -> (gen: Option<u64>)
        requires
            old(self).dismiss_gen < u64::MAX,
        ensures
            *final(self) == old(self).armed(),
            gen == (if old(self).arms() {
                Some((old(self).dismiss_gen + 1) as u64)
            } else {
                None
            }),
    {
        if self.pinned || self.closing_at.is_some() {
            return None;
        }
        self.dismiss_gen = self.dismiss_gen + 1;
        Some(self.dismiss_gen)
    }

    /// Countdown `gen` ran out. Under the pointer, with its menu open or
    /// with a result awaited the toast stays for another one.
    pub fn dismiss_due(&mut self, gen: u64, now: u64) -> (r: Due)
        requires
            old(self).dismiss_gen < u64::MAX,
        ensures
            r == old(self).due(gen),
            *final(self) == (match r {
                Due::Nothing => *old(self),
                Due::Again(_) => old(self).armed(),
                Due::Close => old(self).closing(now),
            }),
    {
        if self.dismiss_gen != gen || self.pinned {
            return Due::Nothing;
        }
        if self.hover_paused || self.menu_at.is_some() || self.busy {
            match self.arm_dismiss() {
                Some(g) => Due::Again(g),
                None => Due::Nothing,
            }
        } else {
            self.begin_close(now);
            Due::Close
        }
    }

    /// Pin the toast, which then stays, or let it go. A countdown that
    /// starts comes back.
    pub fn toggle_pin(&mut self) -> (gen: Option<u64>)
        requires
            old(self).dismiss_gen < u64::MAX,
        ensures
            if old(self).pinned {
                let free = ToastStage { pinned: false, ..*old(self) };
                &&& *final(self) == free.armed()
                &&& gen == (if free.arms() {
                    Some((old(self).dismiss_gen + 1) as u64)
                } else {
                    None
                })
            } else {
                &&& *final(self) == (ToastStage { pinned: true, closing_at: None, ..*old(self) })
                &&& gen is None
            },
    {
        self.pinned = !self.pinned;
        if self.pinned {
            self.closing_at = None;
            None
        } else {
            self.arm_dismiss()
        }
    }

    /// Start to leave, unless the toast is leaving or handed over.
    pub fn begin_close(&mut self, now: u64)
        ensures
            *final(self) == old(self).closing(now),
    {
        if self.closing_at.is_some() || self.pending_morph.is_some() {
            return;
        }
        self.closing_at = Some(now);
    }

    /// Replaced by a newer capture: leave fast.
    pub fn fade_out_quick(&mut self, now: u64)
        ensures
            *final(self) == (ToastStage { quick: true, ..*old(self) }).closing(now),
    {
        self.quick = true;
        self.begin_close(now);
    }

    /// The editor opened over the card: stay until its first frame.
    pub fn handed_to_editor(&mut self, now: u64)
        ensures
            *final(self) == (ToastStage { pending_morph: Some(now), ..*old(self) }),
    {
        self.pending_morph = Some(now);
    }

    /// Show a text over the card and give it a full countdown.
    pub fn show_status(&mut self, text: String) -> (gen: Option<u64>)
        requires
            old(self).dismiss_gen < u64::MAX,
        ensures
            *final(self) == (ToastStage { status: Some(text), ..*old(self) }).armed(),
            gen == (if old(self).arms() {
                Some((old(self).dismiss_gen + 1) as u64)
            } else {
                None
            }),
    {
        self.status = Some(text);
        self.arm_dismiss()
    }

    /// An action's result is there: show its message, or its error.
    pub fn reported(&mut self, result: Result<String, String>) -> (gen: Option<u64>)
        requires
            old(self).dismiss_gen < u64::MAX,
        ensures
            *final(self) == (ToastStage {
                busy: false,
                status: Some(
                    match result {
                        Ok(t) => t,
                        Err(t) => t,
                    },
                ),
                ..*old(self)
            }).armed(),
            gen == (if old(self).arms() {
                Some((old(self).dismiss_gen + 1) as u64)
            } else {
                None
            }),
    {
        self.busy = false;
        match result {
            Ok(t) => self.show_status(t),
            Err(t) => self.show_status(t),
        }
    }

    /// The pointer came over the card or left it; leaving starts a
    /// countdown.
    pub fn hover(&mut self, over: bool) -> (gen: Option<u64>)
        requires
            old(self).dismiss_gen < u64::MAX,
        ensures
            ({
                let h = ToastStage { hover_paused: over, ..*old(self) };
                if over {
                    *final(self) == h && gen is None
                } else {
                    *final(self) == h.armed() && gen == (if h.arms() {
                        Some((old(self).dismiss_gen + 1) as u64)
                    } else {
                        None
                    })
                }
            }),
    {
        self.hover_paused = over;
        if over {
            None
        } else {
            self.arm_dismiss()
        }
    }
}

/// Only the latest countdown dismisses: once another one has started, a
/// countdown that runs out does nothing.
pub proof fn law_latest_countdown(s: ToastStage, gen: u64)
    requires
        gen <= s.dismiss_gen < u64::MAX,
        s.arms(),
    ensures
        s.armed().due(gen) is Nothing,
{
}

/// A pinned toast never leaves by a countdown.
pub proof fn law_pinned_stays(s: ToastStage, gen: u64)
    requires
        s.pinned,
    ensures
        s.due(gen) is Nothing,
        !s.arms(),
{
}

/// The velocity of a step, in units a second.
pub open spec fn step_speed(d: int, ms: int) -> int {
    d * 1000 / max_of(ms, 1)
}

/// The smoothed velocity: the last one weighs 65 parts of a hundred, the
/// new one the rest.
pub open spec fn smoothed(vel: int, v: int) -> int {
    (65 * vel + 35 * v) / 100
}

/// A pointer position that a window can have.
pub open spec fn pointer(p: Point) -> bool {
    -PAGE <= p.x <= PAGE && -PAGE <= p.y <= PAGE
}

/// Velocities stay within this.
pub const FASTEST: i64 = 200_000_000_000_000_000;

/// The swipe after another sample.
pub open spec fn sampled(s: Swipe, d: int, now: int) -> Swipe {
    Swipe {
        dx: max_of(d, 0) as i64,
        vel: smoothed(
            s.vel as int,
            step_speed(d - s.last_dx, max_of(now - s.last_at, 0)),
        ) as i64,
        last_at: now as u64,
        last_dx: d as i64,
    }
}

pub open spec fn swipe_wf(s: Swipe) -> bool {
    &&& -FASTEST <= s.vel <= FASTEST
    &&& -2 * PAGE <= s.last_dx <= 2 * PAGE
    &&& 0 <= s.dx <= 2 * PAGE
}

fn sample(s: Swipe, d: i64, now: u64) -> (r: Swipe)
    requires
        swipe_wf(s),
        -2 * PAGE <= d <= 2 * PAGE,
    ensures
        r == sampled(s, d as int, now as int),
        swipe_wf(r),
{
    let dt: i128 = if now > s.last_at + 0 && now - s.last_at >= 1 {
        (now - s.last_at) as i128
    } else {
        1
    };
    let step: i128 = d as i128 - s.last_dx as i128;
    proof {
        let q = (step * 1000) as int / dt as int;
        assert(-4000 * PAGE <= q <= 4000 * PAGE) by (nonlinear_arith)
            requires
                q == (step * 1000) as int / dt as int,
                -4 * PAGE <= step <= 4 * PAGE,
                dt >= 1,
                PAGE == 42_949_672_960_000,
        ;
    }
    let v: i128 = floor_div(step * 1000, dt);
    let vel: i128 = floor_div(65 * s.vel as i128 + 35 * v, 100);
    Swipe { dx: most(d, 0), vel: vel as i64, last_at: now, last_dx: d }
}

/// What a pointer's move over the toast starts.
#[derive(Clone, Copy, Debug, PartialEq, Eq, Structural)]
pub enum Moved {
    Nothing,
    /// The card has to be drawn anew.
    Redraw,
    /// A drag of the file begins.
    DragFile,
}

/// How far the pointer went towards the toast's own screen edge.
pub open spec fn towards_edge(pos: ToastPosition, dx: int) -> int {
    if pos.is_left() {
        -dx
    } else {
        dx
    }
}

impl ToastStage {
    pub open spec fn wf(self) -> bool {
        &&& self.drag_start matches Some(p) ==> pointer(p)
        &&& self.swipe matches Some(s) ==> swipe_wf(s)
        &&& self.menu_at matches Some(p) ==> pointer(p)
        &&& 0 <= self.exit_from <= 2 * PAGE
        &&& self.swipe_return matches Some(r) ==> 0 <= r.1 <= 2 * PAGE
    }

    /// The toast after the pointer moved to `p` with the button held, and
    /// what that starts.
    pub open spec fn after_move(self, p: Point, now: u64) -> (ToastStage, Moved) {
        if self.gesture is FileDrag || self.drag_start is None {
            (self, Moved::Nothing)
        } else {
            let from = self.drag_start->0;
            let dx = p.x - from.x;
            let dy = p.y - from.y;
            let d = towards_edge(self.prefs.position, dx);
            if self.gesture is Swipe {
                (
                    ToastStage {
                        swipe: match self.swipe {
                            Some(s) => Some(sampled(s, d, now as int)),
                            None => None,
                        },
                        ..self
                    },
                    Moved::Redraw,
                )
            } else if dx * dx + dy * dy < 64 * PX * PX {
                (self, Moved::Nothing)
            } else if d > 6 * PX && max_of(d, -d) > 2 * max_of(dy, -dy) {
                (
                    ToastStage {
                        gesture: Gesture::Swipe,
                        swipe: Some(
                            Swipe {
                                dx: max_of(d, 0) as i64,
                                vel: 0,
                                last_at: now,
                                last_dx: d as i64,
                            },
                        ),
                        ..self
                    },
                    Moved::Redraw,
                )
            } else if self.prefs.drag {
                (ToastStage { gesture: Gesture::FileDrag, ..self }, Moved::DragFile)
            } else {
                (self, Moved::Redraw)
            }
        }
    }

    /// The pointer moved to `p` with the button held: a move mostly
    /// towards the screen's edge is a swipe, any other a drag of the
    /// file.
    pub fn pointer_moved(&mut self, p: Point, now: u64) -> (r: Moved)
        requires
            old(self).wf(),
            pointer(p),
        ensures
            final(self).wf(),
            (*final(self), r) == old(self).after_move(p, now),
    {
        if self.gesture == Gesture::FileDrag {
            return Moved::Nothing;
        }
        match self.drag_start {
            None => Moved::Nothing,
            Some(from) => {
                let dx: i64 = p.x - from.x;
                let dy: i64 = p.y - from.y;
                let d: i64 = if self.prefs.position.left() {
                    -dx
                } else {
                    dx
                };
                if self.gesture == Gesture::Swipe {
                    if let Some(s) = self.swipe {
                        self.swipe = Some(sample(s, d, now));
                    }
                    return Moved::Redraw;
                }
                if !far(dx, dy) {
                    return Moved::Nothing;
                }
                if d > 6 * PX && most(d, -d) > 2 * most(dy, -dy) {
                    self.gesture = Gesture::Swipe;
                    self.swipe = Some(Swipe { dx: most(d, 0), vel: 0, last_at: now, last_dx: d });
                    Moved::Redraw
                } else if self.prefs.drag {
                    self.gesture = Gesture::FileDrag;
                    Moved::DragFile
                } else {
                    Moved::Redraw
                }
            },
        }
    }

    /// The toast after a swipe was let go: far or fast enough, it leaves
    /// from where it was carried; else it springs back.
    pub open spec fn swiped(self, now: u64) -> ToastStage {
        match self.swipe {
            None => self,
            Some(s) => {
                let vel = if now - s.last_at > SWIPE_STALE {
                    0
                } else {
                    s.vel as int
                };
                let t = ToastStage { swipe: None, ..self };
                if vel > SWIPE_VELOCITY || s.dx > SWIPE_TRAVEL {
                    (ToastStage { exit_from: s.dx, ..t }).closing(now)
                } else {
                    ToastStage { swipe_return: Some((now, s.dx)), ..t }
                }
            },
        }
    }

    /// A swipe was let go.
    pub fn release_swipe(&mut self, now: u64)
        requires
            old(self).wf(),
        ensures
            final(self).wf(),
            *final(self) == old(self).swiped(now),
    {
        if let Some(s) = self.swipe {
            self.swipe = None;
            let stale = now > s.last_at && now - s.last_at > SWIPE_STALE;
            let fast = !stale && s.vel > SWIPE_VELOCITY;
            if fast || s.dx > SWIPE_TRAVEL {
                self.exit_from = s.dx;
                self.begin_close(now);
            } else {
                self.swipe_return = Some((now, s.dx));
            }
        }
    }

    /// The button went up anywhere over the toast's window.
    pub fn pointer_up(&mut self, now: u64)
        requires
            old(self).wf(),
        ensures
            final(self).wf(),
            *final(self) == (ToastStage {
                drag_start: None,
                ..(if old(self).gesture is Swipe {
                    old(self).swiped(now)
                } else {
                    *old(self)
                })
            }),
    {
        if self.gesture == Gesture::Swipe {
            self.release_swipe(now);
        }
        self.drag_start = None;
    }

    /// The left button went down on the card.
    pub fn card_pressed(&mut self, p: Point)
        requires
            old(self).wf(),
            pointer(p),
        ensures
            final(self).wf(),
            *final(self) == (ToastStage {
                drag_start: Some(p),
                gesture: Gesture::Undecided,
                swipe_return: None,
                ..*old(self)
            }),
    {
        self.drag_start = Some(p);
        self.gesture = Gesture::Undecided;
        self.swipe_return = None;
    }

    /// The right button went down on the card: the menu opens there, kept
    /// inside a window of this size.
    pub fn open_menu(&mut self, p: Point, win: (i64, i64), menu: (i64, i64))
        requires
            old(self).wf(),
            pointer(p),
            0 <= win.0 <= PAGE,
            0 <= win.1 <= PAGE,
            0 <= menu.0 <= PAGE,
            0 <= menu.1 <= PAGE,
        ensures
            final(self).wf(),
            *final(self) == (ToastStage {
                menu_at: final(self).menu_at,
                menu_opened: None,
                ..*old(self)
            }),
            final(self).menu_at matches Some(q) && q.x == max_of(
                min_of(p.x as int, win.0 - menu.0 - 2 * PX),
                2 * PX,
            ) && q.y == max_of(min_of(p.y as int, win.1 - menu.1 - 2 * PX), 2 * PX),
    {
        self.menu_at = Some(
            Point {
                x: most(least(p.x, win.0 - menu.0 - 2 * PX), 2 * PX),
                y: most(least(p.y, win.1 - menu.1 - 2 * PX), 2 * PX),
            },
        );
        self.menu_opened = None;
    }

    /// The left button went down in the window: outside the menu it
    /// closes the menu, and is no click.
    pub fn window_pressed(&mut self, p: Point, menu: (i64, i64))
        requires
            old(self).wf(),
            0 <= menu.0 <= PAGE,
            0 <= menu.1 <= PAGE,
        ensures
            final(self).wf(),
            match old(self).menu_at {
                Some(m) => if m.x <= p.x <= m.x + menu.0 && m.y <= p.y <= m.y + menu.1 {
                    *final(self) == (ToastStage { swallow_click: false, ..*old(self) })
                } else {
                    *final(self) == (ToastStage {
                        swallow_click: true,
                        menu_at: None,
                        menu_opened: None,
                        ..*old(self)
                    })
                },
                None => *final(self) == (ToastStage { swallow_click: false, ..*old(self) }),
            },
    {
        self.swallow_click = false;
        if let Some(m) = self.menu_at {
            let inside = p.x >= m.x && p.x <= m.x + menu.0 && p.y >= m.y && p.y <= m.y + menu.1;
            if !inside {
                self.menu_at = None;
                self.menu_opened = None;
                self.swallow_click = true;
            }
        }
    }

    /// A click on the card ended: a swipe is let go, a file drag is over,
    /// a swallowed press is done, and any other click acts. The action
    /// comes back.
    pub fn clicked(&mut self, now: u64) -> (r: Option<ToastClickAction>)
        requires
            old(self).wf(),
        ensures
            final(self).wf(),
            match old(self).gesture {
                Gesture::Swipe => r is None && *final(self) == (ToastStage {
                    gesture: Gesture::Undecided,
                    ..old(self).swiped(now)
                }),
                Gesture::FileDrag => r is None && *final(self) == (ToastStage {
                    gesture: Gesture::Undecided,
                    ..*old(self)
                }),
                Gesture::Undecided => if old(self).swallow_click {
                    r is None && *final(self) == (ToastStage { swallow_click: false, ..*old(self) })
                } else {
                    r == Some(old(self).prefs.click) && *final(self) == *old(self)
                },
            },
    {
        match self.gesture {
            Gesture::Swipe => {
                self.release_swipe(now);
                self.gesture = Gesture::Undecided;
                None
            },
            Gesture::FileDrag => {
                self.gesture = Gesture::Undecided;
                None
            },
            Gesture::Undecided => {
                if self.swallow_click {
                    self.swallow_click = false;
                    None
                } else {
                    Some(self.prefs.click)
                }
            },
        }
    }
}

/// Is a move at least eight pixels long?
fn far(dx: i64, dy: i64) -> (r: bool)
    requires
        -2 * PAGE <= dx <= 2 * PAGE,
        -2 * PAGE <= dy <= 2 * PAGE,
    ensures
        r == (dx * dx + dy * dy >= 64 * PX * PX),
{
    let x: i128 = dx as i128;
    let y: i128 = dy as i128;
    proof {
        assert(0 <= x * x <= 4 * PAGE * PAGE) by (nonlinear_arith)
            requires
                -2 * PAGE <= x <= 2 * PAGE,
        ;
        assert(0 <= y * y <= 4 * PAGE * PAGE) by (nonlinear_arith)
            requires
                -2 * PAGE <= y <= 2 * PAGE,
        ;
        assert(4 * PAGE * PAGE < 0x1000_0000_0000_0000_0000_0000_0000) by (nonlinear_arith)
            requires
                PAGE == 42_949_672_960_000,
        ;
    }
    x * x + y * y >= 64 * PX as i128 * PX as i128
}

/// A row of the toast's menu.
#[derive(Clone, Copy, Debug, PartialEq, Eq, Structural)]
pub enum MenuItem {
    Markup,
    Copy,
    CopyText,
    Pin,
    Delete,
    Close,
}

/// The menu's rows, from the top.
pub open spec fn menu_items() -> Seq<MenuItem> {
    seq![
        MenuItem::Markup,
        MenuItem::Copy,
        MenuItem::CopyText,
        MenuItem::Pin,
        MenuItem::Delete,
        MenuItem::Close,
    ]
}

pub open spec fn menu_text(item: MenuItem) -> Seq<char> {
    match item {
        MenuItem::Markup => "Markup"@,
        MenuItem::Copy => "Copy"@,
        MenuItem::CopyText => "Copy text (OCR)"@,
        MenuItem::Pin => "Pin to screen"@,
        MenuItem::Delete => "Delete"@,
        MenuItem::Close => "Close"@,
    }
}

/// The menu's rows with their labels.
pub fn menu_rows() -> (r: Vec<(MenuItem, &'static str)>)
    ensures
        r@.len() == menu_items().len(),
        forall|i: int|
            0 <= i < r@.len() ==> #[trigger] r@[i].0 == menu_items()[i] && r@[i].1@ == menu_text(
                menu_items()[i],
            ),
{
    vec![
        (MenuItem::Markup, "Markup"),
        (MenuItem::Copy, "Copy"),
        (MenuItem::CopyText, "Copy text (OCR)"),
        (MenuItem::Pin, "Pin to screen"),
        (MenuItem::Delete, "Delete"),
        (MenuItem::Close, "Close"),
    ]
}

/// A button of the action bar.
#[derive(Clone, Copy, Debug, PartialEq, Eq, Structural)]
pub enum BarItem {
    Pin,
    CopyImage,
    CopyFile,
    OpenFolder,
    Markup,
    Delete,
}

/// The action bar's buttons, from the left.
pub open spec fn bar_items(show: bool, pin: bool) -> Seq<BarItem> {
    let rest = seq![
        BarItem::CopyImage,
        BarItem::CopyFile,
        BarItem::OpenFolder,
        BarItem::Markup,
        BarItem::Delete,
    ];
    if !show {
        Seq::empty()
    } else if pin {
        seq![BarItem::Pin] + rest
    } else {
        rest
    }
}

/// The action bar's buttons; none where the settings hide it, and no pin
/// where they leave it out.
pub fn bar_buttons(show: bool, pin: bool) -> (r: Vec<BarItem>)
    ensures
        r@ == bar_items(show, pin),
{
    let mut r: Vec<BarItem> = Vec::new();
    if show {
        if pin {
            r.push(BarItem::Pin);
        }
        r.push(BarItem::CopyImage);
        r.push(BarItem::CopyFile);
        r.push(BarItem::OpenFolder);
        r.push(BarItem::Markup);
        r.push(BarItem::Delete);
    }
    assert(r@ =~= bar_items(show, pin));
    r
}

/// What an action did, for the card's status line.
#[derive(Clone, Copy, Debug, PartialEq, Eq, Structural)]
pub enum Done {
    Image,
    File,
    /// Text of this many characters was read.
    Text(u64),
}

pub open spec fn done_of(d: Done) -> Seq<char> {
    match d {
        Done::Image => "Copied image"@,
        Done::File => "Copied file"@,
        Done::Text(n) => "Copied "@ + decimal(n as nat) + " characters"@,
    }
}

/// The status line for what was done.
pub fn done_text(d: Done) -> (r: String)
    ensures
        r@ == done_of(d),
{
    match d {
        Done::Image => "Copied image".to_owned(),
        Done::File => "Copied file".to_owned(),
        Done::Text(n) => {
            let mut r: String = "Copied ".to_owned();
            push_decimal(&mut r, n);
            r.append(" characters");
            r
        },
    }
}

impl ToastStage {
    /// The toast while text is read from the capture: it stays, and says
    /// so.
    pub open spec fn reading(self, text: String) -> ToastStage {
        (ToastStage { busy: true, status: Some(text), ..self }).armed()
    }

    /// Start to read text from the capture.
    pub fn copy_text(&mut self) -> (gen: Option<u64>)
        requires
            old(self).dismiss_gen < u64::MAX,
        ensures
            exists|t: String|
                #![trigger old(self).reading(t)]
                t@ == "Reading text\u{2026}"@ && *final(self) == old(self).reading(t),
            gen == (if old(self).arms() {
                Some((old(self).dismiss_gen + 1) as u64)
            } else {
                None
            }),
    {
        self.busy = true;
        let t: String = "Reading text\u{2026}".to_owned();
        let ghost said = t;
        let gen = self.show_status(t);
        assert(*self == old(self).reading(said));
        gen
    }

    /// The capture's file was deleted: leave. Where it could not be, say
    /// why.
    pub fn deleted(&mut self, result: Result<(), String>, now: u64) -> (gen: Option<u64>)
        requires
            old(self).dismiss_gen < u64::MAX,
        ensures
            match result {
                Ok(()) => *final(self) == old(self).closing(now) && gen is None,
                Err(e) => {
                    &&& final(self).status matches Some(t) && t@ == "Delete failed: "@ + e@
                    &&& *final(self) == (ToastStage {
                        status: final(self).status,
                        ..*old(self)
                    }).armed()
                    &&& gen == (if old(self).arms() {
                        Some((old(self).dismiss_gen + 1) as u64)
                    } else {
                        None
                    })
                },
            },
    {
        match result {
            Ok(()) => {
                self.begin_close(now);
                None
            },
            Err(e) => {
                let t = "Delete failed: ".to_owned().concat(e.as_str());
                self.show_status(t)
            },
        }
    }

    /// The drag of the file did not start: say why.
    pub fn drag_failed(&mut self, e: &str) -> (gen: Option<u64>)
        requires
            old(self).dismiss_gen < u64::MAX,
        ensures
            final(self).status matches Some(t) && t@ == "Drag failed: "@ + e@,
            *final(self) == (ToastStage { status: final(self).status, ..*old(self) }).armed(),
            gen == (if old(self).arms() {
                Some((old(self).dismiss_gen + 1) as u64)
            } else {
                None
            }),
    {
        let t = "Drag failed: ".to_owned().concat(e);
        self.show_status(t)
    }

    /// A row of the menu was clicked: the menu closes; a pin and a close
    /// end the toast.
    pub fn menu_chosen(&mut self, item: MenuItem, now: u64)
        requires
            old(self).wf(),
        ensures
            final(self).wf(),
            ({
                let shut = ToastStage { menu_at: None, ..*old(self) };
                *final(self) == (if item is Pin || item is Close {
                    shut.closing(now)
                } else {
                    shut
                })
            }),
    {
        self.menu_at = None;
        if item == MenuItem::Pin || item == MenuItem::Close {
            self.begin_close(now);
        }
    }
}

/// The lengths of the toast's movements.
#[derive(Clone, Copy, Debug, PartialEq, Eq, Structural)]
pub struct Tempo {
    pub enter: u64,
    pub exit: u64,
    /// The exit of a replaced toast.
    pub replace: u64,
    /// The way back of a short swipe.
    pub back: u64,
    pub fade: u64,
}

/// What a frame asks for.
#[derive(Clone, Copy, Debug, PartialEq, Eq, Structural)]
pub struct Drawn {
    /// The pixels are to be made for the frame's scale.
    pub rescale: bool,
    /// The window is to go.
    pub remove: bool,
    /// Another frame is to follow.
    pub again: bool,
    /// The card rests here.
    pub rest: Option<Rect>,
}

/// How long ago `then` was.
pub open spec fn since(now: u64, then: u64) -> int {
    max_of(now - then, 0)
}

pub(crate) fn elapsed(now: u64, then: u64) -> (r: u64)
    ensures
        r == since(now, then),
{
    if now > then {
        now - then
    } else {
        0
    }
}

impl ToastStage {
    /// Do the pixels fit this scale, to a thousandth?
    pub open spec fn misfits(self, scale: i64) -> bool {
        max_of(scale - self.thumb_scale, self.thumb_scale - scale) * 1000 > PX
    }

    /// When this toast's entrance began, seen at `now`.
    pub open spec fn entered(self, now: u64) -> u64 {
        match self.opened {
            Some(t) => t,
            None => now,
        }
    }

    /// How long this toast's exit takes.
    pub open spec fn exit_time(self, t: Tempo) -> u64 {
        if self.quick {
            t.replace
        } else {
            t.exit
        }
    }

    /// When the editor's first frame was seen, seen at `now`.
    pub open spec fn morph_seen(self, now: u64, ready: bool) -> Option<u64> {
        if self.pending_morph is Some && ready && self.morph_ready_at is None {
            Some(now)
        } else {
            self.morph_ready_at
        }
    }

    /// Is the toast over: its exit ended, or the editor took the card
    /// over or was waited for long enough?
    pub open spec fn over(self, now: u64, ready: bool, t: Tempo) -> bool {
        ||| self.closing_at matches Some(c) && since(now, c) >= self.exit_time(t)
        ||| self.pending_morph matches Some(m) && (since(now, m) > MORPH_WAIT || (
        self.morph_seen(now, ready) matches Some(at) && since(now, at) > PRESENT_GRACE))
    }

    /// Does something still move?
    pub open spec fn moves(self, now: u64, ready: bool, t: Tempo) -> bool {
        ||| since(now, self.entered(now)) < t.enter
        ||| self.bar matches Bar::FadingIn(from) && since(now, from) < t.fade
        ||| self.swipe_return matches Some(r) && since(now, r.0) < t.back
        ||| self.closing_at matches Some(c) && since(now, c) < self.exit_time(t)
        ||| self.pending_morph matches Some(m) && !(since(now, m) > MORPH_WAIT || (
        self.morph_seen(now, ready) matches Some(at) && since(now, at) > PRESENT_GRACE))
    }

    fn seen_morph(&self, now: u64, ready: bool) -> (r: Option<u64>)
        ensures
            r == self.morph_seen(now, ready),
    {
        if self.pending_morph.is_some() && ready && self.morph_ready_at.is_none() {
            Some(now)
        } else {
            self.morph_ready_at
        }
    }

    /// Has the toast waited for the editor, which took it over at
    /// `m`, for as long as it should?
    fn waited(&self, m: u64, now: u64, ready: bool) -> (r: bool)
        ensures
            r == (since(now, m) > MORPH_WAIT || (self.morph_seen(now, ready) matches Some(at)
                && since(now, at) > PRESENT_GRACE)),
    {
        let grace = match self.seen_morph(now, ready) {
            Some(at) => elapsed(now, at) > PRESENT_GRACE,
            None => false,
        };
        grace || elapsed(now, m) > MORPH_WAIT
    }

    fn exit_long(&self, t: Tempo) -> (r: u64)
        ensures
            r == self.exit_time(t),
    {
        if self.quick {
            t.replace
        } else {
            t.exit
        }
    }

    fn is_over(&self, now: u64, ready: bool, t: Tempo) -> (r: bool)
        ensures
            r == self.over(now, ready, t),
    {
        let gone = match self.closing_at {
            Some(c) => elapsed(now, c) >= self.exit_long(t),
            None => false,
        };
        let taken = match self.pending_morph {
            Some(m) => self.waited(m, now, ready),
            None => false,
        };
        gone || taken
    }

    fn is_moving(&self, now: u64, ready: bool, t: Tempo) -> (r: bool)
        ensures
            r == self.moves(now, ready, t),
    {
        let entering = match self.opened {
            Some(o) => elapsed(now, o) < t.enter,
            None => 0 < t.enter,
        };
        let fading = match self.bar {
            Bar::FadingIn(from) => elapsed(now, from) < t.fade,
            _ => false,
        };
        let back = match self.swipe_return {
            Some(b) => elapsed(now, b.0) < t.back,
            None => false,
        };
        let leaving = match self.closing_at {
            Some(c) => elapsed(now, c) < self.exit_long(t),
            None => false,
        };
        let waiting = match self.pending_morph {
            Some(m) => !self.waited(m, now, ready),
            None => false,
        };
        entering || fading || back || leaving || waiting
    }

    /// The toast after a frame at `now`.
    pub open spec fn watched(self, now: u64, scale: i64, ready: bool, t: Tempo) -> ToastStage {
        ToastStage {
            rescaling: self.rescaling || self.misfits(scale),
            opened: Some(self.entered(now)),
            swipe_return: match self.swipe_return {
                Some(b) if since(now, b.0) < t.back => Some(b),
                _ => None,
            },
            morph_ready_at: self.morph_seen(now, ready),
            ..self
        }
    }

    fn misfit(&self, scale: i64) -> (r: bool)
        requires
            0 <= scale <= PAGE,
            0 <= self.thumb_scale <= PAGE,
        ensures
            r == self.misfits(scale),
    {
        most(scale - self.thumb_scale, self.thumb_scale - scale) * 1000 > PX
    }

    fn watch(&mut self, now: u64, misfit: bool, seen: Option<u64>, t: Tempo)
        requires
            old(self).wf(),
        ensures
            final(self).wf(),
            *final(self) == (ToastStage {
                rescaling: old(self).rescaling || misfit,
                opened: Some(old(self).entered(now)),
                swipe_return: match old(self).swipe_return {
                    Some(b) if since(now, b.0) < t.back => Some(b),
                    _ => None,
                },
                morph_ready_at: seen,
                ..*old(self)
            }),
    {
        self.rescaling = self.rescaling || misfit;
        self.morph_ready_at = seen;
        if self.opened.is_none() {
            self.opened = Some(now);
        }
        if let Some(b) = self.swipe_return {
            if elapsed(now, b.0) >= t.back {
                self.swipe_return = None;
            }
        }
    }

    /// A frame at `now`, on a display of this scale; `ready` is whether
    /// the editor has drawn its first frame.
    pub fn frame(&mut self, now: u64, scale: i64, ready: bool, t: Tempo) -> (r: Drawn)
        requires
            old(self).wf(),
            0 <= scale <= PAGE,
            0 <= old(self).thumb_scale <= PAGE,
        ensures
            final(self).wf(),
            r.rescale == (old(self).misfits(scale) && !old(self).rescaling),
            r.remove == old(self).over(now, ready, t),
            r.again == old(self).moves(now, ready, t),
            r.rest == (if old(self).closing_at is None && old(self).pending_morph is None {
                Some(old(self).card_screen)
            } else {
                None
            }),
            *final(self) == old(self).watched(now, scale, ready, t),
    {
        let misfit = self.misfit(scale);
        let drawn = Drawn {
            rescale: misfit && !self.rescaling,
            remove: self.is_over(now, ready, t),
            again: self.is_moving(now, ready, t),
            rest: if self.closing_at.is_none() && self.pending_morph.is_none() {
                Some(self.card_screen)
            } else {
                None
            },
        };
        let seen = self.seen_morph(now, ready);
        self.watch(now, misfit, seen, t);
        drawn
    }

    /// The pixels were made for this scale, or could not be: are the new
    /// ones to be taken? A leaving card keeps those it has; after a
    /// failure no other attempt follows.
    pub fn rescaled(&mut self, scale: i64, made: bool) -> (taken: bool)
        ensures
            taken == (made && old(self).closing_at is None && old(self).pending_morph is None),
            *final(self) == (ToastStage {
                rescaling: false,
                thumb_scale: if taken || !made {
                    scale
                } else {
                    old(self).thumb_scale
                },
                ..*old(self)
            }),
    {
        self.rescaling = false;
        let leaving = self.closing_at.is_some() || self.pending_morph.is_some();
        if !made || !leaving {
            self.thumb_scale = scale;
        }
        made && !leaving
    }
}

/// A toast that is handed to the editor leaves: whatever the editor does,
/// the toast is over once the wait is.
pub proof fn law_morph_ends(s: ToastStage, now: u64, ready: bool, t: Tempo)
    requires
        s.pending_morph matches Some(m) && now > m + MORPH_WAIT,
    ensures
        s.over(now, ready, t),
{
}

/// A toast that started to leave is over once its exit is.
pub proof fn law_exit_ends(s: ToastStage, now: u64, ready: bool, t: Tempo)
    requires
        s.closing_at matches Some(c) && now >= c + s.exit_time(t),
    ensures
        s.over(now, ready, t),
{
}

/// The toast that rests, by its window, and its card.
pub type Resting = Option<(u64, Rect)>;

/// A toast rests with its card at this place, or no longer rests. A toast
/// that is not the latest to rest does not clear the latest one's place.
pub fn publish_rest(slot: &mut Resting, toast: u64, card: Option<Rect>)
    ensures
        *final(slot) == (match card {
            Some(c) => Some((toast, c)),
            None => if *old(slot) matches Some(s) && s.0 == toast {
                None
            } else {
                *old(slot)
            },
        }),
{
    match card {
        Some(c) => {
            *slot = Some((toast, c));
        },
        None => {
            if let Some(s) = *slot {
                if s.0 == toast {
                    *slot = None;
                }
            }
        },
    }
}

/// The card of the toast that rests, if its window is among the open
/// ones.
pub fn live_card_rect(slot: &Resting, open: &[u64]) -> (r: Option<Rect>)
    ensures
        r == (match *slot {
            Some(s) if open@.contains(s.0) => Some(s.1),
            _ => None,
        }),
{
    match slot {
        Some(s) => {
            let mut i: usize = 0;
            while i < open.len()
                invariant
                    i <= open@.len(),
                    forall|j: int| 0 <= j < i ==> open@[j] != s.0,
                    *slot == Some(*s),
                decreases open@.len() - i,
            {
                if open[i] == s.0 {
                    assert(open@[i as int] == s.0);
                    return Some(s.1);
                }
                i = i + 1;
            }
            None
        },
        None => None,
    }
}

/// What follows a landed toast's first frame. Several events may ask for
/// it; the first one gets it.
pub struct Handoff {
    pub pending: bool,
}

impl Handoff {
    pub fn new() -> (r: Handoff)
        ensures
            r.pending,
    {
        Handoff { pending: true }
    }

    /// Is this the event that runs it?
    pub fn take(&mut self) -> (run: bool)
        ensures
            run == old(self).pending,
            !final(self).pending,
    {
        let run = self.pending;
        self.pending = false;
        run
    }
}

/// A countdown closes the toast where it is the latest and nothing holds
/// the toast: no pin, no pointer over it, no menu and no awaited result.
/// Where one of the last three does, it starts over.
pub proof fn law_due(s: ToastStage, gen: u64)
    requires
        s.dismiss_gen < u64::MAX,
    ensures
        (s.due(gen) is Close) == (gen == s.dismiss_gen && !s.pinned && !s.hover_paused
            && s.menu_at is None && !s.busy),
        s.due(gen) matches Due::Again(g) ==> g > s.dismiss_gen && s.armed().dismiss_gen == g,
        gen == s.dismiss_gen && !s.pinned && s.closing_at is None && (s.hover_paused
            || s.menu_at is Some || s.busy) ==> s.due(gen) is Again,
        gen != s.dismiss_gen ==> s.due(gen) is Nothing,
{
}

/// A toast starts to leave once, and not while the editor takes it over.
pub proof fn law_closing(s: ToastStage, now: u64, later: u64)
    ensures
        s.closing_at is None && s.pending_morph is None ==> s.closing(now) == (ToastStage {
            closing_at: Some(now),
            ..s
        }),
        s.pending_morph is Some ==> s.closing(now) == s,
        s.closing(now).closing(later) == s.closing(now),
{
}

/// The way to the edge is to the right for a toast on the right, and to
/// the left for one on the left.
pub proof fn law_towards_edge(pos: ToastPosition, dx: int)
    ensures
        pos is BottomRight || pos is TopRight ==> towards_edge(pos, dx) == dx,
        pos is BottomLeft || pos is TopLeft ==> towards_edge(pos, dx) == -dx,
{
}

/// A swipe that is let go carries the card away where it went more than a
/// hundred pixels towards the edge, or went faster than four hundred a
/// second not more than 120 milliseconds before. Else the card comes back
/// from where it is.
pub proof fn law_swiped(t: ToastStage, s: Swipe, now: u64)
    requires
        t.swipe == Some(s),
        t.closing_at is None && t.pending_morph is None,
    ensures
        ({
            let n = t.swiped(now);
            let leaves = s.dx > 100 * PX || (s.vel > 400 * PX && now - s.last_at <= 120);
            &&& n.swipe is None
            &&& leaves ==> n.closing_at == Some(now) && n.exit_from == s.dx
            &&& !leaves ==> n.closing_at is None && n.swipe_return == Some((now, s.dx))
        }),
{
}

/// A press becomes a gesture once the pointer is eight pixels off. It is a
/// swipe where it goes towards the edge and twice as far so as up or down;
/// else it takes the file along, where that is allowed.
pub proof fn law_gesture(t: ToastStage, p: Point, from: Point, now: u64)
    requires
        t.drag_start == Some(from),
        t.gesture is Undecided,
    ensures
        ({
            let (n, r) = t.after_move(p, now);
            let (dx, dy) = (p.x - from.x, p.y - from.y);
            let d = towards_edge(t.prefs.position, dx);
            &&& -5 * PX <= dx <= 5 * PX && -5 * PX <= dy <= 5 * PX ==> n == t && r is Nothing
            &&& d >= 8 * PX && -d < 2 * dy < d ==> n.gesture is Swipe && (n.swipe matches Some(s)
                && s.dx == d as i64 && s.vel == 0 && s.last_at == now) && r is Redraw
            &&& d <= 0 ==> !(n.gesture is Swipe)
            &&& d <= 0 && (dy >= 8 * PX || dy <= -8 * PX || d <= -8 * PX) && t.prefs.drag
                ==> n.gesture is FileDrag && r is DragFile
            &&& !t.prefs.drag ==> !(r is DragFile)
        }),
{
    let (dx, dy) = (p.x - from.x, p.y - from.y);
    let d = towards_edge(t.prefs.position, dx);
    assert(dx * dx >= 0 && dy * dy >= 0) by (nonlinear_arith);
    if -5 * PX <= dx <= 5 * PX && -5 * PX <= dy <= 5 * PX {
        assert(dx * dx <= 25 * PX * PX && dy * dy <= 25 * PX * PX) by (nonlinear_arith)
            requires
                -5 * PX <= dx <= 5 * PX,
                -5 * PX <= dy <= 5 * PX,
                PX == 10_000,
        ;
    }
    if dx >= 8 * PX || dx <= -8 * PX {
        assert(dx * dx >= 64 * PX * PX) by (nonlinear_arith)
            requires
                dx >= 8 * PX || dx <= -8 * PX,
                PX == 10_000,
        ;
    }
    if dy >= 8 * PX || dy <= -8 * PX {
        assert(dy * dy >= 64 * PX * PX) by (nonlinear_arith)
            requires
                dy >= 8 * PX || dy <= -8 * PX,
                PX == 10_000,
        ;
    }
}

/// A swipe carries the card as far as the pointer went, and only towards
/// the edge; its speed is between what it was and the last step's.
pub proof fn law_sampled(s: Swipe, d: int, now: int)
    requires
        swipe_wf(s),
        -2 * PAGE <= d <= 2 * PAGE,
    ensures
        d >= 0 ==> sampled(s, d, now).dx == d,
        d < 0 ==> sampled(s, d, now).dx == 0,
        sampled(s, d, now).last_dx == d,
        ({
            let v = step_speed(d - s.last_dx, max_of(now - s.last_at, 0));
            let m = smoothed(s.vel as int, v);
            (s.vel <= v ==> s.vel <= m <= v) && (s.vel >= v ==> v <= m <= s.vel)
        }),
        now - s.last_at == 1000 ==> step_speed(d - s.last_dx, max_of(now - s.last_at, 0)) == d
            - s.last_dx,
{
    let k = d - s.last_dx;
    assert((k * 1000) / 1000 == k);
}

/// A toast that leaves is there until its exit is over, and one that the
/// editor takes over until its first frame was seen.
pub proof fn law_still_there(s: ToastStage, now: u64, ready: bool, t: Tempo)
    ensures
        s.closing_at is None && s.pending_morph is None ==> !s.over(now, ready, t),
        s.pending_morph is None ==> (s.closing_at matches Some(c) ==> (c <= now < c + s.exit_time(t)
            ==> !s.over(now, ready, t))),
        s.closing_at is None && s.pending_morph is Some && s.morph_ready_at is None && !ready ==> (
        s.over(now, ready, t) == (now > s.pending_morph->0 + 2000)),
        s.quick ==> s.exit_time(t) == t.replace,
        !s.quick ==> s.exit_time(t) == t.exit,
{
}

/// What the rows of the menu say, and what is told when something was
/// copied.
pub proof fn law_menu_texts(item: MenuItem, n: u64)
    ensures
        item is Markup ==> menu_text(item) == "Markup"@,
        item is Copy ==> menu_text(item) == "Copy"@,
        item is CopyText ==> menu_text(item) == "Copy text (OCR)"@,
        item is Pin ==> menu_text(item) == "Pin to screen"@,
        item is Delete ==> menu_text(item) == "Delete"@,
        item is Close ==> menu_text(item) == "Close"@,
        menu_items().contains(item),
        done_of(Done::Image) == "Copied image"@,
        done_of(Done::File) == "Copied file"@,
        done_of(Done::Text(n)) == "Copied "@ + decimal(n as nat) + " characters"@,
{
    let m = menu_items();
    assert(m[0] is Markup && m[1] is Copy && m[2] is CopyText && m[3] is Pin && m[4] is Delete
        && m[5] is Close);
}

/// The bar has its buttons where they are shown, the pin first and only
/// where it is allowed.
pub proof fn law_bar_items(pin: bool, item: BarItem)
    ensures
        bar_items(false, pin).len() == 0,
        bar_items(true, pin).contains(item) == (pin || !(item is Pin)),
        pin ==> bar_items(true, pin)[0] is Pin,
{
    let b = bar_items(true, pin);
    let k: int = if pin {
        1
    } else {
        0
    };
    assert(b[k] is CopyImage && b[k + 1] is CopyFile && b[k + 2] is OpenFolder && b[k + 3] is Markup
        && b[k + 4] is Delete);
    if pin {
        assert(b[0] is Pin);
    }
}

/// A thumbnail is made anew where its scale is off by more than a
/// thousandth, to either side.
pub proof fn law_misfits(s: ToastStage, scale: i64)
    ensures
        s.misfits(scale) <==> scale > s.thumb_scale + 10 || scale < s.thumb_scale - 10,
        !s.misfits(s.thumb_scale),
{
}

/// What a frame notes: when the card came first, the morph's first frame,
/// and a swipe's way back until it is over. It changes nothing else.
pub proof fn law_watched(s: ToastStage, now: u64, scale: i64, ready: bool, t: Tempo)
    ensures
        ({
            let w = s.watched(now, scale, ready, t);
            &&& s.opened is Some ==> w.opened == s.opened
            &&& s.opened is None ==> w.opened == Some(now)
            &&& s.rescaling ==> w.rescaling
            &&& s.morph_ready_at is Some ==> w.morph_ready_at == s.morph_ready_at
            &&& s.morph_ready_at is None && !ready ==> w.morph_ready_at is None
            &&& s.morph_ready_at is None && ready && s.pending_morph is Some ==> w.morph_ready_at
                == Some(now)
            &&& s.swipe_return matches Some(b) ==> (now >= b.0 + t.back
                ==> w.swipe_return is None) && (b.0 <= now < b.0 + t.back ==> w.swipe_return
                == s.swipe_return)
            &&& w.pinned == s.pinned && w.thumb_scale == s.thumb_scale && w.pending_morph
                == s.pending_morph
        }),
{
}

} // verus!
