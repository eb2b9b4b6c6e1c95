//! The recording chip: its clock, and where it stands.

use vstd::prelude::*;
use crate::geom::{least, max_of, min_of, most, Point, PX};
use crate::icons::Icon;
use crate::screen::{host, host_of, WinRect};
use crate::text::{pad, padded};

verus! {

/// The chip window in logical pixels: the pill and a margin for its
/// shadow.
pub const WIN_W: i64 = 240;

pub const WIN_H: i64 = 68;

/// The elapsed clock and the states the chip shows. Times are in
/// milliseconds.
pub struct Chip {
    /// When the clock read zero, moved later by each pause.
    pub start: u64,
    /// When the running pause began.
    pub paused_at: Option<u64>,
    /// The microphone's state. None: the format has no sound.
    pub mic: Option<bool>,
    /// The second that `text` shows.
    pub shown: u64,
    pub text: String,
    /// A frame is due at the clock's next second.
    pub tick: bool,
}

/// `a` less `b`, at least zero.
pub open spec fn less(a: int, b: int) -> int {
    max_of(a - b, 0)
}

/// Minutes and seconds, two digits each.
pub open spec fn minutes(secs: nat) -> Seq<char> {
    padded(secs / 60, 2) + ":"@ + padded(secs % 60, 2)
}

impl Chip {
    /// Recording time at `now`: the time since the start, less every
    /// pause.
    pub open spec fn ran(self, now: int) -> int {
        match self.paused_at {
            Some(at) => less(at as int, self.start as int),
            None => less(now, self.start as int),
        }
    }

    /// The chip after it was told at `now` whether the recording is
    /// paused.
    pub open spec fn told(self, paused: bool, now: u64) -> Chip {
        match self.paused_at {
            None => if paused {
                Chip { paused_at: Some(now), tick: false, ..self }
            } else {
                self
            },
            Some(at) => if paused {
                self
            } else {
                Chip {
                    start: (self.start + less(now as int, at as int)) as u64,
                    paused_at: None,
                    ..self
                }
            },
        }
    }

    /// A chip whose clock starts now.
    pub fn new(mic: Option<bool>, now: u64) -> (r: Chip)
        ensures
            r.start == now,
            r.paused_at is None,
            r.mic == mic,
            r.shown == 0,
            r.text@ == "00:00"@,
            !r.tick,
    {
        Chip { start: now, paused_at: None, mic, shown: 0, text: "00:00".to_owned(), tick: false }
    }

    /// Recording time at `now`.
    pub fn elapsed(&self, now: u64) -> (r: u64)
        ensures
            r == self.ran(now as int),
    {
        let end: u64 = match self.paused_at {
            Some(at) => at,
            None => now,
        };
        if end > self.start {
            end - self.start
        } else {
            0
        }
    }

    /// The recording paused or resumed; said again, it changes nothing.
    pub fn set_paused(&mut self, paused: bool, now: u64)
        requires
            old(self).paused_at matches Some(at) ==> old(self).start + less(now as int, at as int)
                <= u64::MAX,
        ensures
            *final(self) == old(self).told(paused, now),
    {
        match self.paused_at {
            None => {
                if paused {
                    self.paused_at = Some(now);
                    self.tick = false;
                }
            },
            Some(at) => {
                if !paused {
                    let pause: u64 = if now > at {
                        now - at
                    } else {
                        0
                    };
                    self.start = self.start + pause;
                    self.paused_at = None;
                }
            },
        }
    }

    /// The microphone went on or off; a format without sound has none.
    pub fn set_mic(&mut self, on: bool)
        ensures
            *final(self) == (Chip {
                mic: if old(self).mic is Some {
                    Some(on)
                } else {
                    None
                },
                ..*old(self)
            }),
    {
        if self.mic.is_some() {
            self.mic = Some(on);
        }
    }

    /// Draw a frame at `now`: the text shows the second, and while the
    /// clock runs the next frame is due when it reaches the next one. The
    /// wait for it comes back.
    pub fn frame(&mut self, now: u64) -> (wait: Option<u64>)
        ensures
            ({
                let ran = old(self).ran(now as int);
                let secs = ran / 1000;
                &&& *final(self) == (Chip {
                    shown: secs as u64,
                    text: final(self).text,
                    tick: old(self).tick || old(self).paused_at is None,
                    ..*old(self)
                })
                &&& final(self).text@ == (if old(self).shown == secs {
                    old(self).text@
                } else {
                    minutes(secs as nat)
                })
                &&& wait == (if old(self).paused_at is None && !old(self).tick {
                    Some((secs * 1000 + 1000 - ran) as u64)
                } else {
                    None
                })
            }),
    {
        let ran: u64 = self.elapsed(now);
        let secs: u64 = ran / 1000;
        if self.shown != secs {
            self.shown = secs;
            let m = pad(secs / 60, 2);
            let s = pad(secs % 60, 2);
            self.text = m.concat(":").concat(s.as_str());
        }
        if self.paused_at.is_none() && !self.tick {
            self.tick = true;
            return Some(1000 - ran % 1000);
        }
        None
    }

    /// The frame that was due has come.
    pub fn ticked(&mut self)
        ensures
            *final(self) == (Chip { tick: false, ..*old(self) }),
    {
        self.tick = false;
    }
}

/// How the chip is drawn.
#[derive(Clone, Copy, Debug, PartialEq, Eq)]
pub struct ChipLook {
    /// The dot is lit: the recording runs.
    pub lit: bool,
    /// What the first button shows: what it does.
    pub pause: Icon,
    /// The microphone's button, where there is a microphone.
    pub mic: Option<Icon>,
}

impl Chip {
    /// How the chip is drawn.
    pub fn look(&self) -> (r: ChipLook)
        ensures
            r.lit == (self.paused_at is None),
            r.pause == (if self.paused_at is Some {
                Icon::Play
            } else {
                Icon::Pause
            }),
            r.mic == (match self.mic {
                Some(true) => Some(Icon::Mic),
                Some(false) => Some(Icon::MicOff),
                None => None,
            }),
    {
        ChipLook {
            lit: self.paused_at.is_none(),
            pause: if self.paused_at.is_some() {
                Icon::Play
            } else {
                Icon::Pause
            },
            mic: match self.mic {
                Some(on) => Some(
                    if on {
                        Icon::Mic
                    } else {
                        Icon::MicOff
                    },
                ),
                None => None,
            },
        }
    }
}

/// A pause stops the clock for as long as it lasts: after it, the clock
/// is behind where it would be by just that.
pub proof fn law_pause(c: Chip, a: u64, b: u64, t: u64)
    requires
        c.paused_at is None,
        c.start <= a <= b <= t,
        c.start + (b - a) <= u64::MAX,
    ensures
        c.told(true, a).ran(t as int) == c.ran(a as int),
        c.told(true, a).told(false, b).ran(t as int) == c.ran(t as int) - (b - a),
{
}

/// Pausing what is paused and resuming what runs change nothing.
pub proof fn law_told_twice(c: Chip, paused: bool, a: u64, b: u64)
    ensures
        c.told(paused, a).told(paused, b) == c.told(paused, a),
        c.paused_at is None ==> c.told(false, a) == c,
{
}

/// Where the chip stands, along one monitor: right-aligned to the
/// rectangle, never left of it, then kept on the monitor.
pub open spec fn left_of(x: int, w: int, mx: int, mw: int, win: int) -> int {
    max_of(min_of(max_of(x + w - win, x), mx + mw - win), mx)
}

/// Above the rectangle; below it where the monitor has no room above;
/// inside its top edge where it has none on either side.
pub open spec fn top_of(y: int, h: int, my: int, mh: int, win: int) -> int {
    if y - win >= my {
        y - win
    } else if y + h + win <= my + mh {
        y + h
    } else {
        max_of(min_of(y, my + mh - win), my)
    }
}

/// The recorded rectangle: the primary monitor where none is given.
pub open spec fn recorded(rect: Option<WinRect>, mons: Seq<WinRect>) -> WinRect {
    match rect {
        Some(r) => r,
        None => if mons.len() > 0 {
            mons[0]
        } else {
            WinRect { x: 0, y: 0, width: 0, height: 0 }
        },
    }
}

/// The rectangle's monitor; the rectangle itself where there is none.
pub open spec fn bounds(r: WinRect, mons: Seq<WinRect>) -> WinRect {
    match host_of(mons, r) {
        Some(m) => m,
        None => r,
    }
}

/// The corner of the chip window for a recording, in units of a root
/// pixel. `monitors` are in root pixels, the primary one first; `scale`
/// is how many units of a root pixel a logical pixel has.
pub fn origin(rect: Option<WinRect>, monitors: &Vec<WinRect>, scale: i64) -> (p: Point)
    requires
        0 < scale <= 1_000_000,
    ensures
        ({
            let r = recorded(rect, monitors@);
            let m = bounds(r, monitors@);
            &&& p.x == left_of(r.x * PX, r.width * PX, m.x * PX, m.width * PX, WIN_W * scale)
            &&& p.y == top_of(r.y * PX, r.height * PX, m.y * PX, m.height * PX, WIN_H * scale)
        }),
{
    let r = match rect {
        Some(r) => r,
        None => if monitors.len() > 0 {
            monitors[0]
        } else {
            WinRect { x: 0, y: 0, width: 0, height: 0 }
        },
    };
    let m = match host(r, monitors) {
        Some(m) => m,
        None => r,
    };
    let win_w: i64 = WIN_W * scale;
    let win_h: i64 = WIN_H * scale;
    let x: i64 = r.x as i64 * PX;
    let y: i64 = r.y as i64 * PX;
    let w: i64 = r.width as i64 * PX;
    let h: i64 = r.height as i64 * PX;
    let mx: i64 = m.x as i64 * PX;
    let my: i64 = m.y as i64 * PX;
    let mw: i64 = m.width as i64 * PX;
    let mh: i64 = m.height as i64 * PX;
    let left: i64 = most(least(most(x + w - win_w, x), mx + mw - win_w), mx);
    let top: i64 = if y - win_h >= my {
        y - win_h
    } else if y + h + win_h <= my + mh {
        y + h
    } else {
        most(least(y, my + mh - win_h), my)
    };
    Point { x: left, y: top }
}

/// The chip stays on the monitor, where the monitor is large enough for
/// it and the rectangle overlaps the monitor's rows.
pub proof fn law_chip_on_monitor(x: int, w: int, y: int, h: int, m: (int, int, int, int), win: (
    int,
    int,
))
    requires
        0 <= w,
        0 <= h,
        0 <= win.0 <= m.2,
        0 <= win.1 <= m.3,
        y <= m.1 + m.3,
        m.1 <= y + h,
    ensures
        m.0 <= left_of(x, w, m.0, m.2, win.0) <= m.0 + m.2 - win.0,
        m.1 <= top_of(y, h, m.1, m.3, win.1) <= m.1 + m.3 - win.1,
{
}

/// The chip stays out of the recorded rectangle wherever the monitor has
/// room for it above or below.
pub proof fn law_chip_clear(y: int, h: int, my: int, mh: int, win: int)
    requires
        0 <= h,
        0 <= win,
        y - win >= my || y + h + win <= my + mh,
    ensures
        top_of(y, h, my, mh, win) + win <= y || top_of(y, h, my, mh, win) >= y + h,
{
}

/// The clock shows minutes and seconds, two digits each.
pub proof fn law_clock(secs: nat)
    requires
        secs < 6000,
    ensures
        ({
            let t = minutes(secs);
            &&& t.len() == 5 && t[2] == ':'
            &&& crate::text::number_of(t.subrange(0, 2)) == Some((secs / 60) as u64)
            &&& crate::text::number_of(t.subrange(3, 5)) == Some((secs % 60) as u64)
        }),
{
    reveal_strlit(":");
    lemma_two(secs / 60);
    lemma_two(secs % 60);
    let t = minutes(secs);
    assert(t.subrange(0, 2) =~= padded(secs / 60, 2));
    assert(t.subrange(3, 5) =~= padded(secs % 60, 2));
}

proof fn lemma_two(n: nat)
    requires
        n < 100,
    ensures
        padded(n, 2).len() == 2,
        crate::text::number_of(padded(n, 2)) == Some(n as u64),
{
    reveal_with_fuel(crate::text::decimal, 3);
    reveal_with_fuel(crate::text::number_prefix, 3);
    let p = padded(n, 2);
    assert(p[0] != '+');
    assert(crate::text::number_prefix(p, 2) == Some(n as int));
}

/// A clock that runs has run since its start; one that is paused stands at
/// what it had run then.
pub proof fn law_runs(c: Chip, now: u64, later: u64)
    requires
        c.start <= now <= later,
    ensures
        c.paused_at is None ==> c.ran(now as int) == now - c.start && c.ran(later as int) - c.ran(
            now as int,
        ) == later - now,
        c.paused_at is Some ==> c.ran(now as int) == c.ran(later as int),
        c.paused_at matches Some(at) ==> (at >= c.start ==> c.ran(now as int) == at - c.start),
        c.told(true, now).paused_at is Some,
        c.told(false, now).paused_at is None,
        c.told(true, now).mic == c.mic && c.told(false, now).mic == c.mic,
{
}

/// The chip stands at the right end of what is recorded and right above it,
/// where the monitor has room there; without room above it stands below.
pub proof fn law_chip_place(x: int, w: int, y: int, h: int, m: (int, int, int, int), win: (int, int))
    requires
        0 <= w && 0 <= h,
        0 <= win.0 && 0 <= win.1,
    ensures
        m.0 <= x && x + w <= m.0 + m.2 && win.0 <= w ==> left_of(x, w, m.0, m.2, win.0) + win.0 == x
            + w,
        y - win.1 >= m.1 ==> top_of(y, h, m.1, m.3, win.1) + win.1 == y,
        y - win.1 < m.1 && y + h + win.1 <= m.1 + m.3 ==> top_of(y, h, m.1, m.3, win.1) == y + h,
{
}

/// The chip is for what is recorded: the rectangle, or the first monitor
/// without one.
pub proof fn law_recorded(r: WinRect, mons: Seq<WinRect>)
    ensures
        recorded(Some(r), mons) == r,
        mons.len() > 0 ==> recorded(None, mons) == mons[0],
{
}

} // verus!
