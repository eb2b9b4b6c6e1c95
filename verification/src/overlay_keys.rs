//! The region picker's keys, and where its labels stand.

use vstd::prelude::*;
use crate::geom::{clamp_of, clamped, Point, Rect, PX};
use crate::loupe::LOUPE_PX;
use crate::overlay::{selectable, spanned, Lens, Picked, SPAN};
use crate::overlay_input::{Outcome, Overlay};
use crate::screen::WinRect;
use crate::text::{decimal, number_of, parse_u64, push_decimal, push_signed, same, signed};

verus! {

/// What a key did.
pub enum Keyed {
    Nothing,
    /// The selection moved or snapped.
    Moved,
    /// This is to be copied: the loupe's color, if it is there.
    Copied(Option<String>),
    Cancelled,
    Finished(Outcome),
}

/// The way an arrow key points.
pub open spec fn direction(key: Seq<char>) -> Option<(int, int)> {
    if key == "left"@ {
        Some((-1, 0))
    } else if key == "right"@ {
        Some((1, 0))
    } else if key == "up"@ {
        Some((0, -1))
    } else if key == "down"@ {
        Some((0, 1))
    } else {
        None
    }
}

fn points(key: &str) -> (r: Option<(i64, i64)>)
    ensures
        match direction(key@) {
            Some(d) => r matches Some(e) && e.0 == d.0 && e.1 == d.1 && -1 <= e.0 <= 1 && -1 <= e.1
                <= 1,
            None => r is None,
        },
{
    if same(key, "left") {
        Some((-1, 0))
    } else if same(key, "right") {
        Some((1, 0))
    } else if same(key, "up") {
        Some((0, -1))
    } else if same(key, "down") {
        Some((0, 1))
    } else {
        None
    }
}

/// A selection moved by a number of pixels, kept in the window.
pub open spec fn nudged(r: Rect, d: (int, int), step: int, size: (i64, i64)) -> Rect {
    Rect {
        x: clamp_of(r.x + d.0 * step * PX, 0, size.0 - r.w) as i64,
        y: clamp_of(r.y + d.1 * step * PX, 0, size.1 - r.h) as i64,
        ..r
    }
}

/// How far an arrow key moves.
pub open spec fn stride(shift: bool) -> int {
    if shift {
        10
    } else {
        1
    }
}

impl Overlay {
    /// The monitor that a number key names.
    pub open spec fn named(self, key: Seq<char>) -> Option<WinRect> {
        match number_of(key) {
            Some(d) => if 1 <= d <= self.monitors@.len() {
                Some(self.monitors@[d - 1])
            } else {
                None
            },
            None => None,
        }
    }

    fn monitor_of(&self, key: &str) -> (r: Option<WinRect>)
        ensures
            r == self.named(key@),
    {
        match parse_u64(key) {
            Some(d) => {
                if d >= 1 && d <= self.monitors.len() as u64 {
                    Some(self.monitors[(d - 1) as usize])
                } else {
                    None
                }
            },
            None => None,
        }
    }

    fn color(&self) -> (r: Option<String>)
        ensures
            match self.loupe {
                Some(l) => r matches Some(c) && c@ == l.color@,
                None => r is None,
            },
    {
        match &self.loupe {
            Some(l) => Some(l.color.as_str().to_owned()),
            None => None,
        }
    }

    /// A key went down. An arrow moves the selection by a pixel, or ten
    /// with shift; a number snaps it to that monitor; `c` copies the
    /// loupe's color. `cancels` and `confirms` say whether the key is the
    /// one set for that.
    pub fn key_down(
        &mut self,
        key: &str,
        shift: bool,
        cancels: bool,
        confirms: bool,
        size: (i64, i64),
        scale: i64,
        now: u64,
    ) -> (r: Keyed)
        requires
            old(self).wf(),
            old(self).fits(size),
            direction(key@) is Some ==> old(self).movable(size),
            scale > 0,
        ensures
            final(self).wf(),
            match (direction(key@), old(self).shown(size)) {
                (Some(d), Some(q)) => r is Moved && *final(self) == (Overlay {
                    current: Some(Picked::Free(nudged(q, d, stride(shift), size))),
                    ..*old(self)
                }),
                _ => match old(self).named(key@) {
                    Some(m) => r is Moved && *final(self) == (Overlay {
                        current: Some(Picked::Snap(m)),
                        ..*old(self)
                    }),
                    None => if key@ == "c"@ {
                        &&& r matches Keyed::Copied(t) && match old(self).loupe {
                            Some(l) => t matches Some(c) && c@ == l.color@,
                            None => t is None,
                        }
                        &&& *final(self) == *old(self)
                    } else if cancels {
                        r is Cancelled && *final(self) == old(self).cancelled()
                    } else if confirms {
                        r matches Keyed::Finished(o) && old(self).finishes(
                            *final(self),
                            size,
                            scale,
                            now,
                            o,
                        )
                    } else {
                        r is Nothing && *final(self) == *old(self)
                    },
                },
            },
    {
        if let Some(d) = points(key) {
            if let Some(q) = self.selection_rect(size) {
                let step: i64 = if shift {
                    10
                } else {
                    1
                };
                let (dx, dy): (i64, i64) = (d.0 * step * PX, d.1 * step * PX);
                self.current = Some(
                    Picked::Free(
                        Rect {
                            x: clamped(q.x + dx, 0, size.0 - q.w),
                            y: clamped(q.y + dy, 0, size.1 - q.h),
                            w: q.w,
                            h: q.h,
                        },
                    ),
                );
                return Keyed::Moved;
            }
        }
        if let Some(m) = self.monitor_of(key) {
            self.current = Some(Picked::Snap(m));
            return Keyed::Moved;
        }
        if same(key, "c") {
            return Keyed::Copied(self.color());
        }
        if cancels {
            self.cancel();
            Keyed::Cancelled
        } else if confirms {
            Keyed::Finished(self.finish(size, scale, now))
        } else {
            Keyed::Nothing
        }
    }
}

/// Beside the pointer, or on its other side where that leaves the window.
pub open spec fn beside(at: int, room: int, size: int, back: int, ahead: int) -> int {
    if at + room > size {
        at - back
    } else {
        at + ahead
    }
}

fn next_to(at: i64, room: i64, size: i64, back: i64, ahead: i64) -> (r: i64)
    requires
        -SPAN <= at <= SPAN,
        0 <= room <= SPAN,
        0 <= back <= SPAN,
        0 <= ahead <= SPAN,
    ensures
        r == beside(at as int, room as int, size as int, back as int, ahead as int),
{
    if at + room > size {
        at - back
    } else {
        at + ahead
    }
}

/// Where the chip with the pointer's coordinates stands: it turns away
/// from the window's edges.
pub open spec fn coord_place(cursor: Point, size: (i64, i64)) -> Point {
    Point {
        x: beside(cursor.x as int, 90 * PX, size.0 as int, 82 * PX, 18 * PX) as i64,
        y: beside(cursor.y as int, 40 * PX, size.1 as int, 30 * PX, 16 * PX) as i64,
    }
}

/// Where the loupe stands: it turns away from the window's edges.
pub open spec fn loupe_place(cursor: Point, size: (i64, i64)) -> Point {
    let room = (LOUPE_PX + 54) * PX;
    let back = (LOUPE_PX + 24) * PX;
    Point {
        x: beside(cursor.x as int, room, size.0 as int, back, 24 * PX) as i64,
        y: beside(cursor.y as int, room, size.1 as int, back, 24 * PX) as i64,
    }
}

/// Where the chip with the pointer's coordinates stands.
pub fn coord_at(cursor: Point, size: (i64, i64)) -> (p: Point)
    requires
        spanned(cursor),
    ensures
        p == coord_place(cursor, size),
{
    Point {
        x: next_to(cursor.x, 90 * PX, size.0, 82 * PX, 18 * PX),
        y: next_to(cursor.y, 40 * PX, size.1, 30 * PX, 16 * PX),
    }
}

/// Where the loupe stands.
pub fn loupe_at(cursor: Point, size: (i64, i64)) -> (p: Point)
    requires
        spanned(cursor),
    ensures
        p == loupe_place(cursor, size),
{
    let room: i64 = (LOUPE_PX + 54) * PX;
    let back: i64 = (LOUPE_PX + 24) * PX;
    Point {
        x: next_to(cursor.x, room, size.0, back, 24 * PX),
        y: next_to(cursor.y, room, size.1, back, 24 * PX),
    }
}

/// Where the label with a selection's size stands, and the hint.
pub fn labels_at(r: Rect) -> (p: (Point, Point))
    requires
        selectable(r),
    ensures
        p.0.x == r.x && p.0.y == (if r.y < 44 * PX {
            r.y + 4 * PX
        } else {
            r.y - 28 * PX
        }),
        p.1.x == r.x && p.1.y == r.y + r.h + 6 * PX,
{
    (
        Point {
            x: r.x,
            y: if r.y < 44 * PX {
                r.y + 4 * PX
            } else {
                r.y - 28 * PX
            },
        },
        Point { x: r.x, y: r.y + r.h + 6 * PX },
    )
}

/// The coordinates of a frame pixel.
pub fn coord_label(at: (i64, i64)) -> (r: String)
    requires
        at.0 > i64::MIN && at.1 > i64::MIN,
    ensures
        r@ == signed(at.0 as int) + ", "@ + signed(at.1 as int),
{
    let mut r: String = String::new();
    push_signed(&mut r, at.0);
    r.append(", ");
    push_signed(&mut r, at.1);
    assert(r@ =~= signed(at.0 as int) + ", "@ + signed(at.1 as int));
    r
}

/// A length of the window in frame pixels, to the nearest one.
pub open spec fn frame_px(len: int, view: int, size: int) -> int {
    (2 * len * view + size) / (2 * size)
}

fn in_frame(len: i64, view: u32, size: i64) -> (r: u64)
    requires
        0 <= len <= 2 * crate::geom::FAR,
        0 < size <= SPAN,
        view <= size,
    ensures
        r == frame_px(len as int, view as int, size as int),
{
    proof {
        let n = 2 * len * view;
        assert(0 <= n <= 2 * len * size) by (nonlinear_arith)
            requires
                n == 2 * len * view,
                0 <= len,
                0 <= view <= size,
        ;
        assert(2 * len * size <= 0x1000_0000_0000_0000_0000_0000_0000) by (nonlinear_arith)
            requires
                0 <= len <= 2_000_000_000_000_000,
                0 < size <= 20_000_000_000_000,
        ;
        assert(0 <= (n + size) / (2 * size) <= len + 1) by (nonlinear_arith)
            requires
                0 <= n <= 2 * len * size,
                0 < size,
        ;
    }
    let n: i128 = 2 * len as i128 * view as i128;
    ((n + size as i128) / (2 * size as i128)) as u64
}

/// The size of a selection, in frame pixels.
pub fn size_label(r: Rect, lens: &Lens) -> (t: String)
    requires
        selectable(r),
        lens.wf(),
    ensures
        t@ == decimal(frame_px(r.w as int, lens.view.0 as int, lens.size.0 as int) as nat)
            + " \u{d7} "@ + decimal(
            frame_px(r.h as int, lens.view.1 as int, lens.size.1 as int) as nat,
        ),
{
    let mut t: String = String::new();
    push_decimal(&mut t, in_frame(r.w, lens.view.0, lens.size.0));
    t.append(" \u{d7} ");
    push_decimal(&mut t, in_frame(r.h, lens.view.1, lens.size.1));
    assert(t@ =~= decimal(frame_px(r.w as int, lens.view.0 as int, lens.size.0 as int) as nat)
        + " \u{d7} "@ + decimal(
        frame_px(r.h as int, lens.view.1 as int, lens.size.1 as int) as nat,
    ));
    t
}

/// The hint under a committed selection: the keys that confirm and
/// cancel.
pub fn hint(confirm: &str, cancel: &str) -> (r: String)
    ensures
        r@ == confirm@ + " capture   "@ + cancel@ + " cancel"@,
{
    confirm.to_owned().concat(" capture   ").concat(cancel).concat(" cancel")
}

/// The arrow keys carry the selection a pixel their way, ten with Shift,
/// up to the window's edge.
pub proof fn law_arrows(r: Rect, shift: bool, size: (i64, i64))
    requires
        selectable(r),
        crate::overlay::window_size(size),
        0 <= r.x && r.right() <= size.0,
        0 <= r.y && r.bottom() <= size.1,
    ensures
        ({
            let step: int = if shift {
                10 * PX
            } else {
                PX as int
            };
            let to = |key: Seq<char>| nudged(r, direction(key)->0, stride(shift), size);
            &&& direction("left"@) is Some && direction("right"@) is Some
            &&& direction("up"@) is Some && direction("down"@) is Some
            &&& r.x >= step ==> to("left"@) == (Rect { x: (r.x - step) as i64, ..r })
            &&& r.x < step ==> to("left"@) == (Rect { x: 0, ..r })
            &&& r.right() + step <= size.0 ==> to("right"@) == (Rect { x: (r.x + step) as i64, ..r })
            &&& r.right() + step > size.0 ==> to("right"@) == (Rect {
                x: (size.0 - r.w) as i64,
                ..r
            })
            &&& r.y >= step ==> to("up"@) == (Rect { y: (r.y - step) as i64, ..r })
            &&& r.y < step ==> to("up"@) == (Rect { y: 0, ..r })
            &&& r.bottom() + step <= size.1 ==> to("down"@) == (Rect {
                y: (r.y + step) as i64,
                ..r
            })
            &&& r.bottom() + step > size.1 ==> to("down"@) == (Rect {
                y: (size.1 - r.h) as i64,
                ..r
            })
        }),
{
    reveal_strlit("left");
    reveal_strlit("right");
    reveal_strlit("up");
    reveal_strlit("down");
    assert("left"@.len() == 4 && "right"@.len() == 5 && "up"@.len() == 2 && "down"@.len() == 4);
    assert("left"@[0] == 'l' && "down"@[0] == 'd');
    assert(direction("left"@) == Some((-1int, 0int)));
    assert(direction("right"@) == Some((1int, 0int)));
    assert(direction("up"@) == Some((0int, -1int)));
    assert(direction("down"@) == Some((0int, 1int)));
}

/// The key of a number picks the monitor of that number, from one on.
pub proof fn law_number_keys(o: Overlay, n: u64)
    ensures
        o.named(decimal(n as nat)) == (if 1 <= n <= o.monitors@.len() {
            Some(o.monitors@[n - 1])
        } else {
            None
        }),
{
    crate::text::law_decimal_reads(n);
}

/// What stands beside the pointer stands after it, or before it where the
/// window has no room.
pub proof fn law_beside(at: int, room: int, size: int, back: int, ahead: int)
    requires
        0 <= back,
        0 <= ahead <= room,
    ensures
        at + room <= size ==> beside(at, room, size, back, ahead) == at + ahead,
        at + room > size ==> beside(at, room, size, back, ahead) == at - back,
{
}

/// The loupe stands off the pointer, on the side where the window has room
/// for all of it.
pub proof fn law_loupe_place(cursor: Point, size: (i64, i64))
    requires
        spanned(cursor),
        0 <= cursor.x <= size.0 && 0 <= cursor.y <= size.1,
    ensures
        ({
            let at = loupe_place(cursor, size);
            let side = LOUPE_PX * PX;
            &&& at.x > cursor.x ==> at.x + side <= size.0
            &&& at.x <= cursor.x ==> at.x + side < cursor.x && cursor.x + side > size.0 - 54 * PX
            &&& at.y > cursor.y ==> at.y + side <= size.1
            &&& at.y <= cursor.y ==> at.y + side < cursor.y && cursor.y + side > size.1 - 54 * PX
        }),
{
}

/// A length in the window is the number of frame pixels next to it.
pub proof fn law_frame_px(len: int, view: int, size: int)
    requires
        len >= 0,
        view >= 0,
        size > 0,
    ensures
        2 * (frame_px(len, view, size) * size) <= 2 * (len * view) + size < 2 * (frame_px(
            len,
            view,
            size,
        ) * size) + 2 * size,
        view * PX == size ==> 2 * (frame_px(len, view, size) * PX) <= 2 * len + PX < 2 * (frame_px(
            len,
            view,
            size,
        ) * PX) + 2 * PX,
{
    let n = 2 * len * view + size;
    let k = frame_px(len, view, size);
    assert(k * (2 * size) <= n < k * (2 * size) + 2 * size) by (nonlinear_arith)
        requires
            k == n / (2 * size),
            size > 0,
    ;
    assert(k * (2 * size) == 2 * (k * size)) by (nonlinear_arith);
    assert(2 * len * view == 2 * (len * view)) by (nonlinear_arith);
    if view * PX == size {
        let (a, b) = (2 * (k * PX), 2 * len + PX);
        assert(view > 0);
        assert(2 * (k * size) == a * view && 2 * (len * view) + size == b * view) by (nonlinear_arith)
            requires
                view * PX == size,
                a == 2 * (k * PX),
                b == 2 * len + PX,
        ;
        assert(2 * (k * size) + 2 * size == (a + 2 * PX) * view) by (nonlinear_arith)
            requires
                view * PX == size,
                a == 2 * (k * PX),
        ;
        assert(a <= b < a + 2 * PX) by (nonlinear_arith)
            requires
                view > 0,
                a * view <= b * view < (a + 2 * PX) * view,
        ;
    }
}

/// The coordinates stand right of the pointer and below it, and to the
/// other side where the window ends.
pub proof fn law_coord_place(cursor: Point, size: (i64, i64))
    requires
        spanned(cursor),
        0 <= cursor.x <= size.0 && 0 <= cursor.y <= size.1,
    ensures
        size.0 - cursor.x >= 900_000 ==> coord_place(cursor, size).x == cursor.x + 180_000,
        size.0 - cursor.x < 900_000 ==> coord_place(cursor, size).x == cursor.x - 820_000,
        size.1 - cursor.y >= 400_000 ==> coord_place(cursor, size).y == cursor.y + 160_000,
        size.1 - cursor.y < 400_000 ==> coord_place(cursor, size).y == cursor.y - 300_000,
{
}

} // verus!
