//! Rectangles on the screen, in root pixels.

use vstd::prelude::*;

verus! {

/// A window or a monitor, in root pixels.
#[derive(Clone, Copy, Debug, PartialEq, Eq, Structural)]
pub struct WinRect {
    pub x: i32,
    pub y: i32,
    pub width: u32,
    pub height: u32,
}

impl WinRect {
    pub open spec fn right(self) -> int {
        self.x + self.width
    }

    pub open spec fn bottom(self) -> int {
        self.y + self.height
    }

    /// Is the middle of `r` on this monitor?
    pub open spec fn centers(self, r: WinRect) -> bool {
        &&& 2 * self.x <= 2 * r.x + r.width < 2 * self.right()
        &&& 2 * self.y <= 2 * r.y + r.height < 2 * self.bottom()
    }

    /// Is pixel (x, y) in the rectangle?
    pub open spec fn has(self, x: int, y: int) -> bool {
        self.x <= x < self.right() && self.y <= y < self.bottom()
    }
}

/// The first monitor from place `i` on that has the middle of `r`.
pub open spec fn centered_from(mons: Seq<WinRect>, r: WinRect, i: int) -> Option<WinRect>
    decreases mons.len() - i,
{
    if i < 0 || i >= mons.len() {
        None
    } else if mons[i].centers(r) {
        Some(mons[i])
    } else {
        centered_from(mons, r, i + 1)
    }
}

/// The monitor a rectangle is on: the one that has its middle, else the
/// first.
pub open spec fn host_of(mons: Seq<WinRect>, r: WinRect) -> Option<WinRect> {
    match centered_from(mons, r, 0) {
        Some(m) => Some(m),
        None => if mons.len() > 0 {
            Some(mons[0])
        } else {
            None
        },
    }
}

/// The monitor a rectangle is on. None: there is no monitor.
pub fn host(r: WinRect, mons: &Vec<WinRect>) -> (m: Option<WinRect>)
    ensures
        m == host_of(mons@, r),
{
    let cx: i64 = 2 * r.x as i64 + r.width as i64;
    let cy: i64 = 2 * r.y as i64 + r.height as i64;
    let mut i: usize = 0;
    while i < mons.len()
        invariant
            i <= mons@.len(),
            cx == 2 * r.x + r.width,
            cy == 2 * r.y + r.height,
            centered_from(mons@, r, 0) == centered_from(mons@, r, i as int),
        decreases mons@.len() - i,
    {
        let m = mons[i];
        if 2 * m.x as i64 <= cx && cx < 2 * (m.x as i64 + m.width as i64) && 2 * m.y as i64 <= cy
            && cy < 2 * (m.y as i64 + m.height as i64) {
            return Some(m);
        }
        i = i + 1;
    }
    if mons.len() > 0 {
        Some(mons[0])
    } else {
        None
    }
}

/// The monitor that hosts a rectangle has the rectangle's middle, where one
/// has; else it is the first. None where there is no monitor.
pub proof fn law_host(mons: Seq<WinRect>, r: WinRect, k: int)
    requires
        0 <= k < mons.len(),
    ensures
        host_of(mons, r) matches Some(m) && mons.contains(m) && (m == mons[0] || m.centers(r)) && (
        mons[k].centers(r) ==> m.centers(r)),
        host_of(Seq::empty(), r) is None,
        mons[k].centers(r) == (2 * mons[k].x <= 2 * r.x + r.width < 2 * (mons[k].x + mons[k].width)
            && 2 * mons[k].y <= 2 * r.y + r.height < 2 * (mons[k].y + mons[k].height)),
{
    lemma_centered(mons, r, 0, k);
    assert(mons[0] == mons[0]);
}

proof fn lemma_centered(mons: Seq<WinRect>, r: WinRect, i: int, k: int)
    requires
        0 <= i,
    ensures
        match centered_from(mons, r, i) {
            Some(m) => m.centers(r) && mons.contains(m),
            None => i <= k < mons.len() ==> !mons[k].centers(r),
        },
    decreases mons.len() - i,
{
    if i < mons.len() && !mons[i].centers(r) {
        lemma_centered(mons, r, i + 1, k);
    }
}

} // verus!
