//! The flight of a capture from its selection to the toast's card.

use vstd::prelude::*;
use crate::geom::{floor_div, Rect, FAR, PX};

verus! {

/// How far a flight is, in parts of the whole way.
pub const WAY: i64 = 1_000_000_000;

pub open spec fn progress(e: i64) -> bool {
    -WAY <= e <= 2 * WAY
}

/// `e` of the way from `a` to `b`.
pub open spec fn between(a: int, b: int, e: int) -> int {
    a + ((b - a) * e) / WAY as int
}

fn part(a: i64, b: i64, e: i64) -> (r: i64)
    requires
        -2 * FAR <= a <= 2 * FAR,
        -2 * FAR <= b <= 2 * FAR,
        progress(e),
    ensures
        r == between(a as int, b as int, e as int),
{
    let d: i128 = b as i128 - a as i128;
    proof {
        assert(-(4 * FAR) * (2 * WAY) <= d * e <= (4 * FAR) * (2 * WAY)) by (nonlinear_arith)
            requires
                -4 * FAR <= d <= 4 * FAR,
                -WAY <= e <= 2 * WAY,
                FAR > 0,
                WAY > 0,
        ;
        assert((4 * FAR) * (2 * WAY) == 8_000_000_000_000_000_000_000_000) by (nonlinear_arith)
            requires
                FAR == 1_000_000_000_000_000,
                WAY == 1_000_000_000,
        ;
    }
    (a as i128 + floor_div(d * e as i128, WAY as i128)) as i64
}

/// The card `e` of its way from one place to another.
pub open spec fn flown(from: Rect, to: Rect, e: int) -> Rect {
    Rect {
        x: between(from.x as int, to.x as int, e) as i64,
        y: between(from.y as int, to.y as int, e) as i64,
        w: between(from.w as int, to.w as int, e) as i64,
        h: between(from.h as int, to.h as int, e) as i64,
    }
}

/// The card's rectangle at progress `e`.
pub fn flight_rect(from: Rect, to: Rect, e: i64) -> (r: Rect)
    requires
        from.wf(),
        to.wf(),
        progress(e),
    ensures
        r == flown(from, to, e as int),
{
    Rect {
        x: part(from.x, to.x, e),
        y: part(from.y, to.y, e),
        w: part(from.w, to.w, e),
        h: part(from.h, to.h, e),
    }
}

/// Is what is left of a way of `d` less than half a pixel?
pub open spec fn close(d: int, e: int) -> bool {
    -(PX * WAY) < 2 * (d * (WAY - e)) < PX * WAY
}

/// Is every edge of the card within half a pixel of its place?
pub open spec fn rests(from: Rect, to: Rect, e: int) -> bool {
    &&& close(to.x - from.x, e)
    &&& close(to.y - from.y, e)
    &&& close(to.right() - from.right(), e)
    &&& close(to.bottom() - from.bottom(), e)
}

fn is_close(d: i64, e: i64) -> (r: bool)
    requires
        -2 * FAR <= d <= 2 * FAR,
        progress(e),
    ensures
        r == close(d as int, e as int),
{
    let left: i128 = WAY as i128 - e as i128;
    proof {
        assert(-(2 * FAR) * (2 * WAY) <= d * left <= (2 * FAR) * (2 * WAY)) by (nonlinear_arith)
            requires
                -2 * FAR <= d <= 2 * FAR,
                -WAY <= left <= 2 * WAY,
                FAR > 0,
                WAY > 0,
        ;
        assert((2 * FAR) * (2 * WAY) == 4_000_000_000_000_000_000_000_000) by (nonlinear_arith)
            requires
                FAR == 1_000_000_000_000_000,
                WAY == 1_000_000_000,
        ;
        assert(PX * WAY == 10_000_000_000_000) by (nonlinear_arith)
            requires
                PX == 10_000,
                WAY == 1_000_000_000,
        ;
    }
    let t: i128 = 2 * (d as i128 * left);
    -10_000_000_000_000 < t && t < 10_000_000_000_000
}

/// Is the card at rest: every edge within half a pixel of its place?
pub fn flight_at_rest(from: Rect, to: Rect, e: i64) -> (r: bool)
    requires
        from.wf(),
        to.wf(),
        progress(e),
    ensures
        r == rests(from, to, e as int),
{
    is_close(to.x - from.x, e) && is_close(to.y - from.y, e) && is_close(
        (to.x + to.w) - (from.x + from.w),
        e,
    ) && is_close((to.y + to.h) - (from.y + from.h), e)
}

/// A flight starts at its start and ends at its end, at rest.
pub proof fn law_flight_ends(from: Rect, to: Rect)
    requires
        from.wf(),
        to.wf(),
    ensures
        flown(from, to, 0) == from,
        flown(from, to, WAY as int) == to,
        rests(from, to, WAY as int),
{
    assert(forall|d: int| #[trigger] (d * 0) == 0);
    lemma_whole(to.x - from.x);
    lemma_whole(to.y - from.y);
    lemma_whole(to.w - from.w);
    lemma_whole(to.h - from.h);
    assert((to.x - from.x) * 0 == 0 && (to.y - from.y) * 0 == 0);
    assert((to.right() - from.right()) * 0 == 0 && (to.bottom() - from.bottom()) * 0 == 0);
    assert(PX * WAY > 0) by (nonlinear_arith)
        requires
            PX == 10_000,
            WAY == 1_000_000_000,
    ;
}

proof fn lemma_whole(d: int)
    ensures
        (d * WAY) / WAY as int == d,
        (d * 0) / WAY as int == 0,
{
    assert((d * WAY) / WAY as int == d) by (nonlinear_arith)
        requires
            WAY > 0,
    ;
}

/// Once the card is at rest, its corner is within half a pixel of where
/// it lands, to a unit.
pub proof fn law_rest_is_close(from: Rect, to: Rect, e: i64)
    requires
        from.wf(),
        to.wf(),
        progress(e),
        rests(from, to, e as int),
    ensures
        -(PX + 2) <= 2 * (between(from.x as int, to.x as int, e as int) - to.x) <= PX + 2,
        -(PX + 2) <= 2 * (between(from.y as int, to.y as int, e as int) - to.y) <= PX + 2,
{
    lemma_left(from.x as int, to.x as int, e as int);
    lemma_left(from.y as int, to.y as int, e as int);
}

proof fn lemma_left(a: int, b: int, e: int)
    requires
        close(b - a, e),
    ensures
        -(PX + 2) <= 2 * (between(a, b, e) - b) <= PX + 2,
{
    let d = b - a;
    let q = (d * e) / WAY as int;
    assert(WAY * q <= d * e < WAY * q + WAY) by (nonlinear_arith)
        requires
            q == (d * e) / WAY as int,
            WAY > 0,
    ;
    assert(d * (WAY - e) == d * WAY - d * e) by (nonlinear_arith);
    assert(d * WAY == WAY * d) by (nonlinear_arith);
    assert(-(PX + 2) <= 2 * (q - d) <= PX + 2) by (nonlinear_arith)
        requires
            -(PX * WAY) < 2 * (WAY * d - d * e) < PX * WAY,
            WAY * q <= d * e < WAY * q + WAY,
            WAY == 1_000_000_000,
            PX == 10_000,
    ;
}

/// On its way a value lies between where it came from and where it goes,
/// and never turns back.
pub proof fn law_between(a: int, b: int, e: int, f: int)
    requires
        0 <= e <= f <= WAY,
    ensures
        a <= b ==> a <= between(a, b, e) <= between(a, b, f) <= b,
        a >= b ==> b <= between(a, b, f) <= between(a, b, e) <= a,
{
    let d = b - a;
    let w = WAY as int;
    if d >= 0 {
        assert(0 <= d * e <= d * f <= d * w) by (nonlinear_arith)
            requires
                d >= 0,
                0 <= e <= f <= w,
        ;
    } else {
        assert(d * w <= d * f <= d * e <= 0) by (nonlinear_arith)
            requires
                d < 0,
                0 <= e <= f <= w,
        ;
    }
}

/// A card flies with each of its sides: the left one from the left one,
/// the top one from the top one, and its size from its size.
pub proof fn law_flown_sides(from: Rect, to: Rect, e: i64)
    requires
        from.wf() && to.wf(),
        0 <= e <= WAY,
    ensures
        ({
            let r = flown(from, to, e as int);
            &&& from.x == to.x ==> r.x == to.x
            &&& from.y == to.y ==> r.y == to.y
            &&& from.w == to.w ==> r.w == to.w
            &&& from.h == to.h ==> r.h == to.h
        }),
{
    assert(0int * e == 0) by (nonlinear_arith);
}

} // verus!
