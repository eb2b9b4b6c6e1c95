//! The curves that surfaces move along, in parts of the way, and the
//! springs that follow the pointer.

use vstd::prelude::*;
use crate::action::PAGE;
use crate::flight::WAY;
use crate::geom::{clamp_of, clamped, floor_div, min_of};

verus! {

/// How long fades and entrances take, in milliseconds.
pub const FADE: u64 = 140;

pub const ENTER: u64 = 380;

/// How far a movement of `total` milliseconds is after `elapsed`. One of
/// no length is over.
pub open spec fn gone(elapsed: int, total: int) -> int {
    if total <= 0 {
        WAY as int
    } else {
        min_of(elapsed * WAY / total, WAY as int)
    }
}

/// How far a movement is.
pub fn progress(elapsed: u64, total: u64) -> (r: i64)
    ensures
        r == gone(elapsed as int, total as int),
        0 <= r <= WAY,
        elapsed >= total ==> r == WAY,
{
    if total == 0 {
        return WAY;
    }
    if elapsed >= total {
        proof {
            assert(elapsed * WAY / total as int >= WAY) by (nonlinear_arith)
                requires
                    elapsed >= total,
                    total >= 1,
                    WAY == 1_000_000_000,
            ;
        }
        return WAY;
    }
    proof {
        assert(0 <= elapsed * WAY / total as int <= WAY && elapsed * WAY <= 0x1_0000_0000_0000_0000
            * 1_000_000_000) by (nonlinear_arith)
            requires
                0 <= elapsed < total,
                total <= 0xffff_ffff_ffff_ffff,
                WAY == 1_000_000_000,
        ;
    }
    (elapsed as u128 * WAY as u128 / total as u128) as i64
}

/// A movement whose time is up is over.
pub proof fn law_movement_ends(elapsed: int, total: int)
    requires
        elapsed >= total >= 0,
    ensures
        gone(elapsed, total) == WAY,
{
    if total > 0 {
        assert(elapsed * WAY / total >= WAY) by (nonlinear_arith)
            requires
                elapsed >= total,
                total >= 1,
                WAY == 1_000_000_000,
        ;
    }
}

/// `e` parts of a length.
pub open spec fn share(len: int, e: int) -> int {
    len * e / WAY as int
}

/// That many parts of a length.
pub fn part_of(len: i64, e: i64) -> (r: i64)
    requires
        -4 * PAGE <= len <= 4 * PAGE,
        -2 * WAY <= e <= 2 * WAY,
    ensures
        r == share(len as int, e as int),
        -8 * PAGE <= r <= 8 * PAGE,
        0 <= len && 0 <= e <= WAY ==> 0 <= r <= len,
{
    proof {
        let w = WAY as int;
        assert(-8 * PAGE * w <= len * e <= 8 * PAGE * w) by (nonlinear_arith)
            requires
                -4 * PAGE <= len <= 4 * PAGE,
                -2 * w <= e <= 2 * w,
                w == 1_000_000_000,
                PAGE == 42_949_672_960_000,
        ;
        assert(8 * PAGE * w == 343_597_383_680_000_000_000_000) by (nonlinear_arith)
            requires
                w == 1_000_000_000,
                PAGE == 42_949_672_960_000,
        ;
        assert(-8 * PAGE * w == -343_597_383_680_000_000_000_000) by (nonlinear_arith)
            requires
                w == 1_000_000_000,
                PAGE == 42_949_672_960_000,
        ;
        assert(0 <= len && 0 <= e <= w ==> 0 <= len * e <= len * w) by (nonlinear_arith);
    }
    floor_div(len as i128 * e as i128, WAY as i128) as i64
}

/// What is left of the way, cut to it.
pub open spec fn left(t: int) -> int {
    WAY - clamp_of(t, 0, WAY as int)
}

pub open spec fn quadratic(t: int) -> int {
    WAY - left(t) * left(t) / WAY as int
}

pub open spec fn cubic(t: int) -> int {
    WAY - left(t) * left(t) * left(t) / (WAY * WAY)
}

pub open spec fn quartic(t: int) -> int {
    WAY - left(t) * left(t) * left(t) * left(t) / (WAY * WAY * WAY)
}

proof fn lemma_powers(u: int)
    requires
        0 <= u <= WAY,
    ensures
        0 <= u * u <= WAY * WAY,
        0 <= u * u * u <= WAY * WAY * WAY,
        0 <= u * u * u * u <= WAY * WAY * WAY * WAY,
        0 <= u * u / WAY as int <= u,
        0 <= u * u * u / (WAY * WAY) <= u * u / WAY as int,
        0 <= u * u * u * u / (WAY * WAY * WAY) <= u * u * u / (WAY * WAY),
{
    let w = WAY as int;
    assert(0 <= u * u <= w * w && u * u <= u * w) by (nonlinear_arith)
        requires
            0 <= u <= w,
    ;
    assert(0 <= u * u * u <= w * w * w && u * u * u <= (u * u) * w) by (nonlinear_arith)
        requires
            0 <= u <= w,
            0 <= u * u <= w * w,
    ;
    assert(0 <= u * u * u * u <= w * w * w * w && u * u * u * u <= (u * u * u) * w)
        by (nonlinear_arith)
        requires
            0 <= u <= w,
            0 <= u * u * u <= w * w * w,
    ;
    assert(0 <= u * u / w <= u) by (nonlinear_arith)
        requires
            0 <= u * u <= u * w,
            w > 0,
    ;
    lemma_shorter(u * u, u * u * u, w, w);
    lemma_shorter(u * u * u, u * u * u * u, w * w, w);
    assert(w * w * w == (w * w) * w);
}

/// `b / (d * w)` is no more than `a / d` where `b` is no more than `a * w`.
proof fn lemma_shorter(a: int, b: int, d: int, w: int)
    requires
        0 <= b <= a * w,
        d > 0,
        w > 0,
    ensures
        0 <= b / (d * w) <= a / d,
{
    assert(d * w > 0) by (nonlinear_arith)
        requires
            d > 0,
            w > 0,
    ;
    assert(a >= 0) by (nonlinear_arith)
        requires
            0 <= a * w,
            w > 0,
    ;
    vstd::arithmetic::div_mod::lemma_div_denominator(a * w, w, d);
    vstd::arithmetic::div_mod::lemma_div_by_multiple(a, w);
    vstd::arithmetic::div_mod::lemma_div_is_ordered(b, a * w, d * w);
    vstd::arithmetic::div_mod::lemma_div_pos_is_pos(b, d * w);
    assert(w * d == d * w) by (nonlinear_arith);
}

fn cut(t: i64) -> (r: i64)
    ensures
        r == left(t as int),
        0 <= r <= WAY,
{
    WAY - clamped(t, 0, WAY)
}

/// Quadratic ease-out: fades and slides.
pub fn ease_out(t: i64) -> (r: i64)
    ensures
        r == quadratic(t as int),
        0 <= r <= WAY,
{
    let u: i64 = cut(t);
    proof {
        lemma_powers(u as int);
        assert(WAY * WAY == 1_000_000_000_000_000_000) by (nonlinear_arith)
            requires
                WAY == 1_000_000_000,
        ;
    }
    WAY - u * u / WAY
}

/// Cubic ease-out: menus, sheets and whatever travels far.
pub fn ease_out_cubic(t: i64) -> (r: i64)
    ensures
        r == cubic(t as int),
        0 <= r <= WAY,
{
    let u: u128 = cut(t) as u128;
    let w: u128 = WAY as u128;
    proof {
        lemma_powers(u as int);
        lemma_ways();
    }
    WAY - (u * u * u / (w * w)) as i64
}

/// Quartic ease-out: a hard landing.
pub fn ease_out_quartic(t: i64) -> (r: i64)
    ensures
        r == quartic(t as int),
        0 <= r <= WAY,
{
    let u: u128 = cut(t) as u128;
    let w: u128 = WAY as u128;
    proof {
        lemma_powers(u as int);
        lemma_ways();
    }
    WAY - (u * u * u * u / (w * w * w)) as i64
}

proof fn lemma_ways()
    ensures
        WAY * WAY == 1_000_000_000_000_000_000,
        WAY * WAY * WAY == 1_000_000_000_000_000_000_000_000_000,
        WAY * WAY * WAY * WAY == 1_000_000_000_000_000_000_000_000_000_000_000_000,
{
    assert(WAY * WAY == 1_000_000_000_000_000_000) by (nonlinear_arith)
        requires
            WAY == 1_000_000_000,
    ;
    assert(WAY * WAY * WAY == 1_000_000_000_000_000_000_000_000_000) by (nonlinear_arith)
        requires
            WAY == 1_000_000_000,
            WAY * WAY == 1_000_000_000_000_000_000,
    ;
    assert(WAY * WAY * WAY * WAY == 1_000_000_000_000_000_000_000_000_000_000_000_000)
        by (nonlinear_arith)
        requires
            WAY == 1_000_000_000,
            WAY * WAY * WAY == 1_000_000_000_000_000_000_000_000_000,
    ;
}

/// Every curve starts at the start and ends at the end, and never lags
/// behind an even pace; the higher its degree, the further it is.
pub proof fn law_curves(t: int)
    ensures
        quadratic(0) == 0 && cubic(0) == 0 && quartic(0) == 0,
        quadratic(WAY as int) == WAY && cubic(WAY as int) == WAY && quartic(WAY as int) == WAY,
        clamp_of(t, 0, WAY as int) <= quadratic(t) <= cubic(t) <= quartic(t) <= WAY,
{
    lemma_powers(left(t));
    lemma_ways();
    assert(0 * 0 == 0 && 0 * 0 * 0 == 0 && 0 * 0 * 0 * 0 == 0) by (nonlinear_arith);
    assert(left(WAY as int) == 0 && left(0) == WAY);
    let w = WAY as int;
    assert(w * w / w == w && w * w * w / (w * w) == w && w * w * w * w / (w * w * w) == w)
        by (nonlinear_arith)
        requires
            w == 1_000_000_000,
    ;
}

/// No curve ever turns back.
pub proof fn law_curves_grow(a: int, b: int)
    requires
        a <= b,
    ensures
        quadratic(a) <= quadratic(b),
        cubic(a) <= cubic(b),
        quartic(a) <= quartic(b),
{
    let (u, v) = (left(b), left(a));
    let w = WAY as int;
    lemma_ways();
    assert(0 <= u * u <= v * v) by (nonlinear_arith)
        requires
            0 <= u <= v,
    ;
    assert(0 <= u * u * u <= v * v * v) by (nonlinear_arith)
        requires
            0 <= u <= v,
            0 <= u * u <= v * v,
    ;
    assert(0 <= u * u * u * u <= v * v * v * v) by (nonlinear_arith)
        requires
            0 <= u <= v,
            0 <= u * u * u <= v * v * v,
    ;
    vstd::arithmetic::div_mod::lemma_div_is_ordered(u * u, v * v, w);
    vstd::arithmetic::div_mod::lemma_div_is_ordered(u * u * u, v * v * v, w * w);
    vstd::arithmetic::div_mod::lemma_div_is_ordered(u * u * u * u, v * v * v * v, w * w * w);
}

/// A spring that goes no further and no faster than this moves on in 64
/// bits.
pub const TAUT: i64 = 1_000_000_000_000_000;

/// A frame counts for no more than this, in microseconds.
pub const STALL: u64 = 50_000;

/// A critically damped spring: where it is, in parts, and how fast, in
/// parts a second. One that turns back halfway does so from where it is,
/// as fast as it moves.
#[derive(Clone, Copy, Debug, PartialEq, Eq, Structural)]
pub struct Spring {
    pub value: i64,
    pub velocity: i64,
}

impl Spring {
    pub open spec fn wf(self) -> bool {
        -TAUT <= self.value <= TAUT && -TAUT <= self.velocity <= TAUT
    }

    /// The spring `dt` microseconds closer to `target`: stiffness 140,
    /// damping 23.66.
    pub open spec fn stepped(self, target: int, dt: int) -> Spring {
        let d = min_of(dt, STALL as int);
        let force = -14_000 * (self.value - target) - 2_366 * self.velocity;
        let v = self.velocity + force * d / 100_000_000;
        Spring { velocity: v as i64, value: (self.value + v * d / 1_000_000) as i64 }
    }

    /// A spring at rest at the start.
    pub fn new() -> (r: Spring)
        ensures
            r.wf(),
            r == (Spring { value: 0, velocity: 0 }),
    {
        Spring { value: 0, velocity: 0 }
    }

    /// `dt` microseconds closer to `target`. A stalled frame counts for a
    /// twentieth of a second.
    pub fn to(&mut self, target: i64, dt: u64) -> (value: i64)
        requires
            old(self).wf(),
            -TAUT <= target <= TAUT,
        ensures
            *final(self) == old(self).stepped(target as int, dt as int),
            value == final(self).value,
    {
        let d: i128 = if dt < STALL {
            dt as i128
        } else {
            STALL as i128
        };
        let force: i128 = -14_000 * (self.value as i128 - target as i128) - 2_366
            * self.velocity as i128;
        proof {
            assert(-40_000_000_000_000_000_000 * 50_000 <= force * d <= 40_000_000_000_000_000_000
                * 50_000) by (nonlinear_arith)
                requires
                    -40_000_000_000_000_000_000 <= force <= 40_000_000_000_000_000_000,
                    0 <= d <= 50_000,
            ;
        }
        let v: i128 = self.velocity as i128 + floor_div(force * d, 100_000_000);
        proof {
            assert(-30_000_000_000_000_000 * 50_000 <= v * d <= 30_000_000_000_000_000 * 50_000)
                by (nonlinear_arith)
                requires
                    -30_000_000_000_000_000 <= v <= 30_000_000_000_000_000,
                    0 <= d <= 50_000,
            ;
        }
        let x: i128 = self.value as i128 + floor_div(v * d, 1_000_000);
        self.velocity = v as i64;
        self.value = x as i64;
        self.value
    }

    /// It has come to rest at `target`, as far as the eye can tell.
    pub open spec fn resting(self, target: int) -> bool {
        -2_000_000 < self.value - target < 2_000_000 && -20_000_000 < self.velocity < 20_000_000
    }

    /// Has it come to rest at `target`, as far as the eye can tell?
    pub fn settled(&self, target: i64) -> (r: bool)
        requires
            self.wf(),
            -TAUT <= target <= TAUT,
        ensures
            r == self.resting(target as int),
    {
        let off: i64 = self.value - target;
        -2_000_000 < off && off < 2_000_000 && -20_000_000 < self.velocity && self.velocity
            < 20_000_000
    }
}

/// A spring that has arrived stays, however long it is watched.
pub proof fn law_spring_rests(target: i64, dt: int)
    requires
        -TAUT <= target <= TAUT,
        0 <= dt,
    ensures
        (Spring { value: target, velocity: 0 }).stepped(target as int, dt) == (Spring {
            value: target,
            velocity: 0,
        }),
{
    let d = min_of(dt, STALL as int);
    assert(0 * d == 0) by (nonlinear_arith);
}

/// A spring that is let go moves towards its target, and in one frame
/// never past it.
pub proof fn law_spring_pulls(value: i64, target: i64, dt: int)
    requires
        -TAUT <= value <= TAUT,
        -TAUT <= target <= TAUT,
        0 <= dt,
    ensures
        ({
            let s = (Spring { value, velocity: 0 }).stepped(target as int, dt);
            &&& value <= target ==> value <= s.value <= target
            &&& value >= target ==> target <= s.value <= value
        }),
{
    let d = min_of(dt, STALL as int);
    let gap = target - value;
    let force = 14_000 * gap;
    assert(force == -14_000 * (value - target) - 2_366 * 0);
    let v = force * d / 100_000_000;
    if gap >= 0 {
        assert(0 <= force * d <= gap * 700_000_000) by (nonlinear_arith)
            requires
                force == 14_000 * gap,
                gap >= 0,
                0 <= d <= 50_000,
        ;
        assert(0 <= v * d <= gap * 350_000) by (nonlinear_arith)
            requires
                0 <= v <= gap * 7,
                0 <= d <= 50_000,
                gap >= 0,
        ;
    } else {
        assert(gap * 700_000_000 <= force * d <= 0) by (nonlinear_arith)
            requires
                force == 14_000 * gap,
                gap <= 0,
                0 <= d <= 50_000,
        ;
        assert(gap * 350_000 <= v * d <= 0) by (nonlinear_arith)
            requires
                gap * 7 <= v <= 0,
                0 <= d <= 50_000,
                gap <= 0,
        ;
    }
}

/// How far from its target a spring is when the eye takes it to be there.
pub const NEAR: i64 = 1_000_000;

/// At distance `e` from its target and this fast towards it, a spring is
/// not too fast to stop there.
pub open spec fn eased(e: int, speed: int) -> bool {
    e >= NEAR && 0 <= speed && 100 * speed <= 1183 * e
}

/// One frame of such a spring. `v` and `e` are its speed towards the
/// target and its distance, `v1` and `e1` those after the frame, each
/// rounded to one side or the other.
proof fn lemma_eased(e: int, v: int, d: int, v1: int, e1: int)
    requires
        eased(e, v),
        1000 <= d <= STALL,
        -100_000_000 <= 100_000_000 * (v1 - v) - (14_000 * e - 2_366 * v) * d <= 100_000_000,
        -1_000_000 <= 1_000_000 * (e - e1) - v1 * d <= 1_000_000,
    ensures
        v1 > 0,
        0 <= e1 <= e,
        100 * v1 <= 1183 * e1,
{
    let m = 100_000_000 - 2_366 * d;
    let p = 100_000_000 + 1_183 * d;
    let k = e * d;
    let k2 = k * d;
    let a = v * m + 14_000 * k;
    assert(100_000_000 * v + (14_000 * e - 2_366 * v) * d == a) by (nonlinear_arith)
        requires
            m == 100_000_000 - 2_366 * d,
            k == e * d,
            a == v * m + 14_000 * k,
    ;
    assert(k >= 1000 * e && k <= 50_000 * e) by (nonlinear_arith)
        requires
            k == e * d,
            e >= 0,
            1000 <= d <= 50_000,
    ;
    assert(k2 >= 1000 * k) by (nonlinear_arith)
        requires
            k2 == k * d,
            k >= 0,
            d >= 1000,
    ;
    assert(e * m == 100_000_000 * e - 2_366 * k) by (nonlinear_arith)
        requires
            m == 100_000_000 - 2_366 * d,
            k == e * d,
    ;
    assert(e * p == 100_000_000 * e + 1_183 * k) by (nonlinear_arith)
        requires
            p == 100_000_000 + 1_183 * d,
            k == e * d,
    ;
    assert(k * p == 100_000_000 * k + 1_183 * k2) by (nonlinear_arith)
        requires
            p == 100_000_000 + 1_183 * d,
            k2 == k * d,
    ;
    let most = if m >= 0 {
        118_300_000_000 * e - 1_398_978 * k
    } else {
        1_400_000 * k
    };
    if m >= 0 {
        assert(0 <= v * m && 100 * (v * m) <= 1_183 * (e * m)) by (nonlinear_arith)
            requires
                m >= 0,
                0 <= v,
                100 * v <= 1_183 * e,
        ;
        assert(most * p == 118_300_000_000 * (e * p) - 1_398_978 * (k * p)) by (nonlinear_arith)
            requires
                most == 118_300_000_000 * e - 1_398_978 * k,
        ;
    } else {
        assert(v * m <= 0 && 100 * (v * m) >= 1_183 * (e * m)) by (nonlinear_arith)
            requires
                m < 0,
                0 <= v,
                100 * v <= 1_183 * e,
        ;
        assert(d > 42_000);
        assert(k >= 42_000 * e) by (nonlinear_arith)
            requires
                k == e * d,
                e >= 0,
                d > 42_000,
        ;
        assert(most * p <= 1_400_000 * (50_000 * e) * 160_000_000) by (nonlinear_arith)
            requires
                most == 1_400_000 * k,
                0 <= k <= 50_000 * e,
                0 < p <= 160_000_000,
        ;
    }
    assert(100 * a <= most);
    let c = 100_000_000 * v1;
    assert(a - 100_000_000 <= c <= a + 100_000_000);
    assert(v1 > 0);
    let z = 10_000_000_000 * (v1 * p);
    assert(z <= (most + 10_000_000_000) * p) by (nonlinear_arith)
        requires
            z == 10_000_000_000 * (v1 * p),
            10_000_000_000 * v1 <= most + 10_000_000_000,
            p > 0,
    ;
    assert((most + 10_000_000_000) * p == most * p + 10_000_000_000 * p) by (nonlinear_arith);
    assert(v1 * p == 100_000_000 * v1 + 1_183 * (v1 * d)) by (nonlinear_arith)
        requires
            p == 100_000_000 + 1_183 * d,
    ;
    assert(v1 * d > 0) by (nonlinear_arith)
        requires
            v1 > 0,
            d > 0,
    ;
}

impl Spring {
    /// It moves towards `target`, from further than the eye can tell and
    /// not too fast to stop there.
    pub open spec fn gliding(self, target: int) -> bool {
        if self.value >= target {
            eased(self.value - target, -self.velocity)
        } else {
            eased(target - self.value, self.velocity as int)
        }
    }

    /// It has not passed `target` on its way from `from`.
    pub open spec fn before(self, from: int, target: int) -> bool {
        if from >= target {
            target <= self.value <= from
        } else {
            from <= self.value <= target
        }
    }

    /// The spring after the first `n` of these frames, in microseconds.
    pub open spec fn after(self, target: int, dts: Seq<int>, n: int) -> Spring
        decreases n,
    {
        if n <= 0 {
            self
        } else {
            self.after(target, dts, n - 1).stepped(target, dts[n - 1])
        }
    }
}

/// A spring that glides goes on gliding or comes to rest, and does not
/// pass its target. A frame takes no time or a millisecond at the least.
pub proof fn law_spring_glides(s: Spring, target: i64, dt: int)
    requires
        -TAUT <= s.value <= TAUT,
        -TAUT <= target <= TAUT,
        s.gliding(target as int),
        dt == 0 || dt >= 1000,
    ensures
        ({
            let next = s.stepped(target as int, dt);
            &&& next.before(s.value as int, target as int)
            &&& next.gliding(target as int) || next.resting(target as int)
        }),
{
    let d = min_of(dt, STALL as int);
    let force = -14_000 * (s.value - target) - 2_366 * s.velocity;
    let v = s.velocity + force * d / 100_000_000;
    let step = v * d / 1_000_000;
    let next = s.stepped(target as int, dt);
    if dt == 0 {
        assert(force * 0 == 0 && v * 0 == 0) by (nonlinear_arith);
    } else if s.value >= target {
        let (e, u) = (s.value - target, -s.velocity);
        assert((14_000 * e - 2_366 * u) * d == -(force * d)) by (nonlinear_arith)
            requires
                force == -14_000 * e + 2_366 * u,
        ;
        assert(-v * d == -(v * d)) by (nonlinear_arith);
        lemma_eased(e, u, d, -v, e + step);
    } else {
        let (e, u) = (target - s.value, s.velocity as int);
        assert(force == 14_000 * e - 2_366 * u);
        lemma_eased(e, u, d, v, e - step);
    }
}

/// A spring that is let go glides to rest without overshoot: through any
/// frames it stays on its side of the target until it has come to rest
/// there, as far as the eye can tell.
pub proof fn law_no_overshoot(value: i64, target: i64, dts: Seq<int>, n: int)
    requires
        -TAUT <= value <= TAUT,
        -TAUT <= target <= TAUT,
        0 <= n <= dts.len(),
        forall|i: int| 0 <= i < dts.len() ==> #[trigger] dts[i] == 0 || dts[i] >= 1000,
        forall|k: int|
            0 <= k < n ==> !(#[trigger] (Spring { value, velocity: 0 }).after(
                target as int,
                dts,
                k,
            )).resting(target as int),
    ensures
        ({
            let s = (Spring { value, velocity: 0 }).after(target as int, dts, n);
            &&& s.before(value as int, target as int)
            &&& s.gliding(target as int) || s.resting(target as int)
        }),
    decreases n,
{
    let s = Spring { value, velocity: 0 };
    if n > 0 {
        law_no_overshoot(value, target, dts, n - 1);
        let last = s.after(target as int, dts, n - 1);
        assert(!last.resting(target as int));
        law_spring_glides(last, target, dts[n - 1]);
    }
}

/// Where a spring is drawn to: all of the way where it is on.
pub open spec fn goal(on: bool) -> i64 {
    if on {
        WAY
    } else {
        0
    }
}

pub fn goal_of(on: bool) -> (r: i64)
    ensures
        r == goal(on),
{
    if on {
        WAY
    } else {
        0
    }
}

impl Spring {
    /// It has been drawn to and fro between nothing and all of the way:
    /// neither where it is nor where it would come to rest undamped is
    /// more than two ways off the middle.
    pub open spec fn poised(self) -> bool {
        &&& -4 * WAY <= 2 * self.value - WAY <= 4 * WAY
        &&& -4_732 * WAY <= 1_183 * (2 * self.value - WAY) + 200 * self.velocity <= 4_732 * WAY
    }
}

/// The share that `d` microseconds leave of where a spring is, or of where
/// it would come to rest.
spec fn share_of(a: int, b: int, c: int, d: int) -> int {
    a + b * d + c * (d * d)
}

/// One frame of a spring at `x` from the middle, as fast as `v`, drawn to
/// `t`; `x1` and `v1` are those after the frame, each rounded.
spec fn framed(x: int, v: int, t: int, d: int, v1: int, x1: int) -> bool {
    &&& 1000 <= d <= STALL
    &&& -200_000_000 <= 100_000_000 * (v1 - v) - (-14_000 * (x - t) - 2_366 * v) * d
        <= 200_000_000
    &&& -2_000_000 <= 1_000_000 * (x1 - x) - v1 * d <= 2_000_000
}

spec fn place_share(d: int) -> int {
    share_of(10_000_000_000_000_000, -118_300_000_000, 1_398_978, d)
}

spec fn rest_share(d: int) -> int {
    share_of(0, 100_000_000, -2_366, d)
}

spec fn place_share2(d: int) -> int {
    share_of(0, -51_100_000_000, 1_654_990_974, d)
}

spec fn rest_share2(d: int) -> int {
    share_of(10_000_000_000_000_000, -118_300_000_000, -2_798_978, d)
}

proof fn lemma_times(a: int, b: int, c: int, d: int, z: int)
    ensures
        share_of(a, b, c, d) * z == a * z + b * (z * d) + c * (z * d * d),
{
    let dd = d * d;
    let s = share_of(a, b, c, d);
    assert(s * z == a * z + (b * d) * z + (c * dd) * z) by (nonlinear_arith)
        requires
            s == a + b * d + c * dd,
    ;
    assert((b * d) * z == b * (z * d)) by (nonlinear_arith);
    assert((c * dd) * z == c * (z * d * d)) by (nonlinear_arith)
        requires
            dd == d * d,
    ;
}

/// The shares of a frame, times the scale of its rounding.
proof fn lemma_shares(x: int, v: int, t: int, d: int, v1: int, x1: int)
    requires
        framed(x, v, t, d, v1, x1),
    ensures
        ({
            let y = 1_183 * x + 100 * v;
            let n = 10_000_000_000_000_000 * x1 - place_share(d) * x - rest_share(d) * y
                - 1_400_000 * (t * d * d);
            let m = 10_000_000_000_000_000 * (1_183 * x1 + 100 * v1) - place_share2(d) * x
                - rest_share2(d) * y - 1_656_200_000 * (t * d * d) - 140_000_000_000_000 * (t * d);
            &&& -100_000_000_000_000_000 <= n <= 100_000_000_000_000_000
            &&& -100_000_000_000_000_000_000 <= m <= 100_000_000_000_000_000_000
        }),
{
    let y = 1_183 * x + 100 * v;
    let (xd, yd, td) = (x * d, y * d, t * d);
    let (xdd, ydd, tdd) = (xd * d, yd * d, td * d);
    let f = (-14_000 * (x - t) - 2_366 * v) * d;
    let vd = v * d;
    assert(f == -14_000 * xd + 14_000 * td - 2_366 * vd) by (nonlinear_arith)
        requires
            f == (-14_000 * (x - t) - 2_366 * v) * d,
            xd == x * d,
            td == t * d,
            vd == v * d,
    ;
    assert(yd == 1_183 * xd + 100 * vd) by (nonlinear_arith)
        requires
            y == 1_183 * x + 100 * v,
            yd == y * d,
            xd == x * d,
            vd == v * d,
    ;
    let vdd = vd * d;
    assert(ydd == 1_183 * xdd + 100 * vdd) by (nonlinear_arith)
        requires
            yd == 1_183 * xd + 100 * vd,
            ydd == yd * d,
            xdd == xd * d,
            vdd == vd * d,
    ;
    let fd = f * d;
    assert(fd == -14_000 * xdd + 14_000 * tdd - 2_366 * vdd) by (nonlinear_arith)
        requires
            f == -14_000 * xd + 14_000 * td - 2_366 * vd,
            fd == f * d,
            xdd == xd * d,
            tdd == td * d,
            vdd == vd * d,
    ;
    let b = 100_000_000 * (v1 - v) - f;
    let bd = b * d;
    assert(-10_000_000_000_000 <= bd <= 10_000_000_000_000) by (nonlinear_arith)
        requires
            -200_000_000 <= b <= 200_000_000,
            0 <= d <= 50_000,
            bd == b * d,
    ;
    let v1d = v1 * d;
    assert(100_000_000 * v1d == 100_000_000 * vd + fd + bd) by (nonlinear_arith)
        requires
            b == 100_000_000 * (v1 - v) - f,
            v1d == v1 * d,
            vd == v * d,
            fd == f * d,
            bd == b * d,
    ;
    lemma_times(10_000_000_000_000_000, -118_300_000_000, 1_398_978, d, x);
    lemma_times(0, 100_000_000, -2_366, d, y);
    lemma_times(0, -51_100_000_000, 1_654_990_974, d, x);
    lemma_times(10_000_000_000_000_000, -118_300_000_000, -2_798_978, d, y);
    let c = 1_000_000 * (x1 - x) - v1d;
    let n = 10_000_000_000_000_000 * x1 - place_share(d) * x - rest_share(d) * y - 1_400_000 * tdd;
    let m = 10_000_000_000_000_000 * (1_183 * x1 + 100 * v1) - place_share2(d) * x - rest_share2(d)
        * y - 1_656_200_000 * tdd - 140_000_000_000_000 * td;
    assert(n == 100 * bd + 10_000_000_000 * c);
    assert(m == 118_300 * bd + 11_830_000_000_000 * c + 10_000_000_000 * b);
}

/// A share of what is within `m` of the middle is within that share of `m`.
proof fn lemma_spread(c: int, z: int, m: int)
    requires
        -m <= z <= m,
    ensures
        c >= 0 ==> -(c * m) <= c * z <= c * m,
        c < 0 ==> c * m <= c * z <= -(c * m),
{
    assert(c >= 0 ==> -(c * m) <= c * z <= c * m) by (nonlinear_arith)
        requires
            -m <= z <= m,
    ;
    assert(c < 0 ==> c * m <= c * z <= -(c * m)) by (nonlinear_arith)
        requires
            -m <= z <= m,
    ;
}

proof fn lemma_sway(x: int, v: int, t: int, d: int, v1: int, x1: int)
    requires
        -4 * WAY <= x <= 4 * WAY,
        -4_732 * WAY <= 1_183 * x + 100 * v <= 4_732 * WAY,
        t == WAY || t == -WAY,
        framed(x, v, t, d, v1, x1),
    ensures
        -4 * WAY <= x1 <= 4 * WAY,
        -4_732 * WAY <= 1_183 * x1 + 100 * v1 <= 4_732 * WAY,
{
    let w = WAY as int;
    let y = 1_183 * x + 100 * v;
    lemma_shares(x, v, t, d, v1, x1);
    lemma_spread(place_share(d), x, 4 * w);
    lemma_spread(rest_share(d), y, 4_732 * w);
    lemma_spread(place_share2(d), x, 4 * w);
    lemma_spread(rest_share2(d), y, 4_732 * w);
    lemma_times(10_000_000_000_000_000, -118_300_000_000, 1_398_978, d, 4 * w);
    lemma_times(0, 100_000_000, -2_366, d, 4_732 * w);
    lemma_times(0, -51_100_000_000, 1_654_990_974, d, 4 * w);
    lemma_times(10_000_000_000_000_000, -118_300_000_000, -2_798_978, d, 4_732 * w);
    let (wd, wdd) = (w * d, w * d * d);
    assert((4 * w) * d == 4 * wd && (4 * w) * d * d == 4 * wdd) by (nonlinear_arith)
        requires
            wd == w * d,
            wdd == w * d * d,
    ;
    assert((4_732 * w) * d == 4_732 * wd && (4_732 * w) * d * d == 4_732 * wdd) by (nonlinear_arith)
        requires
            wd == w * d,
            wdd == w * d * d,
    ;
    assert(1000 * w <= wd <= 50_000 * w && 1000 * wd <= wdd <= 50_000 * wd) by (nonlinear_arith)
        requires
            wd == w * d,
            wdd == w * d * d,
            w > 0,
            1000 <= d <= 50_000,
    ;
    let (td, tdd) = (t * d, t * d * d);
    assert(-wd <= td <= wd && -wdd <= tdd <= wdd) by (nonlinear_arith)
        requires
            t == w || t == -w,
            td == t * d,
            tdd == t * d * d,
            wd == w * d,
            wdd == w * d * d,
            w > 0,
            d > 0,
    ;
    let dd = d * d;
    assert(1_000_000 <= dd && 1000 * d <= dd <= 50_000 * d) by (nonlinear_arith)
        requires
            dd == d * d,
            1000 <= d <= 50_000,
    ;
    assert(place_share(d) > 0 && place_share2(d) > 0);
}

/// A spring that is drawn to and fro, wherever it turns back, stays
/// poised. A frame takes no time or a millisecond at the least.
pub proof fn law_spring_poised(s: Spring, on: bool, dt: int)
    requires
        s.poised(),
        dt == 0 || dt >= 1000,
    ensures
        s.wf(),
        s.stepped(goal(on) as int, dt).poised(),
{
    let target = goal(on) as int;
    let d = min_of(dt, STALL as int);
    let force = -14_000 * (s.value - target) - 2_366 * s.velocity;
    let v = s.velocity + force * d / 100_000_000;
    let (x, t) = (2 * s.value - WAY, 2 * target - WAY);
    if dt == 0 {
        assert(force * 0 == 0 && v * 0 == 0) by (nonlinear_arith);
    } else {
        assert((-14_000 * (x - t) - 2_366 * (2 * s.velocity)) * d == 2 * (force * d))
            by (nonlinear_arith)
            requires
                force == -14_000 * (s.value - target) - 2_366 * s.velocity,
                x - t == 2 * (s.value - target),
        ;
        assert((2 * v) * d == 2 * (v * d)) by (nonlinear_arith);
        lemma_sway(
            x,
            2 * s.velocity,
            t,
            d,
            2 * v,
            2 * (s.value + v * d / 1_000_000) - WAY,
        );
    }
}

/// The time since the last frame, in microseconds; a sixtieth of a second
/// before the first one, and no more than a stalled frame counts for.
pub open spec fn since(last: Option<u64>, now: u64) -> int {
    match last {
        Some(t) => if now > t {
            min_of((now - t) * 1000, STALL as int)
        } else {
            0
        },
        None => 16_667,
    }
}

/// The time since the last frame, which was at `last` milliseconds.
pub fn frame_time(last: Option<u64>, now: u64) -> (dt: u64)
    ensures
        dt == since(last, now),
        dt == 0 || dt >= 1000,
{
    match last {
        Some(t) => if now <= t {
            0
        } else if now - t >= 50 {
            STALL
        } else {
            (now - t) * 1000
        },
        None => 16_667,
    }
}

/// A movement has gone as much of its way as of its time.
pub proof fn law_gone(elapsed: int, total: int)
    requires
        0 <= elapsed <= total,
        0 < total,
    ensures
        gone(elapsed, total) * total <= elapsed * WAY < (gone(elapsed, total) + 1) * total,
        gone(0, total) == 0,
{
    let v = elapsed * WAY;
    let k = v / total;
    assert(0 <= v <= total * WAY) by (nonlinear_arith)
        requires
            0 <= elapsed <= total,
            v == elapsed * WAY,
            WAY == 1_000_000_000,
    ;
    assert(k * total <= v < (k + 1) * total && k <= WAY) by (nonlinear_arith)
        requires
            k == v / total,
            0 < total,
            0 <= v <= total * WAY,
    ;
    assert(0int * WAY == 0 && 0int / total == 0) by (nonlinear_arith)
        requires
            total > 0,
    ;
}

/// A spring is driven on while the pointer holds it, and back else; a
/// frame's time is what passed since the last one, and no more than a
/// twentieth of a second.
pub proof fn law_frame_time(last: u64, now: u64)
    ensures
        goal(true) == WAY && goal(false) == 0,
        last <= now <= last + 50 ==> since(Some(last), now) == (now - last) * 1000,
        now > last + 50 ==> since(Some(last), now) == 50_000,
        now <= last ==> since(Some(last), now) == 0,
{
}

} // verus!
