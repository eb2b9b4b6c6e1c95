//! Products that take twice the width of what they are made of, and the
//! square roots of such products.

use vstd::prelude::*;
use crate::shapes::{is_root, lemma_div, lemma_root, root_of};

verus! {

/// Two to the 64th.
pub const LIMB: u128 = 0x1_0000_0000_0000_0000;

/// A number in two halves, `hi` times the square of [`LIMB`] and `lo`.
#[derive(Clone, Copy, Debug, PartialEq, Eq, Structural)]
pub struct Wide {
    pub hi: u128,
    pub lo: u128,
}

impl View for Wide {
    type V = int;

    open spec fn view(&self) -> int {
        self.hi * (LIMB * LIMB) + self.lo
    }
}

proof fn lemma_halves(v: u128)
    ensures
        v == (v / LIMB) * LIMB + v % LIMB,
        0 <= v / LIMB < LIMB,
        0 <= v % LIMB < LIMB,
{
}

/// A product of two halves, and how much of it is carried.
proof fn lemma_part(a: int, b: int)
    requires
        0 <= a < LIMB,
        0 <= b < LIMB,
    ensures
        0 <= a * b <= (LIMB - 1) * (LIMB - 1),
{
    assert(0 <= a * b <= (LIMB - 1) * (LIMB - 1)) by (nonlinear_arith)
        requires
            0 <= a <= LIMB - 1,
            0 <= b <= LIMB - 1,
    ;
}

proof fn lemma_cross(a1: int, a0: int, b1: int, b0: int, l: int)
    ensures
        (a1 * l + a0) * (b1 * l + b0) == (a1 * b1) * (l * l) + (a0 * b1 + a1 * b0) * l + a0 * b0,
{
    let (x, y) = (a1 * l, b1 * l);
    assert((x + a0) * (y + b0) == x * y + x * b0 + a0 * y + a0 * b0) by (nonlinear_arith);
    assert(x * y == (a1 * b1) * (l * l)) by (nonlinear_arith)
        requires
            x == a1 * l,
            y == b1 * l,
    ;
    assert(x * b0 == (a1 * b0) * l) by (nonlinear_arith)
        requires
            x == a1 * l,
    ;
    assert(a0 * y == (a0 * b1) * l) by (nonlinear_arith)
        requires
            y == b1 * l,
    ;
    let (p, q) = (a0 * b1, a1 * b0);
    assert((p + q) * l == p * l + q * l) by (nonlinear_arith);
}

/// `a * b`.
pub fn product(a: u128, b: u128) -> (r: Wide)
    ensures
        r@ == a * b,
{
    let (a1, a0): (u128, u128) = (a / LIMB, a % LIMB);
    let (b1, b0): (u128, u128) = (b / LIMB, b % LIMB);
    proof {
        lemma_halves(a);
        lemma_halves(b);
        lemma_part(a0 as int, b0 as int);
        lemma_part(a0 as int, b1 as int);
        lemma_part(a1 as int, b0 as int);
        lemma_part(a1 as int, b1 as int);
    }
    let p00: u128 = a0 * b0;
    let p01: u128 = a0 * b1;
    let p10: u128 = a1 * b0;
    let p11: u128 = a1 * b1;
    proof {
        lemma_halves(p00);
        lemma_halves(p01);
        lemma_halves(p10);
    }
    let mid: u128 = p00 / LIMB + p01 % LIMB + p10 % LIMB;
    proof {
        lemma_halves(mid);
        lemma_cross(a1 as int, a0 as int, b1 as int, b0 as int, LIMB as int);
    }
    let r = Wide {
        hi: p11 + p01 / LIMB + p10 / LIMB + mid / LIMB,
        lo: (mid % LIMB) * LIMB + p00 % LIMB,
    };
    proof {
        let l = LIMB as int;
        assert(r.hi * (l * l) == r.hi * 0x1_0000_0000_0000_0000_0000_0000_0000_0000);
        assert(p11 * (l * l) == p11 * 0x1_0000_0000_0000_0000_0000_0000_0000_0000);
    }
    r
}

/// Is `a * b` no more than `c * d`?
pub fn product_le(a: i128, b: i128, c: i128, d: i128) -> (r: bool)
    requires
        a >= 0,
        b >= 0,
        c >= 0,
        d >= 0,
    ensures
        r == (a * b <= c * d),
{
    let p = product(a as u128, b as u128);
    let q = product(c as u128, d as u128);
    proof {
        let h = LIMB * LIMB;
        assert(p.hi < q.hi ==> p.hi * h + h <= q.hi * h) by (nonlinear_arith)
            requires
                h > 0,
        ;
        assert(q.hi < p.hi ==> q.hi * h + h <= p.hi * h) by (nonlinear_arith)
            requires
                h > 0,
        ;
    }
    if p.hi != q.hi {
        p.hi < q.hi
    } else {
        p.lo <= q.lo
    }
}

/// The square root of `p * q`, rounded down.
pub fn root_product(p: i128, q: i128) -> (s: i128)
    requires
        p >= 0,
        q >= 0,
        p * q < 0x200_0000_0000_0000_0000 * 0x200_0000_0000_0000_0000,
    ensures
        is_root(s as int, p * q),
        s == root_of(p * q),
        0 <= s < 0x200_0000_0000_0000_0000,
{
    let mut lo: i128 = 0;
    let mut hi: i128 = 0x200_0000_0000_0000_0000;
    assert(p * q >= 0) by (nonlinear_arith)
        requires
            p >= 0,
            q >= 0,
    ;
    while hi - lo > 1
        invariant
            p >= 0,
            q >= 0,
            0 <= lo < hi <= 0x200_0000_0000_0000_0000,
            lo * lo <= p * q < hi * hi,
        decreases hi - lo,
    {
        let mid: i128 = lo + (hi - lo) / 2;
        if product_le(mid, mid, p, q) {
            lo = mid;
        } else {
            hi = mid;
        }
    }
    proof {
        lemma_root(lo as int, p * q);
    }
    lo
}

/// The square root of `p * q / m`, rounded down, where `q` is no more than
/// `m`.
pub fn root_ratio(p: i128, q: i128, m: i128) -> (s: i128)
    requires
        0 <= p < 0x4_0000_0000_0000 * 0x4_0000_0000_0000,
        0 <= q <= m,
        m > 0,
    ensures
        is_root(s as int, p * q / m as int),
        s == root_of(p * q / m as int),
        0 <= s < 0x4_0000_0000_0000,
{
    let mut lo: i128 = 0;
    let mut hi: i128 = 0x4_0000_0000_0000;
    let ghost n = p * q / m as int;
    proof {
        assert(0 <= p * q <= p * m) by (nonlinear_arith)
            requires
                0 <= p,
                0 <= q <= m,
        ;
        lemma_div(p * q, m as int, 0);
        lemma_div(p * q, m as int, p + 1);
        assert((p + 1) * m > p * m) by (nonlinear_arith)
            requires
                m > 0,
        ;
    }
    while hi - lo > 1
        invariant
            0 <= p,
            0 <= q,
            m > 0,
            n == p * q / m as int,
            0 <= lo < hi <= 0x4_0000_0000_0000,
            lo * lo <= n < hi * hi,
        decreases hi - lo,
    {
        let mid: i128 = lo + (hi - lo) / 2;
        proof {
            assert(0 <= mid * mid <= 0x4_0000_0000_0000int * 0x4_0000_0000_0000int)
                by (nonlinear_arith)
                requires
                    0 <= mid <= 0x4_0000_0000_0000,
            ;
            lemma_div(p * q, m as int, mid * mid);
        }
        if product_le(mid * mid, m, p, q) {
            lo = mid;
        } else {
            hi = mid;
        }
    }
    proof {
        lemma_root(lo as int, n);
    }
    lo
}

} // verus!
