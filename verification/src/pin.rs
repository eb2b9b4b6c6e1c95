//! The pinned capture, and the flash at the moment of a grab.

use vstd::prelude::*;
use crate::canvas::{pixels_in, Canvas};
use crate::codec::{decode, png_decoded};
use crate::geom::PX;
use crate::overlay::{extent_of, layout};
use crate::pipeline::{peek_decoded, Stash};
use crate::screen::WinRect;
use crate::text::joined3;

verus! {

/// The largest pinned window, in logical pixels.
pub const PIN_W: i64 = 720;

pub const PIN_H: i64 = 540;

/// The same in units.
pub const PIN_WIDE: i64 = 7_200_000;

pub const PIN_TALL: i64 = 5_400_000;

/// The size of the window that shows a capture, in units: one pixel of the
/// capture to a device pixel, at this scale, and no larger than it may be.
pub open spec fn pinned(w: int, h: int, scale: int) -> (int, int) {
    if w * PX <= PIN_W * scale && h * PX <= PIN_H * scale {
        ((w * (PX * PX)) / scale, (h * (PX * PX)) / scale)
    } else if PIN_W * h <= PIN_H * w {
        (PIN_WIDE as int, (PIN_WIDE * h) / w)
    } else {
        ((PIN_TALL * w) / h, PIN_TALL as int)
    }
}

/// The size of a pinned window.
pub fn pin_size(w: u32, h: u32, scale: i64) -> (r: (i64, i64))
    requires
        w > 0,
        h > 0,
        0 < scale <= 1_000_000,
    ensures
        r.0 == pinned(w as int, h as int, scale as int).0,
        r.1 == pinned(w as int, h as int, scale as int).1,
        0 <= r.0 <= PIN_WIDE,
        0 <= r.1 <= PIN_TALL,
{
    let (iw, ih): (i64, i64) = (w as i64, h as i64);
    if iw * PX <= PIN_W * scale && ih * PX <= PIN_H * scale {
        proof {
            let a = (iw * (PX * PX)) / scale as int;
            let b = (ih * (PX * PX)) / scale as int;
            assert(0 <= a <= PIN_WIDE) by (nonlinear_arith)
                requires
                    a == (iw * (PX * PX)) / scale as int,
                    PIN_WIDE == 7_200_000,
                    PIN_W == 720,
                    0 <= iw,
                    iw * PX <= PIN_W * scale,
                    PX == 10_000,
                    scale > 0,
            ;
            assert(0 <= b <= PIN_TALL) by (nonlinear_arith)
                requires
                    b == (ih * (PX * PX)) / scale as int,
                    PIN_TALL == 5_400_000,
                    PIN_H == 540,
                    0 <= ih,
                    ih * PX <= PIN_H * scale,
                    PX == 10_000,
                    scale > 0,
            ;
            assert(iw * (PX * PX) == iw * 100_000_000);
            assert(ih * (PX * PX) == ih * 100_000_000);
        }
        (iw * 100_000_000 / scale, ih * 100_000_000 / scale)
    } else if PIN_W * ih <= PIN_H * iw {
        proof {
            let b = (PIN_WIDE * ih) / iw as int;
            assert(0 <= b <= PIN_TALL) by (nonlinear_arith)
                requires
                    b == (PIN_WIDE * ih) / iw as int,
                    0 < iw,
                    0 <= ih,
                    PIN_W * ih <= PIN_H * iw,
                    PIN_WIDE == 7_200_000 && PIN_TALL == 5_400_000,
                    PIN_W == 720 && PIN_H == 540,
            ;
        }
        (PIN_WIDE, PIN_WIDE * ih / iw)
    } else {
        proof {
            let a = (PIN_TALL * iw) / ih as int;
            assert(0 <= a <= PIN_WIDE) by (nonlinear_arith)
                requires
                    a == (PIN_TALL * iw) / ih as int,
                    0 < ih,
                    0 <= iw,
                    PIN_W * ih > PIN_H * iw,
                    PIN_WIDE == 7_200_000 && PIN_TALL == 5_400_000,
                    PIN_W == 720 && PIN_H == 540,
            ;
        }
        (PIN_TALL * iw / ih, PIN_TALL)
    }
}

/// The pixels of a pinned capture: the image that is kept for its path, or
/// else its file, which is what was read or why it could not be.
pub fn pin_image(stash: &Stash, file: Result<Vec<u8>, String>, path: &str) -> (r: Result<
    Canvas,
    String,
>)
    requires
        stash.kept(path@) matches Some(c) ==> c.wf(),
    ensures
        match stash.kept(path@) {
            Some(c) => r matches Ok(p) && p.wf() && p.width == c.width && p.height == c.height
                && p.pixels@ == c.pixels@,
            None => match file {
                Err(e) => r matches Err(f) && f@ == "read "@ + path@ + ": "@ + e@,
                Ok(b) => match (png_decoded(b@), r) {
                    (Ok((w, h, px)), Ok(p)) => p.wf() && p.width == w && p.height == h && p.pixels@
                        == pixels_in(px),
                    (Err(_), Err(f)) => f@ == "decode "@ + path@ + ": not a supported image"@,
                    _ => false,
                },
            },
        },
{
    match peek_decoded(stash, path) {
        Some(c) => Ok(c.copy()),
        None => match file {
            Err(e) => Err(joined3("read ", path, ": ").concat(e.as_str())),
            Ok(b) => match decode(&b, path) {
                Ok(p) => Ok(p),
                Err(_) => Err(joined3("decode ", path, ": not a supported image")),
            },
        },
    }
}

/// How long the flash lasts, in milliseconds.
pub const FLASH_MS: u64 = 180;

/// How strong it is at first, in parts of the whole.
pub const FLASH_PEAK: i64 = 380_000_000;

/// How strong the flash is after `ms`.
pub open spec fn flash_of(ms: int) -> int {
    if ms >= FLASH_MS {
        0
    } else {
        FLASH_PEAK * ((FLASH_MS - ms) * (FLASH_MS - ms)) / (FLASH_MS * FLASH_MS)
    }
}

/// How strong the flash is after `ms`. None: it is over.
pub fn flash(ms: u64) -> (r: Option<i64>)
    ensures
        match r {
            Some(o) => ms < FLASH_MS && o == flash_of(ms as int) && 0 <= o <= FLASH_PEAK,
            None => ms >= FLASH_MS,
        },
{
    if ms >= FLASH_MS {
        return None;
    }
    let left: i64 = (FLASH_MS - ms) as i64;
    proof {
        assert(0 <= left * left <= 32400) by (nonlinear_arith)
            requires
                0 <= left <= 180,
        ;
        let q = FLASH_PEAK * (left * left);
        assert(0 <= q <= FLASH_PEAK * 32400) by (nonlinear_arith)
            requires
                q == FLASH_PEAK * (left * left),
                0 <= left * left <= 32400,
                FLASH_PEAK == 380_000_000,
        ;
        assert(FLASH_MS * FLASH_MS == 32400) by (nonlinear_arith)
            requires
                FLASH_MS == 180,
        ;
    }
    Some(FLASH_PEAK * (left * left) / 32400)
}

/// What the flash covers: all monitors, at least a pixel. Without a
/// monitor, a screen of its own.
pub open spec fn flash_extent(mons: Seq<WinRect>) -> (int, int, int, int) {
    if mons.len() == 0 {
        (0, 0, 1280, 800)
    } else {
        let u = extent_of(mons);
        (
            u.0,
            u.1,
            if u.2 - u.0 < 1 {
                1
            } else {
                u.2 - u.0
            },
            if u.3 - u.1 < 1 {
                1
            } else {
                u.3 - u.1
            },
        )
    }
}

/// What the flash covers.
pub fn flash_rect(monitors: Vec<WinRect>) -> (r: WinRect)
    requires
        forall|i: int|
            0 <= i < monitors@.len() ==> (#[trigger] monitors@[i]).right() <= i32::MAX
                && monitors@[i].bottom() <= i32::MAX,
    ensures
        (r.x as int, r.y as int, r.width as int, r.height as int) == flash_extent(monitors@),
{
    if monitors.len() == 0 {
        return WinRect { x: 0, y: 0, width: 1280, height: 800 };
    }
    let u = layout(monitors, Vec::new()).union;
    WinRect {
        x: u.x,
        y: u.y,
        width: if u.width < 1 {
            1
        } else {
            u.width
        },
        height: if u.height < 1 {
            1
        } else {
            u.height
        },
    }
}

/// A pin shows the whole image at its own proportions, as large as it is
/// where that fits into 720 by 540, and else with one side at its bound.
pub proof fn law_pinned(w: int, h: int, scale: int)
    requires
        0 < w && 0 < h && 0 < scale,
    ensures
        ({
            let (a, b) = pinned(w, h, scale);
            &&& w * PX <= 720 * scale && h * PX <= 540 * scale ==> {
                &&& a * scale <= w * (PX * PX) < (a + 1) * scale
                &&& b * scale <= h * (PX * PX) < (b + 1) * scale
            }
            &&& w * PX > 720 * scale || h * PX > 540 * scale ==> {
                ||| a == 720 * PX && b <= 540 * PX && b * w <= a * h < (b + 1) * w
                ||| b == 540 * PX && a <= 720 * PX && a * h <= b * w < (a + 1) * h
            }
        }),
{
    if w * PX <= 720 * scale && h * PX <= 540 * scale {
        lemma_ratio(w * (PX * PX), scale);
        lemma_ratio(h * (PX * PX), scale);
    } else if 720 * h <= 540 * w {
        lemma_ratio(PIN_WIDE * h, w);
        let b = (PIN_WIDE * h) / w;
        assert(b <= 540 * PX) by (nonlinear_arith)
            requires
                b * w <= 7_200_000 * h,
                720 * h <= 540 * w,
                w > 0,
                PX == 10_000,
        ;
    } else {
        lemma_ratio(PIN_TALL * w, h);
        let a = (PIN_TALL * w) / h;
        assert(a <= 720 * PX) by (nonlinear_arith)
            requires
                a * h <= 5_400_000 * w,
                720 * h > 540 * w,
                h > 0,
                PX == 10_000,
        ;
    }
}

proof fn lemma_ratio(a: int, b: int)
    requires
        b > 0,
    ensures
        (a / b) * b <= a < (a / b + 1) * b,
{
    vstd::arithmetic::div_mod::lemma_fundamental_div_mod(a, b);
    assert((a / b) * b <= a < (a / b + 1) * b) by (nonlinear_arith)
        requires
            b > 0,
    ;
}

/// The flash is brightest at first and fades until it is over.
pub proof fn law_flash_fades(a: int, b: int)
    requires
        0 <= a <= b,
    ensures
        flash_of(0) == 380_000_000,
        0 <= flash_of(b) <= flash_of(a) <= 380_000_000,
        b >= 180 ==> flash_of(b) == 0,
{
    let m = 180int;
    let (p, q) = (m - a, m - b);
    if b < m {
        assert(0 <= q * q <= p * p <= m * m) by (nonlinear_arith)
            requires
                0 <= q <= p <= m,
        ;
    } else if a < m {
        assert(0 <= p * p <= m * m) by (nonlinear_arith)
            requires
                0 <= p <= m,
        ;
    }
}

/// The flash lies over every monitor.
pub proof fn law_flash_covers(mons: Seq<WinRect>, i: int)
    requires
        0 <= i < mons.len(),
    ensures
        ({
            let (x, y, w, h) = flash_extent(mons);
            &&& x <= mons[i].x && mons[i].right() <= x + w
            &&& y <= mons[i].y && mons[i].bottom() <= y + h
        }),
{
    crate::overlay::law_extent_holds(mons, i);
}

} // verus!
