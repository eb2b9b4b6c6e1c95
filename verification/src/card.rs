//! The toast's card: its size, its place on the screen and its pixels.

use vstd::prelude::*;
use crate::canvas::{pixels_in, rgba_of, Canvas, Pixel};
use crate::codec::{named_decoded, open_image};
use crate::config::ToastPosition;
use crate::geom::{max_of, Rect, PX};
use crate::pipeline::{peek_decoded, Stash};

verus! {

/// The card's largest size, in logical pixels.
pub const MAX_W: u64 = 200;

pub const MAX_H: u64 = 140;

/// Its distance from the screen's edges, in units.
pub const MARGIN: i64 = 120_000;

/// `a / b`, rounded half up.
pub open spec fn rounded(a: int, b: int) -> int {
    (2 * a + b) / (2 * b)
}

/// The card's size for a capture of this size: its aspect kept, within
/// the largest size, never enlarged, in whole pixels.
pub open spec fn card_of(iw: int, ih: int) -> (int, int) {
    if iw <= MAX_W && ih <= MAX_H {
        (iw, ih)
    } else if MAX_W * ih <= MAX_H * iw {
        (MAX_W as int, max_of(rounded(ih * MAX_W, iw), 1))
    } else {
        (max_of(rounded(iw * MAX_H, ih), 1), MAX_H as int)
    }
}

proof fn lemma_rounded(a: int, b: int, m: int)
    requires
        0 < b,
        0 <= a <= m * b,
    ensures
        0 <= rounded(a, b) <= m,
{
    assert(0 <= (2 * a + b) / (2 * b) <= m) by (nonlinear_arith)
        requires
            0 < b,
            0 <= a <= m * b,
    ;
}

/// The card's logical size for a capture of `iw` by `ih` pixels.
pub fn card_size(iw: u32, ih: u32) -> (r: (u32, u32))
    requires
        iw > 0,
        ih > 0,
    ensures
        r.0 == card_of(iw as int, ih as int).0,
        r.1 == card_of(iw as int, ih as int).1,
        1 <= r.0 <= MAX_W,
        1 <= r.1 <= MAX_H,
{
    if iw as u64 <= MAX_W && ih as u64 <= MAX_H {
        return (iw, ih);
    }
    if MAX_W * ih as u64 <= MAX_H * iw as u64 {
        proof {
            lemma_rounded(ih * MAX_W, iw as int, MAX_H as int);
        }
        let h: u64 = (2 * (ih as u64 * MAX_W) + iw as u64) / (2 * iw as u64);
        (
            MAX_W as u32,
            if h >= 1 {
                h as u32
            } else {
                1
            },
        )
    } else {
        proof {
            lemma_rounded(iw * MAX_H, ih as int, MAX_W as int);
        }
        let w: u64 = (2 * (iw as u64 * MAX_H) + ih as u64) / (2 * ih as u64);
        (
            if w >= 1 {
                w as u32
            } else {
                1
            },
            MAX_H as u32,
        )
    }
}

/// The card is never larger than its capture.
pub proof fn law_never_enlarged(iw: int, ih: int)
    requires
        0 < iw,
        0 < ih,
    ensures
        card_of(iw, ih).0 <= iw,
        card_of(iw, ih).1 <= ih,
{
    if iw <= MAX_W && ih <= MAX_H {
    } else if MAX_W * ih <= MAX_H * iw {
        if iw < MAX_W {
            assert(MAX_W * ih > MAX_H * iw) by (nonlinear_arith)
                requires
                    MAX_W == 200,
                    MAX_H == 140,
                    iw < MAX_W,
                    ih > MAX_H,
            ;
        }
        assert(ih * MAX_W <= ih * iw) by (nonlinear_arith)
            requires
                0 < ih,
                MAX_W <= iw,
        ;
        lemma_rounded(ih * MAX_W, iw, ih);
    } else {
        if ih < MAX_H {
            assert(MAX_W * ih <= MAX_H * iw) by (nonlinear_arith)
                requires
                    MAX_W == 200,
                    MAX_H == 140,
                    ih < MAX_H,
                    iw > MAX_W,
            ;
        }
        assert(iw * MAX_H <= iw * ih) by (nonlinear_arith)
            requires
                0 < iw,
                MAX_H <= ih,
        ;
        lemma_rounded(iw * MAX_H, ih, iw);
    }
}

/// Where a card rests along one side of a display: a margin from its
/// near or its far edge.
pub open spec fn rest_at(near: bool, display: int, card: int) -> int {
    if near {
        MARGIN as int
    } else {
        display - MARGIN - card
    }
}

/// The card's resting rectangle on a display.
pub open spec fn rest_of(pos: ToastPosition, dw: int, dh: int, w: int, h: int) -> Rect {
    Rect {
        x: rest_at(pos.is_left(), dw, w * PX) as i64,
        y: rest_at(pos.is_top(), dh, h * PX) as i64,
        w: (w * PX) as i64,
        h: (h * PX) as i64,
    }
}

/// The largest display, in units.
pub const DISPLAY: i64 = 100_000_000_000_000;

/// The card's resting rectangle on a display of this size, in units, for
/// a capture of `iw` by `ih` pixels.
pub fn card_rest_rect(pos: ToastPosition, dw: i64, dh: i64, iw: u32, ih: u32) -> (r: Rect)
    requires
        iw > 0,
        ih > 0,
        -DISPLAY <= dw <= DISPLAY,
        -DISPLAY <= dh <= DISPLAY,
    ensures
        r == rest_of(
            pos,
            dw as int,
            dh as int,
            card_of(iw as int, ih as int).0,
            card_of(iw as int, ih as int).1,
        ),
        PX <= r.w <= MAX_W * PX && PX <= r.h <= MAX_H * PX,
        dw >= 0 && dh >= 0 ==> -DISPLAY <= r.x <= DISPLAY && -DISPLAY <= r.y <= DISPLAY,
{
    let (w, h) = card_size(iw, ih);
    let w: i64 = w as i64 * PX;
    let h: i64 = h as i64 * PX;
    Rect {
        x: if pos.left() {
            MARGIN
        } else {
            dw - MARGIN - w
        },
        y: if pos.top() {
            MARGIN
        } else {
            dh - MARGIN - h
        },
        w,
        h,
    }
}

/// One side of the toast's window: against the display's near or far
/// edge.
pub open spec fn window_at(near: bool, start: int, display: int, win: int) -> int {
    if near {
        start
    } else {
        start + display - win
    }
}

/// The toast's window for a card of `w` by `h` units and this bleed, on
/// `screen`; at the root's corner where the screen is not known.
pub open spec fn toast_window(
    pos: ToastPosition,
    w: int,
    h: int,
    bleed: int,
    screen: Option<Rect>,
) -> Rect {
    let ww = w + bleed + MARGIN;
    let wh = h + bleed + MARGIN;
    match screen {
        Some(s) => Rect {
            x: window_at(pos.is_left(), s.left(), s.w as int, ww) as i64,
            y: window_at(pos.is_top(), s.top(), s.h as int, wh) as i64,
            w: ww as i64,
            h: wh as i64,
        },
        None => Rect { x: 0, y: 0, w: ww as i64, h: wh as i64 },
    }
}

/// The card in its window: a margin from the window's edges at its
/// corner.
pub open spec fn card_in(pos: ToastPosition, win: Rect, w: int, h: int) -> Rect {
    Rect {
        x: (if pos.is_left() {
            win.left() + MARGIN
        } else {
            win.right() - MARGIN - w
        }) as i64,
        y: (if pos.is_top() {
            win.top() + MARGIN
        } else {
            win.bottom() - MARGIN - h
        }) as i64,
        w: w as i64,
        h: h as i64,
    }
}

pub open spec fn on_display(v: int) -> bool {
    -DISPLAY <= v <= DISPLAY
}

/// The toast's window and its card on the screen, for a card of `w` by
/// `h` units.
pub fn toast_rects(pos: ToastPosition, w: i64, h: i64, bleed: i64, screen: Option<Rect>) -> (r: (
    Rect,
    Rect,
))
    requires
        0 <= w <= DISPLAY,
        0 <= h <= DISPLAY,
        0 <= bleed <= DISPLAY,
        screen matches Some(s) ==> on_display(s.x as int) && on_display(s.y as int) && on_display(
            s.w as int,
        ) && on_display(s.h as int),
    ensures
        r.0 == toast_window(pos, w as int, h as int, bleed as int, screen),
        r.1 == card_in(pos, r.0, w as int, h as int),
{
    let ww: i64 = w + bleed + MARGIN;
    let wh: i64 = h + bleed + MARGIN;
    let win = match screen {
        Some(s) => Rect {
            x: if pos.left() {
                s.x
            } else {
                s.x + s.w - ww
            },
            y: if pos.top() {
                s.y
            } else {
                s.y + s.h - wh
            },
            w: ww,
            h: wh,
        },
        None => Rect { x: 0, y: 0, w: ww, h: wh },
    };
    let card = Rect {
        x: if pos.left() {
            win.x + MARGIN
        } else {
            win.x + win.w - MARGIN - w
        },
        y: if pos.top() {
            win.y + MARGIN
        } else {
            win.y + win.h - MARGIN - h
        },
        w,
        h,
    };
    (win, card)
}

/// The toast's card stands exactly where the flight lands: on the
/// display's own resting rectangle.
pub proof fn law_flight_lands_on_card(
    pos: ToastPosition,
    w: int,
    h: int,
    bleed: int,
    s: Rect,
)
    requires
        0 <= w <= MAX_W,
        0 <= h <= MAX_H,
        0 <= bleed <= DISPLAY,
        on_display(s.x as int),
        on_display(s.y as int),
        on_display(s.w as int),
        on_display(s.h as int),
    ensures
        ({
            let win = toast_window(pos, w * PX, h * PX, bleed, Some(s));
            let card = card_in(pos, win, w * PX, h * PX);
            let rest = rest_of(pos, s.w as int, s.h as int, w, h);
            card == (Rect { x: (s.x + rest.x) as i64, y: (s.y + rest.y) as i64, ..rest })
        }),
{
}

/// A card's side in device pixels, at `scale` units to a logical pixel.
pub open spec fn device(side: int, scale: int) -> int {
    max_of(rounded(side * scale, PX as int), 1)
}

/// The thumbnail's size: the card in device pixels, or the capture's own
/// where that is not smaller.
pub open spec fn thumb_of(iw: int, ih: int, scale: int) -> (int, int) {
    let pw = device(card_of(iw, ih).0, scale);
    let ph = device(card_of(iw, ih).1, scale);
    if pw <= iw && ph <= ih && (pw != iw || ph != ih) {
        (pw, ph)
    } else {
        (iw, ih)
    }
}

/// The pixel size of the thumbnail of a capture, at `scale` units to a
/// logical pixel.
pub fn thumb_size(iw: u32, ih: u32, scale: i64) -> (r: (u32, u32))
    requires
        iw > 0,
        ih > 0,
        0 < scale <= 1_000_000,
    ensures
        r.0 == thumb_of(iw as int, ih as int, scale as int).0,
        r.1 == thumb_of(iw as int, ih as int, scale as int).1,
        1 <= r.0 <= iw,
        1 <= r.1 <= ih,
{
    let (cw, ch) = card_size(iw, ih);
    let pw: i64 = device_side(cw, scale);
    let ph: i64 = device_side(ch, scale);
    if pw <= iw as i64 && ph <= ih as i64 && (pw != iw as i64 || ph != ih as i64) {
        (pw as u32, ph as u32)
    } else {
        (iw, ih)
    }
}

fn device_side(side: u32, scale: i64) -> (r: i64)
    requires
        side <= 200,
        0 < scale <= 1_000_000,
    ensures
        r == device(side as int, scale as int),
        r >= 1,
{
    proof {
        assert(0 <= side * scale <= 200_000_000) by (nonlinear_arith)
            requires
                0 <= side <= 200,
                0 < scale <= 1_000_000,
        ;
    }
    let d: i64 = (2 * (side as i64 * scale) + PX) / (2 * PX);
    if d >= 1 {
        d
    } else {
        1
    }
}

/// What `image::imageops::thumbnail` makes of RGBA pixels: those of the
/// image scaled down to the new size.
pub uninterp spec fn box_scaled(
    rgba: Seq<u8>,
    width: u32,
    height: u32,
    new_width: u32,
    new_height: u32,
) -> Seq<u8>;

/// No more pixels than this lie along one pixel of `n`, with a side of
/// `len` scaled down to them: their number, and what rounding a place on
/// the side to 24 bits adds.
pub open spec fn block(len: int, n: int) -> int {
    len / n + 3 + len / 2_000_000
}

/// Every block of pixels that one pixel of the scaled image stands for
/// can be summed in 32 bits.
pub open spec fn summable(w: int, h: int, pw: int, ph: int) -> bool {
    block(w, pw) * block(h, ph) <= 16_000_000
}

/// `image::imageops::thumbnail`, on RGBA pixels, to a size no larger. The
/// result has four bytes to a pixel of the new size and depends on the
/// pixels and the sizes alone. It sums each block of pixels in 32 bits,
/// which a larger block would overflow, so the blocks are bounded.
#[verifier::external_body]
fn shrink(rgba: Vec<u8>, width: u32, height: u32, new_width: u32, new_height: u32) -> (r: Vec<u8>)
    requires
        rgba@.len() == 4 * (width * height),
        1 <= new_width <= width,
        1 <= new_height <= height,
        summable(width as int, height as int, new_width as int, new_height as int),
    ensures
        r@ == box_scaled(rgba@, width, height, new_width, new_height),
        r@.len() == 4 * (new_width * new_height),
{
    let img = image::RgbaImage::from_raw(width, height, rgba).unwrap();
    image::imageops::thumbnail(&img, new_width, new_height).into_raw()
}

/// It is the thumbnail of a capture at this scale: scaled down to the
/// card's device pixels, or the capture itself. None: it is empty, or a
/// block of its pixels is too large to be summed.
pub open spec fn thumbs(
    width: u32,
    height: u32,
    pixels: Seq<Pixel>,
    scale: int,
    r: Option<Canvas>,
) -> bool {
    let iw = width as int;
    let ih = height as int;
    let (pw, ph) = thumb_of(iw, ih, scale);
    match r {
        Some(t) => {
            &&& 0 < iw && 0 < ih
            &&& t.wf() && t.width == pw && t.height == ph
            &&& if (pw, ph) == (iw, ih) {
                t.pixels@ == pixels
            } else {
                summable(iw, ih, pw, ph) && t.pixels@ == pixels_in(
                    box_scaled(rgba_of(pixels), width, height, pw as u32, ph as u32),
                )
            }
        },
        None => iw == 0 || ih == 0 || ((pw, ph) != (iw, ih) && !summable(iw, ih, pw, ph)),
    }
}

fn block_of(len: u32, n: u32) -> (r: u128)
    requires
        n >= 1,
    ensures
        r == block(len as int, n as int),
        0 <= r <= 5_000_000_000,
{
    proof {
        assert(0 <= len / n <= len) by (nonlinear_arith)
            requires
                n >= 1,
        ;
    }
    (len / n) as u128 + 3 + (len / 2_000_000) as u128
}

/// The capture's thumbnail at this scale.
pub fn thumbnail(img: &Canvas, scale: i64) -> (r: Option<Canvas>)
    requires
        img.wf(),
        img.width > 0,
        img.height > 0,
        0 < scale <= 1_000_000,
    ensures
        thumbs(img.width, img.height, img.pixels@, scale as int, r),
{
    let (pw, ph) = thumb_size(img.width, img.height, scale);
    if pw == img.width && ph == img.height {
        let t = Canvas { width: pw, height: ph, pixels: img.pixels.clone() };
        assert(t.pixels@ =~= img.pixels@);
        return Some(t);
    }
    let (across, down): (u128, u128) = (block_of(img.width, pw), block_of(img.height, ph));
    proof {
        assert(0 <= across * down <= 5_000_000_000 * 5_000_000_000) by (nonlinear_arith)
            requires
                0 <= across <= 5_000_000_000,
                0 <= down <= 5_000_000_000,
        ;
    }
    if across * down > 16_000_000 {
        return None;
    }
    let small = shrink(img.to_rgba(), img.width, img.height, pw, ph);
    Canvas::from_rgba(pw, ph, &small)
}

fn thumb_or_none(img: &Canvas, scale: i64) -> (r: Option<Canvas>)
    requires
        img.wf(),
        0 < scale <= 1_000_000,
    ensures
        thumbs(img.width, img.height, img.pixels@, scale as int, r),
{
    if img.width == 0 || img.height == 0 {
        None
    } else {
        thumbnail(img, scale)
    }
}

/// The capture's thumbnail: from the image that is kept for its path, or
/// else from its file, which is what was read or why it could not be.
/// None: there is nothing to scale, or too many pixels to be summed.
pub fn prepare_thumb(stash: &Stash, file: Result<Vec<u8>, String>, path: &str, scale: i64) -> (r:
    Result<Option<Canvas>, String>)
    requires
        stash.kept(path@) matches Some(c) ==> c.wf(),
        0 < scale <= 1_000_000,
    ensures
        match stash.kept(path@) {
            Some(c) => r matches Ok(t) && thumbs(c.width, c.height, c.pixels@, scale as int, t),
            None => match (
                match file {
                    Ok(b) => named_decoded(b@, path@),
                    Err(e) => Err(e@),
                },
                r,
            ) {
                (Ok((w, h, px)), Ok(t)) => thumbs(w, h, pixels_in(px), scale as int, t),
                (Err(e), Err(f)) => f@ == "cannot open "@ + path@ + ": "@ + e,
                _ => false,
            },
        },
{
    match peek_decoded(stash, path) {
        Some(c) => Ok(thumb_or_none(c, scale)),
        None => {
            proof {
                reveal_strlit("cannot open ");
                reveal_strlit("cannot open");
                reveal_strlit(" ");
                assert("cannot open"@ + " "@ =~= "cannot open "@);
            }
            match open_image(file, path) {
                Ok(c) => Ok(thumb_or_none(&c, scale)),
                Err(e) => Err(e),
            }
        },
    }
}

/// A card holds the whole capture at its own proportions: within 200 by
/// 140 pixels, one side at its bound where the capture is larger, and the
/// other the nearest whole pixel to its share.
pub proof fn law_card(iw: int, ih: int)
    requires
        0 < iw,
        0 < ih,
    ensures
        ({
            let (w, h) = card_of(iw, ih);
            &&& 1 <= w <= 200 && 1 <= h <= 140
            &&& iw <= 200 && ih <= 140 ==> w == iw && h == ih
            &&& iw > 200 || ih > 140 ==> {
                ||| w == 200 && (h == 1 || -iw <= 2 * (h * iw - 200 * ih) <= iw)
                ||| h == 140 && (w == 1 || -ih <= 2 * (w * ih - 140 * iw) <= ih)
            }
        }),
{
    if iw > 200 || ih > 140 {
        if 200 * ih <= 140 * iw {
            lemma_round(ih * 200, iw);
            let h = rounded(ih * 200, iw);
            assert(h <= 140) by (nonlinear_arith)
                requires
                    2 * (h * iw) <= 2 * (ih * 200) + iw,
                    200 * ih <= 140 * iw,
                    iw > 0,
            ;
        } else {
            lemma_round(iw * 140, ih);
            let w = rounded(iw * 140, ih);
            assert(w <= 200) by (nonlinear_arith)
                requires
                    2 * (w * ih) <= 2 * (iw * 140) + ih,
                    200 * ih > 140 * iw,
                    ih > 0,
            ;
        }
    }
}

proof fn lemma_round(a: int, b: int)
    requires
        a >= 0,
        b > 0,
    ensures
        2 * (rounded(a, b) * b) <= 2 * a + b < 2 * (rounded(a, b) * b) + 2 * b,
        rounded(a, b) >= 0,
{
    let k = (2 * a + b) / (2 * b);
    assert(k * (2 * b) <= 2 * a + b < k * (2 * b) + 2 * b && k >= 0) by (nonlinear_arith)
        requires
            k == (2 * a + b) / (2 * b),
            b > 0,
            a >= 0,
    ;
    assert(k * (2 * b) == 2 * (k * b)) by (nonlinear_arith);
}

/// A card rests twelve pixels from the two edges of the corner that is
/// chosen for it.
pub proof fn law_rest_corner(pos: ToastPosition, dw: int, dh: int, w: int, h: int)
    requires
        0 <= w <= 200 && 0 <= h <= 140,
        -DISPLAY <= dw <= DISPLAY && -DISPLAY <= dh <= DISPLAY,
    ensures
        ({
            let r = rest_of(pos, dw, dh, w, h);
            &&& r.w == w * PX && r.h == h * PX
            &&& pos is TopLeft || pos is BottomLeft ==> r.left() == 12 * PX
            &&& pos is TopRight || pos is BottomRight ==> r.right() == dw - 12 * PX
            &&& pos is TopLeft || pos is TopRight ==> r.top() == 12 * PX
            &&& pos is BottomLeft || pos is BottomRight ==> r.bottom() == dh - 12 * PX
        }),
{
}

/// The toast's window stands in the corner of the screen, and has room for
/// the card, its shadow and the margin.
pub proof fn law_toast_corner(pos: ToastPosition, w: int, h: int, bleed: int, s: Rect)
    requires
        0 <= w <= DISPLAY && 0 <= h <= DISPLAY && 0 <= bleed <= DISPLAY,
        on_display(s.x as int) && on_display(s.y as int) && on_display(s.w as int) && on_display(
            s.h as int,
        ),
    ensures
        ({
            let win = toast_window(pos, w, h, bleed, Some(s));
            let card = card_in(pos, win, w, h);
            &&& pos is TopLeft || pos is BottomLeft ==> win.left() == s.left() && card.left()
                == win.left() + 12 * PX
            &&& pos is TopRight || pos is BottomRight ==> win.right() == s.right() && card.right()
                == win.right() - 12 * PX
            &&& pos is TopLeft || pos is TopRight ==> win.top() == s.top() && card.top()
                == win.top() + 12 * PX
            &&& pos is BottomLeft || pos is BottomRight ==> win.bottom() == s.bottom()
                && card.bottom() == win.bottom() - 12 * PX
            &&& card.w == w && card.h == h && win.w == w + bleed + 12 * PX && win.h == h + bleed
                + 12 * PX
        }),
{
}

/// A thumbnail is the capture itself, or smaller: the card at the screen's
/// scale, to the nearest pixel. It is never larger than the capture.
pub proof fn law_thumb_size(iw: int, ih: int, scale: int)
    requires
        0 < iw && 0 < ih && 0 < scale,
    ensures
        ({
            let (pw, ph) = thumb_of(iw, ih, scale);
            let (cw, ch) = card_of(iw, ih);
            &&& pw <= iw && ph <= ih
            &&& (pw, ph) != (iw, ih) ==> {
                &&& pw == 1 || -PX <= 2 * (pw * PX - cw * scale) <= PX
                &&& ph == 1 || -PX <= 2 * (ph * PX - ch * scale) <= PX
            }
        }),
{
    law_card(iw, ih);
    let (cw, ch) = card_of(iw, ih);
    assert(cw * scale >= 0 && ch * scale >= 0) by (nonlinear_arith)
        requires
            cw >= 1,
            ch >= 1,
            scale > 0,
    ;
    lemma_round(cw * scale, PX as int);
    lemma_round(ch * scale, PX as int);
}

} // verus!
