//! Painting actions into an image: spans, washes, glyphs and blurs.
//!
//! The outline of a shape reaches this module as [`Ink`]: the rows of
//! pixels that it covers, the pixels of its glyphs, and tables that say
//! what its colour makes of each value beneath it. What is painted from
//! them, in which order and how often, is decided here.

use vstd::prelude::*;
use crate::action::{
    color_of,
    hex_rgba,
    extent,
    least_x,
    least_y,
    most_x,
    most_y,
    Action,
    Mark,
    Tile,
    Tool,
    close,
};
use crate::canvas::{Canvas, Picture, Pixel};
use crate::geom::{
    ceil_of,
    ceil_px,
    clamped,
    floor_px,
    least,
    max_of,
    min_of,
    most,
    near,
    trunc_of,
    trunc_px,
    Point,
    Rect,
    PX,
};
use crate::mosaic::{bgra_of, in_region, mosaic, pixelate_region_bgra, region_pixels};

verus! {

/// The pixels `x0` to `x1` of row `y`, both included.
#[derive(Clone, Copy, PartialEq, Eq, Structural, Debug)]
pub struct Span {
    pub y: i64,
    pub x0: i64,
    pub x1: i64,
}

/// What a channel becomes, for each of its 256 values.
pub struct Mix {
    pub r: Vec<u8>,
    pub g: Vec<u8>,
    pub b: Vec<u8>,
    pub a: Vec<u8>,
}

/// One pixel of a glyph, from the text's origin; `tone` says which of
/// the ink's tones it has.
#[derive(Clone, Copy, PartialEq, Eq, Structural, Debug)]
pub struct Dot {
    pub x: i64,
    pub y: i64,
    pub tone: usize,
}

/// What an action covers.
pub struct Ink {
    /// The rows of its outline or body, in the order they are painted.
    pub spans: Vec<Span>,
    /// What a translucent stroke makes of each value.
    pub mix: Mix,
    /// The pixels of its glyphs, in order.
    pub dots: Vec<Dot>,
    /// What a glyph pixel of each coverage makes of each value.
    pub tones: Vec<Mix>,
}

/// The four tables of a [`Mix`].
pub struct Blend {
    pub r: Seq<u8>,
    pub g: Seq<u8>,
    pub b: Seq<u8>,
    pub a: Seq<u8>,
}

pub struct Cover {
    pub spans: Seq<Span>,
    pub mix: Blend,
    pub dots: Seq<Dot>,
    pub tones: Seq<Blend>,
}

impl View for Mix {
    type V = Blend;

    open spec fn view(&self) -> Blend {
        Blend { r: self.r@, g: self.g@, b: self.b@, a: self.a@ }
    }
}

impl View for Ink {
    type V = Cover;

    open spec fn view(&self) -> Cover {
        Cover {
            spans: self.spans@,
            mix: self.mix@,
            dots: self.dots@,
            tones: Seq::new(self.tones@.len(), |i: int| self.tones@[i]@),
        }
    }
}

impl Blend {
    pub open spec fn wf(self) -> bool {
        self.r.len() == 256 && self.g.len() == 256 && self.b.len() == 256 && self.a.len() == 256
    }

    /// What each channel of `p` becomes.
    pub open spec fn of(self, p: Pixel) -> Pixel {
        Pixel {
            r: self.r[p.r as int],
            g: self.g[p.g as int],
            b: self.b[p.b as int],
            a: self.a[p.a as int],
        }
    }
}

impl Cover {
    /// Tables are whole, each dot has a tone, and no pixel is further
    /// out than an image can be.
    pub open spec fn wf(self) -> bool {
        &&& self.mix.wf()
        &&& forall|i: int| 0 <= i < self.tones.len() ==> (#[trigger] self.tones[i]).wf()
        &&& forall|i: int|
            0 <= i < self.dots.len() ==> (#[trigger] self.dots[i]).tone < self.tones.len()
                && near(self.dots[i].x as int) && near(self.dots[i].y as int)
        &&& spans_near(self.spans)
    }
}

/// No span is further out than an image can be.
pub open spec fn spans_near(spans: Seq<Span>) -> bool {
    forall|i: int|
        0 <= i < spans.len() ==> near((#[trigger] spans[i]).x0 as int) && near(
            spans[i].x1 as int,
        ) && near(spans[i].y as int)
}

/// `src` over `p`: an opaque colour replaces it; a translucent one mixes
/// the colours, and the alpha is the greater of the two.
pub open spec fn over(p: Pixel, src: Pixel, mix: Blend) -> Pixel {
    if src.a == 255 {
        src
    } else {
        Pixel {
            r: mix.r[p.r as int],
            g: mix.g[p.g as int],
            b: mix.b[p.b as int],
            a: if p.a >= src.a {
                p.a
            } else {
                src.a
            },
        }
    }
}

pub open spec fn covers(s: Span, x: int, y: int) -> bool {
    s.y == y && s.x0 <= x <= s.x1
}

/// What the first `n` spans make of the pixel `p` at (x, y): `src` goes
/// over it once for each span that covers it.
pub open spec fn through(
    p: Pixel,
    spans: Seq<Span>,
    n: int,
    src: Pixel,
    mix: Blend,
    x: int,
    y: int,
) -> Pixel
    decreases n,
{
    if n <= 0 {
        p
    } else {
        let q = through(p, spans, n - 1, src, mix, x, y);
        if covers(spans[n - 1], x, y) {
            over(q, src, mix)
        } else {
            q
        }
    }
}

/// Does one of the first `n` spans cover (x, y)?
pub open spec fn covered(spans: Seq<Span>, n: int, x: int, y: int) -> bool {
    exists|i: int| 0 <= i < n && covers(#[trigger] spans[i], x, y)
}

/// What the first `n` dots of a text at (`ox`, `oy`) make of `p`.
pub open spec fn stippled(
    p: Pixel,
    dots: Seq<Dot>,
    n: int,
    tones: Seq<Blend>,
    ox: int,
    oy: int,
    x: int,
    y: int,
) -> Pixel
    decreases n,
{
    if n <= 0 {
        p
    } else {
        let q = stippled(p, dots, n - 1, tones, ox, oy, x, y);
        let d = dots[n - 1];
        if ox + d.x == x && oy + d.y == y {
            tones[d.tone as int].of(q)
        } else {
            q
        }
    }
}

/// `src` over `p`.
pub fn blend(p: Pixel, src: Pixel, mix: &Mix) -> (r: Pixel)
    requires
        mix@.wf(),
    ensures
        r == over(p, src, mix@),
{
    if src.a == 255 {
        src
    } else {
        Pixel {
            r: mix.r[p.r as usize],
            g: mix.g[p.g as usize],
            b: mix.b[p.b as usize],
            a: if p.a >= src.a {
                p.a
            } else {
                src.a
            },
        }
    }
}

/// Put `src` over the pixels `x0` to `x1` of row `y`, as far as the
/// image reaches.
pub fn blend_row(img: &mut Canvas, y: i64, x0: i64, x1: i64, src: Pixel, mix: &Mix)
    requires
        old(img).wf(),
        mix@.wf(),
    ensures
        final(img).wf(),
        final(img).width == old(img).width,
        final(img).height == old(img).height,
        forall|px: int, py: int|
            old(img).has(px, py) ==> #[trigger] final(img).at(px, py) == (if covers(
                Span { y, x0, x1 },
                px,
                py,
            ) {
                over(old(img).at(px, py), src, mix@)
            } else {
                old(img).at(px, py)
            }),
{
    if x0 > x1 || y < 0 || y >= img.height as i64 {
        return;
    }
    let lo: i64 = most(x0, 0);
    let hi: i64 = least(x1, img.width as i64 - 1);
    let mut x: i64 = lo;
    while x <= hi
        invariant
            img.wf(),
            mix@.wf(),
            img.width == old(img).width,
            img.height == old(img).height,
            0 <= y < img.height,
            lo == max_of(x0 as int, 0),
            hi == min_of(x1 as int, img.width - 1),
            lo <= x,
            x <= hi + 1 || x == lo,
            forall|px: int, py: int|
                old(img).has(px, py) ==> #[trigger] img.at(px, py) == (if py == y && lo <= px < x {
                    over(old(img).at(px, py), src, mix@)
                } else {
                    old(img).at(px, py)
                }),
        decreases hi + 1 - x,
    {
        assert(img.at(x as int, y as int) == old(img).at(x as int, y as int));
        let p = img.get(x as u32, y as u32);
        img.set(x as u32, y as u32, blend(p, src, mix));
        x = x + 1;
    }
}

/// Put `src` over the rectangle from (`x0`, `y0`) to (`x1`, `y1`), both
/// corners included, as far as the image reaches.
pub fn fill_rect(img: &mut Canvas, x0: i64, x1: i64, y0: i64, y1: i64, src: Pixel, mix: &Mix)
    requires
        old(img).wf(),
        mix@.wf(),
    ensures
        final(img).wf(),
        final(img).width == old(img).width,
        final(img).height == old(img).height,
        forall|px: int, py: int|
            old(img).has(px, py) ==> #[trigger] final(img).at(px, py) == (if x0 <= px <= x1 && y0
                <= py <= y1 {
                over(old(img).at(px, py), src, mix@)
            } else {
                old(img).at(px, py)
            }),
{
    let lo: i64 = most(y0, 0);
    let hi: i64 = least(y1, img.height as i64 - 1);
    let mut y: i64 = lo;
    while y <= hi
        invariant
            img.wf(),
            mix@.wf(),
            img.width == old(img).width,
            img.height == old(img).height,
            lo == max_of(y0 as int, 0),
            hi == min_of(y1 as int, img.height - 1),
            lo <= y,
            y <= hi + 1 || y == lo,
            forall|px: int, py: int|
                old(img).has(px, py) ==> #[trigger] img.at(px, py) == (if x0 <= px <= x1 && lo <= py
                    < y {
                    over(old(img).at(px, py), src, mix@)
                } else {
                    old(img).at(px, py)
                }),
        decreases hi + 1 - y,
    {
        let ghost before = *img;
        blend_row(img, y, x0, x1, src, mix);
        proof {
            assert forall|px: int, py: int| old(img).has(px, py) implies #[trigger] img.at(px, py)
                == (if x0 <= px <= x1 && lo <= py < y + 1 {
                over(old(img).at(px, py), src, mix@)
            } else {
                old(img).at(px, py)
            }) by {
                assert(before.has(px, py));
                assert(before.at(px, py) == before.at(px, py));
            }
        }
        y = y + 1;
    }
}

/// Put `src` over every span in turn: where spans overlap, more than
/// once.
pub fn blend_spans(img: &mut Canvas, spans: &Vec<Span>, src: Pixel, mix: &Mix)
    requires
        old(img).wf(),
        mix@.wf(),
    ensures
        final(img).wf(),
        final(img).width == old(img).width,
        final(img).height == old(img).height,
        forall|px: int, py: int|
            old(img).has(px, py) ==> #[trigger] final(img).at(px, py) == through(
                old(img).at(px, py),
                spans@,
                spans@.len() as int,
                src,
                mix@,
                px,
                py,
            ),
{
    let mut i: usize = 0;
    while i < spans.len()
        invariant
            img.wf(),
            mix@.wf(),
            img.width == old(img).width,
            img.height == old(img).height,
            i <= spans@.len(),
            forall|px: int, py: int|
                old(img).has(px, py) ==> #[trigger] img.at(px, py) == through(
                    old(img).at(px, py),
                    spans@,
                    i as int,
                    src,
                    mix@,
                    px,
                    py,
                ),
        decreases spans@.len() - i,
    {
        let s = spans[i];
        let ghost before = *img;
        blend_row(img, s.y, s.x0, s.x1, src, mix);
        proof {
            assert forall|px: int, py: int| old(img).has(px, py) implies #[trigger] img.at(px, py)
                == through(old(img).at(px, py), spans@, i + 1, src, mix@, px, py) by {
                assert(before.has(px, py));
                assert(before.at(px, py) == before.at(px, py));
            }
        }
        i = i + 1;
    }
}

/// Where column `a` of row `b` stands in a mask of rows of `bw`.
pub open spec fn cell(a: int, b: int, bw: int) -> int {
    b * bw + a
}

/// Which pixels of the `bw` by `bh` box at (`ox`, `oy`) the spans cover.
fn cover(spans: &Vec<Span>, ox: u32, oy: u32, bw: u32, bh: u32) -> (mask: Vec<bool>)
    requires
        bw * bh <= usize::MAX,
        ox + bw <= u32::MAX,
        oy + bh <= u32::MAX,
    ensures
        mask@.len() == bw * bh,
        forall|a: int, b: int|
            0 <= a < bw && 0 <= b < bh ==> mask@[#[trigger] cell(a, b, bw as int)] == covered(
                spans@,
                spans@.len() as int,
                ox + a,
                oy + b,
            ),
{
    let n: usize = bw as usize * bh as usize;
    let mut mask: Vec<bool> = vec![false; n];
    let mut i: usize = 0;
    proof {
        assert forall|a: int, b: int| 0 <= a < bw && 0 <= b < bh implies mask@[#[trigger] cell(
            a,
            b,
            bw as int,
        )] == covered(spans@, 0, ox + a, oy + b) by {
            crate::canvas::lemma_index(a, b, bw as int, bh as int);
        }
    }
    while i < spans.len()
        invariant
            ox + bw <= u32::MAX,
            oy + bh <= u32::MAX,
            bw * bh <= usize::MAX,
            i <= spans@.len(),
            mask@.len() == bw * bh,
            forall|a: int, b: int|
                0 <= a < bw && 0 <= b < bh ==> mask@[#[trigger] cell(a, b, bw as int)] == covered(
                    spans@,
                    i as int,
                    ox + a,
                    oy + b,
                ),
        decreases spans@.len() - i,
    {
        let s = spans[i];
        let ghost before = mask@;
        if oy as i64 <= s.y && s.y < oy as i64 + bh as i64 {
            let lo: i64 = most(s.x0, ox as i64);
            let hi: i64 = least(s.x1, ox as i64 + bw as i64 - 1);
            let row: u32 = (s.y - oy as i64) as u32;
            let mut x: i64 = lo;
            while x <= hi
                invariant
                    ox + bw <= u32::MAX,
                    bw * bh <= usize::MAX,
                    row < bh,
                    lo == max_of(s.x0 as int, ox as int),
                    hi == min_of(s.x1 as int, ox + bw - 1),
                    lo <= x,
                    x <= hi + 1 || x == lo,
                    mask@.len() == bw * bh,
                    forall|a: int, b: int|
                        0 <= a < bw && 0 <= b < bh ==> mask@[#[trigger] cell(a, b, bw as int)] == (
                        before[cell(a, b, bw as int)] || (b == row && lo <= ox + a < x)),
                decreases hi + 1 - x,
            {
                let col: u32 = (x - ox as i64) as u32;
                proof {
                    crate::canvas::lemma_index(col as int, row as int, bw as int, bh as int);
                    assert(0 <= row * bw) by (nonlinear_arith);
                    assert forall|a: int, b: int|
                        0 <= a < bw && 0 <= b < bh && #[trigger] cell(a, b, bw as int) == cell(
                            col as int,
                            row as int,
                            bw as int,
                        ) implies a == col && b == row by {
                        crate::canvas::lemma_index_differs(
                            a,
                            b,
                            col as int,
                            row as int,
                            bw as int,
                        );
                    }
                    assert forall|a: int, b: int| 0 <= a < bw && 0 <= b < bh implies 0
                        <= #[trigger] cell(a, b, bw as int) < bw * bh by {
                        crate::canvas::lemma_index(a, b, bw as int, bh as int);
                    }
                }
                let k: usize = row as usize * bw as usize + col as usize;
                mask.set(k, true);
                assert(k == cell(col as int, row as int, bw as int));
                x = x + 1;
            }
        }
        proof {
            assert forall|a: int, b: int| 0 <= a < bw && 0 <= b < bh implies mask@[#[trigger] cell(
                a,
                b,
                bw as int,
            )] == covered(spans@, i + 1, ox + a, oy + b) by {
                let hit = covers(spans@[i as int], ox + a, oy + b);
                if covered(spans@, i as int, ox + a, oy + b) {
                    let j = choose|j: int|
                        0 <= j < i && covers(#[trigger] spans@[j], ox + a, oy + b);
                    assert(covers(spans@[j], ox + a, oy + b));
                }
                assert(covered(spans@, i + 1, ox + a, oy + b) == (covered(
                    spans@,
                    i as int,
                    ox + a,
                    oy + b,
                ) || hit));
            }
        }
        i = i + 1;
    }
    mask
}

/// Put `src` once over every pixel of the box that a span covers. Runs
/// of covered pixels are painted a row at a time.
pub fn wash(
    img: &mut Canvas,
    spans: &Vec<Span>,
    ox: u32,
    oy: u32,
    bw: u32,
    bh: u32,
    src: Pixel,
    mix: &Mix,
)
    requires
        old(img).wf(),
        mix@.wf(),
        ox + bw <= old(img).width,
        oy + bh <= old(img).height,
    ensures
        final(img).wf(),
        final(img).width == old(img).width,
        final(img).height == old(img).height,
        forall|px: int, py: int|
            old(img).has(px, py) ==> #[trigger] final(img).at(px, py) == (if in_region(
                ox as int,
                oy as int,
                bw as int,
                bh as int,
                px,
                py,
            ) && covered(spans@, spans@.len() as int, px, py) {
                over(old(img).at(px, py), src, mix@)
            } else {
                old(img).at(px, py)
            }),
{
    proof {
        assert(bw * bh <= img.width * img.height) by (nonlinear_arith)
            requires
                0 <= bw <= img.width,
                0 <= bh <= img.height,
        ;
        assert(img.pixels@.len() == img.pixels.len());
    }
    let mask = cover(spans, ox, oy, bw, bh);
    let mut row: u32 = 0;
    while row < bh
        invariant
            img.wf(),
            mix@.wf(),
            img.width == old(img).width,
            img.height == old(img).height,
            ox + bw <= img.width,
            oy + bh <= img.height,
            row <= bh,
            mask@.len() == bw * bh,
            forall|a: int, b: int|
                0 <= a < bw && 0 <= b < bh ==> mask@[#[trigger] cell(a, b, bw as int)] == covered(
                    spans@,
                    spans@.len() as int,
                    ox + a,
                    oy + b,
                ),
            forall|px: int, py: int|
                old(img).has(px, py) ==> #[trigger] img.at(px, py) == (if in_region(
                    ox as int,
                    oy as int,
                    bw as int,
                    row as int,
                    px,
                    py,
                ) && covered(spans@, spans@.len() as int, px, py) {
                    over(old(img).at(px, py), src, mix@)
                } else {
                    old(img).at(px, py)
                }),
        decreases bh - row,
    {
        let y: i64 = oy as i64 + row as i64;
        let mut run: Option<u32> = None;
        let mut col: u32 = 0;
        while col < bw
            invariant
                img.wf(),
                mix@.wf(),
                img.width == old(img).width,
                img.height == old(img).height,
                ox + bw <= img.width,
                oy + bh <= img.height,
                row < bh,
                col <= bw,
                y == oy + row,
                mask@.len() == bw * bh,
                forall|a: int, b: int|
                    0 <= a < bw && 0 <= b < bh ==> mask@[#[trigger] cell(a, b, bw as int)]
                        == covered(spans@, spans@.len() as int, ox + a, oy + b),
                match run {
                    None => true,
                    Some(s) => s < col && forall|a: int|
                        s <= a < col ==> #[trigger] mask@[cell(a, row as int, bw as int)],
                },
                forall|px: int, py: int|
                    old(img).has(px, py) ==> #[trigger] img.at(px, py) == (if (in_region(
                        ox as int,
                        oy as int,
                        bw as int,
                        row as int,
                        px,
                        py,
                    ) || (py == y && ox <= px < ox + (match run {
                        None => col,
                        Some(s) => s,
                    }))) && covered(spans@, spans@.len() as int, px, py) {
                        over(old(img).at(px, py), src, mix@)
                    } else {
                        old(img).at(px, py)
                    }),
            decreases bw - col,
        {
            proof {
                crate::canvas::lemma_index(col as int, row as int, bw as int, bh as int);
                assert(mask@.len() == mask.len());
                assert(0 <= row * bw) by (nonlinear_arith);
            }
            let k: usize = row as usize * bw as usize + col as usize;
            assert(k == cell(col as int, row as int, bw as int));
            let m = mask[k];
            match run {
                None => {
                    if m {
                        run = Some(col);
                    }
                },
                Some(s) => {
                    if !m {
                        let ghost before = *img;
                        blend_row(
                            img,
                            y,
                            ox as i64 + s as i64,
                            ox as i64 + col as i64 - 1,
                            src,
                            mix,
                        );
                        run = None;
                        proof {
                            lemma_run(*old(img), before, *img, spans@, mask@, src, mix@, ox as int, oy as int, bw as int, bh as int, row as int, s as int, col as int);
                        }
                    }
                },
            }
            col = col + 1;
        }
        if let Some(s) = run {
            let ghost before = *img;
            blend_row(img, y, ox as i64 + s as i64, ox as i64 + bw as i64 - 1, src, mix);
            proof {
                lemma_run(*old(img), before, *img, spans@, mask@, src, mix@, ox as int, oy as int, bw as int, bh as int, row as int, s as int, bw as int);
            }
        }
        row = row + 1;
    }
}

/// Painting one run of covered pixels moves the painted part of the row
/// from the run's start to its end.
proof fn lemma_run(
    first: Canvas,
    before: Canvas,
    after: Canvas,
    spans: Seq<Span>,
    mask: Seq<bool>,
    src: Pixel,
    mix: Blend,
    ox: int,
    oy: int,
    bw: int,
    bh: int,
    row: int,
    s: int,
    e: int,
)
    requires
        0 <= s < e <= bw,
        0 <= row < bh,
        0 <= ox,
        ox + bw <= u32::MAX,
        0 <= oy,
        oy + bh <= u32::MAX,
        before.width == first.width,
        before.height == first.height,
        after.width == first.width,
        after.height == first.height,
        forall|a: int, b: int|
            0 <= a < bw && 0 <= b < bh ==> mask[#[trigger] cell(a, b, bw)] == covered(
                spans,
                spans.len() as int,
                ox + a,
                oy + b,
            ),
        forall|a: int| s <= a < e ==> #[trigger] mask[cell(a, row, bw)],
        forall|px: int, py: int|
            first.has(px, py) ==> #[trigger] before.at(px, py) == (if (in_region(
                ox,
                oy,
                bw,
                row,
                px,
                py,
            ) || (py == oy + row && ox <= px < ox + s)) && covered(
                spans,
                spans.len() as int,
                px,
                py,
            ) {
                over(first.at(px, py), src, mix)
            } else {
                first.at(px, py)
            }),
        forall|px: int, py: int|
            before.has(px, py) ==> #[trigger] after.at(px, py) == (if covers(
                Span { y: (oy + row) as i64, x0: (ox + s) as i64, x1: (ox + e - 1) as i64 },
                px,
                py,
            ) {
                over(before.at(px, py), src, mix)
            } else {
                before.at(px, py)
            }),
    ensures
        forall|px: int, py: int|
            first.has(px, py) ==> #[trigger] after.at(px, py) == (if (in_region(
                ox,
                oy,
                bw,
                row,
                px,
                py,
            ) || (py == oy + row && ox <= px < ox + e)) && covered(
                spans,
                spans.len() as int,
                px,
                py,
            ) {
                over(first.at(px, py), src, mix)
            } else {
                first.at(px, py)
            }),
{
    assert forall|px: int, py: int| first.has(px, py) implies #[trigger] after.at(px, py) == (if (
    in_region(ox, oy, bw, row, px, py) || (py == oy + row && ox <= px < ox + e)) && covered(
        spans,
        spans.len() as int,
        px,
        py,
    ) {
        over(first.at(px, py), src, mix)
    } else {
        first.at(px, py)
    }) by {
        assert(before.at(px, py) == before.at(px, py));
        if py == oy + row && ox + s <= px < ox + e {
            assert(mask[cell(px - ox, row, bw)]);
            assert(ox + (px - ox) == px);
        }
    }
}

/// Paint a text's dots in turn, from its origin (`ox`, `oy`).
pub fn stipple(img: &mut Canvas, dots: &Vec<Dot>, tones: &Vec<Mix>, ox: i64, oy: i64)
    requires
        old(img).wf(),
        near(ox as int),
        near(oy as int),
        forall|i: int| 0 <= i < tones@.len() ==> (#[trigger] tones@[i])@.wf(),
        forall|i: int|
            0 <= i < dots@.len() ==> (#[trigger] dots@[i]).tone < tones@.len() && near(
                dots@[i].x as int,
            ) && near(dots@[i].y as int),
    ensures
        final(img).wf(),
        final(img).width == old(img).width,
        final(img).height == old(img).height,
        forall|px: int, py: int|
            old(img).has(px, py) ==> #[trigger] final(img).at(px, py) == stippled(
                old(img).at(px, py),
                dots@,
                dots@.len() as int,
                Seq::new(tones@.len(), |i: int| tones@[i]@),
                ox as int,
                oy as int,
                px,
                py,
            ),
{
    let ghost ts = Seq::new(tones@.len(), |i: int| tones@[i]@);
    let mut i: usize = 0;
    while i < dots.len()
        invariant
            img.wf(),
            near(ox as int),
            near(oy as int),
            img.width == old(img).width,
            img.height == old(img).height,
            ts == Seq::new(tones@.len(), |i: int| tones@[i]@),
            forall|i: int| 0 <= i < tones@.len() ==> (#[trigger] tones@[i])@.wf(),
            forall|i: int|
                0 <= i < dots@.len() ==> (#[trigger] dots@[i]).tone < tones@.len() && near(
                    dots@[i].x as int,
                ) && near(dots@[i].y as int),
            i <= dots@.len(),
            forall|px: int, py: int|
                old(img).has(px, py) ==> #[trigger] img.at(px, py) == stippled(
                    old(img).at(px, py),
                    dots@,
                    i as int,
                    ts,
                    ox as int,
                    oy as int,
                    px,
                    py,
                ),
        decreases dots@.len() - i,
    {
        let d = dots[i];
        let x: i64 = ox + d.x;
        let y: i64 = oy + d.y;
        let ghost before = *img;
        if 0 <= x && x < img.width as i64 && 0 <= y && y < img.height as i64 {
            let p = img.get(x as u32, y as u32);
            let t = &tones[d.tone];
            assert(tones@[d.tone as int]@.wf());
            let q = Pixel {
                r: t.r[p.r as usize],
                g: t.g[p.g as usize],
                b: t.b[p.b as usize],
                a: t.a[p.a as usize],
            };
            img.set(x as u32, y as u32, q);
        }
        proof {
            assert forall|px: int, py: int| old(img).has(px, py) implies #[trigger] img.at(px, py)
                == stippled(old(img).at(px, py), dots@, i + 1, ts, ox as int, oy as int, px, py) by {
                assert(before.at(px, py) == before.at(px, py));
            }
        }
        i = i + 1;
    }
}

/// The alpha of the highlighter, of 255.
pub const WASH_ALPHA: u8 = 89;

/// The colour an action paints with.
pub open spec fn source(m: Mark) -> Pixel {
    let c = color_of(m.color);
    if m.tool is Highlight {
        Pixel { a: WASH_ALPHA, ..c }
    } else {
        c
    }
}

/// Half the stroke, at least half a pixel.
pub open spec fn brush(m: Mark) -> int {
    max_of(m.width as int / 2, PX as int / 2)
}

/// Is pixel (x, y) in the box that a translucent stroke can reach?
pub open spec fn in_wash(m: Mark, x: int, y: int) -> bool {
    let n = m.points.len() as int;
    let r = brush(m);
    &&& (least_x(m.points, n) - r) / PX as int <= x < ceil_of(most_x(m.points, n) + r)
    &&& (least_y(m.points, n) - r) / PX as int <= y < ceil_of(most_y(m.points, n) + r)
}

/// Is pixel (x, y) in a filled rectangle between two corners?
pub open spec fn in_fill(a: Point, b: Point, x: int, y: int) -> bool {
    &&& trunc_of(min_of(a.x as int, b.x as int)) <= x <= trunc_of(max_of(a.x as int, b.x as int))
    &&& trunc_of(min_of(a.y as int, b.y as int)) <= y <= trunc_of(max_of(a.y as int, b.y as int))
}

/// The pixel from which a text's glyphs are placed: text stands on its
/// point, a counter's number is centred on it.
pub open spec fn text_origin(m: Mark) -> (int, int) {
    let p = m.points[0];
    if m.tool is Counter {
        (
            trunc_of(p.x - m.step_label.len() * m.font_size * 3 / 10),
            trunc_of(p.y + m.font_size * 7 / 20 - m.font_size),
        )
    } else {
        (trunc_of(p.x as int), trunc_of(p.y - m.font_size))
    }
}

pub open spec fn lined(p: Pixel, m: Mark, ink: Cover, x: int, y: int) -> Pixel {
    through(p, ink.spans, ink.spans.len() as int, source(m), ink.mix, x, y)
}

pub open spec fn lettered(p: Pixel, m: Mark, ink: Cover, x: int, y: int) -> Pixel {
    let o = text_origin(m);
    stippled(p, ink.dots, ink.dots.len() as int, ink.tones, o.0, o.1, x, y)
}

/// What an action that is no blur makes of the pixel `p` at (x, y).
pub open spec fn painted(p: Pixel, m: Mark, ink: Cover, x: int, y: int) -> Pixel {
    if m.points.len() == 0 {
        p
    } else {
        let a = m.points[0];
        let b = m.points[m.points.len() - 1];
        match m.tool {
            Tool::Pen | Tool::Highlight => if m.points.len() == 1 || source(m).a == 255 {
                lined(p, m, ink, x, y)
            } else if in_wash(m, x, y) && covered(ink.spans, ink.spans.len() as int, x, y) {
                over(p, source(m), ink.mix)
            } else {
                p
            },
            Tool::Line | Tool::Arrow => lined(p, m, ink, x, y),
            Tool::Ellipse => if a.x != b.x && a.y != b.y {
                lined(p, m, ink, x, y)
            } else {
                p
            },
            Tool::Rect => if !m.filled {
                lined(p, m, ink, x, y)
            } else if in_fill(a, b, x, y) {
                over(p, source(m), ink.mix)
            } else {
                p
            },
            Tool::Text => if m.text is None {
                p
            } else {
                lettered(p, m, ink, x, y)
            },
            Tool::Counter => lettered(lined(p, m, ink, x, y), m, ink, x, y),
            Tool::Blur | Tool::Select | Tool::Crop => p,
        }
    }
}

/// The pixels that a blur covers in an `iw` by `ih` image: its corner
/// and size in whole pixels, cut at the right and bottom edges.
pub open spec fn blur_box(m: Mark, iw: int, ih: int) -> Option<(int, int, int, int)> {
    let x = trunc_of(max_of(m.blur_rect.x as int, 0));
    let y = trunc_of(max_of(m.blur_rect.y as int, 0));
    let w = trunc_of(m.blur_rect.w as int);
    let h = trunc_of(m.blur_rect.h as int);
    if w >= 1 && h >= 1 && x < iw && y < ih {
        Some((x, y, min_of(w, iw - x), min_of(h, ih - y)))
    } else {
        None
    }
}

/// What an action makes of an `iw` by `ih` picture.
pub open spec fn paint(pic: Picture, iw: int, ih: int, m: Mark, ink: Cover) -> Picture {
    if m.tool is Blur {
        match blur_box(m, iw, ih) {
            Some((x, y, w, h)) => mosaic(pic, x, y, w, h),
            None => pic,
        }
    } else {
        Seq::new(
            pic.len(),
            |y: int| Seq::new(pic[y].len(), |x: int| painted(pic[y][x], m, ink, x, y)),
        )
    }
}

/// Paint one action that is no blur; a blur paints nothing here.
pub fn rasterize(img: &mut Canvas, action: &Action, ink: &Ink)
    requires
        old(img).wf(),
        action@.wf(),
        ink@.wf(),
    ensures
        final(img).wf(),
        final(img).width == old(img).width,
        final(img).height == old(img).height,
        forall|x: int, y: int|
            old(img).has(x, y) ==> #[trigger] final(img).at(x, y) == painted(
                old(img).at(x, y),
                action@,
                ink@,
                x,
                y,
            ),
{
    let ghost m = action@;
    let n: usize = action.points.len();
    if n == 0 {
        return;
    }
    let base = hex_rgba(action.color.as_str());
    let px = if action.tool == Tool::Highlight {
        Pixel { r: base.r, g: base.g, b: base.b, a: WASH_ALPHA }
    } else {
        base
    };
    assert(px == source(m));
    proof {
        assert(close(m.points[0]) && close(m.points[n - 1]));
        assert forall|i: int| 0 <= i < ink.tones@.len() implies (#[trigger] ink.tones@[i])@.wf() by {
            assert(ink@.tones[i].wf());
        }
        assert forall|i: int| 0 <= i < ink.dots@.len() implies (#[trigger] ink.dots@[i]).tone
            < ink.tones@.len() && near(ink.dots@[i].x as int) && near(ink.dots@[i].y as int) by {
            assert(ink@.dots[i].tone < ink@.tones.len());
        }
    }
    let a = action.points[0];
    let b = action.points[n - 1];
    match action.tool {
        Tool::Pen | Tool::Highlight => {
            if n == 1 || px.a == 255 {
                blend_spans(img, &ink.spans, px, &ink.mix);
            } else {
                wash_stroke(img, action, ink, px);
            }
        },
        Tool::Line | Tool::Arrow => blend_spans(img, &ink.spans, px, &ink.mix),
        Tool::Ellipse => {
            if a.x != b.x && a.y != b.y {
                blend_spans(img, &ink.spans, px, &ink.mix);
            }
        },
        Tool::Rect => {
            if action.filled {
                fill_rect(
                    img,
                    trunc_px(least(a.x, b.x)),
                    trunc_px(most(a.x, b.x)),
                    trunc_px(least(a.y, b.y)),
                    trunc_px(most(a.y, b.y)),
                    px,
                    &ink.mix,
                );
            } else {
                blend_spans(img, &ink.spans, px, &ink.mix);
            }
        },
        Tool::Text => {
            if action.text.is_some() {
                stipple(
                    img,
                    &ink.dots,
                    &ink.tones,
                    trunc_px(a.x),
                    trunc_px(a.y - action.font_size),
                );
            }
        },
        Tool::Counter => {
            blend_spans(img, &ink.spans, px, &ink.mix);
            let ghost disc = *img;
            let count: usize = action.step_label.as_str().unicode_len();
            proof {
                assert(0 <= count * action.font_size <= 100_000_000_000_000) by (nonlinear_arith)
                    requires
                        0 <= count <= 10_000_000,
                        0 <= action.font_size <= 10_000_000,
                ;
            }
            let half: i64 = count as i64 * action.font_size * 3 / 10;
            let drop: i64 = action.font_size * 7 / 20;
            let ox: i64 = trunc_px(a.x - half);
            let oy: i64 = trunc_px(a.y + drop - action.font_size);
            stipple(img, &ink.dots, &ink.tones, ox, oy);
            proof {
                assert forall|x: int, y: int| old(img).has(x, y) implies #[trigger] img.at(x, y)
                    == painted(old(img).at(x, y), m, ink@, x, y) by {
                    assert(disc.at(x, y) == lined(old(img).at(x, y), m, ink@, x, y));
                }
            }
        },
        Tool::Blur | Tool::Select | Tool::Crop => {},
    }
}

/// Paint a translucent stroke: every pixel it covers, once.
fn wash_stroke(img: &mut Canvas, action: &Action, ink: &Ink, px: Pixel)
    requires
        old(img).wf(),
        action@.wf(),
        ink@.wf(),
        action@.points.len() > 0,
    ensures
        final(img).wf(),
        final(img).width == old(img).width,
        final(img).height == old(img).height,
        forall|x: int, y: int|
            old(img).has(x, y) ==> #[trigger] final(img).at(x, y) == (if in_wash(action@, x, y)
                && covered(ink@.spans, ink@.spans.len() as int, x, y) {
                over(old(img).at(x, y), px, ink@.mix)
            } else {
                old(img).at(x, y)
            }),
{
    let (x0, y0, x1, y1) = extent(&action.points);
    let r: i64 = most(action.width / 2, PX / 2);
    let w: i64 = img.width as i64;
    let h: i64 = img.height as i64;
    let left: i64 = clamped(floor_px(x0 - r), 0, w);
    let top: i64 = clamped(floor_px(y0 - r), 0, h);
    let right: i64 = clamped(ceil_px(x1 + r), left, w);
    let bottom: i64 = clamped(ceil_px(y1 + r), top, h);
    wash(
        img,
        &ink.spans,
        left as u32,
        top as u32,
        (right - left) as u32,
        (bottom - top) as u32,
        px,
        &ink.mix,
    );
    proof {
        assert forall|x: int, y: int| old(img).has(x, y) implies in_region(
            left as int,
            top as int,
            right - left,
            bottom - top,
            x,
            y,
        ) == in_wash(action@, x, y) by {}
    }
}

/// The blur's patch holds what `pic` shows inside its box.
pub open spec fn patched(b: Action, pic: Picture, iw: int, ih: int) -> bool {
    blur_box(b@, iw, ih) matches Some((x, y, w, h)) && b.blur_patch matches Some(t) && t.w == w
        && t.h == h && t.bgra@ == bgra_of(region_pixels(pic, x, y, w, h))
}

/// `b` is `a` after it was replayed, with `pic` the picture that came
/// out: a blur that covers a pixel keeps what it shows as its patch.
pub open spec fn refreshed(a: Action, b: Action, pic: Picture, iw: int, ih: int) -> bool {
    &&& b@ == a@
    &&& if a.tool is Blur && blur_box(a@, iw, ih) is Some {
        patched(b, pic, iw, ih)
    } else {
        b.blur_patch == a.blur_patch
    }
}

/// Replay one action. A blur resamples the pixels under its rectangle as
/// they are now, and keeps them as its patch.
pub fn replay_one(img: &mut Canvas, action: &mut Action, ink: &Ink)
    requires
        old(img).wf(),
        old(action)@.wf(),
        ink@.wf(),
    ensures
        final(img).wf(),
        final(img).width == old(img).width,
        final(img).height == old(img).height,
        final(img)@ == paint(
            old(img)@,
            old(img).width as int,
            old(img).height as int,
            old(action)@,
            ink@,
        ),
        refreshed(
            *old(action),
            *final(action),
            final(img)@,
            old(img).width as int,
            old(img).height as int,
        ),
{
    let ghost pic = img@;
    let ghost iw = img.width as int;
    let ghost ih = img.height as int;
    if action.tool == Tool::Blur {
        let x: i64 = trunc_px(most(action.blur_rect.x, 0));
        let y: i64 = trunc_px(most(action.blur_rect.y, 0));
        let w: i64 = trunc_px(action.blur_rect.w);
        let h: i64 = trunc_px(action.blur_rect.h);
        let iw: i64 = img.width as i64;
        let ih: i64 = img.height as i64;
        if w >= 1 && h >= 1 && x < iw && y < ih {
            let w: i64 = least(w, iw - x);
            let h: i64 = least(h, ih - y);
            let bgra = pixelate_region_bgra(img, x as u32, y as u32, w as u32, h as u32);
            action.blur_patch = Some(Tile { w: w as u32, h: h as u32, bgra });
        }
    } else {
        rasterize(img, action, ink);
        proof {
            let want = paint(pic, iw, ih, action@, ink@);
            old(img).lemma_sized();
            assert forall|x: int, y: int| img.has(x, y) implies #[trigger] img.at(x, y)
                == want[y][x] by {
                assert(old(img).has(x, y));
            }
            img.lemma_same(want);
        }
    }
}

/// A colour over a pixel never lowers its alpha, which becomes the greater
/// of the two. An opaque colour replaces the pixel; a translucent one
/// mixes each channel by that channel's own table.
pub proof fn law_over(p: Pixel, src: Pixel, mix: Blend)
    ensures
        over(p, src, mix).a >= p.a,
        over(p, src, mix).a >= src.a,
        over(p, src, mix).a == p.a || over(p, src, mix).a == src.a,
        src.a == 255 ==> over(p, src, mix) == src,
        src.a < 255 ==> {
            &&& over(p, src, mix).r == mix.r[p.r as int]
            &&& over(p, src, mix).g == mix.g[p.g as int]
            &&& over(p, src, mix).b == mix.b[p.b as int]
        },
{
}

/// The tables move each value of a channel towards the colour's.
pub open spec fn tints(mix: Blend, src: Pixel) -> bool {
    forall|v: int|
        #![trigger mix.r[v]]
        #![trigger mix.g[v]]
        #![trigger mix.b[v]]
        0 <= v < 256 ==> {
            &&& min_of(v, src.r as int) <= mix.r[v] <= max_of(v, src.r as int)
            &&& min_of(v, src.g as int) <= mix.g[v] <= max_of(v, src.g as int)
            &&& min_of(v, src.b as int) <= mix.b[v] <= max_of(v, src.b as int)
        }
}

/// With tables that tint, each channel ends between what was there and the
/// colour.
pub proof fn law_over_tints(p: Pixel, src: Pixel, mix: Blend)
    requires
        tints(mix, src),
    ensures
        ({
            let q = over(p, src, mix);
            &&& min_of(p.r as int, src.r as int) <= q.r <= max_of(p.r as int, src.r as int)
            &&& min_of(p.g as int, src.g as int) <= q.g <= max_of(p.g as int, src.g as int)
            &&& min_of(p.b as int, src.b as int) <= q.b <= max_of(p.b as int, src.b as int)
        }),
{
    assert(min_of(p.r as int, src.r as int) <= mix.r[p.r as int]);
    assert(min_of(p.g as int, src.g as int) <= mix.g[p.g as int]);
    assert(min_of(p.b as int, src.b as int) <= mix.b[p.b as int]);
}

/// The alpha that is there, and the greatest of the spans', is kept.
proof fn lemma_through_alpha(
    p: Pixel,
    spans: Seq<Span>,
    n: int,
    src: Pixel,
    mix: Blend,
    x: int,
    y: int,
)
    ensures
        through(p, spans, n, src, mix, x, y).a >= p.a,
        covered(spans, n, x, y) ==> through(p, spans, n, src, mix, x, y).a >= src.a,
        covered(spans, n, x, y) && src.a == 255 ==> through(p, spans, n, src, mix, x, y) == src,
        !covered(spans, n, x, y) ==> through(p, spans, n, src, mix, x, y) == p,
    decreases n,
{
    if n > 0 {
        lemma_through_alpha(p, spans, n - 1, src, mix, x, y);
        if covers(spans[n - 1], x, y) {
            assert(covered(spans, n, x, y));
        } else if covered(spans, n, x, y) {
            let i = choose|i: int| 0 <= i < n && covers(#[trigger] spans[i], x, y);
            assert(0 <= i < n - 1);
            assert(covered(spans, n - 1, x, y));
        } else if covered(spans, n - 1, x, y) {
            let i = choose|i: int| 0 <= i < n - 1 && covers(#[trigger] spans[i], x, y);
            assert(0 <= i < n && covers(spans[i], x, y));
        }
    }
}

/// The tones leave an opaque pixel opaque.
pub open spec fn tones_opaque(tones: Seq<Blend>) -> bool {
    forall|i: int| 0 <= i < tones.len() ==> (#[trigger] tones[i]).a[255] == 255
}

proof fn lemma_stippled_opaque(
    p: Pixel,
    dots: Seq<Dot>,
    n: int,
    tones: Seq<Blend>,
    ox: int,
    oy: int,
    x: int,
    y: int,
)
    requires
        p.a == 255,
        n <= dots.len(),
        tones_opaque(tones),
        forall|i: int| 0 <= i < dots.len() ==> (#[trigger] dots[i]).tone < tones.len(),
    ensures
        stippled(p, dots, n, tones, ox, oy, x, y).a == 255,
    decreases n,
{
    if n > 0 {
        lemma_stippled_opaque(p, dots, n - 1, tones, ox, oy, x, y);
        assert(dots[n - 1].tone < tones.len());
        assert(tones[dots[n - 1].tone as int].a[255] == 255);
    }
}

/// What is opaque stays opaque, whatever is painted over it.
pub proof fn law_paint_stays_opaque(p: Pixel, m: Mark, ink: Cover, x: int, y: int)
    requires
        ink.wf(),
        tones_opaque(ink.tones),
        p.a == 255,
    ensures
        painted(p, m, ink, x, y).a == 255,
{
    let k = ink.spans.len() as int;
    let l = lined(p, m, ink, x, y);
    let o = text_origin(m);
    lemma_through_alpha(p, ink.spans, k, source(m), ink.mix, x, y);
    lemma_stippled_opaque(p, ink.dots, ink.dots.len() as int, ink.tones, o.0, o.1, x, y);
    lemma_stippled_opaque(l, ink.dots, ink.dots.len() as int, ink.tones, o.0, o.1, x, y);
}

/// Painting a stroke or a shape never lowers a pixel's alpha.
pub proof fn law_paint_keeps_alpha(p: Pixel, m: Mark, ink: Cover, x: int, y: int)
    requires
        !(m.tool is Text) && !(m.tool is Counter),
    ensures
        painted(p, m, ink, x, y).a >= p.a,
{
    lemma_through_alpha(p, ink.spans, ink.spans.len() as int, source(m), ink.mix, x, y);
}

proof fn lemma_undotted(
    p: Pixel,
    dots: Seq<Dot>,
    n: int,
    tones: Seq<Blend>,
    ox: int,
    oy: int,
    x: int,
    y: int,
)
    requires
        n <= dots.len(),
        !dotted(dots, ox, oy, x, y),
    ensures
        stippled(p, dots, n, tones, ox, oy, x, y) == p,
    decreases n,
{
    if n > 0 {
        lemma_undotted(p, dots, n - 1, tones, ox, oy, x, y);
        assert(!(ox + dots[n - 1].x == x && oy + dots[n - 1].y == y));
    }
}

/// A glyph of a text at (`ox`, `oy`) has a pixel at (x, y).
pub open spec fn dotted(dots: Seq<Dot>, ox: int, oy: int, x: int, y: int) -> bool {
    exists|i: int| 0 <= i < dots.len() && ox + (#[trigger] dots[i]).x == x && oy + dots[i].y == y
}

/// A stroke or an outlined shape paints the pixels that its rows cover in
/// the action's colour, opaque, and no other.
pub proof fn law_stroke_paints(p: Pixel, m: Mark, ink: Cover, x: int, y: int)
    requires
        m.points.len() > 0,
        m.tool is Pen || m.tool is Line || m.tool is Arrow || m.tool is Rect && !m.filled
            || m.tool is Ellipse && m.points[0].x != m.points[m.points.len() - 1].x
            && m.points[0].y != m.points[m.points.len() - 1].y,
    ensures
        covered(ink.spans, ink.spans.len() as int, x, y) ==> painted(p, m, ink, x, y) == (Pixel {
            a: 255,
            ..color_of(m.color)
        }),
        !covered(ink.spans, ink.spans.len() as int, x, y) ==> painted(p, m, ink, x, y) == p,
{
    lemma_through_alpha(p, ink.spans, ink.spans.len() as int, source(m), ink.mix, x, y);
}

/// A filled rectangle paints every pixel between its corners, whichever way
/// it was drawn, in the action's colour, and no other.
pub proof fn law_filled_rect(p: Pixel, m: Mark, ink: Cover, x: int, y: int)
    requires
        m.tool is Rect && m.filled,
        m.points.len() > 0,
        m.points[0].x >= 0 && m.points[0].y >= 0,
        m.points.last().x >= 0 && m.points.last().y >= 0,
    ensures
        ({
            let (a, b) = (m.points[0], m.points.last());
            let inside = (x + 1) * PX > min_of(a.x as int, b.x as int) && x * PX <= max_of(
                a.x as int,
                b.x as int,
            ) && (y + 1) * PX > min_of(a.y as int, b.y as int) && y * PX <= max_of(
                a.y as int,
                b.y as int,
            );
            painted(p, m, ink, x, y) == (if inside {
                Pixel { a: 255, ..color_of(m.color) }
            } else {
                p
            })
        }),
{
}

/// The highlighter goes over each pixel of a stroke once, however often
/// its rows cover it: with the action's colour, of which 35 parts in a
/// hundred are seen.
pub proof fn law_highlight_paints(p: Pixel, m: Mark, ink: Cover, x: int, y: int)
    requires
        m.tool is Highlight,
        m.points.len() > 1,
        painted(p, m, ink, x, y) != p,
    ensures
        covered(ink.spans, ink.spans.len() as int, x, y),
        100 * source(m).a <= 35 * 255 < 100 * (source(m).a + 1),
        source(m) == (Pixel { a: source(m).a, ..color_of(m.color) }),
        painted(p, m, ink, x, y).r == ink.mix.r[p.r as int],
        painted(p, m, ink, x, y).g == ink.mix.g[p.g as int],
        painted(p, m, ink, x, y).b == ink.mix.b[p.b as int],
{
}

/// The middle of the highlighter's stroke is painted: every pixel that its
/// rows cover, up to the brush's radius from the outermost points.
pub proof fn law_highlight_covers(p: Pixel, m: Mark, ink: Cover, x: int, y: int)
    requires
        m.tool is Highlight,
        m.points.len() > 1,
        covered(ink.spans, ink.spans.len() as int, x, y),
        least_x(m.points, m.points.len() as int) <= x * PX < most_x(
            m.points,
            m.points.len() as int,
        ) + m.width as int / 2,
        least_y(m.points, m.points.len() as int) <= y * PX < most_y(
            m.points,
            m.points.len() as int,
        ) + m.width as int / 2,
        m.width >= 0,
    ensures
        painted(p, m, ink, x, y) == (Pixel {
            r: ink.mix.r[p.r as int],
            g: ink.mix.g[p.g as int],
            b: ink.mix.b[p.b as int],
            a: max_of(p.a as int, source(m).a as int) as u8,
        }),
{
}

/// A text paints where its glyphs have pixels and nowhere else; a counter
/// its disc in the action's colour, and the number over it. A blur, the
/// selection and the crop paint nothing of their own.
pub proof fn law_glyphs_paint(p: Pixel, m: Mark, ink: Cover, x: int, y: int)
    requires
        m.points.len() > 0,
    ensures
        ({
            let o = text_origin(m);
            let q = painted(p, m, ink, x, y);
            let on = dotted(ink.dots, o.0, o.1, x, y);
            &&& m.tool is Text && (m.text is None || !on) ==> q == p
            &&& m.tool is Counter && !on ==> q == (if covered(
                ink.spans,
                ink.spans.len() as int,
                x,
                y,
            ) {
                Pixel { a: 255, ..color_of(m.color) }
            } else {
                p
            })
            &&& m.tool is Blur || m.tool is Select || m.tool is Crop ==> q == p
        }),
{
    let o = text_origin(m);
    let l = lined(p, m, ink, x, y);
    lemma_through_alpha(p, ink.spans, ink.spans.len() as int, source(m), ink.mix, x, y);
    if !dotted(ink.dots, o.0, o.1, x, y) {
        lemma_undotted(p, ink.dots, ink.dots.len() as int, ink.tones, o.0, o.1, x, y);
        lemma_undotted(l, ink.dots, ink.dots.len() as int, ink.tones, o.0, o.1, x, y);
    }
}

/// A single glyph pixel changes each channel by its tone's own table.
pub proof fn law_glyph_tone(p: Pixel, d: Dot, tones: Seq<Blend>, ox: int, oy: int)
    requires
        d.tone < tones.len(),
    ensures
        ({
            let t = tones[d.tone as int];
            let q = stippled(p, seq![d], 1, tones, ox, oy, ox + d.x, oy + d.y);
            &&& q.r == t.r[p.r as int]
            &&& q.g == t.g[p.g as int]
            &&& q.b == t.b[p.b as int]
            &&& q.a == t.a[p.a as int]
        }),
{
    reveal_with_fuel(stippled, 2);
    assert(seq![d][0] == d);
}

/// A text stands on its point: its glyphs start there, and as high above
/// it as the text is tall. A counter's number is centred on its point: it
/// starts half the width of its digits before it.
pub proof fn law_text_origin(m: Mark)
    requires
        m.points.len() > 0,
        m.font_size >= 0,
    ensures
        ({
            let (p, o) = (m.points[0], text_origin(m));
            &&& m.tool is Text && p.x >= 0 ==> o.0 * PX <= p.x < (o.0 + 1) * PX
            &&& m.tool is Text && p.y >= m.font_size ==> o.1 * PX <= p.y - m.font_size < (o.1 + 1)
                * PX
            &&& m.tool is Counter ==> {
                let half = m.step_label.len() * m.font_size * 3;
                &&& 10 * p.x >= half + 10 ==> 10 * (o.0 * PX) <= 10 * p.x - half + 10 && 10 * p.x
                    - half < 10 * ((o.0 + 1) * PX) + 10
                &&& 20 * p.y >= 13 * m.font_size + 20 ==> 20 * (o.1 * PX) <= 20 * p.y - 13
                    * m.font_size + 20 && 20 * p.y - 13 * m.font_size < 20 * ((o.1 + 1) * PX) + 20
            }
        }),
{
    let half = m.step_label.len() * m.font_size * 3;
    assert(half >= 0) by (nonlinear_arith)
        requires
            m.font_size >= 0,
            half == m.step_label.len() * m.font_size * 3,
    ;
}

/// A text of one glyph pixel changes that pixel by its tone.
pub proof fn law_text_paints(p: Pixel, m: Mark, ink: Cover, d: Dot)
    requires
        m.tool is Text && m.text is Some,
        m.points.len() > 0,
        ink.dots == seq![d],
        d.tone < ink.tones.len(),
    ensures
        ({
            let o = text_origin(m);
            let t = ink.tones[d.tone as int];
            painted(p, m, ink, o.0 + d.x, o.1 + d.y) == (Pixel {
                r: t.r[p.r as int],
                g: t.g[p.g as int],
                b: t.b[p.b as int],
                a: t.a[p.a as int],
            })
        }),
{
    let o = text_origin(m);
    law_glyph_tone(p, d, ink.tones, o.0, o.1);
}

} // verus!
