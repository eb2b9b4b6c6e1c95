//! Images in memory: a grid of RGBA pixels, and the mosaic that hides
//! part of one.

use vstd::prelude::*;

verus! {

#[derive(Clone, Copy, PartialEq, Eq, Structural, Debug)]
pub struct Pixel {
    pub r: u8,
    pub g: u8,
    pub b: u8,
    pub a: u8,
}

/// What an image shows: its rows from the top, each from the left.
pub type Picture = Seq<Seq<Pixel>>;

/// An image. Pixel (x, y) stands at `y * width + x`.
pub struct Canvas {
    pub width: u32,
    pub height: u32,
    pub pixels: Vec<Pixel>,
}

impl View for Canvas {
    type V = Picture;

    open spec fn view(&self) -> Picture {
        Seq::new(
            self.height as nat,
            |y: int|
                Seq::new(self.width as nat, |x: int| self.pixels@[y * self.width as int + x]),
        )
    }
}

/// Every row of `pic` is `w` pixels wide, and there are `h` of them.
pub open spec fn sized(pic: Picture, w: int, h: int) -> bool {
    pic.len() == h && forall|y: int| 0 <= y < h ==> (#[trigger] pic[y]).len() == w
}

pub proof fn lemma_index(x: int, y: int, w: int, h: int)
    requires
        0 <= x < w,
        0 <= y < h,
    ensures
        0 <= y * w + x < w * h,
{
    assert(y * w + x < w * h) by (nonlinear_arith)
        requires
            0 <= x < w,
            0 <= y < h,
    ;
    assert(0 <= y * w) by (nonlinear_arith)
        requires
            0 <= y,
            0 < w,
    ;
}

pub proof fn lemma_index_differs(x: int, y: int, x2: int, y2: int, w: int)
    requires
        0 <= x < w,
        0 <= x2 < w,
        y * w + x == y2 * w + x2,
    ensures
        x == x2,
        y == y2,
{
    assert(y == y2) by (nonlinear_arith)
        requires
            0 <= x < w,
            0 <= x2 < w,
            y * w + x == y2 * w + x2,
    ;
}

impl Canvas {
    pub open spec fn wf(self) -> bool {
        self.pixels@.len() == self.width * self.height
    }

    pub open spec fn at(self, x: int, y: int) -> Pixel {
        self@[y][x]
    }

    /// Is (x, y) a pixel of this image?
    pub open spec fn has(self, x: int, y: int) -> bool {
        0 <= x < self.width && 0 <= y < self.height
    }

    pub proof fn lemma_sized(self)
        ensures
            sized(self@, self.width as int, self.height as int),
    {
    }

    /// Two images of one size that agree at every pixel show the same.
    pub proof fn lemma_same(self, pic: Picture)
        requires
            sized(pic, self.width as int, self.height as int),
            forall|x: int, y: int| self.has(x, y) ==> #[trigger] self.at(x, y) == pic[y][x],
        ensures
            self@ == pic,
    {
        assert forall|y: int| 0 <= y < self@.len() implies self@[y] == pic[y] by {
            assert forall|x: int| 0 <= x < self@[y].len() implies self@[y][x] == pic[y][x] by {
                assert(self.at(x, y) == pic[y][x]);
            }
            assert(self@[y] =~= pic[y]);
        }
        assert(self@ =~= pic);
    }

    /// An image of one colour.
    pub fn filled(width: u32, height: u32, p: Pixel) -> (r: Canvas)
        requires
            width * height <= usize::MAX,
        ensures
            r.wf(),
            r.width == width,
            r.height == height,
            forall|x: int, y: int| r.has(x, y) ==> #[trigger] r.at(x, y) == p,
    {
        let n: usize = width as usize * height as usize;
        let pixels: Vec<Pixel> = vec![p; n];
        let r = Canvas { width, height, pixels };
        proof {
            assert forall|x: int, y: int| r.has(x, y) implies #[trigger] r.at(x, y) == p by {
                lemma_index(x, y, width as int, height as int);
            }
        }
        r
    }

    /// The pixel at (x, y).
    pub fn get(&self, x: u32, y: u32) -> (p: Pixel)
        requires
            self.wf(),
            self.has(x as int, y as int),
        ensures
            p == self.at(x as int, y as int),
    {
        proof {
            lemma_index(x as int, y as int, self.width as int, self.height as int);
            assert(self.pixels@.len() == self.pixels.len());
            assert(0 <= y * self.width) by (nonlinear_arith);
        }
        self.pixels[y as usize * self.width as usize + x as usize]
    }

    /// Write the pixel at (x, y).
    pub fn set(&mut self, x: u32, y: u32, p: Pixel)
        requires
            old(self).wf(),
            old(self).has(x as int, y as int),
        ensures
            final(self).wf(),
            final(self).width == old(self).width,
            final(self).height == old(self).height,
            forall|x2: int, y2: int|
                old(self).has(x2, y2) ==> #[trigger] final(self).at(x2, y2) == (if x2 == x && y2
                    == y {
                    p
                } else {
                    old(self).at(x2, y2)
                }),
    {
        proof {
            lemma_index(x as int, y as int, self.width as int, self.height as int);
            assert(self.pixels@.len() == self.pixels.len());
            assert(0 <= y * self.width) by (nonlinear_arith);
        }
        let i: usize = y as usize * self.width as usize + x as usize;
        self.pixels.set(i, p);
        proof {
            let w = self.width as int;
            assert forall|x2: int, y2: int| old(self).has(x2, y2) implies #[trigger] self.at(x2, y2)
                == (if x2 == x && y2 == y {
                p
            } else {
                old(self).at(x2, y2)
            }) by {
                lemma_index(x2, y2, w, self.height as int);
                if y2 * w + x2 == i {
                    lemma_index_differs(x2, y2, x as int, y as int, w);
                }
            }
        }
    }

    /// Another image that shows the same.
    pub fn copy(&self) -> (r: Canvas)
        requires
            self.wf(),
        ensures
            r.wf(),
            r.width == self.width,
            r.height == self.height,
            r@ == self@,
            r.pixels@ == self.pixels@,
    {
        let r = Canvas { width: self.width, height: self.height, pixels: self.pixels.clone() };
        assert(r.pixels@ =~= self.pixels@);
        r
    }
}

/// Four bytes to a pixel: red, green, blue, alpha.
pub open spec fn rgba_of(px: Seq<Pixel>) -> Seq<u8> {
    Seq::new(
        4 * px.len(),
        |i: int|
            if i % 4 == 0 {
                px[i / 4].r
            } else if i % 4 == 1 {
                px[i / 4].g
            } else if i % 4 == 2 {
                px[i / 4].b
            } else {
                px[i / 4].a
            },
    )
}

/// The pixels that RGBA bytes hold.
pub open spec fn pixels_in(bytes: Seq<u8>) -> Seq<Pixel> {
    Seq::new(
        bytes.len() / 4,
        |i: int|
            Pixel {
                r: bytes[4 * i],
                g: bytes[4 * i + 1],
                b: bytes[4 * i + 2],
                a: bytes[4 * i + 3],
            },
    )
}

/// Reading the bytes of pixels back gives those pixels.
pub proof fn law_bytes_round(px: Seq<Pixel>)
    ensures
        pixels_in(rgba_of(px)) == px,
{
    assert(pixels_in(rgba_of(px)) =~= px);
}

impl Canvas {
    /// The pixels as RGBA bytes, row after row.
    pub fn to_rgba(&self) -> (r: Vec<u8>)
        ensures
            r@ == rgba_of(self.pixels@),
    {
        let mut out: Vec<u8> = Vec::new();
        let mut i: usize = 0;
        while i < self.pixels.len()
            invariant
                i <= self.pixels@.len(),
                out@ == rgba_of(self.pixels@.take(i as int)),
            decreases self.pixels@.len() - i,
        {
            let p = self.pixels[i];
            out.push(p.r);
            out.push(p.g);
            out.push(p.b);
            out.push(p.a);
            assert(out@ =~= rgba_of(self.pixels@.take(i + 1)));
            i = i + 1;
        }
        assert(self.pixels@.take(i as int) =~= self.pixels@);
        out
    }

    /// The image that RGBA bytes hold. None: their number does not fit
    /// the size.
    pub fn from_rgba(width: u32, height: u32, bytes: &Vec<u8>) -> (r: Option<Canvas>)
        ensures
            match r {
                Some(c) => bytes@.len() == 4 * (width * height) && c.wf() && c.width == width
                    && c.height == height && c.pixels@ == pixels_in(bytes@),
                None => bytes@.len() != 4 * (width * height),
            },
    {
        let n: usize = bytes.len();
        proof {
            assert(0 <= width * height <= 0xffff_ffff * 0xffff_ffff) by (nonlinear_arith)
                requires
                    0 <= width <= 0xffff_ffff,
                    0 <= height <= 0xffff_ffff,
            ;
        }
        if n as u128 != 4 * (width as u128 * height as u128) {
            return None;
        }
        let count: usize = n / 4;
        let mut pixels: Vec<Pixel> = Vec::new();
        let mut i: usize = 0;
        while i < count
            invariant
                n == bytes@.len(),
                count == n / 4,
                i <= count,
                pixels@ == pixels_in(bytes@).take(i as int),
            decreases count - i,
        {
            let p = Pixel {
                r: bytes[4 * i],
                g: bytes[4 * i + 1],
                b: bytes[4 * i + 2],
                a: bytes[4 * i + 3],
            };
            pixels.push(p);
            assert(pixels@ =~= pixels_in(bytes@).take(i + 1));
            i = i + 1;
        }
        assert(pixels@ =~= pixels_in(bytes@));
        Some(Canvas { width, height, pixels })
    }

    /// The `w` by `h` part at (x, y).
    pub fn cut(&self, x: u32, y: u32, w: u32, h: u32) -> (r: Canvas)
        requires
            self.wf(),
            x + w <= self.width,
            y + h <= self.height,
        ensures
            r.wf(),
            r.width == w,
            r.height == h,
            forall|a: int, b: int| r.has(a, b) ==> #[trigger] r.at(a, b) == self.at(x + a, y + b),
    {
        proof {
            lemma_area(w as int, h as int, self.width as int, self.height as int);
            assert(self.pixels@.len() == self.pixels.len());
        }
        let mut r = Canvas::filled(w, h, Pixel { r: 0, g: 0, b: 0, a: 0 });
        let mut b: u32 = 0;
        while b < h
            invariant
                self.wf(),
                x + w <= self.width,
                y + h <= self.height,
                r.wf(),
                r.width == w,
                r.height == h,
                b <= h,
                forall|p: int, q: int|
                    r.has(p, q) && q < b ==> #[trigger] r.at(p, q) == self.at(x + p, y + q),
            decreases h - b,
        {
            let mut a: u32 = 0;
            while a < w
                invariant
                    self.wf(),
                    x + w <= self.width,
                    y + h <= self.height,
                    r.wf(),
                    r.width == w,
                    r.height == h,
                    b < h,
                    a <= w,
                    forall|p: int, q: int|
                        r.has(p, q) && (q < b || (q == b && p < a)) ==> #[trigger] r.at(p, q)
                            == self.at(x + p, y + q),
                decreases w - a,
            {
                let p = self.get(x + a, y + b);
                r.set(a, b, p);
                a = a + 1;
            }
            b = b + 1;
        }
        r
    }

    /// The image turned a quarter, clockwise.
    pub fn rotate90(&self) -> (r: Canvas)
        requires
            self.wf(),
        ensures
            r.wf(),
            r.width == self.height,
            r.height == self.width,
            forall|x: int, y: int|
                r.has(x, y) ==> #[trigger] r.at(x, y) == self.at(y, self.height - 1 - x),
    {
        proof {
            assert(self.height * self.width == self.width * self.height) by (nonlinear_arith);
            assert(self.pixels@.len() == self.pixels.len());
        }
        let mut r = Canvas::filled(self.height, self.width, Pixel { r: 0, g: 0, b: 0, a: 0 });
        let mut y: u32 = 0;
        while y < r.height
            invariant
                self.wf(),
                r.wf(),
                r.width == self.height,
                r.height == self.width,
                y <= r.height,
                forall|p: int, q: int|
                    r.has(p, q) && q < y ==> #[trigger] r.at(p, q) == self.at(
                        q,
                        self.height - 1 - p,
                    ),
            decreases r.height - y,
        {
            let mut x: u32 = 0;
            while x < r.width
                invariant
                    self.wf(),
                    r.wf(),
                    r.width == self.height,
                    r.height == self.width,
                    y < r.height,
                    x <= r.width,
                    forall|p: int, q: int|
                        r.has(p, q) && (q < y || (q == y && p < x)) ==> #[trigger] r.at(p, q)
                            == self.at(q, self.height - 1 - p),
                decreases r.width - x,
            {
                let p = self.get(y, self.height - 1 - x);
                r.set(x, y, p);
                x = x + 1;
            }
            y = y + 1;
        }
        r
    }

    /// The image mirrored left to right, or top to bottom.
    pub fn flip(&self, vertical: bool) -> (r: Canvas)
        requires
            self.wf(),
        ensures
            r.wf(),
            r.width == self.width,
            r.height == self.height,
            forall|x: int, y: int|
                r.has(x, y) ==> #[trigger] r.at(x, y) == (if vertical {
                    self.at(x, self.height - 1 - y)
                } else {
                    self.at(self.width - 1 - x, y)
                }),
    {
        assert(self.pixels@.len() == self.pixels.len());
        let mut r = Canvas::filled(self.width, self.height, Pixel { r: 0, g: 0, b: 0, a: 0 });
        let mut y: u32 = 0;
        while y < r.height
            invariant
                self.wf(),
                r.wf(),
                r.width == self.width,
                r.height == self.height,
                y <= r.height,
                forall|p: int, q: int|
                    r.has(p, q) && q < y ==> #[trigger] r.at(p, q) == (if vertical {
                        self.at(p, self.height - 1 - q)
                    } else {
                        self.at(self.width - 1 - p, q)
                    }),
            decreases r.height - y,
        {
            let mut x: u32 = 0;
            while x < r.width
                invariant
                    self.wf(),
                    r.wf(),
                    r.width == self.width,
                    r.height == self.height,
                    y < r.height,
                    x <= r.width,
                    forall|p: int, q: int|
                        r.has(p, q) && (q < y || (q == y && p < x)) ==> #[trigger] r.at(p, q) == (
                        if vertical {
                            self.at(p, self.height - 1 - q)
                        } else {
                            self.at(self.width - 1 - p, q)
                        }),
                decreases r.width - x,
            {
                let p = if vertical {
                    self.get(x, self.height - 1 - y)
                } else {
                    self.get(self.width - 1 - x, y)
                };
                r.set(x, y, p);
                x = x + 1;
            }
            y = y + 1;
        }
        r
    }
}

proof fn lemma_area(w: int, h: int, w2: int, h2: int)
    requires
        0 <= w <= w2,
        0 <= h <= h2,
    ensures
        0 <= w * h <= w2 * h2,
{
    assert(0 <= w * h <= w2 * h2) by (nonlinear_arith)
        requires
            0 <= w <= w2,
            0 <= h <= h2,
    ;
}

/// A pixel's bytes stand in the order red, green, blue, alpha, four to a
/// pixel.
pub proof fn law_byte_order(px: Seq<Pixel>, i: int)
    requires
        0 <= i < px.len(),
    ensures
        rgba_of(px).len() == 4 * px.len(),
        rgba_of(px)[4 * i] == px[i].r,
        rgba_of(px)[4 * i + 1] == px[i].g,
        rgba_of(px)[4 * i + 2] == px[i].b,
        rgba_of(px)[4 * i + 3] == px[i].a,
{
}

/// A row's pixels stand side by side, and the rows below each other.
pub proof fn law_rows(c: Canvas, x: int, y: int)
    requires
        c.wf(),
        c.has(x, y),
    ensures
        c.at(x, y) == c.pixels@[y * c.width + x],
{
}

} // verus!
