//! The blur tool's mosaic: a region is cut into cells and each cell
//! shows the average of its pixels.

use vstd::prelude::*;
use crate::canvas::{lemma_index, sized, Canvas, Picture, Pixel};
use crate::geom::max_of;

verus! {

/// The edge length a cell has at least, where the region is that large.
pub const BLUR_BLOCK: u32 = 12;

/// How many cells stand along an edge of `n` pixels.
pub open spec fn cells(n: int) -> int {
    max_of(n / BLUR_BLOCK as int, 1)
}

/// The first pixel of cell `c`, along an edge of `n`.
pub open spec fn cell_start(c: int, n: int) -> int {
    c * n / cells(n)
}

/// One past the last pixel of cell `c`: where the next one starts.
pub open spec fn cell_end(c: int, n: int) -> int {
    cell_start(c + 1, n)
}

/// The cell that pixel `o` lies in, along an edge of `n`: the last one that
/// starts no later.
pub open spec fn cell_of(o: int, n: int) -> int {
    ((o + 1) * cells(n) - 1) / n
}

pub open spec fn channel(p: Pixel, c: int) -> int {
    if c == 0 {
        p.r as int
    } else if c == 1 {
        p.g as int
    } else if c == 2 {
        p.b as int
    } else {
        p.a as int
    }
}

/// The sum of channel `c` over row `y`, from `x0` up to `x1`.
pub open spec fn row_sum(pic: Picture, c: int, y: int, x0: int, x1: int) -> int
    decreases x1 - x0,
{
    if x1 <= x0 {
        0
    } else {
        row_sum(pic, c, y, x0, x1 - 1) + channel(pic[y][x1 - 1], c)
    }
}

/// The sum of channel `c` over the rows `y0` up to `y1`.
pub open spec fn box_sum(pic: Picture, c: int, x0: int, x1: int, y0: int, y1: int) -> int
    decreases y1 - y0,
{
    if y1 <= y0 {
        0
    } else {
        box_sum(pic, c, x0, x1, y0, y1 - 1) + row_sum(pic, c, y1 - 1, x0, x1)
    }
}

/// `sum / n`, rounded half up.
pub open spec fn mean(sum: int, n: int) -> u8 {
    ((sum + n / 2) / n) as u8
}

/// The average colour of a box.
pub open spec fn box_mean(pic: Picture, x0: int, x1: int, y0: int, y1: int) -> Pixel {
    let n = (x1 - x0) * (y1 - y0);
    Pixel {
        r: mean(box_sum(pic, 0, x0, x1, y0, y1), n),
        g: mean(box_sum(pic, 1, x0, x1, y0, y1), n),
        b: mean(box_sum(pic, 2, x0, x1, y0, y1), n),
        a: mean(box_sum(pic, 3, x0, x1, y0, y1), n),
    }
}

/// The average colour of cell (`cx`, `cy`) of the region at (x, y).
pub open spec fn cell_mean(
    pic: Picture,
    x: int,
    y: int,
    w: int,
    h: int,
    cx: int,
    cy: int,
) -> Pixel {
    box_mean(
        pic,
        x + cell_start(cx, w),
        x + cell_end(cx, w),
        y + cell_start(cy, h),
        y + cell_end(cy, h),
    )
}

/// What the mosaic over the region shows at one of its pixels.
pub open spec fn mosaic_at(pic: Picture, x: int, y: int, w: int, h: int, px: int, py: int) -> Pixel {
    cell_mean(pic, x, y, w, h, cell_of(px - x, w), cell_of(py - y, h))
}

/// Is (`px`, `py`) in the `w` by `h` region at (x, y)?
pub open spec fn in_region(x: int, y: int, w: int, h: int, px: int, py: int) -> bool {
    x <= px < x + w && y <= py < y + h
}

/// The picture with a mosaic over the `w` by `h` region at (x, y).
pub open spec fn mosaic(pic: Picture, x: int, y: int, w: int, h: int) -> Picture {
    Seq::new(
        pic.len(),
        |py: int|
            Seq::new(
                pic[py].len(),
                |px: int|
                    if in_region(x, y, w, h, px, py) {
                        mosaic_at(pic, x, y, w, h, px, py)
                    } else {
                        pic[py][px]
                    },
            ),
    )
}

/// The pixels of a region, row after row.
pub open spec fn region_pixels(pic: Picture, x: int, y: int, w: int, h: int) -> Seq<Pixel> {
    Seq::new((w * h) as nat, |i: int| pic[y + i / w][x + i % w])
}

/// Four bytes to a pixel: blue, green, red, alpha.
pub open spec fn bgra_of(px: Seq<Pixel>) -> Seq<u8> {
    Seq::new(
        4 * px.len(),
        |i: int|
            if i % 4 == 0 {
                px[i / 4].b
            } else if i % 4 == 1 {
                px[i / 4].g
            } else if i % 4 == 2 {
                px[i / 4].r
            } else {
                px[i / 4].a
            },
    )
}

/// A cell lies inside its edge, is not empty and is at most 24 long.
pub(crate) proof fn lemma_cell(c: int, n: int)
    requires
        0 < n,
        0 <= c < cells(n),
    ensures
        0 <= cell_start(c, n) < cell_end(c, n) <= n,
        cell_end(c, n) - cell_start(c, n) <= 24,
        c * n <= n * n,
        (c + 1) * n <= n * n,
{
    let s = cells(n);
    assert(0 <= c * n) by (nonlinear_arith)
        requires
            0 <= c,
            0 < n,
    ;
    assert((c + 1) * n <= s * n) by (nonlinear_arith)
        requires
            c + 1 <= s,
            0 < n,
    ;
    assert((c + 1) * n == c * n + n) by (nonlinear_arith);
    assert(s * n <= n * n) by (nonlinear_arith)
        requires
            s <= n,
            0 < n,
    ;
    assert(0 <= (c * n) / s) by (nonlinear_arith)
        requires
            0 <= c * n,
            0 < s,
    ;
    assert(((c + 1) * n) / s <= n) by (nonlinear_arith)
        requires
            0 <= (c + 1) * n <= s * n,
            0 < s,
    ;
    let q = (c * n) / s;
    assert(q + 1 <= (c * n + n) / s <= q + 24) by (nonlinear_arith)
        requires
            q == (c * n) / s,
            0 <= c * n,
            0 < s,
            s <= n <= 24 * s,
    ;
}

/// Each pixel lies in one of the cells.
pub(crate) proof fn lemma_cell_of(o: int, n: int)
    requires
        0 <= o < n,
    ensures
        0 <= cell_of(o, n) < cells(n),
        cell_start(cell_of(o, n), n) <= o < cell_end(cell_of(o, n), n),
        (o + 1) * cells(n) <= n * n,
{
    let s = cells(n);
    let t = (o + 1) * s - 1;
    let c = cell_of(o, n);
    assert(0 <= t < n * s && (o + 1) * s == o * s + s) by (nonlinear_arith)
        requires
            t == (o + 1) * s - 1,
            0 <= o < n,
            0 < s,
    ;
    assert(n * s <= n * n) by (nonlinear_arith)
        requires
            0 < s <= n,
    ;
    assert(0 <= t / n < s && (t / n) * n <= t < (t / n + 1) * n) by (nonlinear_arith)
        requires
            0 <= t < n * s,
            0 < n,
    ;
    assert((c * n) / s <= o) by (nonlinear_arith)
        requires
            c * n <= o * s + s - 1,
            0 < s,
    ;
    assert(((c + 1) * n) / s >= o + 1) by (nonlinear_arith)
        requires
            (c + 1) * n >= (o + 1) * s,
            0 < s,
    ;
}

/// The cells cut the edge without a gap or an overlap: the first starts
/// with it, each ends where the next starts, the last ends with it, and a
/// pixel lies in the cell that it shows and in no other.
pub proof fn law_cells_partition(o: int, n: int, c: int)
    requires
        0 <= o < n,
        0 <= c < cells(n),
    ensures
        cell_start(0, n) == 0,
        cell_end(c, n) == cell_start(c + 1, n),
        cell_end(cells(n) - 1, n) == n,
        0 <= cell_of(o, n) < cells(n),
        cell_start(c, n) <= o < cell_end(c, n) <==> c == cell_of(o, n),
{
    let s = cells(n);
    let k = cell_of(o, n);
    lemma_cell_of(o, n);
    assert(0 * n == 0) by (nonlinear_arith);
    assert((s * n) / s == n) by (nonlinear_arith)
        requires
            0 < s,
    ;
    if c < k {
        lemma_starts_grow(c + 1, k, n);
    } else if c > k {
        lemma_starts_grow(k + 1, c, n);
    }
}

proof fn lemma_starts_grow(a: int, b: int, n: int)
    requires
        0 <= a <= b,
        0 < n,
    ensures
        cell_start(a, n) <= cell_start(b, n),
{
    let s = cells(n);
    assert(a * n <= b * n) by (nonlinear_arith)
        requires
            a <= b,
            0 < n,
    ;
    assert((a * n) / s <= (b * n) / s) by (nonlinear_arith)
        requires
            a * n <= b * n,
            0 < s,
    ;
}

proof fn lemma_square(n: int)
    requires
        0 <= n <= u32::MAX,
    ensures
        n * n <= u64::MAX,
{
    assert(n * n <= 0xffff_ffff * 0xffff_ffff) by (nonlinear_arith)
        requires
            0 <= n <= 0xffff_ffff,
    ;
}

fn cell_count(n: u32) -> (r: u32)
    requires
        0 < n,
    ensures
        r == cells(n as int),
        1 <= r <= n,
{
    if n / BLUR_BLOCK >= 1 {
        n / BLUR_BLOCK
    } else {
        1
    }
}

fn span_of_cell(c: u32, n: u32) -> (r: (u32, u32))
    requires
        0 < n,
        c < cells(n as int),
    ensures
        r.0 == cell_start(c as int, n as int),
        r.1 == cell_end(c as int, n as int),
        r.0 < r.1 <= n,
        r.1 - r.0 <= 24,
{
    proof {
        lemma_cell(c as int, n as int);
        lemma_square(n as int);
        assert(0 <= c * n) by (nonlinear_arith);
        assert(0 <= (c + 1) * n) by (nonlinear_arith);
    }
    let s: u64 = cell_count(n) as u64;
    let lo: u64 = c as u64 * n as u64 / s;
    let hi: u64 = (c as u64 + 1) * n as u64 / s;
    (lo as u32, hi as u32)
}

fn cell_at(o: u32, n: u32) -> (r: u32)
    requires
        o < n,
    ensures
        r == cell_of(o as int, n as int),
        r < cells(n as int),
{
    proof {
        lemma_cell_of(o as int, n as int);
        lemma_square(n as int);
        assert(1 <= (o + 1) * cells(n as int)) by (nonlinear_arith)
            requires
                1 <= cells(n as int),
                0 <= o,
        ;
    }
    (((o as u64 + 1) * cell_count(n) as u64 - 1) / n as u64) as u32
}

/// No sum over a row exceeds 255 for each pixel.
proof fn lemma_row_sum(pic: Picture, c: int, y: int, x0: int, x1: int)
    requires
        x0 <= x1,
    ensures
        0 <= row_sum(pic, c, y, x0, x1) <= 255 * (x1 - x0),
    decreases x1 - x0,
{
    if x0 < x1 {
        lemma_row_sum(pic, c, y, x0, x1 - 1);
    }
}

proof fn lemma_mean(sum: int, n: int)
    requires
        0 < n,
        0 <= sum <= 255 * n,
    ensures
        0 <= (sum + n / 2) / n <= 255,
{
    assert((sum + n / 2) / n <= 255) by (nonlinear_arith)
        requires
            0 < n,
            0 <= sum <= 255 * n,
    ;
    assert(0 <= (sum + n / 2) / n) by (nonlinear_arith)
        requires
            0 < n,
            0 <= sum,
    ;
}

/// The average colour of the box from (`x0`, `y0`) up to (`x1`, `y1`).
fn average(img: &Canvas, x0: u32, x1: u32, y0: u32, y1: u32) -> (p: Pixel)
    requires
        img.wf(),
        x0 < x1 <= img.width,
        y0 < y1 <= img.height,
        x1 - x0 <= 24,
        y1 - y0 <= 24,
    ensures
        p == box_mean(img@, x0 as int, x1 as int, y0 as int, y1 as int),
{
    let ghost pic = img@;
    let mut r: u32 = 0;
    let mut g: u32 = 0;
    let mut b: u32 = 0;
    let mut a: u32 = 0;
    let mut y: u32 = y0;
    while y < y1
        invariant
            pic == img@,
            img.wf(),
            x0 < x1 <= img.width,
            y0 <= y <= y1 <= img.height,
            x1 - x0 <= 24,
            y1 - y0 <= 24,
            r == box_sum(pic, 0, x0 as int, x1 as int, y0 as int, y as int),
            g == box_sum(pic, 1, x0 as int, x1 as int, y0 as int, y as int),
            b == box_sum(pic, 2, x0 as int, x1 as int, y0 as int, y as int),
            a == box_sum(pic, 3, x0 as int, x1 as int, y0 as int, y as int),
            r <= 255 * (x1 - x0) * (y - y0),
            g <= 255 * (x1 - x0) * (y - y0),
            b <= 255 * (x1 - x0) * (y - y0),
            a <= 255 * (x1 - x0) * (y - y0),
        decreases y1 - y,
    {
        let ghost (r0, g0, b0, a0) = (r, g, b, a);
        proof {
            assert(255 * (x1 - x0) * (y - y0) <= 255 * 24 * 24) by (nonlinear_arith)
                requires
                    0 <= x1 - x0 <= 24,
                    0 <= y - y0 <= 24,
            ;
        }
        let mut x: u32 = x0;
        while x < x1
            invariant
                pic == img@,
                img.wf(),
                x0 <= x <= x1 <= img.width,
                y0 <= y < y1 <= img.height,
                x1 - x0 <= 24,
                r0 <= 255 * 24 * 24,
                g0 <= 255 * 24 * 24,
                b0 <= 255 * 24 * 24,
                a0 <= 255 * 24 * 24,
                r == r0 + row_sum(pic, 0, y as int, x0 as int, x as int),
                g == g0 + row_sum(pic, 1, y as int, x0 as int, x as int),
                b == b0 + row_sum(pic, 2, y as int, x0 as int, x as int),
                a == a0 + row_sum(pic, 3, y as int, x0 as int, x as int),
                r <= r0 + 255 * (x - x0),
                g <= g0 + 255 * (x - x0),
                b <= b0 + 255 * (x - x0),
                a <= a0 + 255 * (x - x0),
            decreases x1 - x,
        {
            let p = img.get(x, y);
            r = r + p.r as u32;
            g = g + p.g as u32;
            b = b + p.b as u32;
            a = a + p.a as u32;
            x = x + 1;
        }
        proof {
            assert(255 * (x1 - x0) * (y + 1 - y0) == 255 * (x1 - x0) * (y - y0) + 255 * (x1 - x0))
                by (nonlinear_arith);
        }
        y = y + 1;
    }
    proof {
        let m = (x1 - x0) * (y1 - y0);
        assert(255 * (x1 - x0) * (y1 - y0) == 255 * m) by (nonlinear_arith)
            requires
                m == (x1 - x0) * (y1 - y0),
        ;
        assert(0 < m <= 24 * 24) by (nonlinear_arith)
            requires
                m == (x1 - x0) * (y1 - y0),
                0 < x1 - x0 <= 24,
                0 < y1 - y0 <= 24,
        ;
        lemma_mean(r as int, m);
        lemma_mean(g as int, m);
        lemma_mean(b as int, m);
        lemma_mean(a as int, m);
    }
    let n: u32 = (x1 - x0) * (y1 - y0);
    let half: u32 = n / 2;
    Pixel {
        r: ((r + half) / n) as u8,
        g: ((g + half) / n) as u8,
        b: ((b + half) / n) as u8,
        a: ((a + half) / n) as u8,
    }
}

/// Append a pixel as four bytes.
pub fn push_bgra(out: &mut Vec<u8>, p: Pixel)
    ensures
        final(out)@ == old(out)@ + seq![p.b, p.g, p.r, p.a],
{
    out.push(p.b);
    out.push(p.g);
    out.push(p.r);
    out.push(p.a);
    assert(out@ =~= old(out)@ + seq![p.b, p.g, p.r, p.a]);
}

pub proof fn lemma_bgra_push(px: Seq<Pixel>, p: Pixel)
    ensures
        bgra_of(px.push(p)) == bgra_of(px) + seq![p.b, p.g, p.r, p.a],
{
    assert(bgra_of(px.push(p)) =~= bgra_of(px) + seq![p.b, p.g, p.r, p.a]);
}

/// The averages of all the cells of a region, row after row.
fn cell_averages(img: &Canvas, x: u32, y: u32, w: u32, h: u32) -> (small: Vec<Pixel>)
    requires
        img.wf(),
        0 < w,
        0 < h,
        x + w <= img.width,
        y + h <= img.height,
    ensures
        small@.len() == cells(w as int) * cells(h as int),
        forall|cx: int, cy: int|
            0 <= cx < cells(w as int) && 0 <= cy < cells(h as int)
                ==> small@[#[trigger] grid(cx, cy, cells(w as int))] == cell_mean(
                img@,
                x as int,
                y as int,
                w as int,
                h as int,
                cx,
                cy,
            ),
{
    let sw: u32 = cell_count(w);
    let sh: u32 = cell_count(h);
    let mut small: Vec<Pixel> = Vec::new();
    let mut cy: u32 = 0;
    while cy < sh
        invariant
            img.wf(),
            0 < w,
            0 < h,
            x + w <= img.width,
            y + h <= img.height,
            sw == cells(w as int),
            sh == cells(h as int),
            cy <= sh,
            small@.len() == cy * sw,
            forall|a: int, b: int|
                0 <= a < sw && 0 <= b < cy ==> small@[#[trigger] grid(a, b, sw as int)]
                    == cell_mean(img@, x as int, y as int, w as int, h as int, a, b),
        decreases sh - cy,
    {
        let rows = span_of_cell(cy, h);
        let mut cx: u32 = 0;
        proof {
            assert(small@.len() == cy * sw + cx);
        }
        while cx < sw
            invariant
                img.wf(),
                0 < w,
                0 < h,
                x + w <= img.width,
                y + h <= img.height,
                sw == cells(w as int),
                sh == cells(h as int),
                cy < sh,
                cx <= sw,
                rows.0 == cell_start(cy as int, h as int),
                rows.1 == cell_end(cy as int, h as int),
                rows.0 < rows.1 <= h,
                rows.1 - rows.0 <= 24,
                small@.len() == cy * sw + cx,
                forall|a: int, b: int|
                    (0 <= a < sw && 0 <= b < cy) || (0 <= a < cx && b == cy)
                        ==> small@[#[trigger] grid(a, b, sw as int)] == cell_mean(
                        img@,
                        x as int,
                        y as int,
                        w as int,
                        h as int,
                        a,
                        b,
                    ),
            decreases sw - cx,
        {
            let cols = span_of_cell(cx, w);
            let p = average(img, x + cols.0, x + cols.1, y + rows.0, y + rows.1);
            let ghost before = small@;
            small.push(p);
            proof {
                assert forall|a: int, b: int|
                    (0 <= a < sw && 0 <= b < cy) || (0 <= a < cx + 1 && b
                        == cy) implies small@[#[trigger] grid(a, b, sw as int)] == cell_mean(
                    img@,
                    x as int,
                    y as int,
                    w as int,
                    h as int,
                    a,
                    b,
                ) by {
                    if a == cx && b == cy {
                    } else {
                        lemma_grid_before(a, b, cx as int, cy as int, sw as int);
                        assert(small@[grid(a, b, sw as int)] == before[grid(a, b, sw as int)]);
                    }
                }
            }
            cx = cx + 1;
        }
        proof {
            assert((cy + 1) * sw == cy * sw + sw) by (nonlinear_arith);
        }
        cy = cy + 1;
    }
    proof {
        assert(sh * sw == sw * sh) by (nonlinear_arith);
    }
    small
}

/// Where column `cx` of row `cy` stands in rows of `sw`.
pub open spec fn grid(cx: int, cy: int, sw: int) -> int {
    cy * sw + cx
}

proof fn lemma_grid_before(a: int, b: int, cx: int, cy: int, sw: int)
    requires
        0 <= a < sw,
        0 <= b,
        b < cy || (b == cy && a < cx),
        0 <= cx < sw,
    ensures
        0 <= grid(a, b, sw) < grid(cx, cy, sw),
{
    assert(0 <= b * sw) by (nonlinear_arith)
        requires
            0 <= b,
            0 < sw,
    ;
    if b < cy {
        assert(b * sw + sw <= cy * sw) by (nonlinear_arith)
            requires
                b + 1 <= cy,
                0 < sw,
        ;
    }
}

/// Lay a mosaic over the `w` by `h` region at (x, y) and return the same
/// pixels as a BGRA tile. Every pixel of the region becomes the rounded
/// average of its cell; every other pixel stays.
pub fn pixelate_region_bgra(img: &mut Canvas, x: u32, y: u32, w: u32, h: u32) -> (tile: Vec<u8>)
    requires
        old(img).wf(),
        x + w <= old(img).width,
        y + h <= old(img).height,
    ensures
        final(img).wf(),
        final(img).width == old(img).width,
        final(img).height == old(img).height,
        final(img)@ == mosaic(old(img)@, x as int, y as int, w as int, h as int),
        tile@ == bgra_of(region_pixels(final(img)@, x as int, y as int, w as int, h as int)),
{
    let ghost pic = img@;
    let mut tile: Vec<u8> = Vec::new();
    if w == 0 || h == 0 {
        proof {
            let m = mosaic(pic, x as int, y as int, w as int, h as int);
            assert(w * h == 0) by (nonlinear_arith)
                requires
                    w == 0 || h == 0,
            ;
            img.lemma_sized();
            img.lemma_same(m);
            assert(tile@ =~= bgra_of(region_pixels(pic, x as int, y as int, w as int, h as int)));
        }
        return tile;
    }
    let small = cell_averages(img, x, y, w, h);
    let sw: u32 = cell_count(w);
    let sh: u32 = cell_count(h);
    let ghost mut shown: Seq<Pixel> = Seq::empty();
    let mut oy: u32 = 0;
    while oy < h
        invariant
            img.wf(),
            img.width == old(img).width,
            img.height == old(img).height,
            pic == old(img)@,
            0 < w,
            0 < h,
            x + w <= img.width,
            y + h <= img.height,
            sw == cells(w as int),
            sh == cells(h as int),
            oy <= h,
            small@.len() == sw * sh,
            forall|cx: int, cy: int|
                0 <= cx < sw && 0 <= cy < sh ==> small@[#[trigger] grid(cx, cy, sw as int)]
                    == cell_mean(pic, x as int, y as int, w as int, h as int, cx, cy),
            forall|px: int, py: int|
                img.has(px, py) ==> #[trigger] img.at(px, py) == (if in_region(
                    x as int,
                    y as int,
                    w as int,
                    oy as int,
                    px,
                    py,
                ) {
                    mosaic_at(pic, x as int, y as int, w as int, h as int, px, py)
                } else {
                    pic[py][px]
                }),
            shown.len() == grid(0, oy as int, w as int),
            forall|a: int, b: int|
                0 <= a < w && 0 <= b < oy ==> shown[#[trigger] grid(a, b, w as int)] == mosaic_at(
                    pic,
                    x as int,
                    y as int,
                    w as int,
                    h as int,
                    x + a,
                    y + b,
                ),
            tile@ == bgra_of(shown),
        decreases h - oy,
    {
        let cy: u32 = cell_at(oy, h);
        let mut ox: u32 = 0;
        while ox < w
            invariant
                img.wf(),
                img.width == old(img).width,
                img.height == old(img).height,
                pic == old(img)@,
                0 < w,
                0 < h,
                x + w <= img.width,
                y + h <= img.height,
                sw == cells(w as int),
                sh == cells(h as int),
                oy < h,
                ox <= w,
                cy == cell_of(oy as int, h as int),
                cy < sh,
                small@.len() == sw * sh,
                forall|cx: int, cy: int|
                    0 <= cx < sw && 0 <= cy < sh ==> small@[#[trigger] grid(cx, cy, sw as int)]
                        == cell_mean(pic, x as int, y as int, w as int, h as int, cx, cy),
                forall|px: int, py: int|
                    img.has(px, py) ==> #[trigger] img.at(px, py) == (if in_region(
                        x as int,
                        y as int,
                        w as int,
                        oy as int,
                        px,
                        py,
                    ) || (py == y + oy && x <= px < x + ox) {
                        mosaic_at(pic, x as int, y as int, w as int, h as int, px, py)
                    } else {
                        pic[py][px]
                    }),
                shown.len() == grid(ox as int, oy as int, w as int),
                forall|a: int, b: int|
                    (0 <= a < w && 0 <= b < oy) || (0 <= a < ox && b == oy)
                        ==> shown[#[trigger] grid(a, b, w as int)] == mosaic_at(
                        pic,
                        x as int,
                        y as int,
                        w as int,
                        h as int,
                        x + a,
                        y + b,
                    ),
                tile@ == bgra_of(shown),
            decreases w - ox,
        {
            let cx: u32 = cell_at(ox, w);
            proof {
                lemma_index(cx as int, cy as int, sw as int, sh as int);
                assert(small@.len() == small.len());
                assert(0 <= cy * sw) by (nonlinear_arith);
            }
            let k: usize = cy as usize * sw as usize + cx as usize;
            let p = small[k];
            assert(k == grid(cx as int, cy as int, sw as int));
            img.set(x + ox, y + oy, p);
            push_bgra(&mut tile, p);
            proof {
                lemma_bgra_push(shown, p);
                let before = shown;
                shown = shown.push(p);
                assert forall|a: int, b: int|
                    (0 <= a < w && 0 <= b < oy) || (0 <= a < ox + 1 && b
                        == oy) implies shown[#[trigger] grid(a, b, w as int)] == mosaic_at(
                    pic,
                    x as int,
                    y as int,
                    w as int,
                    h as int,
                    x + a,
                    y + b,
                ) by {
                    if a == ox && b == oy {
                    } else {
                        lemma_grid_before(a, b, ox as int, oy as int, w as int);
                        assert(shown[grid(a, b, w as int)] == before[grid(a, b, w as int)]);
                    }
                }
            }
            ox = ox + 1;
        }
        proof {
            assert((oy + 1) * w == oy * w + w) by (nonlinear_arith);
        }
        oy = oy + 1;
    }
    proof {
        let m = mosaic(pic, x as int, y as int, w as int, h as int);
        assert(sized(m, img.width as int, img.height as int));
        assert forall|px: int, py: int| img.has(px, py) implies #[trigger] img.at(px, py)
            == m[py][px] by {}
        img.lemma_same(m);
        let want = region_pixels(img@, x as int, y as int, w as int, h as int);
        assert(h * w == w * h) by (nonlinear_arith);
        assert forall|i: int| 0 <= i < shown.len() implies shown[i] == want[i] by {
            let b = i / w as int;
            let a = i % w as int;
            assert(0 <= b < h && i == b * w + a) by (nonlinear_arith)
                requires
                    b == i / w as int,
                    a == i % w as int,
                    0 <= i < w * h,
                    0 < w,
            ;
            assert(shown[grid(a, b, w as int)] == img.at(x + a, y + b));
        }
        assert(shown =~= want);
    }
    tile
}

proof fn lemma_row_sum_local(p: Picture, q: Picture, c: int, y: int, x0: int, x1: int)
    requires
        forall|x: int| x0 <= x < x1 ==> #[trigger] p[y][x] == q[y][x],
    ensures
        row_sum(p, c, y, x0, x1) == row_sum(q, c, y, x0, x1),
    decreases x1 - x0,
{
    if x0 < x1 {
        lemma_row_sum_local(p, q, c, y, x0, x1 - 1);
        assert(p[y][x1 - 1] == q[y][x1 - 1]);
    }
}

proof fn lemma_box_sum_local(p: Picture, q: Picture, c: int, x0: int, x1: int, y0: int, y1: int)
    requires
        forall|x: int, y: int| x0 <= x < x1 && y0 <= y < y1 ==> #[trigger] p[y][x] == q[y][x],
    ensures
        box_sum(p, c, x0, x1, y0, y1) == box_sum(q, c, x0, x1, y0, y1),
    decreases y1 - y0,
{
    if y0 < y1 {
        lemma_box_sum_local(p, q, c, x0, x1, y0, y1 - 1);
        lemma_row_sum_local(p, q, c, y1 - 1, x0, x1);
    }
}

/// What a mosaic shows depends on the pixels of its region alone.
pub proof fn lemma_mosaic_local(
    p: Picture,
    q: Picture,
    x: int,
    y: int,
    w: int,
    h: int,
    px: int,
    py: int,
)
    requires
        in_region(x, y, w, h, px, py),
        forall|a: int, b: int| in_region(x, y, w, h, a, b) ==> #[trigger] p[b][a] == q[b][a],
    ensures
        mosaic_at(p, x, y, w, h, px, py) == mosaic_at(q, x, y, w, h, px, py),
{
    let cx = cell_of(px - x, w);
    let cy = cell_of(py - y, h);
    lemma_cell_of(px - x, w);
    lemma_cell_of(py - y, h);
    lemma_cell(cx, w);
    lemma_cell(cy, h);
    let (x0, x1) = (x + cell_start(cx, w), x + cell_end(cx, w));
    let (y0, y1) = (y + cell_start(cy, h), y + cell_end(cy, h));
    lemma_box_sum_local(p, q, 0, x0, x1, y0, y1);
    lemma_box_sum_local(p, q, 1, x0, x1, y0, y1);
    lemma_box_sum_local(p, q, 2, x0, x1, y0, y1);
    lemma_box_sum_local(p, q, 3, x0, x1, y0, y1);
}

proof fn lemma_row_flat(pic: Picture, c: int, y: int, x0: int, x1: int, p: Pixel)
    requires
        x0 <= x1,
        forall|x: int| x0 <= x < x1 ==> #[trigger] pic[y][x] == p,
    ensures
        row_sum(pic, c, y, x0, x1) == (x1 - x0) * channel(p, c),
    decreases x1 - x0,
{
    if x0 < x1 {
        lemma_row_flat(pic, c, y, x0, x1 - 1, p);
        assert(pic[y][x1 - 1] == p);
        let v = channel(p, c);
        assert((x1 - x0) * v == (x1 - 1 - x0) * v + v) by (nonlinear_arith);
    } else {
        assert((x1 - x0) * channel(p, c) == 0) by (nonlinear_arith)
            requires
                x1 - x0 == 0,
        ;
    }
}

proof fn lemma_box_flat(pic: Picture, c: int, x0: int, x1: int, y0: int, y1: int, p: Pixel)
    requires
        x0 <= x1,
        y0 <= y1,
        forall|x: int, y: int| x0 <= x < x1 && y0 <= y < y1 ==> #[trigger] pic[y][x] == p,
    ensures
        box_sum(pic, c, x0, x1, y0, y1) == ((x1 - x0) * (y1 - y0)) * channel(p, c),
    decreases y1 - y0,
{
    let v = channel(p, c);
    let w = x1 - x0;
    if y0 < y1 {
        lemma_box_flat(pic, c, x0, x1, y0, y1 - 1, p);
        lemma_row_flat(pic, c, y1 - 1, x0, x1, p);
        assert((w * (y1 - y0)) * v == (w * (y1 - 1 - y0)) * v + w * v) by (nonlinear_arith);
    } else {
        assert((w * (y1 - y0)) * v == 0) by (nonlinear_arith)
            requires
                y1 - y0 == 0,
        ;
    }
}

/// The mean of equal pixels is that pixel, in every channel.
pub proof fn law_mean_of_equals(pic: Picture, x0: int, x1: int, y0: int, y1: int, p: Pixel)
    requires
        x0 < x1,
        y0 < y1,
        forall|x: int, y: int| x0 <= x < x1 && y0 <= y < y1 ==> #[trigger] pic[y][x] == p,
    ensures
        box_mean(pic, x0, x1, y0, y1) == p,
{
    let n = (x1 - x0) * (y1 - y0);
    assert(n > 0) by (nonlinear_arith)
        requires
            x0 < x1,
            y0 < y1,
            n == (x1 - x0) * (y1 - y0),
    ;
    assert forall|c: int| 0 <= c < 4 implies mean(#[trigger] box_sum(pic, c, x0, x1, y0, y1), n)
        == channel(p, c) as u8 by {
        lemma_box_flat(pic, c, x0, x1, y0, y1, p);
        let v = channel(p, c);
        assert((n * v + n / 2) / n == v) by (nonlinear_arith)
            requires
                n > 0,
                v >= 0,
        ;
    }
    assert(mean(box_sum(pic, 0, x0, x1, y0, y1), n) == p.r);
    assert(mean(box_sum(pic, 1, x0, x1, y0, y1), n) == p.g);
    assert(mean(box_sum(pic, 2, x0, x1, y0, y1), n) == p.b);
    assert(mean(box_sum(pic, 3, x0, x1, y0, y1), n) == p.a);
}

proof fn lemma_row_between(pic: Picture, c: int, y: int, x0: int, x1: int, lo: int, hi: int)
    requires
        x0 <= x1,
        forall|x: int| x0 <= x < x1 ==> lo <= channel(#[trigger] pic[y][x], c) <= hi,
    ensures
        (x1 - x0) * lo <= row_sum(pic, c, y, x0, x1) <= (x1 - x0) * hi,
    decreases x1 - x0,
{
    if x0 < x1 {
        lemma_row_between(pic, c, y, x0, x1 - 1, lo, hi);
        assert(lo <= channel(pic[y][x1 - 1], c) <= hi);
        assert((x1 - x0) * lo == (x1 - 1 - x0) * lo + lo) by (nonlinear_arith);
        assert((x1 - x0) * hi == (x1 - 1 - x0) * hi + hi) by (nonlinear_arith);
    } else {
        assert((x1 - x0) * lo == 0 && (x1 - x0) * hi == 0) by (nonlinear_arith)
            requires
                x1 - x0 == 0,
        ;
    }
}

proof fn lemma_box_between(
    pic: Picture,
    c: int,
    x0: int,
    x1: int,
    y0: int,
    y1: int,
    lo: int,
    hi: int,
)
    requires
        x0 <= x1,
        y0 <= y1,
        forall|x: int, y: int|
            x0 <= x < x1 && y0 <= y < y1 ==> lo <= channel(#[trigger] pic[y][x], c) <= hi,
    ensures
        ((x1 - x0) * (y1 - y0)) * lo <= box_sum(pic, c, x0, x1, y0, y1) <= ((x1 - x0) * (y1 - y0))
            * hi,
    decreases y1 - y0,
{
    let w = x1 - x0;
    if y0 < y1 {
        lemma_box_between(pic, c, x0, x1, y0, y1 - 1, lo, hi);
        lemma_row_between(pic, c, y1 - 1, x0, x1, lo, hi);
        assert((w * (y1 - y0)) * lo == (w * (y1 - 1 - y0)) * lo + w * lo) by (nonlinear_arith);
        assert((w * (y1 - y0)) * hi == (w * (y1 - 1 - y0)) * hi + w * hi) by (nonlinear_arith);
    } else {
        assert((w * (y1 - y0)) * lo == 0 && (w * (y1 - y0)) * hi == 0) by (nonlinear_arith)
            requires
                y1 - y0 == 0,
        ;
    }
}

/// A mean lies between the least and the greatest value, in its channel.
pub proof fn law_mean_between(
    pic: Picture,
    c: int,
    x0: int,
    x1: int,
    y0: int,
    y1: int,
    lo: u8,
    hi: u8,
)
    requires
        0 <= c < 4,
        x0 < x1,
        y0 < y1,
        forall|x: int, y: int|
            x0 <= x < x1 && y0 <= y < y1 ==> lo <= channel(#[trigger] pic[y][x], c) <= hi,
    ensures
        lo <= channel(box_mean(pic, x0, x1, y0, y1), c) <= hi,
{
    let n = (x1 - x0) * (y1 - y0);
    let s = box_sum(pic, c, x0, x1, y0, y1);
    lemma_box_between(pic, c, x0, x1, y0, y1, lo as int, hi as int);
    assert(n > 0) by (nonlinear_arith)
        requires
            x0 < x1,
            y0 < y1,
            n == (x1 - x0) * (y1 - y0),
    ;
    let h = n / 2;
    assert(lo <= (s + h) / n <= hi) by (nonlinear_arith)
        requires
            n > 0,
            n * lo <= s <= n * hi,
            0 <= h < n,
    ;
}

/// A blurred region shows one colour to a cell, the mean of what the cell
/// showed; what lies outside the region is left as it was. No cell is
/// less than its least edge where the region has room for it.
pub proof fn law_mosaic(
    pic: Picture,
    x: int,
    y: int,
    w: int,
    h: int,
    px: int,
    py: int,
    qx: int,
    qy: int,
)
    requires
        0 < w && 0 < h,
        0 <= py < pic.len() && 0 <= px < pic[py].len(),
        0 <= qy < pic.len() && 0 <= qx < pic[qy].len(),
    ensures
        ({
            let out = mosaic(pic, x, y, w, h);
            let (a, b) = (cell_of(px - x, w), cell_of(py - y, h));
            &&& !(x <= px < x + w && y <= py < y + h) ==> out[py][px] == pic[py][px]
            &&& x <= px < x + w && y <= py < y + h ==> {
                &&& x + cell_start(a, w) <= px < x + cell_end(a, w)
                &&& y + cell_start(b, h) <= py < y + cell_end(b, h)
                &&& out[py][px] == box_mean(
                    pic,
                    x + cell_start(a, w),
                    x + cell_end(a, w),
                    y + cell_start(b, h),
                    y + cell_end(b, h),
                )
                &&& x + cell_start(a, w) <= qx < x + cell_end(a, w) && y + cell_start(b, h) <= qy
                    < y + cell_end(b, h) ==> out[qy][qx] == out[py][px]
            }
        }),
        w >= 12 ==> 12 * cells(w) <= w < 12 * (cells(w) + 1),
        w < 12 ==> cells(w) == 1,
{
    if x <= px < x + w && y <= py < y + h {
        let (a, b) = (cell_of(px - x, w), cell_of(py - y, h));
        lemma_cell_of(px - x, w);
        lemma_cell_of(py - y, h);
        lemma_cell(a, w);
        lemma_cell(b, h);
        law_cells_partition(px - x, w, a);
        law_cells_partition(py - y, h, b);
        if x + cell_start(a, w) <= qx < x + cell_end(a, w) && y + cell_start(b, h) <= qy < y
            + cell_end(b, h) {
            law_cells_partition(qx - x, w, a);
            law_cells_partition(qy - y, h, b);
        }
    }
}

/// The bytes of a patch stand in the order blue, green, red, alpha.
pub proof fn law_patch_bytes(px: Seq<Pixel>, i: int)
    requires
        0 <= i < px.len(),
    ensures
        bgra_of(px).len() == 4 * px.len(),
        bgra_of(px)[4 * i] == px[i].b,
        bgra_of(px)[4 * i + 1] == px[i].g,
        bgra_of(px)[4 * i + 2] == px[i].r,
        bgra_of(px)[4 * i + 3] == px[i].a,
{
}

} // verus!
