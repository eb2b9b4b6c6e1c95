//! The loupe: the frame's pixels round the pointer, enlarged.

use vstd::prelude::*;
use crate::overlay::PIXEL_FAR;
use crate::text::{hex_of, push_hex, push_signed, signed};

verus! {

/// Frame pixels across the loupe.
pub const LOUPE_SRC: i64 = 19;

/// How often each is repeated, across and down.
pub const LOUPE_ZOOM: i64 = 8;

/// The loupe's own width and height.
pub const LOUPE_PX: i64 = 152;

/// A frozen frame: its pixels in BGRA order.
pub struct Frame {
    pub bgra: Vec<u8>,
    pub width: u32,
    pub height: u32,
}

impl Frame {
    pub open spec fn wf(self) -> bool {
        self.width > 0 && self.height > 0 && self.bgra@.len() == 4 * (self.width * self.height)
    }

    pub open spec fn has(self, x: int, y: int) -> bool {
        0 <= x < self.width && 0 <= y < self.height
    }

    /// The bytes of pixel (x, y), made opaque; a dark color outside.
    pub open spec fn sample(self, x: int, y: int) -> Seq<u8> {
        if self.has(x, y) {
            let o = (y * self.width + x) * 4;
            seq![self.bgra@[o], self.bgra@[o + 1], self.bgra@[o + 2], 255u8]
        } else {
            seq![0x14u8, 0x14u8, 0x16u8, 255u8]
        }
    }

    /// The bytes of pixel (x, y), made opaque; a dark color outside.
    pub fn pixel(&self, x: i64, y: i64) -> (p: [u8; 4])
        requires
            self.wf(),
        ensures
            p@ == self.sample(x as int, y as int),
    {
        if x >= 0 && y >= 0 && x < self.width as i64 && y < self.height as i64 {
            proof {
                assert(0 <= y * self.width + x < self.width * self.height) by (nonlinear_arith)
                    requires
                        0 <= x < self.width,
                        0 <= y < self.height,
                ;
                assert(0 <= y * self.width) by (nonlinear_arith)
                    requires
                        0 <= y,
                ;
                assert(self.bgra@.len() == self.bgra.len());
            }
            let o: usize = (y as usize * self.width as usize + x as usize) * 4;
            let p = [self.bgra[o], self.bgra[o + 1], self.bgra[o + 2], 255u8];
            assert(p@ =~= self.sample(x as int, y as int));
            p
        } else {
            let p = [0x14u8, 0x14u8, 0x16u8, 255u8];
            assert(p@ =~= self.sample(x as int, y as int));
            p
        }
    }
}

/// Is (x, y) on the box drawn round the middle pixel?
pub open spec fn on_box(x: int, y: int) -> bool {
    let lo = LOUPE_PX / 2 - LOUPE_ZOOM / 2;
    let hi = LOUPE_PX / 2 + LOUPE_ZOOM / 2 - 1;
    ||| (y == lo || y == hi) && lo <= x <= hi
    ||| (x == lo || x == hi) && lo <= y <= hi
}

/// The bytes of the loupe's pixel (x, y) round frame pixel (fx, fy).
pub open spec fn loupe_pixel(f: Frame, fx: int, fy: int, x: int, y: int) -> Seq<u8> {
    if on_box(x, y) {
        seq![255u8, 255u8, 255u8, 242u8]
    } else {
        f.sample(
            fx + x / LOUPE_ZOOM as int - LOUPE_SRC as int / 2,
            fy + y / LOUPE_ZOOM as int - LOUPE_SRC as int / 2,
        )
    }
}

/// The bytes of the loupe, row after row.
pub open spec fn loupe_bytes(f: Frame, fx: int, fy: int) -> Seq<u8> {
    Seq::new(
        (4 * (LOUPE_PX * LOUPE_PX)) as nat,
        |i: int|
            loupe_pixel(
                f,
                fx,
                fy,
                (i / 4) % LOUPE_PX as int,
                (i / 4) / LOUPE_PX as int,
            )[i % 4],
    )
}

/// The hexadecimal color of a frame pixel.
pub open spec fn color_of(f: Frame, fx: int, fy: int) -> Seq<char> {
    let p = f.sample(fx, fy);
    "#"@ + hex_of(p[2]) + hex_of(p[1]) + hex_of(p[0])
}

/// The line under the loupe: the pixel's place and color.
pub open spec fn info_of(f: Frame, fx: int, fy: int) -> Seq<char> {
    signed(fx) + ", "@ + signed(fy) + "  "@ + color_of(f, fx, fy)
}

/// The loupe's image, its line and the color in it.
pub struct Loupe {
    pub bgra: Vec<u8>,
    pub info: String,
    pub color: String,
}

impl Loupe {
    /// It is the loupe of frame pixel (fx, fy).
    pub open spec fn of(self, f: Frame, fx: int, fy: int) -> bool {
        &&& self.bgra@ == loupe_bytes(f, fx, fy)
        &&& self.info@ == info_of(f, fx, fy)
        &&& self.color@ == color_of(f, fx, fy)
    }
}

fn framed_box(x: i64, y: i64) -> (r: bool)
    ensures
        r == on_box(x as int, y as int),
{
    let lo: i64 = LOUPE_PX / 2 - LOUPE_ZOOM / 2;
    let hi: i64 = LOUPE_PX / 2 + LOUPE_ZOOM / 2 - 1;
    ((y == lo || y == hi) && lo <= x && x <= hi) || ((x == lo || x == hi) && lo <= y && y <= hi)
}

/// The loupe round frame pixel (fx, fy).
pub fn loupe_image(f: &Frame, fx: i64, fy: i64) -> (r: Loupe)
    requires
        f.wf(),
        -PIXEL_FAR <= fx <= PIXEL_FAR,
        -PIXEL_FAR <= fy <= PIXEL_FAR,
    ensures
        r.of(*f, fx as int, fy as int),
{
    let ghost want = loupe_bytes(*f, fx as int, fy as int);
    let mut out: Vec<u8> = Vec::new();
    let mut n: i64 = 0;
    while n < LOUPE_PX * LOUPE_PX
        invariant
            f.wf(),
            -PIXEL_FAR <= fx <= PIXEL_FAR,
            -PIXEL_FAR <= fy <= PIXEL_FAR,
            want == loupe_bytes(*f, fx as int, fy as int),
            0 <= n <= LOUPE_PX * LOUPE_PX,
            out@.len() == 4 * n,
            forall|i: int| 0 <= i < out@.len() ==> out@[i] == #[trigger] want[i],
        decreases LOUPE_PX * LOUPE_PX - n,
    {
        let x: i64 = n % LOUPE_PX;
        let y: i64 = n / LOUPE_PX;
        let p: [u8; 4] = if framed_box(x, y) {
            [255u8, 255u8, 255u8, 242u8]
        } else {
            f.pixel(fx + x / LOUPE_ZOOM - LOUPE_SRC / 2, fy + y / LOUPE_ZOOM - LOUPE_SRC / 2)
        };
        let ghost before = out@;
        proof {
            assert(p@ =~= loupe_pixel(*f, fx as int, fy as int, x as int, y as int));
        }
        out.push(p[0]);
        out.push(p[1]);
        out.push(p[2]);
        out.push(p[3]);
        proof {
            assert forall|i: int| 0 <= i < out@.len() implies out@[i] == #[trigger] want[i] by {
                if i < before.len() {
                    assert(before[i] == want[i]);
                } else {
                    assert(i / 4 == n);
                    assert(out@[i] == p@[i % 4]);
                }
            }
        }
        n = n + 1;
    }
    assert(out@ =~= want);
    let c = f.pixel(fx, fy);
    let mut color: String = "#".to_owned();
    push_hex(&mut color, c[2]);
    push_hex(&mut color, c[1]);
    push_hex(&mut color, c[0]);
    let mut info: String = String::new();
    push_signed(&mut info, fx);
    info.append(", ");
    push_signed(&mut info, fy);
    info.append("  ");
    info.append(color.as_str());
    assert(info@ =~= info_of(*f, fx as int, fy as int));
    Loupe { bgra: out, info, color }
}

/// The loupe shows each pixel of the frame as a block of eight by eight,
/// the one under the pointer in the middle, with nine to each side of it;
/// only the box round the middle is drawn over them.
pub proof fn law_loupe_shows(f: Frame, fx: int, fy: int, dx: int, dy: int, a: int, b: int)
    requires
        -9 <= dx <= 9 && -9 <= dy <= 9,
        0 <= a < 8 && 0 <= b < 8,
    ensures
        dx != 0 || dy != 0 || (0 < a < 7 && 0 < b < 7) ==> loupe_pixel(
            f,
            fx,
            fy,
            8 * (dx + 9) + a,
            8 * (dy + 9) + b,
        ) == f.sample(fx + dx, fy + dy),
        dx == 0 && dy == 0 && !(0 < a < 7 && 0 < b < 7) ==> loupe_pixel(
            f,
            fx,
            fy,
            8 * (dx + 9) + a,
            8 * (dy + 9) + b,
        ) == seq![255u8, 255u8, 255u8, 242u8],
{
    let (x, y) = (8 * (dx + 9) + a, 8 * (dy + 9) + b);
    assert(x / 8 == dx + 9 && y / 8 == dy + 9);
}

/// A pixel of the frame is the four bytes of its place, opaque; beyond the
/// frame there is one dark colour.
pub proof fn law_sample(f: Frame, x: int, y: int)
    ensures
        f.sample(x, y).len() == 4,
        0 <= x < f.width && 0 <= y < f.height ==> {
            &&& f.sample(x, y)[0] == f.bgra@[4 * (y * f.width + x)]
            &&& f.sample(x, y)[1] == f.bgra@[4 * (y * f.width + x) + 1]
            &&& f.sample(x, y)[2] == f.bgra@[4 * (y * f.width + x) + 2]
        },
        f.sample(x, y)[3] == 255,
        !(0 <= x < f.width && 0 <= y < f.height) ==> f.sample(x, y) == f.sample(-1, -1),
{
}

/// The colour that the loupe names reads as the pixel's: the third byte is
/// red, the second green and the first blue.
pub proof fn law_loupe_color(f: Frame, fx: int, fy: int)
    ensures
        crate::action::color_of(color_of(f, fx, fy)) == (crate::canvas::Pixel {
            r: f.sample(fx, fy)[2],
            g: f.sample(fx, fy)[1],
            b: f.sample(fx, fy)[0],
            a: 255,
        }),
{
    reveal_strlit("#");
    let p = f.sample(fx, fy);
    assert("#"@ =~= seq!['#']);
    crate::action::law_color_reads(p[2], p[1], p[0]);
}

} // verus!
