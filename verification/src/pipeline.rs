//! From a grabbed frame to a saved capture: regions, crops, names and
//! the decoded image that is kept for the editor.

use vstd::prelude::*;
use crate::canvas::{pixels_in, rgba_of, Canvas};
use crate::codec::{bytes_or, holds, labelled, png_adaptive, screenshot_bytes};
use crate::geom::{clamp_of, clamped, least, max_of, min_of, most, Point, PX};
use crate::text::{decimal, lemma_decimal_injective, number_of, pad, padded, push_decimal, replace, replaced, same};

verus! {

/// A region in frame pixels.
#[derive(Clone, Copy, Debug, PartialEq, Eq, Structural)]
pub struct Region {
    pub x: u32,
    pub y: u32,
    pub width: u32,
    pub height: u32,
}

impl Default for Region {
    fn default() -> (r: Region)
        ensures
            r == (Region { x: 0, y: 0, width: 0, height: 0 }),
    {
        Region { x: 0, y: 0, width: 0, height: 0 }
    }
}

impl Region {
    /// The region between two corners, whichever way they were dragged,
    /// clamped to a `max_w` by `max_h` frame.
    pub fn from_corners(a: Point, b: Point, max_w: u32, max_h: u32) -> (r: Region)
        ensures
            ({
                let x = clamp_of(min_of(a.x as int, b.x as int), 0, max_w * PX);
                let y = clamp_of(min_of(a.y as int, b.y as int), 0, max_h * PX);
                let right = clamp_of(max_of(a.x as int, b.x as int), 0, max_w * PX);
                let bottom = clamp_of(max_of(a.y as int, b.y as int), 0, max_h * PX);
                &&& r.x == x / PX as int
                &&& r.y == y / PX as int
                &&& r.width == (right - x) / PX as int
                &&& r.height == (bottom - y) / PX as int
            }),
            r.x + r.width <= max_w,
            r.y + r.height <= max_h,
    {
        let mw: i64 = max_w as i64 * PX;
        let mh: i64 = max_h as i64 * PX;
        let x: i64 = clamped(least(a.x, b.x), 0, mw);
        let y: i64 = clamped(least(a.y, b.y), 0, mh);
        let right: i64 = clamped(most(a.x, b.x), 0, mw);
        let bottom: i64 = clamped(most(a.y, b.y), 0, mh);
        Region {
            x: (x / PX) as u32,
            y: (y / PX) as u32,
            width: ((right - x) / PX) as u32,
            height: ((bottom - y) / PX) as u32,
        }
    }
}

/// Is the region not empty and inside the frame?
pub open spec fn inside(width: u32, height: u32, r: Region) -> bool {
    r.width > 0 && r.height > 0 && r.x + r.width <= width && r.y + r.height <= height
}

/// Why a region is not taken.
pub open spec fn region_error(width: u32, height: u32, r: Region) -> Seq<char> {
    if r.width == 0 || r.height == 0 {
        "empty capture region"@
    } else {
        "region "@ + decimal(r.width as nat) + "x"@ + decimal(r.height as nat) + "+"@ + decimal(
            r.x as nat,
        ) + "+"@ + decimal(r.y as nat) + " outside frame "@ + decimal(width as nat) + "x"@
            + decimal(height as nat)
    }
}

/// Check that a region is not empty and lies inside the frame.
pub fn check_region(width: u32, height: u32, region: Region) -> (r: Result<(), String>)
    ensures
        match r {
            Ok(_) => inside(width, height, region),
            Err(e) => !inside(width, height, region) && e@ == region_error(width, height, region),
        },
{
    if region.width == 0 || region.height == 0 {
        return Err("empty capture region".to_owned());
    }
    if region.x as u64 + region.width as u64 > width as u64 || region.y as u64
        + region.height as u64 > height as u64 {
        let mut e = "region ".to_owned();
        push_decimal(&mut e, region.width as u64);
        e.append("x");
        push_decimal(&mut e, region.height as u64);
        e.append("+");
        push_decimal(&mut e, region.x as u64);
        e.append("+");
        push_decimal(&mut e, region.y as u64);
        e.append(" outside frame ");
        push_decimal(&mut e, width as u64);
        e.append("x");
        push_decimal(&mut e, height as u64);
        return Err(e);
    }
    Ok(())
}

/// The first byte of pixel (x, y) in a frame `width` pixels wide.
pub open spec fn offset(width: int, x: int, y: int) -> int {
    (y * width + x) * 4
}

/// The byte at place `k` of the pixel, as it comes or with the first and
/// third swapped.
pub open spec fn byte_place(k: int, swap: bool) -> int {
    if swap && (k == 0 || k == 2) {
        2 - k
    } else {
        k
    }
}

/// The bytes of a region, row after row.
pub open spec fn cropped(frame: Seq<u8>, width: u32, r: Region, swap: bool) -> Seq<u8> {
    Seq::new(
        (4 * (r.width * r.height)) as nat,
        |i: int|
            frame[offset(
                width as int,
                r.x + (i / 4) % (r.width as int),
                r.y + (i / 4) / (r.width as int),
            ) + byte_place(i % 4, swap)],
    )
}

/// A region of a region of the frame.
pub open spec fn within(a: Region, b: Region) -> Region {
    Region {
        x: (a.x + b.x) as u32,
        y: (a.y + b.y) as u32,
        width: b.width,
        height: b.height,
    }
}

/// The column and row of byte `i` of a region.
proof fn lemma_cell(w: int, h: int, i: int)
    requires
        w > 0,
        h > 0,
        0 <= i < 4 * (w * h),
    ensures
        0 <= (i / 4) % w < w,
        0 <= (i / 4) / w < h,
        i == offset(w, (i / 4) % w, (i / 4) / w) + i % 4,
{
    let n = i / 4;
    assert(0 <= n % w < w && n == (n / w) * w + n % w) by (nonlinear_arith)
        requires
            w > 0,
    ;
    assert(0 <= n / w < h) by (nonlinear_arith)
        requires
            w > 0,
            0 <= n < w * h,
    ;
}

/// The byte `k` of the pixel in column `x` and row `y` of a region.
proof fn lemma_cell_at(w: int, h: int, x: int, y: int, k: int)
    requires
        0 <= x < w,
        0 <= y < h,
        0 <= k < 4,
    ensures
        ({
            let j = offset(w, x, y) + k;
            &&& 0 <= j < 4 * (w * h)
            &&& (j / 4) % w == x
            &&& (j / 4) / w == y
            &&& j % 4 == k
        }),
{
    let j = offset(w, x, y) + k;
    let n = y * w + x;
    assert(j / 4 == n);
    vstd::arithmetic::div_mod::lemma_fundamental_div_mod_converse(n, w, y, x);
    assert(y * w + w <= w * h) by (nonlinear_arith)
        requires
            0 <= y < h,
            0 < w,
    ;
    assert(0 <= y * w) by (nonlinear_arith)
        requires
            0 <= y,
            0 < w,
    ;
}

/// Cutting a region out of what was cut out gives what cutting it out of
/// the frame gives, and what is inside the one is inside the other.
pub proof fn law_crop_of_crop(frame: Seq<u8>, width: u32, height: u32, a: Region, b: Region)
    requires
        inside(width, height, a),
        inside(a.width, a.height, b),
    ensures
        inside(width, height, within(a, b)),
        cropped(cropped(frame, width, a, false), a.width, b, false) == cropped(
            frame,
            width,
            within(a, b),
            false,
        ),
{
    let first = cropped(frame, width, a, false);
    let twice = cropped(first, a.width, b, false);
    let once = cropped(frame, width, within(a, b), false);
    let (aw, ah) = (a.width as int, a.height as int);
    let (bw, bh) = (b.width as int, b.height as int);
    assert forall|i: int| 0 <= i < twice.len() implies twice[i] == once[i] by {
        lemma_cell(bw, bh, i);
        lemma_cell_at(aw, ah, b.x + (i / 4) % bw, b.y + (i / 4) / bw, i % 4);
    }
    assert(twice =~= once);
}

/// Cutting the whole frame out gives the frame.
pub proof fn law_crop_whole(frame: Seq<u8>, width: u32, height: u32)
    requires
        width > 0,
        height > 0,
        frame.len() == 4 * (width * height),
    ensures
        cropped(frame, width, (Region { x: 0, y: 0, width, height }), false) == frame,
{
    let whole = cropped(frame, width, Region { x: 0, y: 0, width, height }, false);
    assert forall|i: int| 0 <= i < frame.len() implies whole[i] == frame[i] by {
        lemma_cell(width as int, height as int, i);
    }
    assert(whole =~= frame);
}

/// The frame has every byte of the region.
pub open spec fn has_bytes(frame: Seq<u8>, width: u32, height: u32, r: Region) -> bool {
    inside(width, height, r) ==> offset(width as int, r.x + r.width, r.y + r.height - 1)
        <= frame.len()
}

/// The rows of a region, each pixel's bytes as they come or swapped.
fn crop_rows(frame: &[u8], width: u32, height: u32, region: Region, swap: bool) -> (r: Result<
    Vec<u8>,
    String,
>)
    requires
        has_bytes(frame@, width, height, region),
    ensures
        match r {
            Ok(b) => inside(width, height, region) && b@ == cropped(frame@, width, region, swap),
            Err(e) => !inside(width, height, region) && e@ == region_error(width, height, region),
        },
{
    match check_region(width, height, region) {
        Err(e) => {
            return Err(e);
        },
        Ok(_) => {},
    }
    let ghost want = cropped(frame@, width, region, swap);
    let rw: u32 = region.width;
    let mut buf: Vec<u8> = Vec::new();
    let mut y: u32 = 0;
    while y < region.height
        invariant
            inside(width, height, region),
            offset(width as int, region.x + region.width, region.y + region.height - 1)
                <= frame@.len(),
            rw == region.width,
            want == cropped(frame@, width, region, swap),
            y <= region.height,
            buf@.len() == 4 * (y * rw),
            forall|i: int| 0 <= i < buf@.len() ==> buf@[i] == #[trigger] want[i],
        decreases region.height - y,
    {
        let mut x: u32 = 0;
        while x < rw
            invariant
                inside(width, height, region),
                offset(width as int, region.x + region.width, region.y + region.height - 1)
                    <= frame@.len(),
                rw == region.width,
                want == cropped(frame@, width, region, swap),
                y < region.height,
                x <= rw,
                buf@.len() == 4 * (y * rw + x),
                forall|i: int| 0 <= i < buf@.len() ==> buf@[i] == #[trigger] want[i],
            decreases rw - x,
        {
            let ghost row = (region.y + y) as int;
            let ghost col = (region.x + x) as int;
            let ghost at = y * rw + x;
            proof {
                let last = (region.y + region.height - 1) as int;
                assert(row * width <= last * width) by (nonlinear_arith)
                    requires
                        row <= last,
                        0 <= width,
                ;
                assert(0 <= row * width) by (nonlinear_arith)
                    requires
                        0 <= row,
                        0 <= width,
                ;
                assert(frame@.len() == frame.len());
                assert(at / rw as int == y && at % rw as int == x) by (nonlinear_arith)
                    requires
                        at == y * rw + x,
                        0 <= x < rw,
                        0 <= y,
                ;
                assert(0 <= at < rw * region.height) by (nonlinear_arith)
                    requires
                        at == y * rw + x,
                        0 <= x < rw,
                        0 <= y < region.height,
                ;
            }
            let o: usize = ((region.y + y) as usize * width as usize + (region.x + x) as usize) * 4;
            let ghost before = buf@;
            buf.push(
                if swap {
                    frame[o + 2]
                } else {
                    frame[o]
                },
            );
            buf.push(frame[o + 1]);
            buf.push(
                if swap {
                    frame[o]
                } else {
                    frame[o + 2]
                },
            );
            buf.push(frame[o + 3]);
            proof {
                assert(o == offset(width as int, col, row));
                assert forall|i: int| 0 <= i < buf@.len() implies buf@[i] == #[trigger] want[i] by {
                    if i < before.len() {
                        assert(before[i] == want[i]);
                    } else {
                        assert(i / 4 == at);
                    }
                }
            }
            x = x + 1;
        }
        proof {
            assert((y + 1) * rw == y * rw + rw) by (nonlinear_arith);
        }
        y = y + 1;
    }
    proof {
        assert(region.height * rw == rw * region.height) by (nonlinear_arith);
        assert(buf@ =~= want);
    }
    Ok(buf)
}

/// Crop a region out of a BGRA frame, byte for byte.
pub fn crop_bgra(bgra: &[u8], width: u32, height: u32, region: Region) -> (r: Result<
    Vec<u8>,
    String,
>)
    requires
        has_bytes(bgra@, width, height, region),
    ensures
        match r {
            Ok(b) => inside(width, height, region) && b@ == cropped(bgra@, width, region, false),
            Err(e) => !inside(width, height, region) && e@ == region_error(width, height, region),
        },
{
    crop_rows(bgra, width, height, region, false)
}

/// Crop a region out of a BGRA frame into RGBA bytes.
pub fn crop_bgra_to_rgba(bgra: &[u8], width: u32, height: u32, region: Region) -> (r: Result<
    Vec<u8>,
    String,
>)
    requires
        has_bytes(bgra@, width, height, region),
    ensures
        match r {
            Ok(b) => inside(width, height, region) && b@ == cropped(bgra@, width, region, true),
            Err(e) => !inside(width, height, region) && e@ == region_error(width, height, region),
        },
{
    crop_rows(bgra, width, height, region, true)
}

/// The region of a BGRA frame as an image.
pub fn finalize_bgra(bgra: &[u8], width: u32, height: u32, region: Region) -> (r: Result<
    Canvas,
    String,
>)
    requires
        has_bytes(bgra@, width, height, region),
    ensures
        match r {
            Ok(c) => inside(width, height, region) && c.wf() && c.width == region.width && c.height
                == region.height && c.pixels@ == pixels_in(cropped(bgra@, width, region, true)),
            Err(e) => !inside(width, height, region) && e@ == region_error(width, height, region),
        },
{
    match crop_bgra_to_rgba(bgra, width, height, region) {
        Ok(rgba) => match Canvas::from_rgba(region.width, region.height, &rgba) {
            Some(c) => Ok(c),
            None => Err("crop buffer size mismatch".to_owned()),
        },
        Err(e) => Err(e),
    }
}

/// A moment of the local time.
#[derive(Clone, Copy, Debug, PartialEq, Eq, Structural)]
pub struct Moment {
    pub year: u64,
    pub month: u64,
    pub day: u64,
    pub hour: u64,
    pub minute: u64,
    pub second: u64,
}

/// Three numbers, padded and joined.
pub open spec fn dashed(a: nat, wide: nat, b: nat, c: nat) -> Seq<char> {
    padded(a, wide) + "-"@ + padded(b, 2) + "-"@ + padded(c, 2)
}

fn dash(a: u64, wide: usize, b: u64, c: u64) -> (r: String)
    ensures
        r@ == dashed(a as nat, wide as nat, b as nat, c as nat),
{
    pad(a, wide).concat("-").concat(pad(b, 2).as_str()).concat("-").concat(pad(c, 2).as_str())
}

/// The name of a capture: the template with the date and the time put in.
pub open spec fn shot_name(template: Seq<char>, m: Moment) -> Seq<char> {
    replaced(
        replaced(template, "{date}"@, dashed(m.year as nat, 4, m.month as nat, m.day as nat)),
        "{time}"@,
        dashed(m.hour as nat, 2, m.minute as nat, m.second as nat),
    )
}

/// The name of a capture taken at this moment.
pub fn screenshot_name(template: &str, m: Moment) -> (r: String)
    ensures
        r@ == shot_name(template@, m),
{
    proof {
        reveal_strlit("{date}");
        reveal_strlit("{time}");
    }
    let dated = replace(template, "{date}", dash(m.year, 4, m.month, m.day).as_str());
    replace(dated.as_str(), "{time}", dash(m.hour, 2, m.minute, m.second).as_str())
}

/// The `n`th file name for a capture: the first has no number.
pub open spec fn candidate_of(name: Seq<char>, n: nat) -> Seq<char> {
    if n < 2 {
        name + ".png"@
    } else {
        name + "-"@ + decimal(n) + ".png"@
    }
}

/// The `n`th file name for a capture.
pub fn candidate(name: &str, n: u64) -> (r: String)
    ensures
        r@ == candidate_of(name@, n as nat),
{
    if n < 2 {
        name.to_owned().concat(".png")
    } else {
        let mut r: String = name.to_owned();
        r.append("-");
        push_decimal(&mut r, n);
        r.append(".png");
        r
    }
}

/// No two file names of a capture are the same.
pub proof fn law_candidates_differ(name: Seq<char>, a: nat, b: nat)
    requires
        1 <= a < b,
    ensures
        candidate_of(name, a) != candidate_of(name, b),
{
    reveal_strlit(".png");
    reveal_strlit("-");
    let x = candidate_of(name, a);
    let y = candidate_of(name, b);
    if x == y {
        let k = name.len() as int;
        assert(y[k] == '-');
        if a < 2 {
            assert(x[k] == '.');
        } else {
            let m = x.len() as int - 4;
            assert(x.subrange(k + 1, m) =~= decimal(a));
            assert(y.subrange(k + 1, m) =~= decimal(b));
            lemma_decimal_injective(a, b);
        }
    }
}

/// Is this file name taken?
pub open spec fn is_taken(taken: Seq<String>, name: Seq<char>) -> bool {
    exists|i: int| 0 <= i < taken.len() && #[trigger] taken[i]@ == name
}

fn has_name(taken: &Vec<String>, name: &str) -> (r: bool)
    ensures
        r == is_taken(taken@, name@),
{
    let mut i: usize = 0;
    while i < taken.len()
        invariant
            i <= taken@.len(),
            forall|j: int| 0 <= j < i ==> (#[trigger] taken@[j])@ != name@,
        decreases taken@.len() - i,
    {
        if same(taken[i].as_str(), name) {
            assert(taken@[i as int]@ == name@);
            return true;
        }
        i = i + 1;
    }
    false
}

/// Of one name more than there are taken ones, one is free.
proof fn lemma_one_is_free(taken: Seq<String>, name: Seq<char>)
    ensures
        exists|n: nat| 1 <= n <= taken.len() + 1 && !is_taken(taken, #[trigger] candidate_of(name, n)),
{
    if forall|n: nat|
        1 <= n <= taken.len() + 1 ==> is_taken(taken, #[trigger] candidate_of(name, n)) {
        let all = Seq::new((taken.len() + 1) as nat, |i: int| candidate_of(name, (i + 1) as nat));
        let names = taken.map_values(|t: String| t@);
        assert(all.no_duplicates()) by {
            assert forall|i: int, j: int| 0 <= i < all.len() && 0 <= j < all.len() && i != j implies all[i]
                != all[j] by {
                if i < j {
                    law_candidates_differ(name, (i + 1) as nat, (j + 1) as nat);
                } else {
                    law_candidates_differ(name, (j + 1) as nat, (i + 1) as nat);
                }
            }
        }
        all.unique_seq_to_set();
        names.lemma_cardinality_of_set();
        assert forall|s: Seq<char>| all.to_set().contains(s) implies names.to_set().contains(s) by {
            let i = choose|i: int| 0 <= i < all.len() && all[i] == s;
            assert(is_taken(taken, candidate_of(name, (i + 1) as nat)));
            let j = choose|j: int| 0 <= j < taken.len() && #[trigger] taken[j]@ == s;
            assert(names[j] == s);
        }
        vstd::set_lib::lemma_len_subset(all.to_set(), names.to_set());
    }
}

/// The first file name of a capture that is not taken.
pub fn unique_path(name: &str, taken: &Vec<String>) -> (r: String)
    requires
        taken@.len() < u64::MAX,
    ensures
        !is_taken(taken@, r@),
        exists|n: nat|
            1 <= n && r@ == #[trigger] candidate_of(name@, n) && forall|k: nat|
                1 <= k < n ==> is_taken(taken@, #[trigger] candidate_of(name@, k)),
{
    let mut n: u64 = 1;
    let most: u64 = taken.len() as u64 + 1;
    while n < most
        invariant
            1 <= n <= most,
            most == taken@.len() + 1,
            forall|k: nat| 1 <= k < n ==> is_taken(taken@, #[trigger] candidate_of(name@, k)),
        decreases most - n,
    {
        let c = candidate(name, n);
        if !has_name(taken, c.as_str()) {
            return c;
        }
        n = n + 1;
    }
    proof {
        lemma_one_is_free(taken@, name@);
        let free = choose|f: nat|
            1 <= f <= taken@.len() + 1 && !is_taken(taken@, #[trigger] candidate_of(name@, f));
        assert(free == n);
    }
    candidate(name, n)
}

/// The latest capture's image, kept by its path so that the editor and
/// the toast need not decode it again.
pub struct Stash {
    pub slot: Option<(String, Canvas)>,
}

impl Stash {
    /// The image that is kept for this path.
    pub open spec fn kept(self, path: Seq<char>) -> Option<Canvas> {
        match self.slot {
            Some(s) => if s.0@ == path {
                Some(s.1)
            } else {
                None
            },
            None => None,
        }
    }

    pub fn new() -> (r: Stash)
        ensures
            r.slot is None,
    {
        Stash { slot: None }
    }
}

/// Keep a capture's image, in place of the last one's.
pub fn stash_decoded(stash: &mut Stash, path: String, img: Canvas)
    ensures
        final(stash).slot == Some((path, img)),
        final(stash).kept(path@) == Some(img),
        forall|other: Seq<char>| other != path@ ==> final(stash).kept(other) is None,
{
    stash.slot = Some((path, img));
}

/// Take the image that is kept for this path; another one stays.
pub fn take_decoded(stash: &mut Stash, path: &str) -> (r: Option<Canvas>)
    ensures
        r == old(stash).kept(path@),
        final(stash).slot == (if r is Some {
            None
        } else {
            old(stash).slot
        }),
{
    let hit = match &stash.slot {
        Some(s) => same(s.0.as_str(), path),
        None => false,
    };
    if hit {
        match stash.slot.take() {
            Some(s) => Some(s.1),
            None => None,
        }
    } else {
        None
    }
}

/// The image that is kept for this path. It stays for the next reader.
pub fn peek_decoded<'a>(stash: &'a Stash, path: &str) -> (r: Option<&'a Canvas>)
    ensures
        match r {
            Some(c) => stash.kept(path@) == Some(*c),
            None => stash.kept(path@) is None,
        },
{
    match &stash.slot {
        Some(s) => {
            if same(s.0.as_str(), path) {
                Some(&s.1)
            } else {
                None
            }
        },
        None => None,
    }
}

/// The bytes of a capture's file. Its image is kept for the editor and the
/// toast, whether or not it could be encoded.
pub fn finalize(stash: &mut Stash, img: Canvas, path: String) -> (r: Result<Vec<u8>, String>)
    requires
        img.wf(),
    ensures
        bytes_or(r) == labelled(
            png_adaptive(rgba_of(img.pixels@), img.width, img.height),
            "encode screenshot"@,
        ),
        r is Ok <==> img.width > 0 && img.height > 0,
        r matches Ok(b) ==> holds(b@, img),
        final(stash).slot == Some((path, img)),
{
    let r = screenshot_bytes(&img);
    stash_decoded(stash, path, img);
    r
}

/// A crop holds the pixels of the region, row by row, byte for byte; as
/// RGBA, with red and blue in each other's place.
pub proof fn law_crop_pixels(frame: Seq<u8>, width: u32, height: u32, r: Region, x: int, y: int)
    requires
        inside(width, height, r),
        0 <= x < r.width && 0 <= y < r.height,
    ensures
        ({
            let at = 4 * (y * r.width + x);
            let from = 4 * ((r.y + y) * width + r.x + x);
            let (b, c) = (cropped(frame, width, r, false), cropped(frame, width, r, true));
            &&& b.len() == 4 * (r.width * r.height) && c.len() == b.len()
            &&& b[at] == frame[from] && b[at + 1] == frame[from + 1]
            &&& b[at + 2] == frame[from + 2] && b[at + 3] == frame[from + 3]
            &&& c[at] == frame[from + 2] && c[at + 1] == frame[from + 1]
            &&& c[at + 2] == frame[from] && c[at + 3] == frame[from + 3]
            &&& pixels_in(c)[y * r.width + x] == (crate::canvas::Pixel {
                r: frame[from + 2],
                g: frame[from + 1],
                b: frame[from],
                a: frame[from + 3],
            })
        }),
{
    let w = r.width as int;
    let i = y * w + x;
    assert(0 <= i < w * r.height) by (nonlinear_arith)
        requires
            i == y * w + x,
            0 <= x < w,
            0 <= y < r.height,
    ;
    assert(i % w == x && i / w == y) by (nonlinear_arith)
        requires
            i == y * w + x,
            0 <= x < w,
            0 <= y,
    ;
    let at = 4 * i;
    assert(at / 4 == i && (at + 1) / 4 == i && (at + 2) / 4 == i && (at + 3) / 4 == i);
    assert(at % 4 == 0 && (at + 1) % 4 == 1 && (at + 2) % 4 == 2 && (at + 3) % 4 == 3);
}

/// The first name that is tried is the name itself, and the others count
/// up from two behind it.
pub proof fn law_candidates(name: Seq<char>, n: nat)
    ensures
        candidate_of(name, 1) == name + ".png"@,
        n >= 2 ==> candidate_of(name, n) == name + "-"@ + decimal(n) + ".png"@,
{
}

/// The date and the time in a name: four digits of the year, then two of
/// the month and the day, and two each of hour, minute and second.
pub proof fn law_dated(a: nat, b: nat, c: nat)
    requires
        a < 10_000 && b < 100 && c < 100,
    ensures
        ({
            let d = dashed(a, 4, b, c);
            &&& d.len() == 10 && d[4] == '-' && d[7] == '-'
            &&& number_of(d.subrange(0, 4)) == Some(a as u64)
            &&& number_of(d.subrange(5, 7)) == Some(b as u64)
            &&& number_of(d.subrange(8, 10)) == Some(c as u64)
        }),
        a < 100 ==> ({
            let t = dashed(a, 2, b, c);
            &&& t.len() == 8 && t[2] == '-' && t[5] == '-'
            &&& number_of(t.subrange(0, 2)) == Some(a as u64)
            &&& number_of(t.subrange(3, 5)) == Some(b as u64)
            &&& number_of(t.subrange(6, 8)) == Some(c as u64)
        }),
{
    reveal_strlit("-");
    lemma_padded_reads(a, 4);
    lemma_padded_reads(b, 2);
    lemma_padded_reads(c, 2);
    let d = dashed(a, 4, b, c);
    assert(d.subrange(0, 4) =~= padded(a, 4));
    assert(d.subrange(5, 7) =~= padded(b, 2));
    assert(d.subrange(8, 10) =~= padded(c, 2));
    if a < 100 {
        lemma_padded_reads(a, 2);
        let t = dashed(a, 2, b, c);
        assert(t.subrange(0, 2) =~= padded(a, 2));
        assert(t.subrange(3, 5) =~= padded(b, 2));
        assert(t.subrange(6, 8) =~= padded(c, 2));
    }
}

proof fn lemma_padded_reads(n: nat, width: nat)
    requires
        width == 2 && n < 100 || width == 4 && n < 10_000,
    ensures
        padded(n, width).len() == width,
        number_of(padded(n, width)) == Some(n as u64),
{
    reveal_with_fuel(decimal, 5);
    reveal_with_fuel(crate::text::number_prefix, 5);
    let p = padded(n, width);
    assert(p[0] != '+');
    assert(crate::text::number_prefix(p, width as int) == Some(n as int));
}

proof fn lemma_dashed_plain(a: nat, wide: nat, b: nat, c: nat, pat: Seq<char>)
    requires
        a <= u64::MAX && b <= u64::MAX && c <= u64::MAX,
        pat.len() > 0 && pat[0] == '{',
    ensures
        !crate::text::occurs(dashed(a, wide, b, c), pat),
{
    reveal_strlit("-");
    crate::text::law_decimal_reads(a as u64);
    crate::text::law_decimal_reads(b as u64);
    crate::text::law_decimal_reads(c as u64);
    crate::text::law_padded(a, wide);
    crate::text::law_padded(b, 2);
    crate::text::law_padded(c, 2);
    let d = dashed(a, wide, b, c);
    assert forall|i: int| 0 <= i < d.len() implies #[trigger] d[i] != '{' by {
        lemma_padded_plain(a, wide);
        lemma_padded_plain(b, 2);
        lemma_padded_plain(c, 2);
        let (p, q, r) = (padded(a, wide), padded(b, 2), padded(c, 2));
        let n = p.len() as int;
        let m = n + 1 + q.len();
        if i < n {
            assert(d[i] == p[i]);
        } else if i == n {
        } else if i < m {
            assert(d[i] == q[i - n - 1]);
        } else if i == m {
        } else {
            assert(d[i] == r[i - m - 1]);
        }
    }
    if crate::text::occurs(d, pat) {
        let i = choose|i: int| #[trigger] crate::text::stands_at(d, pat, i);
        assert(d.subrange(i, i + pat.len())[0] == d[i]);
    }
}

proof fn lemma_padded_plain(n: nat, width: nat)
    requires
        n <= u64::MAX,
    ensures
        forall|i: int| 0 <= i < padded(n, width).len() ==> #[trigger] padded(n, width)[i] != '{',
{
    crate::text::law_decimal_reads(n as u64);
    let d = decimal(n);
    let p = padded(n, width);
    assert forall|i: int| 0 <= i < p.len() implies #[trigger] p[i] != '{' by {
        let z = p.len() - d.len();
        if i >= z {
            assert(p[i] == d[i - z]);
        }
    }
}

/// A name has the date where its template says so, and the time where it
/// says that; a template with neither is the name.
pub proof fn law_shot_name(template: Seq<char>, m: Moment)
    ensures
        shot_name("{date}"@, m) == dashed(m.year as nat, 4, m.month as nat, m.day as nat),
        shot_name("{time}"@, m) == dashed(m.hour as nat, 2, m.minute as nat, m.second as nat),
        !crate::text::occurs(template, "{date}"@) && !crate::text::occurs(template, "{time}"@)
            ==> shot_name(template, m) == template,
{
    reveal_strlit("{date}");
    reveal_strlit("{time}");
    let (d, t) = ("{date}"@, "{time}"@);
    let date = dashed(m.year as nat, 4, m.month as nat, m.day as nat);
    let time = dashed(m.hour as nat, 2, m.minute as nat, m.second as nat);
    let e = Seq::<char>::empty();
    assert(d.len() == 6 && t.len() == 6 && d[1] == 'd' && t[1] == 't');
    lemma_dashed_plain(m.year as nat, 4, m.month as nat, m.day as nat, t);
    crate::text::law_replaced(date, t, time);
    crate::text::law_replaced(e, d, date);
    crate::text::law_replaced(e, t, time);
    assert(d + e =~= d && t + e =~= t && date + e =~= date && time + e =~= time);
    if crate::text::occurs(t, d) {
        let i = choose|i: int| #[trigger] crate::text::stands_at(t, d, i);
        assert(t.subrange(i, i + d.len())[1] == t[i + 1]);
    }
    crate::text::law_replaced(t, d, date);
    crate::text::law_replaced(template, d, date);
    crate::text::law_replaced(template, t, time);
}

/// A region that is refused for its place is told with its size, where it
/// starts and the size of the frame; an empty one is told as such.
pub proof fn law_region_error(width: u32, height: u32, r: Region)
    ensures
        r.width == 0 || r.height == 0 ==> region_error(width, height, r) == "empty capture region"@,
        r.width > 0 && r.height > 0 ==> ({
            let size = decimal(r.width as nat) + "x"@ + decimal(r.height as nat);
            let start = "+"@ + decimal(r.x as nat) + "+"@ + decimal(r.y as nat);
            let frame = decimal(width as nat) + "x"@ + decimal(height as nat);
            region_error(width, height, r) == "region "@ + size + start + " outside frame "@ + frame
        }),
{
    let size = decimal(r.width as nat) + "x"@ + decimal(r.height as nat);
    let start = "+"@ + decimal(r.x as nat) + "+"@ + decimal(r.y as nat);
    let frame = decimal(width as nat) + "x"@ + decimal(height as nat);
    if r.width > 0 && r.height > 0 {
        assert(region_error(width, height, r) =~= "region "@ + size + start + " outside frame "@
            + frame);
    }
}

} // verus!
