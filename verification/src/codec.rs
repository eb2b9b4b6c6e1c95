//! PNG files: the header, and encoding and decoding through the image
//! crate.

use vstd::prelude::*;
use image::ImageEncoder;
use crate::canvas::{law_bytes_round, pixels_in, rgba_of, Canvas};
use crate::text::joined3;

verus! {

/// The eight bytes every PNG file begins with.
pub open spec fn signature() -> Seq<u8> {
    seq![0x89, 0x50, 0x4e, 0x47, 0x0d, 0x0a, 0x1a, 0x0a]
}

/// The number in the four bytes from place `i`, most significant first.
pub open spec fn big_endian(b: Seq<u8>, i: int) -> int {
    ((b[i] * 256 + b[i + 1]) * 256 + b[i + 2]) * 256 + b[i + 3]
}

fn word(b: &[u8], i: usize) -> (r: u32)
    requires
        i + 4 <= b@.len(),
    ensures
        r == big_endian(b@, i as int),
{
    ((b[i] as u32 * 256 + b[i + 1] as u32) * 256 + b[i + 2] as u32) * 256 + b[i + 3] as u32
}

/// Width and height as a PNG's header tells them. None: these are not the
/// first bytes of one.
pub open spec fn png_size(png: Seq<u8>) -> Option<(u32, u32)> {
    if png.len() >= 24 && png.take(8) == signature() {
        Some((big_endian(png, 16) as u32, big_endian(png, 20) as u32))
    } else {
        None
    }
}

/// Width and height from a PNG's header, without decoding.
pub fn png_dimensions(png: &[u8]) -> (r: Option<(u32, u32)>)
    ensures
        r == png_size(png@),
{
    if png.len() < 24 {
        return None;
    }
    if png[0] != 0x89 || png[1] != 0x50 || png[2] != 0x4e || png[3] != 0x47 || png[4] != 0x0d
        || png[5] != 0x0a || png[6] != 0x1a || png[7] != 0x0a {
        proof {
            if png@.take(8) == signature() {
                assert(png@[0] == png@.take(8)[0]);
                assert(png@[1] == png@.take(8)[1]);
                assert(png@[2] == png@.take(8)[2]);
                assert(png@[3] == png@.take(8)[3]);
                assert(png@[4] == png@.take(8)[4]);
                assert(png@[5] == png@.take(8)[5]);
                assert(png@[6] == png@.take(8)[6]);
                assert(png@[7] == png@.take(8)[7]);
            }
        }
        return None;
    }
    assert(png@.take(8) =~= signature());
    Some((word(png, 16), word(png, 20)))
}

/// A result with its text as a sequence.
pub open spec fn bytes_or(r: Result<Vec<u8>, String>) -> Result<Seq<u8>, Seq<char>> {
    match r {
        Ok(b) => Ok(b@),
        Err(e) => Err(e@),
    }
}

/// What `PngEncoder` writes for RGBA pixels of this size with fast
/// compression and the adaptive filter, or how its error reads.
pub uninterp spec fn png_adaptive(rgba: Seq<u8>, width: u32, height: u32) -> Result<
    Seq<u8>,
    Seq<char>,
>;

/// What `PngEncoder` writes for RGBA pixels of this size with fast
/// compression and the `Sub` filter, or how its error reads.
pub uninterp spec fn png_sub(rgba: Seq<u8>, width: u32, height: u32) -> Result<
    Seq<u8>,
    Seq<char>,
>;

/// What `load_from_memory` and `to_rgba8` make of a file's bytes: width,
/// height and RGBA pixels, or how the error reads.
pub uninterp spec fn png_decoded(file: Seq<u8>) -> Result<(u32, u32, Seq<u8>), Seq<char>>;

/// Do the file's bytes decode to these pixels?
pub open spec fn gives(file: Seq<u8>, width: u32, height: u32, rgba: Seq<u8>) -> bool {
    png_decoded(file) == Ok::<(u32, u32, Seq<u8>), Seq<char>>((width, height, rgba))
}

/// `load_from_memory` makes no more bytes of a file than this.
pub const DECODED_MOST: u64 = 536_870_912;

/// `image::codecs::png::PngEncoder::write_image`, with fast compression
/// and the adaptive filter. It panics unless there are four bytes to a
/// pixel; otherwise what it writes, or its error, depends on the pixels
/// and the size alone. It fails where a side is zero, and into memory not
/// otherwise. The file's header tells the size, and `load_from_memory`
/// gives the pixels back, as far as its limit goes.
#[verifier::external_body]
fn encode_adaptive(rgba: &Vec<u8>, width: u32, height: u32) -> (r: Result<Vec<u8>, String>)
    requires
        rgba@.len() == 4 * (width * height),
    ensures
        bytes_or(r) == png_adaptive(rgba@, width, height),
        r is Ok == (width != 0 && height != 0),
        r matches Ok(b) ==> png_size(b@) == Some((width, height)),
        r matches Ok(b) ==> (DECODED_MOST >= rgba@.len() ==> gives(b@, width, height, rgba@)),
{
    let mut out = Vec::new();
    image::codecs::png::PngEncoder::new_with_quality(
        &mut out,
        image::codecs::png::CompressionType::Fast,
        image::codecs::png::FilterType::Adaptive,
    ).write_image(rgba, width, height, image::ExtendedColorType::Rgba8).map_err(
        |e| format!("{e}"),
    )?;
    Ok(out)
}

/// `image::codecs::png::PngEncoder::write_image`, with fast compression
/// and the `Sub` filter. It panics unless there are four bytes to a
/// pixel; otherwise what it writes, or its error, depends on the pixels
/// and the size alone. It fails where a side is zero, and into memory not
/// otherwise. The file's header tells the size, and `load_from_memory`
/// gives the pixels back, as far as its limit goes.
#[verifier::external_body]
fn encode_sub(rgba: &Vec<u8>, width: u32, height: u32) -> (r: Result<Vec<u8>, String>)
    requires
        rgba@.len() == 4 * (width * height),
    ensures
        bytes_or(r) == png_sub(rgba@, width, height),
        r is Ok == (width != 0 && height != 0),
        r matches Ok(b) ==> png_size(b@) == Some((width, height)),
        r matches Ok(b) ==> (DECODED_MOST >= rgba@.len() ==> gives(b@, width, height, rgba@)),
{
    let mut out = Vec::new();
    image::codecs::png::PngEncoder::new_with_quality(
        &mut out,
        image::codecs::png::CompressionType::Fast,
        image::codecs::png::FilterType::Sub,
    ).write_image(rgba, width, height, image::ExtendedColorType::Rgba8).map_err(
        |e| format!("{e}"),
    )?;
    Ok(out)
}

/// `image::load_from_memory` and `DynamicImage::to_rgba8`: width, height
/// and RGBA pixels, four bytes to a pixel, or how the error reads. With no
/// decoding hook registered they depend on the file's bytes alone.
#[verifier::external_body]
fn load(file: &Vec<u8>) -> (r: Result<(u32, u32, Vec<u8>), String>)
    ensures
        match r {
            Ok((w, h, px)) => png_decoded(file@) == Ok::<(u32, u32, Seq<u8>), Seq<char>>(
                (w, h, px@),
            ) && px@.len() == 4 * (w * h),
            Err(e) => png_decoded(file@) == Err::<(u32, u32, Seq<u8>), Seq<char>>(e@),
        },
{
    let img = image::load_from_memory(file).map_err(|e| format!("{e}"))?.to_rgba8();
    Ok((img.width(), img.height(), img.into_raw()))
}

/// What `load_from_memory_with_format` and `to_rgba8` make of a file's
/// bytes, in the format of its path: width, height and RGBA pixels, or
/// how the error reads.
pub uninterp spec fn named_decoded(file: Seq<u8>, path: Seq<char>) -> Result<
    (u32, u32, Seq<u8>),
    Seq<char>,
>;

/// `image::load_from_memory_with_format`, in the format that
/// `image::ImageFormat::from_path` takes from the path's extension, and
/// `DynamicImage::to_rgba8`: width, height and RGBA pixels, four bytes to
/// a pixel, or how the error reads. They depend on the file's bytes and
/// its path alone.
#[verifier::external_body]
fn load_named(file: &Vec<u8>, path: &str) -> (r: Result<(u32, u32, Vec<u8>), String>)
    ensures
        match r {
            Ok((w, h, px)) => named_decoded(file@, path@) == Ok::<(u32, u32, Seq<u8>), Seq<char>>(
                (w, h, px@),
            ) && px@.len() == 4 * (w * h),
            Err(e) => named_decoded(file@, path@) == Err::<(u32, u32, Seq<u8>), Seq<char>>(e@),
        },
{
    let format = image::ImageFormat::from_path(path).map_err(|e| format!("{e}"))?;
    let img = image::load_from_memory_with_format(file, format).map_err(
        |e| format!("{e}"),
    )?.to_rgba8();
    Ok((img.width(), img.height(), img.into_raw()))
}

/// An error with what was done in front of it.
pub open spec fn labelled(r: Result<Seq<u8>, Seq<char>>, what: Seq<char>) -> Result<
    Seq<u8>,
    Seq<char>,
> {
    match r {
        Ok(b) => Ok(b),
        Err(e) => Err(what + ": "@ + e),
    }
}

/// Put what was done in front of an error.
pub fn label_error(r: Result<Vec<u8>, String>, what: &str) -> (out: Result<Vec<u8>, String>)
    ensures
        bytes_or(out) == labelled(bytes_or(r), what@),
{
    match r {
        Ok(b) => Ok(b),
        Err(e) => Err(joined3(what, ": ", e.as_str())),
    }
}

/// Can the image be read back from a file: are its bytes not too many?
pub open spec fn readable(img: Canvas) -> bool {
    4 * img.pixels@.len() <= DECODED_MOST
}

/// The file holds the image: its header tells the size, and reading it
/// gives the pixels.
pub open spec fn holds(file: Seq<u8>, img: Canvas) -> bool {
    &&& png_size(file) == Some((img.width, img.height))
    &&& readable(img) ==> gives(file, img.width, img.height, rgba_of(img.pixels@))
}

/// What was saved is what is opened: decoding a file that holds an image
/// gives the image, to the pixel.
pub proof fn law_saved_is_opened(
    file: Seq<u8>,
    img: Canvas,
    what: Seq<char>,
    path: Seq<char>,
    r: Result<Canvas, String>,
)
    requires
        holds(file, img),
        readable(img),
        opens_as(png_decoded(file), what, path, r),
    ensures
        r matches Ok(c) && c.width == img.width && c.height == img.height && c.pixels@
            == img.pixels@,
{
    law_bytes_round(img.pixels@);
}

/// The image as a PNG file, as the editor saves it.
pub fn png_bytes(img: &Canvas) -> (r: Result<Vec<u8>, String>)
    requires
        img.wf(),
    ensures
        bytes_or(r) == labelled(
            png_sub(rgba_of(img.pixels@), img.width, img.height),
            "encode PNG"@,
        ),
        r is Ok <==> img.width > 0 && img.height > 0,
        r matches Ok(b) ==> holds(b@, *img),
{
    let rgba = img.to_rgba();
    label_error(encode_sub(&rgba, img.width, img.height), "encode PNG")
}

/// The image as a PNG file, as a capture is saved.
pub fn screenshot_bytes(img: &Canvas) -> (r: Result<Vec<u8>, String>)
    requires
        img.wf(),
    ensures
        bytes_or(r) == labelled(
            png_adaptive(rgba_of(img.pixels@), img.width, img.height),
            "encode screenshot"@,
        ),
        r is Ok <==> img.width > 0 && img.height > 0,
        r matches Ok(b) ==> holds(b@, *img),
{
    let rgba = img.to_rgba();
    label_error(encode_adaptive(&rgba, img.width, img.height), "encode screenshot")
}

/// The image that decoded pixels make, or the error with what was done
/// and the file's name in front of it.
pub fn decoded_image(r: Result<(u32, u32, Vec<u8>), String>, what: &str, path: &str) -> (out:
    Result<Canvas, String>)
    requires
        r matches Ok((w, h, px)) ==> px@.len() == 4 * (w * h),
    ensures
        match (r, out) {
            (Ok((w, h, px)), Ok(c)) => c.wf() && c.width == w && c.height == h && c.pixels@
                == pixels_in(px@),
            (Err(e), Err(f)) => f@ == what@ + " "@ + path@ + ": "@ + e@,
            _ => false,
        },
{
    match r {
        Ok((w, h, px)) => {
            match Canvas::from_rgba(w, h, &px) {
                Some(c) => Ok(c),
                None => Err("frame buffer size mismatch".to_owned()),
            }
        },
        Err(e) => Err(joined3(what, " ", path).concat(": ").concat(e.as_str())),
    }
}

/// What decoding `file`, or not being able to read it, comes to.
pub open spec fn opens_as(
    decoded: Result<(u32, u32, Seq<u8>), Seq<char>>,
    what: Seq<char>,
    path: Seq<char>,
    r: Result<Canvas, String>,
) -> bool {
    match (decoded, r) {
        (Ok((w, h, px)), Ok(c)) => c.wf() && c.width == w && c.height == h && c.pixels@
            == pixels_in(px),
        (Err(e), Err(f)) => f@ == what + " "@ + path + ": "@ + e,
        _ => false,
    }
}

/// Decode a file that was read from `path`.
pub fn decode(file: &Vec<u8>, path: &str) -> (r: Result<Canvas, String>)
    ensures
        opens_as(png_decoded(file@), "decode"@, path@, r),
{
    decoded_image(load(file), "decode", path)
}

/// Decode a file by the extension of its path; `file` is what was read
/// from it, or why it could not be.
pub fn open_image(file: Result<Vec<u8>, String>, path: &str) -> (r: Result<Canvas, String>)
    ensures
        opens_as(
            match file {
                Ok(b) => named_decoded(b@, path@),
                Err(e) => Err(e@),
            },
            "cannot open"@,
            path@,
            r,
        ),
{
    match file {
        Ok(b) => decoded_image(load_named(&b, path), "cannot open", path),
        Err(e) => decoded_image(Err(e), "cannot open", path),
    }
}

/// A file's size stands in its header: the width in the four bytes from
/// the sixteenth on, the height in the next four, the greatest byte first.
pub proof fn law_header_size(png: Seq<u8>, w: u32, h: u32)
    requires
        png.len() >= 24,
        png[0] == 0x89 && png[1] == 'P' as u8 && png[2] == 'N' as u8 && png[3] == 'G' as u8,
        png[4] == 0x0d && png[5] == 0x0a && png[6] == 0x1a && png[7] == 0x0a,
        w == png[16] * 0x100_0000 + png[17] * 0x1_0000 + png[18] * 0x100 + png[19],
        h == png[20] * 0x100_0000 + png[21] * 0x1_0000 + png[22] * 0x100 + png[23],
    ensures
        png_size(png) == Some((w, h)),
{
    assert(png.take(8) =~= signature());
}

/// What is no PNG, or too short for a header, has no size.
pub proof fn law_no_header(png: Seq<u8>)
    ensures
        png.len() < 24 ==> png_size(png) is None,
        png.len() >= 24 && (png[0] != 0x89 || png[1] != 0x50 || png[2] != 0x4e || png[3] != 0x47)
            ==> png_size(png) is None,
{
    if png.len() >= 24 {
        assert(png.take(8)[0] == png[0] && png.take(8)[1] == png[1]);
        assert(png.take(8)[2] == png[2] && png.take(8)[3] == png[3]);
    }
}

} // verus!
