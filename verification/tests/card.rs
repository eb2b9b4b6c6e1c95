//! The toast's card and its thumbnail, and PNG files.

use iris::canvas::{Canvas, Pixel};
use iris::card::{card_rest_rect, card_size, prepare_thumb, thumb_size, thumbnail, toast_rects, MARGIN};
use iris::codec::{decode, decoded_image, label_error, open_image, png_bytes, png_dimensions, screenshot_bytes};
use iris::config::ToastPosition;
use iris::geom::{Rect, PX};
use iris::pipeline::{finalize, peek_decoded, stash_decoded, take_decoded, Stash};

fn plain(w: u32, h: u32, color: [u8; 4]) -> Canvas {
    Canvas::filled(w, h, Pixel { r: color[0], g: color[1], b: color[2], a: color[3] })
}

#[test]
fn card_rest_rect_anchors_all_four_corners() {
    let at = |pos| card_rest_rect(pos, 1920 * PX, 1080 * PX, 400, 280);

    let r = at(ToastPosition::BottomRight);
    assert_eq!(
        (r.x, r.y),
        (1920 * PX - MARGIN - r.w, 1080 * PX - MARGIN - r.h)
    );

    let r = at(ToastPosition::BottomLeft);
    assert_eq!((r.x, r.y), (MARGIN, 1080 * PX - MARGIN - r.h));

    let r = at(ToastPosition::TopRight);
    assert_eq!((r.x, r.y), (1920 * PX - MARGIN - r.w, MARGIN));

    let r = at(ToastPosition::TopLeft);
    assert_eq!((r.x, r.y), (MARGIN, MARGIN));
}

#[test]
fn thumb_fills_the_cards_device_pixels() {
    // (capture size, display scale) -> (card size, pixel size)
    let cases = [
        ((1600, 900), 1.0, (200, 113), (200, 113)),
        ((1600, 900), 1.5, (200, 113), (300, 170)),
        ((1600, 900), 2.0, (200, 113), (400, 226)),
        ((700, 1400), 2.0, (70, 140), (140, 280)),
        ((300, 150), 1.0, (200, 100), (200, 100)),
        // The card's device box exceeds the capture: its own pixels.
        ((300, 150), 2.0, (200, 100), (300, 150)),
        ((120, 80), 2.0, (120, 80), (120, 80)),
    ];
    for ((iw, ih), scale, dims, px) in cases {
        let scale = (scale * PX as f64) as i64;
        let img = plain(iw, ih, [10, 20, 30, 255]);
        let file = screenshot_bytes(&img);
        let thumb = prepare_thumb(&Stash { slot: None }, file, "/shots/cap.png", scale)
            .unwrap()
            .unwrap();
        let case = format!("{iw}x{ih} at {scale}");
        assert_eq!(card_size(iw, ih), dims, "card size, {case}");
        assert_eq!((thumb.width, thumb.height), px, "pixel size, {case}");
        assert_eq!(thumb.pixels.len(), (px.0 * px.1) as usize, "{case}");
        assert!(
            thumb.pixels.iter().all(|p| *p == Pixel { r: 10, g: 20, b: 30, a: 255 }),
            "{case}"
        );
        assert_eq!(thumb_size(iw, ih, scale), px, "{case}");
        let r = card_rest_rect(ToastPosition::TopLeft, 1920 * PX, 1080 * PX, iw, ih);
        assert_eq!(
            (r.w, r.h),
            (dims.0 as i64 * PX, dims.1 as i64 * PX),
            "flight landing rect, {case}"
        );
    }
}

#[test]
fn prepare_thumb_reuses_stashed_decode() {
    // The toast must read the stashed pixels, not decode the PNG again.
    // Prove it by stashing a different color than the file holds: the
    // thumb must match the stash, not the file's bytes.
    let path = "/shots/cap-8x8.png";
    let file = screenshot_bytes(&plain(8, 8, [255, 0, 0, 255]));
    let mut stash = Stash { slot: None };
    stash_decoded(&mut stash, path.to_string(), plain(8, 8, [0, 255, 0, 255]));
    let thumb = prepare_thumb(&stash, file, path, PX).unwrap().unwrap();
    // First pixel green proves the stash fed the thumb, not the
    // red PNG.
    assert_eq!(thumb.pixels[0], Pixel { r: 0, g: 255, b: 0, a: 255 });
}

#[test]
fn a_stash_keeps_one_image_for_its_path() {
    let mut stash = Stash { slot: None };
    stash_decoded(&mut stash, "/a.png".to_string(), plain(2, 1, [1, 2, 3, 255]));
    assert!(peek_decoded(&stash, "/b.png").is_none());
    assert!(take_decoded(&mut stash, "/b.png").is_none());
    assert!(peek_decoded(&stash, "/a.png").is_some());
    let img = take_decoded(&mut stash, "/a.png").unwrap();
    assert_eq!((img.width, img.height), (2, 1));
    assert!(take_decoded(&mut stash, "/a.png").is_none());
    // A later image takes the place of an earlier one.
    stash_decoded(&mut stash, "/a.png".to_string(), plain(2, 1, [1, 2, 3, 255]));
    stash_decoded(&mut stash, "/c.png".to_string(), plain(3, 1, [1, 2, 3, 255]));
    assert!(peek_decoded(&stash, "/a.png").is_none());
    assert!(peek_decoded(&stash, "/c.png").is_some());
}

#[test]
fn finalize_encodes_and_stashes_the_pixels() {
    let mut stash = Stash { slot: None };
    let mut img = plain(3, 2, [9, 8, 7, 255]);
    img.set(1, 1, Pixel { r: 200, g: 100, b: 50, a: 255 });
    let want = img.copy();
    let png = finalize(&mut stash, img, "/s.png".to_string()).unwrap();
    assert_eq!(png_dimensions(&png), Some((3, 2)));
    assert_eq!(decode(&png, "/s.png").unwrap().pixels, want.pixels);
    assert_eq!(peek_decoded(&stash, "/s.png").unwrap().pixels, want.pixels);
}

#[test]
fn what_is_encoded_decodes_to_the_same_pixels() {
    let mut img = plain(7, 5, [0, 0, 0, 255]);
    for y in 0..5 {
        for x in 0..7 {
            img.set(
                x,
                y,
                Pixel { r: (x * 30) as u8, g: (y * 40) as u8, b: (x * y) as u8, a: 255 - y as u8 },
            );
        }
    }
    let saved = png_bytes(&img).unwrap();
    let shot = screenshot_bytes(&img).unwrap();
    for file in [saved, shot] {
        assert_eq!(&file[1..4], b"PNG");
        let back = decode(&file, "x.png").unwrap();
        assert_eq!((back.width, back.height), (7, 5));
        assert_eq!(back.pixels, img.pixels);
        let named = open_image(Ok(file), "/shots/x.png").unwrap();
        assert_eq!(named.pixels, img.pixels);
    }
}

#[test]
fn the_header_gives_the_size() {
    let png = png_bytes(&plain(300, 20, [1, 2, 3, 255])).unwrap();
    assert_eq!(png_dimensions(&png), Some((300, 20)));
    assert_eq!(png_dimensions(&png[..24]), Some((300, 20)));
    assert_eq!(png_dimensions(&png[..23]), None);
    assert_eq!(png_dimensions(b"GIF89a                        "), None);
}

#[test]
fn what_does_not_decode_says_why() {
    let e = decode(&vec![1, 2, 3], "/shots/x.png").err().unwrap();
    assert!(e.starts_with("decode /shots/x.png: "), "{e}");
    let e = open_image(Err("No such file".to_string()), "/shots/x.png").err().unwrap();
    assert_eq!(e, "cannot open /shots/x.png: No such file");
    // A name without a format of its own cannot be opened.
    let png = png_bytes(&plain(2, 2, [1, 2, 3, 255])).unwrap();
    let e = open_image(Ok(png), "/shots/x.txt").err().unwrap();
    assert!(e.starts_with("cannot open /shots/x.txt: "), "{e}");
    let e = prepare_thumb(&Stash { slot: None }, Err("gone".to_string()), "/y.png", PX)
        .err()
        .unwrap();
    assert_eq!(e, "cannot open /y.png: gone");
    assert_eq!(
        label_error(Err("full".to_string()), "encode PNG"),
        Err("encode PNG: full".to_string())
    );
    let r = decoded_image(Ok((1, 1, vec![5, 6, 7, 8])), "decode", "z").unwrap();
    assert_eq!(r.pixels, [Pixel { r: 5, g: 6, b: 7, a: 8 }]);
    // An empty image cannot be encoded.
    let e = png_bytes(&plain(0, 0, [0, 0, 0, 0])).err().unwrap();
    assert!(e.starts_with("encode PNG: "), "{e}");
}

#[test]
fn a_thumbnail_averages_what_it_scales_down() {
    // Left half black, right half white: so is the thumbnail.
    let mut img = plain(400, 280, [0, 0, 0, 255]);
    for y in 0..280 {
        for x in 200..400 {
            img.set(x, y, Pixel { r: 255, g: 255, b: 255, a: 255 });
        }
    }
    let t = thumbnail(&img, PX).unwrap();
    assert_eq!((t.width, t.height), (200, 140));
    assert_eq!(t.get(10, 70).r, 0);
    assert_eq!(t.get(190, 70).r, 255);
}

#[test]
fn a_capture_of_any_length_has_a_thumbnail() {
    let mut img = plain(1_200_000, 2, [0, 0, 0, 255]);
    for y in 0..2 {
        for x in 600_000..1_200_000 {
            img.set(x, y, Pixel { r: 255, g: 255, b: 255, a: 255 });
        }
    }
    let t = thumbnail(&img, PX).unwrap();
    assert_eq!((t.width, t.height), (200, 1));
    assert_eq!((t.get(10, 0).r, t.get(190, 0).r), (0, 255));
}

#[test]
fn a_card_is_never_larger_than_its_capture() {
    assert_eq!(card_size(1, 1), (1, 1));
    assert_eq!(card_size(200, 140), (200, 140));
    assert_eq!(card_size(201, 140), (200, 139));
    assert_eq!(card_size(10_000, 1), (200, 1));
    assert_eq!(card_size(1, 10_000), (1, 140));
}

#[test]
fn the_toasts_window_holds_its_card_at_its_corner() {
    let screen = Rect { x: 0, y: 0, w: 1920 * PX, h: 1080 * PX };
    let (w, h, bleed) = (200 * PX, 113 * PX, 40 * PX);
    for pos in [
        ToastPosition::BottomRight,
        ToastPosition::BottomLeft,
        ToastPosition::TopRight,
        ToastPosition::TopLeft,
    ] {
        let (win, card) = toast_rects(pos, w, h, bleed, Some(screen));
        assert_eq!((win.w, win.h), (w + bleed + MARGIN, h + bleed + MARGIN));
        // The flight lands on the card.
        assert_eq!(card, card_rest_rect(pos, screen.w, screen.h, 1600, 900));
    }
}

#[test]
fn an_empty_image_has_no_file() {
    for img in [plain(0, 3, [1, 2, 3, 4]), plain(3, 0, [1, 2, 3, 4])] {
        assert!(png_bytes(&img).err().unwrap().starts_with("encode PNG: "));
        assert!(screenshot_bytes(&img).err().unwrap().starts_with("encode screenshot: "));
    }
}

#[test]
fn a_saved_file_tells_its_size() {
    let img = plain(300, 7, [9, 8, 7, 0]);
    assert_eq!(png_dimensions(&png_bytes(&img).unwrap()), Some((300, 7)));
    assert_eq!(png_dimensions(&screenshot_bytes(&img).unwrap()), Some((300, 7)));
}
