//! Regions and crops.

use iris::geom::{Point, PX};
use iris::pipeline::{
    candidate, check_region, crop_bgra, crop_bgra_to_rgba, finalize_bgra, screenshot_name, unique_path,
    Moment, Region,
};

fn at(x: i64, y: i64) -> Point {
    Point { x: x * PX, y: y * PX }
}

#[test]
fn region_from_corners_normalizes_and_clamps() {
    // Reversed drag direction.
    let r = Region::from_corners(at(50, 40), at(10, 5), 100, 100);
    assert_eq!(
        r,
        Region {
            x: 10,
            y: 5,
            width: 40,
            height: 35
        }
    );
    // Drag past the frame edges clamps to the frame.
    let r = Region::from_corners(at(-20, -10), at(150, 120), 100, 100);
    assert_eq!(
        r,
        Region {
            x: 0,
            y: 0,
            width: 100,
            height: 100
        }
    );
}

#[test]
fn crop_rejects_empty_and_out_of_bounds() {
    let bgra = vec![0u8; 64];
    assert!(crop_bgra(
        &bgra,
        4,
        4,
        Region {
            x: 0,
            y: 0,
            width: 0,
            height: 2
        }
    )
    .is_err());
    assert!(crop_bgra(
        &bgra,
        4,
        4,
        Region {
            x: 3,
            y: 0,
            width: 2,
            height: 2
        }
    )
    .is_err());
}

#[test]
fn region_errors_name_the_region_and_the_frame() {
    let empty = Region {
        x: 0,
        y: 0,
        width: 3,
        height: 0,
    };
    assert_eq!(
        check_region(4, 4, empty),
        Err("empty capture region".to_string())
    );
    let out = Region {
        x: 3,
        y: 1,
        width: 2,
        height: 2,
    };
    assert_eq!(
        check_region(4, 5, out),
        Err("region 2x2+3+1 outside frame 4x5".to_string())
    );
    let far = Region {
        x: u32::MAX,
        y: 0,
        width: 2,
        height: 1,
    };
    assert!(check_region(4, 4, far).is_err());
    assert_eq!(
        check_region(
            4,
            4,
            Region {
                x: 2,
                y: 2,
                width: 2,
                height: 2
            }
        ),
        Ok(())
    );
}

#[test]
fn crop_copies_exact_pixels() {
    // BGRA source: the crop is a verbatim copy, no swizzle.
    let mut bgra = vec![0u8; 4 * 4 * 4];
    for (i, b) in bgra.iter_mut().enumerate() {
        *b = i as u8;
    }
    let out = crop_bgra(
        &bgra,
        4,
        4,
        Region {
            x: 1,
            y: 1,
            width: 2,
            height: 2,
        },
    )
    .unwrap();
    assert_eq!(out.len(), 2 * 2 * 4);
    // Top-left of the crop is frame pixel (1,1) = byte offset 20.
    assert_eq!(&out[..4], &[20, 21, 22, 23]);
}

#[test]
fn crop_bgra_to_rgba_swaps_every_cropped_pixel() {
    let mut bgra = vec![0u8; 4 * 4 * 4];
    for (i, b) in bgra.iter_mut().enumerate() {
        *b = i as u8;
    }
    let region = Region {
        x: 1,
        y: 1,
        width: 2,
        height: 2,
    };
    let rgba = crop_bgra_to_rgba(&bgra, 4, 4, region).unwrap();
    // Frame pixels (1,1) (2,1) (1,2) (2,2) start at bytes 20, 24,
    // 36, 40; each BGRA [b,g,r,a] lands as RGBA [r,g,b,a].
    assert_eq!(
        rgba,
        [22, 21, 20, 23, 26, 25, 24, 27, 38, 37, 36, 39, 42, 41, 40, 43]
    );
}

#[test]
fn parallel_crop_matches_serial() {
    // A frame over a megapixel: every row must land at the right offset
    // as a verbatim BGRA copy.
    let (w, h) = (1600u32, 1000u32);
    let mut bgra = vec![0u8; (w * h * 4) as usize];
    for i in 0..(w * h) as usize {
        bgra[i * 4] = (i % 251) as u8;
        bgra[i * 4 + 1] = (i % 253) as u8;
        bgra[i * 4 + 2] = (i % 255) as u8;
        bgra[i * 4 + 3] = 255;
    }
    let region = Region {
        x: 300,
        y: 200,
        width: 600,
        height: 450,
    };
    let out = crop_bgra(&bgra, w, h, region).unwrap();
    assert_eq!(out.len(), 600 * 450 * 4);
    // Spot-check first, middle and last pixels of the crop.
    for (dx, dy) in [(0usize, 0usize), (300, 225), (599, 449)] {
        let src = ((200 + dy) * w as usize + 300 + dx) * 4;
        let dst = (dy * 600 + dx) * 4;
        assert_eq!(out[dst..dst + 4], bgra[src..src + 4], "pixel at {dx},{dy}");
    }
}

fn noon() -> Moment {
    Moment { year: 2026, month: 3, day: 7, hour: 12, minute: 4, second: 9 }
}

#[test]
fn unique_path_substitutes_template_and_suffixes() {
    let mut taken: Vec<String> = Vec::new();
    let name = screenshot_name("Screenshot-{date}-{time}", noon());
    let first = unique_path(&name, &taken);
    assert!(first.ends_with(".png"));
    assert!(!first.contains('{'));
    taken.push(first.clone());
    let second = unique_path(&name, &taken);
    assert_ne!(first, second);
}

#[test]
fn names_hold_the_padded_date_and_time() {
    assert_eq!(
        screenshot_name("Screenshot-{date}-{time}", noon()),
        "Screenshot-2026-03-07-12-04-09"
    );
    assert_eq!(screenshot_name("{time}{time}", noon()), "12-04-0912-04-09");
    assert_eq!(screenshot_name("plain", noon()), "plain");
    assert_eq!(candidate("a", 1), "a.png");
    assert_eq!(candidate("a", 2), "a-2.png");
    let taken: Vec<String> = vec!["a-3.png".into(), "a.png".into(), "a-2.png".into()];
    assert_eq!(unique_path("a", &taken), "a-4.png");
    assert_eq!(unique_path("b", &taken), "b.png");
}

#[test]
fn a_region_of_a_frame_becomes_an_image() {
    let mut bgra = vec![0u8; 4 * 4 * 4];
    for (i, b) in bgra.iter_mut().enumerate() {
        *b = i as u8;
    }
    let region = Region { x: 1, y: 1, width: 2, height: 2 };
    let img = finalize_bgra(&bgra, 4, 4, region).unwrap();
    assert_eq!((img.width, img.height), (2, 2));
    let p = img.get(0, 1);
    assert_eq!((p.r, p.g, p.b, p.a), (38, 37, 36, 39));
    let outside = Region { x: 3, y: 3, width: 2, height: 2 };
    assert!(finalize_bgra(&bgra, 4, 4, outside).is_err());
}

#[test]
fn a_part_of_a_part_is_a_part_of_the_frame() {
    let (w, h) = (9u32, 7u32);
    let frame: Vec<u8> = (0..w * h * 4).map(|i| i as u8).collect();
    let a = Region { x: 2, y: 1, width: 6, height: 5 };
    let b = Region { x: 3, y: 2, width: 2, height: 3 };
    let first = crop_bgra(&frame, w, h, a).unwrap();
    let twice = crop_bgra(&first, a.width, a.height, b).unwrap();
    let once = crop_bgra(&frame, w, h, Region { x: 5, y: 3, width: 2, height: 3 }).unwrap();
    assert_eq!(twice, once);
    let whole = crop_bgra(&frame, w, h, Region { x: 0, y: 0, width: w, height: h }).unwrap();
    assert_eq!(whole, frame);
}
