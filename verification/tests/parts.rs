//! Icons, pinned captures, the flash, and texts.

use iris::canvas::{Canvas, Pixel};
use iris::codec::png_bytes;
use iris::geom::PX;
use iris::icons::{Icon, IconCache};
use iris::pin::{flash, flash_rect, pin_image, pin_size};
use iris::pipeline::{stash_decoded, Stash};
use iris::screen::{host, WinRect};
use iris::text::{contains, pad, parse_u64, push_decimal, push_hex, push_signed, replace, starts_with, trim};

#[test]
fn an_icon_cache_drops_its_oldest_shape() {
    let mut c: IconCache<u32> = IconCache::new();
    for size in 0..256 {
        c.store_tris(Icon::Undo, size, size * 10);
    }
    assert_eq!(c.cached_tris(Icon::Undo, 0), Some(&0));
    // Stored again, it keeps its place.
    c.store_tris(Icon::Undo, 0, 7);
    assert_eq!(c.cached_tris(Icon::Undo, 0), Some(&7));
    c.store_tris(Icon::Redo, 1, 99);
    assert_eq!(c.cached_tris(Icon::Undo, 0), None);
    assert_eq!(c.cached_tris(Icon::Undo, 1), Some(&10));
    assert_eq!(c.cached_tris(Icon::Redo, 1), Some(&99));
    assert_eq!(c.cached_tris(Icon::Trash, 1), None);
}

#[test]
fn a_small_capture_is_pinned_at_its_size() {
    assert_eq!(pin_size(100, 50, PX), (100 * PX, 50 * PX));
    assert_eq!(pin_size(100, 50, 2 * PX), (50 * PX, 25 * PX));
    let (w, h) = pin_size(8000, 4000, PX);
    assert!(w < 8000 * PX && w / h == 2, "{w} by {h}");
}

#[test]
fn a_pinned_capture_comes_from_the_stash_or_its_file() {
    let red = Canvas::filled(2, 1, Pixel { r: 255, g: 0, b: 0, a: 255 });
    let green = Canvas::filled(2, 1, Pixel { r: 0, g: 255, b: 0, a: 255 });
    let file = png_bytes(&red).unwrap();
    let mut stash = Stash { slot: None };
    let img = pin_image(&stash, Ok(file.clone()), "/a.png").unwrap();
    assert_eq!(img.pixels, red.pixels);
    stash_decoded(&mut stash, "/a.png".to_string(), green.copy());
    let img = pin_image(&stash, Ok(file), "/a.png").unwrap();
    assert_eq!(img.pixels, green.pixels);
    assert_eq!(
        pin_image(&stash, Err("gone".into()), "/b.png").err(),
        Some("read /b.png: gone".to_string())
    );
    let e = pin_image(&stash, Ok(vec![1, 2, 3]), "/b.png").err().unwrap();
    assert!(e.starts_with("decode /b.png: "), "{e}");
}

#[test]
fn the_flash_fades_and_ends() {
    let mut last = i64::MAX;
    for ms in 0..180 {
        let o = flash(ms).expect("still on");
        assert!(o <= last);
        last = o;
    }
    assert_eq!(flash(180), None);
    assert_eq!(
        flash_rect(Vec::new()),
        WinRect { x: 0, y: 0, width: 1280, height: 800 }
    );
    let two = vec![
        WinRect { x: 0, y: 0, width: 100, height: 50 },
        WinRect { x: 100, y: -10, width: 60, height: 40 },
    ];
    assert_eq!(flash_rect(two), WinRect { x: 0, y: -10, width: 160, height: 60 });
}

#[test]
fn a_rectangle_is_on_the_monitor_that_has_its_middle() {
    let mons = vec![
        WinRect { x: 0, y: 0, width: 100, height: 100 },
        WinRect { x: 100, y: 0, width: 100, height: 100 },
    ];
    let r = WinRect { x: 80, y: 10, width: 60, height: 10 };
    assert_eq!(host(r, &mons), Some(mons[1]));
    let off = WinRect { x: 500, y: 500, width: 10, height: 10 };
    assert_eq!(host(off, &mons), Some(mons[0]));
    assert_eq!(host(off, &Vec::new()), None);
}

#[test]
fn texts() {
    let mut s = String::from("n");
    push_decimal(&mut s, 0);
    push_decimal(&mut s, u64::MAX);
    assert_eq!(s, "n018446744073709551615");
    let mut s = String::new();
    push_signed(&mut s, -40);
    push_signed(&mut s, 7);
    assert_eq!(s, "-407");
    let mut s = String::new();
    push_hex(&mut s, 0x0f);
    assert_eq!(s.to_lowercase(), "0f");
    assert_eq!(parse_u64("+42"), Some(42));
    assert_eq!(parse_u64("42 "), None);
    assert_eq!(parse_u64(""), None);
    assert_eq!(pad(7, 3), "007");
    assert_eq!(pad(12345, 3), "12345");
    assert_eq!(replace("aXbXc", "X", "--"), "a--b--c");
    assert_eq!(trim(" \t a b\n"), "a b");
    assert!(contains("haystack", "st") && !contains("haystack", "ts"));
    assert!(starts_with("-psn_0", "-psn_") && !starts_with("-ps", "-psn_"));
}
