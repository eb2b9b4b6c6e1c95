//! How the editor's window shows the image.

use iris::editor_view::bars_at;
use iris::flight::WAY;
use iris::geom::{Point, PX};
use iris::view::{Pane, ZOOM, ZOOM_LEAST, ZOOM_MOST};

fn at(x: i64, y: i64) -> Point {
    Point { x: x * PX, y: y * PX }
}

const SIZE: (i64, i64) = (1000 * PX, 700 * PX);
const DIMS: (u32, u32) = (1808, 1208);

#[test]
fn a_large_image_is_fitted_into_the_clear_room() {
    let v = Pane::new();
    // 904 by 604 pixels are clear: half the image's size.
    let r = v.stage(DIMS, SIZE);
    assert_eq!((r.w, r.h), (904 * PX, 604 * PX));
    assert_eq!((r.x, r.y), (84 * PX, 84 * PX));
    // Corners and middle, and nothing beyond the edges.
    assert_eq!(v.to_image(at(84, 84), DIMS, SIZE), at(0, 0));
    assert_eq!(v.to_image(at(84 + 904, 84 + 604), DIMS, SIZE), at(1808, 1208));
    assert_eq!(v.to_image(at(84 + 452, 84 + 302), DIMS, SIZE), at(904, 604));
    assert_eq!(v.to_image(at(0, 0), DIMS, SIZE), at(0, 0));
    assert_eq!(v.to_image(at(999, 699), DIMS, SIZE), at(1808, 1208));
}

#[test]
fn a_small_image_grows_to_four_times_its_size() {
    let v = Pane::new();
    let r = v.stage((10, 10), SIZE);
    assert_eq!((r.w, r.h), (40 * PX, 40 * PX));
}

#[test]
fn the_wheel_zooms_round_the_pointer() {
    let mut v = Pane::new();
    let p = at(300, 200);
    let under = v.to_image(p, DIMS, SIZE);
    for _ in 0..5 {
        assert!(v.wheel(20 * PX, p, SIZE));
        assert_eq!(v.to_image(p, DIMS, SIZE), under);
    }
    for _ in 0..8 {
        assert!(v.wheel(-20 * PX, p, SIZE));
        assert_eq!(v.to_image(p, DIMS, SIZE), under);
    }
    // Less than half a pixel is no turn.
    assert!(!v.wheel(PX / 2 - 1, p, SIZE));
    // It stops at its bounds.
    for _ in 0..60 {
        v.wheel(20 * PX, p, SIZE);
    }
    assert_eq!(v.zoom, ZOOM_MOST);
    assert!(!v.wheel(20 * PX, p, SIZE));
}

#[test]
fn keys_step_the_zoom() {
    let mut v = Pane::new();
    v.zoom_in();
    assert_eq!(v.zoom, ZOOM * 5 / 4);
    v.zoom_out();
    assert_eq!(v.zoom, ZOOM);
    for _ in 0..20 {
        v.zoom_out();
    }
    assert_eq!(v.zoom, ZOOM_LEAST);
    for _ in 0..40 {
        v.zoom_in();
    }
    assert_eq!(v.zoom, ZOOM_MOST);
    v.pan = at(5, 6);
    v.zoom_fit();
    assert_eq!((v.zoom, v.pan), (ZOOM, at(0, 0)));
}

#[test]
fn a_pan_carries_the_image_along() {
    let mut v = Pane::new();
    let before = v.stage(DIMS, SIZE);
    assert!(!v.pan_to(at(5, 5)));
    v.start_pan(at(100, 100));
    assert!(v.pan_to(at(130, 90)));
    assert!(v.pan_to(at(140, 90)));
    assert!(v.end_pan());
    assert!(!v.end_pan());
    let after = v.stage(DIMS, SIZE);
    assert_eq!((after.x - before.x, after.y - before.y), (40 * PX, -10 * PX));
}

#[test]
fn a_pan_goes_as_far_as_the_pointer() {
    let mut v = Pane::new();
    v.pan = at(1_000_000_000, -1_000_000_000);
    v.start_pan(at(10, 10));
    assert!(v.pan_to(at(40, 5)));
    assert_eq!(v.pan, at(1_000_000_030, -1_000_000_005));
    // The wheel, too, carries it along.
    let p = at(0, 0);
    assert!(v.wheel(20 * PX, p, SIZE));
    assert_eq!(v.zoom, ZOOM * 112 / 100);
    assert!(v.pan.x > at(1_119_999_000, 0).x && v.pan.x < at(1_120_001_000, 0).x, "{:?}", v.pan);
}

#[test]
fn the_bars_fade_in_while_the_image_grows() {
    assert_eq!(bars_at(0), (0, 0, 0));
    assert_eq!(bars_at(WAY / 10), (WAY * 22 / 100, WAY * 44 / 1000, 0));
    assert_eq!(bars_at(WAY), (WAY, WAY, WAY));
}
