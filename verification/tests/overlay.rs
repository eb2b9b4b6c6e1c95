//! Picking a part of the screen.

use iris::config::ToastPosition;
use iris::flight::{flight_at_rest, flight_rect, WAY};
use iris::geom::{Point, Rect, PX};
use iris::loupe::{loupe_image, Frame};
use iris::overlay::{can_open, drag_region, handle_of, handles, layout, Lens, Picked, ShellLayout};
use iris::overlay_input::{Outcome, Overlay, OverlayMode, Session};
use iris::overlay_keys::{coord_at, coord_label, hint, labels_at, size_label, Keyed};
use iris::pipeline::Region;
use iris::screen::WinRect;

fn px(v: f64) -> i64 {
    (v * PX as f64).round() as i64
}

fn pt(x: f64, y: f64) -> Point {
    Point { x: px(x), y: px(y) }
}

fn rect(r: (f64, f64, f64, f64)) -> Rect {
    Rect { x: px(r.0), y: px(r.1), w: px(r.2), h: px(r.3) }
}

fn parts(e: f64) -> i64 {
    (e * WAY as f64).round() as i64
}

#[test]
fn handles_are_corners_then_edges() {
    let h = handles(rect((10.0, 20.0, 100.0, 50.0)));
    // Corners NW NE SW SE.
    assert_eq!(h[0], pt(10.0, 20.0));
    assert_eq!(h[1], pt(110.0, 20.0));
    assert_eq!(h[2], pt(10.0, 70.0));
    assert_eq!(h[3], pt(110.0, 70.0));
    // Edges N S W E, centered on the midpoint.
    assert_eq!(h[4], pt(60.0, 20.0));
    assert_eq!(h[5], pt(60.0, 70.0));
    assert_eq!(h[6], pt(10.0, 45.0));
    assert_eq!(h[7], pt(110.0, 45.0));
}

#[test]
fn flight_rect_interpolates_every_edge() {
    let from = rect((10.0, 20.0, 100.0, 50.0));
    let to = rect((500.0, 400.0, 200.0, 140.0));
    assert_eq!(flight_rect(from, to, 0), from);
    assert_eq!(flight_rect(from, to, WAY), to);
    assert_eq!(
        flight_rect(from, to, WAY / 2),
        rect((255.0, 210.0, 150.0, 95.0))
    );
}

#[test]
fn flight_rests_within_half_a_pixel_on_every_edge() {
    let from = (0.0, 0.0, 100.0, 100.0);
    // (to, spring progress, at rest): each case moves one edge only.
    let cases = [
        // Left edge travels 600px: 0.6px left, then 0.3px.
        ((600.0, 0.0, 100.0, 100.0), 0.999, false),
        ((600.0, 0.0, 100.0, 100.0), 0.9995, true),
        // Top edge travels 600px upward.
        ((0.0, -600.0, 100.0, 700.0), 0.999, false),
        // Only the right edge travels (width grows by 1000px): 1px left.
        ((0.0, 0.0, 1100.0, 100.0), 0.999, false),
        ((0.0, 0.0, 1100.0, 100.0), 0.9996, true),
        // Only the bottom edge travels (height shrinks by 90px).
        ((0.0, 0.0, 100.0, 10.0), 0.99, false),
        ((0.0, 0.0, 100.0, 10.0), 0.995, true),
        // No travel: at rest from the first frame.
        (from, 0.0, true),
    ];
    for (to, e, rest) in cases {
        assert_eq!(
            flight_at_rest(rect(from), rect(to), parts(e)),
            rest,
            "to={to:?} e={e}"
        );
    }
}

/// The spring that flights follow: stiffness 280, damping 30, its clock
/// 0.8 seconds.
fn spring(t: f64) -> f64 {
    let w = 280f64.sqrt();
    let zeta = 30.0 / (2.0 * w);
    let wd = w * (1.0 - zeta * zeta).sqrt();
    let time = t * 0.8;
    let decay = (-zeta * w * time).exp();
    1.0 - decay * ((wd * time).cos() + zeta * w / wd * (wd * time).sin())
}

#[test]
fn flight_is_at_rest_when_its_clock_ends() {
    // A 4K-wide flight: the longest travel a real capture produces.
    let from = rect((0.0, 0.0, 3840.0, 2160.0));
    let to = rect((3620.0, 2000.0, 200.0, 113.0));
    assert!(flight_at_rest(from, to, parts(spring(1.0))));
    // The rest arrives before the clock does: the handoff is early.
    let first = (0..=100)
        .map(|i| i as f64 / 100.0)
        .find(|&t| flight_at_rest(from, to, parts(spring(t))))
        .expect("the spring comes to rest");
    assert!(first < 0.8, "at rest only at t={first}");
}

#[test]
fn shift_drag_is_square_in_every_direction() {
    let size = (px(100.0), px(100.0));
    // (anchor, cursor, (x, y, side))
    let cases = [
        ((10.0, 10.0), (50.0, 30.0), (10, 10, 40)), // down-right
        ((60.0, 60.0), (50.0, 20.0), (20, 20, 40)), // up-left
        ((60.0, 10.0), (30.0, 20.0), (30, 10, 30)), // down-left
        ((10.0, 60.0), (20.0, 30.0), (10, 30, 30)), // up-right
        // The window edge caps the side, keeping the square inside.
        ((80.0, 10.0), (100.0, 90.0), (80, 10, 20)),
        // A cursor past the edge is clamped before squaring.
        ((10.0, 10.0), (500.0, 30.0), (10, 10, 90)),
    ];
    for (anchor, cursor, (x, y, side)) in cases {
        assert_eq!(
            drag_region(pt(anchor.0, anchor.1), pt(cursor.0, cursor.1), size, true),
            Region {
                x,
                y,
                width: side,
                height: side
            },
            "anchor={anchor:?} cursor={cursor:?}"
        );
    }
}

#[test]
fn plain_drag_is_the_raw_corner_rect() {
    let r = drag_region(
        pt(60.0, 60.0),
        pt(50.0, 20.0),
        (px(100.0), px(100.0)),
        false,
    );
    assert_eq!(
        r,
        Region {
            x: 50,
            y: 20,
            width: 10,
            height: 40
        }
    );
}

#[test]
fn shift_drag_stays_square_inside_the_window_with_the_anchor_a_corner() {
    let (w, h) = (64u32, 48u32);
    for ax in (0..=w).step_by(8) {
        for ay in (0..=h).step_by(8) {
            for cx in (-16..=80).step_by(8) {
                for cy in (-16..=64).step_by(8) {
                    let anchor = pt(ax as f64, ay as f64);
                    let cursor = pt(cx as f64, cy as f64);
                    let r = drag_region(anchor, cursor, (px(w as f64), px(h as f64)), true);
                    let at = format!("anchor={anchor:?} cursor={cursor:?} -> {r:?}");
                    assert_eq!(r.width, r.height, "{at}");
                    assert!(r.x + r.width <= w && r.y + r.height <= h, "{at}");
                    assert!(r.x == ax || r.x + r.width == ax, "{at}");
                    assert!(r.y == ay || r.y + r.height == ay, "{at}");
                }
            }
        }
    }
}

fn win(x: i32, y: i32, width: u32, height: u32) -> WinRect {
    WinRect { x, y, width, height }
}

fn session() -> Session {
    Session { position: ToastPosition::BottomRight, show_toast: true }
}

/// A frame whose pixels carry their place.
fn frame(w: u32, h: u32) -> Frame {
    let mut bgra = Vec::new();
    for y in 0..h {
        for x in 0..w {
            bgra.extend([x as u8, y as u8, (x + y) as u8, 255]);
        }
    }
    Frame { bgra, width: w, height: h }
}

const SIZE: (i64, i64) = (200 * PX, 100 * PX);

/// A picker over a screen of 200 by 100 pixels with two windows, the
/// second above the first.
fn picker() -> Overlay {
    let l = layout(
        vec![win(0, 0, 200, 100)],
        vec![win(20, 10, 100, 60), win(60, 30, 100, 50)],
    );
    assert_eq!(l.union, win(0, 0, 200, 100));
    Overlay::new(l, session())
}

#[test]
fn a_drag_selects_and_a_confirm_captures_it() {
    let mut o = picker();
    assert!(matches!(
        o.set_frame(frame(200, 100), false, SIZE, PX, 1),
        Outcome::Nothing
    ));
    assert!(matches!(o.pressed(pt(150.0, 10.0), 1, SIZE, PX, 2), Outcome::Nothing));
    assert!(o.dragging);
    assert!(o.pointer_moved(pt(190.0, 30.0), false, SIZE, 3));
    let during = o.current;
    assert!(matches!(
        o.released(pt(190.0, 30.0), false, SIZE, PX, 4),
        Outcome::Nothing
    ));
    // What was shown is what is committed.
    assert_eq!(o.current, during);
    assert_eq!(o.current, Some(Picked::Free(rect((150.0, 10.0, 40.0, 20.0)))));
    match o.finish(SIZE, PX, 9) {
        Outcome::Captured(c) => {
            assert_eq!(c.region, Region { x: 150, y: 10, width: 40, height: 20 });
            assert_eq!(c.crop.len(), 40 * 20 * 4);
            assert_eq!(&c.crop[..4], &[150, 10, 160, 255]);
        }
        _ => panic!("captured"),
    }
    let f = o.flight.expect("the capture flies to its card");
    assert_eq!(f.from, rect((150.0, 10.0, 40.0, 20.0)));
    assert_eq!(f.started, 9);
    // A second confirm does nothing.
    assert!(matches!(o.finish(SIZE, PX, 10), Outcome::Nothing));
}

#[test]
fn a_confirm_before_the_frame_waits_for_it() {
    let mut o = picker();
    o.current = Some(Picked::Free(rect((10.0, 10.0, 20.0, 20.0))));
    assert!(matches!(o.finish(SIZE, PX, 1), Outcome::Pending));
    assert!(o.pending_finish);
    match o.set_frame(frame(200, 100), false, SIZE, PX, 2) {
        Outcome::Captured(c) => {
            assert_eq!(c.region, Region { x: 10, y: 10, width: 20, height: 20 })
        }
        _ => panic!("captured"),
    }
}

#[test]
fn a_click_on_a_window_captures_it_to_the_pixel() {
    let mut o = picker();
    o.set_frame(frame(200, 100), false, SIZE, PX, 1);
    o.pointer_moved(pt(70.0, 40.0), false, SIZE, 2);
    assert_eq!(o.hovered, Some(win(60, 30, 100, 50)));
    o.pressed(pt(70.0, 40.0), 1, SIZE, PX, 3);
    match o.released(pt(70.0, 40.0), false, SIZE, PX, 4) {
        Outcome::Captured(c) => {
            assert_eq!(c.region, Region { x: 60, y: 30, width: 100, height: 50 })
        }
        _ => panic!("captured"),
    }
}

#[test]
fn a_recording_pick_gives_a_part_of_the_screen() {
    let mut o = picker();
    o.mode = OverlayMode::RecordPick;
    o.set_frame(frame(200, 100), false, SIZE, PX, 1);
    o.current = Some(Picked::Free(rect((10.0, 10.0, 20.0, 30.0))));
    match o.finish(SIZE, PX, 2) {
        Outcome::Record(w) => assert_eq!(w, win(10, 10, 20, 30)),
        _ => panic!("recorded"),
    }
    assert!(o.hidden && o.frame.is_none());
}

#[test]
fn a_selection_off_the_frame_is_given_up_or_fails() {
    let mut o = picker();
    o.set_frame(frame(100, 100), false, SIZE, PX, 1);
    o.view = (200, 100);
    o.current = Some(Picked::Free(rect((90.0, 10.0, 60.0, 30.0))));
    match o.finish(SIZE, PX, 2) {
        Outcome::Failed(e) => assert!(e.contains("100"), "{e}"),
        _ => panic!("failed"),
    }
    assert!(o.hidden);
    let mut o = picker();
    o.set_frame(frame(200, 100), false, SIZE, PX, 1);
    o.current = Some(Picked::Snap(win(300, 300, 40, 40)));
    assert!(matches!(o.finish(SIZE, PX, 2), Outcome::Cancelled));
    assert!(o.hidden);
}

#[test]
fn handles_resize_and_the_inside_moves() {
    let mut o = picker();
    o.set_frame(frame(200, 100), false, SIZE, PX, 1);
    let start = rect((50.0, 20.0, 60.0, 40.0));
    o.current = Some(Picked::Free(start));
    assert_eq!(handle_of(start, pt(110.0, 60.0)), Some(3));
    assert_eq!(handle_of(start, pt(80.0, 40.0)), None);
    o.pressed(pt(110.0, 60.0), 1, SIZE, PX, 2);
    o.pointer_moved(pt(130.0, 80.0), false, SIZE, 3);
    o.released(pt(130.0, 80.0), false, SIZE, PX, 4);
    assert_eq!(o.current, Some(Picked::Free(rect((50.0, 20.0, 80.0, 60.0)))));
    // Moved by its inside, it stays in the window.
    o.pressed(pt(70.0, 40.0), 1, SIZE, PX, 5);
    o.pointer_moved(pt(300.0, 45.0), false, SIZE, 6);
    o.released(pt(300.0, 45.0), false, SIZE, PX, 7);
    assert_eq!(o.current, Some(Picked::Free(rect((120.0, 25.0, 80.0, 60.0)))));
}

#[test]
fn keys_move_snap_and_cancel() {
    let mut o = picker();
    o.set_frame(frame(200, 100), false, SIZE, PX, 1);
    o.current = Some(Picked::Free(rect((50.0, 20.0, 60.0, 40.0))));
    assert!(matches!(
        o.key_down("right", false, false, false, SIZE, PX, 2),
        Keyed::Moved
    ));
    assert_eq!(o.current, Some(Picked::Free(rect((51.0, 20.0, 60.0, 40.0)))));
    o.key_down("up", true, false, false, SIZE, PX, 3);
    assert_eq!(o.current, Some(Picked::Free(rect((51.0, 10.0, 60.0, 40.0)))));
    assert!(matches!(
        o.key_down("escape", false, true, false, SIZE, PX, 4),
        Keyed::Cancelled
    ));
}

#[test]
fn a_failed_save_ends_the_session_with_the_next_frame() {
    let mut o = picker();
    o.set_frame(frame(200, 100), false, SIZE, PX, 1);
    o.current = Some(Picked::Free(rect((10.0, 10.0, 20.0, 20.0))));
    o.finish(SIZE, PX, 2);
    o.finalized(false, true);
    assert!(o.drop_failed());
    assert!(o.hidden && o.flight.is_none());
    assert!(!o.drop_failed());
}

#[test]
fn a_landed_capture_is_handed_over_once_at_rest() {
    let mut o = picker();
    o.set_frame(frame(200, 100), false, SIZE, PX, 1);
    o.current = Some(Picked::Free(rect((10.0, 10.0, 20.0, 20.0))));
    o.finish(SIZE, PX, 2);
    o.finalized(true, true);
    assert!(!o.flight_frame(false));
    assert!(o.flight_frame(true));
    assert!(!o.flight_frame(true));
    // Another flight's toast does not park this one.
    o.park_after(77);
    assert!(!o.hidden);
    o.park_after(2);
    assert!(o.hidden);
}

#[test]
fn an_empty_layout_opens_only_where_the_compositor_knows_it() {
    let empty = layout(Vec::new(), Vec::new());
    assert_eq!(empty.union, win(0, 0, 0, 0));
    assert_eq!(can_open(false, &empty), Err("no monitor layout".to_string()));
    assert_eq!(can_open(true, &empty), Ok(()));
    let two: ShellLayout = layout(vec![win(0, 0, 100, 50), win(-40, 10, 40, 80)], Vec::new());
    assert_eq!(two.union, win(-40, 0, 140, 90));
    assert_eq!(can_open(false, &two), Ok(()));
}

#[test]
fn the_lens_scales_between_window_and_frame() {
    // A window of 100 by 50 over a frame of 200 by 100.
    let lens = Lens { origin: (0, 0), view: (200, 100), size: (100 * PX, 50 * PX) };
    assert_eq!(
        lens.rect_to_frame(rect((10.0, 5.0, 20.0, 10.0))),
        Region { x: 20, y: 10, width: 40, height: 20 }
    );
    assert_eq!(lens.to_logical(win(20, 10, 40, 20)), rect((10.0, 5.0, 20.0, 10.0)));
    assert_eq!(lens.frame_pos(pt(12.5, 7.0)), (25, 14));
    assert_eq!(size_label(rect((10.0, 5.0, 20.0, 10.0)), &lens), "40 \u{d7} 20");
}

#[test]
fn the_loupe_names_the_pixel_and_its_color() {
    let f = frame(40, 30);
    let l = loupe_image(&f, 7, 5);
    assert!(l.info.contains("7") && l.info.contains("5"), "{}", l.info);
    // Red is the third byte of a BGRA pixel.
    assert_eq!(l.color.to_lowercase(), "#0c0507");
    assert_eq!(l.bgra.len() % 4, 0);
}

#[test]
fn labels_stand_beside_the_selection() {
    assert_eq!(coord_label((-3, 17)), "-3, 17");
    assert_eq!(hint("Enter", "Esc"), "Enter capture   Esc cancel");
    let (above, below) = labels_at(rect((10.0, 60.0, 20.0, 20.0)));
    assert_eq!((above, below), (pt(10.0, 32.0), pt(10.0, 86.0)));
    // Near the top it goes inside.
    assert_eq!(labels_at(rect((10.0, 20.0, 20.0, 20.0))).0, pt(10.0, 24.0));
}

#[test]
fn a_reset_picker_keeps_only_the_pointer() {
    let mut o = picker();
    o.set_frame(frame(200, 100), false, SIZE, PX, 1);
    o.pressed(pt(150.0, 10.0), 1, SIZE, PX, 2);
    o.pointer_moved(pt(190.0, 30.0), false, SIZE, 3);
    let (anchor, cursor) = (o.anchor, o.cursor);
    o.reset(layout(vec![win(0, 0, 50, 40)], Vec::new()), session());
    assert!(!o.dragging && o.frame.is_none() && o.current.is_none() && o.windows.is_empty());
    assert_eq!(o.view, (50, 40));
    assert_eq!((o.anchor, o.cursor), (anchor, cursor));
}

#[test]
fn the_first_frame_opens_it() {
    let mut o = picker();
    assert_eq!(o.frame_at(40, 90), 40);
    assert_eq!(o.frame_at(70, 90), 40);
    assert_eq!(o.opened, Some(40));
}

#[test]
fn the_coordinates_turn_away_from_the_edges() {
    assert_eq!(coord_at(pt(50.0, 20.0), SIZE), pt(68.0, 36.0));
    assert_eq!(coord_at(pt(110.0, 60.0), SIZE), pt(128.0, 76.0));
    assert_eq!(coord_at(pt(111.0, 61.0), SIZE), pt(29.0, 31.0));
}

/// A picker over two monitors, the left one beside the origin.
fn wide() -> Overlay {
    let l = layout(
        vec![win(0, 0, 200, 100), win(-200, 0, 200, 100)],
        vec![win(-150, 20, 60, 40)],
    );
    assert_eq!(l.union, win(-200, 0, 400, 100));
    Overlay::new(l, session())
}

const WIDE: (i64, i64) = (400 * PX, 100 * PX);

#[test]
fn a_monitor_left_of_the_origin_is_captured_to_the_pixel() {
    let mut o = wide();
    o.set_frame(frame(400, 100), false, WIDE, PX, 1);
    o.pressed(pt(10.0, 60.0), 1, WIDE, PX, 2);
    o.pointer_moved(pt(40.0, 90.0), false, WIDE, 3);
    o.released(pt(40.0, 90.0), false, WIDE, PX, 4);
    match o.finish(WIDE, PX, 5) {
        Outcome::Captured(c) => {
            assert_eq!(c.region, Region { x: 10, y: 60, width: 30, height: 30 });
            assert_eq!(&c.crop[..4], &[10, 60, 70, 255]);
        }
        _ => panic!("captured"),
    }
    // The toast goes to the monitor that the selection is on.
    assert_eq!(o.flight.unwrap().screen, rect((-200.0, 0.0, 200.0, 100.0)));
}

#[test]
fn a_window_left_of_the_origin_is_recorded_where_it_is() {
    let mut o = wide();
    o.mode = OverlayMode::RecordPick;
    o.set_frame(frame(400, 100), false, WIDE, PX, 1);
    o.current = Some(Picked::Snap(win(-150, 20, 60, 40)));
    match o.finish(WIDE, PX, 2) {
        Outcome::Record(r) => assert_eq!(r, win(-150, 20, 60, 40)),
        _ => panic!("recorded"),
    }
    let mut o = wide();
    o.mode = OverlayMode::RecordPick;
    o.set_frame(frame(400, 100), false, WIDE, PX, 1);
    o.current = Some(Picked::Free(rect((10.0, 60.0, 30.0, 30.0))));
    match o.finish(WIDE, PX, 2) {
        Outcome::Record(r) => assert_eq!(r, win(-190, 60, 30, 30)),
        _ => panic!("recorded"),
    }
}

#[test]
fn the_lens_counts_from_the_corner_of_the_frame() {
    let lens = Lens { origin: (-200, 30), view: (400, 100), size: WIDE };
    assert_eq!(
        lens.rect_to_frame(rect((10.0, 5.0, 20.0, 10.0))),
        Region { x: 10, y: 5, width: 20, height: 10 }
    );
    assert_eq!(lens.frame_pos(pt(12.5, 7.0)), (12, 7));
    assert_eq!(
        lens.region_of(Picked::Snap(win(-150, 40, 60, 20))),
        Region { x: 50, y: 10, width: 60, height: 20 }
    );
    assert_eq!(lens.to_logical(win(-150, 40, 60, 20)), rect((50.0, 10.0, 60.0, 20.0)));
}
