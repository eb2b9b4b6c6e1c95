//! Where the recording chip goes, and its clock.

use iris::chip::{origin, Chip, WIN_H, WIN_W};
use iris::geom::PX;
use iris::screen::WinRect;

fn rect(x: i32, y: i32, width: u32, height: u32) -> WinRect {
    WinRect { x, y, width, height }
}

/// Left monitor 1000x1000 at the origin (primary); right monitor
/// 600x700 at (1000, 300), leaving a 600x300 strip above it that is on
/// no monitor.
fn monitors() -> Vec<WinRect> {
    vec![rect(0, 0, 1000, 1000), rect(1000, 300, 600, 700)]
}

/// The chip's corner in logical pixels, at a whole scale.
fn corner(r: Option<WinRect>, mons: &Vec<WinRect>, scale: i64) -> (i64, i64) {
    let p = origin(r, mons, scale * PX);
    assert_eq!(p.x % (scale * PX), 0);
    assert_eq!(p.y % (scale * PX), 0);
    (p.x / (scale * PX), p.y / (scale * PX))
}

#[test]
fn above_the_rect_when_its_monitor_has_room() {
    assert_eq!(
        corner(Some(rect(300, 300, 500, 400)), &monitors(), 1),
        (800 - WIN_W, 300 - WIN_H)
    );
}

#[test]
fn room_above_is_exact_at_the_boundary() {
    let top = WIN_H as i32;
    assert_eq!(
        corner(Some(rect(300, top, 500, 400)), &monitors(), 1),
        (800 - WIN_W, 0)
    );
    // One pixel less and the chip no longer fits above: it goes below.
    assert_eq!(
        corner(Some(rect(300, top - 1, 500, 400)), &monitors(), 1),
        (800 - WIN_W, (top - 1 + 400) as i64)
    );
}

#[test]
fn below_the_rect_at_the_top_edge() {
    assert_eq!(
        corner(Some(rect(300, 0, 500, 400)), &monitors(), 1),
        (800 - WIN_W, 400)
    );
}

#[test]
fn room_below_is_exact_at_the_boundary() {
    let bottom = 1000 - WIN_H as u32;
    assert_eq!(
        corner(Some(rect(300, 0, 500, bottom)), &monitors(), 1),
        (800 - WIN_W, bottom as i64)
    );
    // One pixel taller and neither side fits: inside the top edge.
    assert_eq!(
        corner(Some(rect(300, 0, 500, bottom + 1)), &monitors(), 1),
        (800 - WIN_W, 0)
    );
}

#[test]
fn inside_the_top_edge_when_neither_side_fits() {
    assert_eq!(
        corner(Some(rect(100, 0, 800, 1000)), &monitors(), 1),
        (900 - WIN_W, 0)
    );
}

#[test]
fn a_rect_past_its_monitor_top_keeps_the_chip_on_the_monitor() {
    assert_eq!(
        corner(Some(rect(100, -50, 800, 1100)), &monitors(), 1),
        (900 - WIN_W, 0)
    );
}

#[test]
fn stays_on_the_monitor_horizontally() {
    // Narrower than the chip at the right edge: the chip shifts left
    // instead of spilling onto the next monitor.
    assert_eq!(
        corner(Some(rect(900, 400, 90, 200)), &monitors(), 1).0,
        1000 - WIN_W
    );
    // Narrower than the chip at the left edge: the chip starts at it.
    assert_eq!(corner(Some(rect(0, 400, 90, 200)), &monitors(), 1).0, 0);
}

#[test]
fn a_monitor_narrower_than_the_chip_pins_it_to_its_left_edge() {
    // A 100px-wide monitor right of the primary: the chip overhangs its
    // right edge instead of spilling left onto the primary.
    let mons = vec![rect(0, 0, 1000, 1000), rect(1000, 0, 100, 1000)];
    assert!(WIN_W > 100);
    assert_eq!(corner(Some(rect(1010, 400, 50, 200)), &mons, 1).0, 1000);
}

#[test]
fn the_rect_monitor_bounds_the_chip_not_the_primary() {
    // Root space has room above this rect, but on no monitor: the chip
    // goes below it, on the right monitor.
    assert_eq!(
        corner(Some(rect(1100, 300, 400, 300)), &monitors(), 1),
        (1500 - WIN_W, 600)
    );
}

#[test]
fn a_rect_centered_on_no_monitor_uses_the_primary() {
    assert_eq!(
        corner(Some(rect(1100, 0, 400, 200)), &monitors(), 1),
        (1000 - WIN_W, 200)
    );
}

#[test]
fn no_rect_puts_the_chip_inside_the_primary_top_right() {
    assert_eq!(corner(None, &monitors(), 1), (1000 - WIN_W, 0));
}

#[test]
fn scale_maps_root_pixels_to_logical() {
    let mons = vec![rect(0, 0, 2000, 2000)];
    assert_eq!(
        corner(Some(rect(600, 600, 1000, 800)), &mons, 2),
        (800 - WIN_W, 300 - WIN_H)
    );
}

#[test]
fn without_monitors_the_rect_bounds_the_chip() {
    let none: Vec<WinRect> = Vec::new();
    assert_eq!(
        corner(Some(rect(300, 300, 500, 400)), &none, 1),
        (800 - WIN_W, 300)
    );
    assert_eq!(corner(None, &none, 1), (0, 0));
}

/// One second, and a start that is not zero.
const S: u64 = 1000;
const T0: u64 = 77_000;

#[test]
fn the_clock_runs_with_wall_time_while_recording() {
    let chip = Chip::new(None, T0);
    assert_eq!(chip.elapsed(T0), 0);
    assert_eq!(chip.elapsed(T0 + 5 * S), 5 * S);
}

#[test]
fn a_pause_stops_the_clock_and_a_resume_continues_it() {
    let mut chip = Chip::new(None, T0);
    chip.set_paused(true, T0 + 3 * S);
    assert_eq!(chip.elapsed(T0 + 3 * S), 3 * S);
    assert_eq!(chip.elapsed(T0 + 60 * S), 3 * S);
    chip.set_paused(false, T0 + 60 * S);
    assert_eq!(chip.elapsed(T0 + 60 * S), 3 * S);
    assert_eq!(chip.elapsed(T0 + 62 * S), 5 * S);
}

#[test]
fn pauses_add_up() {
    let mut chip = Chip::new(None, T0);
    // Four rounds of 2s recorded, then 10s paused.
    for k in 0..4u64 {
        let round = T0 + k * 12 * S;
        chip.set_paused(true, round + 2 * S);
        chip.set_paused(false, round + 12 * S);
    }
    assert_eq!(chip.elapsed(T0 + 48 * S), 8 * S);
}

#[test]
fn a_repeated_pause_or_resume_changes_nothing() {
    let mut chip = Chip::new(None, T0);
    chip.set_paused(false, T0 + S);
    assert_eq!(chip.elapsed(T0 + 4 * S), 4 * S);
    chip.set_paused(true, T0 + 4 * S);
    // The pause began at 4s, not at the second request.
    chip.set_paused(true, T0 + 9 * S);
    chip.set_paused(false, T0 + 10 * S);
    assert_eq!(chip.elapsed(T0 + 11 * S), 5 * S);
}

#[test]
fn the_text_follows_the_second_and_the_next_frame_waits_for_it() {
    let mut chip = Chip::new(Some(false), T0);
    assert_eq!(chip.text, "00:00");
    assert_eq!(chip.frame(T0 + 61_250), Some(750));
    assert_eq!(chip.text, "01:01");
    // One tick at a time.
    assert_eq!(chip.frame(T0 + 61_300), None);
    chip.ticked();
    assert_eq!(chip.frame(T0 + 62_000), Some(1000));
    assert_eq!(chip.text, "01:02");
    // A paused clock asks for no frame.
    chip.set_paused(true, T0 + 62_500);
    assert_eq!(chip.frame(T0 + 70_000), None);
    assert_eq!(chip.text, "01:02");
    // An hour shows as minutes.
    chip.set_paused(false, T0 + 70_000);
    chip.frame(T0 + 70_000 - 62_500 + 62_500 + 3_600_000);
    assert_eq!(chip.text, "61:02");
}

#[test]
fn the_microphone_turns_only_where_there_is_sound() {
    let mut chip = Chip::new(Some(true), T0);
    chip.set_mic(false);
    assert_eq!(chip.mic, Some(false));
    let mut silent = Chip::new(None, T0);
    silent.set_mic(true);
    assert_eq!(silent.mic, None);
}
