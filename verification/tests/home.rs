//! The home window's entrance.

use iris::flight::WAY;
use iris::home::{
    loading_progress, mark_pose, reveal_progress, stagger, tile_command, tile_look, tiles, Home,
    HomeTile, TileShade,
    BRAND_MARK, LOADING, MARK, MARK_END, MARK_RISE, REVEAL,
};

#[test]
fn loading_reaches_exactly_one_from_either_start() {
    for start in [0, REVEAL] {
        for extra_ms in [0, 1, 16, 5_000] {
            let t = loading_progress(start, LOADING + extra_ms, LOADING);
            assert_eq!(t, WAY, "start {start}, +{extra_ms}ms");
        }
    }
}

#[test]
fn reveal_is_exactly_done_when_loading_is() {
    assert_eq!(reveal_progress(WAY), WAY);
    assert_eq!(reveal_progress(REVEAL), 0);
    assert_eq!(reveal_progress(0), 0);
    // Monotonic across the content phase, never past its ends.
    let mut last = 0;
    for i in 0..=1000 {
        let r = reveal_progress(REVEAL + (WAY - REVEAL) * i / 1000);
        assert!((0..=WAY).contains(&r) && r >= last, "step {i}: {r}");
        last = r;
    }
}

#[test]
fn warm_open_starts_at_the_reveal() {
    // A later home opens with the tiles already entering: the
    // first frame is past the brand-only phase.
    let t = loading_progress(REVEAL, 0, LOADING);
    assert!(t >= REVEAL && reveal_progress(t) == 0);
    let t = loading_progress(REVEAL, 16, LOADING);
    assert!(reveal_progress(t) > 0);
}

/// The spring the mark follows: stiffness 280, damping 30, its clock 0.8
/// seconds.
fn spring(t: f64) -> f64 {
    let t = t.clamp(0.0, 1.0);
    let w = 280f64.sqrt();
    let zeta = 30.0 / (2.0 * w);
    let wd = w * (1.0 - zeta * zeta).sqrt();
    let time = t * 0.8;
    let decay = (-zeta * w * time).exp();
    1.0 - decay * ((wd * time).cos() + zeta * w / wd * (wd * time).sin())
}

#[test]
fn the_content_starts_as_the_mark_comes_to_rest() {
    // The mark stops moving on screen within 0.1% of rest.
    let mark_end = MARK_END as f64 / WAY as f64;
    let reveal = REVEAL as f64 / WAY as f64;
    let off_rest = |loading_t: f64| (1.0 - spring(loading_t / mark_end)).abs();
    let still = (0..=10_000)
        .map(|i| i as f64 / 10_000.0)
        .rev()
        .take_while(|&t| off_rest(t) < 0.001)
        .last()
        .expect("the mark comes to rest");
    let frame = 1.0 / 60.0 / (LOADING as f64 / 1000.0);
    assert!(
        (still - reveal).abs() < frame,
        "the mark rests at {still}, the content starts at {reveal}: \
         more than a frame apart"
    );
}

#[test]
fn only_the_first_window_plays_the_brand_moment() {
    let mut played = false;
    let mut first = Home::new(&mut played);
    assert!(first.brand && played);
    let mut second = Home::new(&mut played);
    assert!(!second.brand);
    assert_eq!(first.frame(1000, LOADING), 0);
    assert_eq!(second.frame(1000, LOADING), REVEAL);
    assert_eq!(first.frame(1405, LOADING), WAY / 2);
    assert_eq!(second.frame(9000, LOADING), WAY);
    assert_eq!(second.mark_progress(0), WAY);
    assert_eq!(first.mark_progress(MARK_END), WAY);
    assert_eq!(first.mark_progress(MARK_END / 2), WAY / 2);
}

#[test]
fn the_mark_shrinks_to_its_place() {
    assert_eq!(mark_pose(0), (BRAND_MARK, MARK_RISE));
    assert_eq!(mark_pose(WAY), (MARK, 0));
    assert_eq!(mark_pose(WAY / 2), ((BRAND_MARK + MARK) / 2, MARK_RISE / 2));
}

#[test]
fn tiles_arrive_one_after_another() {
    assert_eq!(stagger(0, 0), 0);
    assert_eq!(stagger(320_000_000, 0), WAY / 2);
    assert_eq!(stagger(180_000_000, 1), 0);
    for i in 0..3 {
        assert_eq!(stagger(WAY, i), WAY);
    }
    let all = tiles();
    assert_eq!(all[0], (HomeTile::Capture, "New Screenshot"));
    assert_eq!(format!("{:?}", tile_command(all[1].0)), "RecordToggle");
}

#[test]
fn hovering_and_pressing_follow_the_pointer() {
    let mut played = true;
    let mut h = Home::new(&mut played);
    h.hover(1, true);
    // Another tile's leave does not clear it.
    h.hover(0, false);
    assert_eq!(h.hovered, Some(1));
    h.hover(1, false);
    assert_eq!(h.hovered, None);
    h.press(Some(2));
    assert_eq!(h.pressed, Some(2));
}

#[test]
fn frames_follow_while_a_tile_moves() {
    let mut played = true;
    let mut h = Home::new(&mut played);
    // The entrance alone keeps the frames coming.
    assert!(h.advance(0, WAY - 1));
    assert!(!h.advance(16, WAY));
    h.hover(1, true);
    h.press(Some(1));
    let mut now = 16;
    let mut frames = 0;
    loop {
        now += 16;
        frames += 1;
        assert!(frames < 200, "everything comes to rest");
        let live = h.advance(now, WAY);
        assert!(h.lifts[1].value <= WAY, "no overshoot");
        if !live {
            break;
        }
    }
    assert!(frames > 10);
    assert!(h.lifts[1].settled(WAY) && h.sinks[1].settled(WAY));
    assert!(h.lifts[0].settled(0) && h.sinks[2].settled(0));
    h.hover(1, false);
    assert!(h.advance(now + 16, WAY));
}

#[test]
fn a_tile_rises_and_sinks() {
    let rest = tile_look(WAY, 0, false);
    assert_eq!((rest.drop, rest.shade), (0, TileShade::Rest));
    assert_eq!(tile_look(0, 0, true).drop, 12 * 10_000);
    assert_eq!(tile_look(0, 0, true).shade, TileShade::Hover);
    let down = tile_look(WAY, WAY, true);
    assert_eq!((down.drop, down.shade), (10_000, TileShade::Press));
    // Half way in it has an eighth of the way left.
    assert_eq!(tile_look(WAY / 2, 0, false).drop, 15_000);
}
