//! Painting actions into an image, and repainting part of one.

use iris::action::{compute_bbox, Action, Tool};
use iris::canvas::{Canvas, Pixel};
use iris::geom::{Point, Rect, PX};
use iris::mosaic::pixelate_region_bgra;
use iris::outline::{draw, outline, ring_size, Heading, Shades, TURN};
use iris::raster::{rasterize, Dot, Ink, Mix, WASH_ALPHA};
use iris::rebuild::{apply_plan, clamp_region, dirty_plan, replay_actions, replay_closure, restore_region};
use iris::action::footprint;
use iris::wide::{product, product_le, root_product, root_ratio, Wide};
use iris::geom::intersects;

fn px(v: f32) -> i64 {
    (v * PX as f32).round() as i64
}

fn pt(p: (f32, f32)) -> Point {
    Point { x: px(p.0), y: px(p.1) }
}

fn area(r: (f32, f32, f32, f32)) -> Rect {
    Rect { x: px(r.0), y: px(r.1), w: px(r.2), h: px(r.3) }
}

fn clear() -> Pixel {
    Pixel { r: 0, g: 0, b: 0, a: 0 }
}

fn action(tool: Tool, points: Vec<(f32, f32)>, filled: bool) -> Action {
    Action {
        tool,
        color: "#ff0000".to_string(),
        width: 2 * PX,
        points: points.into_iter().map(pt).collect(),
        text: None,
        font_size: 16 * PX,
        filled,
        blur_patch: None,
        blur_rect: area((0.0, 0.0, 0.0, 0.0)),
        step: 0,
        step_label: "0".to_string(),
        bbox: None,
    }
}

/// The tables of red at `alpha` over each value.
fn red_over(alpha: f32) -> Mix {
    let table = |src: f32| -> Vec<u8> {
        (0..256)
            .map(|v| (src * alpha + v as f32 * (1.0 - alpha)) as u8)
            .collect()
    };
    Mix { r: table(255.0), g: table(0.0), b: table(0.0), a: table(255.0) }
}

/// The tables of full white coverage.
fn white() -> Mix {
    Mix { r: vec![255; 256], g: vec![255; 256], b: vec![255; 256], a: vec![255; 256] }
}

fn headings(a: &Action) -> Vec<Heading> {
    if a.tool != Tool::Ellipse || a.points.is_empty() {
        return Vec::new();
    }
    let n = ring_size(a.points[0], a.points[a.points.len() - 1]);
    (0..n)
        .map(|i| {
            let t = i as f64 / n as f64 * std::f64::consts::TAU;
            Heading {
                cos: (t.cos() * TURN as f64) as i64,
                sin: (t.sin() * TURN as f64) as i64,
            }
        })
        .collect()
}

/// A stand-in for glyphs: a bar of dots for each character, as tall as
/// its code says.
fn dots(a: &Action) -> Vec<Dot> {
    let text = match a.tool {
        Tool::Text => a.text.clone().unwrap_or_default(),
        Tool::Counter => a.step_label.clone(),
        _ => String::new(),
    };
    let mut out = Vec::new();
    for (i, c) in text.chars().enumerate() {
        for y in 0..(c as i64 % 8 + 1) {
            out.push(Dot { x: 4 + 6 * i as i64, y: 6 + y, tone: 0 });
        }
    }
    out
}

fn ink(a: &Action) -> Ink {
    Ink {
        spans: outline(a, &headings(a)),
        mix: red_over(WASH_ALPHA as f32 / 255.0),
        dots: dots(a),
        tones: vec![white()],
    }
}

fn blank(w: u32, h: u32) -> Canvas {
    Canvas::filled(w, h, clear())
}

fn drawn(w: u32, h: u32, a: &Action) -> Canvas {
    let mut img = blank(w, h);
    rasterize(&mut img, a, &ink(a));
    img
}

fn painted(img: &Canvas, x: u32, y: u32) -> bool {
    img.get(x, y).a > 0
}

#[test]
fn filled_rect_paints_interior() {
    let img = drawn(20, 20, &action(Tool::Rect, vec![(2.0, 2.0), (18.0, 18.0)], true));
    assert!(painted(&img, 10, 10), "interior must be painted");
    assert!(painted(&img, 2, 2), "corner must be painted");
}

#[test]
fn outline_rect_leaves_interior_clear() {
    let img = drawn(20, 20, &action(Tool::Rect, vec![(2.0, 2.0), (18.0, 18.0)], false));
    assert!(!painted(&img, 10, 10), "interior must stay clear");
    assert!(painted(&img, 2, 10), "edge must be painted");
}

#[test]
fn line_stamps_both_endpoints() {
    let img = drawn(30, 10, &action(Tool::Line, vec![(2.0, 5.0), (28.0, 5.0)], false));
    assert!(painted(&img, 2, 5));
    assert!(painted(&img, 28, 5));
    assert!(painted(&img, 15, 5));
}

#[test]
fn text_action_paints_glyph_pixels() {
    let mut a = action(Tool::Text, vec![(4.0, 30.0)], false);
    a.text = Some("Hi".to_string());
    a.font_size = 24 * PX;
    let img = drawn(80, 40, &a);
    let any = (0..80)
        .flat_map(|x| (0..40).map(move |y| (x, y)))
        .any(|(x, y)| img.get(x, y).a > 0);
    assert!(any, "text action must paint glyph pixels");
    // The glyphs stand one font size above the point.
    assert!(painted(&img, 4 + 4, 30 - 24 + 6));
    // Without a text there is nothing to paint.
    a.text = None;
    let img = drawn(80, 40, &a);
    assert!(img.pixels.iter().all(|p| p.a == 0));
}

#[test]
fn arrow_paints_head_at_tip_not_tail() {
    let img = drawn(60, 30, &action(Tool::Arrow, vec![(5.0, 15.0), (50.0, 15.0)], false));
    // The head fans out behind the tip: its base sits ~14px back
    // from (50,15) and spans y 8..22 there, narrowing to the tip.
    assert!(painted(&img, 36, 8), "upper fan base must be painted");
    assert!(painted(&img, 36, 22), "lower fan base must be painted");
    assert!(painted(&img, 44, 15), "fan interior must be painted");
    assert!(painted(&img, 50, 15), "tip must be painted");
    assert!(!painted(&img, 10, 8), "tail must not fan out");
}

#[test]
fn filled_ellipse_paints_center_not_corners() {
    let img = drawn(30, 30, &action(Tool::Ellipse, vec![(5.0, 5.0), (25.0, 25.0)], true));
    assert!(painted(&img, 15, 15), "center must be painted");
    assert!(!painted(&img, 5, 5), "bounding corner must stay clear");
}

#[test]
fn banded_fill_covers_band_boundaries() {
    let img = drawn(
        1024,
        512,
        &action(Tool::Rect, vec![(100.0, 100.0), (900.0, 400.0)], true),
    );
    for y in 100..=400 {
        for x in 100..=900 {
            assert!(painted(&img, x, y), "interior pixel ({x},{y}) dropped");
        }
    }
    for x in 99..=901 {
        assert!(!painted(&img, x, 99), "top border ({x},99) painted");
        assert!(!painted(&img, x, 401), "bottom border ({x},401) painted");
    }
    for y in 99..=401 {
        assert!(!painted(&img, 99, y), "left border (99,{y}) painted");
        assert!(!painted(&img, 901, y), "right border (901,{y}) painted");
    }

    // A full-image fill must paint every pixel.
    let img = drawn(
        1024,
        512,
        &action(Tool::Rect, vec![(0.0, 0.0), (1023.0, 511.0)], true),
    );
    assert!(
        img.pixels.iter().all(|p| p.a > 0),
        "banded full fill dropped a row"
    );

    // A large filled ellipse: center painted, bounding corner clear.
    let img = drawn(
        1024,
        512,
        &action(Tool::Ellipse, vec![(200.0, 100.0), (800.0, 400.0)], true),
    );
    assert!(painted(&img, 500, 250), "ellipse center must be painted");
    assert!(
        painted(&img, 500, 128),
        "ellipse band-boundary row must be painted"
    );
    assert!(
        !painted(&img, 210, 110),
        "ellipse bounding corner must stay clear"
    );
}

#[test]
fn highlight_joint_blends_once() {
    // L-shaped highlight: the joint at (10,10) is covered by both
    // segments, the arm at (5,10) by only the horizontal one.
    let img = drawn(
        40,
        40,
        &action(
            Tool::Highlight,
            vec![(2.0, 10.0), (10.0, 10.0), (10.0, 30.0)],
            false,
        ),
    );
    let joint = img.get(10, 10);
    let arm = img.get(5, 10);
    assert_eq!(
        joint, arm,
        "joint must blend exactly once: {joint:?} vs {arm:?}"
    );
    assert!(joint.r < 110, "joint rgb {} shows compounding", joint.r);
    assert_eq!(joint, Pixel { r: 89, g: 0, b: 0, a: 89 });
}

#[test]
fn pixelate_region_averages_cells_and_swizzles_bgra() {
    // 48x24 image: left half red, right half blue, alpha 255.
    let mut img = blank(48, 24);
    for y in 0..24 {
        for x in 0..48 {
            let p = if x < 24 {
                Pixel { r: 200, g: 0, b: 0, a: 255 }
            } else {
                Pixel { r: 0, g: 0, b: 200, a: 255 }
            };
            img.set(x, y, p);
        }
    }
    // Region (0,0,48,24) -> cells 4x2 of 12x12. Cells 0-1 red, 2-3 blue.
    let bgra = pixelate_region_bgra(&mut img, 0, 0, 48, 24);
    assert_eq!(bgra.len(), 48 * 24 * 4);
    // Cell interior: (6,6) is cell (0,0) = red.
    assert_eq!(img.get(6, 6), Pixel { r: 200, g: 0, b: 0, a: 255 });
    // BGRA tile at same pixel: B and R swapped.
    let i = (6 * 48 + 6) * 4;
    assert_eq!(&bgra[i..i + 4], &[0, 0, 200, 255]);
    // (30,6) is cell (2,0) = blue.
    assert_eq!(img.get(30, 6), Pixel { r: 0, g: 0, b: 200, a: 255 });
    let i = (6 * 48 + 30) * 4;
    assert_eq!(&bgra[i..i + 4], &[200, 0, 0, 255]);
}

#[test]
fn pixelate_region_respects_offsets_and_leaves_outside() {
    let mut img = blank(32, 32);
    for y in 0..32 {
        for x in 0..32 {
            img.set(x, y, Pixel { r: (x * 8) as u8, g: (y * 8) as u8, b: 0, a: 255 });
        }
    }
    let before = img.copy();
    // Region (8,8,16,16): one 16x16 cell (16/12 -> sw=sh=1).
    let bgra = pixelate_region_bgra(&mut img, 8, 8, 16, 16);
    // The single cell averages x in 8..24, y in 8..24:
    // mean of (x*8) over 8..24 = 8*15.5 = 124; same for y.
    let mean = Pixel { r: 124, g: 124, b: 0, a: 255 };
    assert_eq!(img.get(12, 12), mean);
    assert_eq!(img.get(23, 23), mean);
    // Outside the region is untouched.
    assert_eq!(img.get(4, 4), before.get(4, 4));
    assert_eq!(img.get(28, 28), before.get(28, 28));
    // Tile is the region only: 16x16 BGRA of the averaged cell.
    assert_eq!(bgra.len(), 16 * 16 * 4);
    assert_eq!(&bgra[0..4], &[0, 124, 124, 255]);
}

fn stroke(points: Vec<(f32, f32)>, bbox: (f32, f32, f32, f32)) -> Action {
    let mut a = action(Tool::Pen, points, false);
    a.bbox = Some(area(bbox));
    a
}

fn highlight(points: Vec<(f32, f32)>, bbox: (f32, f32, f32, f32)) -> Action {
    let mut a = action(Tool::Highlight, points, false);
    a.bbox = Some(area(bbox));
    a
}

fn blur(rect: (f32, f32, f32, f32)) -> Action {
    let mut a = action(Tool::Blur, Vec::new(), false);
    a.blur_rect = area(rect);
    a.bbox = Some(area(rect));
    a
}

fn counter(at: (f32, f32), step: u32) -> Action {
    let mut a = action(Tool::Counter, vec![at], false);
    a.step = step;
    a.step_label = step.to_string();
    let r = 16.0 * 0.9;
    a.bbox = Some(area((at.0 - r, at.1 - r, r * 2.0, r * 2.0)));
    a
}

fn inks(actions: &Vec<Action>) -> Vec<Ink> {
    actions.iter().map(ink).collect()
}

fn list(actions: &[&Action]) -> Vec<Action> {
    actions.iter().map(|a| a.copy()).collect()
}

fn ground(w: u32, h: u32) -> Canvas {
    Canvas::filled(w, h, Pixel { r: 10, g: 20, b: 30, a: 255 })
}

/// Full-rebuild reference: base plus every action in commit order.
fn full_rebuild(base: &Canvas, actions: &[&Action]) -> Canvas {
    let mut img = base.copy();
    let mut actions = list(actions);
    let inks = inks(&actions);
    replay_actions(&mut img, &mut actions, &inks, 0);
    img
}

/// The dirty path: plan against `region`, apply to a composite
/// that already holds the pre-edit render.
fn dirty_rebuild(base: &Canvas, composite: &mut Canvas, actions: &[&Action], region: Rect) {
    let mut actions = list(actions);
    let (closed, mark) = dirty_plan(&mut actions, region, composite.width, composite.height);
    let inks = inks(&actions);
    apply_plan(base, composite, &mut actions, &inks, closed, &mark);
}

#[test]
fn dirty_rebuild_matches_full_rebuild() {
    // Two disjoint strokes: one top-left, one bottom-right.
    let a = stroke(vec![(2.0, 2.0), (10.0, 2.0)], (0.0, 0.0, 14.0, 6.0));
    let b = stroke(vec![(30.0, 30.0), (38.0, 38.0)], (26.0, 26.0, 16.0, 16.0));
    let base = ground(40, 40);

    // Remove b: the dirty region is its bbox; a must survive.
    let mut dirty = full_rebuild(&base, &[&a, &b]);
    dirty_rebuild(&base, &mut dirty, &[&a], area((26.0, 26.0, 16.0, 16.0)));
    let full = full_rebuild(&base, &[&a]);
    assert_eq!(
        dirty.pixels, full.pixels,
        "dirty rebuild must equal full rebuild"
    );
    // The skipped stroke's pixels survived: they were never restored.
    assert_eq!(dirty.get(5, 2), full.get(5, 2));
    assert_eq!(dirty.get(5, 2), Pixel { r: 255, g: 0, b: 0, a: 255 });
}

#[test]
fn alpha_does_not_compound_outside_dirty() {
    // A highlight stroke whose footprint spills past the dirty
    // rect: replaying it over its own surviving ink doubles the
    // 0.35 alpha outside the rect. The region must grow to cover
    // the whole footprint.
    let a = stroke(vec![(2.0, 2.0), (10.0, 2.0)], (0.0, 0.0, 14.0, 6.0));
    let h = highlight(vec![(4.0, 20.0), (36.0, 20.0)], (0.0, 15.0, 40.0, 10.0));
    let base = ground(40, 40);

    let mut dirty = full_rebuild(&base, &[&a, &h]);
    // Remove a; h stays and intersects the dirty rect at its left.
    dirty_rebuild(&base, &mut dirty, &[&h], area((0.0, 0.0, 14.0, 6.0)));

    let full = full_rebuild(&base, &[&h]);
    assert_eq!(
        dirty.pixels, full.pixels,
        "highlight ink outside the dirty rect must not be repainted over itself"
    );
}

#[test]
fn blur_resamples_restored_base() {
    // A blur whose rect spills past the dirty rect: replaying it
    // while the spill still holds the old blur output samples
    // blur-of-blur. The region must cover the blur's whole rect.
    let a = stroke(vec![(2.0, 2.0), (10.0, 2.0)], (0.0, 0.0, 14.0, 6.0));
    let b = blur((0.0, 0.0, 40.0, 40.0));
    let base = ground(40, 40);

    let mut dirty = full_rebuild(&base, &[&a, &b]);
    dirty_rebuild(&base, &mut dirty, &[&b], area((0.0, 0.0, 14.0, 6.0)));

    let full = full_rebuild(&base, &[&b]);
    assert_eq!(
        dirty.pixels, full.pixels,
        "blur must resample restored base, not its own stale output"
    );
}

#[test]
fn transitive_pull_in_replays_chain() {
    // Removing a pulls in the blur that samples its ink; the
    // blur's footprint pulls in the counter stamped inside it.
    let a = stroke(vec![(2.0, 2.0), (10.0, 2.0)], (0.0, 0.0, 14.0, 6.0));
    let b = blur((0.0, 0.0, 30.0, 30.0));
    let c = counter((20.0, 20.0), 1);
    let base = ground(40, 40);

    let mut dirty = full_rebuild(&base, &[&a, &b, &c]);
    dirty_rebuild(&base, &mut dirty, &[&b, &c], area((0.0, 0.0, 14.0, 6.0)));

    let full = full_rebuild(&base, &[&b, &c]);
    assert_eq!(
        dirty.pixels, full.pixels,
        "the closure must replay every action the region transitively touches"
    );
}

#[test]
fn renumbered_counter_repaints() {
    // Removing counter 1 renumbers counter 2 to 1: its ink
    // changes even though its footprint never intersected the
    // dirty rect.
    let c1 = counter((5.0, 5.0), 1);
    let c2 = counter((30.0, 30.0), 2);
    let base = ground(40, 40);

    let mut dirty = full_rebuild(&base, &[&c1, &c2]);
    dirty_rebuild(&base, &mut dirty, &[&c2], c1.bbox.unwrap());

    let mut c2_renumbered = c2.copy();
    c2_renumbered.step = 1;
    c2_renumbered.step_label = "1".to_string();
    let full = full_rebuild(&base, &[&c2_renumbered]);
    assert_eq!(
        dirty.pixels, full.pixels,
        "a renumbered counter must repaint its new digit"
    );
    // The digit is in the picture.
    assert_ne!(full.pixels, full_rebuild(&base, &[&c2]).pixels);
}

#[test]
fn no_intersecting_action_leaves_composite_alone() {
    let a = stroke(vec![(2.0, 2.0), (10.0, 2.0)], (0.0, 0.0, 14.0, 6.0));
    let (region, mark) = replay_closure(&vec![a], area((30.0, 30.0, 8.0, 8.0)), 40, 40);
    assert!(mark.iter().all(|m| !*m), "a far-away region marks nothing");
    assert_eq!(region, area((30.0, 30.0, 8.0, 8.0)), "the region stays put");
}

#[test]
fn missing_bbox_replays_everything() {
    let mut a = stroke(vec![(2.0, 2.0), (10.0, 2.0)], (0.0, 0.0, 14.0, 6.0));
    a.bbox = None;
    let (region, mark) = replay_closure(&vec![a], area((30.0, 30.0, 8.0, 8.0)), 40, 40);
    assert_eq!(mark, [true], "a bbox-less action conservatively replays");
    assert_eq!(
        region,
        area((0.0, 0.0, 40.0, 40.0)),
        "and widens to the full image"
    );
}

#[test]
fn banded_restore_region_matches_full_rebuild() {
    let base = ground(1024, 512);
    // Two strokes: one top-left, one bottom-right. Removing the
    // bottom-right one dirties a region crossing band boundaries.
    let a = stroke(vec![(20.0, 20.0), (200.0, 20.0)], (0.0, 0.0, 220.0, 40.0));
    let b = stroke(
        vec![(100.0, 150.0), (900.0, 400.0)],
        (90.0, 140.0, 820.0, 280.0),
    );
    let mut dirty = full_rebuild(&base, &[&a, &b]);
    dirty_rebuild(&base, &mut dirty, &[&a], b.bbox.unwrap());
    let full = full_rebuild(&base, &[&a]);
    assert_eq!(
        dirty.pixels, full.pixels,
        "banded restore_region must equal the full rebuild"
    );
}

/// An algorithm without the closure: restore only the edit's rect, then
/// replay the suffix from the first intersecting action. Kept to prove
/// the tests above observe the fault it has.
fn legacy_dirty(base: &Canvas, composite: &mut Canvas, actions: &[&Action], region: Rect) {
    let Some((x, y, w, h)) = clamp_region(region, composite.width, composite.height) else {
        return;
    };
    restore_region(base, composite, x, y, w, h);
    let mut actions = list(actions);
    let inks = inks(&actions);
    let first = actions.iter().position(|a| match footprint(a) {
        None => true,
        Some(f) => intersects(f, region),
    });
    if let Some(first) = first {
        replay_actions(composite, &mut actions, &inks, first);
    }
}

#[test]
fn legacy_algorithm_is_observably_wrong() {
    // Alpha compounding: the suffix replay repaints the highlight
    // over its own ink outside the dirty rect.
    let a = stroke(vec![(2.0, 2.0), (10.0, 2.0)], (0.0, 0.0, 14.0, 6.0));
    let h = highlight(vec![(4.0, 20.0), (36.0, 20.0)], (0.0, 15.0, 40.0, 10.0));
    let base = ground(40, 40);
    let mut legacy = full_rebuild(&base, &[&a, &h]);
    legacy_dirty(&base, &mut legacy, &[&a, &h], area((0.0, 0.0, 14.0, 6.0)));
    let full = full_rebuild(&base, &[&h]);
    assert_ne!(
        legacy.pixels, full.pixels,
        "the old algorithm must compound alpha outside the dirty rect"
    );

    // Stale blur sampling: the old restore leaves the blur's own
    // output under the spill, so the resample blurs blur.
    let b = blur((0.0, 0.0, 40.0, 40.0));
    let mut legacy = full_rebuild(&base, &[&a, &b]);
    legacy_dirty(&base, &mut legacy, &[&a, &b], area((0.0, 0.0, 14.0, 6.0)));
    let full = full_rebuild(&base, &[&b]);
    assert_ne!(
        legacy.pixels, full.pixels,
        "the old algorithm must sample its own stale blur output"
    );
}

#[test]
fn a_disc_covers_exact_rows() {
    // A dot at (10, 10) two pixels wide: a row per pixel line from 9 to
    // 11, three pixels wide through the middle, one at the tips.
    let a = action(Tool::Pen, vec![(10.0, 10.0)], false);
    let spans = outline(&a, &Vec::new());
    let rows: Vec<(i64, i64, i64)> = spans.iter().map(|s| (s.y, s.x0, s.x1)).collect();
    assert_eq!(rows, [(9, 10, 10), (10, 9, 11), (11, 10, 10)]);
}

#[test]
fn a_stroke_covers_exact_rows() {
    // Level, two pixels wide: full rows from cap to cap.
    let a = action(Tool::Line, vec![(2.0, 5.0), (8.0, 5.0)], false);
    let rows: Vec<(i64, i64, i64)> = outline(&a, &Vec::new())
        .iter()
        .map(|s| (s.y, s.x0, s.x1))
        .collect();
    assert_eq!(rows, [(4, 2, 8), (5, 1, 9), (6, 2, 8)]);
    // Upright: the same on its side.
    let a = action(Tool::Line, vec![(5.0, 8.0), (5.0, 2.0)], false);
    let rows: Vec<(i64, i64, i64)> = outline(&a, &Vec::new())
        .iter()
        .map(|s| (s.y, s.x0, s.x1))
        .collect();
    assert_eq!(
        rows,
        [
            (1, 5, 5),
            (2, 4, 6),
            (3, 4, 6),
            (4, 4, 6),
            (5, 4, 6),
            (6, 4, 6),
            (7, 4, 6),
            (8, 4, 6),
            (9, 5, 5)
        ]
    );
}

#[test]
fn a_stroke_covers_what_lies_within_its_radius() {
    // Slanted: every lattice point within a pixel of the segment is in
    // its row, and no row reaches a pixel further.
    let (a, b) = ((4.0f64, 3.0f64), (21.0f64, 12.0f64));
    let act = action(Tool::Line, vec![(4.0, 3.0), (21.0, 12.0)], false);
    let spans = outline(&act, &Vec::new());
    let near = |x: f64, y: f64| -> f64 {
        let (dx, dy) = (b.0 - a.0, b.1 - a.1);
        let t = (((x - a.0) * dx + (y - a.1) * dy) / (dx * dx + dy * dy)).clamp(0.0, 1.0);
        let (cx, cy) = (a.0 + t * dx, a.1 + t * dy);
        ((x - cx) * (x - cx) + (y - cy) * (y - cy)).sqrt()
    };
    for y in 0..16i64 {
        for x in 0..26i64 {
            let on = spans.iter().any(|s| s.y == y && s.x0 <= x && x <= s.x1);
            let d = near(x as f64, y as f64);
            if d <= 1.0 - 1e-3 {
                assert!(on, "({x},{y}) at {d} is missing");
            }
            if d > 2.5 {
                assert!(!on, "({x},{y}) at {d} is covered");
            }
        }
    }
}

/// An action of this tool between two points, in pixels.
fn between(tool: Tool, p: (i64, i64), q: (i64, i64), width: i64) -> Action {
    let at = |p: (i64, i64)| Point { x: p.0 * PX, y: p.1 * PX };
    Action { width, points: vec![at(p), at(q)], ..action(tool, Vec::new(), tool == Tool::Ellipse) }
}

#[test]
fn shapes_are_drawn_far_out_as_near() {
    let far = 3_000_000;
    for tool in [Tool::Pen, Tool::Line, Tool::Arrow, Tool::Rect, Tool::Ellipse, Tool::Highlight] {
        let near = outline(&between(tool, (100, 40), (131, 57), 3 * PX), &Vec::new());
        let off = outline(&between(tool, (far + 100, far + 40), (far + 131, far + 57), 3 * PX), &Vec::new());
        assert!(!near.is_empty());
        assert_eq!(near.len(), off.len(), "{tool:?}");
        for (n, o) in near.iter().zip(off.iter()) {
            assert_eq!((n.y + far, n.x0 + far, n.x1 + far), (o.y, o.x0, o.x1), "{tool:?}");
        }
    }
    // Long ones, too.
    let line = outline(&between(Tool::Line, (0, 9), (1_000_000, 9), 2 * PX), &Vec::new());
    let rows: Vec<(i64, i64, i64)> = line.iter().map(|s| (s.y, s.x0, s.x1)).collect();
    assert_eq!(rows, [(8, 0, 1_000_000), (9, -1, 1_000_001), (10, 0, 1_000_000)]);
    let round = outline(&between(Tool::Ellipse, (0, 0), (1_000_000, 10), 2 * PX), &Vec::new());
    assert!(round.iter().any(|s| (s.y, s.x0, s.x1) == (5, 0, 1_000_000)), "{round:?}");
    let (p, q) = (Point { x: 0, y: 0 }, Point { x: 2_000_000 * PX, y: 1_000_000 * PX });
    assert_eq!(ring_size(p, q), 525_000);
}

/// The pixels that `a` paints lie inside its footprint.
fn stays_in(a: &mut Action) {
    a.bbox = compute_bbox(a);
    let f = footprint(a).unwrap();
    let spans = outline(a, &headings(a));
    assert!(!spans.is_empty());
    for s in spans {
        assert!(s.y * PX >= f.y && (s.y + 1) * PX <= f.y + f.h, "{s:?} {f:?}");
        assert!(s.x0 * PX >= f.x && (s.x1 + 1) * PX <= f.x + f.w, "{s:?} {f:?}");
    }
}

#[test]
fn discs_and_thin_strokes_stay_in_their_footprints() {
    for size in [2, 9, 16, 33, 200] {
        let mut a = between(Tool::Counter, (400, 400), (400, 400), 2 * PX);
        a.font_size = size * PX;
        stays_in(&mut a);
        a.points[0] = Point { x: 400 * PX + 7_777, y: 400 * PX + 4_999 };
        stays_in(&mut a);
    }
    for width in [0, 1, PX / 3, PX / 2, PX - 1] {
        for tool in [Tool::Pen, Tool::Line, Tool::Rect, Tool::Ellipse, Tool::Highlight] {
            stays_in(&mut between(tool, (20, 30), (61, 47), width));
        }
    }
    // Between pixels a thin one keeps the places of its pixels inside.
    let mut a = between(Tool::Line, (20, 30), (61, 47), 0);
    a.points[0].x += 6_000;
    a.bbox = compute_bbox(&a);
    let f = footprint(&a).unwrap();
    for s in outline(&a, &Vec::new()) {
        assert!(f.y <= s.y * PX && s.y * PX < f.y + f.h, "{s:?} {f:?}");
        assert!(f.x <= s.x0 * PX && s.x1 * PX < f.x + f.w, "{s:?} {f:?}");
    }
}

#[test]
fn a_rebuild_takes_the_bare_box_of_what_came_or_went() {
    let boxed = |tool, p, q| {
        let mut a = between(tool, p, q, 2 * PX);
        a.bbox = compute_bbox(&a);
        a
    };
    let line = boxed(Tool::Line, (5, 20), (35, 20));
    let arrow = boxed(Tool::Arrow, (8, 8), (30, 30));
    let round = boxed(Tool::Ellipse, (3, 12), (25, 28));
    let base = ground(40, 40);
    // An arrow's barbs pass its box; its footprint holds them.
    let mut dirty = full_rebuild(&base, &[&line, &round]);
    dirty_rebuild(&base, &mut dirty, &[&line, &arrow, &round], arrow.bbox.unwrap());
    assert_eq!(dirty.pixels, full_rebuild(&base, &[&line, &arrow, &round]).pixels);
    // What went stayed inside its box.
    let mut dirty = full_rebuild(&base, &[&line, &arrow, &round]);
    dirty_rebuild(&base, &mut dirty, &[&arrow, &round], line.bbox.unwrap());
    assert_eq!(dirty.pixels, full_rebuild(&base, &[&arrow, &round]).pixels);
}

#[test]
fn wide_products_keep_every_bit() {
    let m = u128::MAX;
    assert_eq!(product(m, m), Wide { hi: m - 1, lo: 1 });
    assert_eq!(product(1 << 100, 1 << 50), Wide { hi: 1 << 22, lo: 0 });
    assert_eq!(product(3, 5), Wide { hi: 0, lo: 15 });
    let k = i128::MAX;
    assert!(product_le(k, k, k, k) && product_le(k - 1, k, k, k));
    assert!(!product_le(k, k, k - 1, k) && product_le(k, 0, 0, 0));
    assert_eq!(root_product(1 << 70, 1 << 68), 1 << 69);
    assert_eq!(root_product((1 << 70) - 1, 1 << 68), (1 << 69) - 1);
    assert_eq!(root_product(10, 10), 10);
    assert_eq!(root_product(3, 5), 3);
    assert_eq!(root_ratio(100, 1 << 100, 1 << 100), 10);
    assert_eq!(root_ratio(100, 1 << 98, 1 << 100), 5);
    assert_eq!(root_ratio(99, 1, 1), 9);
}

#[test]
fn an_ellipse_outline_is_a_ring() {
    let a = action(Tool::Ellipse, vec![(5.0, 5.0), (35.0, 25.0)], false);
    assert_eq!(ring_size(a.points[0], a.points[1]), 24);
    let img = drawn(40, 30, &a);
    assert!(!painted(&img, 20, 15), "the middle stays clear");
    assert!(painted(&img, 35, 15), "the right end is painted");
    assert!(painted(&img, 5, 15), "the left end is painted");
    assert!(painted(&img, 20, 5), "the top is painted");
    assert!(painted(&img, 20, 25), "the bottom is painted");
    // Larger rings take more marks: 0.35 for each pixel of the radii.
    let (p, q) = (pt((0.0, 0.0)), pt((400.0, 200.0)));
    assert_eq!(ring_size(p, q), 105);
    // A flat one paints nothing.
    let flat = action(Tool::Ellipse, vec![(5.0, 5.0), (35.0, 5.0)], false);
    assert!(drawn(40, 30, &flat).pixels.iter().all(|p| p.a == 0));
}

#[test]
fn a_counter_is_a_disc_with_its_number() {
    let c = counter((30.0, 30.0), 7);
    let img = drawn(60, 60, &c);
    let red = Pixel { r: 255, g: 0, b: 0, a: 255 };
    assert_eq!(img.get(30 - 14, 30), red);
    assert_eq!(img.get(30 + 14, 30), red);
    assert!(!painted(&img, 30 - 14, 30 - 14));
    // The number is centred: 0.6 of the size wide, 0.35 below the point.
    let (ox, oy) = (30 - 4, 30 - 10);
    let white = Pixel { r: 255, g: 255, b: 255, a: 255 };
    assert_eq!(img.get(ox + 4 - 1, oy + 6), white);
}

#[test]
fn a_filled_rectangle_may_have_its_corners_in_any_order() {
    let a = action(Tool::Rect, vec![(2.0, 2.0), (18.0, 10.0)], true);
    let b = action(Tool::Rect, vec![(18.0, 2.0), (2.0, 10.0)], true);
    assert_eq!(drawn(20, 20, &a).pixels, drawn(20, 20, &b).pixels);
}

#[test]
fn shapes_past_the_edge_are_cut() {
    let a = action(Tool::Line, vec![(-5.0, -5.0), (45.0, 25.0)], false);
    let img = drawn(40, 20, &a);
    assert!(painted(&img, 20, 10));
    let e = action(Tool::Ellipse, vec![(-10.0, -10.0), (10.0, 10.0)], true);
    let img = drawn(40, 20, &e);
    assert!(painted(&img, 0, 0));
    assert!(painted(&img, 9, 0));
    assert!(!painted(&img, 11, 0));
    assert!(!painted(&img, 9, 9));
}

#[test]
fn a_turned_arrow_points_where_it_is_drawn() {
    // Straight down: the barbs lie above the tip, to both sides.
    let img = drawn(40, 60, &action(Tool::Arrow, vec![(20.0, 5.0), (20.0, 50.0)], false));
    assert!(painted(&img, 20 - 6, 36));
    assert!(painted(&img, 20 + 6, 36));
    assert!(painted(&img, 20, 50));
    assert!(!painted(&img, 20 - 6, 10));
    // An arrow without a length points to the right.
    let img = drawn(40, 40, &action(Tool::Arrow, vec![(30.0, 20.0), (30.0, 20.0)], false));
    assert!(painted(&img, 17, 20));
    assert!(painted(&img, 17, 15));
    assert!(!painted(&img, 34, 20));
}

#[test]
fn each_column_lies_in_one_cell_of_the_mosaic() {
    // 25 columns are two cells, 0..12 and 12..25.
    let mut img = blank(25, 12);
    for y in 0..12 {
        for x in 0..25 {
            let v = if x < 12 { 0 } else { 100 };
            img.set(x, y, Pixel { r: v, g: v, b: v, a: 255 });
        }
    }
    pixelate_region_bgra(&mut img, 0, 0, 25, 12);
    for x in 0..25 {
        assert_eq!(img.get(x, 5).r, if x < 12 { 0 } else { 100 }, "column {x}");
    }
}

/// Every painted pixel lies inside the action's footprint.
fn ink_in_footprint(img: &Canvas, a: &Action) {
    let f = footprint(a).unwrap();
    for y in 0..img.height {
        for x in 0..img.width {
            if painted(img, x, y) {
                let (l, t) = (x as i64 * PX, y as i64 * PX);
                assert!(
                    f.x <= l && l + PX <= f.x + f.w && f.y <= t && t + PX <= f.y + f.h,
                    "pixel {x},{y} outside {f:?}"
                );
            }
        }
    }
}

#[test]
fn an_arrow_stays_inside_its_footprint() {
    let mut a = action(Tool::Arrow, vec![(5.0, 15.0), (50.0, 15.0)], false);
    a.bbox = compute_bbox(&a);
    let img = drawn(60, 30, &a);
    assert!(painted(&img, 36, 8) && painted(&img, 36, 22));
    ink_in_footprint(&img, &a);
    // All around, also where a side of the head is nearly flat.
    for i in 0..720 {
        let t = i as f32 / 720.0 * std::f32::consts::TAU;
        let mut a = action(
            Tool::Arrow,
            vec![(60.0, 60.0), (60.0 + 30.0 * t.cos(), 60.0 + 30.0 * t.sin())],
            false,
        );
        a.bbox = compute_bbox(&a);
        ink_in_footprint(&drawn(120, 120, &a), &a);
    }
}

#[test]
fn the_head_of_an_arrow_has_no_streaks() {
    // The upper side of the head is a twentieth of a pixel short of flat,
    // and starts within a row.
    let tip = (60.0, 40.95);
    let t = 0.45f32 - 0.003;
    let a = action(
        Tool::Arrow,
        vec![(tip.0 - 30.0 * t.cos(), tip.1 - 30.0 * t.sin()), tip],
        false,
    );
    let img = drawn(200, 80, &a);
    for y in 0..80 {
        for x in 64..200 {
            assert!(!painted(&img, x, y), "{x},{y}");
        }
    }
}

#[test]
fn drawing_paints_the_rows_of_the_outline() {
    for tool in [Tool::Line, Tool::Arrow, Tool::Rect, Tool::Ellipse, Tool::Pen] {
        let a = action(tool, vec![(5.0, 15.0), (40.0, 22.0)], false);
        let mut img = blank(60, 30);
        let shades = Shades {
            mix: red_over(WASH_ALPHA as f32 / 255.0),
            dots: dots(&a),
            tones: vec![white()],
        };
        draw(&mut img, &a, &headings(&a), shades);
        assert_eq!(img.pixels, drawn(60, 30, &a).pixels);
        assert!(img.pixels.iter().any(|p| p.a > 0));
    }
}
