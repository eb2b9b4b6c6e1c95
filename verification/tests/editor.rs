//! Editing an image.

use iris::action::{
    compute_bbox, footprint, hit_action, hex_rgba, next_step, Action, Tool, Transform,
};
use iris::canvas::{Canvas, Pixel};
use iris::chrome::{copy_rows, save_notice, Copying, Side};
use iris::editor::{Editor, Plan};
use iris::editor_keys::{Deed, Key};
use iris::editor_view::{
    colors, crop_shades, entry_shown, morph_frame, path_use, resolve_window_placement,
    stage_cursor, stage_item, tool_name, tools, Cursor, Item, PathKey, PathUse,
};
use iris::figure::{figures, strokes, Figure};
use iris::geom::{Point, Rect, PX};
use iris::outline::{outline, Heading};
use iris::raster::{Dot, Ink, Mix, WASH_ALPHA};

fn at(x: i64, y: i64) -> Point {
    Point { x: x * PX, y: y * PX }
}

fn rect(x: i64, y: i64, w: i64, h: i64) -> Rect {
    Rect { x: x * PX, y: y * PX, w: w * PX, h: h * PX }
}

/// The tables of a colour at the highlighter's strength.
fn wash(c: Pixel) -> Mix {
    let a = WASH_ALPHA as f32 / 255.0;
    let table = |src: u8| -> Vec<u8> {
        (0..256).map(|v| (src as f32 * a + v as f32 * (1.0 - a)) as u8).collect()
    };
    Mix { r: table(c.r), g: table(c.g), b: table(c.b), a: table(255) }
}

fn ink_of(a: &Action) -> Ink {
    let none: Vec<Heading> = Vec::new();
    let label = a.text.clone().unwrap_or(a.step_label.clone());
    let dots = if a.tool == Tool::Text || a.tool == Tool::Counter {
        (0..label.len() as i64).map(|i| Dot { x: 2 * i, y: 1, tone: 0 }).collect()
    } else {
        Vec::new()
    };
    Ink {
        spans: outline(a, &none),
        mix: wash(hex_rgba(&a.color)),
        dots,
        tones: vec![Mix {
            r: vec![255; 256],
            g: vec![255; 256],
            b: vec![255; 256],
            a: vec![255; 256],
        }],
    }
}

fn inks(ed: &Editor) -> Vec<Ink> {
    ed.actions.iter().map(ink_of).collect()
}

/// The ink of nothing.
fn dry() -> Ink {
    Ink {
        spans: Vec::new(),
        mix: wash(Pixel { r: 0, g: 0, b: 0, a: 255 }),
        dots: Vec::new(),
        tones: Vec::new(),
    }
}

fn ground() -> Canvas {
    Canvas::filled(200, 100, Pixel { r: 10, g: 20, b: 30, a: 255 })
}

fn open() -> Editor {
    let mut ed = Editor::new("shot.png".to_string(), 200, 100);
    ed.decoded(ground(), &Vec::new());
    ed
}

/// Draw with a tool from `a` to `b`.
fn draw(ed: &mut Editor, tool: Tool, a: Point, b: Point) {
    ed.set_tool(tool, &dry());
    ed.press(a, &dry());
    ed.drag(b);
    let ink = match &ed.current {
        Some(c) => ink_of(c),
        None => dry(),
    };
    ed.release_draw(&ink);
}

fn apply(ed: &mut Editor, plan: Option<Plan>) {
    if let Some(p) = plan {
        let inks = inks(ed);
        ed.rebuild(&p, &inks);
    }
}

/// Everything painted anew, over the base.
fn full(ed: &Editor) -> Vec<Pixel> {
    let mut img = ed.base.copy();
    let mut actions: Vec<Action> = ed.actions.iter().map(|a| a.copy()).collect();
    let inks = inks(ed);
    iris::rebuild::replay_actions(&mut img, &mut actions, &inks, 0);
    img.pixels
}

#[test]
fn undo_and_redo_show_what_was_there() {
    let mut ed = open();
    let blank = ed.composite.pixels.clone();
    draw(&mut ed, Tool::Line, at(20, 20), at(80, 20));
    let one = ed.composite.pixels.clone();
    draw(&mut ed, Tool::Highlight, at(10, 15), at(90, 60));
    let two = ed.composite.pixels.clone();
    assert!(one != blank && two != one);
    let plan = ed.undo();
    apply(&mut ed, plan);
    assert_eq!(ed.composite.pixels, one);
    let plan = ed.undo();
    apply(&mut ed, plan);
    assert_eq!(ed.composite.pixels, blank);
    assert!(ed.undo().is_none());
    let plan = ed.redo();
    apply(&mut ed, plan);
    assert_eq!(ed.composite.pixels, one);
    let plan = ed.redo();
    apply(&mut ed, plan);
    assert_eq!(ed.composite.pixels, two);
    assert!(ed.redo().is_none());
    // A new action drops what could be redone.
    let plan = ed.undo();
    apply(&mut ed, plan);
    draw(&mut ed, Tool::Rect, at(5, 5), at(9, 9));
    assert!(ed.redo().is_none());
}

#[test]
fn a_partial_repaint_shows_what_a_full_one_would() {
    let mut ed = open();
    draw(&mut ed, Tool::Line, at(20, 20), at(80, 20));
    draw(&mut ed, Tool::Blur, at(10, 10), at(60, 40));
    draw(&mut ed, Tool::Highlight, at(40, 10), at(40, 80));
    draw(&mut ed, Tool::Counter, at(120, 50), at(120, 50));
    assert_eq!(ed.actions.len(), 4);
    ed.set_tool(Tool::Select, &dry());
    // Select the line by its end, and delete it.
    ed.press(at(76, 20), &dry());
    assert_eq!(ed.selected, Some(0));
    let plan = ed.release_move();
    apply(&mut ed, plan);
    assert_eq!(ed.composite.pixels, full(&ed));
    ed.selected = Some(0);
    let plan = ed.delete_selected();
    assert!(matches!(plan, Some(Plan::Dirty(_, _))));
    apply(&mut ed, plan);
    assert_eq!(ed.actions.len(), 3);
    assert_eq!(ed.composite.pixels, full(&ed));
    let plan = ed.undo();
    apply(&mut ed, plan);
    assert_eq!(ed.actions.len(), 4);
    assert_eq!(ed.composite.pixels, full(&ed));
}

#[test]
fn a_moved_action_stays_on_the_image() {
    let mut ed = open();
    draw(&mut ed, Tool::Line, at(20, 20), at(80, 20));
    ed.set_tool(Tool::Select, &dry());
    ed.press(at(50, 20), &dry());
    assert_eq!(ed.selected, Some(0));
    ed.drag(at(199, 99));
    let plan = ed.release_move();
    apply(&mut ed, plan);
    let b = ed.actions[0].bbox.unwrap();
    assert_eq!((b.x + b.w, b.y + b.h), (200 * PX, 100 * PX));
    assert_eq!(ed.composite.pixels, full(&ed));
    let plan = ed.undo();
    apply(&mut ed, plan);
    assert_eq!(ed.actions[0].points, [at(20, 20), at(80, 20)]);
    assert_eq!(ed.composite.pixels, full(&ed));
}

#[test]
fn counters_are_numbered_in_their_order() {
    let mut ed = open();
    for x in [20, 60, 100] {
        draw(&mut ed, Tool::Counter, at(x, 50), at(x, 50));
    }
    let labels: Vec<&str> = ed.actions.iter().map(|a| a.step_label.as_str()).collect();
    assert_eq!(labels, ["1", "2", "3"]);
    assert_eq!(next_step(&ed.actions), 4);
    ed.selected = Some(0);
    let plan = ed.delete_selected();
    apply(&mut ed, plan);
    let labels: Vec<&str> = ed.actions.iter().map(|a| a.step_label.as_str()).collect();
    assert_eq!(labels, ["1", "2"]);
}

#[test]
fn text_is_kept_where_it_was_typed() {
    let mut ed = open();
    ed.set_tool(Tool::Text, &dry());
    ed.press(at(30, 40), &dry());
    assert!(ed.text_entry.is_some());
    for c in ["H", "i"] {
        let k = Key {
            key: c.to_lowercase(),
            control: false,
            platform: false,
            shift: false,
            typed: Some(c.to_string()),
        };
        assert_eq!(ed.handle_key_down(&k), Deed::Typed);
    }
    let enter = Key {
        key: "enter".into(),
        control: false,
        platform: false,
        shift: false,
        typed: None,
    };
    assert_eq!(ed.handle_key_down(&enter), Deed::CommitText(true));
    ed.commit_text(true, &dry());
    assert_eq!(ed.actions.len(), 1);
    assert_eq!(ed.actions[0].text.as_deref(), Some("Hi"));
    assert_eq!(ed.actions[0].points, [at(30, 40)]);
    // Blank text is no action.
    ed.press(at(50, 40), &dry());
    ed.commit_text(true, &dry());
    assert_eq!(ed.actions.len(), 1);
}

#[test]
fn a_crop_cuts_the_image_and_flattens_it() {
    let mut ed = open();
    draw(&mut ed, Tool::Line, at(20, 20), at(80, 20));
    let before = ed.composite.copy();
    ed.set_tool(Tool::Crop, &dry());
    ed.press(at(10, 10), &dry());
    ed.drag(at(60, 50));
    ed.release_draw(&dry());
    assert_eq!(ed.crop_rect, Some(rect(10, 10, 50, 40)));
    assert!(ed.apply_crop(&dry(), &dry()));
    assert_eq!(ed.base_dims, (50, 40));
    assert_eq!(ed.title, "shot.png \u{b7} 50\u{d7}40");
    assert!(ed.actions.is_empty() && ed.undos.is_empty());
    assert_eq!(ed.composite.get(15, 10), before.get(25, 20));
}

#[test]
fn turns_and_mirrors_undo_themselves() {
    let mut ed = open();
    draw(&mut ed, Tool::Line, at(20, 20), at(80, 40));
    let start = ed.composite.copy();
    for op in [Transform::FlipH, Transform::FlipV] {
        assert!(ed.transform(op, &dry(), &dry()));
        assert_ne!(ed.composite.pixels, start.pixels);
        assert!(ed.transform(op, &dry(), &dry()));
        assert_eq!(ed.composite.pixels, start.pixels);
    }
    assert!(ed.transform(Transform::Rot90, &dry(), &dry()));
    assert_eq!(ed.base_dims, (100, 200));
    assert_eq!(ed.composite.get(100 - 1 - 20, 20), start.get(20, 20));
    for _ in 0..3 {
        ed.transform(Transform::Rot90, &dry(), &dry());
    }
    assert_eq!(ed.composite.pixels, start.pixels);
}

#[test]
fn nothing_is_cut_or_saved_before_the_image_is_there() {
    let mut ed = Editor::new("shot.png".to_string(), 200, 100);
    assert!(!ed.transform(Transform::FlipH, &dry(), &dry()));
    assert_eq!(ed.status, Some("still decoding".to_string()));
    assert!(ed.finish(&dry(), &dry()).is_none());
    ed.decode_failed("bad header");
    assert_eq!(ed.status, Some("decode: bad header".to_string()));
    // What was drawn meanwhile is on the image once it is.
    draw(&mut ed, Tool::Line, at(20, 20), at(80, 20));
    let inks = inks(&ed);
    ed.decoded(ground(), &inks);
    assert_eq!(ed.composite.pixels, full(&ed));
    assert!(ed.composite.pixels != ground().pixels);
    let saved = ed.finish(&dry(), &dry()).unwrap();
    assert_eq!((saved.width, saved.height), (200, 100));
    assert!(ed.closing);
    assert!(ed.finish(&dry(), &dry()).is_none());
}

fn key(k: &str, control: bool, shift: bool) -> Key {
    Key { key: k.into(), control, platform: false, shift, typed: None }
}

#[test]
fn keys_pick_tools_and_act() {
    let mut ed = open();
    for (k, t) in [("v", Tool::Select), ("h", Tool::Highlight), ("n", Tool::Counter)] {
        assert_eq!(ed.handle_key_down(&key(k, false, false)), Deed::SetTool(t));
    }
    assert_eq!(ed.handle_key_down(&key("z", true, false)), Deed::Undo);
    assert_eq!(ed.handle_key_down(&key("z", true, true)), Deed::Redo);
    assert_eq!(ed.handle_key_down(&key("s", true, false)), Deed::Finish);
    ed.handle_key_down(&key("f", false, false));
    assert!(ed.fill);
    ed.handle_key_down(&key("3", false, false));
    assert_eq!(ed.stroke, 2);
    assert_eq!(ed.handle_key_down(&key("0", false, false)), Deed::ZoomFit);
    ed.handle_key_down(&key("space", false, false));
    assert!(ed.space_pan);
    ed.handle_key_up("space");
    assert!(!ed.space_pan);
    // Escape closes what is open, one thing at a time.
    ed.toggle_help();
    ed.toggle_copy_menu();
    ed.crop_rect = Some(rect(0, 0, 5, 5));
    for _ in 0..3 {
        assert_eq!(ed.handle_key_down(&key("escape", false, false)), Deed::Nothing);
    }
    assert_eq!(ed.handle_key_down(&key("escape", false, false)), Deed::Discard);
}

#[test]
fn the_sidebar_shows_and_sets_what_is_in_use() {
    let mut ed = open();
    let rows = ed.sidebar();
    assert_eq!(rows.len(), tools().len() + 6 + colors().len());
    assert_eq!(rows[1], Side::Tool(Tool::Pen, true));
    assert!(rows.contains(&Side::Stroke(1, true)));
    assert!(rows.contains(&Side::Swatch(5, true)));
    ed.side_pressed(Side::Tool(Tool::Arrow, false), &dry());
    ed.side_pressed(Side::Stroke(2, false), &dry());
    ed.side_pressed(Side::Fill(false), &dry());
    ed.side_pressed(Side::Swatch(9, false), &dry());
    assert_eq!((ed.tool, ed.stroke, ed.fill), (Tool::Arrow, 2, true));
    assert_eq!(ed.color, "#0a84ff");
    assert!(ed.sidebar().contains(&Side::Swatch(9, true)));
    assert_eq!(tool_name(Tool::Rect), "Rectangle");
}

#[test]
fn the_copy_menu_and_its_results() {
    let mut ed = open();
    ed.toggle_copy_menu();
    assert!(ed.copy_menu);
    for (variant, what) in [
        ("image", Some(Copying::Image)),
        ("file", Some(Copying::File)),
        ("path", Some(Copying::Path)),
        ("sound", None),
    ] {
        assert_eq!(ed.copy_variant(variant), what);
        assert!(!ed.copy_menu);
    }
    assert_eq!(copy_rows()[2].1, "Copy Path");
    ed.copied(Ok(()));
    assert_eq!(ed.status, Some("Copied".into()));
    ed.copied(Err("no clipboard".into()));
    assert_eq!(ed.status, Some("no clipboard".into()));
    ed.text_copied(Ok("h\u{e9}llo".into()));
    assert_eq!(ed.status, Some("Copied 5 characters".into()));
    assert_eq!(save_notice(Ok(()), Ok(())), None);
    assert_eq!(
        save_notice(Err("full".into()), Ok(())),
        Some(("Save failed".to_string(), "full".to_string()))
    );
    assert_eq!(
        save_notice(Ok(()), Err("none".into())),
        Some(("Copy failed".to_string(), "none".to_string()))
    );
}

#[test]
fn a_grown_stroke_extends_what_was_kept() {
    let mut ed = open();
    ed.press(at(10, 10), &dry());
    ed.drag(at(20, 10));
    ed.drag(at(30, 15));
    let mut a = ed.current.as_ref().unwrap().copy();
    let before = figures(&a);
    assert_eq!(before.len(), 2);
    let kept = PathKey { scale: 7, count: 3, first: a.points[0], last: a.points[2] };
    assert_eq!(path_use(&a, 7, Some(kept)), PathUse::Stamp);
    assert_eq!(path_use(&a, 8, Some(kept)), PathUse::Build);
    assert_eq!(path_use(&a, 7, None), PathUse::Build);
    a.points.push(at(40, 40));
    assert_eq!(path_use(&a, 7, Some(kept)), PathUse::Extend(2));
    let mut both = before.clone();
    both.extend(strokes(&a, 2));
    assert_eq!(figures(&a), both);
    a.tool = Tool::Arrow;
    assert_eq!(
        figures(&a),
        [
            Figure::Stroke(at(10, 10), at(40, 40), a.width),
            Figure::Head(at(10, 10), at(40, 40), a.width)
        ]
    );
    a.tool = Tool::Blur;
    assert_eq!(path_use(&a, 7, None), PathUse::Nothing);
    assert!(figures(&a).is_empty());
}

#[test]
fn boxes_hold_their_actions() {
    let mut ed = open();
    draw(&mut ed, Tool::Line, at(20, 20), at(80, 40));
    let a = &ed.actions[0];
    let pad = a.width / 2 + 2 * PX;
    let want = Rect { x: 20 * PX - pad, y: 20 * PX - pad, w: 60 * PX + 2 * pad, h: 20 * PX + 2 * pad };
    assert_eq!(compute_bbox(a), Some(want));
    assert_eq!(footprint(a), Some(want));
    assert_eq!(hit_action(&ed.actions, at(50, 30)), Some(0));
    assert_eq!(hit_action(&ed.actions, at(150, 90)), None);
    // Everything it paints lies inside.
    for s in outline(a, &Vec::new()) {
        assert!(want.x <= s.x0 * PX && (s.x1 + 1) * PX <= want.x + want.w);
        assert!(want.y <= s.y * PX && (s.y + 1) * PX <= want.y + want.h);
    }
}

#[test]
fn colors_read_as_hex() {
    assert_eq!(hex_rgba("#ff453a"), Pixel { r: 255, g: 0x45, b: 0x3a, a: 255 });
    assert_eq!(hex_rgba("#000000"), Pixel { r: 0, g: 0, b: 0, a: 255 });
}

#[test]
fn shades_cover_all_but_the_crop() {
    let shades = crop_shades(rect(10, 20, 30, 40), 200 * PX, 100 * PX);
    let covered: i64 = shades.iter().map(|s| (s.w / PX) * (s.h / PX)).sum();
    assert_eq!(covered, 200 * 100 - 30 * 40);
    assert!(crop_shades(rect(0, 0, 200, 100), 200 * PX, 100 * PX).is_empty());
}

#[test]
fn the_editor_opens_where_the_card_was() {
    let screen = rect(0, 0, 1920, 1080);
    let from = rect(1700, 950, 200, 113);
    let r = resolve_window_placement(Some(from), at(0, 0), &vec![screen]);
    // It stays on the card's screen.
    assert!(r.x >= screen.x && r.y >= screen.y);
    assert!(r.x + r.w <= screen.w && r.y + r.h <= screen.h);
}

#[test]
fn the_stage_shows_texts_and_labels_over_the_image() {
    let mut ed = open();
    draw(&mut ed, Tool::Rect, at(10, 10), at(50, 40));
    assert_eq!(stage_item(&ed.actions[0]), Item::Nothing);
    ed.set_tool(Tool::Counter, &dry());
    ed.press(at(100, 50), &dry());
    let a = ed.current.as_ref().unwrap();
    assert_eq!(a.tool, Tool::Counter);
    let half = a.step_label.len() as i64 * a.font_size * 3 / 10;
    let corner = Point { x: 100 * PX - half, y: 50 * PX - a.font_size * 11 / 20 };
    assert_eq!(stage_item(a), Item::Label(corner));
}

#[test]
fn the_pointer_shows_the_tool() {
    assert_eq!(stage_cursor(Tool::Select), Cursor::Arrow);
    assert_eq!(stage_cursor(Tool::Text), Cursor::Text);
    assert_eq!(stage_cursor(Tool::Arrow), Cursor::Cross);
}

#[test]
fn the_caret_blinks() {
    assert_eq!(entry_shown("ab", 0), "ab\u{258f}");
    assert_eq!(entry_shown("ab", 579), "ab\u{258f}");
    assert_eq!(entry_shown("ab", 580), "ab");
    assert_eq!(entry_shown("ab", 1060), "ab\u{258f}");
}

#[test]
fn the_morph_is_over_after_two_frames() {
    assert_eq!(morph_frame(0), (1, false));
    assert_eq!(morph_frame(1), (2, true));
    assert_eq!(morph_frame(u32::MAX), (u32::MAX, true));
}

#[test]
fn a_discarded_image_is_left_as_it_is() {
    let mut ed = open();
    draw(&mut ed, Tool::Rect, at(10, 10), at(50, 40));
    let shown = ed.composite.pixels.len();
    ed.discard();
    assert!(ed.closing);
    assert_eq!(ed.actions.len(), 1);
    assert_eq!(ed.composite.pixels.len(), shown);
    assert!(ed.finish(&dry(), &dry()).is_none());
}

#[test]
fn the_editor_stays_on_a_small_screen() {
    // Smaller than the window, and no smaller than it may become.
    let screen = rect(0, 0, 700, 500);
    let from = rect(480, 380, 200, 113);
    let r = resolve_window_placement(Some(from), at(0, 0), &vec![screen]);
    assert!(r.x >= 0 && r.y >= 0 && r.x + r.w <= 700 * PX && r.y + r.h <= 500 * PX, "{r:?}");
    assert!(r.w >= 640 * PX && r.h >= 480 * PX);
}

#[test]
fn a_blur_keeps_what_it_shows() {
    let mut ed = open();
    draw(&mut ed, Tool::Rect, at(10, 10), at(60, 60));
    draw(&mut ed, Tool::Blur, at(20, 20), at(70, 50));
    let shown = |ed: &Editor| {
        let tile = ed.actions.last().unwrap().blur_patch.as_ref().unwrap();
        assert_eq!((tile.w, tile.h), (50, 30));
        for (i, p) in tile.bgra.chunks(4).enumerate() {
            let (x, y) = (20 + i as u32 % 50, 20 + i as u32 / 50);
            let q = ed.composite.get(x, y);
            assert_eq!(p, [q.b, q.g, q.r, q.a], "{x},{y}");
        }
    };
    shown(&ed);
    // Repainting everything refreshes it, and so does a change under it.
    let all = inks(&ed);
    ed.rebuild_all(&all);
    shown(&ed);
    ed.selected = Some(0);
    let plan = ed.delete_selected();
    apply(&mut ed, plan);
    shown(&ed);
}

/// The patches of all actions.
fn patches(ed: &Editor) -> Vec<Option<Vec<u8>>> {
    ed.actions.iter().map(|a| a.blur_patch.as_ref().map(|t| t.bgra.clone())).collect()
}

#[test]
fn an_edit_leaves_the_other_patches_alone() {
    let mut ed = open();
    draw(&mut ed, Tool::Rect, at(10, 10), at(60, 60));
    draw(&mut ed, Tool::Blur, at(20, 20), at(70, 50));
    draw(&mut ed, Tool::Blur, at(100, 20), at(140, 60));
    let all = patches(&ed);
    assert!(all[0].is_none() && all[1].is_some() && all[2].is_some() && all[1] != all[2]);
    // Drawing one more, and taking it back.
    draw(&mut ed, Tool::Line, at(150, 90), at(190, 90));
    assert_eq!(patches(&ed)[..3], all[..]);
    ed.undo();
    assert_eq!(patches(&ed), all);
    ed.redo();
    assert_eq!(patches(&ed)[..3], all[..]);
    ed.undo();
    // Taking back a blur, and bringing it again.
    ed.undo();
    assert_eq!(patches(&ed), all[..2]);
    ed.redo();
    assert_eq!(patches(&ed)[..2], all[..2]);
    // Deleting one, and moving another.
    ed.selected = Some(0);
    ed.delete_selected();
    assert_eq!(patches(&ed), all[1..]);
    ed.set_tool(Tool::Select, &dry());
    ed.press(at(120, 40), &dry());
    assert_eq!(ed.selected, Some(1));
    ed.drag(at(125, 45));
    assert_eq!(patches(&ed), all[1..]);
    ed.release_move();
    assert_eq!(patches(&ed)[0], all[1]);
}

#[test]
fn a_move_waits_for_the_pointer_at_the_edge() {
    let mut ed = open();
    draw(&mut ed, Tool::Line, at(20, 20), at(80, 20));
    ed.set_tool(Tool::Select, &dry());
    ed.press(at(50, 20), &dry());
    ed.drag(at(199, 20));
    let b = ed.actions[0].bbox.unwrap();
    assert_eq!(b.x + b.w, 200 * PX);
    // Its place is kept as far as the action went, not the pointer.
    let last = ed.move_drag.as_ref().unwrap().last;
    let gone = ed.actions[0].points[0].x - 20 * PX;
    assert_eq!(last, Point { x: 50 * PX + gone, y: 20 * PX });
    ed.drag(Point { x: last.x + 3 * PX, y: last.y });
    assert_eq!(ed.actions[0].bbox.unwrap(), b);
    ed.drag(Point { x: last.x - 3 * PX, y: last.y });
    assert_eq!(ed.actions[0].bbox.unwrap().x, b.x - 3 * PX);
}

#[test]
fn an_edit_repaints_what_passed_its_box() {
    let mut ed = open();
    draw(&mut ed, Tool::Arrow, at(20, 50), at(80, 50));
    let drawn = ed.composite.copy();
    let plan = ed.undo();
    apply(&mut ed, plan);
    assert_eq!(ed.composite.pixels, ed.base.pixels);
    let plan = ed.redo();
    apply(&mut ed, plan);
    assert_eq!(ed.composite.pixels, drawn.pixels);
}

#[test]
fn the_open_text_is_an_action_before_it_is_kept() {
    let mut ed = open();
    assert!(ed.typed_action().is_none());
    ed.set_tool(Tool::Text, &dry());
    ed.press(at(40, 60), &dry());
    assert!(ed.typed_action().is_none());
    ed.text_entry.as_mut().unwrap().buffer = "  note ".to_string();
    let a = ed.typed_action().unwrap();
    assert_eq!((a.tool, a.text.as_deref()), (Tool::Text, Some("note")));
    let ink = ink_of(&a);
    ed.commit_text(true, &ink);
    assert_eq!(ed.actions[0].text.as_deref(), Some("note"));
}

#[test]
fn taking_a_text_back_clears_glyphs_that_passed_its_box() {
    let mut ed = open();
    ed.set_tool(Tool::Text, &dry());
    ed.press(at(40, 60), &dry());
    ed.text_entry.as_mut().unwrap().buffer = "wide".to_string();
    let a = ed.typed_action().unwrap();
    let b = a.bbox.unwrap();
    let f = footprint(&a).unwrap();
    assert!(f.x + f.w > b.x + b.w + 4 * PX);
    // A glyph that hangs over the right edge of the estimated box.
    let mut ink = ink_of(&a);
    ink.dots.push(Dot { x: b.w / PX + 3, y: 1, tone: 0 });
    ed.commit_text(true, &ink);
    assert!(ed.composite.pixels != ed.base.pixels);
    let plan = ed.undo();
    apply(&mut ed, plan);
    assert_eq!(ed.composite.pixels, ed.base.pixels);
}
