//! What the windows show, frame by frame.

use iris::action::{Tool, Transform};
use iris::canvas::{Canvas, Pixel};
use iris::chip::Chip;
use iris::chrome::{top_text, topbar, Top};
use iris::config::{ToastClickAction, ToastPosition};
use iris::desk::Desk;
use iris::editor::Editor;
use iris::editor_view::{crop_handles, Item};
use iris::flight::WAY;
use iris::gallery::BarPart;
use iris::geom::{Point, Rect, PX};
use iris::home::{Home, Scene, BRAND_MARK, MARK, MARK_RISE, REVEAL};
use iris::icons::Icon;
use iris::library::Library;
use iris::listing::CaptureEntry;
use iris::loupe::Frame;
use iris::motion::{ease_out, ease_out_cubic, ease_out_quartic, progress, Spring, ENTER};
use iris::opening::{
    grown, morph_start, open_editor, open_on, raised, Window, CARD_RADIUS, SHED,
};
use iris::paths::Platform;
use iris::overlay::{layout, Picked};
use iris::overlay_input::{Flight, Overlay, Session};
use iris::overlay_view::{shell_bounds, Pace, DIM, SHELL};
use iris::raster::{Ink, Mix};
use iris::screen::WinRect;
use iris::settings::{DropdownField, Field, Switch};
use iris::settings_form::{form, row_label, Row};
use iris::stage::{Bar, Prefs, Tempo, ToastStage};
use iris::view::Pane;

const HALF: i64 = WAY / 2;

fn at(x: i64, y: i64) -> Point {
    Point { x: x * PX, y: y * PX }
}

fn rect(x: i64, y: i64, w: i64, h: i64) -> Rect {
    Rect { x: x * PX, y: y * PX, w: w * PX, h: h * PX }
}

#[test]
fn curves_slow_down_towards_their_end() {
    assert_eq!(ease_out(HALF), 750_000_000);
    assert_eq!(ease_out_cubic(HALF), 875_000_000);
    assert_eq!(ease_out_quartic(HALF), 937_500_000);
    for f in [ease_out, ease_out_cubic, ease_out_quartic] {
        assert_eq!(f(0), 0);
        assert_eq!(f(WAY), WAY);
        assert_eq!(f(-5), 0);
        assert_eq!(f(2 * WAY), WAY);
    }
    assert_eq!(progress(35, 140), 250_000_000);
    assert_eq!(progress(141, 140), WAY);
    assert_eq!(progress(190, ENTER), HALF);
    assert_eq!(progress(0, 0), WAY);
}

#[test]
fn a_spring_settles_on_its_target() {
    let mut s = Spring::new();
    assert!(s.settled(0) && !s.settled(WAY));
    let mut last = 0;
    let mut frames = 0;
    while !s.settled(WAY) {
        let v = s.to(WAY, 16_667);
        assert!(v >= last && v <= WAY, "no overshoot");
        last = v;
        frames += 1;
        assert!(frames < 120, "two seconds are enough");
    }
    // Turned back halfway it goes on for a while, and comes back.
    let mut s = Spring { value: HALF, velocity: 4 * WAY };
    assert!(s.to(0, 16_667) > HALF);
    for _ in 0..200 {
        s.to(0, 16_667);
    }
    assert!(s.settled(0));
    // However far and fast it is, it goes on from there.
    let mut s = Spring { value: 5 * WAY, velocity: 50 * WAY };
    assert_eq!(s.to(0, 10_000), 5_311_700_000);
    assert_eq!(s.velocity, 31_170_000_000);
    // A stalled frame is a short one.
    let mut a = Spring { value: HALF, velocity: 0 };
    let mut b = a;
    a.to(0, 50_000);
    b.to(0, 5_000_000);
    assert_eq!(a, b);
}

fn toast() -> ToastStage {
    let prefs = Prefs {
        position: ToastPosition::BottomRight,
        click: ToastClickAction::Markup,
        drag: true,
    };
    ToastStage::new(prefs, PX, rect(1700, 900, 200, 113), false, 0)
}

const TEMPO: Tempo = Tempo { enter: 400, exit: 200, replace: 80, back: 300, fade: 140 };

#[test]
fn the_card_comes_in_rests_and_leaves() {
    let w = 200 * PX;
    let mut t = toast();
    t.opened = Some(1000);
    // It starts beyond the edge.
    let p = t.pose(w, 1000, WAY, TEMPO);
    assert_eq!((p.offset, p.opacity, p.shadow), (12 * PX - 224 * PX, WAY, 0));
    let p = t.pose(w, 1200, WAY, TEMPO);
    assert_eq!(p.offset, 12 * PX - 14 * PX);
    let p = t.pose(w, 1400, WAY, TEMPO);
    assert_eq!((p.offset, p.opacity, p.shadow), (12 * PX, WAY, WAY));
    // Its bar fades in.
    t.bar = Bar::FadingIn(1400);
    assert_eq!(t.pose(w, 1470, WAY, TEMPO).bar, 750_000_000);
    // A short swipe springs back from where it was let go.
    t.swipe_return = Some((1500, 40 * PX));
    assert_eq!(t.pose(w, 1500, 0, TEMPO).offset, -28 * PX);
    assert_eq!(t.pose(w, 1600, HALF, TEMPO).offset, -8 * PX);
    assert_eq!(t.pose(w, 1800, WAY, TEMPO).offset, 12 * PX);
    t.swipe_return = None;
    // A long one leaves from there.
    t.exit_from = 60 * PX;
    t.begin_close(2000);
    assert_eq!(t.pose(w, 2000, WAY, TEMPO).offset, -48 * PX);
    let p = t.pose(w, 2200, WAY, TEMPO);
    assert!(p.offset + w < 0 && p.opacity == 0);
    // A card that the editor takes over stands still.
    let mut t = toast();
    t.opened = Some(0);
    t.handed_to_editor(10);
    let p = t.pose(w, 20, WAY, TEMPO);
    assert_eq!((p.offset, p.opacity), (12 * PX, WAY));
}

fn ink() -> Ink {
    let t: Vec<u8> = (0..=255).collect();
    Ink {
        spans: Vec::new(),
        mix: Mix { r: t.clone(), g: t.clone(), b: t.clone(), a: t },
        dots: Vec::new(),
        tones: Vec::new(),
    }
}

/// An editor on an image of 200 by 100 pixels, in a window that shows it
/// at its size, from (72, 72) on.
fn desk() -> (Desk, (i64, i64)) {
    let mut editor = Editor::new("shot.png".to_string(), 200, 100);
    let ground = Canvas::filled(200, 100, Pixel { r: 1, g: 2, b: 3, a: 255 });
    editor.decoded(ground, &Vec::new());
    let size = ((200 + 96) * PX, (100 + 96) * PX);
    (Desk { editor, view: Pane::new() }, size)
}

#[test]
fn the_pointer_draws_or_pans() {
    let (mut d, size) = desk();
    let stage = d.view.stage(d.editor.base_dims, size);
    assert_eq!((stage.w, stage.h), (200 * PX, 100 * PX));
    d.editor.set_tool(Tool::Rect, &ink());
    let p = Point { x: stage.x + 10 * PX, y: stage.y + 20 * PX };
    d.left_down(p, size, &ink());
    assert_eq!(d.editor.current.as_ref().unwrap().points, [at(10, 20)]);
    d.moved(Point { x: p.x + 30 * PX, y: p.y + 5 * PX }, size);
    assert_eq!(d.editor.current.as_ref().unwrap().points, [at(10, 20), at(40, 25)]);
    let (panned, plan) = d.left_up();
    assert!(!panned && plan.is_none());
    d.editor.release_draw(&ink());
    assert_eq!(d.editor.actions.len(), 1);

    // Space: the same press pans, and the image stays as it is.
    d.editor.handle_key_down(&iris::editor_keys::Key {
        key: "space".to_string(),
        typed: None,
        control: false,
        platform: false,
        shift: false,
    });
    d.left_down(p, size, &ink());
    assert!(d.editor.panning && d.editor.current.is_none());
    d.moved(Point { x: p.x + 7 * PX, y: p.y - 3 * PX }, size);
    assert_eq!(d.view.pan, at(7, -3));
    assert!(d.left_up().0);
    assert!(!d.editor.panning && d.view.drag.is_none());
    assert_eq!(d.editor.actions.len(), 1);
    // So does the middle button.
    d.middle_down(p);
    d.moved(p, size);
    d.middle_up();
    assert_eq!(d.view.pan, at(7, -3));
}

#[test]
fn the_stage_shows_what_is_drawn_in_its_order() {
    let (mut d, size) = desk();
    let stage = d.view.stage(d.editor.base_dims, size);
    let p = Point { x: stage.x + 50 * PX, y: stage.y + 50 * PX };
    d.editor.set_tool(Tool::Rect, &ink());
    d.left_down(p, size, &ink());
    d.moved(Point { x: p.x + 30 * PX, y: p.y + 5 * PX }, size);
    d.left_up();
    d.editor.release_draw(&ink());
    d.editor.set_tool(Tool::Counter, &ink());
    d.left_down(p, size, &ink());
    let items = d.editor.stage_items();
    assert_eq!(items.len(), 2);
    assert_eq!(items[0], Item::Nothing);
    assert!(matches!(items[1], Item::Label(_)));
    assert_eq!(d.editor.selection_box(), None);
    d.editor.selected = Some(0);
    assert_eq!(d.editor.selection_box(), d.editor.actions[0].bbox);
    d.editor.selected = Some(9);
    assert_eq!(d.editor.selection_box(), None);
    let hs = crop_handles(rect(10, 20, 30, 40));
    assert_eq!(hs.len(), 4);
    assert_eq!(hs[0], Rect { x: 65_000, y: 165_000, w: 70_000, h: 70_000 });
    assert_eq!(hs[3], Rect { x: 365_000, y: 565_000, w: 70_000, h: 70_000 });
}

#[test]
fn the_title_bar_has_its_buttons() {
    let (beside, end) = topbar();
    assert_eq!(beside, [Top::Undo, Top::Redo, Top::Clear]);
    let labels: Vec<String> = end.iter().filter_map(|t| top_text(*t)).collect();
    assert_eq!(
        labels,
        ["Discard", "Copy text", "Copy", "Rotate", "Flip", "Flip V", "Done", "?"]
    );
    assert_eq!(top_text(Top::Undo), None);
    assert_eq!(end[3], Top::Apply(Transform::Rot90));
}

fn library(n: usize) -> Library {
    let fresh: Vec<CaptureEntry> = (0..n)
        .map(|i| CaptureEntry {
            path: format!("shots/{i}.png"),
            thumb: format!("thumbs/{i}.png"),
            created_ms: i as i64,
            width: 10,
            height: 10,
        })
        .collect();
    let mut lib = Library::new();
    lib.show(fresh, 7, 72_000);
    lib
}

#[test]
fn a_page_draws_the_cards_in_view() {
    let mut lib = library(400);
    // Four columns; rows of 174 pixels.
    let width = (16 + 4 * 232) * PX;
    let p = lib.page(width, 0, 300 * PX, 0);
    assert_eq!((p.first, p.end), (0, 12));
    assert_eq!(p.keep, (0, 44));
    assert!(p.moved && !p.evict && !p.empty);
    assert!(!lib.page(width, 0, 300 * PX, 500).moved);
    let p = lib.page(width, 30 * 174 * PX, 300 * PX, 500);
    assert!(p.first > 100 && p.end < 200 && p.moved && p.evict);
    assert!(p.keep.0 < p.first && p.keep.1 > p.end);
    // Nothing is said to be missing before the store answered.
    assert!(!Library::new().page(width, 0, 300 * PX, 0).empty);
    let mut none = library(0);
    assert!(none.page(width, 0, 300 * PX, 0).empty);
}

#[test]
fn the_kept_thumbs_are_there() {
    let lib = library(6);
    let cached: Vec<String> = ["shots/0.png", "shots/3.png", "gone.png"].map(String::from).to_vec();
    let (lo, hi) = (2, 5);
    let shown: Vec<&str> = lib.listing.entries[lo..hi].iter().map(|e| e.path.as_str()).collect();
    let missing = lib.missing((lo, hi), &cached);
    let stray = lib.stray((lo, hi), &cached);
    let mut there: Vec<&str> = cached.iter().map(String::as_str).collect();
    there.retain(|p| !stray.iter().any(|s| s == p));
    there.extend(missing.iter().map(String::as_str));
    there.sort();
    let mut want = shown.clone();
    want.sort();
    assert_eq!(there, want);
    assert!(stray.contains(&"gone.png".to_string()));
}

#[test]
fn a_selection_offers_every_circle() {
    let mut lib = library(3);
    assert_eq!(lib.bar()[0], BarPart::Count);
    let l = lib.look(1, 0, 0);
    assert!(!l.selected && !l.clickable && l.circle == 0);
    let path = lib.listing.entries[0].path.clone();
    lib.toggle_select(&path);
    assert_eq!(lib.bar()[0], BarPart::Selected);
    let l = lib.look(1, 0, 0);
    assert!(!l.selected && l.clickable && l.circle == 850_000_000);
    let l = lib.look(0, 0, 0);
    assert!(l.selected && l.clickable && l.circle == 0);
    lib.hover(2, true);
    lib.press_card(2, at(0, 0));
    let l = lib.look(2, 0, WAY);
    assert!(l.hovered && l.pressed && l.circle == WAY);
}

#[test]
fn a_file_has_one_editor() {
    let w = |path: &str, closing: bool| Window { path: path.to_string(), closing };
    let ws = vec![w("a.png", true), w("b.png", false), w("a.png", false)];
    assert_eq!(raised(&ws, "a.png"), Some(2));
    assert_eq!(raised(&ws, "b.png"), Some(1));
    assert_eq!(raised(&ws, "c.png"), None);
}

#[test]
fn an_editor_opens_on_a_header() {
    let mut png = vec![0x89, b'P', b'N', b'G', 0x0d, 0x0a, 0x1a, 0x0a];
    png.extend([0, 0, 0, 13, b'I', b'H', b'D', b'R', 0, 0, 1, 0x40, 0, 0, 0, 200]);
    let e = open_editor("shots/x.png", &png).ok().unwrap();
    assert_eq!(e.base_dims, (320, 200));
    assert_eq!(e.filename, "x.png");
    assert!(e.title.contains("x.png") && e.title.contains("320"), "{}", e.title);
    // Nothing is drawn, chosen or open yet.
    assert_eq!((e.tool, e.stroke, e.color.as_str()), (Tool::Pen, 1, "#ff453a"));
    assert!(e.actions.is_empty() && e.undos.is_empty() && e.redos.is_empty());
    assert!(e.current.is_none() && e.text_entry.is_none() && e.selected.is_none());
    assert!(e.move_drag.is_none() && e.crop_rect.is_none() && e.status.is_none());
    assert!(!e.base_ready && !e.closing && !e.copy_menu && !e.help);
    assert!(!e.panning && !e.space_pan && !e.fill);
    assert_eq!((e.base.width, e.base.height), (1, 1));
    // The name is the last part of the path, as its platform splits it.
    let dos = open_on("C:\\shots\\x.png", &png, Platform::Windows).ok().unwrap();
    assert_eq!(dos.filename, "x.png");
    let dos = open_on("C:\\", &png, Platform::Windows).ok().unwrap();
    assert_eq!(dos.filename, "capture.png");
    let unix = open_on("a\\x.png", &png, Platform::Unix).ok().unwrap();
    assert_eq!(unix.filename, "a\\x.png");
    assert_eq!(open_editor("/", &png).ok().unwrap().filename, "capture.png");
    match open_editor("notes.txt", b"hello") {
        Err(t) => assert_eq!(t, "not a PNG: notes.txt"),
        Ok(_) => panic!("not a PNG"),
    }
}

#[test]
fn the_image_grows_out_of_its_card() {
    let from = morph_start(Some(rect(500, 400, 200, 113)), at(100, 50)).unwrap();
    assert_eq!(from, rect(400, 350, 200, 113));
    assert_eq!(morph_start(None, at(1, 1)), None);
    let stage = rect(72, 72, 800, 452);
    let a = grown(from, stage, 0, 0);
    assert_eq!((a.stage, a.radius, a.ground, a.grows), (from, CARD_RADIUS, 0, true));
    let b = grown(from, stage, HALF, HALF);
    assert_eq!(b.stage, Rect { x: 236 * PX, y: 211 * PX, w: 500 * PX, h: 2_825_000 });
    assert_eq!((b.ground, b.topbar), (WAY, 924_000_000));
    let c = grown(from, stage, WAY, WAY);
    assert_eq!((c.stage, c.radius, c.sidebar, c.grows), (stage, CARD_RADIUS - SHED, WAY, false));
}

const SCREEN: (i64, i64) = (200 * PX, 100 * PX);

fn picker() -> Overlay {
    let win = |x, y, width, height| WinRect { x, y, width, height };
    let l = layout(vec![win(0, 0, 200, 100)], vec![win(20, 10, 100, 60)]);
    Overlay::new(l, Session { position: ToastPosition::BottomRight, show_toast: true })
}

#[test]
fn the_picker_shows_one_thing_at_a_time() {
    let pace = Pace::new();
    let mut o = picker();
    // Before anything: the coordinates, and the dim fading in.
    let s = o.sight(1000, SCREEN, pace);
    assert_eq!(s.dim, 0);
    assert!(s.coord.is_some() && s.again && s.over.is_none() && s.selection.is_none());
    let s = o.sight(1180, SCREEN, pace);
    assert_eq!(s.dim, DIM);
    assert!(!s.again);
    // Over a window: its highlight, in time.
    let frame = Frame { bgra: vec![9; 200 * 100 * 4], width: 200, height: 100 };
    o.set_frame(frame, false, SCREEN, PX, 1200);
    o.pointer_moved(at(30, 20), false, SCREEN, 1300);
    let s = o.sight(1345, SCREEN, pace);
    let g = s.over.unwrap();
    assert_eq!((g.rect, g.alpha), (rect(20, 10, 100, 60), HALF));
    assert!(s.coord.is_none() && s.again);
    // Off it again: it fades.
    o.pointer_moved(at(150, 90), false, SCREEN, 1400);
    let s = o.sight(1445, SCREEN, pace);
    assert_eq!(s.left.unwrap().alpha, HALF);
    assert!(o.sight(1490, SCREEN, pace).left.is_none());
    assert!(o.hover_out.is_none());
    // Dragging: the selection and the loupe, no handles.
    o.pressed(at(120, 80), 1, SCREEN, PX, 1500);
    o.pointer_moved(at(160, 95), false, SCREEN, 1510);
    let s = o.sight(1520, SCREEN, pace);
    assert_eq!(s.selection, Some(rect(120, 80, 40, 15)));
    assert!(s.loupe.is_some() && !s.committed && s.coord.is_none());
    o.released(at(160, 95), false, SCREEN, PX, 1530);
    let s = o.sight(1540, SCREEN, pace);
    assert!(s.committed && s.loupe.is_none());
    assert!(matches!(o.current, Some(Picked::Free(_))));
}

#[test]
fn a_flight_lands_on_the_card() {
    let pace = Pace::new();
    let mut o = picker();
    assert!(o.fly(5, 0, pace).is_none());
    o.opened = Some(0);
    let (from, to) = (rect(10, 10, 50, 40), rect(120, 50, 60, 30));
    o.flight = Some(Flight { from, to, started: 1000, screen: rect(0, 0, 200, 100) });
    let a = o.fly(1000, 0, pace).unwrap();
    assert_eq!((a.rect, a.shape, a.dim), (from, 0, DIM));
    assert!(a.again && !a.hand_off);
    let a = o.fly(1070, HALF, pace).unwrap();
    assert_eq!(a.rect, rect(65, 30, 55, 35));
    assert_eq!(a.dim, DIM / 4);
    // The clock ends it, wherever the spring is; it is handed over once.
    o.landed = true;
    let a = o.fly(1500, HALF, pace).unwrap();
    assert_eq!((a.rect, a.shape, a.dim), (to, WAY, 0));
    assert!(a.hand_off && !a.again);
    assert!(!o.fly(1516, HALF, pace).unwrap().hand_off);
}

#[test]
fn the_form_has_every_setting() {
    let sections = form();
    let titles: Vec<&str> = sections.iter().map(|s| s.title).collect();
    assert_eq!(titles, ["Storage", "Capture", "Toast", "Recording", "Keyboard", "Updates"]);
    let rows: Vec<Row> = sections.iter().flat_map(|s| s.rows.iter().copied()).collect();
    assert_eq!(rows.len(), 22);
    assert!(rows.contains(&Row::Text(Field::Template)));
    assert!(rows.contains(&Row::Hotkey(Field::ConfirmKeybind)));
    assert_eq!(row_label(Row::Toggle(Switch::Drag)), "Drag to export");
    assert_eq!(row_label(Row::List(DropdownField::RecordingEncoder)), "MP4 encoder");
    assert_eq!(row_label(Row::Updates), "Latest release");
}

#[test]
fn home_plays_the_brand_moment_once() {
    let mut played = false;
    let first = Home::new(&mut played);
    let later = Home::new(&mut played);
    assert_eq!(first.scene(0), Scene::Brand { mark: 0 });
    assert!(matches!(first.scene(REVEAL - 1), Scene::Brand { .. }));
    assert!(matches!(first.scene(REVEAL), Scene::Content { tiles: (0, 0, 0), .. }));
    assert!(matches!(later.scene(REVEAL), Scene::Content { mark: WAY, .. }));
    let done = Scene::Content { mark: WAY, tiles: (WAY, WAY, WAY), gear: WAY };
    assert_eq!(first.scene(WAY), done);
    assert_eq!(later.scene(WAY), done);
    // The mark glides after the brand moment, and fades in without it.
    assert_eq!(first.mark_place(0), (BRAND_MARK, MARK_RISE, WAY));
    assert_eq!(first.mark_place(WAY), (MARK, 0, WAY));
    assert_eq!(later.mark_place(HALF), (MARK, 0, HALF));
}

#[test]
fn the_chip_shows_what_its_buttons_do() {
    let mut c = Chip::new(Some(true), 0);
    let l = c.look();
    assert!(l.lit);
    assert_eq!((l.pause, l.mic), (Icon::Pause, Some(Icon::Mic)));
    c.set_paused(true, 10);
    c.set_mic(false);
    let l = c.look();
    assert!(!l.lit);
    assert_eq!((l.pause, l.mic), (Icon::Play, Some(Icon::MicOff)));
    assert_eq!(Chip::new(None, 0).look().mic, None);
}

#[test]
fn the_picker_spans_the_screen() {
    let union = WinRect { x: -1920, y: 0, width: 4480, height: 1440 };
    // Two device pixels to a logical one.
    assert_eq!(shell_bounds(union, false, None, 2 * PX), rect(-960, 0, 2240, 720));
    let r = shell_bounds(union, true, Some((1920 * PX, 1080 * PX)), PX);
    assert_eq!((r.w, r.h), (1920 * PX, 1080 * PX));
    let r = shell_bounds(union, true, None, PX);
    assert_eq!((r.w, r.h), SHELL);
}

#[test]
fn a_spring_never_passes_its_target() {
    for frame in [1_000u64, 4_000, 8_333, 16_667, 33_333, 43_000, 50_000] {
        for (from, to) in [(0, WAY), (WAY, 0), (HALF, WAY)] {
            let mut s = Spring { value: from, velocity: 0 };
            let mut frames = 0;
            while !s.settled(to) {
                s.to(to, frame);
                assert!(s.value >= from.min(to) && s.value <= from.max(to), "{frame}: {s:?}");
                frames += 1;
                assert!(frames < 5_000);
            }
        }
    }
}
