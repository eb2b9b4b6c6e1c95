//! The library window.

use iris::flight::WAY;
use iris::geom::{Point, Rect, PX};
use iris::grid::{
    card_rect, cascade, columns, keep_window, visible_rows, CARD_W, GAP, GRID_TOP, THUMB_H,
};
use iris::library::{copied_status, deleted_status, empty_label, selected_label, Click, KeyDid, Library};
use iris::listing::{
    entry_name, fit_name, name_cols, name_on, CaptureEntry, ListPass, LABEL_GAP, LABEL_PAD,
};
use iris::paths::{file_stem, stem_on, Platform};

/// How wide a small character is.
const ADVANCE: i64 = 72_000;

#[test]
fn visible_rows_preserves_card_offsets_and_scroll_height() {
    let card_h = THUMB_H + 8 * PX + 18 * PX;
    let row_pitch = card_h + GAP;
    // 80 entries, 4 columns -> 20 rows. Row r's un-virtualized top
    // is GAP + r*row_pitch; content bottom is rows*row_pitch.
    let (n, cols, rows) = (80usize, 4usize, 20usize);

    // No viewport yet (first frame): every row renders, no spacers.
    assert_eq!(visible_rows(n, cols, 0, 0), (0, 19, 0, 0));

    // Scrolled to the top, two rows tall: rows 0..=1 visible plus
    // one buffer row -> 0..=2, no top spacer.
    let (first, last, top, bottom) = visible_rows(n, cols, 0, 2 * row_pitch);
    assert_eq!((first, last), (0, 2));
    assert_eq!(top, 0);
    // Content bottom = spacer_top + bottom_h + GAP(bottom pad).
    let spacer_top = GAP + (last + 1) as i64 * row_pitch;
    assert_eq!(spacer_top + bottom + GAP, rows as i64 * row_pitch + GAP);

    // Scrolled to the middle: a strict subset renders with both
    // spacers, and every rendered row lands at its un-virtualized
    // offset.
    let (first, last, top, bottom) = visible_rows(n, cols, 8 * row_pitch, 3 * row_pitch);
    assert!(first > 0 && last < rows - 1 && first <= last);
    // The first rendered card row lands at GAP + first*row_pitch:
    // top spacer occupies [GAP, GAP+top_h], then a GAP line break.
    assert_eq!(GAP + top + GAP, GAP + first as i64 * row_pitch);
    // Total content height is preserved end to end. The rendered
    // rows occupy count*row_pitch - GAP (internal gaps, no
    // trailing), so the sum is top + rendered + bottom + 4*GAP.
    let rendered = (last - first + 1) as i64 * row_pitch - GAP;
    let total = GAP + top + GAP + rendered + GAP + bottom + GAP;
    assert_eq!(total, rows as i64 * row_pitch + GAP);

    // Scrolled past the end: clamps to the last row, never inverts.
    let (first, last, _, _) = visible_rows(n, cols, 100000 * PX, 500 * PX);
    assert!(first <= last && last == rows - 1);

    // Empty library: no rows, no spacers.
    assert_eq!(visible_rows(0, cols, 0, 500 * PX), (0, 0, 0, 0));
}

fn entry(file: &str, width: u32, height: u32) -> CaptureEntry {
    CaptureEntry {
        path: format!("shots/{file}"),
        thumb: String::new(),
        width,
        height,
        created_ms: 0,
    }
}

#[test]
fn every_label_fits_its_row() {
    let sides = [1, 12, 123, 1234, 12345, u32::MAX];
    let names = [
        "a",
        "2026-09-23_10-51-52",
        "2026-09-23_10-51-52-2",
        "Screenshot 2026-09-23 at 10-51-52 of the release notes",
        "äöüßäöüßäöüßäöüßäöüßäöüßäöüßäöüß",
    ];
    for w in sides {
        for h in sides {
            for name in names {
                let (label, dims) = entry_name(&entry(&format!("{name}.png"), w, h), ADVANCE);
                let cols = label.chars().count() + dims.chars().count();
                let width = cols as i64 * ADVANCE + LABEL_GAP + 2 * LABEL_PAD;
                assert!(
                    width <= CARD_W,
                    "{label:?} beside {dims:?} is {width} on a {CARD_W} card"
                );
                // Shortened only when the whole stem does not fit.
                if name.chars().count() <= name_cols(&dims, ADVANCE) {
                    assert_eq!(label, name, "beside {dims:?}");
                }
            }
        }
    }
}

#[test]
fn a_default_name_shows_whole_and_its_suffix_survives_shortening() {
    for (w, h) in [(1280, 720), (3840, 2160), (7680, 4320)] {
        // {date}_{time}, the default template, drops only the extension.
        let (label, _) = entry_name(&entry("2026-09-23_10-51-52.png", w, h), ADVANCE);
        assert_eq!(label, "2026-09-23_10-51-52");
        let (label, _) = entry_name(&entry("2026-09-23_10-51-52-2.png", w, h), ADVANCE);
        assert!(label.ends_with("-51-52-2"), "{label:?} beside {w}x{h}");
    }
}

#[test]
fn a_shortened_name_keeps_its_head_and_tail() {
    assert_eq!(fit_name("abcdefghij", 10), "abcdefghij");
    assert_eq!(fit_name("abcdefghij", 9), "abcd\u{2026}ghij");
    assert_eq!(fit_name("abcdefghij", 6), "abc\u{2026}ij");
    assert_eq!(fit_name("abcdefghij", 5), "ab\u{2026}ij");
    assert_eq!(fit_name("abcdefghij", 1), "\u{2026}");
    // Characters, not bytes.
    assert_eq!(fit_name("äöüßäöüß", 5), "äö\u{2026}üß");
    assert_eq!(fit_name("截图截图截图", 4), "截图\u{2026}图");
}

#[test]
fn names_that_differ_only_at_the_end_stay_apart() {
    let (a, b) = ("2026-09-23_10-51-52-2", "2026-09-23_10-51-52-3");
    for cols in 3..=a.len() + 2 {
        assert_ne!(fit_name(a, cols), fit_name(b, cols), "{cols} columns");
    }
}

#[test]
fn a_stem_is_the_file_name_without_its_extension() {
    assert_eq!(file_stem("/a/b.c/shot.png"), "shot");
    assert_eq!(file_stem("shot.tar.gz"), "shot.tar");
    assert_eq!(file_stem("/a/.hidden"), ".hidden");
    assert_eq!(file_stem("plain"), "plain");
    let (label, dims) = entry_name(&entry("x.png", 640, 480), ADVANCE);
    assert_eq!((label.as_str(), dims.as_str()), ("x", "640\u{d7}480"));
}

#[test]
fn a_path_is_split_where_its_platform_splits_it() {
    let dos = Platform::Windows;
    assert_eq!(stem_on("C:\\shots\\a.b.png", dos), "a.b");
    assert_eq!(stem_on("C:/shots\\x.png", dos), "x");
    assert_eq!(stem_on("C:x.png", dos), "x");
    assert_eq!(stem_on("shots\\.hidden", dos), ".hidden");
    assert_eq!(stem_on("shots\\x.png\\", dos), "x");
    assert_eq!(stem_on("C:\\", dos), "");
    // Elsewhere a backslash and a colon are characters of the name.
    assert_eq!(stem_on("C:\\shots\\x.png", Platform::Unix), "C:\\shots\\x");
    assert_eq!(stem_on("a/C:x.png", Platform::Unix), "C:x");
    // A path with neither reads the same on both.
    for path in ["/a/b.c/shot.png", "shot.tar.gz", "/a/.hidden", "plain", "/", "", "a/..", "a/."] {
        assert_eq!(stem_on(path, dos), stem_on(path, Platform::Unix), "{path}");
        assert_eq!(stem_on(path, dos), file_stem(path), "{path}");
    }
    let e = CaptureEntry { path: "D:\\shots\\x.png".to_string(), ..entry("", 640, 480) };
    assert_eq!(name_on(&e, ADVANCE, dos).0, "x");
}

/// A window over these captures.
fn window(names: &[&str]) -> Library {
    let mut lib = Library::new();
    let fresh: Vec<CaptureEntry> = names.iter().map(|n| entry(n, 10, 10)).collect();
    assert!(lib.show(fresh, 7, ADVANCE).is_some());
    lib
}

fn at(x: i64, y: i64) -> Point {
    Point { x: x * PX, y: y * PX }
}

#[test]
fn clicks_select_and_open() {
    let mut lib = window(&["a.png", "b.png", "c.png", "d.png"]);
    let o = at(0, 0);
    assert!(matches!(lib.click_card(1, true, false, o, o), Click::Selected));
    assert_eq!(lib.selected, ["shots/b.png"]);
    // A range from the last one that was clicked.
    lib.click_card(3, false, true, o, o);
    assert!(lib.is_selected("shots/b.png") && lib.is_selected("shots/c.png"));
    assert!(lib.is_selected("shots/d.png") && !lib.is_selected("shots/a.png"));
    // Once more, and it is no longer selected.
    lib.click_card(1, true, false, o, o);
    assert!(!lib.is_selected("shots/b.png"));
    lib.key_down("escape", false);
    assert!(lib.selected.is_empty());
    // With nothing selected a click opens the capture.
    match lib.click_card(0, false, false, at(100, 50), at(300, 200)) {
        Click::Open { path, from } => {
            assert_eq!(path, "shots/a.png");
            assert_eq!(
                from,
                Rect {
                    x: 400 * PX - CARD_W / 2,
                    y: 250 * PX - THUMB_H / 2,
                    w: CARD_W,
                    h: THUMB_H
                }
            );
        }
        _ => panic!("opens"),
    }
    assert!(matches!(lib.click_card(9, false, false, o, o), Click::Nothing));
}

#[test]
fn keys_select_all_delete_and_close() {
    let mut lib = window(&["a.png", "b.png"]);
    assert_eq!(lib.key_down("a", true), KeyDid::Changed);
    assert_eq!(lib.selected.len(), 2);
    assert_eq!(lib.key_down("delete", false), KeyDid::Delete);
    assert_eq!(lib.take_selection(), ["shots/a.png", "shots/b.png"]);
    assert!(lib.selected.is_empty());
    assert_eq!(lib.key_down("?", false), KeyDid::Changed);
    assert!(lib.help);
    assert_eq!(lib.key_down("escape", false), KeyDid::Changed);
    assert_eq!(lib.key_down("escape", false), KeyDid::Close);
}

#[test]
fn a_selection_holds_only_what_is_listed() {
    let mut lib = window(&["a.png", "b.png"]);
    lib.toggle_select("shots/a.png");
    lib.toggle_select("shots/b.png");
    // The same listing again changes nothing.
    assert!(lib.show(vec![entry("a.png", 10, 10), entry("b.png", 10, 10)], 9, ADVANCE).is_none());
    let mut changed = entry("b.png", 10, 10);
    changed.created_ms = 5;
    let r = lib.show(vec![changed], 9, ADVANCE).unwrap();
    assert_eq!(r.stale, ["shots/b.png"]);
    assert_eq!(lib.selected, ["shots/b.png"]);
}

#[test]
fn a_write_during_a_pass_makes_another_due() {
    let mut p = ListPass::new();
    assert!(p.begin(false));
    assert!(!p.begin(false));
    assert!(!p.land());
    assert!(p.begin(false));
    assert!(!p.begin(true));
    assert!(!p.begin(false));
    assert!(p.land());
    assert!(!p.in_flight);
}

#[test]
fn a_band_selects_the_cards_it_meets() {
    let mut lib = window(&["a.png", "b.png", "c.png"]);
    let width = GAP + 2 * (CARD_W + GAP);
    assert_eq!(columns(width), 2);
    let c = card_rect(2, 2, 0);
    assert_eq!((c.x, c.y), (GAP, GRID_TOP + GAP + THUMB_H + 26 * PX + GAP));
    lib.start_band(Point { x: c.x + PX, y: c.y + PX });
    lib.stretch_band(Point { x: c.x + 2 * PX, y: c.y + 9 * PX });
    lib.finish_band(width, 0);
    assert_eq!(lib.selected, ["shots/c.png"]);
    assert!(lib.band.is_none());
}

#[test]
fn a_drag_takes_the_selection_or_the_card() {
    let mut lib = window(&["a.png", "b.png", "c.png"]);
    lib.press_card(0, at(10, 10));
    // Less than eight pixels is no drag.
    assert!(lib.drag_card(at(15, 15), true).is_none());
    assert_eq!(lib.drag_card(at(18, 10), true), Some(vec!["shots/a.png".to_string()]));
    // It fires once.
    assert!(lib.drag_card(at(40, 10), true).is_none());
    lib.release_card();
    lib.toggle_select("shots/b.png");
    lib.toggle_select("shots/c.png");
    lib.press_card(1, at(10, 10));
    assert_eq!(
        lib.drag_card(at(30, 10), true),
        Some(vec!["shots/b.png".to_string(), "shots/c.png".to_string()])
    );
}

#[test]
fn thumbnails_are_kept_around_what_is_shown() {
    assert_eq!(keep_window(20, 24, 4, 1000), (12 * 4, 33 * 4));
    assert_eq!(keep_window(2, 4, 4, 30), (0, 30));
    let mut lib = window(&["a.png", "b.png"]);
    lib.prefetching = false;
    lib.prefetch_want = None;
    assert!(lib.prefetch_thumbs((0, 9)));
    assert!(!lib.prefetch_thumbs((0, 1)));
    assert_eq!(lib.next_range(), Some((0, 1)));
    assert_eq!(lib.next_range(), None);
    assert!(!lib.prefetching);
}

#[test]
fn cards_rise_one_after_another() {
    assert_eq!(cascade(0, 0), 0);
    assert_eq!(cascade(175, 0), WAY / 2);
    assert_eq!(cascade(350, 0), WAY);
    assert_eq!(cascade(25, 1), 0);
    assert_eq!(cascade(200, 1), WAY / 2);
    // The twenty-fourth and all after it rise together.
    assert_eq!(cascade(700, 24), cascade(700, 500));
}

#[test]
fn what_happened_is_told_in_words() {
    assert_eq!(selected_label(3), "3 selected");
    assert_eq!(copied_status(2, Ok(())), "2 copied");
    assert_eq!(copied_status(2, Err("no clipboard".into())), "no clipboard");
    assert_eq!(deleted_status(0), None);
    assert_eq!(deleted_status(2), Some("2 delete(s) failed".into()));
    assert_eq!(empty_label("Print"), "No captures yet \u{2014} press Print");
}

#[test]
fn a_circle_toggles_and_anchors() {
    let mut lib = window(&["a.png", "b.png", "c.png"]);
    lib.click_circle(1, "shots/b.png");
    assert_eq!(lib.selected, ["shots/b.png"]);
    assert_eq!(lib.anchor, Some(1));
    lib.click_circle(2, "shots/c.png");
    assert_eq!(lib.selected, ["shots/b.png", "shots/c.png"]);
    lib.click_circle(1, "shots/b.png");
    assert_eq!(lib.selected, ["shots/c.png"]);
    assert_eq!(lib.anchor, Some(1));
}

#[test]
fn thumbs_are_dropped_when_the_window_moves_on() {
    let mut lib = Library::new();
    assert_eq!(lib.keep_thumbs((2, 10), 8), (true, false));
    assert_eq!(lib.thumb_keep, (2, 10));
    // Nothing moved, whatever is cached.
    assert_eq!(lib.keep_thumbs((2, 10), 50), (false, false));
    // More is cached than the window holds.
    assert_eq!(lib.keep_thumbs((4, 12), 9), (true, true));
}

#[test]
fn a_band_starts_after_a_card_was_let_go() {
    let mut lib = window(&["a.png", "b.png"]);
    lib.press_card(0, at(10, 10));
    // The card's own press reaches the grid too.
    lib.start_band(at(10, 10));
    assert!(lib.band.is_none());
    lib.release_card();
    lib.start_band(at(300, 300));
    assert!(lib.band.is_some());
    // A button that went up outside the window is seen on the next move.
    let mut lib = window(&["a.png", "b.png"]);
    lib.press_card(1, at(10, 10));
    lib.drag_card(at(12, 10), false);
    lib.start_band(at(300, 300));
    assert!(lib.band.is_some());
}

#[test]
fn frames_follow_while_a_card_moves() {
    let mut lib = window(&["a.png", "b.png", "c.png"]);
    assert!(!lib.advance(0));
    assert_eq!(lib.poses(1), (0, 0, 0));
    lib.hovered = Some(1);
    lib.toggle_select("shots/c.png");
    lib.press_card(1, at(10, 10));
    let mut now = 0;
    let mut frames = 0;
    loop {
        now += 16;
        frames += 1;
        assert!(frames < 200, "everything comes to rest");
        if !lib.advance(now) {
            break;
        }
    }
    assert!(frames > 10);
    let near = |v: i64, to: i64| (v - to).abs() < 2_000_000;
    let (hover, ring, squish) = lib.poses(1);
    assert!(near(hover, WAY) && ring == 0 && near(squish, WAY));
    let (hover, ring, squish) = lib.poses(2);
    assert!(hover == 0 && near(ring, WAY) && squish == 0);
    // Left alone they go back, and a card that is gone has no spring.
    lib.hovered = None;
    lib.take_selection();
    lib.release_card();
    assert!(lib.advance(now + 16));
    for i in 2..200 {
        lib.advance(now + 16 * i);
    }
    assert!(!lib.advance(now + 16 * 200));
    let gone = window(&["a.png"]);
    assert_eq!(gone.poses(7), (0, 0, 0));
}
