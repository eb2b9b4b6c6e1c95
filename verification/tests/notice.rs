//! Notices: their size, their place and how long they stay.

use iris::card;
use iris::geom::{Rect, PX};
use iris::notice::{
    card_height, one_paragraph, open, overlaps, place, text_width, wrapped_lines, BORDER, BUTTON,
    DETAIL_LINE, FAILURE_HOLD, MARGIN, MAX_LINES, PAD, TITLE_GAP, TITLE_LINE, W,
};

/// The room a card's window leaves for its shadow, how far the shadow
/// reaches, and how wide a small character is.
const BLEED: i64 = 48 * PX;
const REACH: i64 = 44 * PX;
const ADVANCE: i64 = 72_000;

fn rect(x: i64, y: i64, w: i64, h: i64) -> Rect {
    Rect { x: x * PX, y: y * PX, w: w * PX, h: h * PX }
}

fn screens() -> [Rect; 2] {
    [rect(0, 0, 1920, 1080), rect(-2560, -300, 2560, 1440)]
}

const CORNERS: [(bool, bool); 4] = [(false, false), (true, false), (false, true), (true, true)];

/// The card's rect in the bare corner of `screen`.
fn corner(screen: Rect, left: bool, top: bool, height: i64) -> Rect {
    let x = if left {
        screen.x + MARGIN
    } else {
        screen.x + screen.w - MARGIN - W
    };
    let y = if top {
        screen.y + MARGIN
    } else {
        screen.y + screen.h - MARGIN - height
    };
    Rect { x, y, w: W, h: height }
}

/// A `w`x`h` toast card at rest in the corner, as the toast places it.
fn toast_card(screen: Rect, left: bool, top: bool, w: i64, h: i64) -> Rect {
    let (w, h) = (w * PX, h * PX);
    let m = card::MARGIN;
    let x = if left { screen.x + m } else { screen.x + screen.w - m - w };
    let y = if top { screen.y + m } else { screen.y + screen.h - m - h };
    Rect { x, y, w, h }
}

/// The toast's window around its card `t`, as the toast opens it:
/// shadow room on the inner sides, the screen margin on the outer ones.
fn toast_window(t: Rect, left: bool, top: bool) -> Rect {
    let m = card::MARGIN;
    let x = if left { t.x - m } else { t.x - BLEED };
    let y = if top { t.y - m } else { t.y - BLEED };
    Rect { x, y, w: t.w + BLEED + m, h: t.h + BLEED + m }
}

/// Room between `card` and each edge of `window`: left, top, right,
/// bottom.
fn room(window: Rect, card: Rect) -> [i64; 4] {
    [
        card.x - window.x,
        card.y - window.y,
        window.x + window.w - (card.x + card.w),
        window.y + window.h - (card.y + card.h),
    ]
}

/// Which edges of `window` lie on the edge of `screen`: left, top,
/// right, bottom.
fn on_screen_edge(window: Rect, screen: Rect) -> [bool; 4] {
    [
        window.x == screen.x,
        window.y == screen.y,
        window.x + window.w == screen.x + screen.w,
        window.y + window.h == screen.y + screen.h,
    ]
}

#[test]
fn wraps_greedily_at_whitespace() {
    let cases: [(&str, usize, usize); 9] = [
        ("", 10, 1),
        ("short", 10, 1),
        ("exactly10c", 10, 1),
        ("two words", 9, 1),
        ("two words", 8, 2),
        ("aaaa bbbb cccc", 9, 2),
        ("aaaa  bbbb\ncccc", 9, 2),
        ("abcdefghijklmnopqrstuvwxy", 10, 3),
        ("ab abcdefghijklmnopqrst cd", 10, 4),
    ];
    for (text, cols, want) in cases {
        assert_eq!(
            wrapped_lines(text, cols),
            want,
            "{text:?} at {cols} columns"
        );
    }
}

#[test]
fn zero_columns_count_one_character_a_line() {
    assert_eq!(wrapped_lines("abc", 0), 3);
}

#[test]
fn an_error_becomes_one_paragraph() {
    // A hard break the estimate cannot see would add a line that is
    // drawn and the card has no room for.
    let err = "ffmpeg exited 1:\n  [in#0] Error opening input\r\n\tfile: x.mkv  ";
    let p = one_paragraph(err);
    assert_eq!(p, "ffmpeg exited 1: [in#0] Error opening input file: x.mkv");
    assert!(!p.contains(['\n', '\r', '\t']));
}

#[test]
fn card_holds_its_text_and_buttons_with_no_slack() {
    let mut last = 0;
    for lines in 0..=MAX_LINES {
        let inner = card_height(lines) - 2 * (BORDER + PAD);
        let text = match lines {
            0 => TITLE_LINE,
            n => TITLE_LINE + TITLE_GAP + n as i64 * DETAIL_LINE,
        };
        assert_eq!(inner, text.max(BUTTON), "{lines} lines");
        assert!(card_height(lines) > last, "height grows with {lines} lines");
        last = card_height(lines);
    }
}

#[test]
fn detail_column_fits_a_recording_name_beside_both_buttons() {
    let cols = |buttons: usize| (text_width(buttons) / ADVANCE) as usize;
    // The longest name of a recording, but the millis fallback: a date,
    // a time, a 3-digit suffix, and the extension.
    assert_eq!(wrapped_lines("2026-08-09_14-02-11_999.webm", cols(2)), 1);
    assert!(cols(2) < cols(1), "the reveal button narrows the column");
    assert!(cols(2) >= 36, "{} columns", cols(2));
}

#[test]
fn overlap_needs_shared_area() {
    let a = rect(0, 0, 10, 10);
    assert!(overlaps(a, a));
    assert!(overlaps(a, rect(9, 9, 5, 5)));
    assert!(overlaps(a, rect(-5, 2, 30, 1)), "a strip across it");
    for touching in [rect(10, 0, 5, 10), rect(0, 10, 10, 5), rect(-5, -5, 5, 5)] {
        assert!(!overlaps(a, touching), "{touching:?}");
        assert!(!overlaps(touching, a), "{touching:?}");
    }
}

#[test]
fn lands_in_its_corner_inside_the_screen() {
    for screen in screens() {
        for (left, top) in CORNERS {
            for lines in 0..=MAX_LINES {
                let h = card_height(lines);
                let (window, card) = place(screen, left, top, h, BLEED, None);
                assert_eq!(
                    card,
                    corner(screen, left, top, h),
                    "{screen:?} {left} {top}"
                );
                assert_eq!(
                    (window.w, window.h),
                    (W + BLEED + MARGIN, h + BLEED + MARGIN)
                );
                assert!(
                    window.x >= screen.x && window.x + window.w <= screen.x + screen.w,
                    "x {window:?} on {screen:?}"
                );
                assert!(
                    window.y >= screen.y && window.y + window.h <= screen.y + screen.h,
                    "y {window:?} on {screen:?}"
                );
            }
        }
    }
}

#[test]
fn never_covers_a_live_toast() {
    for screen in screens() {
        for (left, top) in CORNERS {
            for (tw, th) in [(200, 140), (40, 140), (200, 12), (1, 1)] {
                let toast = toast_card(screen, left, top, tw, th);
                for lines in 0..=MAX_LINES {
                    let h = card_height(lines);
                    let (window, card) = place(screen, left, top, h, BLEED, Some(toast));
                    let at = format!("{screen:?} left={left} top={top} toast {tw}x{th}");
                    assert!(!overlaps(card, toast), "{at}: {card:?} covers {toast:?}");
                    assert!(
                        !overlaps(window, toast),
                        "{at}: window {window:?} reaches into {toast:?}"
                    );
                    let beside = toast_window(toast, left, top);
                    assert!(
                        !overlaps(beside, card),
                        "{at}: toast window {beside:?} reaches into {card:?}"
                    );
                    assert_eq!(card.x, corner(screen, left, top, h).x, "{at}: same column");
                    let gap = if top {
                        card.y - (toast.y + toast.h)
                    } else {
                        toast.y - (card.y + card.h)
                    };
                    assert_eq!(gap, BLEED, "{at}: stacked beyond the toast");
                }
            }
        }
    }
}

#[test]
fn every_window_holds_its_card_shadow() {
    let toasts = [
        None,
        Some((200, 140)),
        Some((40, 140)),
        Some((200, 12)),
        Some((1, 1)),
    ];
    for screen in screens() {
        for (left, top) in CORNERS {
            for size in toasts {
                let toast = size.map(|(w, h)| toast_card(screen, left, top, w, h));
                for lines in 0..=MAX_LINES {
                    let (window, card) =
                        place(screen, left, top, card_height(lines), BLEED, toast);
                    let at = format!("{screen:?} left={left} top={top} toast {size:?}");
                    let sides = ["left", "top", "right", "bottom"];
                    let edges = on_screen_edge(window, screen);
                    for ((side, space), edge) in sides.iter().zip(room(window, card)).zip(edges) {
                        if edge {
                            assert_eq!(space, MARGIN, "{at}: {side} at the screen edge");
                        } else {
                            assert!(
                                space >= REACH,
                                "{at}: {side} holds {space} of a {REACH} shadow"
                            );
                        }
                    }
                }
            }
        }
    }
}

#[test]
fn a_toast_elsewhere_leaves_the_corner_alone() {
    let (primary, other) = (screens()[0], rect(1920, 0, 2560, 1440));
    for (left, top) in CORNERS {
        let h = card_height(2);
        let toast = toast_card(other, left, top, 200, 140);
        let (_, card) = place(primary, left, top, h, BLEED, Some(toast));
        assert_eq!(card, corner(primary, left, top, h), "left={left} top={top}");
        // The opposite corner of the same display is elsewhere too.
        let across = toast_card(primary, !left, !top, 200, 140);
        let (_, card) = place(primary, left, top, h, BLEED, Some(across));
        assert_eq!(card, corner(primary, left, top, h), "left={left} top={top}");
    }
}

fn opened(detail: &str, failure: bool) -> (iris::notice::Notice, Rect) {
    open(
        "Capture failed".to_string(),
        detail.to_string(),
        None,
        failure,
        3000,
        (false, false),
        BLEED,
        ADVANCE,
        Some(screens()[0]),
        None,
    )
    .expect("there is a display")
}

#[test]
fn a_notice_is_as_tall_as_its_detail() {
    let (n, _) = opened("", false);
    assert_eq!((n.lines, n.card.h), (0, card_height(0)));
    let (n, _) = opened("one line", false);
    assert_eq!((n.lines, n.card.h), (1, card_height(1)));
    // However long the detail, there is room for three lines.
    let (n, _) = opened(&"word ".repeat(100), false);
    assert_eq!((n.lines, n.card.h), (MAX_LINES, card_height(MAX_LINES)));
    // A failure stays longer.
    assert_eq!(opened("x", false).0.hold, 3000);
    assert_eq!(opened("x", true).0.hold, FAILURE_HOLD);
}

#[test]
fn without_a_display_there_is_no_notice() {
    let r = open(
        "t".to_string(),
        "d".to_string(),
        None,
        false,
        3000,
        (true, true),
        BLEED,
        ADVANCE,
        None,
        None,
    );
    assert_eq!(r.err(), Some("no display".to_string()));
}

#[test]
fn only_the_latest_countdown_dismisses() {
    let (mut n, _) = opened("x", false);
    assert_eq!(n.arm(), Some(1));
    // The pointer comes and goes: another countdown.
    assert_eq!(n.hover(true), None);
    assert_eq!(n.hover(false), Some(2));
    assert_eq!(n.due(1, 500), None);
    assert_eq!(n.closing, None);
    // Under the pointer it starts over.
    n.hover(true);
    assert_eq!(n.due(2, 600), Some(3));
    n.hover(false);
    n.due(4, 700);
    assert_eq!(n.closing, Some((700, false)));
    assert_eq!(n.arm(), None);
    // It fades for its time, then goes.
    assert_eq!(n.frame(750, 0, 200, 80), (false, true));
    assert_eq!(n.frame(900, 0, 200, 80), (true, false));
}

#[test]
fn a_notice_yields_to_a_toast_over_it() {
    let (mut n, _) = opened("x", false);
    let away = rect(0, 0, 10, 10);
    n.yield_to(away, 5);
    assert_eq!(n.closing, None);
    let over = toast_card(screens()[0], false, false, 200, 140);
    n.yield_to(over, 9);
    assert_eq!(n.closing, Some((9, true)));
}

#[test]
fn a_notice_comes_in_rests_and_leaves() {
    let whole = 1_000_000_000;
    let (mut n, _) = opened("x", false);
    n.opened = Some(100);
    let (offset, opacity, shadow) = n.pose(100, 400, 200, 80);
    assert_eq!((offset, opacity, shadow), (120_000 - (3_800_000 + 240_000), whole, 0));
    assert_eq!(n.pose(500, 400, 200, 80), (120_000, whole, whole));
    // Replaced, it fades where it is.
    let (mut fast, _) = opened("x", false);
    fast.opened = Some(100);
    fast.leave(600, true);
    assert_eq!(fast.pose(640, 400, 200, 80), (120_000, whole / 2, whole));
    // Else it goes over the edge.
    n.leave(600, false);
    assert_eq!(n.pose(600, 400, 200, 80), (120_000, whole, whole));
    let (offset, opacity, _) = n.pose(800, 400, 200, 80);
    assert!(offset + 3_800_000 < 0 && opacity == 0);
}
