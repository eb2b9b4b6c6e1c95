//! The toast: its countdowns, gestures and way out.

use iris::config::{ToastClickAction, ToastPosition};
use iris::geom::{Point, Rect, PX};
use iris::stage::{
    bar_buttons, done_text, live_card_rect, menu_rows, publish_rest, Bar, BarItem, Done, Due,
    Gesture, Handoff, MenuItem, Moved, Prefs, Tempo, ToastStage, MORPH_WAIT, PRESENT_GRACE,
};

fn at(x: i64, y: i64) -> Point {
    Point { x: x * PX, y: y * PX }
}

fn card() -> Rect {
    Rect { x: 1700 * PX, y: 900 * PX, w: 200 * PX, h: 113 * PX }
}

fn toast() -> ToastStage {
    let prefs = Prefs {
        position: ToastPosition::BottomRight,
        click: ToastClickAction::Markup,
        drag: true,
    };
    ToastStage::new(prefs, PX, card(), false, 0)
}

const TEMPO: Tempo = Tempo { enter: 380, exit: 220, replace: 80, back: 300, fade: 140 };

#[test]
fn only_the_latest_countdown_closes() {
    let mut t = toast();
    let a = t.arm_dismiss().unwrap();
    let b = t.arm_dismiss().unwrap();
    assert_ne!(a, b);
    assert_eq!(t.dismiss_due(a, 10), Due::Nothing);
    // Under the pointer it starts over.
    t.hover(true);
    match t.dismiss_due(b, 20) {
        Due::Again(c) => {
            t.hover(false);
            assert_eq!(t.dismiss_due(c, 30), Due::Nothing);
        }
        _ => panic!("starts over"),
    }
}

#[test]
fn a_pinned_toast_stays() {
    let mut t = toast();
    let gen = t.arm_dismiss().unwrap();
    assert_eq!(t.toggle_pin(), None);
    assert!(t.pinned);
    assert_eq!(t.dismiss_due(gen, 10), Due::Nothing);
    assert_eq!(t.closing_at, None);
    // Let go, it counts down again.
    assert!(t.toggle_pin().is_some());
}

#[test]
fn a_swipe_to_the_edge_sends_it_away() {
    let mut t = toast();
    t.card_pressed(at(50, 50));
    // Eight pixels decide: mostly towards the edge.
    assert_eq!(t.pointer_moved(at(53, 50), 10), Moved::Nothing);
    assert_eq!(t.pointer_moved(at(60, 51), 20), Moved::Redraw);
    assert_eq!(t.gesture, Gesture::Swipe);
    t.pointer_moved(at(160, 52), 600);
    // Held still, it is slow, but it came far enough.
    assert_eq!(t.clicked(2000), None);
    assert_eq!(t.closing_at, Some(2000));
    assert_eq!(t.exit_from, 110 * PX);
}

#[test]
fn a_short_slow_swipe_springs_back() {
    let mut t = toast();
    t.card_pressed(at(50, 50));
    t.pointer_moved(at(60, 51), 20);
    t.pointer_moved(at(80, 51), 2000);
    assert_eq!(t.clicked(3000), None);
    assert_eq!(t.closing_at, None);
    assert_eq!(t.swipe_return, Some((3000, 30 * PX)));
    assert!(t.frame(3100, PX, false, TEMPO).again);
    t.frame(3300, PX, false, TEMPO);
    assert_eq!(t.swipe_return, None);
}

#[test]
fn a_move_away_from_the_edge_drags_the_file() {
    let mut t = toast();
    t.card_pressed(at(50, 50));
    assert_eq!(t.pointer_moved(at(40, 50), 20), Moved::DragFile);
    assert_eq!(t.pointer_moved(at(30, 50), 30), Moved::Nothing);
    // The click that ends it does nothing else.
    assert_eq!(t.clicked(40), None);
    assert_eq!(t.clicked(50), Some(ToastClickAction::Markup));
}

#[test]
fn a_press_beside_the_menu_only_closes_it() {
    let mut t = toast();
    t.open_menu(at(10, 10), (300 * PX, 200 * PX), (120 * PX, 150 * PX));
    assert!(t.menu_at.is_some());
    t.window_pressed(at(290, 190), (120 * PX, 150 * PX));
    assert!(t.menu_at.is_none());
    assert_eq!(t.clicked(5), None);
    assert_eq!(t.clicked(6), Some(ToastClickAction::Markup));
}

#[test]
fn a_closing_toast_goes_when_its_exit_ends() {
    let mut t = toast();
    t.frame(0, PX, false, TEMPO);
    t.begin_close(1000);
    assert_eq!(t.frame(1100, PX, false, TEMPO).rest, None);
    assert!(!t.frame(1219, PX, false, TEMPO).remove);
    assert!(t.frame(1220, PX, false, TEMPO).remove);
    // A newer capture fades it faster.
    let mut t = toast();
    t.fade_out_quick(1000);
    assert!(t.frame(1080, PX, false, TEMPO).remove);
    // It closes once.
    t.begin_close(5000);
    assert_eq!(t.closing_at, Some(1000));
}

#[test]
fn a_card_in_the_editor_leaves_once_it_is_shown_there() {
    let mut t = toast();
    t.handed_to_editor(100);
    assert!(!t.frame(150, PX, false, TEMPO).remove);
    assert!(!t.frame(200, PX, true, TEMPO).remove);
    assert!(!t.frame(200 + PRESENT_GRACE, PX, true, TEMPO).remove);
    assert!(t.frame(201 + PRESENT_GRACE, PX, true, TEMPO).remove);
    // However long the editor takes, it waits no longer than this.
    let mut t = toast();
    t.handed_to_editor(100);
    assert!(!t.frame(100 + MORPH_WAIT, PX, false, TEMPO).remove);
    assert!(t.frame(101 + MORPH_WAIT, PX, false, TEMPO).remove);
}

#[test]
fn another_scale_makes_the_pixels_anew_once() {
    let mut t = toast();
    assert!(t.frame(0, 2 * PX, false, TEMPO).rescale);
    assert!(!t.frame(10, 2 * PX, false, TEMPO).rescale);
    assert!(t.rescaled(2 * PX, true));
    assert!(!t.frame(20, 2 * PX, false, TEMPO).rescale);
}

#[test]
fn a_result_shows_as_the_status() {
    let mut t = toast();
    t.copy_text();
    assert!(t.busy);
    t.reported(Ok(done_text(Done::Text(12))));
    assert_eq!(t.status, Some("Copied 12 characters".to_string()));
    assert!(!t.busy);
    assert_eq!(done_text(Done::Image), "Copied image");
    assert_eq!(done_text(Done::File), "Copied file");
    t.deleted(Err("busy".to_string()), 5);
    assert!(t.closing_at.is_none());
    t.deleted(Ok(()), 6);
    assert_eq!(t.closing_at, Some(6));
}

#[test]
fn a_landed_toast_shows_its_bar_on_demand() {
    let prefs = Prefs {
        position: ToastPosition::TopLeft,
        click: ToastClickAction::Copy,
        drag: false,
    };
    let mut t = ToastStage::new(prefs, PX, card(), true, 0);
    assert_eq!(t.bar, Bar::Hidden);
    t.reveal_bar(40);
    assert_eq!(t.bar, Bar::FadingIn(40));
    t.reveal_bar(50);
    assert_eq!(t.bar, Bar::FadingIn(40));
}

#[test]
fn menus_and_bars_list_their_items() {
    let rows = menu_rows();
    assert_eq!(rows[0].0, MenuItem::Markup);
    assert_eq!(rows.len(), 6);
    assert!(bar_buttons(false, true).is_empty());
    assert_eq!(bar_buttons(true, true)[0], BarItem::Pin);
    assert_eq!(bar_buttons(true, false)[0], BarItem::CopyImage);
}

#[test]
fn the_resting_card_is_that_of_an_open_toast() {
    let mut slot = None;
    publish_rest(&mut slot, 7, Some(card()));
    assert_eq!(live_card_rect(&slot, &[3, 7]), Some(card()));
    assert_eq!(live_card_rect(&slot, &[3]), None);
    // Another toast's end does not clear it.
    publish_rest(&mut slot, 3, None);
    assert_eq!(live_card_rect(&slot, &[7]), Some(card()));
    publish_rest(&mut slot, 7, None);
    assert_eq!(live_card_rect(&slot, &[7]), None);
    assert!(Handoff::new().pending);
}

#[test]
fn a_failed_drag_is_said() {
    let mut t = toast();
    let gen = t.drag_failed("no target");
    assert!(gen.is_some());
    assert_eq!(gen, Some(t.dismiss_gen));
    assert_eq!(t.status.as_deref(), Some("Drag failed: no target"));
    assert_eq!(t.closing_at, None);
}

#[test]
fn menu_rows_that_leave_close_it() {
    let mut t = toast();
    t.menu_at = Some(at(10, 10));
    t.menu_chosen(MenuItem::Copy, 50);
    assert_eq!(t.menu_at, None);
    assert_eq!(t.closing_at, None);
    t.menu_at = Some(at(10, 10));
    t.menu_chosen(MenuItem::Close, 60);
    assert_eq!(t.menu_at, None);
    assert_eq!(t.closing_at, Some(60));
}

#[test]
fn a_press_that_went_nowhere_leaves_it() {
    let mut t = toast();
    t.drag_start = Some(at(5, 5));
    t.pointer_up(70);
    assert_eq!(t.drag_start, None);
    assert_eq!(t.closing_at, None);
}
