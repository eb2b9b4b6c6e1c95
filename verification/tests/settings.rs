//! The settings window.

use iris::config::{
    Config, RecordingEncoder, RecordingFormat, ToastClickAction, ToastPosition,
};
use iris::settings::{DropdownField, Field, Settings, Switch};
use iris::settings_keys::{options, KeyDone, Keystroke};

fn defaults() -> Config {
    Config {
        screenshots_dir: "/home/user/Pictures".into(),
        recordings_dir: "/home/user/Videos".into(),
        screenshot_template: "{date}_{time}".into(),
        flash_on_capture: true,
        sound_on_capture: true,
        show_toast_after_capture: true,
        copy_to_clipboard: true,
        toast_click_action: ToastClickAction::Markup,
        toast_drag_enabled: true,
        toast_show_actions: true,
        toast_pin_enabled: true,
        toast_duration_ms: 5000,
        toast_position: ToastPosition::BottomRight,
        recording_fps: 30,
        record_mic_default: false,
        recording_format: RecordingFormat::Mp4,
        recording_encoder: RecordingEncoder::Auto,
        capture_hotkey: "Print".into(),
        record_hotkey: "Ctrl+Shift+R".into(),
        cancel_keybind: "Escape".into(),
        confirm_keybind: "Enter".into(),
    }
}

#[test]
fn commit_edit_updates_fields_and_validates() {
    let mut s = Settings::new(defaults());

    // Storage paths
    s.editing = Some((Field::ScreenshotsDir, "/tmp/test-shots".into()));
    assert!(s.commit_edit().is_ok());
    assert_eq!(s.cfg.screenshots_dir, "/tmp/test-shots");

    s.editing = Some((Field::RecordingsDir, "/tmp/test-recs".into()));
    assert!(s.commit_edit().is_ok());
    assert_eq!(s.cfg.recordings_dir, "/tmp/test-recs");

    s.editing = Some((Field::ScreenshotsDir, "   ".into()));
    assert!(s.commit_edit().is_err());

    // Template validation
    s.editing = Some((Field::Template, "shot_{date}_{time}".into()));
    assert!(s.commit_edit().is_ok());
    assert_eq!(s.cfg.screenshot_template, "shot_{date}_{time}");

    s.editing = Some((Field::Template, "no_tokens_here".into()));
    assert!(s.commit_edit().is_err());

    // FPS validation
    s.editing = Some((Field::Fps, "60".into()));
    assert!(s.commit_edit().is_ok());
    assert_eq!(s.cfg.recording_fps, 60);

    s.editing = Some((Field::Fps, "0".into()));
    assert!(s.commit_edit().is_err());

    s.editing = Some((Field::Fps, "121".into()));
    assert!(s.commit_edit().is_err());

    s.editing = Some((Field::Fps, "not_a_number".into()));
    assert!(s.commit_edit().is_err());
}

#[test]
fn field_text_covers_all_field_variants() {
    let mut cfg = defaults();
    cfg.screenshots_dir = "/custom/shots".into();
    cfg.recordings_dir = "/custom/recs".into();
    cfg.screenshot_template = "tmpl_{date}".into();
    cfg.recording_fps = 45;
    cfg.capture_hotkey = "Ctrl+Shift+3".into();
    cfg.record_hotkey = "Ctrl+Shift+5".into();
    cfg.cancel_keybind = "Ctrl+C".into();
    cfg.confirm_keybind = "Ctrl+Enter".into();

    let s = Settings::new(cfg);

    assert_eq!(s.field_text(Field::ScreenshotsDir), "/custom/shots");
    assert_eq!(s.field_text(Field::RecordingsDir), "/custom/recs");
    assert_eq!(s.field_text(Field::Template), "tmpl_{date}");
    assert_eq!(s.field_text(Field::Fps), "45");
    assert_eq!(s.field_text(Field::CaptureHotkey), "Ctrl+Shift+3");
    assert_eq!(s.field_text(Field::RecordHotkey), "Ctrl+Shift+5");
    assert_eq!(s.field_text(Field::CancelKeybind), "Ctrl+C");
    assert_eq!(s.field_text(Field::ConfirmKeybind), "Ctrl+Enter");
}

fn stroke(key: &str, control: bool, alt: bool, shift: bool, platform: bool) -> Keystroke {
    Keystroke { key: key.to_string(), control, alt, shift, platform, key_char: None }
}

#[test]
fn format_keystroke_formats_keys_and_modifiers() {
    // Bare modifier is ignored
    assert_eq!(
        Settings::format_keystroke(&stroke("control", true, false, false, false)),
        None
    );
    assert_eq!(
        Settings::format_keystroke(&stroke("shift", false, false, true, false)),
        None
    );

    // Named keys
    assert_eq!(
        Settings::format_keystroke(&stroke("escape", false, false, false, false)),
        Some("Escape".into())
    );
    assert_eq!(
        Settings::format_keystroke(&stroke("enter", false, false, false, false)),
        Some("Enter".into())
    );
    assert_eq!(
        Settings::format_keystroke(&stroke("print", false, false, false, false)),
        Some("Print".into())
    );
    assert_eq!(
        Settings::format_keystroke(&stroke(" ", false, false, false, false)),
        Some("Space".into())
    );

    // Single characters uppercase
    assert_eq!(
        Settings::format_keystroke(&stroke("a", false, false, false, false)),
        Some("A".into())
    );

    // Function keys capitalized
    assert_eq!(
        Settings::format_keystroke(&stroke("f9", false, false, false, false)),
        Some("F9".into())
    );

    // Modifier combos
    assert_eq!(
        Settings::format_keystroke(&stroke("r", true, false, true, false)),
        Some("Ctrl+Shift+R".into())
    );
    assert_eq!(
        Settings::format_keystroke(&stroke("s", true, true, false, false)),
        Some("Ctrl+Alt+S".into())
    );
    assert_eq!(
        Settings::format_keystroke(&stroke("p", false, false, false, true)),
        Some("Super+P".into())
    );
}

#[test]
fn a_key_beyond_ascii_takes_its_upper_case() {
    assert_eq!(
        Settings::format_keystroke(&stroke("\u{e4}", true, false, false, false)),
        Some("Ctrl+\u{c4}".into())
    );
    // One whose upper case is two characters.
    assert_eq!(
        Settings::format_keystroke(&stroke("\u{df}", false, false, false, false)),
        Some("SS".into())
    );
    assert_eq!(
        Settings::format_keystroke(&stroke("", false, false, false, false)),
        None
    );
}

#[test]
fn reset_defaults_restores_default_config_and_status() {
    let mut s = Settings::new(defaults());
    s.editing = Some((Field::Template, "test_edit".into()));
    s.recording = Some(Field::CaptureHotkey);
    s.open_dropdown = Some(DropdownField::ToastPosition);

    // Modify some cfg fields
    s.cfg.screenshots_dir = "/non/default/dir".into();
    s.cfg.recording_fps = 120;
    s.cfg.flash_on_capture = false;
    s.cfg.toast_click_action = ToastClickAction::Nothing;

    s.reset_defaults_state(defaults());

    let def = defaults();
    assert_eq!(s.cfg.screenshots_dir, def.screenshots_dir);
    assert_eq!(s.cfg.recording_fps, def.recording_fps);
    assert_eq!(s.cfg.flash_on_capture, def.flash_on_capture);
    assert_eq!(s.cfg.toast_click_action, def.toast_click_action);
    assert_eq!(s.editing, None);
    assert_eq!(s.recording, None);
    assert_eq!(s.open_dropdown, None);
    assert_eq!(
        s.status,
        Some("Defaults restored; Save to apply".to_string())
    );
}

#[test]
fn each_refused_text_says_why_and_stays_open() {
    for (field, text, why) in [
        (Field::ScreenshotsDir, "  ", "directory cannot be empty"),
        (Field::RecordingsDir, "", "directory cannot be empty"),
        (Field::Template, "shot", "template needs {date} or {time}"),
        (Field::Fps, "fast", "fps must be a number"),
        (Field::Fps, "4294967296", "fps must be a number"),
        (Field::Fps, "0", "fps must be 1-120"),
        (Field::Fps, "121", "fps must be 1-120"),
    ] {
        let mut s = Settings::new(defaults());
        s.editing = Some((field, text.to_string()));
        assert_eq!(s.commit_edit(), Err(why.to_string()), "{text:?}");
        assert_eq!(s.editing, Some((field, text.to_string())));
        // A save stops at it too.
        assert!(!s.ready_to_save());
        assert_eq!(s.status, Some(why.to_string()));
    }
    let mut s = Settings::new(defaults());
    s.editing = Some((Field::Fps, " 120 ".into()));
    assert!(s.ready_to_save());
    assert_eq!((s.cfg.recording_fps, s.editing.clone()), (120, None));
    assert!(s.saved(Ok(())));
    assert_eq!(s.status, Some("saved".to_string()));
    assert!(!s.saved(Err("read only".to_string())));
    assert_eq!(s.status, Some("read only".to_string()));
}

#[test]
fn every_option_can_be_chosen_and_shows_as_chosen() {
    for f in [
        DropdownField::ToastClickAction,
        DropdownField::ToastDuration,
        DropdownField::ToastPosition,
        DropdownField::RecordingFormat,
        DropdownField::RecordingEncoder,
    ] {
        let names = options(f);
        for (i, name) in names.iter().enumerate() {
            let mut s = Settings::new(defaults());
            s.toggle_dropdown(f);
            assert_eq!(s.open_dropdown, Some(f));
            s.choose_option(f, i);
            assert_eq!(s.open_dropdown, None);
            assert_eq!(s.selected(f), Some(i), "{name}");
            assert_eq!(s.current(f), *name);
            assert_eq!(s.option_row(f, i), format!("\u{2713} {name}"));
        }
    }
    let mut s = Settings::new(defaults());
    s.cfg.toast_duration_ms = 4000;
    assert_eq!(s.selected(DropdownField::ToastDuration), None);
    assert_eq!(s.current(DropdownField::ToastDuration), "4s");
}

#[test]
fn a_switch_flipped_twice_is_as_it_was() {
    for w in [
        Switch::Flash,
        Switch::Sound,
        Switch::Toast,
        Switch::Clipboard,
        Switch::Drag,
        Switch::Actions,
        Switch::Mic,
    ] {
        let mut s = Settings::new(defaults());
        let on = s.is_on(w);
        s.flip(w);
        assert_eq!(s.is_on(w), !on);
        s.flip(w);
        assert_eq!(s.is_on(w), on);
    }
}

#[test]
fn keys_type_record_and_close() {
    let mut s = Settings::new(defaults());
    assert_eq!(s.on_key(&stroke("escape", false, false, false, false)), KeyDone::Close);
    s.start_edit(Field::Fps);
    assert_eq!(s.row_text(Field::Fps), ("30\u{258f}".to_string(), true));
    assert_eq!(
        s.on_key(&stroke("backspace", false, false, false, false)),
        KeyDone::Changed
    );
    let five = Keystroke { key_char: Some("5".into()), ..stroke("5", false, false, false, false) };
    s.on_key(&five);
    assert_eq!(s.editing, Some((Field::Fps, "35".to_string())));
    s.on_key(&stroke("enter", false, false, false, false));
    assert_eq!((s.cfg.recording_fps, s.editing.clone()), (35, None));
    // A recorded key replaces the hotkey; a bare modifier does not.
    s.start_record(Field::CaptureHotkey);
    assert_eq!(s.hotkey_text(Field::CaptureHotkey), ("press keys\u{2026}".to_string(), true));
    s.on_key(&stroke("shift", false, false, true, false));
    assert_eq!(s.recording, Some(Field::CaptureHotkey));
    s.on_key(&stroke("s", true, false, false, false));
    assert_eq!(s.recording, None);
    assert_eq!(s.cfg.capture_hotkey, "Ctrl+S");
}

#[test]
fn an_update_check_tells_what_it_found() {
    let mut s = Settings::new(defaults());
    s.checking();
    assert_eq!(s.status, Some("checking\u{2026}".to_string()));
    s.checked(Ok(Some("1.2.3".into())));
    assert_eq!(s.status, Some("update available: 1.2.3".to_string()));
    s.checked(Ok(None));
    assert_eq!(s.status, Some("up to date".to_string()));
    s.checked(Err("offline".into()));
    assert_eq!(s.status, Some("offline".to_string()));
}
