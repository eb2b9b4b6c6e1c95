//! The settings window: a form over the settings, its fields and what the
//! pointer and the keys do to them.

use vstd::prelude::*;
use crate::config::{
    Config,
    RecordingEncoder,
    RecordingFormat,
    ToastClickAction,
    ToastPosition,
};
use crate::text::{contains, decimal, number_of, occurs, parse_u64, push_decimal, trim, trimmed};

verus! {

/// A field that is typed, or recorded from a key.
#[derive(Clone, Copy, Debug, PartialEq, Eq, Structural)]
pub enum Field {
    ScreenshotsDir,
    RecordingsDir,
    Template,
    Fps,
    CaptureHotkey,
    RecordHotkey,
    CancelKeybind,
    ConfirmKeybind,
}

/// A field that is chosen from a list.
#[derive(Clone, Copy, Debug, PartialEq, Eq, Structural)]
pub enum DropdownField {
    ToastClickAction,
    ToastDuration,
    ToastPosition,
    RecordingFormat,
    RecordingEncoder,
}

/// A field that is on or off.
#[derive(Clone, Copy, Debug, PartialEq, Eq, Structural)]
pub enum Switch {
    Flash,
    Sound,
    Toast,
    Clipboard,
    Drag,
    Actions,
    Mic,
}

pub struct Settings {
    pub cfg: Config,
    /// The field that is typed, and what was typed.
    pub editing: Option<(Field, String)>,
    /// The field that waits for a key.
    pub recording: Option<Field>,
    pub open_dropdown: Option<DropdownField>,
    pub status: Option<String>,
}

/// The text of a field.
pub open spec fn text_of(cfg: Config, field: Field) -> Seq<char> {
    match field {
        Field::ScreenshotsDir => cfg.screenshots_dir@,
        Field::RecordingsDir => cfg.recordings_dir@,
        Field::Template => cfg.screenshot_template@,
        Field::Fps => decimal(cfg.recording_fps as nat),
        Field::CaptureHotkey => cfg.capture_hotkey@,
        Field::RecordHotkey => cfg.record_hotkey@,
        Field::CancelKeybind => cfg.cancel_keybind@,
        Field::ConfirmKeybind => cfg.confirm_keybind@,
    }
}

/// Why a text is not taken for a field; None where it is.
pub open spec fn fault(field: Field, text: Seq<char>) -> Option<Seq<char>> {
    match field {
        Field::ScreenshotsDir | Field::RecordingsDir => if text.len() == 0 {
            Some("directory cannot be empty"@)
        } else {
            None
        },
        Field::Template => if occurs(text, "{date}"@) || occurs(text, "{time}"@) {
            None
        } else {
            Some("template needs {date} or {time}"@)
        },
        Field::Fps => match number_of(text) {
            Some(n) => if n > u32::MAX {
                Some("fps must be a number"@)
            } else if 1 <= n <= 120 {
                None
            } else {
                Some("fps must be 1-120"@)
            },
            None => Some("fps must be a number"@),
        },
        _ => None,
    }
}

/// The settings after a text was taken for a field.
pub open spec fn takes(cfg: Config, after: Config, field: Field, text: Seq<char>) -> bool {
    match field {
        Field::ScreenshotsDir => after.screenshots_dir@ == text && after == (Config {
            screenshots_dir: after.screenshots_dir,
            ..cfg
        }),
        Field::RecordingsDir => after.recordings_dir@ == text && after == (Config {
            recordings_dir: after.recordings_dir,
            ..cfg
        }),
        Field::Template => after.screenshot_template@ == text && after == (Config {
            screenshot_template: after.screenshot_template,
            ..cfg
        }),
        Field::Fps => after == (Config { recording_fps: number_of(text)->0 as u32, ..cfg }),
        // Keys are recorded, not typed.
        _ => after == cfg,
    }
}

fn check(field: Field, text: &str) -> (r: Result<(), String>)
    ensures
        match (fault(field, text@), r) {
            (None, Ok(())) => true,
            (Some(f), Err(e)) => e@ == f,
            _ => false,
        },
{
    match field {
        Field::ScreenshotsDir | Field::RecordingsDir => {
            if text.unicode_len() == 0 {
                Err("directory cannot be empty".to_owned())
            } else {
                Ok(())
            }
        },
        Field::Template => {
            if contains(text, "{date}") || contains(text, "{time}") {
                Ok(())
            } else {
                Err("template needs {date} or {time}".to_owned())
            }
        },
        Field::Fps => match parse_u64(text) {
            Some(n) => {
                if n > u32::MAX as u64 {
                    Err("fps must be a number".to_owned())
                } else if n >= 1 && n <= 120 {
                    Ok(())
                } else {
                    Err("fps must be 1-120".to_owned())
                }
            },
            None => Err("fps must be a number".to_owned()),
        },
        _ => Ok(()),
    }
}

impl Settings {
    /// The form over these settings.
    pub fn new(cfg: Config) -> (r: Settings)
        ensures
            r.cfg == cfg,
            r.editing is None && r.recording is None && r.open_dropdown is None && r.status is None,
    {
        Settings { cfg, editing: None, recording: None, open_dropdown: None, status: None }
    }

    /// The text of a field.
    pub fn field_text(&self, field: Field) -> (r: String)
        ensures
            r@ == text_of(self.cfg, field),
    {
        match field {
            Field::ScreenshotsDir => self.cfg.screenshots_dir.as_str().to_owned(),
            Field::RecordingsDir => self.cfg.recordings_dir.as_str().to_owned(),
            Field::Template => self.cfg.screenshot_template.as_str().to_owned(),
            Field::Fps => {
                let mut r: String = String::new();
                push_decimal(&mut r, self.cfg.recording_fps as u64);
                assert(r@ =~= decimal(self.cfg.recording_fps as nat));
                r
            },
            Field::CaptureHotkey => self.cfg.capture_hotkey.as_str().to_owned(),
            Field::RecordHotkey => self.cfg.record_hotkey.as_str().to_owned(),
            Field::CancelKeybind => self.cfg.cancel_keybind.as_str().to_owned(),
            Field::ConfirmKeybind => self.cfg.confirm_keybind.as_str().to_owned(),
        }
    }

    fn put(&mut self, field: Field, text: String)
        requires
            fault(field, text@) is None,
        ensures
            takes(old(self).cfg, final(self).cfg, field, text@),
            *final(self) == (Settings { cfg: final(self).cfg, ..*old(self) }),
    {
        match field {
            Field::ScreenshotsDir => {
                self.cfg.screenshots_dir = text;
            },
            Field::RecordingsDir => {
                self.cfg.recordings_dir = text;
            },
            Field::Template => {
                self.cfg.screenshot_template = text;
            },
            Field::Fps => {
                if let Some(n) = parse_u64(text.as_str()) {
                    self.cfg.recording_fps = n as u32;
                }
            },
            _ => {},
        }
    }

    /// Take what was typed into the settings, without the white space
    /// round it. Where it is not taken, the reason comes back and the
    /// field stays open.
    pub fn commit_edit(&mut self) -> (r: Result<(), String>)
        ensures
            match old(self).editing {
                None => r is Ok && *final(self) == *old(self),
                Some(e) => match fault(e.0, trimmed(e.1@)) {
                    None => {
                        &&& r is Ok
                        &&& takes(old(self).cfg, final(self).cfg, e.0, trimmed(e.1@))
                        &&& *final(self) == (Settings {
                            cfg: final(self).cfg,
                            editing: None,
                            ..*old(self)
                        })
                    },
                    Some(f) => r matches Err(t) && t@ == f && *final(self) == *old(self),
                },
            },
    {
        let (field, text): (Field, String) = match &self.editing {
            None => {
                return Ok(());
            },
            Some(e) => (e.0, trim(e.1.as_str())),
        };
        match check(field, text.as_str()) {
            Err(e) => Err(e),
            Ok(()) => {
                self.editing = None;
                self.put(field, text);
                Ok(())
            },
        }
    }

    /// Before the settings are stored: the list closes and what is typed
    /// is taken. Are they to be stored? If not, the status says why.
    pub fn ready_to_save(&mut self) -> (r: bool)
        ensures
            match old(self).editing {
                None => r && *final(self) == (Settings { open_dropdown: None, ..*old(self) }),
                Some(e) => match fault(e.0, trimmed(e.1@)) {
                    None => {
                        &&& r
                        &&& takes(old(self).cfg, final(self).cfg, e.0, trimmed(e.1@))
                        &&& *final(self) == (Settings {
                            cfg: final(self).cfg,
                            editing: None,
                            open_dropdown: None,
                            ..*old(self)
                        })
                    },
                    Some(f) => {
                        &&& !r
                        &&& final(self).status matches Some(t) && t@ == f
                        &&& *final(self) == (Settings {
                            status: final(self).status,
                            open_dropdown: None,
                            ..*old(self)
                        })
                    },
                },
            },
    {
        self.open_dropdown = None;
        match self.commit_edit() {
            Ok(()) => true,
            Err(e) => {
                self.status = Some(e);
                false
            },
        }
    }

    /// The settings were stored, or could not be. Are the hotkeys to be
    /// grabbed anew?
    pub fn saved(&mut self, result: Result<(), String>) -> (regrab: bool)
        ensures
            regrab == (result is Ok),
            final(self).status matches Some(t) && t@ == (match result {
                Ok(()) => "saved"@,
                Err(e) => e@,
            }),
            *final(self) == (Settings { status: final(self).status, ..*old(self) }),
    {
        match result {
            Ok(()) => {
                self.status = Some("saved".to_owned());
                true
            },
            Err(e) => {
                self.status = Some(e);
                false
            },
        }
    }

    /// Put the defaults in the form.
    pub fn reset_defaults_state(&mut self, defaults: Config)
        ensures
            final(self).cfg == defaults,
            final(self).editing is None && final(self).recording is None,
            final(self).open_dropdown is None,
            final(self).status matches Some(t) && t@ == "Defaults restored; Save to apply"@,
    {
        self.cfg = defaults;
        self.editing = None;
        self.recording = None;
        self.open_dropdown = None;
        self.status = Some("Defaults restored; Save to apply".to_owned());
    }

    /// A click on a typed field.
    pub fn start_edit(&mut self, field: Field)
        ensures
            final(self).editing matches Some(e) && e.0 == field && e.1@ == text_of(
                old(self).cfg,
                field,
            ),
            *final(self) == (Settings {
                editing: final(self).editing,
                recording: None,
                open_dropdown: None,
                ..*old(self)
            }),
    {
        let text = self.field_text(field);
        self.editing = Some((field, text));
        self.recording = None;
        self.open_dropdown = None;
    }

    /// A click on a field that is recorded.
    pub fn start_record(&mut self, field: Field)
        ensures
            *final(self) == (Settings {
                editing: None,
                recording: Some(field),
                open_dropdown: None,
                ..*old(self)
            }),
    {
        self.recording = Some(field);
        self.editing = None;
        self.open_dropdown = None;
    }

    /// A click on a list field.
    pub fn toggle_dropdown(&mut self, field: DropdownField)
        ensures
            *final(self) == (Settings {
                open_dropdown: if old(self).open_dropdown == Some(field) {
                    None
                } else {
                    Some(field)
                },
                editing: None,
                recording: None,
                ..*old(self)
            }),
    {
        let open = match self.open_dropdown {
            Some(f) => f == field,
            None => false,
        };
        self.open_dropdown = if open {
            None
        } else {
            Some(field)
        };
        self.editing = None;
        self.recording = None;
    }

    /// What a typed field shows, and whether it is being typed: with a bar
    /// after what was typed.
    pub fn row_text(&self, field: Field) -> (r: (String, bool))
        ensures
            match self.editing {
                Some(e) => if e.0 == field {
                    r.1 && r.0@ == e.1@.push('\u{258f}')
                } else {
                    !r.1 && r.0@ == text_of(self.cfg, field)
                },
                None => !r.1 && r.0@ == text_of(self.cfg, field),
            },
    {
        if let Some(e) = &self.editing {
            if e.0 == field {
                let mut t: String = e.1.as_str().to_owned();
                t.push('\u{258f}');
                return (t, true);
            }
        }
        (self.field_text(field), false)
    }

    /// What a recorded field shows, and whether it waits for a key.
    pub fn hotkey_text(&self, field: Field) -> (r: (String, bool))
        ensures
            r.1 == (self.recording == Some(field)),
            r.0@ == (if r.1 {
                "press keys\u{2026}"@
            } else {
                text_of(self.cfg, field)
            }),
    {
        let on = match self.recording {
            Some(f) => f == field,
            None => false,
        };
        if on {
            ("press keys\u{2026}".to_owned(), true)
        } else {
            (self.field_text(field), false)
        }
    }
}

/// Is this switch on?
pub open spec fn switched(cfg: Config, s: Switch) -> bool {
    match s {
        Switch::Flash => cfg.flash_on_capture,
        Switch::Sound => cfg.sound_on_capture,
        Switch::Toast => cfg.show_toast_after_capture,
        Switch::Clipboard => cfg.copy_to_clipboard,
        Switch::Drag => cfg.toast_drag_enabled,
        Switch::Actions => cfg.toast_show_actions,
        Switch::Mic => cfg.record_mic_default,
    }
}

/// The settings with this switch the other way.
pub open spec fn flipped(cfg: Config, s: Switch) -> Config {
    match s {
        Switch::Flash => Config { flash_on_capture: !cfg.flash_on_capture, ..cfg },
        Switch::Sound => Config { sound_on_capture: !cfg.sound_on_capture, ..cfg },
        Switch::Toast => Config {
            show_toast_after_capture: !cfg.show_toast_after_capture,
            ..cfg
        },
        Switch::Clipboard => Config { copy_to_clipboard: !cfg.copy_to_clipboard, ..cfg },
        Switch::Drag => Config { toast_drag_enabled: !cfg.toast_drag_enabled, ..cfg },
        Switch::Actions => Config { toast_show_actions: !cfg.toast_show_actions, ..cfg },
        Switch::Mic => Config { record_mic_default: !cfg.record_mic_default, ..cfg },
    }
}

/// A switch flipped twice is where it was, and no other switch moves.
pub proof fn law_switch(cfg: Config, s: Switch, other: Switch)
    ensures
        flipped(flipped(cfg, s), s) == cfg,
        switched(flipped(cfg, s), s) == !switched(cfg, s),
        other != s ==> switched(flipped(cfg, s), other) == switched(cfg, other),
{
}

impl Settings {
    /// Is this switch on?
    pub fn is_on(&self, s: Switch) -> (r: bool)
        ensures
            r == switched(self.cfg, s),
    {
        match s {
            Switch::Flash => self.cfg.flash_on_capture,
            Switch::Sound => self.cfg.sound_on_capture,
            Switch::Toast => self.cfg.show_toast_after_capture,
            Switch::Clipboard => self.cfg.copy_to_clipboard,
            Switch::Drag => self.cfg.toast_drag_enabled,
            Switch::Actions => self.cfg.toast_show_actions,
            Switch::Mic => self.cfg.record_mic_default,
        }
    }

    /// A click on a switch.
    pub fn flip(&mut self, s: Switch)
        ensures
            final(self).cfg.copy_to_clipboard == (old(self).cfg.copy_to_clipboard != (s is Clipboard)),
            final(self).cfg.show_toast_after_capture == (old(self).cfg.show_toast_after_capture != (
            s is Toast)),
            final(self).cfg.flash_on_capture == (old(self).cfg.flash_on_capture != (s is Flash)),
            final(self).cfg.sound_on_capture == (old(self).cfg.sound_on_capture != (s is Sound)),
            final(self).cfg.toast_drag_enabled == (old(self).cfg.toast_drag_enabled != (s is Drag)),
            final(self).cfg.toast_show_actions == (old(self).cfg.toast_show_actions != (
            s is Actions)),
            final(self).cfg.record_mic_default == (old(self).cfg.record_mic_default != (s is Mic)),
            *final(self) == (Settings {
                cfg: flipped(old(self).cfg, s),
                open_dropdown: None,
                ..*old(self)
            }),
    {
        match s {
            Switch::Flash => {
                self.cfg.flash_on_capture = !self.cfg.flash_on_capture;
            },
            Switch::Sound => {
                self.cfg.sound_on_capture = !self.cfg.sound_on_capture;
            },
            Switch::Toast => {
                self.cfg.show_toast_after_capture = !self.cfg.show_toast_after_capture;
            },
            Switch::Clipboard => {
                self.cfg.copy_to_clipboard = !self.cfg.copy_to_clipboard;
            },
            Switch::Drag => {
                self.cfg.toast_drag_enabled = !self.cfg.toast_drag_enabled;
            },
            Switch::Actions => {
                self.cfg.toast_show_actions = !self.cfg.toast_show_actions;
            },
            Switch::Mic => {
                self.cfg.record_mic_default = !self.cfg.record_mic_default;
            },
        }
        self.open_dropdown = None;
    }
}

/// A switch is the setting of its own name: it shows that setting, turning
/// it turns that setting over, and no other setting changes.
pub proof fn law_switch_names(cfg: Config, s: Switch)
    ensures
        ({
            let after = flipped(cfg, s);
            &&& after.flash_on_capture == (cfg.flash_on_capture != (s is Flash))
            &&& after.sound_on_capture == (cfg.sound_on_capture != (s is Sound))
            &&& after.show_toast_after_capture == (cfg.show_toast_after_capture != (s is Toast))
            &&& after.copy_to_clipboard == (cfg.copy_to_clipboard != (s is Clipboard))
            &&& after.toast_drag_enabled == (cfg.toast_drag_enabled != (s is Drag))
            &&& after.toast_show_actions == (cfg.toast_show_actions != (s is Actions))
            &&& after.record_mic_default == (cfg.record_mic_default != (s is Mic))
            &&& after == (Config {
                flash_on_capture: after.flash_on_capture,
                sound_on_capture: after.sound_on_capture,
                show_toast_after_capture: after.show_toast_after_capture,
                copy_to_clipboard: after.copy_to_clipboard,
                toast_drag_enabled: after.toast_drag_enabled,
                toast_show_actions: after.toast_show_actions,
                record_mic_default: after.record_mic_default,
                ..cfg
            })
        }),
        s is Flash ==> switched(cfg, s) == cfg.flash_on_capture,
        s is Sound ==> switched(cfg, s) == cfg.sound_on_capture,
        s is Toast ==> switched(cfg, s) == cfg.show_toast_after_capture,
        s is Clipboard ==> switched(cfg, s) == cfg.copy_to_clipboard,
        s is Drag ==> switched(cfg, s) == cfg.toast_drag_enabled,
        s is Actions ==> switched(cfg, s) == cfg.toast_show_actions,
        s is Mic ==> switched(cfg, s) == cfg.record_mic_default,
{
}

/// A field that is typed is the setting of its own name: it shows what is
/// set, and what it takes is set there and nowhere else.
pub proof fn law_field_names(cfg: Config, after: Config, field: Field, text: Seq<char>)
    requires
        takes(cfg, after, field, text),
    ensures
        after.screenshots_dir@ == (if field is ScreenshotsDir {
            text
        } else {
            cfg.screenshots_dir@
        }),
        after.recordings_dir@ == (if field is RecordingsDir {
            text
        } else {
            cfg.recordings_dir@
        }),
        after.screenshot_template@ == (if field is Template {
            text
        } else {
            cfg.screenshot_template@
        }),
        after.recording_fps == (if field is Fps {
            number_of(text)->0 as u32
        } else {
            cfg.recording_fps
        }),
        after == (Config {
            screenshots_dir: after.screenshots_dir,
            recordings_dir: after.recordings_dir,
            screenshot_template: after.screenshot_template,
            recording_fps: after.recording_fps,
            ..cfg
        }),
        field is ScreenshotsDir ==> text_of(cfg, field) == cfg.screenshots_dir@,
        field is RecordingsDir ==> text_of(cfg, field) == cfg.recordings_dir@,
        field is Template ==> text_of(cfg, field) == cfg.screenshot_template@,
        field is Fps ==> number_of(text_of(cfg, field)) == Some(cfg.recording_fps as u64),
        field is CaptureHotkey ==> text_of(cfg, field) == cfg.capture_hotkey@,
        field is RecordHotkey ==> text_of(cfg, field) == cfg.record_hotkey@,
        field is CancelKeybind ==> text_of(cfg, field) == cfg.cancel_keybind@,
        field is ConfirmKeybind ==> text_of(cfg, field) == cfg.confirm_keybind@,
{
    crate::text::law_decimal_reads(cfg.recording_fps as u64);
}

/// What can be typed: a folder that is not empty, a template with the date
/// or the time, and between one and 120 frames a second.
pub proof fn law_faults(text: Seq<char>, n: u64)
    ensures
        fault(Field::ScreenshotsDir, text) is None == (text.len() > 0),
        fault(Field::RecordingsDir, text) is None == (text.len() > 0),
        fault(Field::Template, text) is None == (occurs(text, "{date}"@) || occurs(text, "{time}"@)),
        fault(Field::Fps, decimal(n as nat)) is None == (1 <= n <= 120),
        number_of(text) is None ==> fault(Field::Fps, text) is Some,
{
    crate::text::law_decimal_reads(n);
}

} // verus!
