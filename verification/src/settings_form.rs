//! The settings window's form: its sections and their rows.

use vstd::prelude::*;
use crate::settings::{DropdownField, Field, Switch};

verus! {

/// A row of the form.
#[derive(Clone, Copy, Debug, PartialEq, Eq, Structural)]
pub enum Row {
    /// A field that is typed.
    Text(Field),
    Toggle(Switch),
    List(DropdownField),
    /// A field that is recorded from a key.
    Hotkey(Field),
    Version,
    /// The check for updates.
    Updates,
}

/// A section: its title and its rows.
pub struct Section {
    pub title: &'static str,
    pub rows: Vec<Row>,
}

pub open spec fn storage_rows() -> Seq<Row> {
    seq![
        Row::Text(Field::ScreenshotsDir),
        Row::Text(Field::RecordingsDir),
        Row::Text(Field::Template),
    ]
}

pub open spec fn capture_rows() -> Seq<Row> {
    seq![
        Row::Toggle(Switch::Flash),
        Row::Toggle(Switch::Sound),
        Row::Toggle(Switch::Toast),
        Row::Toggle(Switch::Clipboard),
    ]
}

pub open spec fn toast_rows() -> Seq<Row> {
    seq![
        Row::List(DropdownField::ToastClickAction),
        Row::Toggle(Switch::Drag),
        Row::Toggle(Switch::Actions),
        Row::List(DropdownField::ToastDuration),
        Row::List(DropdownField::ToastPosition),
    ]
}

pub open spec fn recording_rows() -> Seq<Row> {
    seq![
        Row::Text(Field::Fps),
        Row::List(DropdownField::RecordingFormat),
        Row::List(DropdownField::RecordingEncoder),
        Row::Toggle(Switch::Mic),
    ]
}

pub open spec fn keyboard_rows() -> Seq<Row> {
    seq![
        Row::Hotkey(Field::CaptureHotkey),
        Row::Hotkey(Field::RecordHotkey),
        Row::Hotkey(Field::CancelKeybind),
        Row::Hotkey(Field::ConfirmKeybind),
    ]
}

pub open spec fn update_rows() -> Seq<Row> {
    seq![Row::Version, Row::Updates]
}

/// The form, from the top.
pub open spec fn form_of() -> Seq<(Seq<char>, Seq<Row>)> {
    seq![
        ("Storage"@, storage_rows()),
        ("Capture"@, capture_rows()),
        ("Toast"@, toast_rows()),
        ("Recording"@, recording_rows()),
        ("Keyboard"@, keyboard_rows()),
        ("Updates"@, update_rows()),
    ]
}

/// Titles and rows of a list of sections.
pub open spec fn sections_of(v: Seq<Section>) -> Seq<(Seq<char>, Seq<Row>)> {
    Seq::new(v.len(), |i: int| (v[i].title@, v[i].rows@))
}

/// The form, from the top.
pub fn form() -> (r: Vec<Section>)
    ensures
        sections_of(r@) == form_of(),
{
    let r: Vec<Section> = vec![
        Section {
            title: "Storage",
            rows: vec![
                Row::Text(Field::ScreenshotsDir),
                Row::Text(Field::RecordingsDir),
                Row::Text(Field::Template),
            ],
        },
        Section {
            title: "Capture",
            rows: vec![
                Row::Toggle(Switch::Flash),
                Row::Toggle(Switch::Sound),
                Row::Toggle(Switch::Toast),
                Row::Toggle(Switch::Clipboard),
            ],
        },
        Section {
            title: "Toast",
            rows: vec![
                Row::List(DropdownField::ToastClickAction),
                Row::Toggle(Switch::Drag),
                Row::Toggle(Switch::Actions),
                Row::List(DropdownField::ToastDuration),
                Row::List(DropdownField::ToastPosition),
            ],
        },
        Section {
            title: "Recording",
            rows: vec![
                Row::Text(Field::Fps),
                Row::List(DropdownField::RecordingFormat),
                Row::List(DropdownField::RecordingEncoder),
                Row::Toggle(Switch::Mic),
            ],
        },
        Section {
            title: "Keyboard",
            rows: vec![
                Row::Hotkey(Field::CaptureHotkey),
                Row::Hotkey(Field::RecordHotkey),
                Row::Hotkey(Field::CancelKeybind),
                Row::Hotkey(Field::ConfirmKeybind),
            ],
        },
        Section { title: "Updates", rows: vec![Row::Version, Row::Updates] },
    ];
    proof {
        assert(r@[0].rows@ =~= storage_rows());
        assert(r@[1].rows@ =~= capture_rows());
        assert(r@[2].rows@ =~= toast_rows());
        assert(r@[3].rows@ =~= recording_rows());
        assert(r@[4].rows@ =~= keyboard_rows());
        assert(r@[5].rows@ =~= update_rows());
        assert(sections_of(r@) =~= form_of());
    }
    r
}

pub open spec fn label_of(row: Row) -> Seq<char> {
    match row {
        Row::Text(f) | Row::Hotkey(f) => match f {
            Field::ScreenshotsDir => "Screenshots folder"@,
            Field::RecordingsDir => "Recordings folder"@,
            Field::Template => "Filename template"@,
            Field::Fps => "Recording fps"@,
            Field::CaptureHotkey => "Capture hotkey"@,
            Field::RecordHotkey => "Record hotkey"@,
            Field::CancelKeybind => "Cancel keybind"@,
            Field::ConfirmKeybind => "Confirm keybind"@,
        },
        Row::Toggle(s) => match s {
            Switch::Flash => "Flash on capture"@,
            Switch::Sound => "Shutter sound"@,
            Switch::Toast => "Show thumbnail after capture"@,
            Switch::Clipboard => "Copy to clipboard"@,
            Switch::Drag => "Drag to export"@,
            Switch::Actions => "Show action buttons"@,
            Switch::Mic => "Record microphone by default"@,
        },
        Row::List(d) => match d {
            DropdownField::ToastClickAction => "Click action"@,
            DropdownField::ToastDuration => "Duration"@,
            DropdownField::ToastPosition => "Position"@,
            DropdownField::RecordingFormat => "Format"@,
            DropdownField::RecordingEncoder => "MP4 encoder"@,
        },
        Row::Version => "Version"@,
        Row::Updates => "Latest release"@,
    }
}

/// What stands in front of a row.
pub fn row_label(row: Row) -> (r: &'static str)
    ensures
        r@ == label_of(row),
{
    match row {
        Row::Text(f) | Row::Hotkey(f) => match f {
            Field::ScreenshotsDir => "Screenshots folder",
            Field::RecordingsDir => "Recordings folder",
            Field::Template => "Filename template",
            Field::Fps => "Recording fps",
            Field::CaptureHotkey => "Capture hotkey",
            Field::RecordHotkey => "Record hotkey",
            Field::CancelKeybind => "Cancel keybind",
            Field::ConfirmKeybind => "Confirm keybind",
        },
        Row::Toggle(s) => match s {
            Switch::Flash => "Flash on capture",
            Switch::Sound => "Shutter sound",
            Switch::Toast => "Show thumbnail after capture",
            Switch::Clipboard => "Copy to clipboard",
            Switch::Drag => "Drag to export",
            Switch::Actions => "Show action buttons",
            Switch::Mic => "Record microphone by default",
        },
        Row::List(d) => match d {
            DropdownField::ToastClickAction => "Click action",
            DropdownField::ToastDuration => "Duration",
            DropdownField::ToastPosition => "Position",
            DropdownField::RecordingFormat => "Format",
            DropdownField::RecordingEncoder => "MP4 encoder",
        },
        Row::Version => "Version",
        Row::Updates => "Latest release",
    }
}

/// Does the form have this row?
pub open spec fn on_form(row: Row) -> bool {
    exists|i: int| 0 <= i < form_of().len() && #[trigger] form_of()[i].1.contains(row)
}

proof fn lemma_on_form(i: int, k: int)
    requires
        0 <= i < form_of().len(),
        0 <= k < form_of()[i].1.len(),
    ensures
        on_form(form_of()[i].1[k]),
{
    assert(form_of()[i].1.contains(form_of()[i].1[k]));
}

/// Every setting can be reached: each field is typed or recorded, each
/// switch and each list is on the form.
pub proof fn law_every_setting_on_form(f: Field, s: Switch, d: DropdownField)
    ensures
        on_form(Row::Text(f)) || on_form(Row::Hotkey(f)),
        on_form(Row::Toggle(s)),
        on_form(Row::List(d)),
{
    lemma_on_form(0, 0);
    lemma_on_form(0, 1);
    lemma_on_form(0, 2);
    lemma_on_form(1, 0);
    lemma_on_form(1, 1);
    lemma_on_form(1, 2);
    lemma_on_form(1, 3);
    lemma_on_form(2, 0);
    lemma_on_form(2, 1);
    lemma_on_form(2, 2);
    lemma_on_form(2, 3);
    lemma_on_form(2, 4);
    lemma_on_form(3, 0);
    lemma_on_form(3, 1);
    lemma_on_form(3, 2);
    lemma_on_form(3, 3);
    lemma_on_form(4, 0);
    lemma_on_form(4, 1);
    lemma_on_form(4, 2);
    lemma_on_form(4, 3);
}

/// Each switch's row is labelled for the setting that it turns over.
pub proof fn law_switch_labels(cfg: crate::config::Config, s: Switch)
    ensures
        ({
            let after = crate::settings::flipped(cfg, s);
            &&& after.copy_to_clipboard != cfg.copy_to_clipboard ==> label_of(Row::Toggle(s))
                == "Copy to clipboard"@
            &&& after.show_toast_after_capture != cfg.show_toast_after_capture ==> label_of(
                Row::Toggle(s),
            ) == "Show thumbnail after capture"@
            &&& after.flash_on_capture != cfg.flash_on_capture ==> label_of(Row::Toggle(s))
                == "Flash on capture"@
            &&& after.sound_on_capture != cfg.sound_on_capture ==> label_of(Row::Toggle(s))
                == "Shutter sound"@
            &&& after.toast_drag_enabled != cfg.toast_drag_enabled ==> label_of(Row::Toggle(s))
                == "Drag to export"@
            &&& after.toast_show_actions != cfg.toast_show_actions ==> label_of(Row::Toggle(s))
                == "Show action buttons"@
            &&& after.record_mic_default != cfg.record_mic_default ==> label_of(Row::Toggle(s))
                == "Record microphone by default"@
            &&& after != cfg
        }),
{
    crate::settings::law_switch_names(cfg, s);
}

/// Each field's row is labelled for the setting that it shows.
pub proof fn law_field_labels(f: Field, d: DropdownField)
    ensures
        f is ScreenshotsDir ==> label_of(Row::Text(f)) == "Screenshots folder"@,
        f is RecordingsDir ==> label_of(Row::Text(f)) == "Recordings folder"@,
        f is Template ==> label_of(Row::Text(f)) == "Filename template"@,
        f is Fps ==> label_of(Row::Text(f)) == "Recording fps"@,
        f is CaptureHotkey ==> label_of(Row::Hotkey(f)) == "Capture hotkey"@,
        f is RecordHotkey ==> label_of(Row::Hotkey(f)) == "Record hotkey"@,
        f is CancelKeybind ==> label_of(Row::Hotkey(f)) == "Cancel keybind"@,
        f is ConfirmKeybind ==> label_of(Row::Hotkey(f)) == "Confirm keybind"@,
        d is ToastClickAction ==> label_of(Row::List(d)) == "Click action"@,
        d is ToastDuration ==> label_of(Row::List(d)) == "Duration"@,
        d is ToastPosition ==> label_of(Row::List(d)) == "Position"@,
        d is RecordingFormat ==> label_of(Row::List(d)) == "Format"@,
        d is RecordingEncoder ==> label_of(Row::List(d)) == "MP4 encoder"@,
{
}

/// What stands under which title: the recording's own choices under
/// "Recording", those of the card under "Toast", and every hotkey under
/// "Keyboard", where nothing else is.
pub proof fn law_sections(i: int, k: int)
    requires
        0 <= i < form_of().len(),
        0 <= k < form_of()[i].1.len(),
    ensures
        ({
            let (title, row) = (form_of()[i].0, form_of()[i].1[k]);
            &&& row is Hotkey <==> i == 4
            &&& i == 4 ==> title == "Keyboard"@
            &&& row matches Row::Text(f) ==> title == if f is Fps {
                "Recording"@
            } else {
                "Storage"@
            }
            &&& row matches Row::Toggle(s) ==> title == if s is Mic {
                "Recording"@
            } else if s is Drag || s is Actions {
                "Toast"@
            } else {
                "Capture"@
            }
            &&& row matches Row::List(d) ==> title == if d is RecordingFormat || d is RecordingEncoder {
                "Recording"@
            } else {
                "Toast"@
            }
            &&& row is Version || row is Updates ==> title == "Updates"@
        }),
{
}

} // verus!
