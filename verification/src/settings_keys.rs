//! The settings window's lists and keys.

use vstd::prelude::*;
use crate::config::{
    Config,
    RecordingEncoder,
    RecordingFormat,
    ToastClickAction,
    ToastPosition,
};
use crate::settings::{fault, takes, DropdownField, Field, Settings};
use crate::text::{chars, collect, decimal, push_decimal, same, trimmed};

verus! {

/// The texts of a list of literals.
pub open spec fn strs(v: Seq<&'static str>) -> Seq<Seq<char>> {
    Seq::new(v.len(), |i: int| v[i]@)
}

/// The choices of a list field.
pub open spec fn options_of(f: DropdownField) -> Seq<Seq<char>> {
    match f {
        DropdownField::ToastClickAction => seq!["Markup"@, "Copy"@, "Open folder"@, "Nothing"@],
        DropdownField::ToastDuration => seq!["2s"@, "3s"@, "5s"@, "8s"@, "10s"@],
        DropdownField::ToastPosition => seq![
            "Bottom right"@,
            "Bottom left"@,
            "Top right"@,
            "Top left"@,
        ],
        DropdownField::RecordingFormat => seq!["MP4 (H.264)"@, "GIF"@, "WebM (VP9)"@],
        DropdownField::RecordingEncoder => seq!["Auto"@, "Software (x264)"@, "NVIDIA (NVENC)"@],
    }
}

/// The choices of a list field.
pub fn options(f: DropdownField) -> (r: Vec<&'static str>)
    ensures
        strs(r@) == options_of(f),
{
    let r: Vec<&'static str> = match f {
        DropdownField::ToastClickAction => vec!["Markup", "Copy", "Open folder", "Nothing"],
        DropdownField::ToastDuration => vec!["2s", "3s", "5s", "8s", "10s"],
        DropdownField::ToastPosition => {
            vec!["Bottom right", "Bottom left", "Top right", "Top left"]
        },
        DropdownField::RecordingFormat => vec!["MP4 (H.264)", "GIF", "WebM (VP9)"],
        DropdownField::RecordingEncoder => vec!["Auto", "Software (x264)", "NVIDIA (NVENC)"],
    };
    assert(strs(r@) =~= options_of(f));
    r
}

/// The place of the setting among a field's choices, if it is one.
pub open spec fn place_of(cfg: Config, f: DropdownField) -> Option<usize> {
    match f {
        DropdownField::ToastClickAction => Some(
            match cfg.toast_click_action {
                ToastClickAction::Markup => 0usize,
                ToastClickAction::Copy => 1,
                ToastClickAction::OpenFolder => 2,
                ToastClickAction::Nothing => 3,
            },
        ),
        DropdownField::ToastDuration => if cfg.toast_duration_ms == 2000 {
            Some(0usize)
        } else if cfg.toast_duration_ms == 3000 {
            Some(1)
        } else if cfg.toast_duration_ms == 5000 {
            Some(2)
        } else if cfg.toast_duration_ms == 8000 {
            Some(3)
        } else if cfg.toast_duration_ms == 10000 {
            Some(4)
        } else {
            None
        },
        DropdownField::ToastPosition => Some(
            match cfg.toast_position {
                ToastPosition::BottomRight => 0usize,
                ToastPosition::BottomLeft => 1,
                ToastPosition::TopRight => 2,
                ToastPosition::TopLeft => 3,
            },
        ),
        DropdownField::RecordingFormat => Some(
            match cfg.recording_format {
                RecordingFormat::Mp4 => 0usize,
                RecordingFormat::Gif => 1,
                RecordingFormat::Webm => 2,
            },
        ),
        DropdownField::RecordingEncoder => Some(
            match cfg.recording_encoder {
                RecordingEncoder::Auto => 0usize,
                RecordingEncoder::Libx264 => 1,
                RecordingEncoder::Nvenc => 2,
            },
        ),
    }
}

/// What a list field shows. A duration that is none of the choices shows
/// in seconds, or in milliseconds.
pub open spec fn current_of(cfg: Config, f: DropdownField) -> Seq<char> {
    match place_of(cfg, f) {
        Some(i) => options_of(f)[i as int],
        None => if cfg.toast_duration_ms % 1000 == 0 {
            decimal((cfg.toast_duration_ms / 1000) as nat) + "s"@
        } else {
            decimal(cfg.toast_duration_ms as nat) + "ms"@
        },
    }
}

/// The `i`th click action of the list.
pub open spec fn click_at(i: usize) -> ToastClickAction {
    if i == 0 {
        ToastClickAction::Markup
    } else if i == 1 {
        ToastClickAction::Copy
    } else if i == 2 {
        ToastClickAction::OpenFolder
    } else {
        ToastClickAction::Nothing
    }
}

fn nth_click(i: usize) -> (r: ToastClickAction)
    ensures
        r == click_at(i),
{
    match i {
        0 => ToastClickAction::Markup,
        1 => ToastClickAction::Copy,
        2 => ToastClickAction::OpenFolder,
        _ => ToastClickAction::Nothing,
    }
}

/// The `i`th duration of the list, in milliseconds.
pub open spec fn duration_at(i: usize) -> u32 {
    if i == 0 {
        2000
    } else if i == 1 {
        3000
    } else if i == 3 {
        8000
    } else if i == 4 {
        10000
    } else {
        5000
    }
}

fn nth_duration(i: usize) -> (r: u32)
    ensures
        r == duration_at(i),
{
    match i {
        0 => 2000,
        1 => 3000,
        3 => 8000,
        4 => 10000,
        _ => 5000,
    }
}

/// The `i`th corner of the list.
pub open spec fn position_at(i: usize) -> ToastPosition {
    if i == 0 {
        ToastPosition::BottomRight
    } else if i == 1 {
        ToastPosition::BottomLeft
    } else if i == 2 {
        ToastPosition::TopRight
    } else {
        ToastPosition::TopLeft
    }
}

fn nth_position(i: usize) -> (r: ToastPosition)
    ensures
        r == position_at(i),
{
    match i {
        0 => ToastPosition::BottomRight,
        1 => ToastPosition::BottomLeft,
        2 => ToastPosition::TopRight,
        _ => ToastPosition::TopLeft,
    }
}

/// The `i`th format of the list.
pub open spec fn format_at(i: usize) -> RecordingFormat {
    if i == 1 {
        RecordingFormat::Gif
    } else if i == 2 {
        RecordingFormat::Webm
    } else {
        RecordingFormat::Mp4
    }
}

fn nth_format(i: usize) -> (r: RecordingFormat)
    ensures
        r == format_at(i),
{
    match i {
        1 => RecordingFormat::Gif,
        2 => RecordingFormat::Webm,
        _ => RecordingFormat::Mp4,
    }
}

/// The `i`th encoder of the list.
pub open spec fn encoder_at(i: usize) -> RecordingEncoder {
    if i == 1 {
        RecordingEncoder::Libx264
    } else if i == 2 {
        RecordingEncoder::Nvenc
    } else {
        RecordingEncoder::Auto
    }
}

fn nth_encoder(i: usize) -> (r: RecordingEncoder)
    ensures
        r == encoder_at(i),
{
    match i {
        1 => RecordingEncoder::Libx264,
        2 => RecordingEncoder::Nvenc,
        _ => RecordingEncoder::Auto,
    }
}

/// The settings after the `i`th choice was taken.
pub open spec fn chosen(cfg: Config, f: DropdownField, i: usize) -> Config {
    match f {
        DropdownField::ToastClickAction => Config { toast_click_action: click_at(i), ..cfg },
        DropdownField::ToastDuration => Config { toast_duration_ms: duration_at(i), ..cfg },
        DropdownField::ToastPosition => Config { toast_position: position_at(i), ..cfg },
        DropdownField::RecordingFormat => Config { recording_format: format_at(i), ..cfg },
        DropdownField::RecordingEncoder => Config { recording_encoder: encoder_at(i), ..cfg },
    }
}

/// A choice that was taken is the one that is selected, and taking the
/// one that is selected changes nothing.
pub proof fn law_choice(cfg: Config, f: DropdownField, i: usize)
    requires
        i < options_of(f).len(),
    ensures
        place_of(chosen(cfg, f, i), f) == Some(i),
        current_of(chosen(cfg, f, i), f) == options_of(f)[i as int],
        place_of(cfg, f) matches Some(k) ==> chosen(cfg, f, k) == cfg && k < options_of(f).len(),
{
}

/// The duration, as it shows where it is none of the choices.
fn duration_text(ms: u32) -> (r: String)
    ensures
        r@ == (if ms % 1000 == 0 {
            decimal((ms / 1000) as nat) + "s"@
        } else {
            decimal(ms as nat) + "ms"@
        }),
{
    let mut r: String = String::new();
    if ms % 1000 == 0 {
        push_decimal(&mut r, (ms / 1000) as u64);
        r.append("s");
        assert(r@ =~= decimal((ms / 1000) as nat) + "s"@);
    } else {
        push_decimal(&mut r, ms as u64);
        r.append("ms");
        assert(r@ =~= decimal(ms as nat) + "ms"@);
    }
    r
}

impl Settings {
    /// The place of the setting among a field's choices, if it is one.
    pub fn selected(&self, f: DropdownField) -> (r: Option<usize>)
        ensures
            r == place_of(self.cfg, f),
            r matches Some(i) ==> i < options_of(f).len(),
    {
        match f {
            DropdownField::ToastClickAction => Some(
                match self.cfg.toast_click_action {
                    ToastClickAction::Markup => 0,
                    ToastClickAction::Copy => 1,
                    ToastClickAction::OpenFolder => 2,
                    ToastClickAction::Nothing => 3,
                },
            ),
            DropdownField::ToastDuration => match self.cfg.toast_duration_ms {
                2000 => Some(0),
                3000 => Some(1),
                5000 => Some(2),
                8000 => Some(3),
                10000 => Some(4),
                _ => None,
            },
            DropdownField::ToastPosition => Some(
                match self.cfg.toast_position {
                    ToastPosition::BottomRight => 0,
                    ToastPosition::BottomLeft => 1,
                    ToastPosition::TopRight => 2,
                    ToastPosition::TopLeft => 3,
                },
            ),
            DropdownField::RecordingFormat => Some(
                match self.cfg.recording_format {
                    RecordingFormat::Mp4 => 0,
                    RecordingFormat::Gif => 1,
                    RecordingFormat::Webm => 2,
                },
            ),
            DropdownField::RecordingEncoder => Some(
                match self.cfg.recording_encoder {
                    RecordingEncoder::Auto => 0,
                    RecordingEncoder::Libx264 => 1,
                    RecordingEncoder::Nvenc => 2,
                },
            ),
        }
    }

    /// What a list field shows.
    pub fn current(&self, f: DropdownField) -> (r: String)
        ensures
            r@ == current_of(self.cfg, f),
    {
        match self.selected(f) {
            Some(i) => {
                let all = options(f);
                assert(strs(all@).len() == all@.len());
                assert(strs(all@)[i as int] == all@[i as int]@);
                all[i].to_owned()
            },
            None => duration_text(self.cfg.toast_duration_ms),
        }
    }

    /// A row of a list: a mark before the selected one.
    pub fn option_row(&self, f: DropdownField, i: usize) -> (r: String)
        requires
            i < options_of(f).len(),
        ensures
            r@ == (if place_of(self.cfg, f) == Some(i) {
                "\u{2713} "@
            } else {
                "   "@
            }) + options_of(f)[i as int],
    {
        let all = options(f);
        assert(strs(all@)[i as int] == all@[i as int]@);
        let on = match self.selected(f) {
            Some(k) => k == i,
            None => false,
        };
        if on {
            "\u{2713} ".to_owned().concat(all[i])
        } else {
            "   ".to_owned().concat(all[i])
        }
    }

    /// A row of a list was clicked.
    pub fn choose_option(&mut self, f: DropdownField, i: usize)
        ensures
            *final(self) == (Settings {
                cfg: chosen(old(self).cfg, f, i),
                open_dropdown: None,
                ..*old(self)
            }),
    {
        match f {
            DropdownField::ToastClickAction => {
                self.cfg.toast_click_action = nth_click(i);
            },
            DropdownField::ToastDuration => {
                self.cfg.toast_duration_ms = nth_duration(i);
            },
            DropdownField::ToastPosition => {
                self.cfg.toast_position = nth_position(i);
            },
            DropdownField::RecordingFormat => {
                self.cfg.recording_format = nth_format(i);
            },
            DropdownField::RecordingEncoder => {
                self.cfg.recording_encoder = nth_encoder(i);
            },
        }
        self.open_dropdown = None;
    }
}

/// A key with its modifiers, and the text it types.
pub struct Keystroke {
    pub key: String,
    pub control: bool,
    pub alt: bool,
    pub shift: bool,
    pub platform: bool,
    pub key_char: Option<String>,
}

/// The upper case of a character, as the characters that
/// `char::to_uppercase` gives.
pub uninterp spec fn uppercased(c: char) -> Seq<char>;

/// `char::to_uppercase`: the upper case of a character, which can be more
/// than one. An ASCII letter's is the ASCII capital; another ASCII
/// character has none and stays.
#[verifier::external_body]
fn upper(c: char) -> (r: String)
    ensures
        r@ == uppercased(c),
        'a' <= c && c <= 'z' ==> r@ == seq![(c as u32 - 32) as char],
        (c as u32) < 128 && !('a' <= c && c <= 'z') ==> r@ == seq![c],
{
    c.to_uppercase().collect::<String>()
}

/// Is this key a modifier by itself?
pub open spec fn bare_modifier(key: Seq<char>) -> bool {
    key == "control"@ || key == "shift"@ || key == "alt"@ || key == "super"@ || key == "meta"@
}

/// The name of a key, whose first character has this upper case.
pub open spec fn key_name(key: Seq<char>, first: Seq<char>) -> Seq<char> {
    if key == " "@ {
        "Space"@
    } else if key == "escape"@ {
        "Escape"@
    } else if key == "enter"@ {
        "Enter"@
    } else if key == "print"@ || key == "printscreen"@ {
        "Print"@
    } else {
        first + key.skip(1)
    }
}

/// The modifiers in front of a key's name.
pub open spec fn modifiers(k: Keystroke) -> Seq<char> {
    (if k.control {
        "Ctrl+"@
    } else {
        ""@
    }) + (if k.alt {
        "Alt+"@
    } else {
        ""@
    }) + (if k.shift {
        "Shift+"@
    } else {
        ""@
    }) + (if k.platform && !k.control {
        "Super+"@
    } else {
        ""@
    })
}

/// A hotkey as the settings store it, given the upper case of the key's
/// first character. A modifier alone is none.
pub open spec fn hotkey_of(k: Keystroke, first: Seq<char>) -> Option<Seq<char>> {
    if bare_modifier(k.key@) || k.key@.len() == 0 {
        None
    } else {
        Some(modifiers(k) + key_name(k.key@, first))
    }
}

/// The capital of an ASCII letter; another character stays.
pub open spec fn capital(c: char) -> char {
    if 'a' <= c && c <= 'z' {
        (c as u32 - 32) as char
    } else {
        c
    }
}

/// A key with an ASCII name.
pub open spec fn plain_key(k: Keystroke) -> bool {
    k.key@.len() > 0 && (k.key@[0] as u32) < 128
}

/// The hotkey of a key with an ASCII name: "Ctrl+Shift+R" of control,
/// shift and "r".
pub open spec fn plain_hotkey(k: Keystroke) -> Option<Seq<char>> {
    hotkey_of(k, seq![capital(k.key@[0])])
}

/// The hotkey of a pressed key.
pub open spec fn pressed(k: Keystroke) -> Option<Seq<char>> {
    hotkey_of(k, uppercased(k.key@[0]))
}

/// A hotkey as the settings store it: "Ctrl+Shift+R", "Print", "Escape".
/// `first` is the upper case of the key's first character.
pub fn name_hotkey(k: &Keystroke, first: &str) -> (r: Option<String>)
    ensures
        match hotkey_of(*k, first@) {
            Some(t) => r matches Some(s) && s@ == t,
            None => r is None,
        },
{
    let key: &str = k.key.as_str();
    if same(key, "control") || same(key, "shift") || same(key, "alt") || same(key, "super") || same(
        key,
        "meta",
    ) {
        return None;
    }
    let n: usize = key.unicode_len();
    if n == 0 {
        return None;
    }
    let mut r: String = String::new();
    proof {
        reveal_strlit("");
    }
    if k.control {
        r.append("Ctrl+");
    }
    if k.alt {
        r.append("Alt+");
    }
    if k.shift {
        r.append("Shift+");
    }
    if k.platform && !k.control {
        r.append("Super+");
    }
    assert(r@ =~= modifiers(*k));
    if same(key, " ") {
        r.append("Space");
    } else if same(key, "escape") {
        r.append("Escape");
    } else if same(key, "enter") {
        r.append("Enter");
    } else if same(key, "print") || same(key, "printscreen") {
        r.append("Print");
    } else {
        r.append(first);
        r.append(key.substring_char(1, n));
        assert(key@.subrange(1, n as int) =~= key@.skip(1));
        assert(r@ =~= modifiers(*k) + (first@ + key@.skip(1)));
    }
    Some(r)
}

impl Settings {
    /// A pressed key the way the settings store hotkeys.
    pub fn format_keystroke(k: &Keystroke) -> (r: Option<String>)
        ensures
            match pressed(*k) {
                Some(t) => r matches Some(s) && s@ == t,
                None => r is None,
            },
            plain_key(*k) ==> pressed(*k) == plain_hotkey(*k),
    {
        let v = chars(k.key.as_str());
        if v.len() == 0 {
            return None;
        }
        let first = upper(v[0]);
        name_hotkey(k, first.as_str())
    }
}

/// What a key did.
#[derive(Clone, Copy, Debug, PartialEq, Eq, Structural)]
pub enum KeyDone {
    Nothing,
    Changed,
    /// The window is to close.
    Close,
}

/// The settings after a hotkey was recorded for a field.
pub open spec fn records(cfg: Config, after: Config, field: Field, hotkey: Seq<char>) -> bool {
    match field {
        Field::CaptureHotkey => after.capture_hotkey@ == hotkey && after == (Config {
            capture_hotkey: after.capture_hotkey,
            ..cfg
        }),
        Field::RecordHotkey => after.record_hotkey@ == hotkey && after == (Config {
            record_hotkey: after.record_hotkey,
            ..cfg
        }),
        Field::CancelKeybind => after.cancel_keybind@ == hotkey && after == (Config {
            cancel_keybind: after.cancel_keybind,
            ..cfg
        }),
        Field::ConfirmKeybind => after.confirm_keybind@ == hotkey && after == (Config {
            confirm_keybind: after.confirm_keybind,
            ..cfg
        }),
        _ => after == cfg,
    }
}

impl Settings {
    /// A key, while a field waits for one. Everything but a modifier
    /// alone is taken, escape too.
    fn record_key(&mut self, field: Field, hotkey: Option<String>)
        requires
            old(self).recording == Some(field),
        ensures
            match hotkey {
                Some(h) => records(old(self).cfg, final(self).cfg, field, h@) && *final(self) == (
                Settings { cfg: final(self).cfg, recording: None, ..*old(self) }),
                None => *final(self) == *old(self),
            },
    {
        if let Some(h) = hotkey {
            self.recording = None;
            match field {
                Field::CaptureHotkey => {
                    self.cfg.capture_hotkey = h;
                },
                Field::RecordHotkey => {
                    self.cfg.record_hotkey = h;
                },
                Field::CancelKeybind => {
                    self.cfg.cancel_keybind = h;
                },
                Field::ConfirmKeybind => {
                    self.cfg.confirm_keybind = h;
                },
                _ => {},
            }
        }
    }

    /// What was typed, after a key that types or deletes.
    pub open spec fn retyped(text: Seq<char>, k: Keystroke) -> Seq<char> {
        if k.key@ == "backspace"@ {
            if text.len() > 0 {
                text.drop_last()
            } else {
                text
            }
        } else if !k.control && !k.platform && k.key_char is Some {
            text + k.key_char->0@
        } else {
            text
        }
    }

    /// A key, while a field is typed that is neither escape nor enter.
    fn type_key(&mut self, k: &Keystroke)
        requires
            old(self).editing is Some,
        ensures
            final(self).editing matches Some(e) && e.0 == (old(self).editing->0).0 && e.1@
                == Settings::retyped((old(self).editing->0).1@, *k),
            *final(self) == (Settings { editing: final(self).editing, ..*old(self) }),
    {
        let next: Option<(Field, String)> = match &self.editing {
            Some(e) => {
                if same(k.key.as_str(), "backspace") {
                    let v = chars(e.1.as_str());
                    if v.len() > 0 {
                        let s = collect(&v, 0, v.len() - 1);
                        assert(s@ =~= v@.drop_last());
                        Some((e.0, s))
                    } else {
                        Some((e.0, e.1.as_str().to_owned()))
                    }
                } else {
                    let mut s: String = e.1.as_str().to_owned();
                    if !k.control && !k.platform {
                        if let Some(c) = &k.key_char {
                            s.append(c.as_str());
                        }
                    }
                    Some((e.0, s))
                }
            },
            None => None,
        };
        self.editing = next;
    }

    /// A key went down. A field that waits for a key takes it; escape
    /// closes the list, gives up what is typed, or closes the window;
    /// enter takes what is typed.
    pub fn on_key(&mut self, k: &Keystroke) -> (r: KeyDone)
        ensures
            match old(self).recording {
                Some(f) => r is Changed && (plain_key(*k) ==> pressed(*k) == plain_hotkey(*k))
                    && match pressed(*k) {
                    Some(h) => records(old(self).cfg, final(self).cfg, f, h) && *final(self) == (
                    Settings { cfg: final(self).cfg, recording: None, ..*old(self) }),
                    None => *final(self) == *old(self),
                },
                None => if old(self).open_dropdown is Some && k.key@ == "escape"@ {
                    r is Changed && *final(self) == (Settings { open_dropdown: None, ..*old(self) })
                } else {
                    match old(self).editing {
                        None => *final(self) == *old(self) && r == (if k.key@ == "escape"@ {
                            KeyDone::Close
                        } else {
                            KeyDone::Nothing
                        }),
                        Some(e) => if k.key@ == "escape"@ {
                            r is Changed && *final(self) == (Settings { editing: None, ..*old(self) })
                        } else if k.key@ == "enter"@ {
                            r is Changed && match fault(e.0, trimmed(e.1@)) {
                                None => {
                                    &&& takes(old(self).cfg, final(self).cfg, e.0, trimmed(e.1@))
                                    &&& *final(self) == (Settings {
                                        cfg: final(self).cfg,
                                        editing: None,
                                        ..*old(self)
                                    })
                                },
                                Some(t) => {
                                    &&& final(self).status matches Some(s) && s@ == t
                                    &&& *final(self) == (Settings {
                                        status: final(self).status,
                                        ..*old(self)
                                    })
                                },
                            }
                        } else {
                            &&& r is Changed
                            &&& final(self).editing matches Some(n) && n.0 == e.0 && n.1@
                                == Settings::retyped(e.1@, *k)
                            &&& *final(self) == (Settings {
                                editing: final(self).editing,
                                ..*old(self)
                            })
                        },
                    }
                },
            },
    {
        if let Some(f) = self.recording {
            let hotkey = Settings::format_keystroke(k);
            self.record_key(f, hotkey);
            return KeyDone::Changed;
        }
        let escape = same(k.key.as_str(), "escape");
        if self.open_dropdown.is_some() && escape {
            self.open_dropdown = None;
            return KeyDone::Changed;
        }
        if self.editing.is_none() {
            return if escape {
                KeyDone::Close
            } else {
                KeyDone::Nothing
            };
        }
        if escape {
            self.editing = None;
        } else if same(k.key.as_str(), "enter") {
            if let Err(e) = self.commit_edit() {
                self.status = Some(e);
            }
        } else {
            self.type_key(k);
        }
        KeyDone::Changed
    }

    /// A check for updates has begun.
    pub fn checking(&mut self)
        ensures
            final(self).status matches Some(t) && t@ == "checking\u{2026}"@,
            *final(self) == (Settings { status: final(self).status, ..*old(self) }),
    {
        self.status = Some("checking\u{2026}".to_owned());
    }

    /// A check for updates is done: the version that was found, if any.
    pub fn checked(&mut self, found: Result<Option<String>, String>)
        ensures
            final(self).status matches Some(t) && t@ == (match found {
                Ok(Some(v)) => "update available: "@ + v@,
                Ok(None) => "up to date"@,
                Err(e) => e@,
            }),
            *final(self) == (Settings { status: final(self).status, ..*old(self) }),
    {
        let t: String = match found {
            Ok(Some(v)) => "update available: ".to_owned().concat(v.as_str()),
            Ok(None) => "up to date".to_owned(),
            Err(e) => e,
        };
        self.status = Some(t);
    }
}

/// What a list shows is what is set: each choice by its name, and a
/// duration by its seconds.
pub proof fn law_choice_names(cfg: Config)
    ensures
        current_of(cfg, DropdownField::ToastClickAction) == (match cfg.toast_click_action {
            ToastClickAction::Markup => "Markup"@,
            ToastClickAction::Copy => "Copy"@,
            ToastClickAction::OpenFolder => "Open folder"@,
            ToastClickAction::Nothing => "Nothing"@,
        }),
        current_of(cfg, DropdownField::ToastPosition) == (match cfg.toast_position {
            ToastPosition::BottomRight => "Bottom right"@,
            ToastPosition::BottomLeft => "Bottom left"@,
            ToastPosition::TopRight => "Top right"@,
            ToastPosition::TopLeft => "Top left"@,
        }),
        current_of(cfg, DropdownField::RecordingFormat) == (match cfg.recording_format {
            RecordingFormat::Mp4 => "MP4 (H.264)"@,
            RecordingFormat::Gif => "GIF"@,
            RecordingFormat::Webm => "WebM (VP9)"@,
        }),
        current_of(cfg, DropdownField::RecordingEncoder) == (match cfg.recording_encoder {
            RecordingEncoder::Auto => "Auto"@,
            RecordingEncoder::Libx264 => "Software (x264)"@,
            RecordingEncoder::Nvenc => "NVIDIA (NVENC)"@,
        }),
        cfg.toast_duration_ms % 1000 == 0 ==> current_of(cfg, DropdownField::ToastDuration)
            == decimal((cfg.toast_duration_ms / 1000) as nat) + "s"@,
        cfg.toast_duration_ms % 1000 != 0 ==> current_of(cfg, DropdownField::ToastDuration)
            == decimal(cfg.toast_duration_ms as nat) + "ms"@,
{
    reveal_with_fuel(decimal, 3);
    reveal_strlit("s");
    reveal_strlit("2s");
    reveal_strlit("3s");
    reveal_strlit("5s");
    reveal_strlit("8s");
    reveal_strlit("10s");
    assert(decimal(2) + "s"@ =~= "2s"@);
    assert(decimal(3) + "s"@ =~= "3s"@);
    assert(decimal(5) + "s"@ =~= "5s"@);
    assert(decimal(8) + "s"@ =~= "8s"@);
    assert(decimal(10) + "s"@ =~= "10s"@);
}

/// Choosing from a list changes the setting of that list and no other.
pub proof fn law_choice_sets(cfg: Config, f: DropdownField, i: usize)
    ensures
        ({
            let after = chosen(cfg, f, i);
            &&& !(f is ToastClickAction) ==> after.toast_click_action == cfg.toast_click_action
            &&& !(f is ToastDuration) ==> after.toast_duration_ms == cfg.toast_duration_ms
            &&& !(f is ToastPosition) ==> after.toast_position == cfg.toast_position
            &&& !(f is RecordingFormat) ==> after.recording_format == cfg.recording_format
            &&& !(f is RecordingEncoder) ==> after.recording_encoder == cfg.recording_encoder
            &&& after == (Config {
                toast_click_action: after.toast_click_action,
                toast_duration_ms: after.toast_duration_ms,
                toast_position: after.toast_position,
                recording_format: after.recording_format,
                recording_encoder: after.recording_encoder,
                ..cfg
            })
        }),
{
}

/// The modifiers are named in one order, each where it is held: control,
/// alt, shift, and the platform's key where control is not held.
pub proof fn law_modifiers(k: Keystroke)
    ensures
        k.control ==> modifiers(k) == "Ctrl+"@ + modifiers(
            Keystroke { control: false, platform: false, ..k },
        ),
        !k.control && k.alt ==> modifiers(k) == "Alt+"@ + modifiers(Keystroke { alt: false, ..k }),
        !k.control && !k.alt && k.shift ==> modifiers(k) == "Shift+"@ + modifiers(
            Keystroke { shift: false, ..k },
        ),
        !k.control && !k.alt && !k.shift && k.platform ==> modifiers(k) == "Super+"@,
        !k.control && !k.alt && !k.shift && !k.platform ==> modifiers(k).len() == 0,
{
    reveal_strlit("");
    assert(k.control ==> modifiers(k) =~= "Ctrl+"@ + modifiers(
        Keystroke { control: false, platform: false, ..k },
    ));
    assert(!k.control && k.alt ==> modifiers(k) =~= "Alt+"@ + modifiers(
        Keystroke { alt: false, ..k },
    ));
    assert(!k.control && !k.alt && k.shift ==> modifiers(k) =~= "Shift+"@ + modifiers(
        Keystroke { shift: false, ..k },
    ));
    assert(!k.control && !k.alt && !k.shift && k.platform ==> modifiers(k) =~= "Super+"@);
}

/// A key that is recorded is the setting of the field's own name, and no
/// other setting changes.
pub proof fn law_recorded_names(cfg: Config, after: Config, field: Field, hotkey: Seq<char>)
    requires
        records(cfg, after, field, hotkey),
    ensures
        after.capture_hotkey@ == (if field is CaptureHotkey {
            hotkey
        } else {
            cfg.capture_hotkey@
        }),
        after.record_hotkey@ == (if field is RecordHotkey {
            hotkey
        } else {
            cfg.record_hotkey@
        }),
        after.cancel_keybind@ == (if field is CancelKeybind {
            hotkey
        } else {
            cfg.cancel_keybind@
        }),
        after.confirm_keybind@ == (if field is ConfirmKeybind {
            hotkey
        } else {
            cfg.confirm_keybind@
        }),
        after == (Config {
            capture_hotkey: after.capture_hotkey,
            record_hotkey: after.record_hotkey,
            cancel_keybind: after.cancel_keybind,
            confirm_keybind: after.confirm_keybind,
            ..cfg
        }),
{
}

/// Typing puts what the key writes behind the text, and backspace takes
/// the last character away; with control or the platform's key held, no
/// other key changes it.
pub proof fn law_typed(text: Seq<char>, k: Keystroke)
    ensures
        k.key@ == "backspace"@ && text.len() > 0 ==> Settings::retyped(text, k) == text.take(
            text.len() - 1,
        ),
        k.key@ == "backspace"@ && text.len() == 0 ==> Settings::retyped(text, k) == text,
        k.key@ != "backspace"@ && !k.control && !k.platform && k.key_char is Some
            ==> Settings::retyped(text, k) == text + k.key_char->0@,
        k.key@ != "backspace"@ && (k.control || k.platform || k.key_char is None)
            ==> Settings::retyped(text, k) == text,
{
    if text.len() > 0 {
        assert(text.drop_last() =~= text.take(text.len() - 1));
    }
}

/// A modifier alone is no key; every other key has a name behind its
/// modifiers, which for a letter is the capital.
pub proof fn law_hotkey(k: Keystroke, first: Seq<char>)
    ensures
        k.key@ == "control"@ || k.key@ == "shift"@ || k.key@ == "alt"@ ==> hotkey_of(k, first) is None,
        k.key@.len() == 1 && 'a' <= k.key@[0] && k.key@[0] <= 'z' ==> {
            &&& plain_hotkey(k) matches Some(t)
            &&& t.len() > 0 && t.last() as u32 + 32 == k.key@[0] as u32
            &&& t.drop_last() == modifiers(k)
        },
{
    reveal_strlit("control");
    reveal_strlit("shift");
    reveal_strlit("alt");
    reveal_strlit("super");
    reveal_strlit("meta");
    reveal_strlit(" ");
    reveal_strlit("escape");
    reveal_strlit("enter");
    reveal_strlit("print");
    reveal_strlit("printscreen");
    if k.key@.len() == 1 && 'a' <= k.key@[0] && k.key@[0] <= 'z' {
        let c = seq![capital(k.key@[0])];
        assert(" "@[0] == ' ');
        assert(key_name(k.key@, c) =~= c);
        let t = modifiers(k) + c;
        assert(t.drop_last() =~= modifiers(k));
    }
}

} // verus!
