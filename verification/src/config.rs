//! Choices the user makes in the settings.

use vstd::prelude::*;

verus! {

/// The screen corner of the toast.
#[derive(Clone, Copy, Debug, PartialEq, Eq, Structural)]
pub enum ToastPosition {
    BottomRight,
    BottomLeft,
    TopRight,
    TopLeft,
}

impl ToastPosition {
    pub open spec fn is_left(self) -> bool {
        self is BottomLeft || self is TopLeft
    }

    pub open spec fn is_top(self) -> bool {
        self is TopLeft || self is TopRight
    }

    pub fn left(self) -> (r: bool)
        ensures
            r == self.is_left(),
    {
        match self {
            ToastPosition::BottomLeft | ToastPosition::TopLeft => true,
            _ => false,
        }
    }

    pub fn top(self) -> (r: bool)
        ensures
            r == self.is_top(),
    {
        match self {
            ToastPosition::TopLeft | ToastPosition::TopRight => true,
            _ => false,
        }
    }
}

/// What a click on the toast does.
#[derive(Clone, Copy, Debug, PartialEq, Eq, Structural)]
pub enum ToastClickAction {
    Markup,
    Copy,
    OpenFolder,
    Nothing,
}

/// The kind of file a recording is written as.
#[derive(Clone, Copy, Debug, PartialEq, Eq, Structural)]
pub enum RecordingFormat {
    Mp4,
    Gif,
    Webm,
}

/// The encoder of MP4 recordings.
#[derive(Clone, Copy, Debug, PartialEq, Eq, Structural)]
pub enum RecordingEncoder {
    Auto,
    Libx264,
    Nvenc,
}

/// The settings.
pub struct Config {
    pub screenshots_dir: String,
    pub recordings_dir: String,
    pub screenshot_template: String,
    pub flash_on_capture: bool,
    pub sound_on_capture: bool,
    pub show_toast_after_capture: bool,
    pub copy_to_clipboard: bool,
    pub toast_click_action: ToastClickAction,
    pub toast_drag_enabled: bool,
    pub toast_show_actions: bool,
    pub toast_pin_enabled: bool,
    pub toast_duration_ms: u32,
    pub toast_position: ToastPosition,
    pub recording_fps: u32,
    pub record_mic_default: bool,
    pub recording_format: RecordingFormat,
    pub recording_encoder: RecordingEncoder,
    pub capture_hotkey: String,
    pub record_hotkey: String,
    pub cancel_keybind: String,
    pub confirm_keybind: String,
}

/// The corners that are not on the left are on the right, and those that
/// are not at the top at the bottom.
pub proof fn law_corners(p: ToastPosition)
    ensures
        p is BottomRight <==> !p.is_left() && !p.is_top(),
        p is BottomLeft <==> p.is_left() && !p.is_top(),
        p is TopRight <==> !p.is_left() && p.is_top(),
        p is TopLeft <==> p.is_left() && p.is_top(),
{
}

} // verus!
