//! The commands the daemon runs.

use vstd::prelude::*;

verus! {

/// One command line, forwarded to or invoked on the daemon.
#[derive(Debug, Clone)]
pub enum Command {
    Home,
    Capture,
    CaptureFullscreen,
    CaptureWindow,
    /// Capture every display after this many seconds.
    Delayed(u64),
    Library,
    Settings,
    Annotate(String),
    Toast(String),
    RecordToggle,
    /// Stop the active recording.
    RecordStop,
    /// Open the overlay to pick the region of a recording.
    RecordRegionPick,
    /// The overlay committed a rectangle: record it.
    RecordRegion { x: i32, y: i32, w: i32, h: i32 },
    RecordPause,
    RecordMic,
    /// A recording's source returned.
    RecordingEnded,
    /// The capture store changed in this process.
    LibraryChanged,
    /// A thread with no window of its own failed at `what`.
    Failed { what: String, err: String },
    Quit,
}

/// A command, with its texts as sequences.
pub enum Order {
    Home,
    Capture,
    CaptureFullscreen,
    CaptureWindow,
    Delayed(u64),
    Library,
    Settings,
    Annotate(Seq<char>),
    Toast(Seq<char>),
    RecordToggle,
    RecordStop,
    RecordRegionPick,
    RecordRegion { x: i32, y: i32, w: i32, h: i32 },
    RecordPause,
    RecordMic,
    RecordingEnded,
    LibraryChanged,
    Failed { what: Seq<char>, err: Seq<char> },
    Quit,
}

impl View for Command {
    type V = Order;

    open spec fn view(&self) -> Order {
        match *self {
            Command::Home => Order::Home,
            Command::Capture => Order::Capture,
            Command::CaptureFullscreen => Order::CaptureFullscreen,
            Command::CaptureWindow => Order::CaptureWindow,
            Command::Delayed(secs) => Order::Delayed(secs),
            Command::Library => Order::Library,
            Command::Settings => Order::Settings,
            Command::Annotate(path) => Order::Annotate(path@),
            Command::Toast(path) => Order::Toast(path@),
            Command::RecordToggle => Order::RecordToggle,
            Command::RecordStop => Order::RecordStop,
            Command::RecordRegionPick => Order::RecordRegionPick,
            Command::RecordRegion { x, y, w, h } => Order::RecordRegion { x, y, w, h },
            Command::RecordPause => Order::RecordPause,
            Command::RecordMic => Order::RecordMic,
            Command::RecordingEnded => Order::RecordingEnded,
            Command::LibraryChanged => Order::LibraryChanged,
            Command::Failed { what, err } => Order::Failed { what: what@, err: err@ },
            Command::Quit => Order::Quit,
        }
    }
}

/// The commands of a list.
pub open spec fn orders(v: Seq<Command>) -> Seq<Order> {
    Seq::new(v.len(), |i: int| v[i]@)
}

/// The title of the notice when a command fails.
pub open spec fn title_of(o: Order) -> Seq<char> {
    match o {
        Order::Capture
        | Order::CaptureFullscreen
        | Order::CaptureWindow
        | Order::Delayed(_) => "Capture failed"@,
        Order::RecordToggle
        | Order::RecordRegionPick
        | Order::RecordRegion { .. }
        | Order::RecordingEnded => "Recording failed"@,
        Order::LibraryChanged => "Library did not refresh"@,
        Order::RecordStop => "Stop failed"@,
        Order::RecordPause => "Pause failed"@,
        Order::RecordMic => "Microphone toggle failed"@,
        Order::Home => "Home did not open"@,
        Order::Library => "Library did not open"@,
        Order::Settings => "Settings did not open"@,
        Order::Annotate(_) => "Editor did not open"@,
        Order::Toast(_) => "Toast did not open"@,
        Order::Failed { what, .. } => what,
        Order::Quit => "Quit failed"@,
    }
}

/// Does the command act on what only a running daemon holds?
pub open spec fn acts_on_live(o: Order) -> bool {
    o is Quit || o is RecordStop || o is RecordPause || o is RecordMic
}

impl Command {
    /// The title of the notice when this command fails.
    pub fn failure_title(&self) -> (r: String)
        ensures
            r@ == title_of(self@),
    {
        match self {
            Command::Capture
            | Command::CaptureFullscreen
            | Command::CaptureWindow
            | Command::Delayed(_) => "Capture failed".to_owned(),
            Command::RecordToggle
            | Command::RecordRegionPick
            | Command::RecordRegion { .. }
            | Command::RecordingEnded => "Recording failed".to_owned(),
            Command::LibraryChanged => "Library did not refresh".to_owned(),
            Command::RecordStop => "Stop failed".to_owned(),
            Command::RecordPause => "Pause failed".to_owned(),
            Command::RecordMic => "Microphone toggle failed".to_owned(),
            Command::Home => "Home did not open".to_owned(),
            Command::Library => "Library did not open".to_owned(),
            Command::Settings => "Settings did not open".to_owned(),
            Command::Annotate(_) => "Editor did not open".to_owned(),
            Command::Toast(_) => "Toast did not open".to_owned(),
            Command::Failed { what, .. } => what.clone(),
            Command::Quit => "Quit failed".to_owned(),
        }
    }

    /// Another command that is the same.
    pub fn copy(&self) -> (r: Command)
        ensures
            r@ == self@,
    {
        match self {
            Command::Home => Command::Home,
            Command::Capture => Command::Capture,
            Command::CaptureFullscreen => Command::CaptureFullscreen,
            Command::CaptureWindow => Command::CaptureWindow,
            Command::Delayed(secs) => Command::Delayed(*secs),
            Command::Library => Command::Library,
            Command::Settings => Command::Settings,
            Command::Annotate(path) => Command::Annotate(path.clone()),
            Command::Toast(path) => Command::Toast(path.clone()),
            Command::RecordToggle => Command::RecordToggle,
            Command::RecordStop => Command::RecordStop,
            Command::RecordRegionPick => Command::RecordRegionPick,
            Command::RecordRegion { x, y, w, h } => Command::RecordRegion {
                x: *x,
                y: *y,
                w: *w,
                h: *h,
            },
            Command::RecordPause => Command::RecordPause,
            Command::RecordMic => Command::RecordMic,
            Command::RecordingEnded => Command::RecordingEnded,
            Command::LibraryChanged => Command::LibraryChanged,
            Command::Failed { what, err } => Command::Failed {
                what: what.clone(),
                err: err.clone(),
            },
            Command::Quit => Command::Quit,
        }
    }
}

/// True when there are commands and every one acts on a running daemon's
/// live state: quit, stop, pause and the microphone toggle.
pub fn live_daemon_only(cmds: &Vec<Command>) -> (r: bool)
    ensures
        r == (cmds@.len() > 0 && forall|i: int|
            0 <= i < cmds@.len() ==> acts_on_live(#[trigger] cmds@[i]@)),
{
    if cmds.len() == 0 {
        return false;
    }
    let mut i: usize = 0;
    while i < cmds.len()
        invariant
            i <= cmds@.len(),
            forall|j: int| 0 <= j < i ==> acts_on_live(#[trigger] cmds@[j]@),
        decreases cmds@.len() - i,
    {
        match &cmds[i] {
            Command::Quit | Command::RecordStop | Command::RecordPause | Command::RecordMic => {},
            _ => {
                assert(!acts_on_live(cmds@[i as int]@));
                return false;
            },
        }
        i = i + 1;
    }
    true
}

/// Only stopping, pausing, the microphone and quitting are for a daemon
/// that already runs; every other command starts one.
pub proof fn law_acts_on_live(o: Order)
    ensures
        o is Quit || o is RecordStop || o is RecordPause || o is RecordMic ==> acts_on_live(o),
        o is Capture || o is CaptureFullscreen || o is CaptureWindow || o is Delayed || o is Home
            || o is Library || o is Settings || o is Annotate || o is Toast || o is RecordToggle
            || o is RecordRegionPick || o is RecordRegion ==> !acts_on_live(o),
{
}

/// A command that fails is told under a title of its own.
pub proof fn law_failure_titles(o: Order)
    ensures
        o is Capture || o is CaptureFullscreen || o is CaptureWindow || o is Delayed ==> title_of(o)
            == "Capture failed"@,
        o is RecordToggle || o is RecordRegionPick || o is RecordRegion ==> title_of(o)
            == "Recording failed"@,
        o is Home ==> title_of(o) == "Home did not open"@,
        o is Library ==> title_of(o) == "Library did not open"@,
        o is Settings ==> title_of(o) == "Settings did not open"@,
        o is Annotate ==> title_of(o) == "Editor did not open"@,
        o is Toast ==> title_of(o) == "Toast did not open"@,
        o is RecordStop ==> title_of(o) == "Stop failed"@,
        o is RecordPause ==> title_of(o) == "Pause failed"@,
        o is RecordMic ==> title_of(o) == "Microphone toggle failed"@,
{
}

} // verus!
