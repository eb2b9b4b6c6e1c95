//! The daemon's decisions: what a launch does, what each command does to
//! the running program, and what its results are told as.

use vstd::prelude::*;
use crate::canvas::{pixels_in, Canvas};
use crate::cli::{Local, Parsed};
use crate::command::{acts_on_live, live_daemon_only, orders, title_of, Command, Order};
use crate::screen::WinRect;
use crate::text::{push_signed, signed, texts, lemma_texts_push};

verus! {

/// What a process does with its command line.
pub enum Launch {
    /// Nothing: it prints these lines and fails.
    Refuse(Vec<String>),
    /// It runs this itself.
    Local(Local),
    /// It becomes the daemon.
    Daemon,
    /// It hands the commands to a running daemon. With none running there
    /// is nothing to do where `quiet`, and else it fails.
    Deliver { quiet: bool },
    /// It hands the commands to a daemon, which it starts where none runs.
    Forward,
}

/// The lines printed for a mistyped command line.
pub open spec fn complaints(errors: Seq<Seq<char>>) -> Seq<Seq<char>> {
    Seq::new(errors.len(), |i: int| "iris: "@ + errors[i]).push(
        "iris: run 'iris --help' for the options"@,
    )
}

fn complain(errors: &Vec<String>) -> (r: Vec<String>)
    ensures
        texts(r@) == complaints(texts(errors@)),
{
    let ghost all = Seq::new(errors@.len(), |i: int| "iris: "@ + texts(errors@)[i]);
    let mut r: Vec<String> = Vec::new();
    let mut i: usize = 0;
    assert(texts(r@) =~= all.take(0));
    while i < errors.len()
        invariant
            i <= errors@.len(),
            all == Seq::new(errors@.len(), |k: int| "iris: "@ + texts(errors@)[k]),
            texts(r@) == all.take(i as int),
        decreases errors@.len() - i,
    {
        let line = "iris: ".to_owned().concat(errors[i].as_str());
        proof {
            lemma_texts_push(r@, line);
            assert(all.take(i + 1) =~= all.take(i as int).push(all[i as int]));
        }
        r.push(line);
        i = i + 1;
    }
    let last: String = "iris: run 'iris --help' for the options".to_owned();
    proof {
        lemma_texts_push(r@, last);
        assert(all.take(i as int) =~= all);
    }
    r.push(last);
    r
}

/// Is every command a quit?
pub open spec fn only_quits(cmds: Seq<Order>) -> bool {
    forall|i: int| 0 <= i < cmds.len() ==> #[trigger] cmds[i] is Quit
}

fn all_quit(cmds: &Vec<Command>) -> (r: bool)
    ensures
        r == only_quits(orders(cmds@)),
{
    let mut i: usize = 0;
    while i < cmds.len()
        invariant
            i <= cmds@.len(),
            forall|j: int| 0 <= j < i ==> #[trigger] orders(cmds@)[j] is Quit,
        decreases cmds@.len() - i,
    {
        match &cmds[i] {
            Command::Quit => {},
            _ => {
                assert(!(orders(cmds@)[i as int] is Quit));
                return false;
            },
        }
        i = i + 1;
    }
    true
}

/// Does every command, and there is one, act on a running daemon?
pub open spec fn all_live(cmds: Seq<Order>) -> bool {
    cmds.len() > 0 && forall|i: int| 0 <= i < cmds.len() ==> acts_on_live(#[trigger] cmds[i])
}

/// What to do with a command line. A mistyped one runs nothing, but for
/// the help.
pub fn launch(line: &Parsed) -> (r: Launch)
    ensures
        match r {
            Launch::Refuse(lines) => line.errors@.len() > 0 && !helps(line.local@) && texts(lines@)
                == complaints(texts(line.errors@)),
            Launch::Local(l) => (line.errors@.len() == 0 || helps(line.local@))
                && line.local@.contains(l) && forall|i: int|
                0 <= i < line.local@.len() ==> crate::cli::rank(l) <= crate::cli::rank(
                    #[trigger] line.local@[i],
                ),
            Launch::Daemon => line.errors@.len() == 0 && line.local@.len() == 0 && line.daemon,
            Launch::Deliver { quiet } => line.errors@.len() == 0 && line.local@.len() == 0
                && !line.daemon && all_live(orders(line.cmds@)) && quiet == only_quits(
                orders(line.cmds@),
            ),
            Launch::Forward => line.errors@.len() == 0 && line.local@.len() == 0 && !line.daemon
                && !all_live(orders(line.cmds@)),
        },
{
    let local = line.first_local();
    let help = match local {
        Some(l) => l == Local::Help,
        None => false,
    };
    proof {
        assert(help == helps(line.local@)) by {
            if helps(line.local@) {
                let i = choose|i: int| 0 <= i < line.local@.len() && line.local@[i] is Help;
                assert(crate::cli::rank(local->0) <= crate::cli::rank(line.local@[i]));
            }
        }
    }
    if line.errors.len() > 0 && !help {
        return Launch::Refuse(complain(&line.errors));
    }
    if let Some(l) = local {
        return Launch::Local(l);
    }
    if line.daemon {
        return Launch::Daemon;
    }
    proof {
        let o = orders(line.cmds@);
        assert(all_live(o) == (line.cmds@.len() > 0 && forall|i: int|
            0 <= i < line.cmds@.len() ==> acts_on_live(#[trigger] line.cmds@[i]@))) by {
            if all_live(o) {
                assert forall|i: int| 0 <= i < line.cmds@.len() implies acts_on_live(
                    #[trigger] line.cmds@[i]@,
                ) by {
                    assert(o[i] == line.cmds@[i]@);
                }
            }
        }
    }
    if live_daemon_only(&line.cmds) {
        Launch::Deliver { quiet: all_quit(&line.cmds) }
    } else {
        Launch::Forward
    }
}

/// Is help among the options?
pub open spec fn helps(local: Seq<Local>) -> bool {
    exists|i: int| 0 <= i < local.len() && #[trigger] local[i] is Help
}

/// How the delivery to a running daemon ended: None where all is well,
/// else what is printed before the process fails.
pub fn delivered(sent: bool, quiet: bool) -> (r: Option<String>)
    ensures
        match r {
            None => sent || quiet,
            Some(t) => !sent && !quiet && t@ == "iris: no iris daemon is running"@,
        },
{
    if sent || quiet {
        None
    } else {
        Some("iris: no iris daemon is running".to_owned())
    }
}

/// What the daemon knows when a command comes.
pub struct Live {
    /// There is a recording.
    pub recording: bool,
    /// Its source has returned.
    pub ended: bool,
    /// A recording can start, or why not.
    pub ready: Result<(), String>,
    /// A region can be recorded, or why not.
    pub region: Result<(), String>,
}

/// What a command makes the daemon do.
pub enum Step {
    Nothing,
    Home,
    CaptureRegion,
    CaptureFullscreen,
    CaptureWindow,
    /// Capture every display after this many seconds.
    Later(u64),
    Library,
    Settings,
    Annotate(String),
    Toast(String),
    StopRecording,
    StartRecording,
    PickRegion,
    StartRegion(WinRect),
    TogglePause,
    ToggleMic,
    RefreshLibrary,
    Notice { title: String, text: String },
    Quit,
}

/// A step with its texts as sequences.
pub enum Doing {
    Nothing,
    Home,
    CaptureRegion,
    CaptureFullscreen,
    CaptureWindow,
    Later(u64),
    Library,
    Settings,
    Annotate(Seq<char>),
    Toast(Seq<char>),
    StopRecording,
    StartRecording,
    PickRegion,
    StartRegion(WinRect),
    TogglePause,
    ToggleMic,
    RefreshLibrary,
    Notice { title: Seq<char>, text: Seq<char> },
    Quit,
}

impl View for Step {
    type V = Doing;

    open spec fn view(&self) -> Doing {
        match *self {
            Step::Nothing => Doing::Nothing,
            Step::Home => Doing::Home,
            Step::CaptureRegion => Doing::CaptureRegion,
            Step::CaptureFullscreen => Doing::CaptureFullscreen,
            Step::CaptureWindow => Doing::CaptureWindow,
            Step::Later(secs) => Doing::Later(secs),
            Step::Library => Doing::Library,
            Step::Settings => Doing::Settings,
            Step::Annotate(path) => Doing::Annotate(path@),
            Step::Toast(path) => Doing::Toast(path@),
            Step::StopRecording => Doing::StopRecording,
            Step::StartRecording => Doing::StartRecording,
            Step::PickRegion => Doing::PickRegion,
            Step::StartRegion(r) => Doing::StartRegion(r),
            Step::TogglePause => Doing::TogglePause,
            Step::ToggleMic => Doing::ToggleMic,
            Step::RefreshLibrary => Doing::RefreshLibrary,
            Step::Notice { title, text } => Doing::Notice { title: title@, text: text@ },
            Step::Quit => Doing::Quit,
        }
    }
}

/// A check's result with its text as a sequence.
pub open spec fn checked(r: Result<(), String>) -> Result<(), Seq<char>> {
    match r {
        Ok(()) => Ok(()),
        Err(e) => Err(e@),
    }
}

/// What a command does while there is, or is not, a recording.
pub open spec fn doing(o: Order, live: Live) -> Result<Doing, Seq<char>> {
    match o {
        Order::Home => Ok(Doing::Home),
        Order::Capture => Ok(Doing::CaptureRegion),
        Order::CaptureFullscreen => Ok(Doing::CaptureFullscreen),
        Order::CaptureWindow => Ok(Doing::CaptureWindow),
        Order::Delayed(secs) => Ok(Doing::Later(secs)),
        Order::Library => Ok(Doing::Library),
        Order::Settings => Ok(Doing::Settings),
        Order::Annotate(path) => Ok(Doing::Annotate(path)),
        Order::Toast(path) => Ok(Doing::Toast(path)),
        Order::RecordToggle => if live.recording {
            Ok(Doing::StopRecording)
        } else {
            match checked(live.ready) {
                Ok(()) => Ok(Doing::StartRecording),
                Err(e) => Err(e),
            }
        },
        Order::RecordRegionPick => match (checked(live.ready), checked(live.region)) {
            (Err(e), _) => Err(e),
            (_, Err(e)) => Err(e),
            _ => if live.recording {
                Err("a recording is already active"@)
            } else {
                Ok(Doing::PickRegion)
            },
        },
        Order::RecordRegion { x, y, w, h } => if live.recording {
            Err("a recording is already active"@)
        } else if w <= 0 || h <= 0 {
            Err("empty region "@ + signed(w as int) + "x"@ + signed(h as int))
        } else {
            Ok(Doing::StartRegion(WinRect { x, y, width: w as u32, height: h as u32 }))
        },
        Order::RecordStop => if live.recording {
            Ok(Doing::StopRecording)
        } else {
            Err("no recording is active"@)
        },
        Order::RecordPause => if live.recording {
            Ok(Doing::TogglePause)
        } else {
            Err("no recording is active"@)
        },
        Order::RecordMic => if live.recording {
            Ok(Doing::ToggleMic)
        } else {
            Err("no recording is active"@)
        },
        Order::RecordingEnded => if live.recording && live.ended {
            Ok(Doing::StopRecording)
        } else {
            Ok(Doing::Nothing)
        },
        Order::LibraryChanged => Ok(Doing::RefreshLibrary),
        Order::Failed { what, err } => Ok(Doing::Notice { title: what, text: err }),
        Order::Quit => Ok(Doing::Quit),
    }
}

/// A step or an error, with its texts as sequences.
pub open spec fn seen(r: Result<Step, String>) -> Result<Doing, Seq<char>> {
    match r {
        Ok(s) => Ok(s@),
        Err(e) => Err(e@),
    }
}

fn no_recording() -> (r: Result<Step, String>)
    ensures
        seen(r) == Err::<Doing, Seq<char>>("no recording is active"@),
{
    Err("no recording is active".to_owned())
}

fn already_recording() -> (r: Result<Step, String>)
    ensures
        seen(r) == Err::<Doing, Seq<char>>("a recording is already active"@),
{
    Err("a recording is already active".to_owned())
}

fn start_region(x: i32, y: i32, w: i32, h: i32, live: &Live) -> (r: Result<Step, String>)
    ensures
        seen(r) == doing(Order::RecordRegion { x, y, w, h }, *live),
{
    if live.recording {
        return already_recording();
    }
    if w <= 0 || h <= 0 {
        let mut e: String = "empty region ".to_owned();
        push_signed(&mut e, w as i64);
        e.append("x");
        push_signed(&mut e, h as i64);
        return Err(e);
    }
    Ok(Step::StartRegion(WinRect { x, y, width: w as u32, height: h as u32 }))
}

fn pick_region(live: &Live) -> (r: Result<Step, String>)
    ensures
        seen(r) == doing(Order::RecordRegionPick, *live),
{
    if let Err(e) = &live.ready {
        return Err(e.as_str().to_owned());
    }
    if let Err(e) = &live.region {
        return Err(e.as_str().to_owned());
    }
    if live.recording {
        already_recording()
    } else {
        Ok(Step::PickRegion)
    }
}

fn toggle_recording(live: &Live) -> (r: Result<Step, String>)
    ensures
        seen(r) == doing(Order::RecordToggle, *live),
{
    if live.recording {
        return Ok(Step::StopRecording);
    }
    match &live.ready {
        Ok(()) => Ok(Step::StartRecording),
        Err(e) => Err(e.as_str().to_owned()),
    }
}

/// What a command makes the daemon do, or why it fails.
pub fn dispatch(cmd: &Command, live: &Live) -> (r: Result<Step, String>)
    ensures
        seen(r) == doing(cmd@, *live),
        *cmd is Home ==> r == Ok::<Step, String>(Step::Home),
        *cmd is Capture ==> r == Ok::<Step, String>(Step::CaptureRegion),
        *cmd is CaptureFullscreen ==> r == Ok::<Step, String>(Step::CaptureFullscreen),
        *cmd is CaptureWindow ==> r == Ok::<Step, String>(Step::CaptureWindow),
        *cmd is Library ==> r == Ok::<Step, String>(Step::Library),
        *cmd is Settings ==> r == Ok::<Step, String>(Step::Settings),
        *cmd is LibraryChanged ==> r == Ok::<Step, String>(Step::RefreshLibrary),
        *cmd is Quit ==> r == Ok::<Step, String>(Step::Quit),
{
    match cmd {
        Command::Home => Ok(Step::Home),
        Command::Capture => Ok(Step::CaptureRegion),
        Command::CaptureFullscreen => Ok(Step::CaptureFullscreen),
        Command::CaptureWindow => Ok(Step::CaptureWindow),
        Command::Delayed(secs) => Ok(Step::Later(*secs)),
        Command::Library => Ok(Step::Library),
        Command::Settings => Ok(Step::Settings),
        Command::Annotate(path) => Ok(Step::Annotate(path.as_str().to_owned())),
        Command::Toast(path) => Ok(Step::Toast(path.as_str().to_owned())),
        Command::RecordToggle => toggle_recording(live),
        Command::RecordRegionPick => pick_region(live),
        Command::RecordRegion { x, y, w, h } => start_region(*x, *y, *w, *h, live),
        Command::RecordStop => {
            if live.recording {
                Ok(Step::StopRecording)
            } else {
                no_recording()
            }
        },
        Command::RecordPause => {
            if live.recording {
                Ok(Step::TogglePause)
            } else {
                no_recording()
            }
        },
        Command::RecordMic => {
            if live.recording {
                Ok(Step::ToggleMic)
            } else {
                no_recording()
            }
        },
        Command::RecordingEnded => {
            if live.recording && live.ended {
                Ok(Step::StopRecording)
            } else {
                Ok(Step::Nothing)
            }
        },
        Command::LibraryChanged => Ok(Step::RefreshLibrary),
        Command::Failed { what, err } => Ok(
            Step::Notice { title: what.as_str().to_owned(), text: err.as_str().to_owned() },
        ),
        Command::Quit => Ok(Step::Quit),
    }
}

/// What a command leads to: a notice says why one is refused.
pub open spec fn outcome(o: Order, live: Live) -> Doing {
    match doing(o, live) {
        Ok(d) => d,
        Err(e) => Doing::Notice { title: title_of(o), text: e },
    }
}

/// What a command makes the daemon do where nobody else shows its error: a
/// notice tells it.
pub fn run(cmd: &Command, live: &Live) -> (r: Step)
    ensures
        r@ == outcome(cmd@, *live),
{
    match dispatch(cmd, live) {
        Ok(s) => s,
        Err(e) => Step::Notice { title: cmd.failure_title(), text: e },
    }
}

/// There is one recording at a time: whatever the command, none starts
/// beside another.
pub proof fn law_one_recording(o: Order, live: Live)
    requires
        live.recording,
    ensures
        doing(o, live) matches Ok(d) ==> !(d is StartRecording) && !(d is PickRegion)
            && !(d is StartRegion),
{
}

/// The option to stop a recording never starts one: it stops the one that
/// is active, or fails.
pub proof fn law_stop_never_starts(live: Live)
    ensures
        live.recording ==> doing(Order::RecordStop, live) == Ok::<Doing, Seq<char>>(
            Doing::StopRecording,
        ),
        !live.recording ==> doing(Order::RecordStop, live) is Err,
{
}

/// The late end notice of a recording that was stopped leaves the next one
/// alone.
pub proof fn law_end_notice(live: Live)
    requires
        !live.recording || !live.ended,
    ensures
        doing(Order::RecordingEnded, live) == Ok::<Doing, Seq<char>>(Doing::Nothing),
{
}

/// What a finished recording or capture is told as.
pub enum Told {
    Nothing,
    /// A notice with this title says that this file was saved.
    Saved { title: String, path: String },
    /// A toast shows this file.
    Toast(String),
    /// A notice with this title says why it failed.
    Failed { title: String, text: String },
}

/// How a finished recording is told. One without a file, whose pick was
/// cancelled, is not.
pub fn report(result: Result<Option<String>, String>) -> (r: Told)
    ensures
        match result {
            Ok(Some(path)) => r matches Told::Saved { title, path: p } && title@
                == "Recording saved"@ && p == path,
            Ok(None) => r is Nothing,
            Err(e) => r matches Told::Failed { title, text } && title@ == "Recording failed"@
                && text == e,
        },
{
    match result {
        Ok(Some(path)) => Told::Saved { title: "Recording saved".to_owned(), path },
        Ok(None) => Told::Nothing,
        Err(e) => Told::Failed { title: "Recording failed".to_owned(), text: e },
    }
}

/// How a capture without the picker is told: its toast, if the settings
/// have one, or why it failed.
pub fn landed(done: Result<String, String>, toast: bool) -> (r: Told)
    ensures
        match done {
            Ok(path) => if toast {
                r == Told::Toast(path)
            } else {
                r is Nothing
            },
            Err(e) => r matches Told::Failed { title, text } && title@ == "Capture failed"@ && text
                == e,
        },
{
    match done {
        Ok(path) => {
            if toast {
                Told::Toast(path)
            } else {
                Told::Nothing
            }
        },
        Err(e) => Told::Failed { title: "Capture failed".to_owned(), text: e },
    }
}

/// The picker's window that waits for the next session.
#[derive(Clone, Copy, Debug, PartialEq, Eq, Structural)]
pub enum Pooled {
    Nothing,
    /// It is there, parked or in a session.
    Window { hidden: bool },
    /// It no longer answers.
    Dead,
}

/// How a session gets its window.
#[derive(Clone, Copy, Debug, PartialEq, Eq, Structural)]
pub enum Opening {
    /// The parked window is used again.
    Reuse,
    /// A session is on: the press is swallowed.
    Busy,
    /// A new window opens. The pool is emptied first where its window is
    /// dead.
    Fresh { drop_pooled: bool },
}

/// How a session gets its window from this pool.
pub fn open_session(pool: Pooled) -> (r: Opening)
    ensures
        r == (match pool {
            Pooled::Nothing => Opening::Fresh { drop_pooled: false },
            Pooled::Window { hidden } => if hidden {
                Opening::Reuse
            } else {
                Opening::Busy
            },
            Pooled::Dead => Opening::Fresh { drop_pooled: true },
        }),
{
    match pool {
        Pooled::Nothing => Opening::Fresh { drop_pooled: false },
        Pooled::Window { hidden } => {
            if hidden {
                Opening::Reuse
            } else {
                Opening::Busy
            }
        },
        Pooled::Dead => Opening::Fresh { drop_pooled: true },
    }
}

/// A grabbed frame as an image.
pub fn whole_frame(width: u32, height: u32, rgba: &Vec<u8>) -> (r: Result<Canvas, String>)
    ensures
        match r {
            Ok(c) => rgba@.len() == 4 * (width * height) && c.wf() && c.width == width && c.height
                == height && c.pixels@ == pixels_in(rgba@),
            Err(e) => rgba@.len() != 4 * (width * height) && e@ == "frame buffer size mismatch"@,
        },
{
    match Canvas::from_rgba(width, height, rgba) {
        Some(c) => Ok(c),
        None => Err("frame buffer size mismatch".to_owned()),
    }
}

/// Each command leads to the step of its own name, whatever the daemon
/// does at the time. What came with the command goes with the step.
pub proof fn law_commands(cmd: Command, live: Live, r: Result<Step, String>)
    requires
        seen(r) == doing(cmd@, live),
    ensures
        match cmd {
            Command::Home => r == Ok::<Step, String>(Step::Home),
            Command::Capture => r == Ok::<Step, String>(Step::CaptureRegion),
            Command::CaptureFullscreen => r == Ok::<Step, String>(Step::CaptureFullscreen),
            Command::CaptureWindow => r == Ok::<Step, String>(Step::CaptureWindow),
            Command::Delayed(secs) => r == Ok::<Step, String>(Step::Later(secs)),
            Command::Library => r == Ok::<Step, String>(Step::Library),
            Command::Settings => r == Ok::<Step, String>(Step::Settings),
            Command::Annotate(p) => r matches Ok(Step::Annotate(q)) && q@ == p@,
            Command::Toast(p) => r matches Ok(Step::Toast(q)) && q@ == p@,
            Command::LibraryChanged => r == Ok::<Step, String>(Step::RefreshLibrary),
            Command::Failed { what, err } => r matches Ok(Step::Notice { title, text }) && title@
                == what@ && text@ == err@,
            Command::Quit => r == Ok::<Step, String>(Step::Quit),
            _ => true,
        },
{
}

/// What the commands for a recording do while one runs: the toggle and the
/// stop end it, pause and microphone are its own, and none starts another.
/// Without one, the toggle starts a recording where that can be done, a
/// picked region is recorded at its place, and the rest is refused.
pub proof fn law_recording_commands(cmd: Command, live: Live, r: Result<Step, String>)
    requires
        seen(r) == doing(cmd@, live),
    ensures
        cmd is RecordToggle && live.recording ==> r == Ok::<Step, String>(Step::StopRecording),
        cmd is RecordToggle && !live.recording && live.ready is Ok ==> r == Ok::<Step, String>(
            Step::StartRecording,
        ),
        cmd is RecordToggle && !live.recording && live.ready is Err ==> (r matches Err(e) && e@ == (
        live.ready->Err_0)@),
        cmd is RecordStop && live.recording ==> r == Ok::<Step, String>(Step::StopRecording),
        cmd is RecordPause && live.recording ==> r == Ok::<Step, String>(Step::TogglePause),
        cmd is RecordMic && live.recording ==> r == Ok::<Step, String>(Step::ToggleMic),
        (cmd is RecordStop || cmd is RecordPause || cmd is RecordMic) && !live.recording ==> (
        r matches Err(e) && e@ == "no recording is active"@),
        cmd is RecordRegionPick && live.ready is Ok && live.region is Ok ==> if live.recording {
            r matches Err(e) && e@ == "a recording is already active"@
        } else {
            r == Ok::<Step, String>(Step::PickRegion)
        },
        cmd is RecordRegionPick && (live.ready is Err || live.region is Err) ==> r is Err,
        cmd is RecordRegion && live.recording ==> (r matches Err(e) && e@
            == "a recording is already active"@),
        cmd matches Command::RecordRegion { x, y, w, h } ==> (!live.recording ==> if w > 0 && h > 0 {
            r == Ok::<Step, String>(
                Step::StartRegion(WinRect { x, y, width: w as u32, height: h as u32 }),
            )
        } else {
            r is Err
        }),
        cmd is RecordingEnded && live.recording && live.ended ==> r == Ok::<Step, String>(
            Step::StopRecording,
        ),
        cmd is RecordingEnded && !(live.recording && live.ended) ==> r == Ok::<Step, String>(
            Step::Nothing,
        ),
{
}

/// What is refused is told under a title that says what failed; the rest
/// is done as it is.
pub proof fn law_run(cmd: Command, live: Live, r: Step)
    requires
        r@ == outcome(cmd@, live),
    ensures
        cmd is Home ==> r is Home,
        cmd is Capture ==> r is CaptureRegion,
        cmd is CaptureFullscreen ==> r is CaptureFullscreen,
        cmd is CaptureWindow ==> r is CaptureWindow,
        cmd is Library ==> r is Library,
        cmd is Settings ==> r is Settings,
        cmd is Quit ==> r is Quit,
        cmd matches Command::Delayed(secs) ==> r == Step::Later(secs),
        cmd matches Command::Annotate(p) ==> (r matches Step::Annotate(q) && q@ == p@),
        cmd matches Command::Toast(p) ==> (r matches Step::Toast(q) && q@ == p@),
        cmd is RecordStop && live.recording ==> r is StopRecording,
        cmd is RecordPause && live.recording ==> r is TogglePause,
        cmd is RecordMic && live.recording ==> r is ToggleMic,
        cmd is RecordStop && !live.recording ==> (r matches Step::Notice { title, text } && title@
            == "Stop failed"@ && text@ == "no recording is active"@),
        cmd is RecordPause && !live.recording ==> (r matches Step::Notice { title, text } && title@
            == "Pause failed"@ && text@ == "no recording is active"@),
        cmd is RecordMic && !live.recording ==> (r matches Step::Notice { title, text } && title@
            == "Microphone toggle failed"@ && text@ == "no recording is active"@),
        (cmd is RecordToggle || cmd is RecordRegionPick) && live.ready is Err && !live.recording
            ==> (r matches Step::Notice { title, text } && title@ == "Recording failed"@ && text@
            == (live.ready->Err_0)@),
        cmd is RecordRegion && live.recording ==> (r matches Step::Notice { title, text } && title@
            == "Recording failed"@ && text@ == "a recording is already active"@),
{
}

/// Each error is told on a line of its own, in order, and the last line
/// names the help.
pub proof fn law_complaints(errors: Seq<Seq<char>>, i: int)
    requires
        0 <= i < errors.len(),
    ensures
        complaints(errors).len() == errors.len() + 1,
        complaints(errors)[i] == "iris: "@ + errors[i],
        complaints(errors).last() == "iris: run 'iris --help' for the options"@,
{
}

/// Commands only make sense to a daemon that runs where there are any and
/// each of them does; one that can start a daemon is enough to start it.
pub proof fn law_all_live(cmds: Seq<Order>, o: Order)
    ensures
        !all_live(Seq::empty()),
        all_live(seq![o]) <==> acts_on_live(o),
        cmds.len() > 0 ==> (all_live(cmds.push(o)) <==> all_live(cmds) && acts_on_live(o)),
{
    assert(seq![o][0] == o);
    if cmds.len() > 0 {
        let all = cmds.push(o);
        assert(all.last() == o);
        if all_live(all) {
            assert(acts_on_live(all[cmds.len() as int]));
            assert forall|i: int| 0 <= i < cmds.len() implies acts_on_live(#[trigger] cmds[i]) by {
                assert(all[i] == cmds[i]);
            }
        }
        if all_live(cmds) && acts_on_live(o) {
            assert forall|i: int| 0 <= i < all.len() implies acts_on_live(#[trigger] all[i]) by {
                if i < cmds.len() {
                    assert(all[i] == cmds[i]);
                }
            }
        }
    }
}

} // verus!
