//! The command line. [`opts`] defines every option but one, which stands
//! beside it: the parser reads them and `--help` prints them. The client parses its own
//! arguments strictly and forwards only the options that parsed, file
//! values made absolute. The daemon parses forwarded lines with the same
//! table.

use vstd::prelude::*;
use crate::command::{orders, Command, Order};
use crate::text::{
    begins,
    joined3,
    lemma_texts_push,
    number_of,
    parse_u64,
    same,
    starts_with,
    texts,
};

verus! {

/// An option the client process runs itself; it never reaches the
/// daemon. Declaration order is precedence: of several on one command
/// line, only the first declared runs.
#[derive(Clone, Copy, Debug, PartialEq, Eq, Structural)]
pub enum Local {
    Help,
    Version,
    CheckUpdate,
    Update,
}

/// The command of an option without a value.
#[derive(Clone, Copy, Debug, PartialEq, Eq, Structural)]
pub enum Plain {
    Capture,
    CaptureFullscreen,
    CaptureWindow,
    RecordToggle,
    RecordStop,
    RecordRegionPick,
    RecordPause,
    RecordMic,
    Library,
    Settings,
    Home,
    Quit,
}

/// Where an option shows its file.
#[derive(Clone, Copy, Debug, PartialEq, Eq, Structural)]
pub enum Shows {
    Editor,
    Toast,
}

/// The value an option takes, and what it runs.
#[derive(Clone, Copy, Debug, PartialEq, Eq, Structural)]
pub enum Takes {
    Local(Local),
    /// Makes the process the daemon.
    Daemon,
    Nothing(Plain),
    /// Whole seconds.
    Secs,
    /// A file, made absolute against the client's working directory.
    File(Shows),
}

#[derive(Clone, Copy, Debug)]
pub struct Opt {
    pub flag: &'static str,
    pub takes: Takes,
    pub help: &'static str,
}

/// Accepted for `--help`.
pub const HELP_SHORT: &'static str = "-h";

/// Every option, in the order `--help` lists them.
pub open spec fn table() -> Seq<Opt> {
    seq![
        Opt {
            flag: "--capture",
            takes: Takes::Nothing(Plain::Capture),
            help: "capture a region: frozen-frame overlay, then the toast",
        },
        Opt {
            flag: "--capture-fullscreen",
            takes: Takes::Nothing(Plain::CaptureFullscreen),
            help: "capture every display with no overlay, then the toast",
        },
        Opt {
            flag: "--capture-window",
            takes: Takes::Nothing(Plain::CaptureWindow),
            help: "capture the focused window, then the toast",
        },
        Opt {
            flag: "--delay",
            takes: Takes::Secs,
            help: "capture every display after <secs> seconds",
        },
        Opt {
            flag: "--record-window",
            takes: Takes::Nothing(Plain::RecordToggle),
            help: "pick a window and record it, or stop the active recording",
        },
        Opt {
            flag: "--record-region",
            takes: Takes::Nothing(Plain::RecordRegionPick),
            help: "pick a screen region and record it",
        },
        Opt {
            flag: "--record-pause",
            takes: Takes::Nothing(Plain::RecordPause),
            help: "pause or resume the active recording",
        },
        Opt {
            flag: "--record-mic",
            takes: Takes::Nothing(Plain::RecordMic),
            help: "turn the microphone on or off in the active recording",
        },
        Opt {
            flag: "--library",
            takes: Takes::Nothing(Plain::Library),
            help: "open the capture library",
        },
        Opt {
            flag: "--settings",
            takes: Takes::Nothing(Plain::Settings),
            help: "open the settings window",
        },
        Opt {
            flag: "--home",
            takes: Takes::Nothing(Plain::Home),
            help: "open the home window",
        },
        Opt {
            flag: "--annotate",
            takes: Takes::File(Shows::Editor),
            help: "open <file> in the editor",
        },
        Opt {
            flag: "--toast",
            takes: Takes::File(Shows::Toast),
            help: "show the toast for <file>",
        },
        Opt {
            flag: "--quit",
            takes: Takes::Nothing(Plain::Quit),
            help: "stop the daemon, saving the active recording first",
        },
        Opt {
            flag: "--daemon",
            takes: Takes::Daemon,
            help: "run as the daemon, with no other option",
        },
        Opt {
            flag: "--version",
            takes: Takes::Local(Local::Version),
            help: "print the version",
        },
        Opt {
            flag: "--check-update",
            takes: Takes::Local(Local::CheckUpdate),
            help: "report whether a newer release exists",
        },
        Opt {
            flag: "--update",
            takes: Takes::Local(Local::Update),
            help: "download and install the latest release",
        },
        Opt {
            flag: "--help",
            takes: Takes::Local(Local::Help),
            help: "print this help",
        },
    ]
}

/// Every option, in the order `--help` lists them.
pub fn opts() -> (r: Vec<Opt>)
    ensures
        r@ == table(),
{
    let r: Vec<Opt> = vec![
        Opt {
            flag: "--capture",
            takes: Takes::Nothing(Plain::Capture),
            help: "capture a region: frozen-frame overlay, then the toast",
        },
        Opt {
            flag: "--capture-fullscreen",
            takes: Takes::Nothing(Plain::CaptureFullscreen),
            help: "capture every display with no overlay, then the toast",
        },
        Opt {
            flag: "--capture-window",
            takes: Takes::Nothing(Plain::CaptureWindow),
            help: "capture the focused window, then the toast",
        },
        Opt {
            flag: "--delay",
            takes: Takes::Secs,
            help: "capture every display after <secs> seconds",
        },
        Opt {
            flag: "--record-window",
            takes: Takes::Nothing(Plain::RecordToggle),
            help: "pick a window and record it, or stop the active recording",
        },
        Opt {
            flag: "--record-region",
            takes: Takes::Nothing(Plain::RecordRegionPick),
            help: "pick a screen region and record it",
        },
        Opt {
            flag: "--record-pause",
            takes: Takes::Nothing(Plain::RecordPause),
            help: "pause or resume the active recording",
        },
        Opt {
            flag: "--record-mic",
            takes: Takes::Nothing(Plain::RecordMic),
            help: "turn the microphone on or off in the active recording",
        },
        Opt {
            flag: "--library",
            takes: Takes::Nothing(Plain::Library),
            help: "open the capture library",
        },
        Opt {
            flag: "--settings",
            takes: Takes::Nothing(Plain::Settings),
            help: "open the settings window",
        },
        Opt {
            flag: "--home",
            takes: Takes::Nothing(Plain::Home),
            help: "open the home window",
        },
        Opt {
            flag: "--annotate",
            takes: Takes::File(Shows::Editor),
            help: "open <file> in the editor",
        },
        Opt {
            flag: "--toast",
            takes: Takes::File(Shows::Toast),
            help: "show the toast for <file>",
        },
        Opt {
            flag: "--quit",
            takes: Takes::Nothing(Plain::Quit),
            help: "stop the daemon, saving the active recording first",
        },
        Opt {
            flag: "--daemon",
            takes: Takes::Daemon,
            help: "run as the daemon, with no other option",
        },
        Opt {
            flag: "--version",
            takes: Takes::Local(Local::Version),
            help: "print the version",
        },
        Opt {
            flag: "--check-update",
            takes: Takes::Local(Local::CheckUpdate),
            help: "report whether a newer release exists",
        },
        Opt {
            flag: "--update",
            takes: Takes::Local(Local::Update),
            help: "download and install the latest release",
        },
        Opt {
            flag: "--help",
            takes: Takes::Local(Local::Help),
            help: "print this help",
        },
    ];
    assert(r@ =~= table());
    r
}

/// Accepted beside the table: it stops the active recording, and starts
/// none.
pub open spec fn stop_option() -> Opt {
    Opt {
        flag: "--stop-recording",
        takes: Takes::Nothing(Plain::RecordStop),
        help: "stop the active recording",
    }
}

/// Every option that a command line can have.
pub open spec fn known() -> Seq<Opt> {
    table().push(stop_option())
}

fn all_opts() -> (r: Vec<Opt>)
    ensures
        r@ == known(),
{
    let mut r = opts();
    r.push(
        Opt {
            flag: "--stop-recording",
            takes: Takes::Nothing(Plain::RecordStop),
            help: "stop the active recording",
        },
    );
    r
}

/// What looking for a file found.
pub enum Probe {
    /// Its path could not be made absolute, for this reason.
    NoPath(String),
    /// No file stands at this absolute path.
    Missing(String),
    /// The absolute path, shown so, is no text.
    NoText(String),
    /// A file stands at this absolute path.
    Found(String),
}

pub enum Sight {
    NoPath(Seq<char>),
    Missing(Seq<char>),
    NoText(Seq<char>),
    Found(Seq<char>),
}

impl View for Probe {
    type V = Sight;

    open spec fn view(&self) -> Sight {
        match *self {
            Probe::NoPath(e) => Sight::NoPath(e@),
            Probe::Missing(p) => Sight::Missing(p@),
            Probe::NoText(p) => Sight::NoText(p@),
            Probe::Found(p) => Sight::Found(p@),
        }
    }
}

pub open spec fn sights(v: Seq<Probe>) -> Seq<Sight> {
    Seq::new(v.len(), |i: int| v[i]@)
}

/// One parsed command line.
pub struct Parsed {
    /// The daemon commands, in argument order.
    pub cmds: Vec<Command>,
    /// The daemon-bound options with their values, file values absolute:
    /// what the client forwards.
    pub forward: Vec<String>,
    /// The client-only options, in argument order.
    pub local: Vec<Local>,
    /// The process is to be the daemon.
    pub daemon: bool,
    /// One message per argument that is not an option or lacks a valid
    /// value; the other arguments still parse.
    pub errors: Vec<String>,
}

#[verifier::ext_equal]
pub struct Line {
    pub cmds: Seq<Order>,
    pub forward: Seq<Seq<char>>,
    pub local: Seq<Local>,
    pub daemon: bool,
    pub errors: Seq<Seq<char>>,
}

impl View for Parsed {
    type V = Line;

    open spec fn view(&self) -> Line {
        Line {
            cmds: orders(self.cmds@),
            forward: texts(self.forward@),
            local: self.local@,
            daemon: self.daemon,
            errors: texts(self.errors@),
        }
    }
}

/// Does the argument name this option?
pub open spec fn names(o: Opt, arg: Seq<char>) -> bool {
    o.flag@ == arg || (arg == HELP_SHORT@ && o.takes == Takes::Local(Local::Help))
}

/// The first option from place `i` on that the argument names.
pub open spec fn lookup_from(arg: Seq<char>, i: int) -> Option<Opt>
    decreases known().len() - i,
{
    if i < 0 || i >= known().len() {
        None
    } else if names(known()[i], arg) {
        Some(known()[i])
    } else {
        lookup_from(arg, i + 1)
    }
}

pub open spec fn lookup(arg: Seq<char>) -> Option<Opt> {
    lookup_from(arg, 0)
}

pub open spec fn plain_order(p: Plain) -> Order {
    match p {
        Plain::Capture => Order::Capture,
        Plain::CaptureFullscreen => Order::CaptureFullscreen,
        Plain::CaptureWindow => Order::CaptureWindow,
        Plain::RecordToggle => Order::RecordToggle,
        Plain::RecordStop => Order::RecordStop,
        Plain::RecordRegionPick => Order::RecordRegionPick,
        Plain::RecordPause => Order::RecordPause,
        Plain::RecordMic => Order::RecordMic,
        Plain::Library => Order::Library,
        Plain::Settings => Order::Settings,
        Plain::Home => Order::Home,
        Plain::Quit => Order::Quit,
    }
}

pub open spec fn file_order(s: Shows, path: Seq<char>) -> Order {
    match s {
        Shows::Editor => Order::Annotate(path),
        Shows::Toast => Order::Toast(path),
    }
}

pub open spec fn nothing() -> Line {
    Line {
        cmds: Seq::empty(),
        forward: Seq::empty(),
        local: Seq::empty(),
        daemon: false,
        errors: Seq::empty(),
    }
}

pub open spec fn failure(e: Seq<char>) -> Line {
    Line { errors: seq![e], ..nothing() }
}

pub open spec fn sends(o: Order, forward: Seq<Seq<char>>) -> Line {
    Line { cmds: seq![o], forward, ..nothing() }
}

/// One line after another.
pub open spec fn followed(a: Line, b: Line) -> Line {
    Line {
        cmds: a.cmds + b.cmds,
        forward: a.forward + b.forward,
        local: a.local + b.local,
        daemon: a.daemon || b.daemon,
        errors: a.errors + b.errors,
    }
}

/// Why a probed file is not taken.
pub open spec fn file_error(v: Seq<char>, s: Sight) -> Seq<char> {
    match s {
        Sight::NoPath(e) => "'"@ + v + "': "@ + e,
        Sight::Missing(p) => "no file at "@ + p,
        Sight::NoText(p) => p + " is not valid UTF-8"@,
        Sight::Found(_) => Seq::empty(),
    }
}

/// How many arguments the option at place `i` uses up, itself included.
pub open spec fn width(args: Seq<Seq<char>>, i: int) -> int {
    match lookup(args[i]) {
        Some(o) => if (o.takes is Secs || o.takes is File) && i + 1 < args.len() {
            2
        } else {
            1
        },
        None => 1,
    }
}

/// What the argument at place `i` means, with the value it takes.
pub open spec fn meaning(args: Seq<Seq<char>>, files: Seq<Sight>, i: int) -> Line {
    let arg = args[i];
    match lookup(arg) {
        None => if begins(arg, "-psn_"@) {
            nothing()
        } else if begins(arg, "-"@) {
            failure("unknown option '"@ + arg + "'"@)
        } else {
            failure("unexpected argument '"@ + arg + "'"@)
        },
        Some(o) => match o.takes {
            Takes::Local(l) => Line { local: seq![l], ..nothing() },
            Takes::Daemon => Line { daemon: true, ..nothing() },
            Takes::Nothing(p) => sends(plain_order(p), seq![o.flag@]),
            Takes::Secs => if i + 1 >= args.len() {
                failure(arg + " needs a number of seconds"@)
            } else {
                match number_of(args[i + 1]) {
                    Some(n) => sends(Order::Delayed(n), seq![o.flag@, args[i + 1]]),
                    None => failure(arg + " takes whole seconds, not '"@ + args[i + 1] + "'"@),
                }
            },
            Takes::File(s) => if i + 1 >= args.len() || args[i + 1].len() == 0 {
                failure(arg + " needs a file"@)
            } else {
                match files[i + 1] {
                    Sight::Found(p) => sends(file_order(s, p), seq![o.flag@, p]),
                    _ => failure(arg + ": "@ + file_error(args[i + 1], files[i + 1])),
                }
            },
        },
    }
}

/// What the arguments from place `i` on mean.
pub open spec fn line_from(args: Seq<Seq<char>>, files: Seq<Sight>, i: int) -> Line
    decreases args.len() - i,
{
    if i < 0 || i >= args.len() {
        nothing()
    } else {
        followed(meaning(args, files, i), line_from(args, files, i + width(args, i)))
    }
}

/// The whole line. `--daemon` with a command or a client-only option is
/// one more error.
pub open spec fn line_of(args: Seq<Seq<char>>, files: Seq<Sight>) -> Line {
    let l = line_from(args, files, 0);
    if l.daemon && (l.cmds.len() > 0 || l.local.len() > 0) {
        Line { errors: l.errors.push("--daemon takes no other option"@), ..l }
    } else {
        l
    }
}

pub open spec fn rank(l: Local) -> int {
    match l {
        Local::Help => 0,
        Local::Version => 1,
        Local::CheckUpdate => 2,
        Local::Update => 3,
    }
}

fn rank_of(l: Local) -> (r: u8)
    ensures
        r == rank(l),
{
    match l {
        Local::Help => 0,
        Local::Version => 1,
        Local::CheckUpdate => 2,
        Local::Update => 3,
    }
}

impl Parsed {
    fn empty() -> (r: Parsed)
        ensures
            r@ == nothing(),
    {
        let r = Parsed {
            cmds: Vec::new(),
            forward: Vec::new(),
            local: Vec::new(),
            daemon: false,
            errors: Vec::new(),
        };
        assert(r@ =~= nothing());
        r
    }

    /// The client-only option that runs: the first by precedence.
    pub fn first_local(&self) -> (r: Option<Local>)
        ensures
            match r {
                None => self.local@.len() == 0,
                Some(l) => self.local@.contains(l) && forall|i: int|
                    0 <= i < self.local@.len() ==> rank(l) <= rank(#[trigger] self.local@[i]),
            },
    {
        if self.local.len() == 0 {
            return None;
        }
        let mut best = self.local[0];
        let mut i: usize = 1;
        while i < self.local.len()
            invariant
                1 <= i <= self.local@.len(),
                self.local@.contains(best),
                forall|j: int| 0 <= j < i ==> rank(best) <= rank(#[trigger] self.local@[j]),
            decreases self.local@.len() - i,
        {
            let l = self.local[i];
            if rank_of(l) < rank_of(best) {
                best = l;
            }
            i = i + 1;
        }
        Some(best)
    }

    /// Does the command line print, so that it needs the caller's
    /// terminal? A line that runs a daemon does not.
    pub fn prints(&self) -> (r: bool)
        ensures
            r == (self@.errors.len() > 0 || self@.cmds.len() > 0 || self@.local.len() > 0),
    {
        self.errors.len() > 0 || self.cmds.len() > 0 || self.local.len() > 0
    }

    fn fail(&mut self, e: String)
        ensures
            final(self)@ == followed(old(self)@, failure(e@)),
    {
        proof {
            lemma_texts_push(self.errors@, e);
        }
        self.errors.push(e);
        assert(self@ =~= followed(old(self)@, failure(e@)));
    }

    fn send(&mut self, cmd: Command, flag: &str)
        ensures
            final(self)@ == followed(old(self)@, sends(cmd@, seq![flag@])),
    {
        let f = flag.to_owned();
        proof {
            lemma_texts_push(self.forward@, f);
        }
        self.cmds.push(cmd);
        self.forward.push(f);
        assert(orders(self.cmds@) =~= orders(old(self).cmds@) + seq![cmd@]);
        assert(self@ =~= followed(old(self)@, sends(cmd@, seq![flag@])));
    }

    fn send_with(&mut self, cmd: Command, flag: &str, value: String)
        ensures
            final(self)@ == followed(old(self)@, sends(cmd@, seq![flag@, value@])),
    {
        self.send(cmd, flag);
        proof {
            lemma_texts_push(self.forward@, value);
        }
        self.forward.push(value);
        assert(self@ =~= followed(old(self)@, sends(cmd@, seq![flag@, value@])));
    }
}

fn named(o: &Opt, arg: &str) -> (r: bool)
    ensures
        r == names(*o, arg@),
{
    same(o.flag, arg) || (same(arg, HELP_SHORT) && o.takes == Takes::Local(Local::Help))
}

/// The option that the argument names.
fn find(arg: &str) -> (r: Option<Opt>)
    ensures
        r == lookup(arg@),
{
    let all = all_opts();
    let mut i: usize = 0;
    while i < all.len()
        invariant
            all@ == known(),
            i <= all@.len(),
            lookup(arg@) == lookup_from(arg@, i as int),
        decreases all@.len() - i,
    {
        if named(&all[i], arg) {
            return Some(all[i]);
        }
        i = i + 1;
    }
    None
}

fn plain_command(p: Plain) -> (r: Command)
    ensures
        r@ == plain_order(p),
{
    match p {
        Plain::Capture => Command::Capture,
        Plain::CaptureFullscreen => Command::CaptureFullscreen,
        Plain::CaptureWindow => Command::CaptureWindow,
        Plain::RecordToggle => Command::RecordToggle,
        Plain::RecordStop => Command::RecordStop,
        Plain::RecordRegionPick => Command::RecordRegionPick,
        Plain::RecordPause => Command::RecordPause,
        Plain::RecordMic => Command::RecordMic,
        Plain::Library => Command::Library,
        Plain::Settings => Command::Settings,
        Plain::Home => Command::Home,
        Plain::Quit => Command::Quit,
    }
}

fn file_command(s: Shows, path: String) -> (r: Command)
    ensures
        r@ == file_order(s, path@),
{
    match s {
        Shows::Editor => Command::Annotate(path),
        Shows::Toast => Command::Toast(path),
    }
}

/// `v` as an absolute path to an existing file, and as forwardable text,
/// from what looking for it found.
pub fn file(v: &str, probe: &Probe) -> (r: Result<(String, String), String>)
    ensures
        match r {
            Ok((path, text)) => probe@ == Sight::Found(path@) && text@ == path@,
            Err(e) => !(probe@ is Found) && e@ == file_error(v@, probe@),
        },
{
    match probe {
        Probe::NoPath(e) => Err(joined3("'", v, "': ").concat(e.as_str())),
        Probe::Missing(p) => Err("no file at ".to_owned().concat(p.as_str())),
        Probe::NoText(p) => Err(p.clone().concat(" is not valid UTF-8")),
        Probe::Found(p) => Ok((p.clone(), p.clone())),
    }
}

/// Parse a command line. `files` holds, for each argument, what looking
/// for a file of that name found.
pub fn parse(args: &Vec<String>, files: &Vec<Probe>) -> (r: Parsed)
    requires
        files@.len() == args@.len(),
    ensures
        r@ == line_of(texts(args@), sights(files@)),
{
    let ghost ts = texts(args@);
    let ghost fs = sights(files@);
    let mut out = Parsed::empty();
    let mut i: usize = 0;
    assert(followed(out@, line_from(ts, fs, 0)) =~= line_from(ts, fs, 0));
    while i < args.len()
        invariant
            i <= args@.len(),
            files@.len() == args@.len(),
            ts == texts(args@),
            fs == sights(files@),
            followed(out@, line_from(ts, fs, i as int)) == line_from(ts, fs, 0),
        decreases args@.len() - i,
    {
        let ghost before = out@;
        let ghost k = i as int;
        let arg = args[i].as_str();
        let mut step: usize = 1;
        match find(arg) {
            None => {
                if !starts_with(arg, "-psn_") {
                    if starts_with(arg, "-") {
                        out.fail(joined3("unknown option '", arg, "'"));
                    } else {
                        out.fail(joined3("unexpected argument '", arg, "'"));
                    }
                } else {
                    assert(followed(before, nothing()) =~= before);
                }
            },
            Some(o) => {
                match o.takes {
                    Takes::Local(l) => {
                        out.local.push(l);
                        assert(out@ =~= followed(before, meaning(ts, fs, k)));
                    },
                    Takes::Daemon => {
                        out.daemon = true;
                        assert(out@ =~= followed(before, meaning(ts, fs, k)));
                    },
                    Takes::Nothing(p) => {
                        out.send(plain_command(p), o.flag);
                    },
                    Takes::Secs => {
                        if i + 1 >= args.len() {
                            out.fail(arg.to_owned().concat(" needs a number of seconds"));
                        } else {
                            step = 2;
                            let v = args[i + 1].as_str();
                            match parse_u64(v) {
                                Some(n) => out.send_with(Command::Delayed(n), o.flag, v.to_owned()),
                                None => out.fail(
                                    joined3(arg, " takes whole seconds, not '", v).concat("'"),
                                ),
                            }
                        }
                    },
                    Takes::File(s) => {
                        if i + 1 >= args.len() {
                            out.fail(arg.to_owned().concat(" needs a file"));
                        } else {
                            step = 2;
                            let v = args[i + 1].as_str();
                            if v.unicode_len() == 0 {
                                out.fail(arg.to_owned().concat(" needs a file"));
                            } else {
                                match file(v, &files[i + 1]) {
                                    Ok((path, text)) => out.send_with(
                                        file_command(s, path),
                                        o.flag,
                                        text,
                                    ),
                                    Err(e) => out.fail(joined3(arg, ": ", e.as_str())),
                                }
                            }
                        }
                    },
                }
            },
        }
        proof {
            let m = meaning(ts, fs, k);
            let rest = line_from(ts, fs, k + width(ts, k));
            assert(step == width(ts, k));
            assert(out@ =~= followed(before, m));
            assert(followed(followed(before, m), rest) =~= followed(before, followed(m, rest)));
        }
        i = i + step;
    }
    proof {
        assert(followed(out@, nothing()) =~= out@);
    }
    if out.daemon && (out.cmds.len() > 0 || out.local.len() > 0) {
        let e = "--daemon takes no other option".to_owned();
        proof {
            lemma_texts_push(out.errors@, e);
        }
        out.errors.push(e);
    }
    out
}

/// What the daemon makes of the forwarded arguments, when each file that
/// they name is found where they say.
proof fn lemma_forward(
    args: Seq<Seq<char>>,
    files: Seq<Sight>,
    i: int,
    fwd: Seq<Seq<char>>,
    seen: Seq<Sight>,
    p: int,
)
    requires
        0 <= i,
        0 <= p <= fwd.len(),
        files.len() == args.len(),
        seen.len() == fwd.len(),
        fwd.skip(p) == line_from(args, files, i).forward,
        forall|j: int|
            0 <= j < files.len() ==> ((#[trigger] files[j]) matches Sight::Found(t) ==> t.len() > 0),
        forall|j: int|
            0 < j < fwd.len() && (lookup(#[trigger] fwd[j - 1]) matches Some(o) && o.takes is File)
                ==> seen[j] == Sight::Found(fwd[j]),
    ensures
        line_from(fwd, seen, p) == (Line {
            cmds: line_from(args, files, i).cmds,
            forward: line_from(args, files, i).forward,
            ..nothing()
        }),
    decreases args.len() - i,
{
    if i >= args.len() {
        assert(fwd.skip(p).len() == 0);
        assert(line_from(fwd, seen, p) =~= nothing());
    } else {
        let m = meaning(args, files, i);
        let next = i + width(args, i);
        let rest = line_from(args, files, next);
        let all = line_from(args, files, i);
        assert(all == followed(m, rest));
        if m.forward.len() == 0 {
            assert(all.forward =~= rest.forward);
            assert(m.cmds =~= Seq::empty());
            assert(all.cmds =~= rest.cmds);
            lemma_forward(args, files, next, fwd, seen, p);
        } else {
            let o = lookup(args[i])->0;
            lemma_lookup(args[i], 0);
            assert(o.flag@ == args[i]);
            assert(fwd.skip(p)[0] == m.forward[0]);
            assert(fwd[p] == args[i]);
            let q = p + m.forward.len();
            assert(fwd.skip(q) =~= rest.forward) by {
                assert forall|j: int| 0 <= j < rest.forward.len() implies fwd.skip(q)[j]
                    == rest.forward[j] by {
                    assert(fwd.skip(p)[m.forward.len() + j] == rest.forward[j]);
                }
                assert(fwd.skip(p).len() == m.forward.len() + rest.forward.len());
            }
            if m.forward.len() == 2 {
                assert(fwd.skip(p)[1] == m.forward[1]);
                assert(fwd[p + 1] == m.forward[1]);
                assert(fwd[p + 1 - 1] == args[i]);
            }
            lemma_forward(args, files, next, fwd, seen, q);
            assert(fwd.skip(p).len() == m.forward.len() + rest.forward.len());
            assert(meaning(fwd, seen, p) == m);
            assert(width(fwd, p) == m.forward.len());
            assert(line_from(fwd, seen, p) =~= followed(m, line_from(fwd, seen, q)));
            assert(line_from(fwd, seen, p) =~= Line {
                cmds: all.cmds,
                forward: all.forward,
                ..nothing()
            });
        }
    }
}

/// An option is found by its own flag, but for `-h`.
proof fn lemma_lookup(arg: Seq<char>, i: int)
    requires
        0 <= i,
    ensures
        lookup_from(arg, i) matches Some(o) ==> o.flag@ == arg || o.takes is Local,
    decreases known().len() - i,
{
    if i < known().len() {
        lemma_lookup(arg, i + 1);
    }
}

/// The forwarded arguments parse to the commands that the client parsed,
/// in order, and to themselves, with no error and nothing for the client
/// alone, if each file they name stands where they say.
pub proof fn law_forward(
    args: Seq<Seq<char>>,
    files: Seq<Sight>,
    seen: Seq<Sight>,
)
    requires
        files.len() == args.len(),
        seen.len() == line_of(args, files).forward.len(),
        forall|j: int|
            0 <= j < files.len() ==> ((#[trigger] files[j]) matches Sight::Found(t) ==> t.len() > 0),
        forall|j: int|
            0 < j < seen.len() && (lookup(#[trigger] line_of(args, files).forward[j - 1]) matches Some(
                o,
            ) && o.takes is File) ==> seen[j] == Sight::Found(line_of(args, files).forward[j]),
    ensures
        line_of(line_of(args, files).forward, seen) == (Line {
            cmds: line_of(args, files).cmds,
            forward: line_of(args, files).forward,
            ..nothing()
        }),
{
    let fwd = line_of(args, files).forward;
    assert(fwd.skip(0) =~= fwd);
    lemma_forward(args, files, 0, fwd, seen, 0);
}

/// How the option is listed: with its value, `--help` with its short
/// form.
pub open spec fn listed(o: Opt) -> Seq<char> {
    match o.takes {
        Takes::Secs => o.flag@ + " <secs>"@,
        Takes::File(_) => o.flag@ + " <file>"@,
        Takes::Local(Local::Help) => HELP_SHORT@ + ", "@ + o.flag@,
        _ => o.flag@,
    }
}

/// The name's column is this wide.
pub const NAME_COLUMN: usize = 24;

/// `s` with spaces behind it, up to `n` characters.
pub open spec fn filled(s: Seq<char>, n: int) -> Seq<char> {
    if s.len() >= n {
        s
    } else {
        s + Seq::new((n - s.len()) as nat, |i: int| ' ')
    }
}

/// The option's line in the help.
pub open spec fn entry(o: Opt) -> Seq<char> {
    "  "@ + filled(listed(o), NAME_COLUMN as int) + o.help@ + "\n"@
}

/// The lines of the first `n` options.
pub open spec fn listing(n: int) -> Seq<char>
    decreases n,
{
    if n <= 0 {
        Seq::empty()
    } else {
        listing(n - 1) + entry(known()[n - 1])
    }
}

/// The whole help.
pub open spec fn usage_text() -> Seq<char> {
    heading() + listing(known().len() as int)
}

pub open spec fn heading() -> Seq<char> {
    "usage: iris [option]...\n\nWith no option, iris starts the daemon, or opens the home window\nof the daemon already running.\n\noptions:\n"@
}

/// The `--help` text: the heading, and one line for each option.
pub fn usage() -> (r: String)
    ensures
        r@ == usage_text(),
{
    let all = all_opts();
    let mut out = "usage: iris [option]...\n\nWith no option, iris starts the daemon, or opens the home window\nof the daemon already running.\n\noptions:\n".to_owned();
    let mut i: usize = 0;
    assert(out@ =~= heading() + listing(0));
    while i < all.len()
        invariant
            all@ == known(),
            i <= all@.len(),
            out@ == heading() + listing(i as int),
        decreases all@.len() - i,
    {
        let o = all[i];
        let name = match o.takes {
            Takes::Secs => o.flag.to_owned().concat(" <secs>"),
            Takes::File(_) => o.flag.to_owned().concat(" <file>"),
            Takes::Local(Local::Help) => joined3(HELP_SHORT, ", ", o.flag),
            _ => o.flag.to_owned(),
        };
        assert(name@ == listed(o));
        let mut line = "  ".to_owned().concat(name.as_str());
        let mut n: usize = name.as_str().unicode_len();
        assert(line@ =~= "  "@ + name@ + Seq::new(0, |i: int| ' '));
        while n < NAME_COLUMN
            invariant
                name@.len() <= n,
                n <= NAME_COLUMN || n == name@.len(),
                line@ == "  "@ + name@ + Seq::new((n - name@.len()) as nat, |i: int| ' '),
            decreases NAME_COLUMN - n,
        {
            line.push(' ');
            n = n + 1;
            assert(line@ =~= "  "@ + name@ + Seq::new((n - name@.len()) as nat, |i: int| ' '));
        }
        assert(line@ =~= "  "@ + filled(name@, NAME_COLUMN as int));
        line.append(o.help);
        line.append("\n");
        out.append(line.as_str());
        assert(out@ =~= heading() + listing(i + 1));
        i = i + 1;
    }
    out
}

/// Has the text a mark for a value, a blank and an angle bracket?
pub open spec fn marked(s: Seq<char>) -> bool {
    exists|i: int| 0 <= i < s.len() - 1 && #[trigger] s[i] == ' ' && s[i + 1] == '<'
}

/// Does the option take a value?
pub open spec fn valued(o: Opt) -> bool {
    o.takes is Secs || o.takes is File
}

/// No angle bracket.
spec fn bare(s: Seq<char>) -> bool {
    forall|i: int| 0 <= i < s.len() ==> #[trigger] s[i] != '<'
}

/// One line: no line break.
pub open spec fn unbroken(s: Seq<char>) -> bool {
    forall|i: int| 0 <= i < s.len() ==> #[trigger] s[i] != '\n'
}

proof fn lemma_bare(k: int)
    requires
        0 <= k < known().len(),
    ensures
        bare(known()[k].flag@),
        !valued(known()[k]) ==> bare(known()[k].help@),
        unbroken(known()[k].flag@),
        unbroken(known()[k].help@),
{
    reveal_strlit("--capture");
    reveal_strlit("--capture-fullscreen");
    reveal_strlit("--capture-window");
    reveal_strlit("--delay");
    reveal_strlit("--record-window");
    reveal_strlit("--record-region");
    reveal_strlit("--record-pause");
    reveal_strlit("--record-mic");
    reveal_strlit("--library");
    reveal_strlit("--settings");
    reveal_strlit("--home");
    reveal_strlit("--annotate");
    reveal_strlit("--toast");
    reveal_strlit("--quit");
    reveal_strlit("--daemon");
    reveal_strlit("--version");
    reveal_strlit("--check-update");
    reveal_strlit("--update");
    reveal_strlit("--help");
    reveal_strlit("--stop-recording");
    reveal_strlit("capture a region: frozen-frame overlay, then the toast");
    reveal_strlit("capture every display with no overlay, then the toast");
    reveal_strlit("capture the focused window, then the toast");
    reveal_strlit("capture every display after <secs> seconds");
    reveal_strlit("pick a window and record it, or stop the active recording");
    reveal_strlit("pick a screen region and record it");
    reveal_strlit("pause or resume the active recording");
    reveal_strlit("turn the microphone on or off in the active recording");
    reveal_strlit("open the capture library");
    reveal_strlit("open the settings window");
    reveal_strlit("open the home window");
    reveal_strlit("open <file> in the editor");
    reveal_strlit("show the toast for <file>");
    reveal_strlit("stop the daemon, saving the active recording first");
    reveal_strlit("run as the daemon, with no other option");
    reveal_strlit("print the version");
    reveal_strlit("report whether a newer release exists");
    reveal_strlit("download and install the latest release");
    reveal_strlit("print this help");
    reveal_strlit("stop the active recording");
}

/// The text has the flag as a word: blanks, a comma or its ends stand
/// round it.
pub open spec fn worded(s: Seq<char>, flag: Seq<char>) -> bool {
    exists|i: int|
        {
            &&& 0 <= i <= s.len() - flag.len()
            &&& #[trigger] s.subrange(i, i + flag.len()) == flag
            &&& i == 0 || s[i - 1] == ' ' || s[i - 1] == ','
            &&& i + flag.len() == s.len() || s[i + flag.len()] == ' ' || s[i + flag.len()] == ','
        }
}

/// The option's line, without its line break.
pub open spec fn line_text(o: Opt) -> Seq<char> {
    "  "@ + filled(listed(o), NAME_COLUMN as int) + o.help@
}

/// The line that the help has at place `at`.
pub open spec fn line_at(text: Seq<char>, at: int, line: Seq<char>) -> bool {
    &&& unbroken(line)
    &&& 0 < at <= text.len() - line.len() - 1
    &&& text[at - 1] == '\n'
    &&& text.subrange(at, at + line.len()) == line
    &&& text[at + line.len()] == '\n'
}

/// Where the line of option `k` starts.
pub open spec fn line_start(k: int) -> int {
    (heading() + listing(k)).len() as int
}

proof fn lemma_listing_ends(n: int)
    requires
        0 <= n <= known().len(),
    ensures
        (heading() + listing(n)).len() > 0,
        (heading() + listing(n)).last() == '\n',
{
    if n == 0 {
        reveal_strlit(
            "usage: iris [option]...\n\nWith no option, iris starts the daemon, or opens the home window\nof the daemon already running.\n\noptions:\n",
        );
        assert(heading() + listing(0) =~= heading());
    } else {
        reveal_strlit("\n");
        assert((heading() + listing(n)).last() == entry(known()[n - 1]).last());
    }
}

proof fn lemma_prefix(k: int, n: int)
    requires
        0 <= k < n <= known().len(),
    ensures
        ({
            let text = heading() + listing(n);
            let e = entry(known()[k]);
            &&& line_start(k) + e.len() <= text.len()
            &&& text.take(line_start(k)) == heading() + listing(k)
            &&& text.subrange(line_start(k), line_start(k) + e.len()) == e
        }),
    decreases n - k,
{
    let text = heading() + listing(n);
    let e = entry(known()[k]);
    if n == k + 1 {
        assert(text =~= (heading() + listing(k)) + e);
        assert(text.take(line_start(k)) =~= heading() + listing(k));
        assert(text.subrange(line_start(k), line_start(k) + e.len()) =~= e);
    } else {
        lemma_prefix(k, n - 1);
        let less = heading() + listing(n - 1);
        assert(text =~= less + entry(known()[n - 1]));
        assert(text.take(line_start(k)) =~= less.take(line_start(k)));
        assert(text.subrange(line_start(k), line_start(k) + e.len()) =~= less.subrange(
            line_start(k),
            line_start(k) + e.len(),
        ));
    }
}

proof fn lemma_marks(k: int)
    requires
        0 <= k < known().len(),
    ensures
        marked(line_text(known()[k])) == valued(known()[k]),
        unbroken(line_text(known()[k])),
        worded(line_text(known()[k]), known()[k].flag@),
{
    let o = known()[k];
    let t = line_text(o);
    let name = listed(o);
    lemma_bare(k);
    reveal_strlit("  ");
    reveal_strlit("-h");
    reveal_strlit(", ");
    reveal_strlit(" <secs>");
    reveal_strlit(" <file>");
    let wide = filled(name, NAME_COLUMN as int);
    assert(forall|i: int| 0 <= i < name.len() ==> #[trigger] wide[i] == name[i]);
    assert(forall|i: int| name.len() <= i < wide.len() ==> #[trigger] wide[i] == ' ');
    assert(forall|i: int| 0 <= i < wide.len() ==> #[trigger] t[2 + i] == wide[i]);
    let n = o.flag@.len() as int;
    if valued(o) {
        assert(name[n] == ' ' && name[n + 1] == '<');
        assert(t[2 + n] == wide[n] && t[2 + n + 1] == wide[n + 1]);
    } else {
        assert(bare(name));
        assert(bare(t)) by {
            assert forall|i: int| 0 <= i < t.len() implies #[trigger] t[i] != '<' by {
                if 2 <= i < 2 + wide.len() {
                    assert(t[2 + (i - 2)] == wide[i - 2]);
                } else if i >= 2 + wide.len() {
                    assert(t[i] == o.help@[i - 2 - wide.len()]);
                }
            }
        }
    }
    assert forall|i: int| 0 <= i < t.len() implies #[trigger] t[i] != '\n' by {
        if 2 <= i < 2 + wide.len() {
            assert(t[2 + (i - 2)] == wide[i - 2]);
        } else if i >= 2 + wide.len() {
            assert(t[i] == o.help@[i - 2 - wide.len()]);
        }
    }
    let at: int = if o.takes == Takes::Local(Local::Help) {
        6
    } else {
        2
    };
    assert(t.subrange(at, at + n) =~= o.flag@) by {
        assert forall|i: int| 0 <= i < n implies t.subrange(at, at + n)[i] == o.flag@[i] by {
            assert(t[2 + (at - 2 + i)] == wide[at - 2 + i]);
            assert(name[at - 2 + i] == o.flag@[i]);
        }
    }
    assert(t[at - 1] == ' ') by {
        if at == 6 {
            assert(t[2 + 3int] == wide[3] && name[3] == ' ');
        }
    }
    assert(n > 0 && name.len() < NAME_COLUMN) by {
        lemma_names_fit(k);
    }
    assert(t[2 + (at - 2 + n)] == wide[at - 2 + n]);
}

proof fn lemma_names_fit(k: int)
    requires
        0 <= k < known().len(),
    ensures
        known()[k].flag@.len() > 0,
        listed(known()[k]).len() < NAME_COLUMN,
{
    reveal_strlit("-h");
    reveal_strlit(", ");
    reveal_strlit(" <secs>");
    reveal_strlit(" <file>");
    reveal_strlit("--capture");
    reveal_strlit("--capture-fullscreen");
    reveal_strlit("--capture-window");
    reveal_strlit("--delay");
    reveal_strlit("--record-window");
    reveal_strlit("--record-region");
    reveal_strlit("--record-pause");
    reveal_strlit("--record-mic");
    reveal_strlit("--library");
    reveal_strlit("--settings");
    reveal_strlit("--home");
    reveal_strlit("--annotate");
    reveal_strlit("--toast");
    reveal_strlit("--quit");
    reveal_strlit("--daemon");
    reveal_strlit("--version");
    reveal_strlit("--check-update");
    reveal_strlit("--update");
    reveal_strlit("--help");
    reveal_strlit("--stop-recording");
}

proof fn lemma_known(arg: Seq<char>, i: int)
    requires
        0 <= i,
    ensures
        match lookup_from(arg, i) {
            Some(o) => exists|k: int| i <= k < known().len() && #[trigger] known()[k] == o && names(
                o,
                arg,
            ),
            None => forall|k: int| i <= k < known().len() ==> !names(#[trigger] known()[k], arg),
        },
    decreases known().len() - i,
{
    if i < known().len() && !names(known()[i], arg) {
        lemma_known(arg, i + 1);
    }
}

/// The help lists just the options that a command line can have. Each has
/// a line of its own with its flag as a word, which marks a value where
/// the option takes one and ends with what the option does; the flag is
/// known. What a command line knows is an option with such a line, by its
/// flag or, for the help, by its short form.
pub proof fn law_help_lists_known(arg: Seq<char>, k: int)
    requires
        0 <= k < known().len(),
    ensures
        ({
            let o = known()[k];
            let line = line_text(o);
            &&& line_at(usage_text(), line_start(k), line)
            &&& worded(line, o.flag@)
            &&& marked(line) == valued(o)
            &&& line.skip(line.len() - o.help@.len()) == o.help@
            &&& lookup(o.flag@) is Some
        }),
        lookup(arg) matches Some(o) ==> (exists|j: int|
            0 <= j < known().len() && #[trigger] known()[j] == o) && (o.flag@ == arg || (arg
            == HELP_SHORT@ && o.takes == Takes::Local(Local::Help))),
{
    let o = known()[k];
    let line = line_text(o);
    let e = entry(o);
    let text = usage_text();
    let at = line_start(k);
    lemma_marks(k);
    lemma_prefix(k, known().len() as int);
    lemma_listing_ends(k);
    reveal_strlit("\n");
    assert(text[at - 1] == text.take(at)[at - 1]);
    assert(e =~= line + "\n"@);
    assert(text.subrange(at, at + line.len()) =~= line) by {
        assert forall|i: int| 0 <= i < line.len() implies text.subrange(at, at + line.len())[i]
            == line[i] by {
            assert(text.subrange(at, at + e.len())[i] == e[i]);
        }
    }
    assert(text.subrange(at, at + e.len())[line.len() as int] == e[line.len() as int]);
    assert(line.skip(line.len() - o.help@.len()) =~= o.help@);
    lemma_known(o.flag@, 0);
    lemma_known(arg, 0);
}

proof fn lemma_flags(i: int, j: int)
    requires
        0 <= i < known().len(),
        0 <= j < known().len(),
        known()[i].flag@ == known()[j].flag@,
    ensures
        i == j,
{
    reveal_strlit("--capture");
    reveal_strlit("--capture-fullscreen");
    reveal_strlit("--capture-window");
    reveal_strlit("--delay");
    reveal_strlit("--record-window");
    reveal_strlit("--record-region");
    reveal_strlit("--record-pause");
    reveal_strlit("--record-mic");
    reveal_strlit("--library");
    reveal_strlit("--settings");
    reveal_strlit("--home");
    reveal_strlit("--annotate");
    reveal_strlit("--toast");
    reveal_strlit("--quit");
    reveal_strlit("--daemon");
    reveal_strlit("--version");
    reveal_strlit("--check-update");
    reveal_strlit("--update");
    reveal_strlit("--help");
    reveal_strlit("--stop-recording");
    let (a, b) = (known()[i].flag@, known()[j].flag@);
    assert(a.len() == b.len());
    assert(a[2] == b[2] && a[3] == b[3] && a[4] == b[4]);
    if a.len() == 15 {
        assert(a[9] == b[9] && a[10] == b[10] && a[11] == b[11]);
    }
}

proof fn lemma_lookup_at(k: int, i: int)
    requires
        0 <= i <= k < known().len(),
    ensures
        lookup_from(known()[k].flag@, i) == Some(known()[k]),
    decreases k - i,
{
    reveal_strlit("-h");
    let arg = known()[k].flag@;
    assert(arg.len() > 2) by {
        lemma_long(k);
    }
    if i < k {
        if known()[i].flag@ == arg {
            lemma_flags(i, k);
        }
        lemma_lookup_at(k, i + 1);
    }
}

proof fn lemma_long(k: int)
    requires
        0 <= k < known().len(),
    ensures
        known()[k].flag@.len() > 2,
{
    reveal_strlit("--capture");
    reveal_strlit("--capture-fullscreen");
    reveal_strlit("--capture-window");
    reveal_strlit("--delay");
    reveal_strlit("--record-window");
    reveal_strlit("--record-region");
    reveal_strlit("--record-pause");
    reveal_strlit("--record-mic");
    reveal_strlit("--library");
    reveal_strlit("--settings");
    reveal_strlit("--home");
    reveal_strlit("--annotate");
    reveal_strlit("--toast");
    reveal_strlit("--quit");
    reveal_strlit("--daemon");
    reveal_strlit("--version");
    reveal_strlit("--check-update");
    reveal_strlit("--update");
    reveal_strlit("--help");
    reveal_strlit("--stop-recording");
}

/// Each option orders what it is named for, wherever it stands on the line:
/// a capture, a window of the program, or a step of the recording.
pub proof fn law_options_order(args: Seq<Seq<char>>, files: Seq<Sight>, i: int)
    requires
        0 <= i < args.len(),
    ensures
        ({
            let (arg, m) = (args[i], meaning(args, files, i));
            &&& arg == "--capture"@ ==> m.cmds == seq![Order::Capture]
            &&& arg == "--capture-fullscreen"@ ==> m.cmds == seq![Order::CaptureFullscreen]
            &&& arg == "--capture-window"@ ==> m.cmds == seq![Order::CaptureWindow]
            &&& arg == "--record-window"@ ==> m.cmds == seq![Order::RecordToggle]
            &&& arg == "--record-region"@ ==> m.cmds == seq![Order::RecordRegionPick]
            &&& arg == "--record-pause"@ ==> m.cmds == seq![Order::RecordPause]
            &&& arg == "--record-mic"@ ==> m.cmds == seq![Order::RecordMic]
            &&& arg == "--stop-recording"@ ==> m.cmds == seq![Order::RecordStop]
            &&& arg == "--library"@ ==> m.cmds == seq![Order::Library]
            &&& arg == "--settings"@ ==> m.cmds == seq![Order::Settings]
            &&& arg == "--home"@ ==> m.cmds == seq![Order::Home]
            &&& arg == "--quit"@ ==> m.cmds == seq![Order::Quit]
        }),
{
    let arg = args[i];
    let t = known();
    assert(t[0].flag@ == "--capture"@ && t[1].flag@ == "--capture-fullscreen"@);
    assert(t[2].flag@ == "--capture-window"@ && t[4].flag@ == "--record-window"@);
    assert(t[5].flag@ == "--record-region"@ && t[6].flag@ == "--record-pause"@);
    assert(t[7].flag@ == "--record-mic"@ && t[8].flag@ == "--library"@);
    assert(t[9].flag@ == "--settings"@ && t[10].flag@ == "--home"@);
    assert(t[13].flag@ == "--quit"@ && t[19].flag@ == "--stop-recording"@);
    lemma_lookup_at(0, 0);
    lemma_lookup_at(1, 0);
    lemma_lookup_at(2, 0);
    lemma_lookup_at(4, 0);
    lemma_lookup_at(5, 0);
    lemma_lookup_at(6, 0);
    lemma_lookup_at(7, 0);
    lemma_lookup_at(8, 0);
    lemma_lookup_at(9, 0);
    lemma_lookup_at(10, 0);
    lemma_lookup_at(13, 0);
    lemma_lookup_at(19, 0);
}

/// The options with a value hand it on: the seconds of a delay, and the
/// file that the editor or the toast is to show. The others are for this
/// process.
pub proof fn law_options_value(args: Seq<Seq<char>>, files: Seq<Sight>, i: int)
    requires
        0 <= i < args.len(),
        files.len() == args.len(),
    ensures
        ({
            let (arg, m) = (args[i], meaning(args, files, i));
            &&& arg == "--delay"@ && i + 1 < args.len() ==> (number_of(args[i + 1]) matches Some(n)
                ==> m.cmds == seq![Order::Delayed(n)])
            &&& arg == "--annotate"@ && i + 1 < args.len() && args[i + 1].len() > 0 ==> (
            files[i + 1] matches Sight::Found(p) ==> m.cmds == seq![Order::Annotate(p)])
            &&& arg == "--toast"@ && i + 1 < args.len() && args[i + 1].len() > 0 ==> (
            files[i + 1] matches Sight::Found(p) ==> m.cmds == seq![Order::Toast(p)])
            &&& arg == "--daemon"@ ==> m.daemon
            &&& arg == "--version"@ ==> m.local == seq![Local::Version]
            &&& arg == "--check-update"@ ==> m.local == seq![Local::CheckUpdate]
            &&& arg == "--update"@ ==> m.local == seq![Local::Update]
            &&& arg == "--help"@ ==> m.local == seq![Local::Help]
        }),
{
    let t = known();
    assert(t[3].flag@ == "--delay"@ && t[11].flag@ == "--annotate"@ && t[12].flag@ == "--toast"@);
    assert(t[14].flag@ == "--daemon"@ && t[15].flag@ == "--version"@);
    assert(t[16].flag@ == "--check-update"@ && t[17].flag@ == "--update"@);
    assert(t[18].flag@ == "--help"@);
    lemma_lookup_at(3, 0);
    lemma_lookup_at(11, 0);
    lemma_lookup_at(12, 0);
    lemma_lookup_at(14, 0);
    lemma_lookup_at(15, 0);
    lemma_lookup_at(16, 0);
    lemma_lookup_at(17, 0);
    lemma_lookup_at(18, 0);
}

/// What a line orders is what its options order, one after the other.
pub proof fn law_line_in_order(args: Seq<Seq<char>>, files: Seq<Sight>, i: int)
    requires
        0 <= i < args.len(),
    ensures
        ({
            let (m, rest) = (
                meaning(args, files, i),
                line_from(args, files, i + width(args, i)),
            );
            let l = line_from(args, files, i);
            &&& l.cmds == m.cmds + rest.cmds
            &&& l.forward == m.forward + rest.forward
            &&& l.local == m.local + rest.local
            &&& l.errors == m.errors + rest.errors
            &&& l.daemon == (m.daemon || rest.daemon)
        }),
        1 <= width(args, i) <= 2,
{
}

/// Of several options that are for this process the help goes first, then
/// the version, then the look for an update, and the update last.
pub proof fn law_local_order()
    ensures
        rank(Local::Help) < rank(Local::Version),
        rank(Local::Version) < rank(Local::CheckUpdate),
        rank(Local::CheckUpdate) < rank(Local::Update),
{
}

/// A file that cannot be shown is named in what is said of it: the option's
/// value where it is no path, else the path.
pub proof fn law_file_errors(v: Seq<char>, s: Sight)
    ensures
        s matches Sight::NoPath(e) ==> file_error(v, s) == "'"@ + v + "': "@ + e,
        s matches Sight::Missing(p) ==> file_error(v, s) == "no file at "@ + p,
        s matches Sight::NoText(p) ==> file_error(v, s) == p + " is not valid UTF-8"@,
        s is Found <==> file_error(v, s).len() == 0,
{
    reveal_strlit("'");
    reveal_strlit("no file at ");
    reveal_strlit(" is not valid UTF-8");
    assert("'"@.len() == 1 && "no file at "@.len() == 11 && " is not valid UTF-8"@.len() == 19);
}

} // verus!
