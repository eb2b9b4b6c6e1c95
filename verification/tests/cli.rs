//! Command lines.

use iris::cli::{opts, parse, usage, Local, Opt, Parsed, Probe, Takes};
use iris::command::{live_daemon_only, Command};

/// The client's working directory, and a file and a directory in it.
const CWD: &str = "/home/user/iris";
const MANIFEST: &str = "/home/user/iris/Cargo.toml";
const MISSING: &str = "/home/user/iris/no-such-file.png";
const DIR: &str = "/home/user/iris/src";

/// What looking for `arg` finds where only the manifest is a file.
fn probe(arg: &str) -> Probe {
    let path = if arg.starts_with('/') {
        arg.to_string()
    } else {
        format!("{CWD}/{arg}")
    };
    if path == MANIFEST {
        Probe::Found(path)
    } else {
        Probe::Missing(path)
    }
}

fn parsed(args: &[String]) -> Parsed {
    let args: Vec<String> = args.to_vec();
    let files: Vec<Probe> = args.iter().map(|a| probe(a)).collect();
    parse(&args, &files)
}

fn argv(args: &[&str]) -> Vec<String> {
    args.iter().map(|a| a.to_string()).collect()
}

fn debug(cmds: &[Command]) -> Vec<String> {
    cmds.iter().map(|c| format!("{c:?}")).collect()
}

/// `opt` with a valid value when it takes one.
fn alone(opt: &Opt) -> Vec<String> {
    let mut args = vec![opt.flag.to_string()];
    match opt.takes {
        Takes::Secs => args.push("3".into()),
        Takes::File(_) => args.push(MANIFEST.into()),
        Takes::Local(_) | Takes::Daemon | Takes::Nothing(_) => {}
    }
    args
}

/// The command each daemon-bound option sends. An option missing here
/// fails `every_option_sends_its_command`.
fn expected(flag: &str) -> Option<Command> {
    Some(match flag {
        "--capture" => Command::Capture,
        "--capture-fullscreen" => Command::CaptureFullscreen,
        "--capture-window" => Command::CaptureWindow,
        "--delay" => Command::Delayed(3),
        "--record-window" => Command::RecordToggle,
        "--record-region" => Command::RecordRegionPick,
        "--record-pause" => Command::RecordPause,
        "--record-mic" => Command::RecordMic,
        "--library" => Command::Library,
        "--settings" => Command::Settings,
        "--home" => Command::Home,
        "--annotate" => Command::Annotate(MANIFEST.to_string()),
        "--toast" => Command::Toast(MANIFEST.to_string()),
        "--quit" => Command::Quit,
        _ => return None,
    })
}

#[test]
fn every_option_sends_its_command() {
    for opt in &opts() {
        let args = alone(opt);
        let p = parsed(&args);
        assert!(p.errors.is_empty(), "{args:?}: {:?}", p.errors);
        if let Takes::Local(local) = opt.takes {
            assert_eq!(p.local, [local], "{args:?}");
            assert!(p.cmds.is_empty() && p.forward.is_empty(), "{args:?}");
            continue;
        }
        if let Takes::Daemon = opt.takes {
            assert!(p.daemon, "{args:?}");
            assert!(
                p.cmds.is_empty() && p.forward.is_empty() && p.local.is_empty(),
                "{args:?}"
            );
            continue;
        }
        let want = expected(opt.flag)
            .unwrap_or_else(|| panic!("{} has no expected command in this test", opt.flag));
        assert_eq!(debug(&p.cmds), debug(&[want]), "{args:?}");
        assert_eq!(p.forward, args, "{args:?}");
        assert!(p.local.is_empty(), "{args:?}");
    }
}

#[test]
fn help_lists_every_option_with_its_value() {
    let help = usage();
    for opt in &opts() {
        let shown = alone(opt).len() == 2;
        let line = help
            .lines()
            .find(|l| l.trim_start().split([' ', ',']).any(|w| w == opt.flag))
            .unwrap_or_else(|| panic!("{} is not in --help", opt.flag));
        assert_eq!(line.contains(" <"), shown, "{line}");
        assert!(line.ends_with(opt.help), "{line}");
    }
    assert!(help.contains("-h, --help"), "{help}");
    assert_eq!(parsed(&argv(&["-h"])).local, [Local::Help]);
}

/// With several client-only options on one line one runs: `--help`
/// before anything, `--version` before the update options, and the
/// check before the update itself.
#[test]
fn one_client_option_runs_by_precedence() {
    let p = parsed(&argv(&["--update", "--check-update", "--version", "-h"]));
    assert_eq!(p.first_local(), Some(Local::Help));
    let p = parsed(&argv(&["--update", "--check-update", "--version"]));
    assert_eq!(p.first_local(), Some(Local::Version));
    let p = parsed(&argv(&["--update", "--check-update"]));
    assert_eq!(p.first_local(), Some(Local::CheckUpdate));
    let p = parsed(&argv(&["--capture", "--update"]));
    assert_eq!(p.first_local(), Some(Local::Update));
    assert_eq!(parsed(&argv(&["--capture"])).first_local(), None);
}

/// `--daemon` makes the process the daemon and runs nothing else: with
/// any other option the line is an error, and main runs none of it.
#[test]
fn the_daemon_option_takes_no_other_option() {
    assert!(!parsed(&argv(&["--capture"])).daemon);
    let alone = parsed(&argv(&["--daemon"]));
    assert!(
        alone.daemon && alone.errors.is_empty(),
        "{:?}",
        alone.errors
    );
    for other in [
        &["--capture"][..],
        &["--delay", "3"],
        &["--version"],
        &["-h"],
    ] {
        for line in [
            [&["--daemon"][..], other].concat(),
            [other, &["--daemon"]].concat(),
        ] {
            let p = parsed(&argv(&line));
            assert_eq!(p.errors, ["--daemon takes no other option"], "{line:?}");
        }
    }
}

/// A daemon prints nothing. A bare line and a lone `--daemon` run a
/// daemon; every option alone, an unknown option, and a `--daemon` line
/// in error print.
#[test]
fn only_a_daemon_line_prints_nothing() {
    for line in [&[][..], &["-psn_0_1"]] {
        assert!(!parsed(&argv(line)).prints(), "{line:?}");
    }
    for opt in &opts() {
        let line = alone(opt);
        let daemon = matches!(opt.takes, Takes::Daemon);
        assert_eq!(parsed(&line).prints(), !daemon, "{line:?}");
    }
    for line in [
        &["--bogus"][..],
        &["--daemon", "--bogus"],
        &["--daemon", "--capture"],
        &["--daemon", "-h"],
    ] {
        assert!(parsed(&argv(line)).prints(), "{line:?}");
    }
}

/// The daemon runs what the client forwards, so the forwarded argv must
/// parse to the commands the client parsed, in order. `--daemon` takes
/// no other option and is never forwarded.
#[test]
fn forwarded_argv_parses_to_the_same_commands() {
    let mut args: Vec<String> = opts()
        .iter()
        .filter(|opt| !matches!(opt.takes, Takes::Daemon))
        .flat_map(alone)
        .collect();
    args.insert(0, "--version".into());
    let client = parsed(&args);
    assert!(client.errors.is_empty(), "{:?}", client.errors);
    let daemon = parsed(&client.forward);
    assert!(daemon.errors.is_empty(), "{:?}", daemon.errors);
    assert!(daemon.local.is_empty(), "{:?}", daemon.local);
    assert_eq!(debug(&daemon.cmds), debug(&client.cmds));
    assert_eq!(daemon.forward, client.forward);
}

/// The daemon runs in its own working directory: a relative file must
/// leave the client absolute, resolved against the client's.
#[test]
fn a_relative_file_is_forwarded_absolute() {
    for flag in ["--annotate", "--toast"] {
        let p = parsed(&argv(&[flag, "Cargo.toml"]));
        assert!(p.errors.is_empty(), "{flag}: {:?}", p.errors);
        let abs = MANIFEST;
        assert_eq!(p.forward, [flag.to_string(), abs.to_string()]);
        let sent = debug(&p.cmds);
        assert_eq!(sent.len(), 1);
        assert!(sent[0].contains(&format!("{abs:?}")), "{flag}: {sent:?}");
    }
}

#[test]
fn bad_arguments_are_errors_and_are_not_forwarded() {
    let cases: [(&[&str], String); 10] = [
        (&["--captrue"], "unknown option '--captrue'".into()),
        (&["-x"], "unknown option '-x'".into()),
        (&["shot.png"], "unexpected argument 'shot.png'".into()),
        (&["--delay"], "--delay needs a number of seconds".into()),
        (
            &["--delay", "soon"],
            "--delay takes whole seconds, not 'soon'".into(),
        ),
        (
            &["--delay", "-1"],
            "--delay takes whole seconds, not '-1'".into(),
        ),
        (&["--annotate"], "--annotate needs a file".into()),
        (&["--toast", ""], "--toast needs a file".into()),
        (
            &["--annotate", MISSING],
            format!("--annotate: no file at {MISSING}"),
        ),
        (&["--toast", DIR], format!("--toast: no file at {DIR}")),
    ];
    for (args, want) in cases {
        let p = parsed(&argv(args));
        assert_eq!(p.errors, [want], "{args:?}");
        assert!(p.cmds.is_empty() && p.forward.is_empty(), "{args:?}");
        assert!(p.local.is_empty(), "{args:?}");
    }
}

/// An error drops only its own argument: the daemon still runs what it
/// understands from a newer client.
#[test]
fn an_error_leaves_the_other_arguments_parsed() {
    let p = parsed(&argv(&["--capture", "--from-a-newer-client", "--library"]));
    assert_eq!(p.errors, ["unknown option '--from-a-newer-client'"]);
    assert_eq!(debug(&p.cmds), debug(&[Command::Capture, Command::Library]));
    assert_eq!(p.forward, ["--capture", "--library"]);
}

/// Finder on older macOS appends `-psn_<serial>`; it is neither an
/// error nor a command, so the launch behaves as a bare `iris`.
#[test]
fn a_finder_process_serial_number_is_ignored() {
    let p = parsed(&argv(&["-psn_0_1234567"]));
    assert!(p.errors.is_empty() && p.cmds.is_empty() && p.forward.is_empty());
    assert!(p.local.is_empty());
}

#[test]
fn a_file_without_a_path_or_a_text_is_an_error() {
    let v = "shot.png";
    assert_eq!(
        iris::cli::file(v, &Probe::NoPath("no working directory".into())),
        Err("'shot.png': no working directory".to_string())
    );
    assert_eq!(
        iris::cli::file(v, &Probe::NoText("/w/shot".into())),
        Err("/w/shot is not valid UTF-8".to_string())
    );
    assert_eq!(
        iris::cli::file(v, &Probe::Found("/w/shot.png".into())),
        Ok(("/w/shot.png".to_string(), "/w/shot.png".to_string()))
    );
}

#[test]
fn a_delay_takes_every_whole_number_of_seconds() {
    for (text, secs) in [("0", 0u64), ("+7", 7), ("18446744073709551615", u64::MAX)] {
        let p = parsed(&argv(&["--delay", text]));
        assert!(p.errors.is_empty(), "{text}: {:?}", p.errors);
        assert_eq!(debug(&p.cmds), debug(&[Command::Delayed(secs)]));
        // The seconds travel as they were written.
        assert_eq!(p.forward, ["--delay", text]);
    }
    let p = parsed(&argv(&["--delay", "18446744073709551616"]));
    assert_eq!(
        p.errors,
        ["--delay takes whole seconds, not '18446744073709551616'"]
    );
}

#[test]
fn live_state_commands_never_spawn_a_daemon() {
    for cmds in [
        vec![Command::Quit],
        vec![Command::RecordPause],
        vec![Command::RecordMic],
        vec![Command::RecordPause, Command::RecordMic],
        vec![Command::Quit, Command::RecordPause],
    ] {
        assert!(live_daemon_only(&cmds), "{cmds:?}");
    }
}

#[test]
fn commands_that_start_work_may_spawn_one() {
    for cmds in [
        vec![],
        vec![Command::Capture],
        vec![Command::CaptureFullscreen],
        vec![Command::CaptureWindow],
        vec![Command::Delayed(3)],
        vec![Command::Library],
        vec![Command::Settings],
        vec![Command::Home],
        vec![Command::RecordToggle],
        vec![Command::RecordRegionPick],
        vec![Command::Annotate("shot.png".into())],
        vec![Command::Toast("shot.png".into())],
        vec![Command::Quit, Command::Capture],
        vec![Command::RecordPause, Command::RecordToggle],
    ] {
        assert!(!live_daemon_only(&cmds), "{cmds:?}");
    }
}

#[test]
fn every_failure_has_a_title() {
    for (cmd, title) in [
        (Command::Delayed(3), "Capture failed"),
        (Command::RecordRegionPick, "Recording failed"),
        (Command::RecordPause, "Pause failed"),
        (Command::RecordMic, "Microphone toggle failed"),
        (Command::Annotate("a.png".into()), "Editor did not open"),
        (Command::LibraryChanged, "Library did not refresh"),
        (
            Command::Failed {
                what: "Hotkeys failed".into(),
                err: "taken".into(),
            },
            "Hotkeys failed",
        ),
    ] {
        assert_eq!(cmd.failure_title(), title);
    }
}

#[test]
fn a_recording_is_stopped_by_an_option_of_its_own() {
    let p = parsed(&argv(&["--stop-recording"]));
    assert!(p.errors.is_empty(), "{:?}", p.errors);
    assert_eq!(debug(&p.cmds), ["RecordStop"]);
    assert!(live_daemon_only(&p.cmds));
    // Like every option it stands in the help once.
    let text = usage();
    let listed = text.lines().filter(|l| l.contains("--stop-recording")).count();
    assert_eq!(listed, 1);
}
