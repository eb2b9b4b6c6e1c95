//! From a command line to what the daemon does.

use iris::cli::{parse, Local, Parsed, Probe};
use iris::command::Command;
use iris::daemon::{
    delivered, dispatch, landed, launch, open_session, report, run, whole_frame, Launch, Live,
    Opening, Pooled, Step, Told,
};
use iris::screen::WinRect;
use iris::socket::{accept_args, forward_if_running, payload, read_enough, Forward};

fn line(args: &[&str]) -> Parsed {
    let args: Vec<String> = args.iter().map(|a| a.to_string()).collect();
    let files: Vec<Probe> = args.iter().map(|a| Probe::Missing(a.clone())).collect();
    parse(&args, &files)
}

fn strings(args: &[&str]) -> Vec<String> {
    args.iter().map(|a| a.to_string()).collect()
}

#[test]
fn a_command_line_decides_what_the_process_is() {
    match launch(&line(&["--captrue"])) {
        Launch::Refuse(lines) => assert_eq!(
            lines,
            [
                "iris: unknown option '--captrue'",
                "iris: run 'iris --help' for the options"
            ]
        ),
        _ => panic!("refused"),
    }
    // Help wins over a mistake beside it.
    assert!(matches!(launch(&line(&["--captrue", "-h"])), Launch::Local(Local::Help)));
    assert!(matches!(launch(&line(&["--version"])), Launch::Local(Local::Version)));
    assert!(matches!(launch(&line(&["--daemon"])), Launch::Daemon));
    assert!(matches!(launch(&line(&["--quit"])), Launch::Deliver { quiet: true }));
    assert!(matches!(
        launch(&line(&["--record-pause"])),
        Launch::Deliver { quiet: false }
    ));
    assert!(matches!(launch(&line(&["--capture"])), Launch::Forward));
    assert!(matches!(launch(&line(&[])), Launch::Forward));
    assert_eq!(delivered(true, false), None);
    assert_eq!(delivered(false, true), None);
    assert_eq!(
        delivered(false, false),
        Some("iris: no iris daemon is running".to_string())
    );
}

#[test]
fn what_is_forwarded_arrives_as_it_was_sent() {
    for args in [
        vec!["--capture"],
        vec!["--annotate", "/a b/shot.png", "--library"],
        vec!["--delay", "3"],
    ] {
        let args = strings(&args);
        assert_eq!(accept_args(&payload(&args)), args);
    }
    assert_eq!(payload(&strings(&["a", "b"])), "a\nb");
    // Empty lines carry nothing, and a line may end in a carriage return.
    assert_eq!(accept_args("--capture\n\n--library\n"), ["--capture", "--library"]);
}

#[test]
fn a_bare_call_shows_home_or_becomes_the_daemon() {
    assert!(matches!(forward_if_running(&strings(&[]), true), Forward::Send(p) if p == "--home"));
    assert!(matches!(forward_if_running(&strings(&[]), false), Forward::Become));
    assert!(
        matches!(forward_if_running(&strings(&["--quit"]), true), Forward::Send(p) if p == "--quit")
    );
    assert!(
        matches!(forward_if_running(&strings(&["--capture"]), false), Forward::Spawn(p) if p == "--capture")
    );
}

#[test]
fn a_client_may_not_send_without_end() {
    assert!(!read_enough(0, 0));
    assert!(read_enough(usize::MAX, 0));
    assert!(read_enough(0, u64::MAX));
}

fn idle() -> Live {
    Live { recording: false, ended: false, ready: Ok(()), region: Ok(()) }
}

fn busy() -> Live {
    Live { recording: true, ..idle() }
}

#[test]
fn there_is_one_recording_at_a_time() {
    assert!(matches!(dispatch(&Command::RecordToggle, &idle()), Ok(Step::StartRecording)));
    assert!(matches!(dispatch(&Command::RecordToggle, &busy()), Ok(Step::StopRecording)));
    assert!(matches!(dispatch(&Command::RecordRegionPick, &idle()), Ok(Step::PickRegion)));
    assert_eq!(
        dispatch(&Command::RecordRegionPick, &busy()).err(),
        Some("a recording is already active".to_string())
    );
    let region = Command::RecordRegion { x: 1, y: -2, w: 30, h: 40 };
    match dispatch(&region, &idle()) {
        Ok(Step::StartRegion(r)) => {
            assert_eq!(r, WinRect { x: 1, y: -2, width: 30, height: 40 })
        }
        _ => panic!("starts"),
    }
    assert_eq!(
        dispatch(&region, &busy()).err(),
        Some("a recording is already active".to_string())
    );
    let empty = Command::RecordRegion { x: 0, y: 0, w: -5, h: 7 };
    assert_eq!(dispatch(&empty, &idle()).err(), Some("empty region -5x7".to_string()));
}

#[test]
fn a_command_without_a_recording_fails_with_its_title() {
    for (cmd, title) in [
        (Command::RecordPause, "Pause failed"),
        (Command::RecordMic, "Microphone toggle failed"),
    ] {
        match run(&cmd, &idle()) {
            Step::Notice { title: t, text } => {
                assert_eq!(t, title);
                assert_eq!(text, "no recording is active");
            }
            _ => panic!("fails"),
        }
    }
    assert!(matches!(run(&Command::RecordPause, &busy()), Step::TogglePause));
    assert!(matches!(run(&Command::RecordMic, &busy()), Step::ToggleMic));
    let unready = Live { ready: Err("ffmpeg is not installed".into()), ..idle() };
    match run(&Command::RecordToggle, &unready) {
        Step::Notice { title, text } => {
            assert_eq!((title.as_str(), text.as_str()), ("Recording failed", "ffmpeg is not installed"))
        }
        _ => panic!("fails"),
    }
}

#[test]
fn an_ended_recording_is_collected_once() {
    let ended = Live { ended: true, ..busy() };
    assert!(matches!(dispatch(&Command::RecordingEnded, &ended), Ok(Step::StopRecording)));
    assert!(matches!(dispatch(&Command::RecordingEnded, &busy()), Ok(Step::Nothing)));
    assert!(matches!(dispatch(&Command::RecordingEnded, &idle()), Ok(Step::Nothing)));
}

#[test]
fn the_other_commands_open_what_they_name() {
    assert!(matches!(dispatch(&Command::Home, &idle()), Ok(Step::Home)));
    assert!(matches!(dispatch(&Command::Capture, &idle()), Ok(Step::CaptureRegion)));
    assert!(matches!(dispatch(&Command::Delayed(3), &idle()), Ok(Step::Later(3))));
    assert!(
        matches!(dispatch(&Command::Annotate("/a.png".into()), &idle()), Ok(Step::Annotate(p)) if p == "/a.png")
    );
    assert!(matches!(dispatch(&Command::LibraryChanged, &idle()), Ok(Step::RefreshLibrary)));
    assert!(matches!(dispatch(&Command::Quit, &idle()), Ok(Step::Quit)));
}

#[test]
fn results_are_told() {
    assert!(
        matches!(report(Ok(Some("/r.mp4".into()))), Told::Saved { title, path } if title == "Recording saved" && path == "/r.mp4")
    );
    assert!(matches!(report(Ok(None)), Told::Nothing));
    assert!(
        matches!(report(Err("disk full".into())), Told::Failed { title, text } if title == "Recording failed" && text == "disk full")
    );
    assert!(matches!(landed(Ok("/s.png".into()), true), Told::Toast(p) if p == "/s.png"));
    assert!(matches!(landed(Ok("/s.png".into()), false), Told::Nothing));
    assert!(
        matches!(landed(Err("no frame".into()), true), Told::Failed { title, .. } if title == "Capture failed")
    );
}

#[test]
fn a_parked_window_is_used_again() {
    assert_eq!(open_session(Pooled::Nothing), Opening::Fresh { drop_pooled: false });
    assert_eq!(open_session(Pooled::Window { hidden: true }), Opening::Reuse);
    assert_eq!(open_session(Pooled::Window { hidden: false }), Opening::Busy);
    assert_eq!(open_session(Pooled::Dead), Opening::Fresh { drop_pooled: true });
}

#[test]
fn a_whole_frame_needs_all_its_bytes() {
    let img = whole_frame(2, 1, &vec![1, 2, 3, 4, 5, 6, 7, 8]).unwrap();
    assert_eq!(img.get(1, 0).r, 5);
    assert_eq!(
        whole_frame(2, 2, &vec![0; 8]).err(),
        Some("frame buffer size mismatch".to_string())
    );
}

#[test]
fn stopping_never_starts_a_recording() {
    assert!(matches!(dispatch(&Command::RecordStop, &busy()), Ok(Step::StopRecording)));
    assert_eq!(
        dispatch(&Command::RecordStop, &idle()).err(),
        Some("no recording is active".to_string())
    );
    match run(&Command::RecordStop, &idle()) {
        Step::Notice { title, text } => {
            assert_eq!((title.as_str(), text.as_str()), ("Stop failed", "no recording is active"))
        }
        _ => panic!("fails"),
    }
    assert!(matches!(
        launch(&line(&["--stop-recording"])),
        Launch::Deliver { quiet: false }
    ));
}
