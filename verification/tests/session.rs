use stepshot::session::{join_path, oneshot_folder, session_folder};
use stepshot::i18n::{strings_for, Lang};
use stepshot::model::{Button, Step};
use stepshot::session::{output_base, Action, OutputBaseError, Recorder, Session};
use stepshot::tray::Cmd;

fn step(index: usize) -> Step {
    Step::captured(index, Button::Left, "12:00:00".to_string(), None, None)
}

#[test]
fn session_numbers_steps_from_one() {
    let mut s = Session::new("/tmp/s".to_string(), "2026-01-01 12:00:00".to_string());
    assert_eq!(s.next_index(), Some(1));
    s.steps.push(step(1));
    assert_eq!(s.next_index(), Some(2));
}

#[test]
fn start_record_stop() {
    let en = strings_for(Lang::En);
    let mut r = Recorder::new();
    assert!(!r.is_recording());
    assert_eq!(r.click_index(), None);
    assert!(matches!(r.handle(Cmd::Start, &en), Action::BeginSession));
    assert!(!r.is_recording());
    r.begin("/tmp/session-1".to_string(), "2026-01-01 12:00:00".to_string());
    assert!(r.is_recording());
    assert!(matches!(r.handle(Cmd::Start, &en), Action::Nothing));
    assert_eq!(r.click_index(), Some(1));
    assert!(matches!(r.record(step(1)), Action::WriteLiveReports { steps: 1 }));
    assert_eq!(r.click_index(), Some(2));
    assert!(matches!(r.record(step(2)), Action::WriteLiveReports { steps: 2 }));
    match r.handle(Cmd::Stop, &en) {
        Action::EndSession { session, write_report, notice } => {
            assert_eq!(session.dir, "/tmp/session-1");
            assert_eq!(session.started, "2026-01-01 12:00:00");
            assert_eq!(session.steps.len(), 2);
            assert!(write_report);
            assert_eq!(notice.as_deref(), Some("Recording stopped — 2 step(s). Report saved."));
        }
        other => panic!("unexpected action {other:?}"),
    }
    assert!(!r.is_recording());
    assert!(r.running);
    assert!(matches!(r.handle(Cmd::Stop, &en), Action::Nothing));
    match r.handle(Cmd::OpenFolder, &en) {
        Action::OpenFolder(d) => assert_eq!(d, "/tmp/session-1"),
        other => panic!("unexpected action {other:?}"),
    }
}

#[test]
fn stopping_an_empty_session_writes_no_report() {
    let de = strings_for(Lang::De);
    let mut r = Recorder::new();
    r.begin("d".to_string(), "t".to_string());
    match r.handle(Cmd::Stop, &de) {
        Action::EndSession { write_report, notice, .. } => {
            assert!(!write_report);
            assert_eq!(notice.as_deref(), Some("Aufnahme beendet — 0 Schritt(e). Bericht gespeichert."));
        }
        other => panic!("unexpected action {other:?}"),
    }
}

#[test]
fn quit_ends_the_session_without_notice() {
    let en = strings_for(Lang::En);
    let mut r = Recorder::new();
    r.begin("d".to_string(), "t".to_string());
    assert!(matches!(r.record(step(1)), Action::WriteLiveReports { steps: 1 }));
    match r.handle(Cmd::Quit, &en) {
        Action::EndSession { session, write_report, notice } => {
            assert_eq!(session.steps.len(), 1);
            assert!(write_report);
            assert!(notice.is_none());
        }
        other => panic!("unexpected action {other:?}"),
    }
    assert!(!r.running);
    assert!(!r.is_recording());
}

#[test]
fn idle_commands_do_nothing() {
    let en = strings_for(Lang::En);
    let mut r = Recorder::new();
    assert!(matches!(r.handle(Cmd::Stop, &en), Action::Nothing));
    assert!(matches!(r.handle(Cmd::OpenFolder, &en), Action::Nothing));
    assert!(matches!(r.record(step(1)), Action::Nothing));
    assert!(matches!(r.handle(Cmd::Quit, &en), Action::Nothing));
    assert!(!r.running);
}

#[test]
fn disconnect_stops_the_loop() {
    let mut r = Recorder::new();
    r.begin("d".to_string(), "t".to_string());
    r.disconnect();
    assert!(!r.running);
    assert!(r.is_recording());
}

#[test]
fn output_base_prefers_a_plain_argument() {
    assert_eq!(output_base(Some("/data/shots".to_string()), None), Ok("/data/shots".to_string()));
    assert_eq!(
        output_base(Some("--verbose".to_string()), Some("/home/u".to_string())),
        Ok("/home/u/Pictures/stepshot".to_string())
    );
    assert_eq!(
        output_base(None, Some("/home/u/".to_string())),
        Ok("/home/u/Pictures/stepshot".to_string())
    );
    assert_eq!(output_base(None, Some(String::new())), Ok("Pictures/stepshot".to_string()));
    assert_eq!(output_base(Some("-".to_string()), None), Err(OutputBaseError::HomeNotSet));
    assert_eq!(output_base(None, None), Err(OutputBaseError::HomeNotSet));
}

#[test]
fn session_folders_live_under_the_base() {
    assert_eq!(
        session_folder("/home/u/Pictures/stepshot".to_string(), "2026-01-01_12-00-00"),
        "/home/u/Pictures/stepshot/session-2026-01-01_12-00-00"
    );
    assert_eq!(oneshot_folder("out/".to_string(), "12-00-00"), "out/oneshot-12-00-00");
    assert_eq!(join_path(String::new(), "x"), "x");
    let base = output_base(None, Some("/home/u".to_string())).unwrap();
    assert_eq!(session_folder(base, "t"), "/home/u/Pictures/stepshot/session-t");
}

#[test]
fn captured_steps_carry_their_screenshot_name() {
    let s = Step::captured(7, Button::Right, "09:30:00".to_string(), Some("W".to_string()), None);
    assert_eq!(s.index, 7);
    assert_eq!(s.image_file, "step-007.png");
    assert_eq!(s.window_title.as_deref(), Some("W"));
    assert_eq!(s.time, "09:30:00");
}
