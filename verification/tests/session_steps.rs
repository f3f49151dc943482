use pane_output_stream::channel::StreamAction;
use pane_output_stream::session::{Action, Event, Session};
use pane_output_stream::subscription::PaneStreamOutputReplay;
use pane_output_stream::wire::OutputFrame;

fn opened(repaint_ansi: Option<&str>) -> Event {
    Event::Opened { cols: 80, rows: 24, repaint_ansi: repaint_ansi.map(|a| a.to_owned()) }
}

/// A session that awaits the pane.
fn receiving() -> Session {
    let (mut session, first) = Session::start("p", PaneStreamOutputReplay::Nothing);
    assert!(matches!(first, Action::Open { replay: PaneStreamOutputReplay::Nothing }));
    assert!(matches!(session.step(opened(None)), Action::Write(OutputFrame::StreamStarted { .. })));
    assert!(matches!(session.step(Event::Written), Action::CheckStop));
    assert!(matches!(session.step(Event::KeepRunning), Action::Receive));
    session
}

#[test]
fn idle_pane_is_polled_again() {
    let mut session = receiving();
    assert!(matches!(session.step(Event::Idle), Action::CheckStop));
    assert!(matches!(session.step(Event::KeepRunning), Action::Receive));
    assert!(matches!(session.step(Event::RuntimeGone), Action::Finish));
}

#[test]
fn follow_up_comes_after_the_output() {
    let mut session = receiving();
    let bytes = b"x".to_vec();
    let follow_up = StreamAction::Resized { cols: 7, rows: 9 };
    match session.step(Event::Output { bytes, rest: Vec::new(), follow_up }) {
        Action::Write(OutputFrame::Output { seq, bytes }) => {
            assert_eq!(seq, 1);
            assert_eq!(bytes, b"x");
        }
        _ => panic!("output expected"),
    }
    match session.step(Event::Written) {
        Action::Write(OutputFrame::Resized { cols, rows }) => assert_eq!((cols, rows), (7, 9)),
        _ => panic!("resized expected"),
    }
    assert!(matches!(session.step(Event::Written), Action::CheckStop));
}

#[test]
fn rest_comes_before_the_follow_up() {
    let mut session = receiving();
    session.step(Event::Output {
        bytes: b"x".to_vec(),
        rest: b"yz".to_vec(),
        follow_up: StreamAction::Closed,
    });
    match session.step(Event::Written) {
        Action::Write(OutputFrame::Output { seq, bytes }) => {
            assert_eq!(seq, 2);
            assert_eq!(bytes, b"yz");
        }
        _ => panic!("output expected"),
    }
    assert!(matches!(session.step(Event::Written), Action::Write(OutputFrame::Closed)));
}

#[test]
fn follow_up_is_dropped_with_the_client() {
    let mut session = receiving();
    session.step(Event::Output {
        bytes: b"x".to_vec(),
        rest: b"y".to_vec(),
        follow_up: StreamAction::Closed,
    });
    assert!(matches!(session.step(Event::ClientGone), Action::Finish));
    assert!(!session.accepts(&Event::Written));
}

#[test]
fn error_ends_the_stream_with_an_error() {
    let (mut session, _) = Session::start("p", PaneStreamOutputReplay::Screen);
    session.step(Event::Refused { response: "no".to_owned() });
    assert!(matches!(session.step(Event::Failed), Action::Fail));

    let (mut session, _) = Session::start("p", PaneStreamOutputReplay::Screen);
    session.step(opened(Some("screen")));
    assert!(matches!(session.step(Event::Failed), Action::Fail));

    let mut session = receiving();
    session.step(Event::Idle);
    assert!(matches!(session.step(Event::Failed), Action::Fail));

    let mut session = receiving();
    session.step(Event::Signal(StreamAction::Lagged));
    session.step(Event::Written);
    session.step(Event::Unregistered);
    assert!(matches!(session.step(Event::Failed), Action::Fail));
}

#[test]
fn refusal_is_forwarded_and_ends_the_stream() {
    for sent in [Event::Written, Event::ClientGone] {
        let (mut session, _) = Session::start("p", PaneStreamOutputReplay::Screen);
        match session.step(Event::Refused { response: "{\"error\":1}".to_owned() }) {
            Action::Forward { line } => assert_eq!(line, "{\"error\":1}\n"),
            _ => panic!("the answer expected"),
        }
        assert!(matches!(session.step(sent), Action::Finish));
    }
}

#[test]
fn missing_registration_after_a_lag_ends_the_stream() {
    for sent in [Event::Written, Event::ClientGone] {
        let mut session = receiving();
        session.step(Event::Signal(StreamAction::Lagged));
        session.step(Event::Written);
        match session.step(Event::Unregistered) {
            Action::Write(OutputFrame::Error { message }) => {
                assert_eq!(message, "output subscription was not registered");
            }
            _ => panic!("error expected"),
        }
        assert!(matches!(session.step(sent), Action::Finish));
    }
}

#[test]
fn error_on_the_last_frame_is_no_error() {
    for last in [Event::Written, Event::ClientGone, Event::Failed] {
        let mut session = receiving();
        let closed = session.step(Event::Signal(StreamAction::Closed));
        assert!(matches!(closed, Action::Write(OutputFrame::Closed)));
        assert!(matches!(session.step(last), Action::Finish));
    }
}

#[test]
fn lag_reopens_with_the_screen() {
    let mut session = receiving();
    let lag = session.step(Event::Signal(StreamAction::Lagged));
    assert!(matches!(lag, Action::Write(OutputFrame::Lag)));
    let reopen = session.step(Event::Written);
    assert!(matches!(reopen, Action::Open { replay: PaneStreamOutputReplay::Screen }));
    match session.step(opened(Some("fresh"))) {
        Action::Write(OutputFrame::Repaint { ansi, cols, rows }) => {
            assert_eq!(ansi, "fresh");
            assert_eq!((cols, rows), (80, 24));
        }
        _ => panic!("repaint expected"),
    }
    assert!(matches!(session.step(Event::Written), Action::CheckStop));
}

#[test]
fn numbers_go_on_across_a_lag() {
    let mut session = receiving();
    for expected in 1..=3u64 {
        let output = session.step(Event::Output {
            bytes: Vec::new(),
            rest: Vec::new(),
            follow_up: StreamAction::Lagged,
        });
        match output {
            Action::Write(OutputFrame::Output { seq, .. }) => assert_eq!(seq, expected),
            _ => panic!("output expected"),
        }
        assert!(matches!(session.step(Event::Written), Action::Write(OutputFrame::Lag)));
        session.step(Event::Written);
        session.step(opened(Some("s")));
        session.step(Event::Written);
        session.step(Event::KeepRunning);
    }
}

#[test]
fn only_what_an_action_can_bring_is_accepted() {
    let (session, _) = Session::start("p", PaneStreamOutputReplay::Screen);
    assert!(session.accepts(&Event::Unregistered));
    assert!(!session.accepts(&Event::Failed));
    assert!(session.accepts(&opened(None)));
    assert!(!session.accepts(&Event::Written));
    let session = receiving();
    assert!(session.accepts(&Event::Signal(StreamAction::Continue)));
    assert!(!session.accepts(&Event::Failed));
    assert!(!session.accepts(&Event::StopRequested));
    let output = Event::Output {
        bytes: Vec::new(),
        rest: Vec::new(),
        follow_up: StreamAction::Continue,
    };
    assert!(session.accepts(&output));
}
