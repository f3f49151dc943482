use std::collections::VecDeque;
use std::time::Duration;

use base64::Engine;
use pane_output_stream::channel::{PaneOutputFrame, StreamAction, MAX_OUTPUT_FRAME_BYTES};
use pane_output_stream::output_stream::{PaneOutputSubscription, PendingStreams, TokenSource};
use pane_output_stream::session::{received_event, Action, Event, RecvOutcome, Session};
use pane_output_stream::subscription::{
    open_request, open_subscription, OpenOutcome, OpenRequest, PaneStreamOutputReplay,
};
use tokio::sync::broadcast;

/// What the app does when it is asked to open a subscription.
type Answer = Box<dyn FnMut(&OpenRequest, &mut PendingStreams) -> (String, String)>;

struct Server {
    runtime: tokio::runtime::Runtime,
    tokens: TokenSource,
    pending: PendingStreams,
    requests: Vec<(String, String, PaneStreamOutputReplay, u64)>,
    lines: Vec<String>,
    /// How many lines the client reads before it disconnects.
    reads: usize,
    /// How often the server may be asked before it wants to stop.
    checks: usize,
}

impl Server {
    fn new() -> Server {
        Server {
            runtime: runtime(),
            tokens: TokenSource::new(),
            pending: PendingStreams::new(),
            requests: Vec::new(),
            lines: Vec::new(),
            reads: usize::MAX,
            checks: usize::MAX,
        }
    }

    /// Runs one stream to its end; true where it ended without an error.
    fn serve(
        &mut self,
        request_id: &str,
        pane_id: &str,
        replay: PaneStreamOutputReplay,
        mut answer: Answer,
    ) -> bool {
        let (mut session, mut action) = Session::start(pane_id, replay);
        let mut receiver: Option<broadcast::Receiver<PaneOutputFrame>> = None;
        loop {
            let event = match action {
                Action::Finish => return true,
                Action::Fail => return false,
                Action::Open { replay } => {
                    let request = open_request(&mut self.tokens, request_id, pane_id, replay);
                    let token = request.token;
                    let (outcome, response) = answer(&request, &mut self.pending);
                    self.requests.push((request.id, request.pane_id, request.replay, token));
                    match open_subscription(&mut self.pending, token, &outcome, response) {
                        OpenOutcome::Claimed(entry) => {
                            let subscription = entry.subscription;
                            receiver = Some(subscription.receiver);
                            Event::Opened {
                                cols: subscription.cols,
                                rows: subscription.rows,
                                repaint_ansi: subscription.repaint_ansi,
                            }
                        }
                        OpenOutcome::Refused { response } => Event::Refused { response },
                        OpenOutcome::Unregistered => Event::Unregistered,
                    }
                }
                Action::Write(frame) => {
                    if self.lines.len() < self.reads {
                        self.lines.push(frame.to_line());
                        Event::Written
                    } else {
                        Event::ClientGone
                    }
                }
                Action::Forward { line } => {
                    self.lines.push(line);
                    Event::Written
                }
                Action::CheckStop => {
                    if self.checks == 0 {
                        Event::StopRequested
                    } else {
                        self.checks -= 1;
                        Event::KeepRunning
                    }
                }
                Action::Receive => {
                    let receiver = receiver.as_mut().expect("subscription");
                    let outcome = recv(&self.runtime, receiver);
                    received_event(outcome, receiver)
                }
            };
            assert!(session.accepts(&event));
            action = session.step(event);
        }
    }

    fn frames(&self) -> Vec<serde_json::Value> {
        self.lines
            .iter()
            .map(|line| {
                assert!(line.ends_with('\n'));
                serde_json::from_str(line).expect("a JSON object")
            })
            .collect()
    }
}

fn runtime() -> tokio::runtime::Runtime {
    tokio::runtime::Builder::new_multi_thread()
        .worker_threads(2)
        .enable_time()
        .build()
        .expect("runtime")
}

fn recv(
    runtime: &tokio::runtime::Runtime,
    receiver: &mut broadcast::Receiver<PaneOutputFrame>,
) -> RecvOutcome {
    let wait = Duration::from_millis(5);
    match runtime.block_on(async { tokio::time::timeout(wait, receiver.recv()).await }) {
        Err(_) => RecvOutcome::Timeout,
        Ok(Ok(frame)) => RecvOutcome::Frame(frame),
        Ok(Err(broadcast::error::RecvError::Lagged(_))) => RecvOutcome::Lagged,
        Ok(Err(broadcast::error::RecvError::Closed)) => RecvOutcome::Closed,
    }
}

fn decode_data(frame: &serde_json::Value) -> Vec<u8> {
    base64::engine::general_purpose::STANDARD
        .decode(frame["data"].as_str().expect("data field"))
        .expect("valid base64")
}

fn subscription(
    receiver: broadcast::Receiver<PaneOutputFrame>,
    repaint_ansi: Option<&str>,
) -> PaneOutputSubscription {
    PaneOutputSubscription {
        receiver,
        cols: 80,
        rows: 24,
        repaint_ansi: repaint_ansi.map(|ansi| ansi.to_owned()),
    }
}

/// An app that stashes the given subscriptions, one for each request.
fn stashing(
    server: &Server,
    subscriptions: Vec<PaneOutputSubscription>,
) -> Answer {
    let handle = server.runtime.handle().clone();
    let mut left: VecDeque<PaneOutputSubscription> = subscriptions.into();
    Box::new(move |request, pending| {
        let subscription = left.pop_front().expect("no more subscriptions");
        pending.stash(request.token, subscription, handle.clone(), 0, 0);
        ("ok".to_owned(), format!("{{\"id\":\"{}\",\"result\":{{}}}}", request.id))
    })
}

#[test]
fn stream_output_replays_screen_then_streams_until_pane_exit() {
    let mut server = Server::new();
    let (pane, receiver) = broadcast::channel(16);
    let answer = stashing(&server, vec![subscription(receiver, Some("replayed"))]);
    pane.send(PaneOutputFrame::Output(b"live-bytes".to_vec())).unwrap();
    drop(pane);

    assert!(server.serve("out_1", "pane_1", PaneStreamOutputReplay::default(), answer));

    assert_eq!(server.requests.len(), 1);
    assert_eq!(server.requests[0].0, "out_1");
    assert_eq!(server.requests[0].1, "pane_1");
    assert_eq!(server.requests[0].2, PaneStreamOutputReplay::Screen);

    let mut frames = server.frames().into_iter();
    let started = frames.next().unwrap();
    assert_eq!(started["type"], "stream_started");
    assert_eq!(started["pane_id"], "pane_1");
    assert_eq!(started["cols"], 80);
    assert_eq!(started["rows"], 24);

    let repaint = frames.next().unwrap();
    assert_eq!(repaint["type"], "repaint");
    assert_eq!(repaint["cols"], 80);
    let repaint_ansi = String::from_utf8(decode_data(&repaint)).unwrap();
    assert!(repaint_ansi.contains("replayed"));

    let output = frames.next().unwrap();
    assert_eq!(output["type"], "output");
    assert_eq!(output["seq"], 1);
    assert_eq!(decode_data(&output), b"live-bytes");

    let closed = frames.next().unwrap();
    assert_eq!(closed["type"], "closed");
    assert_eq!(closed["reason"], "pane_exited");
    assert!(frames.next().is_none());
}

#[test]
fn stream_output_forwards_open_errors_and_cleans_up() {
    let mut server = Server::new();
    let answer: Answer = Box::new(|_, _| {
        let error = "{\"id\":\"out_2\",\"error\":{\"code\":\"pane_not_found\",\"message\":\"pane gone not found\"}}";
        ("error".to_owned(), error.to_owned())
    });

    assert!(server.serve("out_2", "gone", PaneStreamOutputReplay::Nothing, answer));

    assert_eq!(server.requests.len(), 1);
    assert_eq!(server.requests[0].1, "gone");
    assert_eq!(server.requests[0].2, PaneStreamOutputReplay::Nothing);
    let token = server.requests[0].3;

    assert_eq!(server.lines.len(), 1);
    assert!(server.lines[0].ends_with("}\n"));
    let response: serde_json::Value = serde_json::from_str(&server.lines[0]).unwrap();
    assert_eq!(response["error"]["code"], "pane_not_found");
    assert!(server.pending.take(token).is_none());
}

#[test]
fn refusal_drops_an_entry_that_was_stashed_all_the_same() {
    let mut server = Server::new();
    let (_pane, receiver) = broadcast::channel(16);
    let handle = server.runtime.handle().clone();
    let mut late = Some(subscription(receiver, None));
    let answer: Answer = Box::new(move |request, pending| {
        pending.stash(request.token, late.take().unwrap(), handle.clone(), 0, 0);
        ("timeout".to_owned(), "{\"error\":{}}".to_owned())
    });
    assert!(server.serve("r", "p", PaneStreamOutputReplay::Screen, answer));
    assert_eq!(server.lines, vec!["{\"error\":{}}\n".to_owned()]);
    assert!(server.pending.take(server.requests[0].3).is_none());
}

#[test]
fn missing_registration_is_reported() {
    let mut server = Server::new();
    let answer: Answer = Box::new(|_, _| ("ok".to_owned(), "{}".to_owned()));
    assert!(server.serve("r", "p", PaneStreamOutputReplay::Screen, answer));
    assert_eq!(
        server.lines,
        vec![
            "{\"message\":\"output subscription was not registered\",\"type\":\"error\"}\n".to_owned()
        ]
    );
}

#[test]
fn slow_client_gets_lag_then_repaint() {
    let mut server = Server::new();
    let (pane, receiver) = broadcast::channel(2);
    let (fresh, fresh_receiver) = broadcast::channel(2);
    let answer = stashing(
        &server,
        vec![subscription(receiver, None), subscription(fresh_receiver, Some("screen"))],
    );
    for chunk in [&b"a"[..], b"b", b"c", b"d"] {
        pane.send(PaneOutputFrame::Output(chunk.to_vec())).unwrap();
    }
    fresh.send(PaneOutputFrame::Output(b"e".to_vec())).unwrap();
    drop(fresh);

    assert!(server.serve("r", "p", PaneStreamOutputReplay::Nothing, answer));

    let kinds: Vec<String> =
        server.frames().iter().map(|f| f["type"].as_str().unwrap().to_owned()).collect();
    assert_eq!(kinds, vec!["stream_started", "lag", "repaint", "output", "closed"]);
    assert_eq!(server.frames()[1]["dropped"], true);
    assert_eq!(decode_data(&server.frames()[2]), b"screen");
    assert_eq!(decode_data(&server.frames()[3]), b"e");
    assert_eq!(server.requests[0].2, PaneStreamOutputReplay::Nothing);
    assert_eq!(server.requests[1].2, PaneStreamOutputReplay::Screen);
    assert_eq!(server.requests[0].3, 1);
    assert_eq!(server.requests[1].3, 2);
}

#[test]
fn resync_without_a_screen_ends_the_stream() {
    let mut server = Server::new();
    let (pane, receiver) = broadcast::channel(1);
    let (_fresh, fresh_receiver) = broadcast::channel(1);
    let answer = stashing(
        &server,
        vec![subscription(receiver, None), subscription(fresh_receiver, None)],
    );
    pane.send(PaneOutputFrame::Output(b"a".to_vec())).unwrap();
    pane.send(PaneOutputFrame::Output(b"b".to_vec())).unwrap();
    assert!(server.serve("r", "p", PaneStreamOutputReplay::Nothing, answer));
    assert_eq!(server.frames().len(), 2);
    assert_eq!(server.frames()[1]["type"], "lag");
}

#[test]
fn frames_keep_the_order_of_the_pane() {
    let mut server = Server::new();
    let (pane, receiver) = broadcast::channel(16);
    let answer = stashing(&server, vec![subscription(receiver, None)]);
    pane.send(PaneOutputFrame::Output(b"one ".to_vec())).unwrap();
    pane.send(PaneOutputFrame::Output(b"two".to_vec())).unwrap();
    pane.send(PaneOutputFrame::Resized { cols: 100, rows: 30 }).unwrap();
    pane.send(PaneOutputFrame::Resized { cols: 101, rows: 31 }).unwrap();
    pane.send(PaneOutputFrame::Output(b"three".to_vec())).unwrap();
    drop(pane);

    assert!(server.serve("r", "p", PaneStreamOutputReplay::Nothing, answer));

    let frames = server.frames();
    assert_eq!(frames.len(), 6);
    assert_eq!(frames[1]["seq"], 1);
    assert_eq!(decode_data(&frames[1]), b"one two");
    assert_eq!(frames[2]["type"], "resized");
    assert_eq!(frames[2]["cols"], 100);
    assert_eq!(frames[2]["rows"], 30);
    assert_eq!(frames[3]["cols"], 101);
    assert_eq!(frames[4]["seq"], 2);
    assert_eq!(decode_data(&frames[4]), b"three");
    assert_eq!(frames[5]["type"], "closed");
}

#[test]
fn output_is_carried_whole_over_several_frames() {
    let mut server = Server::new();
    let (pane, receiver) = broadcast::channel(64);
    let answer = stashing(&server, vec![subscription(receiver, None)]);
    let mut all: Vec<u8> = Vec::new();
    for i in 0..20u8 {
        let chunk = vec![i; MAX_OUTPUT_FRAME_BYTES / 8];
        all.extend_from_slice(&chunk);
        pane.send(PaneOutputFrame::Output(chunk)).unwrap();
    }
    drop(pane);

    assert!(server.serve("r", "p", PaneStreamOutputReplay::Nothing, answer));

    let mut carried: Vec<u8> = Vec::new();
    let mut seqs: Vec<u64> = Vec::new();
    for frame in server.frames() {
        if frame["type"] == "output" {
            carried.extend_from_slice(&decode_data(&frame));
            seqs.push(frame["seq"].as_u64().unwrap());
        }
    }
    assert_eq!(carried, all);
    assert_eq!(seqs, vec![1, 2, 3]);
}

#[test]
fn coalesced_frames_hold_the_cap() {
    let mut server = Server::new();
    let (pane, receiver) = broadcast::channel(64);
    let answer = stashing(&server, vec![subscription(receiver, None)]);
    let mut all: Vec<u8> = Vec::new();
    for (i, len) in [100_000usize, 100_000, 100_000, 300_000, 700_000, 3].iter().enumerate() {
        let chunk = vec![i as u8; *len];
        all.extend_from_slice(&chunk);
        pane.send(PaneOutputFrame::Output(chunk)).unwrap();
    }
    pane.send(PaneOutputFrame::Resized { cols: 9, rows: 8 }).unwrap();
    drop(pane);

    assert!(server.serve("r", "p", PaneStreamOutputReplay::Nothing, answer));

    let mut carried: Vec<u8> = Vec::new();
    let mut lens: Vec<usize> = Vec::new();
    let mut kinds: Vec<String> = Vec::new();
    for (i, frame) in server.frames().iter().enumerate() {
        kinds.push(frame["type"].as_str().unwrap().to_owned());
        if frame["type"] == "output" {
            assert_eq!(frame["seq"], i);
            let data = decode_data(frame);
            lens.push(data.len());
            carried.extend_from_slice(&data);
        }
    }
    assert_eq!(carried, all);
    assert_eq!(lens, vec![262144, 37856, 300000, 700000, 3]);
    assert_eq!(kinds[6], "resized");
    assert_eq!(kinds[7], "closed");
}

#[test]
fn a_long_chunk_alone_is_one_frame() {
    let mut server = Server::new();
    server.checks = 1;
    let (pane, receiver) = broadcast::channel(64);
    let answer = stashing(&server, vec![subscription(receiver, None)]);
    pane.send(PaneOutputFrame::Output(vec![7; 300_000])).unwrap();
    assert!(server.serve("r", "p", PaneStreamOutputReplay::Nothing, answer));
    assert_eq!(server.lines.len(), 2);
    assert_eq!(decode_data(&server.frames()[1]), vec![7; 300_000]);
}

#[test]
fn output_that_was_taken_is_sent_before_a_stop() {
    let mut server = Server::new();
    server.checks = 1;
    let (pane, receiver) = broadcast::channel(64);
    let answer = stashing(&server, vec![subscription(receiver, None)]);
    pane.send(PaneOutputFrame::Output(b"a".to_vec())).unwrap();
    pane.send(PaneOutputFrame::Output(vec![7; MAX_OUTPUT_FRAME_BYTES])).unwrap();
    pane.send(PaneOutputFrame::Output(b"later".to_vec())).unwrap();
    assert!(server.serve("r", "p", PaneStreamOutputReplay::Nothing, answer));
    assert_eq!(server.lines.len(), 3);
    assert_eq!(decode_data(&server.frames()[1]).len(), MAX_OUTPUT_FRAME_BYTES);
    assert_eq!(decode_data(&server.frames()[2]), vec![7]);
}

#[test]
fn received_output_is_joined_by_what_is_ready() {
    let (pane, mut receiver) = broadcast::channel(4);
    pane.send(PaneOutputFrame::Output(b"b".to_vec())).unwrap();
    let first = RecvOutcome::Frame(PaneOutputFrame::Output(b"a".to_vec()));
    match received_event(first, &mut receiver) {
        Event::Output { bytes, rest, follow_up } => {
            assert_eq!(bytes, b"ab");
            assert!(rest.is_empty());
            assert_eq!(follow_up, StreamAction::Continue);
        }
        _ => panic!("output expected"),
    }
    let large = vec![3; MAX_OUTPUT_FRAME_BYTES + 5];
    pane.send(PaneOutputFrame::Output(b"c".to_vec())).unwrap();
    match received_event(RecvOutcome::Frame(PaneOutputFrame::Output(large)), &mut receiver) {
        Event::Output { bytes, rest, follow_up } => {
            assert_eq!(bytes, vec![3; MAX_OUTPUT_FRAME_BYTES + 5]);
            assert!(rest.is_empty());
            assert_eq!(follow_up, StreamAction::Continue);
        }
        _ => panic!("output expected"),
    }
    assert!(matches!(receiver.try_recv(), Ok(PaneOutputFrame::Output(_))));
}

#[test]
fn lag_behind_received_output_is_reported_after_it() {
    let (pane, mut receiver) = broadcast::channel(2);
    for chunk in [&b"b"[..], b"c", b"d"] {
        pane.send(PaneOutputFrame::Output(chunk.to_vec())).unwrap();
    }
    let first = RecvOutcome::Frame(PaneOutputFrame::Output(b"a".to_vec()));
    match received_event(first, &mut receiver) {
        Event::Output { bytes, follow_up, .. } => {
            assert_eq!(bytes, b"a");
            assert_eq!(follow_up, StreamAction::Lagged);
        }
        _ => panic!("output expected"),
    }
    let (_other, mut untouched) = broadcast::channel(1);
    let lagged = received_event(RecvOutcome::Lagged, &mut untouched);
    assert!(matches!(lagged, Event::Signal(StreamAction::Lagged)));
    let closed = received_event(RecvOutcome::Closed, &mut untouched);
    assert!(matches!(closed, Event::Signal(StreamAction::Closed)));
    assert!(matches!(received_event(RecvOutcome::Timeout, &mut untouched), Event::Idle));
    assert!(matches!(received_event(RecvOutcome::RuntimeGone, &mut untouched), Event::RuntimeGone));
}

#[test]
fn lost_client_ends_the_stream_without_an_error() {
    for reads in 0..4 {
        let mut server = Server::new();
        server.reads = reads;
        let (pane, receiver) = broadcast::channel(16);
        let answer = stashing(&server, vec![subscription(receiver, Some("screen"))]);
        pane.send(PaneOutputFrame::Output(b"bytes".to_vec())).unwrap();
        drop(pane);
        assert!(server.serve("r", "p", PaneStreamOutputReplay::Screen, answer));
        assert_eq!(server.lines.len(), reads);
    }
}

#[test]
fn stop_is_heeded_while_the_pane_is_idle() {
    let mut server = Server::new();
    server.checks = 3;
    let (_pane, receiver) = broadcast::channel(16);
    let answer = stashing(&server, vec![subscription(receiver, None)]);
    assert!(server.serve("r", "p", PaneStreamOutputReplay::Nothing, answer));
    assert_eq!(server.lines.len(), 1);
    assert_eq!(server.checks, 0);
}
