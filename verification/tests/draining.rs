use pane_output_stream::channel::{
    absorb_poll, drain_ready_output, PaneOutputFrame, Poll, StreamAction, MAX_OUTPUT_FRAME_BYTES,
};
use tokio::sync::broadcast;

fn output(bytes: &[u8]) -> PaneOutputFrame {
    PaneOutputFrame::Output(bytes.to_vec())
}

#[test]
fn one_answer_is_absorbed() {
    let mut buffer = b"a".to_vec();
    let mut rest: Vec<u8> = Vec::new();
    assert_eq!(absorb_poll(&mut buffer, &mut rest, Poll::Frame(output(b"bc"))), None);
    assert_eq!(buffer, b"abc");
    let resized = Poll::Frame(PaneOutputFrame::Resized { cols: 3, rows: 4 });
    let ended = absorb_poll(&mut buffer, &mut rest, resized);
    assert_eq!(ended, Some(StreamAction::Resized { cols: 3, rows: 4 }));
    assert_eq!(absorb_poll(&mut buffer, &mut rest, Poll::Empty), Some(StreamAction::Continue));
    assert_eq!(absorb_poll(&mut buffer, &mut rest, Poll::Lagged(9)), Some(StreamAction::Lagged));
    assert_eq!(absorb_poll(&mut buffer, &mut rest, Poll::Closed), Some(StreamAction::Closed));
    assert_eq!(buffer, b"abc");
}

#[test]
fn ready_output_is_coalesced() {
    let (pane, mut receiver) = broadcast::channel(16);
    pane.send(output(b"b")).unwrap();
    pane.send(output(b"")).unwrap();
    pane.send(output(b"cd")).unwrap();
    let mut buffer = b"a".to_vec();
    let mut rest: Vec<u8> = Vec::new();
    assert_eq!(drain_ready_output(&mut receiver, &mut buffer, &mut rest), StreamAction::Continue);
    assert_eq!(buffer, b"abcd");
    assert_eq!(drain_ready_output(&mut receiver, &mut buffer, &mut rest), StreamAction::Continue);
    assert_eq!(buffer, b"abcd");
}

#[test]
fn draining_stops_at_a_new_size() {
    let (pane, mut receiver) = broadcast::channel(16);
    pane.send(output(b"b")).unwrap();
    pane.send(PaneOutputFrame::Resized { cols: 10, rows: 20 }).unwrap();
    pane.send(output(b"c")).unwrap();
    let mut buffer = b"a".to_vec();
    let mut rest: Vec<u8> = Vec::new();
    let action = drain_ready_output(&mut receiver, &mut buffer, &mut rest);
    assert_eq!(action, StreamAction::Resized { cols: 10, rows: 20 });
    assert_eq!(buffer, b"ab");
    assert_eq!(drain_ready_output(&mut receiver, &mut buffer, &mut rest), StreamAction::Continue);
    assert_eq!(buffer, b"abc");
}

#[test]
fn draining_reports_the_end_after_the_output() {
    let (pane, mut receiver) = broadcast::channel(16);
    pane.send(output(b"b")).unwrap();
    drop(pane);
    let mut buffer = b"a".to_vec();
    let mut rest: Vec<u8> = Vec::new();
    assert_eq!(drain_ready_output(&mut receiver, &mut buffer, &mut rest), StreamAction::Closed);
    assert_eq!(buffer, b"ab");
}

#[test]
fn draining_reports_a_lag() {
    let (pane, mut receiver) = broadcast::channel(1);
    pane.send(output(b"b")).unwrap();
    pane.send(output(b"c")).unwrap();
    let mut buffer = b"a".to_vec();
    let mut rest: Vec<u8> = Vec::new();
    assert_eq!(drain_ready_output(&mut receiver, &mut buffer, &mut rest), StreamAction::Lagged);
    assert_eq!(buffer, b"a");
}

#[test]
fn draining_holds_the_cap() {
    assert_eq!(MAX_OUTPUT_FRAME_BYTES, 262144);
    let (pane, mut receiver) = broadcast::channel(16);
    pane.send(PaneOutputFrame::Output(vec![1; MAX_OUTPUT_FRAME_BYTES - 2])).unwrap();
    pane.send(output(b"xy")).unwrap();
    pane.send(output(b"z")).unwrap();
    let mut buffer = b"a".to_vec();
    let mut rest: Vec<u8> = Vec::new();
    let action = drain_ready_output(&mut receiver, &mut buffer, &mut rest);
    assert_eq!(action, StreamAction::Continue);
    assert_eq!(buffer.len(), MAX_OUTPUT_FRAME_BYTES);
    assert_eq!(buffer.last(), Some(&b'x'));
    assert_eq!(rest, b"y");

    let action = drain_ready_output(&mut receiver, &mut buffer, &mut rest);
    assert_eq!(action, StreamAction::Continue);
    assert_eq!(buffer.len(), MAX_OUTPUT_FRAME_BYTES);
    assert_eq!(rest, b"y");

    let mut next = rest;
    let mut more: Vec<u8> = Vec::new();
    let action = drain_ready_output(&mut receiver, &mut next, &mut more);
    assert_eq!(action, StreamAction::Continue);
    assert_eq!(next, b"yz");
    assert!(more.is_empty());
}

#[test]
fn a_frame_that_is_exactly_full_puts_nothing_aside() {
    let (pane, mut receiver) = broadcast::channel(16);
    pane.send(PaneOutputFrame::Output(vec![1; MAX_OUTPUT_FRAME_BYTES - 1])).unwrap();
    drop(pane);
    let mut buffer = b"a".to_vec();
    let mut rest: Vec<u8> = Vec::new();
    let action = drain_ready_output(&mut receiver, &mut buffer, &mut rest);
    assert_eq!(action, StreamAction::Continue);
    assert_eq!(buffer.len(), MAX_OUTPUT_FRAME_BYTES);
    assert!(rest.is_empty());
    let mut next: Vec<u8> = Vec::new();
    let action = drain_ready_output(&mut receiver, &mut next, &mut rest);
    assert_eq!(action, StreamAction::Closed);
    assert!(next.is_empty());
}

#[test]
fn a_long_buffer_is_left_as_it_is() {
    let (pane, mut receiver) = broadcast::channel(16);
    pane.send(output(b"x")).unwrap();
    let mut buffer = vec![5; MAX_OUTPUT_FRAME_BYTES + 3];
    let mut rest: Vec<u8> = Vec::new();
    let action = drain_ready_output(&mut receiver, &mut buffer, &mut rest);
    assert_eq!(action, StreamAction::Continue);
    assert_eq!(buffer, vec![5; MAX_OUTPUT_FRAME_BYTES + 3]);
    assert!(rest.is_empty());
    assert!(matches!(receiver.try_recv(), Ok(PaneOutputFrame::Output(_))));
}
