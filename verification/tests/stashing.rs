use pane_output_stream::channel::PaneOutputFrame;
use pane_output_stream::output_stream::{
    next_token, PaneOutputSubscription, PendingStreams, TokenSource, STASH_MAX_AGE_NANOS,
};
use pane_output_stream::subscription::{
    open_request, open_subscription, OpenOutcome, PaneStreamOutputReplay,
};
use tokio::sync::broadcast;

fn subscription(cols: u16) -> PaneOutputSubscription {
    let (_, receiver) = broadcast::channel::<PaneOutputFrame>(1);
    PaneOutputSubscription { receiver, cols, rows: 1, repaint_ansi: None }
}

fn runtime() -> tokio::runtime::Runtime {
    tokio::runtime::Builder::new_current_thread().build().unwrap()
}

#[test]
fn tokens_count_up_from_one() {
    let mut tokens = TokenSource::new();
    assert_eq!(next_token(&mut tokens), 1);
    assert_eq!(next_token(&mut tokens), 2);
    let request = open_request(&mut tokens, "id", "pane", PaneStreamOutputReplay::Nothing);
    assert_eq!(request.token, 3);
    assert_eq!(request.id, "id");
    assert_eq!(request.pane_id, "pane");
    assert_eq!(request.replay, PaneStreamOutputReplay::Nothing);
    assert_eq!(next_token(&mut tokens), 4);
}

#[test]
fn a_claim_gives_back_what_was_stashed_once() {
    let runtime = runtime();
    let mut pending = PendingStreams::new();
    assert!(pending.take(7).is_none());
    pending.stash(7, subscription(70), runtime.handle().clone(), 5, 6);
    pending.stash(8, subscription(80), runtime.handle().clone(), 6, 6);
    let entry = pending.take(7).unwrap();
    assert_eq!(entry.subscription.cols, 70);
    assert_eq!(entry.stashed_at, 5);
    assert!(pending.take(7).is_none());
    assert_eq!(pending.take(8).unwrap().subscription.cols, 80);
}

#[test]
fn a_second_stash_replaces_the_first() {
    let runtime = runtime();
    let mut pending = PendingStreams::new();
    pending.stash(7, subscription(70), runtime.handle().clone(), 0, 0);
    pending.stash(7, subscription(71), runtime.handle().clone(), 0, 0);
    assert_eq!(pending.take(7).unwrap().subscription.cols, 71);
    assert!(pending.take(7).is_none());
}

#[test]
fn old_entries_are_evicted() {
    assert_eq!(STASH_MAX_AGE_NANOS, 60_000_000_000);
    let runtime = runtime();
    let mut pending = PendingStreams::new();
    pending.stash(1, subscription(1), runtime.handle().clone(), 0, 0);
    pending.stash(2, subscription(2), runtime.handle().clone(), 1, 1);
    pending.stash(3, subscription(3), runtime.handle().clone(), 90_000_000_000, 2);
    let now = STASH_MAX_AGE_NANOS;
    pending.stash(4, subscription(4), runtime.handle().clone(), 0, now);
    assert!(pending.take(1).is_none());
    assert_eq!(pending.take(2).unwrap().subscription.cols, 2);
    assert_eq!(pending.take(3).unwrap().subscription.cols, 3);
    assert_eq!(pending.take(4).unwrap().subscription.cols, 4);
}

#[test]
fn an_answer_is_judged_by_its_outcome() {
    let runtime = runtime();
    let mut pending = PendingStreams::new();
    for token in 1..=3u64 {
        pending.stash(token, subscription(token as u16), runtime.handle().clone(), 0, 0);
    }
    match open_subscription(&mut pending, 1, "ok", "{}".to_owned()) {
        OpenOutcome::Claimed(entry) => assert_eq!(entry.subscription.cols, 1),
        _ => panic!("claim expected"),
    }
    match open_subscription(&mut pending, 2, "error", "no".to_owned()) {
        OpenOutcome::Refused { response } => assert_eq!(response, "no"),
        _ => panic!("refusal expected"),
    }
    match open_subscription(&mut pending, 2, "ok", "{}".to_owned()) {
        OpenOutcome::Unregistered => {}
        _ => panic!("nothing can be claimed"),
    }
    assert!(pending.take(3).is_some());
}
