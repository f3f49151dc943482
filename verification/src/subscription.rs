//! Opening a subscription: the request to the app, and what its answer means.

use crate::output_stream::{
    next_token, token_after, PendingOutputStream, PendingStreams, TokenSource,
};
use vstd::prelude::*;

verus! {

/// What a new subscriber is shown before live output.
#[derive(Clone, Copy, Debug, PartialEq, Eq, Structural)]
pub enum PaneStreamOutputReplay {
    /// The current visible screen.
    Screen,
    /// Only output that is produced after subscribing.
    Nothing,
}

impl Default for PaneStreamOutputReplay {
    fn default() -> (replay: PaneStreamOutputReplay)
        ensures
            replay == PaneStreamOutputReplay::Screen,
    {
        PaneStreamOutputReplay::Screen
    }
}

/// The request that asks the app to stash a subscription under `token`.
pub struct OpenRequest {
    pub id: String,
    pub pane_id: String,
    pub replay: PaneStreamOutputReplay,
    pub token: u64,
}

/// The request to open a subscription, under a token of its own.
pub fn open_request(
    tokens: &mut TokenSource,
    request_id: &str,
    pane_id: &str,
    replay: PaneStreamOutputReplay,
) -> (request: OpenRequest)
    ensures
        request.id@ == request_id@,
        request.pane_id@ == pane_id@,
        request.replay == replay,
        request.token == old(tokens)@,
        final(tokens)@ == token_after(old(tokens)@),
        request.token < u64::MAX ==> final(tokens)@ == request.token + 1,
        request.token == u64::MAX ==> final(tokens)@ == 0,
{
    let token = next_token(tokens);
    OpenRequest { id: request_id.to_owned(), pane_id: pane_id.to_owned(), replay, token }
}

/// What came of a request to open a subscription.
pub enum OpenOutcome {
    /// The subscription is claimed.
    Claimed(PendingOutputStream),
    /// The app refused; this is its answer.
    Refused { response: String },
    /// The app agreed but stashed nothing.
    Unregistered,
}

/// Decides what the app's answer to the open request of `token` means, and
/// claims the subscription. Either way nothing is left under the token: an
/// entry that the app made in spite of a refusal is dropped.
pub fn open_subscription(
    pending: &mut PendingStreams,
    token: u64,
    outcome: &str,
    response: String,
) -> (opened: OpenOutcome)
    ensures
        final(pending)@ == old(pending)@.remove(token),
        !final(pending)@.contains_key(token),
        outcome@ != "ok"@ ==> opened == (OpenOutcome::Refused { response }),
        outcome@ == "ok"@ && old(pending)@.contains_key(token) ==> opened == OpenOutcome::Claimed(
            old(pending)@[token],
        ),
        outcome@ == "ok"@ && !old(pending)@.contains_key(token) ==> opened
            == OpenOutcome::Unregistered,
{
    let claimed = pending.take(token);
    if !(outcome.to_owned() == "ok".to_owned()) {
        return OpenOutcome::Refused { response };
    }
    match claimed {
        Some(entry) => OpenOutcome::Claimed(entry),
        None => OpenOutcome::Unregistered,
    }
}

} // verus!
