//! What a pane broadcasts, and how ready output is gathered into one frame.

use tokio::sync::broadcast;
use vstd::prelude::*;

verus! {

/// Cap on how many raw bytes are coalesced into a single `output` frame. A chunk
/// that is longer and stands alone is not coalesced with anything, and is sent as
/// it is.
pub const MAX_OUTPUT_FRAME_BYTES: usize = 256 * 1024;

/// Cap on how often the channel is asked in one go. It only bounds the work
/// that chunks without bytes can cause.
pub const MAX_POLLS: u64 = u64::MAX;

/// An event that a pane broadcasts to its subscribers.
#[derive(Clone, Debug)]
pub enum PaneOutputFrame {
    /// A chunk of raw output.
    Output(Vec<u8>),
    /// The pane has a new size.
    Resized { cols: u16, rows: u16 },
}

/// What a stream has to do after the output that it holds is sent.
#[derive(Clone, Copy, Debug, PartialEq, Eq, Structural)]
pub enum StreamAction {
    Continue,
    Resized { cols: u16, rows: u16 },
    Lagged,
    Closed,
}

/// What came of asking the channel without waiting.
pub enum Poll {
    Frame(PaneOutputFrame),
    Empty,
    /// So many events were overwritten before they could be read.
    Lagged(u64),
    Closed,
}

/// The model of a [`Poll`].
pub enum PollView {
    Output(Seq<u8>),
    Resized { cols: u16, rows: u16 },
    Empty,
    Lagged(u64),
    Closed,
}

impl View for Poll {
    type V = PollView;

    open spec fn view(&self) -> PollView {
        match self {
            Poll::Frame(PaneOutputFrame::Output(bytes)) => PollView::Output(bytes@),
            Poll::Frame(PaneOutputFrame::Resized { cols, rows }) => PollView::Resized {
                cols: *cols,
                rows: *rows,
            },
            Poll::Empty => PollView::Empty,
            Poll::Lagged(missed) => PollView::Lagged(*missed),
            Poll::Closed => PollView::Closed,
        }
    }
}

/// The model of a poll holds what the poll holds.
pub proof fn law_poll_model_is_faithful(poll: Poll)
    ensures
        match poll {
            Poll::Frame(PaneOutputFrame::Output(bytes)) => poll@ == PollView::Output(bytes@),
            Poll::Frame(PaneOutputFrame::Resized { cols, rows }) => poll@ == (PollView::Resized {
                cols,
                rows,
            }),
            Poll::Empty => poll@ == PollView::Empty,
            Poll::Lagged(missed) => poll@ == PollView::Lagged(missed),
            Poll::Closed => poll@ == PollView::Closed,
        },
{
}

/// The receiving end of tokio's broadcast channel.
#[verifier::external_type_specification]
#[verifier::external_body]
#[verifier::reject_recursive_types(T)]
pub struct ExReceiver<T>(broadcast::Receiver<T>);

/// What a receiver has answered to polls since it was made, in order. It is a
/// log of the handle: every poll adds its answer, frame or not.
pub uninterp spec fn answers(receiver: broadcast::Receiver<PaneOutputFrame>) -> Seq<PollView>;

/// Calls `Receiver::try_recv` of tokio's broadcast channel, and claims that its
/// answer is the next one in the receiver's log. Which answer comes is left
/// unsaid: it rests on what other threads have sent by then.
#[verifier::external_body]
fn poll_receiver(receiver: &mut broadcast::Receiver<PaneOutputFrame>) -> (poll: Poll)
    ensures
        answers(*final(receiver)) == answers(*old(receiver)).push(poll@),
{
    match receiver.try_recv() {
        Ok(frame) => Poll::Frame(frame),
        Err(broadcast::error::TryRecvError::Empty) => Poll::Empty,
        Err(broadcast::error::TryRecvError::Lagged(missed)) => Poll::Lagged(missed),
        Err(broadcast::error::TryRecvError::Closed) => Poll::Closed,
    }
}

/// The bytes that an answer brings.
pub open spec fn polled_bytes(poll: PollView) -> Seq<u8> {
    match poll {
        PollView::Output(bytes) => bytes,
        _ => Seq::empty(),
    }
}

/// What an answer that ends the gathering leaves to be done.
pub open spec fn polled_action(poll: PollView) -> StreamAction {
    match poll {
        PollView::Resized { cols, rows } => StreamAction::Resized { cols, rows },
        PollView::Lagged(_) => StreamAction::Lagged,
        PollView::Closed => StreamAction::Closed,
        _ => StreamAction::Continue,
    }
}

/// How many of `offered` bytes fit into a frame that holds `held`.
pub open spec fn fitting(held: nat, offered: nat) -> int {
    if held >= MAX_OUTPUT_FRAME_BYTES {
        0
    } else if held + offered <= MAX_OUTPUT_FRAME_BYTES {
        offered as int
    } else {
        MAX_OUTPUT_FRAME_BYTES - held
    }
}

/// Takes one answer of the channel: output is appended to `buffer` up to the
/// cap and what does not fit to `rest`, and anything else ends the gathering with
/// what is left to be done.
pub fn absorb_poll(buffer: &mut Vec<u8>, rest: &mut Vec<u8>, poll: Poll) -> (ended: Option<
    StreamAction,
>)
    ensures
        ({
            let bytes = polled_bytes(poll@);
            let fit = fitting(old(buffer)@.len(), bytes.len());
            &&& final(buffer)@ == old(buffer)@ + bytes.take(fit)
            &&& final(rest)@ == old(rest)@ + bytes.skip(fit)
        }),
        ended == (if poll@ is Output {
            None
        } else {
            Some(polled_action(poll@))
        }),
        match poll {
            Poll::Frame(PaneOutputFrame::Output(bytes)) => {
                let held = old(buffer)@.len() as int;
                &&& ended is None
                &&& held + bytes@.len() <= 256 * 1024 ==> final(buffer)@ == old(buffer)@ + bytes@
                    && final(rest)@ == old(rest)@
                &&& held <= 256 * 1024 < held + bytes@.len() ==> final(buffer)@ == old(buffer)@
                    + bytes@.take(256 * 1024 - held) && final(rest)@ == old(rest)@ + bytes@.skip(
                    256 * 1024 - held,
                )
                &&& held > 256 * 1024 ==> final(buffer)@ == old(buffer)@ && final(rest)@ == old(
                    rest,
                )@ + bytes@
            },
            Poll::Frame(PaneOutputFrame::Resized { cols, rows }) => ended == Some(
                StreamAction::Resized { cols, rows },
            ),
            Poll::Empty => ended == Some(StreamAction::Continue),
            Poll::Lagged(_) => ended == Some(StreamAction::Lagged),
            Poll::Closed => ended == Some(StreamAction::Closed),
        },
        !(poll matches Poll::Frame(PaneOutputFrame::Output(_))) ==> final(buffer)@ == old(
            buffer,
        )@ && final(rest)@ == old(rest)@,
{
    assert(buffer@ + Seq::<u8>::empty() =~= buffer@);
    assert(rest@ + Seq::<u8>::empty() =~= rest@);
    assert(Seq::<u8>::empty().take(0) =~= Seq::<u8>::empty());
    assert(Seq::<u8>::empty().skip(0) =~= Seq::<u8>::empty());
    match poll {
        Poll::Frame(PaneOutputFrame::Output(bytes)) => {
            let mut fitting_bytes = bytes;
            let room: usize = if buffer.len() < MAX_OUTPUT_FRAME_BYTES {
                MAX_OUTPUT_FRAME_BYTES - buffer.len()
            } else {
                0
            };
            if fitting_bytes.len() > room {
                let over = fitting_bytes.split_off(room);
                rest.extend_from_slice(over.as_slice());
                assert(rest@ =~= old(rest)@ + over@);
            }
            buffer.extend_from_slice(fitting_bytes.as_slice());
            assert(buffer@ =~= old(buffer)@ + fitting_bytes@);
            None
        },
        Poll::Frame(PaneOutputFrame::Resized { cols, rows }) => Some(
            StreamAction::Resized { cols, rows },
        ),
        Poll::Empty => Some(StreamAction::Continue),
        Poll::Lagged(_) => Some(StreamAction::Lagged),
        Poll::Closed => Some(StreamAction::Closed),
    }
}

/// `before` with the output of the answers appended in order.
pub open spec fn gathered(before: Seq<u8>, polls: Seq<PollView>) -> Seq<u8>
    decreases polls.len(),
{
    if polls.len() == 0 {
        before
    } else {
        gathered(before, polls.drop_last()) + polled_bytes(polls.last())
    }
}

/// How many of the gathered bytes go into the frame: all that was there before,
/// and what fits under the cap of what was added.
pub open spec fn frame_len(before: Seq<u8>, polls: Seq<PollView>) -> int {
    if polls.len() == 0 || gathered(before, polls).len() <= MAX_OUTPUT_FRAME_BYTES {
        gathered(before, polls).len() as int
    } else {
        MAX_OUTPUT_FRAME_BYTES as int
    }
}

/// Whether draining a channel that answers `polls` turns `before` into `after`,
/// puts `rest` aside and leaves `action` to be done:
/// - every answer's output is kept, in order, up to the cap in `after` and beyond
///   it in `rest`;
/// - an answer is asked for only while the output is below the cap;
/// - only the last answer may be anything but output, and it decides what is
///   left to be done;
/// - where all answers are output, the cap was reached and nothing is left.
pub open spec fn drains_to(
    before: Seq<u8>,
    polls: Seq<PollView>,
    after: Seq<u8>,
    rest: Seq<u8>,
    action: StreamAction,
) -> bool {
    &&& after == gathered(before, polls).take(frame_len(before, polls))
    &&& rest == gathered(before, polls).skip(frame_len(before, polls))
    &&& polls.len() <= MAX_POLLS
    &&& forall|i: int|
        0 <= i < polls.len() ==> gathered(before, #[trigger] polls.take(i)).len()
            < MAX_OUTPUT_FRAME_BYTES
    &&& forall|i: int| 0 <= i < polls.len() - 1 ==> #[trigger] polls[i] is Output
    &&& if polls.len() > 0 && !(polls.last() is Output) {
        action == polled_action(polls.last())
    } else {
        action == StreamAction::Continue && (after.len() >= MAX_OUTPUT_FRAME_BYTES || polls.len()
            == MAX_POLLS)
    }
}

/// The output that is below the cap when an answer ends a drain was all kept.
proof fn lemma_ended_below_cap(before: Seq<u8>, polls: Seq<PollView>)
    requires
        polls.len() > 0,
        !(polls.last() is Output),
        gathered(before, polls.take(polls.len() - 1)).len() < MAX_OUTPUT_FRAME_BYTES,
    ensures
        gathered(before, polls) == gathered(before, polls.drop_last()),
        gathered(before, polls).len() < MAX_OUTPUT_FRAME_BYTES,
{
    assert(polls.take(polls.len() - 1) =~= polls.drop_last());
    assert(gathered(before, polls) =~= gathered(before, polls.drop_last()));
}

/// Bytes are only put aside when the frame is full, and a frame that was not over
/// the cap before is not over it after.
pub proof fn law_drain_holds_cap(
    before: Seq<u8>,
    polls: Seq<PollView>,
    after: Seq<u8>,
    rest: Seq<u8>,
    action: StreamAction,
)
    requires
        drains_to(before, polls, after, rest, action),
    ensures
        before.len() <= MAX_OUTPUT_FRAME_BYTES ==> after.len() <= MAX_OUTPUT_FRAME_BYTES,
        rest.len() > 0 ==> after.len() == MAX_OUTPUT_FRAME_BYTES && action
            == StreamAction::Continue,
{
    if polls.len() > 0 && !(polls.last() is Output) {
        lemma_ended_below_cap(before, polls);
    }
}

/// No output that the channel hands out is lost or moved.
pub proof fn law_drain_keeps_all_output(
    before: Seq<u8>,
    polls: Seq<PollView>,
    after: Seq<u8>,
    rest: Seq<u8>,
    action: StreamAction,
)
    requires
        drains_to(before, polls, after, rest, action),
    ensures
        after + rest == gathered(before, polls),
{
    assert(after + rest =~= gathered(before, polls));
}

/// What a drain leaves to be done is what the channel reported last: a new size,
/// a lag or the end exactly when that was the answer, and nothing otherwise.
pub proof fn law_drain_reports_last_answer(
    before: Seq<u8>,
    polls: Seq<PollView>,
    after: Seq<u8>,
    rest: Seq<u8>,
    action: StreamAction,
)
    requires
        drains_to(before, polls, after, rest, action),
    ensures
        action is Resized <==> polls.len() > 0 && polls.last() is Resized,
        action is Resized ==> action == polled_action(polls.last()),
        action is Lagged <==> polls.len() > 0 && polls.last() is Lagged,
        action is Closed <==> polls.len() > 0 && polls.last() is Closed,
        action is Continue <==> after.len() >= MAX_OUTPUT_FRAME_BYTES || polls.len() == MAX_POLLS
            && polls.last() is Output || polls.len() > 0 && polls.last() is Empty,
        forall|i: int|
            0 <= i < polls.len() ==> (#[trigger] polls[i] is Output || i == polls.len() - 1),
{
    if polls.len() > 0 && !(polls.last() is Output) {
        lemma_ended_below_cap(before, polls);
    }
}

/// The answers before the `i`-th bring the chunks before the `i`-th.
proof fn lemma_gathered_chunks(
    before: Seq<u8>,
    chunks: Seq<Seq<u8>>,
    polls: Seq<PollView>,
    i: int,
)
    requires
        0 <= i <= chunks.len() <= polls.len(),
        forall|k: int|
            0 <= k < chunks.len() ==> #[trigger] polls[k] == PollView::Output(chunks[k]),
    ensures
        gathered(before, polls.take(i)) == before + chunks.take(i).flatten(),
    decreases i,
{
    if i == 0 {
        assert(chunks.take(0) =~= Seq::<Seq<u8>>::empty());
        assert(before + chunks.take(0).flatten() =~= before);
    } else {
        lemma_gathered_chunks(before, chunks, polls, i - 1);
        let some = chunks.take(i - 1);
        let more = chunks.take(i);
        assert(polls.take(i).drop_last() =~= polls.take(i - 1));
        assert(polls.take(i).last() == PollView::Output(chunks[i - 1]));
        assert(more =~= some.push(chunks[i - 1]));
        some.lemma_flatten_push(chunks[i - 1]);
        assert(gathered(before, polls.take(i)) =~= before + more.flatten());
    }
}

/// The chunks that are ready are joined to what is held, whole and in order: where
/// the channel answers one chunk after the other, all of their bytes stand behind
/// what was held before, in the frame up to 256 KiB and behind it put aside. The
/// next chunk is asked for only while there is room.
pub proof fn law_drain_joins_ready_chunks(
    before: Seq<u8>,
    chunks: Seq<Seq<u8>>,
    polls: Seq<PollView>,
    after: Seq<u8>,
    rest: Seq<u8>,
    action: StreamAction,
)
    requires
        drains_to(before, polls, after, rest, action),
        chunks.len() <= polls.len(),
        forall|k: int|
            0 <= k < chunks.len() ==> #[trigger] polls[k] == PollView::Output(chunks[k]),
        chunks.len() < polls.len() ==> !(polls[chunks.len() as int] is Output),
    ensures
        polls.len() <= chunks.len() + 1,
        after + rest == before + chunks.flatten(),
        before.len() < 256 * 1024 ==> after.len() <= 256 * 1024,
        before.len() >= 256 * 1024 ==> polls.len() == 0 && after == before && rest.len() == 0,
        rest.len() > 0 ==> after.len() == 256 * 1024,
        forall|k: int|
            0 <= k < polls.len() ==> before.len() + (#[trigger] chunks.take(k)).flatten().len()
                < 256 * 1024,
{
    let asked = chunks.len() as int;
    law_drain_keeps_all_output(before, polls, after, rest, action);
    law_drain_holds_cap(before, polls, after, rest, action);
    lemma_gathered_chunks(before, chunks, polls, asked);
    assert(chunks.take(asked) =~= chunks);
    if asked < polls.len() {
        assert(polls.len() == asked + 1);
        assert(polls.take(asked) =~= polls.drop_last());
        lemma_ended_below_cap(before, polls);
    } else {
        assert(polls.take(asked) =~= polls);
    }
    if before.len() >= 256 * 1024 {
        law_full_frame_is_not_drained(before, polls, after, rest, action);
    }
    assert forall|k: int| 0 <= k < polls.len() implies before.len() + (
    #[trigger] chunks.take(k)).flatten().len() < 256 * 1024 by {
        lemma_gathered_chunks(before, chunks, polls, k);
        assert(gathered(before, polls.take(k)).len() < MAX_OUTPUT_FRAME_BYTES);
    }
}

/// What is left to be done after a drain is what the last answer said: the new
/// size as it was reported, a lag, the end, or nothing. A drain only stops at an
/// answer that is not output, or at a full frame.
pub proof fn law_drain_stops_at_first_signal(
    before: Seq<u8>,
    polls: Seq<PollView>,
    after: Seq<u8>,
    rest: Seq<u8>,
    action: StreamAction,
)
    requires
        drains_to(before, polls, after, rest, action),
    ensures
        forall|i: int| 0 <= i < polls.len() - 1 ==> #[trigger] polls[i] is Output,
        polls.len() == 0 ==> before.len() >= 256 * 1024 && action == StreamAction::Continue,
        polls.len() > 0 ==> match polls.last() {
            PollView::Output(_) => action == StreamAction::Continue && (after.len() >= 256 * 1024
                || polls.len() == u64::MAX),
            PollView::Resized { cols, rows } => action == (StreamAction::Resized { cols, rows }),
            PollView::Empty => action == StreamAction::Continue,
            PollView::Lagged(_) => action == StreamAction::Lagged,
            PollView::Closed => action == StreamAction::Closed,
        },
{
    if polls.len() == 0 {
        assert(after =~= before);
    }
}

/// A drain of a channel in which nothing is ready changes nothing and leaves
/// nothing to be done.
pub proof fn law_drain_of_empty_channel(
    before: Seq<u8>,
    polls: Seq<PollView>,
    after: Seq<u8>,
    rest: Seq<u8>,
    action: StreamAction,
)
    requires
        drains_to(before, polls, after, rest, action),
        polls.len() > 0,
        polls[0] is Empty,
    ensures
        polls == seq![PollView::Empty],
        after == before,
        rest.len() == 0,
        action is Continue,
{
    assert(polls =~= seq![PollView::Empty]);
    lemma_ended_below_cap(before, polls);
    assert(polls.drop_last() =~= Seq::empty());
    assert(after =~= before);
}

/// A frame that is full asks for nothing and stays as it is.
pub proof fn law_full_frame_is_not_drained(
    before: Seq<u8>,
    polls: Seq<PollView>,
    after: Seq<u8>,
    rest: Seq<u8>,
    action: StreamAction,
)
    requires
        drains_to(before, polls, after, rest, action),
        before.len() >= MAX_OUTPUT_FRAME_BYTES,
    ensures
        polls.len() == 0,
        after == before,
        rest.len() == 0,
        action is Continue,
{
    if polls.len() > 0 {
        assert(polls.take(0) =~= Seq::empty());
    }
    assert(after =~= before);
}

/// The answers of the channel decide how many of them are asked for, what is
/// gathered and what is left to be done: a drain stops neither early nor late.
pub proof fn law_drain_is_determined(
    before: Seq<u8>,
    polls: Seq<PollView>,
    after: Seq<u8>,
    rest: Seq<u8>,
    action: StreamAction,
    more_polls: Seq<PollView>,
    more_after: Seq<u8>,
    more_rest: Seq<u8>,
    more_action: StreamAction,
)
    requires
        drains_to(before, polls, after, rest, action),
        drains_to(before, more_polls, more_after, more_rest, more_action),
        polls.is_prefix_of(more_polls),
    ensures
        polls == more_polls,
        after == more_after,
        rest == more_rest,
        action == more_action,
{
    let asked = polls.len() as int;
    if asked < more_polls.len() {
        assert(more_polls.take(asked) =~= polls);
        if asked > 0 {
            assert(more_polls[asked - 1] is Output);
            assert(polls.last() == more_polls[asked - 1]);
        }
    } else {
        assert(polls =~= more_polls);
    }
}

/// Coalesces immediately available output into `buffer`, stopping at the first
/// event that is not output so that the order of frames is kept. No more than the
/// cap is coalesced: what is left of the chunk that reaches it is appended to
/// `rest`.
///
/// What the channel answers rests on other threads; for the answers that it
/// gives, the outcome is the one that [`drains_to`] states.
pub fn drain_ready_output(
    receiver: &mut broadcast::Receiver<PaneOutputFrame>,
    buffer: &mut Vec<u8>,
    rest: &mut Vec<u8>,
) -> (action: StreamAction)
    ensures
        exists|polls: Seq<PollView>, over: Seq<u8>|
            answers(*final(receiver)) == answers(*old(receiver)) + polls && final(rest)@ == old(
                rest,
            )@ + over && #[trigger] drains_to(
                old(buffer)@,
                polls,
                final(buffer)@,
                over,
                action,
            ),
        old(buffer)@.len() <= MAX_OUTPUT_FRAME_BYTES ==> final(buffer)@.len()
            <= MAX_OUTPUT_FRAME_BYTES,
{
    let ghost before = buffer@;
    let ghost mut polls: Seq<PollView> = Seq::empty();
    let ghost mut over: Seq<u8> = Seq::empty();
    let mut polls_left: u64 = MAX_POLLS;
    proof {
        assert(answers(*receiver) =~= answers(*old(receiver)) + polls);
        assert(buffer@ =~= before.take(frame_len(before, polls)));
        assert(over =~= before.skip(frame_len(before, polls)));
        assert(rest@ =~= old(rest)@ + over);
    }
    while buffer.len() < MAX_OUTPUT_FRAME_BYTES && polls_left > 0
        invariant
            before == old(buffer)@,
            polls.len() == MAX_POLLS - polls_left,
            answers(*receiver) == answers(*old(receiver)) + polls,
            buffer@ == gathered(before, polls).take(frame_len(before, polls)),
            over == gathered(before, polls).skip(frame_len(before, polls)),
            rest@ == old(rest)@ + over,
            forall|i: int|
                0 <= i < polls.len() ==> gathered(before, #[trigger] polls.take(i)).len()
                    < MAX_OUTPUT_FRAME_BYTES,
            forall|i: int| 0 <= i < polls.len() ==> #[trigger] polls[i] is Output,
        decreases polls_left,
    {
        let poll = poll_receiver(receiver);
        let ghost asked = polls;
        let ghost held = buffer@;
        let ghost bytes = polled_bytes(poll@);
        let ghost fit = fitting(held.len(), bytes.len());
        proof {
            polls = asked.push(poll@);
            assert(polls.drop_last() =~= asked);
            assert(held =~= gathered(before, asked));
            assert(over =~= Seq::<u8>::empty());
            assert(gathered(before, polls) == held + bytes);
            over = bytes.skip(fit);
            assert(held + bytes.take(fit) =~= gathered(before, polls).take(
                frame_len(before, polls),
            ));
            assert(over =~= gathered(before, polls).skip(frame_len(before, polls)));
            assert(answers(*receiver) =~= answers(*old(receiver)) + polls);
            assert forall|i: int| 0 <= i < polls.len() implies gathered(
                before,
                #[trigger] polls.take(i),
            ).len() < MAX_OUTPUT_FRAME_BYTES by {
                if i < asked.len() {
                    assert(polls.take(i) =~= asked.take(i));
                } else {
                    assert(polls.take(i) =~= asked);
                }
            }
        }
        let ended = absorb_poll(buffer, rest, poll);
        assert(rest@ =~= old(rest)@ + over);
        match ended {
            Some(action) => {
                proof {
                    assert(drains_to(before, polls, buffer@, over, action));
                    law_drain_holds_cap(before, polls, buffer@, over, action);
                }
                return action;
            },
            None => {},
        }
        polls_left = polls_left - 1;
    }
    proof {
        assert(drains_to(before, polls, buffer@, over, StreamAction::Continue));
        law_drain_holds_cap(before, polls, buffer@, over, StreamAction::Continue);
    }
    StreamAction::Continue
}

} // verus!
