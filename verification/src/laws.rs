//! What holds of every stream, whatever its client and its pane do.

use crate::channel::{
    drains_to, gathered, law_drain_holds_cap, law_drain_joins_ready_chunks,
    law_drain_keeps_all_output, law_drain_stops_at_first_signal, law_full_frame_is_not_drained,
    polled_bytes, PaneOutputFrame, PollView, StreamAction, MAX_OUTPUT_FRAME_BYTES,
};
use crate::session::{
    comes_of, unregistered_frame, ActionView, EventView, PhaseView, RecvOutcome, RepaintView,
    SessionView,
};
use crate::subscription::PaneStreamOutputReplay;
use crate::wire::FrameView;
use vstd::prelude::*;

verus! {

/// The state of a pane's stream after `events`.
pub open spec fn state_after(pane_id: Seq<char>, events: Seq<EventView>) -> SessionView
    decreases events.len(),
{
    if events.len() == 0 {
        SessionView::initial(pane_id)
    } else {
        state_after(pane_id, events.drop_last()).step(events.last()).0
    }
}

/// Whether each of `events` can come of the action before it.
pub open spec fn is_history(pane_id: Seq<char>, events: Seq<EventView>) -> bool
    decreases events.len(),
{
    events.len() > 0 ==> {
        &&& is_history(pane_id, events.drop_last())
        &&& state_after(pane_id, events.drop_last()).accepts(events.last())
    }
}

/// The action that follows the last of `events`.
pub open spec fn last_action(pane_id: Seq<char>, events: Seq<EventView>) -> ActionView
    recommends
        events.len() > 0,
{
    state_after(pane_id, events.drop_last()).step(events.last()).1
}

/// The frames that a stream has handed out to be sent, in order.
pub open spec fn frames_sent(pane_id: Seq<char>, events: Seq<EventView>) -> Seq<FrameView>
    decreases events.len(),
{
    if events.len() == 0 {
        Seq::empty()
    } else {
        let before = frames_sent(pane_id, events.drop_last());
        match last_action(pane_id, events) {
            ActionView::Write(frame) => before.push(frame),
            _ => before,
        }
    }
}

/// A stream grows event by event: it starts out as a pane's stream without a frame,
/// and every event that it accepts takes it one step on and adds the frame that the
/// step sends, if it sends one.
pub proof fn law_stream_grows_by_events(pane_id: Seq<char>, events: Seq<EventView>, event: EventView)
    ensures
        is_history(pane_id, Seq::empty()),
        state_after(pane_id, Seq::empty()) == (SessionView {
            pane_id,
            seq: 0,
            phase: PhaseView::Opening,
        }),
        frames_sent(pane_id, Seq::empty()).len() == 0,
        is_history(pane_id, events.push(event)) <==> is_history(pane_id, events) && state_after(
            pane_id,
            events,
        ).accepts(event),
        state_after(pane_id, events.push(event)) == state_after(pane_id, events).step(event).0,
        last_action(pane_id, events.push(event)) == state_after(pane_id, events).step(event).1,
        match state_after(pane_id, events).step(event).1 {
            ActionView::Write(frame) => frames_sent(pane_id, events.push(event)) == frames_sent(
                pane_id,
                events,
            ).push(frame),
            _ => frames_sent(pane_id, events.push(event)) == frames_sent(pane_id, events),
        },
{
    assert(events.push(event).drop_last() =~= events);
}

/// A stream goes on as long as nothing ends it: it only ends when the client or the
/// runtime is gone, the server stops, `closed` or the report of a failed opening was
/// sent, or a subscription that was opened after a lag has no screen. Being told to
/// go on it always awaits the pane.
pub proof fn law_stream_ends_for_a_reason(pane_id: Seq<char>, events: Seq<EventView>)
    requires
        is_history(pane_id, events),
        events.len() > 0,
    ensures
        events.last() is KeepRunning ==> last_action(pane_id, events) is Receive,
        last_action(pane_id, events) is Finish ==> {
            let before = last_action(pane_id, events.drop_last());
            ||| events.last() is ClientGone
            ||| events.last() is StopRequested
            ||| events.last() is RuntimeGone
            ||| (events.last() is Written || events.last() is Failed) && events.len() > 1 && before
                == ActionView::Write(FrameView::Closed)
            ||| events.last() is Written && events.len() > 1 && (before is Forward || before
                == ActionView::Write(
                FrameView::Error { message: "output subscription was not registered"@ },
            ))
            ||| events.last() matches EventView::Opened { repaint_ansi, .. } && repaint_ansi is None
                && events.len() > 1 && before is Open
        },
{
    let past = events.drop_last();
    if past.len() == 0 {
        assert(state_after(pane_id, past) == SessionView::initial(pane_id));
    }
}

/// A running stream has no last frame: whatever was sent before, one more chunk is
/// sent in one more `output` frame under the next number, and the stream runs on.
pub proof fn law_running_stream_sends_next_chunk(
    pane_id: Seq<char>,
    events: Seq<EventView>,
    bytes: Seq<u8>,
)
    requires
        is_history(pane_id, events),
        events.len() > 0,
        last_action(pane_id, events) is CheckStop,
    ensures
        ({
            let chunk = EventView::Output {
                bytes,
                rest: Seq::empty(),
                follow_up: StreamAction::Continue,
            };
            let more = events.push(EventView::KeepRunning).push(chunk).push(EventView::Written);
            let sent = frames_sent(pane_id, events);
            &&& is_history(pane_id, more)
            &&& last_action(pane_id, more) is CheckStop
            &&& frames_sent(pane_id, more).len() == sent.len() + 1
            &&& frames_sent(pane_id, more).drop_last() == sent
            &&& frames_sent(pane_id, more).last() matches FrameView::Output {
                seq,
                bytes: data,
            } && data == bytes && seq == seq_of(output_count(sent) + 1)
        }),
{
    let chunk = EventView::Output {
        bytes,
        rest: Seq::empty(),
        follow_up: StreamAction::Continue,
    };
    let told = events.push(EventView::KeepRunning);
    let got = told.push(chunk);
    law_stream_grows_by_events(pane_id, events, EventView::KeepRunning);
    law_stream_grows_by_events(pane_id, told, chunk);
    law_stream_grows_by_events(pane_id, got, EventView::Written);
    law_action_tells_phase(pane_id, events);
    lemma_output_frames_are_numbered(pane_id, events);
    assert(frames_sent(pane_id, got.push(EventView::Written)).drop_last() =~= frames_sent(
        pane_id,
        events,
    ));
}

/// Whether frame `i` stands where the protocol allows it.
spec fn in_place(frames: Seq<FrameView>, i: int) -> bool {
    &&& frames[i] is StreamStarted ==> i == 0
    &&& i == 0 ==> frames[i] is StreamStarted || frames[i] is Error
    &&& frames[i] is Lag && i + 1 < frames.len() ==> frames[i + 1] is Repaint || frames[i
        + 1] is Error
    &&& frames[i] is Repaint ==> i == 1 || i > 1 && frames[i - 1] is Lag
    &&& frames[i] is Closed ==> i + 1 == frames.len()
    &&& frames[i] is Error ==> frames[i] == unregistered_frame() && i + 1 == frames.len() && (i
        == 0 || frames[i - 1] is Lag)
}

proof fn lemma_frames_in_place(pane_id: Seq<char>, events: Seq<EventView>)
    requires
        is_history(pane_id, events),
    ensures
        forall|i: int|
            0 <= i < frames_sent(pane_id, events).len() ==> in_place(
                frames_sent(pane_id, events),
                i,
            ),
        ({
            let frames = frames_sent(pane_id, events);
            match state_after(pane_id, events).phase {
                PhaseView::Opening => frames.len() == 0 && events.len() == 0,
                PhaseView::Starting { .. } => frames.len() == 1,
                PhaseView::Lagging | PhaseView::Reopening => frames.len() > 1
                    && frames.last() is Lag,
                PhaseView::Closing => frames.len() > 1 && frames.last() is Closed,
                PhaseView::Reporting | PhaseView::Ended => true,
                _ => frames.len() > 0 && !(frames.last() is Error) && !(frames.last() is Lag) && !(frames.last() is Closed),
            }
        }),
    decreases events.len(),
{
    if events.len() > 0 {
        lemma_frames_in_place(pane_id, events.drop_last());
        let before = frames_sent(pane_id, events.drop_last());
        let frames = frames_sent(pane_id, events);
        assert forall|i: int| 0 <= i < frames.len() implies in_place(frames, i) by {
            if i < before.len() {
                assert(in_place(before, i));
                assert(frames[i] == before[i]);
                if i > 0 {
                    assert(frames[i - 1] == before[i - 1]);
                }
            }
        }
    }
}

/// The stream starts with `stream_started`, unless it could not be opened, and no
/// other frame is one.
pub proof fn law_first_frame_is_stream_started(pane_id: Seq<char>, events: Seq<EventView>, i: int)
    requires
        is_history(pane_id, events),
        0 <= i < frames_sent(pane_id, events).len(),
    ensures
        frames_sent(pane_id, events)[i] is StreamStarted ==> i == 0,
        i == 0 ==> frames_sent(pane_id, events)[i] is StreamStarted || frames_sent(
            pane_id,
            events,
        )[i] is Error,
{
    lemma_frames_in_place(pane_id, events);
    assert(in_place(frames_sent(pane_id, events), i));
}

/// After a `lag` frame the next frame is a `repaint`, or the `error` that ends
/// the stream: no output reaches a client that has lost some before it is shown a
/// whole screen again.
pub proof fn law_lag_is_followed_by_repaint(pane_id: Seq<char>, events: Seq<EventView>, i: int)
    requires
        is_history(pane_id, events),
        0 <= i < frames_sent(pane_id, events).len() - 1,
        frames_sent(pane_id, events)[i] is Lag,
    ensures
        frames_sent(pane_id, events)[i + 1] is Repaint || frames_sent(pane_id, events)[i
            + 1] is Error,
{
    lemma_frames_in_place(pane_id, events);
    assert(in_place(frames_sent(pane_id, events), i));
}

/// The repaint after a lag is fresh: it shows the screen and the size of the
/// subscription that was opened after the `lag` frame, and comes right behind that
/// frame. A subscription without a screen ends the stream instead.
pub proof fn law_resync_shows_fresh_screen(
    pane_id: Seq<char>,
    events: Seq<EventView>,
    cols: u16,
    rows: u16,
    repaint_ansi: Option<Seq<char>>,
)
    requires
        is_history(pane_id, events),
        events.len() > 1,
        events.last() == (EventView::Opened { cols, rows, repaint_ansi }),
    ensures
        frames_sent(pane_id, events.drop_last()).len() > 0,
        frames_sent(pane_id, events.drop_last()).last() is Lag,
        match repaint_ansi {
            Some(ansi) => frames_sent(pane_id, events) == frames_sent(
                pane_id,
                events.drop_last(),
            ).push(FrameView::Repaint { ansi, cols, rows }),
            None => frames_sent(pane_id, events) == frames_sent(pane_id, events.drop_last())
                && last_action(pane_id, events) is Finish,
        },
{
    lemma_frames_in_place(pane_id, events.drop_last());
}

/// A `repaint` is only sent as the second frame or right after a `lag`.
pub proof fn law_repaint_is_replay_or_resync(pane_id: Seq<char>, events: Seq<EventView>, i: int)
    requires
        is_history(pane_id, events),
        0 <= i < frames_sent(pane_id, events).len(),
        frames_sent(pane_id, events)[i] is Repaint,
    ensures
        i == 1 || i > 1 && frames_sent(pane_id, events)[i - 1] is Lag,
{
    lemma_frames_in_place(pane_id, events);
    assert(in_place(frames_sent(pane_id, events), i));
}

/// Nothing is sent after `closed`.
pub proof fn law_closed_is_last(pane_id: Seq<char>, events: Seq<EventView>, i: int)
    requires
        is_history(pane_id, events),
        0 <= i < frames_sent(pane_id, events).len(),
        frames_sent(pane_id, events)[i] is Closed,
    ensures
        i + 1 == frames_sent(pane_id, events).len(),
{
    lemma_frames_in_place(pane_id, events);
    assert(in_place(frames_sent(pane_id, events), i));
}

/// What the first frames of a stream and its phase have to do with the
/// subscription that it opened with.
proof fn lemma_stream_opens_with_replay(
    pane_id: Seq<char>,
    events: Seq<EventView>,
    cols: u16,
    rows: u16,
    repaint_ansi: Option<Seq<char>>,
)
    requires
        is_history(pane_id, events),
        events.len() > 0,
        events[0] == (EventView::Opened { cols, rows, repaint_ansi }),
    ensures
        ({
            let frames = frames_sent(pane_id, events);
            &&& frames.len() > 0
            &&& frames[0] == (FrameView::StreamStarted { pane_id, cols, rows })
            &&& frames.len() > 1 ==> match repaint_ansi {
                Some(ansi) => frames[1] == (FrameView::Repaint { ansi, cols, rows }),
                None => !(frames[1] is Repaint),
            }
            &&& match state_after(pane_id, events).phase {
                PhaseView::Opening => false,
                PhaseView::Starting { repaint } => {
                    &&& frames.len() == 1
                    &&& repaint == match repaint_ansi {
                        Some(ansi) => Some(RepaintView { ansi, cols, rows }),
                        None => None,
                    }
                },
                PhaseView::Lagging | PhaseView::Reopening => frames.len() > 1,
                PhaseView::Ended => true,
                _ => repaint_ansi is Some ==> frames.len() > 1,
            }
        }),
    decreases events.len(),
{
    let before = events.drop_last();
    if before.len() == 0 {
        assert(state_after(pane_id, before) == SessionView::initial(pane_id));
        assert(frames_sent(pane_id, before).len() == 0);
    } else {
        assert(before[0] == events[0]);
        lemma_stream_opens_with_replay(pane_id, before, cols, rows, repaint_ansi);
    }
}

/// Nothing is sent after `error`, and it can only be the first frame or follow a
/// `lag`.
pub proof fn law_error_is_last(pane_id: Seq<char>, events: Seq<EventView>, i: int)
    requires
        is_history(pane_id, events),
        0 <= i < frames_sent(pane_id, events).len(),
        frames_sent(pane_id, events)[i] is Error,
    ensures
        i + 1 == frames_sent(pane_id, events).len(),
        i == 0 || frames_sent(pane_id, events)[i - 1] is Lag,
        frames_sent(pane_id, events)[i] == unregistered_frame(),
{
    lemma_frames_in_place(pane_id, events);
    assert(in_place(frames_sent(pane_id, events), i));
}

/// An app that refuses a subscription has its answer forwarded as it is, on a line
/// of its own, and the stream ends then, whatever comes of the sending.
pub proof fn law_refusal_is_forwarded_and_ends_stream(
    pane_id: Seq<char>,
    events: Seq<EventView>,
    response: Seq<char>,
    sent: EventView,
)
    requires
        is_history(pane_id, events),
        events.len() > 0,
        events.last() == (EventView::Refused { response }),
        is_history(pane_id, events.push(sent)),
    ensures
        last_action(pane_id, events) == (ActionView::Forward { line: response.push('\n') }),
        frames_sent(pane_id, events.push(sent)) == frames_sent(pane_id, events.drop_last()),
        state_after(pane_id, events.push(sent)).phase is Ended,
{
    assert(events.push(sent).drop_last() =~= events);
    assert(frames_sent(pane_id, events) == frames_sent(pane_id, events.drop_last()));
}

/// A stream that is opened shows the size that the subscription reports, and
/// then the screen that it carries, if it carries one.
pub proof fn law_stream_opens_with_replay(
    pane_id: Seq<char>,
    events: Seq<EventView>,
    cols: u16,
    rows: u16,
    repaint_ansi: Option<Seq<char>>,
)
    requires
        is_history(pane_id, events),
        events.len() > 0,
        events[0] == (EventView::Opened { cols, rows, repaint_ansi }),
    ensures
        frames_sent(pane_id, events).len() > 0,
        frames_sent(pane_id, events)[0] == (FrameView::StreamStarted { pane_id, cols, rows }),
        frames_sent(pane_id, events).len() > 1 ==> match repaint_ansi {
            Some(ansi) => frames_sent(pane_id, events)[1] == (FrameView::Repaint {
                ansi,
                cols,
                rows,
            }),
            None => !(frames_sent(pane_id, events)[1] is Repaint),
        },
{
    lemma_stream_opens_with_replay(pane_id, events, cols, rows, repaint_ansi);
}

/// How many of the frames are `output` frames.
pub open spec fn output_count(frames: Seq<FrameView>) -> nat
    decreases frames.len(),
{
    if frames.len() == 0 {
        0
    } else {
        output_count(frames.drop_last()) + if frames.last() is Output {
            1nat
        } else {
            0nat
        }
    }
}

/// The number that the `count`-th `output` frame carries.
pub open spec fn seq_of(count: nat) -> u64 {
    if count <= u64::MAX {
        count as u64
    } else {
        u64::MAX
    }
}

/// The `output` frames are numbered 1, 2, 3 and so on, without a gap, also
/// across a lag. Numbers that would pass the largest stay at it.
pub proof fn law_output_frames_are_numbered(pane_id: Seq<char>, events: Seq<EventView>, i: int)
    requires
        is_history(pane_id, events),
        0 <= i < frames_sent(pane_id, events).len(),
    ensures
        frames_sent(pane_id, events)[i] matches FrameView::Output { seq, .. } ==> seq == seq_of(
            output_count(frames_sent(pane_id, events).take(i + 1)),
        ),
{
    lemma_output_frames_are_numbered(pane_id, events);
}

proof fn lemma_output_frames_are_numbered(pane_id: Seq<char>, events: Seq<EventView>)
    ensures
        state_after(pane_id, events).seq == seq_of(output_count(frames_sent(pane_id, events))),
        forall|i: int|
            0 <= i < frames_sent(pane_id, events).len() ==> (
            #[trigger] frames_sent(pane_id, events)[i] matches FrameView::Output { seq, .. } ==> seq
                == seq_of(output_count(frames_sent(pane_id, events).take(i + 1)))),
    decreases events.len(),
{
    if events.len() > 0 {
        lemma_output_frames_are_numbered(pane_id, events.drop_last());
        let before = frames_sent(pane_id, events.drop_last());
        let frames = frames_sent(pane_id, events);
        if frames.len() > before.len() {
            assert(frames.drop_last() =~= before);
        }
        assert forall|i: int| 0 <= i < frames.len() implies (
        #[trigger] frames[i] matches FrameView::Output { seq, .. } ==> seq == seq_of(
            output_count(frames.take(i + 1)),
        )) by {
            if i < before.len() {
                assert(frames.take(i + 1) =~= before.take(i + 1));
                assert(before[i] == frames[i]);
            } else {
                assert(frames.take(i + 1) =~= frames);
            }
        }
    }
}

/// Something that a pane did, as a client can be told. Output counts byte by byte,
/// so that it is the same news however it is divided into chunks and frames.
pub enum PaneNews {
    Byte(u8),
    Resized { cols: u16, rows: u16 },
    Lagged,
    Closed,
}

/// The news in output.
pub open spec fn output_news(bytes: Seq<u8>) -> Seq<PaneNews> {
    Seq::new(bytes.len(), |i: int| PaneNews::Byte(bytes[i]))
}

/// The news in an action.
pub open spec fn action_news(action: StreamAction) -> Seq<PaneNews> {
    match action {
        StreamAction::Continue => Seq::empty(),
        StreamAction::Resized { cols, rows } => seq![PaneNews::Resized { cols, rows }],
        StreamAction::Lagged => seq![PaneNews::Lagged],
        StreamAction::Closed => seq![PaneNews::Closed],
    }
}

/// The news in an event.
pub open spec fn event_news(event: EventView) -> Seq<PaneNews> {
    match event {
        EventView::Output { bytes, rest, follow_up } => output_news(bytes) + output_news(rest)
            + action_news(follow_up),
        EventView::Signal(action) => action_news(action),
        _ => Seq::empty(),
    }
}

/// The news in a frame.
pub open spec fn frame_news(frame: FrameView) -> Seq<PaneNews> {
    match frame {
        FrameView::Output { bytes, .. } => output_news(bytes),
        FrameView::Resized { cols, rows } => seq![PaneNews::Resized { cols, rows }],
        FrameView::Lag => seq![PaneNews::Lagged],
        FrameView::Closed => seq![PaneNews::Closed],
        _ => Seq::empty(),
    }
}

/// The news in all events, in order.
pub open spec fn news_received(events: Seq<EventView>) -> Seq<PaneNews>
    decreases events.len(),
{
    if events.len() == 0 {
        Seq::empty()
    } else {
        news_received(events.drop_last()) + event_news(events.last())
    }
}

/// The news in all frames, in order.
pub open spec fn news_sent(frames: Seq<FrameView>) -> Seq<PaneNews>
    decreases frames.len(),
{
    if frames.len() == 0 {
        Seq::empty()
    } else {
        news_sent(frames.drop_last()) + frame_news(frames.last())
    }
}

/// The news that a session has received and not handed out yet.
pub open spec fn news_owed(session: SessionView) -> Seq<PaneNews> {
    match session.phase {
        PhaseView::Sending { rest, follow_up } => output_news(rest) + action_news(follow_up),
        _ => Seq::empty(),
    }
}

/// A client is told what the pane did, all of it, in the order in which it was
/// received and nothing else: as long as the stream goes on, only what follows
/// the output that is being sent is still to come; and of a stream that has
/// ended the client was told a beginning of it.
pub proof fn law_news_is_sent_in_order(pane_id: Seq<char>, events: Seq<EventView>)
    requires
        is_history(pane_id, events),
    ensures
        !(state_after(pane_id, events).phase is Ended) ==> news_received(events) == news_sent(
            frames_sent(pane_id, events),
        ) + news_owed(state_after(pane_id, events)),
        news_sent(frames_sent(pane_id, events)).is_prefix_of(news_received(events)),
    decreases events.len(),
{
    if events.len() > 0 {
        let past = events.drop_last();
        law_news_is_sent_in_order(pane_id, past);
        let before = frames_sent(pane_id, past);
        let frames = frames_sent(pane_id, events);
        if frames.len() > before.len() {
            assert(frames.drop_last() =~= before);
            assert(news_sent(frames) == news_sent(before) + frame_news(frames.last()));
        }
        assert(news_received(events) == news_received(past) + event_news(events.last()));
        match state_after(pane_id, past).phase {
            PhaseView::Sending { rest, follow_up } => {
                assert(rest.len() == 0 ==> output_news(rest) =~= Seq::<PaneNews>::empty());
            },
            _ => {},
        }
        if state_after(pane_id, events).phase is Ended {
            assert(news_sent(frames).is_prefix_of(news_received(events)));
        } else {
            assert(news_received(events) =~= news_sent(frames) + news_owed(
                state_after(pane_id, events),
            ));
        }
    }
}

/// The news in what awaiting the pane gave.
pub open spec fn outcome_news(outcome: RecvOutcome) -> Seq<PaneNews> {
    match outcome {
        RecvOutcome::Frame(PaneOutputFrame::Output(bytes)) => output_news(bytes@),
        RecvOutcome::Frame(PaneOutputFrame::Resized { cols, rows }) => {
            seq![PaneNews::Resized { cols, rows }]
        },
        RecvOutcome::Lagged => seq![PaneNews::Lagged],
        RecvOutcome::Closed => seq![PaneNews::Closed],
        RecvOutcome::Timeout | RecvOutcome::RuntimeGone => Seq::empty(),
    }
}

/// The news in an answer of the channel.
pub open spec fn poll_news(poll: PollView) -> Seq<PaneNews> {
    match poll {
        PollView::Output(bytes) => output_news(bytes),
        PollView::Resized { cols, rows } => seq![PaneNews::Resized { cols, rows }],
        PollView::Empty => Seq::empty(),
        PollView::Lagged(_) => seq![PaneNews::Lagged],
        PollView::Closed => seq![PaneNews::Closed],
    }
}

/// Each thing that a pane does is the same news wherever it is met: awaited from the
/// channel, answered by it without waiting, or read in a frame. Output is news byte
/// by byte, a new size is news as it is, and so are a lag and the end; an answer that
/// brings nothing is none.
pub proof fn law_news_is_what_happened(bytes: Vec<u8>, cols: u16, rows: u16, seq: u64, missed: u64)
    ensures
        ({
            let told = bytes@.map_values(|byte: u8| PaneNews::Byte(byte));
            &&& outcome_news(RecvOutcome::Frame(PaneOutputFrame::Output(bytes))) == told
            &&& poll_news(PollView::Output(bytes@)) == told
            &&& frame_news(FrameView::Output { seq, bytes: bytes@ }) == told
        }),
        ({
            let told = seq![PaneNews::Resized { cols, rows }];
            &&& outcome_news(RecvOutcome::Frame(PaneOutputFrame::Resized { cols, rows })) == told
            &&& poll_news(PollView::Resized { cols, rows }) == told
            &&& frame_news(FrameView::Resized { cols, rows }) == told
        }),
        outcome_news(RecvOutcome::Lagged) == seq![PaneNews::Lagged],
        poll_news(PollView::Lagged(missed)) == seq![PaneNews::Lagged],
        frame_news(FrameView::Lag) == seq![PaneNews::Lagged],
        outcome_news(RecvOutcome::Closed) == seq![PaneNews::Closed],
        poll_news(PollView::Closed) == seq![PaneNews::Closed],
        frame_news(FrameView::Closed) == seq![PaneNews::Closed],
        outcome_news(RecvOutcome::Timeout).len() == 0,
        outcome_news(RecvOutcome::RuntimeGone).len() == 0,
        poll_news(PollView::Empty).len() == 0,
{
    let told = bytes@.map_values(|byte: u8| PaneNews::Byte(byte));
    assert(output_news(bytes@) =~= told);
}

/// The news in answers of the channel, in order.
pub open spec fn polls_news(polls: Seq<PollView>) -> Seq<PaneNews>
    decreases polls.len(),
{
    if polls.len() == 0 {
        Seq::empty()
    } else {
        polls_news(polls.drop_last()) + poll_news(polls.last())
    }
}

/// One time that a stream turned to its channel: what awaiting it gave, and what
/// it then answered without waiting.
pub struct Turn {
    pub outcome: RecvOutcome,
    pub polls: Seq<PollView>,
}

/// Whether `turns` are the turns to the channel that `events` came of, in order.
pub open spec fn are_turns_of(turns: Seq<Turn>, events: Seq<EventView>) -> bool
    decreases events.len(),
{
    if events.len() == 0 {
        turns.len() == 0
    } else {
        match events.last() {
            EventView::Idle
            | EventView::RuntimeGone
            | EventView::Output { .. }
            | EventView::Signal(_) => {
                &&& turns.len() > 0
                &&& comes_of(turns.last().outcome, turns.last().polls, events.last())
                &&& are_turns_of(turns.drop_last(), events.drop_last())
            },
            _ => are_turns_of(turns, events.drop_last()),
        }
    }
}

/// All that the channel handed out or reported, in order.
pub open spec fn channel_news(turns: Seq<Turn>) -> Seq<PaneNews>
    decreases turns.len(),
{
    if turns.len() == 0 {
        Seq::empty()
    } else {
        channel_news(turns.drop_last()) + outcome_news(turns.last().outcome) + polls_news(
            turns.last().polls,
        )
    }
}

proof fn lemma_gathered_news(before: Seq<u8>, polls: Seq<PollView>)
    requires
        forall|i: int| 0 <= i < polls.len() ==> #[trigger] polls[i] is Output,
    ensures
        output_news(gathered(before, polls)) == output_news(before) + polls_news(polls),
    decreases polls.len(),
{
    if polls.len() == 0 {
        assert(output_news(before) + polls_news(polls) =~= output_news(before));
    } else {
        let past = polls.drop_last();
        assert forall|i: int| 0 <= i < past.len() implies #[trigger] past[i] is Output by {
            assert(past[i] == polls[i]);
        }
        lemma_gathered_news(before, past);
        assert(polls[polls.len() - 1] is Output);
        let bytes = polled_bytes(polls.last());
        assert(output_news(gathered(before, past) + bytes) =~= output_news(gathered(before, past))
            + output_news(bytes));
        assert(poll_news(polls.last()) =~= output_news(bytes));
        assert(output_news(before) + polls_news(polls) =~= output_news(before) + polls_news(past)
            + output_news(bytes));
    }
}

/// A drain passes on all news of the channel's answers.
proof fn lemma_drain_news(
    before: Seq<u8>,
    polls: Seq<PollView>,
    after: Seq<u8>,
    rest: Seq<u8>,
    action: StreamAction,
)
    requires
        drains_to(before, polls, after, rest, action),
    ensures
        output_news(after) + output_news(rest) + action_news(action) == output_news(before)
            + polls_news(polls),
{
    law_drain_keeps_all_output(before, polls, after, rest, action);
    assert(output_news(after) + output_news(rest) =~= output_news(after + rest));
    if polls.len() > 0 && !(polls.last() is Output) {
        let past = polls.drop_last();
        assert forall|i: int| 0 <= i < past.len() implies #[trigger] past[i] is Output by {
            assert(past[i] == polls[i]);
        }
        lemma_gathered_news(before, past);
        assert(polled_bytes(polls.last()) =~= Seq::<u8>::empty());
        assert(gathered(before, polls) =~= gathered(before, past));
        assert(poll_news(polls.last()) =~= action_news(action));
        assert(output_news(before) + polls_news(polls) =~= output_news(before) + polls_news(past)
            + action_news(action));
    } else {
        assert forall|i: int| 0 <= i < polls.len() implies #[trigger] polls[i] is Output by {
            if i == polls.len() - 1 {
                assert(polls[i] == polls.last());
            }
        }
        lemma_gathered_news(before, polls);
        assert(output_news(after) + output_news(rest) + action_news(action) =~= output_news(
            gathered(before, polls),
        ));
    }
}

/// An event holds the news of the turn that it came of.
proof fn lemma_turn_news(outcome: RecvOutcome, polls: Seq<PollView>, event: EventView)
    requires
        comes_of(outcome, polls, event),
    ensures
        event_news(event) == outcome_news(outcome) + polls_news(polls),
{
    match (outcome, event) {
        (
            RecvOutcome::Frame(PaneOutputFrame::Output(first)),
            EventView::Output { bytes, rest, follow_up },
        ) => {
            lemma_drain_news(first@, polls, bytes, rest, follow_up);
        },
        _ => {
            assert(event_news(event) =~= outcome_news(outcome) + polls_news(polls));
        },
    }
}

proof fn lemma_events_hold_channel_news(events: Seq<EventView>, turns: Seq<Turn>)
    requires
        are_turns_of(turns, events),
    ensures
        news_received(events) == channel_news(turns),
    decreases events.len(),
{
    if events.len() > 0 {
        let past = events.drop_last();
        match events.last() {
            EventView::Idle
            | EventView::RuntimeGone
            | EventView::Output { .. }
            | EventView::Signal(_) => {
                let turn = turns.last();
                lemma_events_hold_channel_news(past, turns.drop_last());
                lemma_turn_news(turn.outcome, turn.polls, events.last());
                assert(news_received(events) =~= channel_news(turns));
            },
            _ => {
                lemma_events_hold_channel_news(past, turns);
                assert(news_received(events) =~= channel_news(turns));
            },
        }
    }
}

/// Over a whole stream the client is told what the channel handed out and
/// reported, all of it, in order and nothing else: every byte, every new size,
/// every lag and the end. As long as the stream goes on, only what follows the
/// output that is being sent is still to come.
pub proof fn law_channel_reaches_client(
    pane_id: Seq<char>,
    events: Seq<EventView>,
    turns: Seq<Turn>,
)
    requires
        is_history(pane_id, events),
        are_turns_of(turns, events),
    ensures
        !(state_after(pane_id, events).phase is Ended) ==> channel_news(turns) == news_sent(
            frames_sent(pane_id, events),
        ) + news_owed(state_after(pane_id, events)),
        news_sent(frames_sent(pane_id, events)).is_prefix_of(channel_news(turns)),
{
    lemma_events_hold_channel_news(events, turns);
    law_news_is_sent_in_order(pane_id, events);
}

/// News adds up: that of a sequence is the news of its items, one after the other.
pub proof fn law_news_adds_up(
    frames: Seq<FrameView>,
    frame: FrameView,
    events: Seq<EventView>,
    event: EventView,
    turns: Seq<Turn>,
    turn: Turn,
    poll: PollView,
)
    ensures
        news_sent(Seq::empty()).len() == 0,
        news_sent(frames.push(frame)) == news_sent(frames) + frame_news(frame),
        news_received(Seq::empty()).len() == 0,
        news_received(events.push(event)) == news_received(events) + event_news(event),
        channel_news(Seq::empty()).len() == 0,
        channel_news(turns.push(turn)) == channel_news(turns) + outcome_news(turn.outcome)
            + polls_news(turn.polls),
        polls_news(Seq::empty()).len() == 0,
        polls_news(turn.polls.push(poll)) == polls_news(turn.polls) + poll_news(poll),
{
    assert(frames.push(frame).drop_last() =~= frames);
    assert(events.push(event).drop_last() =~= events);
    assert(turns.push(turn).drop_last() =~= turns);
    assert(turn.polls.push(poll).drop_last() =~= turn.polls);
}

/// A chunk that was awaited goes out in one `output` frame with all the chunks that
/// are ready behind it, byte for byte and in order; and what the channel says after
/// them comes in the frame right behind that one: the new size as it was reported, a
/// lag or the end. Where there is nothing more, the stream asks whether to go on.
pub proof fn law_ready_output_and_signal_are_sent(
    pane_id: Seq<char>,
    events: Seq<EventView>,
    first: Vec<u8>,
    chunks: Seq<Seq<u8>>,
    signal: PollView,
    event: EventView,
)
    requires
        is_history(pane_id, events),
        events.len() > 0,
        last_action(pane_id, events) is Receive,
        !(signal is Output),
        comes_of(
            RecvOutcome::Frame(PaneOutputFrame::Output(first)),
            chunks.map_values(|chunk: Seq<u8>| PollView::Output(chunk)).push(signal),
            event,
        ),
    ensures
        ({
            let sent = frames_sent(pane_id, events.push(event));
            let then = events.push(event).push(EventView::Written);
            &&& is_history(pane_id, then)
            &&& sent == frames_sent(pane_id, events).push(
                FrameView::Output {
                    seq: seq_of(output_count(frames_sent(pane_id, events)) + 1),
                    bytes: first@ + chunks.flatten(),
                },
            )
            &&& match signal {
                PollView::Resized { cols, rows } => frames_sent(pane_id, then) == sent.push(
                    FrameView::Resized { cols, rows },
                ),
                PollView::Lagged(_) => frames_sent(pane_id, then) == sent.push(FrameView::Lag),
                PollView::Closed => frames_sent(pane_id, then) == sent.push(FrameView::Closed),
                _ => frames_sent(pane_id, then) == sent && last_action(pane_id, then) is CheckStop,
            }
        }),
{
    let polls = chunks.map_values(|chunk: Seq<u8>| PollView::Output(chunk)).push(signal);
    let asked = chunks.len() as int;
    law_action_tells_phase(pane_id, events);
    law_stream_grows_by_events(pane_id, events, event);
    law_stream_grows_by_events(pane_id, events.push(event), EventView::Written);
    lemma_output_frames_are_numbered(pane_id, events);
    match event {
        EventView::Output { bytes, rest, follow_up } => {
            law_drain_joins_ready_chunks(first@, chunks, polls, bytes, rest, follow_up);
            law_drain_stops_at_first_signal(first@, polls, bytes, rest, follow_up);
            assert(polls.last() == signal);
            assert(chunks.take(asked) =~= chunks);
            assert((bytes + rest).len() < MAX_OUTPUT_FRAME_BYTES);
            assert(rest.len() == 0);
            assert(bytes =~= bytes + rest);
        },
        _ => {},
    }
}

/// Whether `chunk` is a chunk of output that the channel handed out in `turn`.
pub open spec fn hands_out(turn: Turn, chunk: Seq<u8>) -> bool {
    ||| turn.outcome matches RecvOutcome::Frame(PaneOutputFrame::Output(first)) && first@ == chunk
    ||| turn.polls.contains(PollView::Output(chunk))
}

/// Whether `bytes` are a whole chunk that the channel handed out, or the end of
/// one: nothing was coalesced in them.
pub open spec fn from_one_chunk(turns: Seq<Turn>, bytes: Seq<u8>) -> bool {
    exists|t: int, chunk: Seq<u8>|
        0 <= t < turns.len() && #[trigger] hands_out(turns[t], chunk) && bytes.is_suffix_of(chunk)
}

proof fn lemma_from_one_chunk_later(turns: Seq<Turn>, turn: Turn, bytes: Seq<u8>)
    requires
        from_one_chunk(turns, bytes),
    ensures
        from_one_chunk(turns.push(turn), bytes),
{
    let (t, chunk) = choose|t: int, chunk: Seq<u8>|
        0 <= t < turns.len() && #[trigger] hands_out(turns[t], chunk) && bytes.is_suffix_of(chunk);
    assert(turns.push(turn)[t] == turns[t]);
    assert(hands_out(turns.push(turn)[t], chunk));
}

/// Output is coalesced up to the cap, and what is put aside is the end of one
/// chunk.
proof fn lemma_turn_holds_cap(
    turns: Seq<Turn>,
    first: Vec<u8>,
    bytes: Seq<u8>,
    rest: Seq<u8>,
    follow_up: StreamAction,
)
    requires
        turns.len() > 0,
        turns.last().outcome == RecvOutcome::Frame(PaneOutputFrame::Output(first)),
        drains_to(first@, turns.last().polls, bytes, rest, follow_up),
    ensures
        bytes.len() <= MAX_OUTPUT_FRAME_BYTES || from_one_chunk(turns, bytes),
        rest.len() == 0 || from_one_chunk(turns, rest),
{
    let t = turns.len() - 1;
    let polls = turns.last().polls;
    law_drain_holds_cap(first@, polls, bytes, rest, follow_up);
    if first@.len() > MAX_OUTPUT_FRAME_BYTES {
        law_full_frame_is_not_drained(first@, polls, bytes, rest, follow_up);
        assert(hands_out(turns[t], first@));
        assert(bytes.is_suffix_of(first@));
    }
    if rest.len() > 0 {
        assert(polls.len() > 0);
        let chunk = polled_bytes(polls.last());
        assert(polls.take(polls.len() - 1) =~= polls.drop_last());
        assert(polls[polls.len() - 1] == PollView::Output(chunk));
        assert(polls.contains(PollView::Output(chunk)));
        assert(hands_out(turns[t], chunk));
        assert(rest.is_suffix_of(chunk));
    }
}

proof fn lemma_output_frames_hold_cap(
    pane_id: Seq<char>,
    events: Seq<EventView>,
    turns: Seq<Turn>,
)
    requires
        is_history(pane_id, events),
        are_turns_of(turns, events),
    ensures
        forall|i: int|
            0 <= i < frames_sent(pane_id, events).len() ==> (
            #[trigger] frames_sent(pane_id, events)[i] matches FrameView::Output { bytes, .. }
                ==> bytes.len() <= MAX_OUTPUT_FRAME_BYTES || from_one_chunk(turns, bytes)),
        state_after(pane_id, events).phase matches PhaseView::Sending { rest, .. } ==> rest.len()
            == 0 || from_one_chunk(turns, rest),
    decreases events.len(),
{
    if events.len() > 0 {
        let past = events.drop_last();
        let before = frames_sent(pane_id, past);
        let frames = frames_sent(pane_id, events);
        let of_channel = events.last() is Idle || events.last() is RuntimeGone
            || events.last() is Output || events.last() is Signal;
        let past_turns = if of_channel {
            turns.drop_last()
        } else {
            turns
        };
        lemma_output_frames_hold_cap(pane_id, past, past_turns);
        if of_channel {
            assert(past_turns.push(turns.last()) =~= turns);
        }
        assert forall|bytes: Seq<u8>| #[trigger] from_one_chunk(past_turns, bytes) implies
            from_one_chunk(turns, bytes) by {
            if of_channel {
                lemma_from_one_chunk_later(past_turns, turns.last(), bytes);
            }
        }
        match (events.last(), turns.last().outcome) {
            (
                EventView::Output { bytes, rest, follow_up },
                RecvOutcome::Frame(PaneOutputFrame::Output(first)),
            ) => {
                lemma_turn_holds_cap(turns, first, bytes, rest, follow_up);
            },
            _ => {},
        }
        assert forall|i: int| 0 <= i < frames.len() implies (
        #[trigger] frames[i] matches FrameView::Output { bytes, .. } ==> bytes.len()
            <= MAX_OUTPUT_FRAME_BYTES || from_one_chunk(turns, bytes)) by {
            if i < before.len() {
                assert(frames[i] == before[i]);
            }
        }
    }
}

/// No more than the cap is coalesced into one `output` frame: a frame that is
/// longer holds output of one chunk alone.
pub proof fn law_coalesced_output_holds_cap(
    pane_id: Seq<char>,
    events: Seq<EventView>,
    turns: Seq<Turn>,
    i: int,
)
    requires
        is_history(pane_id, events),
        are_turns_of(turns, events),
        0 <= i < frames_sent(pane_id, events).len(),
    ensures
        frames_sent(pane_id, events)[i] matches FrameView::Output { bytes, .. } ==> bytes.len()
            <= MAX_OUTPUT_FRAME_BYTES || from_one_chunk(turns, bytes),
{
    lemma_output_frames_hold_cap(pane_id, events, turns);
}

/// All output that was taken from the channel is handed out to be sent before the
/// server and the client are asked again whether to go on.
pub proof fn law_output_is_sent_before_stop_check(pane_id: Seq<char>, events: Seq<EventView>)
    requires
        is_history(pane_id, events),
        events.len() > 0,
        last_action(pane_id, events) is CheckStop,
    ensures
        bytes_sent(frames_sent(pane_id, events)) == bytes_received(events),
        news_sent(frames_sent(pane_id, events)) == news_received(events),
{
    law_output_is_carried_exactly(pane_id, events);
    law_news_is_sent_in_order(pane_id, events);
    assert(bytes_sent(frames_sent(pane_id, events)) =~= bytes_received(events));
    assert(news_sent(frames_sent(pane_id, events)) =~= news_received(events));
}

/// The bytes of all output that was received, in order.
pub open spec fn bytes_received(events: Seq<EventView>) -> Seq<u8>
    decreases events.len(),
{
    if events.len() == 0 {
        Seq::empty()
    } else {
        bytes_received(events.drop_last()) + match events.last() {
            EventView::Output { bytes, rest, .. } => bytes + rest,
            _ => Seq::empty(),
        }
    }
}

/// The bytes of all `output` frames, in order.
pub open spec fn bytes_sent(frames: Seq<FrameView>) -> Seq<u8>
    decreases frames.len(),
{
    if frames.len() == 0 {
        Seq::empty()
    } else {
        bytes_sent(frames.drop_last()) + match frames.last() {
            FrameView::Output { bytes, .. } => bytes,
            _ => Seq::empty(),
        }
    }
}

/// The bytes that a session has received and not handed out yet.
pub open spec fn bytes_owed(session: SessionView) -> Seq<u8> {
    match session.phase {
        PhaseView::Sending { rest, .. } => rest,
        _ => Seq::empty(),
    }
}

/// The `output` frames carry exactly the bytes that were received, in order: as
/// long as the stream goes on, all but those that did not fit into the frame that
/// is being sent; and a beginning of them once it has ended.
pub proof fn law_output_is_carried_exactly(pane_id: Seq<char>, events: Seq<EventView>)
    requires
        is_history(pane_id, events),
    ensures
        !(state_after(pane_id, events).phase is Ended) ==> bytes_received(events) == bytes_sent(
            frames_sent(pane_id, events),
        ) + bytes_owed(state_after(pane_id, events)),
        bytes_sent(frames_sent(pane_id, events)).is_prefix_of(bytes_received(events)),
    decreases events.len(),
{
    if events.len() > 0 {
        let past = events.drop_last();
        law_output_is_carried_exactly(pane_id, past);
        let before = frames_sent(pane_id, past);
        let frames = frames_sent(pane_id, events);
        if frames.len() > before.len() {
            assert(frames.drop_last() =~= before);
        }
        if state_after(pane_id, events).phase is Ended {
            assert(bytes_sent(frames).is_prefix_of(bytes_received(events)));
        } else {
            assert(bytes_received(events) =~= bytes_sent(frames) + bytes_owed(
                state_after(pane_id, events),
            ));
        }
    }
}

/// The last action tells what the session waits for.
pub proof fn law_action_tells_phase(pane_id: Seq<char>, events: Seq<EventView>)
    requires
        is_history(pane_id, events),
        events.len() > 0,
    ensures
        ({
            let action = last_action(pane_id, events);
            let phase = state_after(pane_id, events).phase;
            &&& action is Open <==> phase is Reopening
            &&& action is CheckStop <==> phase is Polling
            &&& action is Receive <==> phase is Receiving
            &&& action is Write || action is Forward <==> phase is Starting || phase is Repainting
                || phase is Sending || phase is Resizing || phase is Lagging || phase is Reporting
                || phase is Closing
            &&& action is Forward ==> phase is Reporting
            &&& action is Finish || action is Fail <==> phase is Ended
            &&& !(phase is Opening)
        }),
{
}

/// A session accepts whatever can come of the action that it gave: an answer to an
/// open request, the outcome of sending or of asking whether to go on, and the
/// event of any turn to the channel.
pub proof fn law_outcome_of_action_is_accepted(
    pane_id: Seq<char>,
    events: Seq<EventView>,
    event: EventView,
    turn: Turn,
)
    requires
        is_history(pane_id, events),
        events.len() > 0,
        match last_action(pane_id, events) {
            ActionView::Open { .. } => event is Opened || event is Refused || event is Unregistered,
            ActionView::Write(_) | ActionView::Forward { .. } => event is Written
                || event is ClientGone || event is Failed,
            ActionView::CheckStop => event is KeepRunning || event is StopRequested
                || event is Failed,
            ActionView::Receive => comes_of(turn.outcome, turn.polls, event),
            ActionView::Finish | ActionView::Fail => false,
        },
    ensures
        state_after(pane_id, events).accepts(event),
        is_history(pane_id, events.push(event)),
{
    law_action_tells_phase(pane_id, events);
    assert(events.push(event).drop_last() =~= events);
}

/// The stream is over exactly when the thread is told to end it, and then
/// nothing more can come of it.
pub proof fn law_stream_ends_once(pane_id: Seq<char>, events: Seq<EventView>, event: EventView)
    requires
        is_history(pane_id, events),
        events.len() > 0,
    ensures
        state_after(pane_id, events).phase is Ended <==> last_action(pane_id, events) is Finish
            || last_action(pane_id, events) is Fail,
        state_after(pane_id, events).phase is Ended ==> !is_history(pane_id, events.push(event)),
{
    assert(events.push(event).drop_last() =~= events);
}

/// A stream only ends with an error that an action met, and the news of the
/// pane's end is the one thing whose sending may fail without an error.
pub proof fn law_error_ends_stream(pane_id: Seq<char>, events: Seq<EventView>)
    requires
        is_history(pane_id, events),
        events.len() > 0,
    ensures
        last_action(pane_id, events) is Fail <==> events.last() is Failed && !(state_after(
            pane_id,
            events.drop_last(),
        ).phase is Closing),
        events.last() is Failed ==> state_after(pane_id, events).phase is Ended,
{
}

/// A client that is gone ends the stream without an error, whatever was being
/// sent to it.
pub proof fn law_lost_client_ends_stream(pane_id: Seq<char>, events: Seq<EventView>)
    requires
        is_history(pane_id, events),
        events.len() > 0,
        events.last() is ClientGone,
    ensures
        last_action(pane_id, events) is Finish,
{
}

/// The pane is never awaited without the server and the client having been asked
/// right before whether the stream is to go on.
pub proof fn law_stop_is_checked_before_each_receive(
    pane_id: Seq<char>,
    events: Seq<EventView>,
)
    requires
        is_history(pane_id, events),
        events.len() > 0,
        last_action(pane_id, events) is Receive,
    ensures
        events.last() is KeepRunning,
        events.len() > 1,
        last_action(pane_id, events.drop_last()) is CheckStop,
{
    let past = events.drop_last();
    assert(state_after(pane_id, past).phase is Polling);
    if past.len() == 0 {
        assert(state_after(pane_id, past) == SessionView::initial(pane_id));
    }
}

/// A subscription is opened again only once the client was sent a `lag` frame,
/// and then always with the screen, whatever the client first asked for.
pub proof fn law_reopen_asks_for_screen(pane_id: Seq<char>, events: Seq<EventView>)
    requires
        is_history(pane_id, events),
        events.len() > 0,
        last_action(pane_id, events) is Open,
    ensures
        last_action(pane_id, events) == (ActionView::Open {
            replay: PaneStreamOutputReplay::Screen,
        }),
        events.last() is Written,
        frames_sent(pane_id, events).len() > 0,
        frames_sent(pane_id, events).last() is Lag,
{
    lemma_frames_in_place(pane_id, events);
}

} // verus!
