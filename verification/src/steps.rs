//! What each event makes a session do, whatever came before it.

use crate::channel::StreamAction;
use crate::session::{ActionView, EventView, PhaseView, RepaintView, SessionView};
use crate::subscription::PaneStreamOutputReplay;
use crate::wire::FrameView;
use vstd::prelude::*;

verus! {

/// A session takes exactly the outcomes that the action it waits for can have,
/// however far the stream has come.
pub proof fn law_session_takes_outcomes(session: SessionView, event: EventView)
    ensures
        event is Opened || event is Refused || event is Unregistered ==> (session.accepts(event)
            <==> session.phase is Opening || session.phase is Reopening),
        event is Written || event is ClientGone ==> (session.accepts(event)
            <==> session.phase is Starting || session.phase is Repainting
            || session.phase is Sending || session.phase is Resizing || session.phase is Lagging
            || session.phase is Reporting || session.phase is Closing),
        event is KeepRunning || event is StopRequested ==> (session.accepts(event)
            <==> session.phase is Polling),
        event is Failed ==> (session.accepts(event) <==> session.phase is Starting
            || session.phase is Repainting || session.phase is Sending
            || session.phase is Resizing || session.phase is Lagging
            || session.phase is Reporting || session.phase is Closing
            || session.phase is Polling),
        event is Idle || event is RuntimeGone || event is Output || event is Signal ==> (
        session.accepts(event) <==> session.phase is Receiving),
{
}

/// A stream stays on its pane, and counts the `output` frames that it sends: each
/// carries the number after the last one, until the largest is reached, and nothing
/// else uses up a number.
pub proof fn law_step_counts_output(session: SessionView, event: EventView)
    requires
        session.accepts(event),
    ensures
        session.step(event).0.pane_id == session.pane_id,
        match session.step(event).1 {
            ActionView::Write(FrameView::Output { seq, .. }) => {
                &&& session.step(event).0.seq == seq
                &&& session.seq < u64::MAX ==> seq == session.seq + 1
                &&& session.seq == u64::MAX ==> seq == u64::MAX
            },
            _ => session.step(event).0.seq == session.seq,
        },
{
}

/// A stream that is to go on awaits its pane, and a pane that is silent has the
/// stream ask again whether to go on.
pub proof fn law_running_stream_awaits_pane(session: SessionView, event: EventView)
    requires
        session.accepts(event),
    ensures
        event is KeepRunning <==> session.step(event).1 is Receive,
        event is KeepRunning <==> session.step(event).0.phase is Receiving,
        event is Idle ==> session.step(event).1 is CheckStop && session.step(
            event,
        ).0.phase is Polling,
{
}

/// A stream ends for a reason only: the client or the runtime is gone, the server
/// stops, the pane's end or a failed opening was reported, there is no screen to
/// resync with, or an action met an error. Whenever there is such a reason it does
/// end, and it ends with an error exactly where an action met one, but for the
/// report of the pane's end.
pub proof fn law_step_ends_for_a_reason(session: SessionView, event: EventView)
    requires
        session.accepts(event),
    ensures
        session.step(event).1 is Finish <==> event is ClientGone || event is StopRequested
            || event is RuntimeGone || event is Written && (session.phase is Closing
            || session.phase is Reporting) || event is Failed && session.phase is Closing || (
        event matches EventView::Opened { repaint_ansi, .. } && repaint_ansi is None
            && session.phase is Reopening),
        session.step(event).1 is Fail <==> event is Failed && !(session.phase is Closing),
        session.step(event).0.phase is Ended <==> session.step(event).1 is Finish || session.step(
            event,
        ).1 is Fail,
{
}

/// A subscription that is open is shown to the client: the first one as the start
/// of the stream, with its screen to follow, and a later one by its screen.
pub proof fn law_opened_subscription_is_shown(
    session: SessionView,
    cols: u16,
    rows: u16,
    repaint_ansi: Option<Seq<char>>,
)
    requires
        session.accepts(EventView::Opened { cols, rows, repaint_ansi }),
    ensures
        ({
            let (next, action) = session.step(EventView::Opened { cols, rows, repaint_ansi });
            if session.phase is Opening {
                &&& action == ActionView::Write(
                    FrameView::StreamStarted { pane_id: session.pane_id, cols, rows },
                )
                &&& next.phase matches PhaseView::Starting { repaint } && match repaint_ansi {
                    Some(ansi) => repaint == Some(RepaintView { ansi, cols, rows }),
                    None => repaint is None,
                }
            } else {
                match repaint_ansi {
                    Some(ansi) => action == ActionView::Write(
                        FrameView::Repaint { ansi, cols, rows },
                    ) && next.phase is Repainting,
                    None => action is Finish && next.phase is Ended,
                }
            }
        }),
{
}

/// An opening that failed is reported: the answer of an app that refused, with a
/// line feed, and otherwise that there is no subscription.
pub proof fn law_failed_opening_is_reported(session: SessionView, response: Seq<char>)
    requires
        session.phase is Opening || session.phase is Reopening,
    ensures
        session.step(EventView::Refused { response }).1 == (ActionView::Forward {
            line: response.push('\n'),
        }),
        session.step(EventView::Refused { response }).0.phase is Reporting,
        session.step(EventView::Unregistered).1 == ActionView::Write(
            FrameView::Error { message: "output subscription was not registered"@ },
        ),
        session.step(EventView::Unregistered).0.phase is Reporting,
{
}

/// Output that comes from the pane is sent as it is, and what follows it is kept.
pub proof fn law_received_output_is_sent(
    session: SessionView,
    bytes: Seq<u8>,
    rest: Seq<u8>,
    follow_up: StreamAction,
)
    requires
        session.accepts(EventView::Output { bytes, rest, follow_up }),
    ensures
        ({
            let (next, action) = session.step(EventView::Output { bytes, rest, follow_up });
            &&& action == ActionView::Write(FrameView::Output { seq: next.seq, bytes })
            &&& next.phase == (PhaseView::Sending { rest, follow_up })
        }),
{
}

/// What else a pane does is told to the client as it happened: a new size, a lag or
/// the end. It comes at once where it was awaited, and otherwise right behind the
/// last output before it.
pub proof fn law_signal_is_told(session: SessionView, action: StreamAction, event: EventView)
    requires
        session.accepts(event),
        event == EventView::Signal(action) || event is Written && session.phase
            == (PhaseView::Sending { rest: Seq::empty(), follow_up: action }),
    ensures
        match action {
            StreamAction::Continue => session.step(event).1 is CheckStop && session.step(
                event,
            ).0.phase is Polling,
            StreamAction::Resized { cols, rows } => session.step(event).1 == ActionView::Write(
                FrameView::Resized { cols, rows },
            ) && session.step(event).0.phase is Resizing,
            StreamAction::Lagged => session.step(event).1 == ActionView::Write(FrameView::Lag)
                && session.step(event).0.phase is Lagging,
            StreamAction::Closed => session.step(event).1 == ActionView::Write(FrameView::Closed)
                && session.step(event).0.phase is Closing,
        },
{
}

/// What a session owes the client after a frame comes next: the screen after the
/// start, the rest of a chunk after its beginning, a fresh subscription with a
/// screen after a lag. With nothing owed it asks whether to go on.
pub proof fn law_sent_frame_is_followed_up(session: SessionView)
    requires
        session.accepts(EventView::Written),
    ensures
        ({
            let (next, action) = session.step(EventView::Written);
            match session.phase {
                PhaseView::Starting { repaint: Some(screen) } => action == ActionView::Write(
                    FrameView::Repaint { ansi: screen.ansi, cols: screen.cols, rows: screen.rows },
                ) && next.phase is Repainting,
                PhaseView::Sending { rest, follow_up } => rest.len() > 0 ==> action
                    == ActionView::Write(FrameView::Output { seq: next.seq, bytes: rest })
                    && next.phase == (PhaseView::Sending { rest: Seq::empty(), follow_up }),
                PhaseView::Lagging => action == (ActionView::Open {
                    replay: PaneStreamOutputReplay::Screen,
                }) && next.phase is Reopening,
                PhaseView::Reporting | PhaseView::Closing => action is Finish
                    && next.phase is Ended,
                _ => action is CheckStop && next.phase is Polling,
            }
        }),
{
}

} // verus!
