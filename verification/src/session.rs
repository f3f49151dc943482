//! One client's stream, as a state machine.
//!
//! A [`Session`] decides what the thread that serves a client does next. The
//! thread performs the [`Action`] that it is given and reports what came of it
//! as an [`Event`].

use crate::channel::{
    answers, drain_ready_output, drains_to, PaneOutputFrame, PollView, StreamAction,
};
use crate::subscription::PaneStreamOutputReplay;
use crate::wire::{FrameView, OutputFrame};
use tokio::sync::broadcast;
use vstd::prelude::*;

verus! {

/// A screen to be shown to the client.
pub struct Repaint {
    pub ansi: String,
    pub cols: u16,
    pub rows: u16,
}

/// The model of a [`Repaint`].
pub struct RepaintView {
    pub ansi: Seq<char>,
    pub cols: u16,
    pub rows: u16,
}

impl View for Repaint {
    type V = RepaintView;

    open spec fn view(&self) -> RepaintView {
        RepaintView { ansi: self.ansi@, cols: self.cols, rows: self.rows }
    }
}

/// What a session waits for.
pub enum Phase {
    /// The first subscription is being opened.
    Opening,
    /// `stream_started` is being sent; the repaint comes next.
    Starting { repaint: Option<Repaint> },
    /// A repaint is being sent.
    Repainting,
    /// The server and the client are being asked whether to go on.
    Polling,
    /// The next event of the pane is being awaited.
    Receiving,
    /// Output is being sent; the rest and then the action come next.
    Sending { rest: Vec<u8>, follow_up: StreamAction },
    /// A new size is being sent.
    Resizing,
    /// The news of a lag is being sent.
    Lagging,
    /// A fresh subscription is being opened after a lag.
    Reopening,
    /// The news that there is no subscription is being sent.
    Reporting,
    /// The news of the pane's end is being sent.
    Closing,
    /// The stream is over.
    Ended,
}

/// The model of a [`Phase`].
pub enum PhaseView {
    Opening,
    Starting { repaint: Option<RepaintView> },
    Repainting,
    Polling,
    Receiving,
    Sending { rest: Seq<u8>, follow_up: StreamAction },
    Resizing,
    Lagging,
    Reopening,
    Reporting,
    Closing,
    Ended,
}

impl View for Phase {
    type V = PhaseView;

    open spec fn view(&self) -> PhaseView {
        match self {
            Phase::Opening => PhaseView::Opening,
            Phase::Starting { repaint } => PhaseView::Starting {
                repaint: match repaint {
                    Some(repaint) => Some(repaint@),
                    None => None,
                },
            },
            Phase::Repainting => PhaseView::Repainting,
            Phase::Polling => PhaseView::Polling,
            Phase::Receiving => PhaseView::Receiving,
            Phase::Sending { rest, follow_up } => PhaseView::Sending {
                rest: rest@,
                follow_up: *follow_up,
            },
            Phase::Resizing => PhaseView::Resizing,
            Phase::Lagging => PhaseView::Lagging,
            Phase::Reopening => PhaseView::Reopening,
            Phase::Reporting => PhaseView::Reporting,
            Phase::Closing => PhaseView::Closing,
            Phase::Ended => PhaseView::Ended,
        }
    }
}

/// What the serving thread is to do next.
pub enum Action {
    /// Open a subscription to the pane.
    Open { replay: PaneStreamOutputReplay },
    /// Send a frame.
    Write(OutputFrame),
    /// Send the line that holds the app's answer as it is.
    Forward { line: String },
    /// Ask whether the stream is to stop.
    CheckStop,
    /// Await the next event of the pane, for a short while.
    Receive,
    /// End the stream.
    Finish,
    /// End the stream with the error that the last action met.
    Fail,
}

/// The model of an [`Action`].
pub enum ActionView {
    Open { replay: PaneStreamOutputReplay },
    Write(FrameView),
    Forward { line: Seq<char> },
    CheckStop,
    Receive,
    Finish,
    Fail,
}

impl View for Action {
    type V = ActionView;

    open spec fn view(&self) -> ActionView {
        match self {
            Action::Open { replay } => ActionView::Open { replay: *replay },
            Action::Write(frame) => ActionView::Write(frame@),
            Action::Forward { line } => ActionView::Forward { line: line@ },
            Action::CheckStop => ActionView::CheckStop,
            Action::Receive => ActionView::Receive,
            Action::Finish => ActionView::Finish,
            Action::Fail => ActionView::Fail,
        }
    }
}

/// The model of an action holds what the action holds.
pub proof fn law_action_model_is_faithful(action: Action)
    ensures
        match action {
            Action::Open { replay } => action@ == (ActionView::Open { replay }),
            Action::Write(frame) => action@ == ActionView::Write(frame@),
            Action::Forward { line } => action@ == (ActionView::Forward { line: line@ }),
            Action::CheckStop => action@ == ActionView::CheckStop,
            Action::Receive => action@ == ActionView::Receive,
            Action::Finish => action@ == ActionView::Finish,
            Action::Fail => action@ == ActionView::Fail,
        },
{
}

/// What came of the last action.
pub enum Event {
    /// The subscription is open.
    Opened { cols: u16, rows: u16, repaint_ansi: Option<String> },
    /// The app refused to open a subscription; this is its answer.
    Refused { response: String },
    /// The app agreed to open a subscription, but there is none.
    Unregistered,
    /// The frame or the answer was sent.
    Written,
    /// The client is gone.
    ClientGone,
    /// The action met an error.
    Failed,
    /// The stream is to go on.
    KeepRunning,
    /// The stream is to stop.
    StopRequested,
    /// Nothing happened in the pane for now.
    Idle,
    /// The app's runtime is shutting down.
    RuntimeGone,
    /// The pane produced output: what goes into one frame, the rest of it, and
    /// the action that comes after it.
    Output { bytes: Vec<u8>, rest: Vec<u8>, follow_up: StreamAction },
    /// The pane did something else.
    Signal(StreamAction),
}

/// The model of an [`Event`].
pub enum EventView {
    Opened { cols: u16, rows: u16, repaint_ansi: Option<Seq<char>> },
    Refused { response: Seq<char> },
    Unregistered,
    Written,
    ClientGone,
    Failed,
    KeepRunning,
    StopRequested,
    Idle,
    RuntimeGone,
    Output { bytes: Seq<u8>, rest: Seq<u8>, follow_up: StreamAction },
    Signal(StreamAction),
}

impl View for Event {
    type V = EventView;

    open spec fn view(&self) -> EventView {
        match self {
            Event::Opened { cols, rows, repaint_ansi } => EventView::Opened {
                cols: *cols,
                rows: *rows,
                repaint_ansi: match repaint_ansi {
                    Some(ansi) => Some(ansi@),
                    None => None,
                },
            },
            Event::Refused { response } => EventView::Refused { response: response@ },
            Event::Unregistered => EventView::Unregistered,
            Event::Written => EventView::Written,
            Event::ClientGone => EventView::ClientGone,
            Event::Failed => EventView::Failed,
            Event::KeepRunning => EventView::KeepRunning,
            Event::StopRequested => EventView::StopRequested,
            Event::Idle => EventView::Idle,
            Event::RuntimeGone => EventView::RuntimeGone,
            Event::Output { bytes, rest, follow_up } => EventView::Output {
                bytes: bytes@,
                rest: rest@,
                follow_up: *follow_up,
            },
            Event::Signal(action) => EventView::Signal(*action),
        }
    }
}

/// The model of an event holds what the event holds.
pub proof fn law_event_model_is_faithful(event: Event)
    ensures
        match event {
            Event::Opened { cols, rows, repaint_ansi: Some(ansi) } => event@
                == (EventView::Opened { cols, rows, repaint_ansi: Some(ansi@) }),
            Event::Opened { cols, rows, repaint_ansi: None } => event@ == (EventView::Opened {
                cols,
                rows,
                repaint_ansi: None,
            }),
            Event::Refused { response } => event@ == (EventView::Refused { response: response@ }),
            Event::Unregistered => event@ == EventView::Unregistered,
            Event::Written => event@ == EventView::Written,
            Event::ClientGone => event@ == EventView::ClientGone,
            Event::Failed => event@ == EventView::Failed,
            Event::KeepRunning => event@ == EventView::KeepRunning,
            Event::StopRequested => event@ == EventView::StopRequested,
            Event::Idle => event@ == EventView::Idle,
            Event::RuntimeGone => event@ == EventView::RuntimeGone,
            Event::Output { bytes, rest, follow_up } => event@ == (EventView::Output {
                bytes: bytes@,
                rest: rest@,
                follow_up,
            }),
            Event::Signal(action) => event@ == EventView::Signal(action),
        },
{
}

/// What came of awaiting the pane's next event.
pub enum RecvOutcome {
    Frame(PaneOutputFrame),
    Timeout,
    Lagged,
    Closed,
    RuntimeGone,
}

/// Whether `event` comes of `outcome` when the receiver then answers `polls`:
/// output is joined by what more of it is ready, and everything else stands for
/// itself, without another question.
pub open spec fn comes_of(outcome: RecvOutcome, polls: Seq<PollView>, event: EventView) -> bool {
    match outcome {
        RecvOutcome::Frame(PaneOutputFrame::Output(first)) => match event {
            EventView::Output { bytes, rest, follow_up } => drains_to(
                first@,
                polls,
                bytes,
                rest,
                follow_up,
            ),
            _ => false,
        },
        RecvOutcome::Frame(PaneOutputFrame::Resized { cols, rows }) => polls.len() == 0 && event
            == EventView::Signal(StreamAction::Resized { cols, rows }),
        RecvOutcome::Timeout => polls.len() == 0 && event is Idle,
        RecvOutcome::Lagged => polls.len() == 0 && event == EventView::Signal(StreamAction::Lagged),
        RecvOutcome::Closed => polls.len() == 0 && event == EventView::Signal(StreamAction::Closed),
        RecvOutcome::RuntimeGone => polls.len() == 0 && event is RuntimeGone,
    }
}

/// What awaiting the pane gave decides the event: output is drained into the chunk
/// that was awaited, a new size is passed on as it was reported, and nothing else
/// asks the channel again.
pub proof fn law_outcome_decides_event(outcome: RecvOutcome, polls: Seq<PollView>, event: EventView)
    requires
        comes_of(outcome, polls, event),
    ensures
        match outcome {
            RecvOutcome::Frame(PaneOutputFrame::Output(first)) => event matches EventView::Output {
                bytes,
                rest,
                follow_up,
            } && drains_to(first@, polls, bytes, rest, follow_up),
            RecvOutcome::Frame(PaneOutputFrame::Resized { cols, rows }) => event
                == EventView::Signal(StreamAction::Resized { cols, rows }),
            RecvOutcome::Timeout => event == EventView::Idle,
            RecvOutcome::Lagged => event == EventView::Signal(StreamAction::Lagged),
            RecvOutcome::Closed => event == EventView::Signal(StreamAction::Closed),
            RecvOutcome::RuntimeGone => event == EventView::RuntimeGone,
        },
        !(outcome matches RecvOutcome::Frame(PaneOutputFrame::Output(_))) ==> polls.len() == 0,
{
}

/// The event that `outcome` stands for. Where it is output, the receiver is asked
/// for what more of it is ready.
pub fn received_event(
    outcome: RecvOutcome,
    receiver: &mut broadcast::Receiver<PaneOutputFrame>,
) -> (event: Event)
    ensures
        exists|polls: Seq<PollView>|
            answers(*final(receiver)) == answers(*old(receiver)) + polls && #[trigger] comes_of(
                outcome,
                polls,
                event@,
            ),
        match outcome {
            RecvOutcome::Frame(PaneOutputFrame::Output(_)) => event is Output,
            RecvOutcome::Frame(PaneOutputFrame::Resized { cols, rows }) => event == Event::Signal(
                StreamAction::Resized { cols, rows },
            ),
            RecvOutcome::Timeout => event == Event::Idle,
            RecvOutcome::Lagged => event == Event::Signal(StreamAction::Lagged),
            RecvOutcome::Closed => event == Event::Signal(StreamAction::Closed),
            RecvOutcome::RuntimeGone => event == Event::RuntimeGone,
        },
{
    let ghost mut polls: Seq<PollView> = Seq::empty();
    let event = match outcome {
        RecvOutcome::Frame(PaneOutputFrame::Output(first)) => {
            let ghost chunk = first@;
            let mut bytes = first;
            let mut rest: Vec<u8> = Vec::new();
            let follow_up = drain_ready_output(receiver, &mut bytes, &mut rest);
            proof {
                let (asked, over) = choose|asked: Seq<PollView>, over: Seq<u8>|
                    answers(*receiver) == answers(*old(receiver)) + asked && rest@ == Seq::<
                        u8,
                    >::empty() + over && #[trigger] drains_to(
                        chunk,
                        asked,
                        bytes@,
                        over,
                        follow_up,
                    );
                polls = asked;
                assert(rest@ =~= over);
            }
            Event::Output { bytes, rest, follow_up }
        },
        RecvOutcome::Frame(PaneOutputFrame::Resized { cols, rows }) => Event::Signal(
            StreamAction::Resized { cols, rows },
        ),
        RecvOutcome::Timeout => Event::Idle,
        RecvOutcome::Lagged => Event::Signal(StreamAction::Lagged),
        RecvOutcome::Closed => Event::Signal(StreamAction::Closed),
        RecvOutcome::RuntimeGone => Event::RuntimeGone,
    };
    assert(answers(*receiver) =~= answers(*old(receiver)) + polls);
    assert(comes_of(outcome, polls, event@));
    event
}

/// The stream of one pane's output to one client.
pub struct Session {
    pane_id: String,
    /// The number of the last `output` frame.
    seq: u64,
    phase: Phase,
}

/// The model of a [`Session`].
pub struct SessionView {
    pub pane_id: Seq<char>,
    pub seq: u64,
    pub phase: PhaseView,
}

impl View for Session {
    type V = SessionView;

    closed spec fn view(&self) -> SessionView {
        SessionView { pane_id: self.pane_id@, seq: self.seq, phase: self.phase@ }
    }
}

/// The frame that reports a subscription that the app never stashed.
pub open spec fn unregistered_frame() -> FrameView {
    FrameView::Error { message: "output subscription was not registered"@ }
}

impl SessionView {
    /// A session before anything came of its first action.
    pub open spec fn initial(pane_id: Seq<char>) -> SessionView {
        SessionView { pane_id, seq: 0, phase: PhaseView::Opening }
    }

    pub open spec fn with_phase(self, phase: PhaseView) -> SessionView {
        SessionView { phase, ..self }
    }

    /// Whether `event` can come of the action that this session waits for.
    pub open spec fn accepts(self, event: EventView) -> bool {
        match self.phase {
            PhaseView::Opening | PhaseView::Reopening => event is Opened || event is Refused
                || event is Unregistered,
            PhaseView::Starting { .. }
            | PhaseView::Repainting
            | PhaseView::Sending { .. }
            | PhaseView::Resizing
            | PhaseView::Lagging
            | PhaseView::Reporting
            | PhaseView::Closing => event is Written || event is ClientGone || event is Failed,
            PhaseView::Polling => event is KeepRunning || event is StopRequested || event is Failed,
            PhaseView::Receiving => event is Idle || event is RuntimeGone || event is Output
                || event is Signal,
            PhaseView::Ended => false,
        }
    }

    /// The session asks whether to go on.
    pub open spec fn poll(self) -> (SessionView, ActionView) {
        (self.with_phase(PhaseView::Polling), ActionView::CheckStop)
    }

    /// The session is over, without an error.
    pub open spec fn finish(self) -> (SessionView, ActionView) {
        (self.with_phase(PhaseView::Ended), ActionView::Finish)
    }

    /// The session is over, with the error that the last action met.
    pub open spec fn fail(self) -> (SessionView, ActionView) {
        (self.with_phase(PhaseView::Ended), ActionView::Fail)
    }

    /// The session sends a frame.
    pub open spec fn send(self, phase: PhaseView, frame: FrameView) -> (SessionView, ActionView) {
        (self.with_phase(phase), ActionView::Write(frame))
    }

    /// What follows once all output that was held is sent.
    pub open spec fn react(self, action: StreamAction) -> (SessionView, ActionView) {
        match action {
            StreamAction::Continue => self.poll(),
            StreamAction::Resized { cols, rows } => self.send(
                PhaseView::Resizing,
                FrameView::Resized { cols, rows },
            ),
            StreamAction::Lagged => self.send(PhaseView::Lagging, FrameView::Lag),
            StreamAction::Closed => self.send(PhaseView::Closing, FrameView::Closed),
        }
    }

    /// What follows once a frame is sent.
    pub open spec fn after_write(self) -> (SessionView, ActionView) {
        match self.phase {
            PhaseView::Starting { repaint: Some(repaint) } => self.send(
                PhaseView::Repainting,
                FrameView::Repaint { ansi: repaint.ansi, cols: repaint.cols, rows: repaint.rows },
            ),
            PhaseView::Sending { rest, follow_up } => if rest.len() > 0 {
                self.send_output(rest, Seq::empty(), follow_up)
            } else {
                self.react(follow_up)
            },
            PhaseView::Lagging => (
                self.with_phase(PhaseView::Reopening),
                ActionView::Open { replay: PaneStreamOutputReplay::Screen },
            ),
            PhaseView::Reporting | PhaseView::Closing => self.finish(),
            _ => self.poll(),
        }
    }

    /// What follows once a subscription is open.
    pub open spec fn after_open(
        self,
        cols: u16,
        rows: u16,
        repaint_ansi: Option<Seq<char>>,
    ) -> (SessionView, ActionView) {
        if self.phase is Opening {
            self.send(
                PhaseView::Starting {
                    repaint: match repaint_ansi {
                        Some(ansi) => Some(RepaintView { ansi, cols, rows }),
                        None => None,
                    },
                },
                FrameView::StreamStarted { pane_id: self.pane_id, cols, rows },
            )
        } else {
            match repaint_ansi {
                Some(ansi) => self.send(
                    PhaseView::Repainting,
                    FrameView::Repaint { ansi, cols, rows },
                ),
                None => self.finish(),
            }
        }
    }

    /// The number of the next `output` frame.
    pub open spec fn next_seq(self) -> u64 {
        if self.seq == u64::MAX {
            u64::MAX
        } else {
            (self.seq + 1) as u64
        }
    }

    /// The session sends output under the next number.
    pub open spec fn send_output(
        self,
        bytes: Seq<u8>,
        rest: Seq<u8>,
        follow_up: StreamAction,
    ) -> (SessionView, ActionView) {
        SessionView { seq: self.next_seq(), ..self }.send(
            PhaseView::Sending { rest, follow_up },
            FrameView::Output { seq: self.next_seq(), bytes },
        )
    }

    /// The session after `event`, and its next action.
    pub open spec fn step(self, event: EventView) -> (SessionView, ActionView) {
        match event {
            EventView::Opened { cols, rows, repaint_ansi } => self.after_open(
                cols,
                rows,
                repaint_ansi,
            ),
            EventView::Refused { response } => (
                self.with_phase(PhaseView::Reporting),
                ActionView::Forward { line: response.push('\n') },
            ),
            EventView::Unregistered => self.send(PhaseView::Reporting, unregistered_frame()),
            EventView::Written => self.after_write(),
            EventView::KeepRunning => (
                self.with_phase(PhaseView::Receiving),
                ActionView::Receive,
            ),
            EventView::Idle => self.poll(),
            EventView::Output { bytes, rest, follow_up } => self.send_output(
                bytes,
                rest,
                follow_up,
            ),
            EventView::Signal(action) => self.react(action),
            EventView::Failed => if self.phase is Closing {
                self.finish()
            } else {
                self.fail()
            },
            EventView::ClientGone | EventView::StopRequested | EventView::RuntimeGone => {
                self.finish()
            },
        }
    }
}

impl Session {
    /// A stream of the pane's output, and its first action.
    pub fn start(pane_id: &str, replay: PaneStreamOutputReplay) -> (started: (Session, Action))
        ensures
            started.0@ == SessionView::initial(pane_id@),
            started.0@ == (SessionView { pane_id: pane_id@, seq: 0, phase: PhaseView::Opening }),
            started.1@ == (ActionView::Open { replay }),
    {
        (
            Session { pane_id: pane_id.to_owned(), seq: 0, phase: Phase::Opening },
            Action::Open { replay },
        )
    }

    /// Whether `event` can come of the action that this session waits for.
    pub fn accepts(&self, event: &Event) -> (accepted: bool)
        ensures
            accepted == self@.accepts(event@),
    {
        match (&self.phase, event) {
            (
                Phase::Opening | Phase::Reopening,
                Event::Opened { .. } | Event::Refused { .. } | Event::Unregistered,
            ) => true,
            (
                Phase::Starting { .. }
                | Phase::Repainting
                | Phase::Sending { .. }
                | Phase::Resizing
                | Phase::Lagging
                | Phase::Reporting
                | Phase::Closing,
                Event::Written | Event::ClientGone | Event::Failed,
            ) => true,
            (Phase::Polling, Event::KeepRunning | Event::StopRequested | Event::Failed) => true,
            (
                Phase::Receiving,
                Event::Idle | Event::RuntimeGone | Event::Output { .. } | Event::Signal(_),
            ) => true,
            _ => false,
        }
    }

    fn poll(&mut self) -> (action: Action)
        ensures
            (final(self)@, action@) == old(self)@.poll(),
    {
        self.phase = Phase::Polling;
        Action::CheckStop
    }

    fn finish(&mut self) -> (action: Action)
        ensures
            (final(self)@, action@) == old(self)@.finish(),
    {
        self.phase = Phase::Ended;
        Action::Finish
    }

    fn react(&mut self, action: StreamAction) -> (next: Action)
        ensures
            (final(self)@, next@) == old(self)@.react(action),
    {
        match action {
            StreamAction::Continue => self.poll(),
            StreamAction::Resized { cols, rows } => {
                self.phase = Phase::Resizing;
                Action::Write(OutputFrame::Resized { cols, rows })
            },
            StreamAction::Lagged => {
                self.phase = Phase::Lagging;
                Action::Write(OutputFrame::Lag)
            },
            StreamAction::Closed => {
                self.phase = Phase::Closing;
                Action::Write(OutputFrame::Closed)
            },
        }
    }

    fn after_write(&mut self) -> (action: Action)
        ensures
            (final(self)@, action@) == old(self)@.after_write(),
    {
        let mut phase = Phase::Polling;
        core::mem::swap(&mut self.phase, &mut phase);
        match phase {
            Phase::Starting { repaint: Some(repaint) } => {
                self.phase = Phase::Repainting;
                Action::Write(
                    OutputFrame::Repaint {
                        ansi: repaint.ansi,
                        cols: repaint.cols,
                        rows: repaint.rows,
                    },
                )
            },
            Phase::Sending { rest, follow_up } => {
                if rest.len() > 0 {
                    let no_rest: Vec<u8> = Vec::new();
                    assert(no_rest@ =~= Seq::<u8>::empty());
                    self.send_output(rest, no_rest, follow_up)
                } else {
                    self.react(follow_up)
                }
            },
            Phase::Lagging => {
                self.phase = Phase::Reopening;
                Action::Open { replay: PaneStreamOutputReplay::Screen }
            },
            Phase::Reporting | Phase::Closing => self.finish(),
            _ => self.poll(),
        }
    }

    fn after_open(&mut self, cols: u16, rows: u16, repaint_ansi: Option<String>) -> (action: Action)
        ensures
            (final(self)@, action@) == old(self)@.after_open(
                cols,
                rows,
                (match repaint_ansi {
                    Some(ansi) => Some(ansi@),
                    None => None,
                }),
            ),
    {
        if matches!(self.phase, Phase::Opening) {
            let repaint = match repaint_ansi {
                Some(ansi) => Some(Repaint { ansi, cols, rows }),
                None => None,
            };
            self.phase = Phase::Starting { repaint };
            Action::Write(
                OutputFrame::StreamStarted { pane_id: self.pane_id.clone(), cols, rows },
            )
        } else {
            match repaint_ansi {
                Some(ansi) => {
                    self.phase = Phase::Repainting;
                    Action::Write(OutputFrame::Repaint { ansi, cols, rows })
                },
                None => self.finish(),
            }
        }
    }

    fn send_output(&mut self, bytes: Vec<u8>, rest: Vec<u8>, follow_up: StreamAction) -> (action:
        Action)
        ensures
            (final(self)@, action@) == old(self)@.send_output(bytes@, rest@, follow_up),
    {
        self.seq = self.seq.saturating_add(1);
        self.phase = Phase::Sending { rest, follow_up };
        Action::Write(OutputFrame::Output { seq: self.seq, bytes })
    }

    /// Takes what came of the last action, and gives the next one.
    pub fn step(&mut self, event: Event) -> (action: Action)
        requires
            old(self)@.accepts(event@),
        ensures
            (final(self)@, action@) == old(self)@.step(event@),
    {
        match event {
            Event::Opened { cols, rows, repaint_ansi } => self.after_open(cols, rows, repaint_ansi),
            Event::Refused { response } => {
                self.phase = Phase::Reporting;
                let mut line = response;
                let ghost answer = line@;
                line.append("\n");
                proof {
                    reveal_strlit("\n");
                    assert(line@ =~= answer.push('\n'));
                }
                Action::Forward { line }
            },
            Event::Unregistered => {
                self.phase = Phase::Reporting;
                Action::Write(
                    OutputFrame::Error {
                        message: "output subscription was not registered".to_owned(),
                    },
                )
            },
            Event::Written => self.after_write(),
            Event::KeepRunning => {
                self.phase = Phase::Receiving;
                Action::Receive
            },
            Event::Idle => self.poll(),
            Event::Output { bytes, rest, follow_up } => self.send_output(bytes, rest, follow_up),
            Event::Signal(action) => self.react(action),
            Event::Failed => {
                if matches!(self.phase, Phase::Closing) {
                    self.finish()
                } else {
                    self.phase = Phase::Ended;
                    Action::Fail
                }
            },
            Event::ClientGone | Event::StopRequested | Event::RuntimeGone => self.finish(),
        }
    }
}

} // verus!
