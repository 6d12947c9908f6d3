//! The streaming session of one connection, as a state machine: the caller
//! hands in what happened and is told what to do next.

use crate::detector::{
    ChangeDetector, DetectorState, Observation, Verdict, MAX_UNCHANGED_FRAMES,
};
use crate::encoder::{bytes_of, frame_of_sample, generate_bitmap, EncodeError};
use crate::layout::{check_frame_fits, frame_fits};
use vstd::prelude::*;

verus! {

/// Milliseconds between two ticks of the sampling clock.
pub const SAMPLING_INTERVAL_MS: u64 = 100;

/// Where a session stands.
#[derive(Clone, Copy, Debug, PartialEq, Eq, Structural)]
pub enum Phase {
    /// Waiting for the next tick of the clock, or for the sample that the
    /// last tick asked for.
    Sampling,
    /// The last tick found streaming switched off: nothing was sampled.
    Paused,
    /// A new frame was handed to the transport.
    Sending,
    /// The transport failed or the client went away: a close frame is being
    /// tried.
    Closing,
    /// Over. Nothing is processed any more.
    Closed,
}

/// What happened outside the session.
#[derive(Debug, PartialEq, Eq)]
pub enum Event {
    /// The clock ticked; `should_update` is what the shared flag read then.
    Tick { should_update: bool },
    /// The frame source answered: a raw frame, or nothing rendered yet.
    Sampled(Option<Vec<u8>>),
    /// The transport took the frame.
    Sent,
    /// The transport failed to take the frame.
    SendFailed,
    /// The client disconnected, or the session was told to stop.
    Disconnected,
    /// The close frame was tried, with whatever outcome.
    CloseAttempted,
}

/// What the caller is to do next.
#[derive(Debug, PartialEq, Eq)]
pub enum Action {
    /// Nothing, until the next event.
    Wait,
    /// Fetch the current frame from the frame source and hand it in.
    Sample,
    /// Push this frame to the client and hand in how that went.
    Send(Vec<u8>),
    /// Switch the shared flag off: nothing has changed for too long.
    Pause,
    /// Try to send a close frame, once, and hand in that it was tried.
    Close,
    /// Release the session: it is over.
    Release,
    /// Stop the session at once: the frame source broke its contract.
    Abort(EncodeError),
}

/// An event, with the bytes it carries as a sequence.
pub enum EventView {
    Tick { should_update: bool },
    Sampled(Option<Seq<u8>>),
    Sent,
    SendFailed,
    Disconnected,
    CloseAttempted,
}

/// An action, with the bytes it carries as a sequence.
pub enum ActionView {
    Wait,
    Sample,
    Send(Seq<u8>),
    Pause,
    Close,
    Release,
    Abort(EncodeError),
}

/// The bytes of a sample, where there is one.
pub open spec fn sample_bytes(sample: Option<Vec<u8>>) -> Option<Seq<u8>> {
    match sample {
        Some(raw) => Some(raw@),
        None => None,
    }
}

impl View for Event {
    type V = EventView;

    open spec fn view(&self) -> EventView {
        match *self {
            Event::Tick { should_update } => EventView::Tick { should_update },
            Event::Sampled(sample) => EventView::Sampled(sample_bytes(sample)),
            Event::Sent => EventView::Sent,
            Event::SendFailed => EventView::SendFailed,
            Event::Disconnected => EventView::Disconnected,
            Event::CloseAttempted => EventView::CloseAttempted,
        }
    }
}

impl View for Action {
    type V = ActionView;

    open spec fn view(&self) -> ActionView {
        match *self {
            Action::Wait => ActionView::Wait,
            Action::Sample => ActionView::Sample,
            Action::Send(frame) => ActionView::Send(frame@),
            Action::Pause => ActionView::Pause,
            Action::Close => ActionView::Close,
            Action::Release => ActionView::Release,
            Action::Abort(error) => ActionView::Abort(error),
        }
    }
}

/// The state of a session.
pub struct SessionState {
    pub phase: Phase,
    /// The frame source was asked for a sample and has not answered yet.
    pub awaiting_sample: bool,
    pub detector: DetectorState,
    pub width: u32,
    pub height: u32,
}

impl SessionState {
    /// The state of a session that was just opened: sampling, with nothing
    /// sent and nothing asked of the frame source.
    pub open spec fn initial(width: u32, height: u32) -> SessionState {
        SessionState {
            phase: Phase::Sampling,
            awaiting_sample: false,
            detector: DetectorState::initial(),
            width,
            height,
        }
    }

    /// What holds of every state that a session gets into.
    pub open spec fn wf(self) -> bool {
        &&& frame_fits(self.width, self.height)
        &&& self.detector.wf()
        &&& self.awaiting_sample ==> self.phase == Phase::Sampling
    }

    /// The session has not begun to close.
    pub open spec fn is_live(self) -> bool {
        self.phase == Phase::Sampling || self.phase == Phase::Paused || self.phase
            == Phase::Sending
    }

    /// The session is live and in the middle of nothing: the next tick is
    /// acted upon.
    pub open spec fn is_idle(self) -> bool {
        (self.phase == Phase::Sampling || self.phase == Phase::Paused) && !self.awaiting_sample
    }

    /// This state in another phase, with no sample asked for.
    pub open spec fn moved_to(self, phase: Phase) -> SessionState {
        SessionState { phase, awaiting_sample: false, ..self }
    }

    /// The state after a tick, and what is to be done. A tick that comes
    /// while a sample or a send is under way is not acted upon. Otherwise the
    /// session pauses where the flag is off, and asks for a sample where it
    /// is on.
    pub open spec fn on_tick(self, should_update: bool) -> (SessionState, ActionView) {
        if !self.is_idle() {
            (self, ActionView::Wait)
        } else if !should_update {
            (self.moved_to(Phase::Paused), ActionView::Wait)
        } else {
            (
                SessionState { phase: Phase::Sampling, awaiting_sample: true, ..self },
                ActionView::Sample,
            )
        }
    }

    /// The state after the frame source answered, and what is to be done. An
    /// answer that was not asked for is dropped. A sample that cannot be
    /// encoded stops the session. A frame that differs from the last one sent
    /// is sent; one that equals it is not, and the tenth such in a row pauses
    /// streaming.
    pub open spec fn on_sample(self, sample: Option<Seq<u8>>) -> (SessionState, ActionView) {
        if !self.awaiting_sample {
            (self, ActionView::Wait)
        } else {
            match frame_of_sample(sample, self.width, self.height) {
                Err(error) => (self.moved_to(Phase::Closed), ActionView::Abort(error)),
                Ok(frame) => {
                    let detector = self.detector.after(frame);
                    match self.detector.verdict(frame) {
                        Verdict::Forward => (
                            SessionState { detector, ..self.moved_to(Phase::Sending) },
                            ActionView::Send(frame),
                        ),
                        Verdict::Skip => (
                            SessionState { detector, ..self.moved_to(Phase::Sampling) },
                            ActionView::Wait,
                        ),
                        Verdict::Pause => (
                            SessionState { detector, ..self.moved_to(Phase::Sampling) },
                            ActionView::Pause,
                        ),
                    }
                },
            }
        }
    }

    /// The state after `event`, and what is to be done.
    ///
    /// A closed session stays closed. A closing session is closed by whatever
    /// comes next. A live session begins to close on a failed send or a
    /// disconnect, goes back to sampling when a send is done, and takes ticks
    /// and samples as `on_tick` and `on_sample` say.
    pub open spec fn next(self, event: EventView) -> (SessionState, ActionView) {
        match self.phase {
            Phase::Closed => (self, ActionView::Release),
            Phase::Closing => (self.moved_to(Phase::Closed), ActionView::Release),
            _ => match event {
                EventView::SendFailed | EventView::Disconnected => (
                    self.moved_to(Phase::Closing),
                    ActionView::Close,
                ),
                EventView::Tick { should_update } => self.on_tick(should_update),
                EventView::Sampled(sample) => self.on_sample(sample),
                EventView::Sent => if self.phase == Phase::Sending {
                    (self.moved_to(Phase::Sampling), ActionView::Wait)
                } else {
                    (self, ActionView::Wait)
                },
                EventView::CloseAttempted => (self, ActionView::Wait),
            },
        }
    }

    /// The state after all of `events`, one after the other.
    pub open spec fn after_all(self, events: Seq<EventView>) -> SessionState
        decreases events.len(),
    {
        if events.len() == 0 {
            self
        } else {
            self.after_all(events.drop_last()).next(events.last()).0
        }
    }

    /// What is to be done on event `i` of `events`.
    pub open spec fn action_at(self, events: Seq<EventView>, i: int) -> ActionView {
        self.after_all(events.subrange(0, i)).next(events[i]).1
    }

    /// The state after one cycle: a tick that finds streaming switched on,
    /// and then the answer of the frame source.
    pub open spec fn after_cycle(self, sample: Option<Seq<u8>>) -> SessionState {
        self.next(EventView::Tick { should_update: true }).0.next(EventView::Sampled(sample)).0
    }

    /// What is to be done at the end of such a cycle.
    pub open spec fn cycle_action(self, sample: Option<Seq<u8>>) -> ActionView {
        self.next(EventView::Tick { should_update: true }).0.next(EventView::Sampled(sample)).1
    }

    /// The state after `cycles` such cycles with the same answer.
    pub open spec fn after_cycles(self, sample: Option<Seq<u8>>, cycles: nat) -> SessionState
        decreases cycles,
    {
        if cycles == 0 {
            self
        } else {
            self.after_cycles(sample, (cycles - 1) as nat).after_cycle(sample)
        }
    }
}

/// The session of one connection.
#[derive(Debug)]
pub struct Session {
    phase: Phase,
    awaiting_sample: bool,
    detector: ChangeDetector,
    width: u32,
    height: u32,
}

impl View for Session {
    type V = SessionState;

    closed spec fn view(&self) -> SessionState {
        SessionState {
            phase: self.phase,
            awaiting_sample: self.awaiting_sample,
            detector: self.detector@,
            width: self.width,
            height: self.height,
        }
    }
}

impl Session {
    /// Opens a session for frames of `width` by `height` pixels. It starts
    /// out sampling; nothing is asked of the frame source yet.
    ///
    /// Fails with `FrameTooLarge` exactly where the dimensions do not fit the
    /// header of a frame.
    pub fn new(width: u32, height: u32) -> (opened: Result<Session, EncodeError>)
        ensures
            frame_fits(width, height) ==> (opened matches Ok(session) && session@
                == SessionState::initial(width, height) && session@.wf()),
            !frame_fits(width, height) ==> (opened matches Err(error) && error
                == EncodeError::FrameTooLarge),
    {
        if !check_frame_fits(width, height) {
            return Err(EncodeError::FrameTooLarge);
        }
        Ok(
            Session {
                phase: Phase::Sampling,
                awaiting_sample: false,
                detector: ChangeDetector::new(),
                width,
                height,
            },
        )
    }

    /// Where the session stands.
    pub fn phase(&self) -> (phase: Phase)
        ensures
            phase == self@.phase,
    {
        self.phase
    }

    /// The detector of this session.
    pub fn detector(&self) -> (detector: &ChangeDetector)
        ensures
            detector@ == self@.detector,
    {
        &self.detector
    }

    /// Takes one event and says what is to be done next.
    pub fn step(&mut self, event: Event) -> (action: Action)
        ensures
            final(self)@ == old(self)@.next(event@).0,
            action@ == old(self)@.next(event@).1,
            old(self)@.wf() ==> final(self)@.wf(),
    {
        match self.phase {
            Phase::Closed => Action::Release,
            Phase::Closing => {
                self.phase = Phase::Closed;
                self.awaiting_sample = false;
                Action::Release
            },
            _ => match event {
                Event::SendFailed | Event::Disconnected => {
                    self.phase = Phase::Closing;
                    self.awaiting_sample = false;
                    Action::Close
                },
                Event::Tick { should_update } => {
                    if self.phase == Phase::Sending || self.awaiting_sample {
                        Action::Wait
                    } else if !should_update {
                        self.phase = Phase::Paused;
                        Action::Wait
                    } else {
                        self.phase = Phase::Sampling;
                        self.awaiting_sample = true;
                        Action::Sample
                    }
                },
                Event::Sampled(sample) => {
                    if !self.awaiting_sample {
                        Action::Wait
                    } else {
                        self.take_sample(sample)
                    }
                },
                Event::Sent => {
                    if self.phase == Phase::Sending {
                        self.phase = Phase::Sampling;
                        self.awaiting_sample = false;
                    }
                    Action::Wait
                },
                Event::CloseAttempted => Action::Wait,
            },
        }
    }

    /// Encodes a sample that was asked for, runs the detector on the frame,
    /// and says what to do with it.
    fn take_sample(&mut self, sample: Option<Vec<u8>>) -> (action: Action)
        requires
            old(self)@.awaiting_sample,
        ensures
            final(self)@ == old(self)@.on_sample(sample_bytes(sample)).0,
            action@ == old(self)@.on_sample(sample_bytes(sample)).1,
            old(self)@.wf() ==> final(self)@.wf(),
    {
        let raw: Option<&[u8]> = match &sample {
            Some(bytes) => Some(bytes.as_slice()),
            None => None,
        };
        assert(bytes_of(raw) == sample_bytes(sample));
        self.awaiting_sample = false;
        match generate_bitmap(raw, self.width, self.height) {
            Err(error) => {
                self.phase = Phase::Closed;
                Action::Abort(error)
            },
            Ok(frame) => {
                let found: Observation = self.detector.observe(frame.as_slice());
                match found.verdict {
                    Verdict::Forward => {
                        self.phase = Phase::Sending;
                        Action::Send(frame)
                    },
                    Verdict::Skip => {
                        self.phase = Phase::Sampling;
                        Action::Wait
                    },
                    Verdict::Pause => {
                        self.phase = Phase::Sampling;
                        Action::Pause
                    },
                }
            },
        }
    }
}

/// Whatever happens, a session stays well formed and keeps its dimensions.
pub proof fn lemma_next_keeps_wf(state: SessionState, event: EventView)
    requires
        state.wf(),
    ensures
        state.next(event).0.wf(),
        state.next(event).0.width == state.width,
        state.next(event).0.height == state.height,
{
}

/// A tick that finds streaming switched off asks nothing of the frame source
/// and changes nothing but the phase; a tick that finds it switched on asks
/// for a sample. Either way the detector is left alone.
pub proof fn lemma_tick_samples_only_when_streaming(state: SessionState, should_update: bool)
    requires
        state.is_idle(),
    ensures
        !should_update ==> state.next(EventView::Tick { should_update }) == (
            state.moved_to(Phase::Paused),
            ActionView::Wait,
        ),
        should_update ==> state.next(EventView::Tick { should_update }).1 == ActionView::Sample
            && state.next(EventView::Tick { should_update }).0.phase == Phase::Sampling
            && state.next(EventView::Tick { should_update }).0.awaiting_sample,
        state.next(EventView::Tick { should_update }).0.detector == state.detector,
{
}

/// While a sample or a send is under way, a tick is not acted upon.
pub proof fn lemma_tick_waits_for_the_cycle(state: SessionState, should_update: bool)
    requires
        state.is_live(),
        !state.is_idle(),
    ensures
        state.next(EventView::Tick { should_update }) == (state, ActionView::Wait),
{
}

/// A sample that was asked for and can be encoded is sent exactly where the
/// frame differs from the last one sent, whether it is blank or not; a
/// session that has sent nothing sends it.
pub proof fn lemma_new_frame_is_sent(state: SessionState, sample: Option<Seq<u8>>)
    requires
        state.is_live(),
        state.awaiting_sample,
        frame_of_sample(sample, state.width, state.height) is Ok,
    ensures
        ({
            let frame = frame_of_sample(sample, state.width, state.height).unwrap();
            let (after, action) = state.next(EventView::Sampled(sample));
            &&& state.detector.last_sent != Some(frame) ==> action == ActionView::Send(frame)
                && after.phase == Phase::Sending && after.detector.last_sent == Some(frame)
                && after.detector.unchanged_frames == 0
            &&& state.detector.last_sent == Some(frame) ==> (action == ActionView::Wait || action
                == ActionView::Pause) && after.phase == Phase::Sampling
                && after.detector.last_sent == Some(frame)
            &&& action == ActionView::Pause <==> state.detector.verdict(frame) == Verdict::Pause
        }),
{
}

/// Streaming pauses itself at the tenth unchanged sample in a row. After a
/// frame was sent, cycles that sample the same frame again send nothing: the
/// first nine are counted, and the tenth is answered with the pause and puts
/// the counter back to zero.
pub proof fn lemma_auto_pause(state: SessionState, sample: Option<Seq<u8>>, cycles: nat)
    requires
        state.is_idle(),
        frame_of_sample(sample, state.width, state.height) is Ok,
        state.detector.last_sent == Some(
            frame_of_sample(sample, state.width, state.height).unwrap(),
        ),
        state.detector.unchanged_frames == 0,
        cycles < MAX_UNCHANGED_FRAMES,
    ensures
        state.after_cycles(sample, cycles) == (SessionState {
            phase: if cycles == 0 {
                state.phase
            } else {
                Phase::Sampling
            },
            detector: DetectorState { unchanged_frames: cycles, ..state.detector },
            ..state
        }),
        cycles + 1 < MAX_UNCHANGED_FRAMES ==> state.after_cycles(sample, cycles).cycle_action(
            sample,
        ) == ActionView::Wait,
        cycles + 1 == MAX_UNCHANGED_FRAMES ==> state.after_cycles(sample, cycles).cycle_action(
            sample,
        ) == ActionView::Pause && state.after_cycles(sample, cycles).after_cycle(
            sample,
        ).detector.unchanged_frames == 0,
    decreases cycles,
{
    if cycles > 0 {
        lemma_auto_pause(state, sample, (cycles - 1) as nat);
    }
}

/// A frame source that gives the same sample over and over has its frame sent
/// once. The first cycle sends it; once that is done, the next nine cycles
/// send nothing, and the tenth is answered with the pause.
pub proof fn lemma_same_sample_is_sent_once(
    state: SessionState,
    sample: Option<Seq<u8>>,
    cycles: nat,
)
    requires
        state.is_idle(),
        frame_of_sample(sample, state.width, state.height) is Ok,
        state.detector.last_sent != Some(
            frame_of_sample(sample, state.width, state.height).unwrap(),
        ),
        cycles < MAX_UNCHANGED_FRAMES,
    ensures
        ({
            let frame = frame_of_sample(sample, state.width, state.height).unwrap();
            let sent = state.after_cycle(sample).next(EventView::Sent).0;
            &&& state.cycle_action(sample) == ActionView::Send(frame)
            &&& state.after_cycle(sample).next(EventView::Sent).1 == ActionView::Wait
            &&& sent.is_idle()
            &&& cycles + 1 < MAX_UNCHANGED_FRAMES ==> sent.after_cycles(sample, cycles).cycle_action(
                sample,
            ) == ActionView::Wait
            &&& cycles + 1 == MAX_UNCHANGED_FRAMES ==> sent.after_cycles(
                sample,
                cycles,
            ).cycle_action(sample) == ActionView::Pause
        }),
{
    let sent = state.after_cycle(sample).next(EventView::Sent).0;
    lemma_auto_pause(sent, sample, cycles);
}

/// A closed session stays as it is, whatever comes.
pub proof fn lemma_closed_is_terminal(state: SessionState, event: EventView)
    requires
        state.phase == Phase::Closed,
    ensures
        state.next(event) == (state, ActionView::Release),
{
}

/// Once a session has begun to close, it never samples or sends again: every
/// later event is answered with the release, the session is closed after the
/// first of them, and it stays closed.
pub proof fn lemma_no_work_after_close(state: SessionState, events: Seq<EventView>, i: int)
    requires
        state.phase == Phase::Closing || state.phase == Phase::Closed,
        0 <= i < events.len(),
    ensures
        state.action_at(events, i) == ActionView::Release,
        state.after_all(events).phase == Phase::Closed,
{
    lemma_closing_stays_closing(state, events.subrange(0, i));
    lemma_closing_stays_closing(state, events.drop_last());
}

proof fn lemma_closing_stays_closing(state: SessionState, events: Seq<EventView>)
    requires
        state.phase == Phase::Closing || state.phase == Phase::Closed,
    ensures
        state.after_all(events).phase == Phase::Closing || state.after_all(events).phase
            == Phase::Closed,
        events.len() > 0 ==> state.after_all(events).phase == Phase::Closed,
    decreases events.len(),
{
    if events.len() > 0 {
        lemma_closing_stays_closing(state, events.drop_last());
    }
}

/// A failed send, or a disconnect, ends a live session: a close frame is
/// tried once, no sample is asked for and no frame sent on any later event,
/// and the session is closed after the first of them.
pub proof fn lemma_failure_closes(
    state: SessionState,
    failure: EventView,
    later: Seq<EventView>,
    i: int,
)
    requires
        state.is_live(),
        failure == EventView::SendFailed || failure == EventView::Disconnected,
        0 <= i < later.len(),
    ensures
        state.next(failure) == (state.moved_to(Phase::Closing), ActionView::Close),
        state.next(failure).0.action_at(later, i) == ActionView::Release,
        state.next(failure).0.after_all(later).phase == Phase::Closed,
{
    lemma_no_work_after_close(state.next(failure).0, later, i);
}

} // verus!
