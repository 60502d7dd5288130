//! The streaming pipeline from captured audio to recognized text.
use vstd::prelude::*;
use vstd::string::*;

use crate::daemon;
use crate::daemon::{AsrOutput, Input, NANOS_PER_MS};
use crate::text;

verus! {

/// Cadence for emitting live partials while an utterance is in progress.
pub const PARTIAL_TICK_MS: u64 = 150;

/// What the streaming pipeline remembers from frame to frame.
#[verifier::ext_equal]
pub struct PumpModel {
    /// The partial emitted last for the utterance in progress.
    pub last_partial: Seq<char>,
    /// When partials were last looked at, in nanoseconds.
    pub last_tick: int,
}

impl PumpModel {
    /// What is emitted when a segment ends: the committed text, unless the
    /// segment was a blip or held no words.
    pub open spec fn segment_output(samples: int, text: Seq<char>) -> Option<Input> {
        if daemon::blip(samples) || text.len() == 0 {
            None
        } else {
            Some(Input::Final(text))
        }
    }

    /// A segment ended: the next utterance has no partial yet.
    pub open spec fn after_segment(self) -> PumpModel {
        PumpModel { last_partial: Seq::empty(), ..self }
    }

    /// Whether it is time to look at partials again.
    pub open spec fn due(self, now: int) -> bool {
        daemon::elapsed(self.last_tick, now, PARTIAL_TICK_MS as int)
    }

    /// After the clock was read.
    pub open spec fn after_tick(self, now: int) -> PumpModel {
        if self.due(now) {
            PumpModel { last_tick: now, ..self }
        } else {
            self
        }
    }

    /// Whether a partial is worth emitting: it has words and is news.
    pub open spec fn is_news(self, partial: Seq<char>) -> bool {
        partial.len() > 0 && partial != self.last_partial
    }

    /// After a partial was looked at.
    pub open spec fn after_partial(self, partial: Seq<char>) -> PumpModel {
        if self.is_news(partial) {
            PumpModel { last_partial: partial, ..self }
        } else {
            self
        }
    }

    /// Partials are looked at no more often than the tick allows.
    pub proof fn ticks_are_apart(self, first: int, second: int)
        requires
            self.due(first),
            self.after_tick(first).due(second),
        ensures
            second - first >= PARTIAL_TICK_MS * NANOS_PER_MS,
    {
    }

    /// The same partial is not emitted twice in one utterance without another
    /// one in between, and the first partial of the next utterance is emitted
    /// even when it repeats it.
    pub proof fn partials_are_news(self, partial: Seq<char>)
        requires
            self.is_news(partial),
        ensures
            !self.after_partial(partial).is_news(partial),
            self.after_partial(partial).after_segment().is_news(partial),
    {
    }
}

/// The view of an output that may be absent.
pub open spec fn output_view(o: Option<AsrOutput>) -> Option<Input> {
    match o {
        Some(AsrOutput::Partial(s)) => Some(Input::Partial(s@)),
        Some(AsrOutput::Final(s)) => Some(Input::Final(s@)),
        None => None,
    }
}

/// The decisions of the streaming pipeline: one continuous stream for the
/// whole session, finals at the boundaries that the voice detector reports,
/// partials on a fixed tick.
pub struct StreamPump {
    last_partial: String,
    last_tick: u64,
}

impl View for StreamPump {
    type V = PumpModel;

    closed spec fn view(&self) -> PumpModel {
        PumpModel { last_partial: self.last_partial@, last_tick: self.last_tick as int }
    }
}

impl StreamPump {
    /// A session starts at `now`.
    pub fn new(now: u64) -> (p: Self)
        ensures
            p@ == (PumpModel { last_partial: Seq::empty(), last_tick: now as int }),
    {
        let p = StreamPump { last_partial: String::new(), last_tick: now };
        assert(p@.last_partial =~= Seq::<char>::empty());
        p
    }

    /// A segment of `samples` samples ended and its utterance was committed
    /// with `text`.
    pub fn on_segment(&mut self, samples: usize, text: String) -> (out: Option<AsrOutput>)
        ensures
            final(self)@ == old(self)@.after_segment(),
            output_view(out) == PumpModel::segment_output(samples as int, text@),
    {
        let ghost before = self@;
        self.last_partial = String::new();
        assert(self@ =~= before.after_segment());
        if daemon::is_blip(samples) || text.as_str().is_empty() {
            None
        } else {
            Some(AsrOutput::Final(text))
        }
    }

    /// Whether it is time to look at partials.
    pub fn on_tick(&mut self, now: u64) -> (due: bool)
        ensures
            due == old(self)@.due(now as int),
            final(self)@ == old(self)@.after_tick(now as int),
    {
        let due: bool = daemon::has_elapsed(self.last_tick, now, PARTIAL_TICK_MS);
        if due {
            self.last_tick = now;
        }
        due
    }

    /// The recognizer's current hypothesis while speech is detected.
    pub fn on_partial(&mut self, partial: String) -> (out: Option<AsrOutput>)
        ensures
            final(self)@ == old(self)@.after_partial(partial@),
            output_view(out) == if old(self)@.is_news(partial@) {
                Some(Input::Partial(partial@))
            } else {
                None
            },
    {
        if partial.as_str().is_empty() || text::same_text(
            partial.as_str(),
            self.last_partial.as_str(),
        ) {
            None
        } else {
            self.last_partial = partial.clone();
            Some(AsrOutput::Partial(partial))
        }
    }
}

/// What the streaming pipeline does next.
#[derive(Debug, Clone, PartialEq, Eq)]
pub enum StreamAction {
    /// Wait for a frame of audio.
    Receive,
    /// Feed the frame to the voice detector and to the recognizer.
    Feed,
    /// Take the next finished segment from the detector.
    TakeSegment,
    /// Finalize the utterance in the recognizer, and start the next.
    Commit,
    ReadClock,
    /// Ask the detector whether speech is in progress.
    AskDetected,
    /// Ask the recognizer for its hypothesis.
    AskPartial,
    /// Send an output on.
    Send(AsrOutput),
    /// Let the detector finish any trailing speech.
    Flush,
    /// The pipeline is done.
    Stop,
}

/// What came of it.
#[derive(Debug, Clone, PartialEq, Eq)]
pub enum StreamEvent {
    /// A frame arrived.
    Frame,
    /// There are no more frames.
    Ended,
    Fed,
    /// A segment of so many samples was finished.
    Segment(usize),
    /// No segment is finished.
    NoSegment,
    /// The utterance was finalized with this text.
    Committed(String),
    /// The time, in nanoseconds.
    Now(u64),
    /// Whether speech is in progress.
    Detected(bool),
    /// The recognizer's hypothesis.
    Hypothesis(String),
    /// Whether somebody took the output.
    Sent(bool),
    Flushed,
}

/// An action with its text as a sequence of characters.
pub enum Act {
    Receive,
    Feed,
    TakeSegment,
    Commit,
    ReadClock,
    AskDetected,
    AskPartial,
    Send(Input),
    Flush,
    Stop,
}

/// An event with its text as a sequence of characters.
pub enum Happening {
    Frame,
    Ended,
    Fed,
    Segment(int),
    NoSegment,
    Committed(Seq<char>),
    Now(int),
    Detected(bool),
    Hypothesis(Seq<char>),
    Sent(bool),
    Flushed,
}

impl View for StreamAction {
    type V = Act;

    open spec fn view(&self) -> Act {
        match self {
            StreamAction::Receive => Act::Receive,
            StreamAction::Feed => Act::Feed,
            StreamAction::TakeSegment => Act::TakeSegment,
            StreamAction::Commit => Act::Commit,
            StreamAction::ReadClock => Act::ReadClock,
            StreamAction::AskDetected => Act::AskDetected,
            StreamAction::AskPartial => Act::AskPartial,
            StreamAction::Send(AsrOutput::Partial(s)) => Act::Send(Input::Partial(s@)),
            StreamAction::Send(AsrOutput::Final(s)) => Act::Send(Input::Final(s@)),
            StreamAction::Flush => Act::Flush,
            StreamAction::Stop => Act::Stop,
        }
    }
}

impl View for StreamEvent {
    type V = Happening;

    open spec fn view(&self) -> Happening {
        match self {
            StreamEvent::Frame => Happening::Frame,
            StreamEvent::Ended => Happening::Ended,
            StreamEvent::Fed => Happening::Fed,
            StreamEvent::Segment(n) => Happening::Segment(*n as int),
            StreamEvent::NoSegment => Happening::NoSegment,
            StreamEvent::Committed(s) => Happening::Committed(s@),
            StreamEvent::Now(t) => Happening::Now(*t as int),
            StreamEvent::Detected(b) => Happening::Detected(*b),
            StreamEvent::Hypothesis(s) => Happening::Hypothesis(s@),
            StreamEvent::Sent(b) => Happening::Sent(*b),
            StreamEvent::Flushed => Happening::Flushed,
        }
    }
}

/// What the streaming pipeline waits for.
#[derive(Debug, Clone, Copy, PartialEq, Eq, Structural)]
pub enum Phase {
    Receiving,
    Feeding,
    Draining,
    /// The utterance of a segment of so many samples is being finalized.
    Committing(usize),
    SendingFinal,
    ReadingClock,
    Detecting,
    Hearing,
    SendingPartial,
    Flushing,
    Stopped,
}

/// What the streaming pipeline stands for.
pub struct LoopModel {
    pub pump: PumpModel,
    pub phase: Phase,
    /// Whether the audio has ended.
    pub ended: bool,
}

impl LoopModel {
    /// Whether the event is an outcome of what is being waited for.
    pub open spec fn expects(self, event: Happening) -> bool {
        match self.phase {
            Phase::Receiving => event is Frame || event is Ended,
            Phase::Feeding => event is Fed,
            Phase::Draining => event is Segment || event is NoSegment,
            Phase::Committing(_) => event is Committed,
            Phase::SendingFinal | Phase::SendingPartial => event is Sent,
            Phase::ReadingClock => event is Now,
            Phase::Detecting => event is Detected,
            Phase::Hearing => event is Hypothesis,
            Phase::Flushing => event is Flushed,
            Phase::Stopped => false,
        }
    }

    /// The same pipeline in another phase, and what it does there.
    pub open spec fn to(self, phase: Phase, act: Act) -> (LoopModel, Act) {
        (LoopModel { phase, ..self }, act)
    }

    /// The pipeline after an event, and what it does then.
    ///
    /// Every frame goes to the detector and the recognizer. Each segment that
    /// is then finished commits the utterance, and its text is sent on. After
    /// that, when the tick is due and speech is in progress, a partial that is
    /// news is sent on. At the end of the audio the detector is flushed, and
    /// the segments that it still gives are committed too. When nobody takes
    /// an output the pipeline stops.
    pub open spec fn next(self, event: Happening) -> (LoopModel, Act) {
        match event {
            Happening::Frame => self.to(Phase::Feeding, Act::Feed),
            Happening::Ended => (
                LoopModel { phase: Phase::Flushing, ended: true, ..self },
                Act::Flush,
            ),
            Happening::Fed | Happening::Flushed => self.to(Phase::Draining, Act::TakeSegment),
            Happening::Segment(n) => self.to(Phase::Committing(n as usize), Act::Commit),
            Happening::NoSegment => if self.ended {
                self.to(Phase::Stopped, Act::Stop)
            } else {
                self.to(Phase::ReadingClock, Act::ReadClock)
            },
            Happening::Committed(text) => {
                let after = LoopModel { pump: self.pump.after_segment(), ..self };
                let samples = self.phase->Committing_0 as int;
                match PumpModel::segment_output(samples, text) {
                    Some(out) => after.to(Phase::SendingFinal, Act::Send(out)),
                    None => after.to(Phase::Draining, Act::TakeSegment),
                }
            },
            Happening::Now(now) => {
                let after = LoopModel { pump: self.pump.after_tick(now), ..self };
                if self.pump.due(now) {
                    after.to(Phase::Detecting, Act::AskDetected)
                } else {
                    after.to(Phase::Receiving, Act::Receive)
                }
            },
            Happening::Detected(speech) => if speech {
                self.to(Phase::Hearing, Act::AskPartial)
            } else {
                self.to(Phase::Receiving, Act::Receive)
            },
            Happening::Hypothesis(text) => {
                let after = LoopModel { pump: self.pump.after_partial(text), ..self };
                if self.pump.is_news(text) {
                    after.to(Phase::SendingPartial, Act::Send(Input::Partial(text)))
                } else {
                    after.to(Phase::Receiving, Act::Receive)
                }
            },
            Happening::Sent(taken) => if !taken {
                self.to(Phase::Stopped, Act::Stop)
            } else if self.phase is SendingFinal {
                self.to(Phase::Draining, Act::TakeSegment)
            } else {
                self.to(Phase::Receiving, Act::Receive)
            },
        }
    }

    /// Once the audio has ended, only what is left of it is finalized.
    pub open spec fn wf(self) -> bool {
        self.ended ==> self.phase is Flushing || self.phase is Draining || self.phase is Committing
            || self.phase is SendingFinal || self.phase is Stopped
    }

    /// Every event keeps the invariant, and the end of the audio is for good.
    pub proof fn event_keeps_wf(self, event: Happening)
        requires
            self.wf(),
            self.expects(event),
        ensures
            self.next(event).0.wf(),
            self.ended ==> self.next(event).0.ended,
    {
    }

    /// Every frame is fed on at once, and only once.
    pub proof fn each_frame_is_fed_once(self, event: Happening)
        requires
            self.expects(event),
        ensures
            self.next(event).1 is Feed <==> event is Frame,
    {
    }

    /// Every finished segment is committed at once, and nothing else is.
    pub proof fn each_segment_is_committed_once(self, event: Happening)
        requires
            self.expects(event),
        ensures
            self.next(event).1 is Commit <==> event is Segment,
    {
    }

    /// A final is sent on exactly when an utterance was committed with words
    /// for a segment that was no blip, and it is those words.
    pub proof fn finals_are_committed_text(self, event: Happening, text: Seq<char>)
        requires
            self.expects(event),
        ensures
            self.next(event).1 == Act::Send(Input::Final(text)) <==> event == Happening::Committed(
                text,
            ) && text.len() > 0 && !daemon::blip(self.phase->Committing_0 as int),
    {
    }

    /// A partial is sent on exactly when the recognizer gave it and it is
    /// news, and never once the audio has ended.
    pub proof fn partials_are_hypotheses(self, event: Happening, text: Seq<char>)
        requires
            self.wf(),
            self.expects(event),
        ensures
            self.next(event).1 == Act::Send(Input::Partial(text)) <==> event
                == Happening::Hypothesis(text) && self.pump.is_news(text),
            self.next(event).1 == Act::Send(Input::Partial(text)) ==> !self.ended,
    {
    }

    /// At the end of the audio the detector is flushed; from then on no frame
    /// is awaited, and the pipeline stops when the detector has no segment
    /// left or nobody takes an output.
    pub proof fn end_of_audio_is_drained(self, event: Happening)
        requires
            self.wf(),
            self.expects(event),
        ensures
            event is Ended ==> self.next(event).1 is Flush && self.next(event).0.ended,
            self.ended ==> (self.next(event).1 is TakeSegment || self.next(event).1 is Commit
                || self.next(event).1 is Send || self.next(event).1 is Stop),
            self.ended ==> (self.next(event).1 is Stop <==> event is NoSegment || event
                == Happening::Sent(false)),
    {
    }

    /// A tick is due 150 ms after the last one that was, however much later it
    /// comes. The hypothesis is asked for exactly when a due tick finds speech
    /// in progress, whatever was sent before.
    pub proof fn due_tick_asks_for_the_hypothesis(self, event: Happening)
        requires
            self.expects(event),
        ensures
            self.next(event).1 is ReadClock <==> event is NoSegment && !self.ended,
            self.next(event).1 is AskDetected <==> (event matches Happening::Now(now) && now
                - self.pump.last_tick >= 150_000_000),
            self.next(event).1 is AskPartial <==> event == Happening::Detected(true),
    {
    }

    /// A hypothesis is sent on exactly when it has words and is not the
    /// partial that was sent last in its utterance.
    pub proof fn changed_hypothesis_is_sent(self, text: Seq<char>)
        requires
            self.expects(Happening::Hypothesis(text)),
        ensures
            text.len() > 0 && text != self.pump.last_partial ==> self.next(
                Happening::Hypothesis(text),
            ).1 == Act::Send(Input::Partial(text)),
            text.len() == 0 || text == self.pump.last_partial ==> self.next(
                Happening::Hypothesis(text),
            ).1 is Receive,
    {
    }

    /// What is remembered: the partial that was sent last, until a segment
    /// ends its utterance, and when a tick was last due.
    pub proof fn last_partial_and_tick_are_remembered(self, event: Happening)
        requires
            self.expects(event),
        ensures
            event is Committed ==> self.next(event).0.pump.last_partial == Seq::<char>::empty(),
            forall|text: Seq<char>| #[trigger]
                self.next(event).1 == Act::Send(Input::Partial(text)) ==> self.next(
                    event,
                ).0.pump.last_partial == text,
            event !is Committed && event !is Hypothesis ==> self.next(event).0.pump.last_partial
                == self.pump.last_partial,
            event is Hypothesis && self.next(event).1 is Receive ==> self.next(
                event,
            ).0.pump.last_partial == self.pump.last_partial,
            event matches Happening::Now(now) ==> self.next(event).0.pump.last_tick == if now
                - self.pump.last_tick >= 150_000_000 {
                now
            } else {
                self.pump.last_tick
            },
            event !is Now ==> self.next(event).0.pump.last_tick == self.pump.last_tick,
    {
    }

    /// A final is sent on for every segment of at least a tenth of a second
    /// whose utterance was committed with words.
    pub proof fn committed_words_are_sent(self, samples: usize, text: Seq<char>)
        requires
            self.phase == Phase::Committing(samples),
        ensures
            samples >= 1600 && text.len() > 0 ==> self.next(Happening::Committed(text)).1
                == Act::Send(Input::Final(text)),
            samples < 1600 || text.len() == 0 ==> self.next(
                Happening::Committed(text),
            ).1 is TakeSegment,
    {
    }

    /// After every frame, and at the end, segments are taken until there is
    /// none left; after that comes the tick, and then the next frame.
    pub proof fn segments_are_taken_until_none_is_left(self, event: Happening)
        requires
            self.wf(),
            self.expects(event),
        ensures
            event is Fed || event is Flushed ==> self.next(event).1 is TakeSegment,
            event == Happening::Sent(true) ==> self.next(event).1 is TakeSegment || self.next(
                event,
            ).1 is Receive,
            event == Happening::Sent(true) && self.phase is SendingFinal ==> self.next(
                event,
            ).1 is TakeSegment,
            event == Happening::Sent(true) && self.phase is SendingPartial ==> self.next(
                event,
            ).1 is Receive,
            event matches Happening::Now(now) ==> now - self.pump.last_tick < 150_000_000
                ==> self.next(event).1 is Receive,
            event == Happening::Detected(false) ==> self.next(event).1 is Receive,
            self.next(event).1 is Flush <==> event is Ended,
            self.next(event).1 is Stop <==> event == Happening::Sent(false) || event is NoSegment
                && self.ended,
            self.next(event).0.ended <==> self.ended || event is Ended,
    {
    }

    /// What is waited for is an outcome of what is done, and the size of the
    /// segment is kept until its utterance is committed.
    pub proof fn outcome_of_each_action_is_awaited(self, event: Happening, outcome: Happening)
        requires
            self.expects(event),
        ensures
            self.next(event).0.expects(outcome) <==> match self.next(event).1 {
                Act::Receive => outcome is Frame || outcome is Ended,
                Act::Feed => outcome is Fed,
                Act::TakeSegment => outcome is Segment || outcome is NoSegment,
                Act::Commit => outcome is Committed,
                Act::ReadClock => outcome is Now,
                Act::AskDetected => outcome is Detected,
                Act::AskPartial => outcome is Hypothesis,
                Act::Send(_) => outcome is Sent,
                Act::Flush => outcome is Flushed,
                Act::Stop => false,
            },
            self.next(event).1 matches Act::Send(out) ==> (out is Final <==> self.next(
                event,
            ).0.phase is SendingFinal),
            event matches Happening::Segment(n) ==> 0 <= n <= usize::MAX ==> self.next(
                event,
            ).0.phase == Phase::Committing(n as usize),
    {
    }
}

/// The streaming pipeline, one step at a time.
pub struct StreamLoop {
    pump: StreamPump,
    phase: Phase,
    ended: bool,
}

impl View for StreamLoop {
    type V = LoopModel;

    closed spec fn view(&self) -> LoopModel {
        LoopModel { pump: self.pump@, phase: self.phase, ended: self.ended }
    }
}

impl StreamLoop {
    /// A session starts at `now`: the first thing is to wait for a frame.
    pub fn new(now: u64) -> (l: Self)
        ensures
            l@.wf(),
            l@.pump == (PumpModel { last_partial: Seq::empty(), last_tick: now as int }),
            l@.phase is Receiving,
            !l@.ended,
    {
        StreamLoop { pump: StreamPump::new(now), phase: Phase::Receiving, ended: false }
    }

    fn go(&mut self, phase: Phase, action: StreamAction) -> (a: StreamAction)
        ensures
            a == action,
            final(self)@ == (LoopModel { phase, ..old(self)@ }),
    {
        self.phase = phase;
        action
    }

    /// What came of the last action: what to do next.
    pub fn step(&mut self, event: StreamEvent) -> (action: StreamAction)
        requires
            old(self)@.wf(),
            old(self)@.expects(event@),
        ensures
            final(self)@.wf(),
            (final(self)@, action@) == old(self)@.next(event@),
    {
        match event {
            StreamEvent::Frame => self.go(Phase::Feeding, StreamAction::Feed),
            StreamEvent::Ended => {
                self.ended = true;
                self.go(Phase::Flushing, StreamAction::Flush)
            },
            StreamEvent::Fed | StreamEvent::Flushed => self.go(
                Phase::Draining,
                StreamAction::TakeSegment,
            ),
            StreamEvent::Segment(n) => self.go(Phase::Committing(n), StreamAction::Commit),
            StreamEvent::NoSegment => if self.ended {
                self.go(Phase::Stopped, StreamAction::Stop)
            } else {
                self.go(Phase::ReadingClock, StreamAction::ReadClock)
            },
            StreamEvent::Committed(text) => {
                let samples: usize = match self.phase {
                    Phase::Committing(n) => n,
                    _ => 0,
                };
                match self.pump.on_segment(samples, text) {
                    Some(out) => self.go(Phase::SendingFinal, StreamAction::Send(out)),
                    None => self.go(Phase::Draining, StreamAction::TakeSegment),
                }
            },
            StreamEvent::Now(now) => if self.pump.on_tick(now) {
                self.go(Phase::Detecting, StreamAction::AskDetected)
            } else {
                self.go(Phase::Receiving, StreamAction::Receive)
            },
            StreamEvent::Detected(speech) => if speech {
                self.go(Phase::Hearing, StreamAction::AskPartial)
            } else {
                self.go(Phase::Receiving, StreamAction::Receive)
            },
            StreamEvent::Hypothesis(text) => match self.pump.on_partial(text) {
                Some(out) => self.go(Phase::SendingPartial, StreamAction::Send(out)),
                None => self.go(Phase::Receiving, StreamAction::Receive),
            },
            StreamEvent::Sent(taken) => if !taken {
                self.go(Phase::Stopped, StreamAction::Stop)
            } else if matches!(self.phase, Phase::SendingFinal) {
                self.go(Phase::Draining, StreamAction::TakeSegment)
            } else {
                self.go(Phase::Receiving, StreamAction::Receive)
            },
        }
    }
}

} // verus!
