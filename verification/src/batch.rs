//! The batch pipeline: voice detection cuts the audio into segments, and each
//! segment is recognized as a whole.
use vstd::prelude::*;

use crate::audio::SAMPLE_RATE;
use crate::daemon;
use crate::daemon::{AsrOutput, Input};
use crate::stream;
use crate::text;
use crate::vad;
use crate::vad::{AudioRing, RingModel, POST_PAD_MS, PRE_PAD_MS};

verus! {

/// What the detection of the batch pipeline does next.
#[derive(Debug, Clone, PartialEq, Eq)]
pub enum BatchAction<T> {
    /// Wait for a frame of audio.
    Receive,
    /// Feed the frame to the voice detector.
    Feed(Vec<T>),
    /// Take the next finished segment from the detector.
    TakeSegment,
    /// Send the audio of a segment on to be recognized.
    Send(Vec<T>),
    /// Let the detector finish any trailing speech.
    Flush,
    /// The detection is done.
    Stop,
}

/// What came of it.
#[derive(Debug, Clone, PartialEq, Eq)]
pub enum BatchEvent<T> {
    /// A frame arrived.
    Frame(Vec<T>),
    /// There are no more frames.
    Ended,
    Fed,
    /// A segment of `len` samples from `start` on was finished.
    Segment { start: i64, len: usize },
    /// No segment is finished.
    NoSegment,
    /// Whether somebody took the segment.
    Sent(bool),
    Flushed,
}

/// An action with its audio as a sequence of samples.
pub enum BatchAct<T> {
    Receive,
    Feed(Seq<T>),
    TakeSegment,
    Send(Seq<T>),
    Flush,
    Stop,
}

/// An event with its audio as a sequence of samples.
pub enum BatchHappening<T> {
    Frame(Seq<T>),
    Ended,
    Fed,
    Segment(int, int),
    NoSegment,
    Sent(bool),
    Flushed,
}

impl<T> View for BatchAction<T> {
    type V = BatchAct<T>;

    open spec fn view(&self) -> BatchAct<T> {
        match self {
            BatchAction::Receive => BatchAct::Receive,
            BatchAction::Feed(v) => BatchAct::Feed(v@),
            BatchAction::TakeSegment => BatchAct::TakeSegment,
            BatchAction::Send(v) => BatchAct::Send(v@),
            BatchAction::Flush => BatchAct::Flush,
            BatchAction::Stop => BatchAct::Stop,
        }
    }
}

impl<T> View for BatchEvent<T> {
    type V = BatchHappening<T>;

    open spec fn view(&self) -> BatchHappening<T> {
        match self {
            BatchEvent::Frame(v) => BatchHappening::Frame(v@),
            BatchEvent::Ended => BatchHappening::Ended,
            BatchEvent::Fed => BatchHappening::Fed,
            BatchEvent::Segment { start, len } => BatchHappening::Segment(
                *start as int,
                *len as int,
            ),
            BatchEvent::NoSegment => BatchHappening::NoSegment,
            BatchEvent::Sent(b) => BatchHappening::Sent(*b),
            BatchEvent::Flushed => BatchHappening::Flushed,
        }
    }
}

/// What the detection waits for.
#[derive(Debug, Clone, Copy, PartialEq, Eq, Structural)]
pub enum BatchPhase {
    Receiving,
    Feeding,
    Draining,
    Sending,
    Flushing,
    Stopped,
}

/// What the detection of the batch pipeline stands for.
pub struct BatchModel<T> {
    /// The audio so far.
    pub ring: RingModel<T>,
    pub phase: BatchPhase,
    /// Whether the audio has ended.
    pub ended: bool,
}

impl<T> BatchModel<T> {
    /// Whether the event is an outcome of what is being waited for.
    pub open spec fn expects(self, event: BatchHappening<T>) -> bool {
        match self.phase {
            BatchPhase::Receiving => event is Frame || event is Ended,
            BatchPhase::Feeding => event is Fed,
            BatchPhase::Draining => event is Segment || event is NoSegment,
            BatchPhase::Sending => event is Sent,
            BatchPhase::Flushing => event is Flushed,
            BatchPhase::Stopped => false,
        }
    }

    /// Whether the sample counts that come with the event fit their type.
    pub open spec fn fits(self, event: BatchHappening<T>) -> bool {
        match event {
            BatchHappening::Frame(frame) => self.ring.history.len() + frame.len() <= i64::MAX,
            BatchHappening::Segment(start, len) => {
                &&& start - vad::samples_in(PRE_PAD_MS as int) >= i64::MIN
                &&& start + len + vad::samples_in(POST_PAD_MS as int) <= i64::MAX
                &&& vad::samples_in(PRE_PAD_MS as int) + len + vad::samples_in(POST_PAD_MS as int)
                    <= i64::MAX
            },
            _ => true,
        }
    }

    /// The same detection in another phase, and what it does there.
    pub open spec fn to(self, phase: BatchPhase, act: BatchAct<T>) -> (BatchModel<T>, BatchAct<T>) {
        (BatchModel { phase, ..self }, act)
    }

    /// The detector has given all that is taken from it for now: the next
    /// frame, or the end.
    pub open spec fn drained(self) -> (BatchModel<T>, BatchAct<T>) {
        if self.ended {
            self.to(BatchPhase::Stopped, BatchAct::Stop)
        } else {
            self.to(BatchPhase::Receiving, BatchAct::Receive)
        }
    }

    /// The detection after an event, and what it does then.
    ///
    /// Every frame is kept and goes to the detector. Each segment that is then
    /// finished is sent on with its context, unless it is a blip. At the end
    /// of the audio the detector is flushed, and the segments that it still
    /// gives are sent on too. When nobody takes a segment, no more are taken
    /// from the detector until the next frame.
    pub open spec fn next(self, event: BatchHappening<T>) -> (BatchModel<T>, BatchAct<T>) {
        match event {
            BatchHappening::Frame(frame) => {
                let ring = RingModel { history: self.ring.history + frame, ..self.ring };
                BatchModel { ring, ..self }.to(BatchPhase::Feeding, BatchAct::Feed(frame))
            },
            BatchHappening::Ended => (
                BatchModel { phase: BatchPhase::Flushing, ended: true, ..self },
                BatchAct::Flush,
            ),
            BatchHappening::Fed | BatchHappening::Flushed => self.to(
                BatchPhase::Draining,
                BatchAct::TakeSegment,
            ),
            BatchHappening::Segment(start, len) => match vad::padded_range(start, len) {
                Some((begin, end)) => self.to(
                    BatchPhase::Sending,
                    BatchAct::Send(self.ring.slice(begin, end)),
                ),
                None => self.to(BatchPhase::Draining, BatchAct::TakeSegment),
            },
            BatchHappening::NoSegment => self.drained(),
            BatchHappening::Sent(taken) => if taken {
                self.to(BatchPhase::Draining, BatchAct::TakeSegment)
            } else {
                self.drained()
            },
        }
    }

    /// Once the audio has ended, only what is left of it is sent on.
    pub open spec fn wf(self) -> bool {
        self.ended ==> self.phase is Flushing || self.phase is Draining || self.phase is Sending
            || self.phase is Stopped
    }

    /// Every event keeps the invariant, and the end of the audio is for good.
    pub proof fn event_keeps_wf(self, event: BatchHappening<T>)
        requires
            self.wf(),
            self.expects(event),
        ensures
            self.next(event).0.wf(),
            self.ended ==> self.next(event).0.ended,
    {
    }

    /// Every frame is fed to the detector once, and by then it is kept.
    /// Nothing else is fed or kept.
    pub proof fn each_frame_is_kept_and_fed_once(self, event: BatchHappening<T>, frame: Seq<T>)
        requires
            self.expects(event),
        ensures
            self.next(event).1 == BatchAct::Feed(frame) <==> event == BatchHappening::Frame(frame),
            event == BatchHappening::Frame(frame) ==> self.next(event).0.ring.history
                == self.ring.history + frame,
            event !is Frame ==> self.next(event).0.ring == self.ring,
    {
    }

    /// Every segment that is no blip is sent on at once with its context, and
    /// nothing else is.
    pub proof fn each_segment_is_sent_once(self, event: BatchHappening<T>, audio: Seq<T>)
        requires
            self.expects(event),
        ensures
            self.next(event).1 == BatchAct::Send(audio) <==> (event matches BatchHappening::Segment(
                start,
                len,
            ) && !daemon::blip(len) && audio == self.ring.slice(
                start - vad::samples_in(PRE_PAD_MS as int),
                start + len + vad::samples_in(POST_PAD_MS as int),
            )),
    {
    }

    /// After every frame segments are taken from the detector until it has
    /// none left or nobody takes one, and only then is another frame awaited.
    pub proof fn every_frame_is_drained(self, event: BatchHappening<T>)
        requires
            self.wf(),
            self.expects(event),
        ensures
            event is Fed || event == BatchHappening::<T>::Sent(true) ==> self.next(
                event,
            ).1 is TakeSegment,
            event matches BatchHappening::Segment(start, len) ==> daemon::blip(len) ==> self.next(
                event,
            ).1 is TakeSegment,
            self.next(event).1 is Receive <==> !self.ended && (event is NoSegment || event
                == BatchHappening::<T>::Sent(false)),
    {
    }

    /// At the end of the audio, and only then, the detector is flushed and
    /// drained once more. From then on no frame is awaited, and the detection
    /// stops when the detector has no segment left or nobody takes one.
    pub proof fn end_of_audio_is_drained(self, event: BatchHappening<T>)
        requires
            self.wf(),
            self.expects(event),
        ensures
            self.next(event).1 is Flush <==> event is Ended,
            event is Ended ==> self.next(event).0.ended,
            event is Flushed ==> self.next(event).1 is TakeSegment,
            self.ended ==> self.next(event).1 is TakeSegment || self.next(event).1 is Send
                || self.next(event).1 is Stop,
            self.next(event).1 is Stop <==> self.ended && (event is NoSegment || event
                == BatchHappening::<T>::Sent(false)),
    {
    }

    /// What is waited for is an outcome of what is done.
    pub proof fn outcome_of_each_action_is_awaited(
        self,
        event: BatchHappening<T>,
        outcome: BatchHappening<T>,
    )
        requires
            self.expects(event),
        ensures
            self.next(event).0.expects(outcome) <==> match self.next(event).1 {
                BatchAct::Receive => outcome is Frame || outcome is Ended,
                BatchAct::Feed(_) => outcome is Fed,
                BatchAct::TakeSegment => outcome is Segment || outcome is NoSegment,
                BatchAct::Send(_) => outcome is Sent,
                BatchAct::Flush => outcome is Flushed,
                BatchAct::Stop => false,
            },
            self.next(event).0.ended <==> self.ended || event is Ended,
    {
    }

    /// A segment of at least a tenth of a second is sent on with 300 ms of
    /// audio before it and 800 ms after it: every sample of that which is
    /// still kept, and silence for what is not.
    pub proof fn segment_is_sent_with_its_context(self, start: int, len: int, k: int)
        requires
            self.expects(BatchHappening::Segment(start, len)),
            0 <= len,
            0 <= k < 4800 + len + 12_800,
        ensures
            len < 1600 ==> self.next(BatchHappening::Segment(start, len)).1 is TakeSegment,
            len >= 1600 ==> (self.next(BatchHappening::Segment(start, len)).1 matches BatchAct::Send(
                audio,
            ) && audio.len() == 4800 + len + 12_800 && {
                let i = start - 4800 + k;
                audio[k] == if 0 <= i < self.ring.history.len() && self.ring.history.len() - i
                    <= self.ring.capacity {
                    self.ring.history[i]
                } else {
                    self.ring.silence
                }
            }),
    {
    }

    /// The detection after some events.
    pub open spec fn after_run(self, events: Seq<BatchHappening<T>>) -> BatchModel<T>
        decreases events.len(),
    {
        if events.len() == 0 {
            self
        } else {
            self.after_run(events.drop_last()).next(events.last()).0
        }
    }

    /// The frames among some events, one after the other.
    pub open spec fn frames(events: Seq<BatchHappening<T>>) -> Seq<T>
        decreases events.len(),
    {
        if events.len() == 0 {
            Seq::empty()
        } else {
            match events.last() {
                BatchHappening::Frame(frame) => Self::frames(events.drop_last()) + frame,
                _ => Self::frames(events.drop_last()),
            }
        }
    }

    /// What is kept is all the audio that came, in order.
    pub proof fn all_audio_is_kept(self, events: Seq<BatchHappening<T>>)
        ensures
            self.after_run(events).ring == (RingModel {
                history: self.ring.history + Self::frames(events),
                ..self.ring
            }),
        decreases events.len(),
    {
        if events.len() > 0 {
            self.all_audio_is_kept(events.drop_last());
        }
        assert(self.after_run(events).ring.history =~= self.ring.history + Self::frames(events));
    }
}

/// The detection of the batch pipeline, one step at a time.
pub struct BatchLoop<T> {
    ring: AudioRing<T>,
    phase: BatchPhase,
    ended: bool,
}

impl<T> View for BatchLoop<T> {
    type V = BatchModel<T>;

    closed spec fn view(&self) -> BatchModel<T> {
        BatchModel { ring: self.ring@, phase: self.phase, ended: self.ended }
    }
}

impl<T: Copy> BatchLoop<T> {
    /// The invariant of the audio that is kept.
    pub closed spec fn ring_wf(&self) -> bool {
        self.ring.wf()
    }

    /// What holds between two steps.
    pub open spec fn wf(&self) -> bool {
        self.ring_wf() && self@.wf()
    }

    /// A session starts with this audio: the first thing is to wait for a
    /// frame.
    pub fn new(ring: AudioRing<T>) -> (l: Self)
        requires
            ring.wf(),
        ensures
            l.wf(),
            l@ == (BatchModel { ring: ring@, phase: BatchPhase::Receiving, ended: false }),
    {
        BatchLoop { ring, phase: BatchPhase::Receiving, ended: false }
    }

    /// Whether the sample counts that come with the event fit their type.
    pub fn fits(&self, event: &BatchEvent<T>) -> (b: bool)
        requires
            self.wf(),
        ensures
            b == self@.fits(event@),
    {
        let most: i128 = i64::MAX as i128;
        match event {
            BatchEvent::Frame(frame) => self.ring.total() as i128 + frame.len() as i128 <= most,
            BatchEvent::Segment { start, len } => {
                let pre: i128 = (PRE_PAD_MS * SAMPLE_RATE / 1000) as i128;
                let post: i128 = (POST_PAD_MS * SAMPLE_RATE / 1000) as i128;
                *start as i128 - pre >= i64::MIN as i128 && *start as i128 + *len as i128 + post
                    <= most && pre + *len as i128 + post <= most
            },
            _ => true,
        }
    }

    fn go(&mut self, phase: BatchPhase, action: BatchAction<T>) -> (a: BatchAction<T>)
        ensures
            a == action,
            final(self)@ == (BatchModel { phase, ..old(self)@ }),
            final(self).ring_wf() == old(self).ring_wf(),
    {
        self.phase = phase;
        action
    }

    fn go_on(&mut self) -> (a: BatchAction<T>)
        ensures
            (final(self)@, a@) == old(self)@.drained(),
            final(self).ring_wf() == old(self).ring_wf(),
    {
        if self.ended {
            self.go(BatchPhase::Stopped, BatchAction::Stop)
        } else {
            self.go(BatchPhase::Receiving, BatchAction::Receive)
        }
    }

    /// What came of the last action: what to do next.
    pub fn step(&mut self, event: BatchEvent<T>) -> (action: BatchAction<T>)
        requires
            old(self).wf(),
            old(self)@.expects(event@),
            old(self)@.fits(event@),
        ensures
            final(self).wf(),
            (final(self)@, action@) == old(self)@.next(event@),
    {
        match event {
            BatchEvent::Frame(frame) => {
                self.ring.push(frame.as_slice());
                self.go(BatchPhase::Feeding, BatchAction::Feed(frame))
            },
            BatchEvent::Ended => {
                self.ended = true;
                self.go(BatchPhase::Flushing, BatchAction::Flush)
            },
            BatchEvent::Fed | BatchEvent::Flushed => self.go(
                BatchPhase::Draining,
                BatchAction::TakeSegment,
            ),
            BatchEvent::Segment { start, len } => match self.ring.segment(start, len) {
                Some(audio) => self.go(BatchPhase::Sending, BatchAction::Send(audio)),
                None => self.go(BatchPhase::Draining, BatchAction::TakeSegment),
            },
            BatchEvent::NoSegment => self.go_on(),
            BatchEvent::Sent(taken) => if taken {
                self.go(BatchPhase::Draining, BatchAction::TakeSegment)
            } else {
                self.go_on()
            },
        }
    }
}

/// What the batch pipeline emits for one transcribed segment: its text,
/// unless that is blank.
pub fn batch_output(text: String) -> (out: Option<AsrOutput>)
    ensures
        stream::output_view(out) == if text::trim(text@).len() == 0 {
            None
        } else {
            Some(Input::Final(text@))
        },
{
    if text::trimmed(text.as_str()).as_str().is_empty() {
        None
    } else {
        Some(AsrOutput::Final(text))
    }
}

/// What the recognition of the batch pipeline does next.
#[derive(Debug, Clone, PartialEq, Eq)]
pub enum TranscribeAction<T> {
    /// Wait for a segment of audio.
    Receive,
    /// Recognize the segment as a whole.
    Transcribe(Vec<T>),
    /// Send an output on.
    Send(AsrOutput),
    /// The recognition is done.
    Stop,
}

/// What came of it.
#[derive(Debug, Clone, PartialEq, Eq)]
pub enum TranscribeEvent<T> {
    /// A segment arrived.
    Segment(Vec<T>),
    /// There are no more segments.
    Ended,
    /// The segment was recognized as this text.
    Transcribed(String),
    /// Whether somebody took the output.
    Sent(bool),
}

/// An action with its audio and text as sequences.
pub enum TranscribeAct<T> {
    Receive,
    Transcribe(Seq<T>),
    Send(Input),
    Stop,
}

/// An event with its audio and text as sequences.
pub enum TranscribeHappening<T> {
    Segment(Seq<T>),
    Ended,
    Transcribed(Seq<char>),
    Sent(bool),
}

impl<T> View for TranscribeAction<T> {
    type V = TranscribeAct<T>;

    open spec fn view(&self) -> TranscribeAct<T> {
        match self {
            TranscribeAction::Receive => TranscribeAct::Receive,
            TranscribeAction::Transcribe(v) => TranscribeAct::Transcribe(v@),
            TranscribeAction::Send(AsrOutput::Partial(s)) => TranscribeAct::Send(
                Input::Partial(s@),
            ),
            TranscribeAction::Send(AsrOutput::Final(s)) => TranscribeAct::Send(Input::Final(s@)),
            TranscribeAction::Stop => TranscribeAct::Stop,
        }
    }
}

impl<T> View for TranscribeEvent<T> {
    type V = TranscribeHappening<T>;

    open spec fn view(&self) -> TranscribeHappening<T> {
        match self {
            TranscribeEvent::Segment(v) => TranscribeHappening::Segment(v@),
            TranscribeEvent::Ended => TranscribeHappening::Ended,
            TranscribeEvent::Transcribed(s) => TranscribeHappening::Transcribed(s@),
            TranscribeEvent::Sent(b) => TranscribeHappening::Sent(*b),
        }
    }
}

/// What the recognition waits for.
#[derive(Debug, Clone, Copy, PartialEq, Eq, Structural)]
pub enum TranscribePhase {
    Receiving,
    Transcribing,
    Sending,
    Stopped,
}

impl TranscribePhase {
    /// Whether the event is an outcome of what is being waited for.
    pub open spec fn expects<T>(self, event: TranscribeHappening<T>) -> bool {
        match self {
            TranscribePhase::Receiving => event is Segment || event is Ended,
            TranscribePhase::Transcribing => event is Transcribed,
            TranscribePhase::Sending => event is Sent,
            TranscribePhase::Stopped => false,
        }
    }

    /// What is waited for after an event, and what is done for that. Each
    /// segment is recognized, and its text sent on unless that is blank. It
    /// ends with the segments, or when nobody takes an output.
    pub open spec fn next<T>(event: TranscribeHappening<T>) -> (TranscribePhase, TranscribeAct<T>) {
        match event {
            TranscribeHappening::Segment(audio) => (
                TranscribePhase::Transcribing,
                TranscribeAct::Transcribe(audio),
            ),
            TranscribeHappening::Ended | TranscribeHappening::Sent(false) => (
                TranscribePhase::Stopped,
                TranscribeAct::Stop,
            ),
            TranscribeHappening::Transcribed(text) => if text::trim(text).len() == 0 {
                (TranscribePhase::Receiving, TranscribeAct::Receive)
            } else {
                (TranscribePhase::Sending, TranscribeAct::Send(Input::Final(text)))
            },
            TranscribeHappening::Sent(true) => (
                TranscribePhase::Receiving,
                TranscribeAct::Receive,
            ),
        }
    }

    /// Every segment is recognized at once, and nothing else is.
    pub proof fn each_segment_is_transcribed_once<T>(
        event: TranscribeHappening<T>,
        audio: Seq<T>,
    )
        ensures
            Self::next(event).1 == TranscribeAct::Transcribe(audio) <==> event
                == TranscribeHappening::Segment(audio),
    {
    }

    /// A final is sent on exactly when a segment was recognized as a text that
    /// is not blank, and it is that text.
    pub proof fn finals_are_transcribed_text<T>(event: TranscribeHappening<T>, text: Seq<char>)
        ensures
            Self::next(event).1 == TranscribeAct::<T>::Send(Input::Final(text)) <==> event
                == TranscribeHappening::<T>::Transcribed(text) && text::trim(text).len() > 0,
    {
    }

    /// All that is ever sent on is finals: there are no partials.
    pub proof fn no_partial_is_sent<T>(event: TranscribeHappening<T>)
        ensures
            Self::next(event).1 matches TranscribeAct::Send(out) ==> out is Final,
    {
    }

    /// Every text with a character that is no white space is sent on, and
    /// after that or a blank text the next segment is awaited.
    pub proof fn text_that_is_not_blank_is_sent<T>(text: Seq<char>, k: int)
        ensures
            0 <= k < text.len() && !text::white_space(text[k]) ==> Self::next(
                TranscribeHappening::<T>::Transcribed(text),
            ).1 == TranscribeAct::<T>::Send(Input::Final(text)),
            (forall|i: int| 0 <= i < text.len() ==> text::white_space(#[trigger] text[i]))
                ==> Self::next(TranscribeHappening::<T>::Transcribed(text)).1 is Receive,
            Self::next(TranscribeHappening::<T>::Sent(true)).1 is Receive,
    {
        text::blank_is_all_white_space(text);
    }

    /// What is waited for is an outcome of what is done.
    pub proof fn outcome_of_each_action_is_awaited<T>(
        event: TranscribeHappening<T>,
        outcome: TranscribeHappening<T>,
    )
        ensures
            Self::next(event).0.expects(outcome) <==> match Self::next(event).1 {
                TranscribeAct::Receive => outcome is Segment || outcome is Ended,
                TranscribeAct::Transcribe(_) => outcome is Transcribed,
                TranscribeAct::Send(_) => outcome is Sent,
                TranscribeAct::Stop => false,
            },
    {
    }

    /// It ends with the segments, or when nobody takes an output.
    pub proof fn stops_with_the_segments<T>(event: TranscribeHappening<T>)
        ensures
            Self::next(event).1 is Stop <==> event is Ended || event
                == TranscribeHappening::<T>::Sent(false),
    {
    }
}

/// The recognition of the batch pipeline, one step at a time.
pub struct TranscribeLoop {
    phase: TranscribePhase,
}

impl View for TranscribeLoop {
    type V = TranscribePhase;

    closed spec fn view(&self) -> TranscribePhase {
        self.phase
    }
}

impl TranscribeLoop {
    /// The first thing is to wait for a segment.
    pub fn new() -> (l: Self)
        ensures
            l@ is Receiving,
    {
        TranscribeLoop { phase: TranscribePhase::Receiving }
    }

    /// What came of the last action: what to do next.
    pub fn step<T>(&mut self, event: TranscribeEvent<T>) -> (action: TranscribeAction<T>)
        requires
            old(self)@.expects(event@),
        ensures
            (final(self)@, action@) == TranscribePhase::next(event@),
    {
        let (phase, action) = match event {
            TranscribeEvent::Segment(audio) => (
                TranscribePhase::Transcribing,
                TranscribeAction::Transcribe(audio),
            ),
            TranscribeEvent::Ended => (TranscribePhase::Stopped, TranscribeAction::Stop),
            TranscribeEvent::Transcribed(text) => match batch_output(text) {
                Some(out) => (TranscribePhase::Sending, TranscribeAction::Send(out)),
                None => (TranscribePhase::Receiving, TranscribeAction::Receive),
            },
            TranscribeEvent::Sent(taken) => if taken {
                (TranscribePhase::Receiving, TranscribeAction::Receive)
            } else {
                (TranscribePhase::Stopped, TranscribeAction::Stop)
            },
        };
        self.phase = phase;
        action
    }
}

/// An event is only refused where a sample count would not fit: a frame while
/// fewer than 2^63 samples came in all, and a segment while its padded range
/// lies within the indices that there are.
pub proof fn only_counts_that_do_not_fit_are_refused<T>(
    m: BatchModel<T>,
    frame: Seq<T>,
    start: int,
    len: int,
)
    ensures
        m.fits(BatchHappening::Frame(frame)) <==> m.ring.history.len() + frame.len()
            <= 0x7fff_ffff_ffff_ffff,
        0 <= len && 4800 - 0x8000_0000_0000_0000 <= start && start + len + 12_800
            <= 0x7fff_ffff_ffff_ffff && 4800 + len + 12_800 <= 0x7fff_ffff_ffff_ffff ==> m.fits(
            BatchHappening::Segment(start, len),
        ),
        m.fits(BatchHappening::Ended) && m.fits(BatchHappening::Fed) && m.fits(
            BatchHappening::NoSegment,
        ) && m.fits(BatchHappening::Flushed) && m.fits(BatchHappening::Sent(true)) && m.fits(
            BatchHappening::Sent(false),
        ),
{
}

} // verus!
