//! The offline checks of a recorded file: what the voice detector finds in it,
//! and what the streaming pipeline makes of it.
use vstd::prelude::*;
use vstd::string::*;

use crate::cli::{CommitNote, Note, Replay, ReplayModel, VadTally};

verus! {

/// The samples that are fed at a time: 32 ms, the detector's window.
pub const CHUNK: usize = 512;

/// How much of a file has been fed.
#[derive(Debug, Clone, Copy, PartialEq, Eq, Structural)]
pub struct Chunks {
    /// The samples of the file.
    pub len: usize,
    /// The samples that were fed.
    pub at: usize,
    /// The chunks that were fed.
    pub fed: usize,
}

impl Chunks {
    /// A file of which nothing was fed.
    pub open spec fn start(len: usize) -> Chunks {
        Chunks { len, at: 0, fed: 0 }
    }

    /// Only the last chunk may be short.
    pub open spec fn wf(self) -> bool {
        self.at == if self.fed * CHUNK <= self.len {
            self.fed * CHUNK
        } else {
            self.len as int
        }
    }

    /// Where the next chunk ends.
    pub open spec fn next_end(self) -> int {
        if self.len - self.at > CHUNK {
            self.at + CHUNK
        } else {
            self.len as int
        }
    }

    /// After one more chunk.
    pub open spec fn advanced(self) -> Chunks {
        Chunks { at: self.next_end() as usize, fed: (self.fed + 1) as usize, ..self }
    }

    /// A chunk starts where the one before it ended and holds at least one
    /// sample. All are of one size, but for the last.
    pub proof fn chunks_follow_each_other(self)
        requires
            self.wf(),
            self.at < self.len,
        ensures
            self.advanced().wf(),
            self.at == self.fed * CHUNK,
            self.at < self.advanced().at <= self.len,
            self.advanced().at - self.at == CHUNK || self.advanced().at == self.len
                && self.advanced().at - self.at < CHUNK,
            self.advanced().fed == self.fed + 1,
    {
    }

    fn advance(&mut self) -> (r: (usize, usize))
        requires
            old(self).wf(),
            old(self).at < old(self).len,
        ensures
            *final(self) == old(self).advanced(),
            final(self).wf(),
            r == (old(self).at, final(self).at),
    {
        let from: usize = self.at;
        self.at = if self.len - from > CHUNK {
            from + CHUNK
        } else {
            self.len
        };
        self.fed += 1;
        (from, self.at)
    }
}

/// What the check of the voice detector does next.
#[derive(Debug, Clone, Copy, PartialEq, Eq, Structural)]
pub enum VadCheckAction {
    /// Feed the samples from `from` to `to` to the detector.
    Feed { from: usize, to: usize },
    /// Take the next finished segment from the detector.
    TakeSegment,
    /// Show a segment: its number from one on, its samples, and whether only
    /// the end of the file finished it.
    Show { number: usize, samples: usize, flushed: bool },
    /// Let the detector finish any trailing speech.
    Flush,
    /// The check is done: what was found in all.
    Done(VadTally),
}

/// What came of it.
#[derive(Debug, Clone, Copy, PartialEq, Eq, Structural)]
pub enum VadCheckEvent {
    Fed,
    /// A segment of so many samples was finished.
    Segment(usize),
    /// No segment is finished.
    NoSegment,
    Shown,
    Flushed,
}

/// What the check of the voice detector waits for.
#[derive(Debug, Clone, Copy, PartialEq, Eq, Structural)]
pub enum VadCheckPhase {
    Feeding,
    Draining,
    Showing,
    Flushing,
    Stopped,
}

/// What the check of the voice detector stands for.
pub struct VadCheckModel {
    pub chunks: Chunks,
    /// The segments so far.
    pub segments: nat,
    /// The samples that they hold together.
    pub samples: nat,
    pub phase: VadCheckPhase,
    /// Whether the whole file was fed.
    pub ended: bool,
}

impl VadCheckModel {
    /// Whether the event is an outcome of what is being waited for.
    pub open spec fn expects(self, event: VadCheckEvent) -> bool {
        match self.phase {
            VadCheckPhase::Feeding => event is Fed,
            VadCheckPhase::Draining => event is Segment || event is NoSegment,
            VadCheckPhase::Showing => event is Shown,
            VadCheckPhase::Flushing => event is Flushed,
            VadCheckPhase::Stopped => false,
        }
    }

    /// Whether the counts fit their type after the event.
    pub open spec fn fits(self, event: VadCheckEvent) -> bool {
        event matches VadCheckEvent::Segment(n) ==> self.segments < usize::MAX && self.samples + n
            <= usize::MAX
    }

    /// The same check in another phase, and what it does there.
    pub open spec fn to(self, phase: VadCheckPhase, action: VadCheckAction) -> (
        VadCheckModel,
        VadCheckAction,
    ) {
        (VadCheckModel { phase, ..self }, action)
    }

    /// The next chunk, or the end of the file.
    pub open spec fn feed(self) -> (VadCheckModel, VadCheckAction) {
        if self.chunks.at < self.chunks.len {
            VadCheckModel { chunks: self.chunks.advanced(), ..self }.to(
                VadCheckPhase::Feeding,
                VadCheckAction::Feed {
                    from: self.chunks.at,
                    to: self.chunks.advanced().at,
                },
            )
        } else {
            VadCheckModel { ended: true, ..self }.to(VadCheckPhase::Flushing, VadCheckAction::Flush)
        }
    }

    /// The check of a file of `len` samples, and what it does first.
    pub open spec fn start(len: usize) -> (VadCheckModel, VadCheckAction) {
        VadCheckModel {
            chunks: Chunks::start(len),
            segments: 0,
            samples: 0,
            phase: VadCheckPhase::Feeding,
            ended: false,
        }.feed()
    }

    /// The check after an event, and what it does then.
    ///
    /// After every chunk each segment that is finished is counted and shown.
    /// At the end of the file the detector is flushed, and so is each segment
    /// that it still gives.
    pub open spec fn next(self, event: VadCheckEvent) -> (VadCheckModel, VadCheckAction) {
        match event {
            VadCheckEvent::Fed | VadCheckEvent::Flushed | VadCheckEvent::Shown => self.to(
                VadCheckPhase::Draining,
                VadCheckAction::TakeSegment,
            ),
            VadCheckEvent::Segment(n) => VadCheckModel {
                segments: self.segments + 1,
                samples: self.samples + n as nat,
                ..self
            }.to(
                VadCheckPhase::Showing,
                VadCheckAction::Show {
                    number: (self.segments + 1) as usize,
                    samples: n,
                    flushed: self.ended,
                },
            ),
            VadCheckEvent::NoSegment => if self.ended {
                self.to(
                    VadCheckPhase::Stopped,
                    VadCheckAction::Done(
                        (VadTally {
                            segments: self.segments as usize,
                            samples: self.samples as usize,
                        }),
                    ),
                )
            } else {
                self.feed()
            },
        }
    }

    /// Once the whole file was fed, only what is left of it is shown.
    pub open spec fn wf(self) -> bool {
        &&& self.chunks.wf()
        &&& self.segments <= usize::MAX
        &&& self.samples <= usize::MAX
        &&& self.ended ==> self.chunks.at == self.chunks.len && self.phase !is Feeding
    }

    /// The check starts with its invariant, and every event keeps it.
    pub proof fn event_keeps_wf(self, len: usize, event: VadCheckEvent)
        ensures
            Self::start(len).0.wf(),
            self.wf() && self.expects(event) && self.fits(event) ==> self.next(event).0.wf(),
    {
        if self.wf() && self.chunks.at < self.chunks.len {
            self.chunks.chunks_follow_each_other();
        }
        if 0 < len {
            Chunks::start(len).chunks_follow_each_other();
        }
    }

    /// Each chunk starts at the first sample that was not fed yet, and the
    /// detector is flushed only when all were: every sample is fed once, in
    /// order.
    pub proof fn each_sample_is_fed_once(self, event: VadCheckEvent)
        requires
            self.wf(),
            self.expects(event),
        ensures
            self.next(event).1 matches VadCheckAction::Feed { from, to } ==> from == self.chunks.at
                && to == self.next(event).0.chunks.at && from < to <= self.chunks.len,
            self.next(event).1 !is Feed ==> self.next(event).0.chunks == self.chunks,
            self.next(event).1 is Flush ==> self.chunks.at == self.chunks.len,
    {
        if self.chunks.at < self.chunks.len {
            self.chunks.chunks_follow_each_other();
        }
    }

    /// Every segment is shown at once, numbered in order, and nothing else is.
    pub proof fn each_segment_is_shown_once(self, event: VadCheckEvent, n: usize)
        requires
            self.expects(event),
            self.fits(event),
        ensures
            self.next(event).1 is Show <==> event is Segment,
            event == VadCheckEvent::Segment(n) ==> self.next(event).1 == (VadCheckAction::Show {
                number: (self.segments + 1) as usize,
                samples: n,
                flushed: self.ended,
            }),
    {
    }

    /// After every chunk segments are taken from the detector until it has
    /// none left, and only then is another chunk fed.
    pub proof fn every_chunk_is_drained(self, event: VadCheckEvent)
        requires
            self.wf(),
            self.expects(event),
        ensures
            event is Fed || event is Shown ==> self.next(event).1 is TakeSegment,
            self.next(event).1 is Feed || self.next(event).1 is Flush <==> event is NoSegment
                && !self.ended,
    {
    }

    /// At the end of the file the detector is flushed and drained once more,
    /// and then the check is done: it says what was found in all.
    pub proof fn end_of_file_is_drained(self, event: VadCheckEvent)
        requires
            self.wf(),
            self.expects(event),
        ensures
            self.next(event).1 is Flush ==> self.next(event).0.ended,
            event is Flushed ==> self.next(event).1 is TakeSegment,
            self.ended ==> self.next(event).0.ended,
            self.next(event).1 is Done <==> event is NoSegment && self.ended,
            self.next(event).1 matches VadCheckAction::Done(t) ==> t.segments == self.segments
                && t.samples == self.samples,
    {
    }

    /// The check after some events.
    pub open spec fn after_run(self, events: Seq<VadCheckEvent>) -> VadCheckModel
        decreases events.len(),
    {
        if events.len() == 0 {
            self
        } else {
            self.after_run(events.drop_last()).next(events.last()).0
        }
    }

    /// The sizes of the segments among some events.
    pub open spec fn found(events: Seq<VadCheckEvent>) -> Seq<nat>
        decreases events.len(),
    {
        if events.len() == 0 {
            Seq::empty()
        } else {
            match events.last() {
                VadCheckEvent::Segment(n) => Self::found(events.drop_last()).push(n as nat),
                _ => Self::found(events.drop_last()),
            }
        }
    }

    /// The sum of some sizes.
    pub open spec fn sum(sizes: Seq<nat>) -> nat
        decreases sizes.len(),
    {
        if sizes.len() == 0 {
            0
        } else {
            Self::sum(sizes.drop_last()) + sizes.last()
        }
    }

    /// The tally counts every segment that was found, and adds up their
    /// samples.
    pub proof fn every_segment_is_counted(self, events: Seq<VadCheckEvent>)
        ensures
            self.after_run(events).segments == self.segments + Self::found(events).len(),
            self.after_run(events).samples == self.samples + Self::sum(Self::found(events)),
        decreases events.len(),
    {
        if events.len() > 0 {
            let init = events.drop_last();
            self.every_segment_is_counted(init);
            if let VadCheckEvent::Segment(n) = events.last() {
                assert(Self::found(init).push(n as nat).drop_last() =~= Self::found(init));
            }
        }
    }
}

/// The check of the voice detector, one step at a time.
pub struct VadCheck {
    chunks: Chunks,
    tally: VadTally,
    phase: VadCheckPhase,
    ended: bool,
}

impl View for VadCheck {
    type V = VadCheckModel;

    closed spec fn view(&self) -> VadCheckModel {
        VadCheckModel {
            chunks: self.chunks,
            segments: self.tally.segments as nat,
            samples: self.tally.samples as nat,
            phase: self.phase,
            ended: self.ended,
        }
    }
}

impl VadCheck {
    /// The check of a file of `len` samples, and what to do first.
    pub fn new(len: usize) -> (r: (Self, VadCheckAction))
        ensures
            r.0@.wf(),
            (r.0@, r.1) == VadCheckModel::start(len),
    {
        let mut check = VadCheck {
            chunks: Chunks { len, at: 0, fed: 0 },
            tally: VadTally::new(),
            phase: VadCheckPhase::Feeding,
            ended: false,
        };
        let action = check.feed();
        (check, action)
    }

    /// Whether the counts fit their type after the event.
    pub fn fits(&self, event: &VadCheckEvent) -> (b: bool)
        ensures
            b == self@.fits(*event),
    {
        match event {
            VadCheckEvent::Segment(n) => self.tally.segments < usize::MAX && *n <= usize::MAX
                - self.tally.samples,
            _ => true,
        }
    }

    fn feed(&mut self) -> (action: VadCheckAction)
        requires
            old(self)@.wf(),
            !old(self)@.ended,
        ensures
            final(self)@.wf(),
            (final(self)@, action) == old(self)@.feed(),
    {
        if self.chunks.at < self.chunks.len {
            let (from, to) = self.chunks.advance();
            self.phase = VadCheckPhase::Feeding;
            VadCheckAction::Feed { from, to }
        } else {
            self.ended = true;
            self.phase = VadCheckPhase::Flushing;
            VadCheckAction::Flush
        }
    }

    /// What came of the last action: what to do next.
    pub fn step(&mut self, event: VadCheckEvent) -> (action: VadCheckAction)
        requires
            old(self)@.wf(),
            old(self)@.expects(event),
            old(self)@.fits(event),
        ensures
            final(self)@.wf(),
            (final(self)@, action) == old(self)@.next(event),
    {
        match event {
            VadCheckEvent::Fed | VadCheckEvent::Flushed | VadCheckEvent::Shown => {
                self.phase = VadCheckPhase::Draining;
                VadCheckAction::TakeSegment
            },
            VadCheckEvent::Segment(n) => {
                self.tally.record(n);
                self.phase = VadCheckPhase::Showing;
                VadCheckAction::Show {
                    number: self.tally.segments,
                    samples: n,
                    flushed: self.ended,
                }
            },
            VadCheckEvent::NoSegment => if self.ended {
                self.phase = VadCheckPhase::Stopped;
                VadCheckAction::Done(self.tally)
            } else {
                self.feed()
            },
        }
    }
}

/// What a streaming replay does next.
#[derive(Debug, Clone, PartialEq, Eq)]
pub enum ReplayAction {
    /// Feed the samples from `from` to `to` to the voice detector and to the
    /// recognizer.
    Feed { from: usize, to: usize },
    /// Take the next finished segment from the detector.
    TakeSegment,
    /// Finalize the utterance in the recognizer, and start the next.
    Commit,
    /// Show a final, and how it compares with the last partial.
    ShowFinal { text: String, note: CommitNote },
    /// Ask the recognizer for its hypothesis.
    AskPartial,
    /// Show the hypothesis after so many chunks.
    ShowPartial { text: String, chunks: usize },
    /// Let the detector finish any trailing speech.
    Flush,
    /// The replay is done: how much was shown.
    Done { partials: usize, commits: usize },
}

/// What came of it.
#[derive(Debug, Clone, PartialEq, Eq)]
pub enum ReplayEvent {
    Fed,
    /// A segment of so many samples was finished.
    Segment(usize),
    /// No segment is finished.
    NoSegment,
    /// The utterance was finalized with this text.
    Committed(String),
    /// The recognizer's hypothesis.
    Hypothesis(String),
    Shown,
    Flushed,
}

/// An action with its text as a sequence of characters.
pub enum ReplayAct {
    Feed(int, int),
    TakeSegment,
    Commit,
    ShowFinal(Seq<char>, Note),
    AskPartial,
    ShowPartial(Seq<char>, int),
    Flush,
    Done(nat, nat),
}

/// An event with its text as a sequence of characters.
pub enum ReplayHappening {
    Fed,
    Segment(usize),
    NoSegment,
    Committed(Seq<char>),
    Hypothesis(Seq<char>),
    Shown,
    Flushed,
}

impl View for ReplayAction {
    type V = ReplayAct;

    open spec fn view(&self) -> ReplayAct {
        match self {
            ReplayAction::Feed { from, to } => ReplayAct::Feed(*from as int, *to as int),
            ReplayAction::TakeSegment => ReplayAct::TakeSegment,
            ReplayAction::Commit => ReplayAct::Commit,
            ReplayAction::ShowFinal { text, note } => ReplayAct::ShowFinal(text@, note@),
            ReplayAction::AskPartial => ReplayAct::AskPartial,
            ReplayAction::ShowPartial { text, chunks } => ReplayAct::ShowPartial(
                text@,
                *chunks as int,
            ),
            ReplayAction::Flush => ReplayAct::Flush,
            ReplayAction::Done { partials, commits } => ReplayAct::Done(
                *partials as nat,
                *commits as nat,
            ),
        }
    }
}

impl View for ReplayEvent {
    type V = ReplayHappening;

    open spec fn view(&self) -> ReplayHappening {
        match self {
            ReplayEvent::Fed => ReplayHappening::Fed,
            ReplayEvent::Segment(n) => ReplayHappening::Segment(*n),
            ReplayEvent::NoSegment => ReplayHappening::NoSegment,
            ReplayEvent::Committed(s) => ReplayHappening::Committed(s@),
            ReplayEvent::Hypothesis(s) => ReplayHappening::Hypothesis(s@),
            ReplayEvent::Shown => ReplayHappening::Shown,
            ReplayEvent::Flushed => ReplayHappening::Flushed,
        }
    }
}

/// What a streaming replay waits for.
#[derive(Debug, Clone, Copy, PartialEq, Eq, Structural)]
pub enum ReplayPhase {
    Feeding,
    Draining,
    /// The utterance of a segment of so many samples is being finalized.
    Committing(usize),
    ShowingFinal,
    Hearing,
    ShowingPartial,
    Flushing,
    Stopped,
}

/// What a streaming replay stands for.
pub struct ReplayLoopModel {
    pub chunks: Chunks,
    /// What was shown so far.
    pub replay: ReplayModel,
    pub phase: ReplayPhase,
    /// Whether the whole file was fed.
    pub ended: bool,
}

impl ReplayLoopModel {
    /// Whether the event is an outcome of what is being waited for.
    pub open spec fn expects(self, event: ReplayHappening) -> bool {
        match self.phase {
            ReplayPhase::Feeding => event is Fed,
            ReplayPhase::Draining => event is Segment || event is NoSegment,
            ReplayPhase::Committing(_) => event is Committed,
            ReplayPhase::ShowingFinal | ReplayPhase::ShowingPartial => event is Shown,
            ReplayPhase::Hearing => event is Hypothesis,
            ReplayPhase::Flushing => event is Flushed,
            ReplayPhase::Stopped => false,
        }
    }

    /// Whether the counts fit their type after the event.
    pub open spec fn fits(self, event: ReplayHappening) -> bool {
        &&& event is Committed ==> self.replay.commits < usize::MAX
        &&& event is Hypothesis ==> self.replay.partials < usize::MAX
    }

    /// The same replay in another phase, and what it does there.
    pub open spec fn to(self, phase: ReplayPhase, act: ReplayAct) -> (ReplayLoopModel, ReplayAct) {
        (ReplayLoopModel { phase, ..self }, act)
    }

    /// The next chunk, or the end of the file.
    pub open spec fn feed(self) -> (ReplayLoopModel, ReplayAct) {
        if self.chunks.at < self.chunks.len {
            ReplayLoopModel { chunks: self.chunks.advanced(), ..self }.to(
                ReplayPhase::Feeding,
                ReplayAct::Feed(self.chunks.at as int, self.chunks.advanced().at as int),
            )
        } else {
            ReplayLoopModel { ended: true, ..self }.to(ReplayPhase::Flushing, ReplayAct::Flush)
        }
    }

    /// The replay of a file of `len` samples, and what it does first.
    pub open spec fn start(len: usize) -> (ReplayLoopModel, ReplayAct) {
        ReplayLoopModel {
            chunks: Chunks::start(len),
            replay: ReplayModel { last_partial: Seq::empty(), partials: 0, commits: 0 },
            phase: ReplayPhase::Feeding,
            ended: false,
        }.feed()
    }

    /// The replay after an event, and what it does then.
    ///
    /// After every chunk each segment that is finished is committed, and its
    /// final shown. After that the hypothesis is looked at, and shown if it
    /// has changed. At the end of the file the detector is flushed, and each
    /// segment that it still gives is committed too.
    pub open spec fn next(self, event: ReplayHappening) -> (ReplayLoopModel, ReplayAct) {
        match event {
            ReplayHappening::Fed | ReplayHappening::Flushed => self.to(
                ReplayPhase::Draining,
                ReplayAct::TakeSegment,
            ),
            ReplayHappening::Segment(n) => self.to(ReplayPhase::Committing(n), ReplayAct::Commit),
            ReplayHappening::NoSegment => if self.ended {
                self.to(
                    ReplayPhase::Stopped,
                    ReplayAct::Done(self.replay.partials, self.replay.commits),
                )
            } else {
                self.to(ReplayPhase::Hearing, ReplayAct::AskPartial)
            },
            ReplayHappening::Committed(text) => {
                let samples = self.phase->Committing_0 as int;
                let after = ReplayLoopModel {
                    replay: self.replay.after_commit(samples, text),
                    ..self
                };
                if ReplayModel::shows(samples, text) {
                    after.to(
                        ReplayPhase::ShowingFinal,
                        ReplayAct::ShowFinal(text, self.replay.note(samples, text)),
                    )
                } else {
                    after.to(ReplayPhase::Draining, ReplayAct::TakeSegment)
                }
            },
            ReplayHappening::Hypothesis(text) => {
                let after = ReplayLoopModel { replay: self.replay.after_partial(text), ..self };
                if text != self.replay.last_partial {
                    after.to(
                        ReplayPhase::ShowingPartial,
                        ReplayAct::ShowPartial(text, self.chunks.fed as int),
                    )
                } else {
                    after.feed()
                }
            },
            ReplayHappening::Shown => if self.phase is ShowingFinal {
                self.to(ReplayPhase::Draining, ReplayAct::TakeSegment)
            } else {
                self.feed()
            },
        }
    }

    /// Once the whole file was fed, only what is left of it is finalized.
    pub open spec fn wf(self) -> bool {
        &&& self.chunks.wf()
        &&& self.ended ==> self.chunks.at == self.chunks.len && (self.phase is Flushing
            || self.phase is Draining || self.phase is Committing || self.phase is ShowingFinal
            || self.phase is Stopped)
    }

    /// The replay starts with its invariant, and every event keeps it.
    pub proof fn event_keeps_wf(self, len: usize, event: ReplayHappening)
        ensures
            Self::start(len).0.wf(),
            self.wf() && self.expects(event) ==> self.next(event).0.wf(),
    {
        if self.wf() && self.chunks.at < self.chunks.len {
            self.chunks.chunks_follow_each_other();
        }
        if 0 < len {
            Chunks::start(len).chunks_follow_each_other();
        }
    }

    /// Each chunk starts at the first sample that was not fed yet, and the
    /// detector is flushed only when all were: every sample is fed once, in
    /// order.
    pub proof fn each_sample_is_fed_once(self, event: ReplayHappening)
        requires
            self.wf(),
            self.expects(event),
        ensures
            self.next(event).1 matches ReplayAct::Feed(from, to) ==> from == self.chunks.at && to
                == self.next(event).0.chunks.at && from < to <= self.chunks.len,
            self.next(event).1 !is Feed ==> self.next(event).0.chunks == self.chunks,
            self.next(event).1 is Flush ==> self.chunks.at == self.chunks.len,
    {
        if self.chunks.at < self.chunks.len {
            self.chunks.chunks_follow_each_other();
        }
    }

    /// Every finished segment is committed at once, a blip too, and nothing
    /// else is: the audio of one utterance does not run into the next.
    pub proof fn each_segment_is_committed_once(self, event: ReplayHappening)
        requires
            self.expects(event),
        ensures
            self.next(event).1 is Commit <==> event is Segment,
            event matches ReplayHappening::Segment(n) ==> self.next(event).0.phase
                == ReplayPhase::Committing(n),
    {
    }

    /// A final is shown exactly when an utterance was committed with words for
    /// a segment that was no blip: those words, held against the last partial.
    pub proof fn finals_are_committed_text(self, event: ReplayHappening, text: Seq<char>, note: Note)
        requires
            self.expects(event),
        ensures
            self.next(event).1 == ReplayAct::ShowFinal(text, note) <==> event
                == ReplayHappening::Committed(text) && ReplayModel::shows(
                self.phase->Committing_0 as int,
                text,
            ) && note == self.replay.note(self.phase->Committing_0 as int, text),
    {
    }

    /// The hypothesis is looked at once after every chunk, when the detector
    /// has no segment left, and it is shown exactly when it has changed.
    pub proof fn partials_are_changed_hypotheses(
        self,
        event: ReplayHappening,
        text: Seq<char>,
        chunks: int,
    )
        requires
            self.expects(event),
        ensures
            self.next(event).1 is AskPartial <==> event is NoSegment && !self.ended,
            self.next(event).1 == ReplayAct::ShowPartial(text, chunks) <==> event
                == ReplayHappening::Hypothesis(text) && text != self.replay.last_partial && chunks
                == self.chunks.fed,
    {
    }

    /// After every chunk and every final, segments are taken from the detector
    /// until it has none left. Another chunk is fed, or the end of the file
    /// reached, only once the hypothesis was dealt with.
    pub proof fn every_chunk_is_drained(self, event: ReplayHappening)
        requires
            self.wf(),
            self.expects(event),
        ensures
            event is Fed || self.phase is ShowingFinal ==> self.next(event).1 is TakeSegment,
            self.phase is Committing && self.next(event).1 !is ShowFinal ==> self.next(
                event,
            ).1 is TakeSegment,
            self.next(event).1 is Feed || self.next(event).1 is Flush <==> self.phase is Hearing
                && self.next(event).1 !is ShowPartial || self.phase is ShowingPartial,
    {
    }

    /// At the end of the file the detector is flushed and drained once more.
    /// From then on nothing is fed and no hypothesis is looked at, and the
    /// replay is done when the detector has no segment left.
    pub proof fn end_of_file_is_drained(self, event: ReplayHappening)
        requires
            self.wf(),
            self.expects(event),
        ensures
            self.next(event).1 is Flush ==> self.next(event).0.ended,
            event is Flushed ==> self.next(event).1 is TakeSegment,
            self.ended ==> self.next(event).0.ended && self.next(event).1 !is Feed && self.next(
                event,
            ).1 !is Flush && self.next(event).1 !is AskPartial && self.next(event).1 !is ShowPartial,
            self.next(event).1 is Done <==> event is NoSegment && self.ended,
    {
    }

    /// What is counted is what was shown.
    pub proof fn shown_is_counted(self, event: ReplayHappening)
        requires
            self.expects(event),
        ensures
            self.next(event).0.replay.commits == self.replay.commits + if self.next(
                event,
            ).1 is ShowFinal {
                1nat
            } else {
                0
            },
            self.next(event).0.replay.partials == self.replay.partials + if self.next(
                event,
            ).1 is ShowPartial {
                1nat
            } else {
                0
            },
            self.next(event).1 matches ReplayAct::Done(partials, commits) ==> partials
                == self.replay.partials && commits == self.replay.commits,
    {
    }
}

/// A streaming replay of a file, one step at a time.
pub struct ReplayLoop {
    chunks: Chunks,
    replay: Replay,
    phase: ReplayPhase,
    ended: bool,
}

impl View for ReplayLoop {
    type V = ReplayLoopModel;

    closed spec fn view(&self) -> ReplayLoopModel {
        ReplayLoopModel {
            chunks: self.chunks,
            replay: self.replay@,
            phase: self.phase,
            ended: self.ended,
        }
    }
}

impl ReplayLoop {
    /// The replay of a file of `len` samples, and what to do first.
    pub fn new(len: usize) -> (r: (Self, ReplayAction))
        ensures
            r.0@.wf(),
            (r.0@, r.1@) == ReplayLoopModel::start(len),
    {
        let mut replay = ReplayLoop {
            chunks: Chunks { len, at: 0, fed: 0 },
            replay: Replay::new(),
            phase: ReplayPhase::Feeding,
            ended: false,
        };
        let action = replay.feed();
        (replay, action)
    }

    /// Whether the counts fit their type after the event.
    pub fn fits(&self, event: &ReplayEvent) -> (b: bool)
        ensures
            b == self@.fits(event@),
    {
        match event {
            ReplayEvent::Committed(_) => self.replay.commits() < usize::MAX,
            ReplayEvent::Hypothesis(_) => self.replay.partials() < usize::MAX,
            _ => true,
        }
    }

    fn go(&mut self, phase: ReplayPhase, action: ReplayAction) -> (a: ReplayAction)
        ensures
            a == action,
            final(self)@ == (ReplayLoopModel { phase, ..old(self)@ }),
    {
        self.phase = phase;
        action
    }

    fn feed(&mut self) -> (action: ReplayAction)
        requires
            old(self)@.chunks.wf(),
            !old(self)@.ended,
        ensures
            final(self)@.wf(),
            (final(self)@, action@) == old(self)@.feed(),
    {
        if self.chunks.at < self.chunks.len {
            let (from, to) = self.chunks.advance();
            self.go(ReplayPhase::Feeding, ReplayAction::Feed { from, to })
        } else {
            self.ended = true;
            self.go(ReplayPhase::Flushing, ReplayAction::Flush)
        }
    }

    /// What came of the last action: what to do next.
    pub fn step(&mut self, event: ReplayEvent) -> (action: ReplayAction)
        requires
            old(self)@.wf(),
            old(self)@.expects(event@),
            old(self)@.fits(event@),
        ensures
            final(self)@.wf(),
            (final(self)@, action@) == old(self)@.next(event@),
    {
        match event {
            ReplayEvent::Fed | ReplayEvent::Flushed => self.go(
                ReplayPhase::Draining,
                ReplayAction::TakeSegment,
            ),
            ReplayEvent::Segment(n) => self.go(ReplayPhase::Committing(n), ReplayAction::Commit),
            ReplayEvent::NoSegment => if self.ended {
                let done = ReplayAction::Done {
                    partials: self.replay.partials(),
                    commits: self.replay.commits(),
                };
                self.go(ReplayPhase::Stopped, done)
            } else {
                self.go(ReplayPhase::Hearing, ReplayAction::AskPartial)
            },
            ReplayEvent::Committed(text) => {
                let samples: usize = match self.phase {
                    ReplayPhase::Committing(n) => n,
                    _ => 0,
                };
                let note = self.replay.on_commit(samples, text.as_str());
                if matches!(note, CommitNote::Silent) {
                    self.go(ReplayPhase::Draining, ReplayAction::TakeSegment)
                } else {
                    self.go(ReplayPhase::ShowingFinal, ReplayAction::ShowFinal { text, note })
                }
            },
            ReplayEvent::Hypothesis(text) => if self.replay.on_partial(text.as_str()) {
                let show = ReplayAction::ShowPartial { text, chunks: self.chunks.fed };
                self.go(ReplayPhase::ShowingPartial, show)
            } else {
                self.feed()
            },
            ReplayEvent::Shown => if matches!(self.phase, ReplayPhase::ShowingFinal) {
                self.go(ReplayPhase::Draining, ReplayAction::TakeSegment)
            } else {
                self.feed()
            },
        }
    }
}

/// The first thing done with a file is to feed its first 512 samples, or all of
/// a shorter one; an empty one is flushed at once. Nothing is counted yet.
pub proof fn checks_start_with_the_first_chunk(len: usize)
    ensures
        len > 0 ==> VadCheckModel::start(len).1 == (VadCheckAction::Feed {
            from: 0,
            to: if len > 512 {
                512
            } else {
                len
            },
        }),
        len == 0 ==> VadCheckModel::start(len).1 == VadCheckAction::Flush,
        VadCheckModel::start(len).0.segments == 0,
        VadCheckModel::start(len).0.samples == 0,
        VadCheckModel::start(len).0.chunks.len == len,
        len > 0 ==> ReplayLoopModel::start(len).1 == ReplayAct::Feed(
            0,
            if len > 512 {
                512
            } else {
                len as int
            },
        ),
        len == 0 ==> ReplayLoopModel::start(len).1 == ReplayAct::Flush,
        ReplayLoopModel::start(len).0.replay.partials == 0,
        ReplayLoopModel::start(len).0.replay.commits == 0,
        ReplayLoopModel::start(len).0.replay.last_partial.len() == 0,
        ReplayLoopModel::start(len).0.chunks.len == len,
{
}

/// Each chunk is 512 samples, or what is left of the file.
pub proof fn chunks_are_of_one_size(chunks: Chunks)
    requires
        chunks.wf(),
        chunks.at < chunks.len,
    ensures
        chunks.advanced().at == if chunks.len - chunks.at > 512 {
            chunks.at + 512
        } else {
            chunks.len as int
        },
        chunks.advanced().fed == chunks.fed + 1,
        chunks.advanced().len == chunks.len,
        chunks.at == 512 * chunks.fed,
{
}

/// What is waited for in the check of the voice detector is an outcome of what
/// is done.
pub proof fn outcome_of_each_check_is_awaited(
    m: VadCheckModel,
    event: VadCheckEvent,
    outcome: VadCheckEvent,
)
    requires
        m.expects(event),
    ensures
        m.next(event).0.expects(outcome) <==> match m.next(event).1 {
            VadCheckAction::Feed { from, to } => outcome is Fed,
            VadCheckAction::TakeSegment => outcome is Segment || outcome is NoSegment,
            VadCheckAction::Show { number, samples, flushed } => outcome is Shown,
            VadCheckAction::Flush => outcome is Flushed,
            VadCheckAction::Done(_) => false,
        },
        m.next(event).0.ended <==> m.ended || m.next(event).1 is Flush,
{
}

/// What is waited for in a replay is an outcome of what is done, and what was
/// shown is remembered as it was shown.
pub proof fn outcome_of_each_replay_step_is_awaited(
    m: ReplayLoopModel,
    event: ReplayHappening,
    outcome: ReplayHappening,
)
    requires
        m.expects(event),
    ensures
        m.next(event).0.expects(outcome) <==> match m.next(event).1 {
            ReplayAct::Feed(_, _) => outcome is Fed,
            ReplayAct::TakeSegment => outcome is Segment || outcome is NoSegment,
            ReplayAct::Commit => outcome is Committed,
            ReplayAct::ShowFinal(_, _) | ReplayAct::ShowPartial(_, _) => outcome is Shown,
            ReplayAct::AskPartial => outcome is Hypothesis,
            ReplayAct::Flush => outcome is Flushed,
            ReplayAct::Done(_, _) => false,
        },
        m.next(event).0.ended <==> m.ended || m.next(event).1 is Flush,
        m.next(event).1 matches ReplayAct::ShowPartial(text, _) ==> m.next(
            event,
        ).0.replay.last_partial == text,
        m.next(event).1 is ShowFinal ==> m.next(event).0.replay.last_partial.len() == 0,
        m.next(event).1 !is ShowPartial && m.next(event).1 !is ShowFinal ==> m.next(event).0.replay
            == m.replay,
{
}

/// In a replay the final of a segment of at least a tenth of a second is shown
/// where it has words, with the last partial where that was another. A shorter
/// segment, or one without words, shows nothing.
pub proof fn replay_shows_the_final_of_each_segment(m: ReplayLoopModel, samples: usize, text: Seq<char>)
    requires
        m.phase == ReplayPhase::Committing(samples),
    ensures
        samples >= 1600 && text.len() > 0 && text == m.replay.last_partial ==> m.next(
            ReplayHappening::Committed(text),
        ).1 == ReplayAct::ShowFinal(text, Note::SameAsPartial),
        samples >= 1600 && text.len() > 0 && text != m.replay.last_partial ==> m.next(
            ReplayHappening::Committed(text),
        ).1 == ReplayAct::ShowFinal(text, Note::PartialWas(m.replay.last_partial)),
        samples < 1600 || text.len() == 0 ==> m.next(
            ReplayHappening::Committed(text),
        ).1 is TakeSegment,
{
}

/// An event is only refused where a count would not fit its type.
pub proof fn only_counts_over_the_limit_are_refused(
    check: VadCheckModel,
    replay: ReplayLoopModel,
    n: usize,
    text: Seq<char>,
)
    ensures
        check.fits(VadCheckEvent::Segment(n)) <==> check.segments + 1 <= usize::MAX && check.samples
            + n <= usize::MAX,
        check.fits(VadCheckEvent::Fed) && check.fits(VadCheckEvent::NoSegment) && check.fits(
            VadCheckEvent::Shown,
        ) && check.fits(VadCheckEvent::Flushed),
        replay.fits(ReplayHappening::Committed(text)) <==> replay.replay.commits + 1 <= usize::MAX,
        replay.fits(ReplayHappening::Hypothesis(text)) <==> replay.replay.partials + 1
            <= usize::MAX,
        replay.fits(ReplayHappening::Fed) && replay.fits(ReplayHappening::Segment(n))
            && replay.fits(ReplayHappening::NoSegment) && replay.fits(ReplayHappening::Shown)
            && replay.fits(ReplayHappening::Flushed),
{
}

} // verus!
