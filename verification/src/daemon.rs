//! The dictation engine: what a session puts into the target buffer, what it
//! reports, and how it starts and stops.
use std::collections::VecDeque;

use vstd::prelude::*;
use vstd::string::*;

use crate::asr;
use crate::asr::AsrKind;
use crate::audio::SAMPLE_RATE;
use crate::injector;
use crate::model::Model;
use crate::text;
use crate::transcript::Transcript;
use crate::vad;

verus! {

pub const BUS_NAME: &'static str = "io.saytype.Dictate";

pub const OBJECT_PATH: &'static str = "/io/saytype/Dictate";

pub const INTERFACE_NAME: &'static str = "io.saytype.Dictate1";

/// How many consecutive partials a prefix must survive before it is typed
/// into the target app.
pub const STABILITY_PARTIALS: usize = 2;

/// Minimum gap between two accepted toggles: a held hotkey repeats faster
/// than this, a hand does not.
pub const TOGGLE_DEBOUNCE_MS: u64 = 350;

/// Nanoseconds in a millisecond.
pub const NANOS_PER_MS: u64 = 1_000_000;

/// What the engine reports.
#[derive(Debug, Clone, PartialEq, Eq)]
pub enum EngineEvent {
    StateChanged(String),
    /// Live partial hypothesis for the utterance in progress.
    PartialTranscribed(String),
    /// Final text for a committed utterance.
    SegmentTranscribed(String),
    /// The full visible transcript that the HUD shows verbatim.
    TranscriptUpdated(String),
}

/// An event with its text as a sequence of characters.
pub enum Event {
    StateChanged(Seq<char>),
    PartialTranscribed(Seq<char>),
    SegmentTranscribed(Seq<char>),
    TranscriptUpdated(Seq<char>),
}

impl View for EngineEvent {
    type V = Event;

    open spec fn view(&self) -> Event {
        match self {
            EngineEvent::StateChanged(s) => Event::StateChanged(s@),
            EngineEvent::PartialTranscribed(s) => Event::PartialTranscribed(s@),
            EngineEvent::SegmentTranscribed(s) => Event::SegmentTranscribed(s@),
            EngineEvent::TranscriptUpdated(s) => Event::TranscriptUpdated(s@),
        }
    }
}

/// The views of a list of events.
pub open spec fn events(v: Seq<EngineEvent>) -> Seq<Event> {
    v.map_values(|e: EngineEvent| e@)
}

/// Text produced by the recognizer, consumed by the injector. `Partial` is a
/// live hypothesis, `Final` the committed text of one utterance.
#[derive(Debug, Clone, PartialEq, Eq)]
pub enum AsrOutput {
    Partial(String),
    Final(String),
}

/// What the injector consumes: recognized text and user commands.
#[derive(Debug, Clone, PartialEq, Eq)]
pub enum InjectorInput {
    Asr(AsrOutput),
    /// Erase the last visible word.
    Erase,
    /// Restore the last erased word.
    Undo,
}

/// Commands sent from the bus methods to the engine.
#[derive(Debug, Clone, Copy, PartialEq, Eq, Structural)]
pub enum EngineCmd {
    Toggle,
    Stop,
    Erase,
    Undo,
}

/// When transcribed text reaches the target app. Independent of what the HUD
/// shows.
#[derive(Debug, Clone, Copy, PartialEq, Eq, Structural)]
pub enum TypingMode {
    /// Type partials as soon as they are stable, corrected with backspaces;
    /// each final converges the buffer to the committed text.
    Live,
    /// Type only committed finals, immediately.
    FinalOnly,
    /// Type nothing while the session is recording; the whole transcript is
    /// pasted once, when it stops.
    Deferred,
}

/// How far an edit of the target buffer got.
#[derive(Debug, Clone, Copy, PartialEq, Eq, Structural)]
pub enum EditOutcome {
    /// The deletions failed: the buffer is as it was.
    Nothing,
    /// The deletions were done, and the typing failed.
    Deleted,
    /// All of it was done.
    Done,
}

/// What a buffer that held `typed` holds after an edit towards `target`.
pub open spec fn reached(
    typed: Seq<char>,
    target: Seq<char>,
    outcome: EditOutcome,
) -> Seq<char> {
    match outcome {
        EditOutcome::Nothing => typed,
        EditOutcome::Deleted => typed.take(text::common_prefix(typed, target) as int),
        EditOutcome::Done => target,
    }
}

/// The longest common prefix of all texts of `h`.
pub open spec fn shared_prefix(h: Seq<Seq<char>>) -> Seq<char>
    decreases h.len(),
{
    if h.len() == 0 {
        Seq::empty()
    } else if h.len() == 1 {
        h[0]
    } else {
        let p = shared_prefix(h.drop_last());
        p.take(text::common_prefix(p, h.last()) as int)
    }
}

/// What live typing stands for.
#[verifier::ext_equal]
pub struct Typing {
    /// What has been put in the target buffer.
    pub typed: Seq<char>,
    /// The most recent partials of the utterance in progress, oldest first.
    pub history: Seq<Seq<char>>,
}

impl Typing {
    /// Nothing typed and no partials yet.
    pub open spec fn fresh() -> Typing {
        Typing { typed: Seq::empty(), history: Seq::empty() }
    }

    /// After one more partial: the most recent ones are kept.
    pub open spec fn after_partial(self, text: Seq<char>) -> Typing {
        let all = self.history.push(text);
        Typing {
            history: if all.len() > STABILITY_PARTIALS {
                all.skip(1)
            } else {
                all
            },
            ..self
        }
    }

    /// After a segment was committed.
    pub open spec fn after_commit(self) -> Typing {
        Typing { history: Seq::empty(), ..self }
    }

    /// The part of the visible partial that is stable: the prefix that all
    /// recent partials share with it, without white space at its end.
    pub open spec fn stable(self, m: Model) -> Seq<char> {
        let shared = shared_prefix(self.history);
        text::trim_end(shared.take(text::common_prefix(shared, m.visible_partial()) as int))
    }

    /// The text that the buffer should hold while the utterance is in
    /// progress, or `None` until some prefix is stable.
    pub open spec fn stable_target(self, m: Model) -> Option<Seq<char>> {
        if self.history.len() < STABILITY_PARTIALS || self.stable(m).len() == 0 {
            None
        } else {
            Some(m.buffer_target(self.stable(m)))
        }
    }

    /// What holds of it between two calls.
    pub open spec fn wf(self) -> bool {
        self.history.len() <= STABILITY_PARTIALS
    }
}

/// Live-typing state: what has actually been put in the target buffer and the
/// recent partials that decide when a prefix is stable enough to type.
pub struct LiveTyping {
    /// Exactly what has been put in the target buffer.
    typed: String,
    /// The most recent `STABILITY_PARTIALS` partials of the utterance in
    /// progress.
    history: VecDeque<String>,
}

impl View for LiveTyping {
    type V = Typing;

    closed spec fn view(&self) -> Typing {
        Typing { typed: self.typed@, history: text::views(self.history@) }
    }
}

impl LiveTyping {
    pub fn new() -> (l: Self)
        ensures
            l@ == Typing::fresh(),
    {
        let l = LiveTyping { typed: String::new(), history: VecDeque::new() };
        assert(l@ =~= Typing::fresh());
        l
    }

    /// Remember one more partial of the utterance in progress.
    pub fn push_partial(&mut self, text: &str)
        ensures
            final(self)@ == old(self)@.after_partial(text@),
    {
        let ghost before = self@;
        self.history.push_back(text.to_string());
        assert(self@ =~= (Typing { history: before.history.push(text@), ..before }));
        if self.history.len() > STABILITY_PARTIALS {
            let _ = self.history.pop_front();
        }
        assert(self@ =~= before.after_partial(text@));
    }

    /// The full text the target buffer should hold while the utterance is in
    /// progress: the committed text plus the longest prefix that is stable
    /// across all recent partials and still visible after mid-dictation
    /// erasures. `None` until there are enough partials for a non-empty
    /// stable prefix.
    pub fn stable_target(&self, transcript: &Transcript) -> (r: Option<String>)
        requires
            transcript.wf(),
        ensures
            match r {
                Some(s) => self@.stable_target(transcript@) == Some(s@),
                None => self@.stable_target(transcript@) is None,
            },
    {
        let n: usize = self.history.len();
        if n < STABILITY_PARTIALS {
            return None;
        }
        let ghost h = self@.history;
        let mut stable: Vec<char> = text::chars_of(self.history[0].as_str());
        let mut i: usize = 1;
        assert(h.take(1).len() == 1);
        while i < n
            invariant
                n == self.history@.len(),
                h == text::views(self.history@),
                1 <= i <= n,
                stable@ == shared_prefix(h.take(i as int)),
            decreases n - i,
        {
            let next = text::chars_of(self.history[i].as_str());
            let c: usize = text::common_prefix_len(&stable, &next);
            stable.truncate(c);
            proof {
                let more = h.take(i + 1);
                assert(more.drop_last() =~= h.take(i as int));
                assert(more.last() == next@);
            }
            i += 1;
        }
        assert(h.take(n as int) =~= h);
        // An erase may have removed a word from the visible partial, so the
        // shared prefix can reach past the visible text.
        let visible = text::chars_of(transcript.visible_partial().as_str());
        let c: usize = text::common_prefix_len(&stable, &visible);
        let seen = text::string_of_range(&stable, 0, c);
        let stable = text::trimmed_end(seen.as_str());
        if stable.as_str().is_empty() {
            return None;
        }
        Some(transcript.buffer_target(stable.as_str()))
    }

    /// An edit towards `target` got this far: record what the buffer holds.
    pub fn apply(&mut self, target: String, outcome: EditOutcome)
        ensures
            final(self)@.typed == reached(old(self)@.typed, target@, outcome),
            final(self)@.history == old(self)@.history,
    {
        match outcome {
            EditOutcome::Nothing => {},
            EditOutcome::Deleted => {
                let held = text::chars_of(self.typed.as_str());
                let wanted = text::chars_of(target.as_str());
                let common: usize = text::common_prefix_len(&held, &wanted);
                let kept = text::string_of_range(&held, 0, common);
                assert(kept@ == self.typed@.take(common as int));
                self.typed = kept;
            },
            EditOutcome::Done => {
                self.typed = target;
            },
        }
    }

    /// A segment committed: the recent partials start fresh for the next
    /// utterance.
    pub fn commit_segment(&mut self)
        ensures
            final(self)@ == old(self)@.after_commit(),
    {
        let ghost before = self@;
        self.history.clear();
        assert(self@ =~= before.after_commit());
    }
}

/// What the recent partials share is a prefix of each of them, and every
/// other such prefix is a prefix of it.
pub proof fn shared_prefix_is_the_longest(h: Seq<Seq<char>>, p: Seq<char>)
    requires
        h.len() > 0,
        forall|i: int|
            0 <= i < h.len() ==> p.len() <= (#[trigger] h[i]).len() && h[i].take(p.len() as int)
                == p,
    ensures
        forall|i: int|
            0 <= i < h.len() ==> shared_prefix(h).len() <= (#[trigger] h[i]).len() && h[i].take(
                shared_prefix(h).len() as int,
            ) == shared_prefix(h),
        p.len() <= shared_prefix(h).len(),
        shared_prefix(h).take(p.len() as int) == p,
    decreases h.len(),
{
    let s = shared_prefix(h);
    if h.len() == 1 {
        assert(h[0].take(h[0].len() as int) =~= h[0]);
    } else {
        let init = h.drop_last();
        let q = shared_prefix(init);
        let last = h.last();
        let c = text::common_prefix(q, last) as int;
        assert forall|i: int| 0 <= i < init.len() implies p.len() <= (#[trigger] init[i]).len()
            && init[i].take(p.len() as int) == p by {
            assert(init[i] == h[i]);
        }
        shared_prefix_is_the_longest(init, p);
        text::lemma_common_prefix(q, last);
        assert(h[h.len() - 1] == last);
        if p.len() > c {
            assert(q[c] == p[c]) by {
                assert(q.take(p.len() as int)[c] == q[c]);
            }
            assert(last[c] == p[c]) by {
                assert(last.take(p.len() as int)[c] == last[c]);
            }
        }
        assert(s.take(p.len() as int) =~= q.take(p.len() as int));
        assert forall|i: int| 0 <= i < h.len() implies s.len() <= (#[trigger] h[i]).len()
            && h[i].take(s.len() as int) == s by {
            if i < init.len() {
                assert(init[i] == h[i]);
                assert(h[i].take(s.len() as int) =~= h[i].take(q.len() as int).take(
                    s.len() as int,
                ));
            } else {
                assert(last.take(c) =~= q.take(c));
            }
        }
    }
}

/// What the injector consumes, with its text as a sequence of characters.
pub enum Input {
    Partial(Seq<char>),
    Final(Seq<char>),
    Erase,
    Undo,
}

impl View for InjectorInput {
    type V = Input;

    open spec fn view(&self) -> Input {
        match self {
            InjectorInput::Asr(AsrOutput::Partial(s)) => Input::Partial(s@),
            InjectorInput::Asr(AsrOutput::Final(s)) => Input::Final(s@),
            InjectorInput::Erase => Input::Erase,
            InjectorInput::Undo => Input::Undo,
        }
    }
}

/// What an injector stands for.
#[verifier::ext_equal]
pub struct SessionModel {
    pub transcript: Model,
    pub typing: Typing,
    pub mode: TypingMode,
    pub streaming: bool,
}

impl SessionModel {
    /// A session before any input.
    pub open spec fn fresh(mode: TypingMode, streaming: bool) -> SessionModel {
        SessionModel { transcript: Model::fresh(), typing: Typing::fresh(), mode, streaming }
    }

    /// Whether the input changes anything: an erase needs a visible word, an
    /// undo an erased one.
    pub open spec fn changed_by(self, input: Input) -> bool {
        match input {
            Input::Partial(_) | Input::Final(_) => true,
            Input::Erase => self.transcript.erasable() is Some,
            Input::Undo => self.transcript.pending.len() > 0,
        }
    }

    /// The session with the input taken in, before the buffer is edited.
    pub open spec fn fed(self, input: Input) -> SessionModel {
        match input {
            Input::Partial(text) => SessionModel {
                transcript: self.transcript.after_partial(text),
                typing: if self.mode is Live {
                    self.typing.after_partial(text)
                } else {
                    self.typing
                },
                ..self
            },
            Input::Final(text) => SessionModel {
                transcript: if self.streaming {
                    self.transcript.after_final(text)
                } else {
                    self.transcript.after_batch_final(text)
                },
                ..self
            },
            Input::Erase => SessionModel { transcript: self.transcript.after_erase(), ..self },
            Input::Undo => SessionModel { transcript: self.transcript.after_undo(), ..self },
        }
    }

    /// The text that the buffer should hold after the input, or `None` where
    /// it is left alone.
    pub open spec fn target(self, input: Input) -> Option<Seq<char>> {
        let fed = self.fed(input);
        match input {
            Input::Partial(_) => if self.mode is Live {
                fed.typing.stable_target(fed.transcript)
            } else {
                None
            },
            Input::Final(_) => if self.mode is Deferred {
                None
            } else {
                Some(fed.transcript.committed_text())
            },
            Input::Erase | Input::Undo => if self.mode is Deferred || !self.changed_by(input) {
                None
            } else {
                match fed.typing.stable_target(fed.transcript) {
                    Some(t) => Some(t),
                    None => Some(fed.transcript.committed_text()),
                }
            },
        }
    }

    /// What is reported before the buffer is edited.
    pub open spec fn events_before(input: Input) -> Seq<Event> {
        match input {
            Input::Partial(text) => seq![Event::PartialTranscribed(text)],
            _ => Seq::empty(),
        }
    }

    /// The text that is reported of a final: marked where it could not be
    /// typed.
    pub open spec fn reported(text: Seq<char>, typed: bool) -> Seq<char> {
        if typed {
            text
        } else {
            "[type failed] "@ + text
        }
    }

    /// What is left to do for the input once the buffer was edited.
    pub open spec fn rest(self, input: Input) -> RestModel {
        RestModel {
            target: self.target(input),
            segment: match input {
                Input::Final(text) => Some(text),
                _ => None,
            },
            changed: self.changed_by(input),
        }
    }

    /// What is reported after the buffer was edited, given how far that got.
    /// A final that was to be typed and could not be is marked.
    pub open spec fn settle_events(self, rest: RestModel, outcome: EditOutcome) -> Seq<Event> {
        let shown = Event::TranscriptUpdated(self.transcript.display());
        if !rest.changed {
            Seq::empty()
        } else {
            match rest.segment {
                Some(text) => seq![
                    Event::SegmentTranscribed(
                        Self::reported(text, outcome is Done || rest.target is None),
                    ),
                    shown,
                ],
                None => seq![shown],
            }
        }
    }

    /// The session after the buffer was edited, given how far that got. A
    /// final starts a new utterance.
    pub open spec fn settle(self, rest: RestModel, outcome: EditOutcome) -> SessionModel {
        SessionModel {
            typing: Typing {
                typed: match rest.target {
                    Some(t) => reached(self.typing.typed, t, outcome),
                    None => self.typing.typed,
                },
                history: if rest.segment is Some {
                    Seq::empty()
                } else {
                    self.typing.history
                },
            },
            ..self
        }
    }

    /// The session after the input, given how far the edit got.
    pub open spec fn after(self, input: Input, outcome: EditOutcome) -> SessionModel {
        self.fed(input).settle(self.rest(input), outcome)
    }

    /// All that is reported of the input, in order.
    pub open spec fn events(self, input: Input, outcome: EditOutcome) -> Seq<Event> {
        Self::events_before(input) + self.fed(input).settle_events(self.rest(input), outcome)
    }

    /// What a buffer holds after the edit for the input, given how far that
    /// got.
    pub open spec fn buffer_after(
        self,
        buffer: Seq<char>,
        input: Input,
        outcome: EditOutcome,
    ) -> Seq<char> {
        match self.target(input) {
            Some(t) => edited(buffer, edit_to(self.typing.typed, t), outcome),
            None => buffer,
        }
    }

    /// What is pasted when the session stops.
    pub open spec fn pasted(self) -> Option<Seq<char>> {
        if self.mode is Deferred {
            Some(self.transcript.display())
        } else {
            None
        }
    }

    /// What holds of every session: the transcript's own invariant, and only
    /// live typing remembers partials.
    pub open spec fn wf(self) -> bool {
        &&& self.transcript.wf()
        &&& self.typing.wf()
        &&& self.mode !is Live ==> self.typing.history.len() == 0
    }
}

/// What holds of every session.
impl SessionModel {
    /// The session after some inputs, all of which could be typed.
    pub open spec fn after_all(self, inputs: Seq<Input>) -> SessionModel
        decreases inputs.len(),
    {
        if inputs.len() == 0 {
            self
        } else {
            self.after_all(inputs.drop_last()).after(inputs.last(), EditOutcome::Done)
        }
    }

    /// The session after some inputs, given how far the edit for each got.
    pub open spec fn after_run(self, run: Seq<(Input, EditOutcome)>) -> SessionModel
        decreases run.len(),
    {
        if run.len() == 0 {
            self
        } else {
            let (input, outcome) = run.last();
            self.after_run(run.drop_last()).after(input, outcome)
        }
    }

    /// What a buffer holds after the edits for some inputs, given how far each
    /// got.
    pub open spec fn buffer_after_run(
        self,
        buffer: Seq<char>,
        run: Seq<(Input, EditOutcome)>,
    ) -> Seq<char>
        decreases run.len(),
    {
        if run.len() == 0 {
            buffer
        } else {
            let (input, outcome) = run.last();
            self.after_run(run.drop_last()).buffer_after(
                self.buffer_after_run(buffer, run.drop_last()),
                input,
                outcome,
            )
        }
    }

    /// Whether what is typed stays short enough for the number of deletions to
    /// fit its type.
    pub open spec fn fits(self, run: Seq<(Input, EditOutcome)>) -> bool {
        forall|n: int|
            0 <= n <= run.len() ==> (#[trigger] self.after_run(run.take(n))).typing.typed.len()
                <= u32::MAX
    }

    /// Every input keeps the invariant, however far its edit got.
    pub proof fn input_keeps_wf(self, input: Input, outcome: EditOutcome)
        requires
            self.wf(),
        ensures
            self.fed(input).wf(),
            self.after(input, outcome).wf(),
    {
        match input {
            Input::Partial(text) => self.transcript.partial_keeps_wf(text),
            Input::Final(text) => {
                self.transcript.final_keeps_wf(text);
                self.transcript.batch_final_keeps_wf(text);
            },
            Input::Erase => self.transcript.erase_keeps_wf(),
            Input::Undo => self.transcript.undo_keeps_wf(),
        }
    }

    /// In `Deferred` mode nothing is typed while the session runs, and the
    /// whole visible transcript is pasted when it stops. In the other modes
    /// nothing is pasted.
    pub proof fn deferred_types_nothing(self, input: Input, outcome: EditOutcome)
        ensures
            self.mode is Deferred ==> self.target(input) is None && self.after(
                input,
                outcome,
            ).typing.typed == self.typing.typed,
            self.mode is Deferred ==> self.pasted() == Some(self.transcript.display()),
            self.mode !is Deferred ==> self.pasted() is None,
            self.after(input, outcome).mode == self.mode,
    {
    }

    /// A whole session in `Deferred` mode types nothing before it stops.
    pub proof fn deferred_session_types_nothing(streaming: bool, inputs: Seq<Input>)
        ensures
            Self::fresh(TypingMode::Deferred, streaming).after_all(inputs).mode is Deferred,
            Self::fresh(TypingMode::Deferred, streaming).after_all(inputs).typing.typed
                == Seq::<char>::empty(),
        decreases inputs.len(),
    {
        if inputs.len() > 0 {
            Self::deferred_session_types_nothing(streaming, inputs.drop_last());
        }
    }

    /// In `FinalOnly` mode a partial is never typed.
    pub proof fn final_only_types_no_partial(self, text: Seq<char>)
        requires
            self.mode is FinalOnly,
        ensures
            self.target(Input::Partial(text)) is None,
    {
    }

    /// In `Live` mode the first partial of an utterance is never typed: it
    /// has not proved stable.
    pub proof fn first_partial_is_not_typed(self, text: Seq<char>)
        requires
            self.typing.history.len() == 0,
        ensures
            self.target(Input::Partial(text)) is None,
    {
    }

    /// What counts as typed is what the buffer holds, however far an edit got.
    pub proof fn typed_is_the_buffer(self, input: Input, outcome: EditOutcome)
        requires
            self.typing.typed.len() <= u32::MAX,
        ensures
            self.buffer_after(self.typing.typed, input, outcome) == self.after(
                input,
                outcome,
            ).typing.typed,
    {
        if let Some(t) = self.target(input) {
            edit_reaches(self.typing.typed, t, outcome);
        }
    }

    /// The same of a whole session, whatever failed in it.
    pub proof fn typed_is_the_buffer_throughout(self, run: Seq<(Input, EditOutcome)>)
        requires
            self.fits(run),
        ensures
            self.buffer_after_run(self.typing.typed, run) == self.after_run(run).typing.typed,
        decreases run.len(),
    {
        if run.len() > 0 {
            let init = run.drop_last();
            assert(run.take(run.len() - 1) =~= init);
            assert(self.fits(init)) by {
                assert forall|n: int| 0 <= n <= init.len() implies (#[trigger] self.after_run(
                    init.take(n),
                )).typing.typed.len() <= u32::MAX by {
                    assert(init.take(n) =~= run.take(n));
                    assert(self.after_run(run.take(n)).typing.typed.len() <= u32::MAX);
                }
            }
            self.typed_is_the_buffer_throughout(init);
            let (input, outcome) = run.last();
            assert(self.after_run(run.take(run.len() - 1)).typing.typed.len() <= u32::MAX);
            self.after_run(init).typed_is_the_buffer(input, outcome);
        }
    }

    /// Outside `Deferred` mode a final that could be typed brings the buffer
    /// to the committed text, whatever was typed before, and the next
    /// utterance starts without partials.
    pub proof fn final_converges(self, text: Seq<char>)
        requires
            self.mode !is Deferred,
            self.typing.typed.len() <= u32::MAX,
        ensures
            self.buffer_after(self.typing.typed, Input::Final(text), EditOutcome::Done)
                == self.after(Input::Final(text), EditOutcome::Done).transcript.committed_text(),
            self.after(Input::Final(text), EditOutcome::Done).typing.typed == self.after(
                Input::Final(text),
                EditOutcome::Done,
            ).transcript.committed_text(),
            self.after(Input::Final(text), EditOutcome::Done).typing.history.len() == 0,
    {
        self.typed_is_the_buffer(Input::Final(text), EditOutcome::Done);
    }

    /// A session stays in the mode in which it started.
    pub proof fn mode_stays(self, run: Seq<(Input, EditOutcome)>)
        ensures
            self.after_run(run).mode == self.mode,
            self.after_run(run).streaming == self.streaming,
        decreases run.len(),
    {
        if run.len() > 0 {
            self.mode_stays(run.drop_last());
        }
    }

    /// So in a session that starts with an empty buffer, a final that could be
    /// typed brings the buffer to the committed text, whatever came before it
    /// and whatever failed, halfway or wholly.
    pub proof fn final_converges_whatever_failed(
        mode: TypingMode,
        streaming: bool,
        run: Seq<(Input, EditOutcome)>,
        text: Seq<char>,
    )
        requires
            mode !is Deferred,
            Self::fresh(mode, streaming).fits(run),
        ensures
            ({
                let start = Self::fresh(mode, streaming);
                let all = run.push((Input::Final(text), EditOutcome::Done));
                start.buffer_after_run(Seq::empty(), all) == start.after_run(
                    all,
                ).transcript.committed_text()
            }),
    {
        let start = Self::fresh(mode, streaming);
        let all = run.push((Input::Final(text), EditOutcome::Done));
        assert(all.drop_last() =~= run);
        start.typed_is_the_buffer_throughout(run);
        start.mode_stays(run);
        assert(run.take(run.len() as int) =~= run);
        assert(start.after_run(run.take(run.len() as int)).typing.typed.len() <= u32::MAX);
        start.after_run(run).final_converges(text);
    }

    /// However far an edit gets, the transcript and the recent partials are
    /// those of a session in which it was done. One of which nothing was done
    /// leaves what counts as typed as it was, and one that deleted leaves what
    /// that shares with the text it was for.
    pub proof fn failure_keeps_the_transcript(self, input: Input, outcome: EditOutcome)
        ensures
            self.after(input, outcome).transcript == self.after(
                input,
                EditOutcome::Done,
            ).transcript,
            self.after(input, outcome).typing.history == self.after(
                input,
                EditOutcome::Done,
            ).typing.history,
            self.after(input, EditOutcome::Nothing).typing.typed == self.typing.typed,
            self.target(input) matches Some(t) ==> self.after(
                input,
                EditOutcome::Deleted,
            ).typing.typed == self.typing.typed.take(
                text::common_prefix(self.typing.typed, t) as int,
            ),
    {
    }

    /// In `FinalOnly` mode the buffer holds the committed text after every
    /// input, if all of them could be typed.
    pub proof fn final_only_buffer_is_the_committed_text(self, input: Input)
        requires
            self.wf(),
            self.mode is FinalOnly,
            self.typing.typed == self.transcript.committed_text(),
        ensures
            self.after(input, EditOutcome::Done).typing.typed == self.after(
                input,
                EditOutcome::Done,
            ).transcript.committed_text(),
    {
        match input {
            Input::Partial(text) => {
                if self.transcript.active {
                    self.transcript.partial_keeps_erasures_within_an_utterance(text);
                } else {
                    self.transcript.partial_retires_erasures_of_the_utterance_before(text);
                }
            },
            _ => {},
        }
    }

    /// The same from the start of a session.
    pub proof fn final_only_session_types_the_committed_text(
        streaming: bool,
        inputs: Seq<Input>,
    )
        ensures
            Self::fresh(TypingMode::FinalOnly, streaming).after_all(inputs).wf(),
            Self::fresh(TypingMode::FinalOnly, streaming).after_all(inputs).mode is FinalOnly,
            Self::fresh(TypingMode::FinalOnly, streaming).after_all(inputs).typing.typed
                == Self::fresh(TypingMode::FinalOnly, streaming).after_all(
                inputs,
            ).transcript.committed_text(),
        decreases inputs.len(),
    {
        let start = Self::fresh(TypingMode::FinalOnly, streaming);
        if inputs.len() == 0 {
            assert(start.transcript.committed_text() =~= Seq::<char>::empty());
        } else {
            let before = start.after_all(inputs.drop_last());
            Self::final_only_session_types_the_committed_text(streaming, inputs.drop_last());
            before.input_keeps_wf(inputs.last(), EditOutcome::Done);
            before.final_only_buffer_is_the_committed_text(inputs.last());
        }
    }

    /// Outside `Deferred` mode, a final deletes nothing where the buffer holds
    /// the committed text: it types what it adds to that.
    pub proof fn final_deletes_nothing(self, text: Seq<char>)
        requires
            self.wf(),
            self.mode !is Deferred,
            self.typing.typed == self.transcript.committed_text(),
        ensures
            ({
                let added = injector::capitalized(
                    if self.streaming {
                        self.transcript.after_partial(text).visible_partial()
                    } else {
                        text::join(text::words(text))
                    },
                );
                self.target(Input::Final(text)) matches Some(t) && edit_to(self.typing.typed, t)
                    == (
                    0u32,
                    if added.len() > 0 && self.typing.typed.len() > 0 {
                        seq![' '] + added
                    } else {
                        added
                    },
                )
            }),
    {
        let m = self.transcript;
        let typed = self.typing.typed;
        m.final_adds_to_the_committed_text(text);
        m.batch_final_adds_to_the_committed_text(text);
        let added = injector::capitalized(
            if self.streaming {
                m.after_partial(text).visible_partial()
            } else {
                text::join(text::words(text))
            },
        );
        let more = if added.len() > 0 && typed.len() > 0 {
            seq![' '] + added
        } else {
            added
        };
        assert(Model::appended(typed, added) =~= typed + more);
        injector::diff_of_extension(typed, more);
    }

    /// Without partials, as in batch mode, the buffer holds the committed text
    /// after every input outside `Deferred` mode, if all of them could be
    /// typed.
    pub proof fn batch_session_types_the_committed_text(
        mode: TypingMode,
        streaming: bool,
        inputs: Seq<Input>,
    )
        requires
            mode !is Deferred,
            forall|i: int| 0 <= i < inputs.len() ==> (#[trigger] inputs[i]) !is Partial,
        ensures
            ({
                let s = Self::fresh(mode, streaming).after_all(inputs);
                &&& s.wf()
                &&& s.mode == mode
                &&& s.streaming == streaming
                &&& s.typing.history.len() == 0
                &&& s.typing.typed == s.transcript.committed_text()
            }),
        decreases inputs.len(),
    {
        let start = Self::fresh(mode, streaming);
        if inputs.len() == 0 {
            assert(start.transcript.committed_text() =~= Seq::<char>::empty());
        } else {
            let init = inputs.drop_last();
            assert forall|i: int| 0 <= i < init.len() implies (#[trigger] init[i]) !is Partial by {
                assert(init[i] == inputs[i]);
            }
            Self::batch_session_types_the_committed_text(mode, streaming, init);
            assert(inputs[inputs.len() - 1] !is Partial);
            start.after_all(init).input_keeps_wf(inputs.last(), EditOutcome::Done);
        }
    }

    /// So in batch mode no final sends a backspace, outside `Deferred` mode
    /// and as long as all that came before could be typed.
    pub proof fn batch_final_deletes_nothing(mode: TypingMode, inputs: Seq<Input>, text: Seq<char>)
        requires
            mode !is Deferred,
            forall|i: int| 0 <= i < inputs.len() ==> (#[trigger] inputs[i]) !is Partial,
        ensures
            ({
                let s = Self::fresh(mode, false).after_all(inputs);
                s.target(Input::Final(text)) matches Some(t) && edit_to(s.typing.typed, t).0 == 0
            }),
    {
        Self::batch_session_types_the_committed_text(mode, false, inputs);
        Self::fresh(mode, false).after_all(inputs).final_deletes_nothing(text);
    }

    /// Whatever the mode and however far an edit gets, the last thing
    /// reported of an input that changes anything is the transcript as it
    /// then shows. An input that changes nothing is not reported, and leaves
    /// the session as it was.
    pub proof fn hud_follows_the_transcript(self, input: Input, outcome: EditOutcome)
        ensures
            self.changed_by(input) ==> self.events(input, outcome).len() > 0 && self.events(
                input,
                outcome,
            ).last() == Event::TranscriptUpdated(self.after(input, outcome).transcript.display()),
            !self.changed_by(input) ==> self.events(input, outcome).len() == 0 && self.after(input, outcome)
                == self,
    {
    }

    /// A final is reported by its own text before the transcript, marked
    /// where it was to be typed and could not be.
    pub proof fn final_is_reported(self, text: Seq<char>, outcome: EditOutcome)
        ensures
            self.events(Input::Final(text), outcome) == seq![
                Event::SegmentTranscribed(
                    if outcome is Done || self.mode is Deferred {
                        text
                    } else {
                        "[type failed] "@ + text
                    },
                ),
                Event::TranscriptUpdated(
                    self.after(Input::Final(text), outcome).transcript.display(),
                ),
            ],
    {
    }
}

/// The prefix of `s` that `trim_end` leaves.
proof fn lemma_trim_end(s: Seq<char>)
    ensures
        text::trim_end(s).len() <= s.len(),
        text::trim_end(s) == s.take(text::trim_end(s).len() as int),
    decreases s.len(),
{
    if s.len() > 0 && text::white_space(s.last()) {
        lemma_trim_end(s.drop_last());
        let n = text::trim_end(s).len() as int;
        assert(s.drop_last().take(n) =~= s.take(n));
    } else {
        assert(s.take(s.len() as int) =~= s);
    }
}

/// What counts as stable is a prefix of the visible partial: an erased word is
/// never typed.
pub proof fn stable_prefix_is_visible(t: Typing, m: Model)
    ensures
        t.stable(m).len() <= m.visible_partial().len(),
        t.stable(m) == m.visible_partial().take(t.stable(m).len() as int),
{
    let shared = shared_prefix(t.history);
    let visible = m.visible_partial();
    let c = text::common_prefix(shared, visible) as int;
    text::lemma_common_prefix(shared, visible);
    lemma_trim_end(shared.take(c));
    let n = t.stable(m).len() as int;
    assert(shared.take(c).take(n) =~= visible.take(n));
}

/// A visible partial that all recent partials repeat is stable as a whole: the
/// buffer should hold it.
pub proof fn repeated_partial_is_stable(t: Typing, m: Model)
    requires
        m.wf(),
        t.history.len() == STABILITY_PARTIALS,
        m.visible_partial().len() > 0,
        forall|i: int| 0 <= i < t.history.len() ==> #[trigger] t.history[i] == m.visible_partial(),
    ensures
        t.stable(m) == m.visible_partial(),
        t.stable_target(m) == Some(m.buffer_target(m.visible_partial())),
{
    let p = m.visible_partial();
    let n = p.len() as int;
    assert(p.take(n) =~= p);
    assert forall|i: int| 0 <= i < t.history.len() implies p.len() <= (
    #[trigger] t.history[i]).len() && t.history[i].take(n) == p by {}
    shared_prefix_is_the_longest(t.history, p);
    let shared = shared_prefix(t.history);
    assert(t.history[0] == p);
    assert(shared.take(n) =~= shared);
    text::lemma_common_prefix_is(p, p, n);
    m.visible_partial_ends_in_a_word();
}

/// What a buffer holds after an edit, given how far that got.
pub open spec fn edited(buffer: Seq<char>, edit: (u32, Seq<char>), outcome: EditOutcome) -> Seq<
    char,
> {
    match outcome {
        EditOutcome::Nothing => buffer,
        EditOutcome::Deleted => injector::retyped(buffer, edit.0 as int, Seq::empty()),
        EditOutcome::Done => injector::retyped(buffer, edit.0 as int, edit.1),
    }
}

/// The edit of the buffer leads from what is typed to the target, as long as
/// the number of deletions fits its type. Where only its deletions are done,
/// the buffer holds what the two share.
pub proof fn edit_reaches(typed: Seq<char>, target: Seq<char>, outcome: EditOutcome)
    requires
        typed.len() <= u32::MAX,
    ensures
        edited(typed, edit_to(typed, target), outcome) == reached(typed, target, outcome),
{
    injector::diff_converges(typed, target);
    text::lemma_common_prefix(typed, target);
}

/// What every typing mode has in common, and what live typing types.
impl SessionModel {
    /// Every input reaches the transcript in every typing mode: partials and
    /// finals are taken in, an erase erases and an undo restores. An erase
    /// changes something exactly when a word is visible, and an undo exactly
    /// when an erased word can be restored.
    pub proof fn every_mode_keeps_the_transcript(self, text: Seq<char>, outcome: EditOutcome)
        requires
            self.wf(),
        ensures
            self.after(Input::Partial(text), outcome).transcript == self.transcript.after_partial(
                text,
            ),
            self.streaming ==> self.after(Input::Final(text), outcome).transcript
                == self.transcript.after_final(text),
            !self.streaming ==> self.after(Input::Final(text), outcome).transcript
                == self.transcript.after_batch_final(text),
            self.after(Input::Erase, outcome).transcript == self.transcript.after_erase(),
            self.after(Input::Undo, outcome).transcript == self.transcript.after_undo(),
            self.changed_by(Input::Partial(text)),
            self.changed_by(Input::Final(text)),
            self.changed_by(Input::Erase) <==> self.transcript.display().len() > 0,
            self.changed_by(Input::Undo) <==> self.transcript.pending.len() > 0,
    {
        self.transcript.erase_shortens_the_display();
    }

    /// In every typing mode an erase takes the last word off what is shown and
    /// reports that, and an undo brings it back and reports that. So the two
    /// together leave what is pasted at the stop as it was.
    pub proof fn undo_restores_what_an_erase_took(self, first: EditOutcome, second: EditOutcome)
        requires
            self.wf(),
            self.transcript.display().len() > 0,
        ensures
            ({
                let erased = self.after(Input::Erase, first);
                let back = erased.after(Input::Undo, second);
                let shorter = text::join(text::words(self.transcript.display()).drop_last());
                &&& erased.transcript.display() == shorter
                &&& self.events(Input::Erase, first) == seq![Event::TranscriptUpdated(shorter)]
                &&& erased.mode is Deferred ==> erased.pasted() == Some(shorter)
                &&& back.transcript == self.transcript
                &&& erased.events(Input::Undo, second) == seq![
                    Event::TranscriptUpdated(self.transcript.display()),
                ]
                &&& back.pasted() == self.pasted()
                &&& self.mode is Deferred ==> back.pasted() == Some(self.transcript.display())
            }),
    {
        self.transcript.erase_shortens_the_display();
        self.transcript.undo_reverts_an_erase();
        let erased = self.after(Input::Erase, first);
        assert(erased.transcript == self.transcript.after_erase());
        assert(erased.transcript.after_undo() == self.transcript);
        assert(erased.events(Input::Undo, second) =~= seq![
            Event::TranscriptUpdated(self.transcript.display()),
        ]);
        assert(self.events(Input::Erase, first) =~= seq![
            Event::TranscriptUpdated(erased.transcript.display()),
        ]);
    }

    /// Two sessions with the same transcript take an input in the same way,
    /// whatever their typing modes, what they have typed and what fails: the
    /// transcript stays the same, and so does what is reported of it last.
    pub proof fn mode_does_not_change_the_transcript(
        self,
        other: SessionModel,
        input: Input,
        outcome: EditOutcome,
        other_outcome: EditOutcome,
    )
        requires
            self.transcript == other.transcript,
            self.streaming == other.streaming,
        ensures
            self.after(input, outcome).transcript == other.after(input, other_outcome).transcript,
            self.after(input, outcome).streaming == other.after(input, other_outcome).streaming,
            self.changed_by(input) == other.changed_by(input),
            self.events(input, outcome).len() == other.events(input, other_outcome).len(),
            self.events(input, outcome).len() > 0 ==> self.events(input, outcome).last()
                == other.events(input, other_outcome).last(),
    {
    }

    /// So the same inputs give the same transcript in every mode, whatever
    /// fails.
    pub proof fn all_modes_show_the_same(
        streaming: bool,
        mode: TypingMode,
        other: TypingMode,
        run: Seq<(Input, EditOutcome)>,
        other_run: Seq<(Input, EditOutcome)>,
    )
        requires
            run.len() == other_run.len(),
            forall|i: int| 0 <= i < run.len() ==> (#[trigger] run[i]).0 == other_run[i].0,
        ensures
            Self::fresh(mode, streaming).after_run(run).transcript == Self::fresh(
                other,
                streaming,
            ).after_run(other_run).transcript,
            Self::fresh(mode, streaming).after_run(run).streaming == streaming,
            Self::fresh(other, streaming).after_run(other_run).streaming == streaming,
        decreases run.len(),
    {
        if run.len() > 0 {
            let init = run.drop_last();
            let other_init = other_run.drop_last();
            assert forall|i: int| 0 <= i < init.len() implies (#[trigger] init[i]).0
                == other_init[i].0 by {
                assert(init[i] == run[i]);
            }
            Self::all_modes_show_the_same(streaming, mode, other, init, other_init);
            assert(run[run.len() - 1].0 == other_run[run.len() - 1].0);
            Self::fresh(mode, streaming).after_run(init).mode_does_not_change_the_transcript(
                Self::fresh(other, streaming).after_run(other_init),
                run.last().0,
                run.last().1,
                other_run.last().1,
            );
        }
    }

    /// A partial is reported by its own text before the transcript, and an
    /// erase or undo that changes anything by the transcript alone.
    pub proof fn partials_and_commands_are_reported(self, text: Seq<char>, outcome: EditOutcome)
        ensures
            self.events(Input::Partial(text), outcome) == seq![
                Event::PartialTranscribed(text),
                Event::TranscriptUpdated(
                    self.after(Input::Partial(text), outcome).transcript.display(),
                ),
            ],
            self.changed_by(Input::Erase) ==> self.events(Input::Erase, outcome) == seq![
                Event::TranscriptUpdated(self.after(Input::Erase, outcome).transcript.display()),
            ],
            self.changed_by(Input::Undo) ==> self.events(Input::Undo, outcome) == seq![
                Event::TranscriptUpdated(self.after(Input::Undo, outcome).transcript.display()),
            ],
    {
        assert(self.events(Input::Partial(text), outcome) =~= seq![
            Event::PartialTranscribed(text),
            Event::TranscriptUpdated(
                self.after(Input::Partial(text), outcome).transcript.display(),
            ),
        ]);
        assert(self.changed_by(Input::Erase) ==> self.events(Input::Erase, outcome) =~= seq![
            Event::TranscriptUpdated(self.after(Input::Erase, outcome).transcript.display()),
        ]);
        assert(self.changed_by(Input::Undo) ==> self.events(Input::Undo, outcome) =~= seq![
            Event::TranscriptUpdated(self.after(Input::Undo, outcome).transcript.display()),
        ]);
    }

    /// Live typing remembers the last two partials of the utterance: a partial
    /// comes behind the one before it, a final forgets them, and an erase or
    /// undo leaves them. The other modes remember none.
    pub proof fn last_two_partials_are_remembered(self, text: Seq<char>, outcome: EditOutcome)
        requires
            self.wf(),
        ensures
            self.mode is Live && self.typing.history.len() == 0 ==> self.after(
                Input::Partial(text),
                outcome,
            ).typing.history == seq![text],
            self.mode is Live && self.typing.history.len() > 0 ==> self.after(
                Input::Partial(text),
                outcome,
            ).typing.history == seq![self.typing.history.last(), text],
            self.mode !is Live ==> self.after(
                Input::Partial(text),
                outcome,
            ).typing.history.len() == 0,
            self.after(Input::Final(text), outcome).typing.history.len() == 0,
            self.after(Input::Erase, outcome).typing.history == self.typing.history,
            self.after(Input::Undo, outcome).typing.history == self.typing.history,
            Self::fresh(self.mode, self.streaming).typing.history.len() == 0,
            Self::fresh(self.mode, self.streaming).typing.typed.len() == 0,
    {
        if self.mode is Live {
            let h = self.after(Input::Partial(text), outcome).typing.history;
            if self.typing.history.len() == 0 {
                assert(h =~= seq![text]);
            } else {
                assert(h =~= seq![self.typing.history.last(), text]);
            }
        }
    }

    /// What live typing types for a partial: the committed text and, behind a
    /// space where there is any, what the partial before it, the partial itself
    /// and what is visible of it share - `n` characters, of which `k` are left
    /// without the white space at the end - with its first letter capitalized.
    /// Only where they share nothing but white space is nothing typed yet.
    pub proof fn live_partial_types_what_the_last_two_share(self, text: Seq<char>, n: int, k: int)
        requires
            self.wf(),
            self.mode is Live,
            self.typing.history.len() > 0,
            ({
                let before = self.typing.history.last();
                let visible = self.transcript.after_partial(text).visible_partial();
                &&& shares(before, text, visible, n)
                &&& 0 <= k <= n
                &&& k > 0 ==> !text::white_space(visible[k - 1])
                &&& forall|i: int| k <= i < n ==> text::white_space(#[trigger] visible[i])
            }),
        ensures
            ({
                let m = self.transcript.after_partial(text);
                let head = injector::capitalized(m.visible_partial().take(k));
                let committed = m.committed_text();
                self.target(Input::Partial(text)) == if k == 0 {
                    None
                } else if committed.len() == 0 {
                    Some(head)
                } else {
                    Some(committed + seq![' '] + head)
                }
            }),
    {
        let fed = self.fed(Input::Partial(text));
        self.last_two_partials_are_remembered(text, EditOutcome::Done);
        assert(fed.typing.history == self.after(
            Input::Partial(text),
            EditOutcome::Done,
        ).typing.history);
        stable_target_is_what_both_partials_share(fed.typing, fed.transcript, n, k);
    }

    /// A partial that goes on behind the one before it has the whole of that
    /// one typed: a speaker who keeps talking sees the text follow.
    pub proof fn partial_that_goes_on_is_typed(
        self,
        first: Seq<char>,
        more: Seq<char>,
        outcome: EditOutcome,
    )
        requires
            self.wf(),
            self.mode is Live,
            !self.transcript.active,
            first.len() > 0,
            text::single_spaced(first),
            text::single_spaced(first + seq![' '] + more),
        ensures
            ({
                let committed = self.transcript.committed_text();
                let head = injector::capitalized(first);
                self.after(Input::Partial(first), outcome).target(
                    Input::Partial(first + seq![' '] + more),
                ) == Some(
                    if committed.len() == 0 {
                        head
                    } else {
                        committed + seq![' '] + head
                    },
                )
            }),
    {
        let second = first + seq![' '] + more;
        let s = self.after(Input::Partial(first), outcome);
        let n = first.len() as int;
        self.input_keeps_wf(Input::Partial(first), outcome);
        self.last_two_partials_are_remembered(first, outcome);
        assert(s.typing.history.last() == first);
        self.transcript.partial_retires_erasures_of_the_utterance_before(first);
        let m = s.transcript.after_partial(second);
        assert(s.transcript.active);
        s.transcript.partial_keeps_erasures_within_an_utterance(second);
        assert(m.pending.len() == 0);
        m.partial_without_erasures_is_shown_whole();
        assert(m.visible_partial() == second);
        assert(first.take(n) =~= first);
        assert(second.take(n) =~= first);
        text::lemma_single_spaced_ends_in_a_word(first);
        assert(second[n - 1] == first.last());
        s.live_partial_types_what_the_last_two_share(second, n, n);
    }

    /// What an erase or undo that changes anything makes of the buffer outside
    /// `Deferred` mode: it holds the committed text and, behind a space where
    /// there is any, what the last two partials share with what is now
    /// visible, trimmed and capitalized; only the committed text where that is
    /// nothing.
    pub proof fn command_brings_the_buffer_to_what_is_visible(self, input: Input, n: int, k: int)
        requires
            self.wf(),
            self.mode !is Deferred,
            input is Erase || input is Undo,
            self.changed_by(input),
            self.typing.history.len() == 2 ==> {
                let h = self.typing.history;
                let visible = self.fed(input).transcript.visible_partial();
                &&& shares(h[0], h[1], visible, n)
                &&& 0 <= k <= n
                &&& k > 0 ==> !text::white_space(visible[k - 1])
                &&& forall|i: int| k <= i < n ==> text::white_space(#[trigger] visible[i])
            },
        ensures
            ({
                let m = self.fed(input).transcript;
                let head = injector::capitalized(m.visible_partial().take(k));
                let committed = m.committed_text();
                self.target(input) == Some(
                    if self.typing.history.len() < 2 || k == 0 {
                        committed
                    } else if committed.len() == 0 {
                        head
                    } else {
                        committed + seq![' '] + head
                    },
                )
            }),
    {
        let fed = self.fed(input);
        if self.typing.history.len() == 2 {
            stable_target_is_what_both_partials_share(fed.typing, fed.transcript, n, k);
        }
    }

    /// A session starts with nothing shown, nothing typed and no partial, in
    /// the mode that was asked for.
    pub proof fn session_starts_empty(mode: TypingMode, streaming: bool)
        ensures
            Self::fresh(mode, streaming).wf(),
            Self::fresh(mode, streaming).transcript.display() == Seq::<char>::empty(),
            Self::fresh(mode, streaming).transcript == Model::fresh(),
            Self::fresh(mode, streaming).typing.typed == Seq::<char>::empty(),
            Self::fresh(mode, streaming).typing.history.len() == 0,
            Self::fresh(mode, streaming).mode == mode,
            Self::fresh(mode, streaming).streaming == streaming,
    {
        Model::fresh_transcript_shows_nothing();
    }

    /// What a session pastes when it stops: in `Deferred` mode all that is
    /// shown, and nothing else; in the other modes nothing.
    pub proof fn session_pastes_what_is_shown(self)
        ensures
            self.pasted() is Some <==> self.mode == TypingMode::Deferred,
            self.pasted() matches Some(p) ==> p == self.transcript.display(),
    {
    }
}

/// Whether three texts share exactly their first `n` characters: all have as
/// many and agree on them, and not all agree on the next one.
pub open spec fn shares(a: Seq<char>, b: Seq<char>, c: Seq<char>, n: int) -> bool {
    &&& 0 <= n <= a.len()
    &&& n <= b.len()
    &&& n <= c.len()
    &&& a.take(n) == b.take(n)
    &&& a.take(n) == c.take(n)
    &&& !(n < a.len() && n < b.len() && n < c.len() && a[n] == b[n] && a[n] == c[n])
}

/// With two partials what should be typed is the committed text and, behind a
/// space where there is any, what the two share with the visible partial - `n`
/// characters, of which `k` are left without the white space at the end - with
/// its first letter capitalized. It is nothing only where there are fewer
/// partials, or where they share nothing but white space.
pub proof fn stable_target_is_what_both_partials_share(t: Typing, m: Model, n: int, k: int)
    requires
        t.history.len() == 2,
        shares(t.history[0], t.history[1], m.visible_partial(), n),
        0 <= k <= n,
        k > 0 ==> !text::white_space(m.visible_partial()[k - 1]),
        forall|i: int| k <= i < n ==> text::white_space(#[trigger] m.visible_partial()[i]),
    ensures
        ({
            let head = injector::capitalized(m.visible_partial().take(k));
            let committed = m.committed_text();
            t.stable_target(m) == if k == 0 {
                None
            } else if committed.len() == 0 {
                Some(head)
            } else {
                Some(committed + seq![' '] + head)
            }
        }),
{
    let a = t.history[0];
    let b = t.history[1];
    let v = m.visible_partial();
    let h = t.history;
    assert(h.drop_last().len() == 1);
    assert(h.drop_last()[0] == a);
    assert(shared_prefix(h.drop_last()) == a);
    let c = text::common_prefix(a, b) as int;
    text::lemma_common_prefix(a, b);
    let shared = shared_prefix(h);
    assert(shared == a.take(c));
    assert(shared.take(n) =~= a.take(n));
    if n < c && n < v.len() {
        assert(a.take(c)[n] == b.take(c)[n]);
    }
    text::lemma_common_prefix_is(shared, v, n);
    let cut = v.take(n);
    assert(shared.take(n) =~= cut);
    assert forall|i: int| k <= i < cut.len() implies text::white_space(#[trigger] cut[i]) by {
        assert(cut[i] == v[i]);
    }
    text::lemma_trim_end_is(cut, k);
    assert(cut.take(k) =~= v.take(k));
    if k > 0 {
        let committed = m.committed_text();
        let head = injector::capitalized(v.take(k));
        assert(committed.push(' ') + head =~= committed + seq![' '] + head);
    }
}

/// Before there are two partials nothing is typed of an utterance.
pub proof fn one_partial_is_not_stable(t: Typing, m: Model)
    requires
        t.history.len() < 2,
    ensures
        t.stable_target(m) is None,
{
}

/// No edit that brings a buffer from one text to another deletes or types
/// fewer characters than the one that is made.
pub proof fn edit_is_the_shortest(
    typed: Seq<char>,
    target: Seq<char>,
    backspaces: int,
    to_type: Seq<char>,
)
    requires
        typed.len() <= u32::MAX,
        0 <= backspaces <= typed.len(),
        typed.take(typed.len() - backspaces) + to_type == target,
    ensures
        edit_to(typed, target).0 <= backspaces,
        edit_to(typed, target).1.len() <= to_type.len(),
        typed.take(typed.len() - edit_to(typed, target).0) + edit_to(typed, target).1 == target,
{
    injector::diff_is_minimal(typed, target, backspaces, to_type);
    injector::diff_converges(typed, target);
    text::lemma_common_prefix(typed, target);
}

/// An edit of the target buffer: delete from its end, then type.
pub struct Edit {
    pub backspaces: u32,
    pub text: String,
}

/// Where the run of an edit stands.
#[derive(Debug, Clone, Copy, PartialEq, Eq, Structural)]
pub enum EditStage {
    Deleting,
    Typing,
    Over(EditOutcome),
}

/// What an `EditRun` stands for.
pub struct EditRunModel {
    pub backspaces: u32,
    pub text: Seq<char>,
    pub stage: EditStage,
}

impl EditRunModel {
    /// The stage once the deletions are done: typing, if there is a text.
    pub open spec fn deleted(text: Seq<char>) -> EditStage {
        if text.len() > 0 {
            EditStage::Typing
        } else {
            EditStage::Over(EditOutcome::Done)
        }
    }

    /// The run of an edit before any of it is done.
    pub open spec fn start(backspaces: u32, text: Seq<char>) -> EditRunModel {
        EditRunModel {
            backspaces,
            text,
            stage: if backspaces > 0 {
                EditStage::Deleting
            } else {
                Self::deleted(text)
            },
        }
    }

    /// The run after the tool succeeded or failed at its stage.
    pub open spec fn after(self, ok: bool) -> EditRunModel {
        EditRunModel {
            stage: match self.stage {
                EditStage::Deleting => if ok {
                    Self::deleted(self.text)
                } else {
                    EditStage::Over(EditOutcome::Nothing)
                },
                EditStage::Typing => EditStage::Over(
                    if ok {
                        EditOutcome::Done
                    } else {
                        EditOutcome::Deleted
                    },
                ),
                EditStage::Over(o) => EditStage::Over(o),
            },
            ..self
        }
    }

    /// What holds of every run: the tool is only called for what there is to
    /// do.
    pub open spec fn wf(self) -> bool {
        &&& self.stage is Deleting ==> self.backspaces > 0
        &&& self.stage is Typing ==> self.text.len() > 0
    }
}

/// The tool is called at most twice for an edit: once where there is anything
/// to delete, and then once where there is a text to type, unless the deletions
/// failed. How far the edit got is what the failures say.
pub proof fn edit_runs_to_its_outcome(
    backspaces: u32,
    text: Seq<char>,
    deletes: bool,
    types: bool,
)
    ensures
        ({
            let start = EditRunModel::start(backspaces, text);
            let mid = if backspaces > 0 {
                start.after(deletes)
            } else {
                start
            };
            let failed = backspaces > 0 && !deletes;
            let end = if text.len() > 0 && !failed {
                mid.after(types)
            } else {
                mid
            };
            &&& start.stage is Deleting <==> backspaces > 0
            &&& mid.stage is Typing <==> text.len() > 0 && !failed
            &&& end.stage == EditStage::Over(
                if failed {
                    EditOutcome::Nothing
                } else if text.len() > 0 && !types {
                    EditOutcome::Deleted
                } else {
                    EditOutcome::Done
                },
            )
        }),
{
}

/// What to do next for an edit: run `ydotool` with some arguments, or nothing
/// more.
#[derive(Debug, Clone, PartialEq, Eq)]
pub enum EditStep {
    Delete(Vec<String>),
    Type(Vec<String>),
    Over(EditOutcome),
}

/// Performs an edit of the target buffer: delete from its end, then type.
/// What fails ends it.
pub struct EditRun {
    edit: Edit,
    stage: EditStage,
}

impl View for EditRun {
    type V = EditRunModel;

    closed spec fn view(&self) -> EditRunModel {
        EditRunModel {
            backspaces: self.edit.backspaces,
            text: self.edit.text@,
            stage: self.stage,
        }
    }
}

impl EditRun {
    pub fn new(edit: Edit) -> (r: Self)
        ensures
            r@ == EditRunModel::start(edit.backspaces, edit.text@),
            r@.wf(),
    {
        let stage = if edit.backspaces > 0 {
            EditStage::Deleting
        } else if !edit.text.as_str().is_empty() {
            EditStage::Typing
        } else {
            EditStage::Over(EditOutcome::Done)
        };
        EditRun { edit, stage }
    }

    /// What to do next.
    pub fn step(&self) -> (s: EditStep)
        requires
            self@.wf(),
        ensures
            match self@.stage {
                EditStage::Deleting => s matches EditStep::Delete(args) && text::views(args@)
                    == injector::backspace_line(self@.backspaces as nat),
                EditStage::Typing => s matches EditStep::Type(args) && text::views(args@) == seq![
                    "type"@,
                    "--"@,
                    self@.text,
                ],
                EditStage::Over(o) => s == EditStep::Over(o),
            },
    {
        match self.stage {
            EditStage::Deleting => match injector::backspace_args(self.edit.backspaces) {
                Some(args) => EditStep::Delete(args),
                None => EditStep::Over(EditOutcome::Done),
            },
            EditStage::Typing => match injector::insert_args(self.edit.text.as_str()) {
                Some(args) => EditStep::Type(args),
                None => EditStep::Over(EditOutcome::Done),
            },
            EditStage::Over(o) => EditStep::Over(o),
        }
    }

    /// The tool did what it was to do, or failed.
    pub fn report(&mut self, ok: bool)
        ensures
            final(self)@ == old(self)@.after(ok),
            old(self)@.wf() ==> final(self)@.wf(),
    {
        self.stage = match self.stage {
            EditStage::Deleting => if !ok {
                EditStage::Over(EditOutcome::Nothing)
            } else if !self.edit.text.as_str().is_empty() {
                EditStage::Typing
            } else {
                EditStage::Over(EditOutcome::Done)
            },
            EditStage::Typing => EditStage::Over(
                if ok {
                    EditOutcome::Done
                } else {
                    EditOutcome::Deleted
                },
            ),
            EditStage::Over(o) => EditStage::Over(o),
        };
    }
}

/// What is left to do for an input once the buffer was edited.
pub struct RestModel {
    /// What the buffer holds once the edit is done.
    pub target: Option<Seq<char>>,
    /// The text of the final, where the input is one.
    pub segment: Option<Seq<char>>,
    /// Whether the input changed anything.
    pub changed: bool,
}

/// What is left to do for an input once the buffer was edited.
pub struct Rest {
    target: Option<String>,
    segment: Option<String>,
    changed: bool,
}

impl View for Rest {
    type V = RestModel;

    closed spec fn view(&self) -> RestModel {
        RestModel {
            target: text::text_view(self.target),
            segment: text::text_view(self.segment),
            changed: self.changed,
        }
    }
}

/// What to do for one input: report `events`, perform `edit`, and hand `rest`
/// back.
pub struct Step {
    pub events: Vec<EngineEvent>,
    pub edit: Option<Edit>,
    pub rest: Rest,
}

/// The single consumer of recognized text and user commands: owns the
/// session's transcript, and says what to type and what to report.
pub struct Injector {
    live: LiveTyping,
    transcript: Transcript,
    mode: TypingMode,
    streaming: bool,
}

impl View for Injector {
    type V = SessionModel;

    closed spec fn view(&self) -> SessionModel {
        SessionModel {
            transcript: self.transcript@,
            typing: self.live@,
            mode: self.mode,
            streaming: self.streaming,
        }
    }
}

/// The edit that brings a buffer from `typed` to `target`.
pub open spec fn edit_to(typed: Seq<char>, target: Seq<char>) -> (u32, Seq<char>) {
    let common = text::common_prefix(typed, target);
    ((typed.len() - common) as u32, target.skip(common as int))
}

impl Injector {
    /// The invariant of the session.
    pub closed spec fn wf(&self) -> bool {
        self.transcript.wf() && self@.wf()
    }

    /// The invariant of the model, for callers that only see the view.
    pub proof fn lemma_wf(&self)
        requires
            self.wf(),
        ensures
            self@.wf(),
    {
    }

    pub fn new(mode: TypingMode, streaming: bool) -> (i: Self)
        ensures
            i.wf(),
            i@ == SessionModel::fresh(mode, streaming),
    {
        let i = Injector {
            live: LiveTyping::new(),
            transcript: Transcript::new(),
            mode,
            streaming,
        };
        proof {
            i.transcript.lemma_wf();
            assert(i@ =~= SessionModel::fresh(mode, streaming));
        }
        i
    }

    /// What has been put in the target buffer so far.
    pub fn typed(&self) -> (s: String)
        ensures
            s@ == self@.typing.typed,
    {
        self.live.typed.clone()
    }

    /// The full visible text for the HUD.
    pub fn display(&self) -> (s: String)
        requires
            self.wf(),
        ensures
            s@ == self@.transcript.display(),
    {
        self.transcript.display()
    }

    /// The minimal edit (trailing backspaces, then appended text) that brings
    /// the target buffer from what is typed to `target`.
    fn edit_for(&self, target: &Option<String>) -> (e: Option<Edit>)
        ensures
            match *target {
                Some(t) => e is Some && (e->0.backspaces, e->0.text@) == edit_to(
                    self@.typing.typed,
                    t@,
                ),
                None => e is None,
            },
    {
        match target {
            Some(t) => {
                let (backspaces, to_type) = injector::diff(self.live.typed.as_str(), t.as_str());
                Some(Edit { backspaces: backspaces as u32, text: to_type.to_string() })
            },
            None => None,
        }
    }

    /// What the buffer should hold after a mid-dictation erase or undo: the
    /// stable prefix of the live partial when there is one, else the
    /// committed text. `None` in `Deferred` mode, where nothing is typed yet.
    fn change_target(&self) -> (t: Option<String>)
        requires
            self.transcript.wf(),
        ensures
            text::text_view(t) == if self.mode is Deferred {
                None
            } else {
                match self@.typing.stable_target(self@.transcript) {
                    Some(t) => Some(t),
                    None => Some(self@.transcript.committed_text()),
                }
            },
    {
        if matches!(self.mode, TypingMode::Deferred) {
            return None;
        }
        match self.live.stable_target(&self.transcript) {
            Some(t) => Some(t),
            None => {
                let t = self.transcript.buffer_target("");
                proof {
                    reveal_strlit("");
                }
                Some(t)
            },
        }
    }

    /// Take in one input: what to report, how to edit the buffer, and what is
    /// left to do after that.
    pub fn handle(&mut self, input: InjectorInput) -> (step: Step)
        requires
            old(self).wf(),
        ensures
            final(self).wf(),
            final(self)@ == old(self)@.fed(input@),
            events(step.events@) == SessionModel::events_before(input@),
            match old(self)@.target(input@) {
                Some(t) => step.edit is Some && (step.edit->0.backspaces, step.edit->0.text@)
                    == edit_to(old(self)@.typing.typed, t),
                None => step.edit is None,
            },
            step.rest@ == old(self)@.rest(input@),
    {
        let ghost before = self@;
        let ghost given = input@;
        let mut reported: Vec<EngineEvent> = Vec::new();
        let mut changed: bool = true;
        let mut segment: Option<String> = None;
        let target: Option<String>;
        match input {
            InjectorInput::Asr(AsrOutput::Partial(text)) => {
                self.transcript.feed_partial(text.as_str());
                target = if matches!(self.mode, TypingMode::Live) {
                    self.live.push_partial(text.as_str());
                    self.live.stable_target(&self.transcript)
                } else {
                    None
                };
                reported.push(EngineEvent::PartialTranscribed(text));
            },
            InjectorInput::Asr(AsrOutput::Final(text)) => {
                if self.streaming {
                    self.transcript.feed_final(text.as_str());
                } else {
                    self.transcript.feed_batch_final(text.as_str());
                }
                target = if matches!(self.mode, TypingMode::Deferred) {
                    None
                } else {
                    proof {
                        reveal_strlit("");
                    }
                    Some(self.transcript.buffer_target(""))
                };
                segment = Some(text);
            },
            InjectorInput::Erase => {
                changed = self.transcript.erase_last();
                target = if changed {
                    self.change_target()
                } else {
                    None
                };
            },
            InjectorInput::Undo => {
                changed = self.transcript.undo_last();
                target = if changed {
                    self.change_target()
                } else {
                    None
                };
            },
        }
        proof {
            self.transcript.lemma_wf();
            assert(self@ =~= before.fed(given));
            assert(events(reported@) =~= SessionModel::events_before(given));
        }
        let edit = self.edit_for(&target);
        let rest = Rest { target, segment, changed };
        assert(rest@ =~= before.rest(given));
        Step { events: reported, edit, rest }
    }

    /// The buffer was edited, as far as `outcome` says: record what it holds,
    /// and say what to report.
    pub fn settle(&mut self, rest: Rest, outcome: EditOutcome) -> (reported: Vec<EngineEvent>)
        requires
            old(self).wf(),
        ensures
            final(self).wf(),
            final(self)@ == old(self)@.settle(rest@, outcome),
            events(reported@) == old(self)@.settle_events(rest@, outcome),
    {
        let ghost before = self@;
        let ghost given = rest@;
        let mut reported: Vec<EngineEvent> = Vec::new();
        let typed: bool = match rest.target {
            Some(t) => {
                self.live.apply(t, outcome);
                outcome == EditOutcome::Done
            },
            None => true,
        };
        if let Some(text) = rest.segment {
            self.live.commit_segment();
            if rest.changed {
                let event = if typed {
                    text
                } else {
                    let mut marked = String::new();
                    marked.append("[type failed] ");
                    marked.append(text.as_str());
                    marked
                };
                reported.push(EngineEvent::SegmentTranscribed(event));
            }
        }
        if rest.changed {
            reported.push(EngineEvent::TranscriptUpdated(self.transcript.display()));
        }
        proof {
            assert(self@ =~= before.settle(given, outcome));
            assert(events(reported@) =~= before.settle_events(given, outcome));
        }
        reported
    }

    /// The session is stopping: the text to paste, in `Deferred` mode.
    pub fn finish(self) -> (paste: Option<String>)
        requires
            self.wf(),
        ensures
            text::text_view(paste) == self@.pasted(),
    {
        if matches!(self.mode, TypingMode::Deferred) {
            Some(self.transcript.display())
        } else {
            None
        }
    }
}

/// Whether a segment of `samples` samples is too short to be speech (under a
/// tenth of a second).
pub open spec fn blip(samples: int) -> bool {
    samples < SAMPLE_RATE / 10
}

/// Whether a segment is too short to be speech.
pub fn is_blip(samples: usize) -> (b: bool)
    ensures
        b == blip(samples as int),
{
    samples < SAMPLE_RATE as usize / 10
}

/// Whether at least `ms` milliseconds lie between two points in time, both in
/// nanoseconds from the same origin.
pub open spec fn elapsed(from: int, to: int, ms: int) -> bool {
    to - from >= ms * NANOS_PER_MS
}

/// Whether at least `ms` milliseconds lie between two points in time.
pub fn has_elapsed(from: u64, to: u64, ms: u64) -> (b: bool)
    ensures
        b == elapsed(from as int, to as int, ms as int),
{
    proof {
        assert(ms * NANOS_PER_MS <= u64::MAX * NANOS_PER_MS) by (nonlinear_arith)
            requires
                ms <= u64::MAX,
                0 <= NANOS_PER_MS,
        ;
        assert(u64::MAX * NANOS_PER_MS <= u128::MAX);
        assert(0 <= ms * NANOS_PER_MS) by (nonlinear_arith)
            requires
                0 <= ms,
                0 <= NANOS_PER_MS,
        ;
    }
    let wanted: u128 = ms as u128 * NANOS_PER_MS as u128;
    to >= from && (to - from) as u128 >= wanted
}

/// Lets through only toggles that are not the repeats of a held hotkey.
pub struct ToggleGate {
    /// When a toggle was last accepted, in nanoseconds.
    last: Option<u64>,
}

impl View for ToggleGate {
    type V = Option<u64>;

    closed spec fn view(&self) -> Option<u64> {
        self.last
    }
}

/// Whether a toggle at `now` is accepted when the last accepted one was at
/// `last`.
pub open spec fn accepts_toggle(last: Option<u64>, now: u64) -> bool {
    match last {
        Some(t) => elapsed(t as int, now as int, TOGGLE_DEBOUNCE_MS as int),
        None => true,
    }
}

impl ToggleGate {
    pub fn new() -> (g: Self)
        ensures
            g@ is None,
    {
        ToggleGate { last: None }
    }

    /// Whether the toggle at `now` counts. Only an accepted one starts a new
    /// window: the repeats that are dropped do not extend it.
    pub fn accept(&mut self, now: u64) -> (b: bool)
        ensures
            b == accepts_toggle(old(self)@, now),
            final(self)@ == if b {
                Some(now)
            } else {
                old(self)@
            },
    {
        if let Some(prev) = self.last {
            if !has_elapsed(prev, now, TOGGLE_DEBOUNCE_MS) {
                return false;
            }
        }
        self.last = Some(now);
        true
    }
}

/// The last accepted toggle after toggles at these times.
pub open spec fn last_toggle(times: Seq<u64>) -> Option<u64>
    decreases times.len(),
{
    if times.len() == 0 {
        None
    } else {
        let last = last_toggle(times.drop_last());
        if accepts_toggle(last, times.last()) {
            Some(times.last())
        } else {
            last
        }
    }
}

/// A burst of repeats counts as one toggle: when each of them comes before the
/// window of the first has passed, only the first is accepted.
pub proof fn burst_is_one_toggle(times: Seq<u64>)
    requires
        times.len() > 0,
        forall|i: int|
            0 <= i < times.len() ==> !elapsed(
                times[0] as int,
                #[trigger] times[i] as int,
                TOGGLE_DEBOUNCE_MS as int,
            ),
    ensures
        last_toggle(times) == Some(times[0]),
    decreases times.len(),
{
    let init = times.drop_last();
    if times.len() == 1 {
        assert(last_toggle(init) is None);
    } else {
        assert forall|i: int| 0 <= i < init.len() implies !elapsed(
            init[0] as int,
            #[trigger] init[i] as int,
            TOGGLE_DEBOUNCE_MS as int,
        ) by {
            assert(init[i] == times[i]);
        }
        burst_is_one_toggle(init);
        assert(times[times.len() - 1] == times.last());
    }
}

/// How long a stop waits for the capture thread to exit, in seconds.
pub const CAPTURE_WAIT_SECS: u64 = 5;

/// How long a stop waits for the streaming task to drain, in seconds.
pub const STREAM_WAIT_SECS: u64 = 60;

/// How long a stop waits for the voice detection task to drain, in seconds.
pub const VAD_WAIT_SECS: u64 = 5;

/// How long a stop waits for the recognition task to drain, in seconds.
pub const ASR_WAIT_SECS: u64 = 60;

/// How long a stop waits for the injector to drain, in seconds.
pub const INJECTOR_WAIT_SECS: u64 = 12;

/// Seconds of audio that the batch pipeline can look back on: the longest
/// segment and its padding, comfortably.
pub const LOOKBACK_SECS: usize = 30;

/// The recognition half of a session.
#[derive(Debug, Clone, Copy, PartialEq, Eq, Structural)]
pub enum Pipeline {
    /// One task: voice detection and a continuous stream.
    Streaming,
    /// A voice detection task with a ring of this many samples, and a
    /// recognition task.
    Batch { ring: usize },
}

/// Which pipeline serves a backend: the one that it can stream through, else
/// the batch one.
pub open spec fn pipeline(kind: AsrKind) -> Pipeline {
    if kind.streams() {
        Pipeline::Streaming
    } else {
        Pipeline::Batch { ring: 480_000 }
    }
}

/// Which pipeline serves a backend.
pub fn pipeline_for(kind: AsrKind) -> (p: Pipeline)
    ensures
        p == pipeline(kind),
        p matches Pipeline::Batch { ring } ==> ring == LOOKBACK_SECS * SAMPLE_RATE,
{
    match kind {
        AsrKind::Nemotron | AsrKind::Zipformer => Pipeline::Streaming,
        AsrKind::Moonshine => Pipeline::Batch { ring: LOOKBACK_SECS * SAMPLE_RATE as usize },
    }
}

/// What must be there before an engine is loaded: the voice detection model,
/// and then the models directory. `vad_shown` and `dir_shown` are their paths.
pub fn check_models(vad_shown: &str, vad_is_file: bool, dir_shown: &str, is_dir: bool) -> (r: Result<
    (),
    String,
>)
    ensures
        match r {
            Ok(_) => vad_is_file && is_dir,
            Err(e) => if !vad_is_file {
                e@ == "VAD model not found at "@ + vad_shown@
                    + ". Run scripts/download-models.sh first."@
            } else {
                !is_dir && e@ == "models directory not found at "@ + dir_shown@
                    + ". Run scripts/download-models.sh first."@
            },
        },
{
    match vad::check_model_file(vad_shown, vad_is_file) {
        Ok(_) => asr::check_models_dir(dir_shown, is_dir),
        Err(e) => Err(e),
    }
}

/// What the engine does on a command.
#[derive(Debug, Clone, PartialEq, Eq)]
pub enum EngineAction {
    /// Open a session.
    Start,
    /// Close the session.
    Stop,
    /// Hand the injector a command.
    Forward(InjectorInput),
    Nothing,
}

/// How to open a session.
#[derive(Debug, Clone, Copy, PartialEq, Eq, Structural)]
pub struct SessionPlan {
    pub pipeline: Pipeline,
    pub mode: TypingMode,
    /// Whether finals follow partials of the same utterance.
    pub streaming: bool,
}

/// What the engine does on a command, given whether it is recording. A toggle
/// opens or closes; the rest needs a session.
pub open spec fn action(recording: bool, cmd: EngineCmd) -> EngineAction {
    match cmd {
        EngineCmd::Toggle => if recording {
            EngineAction::Stop
        } else {
            EngineAction::Start
        },
        EngineCmd::Stop => if recording {
            EngineAction::Stop
        } else {
            EngineAction::Nothing
        },
        EngineCmd::Erase => if recording {
            EngineAction::Forward(InjectorInput::Erase)
        } else {
            EngineAction::Nothing
        },
        EngineCmd::Undo => if recording {
            EngineAction::Forward(InjectorInput::Undo)
        } else {
            EngineAction::Nothing
        },
    }
}

/// The engine's state: Idle or Recording.
pub struct Engine {
    kind: AsrKind,
    typing_mode: TypingMode,
    recording: bool,
}

impl Engine {
    /// Which backend is loaded.
    pub closed spec fn backend(&self) -> AsrKind {
        self.kind
    }

    /// When text reaches the target app.
    pub closed spec fn typing(&self) -> TypingMode {
        self.typing_mode
    }

    /// Whether a session is open.
    pub closed spec fn recording(&self) -> bool {
        self.recording
    }

    /// An idle engine.
    pub fn new(kind: AsrKind, typing_mode: TypingMode) -> (e: Self)
        ensures
            e.backend() == kind,
            e.typing() == typing_mode,
            !e.recording(),
    {
        Engine { kind, typing_mode, recording: false }
    }

    pub fn is_recording(&self) -> (b: bool)
        ensures
            b == self.recording(),
    {
        self.recording
    }

    /// What to do on a command.
    pub fn command(&self, cmd: EngineCmd) -> (a: EngineAction)
        ensures
            a == action(self.recording(), cmd),
    {
        match cmd {
            EngineCmd::Toggle => if self.recording {
                EngineAction::Stop
            } else {
                EngineAction::Start
            },
            EngineCmd::Stop => if self.recording {
                EngineAction::Stop
            } else {
                EngineAction::Nothing
            },
            EngineCmd::Erase => match self.erase_last() {
                Some(input) => EngineAction::Forward(input),
                None => EngineAction::Nothing,
            },
            EngineCmd::Undo => match self.undo_last() {
                Some(input) => EngineAction::Forward(input),
                None => EngineAction::Nothing,
            },
        }
    }

    /// Erase the last visible word of the running session. No-op when idle.
    pub fn erase_last(&self) -> (input: Option<InjectorInput>)
        ensures
            input == if self.recording() {
                Some(InjectorInput::Erase)
            } else {
                None
            },
    {
        if self.recording {
            Some(InjectorInput::Erase)
        } else {
            None
        }
    }

    /// Restore the last erased word of the running session. No-op when idle.
    pub fn undo_last(&self) -> (input: Option<InjectorInput>)
        ensures
            input == if self.recording() {
                Some(InjectorInput::Undo)
            } else {
                None
            },
    {
        if self.recording {
            Some(InjectorInput::Undo)
        } else {
            None
        }
    }

    /// How to open a session. Only one can be open at a time.
    pub fn start(&self) -> (r: Result<SessionPlan, String>)
        ensures
            match r {
                Ok(plan) => !self.recording() && plan == (SessionPlan {
                    pipeline: pipeline(self.backend()),
                    mode: self.typing(),
                    streaming: self.backend().streams(),
                }),
                Err(e) => self.recording() && e@ == "already recording"@,
            },
    {
        if self.recording {
            return Err("already recording".to_string());
        }
        Ok(
            SessionPlan {
                pipeline: pipeline_for(self.kind),
                mode: self.typing_mode,
                streaming: self.kind.is_streaming(),
            },
        )
    }

    /// The session that was planned is open: what to report.
    pub fn started(&mut self) -> (e: EngineEvent)
        ensures
            final(self).recording(),
            final(self).backend() == old(self).backend(),
            final(self).typing() == old(self).typing(),
            e@ == Event::StateChanged("Recording"@),
    {
        self.recording = true;
        EngineEvent::StateChanged("Recording".to_string())
    }

    /// The session ends: how to close it. `None` when idle.
    pub fn stop(&mut self) -> (plan: Option<StopPlan>)
        ensures
            !final(self).recording(),
            final(self).backend() == old(self).backend(),
            final(self).typing() == old(self).typing(),
            match plan {
                Some(p) => old(self).recording() && p@ == StopModel::begin(
                    pipeline(old(self).backend()),
                ),
                None => !old(self).recording(),
            },
    {
        if !self.recording {
            return None;
        }
        self.recording = false;
        Some(StopPlan { pipeline: pipeline_for(self.kind), stage: StopStage::Begin, exited: false })
    }
}

/// One step of closing a session. Every wait is bounded; the number is
/// seconds.
#[derive(Debug, Clone, Copy, PartialEq, Eq, Structural)]
pub enum StopStep {
    /// Ask the capture thread to stop, and wait for it to exit.
    StopCapture(u64),
    /// The audio is gone: wait for the streaming task to drain.
    AwaitStream(u64),
    /// The audio is gone: wait for the voice detection task to drain.
    AwaitVad(u64),
    /// Wait for the recognition task to drain.
    AwaitAsr(u64),
    /// Close the injector's input, and wait for it to drain.
    AwaitInjector(u64),
    /// Report that the engine is idle, after joining the capture thread if
    /// `join` is set.
    Finish { join: bool },
}

/// How far a stop has come.
#[derive(Debug, Clone, Copy, PartialEq, Eq, Structural)]
pub enum StopStage {
    Begin,
    Capture,
    Vad,
    Pipeline,
    Injector,
    Done,
}

/// What a stop stands for.
pub struct StopModel {
    pub pipeline: Pipeline,
    pub stage: StopStage,
    /// Whether the capture thread has exited.
    pub exited: bool,
}

impl StopModel {
    /// A stop that has not begun.
    pub open spec fn begin(pipeline: Pipeline) -> StopModel {
        StopModel { pipeline, stage: StopStage::Begin, exited: false }
    }

    /// The next step and the stop after it. `finished` says whether what the
    /// step before waited for came in time.
    pub open spec fn next(self, finished: bool) -> (Option<StopStep>, StopModel) {
        match self.stage {
            StopStage::Begin => (
                Some(StopStep::StopCapture(CAPTURE_WAIT_SECS)),
                StopModel { stage: StopStage::Capture, ..self },
            ),
            StopStage::Capture => match self.pipeline {
                Pipeline::Streaming => (
                    Some(StopStep::AwaitStream(STREAM_WAIT_SECS)),
                    StopModel { stage: StopStage::Pipeline, exited: finished, ..self },
                ),
                Pipeline::Batch { ring } => (
                    Some(StopStep::AwaitVad(VAD_WAIT_SECS)),
                    StopModel { stage: StopStage::Vad, exited: finished, ..self },
                ),
            },
            StopStage::Vad => (
                Some(StopStep::AwaitAsr(ASR_WAIT_SECS)),
                StopModel { stage: StopStage::Pipeline, ..self },
            ),
            StopStage::Pipeline => (
                Some(StopStep::AwaitInjector(INJECTOR_WAIT_SECS)),
                StopModel { stage: StopStage::Injector, ..self },
            ),
            StopStage::Injector => (
                Some(StopStep::Finish { join: self.exited }),
                StopModel { stage: StopStage::Done, ..self },
            ),
            StopStage::Done => (None, self),
        }
    }

    /// The steps from here on, given for each of them whether what it waits
    /// for comes in time.
    pub open spec fn steps(self, finished: Seq<bool>) -> Seq<StopStep>
        decreases finished.len(),
    {
        if finished.len() == 0 {
            Seq::empty()
        } else {
            match self.next(finished[0]) {
                (Some(step), rest) => seq![step] + rest.steps(finished.skip(1)),
                (None, _) => Seq::empty(),
            }
        }
    }
}

/// How long a step can wait, in seconds.
pub open spec fn wait_secs(step: StopStep) -> int {
    match step {
        StopStep::StopCapture(s) => s as int,
        StopStep::AwaitStream(s) => s as int,
        StopStep::AwaitVad(s) => s as int,
        StopStep::AwaitAsr(s) => s as int,
        StopStep::AwaitInjector(s) => s as int,
        StopStep::Finish { join } => 0,
    }
}

/// How long some steps can wait together, in seconds.
pub open spec fn total_wait(steps: Seq<StopStep>) -> int
    decreases steps.len(),
{
    if steps.len() == 0 {
        0
    } else {
        wait_secs(steps[0]) + total_wait(steps.skip(1))
    }
}

/// The order in which a streaming session closes, whatever comes in time: the
/// injector drains before the engine reports that it is idle, and the capture
/// thread is joined only if it has exited, so that a wedged one cannot hang
/// the stop.
pub proof fn streaming_stop_is_bounded(finished: Seq<bool>)
    requires
        finished.len() >= 4,
    ensures
        StopModel::begin(Pipeline::Streaming).steps(finished) == seq![
            StopStep::StopCapture(CAPTURE_WAIT_SECS),
            StopStep::AwaitStream(STREAM_WAIT_SECS),
            StopStep::AwaitInjector(INJECTOR_WAIT_SECS),
            StopStep::Finish { join: finished[1] },
        ],
        total_wait(StopModel::begin(Pipeline::Streaming).steps(finished)) == 77,
{
    reveal_with_fuel(StopModel::steps, 6);
    reveal_with_fuel(total_wait, 6);
    let steps = StopModel::begin(Pipeline::Streaming).steps(finished);
    assert(finished.skip(1)[0] == finished[1]);
    assert(steps =~= seq![
        StopStep::StopCapture(CAPTURE_WAIT_SECS),
        StopStep::AwaitStream(STREAM_WAIT_SECS),
        StopStep::AwaitInjector(INJECTOR_WAIT_SECS),
        StopStep::Finish { join: finished[1] },
    ]);
}

/// The same of a batch session.
pub proof fn batch_stop_is_bounded(ring: usize, finished: Seq<bool>)
    requires
        finished.len() >= 5,
    ensures
        StopModel::begin(Pipeline::Batch { ring }).steps(finished) == seq![
            StopStep::StopCapture(CAPTURE_WAIT_SECS),
            StopStep::AwaitVad(VAD_WAIT_SECS),
            StopStep::AwaitAsr(ASR_WAIT_SECS),
            StopStep::AwaitInjector(INJECTOR_WAIT_SECS),
            StopStep::Finish { join: finished[1] },
        ],
        total_wait(StopModel::begin(Pipeline::Batch { ring }).steps(finished)) == 82,
{
    reveal_with_fuel(StopModel::steps, 7);
    reveal_with_fuel(total_wait, 7);
    let steps = StopModel::begin(Pipeline::Batch { ring }).steps(finished);
    assert(finished.skip(1)[0] == finished[1]);
    assert(steps =~= seq![
        StopStep::StopCapture(CAPTURE_WAIT_SECS),
        StopStep::AwaitVad(VAD_WAIT_SECS),
        StopStep::AwaitAsr(ASR_WAIT_SECS),
        StopStep::AwaitInjector(INJECTOR_WAIT_SECS),
        StopStep::Finish { join: finished[1] },
    ]);
}

/// The steps of closing a session, one at a time.
pub struct StopPlan {
    pipeline: Pipeline,
    stage: StopStage,
    exited: bool,
}

impl View for StopPlan {
    type V = StopModel;

    closed spec fn view(&self) -> StopModel {
        StopModel { pipeline: self.pipeline, stage: self.stage, exited: self.exited }
    }
}

impl StopPlan {
    /// The next step, or `None` when the session is closed. `finished` says
    /// whether what the step before waited for came in time.
    pub fn next(&mut self, finished: bool) -> (step: Option<StopStep>)
        ensures
            (step, final(self)@) == old(self)@.next(finished),
    {
        match self.stage {
            StopStage::Begin => {
                self.stage = StopStage::Capture;
                Some(StopStep::StopCapture(CAPTURE_WAIT_SECS))
            },
            StopStage::Capture => {
                self.exited = finished;
                match self.pipeline {
                    Pipeline::Streaming => {
                        self.stage = StopStage::Pipeline;
                        Some(StopStep::AwaitStream(STREAM_WAIT_SECS))
                    },
                    Pipeline::Batch { ring: _ } => {
                        self.stage = StopStage::Vad;
                        Some(StopStep::AwaitVad(VAD_WAIT_SECS))
                    },
                }
            },
            StopStage::Vad => {
                self.stage = StopStage::Pipeline;
                Some(StopStep::AwaitAsr(ASR_WAIT_SECS))
            },
            StopStage::Pipeline => {
                self.stage = StopStage::Injector;
                Some(StopStep::AwaitInjector(INJECTOR_WAIT_SECS))
            },
            StopStage::Injector => {
                self.stage = StopStage::Done;
                Some(StopStep::Finish { join: self.exited })
            },
            StopStage::Done => None,
        }
    }

    /// What is reported last, once the session is closed.
    pub fn closing_event() -> (e: EngineEvent)
        ensures
            e@ == Event::StateChanged("Idle"@),
    {
        EngineEvent::StateChanged("Idle".to_string())
    }
}

/// A toggle counts exactly when at least 350 ms have passed since the last one
/// that did, however many more, or when there was none.
pub proof fn toggle_counts_after_the_window(last: u64, now: u64)
    ensures
        accepts_toggle(Some(last), now) <==> now - last >= 350_000_000,
        accepts_toggle(None, now),
{
}

/// Toggles that are at least 350 ms apart all count, however far apart they
/// are.
pub proof fn toggles_that_are_apart_all_count(times: Seq<u64>, k: int)
    requires
        forall|i: int, j: int|
            0 <= i < j < times.len() ==> #[trigger] times[j] - #[trigger] times[i] >= 350_000_000,
        0 <= k < times.len(),
    ensures
        accepts_toggle(last_toggle(times.take(k)), times[k]),
        last_toggle(times) == Some(times[times.len() - 1]),
    decreases times.len(),
{
    let init = times.drop_last();
    if init.len() > 0 {
        assert forall|i: int, j: int| 0 <= i < j < init.len() implies #[trigger] init[j]
            - #[trigger] init[i] >= 350_000_000 by {
            assert(times[j] - times[i] >= 350_000_000);
        }
        toggles_that_are_apart_all_count(init, if k < init.len() { k } else { 0 });
        assert(times[times.len() - 1] - times[init.len() - 1] >= 350_000_000);
        if k < init.len() {
            assert(init.take(k) =~= times.take(k));
        } else {
            assert(init =~= times.take(k));
        }
    } else {
        assert(times.take(k) =~= init);
    }
}

/// A toggle that does not count leaves the window where it was: the next one
/// is held against the last that did.
pub proof fn dropped_toggle_does_not_extend_the_window(times: Seq<u64>, dropped: u64, now: u64)
    requires
        last_toggle(times) is Some,
        dropped - last_toggle(times)->0 < 350_000_000,
    ensures
        last_toggle(times.push(dropped)) == last_toggle(times),
        accepts_toggle(last_toggle(times.push(dropped)), now) <==> now - last_toggle(times)->0
            >= 350_000_000,
        last_toggle(times.push(dropped).push(now)) == if now - last_toggle(times)->0
            >= 350_000_000 {
            Some(now)
        } else {
            last_toggle(times)
        },
{
    assert(times.push(dropped).drop_last() =~= times);
    assert(times.push(dropped).push(now).drop_last() =~= times.push(dropped));
}

/// What the engine does: a toggle opens a session when there is none and
/// closes the one that there is, a stop closes it, and an erase or undo reaches
/// it. Without a session only a toggle does anything.
pub proof fn engine_opens_and_closes(recording: bool, cmd: EngineCmd)
    ensures
        action(recording, cmd) is Start <==> !recording && cmd == EngineCmd::Toggle,
        action(recording, cmd) is Stop <==> recording && (cmd == EngineCmd::Toggle || cmd
            == EngineCmd::Stop),
        action(recording, cmd) == EngineAction::Forward(InjectorInput::Erase) <==> recording && cmd
            == EngineCmd::Erase,
        action(recording, cmd) == EngineAction::Forward(InjectorInput::Undo) <==> recording && cmd
            == EngineCmd::Undo,
        action(recording, cmd) is Nothing <==> !recording && cmd != EngineCmd::Toggle,
{
}

/// A backend that gives partials is streamed through, and another gets the
/// batch pipeline with thirty seconds of audio to look back on.
pub proof fn pipeline_fits_the_backend(kind: AsrKind)
    ensures
        kind == AsrKind::Moonshine ==> pipeline(kind) == (Pipeline::Batch { ring: 480_000 }),
        kind != AsrKind::Moonshine ==> pipeline(kind) == Pipeline::Streaming,
{
}

/// A segment is a blip exactly when it is shorter than a tenth of a second.
pub proof fn blip_is_under_a_tenth_of_a_second(samples: int)
    ensures
        blip(samples) <==> samples < 1600,
{
}

/// Time has passed exactly when the clock has gone on by so many milliseconds,
/// however many more.
pub proof fn time_passes_in_milliseconds(from: int, to: int, ms: int)
    ensures
        elapsed(from, to, ms) <==> to - from >= ms * 1_000_000,
{
}

/// How long a stop waits for each part: five seconds for the capture and for
/// voice detection, a minute for what is being recognized, and twelve seconds
/// for what is being typed. The capture thread is joined exactly when it has
/// exited.
pub proof fn stop_waits_for_each_part(ring: usize, finished: Seq<bool>)
    requires
        finished.len() >= 5,
    ensures
        StopModel::begin(Pipeline::Streaming).steps(finished) == seq![
            StopStep::StopCapture(5),
            StopStep::AwaitStream(60),
            StopStep::AwaitInjector(12),
            StopStep::Finish { join: finished[1] },
        ],
        StopModel::begin(Pipeline::Batch { ring }).steps(finished) == seq![
            StopStep::StopCapture(5),
            StopStep::AwaitVad(5),
            StopStep::AwaitAsr(60),
            StopStep::AwaitInjector(12),
            StopStep::Finish { join: finished[1] },
        ],
{
    streaming_stop_is_bounded(finished);
    batch_stop_is_bounded(ring, finished);
}

} // verus!
