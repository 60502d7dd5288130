use saytype::daemon::{
    AsrOutput, Edit, EditOutcome, EditRun, EditStep, EngineEvent, Injector, InjectorInput,
    TypingMode,
};

/// Runs a session: each input is handled, its edit performed on `buffer` by a
/// tool that may fail, and settled. Keeps the lines of the commands that were
/// run and the events.
struct Session {
    injector: Injector,
    lines: Vec<String>,
    events: Vec<EngineEvent>,
    dead: bool,
    /// Whether the tool deletes but does not type.
    mute: bool,
    buffer: String,
}

impl Session {
    fn new(mode: TypingMode, streaming: bool) -> Session {
        Session {
            injector: Injector::new(mode, streaming),
            lines: Vec::new(),
            events: Vec::new(),
            dead: false,
            mute: false,
            buffer: String::new(),
        }
    }

    fn send(&mut self, input: InjectorInput) {
        let step = self.injector.handle(input);
        self.events.extend(step.events);
        let outcome = match step.edit {
            Some(edit) => self.edit(edit),
            None => EditOutcome::Done,
        };
        self.events.extend(self.injector.settle(step.rest, outcome));
        assert_eq!(self.injector.typed(), self.buffer);
    }

    fn edit(&mut self, edit: Edit) -> EditOutcome {
        let mut run = EditRun::new(edit);
        loop {
            let ok = match run.step() {
                EditStep::Delete(args) => {
                    let count: usize = args[2].parse().unwrap();
                    self.lines.push(args.join(" "));
                    if !self.dead {
                        for _ in 0..count {
                            self.buffer.pop().expect("nothing to delete");
                        }
                    }
                    !self.dead
                }
                EditStep::Type(args) => {
                    assert_eq!(args[..2], ["type", "--"]);
                    self.lines.push(format!("type {}", args[2]));
                    if !self.dead && !self.mute {
                        self.buffer.push_str(&args[2]);
                    }
                    !self.dead && !self.mute
                }
                EditStep::Over(outcome) => return outcome,
            };
            run.report(ok);
        }
    }

    fn partial(&mut self, text: &str) {
        self.send(InjectorInput::Asr(AsrOutput::Partial(text.into())));
    }

    fn finalize(&mut self, text: &str) {
        self.send(InjectorInput::Asr(AsrOutput::Final(text.into())));
    }

    fn erase(&mut self) {
        self.send(InjectorInput::Erase);
    }

    fn undo(&mut self) {
        self.send(InjectorInput::Undo);
    }

    fn log(&self) -> String {
        self.lines.iter().map(|l| format!("{l}\n")).collect()
    }
}

#[test]
fn deferred_injector_task_emits_the_documented_event_sequence() {
    let mut s = Session::new(TypingMode::Deferred, true);
    s.partial("hello world");
    s.partial("hello world");
    s.finalize("hello world");
    s.erase();
    s.erase();
    assert_eq!(s.log(), "");
    assert_eq!(
        s.events,
        vec![
            EngineEvent::PartialTranscribed("hello world".into()),
            EngineEvent::TranscriptUpdated("hello world".into()),
            EngineEvent::PartialTranscribed("hello world".into()),
            EngineEvent::TranscriptUpdated("hello world".into()),
            EngineEvent::SegmentTranscribed("hello world".into()),
            EngineEvent::TranscriptUpdated("Hello world".into()),
            EngineEvent::TranscriptUpdated("Hello".into()),
            EngineEvent::TranscriptUpdated(String::new()),
        ]
    );
    // The user erased everything: the one paste at the end is empty.
    assert_eq!(s.injector.finish(), Some(String::new()));
}

#[test]
fn live_injector_task_types_stable_prefix_corrects_tail_and_converges_on_final() {
    let mut s = Session::new(TypingMode::Live, true);
    s.partial("hello wo");
    s.partial("hello world");
    s.partial("hello world");
    s.partial("hello worx");
    s.finalize("hello world.");
    assert_eq!(
        s.log(),
        "type Hello wo\ntype rld\nkey --repeat 2 --delay 0 --repeat-delay 0 Backspace\ntype ld.\n"
    );
    assert_eq!(
        s.events,
        vec![
            EngineEvent::PartialTranscribed("hello wo".into()),
            EngineEvent::TranscriptUpdated("hello wo".into()),
            EngineEvent::PartialTranscribed("hello world".into()),
            EngineEvent::TranscriptUpdated("hello world".into()),
            EngineEvent::PartialTranscribed("hello world".into()),
            EngineEvent::TranscriptUpdated("hello world".into()),
            EngineEvent::PartialTranscribed("hello worx".into()),
            EngineEvent::TranscriptUpdated("hello worx".into()),
            EngineEvent::SegmentTranscribed("hello world.".into()),
            EngineEvent::TranscriptUpdated("Hello world.".into()),
        ]
    );
    assert_eq!(s.buffer, "Hello world.");
    // Live mode never pastes.
    assert_eq!(s.injector.finish(), None);
}

#[test]
fn final_only_injector_task_types_each_final_immediately_and_never_partials() {
    let mut s = Session::new(TypingMode::FinalOnly, true);
    s.partial("hello");
    s.partial("hello world");
    s.finalize("hello world");
    s.partial("next thing");
    s.partial("next thing");
    s.erase();
    s.undo();
    s.finalize("next thing");
    s.erase();
    s.undo();
    assert_eq!(
        s.log(),
        "type Hello world\ntype  Next thing\nkey --repeat 6 --delay 0 --repeat-delay 0 Backspace\ntype  thing\n"
    );
    assert_eq!(
        s.events,
        vec![
            EngineEvent::PartialTranscribed("hello".into()),
            EngineEvent::TranscriptUpdated("hello".into()),
            EngineEvent::PartialTranscribed("hello world".into()),
            EngineEvent::TranscriptUpdated("hello world".into()),
            EngineEvent::SegmentTranscribed("hello world".into()),
            EngineEvent::TranscriptUpdated("Hello world".into()),
            EngineEvent::PartialTranscribed("next thing".into()),
            EngineEvent::TranscriptUpdated("Hello world next thing".into()),
            EngineEvent::PartialTranscribed("next thing".into()),
            EngineEvent::TranscriptUpdated("Hello world next thing".into()),
            EngineEvent::TranscriptUpdated("Hello world next".into()),
            EngineEvent::TranscriptUpdated("Hello world next thing".into()),
            EngineEvent::SegmentTranscribed("next thing".into()),
            EngineEvent::TranscriptUpdated("Hello world Next thing".into()),
            EngineEvent::TranscriptUpdated("Hello world Next".into()),
            EngineEvent::TranscriptUpdated("Hello world Next thing".into()),
        ]
    );
    assert_eq!(s.buffer, "Hello world Next thing");
    assert_eq!(s.injector.finish(), None);
}

#[test]
fn live_erase_and_undo_edit_the_live_buffer() {
    let mut s = Session::new(TypingMode::Live, true);
    s.partial("the quick brown");
    s.partial("the quick brown");
    assert_eq!(s.buffer, "The quick brown");
    s.erase();
    assert_eq!(s.buffer, "The quick");
    s.erase();
    assert_eq!(s.buffer, "The");
    s.undo();
    assert_eq!(s.buffer, "The quick");
    s.undo();
    assert_eq!(s.buffer, "The quick brown");
    // Nothing is left to restore: nothing is reported either.
    let reported = s.events.len();
    s.undo();
    assert_eq!(s.events.len(), reported);
    // Erasing past the partial falls back to the committed text.
    s.finalize("the quick brown");
    s.partial("fox");
    s.erase();
    s.erase();
    assert_eq!(s.buffer, "The quick");
}

#[test]
fn dead_tool_marks_finals_and_the_next_final_converges() {
    let mut s = Session::new(TypingMode::Live, true);
    s.partial("hello");
    s.dead = true;
    s.partial("hello");
    assert_eq!(s.injector.typed(), "");
    s.finalize("hello");
    assert_eq!(
        &s.events[4..],
        &[
            EngineEvent::SegmentTranscribed("[type failed] hello".into()),
            EngineEvent::TranscriptUpdated("Hello".into()),
        ]
    );
    assert_eq!(s.injector.typed(), "");
    s.dead = false;
    s.finalize("again");
    assert_eq!(s.buffer, "Hello Again");
    assert_eq!(s.injector.typed(), "Hello Again");
    assert_eq!(s.injector.display(), "Hello Again");
}

#[test]
fn deferred_final_is_never_marked_and_the_transcript_is_pasted_once() {
    let mut s = Session::new(TypingMode::Deferred, true);
    s.dead = true;
    s.partial("one two three");
    s.finalize("one two three");
    s.erase();
    s.finalize("");
    assert_eq!(s.events[2], EngineEvent::SegmentTranscribed("one two three".into()));
    assert_eq!(s.injector.typed(), "");
    assert_eq!(s.injector.finish(), Some("One two".to_string()));
}

#[test]
fn batch_finals_retire_pending_erasures() {
    let mut s = Session::new(TypingMode::FinalOnly, false);
    s.finalize("one two");
    s.erase();
    assert_eq!(s.buffer, "One");
    s.finalize("three");
    assert_eq!(s.buffer, "One Three");
    s.undo();
    assert_eq!(s.buffer, "One Three");
}

#[test]
fn erase_on_an_empty_session_does_nothing() {
    for mode in [TypingMode::Live, TypingMode::FinalOnly, TypingMode::Deferred] {
        let mut s = Session::new(mode, true);
        s.erase();
        s.undo();
        assert!(s.events.is_empty());
        assert!(s.lines.is_empty());
    }
}

#[test]
fn edit_of_an_unchanged_target_is_empty() {
    let mut i = Injector::new(TypingMode::FinalOnly, true);
    let step = i.handle(InjectorInput::Asr(AsrOutput::Final("hi".into())));
    assert_eq!(step.edit.as_ref().unwrap().text, "Hi");
    i.settle(step.rest, EditOutcome::Done);
    let step = i.handle(InjectorInput::Asr(AsrOutput::Final("".into())));
    let edit = step.edit.unwrap();
    assert_eq!((edit.backspaces, edit.text.as_str()), (0, ""));
}

#[test]
fn deletions_without_the_typing_are_recorded() {
    let mut s = Session::new(TypingMode::Live, true);
    s.partial("hello wor");
    s.partial("hello wor");
    assert_eq!(s.buffer, "Hello wor");
    s.mute = true;
    s.finalize("hello wxy");
    assert_eq!(s.buffer, "Hello w");
    assert_eq!(s.injector.typed(), "Hello w");
    assert!(s
        .events
        .contains(&EngineEvent::SegmentTranscribed("[type failed] hello wxy".into())));
    s.mute = false;
    s.finalize("next");
    assert_eq!(s.buffer, "Hello wxy Next");
    assert_eq!(s.lines.last().unwrap(), "type xy Next");
}

#[test]
fn buffer_converges_whatever_failed() {
    // Every mix of a tool that works, one that is dead and one that only
    // deletes.
    for plan in 0..81usize {
        let mut s = Session::new(TypingMode::Live, true);
        let texts = ["one too", "one too", "one two thre", "one two thre"];
        let mut rest = plan;
        for text in texts {
            s.dead = rest % 3 == 1;
            s.mute = rest % 3 == 2;
            rest /= 3;
            s.partial(text);
        }
        s.dead = false;
        s.mute = false;
        s.finalize("one two three");
        assert_eq!(s.buffer, "One two three");
        s.erase();
        s.dead = true;
        s.finalize("four");
        s.dead = false;
        s.finalize("five");
        assert_eq!(s.buffer, s.injector.display());
    }
}

#[test]
fn edit_runs_stop_at_what_fails() {
    let edit = |backspaces: u32, text: &str| Edit { backspaces, text: text.to_string() };
    let type_line = |text: &str| {
        EditStep::Type(vec!["type".to_string(), "--".to_string(), text.to_string()])
    };

    let mut run = EditRun::new(edit(2, "xy"));
    assert!(matches!(run.step(), EditStep::Delete(_)));
    run.report(false);
    assert_eq!(run.step(), EditStep::Over(EditOutcome::Nothing));

    let mut run = EditRun::new(edit(2, "xy"));
    run.report(true);
    assert_eq!(run.step(), type_line("xy"));
    run.report(false);
    assert_eq!(run.step(), EditStep::Over(EditOutcome::Deleted));

    let mut run = EditRun::new(edit(2, "xy"));
    run.report(true);
    run.report(true);
    assert_eq!(run.step(), EditStep::Over(EditOutcome::Done));
    run.report(false);
    assert_eq!(run.step(), EditStep::Over(EditOutcome::Done));

    // Nothing to type, nothing to delete, nothing at all.
    let mut run = EditRun::new(edit(1, ""));
    run.report(true);
    assert_eq!(run.step(), EditStep::Over(EditOutcome::Done));
    assert_eq!(EditRun::new(edit(0, "a")).step(), type_line("a"));
    assert_eq!(EditRun::new(edit(0, "")).step(), EditStep::Over(EditOutcome::Done));
}

#[test]
fn batch_finals_send_no_backspaces() {
    for mode in [TypingMode::Live, TypingMode::FinalOnly] {
        let mut s = Session::new(mode, false);
        s.finalize("hello world");
        s.erase();
        s.lines.clear();
        s.finalize("again");
        s.finalize("");
        s.finalize("and again");
        assert_eq!(s.lines, ["type  Again", "type  And again"]);
        assert_eq!(s.buffer, "Hello Again And again");
    }
}
