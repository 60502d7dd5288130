use saytype::asr::AsrKind;
use saytype::daemon::{
    check_models, is_blip, pipeline_for, Engine, EngineAction, EngineCmd, EngineEvent,
    InjectorInput, Pipeline, SessionPlan, StopPlan, StopStep, ToggleGate, TypingMode, BUS_NAME,
    INTERFACE_NAME, NANOS_PER_MS, OBJECT_PATH, TOGGLE_DEBOUNCE_MS,
};

#[test]
fn bus_names_are_the_documented_ones() {
    assert_eq!(BUS_NAME, "io.saytype.Dictate");
    assert_eq!(OBJECT_PATH, "/io/saytype/Dictate");
    assert_eq!(INTERFACE_NAME, "io.saytype.Dictate1");
}

/// A burst of toggles (one per physical key repeat) counts once, and repeats
/// do not extend the window past the last accepted toggle.
#[test]
fn toggle_debounces_auto_repeat_bursts() {
    let ms = |n: u64| n * NANOS_PER_MS;
    let mut gate = ToggleGate::new();
    assert!(gate.accept(ms(5)));
    assert!(!gate.accept(ms(6)));
    assert!(!gate.accept(ms(300)));
    assert!(!gate.accept(ms(5 + TOGGLE_DEBOUNCE_MS) - 1));
    assert!(gate.accept(ms(5 + TOGGLE_DEBOUNCE_MS)));
    assert!(!gate.accept(ms(5 + TOGGLE_DEBOUNCE_MS)));
}

#[test]
fn idle_engine_ignores_all_but_a_toggle() {
    let mut e = Engine::new(AsrKind::Nemotron, TypingMode::Live);
    assert!(!e.is_recording());
    assert_eq!(e.command(EngineCmd::Stop), EngineAction::Nothing);
    assert_eq!(e.command(EngineCmd::Erase), EngineAction::Nothing);
    assert_eq!(e.command(EngineCmd::Undo), EngineAction::Nothing);
    assert_eq!(e.command(EngineCmd::Toggle), EngineAction::Start);
    assert_eq!(e.erase_last(), None);
    assert_eq!(e.undo_last(), None);
    assert!(e.stop().is_none());
}

#[test]
fn recording_engine_forwards_commands_and_refuses_a_second_start() {
    let mut e = Engine::new(AsrKind::Zipformer, TypingMode::FinalOnly);
    assert_eq!(
        e.start(),
        Ok(SessionPlan {
            pipeline: Pipeline::Streaming,
            mode: TypingMode::FinalOnly,
            streaming: true
        })
    );
    assert_eq!(e.started(), EngineEvent::StateChanged("Recording".into()));
    assert!(e.is_recording());
    assert_eq!(e.start(), Err("already recording".to_string()));
    assert_eq!(e.command(EngineCmd::Toggle), EngineAction::Stop);
    assert_eq!(e.command(EngineCmd::Stop), EngineAction::Stop);
    assert_eq!(
        e.command(EngineCmd::Erase),
        EngineAction::Forward(InjectorInput::Erase)
    );
    assert_eq!(
        e.command(EngineCmd::Undo),
        EngineAction::Forward(InjectorInput::Undo)
    );
}

fn steps(plan: &mut StopPlan, finished: &[bool]) -> Vec<StopStep> {
    let mut out = Vec::new();
    let mut last = true;
    for f in finished {
        match plan.next(last) {
            Some(step) => out.push(step),
            None => break,
        }
        last = *f;
    }
    out
}

#[test]
fn streaming_session_drains_in_order_and_ends_idle() {
    let mut e = Engine::new(AsrKind::Nemotron, TypingMode::Deferred);
    e.started();
    let mut plan = e.stop().expect("a session was open");
    assert!(!e.is_recording());
    assert_eq!(
        steps(&mut plan, &[true; 8]),
        vec![
            StopStep::StopCapture(5),
            StopStep::AwaitStream(60),
            StopStep::AwaitInjector(12),
            StopStep::Finish { join: true },
        ]
    );
    assert_eq!(plan.next(true), None);
    assert_eq!(StopPlan::closing_event(), EngineEvent::StateChanged("Idle".into()));
}

#[test]
fn batch_session_waits_for_both_tasks() {
    let mut e = Engine::new(AsrKind::Moonshine, TypingMode::Deferred);
    assert!(!e.start().unwrap().streaming);
    e.started();
    let mut plan = e.stop().unwrap();
    assert_eq!(
        steps(&mut plan, &[true; 8]),
        vec![
            StopStep::StopCapture(5),
            StopStep::AwaitVad(5),
            StopStep::AwaitAsr(60),
            StopStep::AwaitInjector(12),
            StopStep::Finish { join: true },
        ]
    );
}

#[test]
fn wedged_capture_thread_is_not_joined() {
    let mut e = Engine::new(AsrKind::Zipformer, TypingMode::Live);
    e.started();
    let mut plan = e.stop().unwrap();
    // The capture thread does not exit in time; the rest does.
    let got = steps(&mut plan, &[false, true, true, true]);
    assert_eq!(got.last(), Some(&StopStep::Finish { join: false }));
}

#[test]
fn pipelines_follow_the_backend() {
    assert_eq!(pipeline_for(AsrKind::Nemotron), Pipeline::Streaming);
    assert_eq!(pipeline_for(AsrKind::Zipformer), Pipeline::Streaming);
    assert_eq!(pipeline_for(AsrKind::Moonshine), Pipeline::Batch { ring: 30 * 16000 });
}

#[test]
fn blips_are_under_a_tenth_of_a_second() {
    assert!(is_blip(0));
    assert!(is_blip(1599));
    assert!(!is_blip(1600));
}

#[test]
fn missing_models_are_reported_detector_first() {
    assert_eq!(check_models("\"v\"", true, "\"d\"", true), Ok(()));
    assert_eq!(
        check_models("\"v\"", false, "\"d\"", false),
        Err("VAD model not found at \"v\". Run scripts/download-models.sh first.".to_string())
    );
    assert_eq!(
        check_models("\"v\"", true, "\"d\"", false),
        Err("models directory not found at \"d\". Run scripts/download-models.sh first.".to_string())
    );
}
