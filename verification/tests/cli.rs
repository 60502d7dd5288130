use saytype::asr::BackendSelection;
use saytype::cli::{
    asr_value_message, check_wav, command_args, daemon_options, first_argument, offline_step,
    parse_asr_selection, parse_asr_value, parse_command, parse_typing_mode, resolve_models_dir,
    text_argument, wav_options, Candidate, CliError, Command, CommitNote, OfflineStep, Replay,
    VadTally, WavState, DEFAULT_MODELS_DIR, MODELS_DIR_VAR,
};
use saytype::daemon::TypingMode;
use saytype::vad::check_model_file;

#[test]
fn defaults_to_deferred() {
    let args: Vec<String> = vec![];
    assert_eq!(parse_typing_mode(&args), TypingMode::Deferred);
}

#[test]
fn live_typing_flag_selects_live() {
    let args: Vec<String> = vec!["--live-typing".to_string()];
    assert_eq!(parse_typing_mode(&args), TypingMode::Live);
}

#[test]
fn no_live_typing_flag_selects_final_only() {
    let args: Vec<String> = vec!["--no-live-typing".to_string()];
    assert_eq!(parse_typing_mode(&args), TypingMode::FinalOnly);
}

#[test]
fn parse_asr_value_maps_all_valid_backends() {
    assert_eq!(
        parse_asr_value("streaming"),
        Some(BackendSelection::Streaming)
    );
    assert_eq!(
        parse_asr_value("zipformer"),
        Some(BackendSelection::Zipformer)
    );
    assert_eq!(
        parse_asr_value("moonshine"),
        Some(BackendSelection::Moonshine)
    );
    assert_eq!(parse_asr_value("auto"), Some(BackendSelection::Auto));
}

#[test]
fn parse_asr_value_rejects_unknown_and_malformed_values() {
    for bad in [
        "",
        "STREAMING",
        "auto ",
        " streaming",
        "nemotron",
        "vad",
        "auto/streaming",
    ] {
        assert_eq!(
            parse_asr_value(bad),
            None,
            "expected {bad:?} to be rejected"
        );
    }
}

#[test]
fn parse_asr_selection_extracts_selection_and_keeps_positionals() {
    let args: Vec<String> = vec!["--asr".into(), "streaming".into(), "file.wav".into()];
    let (rest, selection) = parse_asr_selection(&args).unwrap();
    assert_eq!(selection, BackendSelection::Streaming);
    assert_eq!(rest, vec!["file.wav".to_string()]);
}

#[test]
fn parse_asr_selection_defaults_to_auto_when_flag_absent() {
    let (rest, selection) = parse_asr_selection(&Vec::new()).unwrap();
    assert_eq!(selection, BackendSelection::Auto);
    assert!(rest.is_empty());
}

#[test]
fn parse_asr_selection_repeated_flags_are_last_wins() {
    // A repeated `--asr` flag is accepted, and the last occurrence's value
    // decides (not the first, not "any valid one") - both orders pinned so
    // a future refactor cannot silently flip the precedence.
    let args: Vec<String> = vec![
        "--asr".into(),
        "auto".into(),
        "--asr".into(),
        "moonshine".into(),
        "file.wav".into(),
    ];
    let (rest, selection) = parse_asr_selection(&args).unwrap();
    assert_eq!(selection, BackendSelection::Moonshine);
    assert_eq!(rest, vec!["file.wav".to_string()]);

    let args: Vec<String> = vec![
        "--asr".into(),
        "moonshine".into(),
        "--asr".into(),
        "auto".into(),
        "file.wav".into(),
    ];
    let (rest, selection) = parse_asr_selection(&args).unwrap();
    assert_eq!(selection, BackendSelection::Auto);
    assert_eq!(rest, vec!["file.wav".to_string()]);
}

fn strings(list: &[&str]) -> Vec<String> {
    list.iter().map(|s| s.to_string()).collect()
}

#[test]
fn commands_and_their_arguments() {
    let cases: [(&[&str], Command, &[&str]); 9] = [
        (&["saytype"], Command::Daemon, &[]),
        (&["saytype", "--transcribe", "a.wav"], Command::Transcribe, &["a.wav"]),
        (&["saytype", "--vad-test", "a.wav"], Command::VadTest, &["a.wav"]),
        (&["saytype", "--stream-test"], Command::StreamTest, &[]),
        (&["saytype", "--paste-test", "x", "y"], Command::PasteTest, &["x", "y"]),
        (&["saytype", "--help"], Command::Help, &[]),
        (&["saytype", "-h"], Command::Help, &[]),
        (&["saytype", "--asr", "auto"], Command::Daemon, &["--asr", "auto"]),
        (&["saytype", "transcribe", "x"], Command::Unknown, &["x"]),
    ];
    for (args, command, rest) in cases {
        let args = strings(args);
        assert_eq!(parse_command(&args), command);
        assert_eq!(command_args(&args), strings(rest));
    }
    assert_eq!(command_args(&Vec::new()), strings(&[]));
}

#[test]
fn asr_flag_without_a_value_is_an_error() {
    assert_eq!(parse_asr_selection(&strings(&["--asr"])), Err(CliError::AsrValue));
    assert_eq!(parse_asr_selection(&strings(&["x", "--asr", ""])), Err(CliError::AsrValue));
    assert_eq!(parse_asr_selection(&strings(&["--asr", "--asr"])), Err(CliError::AsrValue));
    assert_eq!(
        asr_value_message(),
        "--asr expects auto, streaming, zipformer, or moonshine"
    );
}

#[test]
fn live_typing_wins_over_no_live_typing() {
    for args in [["--live-typing", "--no-live-typing"], ["--no-live-typing", "--live-typing"]] {
        assert_eq!(parse_typing_mode(&strings(&args)), TypingMode::Live);
    }
}

#[test]
fn daemon_takes_flags_and_no_positionals() {
    assert_eq!(
        daemon_options(&strings(&["--no-live-typing", "--asr", "zipformer"])),
        Ok((BackendSelection::Zipformer, TypingMode::FinalOnly))
    );
    assert_eq!(
        daemon_options(&Vec::new()),
        Ok((BackendSelection::Auto, TypingMode::Deferred))
    );
    assert_eq!(
        daemon_options(&strings(&["--live-typing", "extra", "--bogus"])),
        Err(CliError::Positional("extra".to_string()))
    );
    assert_eq!(
        daemon_options(&strings(&["--bogus"])),
        Err(CliError::Positional("--bogus".to_string()))
    );
    assert_eq!(
        daemon_options(&strings(&["extra", "--asr", "nemotron"])),
        Err(CliError::AsrValue)
    );
}

#[test]
fn offline_commands_need_an_argument() {
    assert_eq!(
        wav_options(&strings(&["--asr", "moonshine"]), "usage"),
        Err(CliError::Usage("usage".to_string()))
    );
    assert_eq!(
        wav_options(&strings(&["a.wav", "--asr", "moonshine", "b.wav"]), "usage"),
        Ok(("a.wav".to_string(), BackendSelection::Moonshine))
    );
    assert_eq!(
        wav_options(&strings(&["a.wav", "--asr"]), "usage"),
        Err(CliError::AsrValue)
    );
    assert_eq!(first_argument(&Vec::new(), "u"), Err(CliError::Usage("u".to_string())));
    assert_eq!(first_argument(&strings(&["a.wav", "b"]), "u"), Ok("a.wav".to_string()));
    assert_eq!(text_argument(&Vec::new(), "u"), Err(CliError::Usage("u".to_string())));
    assert_eq!(text_argument(&strings(&["two", "words"]), "u"), Ok("two words".to_string()));
    assert_eq!(text_argument(&strings(&[""]), "u"), Ok(String::new()));
}

fn candidate(path: &'static str, is_dir: bool) -> Option<Candidate<&'static str>> {
    Some(Candidate { path, is_dir })
}

#[test]
fn cwd_models_dir_wins_when_present() {
    assert_eq!(resolve_models_dir(candidate("/cwd/models", true), None), Some("/cwd/models"));
}

#[test]
fn exe_models_dir_used_when_cwd_has_no_models() {
    // CWD exists but has no models/ subdir - must fall through to the exe dir.
    assert_eq!(
        resolve_models_dir(candidate("/cwd/models", false), candidate("/exe/models", true)),
        Some("/exe/models")
    );
}

#[test]
fn cwd_models_dir_takes_precedence_over_exe() {
    assert_eq!(
        resolve_models_dir(candidate("/cwd/models", true), candidate("/exe/models", true)),
        Some("/cwd/models")
    );
}

#[test]
fn falls_back_to_literal_models_when_neither_exists() {
    // CWD present without models/, exe dir missing entirely.
    assert_eq!(
        resolve_models_dir(candidate("/cwd/models", false), None).unwrap_or(DEFAULT_MODELS_DIR),
        "models"
    );
    // Both inputs missing fall back the same way.
    assert_eq!(resolve_models_dir::<&str>(None, None), None);
    assert_eq!(MODELS_DIR_VAR, "SAYTYPE_MODELS_DIR");
}

/// The start of an offline check without any models, on a WAV file that reads
/// as `wav`: what it says when it ends.
fn start_check(shown: &str, wav: WavState) -> String {
    let mut state = WavState::NotRead;
    loop {
        match offline_step(shown, state) {
            OfflineStep::ReadWav => {
                assert_eq!(state, WavState::NotRead);
                state = wav;
            }
            OfflineStep::LoadModels => {
                return check_model_file("\"silero_vad.onnx\"", false).unwrap_err()
            }
            OfflineStep::Fail(e) => return e,
        }
    }
}

#[test]
fn wrong_rate_wav_is_rejected_before_any_model_load() {
    let stderr = start_check("\"bad.wav\"", WavState::Rate(24000));
    assert_eq!(stderr, "expected a 16 kHz WAV, got 24000 Hz");
    assert!(!stderr.contains("VAD model not found"));
    assert_eq!(start_check("\"bad.wav\"", WavState::Rate(-1)), "expected a 16 kHz WAV, got -1 Hz");
    assert!(start_check("\"good.wav\"", WavState::Rate(16000)).contains("VAD model not found"));
}

#[test]
fn missing_wav_is_reported_cleanly() {
    assert_eq!(
        start_check("\"nope.wav\"", WavState::Unreadable),
        "cannot read WAV \"nope.wav\""
    );
    assert_eq!(
        check_wav("\"nope.wav\"", None),
        Err("cannot read WAV \"nope.wav\"".to_string())
    );
}

#[test]
fn detected_segments_are_tallied() {
    let mut t = VadTally::new();
    t.record(1600);
    t.record(400);
    assert_eq!(t, VadTally { segments: 2, samples: 2000 });
}

#[test]
fn replay_shows_changed_partials_and_finals() {
    let mut r = Replay::new();
    // No hypothesis yet is no change.
    assert!(!r.on_partial(""));
    assert!(r.on_partial("hello"));
    assert!(!r.on_partial("hello"));
    assert!(r.on_partial("hello world"));
    // A blip is committed, and nothing is shown of it.
    assert_eq!(r.on_commit(1599, "hello world"), CommitNote::Silent);
    assert!(!r.on_partial("hello world"));
    assert_eq!(r.on_commit(1600, "hello world"), CommitNote::SameAsPartial);
    assert_eq!(r.on_commit(16000, "again"), CommitNote::PartialWas(String::new()));
    assert!(r.on_partial("next"));
    // A final without words is not shown, and the partial stays.
    assert_eq!(r.on_commit(1600, ""), CommitNote::Silent);
    assert!(!r.on_partial("next"));
    assert_eq!(r.on_commit(1600, "next one"), CommitNote::PartialWas("next".to_string()));
    assert_eq!((r.partials(), r.commits()), (3, 3));
}

#[test]
fn replay_of_a_blip_leaves_the_counters_alone() {
    let mut r = Replay::new();
    assert_eq!(r.on_commit(800, "noise"), CommitNote::Silent);
    assert_eq!((r.partials(), r.commits()), (0, 0));
    assert_eq!(r.on_commit(0, ""), CommitNote::Silent);
    assert_eq!(r.commits(), 0);
}
