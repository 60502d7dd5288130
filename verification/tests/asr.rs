use saytype::asr::{
    backend_order, check_models_dir, find_model, find_onnx_preferring_int8, find_zipformer_onnx,
    no_moonshine_message, no_nemotron_message, normalize, outcome_of, polish, strip_marks, Asr,
    AsrKind, BackendChain, BackendSelection, ChainStep, LoadOutcome, ModelDir, StreamingSession,
};
use saytype::onnx::{check_onnx_file, CorruptModel, ModelRead};

fn names(list: &[&str]) -> Vec<String> {
    list.iter().map(|s| s.to_string()).collect()
}

/// A directory whose entries are all files.
fn dir(name: &str, files: &[&str]) -> ModelDir {
    ModelDir {
        name: name.to_string(),
        is_dir: true,
        entries: names(files),
        files: names(files),
    }
}

#[test]
fn polish_without_punct_model_normalizes() {
    // Empty and whitespace-only input.
    assert_eq!(polish(None, ""), "");
    assert_eq!(polish(None, "   \t\n  "), "");
    // Lowercased, surrounding whitespace trimmed, punctuation stripped.
    assert_eq!(polish(None, "  Hello, World!  "), "hello world");
    assert_eq!(polish(None, "STOP; GO: NOW."), "stop go now");
    // Punctuation-only input collapses to nothing.
    assert_eq!(polish(None, "?!...;:"), "");
    // Inner whitespace runs are preserved as-is (single spaces here).
    assert_eq!(polish(None, "a, b"), "a b");
}

#[test]
fn polish_takes_the_models_answer_unless_it_is_blank() {
    assert_eq!(polish(Some("Hello, world."), "HELLO WORLD"), "Hello, world.");
    assert_eq!(polish(Some("  "), "HELLO WORLD"), "hello world");
    assert_eq!(polish(Some(""), "HELLO WORLD"), "hello world");
    // Nothing was said: the model is not asked, and its answer not used.
    assert_eq!(polish(Some("What?"), "  "), "");
}

#[test]
fn normalizing_lowers_beyond_ascii() {
    assert_eq!(normalize(" CAFÉ, NAÏVE! "), "café naïve");
    assert_eq!(normalize("ΑΣ"), "ας");
    assert_eq!(normalize("İ"), "i\u{307}");
    assert_eq!(strip_marks("a,b.c?d!e;f:g-h'i"), "abcdefg-h'i");
}

#[test]
fn find_model_matches_stem_and_model_extension() {
    let d = names(&["encoder_model.onnx", "decoder_model.ort", "encoder_model.txt"]);
    assert_eq!(find_model(&d, "encoder_model"), Some("encoder_model.onnx".to_string()));
    // Stem must be contained in the name.
    assert!(find_model(&d, "decoder").is_some());
    assert!(find_model(&d, "joiner").is_none());
    // Non-existent and empty dirs yield None, not an error.
    assert!(find_model(&Vec::new(), "encoder_model").is_none());
}

#[test]
fn find_zipformer_onnx_requires_epoch_and_prefers_non_int8() {
    let mut d = names(&["encoder-epoch-99.int8.onnx"]);
    // Only int8 present: it is used.
    assert_eq!(
        find_zipformer_onnx(&d, "encoder"),
        Some("encoder-epoch-99.int8.onnx".to_string())
    );
    // Both present: the non-int8 one wins.
    d.push("encoder-epoch-99.onnx".to_string());
    assert_eq!(
        find_zipformer_onnx(&d, "encoder"),
        Some("encoder-epoch-99.onnx".to_string())
    );
    // Files without "epoch" in the name do not match the zipformer layout.
    assert!(find_zipformer_onnx(&names(&["encoder.onnx"]), "encoder").is_none());
}

#[test]
fn find_onnx_preferring_int8_prefers_int8() {
    let mut d = names(&["encoder.onnx"]);
    assert_eq!(find_onnx_preferring_int8(&d, "encoder"), Some("encoder.onnx".to_string()));
    d.push("encoder.int8.onnx".to_string());
    assert_eq!(
        find_onnx_preferring_int8(&d, "encoder"),
        Some("encoder.int8.onnx".to_string())
    );
    // No match (incl. wrong extension) -> None.
    let d2 = names(&["encoder.txt"]);
    assert!(find_onnx_preferring_int8(&d2, "encoder").is_none());
    assert!(find_onnx_preferring_int8(&d2, "joiner").is_none());
}

#[test]
fn of_equally_good_files_the_first_listed_is_taken() {
    let d = names(&["b-encoder.onnx", "a-encoder.onnx", "z-encoder.int8.onnx", "y-encoder.int8.onnx"]);
    assert_eq!(find_model(&d, "encoder"), Some("b-encoder.onnx".to_string()));
    assert_eq!(
        find_onnx_preferring_int8(&d, "encoder"),
        Some("z-encoder.int8.onnx".to_string())
    );
}

#[test]
fn find_moonshine_skips_incomplete_dirs_and_checks_all_parts() {
    // Sorted first, but missing tokens.txt: must be skipped.
    let broken = dir(
        "sherpa-onnx-moonshine-16k-v1-broken",
        &["encoder_model.onnx", "decoder_model_merged.onnx"],
    );
    let mut dirs = vec![broken];
    assert!(Asr::find_moonshine(&dirs).is_none());

    // Complete dir (sorted after the broken one) is found.
    dirs.push(dir(
        "sherpa-onnx-moonshine-16k-v2",
        &["encoder_model.ort", "decoder_model_merged.ort", "tokens.txt"],
    ));
    let p = Asr::find_moonshine(&dirs).expect("complete dir found");
    assert_eq!(dirs[p.dir].name, "sherpa-onnx-moonshine-16k-v2");
    assert_eq!(p.encoder, "encoder_model.ort");
    assert_eq!(p.merged_decoder, "decoder_model_merged.ort");
    assert_eq!(p.tokens, "tokens.txt");

    // A stray top-level file (e.g. silero_vad.onnx) is never a candidate.
    dirs.push(stray("silero_vad.onnx"));
    assert!(Asr::find_moonshine(&dirs).is_some());
}

/// A file among the directories of models.
fn stray(name: &str) -> ModelDir {
    ModelDir { is_dir: false, ..dir(name, &[]) }
}

#[test]
fn names_of_model_directories_end_in_a_suffix() {
    let triple = ["encoder.onnx", "decoder.onnx", "joiner.onnx", "tokens.txt"];
    let nemotron = "sherpa-onnx-nemotron-speech-streaming-en";
    assert!(Asr::find_nemotron(&vec![dir(nemotron, &triple)]).is_none());
    assert!(Asr::find_nemotron(&vec![dir(&format!("{nemotron}glish"), &triple)]).is_none());
    assert!(Asr::find_nemotron(&vec![dir(&format!("{nemotron}-x"), &triple)]).is_some());

    let epochs =
        ["encoder-epoch-1.onnx", "decoder-epoch-1.onnx", "joiner-epoch-1.onnx", "tokens.txt"];
    let zipformer = "sherpa-onnx-streaming-zipformer";
    let resolve = |name: &str| Asr::resolve_zipformer_paths("m", Some(&vec![dir(name, &epochs)]));
    assert!(resolve(zipformer).is_err());
    assert!(resolve(&format!("{zipformer}2")).is_err());
    assert!(resolve(&format!("{zipformer}-en")).is_ok());

    let punct = ["bpe.vocab", "model.onnx"];
    assert!(Asr::find_online_punct(&vec![dir("sherpa-onnx-online-punct", &punct)]).is_none());
    assert!(Asr::find_online_punct(&vec![dir("sherpa-onnx-online-punct-en", &punct)]).is_some());
}

#[test]
fn only_directories_named_for_it_hold_moonshine() {
    let files = ["encoder_model.ort", "decoder_model_merged.ort", "tokens.txt"];
    assert!(Asr::find_moonshine(&vec![dir("my-models", &files)]).is_none());
    assert!(Asr::find_moonshine(&vec![dir("sherpa-onnx-moonshine", &files)]).is_none());
    assert!(Asr::find_moonshine(&vec![dir("sherpa-onnx-moonshine-tiny", &files)]).is_some());
    let file = ModelDir { is_dir: false, ..dir("sherpa-onnx-moonshine-tiny", &files) };
    assert!(Asr::find_moonshine(&vec![file]).is_none());
}

#[test]
fn find_online_punct_prefers_int8_and_requires_vocab() {
    let mut dirs = vec![dir("sherpa-onnx-online-punct-en", &["bpe.vocab", "model.onnx"])];
    let p = Asr::find_online_punct(&dirs).expect("fp32 model found");
    assert_eq!(p.model, "model.onnx");
    // int8 appears and takes priority.
    dirs[0] = dir(
        "sherpa-onnx-online-punct-en",
        &["bpe.vocab", "model.onnx", "model.int8.onnx"],
    );
    let p = Asr::find_online_punct(&dirs).expect("int8 model found");
    assert_eq!(p.model, "model.int8.onnx");
    assert_eq!(p.vocab, "bpe.vocab");

    // Missing vocab disqualifies a dir; wrong dir prefix is ignored.
    dirs.push(dir("sherpa-onnx-online-punct-en2", &["model.int8.onnx"]));
    dirs.push(dir("punct-model", &["bpe.vocab", "model.int8.onnx"]));
    let p = Asr::find_online_punct(&dirs).expect("first good dir still wins");
    assert_eq!(dirs[p.dir].name, "sherpa-onnx-online-punct-en");

    let only = vec![dir("sherpa-onnx-online-punct-en", &["model.int8.onnx"])];
    assert!(Asr::find_online_punct(&only).is_none());
}

#[test]
fn find_nemotron_requires_triple_and_tokens() {
    // Sorted first but missing the joiner: skipped.
    let mut dirs = vec![dir(
        "sherpa-onnx-nemotron-speech-streaming-en-0.6b-broken",
        &["encoder.int8.onnx", "decoder.int8.onnx", "tokens.txt"],
    )];
    assert!(Asr::find_nemotron(&dirs).is_none());

    // Complete dir is found and the int8 variants are picked.
    dirs.push(dir(
        "sherpa-onnx-nemotron-speech-streaming-en-0.6b",
        &[
            "encoder.onnx",
            "encoder.int8.onnx",
            "decoder.int8.onnx",
            "joiner.int8.onnx",
            "tokens.txt",
        ],
    ));
    let p = Asr::find_nemotron(&dirs).expect("complete dir found");
    assert_eq!(dirs[p.dir].name, "sherpa-onnx-nemotron-speech-streaming-en-0.6b");
    assert_eq!(p.encoder, "encoder.int8.onnx");
    assert_eq!(p.decoder, "decoder.int8.onnx");
    assert_eq!(p.joiner, "joiner.int8.onnx");

    // A non-matching dir prefix is never a candidate.
    let other = vec![dir(
        "my-nemotron-copy",
        &["encoder.int8.onnx", "decoder.int8.onnx", "joiner.int8.onnx", "tokens.txt"],
    )];
    assert!(Asr::find_nemotron(&other).is_none());
}

#[test]
fn resolve_zipformer_paths_ok_and_error() {
    // No matching dir at all: Err with a helpful message.
    let err = Asr::resolve_zipformer_paths("\"/m\"", Some(&Vec::new())).unwrap_err();
    assert!(err.contains("no ASR model found"), "unexpected error: {err}");
    assert_eq!(
        err,
        "no ASR model found under \"/m\". Expected a sherpa-onnx-moonshine-* \
         directory (encoder_model.*, decoder_model_merged.*, tokens.txt) or a \
         sherpa-onnx-streaming-zipformer-* directory (encoder/decoder/joiner \
         *epoch*.onnx, tokens.txt). Run scripts/download-models.sh first."
    );
    // A models dir that cannot be read.
    let err = Asr::resolve_zipformer_paths("\"/m\"", None).unwrap_err();
    assert_eq!(err, "reading models dir \"/m\"");

    // Complete dir resolves with the epoch-tagged files.
    let dirs = vec![dir(
        "sherpa-onnx-streaming-zipformer-bilingual-zh-en-2023-02-20",
        &[
            "encoder-epoch-99-avg-1.onnx",
            "decoder-epoch-99-avg-1.onnx",
            "joiner-epoch-99-avg-1.onnx",
            "tokens.txt",
        ],
    )];
    let p = Asr::resolve_zipformer_paths("\"/m\"", Some(&dirs)).expect("complete dir resolves");
    assert_eq!(p.dir, 0);
    assert_eq!(p.encoder, "encoder-epoch-99-avg-1.onnx");
    assert_eq!(p.decoder, "decoder-epoch-99-avg-1.onnx");
    assert_eq!(p.joiner, "joiner-epoch-99-avg-1.onnx");
    assert_eq!(p.tokens, "tokens.txt");
}

#[test]
fn the_first_complete_dir_by_name_is_taken() {
    let files = ["encoder.onnx", "decoder.onnx", "joiner.onnx", "tokens.txt"];
    let prefix = "sherpa-onnx-nemotron-speech-streaming-en";
    let dirs = vec![
        dir(&format!("{prefix}-c"), &files),
        dir(&format!("{prefix}-a"), &files[..3]),
        dir(&format!("{prefix}-b"), &files),
        dir(&format!("{prefix}-d"), &files),
    ];
    assert_eq!(Asr::find_nemotron(&dirs).unwrap().dir, 2);
}

#[test]
fn tokens_must_be_a_file() {
    let name = "sherpa-onnx-moonshine-16k-v2";
    let mut d = dir(name, &["encoder_model.onnx", "decoder_model_merged.onnx"]);
    d.entries.push("tokens.txt".to_string());
    assert!(Asr::find_moonshine(&vec![d.clone()]).is_none());
    d.files.push("tokens.txt".to_string());
    assert!(Asr::find_moonshine(&vec![d]).is_some());
}

/// Why no backend was loaded.
#[derive(Debug, PartialEq, Eq)]
enum NoBackend {
    Unusable(String),
    Corrupt(String, CorruptModel),
}

/// Tries backends until one loads or none is left.
fn load(selection: BackendSelection, outcome: impl Fn(AsrKind) -> LoadOutcome) -> Result<AsrKind, NoBackend> {
    let mut chain = BackendChain::new(selection);
    let mut kind = chain.current();
    loop {
        match chain.report(outcome(kind)) {
            ChainStep::Try(next) => {
                assert_eq!(chain.current(), next);
                kind = next;
            }
            ChainStep::Use(kind) => return Ok(kind),
            ChainStep::Fail(why) => return Err(NoBackend::Unusable(why)),
            ChainStep::Corrupt { context, mark } => return Err(NoBackend::Corrupt(context, mark)),
        }
    }
}

const SELECTIONS: [BackendSelection; 4] = [
    BackendSelection::Auto,
    BackendSelection::Streaming,
    BackendSelection::Zipformer,
    BackendSelection::Moonshine,
];

#[test]
fn asr_new_without_models_errors_for_every_selection() {
    // Auto walks the whole fallback chain (nemotron -> zipformer ->
    // moonshine) and only then reports failure.
    let dirs: Vec<ModelDir> = Vec::new();
    for selection in SELECTIONS {
        let err = load(selection, |kind| match kind {
            AsrKind::Nemotron => {
                assert!(Asr::find_nemotron(&dirs).is_none());
                LoadOutcome::Unusable(no_nemotron_message("\"/m\""))
            }
            AsrKind::Zipformer => LoadOutcome::Unusable(
                Asr::resolve_zipformer_paths("\"/m\"", Some(&dirs)).unwrap_err(),
            ),
            AsrKind::Moonshine => {
                assert!(Asr::find_moonshine(&dirs).is_none());
                LoadOutcome::Unusable(no_moonshine_message("\"/m\""))
            }
        })
        .unwrap_err();
        let NoBackend::Unusable(err) = err else {
            panic!("no model is corrupt");
        };
        assert!(!err.is_empty(), "{selection:?} should error on an empty models dir");
    }
}

/// Loads with only one backend there.
fn load_only(selection: BackendSelection, there: AsrKind) -> Result<AsrKind, NoBackend> {
    load(selection, |kind| {
        if kind == there {
            LoadOutcome::Loaded
        } else {
            LoadOutcome::Unusable(format!("no {kind:?}"))
        }
    })
}

#[test]
fn backends_fall_back_in_the_documented_order() {
    let (nemotron, zipformer, moonshine) = (AsrKind::Nemotron, AsrKind::Zipformer, AsrKind::Moonshine);
    assert_eq!(backend_order(BackendSelection::Auto), [nemotron, zipformer, moonshine]);
    assert_eq!(load(BackendSelection::Auto, |_| LoadOutcome::Loaded), Ok(nemotron));
    assert_eq!(load_only(BackendSelection::Auto, zipformer), Ok(zipformer));
    assert_eq!(load_only(BackendSelection::Auto, moonshine), Ok(moonshine));
    assert_eq!(load_only(BackendSelection::Streaming, nemotron), Ok(nemotron));
    assert_eq!(load_only(BackendSelection::Streaming, zipformer), Ok(zipformer));
    assert_eq!(
        load_only(BackendSelection::Streaming, moonshine),
        Err(NoBackend::Unusable("no Zipformer".to_string()))
    );
    assert_eq!(
        load_only(BackendSelection::Zipformer, nemotron),
        Err(NoBackend::Unusable("no Zipformer".to_string()))
    );
    assert_eq!(
        load_only(BackendSelection::Moonshine, nemotron),
        Err(NoBackend::Unusable("no Moonshine".to_string()))
    );
    assert_eq!(load_only(BackendSelection::Moonshine, moonshine), Ok(moonshine));
}

#[test]
fn corrupt_model_is_a_hard_error_and_no_reason_to_fall_back() {
    let error = check_onnx_file("/m/e.onnx", "Nemotron encoder", ModelRead::Read(false)).unwrap_err();
    let said = error.message();
    let corrupt = outcome_of(error);
    assert_eq!(corrupt, LoadOutcome::Corrupt(said.clone()));
    let got = load(BackendSelection::Auto, |kind| match kind {
        AsrKind::Nemotron => corrupt.clone(),
        _ => LoadOutcome::Loaded,
    });
    assert_eq!(got, Err(NoBackend::Corrupt(said, CorruptModel)));
    // One that cannot be opened is passed over.
    let error = check_onnx_file("/m/e.onnx", "Nemotron encoder", ModelRead::NotOpened("x".into())).unwrap_err();
    let unusable = outcome_of(error);
    let got = load(BackendSelection::Auto, |kind| match kind {
        AsrKind::Nemotron => unusable.clone(),
        _ => LoadOutcome::Loaded,
    });
    assert_eq!(got, Ok(AsrKind::Zipformer));
}

#[test]
fn output_policy_per_backend() {
    let raw = " HELLO, World ";
    let answer = Some("Hello, world.");
    // Zipformer: always lowercased, punctuated where the model is there.
    assert_eq!(Asr::new(AsrKind::Zipformer, false).transcribe(raw, None), "hello world");
    assert_eq!(Asr::new(AsrKind::Zipformer, true).transcribe(raw, answer), "Hello, world.");
    assert_eq!(Asr::new(AsrKind::Zipformer, true).transcribe(raw, None), "hello world");
    // Nemotron: native without the model, polished with it.
    assert_eq!(Asr::new(AsrKind::Nemotron, false).transcribe(raw, answer), "HELLO, World");
    assert_eq!(Asr::new(AsrKind::Nemotron, true).transcribe(raw, answer), "Hello, world.");
    // Moonshine: never post-processed.
    assert_eq!(Asr::new(AsrKind::Moonshine, true).transcribe(raw, answer), "HELLO, World");
}

#[test]
fn streaming_sessions_share_the_policy() {
    assert!(Asr::new(AsrKind::Moonshine, true).streaming_session().is_none());
    for kind in [AsrKind::Nemotron, AsrKind::Zipformer] {
        for punct in [false, true] {
            let asr = Asr::new(kind, punct);
            assert_eq!(asr.kind(), kind);
            assert!(asr.is_streaming());
            let session = asr.streaming_session().expect("streams");
            for raw in ["", "  ", " HELLO, World "] {
                for answer in [None, Some(""), Some("Hello, world.")] {
                    assert_eq!(session.finish(raw, answer), asr.transcribe(raw, answer));
                }
                let query = session.query(raw);
                if punct && !raw.trim().is_empty() {
                    assert_eq!(query, Some("hello world".to_string()));
                } else {
                    assert_eq!(query, None);
                }
            }
        }
    }
    assert_eq!(StreamingSession::new(false, false).finish(" A. ", None), "A.");
}

#[test]
fn check_models_dir_reports_missing_dir() {
    let err = check_models_dir("\"/tmp/no-such-dir\"", false).unwrap_err();
    assert!(err.contains("no-such-dir"), "unexpected error: {err}");
    assert_eq!(
        err,
        "models directory not found at \"/tmp/no-such-dir\". Run scripts/download-models.sh first."
    );
    assert!(check_models_dir("\"/tmp\"", true).is_ok());
}

#[test]
fn missing_model_messages() {
    assert_eq!(
        no_moonshine_message("\"/m\""),
        "no Moonshine model found under \"/m\" (a sherpa-onnx-moonshine-* dir with encoder_model.*, decoder_model_merged.*, tokens.txt)"
    );
    assert_eq!(
        no_nemotron_message("\"/m\""),
        "no Nemotron streaming model found under \"/m\" (a sherpa-onnx-nemotron-speech-streaming-en-* dir with encoder/decoder/joiner *.onnx + tokens.txt)"
    );
}
