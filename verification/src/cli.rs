//! The command line: which command is meant, and with which options.
use vstd::prelude::*;
use vstd::string::*;

use crate::asr::BackendSelection;
use crate::audio::SAMPLE_RATE;
use crate::daemon;
use crate::daemon::TypingMode;
use crate::text;

verus! {

/// What the program is asked to do.
#[derive(Debug, Clone, Copy, PartialEq, Eq, Structural)]
pub enum Command {
    /// Transcribe a WAV file.
    Transcribe,
    /// Detect speech in a WAV file.
    VadTest,
    /// Replay a WAV file through the streaming pipeline.
    StreamTest,
    /// Paste a text into the focused window.
    PasteTest,
    Help,
    /// Run the daemon.
    Daemon,
    /// Nothing that is known.
    Unknown,
}

/// Which command the arguments, the program's name first, ask for. Any other
/// flag is one of the daemon's.
pub open spec fn command(args: Seq<Seq<char>>) -> Command {
    if args.len() < 2 {
        Command::Daemon
    } else if args[1] == "--transcribe"@ {
        Command::Transcribe
    } else if args[1] == "--vad-test"@ {
        Command::VadTest
    } else if args[1] == "--stream-test"@ {
        Command::StreamTest
    } else if args[1] == "--paste-test"@ {
        Command::PasteTest
    } else if args[1] == "--help"@ || args[1] == "-h"@ {
        Command::Help
    } else if text::starts_with(args[1], "--"@) {
        Command::Daemon
    } else {
        Command::Unknown
    }
}

/// Which command the arguments, the program's name first, ask for.
pub fn parse_command(args: &Vec<String>) -> (c: Command)
    ensures
        c == command(text::views(args@)),
{
    if args.len() < 2 {
        return Command::Daemon;
    }
    let arg = args[1].as_str();
    assert(text::views(args@)[1] == arg@);
    if text::same_text(arg, "--transcribe") {
        Command::Transcribe
    } else if text::same_text(arg, "--vad-test") {
        Command::VadTest
    } else if text::same_text(arg, "--stream-test") {
        Command::StreamTest
    } else if text::same_text(arg, "--paste-test") {
        Command::PasteTest
    } else if text::same_text(arg, "--help") || text::same_text(arg, "-h") {
        Command::Help
    } else if text::has_prefix(arg, "--") {
        Command::Daemon
    } else {
        Command::Unknown
    }
}

/// The arguments of a command: those behind the program's name, and behind the
/// command where it is named.
pub fn command_args(args: &Vec<String>) -> (rest: Vec<String>)
    ensures
        text::views(rest@) == {
            let all = text::views(args@);
            let from = if command(all) is Daemon {
                1int
            } else {
                2int
            };
            if from <= all.len() {
                all.skip(from)
            } else {
                Seq::empty()
            }
        },
{
    let from: usize = if matches!(parse_command(args), Command::Daemon) {
        1
    } else {
        2
    };
    let ghost all = text::views(args@);
    let mut rest: Vec<String> = Vec::new();
    if from > args.len() {
        assert(text::views(rest@) =~= Seq::<Seq<char>>::empty());
        return rest;
    }
    let mut i: usize = from;
    assert(text::views(rest@) =~= all.subrange(from as int, from as int));
    while i < args.len()
        invariant
            all == text::views(args@),
            from <= i <= args@.len(),
            text::views(rest@) == all.subrange(from as int, i as int),
        decreases args@.len() - i,
    {
        let ghost before = rest@;
        rest.push(args[i].clone());
        assert(text::views(rest@) =~= text::views(before).push(all[i as int]));
        assert(all.subrange(from as int, i + 1) =~= all.subrange(from as int, i as int).push(
            all[i as int],
        ));
        i += 1;
    }
    assert(all.subrange(from as int, args@.len() as int) =~= all.skip(from as int));
    rest
}

/// When text is typed, by the flags among the arguments: `--live-typing` over
/// `--no-live-typing`, and without either nothing until the session stops.
pub open spec fn typing_mode(args: Seq<Seq<char>>) -> TypingMode {
    if args.contains("--live-typing"@) {
        TypingMode::Live
    } else if args.contains("--no-live-typing"@) {
        TypingMode::FinalOnly
    } else {
        TypingMode::Deferred
    }
}

/// When text is typed, by the flags among the arguments.
pub fn parse_typing_mode(args: &Vec<String>) -> (m: TypingMode)
    ensures
        m == typing_mode(text::views(args@)),
{
    if text::has_text(args, "--live-typing") {
        TypingMode::Live
    } else if text::has_text(args, "--no-live-typing") {
        TypingMode::FinalOnly
    } else {
        TypingMode::Deferred
    }
}

/// The backend that a value of `--asr` selects.
pub open spec fn asr_value(value: Seq<char>) -> Option<BackendSelection> {
    if value == "streaming"@ {
        Some(BackendSelection::Streaming)
    } else if value == "zipformer"@ {
        Some(BackendSelection::Zipformer)
    } else if value == "moonshine"@ {
        Some(BackendSelection::Moonshine)
    } else if value == "auto"@ {
        Some(BackendSelection::Auto)
    } else {
        None
    }
}

/// The backend that a value of `--asr` selects, or `None` for anything that is
/// no backend's name.
pub fn parse_asr_value(value: &str) -> (r: Option<BackendSelection>)
    ensures
        r == asr_value(value@),
{
    if text::same_text(value, "streaming") {
        Some(BackendSelection::Streaming)
    } else if text::same_text(value, "zipformer") {
        Some(BackendSelection::Zipformer)
    } else if text::same_text(value, "moonshine") {
        Some(BackendSelection::Moonshine)
    } else if text::same_text(value, "auto") {
        Some(BackendSelection::Auto)
    } else {
        None
    }
}

/// The arguments without `--asr <value>`, and the backend that they select,
/// which is `sofar` where they select none. `None` where a value is missing or
/// no backend's name.
pub open spec fn asr_selection(args: Seq<Seq<char>>, sofar: BackendSelection) -> Option<
    (Seq<Seq<char>>, BackendSelection),
>
    decreases args.len(),
{
    if args.len() == 0 {
        Some((Seq::empty(), sofar))
    } else if args[0] == "--asr"@ {
        if args.len() < 2 {
            None
        } else {
            match asr_value(args[1]) {
                Some(s) => asr_selection(args.skip(2), s),
                None => None,
            }
        }
    } else {
        match asr_selection(args.skip(1), sofar) {
            Some((rest, s)) => Some((seq![args[0]] + rest, s)),
            None => None,
        }
    }
}

/// What is wrong with the arguments.
#[derive(Debug, Clone, PartialEq, Eq)]
pub enum CliError {
    /// The value of `--asr` is missing or no backend's name.
    AsrValue,
    /// The daemon was given this argument.
    Positional(String),
    /// The command needs an argument.
    Usage(String),
}

/// What is said of a bad value of `--asr`.
pub fn asr_value_message() -> (s: String)
    ensures
        s@ == "--asr expects auto, streaming, zipformer, or moonshine"@,
{
    "--asr expects auto, streaming, zipformer, or moonshine".to_string()
}

/// Parse `--asr <auto|streaming|zipformer|moonshine>` out of the arguments:
/// those that remain, and the selection.
pub fn parse_asr_selection(args: &Vec<String>) -> (r: Result<
    (Vec<String>, BackendSelection),
    CliError,
>)
    ensures
        match asr_selection(text::views(args@), BackendSelection::Auto) {
            Some((rest, selection)) => r matches Ok((v, s)) && text::views(v@) == rest && s
                == selection,
            None => r matches Err(e) && e is AsrValue,
        },
{
    let ghost all = text::views(args@);
    let mut rest: Vec<String> = Vec::new();
    let mut selection = BackendSelection::Auto;
    let mut i: usize = 0;
    assert(all.skip(0) =~= all);
    proof {
        if let Some((r, s)) = asr_selection(all, selection) {
            assert(text::views(rest@) + r =~= r);
        }
    }
    while i < args.len()
        invariant
            all == text::views(args@),
            i <= args@.len(),
            asr_selection(all, BackendSelection::Auto) == match asr_selection(
                all.skip(i as int),
                selection,
            ) {
                Some((r, s)) => Some((text::views(rest@) + r, s)),
                None => None,
            },
        decreases args@.len() - i,
    {
        let ghost left = all.skip(i as int);
        assert(left[0] == args@[i as int]@);
        if text::same_text(args[i].as_str(), "--asr") {
            if args.len() - i < 2 {
                return Err(CliError::AsrValue);
            }
            assert(left[1] == args@[i + 1]@);
            assert(left.skip(2) =~= all.skip(i + 2));
            match parse_asr_value(args[i + 1].as_str()) {
                Some(s) => {
                    selection = s;
                },
                None => {
                    return Err(CliError::AsrValue);
                },
            }
            i += 2;
        } else {
            let ghost before = rest@;
            rest.push(args[i].clone());
            proof {
                assert(left.skip(1) =~= all.skip(i + 1));
                assert(text::views(rest@) =~= text::views(before).push(left[0]));
                if let Some((r, s)) = asr_selection(all.skip(i + 1), selection) {
                    assert(text::views(before) + (seq![left[0]] + r) =~= text::views(rest@) + r);
                }
            }
            i += 1;
        }
    }
    assert(text::views(rest@) + Seq::<Seq<char>>::empty() =~= text::views(rest@));
    Ok((rest, selection))
}

/// Without the flag every argument remains, and the selection stays as it was.
pub proof fn selection_defaults(args: Seq<Seq<char>>, sofar: BackendSelection)
    requires
        !args.contains("--asr"@),
    ensures
        asr_selection(args, sofar) == Some((args, sofar)),
    decreases args.len(),
{
    if args.len() > 0 {
        assert(args[0] == args[0]);
        assert forall|x: Seq<char>| #[trigger] args.skip(1).contains(x) implies args.contains(
            x,
        ) by {
            let i = args.skip(1).index_of(x);
            assert(args[i + 1] == x);
        }
        selection_defaults(args.skip(1), sofar);
        assert(seq![args[0]] + args.skip(1) =~= args);
    } else {
        assert(args =~= Seq::empty());
    }
}

/// Of repeated flags the last one decides.
pub proof fn last_selection_wins(
    args: Seq<Seq<char>>,
    sofar: BackendSelection,
    value: Seq<char>,
)
    requires
        asr_selection(args, sofar) is Some,
        asr_value(value) is Some,
    ensures
        ({
            let before = asr_selection(args, sofar)->0;
            asr_selection(args + seq!["--asr"@, value], sofar) == Some(
                (before.0, asr_value(value)->0),
            )
        }),
    decreases args.len(),
{
    let flag = seq!["--asr"@, value];
    let all = args + flag;
    if args.len() == 0 {
        assert(all =~= flag);
        assert(flag.skip(2) =~= Seq::<Seq<char>>::empty());
        assert(asr_selection(flag.skip(2), asr_value(value)->0) == Some(
            (Seq::<Seq<char>>::empty(), asr_value(value)->0),
        ));
    } else if args[0] == "--asr"@ {
        assert(all[0] == args[0] && all[1] == args[1]);
        assert(all.skip(2) =~= args.skip(2) + flag);
        last_selection_wins(args.skip(2), asr_value(args[1])->0, value);
    } else {
        assert(all[0] == args[0]);
        assert(all.skip(1) =~= args.skip(1) + flag);
        last_selection_wins(args.skip(1), sofar, value);
    }
}

/// The first argument that is not a typing-mode flag.
pub open spec fn first_positional(args: Seq<Seq<char>>) -> Option<Seq<char>>
    decreases args.len(),
{
    if args.len() == 0 {
        None
    } else if args[0] != "--live-typing"@ && args[0] != "--no-live-typing"@ {
        Some(args[0])
    } else {
        first_positional(args.skip(1))
    }
}

/// The options of the daemon: which backend, and when text is typed. It takes
/// no other arguments.
pub fn daemon_options(args: &Vec<String>) -> (r: Result<(BackendSelection, TypingMode), CliError>)
    ensures
        match asr_selection(text::views(args@), BackendSelection::Auto) {
            None => r matches Err(e) && e is AsrValue,
            Some((rest, selection)) => match first_positional(rest) {
                Some(arg) => r matches Err(CliError::Positional(s)) && s@ == arg,
                None => r == Ok::<(BackendSelection, TypingMode), CliError>(
                    (selection, typing_mode(rest)),
                ),
            },
        },
{
    let (rest, selection) = match parse_asr_selection(args) {
        Ok(parsed) => parsed,
        Err(e) => {
            return Err(e);
        },
    };
    let mode = parse_typing_mode(&rest);
    let ghost all = text::views(rest@);
    let mut i: usize = 0;
    assert(all.skip(0) =~= all);
    while i < rest.len()
        invariant
            all == text::views(rest@),
            i <= rest@.len(),
            asr_selection(text::views(args@), BackendSelection::Auto) == Some((all, selection)),
            first_positional(all.skip(i as int)) == first_positional(all),
        decreases rest@.len() - i,
    {
        assert(all.skip(i as int)[0] == rest@[i as int]@);
        assert(all.skip(i as int).skip(1) =~= all.skip(i + 1));
        let arg = rest[i].as_str();
        if !text::same_text(arg, "--live-typing") && !text::same_text(arg, "--no-live-typing") {
            return Err(CliError::Positional(arg.to_string()));
        }
        i += 1;
    }
    Ok((selection, mode))
}

/// The options of a command that reads a WAV file with a backend: the file,
/// and which backend. `usage` is said where there is no file.
pub fn wav_options(args: &Vec<String>, usage: &str) -> (r: Result<
    (String, BackendSelection),
    CliError,
>)
    ensures
        match asr_selection(text::views(args@), BackendSelection::Auto) {
            None => r matches Err(e) && e is AsrValue,
            Some((rest, selection)) => if rest.len() == 0 {
                r matches Err(CliError::Usage(s)) && s@ == usage@
            } else {
                r matches Ok((path, s)) && path@ == rest[0] && s == selection
            },
        },
{
    let (rest, selection) = match parse_asr_selection(args) {
        Ok(parsed) => parsed,
        Err(e) => {
            return Err(e);
        },
    };
    if rest.len() == 0 {
        return Err(CliError::Usage(usage.to_string()));
    }
    assert(text::views(rest@)[0] == rest@[0]@);
    Ok((rest[0].clone(), selection))
}

/// The argument of a command that takes one: the first of them. `usage` is
/// said where there is none.
pub fn first_argument(args: &Vec<String>, usage: &str) -> (r: Result<String, CliError>)
    ensures
        match r {
            Ok(s) => args@.len() > 0 && s@ == text::views(args@)[0],
            Err(e) => args@.len() == 0 && (e matches CliError::Usage(s) && s@ == usage@),
        },
{
    if args.len() == 0 {
        return Err(CliError::Usage(usage.to_string()));
    }
    assert(text::views(args@)[0] == args@[0]@);
    Ok(args[0].clone())
}

/// The text of a command that takes one: all arguments with single spaces
/// between them. `usage` is said where there are none.
pub fn text_argument(args: &Vec<String>, usage: &str) -> (r: Result<String, CliError>)
    ensures
        match r {
            Ok(s) => args@.len() > 0 && s@ == text::join(text::views(args@)),
            Err(e) => args@.len() == 0 && (e matches CliError::Usage(s) && s@ == usage@),
        },
{
    if args.len() == 0 {
        return Err(CliError::Usage(usage.to_string()));
    }
    Ok(text::join_words(args))
}

/// A place where models may be.
pub struct Candidate<P> {
    /// The path of its `models` directory.
    pub path: P,
    /// Whether that is a directory.
    pub is_dir: bool,
}

/// Where to look for models: in the working directory's `models`, else in that
/// next to the executable, else (`None`) in the relative path `models`.
pub fn resolve_models_dir<P>(
    cwd: Option<Candidate<P>>,
    exe_dir: Option<Candidate<P>>,
) -> (r: Option<P>)
    ensures
        r == match cwd {
            Some(c) if c.is_dir => Some(c.path),
            _ => match exe_dir {
                Some(e) if e.is_dir => Some(e.path),
                _ => None,
            },
        },
{
    if let Some(c) = cwd {
        if c.is_dir {
            return Some(c.path);
        }
    }
    if let Some(e) = exe_dir {
        if e.is_dir {
            return Some(e.path);
        }
    }
    None
}

/// The relative path where models are looked for last.
pub const DEFAULT_MODELS_DIR: &'static str = "models";

/// The variable that names the models directory, over all other places.
pub const MODELS_DIR_VAR: &'static str = "SAYTYPE_MODELS_DIR";

/// Check a WAV file before any model is loaded for it: `rate` is its sample
/// rate, or `None` where it could not be read, and `shown` its path.
pub fn check_wav(shown: &str, rate: Option<i32>) -> (r: Result<(), String>)
    ensures
        match rate {
            None => r matches Err(e) && e@ == "cannot read WAV "@ + shown@,
            Some(hz) => if hz == SAMPLE_RATE {
                r is Ok
            } else {
                r matches Err(e) && e@ == "expected a 16 kHz WAV, got "@ + text::signed_decimal(
                    hz as int,
                ) + " Hz"@
            },
        },
{
    match rate {
        None => {
            let e = text::concat3("cannot read WAV ", shown, "");
            proof {
                reveal_strlit("");
                assert(e@ =~= "cannot read WAV "@ + shown@);
            }
            Err(e)
        },
        Some(hz) => if hz == SAMPLE_RATE {
            Ok(())
        } else {
            let got = text::signed_decimal_string(hz as i64);
            Err(text::concat3("expected a 16 kHz WAV, got ", got.as_str(), " Hz"))
        },
    }
}

/// What is known of the WAV file of an offline check.
#[derive(Debug, Clone, Copy, PartialEq, Eq, Structural)]
pub enum WavState {
    /// It was not read yet.
    NotRead,
    /// It could not be read.
    Unreadable,
    /// It was read, and has this sample rate.
    Rate(i32),
}

/// What to do next for an offline check.
#[derive(Debug, Clone, PartialEq, Eq)]
pub enum OfflineStep {
    /// Read the WAV file.
    ReadWav,
    /// Load the models, and run the check.
    LoadModels,
    /// End: what the user is told.
    Fail(String),
}

/// What to do next for an offline check, given what is known of its WAV file.
/// The models are loaded only for one that was read and has the right rate.
pub fn offline_step(shown: &str, wav: WavState) -> (step: OfflineStep)
    ensures
        match wav {
            WavState::NotRead => step is ReadWav,
            WavState::Unreadable => step matches OfflineStep::Fail(e) && e@ == "cannot read WAV "@
                + shown@,
            WavState::Rate(hz) => if hz == SAMPLE_RATE {
                step is LoadModels
            } else {
                step matches OfflineStep::Fail(e) && e@ == "expected a 16 kHz WAV, got "@
                    + text::signed_decimal(hz as int) + " Hz"@
            },
        },
{
    let rate: Option<i32> = match wav {
        WavState::NotRead => {
            return OfflineStep::ReadWav;
        },
        WavState::Unreadable => None,
        WavState::Rate(hz) => Some(hz),
    };
    match check_wav(shown, rate) {
        Ok(()) => OfflineStep::LoadModels,
        Err(e) => OfflineStep::Fail(e),
    }
}

/// The segments that the voice detector has found in a file.
#[derive(Debug, Clone, Copy, PartialEq, Eq, Structural)]
pub struct VadTally {
    /// How many.
    pub segments: usize,
    /// How many samples they hold together.
    pub samples: usize,
}

impl VadTally {
    pub fn new() -> (t: Self)
        ensures
            t.segments == 0,
            t.samples == 0,
    {
        VadTally { segments: 0, samples: 0 }
    }

    /// One more segment of `len` samples.
    pub fn record(&mut self, len: usize)
        requires
            old(self).segments < usize::MAX,
            old(self).samples + len <= usize::MAX,
        ensures
            final(self).segments == old(self).segments + 1,
            final(self).samples == old(self).samples + len,
    {
        self.segments += 1;
        self.samples += len;
    }
}

/// What a streaming replay has shown so far.
#[verifier::ext_equal]
pub struct ReplayModel {
    pub last_partial: Seq<char>,
    pub partials: nat,
    pub commits: nat,
}

impl ReplayModel {
    /// Whether the text of a committed segment is shown: that of a blip is
    /// not, nor one without words.
    pub open spec fn shows(samples: int, text: Seq<char>) -> bool {
        !daemon::blip(samples) && text.len() > 0
    }

    /// After a segment of so many samples was committed with `text`.
    pub open spec fn after_commit(self, samples: int, text: Seq<char>) -> ReplayModel {
        if !Self::shows(samples, text) {
            self
        } else {
            ReplayModel { last_partial: Seq::empty(), commits: self.commits + 1, ..self }
        }
    }

    /// How the text of a committed segment compares with the last partial.
    pub open spec fn note(self, samples: int, text: Seq<char>) -> Note {
        if !Self::shows(samples, text) {
            Note::Silent
        } else if self.last_partial == text {
            Note::SameAsPartial
        } else {
            Note::PartialWas(self.last_partial)
        }
    }

    /// After the hypothesis was looked at. One that has not changed is not
    /// shown.
    pub open spec fn after_partial(self, partial: Seq<char>) -> ReplayModel {
        if partial == self.last_partial {
            self
        } else {
            ReplayModel { last_partial: partial, partials: self.partials + 1, ..self }
        }
    }
}

/// How a final compares with the partial before it.
#[derive(Debug, Clone, PartialEq, Eq)]
pub enum CommitNote {
    /// The final is not shown: its segment is a blip, or it has no words.
    Silent,
    /// It is the last partial.
    SameAsPartial,
    /// The last partial was this.
    PartialWas(String),
}

/// A note with its text as a sequence of characters.
pub enum Note {
    Silent,
    SameAsPartial,
    PartialWas(Seq<char>),
}

impl View for CommitNote {
    type V = Note;

    open spec fn view(&self) -> Note {
        match self {
            CommitNote::Silent => Note::Silent,
            CommitNote::SameAsPartial => Note::SameAsPartial,
            CommitNote::PartialWas(s) => Note::PartialWas(s@),
        }
    }
}

/// A streaming replay of a file: which hypotheses and finals are shown.
pub struct Replay {
    last_partial: String,
    partials: usize,
    commits: usize,
}

impl View for Replay {
    type V = ReplayModel;

    closed spec fn view(&self) -> ReplayModel {
        ReplayModel {
            last_partial: self.last_partial@,
            partials: self.partials as nat,
            commits: self.commits as nat,
        }
    }
}

impl Replay {
    pub fn new() -> (r: Self)
        ensures
            r@ == (ReplayModel { last_partial: Seq::empty(), partials: 0, commits: 0 }),
    {
        let r = Replay { last_partial: String::new(), partials: 0, commits: 0 };
        assert(r@.last_partial =~= Seq::<char>::empty());
        r
    }

    /// How many hypotheses were shown.
    pub fn partials(&self) -> (n: usize)
        ensures
            n == self@.partials,
    {
        self.partials
    }

    /// How many finals were shown.
    pub fn commits(&self) -> (n: usize)
        ensures
            n == self@.commits,
    {
        self.commits
    }

    /// A segment of so many samples was committed with `text`: how that
    /// compares with the last partial.
    pub fn on_commit(&mut self, samples: usize, text: &str) -> (note: CommitNote)
        requires
            old(self)@.commits < usize::MAX,
        ensures
            final(self)@ == old(self)@.after_commit(samples as int, text@),
            note@ == old(self)@.note(samples as int, text@),
    {
        let ghost before = self@;
        if daemon::is_blip(samples) || text.is_empty() {
            return CommitNote::Silent;
        }
        self.commits += 1;
        let note = if text::same_text(self.last_partial.as_str(), text) {
            CommitNote::SameAsPartial
        } else {
            CommitNote::PartialWas(self.last_partial.clone())
        };
        self.last_partial = String::new();
        assert(self@ =~= before.after_commit(samples as int, text@));
        note
    }

    /// The current hypothesis: whether it is shown.
    pub fn on_partial(&mut self, partial: &str) -> (shown: bool)
        requires
            old(self)@.partials < usize::MAX,
        ensures
            shown == (partial@ != old(self)@.last_partial),
            final(self)@ == old(self)@.after_partial(partial@),
    {
        if text::same_text(partial, self.last_partial.as_str()) {
            return false;
        }
        self.partials += 1;
        self.last_partial = partial.to_string();
        true
    }
}

/// The command is named by the first argument alone, whatever follows it.
/// Without one, and for any other flag, it is the daemon.
pub proof fn first_argument_names_the_command(args: Seq<Seq<char>>, rest: Seq<Seq<char>>)
    requires
        args.len() == 2,
    ensures
        command(args + rest) == command(args),
        command(args.take(1)) == Command::Daemon,
        command(Seq::<Seq<char>>::empty()) == Command::Daemon,
        command(args) == Command::Transcribe <==> args[1] == "--transcribe"@,
        command(args) == Command::VadTest <==> args[1] == "--vad-test"@,
        command(args) == Command::StreamTest <==> args[1] == "--stream-test"@,
        command(args) == Command::PasteTest <==> args[1] == "--paste-test"@,
        command(args) == Command::Help <==> args[1] == "--help"@ || args[1] == "-h"@,
        !text::starts_with(args[1], "--"@) && args[1] != "-h"@ ==> command(args)
            == Command::Unknown,
        command(args) == Command::Daemon ==> text::starts_with(args[1], "--"@),
        text::starts_with(args[1], "--"@) && args[1] != "--transcribe"@ && args[1]
            != "--vad-test"@ && args[1] != "--stream-test"@ && args[1] != "--paste-test"@
            && args[1] != "--help"@ && args[1] != "-h"@ ==> command(args) == Command::Daemon,
{
    reveal_strlit("--transcribe");
    reveal_strlit("--vad-test");
    reveal_strlit("--stream-test");
    reveal_strlit("--paste-test");
    reveal_strlit("--help");
    reveal_strlit("-h");
    reveal_strlit("--");
    let all = args + rest;
    assert(all[1] == args[1]);
    let a = args[1];
    assert("--transcribe"@.subrange(0, 2) =~= "--"@);
    assert("--vad-test"@.subrange(0, 2) =~= "--"@);
    assert("--stream-test"@.subrange(0, 2) =~= "--"@);
    assert("--paste-test"@.subrange(0, 2) =~= "--"@);
    assert("--help"@.subrange(0, 2) =~= "--"@);
    assert("--transcribe"@[2] == 't');
    assert("--vad-test"@[2] == 'v');
    assert("--stream-test"@[2] == 's');
    assert("--paste-test"@[2] == 'p');
    assert("--help"@[2] == 'h');
    assert("-h"@.len() == 2);
}

/// Text is typed live exactly when that is asked for anywhere among the
/// arguments, only in finals where that is asked for instead, and otherwise at
/// the stop.
pub proof fn flags_choose_when_text_is_typed(args: Seq<Seq<char>>, i: int)
    requires
        0 <= i < args.len(),
    ensures
        args[i] == "--live-typing"@ ==> typing_mode(args) == TypingMode::Live,
        args[i] == "--no-live-typing"@ ==> typing_mode(args) != TypingMode::Deferred,
        typing_mode(args) == TypingMode::Live ==> args.contains("--live-typing"@),
        typing_mode(args) == TypingMode::FinalOnly ==> args.contains("--no-live-typing"@)
            && !args.contains("--live-typing"@),
        typing_mode(args) == TypingMode::Deferred ==> !args.contains("--live-typing"@)
            && !args.contains("--no-live-typing"@),
        typing_mode(Seq::<Seq<char>>::empty()) == TypingMode::Deferred,
{
    assert(args.contains(args[i]));
}

/// The four backends are selected by their names, and nothing else is a name.
pub proof fn backends_are_selected_by_name(value: Seq<char>)
    ensures
        asr_value(value) == Some(BackendSelection::Streaming) <==> value == "streaming"@,
        asr_value(value) == Some(BackendSelection::Zipformer) <==> value == "zipformer"@,
        asr_value(value) == Some(BackendSelection::Moonshine) <==> value == "moonshine"@,
        asr_value(value) == Some(BackendSelection::Auto) <==> value == "auto"@,
{
    reveal_strlit("streaming");
    reveal_strlit("zipformer");
    reveal_strlit("moonshine");
    reveal_strlit("auto");
    assert("streaming"@[0] == 's');
    assert("zipformer"@[0] == 'z');
    assert("moonshine"@[0] == 'm');
    assert("auto"@[0] == 'a');
}

/// The selection is read from left to right: what some arguments leave and
/// select does not depend on those that follow, and those go on from there.
pub proof fn selection_goes_on_behind_arguments(
    args: Seq<Seq<char>>,
    more: Seq<Seq<char>>,
    sofar: BackendSelection,
)
    requires
        asr_selection(args, sofar) is Some,
    ensures
        ({
            let (rest, selected) = asr_selection(args, sofar)->0;
            asr_selection(args + more, sofar) == match asr_selection(more, selected) {
                Some((left, s)) => Some((rest + left, s)),
                None => None,
            }
        }),
    decreases args.len(),
{
    let all = args + more;
    if args.len() == 0 {
        assert(all =~= more);
        if let Some((left, s)) = asr_selection(more, sofar) {
            assert(Seq::<Seq<char>>::empty() + left =~= left);
        }
    } else if args[0] == "--asr"@ {
        assert(all[0] == args[0] && all[1] == args[1]);
        assert(all.skip(2) =~= args.skip(2) + more);
        selection_goes_on_behind_arguments(args.skip(2), more, asr_value(args[1])->0);
    } else {
        assert(all[0] == args[0]);
        assert(all.skip(1) =~= args.skip(1) + more);
        selection_goes_on_behind_arguments(args.skip(1), more, sofar);
        let (rest, selected) = asr_selection(args.skip(1), sofar)->0;
        if let Some((left, s)) = asr_selection(more, selected) {
            assert(seq![args[0]] + (rest + left) =~= (seq![args[0]] + rest) + left);
        }
    }
}

/// One argument that is not the flag remains and selects nothing. The flag and
/// a backend's name select that one and do not remain. The flag alone, or with
/// anything else, is an error whatever follows.
pub proof fn flag_and_name_select(
    arg: Seq<char>,
    value: Seq<char>,
    more: Seq<Seq<char>>,
    sofar: BackendSelection,
)
    ensures
        asr_selection(Seq::<Seq<char>>::empty(), sofar) == Some((Seq::<Seq<char>>::empty(), sofar)),
        arg != "--asr"@ ==> asr_selection(seq![arg], sofar) == Some((seq![arg], sofar)),
        asr_value(value) matches Some(s) ==> asr_selection(seq!["--asr"@, value], sofar) == Some(
            (Seq::<Seq<char>>::empty(), s),
        ),
        asr_selection(seq!["--asr"@], sofar) is None,
        asr_value(value) is None ==> asr_selection(seq!["--asr"@, value] + more, sofar) is None,
{
    let none = Seq::<Seq<char>>::empty();
    if arg != "--asr"@ {
        assert(seq![arg].skip(1) =~= none);
        assert(asr_selection(none, sofar) == Some((none, sofar)));
        assert(seq![arg] + none =~= seq![arg]);
    }
    if let Some(s) = asr_value(value) {
        assert(seq!["--asr"@, value].skip(2) =~= none);
        assert(asr_selection(none, s) == Some((none, s)));
    }
    let all = seq!["--asr"@, value] + more;
    assert(all[0] == "--asr"@ && all[1] == value);
}

/// The first argument that is not a typing-mode flag is found wherever it
/// stands, and none is where all are such flags.
pub proof fn first_other_argument_is_found(args: Seq<Seq<char>>, i: int)
    requires
        0 <= i <= args.len(),
        forall|k: int|
            0 <= k < i ==> #[trigger] args[k] == "--live-typing"@ || args[k]
                == "--no-live-typing"@,
        i < args.len() ==> args[i] != "--live-typing"@ && args[i] != "--no-live-typing"@,
    ensures
        first_positional(args) == if i < args.len() {
            Some(args[i])
        } else {
            None
        },
    decreases i,
{
    if i > 0 {
        let rest = args.skip(1);
        assert(args[0] == "--live-typing"@ || args[0] == "--no-live-typing"@);
        assert forall|k: int| 0 <= k < i - 1 implies #[trigger] rest[k] == "--live-typing"@
            || rest[k] == "--no-live-typing"@ by {
            assert(rest[k] == args[k + 1]);
        }
        first_other_argument_is_found(rest, i - 1);
        if i < args.len() {
            assert(rest[i - 1] == args[i]);
        }
    }
}

/// The text of a committed segment is shown exactly when the segment is at
/// least a tenth of a second long and the text has words. It is then counted
/// and held against the last partial, which it clears; otherwise nothing
/// changes.
pub proof fn committed_words_are_shown_and_counted(m: ReplayModel, samples: int, text: Seq<char>)
    ensures
        samples >= 1600 && text.len() > 0 ==> m.after_commit(samples, text) == (ReplayModel {
            last_partial: Seq::empty(),
            partials: m.partials,
            commits: m.commits + 1,
        }),
        samples >= 1600 && text.len() > 0 && text == m.last_partial ==> m.note(samples, text)
            == Note::SameAsPartial,
        samples >= 1600 && text.len() > 0 && text != m.last_partial ==> m.note(samples, text)
            == Note::PartialWas(m.last_partial),
        samples < 1600 || text.len() == 0 ==> m.after_commit(samples, text) == m && m.note(
            samples,
            text,
        ) == Note::Silent,
        ReplayModel::shows(samples, text) <==> samples >= 1600 && text.len() > 0,
{
}

/// A hypothesis is counted exactly when it differs from the last one that was
/// shown, and is then the last.
pub proof fn changed_hypotheses_are_counted(m: ReplayModel, partial: Seq<char>)
    ensures
        m.after_partial(partial).last_partial == partial,
        m.after_partial(partial).commits == m.commits,
        m.after_partial(partial).partials == m.partials + if partial != m.last_partial {
            1nat
        } else {
            0
        },
{
}

} // verus!
