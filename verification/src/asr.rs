//! Speech recognition backends: which one to load, and what becomes of the
//! text that it recognizes.
use vstd::prelude::*;
use vstd::string::*;

use crate::onnx::{CorruptModel, ModelError};
use crate::text;

verus! {

/// Which backend to load.
#[derive(Debug, Clone, Copy, PartialEq, Eq, Structural)]
pub enum BackendSelection {
    /// Nemotron streaming, then Zipformer streaming, then Moonshine.
    Auto,
    /// The best streaming backend: Nemotron, then Zipformer.
    Streaming,
    Zipformer,
    Moonshine,
}

/// Which backend is loaded.
#[derive(Debug, Clone, Copy, PartialEq, Eq, Structural)]
pub enum AsrKind {
    Nemotron,
    Zipformer,
    Moonshine,
}

impl AsrKind {
    /// Whether the backend produces live partials.
    pub open spec fn streams(self) -> bool {
        self is Nemotron || self is Zipformer
    }

    /// True for the backends that produce live partials.
    pub fn is_streaming(self) -> (b: bool)
        ensures
            b == self.streams(),
    {
        matches!(self, AsrKind::Nemotron | AsrKind::Zipformer)
    }
}

/// How the files of a model are named.
#[derive(Debug, Clone, Copy, PartialEq, Eq, Structural)]
pub enum Naming {
    /// `*{stem}*.onnx` or `*{stem}*.ort`; any one will do.
    Moonshine,
    /// `*{stem}*.onnx` with an epoch in the name; one that is not quantized
    /// is preferred.
    Zipformer,
    /// `*{stem}*.onnx`; a quantized one is preferred.
    Nemotron,
}

impl Naming {
    /// Whether a file of this name is the part of a model that `stem` names.
    pub open spec fn fits(self, name: Seq<char>, stem: Seq<char>) -> bool {
        match self {
            Naming::Moonshine => text::contains(name, stem) && (text::ends_with(name, ".onnx"@)
                || text::ends_with(name, ".ort"@)),
            Naming::Zipformer => text::ends_with(name, ".onnx"@) && text::contains(name, stem)
                && text::contains(name, "epoch"@),
            Naming::Nemotron => text::ends_with(name, ".onnx"@) && text::contains(name, stem),
        }
    }

    /// Whether a fitting file is one of those that are preferred.
    pub open spec fn prefers(self, name: Seq<char>) -> bool {
        match self {
            Naming::Moonshine => true,
            Naming::Zipformer => !text::contains(name, "int8"@),
            Naming::Nemotron => text::contains(name, "int8"@),
        }
    }

    /// The first of the names that fits, or the first that is also preferred.
    pub open spec fn first(self, names: Seq<Seq<char>>, stem: Seq<char>, preferred: bool) -> Option<
        Seq<char>,
    >
        decreases names.len(),
    {
        if names.len() == 0 {
            None
        } else if self.fits(names[0], stem) && (!preferred || self.prefers(names[0])) {
            Some(names[0])
        } else {
            self.first(names.skip(1), stem, preferred)
        }
    }

    /// The file that is taken for `stem`: the first preferred one, else the
    /// first that fits.
    pub open spec fn chosen(self, names: Seq<Seq<char>>, stem: Seq<char>) -> Option<Seq<char>> {
        match self.first(names, stem, true) {
            Some(name) => Some(name),
            None => self.first(names, stem, false),
        }
    }

    /// What is taken is one of the files and fits; a preferred one is taken
    /// wherever there is one; and where none fits none is taken.
    pub proof fn chosen_is_the_best(self, names: Seq<Seq<char>>, stem: Seq<char>)
        ensures
            match self.chosen(names, stem) {
                Some(name) => names.contains(name) && self.fits(name, stem) && (self.prefers(name)
                    || forall|i: int|
                    0 <= i < names.len() && self.fits(#[trigger] names[i], stem) ==> !self.prefers(
                        names[i],
                    )),
                None => forall|i: int|
                    0 <= i < names.len() ==> !self.fits(#[trigger] names[i], stem),
            },
    {
        self.lemma_first(names, stem, true);
        self.lemma_first(names, stem, false);
    }

    /// What `first` finds.
    proof fn lemma_first(self, names: Seq<Seq<char>>, stem: Seq<char>, preferred: bool)
        ensures
            match self.first(names, stem, preferred) {
                Some(name) => names.contains(name) && self.fits(name, stem) && (preferred
                    ==> self.prefers(name)),
                None => forall|i: int|
                    0 <= i < names.len() && self.fits(#[trigger] names[i], stem) ==> preferred
                        && !self.prefers(names[i]),
            },
        decreases names.len(),
    {
        if names.len() > 0 {
            let rest = names.skip(1);
            self.lemma_first(rest, stem, preferred);
            assert(names[0] == names[0]);
            match self.first(names, stem, preferred) {
                Some(name) => {
                    if rest.contains(name) {
                        let i = rest.index_of(name);
                        assert(names[i + 1] == name);
                    }
                },
                None => {
                    assert forall|i: int|
                        0 <= i < names.len() && self.fits(#[trigger] names[i], stem) implies preferred
                        && !self.prefers(names[i]) by {
                        if i > 0 {
                            assert(rest[i - 1] == names[i]);
                        }
                    }
                },
            }
        }
    }

    fn is_fit(self, name: &str, stem: &str) -> (b: bool)
        ensures
            b == self.fits(name@, stem@),
    {
        match self {
            Naming::Moonshine => text::has_part(name, stem) && (text::has_suffix(name, ".onnx")
                || text::has_suffix(name, ".ort")),
            Naming::Zipformer => text::has_suffix(name, ".onnx") && text::has_part(name, stem)
                && text::has_part(name, "epoch"),
            Naming::Nemotron => text::has_suffix(name, ".onnx") && text::has_part(name, stem),
        }
    }

    fn is_preferred(self, name: &str) -> (b: bool)
        ensures
            b == self.prefers(name@),
    {
        match self {
            Naming::Moonshine => true,
            Naming::Zipformer => !text::has_part(name, "int8"),
            Naming::Nemotron => text::has_part(name, "int8"),
        }
    }

    fn find_first(self, names: &Vec<String>, stem: &str, preferred: bool) -> (r: Option<String>)
        ensures
            text::text_view(r) == self.first(text::views(names@), stem@, preferred),
    {
        let ghost all = text::views(names@);
        let mut i: usize = 0;
        assert(all.skip(0) =~= all);
        while i < names.len()
            invariant
                all == text::views(names@),
                i <= names@.len(),
                self.first(all.skip(i as int), stem@, preferred) == self.first(
                    all,
                    stem@,
                    preferred,
                ),
            decreases names@.len() - i,
        {
            let name = names[i].as_str();
            assert(all.skip(i as int)[0] == name@);
            assert(all.skip(i as int).skip(1) =~= all.skip(i + 1));
            if self.is_fit(name, stem) && (!preferred || self.is_preferred(name)) {
                return Some(name.to_string());
            }
            i += 1;
        }
        None
    }

    /// The file that is taken for `stem`, of the names in a directory in the
    /// order in which it lists them.
    pub fn find(self, names: &Vec<String>, stem: &str) -> (r: Option<String>)
        ensures
            text::text_view(r) == self.chosen(text::views(names@), stem@),
    {
        match self.find_first(names, stem, true) {
            Some(name) => Some(name),
            None => self.find_first(names, stem, false),
        }
    }
}

/// Find a `*{stem}*` file with an `.onnx` or `.ort` extension.
pub fn find_model(names: &Vec<String>, stem: &str) -> (r: Option<String>)
    ensures
        text::text_view(r) == Naming::Moonshine.chosen(text::views(names@), stem@),
{
    Naming::Moonshine.find(names, stem)
}

/// Find a `*{stem}*.onnx` file with an epoch in its name, preferring one that
/// is not quantized.
pub fn find_zipformer_onnx(names: &Vec<String>, stem: &str) -> (r: Option<String>)
    ensures
        text::text_view(r) == Naming::Zipformer.chosen(text::views(names@), stem@),
{
    Naming::Zipformer.find(names, stem)
}

/// Find a `*{stem}*.onnx` file, preferring a quantized one.
pub fn find_onnx_preferring_int8(names: &Vec<String>, stem: &str) -> (r: Option<String>)
    ensures
        text::text_view(r) == Naming::Nemotron.chosen(text::views(names@), stem@),
{
    Naming::Nemotron.find(names, stem)
}

/// One entry of the models directory, as it was read.
#[derive(Debug, Clone, PartialEq, Eq)]
pub struct ModelDir {
    pub name: String,
    /// Whether it is a directory. Anything else holds no model.
    pub is_dir: bool,
    /// The names of its entries, in the order in which it lists them.
    pub entries: Vec<String>,
    /// The names in it that are files.
    pub files: Vec<String>,
}

/// What an entry of the models directory stands for.
pub struct DirModel {
    pub name: Seq<char>,
    pub is_dir: bool,
    pub entries: Seq<Seq<char>>,
    pub files: Seq<Seq<char>>,
}

impl View for ModelDir {
    type V = DirModel;

    open spec fn view(&self) -> DirModel {
        DirModel {
            name: self.name@,
            is_dir: self.is_dir,
            entries: text::views(self.entries@),
            files: text::views(self.files@),
        }
    }
}

/// The views of some entries.
pub open spec fn dir_views(dirs: Seq<ModelDir>) -> Seq<DirModel> {
    dirs.map_values(|d: ModelDir| d@)
}

/// What a directory can hold.
#[derive(Debug, Clone, Copy, PartialEq, Eq, Structural)]
pub enum Family {
    Nemotron,
    Zipformer,
    Moonshine,
    Punctuation,
}

impl Family {
    /// Whether the directory's name allows the family.
    pub open spec fn named(self, name: Seq<char>) -> bool {
        match self {
            Family::Nemotron => text::starts_with(
                name,
                "sherpa-onnx-nemotron-speech-streaming-en-"@,
            ),
            Family::Zipformer => text::starts_with(name, "sherpa-onnx-streaming-zipformer-"@),
            Family::Moonshine => text::starts_with(name, "sherpa-onnx-moonshine-"@),
            Family::Punctuation => text::starts_with(name, "sherpa-onnx-online-punct-"@),
        }
    }

    /// Whether the entry is a directory with all parts of a model of the
    /// family.
    pub open spec fn complete(self, d: DirModel) -> bool {
        d.is_dir && self.named(d.name) && match self {
            Family::Nemotron => Naming::Nemotron.chosen(d.entries, "encoder"@) is Some
                && Naming::Nemotron.chosen(d.entries, "decoder"@) is Some
                && Naming::Nemotron.chosen(d.entries, "joiner"@) is Some && d.files.contains(
                "tokens.txt"@,
            ),
            Family::Zipformer => Naming::Zipformer.chosen(d.entries, "encoder"@) is Some
                && Naming::Zipformer.chosen(d.entries, "decoder"@) is Some
                && Naming::Zipformer.chosen(d.entries, "joiner"@) is Some && d.files.contains(
                "tokens.txt"@,
            ),
            Family::Moonshine => Naming::Moonshine.chosen(d.entries, "encoder_model"@) is Some
                && Naming::Moonshine.chosen(d.entries, "decoder_model_merged"@) is Some
                && d.files.contains("tokens.txt"@),
            Family::Punctuation => d.files.contains("bpe.vocab"@) && (d.files.contains(
                "model.int8.onnx"@,
            ) || d.files.contains("model.onnx"@)),
        }
    }

    /// Whether `dirs[i]` is the one that is taken: of the complete ones the
    /// first by name, and of equal names the first.
    pub open spec fn takes(self, dirs: Seq<DirModel>, i: int) -> bool {
        &&& 0 <= i < dirs.len()
        &&& self.complete(dirs[i])
        &&& forall|j: int|
            0 <= j < dirs.len() && self.complete(#[trigger] dirs[j]) ==> text::precedes(
                dirs[i].name,
                dirs[j].name,
            ) || (dirs[i].name == dirs[j].name && i <= j)
    }

    /// At most one directory is taken.
    pub proof fn takes_only_one(self, dirs: Seq<DirModel>, i: int, j: int)
        requires
            self.takes(dirs, i),
            self.takes(dirs, j),
        ensures
            i == j,
    {
        text::lemma_precedes_total(dirs[i].name, dirs[j].name);
    }

    fn is_named(self, name: &str) -> (b: bool)
        ensures
            b == self.named(name@),
    {
        match self {
            Family::Nemotron => text::has_prefix(name, "sherpa-onnx-nemotron-speech-streaming-en-"),
            Family::Zipformer => text::has_prefix(name, "sherpa-onnx-streaming-zipformer-"),
            Family::Moonshine => text::has_prefix(name, "sherpa-onnx-moonshine-"),
            Family::Punctuation => text::has_prefix(name, "sherpa-onnx-online-punct-"),
        }
    }

    fn is_complete(self, d: &ModelDir) -> (b: bool)
        ensures
            b == self.complete(d@),
    {
        if !d.is_dir || !self.is_named(d.name.as_str()) {
            return false;
        }
        match self {
            Family::Nemotron => find_onnx_preferring_int8(&d.entries, "encoder").is_some()
                && find_onnx_preferring_int8(&d.entries, "decoder").is_some()
                && find_onnx_preferring_int8(&d.entries, "joiner").is_some() && text::has_text(
                &d.files,
                "tokens.txt",
            ),
            Family::Zipformer => find_zipformer_onnx(&d.entries, "encoder").is_some()
                && find_zipformer_onnx(&d.entries, "decoder").is_some() && find_zipformer_onnx(
                &d.entries,
                "joiner",
            ).is_some() && text::has_text(&d.files, "tokens.txt"),
            Family::Moonshine => find_model(&d.entries, "encoder_model").is_some() && find_model(
                &d.entries,
                "decoder_model_merged",
            ).is_some() && text::has_text(&d.files, "tokens.txt"),
            Family::Punctuation => text::has_text(&d.files, "bpe.vocab") && (text::has_text(
                &d.files,
                "model.int8.onnx",
            ) || text::has_text(&d.files, "model.onnx")),
        }
    }

    /// The directory that is taken, if any is complete.
    fn find_dir(self, dirs: &Vec<ModelDir>) -> (r: Option<usize>)
        ensures
            match r {
                Some(i) => self.takes(dir_views(dirs@), i as int),
                None => forall|j: int|
                    0 <= j < dirs@.len() ==> !self.complete(#[trigger] dir_views(dirs@)[j]),
            },
    {
        let ghost all = dir_views(dirs@);
        let mut best: Option<usize> = None;
        let mut k: usize = 0;
        while k < dirs.len()
            invariant
                all == dir_views(dirs@),
                k <= dirs@.len(),
                match best {
                    Some(i) => i < k && self.complete(all[i as int]) && forall|j: int|
                        0 <= j < k && self.complete(#[trigger] all[j]) ==> text::precedes(
                            all[i as int].name,
                            all[j].name,
                        ) || (all[i as int].name == all[j].name && i <= j),
                    None => forall|j: int| 0 <= j < k ==> !self.complete(#[trigger] all[j]),
                },
            decreases dirs@.len() - k,
        {
            assert(all[k as int] == dirs@[k as int]@);
            if self.is_complete(&dirs[k]) {
                let ghost before = best;
                let better: bool = match best {
                    Some(i) => text::comes_before(dirs[k].name.as_str(), dirs[i].name.as_str()),
                    None => true,
                };
                if better {
                    best = Some(k);
                }
                proof {
                    if let Some(i) = before {
                        text::lemma_precedes_total(all[i as int].name, all[k as int].name);
                        assert forall|j: int|
                            better && 0 <= j < k && self.complete(#[trigger] all[j])
                        implies text::precedes(all[k as int].name, all[j].name) by {
                            if text::precedes(all[i as int].name, all[j].name) {
                                text::lemma_precedes_transitive(
                                    all[k as int].name,
                                    all[i as int].name,
                                    all[j].name,
                                );
                            }
                        }
                    }
                }
            }
            k += 1;
        }
        best
    }
}

/// A complete Moonshine model: the index of its directory, and the names of
/// its files there.
#[derive(Debug, Clone, PartialEq, Eq)]
pub struct MoonshinePaths {
    pub dir: usize,
    pub encoder: String,
    pub merged_decoder: String,
    pub tokens: String,
}

/// A complete streaming Zipformer model.
#[derive(Debug, Clone, PartialEq, Eq)]
pub struct ZipformerPaths {
    pub dir: usize,
    pub encoder: String,
    pub decoder: String,
    pub joiner: String,
    pub tokens: String,
}

/// A complete Nemotron streaming model.
#[derive(Debug, Clone, PartialEq, Eq)]
pub struct NemotronPaths {
    pub dir: usize,
    pub encoder: String,
    pub decoder: String,
    pub joiner: String,
    pub tokens: String,
}

/// A complete online punctuation model.
#[derive(Debug, Clone, PartialEq, Eq)]
pub struct PunctPaths {
    pub dir: usize,
    pub model: String,
    pub vocab: String,
}

/// What is said when no Zipformer model is found.
pub open spec fn no_model_text(shown: Seq<char>) -> Seq<char> {
    "no ASR model found under "@ + shown
        + ". Expected a sherpa-onnx-moonshine-* directory (encoder_model.*, decoder_model_merged.*, tokens.txt) or a sherpa-onnx-streaming-zipformer-* directory (encoder/decoder/joiner *epoch*.onnx, tokens.txt). Run scripts/download-models.sh first."@
}

/// What is said when no Moonshine model is found under `shown`.
pub fn no_moonshine_message(shown: &str) -> (s: String)
    ensures
        s@ == "no Moonshine model found under "@ + shown@
            + " (a sherpa-onnx-moonshine-* dir with encoder_model.*, decoder_model_merged.*, tokens.txt)"@,
{
    text::concat3(
        "no Moonshine model found under ",
        shown,
        " (a sherpa-onnx-moonshine-* dir with encoder_model.*, decoder_model_merged.*, tokens.txt)",
    )
}

/// What is said when no Nemotron model is found under `shown`.
pub fn no_nemotron_message(shown: &str) -> (s: String)
    ensures
        s@ == "no Nemotron streaming model found under "@ + shown@
            + " (a sherpa-onnx-nemotron-speech-streaming-en-* dir with encoder/decoder/joiner *.onnx + tokens.txt)"@,
{
    text::concat3(
        "no Nemotron streaming model found under ",
        shown,
        " (a sherpa-onnx-nemotron-speech-streaming-en-* dir with encoder/decoder/joiner *.onnx + tokens.txt)",
    )
}

/// Check that the models directory is there. `shown` is its path.
pub fn check_models_dir(shown: &str, is_dir: bool) -> (r: Result<(), String>)
    ensures
        match r {
            Ok(_) => is_dir,
            Err(e) => !is_dir && e@ == "models directory not found at "@ + shown@
                + ". Run scripts/download-models.sh first."@,
        },
{
    if is_dir {
        Ok(())
    } else {
        Err(
            text::concat3(
                "models directory not found at ",
                shown,
                ". Run scripts/download-models.sh first.",
            ),
        )
    }
}

/// Whether a character is one of the marks that a punctuation model restores.
pub open spec fn is_mark(c: char) -> bool {
    c == ',' || c == '.' || c == '?' || c == '!' || c == ';' || c == ':'
}

/// `s` without punctuation marks.
pub open spec fn without_marks(s: Seq<char>) -> Seq<char> {
    s.filter(|c: char| !is_mark(c))
}

/// Raw recognizer text, trimmed, lowercased and without punctuation marks.
pub open spec fn normalized(raw: Seq<char>) -> Seq<char> {
    without_marks(text::lowered(text::trim(raw)))
}

/// Raw text as it is typed and shown, given what the punctuation model made of
/// the normalized text: its answer unless that is blank, else the normalized
/// text.
pub open spec fn polished(raw: Seq<char>, answer: Option<Seq<char>>) -> Seq<char> {
    if text::trim(raw).len() == 0 {
        Seq::empty()
    } else {
        match answer {
            Some(a) => if text::trim(a).len() > 0 {
                a
            } else {
                normalized(raw)
            },
            None => normalized(raw),
        }
    }
}

/// Raw text with a backend's output policy applied: polished, or just trimmed.
pub open spec fn finished(polishes: bool, raw: Seq<char>, answer: Option<Seq<char>>) -> Seq<char> {
    if polishes {
        polished(raw, answer)
    } else {
        text::trim(raw)
    }
}

/// `lowered` without punctuation marks.
pub fn strip_marks(lowered: &str) -> (r: String)
    ensures
        r@ == without_marks(lowered@),
{
    let cs = text::chars_of(lowered);
    let mut out = String::new();
    let mut i: usize = 0;
    let ghost keep = |c: char| !is_mark(c);
    proof {
        reveal(Seq::filter);
        assert(cs@.take(0) =~= Seq::<char>::empty());
        assert(cs@.take(0).filter(keep) =~= Seq::<char>::empty());
    }
    while i < cs.len()
        invariant
            i <= cs@.len(),
            keep == (|c: char| !is_mark(c)),
            out@ == cs@.take(i as int).filter(keep),
        decreases cs@.len() - i,
    {
        let c = cs[i];
        proof {
            reveal(Seq::filter);
            assert(cs@.take(i + 1).drop_last() =~= cs@.take(i as int));
            assert(cs@.take(i + 1).last() == c);
        }
        if !(c == ',' || c == '.' || c == '?' || c == '!' || c == ';' || c == ':') {
            out.push(c);
        }
        i += 1;
    }
    assert(cs@.take(cs@.len() as int) =~= cs@);
    out
}

/// Raw recognizer text, trimmed, lowercased and without punctuation marks.
pub fn normalize(raw: &str) -> (r: String)
    ensures
        r@ == normalized(raw@),
{
    let trimmed = text::trimmed(raw);
    let lowered = text::lower_of(trimmed.as_str());
    strip_marks(lowered.as_str())
}

/// Normalize raw streaming output for typing and display: lowercase it, drop
/// any punctuation, and take what the punctuation model made of that, where
/// it made anything. Without that the text is just lowercased and stripped.
pub fn polish(answer: Option<&str>, raw: &str) -> (r: String)
    ensures
        r@ == polished(
            raw@,
            match answer {
                Some(a) => Some(a@),
                None => None,
            },
        ),
{
    if text::trimmed(raw).as_str().is_empty() {
        let r = String::new();
        assert(r@ =~= Seq::<char>::empty());
        return r;
    }
    if let Some(a) = answer {
        if !text::trimmed(a).as_str().is_empty() {
            return a.to_string();
        }
    }
    normalize(raw)
}

/// What becomes of the text of a loaded backend.
pub struct Asr {
    kind: AsrKind,
    /// Whether an online punctuation model is loaded.
    punct: bool,
}

impl Asr {
    /// Which backend is loaded.
    pub closed spec fn backend(&self) -> AsrKind {
        self.kind
    }

    /// Whether an online punctuation model is loaded.
    pub closed spec fn punctuates(&self) -> bool {
        self.punct
    }

    /// Whether the output is polished: Zipformer's always, as it is all in
    /// capitals; Nemotron's where a punctuation model is loaded, else its
    /// native casing and punctuation are kept; Moonshine's never.
    pub open spec fn polishes(kind: AsrKind, punct: bool) -> bool {
        match kind {
            AsrKind::Zipformer => true,
            AsrKind::Nemotron => punct,
            AsrKind::Moonshine => false,
        }
    }

    /// A loaded backend. A punctuation model is only of use to one that
    /// streams.
    pub fn new(kind: AsrKind, punct: bool) -> (a: Self)
        ensures
            a.backend() == kind,
            a.punctuates() == (punct && kind.streams()),
    {
        Asr { kind, punct: punct && kind.is_streaming() }
    }

    pub fn kind(&self) -> (k: AsrKind)
        ensures
            k == self.backend(),
    {
        self.kind
    }

    /// True for the backends that produce live partials.
    pub fn is_streaming(&self) -> (b: bool)
        ensures
            b == self.backend().streams(),
    {
        self.kind.is_streaming()
    }

    /// A live streaming session, for the backends that stream.
    pub fn streaming_session(&self) -> (s: Option<StreamingSession>)
        ensures
            match s {
                Some(s) => self.backend().streams() && s.normalizes() == (self.backend()
                    is Zipformer) && s.punctuates() == self.punctuates(),
                None => !self.backend().streams(),
            },
    {
        match self.kind {
            AsrKind::Nemotron => Some(StreamingSession::new(self.punct, false)),
            AsrKind::Zipformer => Some(StreamingSession::new(self.punct, true)),
            AsrKind::Moonshine => None,
        }
    }

    /// The text of one whole utterance, given the recognizer's raw text and
    /// what the punctuation model, where there is one, made of it normalized.
    pub fn transcribe(&self, raw: &str, answer: Option<&str>) -> (r: String)
        ensures
            r@ == finished(
                Self::polishes(self.backend(), self.punctuates()),
                raw@,
                match answer {
                    Some(a) if self.punctuates() => Some(a@),
                    _ => None,
                },
            ),
    {
        let answer = if self.punct {
            answer
        } else {
            None
        };
        match self.kind {
            AsrKind::Zipformer => polish(answer, raw),
            AsrKind::Nemotron => if self.punct {
                polish(answer, raw)
            } else {
                text::trimmed(raw)
            },
            AsrKind::Moonshine => text::trimmed(raw),
        }
    }

    /// Find a Moonshine model: a `sherpa-onnx-moonshine-*` directory with
    /// `encoder_model*` and `decoder_model_merged*` (`.onnx` or `.ort`) and
    /// `tokens.txt`.
    pub fn find_moonshine(dirs: &Vec<ModelDir>) -> (r: Option<MoonshinePaths>)
        ensures
            match r {
                Some(p) => {
                    let d = dir_views(dirs@)[p.dir as int];
                    &&& Family::Moonshine.takes(dir_views(dirs@), p.dir as int)
                    &&& Naming::Moonshine.chosen(d.entries, "encoder_model"@) == Some(p.encoder@)
                    &&& Naming::Moonshine.chosen(d.entries, "decoder_model_merged"@) == Some(
                        p.merged_decoder@,
                    )
                    &&& p.tokens@ == "tokens.txt"@
                },
                None => forall|j: int|
                    0 <= j < dirs@.len() ==> !Family::Moonshine.complete(
                        #[trigger] dir_views(dirs@)[j],
                    ),
            },
    {
        let dir: usize = match Family::Moonshine.find_dir(dirs) {
            Some(i) => i,
            None => {
                return None;
            },
        };
        let entries = &dirs[dir].entries;
        assert(dir_views(dirs@)[dir as int] == dirs@[dir as int]@);
        match (find_model(entries, "encoder_model"), find_model(entries, "decoder_model_merged")) {
            (Some(encoder), Some(merged_decoder)) => Some(
                MoonshinePaths { dir, encoder, merged_decoder, tokens: "tokens.txt".to_string() },
            ),
            _ => None,
        }
    }

    /// Find the Nemotron streaming (English) model: a
    /// `sherpa-onnx-nemotron-speech-streaming-en-*` directory with encoder,
    /// decoder and joiner `*.onnx` and `tokens.txt`.
    pub fn find_nemotron(dirs: &Vec<ModelDir>) -> (r: Option<NemotronPaths>)
        ensures
            match r {
                Some(p) => {
                    let d = dir_views(dirs@)[p.dir as int];
                    &&& Family::Nemotron.takes(dir_views(dirs@), p.dir as int)
                    &&& Naming::Nemotron.chosen(d.entries, "encoder"@) == Some(p.encoder@)
                    &&& Naming::Nemotron.chosen(d.entries, "decoder"@) == Some(p.decoder@)
                    &&& Naming::Nemotron.chosen(d.entries, "joiner"@) == Some(p.joiner@)
                    &&& p.tokens@ == "tokens.txt"@
                },
                None => forall|j: int|
                    0 <= j < dirs@.len() ==> !Family::Nemotron.complete(
                        #[trigger] dir_views(dirs@)[j],
                    ),
            },
    {
        let dir: usize = match Family::Nemotron.find_dir(dirs) {
            Some(i) => i,
            None => {
                return None;
            },
        };
        let entries = &dirs[dir].entries;
        assert(dir_views(dirs@)[dir as int] == dirs@[dir as int]@);
        match (
            find_onnx_preferring_int8(entries, "encoder"),
            find_onnx_preferring_int8(entries, "decoder"),
            find_onnx_preferring_int8(entries, "joiner"),
        ) {
            (Some(encoder), Some(decoder), Some(joiner)) => Some(
                NemotronPaths {
                    dir,
                    encoder,
                    decoder,
                    joiner,
                    tokens: "tokens.txt".to_string(),
                },
            ),
            _ => None,
        }
    }

    /// Find the streaming Zipformer model: a
    /// `sherpa-onnx-streaming-zipformer-*` directory with encoder, decoder and
    /// joiner `*epoch*.onnx` and `tokens.txt`. `shown` is the models
    /// directory, and `dirs` what is in it, or `None` where it could not be
    /// read.
    pub fn resolve_zipformer_paths(shown: &str, dirs: Option<&Vec<ModelDir>>) -> (r: Result<
        ZipformerPaths,
        String,
    >)
        ensures
            match dirs {
                None => r matches Err(e) && e@ == "reading models dir "@ + shown@,
                Some(dirs) => match r {
                    Ok(p) => {
                        let d = dir_views(dirs@)[p.dir as int];
                        &&& Family::Zipformer.takes(dir_views(dirs@), p.dir as int)
                        &&& Naming::Zipformer.chosen(d.entries, "encoder"@) == Some(p.encoder@)
                        &&& Naming::Zipformer.chosen(d.entries, "decoder"@) == Some(p.decoder@)
                        &&& Naming::Zipformer.chosen(d.entries, "joiner"@) == Some(p.joiner@)
                        &&& p.tokens@ == "tokens.txt"@
                    },
                    Err(e) => e@ == no_model_text(shown@) && forall|j: int|
                        0 <= j < dirs@.len() ==> !Family::Zipformer.complete(
                            #[trigger] dir_views(dirs@)[j],
                        ),
                },
            },
    {
        let dirs = match dirs {
            Some(d) => d,
            None => {
                let e = text::concat3("reading models dir ", shown, "");
                proof {
                    reveal_strlit("");
                    assert(e@ =~= "reading models dir "@ + shown@);
                }
                return Err(e);
            },
        };
        if let Some(dir) = Family::Zipformer.find_dir(dirs) {
            let entries = &dirs[dir].entries;
            assert(dir_views(dirs@)[dir as int] == dirs@[dir as int]@);
            if let (Some(encoder), Some(decoder), Some(joiner)) = (
                find_zipformer_onnx(entries, "encoder"),
                find_zipformer_onnx(entries, "decoder"),
                find_zipformer_onnx(entries, "joiner"),
            ) {
                return Ok(
                    ZipformerPaths {
                        dir,
                        encoder,
                        decoder,
                        joiner,
                        tokens: "tokens.txt".to_string(),
                    },
                );
            }
        }
        Err(
            text::concat3(
                "no ASR model found under ",
                shown,
                ". Expected a sherpa-onnx-moonshine-* directory (encoder_model.*, decoder_model_merged.*, tokens.txt) or a sherpa-onnx-streaming-zipformer-* directory (encoder/decoder/joiner *epoch*.onnx, tokens.txt). Run scripts/download-models.sh first.",
            ),
        )
    }

    /// Find the optional online punctuation model: a
    /// `sherpa-onnx-online-punct-*` directory with `bpe.vocab` and
    /// `model.int8.onnx` (preferred) or `model.onnx`.
    pub fn find_online_punct(dirs: &Vec<ModelDir>) -> (r: Option<PunctPaths>)
        ensures
            match r {
                Some(p) => {
                    let d = dir_views(dirs@)[p.dir as int];
                    &&& Family::Punctuation.takes(dir_views(dirs@), p.dir as int)
                    &&& p.model@ == if d.files.contains("model.int8.onnx"@) {
                        "model.int8.onnx"@
                    } else {
                        "model.onnx"@
                    }
                    &&& p.vocab@ == "bpe.vocab"@
                },
                None => forall|j: int|
                    0 <= j < dirs@.len() ==> !Family::Punctuation.complete(
                        #[trigger] dir_views(dirs@)[j],
                    ),
            },
    {
        let dir: usize = match Family::Punctuation.find_dir(dirs) {
            Some(i) => i,
            None => {
                return None;
            },
        };
        assert(dir_views(dirs@)[dir as int] == dirs@[dir as int]@);
        let model = if text::has_text(&dirs[dir].files, "model.int8.onnx") {
            "model.int8.onnx".to_string()
        } else {
            "model.onnx".to_string()
        };
        Some(PunctPaths { dir, model, vocab: "bpe.vocab".to_string() })
    }
}

/// The output policy of one live stream.
pub struct StreamingSession {
    punct: bool,
    normalize: bool,
}

impl StreamingSession {
    /// Whether an online punctuation model is loaded.
    pub closed spec fn punctuates(&self) -> bool {
        self.punct
    }

    /// Whether the output must always be lowercased.
    pub closed spec fn normalizes(&self) -> bool {
        self.normalize
    }

    pub fn new(punct: bool, normalize: bool) -> (s: Self)
        ensures
            s.punctuates() == punct,
            s.normalizes() == normalize,
    {
        StreamingSession { punct, normalize }
    }

    /// What the punctuation model is asked about raw text: the text
    /// normalized, unless there is no model or nothing to ask about.
    pub fn query(&self, raw: &str) -> (q: Option<String>)
        ensures
            text::text_view(q) == if self.punctuates() && text::trim(raw@).len() > 0 {
                Some(normalized(raw@))
            } else {
                None
            },
    {
        if !self.punct || text::trimmed(raw).as_str().is_empty() {
            None
        } else {
            Some(normalize(raw))
        }
    }

    /// Apply the output policy to raw recognizer text, given what the
    /// punctuation model answered.
    pub fn finish(&self, raw: &str, answer: Option<&str>) -> (r: String)
        ensures
            r@ == finished(
                self.normalizes() || self.punctuates(),
                raw@,
                match answer {
                    Some(a) if self.punctuates() => Some(a@),
                    _ => None,
                },
            ),
    {
        let answer = if self.punct {
            answer
        } else {
            None
        };
        if self.normalize || self.punct {
            polish(answer, raw)
        } else {
            text::trimmed(raw)
        }
    }
}

/// A streamed utterance gets the same policy as one that is transcribed whole.
pub proof fn streaming_policy_is_the_batch_policy(kind: AsrKind, punct: bool)
    requires
        kind.streams(),
    ensures
        Asr::polishes(kind, punct) == (kind is Zipformer || punct),
{
}

/// The backends that a selection allows, in the order in which they are tried.
pub open spec fn order(selection: BackendSelection) -> Seq<AsrKind> {
    match selection {
        BackendSelection::Auto => seq![AsrKind::Nemotron, AsrKind::Zipformer, AsrKind::Moonshine],
        BackendSelection::Streaming => seq![AsrKind::Nemotron, AsrKind::Zipformer],
        BackendSelection::Zipformer => seq![AsrKind::Zipformer],
        BackendSelection::Moonshine => seq![AsrKind::Moonshine],
    }
}

/// The backends that a selection allows, in the order in which they are tried.
pub fn backend_order(selection: BackendSelection) -> (v: Vec<AsrKind>)
    ensures
        v@ == order(selection),
{
    let v = match selection {
        BackendSelection::Auto => vec![AsrKind::Nemotron, AsrKind::Zipformer, AsrKind::Moonshine],
        BackendSelection::Streaming => vec![AsrKind::Nemotron, AsrKind::Zipformer],
        BackendSelection::Zipformer => vec![AsrKind::Zipformer],
        BackendSelection::Moonshine => vec![AsrKind::Moonshine],
    };
    assert(v@ =~= order(selection));
    v
}

/// What became of loading a backend.
#[derive(Debug, Clone, PartialEq, Eq)]
pub enum LoadOutcome {
    Loaded,
    /// No model, or none that can be used: the reason.
    Unusable(String),
    /// A model file is there but corrupt: what the user is told.
    Corrupt(String),
}

/// What a bad model file makes of a backend: a corrupt one is reported, and
/// one that cannot be read leaves it unusable.
pub fn outcome_of(error: ModelError) -> (o: LoadOutcome)
    ensures
        match error {
            ModelError::Corrupt { context, mark } => o == LoadOutcome::Corrupt(context),
            ModelError::Unreadable { context, cause } => o == LoadOutcome::Unusable(context),
        },
{
    match error {
        ModelError::Corrupt { context, mark: _ } => LoadOutcome::Corrupt(context),
        ModelError::Unreadable { context, cause: _ } => LoadOutcome::Unusable(context),
    }
}

/// What to do next.
#[derive(Debug, Clone, PartialEq, Eq)]
pub enum ChainStep {
    /// Try to load this backend.
    Try(AsrKind),
    /// This backend is loaded.
    Use(AsrKind),
    /// No backend can be used: what the user is told.
    Fail(String),
    /// A model file is corrupt, which is no reason to try another backend:
    /// what the user is told, and the mark by which this is known.
    Corrupt { context: String, mark: CorruptModel },
}

/// An outcome with its text as a sequence of characters.
pub enum Outcome {
    Loaded,
    Unusable(Seq<char>),
    Corrupt(Seq<char>),
}

impl View for LoadOutcome {
    type V = Outcome;

    open spec fn view(&self) -> Outcome {
        match self {
            LoadOutcome::Loaded => Outcome::Loaded,
            LoadOutcome::Unusable(s) => Outcome::Unusable(s@),
            LoadOutcome::Corrupt(s) => Outcome::Corrupt(s@),
        }
    }
}

/// A step with its text as a sequence of characters.
pub enum Next {
    Try(AsrKind),
    Use(AsrKind),
    Fail(Seq<char>),
    Corrupt(Seq<char>),
}

impl View for ChainStep {
    type V = Next;

    open spec fn view(&self) -> Next {
        match self {
            ChainStep::Try(k) => Next::Try(*k),
            ChainStep::Use(k) => Next::Use(*k),
            ChainStep::Fail(s) => Next::Fail(s@),
            ChainStep::Corrupt { context, mark } => Next::Corrupt(context@),
        }
    }
}

/// What to do once the `at`-th backend of the order was tried: a loaded one is
/// used, a corrupt one is reported, and where one cannot be used the next is
/// tried, if there is one.
pub open spec fn next_step(order: Seq<AsrKind>, at: int, outcome: Outcome) -> Next {
    match outcome {
        Outcome::Loaded => Next::Use(order[at]),
        Outcome::Corrupt(why) => Next::Corrupt(why),
        Outcome::Unusable(why) => if at + 1 < order.len() {
            Next::Try(order[at + 1])
        } else {
            Next::Fail(why)
        },
    }
}

/// Where trying ends, from the `at`-th backend on, given what becomes of each.
pub open spec fn settles_on(
    order: Seq<AsrKind>,
    at: int,
    outcome: spec_fn(AsrKind) -> Outcome,
) -> Next
    decreases order.len() - at,
{
    match next_step(order, at, outcome(order[at])) {
        Next::Try(k) => if at + 1 < order.len() {
            settles_on(order, at + 1, outcome)
        } else {
            Next::Try(k)
        },
        end => end,
    }
}

/// The first backend of the order that can be loaded is used, unless one
/// before it has a corrupt model: that is reported, and not passed over.
pub proof fn first_usable_backend_is_used(
    order: Seq<AsrKind>,
    at: int,
    k: int,
    outcome: spec_fn(AsrKind) -> Outcome,
)
    requires
        0 <= at <= k < order.len(),
        forall|i: int| at <= i < k ==> outcome(#[trigger] order[i]) is Unusable,
    ensures
        outcome(order[k]) is Loaded ==> settles_on(order, at, outcome) == Next::Use(order[k]),
        outcome(order[k]) matches Outcome::Corrupt(why) ==> settles_on(order, at, outcome)
            == Next::Corrupt(why),
        outcome(order[k]) matches Outcome::Unusable(why) ==> k + 1 == order.len()
            ==> settles_on(order, at, outcome) == Next::Fail(why),
    decreases k - at,
{
    if at < k {
        assert(outcome(order[at]) is Unusable);
        first_usable_backend_is_used(order, at + 1, k, outcome);
    }
}

/// The backends that are tried one after the other.
pub struct BackendChain {
    order: Vec<AsrKind>,
    at: usize,
}

impl BackendChain {
    /// The backends, in order.
    pub closed spec fn order(&self) -> Seq<AsrKind> {
        self.order@
    }

    /// The one that is being tried.
    pub closed spec fn at(&self) -> int {
        self.at as int
    }

    /// There is always one that is being tried.
    pub open spec fn wf(&self) -> bool {
        0 <= self.at() < self.order().len()
    }

    /// The backends that a selection allows, from the first on.
    pub fn new(selection: BackendSelection) -> (c: Self)
        ensures
            c.wf(),
            c.order() == order(selection),
            c.at() == 0,
    {
        BackendChain { order: backend_order(selection), at: 0 }
    }

    /// The backend to try.
    pub fn current(&self) -> (k: AsrKind)
        requires
            self.wf(),
        ensures
            k == self.order()[self.at()],
    {
        self.order[self.at]
    }

    /// The backend was tried: what to do next.
    pub fn report(&mut self, outcome: LoadOutcome) -> (step: ChainStep)
        requires
            old(self).wf(),
        ensures
            final(self).wf(),
            final(self).order() == old(self).order(),
            step@ == next_step(old(self).order(), old(self).at(), outcome@),
            step is Corrupt <==> outcome is Corrupt,
            final(self).at() == if step@ is Try {
                old(self).at() + 1
            } else {
                old(self).at()
            },
    {
        match outcome {
            LoadOutcome::Loaded => ChainStep::Use(self.order[self.at]),
            LoadOutcome::Corrupt(context) => ChainStep::Corrupt { context, mark: CorruptModel },
            LoadOutcome::Unusable(why) => if self.order.len() - self.at > 1 {
                self.at += 1;
                ChainStep::Try(self.order[self.at])
            } else {
                ChainStep::Fail(why)
            },
        }
    }
}

/// Which files and directories are models.
impl Naming {
    /// A file is the part of a model exactly when its name holds the stem and
    /// has the right ending, wherever the stem stands; of a Zipformer model it
    /// also holds `epoch`.
    pub proof fn part_is_known_by_stem_and_ending(
        self,
        a: Seq<char>,
        stem: Seq<char>,
        b: Seq<char>,
        name: Seq<char>,
    )
        ensures
            self !is Zipformer ==> self.fits(a + stem + (b + ".onnx"@), stem),
            Naming::Moonshine.fits(a + stem + (b + ".ort"@), stem),
            text::contains(a + stem + (b + ".onnx"@), "epoch"@) ==> self.fits(
                a + stem + (b + ".onnx"@),
                stem,
            ),
            self.fits(name, stem) ==> text::contains(name, stem),
            self.fits(name, stem) ==> text::ends_with(name, ".onnx"@) || (self is Moonshine
                && text::ends_with(name, ".ort"@)),
            self.fits(name, stem) && self is Zipformer ==> text::contains(name, "epoch"@),
    {
        let onnx = a + stem + (b + ".onnx"@);
        let ort = a + stem + (b + ".ort"@);
        text::contains_what_stands_between(a, stem, b + ".onnx"@);
        text::contains_what_stands_between(a, stem, b + ".ort"@);
        assert(onnx =~= (a + stem + b) + ".onnx"@);
        assert(ort =~= (a + stem + b) + ".ort"@);
        text::ends_are_what_a_text_splits_at(onnx, ".onnx"@, a + stem + b, b);
        text::ends_are_what_a_text_splits_at(ort, ".ort"@, a + stem + b, b);
    }

    /// A quantized file is preferred for Nemotron, and one that is not for
    /// Zipformer; for Moonshine they are all the same.
    pub proof fn quantized_files_are_told_by_their_names(name: Seq<char>)
        ensures
            Naming::Nemotron.prefers(name) <==> text::contains(name, "int8"@),
            Naming::Zipformer.prefers(name) <==> !text::contains(name, "int8"@),
            Naming::Moonshine.prefers(name),
    {
    }

    /// Of the files that fit the first preferred one is taken, and where none
    /// is preferred the first that fits.
    pub proof fn first_of_the_best_is_taken(self, names: Seq<Seq<char>>, stem: Seq<char>, i: int)
        requires
            0 <= i < names.len(),
            self.fits(names[i], stem),
            ({
                ||| self.prefers(names[i]) && forall|j: int|
                    0 <= j < i && self.fits(#[trigger] names[j], stem) ==> !self.prefers(names[j])
                ||| (forall|j: int|
                    0 <= j < names.len() && self.fits(#[trigger] names[j], stem) ==> !self.prefers(
                        names[j],
                    )) && (forall|j: int| 0 <= j < i ==> !self.fits(#[trigger] names[j], stem))
            }),
        ensures
            self.chosen(names, stem) == Some(names[i]),
    {
        if self.prefers(names[i]) {
            self.lemma_first_is(names, stem, true, i);
        } else {
            self.lemma_first(names, stem, true);
            if let Some(name) = self.first(names, stem, true) {
                let k = names.index_of(name);
                assert(names[k] == name);
            }
            self.lemma_first_is(names, stem, false, i);
        }
    }

    /// The first that is looked for is found.
    proof fn lemma_first_is(
        self,
        names: Seq<Seq<char>>,
        stem: Seq<char>,
        preferred: bool,
        i: int,
    )
        requires
            0 <= i < names.len(),
            self.fits(names[i], stem),
            preferred ==> self.prefers(names[i]),
            forall|j: int|
                0 <= j < i && self.fits(#[trigger] names[j], stem) ==> preferred && !self.prefers(
                    names[j],
                ),
        ensures
            self.first(names, stem, preferred) == Some(names[i]),
        decreases i,
    {
        if i > 0 {
            let rest = names.skip(1);
            assert(rest[i - 1] == names[i]);
            assert(names[0] == names[0]);
            assert forall|j: int| 0 <= j < i - 1 && self.fits(#[trigger] rest[j], stem) implies preferred
                && !self.prefers(rest[j]) by {
                assert(rest[j] == names[j + 1]);
            }
            self.lemma_first_is(rest, stem, preferred, i - 1);
        }
    }
}

impl Family {
    /// A directory is known by how its name starts, whatever follows.
    pub proof fn directory_is_known_by_its_prefix(self, name: Seq<char>, rest: Seq<char>)
        ensures
            Family::Nemotron.named("sherpa-onnx-nemotron-speech-streaming-en-"@ + rest),
            Family::Zipformer.named("sherpa-onnx-streaming-zipformer-"@ + rest),
            Family::Moonshine.named("sherpa-onnx-moonshine-"@ + rest),
            Family::Punctuation.named("sherpa-onnx-online-punct-"@ + rest),
            Family::Nemotron.named(name) ==> text::starts_with(
                name,
                "sherpa-onnx-nemotron-speech-streaming-en-"@,
            ),
            Family::Zipformer.named(name) ==> text::starts_with(
                name,
                "sherpa-onnx-streaming-zipformer-"@,
            ),
            Family::Moonshine.named(name) ==> text::starts_with(name, "sherpa-onnx-moonshine-"@),
            Family::Punctuation.named(name) ==> text::starts_with(
                name,
                "sherpa-onnx-online-punct-"@,
            ),
    {
        let none = Seq::<char>::empty();
        text::ends_are_what_a_text_splits_at(
            none,
            "sherpa-onnx-nemotron-speech-streaming-en-"@,
            none,
            rest,
        );
        text::ends_are_what_a_text_splits_at(
            none,
            "sherpa-onnx-streaming-zipformer-"@,
            none,
            rest,
        );
        text::ends_are_what_a_text_splits_at(none, "sherpa-onnx-moonshine-"@, none, rest);
        text::ends_are_what_a_text_splits_at(none, "sherpa-onnx-online-punct-"@, none, rest);
    }

    /// Whether a directory holds a file for a part of a model.
    pub open spec fn holds_part(naming: Naming, d: DirModel, stem: Seq<char>) -> bool {
        exists|i: int| 0 <= i < d.entries.len() && naming.fits(#[trigger] d.entries[i], stem)
    }

    /// A model is complete exactly when its directory is one, has the right
    /// name and holds every part: encoder, decoder and joiner or the merged
    /// decoder, and the tokens; of a punctuation model the vocabulary and
    /// either model.
    pub proof fn complete_model_has_all_its_parts(d: DirModel)
        ensures
            Family::Nemotron.complete(d) <==> d.is_dir && Family::Nemotron.named(d.name)
                && Self::holds_part(Naming::Nemotron, d, "encoder"@) && Self::holds_part(
                Naming::Nemotron,
                d,
                "decoder"@,
            ) && Self::holds_part(Naming::Nemotron, d, "joiner"@) && d.files.contains(
                "tokens.txt"@,
            ),
            Family::Zipformer.complete(d) <==> d.is_dir && Family::Zipformer.named(d.name)
                && Self::holds_part(Naming::Zipformer, d, "encoder"@) && Self::holds_part(
                Naming::Zipformer,
                d,
                "decoder"@,
            ) && Self::holds_part(Naming::Zipformer, d, "joiner"@) && d.files.contains(
                "tokens.txt"@,
            ),
            Family::Moonshine.complete(d) <==> d.is_dir && Family::Moonshine.named(d.name)
                && Self::holds_part(Naming::Moonshine, d, "encoder_model"@) && Self::holds_part(
                Naming::Moonshine,
                d,
                "decoder_model_merged"@,
            ) && d.files.contains("tokens.txt"@),
            Family::Punctuation.complete(d) <==> d.is_dir && Family::Punctuation.named(d.name)
                && d.files.contains("bpe.vocab"@) && (d.files.contains("model.int8.onnx"@)
                || d.files.contains("model.onnx"@)),
    {
        Self::lemma_part(Naming::Nemotron, d, "encoder"@);
        Self::lemma_part(Naming::Nemotron, d, "decoder"@);
        Self::lemma_part(Naming::Nemotron, d, "joiner"@);
        Self::lemma_part(Naming::Zipformer, d, "encoder"@);
        Self::lemma_part(Naming::Zipformer, d, "decoder"@);
        Self::lemma_part(Naming::Zipformer, d, "joiner"@);
        Self::lemma_part(Naming::Moonshine, d, "encoder_model"@);
        Self::lemma_part(Naming::Moonshine, d, "decoder_model_merged"@);
    }

    /// A file is taken for a part exactly when there is one.
    proof fn lemma_part(naming: Naming, d: DirModel, stem: Seq<char>)
        ensures
            naming.chosen(d.entries, stem) is Some <==> Self::holds_part(naming, d, stem),
    {
        naming.chosen_is_the_best(d.entries, stem);
        if let Some(name) = naming.chosen(d.entries, stem) {
            let i = d.entries.index_of(name);
            assert(d.entries[i] == name);
        }
    }

    /// Where any directory is complete one is taken: a complete one that none
    /// of the others comes before.
    pub proof fn complete_directory_is_taken(self, dirs: Seq<DirModel>, j: int) -> (i: int)
        requires
            0 <= j < dirs.len(),
            self.complete(dirs[j]),
        ensures
            self.takes(dirs, i),
            self.complete(dirs[i]),
            forall|k: int|
                0 <= k < dirs.len() && self.complete(#[trigger] dirs[k]) ==> !text::precedes(
                    dirs[k].name,
                    dirs[i].name,
                ),
        decreases dirs.len(),
    {
        let init = dirs.drop_last();
        let last = dirs.len() - 1;
        if exists|k: int| 0 <= k < init.len() && self.complete(#[trigger] init[k]) {
            let k = choose|k: int| 0 <= k < init.len() && self.complete(#[trigger] init[k]);
            let best = self.complete_directory_is_taken(init, k);
            let later = self.complete(dirs[last]) && text::precedes(
                dirs[last].name,
                dirs[best].name,
            );
            let i = if later {
                last
            } else {
                best
            };
            assert(dirs[best] == init[best]);
            text::lemma_precedes_total(dirs[best].name, dirs[last].name);
            assert forall|k: int| 0 <= k < dirs.len() && self.complete(#[trigger] dirs[k]) implies (
            text::precedes(dirs[i].name, dirs[k].name) || (dirs[i].name == dirs[k].name && i <= k))
                && !text::precedes(dirs[k].name, dirs[i].name) by {
                text::lemma_precedes_total(dirs[i].name, dirs[k].name);
                if k < last {
                    assert(init[k] == dirs[k]);
                    self.lemma_before_the_best(init, dirs[last].name, best, k);
                }
            }
            i
        } else {
            assert(j == last) by {
                if j < last {
                    assert(init[j] == dirs[j]);
                }
            }
            assert forall|k: int| 0 <= k < dirs.len() && self.complete(#[trigger] dirs[k]) implies k
                == last by {
                if k < last {
                    assert(init[k] == dirs[k]);
                }
            }
            text::lemma_precedes_total(dirs[last].name, dirs[last].name);
            last
        }
    }

    /// What comes before the one that is taken comes before all.
    proof fn lemma_before_the_best(self, dirs: Seq<DirModel>, name: Seq<char>, i: int, k: int)
        requires
            self.takes(dirs, i),
            0 <= k < dirs.len(),
            self.complete(dirs[k]),
        ensures
            text::precedes(name, dirs[i].name) ==> text::precedes(name, dirs[k].name),
    {
        if text::precedes(name, dirs[i].name) && text::precedes(dirs[i].name, dirs[k].name) {
            text::lemma_precedes_transitive(name, dirs[i].name, dirs[k].name);
        }
    }
}

/// Dropping the marks drops the six marks wherever they stand, and keeps every
/// other character in its place.
pub proof fn only_marks_are_dropped(a: Seq<char>, c: char, b: Seq<char>)
    ensures
        c == ',' || c == '.' || c == '?' || c == '!' || c == ';' || c == ':' ==> without_marks(
            a + seq![c] + b,
        ) == without_marks(a) + without_marks(b),
        !(c == ',' || c == '.' || c == '?' || c == '!' || c == ';' || c == ':') ==> without_marks(
            a + seq![c] + b,
        ) == without_marks(a) + seq![c] + without_marks(b),
        without_marks(Seq::<char>::empty()) == Seq::<char>::empty(),
{
    let keep = |c: char| !is_mark(c);
    reveal(Seq::filter);
    Seq::filter_distributes_over_add(a + seq![c], b, keep);
    Seq::filter_distributes_over_add(a, seq![c], keep);
    assert(seq![c].drop_last() =~= Seq::<char>::empty());
    assert(Seq::<char>::empty().filter(keep) =~= Seq::<char>::empty());
    assert(seq![c].last() == c);
    assert(seq![c].filter(keep) =~= if keep(c) {
        seq![c]
    } else {
        Seq::<char>::empty()
    });
    assert(without_marks(a + seq![c] + b) =~= without_marks(a) + seq![c].filter(keep)
        + without_marks(b));
}

/// Normalizing takes what lies between the white space at the two ends, in
/// lowercase and without marks.
pub proof fn normalizing_trims_lowers_and_strips(raw: Seq<char>, from: int, to: int)
    requires
        0 <= from < to <= raw.len(),
        forall|i: int| 0 <= i < from ==> text::white_space(#[trigger] raw[i]),
        forall|i: int| to <= i < raw.len() ==> text::white_space(#[trigger] raw[i]),
        !text::white_space(raw[from]),
        !text::white_space(raw[to - 1]),
    ensures
        normalized(raw) == without_marks(text::lowered(raw.subrange(from, to))),
{
    text::trimming_leaves_what_is_between(raw, from, to);
}

/// Polishing: where nothing was said there is nothing, what the punctuation
/// model answers is taken as it is unless it is blank, and without an answer
/// the text is normalized.
pub proof fn answer_is_taken_unless_it_is_blank(raw: Seq<char>, answer: Seq<char>, k: int, j: int)
    requires
        0 <= k < raw.len(),
        !text::white_space(raw[k]),
    ensures
        0 <= j < answer.len() && !text::white_space(answer[j]) ==> polished(raw, Some(answer))
            == answer,
        (forall|i: int| 0 <= i < answer.len() ==> text::white_space(#[trigger] answer[i]))
            ==> polished(raw, Some(answer)) == normalized(raw),
        polished(raw, None) == normalized(raw),
{
    text::blank_is_all_white_space(raw);
    text::blank_is_all_white_space(answer);
}

/// Where nothing was said nothing comes of it, whatever the model answers.
pub proof fn nothing_comes_of_nothing(raw: Seq<char>, answer: Option<Seq<char>>, polishes: bool)
    requires
        forall|i: int| 0 <= i < raw.len() ==> text::white_space(#[trigger] raw[i]),
    ensures
        polished(raw, answer) == Seq::<char>::empty(),
        finished(polishes, raw, answer) == Seq::<char>::empty(),
{
    text::blank_is_all_white_space(raw);
    assert(text::trim(raw) =~= Seq::<char>::empty());
}

/// The output policy of each backend: Zipformer's text is always polished,
/// Nemotron's only with a punctuation model, and Moonshine's never; what is not
/// polished is what was said, without the white space around it.
pub proof fn each_backend_has_its_policy(
    punct: bool,
    raw: Seq<char>,
    answer: Option<Seq<char>>,
    from: int,
    to: int,
)
    requires
        0 <= from < to <= raw.len(),
        forall|i: int| 0 <= i < from ==> text::white_space(#[trigger] raw[i]),
        forall|i: int| to <= i < raw.len() ==> text::white_space(#[trigger] raw[i]),
        !text::white_space(raw[from]),
        !text::white_space(raw[to - 1]),
    ensures
        finished(Asr::polishes(AsrKind::Zipformer, punct), raw, answer) == polished(raw, answer),
        finished(Asr::polishes(AsrKind::Nemotron, true), raw, answer) == polished(raw, answer),
        finished(Asr::polishes(AsrKind::Nemotron, false), raw, answer) == raw.subrange(from, to),
        finished(Asr::polishes(AsrKind::Moonshine, punct), raw, answer) == raw.subrange(from, to),
        AsrKind::Nemotron.streams() && AsrKind::Zipformer.streams() && !AsrKind::Moonshine.streams(),
{
    text::trimming_leaves_what_is_between(raw, from, to);
}

/// The order in which backends are tried: the best that streams first, then
/// the other that streams, and the batch one only where any will do.
pub proof fn backends_are_tried_in_order()
    ensures
        order(BackendSelection::Zipformer) == seq![AsrKind::Zipformer],
        order(BackendSelection::Moonshine) == seq![AsrKind::Moonshine],
        order(BackendSelection::Streaming) == seq![AsrKind::Nemotron] + order(
            BackendSelection::Zipformer,
        ),
        order(BackendSelection::Auto) == order(BackendSelection::Streaming) + order(
            BackendSelection::Moonshine,
        ),
{
    assert(order(BackendSelection::Streaming) =~= seq![AsrKind::Nemotron] + order(
        BackendSelection::Zipformer,
    ));
    assert(order(BackendSelection::Auto) =~= order(BackendSelection::Streaming) + order(
        BackendSelection::Moonshine,
    ));
}

/// After each backend: a loaded one is used, a corrupt one ends the search, and
/// where one cannot be used the one behind it is tried, or there is none.
pub proof fn each_backend_leads_to_the_next(order: Seq<AsrKind>, at: int, why: Seq<char>)
    requires
        0 <= at < order.len(),
    ensures
        next_step(order, at, Outcome::Loaded) == Next::Use(order[at]),
        next_step(order, at, Outcome::Corrupt(why)) == Next::Corrupt(why),
        at + 1 < order.len() ==> next_step(order, at, Outcome::Unusable(why)) == Next::Try(
            order[at + 1],
        ),
        at + 1 == order.len() ==> next_step(order, at, Outcome::Unusable(why)) == Next::Fail(why),
{
}

/// What is said when no model is found names the directory that was searched.
pub proof fn no_model_text_names_the_directory(shown: Seq<char>)
    ensures
        text::starts_with(no_model_text(shown), "no ASR model found under "@ + shown),
{
    let head = "no ASR model found under "@ + shown;
    let tail =
        ". Expected a sherpa-onnx-moonshine-* directory (encoder_model.*, decoder_model_merged.*, tokens.txt) or a sherpa-onnx-streaming-zipformer-* directory (encoder/decoder/joiner *epoch*.onnx, tokens.txt). Run scripts/download-models.sh first."@;
    assert(no_model_text(shown) =~= head + tail);
    text::ends_are_what_a_text_splits_at(head, head, head, tail);
}

} // verus!
