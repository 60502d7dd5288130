//! Putting text into the focused window: what to type, and with which tool.
use vstd::prelude::*;
use vstd::string::*;

use crate::text;

verus! {

/// What is left of `typed` after `backspaces` deletions from its end, and
/// then typing `to_type`.
pub open spec fn retyped(typed: Seq<char>, backspaces: int, to_type: Seq<char>) -> Seq<char> {
    typed.take(typed.len() - backspaces) + to_type
}

/// Compute how to transform the currently typed text into `new` with the
/// fewest edits, given that one can only delete from the end and append.
///
/// Returns `(backspaces, to_type)`: press BackSpace `backspaces` times, then
/// type `to_type`. When `typed` is a prefix of `new` this is a pure extension
/// (0 backspaces). When they diverge, it rewinds to the longest common prefix
/// and retypes the rest.
pub fn diff<'a>(typed: &str, new: &'a str) -> (r: (usize, &'a str))
    ensures
        r.0 == typed@.len() - text::common_prefix(typed@, new@),
        r.1@ == new@.skip(text::common_prefix(typed@, new@) as int),
{
    let t = text::chars_of(typed);
    let n = text::chars_of(new);
    let common: usize = text::common_prefix_len(&t, &n);
    let rest = new.substring_char(common, n.len());
    assert(new@.subrange(common as int, new@.len() as int) == new@.skip(common as int));
    (t.len() - common, rest)
}

/// The edit that `diff` gives turns the typed text into the new one.
pub proof fn diff_converges(typed: Seq<char>, new: Seq<char>)
    ensures
        retyped(
            typed,
            typed.len() - text::common_prefix(typed, new),
            new.skip(text::common_prefix(typed, new) as int),
        ) == new,
{
    text::lemma_common_prefix(typed, new);
    let n = text::common_prefix(typed, new) as int;
    assert(new.take(n) + new.skip(n) == new);
}

/// No edit that turns the typed text into the new one deletes or types fewer
/// characters than the one that `diff` gives.
pub proof fn diff_is_minimal(typed: Seq<char>, new: Seq<char>, backspaces: int, to_type: Seq<char>)
    requires
        0 <= backspaces <= typed.len(),
        retyped(typed, backspaces, to_type) == new,
    ensures
        backspaces >= typed.len() - text::common_prefix(typed, new),
        to_type.len() >= new.skip(text::common_prefix(typed, new) as int).len(),
{
    text::lemma_common_prefix(typed, new);
    let kept = typed.len() - backspaces;
    assert(new.take(kept) == typed.take(kept));
}

/// When the typed text is a prefix of the new one, nothing is deleted.
pub proof fn diff_of_extension(typed: Seq<char>, more: Seq<char>)
    ensures
        text::common_prefix(typed, typed + more) == typed.len(),
        (typed + more).skip(typed.len() as int) == more,
{
    let new = typed + more;
    assert(typed.take(typed.len() as int) == new.take(typed.len() as int));
    text::lemma_common_prefix_is(typed, new, typed.len() as int);
    assert(new.skip(typed.len() as int) == more);
}

/// `s` with its first character in uppercase.
pub open spec fn capitalized(s: Seq<char>) -> Seq<char> {
    if s.len() == 0 {
        s
    } else {
        text::upper(s[0]) + s.skip(1)
    }
}

/// `head` followed by all but the first character of `text`.
pub fn with_head(head: &str, text: &str) -> (r: String)
    ensures
        r@ == if text@.len() == 0 {
            head@
        } else {
            head@ + text@.skip(1)
        },
{
    let cs = text::chars_of(text);
    let mut out = String::new();
    out.append(head);
    if cs.len() > 0 {
        let rest = text::string_of_range(&cs, 1, cs.len());
        assert(rest@ == text@.skip(1));
        out.append(rest.as_str());
    }
    out
}

/// Capitalize the first letter, keep the rest as it is. Doing so once more
/// changes nothing.
pub fn capitalize_first(text: &str) -> (r: String)
    ensures
        r@ == capitalized(text@),
        text@.len() > 0 ==> r@.len() > 0,
        capitalized(r@) == r@,
{
    let mut chars = text.chars();
    match chars.next() {
        Some(c) => {
            let head = text::upper_of(c);
            let r = with_head(head.as_str(), text);
            assert(seq![r@[0]] + r@.skip(1) == r@);
            r
        },
        None => String::new(),
    }
}

/// How long any single tool may take, in seconds. A tool that hangs would
/// otherwise hold up the end of a session.
pub const SUBPROCESS_TIMEOUT_SECS: u64 = 5;

/// How long a clipboard tool is watched for a failure, in milliseconds. One
/// that is still running then serves the clipboard in the background.
pub const DETACH_GRACE_MS: u64 = 400;

/// The clipboard tools to try, in order, for one session type: the tool of the
/// session first, the other as the fallback. `xclip` needs to be told the
/// selection, as its default one is not what is pasted.
pub fn clipboard_attempts(wayland: bool) -> (r: [(&'static str, Vec<&'static str>); 2])
    ensures
        ({
            let (wl, x) = if wayland {
                (0int, 1int)
            } else {
                (1int, 0int)
            };
            &&& r[wl].0@ == "wl-copy"@
            &&& r[wl].1@.len() == 0
            &&& r[x].0@ == "xclip"@
            &&& r[x].1@.len() == 2
            &&& r[x].1@[0]@ == "-selection"@
            &&& r[x].1@[1]@ == "clipboard"@
        }),
{
    let none: Vec<&'static str> = Vec::new();
    let selection: Vec<&'static str> = vec!["-selection", "clipboard"];
    if wayland {
        [("wl-copy", none), ("xclip", selection)]
    } else {
        [("xclip", selection), ("wl-copy", none)]
    }
}

/// The arguments with which `ydotool` types `text`. The text stands behind the
/// end of options: one that starts with a dash would be taken for an option.
pub fn type_args(text: &str) -> (v: Vec<String>)
    ensures
        text::views(v@) == seq!["type"@, "--"@, text@],
{
    let v = vec!["type".to_string(), "--".to_string(), text.to_string()];
    assert(text::views(v@) =~= seq!["type"@, "--"@, text@]);
    v
}

/// The arguments with which `ydotool` types `text` as part of an edit. `None`
/// where there is nothing to type.
pub fn insert_args(text: &str) -> (r: Option<Vec<String>>)
    ensures
        match r {
            None => text@.len() == 0,
            Some(v) => text@.len() > 0 && text::views(v@) == seq!["type"@, "--"@, text@],
        },
{
    if text.is_empty() {
        None
    } else {
        Some(type_args(text))
    }
}

/// The arguments with which `ydotool` pastes.
pub fn paste_args() -> (v: Vec<String>)
    ensures
        text::views(v@) == seq!["key"@, "ctrl+v"@],
{
    let v = vec!["key".to_string(), "ctrl+v".to_string()];
    assert(text::views(v@) =~= seq!["key"@, "ctrl+v"@]);
    v
}

/// The command line, after `ydotool`, that deletes `n` characters: without a
/// delay between the keys.
pub open spec fn backspace_line(n: nat) -> Seq<Seq<char>> {
    seq![
        "key"@,
        "--repeat"@,
        text::decimal(n),
        "--delay"@,
        "0"@,
        "--repeat-delay"@,
        "0"@,
        "Backspace"@,
    ]
}

/// The arguments with which `ydotool` deletes `n` characters from the end of
/// the focused input. `None` where there is nothing to delete.
pub fn backspace_args(n: u32) -> (r: Option<Vec<String>>)
    ensures
        match r {
            None => n == 0,
            Some(v) => n > 0 && text::views(v@) == backspace_line(n as nat),
        },
{
    if n == 0 {
        return None;
    }
    let count = text::decimal_string(n as u64);
    let v = vec![
        "key".to_string(),
        "--repeat".to_string(),
        count,
        "--delay".to_string(),
        "0".to_string(),
        "--repeat-delay".to_string(),
        "0".to_string(),
        "Backspace".to_string(),
    ];
    assert(text::views(v@) =~= backspace_line(n as nat));
    Some(v)
}

/// What is said of a tool that took too long.
pub fn timeout_message(what: &str) -> (s: String)
    ensures
        s@ == what@ + " did not finish within 5s"@,
{
    let mut s = String::new();
    s.append(what);
    s.append(" did not finish within 5s");
    assert(s@ =~= what@ + " did not finish within 5s"@);
    s
}

/// What is said of `ydotool` when it could not be started for a reason.
pub fn spawn_message(reason: &str) -> (s: String)
    ensures
        s@ == "failed to spawn ydotool (is it installed and on PATH?): "@ + reason@,
{
    let mut s = String::new();
    s.append("failed to spawn ydotool (is it installed and on PATH?): ");
    s.append(reason);
    assert(s@ =~= "failed to spawn ydotool (is it installed and on PATH?): "@ + reason@);
    s
}

/// What is said of a tool that failed: its status, and what it printed.
pub open spec fn exit_text(tool: Seq<char>, status: Seq<char>, stderr: Seq<char>) -> Seq<char> {
    tool + " exited with "@ + status + ": "@ + text::trim(stderr)
}

/// Whether a tool that exited did what it should: its failure is reported with
/// its status and what it printed.
pub fn exit_result(tool: &str, success: bool, status: &str, stderr: &str) -> (r: Result<(), String>)
    ensures
        match r {
            Ok(_) => success,
            Err(e) => !success && e@ == exit_text(tool@, status@, stderr@),
        },
{
    if success {
        return Ok(());
    }
    let printed = text::trimmed(stderr);
    let mut s = String::new();
    s.append(tool);
    s.append(" exited with ");
    s.append(status);
    s.append(": ");
    s.append(printed.as_str());
    assert(s@ =~= exit_text(tool@, status@, stderr@));
    Err(s)
}

/// What became of writing to a clipboard tool.
pub enum Written<E> {
    Whole,
    /// The tool exited before it read everything.
    BrokenPipe,
    Failed(E),
}

/// Whether to wait for the tool: its own exit tells more than a broken pipe,
/// but any other failure to write is reported.
pub fn after_write<E>(written: Written<E>) -> (r: Result<(), E>)
    ensures
        r == match written {
            Written::Whole | Written::BrokenPipe => Ok(()),
            Written::Failed(e) => Err(e),
        },
{
    match written {
        Written::Whole | Written::BrokenPipe => Ok(()),
        Written::Failed(e) => Err(e),
    }
}

/// What became of a clipboard tool by the end of the grace period.
pub enum Watched<E> {
    Exited { success: bool, status: String, stderr: String },
    /// It could not be waited for.
    Failed(E),
    /// It is still running, in the background.
    Running,
}

/// Why a clipboard tool did not take the text.
pub enum ToolError<E> {
    /// It exited: what is said of that.
    Exit(String),
    /// It could not be run.
    Io(E),
}

/// Whether a clipboard tool took the text. One that is still running did.
pub fn after_watch<E>(tool: &str, watched: Watched<E>) -> (r: Result<(), ToolError<E>>)
    ensures
        match watched {
            Watched::Exited { success, status, stderr } => if success {
                r is Ok
            } else {
                r matches Err(ToolError::Exit(e)) && e@ == exit_text(tool@, status@, stderr@)
            },
            Watched::Failed(e) => r == Err::<(), ToolError<E>>(ToolError::Io(e)),
            Watched::Running => r is Ok,
        },
{
    match watched {
        Watched::Exited { success, status, stderr } => match exit_result(
            tool,
            success,
            status.as_str(),
            stderr.as_str(),
        ) {
            Ok(_) => Ok(()),
            Err(e) => Err(ToolError::Exit(e)),
        },
        Watched::Failed(e) => Err(ToolError::Io(e)),
        Watched::Running => Ok(()),
    }
}

/// What to do next to paste a text.
pub enum PasteStep<E> {
    /// Copy the text with this one of the clipboard tools.
    Copy(usize),
    /// Send the paste key.
    Key,
    /// It is pasted, or there was nothing to paste.
    Done,
    /// It could not be pasted.
    Fail(E),
    /// There is no tool to copy it with.
    NoTool,
}

/// How far a paste has come.
#[derive(Debug, Clone, Copy, PartialEq, Eq, Structural)]
pub enum PasteStage {
    /// A clipboard tool is running.
    Copying(usize),
    /// The key is being sent.
    Keying,
    Over,
}

/// What is said when there is no tool to copy with.
pub fn no_tool_message() -> (s: String)
    ensures
        s@ == "no clipboard tool available (wl-copy/xclip)"@,
{
    "no clipboard tool available (wl-copy/xclip)".to_string()
}

/// Inserting a text into the focused window as a single paste: copy it to the
/// clipboard, then send the key.
pub struct PasteRun {
    tools: usize,
    stage: PasteStage,
}

/// The next step of a paste with so many tools, after a step that ended with
/// `result`: the first tool that succeeds wins, the error of the last one is
/// reported, and the key is sent only once the clipboard is set.
pub open spec fn next_paste<E>(tools: int, stage: PasteStage, result: Result<(), E>) -> (
    PasteStep<E>,
    PasteStage,
) {
    match (stage, result) {
        (PasteStage::Copying(_), Ok(_)) => (PasteStep::Key, PasteStage::Keying),
        (PasteStage::Copying(at), Err(e)) => if at + 1 < tools {
            (PasteStep::Copy((at + 1) as usize), PasteStage::Copying((at + 1) as usize))
        } else {
            (PasteStep::Fail(e), PasteStage::Over)
        },
        (PasteStage::Keying, Ok(_)) => (PasteStep::Done, PasteStage::Over),
        (PasteStage::Keying, Err(e)) => (PasteStep::Fail(e), PasteStage::Over),
        (PasteStage::Over, _) => (PasteStep::Done, PasteStage::Over),
    }
}

impl PasteRun {
    /// How many clipboard tools there are.
    pub closed spec fn tools(&self) -> int {
        self.tools as int
    }

    /// How far the paste has come.
    pub closed spec fn stage(&self) -> PasteStage {
        self.stage
    }

    /// A tool that runs is one of them.
    pub open spec fn wf(&self) -> bool {
        self.stage() matches PasteStage::Copying(at) ==> at < self.tools()
    }

    /// Paste `text` with so many clipboard tools. An empty text needs nothing.
    pub fn new<E>(text: &str, tools: usize) -> (r: (Self, PasteStep<E>))
        ensures
            r.0.wf(),
            r.0.tools() == tools,
            ({
                if text@.len() == 0 {
                    r.1 is Done && r.0.stage() is Over
                } else if tools == 0 {
                    r.1 is NoTool && r.0.stage() is Over
                } else {
                    r.1 == PasteStep::<E>::Copy(0) && r.0.stage() == PasteStage::Copying(0)
                }
            }),
    {
        if text.is_empty() {
            (PasteRun { tools, stage: PasteStage::Over }, PasteStep::Done)
        } else if tools == 0 {
            (PasteRun { tools, stage: PasteStage::Over }, PasteStep::NoTool)
        } else {
            (PasteRun { tools, stage: PasteStage::Copying(0) }, PasteStep::Copy(0))
        }
    }

    /// A step ended with `result`: what to do next.
    pub fn report<E>(&mut self, result: Result<(), E>) -> (step: PasteStep<E>)
        requires
            old(self).wf(),
        ensures
            final(self).wf(),
            final(self).tools() == old(self).tools(),
            (step, final(self).stage()) == next_paste(old(self).tools(), old(self).stage(), result),
    {
        match self.stage {
            PasteStage::Copying(at) => match result {
                Ok(_) => {
                    self.stage = PasteStage::Keying;
                    PasteStep::Key
                },
                Err(e) => if self.tools - at > 1 {
                    self.stage = PasteStage::Copying(at + 1);
                    PasteStep::Copy(at + 1)
                } else {
                    self.stage = PasteStage::Over;
                    PasteStep::Fail(e)
                },
            },
            PasteStage::Keying => {
                self.stage = PasteStage::Over;
                match result {
                    Ok(_) => PasteStep::Done,
                    Err(e) => PasteStep::Fail(e),
                }
            },
            PasteStage::Over => PasteStep::Done,
        }
    }
}

/// The last step of a paste from tool `at` on, given what becomes of each tool
/// and of the key.
pub open spec fn paste_ends<E>(
    tools: int,
    at: int,
    copied: spec_fn(int) -> Result<(), E>,
    keyed: Result<(), E>,
) -> PasteStep<E>
    decreases tools - at,
{
    match next_paste(tools, PasteStage::Copying(at as usize), copied(at)) {
        (PasteStep::Key, stage) => next_paste(tools, stage, keyed).0,
        (PasteStep::Copy(_), _) => if at + 1 < tools {
            paste_ends(tools, at + 1, copied, keyed)
        } else {
            PasteStep::Done
        },
        (step, _) => step,
    }
}

/// The first clipboard tool that takes the text decides: what becomes of the
/// key then is what becomes of the paste.
pub proof fn first_working_tool_wins<E>(
    tools: usize,
    at: int,
    k: int,
    copied: spec_fn(int) -> Result<(), E>,
    keyed: Result<(), E>,
)
    requires
        0 <= at <= k < tools,
        forall|i: int| at <= i < k ==> #[trigger] copied(i) is Err,
        copied(k) is Ok,
    ensures
        paste_ends(tools as int, at, copied, keyed) == match keyed {
            Ok(_) => PasteStep::Done,
            Err(e) => PasteStep::Fail(e),
        },
    decreases k - at,
{
    if at < k {
        assert(copied(at) is Err);
        first_working_tool_wins(tools, at + 1, k, copied, keyed);
    }
}

/// When no clipboard tool takes the text, the error of the last one is what is
/// reported, and no key is sent: whatever the clipboard held is not pasted.
pub proof fn no_key_without_the_clipboard<E>(
    tools: usize,
    at: int,
    copied: spec_fn(int) -> Result<(), E>,
    keyed: Result<(), E>,
)
    requires
        0 <= at < tools,
        forall|i: int| at <= i < tools ==> #[trigger] copied(i) is Err,
    ensures
        paste_ends(tools as int, at, copied, keyed) == PasteStep::Fail(
            copied(tools - 1)->Err_0,
        ),
        !(next_paste(tools as int, PasteStage::Copying(at as usize), copied(at)).0 is Key),
    decreases tools - at,
{
    assert(copied(at) is Err);
    if at + 1 < tools {
        no_key_without_the_clipboard(tools, at + 1, copied, keyed);
    }
}

/// Capitalizing changes the first letter and nothing else: a lowercase ASCII
/// letter becomes its uppercase, any other ASCII character stays, and so does
/// all that follows.
pub proof fn capitalizing_changes_the_first_letter(s: Seq<char>, rest: Seq<char>)
    requires
        s.len() == 1,
    ensures
        capitalized(s + rest) == capitalized(s) + rest,
        capitalized(s).len() > 0,
        capitalized(Seq::<char>::empty()) == Seq::<char>::empty(),
        'a' <= s[0] <= 'z' ==> capitalized(s).len() == 1 && capitalized(s)[0] as u32 == s[0] as u32
            - 32,
        (s[0] as u32) < 128 && !('a' <= s[0] <= 'z') ==> capitalized(s) == s,
        s[0] as u32 >= 128 && text::is_word(text::uppercase(s[0])) ==> capitalized(s)
            == text::uppercase(s[0]),
        !text::white_space(s[0]) ==> text::is_word(capitalized(s)),
{
    let t = s + rest;
    text::lemma_upper(s[0]);
    assert(t[0] == s[0]);
    assert(t.skip(1) =~= rest);
    assert(s.skip(1) =~= Seq::<char>::empty());
    assert(capitalized(s) =~= text::upper(s[0]));
    if (s[0] as u32) < 128 {
        text::ascii_letters_change_case(s[0]);
        assert(!('a' <= s[0] <= 'z') ==> capitalized(s) =~= s);
    }
}

/// The steps of a paste: the key is sent exactly when a tool took the text, the
/// next tool is tried exactly when one did not and there is another, and the
/// error of the last tool or of the key is what is reported.
pub proof fn paste_steps_follow_the_results<E>(tools: usize, at: usize, e: E)
    requires
        at < tools,
    ensures
        next_paste(tools as int, PasteStage::Copying(at), Ok::<(), E>(())) == (
            PasteStep::<E>::Key,
            PasteStage::Keying,
        ),
        at + 1 < tools ==> next_paste(tools as int, PasteStage::Copying(at), Err::<(), E>(e)) == (
            PasteStep::<E>::Copy((at + 1) as usize),
            PasteStage::Copying((at + 1) as usize),
        ),
        at + 1 == tools ==> next_paste(tools as int, PasteStage::Copying(at), Err::<(), E>(e)) == (
            PasteStep::Fail(e),
            PasteStage::Over,
        ),
        next_paste(tools as int, PasteStage::Keying, Ok::<(), E>(())) == (
            PasteStep::<E>::Done,
            PasteStage::Over,
        ),
        next_paste(tools as int, PasteStage::Keying, Err::<(), E>(e)) == (
            PasteStep::Fail(e),
            PasteStage::Over,
        ),
{
}

/// The command that deletes names how often the key is repeated in decimal,
/// whatever the number, and asks for no delay.
pub proof fn backspace_line_repeats_the_key(n: nat)
    ensures
        backspace_line(n).len() == 8,
        text::number_of(backspace_line(n)[2]) == n,
        backspace_line(n)[0] == "key"@,
        backspace_line(n)[1] == "--repeat"@,
        backspace_line(n)[3] == "--delay"@,
        backspace_line(n)[4] == "0"@,
        backspace_line(n)[5] == "--repeat-delay"@,
        backspace_line(n)[6] == "0"@,
        backspace_line(n)[7] == "Backspace"@,
{
    text::decimal_stands_for_its_number(n);
}

/// What is said of a tool that failed holds its name, its status and what it
/// printed, without the white space around that.
pub proof fn exit_text_holds_what_was_printed(
    tool: Seq<char>,
    status: Seq<char>,
    stderr: Seq<char>,
    from: int,
    to: int,
)
    requires
        0 <= from <= to <= stderr.len(),
        forall|i: int| 0 <= i < from ==> text::white_space(#[trigger] stderr[i]),
        forall|i: int| to <= i < stderr.len() ==> text::white_space(#[trigger] stderr[i]),
        from < to ==> !text::white_space(stderr[from]) && !text::white_space(stderr[to - 1]),
    ensures
        exit_text(tool, status, stderr) == tool + " exited with "@ + status + ": "@
            + stderr.subrange(from, to),
{
    text::trimming_leaves_what_is_between(stderr, from, to);
}

} // verus!
