use saytype::injector::{
    after_watch, after_write, backspace_args, capitalize_first, clipboard_attempts, diff,
    exit_result, insert_args, no_tool_message, paste_args, spawn_message, timeout_message, type_args, PasteRun,
    PasteStep, ToolError, Watched, Written,
};

#[test]
fn capitalizes_first_char() {
    assert_eq!(capitalize_first("hello world"), "Hello world");
    assert_eq!(capitalize_first("HELLO"), "HELLO");
    assert_eq!(capitalize_first(""), "");
    assert_eq!(capitalize_first("123 abc"), "123 abc");
}

#[test]
fn diff_pure_extension() {
    assert_eq!(diff("", "hello"), (0, "hello"));
    assert_eq!(diff("Hello", "Hello world"), (0, " world"));
    assert_eq!(diff("Hello", "Hello"), (0, ""));
}

#[test]
fn diff_tail_correction() {
    // Diverge at the tail: rewind to common prefix "The", retype "re".
    assert_eq!(diff("Their", "There"), (2, "re"));
    assert_eq!(diff("con", "connect"), (0, "nect"));
    // Full rewind when first char changes.
    assert_eq!(diff("the", "The"), (3, "The"));
}

#[test]
fn diff_shrinking_target() {
    // Target shorter than typed: backspace the rest, type nothing.
    assert_eq!(diff("Hello", "Hell"), (1, ""));
    assert_eq!(diff("abc", ""), (3, ""));
}

#[test]
fn diff_multibyte() {
    // Common prefix must be counted in chars, not bytes.
    assert_eq!(diff("café", "cafés"), (0, "s"));
    // Replace the multibyte é with e: one backspace, type "e".
    assert_eq!(diff("café", "cafe"), (1, "e"));
}

#[test]
fn diff_empty_both_sides() {
    assert_eq!(diff("", ""), (0, ""));
}

#[test]
fn diff_multibyte_boundaries() {
    // `new` is a char-prefix of `typed` ending just before a multibyte
    // char: the backspace count is in chars, and the retype offset must
    // land on a char boundary in `new` (it does: it is a sum of char
    // widths, never a byte mid-sequence).
    assert_eq!(diff("café", "caf"), (1, ""));
    // Diverge at a multibyte char: rewind to the common prefix, retype
    // the (ASCII) replacement and everything after it.
    assert_eq!(diff("naïve", "naive"), (3, "ive"));
    // Pure extension past a multibyte common prefix.
    assert_eq!(diff("café", "café au lait"), (0, " au lait"));
    // Full replacement of a single multibyte char.
    assert_eq!(diff("é", "e"), (1, "e"));
}

#[test]
fn capitalize_first_multichar_uppercase() {
    // ß uppercases to two chars (SS), not one: the extend-based build
    // must absorb the whole grapheme without truncating the rest.
    assert_eq!(capitalize_first("ßtraße"), "SStraße");
}

#[test]
fn capitalize_first_leading_non_letters() {
    // Whitespace-only and leading punctuation: "capitalize" is a no-op
    // on them, and nothing is dropped or reordered.
    assert_eq!(capitalize_first("   "), "   ");
    assert_eq!(capitalize_first(", hello"), ", hello");
}

#[test]
fn clipboard_attempts_orders_the_session_tool_first() {
    let wayland = clipboard_attempts(true);
    assert_eq!(wayland[0].0, "wl-copy");
    assert!(wayland[0].1.is_empty());
    assert_eq!(wayland[1].0, "xclip");
    assert_eq!(wayland[1].1, ["-selection", "clipboard"]);
    let x11 = clipboard_attempts(false);
    assert_eq!(x11[0].0, "xclip");
    assert_eq!(x11[0].1, ["-selection", "clipboard"]);
    assert_eq!(x11[1].0, "wl-copy");
    assert!(x11[1].1.is_empty());
}

/// Drives a paste with these results of the clipboard tools and of the key;
/// returns the steps by name, and the error.
fn paste(text: &str, tools: &[Result<(), &'static str>], key: Result<(), &'static str>) -> (Vec<String>, Option<&'static str>) {
    let mut trace = Vec::new();
    let (mut run, mut step) = PasteRun::new::<&'static str>(text, tools.len());
    loop {
        match step {
            PasteStep::Copy(i) => {
                trace.push(format!("copy {i}"));
                step = run.report(tools[i]);
            }
            PasteStep::Key => {
                trace.push("key".to_string());
                step = run.report(key);
            }
            PasteStep::Done => return (trace, None),
            PasteStep::Fail(e) => return (trace, Some(e)),
            PasteStep::NoTool => return (trace, Some("no tool")),
        }
    }
}

fn names(trace: &[&str]) -> Vec<String> {
    trace.iter().map(|s| s.to_string()).collect()
}

#[test]
fn empty_paste_is_a_noop() {
    // A deferred session in which the user erased everything ends with an
    // empty transcript: nothing is copied and no key is sent.
    assert_eq!(paste("", &[Ok(()), Ok(())], Ok(())), (vec![], None));
}

#[test]
fn zero_backspaces_is_a_noop() {
    assert_eq!(backspace_args(0), None);
}

#[test]
fn backspaces_are_one_command() {
    assert_eq!(
        backspace_args(12).unwrap().join(" "),
        "key --repeat 12 --delay 0 --repeat-delay 0 Backspace"
    );
    assert_eq!(backspace_args(u32::MAX).unwrap()[2], "4294967295");
}

#[test]
fn clipboard_tool_failure_reports_stderr() {
    let watched: Watched<String> = Watched::Exited {
        success: false,
        status: "exit status: 1".into(),
        stderr: "boom\n".into(),
    };
    match after_watch("tool", watched) {
        Err(ToolError::Exit(e)) => assert_eq!(e, "tool exited with exit status: 1: boom"),
        _ => panic!("a failure is expected"),
    }
}

#[test]
fn clipboard_missing_tool_is_an_error() {
    match after_watch("tool", Watched::Failed("not found")) {
        Err(ToolError::Io(e)) => assert_eq!(e, "not found"),
        _ => panic!("a failure is expected"),
    }
    assert_eq!(paste("x", &[Err("not found")], Ok(())), (names(&["copy 0"]), Some("not found")));
}

#[test]
fn clipboard_backgrounding_is_treated_as_success() {
    assert!(after_watch::<String>("xclip", Watched::Running).is_ok());
    let exited: Watched<String> = Watched::Exited {
        success: true,
        status: "exit status: 0".into(),
        stderr: "".into(),
    };
    assert!(after_watch("wl-copy", exited).is_ok());
}

#[test]
fn broken_pipe_does_not_mask_the_exit() {
    assert_eq!(after_write::<&str>(Written::Whole), Ok(()));
    assert_eq!(after_write::<&str>(Written::BrokenPipe), Ok(()));
    assert_eq!(after_write(Written::Failed("full")), Err("full"));
}

#[test]
fn clipboard_falls_back_to_second_tool() {
    assert_eq!(
        paste("x", &[Err("bad"), Ok(())], Ok(())),
        (names(&["copy 0", "copy 1", "key"]), None)
    );
}

#[test]
fn clipboard_all_tools_fail_returns_last_error() {
    assert_eq!(
        paste("x", &[Err("first-fail"), Err("second-fail")], Ok(())),
        (names(&["copy 0", "copy 1"]), Some("second-fail"))
    );
    assert_eq!(paste("x", &[], Ok(())), (vec![], Some("no tool")));
    assert_eq!(no_tool_message(), "no clipboard tool available (wl-copy/xclip)");
}

#[test]
fn paste_text_does_not_send_paste_keystroke_when_clipboard_fails() {
    let (trace, err) = paste("x", &[Err("clip-fail"), Err("xclip-fail")], Ok(()));
    assert!(!trace.contains(&"key".to_string()));
    assert_eq!(err, Some("xclip-fail"));
}

#[test]
fn first_clipboard_tool_that_works_is_enough() {
    assert_eq!(
        paste("hello", &[Ok(()), Ok(())], Ok(())),
        (names(&["copy 0", "key"]), None)
    );
    assert_eq!(
        paste("hello", &[Ok(()), Ok(())], Err("no key")),
        (names(&["copy 0", "key"]), Some("no key"))
    );
}

#[test]
fn type_text_passes_leading_dash_text_after_end_of_options() {
    assert_eq!(
        type_args("- two hyphenated items"),
        ["type", "--", "- two hyphenated items"]
    );
    assert_eq!(paste_args(), ["key", "ctrl+v"]);
}

#[test]
fn tool_messages() {
    assert_eq!(timeout_message("ydotool type"), "ydotool type did not finish within 5s");
    assert_eq!(
        spawn_message("gone"),
        "failed to spawn ydotool (is it installed and on PATH?): gone"
    );
    assert_eq!(exit_result("ydotool", true, "exit status: 0", "x"), Ok(()));
    assert_eq!(
        exit_result("ydotool", false, "exit status: 3", "  no socket \n"),
        Err("ydotool exited with exit status: 3: no socket".to_string())
    );
}

#[test]
fn edits_converge_on_samples() {
    let texts = ["", "a", "Hello", "Hello world", "Help", "é", "éa", "naïve"];
    for a in texts {
        for b in texts {
            let (backspaces, to_type) = diff(a, b);
            let mut buffer: Vec<char> = a.chars().collect();
            buffer.truncate(buffer.len() - backspaces);
            buffer.extend(to_type.chars());
            assert_eq!(buffer, b.chars().collect::<Vec<char>>());
        }
    }
}

#[test]
fn capitalize_first_agrees_with_std_on_every_character() {
    for code in 0..=0x10FFFFu32 {
        if let Some(c) = char::from_u32(code) {
            let expected: String = c.to_uppercase().chain("x".chars()).collect();
            assert_eq!(capitalize_first(&format!("{c}x")), expected);
        }
    }
}

#[test]
fn no_shorter_edit_reaches_the_target() {
    let texts = ["", "ab", "abc", "abd", "xbc", "abcd"];
    for a in texts {
        for b in texts {
            let (backspaces, to_type) = diff(a, b);
            for fewer in 0..=a.len() {
                if b.starts_with(&a[..a.len() - fewer]) {
                    assert!(fewer >= backspaces);
                    assert!(b.len() - (a.len() - fewer) >= to_type.len());
                }
            }
        }
    }
}

/// A paste where every tool works: what each one was run with, and what was
/// written to it.
fn paste_log(wayland: bool, text: &str) -> Vec<(String, String)> {
    let tools = clipboard_attempts(wayland);
    let mut log = Vec::new();
    let (mut run, mut step) = PasteRun::new::<String>(text, tools.len());
    loop {
        match step {
            PasteStep::Copy(i) => {
                let (tool, args) = &tools[i];
                let line = std::iter::once(tool).chain(args).copied().collect::<Vec<&str>>();
                log.push((line.join(" "), text.to_string()));
            }
            PasteStep::Key => log.push((format!("ydotool {}", paste_args().join(" ")), String::new())),
            PasteStep::Done => return log,
            _ => panic!("every tool works"),
        }
        step = run.report(Ok(()));
    }
}

fn lines(expected: &[(&str, &str)]) -> Vec<(String, String)> {
    expected.iter().map(|(a, b)| (a.to_string(), b.to_string())).collect()
}

#[test]
fn clipboard_tool_receives_stdin_and_success_wins() {
    let log = paste_log(true, "hello clipboard");
    assert_eq!(log[0].1, "hello clipboard");
    assert_eq!(log.len(), 2);
}

#[test]
fn paste_text_copies_via_wl_copy_then_pastes_under_wayland() {
    assert_eq!(
        paste_log(true, "hello world"),
        lines(&[("wl-copy", "hello world"), ("ydotool key ctrl+v", "")])
    );
}

#[test]
fn paste_text_prefers_xclip_under_x11_and_passes_selection_arg() {
    assert_eq!(
        paste_log(false, "hi there"),
        lines(&[("xclip -selection clipboard", "hi there"), ("ydotool key ctrl+v", "")])
    );
}

#[test]
fn capitalizing_twice_changes_nothing() {
    for c in '\0'..=char::MAX {
        let once = capitalize_first(&format!("{c}x"));
        assert_eq!(capitalize_first(&once), once);
        // White space stays, and nothing else becomes white space.
        let spaces = once.chars().filter(|c| c.is_whitespace()).count();
        assert_eq!(spaces, if c.is_whitespace() { 1 } else { 0 });
        if c.is_whitespace() {
            assert_eq!(once, format!("{c}x"));
        }
    }
}

#[test]
fn typing_nothing_runs_no_command() {
    assert_eq!(insert_args(""), None);
    assert_eq!(insert_args(" "), Some(type_args(" ")));
    assert_eq!(insert_args("-x").unwrap(), ["type", "--", "-x"]);
}
