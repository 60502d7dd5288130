use saytype::daemon::LiveTyping;
use saytype::transcript::Transcript;

/// Push the same partial into both the transcript and the stability buffer,
/// as the injector does on each tick.
fn tick(live: &mut LiveTyping, t: &mut Transcript, text: &str) {
    t.feed_partial(text);
    live.push_partial(text);
}

#[test]
fn first_segment_target_capitalized_without_leading_space() {
    let mut live = LiveTyping::new();
    let mut t = Transcript::new();
    tick(&mut live, &mut t, "hello world");
    tick(&mut live, &mut t, "hello world");
    assert_eq!(live.stable_target(&t), Some("Hello world".to_string()));
}

#[test]
fn later_segments_get_a_space_prefix() {
    let mut live = LiveTyping::new();
    let mut t = Transcript::new();
    t.feed_final("hello world");
    tick(&mut live, &mut t, "next");
    tick(&mut live, &mut t, "next");
    assert_eq!(live.stable_target(&t), Some("Hello world Next".to_string()));
}

#[test]
fn stable_target_needs_enough_partials() {
    let mut live = LiveTyping::new();
    let mut t = Transcript::new();
    tick(&mut live, &mut t, "the");
    assert_eq!(live.stable_target(&t), None);
    tick(&mut live, &mut t, "the");
    assert_eq!(live.stable_target(&t), Some("The".to_string()));
}

#[test]
fn stable_target_is_common_prefix() {
    let mut live = LiveTyping::new();
    let mut t = Transcript::new();
    tick(&mut live, &mut t, "their");
    tick(&mut live, &mut t, "there");
    // Common prefix "the", capitalized, no space (first segment).
    assert_eq!(live.stable_target(&t), Some("The".to_string()));
}

#[test]
fn stable_target_rolls_forward() {
    let mut live = LiveTyping::new();
    let mut t = Transcript::new();
    tick(&mut live, &mut t, "their");
    tick(&mut live, &mut t, "there");
    assert_eq!(live.stable_target(&t), Some("The".to_string()));
    // Next partial: "there" + "them" -> common prefix "the".
    tick(&mut live, &mut t, "them");
    assert_eq!(live.stable_target(&t), Some("The".to_string()));
    // "them" + "them" -> "them".
    tick(&mut live, &mut t, "them");
    assert_eq!(live.stable_target(&t), Some("Them".to_string()));
}

#[test]
fn stable_target_none_when_prefix_diverges_immediately() {
    let mut live = LiveTyping::new();
    let mut t = Transcript::new();
    tick(&mut live, &mut t, "the");
    tick(&mut live, &mut t, "you");
    // No common prefix -> nothing stable to type yet.
    assert_eq!(live.stable_target(&t), None);
}

#[test]
fn stable_prefix_truncated_to_visible_after_erase() {
    let mut live = LiveTyping::new();
    let mut t = Transcript::new();
    tick(&mut live, &mut t, "the quick brown");
    tick(&mut live, &mut t, "the quick brown");
    assert_eq!(live.stable_target(&t), Some("The quick brown".to_string()));
    // Left mouse press erases the last word; the stability buffer still
    // holds pre-erase partials, so the target must be truncated to the
    // visible partial ("the quick").
    assert!(t.erase_last());
    assert_eq!(live.stable_target(&t), Some("The quick".to_string()));
}

#[test]
fn stable_prefix_never_retires_a_permanently_erased_word() {
    let mut live = LiveTyping::new();
    let mut t = Transcript::new();
    tick(&mut live, &mut t, "the quick brown");
    tick(&mut live, &mut t, "the quick brown");
    assert!(t.erase_last()); // "brown" pending
    // A new word arrives: "brown" is gone for good.
    tick(&mut live, &mut t, "the quick brown fox");
    tick(&mut live, &mut t, "the quick brown fox");
    // The raw stable prefix "the quick brown fox" must not retype
    // "brown"; only what is visible may be typed.
    assert_eq!(live.stable_target(&t), Some("The quick".to_string()));
}

#[test]
fn fully_erased_partial_types_nothing() {
    let mut live = LiveTyping::new();
    let mut t = Transcript::new();
    tick(&mut live, &mut t, "one");
    tick(&mut live, &mut t, "one");
    assert!(t.erase_last());
    assert_eq!(live.stable_target(&t), None);
    assert_eq!(t.buffer_target(""), "");
}

#[test]
fn final_converges_buffer_to_committed_text() {
    let mut live = LiveTyping::new();
    let mut t = Transcript::new();
    tick(&mut live, &mut t, "the quick");
    tick(&mut live, &mut t, "the quick");
    assert_eq!(live.stable_target(&t), Some("The quick".to_string()));
    // The final extends the committed text; the typed buffer must end
    // up exactly at it.
    t.feed_final("the quick brown");
    assert_eq!(t.buffer_target(""), "The quick brown");
}

#[test]
fn stable_target_multibyte_prefix_lands_on_char_boundary() {
    let mut live = LiveTyping::new();
    let mut t = Transcript::new();
    tick(&mut live, &mut t, "café");
    tick(&mut live, &mut t, "caffè");
    // The common prefix "caf" ends just before the two-byte \u{e}: the
    // char count must be converted to a byte offset on a char boundary
    // (a wrong offset would panic on the truncate), and the result is
    // capitalized as the first segment's text.
    assert_eq!(live.stable_target(&t), Some("Caf".to_string()));
}

#[test]
fn double_erase_without_intervening_tick() {
    let mut live = LiveTyping::new();
    let mut t = Transcript::new();
    tick(&mut live, &mut t, "the quick brown fox");
    tick(&mut live, &mut t, "the quick brown fox");
    assert_eq!(live.stable_target(&t), Some("The quick brown fox".to_string()));
    assert!(t.erase_last());
    assert!(t.erase_last());
    assert_eq!(t.display(), "the quick");
    assert_eq!(live.stable_target(&t), Some("The quick".to_string()));
}

// A VAD auto-commit (0.8s pause) lands between the user's two presses:
// press 1 erases "fox" (pending, mid-partial), the pause auto-commits
// the utterance, then press 2 arrives. It must still target "brown".
#[test]
fn erase_commit_erase_targets_the_right_word() {
    let mut live = LiveTyping::new();
    let mut t = Transcript::new();
    tick(&mut live, &mut t, "the quick brown fox");
    tick(&mut live, &mut t, "the quick brown fox");
    assert!(t.erase_last()); // "fox" pending-erased
    t.feed_final("the quick brown fox"); // same tokens: no growth
    live.commit_segment();
    assert_eq!(t.display(), "The quick brown");
    assert!(t.erase_last()); // press 2: must erase "brown", not "fox"
    assert_eq!(t.display(), "The quick");
}

// The regression itself: a new word streams in between the user's two
// presses purely from ordinary decoder cadence (not a deliberate new
// utterance). Whichever word each press actually lands on (that is
// inherently racy against a live decoder), neither erasure may be
// silently made permanent, and both must stay undoable, LIFO.
#[test]
fn erase_twice_survives_a_decoder_tick_in_between() {
    let mut live = LiveTyping::new();
    let mut t = Transcript::new();
    tick(&mut live, &mut t, "the quick brown fox");
    tick(&mut live, &mut t, "the quick brown fox");
    assert!(t.erase_last()); // press 1: "fox" pending-erased
    assert_eq!(t.display(), "the quick brown");
    // One ordinary decoder tick with a new word, before press 2 lands.
    tick(&mut live, &mut t, "the quick brown fox jumps");
    // "fox" must still be pending (not silently made permanent), still
    // hidden from the now-longer partial.
    assert_eq!(t.display(), "the quick brown jumps");
    assert!(t.erase_last()); // press 2: erases the new tail, "jumps"
    assert_eq!(t.display(), "the quick brown");
    // Both erasures are still restorable, LIFO.
    assert!(t.undo_last());
    assert_eq!(t.display(), "the quick brown jumps");
    assert!(t.undo_last());
    assert_eq!(t.display(), "the quick brown fox jumps");
}
