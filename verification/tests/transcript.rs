use saytype::transcript::Transcript;

#[test]
fn empty_transcript_is_inert() {
    let mut t = Transcript::new();
    assert_eq!(t.display(), "");
    assert_eq!(t.visible_partial(), "");
    assert_eq!(t.buffer_target(""), "");
    assert!(!t.erase_last());
    assert!(!t.undo_last());
}

#[test]
fn partial_display_is_raw_target_is_transformed() {
    let mut t = Transcript::new();
    assert_eq!(t.feed_partial("the quick brown"), "the quick brown");
    assert_eq!(t.display(), "the quick brown");
    // First segment: capitalized, no leading space.
    assert_eq!(t.buffer_target("the quick"), "The quick");
    // Nothing stable yet: only the committed text (none).
    assert_eq!(t.buffer_target(""), "");
}

#[test]
fn finals_transform_and_later_segments_get_a_space() {
    let mut t = Transcript::new();
    t.feed_final("hello world");
    assert_eq!(t.display(), "Hello world");
    t.feed_partial("next sentence");
    assert_eq!(t.display(), "Hello world next sentence");
    assert_eq!(t.buffer_target("next"), "Hello world Next");
    t.feed_final("next sentence here");
    assert_eq!(t.display(), "Hello world Next sentence here");
}

#[test]
fn erase_last_partial_word_and_undo() {
    let mut t = Transcript::new();
    t.feed_partial("the quick brown");
    assert!(t.erase_last());
    assert_eq!(t.display(), "the quick");
    assert_eq!(t.buffer_target("the quick"), "The quick");
    assert!(t.undo_last());
    assert_eq!(t.display(), "the quick brown");
    assert!(!t.undo_last());
}

#[test]
fn erase_multiple_words_undoes_in_reverse_order() {
    let mut t = Transcript::new();
    t.feed_partial("one two three four");
    assert!(t.erase_last());
    assert!(t.erase_last());
    assert_eq!(t.display(), "one two");
    assert!(t.undo_last());
    assert_eq!(t.display(), "one two three");
    assert!(t.undo_last());
    assert_eq!(t.display(), "one two three four");
    assert!(!t.undo_last());
}

#[test]
fn erase_from_committed_when_no_partial() {
    let mut t = Transcript::new();
    t.feed_final("hello world");
    assert!(t.erase_last());
    assert_eq!(t.display(), "Hello");
    assert!(t.erase_last());
    assert_eq!(t.display(), "");
    assert!(t.undo_last());
    assert_eq!(t.display(), "Hello");
    assert!(t.undo_last());
    assert_eq!(t.display(), "Hello world");
}

#[test]
fn erase_spans_segments_and_restores_spaces() {
    let mut t = Transcript::new();
    t.feed_final("first segment");
    t.feed_final("second segment");
    assert_eq!(t.display(), "First segment Second segment");
    assert!(t.erase_last());
    assert_eq!(t.display(), "First segment Second");
    assert!(t.erase_last());
    assert_eq!(t.display(), "First segment");
    assert!(t.erase_last());
    assert_eq!(t.display(), "First");
    assert!(t.erase_last());
    assert_eq!(t.display(), "");
    assert!(t.undo_last());
    assert_eq!(t.display(), "First");
    assert!(t.undo_last());
    assert_eq!(t.display(), "First segment");
    assert!(t.undo_last());
    assert_eq!(t.display(), "First segment Second");
    assert!(t.undo_last());
    assert_eq!(t.display(), "First segment Second segment");
    assert!(!t.undo_last());
}

#[test]
fn erase_stays_restorable_across_mid_utterance_growth() {
    let mut t = Transcript::new();
    t.feed_partial("the quick brown");
    assert!(t.erase_last());
    assert_eq!(t.display(), "the quick");
    // A new word ("fox") streams in: this is normal decoder cadence
    // mid-utterance, not "the user kept talking" in the sense that
    // should burn an undo - the erasure must stay restorable.
    t.feed_partial("the quick brown fox");
    assert_eq!(t.display(), "the quick fox");
    assert!(t.undo_last());
    assert_eq!(t.display(), "the quick brown fox");
}

#[test]
fn same_length_revision_keeps_erasure_restorable() {
    let mut t = Transcript::new();
    t.feed_partial("the quick brwn");
    assert!(t.erase_last());
    // No growth: a revision, not a new word. The revised token at the
    // same position is what a restore brings back.
    t.feed_partial("the quick brown");
    assert_eq!(t.display(), "the quick");
    assert!(t.undo_last());
    assert_eq!(t.display(), "the quick brown");
}

#[test]
fn new_utterance_makes_committed_erasure_permanent() {
    let mut t = Transcript::new();
    t.feed_final("hello world");
    assert!(t.erase_last());
    // The user starts a new utterance: "world" is gone for good.
    t.feed_partial("again");
    assert_eq!(t.display(), "Hello again");
    assert!(!t.undo_last());
}

#[test]
fn partial_erasure_survives_commit_as_restorable() {
    let mut t = Transcript::new();
    t.feed_partial("hello world");
    assert!(t.erase_last());
    // The final commits with the same words: no new word, the erasure
    // becomes a restorable committed erasure.
    t.feed_final("hello world");
    assert_eq!(t.display(), "Hello");
    assert!(t.undo_last());
    assert_eq!(t.display(), "Hello world");
}

#[test]
fn final_longer_than_all_partials_flushes_erasure() {
    let mut t = Transcript::new();
    t.feed_partial("hello world");
    assert!(t.erase_last());
    // The final contains a word no partial ever showed: new word, the
    // erased word is permanent and stays out of the final too.
    t.feed_final("hello world again");
    assert_eq!(t.display(), "Hello again");
    assert!(!t.undo_last());
}

#[test]
fn streaming_final_with_new_word_makes_committed_erasure_permanent() {
    let mut t = Transcript::new();
    t.feed_final("hello world");
    assert!(t.erase_last()); // "world" pending (committed slot)
                             // A new utterance finalizes with words no partial showed: the
                             // pending committed erasure is permanent, leaving a gap that a
                             // later segment's casing ignores.
    t.feed_final("new text here");
    assert_eq!(t.display(), "Hello New text here");
    assert!(!t.undo_last());
    // The gap stays a gap: the next segment still renders correctly.
    t.feed_final("next");
    assert_eq!(t.display(), "Hello New text here Next");
}

#[test]
fn final_shorter_than_partial_drops_dangling_erasure() {
    let mut t = Transcript::new();
    t.feed_partial("hello world goodbye");
    assert!(t.erase_last());
    // The decoder revised "goodbye" away in the final: the erasure had
    // nothing left to erase.
    t.feed_final("hello world");
    assert_eq!(t.display(), "Hello world");
    assert!(!t.undo_last());
}

/// The position-based tracking contract across a final: a partial
/// erasure records the token *position*, not the word. When the final
/// (same length as the partial's high-water mark: no new content, so no
/// flush) replaces the erased position with a different word, the
/// erasure follows the position - the replacement word is the hidden
/// one - and undo restores *that* word. (Contrast with
/// `final_shorter_than_partial_drops_dangling_erasure`, where the final
/// has no token at the position at all and the erasure is dropped.)
#[test]
fn erased_partial_position_tracks_a_replacing_final_word() {
    let mut t = Transcript::new();
    t.feed_partial("alpha beta");
    assert!(t.erase_last()); // "beta" (position 1) pending
    assert_eq!(t.display(), "alpha");
    // The decoder's final revises position 1 to a wholly different
    // word; the utterance length is unchanged (2 tokens, the
    // high-water mark), so the pending erasure converts, not flushes.
    t.feed_final("gamma delta");
    // The replacement word "delta" is what the erasure now hides.
    assert_eq!(t.display(), "Gamma");
    // Undo restores the replacement word at its original position.
    assert!(t.undo_last());
    assert_eq!(t.display(), "Gamma delta");
    assert!(!t.undo_last());
    // The typed buffer follows the same conversion.
    assert_eq!(t.buffer_target(""), "Gamma delta");
}

#[test]
fn undo_of_a_decoder_dropped_partial_word_is_visible_noop() {
    let mut t = Transcript::new();
    t.feed_partial("a b");
    assert!(t.erase_last()); // "b" (position 1) pending
    assert_eq!(t.display(), "a");
    // Contrast with final_shorter_than_partial_drops_dangling_erasure, where
    // the *final* dropped "b" and the erasure vanished (undo returns false).
    // Here the *live partial* revised "b" away mid-utterance: an utterance
    // is still in progress, so the erasure is still pending.
    t.feed_partial("a");
    assert_eq!(t.display(), "a");
    // undo_last consumes the entry (returns true) but there is nothing to
    // put back - "b" is no longer in the partial - so the visible text is
    // unchanged.
    assert!(t.undo_last());
    assert_eq!(t.display(), "a");
    // Nothing left to undo.
    assert!(!t.undo_last());
}

#[test]
fn empty_final_drops_partial_erasures_but_keeps_committed() {
    let mut t = Transcript::new();
    t.feed_final("hello world");
    // One utterance in progress; erase its partial words, then erase
    // past the (now empty) partial into the committed text, so the undo
    // stack holds both a Partial and a Committed entry at once.
    t.feed_partial("again there");
    assert!(t.erase_last()); // "there" (partial)
    assert!(t.erase_last()); // "again" (partial)
    assert!(t.erase_last()); // "world" (committed)
    assert_eq!(t.display(), "Hello");
    // The utterance finalizes with no content (empty final): the partial
    // erasures had nothing left to point at and are dropped, but the
    // committed erasure is from an earlier segment and stays restorable.
    t.feed_final("");
    assert_eq!(t.display(), "Hello");
    assert!(t.undo_last());
    assert_eq!(t.display(), "Hello world");
    // Nothing else is restorable: the partial erasures were dropped.
    assert!(!t.undo_last());
}

#[test]
fn empty_final_creates_no_segment() {
    let mut t = Transcript::new();
    t.feed_final("hello");
    // An empty final must not add an (empty) segment: the committed text
    // is unchanged and a later real segment joins with one space.
    t.feed_final("");
    assert_eq!(t.display(), "Hello");
    t.feed_final("big world");
    assert_eq!(t.display(), "Hello Big world");
    // Fully empty from the start: still inert.
    let mut e = Transcript::new();
    e.feed_final("");
    assert_eq!(e.display(), "");
}

#[test]
fn empty_batch_final_makes_pending_committed_erasure_permanent() {
    let mut t = Transcript::new();
    t.feed_batch_final("hello world");
    assert!(t.erase_last()); // "world" pending committed erasure
    assert_eq!(t.display(), "Hello");
    // A new (empty) batch utterance finalizes: unlike the streaming
    // feed_final(""), the pending erasure is flushed to a permanent gap -
    // a whole new utterance was transcribed, whatever it said.
    t.feed_batch_final("");
    assert_eq!(t.display(), "Hello");
    assert!(!t.undo_last());
}

#[test]
fn batch_path_erase_undo_and_new_final_flushes() {
    let mut t = Transcript::new();
    t.feed_batch_final("one two three");
    assert!(t.erase_last());
    assert!(t.erase_last());
    assert_eq!(t.display(), "One");
    assert!(t.undo_last());
    assert_eq!(t.display(), "One two");
    // A new utterance: the still-pending "three" erasure is permanent
    // ("two" was restored and stays).
    t.feed_batch_final("four five");
    assert_eq!(t.display(), "One two Four five");
    assert!(!t.undo_last());
}

#[test]
fn shrinking_partial_then_growth_tracks_positions() {
    let mut t = Transcript::new();
    t.feed_partial("the cat sat");
    assert!(t.erase_last());
    t.feed_partial("the cat"); // the decoder drops "sat"
    assert_eq!(t.display(), "the cat");
    assert!(t.erase_last());
    assert_eq!(t.display(), "the");
    // More content arrives, still the same utterance (no feed_final in
    // between): both erasures track their positions through the
    // growth and stay restorable - mid-utterance growth alone must
    // never burn a pending erasure (that is what caused two rapid
    // Left presses to scramble the sentence: see
    // daemon::double_erase_regression).
    t.feed_partial("the cat sat down");
    assert_eq!(t.display(), "the down");
    assert!(t.undo_last());
    assert_eq!(t.display(), "the cat down");
    assert!(t.undo_last());
    assert_eq!(t.display(), "the cat sat down");
}

#[test]
fn fully_erased_partial_falls_back_to_committed() {
    let mut t = Transcript::new();
    t.feed_final("done");
    t.feed_partial("new words");
    assert!(t.erase_last());
    assert!(t.erase_last());
    // The partial is fully erased; the next erase hits committed.
    assert!(t.erase_last());
    assert_eq!(t.display(), "");
    // Undo order: the committed word, then the partial words LIFO.
    assert!(t.undo_last());
    assert_eq!(t.display(), "Done");
    assert!(t.undo_last());
    assert_eq!(t.display(), "Done new");
    assert!(t.undo_last());
    assert_eq!(t.display(), "Done new words");
}

#[test]
fn buffer_target_combines_committed_and_stable_prefix() {
    let mut t = Transcript::new();
    t.feed_final("hello");
    t.feed_partial("world is big");
    assert_eq!(t.buffer_target("world is"), "Hello World is");
    assert_eq!(t.buffer_target(""), "Hello");
    t.feed_final("world is big");
    assert_eq!(t.buffer_target(""), "Hello World is big");
}

#[test]
fn erased_first_word_recapitalizes_the_next() {
    let mut t = Transcript::new();
    t.feed_partial("a");
    assert!(t.erase_last());
    // "a" is permanent; "b" becomes the first visible word.
    t.feed_partial("a b");
    assert_eq!(t.display(), "b");
    assert_eq!(t.buffer_target("b"), "B");
}

#[test]
fn punctuation_attaches_to_tokens() {
    let mut t = Transcript::new();
    t.feed_final("hello, world");
    assert!(t.erase_last());
    assert_eq!(t.display(), "Hello,");
    assert!(t.undo_last());
    assert_eq!(t.display(), "Hello, world");
}

#[test]
fn multibyte_tokens_roundtrip() {
    let mut t = Transcript::new();
    t.feed_final("café naïve");
    assert!(t.erase_last());
    assert_eq!(t.display(), "Café");
    assert!(t.undo_last());
    assert_eq!(t.display(), "Café naïve");
}

#[test]
fn fresh_utterance_starts_clean() {
    let mut t = Transcript::new();
    t.feed_partial("old words here");
    t.feed_final("old words here");
    assert_eq!(t.feed_partial("fresh"), "fresh");
    assert_eq!(t.display(), "Old words here fresh");
}

#[test]
fn full_streaming_session_with_mid_utterance_erase() {
    let mut t = Transcript::new();
    t.feed_partial("the quick");
    t.feed_partial("the quick brown");
    assert!(t.erase_last());
    // Growth: "brown" is permanent for the rest of the session.
    t.feed_partial("the quick brown fox");
    assert_eq!(t.display(), "the quick fox");
    t.feed_final("the quick brown fox");
    assert_eq!(t.display(), "The quick fox");
    assert_eq!(t.buffer_target(""), "The quick fox");
    // The next utterance builds on the erased committed text.
    t.feed_partial("jumps over");
    assert_eq!(t.display(), "The quick fox jumps over");
    assert_eq!(t.buffer_target("jumps"), "The quick fox Jumps");
}

#[test]
fn restored_word_returns_to_its_original_position() {
    let mut t = Transcript::new();
    t.feed_partial("a b c d e");
    assert!(t.erase_last()); // e (position 4)
                             // The decoder collapses the tail: "d" and "e" drop out of the
                             // partial. No new word, so the erasure stays restorable.
    t.feed_partial("a b");
    assert!(t.erase_last()); // b (position 1)
                             // The final re-expands to all five words: both erasures survive as
                             // committed-slot erasures.
    t.feed_final("a b c d e");
    assert_eq!(t.display(), "A c d");
    // Undo restores "b" to its original position (between "a" and
    // "c"), not to the end; "e" is still erased.
    assert!(t.undo_last());
    assert_eq!(t.display(), "A b c d");
    assert!(t.undo_last());
    assert_eq!(t.display(), "A b c d e");
    assert!(!t.undo_last());
    // The typed buffer follows the same ordering.
    assert_eq!(t.buffer_target(""), "A b c d e");
}

#[test]
fn mixed_partial_and_committed_erasures_undo_lifo_across_the_final() {
    let mut t = Transcript::new();
    t.feed_final("hello world");
    t.feed_partial("a b");
    // Erase both partial words, then erase into the committed text: the
    // undo stack now holds, oldest to newest, two Partial entries
    // followed by one Committed entry.
    assert!(t.erase_last()); // "b" (partial position 1)
    assert!(t.erase_last()); // "a" (partial position 0)
    assert!(t.erase_last()); // "world" (committed)
    assert_eq!(t.display(), "Hello");
    // The final commits the same two words: no new content, so both
    // partial erasures convert to restorable committed-slot erasures
    // and the committed erasure passes through - one mixed stack.
    t.feed_final("a b");
    assert_eq!(t.display(), "Hello");
    // Undo is LIFO across the conversion boundary: "world" was erased
    // last, so it comes back first, then the partial words in reverse
    // erase order ("a" was erased after "b").
    assert!(t.undo_last());
    assert_eq!(t.display(), "Hello world");
    assert!(t.undo_last());
    assert_eq!(t.display(), "Hello world A");
    assert!(t.undo_last());
    assert_eq!(t.display(), "Hello world A b");
    assert!(!t.undo_last());
    // The typed buffer follows the same order.
    assert_eq!(t.buffer_target(""), "Hello world A b");
}

#[test]
fn fully_erased_segment_leaves_a_gap_that_undoes_cleanly() {
    let mut t = Transcript::new();
    t.feed_final("one two");
    t.feed_final("three four");
    // Erase both words of the second segment.
    assert!(t.erase_last()); // four
    assert!(t.erase_last()); // three
    assert_eq!(t.display(), "One two");
    // Undo restores them in place, before any later segment.
    assert!(t.undo_last());
    assert_eq!(t.display(), "One two Three");
    assert!(t.undo_last());
    assert_eq!(t.display(), "One two Three four");
    // A new utterance makes the still-pending erasure permanent only
    // for words that were not restored: erase "four" again, then speak.
    assert!(t.erase_last());
    t.feed_batch_final("five");
    assert_eq!(t.display(), "One two Three Five");
    assert!(!t.undo_last());
}

#[test]
fn failed_erase_pushes_no_undo_entry() {
    let mut t = Transcript::new();
    t.feed_partial("a b");
    assert!(t.erase_last()); // "b" (position 1)
    assert!(t.erase_last()); // "a" (position 0)
    assert_eq!(t.display(), "");
    // Nothing left to erase: the partial is fully hidden and there is no
    // committed text. A no-op that must not push an undo entry.
    assert!(!t.erase_last());
    // The two real erasures are still restorable, LIFO: "a" was erased
    // last, so it comes back first.
    assert!(t.undo_last());
    assert_eq!(t.display(), "a");
    assert!(t.undo_last());
    assert_eq!(t.display(), "a b");
    assert!(!t.undo_last());
}

#[test]
fn committed_erasure_made_within_an_utterance_survives_a_shortening_final() {
    let mut t = Transcript::new();
    t.feed_final("hello world");
    // Utterance in progress; erase the partial down to nothing, then
    // keep erasing into the committed text of the previous segment. The
    // undo stack now holds three Partial entries and one Committed entry.
    t.feed_partial("a b c");
    assert!(t.erase_last()); // "c" (partial position 2)
    assert!(t.erase_last()); // "b" (partial position 1)
    assert!(t.erase_last()); // "a" (partial position 0)
    assert!(t.erase_last()); // "world" (committed)
    assert_eq!(t.display(), "Hello");
    // The final is a shortening revision (two words, fewer than the
    // three the partial showed): no new content, so no flush. The
    // committed erasure stays restorable; the partial erasures at
    // positions the final still contains convert to committed slots.
    t.feed_final("a b");
    assert_eq!(t.display(), "Hello");
    // "world" was erased last, so it restores first; then the partial
    // words in reverse erase order.
    assert!(t.undo_last());
    assert_eq!(t.display(), "Hello world");
    assert!(t.undo_last());
    assert_eq!(t.display(), "Hello world A");
    assert!(t.undo_last());
    assert_eq!(t.display(), "Hello world A b");
    assert!(!t.undo_last());
}

#[test]
fn erasing_and_restoring_a_segments_first_word_keeps_casing() {
    let mut t = Transcript::new();
    t.feed_final("hello world");
    assert!(t.erase_last()); // world
    assert!(t.erase_last()); // hello
    assert_eq!(t.display(), "");
    assert!(t.undo_last());
    assert_eq!(t.display(), "Hello");
    assert!(t.undo_last());
    assert_eq!(t.display(), "Hello world");
}

fn words(text: &str) -> Vec<String> {
    text.split_whitespace().map(str::to_string).collect()
}

/// A transcript with two segments, a partial and one pending erasure.
fn busy() -> Transcript {
    let mut t = Transcript::default();
    t.feed_final("one two");
    t.feed_final("three four five");
    t.feed_partial("six seven eight");
    t
}

#[test]
fn each_erase_takes_one_word_off_the_display_and_each_undo_brings_it_back() {
    let mut t = busy();
    let mut seen = vec![words(&t.display())];
    while t.erase_last() {
        let now = words(&t.display());
        let before = seen.last().unwrap();
        assert_eq!(now[..], before[..before.len() - 1]);
        seen.push(now);
    }
    assert_eq!(seen.len(), 9);
    while seen.len() > 1 {
        seen.pop();
        assert!(t.undo_last());
        assert_eq!(&words(&t.display()), seen.last().unwrap());
    }
    assert!(!t.undo_last());
}

#[test]
fn undo_before_or_after_the_final_gives_the_same_transcript() {
    for erased in 1..=4 {
        let mut before = busy();
        let mut after = busy();
        for _ in 0..erased {
            before.erase_last();
            after.erase_last();
        }
        before.undo_last();
        before.feed_final("six seven eight");
        after.feed_final("six seven eight");
        after.undo_last();
        loop {
            assert_eq!(before.display(), after.display());
            let undone = before.undo_last();
            assert_eq!(undone, after.undo_last());
            if !undone {
                break;
            }
        }
    }
}

#[test]
fn a_final_shows_what_a_partial_with_its_text_shows() {
    for text in ["six seven eight", "six seven", "six seven eight nine", ""] {
        for erased in 0..=4 {
            let mut partial = busy();
            let mut committed = busy();
            for _ in 0..erased {
                partial.erase_last();
                committed.erase_last();
            }
            partial.feed_partial(text);
            committed.feed_final(text);
            assert_eq!(
                words(&partial.display().to_lowercase()),
                words(&committed.display().to_lowercase())
            );
        }
    }
}

#[test]
fn white_space_of_any_kind_separates_words() {
    let mut t = Transcript::new();
    t.feed_final("\tone\u{a0}two\n three ");
    assert_eq!(t.display(), "One two three");
    t.erase_last();
    assert_eq!(t.buffer_target("ignored"), "One two");
}

#[test]
fn casing_follows_the_first_visible_word_of_each_segment() {
    let mut t = Transcript::new();
    t.feed_partial("ßa b");
    t.feed_final("ßa b");
    assert_eq!(t.display(), "SSa b");
    t.feed_partial("a b");
    t.feed_partial("b");
    assert!(t.erase_last());
    t.feed_partial("a b");
    t.feed_final("a b");
    assert_eq!(t.display(), "SSa b B");
    assert!(t.undo_last());
    assert_eq!(t.display(), "SSa b A b");
}

#[test]
fn erase_leaves_the_display_without_its_last_word() {
    let mut t = busy();
    t.feed_partial("  élan   vital  ");
    loop {
        let shown = t.display();
        let partial = t.visible_partial();
        let committed = t.buffer_target("");
        assert_eq!(shown, words(&shown).join(" "));
        let mut left = words(&shown);
        assert_eq!(t.erase_last(), !shown.is_empty());
        left.pop();
        assert_eq!(t.display(), left.join(" "));
        if !partial.is_empty() {
            assert_eq!(t.buffer_target(""), committed);
        } else {
            assert_eq!(t.visible_partial(), "");
        }
        if shown.is_empty() {
            break;
        }
    }
}
