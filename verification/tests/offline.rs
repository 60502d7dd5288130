use saytype::cli::{CommitNote, VadTally};
use saytype::offline::{
    ReplayAction, ReplayEvent, ReplayLoop, VadCheck, VadCheckAction, VadCheckEvent, CHUNK,
};

/// Checks a file of `len` samples in which the detector finishes segments of
/// given sizes after given chunks. Returns what was done.
fn check(len: usize, segments: &[(usize, usize)]) -> (Vec<String>, VadTally) {
    let (mut run, mut action) = VadCheck::new(len);
    let mut trace = Vec::new();
    let (mut at, mut fed, mut taken, mut ended) = (0usize, 0usize, 0usize, false);
    loop {
        let event = match action {
            VadCheckAction::Feed { from, to } => {
                assert_eq!(from, at);
                assert!(from < to && to <= len);
                at = to;
                fed += 1;
                trace.push(format!("feed {}", to - from));
                VadCheckEvent::Fed
            }
            VadCheckAction::TakeSegment => match segments.get(taken) {
                Some(&(after, n)) if after <= fed || ended => {
                    taken += 1;
                    VadCheckEvent::Segment(n)
                }
                _ => VadCheckEvent::NoSegment,
            },
            VadCheckAction::Show { number, samples, flushed } => {
                trace.push(format!("show {number} {samples} {flushed}"));
                VadCheckEvent::Shown
            }
            VadCheckAction::Flush => {
                assert_eq!(at, len);
                ended = true;
                trace.push("flush".to_string());
                VadCheckEvent::Flushed
            }
            VadCheckAction::Done(tally) => return (trace, tally),
        };
        assert!(run.fits(&event));
        action = run.step(event);
    }
}

#[test]
fn vad_check_shows_segments_after_every_chunk_and_at_the_end() {
    let (trace, tally) = check(1100, &[(1, 400), (1, 30), (3, 2000), (99, 7)]);
    assert_eq!(
        trace,
        vec![
            "feed 512",
            "show 1 400 false",
            "show 2 30 false",
            "feed 512",
            "feed 76",
            "show 3 2000 false",
            "flush",
            "show 4 7 true",
        ]
    );
    assert_eq!(tally, VadTally { segments: 4, samples: 2437 });
}

#[test]
fn vad_check_of_whole_chunks_and_of_nothing() {
    assert_eq!(CHUNK, 512);
    assert_eq!(check(1024, &[]).0, vec!["feed 512", "feed 512", "flush"]);
    assert_eq!(check(1, &[]).0, vec!["feed 1", "flush"]);
    let (trace, tally) = check(0, &[]);
    assert_eq!(trace, vec!["flush"]);
    assert_eq!(tally, VadTally { segments: 0, samples: 0 });
}

#[test]
fn vad_check_refuses_counts_out_of_range() {
    let (mut run, _) = VadCheck::new(0);
    run.step(VadCheckEvent::Flushed);
    assert!(run.fits(&VadCheckEvent::Segment(usize::MAX)));
    run.step(VadCheckEvent::Segment(usize::MAX));
    assert!(!run.fits(&VadCheckEvent::Segment(1)));
    assert!(run.fits(&VadCheckEvent::Segment(0)));
    assert!(run.fits(&VadCheckEvent::Shown));
}

/// Replays a file: after given chunks a segment of a given size is finished,
/// and committed with a given text; after each chunk there is a hypothesis.
fn replay(len: usize, segments: &[(usize, usize, &str)], heard: &[&str]) -> Vec<String> {
    let (mut run, mut action) = ReplayLoop::new(len);
    let mut trace = Vec::new();
    let (mut at, mut fed, mut taken, mut ended) = (0usize, 0usize, 0usize, false);
    loop {
        let event = match action {
            ReplayAction::Feed { from, to } => {
                assert_eq!(from, at);
                at = to;
                fed += 1;
                ReplayEvent::Fed
            }
            ReplayAction::TakeSegment => match segments.get(taken) {
                Some(&(after, n, _)) if after <= fed || ended => {
                    taken += 1;
                    ReplayEvent::Segment(n)
                }
                _ => ReplayEvent::NoSegment,
            },
            ReplayAction::Commit => {
                trace.push("commit".to_string());
                ReplayEvent::Committed(segments[taken - 1].2.to_string())
            }
            ReplayAction::ShowFinal { text, note } => {
                trace.push(match note {
                    CommitNote::Silent => unreachable!(),
                    CommitNote::SameAsPartial => format!("final {text} as heard"),
                    CommitNote::PartialWas(was) => format!("final {text} after {was:?}"),
                });
                ReplayEvent::Shown
            }
            ReplayAction::AskPartial => ReplayEvent::Hypothesis(heard[fed - 1].to_string()),
            ReplayAction::ShowPartial { text, chunks } => {
                trace.push(format!("partial {chunks} {text}"));
                ReplayEvent::Shown
            }
            ReplayAction::Flush => {
                assert_eq!(at, len);
                ended = true;
                trace.push("flush".to_string());
                ReplayEvent::Flushed
            }
            ReplayAction::Done { partials, commits } => {
                trace.push(format!("{partials} partials, {commits} commits"));
                return trace;
            }
        };
        assert!(run.fits(&event));
        action = run.step(event);
    }
}

#[test]
fn replay_commits_every_segment_before_the_hypothesis() {
    let trace = replay(
        4 * 512 + 1,
        &[(2, 16000, "hello"), (2, 800, "noise"), (4, 1600, ""), (99, 1600, "bye now")],
        &["hello", "", "bye", "bye", "bye n"],
    );
    assert_eq!(
        trace,
        vec![
            "partial 1 hello",
            "commit",
            "final hello as heard",
            // A blip is committed too, and not shown.
            "commit",
            "partial 3 bye",
            // So is a segment without words.
            "commit",
            "partial 5 bye n",
            "flush",
            "commit",
            "final bye now after \"bye n\"",
            "3 partials, 2 commits",
        ]
    );
}

#[test]
fn replay_of_nothing_is_flushed() {
    assert_eq!(replay(0, &[], &[]), vec!["flush", "0 partials, 0 commits"]);
}

#[test]
fn replay_of_one_blip_commits_it_once() {
    assert_eq!(
        replay(800, &[(2, 800, "noise")], &["", ""]),
        vec!["commit", "flush", "0 partials, 0 commits"]
    );
}
