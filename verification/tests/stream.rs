use saytype::batch::batch_output;
use saytype::daemon::{AsrOutput, NANOS_PER_MS};
use saytype::stream::{StreamAction, StreamEvent, StreamLoop, StreamPump};

#[test]
fn stream_emits_partials_on_the_tick_and_finals_at_boundaries() {
    let ms = |n: u64| n * NANOS_PER_MS;
    let mut p = StreamPump::new(ms(1000));
    assert!(!p.on_tick(ms(1149)));
    assert!(p.on_tick(ms(1150)));
    // Anchored to the tick that was due.
    assert!(!p.on_tick(ms(1299)));
    assert!(p.on_tick(ms(1300)));
    // A clock that goes back is not due.
    assert!(!p.on_tick(ms(10)));
    assert_eq!(p.on_partial("".into()), None);
    assert_eq!(p.on_partial("hello".into()), Some(AsrOutput::Partial("hello".into())));
    assert_eq!(p.on_partial("hello".into()), None);
    assert_eq!(p.on_partial("hello w".into()), Some(AsrOutput::Partial("hello w".into())));
    // The boundary: a final, and the same partial is news again.
    assert_eq!(
        p.on_segment(1600, "hello world".into()),
        Some(AsrOutput::Final("hello world".into()))
    );
    assert_eq!(p.on_partial("hello w".into()), Some(AsrOutput::Partial("hello w".into())));
    // A blip of under 100 ms and a segment without words emit nothing.
    assert_eq!(p.on_segment(1599, "noise".into()), None);
    assert_eq!(p.on_segment(16000, "".into()), None);
    assert_eq!(p.on_partial("hello w".into()), Some(AsrOutput::Partial("hello w".into())));
}

#[test]
fn batch_emits_text_that_is_not_blank() {
    assert_eq!(batch_output("  ".into()), None);
    assert_eq!(batch_output("".into()), None);
    assert_eq!(batch_output(" hi ".into()), Some(AsrOutput::Final(" hi ".into())));
}

/// A recorded session: what the detector, the recognizer and the clock say in
/// turn.
struct World {
    frames: usize,
    /// After which frame a segment of so many samples is finished, and with
    /// which text.
    segments: Vec<(usize, usize, &'static str)>,
    hypotheses: Vec<&'static str>,
    /// Whether the receiver takes outputs.
    open: bool,
}

impl World {
    fn run(&self) -> (Vec<AsrOutput>, Vec<&'static str>) {
        let mut l = StreamLoop::new(0);
        let mut action = StreamAction::Receive;
        let mut sent = Vec::new();
        let mut trace = Vec::new();
        let (mut fed, mut taken, mut heard, mut flushed) = (0usize, 0usize, 0usize, false);
        loop {
            let event = match action {
                StreamAction::Receive => {
                    if fed < self.frames {
                        StreamEvent::Frame
                    } else {
                        StreamEvent::Ended
                    }
                }
                StreamAction::Feed => {
                    fed += 1;
                    StreamEvent::Fed
                }
                StreamAction::TakeSegment => match self.segments.get(taken) {
                    Some((after, samples, _)) if *after <= fed || flushed => {
                        taken += 1;
                        StreamEvent::Segment(*samples)
                    }
                    _ => StreamEvent::NoSegment,
                },
                StreamAction::Commit => {
                    trace.push("commit");
                    StreamEvent::Committed(self.segments[taken - 1].2.to_string())
                }
                StreamAction::ReadClock => StreamEvent::Now(fed as u64 * 100 * NANOS_PER_MS),
                StreamAction::AskDetected => {
                    trace.push("tick");
                    StreamEvent::Detected(fed % 4 != 0)
                }
                StreamAction::AskPartial => {
                    heard += 1;
                    StreamEvent::Hypothesis(self.hypotheses[heard - 1].to_string())
                }
                StreamAction::Send(output) => {
                    sent.push(output);
                    StreamEvent::Sent(self.open)
                }
                StreamAction::Flush => {
                    trace.push("flush");
                    flushed = true;
                    StreamEvent::Flushed
                }
                StreamAction::Stop => return (sent, trace),
            };
            action = l.step(event);
        }
    }
}

#[test]
fn stream_loop_sends_partials_then_the_final_and_drains_at_the_end() {
    let world = World {
        frames: 10,
        segments: vec![(7, 16000, "hello world"), (99, 1599, "noise"), (99, 8000, "bye")],
        hypotheses: vec!["hello", "hello world", "bye"],
        open: true,
    };
    // Frames come every 100 ms, so every second one is due; every fourth has
    // no speech.
    let (sent, trace) = world.run();
    assert_eq!(
        sent,
        vec![
            AsrOutput::Partial("hello".into()),
            AsrOutput::Partial("hello world".into()),
            AsrOutput::Final("hello world".into()),
            AsrOutput::Partial("bye".into()),
            AsrOutput::Final("bye".into()),
        ]
    );
    assert_eq!(
        trace,
        vec!["tick", "tick", "tick", "commit", "tick", "tick", "flush", "commit", "commit"]
    );
}

#[test]
fn stream_loop_stops_when_nobody_listens() {
    let world = World {
        frames: 10,
        segments: vec![(7, 16000, "hello world")],
        hypotheses: vec!["hello", "hello world", "x", "y", "z"],
        open: false,
    };
    let (sent, trace) = world.run();
    assert_eq!(sent, vec![AsrOutput::Partial("hello".into())]);
    assert_eq!(trace, vec!["tick"]);
}

#[test]
fn stream_loop_without_audio_is_flushed_and_stops() {
    let world = World { frames: 0, segments: vec![], hypotheses: vec![], open: true };
    assert_eq!(world.run(), (vec![], vec!["flush"]));
}
