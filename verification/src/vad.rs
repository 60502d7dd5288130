//! Voice detection: the audio around a detected segment.
use vstd::prelude::*;
use vstd::string::*;

use crate::audio::SAMPLE_RATE;
use crate::daemon;
use crate::text;

verus! {

/// The file of the voice detection model, in the models directory.
pub const VAD_MODEL: &'static str = "silero_vad.onnx";

/// Context (ms) added before each segment: it restores the first word's
/// attack.
pub const PRE_PAD_MS: i32 = 300;

/// Context (ms) added after each segment: it reaches past a mid-word dip to
/// the last word's tail and the silence behind it.
pub const POST_PAD_MS: i32 = 800;

/// What a ring of recent audio stands for.
pub struct RingModel<T> {
    /// Every sample ever pushed, in order.
    pub history: Seq<T>,
    /// How many of the latest samples are kept.
    pub capacity: nat,
    /// The sample that stands for audio that is not available.
    pub silence: T,
}

impl<T> RingModel<T> {
    /// The sample at an absolute index: what was pushed there, as long as it
    /// is still kept, else silence.
    pub open spec fn sample(self, i: int) -> T {
        if 0 <= i < self.history.len() && self.history.len() - self.capacity <= i {
            self.history[i]
        } else {
            self.silence
        }
    }

    /// The audio over the absolute range from `start` to `end`.
    pub open spec fn slice(self, start: int, end: int) -> Seq<T> {
        Seq::new(
            if end > start {
                (end - start) as nat
            } else {
                0
            },
            |k: int| self.sample(start + k),
        )
    }
}

/// Rolling buffer of recent audio, addressable by absolute sample index.
pub struct AudioRing<T> {
    buf: Vec<T>,
    total: i64,
    silence: T,
    history: Ghost<Seq<T>>,
}

impl<T> View for AudioRing<T> {
    type V = RingModel<T>;

    closed spec fn view(&self) -> RingModel<T> {
        RingModel { history: self.history@, capacity: self.buf@.len(), silence: self.silence }
    }
}

/// Two indices less than `n` apart fall on different places of a ring of `n`.
proof fn lemma_places_differ(i: int, j: int, n: int)
    requires
        0 <= i < j,
        j - i < n,
    ensures
        i % n != j % n,
{
    vstd::arithmetic::div_mod::lemma_fundamental_div_mod(i, n);
    vstd::arithmetic::div_mod::lemma_fundamental_div_mod(j, n);
    if i % n == j % n {
        let a = i / n;
        let b = j / n;
        assert(j - i == n * (b - a)) by (nonlinear_arith)
            requires
                i == n * a + i % n,
                j == n * b + j % n,
                i % n == j % n,
        ;
        assert(false) by (nonlinear_arith)
            requires
                0 < n * (b - a) < n,
        ;
    }
}

impl<T: Copy> AudioRing<T> {
    /// What holds of every ring: the places of the samples that are kept hold
    /// them.
    pub closed spec fn wf(&self) -> bool {
        &&& self.buf@.len() >= 1
        &&& self.total == self.history@.len()
        &&& forall|i: int|
            0 <= i < self.history@.len() && self.history@.len() - self.buf@.len() <= i
                ==> #[trigger] self.history@[i] == self.buf@[i % self.buf@.len() as int]
    }

    /// A ring that keeps `capacity` samples, or one where that is zero.
    pub fn new(capacity: usize, silence: T) -> (r: Self)
        ensures
            r.wf(),
            r@.history == Seq::<T>::empty(),
            r@.capacity == if capacity == 0 {
                1
            } else {
                capacity as nat
            },
            r@.silence == silence,
    {
        let n: usize = if capacity == 0 {
            1
        } else {
            capacity
        };
        let mut buf: Vec<T> = Vec::new();
        let mut k: usize = 0;
        while k < n
            invariant
                k <= n,
                buf@.len() == k,
            decreases n - k,
        {
            buf.push(silence);
            k += 1;
        }
        AudioRing { buf, total: 0, silence, history: Ghost(Seq::empty()) }
    }

    /// How many samples were pushed so far.
    pub fn total(&self) -> (n: i64)
        requires
            self.wf(),
        ensures
            n == self@.history.len(),
    {
        self.total
    }

    /// Add samples at the end.
    pub fn push(&mut self, samples: &[T])
        requires
            old(self).wf(),
            old(self)@.history.len() + samples@.len() <= i64::MAX,
        ensures
            final(self).wf(),
            final(self)@ == (RingModel { history: old(self)@.history + samples@, ..old(self)@ }),
    {
        let cap: usize = self.buf.len();
        let ghost before = self.history@;
        let mut k: usize = 0;
        assert(before + samples@.take(0) =~= before);
        while k < samples.len()
            invariant
                cap == self.buf@.len(),
                k <= samples@.len(),
                self.wf(),
                self.silence == old(self).silence,
                before == old(self).history@,
                self.buf@.len() == old(self).buf@.len(),
                before.len() + samples@.len() <= i64::MAX,
                self.history@ == before + samples@.take(k as int),
            decreases samples@.len() - k,
        {
            let ghost held = self.buf@;
            let ghost pushed = self.history@;
            let s = samples[k];
            let at: u64 = self.total as u64 % cap as u64;
            assert(at == self.total as int % cap as int);
            self.buf.set(at as usize, s);
            self.total += 1;
            self.history = Ghost(pushed.push(s));
            proof {
                let n = cap as int;
                let t = pushed.len() as int;
                assert forall|i: int|
                    0 <= i < self.history@.len() && self.history@.len() - self.buf@.len()
                        <= i implies #[trigger] self.history@[i] == self.buf@[i % n] by {
                    if i < t {
                        assert(pushed[i] == held[i % n]);
                        lemma_places_differ(i, t, n);
                    }
                }
                assert(samples@.take(k + 1) =~= samples@.take(k as int).push(s));
                assert(self.history@ =~= before + samples@.take(k + 1));
            }
            k += 1;
        }
        assert(samples@.take(samples@.len() as int) =~= samples@);
    }

    /// The audio over the absolute range from `start` to `end`. Any part that
    /// is not available - before the start of capture, past the latest
    /// sample, or older than what the ring keeps - is silence.
    pub fn slice(&self, start: i64, end: i64) -> (out: Vec<T>)
        requires
            self.wf(),
            end - start <= i64::MAX,
        ensures
            out@ == self@.slice(start as int, end as int),
    {
        let mut out: Vec<T> = Vec::new();
        if end <= start {
            assert(out@ =~= self@.slice(start as int, end as int));
            return out;
        }
        let cap: usize = self.buf.len();
        let mut i: i64 = start;
        while i < end
            invariant
                self.wf(),
                cap == self.buf@.len(),
                start <= i <= end,
                out@.len() == i - start,
                forall|k: int| 0 <= k < i - start ==> #[trigger] out@[k] == self@.sample(start + k),
            decreases end - i,
        {
            let kept: bool = 0 <= i && i < self.total && (self.total - i) as u64 <= cap as u64;
            if kept {
                let at: u64 = i as u64 % cap as u64;
                assert(at == i as int % cap as int);
                assert(self.history@[i as int] == self.buf@[i as int % cap as int]);
                out.push(self.buf[at as usize]);
            } else {
                out.push(self.silence);
            }
            i += 1;
        }
        assert(out@ =~= self@.slice(start as int, end as int));
        out
    }
}

/// The samples in `ms` milliseconds of audio.
pub open spec fn samples_in(ms: int) -> int {
    ms * SAMPLE_RATE / 1000
}

/// The range of audio that is recognized for a segment of `len` samples from
/// `start` on: the segment with context on both ends, or `None` where it is
/// too short to be speech.
pub open spec fn padded_range(start: int, len: int) -> Option<(int, int)> {
    if daemon::blip(len) {
        None
    } else {
        Some((start - samples_in(PRE_PAD_MS as int), start + len + samples_in(POST_PAD_MS as int)))
    }
}

/// The range of audio that is recognized for a segment.
pub fn padded_segment(start: i64, len: usize) -> (r: Option<(i64, i64)>)
    requires
        start - samples_in(PRE_PAD_MS as int) >= i64::MIN,
        start + len + samples_in(POST_PAD_MS as int) <= i64::MAX,
        len <= i64::MAX,
    ensures
        match r {
            Some((begin, end)) => padded_range(start as int, len as int) == Some(
                (begin as int, end as int),
            ),
            None => padded_range(start as int, len as int) is None,
        },
{
    let pre: i64 = (PRE_PAD_MS * SAMPLE_RATE / 1000) as i64;
    let post: i64 = (POST_PAD_MS * SAMPLE_RATE / 1000) as i64;
    if daemon::is_blip(len) {
        return None;
    }
    Some((start - pre, start + len as i64 + post))
}

impl<T: Copy> AudioRing<T> {
    /// The audio that is recognized for a segment of `len` samples from
    /// `start` on: its padded range, or `None` where it is too short to be
    /// speech.
    pub fn segment(&self, start: i64, len: usize) -> (r: Option<Vec<T>>)
        requires
            self.wf(),
            start - samples_in(PRE_PAD_MS as int) >= i64::MIN,
            start + len + samples_in(POST_PAD_MS as int) <= i64::MAX,
            samples_in(PRE_PAD_MS as int) + len + samples_in(POST_PAD_MS as int) <= i64::MAX,
        ensures
            match padded_range(start as int, len as int) {
                Some((begin, end)) => r matches Some(out) && out@ == self@.slice(begin, end),
                None => r is None,
            },
    {
        match padded_segment(start, len) {
            Some((begin, end)) => Some(self.slice(begin, end)),
            None => None,
        }
    }
}

/// The longest segment that is reported, in seconds.
pub const MAX_SPEECH_SECS: i64 = 20;

/// The lookback of the batch pipeline covers the longest segment and its
/// context: reported within eight seconds, none of the audio that was captured
/// there is lost.
pub proof fn lookback_covers_a_segment<T>(m: RingModel<T>, start: int, len: int, i: int)
    requires
        m.capacity == daemon::LOOKBACK_SECS * SAMPLE_RATE,
        0 <= len <= MAX_SPEECH_SECS * SAMPLE_RATE,
        padded_range(start, len) matches Some((begin, end)) && begin <= i < end
            && m.history.len() <= end + 8 * SAMPLE_RATE,
        0 <= i < m.history.len(),
    ensures
        m.sample(i) == m.history[i],
{
}

/// A segment of at least a tenth of a second is recognized with 300 ms of
/// audio before it and 800 ms after it, wherever it lies. A shorter one is not.
pub proof fn segment_is_padded(start: int, len: int)
    ensures
        len < 1600 ==> padded_range(start, len) is None,
        len >= 1600 ==> padded_range(start, len) == Some((start - 4800, start + len + 12_800)),
{
}

/// What a ring gives back is what was pushed, at its index, as long as no more
/// than its capacity came after it; all else is silence.
pub proof fn ring_gives_back_what_was_pushed<T>(m: RingModel<T>, start: int, end: int, k: int)
    requires
        start <= end,
        0 <= k < end - start,
    ensures
        m.slice(start, end).len() == end - start,
        0 <= start + k < m.history.len() && m.history.len() - (start + k) <= m.capacity ==> m.slice(
            start,
            end,
        )[k] == m.history[start + k],
        start + k < 0 || start + k >= m.history.len() || m.history.len() - (start + k) > m.capacity
            ==> m.slice(start, end)[k] == m.silence,
{
}

/// Audio that was pushed stays what it was when more is pushed, as long as it
/// is kept.
pub proof fn pushing_keeps_what_is_kept<T>(m: RingModel<T>, more: Seq<T>, i: int)
    requires
        0 <= i < m.history.len(),
        m.history.len() + more.len() - i <= m.capacity,
    ensures
        (RingModel { history: m.history + more, ..m }).sample(i) == m.sample(i),
        m.sample(i) == m.history[i],
{
}

/// Check that the voice detection model is there. `shown` is its path.
pub fn check_model_file(shown: &str, is_file: bool) -> (r: Result<(), String>)
    ensures
        match r {
            Ok(_) => is_file,
            Err(e) => !is_file && e@ == "VAD model not found at "@ + shown@
                + ". Run scripts/download-models.sh first."@,
        },
{
    if is_file {
        Ok(())
    } else {
        Err(
            text::concat3(
                "VAD model not found at ",
                shown,
                ". Run scripts/download-models.sh first.",
            ),
        )
    }
}

} // verus!
