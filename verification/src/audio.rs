//! Captured audio: what becomes of the bytes that the microphone delivers.
use vstd::prelude::*;

verus! {

/// Samples per second of the audio that is recognized.
pub const SAMPLE_RATE: i32 = 16000;

/// How samples are encoded.
#[derive(Debug, Clone, Copy, PartialEq, Eq, Structural)]
pub enum SampleFormat {
    /// Signed 16-bit integers, the low byte first.
    S16Le,
    /// 32-bit floating point numbers, the low byte first.
    F32Le,
    /// Anything else.
    Other,
}

/// A negotiated capture format.
#[derive(Debug, Clone, Copy, PartialEq, Eq, Structural)]
pub struct CaptureFormat {
    pub format: SampleFormat,
    pub rate: u32,
    pub channels: u32,
}

/// The samples of the first channel.
#[derive(Debug, Clone, PartialEq, Eq)]
pub enum Mono {
    /// As integers.
    S16(Vec<i16>),
    /// As the bits of floating point numbers.
    F32(Vec<u32>),
    /// None: the format is not supported.
    Unsupported,
}

/// The number of channels that count: a format that reports none is mono.
pub open spec fn channels_of(channels: int) -> int {
    if channels < 1 {
        1
    } else {
        channels
    }
}

/// The whole frames in `len` bytes, with samples of `width` bytes.
pub open spec fn frames(len: int, width: int, channels: int) -> int {
    len / width / channels_of(channels)
}

/// The byte at which the first channel of frame `i` starts.
pub open spec fn offset(i: int, width: int, channels: int) -> int {
    i * channels_of(channels) * width
}

/// A signed 16-bit integer, the low byte first.
pub open spec fn s16(lo: u8, hi: u8) -> int {
    let n = lo + 256 * hi;
    if n < 32768 {
        n
    } else {
        n - 65536
    }
}

/// An unsigned 32-bit integer, the low byte first.
pub open spec fn u32_of(b: Seq<u8>, at: int) -> int {
    b[at] + 256 * b[at + 1] + 65_536 * b[at + 2] + 16_777_216 * b[at + 3]
}

/// The first channel as integers.
pub open spec fn first_s16(bytes: Seq<u8>, channels: int) -> Seq<i16> {
    Seq::new(
        frames(bytes.len() as int, 2, channels) as nat,
        |i: int| s16(bytes[offset(i, 2, channels)], bytes[offset(i, 2, channels) + 1]) as i16,
    )
}

/// The first channel as the bits of floating point numbers.
pub open spec fn first_f32(bytes: Seq<u8>, channels: int) -> Seq<u32> {
    Seq::new(
        frames(bytes.len() as int, 4, channels) as nat,
        |i: int| u32_of(bytes, offset(i, 4, channels)) as u32,
    )
}

/// The frames are those that lie wholly within the bytes: a frame that is cut
/// off at the end is dropped, and no other.
pub proof fn frames_are_whole(len: int, width: int, channels: int, i: int)
    requires
        0 <= len,
        0 < width,
        0 <= i,
    ensures
        i < frames(len, width, channels) <==> offset(i + 1, width, channels) <= len,
        0 <= frames(len, width, channels),
        0 <= offset(i, width, channels),
        offset(i, width, channels) + width <= offset(i + 1, width, channels),
{
    let c = channels_of(channels);
    let samples = len / width;
    let n = samples / c;
    vstd::arithmetic::div_mod::lemma_fundamental_div_mod(len, width);
    vstd::arithmetic::div_mod::lemma_fundamental_div_mod(samples, c);
    let r = len % width;
    let q = samples % c;
    assert(0 <= samples) by (nonlinear_arith)
        requires
            len == width * samples + r,
            0 <= r < width,
            0 <= len,
            0 < width,
    ;
    assert(0 <= n) by (nonlinear_arith)
        requires
            samples == c * n + q,
            0 <= q < c,
            0 <= samples,
            0 < c,
    ;
    assert(i < n <==> (i + 1) * c <= samples) by (nonlinear_arith)
        requires
            samples == c * n + q,
            0 <= q < c,
            0 < c,
    ;
    let k = (i + 1) * c;
    assert(k <= samples <==> k * width <= len) by (nonlinear_arith)
        requires
            len == width * samples + r,
            0 <= r < width,
            0 < width,
    ;
    assert(0 <= i * c * width && i * c * width + width <= (i + 1) * c * width)
        by (nonlinear_arith)
        requires
            0 <= i,
            0 < c,
            0 < width,
    ;
}

/// The first channel as integers.
fn decode_s16(bytes: &[u8], channels: u32) -> (out: Vec<i16>)
    ensures
        out@ == first_s16(bytes@, channels as int),
{
    let c: usize = if channels == 0 {
        1
    } else {
        channels as usize
    };
    let total: usize = bytes.len();
    let n: usize = total / 2 / c;
    let mut out: Vec<i16> = Vec::new();
    let mut i: usize = 0;
    while i < n
        invariant
            c == channels_of(channels as int),
            total == bytes@.len(),
            n == frames(total as int, 2, channels as int),
            i <= n,
            out@.len() == i,
            forall|k: int| 0 <= k < i ==> #[trigger] out@[k] == first_s16(bytes@, channels as int)[k],
        decreases n - i,
    {
        proof {
            frames_are_whole(total as int, 2, channels as int, i as int);
            assert(0 <= i * c && i * c <= i * c * 2) by (nonlinear_arith);
            assert(i * c * 2 + 2 <= total);
        }
        let at: usize = i * c * 2;
        let n: i32 = bytes[at] as i32 + 256 * bytes[at + 1] as i32;
        let v: i16 = if n < 32768 {
            n as i16
        } else {
            (n - 65536) as i16
        };
        out.push(v);
        i += 1;
    }
    assert(out@ =~= first_s16(bytes@, channels as int));
    out
}

/// The first channel as the bits of floating point numbers.
fn decode_f32(bytes: &[u8], channels: u32) -> (out: Vec<u32>)
    ensures
        out@ == first_f32(bytes@, channels as int),
{
    let c: usize = if channels == 0 {
        1
    } else {
        channels as usize
    };
    let total: usize = bytes.len();
    let n: usize = total / 4 / c;
    let mut out: Vec<u32> = Vec::new();
    let mut i: usize = 0;
    while i < n
        invariant
            c == channels_of(channels as int),
            total == bytes@.len(),
            n == frames(total as int, 4, channels as int),
            i <= n,
            out@.len() == i,
            forall|k: int| 0 <= k < i ==> #[trigger] out@[k] == first_f32(bytes@, channels as int)[k],
        decreases n - i,
    {
        proof {
            frames_are_whole(total as int, 4, channels as int, i as int);
            assert(0 <= i * c && i * c <= i * c * 4) by (nonlinear_arith);
            assert(i * c * 4 + 4 <= total);
        }
        let at: usize = i * c * 4;
        let v: u32 = bytes[at] as u32 + 256 * bytes[at + 1] as u32 + 65_536 * bytes[at + 2] as u32
            + 16_777_216 * bytes[at + 3] as u32;
        out.push(v);
        i += 1;
    }
    assert(out@ =~= first_f32(bytes@, channels as int));
    out
}

/// The samples of the first channel. Some microphones put their signal on one
/// channel only, and that is the first.
pub fn first_channel(format: &CaptureFormat, bytes: &[u8]) -> (m: Mono)
    ensures
        match format.format {
            SampleFormat::S16Le => m matches Mono::S16(v) && v@ == first_s16(
                bytes@,
                format.channels as int,
            ),
            SampleFormat::F32Le => m matches Mono::F32(v) && v@ == first_f32(
                bytes@,
                format.channels as int,
            ),
            SampleFormat::Other => m is Unsupported,
        },
{
    match format.format {
        SampleFormat::S16Le => Mono::S16(decode_s16(bytes, format.channels)),
        SampleFormat::F32Le => Mono::F32(decode_f32(bytes, format.channels)),
        SampleFormat::Other => Mono::Unsupported,
    }
}

/// How samples get from one rate to another.
#[derive(Debug, Clone, Copy, PartialEq, Eq, Structural)]
pub enum Resampling {
    /// They cannot be placed in time: nothing is emitted.
    Nothing,
    /// They stay as they are.
    Copy,
    /// They are interpolated.
    Interpolate,
}

/// How `len` samples get from rate `from` to rate `to`. A rate that is not
/// positive is malformed.
pub open spec fn resampling(len: int, from: int, to: int) -> Resampling {
    if from <= 0 || to <= 0 {
        Resampling::Nothing
    } else if from == to || len == 0 {
        Resampling::Copy
    } else {
        Resampling::Interpolate
    }
}

/// How samples get from one rate to another.
pub fn plan_resampling(len: usize, from: i32, to: i32) -> (r: Resampling)
    ensures
        r == resampling(len as int, from as int, to as int),
{
    if from <= 0 || to <= 0 {
        Resampling::Nothing
    } else if from == to || len == 0 {
        Resampling::Copy
    } else {
        Resampling::Interpolate
    }
}

/// A negotiated rate as a signed number; one too large for that is malformed.
pub fn signed_rate(rate: u32) -> (r: i32)
    ensures
        rate <= i32::MAX ==> r == rate,
        rate > i32::MAX ==> r < 0,
{
    if rate <= i32::MAX as u32 {
        rate as i32
    } else {
        -1
    }
}

/// A change of a stream parameter, as far as it could be read.
#[derive(Debug, Clone, Copy, PartialEq, Eq, Structural)]
pub struct ParamChange {
    /// Whether the parameter is the format.
    pub is_format: bool,
    /// Whether the media type is audio and the subtype raw, where there is a
    /// value and it holds them.
    pub raw_audio: Option<bool>,
    /// The audio format, where it could be parsed.
    pub info: Option<CaptureFormat>,
}

/// What a capture does on one cycle of the stream.
#[derive(Debug, Clone, Copy, PartialEq, Eq, Structural)]
pub enum CaptureStep {
    /// End the capture.
    Quit,
    /// Pass the cycle over.
    Skip,
    /// Decode the buffer in this format.
    Decode(CaptureFormat),
}

/// What a capture knows of its stream.
pub struct Capture {
    format: Option<CaptureFormat>,
}

impl Capture {
    /// The format that was negotiated last.
    pub closed spec fn negotiated(&self) -> Option<CaptureFormat> {
        self.format
    }

    /// The format after a change of a parameter: only a raw audio format that
    /// could be parsed replaces it.
    pub open spec fn after_param(
        format: Option<CaptureFormat>,
        change: ParamChange,
    ) -> Option<CaptureFormat> {
        if change.is_format && change.raw_audio == Some(true) && change.info is Some {
            change.info
        } else {
            format
        }
    }

    pub fn new() -> (c: Self)
        ensures
            c.negotiated() is None,
    {
        Capture { format: None }
    }

    /// A parameter of the stream changed.
    pub fn on_param(&mut self, change: ParamChange)
        ensures
            final(self).negotiated() == Self::after_param(old(self).negotiated(), change),
    {
        if !change.is_format {
            return;
        }
        match change.raw_audio {
            Some(raw_audio) => {
                if !raw_audio {
                    return;
                }
            },
            None => {
                return;
            },
        }
        if let Some(info) = change.info {
            self.format = Some(info);
        }
    }

    /// One cycle of the stream: a stop that was asked for comes first, and
    /// without a format there is nothing to decode.
    pub fn on_process(&self, stop: bool) -> (s: CaptureStep)
        ensures
            s == if stop {
                CaptureStep::Quit
            } else {
                match self.negotiated() {
                    Some(f) => CaptureStep::Decode(f),
                    None => CaptureStep::Skip,
                }
            },
    {
        if stop {
            return CaptureStep::Quit;
        }
        match self.format {
            Some(f) => CaptureStep::Decode(f),
            None => CaptureStep::Skip,
        }
    }
}

/// The bytes of a buffer that hold audio: what its chunk says, but no more
/// than are mapped.
pub fn usable_bytes(chunk: usize, mapped: usize) -> (n: usize)
    ensures
        n == if chunk < mapped {
            chunk
        } else {
            mapped
        },
{
    if chunk < mapped {
        chunk
    } else {
        mapped
    }
}

/// How many frames there are.
proof fn lemma_frames_are(len: int, width: int, channels: int, n: int)
    requires
        0 < width,
        0 <= n,
        offset(n, width, channels) <= len < offset(n + 1, width, channels),
    ensures
        frames(len, width, channels) == n,
{
    assert(0 <= offset(n, width, channels)) by (nonlinear_arith)
        requires
            offset(n, width, channels) == n * channels_of(channels) * width,
            0 <= n,
            0 < channels_of(channels),
            0 < width,
    ;
    frames_are_whole(len, width, channels, n);
    if n > 0 {
        frames_are_whole(len, width, channels, n - 1);
    }
}

/// In `n` frames of `c` channels, with or without part of another behind them,
/// the first channel is the first sample of every frame: two bytes, the low one
/// first, with the sign in the top bit.
pub proof fn first_channel_of_s16_frames(bytes: Seq<u8>, c: int, n: int, i: int)
    requires
        1 <= c,
        0 <= i < n,
        n * c * 2 <= bytes.len() < (n + 1) * c * 2,
    ensures
        first_s16(bytes, c).len() == n,
        0 <= i * c * 2,
        i * c * 2 + 1 < bytes.len(),
        ({
            let lo = bytes[i * c * 2] as int;
            let hi = bytes[i * c * 2 + 1] as int;
            first_s16(bytes, c)[i] == if hi < 128 {
                lo + 256 * hi
            } else {
                lo + 256 * hi - 65_536
            }
        }),
{
    lemma_frames_are(bytes.len() as int, 2, c, n);
    frames_are_whole(bytes.len() as int, 2, c, i);
}

/// The same of samples of four bytes, which are kept as their bits.
pub proof fn first_channel_of_f32_frames(bytes: Seq<u8>, c: int, n: int, i: int)
    requires
        1 <= c,
        0 <= i < n,
        n * c * 4 <= bytes.len() < (n + 1) * c * 4,
    ensures
        first_f32(bytes, c).len() == n,
        0 <= i * c * 4,
        i * c * 4 + 3 < bytes.len(),
        first_f32(bytes, c)[i] == bytes[i * c * 4] + 256 * bytes[i * c * 4 + 1] + 65_536 * bytes[i
            * c * 4 + 2] + 16_777_216 * bytes[i * c * 4 + 3],
{
    lemma_frames_are(bytes.len() as int, 4, c, n);
    frames_are_whole(bytes.len() as int, 4, c, i);
}

/// Audio that reports no channels is mono.
pub proof fn no_channels_is_mono(bytes: Seq<u8>)
    ensures
        first_s16(bytes, 0) == first_s16(bytes, 1),
        first_f32(bytes, 0) == first_f32(bytes, 1),
{
    assert(first_s16(bytes, 0) =~= first_s16(bytes, 1));
    assert(first_f32(bytes, 0) =~= first_f32(bytes, 1));
}

/// Nothing is emitted exactly when a rate is malformed; samples are copied
/// where the rates are the same or there are none, and interpolated otherwise,
/// whatever the rates.
pub proof fn samples_are_resampled_between_rates(len: int, from: int, to: int)
    requires
        0 <= len,
    ensures
        resampling(len, from, to) == Resampling::Nothing <==> !(from > 0 && to > 0),
        resampling(len, from, to) == Resampling::Copy <==> from > 0 && to > 0 && (from == to || len
            == 0),
        resampling(len, from, to) == Resampling::Interpolate <==> from > 0 && to > 0 && from != to
            && len > 0,
{
}

/// A raw audio format that could be parsed replaces the one before it,
/// whatever that was, and no other change does.
pub proof fn parsed_format_replaces_the_one_before(
    format: Option<CaptureFormat>,
    change: ParamChange,
    info: CaptureFormat,
)
    ensures
        Capture::after_param(
            format,
            ParamChange { is_format: true, raw_audio: Some(true), info: Some(info) },
        ) == Some(info),
        !change.is_format || change.raw_audio != Some(true) || change.info is None
            ==> Capture::after_param(format, change) == format,
{
}

} // verus!
