use vstd::arithmetic::div_mod::{lemma_basic_div, lemma_fundamental_div_mod, lemma_mod_bound};
use vstd::prelude::*;

use crate::error::SpeechError;

verus! {

/// The sample rate the recogniser consumes.
pub const TARGET_SAMPLE_RATE: u32 = 16000;

/// Length of the buffer produced when resampling `n` samples from rate
/// `from` to rate `to`: `n * to / from`, rounded to the nearest integer.
pub open spec fn resampled_len(n: int, from: int, to: int) -> int {
    (2 * n * to + from) / (2 * from)
}

/// One output sample of a linear-interpolation resampler: the output is
/// `s[index] + (s[next] - s[index]) * frac_num / frac_den`.
#[derive(Debug, Clone, Copy, PartialEq, Eq, Structural)]
pub struct ResampleTap {
    pub index: usize,
    pub next: usize,
    pub frac_num: u32,
    pub frac_den: u32,
}

/// The tap for output position `i`: the source position is `i * from / to`,
/// split into its floor and its fractional part.
pub open spec fn tap_at(i: int, n: int, from: int, to: int) -> ResampleTap {
    let idx = (i * from) / to;
    ResampleTap {
        index: idx as usize,
        next: (if idx + 1 < n - 1 { idx + 1 } else { n - 1 }) as usize,
        frac_num: ((i * from) % to) as u32,
        frac_den: to as u32,
    }
}

proof fn lemma_resampled_len_bounds(n: int, from: int, to: int)
    requires
        n >= 0,
        from > 0,
        to > 0,
    ensures
        2 * from * resampled_len(n, from, to) <= 2 * n * to + from,
        2 * n * to + from < 2 * from * resampled_len(n, from, to) + 2 * from,
        resampled_len(n, from, to) >= 0,
{
    let x = 2 * n * to + from;
    let d = 2 * from;
    lemma_fundamental_div_mod(x, d);
    lemma_mod_bound(x, d);
    assert(x / d >= 0) by (nonlinear_arith)
        requires
            x >= 0,
            d > 0,
    ;
}

/// Every output position reads a source index that lies inside the buffer.
proof fn lemma_tap_in_bounds(i: int, n: int, from: int, to: int)
    requires
        n >= 0,
        from > 0,
        to > 0,
        0 <= i < resampled_len(n, from, to),
    ensures
        0 <= (i * from) / to < n,
        0 <= (i * from) % to < to,
{
    lemma_resampled_len_bounds(n, from, to);
    let t = resampled_len(n, from, to);
    assert(i * from < n * to) by (nonlinear_arith)
        requires
            i + 1 <= t,
            2 * from * t <= 2 * n * to + from,
            from > 0,
    ;
    lemma_fundamental_div_mod(i * from, to);
    lemma_mod_bound(i * from, to);
    assert(i * from >= 0) by (nonlinear_arith)
        requires
            i >= 0,
            from > 0,
    ;
    let q = (i * from) / to;
    assert(0 <= q < n) by (nonlinear_arith)
        requires
            i * from == to * q + (i * from) % to,
            0 <= (i * from) % to < to,
            i * from < n * to,
            i * from >= 0,
            to > 0,
    ;
}

/// Resampling from `r1` to `r2` and back keeps the duration: the length
/// comes back exactly when `r1 <= r2`, and otherwise drifts by less than one
/// sample period of the coarser rate.
pub proof fn lemma_resample_round_trip_duration(n: int, r1: int, r2: int)
    requires
        n >= 0,
        r1 > 0,
        r2 > 0,
    ensures
        ({
            let back = resampled_len(resampled_len(n, r1, r2), r2, r1);
            &&& r1 <= r2 ==> back == n
            &&& r1 > r2 ==> (back - n) * r2 < r1 && (n - back) * r2 < r1
        }),
{
    lemma_resampled_len_bounds(n, r1, r2);
    let m = resampled_len(n, r1, r2);
    lemma_resampled_len_bounds(m, r2, r1);
    let back = resampled_len(m, r2, r1);
    assert(2 * r2 * (back - n) <= r1 + r2 && 2 * r2 * (n - back) < r1 + r2) by (nonlinear_arith)
        requires
            2 * r1 * m <= 2 * n * r2 + r1,
            2 * n * r2 + r1 < 2 * r1 * m + 2 * r1,
            2 * r2 * back <= 2 * m * r1 + r2,
            2 * m * r1 + r2 < 2 * r2 * back + 2 * r2,
    ;
    if r1 < r2 {
        assert(back == n) by (nonlinear_arith)
            requires
                2 * r2 * (back - n) <= r1 + r2,
                2 * r2 * (n - back) < r1 + r2,
                r1 < r2,
                r1 > 0,
        ;
    } else if r1 == r2 {
        assert(m == n) by (nonlinear_arith)
            requires
                2 * r1 * m <= 2 * n * r2 + r1,
                2 * n * r2 + r1 < 2 * r1 * m + 2 * r1,
                r1 == r2,
                r1 > 0,
        ;
        assert(back == n) by (nonlinear_arith)
            requires
                2 * r2 * back <= 2 * m * r1 + r2,
                2 * m * r1 + r2 < 2 * r2 * back + 2 * r2,
                m == n,
                r1 == r2,
                r1 > 0,
        ;
    } else {
        assert((back - n) * r2 < r1 && (n - back) * r2 < r1) by (nonlinear_arith)
            requires
                2 * r2 * (back - n) <= r1 + r2,
                2 * r2 * (n - back) < r1 + r2,
                r1 > r2,
        ;
    }
}

/// Number of samples produced when resampling `len` samples.
pub fn resampled_length(len: usize, from_rate: u32, to_rate: u32) -> (r: usize)
    requires
        from_rate > 0,
        to_rate > 0,
        resampled_len(len as int, from_rate as int, to_rate as int) <= usize::MAX,
    ensures
        r == resampled_len(len as int, from_rate as int, to_rate as int),
{
    let n = len as u128;
    let f = from_rate as u128;
    let t = to_rate as u128;
    assert(2 * n * t + f <= 0xffff_ffff_ffff_ffff_ffff_ffff_ffffu128) by (nonlinear_arith)
        requires
            n <= 0xffff_ffff_ffff_ffffu128,
            t <= 0xffff_ffffu128,
            f <= 0xffff_ffffu128,
    ;
    ((2 * n * t + f) / (2 * f)) as usize
}

/// The interpolation plan of a linear resampler: for each output position,
/// which source samples it reads and with what weight.
pub fn resample_plan(len: usize, from_rate: u32, to_rate: u32) -> (r: Vec<ResampleTap>)
    requires
        from_rate > 0,
        to_rate > 0,
        resampled_len(len as int, from_rate as int, to_rate as int) <= usize::MAX,
    ensures
        r@.len() == resampled_len(len as int, from_rate as int, to_rate as int),
        forall|i: int|
            0 <= i < r@.len() ==> #[trigger] r@[i] == tap_at(
                i,
                len as int,
                from_rate as int,
                to_rate as int,
            ),
        forall|i: int| 0 <= i < r@.len() ==> (#[trigger] r@[i]).index < len && r@[i].next < len,
{
    let target = resampled_length(len, from_rate, to_rate);
    let mut out: Vec<ResampleTap> = Vec::new();
    let mut i: usize = 0;
    while i < target
        invariant
            target == resampled_len(len as int, from_rate as int, to_rate as int),
            from_rate > 0,
            to_rate > 0,
            i <= target,
            out@.len() == i,
            forall|k: int|
                0 <= k < i ==> #[trigger] out@[k] == tap_at(
                    k,
                    len as int,
                    from_rate as int,
                    to_rate as int,
                ),
            forall|k: int| 0 <= k < i ==> (#[trigger] out@[k]).index < len && out@[k].next < len,
        decreases target - i,
    {
        proof {
            lemma_tap_in_bounds(i as int, len as int, from_rate as int, to_rate as int);
        }
        assert((i as u128) * (from_rate as u128) <= 0xffff_ffff_ffff_ffff_ffff_ffff_ffff_ffffu128)
            by (nonlinear_arith)
            requires
                i <= 0xffff_ffff_ffff_ffffu128,
                from_rate <= 0xffff_ffffu128,
        ;
        let pos = (i as u128) * (from_rate as u128);
        let idx = pos / (to_rate as u128);
        // The source position never runs past the buffer, so the early stop
        // that a shorter source would call for is never needed.
        assert(idx < len as u128);
        let index = idx as usize;
        let next = if index + 1 < len - 1 {
            index + 1
        } else {
            len - 1
        };
        let frac = (pos % (to_rate as u128)) as u32;
        out.push(ResampleTap { index, next, frac_num: frac, frac_den: to_rate });
        i = i + 1;
    }
    out
}

/// Format fields of a WAV container header.
#[derive(Debug, Clone, Copy, PartialEq, Eq, Structural)]
pub struct WavHeader {
    pub channels: u16,
    pub sample_rate: u32,
    pub bits_per_sample: u16,
    pub is_float: bool,
}

/// What hound reads from the header of a WAV file: channels, sample rate,
/// bits per sample and whether samples are IEEE floats; `None` where hound
/// refuses the file.
pub uninterp spec fn wav_header_of(bytes: Seq<u8>) -> Option<(u16, u32, u16, bool)>;

/// What hound decodes as the interleaved integer samples of a WAV file;
/// `None` where it refuses the file or one of its samples.
pub uninterp spec fn wav_int_samples_of(bytes: Seq<u8>) -> Option<Seq<i32>>;

pub open spec fn header_fields(h: WavHeader) -> (u16, u32, u16, bool) {
    (h.channels, h.sample_rate, h.bits_per_sample, h.is_float)
}

/// Relies on `hound::WavReader::new` and `WavReader::spec`: parse the
/// container header and report its format.
#[verifier::external_body]
fn read_wav_header(bytes: &[u8]) -> (r: Result<WavHeader, String>)
    ensures
        match r {
            Ok(h) => wav_header_of(bytes@) == Some(header_fields(h)),
            Err(_) => wav_header_of(bytes@) is None,
        },
{
    match hound::WavReader::new(std::io::Cursor::new(bytes)) {
        Ok(reader) => {
            let spec = reader.spec();
            Ok(WavHeader {
                channels: spec.channels,
                sample_rate: spec.sample_rate,
                bits_per_sample: spec.bits_per_sample,
                is_float: matches!(spec.sample_format, hound::SampleFormat::Float),
            })
        },
        Err(e) => Err(e.to_string()),
    }
}

/// Relies on `hound::WavReader::samples::<i32>`: decode every integer sample
/// of the file, channels interleaved.
#[verifier::external_body]
fn read_wav_int_samples(bytes: &[u8]) -> (r: Result<Vec<i32>, String>)
    ensures
        match r {
            Ok(v) => wav_int_samples_of(bytes@) == Some(v@),
            Err(_) => wav_int_samples_of(bytes@) is None,
        },
{
    let mut reader = hound::WavReader::new(std::io::Cursor::new(bytes)).map_err(|e| e.to_string())?;
    reader.samples::<i32>().collect::<Result<Vec<i32>, hound::Error>>().map_err(|e| e.to_string())
}

/// The divisor that maps an integer sample of the given depth into [-1, 1]:
/// the signed maximum for 8 and 16 bits, `2^(bits-1)` for 24 and 32 bits.
pub open spec fn int_scale(bits: u16) -> Option<int> {
    if bits == 8 {
        Some(127)
    } else if bits == 16 {
        Some(32767)
    } else if bits == 24 {
        Some(0x80_0000)
    } else if bits == 32 {
        Some(0x8000_0000)
    } else {
        None
    }
}

/// Normalisation divisor for integer samples of the given depth.
pub fn sample_scale(bits: u16) -> (r: Result<u32, SpeechError>)
    ensures
        match int_scale(bits) {
            Some(k) => r == Ok::<u32, SpeechError>(k as u32),
            None => r == Err::<u32, SpeechError>(SpeechError::UnsupportedBitDepth(bits)),
        },
{
    if bits == 8 {
        Ok(127)
    } else if bits == 16 {
        Ok(32767)
    } else if bits == 24 {
        Ok(0x80_0000)
    } else if bits == 32 {
        Ok(0x8000_0000)
    } else {
        Err(SpeechError::UnsupportedBitDepth(bits))
    }
}

/// Sum of `s[lo..hi]`.
pub open spec fn sum_range(s: Seq<i32>, lo: int, hi: int) -> int
    decreases hi - lo,
{
    if hi <= lo {
        0
    } else {
        sum_range(s, lo, hi - 1) + s[hi - 1] as int
    }
}

/// Number of frames in `len` interleaved samples; a trailing partial frame counts.
pub open spec fn frame_count(len: int, channels: int) -> int {
    (len + channels - 1) / channels
}

/// Sum of the channel samples of frame `f`.
pub open spec fn frame_sum(s: Seq<i32>, channels: int, f: int) -> int {
    let lo = f * channels;
    let hi = if lo + channels < s.len() { lo + channels } else { s.len() as int };
    sum_range(s, lo, hi)
}

proof fn lemma_sum_range_bound(s: Seq<i32>, lo: int, hi: int)
    requires
        0 <= lo <= hi <= s.len(),
    ensures
        -(hi - lo) * 0x8000_0000 <= sum_range(s, lo, hi) <= (hi - lo) * 0x8000_0000,
    decreases hi - lo,
{
    if hi > lo {
        lemma_sum_range_bound(s, lo, hi - 1);
    }
}

/// Per-frame channel sums of interleaved samples: dividing each by the
/// channel count downmixes to mono by the arithmetic mean.
pub fn frame_sums(samples: &Vec<i32>, channels: u16) -> (r: Vec<i64>)
    requires
        channels > 0,
    ensures
        r@.len() == frame_count(samples@.len() as int, channels as int),
        forall|f: int|
            0 <= f < r@.len() ==> #[trigger] r@[f] as int == frame_sum(
                samples@,
                channels as int,
                f,
            ),
{
    let ch = channels as usize;
    let len = samples.len();
    let mut out: Vec<i64> = Vec::new();
    let mut start: usize = 0;
    proof {
        if len == 0 {
            lemma_basic_div((ch - 1) as int, ch as int);
        }
    }
    assert(out@.len() * ch == 0);
    while start < len
        invariant
            ch == channels as usize,
            ch > 0,
            len == samples@.len(),
            start <= len,
            start < len ==> start == out@.len() * ch,
            start == len ==> out@.len() == frame_count(len as int, ch as int),
            forall|f: int|
                0 <= f < out@.len() ==> #[trigger] out@[f] as int == frame_sum(
                    samples@,
                    ch as int,
                    f,
                ),
        decreases len - start,
    {
        let end = if len - start > ch {
            start + ch
        } else {
            len
        };
        let mut acc: i64 = 0;
        let mut j: usize = start;
        while j < end
            invariant
                start <= j <= end <= len,
                end - start <= ch,
                ch <= 0xffff,
                len == samples@.len(),
                acc as int == sum_range(samples@, start as int, j as int),
            decreases end - j,
        {
            proof {
                lemma_sum_range_bound(samples@, start as int, j as int);
            }
            acc = acc + samples[j] as i64;
            j = j + 1;
        }
        proof {
            let k = out@.len() as int;
            let c = ch as int;
            let l = len as int;
            assert(k * c + c == (k + 1) * c) by (nonlinear_arith);
            if end == len {
                lemma_fundamental_div_mod(l + c - 1, c);
                lemma_mod_bound(l + c - 1, c);
                let q = (l + c - 1) / c;
                assert(k + 1 == q) by (nonlinear_arith)
                    requires
                        k * c < l,
                        l <= (k + 1) * c,
                        c > 0,
                        l + c - 1 == c * q + (l + c - 1) % c,
                        0 <= (l + c - 1) % c < c,
                ;
            }
        }
        out.push(acc);
        start = end;
    }
    out
}

/// Downmixing frames in which channel `k` (counting from 1) holds the value
/// `k` gives every frame the channel sum `n(n+1)/2`, that is the mean
/// `(n+1)/2` of `1..=n` once divided by the `n` channels.
pub proof fn lemma_downmix_of_channel_index(s: Seq<i32>, n: int, frames: int)
    requires
        n >= 1,
        frames >= 0,
        s.len() == frames * n,
        forall|f: int, k: int| 0 <= f < frames && 0 <= k < n ==> #[trigger] s[f * n + k] == k + 1,
    ensures
        forall|f: int| 0 <= f < frames ==> #[trigger] frame_sum(s, n, f) * 2 == n * (n + 1),
{
    assert forall|f: int| 0 <= f < frames implies #[trigger] frame_sum(s, n, f) * 2 == n * (n + 1) by {
        assert(f * n + n <= s.len()) by (nonlinear_arith)
            requires
                0 <= f < frames,
                s.len() == frames * n,
                n >= 1,
        ;
        lemma_frame_prefix(s, n, f, n);
    }
}

proof fn lemma_frame_prefix(s: Seq<i32>, n: int, f: int, j: int)
    requires
        0 <= j <= n,
        f >= 0,
        f * n + n <= s.len(),
        forall|k: int| 0 <= k < n ==> #[trigger] s[f * n + k] == k + 1,
    ensures
        sum_range(s, f * n, f * n + j) * 2 == j * (j + 1),
    decreases j,
{
    let lo = f * n;
    if j > 0 {
        lemma_frame_prefix(s, n, f, j - 1);
        let k = j - 1;
        assert(s[f * n + k] == k + 1);
        assert(sum_range(s, lo, lo + j) == sum_range(s, lo, lo + k) + s[lo + k]);
        let prev = sum_range(s, lo, lo + k);
        let cur = sum_range(s, lo, lo + j);
        assert(cur * 2 == j * (j + 1)) by (nonlinear_arith)
            requires
                k == j - 1,
                prev * 2 == k * (k + 1),
                cur == prev + j,
        ;
    } else {
        assert(sum_range(s, lo, lo + j) == 0);
        assert(j * (j + 1) == 0) by (nonlinear_arith)
            requires
                j == 0,
        ;
    }
}

/// A decoded WAV payload, still in the integer domain.
#[derive(Debug, PartialEq, Eq)]
pub enum DecodedAudio {
    /// Integer PCM: one channel sum per frame; each mono sample is
    /// `frame_sums[f] / divisor`, where `divisor` is the channel count times
    /// the depth's normalisation scale.
    Pcm { frame_sums: Vec<i64>, divisor: u64, sample_rate: u32 },
    /// IEEE float samples, used as they are and averaged per frame.
    Float { channels: u16, sample_rate: u32 },
}

/// What decoding a WAV payload yields, in terms of what hound reads from it.
pub open spec fn decode_outcome(bytes: Seq<u8>, r: Result<DecodedAudio, SpeechError>) -> bool {
    match wav_header_of(bytes) {
        None => r is Err && r->Err_0 is Audio,
        Some((channels, rate, bits, is_float)) => {
            if channels == 0 {
                r is Err && r->Err_0 is Audio
            } else if is_float {
                r == Ok::<DecodedAudio, SpeechError>(
                    DecodedAudio::Float { channels, sample_rate: rate },
                )
            } else {
                match int_scale(bits) {
                    None => r == Err::<DecodedAudio, SpeechError>(
                        SpeechError::UnsupportedBitDepth(bits),
                    ),
                    Some(k) => match wav_int_samples_of(bytes) {
                        None => r is Err && r->Err_0 is Audio,
                        Some(s) => match r {
                            Ok(DecodedAudio::Pcm { frame_sums, divisor, sample_rate }) => {
                                &&& sample_rate == rate
                                &&& divisor == channels * k
                                &&& frame_sums@.len() == frame_count(s.len() as int, channels as int)
                                &&& forall|f: int|
                                    0 <= f < frame_sums@.len() ==> #[trigger] frame_sums@[f] as int
                                        == frame_sum(s, channels as int, f)
                            },
                            _ => false,
                        },
                    },
                }
            }
        },
    }
}

/// Decodes a WAV payload: validates the channel count and sample depth,
/// and downmixes integer PCM to per-frame channel sums.
pub fn decode_wav(bytes: &[u8]) -> (r: Result<DecodedAudio, SpeechError>)
    ensures
        decode_outcome(bytes@, r),
{
    let header = match read_wav_header(bytes) {
        Ok(h) => h,
        Err(msg) => {
            return Err(SpeechError::Audio(msg));
        },
    };
    if header.channels == 0 {
        return Err(SpeechError::Audio(String::from_str("音频通道数无效")));
    }
    if header.is_float {
        return Ok(DecodedAudio::Float { channels: header.channels, sample_rate: header.sample_rate });
    }
    let scale = match sample_scale(header.bits_per_sample) {
        Ok(k) => k,
        Err(e) => {
            return Err(e);
        },
    };
    let samples = match read_wav_int_samples(bytes) {
        Ok(v) => v,
        Err(msg) => {
            return Err(SpeechError::Audio(msg));
        },
    };
    let sums = frame_sums(&samples, header.channels);
    assert((header.channels as u64) * (scale as u64) <= 0xffff * 0x8000_0000) by (nonlinear_arith)
        requires
            header.channels <= 0xffff,
            scale <= 0x8000_0000,
    ;
    Ok(
        DecodedAudio::Pcm {
            frame_sums: sums,
            divisor: header.channels as u64 * scale as u64,
            sample_rate: header.sample_rate,
        },
    )
}

} // verus!
