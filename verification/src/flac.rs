//! FLAC encoding and decoding.
//!
//! The codec itself (prediction, entropy coding) is not written here; it is left to
//! well-tried crates: [`claxon`](https://docs.rs/claxon) decodes and
//! [`flacenc`](https://docs.rs/flacenc) encodes. This module checks the input,
//! interleaves and de-interleaves the channels, and trims padding.

use vstd::prelude::*;
use vstd::string::*;
use vstd::arithmetic::div_mod::lemma_fundamental_div_mod_converse;
use crate::wav::{channels_view, AudioView};
use crate::text::{channel_length_message, channel_length_text, is_first_mismatch};
use flacenc::component::BitRepr;
use flacenc::error::Verify;

pub use crate::wav::DecodedAudio;

verus! {

#[derive(Debug)]
pub enum FlacError {
    /// The bytes are not a FLAC stream that `claxon` decodes (its message).
    Decode(String),
    /// `flacenc` refused to encode (its message).
    Encode(String),
    /// The channels cannot be encoded (none, or of different lengths).
    InvalidInput(String),
}

// ---------------------------------------------------------------------------
// Decoding
// ---------------------------------------------------------------------------

/// A decoded FLAC stream as `claxon` hands it over: the STREAMINFO fields and the
/// samples, channel-interleaved, in stream order.
pub struct FlacStream {
    pub sample_rate: u32,
    pub bits_per_sample: u32,
    pub channels: u32,
    /// Frames recorded in STREAMINFO, when it records them.
    pub total_frames: Option<u64>,
    pub samples: Vec<i32>,
}

/// The fields of a [`FlacStream`] as plain values.
pub open spec fn flac_stream_fields(s: FlacStream) -> (u32, u32, u32, Option<u64>, Seq<i32>) {
    (s.sample_rate, s.bits_per_sample, s.channels, s.total_frames, s.samples@)
}

/// What `claxon` decodes from a byte sequence: (sample rate, bits per sample,
/// channels, frames recorded in STREAMINFO, interleaved samples), or its error message.
pub uninterp spec fn claxon_decoded(bytes: Seq<u8>) -> Result<
    (u32, u32, u32, Option<u64>, Seq<i32>),
    Seq<char>,
>;

/// Decodes FLAC bytes with `claxon`: `FlacReader::new` on the bytes, `streaminfo`,
/// then every sample of `samples()` until the first error.
///
/// Claimed of it: the outcome is [`claxon_decoded`] of the bytes (a function of the
/// bytes alone), and STREAMINFO's channel count is between 1 and 8 (claxon reads it
/// as three bits plus one).
#[verifier::external_body]
fn read_flac_stream(bytes: &[u8]) -> (r: Result<FlacStream, String>)
    ensures
        match r {
            Ok(s) => claxon_decoded(bytes@) == Ok::<_, Seq<char>>(flac_stream_fields(s)),
            Err(m) => claxon_decoded(bytes@) == Err::<(u32, u32, u32, Option<u64>, Seq<i32>), _>(
                m@,
            ),
        },
        r matches Ok(s) ==> 1 <= s.channels <= 8,
{
    let mut reader = claxon::FlacReader::new(std::io::Cursor::new(bytes)).map_err(|e| e.to_string())?;
    let info = reader.streaminfo();
    let samples = reader.samples().collect::<Result<Vec<i32>, _>>().map_err(|e| e.to_string())?;
    Ok(FlacStream {
        sample_rate: info.sample_rate,
        bits_per_sample: info.bits_per_sample,
        channels: info.channels,
        total_frames: info.samples,
        samples,
    })
}

/// Channel `c` of `ch` interleaved channels: the samples at `c`, `c + ch`, `c + 2ch`, ...
pub open spec fn deinterleave_channel(s: Seq<i32>, ch: nat, c: int) -> Seq<i32> {
    Seq::new(deinterleave_count(s.len(), ch, c), |j: int| s[j * ch + c])
}

/// How many of the positions below `len` are `c` modulo `ch`.
pub open spec fn deinterleave_count(len: nat, ch: nat, c: int) -> nat {
    if len <= c {
        0
    } else {
        ((len - c - 1) / (ch as int) + 1) as nat
    }
}

/// A channel cut to at most `keep` frames, when a frame count is known.
pub open spec fn trim_to(s: Seq<i32>, keep: Option<u64>) -> Seq<i32> {
    match keep {
        Some(t) => if (t as usize) < s.len() {
            s.take((t as usize) as int)
        } else {
            s
        },
        None => s,
    }
}

/// The channel `c` of a decoded stream: de-interleaved, then cut to the frame count of
/// STREAMINFO (encoders may pad the last block with zeros to keep a fixed block size).
pub open spec fn flac_channel(raw: (u32, u32, u32, Option<u64>, Seq<i32>), c: int) -> Seq<i32> {
    trim_to(deinterleave_channel(raw.4, raw.2 as nat, c), raw.3)
}

/// The audio of a decoded stream.
pub open spec fn flac_audio(raw: (u32, u32, u32, Option<u64>, Seq<i32>)) -> AudioView {
    AudioView {
        sample_rate: raw.0,
        bits_per_sample: raw.1,
        channels: raw.2,
        samples: Seq::new(raw.2 as nat, |c: int| flac_channel(raw, c)),
    }
}

fn deinterleave(samples: &Vec<i32>, ch: usize, c: usize, keep: Option<u64>) -> (r: Vec<i32>)
    requires
        c < ch,
    ensures
        r@ == trim_to(deinterleave_channel(samples@, ch as nat, c as int), keep),
{
    let ghost full = deinterleave_channel(samples@, ch as nat, c as int);
    let len = samples.len();
    let cnt: usize = if len <= c {
        0
    } else {
        (len - c - 1) / ch + 1
    };
    assert(cnt == full.len());
    let mut col: Vec<i32> = Vec::new();
    let mut j: usize = 0;
    while j < cnt
        invariant
            c < ch,
            len == samples@.len(),
            full == deinterleave_channel(samples@, ch as nat, c as int),
            cnt == full.len(),
            cnt > 0 ==> cnt == (len - c - 1) / (ch as int) + 1,
            j <= cnt,
            col@ == full.take(j as int),
        decreases cnt - j,
    {
        proof {
            let x = (len - c - 1) as int;
            vstd::arithmetic::div_mod::lemma_fundamental_div_mod(x, ch as int);
            assert(j * ch <= x) by (nonlinear_arith)
                requires
                    0 <= j <= x / (ch as int),
                    x == (ch as int) * (x / (ch as int)) + x % (ch as int),
                    0 <= x % (ch as int),
                    ch > 0,
            ;
        }
        col.push(samples[j * ch + c]);
        j = j + 1;
        assert(col@ =~= full.take(j as int));
    }
    assert(full.take(j as int) =~= full);
    match keep {
        Some(t) => {
            let t_us = #[verifier::truncate] (t as usize);
            col.truncate(t_us);
        },
        None => {},
    }
    col
}

/// Frame `j` of channel `c` is kept: its position `j * ch + c` lies inside the samples,
/// and `j` is below the frame count of STREAMINFO when there is one.
pub open spec fn flac_frame_kept(s: Seq<i32>, ch: int, keep: Option<u64>, c: int, j: int) -> bool {
    &&& j * ch + c < s.len()
    &&& match keep {
        Some(t) => j < t as usize,
        None => true,
    }
}

/// The channels of a decoded stream: sample `k` of the interleaved samples belongs to
/// channel `k % channels`; each channel is then cut to the frame count of STREAMINFO.
pub fn decode_flac_stream(stream: FlacStream) -> (d: DecodedAudio)
    ensures
        d@ == flac_audio(flac_stream_fields(stream)),
        d.sample_rate == stream.sample_rate,
        d.bits_per_sample == stream.bits_per_sample,
        d.channels == stream.channels,
        d.samples_per_channel@.len() == stream.channels,
        forall|c: int, j: int|
            #![trigger d.samples_per_channel@[c]@[j]]
            #![trigger flac_frame_kept(stream.samples@, stream.channels as int, stream.total_frames, c, j)]
            0 <= c < stream.channels && 0 <= j < d.samples_per_channel@[c]@.len() ==> flac_frame_kept(
                stream.samples@,
                stream.channels as int,
                stream.total_frames,
                c,
                j,
            ) && d.samples_per_channel@[c]@[j] == stream.samples@[j * stream.channels + c],
        forall|c: int|
            0 <= c < stream.channels ==> {
                let l = (#[trigger] d.samples_per_channel@[c])@.len() as int;
                l * stream.channels + c >= stream.samples@.len() || (stream.total_frames matches Some(
                    t,
                ) && l >= t as usize)
            },
{
    let ghost raw = flac_stream_fields(stream);
    let ch = stream.channels as usize;
    let mut out: Vec<Vec<i32>> = Vec::new();
    let mut c: usize = 0;
    while c < ch
        invariant
            ch == raw.2,
            raw == flac_stream_fields(stream),
            c <= ch,
            out@.len() == c,
            forall|i: int| 0 <= i < c ==> #[trigger] out@[i]@ == flac_channel(raw, i),
        decreases ch - c,
    {
        let col = deinterleave(&stream.samples, ch, c, stream.total_frames);
        out.push(col);
        c += 1;
    }
    let d = DecodedAudio {
        sample_rate: stream.sample_rate,
        bits_per_sample: stream.bits_per_sample,
        channels: stream.channels,
        samples_per_channel: out,
    };
    assert(d@.samples =~= flac_audio(raw).samples);
    assert forall|c: int, j: int|
        #![trigger d.samples_per_channel@[c]@[j]]
        #![trigger flac_frame_kept(stream.samples@, stream.channels as int, stream.total_frames, c, j)]
        0 <= c < stream.channels && 0 <= j < d.samples_per_channel@[c]@.len() implies flac_frame_kept(
            stream.samples@,
            stream.channels as int,
            stream.total_frames,
            c,
            j,
        ) && d.samples_per_channel@[c]@[j] == stream.samples@[j * stream.channels + c] by {
        assert(d.samples_per_channel@[c]@ == flac_channel(raw, c));
        lemma_deinterleave_count(stream.samples@.len(), stream.channels as nat, c, j);
    }
    assert forall|c: int| 0 <= c < stream.channels implies {
        let l = (#[trigger] d.samples_per_channel@[c])@.len() as int;
        l * stream.channels + c >= stream.samples@.len() || (stream.total_frames matches Some(t)
            && l >= t as usize)
    } by {
        assert(d.samples_per_channel@[c]@ == flac_channel(raw, c));
        let l = d.samples_per_channel@[c]@.len() as int;
        lemma_deinterleave_count(stream.samples@.len(), stream.channels as nat, c, l);
    }
    d
}

/// Frame `j` exists in channel `c` of `ch` interleaved channels exactly when its
/// position `j * ch + c` lies inside the samples.
proof fn lemma_deinterleave_count(len: nat, ch: nat, c: int, j: int)
    requires
        0 <= c < ch,
        0 <= j,
    ensures
        j < deinterleave_count(len, ch, c) <==> j * ch + c < len,
{
    assert(j * ch >= 0) by (nonlinear_arith)
        requires
            j >= 0,
            ch >= 0,
    ;
    if len > c {
        let x = len - c - 1;
        let q = x / (ch as int);
        vstd::arithmetic::div_mod::lemma_fundamental_div_mod(x, ch as int);
        if j <= q {
            assert(j * ch <= q * ch) by (nonlinear_arith)
                requires
                    j <= q,
                    ch > 0,
            ;
        } else {
            assert(j * ch >= (q + 1) * ch) by (nonlinear_arith)
                requires
                    j >= q + 1,
                    ch > 0,
            ;
            assert((q + 1) * ch == q * ch + ch) by (nonlinear_arith);
        }
        assert(q * ch == ch * q) by (nonlinear_arith);
    }
}

/// Decodes FLAC bytes into one sample sequence per channel.
///
/// The sample rate and bit depth come from the stream's header, not from constants.
pub fn decode_flac(bytes: &[u8]) -> (r: Result<DecodedAudio, FlacError>)
    ensures
        match claxon_decoded(bytes@) {
            Ok(raw) => r matches Ok(d) && d@ == flac_audio(raw),
            Err(m) => r matches Err(e) && e matches FlacError::Decode(s) && s@ == m,
        },
        r matches Ok(d) ==> claxon_decoded(bytes@) matches Ok(raw) && d.sample_rate == raw.0
            && d.bits_per_sample == raw.1 && d.channels == raw.2,
        r matches Ok(d) ==> claxon_decoded(bytes@) matches Ok(raw) && forall|c: int, j: int|
            #![trigger d.samples_per_channel@[c]@[j]]
            #![trigger flac_frame_kept(raw.4, raw.2 as int, raw.3, c, j)]
            0 <= c < raw.2 && 0 <= j < d.samples_per_channel@[c]@.len() ==> flac_frame_kept(
                raw.4,
                raw.2 as int,
                raw.3,
                c,
                j,
            ) && d.samples_per_channel@[c]@[j] == raw.4[j * raw.2 + c],
        r matches Ok(d) ==> claxon_decoded(bytes@) matches Ok(raw) && d.samples_per_channel@.len()
            == raw.2 && forall|c: int|
            0 <= c < raw.2 ==> {
                let l = (#[trigger] d.samples_per_channel@[c])@.len() as int;
                l * raw.2 + c >= raw.4.len() || (raw.3 matches Some(t) && l >= t as usize)
            },
{
    match read_flac_stream(bytes) {
        Ok(stream) => Ok(decode_flac_stream(stream)),
        Err(m) => Err(FlacError::Decode(m)),
    }
}

// ---------------------------------------------------------------------------
// Encoding
// ---------------------------------------------------------------------------

/// `fLaC`, the marker every FLAC stream starts with.
pub open spec fn flac_marker() -> Seq<u8> {
    seq![0x66u8, 0x4cu8, 0x61u8, 0x43u8]
}

/// What `flacenc` writes for interleaved samples with the given channel count, bits per
/// sample and sample rate, or its error message.
pub uninterp spec fn flacenc_encoded(
    samples: Seq<i32>,
    channels: usize,
    bits_per_sample: usize,
    sample_rate: usize,
) -> Result<Seq<u8>, Seq<char>>;

/// Encodes interleaved samples with `flacenc`: the default encoder configuration with
/// multithreading off (`into_verified`), `MemSource::from_samples`,
/// `encode_with_fixed_block_size` with the configuration's block size, and
/// `Stream::write` into a `ByteSink`.
///
/// Claimed of it: the outcome is [`flacenc_encoded`] of the arguments. With
/// `multithread` off, `encode_with_fixed_block_size` takes the single-threaded path
/// (`coding.rs`), which reads neither the machine's parallelism nor the environment;
/// the outcome then depends on the arguments alone. A written stream starts with `fLaC`
/// (the first thing `Stream::write` writes). `flacenc` documents that this path panics
/// only on an internal error.
#[verifier::external_body]
fn flacenc_encode(
    interleaved: &[i32],
    channels: usize,
    bits_per_sample: usize,
    sample_rate: usize,
) -> (r: Result<Vec<u8>, String>)
    ensures
        match r {
            Ok(v) => flacenc_encoded(interleaved@, channels, bits_per_sample, sample_rate) == Ok::<
                _,
                Seq<char>,
            >(v@),
            Err(m) => flacenc_encoded(interleaved@, channels, bits_per_sample, sample_rate) == Err::<
                Seq<u8>,
                _,
            >(m@),
        },
        r matches Ok(v) ==> v@.len() >= 4 && v@.subrange(0, 4) == flac_marker(),
{
    let mut config = flacenc::config::Encoder::default();
    config.multithread = false;
    let config = config.into_verified().map_err(|(_, e)| format!("{:?}", e))?;
    let source = flacenc::source::MemSource::from_samples(interleaved, channels, bits_per_sample, sample_rate);
    let stream = flacenc::encode_with_fixed_block_size(&config, source, config.block_size)
        .map_err(|e| format!("{:?}", e))?;
    let mut sink = flacenc::bitsink::ByteSink::new();
    stream.write(&mut sink).map_err(|e| format!("{:?}", e))?;
    Ok(sink.into_inner())
}

/// Channels that [`encode_flac`] accepts: at least one, all of the same length.
pub open spec fn flac_encode_accepts(x: Seq<Seq<i32>>) -> bool {
    &&& x.len() >= 1
    &&& forall|i: int| 0 <= i < x.len() ==> #[trigger] x[i].len() == x[0].len()
}

/// The message [`encode_flac`] refuses channels it does not accept with.
pub open spec fn flac_input_error(x: Seq<Seq<i32>>, m: Seq<char>) -> bool {
    if x.len() == 0 {
        m == "チャンネル数が0です"@
    } else {
        exists|i: int|
            #[trigger] is_first_mismatch(x, i) && m == channel_length_message(
                i as nat,
                "のサンプル数がチャンネル0と一致しません("@,
                x[i].len(),
                x[0].len(),
            )
    }
}

/// What [`encode_flac`] gives for channels `x`: an input error with its message, or
/// what `flacenc` gives for the interleaved samples (its stream, or its message as an
/// encode error).
pub open spec fn flac_encode_outcome(
    x: Seq<Seq<i32>>,
    rate: u32,
    bits: u8,
    r: Result<Vec<u8>, FlacError>,
) -> bool {
    if !flac_encode_accepts(x) {
        r matches Err(FlacError::InvalidInput(s)) && flac_input_error(x, s@)
    } else {
        match flacenc_encoded(interleaved(x), x.len() as usize, bits as usize, rate as usize) {
            Ok(b) => r matches Ok(v) && v@ == b,
            Err(m) => r matches Err(FlacError::Encode(s)) && s@ == m,
        }
    }
}

/// Equal-length channels interleaved frame by frame: position `k` holds channel
/// `k % ch` of frame `k / ch`.
pub open spec fn interleaved(x: Seq<Seq<i32>>) -> Seq<i32> {
    Seq::new(x[0].len() * x.len(), |k: int| x[k % (x.len() as int)][k / (x.len() as int)])
}

/// De-interleaving interleaved channels gives back each channel at its own index:
/// channel `c` of the interleaving of equal-length channels is channel `c`.
pub proof fn lemma_deinterleave_interleaved(x: Seq<Seq<i32>>, c: int)
    requires
        flac_encode_accepts(x),
        0 <= c < x.len(),
    ensures
        deinterleave_channel(interleaved(x), x.len(), c) == x[c],
{
    let ch = x.len() as int;
    let n = x[0].len() as int;
    let s = interleaved(x);
    assert(s.len() == n * ch);
    let d = deinterleave_channel(s, x.len(), c);
    let cnt = deinterleave_count(s.len(), x.len(), c) as int;
    lemma_deinterleave_count(s.len(), x.len(), c, n);
    assert(n * ch + c >= n * ch);
    if n > 0 {
        lemma_deinterleave_count(s.len(), x.len(), c, n - 1);
        assert((n - 1) * ch + c < n * ch) by (nonlinear_arith)
            requires
                0 <= c < ch,
                n > 0,
        ;
    }
    assert(d.len() == n);
    assert forall|j: int| 0 <= j < n implies #[trigger] d[j] == x[c][j] by {
        assert(0 <= j * ch + c < n * ch) by (nonlinear_arith)
            requires
                0 <= j < n,
                0 <= c < ch,
        ;
        lemma_fundamental_div_mod_converse(j * ch + c, ch, j, c);
    }
    assert(d =~= x[c]);
}

/// Interleaves equal-length channels frame by frame.
pub fn interleave_channels(samples_per_channel: &[Vec<i32>]) -> (r: Vec<i32>)
    requires
        flac_encode_accepts(channels_view(samples_per_channel@)),
        samples_per_channel@[0]@.len() * samples_per_channel@.len() * 4 <= isize::MAX,
    ensures
        r@ == interleaved(channels_view(samples_per_channel@)),
        r@.len() == samples_per_channel@[0]@.len() * samples_per_channel@.len(),
        forall|k: int|
            0 <= k < r@.len() ==> #[trigger] r@[k] == samples_per_channel@[k
                % samples_per_channel@.len() as int]@[k / samples_per_channel@.len() as int],
{
    let ghost x = channels_view(samples_per_channel@);
    let ghost full = interleaved(x);
    let ch = samples_per_channel.len();
    let n = samples_per_channel[0].len();
    let mut out: Vec<i32> = Vec::new();
    let mut f: usize = 0;
    while f < n
        invariant
            ch == samples_per_channel@.len(),
            x == channels_view(samples_per_channel@),
            flac_encode_accepts(x),
            full == interleaved(x),
            n == x[0].len(),
            f <= n,
            out@ == full.take((f * ch) as int),
        decreases n - f,
    {
        let mut c: usize = 0;
        while c < ch
            invariant
                ch == samples_per_channel@.len(),
                x == channels_view(samples_per_channel@),
                flac_encode_accepts(x),
                full == interleaved(x),
                n == x[0].len(),
                f < n,
                c <= ch,
                out@ == full.take((f * ch + c) as int),
            decreases ch - c,
        {
            proof {
                lemma_fundamental_div_mod_converse((f * ch + c) as int, ch as int, f as int, c as int);
                assert(f * ch + c < n * ch) by (nonlinear_arith)
                    requires
                        f < n,
                        c < ch,
                ;
            }
            assert(x[c as int].len() == n);
            out.push(samples_per_channel[c][f]);
            c += 1;
            assert(out@ =~= full.take((f * ch + c) as int));
        }
        assert((f + 1) * ch == f * ch + ch) by (nonlinear_arith);
        f += 1;
    }
    assert(full.take((n * ch) as int) =~= full);
    out
}

/// Encodes PCM samples (one sequence per channel, not interleaved) as FLAC, with the
/// sample rate and bit depth given rather than fixed.
pub fn encode_flac(samples_per_channel: &[Vec<i32>], sample_rate: u32, bits_per_sample: u8) -> (r:
    Result<Vec<u8>, FlacError>)
    requires
        flac_encode_accepts(channels_view(samples_per_channel@)) ==> samples_per_channel@[0]@.len()
            * samples_per_channel@.len() * 4 <= isize::MAX,
    ensures
        flac_encode_outcome(channels_view(samples_per_channel@), sample_rate, bits_per_sample, r),
        r matches Ok(v) ==> v@.len() >= 4 && v@.subrange(0, 4) == flac_marker(),
{
    let ghost x = channels_view(samples_per_channel@);
    let channels = samples_per_channel.len();
    if channels == 0 {
        return Err(FlacError::InvalidInput(String::from_str("チャンネル数が0です")));
    }
    let num_frames = samples_per_channel[0].len();
    let mut i: usize = 0;
    while i < channels
        invariant
            channels == samples_per_channel@.len(),
            x == channels_view(samples_per_channel@),
            channels > 0,
            num_frames == x[0].len(),
            i <= channels,
            forall|j: int| 0 <= j < i ==> #[trigger] x[j].len() == num_frames,
        decreases channels - i,
    {
        let len_i = samples_per_channel[i].len();
        if len_i != num_frames {
            let msg = channel_length_text(
                i as u64,
                "のサンプル数がチャンネル0と一致しません(",
                len_i as u64,
                num_frames as u64,
            );
            let ghost ii = i as int;
            assert(is_first_mismatch(x, ii) && msg@ == channel_length_message(
                ii as nat,
                "のサンプル数がチャンネル0と一致しません("@,
                x[ii].len(),
                x[0].len(),
            ));
            assert(flac_input_error(x, msg@));
            return Err(FlacError::InvalidInput(msg));
        }
        i += 1;
    }
    assert(flac_encode_accepts(x));
    let frames = interleave_channels(samples_per_channel);
    match flacenc_encode(
        frames.as_slice(),
        channels,
        bits_per_sample as usize,
        sample_rate as usize,
    ) {
        Ok(v) => Ok(v),
        Err(m) => Err(FlacError::Encode(m)),
    }
}

} // verus!
