//! Choice of output format. WAV is the default (uncompressed, simplest, most widely
//! read); FLAC (lossless) can be chosen, and so can Opus (lossy, for low-rate delivery).
//! Opus is a floating-point codec that this library does not hold: the library encodes
//! and decodes the lossless formats, and tells callers which container a byte sequence
//! holds, so that they hand Opus to its codec.

use vstd::prelude::*;
use vstd::string::*;
use crate::dop::PcmFrame24;
use crate::flac::{self, claxon_decoded, flac_audio, flac_encode_accepts, flac_encode_outcome, flac_marker, FlacError};
use crate::wav::{self, channels_view, dop_channel_samples, frame_channels_view, riff_tag, wav_decode, wav_encode_accepts, wav_encode_fits, wav_encode_outcome, wav_file, channel_frames, samples_fit, lemma_wav_round_trip, lemma_dop_wav_round_trip, AudioView, DecodedAudio, WavError};
use crate::text::{decimal, text_then_number};

verus! {

/// The highest sample rate that the FLAC encoder in use (`flacenc`) accepts.
pub const FLAC_MAX_RATE_HZ: u32 = 96_000;

#[derive(Debug, Clone, Copy, PartialEq, Eq, Structural)]
pub enum AudioFormat {
    Wav,
    Flac,
    /// Lossy. `bitrate_bps` is the bit rate (e.g. 128000).
    Opus { bitrate_bps: i32 },
}

impl Default for AudioFormat {
    /// WAV: uncompressed, the simplest and most widely read.
    fn default() -> (r: Self)
        ensures
            r == AudioFormat::Wav,
    {
        AudioFormat::Wav
    }
}

impl AudioFormat {
    /// The file extension of the format.
    pub fn extension(&self) -> (r: &'static str)
        ensures
            r@ == match *self {
                AudioFormat::Wav => "wav"@,
                AudioFormat::Flac => "flac"@,
                AudioFormat::Opus { .. } => "opus"@,
            },
    {
        match self {
            AudioFormat::Wav => "wav",
            AudioFormat::Flac => "flac",
            AudioFormat::Opus { .. } => "opus",
        }
    }

    /// Whether the format keeps DoP (DSD over PCM) bit-exact: WAV and FLAC do, lossy
    /// Opus does not.
    pub fn is_lossless(&self) -> (r: bool)
        ensures
            r == !(*self is Opus),
    {
        !matches!(self, AudioFormat::Opus { .. })
    }
}

#[derive(Debug)]
pub enum CodecError {
    Wav(WavError),
    Flac(FlacError),
    Opus(crate::opus::OpusError),
    /// The format is not part of this build (the feature named).
    FeatureDisabled(&'static str),
    Unsupported(String),
}

/// Machine limits of encoding in a lossless format.
pub open spec fn encode_fits(format: AudioFormat, x: Seq<Seq<i32>>, rate: u32, bits: u8) -> bool {
    match format {
        AudioFormat::Wav => wav_encode_accepts(x, bits) ==> wav_encode_fits(x, rate, bits),
        AudioFormat::Flac => flac_encode_accepts(x) ==> x[0].len() * x.len() * 4 <= isize::MAX,
        AudioFormat::Opus { .. } => true,
    }
}

/// `FLAC(flacenc)は96000Hzまで。{rate}HzはWAVを使ってください`
pub open spec fn flac_rate_message(rate: u32) -> Seq<char> {
    "FLAC(flacenc)は96000Hzまで。"@ + decimal(rate as nat) + "HzはWAVを使ってください"@
}

/// What encoding channels `x` in a lossless format gives: for WAV what [`wav::encode_wav`]
/// gives; for FLAC above [`FLAC_MAX_RATE_HZ`] a refusal, else what [`flac::encode_flac`]
/// gives; each error inside the codec's variant.
pub open spec fn lossless_encode_outcome(
    format: AudioFormat,
    x: Seq<Seq<i32>>,
    rate: u32,
    bits: u8,
    r: Result<Vec<u8>, CodecError>,
) -> bool {
    match format {
        AudioFormat::Wav => exists|w: Result<Vec<u8>, WavError>|
            #[trigger] wav_encode_outcome(x, rate, bits, w) && match w {
                Ok(v) => r matches Ok(u) && u@ == v@,
                Err(e) => r matches Err(CodecError::Wav(f)) && f == e,
            },
        AudioFormat::Flac => if rate > FLAC_MAX_RATE_HZ {
            r matches Err(CodecError::Unsupported(s)) && s@ == flac_rate_message(rate)
        } else {
            exists|w: Result<Vec<u8>, FlacError>|
                #[trigger] flac_encode_outcome(x, rate, bits, w) && match w {
                    Ok(v) => r matches Ok(u) && u@ == v@,
                    Err(e) => r matches Err(CodecError::Flac(f)) && f == e,
                }
        },
        AudioFormat::Opus { .. } => false,
    }
}

/// Encodes PCM samples (one sequence per channel) in a lossless format, WAV or FLAC.
/// Opus is for the caller to hand to its codec.
pub fn encode_lossless(
    format: AudioFormat,
    samples_per_channel: &[Vec<i32>],
    sample_rate: u32,
    bits_per_sample: u8,
) -> (r: Result<Vec<u8>, CodecError>)
    requires
        !(format is Opus),
        encode_fits(format, channels_view(samples_per_channel@), sample_rate, bits_per_sample),
    ensures
        lossless_encode_outcome(
            format,
            channels_view(samples_per_channel@),
            sample_rate,
            bits_per_sample,
            r,
        ),
        format is Flac && r is Ok ==> (r matches Ok(v) && v@.len() >= 4 && v@.subrange(0, 4)
            == flac_marker()),
{
    match format {
        AudioFormat::Flac => {
            if sample_rate > FLAC_MAX_RATE_HZ {
                let mut msg = text_then_number("FLAC(flacenc)は96000Hzまで。", sample_rate as u64);
                msg.append("HzはWAVを使ってください");
                return Err(CodecError::Unsupported(msg));
            }
            let w = flac::encode_flac(samples_per_channel, sample_rate, bits_per_sample);
            match w {
                Ok(v) => Ok(v),
                Err(e) => Err(CodecError::Flac(e)),
            }
        },
        _ => {
            let w = wav::encode_wav(samples_per_channel, sample_rate, bits_per_sample);
            match w {
                Ok(v) => Ok(v),
                Err(e) => Err(CodecError::Wav(e)),
            }
        },
    }
}

/// `OggS`, the capture pattern of an Ogg page.
pub open spec fn ogg_marker() -> Seq<u8> {
    seq![0x4fu8, 0x67u8, 0x67u8, 0x53u8]
}

/// The bytes start with the four-byte marker.
pub open spec fn starts_with(b: Seq<u8>, marker: Seq<u8>) -> bool {
    b.len() >= 4 && b.subrange(0, 4) == marker
}

/// The container a byte sequence holds, by its first four bytes.
#[derive(Debug, Clone, Copy, PartialEq, Eq, Structural)]
pub enum Container {
    /// `RIFF`
    Wav,
    /// `fLaC`
    Flac,
    /// `OggS` (Ogg Opus)
    Ogg,
    /// Anything else.
    Unknown,
}

/// The container of a byte sequence, checked in the order `RIFF`, `fLaC`, `OggS`.
pub open spec fn container_of(b: Seq<u8>) -> Container {
    if starts_with(b, riff_tag()) {
        Container::Wav
    } else if starts_with(b, flac_marker()) {
        Container::Flac
    } else if starts_with(b, ogg_marker()) {
        Container::Ogg
    } else {
        Container::Unknown
    }
}

fn has_marker(b: &[u8], t0: u8, t1: u8, t2: u8, t3: u8) -> (r: bool)
    ensures
        r == starts_with(b@, seq![t0, t1, t2, t3]),
{
    if b.len() < 4 {
        return false;
    }
    let r = b[0] == t0 && b[1] == t1 && b[2] == t2 && b[3] == t3;
    if r {
        assert(b@.subrange(0, 4) =~= seq![t0, t1, t2, t3]);
    } else {
        assert(b@.subrange(0, 4)[0] != t0 || b@.subrange(0, 4)[1] != t1 || b@.subrange(0, 4)[2]
            != t2 || b@.subrange(0, 4)[3] != t3);
    }
    r
}

/// Recognises the container by the magic bytes at the start.
pub fn detect_container(bytes: &[u8]) -> (c: Container)
    ensures
        c == container_of(bytes@),
{
    if has_marker(bytes, 0x52, 0x49, 0x46, 0x46) {
        Container::Wav
    } else if has_marker(bytes, 0x66, 0x4c, 0x61, 0x43) {
        Container::Flac
    } else if has_marker(bytes, 0x4f, 0x67, 0x67, 0x53) {
        Container::Ogg
    } else {
        Container::Unknown
    }
}

/// What decoding a byte sequence that holds no Ogg stream gives: WAV through
/// [`wav::decode_wav`], FLAC through `claxon`, anything else refused.
pub open spec fn lossless_decode_outcome(b: Seq<u8>, r: Result<DecodedAudio, CodecError>) -> bool {
    match container_of(b) {
        Container::Wav => match wav_decode(b) {
            Ok(a) => r matches Ok(d) && d@ == a,
            Err(m) => r matches Err(CodecError::Wav(WavError::Format(s))) && s@ == m,
        },
        Container::Flac => match claxon_decoded(b) {
            Ok(raw) => r matches Ok(d) && d@ == flac_audio(raw),
            Err(m) => r matches Err(CodecError::Flac(FlacError::Decode(s))) && s@ == m,
        },
        Container::Unknown => r matches Err(CodecError::Unsupported(s)) && s@
            == "WAV/FLAC/Opusのいずれでもありません"@,
        Container::Ogg => false,
    }
}

/// Decodes WAV or FLAC, recognised by the magic bytes at the start. An Ogg stream
/// (Opus) is for the caller to hand to its codec.
pub fn decode_lossless(bytes: &[u8]) -> (r: Result<DecodedAudio, CodecError>)
    requires
        container_of(bytes@) != Container::Ogg,
    ensures
        lossless_decode_outcome(bytes@, r),
{
    match detect_container(bytes) {
        Container::Wav => match wav::decode_wav(bytes) {
            Ok(d) => Ok(d),
            Err(e) => Err(CodecError::Wav(e)),
        },
        Container::Flac => match flac::decode_flac(bytes) {
            Ok(d) => Ok(d),
            Err(e) => Err(CodecError::Flac(e)),
        },
        _ => Err(CodecError::Unsupported(String::from_str("WAV/FLAC/Opusのいずれでもありません"))),
    }
}

/// `DoPは非可逆のOpusでは壊れるため保存できません(WAVを選んでください)`
pub open spec fn dop_lossy_message() -> Seq<char> {
    "DoPは非可逆のOpusでは壊れるため保存できません(WAVを選んでください)"@
}

/// Stores DoP (DSD) frames as 24-bit PCM. Only lossless formats are allowed: Opus
/// would destroy the DSD, and FLAC stops at 96 kHz, below DoP's 176.4 kHz and up, so
/// in practice the format is WAV.
pub fn encode_dop(format: AudioFormat, channels: &[Vec<PcmFrame24>], pcm_rate: u32) -> (r: Result<
    Vec<u8>,
    CodecError,
>)
    requires
        encode_fits(format, dop_channel_samples(frame_channels_view(channels@)), pcm_rate, 24),
    ensures
        format is Opus ==> (r matches Err(CodecError::Unsupported(s)) && s@ == dop_lossy_message()),
        !(format is Opus) ==> lossless_encode_outcome(
            format,
            dop_channel_samples(frame_channels_view(channels@)),
            pcm_rate,
            24,
            r,
        ),
{
    if !format.is_lossless() {
        return Err(CodecError::Unsupported(String::from_str(
            "DoPは非可逆のOpusでは壊れるため保存できません(WAVを選んでください)",
        )));
    }
    let samples = wav::frames_to_samples(channels);
    encode_lossless(format, samples.as_slice(), pcm_rate, 24)
}

/// WAV through the format choice: decoding what WAV encoding wrote gives back the sample
/// rate, the bit depth, the channel count and every sample, provided each sample fits
/// the bit depth and the sample data fits the 32-bit length field.
pub proof fn lemma_codec_wav_round_trip(
    x: Seq<Seq<i32>>,
    rate: u32,
    bits: u8,
    written: Result<Vec<u8>, CodecError>,
    read: Result<DecodedAudio, CodecError>,
)
    requires
        wav_encode_accepts(x, bits),
        samples_fit(x, (bits / 8) as nat),
        x[0].len() * x.len() * (bits / 8) < 0x1_0000_0000,
        lossless_encode_outcome(AudioFormat::Wav, x, rate, bits, written),
        written matches Ok(v) && lossless_decode_outcome(v@, read),
    ensures
        read matches Ok(d) && d@ == (AudioView {
            sample_rate: rate,
            bits_per_sample: bits as u32,
            channels: x.len() as u32,
            samples: x,
        }),
{
    lemma_wav_round_trip(x, rate, bits);
}

/// DoP through the format choice: decoding what `encode_dop` wrote as WAV gives back
/// every frame of every channel, markers included, provided the sample data fits the
/// 32-bit length field.
pub proof fn lemma_codec_dop_round_trip(
    frames: Seq<Seq<PcmFrame24>>,
    rate: u32,
    written: Result<Vec<u8>, CodecError>,
    read: Result<DecodedAudio, CodecError>,
)
    requires
        wav_encode_accepts(dop_channel_samples(frames), 24),
        frames[0].len() * frames.len() * 3 < 0x1_0000_0000,
        lossless_encode_outcome(AudioFormat::Wav, dop_channel_samples(frames), rate, 24, written),
        written matches Ok(v) && lossless_decode_outcome(v@, read),
    ensures
        read matches Ok(d) && d@.bits_per_sample == 24 && channel_frames(d@.samples) == frames,
{
    lemma_dop_wav_round_trip(frames, rate);
}

/// What FLAC encoding writes is read by the FLAC decoder: bytes that start with `fLaC`
/// are a FLAC container and decode to what `claxon` reads from them.
pub proof fn lemma_flac_bytes_decode_as_flac(b: Seq<u8>, read: Result<DecodedAudio, CodecError>)
    requires
        starts_with(b, flac_marker()),
        lossless_decode_outcome(b, read),
    ensures
        container_of(b) == Container::Flac,
        match claxon_decoded(b) {
            Ok(raw) => read matches Ok(d) && d@ == flac_audio(raw),
            Err(m) => read matches Err(CodecError::Flac(FlacError::Decode(s))) && s@ == m,
        },
{
    assert(!starts_with(b, riff_tag())) by {
        assert(b.subrange(0, 4)[0] == flac_marker()[0]);
    }
}

} // verus!
