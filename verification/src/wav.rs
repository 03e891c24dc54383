//! WAV (RIFF/WAVE, linear PCM) reading and writing, written without outside crates.
//!
//! Samples are 16, 24 or 32-bit linear PCM, held sign-extended in `i32`. More than two
//! channels, or more than 24 bits, are written as `WAVE_FORMAT_EXTENSIBLE` (0xFFFE);
//! reading accepts both forms. Chunks other than `fmt ` and `data` (such as `LIST`)
//! are skipped. DoP frames travel as 24-bit PCM WAV.

use vstd::prelude::*;
use crate::dop::PcmFrame24;
use vstd::string::*;
use crate::text::{append_decimal, channel_length_message, channel_length_text, decimal, is_first_mismatch, text_then_number};
use vstd::arithmetic::div_mod::{lemma_fundamental_div_mod, lemma_fundamental_div_mod_converse};

verus! {

// ---------------------------------------------------------------------------
// Little-endian integers
// ---------------------------------------------------------------------------

/// Little-endian bytes of a `u16`.
pub open spec fn le16(v: u16) -> Seq<u8> {
    seq![(v & 0xff) as u8, ((v >> 8) & 0xff) as u8]
}

/// Little-endian bytes of a `u32`.
pub open spec fn le32(v: u32) -> Seq<u8> {
    seq![
        (v & 0xff) as u8,
        ((v >> 8) & 0xff) as u8,
        ((v >> 16) & 0xff) as u8,
        ((v >> 24) & 0xff) as u8,
    ]
}

/// The `u16` stored little-endian at `b[i..i + 2]`.
pub open spec fn u16_from(b: Seq<u8>, i: int) -> u16 {
    (b[i] as u16) | ((b[i + 1] as u16) << 8)
}

/// The `u32` stored little-endian at `b[i..i + 4]`.
pub open spec fn u32_from(b: Seq<u8>, i: int) -> u32 {
    (b[i] as u32) | ((b[i + 1] as u32) << 8) | ((b[i + 2] as u32) << 16) | ((b[i + 3] as u32)
        << 24)
}

fn u16_at(b: &[u8], i: usize) -> (r: u16)
    requires
        i + 1 < b@.len(),
    ensures
        r == u16_from(b@, i as int),
{
    (b[i] as u16) | ((b[i + 1] as u16) << 8)
}

fn u32_at(b: &[u8], i: usize) -> (r: u32)
    requires
        i + 3 < b@.len(),
    ensures
        r == u32_from(b@, i as int),
{
    (b[i] as u32) | ((b[i + 1] as u32) << 8) | ((b[i + 2] as u32) << 16) | ((b[i + 3] as u32)
        << 24)
}

/// Reading back what [`le16`] wrote gives the value.
pub proof fn lemma_le16_round_trip(v: u16)
    ensures
        u16_from(le16(v), 0) == v,
{
    let b0 = (v & 0xff) as u8;
    let b1 = ((v >> 8) & 0xff) as u8;
    assert(((b0 as u16) | ((b1 as u16) << 8)) == v) by (bit_vector)
        requires
            b0 == (v & 0xff) as u8,
            b1 == ((v >> 8) & 0xff) as u8,
    ;
}

/// Reading back what [`le32`] wrote gives the value.
pub proof fn lemma_le32_round_trip(v: u32)
    ensures
        u32_from(le32(v), 0) == v,
{
    let b0 = (v & 0xff) as u8;
    let b1 = ((v >> 8) & 0xff) as u8;
    let b2 = ((v >> 16) & 0xff) as u8;
    let b3 = ((v >> 24) & 0xff) as u8;
    assert(((b0 as u32) | ((b1 as u32) << 8) | ((b2 as u32) << 16) | ((b3 as u32) << 24)) == v)
        by (bit_vector)
        requires
            b0 == (v & 0xff) as u8,
            b1 == ((v >> 8) & 0xff) as u8,
            b2 == ((v >> 16) & 0xff) as u8,
            b3 == ((v >> 24) & 0xff) as u8,
    ;
}

// ---------------------------------------------------------------------------
// Samples
// ---------------------------------------------------------------------------

/// A sample fits a container of `bps` bytes (`bps` in 2, 3, 4) as a signed integer.
pub open spec fn sample_fits(s: i32, bps: nat) -> bool {
    if bps == 2 {
        -0x8000 <= s < 0x8000
    } else if bps == 3 {
        -0x80_0000 <= s < 0x80_0000
    } else {
        true
    }
}

/// The bytes a sample takes in a WAV data chunk: the low `bps` bytes, little-endian.
pub open spec fn sample_le_bytes(s: i32, bps: nat) -> Seq<u8> {
    le32(s as u32).take(bps as int)
}

/// The sample stored in `bps` little-endian bytes at `b[i..]`, sign-extended.
pub open spec fn sample_from_le(b: Seq<u8>, i: int, bps: nat) -> i32 {
    if bps == 2 {
        u16_from(b, i) as i16 as i32
    } else if bps == 3 {
        let v = (b[i] as u32) | ((b[i + 1] as u32) << 8) | ((b[i + 2] as u32) << 16);
        if v >= 0x80_0000 {
            (v - 0x100_0000) as i32
        } else {
            v as i32
        }
    } else {
        u32_from(b, i) as i32
    }
}

fn read_sample(b: &[u8], i: usize, bps: usize) -> (r: i32)
    requires
        bps == 2 || bps == 3 || bps == 4,
        i + bps <= b@.len(),
    ensures
        r == sample_from_le(b@, i as int, bps as nat),
{
    if bps == 2 {
        u16_at(b, i) as i16 as i32
    } else if bps == 3 {
        let x0 = b[i];
        let x1 = b[i + 1];
        let x2 = b[i + 2];
        let v: u32 = (x0 as u32) | ((x1 as u32) << 8) | ((x2 as u32) << 16);
        assert(v < 0x100_0000) by (bit_vector)
            requires
                v == (x0 as u32) | ((x1 as u32) << 8) | ((x2 as u32) << 16),
        ;
        if v >= 0x80_0000 {
            (v as i32) - 0x100_0000
        } else {
            v as i32
        }
    } else {
        u32_at(b, i) as i32
    }
}

fn push_sample(v: &mut Vec<u8>, s: i32, bps: usize)
    requires
        bps == 2 || bps == 3 || bps == 4,
    ensures
        final(v)@ == old(v)@ + sample_le_bytes(s, bps as nat),
{
    let u = s as u32;
    v.push((u & 0xff) as u8);
    v.push(((u >> 8) & 0xff) as u8);
    if bps >= 3 {
        v.push(((u >> 16) & 0xff) as u8);
    }
    if bps == 4 {
        v.push(((u >> 24) & 0xff) as u8);
    }
    assert(final(v)@ =~= old(v)@ + sample_le_bytes(s, bps as nat));
}

/// A sample that fits its container is read back unchanged.
pub proof fn lemma_sample_round_trip(s: i32, bps: nat)
    requires
        bps == 2 || bps == 3 || bps == 4,
        sample_fits(s, bps),
    ensures
        sample_from_le(sample_le_bytes(s, bps), 0, bps) == s,
{
    let u = s as u32;
    let b0 = (u & 0xff) as u8;
    let b1 = ((u >> 8) & 0xff) as u8;
    let b2 = ((u >> 16) & 0xff) as u8;
    let b3 = ((u >> 24) & 0xff) as u8;
    let b = sample_le_bytes(s, bps);
    if bps == 2 {
        assert(((((b0 as u16) | ((b1 as u16) << 8)) as i16) as i32) == s) by (bit_vector)
            requires
                u == s as u32,
                b0 == (u & 0xff) as u8,
                b1 == ((u >> 8) & 0xff) as u8,
                -0x8000 <= s < 0x8000,
        ;
    } else if bps == 3 {
        let v = (b0 as u32) | ((b1 as u32) << 8) | ((b2 as u32) << 16);
        assert(v >= 0x80_0000 ==> (v as int - 0x100_0000) == s as int) by (bit_vector)
            requires
                u == s as u32,
                b0 == (u & 0xff) as u8,
                b1 == ((u >> 8) & 0xff) as u8,
                b2 == ((u >> 16) & 0xff) as u8,
                v == (b0 as u32) | ((b1 as u32) << 8) | ((b2 as u32) << 16),
                -0x80_0000 <= s < 0x80_0000,
        ;
        assert(v < 0x80_0000 ==> v as int == s as int) by (bit_vector)
            requires
                u == s as u32,
                b0 == (u & 0xff) as u8,
                b1 == ((u >> 8) & 0xff) as u8,
                b2 == ((u >> 16) & 0xff) as u8,
                v == (b0 as u32) | ((b1 as u32) << 8) | ((b2 as u32) << 16),
                -0x80_0000 <= s < 0x80_0000,
        ;
    } else {
        assert((((b0 as u32) | ((b1 as u32) << 8) | ((b2 as u32) << 16) | ((b3 as u32) << 24))
            as i32) == s) by (bit_vector)
            requires
                u == s as u32,
                b0 == (u & 0xff) as u8,
                b1 == ((u >> 8) & 0xff) as u8,
                b2 == ((u >> 16) & 0xff) as u8,
                b3 == ((u >> 24) & 0xff) as u8,
        ;
    }
}


// ---------------------------------------------------------------------------
// Audio values and errors
// ---------------------------------------------------------------------------

/// Decoded audio. Channels are not interleaved: each channel is its own sample
/// sequence, so that callers choose whether to interleave.
#[derive(Debug, Clone, PartialEq, Eq)]
pub struct DecodedAudio {
    pub sample_rate: u32,
    pub bits_per_sample: u32,
    pub channels: u32,
    /// One sample sequence per channel (`channels` of them).
    pub samples_per_channel: Vec<Vec<i32>>,
}

/// The mathematical value of [`DecodedAudio`].
pub struct AudioView {
    pub sample_rate: u32,
    pub bits_per_sample: u32,
    pub channels: u32,
    pub samples: Seq<Seq<i32>>,
}

/// The sample sequences of a list of channels.
pub open spec fn channels_view(s: Seq<Vec<i32>>) -> Seq<Seq<i32>> {
    Seq::new(s.len(), |i: int| s[i]@)
}

impl View for DecodedAudio {
    type V = AudioView;

    open spec fn view(&self) -> AudioView {
        AudioView {
            sample_rate: self.sample_rate,
            bits_per_sample: self.bits_per_sample,
            channels: self.channels,
            samples: channels_view(self.samples_per_channel@),
        }
    }
}

/// Frames in a channel list: the length of the first channel, or 0 without channels.
pub open spec fn frame_count(x: Seq<Seq<i32>>) -> nat {
    if x.len() == 0 {
        0
    } else {
        x[0].len()
    }
}

impl DecodedAudio {
    /// Number of frames: the length of the first channel, 0 when there is none.
    pub fn num_frames(&self) -> (r: usize)
        ensures
            r == frame_count(self@.samples),
    {
        if self.samples_per_channel.len() == 0 {
            0
        } else {
            self.samples_per_channel[0].len()
        }
    }
}

#[derive(Debug)]
pub enum WavError {
    /// The bytes are not a WAV file that this module reads.
    Format(String),
    /// The samples or parameters cannot be written as WAV.
    InvalidInput(String),
}

// ---------------------------------------------------------------------------
// Layout of a written file
// ---------------------------------------------------------------------------

/// `RIFF`
pub open spec fn riff_tag() -> Seq<u8> {
    seq![0x52u8, 0x49u8, 0x46u8, 0x46u8]
}

/// `WAVE`
pub open spec fn wave_tag() -> Seq<u8> {
    seq![0x57u8, 0x41u8, 0x56u8, 0x45u8]
}

/// `fmt `
pub open spec fn fmt_tag() -> Seq<u8> {
    seq![0x66u8, 0x6du8, 0x74u8, 0x20u8]
}

/// `data`
pub open spec fn data_tag() -> Seq<u8> {
    seq![0x64u8, 0x61u8, 0x74u8, 0x61u8]
}

/// The SubFormat GUID of integer PCM in a `WAVE_FORMAT_EXTENSIBLE` fmt chunk.
pub open spec fn pcm_guid() -> Seq<u8> {
    seq![1u8, 0, 0, 0, 0, 0, 0x10, 0, 0x80, 0, 0, 0xAA, 0, 0x38, 0x9B, 0x71]
}

/// Inputs that [`encode_wav`] writes: 1 to 65535 channels of equal length,
/// 16, 24 or 32 bits.
pub open spec fn wav_encode_accepts(x: Seq<Seq<i32>>, bits: u8) -> bool {
    &&& 1 <= x.len() <= 65535
    &&& bits == 16 || bits == 24 || bits == 32
    &&& forall|i: int| 0 <= i < x.len() ==> #[trigger] x[i].len() == x[0].len()
}

/// The message [`encode_wav`] refuses channels `x` at `bits` with.
pub open spec fn wav_encode_error(x: Seq<Seq<i32>>, bits: u8, m: Seq<char>) -> bool {
    if !(1 <= x.len() <= 65535) {
        m == "チャンネル数が不正です"@
    } else if !(bits == 16 || bits == 24 || bits == 32) {
        m == "未対応のビット深度: "@ + decimal(bits as nat)
    } else {
        exists|i: int|
            #[trigger] is_first_mismatch(x, i) && m == channel_length_message(
                i as nat,
                "のサンプル数が一致しません("@,
                x[i].len(),
                x[0].len(),
            )
    }
}

/// What [`encode_wav`] gives for channels `x`: the file [`wav_file`], or an input
/// error with its message.
pub open spec fn wav_encode_outcome(
    x: Seq<Seq<i32>>,
    rate: u32,
    bits: u8,
    r: Result<Vec<u8>, WavError>,
) -> bool {
    if wav_encode_accepts(x, bits) {
        r matches Ok(v) && v@ == wav_file(x, rate, bits)
    } else {
        r matches Err(WavError::InvalidInput(s)) && wav_encode_error(x, bits, s@)
    }
}

/// Machine limits of writing: the byte rate fits its 32-bit field, and the file
/// fits in memory.
pub open spec fn wav_encode_fits(x: Seq<Seq<i32>>, rate: u32, bits: u8) -> bool {
    &&& rate * x.len() * (bits / 8) <= u32::MAX
    &&& x[0].len() * x.len() * (bits / 8) + 69 <= isize::MAX
}

/// Whether a file with these channels and bits is written as `WAVE_FORMAT_EXTENSIBLE`.
pub open spec fn wav_extensible(ch: nat, bits: u8) -> bool {
    ch > 2 || bits > 24
}

/// Length of the fmt chunk body.
pub open spec fn wav_fmt_len(ch: nat, bits: u8) -> nat {
    if wav_extensible(ch, bits) {
        40
    } else {
        16
    }
}

/// The format tag written: `WAVE_FORMAT_EXTENSIBLE` or plain PCM.
pub open spec fn wav_format_tag(ch: nat, bits: u8) -> u16 {
    if wav_extensible(ch, bits) {
        0xFFFE
    } else {
        1
    }
}

/// Body of the fmt chunk: format tag, channels, sample rate, byte rate, block align,
/// bits per sample, and for `WAVE_FORMAT_EXTENSIBLE` the extension (valid bits, a zero
/// channel mask, the PCM SubFormat GUID). The block align keeps its low 16 bits.
pub open spec fn wav_fmt_body(ch: nat, rate: u32, bits: u8) -> Seq<u8> {
    let bps = (bits / 8) as nat;
    let ext_part = if wav_extensible(ch, bits) {
        le16(22) + le16(bits as u16) + le32(0) + pcm_guid()
    } else {
        Seq::<u8>::empty()
    };
    le16(wav_format_tag(ch, bits)) + le16(ch as u16) + le32(rate) + le32((rate * ch * bps) as u32)
        + le16((ch * bps) as u16) + le16(bits as u16) + ext_part
}

/// Everything before the samples: the RIFF header, the fmt chunk and the data chunk
/// header. Size fields that do not fit 32 bits keep their low 32 bits.
pub open spec fn wav_header(ch: nat, rate: u32, bits: u8, data_len: nat) -> Seq<u8> {
    let fmt_len = wav_fmt_len(ch, bits);
    let riff_len = (4 + 8 + fmt_len + 8 + data_len + data_len % 2) as u32;
    riff_tag() + le32(riff_len) + wave_tag() + (fmt_tag() + le32(fmt_len as u32) + wav_fmt_body(
        ch,
        rate,
        bits,
    )) + (data_tag() + le32(data_len as u32))
}

/// Byte `k` of the sample data: byte `k % bps` of the sample of channel
/// `(k / bps) % ch` in frame `(k / bps) / ch`. Frames follow each other, and within
/// a frame the channels follow each other.
pub open spec fn wav_data_byte(x: Seq<Seq<i32>>, bps: nat, k: int) -> u8 {
    let j = k / (bps as int);
    sample_le_bytes(x[j % (x.len() as int)][j / (x.len() as int)], bps)[k % (bps as int)]
}

/// The sample data of equal-length channels.
pub open spec fn wav_data(x: Seq<Seq<i32>>, bps: nat) -> Seq<u8> {
    Seq::new(x[0].len() * x.len() * bps, |k: int| wav_data_byte(x, bps, k))
}

/// The WAV file that [`encode_wav`] writes: header, sample data, and a pad byte
/// when the data length is odd.
pub open spec fn wav_file(x: Seq<Seq<i32>>, rate: u32, bits: u8) -> Seq<u8> {
    let d = wav_data(x, (bits / 8) as nat);
    wav_header(x.len(), rate, bits, d.len()) + d + if d.len() % 2 == 1 {
        seq![0u8]
    } else {
        Seq::<u8>::empty()
    }
}

fn push_u16(v: &mut Vec<u8>, x: u16)
    ensures
        final(v)@ == old(v)@ + le16(x),
{
    v.push((x & 0xff) as u8);
    v.push(((x >> 8) & 0xff) as u8);
    assert(final(v)@ =~= old(v)@ + le16(x));
}

fn push_u32(v: &mut Vec<u8>, x: u32)
    ensures
        final(v)@ == old(v)@ + le32(x),
{
    v.push((x & 0xff) as u8);
    v.push(((x >> 8) & 0xff) as u8);
    v.push(((x >> 16) & 0xff) as u8);
    v.push(((x >> 24) & 0xff) as u8);
    assert(final(v)@ =~= old(v)@ + le32(x));
}

fn push_tag(v: &mut Vec<u8>, a: u8, b: u8, c: u8, d: u8)
    ensures
        final(v)@ == old(v)@ + seq![a, b, c, d],
{
    v.push(a);
    v.push(b);
    v.push(c);
    v.push(d);
    assert(final(v)@ =~= old(v)@ + seq![a, b, c, d]);
}

/// The sample bytes of frame `f`, channel `c` stand at `(f * ch + c) * bps` in the
/// sample data.
proof fn lemma_wav_data_sample(x: Seq<Seq<i32>>, bps: nat, f: int, c: int)
    requires
        0 < bps <= 4,
        x.len() > 0,
        0 <= f < x[0].len(),
        0 <= c < x.len(),
        forall|i: int| 0 <= i < x.len() ==> #[trigger] x[i].len() == x[0].len(),
    ensures
        (f * x.len() + c) * bps + bps <= wav_data(x, bps).len(),
        wav_data(x, bps).subrange((f * x.len() + c) * bps, (f * x.len() + c) * bps + bps)
            == sample_le_bytes(x[c][f], bps),
{
    let ch = x.len() as int;
    let n = x[0].len() as int;
    let b = bps as int;
    let j = f * ch + c;
    assert(j + 1 <= n * ch) by (nonlinear_arith)
        requires
            0 <= f < n,
            0 <= c < ch,
            j == f * ch + c,
    ;
    assert((j + 1) * b <= n * ch * b) by (nonlinear_arith)
        requires
            j + 1 <= n * ch,
            b > 0,
    ;
    assert(j * b + b == (j + 1) * b) by (nonlinear_arith);
    lemma_fundamental_div_mod_converse(j, ch, f, c);
    assert forall|t: int| 0 <= t < b implies #[trigger] wav_data(x, bps).subrange(j * b, j * b + b)[t]
        == sample_le_bytes(x[c][f], bps)[t] by {
        let k = j * b + t;
        lemma_fundamental_div_mod_converse(k, b, j, t);
        assert(0 <= k) by (nonlinear_arith)
            requires
                0 <= j,
                0 <= t,
                b > 0,
                k == j * b + t,
        ;
        assert(k < n * ch * b);
        assert(wav_data(x, bps)[k] == wav_data_byte(x, bps, k));
        assert(k / b == j);
        assert(k % b == t);
        assert(j % ch == c);
        assert(j / ch == f);
    }
    assert(wav_data(x, bps).subrange(j * b, j * b + b) =~= sample_le_bytes(x[c][f], bps));
}

fn wav_fmt_ext_bytes(bits_per_sample: u8) -> (v: Vec<u8>)
    ensures
        v@ == le16(22) + le16(bits_per_sample as u16) + le32(0) + pcm_guid(),
{
    let mut v: Vec<u8> = Vec::new();
    push_u16(&mut v, 22);
    push_u16(&mut v, bits_per_sample as u16);
    push_u32(&mut v, 0);
    push_tag(&mut v, 1, 0, 0, 0);
    push_tag(&mut v, 0, 0, 0x10, 0);
    push_tag(&mut v, 0x80, 0, 0, 0xAA);
    push_tag(&mut v, 0, 0x38, 0x9B, 0x71);
    assert(v@ =~= le16(22) + le16(bits_per_sample as u16) + le32(0) + pcm_guid());
    v
}

fn wav_fmt_body_bytes(ch: usize, sample_rate: u32, bits_per_sample: u8) -> (v: Vec<u8>)
    requires
        1 <= ch <= 65535,
        bits_per_sample == 16 || bits_per_sample == 24 || bits_per_sample == 32,
        sample_rate * ch * (bits_per_sample / 8) <= u32::MAX,
    ensures
        v@ == wav_fmt_body(ch as nat, sample_rate, bits_per_sample),
{
    let bps: usize = (bits_per_sample / 8) as usize;
    assert(sample_rate * ch <= sample_rate * ch * bps) by (nonlinear_arith)
        requires
            bps >= 1,
    ;
    assert(ch * bps <= 65535 * 4) by (nonlinear_arith)
        requires
            ch <= 65535,
            bps <= 4,
    ;
    let extensible = ch > 2 || bits_per_sample > 24;
    let mut v: Vec<u8> = Vec::new();
    push_u16(
        &mut v,
        if extensible {
            0xFFFE
        } else {
            1
        },
    );
    push_u16(&mut v, ch as u16);
    push_u32(&mut v, sample_rate);
    push_u32(&mut v, sample_rate * (ch as u32) * (bps as u32));
    let block_align: u16 = #[verifier::truncate] ((ch * bps) as u16);
    push_u16(&mut v, block_align);
    push_u16(&mut v, bits_per_sample as u16);
    if extensible {
        let mut ext = wav_fmt_ext_bytes(bits_per_sample);
        v.append(&mut ext);
    }
    assert(v@ =~= wav_fmt_body(ch as nat, sample_rate, bits_per_sample));
    v
}

fn wav_header_bytes(ch: usize, sample_rate: u32, bits_per_sample: u8, data_len: usize) -> (v: Vec<u8>)
    requires
        1 <= ch <= 65535,
        bits_per_sample == 16 || bits_per_sample == 24 || bits_per_sample == 32,
        sample_rate * ch * (bits_per_sample / 8) <= u32::MAX,
        data_len + 69 <= isize::MAX,
    ensures
        v@ == wav_header(ch as nat, sample_rate, bits_per_sample, data_len as nat),
{
    let extensible = ch > 2 || bits_per_sample > 24;
    let fmt_len: usize = if extensible {
        40
    } else {
        16
    };
    let mut fmt: Vec<u8> = Vec::new();
    push_tag(&mut fmt, 0x66, 0x6d, 0x74, 0x20);
    push_u32(&mut fmt, fmt_len as u32);
    let mut body = wav_fmt_body_bytes(ch, sample_rate, bits_per_sample);
    fmt.append(&mut body);
    assert(fmt@ =~= fmt_tag() + le32(fmt_len as u32) + wav_fmt_body(
        ch as nat,
        sample_rate,
        bits_per_sample,
    ));
    let mut data_head: Vec<u8> = Vec::new();
    push_tag(&mut data_head, 0x64, 0x61, 0x74, 0x61);
    let data_len32: u32 = #[verifier::truncate] (data_len as u32);
    push_u32(&mut data_head, data_len32);
    assert(data_head@ =~= data_tag() + le32(data_len as u32));
    let mut v: Vec<u8> = Vec::new();
    push_tag(&mut v, 0x52, 0x49, 0x46, 0x46);
    let riff_len: u32 = #[verifier::truncate] ((4 + 8 + fmt_len + 8 + data_len + data_len % 2) as u32);
    push_u32(&mut v, riff_len);
    push_tag(&mut v, 0x57, 0x41, 0x56, 0x45);
    assert(v@ =~= riff_tag() + le32(riff_len) + wave_tag());
    v.append(&mut fmt);
    v.append(&mut data_head);
    v
}

fn write_wav_data(v: &mut Vec<u8>, samples_per_channel: &[Vec<i32>], bps: usize)
    requires
        samples_per_channel@.len() >= 1,
        bps == 2 || bps == 3 || bps == 4,
        forall|i: int|
            0 <= i < samples_per_channel@.len() ==> #[trigger] samples_per_channel@[i]@.len()
                == samples_per_channel@[0]@.len(),
    ensures
        final(v)@ == old(v)@ + wav_data(channels_view(samples_per_channel@), bps as nat),
{
    let ghost x = channels_view(samples_per_channel@);
    let ghost hdr = v@;
    let ghost d = wav_data(x, bps as nat);
    let ch = samples_per_channel.len();
    let n = samples_per_channel[0].len();
    assert(forall|i: int| 0 <= i < x.len() ==> #[trigger] x[i].len() == x[0].len());
    assert(v@ =~= hdr + d.take(0));
    assert(0 * ch * bps == 0);
    let mut f: usize = 0;
    while f < n
        invariant
            ch == samples_per_channel@.len(),
            ch >= 1,
            x == channels_view(samples_per_channel@),
            forall|i: int| 0 <= i < x.len() ==> #[trigger] x[i].len() == x[0].len(),
            n == x[0].len(),
            bps == 2 || bps == 3 || bps == 4,
            d == wav_data(x, bps as nat),
            f <= n,
            v@ == hdr + d.take((f * ch * bps) as int),
        decreases n - f,
    {
        let mut c: usize = 0;
        while c < ch
            invariant
                ch == samples_per_channel@.len(),
                ch >= 1,
                x == channels_view(samples_per_channel@),
                forall|i: int| 0 <= i < x.len() ==> #[trigger] x[i].len() == x[0].len(),
                n == x[0].len(),
                bps == 2 || bps == 3 || bps == 4,
                d == wav_data(x, bps as nat),
                f < n,
                c <= ch,
                v@ == hdr + d.take(((f * ch + c) * bps) as int),
            decreases ch - c,
        {
            proof {
                lemma_wav_data_sample(x, bps as nat, f as int, c as int);
            }
            assert(x[c as int].len() == n);
            let s = samples_per_channel[c][f];
            assert(s == x[c as int][f as int]);
            push_sample(v, s, bps);
            let ghost j = (f * ch + c) as int;
            assert(d.take(j * bps + bps) =~= d.take(j * bps) + d.subrange(j * bps, j * bps + bps));
            assert((f * ch + (c + 1)) * bps == j * bps + bps) by (nonlinear_arith)
                requires
                    j == f * ch + c,
            ;
            c += 1;
        }
        assert((f + 1) * ch * bps == (f * ch + ch) * bps) by (nonlinear_arith);
        f += 1;
    }
    assert(d.len() == n * ch * bps);
    assert(d.take(d.len() as int) =~= d);
}

/// Writes PCM samples (one sequence per channel, not interleaved) as a WAV file.
///
/// Up to two channels of up to 24 bits use the plain PCM fmt chunk; more channels or
/// 32 bits use `WAVE_FORMAT_EXTENSIBLE` with a zero channel mask.
pub fn encode_wav(samples_per_channel: &[Vec<i32>], sample_rate: u32, bits_per_sample: u8) -> (r:
    Result<Vec<u8>, WavError>)
    requires
        wav_encode_accepts(channels_view(samples_per_channel@), bits_per_sample) ==> wav_encode_fits(
            channels_view(samples_per_channel@),
            sample_rate,
            bits_per_sample,
        ),
    ensures
        wav_encode_outcome(channels_view(samples_per_channel@), sample_rate, bits_per_sample, r),
{
    let ghost x = channels_view(samples_per_channel@);
    let ch = samples_per_channel.len();
    if ch == 0 || ch > 65535 {
        return Err(WavError::InvalidInput(String::from_str("チャンネル数が不正です")));
    }
    if !(bits_per_sample == 16 || bits_per_sample == 24 || bits_per_sample == 32) {
        let msg = text_then_number("未対応のビット深度: ", bits_per_sample as u64);
        return Err(WavError::InvalidInput(msg));
    }
    let n = samples_per_channel[0].len();
    let mut i: usize = 0;
    while i < ch
        invariant
            ch == samples_per_channel@.len(),
            x == channels_view(samples_per_channel@),
            0 < ch <= 65535,
            bits_per_sample == 16 || bits_per_sample == 24 || bits_per_sample == 32,
            n == x[0].len(),
            i <= ch,
            forall|j: int| 0 <= j < i ==> #[trigger] x[j].len() == n,
        decreases ch - i,
    {
        let len_i = samples_per_channel[i].len();
        if len_i != n {
            let msg = channel_length_text(i as u64, "のサンプル数が一致しません(", len_i as u64, n as u64);
            assert(is_first_mismatch(x, i as int));
            let ghost ii = i as int;
            assert(msg@ == channel_length_message(
                ii as nat,
                "のサンプル数が一致しません("@,
                x[ii].len(),
                x[0].len(),
            ));
            assert(is_first_mismatch(x, ii) && msg@ == channel_length_message(
                ii as nat,
                "のサンプル数が一致しません("@,
                x[ii].len(),
                x[0].len(),
            ));
            assert(wav_encode_error(x, bits_per_sample, msg@));
            return Err(WavError::InvalidInput(msg));
        }
        i += 1;
    }
    assert(wav_encode_accepts(x, bits_per_sample));
    let bps: usize = (bits_per_sample / 8) as usize;
    assert(n * ch <= n * ch * bps) by (nonlinear_arith)
        requires
            bps >= 1,
    ;
    let data_len: usize = n * ch * bps;
    assert forall|i: int| 0 <= i < ch implies #[trigger] samples_per_channel@[i]@.len()
        == samples_per_channel@[0]@.len() by {
        assert(x[i].len() == x[0].len());
    }
    let mut v = wav_header_bytes(ch, sample_rate, bits_per_sample, data_len);
    write_wav_data(&mut v, samples_per_channel, bps);
    if data_len % 2 == 1 {
        v.push(0);
    }
    assert(v@ =~= wav_file(x, sample_rate, bits_per_sample));
    Ok(v)
}


// ---------------------------------------------------------------------------
// Reading
// ---------------------------------------------------------------------------

/// Fields of a fmt chunk whose body starts at `body`: (format tag, channels, sample
/// rate, bits per sample). For `WAVE_FORMAT_EXTENSIBLE` with a body of at least 26
/// bytes, the format tag is the first two bytes of the SubFormat GUID.
pub open spec fn wav_fmt_fields(b: Seq<u8>, body: int, size: int) -> (u16, u16, u32, u16) {
    let tag0 = u16_from(b, body);
    let tag = if tag0 == 0xFFFE && size >= 26 {
        u16_from(b, body + 24)
    } else {
        tag0
    };
    (tag, u16_from(b, body + 2), u32_from(b, body + 4), u16_from(b, body + 14))
}

/// The channels held by interleaved sample data: channel `c` of frame `f` is read
/// at `(f * ch + c) * bps`; a trailing partial frame is ignored.
pub open spec fn wav_samples(data: Seq<u8>, ch: nat, bps: nat) -> Seq<Seq<i32>> {
    Seq::new(ch, |c: int| wav_channel(data, ch, bps, c))
}

/// Channel `c` of interleaved sample data (see [`wav_samples`]).
pub open spec fn wav_channel(data: Seq<u8>, ch: nat, bps: nat, c: int) -> Seq<i32> {
    Seq::new(
        data.len() / (ch * bps),
        |f: int| sample_from_le(data, (f * (ch as int) + c) * (bps as int), bps),
    )
}

/// Where the chunk after a chunk of `size` bytes whose body starts at `body` begins:
/// chunk bodies are padded to an even length.
pub open spec fn next_chunk(body: int, size: int) -> int {
    body + size + size % 2
}

/// `dataチャンクがありません`: the walk ended without a data chunk.
pub open spec fn no_data_message() -> Seq<char> {
    "dataチャンクがありません"@
}

/// The audio found by walking the chunks from `pos`, with the fmt fields seen so far.
/// A fmt chunk records its fields; the first data chunk ends the walk; other chunks
/// are skipped. An error carries the message of the first problem met.
pub open spec fn wav_chunks(b: Seq<u8>, pos: int, fmt: Option<(u16, u16, u32, u16)>) -> Result<
    AudioView,
    Seq<char>,
>
    decreases b.len() - pos,
{
    if pos < 0 || pos + 8 > b.len() {
        Err(no_data_message())
    } else {
        let size = u32_from(b, pos + 4) as int;
        let body = pos + 8;
        let id = b.subrange(pos, pos + 4);
        if id == fmt_tag() {
            if size < 16 || body + size > b.len() {
                Err("fmtチャンクが短すぎます"@)
            } else if next_chunk(body, size) + 8 > b.len() {
                Err(no_data_message())
            } else {
                wav_chunks(b, next_chunk(body, size), Some(wav_fmt_fields(b, body, size)))
            }
        } else if id == data_tag() {
            match fmt {
                None => Err("fmtがdataより後にあります"@),
                Some(fields) => {
                    let (tag, ch, rate, bits) = fields;
                    if tag != 1 {
                        Err("リニアPCM以外は未対応です(形式"@ + decimal(tag as nat) + ")"@)
                    } else if !(bits == 16 || bits == 24 || bits == 32) || ch == 0 {
                        Err(
                            "未対応のビット深度/チャンネル数: "@ + decimal(bits as nat) + "bit "@
                                + decimal(ch as nat) + "ch"@,
                        )
                    } else {
                        let end = if body + size > b.len() {
                            b.len() as int
                        } else {
                            body + size
                        };
                        Ok(
                            AudioView {
                                sample_rate: rate,
                                bits_per_sample: bits as u32,
                                channels: ch as u32,
                                samples: wav_samples(
                                    b.subrange(body, end),
                                    ch as nat,
                                    (bits / 8) as nat,
                                ),
                            },
                        )
                    }
                },
            }
        } else if body + size > b.len() || next_chunk(body, size) + 8 > b.len() {
            Err(no_data_message())
        } else {
            wav_chunks(b, next_chunk(body, size), fmt)
        }
    }
}

/// What [`decode_wav`] reads from a byte sequence, or the message it refuses it with.
pub open spec fn wav_decode(b: Seq<u8>) -> Result<AudioView, Seq<char>> {
    if b.len() < 12 || b.subrange(0, 4) != riff_tag() || b.subrange(8, 12) != wave_tag() {
        Err("RIFF/WAVEヘッダがありません"@)
    } else {
        wav_chunks(b, 12, None)
    }
}

fn tag_at(b: &[u8], i: usize, t0: u8, t1: u8, t2: u8, t3: u8) -> (r: bool)
    requires
        i + 4 <= b@.len(),
    ensures
        r == (b@.subrange(i as int, i + 4) == seq![t0, t1, t2, t3]),
{
    let r = b[i] == t0 && b[i + 1] == t1 && b[i + 2] == t2 && b[i + 3] == t3;
    if r {
        assert(b@.subrange(i as int, i + 4) =~= seq![t0, t1, t2, t3]);
    } else {
        assert(b@.subrange(i as int, i + 4)[0] != t0 || b@.subrange(i as int, i + 4)[1] != t1
            || b@.subrange(i as int, i + 4)[2] != t2 || b@.subrange(i as int, i + 4)[3] != t3);
    }
    r
}

/// Frame-count bound: a sample index of a frame below `len / (ch * bps)` stays inside
/// the data.
proof fn lemma_sample_in_data(len: int, ch: int, bps: int, f: int, c: int)
    requires
        ch >= 1,
        bps >= 1,
        0 <= f < len / (ch * bps),
        0 <= c < ch,
        len >= 0,
    ensures
        0 <= (f * ch + c) * bps,
        (f * ch + c) * bps + bps <= len,
{
    let n = len / (ch * bps);
    assert(ch * bps > 0) by (nonlinear_arith)
        requires
            ch >= 1,
            bps >= 1,
    ;
    lemma_fundamental_div_mod(len, ch * bps);
    assert(0 <= len % (ch * bps));
    assert(n * (ch * bps) <= len) by (nonlinear_arith)
        requires
            len == (ch * bps) * n + len % (ch * bps),
            0 <= len % (ch * bps),
    ;
    assert((f * ch + c) * bps + bps <= n * (ch * bps)) by (nonlinear_arith)
        requires
            0 <= f < n,
            0 <= c < ch,
            bps >= 1,
    ;
    assert(0 <= (f * ch + c) * bps) by (nonlinear_arith)
        requires
            ch >= 1,
            0 <= f,
            0 <= c,
            bps >= 1,
    ;
}

fn read_channel(bytes: &[u8], base: usize, end: usize, ch: usize, c: usize, bps: usize) -> (r: Vec<
    i32,
>)
    requires
        base <= end <= bytes@.len(),
        1 <= ch <= 65535,
        c < ch,
        bps == 2 || bps == 3 || bps == 4,
    ensures
        r@ == wav_samples(bytes@.subrange(base as int, end as int), ch as nat, bps as nat)[c as int],
{
    let ghost data = bytes@.subrange(base as int, end as int);
    assert(0 < ch * bps <= 65535 * 4) by (nonlinear_arith)
        requires
            1 <= ch <= 65535,
            1 <= bps <= 4,
    ;
    let frame = ch * bps;
    let n = (end - base) / frame;
    assert(data.len() == end - base);
    let mut col: Vec<i32> = Vec::new();
    let mut f: usize = 0;
    while f < n
        invariant
            base <= end <= bytes@.len(),
            1 <= ch <= 65535,
            c < ch,
            bps == 2 || bps == 3 || bps == 4,
            frame == ch * bps,
            data == bytes@.subrange(base as int, end as int),
            n == data.len() / ((ch * bps) as nat),
            f <= n,
            col@ == wav_samples(data, ch as nat, bps as nat)[c as int].take(f as int),
        decreases n - f,
    {
        proof {
            lemma_sample_in_data(data.len() as int, ch as int, bps as int, f as int, c as int);
        }
        let off = (f * ch + c) * bps;
        let s = read_sample(bytes, base + off, bps);
        assert(sample_from_le(bytes@, base + off, bps as nat) == sample_from_le(
            data,
            off as int,
            bps as nat,
        ));
        col.push(s);
        f += 1;
        assert(col@ =~= wav_samples(data, ch as nat, bps as nat)[c as int].take(f as int));
    }
    assert(col@ =~= wav_samples(data, ch as nat, bps as nat)[c as int]);
    col
}

fn read_channels(bytes: &[u8], base: usize, end: usize, ch: usize, bps: usize) -> (r: Vec<Vec<i32>>)
    requires
        base <= end <= bytes@.len(),
        1 <= ch <= 65535,
        bps == 2 || bps == 3 || bps == 4,
    ensures
        channels_view(r@) == wav_samples(
            bytes@.subrange(base as int, end as int),
            ch as nat,
            bps as nat,
        ),
{
    let ghost w = wav_samples(bytes@.subrange(base as int, end as int), ch as nat, bps as nat);
    assert(w.len() == ch as nat);
    let mut out: Vec<Vec<i32>> = Vec::new();
    let mut c: usize = 0;
    while c < ch
        invariant
            base <= end <= bytes@.len(),
            1 <= ch <= 65535,
            bps == 2 || bps == 3 || bps == 4,
            w == wav_samples(bytes@.subrange(base as int, end as int), ch as nat, bps as nat),
            c <= ch,
            w.len() == ch,
            out@.len() == c,
            channels_view(out@) == w.take(c as int),
        decreases ch - c,
    {
        let col = read_channel(bytes, base, end, ch, c, bps);
        let ghost prev = out@;
        out.push(col);
        assert forall|i: int| 0 <= i < c + 1 implies #[trigger] channels_view(out@)[i] == w.take(
            c + 1,
        )[i] by {
            if i < c {
                assert(channels_view(prev)[i] == w.take(c as int)[i]);
                assert(out@[i] == prev[i]);
            } else {
                assert(out@[i] == col);
                assert(w[i] == wav_channel(bytes@.subrange(base as int, end as int), ch as nat, bps as nat, i));
            }
        }
        c += 1;
        assert(channels_view(out@) =~= w.take(c as int));
    }
    assert(w.len() == ch);
    assert(w.take(ch as int) =~= w);
    out
}

/// Reads a RIFF/WAVE linear PCM file (16, 24 or 32 bits, plain or
/// `WAVE_FORMAT_EXTENSIBLE`), skipping chunks other than `fmt ` and `data`.
pub fn decode_wav(bytes: &[u8]) -> (r: Result<DecodedAudio, WavError>)
    ensures
        match wav_decode(bytes@) {
            Ok(a) => r matches Ok(d) && d@ == a,
            Err(m) => r matches Err(WavError::Format(s)) && s@ == m,
        },
{
    let len = bytes.len();
    if len < 12 || !tag_at(bytes, 0, 0x52, 0x49, 0x46, 0x46) || !tag_at(
        bytes,
        8,
        0x57,
        0x41,
        0x56,
        0x45,
    ) {
        return Err(WavError::Format(String::from_str("RIFF/WAVEヘッダがありません")));
    }
    let mut pos: usize = 12;
    let mut fmt: Option<(u16, u16, u32, u16)> = None;
    while pos <= len && len - pos >= 8
        invariant
            len == bytes@.len(),
            wav_decode(bytes@) == wav_chunks(bytes@, pos as int, fmt),
        decreases len - pos,
    {
        let size32 = u32_at(bytes, pos + 4);
        let size = size32 as usize;
        let body = pos + 8;
        if tag_at(bytes, pos, 0x66, 0x6d, 0x74, 0x20) {
            if size < 16 || size > len - body {
                return Err(WavError::Format(String::from_str("fmtチャンクが短すぎます")));
            }
            let mut tag = u16_at(bytes, body);
            if tag == 0xFFFE && size >= 26 {
                tag = u16_at(bytes, body + 24);
            }
            let fields = (tag, u16_at(bytes, body + 2), u32_at(bytes, body + 4), u16_at(bytes, body + 14));
            assert(fields == wav_fmt_fields(bytes@, body as int, size as int));
            if len - body - size < 8 + size % 2 {
                return Err(WavError::Format(String::from_str("dataチャンクがありません")));
            }
            fmt = Some(fields);
            pos = body + size + size % 2;
        } else if tag_at(bytes, pos, 0x64, 0x61, 0x74, 0x61) {
            let (tag, ch, rate, bits) = match fmt {
                Some(fields) => fields,
                None => {
                    return Err(WavError::Format(String::from_str("fmtがdataより後にあります")));
                },
            };
            if tag != 1 {
                let mut msg = text_then_number("リニアPCM以外は未対応です(形式", tag as u64);
                msg.append(")");
                return Err(WavError::Format(msg));
            }
            if !(bits == 16 || bits == 24 || bits == 32) || ch == 0 {
                let mut msg = text_then_number("未対応のビット深度/チャンネル数: ", bits as u64);
                msg.append("bit ");
                append_decimal(&mut msg, ch as u64);
                msg.append("ch");
                return Err(WavError::Format(msg));
            }
            let end = if size > len - body {
                len
            } else {
                body + size
            };
            let bps = (bits / 8) as usize;
            let samples = read_channels(bytes, body, end, ch as usize, bps);
            let d = DecodedAudio {
                sample_rate: rate,
                bits_per_sample: bits as u32,
                channels: ch as u32,
                samples_per_channel: samples,
            };
            assert(d@ == wav_chunks(bytes@, pos as int, fmt)->Ok_0);
            return Ok(d);
        } else {
            if size > len - body || len - body - size < 8 + size % 2 {
                return Err(WavError::Format(String::from_str("dataチャンクがありません")));
            }
            pos = body + size + size % 2;
        }
    }
    Err(WavError::Format(String::from_str("dataチャンクがありません")))
}


// ---------------------------------------------------------------------------
// DoP frames as 24-bit WAV
// ---------------------------------------------------------------------------

/// The 24-bit sample a DoP frame stands for: its three bytes, most significant first,
/// sign-extended.
pub open spec fn frame_sample(f: PcmFrame24) -> i32 {
    let v = ((f[0] as u32) << 16) | ((f[1] as u32) << 8) | (f[2] as u32);
    if v >= 0x80_0000 {
        (v - 0x100_0000) as i32
    } else {
        v as i32
    }
}

/// The DoP frame held by a 24-bit sample: its low three bytes, most significant first.
pub open spec fn sample_frame(s: i32) -> PcmFrame24 {
    [((s as u32) >> 16) as u8, ((s as u32) >> 8) as u8, (s as u32) as u8]
}

/// The frames of a list of channels.
pub open spec fn frame_channels_view(s: Seq<Vec<PcmFrame24>>) -> Seq<Seq<PcmFrame24>> {
    Seq::new(s.len(), |i: int| s[i]@)
}

/// One channel of DoP frames as samples.
pub open spec fn frames_as_samples(fc: Seq<PcmFrame24>) -> Seq<i32> {
    Seq::new(fc.len(), |f: int| frame_sample(fc[f]))
}

/// Channels of DoP frames as samples.
pub open spec fn dop_channel_samples(fc: Seq<Seq<PcmFrame24>>) -> Seq<Seq<i32>> {
    Seq::new(fc.len(), |c: int| frames_as_samples(fc[c]))
}

/// One channel of samples as DoP frames.
pub open spec fn samples_as_frames(x: Seq<i32>) -> Seq<PcmFrame24> {
    Seq::new(x.len(), |f: int| sample_frame(x[f]))
}

/// Channels of samples as DoP frames.
pub open spec fn channel_frames(x: Seq<Seq<i32>>) -> Seq<Seq<PcmFrame24>> {
    Seq::new(x.len(), |c: int| samples_as_frames(x[c]))
}

/// Converts one DoP frame into its 24-bit sample.
pub fn dop_frame_to_sample(f: &PcmFrame24) -> (r: i32)
    ensures
        r == frame_sample(*f),
{
    let v: u32 = ((f[0] as u32) << 16) | ((f[1] as u32) << 8) | (f[2] as u32);
    let x0 = f[0];
    let x1 = f[1];
    let x2 = f[2];
    assert(v < 0x100_0000) by (bit_vector)
        requires
            v == ((x0 as u32) << 16) | ((x1 as u32) << 8) | (x2 as u32),
    ;
    if v >= 0x80_0000 {
        (v as i32) - 0x100_0000
    } else {
        v as i32
    }
}

/// Converts a 24-bit sample into the DoP frame it holds.
pub fn sample_to_dop_frame(s: i32) -> (r: PcmFrame24)
    ensures
        r == sample_frame(s),
{
    let u = s as u32;
    [(u >> 16) as u8, (u >> 8) as u8, u as u8]
}

/// A frame read as a sample and written back is the same frame, and the sample fits
/// 24 bits.
pub proof fn lemma_frame_sample_round_trip(f: PcmFrame24)
    ensures
        sample_fits(frame_sample(f), 3),
        sample_frame(frame_sample(f)) == f,
{
    let x0 = f[0];
    let x1 = f[1];
    let x2 = f[2];
    let v = ((x0 as u32) << 16) | ((x1 as u32) << 8) | (x2 as u32);
    let s = frame_sample(f);
    assert(v < 0x100_0000) by (bit_vector)
        requires
            v == ((x0 as u32) << 16) | ((x1 as u32) << 8) | (x2 as u32),
    ;
    if v >= 0x80_0000 {
        assert(s == (v - 0x100_0000) as i32);
        assert(((((v - 0x100_0000) as i32) as u32) >> 16) as u8 == x0 && ((((v - 0x100_0000)
            as i32) as u32) >> 8) as u8 == x1 && (((v - 0x100_0000) as i32) as u32) as u8 == x2)
            by (bit_vector)
            requires
                v == ((x0 as u32) << 16) | ((x1 as u32) << 8) | (x2 as u32),
                v >= 0x80_0000,
                v < 0x100_0000,
        ;
    } else {
        assert(s == v as i32);
        assert((((v as i32) as u32) >> 16) as u8 == x0 && (((v as i32) as u32) >> 8) as u8 == x1
            && ((v as i32) as u32) as u8 == x2) by (bit_vector)
            requires
                v == ((x0 as u32) << 16) | ((x1 as u32) << 8) | (x2 as u32),
                v < 0x80_0000,
        ;
    }
    assert(sample_frame(s) =~= f);
}

pub(crate) fn frames_to_samples(channels: &[Vec<PcmFrame24>]) -> (r: Vec<Vec<i32>>)
    ensures
        channels_view(r@) == dop_channel_samples(frame_channels_view(channels@)),
{
    let ghost fc = frame_channels_view(channels@);
    let mut out: Vec<Vec<i32>> = Vec::new();
    let mut c: usize = 0;
    while c < channels.len()
        invariant
            fc == frame_channels_view(channels@),
            c <= channels@.len(),
            out@.len() == c,
            forall|i: int| 0 <= i < c ==> #[trigger] out@[i]@ == frames_as_samples(fc[i]),
        decreases channels@.len() - c,
    {
        let ch = &channels[c];
        let mut col: Vec<i32> = Vec::new();
        let mut f: usize = 0;
        while f < ch.len()
            invariant
                fc == frame_channels_view(channels@),
                c < channels@.len(),
                *ch == channels@[c as int],
                f <= ch@.len(),
                col@ == frames_as_samples(fc[c as int]).take(f as int),
            decreases ch@.len() - f,
        {
            let s = dop_frame_to_sample(&ch[f]);
            col.push(s);
            f += 1;
            assert(col@ =~= frames_as_samples(fc[c as int]).take(f as int));
        }
        assert(col@ =~= frames_as_samples(fc[c as int]));
        out.push(col);
        c += 1;
    }
    assert(channels_view(out@) =~= dop_channel_samples(fc));
    out
}

fn samples_to_frames(samples: &Vec<Vec<i32>>) -> (r: Vec<Vec<PcmFrame24>>)
    ensures
        frame_channels_view(r@) == channel_frames(channels_view(samples@)),
{
    let ghost x = channels_view(samples@);
    let mut out: Vec<Vec<PcmFrame24>> = Vec::new();
    let mut c: usize = 0;
    while c < samples.len()
        invariant
            x == channels_view(samples@),
            c <= samples@.len(),
            out@.len() == c,
            forall|i: int| 0 <= i < c ==> #[trigger] out@[i]@ == samples_as_frames(x[i]),
        decreases samples@.len() - c,
    {
        let ch = &samples[c];
        let mut col: Vec<PcmFrame24> = Vec::new();
        let mut f: usize = 0;
        while f < ch.len()
            invariant
                x == channels_view(samples@),
                c < samples@.len(),
                *ch == samples@[c as int],
                f <= ch@.len(),
                col@ == samples_as_frames(x[c as int]).take(f as int),
            decreases ch@.len() - f,
        {
            let fr = sample_to_dop_frame(ch[f]);
            col.push(fr);
            f += 1;
            assert(col@ =~= samples_as_frames(x[c as int]).take(f as int));
        }
        assert(col@ =~= samples_as_frames(x[c as int]));
        out.push(col);
        c += 1;
    }
    assert(frame_channels_view(out@) =~= channel_frames(x));
    out
}

/// Writes DoP frames (24 bits: marker, DSD high byte, DSD low byte) as a 24-bit WAV at
/// the DoP PCM rate (DSD rate / 16). A DoP-capable DAC switches to DSD playback on the
/// marker sequence; playback must be bit-perfect (volume, resampling or mixing turn the
/// DSD into noise).
pub fn encode_dop_wav(channels: &[Vec<PcmFrame24>], sample_rate: u32) -> (r: Result<
    Vec<u8>,
    WavError,
>)
    requires
        wav_encode_accepts(dop_channel_samples(frame_channels_view(channels@)), 24)
            ==> wav_encode_fits(dop_channel_samples(frame_channels_view(channels@)), sample_rate, 24),
    ensures
        wav_encode_outcome(dop_channel_samples(frame_channels_view(channels@)), sample_rate, 24, r),
{
    let samples = frames_to_samples(channels);
    encode_wav(samples.as_slice(), sample_rate, 24)
}

/// Inverse of [`encode_dop_wav`]: reads the DoP frames (one sequence per channel) of a
/// 24-bit WAV. Any other bit depth is a format error.
pub fn decode_dop_wav(bytes: &[u8]) -> (r: Result<Vec<Vec<PcmFrame24>>, WavError>)
    ensures
        match wav_decode(bytes@) {
            Err(m) => r matches Err(WavError::Format(s)) && s@ == m,
            Ok(a) => if a.bits_per_sample != 24 {
                r matches Err(WavError::Format(s)) && s@ == "DoPは24bit WAVが必要です"@
            } else {
                r matches Ok(v) && frame_channels_view(v@) == channel_frames(a.samples)
            },
        },
{
    let d = decode_wav(bytes)?;
    if d.bits_per_sample != 24 {
        return Err(WavError::Format(String::from_str("DoPは24bit WAVが必要です")));
    }
    Ok(samples_to_frames(&d.samples_per_channel))
}


// ---------------------------------------------------------------------------
// Reading back what was written
// ---------------------------------------------------------------------------

/// Every sample of every channel fits a container of `bps` bytes.
pub open spec fn samples_fit(x: Seq<Seq<i32>>, bps: nat) -> bool {
    forall|c: int, f: int|
        0 <= c < x.len() && 0 <= f < x[c].len() ==> sample_fits(#[trigger] x[c][f], bps)
}

proof fn lemma_u16_window(b: Seq<u8>, i: int, s: Seq<u8>)
    requires
        0 <= i,
        i + 2 <= b.len(),
        b.subrange(i, i + 2) == s,
    ensures
        u16_from(b, i) == u16_from(s, 0),
{
    assert(b[i] == s[0]);
    assert(b[i + 1] == s[1]);
}

proof fn lemma_u32_window(b: Seq<u8>, i: int, s: Seq<u8>)
    requires
        0 <= i,
        i + 4 <= b.len(),
        b.subrange(i, i + 4) == s,
    ensures
        u32_from(b, i) == u32_from(s, 0),
{
    assert(b[i] == s[0]);
    assert(b[i + 1] == s[1]);
    assert(b[i + 2] == s[2]);
    assert(b[i + 3] == s[3]);
}

proof fn lemma_sample_window(b: Seq<u8>, i: int, bps: nat)
    requires
        0 <= i,
        i + bps <= b.len(),
        2 <= bps <= 4,
    ensures
        sample_from_le(b, i, bps) == sample_from_le(b.subrange(i, i + bps as int), 0, bps),
{
    let w = b.subrange(i, i + bps as int);
    assert(w[0] == b[i]);
    assert(w[1] == b[i + 1]);
    if bps >= 3 {
        assert(w[2] == b[i + 2]);
    }
    if bps == 4 {
        assert(w[3] == b[i + 3]);
    }
}

/// The sample data of fitting samples reads back as the same channels.
proof fn lemma_wav_samples_of_data(x: Seq<Seq<i32>>, bps: nat)
    requires
        x.len() >= 1,
        forall|i: int| 0 <= i < x.len() ==> #[trigger] x[i].len() == x[0].len(),
        2 <= bps <= 4,
        samples_fit(x, bps),
    ensures
        wav_samples(wav_data(x, bps), x.len(), bps) == x,
{
    let d = wav_data(x, bps);
    let ch = x.len();
    let n = x[0].len();
    assert(n * ch * bps == n * (ch * bps)) by (nonlinear_arith);
    assert(ch * bps > 0) by (nonlinear_arith)
        requires
            ch >= 1,
            bps >= 2,
    ;
    lemma_fundamental_div_mod_converse(d.len() as int, (ch * bps) as int, n as int, 0);
    assert(d.len() / (ch * bps) == n);
    assert forall|c: int| 0 <= c < ch implies #[trigger] wav_samples(d, ch, bps)[c] == x[c] by {
        assert forall|f: int| 0 <= f < n implies #[trigger] wav_channel(d, ch, bps, c)[f]
            == x[c][f] by {
            lemma_wav_data_sample(x, bps, f, c);
            let i = (f * ch + c) * bps;
            lemma_sample_window(d, i, bps);
            assert(x[c].len() == n);
            lemma_sample_round_trip(x[c][f], bps);
        }
        assert(wav_channel(d, ch, bps, c) =~= x[c]);
    }
    assert(wav_samples(d, ch, bps) =~= x);
}

/// Where the fields of a written header stand.
proof fn lemma_wav_header_reads(ch: nat, rate: u32, bits: u8, dl: nat, rest: Seq<u8>)
    requires
        1 <= ch <= 65535,
        bits == 16 || bits == 24 || bits == 32,
        dl < 0x1_0000_0000,
    ensures
        ({
            let h = wav_header(ch, rate, bits, dl);
            let b = h + rest;
            let fl = wav_fmt_len(ch, bits) as int;
            &&& h.len() == 28 + fl
            &&& b.subrange(0, 4) == riff_tag()
            &&& b.subrange(8, 12) == wave_tag()
            &&& b.subrange(12, 16) == fmt_tag()
            &&& u32_from(b, 16) == fl
            &&& wav_fmt_fields(b, 20, fl) == (1u16, ch as u16, rate, bits as u16)
            &&& b.subrange(20 + fl, 24 + fl) == data_tag()
            &&& u32_from(b, 24 + fl) == dl
        }),
{
    let fl = wav_fmt_len(ch, bits) as int;
    let riff_len = (4 + 8 + fl + 8 + dl + dl % 2) as u32;
    let p1 = riff_tag() + le32(riff_len) + wave_tag();
    let body = wav_fmt_body(ch, rate, bits);
    let fmtc = fmt_tag() + le32(fl as u32) + body;
    let p3 = data_tag() + le32(dl as u32);
    let h = wav_header(ch, rate, bits, dl);
    let b = h + rest;
    assert(h == p1 + fmtc + p3);
    assert(body.len() == fl);
    assert(b.subrange(0, 12) =~= p1);
    assert(b.subrange(12, 20 + fl) =~= fmtc);
    assert(b.subrange(20 + fl, 28 + fl) =~= p3);
    assert(b.subrange(0, 4) =~= riff_tag());
    assert(b.subrange(8, 12) =~= wave_tag());
    assert(b.subrange(12, 16) =~= fmt_tag());
    assert(b.subrange(16, 20) =~= le32(fl as u32));
    lemma_u32_window(b, 16, le32(fl as u32));
    lemma_le32_round_trip(fl as u32);
    assert(b.subrange(20, 20 + fl) =~= body);
    let bps = (bits / 8) as nat;
    assert(b.subrange(20, 22) =~= le16(wav_format_tag(ch, bits)));
    lemma_u16_window(b, 20, le16(wav_format_tag(ch, bits)));
    lemma_le16_round_trip(wav_format_tag(ch, bits));
    assert(b.subrange(22, 24) =~= le16(ch as u16));
    lemma_u16_window(b, 22, le16(ch as u16));
    lemma_le16_round_trip(ch as u16);
    assert(b.subrange(24, 28) =~= le32(rate));
    lemma_u32_window(b, 24, le32(rate));
    lemma_le32_round_trip(rate);
    assert(b.subrange(34, 36) =~= le16(bits as u16));
    lemma_u16_window(b, 34, le16(bits as u16));
    lemma_le16_round_trip(bits as u16);
    if wav_extensible(ch, bits) {
        assert(b.subrange(44, 46) =~= seq![1u8, 0u8]);
        lemma_u16_window(b, 44, seq![1u8, 0u8]);
        assert(((1u8 as u16) | ((0u8 as u16) << 8)) == 1u16) by (bit_vector);
    }
    assert(b.subrange(20 + fl, 24 + fl) =~= data_tag());
    assert(b.subrange(24 + fl, 28 + fl) =~= le32(dl as u32));
    lemma_u32_window(b, 24 + fl, le32(dl as u32));
    lemma_le32_round_trip(dl as u32);
}

proof fn lemma_fmt_chunk_step(b: Seq<u8>, fl: int, fields: (u16, u16, u32, u16))
    requires
        fl == 16 || fl == 40,
        b.len() >= 28 + fl,
        b.subrange(12, 16) == fmt_tag(),
        u32_from(b, 16) == fl,
        wav_fmt_fields(b, 20, fl) == fields,
    ensures
        wav_chunks(b, 12, None) == wav_chunks(b, 20 + fl, Some(fields)),
{
    assert(fmt_tag() != data_tag()) by {
        assert(fmt_tag()[0] != data_tag()[0]);
    }
}

proof fn lemma_data_chunk_step(b: Seq<u8>, pos: int, dl: nat, a: AudioView)
    requires
        pos >= 0,
        b.len() >= pos + 8 + dl,
        b.subrange(pos, pos + 4) == data_tag(),
        u32_from(b, pos + 4) == dl,
        a.bits_per_sample == 16 || a.bits_per_sample == 24 || a.bits_per_sample == 32,
        1 <= a.channels <= 65535,
        a.samples == wav_samples(
            b.subrange(pos + 8, pos + 8 + dl),
            a.channels as nat,
            (a.bits_per_sample / 8) as nat,
        ),
    ensures
        wav_chunks(
            b,
            pos,
            Some((1u16, a.channels as u16, a.sample_rate, a.bits_per_sample as u16)),
        ) == Ok::<AudioView, Seq<char>>(a),
{
    assert(data_tag() != fmt_tag()) by {
        assert(fmt_tag()[0] != data_tag()[0]);
    }
}

/// Reading a written WAV file gives back what was written: the sample rate, the bit
/// depth, the channel count and every sample of every channel, provided each sample
/// fits the bit depth and the sample data fits the 32-bit length field.
pub proof fn lemma_wav_round_trip(x: Seq<Seq<i32>>, rate: u32, bits: u8)
    requires
        wav_encode_accepts(x, bits),
        samples_fit(x, (bits / 8) as nat),
        x[0].len() * x.len() * (bits / 8) < 0x1_0000_0000,
    ensures
        wav_decode(wav_file(x, rate, bits)) == Ok::<AudioView, Seq<char>>(
            AudioView {
                sample_rate: rate,
                bits_per_sample: bits as u32,
                channels: x.len() as u32,
                samples: x,
            },
        ),
        wav_file(x, rate, bits).len() >= 4,
        wav_file(x, rate, bits).subrange(0, 4) == riff_tag(),
{
    let ch = x.len();
    let bps = (bits / 8) as nat;
    let d = wav_data(x, bps);
    let dl = d.len();
    let pad = if dl % 2 == 1 {
        seq![0u8]
    } else {
        Seq::<u8>::empty()
    };
    let h = wav_header(ch, rate, bits, dl);
    let b = wav_file(x, rate, bits);
    assert(b =~= h + (d + pad));
    lemma_wav_header_reads(ch, rate, bits, dl, d + pad);
    let fl = wav_fmt_len(ch, bits) as int;
    let a = AudioView {
        sample_rate: rate,
        bits_per_sample: bits as u32,
        channels: x.len() as u32,
        samples: x,
    };
    let fields = (1u16, a.channels as u16, rate, a.bits_per_sample as u16);
    lemma_fmt_chunk_step(b, fl, fields);
    assert(b.subrange(28 + fl, 28 + fl + dl) =~= d);
    lemma_wav_samples_of_data(x, bps);
    lemma_data_chunk_step(b, 20 + fl, dl, a);
}

/// DoP frames written as 24-bit WAV read back as the same frames, markers included,
/// provided the sample data fits the 32-bit length field.
pub proof fn lemma_dop_wav_round_trip(fc: Seq<Seq<PcmFrame24>>, rate: u32)
    requires
        wav_encode_accepts(dop_channel_samples(fc), 24),
        fc[0].len() * fc.len() * 3 < 0x1_0000_0000,
    ensures
        wav_decode(wav_file(dop_channel_samples(fc), rate, 24)) matches Ok(a) && a.bits_per_sample
            == 24 && channel_frames(a.samples) == fc,
        wav_file(dop_channel_samples(fc), rate, 24).len() >= 4,
        wav_file(dop_channel_samples(fc), rate, 24).subrange(0, 4) == riff_tag(),
{
    let x = dop_channel_samples(fc);
    assert forall|c: int, f: int| 0 <= c < x.len() && 0 <= f < x[c].len() implies sample_fits(
        #[trigger] x[c][f],
        3,
    ) by {
        lemma_frame_sample_round_trip(fc[c][f]);
    }
    assert(x[0].len() == fc[0].len());
    lemma_wav_round_trip(x, rate, 24);
    assert forall|c: int| 0 <= c < fc.len() implies #[trigger] channel_frames(x)[c] == fc[c] by {
        assert forall|f: int| 0 <= f < fc[c].len() implies #[trigger] samples_as_frames(x[c])[f]
            == fc[c][f] by {
            lemma_frame_sample_round_trip(fc[c][f]);
        }
        assert(samples_as_frames(x[c]) =~= fc[c]);
    }
    assert(channel_frames(x) =~= fc);
}

/// A chunk other than `fmt ` and `data`: its id, its size (little-endian), its body,
/// and a zero pad byte when the size is odd.
pub open spec fn other_chunk(id: Seq<u8>, body: Seq<u8>) -> Seq<u8> {
    id + le32(body.len() as u32) + body + if body.len() % 2 == 1 {
        seq![0u8]
    } else {
        Seq::<u8>::empty()
    }
}

/// A file with a chunk put right after its 12-byte RIFF/WAVE header.
pub open spec fn with_chunk_after_header(b: Seq<u8>, chunk: Seq<u8>) -> Seq<u8> {
    b.take(12) + chunk + b.skip(12)
}

/// Walking the chunks of a file shifted by `k` bytes after its header gives what walking
/// the original gives.
proof fn lemma_wav_chunks_shift(
    b: Seq<u8>,
    b2: Seq<u8>,
    k: int,
    p: int,
    fmt: Option<(u16, u16, u32, u16)>,
)
    requires
        k >= 0,
        p >= 12,
        b2.len() == b.len() + k,
        forall|i: int| 12 <= i < b.len() ==> b2[i + k] == #[trigger] b[i],
    ensures
        wav_chunks(b2, p + k, fmt) == wav_chunks(b, p, fmt),
    decreases b.len() - p,
{
    if p + 8 > b.len() {
    } else {
        let size = u32_from(b, p + 4) as int;
        let body = p + 8;
        assert(b2[p + k + 4] == b[p + 4]);
        assert(b2[p + k + 5] == b[p + 5]);
        assert(b2[p + k + 6] == b[p + 6]);
        assert(b2[p + k + 7] == b[p + 7]);
        assert(u32_from(b2, p + k + 4) == u32_from(b, p + 4));
        assert(b2.subrange(p + k, p + k + 4) =~= b.subrange(p, p + 4)) by {
            assert(b2[p + k] == b[p]);
            assert(b2[p + k + 1] == b[p + 1]);
            assert(b2[p + k + 2] == b[p + 2]);
            assert(b2[p + k + 3] == b[p + 3]);
        }
        assert(next_chunk(body + k, size) == next_chunk(body, size) + k);
        let id = b.subrange(p, p + 4);
        if id == fmt_tag() {
            if size < 16 || body + size > b.len() {
            } else {
                assert forall|t: int| 0 <= t < size implies b2[body + k + t] == #[trigger] b[body
                    + t] by {
                    assert(b2[(body + t) + k] == b[body + t]);
                }
                assert(b2[body + k] == b[body + 0]);
                assert(b2[body + k + 1] == b[body + 1]);
                assert(b2[body + k + 2] == b[body + 2]);
                assert(b2[body + k + 3] == b[body + 3]);
                assert(b2[body + k + 4] == b[body + 4]);
                assert(b2[body + k + 5] == b[body + 5]);
                assert(b2[body + k + 6] == b[body + 6]);
                assert(b2[body + k + 7] == b[body + 7]);
                assert(b2[body + k + 14] == b[body + 14]);
                assert(b2[body + k + 15] == b[body + 15]);
                if size >= 26 {
                    assert(b2[body + k + 24] == b[body + 24]);
                    assert(b2[body + k + 25] == b[body + 25]);
                }
                assert(wav_fmt_fields(b2, body + k, size) == wav_fmt_fields(b, body, size));
                if next_chunk(body, size) + 8 > b.len() {
                } else {
                    lemma_wav_chunks_shift(
                        b,
                        b2,
                        k,
                        next_chunk(body, size),
                        Some(wav_fmt_fields(b, body, size)),
                    );
                }
            }
        } else if id == data_tag() {
            let end = if body + size > b.len() {
                b.len() as int
            } else {
                body + size
            };
            assert(b2.subrange(body + k, end + k) =~= b.subrange(body, end)) by {
                assert forall|t: int| 0 <= t < end - body implies b2.subrange(body + k, end + k)[t]
                    == b.subrange(body, end)[t] by {
                    assert(b2[(body + t) + k] == b[body + t]);
                }
            }
        } else if body + size > b.len() || next_chunk(body, size) + 8 > b.len() {
        } else {
            lemma_wav_chunks_shift(b, b2, k, next_chunk(body, size), fmt);
        }
    }
}

/// Chunks other than `fmt ` and `data` are skipped: putting such a chunk (of any body,
/// odd or even in length, padded to even length) right after the RIFF/WAVE header
/// changes nothing that decoding gives, neither the audio nor the error.
pub proof fn lemma_wav_skips_other_chunks(b: Seq<u8>, id: Seq<u8>, body: Seq<u8>)
    requires
        b.len() >= 12,
        id.len() == 4,
        id != fmt_tag(),
        id != data_tag(),
        body.len() < 0x1_0000_0000,
    ensures
        wav_decode(with_chunk_after_header(b, other_chunk(id, body))) == wav_decode(b),
{
    let c = other_chunk(id, body);
    let n = body.len() as int;
    let k = c.len() as int;
    let b2 = with_chunk_after_header(b, c);
    assert(k == 8 + n + n % 2);
    assert(b2.len() == b.len() + k);
    assert(b2.subrange(0, 4) =~= b.subrange(0, 4));
    assert(b2.subrange(8, 12) =~= b.subrange(8, 12));
    assert forall|i: int| 12 <= i < b.len() implies b2[i + k] == #[trigger] b[i] by {
        assert(b2[i + k] == b.skip(12)[i - 12]);
    }
    assert(b2.subrange(12, 16) =~= id);
    assert(b2.subrange(16, 20) =~= le32(n as u32));
    lemma_u32_window(b2, 16, le32(n as u32));
    lemma_le32_round_trip(n as u32);
    assert(u32_from(b2, 16) == n);
    assert(next_chunk(20, n) == 12 + k);
    if b.len() >= 20 {
        lemma_wav_chunks_shift(b, b2, k, 12, None);
    }
}

} // verus!
