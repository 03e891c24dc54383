//! The integer side of Ogg Opus (RFC 6716 / 7845) encoding: which inputs Opus takes
//! and how a clip is cut into packets.
//!
//! Opus is lossy and takes only 8/12/16/24/48 kHz with one or two channels, so it is
//! no high-resolution format, and DoP (DSD) cannot travel in it. Its samples are
//! floating point; the encoding and decoding themselves stand outside this library.

use vstd::prelude::*;
use vstd::string::*;
use crate::wav::channels_view;
use crate::text::{decimal, number_then_text};

verus! {

#[derive(Debug)]
pub enum OpusError {
    /// The Opus codec reported an error (its message).
    Codec(String),
    /// The input is outside what Opus takes.
    Unsupported(String),
}

/// The sample rates Opus takes.
pub open spec fn opus_rate_supported(rate: u32) -> bool {
    rate == 8000 || rate == 12000 || rate == 16000 || rate == 24000 || rate == 48000
}

/// Inputs that Opus encodes: one or two channels of equal length at a supported rate.
pub open spec fn opus_input_accepts(x: Seq<Seq<i32>>, rate: u32) -> bool {
    &&& 1 <= x.len() <= 2
    &&& opus_rate_supported(rate)
    &&& forall|i: int| 0 <= i < x.len() ==> #[trigger] x[i].len() == x[0].len()
}

/// The message an input that Opus does not take is refused with: the channel count
/// first, then the rate, then unequal lengths.
pub open spec fn opus_input_error(x: Seq<Seq<i32>>, rate: u32) -> Seq<char> {
    if !(1 <= x.len() <= 2) {
        decimal(x.len()) + "chは非対応(1〜2ch)"@
    } else if !opus_rate_supported(rate) {
        decimal(rate as nat) + "Hzは非対応(8/12/16/24/48kHzのみ。先にリサンプルしてください)"@
    } else {
        "チャンネル間でサンプル数が違います"@
    }
}

/// Checks that PCM samples (one sequence per channel) can be encoded as Opus: one or
/// two channels, 8/12/16/24/48 kHz, and channels of equal length.
pub fn check_opus_input(samples_per_channel: &[Vec<i32>], sample_rate: u32) -> (r: Result<
    (),
    OpusError,
>)
    ensures
        r is Ok <==> opus_input_accepts(channels_view(samples_per_channel@), sample_rate),
        r matches Err(e) ==> e matches OpusError::Unsupported(s) && s@ == opus_input_error(
            channels_view(samples_per_channel@),
            sample_rate,
        ),
{
    let ghost x = channels_view(samples_per_channel@);
    let channels = samples_per_channel.len();
    if !(1 <= channels && channels <= 2) {
        let msg = number_then_text(channels as u64, "chは非対応(1〜2ch)");
        return Err(OpusError::Unsupported(msg));
    }
    if !(sample_rate == 8000 || sample_rate == 12000 || sample_rate == 16000 || sample_rate
        == 24000 || sample_rate == 48000) {
        let msg = number_then_text(
            sample_rate as u64,
            "Hzは非対応(8/12/16/24/48kHzのみ。先にリサンプルしてください)",
        );
        return Err(OpusError::Unsupported(msg));
    }
    let total = samples_per_channel[0].len();
    let mut i: usize = 0;
    while i < channels
        invariant
            channels == samples_per_channel@.len(),
            x == channels_view(samples_per_channel@),
            1 <= channels <= 2,
            opus_rate_supported(sample_rate),
            total == x[0].len(),
            i <= channels,
            forall|j: int| 0 <= j < i ==> #[trigger] x[j].len() == total,
        decreases channels - i,
    {
        if samples_per_channel[i].len() != total {
            assert(x[i as int].len() != x[0].len());
            return Err(OpusError::Unsupported(String::from_str("チャンネル間でサンプル数が違います")));
        }
        i += 1;
    }
    Ok(())
}

/// How a clip is cut into Opus packets.
pub struct OpusPacketLayout {
    /// Samples per channel in one 20 ms packet at the input rate.
    pub frame_samples: usize,
    /// Packets to write: enough to carry the clip after the pre-skip.
    pub packets: usize,
    /// Granule position (48 kHz samples) of the last packet: pre-skip plus the clip.
    pub final_granule: u64,
}

/// `a / b` rounded up, for `a >= 0`, `b > 0`.
pub open spec fn ceil_div(a: int, b: int) -> int {
    (a + b - 1) / b
}

fn div_ceil_usize(a: usize, b: usize) -> (r: usize)
    requires
        b > 0,
    ensures
        r == ceil_div(a as int, b as int),
{
    let q = a / b;
    proof {
        vstd::arithmetic::div_mod::lemma_fundamental_div_mod(a as int, b as int);
        assert(b * q == q * b) by (nonlinear_arith);
        assert((q + 1) * b == q * b + b) by (nonlinear_arith);
        if a % b != 0 {
            assert(q < a) by (nonlinear_arith)
                requires
                    a == q * b + a % b,
                    a % b > 0,
                    b > a % b,
                    q >= 0,
            ;
        }
    }
    let r = if a % b != 0 {
        q + 1
    } else {
        q
    };
    proof {
        if a % b != 0 {
            vstd::arithmetic::div_mod::lemma_fundamental_div_mod_converse(
                a + b - 1,
                b as int,
                q + 1,
                (a % b - 1) as int,
            );
        } else {
            vstd::arithmetic::div_mod::lemma_fundamental_div_mod_converse(
                a + b - 1,
                b as int,
                q as int,
                b - 1,
            );
        }
    }
    r
}

/// The packet layout of a clip of `total` samples per channel at `sample_rate`, with
/// the encoder's pre-skip (in 48 kHz samples): 20 ms packets of `rate / 50` samples;
/// enough packets for the clip plus the pre-skip (in input samples, rounded up); and a
/// final granule position of the pre-skip plus the clip in 48 kHz samples.
pub fn opus_packet_layout(total: usize, sample_rate: u32, pre_skip: u16) -> (r: OpusPacketLayout)
    requires
        opus_rate_supported(sample_rate),
        total * (48_000int / (sample_rate as int)) + pre_skip <= usize::MAX,
    ensures
        r.frame_samples == sample_rate / 50,
        r.packets == ceil_div(
            total + ceil_div(pre_skip as int, 48_000int / (sample_rate as int)),
            (sample_rate / 50) as int,
        ),
        r.final_granule == pre_skip + total * (48_000int / (sample_rate as int)),
{
    let frame = (sample_rate / 50) as usize;
    let ticks = (48_000 / sample_rate) as usize;
    assert(1 <= ticks <= 6 && ticks == 48_000int / (sample_rate as int)) by {
        if sample_rate == 8000 {
            assert(48_000u32 / 8000u32 == 6);
        } else if sample_rate == 12000 {
            assert(48_000u32 / 12000u32 == 4);
        } else if sample_rate == 16000 {
            assert(48_000u32 / 16000u32 == 3);
        } else if sample_rate == 24000 {
            assert(48_000u32 / 24000u32 == 2);
        } else {
            assert(48_000u32 / 48000u32 == 1);
        }
    }
    assert(frame >= 160) by {
        assert(sample_rate / 50 >= 160);
    }
    assert(total <= total * ticks) by (nonlinear_arith)
        requires
            ticks >= 1,
    ;
    let skip_samples = div_ceil_usize(pre_skip as usize, ticks);
    assert(skip_samples <= pre_skip) by {
        vstd::arithmetic::div_mod::lemma_fundamental_div_mod((pre_skip + ticks - 1) as int, ticks as int);
        assert(skip_samples * ticks <= pre_skip + ticks - 1) by (nonlinear_arith)
            requires
                skip_samples == (pre_skip + ticks - 1) as int / (ticks as int),
                (pre_skip + ticks - 1) as int == (ticks as int) * ((pre_skip + ticks - 1) as int / (
                ticks as int)) + (pre_skip + ticks - 1) as int % (ticks as int),
                0 <= (pre_skip + ticks - 1) as int % (ticks as int),
        ;
        assert(skip_samples <= pre_skip) by (nonlinear_arith)
            requires
                skip_samples * ticks <= pre_skip + ticks - 1,
                ticks >= 1,
                skip_samples >= 0,
        ;
    }
    let packets = div_ceil_usize(total + skip_samples, frame);
    let final_granule = pre_skip as u64 + (total * ticks) as u64;
    OpusPacketLayout { frame_samples: frame, packets, final_granule }
}

} // verus!
