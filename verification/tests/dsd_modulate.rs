use open_mqa::dop::{pack_dop_frames, unpack_dop_frames, DopConfig};
use open_mqa::dsd_modulate::{pack_dsd_bits, unpack_dsd_bits};
use std::f32::consts::PI;

/// First-order delta-sigma: one bit per input sample.
fn modulate(pcm: &[f32]) -> Vec<u8> {
    let mut integrator = 0.0f32;
    let bits: Vec<bool> = pcm
        .iter()
        .map(|&sample| {
            let bit = integrator >= 0.0;
            integrator += sample - if bit { 1.0 } else { -1.0 };
            bit
        })
        .collect();
    pack_dsd_bits(&bits)
}

fn sine_wave(freq_hz: f32, sample_rate_hz: f32, num_samples: usize) -> Vec<f32> {
    (0..num_samples).map(|i| 0.8 * (2.0 * PI * freq_hz * (i as f32 / sample_rate_hz)).sin()).collect()
}

#[test]
fn modulator_output_is_not_constant_for_varying_input() {
    let bytes = modulate(&sine_wave(1000.0, 48_000.0, 256));
    assert_eq!(bytes.len(), 32); // 256 samples / 8 = 32 bytes
    assert!(bytes.iter().any(|&b| b != 0x00));
    assert!(bytes.iter().any(|&b| b != 0xFF));
}

#[test]
fn real_dsd_bitstream_round_trips_through_dop_packing() {
    let sample_rate = DopConfig::dsd256_24bit().format.dsd_bitrate_hz as f32;
    let dsd_bytes = modulate(&sine_wave(1_000.0, sample_rate, 8 * 4096));
    assert_eq!(dsd_bytes.len(), 4096);

    let config = DopConfig::dsd256_24bit();
    let frames = pack_dop_frames(&dsd_bytes, &config).expect("pack failed");
    assert_eq!(frames.len(), dsd_bytes.len() / 2);

    let recovered = unpack_dop_frames(&frames).expect("unpack failed");
    assert_eq!(recovered, dsd_bytes, "DoP往復後、実DSDビットストリームが完全一致しない");
}

#[test]
fn demodulated_signal_correlates_with_original_pcm() {
    let pcm = sine_wave(1_000.0, 2_822_400.0, 8 * 4096);
    let dsd_bytes = modulate(&pcm);
    let window = 32;
    let levels: Vec<f32> = unpack_dsd_bits(&dsd_bytes).iter().map(|&b| if b { 1.0 } else { -1.0 }).collect();
    let demodulated: Vec<f32> = levels.chunks_exact(window).map(|w| w.iter().sum::<f32>() / window as f32).collect();
    assert!(!demodulated.is_empty());
    let reference: Vec<f32> = pcm.chunks(window).map(|w| w.iter().sum::<f32>() / w.len() as f32).collect();
    let n = demodulated.len().min(reference.len());
    let (a, b) = (&demodulated[..n], &reference[..n]);
    let mean_a = a.iter().sum::<f32>() / n as f32;
    let mean_b = b.iter().sum::<f32>() / n as f32;
    let (mut cov, mut var_a, mut var_b) = (0.0f64, 0.0f64, 0.0f64);
    for i in 0..n {
        let da = (a[i] - mean_a) as f64;
        let db = (b[i] - mean_b) as f64;
        cov += da * db;
        var_a += da * da;
        var_b += db * db;
    }
    let correlation = cov / (var_a.sqrt() * var_b.sqrt());
    assert!(correlation > 0.7, "相関={correlation}");
}

#[test]
fn bits_pack_most_significant_first_with_zero_padding() {
    let bits = [true, false, true, false, true, false, true, false, true, true];
    assert_eq!(pack_dsd_bits(&bits), vec![0xAA, 0xC0]);
    assert_eq!(pack_dsd_bits(&[]), Vec::<u8>::new());
    assert_eq!(pack_dsd_bits(&[true]), vec![0x80]);
}

#[test]
fn bytes_unpack_most_significant_first() {
    assert_eq!(unpack_dsd_bits(&[0x81]), vec![true, false, false, false, false, false, false, true]);
    let bytes = vec![0x00, 0xFF, 0x5A, 0x3C];
    assert_eq!(pack_dsd_bits(&unpack_dsd_bits(&bytes)), bytes);
    let bits = vec![true, true, false, true, false];
    let mut padded = bits.clone();
    padded.extend([false; 3]);
    assert_eq!(unpack_dsd_bits(&pack_dsd_bits(&bits)), padded);
}
