use open_mqa::flac::{decode_flac, decode_flac_stream, encode_flac, interleave_channels, FlacError, FlacStream};

fn sine_wave(num_frames: usize, sample_rate: u32, freq: f64, bits: u32) -> Vec<i32> {
    let max_amp = (1i64 << (bits - 1)) as f64 - 1.0;
    (0..num_frames)
        .map(|n| {
            let t = n as f64 / sample_rate as f64;
            let v = (2.0 * std::f64::consts::PI * freq * t).sin() * max_amp * 0.5;
            v.round() as i32
        })
        .collect()
}

#[test]
fn round_trip_mono_sine_16bit() {
    let sample_rate = 44_100u32;
    let bits = 16u32;
    let mono = sine_wave(4_410, sample_rate, 440.0, bits);
    let channels = vec![mono.clone()];

    let encoded = encode_flac(&channels, sample_rate, bits as u8).expect("encode failed");
    assert!(!encoded.is_empty());
    // FLAC stream marker "fLaC"
    assert_eq!(&encoded[0..4], b"fLaC");

    let decoded = decode_flac(&encoded).expect("decode failed");
    assert_eq!(decoded.sample_rate, sample_rate);
    assert_eq!(decoded.channels, 1);
    assert_eq!(decoded.bits_per_sample, bits);
    assert_eq!(decoded.num_frames(), mono.len());
    assert_eq!(decoded.samples_per_channel[0], mono);
}

#[test]
fn round_trip_stereo_sine_24bit() {
    let sample_rate = 48_000u32;
    let bits = 24u32;
    let left = sine_wave(2_000, sample_rate, 220.0, bits);
    let right = sine_wave(2_000, sample_rate, 330.0, bits);
    let channels = vec![left.clone(), right.clone()];

    let encoded = encode_flac(&channels, sample_rate, bits as u8).expect("encode failed");
    let decoded = decode_flac(&encoded).expect("decode failed");

    assert_eq!(decoded.channels, 2);
    assert_eq!(decoded.sample_rate, sample_rate);
    assert_eq!(decoded.samples_per_channel[0], left);
    assert_eq!(decoded.samples_per_channel[1], right);
}

#[test]
fn mismatched_channel_lengths_rejected() {
    let channels = vec![vec![0, 1, 2], vec![0, 1]];
    let result = encode_flac(&channels, 44_100, 16);
    assert!(result.is_err());
}

#[test]
fn input_errors_and_decode_errors() {
    assert!(matches!(encode_flac(&[], 44_100, 16), Err(FlacError::InvalidInput(_))));
    assert!(matches!(encode_flac(&[vec![1], vec![]], 44_100, 16), Err(FlacError::InvalidInput(_))));
    assert!(matches!(decode_flac(b"RIFF....WAVE"), Err(FlacError::Decode(_))));
    assert!(matches!(decode_flac(b""), Err(FlacError::Decode(_))));
}

#[test]
fn encoder_errors_are_encode_errors() {
    // flacenc takes at most eight channels and at most 96 kHz.
    assert!(matches!(encode_flac(&vec![vec![0; 64]; 9], 44_100, 16), Err(FlacError::Encode(_))));
    assert!(matches!(encode_flac(&[vec![0; 64]], 192_000, 16), Err(FlacError::Encode(_))));
}

#[test]
fn channels_interleave_frame_by_frame() {
    assert_eq!(interleave_channels(&[vec![1, 2, 3], vec![10, 20, 30]]), vec![1, 10, 2, 20, 3, 30]);
    assert_eq!(interleave_channels(&[vec![7, 8]]), vec![7, 8]);
}

#[test]
fn streams_deinterleave_and_trim_to_the_recorded_length() {
    let stream = FlacStream {
        sample_rate: 8_000,
        bits_per_sample: 16,
        channels: 2,
        total_frames: Some(2),
        samples: vec![1, 10, 2, 20, 0, 0, 0, 0],
    };
    let d = decode_flac_stream(stream);
    assert_eq!((d.sample_rate, d.bits_per_sample, d.channels), (8_000, 16, 2));
    assert_eq!(d.samples_per_channel, vec![vec![1, 2], vec![10, 20]]);

    let unknown_length = FlacStream {
        sample_rate: 8_000,
        bits_per_sample: 16,
        channels: 3,
        total_frames: None,
        samples: vec![1, 2, 3, 4, 5, 6, 7],
    };
    assert_eq!(decode_flac_stream(unknown_length).samples_per_channel, vec![vec![1, 4, 7], vec![2, 5], vec![3, 6]]);
}

#[test]
fn input_error_messages_are_those_of_the_original() {
    match encode_flac(&[], 44_100, 16) {
        Err(FlacError::InvalidInput(m)) => assert_eq!(m, "チャンネル数が0です"),
        other => panic!("{other:?}"),
    }
    match encode_flac(&[vec![1, 2, 3], vec![1, 2]], 44_100, 16) {
        Err(FlacError::InvalidInput(m)) => assert_eq!(m, "チャンネル1のサンプル数がチャンネル0と一致しません(2 != 3)"),
        other => panic!("{other:?}"),
    }
}
