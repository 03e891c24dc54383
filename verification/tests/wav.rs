use open_mqa::dop::{pack_dop_frames, unpack_dop_frames, DopConfig};
use open_mqa::wav::{decode_dop_wav, decode_wav, dop_frame_to_sample, encode_dop_wav, encode_wav, sample_to_dop_frame, WavError};

fn sine(n: usize, amp: f64) -> Vec<i32> {
    (0..n).map(|i| (amp * (i as f64 * 0.05).sin()) as i32).collect()
}

#[test]
fn round_trips_16_24_and_32_bit_stereo_exactly() {
    for (bits, amp) in [(16u8, 30000.0), (24, 8_000_000.0), (32, 2_000_000_000.0)] {
        let ch = vec![sine(1001, amp), sine(1001, amp * 0.5)];
        let wav = encode_wav(&ch, 96_000, bits).unwrap();
        let d = decode_wav(&wav).unwrap();
        assert_eq!((d.sample_rate, d.bits_per_sample, d.channels), (96_000, bits as u32, 2));
        assert_eq!(d.samples_per_channel, ch, "{bits}bit");
    }
}

#[test]
fn round_trips_six_channels() {
    let ch: Vec<Vec<i32>> = (0..6).map(|c| sine(333, 1000.0 * (c + 1) as f64)).collect();
    assert_eq!(decode_wav(&encode_wav(&ch, 48_000, 16).unwrap()).unwrap().samples_per_channel, ch);
}

#[test]
fn negative_24bit_values_keep_their_sign() {
    let ch = vec![vec![-8_388_608, -1, 0, 1, 8_388_607]];
    assert_eq!(decode_wav(&encode_wav(&ch, 44_100, 24).unwrap()).unwrap().samples_per_channel, ch);
}

#[test]
fn rejects_bad_input() {
    assert!(decode_wav(b"not a wav file").is_err());
    assert!(encode_wav(&[], 44_100, 16).is_err());
    assert!(encode_wav(&[vec![0]], 44_100, 12).is_err());
    assert!(encode_wav(&[vec![0, 1], vec![0]], 44_100, 16).is_err());
}

#[test]
fn skips_unknown_chunks_before_data() {
    let mut wav = encode_wav(&[vec![1, 2, 3]], 44_100, 16).unwrap();
    let data_pos = wav.windows(4).position(|w| w == b"data").unwrap();
    let mut list = b"LIST".to_vec();
    list.extend_from_slice(&3u32.to_le_bytes());
    list.extend_from_slice(&[9, 9, 9, 0]);
    for (i, b) in list.into_iter().enumerate() {
        wav.insert(data_pos + i, b);
    }
    assert_eq!(decode_wav(&wav).unwrap().samples_per_channel, vec![vec![1, 2, 3]]);
}

#[test]
fn dop_survives_a_wav_round_trip_bit_exactly_including_the_markers() {
    // DSD bytes that include bytes with the high bit set (0xFA and the like).
    let dsd: Vec<u8> = (0..4096u32).map(|i| (i.wrapping_mul(2654435761) >> 13) as u8).collect();
    let cfg = DopConfig::dsd256_24bit();
    let frames = pack_dop_frames(&dsd, &cfg).unwrap();
    let wav = encode_dop_wav(&[frames.clone(), frames], cfg.format.dop_pcm_sample_rate_hz()).unwrap();
    let back = decode_dop_wav(&wav).unwrap();
    assert_eq!(back.len(), 2);
    assert_eq!(unpack_dop_frames(&back[0]).unwrap(), dsd);
    assert_eq!(decode_wav(&wav).unwrap().sample_rate, 705_600);
}

#[test]
fn plain_header_of_a_mono_16_bit_file() {
    let wav = encode_wav(&[vec![1, -2, 3]], 8_000, 16).unwrap();
    let expected: Vec<u8> = [
        &b"RIFF"[..],
        &(36u32 + 6).to_le_bytes(),
        b"WAVEfmt ",
        &16u32.to_le_bytes(),
        &1u16.to_le_bytes(),
        &1u16.to_le_bytes(),
        &8_000u32.to_le_bytes(),
        &16_000u32.to_le_bytes(),
        &2u16.to_le_bytes(),
        &16u16.to_le_bytes(),
        b"data",
        &6u32.to_le_bytes(),
        &[1, 0, 0xFE, 0xFF, 3, 0],
    ]
    .concat();
    assert_eq!(wav, expected);
}

#[test]
fn extensible_header_for_three_channels_and_odd_data_padded() {
    let wav = encode_wav(&[vec![0x010203], vec![4], vec![5]], 44_100, 24).unwrap();
    // 68 header bytes, 9 data bytes, 1 pad byte.
    assert_eq!(wav.len(), 78);
    assert_eq!(&wav[20..22], &0xFFFEu16.to_le_bytes());
    assert_eq!(&wav[16..20], &40u32.to_le_bytes());
    assert_eq!(&wav[4..8], &(4u32 + 8 + 40 + 8 + 9 + 1).to_le_bytes());
    assert_eq!(&wav[38..40], &24u16.to_le_bytes());
    assert_eq!(&wav[44..60], &[1, 0, 0, 0, 0, 0, 0x10, 0, 0x80, 0, 0, 0xAA, 0, 0x38, 0x9B, 0x71]);
    assert_eq!(&wav[64..68], &9u32.to_le_bytes());
    assert_eq!(&wav[68..78], &[3, 2, 1, 4, 0, 0, 5, 0, 0, 0]);
    assert_eq!(decode_wav(&wav).unwrap().samples_per_channel, vec![vec![0x010203], vec![4], vec![5]]);
}

#[test]
fn stereo_24_bit_uses_the_plain_fmt_chunk_and_32_bit_extensible() {
    let wav = encode_wav(&[vec![1, 2], vec![3, 4]], 96_000, 24).unwrap();
    assert_eq!(wav.len(), 44 + 12);
    assert_eq!(&wav[16..20], &16u32.to_le_bytes());
    assert_eq!(&wav[20..22], &1u16.to_le_bytes());
    assert_eq!(&wav[32..34], &6u16.to_le_bytes());
    let wav32 = encode_wav(&[vec![1]], 96_000, 32).unwrap();
    assert_eq!(&wav32[20..22], &0xFFFEu16.to_le_bytes());
    assert_eq!(&wav32[16..20], &40u32.to_le_bytes());
}

#[test]
fn three_channels_use_extensible_even_at_16_bits() {
    let wav = encode_wav(&[vec![1], vec![2], vec![3]], 48_000, 16).unwrap();
    assert_eq!(&wav[20..22], &0xFFFEu16.to_le_bytes());
    assert_eq!(&wav[28..32], &(48_000u32 * 3 * 2).to_le_bytes());
}

#[test]
fn samples_wider_than_the_depth_keep_their_low_bytes() {
    // 70000 does not fit 16 bits: its low two bytes are written and read back sign-extended.
    let d = decode_wav(&encode_wav(&[vec![70_000]], 8_000, 16).unwrap()).unwrap();
    assert_eq!(d.samples_per_channel, vec![vec![70_000 - 65_536]]);
}

#[test]
fn decode_errors_are_format_errors() {
    let good = encode_wav(&[vec![5, 6]], 8_000, 16).unwrap();
    // No data chunk.
    assert!(matches!(decode_wav(&good[..36]), Err(WavError::Format(_))));
    // Not linear PCM.
    let mut float_tag = good.clone();
    float_tag[20] = 3;
    assert!(matches!(decode_wav(&float_tag), Err(WavError::Format(_))));
    // Unsupported bit depth.
    let mut eight_bit = good.clone();
    eight_bit[34] = 8;
    assert!(matches!(decode_wav(&eight_bit), Err(WavError::Format(_))));
    // fmt chunk too short.
    let mut short_fmt = good.clone();
    short_fmt[16] = 10;
    assert!(matches!(decode_wav(&short_fmt), Err(WavError::Format(_))));
    // data before fmt.
    let mut data_first = b"RIFF\0\0\0\0WAVEdata".to_vec();
    data_first.extend_from_slice(&[2, 0, 0, 0, 1, 2]);
    assert!(matches!(decode_wav(&data_first), Err(WavError::Format(_))));
}

#[test]
fn encode_errors_are_input_errors() {
    assert!(matches!(encode_wav(&[], 8_000, 16), Err(WavError::InvalidInput(_))));
    assert!(matches!(encode_wav(&[vec![1]], 8_000, 8), Err(WavError::InvalidInput(_))));
    assert!(matches!(encode_wav(&[vec![1], vec![]], 8_000, 16), Err(WavError::InvalidInput(_))));
}

#[test]
fn truncated_data_reads_whole_frames_only() {
    let mut wav = encode_wav(&[vec![1, 2], vec![3, 4]], 8_000, 16).unwrap();
    // Drop the last two bytes: the data chunk still claims 8 bytes, 6 remain.
    wav.truncate(wav.len() - 2);
    let d = decode_wav(&wav).unwrap();
    assert_eq!(d.samples_per_channel, vec![vec![1], vec![3]]);
    assert_eq!(d.num_frames(), 1);
}

#[test]
fn dop_frames_and_samples_convert_both_ways() {
    assert_eq!(dop_frame_to_sample(&[0x05, 0xAA, 0x55]), 0x05AA55);
    assert_eq!(dop_frame_to_sample(&[0xFA, 0x00, 0x01]), 0xFA0001 - 0x100_0000);
    assert_eq!(sample_to_dop_frame(-1), [0xFF, 0xFF, 0xFF]);
    assert_eq!(sample_to_dop_frame(dop_frame_to_sample(&[0xFA, 0x12, 0x34])), [0xFA, 0x12, 0x34]);
}

#[test]
fn dop_wav_must_be_24_bit() {
    let wav16 = encode_wav(&[vec![1, 2]], 8_000, 16).unwrap();
    assert!(matches!(decode_dop_wav(&wav16), Err(WavError::Format(_))));
}

#[test]
fn wav_error_messages_are_those_of_the_original() {
    let msg = |r: Result<Vec<u8>, WavError>| match r {
        Err(WavError::InvalidInput(m)) => m,
        other => panic!("{other:?}"),
    };
    assert_eq!(msg(encode_wav(&[], 8_000, 16)), "チャンネル数が不正です");
    assert_eq!(msg(encode_wav(&[vec![0]], 8_000, 12)), "未対応のビット深度: 12");
    assert_eq!(msg(encode_wav(&[vec![0, 1], vec![0], vec![]], 8_000, 16)), "チャンネル1のサンプル数が一致しません(1 != 2)");

    let fmt = |r: Result<open_mqa::wav::DecodedAudio, WavError>| match r {
        Err(WavError::Format(m)) => m,
        other => panic!("{other:?}"),
    };
    let good = encode_wav(&[vec![5, 6]], 8_000, 16).unwrap();
    assert_eq!(fmt(decode_wav(b"not a wav file")), "RIFF/WAVEヘッダがありません");
    assert_eq!(fmt(decode_wav(&good[..36])), "dataチャンクがありません");
    let mut float_tag = good.clone();
    float_tag[20] = 3;
    assert_eq!(fmt(decode_wav(&float_tag)), "リニアPCM以外は未対応です(形式3)");
    let mut eight_bit = good.clone();
    eight_bit[34] = 8;
    assert_eq!(fmt(decode_wav(&eight_bit)), "未対応のビット深度/チャンネル数: 8bit 1ch");
    let mut short_fmt = good.clone();
    short_fmt[16] = 10;
    assert_eq!(fmt(decode_wav(&short_fmt)), "fmtチャンクが短すぎます");
    match decode_dop_wav(&good) {
        Err(WavError::Format(m)) => assert_eq!(m, "DoPは24bit WAVが必要です"),
        other => panic!("{other:?}"),
    }
}
