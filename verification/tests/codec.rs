use open_mqa::codec::{decode_lossless as decode, detect_container, encode_dop, encode_lossless as encode, AudioFormat, CodecError, Container, FLAC_MAX_RATE_HZ};
use open_mqa::dop::{pack_dop_frames, unpack_dop_frames, DopConfig};
use open_mqa::wav::WavError;

#[test]
fn default_format_is_wav() {
    assert_eq!(AudioFormat::default(), AudioFormat::Wav);
    assert_eq!(AudioFormat::default().extension(), "wav");
}

#[test]
fn wav_and_flac_are_lossless_round_trips_via_auto_detection() {
    let ch = vec![(0..4000).map(|i| ((i as f64 * 0.03).sin() * 1_000_000.0) as i32).collect::<Vec<_>>(); 2];
    for f in [AudioFormat::Wav, AudioFormat::Flac] {
        let bytes = encode(f, &ch, 96_000, 24).unwrap();
        let d = decode(&bytes).unwrap();
        assert_eq!(d.samples_per_channel, ch, "{f:?}");
    }
}

#[test]
fn dop_is_wav_only_flac_and_opus_are_refused() {
    let dsd: Vec<u8> = (0..4096u32).map(|i| (i.wrapping_mul(2654435761) >> 11) as u8).collect();
    let cfg = DopConfig::dsd256_24bit();
    let frames = pack_dop_frames(&dsd, &cfg).unwrap();
    let bytes = encode_dop(AudioFormat::Wav, &[frames.clone(), frames.clone()], cfg.format.dop_pcm_sample_rate_hz()).unwrap();
    let d = decode(&bytes).unwrap();
    let back: Vec<[u8; 3]> = d.samples_per_channel[0].iter().map(|&s| [(s >> 16) as u8, (s >> 8) as u8, s as u8]).collect();
    assert_eq!(unpack_dop_frames(&back).unwrap(), dsd);
    assert!(encode_dop(AudioFormat::Flac, &[frames.clone()], 705_600).is_err(), "FLACは96kHz超を扱えない");
    assert!(encode_dop(AudioFormat::Opus { bitrate_bps: 128_000 }, &[frames], 705_600).is_err());
}

#[test]
fn extensions_and_losslessness() {
    assert_eq!(AudioFormat::Flac.extension(), "flac");
    assert_eq!(AudioFormat::Opus { bitrate_bps: 64_000 }.extension(), "opus");
    assert!(AudioFormat::Wav.is_lossless());
    assert!(AudioFormat::Flac.is_lossless());
    assert!(!AudioFormat::Opus { bitrate_bps: 64_000 }.is_lossless());
}

#[test]
fn flac_above_its_rate_limit_is_refused() {
    let ch = vec![vec![0i32; 16]];
    assert!(matches!(encode(AudioFormat::Flac, &ch, FLAC_MAX_RATE_HZ + 1, 16), Err(CodecError::Unsupported(_))));
    assert!(encode(AudioFormat::Flac, &ch, FLAC_MAX_RATE_HZ, 16).is_ok());
}

#[test]
fn containers_are_recognised_by_their_magic_bytes() {
    assert_eq!(detect_container(b"RIFF\0\0\0\0WAVE"), Container::Wav);
    assert_eq!(detect_container(b"fLaC"), Container::Flac);
    assert_eq!(detect_container(b"OggS\0\0\0\0"), Container::Ogg);
    assert_eq!(detect_container(b"ID3\x04"), Container::Unknown);
    assert_eq!(detect_container(b"Ogg"), Container::Unknown);
}

#[test]
fn codec_error_messages_are_those_of_the_original() {
    let ch = vec![vec![0i32; 16]];
    match encode(AudioFormat::Flac, &ch, 192_000, 16) {
        Err(CodecError::Unsupported(m)) => assert_eq!(m, "FLAC(flacenc)は96000Hzまで。192000HzはWAVを使ってください"),
        other => panic!("{other:?}"),
    }
    match decode(b"MThd....") {
        Err(CodecError::Unsupported(m)) => assert_eq!(m, "WAV/FLAC/Opusのいずれでもありません"),
        other => panic!("{other:?}"),
    }
    match encode_dop(AudioFormat::Opus { bitrate_bps: 1 }, &[], 705_600) {
        Err(CodecError::Unsupported(m)) => assert_eq!(m, "DoPは非可逆のOpusでは壊れるため保存できません(WAVを選んでください)"),
        other => panic!("{other:?}"),
    }
}

#[test]
fn unknown_bytes_are_refused() {
    assert!(matches!(decode(b"ID3\x04 some mp3"), Err(CodecError::Unsupported(_))));
    assert!(matches!(decode(b"RI"), Err(CodecError::Unsupported(_))));
}

#[test]
fn broken_wav_and_flac_report_their_codec() {
    assert!(matches!(decode(b"RIFF\0\0\0\0WAVX"), Err(CodecError::Wav(WavError::Format(_)))));
    assert!(matches!(decode(b"fLaC\0\0"), Err(CodecError::Flac(_))));
    assert!(matches!(encode(AudioFormat::Wav, &[], 8_000, 16), Err(CodecError::Wav(WavError::InvalidInput(_)))));
}

#[test]
fn flac_output_starts_with_its_marker() {
    let ch = vec![(0..1000).map(|i| (i % 100) * 10).collect::<Vec<i32>>()];
    let bytes = encode(AudioFormat::Flac, &ch, 44_100, 16).unwrap();
    assert_eq!(&bytes[..4], b"fLaC");
    let d = decode(&bytes).unwrap();
    assert_eq!((d.sample_rate, d.bits_per_sample, d.channels), (44_100, 16, 1));
    assert_eq!(d.samples_per_channel, ch);
}
