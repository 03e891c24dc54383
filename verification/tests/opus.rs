use open_mqa::opus::{check_opus_input, opus_packet_layout, OpusError};

#[test]
fn rejects_hires_rates_and_surround() {
    assert!(check_opus_input(&[vec![0; 100]], 96_000).is_err());
    assert!(check_opus_input(&[vec![0; 100], vec![0; 100], vec![0; 100]], 48_000).is_err());
}

#[test]
fn accepts_mono_and_stereo_at_opus_rates() {
    for rate in [8_000, 12_000, 16_000, 24_000, 48_000] {
        assert!(check_opus_input(&[vec![0; 10]], rate).is_ok());
        assert!(check_opus_input(&[vec![0; 10], vec![1; 10]], rate).is_ok());
    }
    assert!(matches!(check_opus_input(&[], 48_000), Err(OpusError::Unsupported(_))));
    assert!(matches!(check_opus_input(&[vec![0; 10], vec![0; 9]], 48_000), Err(OpusError::Unsupported(_))));
    assert!(matches!(check_opus_input(&[vec![0; 10]], 44_100), Err(OpusError::Unsupported(_))));
}

#[test]
fn packet_layout_covers_the_clip_and_the_pre_skip() {
    // 48 kHz: 960-sample packets; 48000 + 312 samples need 51 packets.
    let l = opus_packet_layout(48_000, 48_000, 312);
    assert_eq!((l.frame_samples, l.packets, l.final_granule), (960, 51, 48_312));
    // 16 kHz: 320-sample packets, 3 ticks per sample; pre-skip 312 is 104 input samples.
    let l = opus_packet_layout(1_000, 16_000, 312);
    assert_eq!((l.frame_samples, l.packets, l.final_granule), (320, 4, 3_312));
    // 8 kHz, pre-skip 313 rounds up to 53 input samples.
    let l = opus_packet_layout(107, 8_000, 313);
    assert_eq!((l.frame_samples, l.packets, l.final_granule), (160, 1, 955));
    let l = opus_packet_layout(108, 8_000, 313);
    assert_eq!(l.packets, 2);
}

#[test]
fn refusal_messages_are_those_of_the_original() {
    match check_opus_input(&[vec![0; 4], vec![0; 4], vec![0; 4]], 48_000) {
        Err(OpusError::Unsupported(m)) => assert_eq!(m, "3chは非対応(1〜2ch)"),
        other => panic!("{other:?}"),
    }
    match check_opus_input(&[vec![0; 4]], 96_000) {
        Err(OpusError::Unsupported(m)) => assert_eq!(m, "96000Hzは非対応(8/12/16/24/48kHzのみ。先にリサンプルしてください)"),
        other => panic!("{other:?}"),
    }
    match check_opus_input(&[vec![0; 4], vec![0; 3]], 48_000) {
        Err(OpusError::Unsupported(m)) => assert_eq!(m, "チャンネル間でサンプル数が違います"),
        other => panic!("{other:?}"),
    }
}
