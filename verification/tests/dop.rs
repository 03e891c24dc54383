use open_mqa::dop::{pack_dop_frames, unpack_dop_frames, DopConfig, DopError, DsdFormat, PcmFrame24};

#[test]
fn dsd256_bitrate_and_pcm_rate() {
    assert_eq!(DsdFormat::dsd256().dsd_bitrate_hz, 11_289_600);
    // The DoP container's PCM rate is one sixteenth of the DSD bit rate.
    assert_eq!(DsdFormat::dsd256().dop_pcm_sample_rate_hz(), 705_600);
}

#[test]
fn dsd512_is_double_dsd256() {
    assert_eq!(DsdFormat::dsd512().dsd_bitrate_hz, DsdFormat::dsd256().dsd_bitrate_hz * 2);
}

#[test]
fn pack_known_byte_pattern() {
    let config = DopConfig::dsd256_24bit();
    // A known DSD byte sequence (4 bytes = 2 frames).
    let dsd_bytes = [0xAAu8, 0x55, 0x0F, 0xF0];
    let frames = pack_dop_frames(&dsd_bytes, &config).expect("pack failed");

    assert_eq!(frames.len(), 2);
    // Even frame (i = 0) carries the 0x05 marker.
    assert_eq!(frames[0], [0x05, 0xAA, 0x55]);
    // Odd frame (i = 1) carries the 0xFA marker.
    assert_eq!(frames[1], [0xFA, 0x0F, 0xF0]);
}

#[test]
fn round_trip_pack_unpack() {
    let config = DopConfig::dsd256_24bit();
    let dsd_bytes: Vec<u8> = (0..=255u8).collect(); // 256 bytes = 128 frames
    let frames = pack_dop_frames(&dsd_bytes, &config).expect("pack failed");
    assert_eq!(frames.len(), 128);

    let recovered = unpack_dop_frames(&frames).expect("unpack failed");
    assert_eq!(recovered, dsd_bytes);
}

#[test]
fn odd_length_input_rejected() {
    let config = DopConfig::dsd256_24bit();
    let dsd_bytes = [0x00u8, 0x01, 0x02]; // 3 bytes (odd)
    let result = pack_dop_frames(&dsd_bytes, &config);
    assert_eq!(result, Err(DopError::OddByteLength(3)));
}

#[test]
fn unsupported_container_bits_rejected() {
    let config = DopConfig { format: DsdFormat::dsd256(), container_bits: 32 };
    let result = pack_dop_frames(&[0x00, 0x01], &config);
    assert_eq!(result, Err(DopError::UnsupportedContainerBits(32)));
}

#[test]
fn corrupted_marker_detected_on_unpack() {
    // The second frame's marker should be 0xFA but was left at 0x05.
    let corrupted_frames: Vec<PcmFrame24> = vec![[0x05, 0xAA, 0x55], [0x05, 0x0F, 0xF0]];
    let result = unpack_dop_frames(&corrupted_frames);
    assert_eq!(result, Err(DopError::InvalidFrameCount));
}

#[test]
fn empty_input_produces_empty_output() {
    let config = DopConfig::dsd256_24bit();
    let frames = pack_dop_frames(&[], &config).expect("pack failed");
    assert!(frames.is_empty());
}

#[test]
fn dsd_generations_have_their_bit_rates() {
    assert_eq!(DsdFormat::dsd64().dsd_bitrate_hz, 2_822_400);
    assert_eq!(DsdFormat::dsd128().dsd_bitrate_hz, 5_644_800);
    assert_eq!(DsdFormat::dsd64().dop_pcm_sample_rate_hz(), 176_400);
    assert_eq!(DsdFormat::dsd512().dop_pcm_sample_rate_hz(), 1_411_200);
}

#[test]
fn container_width_is_checked_before_length() {
    let config = DopConfig { format: DsdFormat::dsd64(), container_bits: 16 };
    assert_eq!(pack_dop_frames(&[1, 2, 3], &config), Err(DopError::UnsupportedContainerBits(16)));
}

#[test]
fn unpacked_frames_pack_to_the_same_frames() {
    let frames: Vec<PcmFrame24> = vec![[0x05, 1, 2], [0xFA, 3, 4], [0x05, 0xFA, 0x05]];
    let bytes = unpack_dop_frames(&frames).unwrap();
    assert_eq!(bytes, vec![1, 2, 3, 4, 0xFA, 0x05]);
    assert_eq!(pack_dop_frames(&bytes, &DopConfig::dsd256_24bit()).unwrap(), frames);
}

#[test]
fn first_frame_must_carry_the_even_marker() {
    assert_eq!(unpack_dop_frames(&[[0xFA, 0, 0]]), Err(DopError::InvalidFrameCount));
}
