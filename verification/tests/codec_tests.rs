use muxide::codec::av1::{extract_av1_config, is_av1_keyframe, obu_has_extension, obu_has_size, obu_type};
use muxide::codec::h264::{annexb_to_avcc, default_avc_config, extract_avc_config, is_h264_keyframe};
use muxide::codec::h265::nal_type;
use muxide::codec::h265::{extract_hevc_config, hevc_nal_type, is_hevc_keyframe, is_hevc_keyframe_nal_type};
use muxide::codec::opus::{is_valid_opus_packet, OpusConfig};
use muxide::codec::vp9::{extract_vp9_config, is_valid_vp9_frame, is_vp9_keyframe, Vp9Error};
use muxide::api::AudioCodec;
use muxide::muxer::adts::adts_to_raw;
use muxide::muxer::entries::{build_audio_specific_config, build_dops_box, Mp4AudioTrack};

fn build_vp9_keyframe() -> Vec<u8> {
    vec![
        0x82, 0x49, 0x83, 0x42, // frame header byte + frame_sync_code
        0x40, 0x06, 0x30, 0x06, 0x30, // color_config + frame_size (100x100, BT.709)
        0x00, 0x00, 0x00, 0x00, // minimal compressed payload
    ]
}

fn build_vp9_pframe() -> Vec<u8> {
    vec![0x86, 0x00, 0x00]
}

fn h264_keyframe() -> Vec<u8> {
    let mut data = Vec::new();
    data.extend_from_slice(&[0, 0, 0, 1, 0x67, 0x42, 0x00, 0x1e, 0x95, 0xa8, 0x28, 0x28, 0x28]);
    data.extend_from_slice(&[0, 0, 0, 1, 0x68, 0xce, 0x3c, 0x80]);
    data.extend_from_slice(&[0, 0, 0, 1, 0x65, 0x88, 0x84, 0x00, 0x00, 0x03, 0x00, 0x00, 0x03]);
    data
}

#[test]
fn test_obu_type_extraction() {
    let seq_header = 0x08;
    assert_eq!(obu_type(seq_header), 1);
    let frame = 0x30;
    assert_eq!(obu_type(frame), 6);
}

#[test]
fn test_obu_flags() {
    let with_ext = 0x04;
    assert!(obu_has_extension(with_ext));
    assert!(!obu_has_extension(0x00));
    let with_size = 0x02;
    assert!(obu_has_size(with_size));
    assert!(!obu_has_size(0x00));
}

#[test]
fn test_extract_av1_config_stub() {
    assert!(extract_av1_config(&[]).is_none());
}

#[test]
fn test_is_av1_keyframe_stub() {
    assert!(!is_av1_keyframe(&[]));
}

#[test]
fn test_hevc_nal_type_extraction() {
    let vps_nal = [0x40, 0x01, 0x0c];
    assert_eq!(hevc_nal_type(&vps_nal), 32);
    let sps_nal = [0x42, 0x01, 0x01];
    assert_eq!(hevc_nal_type(&sps_nal), 33);
}

#[test]
fn test_is_hevc_keyframe_nal_type() {
    assert!(is_hevc_keyframe_nal_type(nal_type::IDR_W_RADL));
    assert!(is_hevc_keyframe_nal_type(nal_type::IDR_N_LP));
    assert!(!is_hevc_keyframe_nal_type(nal_type::VPS));
    assert!(!is_hevc_keyframe_nal_type(nal_type::SPS));
}

#[test]
fn test_extract_hevc_config_stub() {
    assert!(extract_hevc_config(&[]).is_none());
}

#[test]
fn test_invalid_frame_marker() {
    let invalid_frame = [0x00, 0x00, 0x00];
    assert!(!is_valid_vp9_frame(&invalid_frame));
    assert!(matches!(is_vp9_keyframe(&invalid_frame), Err(Vp9Error::InvalidFrameMarker)));
}

#[test]
fn test_frame_too_short() {
    let empty_frame: &[u8] = &[];
    assert!(!is_valid_vp9_frame(empty_frame));
    assert!(matches!(is_vp9_keyframe(empty_frame), Err(Vp9Error::FrameTooShort)));
}

#[test]
fn test_valid_frame_marker() {
    let valid_frame = [0x82, 0x49, 0x83, 0x42, 0x00, 0x00];
    assert!(is_valid_vp9_frame(&valid_frame));
}

#[test]
fn test_is_vp9_keyframe_valid() {
    let keyframe = [0x82];
    assert_eq!(is_vp9_keyframe(&keyframe), Ok(true));
}

#[test]
fn test_is_vp9_keyframe_pframe() {
    let pframe = [0x84];
    assert_eq!(is_vp9_keyframe(&pframe), Ok(false));
}

#[test]
fn test_is_vp9_keyframe_show_existing() {
    let show_existing = [0x88];
    assert_eq!(is_vp9_keyframe(&show_existing), Ok(false));
}

#[test]
fn test_extract_vp9_config_valid() {
    let keyframe = vec![0x82, 0x49, 0x83, 0x42, 0x00, 0x0F, 0xF0, 0x0F, 0xF0];
    let config = extract_vp9_config(&keyframe).unwrap();
    assert_eq!(config.width, 256);
    assert_eq!(config.height, 256);
    assert_eq!(config.profile, 0);
    assert_eq!(config.bit_depth, 8);
    assert_eq!(config.level, 0);
    assert_eq!(config.full_range_flag, 0);
}

#[test]
fn test_extract_vp9_config_invalid_marker() {
    let invalid_frame = [0x00, 0x00, 0x00, 0x00];
    assert!(extract_vp9_config(&invalid_frame).is_none());
}

#[test]
fn test_extract_vp9_config_pframe() {
    let pframe = [0x84, 0x00, 0x00, 0x00, 0x00, 0x00];
    assert!(extract_vp9_config(&pframe).is_none());
}

#[test]
fn vp9_config_extraction_works() {
    let keyframe = build_vp9_keyframe();
    let config = extract_vp9_config(&keyframe).unwrap();
    assert_eq!(config.width, 100);
    assert_eq!(config.height, 100);
    assert_eq!(config.profile, 0);
    assert_eq!(config.bit_depth, 8);
    assert_eq!(config.color_space, 2);
}

#[test]
fn vp9_keyframe_detection_works() {
    let keyframe = build_vp9_keyframe();
    assert!(is_vp9_keyframe(&keyframe).unwrap());
    let pframe = build_vp9_pframe();
    assert!(!is_vp9_keyframe(&pframe).unwrap());
}

#[test]
fn vp9_sync_code_mismatch_is_not_a_config() {
    let frame = [0x82, 0x49, 0x83, 0x43, 0x00, 0x0F, 0xF0, 0x0F, 0xF0];
    assert!(extract_vp9_config(&frame).is_none());
}

#[test]
fn h264_config_is_taken_from_sps_and_pps() {
    let config = extract_avc_config(&h264_keyframe()).unwrap();
    assert_eq!(config.sps, vec![0x67, 0x42, 0x00, 0x1e, 0x95, 0xa8, 0x28, 0x28, 0x28]);
    assert_eq!(config.pps, vec![0x68, 0xce, 0x3c, 0x80]);
    let missing_pps = [0, 0, 0, 1, 0x67, 0x42, 0, 0, 0, 1, 0x65, 0x88];
    assert!(extract_avc_config(&missing_pps).is_none());
}

#[test]
fn h264_default_config_is_baseline_level_30() {
    let config = default_avc_config();
    assert_eq!(config.sps, vec![0x67, 0x42, 0x00, 0x1e, 0x95, 0xa8, 0x28, 0x28, 0x28]);
    assert_eq!(config.pps, vec![0x68, 0xce, 0x3c, 0x80]);
}

#[test]
fn annexb_units_become_length_prefixed() {
    let stream = [0, 0, 0, 1, 0x65, 0xAA, 0, 0, 1, 0x41, 0xBB];
    assert_eq!(annexb_to_avcc(&stream), vec![0, 0, 0, 2, 0x65, 0xAA, 0, 0, 0, 2, 0x41, 0xBB]);
    assert_eq!(annexb_to_avcc(&[]), Vec::<u8>::new());
}

#[test]
fn h264_keyframe_needs_an_idr_unit() {
    assert!(is_h264_keyframe(&h264_keyframe()));
    assert!(!is_h264_keyframe(&[0, 0, 0, 1, 0x41, 0x9a, 0x24]));
}

#[test]
fn hevc_keyframe_needs_an_irap_unit() {
    assert!(is_hevc_keyframe(&[0, 0, 0, 1, 0x26, 0x01, 0xAF]));
    assert!(!is_hevc_keyframe(&[0, 0, 0, 1, 0x02, 0x01, 0xAF]));
}

#[test]
fn opus_framing_rules() {
    assert!(!is_valid_opus_packet(&[]));
    assert!(is_valid_opus_packet(&[0xF8]));
    assert!(is_valid_opus_packet(&[0xF9, 0x01, 0x02]));
    assert!(!is_valid_opus_packet(&[0xF9, 0x01]));
    assert!(is_valid_opus_packet(&[0xFA, 0x01, 0xAA]));
    assert!(!is_valid_opus_packet(&[0xFA, 0x05, 0xAA]));
    assert!(is_valid_opus_packet(&[0xFB, 0x01]));
    assert!(!is_valid_opus_packet(&[0xFB, 0x00]));
}

#[test]
fn opus_config_defaults_and_channels() {
    let config = OpusConfig::default();
    assert_eq!(config.output_channel_count, 2);
    assert_eq!(config.pre_skip, 312);
    assert_eq!(config.input_sample_rate, 48000);
    assert_eq!(config.channel_mapping_family, 0);
    let surround = OpusConfig::default().with_channels(6);
    assert_eq!(surround.output_channel_count, 6);
    assert_eq!(surround.channel_mapping_family, 1);
}

#[test]
fn adts_header_is_removed() {
    let frame = [0xFF, 0xF1, 0x50, 0x80, 0x01, 0x7F, 0xFC, 0xAA, 0xBB, 0xCC, 0xDD];
    assert_eq!(adts_to_raw(&frame), Some(vec![0xAA, 0xBB, 0xCC, 0xDD]));
    assert_eq!(adts_to_raw(&frame[..6]), None);
    let mut bad_sync = frame;
    bad_sync[0] = 0xFE;
    assert_eq!(adts_to_raw(&bad_sync), None);
    let mut too_long = frame;
    too_long[4] = 0x02;
    assert_eq!(adts_to_raw(&too_long), None);
}

#[test]
fn aac_specific_config_bits() {
    assert_eq!(build_audio_specific_config(48000, 2), [0x11, 0x90]);
    assert_eq!(build_audio_specific_config(44100, 1), [0x12, 0x08]);
    assert_eq!(build_audio_specific_config(12345, 20), [0x12, 0x78]);
}

#[test]
fn dops_box_layout() {
    let stereo = Mp4AudioTrack { sample_rate: 48000, channels: 2, codec: AudioCodec::Opus };
    assert_eq!(
        build_dops_box(&stereo),
        vec![0, 0, 0, 19, b'd', b'O', b'p', b's', 0, 2, 0x01, 0x38, 0, 0, 0xBB, 0x80, 0, 0, 0]
    );
    let surround = Mp4AudioTrack { sample_rate: 48000, channels: 6, codec: AudioCodec::Opus };
    assert_eq!(
        build_dops_box(&surround),
        vec![
            0, 0, 0, 27, b'd', b'O', b'p', b's', 0, 6, 0x01, 0x38, 0, 0, 0xBB, 0x80, 0, 0, 1, 1, 0, 0, 1,
            2, 3, 4, 5
        ]
    );
}

#[test]
fn vp9_profile_two_is_ten_or_twelve_bit() {
    let ten_bit = [0x92, 0x49, 0x83, 0x42, 0x20, 0x07, 0xF8, 0x07, 0xF8];
    let config = extract_vp9_config(&ten_bit).unwrap();
    assert_eq!(config.profile, 2);
    assert_eq!(config.bit_depth, 10);
    assert_eq!(config.color_space, 2);
    assert_eq!(config.width, 256);
    assert_eq!(config.height, 256);
    let twelve_bit = [0x92, 0x49, 0x83, 0x42, 0xA0, 0x07, 0xF8, 0x07, 0xF8];
    assert_eq!(extract_vp9_config(&twelve_bit).unwrap().bit_depth, 12);
}

fn hevc_access_unit() -> Vec<u8> {
    let mut data = vec![0, 0, 0, 1, 0x40, 0x01, 0x0c, 0x01];
    data.extend_from_slice(&[0, 0, 0, 1, 0x42, 0x01, 0x01, 0x01, 0x60, 0, 0, 0, 0x90, 0, 0, 0, 0, 0, 0x5d, 0xa0]);
    data.extend_from_slice(&[0, 0, 1, 0x44, 0x01, 0xc1]);
    data.extend_from_slice(&[0, 0, 0, 1, 0x26, 0x01, 0xaf, 0x10]);
    data
}

#[test]
fn hevc_config_takes_the_first_vps_sps_and_pps() {
    let config = extract_hevc_config(&hevc_access_unit()).unwrap();
    assert_eq!(config.vps, vec![0x40, 0x01, 0x0c, 0x01]);
    assert_eq!(config.sps, vec![0x42, 0x01, 0x01, 0x01, 0x60, 0, 0, 0, 0x90, 0, 0, 0, 0, 0, 0x5d, 0xa0]);
    assert_eq!(config.pps, vec![0x44, 0x01, 0xc1]);
    assert_eq!(config.general_level_idc(), 0x5d);
    assert_eq!(config.general_profile_idc(), 1);
    // without a PPS there is no configuration
    let mut no_pps = vec![0, 0, 0, 1, 0x40, 0x01, 0x0c, 0x01];
    no_pps.extend_from_slice(&[0, 0, 0, 1, 0x42, 0x01, 0x01]);
    assert!(extract_hevc_config(&no_pps).is_none());
}

/// A sequence header OBU (reduced still-picture header, profile 0, level 8,
/// 1920x1080) followed by a key frame OBU.
fn av1_reduced_temporal_unit() -> Vec<u8> {
    vec![0x0A, 0x08, 0x1a, 0x3f, 0xc1, 0xdf, 0xc1, 0x0d, 0xc0, 0x00, 0x32, 0x02, 0x10, 0x00]
}

/// A full sequence header OBU: profile 0, one operating point at level 13
/// with tier 1, 10-bit, colour description present, 4:2:0 with chroma
/// sample position 1.
fn av1_full_sequence_header() -> Vec<u8> {
    let payload = [0x00, 0x00, 0x00, 0x6e, 0xaa, 0x7f, 0xac, 0xf3, 0x09, 0xe7, 0x40, 0x40, 0x40, 0x48];
    let mut obu = vec![0x0A, payload.len() as u8];
    obu.extend_from_slice(&payload);
    obu
}

#[test]
fn av1_config_from_reduced_sequence_header() {
    let tu = av1_reduced_temporal_unit();
    let config = extract_av1_config(&tu).unwrap();
    assert_eq!(config.sequence_header, tu[0..10].to_vec());
    assert_eq!(config.seq_profile, 0);
    assert_eq!(config.seq_level_idx, 8);
    assert_eq!(config.seq_tier, 0);
    assert!(!config.high_bitdepth);
    assert!(!config.twelve_bit);
    assert!(!config.monochrome);
    assert!(config.chroma_subsampling_x);
    assert!(config.chroma_subsampling_y);
    assert_eq!(config.chroma_sample_position, 0);
}

#[test]
fn av1_config_from_full_sequence_header() {
    let obu = av1_full_sequence_header();
    let config = extract_av1_config(&obu).unwrap();
    assert_eq!(config.sequence_header, obu);
    assert_eq!(config.seq_profile, 0);
    assert_eq!(config.seq_level_idx, 13);
    assert_eq!(config.seq_tier, 1);
    assert!(config.high_bitdepth);
    assert!(!config.twelve_bit);
    assert!(!config.monochrome);
    assert!(config.chroma_subsampling_x && config.chroma_subsampling_y);
    assert_eq!(config.chroma_sample_position, 1);
    // a header cut short yields no configuration
    let mut cut = obu[..10].to_vec();
    cut[1] = 8;
    assert!(extract_av1_config(&cut).is_none());
}

#[test]
fn av1_keyframe_detection() {
    let mut tu = av1_full_sequence_header();
    tu.extend_from_slice(&[0x32, 0x02, 0x10, 0x00]);
    assert!(is_av1_keyframe(&tu));
    // frame OBU with frame_type 1 (inter)
    assert!(!is_av1_keyframe(&[0x32, 0x02, 0x20, 0x00]));
    // a sequence header alone is no frame
    assert!(!is_av1_keyframe(&av1_full_sequence_header()));
}
