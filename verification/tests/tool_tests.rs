use muxide::api::{audio_track_config, AudioCodec, AudioTrackConfig, Metadata, VideoCodec};
use muxide::cli::{channel_count_supported, sample_rate_supported, video_dimensions_supported};
use muxide::hex::{read_hex_bytes, HexError};
use muxide::inspect::{contains_fourcc, detect_video_codec, inspect_mp4, DetectedCodec, InspectError};
use muxide::muxer::entries::Mp4VideoTrack;
use muxide::muxer::fourcc::{AVC1, FTYP, MDAT, MOOV, MP4A};
use muxide::muxer::meta::{days_to_ymd, format_unix_timestamp, is_leap_year};
use muxide::muxer::mp4::Mp4Writer;
use muxide::muxer::tables::build_stts_box;

#[test]
fn hex_text_decodes_with_white_space() {
    assert_eq!(read_hex_bytes("00 ff\n10\t"), Ok(vec![0x00, 0xff, 0x10]));
    assert_eq!(read_hex_bytes("AbCd"), Ok(vec![0xab, 0xcd]));
    assert_eq!(read_hex_bytes("0\u{3000}1"), Ok(vec![0x01]));
}

#[test]
fn hex_text_errors() {
    assert_eq!(read_hex_bytes(""), Err(HexError::Empty));
    assert_eq!(read_hex_bytes(" \n "), Err(HexError::Empty));
    assert_eq!(read_hex_bytes("abc"), Err(HexError::OddLength(3)));
    assert_eq!(read_hex_bytes("zz"), Err(HexError::InvalidByte(vec!['z', 'z'])));
    assert_eq!(read_hex_bytes("00-1"), Err(HexError::InvalidByte(vec!['-', '1'])));
    assert_eq!(read_hex_bytes("++"), Err(HexError::InvalidByte(vec!['+', '+'])));
    assert_eq!(read_hex_bytes("+f"), Err(HexError::InvalidByte(vec!['+', 'f'])));
    assert_eq!(read_hex_bytes("\u{e9}"), Err(HexError::InvalidByte(vec!['\u{e9}'])));
    assert_eq!(read_hex_bytes("a\u{e9}"), Err(HexError::OddLength(3)));
}

#[test]
fn hex_text_that_would_split_a_character() {
    assert_eq!(read_hex_bytes("a\u{20ac}"), Err(HexError::SplitCharacter));
    assert_eq!(read_hex_bytes("a\u{e9}b"), Err(HexError::SplitCharacter));
    assert_eq!(read_hex_bytes("0a a\u{e9}b"), Err(HexError::SplitCharacter));
    assert_eq!(read_hex_bytes("a\u{20ac}b"), Err(HexError::OddLength(5)));
    assert_eq!(read_hex_bytes("ab"), Ok(vec![0xab]));
}

#[test]
fn inspect_refuses_tiny_files() {
    assert!(matches!(inspect_mp4(&[0, 0, 0, 8]), Err(InspectError::TooSmall)));
}

#[test]
fn inspect_reports_boxes_and_codecs() {
    let mut w = Mp4Writer::new(VideoCodec::H264);
    let key = [
        0, 0, 0, 1, 0x67, 0x42, 0x00, 0x1e, 0x95, 0xa8, 0x28, 0x28, 0x28, 0, 0, 0, 1, 0x68, 0xce,
        0x3c, 0x80, 0, 0, 0, 1, 0x65, 0x88,
    ];
    w.write_video_sample(0, &key, true).unwrap();
    let file = w.finalize(&Mp4VideoTrack { width: 640, height: 480 }, None, true).unwrap();
    let info = inspect_mp4(&file).unwrap();
    let kinds: Vec<u32> = info.boxes.iter().map(|b| b.fourcc).collect();
    assert_eq!(kinds, vec![FTYP, MOOV, MDAT]);
    assert!(info.is_valid_mp4);
    assert_eq!(info.video_codec, DetectedCodec::Avc);
    assert!(!info.has_audio);
}

#[test]
fn inspect_marks_a_box_that_runs_past_the_end() {
    let mut file = vec![0, 0, 0, 16, b'f', b't', b'y', b'p', 0, 0, 0, 0, 0, 0, 0, 0];
    file.extend_from_slice(&[0, 0, 1, 0, b'm', b'o', b'o', b'v', 1, 2]);
    let info = inspect_mp4(&file).unwrap();
    assert_eq!(info.boxes.len(), 2);
    assert!(info.boxes[0].within_file);
    assert!(!info.boxes[1].within_file);
    assert_eq!(info.boxes[1].size, 256);
    assert_eq!(info.boxes[1].offset, 16);
    assert!(!info.is_valid_mp4);
}

#[test]
fn codec_detection_prefers_avc1() {
    assert!(contains_fourcc(b"xxmp4a", MP4A));
    assert!(!contains_fourcc(b"mp4", MP4A));
    assert!(contains_fourcc(b"..avc1..hvc1", AVC1));
    assert_eq!(detect_video_codec(b"hvc1 avc1"), DetectedCodec::Avc);
    assert_eq!(detect_video_codec(b"av01 vp09"), DetectedCodec::Vp9);
    assert_eq!(detect_video_codec(b"av01"), DetectedCodec::Av1);
    assert_eq!(detect_video_codec(b"hvc1"), DetectedCodec::Hevc);
    assert_eq!(detect_video_codec(b"nothing"), DetectedCodec::Unknown);
}

#[test]
fn cli_setting_ranges() {
    assert!(video_dimensions_supported(320, 240));
    assert!(video_dimensions_supported(4096, 2160));
    assert!(!video_dimensions_supported(319, 240));
    assert!(!video_dimensions_supported(4097, 1080));
    assert!(!video_dimensions_supported(1920, 2161));
    assert!(sample_rate_supported(48000));
    assert!(sample_rate_supported(1));
    assert!(sample_rate_supported(192_000));
    assert!(!sample_rate_supported(0));
    assert!(!sample_rate_supported(192_001));
    assert!(channel_count_supported(1));
    assert!(channel_count_supported(8));
    assert!(!channel_count_supported(0));
    assert!(!channel_count_supported(9));
}

#[test]
fn audio_config_for_no_audio_is_none() {
    assert_eq!(audio_track_config(AudioCodec::NoAudio, 48000, 2), None);
    assert_eq!(
        audio_track_config(AudioCodec::Aac, 44100, 1),
        Some(AudioTrackConfig { codec: AudioCodec::Aac, sample_rate: 44100, channels: 1 })
    );
}

#[test]
fn metadata_builders() {
    let m = Metadata::new();
    assert!(m.title.is_none() && m.creation_time.is_none());
    let m = m.with_title("Clip").with_creation_time(42);
    assert_eq!(m.title.as_deref(), Some("Clip"));
    assert_eq!(m.creation_time, Some(42));
    let now = Metadata::new().with_current_time();
    assert!(now.creation_time.unwrap() > 1_600_000_000);
}

#[test]
fn timestamps_are_formatted_as_iso_8601() {
    assert_eq!(format_unix_timestamp(0), b"1970-01-01T00:00:00Z".to_vec());
    assert_eq!(format_unix_timestamp(1_700_000_000), b"2023-11-14T22:13:20Z".to_vec());
    assert_eq!(format_unix_timestamp(951_782_400), b"2000-02-29T00:00:00Z".to_vec());
}

#[test]
fn calendar_helpers() {
    assert_eq!(days_to_ymd(0), (1970, 1, 1));
    assert_eq!(days_to_ymd(59), (1970, 3, 1));
    assert_eq!(days_to_ymd(365), (1971, 1, 1));
    assert!(is_leap_year(2000));
    assert!(is_leap_year(2024));
    assert!(!is_leap_year(1900));
    assert!(!is_leap_year(2023));
}

#[test]
fn stts_runs_are_merged() {
    let stts = build_stts_box(&vec![3000, 3000, 3000, 1500]);
    assert_eq!(
        stts,
        vec![
            0, 0, 0, 32, b's', b't', b't', b's', 0, 0, 0, 0, 0, 0, 0, 2, 0, 0, 0, 3, 0, 0, 0x0b,
            0xb8, 0, 0, 0, 1, 0, 0, 0x05, 0xdc
        ]
    );
}

#[test]
fn hex_rendering_reads_back() {
    let bytes: Vec<u8> = (0..=255u8).collect();
    let text: String = bytes.iter().map(|b| format!("{:02x}", b)).collect();
    assert_eq!(read_hex_bytes(&text), Ok(bytes.clone()));
    let spaced: String = bytes.iter().map(|b| format!(" {:x}\n{:x}\t", b >> 4, b & 15)).collect();
    assert_eq!(read_hex_bytes(&spaced), Ok(bytes));
}

#[test]
fn codec_codes_of_the_c_interface() {
    assert_eq!(VideoCodec::from_code(0), Some(VideoCodec::H264));
    assert_eq!(VideoCodec::from_code(1), Some(VideoCodec::H265));
    assert_eq!(VideoCodec::from_code(2), Some(VideoCodec::Av1));
    assert_eq!(VideoCodec::from_code(3), None);
    assert_eq!(VideoCodec::from_code(-1), None);
    assert_eq!(AudioCodec::from_code(0), Some(AudioCodec::Aac));
    assert_eq!(AudioCodec::from_code(3), Some(AudioCodec::Aac));
    assert_eq!(AudioCodec::from_code(4), Some(AudioCodec::Opus));
    assert_eq!(AudioCodec::from_code(5), None);
    assert_eq!(AudioCodec::from_code(-1), None);
}

#[test]
fn consecutive_days_give_consecutive_dates() {
    assert_eq!(days_to_ymd(58), (1970, 2, 28));
    assert_eq!(days_to_ymd(364), (1970, 12, 31));
    assert_eq!(days_to_ymd(788), (1972, 2, 28));
    assert_eq!(days_to_ymd(789), (1972, 2, 29));
    assert_eq!(days_to_ymd(790), (1972, 3, 1));
    let month_len = |y: u32, m: u32| match m {
        2 => if is_leap_year(y) { 29 } else { 28 },
        4 | 6 | 9 | 11 => 30,
        _ => 31,
    };
    let mut date = days_to_ymd(0);
    for day in 1..20000u64 {
        let (y, m, d) = date;
        let expected = if d < month_len(y, m) {
            (y, m, d + 1)
        } else if m < 12 {
            (y, m + 1, 1)
        } else {
            (y + 1, 1, 1)
        };
        let next = days_to_ymd(day);
        assert_eq!(next, expected);
        date = next;
    }
}
