use muxide::api::{AudioCodec, AudioTrackConfig, Metadata, VideoCodec};
use muxide::inspect::scan_top_level_boxes;
use muxide::muxer::entries::{build_avc1_box, Mp4AudioTrack, Mp4VideoTrack};
use muxide::codec::h264::default_avc_config;
use muxide::muxer::fourcc::{FTYP, MDAT, MOOV};
use muxide::muxer::mp4::{FinalizeError, Mp4Writer, Mp4WriterError};
use muxide::wire::build_box;

fn h264_keyframe() -> Vec<u8> {
    let mut data = Vec::new();
    data.extend_from_slice(&[0, 0, 0, 1, 0x67, 0x42, 0x00, 0x1e, 0x95, 0xa8, 0x28, 0x28, 0x28]);
    data.extend_from_slice(&[0, 0, 0, 1, 0x68, 0xce, 0x3c, 0x80]);
    data.extend_from_slice(&[0, 0, 0, 1, 0x65, 0x88, 0x84, 0x00, 0x00, 0x03, 0x00, 0x00, 0x03]);
    data
}

fn h264_pframe() -> Vec<u8> {
    vec![0, 0, 0, 1, 0x41, 0x9a, 0x24, 0x6c, 0x42, 0xff, 0xff]
}

fn adts_frame(payload: [u8; 4]) -> Vec<u8> {
    let mut f = vec![0xFF, 0xF1, 0x50, 0x80, 0x01, 0x7F, 0xFC];
    f.extend_from_slice(&payload);
    f
}

fn be32_at(b: &[u8], at: usize) -> u32 {
    u32::from_be_bytes([b[at], b[at + 1], b[at + 2], b[at + 3]])
}

fn be16_at(b: &[u8], at: usize) -> u16 {
    u16::from_be_bytes([b[at], b[at + 1]])
}

fn positions(b: &[u8], tag: &[u8; 4]) -> Vec<usize> {
    b.windows(4).enumerate().filter(|(_, w)| w == tag).map(|(i, _)| i).collect()
}

/// Offsets listed by the `stco` box whose type starts at `at`.
fn stco_entries(b: &[u8], at: usize) -> Vec<u32> {
    let n = be32_at(b, at + 12) as usize;
    (0..n).map(|k| be32_at(b, at + 16 + 4 * k)).collect()
}

/// Sizes listed by the `stsz` box whose type starts at `at`.
fn stsz_entries(b: &[u8], at: usize) -> Vec<u32> {
    let n = be32_at(b, at + 16) as usize;
    (0..n).map(|k| be32_at(b, at + 20 + 4 * k)).collect()
}

fn track() -> Mp4VideoTrack {
    Mp4VideoTrack { width: 640, height: 480 }
}

fn two_frame_writer() -> Mp4Writer {
    let mut w = Mp4Writer::new(VideoCodec::H264);
    w.write_video_sample(0, &h264_keyframe(), true).unwrap();
    w.write_video_sample(3000, &h264_pframe(), false).unwrap();
    w
}

fn interleaved_writer() -> Mp4Writer {
    let audio = AudioTrackConfig { codec: AudioCodec::Aac, sample_rate: 48000, channels: 2 };
    let mut w = Mp4Writer::for_tracks(VideoCodec::H264, Some(audio));
    w.write_video_sample(0, &h264_keyframe(), true).unwrap();
    w.write_audio_sample(0, &adts_frame([0xAA, 0xBB, 0xCC, 0xDD])).unwrap();
    w.write_audio_sample(1920, &adts_frame([0x11, 0x22, 0x33, 0x44])).unwrap();
    w.write_video_sample(3000, &h264_pframe(), false).unwrap();
    w
}

#[test]
fn standard_layout_is_ftyp_mdat_moov() {
    let mut w = two_frame_writer();
    let file = w.finalize(&track(), None, false).unwrap();
    let boxes = scan_top_level_boxes(&file);
    let kinds: Vec<u32> = boxes.iter().map(|b| b.fourcc).collect();
    assert_eq!(kinds, vec![FTYP, MDAT, MOOV]);
    assert_eq!(boxes[0].offset, 0);
    assert_eq!(boxes[1].offset, 24);
    assert_eq!(boxes[1].size, 8 + 34 + 11);
    assert!(boxes.iter().all(|b| b.within_file));
    assert_eq!(boxes[2].offset + boxes[2].size, file.len());
    assert_eq!(w.bytes_written(), file.len() as u64);
}

#[test]
fn standard_chunk_offset_points_at_first_sample() {
    let mut w = two_frame_writer();
    let file = w.finalize(&track(), None, false).unwrap();
    let stco = positions(&file, b"stco");
    assert_eq!(stco.len(), 1);
    assert_eq!(stco_entries(&file, stco[0] - 4), vec![32]);
    assert_eq!(&file[32..37], &[0, 0, 0, 9, 0x67]);
    assert_eq!(&file[66..71], &[0, 0, 0, 7, 0x41]);
}

#[test]
fn fast_start_layout_is_ftyp_moov_mdat() {
    let mut w = two_frame_writer();
    let file = w.finalize(&track(), None, true).unwrap();
    let boxes = scan_top_level_boxes(&file);
    let kinds: Vec<u32> = boxes.iter().map(|b| b.fourcc).collect();
    assert_eq!(kinds, vec![FTYP, MOOV, MDAT]);
    let moov_size = boxes[1].size;
    let stco = positions(&file, b"stco");
    let offset = stco_entries(&file, stco[0] - 4)[0] as usize;
    assert_eq!(offset, 24 + moov_size + 8);
    assert_eq!(&file[offset..offset + 5], &[0, 0, 0, 9, 0x67]);
    assert_eq!(boxes[2].size, 8 + 34 + 11);
    assert_eq!(boxes[2].offset + boxes[2].size, file.len());
}

#[test]
fn fast_start_moov_matches_standard_moov_length() {
    let fast = two_frame_writer().finalize(&track(), None, true).unwrap();
    let standard = two_frame_writer().finalize(&track(), None, false).unwrap();
    assert_eq!(fast.len(), standard.len());
}

#[test]
fn interleaved_offsets_point_at_each_sample() {
    let mut w = interleaved_writer();
    let file = w.finalize(&track(), None, false).unwrap();
    let stco = positions(&file, b"stco");
    assert_eq!(stco.len(), 2);
    let video = stco_entries(&file, stco[0] - 4);
    let audio = stco_entries(&file, stco[1] - 4);
    assert_eq!(video, vec![32, 74]);
    assert_eq!(audio, vec![66, 70]);
    assert_eq!(&file[66..70], &[0xAA, 0xBB, 0xCC, 0xDD]);
    assert_eq!(&file[70..74], &[0x11, 0x22, 0x33, 0x44]);
    assert_eq!(&file[74..79], &[0, 0, 0, 7, 0x41]);
    let boxes = scan_top_level_boxes(&file);
    assert_eq!(boxes[1].fourcc, MDAT);
    assert_eq!(boxes[1].size, 8 + 34 + 4 + 4 + 11);
}

#[test]
fn interleaved_fast_start_offsets_point_at_each_sample() {
    let mut w = interleaved_writer();
    let file = w.finalize(&track(), None, true).unwrap();
    let boxes = scan_top_level_boxes(&file);
    let base = 24 + boxes[1].size + 8;
    let stco = positions(&file, b"stco");
    let video = stco_entries(&file, stco[0] - 4);
    let audio = stco_entries(&file, stco[1] - 4);
    assert_eq!(video, vec![base as u32, (base + 42) as u32]);
    assert_eq!(audio, vec![(base + 34) as u32, (base + 38) as u32]);
    assert_eq!(&file[base + 34..base + 38], &[0xAA, 0xBB, 0xCC, 0xDD]);
}

#[test]
fn empty_standard_file_has_no_mdat() {
    let mut w = Mp4Writer::new(VideoCodec::H264);
    let file = w.finalize(&track(), None, false).unwrap();
    let kinds: Vec<u32> = scan_top_level_boxes(&file).iter().map(|b| b.fourcc).collect();
    assert_eq!(kinds, vec![FTYP, MOOV]);
    assert!(!positions(&file, b"avcC").is_empty());
}

#[test]
fn empty_fast_start_file_has_empty_mdat() {
    let mut w = Mp4Writer::new(VideoCodec::H264);
    let file = w.finalize(&track(), None, true).unwrap();
    let boxes = scan_top_level_boxes(&file);
    let kinds: Vec<u32> = boxes.iter().map(|b| b.fourcc).collect();
    assert_eq!(kinds, vec![FTYP, MOOV, MDAT]);
    assert_eq!(boxes[2].size, 8);
}

#[test]
fn finalize_twice_is_refused() {
    let mut w = two_frame_writer();
    assert!(w.finalize(&track(), None, false).is_ok());
    let written = w.bytes_written();
    assert_eq!(w.finalize(&track(), None, false), Err(FinalizeError::AlreadyFinalized));
    assert_eq!(w.bytes_written(), written);
    assert_eq!(
        w.write_video_sample(6000, &h264_pframe(), false),
        Err(Mp4WriterError::AlreadyFinalized)
    );
    assert_eq!(w.video_sample_count(), 2);
}

#[test]
fn timestamps_must_increase() {
    let mut w = Mp4Writer::new(VideoCodec::H264);
    w.write_video_sample(1000, &h264_keyframe(), true).unwrap();
    assert_eq!(
        w.write_video_sample(1000, &h264_pframe(), false),
        Err(Mp4WriterError::NonIncreasingTimestamp)
    );
    assert_eq!(
        w.write_video_sample(999, &h264_pframe(), false),
        Err(Mp4WriterError::NonIncreasingTimestamp)
    );
    assert_eq!(w.video_sample_count(), 1);
    assert_eq!(w.write_video_sample(1001, &h264_pframe(), false), Ok(()));
    assert_eq!(w.video_sample_count(), 2);
}

#[test]
fn first_frame_rules() {
    let mut w = Mp4Writer::new(VideoCodec::H264);
    assert_eq!(
        w.write_video_sample(0, &h264_keyframe(), false),
        Err(Mp4WriterError::FirstFrameMustBeKeyframe)
    );
    assert_eq!(
        w.write_video_sample(0, &h264_pframe(), true),
        Err(Mp4WriterError::FirstFrameMissingSpsPps)
    );
    assert_eq!(w.video_sample_count(), 0);
    let mut hevc = Mp4Writer::new(VideoCodec::H265);
    assert_eq!(
        hevc.write_video_sample(0, &[0, 0, 0, 1, 0x26, 0x01, 0xAF], true),
        Err(Mp4WriterError::FirstFrameMissingSpsPps)
    );
    let mut av1 = Mp4Writer::new(VideoCodec::Av1);
    assert_eq!(
        av1.write_video_sample(0, &[0x0A, 0x0B, 0x00], true),
        Err(Mp4WriterError::FirstFrameMissingSequenceHeader)
    );
}

#[test]
fn audio_errors() {
    let mut w = Mp4Writer::new(VideoCodec::H264);
    assert_eq!(
        w.write_audio_sample(0, &adts_frame([1, 2, 3, 4])),
        Err(Mp4WriterError::AudioNotEnabled)
    );
    w.enable_audio(Mp4AudioTrack { sample_rate: 48000, channels: 2, codec: AudioCodec::Aac });
    assert_eq!(w.write_audio_sample(0, &[1, 2, 3]), Err(Mp4WriterError::InvalidAdts));
    assert_eq!(w.write_audio_sample(100, &adts_frame([1, 2, 3, 4])), Ok(()));
    assert_eq!(
        w.write_audio_sample(99, &adts_frame([1, 2, 3, 4])),
        Err(Mp4WriterError::NonIncreasingTimestamp)
    );
    assert_eq!(w.write_audio_sample(100, &adts_frame([1, 2, 3, 4])), Ok(()));
    assert_eq!(w.audio_sample_count(), 2);

    let mut opus = Mp4Writer::new(VideoCodec::H264);
    opus.enable_audio(Mp4AudioTrack { sample_rate: 48000, channels: 2, codec: AudioCodec::Opus });
    assert_eq!(opus.write_audio_sample(0, &[]), Err(Mp4WriterError::InvalidOpusPacket));
    assert_eq!(opus.write_audio_sample(0, &[0xF8, 0x01]), Ok(()));

    let mut none = Mp4Writer::new(VideoCodec::H264);
    none.enable_audio(Mp4AudioTrack { sample_rate: 48000, channels: 2, codec: AudioCodec::NoAudio });
    assert_eq!(none.write_audio_sample(0, &[0xF8]), Err(Mp4WriterError::AudioNotEnabled));
}

#[test]
fn duration_overflow_is_refused() {
    let mut w = Mp4Writer::new(VideoCodec::H264);
    w.write_video_sample(0, &h264_keyframe(), true).unwrap();
    assert_eq!(
        w.write_video_sample(1u64 << 32, &h264_pframe(), false),
        Err(Mp4WriterError::DurationOverflow)
    );
    assert_eq!(w.video_sample_count(), 1);
}

#[test]
fn max_end_pts_adds_last_delta() {
    let w = interleaved_writer();
    assert!(w.end_times_fit());
    assert_eq!(w.max_end_pts(), Some(6000));
    let empty = Mp4Writer::new(VideoCodec::H264);
    assert_eq!(empty.max_end_pts(), None);
}

#[test]
fn bframes_get_composition_offsets() {
    let mut w = Mp4Writer::new(VideoCodec::H264);
    w.write_video_sample_with_dts(0, 0, &h264_keyframe(), true).unwrap();
    w.write_video_sample_with_dts(6000, 3000, &h264_pframe(), false).unwrap();
    w.write_video_sample_with_dts(3000, 6000, &h264_pframe(), false).unwrap();
    let file = w.finalize(&track(), None, false).unwrap();
    assert_eq!(positions(&file, b"ctts").len(), 1);
    let plain = two_frame_writer().finalize(&track(), None, false).unwrap();
    assert!(positions(&plain, b"ctts").is_empty());
}

#[test]
fn metadata_is_written_into_udta() {
    let meta = Metadata::new().with_title("Demo").with_creation_time(1_700_000_000);
    let mut w = two_frame_writer();
    let file = w.finalize(&track(), Some(&meta), false).unwrap();
    assert_eq!(positions(&file, b"udta").len(), 1);
    assert_eq!(positions(&file, &[0xa9, b'n', b'a', b'm']).len(), 1);
    assert_eq!(positions(&file, b"Demo").len(), 1);
    assert!(file.windows(20).any(|w| w == b"2023-11-14T22:13:20Z"));
    let plain = two_frame_writer().finalize(&track(), Some(&Metadata::new()), false).unwrap();
    assert!(positions(&plain, b"udta").is_empty());
}

#[test]
fn for_tracks_enables_audio_only_when_asked() {
    let mut w = Mp4Writer::for_tracks(VideoCodec::H264, None);
    assert_eq!(w.write_audio_sample(0, &adts_frame([1, 2, 3, 4])), Err(Mp4WriterError::AudioNotEnabled));
    let audio = AudioTrackConfig { codec: AudioCodec::Opus, sample_rate: 48000, channels: 2 };
    let mut w = Mp4Writer::for_tracks(VideoCodec::H264, Some(audio));
    assert_eq!(w.write_audio_sample(0, &[0xF8]), Ok(()));
    let file = w.finalize(&track(), None, false).unwrap();
    assert_eq!(positions(&file, b"Opus").len(), 1);
    assert_eq!(positions(&file, b"dOps").len(), 1);
}

#[test]
fn contract_box_size_invariant() {
    let mut w = Mp4Writer::new(VideoCodec::H264);
    w.write_video_sample(0, &h264_keyframe(), true).unwrap();
    let file = w.finalize(&Mp4VideoTrack { width: 1920, height: 1080 }, None, true).unwrap();
    let boxes = scan_top_level_boxes(&file);
    assert!(boxes.iter().all(|b| b.within_file));
    assert_eq!(boxes.iter().map(|b| b.size).sum::<usize>(), file.len());
    let b = build_box(FTYP, &[1, 2, 3]);
    assert_eq!(b, vec![0, 0, 0, 11, b'f', b't', b'y', b'p', 1, 2, 3]);
}

#[test]
fn contract_width_height_invariants() {
    let avc1 = build_avc1_box(&Mp4VideoTrack { width: 1920, height: 1080 }, &default_avc_config());
    assert_eq!(&avc1[4..8], b"avc1");
    let width = be16_at(&avc1, 32);
    let height = be16_at(&avc1, 34);
    assert_eq!(width, 1920);
    assert_eq!(height, 1080);
    assert_eq!(&avc1[90..94], b"avcC");
    assert_eq!(avc1.len(), 86 + be32_at(&avc1, 86) as usize);
}

#[test]
fn contract_sample_sizes_invariant() {
    let mut w = Mp4Writer::new(VideoCodec::H264);
    w.write_video_sample(0, &h264_keyframe(), true).unwrap();
    w.write_video_sample(3000, &h264_pframe(), false).unwrap();
    let file = w.finalize(&Mp4VideoTrack { width: 1920, height: 1080 }, None, true).unwrap();
    let at = positions(&file, b"stsz")[0] - 4;
    assert_eq!(be32_at(&file, at + 12), 0);
    assert_eq!(be32_at(&file, at + 16), 2);
    let sizes = [be32_at(&file, at + 20), be32_at(&file, at + 24)];
    assert_eq!(sizes, [34, 11]);
    assert!(sizes.iter().all(|&s| s > 0));
}

fn frames_writer(frames: u64, width: u32, height: u32) -> (Mp4Writer, Mp4VideoTrack) {
    let mut w = Mp4Writer::new(VideoCodec::H264);
    w.write_video_sample(0, &h264_keyframe(), true).unwrap();
    for i in 1..frames {
        w.write_video_sample(i * 3000, &h264_pframe(), false).unwrap();
    }
    (w, Mp4VideoTrack { width, height })
}

#[test]
fn prop_output_starts_with_ftyp() {
    for frames in 1..10u64 {
        for fast_start in [false, true] {
            let (mut w, v) = frames_writer(frames, 1920, 1080);
            let out = w.finalize(&v, None, fast_start).unwrap();
            assert!(out.len() >= 8);
            assert_eq!(&out[4..8], b"ftyp");
            assert!(out.len() >= 500);
        }
    }
}

#[test]
fn prop_bytes_written_accurate() {
    for frames in 1..20u64 {
        let (mut w, v) = frames_writer(frames, 1920, 1080);
        let out = w.finalize(&v, None, true).unwrap();
        assert_eq!(w.bytes_written() as usize, out.len());
    }
}

#[test]
fn prop_frame_count_accurate() {
    for frames in 1..50u64 {
        let (w, _) = frames_writer(frames, 1920, 1080);
        assert_eq!(w.video_sample_count(), frames);
    }
}

#[test]
fn prop_non_monotonic_pts_rejected() {
    for (first, second) in [(9000u64, 0u64), (9000, 4500), (90000, 89999), (5, 5)] {
        let mut w = Mp4Writer::new(VideoCodec::H264);
        w.write_video_sample(first, &h264_keyframe(), true).unwrap();
        assert!(w.write_video_sample(second, &h264_pframe(), false).is_err());
        assert_eq!(w.video_sample_count(), 1);
    }
}

#[test]
fn prop_duration_reasonable() {
    for frames in 2..100u64 {
        let (w, _) = frames_writer(frames, 1920, 1080);
        assert!(w.end_times_fit());
        assert_eq!(w.max_end_pts(), Some(frames * 3000));
    }
}

#[test]
fn prop_dimensions_preserved() {
    for (width, height) in [(64u32, 64u32), (640, 480), (1920, 1080), (4095, 2159)] {
        let (mut w, v) = frames_writer(1, width, height);
        let out = w.finalize(&v, None, true).unwrap();
        let at = positions(&out, b"avc1")[0] - 4;
        assert_eq!(be16_at(&out, at + 32) as u32, width);
        assert_eq!(be16_at(&out, at + 34) as u32, height);
        assert!(!positions(&out, b"moov").is_empty());
    }
}

#[test]
fn durations_and_sync_samples_in_the_file() {
    let mut w = Mp4Writer::new(VideoCodec::H264);
    w.write_video_sample(0, &h264_keyframe(), true).unwrap();
    w.write_video_sample(3000, &h264_pframe(), false).unwrap();
    w.write_video_sample(4500, &h264_keyframe(), true).unwrap();
    let file = w.finalize(&track(), None, false).unwrap();
    let stts = positions(&file, b"stts")[0] - 4;
    // runs: (1 x 3000), (2 x 1500): the last sample lasts as long as the one before
    assert_eq!(be32_at(&file, stts + 12), 2);
    assert_eq!(
        [be32_at(&file, stts + 16), be32_at(&file, stts + 20), be32_at(&file, stts + 24), be32_at(&file, stts + 28)],
        [1, 3000, 2, 1500]
    );
    let stss = positions(&file, b"stss")[0] - 4;
    assert_eq!(be32_at(&file, stss + 12), 2);
    assert_eq!([be32_at(&file, stss + 16), be32_at(&file, stss + 20)], [1, 3]);
}

fn bframe_interleaved_writer() -> Mp4Writer {
    let audio = AudioTrackConfig { codec: AudioCodec::Aac, sample_rate: 48000, channels: 2 };
    let mut w = Mp4Writer::for_tracks(VideoCodec::H264, Some(audio));
    w.write_video_sample_with_dts(0, 0, &h264_keyframe(), true).unwrap();
    w.write_audio_sample(0, &adts_frame([0xAA, 0xBB, 0xCC, 0xDD])).unwrap();
    w.write_video_sample_with_dts(6000, 3000, &h264_pframe(), false).unwrap();
    w.write_video_sample_with_dts(3000, 6000, &[0, 0, 0, 1, 0x01, 0x9e, 0x11], false).unwrap();
    w.write_audio_sample(4000, &adts_frame([0x11, 0x22, 0x33, 0x44])).unwrap();
    w
}

fn check_bframe_offsets(file: &[u8], base: usize) {
    let stco = positions(file, b"stco");
    let stsz = positions(file, b"stsz");
    assert_eq!(stco.len(), 2);
    let video = stco_entries(file, stco[0] - 4);
    let audio = stco_entries(file, stco[1] - 4);
    let sizes = stsz_entries(file, stsz[0] - 4);
    // video samples in decode order: keyframe, P (pts 6000), B (pts 3000)
    assert_eq!(sizes, vec![34, 11, 7]);
    let b = base as u32;
    assert_eq!(video, vec![b, b + 49, b + 38]);
    assert_eq!(audio, vec![b + 34, b + 45]);
    let expected: [&[u8]; 3] = [
        &[0, 0, 0, 9, 0x67],
        &[0, 0, 0, 7, 0x41, 0x9a, 0x24, 0x6c, 0x42, 0xff, 0xff],
        &[0, 0, 0, 3, 0x01, 0x9e, 0x11],
    ];
    for i in 0..3 {
        let at = video[i] as usize;
        let part = &file[at..at + expected[i].len()];
        assert_eq!(part, expected[i]);
        assert!(at + sizes[i] as usize <= file.len());
    }
    assert_eq!(&file[audio[0] as usize..audio[0] as usize + 4], &[0xAA, 0xBB, 0xCC, 0xDD]);
    assert_eq!(&file[audio[1] as usize..audio[1] as usize + 4], &[0x11, 0x22, 0x33, 0x44]);
}

#[test]
fn bframe_interleaved_offsets_follow_decode_order() {
    let file = bframe_interleaved_writer().finalize(&track(), None, false).unwrap();
    check_bframe_offsets(&file, 32);
}

#[test]
fn bframe_interleaved_fast_start_offsets_follow_decode_order() {
    let file = bframe_interleaved_writer().finalize(&track(), None, true).unwrap();
    let boxes = scan_top_level_boxes(&file);
    assert_eq!(boxes[1].fourcc, MOOV);
    check_bframe_offsets(&file, 24 + boxes[1].size + 8);
}

#[test]
fn refused_adts_frame_leaves_writer_unchanged() {
    let mut w = Mp4Writer::new(VideoCodec::H264);
    w.enable_audio(Mp4AudioTrack { sample_rate: 48000, channels: 2, codec: AudioCodec::Aac });
    w.write_audio_sample(0, &adts_frame([1, 2, 3, 4])).unwrap();
    w.write_audio_sample(1024, &adts_frame([5, 6, 7, 8])).unwrap();
    let end = w.max_end_pts();
    assert_eq!(end, Some(2048));
    assert_eq!(w.write_audio_sample(5000, &[1, 2, 3]), Err(Mp4WriterError::InvalidAdts));
    assert_eq!(w.max_end_pts(), end);
    assert_eq!(w.audio_sample_count(), 2);
    assert_eq!(w.write_audio_sample(2048, &adts_frame([9, 9, 9, 9])), Ok(()));
    assert_eq!(w.max_end_pts(), Some(3072));
}

#[test]
fn refused_video_frame_leaves_writer_unchanged() {
    let mut w = two_frame_writer();
    let end = w.max_end_pts();
    assert_eq!(end, Some(6000));
    assert_eq!(
        w.write_video_sample(1u64 << 33, &h264_pframe(), false),
        Err(Mp4WriterError::DurationOverflow)
    );
    assert_eq!(w.max_end_pts(), end);
    assert_eq!(w.video_sample_count(), 2);
}

#[test]
fn finalize_without_parameter_sets_is_refused() {
    for codec in [VideoCodec::H265, VideoCodec::Av1] {
        let mut w = Mp4Writer::new(codec);
        assert_eq!(
            w.finalize(&track(), None, true),
            Err(FinalizeError::MissingCodecConfig)
        );
        assert_eq!(w.bytes_written(), 0);
        assert_eq!(
            w.finalize(&track(), None, false),
            Err(FinalizeError::MissingCodecConfig)
        );
    }
    let mut h264 = Mp4Writer::new(VideoCodec::H264);
    assert!(h264.finalize(&track(), None, true).is_ok());
}

#[test]
fn track_header_is_version_zero_with_flags_three() {
    let file = two_frame_writer().finalize(&track(), None, false).unwrap();
    let at = positions(&file, b"tkhd")[0] - 4;
    assert_eq!(be32_at(&file, at), 92);
    assert_eq!(be32_at(&file, at + 8), 3);
    assert_eq!(be32_at(&file, at + 20), 1);
    assert_eq!(be32_at(&file, at + 84), 640 << 16);
    assert_eq!(be32_at(&file, at + 88), 480 << 16);
}

#[test]
fn movie_header_names_the_next_track_id() {
    let video_only = two_frame_writer().finalize(&track(), None, false).unwrap();
    let at = positions(&video_only, b"mvhd")[0] - 4;
    assert_eq!(be32_at(&video_only, at), 108);
    assert_eq!(be32_at(&video_only, at + 104), 2);
    let with_audio = interleaved_writer().finalize(&track(), None, false).unwrap();
    let at = positions(&with_audio, b"mvhd")[0] - 4;
    assert_eq!(be32_at(&with_audio, at + 104), 3);
}

#[test]
fn video_media_header_has_flags_one() {
    let file = two_frame_writer().finalize(&track(), None, false).unwrap();
    let at = positions(&file, b"vmhd")[0] - 4;
    assert_eq!(be32_at(&file, at), 20);
    assert_eq!(be32_at(&file, at + 8), 1);
}

#[test]
fn hevc_first_keyframe_with_parameter_sets_is_muxed() {
    let mut frame = vec![0, 0, 0, 1, 0x40, 0x01, 0x0c, 0x01];
    frame.extend_from_slice(&[0, 0, 0, 1, 0x42, 0x01, 0x01, 0x01, 0x60, 0, 0, 0, 0x90, 0, 0, 0, 0, 0, 0x5d, 0xa0]);
    frame.extend_from_slice(&[0, 0, 0, 1, 0x44, 0x01, 0xc1]);
    frame.extend_from_slice(&[0, 0, 0, 1, 0x26, 0x01, 0xaf, 0x10]);
    let mut w = Mp4Writer::new(VideoCodec::H265);
    assert_eq!(w.write_video_sample(0, &frame, true), Ok(()));
    assert_eq!(w.write_video_sample(3000, &[0, 0, 0, 1, 0x02, 0x01, 0xd0], false), Ok(()));
    let file = w.finalize(&Mp4VideoTrack { width: 3840, height: 2160 }, None, true).unwrap();
    assert_eq!(positions(&file, b"hvc1").len(), 1);
    let at = positions(&file, b"hvcC")[0] - 4;
    assert_eq!(file[at + 8], 1);
    assert_eq!(file[at + 9], 0x01);
    assert_eq!(file[at + 20], 0x5d);
    assert!(file.windows(4).any(|x| x == [0x40, 0x01, 0x0c, 0x01]));
}

#[test]
fn av1_first_keyframe_with_sequence_header_is_muxed() {
    let tu = vec![0x0A, 0x08, 0x1a, 0x3f, 0xc1, 0xdf, 0xc1, 0x0d, 0xc0, 0x00, 0x32, 0x02, 0x10, 0x00];
    let mut w = Mp4Writer::new(VideoCodec::Av1);
    assert_eq!(w.write_video_sample(0, &tu, true), Ok(()));
    let file = w.finalize(&Mp4VideoTrack { width: 1920, height: 1080 }, None, false).unwrap();
    assert_eq!(positions(&file, b"av01").len(), 1);
    let at = positions(&file, b"av1C")[0] - 4;
    assert_eq!(be32_at(&file, at), 8 + 4 + 10);
    assert_eq!(&file[at + 8..at + 12], &[0x81, 0x08, 0x0c, 0x00]);
    assert_eq!(&file[at + 12..at + 22], &tu[0..10]);
}
