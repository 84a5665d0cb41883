//! The MP4 writer: it queues video and audio samples, checking timestamps
//! and codec framing as they arrive, and lays the file out when finalised.

use vstd::prelude::*;
use vstd::relations::sorted_by;

use super::adts::{adts_to_raw, spec_adts_to_raw};
use super::entries::{Mp4AudioTrack, Mp4VideoTrack, VideoConfig};
use super::fourcc::MDAT;
use super::headers::build_ftyp_box;
use super::layout::{
    concat_data, entry_data, fast_start_moov_len, file_config, file_moov, interleaved_bytes,
    layout_fits, lemma_sched_leq_total, payload_size, sched_leq, schedule, schedule_entries,
    single_chunk_tables, spec_file, total_size, walk, Entry, lemma_walk_lens,
};
use super::meta::metadata_renderable;
use super::moov::build_moov_box;
use super::tables::{SampleInfo, SampleTables, SampleView};
use crate::api::{AudioCodec, AudioTrackConfig, Metadata, VideoCodec};
use crate::codec::av1::{config_fields, extract_av1_config, spec_extract_av1_config};
use crate::codec::h264::{
    annexb_to_avcc, default_avc_config, extract_avc_config, spec_annexb_to_avcc, spec_extract_avc_config,
};
use crate::codec::h265::{extract_hevc_config, hevc_annexb_to_hvcc, spec_extract_hevc_config};
use crate::codec::opus::{is_valid_opus_packet, spec_is_valid_opus_packet};
use crate::wire::{push_bytes, push_u32};

verus! {

/// Errors produced while queuing samples.
#[derive(Debug, Clone, Copy, PartialEq, Eq, Structural)]
pub enum Mp4WriterError {
    /// Video decode timestamps must strictly increase; audio timestamps must
    /// not decrease.
    NonIncreasingTimestamp,
    /// The first frame must be a keyframe.
    FirstFrameMustBeKeyframe,
    /// The first keyframe must include SPS and PPS NAL units.
    FirstFrameMissingSpsPps,
    /// The first AV1 keyframe must include a Sequence Header OBU.
    FirstFrameMissingSequenceHeader,
    /// Audio sample is not a valid ADTS frame.
    InvalidAdts,
    /// Audio sample is not a valid Opus packet.
    InvalidOpusPacket,
    /// Audio track is not enabled on this writer.
    AudioNotEnabled,
    /// A sample duration or size does not fit 32 bits.
    DurationOverflow,
    /// The writer has already been finalised.
    AlreadyFinalized,
}

/// Errors of finalisation.
#[derive(Debug, Clone, Copy, PartialEq, Eq, Structural)]
pub enum FinalizeError {
    /// The writer has already been finalised.
    AlreadyFinalized,
    /// A size or offset of the layout does not fit the 32-bit fields of the
    /// format.
    LayoutOverflow,
    /// No codec configuration was recorded (no keyframe was queued) and the
    /// codec has no default one: H.265 and AV1 need their parameter sets.
    MissingCodecConfig,
}

/// Sorts schedule entries in ascending (time, track, index) order.
///
/// Calls `slice::sort` of std on tuples of integers, which std orders
/// lexicographically; its documentation states that the result is sorted and
/// holds the same elements.
#[verifier::external_body]
fn sort_schedule(v: &mut Vec<(u64, u8, usize)>)
    ensures
        final(v)@.to_multiset() == old(v)@.to_multiset(),
        sorted_by(final(v)@, |a: (u64, u8, usize), b: (u64, u8, usize)| sched_leq(a, b)),
{
    v.sort();
}

/// Every entry names an existing sample of its track.
pub open spec fn entries_valid(w: WriterState, s: Seq<Entry>) -> bool {
    forall|k: int|
        0 <= k < s.len() ==> ((#[trigger] s[k]).1 == 0 && (s[k].2 as int) < w.video_samples.len()) || (
        s[k].1 == 1 && (s[k].2 as int) < w.audio_samples.len())
}

/// Queued state of an MP4 file being written.
pub struct Mp4Writer {
    video_codec: VideoCodec,
    video_samples: Vec<SampleInfo>,
    video_prev_pts: Option<u64>,
    video_last_delta: Option<u32>,
    video_config: Option<VideoConfig>,
    audio_track: Option<Mp4AudioTrack>,
    audio_samples: Vec<SampleInfo>,
    audio_prev_pts: Option<u64>,
    audio_last_delta: Option<u32>,
    finalized: bool,
    bytes_written: u64,
}

/// The value of a writer.
pub struct WriterState {
    pub video_codec: VideoCodec,
    pub video_samples: Seq<SampleView>,
    /// Decode time of the last accepted video sample.
    pub video_prev_dts: Option<u64>,
    pub video_last_delta: Option<u32>,
    pub video_config: Option<VideoConfig>,
    pub audio_track: Option<Mp4AudioTrack>,
    pub audio_samples: Seq<SampleView>,
    pub audio_prev_pts: Option<u64>,
    pub audio_last_delta: Option<u32>,
    pub finalized: bool,
    pub bytes_written: u64,
}

impl View for Mp4Writer {
    type V = WriterState;

    closed spec fn view(&self) -> WriterState {
        WriterState {
            video_codec: self.video_codec,
            video_samples: self.video_samples@.map_values(|s: SampleInfo| s@),
            video_prev_dts: self.video_prev_pts,
            video_last_delta: self.video_last_delta,
            video_config: self.video_config,
            audio_track: self.audio_track,
            audio_samples: self.audio_samples@.map_values(|s: SampleInfo| s@),
            audio_prev_pts: self.audio_prev_pts,
            audio_last_delta: self.audio_last_delta,
            finalized: self.finalized,
            bytes_written: self.bytes_written,
        }
    }
}

/// The configuration that a first keyframe of the given codec provides:
/// H.264 its SPS and PPS, H.265 its VPS, SPS and PPS, AV1 its sequence
/// header.
pub open spec fn config_from_keyframe(codec: VideoCodec, data: Seq<u8>, c: VideoConfig) -> bool {
    match codec {
        VideoCodec::H264 => c matches VideoConfig::Avc(avc) && spec_extract_avc_config(data) == Some(
            (avc.sps@, avc.pps@),
        ),
        VideoCodec::H265 => c matches VideoConfig::Hevc(h) && spec_extract_hevc_config(data) == Some(
            (h.vps@, h.sps@, h.pps@),
        ),
        VideoCodec::Av1 => c matches VideoConfig::Av1(a) && spec_extract_av1_config(data) == Some(
            (a.sequence_header@, config_fields(a)),
        ),
    }
}

/// Whether a first keyframe of the given codec carries a configuration.
pub open spec fn keyframe_has_config(codec: VideoCodec, data: Seq<u8>) -> bool {
    match codec {
        VideoCodec::H264 => spec_extract_avc_config(data) is Some,
        VideoCodec::H265 => spec_extract_hevc_config(data) is Some,
        VideoCodec::Av1 => spec_extract_av1_config(data) is Some,
    }
}

/// How a video frame is stored: H.264/HEVC length-prefixed, AV1 as given.
pub open spec fn stored_video_data(codec: VideoCodec, data: Seq<u8>) -> Seq<u8> {
    match codec {
        VideoCodec::Av1 => data,
        _ => spec_annexb_to_avcc(data),
    }
}

/// The samples with the duration of the last one set to `d` (unchanged
/// when there is none).
pub open spec fn with_last_duration(s: Seq<SampleView>, d: u32) -> Seq<SampleView> {
    if s.len() == 0 {
        s
    } else {
        s.update(
            s.len() - 1,
            SampleView {
                pts: s.last().pts,
                dts: s.last().dts,
                data: s.last().data,
                is_keyframe: s.last().is_keyframe,
                duration: Some(d),
            },
        )
    }
}

/// Consistency of one track's queue: decode times increase (strictly when
/// `strict`), every sample but the last records the distance to its
/// successor, the last decode time is `prev`, and the last recorded delta is
/// that of the sample before the last or of the last.
pub open spec fn track_wf(s: Seq<SampleView>, prev: Option<u64>, strict: bool) -> bool {
    &&& forall|i: int, j: int|
        0 <= i < j < s.len() ==> if strict {
            s[i].dts < s[j].dts
        } else {
            s[i].dts <= s[j].dts
        }
    &&& forall|i: int|
        0 <= i < s.len() - 1 ==> #[trigger] s[i].duration == Some((s[i + 1].dts - s[i].dts) as u32)
            && s[i + 1].dts - s[i].dts <= u32::MAX
    &&& prev == (if s.len() == 0 {
        None
    } else {
        Some(s.last().dts)
    })
    &&& forall|i: int| 0 <= i < s.len() ==> (#[trigger] s[i]).data.len() <= u32::MAX
}

/// Consistency of the whole writer: both queues are consistent (video decode
/// times strictly increasing, audio presentation times non-decreasing and
/// equal to decode times), the first video sample is a keyframe, and audio is
/// only queued on an audio track.
pub open spec fn writer_wf(w: WriterState) -> bool {
    &&& track_wf(w.video_samples, w.video_prev_dts, true)
    &&& track_wf(w.audio_samples, w.audio_prev_pts, false)
    &&& w.video_samples.len() > 0 ==> w.video_samples[0].is_keyframe
    &&& forall|i: int| 0 <= i < w.audio_samples.len() ==> (#[trigger] w.audio_samples[i]).pts
        == w.audio_samples[i].dts && !w.audio_samples[i].is_keyframe
    &&& w.audio_samples.len() > 0 ==> w.audio_track is Some
}

/// `new` is `old` with only the video queue part given here replaced.
pub open spec fn same_except_video(
    old: WriterState,
    new: WriterState,
) -> bool {
    &&& new.video_codec == old.video_codec
    &&& new.audio_track == old.audio_track
    &&& new.audio_samples == old.audio_samples
    &&& new.audio_prev_pts == old.audio_prev_pts
    &&& new.audio_last_delta == old.audio_last_delta
    &&& new.finalized == old.finalized
    &&& new.bytes_written == old.bytes_written
}

/// `new` is `old` with only the audio queue changed.
pub open spec fn same_except_audio(
    old: WriterState,
    new: WriterState,
) -> bool {
    &&& new.video_codec == old.video_codec
    &&& new.video_samples == old.video_samples
    &&& new.video_prev_dts == old.video_prev_dts
    &&& new.video_last_delta == old.video_last_delta
    &&& new.video_config == old.video_config
    &&& new.audio_track == old.audio_track
    &&& new.finalized == old.finalized
    &&& new.bytes_written == old.bytes_written
}

/// The outcome of queuing a video frame with decode time `dts` on a writer
/// in state `old`: the result and the state `new` it leaves.
///
/// Refused without any change: a finalised writer; a decode time not above
/// the previous one, or more than 2^32-1 ticks above it; a first frame that
/// is not a keyframe or carries no configuration; a frame whose stored form
/// exceeds 2^32-1 bytes. Otherwise the previous frame's duration becomes
/// the decode-time distance, the first frame records its configuration, and
/// the frame is appended.
pub open spec fn video_write_spec(
    old: WriterState,
    new: WriterState,
    r: Result<(), Mp4WriterError>,
    pts: u64,
    dts: u64,
    data: Seq<u8>,
    is_keyframe: bool,
) -> bool {
    let stored = stored_video_data(old.video_codec, data);
    if old.finalized {
        r == Err::<(), Mp4WriterError>(Mp4WriterError::AlreadyFinalized) && new == old
    } else if old.video_prev_dts is Some && dts <= old.video_prev_dts->0 {
        r == Err::<(), Mp4WriterError>(Mp4WriterError::NonIncreasingTimestamp) && new == old
    } else if old.video_prev_dts is Some && dts - old.video_prev_dts->0 > u32::MAX {
        r == Err::<(), Mp4WriterError>(Mp4WriterError::DurationOverflow) && new == old
    } else if old.video_prev_dts is None && !is_keyframe {
        r == Err::<(), Mp4WriterError>(Mp4WriterError::FirstFrameMustBeKeyframe) && new == old
    } else if old.video_prev_dts is None && !keyframe_has_config(old.video_codec, data) {
        r == Err::<(), Mp4WriterError>(
            if old.video_codec == VideoCodec::Av1 {
                Mp4WriterError::FirstFrameMissingSequenceHeader
            } else {
                Mp4WriterError::FirstFrameMissingSpsPps
            },
        ) && new == old
    } else if stored.len() > u32::MAX {
        r == Err::<(), Mp4WriterError>(Mp4WriterError::DurationOverflow) && new == old
    } else {
        let sample = SampleView { pts, dts, data: stored, is_keyframe, duration: None };
        &&& r == Ok::<(), Mp4WriterError>(())
        &&& same_except_video(old, new)
        &&& new.video_prev_dts == Some(dts)
        &&& match old.video_prev_dts {
            Some(prev) => {
                let d = (dts - prev) as u32;
                &&& new.video_last_delta == Some(d)
                &&& new.video_config == old.video_config
                &&& new.video_samples == with_last_duration(old.video_samples, d).push(sample)
            },
            None => {
                &&& new.video_last_delta == old.video_last_delta
                &&& new.video_config matches Some(c) && config_from_keyframe(old.video_codec, data, c)
                &&& new.video_samples == old.video_samples.push(sample)
            },
        }
    }
}

/// How an audio frame is stored, when its framing is valid: AAC without its
/// ADTS header, Opus packets as given; no codec gives nothing.
pub open spec fn stored_audio_data(codec: AudioCodec, data: Seq<u8>) -> Option<Seq<u8>> {
    match codec {
        AudioCodec::Aac => spec_adts_to_raw(data),
        AudioCodec::Opus => if spec_is_valid_opus_packet(data) {
            Some(data)
        } else {
            None
        },
        AudioCodec::NoAudio => None,
    }
}

/// The error for an audio frame whose framing is invalid.
pub open spec fn audio_framing_error(codec: AudioCodec) -> Mp4WriterError {
    match codec {
        AudioCodec::Aac => Mp4WriterError::InvalidAdts,
        AudioCodec::Opus => Mp4WriterError::InvalidOpusPacket,
        AudioCodec::NoAudio => Mp4WriterError::AudioNotEnabled,
    }
}

/// The outcome of queuing an audio frame at `pts`.
///
/// Refused without any change: a finalised writer; no audio track; a time
/// below the previous one or more than 2^32-1 ticks above it; a frame whose
/// framing is invalid for the track's codec, or whose stored form exceeds
/// 2^32-1 bytes. Otherwise the previous frame's duration becomes the time
/// distance and the frame is appended.
pub open spec fn audio_write_spec(
    old: WriterState,
    new: WriterState,
    r: Result<(), Mp4WriterError>,
    pts: u64,
    data: Seq<u8>,
) -> bool {
    if old.finalized {
        r == Err::<(), Mp4WriterError>(Mp4WriterError::AlreadyFinalized) && new == old
    } else if old.audio_track is None {
        r == Err::<(), Mp4WriterError>(Mp4WriterError::AudioNotEnabled) && new == old
    } else if old.audio_prev_pts is Some && pts < old.audio_prev_pts->0 {
        r == Err::<(), Mp4WriterError>(Mp4WriterError::NonIncreasingTimestamp) && new == old
    } else if old.audio_prev_pts is Some && pts - old.audio_prev_pts->0 > u32::MAX {
        r == Err::<(), Mp4WriterError>(Mp4WriterError::DurationOverflow) && new == old
    } else {
        let codec = old.audio_track->0.codec;
        match stored_audio_data(codec, data) {
            None => r == Err::<(), Mp4WriterError>(audio_framing_error(codec)) && new == old,
            Some(stored) => if stored.len() > u32::MAX {
                r == Err::<(), Mp4WriterError>(Mp4WriterError::DurationOverflow) && new == old
            } else {
                let sample = SampleView { pts, dts: pts, data: stored, is_keyframe: false, duration: None };
                &&& r == Ok::<(), Mp4WriterError>(())
                &&& same_except_audio(old, new)
                &&& new.audio_prev_pts == Some(pts)
                &&& match old.audio_prev_pts {
                    Some(prev) => {
                        &&& new.audio_last_delta == Some((pts - prev) as u32)
                        &&& new.audio_samples == with_last_duration(old.audio_samples, (pts - prev) as u32).push(
                            sample,
                        )
                    },
                    None => {
                        &&& new.audio_last_delta == old.audio_last_delta
                        &&& new.audio_samples == old.audio_samples.push(sample)
                    },
                }
            },
        }
    }
}

/// A recorded delta, 0 when none.
pub open spec fn delta_value(d: Option<u32>) -> nat {
    match d {
        Some(x) => x as nat,
        None => 0,
    }
}

/// End time of a track: presentation time of its last sample plus the delta.
pub open spec fn track_end(s: Seq<SampleView>, d: Option<u32>) -> Option<int> {
    if s.len() == 0 {
        None
    } else {
        Some(s.last().pts + delta_value(d))
    }
}

/// Both track ends fit 64 bits.
pub open spec fn ends_fit(w: WriterState) -> bool {
    &&& track_end(w.video_samples, w.video_last_delta) matches Some(e) ==> e <= u64::MAX
    &&& track_end(w.audio_samples, w.audio_last_delta) matches Some(e) ==> e <= u64::MAX
}

/// The latest of the two track ends.
pub open spec fn spec_max_end(w: WriterState) -> Option<u64> {
    match (track_end(w.video_samples, w.video_last_delta), track_end(w.audio_samples, w.audio_last_delta)) {
        (Some(x), Some(y)) => Some((if x >= y { x } else { y }) as u64),
        (Some(x), None) => Some(x as u64),
        (None, Some(y)) => Some(y as u64),
        (None, None) => None,
    }
}

impl Mp4Writer {
    /// A writer for a file whose video track uses `video_codec`; nothing is
    /// queued and there is no audio track yet.
    pub fn new(video_codec: VideoCodec) -> (r: Self)
        ensures
            r@.video_codec == video_codec,
            r@.video_samples.len() == 0,
            r@.audio_samples.len() == 0,
            r@.video_prev_dts is None,
            r@.video_last_delta is None,
            r@.video_config is None,
            r@.audio_track is None,
            r@.audio_prev_pts is None,
            r@.audio_last_delta is None,
            !r@.finalized,
            r@.bytes_written == 0,
            writer_wf(r@),
    {
        let r = Mp4Writer {
            video_codec,
            video_samples: Vec::new(),
            video_prev_pts: None,
            video_last_delta: None,
            video_config: None,
            audio_track: None,
            audio_samples: Vec::new(),
            audio_prev_pts: None,
            audio_last_delta: None,
            finalized: false,
            bytes_written: 0,
        };
        assert(r@.video_samples =~= Seq::<SampleView>::empty());
        assert(r@.audio_samples =~= Seq::<SampleView>::empty());
        r
    }

    /// A writer for a video track of `video_codec` and, when `audio` is
    /// given, an audio track with its codec, rate and channels.
    pub fn for_tracks(video_codec: VideoCodec, audio: Option<AudioTrackConfig>) -> (r: Self)
        ensures
            r@.video_codec == video_codec,
            r@.video_samples.len() == 0,
            r@.audio_samples.len() == 0,
            r@.video_prev_dts is None,
            r@.video_last_delta is None,
            r@.video_config is None,
            r@.audio_track == match audio {
                Some(a) => Some(Mp4AudioTrack { sample_rate: a.sample_rate, channels: a.channels, codec: a.codec }),
                None => None,
            },
            r@.audio_prev_pts is None,
            r@.audio_last_delta is None,
            !r@.finalized,
            r@.bytes_written == 0,
            writer_wf(r@),
    {
        let mut w = Mp4Writer::new(video_codec);
        match audio {
            Some(a) => {
                w.enable_audio(Mp4AudioTrack { sample_rate: a.sample_rate, channels: a.channels, codec: a.codec });
            },
            None => {},
        }
        w
    }

    /// Number of queued video samples.
    pub fn video_sample_count(&self) -> (r: u64)
        ensures
            r == self@.video_samples.len(),
    {
        self.video_samples.len() as u64
    }

    /// Number of queued audio samples.
    pub fn audio_sample_count(&self) -> (r: u64)
        ensures
            r == self@.audio_samples.len(),
    {
        self.audio_samples.len() as u64
    }

    /// Bytes of the finished file (0 before finalisation).
    pub fn bytes_written(&self) -> (r: u64)
        ensures
            r == self@.bytes_written,
    {
        self.bytes_written
    }

    /// Whether the end time of each track (presentation time of its last
    /// sample plus its last recorded delta) fits 64 bits.
    pub fn end_times_fit(&self) -> (r: bool)
        ensures
            r == ends_fit(self@),
    {
        let v = match self.video_samples.last() {
            Some(s) => s.pts <= u64::MAX - Self::delta_or_zero(self.video_last_delta),
            None => true,
        };
        let a = match self.audio_samples.last() {
            Some(s) => s.pts <= u64::MAX - Self::delta_or_zero(self.audio_last_delta),
            None => true,
        };
        v && a
    }

    fn delta_or_zero(d: Option<u32>) -> (r: u64)
        ensures
            r == delta_value(d),
    {
        match d {
            Some(x) => x as u64,
            None => 0,
        }
    }

    /// The latest end time over both tracks: the presentation time of a
    /// track's last sample plus its last recorded delta; `None` when no
    /// sample is queued.
    pub fn max_end_pts(&self) -> (r: Option<u64>)
        requires
            ends_fit(self@),
        ensures
            r == spec_max_end(self@),
    {
        let v: Option<u64> = match self.video_samples.last() {
            Some(s) => Some(s.pts + Self::delta_or_zero(self.video_last_delta)),
            None => None,
        };
        let a: Option<u64> = match self.audio_samples.last() {
            Some(s) => Some(s.pts + Self::delta_or_zero(self.audio_last_delta)),
            None => None,
        };
        match (v, a) {
            (Some(x), Some(y)) => Some(if x >= y { x } else { y }),
            (Some(x), None) => Some(x),
            (None, Some(y)) => Some(y),
            (None, None) => None,
        }
    }

    /// Adds an audio track (replacing any earlier one).
    pub fn enable_audio(&mut self, track: Mp4AudioTrack)
        ensures
            final(self)@ == (WriterState { audio_track: Some(track), ..old(self)@ }),
    {
        self.audio_track = Some(track);
    }

    /// Sets the duration of the last queued sample of a queue.
    fn set_last_duration(samples: &mut Vec<SampleInfo>, d: u32)
        ensures
            final(samples)@.map_values(|s: SampleInfo| s@) == with_last_duration(
                old(samples)@.map_values(|s: SampleInfo| s@),
                d,
            ),
    {
        let ghost before = samples@.map_values(|s: SampleInfo| s@);
        if samples.len() > 0 {
            let mut last = samples.pop().unwrap();
            last.duration = Some(d);
            samples.push(last);
            assert(samples@.map_values(|s: SampleInfo| s@) =~= with_last_duration(before, d));
        }
    }

    /// Queues a video sample whose decode time equals its presentation time.
    pub fn write_video_sample(&mut self, pts: u64, data: &[u8], is_keyframe: bool) -> (r: Result<
        (),
        Mp4WriterError,
    >)
        ensures
            video_write_spec(old(self)@, final(self)@, r, pts, pts, data@, is_keyframe),
    {
        self.write_video_sample_with_dts(pts, pts, data, is_keyframe)
    }

    /// Queues a video sample with an explicit decode time (for B-frames):
    /// decode times must strictly increase; the first sample must be a
    /// keyframe carrying the codec configuration.
    pub fn write_video_sample_with_dts(
        &mut self,
        pts: u64,
        dts: u64,
        data: &[u8],
        is_keyframe: bool,
    ) -> (r: Result<(), Mp4WriterError>)
        ensures
            video_write_spec(old(self)@, final(self)@, r, pts, dts, data@, is_keyframe),
    {
        if self.finalized {
            return Err(Mp4WriterError::AlreadyFinalized);
        }
        let mut delta: Option<u32> = None;
        let mut config: Option<VideoConfig> = None;
        match self.video_prev_pts {
            Some(prev) => {
                if dts <= prev {
                    return Err(Mp4WriterError::NonIncreasingTimestamp);
                }
                let d = dts - prev;
                if d > u32::MAX as u64 {
                    return Err(Mp4WriterError::DurationOverflow);
                }
                delta = Some(d as u32);
            },
            None => {
                if !is_keyframe {
                    return Err(Mp4WriterError::FirstFrameMustBeKeyframe);
                }
                config = match self.video_codec {
                    VideoCodec::H264 => match extract_avc_config(data) {
                        Some(c) => Some(VideoConfig::Avc(c)),
                        None => None,
                    },
                    VideoCodec::H265 => match extract_hevc_config(data) {
                        Some(c) => Some(VideoConfig::Hevc(c)),
                        None => None,
                    },
                    VideoCodec::Av1 => match extract_av1_config(data) {
                        Some(c) => Some(VideoConfig::Av1(c)),
                        None => None,
                    },
                };
                if config.is_none() {
                    return Err(
                        match self.video_codec {
                            VideoCodec::Av1 => Mp4WriterError::FirstFrameMissingSequenceHeader,
                            _ => Mp4WriterError::FirstFrameMissingSpsPps,
                        },
                    );
                }
            },
        }
        let converted = match self.video_codec {
            VideoCodec::H264 => annexb_to_avcc(data),
            VideoCodec::H265 => hevc_annexb_to_hvcc(data),
            VideoCodec::Av1 => crate::codec::annexb::copy_range(data, 0, data.len()),
        };
        assert(data@.subrange(0, data@.len() as int) =~= data@);
        if converted.len() > u32::MAX as usize {
            return Err(Mp4WriterError::DurationOverflow);
        }
        match delta {
            Some(d) => {
                Self::set_last_duration(&mut self.video_samples, d);
                self.video_last_delta = Some(d);
            },
            None => {
                self.video_config = config;
            },
        }
        let ghost before = self.video_samples@.map_values(|s: SampleInfo| s@);
        let ghost stored = converted@;
        self.video_samples.push(
            SampleInfo { pts, dts, data: converted, is_keyframe, duration: None },
        );
        assert(self.video_samples@.map_values(|s: SampleInfo| s@) =~= before.push(
            SampleView { pts, dts, data: stored, is_keyframe, duration: None },
        ));
        self.video_prev_pts = Some(dts);
        Ok(())
    }

    /// Queues an audio sample: times must not decrease; AAC frames lose their
    /// ADTS header, Opus packets must be well framed.
    pub fn write_audio_sample(&mut self, pts: u64, data: &[u8]) -> (r: Result<(), Mp4WriterError>)
        ensures
            audio_write_spec(old(self)@, final(self)@, r, pts, data@),
    {
        if self.finalized {
            return Err(Mp4WriterError::AlreadyFinalized);
        }
        let codec = match self.audio_track {
            Some(t) => t.codec,
            None => {
                return Err(Mp4WriterError::AudioNotEnabled);
            },
        };
        let mut delta: Option<u32> = None;
        match self.audio_prev_pts {
            Some(prev) => {
                if pts < prev {
                    return Err(Mp4WriterError::NonIncreasingTimestamp);
                }
                let d = pts - prev;
                if d > u32::MAX as u64 {
                    return Err(Mp4WriterError::DurationOverflow);
                }
                delta = Some(d as u32);
            },
            None => {},
        }
        let sample_data = match codec {
            AudioCodec::Aac => match adts_to_raw(data) {
                Some(raw) => raw,
                None => {
                    return Err(Mp4WriterError::InvalidAdts);
                },
            },
            AudioCodec::Opus => {
                if !is_valid_opus_packet(data) {
                    return Err(Mp4WriterError::InvalidOpusPacket);
                }
                let v = crate::codec::annexb::copy_range(data, 0, data.len());
                assert(data@.subrange(0, data@.len() as int) =~= data@);
                v
            },
            AudioCodec::NoAudio => {
                return Err(Mp4WriterError::AudioNotEnabled);
            },
        };
        if sample_data.len() > u32::MAX as usize {
            return Err(Mp4WriterError::DurationOverflow);
        }
        match delta {
            Some(d) => {
                Self::set_last_duration(&mut self.audio_samples, d);
                self.audio_last_delta = Some(d);
            },
            None => {},
        }
        let ghost before = self.audio_samples@.map_values(|s: SampleInfo| s@);
        let ghost stored = sample_data@;
        self.audio_samples.push(
            SampleInfo { pts, dts: pts, data: sample_data, is_keyframe: false, duration: None },
        );
        assert(self.audio_samples@.map_values(|s: SampleInfo| s@) =~= before.push(
            SampleView { pts, dts: pts, data: stored, is_keyframe: false, duration: None },
        ));
        self.audio_prev_pts = Some(pts);
        Ok(())
    }

    /// Bytes of the samples, saturating at `u64::MAX`.
    fn payload_capped(samples: &Vec<SampleInfo>) -> (r: u64)
        ensures
            r == (if total_size(samples@.map_values(|x: SampleInfo| x@)) <= u64::MAX {
                total_size(samples@.map_values(|x: SampleInfo| x@))
            } else {
                u64::MAX as nat
            }),
    {
        let ghost sv = samples@.map_values(|x: SampleInfo| x@);
        let mut total: u64 = 0;
        let mut i: usize = 0;
        while i < samples.len()
            invariant
                i <= samples@.len(),
                sv == samples@.map_values(|x: SampleInfo| x@),
                total == (if total_size(sv.take(i as int)) <= u64::MAX {
                    total_size(sv.take(i as int))
                } else {
                    u64::MAX as nat
                }),
            decreases samples@.len() - i,
        {
            let len = samples[i].data.len() as u64;
            assert(sv.take(i + 1).drop_last() =~= sv.take(i as int));
            total = total.saturating_add(len);
            i = i + 1;
        }
        assert(sv.take(samples@.len() as int) =~= sv);
        total
    }

    /// Appends the samples' bytes in order.
    fn push_samples(out: &mut Vec<u8>, samples: &Vec<SampleInfo>)
        ensures
            final(out)@ == old(out)@ + concat_data(samples@.map_values(|x: SampleInfo| x@)),
    {
        let ghost sv = samples@.map_values(|x: SampleInfo| x@);
        let mut i: usize = 0;
        while i < samples.len()
            invariant
                i <= samples@.len(),
                sv == samples@.map_values(|x: SampleInfo| x@),
                out@ == old(out)@ + concat_data(sv.take(i as int)),
            decreases samples@.len() - i,
        {
            push_bytes(out, samples[i].data.as_slice());
            assert(sv.take(i + 1).drop_last() =~= sv.take(i as int));
            i = i + 1;
            assert(out@ =~= old(out)@ + concat_data(sv.take(i as int)));
        }
        assert(sv.take(samples@.len() as int) =~= sv);
    }

    /// The interleaving schedule of the queued samples.
    fn build_schedule(&self) -> (r: Vec<(u64, u8, usize)>)
        ensures
            r@ == schedule(self@),
            r@.len() == self@.video_samples.len() + self@.audio_samples.len(),
            entries_valid(self@, r@),
    {
        let ghost w = self@;
        let mut entries: Vec<(u64, u8, usize)> = Vec::new();
        let mut i: usize = 0;
        while i < self.video_samples.len()
            invariant
                i <= self.video_samples@.len(),
                w == self@,
                entries@ == Seq::new(i as nat, |k: int| (w.video_samples[k].pts, 0u8, k as usize)),
            decreases self.video_samples@.len() - i,
        {
            entries.push((self.video_samples[i].pts, 0u8, i));
            i = i + 1;
            assert(entries@ =~= Seq::new(i as nat, |k: int| (w.video_samples[k].pts, 0u8, k as usize)));
        }
        let ghost video_part = entries@;
        let mut j: usize = 0;
        while j < self.audio_samples.len()
            invariant
                j <= self.audio_samples@.len(),
                w == self@,
                entries@ == video_part + Seq::new(j as nat, |k: int| (w.audio_samples[k].pts, 1u8, k as usize)),
            decreases self.audio_samples@.len() - j,
        {
            entries.push((self.audio_samples[j].pts, 1u8, j));
            j = j + 1;
            assert(entries@ =~= video_part + Seq::new(
                j as nat,
                |k: int| (w.audio_samples[k].pts, 1u8, k as usize),
            ));
        }
        let ghost unsorted = entries@;
        assert(unsorted =~= schedule_entries(w));
        assert(entries_valid(w, unsorted));
        sort_schedule(&mut entries);
        proof {
            let leq = |a: Entry, b: Entry| sched_leq(a, b);
            lemma_sched_leq_total();
            unsorted.lemma_sort_by_ensures(leq);
            vstd::seq_lib::lemma_sorted_unique(entries@, unsorted.sort_by(leq), leq);
            vstd::seq_lib::to_multiset_len(entries@);
            vstd::seq_lib::to_multiset_len(unsorted);
            assert forall|k: int| 0 <= k < entries@.len() implies ((#[trigger] entries@[k]).1 == 0
                && (entries@[k].2 as int) < w.video_samples.len()) || (entries@[k].1 == 1
                && (entries@[k].2 as int) < w.audio_samples.len()) by {
                broadcast use vstd::seq_lib::group_to_multiset_ensures;
                assert(entries@.to_multiset().count(entries@[k]) > 0);
                assert(unsorted.contains(entries@[k]));
            }
        }
        entries
    }

    /// Walks the schedule from `base`, recording each sample's offset; `None`
    /// when a position passes 2^32-1.
    fn walk_offsets(&self, sched: &Vec<(u64, u8, usize)>, base: u32, unit: bool) -> (r: Option<
        (Vec<u32>, Vec<u32>),
    >)
        requires
            entries_valid(self@, sched@),
        ensures
            match r {
                Some((vo, ao)) => {
                    let wk = walk(self@, sched@, base as nat, unit, sched@.len() as int);
                    wk.2 <= u32::MAX && vo@ == wk.0 && ao@ == wk.1
                },
                None => walk(self@, sched@, base as nat, unit, sched@.len() as int).2 > u32::MAX,
            },
    {
        let ghost w = self@;
        let mut vo = Self::zero_offsets(self.video_samples.len());
        let mut ao = Self::zero_offsets(self.audio_samples.len());
        let mut cursor: u32 = base;
        let mut k: usize = 0;
        while k < sched.len()
            invariant
                k <= sched@.len(),
                w == self@,
                entries_valid(w, sched@),
                vo@ == walk(w, sched@, base as nat, unit, k as int).0,
                ao@ == walk(w, sched@, base as nat, unit, k as int).1,
                cursor == walk(w, sched@, base as nat, unit, k as int).2,
            decreases sched@.len() - k,
        {
            let (_, kind, idx) = sched[k];
            assert(entries_valid(w, sched@));
            let size: usize = if unit {
                1
            } else if kind == 0 {
                self.video_samples[idx].data.len()
            } else {
                self.audio_samples[idx].data.len()
            };
            proof {
                if !unit {
                    assert(size == entry_data(w, sched@[k as int]).len());
                }
                lemma_walk_lens(w, sched@, base as nat, unit, k as int);
            }
            if kind == 0 {
                vo.set(idx, cursor);
            } else {
                ao.set(idx, cursor);
            }
            if size > (u32::MAX - cursor) as usize {
                proof {
                    self.lemma_walk_monotone(sched@, base as nat, unit, k as int + 1, sched@.len() as int);
                }
                return None;
            }
            cursor = cursor + size as u32;
            k = k + 1;
        }
        Some((vo, ao))
    }

    /// `n` offsets of zero.
    fn zero_offsets(n: usize) -> (r: Vec<u32>)
        ensures
            r@ == Seq::new(n as nat, |i: int| 0u32),
    {
        let mut v: Vec<u32> = Vec::new();
        let mut i: usize = 0;
        while i < n
            invariant
                i <= n,
                v@ == Seq::new(i as nat, |j: int| 0u32),
            decreases n - i,
        {
            v.push(0);
            i = i + 1;
            assert(v@ =~= Seq::new(i as nat, |j: int| 0u32));
        }
        v
    }

    proof fn lemma_walk_monotone(&self, sched: Seq<Entry>, base: nat, unit: bool, k1: int, k2: int)
        requires
            0 <= k1 <= k2,
        ensures
            walk(self@, sched, base, unit, k1).2 <= walk(self@, sched, base, unit, k2).2,
        decreases k2 - k1,
    {
        if k1 < k2 {
            self.lemma_walk_monotone(sched, base, unit, k1, k2 - 1);
        }
    }

    /// Appends the scheduled samples' bytes in order.
    fn push_interleaved(&self, out: &mut Vec<u8>, sched: &Vec<(u64, u8, usize)>)
        requires
            entries_valid(self@, sched@),
        ensures
            final(out)@ == old(out)@ + interleaved_bytes(self@, sched@, sched@.len() as int),
    {
        let ghost w = self@;
        let mut k: usize = 0;
        while k < sched.len()
            invariant
                k <= sched@.len(),
                w == self@,
                entries_valid(w, sched@),
                out@ == old(out)@ + interleaved_bytes(w, sched@, k as int),
            decreases sched@.len() - k,
        {
            let (_, kind, idx) = sched[k];
            assert(entries_valid(w, sched@));
            if kind == 0 {
                push_bytes(out, self.video_samples[idx].data.as_slice());
            } else {
                push_bytes(out, self.audio_samples[idx].data.as_slice());
            }
            k = k + 1;
            assert(out@ =~= old(out)@ + interleaved_bytes(w, sched@, k as int));
        }
    }
}


/// Whether the file can carry a codec configuration: one was recorded from
/// the first keyframe, or the codec is H.264, whose default one is used.
pub open spec fn config_available(w: WriterState) -> bool {
    w.video_config is Some || w.video_codec == VideoCodec::H264
}

/// The metadata that an optional reference stands for.
pub open spec fn meta_value(metadata: Option<&Metadata>) -> Option<Metadata> {
    match metadata {
        Some(m) => Some(*m),
        None => None,
    }
}

/// Walking with unit sizes advances the position by one per entry.
proof fn lemma_walk_unit(w: WriterState, sched: Seq<Entry>, base: nat, k: int)
    requires
        0 <= k,
    ensures
        walk(w, sched, base, true, k).2 == base + k,
    decreases k,
{
    if k > 0 {
        lemma_walk_unit(w, sched, base, k - 1);
    }
}

impl Mp4Writer {
    /// The `mdat` size field: 8 plus the bytes of all queued samples, when
    /// that fits 32 bits.
    fn mdat_size(&self) -> (r: Option<u32>)
        ensures
            match r {
                Some(s) => payload_size(self@) + 8 <= u32::MAX && s == payload_size(self@) + 8,
                None => payload_size(self@) + 8 > u32::MAX,
            },
    {
        let pv = Self::payload_capped(&self.video_samples);
        let pa = Self::payload_capped(&self.audio_samples);
        if pv <= 0xffff_fff7u64 && pa <= 0xffff_fff7u64 - pv {
            Some((8 + pv + pa) as u32)
        } else {
            None
        }
    }

    /// Tables of a track stored as one chunk at `offset` (no chunk when it
    /// has no sample).
    fn single_chunk(samples: &Vec<SampleInfo>, offset: u32, fallback: Option<u32>) -> (r: SampleTables)
        requires
            samples@.len() < u32::MAX,
        ensures
            r@ == single_chunk_tables(samples@.map_values(|s: SampleInfo| s@), offset, fallback),
    {
        if samples.len() == 0 {
            let offsets: Vec<u32> = Vec::new();
            assert(offsets@ =~= Seq::<u32>::empty());
            SampleTables::from_samples(samples, offsets, 0, fallback)
        } else {
            let mut offsets: Vec<u32> = Vec::new();
            offsets.push(offset);
            assert(offsets@ =~= seq![offset]);
            SampleTables::from_samples(samples, offsets, samples.len() as u32, fallback)
        }
    }

    /// `ftyp`, `mdat`, `moov` of a file without audio track (no `mdat` when
    /// there is no sample).
    fn file_standard_video(
        &self,
        video: &Mp4VideoTrack,
        metadata: Option<&Metadata>,
        cfg: &VideoConfig,
    ) -> (r: Option<Vec<u8>>)
        requires
            self@.audio_track is None,
            self@.video_samples.len() < u32::MAX,
            cfg@ == file_config(self@),
            metadata matches Some(m) ==> metadata_renderable(*m),
        ensures
            r is Some <==> ((self@.video_samples.len() > 0 ==> payload_size(self@) + 8 <= u32::MAX)
                && file_moov(self@, *video, meta_value(metadata), false).len() <= u32::MAX),
            r matches Some(b) ==> b@ == spec_file(self@, *video, meta_value(metadata), false),
    {
        let ghost w = self@;
        let ghost meta = meta_value(metadata);
        let mut out = build_ftyp_box();
        if self.video_samples.len() == 0 {
            let tables = Self::single_chunk(&self.video_samples, 32, self.video_last_delta);
            let mut moov = build_moov_box(video, &tables, None, cfg, metadata);
            assert(moov@ == file_moov(w, *video, meta, false));
            if moov.len() > u32::MAX as usize {
                return None;
            }
            out.append(&mut moov);
            assert(out@ == spec_file(w, *video, meta, false));
            return Some(out);
        }
        let size = match self.mdat_size() {
            Some(s) => s,
            None => {
                return None;
            },
        };
        let tables = Self::single_chunk(&self.video_samples, 32, self.video_last_delta);
        let mut moov = build_moov_box(video, &tables, None, cfg, metadata);
        assert(moov@ == file_moov(w, *video, meta, false));
        if moov.len() > u32::MAX as usize {
            return None;
        }
        push_u32(&mut out, size);
        push_u32(&mut out, MDAT);
        Self::push_samples(&mut out, &self.video_samples);
        out.append(&mut moov);
        assert(out@ =~= spec_file(w, *video, meta, false));
        Some(out)
    }

    /// `ftyp`, `mdat` with the samples interleaved, `moov`.
    fn file_standard_interleaved(
        &self,
        video: &Mp4VideoTrack,
        metadata: Option<&Metadata>,
        cfg: &VideoConfig,
    ) -> (r: Option<Vec<u8>>)
        requires
            self@.audio_track is Some,
            self@.video_samples.len() < u32::MAX,
            self@.audio_samples.len() < u32::MAX,
            cfg@ == file_config(self@),
            metadata matches Some(m) ==> metadata_renderable(*m),
        ensures
            r is Some <==> (walk(self@, schedule(self@), 32, false, schedule(self@).len() as int).2
                <= u32::MAX && payload_size(self@) + 8 <= u32::MAX && file_moov(
                self@,
                *video,
                meta_value(metadata),
                false,
            ).len() <= u32::MAX),
            r matches Some(b) ==> b@ == spec_file(self@, *video, meta_value(metadata), false),
    {
        let ghost w = self@;
        let ghost meta = meta_value(metadata);
        let sched = self.build_schedule();
        let (vo, ao) = match self.walk_offsets(&sched, 32, false) {
            Some(p) => p,
            None => {
                return None;
            },
        };
        let size = match self.mdat_size() {
            Some(s) => s,
            None => {
                return None;
            },
        };
        let vt = SampleTables::from_samples(&self.video_samples, vo, 1, self.video_last_delta);
        let at = SampleTables::from_samples(&self.audio_samples, ao, 1, self.audio_last_delta);
        let track = self.audio_track.unwrap();
        let mut out = build_ftyp_box();
        push_u32(&mut out, size);
        push_u32(&mut out, MDAT);
        self.push_interleaved(&mut out, &sched);
        let mut moov = build_moov_box(video, &vt, Some((&track, &at)), cfg, metadata);
        assert(moov@ == file_moov(w, *video, meta, false));
        if moov.len() > u32::MAX as usize {
            return None;
        }
        out.append(&mut moov);
        assert(out@ =~= spec_file(w, *video, meta, false));
        Some(out)
    }

    /// `ftyp`, `moov`, `mdat` of a file without audio track.
    fn file_fast_video(
        &self,
        video: &Mp4VideoTrack,
        metadata: Option<&Metadata>,
        cfg: &VideoConfig,
    ) -> (r: Option<Vec<u8>>)
        requires
            self@.audio_track is None,
            self@.video_samples.len() < u32::MAX,
            cfg@ == file_config(self@),
            metadata matches Some(m) ==> metadata_renderable(*m),
        ensures
            r is Some <==> (payload_size(self@) + 8 <= u32::MAX && 32 + fast_start_moov_len(
                self@,
                *video,
                meta_value(metadata),
            ) <= u32::MAX),
            r matches Some(b) ==> b@ == spec_file(self@, *video, meta_value(metadata), true),
    {
        let ghost w = self@;
        let ghost meta = meta_value(metadata);
        let size = match self.mdat_size() {
            Some(s) => s,
            None => {
                return None;
            },
        };
        let placeholder = Self::single_chunk(&self.video_samples, 0, self.video_last_delta);
        let measured = build_moov_box(video, &placeholder, None, cfg, metadata);
        assert(measured@.len() == fast_start_moov_len(w, *video, meta));
        if measured.len() > (u32::MAX - 32) as usize {
            return None;
        }
        let start: u32 = 32 + measured.len() as u32;
        let tables = Self::single_chunk(&self.video_samples, start, self.video_last_delta);
        let mut moov = build_moov_box(video, &tables, None, cfg, metadata);
        assert(moov@ == file_moov(w, *video, meta, true));
        let mut out = build_ftyp_box();
        out.append(&mut moov);
        push_u32(&mut out, size);
        push_u32(&mut out, MDAT);
        Self::push_samples(&mut out, &self.video_samples);
        assert(out@ =~= spec_file(w, *video, meta, true));
        Some(out)
    }

    /// `ftyp`, `moov`, `mdat` with the samples interleaved.
    fn file_fast_interleaved(
        &self,
        video: &Mp4VideoTrack,
        metadata: Option<&Metadata>,
        cfg: &VideoConfig,
    ) -> (r: Option<Vec<u8>>)
        requires
            self@.audio_track is Some,
            self@.video_samples.len() < u32::MAX,
            self@.audio_samples.len() < u32::MAX,
            cfg@ == file_config(self@),
            metadata matches Some(m) ==> metadata_renderable(*m),
        ensures
            r is Some <==> ({
                let moov_len = fast_start_moov_len(self@, *video, meta_value(metadata));
                &&& self@.video_samples.len() + self@.audio_samples.len() <= u32::MAX
                &&& 32 + moov_len <= u32::MAX
                &&& walk(self@, schedule(self@), 32 + moov_len, false, schedule(self@).len() as int).2
                    <= u32::MAX
                &&& payload_size(self@) + 8 <= u32::MAX
            }),
            r matches Some(b) ==> b@ == spec_file(self@, *video, meta_value(metadata), true),
    {
        let ghost w = self@;
        let ghost meta = meta_value(metadata);
        let sched = self.build_schedule();
        proof {
            lemma_walk_unit(w, sched@, 0, sched@.len() as int);
        }
        let (pvo, pao) = match self.walk_offsets(&sched, 0, true) {
            Some(p) => p,
            None => {
                return None;
            },
        };
        let size = match self.mdat_size() {
            Some(s) => s,
            None => {
                return None;
            },
        };
        let pvt = SampleTables::from_samples(&self.video_samples, pvo, 1, self.video_last_delta);
        let pat = SampleTables::from_samples(&self.audio_samples, pao, 1, self.audio_last_delta);
        let track = self.audio_track.unwrap();
        let measured = build_moov_box(video, &pvt, Some((&track, &pat)), cfg, metadata);
        assert(measured@.len() == fast_start_moov_len(w, *video, meta));
        if measured.len() > (u32::MAX - 32) as usize {
            return None;
        }
        let start: u32 = 32 + measured.len() as u32;
        let (vo, ao) = match self.walk_offsets(&sched, start, false) {
            Some(p) => p,
            None => {
                return None;
            },
        };
        let vt = SampleTables::from_samples(&self.video_samples, vo, 1, self.video_last_delta);
        let at = SampleTables::from_samples(&self.audio_samples, ao, 1, self.audio_last_delta);
        let mut moov = build_moov_box(video, &vt, Some((&track, &at)), cfg, metadata);
        assert(moov@ == file_moov(w, *video, meta, true));
        let mut out = build_ftyp_box();
        out.append(&mut moov);
        push_u32(&mut out, size);
        push_u32(&mut out, MDAT);
        self.push_interleaved(&mut out, &sched);
        assert(out@ =~= spec_file(w, *video, meta, true));
        Some(out)
    }

    /// Lays the file out: the bytes of the whole file, or `None` when a size
    /// or offset does not fit its 32-bit field.
    fn build_file(
        &self,
        video: &Mp4VideoTrack,
        metadata: Option<&Metadata>,
        fast_start: bool,
        cfg: &VideoConfig,
    ) -> (r: Option<Vec<u8>>)
        requires
            cfg@ == file_config(self@),
            metadata matches Some(m) ==> metadata_renderable(*m),
        ensures
            r is Some <==> layout_fits(self@, *video, meta_value(metadata), fast_start),
            r matches Some(b) ==> b@ == spec_file(self@, *video, meta_value(metadata), fast_start),
    {
        if self.video_samples.len() >= u32::MAX as usize || self.audio_samples.len() >= u32::MAX as usize {
            return None;
        }
        match (self.audio_track.is_some(), fast_start) {
            (false, false) => self.file_standard_video(video, metadata, cfg),
            (true, false) => self.file_standard_interleaved(video, metadata, cfg),
            (false, true) => self.file_fast_video(video, metadata, cfg),
            (true, true) => self.file_fast_interleaved(video, metadata, cfg),
        }
    }

    /// Finalises the file: lays out `ftyp`, `moov` and `mdat` (with fast
    /// start the `moov` comes before the `mdat`) and returns its bytes.
    ///
    /// Fails, leaving the writer unchanged, on a writer finalised before and
    /// on an H.265 or AV1 writer that recorded no configuration; otherwise
    /// the writer becomes finalised, and the layout is refused exactly when a
    /// size or offset does not fit the format's 32-bit fields.
    pub fn finalize(&mut self, video: &Mp4VideoTrack, metadata: Option<&Metadata>, fast_start: bool) -> (r:
        Result<Vec<u8>, FinalizeError>)
        requires
            metadata matches Some(m) ==> metadata_renderable(*m),
        ensures
            old(self)@.finalized ==> r == Err::<Vec<u8>, FinalizeError>(FinalizeError::AlreadyFinalized)
                && final(self)@ == old(self)@,
            !old(self)@.finalized && !config_available(old(self)@) ==> r == Err::<Vec<u8>, FinalizeError>(
                FinalizeError::MissingCodecConfig,
            ) && final(self)@ == old(self)@,
            !old(self)@.finalized && config_available(old(self)@) ==> {
                let meta = meta_value(metadata);
                &&& (r is Ok <==> layout_fits(old(self)@, *video, meta, fast_start))
                &&& r matches Ok(b) ==> b@ == spec_file(old(self)@, *video, meta, fast_start)
                    && final(self)@ == (WriterState {
                    finalized: true,
                    bytes_written: b@.len() as u64,
                    ..old(self)@
                })
                &&& r matches Err(e) ==> e == FinalizeError::LayoutOverflow && final(self)@ == (
                WriterState { finalized: true, ..old(self)@ })
            },
    {
        if self.finalized {
            return Err(FinalizeError::AlreadyFinalized);
        }
        if self.video_config.is_none() && self.video_codec != VideoCodec::H264 {
            return Err(FinalizeError::MissingCodecConfig);
        }
        let fallback = VideoConfig::Avc(default_avc_config());
        let built = match &self.video_config {
            Some(c) => self.build_file(video, metadata, fast_start, c),
            None => self.build_file(video, metadata, fast_start, &fallback),
        };
        self.finalized = true;
        match built {
            Some(bytes) => {
                self.bytes_written = bytes.len() as u64;
                Ok(bytes)
            },
            None => Err(FinalizeError::LayoutOverflow),
        }
    }
}

} // verus!
