//! Public value types of the muxer: codecs, track descriptions and file
//! metadata.

use vstd::prelude::*;

verus! {

/// Supported video codecs.
#[derive(Debug, Clone, Copy, PartialEq, Eq, Structural)]
pub enum VideoCodec {
    /// H.264/AVC in Annex B stream format.
    H264,
    /// H.265/HEVC in Annex B stream format with VPS/SPS/PPS.
    H265,
    /// AV1 in OBU stream format.
    Av1,
}

/// Supported audio codecs.
#[derive(Debug, Clone, Copy, PartialEq, Eq, Structural)]
pub enum AudioCodec {
    /// AAC with ADTS framing.
    Aac,
    /// Opus (raw packets, 48 kHz).
    Opus,
    /// No audio track.
    NoAudio,
}

impl VideoCodec {
    /// The codec that a numeric code of the C interface names: 0 H.264,
    /// 1 H.265, 2 AV1.
    pub fn from_code(code: i32) -> (r: Option<Self>)
        ensures
            r == (if code == 0 {
                Some(VideoCodec::H264)
            } else if code == 1 {
                Some(VideoCodec::H265)
            } else if code == 2 {
                Some(VideoCodec::Av1)
            } else {
                None::<VideoCodec>
            }),
    {
        match code {
            0 => Some(VideoCodec::H264),
            1 => Some(VideoCodec::H265),
            2 => Some(VideoCodec::Av1),
            _ => None,
        }
    }
}

impl AudioCodec {
    /// The codec that a numeric code of the C interface names: 0 to 3 the
    /// AAC profiles (LC, Main, HE, HEv2), all written as AAC; 4 Opus.
    pub fn from_code(code: i32) -> (r: Option<Self>)
        ensures
            r == (if 0 <= code <= 3 {
                Some(AudioCodec::Aac)
            } else if code == 4 {
                Some(AudioCodec::Opus)
            } else {
                None::<AudioCodec>
            }),
    {
        if 0 <= code && code <= 3 {
            Some(AudioCodec::Aac)
        } else if code == 4 {
            Some(AudioCodec::Opus)
        } else {
            None
        }
    }
}

/// Configuration for an audio track.
#[derive(Debug, Clone, Copy, PartialEq, Eq, Structural)]
pub struct AudioTrackConfig {
    /// Audio codec.
    pub codec: AudioCodec,
    /// Sample rate (Hz).
    pub sample_rate: u32,
    /// Number of audio channels.
    pub channels: u16,
}

/// The audio track that a codec, sample rate and channel count describe:
/// none for `NoAudio`, whose rate and channels are ignored.
pub open spec fn spec_audio_track_config(codec: AudioCodec, sample_rate: u32, channels: u16) -> Option<
    AudioTrackConfig,
> {
    if codec == AudioCodec::NoAudio {
        None
    } else {
        Some(AudioTrackConfig { codec, sample_rate, channels })
    }
}

/// The audio track that a codec, sample rate and channel count describe.
pub fn audio_track_config(codec: AudioCodec, sample_rate: u32, channels: u16) -> (r: Option<
    AudioTrackConfig,
>)
    ensures
        r == spec_audio_track_config(codec, sample_rate, channels),
{
    match codec {
        AudioCodec::NoAudio => None,
        _ => Some(AudioTrackConfig { codec, sample_rate, channels }),
    }
}

/// Metadata embedded in the MP4 file (title, creation time).
#[derive(Debug, Clone)]
pub struct Metadata {
    /// Title of the recording (appears in media players)
    pub title: Option<String>,
    /// Creation timestamp in seconds since the Unix epoch (1970-01-01)
    pub creation_time: Option<u64>,
}

#[verifier::external_type_specification]
#[verifier::external_body]
pub struct ExSystemTime(std::time::SystemTime);

#[verifier::external_type_specification]
#[verifier::external_body]
pub struct ExSystemTimeError(std::time::SystemTimeError);

/// The clock's current reading.
///
/// Calls `std::time::SystemTime::now`; nothing is claimed of the reading.
#[verifier::external_body]
fn clock_now() -> std::time::SystemTime {
    std::time::SystemTime::now()
}

/// How long after the Unix epoch a clock reading lies; an error when it
/// lies before.
///
/// Calls `SystemTime::duration_since` with `UNIX_EPOCH`; nothing is claimed
/// of the result, which no value of the library can describe.
#[verifier::external_body]
fn since_unix_epoch(t: &std::time::SystemTime) -> Result<std::time::Duration, std::time::SystemTimeError> {
    t.duration_since(std::time::UNIX_EPOCH)
}

/// The whole seconds of a duration.
///
/// Calls `Duration::as_secs`; nothing is claimed of the value, since a
/// duration is opaque here.
#[verifier::external_body]
fn whole_seconds(d: &std::time::Duration) -> u64 {
    d.as_secs()
}

impl Metadata {
    /// Empty metadata: no title, no creation time.
    pub fn new() -> (r: Self)
        ensures
            r.title is None,
            r.creation_time is None,
    {
        Metadata { title: None, creation_time: None }
    }

    /// Sets the title.
    pub fn with_title<T>(self, title: T) -> (r: Self) where String: From<T>
        ensures
            r.title matches Some(t) && call_ensures(<String as From<T>>::from, (title,), t),
            r.creation_time == self.creation_time,
    {
        let mut m = self;
        m.title = Some(String::from(title));
        m
    }

    /// Sets the creation time (seconds since the Unix epoch).
    pub fn with_creation_time(self, unix_timestamp: u64) -> (r: Self)
        ensures
            r.creation_time == Some(unix_timestamp),
            r.title == self.title,
    {
        let mut m = self;
        m.creation_time = Some(unix_timestamp);
        m
    }

    /// Sets the creation time to the current system time; when the clock
    /// reads before the epoch the creation time is left as it was.
    pub fn with_current_time(self) -> (r: Self)
        ensures
            r.title == self.title,
            r.creation_time is Some || r.creation_time == self.creation_time,
    {
        let now = clock_now();
        match since_unix_epoch(&now) {
            Ok(elapsed) => self.with_creation_time(whole_seconds(&elapsed)),
            Err(_) => self,
        }
    }
}

} // verus!
