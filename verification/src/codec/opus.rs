//! Opus packet validation and decoder configuration (`dOps`).

use vstd::prelude::*;

verus! {

/// Opus always runs at 48 kHz inside MP4.
pub const OPUS_SAMPLE_RATE: u32 = 48000;

/// Opus decoder configuration written into the `dOps` box.
#[derive(Debug, Clone, PartialEq, Eq)]
pub struct OpusConfig {
    /// Version (0)
    pub version: u8,
    /// OutputChannelCount
    pub output_channel_count: u8,
    /// PreSkip in 48 kHz samples
    pub pre_skip: u16,
    /// InputSampleRate
    pub input_sample_rate: u32,
    /// OutputGain (Q7.8 dB)
    pub output_gain: i16,
    /// ChannelMappingFamily
    pub channel_mapping_family: u8,
    /// StreamCount (family != 0)
    pub stream_count: Option<u8>,
    /// CoupledCount (family != 0)
    pub coupled_count: Option<u8>,
    /// ChannelMapping (family != 0)
    pub channel_mapping: Option<Vec<u8>>,
}

impl Default for OpusConfig {
    /// Stereo, 312 samples of pre-skip, 48 kHz input, no gain, mapping
    /// family 0.
    fn default() -> (r: Self)
        ensures
            r.version == 0,
            r.output_channel_count == 2,
            r.pre_skip == 312,
            r.input_sample_rate == OPUS_SAMPLE_RATE,
            r.output_gain == 0,
            r.channel_mapping_family == 0,
            r.stream_count is None,
            r.coupled_count is None,
            r.channel_mapping is None,
    {
        OpusConfig {
            version: 0,
            output_channel_count: 2,
            pre_skip: 312,
            input_sample_rate: OPUS_SAMPLE_RATE,
            output_gain: 0,
            channel_mapping_family: 0,
            stream_count: None,
            coupled_count: None,
            channel_mapping: None,
        }
    }

}

impl OpusConfig {
    /// Sets the channel count; more than two channels need mapping family 1.
    pub fn with_channels(self, channels: u8) -> (r: Self)
        ensures
            r.output_channel_count == channels,
            r.channel_mapping_family == (if channels > 2 { 1u8 } else { 0u8 }),
            r.version == self.version,
            r.pre_skip == self.pre_skip,
            r.input_sample_rate == self.input_sample_rate,
            r.output_gain == self.output_gain,
            r.stream_count == self.stream_count,
            r.coupled_count == self.coupled_count,
            r.channel_mapping == self.channel_mapping,
    {
        let mut c = self;
        c.output_channel_count = channels;
        c.channel_mapping_family = if channels > 2 {
            1
        } else {
            0
        };
        c
    }
}

/// The framing rules of RFC 6716 section 3.2 that a packet must meet: a TOC
/// byte; code 1 carries two frames of equal size; code 2 carries a first-frame
/// length (one byte below 252, else two bytes) that fits the packet; code 3
/// carries a frame-count byte with at least one frame.
pub open spec fn spec_is_valid_opus_packet(p: Seq<u8>) -> bool {
    if p.len() == 0 {
        false
    } else {
        let code = p[0] & 0x03u8;
        if code == 0 {
            true
        } else if code == 1 {
            (p.len() - 1) % 2 == 0
        } else if code == 2 {
            if p.len() < 2 {
                false
            } else if p[1] < 252 {
                p[1] <= p.len() - 2
            } else {
                p.len() >= 3 && p[2] * 4 + p[1] <= p.len() - 3
            }
        } else {
            p.len() >= 2 && (p[1] & 0x3fu8) >= 1
        }
    }
}

/// Checks the framing of an Opus packet.
pub fn is_valid_opus_packet(packet: &[u8]) -> (r: bool)
    ensures
        r == spec_is_valid_opus_packet(packet@),
{
    let n = packet.len();
    if n == 0 {
        return false;
    }
    let code = packet[0] & 0x03u8;
    if code == 0 {
        true
    } else if code == 1 {
        (n - 1) % 2 == 0
    } else if code == 2 {
        if n < 2 {
            false
        } else if packet[1] < 252 {
            (packet[1] as usize) <= n - 2
        } else {
            n >= 3 && (packet[2] as usize) * 4 + (packet[1] as usize) <= n - 3
        }
    } else {
        n >= 2 && (packet[1] & 0x3fu8) >= 1
    }
}

} // verus!
