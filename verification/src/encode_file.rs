//! The report on an encoded audio file.
use vstd::prelude::*;

use crate::audio::{duration_ms, pcm_duration_ms};
use crate::config::EngineConfig;
use crate::rtp::{payload_total, total_payload_bytes, RtpFrame};
use crate::text::{decimal, push_decimal};
use crate::SAMPLE_RATE;

verus! {

/// The report on an encoded file. The average payload size follows from the bytes and the frames
/// counted here.
#[derive(Debug)]
pub struct EncodeFileStats {
    pub mode: &'static str,
    pub input: String,
    pub input_duration_ms: u64,
    pub sample_rate: u32,
    pub channels: u8,
    pub frames: usize,
    pub packets: usize,
    pub payload_bytes: usize,
    pub bitrate: i32,
    pub sent_packets: usize,
    pub realtime: bool,
}

/// The report on a file read from `input` that was encoded to `frames`; nothing if the payload
/// bytes cannot be counted.
pub fn encode_file_stats(
    input: &str,
    input_duration_ms: u64,
    config: &EngineConfig,
    frames: &[RtpFrame],
    sent_packets: usize,
    realtime: bool,
) -> (stats: Option<EncodeFileStats>)
    ensures
        stats is Some <==> payload_total(frames@) <= usize::MAX,
        stats is Some ==> {
            &&& stats->0.mode@ == "encode-file"@
            &&& stats->0.input@ == input@
            &&& stats->0.input_duration_ms == input_duration_ms
            &&& stats->0.sample_rate == SAMPLE_RATE
            &&& stats->0.sample_rate == 48_000
            &&& stats->0.channels == config.channels
            &&& stats->0.frames == frames@.len()
            &&& stats->0.packets == frames@.len()
            &&& stats->0.payload_bytes == payload_total(frames@)
            &&& stats->0.bitrate == config.bitrate
            &&& stats->0.sent_packets == sent_packets
            &&& stats->0.realtime == realtime
        },
{
    match total_payload_bytes(frames) {
        Some(payload_bytes) => Some(
            EncodeFileStats {
                mode: "encode-file",
                input: input.to_owned(),
                input_duration_ms,
                sample_rate: SAMPLE_RATE,
                channels: config.channels,
                frames: frames.len(),
                packets: frames.len(),
                payload_bytes,
                bitrate: config.bitrate,
                sent_packets,
                realtime,
            },
        ),
        None => None,
    }
}

/// The report on a file of which `loaded_samples` interleaved samples were loaded, before any
/// padding, and of whose packets `sent` were sent; without a receiver none were. Nothing if the
/// payload bytes cannot be counted.
pub fn encode_file_report(
    input: &str,
    loaded_samples: usize,
    config: &EngineConfig,
    frames: &[RtpFrame],
    sent: Option<usize>,
    realtime: bool,
) -> (stats: Option<EncodeFileStats>)
    ensures
        stats is Some <==> payload_total(frames@) <= usize::MAX,
        stats is Some ==> {
            &&& stats->0.mode@ == "encode-file"@
            &&& stats->0.input@ == input@
            &&& stats->0.input_duration_ms == duration_ms(loaded_samples as nat, config.channels)
            &&& config.channels == 0 ==> stats->0.input_duration_ms == 0
            &&& config.channels > 0 ==> 48 * config.channels * stats->0.input_duration_ms
                <= loaded_samples < 48 * config.channels * (stats->0.input_duration_ms + 1)
            &&& stats->0.sample_rate == SAMPLE_RATE
            &&& stats->0.sample_rate == 48_000
            &&& stats->0.channels == config.channels
            &&& stats->0.frames == frames@.len()
            &&& stats->0.packets == frames@.len()
            &&& stats->0.payload_bytes == payload_total(frames@)
            &&& stats->0.bitrate == config.bitrate
            &&& stats->0.sent_packets == (match sent {
                Some(count) => count,
                None => 0,
            })
            &&& stats->0.realtime == realtime
        },
{
    let input_duration_ms = pcm_duration_ms(loaded_samples, config.channels);
    let sent_packets: usize = match sent {
        Some(count) => count,
        None => 0,
    };
    encode_file_stats(input, input_duration_ms, config, frames, sent_packets, realtime)
}

impl EncodeFileStats {
    /// The report in one line.
    pub fn summary(&self) -> (line: String)
        ensures
            line@ == "discord-voice-engine encode-file: encoded "@ + decimal(self.frames as nat)
                + " frame(s), "@ + decimal(self.payload_bytes as nat) + " Opus byte(s), sent "@
                + decimal(self.sent_packets as nat) + " RTP packet(s)"@,
    {
        let mut line = "discord-voice-engine encode-file: encoded ".to_owned();
        push_decimal(&mut line, self.frames as u64);
        line.append(" frame(s), ");
        push_decimal(&mut line, self.payload_bytes as u64);
        line.append(" Opus byte(s), sent ");
        push_decimal(&mut line, self.sent_packets as u64);
        line.append(" RTP packet(s)");
        line
    }
}

} // verus!
