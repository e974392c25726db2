//! A voice engine for Discord clients: the microphone capture and packet trace
//! rules, RTP framing and PCM conversions, with contracts checked by Verus.
use vstd::prelude::*;

pub mod audio;
pub mod config;
pub mod encode_file;
pub mod payload;
pub mod pulse_capture;
pub mod rtp;
pub mod text;
pub mod trace;
pub mod trace_laws;
pub mod wav;

pub use crate::config::{AudioMode, EngineConfig};

verus! {

/// Samples per second of every PCM stream the engine handles.
pub const SAMPLE_RATE: u32 = 48_000;

/// Samples per channel in one 20 ms Opus frame.
pub const FRAME_SAMPLES: usize = 960;

/// Milliseconds of audio in one Opus frame.
pub const FRAME_MS: u64 = 20;

/// RTP clock ticks between two consecutive packets.
pub const RTP_CLOCK_INCREMENT: u32 = 960;

/// The RTP payload type that Discord uses for Opus.
pub const DEFAULT_PAYLOAD_TYPE: u8 = 120;

} // verus!
