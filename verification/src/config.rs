//! What a stream is encoded as.
use vstd::prelude::*;

verus! {

/// What kind of sound a stream carries.
#[derive(Debug, Clone, Copy, PartialEq, Eq, Structural)]
pub enum AudioMode {
    Voice,
    Music,
}

impl AudioMode {
    /// The bitrate to encode at when none is asked for.
    pub open spec fn bitrate(self, channels: u8) -> i32 {
        match self {
            AudioMode::Voice => if channels == 1 {
                64_000
            } else {
                96_000
            },
            AudioMode::Music => if channels == 1 {
                96_000
            } else {
                128_000
            },
        }
    }

    /// The bitrate, in bits per second, to encode at when none is asked for.
    pub fn default_bitrate(self, channels: u8) -> (bitrate: i32)
        ensures
            bitrate == self.bitrate(channels),
            self == AudioMode::Voice ==> bitrate == if channels == 1 {
                64_000int
            } else {
                96_000
            },
            self == AudioMode::Music ==> bitrate == if channels == 1 {
                96_000int
            } else {
                128_000
            },
    {
        match self {
            AudioMode::Voice => if channels == 1 {
                64_000
            } else {
                96_000
            },
            AudioMode::Music => if channels == 1 {
                96_000
            } else {
                128_000
            },
        }
    }
}

/// How a stream is encoded and addressed.
#[derive(Debug, Clone, Copy, PartialEq, Eq, Structural)]
pub struct EngineConfig {
    pub mode: AudioMode,
    pub channels: u8,
    pub bitrate: i32,
    pub payload_type: u8,
    pub ssrc: u32,
}

impl EngineConfig {
    /// Takes the bitrate from the mode where none is given.
    pub fn new(
        mode: AudioMode,
        channels: u8,
        bitrate: Option<i32>,
        payload_type: u8,
        ssrc: u32,
    ) -> (config: EngineConfig)
        ensures
            config == (EngineConfig {
                mode,
                channels,
                bitrate: match bitrate {
                    Some(bitrate) => bitrate,
                    None => mode.bitrate(channels),
                },
                payload_type,
                ssrc,
            }),
            config.mode == mode && config.channels == channels && config.payload_type
                == payload_type && config.ssrc == ssrc,
            bitrate is Some ==> config.bitrate == bitrate->0,
            bitrate is None && channels == 1 ==> config.bitrate == if mode == AudioMode::Voice {
                64_000int
            } else {
                96_000
            },
            bitrate is None && channels != 1 ==> config.bitrate == if mode == AudioMode::Voice {
                96_000int
            } else {
                128_000
            },
    {
        let bitrate = match bitrate {
            Some(bitrate) => bitrate,
            None => mode.default_bitrate(channels),
        };
        EngineConfig { mode, channels, bitrate, payload_type, ssrc }
    }
}

/// Music gets 32 kbit/s more than speech in the same channels, and so does any other channel count
/// than one over a single channel; what comes of it lies within what Opus codes.
pub proof fn law_bitrate_steps(mode: AudioMode, channels: u8)
    ensures
        AudioMode::Music.bitrate(channels) == AudioMode::Voice.bitrate(channels) + 32_000,
        channels != 1 ==> mode.bitrate(channels) == mode.bitrate(1) + 32_000,
        64_000 <= mode.bitrate(channels) <= 128_000,
{
}

/// The channel layouts that Opus codes.
#[derive(Debug, Clone, Copy, PartialEq, Eq, Structural)]
pub enum Channels {
    Mono,
    Stereo,
}

/// The layout that a channel count is coded as: anything but one channel is stereo.
pub fn opus_channels(channels: u8) -> (layout: Channels)
    ensures
        layout == if channels == 1 {
            Channels::Mono
        } else {
            Channels::Stereo
        },
{
    if channels == 1 {
        Channels::Mono
    } else {
        Channels::Stereo
    }
}

} // verus!
