//! Microphone capture through PulseAudio: what the recorder is asked for, and what becomes of
//! the PCM it delivers.
//!
//! A [`CaptureSession`] holds the rules of a capture. Between its calls the caller reads from
//! the recorder, encodes, and sends.
use vstd::prelude::*;

use crate::audio::{
    bytes_of_pcm, duration_ms, extend_le_bytes, interleaved_i16_to_mono,
    law_bytes_of_pcm_by_parts, law_duration_does_not_depend_on_channels, law_mono_mix_by_parts,
    mono_mix, pcm_from_le_bytes, pcm_of_bytes,
};
use crate::config::EngineConfig;
use crate::rtp::{
    build_rtp_packet, law_stream_numbering_advances, rtp_packet, stream_sequence, stream_timestamp,
};
use crate::text::{
    blank, decimal, law_blank_text_trims_to_nothing, push_decimal, push_trimmed, trimmed,
};
use crate::{FRAME_MS, FRAME_SAMPLES, RTP_CLOCK_INCREMENT, SAMPLE_RATE};

verus! {

/// `std::path::PathBuf`, carried through as it is; nothing is claimed of it.
#[verifier::external_type_specification]
#[verifier::external_body]
pub struct ExPathBuf(std::path::PathBuf);

/// What a capture is asked to do.
#[derive(Debug, Clone)]
pub struct CaptureOptions<'a> {
    pub device: Option<&'a str>,
    pub rtp_addr: &'a str,
    pub meter_stdout: bool,
    pub duration_ms: Option<u64>,
    pub dump_input_pcm: Option<&'a std::path::PathBuf>,
    pub stats_json: Option<&'a std::path::PathBuf>,
}

/// The report on a capture.
#[derive(Debug)]
pub struct CaptureStats {
    pub mode: &'static str,
    pub source: Option<String>,
    pub sample_rate: u32,
    pub channels: u8,
    pub frames: usize,
    pub packets: usize,
    pub duration_ms: u64,
    pub payload_bytes: usize,
    pub bitrate: i32,
    pub capture_backend: &'static str,
}

/// The text of an optional string slice.
pub open spec fn text_of(text: Option<&str>) -> Option<Seq<char>> {
    match text {
        Some(text) => Some(text@),
        None => None,
    }
}

/// The source that a device setting names. No setting, an empty one and `default` all leave
/// the choice to PulseAudio.
pub open spec fn named_source(device: Option<Seq<char>>) -> Option<Seq<char>> {
    match device {
        Some(name) => if name.len() == 0 || name == "default"@ {
            None
        } else {
            Some(name)
        },
        None => None,
    }
}

/// The source that a device setting names, if it names one.
pub fn capture_source<'a>(device: Option<&'a str>) -> (source: Option<&'a str>)
    ensures
        text_of(source) == named_source(text_of(device)),
        source is Some ==> source == device,
        source is Some <==> device is Some && device->0@.len() > 0 && device->0@ != "default"@,
{
    match device {
        Some(name) => if name.is_empty() || name.to_owned() == "default".to_owned() {
            None
        } else {
            Some(name)
        },
        None => None,
    }
}

/// The channel count closest to `channels` that the recorder is asked for.
pub open spec fn recorder_channels(channels: u8) -> u8 {
    if channels < 1 {
        1
    } else if channels > 2 {
        2
    } else {
        channels
    }
}

/// The arguments of `parec`.
pub open spec fn parec_arguments(device: Option<Seq<char>>, channels: u8) -> Seq<Seq<char>> {
    let fixed = seq![
        "--record"@,
        "--raw"@,
        "--client-name=discord-voice-engine"@,
        "--stream-name=Discord voice microphone"@,
        "--format=s16le"@,
        "--rate="@ + decimal(SAMPLE_RATE as nat),
        "--channels="@ + decimal(recorder_channels(channels) as nat),
        "--latency-msec=20"@,
        "--process-time-msec=20"@,
    ];
    match named_source(device) {
        Some(name) => fixed.push("--device="@ + name),
        None => fixed,
    }
}

fn number_argument(name: &str, value: u64) -> (argument: String)
    ensures
        argument@ == name@ + decimal(value as nat),
{
    let mut argument = name.to_owned();
    push_decimal(&mut argument, value);
    argument
}

/// The arguments that make `parec` record raw PCM at low latency.
pub fn build_parec_command(device: Option<&str>, channels: u8) -> (args: Vec<String>)
    ensures
        args@.map_values(|argument: String| argument@) == parec_arguments(
            text_of(device),
            channels,
        ),
        args@.len() >= 9,
        args@[0]@ == "--record"@,
        args@[1]@ == "--raw"@,
        args@[2]@ == "--client-name=discord-voice-engine"@,
        args@[3]@ == "--stream-name=Discord voice microphone"@,
        args@[4]@ == "--format=s16le"@,
        args@[5]@ == "--rate=48000"@,
        args@[6]@ == if channels <= 1 {
            "--channels=1"@
        } else {
            "--channels=2"@
        },
        args@[7]@ == "--latency-msec=20"@,
        args@[8]@ == "--process-time-msec=20"@,
        match device {
            Some(name) if name@.len() > 0 && name@ != "default"@ => args@.len() == 10
                && args@[9]@ == "--device="@ + name@,
            _ => args@.len() == 9,
        },
{
    proof {
        lemma_number_arguments();
    }
    let asked: u8 = if channels < 1 {
        1
    } else if channels > 2 {
        2
    } else {
        channels
    };
    let mut args: Vec<String> = Vec::new();
    args.push("--record".to_owned());
    args.push("--raw".to_owned());
    args.push("--client-name=discord-voice-engine".to_owned());
    args.push("--stream-name=Discord voice microphone".to_owned());
    args.push("--format=s16le".to_owned());
    args.push(number_argument("--rate=", SAMPLE_RATE as u64));
    args.push(number_argument("--channels=", asked as u64));
    args.push("--latency-msec=20".to_owned());
    args.push("--process-time-msec=20".to_owned());
    if let Some(name) = capture_source(device) {
        let mut argument = "--device=".to_owned();
        argument.append(name);
        args.push(argument);
    }
    assert(args@.map_values(|argument: String| argument@) =~= parec_arguments(
        text_of(device),
        channels,
    ));
    args
}

/// Appends the level meter's view of `pcm` to `writer`: one channel, signed 16-bit
/// little-endian.
pub fn write_meter_pcm(writer: &mut Vec<u8>, pcm: &[i16], channels: u8)
    ensures
        final(writer)@ == old(writer)@ + bytes_of_pcm(mono_mix(pcm@, channels)),
{
    let mono = interleaved_i16_to_mono(pcm, channels);
    extend_le_bytes(writer, mono.as_slice());
}

/// How writing meter PCM to its reader ended.
#[derive(Debug, Clone, Copy, PartialEq, Eq, Structural)]
pub enum MeterWrite {
    /// Everything was written.
    Written,
    /// The reader is gone.
    BrokenPipe,
    /// Any other failure.
    Failed,
}

/// What a capture does after meter PCM was written.
#[derive(Debug, Clone, Copy, PartialEq, Eq, Structural)]
pub enum MeterNext {
    /// Flush, whatever comes of it, and go on.
    Flush,
    /// Go on without the meter's reader.
    Continue,
    /// Give the capture up.
    Abort,
}

/// What follows a write of meter PCM.
pub open spec fn meter_next(outcome: MeterWrite) -> MeterNext {
    match outcome {
        MeterWrite::Written => MeterNext::Flush,
        MeterWrite::BrokenPipe => MeterNext::Continue,
        MeterWrite::Failed => MeterNext::Abort,
    }
}

/// Decides what follows a write of meter PCM: a reader that went away does not end a capture,
/// any other failure does.
pub fn after_meter_write(outcome: MeterWrite) -> (next: MeterNext)
    ensures
        next == meter_next(outcome),
        outcome == MeterWrite::Written <==> next == MeterNext::Flush,
        outcome == MeterWrite::BrokenPipe <==> next == MeterNext::Continue,
        outcome == MeterWrite::Failed <==> next == MeterNext::Abort,
{
    match outcome {
        MeterWrite::Written => MeterNext::Flush,
        MeterWrite::BrokenPipe => MeterNext::Continue,
        MeterWrite::Failed => MeterNext::Abort,
    }
}

/// The message for a recorder that failed: what it printed follows, unless that is blank.
pub open spec fn failure_message(stderr: Seq<char>) -> Seq<char> {
    if trimmed(stderr).len() == 0 {
        "parec failed"@
    } else {
        "parec failed"@ + ": "@ + trimmed(stderr)
    }
}

/// The message for a recorder that failed after printing `stderr`.
pub fn parec_failure_message(stderr: &str) -> (message: String)
    ensures
        message@ == failure_message(stderr@),
        blank(stderr@) ==> message@ == "parec failed"@,
        !blank(stderr@) ==> message@ == "parec failed: "@ + trimmed(stderr@),
{
    let mut message = "parec failed: ".to_owned();
    proof {
        reveal_strlit("parec failed: ");
        reveal_strlit("parec failed");
        reveal_strlit(": ");
        assert("parec failed: "@ =~= "parec failed"@ + ": "@);
        law_blank_text_trims_to_nothing(stderr@);
    }
    if push_trimmed(&mut message, stderr) {
        message
    } else {
        "parec failed".to_owned()
    }
}

/// What a capture does next.
#[derive(Debug, Clone, Copy, PartialEq, Eq, Structural)]
pub enum CaptureAction {
    /// The time is up.
    Stop,
    /// Read exactly this many bytes of PCM from the recorder.
    Read { bytes: usize },
}

/// One frame of captured sound.
#[derive(Debug)]
pub struct CapturedFrame {
    /// The samples to encode, interleaved.
    pub pcm: Vec<i16>,
    /// What the level meter gets, if there is one.
    pub meter: Option<Vec<u8>>,
}

/// The course of one capture.
pub struct CaptureSession {
    config: EngineConfig,
    source: Option<String>,
    meter: bool,
    duration_ms: Option<u64>,
    keep_input: bool,
    sequence: u16,
    timestamp: u32,
    packets: usize,
    payload_bytes: usize,
    input: Vec<i16>,
}

/// What a capture holds. The first five parts stay as they were asked for.
#[verifier::ext_equal]
pub struct CaptureState {
    pub config: EngineConfig,
    pub source: Option<Seq<char>>,
    pub meter: bool,
    pub duration_ms: Option<u64>,
    pub keep_input: bool,
    /// Packets sent.
    pub packets: nat,
    /// Bytes of encoded payload in all packets built.
    pub payload_bytes: nat,
    /// All samples captured, if they are kept.
    pub input: Seq<i16>,
}

impl CaptureState {
    /// After the recorder delivered `bytes`.
    pub open spec fn accept(self, bytes: Seq<u8>) -> CaptureState {
        CaptureState {
            input: if self.keep_input {
                self.input + pcm_of_bytes(bytes)
            } else {
                self.input
            },
            ..self
        }
    }

    /// After a packet was built around `payload`.
    pub open spec fn packetize(self, payload: Seq<u8>) -> CaptureState {
        CaptureState { payload_bytes: self.payload_bytes + payload.len(), ..self }
    }

    /// After a packet was sent.
    pub open spec fn sent(self) -> CaptureState {
        CaptureState { packets: self.packets + 1, ..self }
    }

    /// Bytes of PCM in one frame.
    pub open spec fn frame_bytes(self) -> nat {
        FRAME_SAMPLES as nat * self.config.channels as nat * 2
    }

    /// What to do `elapsed_ms` milliseconds into the capture.
    pub open spec fn action(self, elapsed_ms: u64) -> CaptureAction {
        match self.duration_ms {
            Some(limit) if limit <= elapsed_ms => CaptureAction::Stop,
            _ => CaptureAction::Read { bytes: self.frame_bytes() as usize },
        }
    }

    /// The packet around `payload` that is due next.
    pub open spec fn next_packet(self, payload: Seq<u8>) -> Seq<u8> {
        rtp_packet(
            self.config.payload_type,
            stream_sequence(self.packets),
            stream_timestamp(self.packets),
            self.config.ssrc,
            payload,
        )
    }
}

impl View for CaptureSession {
    type V = CaptureState;

    closed spec fn view(&self) -> CaptureState {
        CaptureState {
            config: self.config,
            source: match self.source {
                Some(source) => Some(source@),
                None => None,
            },
            meter: self.meter,
            duration_ms: self.duration_ms,
            keep_input: self.keep_input,
            packets: self.packets as nat,
            payload_bytes: self.payload_bytes as nat,
            input: self.input@,
        }
    }
}

impl CaptureSession {
    /// The running packet numbers are those of the next packet.
    pub closed spec fn numbered(self) -> bool {
        &&& self.sequence == stream_sequence(self.packets as nat)
        &&& self.timestamp == stream_timestamp(self.packets as nat)
    }

    /// Starts a capture.
    pub fn new(config: &EngineConfig, options: &CaptureOptions<'_>) -> (session: CaptureSession)
        ensures
            session@ == (CaptureState {
                config: *config,
                source: named_source(text_of(options.device)),
                meter: options.meter_stdout,
                duration_ms: options.duration_ms,
                keep_input: options.dump_input_pcm is Some,
                packets: 0,
                payload_bytes: 0,
                input: Seq::empty(),
            }),
            session.numbered(),
            session@.source is Some <==> options.device is Some && options.device->0@.len() > 0
                && options.device->0@ != "default"@,
            session@.source is Some ==> session@.source == Some(options.device->0@),
    {
        let source = match capture_source(options.device) {
            Some(name) => Some(name.to_owned()),
            None => None,
        };
        CaptureSession {
            config: *config,
            source,
            meter: options.meter_stdout,
            duration_ms: options.duration_ms,
            keep_input: options.dump_input_pcm.is_some(),
            sequence: 0,
            timestamp: 0,
            packets: 0,
            payload_bytes: 0,
            input: Vec::new(),
        }
    }

    /// What to do `elapsed_ms` milliseconds into the capture: stop when the time asked for has
    /// passed, else read a frame.
    pub fn next_action(&self, elapsed_ms: u64) -> (action: CaptureAction)
        ensures
            action == self@.action(elapsed_ms),
            action is Read ==> action->bytes == self@.frame_bytes(),
            action is Stop <==> self@.duration_ms is Some && self@.duration_ms->0 <= elapsed_ms,
            action is Read ==> action->bytes == 1920 * self@.config.channels,
    {
        match self.duration_ms {
            Some(limit) if limit <= elapsed_ms => CaptureAction::Stop,
            _ => CaptureAction::Read { bytes: FRAME_SAMPLES * self.config.channels as usize * 2 },
        }
    }

    /// Takes PCM read from the recorder.
    pub fn accept(&mut self, bytes: &[u8]) -> (frame: CapturedFrame)
        requires
            old(self).numbered(),
        ensures
            final(self).numbered(),
            frame.pcm@ == pcm_of_bytes(bytes@),
            frame.meter is Some <==> old(self)@.meter,
            frame.meter is Some ==> frame.meter->0@ == bytes_of_pcm(
                mono_mix(pcm_of_bytes(bytes@), old(self)@.config.channels),
            ),
            final(self)@ == old(self)@.accept(bytes@),
            final(self)@ == (CaptureState {
                input: if old(self)@.keep_input {
                    old(self)@.input + frame.pcm@
                } else {
                    old(self)@.input
                },
                ..old(self)@
            }),
            frame.pcm@.len() == bytes@.len() / 2,
    {
        let pcm = pcm_from_le_bytes(bytes);
        if self.keep_input {
            self.input.extend_from_slice(pcm.as_slice());
        }
        let meter = if self.meter {
            let mut meter: Vec<u8> = Vec::new();
            write_meter_pcm(&mut meter, pcm.as_slice(), self.config.channels);
            Some(meter)
        } else {
            None
        };
        CapturedFrame { pcm, meter }
    }

    /// Whether the counters can take another packet, with `payload` in it.
    pub fn has_room(&self, payload: &[u8]) -> (room: bool)
        ensures
            room == (self@.packets < usize::MAX && self@.payload_bytes + payload@.len()
                <= usize::MAX),
    {
        self.packets < usize::MAX && payload.len() <= usize::MAX - self.payload_bytes
    }

    /// Builds the packet for an encoded frame.
    pub fn packetize(&mut self, payload: &[u8]) -> (packet: Vec<u8>)
        requires
            old(self).numbered(),
            old(self)@.payload_bytes + payload@.len() <= usize::MAX,
        ensures
            final(self).numbered(),
            packet@ == old(self)@.next_packet(payload@),
            final(self)@ == old(self)@.packetize(payload@),
            final(self)@ == (CaptureState {
                payload_bytes: old(self)@.payload_bytes + payload@.len(),
                ..old(self)@
            }),
            packet@ == rtp_packet(
                old(self)@.config.payload_type,
                stream_sequence(old(self)@.packets),
                stream_timestamp(old(self)@.packets),
                old(self)@.config.ssrc,
                payload@,
            ),
    {
        self.payload_bytes = self.payload_bytes + payload.len();
        build_rtp_packet(
            self.config.payload_type,
            self.sequence,
            self.timestamp,
            self.config.ssrc,
            payload,
        )
    }

    /// Counts the packet built last as sent.
    pub fn packet_sent(&mut self)
        requires
            old(self).numbered(),
            old(self)@.packets < usize::MAX,
        ensures
            final(self).numbered(),
            final(self)@ == old(self)@.sent(),
            final(self)@ == (CaptureState { packets: old(self)@.packets + 1, ..old(self)@ }),
    {
        proof {
            law_stream_numbering_advances(self.packets as nat);
        }
        self.packets = self.packets + 1;
        self.sequence = self.sequence.wrapping_add(1);
        self.timestamp = self.timestamp.wrapping_add(RTP_CLOCK_INCREMENT);
    }

    /// All samples captured, if they are kept.
    pub fn input(&self) -> (pcm: &[i16])
        ensures
            pcm@ == self@.input,
    {
        self.input.as_slice()
    }

    /// The report on a capture that took `elapsed_ms` milliseconds.
    pub fn stats(&self, elapsed_ms: u64) -> (stats: CaptureStats)
        ensures
            stats.reports(self@, elapsed_ms),
            stats.mode@ == "capture-mic"@,
            stats.capture_backend@ == "parec"@,
            stats.source is Some <==> self@.source is Some,
            stats.source is Some ==> self@.source == Some(stats.source->0@),
            stats.sample_rate == 48_000,
            stats.channels == self@.config.channels,
            stats.bitrate == self@.config.bitrate,
            stats.frames == self@.packets,
            stats.packets == self@.packets,
            stats.payload_bytes == self@.payload_bytes,
            stats.duration_ms == elapsed_ms,
    {
        let source = match &self.source {
            Some(source) => Some(source.as_str().to_owned()),
            None => None,
        };
        CaptureStats {
            mode: "capture-mic",
            source,
            sample_rate: SAMPLE_RATE,
            channels: self.config.channels,
            frames: self.packets,
            packets: self.packets,
            duration_ms: elapsed_ms,
            payload_bytes: self.payload_bytes,
            bitrate: self.config.bitrate,
            capture_backend: "parec",
        }
    }
}

impl CaptureStats {
    /// The report states exactly what `state` holds, after `elapsed_ms` milliseconds.
    pub open spec fn reports(self, state: CaptureState, elapsed_ms: u64) -> bool {
        &&& self.mode@ == "capture-mic"@
        &&& match self.source {
            Some(source) => state.source == Some(source@),
            None => state.source is None,
        }
        &&& self.sample_rate == SAMPLE_RATE
        &&& self.channels == state.config.channels
        &&& self.frames == state.packets
        &&& self.packets == state.packets
        &&& self.duration_ms == elapsed_ms
        &&& self.payload_bytes == state.payload_bytes
        &&& self.bitrate == state.config.bitrate
        &&& self.capture_backend@ == "parec"@
    }

    /// The report in one line.
    pub fn summary(&self) -> (line: String)
        ensures
            line@ == "discord-voice-engine capture-mic: sent "@ + decimal(self.packets as nat)
                + " RTP packet(s), "@ + decimal(self.payload_bytes as nat)
                + " Opus byte(s) via parec"@,
    {
        let mut line = "discord-voice-engine capture-mic: sent ".to_owned();
        push_decimal(&mut line, self.packets as u64);
        line.append(" RTP packet(s), ");
        push_decimal(&mut line, self.payload_bytes as u64);
        line.append(" Opus byte(s) via parec");
        line
    }
}

proof fn lemma_number_arguments()
    ensures
        "--rate="@ + decimal(SAMPLE_RATE as nat) == "--rate=48000"@,
        "--channels="@ + decimal(1) == "--channels=1"@,
        "--channels="@ + decimal(2) == "--channels=2"@,
{
    reveal_strlit("--rate=");
    reveal_strlit("--rate=48000");
    reveal_strlit("--channels=");
    reveal_strlit("--channels=1");
    reveal_strlit("--channels=2");
    reveal_with_fuel(decimal, 5);
    assert("--rate="@ + decimal(48_000) =~= "--rate=48000"@);
    assert("--channels="@ + decimal(1) =~= "--channels=1"@);
    assert("--channels="@ + decimal(2) =~= "--channels=2"@);
}

/// A device with a name of its own is asked for behind everything that is asked for without one,
/// whatever the channel count.
pub proof fn law_named_device_comes_last(name: Seq<char>, channels: u8)
    requires
        name.len() > 0,
        name != "default"@,
    ensures
        parec_arguments(Some(name), channels).len() == parec_arguments(None, channels).len() + 1,
        parec_arguments(Some(name), channels).last() == "--device="@ + name,
        parec_arguments(Some(name), channels).drop_last() == parec_arguments(None, channels),
{
    assert(parec_arguments(Some(name), channels).drop_last() =~= parec_arguments(None, channels));
}

/// Two devices with names of their own are never recorded with the same arguments, and neither is
/// recorded with those that ask for no device.
pub proof fn law_devices_are_told_apart(
    first: Seq<char>,
    second: Seq<char>,
    first_channels: u8,
    second_channels: u8,
)
    requires
        first.len() > 0,
        first != "default"@,
        second.len() > 0,
        second != "default"@,
        first != second,
    ensures
        parec_arguments(Some(first), first_channels) != parec_arguments(
            Some(second),
            second_channels,
        ),
        parec_arguments(Some(first), first_channels) != parec_arguments(None, second_channels),
{
    law_named_device_comes_last(first, first_channels);
    law_named_device_comes_last(second, second_channels);
    assert(parec_arguments(None, first_channels).len() == parec_arguments(
        None,
        second_channels,
    ).len());
    if "--device="@ + first == "--device="@ + second {
        assert(first =~= ("--device="@ + first).skip("--device="@.len() as int));
        assert(second =~= ("--device="@ + second).skip("--device="@.len() as int));
    }
}

/// One and two channels are never recorded with the same arguments.
pub proof fn law_channel_counts_are_told_apart(device: Option<Seq<char>>)
    ensures
        parec_arguments(device, 1) != parec_arguments(device, 2),
{
    lemma_number_arguments();
    reveal_strlit("--channels=1");
    reveal_strlit("--channels=2");
    assert("--channels=1"@[11] != "--channels=2"@[11]);
    assert(parec_arguments(device, 1)[6] != parec_arguments(device, 2)[6]);
}

/// One read is one frame of sound: the samples it holds are, in each channel, what the clock of
/// the packets moves on by, and the sound lasts one frame.
pub proof fn law_one_read_is_one_frame(state: CaptureState, elapsed_ms: u64, bytes: Seq<u8>)
    requires
        state.action(elapsed_ms) is Read,
        bytes.len() == state.action(elapsed_ms)->bytes,
    ensures
        pcm_of_bytes(bytes).len() == RTP_CLOCK_INCREMENT * state.config.channels,
        state.config.channels > 0 ==> pcm_of_bytes(bytes).len() / state.config.channels as nat
            == RTP_CLOCK_INCREMENT,
        state.config.channels > 0 ==> duration_ms(
            pcm_of_bytes(bytes).len(),
            state.config.channels,
        ) == FRAME_MS,
        1 <= state.config.channels <= 2 ==> pcm_of_bytes(bytes).len() == RTP_CLOCK_INCREMENT
            * recorder_channels(state.config.channels),
        state.config.channels > 0 ==> mono_mix(pcm_of_bytes(bytes), state.config.channels).len()
            == RTP_CLOCK_INCREMENT,
{
    let channels = state.config.channels;
    if channels > 0 {
        law_duration_does_not_depend_on_channels(0, 1, channels);
        vstd::arithmetic::div_mod::lemma_div_multiples_vanish(960, channels as int);
    }
}

/// Packets, timestamps and sound agree: a capture that keeps its input and was given one frame at
/// each read holds a frame of samples for each packet sent, which is the time that the next
/// packet's clock has come to.
pub proof fn law_captured_sound_lasts_as_long_as_its_packets(
    start: CaptureState,
    frames: Seq<(Seq<u8>, Seq<u8>)>,
    elapsed_ms: u64,
)
    requires
        start.packets == 0,
        start.input.len() == 0,
        start.keep_input,
        start.config.channels > 0,
        start.action(elapsed_ms) is Read,
        forall|i: int|
            0 <= i < frames.len() ==> (#[trigger] frames[i]).0.len() == start.action(
                elapsed_ms,
            )->bytes,
    ensures
        ({
            let end = captured(start, frames);
            &&& end.input.len() == end.packets * RTP_CLOCK_INCREMENT * start.config.channels
            &&& duration_ms(end.input.len(), start.config.channels) == end.packets * FRAME_MS
            &&& stream_timestamp(end.packets) == (end.input.len() / start.config.channels as nat)
                % 0x1_0000_0000
        }),
    decreases frames.len(),
{
    let channels = start.config.channels;
    let end = captured(start, frames);
    law_packets_are_numbered_in_order(start, frames, Seq::empty());
    if frames.len() > 0 {
        let before = frames.drop_last();
        assert forall|i: int| 0 <= i < before.len() implies (#[trigger] before[i]).0.len()
            == start.action(elapsed_ms)->bytes by {
            assert(before[i] == frames[i]);
        }
        law_captured_sound_lasts_as_long_as_its_packets(start, before, elapsed_ms);
        law_packets_are_numbered_in_order(start, before, Seq::empty());
        law_one_read_is_one_frame(start, elapsed_ms, frames.last().0);
        assert((before.len() + 1) * 960 * channels == before.len() * 960 * channels + 960
            * channels) by (nonlinear_arith);
    } else {
        assert(end.packets * RTP_CLOCK_INCREMENT * channels == 0) by (nonlinear_arith)
            requires
                end.packets == 0,
        ;
    }
    law_duration_does_not_depend_on_channels(0, frames.len(), channels);
    vstd::arithmetic::div_mod::lemma_div_multiples_vanish(
        frames.len() as int * 960,
        channels as int,
    );
    assert((frames.len() as int * 960) * channels == channels * (frames.len() as int * 960))
        by (nonlinear_arith);
}

/// No device setting, an empty one and `default` ask for the same recording.
pub proof fn law_default_source_needs_no_name(channels: u8)
    ensures
        parec_arguments(Some("default"@), channels) == parec_arguments(None, channels),
        parec_arguments(Some(Seq::empty()), channels) == parec_arguments(None, channels),
{
}

/// Naming the source that a device setting stands for asks for the same recording as the setting
/// itself.
pub proof fn law_source_is_settled_once(device: Option<Seq<char>>, channels: u8)
    ensures
        named_source(named_source(device)) == named_source(device),
        parec_arguments(named_source(device), channels) == parec_arguments(device, channels),
{
}

/// The recorder is asked for one channel or two, whatever the channel count; all channel counts
/// from two on ask for the same recording.
pub proof fn law_recorder_is_mono_or_stereo(device: Option<Seq<char>>, channels: u8)
    ensures
        recorder_channels(channels) == 1 || recorder_channels(channels) == 2,
        channels <= 1 ==> parec_arguments(device, channels) == parec_arguments(device, 1),
        channels >= 2 ==> parec_arguments(device, channels) == parec_arguments(device, 2),
{
}

/// What a capture holds after `frames` were read, encoded and sent in order; each is given by the
/// bytes read and the payload they were encoded to.
pub open spec fn captured(start: CaptureState, frames: Seq<(Seq<u8>, Seq<u8>)>) -> CaptureState
    decreases frames.len(),
{
    if frames.len() == 0 {
        start
    } else {
        let (bytes, payload) = frames.last();
        captured(start, frames.drop_last()).accept(bytes).packetize(payload).sent()
    }
}

/// After any number of frames a capture has sent as many packets, the next one carries that
/// number and the time it stands for, and nothing that was asked for has changed.
pub proof fn law_packets_are_numbered_in_order(
    start: CaptureState,
    frames: Seq<(Seq<u8>, Seq<u8>)>,
    payload: Seq<u8>,
)
    requires
        start.packets == 0,
    ensures
        captured(start, frames).packets == frames.len(),
        captured(start, frames).next_packet(payload) == rtp_packet(
            start.config.payload_type,
            stream_sequence(frames.len()),
            stream_timestamp(frames.len()),
            start.config.ssrc,
            payload,
        ),
        captured(start, frames).config == start.config,
        captured(start, frames).source == start.source,
        captured(start, frames).meter == start.meter,
        captured(start, frames).duration_ms == start.duration_ms,
        captured(start, frames).keep_input == start.keep_input,
        !start.keep_input ==> captured(start, frames).input == start.input,
    decreases frames.len(),
{
    if frames.len() > 0 {
        law_packets_are_numbered_in_order(start, frames.drop_last(), payload);
    }
}

/// A capture that keeps its input holds the samples of every frame, in order, and the payload
/// bytes it counted are those of every frame.
pub proof fn law_capture_keeps_every_frame(
    start: CaptureState,
    frames: Seq<(Seq<u8>, Seq<u8>)>,
)
    ensures
        start.keep_input ==> captured(start, frames).input == start.input + frames.map_values(
            |frame: (Seq<u8>, Seq<u8>)| pcm_of_bytes(frame.0),
        ).flatten(),
        captured(start, frames).payload_bytes == start.payload_bytes + frames.map_values(
            |frame: (Seq<u8>, Seq<u8>)| frame.1,
        ).flatten().len(),
        captured(start, frames).keep_input == start.keep_input,
    decreases frames.len(),
{
    let pcm = |frame: (Seq<u8>, Seq<u8>)| pcm_of_bytes(frame.0);
    let payload = |frame: (Seq<u8>, Seq<u8>)| frame.1;
    if frames.len() == 0 {
        assert(start.input + frames.map_values(pcm).flatten() =~= start.input);
    } else {
        let before = frames.drop_last();
        law_capture_keeps_every_frame(start, before);
        assert(frames.map_values(pcm) =~= before.map_values(pcm).push(pcm(frames.last())));
        assert(frames.map_values(payload) =~= before.map_values(payload).push(
            payload(frames.last()),
        ));
        before.map_values(pcm).lemma_flatten_push(pcm(frames.last()));
        before.map_values(payload).lemma_flatten_push(payload(frames.last()));
        assert(start.input + frames.map_values(pcm).flatten() =~= (start.input + before.map_values(
            pcm,
        ).flatten()) + pcm(frames.last()));
    }
}

/// The level meter changes nothing but the meter's own bytes: the same frames are read and sent
/// until the same time, under the same numbers, and the same is reported, with the meter and
/// without it.
pub proof fn law_meter_changes_nothing_else(
    start: CaptureState,
    meter: bool,
    frames: Seq<(Seq<u8>, Seq<u8>)>,
    payload: Seq<u8>,
    elapsed_ms: u64,
    stats: CaptureStats,
)
    ensures
        ({
            let plain = captured(start, frames);
            let other = captured(CaptureState { meter, ..start }, frames);
            &&& other == (CaptureState { meter, ..plain })
            &&& other.next_packet(payload) == plain.next_packet(payload)
            &&& other.action(elapsed_ms) == plain.action(elapsed_ms)
            &&& stats.reports(other, elapsed_ms) == stats.reports(plain, elapsed_ms)
        }),
{
    lemma_captured_meter(start, meter, frames);
}

/// What a capture holds after `frames`, where writing the meter PCM of frame `i` ended as
/// `writes[i]` says; nothing if that made it give up. Without a meter nothing is written.
pub open spec fn metered(
    start: CaptureState,
    frames: Seq<(Seq<u8>, Seq<u8>)>,
    writes: Seq<MeterWrite>,
) -> Option<CaptureState>
    decreases frames.len(),
{
    if frames.len() == 0 {
        Some(start)
    } else {
        let (bytes, payload) = frames.last();
        match metered(start, frames.drop_last(), writes) {
            Some(before) => if before.meter && meter_next(writes[frames.len() - 1])
                == MeterNext::Abort {
                None
            } else {
                Some(before.accept(bytes).packetize(payload).sent())
            },
            None => None,
        }
    }
}

/// A meter whose reader goes away, at whatever frame, leaves a capture the course it has without
/// a meter: the same packets are counted and the same samples kept.
pub proof fn law_broken_meter_pipe_changes_nothing(
    start: CaptureState,
    frames: Seq<(Seq<u8>, Seq<u8>)>,
    writes: Seq<MeterWrite>,
)
    requires
        start.meter,
        writes.len() == frames.len(),
        forall|i: int| 0 <= i < writes.len() ==> #[trigger] writes[i] != MeterWrite::Failed,
    ensures
        metered(start, frames, writes) == Some(captured(start, frames)),
        metered(start, frames, writes)->0 == (CaptureState {
            meter: true,
            ..metered(CaptureState { meter: false, ..start }, frames, writes)->0
        }),
        metered(CaptureState { meter: false, ..start }, frames, writes) == Some(
            captured(CaptureState { meter: false, ..start }, frames),
        ),
{
    lemma_metered_is_captured(start, frames, writes);
    lemma_metered_is_captured(CaptureState { meter: false, ..start }, frames, writes);
    lemma_captured_meter(start, false, frames);
}

proof fn lemma_captured_meter(start: CaptureState, meter: bool, frames: Seq<(Seq<u8>, Seq<u8>)>)
    ensures
        captured(CaptureState { meter, ..start }, frames) == (CaptureState {
            meter,
            ..captured(start, frames)
        }),
        captured(start, frames).meter == start.meter,
    decreases frames.len(),
{
    if frames.len() > 0 {
        lemma_captured_meter(start, meter, frames.drop_last());
    }
}

proof fn lemma_metered_is_captured(
    start: CaptureState,
    frames: Seq<(Seq<u8>, Seq<u8>)>,
    writes: Seq<MeterWrite>,
)
    requires
        frames.len() <= writes.len(),
        forall|i: int| 0 <= i < writes.len() ==> #[trigger] writes[i] != MeterWrite::Failed,
    ensures
        metered(start, frames, writes) == Some(captured(start, frames)),
    decreases frames.len(),
{
    if frames.len() > 0 {
        lemma_metered_is_captured(start, frames.drop_last(), writes);
    }
}

/// The meter's bytes for two reads, the first of whole frames, are those for both at once.
pub proof fn law_meter_bytes_by_parts(first: Seq<i16>, second: Seq<i16>, channels: u8)
    requires
        channels > 1 ==> first.len() % channels as nat == 0,
    ensures
        bytes_of_pcm(mono_mix(first + second, channels)) == bytes_of_pcm(mono_mix(first, channels))
            + bytes_of_pcm(mono_mix(second, channels)),
{
    law_mono_mix_by_parts(first, second, channels);
    law_bytes_of_pcm_by_parts(mono_mix(first, channels), mono_mix(second, channels));
}

} // verus!
