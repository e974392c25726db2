use std::path::PathBuf;

use discord_voice_engine::pulse_capture::{
    after_meter_write, build_parec_command, capture_source, parec_failure_message, write_meter_pcm,
    CaptureAction, CaptureOptions, CaptureSession, CaptureStats, MeterNext, MeterWrite,
};
use discord_voice_engine::{AudioMode, EngineConfig, DEFAULT_PAYLOAD_TYPE, SAMPLE_RATE};

fn options<'a>(device: Option<&'a str>, dump: Option<&'a PathBuf>) -> CaptureOptions<'a> {
    CaptureOptions {
        device,
        rtp_addr: "127.0.0.1:5004",
        meter_stdout: true,
        duration_ms: Some(60),
        dump_input_pcm: dump,
        stats_json: None,
    }
}

#[test]
fn builds_low_latency_parec_command() {
    assert_eq!(
        build_parec_command(None, 2),
        vec![
            "--record",
            "--raw",
            "--client-name=discord-voice-engine",
            "--stream-name=Discord voice microphone",
            "--format=s16le",
            "--rate=48000",
            "--channels=2",
            "--latency-msec=20",
            "--process-time-msec=20",
        ]
    );
    assert!(build_parec_command(Some("alsa_input.test"), 1)
        .contains(&"--device=alsa_input.test".to_string()));
}

#[test]
fn capture_stats_are_serializable() {
    let stats = CaptureStats {
        mode: "capture-mic",
        source: Some("default".to_string()),
        sample_rate: SAMPLE_RATE,
        channels: 2,
        frames: 3,
        packets: 3,
        duration_ms: 60,
        payload_bytes: 123,
        bitrate: AudioMode::Voice.default_bitrate(2),
        capture_backend: "parec",
    };
    let mut object = serde_json::Map::new();
    object.insert("mode".to_string(), serde_json::Value::from(stats.mode));
    object.insert("source".to_string(), serde_json::Value::from(stats.source));
    object.insert("sample_rate".to_string(), serde_json::Value::from(stats.sample_rate));
    object.insert("channels".to_string(), serde_json::Value::from(stats.channels));
    object.insert("frames".to_string(), serde_json::Value::from(stats.frames));
    object.insert("packets".to_string(), serde_json::Value::from(stats.packets));
    object.insert("duration_ms".to_string(), serde_json::Value::from(stats.duration_ms));
    object.insert("payload_bytes".to_string(), serde_json::Value::from(stats.payload_bytes));
    object.insert("bitrate".to_string(), serde_json::Value::from(stats.bitrate));
    object.insert("capture_backend".to_string(), serde_json::Value::from(stats.capture_backend));
    let json = serde_json::to_string(&object).unwrap();
    assert!(json.contains("capture-mic"));
    assert!(json.contains("96000"));
    assert!(json.contains("parec"));

    let config = EngineConfig::new(AudioMode::Voice, 2, None, DEFAULT_PAYLOAD_TYPE, 1);
    assert_eq!(config.bitrate, 96_000);
}

#[test]
fn writes_meter_pcm_as_mono_s16le() {
    let mut bytes = Vec::new();
    write_meter_pcm(&mut bytes, &[100, 300, -100, -300], 2);
    assert_eq!(
        bytes,
        [200i16.to_le_bytes(), (-200i16).to_le_bytes()].concat()
    );
}

#[test]
fn meter_pcm_is_appended() {
    let mut bytes = vec![7u8];
    write_meter_pcm(&mut bytes, &[1, -1], 1);
    assert_eq!(bytes, vec![7, 1, 0, 255, 255]);
}

#[test]
fn default_device_is_not_named() {
    assert_eq!(capture_source(None), None);
    assert_eq!(capture_source(Some("")), None);
    assert_eq!(capture_source(Some("default")), None);
    assert_eq!(capture_source(Some("default ")), Some("default "));
    let plain = build_parec_command(None, 1);
    assert_eq!(build_parec_command(Some("default"), 1), plain);
    assert_eq!(build_parec_command(Some(""), 1), plain);
    assert_eq!(plain.len(), 9);
    let named = build_parec_command(Some("mic"), 1);
    assert_eq!(named.len(), 10);
    assert_eq!(named[9], "--device=mic");
}

#[test]
fn source_is_settled_once() {
    for device in [None, Some(""), Some("default"), Some("mic")] {
        let source = capture_source(device);
        assert_eq!(capture_source(source), source);
        assert_eq!(build_parec_command(source, 2), build_parec_command(device, 2));
    }
}

#[test]
fn recorder_channels_are_clamped() {
    assert_eq!(build_parec_command(None, 0)[6], "--channels=1");
    assert_eq!(build_parec_command(None, 1)[6], "--channels=1");
    assert_eq!(build_parec_command(None, 255)[6], "--channels=2");
}

#[test]
fn meter_writes_are_settled() {
    assert_eq!(after_meter_write(MeterWrite::Written), MeterNext::Flush);
    assert_eq!(after_meter_write(MeterWrite::BrokenPipe), MeterNext::Continue);
    assert_eq!(after_meter_write(MeterWrite::Failed), MeterNext::Abort);
}

#[test]
fn failure_message_quotes_the_recorder() {
    assert_eq!(parec_failure_message(""), "parec failed");
    assert_eq!(parec_failure_message(" \r\n\t"), "parec failed");
    assert_eq!(
        parec_failure_message("\n Connection refused \u{2003}\n"),
        "parec failed: Connection refused"
    );
}

#[test]
fn capture_runs_until_its_time_is_up() {
    let config = EngineConfig::new(AudioMode::Voice, 2, None, DEFAULT_PAYLOAD_TYPE, 1);
    let session = CaptureSession::new(&config, &options(None, None));
    assert_eq!(session.next_action(0), CaptureAction::Read { bytes: 3840 });
    assert_eq!(session.next_action(59), CaptureAction::Read { bytes: 3840 });
    assert_eq!(session.next_action(60), CaptureAction::Stop);
    assert_eq!(session.next_action(61), CaptureAction::Stop);
    let mut endless = options(None, None);
    endless.duration_ms = None;
    let session = CaptureSession::new(&config, &endless);
    assert_eq!(session.next_action(u64::MAX), CaptureAction::Read { bytes: 3840 });
}

#[test]
fn captured_frames_are_numbered_and_reported() {
    let config = EngineConfig::new(AudioMode::Voice, 2, None, 120, 0x0102_0304);
    let dump = PathBuf::from("dump.wav");
    let mut session = CaptureSession::new(&config, &options(Some("mic"), Some(&dump)));
    let frame = session.accept(&[100, 0, 44, 1, 156, 255, 212, 254]);
    assert_eq!(frame.pcm, vec![100, 300, -100, -300]);
    assert_eq!(frame.meter, Some(vec![200, 0, 56, 255]));
    let packet = session.packetize(&[9, 8, 7]);
    assert_eq!(packet, vec![0x80, 120, 0, 0, 0, 0, 0, 0, 1, 2, 3, 4, 9, 8, 7]);
    session.packet_sent();
    session.accept(&[1, 0]);
    let packet = session.packetize(&[5]);
    assert_eq!(packet, vec![0x80, 120, 0, 1, 0, 0, 3, 192, 1, 2, 3, 4, 5]);
    session.packet_sent();
    assert_eq!(session.input().to_vec(), vec![100, 300, -100, -300, 1]);
    let stats = session.stats(41);
    assert_eq!(stats.mode, "capture-mic");
    assert_eq!(stats.source, Some("mic".to_string()));
    assert_eq!(stats.sample_rate, 48_000);
    assert_eq!(stats.channels, 2);
    assert_eq!(stats.frames, 2);
    assert_eq!(stats.packets, 2);
    assert_eq!(stats.duration_ms, 41);
    assert_eq!(stats.payload_bytes, 4);
    assert_eq!(stats.bitrate, 96_000);
    assert_eq!(stats.capture_backend, "parec");
    assert_eq!(
        stats.summary(),
        "discord-voice-engine capture-mic: sent 2 RTP packet(s), 4 Opus byte(s) via parec"
    );
}

#[test]
fn capture_without_meter_or_dump_keeps_nothing() {
    let config = EngineConfig::new(AudioMode::Music, 1, Some(64_000), 120, 1);
    let mut asked = options(Some("default"), None);
    asked.meter_stdout = false;
    let mut session = CaptureSession::new(&config, &asked);
    let frame = session.accept(&[1, 0, 2, 0, 3]);
    assert_eq!(frame.pcm, vec![1, 2]);
    assert_eq!(frame.meter, None);
    assert!(session.input().is_empty());
    let stats = session.stats(0);
    assert_eq!(stats.source, None);
    assert_eq!(stats.bitrate, 64_000);
}

#[test]
fn packet_numbers_wrap() {
    let config = EngineConfig::new(AudioMode::Voice, 1, None, 120, 1);
    let mut session = CaptureSession::new(&config, &options(None, None));
    for _ in 0..65_537u32 {
        session.packet_sent();
    }
    let packet = session.packetize(&[]);
    // 65537 * 960 = 0x03c0_03c0
    assert_eq!(packet, vec![0x80, 120, 0, 1, 3, 192, 3, 192, 0, 0, 0, 1]);
}

#[test]
fn meter_changes_nothing_else() {
    let config = EngineConfig::new(AudioMode::Voice, 2, None, 120, 9);
    let dump = PathBuf::from("dump.wav");
    let metered = options(Some("mic"), Some(&dump));
    let mut plain = metered.clone();
    plain.meter_stdout = false;
    let mut one = CaptureSession::new(&config, &metered);
    let mut two = CaptureSession::new(&config, &plain);
    for step in 0..5u8 {
        assert_eq!(one.next_action(u64::from(step) * 20), two.next_action(u64::from(step) * 20));
        let bytes = [step, 1, 2, 3];
        let frame = one.accept(&bytes);
        let other = two.accept(&bytes);
        assert_eq!(frame.pcm, other.pcm);
        assert!(frame.meter.is_some() && other.meter.is_none());
        assert_ne!(after_meter_write(MeterWrite::BrokenPipe), MeterNext::Abort);
        assert_eq!(one.packetize(&[step]), two.packetize(&[step]));
        one.packet_sent();
        two.packet_sent();
    }
    assert_eq!(one.input().to_vec(), two.input().to_vec());
    assert_eq!(format!("{:?}", one.stats(100)), format!("{:?}", two.stats(100)));
}

#[test]
fn meter_bytes_can_be_written_by_parts() {
    let mut whole = Vec::new();
    write_meter_pcm(&mut whole, &[1, 3, -5, -7, 9, 10, 4], 2);
    let mut parts = Vec::new();
    write_meter_pcm(&mut parts, &[1, 3, -5, -7], 2);
    write_meter_pcm(&mut parts, &[9, 10, 4], 2);
    assert_eq!(whole, parts);
    assert_eq!(whole, vec![2, 0, 250, 255, 9, 0]);
}
