use discord_voice_engine::encode_file::{encode_file_report, encode_file_stats};
use discord_voice_engine::rtp::{
    build_rtp_packet, frame_due_ms, frame_payloads_to_rtp, rtp_sequence_delta,
    total_payload_bytes,
};
use discord_voice_engine::{AudioMode, EngineConfig};

#[test]
fn sequence_delta_wraps() {
    assert_eq!(rtp_sequence_delta(5, 5), 0);
    assert_eq!(rtp_sequence_delta(2, 65_535), 3);
    assert_eq!(rtp_sequence_delta(65_535, 2), 65_533);
    assert_eq!(rtp_sequence_delta(10, 4), 6);
}

#[test]
fn packet_carries_header_and_payload() {
    assert_eq!(
        build_rtp_packet(0xf8, 0x1234, 0x0506_0708, 0xa1b2_c3d4, &[1, 2]),
        vec![0x80, 0x78, 0x12, 0x34, 5, 6, 7, 8, 0xa1, 0xb2, 0xc3, 0xd4, 1, 2]
    );
}

#[test]
fn frames_are_numbered_from_zero() {
    let frames = frame_payloads_to_rtp(vec![vec![1], vec![], vec![2, 3]]);
    assert_eq!(frames.len(), 3);
    assert_eq!((frames[0].sequence, frames[0].timestamp), (0, 0));
    assert_eq!((frames[2].sequence, frames[2].timestamp), (2, 1920));
    assert_eq!(frames[2].payload, vec![2, 3]);
    assert_eq!(total_payload_bytes(&frames), Some(3));
    assert_eq!(total_payload_bytes(&[]), Some(0));
}

#[test]
fn encoded_file_is_reported() {
    let config = EngineConfig::new(AudioMode::Music, 2, Some(128_000), 120, 1);
    let frames = frame_payloads_to_rtp(vec![vec![1, 2, 3], vec![4]]);
    let stats = encode_file_stats("song.ogg", 35, &config, &frames, 2, true).unwrap();
    assert_eq!(stats.mode, "encode-file");
    assert_eq!(stats.input, "song.ogg");
    assert_eq!(stats.input_duration_ms, 35);
    assert_eq!(stats.sample_rate, 48_000);
    assert_eq!(stats.channels, 2);
    assert_eq!(stats.frames, 2);
    assert_eq!(stats.packets, 2);
    assert_eq!(stats.payload_bytes, 4);
    assert_eq!(stats.bitrate, 128_000);
    assert_eq!(stats.sent_packets, 2);
    assert!(stats.realtime);
    assert_eq!(
        stats.summary(),
        "discord-voice-engine encode-file: encoded 2 frame(s), 4 Opus byte(s), sent 2 RTP packet(s)"
    );
}

#[test]
fn report_measures_what_was_loaded() {
    let config = EngineConfig::new(AudioMode::Music, 2, Some(128_000), 120, 1);
    let frames = frame_payloads_to_rtp(vec![vec![1, 2, 3], vec![4]]);
    // 1921 samples are two frames once padded, but 20 whole milliseconds as loaded.
    let stats = encode_file_report("song.ogg", 1921, &config, &frames, None, false).unwrap();
    assert_eq!(stats.input_duration_ms, 20);
    assert_eq!(stats.frames, 2);
    assert_eq!(stats.payload_bytes, 4);
    assert_eq!(stats.sent_packets, 0);
    assert!(!stats.realtime);
    let stats = encode_file_report("song.ogg", 96_000, &config, &frames, Some(2), true).unwrap();
    assert_eq!(stats.mode, "encode-file");
    assert_eq!(stats.input, "song.ogg");
    assert_eq!(stats.input_duration_ms, 1000);
    assert_eq!(stats.sent_packets, 2);
    assert!(stats.realtime);
}

#[test]
fn frames_are_due_every_twenty_milliseconds() {
    assert_eq!(frame_due_ms(0), 0);
    assert_eq!(frame_due_ms(1), 20);
    assert_eq!(frame_due_ms(50), 1000);
    let frames = frame_payloads_to_rtp(vec![vec![], vec![], vec![]]);
    assert_eq!(u64::from(frames[2].timestamp), frame_due_ms(2) * 48);
}
