use discord_voice_engine::payload::PayloadError;
use discord_voice_engine::text::text_entries;
use discord_voice_engine::trace::{
    classify_arrival, Arrival, DecodeTraceGap, DecodeTraceStats, PacketMark, PlaybackTraceFrame,
    TraceSession,
};

fn frame(sequence: u16, payload: &str) -> PlaybackTraceFrame {
    PlaybackTraceFrame {
        ssrc: 1,
        sequence,
        timestamp: u32::from(sequence) * 960,
        payload: payload.to_string(),
    }
}

/// Answers every open request with one stereo frame of two samples.
fn drain(session: &mut TraceSession) -> Vec<bool> {
    let mut answered = Vec::new();
    loop {
        let concealment = match session.request() {
            Some(request) => request.concealment,
            None => break,
        };
        session.complete(&[1, -1]);
        answered.push(concealment);
    }
    answered
}

fn replay(sequences: &[u16]) -> DecodeTraceStats {
    let mut session = TraceSession::new(2);
    for sequence in sequences {
        assert!(session.has_room(*sequence));
        session.receive(&frame(*sequence, "AQID")).unwrap();
        drain(&mut session);
    }
    session.stats("in.jsonl", "out.wav")
}

#[test]
fn arrivals_are_classified() {
    assert_eq!(classify_arrival(None, 7), Arrival::First);
    assert_eq!(classify_arrival(Some(7), 7), Arrival::Duplicate);
    assert_eq!(classify_arrival(Some(7), 8), Arrival::Ahead { missing: 0 });
    assert_eq!(classify_arrival(Some(65_535), 0), Arrival::Ahead { missing: 0 });
    assert_eq!(classify_arrival(Some(0), 0x7fff), Arrival::Ahead { missing: 0x7ffe });
    assert_eq!(classify_arrival(Some(0), 0x8000), Arrival::Late);
    assert_eq!(classify_arrival(Some(8), 7), Arrival::Late);
}

#[test]
fn unbroken_trace_is_decoded_packet_by_packet() {
    let stats = replay(&[65_534, 65_535, 0, 1]);
    assert_eq!(stats.received_packets, 4);
    assert_eq!(stats.decoded_packets, 4);
    assert_eq!(stats.concealed_lost_packets, 0);
    assert_eq!(stats.sequence_gap_events, 0);
    assert_eq!(stats.max_consecutive_lost_packets, 0);
    assert_eq!(stats.duplicate_packets, 0);
    assert_eq!(stats.out_of_order_packets, 0);
    assert_eq!(stats.first_sequence, Some(65_534));
    assert_eq!(stats.last_sequence, Some(1));
    assert_eq!(stats.first_timestamp, Some(65_534 * 960));
    assert_eq!(stats.last_timestamp, Some(960));
    assert!(stats.gaps.is_empty());
    assert!(!stats.gaps_truncated);
}

#[test]
fn losses_are_concealed_and_reported() {
    let stats = replay(&[10, 11, 14, 14, 13, 15, 20]);
    assert_eq!(stats.mode, "decode-trace");
    assert_eq!(stats.input, "in.jsonl");
    assert_eq!(stats.output, "out.wav");
    assert_eq!(stats.sample_rate, 48_000);
    assert_eq!(stats.channels, 2);
    assert_eq!(stats.received_packets, 7);
    assert_eq!(stats.duplicate_packets, 1);
    assert_eq!(stats.out_of_order_packets, 1);
    assert_eq!(stats.concealed_lost_packets, 6);
    assert_eq!(stats.decoded_packets, 11);
    assert_eq!(stats.sequence_gap_events, 2);
    assert_eq!(stats.max_consecutive_lost_packets, 4);
    assert_eq!(stats.first_sequence, Some(10));
    assert_eq!(stats.last_sequence, Some(20));
    assert_eq!(
        stats.gaps,
        vec![
            DecodeTraceGap {
                previous_sequence: 11,
                sequence: 14,
                missing_packets: 2,
                offset_ms: 40,
                missing_duration_ms: 40,
            },
            DecodeTraceGap {
                previous_sequence: 15,
                sequence: 20,
                missing_packets: 4,
                offset_ms: 120,
                missing_duration_ms: 80,
            },
        ]
    );
    assert_eq!(
        stats.summary(),
        "discord-voice-engine decode-trace: decoded 7 packet(s), concealed 6 lost packet(s) across 2 gap(s)"
    );
}

#[test]
fn only_the_first_hundred_gaps_are_listed() {
    let sequences: Vec<u16> = (0..101u16).map(|i| i * 2).collect();
    let stats = replay(&sequences);
    assert_eq!(stats.sequence_gap_events, 100);
    assert_eq!(stats.gaps.len(), 100);
    assert!(!stats.gaps_truncated);
    let sequences: Vec<u16> = (0..102u16).map(|i| i * 2).collect();
    let stats = replay(&sequences);
    assert_eq!(stats.sequence_gap_events, 101);
    assert_eq!(stats.gaps.len(), 100);
    assert!(stats.gaps_truncated);
    assert_eq!(stats.concealed_lost_packets, 101);
    assert_eq!(stats.decoded_packets, 203);
}

#[test]
fn requests_conceal_losses_before_the_packet() {
    let mut session = TraceSession::new(2);
    session.receive(&frame(1, "AQID")).unwrap();
    {
        let request = session.request().unwrap();
        assert_eq!(request.payload.to_vec(), vec![1, 2, 3]);
        assert_eq!(request.max_samples, 5760);
        assert!(!request.concealment);
    }
    assert_eq!(drain(&mut session), vec![false]);
    session.receive(&frame(4, "BAU=")).unwrap();
    {
        let request = session.request().unwrap();
        assert!(request.payload.is_empty());
        assert_eq!(request.max_samples, 1920);
        assert!(request.concealment);
    }
    assert_eq!(drain(&mut session), vec![true, true, false]);
    assert!(session.request().is_none());
    assert_eq!(session.pcm().to_vec(), vec![1, -1, 1, -1, 1, -1, 1, -1]);
}

#[test]
fn empty_payload_is_decoded_like_a_loss() {
    let mut session = TraceSession::new(1);
    session.receive(&frame(1, "")).unwrap();
    let request = session.request().unwrap();
    assert!(request.payload.is_empty());
    assert_eq!(request.max_samples, 960);
    assert!(!request.concealment);
}

#[test]
fn duplicates_and_late_packets_ask_for_nothing() {
    let mut session = TraceSession::new(2);
    session.receive(&frame(5, "AQID")).unwrap();
    drain(&mut session);
    session.receive(&frame(5, "AQID")).unwrap();
    assert!(session.request().is_none());
    session.receive(&frame(4, "AQID")).unwrap();
    assert!(session.request().is_none());
    let stats = session.stats("", "");
    assert_eq!(stats.received_packets, 3);
    assert_eq!(stats.decoded_packets, 1);
    assert_eq!(stats.last_sequence, Some(5));
}

#[test]
fn bad_payloads_are_refused_before_counting() {
    let mut session = TraceSession::new(2);
    assert_eq!(session.receive(&frame(1, "A!ID")), Err(PayloadError::InvalidByte(1, b'!')));
    assert_eq!(session.receive(&frame(1, "AQIDA")), Err(PayloadError::InvalidLength(5)));
    assert_eq!(session.receive(&frame(1, "AQJ=")), Err(PayloadError::InvalidLastSymbol(2, b'J')));
    assert_eq!(session.receive(&frame(1, "AQI")), Err(PayloadError::InvalidPadding));
    assert!(session.request().is_none());
    let stats = session.stats("a", "b");
    assert_eq!(stats.received_packets, 0);
    assert_eq!(stats.first_sequence, None);
    assert_eq!(stats.last_timestamp, None);
    assert_eq!(stats.output_duration_ms, 0);
}

#[test]
fn decoded_payloads_can_be_handed_in() {
    let mut session = TraceSession::new(2);
    session.receive_packet(PacketMark { sequence: 3, timestamp: 9 }, vec![4, 5]);
    assert_eq!(session.request().unwrap().payload.to_vec(), vec![4, 5]);
    let samples = vec![0i16; 96_000];
    session.complete(&samples);
    let stats = session.stats("a", "b");
    assert_eq!(stats.first_timestamp, Some(9));
    assert_eq!(stats.output_duration_ms, 1000);
}

/// Replays the trace in `text`; the answer to each request depends on all requests so far.
fn replay_text(text: &str) -> (DecodeTraceStats, Vec<i16>) {
    let mut session = TraceSession::new(1);
    let mut asked: i16 = 0;
    for entry in text_entries(text) {
        let line: serde_json::Value = serde_json::from_str(&entry.text).unwrap();
        let frame = PlaybackTraceFrame {
            ssrc: line["ssrc"].as_u64().unwrap() as u32,
            sequence: line["sequence"].as_u64().unwrap() as u16,
            timestamp: line["timestamp"].as_u64().unwrap() as u32,
            payload: line["payload"].as_str().unwrap().to_string(),
        };
        session.receive(&frame).unwrap();
        loop {
            let answer = match session.request() {
                Some(request) => {
                    asked = asked.wrapping_mul(31).wrapping_add(1);
                    for byte in request.payload {
                        asked = asked.wrapping_mul(31).wrapping_add(i16::from(*byte));
                    }
                    [asked]
                }
                None => break,
            };
            session.complete(&answer);
        }
    }
    let pcm = session.pcm().to_vec();
    (session.stats("in", "out"), pcm)
}

#[test]
fn only_what_is_played_matters() {
    let one = concat_lines(&[
        r#"{"ssrc":1,"sequence":7,"timestamp":10,"payload":"AQID"}"#,
        r#"{"ssrc":1,"sequence":7,"timestamp":11,"payload":"AQID"}"#,
        r#"{"ssrc":1,"sequence":6,"timestamp":12,"payload":"AQID"}"#,
        r#"{"ssrc":1,"sequence":9,"timestamp":13,"payload":"BAU="}"#,
    ]);
    let two = concat_lines(&[
        "",
        r#"{"ssrc":1,"sequence":7,"timestamp":10,"payload":"AQID"}"#,
        "  \t",
        r#"{"ssrc":2,"sequence":7,"timestamp":11,"payload":""}"#,
        r#"{"ssrc":3,"sequence":6,"timestamp":12,"payload":"////"}"#,
        r#"{"ssrc":4,"sequence":9,"timestamp":13,"payload":"BAU="}"#,
        " ",
    ]);
    let (stats, pcm) = replay_text(&one);
    let (other, other_pcm) = replay_text(&two);
    assert_eq!(format!("{:?}", stats), format!("{:?}", other));
    assert_eq!(pcm, other_pcm);
    assert_eq!(pcm.len(), 3);
    assert_eq!(stats.decoded_packets, 3);
    assert_eq!((stats.duplicate_packets, stats.out_of_order_packets), (1, 1));
    let (_, changed) = replay_text(&one.replace("BAU=", "BAY="));
    assert_ne!(pcm, changed);
}

fn concat_lines(lines: &[&str]) -> String {
    lines.join("\n")
}

#[test]
fn longest_gap_is_under_half_the_circle() {
    let stats = replay(&[0, 0x7fff]);
    assert_eq!(stats.concealed_lost_packets, 0x7ffe);
    assert_eq!(stats.max_consecutive_lost_packets, 0x7ffe);
    assert_eq!(stats.gaps[0].offset_ms, 20);
    assert_eq!(stats.gaps[0].missing_duration_ms, 0x7ffe * 20);
    let stats = replay(&[0, 0x8000]);
    assert_eq!(stats.concealed_lost_packets, 0);
    assert_eq!(stats.out_of_order_packets, 1);
}
