use discord_voice_engine::audio::{
    extend_le_bytes, interleaved_i16_to_mono, interleaved_len, padding_to_full_opus_frames,
    pcm_duration_ms, pcm_from_le_bytes,
};
use discord_voice_engine::config::{opus_channels, AudioMode, Channels};
use discord_voice_engine::wav::{wav_header, WavEncoding};

#[test]
fn pcm_bytes_round_trip() {
    let pcm = vec![0i16, 1, -1, 255, 256, -256, i16::MAX, i16::MIN];
    let mut bytes = Vec::new();
    extend_le_bytes(&mut bytes, &pcm);
    let expected: Vec<u8> = pcm.iter().flat_map(|sample| sample.to_le_bytes()).collect();
    assert_eq!(bytes, expected);
    assert_eq!(pcm_from_le_bytes(&bytes), pcm);
    bytes.push(9);
    assert_eq!(pcm_from_le_bytes(&bytes), pcm);
}

#[test]
fn mono_mix_is_the_mean_rounded_toward_zero() {
    assert_eq!(interleaved_i16_to_mono(&[1, 2, -1, -2, 7], 2), vec![1, -1]);
    assert_eq!(
        interleaved_i16_to_mono(&[i16::MIN, i16::MIN, i16::MAX, i16::MAX], 2),
        vec![i16::MIN, i16::MAX]
    );
    assert_eq!(interleaved_i16_to_mono(&[3, -4], 1), vec![3, -4]);
    assert_eq!(interleaved_i16_to_mono(&[3, -4], 0), vec![3, -4]);
    assert_eq!(interleaved_i16_to_mono(&[1, 2, 4], 3), vec![2]);
}

#[test]
fn durations_are_whole_milliseconds() {
    assert_eq!(pcm_duration_ms(96_000, 2), 1000);
    assert_eq!(pcm_duration_ms(95_999, 2), 999);
    assert_eq!(pcm_duration_ms(47, 1), 0);
    assert_eq!(pcm_duration_ms(96_000, 0), 0);
}

#[test]
fn frames_are_filled_up() {
    assert_eq!(padding_to_full_opus_frames(0, 2), 0);
    assert_eq!(padding_to_full_opus_frames(1920, 2), 0);
    assert_eq!(padding_to_full_opus_frames(1921, 2), 1919);
    assert_eq!(interleaved_len(960, 2), 1920);
}

#[test]
fn channel_counts_map_to_layouts() {
    assert_eq!(opus_channels(1), Channels::Mono);
    assert_eq!(opus_channels(2), Channels::Stereo);
    assert_eq!(opus_channels(0), Channels::Stereo);
    assert_eq!(AudioMode::Voice.default_bitrate(2), 96_000);
}

#[test]
fn wav_header_describes_the_data() {
    assert_eq!(
        wav_header(WavEncoding::Pcm16, 2, 8).unwrap(),
        vec![
            82, 73, 70, 70, 44, 0, 0, 0, 87, 65, 86, 69, 102, 109, 116, 32, 16, 0, 0, 0, 1, 0, 2, 0,
            128, 187, 0, 0, 0, 238, 2, 0, 4, 0, 16, 0, 100, 97, 116, 97, 8, 0, 0, 0
        ]
    );
    let float = wav_header(WavEncoding::Float32, 1, 4).unwrap();
    assert_eq!(float.len(), 44);
    assert_eq!(float[20], 3);
    assert_eq!(float[34], 32);
    assert!(wav_header(WavEncoding::Pcm16, 1, 0xffff_ffdb).is_some());
    assert!(wav_header(WavEncoding::Pcm16, 1, 0xffff_ffdc).is_none());
}

#[test]
fn samples_are_read_written_and_mixed_by_parts() {
    assert_eq!(
        pcm_from_le_bytes(&[1, 2, 3, 4, 5]),
        [pcm_from_le_bytes(&[1, 2]), pcm_from_le_bytes(&[3, 4, 5])].concat()
    );
    let mut whole = Vec::new();
    extend_le_bytes(&mut whole, &[-2, 700]);
    let mut parts = Vec::new();
    extend_le_bytes(&mut parts, &[-2]);
    extend_le_bytes(&mut parts, &[700]);
    assert_eq!(whole, parts);
    assert_eq!(
        interleaved_i16_to_mono(&[1, 2, 3, 4, 5, 6, 7], 3),
        [interleaved_i16_to_mono(&[1, 2, 3], 3), interleaved_i16_to_mono(&[4, 5, 6, 7], 3)].concat()
    );
}
