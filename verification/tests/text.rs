use discord_voice_engine::payload::{decode_payload, PayloadError};
use discord_voice_engine::text::{is_blank, push_decimal, push_trimmed, text_entries};

#[test]
fn numbers_are_written_in_decimal() {
    let mut text = "n=".to_string();
    push_decimal(&mut text, 0);
    push_decimal(&mut text, 18_446_744_073_709_551_615);
    assert_eq!(text, "n=018446744073709551615");
}

#[test]
fn blank_texts_are_recognised() {
    assert!(is_blank(""));
    assert!(is_blank(" \t\u{b}\u{85}\u{a0}\u{1680}\u{2029}\u{3000}"));
    assert!(!is_blank(" x "));
    assert!(!is_blank("\u{200b}"));
    for code in 0..0x11_0000u32 {
        if let Some(c) = char::from_u32(code) {
            assert_eq!(is_blank(&c.to_string()), c.is_whitespace());
        }
    }
}

#[test]
fn trimming_keeps_inner_space() {
    let mut text = "<".to_string();
    assert!(push_trimmed(&mut text, "\t a  b \n"));
    assert!(!push_trimmed(&mut text, " \n"));
    assert_eq!(text, "<a  b");
}

#[test]
fn entries_keep_their_line_numbers() {
    let source = "one\r\n\n  \t\r\ntwo\rx\nlast\r";
    let expected: Vec<(usize, String)> = source
        .lines()
        .enumerate()
        .filter(|(_, line)| !line.trim().is_empty())
        .map(|(index, line)| (index + 1, line.to_string()))
        .collect();
    let entries: Vec<(usize, String)> =
        text_entries(source).into_iter().map(|entry| (entry.number, entry.text)).collect();
    assert_eq!(entries, expected);
    assert_eq!(entries[0], (1, "one".to_string()));
    assert_eq!(entries[1], (4, "two\rx".to_string()));
    assert_eq!(entries[2], (5, "last\r".to_string()));
    assert!(text_entries("").is_empty());
    assert_eq!(text_entries("a\n").len(), 1);
}

#[test]
fn payloads_are_standard_base64() {
    assert_eq!(decode_payload("").unwrap(), Vec::<u8>::new());
    assert_eq!(decode_payload("+/8=").unwrap(), vec![0xfb, 0xff]);
    assert_eq!(decode_payload("-_8="), Err(PayloadError::InvalidByte(0, b'-')));
}

#[test]
fn blank_lines_only_count_for_the_numbers() {
    let plain = text_entries("a\r\nb");
    let spaced = text_entries("a\r\n \n\t\r\nb");
    assert_eq!(plain.len(), 2);
    assert_eq!(spaced.len(), 2);
    assert_eq!(plain[0].text, spaced[0].text);
    assert_eq!(plain[1].text, spaced[1].text);
    assert_eq!((plain[1].number, spaced[1].number), (2, 4));
    assert_eq!(text_entries("a\n  ").len(), 1);
}
