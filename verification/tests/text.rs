use twilight::number::decimal;
use twilight::text::{argument, chunk_text, join_strings};
use twilight::types::common::IOptions;

#[test]
fn argument_skips_short_words_and_command() {
    assert_eq!(argument("-show x key", "-show"), "key");
    assert_eq!(argument("-show é", "-show"), "é");
    assert_eq!(argument("-show\u{2003}ab\u{a0}cd", "-show"), "ab");
    assert_eq!(argument("-show -show", "-show"), "");
    assert_eq!(argument("", "-show"), "");
}

#[test]
fn decimal_prints_numbers() {
    assert_eq!(decimal(0), "0");
    assert_eq!(decimal(7), "7");
    assert_eq!(decimal(12345), "12345");
    assert_eq!(decimal(u64::MAX), u64::MAX.to_string());
}

#[test]
fn decimal_parses_back() {
    for n in [0i32, 9, 10, 12345, i32::MAX] {
        assert_eq!(decimal(n as u64).parse::<i32>().unwrap(), n);
    }
}

#[test]
fn chunks_cover_text() {
    let text = "a".repeat(9000);
    let chunks = chunk_text(&text);
    assert_eq!(chunks.iter().map(|c| c.len()).collect::<Vec<_>>(), vec![4000, 4000, 1000]);
    assert_eq!(chunks.concat(), text);
    let wide = "é".repeat(2001);
    let chunks = chunk_text(&wide);
    assert_eq!(chunks.iter().map(|c| c.chars().count()).collect::<Vec<_>>(), vec![2000, 1]);
    assert_eq!(chunks.concat(), wide);
    let mixed = format!("{}é", "a".repeat(3999));
    let chunks = chunk_text(&mixed);
    assert_eq!(chunks, vec!["a".repeat(3999), "é".to_string()]);
    assert!(chunk_text("").is_empty());
}

#[test]
fn join_with_separator() {
    let parts = vec!["x".to_string(), "y".to_string(), "z".to_string()];
    assert_eq!(join_strings(&parts, "\n\n"), "x\n\ny\n\nz");
    assert_eq!(join_strings(&vec![], "-"), "");
}

#[test]
fn options_hold_token() {
    let o = IOptions { discord: "SECRET-REDACTED".to_string() };
    assert_eq!(o.discord, "SECRET-REDACTED");
}
