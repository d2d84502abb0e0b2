use pku3b::mime::get_mime_type;
use pku3b::text::{find_str, parse_u64, trim};

#[test]
fn test_get_mime_type() {
    assert_eq!(get_mime_type("html"), "text/html");
    assert_eq!(get_mime_type("png"), "image/png");
    assert_eq!(get_mime_type("mp3"), "audio/mpeg");
    assert_eq!(get_mime_type("unknown"), "application/octet-stream");
}

#[test]
fn mime_more_entries() {
    assert_eq!(get_mime_type("htm"), "text/html");
    assert_eq!(get_mime_type("jpeg"), "image/jpeg");
    assert_eq!(get_mime_type("pdf"), "application/pdf");
    assert_eq!(get_mime_type("7z"), "application/x-7z-compressed");
    assert_eq!(get_mime_type(""), "application/octet-stream");
}

#[test]
fn trim_strips_spaces_and_carriage_returns() {
    assert_eq!(trim("  hello\r\t "), "hello");
    assert_eq!(trim(""), "");
    assert_eq!(trim("\r\r"), "");
    assert_eq!(trim("a b"), "a b");
}

#[test]
fn parse_u64_values() {
    assert_eq!(parse_u64("0"), Some(0));
    assert_eq!(parse_u64("100"), Some(100));
    assert_eq!(parse_u64("18446744073709551615"), Some(u64::MAX));
    assert_eq!(parse_u64("18446744073709551616"), None);
    assert_eq!(parse_u64(""), None);
    assert_eq!(parse_u64("12a"), None);
}

#[test]
fn find_str_positions() {
    assert_eq!(find_str("hello world", "world"), Some(6));
    assert_eq!(find_str("hello", "xyz"), None);
    assert_eq!(find_str("aaa", "aa"), Some(0));
    assert_eq!(find_str("abc", ""), Some(0));
}
