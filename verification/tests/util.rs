use meet::text::same_text;
use meet::util::{decode, encode, text_from_utf8, trim_line, TextError};

#[test]
fn text_goes_to_base64() {
    assert_eq!(encode(""), "");
    assert_eq!(encode("f"), "Zg==");
    assert_eq!(encode("fo"), "Zm8=");
    assert_eq!(encode("foo"), "Zm9v");
    assert_eq!(encode("hello world"), "aGVsbG8gd29ybGQ=");
    assert_eq!(encode("h\u{e9}"), "aMOp");
}

#[test]
fn base64_goes_back_to_text() {
    assert_eq!(decode("").expect("empty is fine"), "");
    assert_eq!(decode("aGVsbG8gd29ybGQ=").expect("valid"), "hello world");
    assert_eq!(decode("aMOp").expect("valid"), "h\u{e9}");
    for text in ["", "a", "ab", "abc", "v=0\r\no=- 46117317 2 IN IP4 127.0.0.1", "\u{1f600}"] {
        assert_eq!(decode(&encode(text)).expect("what was encoded decodes"), text);
    }
}

#[test]
fn what_is_not_base64_is_refused() {
    assert!(matches!(decode("not base64!"), Err(TextError::Base64(_))));
    assert!(matches!(decode("Zg"), Err(TextError::Base64(_))));
    assert!(matches!(decode("Zg=="), Ok(_)));
}

#[test]
fn bytes_that_are_not_text_are_refused() {
    assert!(matches!(decode("/w=="), Err(TextError::Utf8(_))));
    assert!(matches!(decode("wyg="), Err(TextError::Utf8(_))));
}

#[test]
fn bytes_are_read_as_utf8() {
    assert_eq!(text_from_utf8(vec![104, 105]).expect("ascii"), "hi");
    assert_eq!(text_from_utf8(vec![0xc3, 0xa9]).expect("two bytes"), "\u{e9}");
    assert_eq!(text_from_utf8(Vec::new()).expect("empty"), "");
    assert!(matches!(text_from_utf8(vec![0xff]), Err(TextError::Utf8(_))));
    assert!(matches!(text_from_utf8(vec![0xc3]), Err(TextError::Utf8(_))));
}

#[test]
fn a_line_loses_the_white_space_at_its_ends() {
    assert_eq!(trim_line("  hello world \r\n"), "hello world");
    assert_eq!(trim_line("\tx\t"), "x");
    assert_eq!(trim_line("   "), "");
    assert_eq!(trim_line(""), "");
    assert_eq!(trim_line("a  b"), "a  b");
}

#[test]
fn slices_are_compared_by_their_characters() {
    assert!(same_text("", ""));
    assert!(same_text("room1", "room1"));
    assert!(!same_text("room1", "room2"));
    assert!(!same_text("room", "room1"));
    assert!(!same_text("room1", "room"));
    assert!(same_text("h\u{e9}", "h\u{e9}"));
    assert!(!same_text("h\u{e9}", "he"));
    assert!(!same_text("a", "A"));
}
