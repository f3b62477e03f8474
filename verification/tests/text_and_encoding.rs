use v8_matrix::clock::{duration_limit, micros};
use v8_matrix::encoding::{
    decode_base64, decode_text, decode_text_lossy, encode_text, fingerprint,
};
use v8_matrix::text::{
    decimal, is_whitespace, join2, join3, lines_of, same_text, split_whitespace, trim_char,
    trim_whitespace,
};

#[test]
fn whitespace_matches_std() {
    for u in 0..=0x10ffffu32 {
        if let Some(c) = char::from_u32(u) {
            assert_eq!(is_whitespace(c), c.is_whitespace(), "{u:#x}");
        }
    }
}

#[test]
fn words_match_std() {
    for s in ["", " ", "echo", "  echo  hi there ", "a\tb\nc", "\u{3000}x\u{a0}y", "é è"] {
        let expected: Vec<String> = s.split_whitespace().map(String::from).collect();
        assert_eq!(split_whitespace(s), expected);
    }
}

#[test]
fn words_hold_every_other_character() {
    let s = " set  key\tsome value ";
    let kept: String = s.chars().filter(|c| !c.is_whitespace()).collect();
    assert_eq!(split_whitespace(s).concat(), kept);
    assert!(split_whitespace(s).iter().all(|w| !w.is_empty()));
}

#[test]
fn lines_match_std() {
    for s in ["", "\n", "a", "a\n", "a\nb", "a\r\nb\r\n", "a\rb\n", "\r\n", "x\n\ny", "a\r"] {
        let expected: Vec<String> = s.lines().map(String::from).collect();
        assert_eq!(lines_of(s), expected, "{s:?}");
    }
}

#[test]
fn trimming_matches_std() {
    for s in ["", "  ", " a b ", "\u{2003}é\n", "x"] {
        assert_eq!(trim_whitespace(s), s.trim());
    }
    for s in ["", "--", "-a-b-", "a", "--é-"] {
        assert_eq!(trim_char(s, '-'), s.trim_matches('-'));
    }
}

#[test]
fn numerals_have_no_leading_zeros() {
    for n in [0, 7, 10, 99, 100, 10_000, u64::MAX] {
        assert_eq!(decimal(n), n.to_string());
    }
}

#[test]
fn texts_are_joined_and_compared() {
    assert_eq!(join2("a", "é"), "aé");
    assert_eq!(join3("a", "", "c"), "ac");
    assert!(same_text("echo", "echo"));
    assert!(!same_text("echo", "Echo"));
}

#[test]
fn utf8_round_trip() {
    let text = "héllo 🎉";
    assert_eq!(encode_text(text), text.as_bytes());
    assert_eq!(decode_text(encode_text(text)).unwrap(), text);
    assert_eq!(encode_text(&decode_text(vec![0xc3, 0xa9]).unwrap()), vec![0xc3, 0xa9]);
}

#[test]
fn invalid_utf8_is_an_error() {
    let e = decode_text(vec![b'a', 0xff]).unwrap_err();
    assert_eq!(e, "invalid utf-8 sequence of 1 bytes from index 1");
}

#[test]
fn invalid_utf8_can_be_replaced() {
    assert_eq!(decode_text_lossy(b"ok"), "ok");
    assert_eq!(decode_text_lossy(&[b'a', 0xff, b'b']), "a\u{fffd}b");
}

#[test]
fn base64_is_decoded() {
    assert_eq!(decode_base64("aGVsbG8=").unwrap(), b"hello");
    assert_eq!(decode_base64("").unwrap(), b"");
    assert_eq!(decode_base64("aGVsbG8").unwrap_err(), "Invalid padding");
    assert_eq!(decode_base64("a*==").unwrap_err(), "Invalid symbol 42, offset 1.");
}

#[test]
fn only_encodings_are_decoded() {
    for (bytes, text) in [
        (&b""[..], ""),
        (b"M", "TQ=="),
        (b"Ma", "TWE="),
        (b"Man", "TWFu"),
        (b"\xfb\xff\xbf", "+/+/"),
        (b"\0\0\0\0", "AAAAAA=="),
    ] {
        assert_eq!(decode_base64(text).unwrap(), bytes);
    }
    for text in ["TR==", "TWF=", "TQ=", "TQ", "TQ===", "-_-_", " TQ==", "TQ==TQ==", "="] {
        assert!(decode_base64(text).is_err());
    }
}

#[test]
fn fingerprints_are_sha256_in_base64() {
    assert_eq!(fingerprint(b""), "47DEQpj8HBSa+/TImW+5JCeuQeRkm5NMpJWZG3hSuFU=");
    assert_eq!(fingerprint(b"abc"), "ungWv48Bz+pBQUDeXa4iI7ADYaOWF3qctBD/YfIAFa0=");
}

#[test]
fn elapsed_time_is_in_whole_microseconds() {
    assert_eq!(micros(0, 999), 0);
    assert_eq!(micros(500, 2_500), 2);
    assert_eq!(micros(5_000, 1_000), 0);
}

#[test]
fn time_limits_do_not_overflow() {
    assert_eq!(duration_limit(30_000), 30_000_000_000);
    assert_eq!(duration_limit(0), 0);
    assert_eq!(duration_limit(u64::MAX), u64::MAX);
}
