use onion_crawler_core::base64::{base64_decode, base64_decode_chars, symbol_value};

#[test]
fn base64_decode_basic() {
    assert_eq!(base64_decode("aGVsbG8=").unwrap(), b"hello");
    assert_eq!(base64_decode("aGVsbG8").unwrap(), b"hello"); // No padding
    assert_eq!(base64_decode("").unwrap(), b"");
}

#[test]
fn base64_decode_url_safe() {
    // URL-safe variants: - instead of +, _ instead of /
    let standard = base64_decode("ab+c/d==").unwrap();
    let url_safe = base64_decode("ab-c_d==").unwrap();
    assert_eq!(standard, url_safe);
}

#[test]
fn every_symbol_has_its_value() {
    let alphabet = "ABCDEFGHIJKLMNOPQRSTUVWXYZabcdefghijklmnopqrstuvwxyz0123456789+/";
    for (i, c) in alphabet.chars().enumerate() {
        assert_eq!(symbol_value(c), Some(i as u8));
    }
    assert_eq!(symbol_value('-'), Some(62));
    assert_eq!(symbol_value('_'), Some(63));
    for c in ['=', ' ', '@', '[', '`', '{', ':', '.', '\u{e9}', '\u{141}'] {
        assert_eq!(symbol_value(c), None);
    }
}

#[test]
fn decoding_gives_back_each_length() {
    assert_eq!(base64_decode("TQ==").unwrap(), b"M");
    assert_eq!(base64_decode("TWE=").unwrap(), b"Ma");
    assert_eq!(base64_decode("TWFu").unwrap(), b"Man");
    assert_eq!(base64_decode("TWFuTQ").unwrap(), b"ManM");
    assert_eq!(base64_decode("/+8A").unwrap(), vec![0xff, 0xef, 0x00]);
}

#[test]
fn bits_that_fill_no_byte_are_dropped() {
    assert_eq!(base64_decode("T").unwrap(), b"");
    assert_eq!(base64_decode("TR").unwrap(), b"M");
    assert_eq!(base64_decode("TWFuT").unwrap(), b"Man");
}

#[test]
fn reading_stops_at_padding() {
    assert_eq!(base64_decode("TQ==TWFu").unwrap(), b"M");
    assert_eq!(base64_decode("TQ=!?").unwrap(), b"M");
    assert_eq!(base64_decode("=").unwrap(), b"");
}

#[test]
fn other_characters_are_errors() {
    assert_eq!(base64_decode("TW Fu"), Err(()));
    assert_eq!(base64_decode("TWF*"), Err(()));
    assert_eq!(base64_decode("TW\u{e4}u"), Err(()));
    assert_eq!(base64_decode_chars(&vec!['T', '!']), Err(()));
    assert_eq!(base64_decode_chars(&vec!['T', 'Q', '=']), Ok(vec![b'M']));
}
