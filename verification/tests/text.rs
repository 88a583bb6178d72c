use esedb::error::ReadError;
use esedb::text::{decode_string, text_of_decoding, text_of_utf16, MAX_TEXT_BYTES};

#[test]
fn windows_1252_text_is_decoded() {
    assert_eq!(decode_string(b"foo", 1252), Ok("foo".to_string()));
    assert_eq!(decode_string(&[0x63, 0x61, 0x66, 0xE9], 1252), Ok("caf\u{e9}".to_string()));
    assert_eq!(decode_string(&[0x80], 1252), Ok("\u{20ac}".to_string()));
    assert_eq!(decode_string(&[], 1252), Ok(String::new()));
}

#[test]
fn code_pages_differ_in_what_bytes_mean() {
    assert_eq!(decode_string(&[0xE9], 1251), Ok("\u{439}".to_string()));
    assert_eq!(decode_string(&[0xE9], 1252), Ok("\u{e9}".to_string()));
    assert_eq!(decode_string(&[0xE9], 28591), Ok("\u{e9}".to_string()));
    assert_eq!(decode_string(&[0x82, 0xA0], 932), Ok("\u{3042}".to_string()));
}

#[test]
fn utf8_text_loses_its_byte_order_mark() {
    assert_eq!(decode_string(&[0xEF, 0xBB, 0xBF, 0x61], 65001), Ok("a".to_string()));
    assert_eq!(decode_string(&[0xC3, 0xA9], 65001), Ok("\u{e9}".to_string()));
    assert_eq!(decode_string(&[0xC3], 65001), Err(ReadError::DecodeMalformed));
    assert_eq!(decode_string(&[0xFF], 65001), Err(ReadError::DecodeMalformed));
}

#[test]
fn utf16_text_takes_pairs_of_bytes() {
    assert_eq!(decode_string(&[0x66, 0, 0x6F, 0, 0x6F, 0], 1200), Ok("foo".to_string()));
    assert_eq!(decode_string(&[0xAC, 0x20], 1200), Ok("\u{20ac}".to_string()));
    assert_eq!(
        decode_string(&[0x3D, 0xD8, 0x00, 0xDE], 1200),
        Ok("\u{1f600}".to_string())
    );
    assert_eq!(decode_string(&[], 1200), Ok(String::new()));
    assert_eq!(decode_string(&[0x66, 0, 0x6F], 1200), Err(ReadError::DecodeMalformed));
    assert_eq!(decode_string(&[0x3D, 0xD8], 1200), Err(ReadError::DecodeMalformed));
    assert_eq!(decode_string(&[0x00, 0xDE, 0x3D, 0xD8], 1200), Err(ReadError::DecodeMalformed));
}

#[test]
fn malformed_text_is_a_failure() {
    assert_eq!(decode_string(&[0x81, 0x20], 932), Err(ReadError::DecodeMalformed));
    assert_eq!(decode_string(&[0x61], 50225), Err(ReadError::DecodeMalformed));
}

#[test]
fn code_pages_without_a_decoder_are_a_failure() {
    assert_eq!(decode_string(b"a", 0), Err(ReadError::UnsupportedCodePage { code_page: 0 }));
    assert_eq!(decode_string(b"a", -5), Err(ReadError::UnsupportedCodePage { code_page: -5 }));
    assert_eq!(
        decode_string(b"a", 0x1_0000),
        Err(ReadError::UnsupportedCodePage { code_page: 0x1_0000 })
    );
    assert_eq!(decode_string(b"a", 12345), Err(ReadError::UnsupportedCodePage { code_page: 12345 }));
    assert_eq!(decode_string(b"a", 437), Err(ReadError::UnsupportedCodePage { code_page: 437 }));
    assert_eq!(MAX_TEXT_BYTES, 0x1000_0000);
}

#[test]
fn outcome_of_a_decoding_becomes_text_or_failure() {
    assert_eq!(
        text_of_decoding(None, 77),
        Err(ReadError::UnsupportedCodePage { code_page: 77 })
    );
    assert_eq!(
        text_of_decoding(Some(("a\u{fffd}".to_string(), true)), 1252),
        Err(ReadError::DecodeMalformed)
    );
    assert_eq!(text_of_decoding(Some(("ab".to_string(), false)), 1252), Ok("ab".to_string()));
    assert_eq!(text_of_utf16(String::from_utf16(&[0x61, 0x62])), Ok("ab".to_string()));
    assert_eq!(text_of_utf16(String::from_utf16(&[0xD800])), Err(ReadError::DecodeMalformed));
}
