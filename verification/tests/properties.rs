use emoji256::FromEmoji256Error;
use emoji256::ToEmoji256;
use emoji256::decode;
use emoji256::decode_to_slice;
use emoji256::emo2byte;
use emoji256::encode;
use emoji256::encode_to_slice;
use emoji256::symbol_for;

#[test]
fn round_trip_single_bytes() {
    for v in 0..=255u8 {
        let text = encode(&[v]);
        assert_eq!(decode(text.as_bytes()), Ok(vec![v]));
    }
}

#[test]
fn round_trip_mixed_data() {
    let data: Vec<u8> = (0..=255u8).chain((0..=255u8).rev()).collect();
    let text = encode(&data);
    assert_eq!(text.len(), 4 * data.len());
    assert_eq!(decode(text.as_bytes()), Ok(data));
}

#[test]
fn bijection_all_bytes() {
    for v in 0..=255u8 {
        assert_eq!(emo2byte(symbol_for(v)), Some(v));
    }
}

#[test]
fn table_strictly_sorted() {
    for v in 0..255u8 {
        assert!((symbol_for(v) as u32) < (symbol_for(v + 1) as u32));
    }
}

#[test]
fn table_symbols_are_four_bytes() {
    for v in 0..=255u8 {
        assert_eq!(symbol_for(v).len_utf8(), 4);
    }
}

#[test]
fn known_symbols() {
    assert_eq!(symbol_for(1), '🌈');
    assert_eq!(symbol_for(0x6B), '💢');
    assert_eq!(emo2byte('🌈'), Some(1));
    assert_eq!(emo2byte('6'), None);
    assert_eq!(emo2byte('🙃'), Some(255));
}

#[test]
fn empty_input() {
    assert_eq!(encode(b""), "");
    assert_eq!(decode(b""), Ok(Vec::new()));
}

#[test]
fn storage_length_law() {
    let text = encode(b"hello world");
    assert_eq!(text.len(), 4 * 11);
    assert_eq!(decode(text.as_bytes()).unwrap().len(), text.len() / 4);
}

#[test]
fn kiwi_scenario() {
    let text = encode(&[0x6B, 0x69, 0x77, 0x69]);
    let expected: String = [0x6Bu8, 0x69, 0x77, 0x69].iter().map(|b| symbol_for(*b)).collect();
    assert_eq!(text, expected);
    assert_eq!(text.len(), 16);
    assert_eq!(decode(text.as_bytes()), Ok(vec![0x6B, 0x69, 0x77, 0x69]));
}

#[test]
fn malformed_length() {
    assert_eq!(
        decode(&"💜💦💦".as_bytes()[..11]),
        Err(FromEmoji256Error::InvalidSrcLength)
    );
    let mut out = [0u8; 2];
    assert_eq!(
        decode_to_slice(&[0xF0, 0x9F][..], &mut out),
        Err(FromEmoji256Error::InvalidSrcLength)
    );
}

#[test]
fn invalid_utf8_error_index() {
    // The first byte already fails, so one past the valid prefix is 1.
    assert_eq!(
        decode(&[0xFF, 0x80, 0x80, 0x80]),
        Err(FromEmoji256Error::InvalidUtf8 { index: 1 })
    );
    // Three valid ASCII bytes, then a stray continuation byte.
    assert_eq!(
        decode(&[0x61, 0x62, 0x63, 0x80]),
        Err(FromEmoji256Error::InvalidUtf8 { index: 4 })
    );
    // A four-byte symbol whose last byte is not a continuation byte.
    assert_eq!(
        decode(&[0xF0, 0x9F, 0x92, 0x41]),
        Err(FromEmoji256Error::InvalidUtf8 { index: 1 })
    );
    // An overlong two-byte encoding of an ASCII value.
    assert_eq!(
        decode(&[0xC0, 0xAF, 0x61, 0x62]),
        Err(FromEmoji256Error::InvalidUtf8 { index: 1 })
    );
    // A surrogate code point is rejected.
    assert_eq!(
        decode(&[0xED, 0xA0, 0x80, 0x61]),
        Err(FromEmoji256Error::InvalidUtf8 { index: 1 })
    );
}

#[test]
fn invalid_symbol_error() {
    assert_eq!(
        decode(b"abcd"),
        Err(FromEmoji256Error::InvalidEmoji256 { index: 0, c: 'a' })
    );
    // A well-formed emoji that is not in the table (U+1F6F0 is above every entry).
    let mut text = encode(&[7]).into_bytes();
    text.extend_from_slice("🛰".as_bytes());
    assert_eq!(
        decode(&text),
        Err(FromEmoji256Error::InvalidEmoji256 { index: 1, c: '🛰' })
    );
}

#[test]
fn encode_to_slice_smaller_buffer() {
    let mut small = [0u8; 8];
    assert_eq!(
        encode_to_slice(b"kiwi", &mut small),
        Err(FromEmoji256Error::InvalidDestLength)
    );
    assert_eq!(small, [0u8; 8]);
}

#[test]
fn decode_to_slice_dest_mismatch() {
    let mut short = [0u8; 3];
    assert_eq!(
        decode_to_slice("💢💟💸💟".as_bytes(), &mut short),
        Err(FromEmoji256Error::InvalidDestLength)
    );
    let mut long = [0u8; 5];
    assert_eq!(
        decode_to_slice("💢💟💸💟".as_bytes(), &mut long),
        Err(FromEmoji256Error::InvalidDestLength)
    );
}

#[test]
fn decode_to_slice_partial_write() {
    let mut text = String::new();
    text.push(symbol_for(0x6B));
    text.push(symbol_for(0x69));
    text.push_str("6666");
    let mut out = [0u8; 3];
    assert_eq!(
        decode_to_slice(text.as_bytes(), &mut out),
        Err(FromEmoji256Error::InvalidEmoji256 { index: 2, c: '6' })
    );
    // The two symbols before the failure were already written.
    assert_eq!(out, [0x6B, 0x69, 0]);
}

#[test]
fn encode_emoji256_sources() {
    assert_eq!("kiwi".encode_emoji256(), "💢💟💸💟");
    assert_eq!(String::from("kiwi").encode_emoji256(), "💢💟💸💟");
    assert_eq!(vec![0x6Bu8, 0x69, 0x77, 0x69].encode_emoji256(), "💢💟💸💟");
}

#[test]
fn message_examples() {
    assert_eq!(
        FromEmoji256Error::InvalidEmoji256 { index: 7, c: 'x' }.message(),
        "Invalid character 'x' at position 7"
    );
    assert_eq!(
        FromEmoji256Error::InvalidUtf8 { index: 1234 }.message(),
        "Invalid character at position 1234"
    );
    assert_eq!(
        FromEmoji256Error::InvalidEmoji256 { index: 0, c: '\\' }.message(),
        "Invalid character '\\\\' at position 0"
    );
}

#[test]
fn message_escapes_non_printable() {
    // A non-printable character is rendered with the debug escape, not raw.
    let err = decode(&[0x01, 0x01, 0x01, 0x01]).unwrap_err();
    assert_eq!(err, FromEmoji256Error::InvalidEmoji256 { index: 0, c: '\u{1}' });
    assert_eq!(err.message(), "Invalid character '\\u{1}' at position 0");
    assert_eq!(
        FromEmoji256Error::InvalidEmoji256 { index: 3, c: '\u{7f}' }.message(),
        "Invalid character '\\u{7f}' at position 3"
    );
}
