use emoji256::FromEmoji256;
use emoji256::FromEmoji256Error;
use emoji256::ToEmoji256;
use emoji256::decode;
use emoji256::decode_to_slice;
use emoji256::encode;
use emoji256::encode_to_slice;

#[test]
fn test_encode_to_slice() {
    let mut output_1 = [0; 4 * 4];
    encode_to_slice(b"kiwi", &mut output_1).unwrap();
    assert_eq!(&output_1, "💢💟💸💟".as_bytes());

    let mut output_2 = [0; 5 * 4];
    encode_to_slice(b"kiwis", &mut output_2).unwrap();
    assert_eq!(&output_2, "💢💟💸💟💪".as_bytes());

    let mut output_3 = [0; 100];

    assert_eq!(
        encode_to_slice(b"kiwis", &mut output_3),
        Err(FromEmoji256Error::InvalidDestLength)
    );
}

#[test]
fn test_decode_to_slice() {
    let mut output_1 = [0; 4];
    decode_to_slice("💢💟💸💟".as_bytes(), &mut output_1).unwrap();
    assert_eq!(&output_1, b"kiwi");

    let mut output_2 = [0; 5];
    decode_to_slice("💢💟💸💟💪".as_bytes(), &mut output_2).unwrap();
    assert_eq!(&output_2, b"kiwis");

    let mut output_3 = [0; 4];

    assert_eq!(
        decode_to_slice(b"6", &mut output_3),
        Err(FromEmoji256Error::InvalidSrcLength)
    );
}

#[test]
fn test_encode() {
    assert_eq!(encode(b"foobar"), "💜💦💦💘💗💩");
}

#[test]
fn test_decode() {
    assert_eq!(
        decode("💜💦💦💘💗💩".as_bytes()),
        Ok(String::from("foobar").into_bytes())
    );
}

#[test]
pub fn test_from_emoji256_okay_str() {
    assert_eq!(
        Vec::from_emoji256("💜💦💦💘💗💩".as_bytes()).unwrap(),
        b"foobar"
    );
}

#[test]
pub fn test_from_emoji256_okay_bytes() {
    assert_eq!(
        Vec::from_emoji256("💜💦💦💘💗💩".as_bytes()).unwrap(),
        b"foobar"
    );
}

#[test]
pub fn test_invalid_length() {
    assert_eq!(
        Vec::from_emoji256("1".as_bytes()).unwrap_err(),
        FromEmoji256Error::InvalidSrcLength
    );
    assert_eq!(
        Vec::from_emoji256("💜💦💦💘💗💩1".as_bytes()).unwrap_err(),
        FromEmoji256Error::InvalidSrcLength
    );
}

#[test]
pub fn test_invalid_char() {
    assert_eq!(
        Vec::from_emoji256("💜💦66ag".as_bytes()).unwrap_err(),
        FromEmoji256Error::InvalidEmoji256 { c: '6', index: 2 }
    );
}

#[test]
pub fn test_empty() {
    assert_eq!(Vec::from_emoji256("".as_bytes()).unwrap(), b"");
}

#[test]
pub fn test_from_emoji256_whitespace() {
    assert_eq!(
        Vec::from_emoji256("💜💦    💦💘💗💩".as_bytes()).unwrap_err(),
        FromEmoji256Error::InvalidEmoji256 { c: ' ', index: 2 }
    );
}

#[test]
pub fn test_from_emoji256_array() {
    assert_eq!(
        <[u8; 6] as FromEmoji256>::from_emoji256("💜💦💦💘💗💩".as_bytes()),
        Ok([0x66, 0x6f, 0x6f, 0x62, 0x61, 0x72])
    );

    assert_eq!(
        <[u8; 5] as FromEmoji256>::from_emoji256("💜💦💦💘💗💩".as_bytes()),
        Err(FromEmoji256Error::InvalidDestLength)
    );
}

#[test]
fn test_to_emoji256() {
    assert_eq!(
        [0x66, 0x6f, 0x6f, 0x62, 0x61, 0x72].encode_emoji256(),
        "💜💦💦💘💗💩".to_string(),
    );
}

#[test]
fn test_display() {
    assert_eq!(
        FromEmoji256Error::InvalidUtf8 { index: 0 }.message(),
        "Invalid character at position 0"
    );

    assert_eq!(
        FromEmoji256Error::InvalidEmoji256 { index: 5, c: '\n' }.message(),
        "Invalid character '\\n' at position 5"
    );

    assert_eq!(
        FromEmoji256Error::InvalidSrcLength.message(),
        "Source buffer length is not multiple of 4"
    );

    assert_eq!(
        FromEmoji256Error::InvalidDestLength.message(),
        "Destination buffer length is not multiple of 4."
    );
}
