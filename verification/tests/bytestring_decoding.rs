use bittorrent::bencode::decoder::decode_byte_string;
use bittorrent::bencode::errors::ByteStringDecodeError;

#[test]
fn bytestring_decoder_test_empty_input() {
    let result = decode_byte_string(&[]);
    assert_eq!(result.is_err(), true);
    let err = result.unwrap_err();
    assert_eq!(err, ByteStringDecodeError::EmptyInput);
    assert_eq!(err.get_message(), "The input is empty.");
}

#[test]
fn test_invalid_length() {
    let result = decode_byte_string("1b3:test_data".as_bytes());
    assert_eq!(result.is_err(), true);
    assert_eq!(result.unwrap_err().get_message(),
        format!(
            "Unexpected byte value '{}' (ASCII: '{}') at position {}: bencoded strings must begin with a number (consisting of numeric characters from 0 to 9) indicating the length of the bencoded string and preceeding a colon character (':').",
            b'b',
            'b',
            1));
}

#[test]
fn test_unexpected_byte() {
    let result = decode_byte_string("1b3:test_data".as_bytes());
    assert!(result.is_err());
    assert_eq!(
        result.unwrap_err(),
        ByteStringDecodeError::UnexpectedByte {
            unexpected_byte: b'b',
            unexpected_byte_ascii: 'b',
            position: 1,
        }
    );
}

#[test]
fn test_data_too_short() {
    let result = decode_byte_string("6:world".as_bytes());
    assert_eq!(result.is_err(), true);
    assert_eq!(result.unwrap_err().get_message(),
    format!(
        "Not enough bytes to read after the colon (':') to read a byte string of length {}: {}",
        6,
        5));
}

#[test]
fn test_content_too_short() {
    let result = decode_byte_string("6:world".as_bytes());
    assert!(result.is_err());
    assert_eq!(
        result.unwrap_err(),
        ByteStringDecodeError::ContentTooShort { expected: 6, found: 5 }
    );
}

#[test]
fn bytestring_decoder_test_ascii_exact() {
    let (decoded, bytes_read) = decode_byte_string("5:hello".as_bytes()).unwrap();
    assert_eq!(bytes_read, 7);
    assert_eq!(decoded.get_data().as_slice(), "hello".as_bytes());
}

#[test]
fn bytestring_decoder_test_ascii_with_extra() {
    let (decoded, bytes_read) = decode_byte_string("5:helloxyz".as_bytes()).unwrap();
    assert_eq!(bytes_read, 7);
    assert_eq!(decoded.get_data().as_slice(), "hello".as_bytes());
}

#[test]
fn bytestring_decoder_test_bytes_exact() {
    let (decoded, bytes_read) = decode_byte_string(&[b'4', b':', 0xC, 0xA, 0xF, 0xE]).unwrap();
    assert_eq!(bytes_read, 6);
    assert_eq!(decoded.get_data().as_slice(), &[0xC, 0xA, 0xF, 0xE]);
}

#[test]
fn bytestring_decoder_test_bytes_with_extra() {
    let (result, bytes_read) =
        decode_byte_string(&[b'4', b':', 0xC, 0xA, 0xF, 0xE, 0xB, 0xA, 0xB, 0xE]).unwrap();
    assert_eq!(bytes_read, 6);
    assert_eq!(result.get_data().as_slice(), &[0xC, 0xA, 0xF, 0xE]);
}

#[test]
fn bytestring_decoder_test_url() {
    let (result, bytes_read) = decode_byte_string(
        "60:http://bittorrent-test-tracker.codecrafters.io:8080/announce".as_bytes(),
    )
    .unwrap();
    assert_eq!(bytes_read, 63);
    assert_eq!(
        result.get_data().as_slice(),
        "http://bittorrent-test-tracker.codecrafters.io:8080/announce".as_bytes()
    );
}

#[test]
fn bytestring_decoder_test_ascii_colon_not_found() {
    let result = decode_byte_string("12345".as_bytes());
    assert_eq!(result.is_err(), true);
    let err = result.unwrap_err();
    assert_eq!(err, ByteStringDecodeError::ColonNotFound);
    assert_eq!(err.get_message(), "Colon (':') not found.");
}

#[test]
fn bytestring_decoder_test_bytes_colon_not_found() {
    let result = decode_byte_string(&[b'1', b'2', b'3', b'4', b'5']);
    assert_eq!(result.is_err(), true);
    let err = result.unwrap_err();
    assert_eq!(err, ByteStringDecodeError::ColonNotFound);
    assert_eq!(err.get_message(), "Colon (':') not found.");
}
