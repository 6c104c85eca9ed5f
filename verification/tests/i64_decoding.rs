use bittorrent::bencode::decoder::decode_i64;
use bittorrent::bencode::errors::Int64DecodeError;

#[test]
fn i64_decoder_test_zero() {
    let (result, bytes_read) = decode_i64("i0e".as_bytes()).unwrap();
    assert_eq!(bytes_read, 3);
    assert_eq!(result, 0);
}

#[test]
fn i64_decoder_test_i64_nonzero() {
    let (result, bytes_read) = decode_i64("i12345e".as_bytes()).unwrap();
    assert_eq!(bytes_read, 7);
    assert_eq!(result, 12345);

    let (result, bytes_read) = decode_i64("i2048550915e".as_bytes()).unwrap();
    assert_eq!(bytes_read, 12);
    assert_eq!(result, 2048550915);

    let (result, bytes_read) = decode_i64("i4294967300e".as_bytes()).unwrap();
    assert_eq!(bytes_read, 12);
    assert_eq!(result, 4294967300);

    let (result, bytes_read) = decode_i64("i-52e".as_bytes()).unwrap();
    assert_eq!(bytes_read, 5);
    assert_eq!(result, -52);
}

#[test]
fn i64_decoder_test_empty_input() {
    let result = decode_i64(&[]);
    assert_eq!(result.is_err(), true);
    let err = result.unwrap_err();
    assert_eq!(err, Int64DecodeError::EmptyInput);
    assert_eq!(err.get_message(), "The input is empty.");
}

#[test]
fn i64_decoder_test_i64_number_not_found_error() {
    let result = decode_i64("ie".as_bytes());
    assert_eq!(result.is_err(), true);
    let err = result.unwrap_err();
    assert_eq!(err, Int64DecodeError::NumberNotFound);
    assert_eq!(err.get_message(), "Number not found.");
}

#[test]
fn i64_decoder_test_i64_end_not_found_error() {
    let result = decode_i64("i123".as_bytes());
    assert_eq!(result.is_err(), true);
    let err = result.unwrap_err();
    assert_eq!(err, Int64DecodeError::EndNotFound);
    assert_eq!(err.get_message(), "End of number ('e') not found.");
}

#[test]
fn i64_decoder_test_negative_zero_error() {
    let result = decode_i64("i-0e".as_bytes());
    assert_eq!(result.is_err(), true);
    let err = result.unwrap_err();
    assert_eq!(
        err,
        Int64DecodeError::InvalidNumberError("-0 is not valid for bencoded integers.".to_owned())
    );
    assert_eq!(err.get_message(), "-0 is not valid for bencoded integers.");
}

#[test]
fn i64_decoder_test_leading_zero_error() {
    let result = decode_i64("i03e".as_bytes());
    assert_eq!(result.is_err(), true);
    let err = result.unwrap_err();
    assert_eq!(
        err,
        Int64DecodeError::InvalidNumberError(
            "Bencoded integers other than 0 can not have leading zeroes.".to_owned()
        )
    );
    assert_eq!(
        err.get_message(),
        "Bencoded integers other than 0 can not have leading zeroes."
    );
}

#[test]
fn i64_decoder_test_invalid_start_character() {
    let result = decode_i64("12345".as_bytes());
    assert_eq!(result.is_err(), true);
    let err = result.unwrap_err();
    assert_eq!(err, Int64DecodeError::StartNotFound { found: b'1', found_as_ascii: '1' });
    assert_eq!(
        err.get_message(),
        format!("Bencoded integers must start with 'i' but got '{}' (ASCII: '{}').", b'1', 1)
    );

    let result = decode_i64("e123i".as_bytes());
    assert_eq!(result.is_err(), true);
    let err = result.unwrap_err();
    assert_eq!(err, Int64DecodeError::StartNotFound { found: b'e', found_as_ascii: 'e' });
    assert_eq!(
        err.get_message(),
        format!("Bencoded integers must start with 'i' but got '{}' (ASCII: '{}').", b'e', 'e')
    );

    let result = decode_i64("xyz".as_bytes());
    assert_eq!(result.is_err(), true);
    let err = result.unwrap_err();
    assert_eq!(err, Int64DecodeError::StartNotFound { found: b'x', found_as_ascii: 'x' });
    assert_eq!(
        err.get_message(),
        format!("Bencoded integers must start with 'i' but got '{}' (ASCII: '{}').", b'x', 'x')
    );
}

#[test]
fn i64_decoder_test_number_parse_error() {
    let result = decode_i64("ia2ce".as_bytes());
    assert_eq!(result.is_err(), true);
    let err = result.unwrap_err();
    assert!(matches!(err, Int64DecodeError::NumberParseIntError(_)));
    assert_eq!(err.get_message(), format!("Could not parse 'a2c' to i64."));

    let result = decode_i64(&[b'i', 0xC, 0xA, 0xF, 0xE, b'e']);
    assert_eq!(result.is_err(), true);
    let err = result.unwrap_err();
    assert!(matches!(err, Int64DecodeError::NumberParseIntError(_)));
    assert_eq!(
        err.get_message(),
        format!(
            "Could not parse '{}{}{}{}' to i64.",
            0xC as u8 as char, 0xA as u8 as char, 0xF as u8 as char, 0xE as u8 as char
        )
    );
}
