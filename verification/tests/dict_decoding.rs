use bittorrent::bencode::decoder::decode_dict;
use bittorrent::bencode::errors::{ByteStringDecodeError, DictDecodeError};
use bittorrent::types::{ByteString, DataType};

fn text(s: &str) -> DataType {
    DataType::ByteString(ByteString::new(&s.as_bytes().to_vec()))
}

#[test]
fn test_empty_dict() {
    let (result, bytes_processed) = decode_dict("de".as_bytes()).unwrap();
    assert_eq!(bytes_processed, 2);
    assert!(result.is_empty());
}

#[test]
fn test_dict_number() {
    let (result, bytes_processed) = decode_dict("d5:helloi123ee".as_bytes()).unwrap();
    assert_eq!(bytes_processed, 14);
    assert_eq!(result, vec![(b"hello".to_vec(), DataType::Integer(123))]);
}

#[test]
fn test_dict_string() {
    let (result, bytes_processed) = decode_dict("d5:hello8:usernamee".as_bytes()).unwrap();
    assert_eq!(bytes_processed, 19);
    assert_eq!(result, vec![(b"hello".to_vec(), text("username"))]);
}

#[test]
fn test_dict_list() {
    let (result, bytes_processed) = decode_dict("d5:worldl4:Asia6:Europeee".as_bytes()).unwrap();
    assert_eq!(bytes_processed, 25);
    assert_eq!(
        result,
        vec![(b"world".to_vec(), DataType::List(vec![text("Asia"), text("Europe")]))]
    );
}

#[test]
fn test_dict_string_2_entries() {
    let (result, bytes_processed) = decode_dict("d5:hello8:username3:agei42ee".as_bytes()).unwrap();
    assert_eq!(bytes_processed, 28);
    assert_eq!(
        result,
        vec![
            (b"hello".to_vec(), text("username")),
            (b"age".to_vec(), DataType::Integer(42)),
        ]
    );
}

#[test]
fn test_dict_string_3_entries() {
    let (result, bytes_processed) =
        decode_dict("d5:hello8:username3:agei42e9:passwordsl3:abci12345eee".as_bytes()).unwrap();
    assert_eq!(bytes_processed, 53);
    assert_eq!(
        result,
        vec![
            (b"hello".to_vec(), text("username")),
            (b"age".to_vec(), DataType::Integer(42)),
            (
                b"passwords".to_vec(),
                DataType::List(vec![text("abc"), DataType::Integer(12345)])
            ),
        ]
    );
}

#[test]
fn dict_decoding_errors() {
    assert_eq!(decode_dict(&[]).unwrap_err(), DictDecodeError::EmptyInput);
    assert_eq!(
        decode_dict(b"le").unwrap_err(),
        DictDecodeError::StartNotFound { found: b'l', found_as_ascii: 'l' }
    );
    assert_eq!(decode_dict(b"d3:fooi1e").unwrap_err(), DictDecodeError::EndNotFound);
    assert_eq!(
        decode_dict(b"di1ei2ee").unwrap_err(),
        DictDecodeError::KeyDecodeError(ByteStringDecodeError::UnexpectedByte {
            unexpected_byte: b'i',
            unexpected_byte_ascii: 'i',
            position: 1,
        })
    );
    assert_eq!(
        decode_dict(b"d3:fooxe").unwrap_err(),
        DictDecodeError::ValueDecodeError { position: 6 }
    );
}
