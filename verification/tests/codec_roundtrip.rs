use bittorrent::bencode::decoder::decode;
use bittorrent::bencode::encoder::{
    bencode, bencode_byte_string, bencode_dict, bencode_i64, bencode_list, bencode_string,
};
use bittorrent::bencode::errors::DecodeError;
use bittorrent::bencode::decoder::decode_dict;
use bittorrent::text::lex_less;
use bittorrent::types::{ByteString, DataType};

fn text(s: &str) -> DataType {
    DataType::ByteString(ByteString::new(&s.as_bytes().to_vec()))
}

#[test]
fn encode_integers() {
    assert_eq!(bencode_i64(52), b"i52e".to_vec());
    assert_eq!(bencode_i64(-52), b"i-52e".to_vec());
    assert_eq!(bencode_i64(0), b"i0e".to_vec());
    assert_eq!(bencode_i64(i64::MIN), b"i-9223372036854775808e".to_vec());
    assert_eq!(bencode_i64(i64::MAX), b"i9223372036854775807e".to_vec());
}

#[test]
fn encode_byte_strings() {
    let bytes = ByteString::new(&b"hello".to_vec());
    assert_eq!(bencode_byte_string(&bytes), b"5:hello".to_vec());
    assert_eq!(bencode_string("spam"), b"4:spam".to_vec());
    assert_eq!(bencode_string(""), b"0:".to_vec());
}

#[test]
fn encode_lists_and_dicts() {
    let list = vec![text("spam"), DataType::Integer(42)];
    assert_eq!(bencode_list(&list), b"l4:spami42ee".to_vec());
    let dict = vec![
        (b"bar".to_vec(), text("spam")),
        (b"foo".to_vec(), DataType::Integer(42)),
    ];
    assert_eq!(bencode_dict(&dict), b"d3:bar4:spam3:fooi42ee".to_vec());
}

#[test]
fn round_trip_nested_value() {
    let value = DataType::Dict(vec![
        (b"a".to_vec(), DataType::List(vec![DataType::Integer(-7), text("x")])),
        (b"b".to_vec(), DataType::Dict(vec![(b"k".to_vec(), DataType::Integer(0))])),
        (b"c".to_vec(), text("bytes")),
    ]);
    let encoded = bencode(&value);
    let (decoded, consumed) = decode(encoded.as_slice()).unwrap();
    assert_eq!(consumed, encoded.len());
    assert_eq!(decoded, value);
    assert_eq!(bencode(&decoded), encoded);
}

#[test]
fn round_trip_preserves_key_order() {
    let value = DataType::Dict(vec![
        (b"zz".to_vec(), DataType::Integer(1)),
        (b"aa".to_vec(), DataType::Integer(2)),
    ]);
    let encoded = bencode(&value);
    assert_eq!(encoded, b"d2:zzi1e2:aai2ee".to_vec());
    let (decoded, consumed) = decode(encoded.as_slice()).unwrap();
    assert_eq!(consumed, encoded.len());
    assert_eq!(decoded, value);
}

#[test]
fn decode_consumes_prefix_only() {
    let (decoded, consumed) = decode(b"5:helloxyz").unwrap();
    assert_eq!(consumed, 7);
    assert_eq!(decoded, text("hello"));
}

#[test]
fn decode_rejects_unknown_start() {
    let result = decode(b"xyz");
    assert!(matches!(result, Err(DecodeError::Other(_))));
    assert_eq!(decode(&[]), Err(DecodeError::EmptyInput));
}

#[test]
fn decode_binary_bytes_round_trip() {
    let raw: Vec<u8> = vec![0x00, 0xFF, 0x80, 0x7F];
    let value = DataType::ByteString(ByteString::new(&raw));
    let encoded = bencode(&value);
    assert_eq!(encoded, vec![b'4', b':', 0x00, 0xFF, 0x80, 0x7F]);
    let (decoded, consumed) = decode(encoded.as_slice()).unwrap();
    assert_eq!(consumed, 6);
    assert_eq!(decoded, value);
}

#[test]
fn key_order_comparator_matches_byte_order() {
    assert!(lex_less(b"age", b"hello"));
    assert!(lex_less(b"piece length", b"pieces"));
    assert!(!lex_less(b"pieces", b"piece length"));
    assert!(!lex_less(b"foo", b"foo"));
    assert!(lex_less(b"fo", b"foo"));
}

#[test]
fn value_accessors_see_through_each_kind() {
    assert_eq!(DataType::Integer(5).as_i64(), Some(5));
    assert_eq!(text("x").as_i64(), None);
    assert_eq!(text("x").as_byte_string().map(|b| b.get_data().clone()), Some(b"x".to_vec()));
    assert!(DataType::Integer(5).as_byte_string().is_none());
    assert!(DataType::Integer(5).as_str().is_none());
    let (entries, _) = decode_dict(b"d1:ai1ee").unwrap();
    let value = DataType::Dict(entries);
    let inner = value.as_dict().unwrap();
    assert_eq!(inner.len(), 1);
    assert_eq!(inner[0].0, b"a".to_vec());
    assert!(text("x").as_dict().is_none());
}
