use bittorrent::bencode::errors::DecodeError;
use bittorrent::json::{decode_to_json, to_json};
use bittorrent::types::{ByteString, DataType};

fn text(s: &str) -> DataType {
    DataType::ByteString(ByteString::new(&s.as_bytes().to_vec()))
}

#[test]
fn decode_subcommand_renders_a_dictionary() {
    let rendered = decode_to_json(b"d3:foo3:bar5:helloi52ee").unwrap();
    assert_eq!(rendered, "{\"foo\":\"bar\",\"hello\":52}");
}

#[test]
fn decode_subcommand_renders_lists_and_integers() {
    assert_eq!(decode_to_json(b"l5:helloi52ee").unwrap(), "[\"hello\",52]");
    assert_eq!(decode_to_json(b"i-42e").unwrap(), "-42");
    assert_eq!(decode_to_json(b"le").unwrap(), "[]");
    assert_eq!(decode_to_json(b"de").unwrap(), "{}");
    assert!(matches!(decode_to_json(b""), Err(DecodeError::EmptyInput)));
}

#[test]
fn string_escaping_matches_the_json_rules() {
    assert_eq!(to_json(&text("a\"b\\c\nd")), "\"a\\\"b\\\\c\\nd\"");
    assert_eq!(to_json(&text("\t\r\u{8}\u{c}")), "\"\\t\\r\\b\\f\"");
    assert_eq!(to_json(&text("\u{1}\u{1f}")), "\"\\u0001\\u001f\"");
}

#[test]
fn rendering_agrees_with_the_reference_serializer() {
    let value = DataType::Dict(vec![
        (b"items".to_vec(), DataType::List(vec![DataType::Integer(1), text("two")])),
        (b"note".to_vec(), text("line\nbreak")),
    ]);
    let mut map = serde_json::Map::new();
    map.insert(
        "items".to_owned(),
        serde_json::Value::Array(vec![
            serde_json::Value::from(1),
            serde_json::Value::String("two".to_owned()),
        ]),
    );
    map.insert(
        "note".to_owned(),
        serde_json::Value::String("line\nbreak".to_owned()),
    );
    let reference = serde_json::Value::Object(map);
    assert_eq!(to_json(&value), serde_json::to_string(&reference).unwrap());
}

#[test]
fn lossy_text_replaces_invalid_utf8() {
    let value = DataType::ByteString(ByteString::new(&vec![0xFF, b'o', b'k']));
    assert_eq!(value.as_str().unwrap(), "\u{FFFD}ok");
    assert_eq!(to_json(&value), "\"\u{FFFD}ok\"");
}
