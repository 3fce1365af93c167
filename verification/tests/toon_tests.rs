use chim_compiler::strmap::StrMap;
use chim_compiler::toon::{decode, encode, parse_str, to_string, ToonDocument, ToonError, ToonParser, ToonValue};

#[test]
fn test_toon_value() {
    let value = ToonValue::string("hello".to_string());
    assert_eq!(value.as_string(), Some(&"hello".to_string()));
}

#[test]
fn test_toon_document() {
    let mut doc = ToonDocument::new();
    let map = vec![
        ("name".to_string(), ToonValue::string("test".to_string())),
        ("value".to_string(), ToonValue::integer(42)),
    ];
    doc.set_root(ToonValue::map(map));

    let toon = doc.to_string().unwrap();
    assert!(toon.contains("name"));
    assert!(toon.contains("test"));
}

#[test]
fn test_toon_parser() {
    let toon = "name: s:\"test\"\nvalue: i:42";
    let doc = parse_str(toon).unwrap();
    let root = doc.get_root();
    assert_eq!(root.get("name").and_then(|v| v.as_string()), Some(&"test".to_string()));
    assert_eq!(root.get("value").and_then(|v| v.as_i64()), Some(42));
}

#[test]
fn test_toon_list() {
    let toon = "[\n  i:1\n  i:2\n  i:3\n]";
    let doc = parse_str(toon).unwrap();
    let list = doc.get_root().as_list().unwrap();
    assert_eq!(list.len(), 3);
    assert_eq!(list[0].as_i64(), Some(1));
}

#[test]
fn test_toon_binary() {
    let data = vec![1u8, 2u8, 3u8, 4u8];
    let value = ToonValue::binary(data.clone());
    let doc = ToonDocument { root: value, metadata: StrMap::new() };
    let toon = doc.to_string().unwrap();
    assert!(toon.contains("b:"));
}

#[test]
fn test_base64_encode() {
    let data = vec![1u8, 2u8, 3u8];
    let encoded = encode(&data);
    assert!(!encoded.is_empty());
}

#[test]
fn test_base64_decode() {
    let encoded = "AQID";
    let decoded = decode(encoded).unwrap();
    assert_eq!(decoded, vec![1u8, 2u8, 3u8]);
}

#[test]
fn base64_known_values() {
    assert_eq!(encode(b"Man"), "TWFu");
    assert_eq!(encode(b"Ma"), "TWE=");
    assert_eq!(encode(b"M"), "TQ==");
    assert_eq!(encode(&[1, 2, 3, 4]), "AQIDBA==");
    assert_eq!(encode(&[0xfb, 0xff, 0xbf]), "+/+/");
    assert_eq!(encode(&[]), "");
    assert_eq!(decode("TWE=").unwrap(), b"Ma".to_vec());
    assert_eq!(decode("TQ==").unwrap(), b"M".to_vec());
    assert!(decode("T*E").is_err());
}

#[test]
fn base64_roundtrip() {
    for n in 0..8usize {
        let data: Vec<u8> = (0..n as u8).map(|x| x.wrapping_mul(37)).collect();
        assert_eq!(decode(&encode(&data)).unwrap(), data);
    }
    let data: Vec<u8> = (0u8..=254).collect();
    assert_eq!(decode(&encode(&data)).unwrap(), data);
}

#[test]
fn toon_writer_exact_text() {
    let v = ToonValue::list(vec![ToonValue::integer(-1), ToonValue::null(), ToonValue::bool(true)]);
    assert_eq!(to_string(&v).unwrap(), "# Toon Format v1.0\n[\n  i:-1\n  null\n  true\n]\n");
    let m = ToonValue::map(vec![("k".to_string(), ToonValue::string("v".to_string()))]);
    assert_eq!(to_string(&m).unwrap(), "# Toon Format v1.0\n{\n  k: s:\"v\"\n}\n");
    let nested = ToonValue::list(vec![ToonValue::list(vec![ToonValue::bool(false)])]);
    assert_eq!(to_string(&nested).unwrap(), "# Toon Format v1.0\n[\n  [\n    false\n  ]\n]\n");
    let block = ToonValue::string("a\r\nb\n".to_string());
    assert_eq!(to_string(&block).unwrap(), "# Toon Format v1.0\ns:|\n  a\n  b\n");
    let bin = ToonValue::binary(vec![1, 2, 3]);
    assert_eq!(to_string(&bin).unwrap(), "# Toon Format v1.0\nb:AQID\n");
}

#[test]
fn toon_document_notes() {
    let mut doc = ToonDocument::new();
    doc.add_metadata("author".to_string(), "me".to_string());
    doc.add_metadata("author".to_string(), "you".to_string());
    assert_eq!(doc.get_metadata("author"), Some(&"you".to_string()));
    assert_eq!(doc.get_metadata("none"), None);
    assert_eq!(doc.to_string().unwrap(), "# Toon Format v1.0\n# author: you\nnull\n");
}

fn parse_error(text: &str) -> String {
    match ToonParser::new().parse_str(text) {
        Err(ToonError::ParseError(m)) => m,
        _ => String::from("no error"),
    }
}

#[test]
fn toon_reader_values() {
    assert!(parse_str("").unwrap().get_root().is_null());
    assert_eq!(parse_str("  true").unwrap().get_root().as_bool(), Some(true));
    assert_eq!(parse_str("i:-17").unwrap().get_root().as_i64(), Some(-17));
    assert_eq!(parse_str("s\"a\\nb\"").unwrap().get_root().as_string(), Some(&"a\nb".to_string()));
    assert_eq!(parse_str("s:\"q\"").unwrap().get_root().as_string(), Some(&"q".to_string()));
    assert_eq!(parse_str("s|abc def").unwrap().get_root().as_string(), Some(&"ab".to_string()));
    assert_eq!(parse_str("b:AQID").unwrap().get_root().as_binary(), Some(&vec![1u8, 2, 3]));
    assert_eq!(parse_str("# note\ni:5").unwrap().get_root().as_i64(), Some(5));
    let m = parse_str("{ s\"k\": i:1 s\"k\": i:2 }").unwrap();
    assert_eq!(m.get_root().len(), 1);
    assert_eq!(m.get_root().get("k").and_then(|v| v.as_i64()), Some(2));
    let s = parse_str("s\"\u{e9}\"").unwrap();
    assert_eq!(s.get_root().as_string(), Some(&"\u{c3}\u{a9}".to_string()));
}

#[test]
fn toon_reader_errors() {
    assert_eq!(parse_error("x"), "Unexpected character: x");
    assert_eq!(parse_error("nul"), "Expected 'null'");
    assert_eq!(parse_error("i:"), "Invalid integer");
    assert_eq!(parse_error("i:99999999999999999999"), "Invalid integer");
    assert_eq!(parse_error("[ i:1"), "Unclosed list");
    assert_eq!(parse_error("{ i:1: i:2 }"), "Map key must be a string");
    assert_eq!(parse_error("s\"abc"), "Unclosed string");
    assert_eq!(parse_error("b:A*"), "Invalid base64 encoding");
    assert_eq!(parse_error("f:1.5"), "Expected 'false'");
    assert_eq!(parse_error("key: x"), "Unexpected character: k");
    assert_eq!(parse_error("s:?"), "Expected '\"' or '|' after 's'");
}

#[test]
fn toon_value_accessors() {
    let v = ToonValue::list(vec![ToonValue::integer(3), ToonValue::string("h\u{e9}".to_string())]);
    assert_eq!(v.len(), 2);
    assert_eq!(v.index(0).and_then(|x| x.as_i64()), Some(3));
    assert_eq!(v.index(1).map(|x| x.len()), Some(3));
    assert!(v.index(2).is_none());
    assert!(v.get("a").is_none());
    assert_eq!(ToonValue::integer(1).len(), 0);
}
