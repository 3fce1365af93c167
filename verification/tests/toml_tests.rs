use chim_compiler::toml::{parse_str, TomlDocument, TomlError, TomlParser, TomlValue};

fn table_get<'a>(t: &'a Vec<(String, TomlValue)>, k: &str) -> Option<&'a TomlValue> {
    t.iter().rev().find(|e| e.0 == k).map(|e| &e.1)
}

#[test]
fn test_toml_value() {
    let value = TomlValue::String("hello".to_string());
    assert_eq!(value.as_str(), Some("hello"));
    assert_eq!(value.as_i64(), None);
}

#[test]
fn test_toml_document() {
    let mut doc = TomlDocument::new();
    doc.set("name".to_string(), TomlValue::String("test".to_string()));
    doc.set("version".to_string(), TomlValue::Float("1.0".to_string()));
    assert_eq!(doc.get_str("name").unwrap(), "test");
    assert_eq!(doc.get_float_text("version").unwrap().parse::<f64>().unwrap(), 1.0);
}

#[test]
fn test_toml_parser() {
    let toml = r#"
name = "test"
version = 1.0
enabled = true

[section]
key = "value"
"#;
    let doc = parse_str(toml).unwrap();
    assert_eq!(doc.get_str("name").unwrap(), "test");
    assert_eq!(doc.get_float_text("version").unwrap().parse::<f64>().unwrap(), 1.0);
    assert_eq!(doc.get_bool("enabled").unwrap(), true);
    assert!(doc.get_table("section").is_ok());
    let section = doc.get_table("section").unwrap();
    assert_eq!(table_get(section, "key").unwrap().as_str(), Some("value"));
}

#[test]
fn test_toml_array() {
    let toml = r#"
items = ["a", "b", "c"]
"#;
    let doc = parse_str(toml).unwrap();
    let arr = doc.get_array("items").unwrap();
    assert_eq!(arr.len(), 3);
    assert_eq!(arr[0].as_str(), Some("a"));
}

#[test]
fn test_toml_inline_table() {
    let toml = r#"
[section]
name = { first = "John", last = "Doe" }
"#;
    let doc = parse_str(toml).unwrap();
    let table = doc.get_table("section").unwrap();
    let inline = table_get(table, "name").and_then(|v| v.as_table()).unwrap();
    assert_eq!(table_get(inline, "first").unwrap().as_str(), Some("John"));
    assert_eq!(table_get(inline, "last").unwrap().as_str(), Some("Doe"));
}

#[test]
fn toml_scalars_and_errors() {
    let doc = TomlParser::new()
        .parse_str("# comment\n a = 42 \nb = -7\nc = 'single'\nd = false\ne = 1e3\nf = -inf\ng = .5\nh = 5.\nnot a pair\n")
        .unwrap();
    assert_eq!(doc.get_i64("a").unwrap(), 42);
    assert_eq!(doc.get_i64("b").unwrap(), -7);
    assert_eq!(doc.get_str("c").unwrap(), "single");
    assert_eq!(doc.get_bool("d").unwrap(), false);
    for k in ["e", "f", "g", "h"] {
        let text = doc.get_float_text(k).unwrap();
        assert!(text.parse::<f64>().is_ok());
    }
    assert!(matches!(doc.get_i64("c"), Err(TomlError::MissingKey(ref k)) if k == "c"));
    assert!(matches!(doc.get_str("zzz"), Err(TomlError::MissingKey(_))));
    let err = parse_str("x = nope").unwrap_err();
    assert!(matches!(err, TomlError::InvalidValue(ref m) if m == "Cannot parse value: nope"));
    let err = parse_str("x = [1, oops]").unwrap_err();
    assert!(matches!(err, TomlError::InvalidValue(ref m) if m == "Cannot parse value: oops"));
    assert!(parse_str("x = 1.2.3").is_err());
    assert!(parse_str("x = e5").is_err());
}

#[test]
fn toml_nested_tables_and_replacement() {
    let doc = parse_str("[a.b]\nx = 1\n[a.c]\ny = 2\n[top]\nz = 3\nz = 4\n").unwrap();
    let a = doc.get_table("a").unwrap();
    let b = table_get(a, "b").unwrap().as_table().unwrap();
    assert_eq!(table_get(b, "x").unwrap().as_i64(), Some(1));
    let c = table_get(a, "c").unwrap().as_table().unwrap();
    assert_eq!(table_get(c, "y").unwrap().as_i64(), Some(2));
    let top = doc.get_table("top").unwrap();
    assert_eq!(top.len(), 1);
    assert_eq!(table_get(top, "z").unwrap().as_i64(), Some(4));
    let v = doc.get("a").unwrap();
    assert_eq!(v.get("b").unwrap().get("x").unwrap().as_i64(), Some(1));
    assert!(!v.is_none());
    assert!(TomlValue::Nothing.is_none());
}

#[test]
fn test_toml_write() {
    let mut doc = TomlDocument::new();
    doc.set("name".to_string(), TomlValue::String("test".to_string()));
    doc.set("version".to_string(), TomlValue::Float("1.0".to_string()));
    let toml = doc.to_string().unwrap();
    assert!(toml.contains("name = \"test\""));
    assert!(toml.contains("version = 1"));
}

#[test]
fn toml_write_nested_values() {
    let doc = parse_str("n = -3\nflag = true\nxs = [1, \"a\"]\ninl = {k = 1, j = \"x\"}\n[t]\nz = 0\n").unwrap();
    assert_eq!(
        doc.to_string().unwrap(),
        "n = -3\nflag = true\nxs = [\n   = 1\n   = \"a\"\n]\ninl = {k = 1, j = \"x\"}\n[t]\n  z = 0\n"
    );
}

#[test]
fn toml_inline_values_split_at_every_comma() {
    assert!(matches!(parse_str("a = {j = [2, 3]}"), Err(TomlError::InvalidValue(ref m)) if m == "Cannot parse value: [2"));
}
