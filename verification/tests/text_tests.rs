use chim_compiler::stdlib::error::{Context, ErrorKind, Formatter as TextFormatter, IOError, ParseError};
use chim_compiler::stdlib::fmt::{Alignment, FormatSpec, Formatter};
use chim_compiler::stdlib::string::{self as cstring, string, string_from_chars, string_to_chars};

fn text(s: &cstring::String) -> String {
    String::from_utf8(s.bytes()).unwrap()
}

#[test]
fn chim_string_search() {
    let s = string("hello world hello");
    assert_eq!(s.len(), 17);
    assert_eq!(s.find("hello"), 0);
    assert_eq!(s.find_from("hello", 1), 12);
    assert_eq!(s.find_from("hello", -1), -1);
    assert_eq!(s.rfind("hello"), 12);
    assert_eq!(s.find("xyz"), -1);
    assert!(s.contains("world"));
    assert!(s.starts_with("hell"));
    assert!(s.ends_with("llo"));
    assert!(!s.ends_with("hello world hello!"));
    assert_eq!(s.char_at(4), "o");
    assert_eq!(s.char_at(17), "");
}

#[test]
fn chim_string_slices() {
    let s = string("abcdef");
    assert_eq!(text(&s.substr(2)), "cdef");
    assert_eq!(text(&s.substr(9)), "");
    assert_eq!(text(&s.substr_range(1, 3)), "bcd");
    assert_eq!(text(&s.substr_range(4, 10)), "ef");
    assert_eq!(text(&s.substr_range(-1, 3)), "");
}

#[test]
fn chim_string_trim_and_case() {
    let s = string("  Hi There \t");
    assert_eq!(text(&s.trim()), "Hi There");
    assert_eq!(text(&s.trim_start()), "Hi There \t");
    assert_eq!(text(&s.trim_end()), "  Hi There");
    assert_eq!(text(&string("MiXeD").to_lowercase()), "mixed");
    assert_eq!(text(&string("MiXeD").to_uppercase()), "MIXED");
    assert_eq!(text(&string("   ").trim()), "");
}

#[test]
fn chim_string_to_int() {
    assert_eq!(string("42").to_int(), Some(42));
    assert_eq!(string("-17").to_int(), Some(-17));
    assert_eq!(string("0").to_int(), Some(0));
    assert_eq!(string("abc").to_int(), None);
}

#[test]
fn chim_string_split_join_repeat_replace() {
    let s = string("a,b,,c");
    assert_eq!(s.split(","), vec!["a", "b", "", "c"]);
    assert_eq!(s.split(""), vec!["a,b,,c"]);
    let sep = string("-");
    assert_eq!(sep.join(&["x".to_string(), "y".to_string(), "z".to_string()]), "x-y-z");
    assert_eq!(sep.join(&[]), "");
    assert_eq!(text(&string("ab").repeat(3)), "ababab");
    assert_eq!(text(&string("ab").repeat(0)), "");
    assert_eq!(string("aXbXc").replace("X", "--"), "a--b--c");
    assert_eq!(string("aXbXc").replace_once("X", "--"), "a--bXc");
    assert_eq!(text(&string("ab").add(&string("cd"))), "abcd");
}

#[test]
fn chim_string_chars() {
    assert_eq!(string_from_chars(&['a', 'b']), "ab");
    assert_eq!(string_to_chars("xy"), vec!['x', 'y']);
    assert_eq!(text(&cstring::String::new()), "");
    assert!(cstring::String::from("").is_empty());
}

#[test]
fn io_error_text_and_predicates() {
    let e = IOError::new(ErrorKind::NotFound, "no file".to_string());
    assert!(e.is_not_found());
    assert!(!e.is_timeout());
    assert_eq!(e.kind_name(), "NotFound");
    assert_eq!(e.to_string(), "no file (NotFound)");
    let d = IOError::with_detail(ErrorKind::TimedOut, "read".to_string(), "after 5s".to_string());
    assert!(d.is_timeout());
    assert_eq!(d.detail(), Some(&"after 5s".to_string()));
    assert_eq!(d.to_string(), "read: after 5s (TimedOut)");
    assert_eq!(IOError::new(ErrorKind::UnexpectedEof, String::new()).is_eof(), true);
    assert_eq!(IOError::new(ErrorKind::PermissionDenied, String::new()).is_permission_denied(), true);
}

#[test]
fn parse_error_text() {
    let p = ParseError::new("1+".to_string(), 2, "number".to_string());
    assert_eq!(p.to_string(), "Parse error at position 2: expected number");
    assert_eq!(p.position(), 2);
    assert!(p.reason().is_none());
    let q = ParseError::with_reason("x".to_string(), -1, "digit".to_string(), "empty".to_string());
    assert_eq!(q.to_string(), "Parse error at position -1: expected digit, empty");
}

#[test]
fn error_formatter_accumulates() {
    let mut f = TextFormatter::new();
    f.write_str("n=");
    f.write_int(-12);
    f.write_char(",");
    f.write_bool(true);
    assert_eq!(f.result(), "n=-12,true");
}

#[test]
fn context_notes() {
    let c = Context::new(3, "start".to_string());
    let d = c.with(|x: i32| x + 1, "step".to_string());
    assert_eq!(d.context(), "step: start");
    assert_eq!(d.value(), 4);
    let e: Context<Option<i32>> = Context::new(None, "x".to_string());
    assert_eq!(e.ok_or("missing"), Err("missing"));
}

#[test]
fn fmt_integers_with_width_and_markers() {
    let mut f = Formatter::new();
    f.write_int(42).unwrap();
    assert_eq!(f.finish(), "42");

    let mut f = Formatter::new();
    f.width(6);
    f.write_int(-42).unwrap();
    assert_eq!(f.finish(), "   -42");

    let mut f = Formatter::new();
    f.width(6).alignment(Alignment::Left);
    f.write_int(7).unwrap();
    assert_eq!(f.finish(), "7     ");

    let mut f = Formatter::new();
    f.width(5).alignment(Alignment::Center);
    f.write_int(7).unwrap();
    assert_eq!(f.finish(), "  7  ");

    let mut f = Formatter::new();
    f.spec(FormatSpec::HexLower).alternate(true);
    f.write_int(255).unwrap();
    assert_eq!(f.finish(), "0x255");

    let mut f = Formatter::new();
    f.spec(FormatSpec::Decimal);
    f.write_int(5).unwrap();
    f.write_char('!').unwrap();
    f.write_string("?").unwrap();
    assert_eq!(f.finish(), "+5!?");

    let mut f = Formatter::new();
    f.spec(FormatSpec::Binary).alternate(true);
    f.write_int(0).unwrap();
    assert_eq!(f.finish(), "0");
}
