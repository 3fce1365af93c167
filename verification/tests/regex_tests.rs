use chim_compiler::stdlib::regex::{self, Regex};
use chim_compiler::stdlib::regex::regex_captures;

fn s(x: &str) -> String {
    x.to_string()
}

#[test]
fn regex_empty_pattern_is_refused() {
    assert!(Regex::new(s("")).is_err());
    assert!(Regex::new(s("a")).is_ok());
}

#[test]
fn regex_find_literal() {
    let re = Regex::new(s("ab")).unwrap();
    let m = re.find(&s("xxabyy")).unwrap();
    assert_eq!(m.start(), 2);
    assert_eq!(m.end(), 3);
    assert_eq!(m.matched_text(), "ab");
    assert!(re.find(&s("xxayby")).is_none());
    assert!(re.is_match(&s("ab")));
    assert!(!re.is_match(&s("a")));
}

#[test]
fn regex_digit_escape_spans_two_characters() {
    let re = Regex::new(s("%d")).unwrap();
    let m = re.find(&s("a7b")).unwrap();
    assert_eq!(m.start(), 1);
    assert_eq!(m.end(), 2);
    assert_eq!(m.matched_text(), "7b");
    assert!(re.find(&s("a7")).is_none());
    assert!(re.find(&s("abc")).is_none());
}

#[test]
fn regex_any_escape() {
    let re = Regex::new(s("a%sc")).unwrap();
    let m = re.find(&s("aXYc")).unwrap();
    assert_eq!(m.start(), 0);
    assert_eq!(m.end(), 3);
    assert_eq!(m.matched_text(), "aXYc");
}

#[test]
fn regex_find_at_skips_earlier_matches() {
    let re = Regex::new(s("ab")).unwrap();
    let m = re.find_at(&s("abxab"), 1).unwrap();
    assert_eq!(m.start(), 3);
    assert!(re.find_at(&s("abxab"), 4).is_none());
}

#[test]
fn regex_find_all_spans() {
    let re = Regex::new(s("ab")).unwrap();
    let all = re.find_all(&s("xabyabz"));
    assert_eq!(all.len(), 2);
    assert_eq!((all[0].start(), all[0].end()), (1, 2));
    assert_eq!((all[1].start(), all[1].end()), (4, 5));
}

#[test]
fn regex_replace_repeats_the_tail_when_no_match_is_left() {
    let re = Regex::new(s("ab")).unwrap();
    assert_eq!(re.replace(&s("xabyabz"), &s("-")), "x-by-bzbz");
}

#[test]
fn regex_replace_n_limits_replacements() {
    let re = Regex::new(s("ab")).unwrap();
    assert_eq!(re.replace_n(&s("xabyabz"), &s("-"), 1), "x-byabz");
    assert_eq!(re.replace_n(&s("xabyabz"), &s("-"), 0), "xabyabz");
}

#[test]
fn regex_single_char_pattern_absent() {
    assert_eq!(regex::replace(&s("z"), &s("abc"), &s("-")), "abcabc");
    assert_eq!(regex::split(&s("z"), &s("abc")), vec![s("abc")]);
}

#[test]
fn regex_split_pieces() {
    let re = Regex::new(s("ab")).unwrap();
    assert_eq!(re.split(&s("xabyabz")), vec![s("x"), s("by"), s("bz")]);
    assert_eq!(re.splitn(&s("xabyabz"), 2), vec![s("x"), s("byabz")]);
    assert_eq!(re.splitn(&s("xabyabz"), 1), vec![s("xabyabz")]);
}

#[test]
fn regex_free_functions_with_empty_pattern() {
    assert!(!regex::is_match(&s(""), &s("abc")));
    assert!(regex::find(&s(""), &s("abc")).is_none());
    assert_eq!(regex::replace(&s(""), &s("abc"), &s("-")), "abc");
    assert_eq!(regex::split(&s(""), &s("abc")), vec![s("abc")]);
}

#[test]
fn regex_free_find() {
    let m = regex::find(&s("cd"), &s("abcd")).unwrap();
    assert_eq!(m.start(), 2);
    assert!(regex::is_match(&s("cd"), &s("abcd")));
}

#[test]
fn regex_captures_and_text() {
    let re = Regex::new(s("ab")).unwrap();
    assert_eq!(re.captures(&s("xab")), Some(vec![]));
    assert_eq!(re.captures(&s("xa")), None);
    assert_eq!(re.text(), "ab");
}

#[test]
fn regex_fixed_patterns_are_matched_literally() {
    assert_eq!(regex_captures::extract_email(&s("write to a@b.com")), None);
    assert!(!regex_captures::is_valid_ip(&s("1.2.3.4")));
    assert!(!regex_captures::is_valid_email(&s("a@b.com")));
    assert!(!regex_captures::is_valid_url(&s("https://x.org")));
    let lit = r"\+?[0-9]{10,15}";
    let text = format!("call {} now", lit);
    assert_eq!(regex_captures::extract_phone(&text), Some(lit.to_string()));
    assert_eq!(regex_captures::extract_url(&s("https://x.org")), None);
    assert_eq!(regex_captures::extract_ip(&s("10.0.0.1")), None);
}
