//! Searches for common kinds of text with fixed patterns.
use vstd::prelude::*;
use crate::text::owned;
use crate::stdlib::regex::{Regex, find_spec};

verus! {

/// The text of the first match of `pattern`, if any.
fn first_match(pattern: &str, text: &String) -> (r: Option<String>)
    requires
        pattern@.len() > 0,
        text@.len() < i64::MAX,
    ensures
        match find_spec(pattern@, text@, 0) {
            Some(m) => r matches Some(s) && s@ == m.2,
            None => r is None,
        },
{
    match Regex::new(owned(pattern)) {
        Ok(re) => match re.find(text) {
            Some(m) => Some(m.matched_text()),
            None => None,
        },
        Err(_) => None,
    }
}

/// Whether `pattern` occurs in `text`.
fn occurs(pattern: &str, text: &String) -> (r: bool)
    requires
        pattern@.len() > 0,
        text@.len() < i64::MAX,
    ensures
        r == (find_spec(pattern@, text@, 0) is Some),
{
    match Regex::new(owned(pattern)) {
        Ok(re) => re.is_match(text),
        Err(_) => false,
    }
}

/// The e-mail pattern.
pub open spec fn email_pattern() -> Seq<char> {
    "[a-zA-Z0-9._%+-]+@[a-zA-Z0-9.-]+\\.[a-zA-Z]{2,}"@
}

/// The first text matching the e-mail pattern.
pub fn extract_email(text: &String) -> (r: Option<String>)
    requires
        text@.len() < i64::MAX,
    ensures
        match find_spec(email_pattern(), text@, 0) {
            Some(m) => r matches Some(s) && s@ == m.2,
            None => r is None,
        },
{
    proof {
        reveal_strlit("[a-zA-Z0-9._%+-]+@[a-zA-Z0-9.-]+\\.[a-zA-Z]{2,}");
    }
    first_match("[a-zA-Z0-9._%+-]+@[a-zA-Z0-9.-]+\\.[a-zA-Z]{2,}", text)
}

/// The phone pattern.
pub open spec fn phone_pattern() -> Seq<char> {
    "\\+?[0-9]{10,15}"@
}

/// The first text matching the phone pattern.
pub fn extract_phone(text: &String) -> (r: Option<String>)
    requires
        text@.len() < i64::MAX,
    ensures
        match find_spec(phone_pattern(), text@, 0) {
            Some(m) => r matches Some(s) && s@ == m.2,
            None => r is None,
        },
{
    proof {
        reveal_strlit("\\+?[0-9]{10,15}");
    }
    first_match("\\+?[0-9]{10,15}", text)
}

/// The URL pattern.
pub open spec fn url_pattern() -> Seq<char> {
    "https?://[^\\s]+"@
}

/// The first text matching the URL pattern.
pub fn extract_url(text: &String) -> (r: Option<String>)
    requires
        text@.len() < i64::MAX,
    ensures
        match find_spec(url_pattern(), text@, 0) {
            Some(m) => r matches Some(s) && s@ == m.2,
            None => r is None,
        },
{
    proof {
        reveal_strlit("https?://[^\\s]+");
    }
    first_match("https?://[^\\s]+", text)
}

/// The address pattern.
pub open spec fn ip_pattern() -> Seq<char> {
    "\\d{1,3}\\.\\d{1,3}\\.\\d{1,3}\\.\\d{1,3}"@
}

/// The first text matching the address pattern.
pub fn extract_ip(text: &String) -> (r: Option<String>)
    requires
        text@.len() < i64::MAX,
    ensures
        match find_spec(ip_pattern(), text@, 0) {
            Some(m) => r matches Some(s) && s@ == m.2,
            None => r is None,
        },
{
    proof {
        reveal_strlit("\\d{1,3}\\.\\d{1,3}\\.\\d{1,3}\\.\\d{1,3}");
    }
    first_match("\\d{1,3}\\.\\d{1,3}\\.\\d{1,3}\\.\\d{1,3}", text)
}

/// Whether the anchored e-mail pattern occurs.
pub fn is_valid_email(email: &String) -> (r: bool)
    requires
        email@.len() < i64::MAX,
    ensures
        r == (find_spec("^[a-zA-Z0-9._%+-]+@[a-zA-Z0-9.-]+\\.[a-zA-Z]{2,}$"@, email@, 0) is Some),
{
    proof {
        reveal_strlit("^[a-zA-Z0-9._%+-]+@[a-zA-Z0-9.-]+\\.[a-zA-Z]{2,}$");
    }
    occurs("^[a-zA-Z0-9._%+-]+@[a-zA-Z0-9.-]+\\.[a-zA-Z]{2,}$", email)
}

/// Whether the anchored URL pattern occurs.
pub fn is_valid_url(url: &String) -> (r: bool)
    requires
        url@.len() < i64::MAX,
    ensures
        r == (find_spec("^https?://[^\\s]+$"@, url@, 0) is Some),
{
    proof {
        reveal_strlit("^https?://[^\\s]+$");
    }
    occurs("^https?://[^\\s]+$", url)
}

/// Whether the anchored address pattern occurs.
pub fn is_valid_ip(ip: &String) -> (r: bool)
    requires
        ip@.len() < i64::MAX,
    ensures
        r == (find_spec("^\\d{1,3}\\.\\d{1,3}\\.\\d{1,3}\\.\\d{1,3}$"@, ip@, 0) is Some),
{
    proof {
        reveal_strlit("^\\d{1,3}\\.\\d{1,3}\\.\\d{1,3}\\.\\d{1,3}$");
    }
    if !occurs("^\\d{1,3}\\.\\d{1,3}\\.\\d{1,3}\\.\\d{1,3}$", ip) {
        return false;
    }
    true
}

} // verus!
