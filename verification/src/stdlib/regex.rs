//! Pattern search, replacement and splitting. A pattern matches text of its
//! own length character by character; `%d` matches a digit, `%a` and `%s`
//! match any character, and each such escape spans two characters of the
//! text. Positions count characters.
use vstd::prelude::*;
use crate::text::{chars_of, owned, string_from_chars, string_push_str};
use crate::strops::sub_vec;

pub mod regex_captures;

verus! {

/// Whether `p` matches `t` at `i`, checking from pattern position `j` on.
pub open spec fn matches_from(p: Seq<char>, t: Seq<char>, i: int, j: int) -> bool
    decreases p.len() - j,
{
    if j < 0 || j >= p.len() {
        true
    } else {
        let pc = p[j];
        let tc = t[i + j];
        if pc == '%' && j + 1 < p.len() && ((p[j + 1] == 'd' && '0' <= tc <= '9') || p[j + 1] == 'a' || p[j + 1]
            == 's') {
            matches_from(p, t, i, j + 2)
        } else if tc != pc {
            false
        } else {
            matches_from(p, t, i, j + 1)
        }
    }
}

/// The first position from `i` on where `p` matches within `t`.
pub open spec fn search_from(p: Seq<char>, t: Seq<char>, i: int) -> Option<int>
    decreases t.len() - i,
{
    if i < 0 || i + p.len() > t.len() {
        None
    } else if matches_from(p, t, i, 0) {
        Some(i)
    } else {
        search_from(p, t, i + 1)
    }
}

/// The match of `p` found from `start` on: its first position, its last
/// position, and the text it covers. An empty pattern matches at `start`.
pub open spec fn find_spec(p: Seq<char>, t: Seq<char>, start: int) -> Option<(int, int, Seq<char>)> {
    if p.len() == 0 {
        Some((start, start, Seq::empty()))
    } else {
        match search_from(p, t, start) {
            Some(i) => Some((i, i + p.len() - 1, t.subrange(i, i + p.len()))),
            None => None,
        }
    }
}

/// A compiled pattern.
#[derive(Debug, Clone, PartialEq)]
pub struct Regex {
    pattern: String,
    compiled: CompiledRegex,
}

#[derive(Debug, Clone, PartialEq)]
struct CompiledRegex {
    pattern: String,
    flags: RegexFlags,
}

#[derive(Debug, Clone, PartialEq)]
struct RegexFlags {
    ignore_case: bool,
    multi_line: bool,
    dot_matches_newline: bool,
}

/// A match: first and last position, the matched text, and its groups.
#[derive(Debug, Clone)]
pub struct Match {
    start: i64,
    end: i64,
    matched: String,
    groups: Vec<Option<String>>,
}

impl Match {
    /// First position, last position and matched text.
    pub closed spec fn span(&self) -> (int, int, Seq<char>) {
        (self.start as int, self.end as int, self.matched@)
    }

    /// The number of groups.
    pub closed spec fn group_count(&self) -> nat {
        self.groups@.len()
    }

    /// The first position.
    pub fn start(&self) -> (r: i64)
        ensures
            r as int == self.span().0,
    {
        self.start
    }

    /// The last position.
    pub fn end(&self) -> (r: i64)
        ensures
            r as int == self.span().1,
    {
        self.end
    }

    /// The matched text.
    pub fn matched_text(&self) -> (r: String)
        ensures
            r@ == self.span().2,
    {
        self.matched.clone()
    }
}

/// An error with a message.
#[derive(Debug, Clone)]
pub struct Error {
    message: String,
}

impl Error {
    /// The message.
    pub closed spec fn msg(&self) -> Seq<char> {
        self.message@
    }

    pub fn new(msg: String) -> (r: Error)
        ensures
            r.msg() == msg@,
    {
        Error { message: msg }
    }
}

/// The text replaced from position `pos`, `count` replacements made: each
/// match's preceding text and the replacement, the match's last character
/// starting the rest; when no match is left, the rest is written twice, and
/// after the last allowed replacement once.
pub open spec fn replace_from(p: Seq<char>, t: Seq<char>, r: Seq<char>, n: int, pos: int, count: int) -> Seq<char>
    decreases t.len() - pos, if n >= 0 { n - count } else { 0 },
    when 0 <= pos && (n >= 0 || p.len() >= 2) && p.len() >= 1
{
    if !((n < 0 || count < n) && pos < t.len()) {
        if pos < t.len() { t.subrange(pos, t.len() as int) } else { Seq::empty() }
    } else {
        match search_from(p, t, pos) {
            None => t.subrange(pos, t.len() as int) + t.subrange(pos, t.len() as int),
            Some(s) => {
                proof {
                    lemma_search_bounds(p, t, pos);
                }
                t.subrange(pos, s) + r + replace_from(p, t, r, n, s + p.len() - 1, count + 1)
            },
        }
    }
}

/// The result of replacing up to `n` matches (all when `n` is negative).
pub open spec fn replace_spec(p: Seq<char>, t: Seq<char>, r: Seq<char>, n: int) -> Seq<char> {
    if n < 0 && p.len() == 1 {
        t + t
    } else {
        replace_from(p, t, r, n, 0, 0)
    }
}

/// The pieces from position `pos`, `count` cuts made: the text before
/// each match, the match's last character starting the next piece, and the
/// rest as the last piece.
pub open spec fn split_from(p: Seq<char>, t: Seq<char>, n: int, pos: int, count: int) -> Seq<Seq<char>>
    decreases t.len() - pos, if n >= 0 { n - count } else { 0 },
    when 0 <= pos && (n >= 0 || p.len() >= 2) && p.len() >= 1
{
    if !((n < 0 || count < n - 1) && pos < t.len()) {
        seq![t.subrange(pos, t.len() as int)]
    } else {
        match search_from(p, t, pos) {
            None => seq![t.subrange(pos, t.len() as int)],
            Some(s) => {
                proof {
                    lemma_search_bounds(p, t, pos);
                }
                seq![t.subrange(pos, s)] + split_from(p, t, n, s + p.len() - 1, count + 1)
            },
        }
    }
}

/// The pieces of splitting at up to `n - 1` matches (all when `n` is
/// negative).
pub open spec fn split_spec(p: Seq<char>, t: Seq<char>, n: int) -> Seq<Seq<char>> {
    if n < 0 && p.len() == 1 {
        seq![t]
    } else {
        split_from(p, t, n, 0, 0)
    }
}

/// The spans of all matches from `pos` on, each search starting after the
/// previous match.
pub open spec fn find_all_from(p: Seq<char>, t: Seq<char>, pos: int) -> Seq<(int, int)>
    decreases t.len() - pos,
    when 0 <= pos && p.len() >= 1
{
    if pos >= t.len() {
        Seq::empty()
    } else {
        match search_from(p, t, pos) {
            None => Seq::empty(),
            Some(s) => {
                proof {
                    lemma_search_bounds(p, t, pos);
                }
                seq![(s, s + p.len() - 1)] + find_all_from(p, t, s + p.len())
            },
        }
    }
}

/// Whether the replacement or split loop ends: it does unless the pattern
/// is one character long, every match is taken, and the pattern occurs.
pub open spec fn loop_ends(p: Seq<char>, t: Seq<char>, n: int) -> bool {
    n >= 0 || p.len() != 1 || search_from(p, t, 0) is None
}

/// A found match lies within the text.
pub proof fn lemma_search_bounds(p: Seq<char>, t: Seq<char>, i: int)
    ensures
        search_from(p, t, i) matches Some(s) ==> i <= s && s + p.len() <= t.len(),
    decreases t.len() - i,
{
    if !(i < 0 || i + p.len() > t.len()) && !matches_from(p, t, i, 0) {
        lemma_search_bounds(p, t, i + 1);
    }
}

impl Regex {
    /// The pattern's text, as matching uses it.
    pub closed spec fn pattern_text(&self) -> Seq<char> {
        self.compiled.pattern@
    }

    /// The pattern's text, as given.
    pub closed spec fn source(&self) -> Seq<char> {
        self.pattern@
    }

    /// A pattern; empty patterns are refused.
    pub fn new(pattern: String) -> (r: Result<Regex, Error>)
        ensures
            match r {
                Ok(re) => pattern@.len() > 0 && re.pattern_text() == pattern@ && re.source() == pattern@,
                Err(e) => pattern@.len() == 0 && e.msg() == "empty pattern"@,
            },
    {
        if pattern.as_str().unicode_len() == 0 {
            return Err(Error::new(owned("empty pattern")));
        }
        Ok(Regex {
            pattern: pattern.clone(),
            compiled: CompiledRegex {
                pattern,
                flags: RegexFlags { ignore_case: false, multi_line: false, dot_matches_newline: false },
            },
        })
    }

    /// Whether the pattern occurs in the text.
    pub fn is_match(&self, text: &String) -> (r: bool)
        requires
            text@.len() < i64::MAX,
        ensures
            r == (find_spec(self.pattern_text(), text@, 0) is Some),
    {
        self.find(text).is_some()
    }

    /// The first match.
    pub fn find(&self, text: &String) -> (r: Option<Match>)
        requires
            text@.len() < i64::MAX,
        ensures
            match find_spec(self.pattern_text(), text@, 0) {
                Some(m) => r matches Some(x) && x.span() == m && x.group_count() == 0,
                None => r is None,
            },
    {
        self.find_at(text, 0)
    }

    /// The first match from position `start` on.
    pub fn find_at(&self, text: &String, start: i64) -> (r: Option<Match>)
        requires
            0 <= start,
            text@.len() < i64::MAX,
        ensures
            match find_spec(self.pattern_text(), text@, start as int) {
                Some(m) => r matches Some(x) && x.span() == m && x.group_count() == 0,
                None => r is None,
            },
    {
        simple_search(&self.compiled.pattern, text, start)
    }

    /// Every match, each search starting after the previous match.
    pub fn find_all(&self, text: &String) -> (r: Vec<Match>)
        requires
            text@.len() < i64::MAX,
            self.pattern_text().len() > 0,
        ensures
            r@.len() == find_all_from(self.pattern_text(), text@, 0).len(),
            forall|k: int| 0 <= k < r@.len() ==> (#[trigger] r@[k]).span().0 == find_all_from(self.pattern_text(), text@, 0)[k].0
                && r@[k].span().1 == find_all_from(self.pattern_text(), text@, 0)[k].1,
    {
        let ghost p = self.pattern_text();
        let ghost t = text@;
        let n = text.as_str().unicode_len() as i64;
        let mut matches: Vec<Match> = Vec::new();
        let mut pos: i64 = 0;
        while pos < n
            invariant
                p == self.pattern_text(),
                p.len() > 0,
                t == text@,
                n == t.len(),
                n < i64::MAX,
                0 <= pos,
                ({
                    let all = find_all_from(p, t, 0);
                    let rest = find_all_from(p, t, pos as int);
                    &&& matches@.len() + rest.len() == all.len()
                    &&& forall|k: int| 0 <= k < matches@.len() ==> (#[trigger] matches@[k]).span().0 == all[k].0 && matches@[k].span().1 == all[k].1
                    &&& forall|k: int| 0 <= k < rest.len() ==> #[trigger] rest[k] == all[matches@.len() + k]
                }),
            ensures
                ({
                    let all = find_all_from(p, t, 0);
                    &&& matches@.len() == all.len()
                    &&& forall|k: int| 0 <= k < matches@.len() ==> (#[trigger] matches@[k]).span().0 == all[k].0 && matches@[k].span().1 == all[k].1
                }),
            decreases n - pos,
        {
            proof {
                lemma_search_bounds(p, t, pos as int);
            }
            let ghost rest = find_all_from(p, t, pos as int);
            match self.find_at(text, pos) {
                Some(m) => {
                    let ghost before = matches@;
                    let next = m.end + 1;
                    matches.push(m);
                    proof {
                        let all = find_all_from(p, t, 0);
                        let rest2 = find_all_from(p, t, next as int);
                        assert(rest == seq![(rest[0].0, rest[0].1)] + rest2);
                        assert forall|k: int| 0 <= k < rest2.len() implies #[trigger] rest2[k] == all[matches@.len() + k] by {
                            assert(rest2[k] == rest[k + 1]);
                        }
                        assert forall|k: int| 0 <= k < matches@.len() implies (#[trigger] matches@[k]).span().0 == all[k].0
                            && matches@[k].span().1 == all[k].1 by {
                            if k < before.len() {
                                assert(matches@[k] == before[k]);
                            } else {
                                assert(all[k] == rest[0]);
                            }
                        }
                    }
                    pos = next;
                },
                None => {
                    break;
                },
            }
        }
        matches
    }

    /// The text with every match replaced.
    pub fn replace(&self, text: &String, replacement: &String) -> (r: String)
        requires
            text@.len() < i64::MAX,
            self.pattern_text().len() > 0,
            loop_ends(self.pattern_text(), text@, -1),
        ensures
            r@ == replace_spec(self.pattern_text(), text@, replacement@, -1),
    {
        self.replace_n(text, replacement, -1)
    }

    /// The text with up to `n` matches replaced (all when `n` is negative).
    pub fn replace_n(&self, text: &String, replacement: &String, n: i64) -> (r: String)
        requires
            text@.len() < i64::MAX,
            self.pattern_text().len() > 0,
            loop_ends(self.pattern_text(), text@, n as int),
        ensures
            r@ == replace_spec(self.pattern_text(), text@, replacement@, n as int),
    {
        let ghost p = self.pattern_text();
        let ghost t = text@;
        let chars = chars_of(text.as_str());
        let len = text.as_str().unicode_len() as i64;
        let mut result = String::new();
        let mut pos: i64 = 0;
        let mut count: i64 = 0;
        if n < 0 && self.compiled.pattern.as_str().unicode_len() == 1 {
            // the pattern does not occur, so the first search ends the loop
            match self.find_at(text, 0) {
                Some(_) => {
                    assert(false);
                },
                None => {},
            }
            if len > 0 {
                string_push_str(&mut result, text.as_str());
                string_push_str(&mut result, text.as_str());
            }
            assert(result@ =~= t + t);
            return result;
        }
        loop
            invariant_except_break
                result@ + replace_from(p, t, replacement@, n as int, pos as int, count as int) == replace_spec(
                    p,
                    t,
                    replacement@,
                    n as int,
                ),
            invariant
                p == self.pattern_text(),
                p.len() >= 1,
                n >= 0 || p.len() >= 2,
                t == text@,
                chars@ == t,
                len == t.len(),
                len < i64::MAX,
                0 <= pos <= len,
                0 <= count,
                n >= 0 ==> count <= n,
                n < 0 ==> count <= pos,
            ensures
                result@ == replace_spec(p, t, replacement@, n as int),
            decreases len - pos, if n >= 0 { n - count } else { 0 },
        {
            if !((n < 0 || count < n) && pos < len) {
                if pos < len {
                    let tail = sub_vec(&chars, pos as usize, len as usize);
                    string_push_str(&mut result, string_from_chars(&tail).as_str());
                }
                assert(result@ =~= replace_spec(p, t, replacement@, n as int));
                break;
            }
            proof {
                lemma_search_bounds(p, t, pos as int);
            }
            match self.find_at(text, pos) {
                Some(m) => {
                    proof {
                        let s = search_from(p, t, pos as int)->Some_0;
                        assert(m.start as int == s && m.end as int == s + p.len() - 1);
                    }
                    let before = sub_vec(&chars, pos as usize, m.start as usize);
                    string_push_str(&mut result, string_from_chars(&before).as_str());
                    string_push_str(&mut result, replacement.as_str());
                    pos = m.end;
                    count = count + 1;
                },
                None => {
                    let tail = sub_vec(&chars, pos as usize, len as usize);
                    let tail_s = string_from_chars(&tail);
                    string_push_str(&mut result, tail_s.as_str());
                    string_push_str(&mut result, tail_s.as_str());
                    assert(result@ =~= replace_spec(p, t, replacement@, n as int));
                    break;
                },
            }
        }
        result
    }

    /// The pieces between matches.
    pub fn split(&self, text: &String) -> (r: Vec<String>)
        requires
            text@.len() < i64::MAX,
            self.pattern_text().len() > 0,
            loop_ends(self.pattern_text(), text@, -1),
        ensures
            r@.map_values(|s: String| s@) == split_spec(self.pattern_text(), text@, -1),
    {
        self.splitn(text, -1)
    }

    /// The pieces between up to `n - 1` matches (all when `n` is negative).
    pub fn splitn(&self, text: &String, n: i64) -> (r: Vec<String>)
        requires
            text@.len() < i64::MAX,
            self.pattern_text().len() > 0,
            loop_ends(self.pattern_text(), text@, n as int),
        ensures
            r@.map_values(|s: String| s@) == split_spec(self.pattern_text(), text@, n as int),
    {
        let ghost p = self.pattern_text();
        let ghost t = text@;
        let chars = chars_of(text.as_str());
        let len = text.as_str().unicode_len() as i64;
        let mut parts: Vec<String> = Vec::new();
        let mut pos: i64 = 0;
        let mut count: i64 = 0;
        if n < 0 && self.compiled.pattern.as_str().unicode_len() == 1 {
            match self.find_at(text, 0) {
                Some(_) => {
                    assert(false);
                },
                None => {},
            }
            parts.push(text.clone());
            assert(parts@.map_values(|s: String| s@) =~= seq![t]);
            return parts;
        }
        loop
            invariant_except_break
                parts@.map_values(|s: String| s@) + split_from(p, t, n as int, pos as int, count as int) == split_spec(
                    p,
                    t,
                    n as int,
                ),
            invariant
                p == self.pattern_text(),
                p.len() >= 1,
                n >= 0 || p.len() >= 2,
                t == text@,
                chars@ == t,
                len == t.len(),
                len < i64::MAX,
                0 <= pos <= len,
                0 <= count,
                n >= 0 ==> count <= n,
                n < 0 ==> count <= pos,
            ensures
                parts@.map_values(|s: String| s@) == split_spec(p, t, n as int),
            decreases len - pos, if n >= 0 { n - count } else { 0 },
        {
            let go = if n < 0 { pos < len } else { count < n - 1 && pos < len };
            if !go {
                let tail = sub_vec(&chars, pos as usize, len as usize);
                let ghost before = parts@;
                parts.push(string_from_chars(&tail));
                assert(parts@.map_values(|s: String| s@) =~= before.map_values(|s: String| s@) + seq![t.subrange(
                    pos as int,
                    len as int,
                )]);
                break;
            }
            proof {
                lemma_search_bounds(p, t, pos as int);
            }
            match self.find_at(text, pos) {
                Some(m) => {
                    proof {
                        let s = search_from(p, t, pos as int)->Some_0;
                        assert(m.start as int == s && m.end as int == s + p.len() - 1);
                    }
                    let piece = sub_vec(&chars, pos as usize, m.start as usize);
                    let ghost before = parts@;
                    parts.push(string_from_chars(&piece));
                    proof {
                        let s = search_from(p, t, pos as int)->Some_0;
                        assert(parts@.map_values(|s: String| s@) =~= before.map_values(|s: String| s@) + seq![t.subrange(
                            pos as int,
                            s,
                        )]);
                    }
                    pos = m.end;
                    count = count + 1;
                },
                None => {
                    let tail = sub_vec(&chars, pos as usize, len as usize);
                    let ghost before = parts@;
                    parts.push(string_from_chars(&tail));
                    assert(parts@.map_values(|s: String| s@) =~= before.map_values(|s: String| s@) + seq![t.subrange(
                        pos as int,
                        len as int,
                    )]);
                    break;
                },
            }
        }
        parts
    }

    /// The groups of the first match.
    pub fn captures(&self, text: &String) -> (r: Option<Vec<Option<String>>>)
        requires
            text@.len() < i64::MAX,
        ensures
            r is Some == (find_spec(self.pattern_text(), text@, 0) is Some),
            r matches Some(g) ==> g@.len() == 0,
    {
        match self.find(text) {
            Some(m) => Some(m.groups),
            None => None,
        }
    }

    /// The pattern's text.
    pub fn text(&self) -> (r: String)
        ensures
            r@ == self.source(),
    {
        self.pattern.clone()
    }
}

/// Searches for `pattern` in `text` from `start` on.
fn simple_search(pattern: &String, text: &String, start: i64) -> (r: Option<Match>)
    requires
        0 <= start,
        text@.len() < i64::MAX,
    ensures
        match find_spec(pattern@, text@, start as int) {
            Some(m) => r matches Some(x) && x.span() == m && x.group_count() == 0,
            None => r is None,
        },
{
    let p = chars_of(pattern.as_str());
    let t = chars_of(text.as_str());
    let p_len = p.len();
    let t_len = t.len();
    if p_len == 0 {
        return Some(Match { start, end: start, matched: String::new(), groups: Vec::new() });
    }
    if (start as u64) > (t_len as u64) {
        proof {
            assert(search_from(pattern@, text@, start as int) is None);
        }
        return None;
    }
    let mut i: usize = start as usize;
    while i <= t_len && p_len <= t_len - i
        invariant
            p@ == pattern@,
            t@ == text@,
            p_len == p@.len(),
            t_len == t@.len(),
            t_len < i64::MAX,
            p_len >= 1,
            start <= i,
            i <= t_len + 1,
            search_from(p@, t@, start as int) == search_from(p@, t@, i as int),
        decreases t_len - i,
    {
        if match_here(&p, &t, i) {
            let piece = sub_vec(&t, i, i + p_len);
            let matched = string_from_chars(&piece);
            return Some(Match { start: i as i64, end: (i + p_len - 1) as i64, matched, groups: Vec::new() });
        }
        i = i + 1;
    }
    None
}

/// Whether the pattern matches at `i`.
fn match_here(p: &Vec<char>, t: &Vec<char>, i: usize) -> (r: bool)
    requires
        i + p@.len() <= t@.len(),
    ensures
        r == matches_from(p@, t@, i as int, 0),
{
    let p_len = p.len();
    let t_len = t.len();
    let mut j: usize = 0;
    while j < p_len
        invariant
            p_len == p@.len(),
            t_len == t@.len(),
            i + p_len <= t@.len(),
            j <= p_len + 1,
            matches_from(p@, t@, i as int, 0) == matches_from(p@, t@, i as int, j as int),
        decreases p_len + 1 - j,
    {
        let pc = p[j];
        let tc = t[i + j];
        if pc == '%' && j + 1 < p_len {
            let next = p[j + 1];
            if (next == 'd' && '0' <= tc && tc <= '9') || next == 'a' || next == 's' {
                j = j + 2;
                continue;
            }
        }
        if tc != pc {
            return false;
        }
        j = j + 1;
    }
    true
}

/// Whether `pattern` occurs in `text`; an empty pattern never does.
pub fn is_match(pattern: &String, text: &String) -> (r: bool)
    requires
        text@.len() < i64::MAX,
    ensures
        r == (pattern@.len() > 0 && find_spec(pattern@, text@, 0) is Some),
{
    match Regex::new(pattern.clone()) {
        Ok(re) => re.is_match(text),
        Err(_) => false,
    }
}

/// The first match of `pattern` in `text`; none for an empty pattern.
pub fn find(pattern: &String, text: &String) -> (r: Option<Match>)
    requires
        text@.len() < i64::MAX,
    ensures
        match (if pattern@.len() > 0 { find_spec(pattern@, text@, 0) } else { None }) {
            Some(m) => r matches Some(x) && x.span() == m && x.group_count() == 0,
            None => r is None,
        },
{
    match Regex::new(pattern.clone()) {
        Ok(re) => re.find(text),
        Err(_) => None,
    }
}

/// `text` with every match of `pattern` replaced; unchanged for an empty
/// pattern.
pub fn replace(pattern: &String, text: &String, replacement: &String) -> (r: String)
    requires
        text@.len() < i64::MAX,
        pattern@.len() > 0 ==> loop_ends(pattern@, text@, -1),
    ensures
        r@ == if pattern@.len() > 0 { replace_spec(pattern@, text@, replacement@, -1) } else { text@ },
{
    match Regex::new(pattern.clone()) {
        Ok(re) => re.replace(text, replacement),
        Err(_) => text.clone(),
    }
}

/// The pieces of `text` between matches of `pattern`; the whole text for an
/// empty pattern.
pub fn split(pattern: &String, text: &String) -> (r: Vec<String>)
    requires
        text@.len() < i64::MAX,
        pattern@.len() > 0 ==> loop_ends(pattern@, text@, -1),
    ensures
        r@.map_values(|s: String| s@) == if pattern@.len() > 0 { split_spec(pattern@, text@, -1) } else { seq![text@] },
{
    match Regex::new(pattern.clone()) {
        Ok(re) => re.split(text),
        Err(_) => {
            let v = vec![text.clone()];
            assert(v@.map_values(|s: String| s@) =~= seq![text@]);
            v
        },
    }
}

} // verus!
