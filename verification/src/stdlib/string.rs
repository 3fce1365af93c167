//! The Chim text type: a string with its character count.
use vstd::prelude::*;
use vstd::string::StringSliceAdditionalSpecFns;
use crate::text::{chars_of, owned};
use crate::strops::{
    find_from_spec, rfind_spec, replace_all_spec, replace_once_spec, skip_space, trim_end_pos,
    lower_char, upper_char, repeat_spec, matches_at, find_from_vec, rfind_vec, matches_at_exec,
    replace_all_vec, replace_once_vec, skip_space_exec, trim_end_exec, to_lower_vec, to_upper_vec,
    repeat_vec, sub_vec, append_vec, lemma_find_from_bounds,
};
use crate::stdlib::conv::parse_int_spec;

verus! {

/// Characters of `s` from `start` (clipped to the text) up to `start + len` (clipped).
pub open spec fn substr_spec(s: Seq<char>, start: int, len: int) -> Seq<char> {
    let a = if start < 0 { 0 } else if start > s.len() { s.len() as int } else { start };
    let e = start + len;
    let b = if e < a { a } else if e > s.len() { s.len() as int } else { e };
    s.subrange(a, b)
}

/// Pieces of `s` between the occurrences of a non-empty `sep` (the whole text when `sep` is empty).
pub open spec fn split_spec(s: Seq<char>, sep: Seq<char>) -> Seq<Seq<char>>
    decreases s.len(),
{
    let i = find_from_spec(s, sep, 0);
    if sep.len() == 0 || i < 0 || i + sep.len() > s.len() {
        seq![s]
    } else {
        seq![s.subrange(0, i)] + split_spec(s.subrange(i + sep.len(), s.len() as int), sep)
    }
}

/// `parts` joined with `sep` between neighbours.
pub open spec fn join_spec(parts: Seq<Seq<char>>, sep: Seq<char>) -> Seq<char>
    decreases parts.len(),
{
    if parts.len() == 0 {
        Seq::empty()
    } else if parts.len() == 1 {
        parts[0]
    } else {
        join_spec(parts.drop_last(), sep) + sep + parts.last()
    }
}

/// A non-negative index known to lie within a `usize` bound.
fn to_index(x: i64, bound: usize) -> (r: usize)
    requires
        0 <= x <= bound,
    ensures
        r as int == x as int,
{
    x as usize
}

/// A text together with its length in characters.
pub struct String {
    data: std::string::String,
    length: i64,
}

impl String {
    /// The characters of the text.
    pub closed spec fn text(&self) -> Seq<char> { self.data@ }

    pub closed spec fn wf(&self) -> bool {
        self.length == self.data@.len() && self.data@.len() < i64::MAX
    }

    pub fn new() -> (r: String)
        ensures
            r.wf(),
            r.text() == Seq::<char>::empty(),
    {
        String { data: std::string::String::new(), length: 0 }
    }

    pub fn from(s: &str) -> (r: String)
        requires
            s@.len() < i64::MAX,
        ensures
            r.wf(),
            r.text() == s@,
    {
        let n = s.unicode_len();
        String { data: owned(s), length: n as i64 }
    }

    fn from_vec(v: &std::vec::Vec<char>) -> (r: String)
        requires
            v@.len() < i64::MAX,
        ensures
            r.wf(),
            r.text() == v@,
    {
        String { data: crate::text::string_from_chars(v), length: v.len() as i64 }
    }

    pub fn len(&self) -> (r: i64)
        requires
            self.wf(),
        ensures
            r == self.text().len(),
    {
        self.length
    }

    pub fn is_empty(&self) -> (r: bool)
        requires
            self.wf(),
        ensures
            r == (self.text().len() == 0),
    {
        self.length == 0
    }

    /// The character at `index` as a one-character text, or empty text when out of range.
    pub fn char_at(&self, index: i64) -> (r: std::string::String)
        requires
            self.wf(),
        ensures
            r@ == (if 0 <= index < self.text().len() { seq![self.text()[index as int]] } else { Seq::<char>::empty() }),
    {
        let mut s = std::string::String::new();
        if index < 0 || index >= self.length {
            return s;
        }
        let n = self.data.as_str().unicode_len();
        let k = to_index(index, n);
        crate::text::string_push(&mut s, self.data.as_str().get_char(k));
        assert(s@ =~= seq![self.text()[index as int]]);
        s
    }

    /// The UTF-8 bytes of the text.
    pub fn bytes(&self) -> (r: std::vec::Vec<u8>)
        ensures
            r@ == vstd::utf8::encode_utf8(self.text()),
    {
        vstd::slice::slice_to_vec(self.data.as_str().as_bytes())
    }

    /// Index of the first occurrence of `substr`, or -1.
    pub fn find(&self, substr: &str) -> (r: i64)
        requires
            self.wf(),
        ensures
            r == find_from_spec(self.text(), substr@, 0),
    {
        let s = chars_of(self.data.as_str());
        let p = chars_of(substr);
        find_from_vec(&s, &p, 0)
    }

    /// Index of the first occurrence of `substr` at or after `start`, or -1.
    pub fn find_from(&self, substr: &str, start: i64) -> (r: i64)
        requires
            self.wf(),
        ensures
            r == find_from_spec(self.text(), substr@, start as int),
    {
        if start < 0 {
            return -1;
        }
        let s = chars_of(self.data.as_str());
        let p = chars_of(substr);
        if start > self.length {
            return -1;
        }
        let k = to_index(start, s.len());
        find_from_vec(&s, &p, k)
    }

    /// Index of the last occurrence of `substr`, or -1.
    pub fn rfind(&self, substr: &str) -> (r: i64)
        requires
            self.wf(),
        ensures
            r == rfind_spec(self.text(), substr@, self.text().len() as int),
    {
        let s = chars_of(self.data.as_str());
        let p = chars_of(substr);
        rfind_vec(&s, &p)
    }

    pub fn contains(&self, substr: &str) -> (r: bool)
        requires
            self.wf(),
        ensures
            r == (find_from_spec(self.text(), substr@, 0) >= 0),
    {
        self.find(substr) >= 0
    }

    pub fn starts_with(&self, prefix: &str) -> (r: bool)
        ensures
            r == matches_at(self.text(), prefix@, 0),
    {
        let s = chars_of(self.data.as_str());
        let p = chars_of(prefix);
        matches_at_exec(&s, &p, 0)
    }

    pub fn ends_with(&self, suffix: &str) -> (r: bool)
        ensures
            r == (suffix@.len() <= self.text().len() && matches_at(self.text(), suffix@, self.text().len() - suffix@.len())),
    {
        let s = chars_of(self.data.as_str());
        let p = chars_of(suffix);
        if p.len() > s.len() {
            return false;
        }
        matches_at_exec(&s, &p, s.len() - p.len())
    }

    /// The text from `start` on (empty when `start` is at or past the end).
    pub fn substr(&self, start: i64) -> (r: String)
        requires
            self.wf(),
        ensures
            r.wf(),
            r.text() == (if start >= self.text().len() { Seq::<char>::empty() } else { substr_spec(self.text(), start as int, self.text().len() - start) }),
    {
        if start >= self.length {
            return String::new();
        }
        let s = chars_of(self.data.as_str());
        let a: usize = if start < 0 { 0 } else { to_index(start, s.len()) };
        let v = sub_vec(&s, a, s.len());
        String::from_vec(&v)
    }

    /// `len` characters from `start` (empty when `start` is negative or `len` is not positive).
    pub fn substr_range(&self, start: i64, len: i64) -> (r: String)
        requires
            self.wf(),
        ensures
            r.wf(),
            r.text() == (if start < 0 || len <= 0 { Seq::<char>::empty() } else { substr_spec(self.text(), start as int, len as int) }),
    {
        if start < 0 || len <= 0 {
            return String::new();
        }
        let s = chars_of(self.data.as_str());
        let n = s.len();
        let ai: i64 = if start > self.length { self.length } else { start };
        let bi: i64 = if len > self.length - ai { self.length } else { ai + len };
        let a = to_index(ai, n);
        let b = to_index(bi, n);
        let v = sub_vec(&s, a, b);
        String::from_vec(&v)
    }

    /// Without leading and trailing ASCII whitespace.
    pub fn trim(&self) -> (r: String)
        requires
            self.wf(),
        ensures
            r.wf(),
            ({
                let a = skip_space(self.text(), 0);
                let b = trim_end_pos(self.text(), self.text().len() as int);
                r.text() == (if a < b { self.text().subrange(a, b) } else { Seq::<char>::empty() })
            }),
    {
        let s = chars_of(self.data.as_str());
        let a = skip_space_exec(&s);
        let b = trim_end_exec(&s);
        proof {
            lemma_trim_end_bound(self.text(), self.text().len() as int);
            lemma_skip_space_bound(self.text(), 0);
        }
        if a < b {
            let v = sub_vec(&s, a, b);
            String::from_vec(&v)
        } else {
            String::new()
        }
    }

    /// Without leading ASCII whitespace.
    pub fn trim_start(&self) -> (r: String)
        requires
            self.wf(),
        ensures
            r.wf(),
            r.text() == self.text().subrange(skip_space(self.text(), 0), self.text().len() as int),
    {
        let s = chars_of(self.data.as_str());
        let a = skip_space_exec(&s);
        proof { lemma_skip_space_bound(self.text(), 0); }
        let v = sub_vec(&s, a, s.len());
        String::from_vec(&v)
    }

    /// Without trailing ASCII whitespace.
    pub fn trim_end(&self) -> (r: String)
        requires
            self.wf(),
        ensures
            r.wf(),
            r.text() == self.text().subrange(0, trim_end_pos(self.text(), self.text().len() as int)),
    {
        let s = chars_of(self.data.as_str());
        let b = trim_end_exec(&s);
        proof { lemma_trim_end_bound(self.text(), self.text().len() as int); }
        let v = sub_vec(&s, 0, b);
        String::from_vec(&v)
    }

    pub fn to_lowercase(&self) -> (r: String)
        requires
            self.wf(),
        ensures
            r.wf(),
            r.text() == self.text().map_values(|c: char| lower_char(c)),
    {
        let s = chars_of(self.data.as_str());
        let v = to_lower_vec(&s);
        String::from_vec(&v)
    }

    pub fn to_uppercase(&self) -> (r: String)
        requires
            self.wf(),
        ensures
            r.wf(),
            r.text() == self.text().map_values(|c: char| upper_char(c)),
    {
        let s = chars_of(self.data.as_str());
        let v = to_upper_vec(&s);
        String::from_vec(&v)
    }

    /// The decimal value of the text; `None` when the parse gives 0 but the text holds no `0`.
    pub fn to_int(&self) -> (r: Option<i64>)
        requires
            self.wf(),
        ensures
            ({
                let n = parse_int_spec(self.text(), 10);
                r == (if n == 0 && find_from_spec(self.text(), "0"@, 0) < 0 { None::<i64> } else { Some(n as i64) })
            }),
    {
        let n = crate::stdlib::conv::string_to_int(self.data.as_str());
        if n == 0 && !self.contains("0") {
            None
        } else {
            Some(n)
        }
    }

    /// The pieces between occurrences of `sep`.
    pub fn split(&self, sep: &str) -> (r: std::vec::Vec<std::string::String>)
        requires
            self.wf(),
        ensures
            r@.map_values(|x: std::string::String| x@) == split_spec(self.text(), sep@),
    {
        let s = chars_of(self.data.as_str());
        let p = chars_of(sep);
        let mut out: std::vec::Vec<std::string::String> = std::vec::Vec::new();
        if p.len() == 0 {
            out.push(self.data.clone());
            assert(out@.map_values(|x: std::string::String| x@) =~= split_spec(self.text(), sep@));
            return out;
        }
        let mut pos: usize = 0;
        assert(s@.subrange(0, s@.len() as int) =~= s@);
        loop
            invariant
                pos <= s@.len(),
                s@ == self.text(),
                p@ == sep@,
                p@.len() > 0,
                self.wf(),
                out@.map_values(|x: std::string::String| x@) + split_spec(s@.subrange(pos as int, s@.len() as int), p@)
                    == split_spec(self.text(), sep@),
            decreases s@.len() - pos,
        {
            let rest = sub_vec(&s, pos, s.len());
            let i = find_from_vec(&rest, &p, 0);
            proof { lemma_find_from_bounds(rest@, p@, 0); }
            let ghost before = out@.map_values(|x: std::string::String| x@);
            if i < 0 {
                out.push(crate::text::string_from_chars(&rest));
                assert(out@.map_values(|x: std::string::String| x@) =~= before + seq![rest@]);
                return out;
            }
            let iu = i as usize;
            assert(iu as int == i as int) by {
                assert(i + p@.len() <= rest@.len());
            }
            let piece = sub_vec(&rest, 0, iu);
            out.push(crate::text::string_from_chars(&piece));
            assert(rest@.subrange(i + p@.len(), rest@.len() as int) =~= s@.subrange(pos + iu + p@.len(), s@.len() as int));
            assert(out@.map_values(|x: std::string::String| x@) =~= before + seq![rest@.subrange(0, i as int)]);
            pos = pos + iu + p.len();
        }
    }

    /// The parts joined with this text between neighbours.
    pub fn join(&self, parts: &[std::string::String]) -> (r: std::string::String)
        ensures
            r@ == join_spec(parts@.map_values(|x: std::string::String| x@), self.text()),
    {
        let mut out = std::string::String::new();
        let mut i: usize = 0;
        while i < parts.len()
            invariant
                i <= parts@.len(),
                out@ == join_spec(parts@.subrange(0, i as int).map_values(|x: std::string::String| x@), self.text()),
            decreases parts.len() - i,
        {
            let ghost v = parts@.subrange(0, i + 1).map_values(|x: std::string::String| x@);
            assert(v.drop_last() =~= parts@.subrange(0, i as int).map_values(|x: std::string::String| x@));
            if i > 0 {
                crate::text::string_push_str(&mut out, self.data.as_str());
            } else {
                assert(out@ =~= Seq::<char>::empty());
            }
            crate::text::string_push_str(&mut out, parts[i].as_str());
            i = i + 1;
            assert(out@ =~= join_spec(v, self.text()));
        }
        assert(parts@.subrange(0, parts@.len() as int) =~= parts@);
        out
    }

    /// The text repeated `count` times (empty for a non-positive count).
    pub fn repeat(&self, count: i64) -> (r: String)
        requires
            self.wf(),
            count > 0 ==> self.text().len() * count < i64::MAX,
            count > 0 ==> self.text().len() * count <= usize::MAX,
        ensures
            r.wf(),
            r.text() == (if count <= 0 { Seq::<char>::empty() } else { repeat_spec(self.text(), count as nat) }),
    {
        if count <= 0 {
            return String::new();
        }
        let s = chars_of(self.data.as_str());
        if s.len() == 0 {
            proof { lemma_repeat_empty(s@, count as nat); }
            return String::new();
        }
        proof {
            lemma_repeat_len(s@, count as nat);
            assert(count <= s@.len() * count) by (nonlinear_arith)
                requires
                    s@.len() >= 1,
                    count > 0,
            {
            }
        }
        let v = repeat_vec(&s, count as usize);
        String::from_vec(&v)
    }

    /// Every occurrence of a non-empty `old` replaced by `new`.
    pub fn replace(&self, old: &str, new: &str) -> (r: std::string::String)
        ensures
            r@ == replace_all_spec(self.text(), old@, new@),
    {
        crate::strops::replace_str(self.data.as_str(), old, new)
    }

    /// The first occurrence of a non-empty `old` replaced by `new`.
    pub fn replace_once(&self, old: &str, new: &str) -> (r: std::string::String)
        requires
            self.wf(),
        ensures
            r@ == replace_once_spec(self.text(), old@, new@),
    {
        let s = chars_of(self.data.as_str());
        let o = chars_of(old);
        let n = chars_of(new);
        let v = replace_once_vec(&s, &o, &n);
        crate::text::string_from_chars(&v)
    }

    /// Concatenation.
    pub fn add(&self, other: &String) -> (r: String)
        requires
            self.wf(),
            other.wf(),
            self.text().len() + other.text().len() < i64::MAX,
        ensures
            r.wf(),
            r.text() == self.text() + other.text(),
    {
        let mut s = chars_of(self.data.as_str());
        let o = chars_of(other.data.as_str());
        append_vec(&mut s, &o);
        String::from_vec(&s)
    }
}

proof fn lemma_skip_space_bound(s: Seq<char>, i: int)
    requires
        0 <= i <= s.len(),
    ensures
        i <= skip_space(s, i) <= s.len(),
    decreases s.len() - i,
{
    if i < s.len() && crate::strops::is_space(s[i]) {
        lemma_skip_space_bound(s, i + 1);
    }
}

proof fn lemma_trim_end_bound(s: Seq<char>, j: int)
    requires
        0 <= j <= s.len(),
    ensures
        0 <= trim_end_pos(s, j) <= j,
    decreases j,
{
    if j > 0 && crate::strops::is_space(s[j - 1]) {
        lemma_trim_end_bound(s, j - 1);
    }
}

proof fn lemma_repeat_empty(s: Seq<char>, n: nat)
    requires
        s.len() == 0,
    ensures
        repeat_spec(s, n) == Seq::<char>::empty(),
    decreases n,
{
    if n > 0 {
        lemma_repeat_empty(s, (n - 1) as nat);
        assert(repeat_spec(s, n) =~= Seq::<char>::empty());
    }
}

proof fn lemma_repeat_len(s: Seq<char>, n: nat)
    ensures
        repeat_spec(s, n).len() == s.len() * n,
    decreases n,
{
    if n > 0 {
        lemma_repeat_len(s, (n - 1) as nat);
        let m = (n - 1) as nat;
        assert(s.len() * m + s.len() == s.len() * n) by (nonlinear_arith)
            requires
                m == n - 1,
        {
        }
    } else {
        assert(s.len() * n == 0) by (nonlinear_arith)
            requires
                n == 0,
        {
        }
    }
}

/// A Chim text from a string slice.
pub fn string(s: &str) -> (r: String)
    requires
        s@.len() < i64::MAX,
    ensures
        r.wf(),
        r.text() == s@,
{
    String::from(s)
}

pub fn string_from_chars(chars: &[char]) -> (r: std::string::String)
    ensures
        r@ == chars@,
{
    let v = vstd::slice::slice_to_vec(chars);
    crate::text::string_from_chars(&v)
}

pub fn string_to_chars(s: &str) -> (r: std::vec::Vec<char>)
    ensures
        r@ == s@,
{
    chars_of(s)
}

} // verus!
