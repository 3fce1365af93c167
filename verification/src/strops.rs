//! Searching and rewriting of character sequences.
use vstd::prelude::*;
use crate::text::{chars_of, string_from_chars};

verus! {

/// Whether `p` occurs in `s` starting at position `i`.
pub open spec fn matches_at(s: Seq<char>, p: Seq<char>, i: int) -> bool {
    0 <= i && i + p.len() <= s.len() && s.subrange(i, i + p.len()) == p
}

/// First position at or after `start` where `p` occurs, or -1.
pub open spec fn find_from_spec(s: Seq<char>, p: Seq<char>, start: int) -> int
    decreases s.len() + 1 - start,
{
    if start < 0 || start + p.len() > s.len() {
        -1
    } else if matches_at(s, p, start) {
        start
    } else {
        find_from_spec(s, p, start + 1)
    }
}

/// Last position where `p` occurs, or -1 (searching from `end` down).
pub open spec fn rfind_spec(s: Seq<char>, p: Seq<char>, end: int) -> int
    decreases end + 1,
{
    if end < 0 {
        -1
    } else if matches_at(s, p, end) {
        end
    } else {
        rfind_spec(s, p, end - 1)
    }
}

/// Left-to-right replacement of every non-overlapping occurrence of a non-empty `old`.
pub open spec fn replace_all_spec(s: Seq<char>, old: Seq<char>, new: Seq<char>) -> Seq<char>
    decreases s.len(),
{
    if old.len() == 0 || s.len() < old.len() {
        s
    } else if s.subrange(0, old.len() as int) == old {
        new + replace_all_spec(s.subrange(old.len() as int, s.len() as int), old, new)
    } else {
        seq![s[0]] + replace_all_spec(s.drop_first(), old, new)
    }
}

/// Replacement of the first occurrence of a non-empty `old`.
pub open spec fn replace_once_spec(s: Seq<char>, old: Seq<char>, new: Seq<char>) -> Seq<char> {
    let i = find_from_spec(s, old, 0);
    if old.len() == 0 || i < 0 {
        s
    } else {
        s.subrange(0, i) + new + s.subrange(i + old.len(), s.len() as int)
    }
}

/// ASCII whitespace.
pub open spec fn is_space(c: char) -> bool {
    c == ' ' || c == '\t' || c == '\n' || c == '\r'
}

/// Lower-case of an ASCII letter (other characters unchanged).
pub open spec fn lower_char(c: char) -> char {
    if 'A' <= c && c <= 'Z' { ((c as u32) + 32) as char } else { c }
}

/// Upper-case of an ASCII letter (other characters unchanged).
pub open spec fn upper_char(c: char) -> char {
    if 'a' <= c && c <= 'z' { ((c as u32) - 32) as char } else { c }
}

/// Index of the first non-space character at or after `i` (or `s.len()`).
pub open spec fn skip_space(s: Seq<char>, i: int) -> int
    decreases s.len() - i,
{
    if i < 0 || i >= s.len() {
        s.len() as int
    } else if is_space(s[i]) {
        skip_space(s, i + 1)
    } else {
        i
    }
}

/// One past the last non-space character before `j` (or 0).
pub open spec fn trim_end_pos(s: Seq<char>, j: int) -> int
    decreases j,
{
    if j <= 0 {
        0
    } else if is_space(s[j - 1]) {
        trim_end_pos(s, j - 1)
    } else {
        j
    }
}

/// `s` repeated `n` times.
pub open spec fn repeat_spec(s: Seq<char>, n: nat) -> Seq<char>
    decreases n,
{
    if n == 0 { Seq::empty() } else { repeat_spec(s, (n - 1) as nat) + s }
}

/// Whether `p` occurs at position `i` (exec).
pub fn matches_at_exec(s: &Vec<char>, p: &Vec<char>, i: usize) -> (r: bool)
    ensures
        r == matches_at(s@, p@, i as int),
{
    if i > s.len() || p.len() > s.len() - i {
        return false;
    }
    let mut k: usize = 0;
    while k < p.len()
        invariant
            i + p.len() <= s.len(),
            k <= p.len(),
            forall|j: int| 0 <= j < k ==> s@[i + j] == p@[j],
        decreases p.len() - k,
    {
        if s[i + k] != p[k] {
            assert(s@.subrange(i as int, i + p.len())[k as int] != p@[k as int]);
            return false;
        }
        k = k + 1;
    }
    assert(s@.subrange(i as int, i + p.len()) =~= p@);
    true
}

/// First occurrence of `p` at or after `start`.
pub fn find_opt(s: &Vec<char>, p: &Vec<char>, start: usize) -> (r: Option<usize>)
    ensures
        match r {
            Some(i) => i as int == find_from_spec(s@, p@, start as int),
            None => find_from_spec(s@, p@, start as int) == -1,
        },
{
    let mut i = start;
    while i <= s.len() && p.len() <= s.len() - i
        invariant
            start <= i,
            find_from_spec(s@, p@, start as int) == find_from_spec(s@, p@, i as int),
        decreases s.len() + 1 - i,
    {
        if matches_at_exec(s, p, i) {
            return Some(i);
        }
        proof {
            if p@.len() == 0 {
                assert(s@.subrange(i as int, i as int) =~= p@);
            }
        }
        i = i + 1;
    }
    None
}

/// First occurrence of `p` at or after `start`, or -1.
pub fn find_from_vec(s: &Vec<char>, p: &Vec<char>, start: usize) -> (r: i64)
    requires
        s@.len() < i64::MAX,
    ensures
        r as int == find_from_spec(s@, p@, start as int),
{
    match find_opt(s, p, start) {
        Some(i) => {
            proof {
                lemma_find_from_bounds(s@, p@, start as int);
            }
            i as i64
        },
        None => -1,
    }
}

/// Last occurrence of `p`, or -1.
pub fn rfind_vec(s: &Vec<char>, p: &Vec<char>) -> (r: i64)
    requires
        s@.len() < i64::MAX,
    ensures
        r as int == rfind_spec(s@, p@, s@.len() as int),
{
    let mut i: usize = s.len();
    loop
        invariant
            s@.len() < i64::MAX,
            i <= s@.len(),
            rfind_spec(s@, p@, s@.len() as int) == rfind_spec(s@, p@, i as int),
        decreases i,
    {
        if matches_at_exec(s, p, i) {
            return i as i64;
        }
        if i == 0 {
            assert(rfind_spec(s@, p@, -1) == -1);
            return -1;
        }
        i = i - 1;
    }
}

/// Replaces every occurrence of a non-empty `old` by `new`.
pub fn replace_all_vec(s: &Vec<char>, old: &Vec<char>, new: &Vec<char>) -> (r: Vec<char>)
    ensures
        r@ == replace_all_spec(s@, old@, new@),
{
    let mut res: Vec<char> = Vec::new();
    if old.len() == 0 {
        let mut k: usize = 0;
        while k < s.len()
            invariant
                k <= s.len(),
                res@ == s@.subrange(0, k as int),
            decreases s.len() - k,
        {
            res.push(s[k]);
            k = k + 1;
            assert(res@ =~= s@.subrange(0, k as int));
        }
        assert(res@ =~= s@);
        return res;
    }
    let mut i: usize = 0;
    assert(s@.subrange(0, s@.len() as int) =~= s@);
    while i < s.len()
        invariant
            old@.len() > 0,
            i <= s.len(),
            res@ + replace_all_spec(s@.subrange(i as int, s@.len() as int), old@, new@) == replace_all_spec(s@, old@, new@),
        decreases s.len() - i,
    {
        let ghost rest = s@.subrange(i as int, s@.len() as int);
        if matches_at_exec(s, old, i) {
            assert(rest.subrange(0, old@.len() as int) =~= s@.subrange(i as int, i + old@.len()));
            assert(rest.subrange(old@.len() as int, rest.len() as int) =~= s@.subrange(i + old@.len(), s@.len() as int));
            let mut k: usize = 0;
            let ghost before = res@;
            while k < new.len()
                invariant
                    k <= new.len(),
                    res@ == before + new@.subrange(0, k as int),
                decreases new.len() - k,
            {
                res.push(new[k]);
                k = k + 1;
                assert(res@ =~= before + new@.subrange(0, k as int));
            }
            assert(new@.subrange(0, new@.len() as int) =~= new@);
            assert(res@ + replace_all_spec(s@.subrange((i + old.len()) as int, s@.len() as int), old@, new@) =~= before + (new@ + replace_all_spec(rest.subrange(old@.len() as int, rest.len() as int), old@, new@)));
            i = i + old.len();
        } else {
            proof {
                if rest.len() >= old@.len() {
                    assert(rest.subrange(0, old@.len() as int) =~= s@.subrange(i as int, i + old@.len()));
                }
            }
            assert(rest.drop_first() =~= s@.subrange(i + 1, s@.len() as int));
            assert(rest[0] == s@[i as int]);
            let ghost before = res@;
            res.push(s[i]);
            proof {
                if rest.len() < old@.len() {
                    // no more matches: the rest is copied unchanged
                    lemma_replace_short(rest.drop_first(), old@, new@);
                    assert(replace_all_spec(rest, old@, new@) == rest);
                    assert(rest =~= seq![rest[0]] + rest.drop_first());
                }
            }
            assert(res@ + replace_all_spec(s@.subrange(i + 1, s@.len() as int), old@, new@) =~= before + (seq![s@[i as int]] + replace_all_spec(rest.drop_first(), old@, new@)));
            i = i + 1;
        }
    }
    assert(s@.subrange(i as int, s@.len() as int) =~= Seq::<char>::empty());
    assert(res@ =~= replace_all_spec(s@, old@, new@));
    res
}

proof fn lemma_replace_short(s: Seq<char>, old: Seq<char>, new: Seq<char>)
    requires
        s.len() < old.len(),
    ensures
        replace_all_spec(s, old, new) == s,
{
}

/// Replaces the first occurrence of a non-empty `old` by `new`.
pub fn replace_once_vec(s: &Vec<char>, old: &Vec<char>, new: &Vec<char>) -> (r: Vec<char>)
    requires
        s@.len() < i64::MAX,
    ensures
        r@ == replace_once_spec(s@, old@, new@),
{
    if old.len() == 0 {
        return copy_vec(s);
    }
    let iu = match find_opt(s, old, 0) {
        Some(i) => i,
        None => return copy_vec(s),
    };
    proof {
        lemma_find_from_bounds(s@, old@, 0);
    }
    assert(matches_at(s@, old@, iu as int));
    assert(iu + old@.len() <= s@.len());
    let mut res = sub_vec(s, 0, iu);
    append_vec(&mut res, new);
    let n = s.len();
    let end = iu + old.len();
    let tail = sub_vec(s, end, n);
    append_vec(&mut res, &tail);
    res
}

pub proof fn lemma_find_from_bounds(s: Seq<char>, p: Seq<char>, start: int)
    ensures
        find_from_spec(s, p, start) == -1 || (start <= find_from_spec(s, p, start) && matches_at(s, p, find_from_spec(s, p, start))),
    decreases s.len() + 1 - start,
{
    if start >= 0 && start + p.len() <= s.len() && !matches_at(s, p, start) {
        lemma_find_from_bounds(s, p, start + 1);
    }
}

/// A copy of a character vector.
pub fn copy_vec(s: &Vec<char>) -> (r: Vec<char>)
    ensures
        r@ == s@,
{
    sub_vec(s, 0, s.len())
}

/// The characters of `s` in `[a, b)`.
pub fn sub_vec(s: &Vec<char>, a: usize, b: usize) -> (r: Vec<char>)
    requires
        a <= b <= s@.len(),
    ensures
        r@ == s@.subrange(a as int, b as int),
{
    let mut r: Vec<char> = Vec::new();
    let mut k = a;
    while k < b
        invariant
            a <= k <= b,
            b <= s@.len(),
            r@ == s@.subrange(a as int, k as int),
        decreases b - k,
    {
        r.push(s[k]);
        k = k + 1;
        assert(r@ =~= s@.subrange(a as int, k as int));
    }
    r
}

/// Appends the characters of `t`.
pub fn append_vec(r: &mut Vec<char>, t: &Vec<char>)
    ensures
        final(r)@ == old(r)@ + t@,
{
    let mut k: usize = 0;
    while k < t.len()
        invariant
            k <= t.len(),
            r@ == old(r)@ + t@.subrange(0, k as int),
        decreases t.len() - k,
    {
        r.push(t[k]);
        k = k + 1;
        assert(r@ =~= old(r)@ + t@.subrange(0, k as int));
    }
    assert(t@.subrange(0, t@.len() as int) =~= t@);
}

/// Position of the first non-space character.
pub fn skip_space_exec(s: &Vec<char>) -> (r: usize)
    ensures
        r as int == skip_space(s@, 0),
{
    let mut i: usize = 0;
    while i < s.len() && (s[i] == ' ' || s[i] == '\t' || s[i] == '\n' || s[i] == '\r')
        invariant
            i <= s@.len(),
            skip_space(s@, 0) == skip_space(s@, i as int),
        decreases s.len() - i,
    {
        i = i + 1;
    }
    i
}

/// One past the last non-space character.
pub fn trim_end_exec(s: &Vec<char>) -> (r: usize)
    ensures
        r as int == trim_end_pos(s@, s@.len() as int),
{
    let mut j: usize = s.len();
    while j > 0 && (s[j - 1] == ' ' || s[j - 1] == '\t' || s[j - 1] == '\n' || s[j - 1] == '\r')
        invariant
            j <= s@.len(),
            trim_end_pos(s@, s@.len() as int) == trim_end_pos(s@, j as int),
        decreases j,
    {
        j = j - 1;
    }
    j
}

/// ASCII lower-case of a character.
pub fn lower_char_exec(c: char) -> (r: char)
    ensures
        r == lower_char(c),
{
    if 'A' <= c && c <= 'Z' {
        let u = (c as u32) + 32;
        assert(u < 0xD800);
        char_from_u32(u)
    } else {
        c
    }
}

/// ASCII upper-case of a character.
pub fn upper_char_exec(c: char) -> (r: char)
    ensures
        r == upper_char(c),
{
    if 'a' <= c && c <= 'z' {
        let u = (c as u32) - 32;
        char_from_u32(u)
    } else {
        c
    }
}

/// The character with a given code point below the surrogate range.
pub fn char_from_u32(u: u32) -> (r: char)
    requires
        u < 0xD800,
    ensures
        r == u as char,
{
    match crate::stdlib::conv::char_from_code(u) {
        Some(c) => c,
        None => {
            proof {
                assert(crate::stdlib::conv::is_scalar(u as int));
            }
            ' '
        },
    }
}

/// Lower-cases every ASCII letter.
pub fn to_lower_vec(s: &Vec<char>) -> (r: Vec<char>)
    ensures
        r@ == s@.map_values(|c: char| lower_char(c)),
{
    let mut r: Vec<char> = Vec::new();
    let mut k: usize = 0;
    while k < s.len()
        invariant
            k <= s.len(),
            r@ == s@.subrange(0, k as int).map_values(|c: char| lower_char(c)),
        decreases s.len() - k,
    {
        r.push(lower_char_exec(s[k]));
        k = k + 1;
        assert(r@ =~= s@.subrange(0, k as int).map_values(|c: char| lower_char(c)));
    }
    assert(s@.subrange(0, s@.len() as int) =~= s@);
    r
}

/// Upper-cases every ASCII letter.
pub fn to_upper_vec(s: &Vec<char>) -> (r: Vec<char>)
    ensures
        r@ == s@.map_values(|c: char| upper_char(c)),
{
    let mut r: Vec<char> = Vec::new();
    let mut k: usize = 0;
    while k < s.len()
        invariant
            k <= s.len(),
            r@ == s@.subrange(0, k as int).map_values(|c: char| upper_char(c)),
        decreases s.len() - k,
    {
        r.push(upper_char_exec(s[k]));
        k = k + 1;
        assert(r@ =~= s@.subrange(0, k as int).map_values(|c: char| upper_char(c)));
    }
    assert(s@.subrange(0, s@.len() as int) =~= s@);
    r
}

/// `s` repeated `n` times.
pub fn repeat_vec(s: &Vec<char>, n: usize) -> (r: Vec<char>)
    ensures
        r@ == repeat_spec(s@, n as nat),
{
    let mut r: Vec<char> = Vec::new();
    let mut k: usize = 0;
    while k < n
        invariant
            k <= n,
            r@ == repeat_spec(s@, k as nat),
        decreases n - k,
    {
        append_vec(&mut r, s);
        k = k + 1;
    }
    r
}

/// Replaces every occurrence of a non-empty `old` in a string.
pub fn replace_str(s: &str, old: &str, new: &str) -> (r: String)
    ensures
        r@ == replace_all_spec(s@, old@, new@),
{
    let sv = chars_of(s);
    let ov = chars_of(old);
    let nv = chars_of(new);
    let rv = replace_all_vec(&sv, &ov, &nv);
    string_from_chars(&rv)
}

} // verus!
