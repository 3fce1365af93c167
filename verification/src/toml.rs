//! TOML documents: values, a document of named values, and a line-based
//! reader. A floating-point value is kept as the text it was written with.
use vstd::prelude::*;
use crate::text::{chars_of, owned, string_from_chars, string_push_str, str_eq, push_signed_decimal, signed_decimal};
use crate::strops::sub_vec;
use crate::stdlib::conv::{parse_int_opt, parse_int_opt_spec};
use crate::stdlib::module::source::{trim_chars, trim_spec, trim_start_spec, trim_end_spec, line_run, is_white};

verus! {

/// Errors of TOML reading and writing.
#[derive(Debug, Clone)]
pub enum TomlError {
    ParseError(String),
    WriteError(String),
    InvalidFormat(String),
    MissingKey(String),
    InvalidValue(String),
}

/// A TOML value. A table keeps its entries in the order their names were
/// first set; setting a name again replaces its value.
#[derive(Debug)]
pub enum TomlValue {
    String(String),
    Integer(i64),
    Float(String),
    Boolean(bool),
    Array(Vec<TomlValue>),
    Table(Vec<(String, TomlValue)>),
    InlineTable(Vec<(String, TomlValue)>),
    DateTime(String),
    Nothing,
}

/// The mathematical form of a value.
pub enum TomlV {
    String(Seq<char>),
    Integer(i64),
    Float(Seq<char>),
    Boolean(bool),
    Array(Seq<TomlV>),
    Table(Seq<(Seq<char>, TomlV)>),
    InlineTable(Seq<(Seq<char>, TomlV)>),
    DateTime(Seq<char>),
    Nothing,
}

/// The form of a value.
pub open spec fn value_view(v: TomlValue) -> TomlV
    decreases v,
{
    match v {
        TomlValue::String(s) => TomlV::String(s@),
        TomlValue::Integer(i) => TomlV::Integer(i),
        TomlValue::Float(s) => TomlV::Float(s@),
        TomlValue::Boolean(b) => TomlV::Boolean(b),
        TomlValue::Array(a) => TomlV::Array(list_view(a@)),
        TomlValue::Table(t) => TomlV::Table(entries_view(t@)),
        TomlValue::InlineTable(t) => TomlV::InlineTable(entries_view(t@)),
        TomlValue::DateTime(s) => TomlV::DateTime(s@),
        TomlValue::Nothing => TomlV::Nothing,
    }
}

/// The forms of a list of values.
pub open spec fn list_view(s: Seq<TomlValue>) -> Seq<TomlV>
    decreases s,
{
    if s.len() == 0 {
        Seq::empty()
    } else {
        list_view(s.drop_last()).push(value_view(s.last()))
    }
}

/// The forms of the entries of a table.
pub open spec fn entries_view(s: Seq<(String, TomlValue)>) -> Seq<(Seq<char>, TomlV)>
    decreases s,
{
    if s.len() == 0 {
        Seq::empty()
    } else {
        entries_view(s.drop_last()).push((s.last().0@, value_view(s.last().1)))
    }
}

impl View for TomlValue {
    type V = TomlV;

    open spec fn view(&self) -> TomlV {
        value_view(*self)
    }
}

/// Position of the entry named `k`, or -1.
pub open spec fn find_key(es: Seq<(Seq<char>, TomlV)>, k: Seq<char>) -> int
    decreases es.len(),
{
    if es.len() == 0 {
        -1
    } else if es.last().0 == k {
        es.len() - 1
    } else {
        find_key(es.drop_last(), k)
    }
}

/// The value named `k`, if any.
pub open spec fn lookup(es: Seq<(Seq<char>, TomlV)>, k: Seq<char>) -> Option<TomlV> {
    let i = find_key(es, k);
    if i >= 0 { Some(es[i].1) } else { None }
}

/// The entries with `k` set to `v`: replaced in place, or added at the end.
pub open spec fn put(es: Seq<(Seq<char>, TomlV)>, k: Seq<char>, v: TomlV) -> Seq<(Seq<char>, TomlV)> {
    let i = find_key(es, k);
    if i >= 0 { es.update(i, (k, v)) } else { es.push((k, v)) }
}

proof fn lemma_find_key_bounds(es: Seq<(Seq<char>, TomlV)>, k: Seq<char>)
    ensures
        -1 <= find_key(es, k) < es.len(),
        find_key(es, k) >= 0 ==> es[find_key(es, k)].0 == k,
        find_key(es, k) < 0 ==> forall|j: int| 0 <= j < es.len() ==> #[trigger] es[j].0 != k,
    decreases es.len(),
{
    if es.len() > 0 {
        lemma_find_key_bounds(es.drop_last(), k);
        if es.last().0 != k && find_key(es, k) < 0 {
            assert forall|j: int| 0 <= j < es.len() implies #[trigger] es[j].0 != k by {
                if j < es.len() - 1 {
                    assert(es[j] == es.drop_last()[j]);
                }
            }
        }
        if find_key(es, k) >= 0 && es.last().0 != k {
            assert(es[find_key(es, k)] == es.drop_last()[find_key(es, k)]);
        }
    }
}

// ---------------------------------------------------------------------------
// Reading values.
// ---------------------------------------------------------------------------

/// The pieces of `s` between occurrences of `c` (always at least one).
pub open spec fn split_char(s: Seq<char>, c: char) -> Seq<Seq<char>>
    decreases s.len(),
{
    if s.len() == 0 {
        seq![Seq::empty()]
    } else {
        let ps = split_char(s.drop_last(), c);
        if s.last() == c {
            ps.push(Seq::empty())
        } else {
            ps.drop_last().push(ps.last().push(s.last()))
        }
    }
}

/// Position of the first `c` in `s`, or -1.
pub open spec fn first_index(s: Seq<char>, c: char) -> int
    decreases s.len(),
{
    if s.len() == 0 {
        -1
    } else if first_index(s.drop_last(), c) >= 0 {
        first_index(s.drop_last(), c)
    } else if s.last() == c {
        s.len() - 1
    } else {
        -1
    }
}

/// Whether `s` is ASCII-case-insensitively equal to the lower-case word `w`.
pub open spec fn word_ci(s: Seq<char>, w: Seq<char>) -> bool {
    s.len() == w.len() && forall|i: int| 0 <= i < s.len() ==> #[trigger] crate::strops::lower_char(s[i]) == w[i]
}

/// Number of leading decimal digits of `s`.
pub open spec fn digit_run(s: Seq<char>) -> nat
    decreases s.len(),
{
    if s.len() > 0 && '0' <= s[0] <= '9' { 1 + digit_run(s.drop_first()) } else { 0 }
}

/// Whether `s` is an exponent: `e` or `E`, an optional sign, digits.
pub open spec fn exponent_text(s: Seq<char>) -> bool {
    s.len() > 0 && (s[0] == 'e' || s[0] == 'E') && {
        let t = if s.len() > 1 && (s[1] == '+' || s[1] == '-') { s.skip(2) } else { s.skip(1) };
        t.len() > 0 && digit_run(t) == t.len()
    }
}

/// Whether `s` is a decimal number: digits with an optional fraction, at
/// least one digit in all, and an optional exponent.
pub open spec fn number_text(s: Seq<char>) -> bool {
    let i = digit_run(s);
    let rest = s.skip(i as int);
    if rest.len() > 0 && rest[0] == '.' {
        let frac = rest.skip(1);
        let j = digit_run(frac);
        i + j > 0 && {
            let e = frac.skip(j as int);
            e.len() == 0 || exponent_text(e)
        }
    } else {
        i > 0 && (rest.len() == 0 || exponent_text(rest))
    }
}

/// Whether `s` reads as a floating-point number: an optional sign, then
/// `inf`, `infinity` or `nan` in any case, or a decimal number.
pub open spec fn float_text(s: Seq<char>) -> bool {
    let b = if s.len() > 0 && (s[0] == '+' || s[0] == '-') { s.skip(1) } else { s };
    word_ci(b, "inf"@) || word_ci(b, "infinity"@) || word_ci(b, "nan"@) || number_text(b)
}

/// Whether `s` is at least two characters, the first `open` and the last
/// `close`.
pub open spec fn wrapped(s: Seq<char>, open: char, close: char) -> bool {
    s.len() >= 2 && s[0] == open && s.last() == close
}

/// The characters between the first and the last.
pub open spec fn inner(s: Seq<char>) -> Seq<char> {
    s.subrange(1, s.len() - 1)
}

/// The value a text reads as, or the text that could not be read: a
/// quoted string (double or single quotes), `true`, `false`, an integer, a
/// floating-point number (kept as its text), an array of comma-separated
/// values, or an inline table of comma-separated `key = value` items.
pub open spec fn read_value(s: Seq<char>) -> Result<TomlV, Seq<char>>
    decreases s.len(), 0int,
{
    if wrapped(s, '"', '"') || wrapped(s, '\'', '\'') {
        Ok(TomlV::String(inner(s)))
    } else if s == "true"@ {
        Ok(TomlV::Boolean(true))
    } else if s == "false"@ {
        Ok(TomlV::Boolean(false))
    } else if parse_int_opt_spec(s, 10) is Some {
        Ok(TomlV::Integer(parse_int_opt_spec(s, 10)->Some_0 as i64))
    } else if float_text(s) {
        Ok(TomlV::Float(s))
    } else if wrapped(s, '[', ']') {
        match read_items(split_char(inner(s), ','), (s.len() - 1) as nat) {
            Ok(vs) => Ok(TomlV::Array(vs)),
            Err(e) => Err(e),
        }
    } else if wrapped(s, '{', '}') {
        match read_pairs(split_char(inner(s), ','), (s.len() - 1) as nat) {
            Ok(es) => Ok(TomlV::InlineTable(es)),
            Err(e) => Err(e),
        }
    } else {
        Err(s)
    }
}

/// The values of the non-blank pieces, in order; the first piece that
/// cannot be read is the error. Pieces longer than `bound` never occur.
pub open spec fn read_items(ps: Seq<Seq<char>>, bound: nat) -> Result<Seq<TomlV>, Seq<char>>
    decreases bound, ps.len(),
{
    if ps.len() == 0 {
        Ok(Seq::empty())
    } else {
        match read_items(ps.drop_last(), bound) {
            Err(e) => Err(e),
            Ok(vs) => {
                let t = trim_spec(ps.last());
                if t.len() == 0 {
                    Ok(vs)
                } else if t.len() <= bound {
                    match read_value(t) {
                        Ok(v) => Ok(vs.push(v)),
                        Err(e) => Err(e),
                    }
                } else {
                    Err(t)
                }
            },
        }
    }
}

/// The entries of the pieces that hold an `=`, in order, a later name
/// replacing an earlier one; the first value that cannot be read is the
/// error.
pub open spec fn read_pairs(ps: Seq<Seq<char>>, bound: nat) -> Result<Seq<(Seq<char>, TomlV)>, Seq<char>>
    decreases bound, ps.len(),
{
    if ps.len() == 0 {
        Ok(Seq::empty())
    } else {
        match read_pairs(ps.drop_last(), bound) {
            Err(e) => Err(e),
            Ok(es) => {
                let t = trim_spec(ps.last());
                let e = first_index(t, '=');
                if e < 0 {
                    Ok(es)
                } else {
                    let key = trim_spec(t.subrange(0, e));
                    let vt = trim_spec(t.subrange(e + 1, t.len() as int));
                    if vt.len() <= bound {
                        match read_value(vt) {
                            Ok(v) => Ok(put(es, key, v)),
                            Err(x) => Err(x),
                        }
                    } else {
                        Err(vt)
                    }
                }
            },
        }
    }
}


// ---------------------------------------------------------------------------
// Facts about the forms of lists and tables.
// ---------------------------------------------------------------------------

proof fn lemma_entries_view(s: Seq<(String, TomlValue)>)
    ensures
        entries_view(s).len() == s.len(),
        forall|i: int| 0 <= i < s.len() ==> #[trigger] entries_view(s)[i] == (s[i].0@, value_view(s[i].1)),
    decreases s.len(),
{
    if s.len() > 0 {
        lemma_entries_view(s.drop_last());
        assert forall|i: int| 0 <= i < s.len() implies #[trigger] entries_view(s)[i] == (s[i].0@, value_view(s[i].1)) by {
            if i < s.len() - 1 {
                assert(s.drop_last()[i] == s[i]);
            }
        }
    }
}

proof fn lemma_list_view(s: Seq<TomlValue>)
    ensures
        list_view(s).len() == s.len(),
        forall|i: int| 0 <= i < s.len() ==> #[trigger] list_view(s)[i] == value_view(s[i]),
    decreases s.len(),
{
    if s.len() > 0 {
        lemma_list_view(s.drop_last());
        assert forall|i: int| 0 <= i < s.len() implies #[trigger] list_view(s)[i] == value_view(s[i]) by {
            if i < s.len() - 1 {
                assert(s.drop_last()[i] == s[i]);
            }
        }
    }
}

/// Two lists of entries with the same forms element by element have the
/// same form.
proof fn lemma_entries_view_ext(s: Seq<(String, TomlValue)>, t: Seq<(Seq<char>, TomlV)>)
    requires
        s.len() == t.len(),
        forall|i: int| 0 <= i < s.len() ==> #[trigger] t[i] == (s[i].0@, value_view(s[i].1)),
    ensures
        entries_view(s) == t,
{
    lemma_entries_view(s);
    assert(entries_view(s) =~= t);
}

proof fn lemma_list_view_ext(s: Seq<TomlValue>, t: Seq<TomlV>)
    requires
        s.len() == t.len(),
        forall|i: int| 0 <= i < s.len() ==> #[trigger] t[i] == value_view(s[i]),
    ensures
        list_view(s) == t,
{
    lemma_list_view(s);
    assert(list_view(s) =~= t);
}

// ---------------------------------------------------------------------------
// Reading, executable.
// ---------------------------------------------------------------------------

/// The pieces of `v` between occurrences of `c`.
pub(crate) fn split_char_exec(v: &Vec<char>, c: char) -> (r: Vec<Vec<char>>)
    ensures
        r@.map_values(|x: Vec<char>| x@) == split_char(v@, c),
{
    let mut r: Vec<Vec<char>> = Vec::new();
    let mut cur: Vec<char> = Vec::new();
    let mut i: usize = 0;
    proof {
        assert(v@.take(0) =~= Seq::<char>::empty());
        assert(r@.map_values(|x: Vec<char>| x@).push(cur@) =~= split_char(v@.take(0), c));
    }
    while i < v.len()
        invariant
            i <= v@.len(),
            r@.map_values(|x: Vec<char>| x@).push(cur@) == split_char(v@.take(i as int), c),
        decreases v@.len() - i,
    {
        proof {
            assert(v@.take(i + 1).drop_last() =~= v@.take(i as int));
            assert(v@.take(i + 1).last() == v@[i as int]);
        }
        let ghost before = r@.map_values(|x: Vec<char>| x@);
        let ghost cur0 = cur@;
        if v[i] == c {
            let done = cur;
            r.push(done);
            cur = Vec::new();
            proof {
                assert(r@.map_values(|x: Vec<char>| x@) =~= before.push(cur0));
                assert(r@.map_values(|x: Vec<char>| x@).push(cur@) =~= before.push(cur0).push(Seq::<char>::empty()));
            }
        } else {
            cur.push(v[i]);
            proof {
                assert(r@.map_values(|x: Vec<char>| x@).push(cur@) =~= before.push(cur0).drop_last().push(cur0.push(v@[i as int])));
            }
        }
        i = i + 1;
    }
    let ghost before = r@.map_values(|x: Vec<char>| x@);
    let ghost cur0 = cur@;
    r.push(cur);
    proof {
        assert(v@.take(i as int) =~= v@);
        assert(r@.map_values(|x: Vec<char>| x@) =~= before.push(cur0));
    }
    r
}

/// Position of the first `c` in `v`, or -1.
fn first_index_exec(v: &Vec<char>, c: char) -> (r: Option<usize>)
    ensures
        match r {
            Some(i) => i as int == first_index(v@, c),
            None => first_index(v@, c) == -1,
        },
{
    let mut i: usize = 0;
    proof {
        assert(v@.take(0) =~= Seq::<char>::empty());
    }
    while i < v.len()
        invariant
            i <= v@.len(),
            first_index(v@.take(i as int), c) == -1,
        decreases v@.len() - i,
    {
        proof {
            assert(v@.take(i + 1).drop_last() =~= v@.take(i as int));
            assert(v@.take(i + 1).last() == v@[i as int]);
        }
        if v[i] == c {
            proof {
                lemma_first_index_prefix(v@, c, i + 1);
            }
            return Some(i);
        }
        i = i + 1;
    }
    proof {
        assert(v@.take(i as int) =~= v@);
    }
    None
}

/// A first occurrence in a prefix is the first occurrence in the whole.
proof fn lemma_first_index_prefix(s: Seq<char>, c: char, n: int)
    requires
        0 <= n <= s.len(),
        first_index(s.take(n), c) >= 0,
    ensures
        first_index(s, c) == first_index(s.take(n), c),
    decreases s.len() - n,
{
    if n < s.len() {
        assert(s.take(n + 1).drop_last() =~= s.take(n));
        lemma_first_index_prefix(s, c, n + 1);
    } else {
        assert(s.take(n) =~= s);
    }
}

proof fn lemma_first_index_bounds(s: Seq<char>, c: char)
    ensures
        -1 <= first_index(s, c) < s.len(),
    decreases s.len(),
{
    if s.len() > 0 {
        lemma_first_index_bounds(s.drop_last(), c);
    }
}

/// `digit_run` of `v` from position `i`.
fn digit_run_exec(v: &Vec<char>, i: usize) -> (r: usize)
    requires
        i <= v@.len(),
    ensures
        r == digit_run(v@.skip(i as int)),
        i + r <= v@.len(),
{
    let mut j: usize = i;
    while j < v.len() && '0' <= v[j] && v[j] <= '9'
        invariant
            i <= j <= v@.len(),
            digit_run(v@.skip(i as int)) == (j - i) + digit_run(v@.skip(j as int)),
        decreases v@.len() - j,
    {
        proof {
            assert(v@.skip(j as int).drop_first() =~= v@.skip(j + 1));
            assert(v@.skip(j as int)[0] == v@[j as int]);
        }
        j = j + 1;
    }
    proof {
        if j < v@.len() {
            assert(v@.skip(j as int)[0] == v@[j as int]);
        }
    }
    j - i
}

/// Whether `v` from position `i` is an exponent.
fn exponent_exec(v: &Vec<char>, i: usize) -> (r: bool)
    requires
        i <= v@.len(),
    ensures
        r == exponent_text(v@.skip(i as int)),
{
    let ghost s = v@.skip(i as int);
    if i >= v.len() || !(v[i] == 'e' || v[i] == 'E') {
        return false;
    }
    let start = if i + 1 < v.len() && (v[i + 1] == '+' || v[i + 1] == '-') { i + 2 } else { i + 1 };
    proof {
        assert(s[0] == v@[i as int]);
        if i + 1 < v@.len() {
            assert(s[1] == v@[i + 1]);
        }
        if i + 2 <= v@.len() {
            assert(s.skip(2) =~= v@.skip(i + 2));
        }
        assert(s.skip(1) =~= v@.skip(i + 1));
    }
    if start > v.len() {
        return false;
    }
    let d = digit_run_exec(v, start);
    d > 0 && start + d == v.len()
}

/// Whether `v` from position `i` is a decimal number.
fn number_exec(v: &Vec<char>, i: usize) -> (r: bool)
    requires
        i <= v@.len(),
    ensures
        r == number_text(v@.skip(i as int)),
{
    let ghost s = v@.skip(i as int);
    let n = v.len();
    let a = digit_run_exec(v, i);
    assert(i + a <= n);
    let p = i + a;
    proof {
        assert(s.skip(a as int) =~= v@.skip(p as int));
    }
    if p < v.len() && v[p] == '.' {
        proof {
            assert(v@.skip(p as int)[0] == v@[p as int]);
            assert(v@.skip(p as int).skip(1) =~= v@.skip(p + 1));
        }
        let b = digit_run_exec(v, p + 1);
        let q = p + 1 + b;
        proof {
            assert(v@.skip(p + 1).skip(b as int) =~= v@.skip(q as int));
        }
        if a + b == 0 {
            return false;
        }
        q == v.len() || exponent_exec(v, q)
    } else {
        proof {
            if p < v@.len() {
                assert(v@.skip(p as int)[0] == v@[p as int]);
            }
        }
        a > 0 && (p == v.len() || exponent_exec(v, p))
    }
}

/// Whether `v` from position `i` equals the lower-case word `w` up to ASCII
/// case.
fn word_ci_exec(v: &Vec<char>, i: usize, w: &str) -> (r: bool)
    requires
        i <= v@.len(),
    ensures
        r == word_ci(v@.skip(i as int), w@),
{
    let wv = chars_of(w);
    let ghost s = v@.skip(i as int);
    if v.len() - i != wv.len() {
        return false;
    }
    let mut k: usize = 0;
    while k < wv.len()
        invariant
            k <= wv@.len(),
            wv@ == w@,
            i <= v@.len(),
            v@.len() == v.len(),
            v@.len() - i == wv@.len(),
            s == v@.skip(i as int),
            forall|j: int| 0 <= j < k ==> #[trigger] crate::strops::lower_char(s[j]) == wv@[j],
        decreases wv@.len() - k,
    {
        let lc = crate::strops::lower_char_exec(v[i + k]);
        assert(s[k as int] == v@[i + k]);
        if lc != wv[k] {
            return false;
        }
        k = k + 1;
    }
    true
}

/// Whether `v` reads as a floating-point number, as `float_text`.
pub(crate) fn float_exec(v: &Vec<char>) -> (r: bool)
    ensures
        r == float_text(v@),
{
    let i: usize = if v.len() > 0 && (v[0] == '+' || v[0] == '-') { 1 } else { 0 };
    proof {
        reveal_strlit("inf");
        reveal_strlit("infinity");
        reveal_strlit("nan");
        assert(v@.skip(0) =~= v@);
    }
    word_ci_exec(v, i, "inf") || word_ci_exec(v, i, "infinity") || word_ci_exec(v, i, "nan") || number_exec(v, i)
}


/// With no match from position `j` on, the last match lies before `j`.
proof fn lemma_find_key_prefix(es: Seq<(Seq<char>, TomlV)>, k: Seq<char>, j: int)
    requires
        0 <= j <= es.len(),
        forall|q: int| j <= q < es.len() ==> #[trigger] es[q].0 != k,
    ensures
        find_key(es, k) == find_key(es.take(j), k),
    decreases es.len() - j,
{
    if j < es.len() {
        assert(es.drop_last().len() == es.len() - 1);
        assert forall|q: int| j <= q < es.drop_last().len() implies #[trigger] es.drop_last()[q].0 != k by {
            assert(es.drop_last()[q] == es[q]);
        }
        lemma_find_key_prefix(es.drop_last(), k, j);
        assert(es.drop_last().take(j) =~= es.take(j));
        assert(es.last() == es[es.len() - 1]);
    } else {
        assert(es.take(j) =~= es);
    }
}

/// Position of the last entry named `k`, as `find_key`.
fn find_key_exec(es: &Vec<(String, TomlValue)>, k: &str) -> (r: Option<usize>)
    ensures
        match r {
            Some(i) => i < es@.len() && find_key(entries_view(es@), k@) == i as int,
            None => find_key(entries_view(es@), k@) == -1,
        },
{
    let ghost ev = entries_view(es@);
    proof {
        lemma_entries_view(es@);
    }
    let mut j: usize = es.len();
    while j > 0
        invariant
            j <= es@.len(),
            ev == entries_view(es@),
            ev.len() == es@.len(),
            forall|q: int| 0 <= q < es@.len() ==> #[trigger] ev[q] == (es@[q].0@, value_view(es@[q].1)),
            forall|q: int| j <= q < ev.len() ==> #[trigger] ev[q].0 != k@,
        decreases j,
    {
        if str_eq(es[j - 1].0.as_str(), k) {
            proof {
                lemma_find_key_prefix(ev, k@, j as int);
                assert(ev.take(j as int).last() == ev[j - 1]);
            }
            return Some(j - 1);
        }
        assert(ev[j - 1].0 != k@);
        j = j - 1;
    }
    proof {
        lemma_find_key_prefix(ev, k@, 0);
    }
    None
}

/// Sets `k` to `v` in a table, as `put`.
fn put_exec(es: &mut Vec<(String, TomlValue)>, k: String, v: TomlValue)
    ensures
        entries_view(final(es)@) == put(entries_view(old(es)@), k@, v@),
{
    let ghost ev = entries_view(es@);
    let ghost kv = k@;
    let ghost vv = v@;
    proof {
        lemma_entries_view(es@);
    }
    match find_key_exec(es, k.as_str()) {
        Some(i) => {
            es.set(i, (k, v));
            proof {
                lemma_entries_view_ext(es@, ev.update(i as int, (kv, vv)));
            }
        },
        None => {
            es.push((k, v));
            proof {
                lemma_entries_view_ext(es@, ev.push((kv, vv)));
            }
        },
    }
}

/// An error in a prefix of the pieces is the error of the whole list.
proof fn lemma_read_items_err(ps: Seq<Seq<char>>, bound: nat, n: int)
    requires
        0 <= n <= ps.len(),
        read_items(ps.take(n), bound) is Err,
    ensures
        read_items(ps, bound) == read_items(ps.take(n), bound),
    decreases ps.len() - n,
{
    if n < ps.len() {
        assert(ps.take(n + 1).drop_last() =~= ps.take(n));
        lemma_read_items_err(ps, bound, n + 1);
    } else {
        assert(ps.take(n) =~= ps);
    }
}

proof fn lemma_read_pairs_err(ps: Seq<Seq<char>>, bound: nat, n: int)
    requires
        0 <= n <= ps.len(),
        read_pairs(ps.take(n), bound) is Err,
    ensures
        read_pairs(ps, bound) == read_pairs(ps.take(n), bound),
    decreases ps.len() - n,
{
    if n < ps.len() {
        assert(ps.take(n + 1).drop_last() =~= ps.take(n));
        lemma_read_pairs_err(ps, bound, n + 1);
    } else {
        assert(ps.take(n) =~= ps);
    }
}

/// The value a text reads as, as `read_value`.
fn read_value_exec(s: &Vec<char>) -> (r: Result<TomlValue, Vec<char>>)
    ensures
        match read_value(s@) {
            Ok(v) => r is Ok && r->Ok_0@ == v,
            Err(e) => r is Err && r->Err_0@ == e,
        },
    decreases s@.len(), 0int,
{
    let n = s.len();
    if n >= 2 && ((s[0] == '"' && s[n - 1] == '"') || (s[0] == '\'' && s[n - 1] == '\'')) {
        let body = sub_vec(s, 1, n - 1);
        return Ok(TomlValue::String(string_from_chars(&body)));
    }
    let st = string_from_chars(s);
    proof {
        reveal_strlit("true");
        reveal_strlit("false");
    }
    if str_eq(st.as_str(), "true") {
        return Ok(TomlValue::Boolean(true));
    }
    if str_eq(st.as_str(), "false") {
        return Ok(TomlValue::Boolean(false));
    }
    match parse_int_opt(st.as_str(), 10) {
        Some(x) => {
            return Ok(TomlValue::Integer(x));
        },
        None => {},
    }
    if float_exec(s) {
        return Ok(TomlValue::Float(st));
    }
    if n >= 2 && s[0] == '[' && s[n - 1] == ']' {
        let body = sub_vec(s, 1, n - 1);
        let pieces = split_char_exec(&body, ',');
        return match read_items_exec(&pieces, n - 1) {
            Ok(vs) => Ok(TomlValue::Array(vs)),
            Err(e) => Err(e),
        };
    }
    if n >= 2 && s[0] == '{' && s[n - 1] == '}' {
        let body = sub_vec(s, 1, n - 1);
        let pieces = split_char_exec(&body, ',');
        return match read_pairs_exec(&pieces, n - 1) {
            Ok(es) => Ok(TomlValue::InlineTable(es)),
            Err(e) => Err(e),
        };
    }
    Err(sub_vec(s, 0, n))
}

/// The values of the non-blank pieces, as `read_items`.
fn read_items_exec(ps: &Vec<Vec<char>>, bound: usize) -> (r: Result<Vec<TomlValue>, Vec<char>>)
    ensures
        match read_items(ps@.map_values(|x: Vec<char>| x@), bound as nat) {
            Ok(vs) => r is Ok && list_view(r->Ok_0@) == vs,
            Err(e) => r is Err && r->Err_0@ == e,
        },
    decreases bound, ps@.len(),
{
    let ghost pv = ps@.map_values(|x: Vec<char>| x@);
    let mut acc: Vec<TomlValue> = Vec::new();
    let mut i: usize = 0;
    proof {
        assert(pv.take(0) =~= Seq::<Seq<char>>::empty());
    }
    while i < ps.len()
        invariant
            i <= ps@.len(),
            pv == ps@.map_values(|x: Vec<char>| x@),
            read_items(pv.take(i as int), bound as nat) is Ok,
            list_view(acc@) == read_items(pv.take(i as int), bound as nat)->Ok_0,
        decreases ps@.len() - i,
    {
        proof {
            assert(pv.take(i + 1).drop_last() =~= pv.take(i as int));
            assert(pv.take(i + 1).last() == ps@[i as int]@);
        }
        let t = trim_chars(&ps[i]);
        if t.len() == 0 {
        } else if t.len() <= bound {
            match read_value_exec(&t) {
                Ok(v) => {
                    let ghost a0 = acc@;
                    acc.push(v);
                    proof {
                        lemma_list_view(a0);
                        lemma_list_view_ext(acc@, list_view(a0).push(acc@.last()@));
                    }
                },
                Err(e) => {
                    proof {
                        lemma_read_items_err(pv, bound as nat, i + 1);
                    }
                    return Err(e);
                },
            }
        } else {
            proof {
                lemma_read_items_err(pv, bound as nat, i + 1);
            }
            return Err(t);
        }
        i = i + 1;
    }
    proof {
        assert(pv.take(i as int) =~= pv);
    }
    Ok(acc)
}

/// The entries of the pieces that hold an `=`, as `read_pairs`.
fn read_pairs_exec(ps: &Vec<Vec<char>>, bound: usize) -> (r: Result<Vec<(String, TomlValue)>, Vec<char>>)
    ensures
        match read_pairs(ps@.map_values(|x: Vec<char>| x@), bound as nat) {
            Ok(es) => r is Ok && entries_view(r->Ok_0@) == es,
            Err(e) => r is Err && r->Err_0@ == e,
        },
    decreases bound, ps@.len(),
{
    let ghost pv = ps@.map_values(|x: Vec<char>| x@);
    let mut acc: Vec<(String, TomlValue)> = Vec::new();
    let mut i: usize = 0;
    proof {
        assert(pv.take(0) =~= Seq::<Seq<char>>::empty());
        assert(entries_view(acc@) =~= Seq::<(Seq<char>, TomlV)>::empty());
    }
    while i < ps.len()
        invariant
            i <= ps@.len(),
            pv == ps@.map_values(|x: Vec<char>| x@),
            read_pairs(pv.take(i as int), bound as nat) is Ok,
            entries_view(acc@) == read_pairs(pv.take(i as int), bound as nat)->Ok_0,
        decreases ps@.len() - i,
    {
        proof {
            assert(pv.take(i + 1).drop_last() =~= pv.take(i as int));
            assert(pv.take(i + 1).last() == ps@[i as int]@);
        }
        let t = trim_chars(&ps[i]);
        proof {
            lemma_first_index_bounds(t@, '=');
        }
        match first_index_exec(&t, '=') {
            None => {},
            Some(eu) => {
                let kpart = sub_vec(&t, 0, eu);
                let key = trim_chars(&kpart);
                let vpart = sub_vec(&t, eu + 1, t.len());
                let vt = trim_chars(&vpart);
                if vt.len() <= bound {
                    match read_value_exec(&vt) {
                        Ok(v) => {
                            put_exec(&mut acc, string_from_chars(&key), v);
                        },
                        Err(x) => {
                            proof {
                                lemma_read_pairs_err(pv, bound as nat, i + 1);
                            }
                            return Err(x);
                        },
                    }
                } else {
                    proof {
                        lemma_read_pairs_err(pv, bound as nat, i + 1);
                    }
                    return Err(vt);
                }
            },
        }
        i = i + 1;
    }
    proof {
        assert(pv.take(i as int) =~= pv);
    }
    Ok(acc)
}


// ---------------------------------------------------------------------------
// Documents.
// ---------------------------------------------------------------------------

/// The entries of the table named `n`, or none when `n` names no table.
pub open spec fn sub_table(es: Seq<(Seq<char>, TomlV)>, n: Seq<char>) -> Seq<(Seq<char>, TomlV)> {
    match lookup(es, n) {
        Some(TomlV::Table(t)) => t,
        _ => Seq::empty(),
    }
}

/// The entries with `k` set to `v` inside the table reached by `path`,
/// tables along the path made when missing.
pub open spec fn put_path(es: Seq<(Seq<char>, TomlV)>, path: Seq<Seq<char>>, k: Seq<char>, v: TomlV) -> Seq<(Seq<char>, TomlV)>
    decreases path.len(),
{
    if path.len() == 0 {
        put(es, k, v)
    } else {
        put(es, path[0], TomlV::Table(put_path(sub_table(es, path[0]), path.drop_first(), k, v)))
    }
}

/// The entries with an empty table at the end of `path`, tables along the
/// way kept or made.
pub open spec fn make_table(es: Seq<(Seq<char>, TomlV)>, path: Seq<Seq<char>>) -> Seq<(Seq<char>, TomlV)>
    decreases path.len(),
{
    if path.len() == 0 {
        es
    } else if path.len() == 1 {
        put(es, path[0], TomlV::Table(Seq::empty()))
    } else {
        put(es, path[0], TomlV::Table(make_table(sub_table(es, path[0]), path.drop_first())))
    }
}

/// What reading has built: the top-level entries and the path of the table
/// that `key = value` lines go to (none: the top level).
pub type ReadState = (Seq<(Seq<char>, TomlV)>, Option<Seq<Seq<char>>>);

/// One line read: blank lines and `#` comments change nothing; `[a.b]`
/// makes the (nested) table and directs later lines into it; `key = value`
/// sets the key where lines are directed; other lines change nothing. A
/// value that cannot be read is the error.
pub open spec fn line_step(st: ReadState, line: Seq<char>) -> Result<ReadState, Seq<char>> {
    let t = trim_spec(line);
    if t.len() == 0 || t[0] == '#' {
        Ok(st)
    } else if t[0] == '[' {
        if wrapped(t, '[', ']') {
            let parts = split_char(inner(t), '.');
            Ok((make_table(st.0, parts), Some(parts)))
        } else {
            Ok(st)
        }
    } else {
        let e = first_index(t, '=');
        if e < 0 {
            Ok(st)
        } else {
            let key = trim_spec(t.subrange(0, e));
            match read_value(trim_spec(t.subrange(e + 1, t.len() as int))) {
                Err(x) => Err(x),
                Ok(v) => Ok((
                    match st.1 {
                        None => put(st.0, key, v),
                        Some(p) => put_path(st.0, p, key, v),
                    },
                    st.1,
                )),
            }
        }
    }
}

/// Reading the lines in order.
pub open spec fn read_lines(ls: Seq<Seq<char>>) -> Result<ReadState, Seq<char>>
    decreases ls.len(),
{
    if ls.len() == 0 {
        Ok((Seq::empty(), None))
    } else {
        match read_lines(ls.drop_last()) {
            Err(x) => Err(x),
            Ok(st) => line_step(st, ls.last()),
        }
    }
}

/// The message of a value that cannot be read.
pub open spec fn cannot_parse(x: Seq<char>) -> Seq<char> {
    "Cannot parse value: "@ + x
}

/// A TOML document: its top-level entries.
#[derive(Debug)]
pub struct TomlDocument {
    pub values: Vec<(String, TomlValue)>,
}

impl TomlDocument {
    /// The top-level entries.
    pub open spec fn entries(&self) -> Seq<(Seq<char>, TomlV)> {
        entries_view(self.values@)
    }

    /// An empty document.
    pub fn new() -> (r: TomlDocument)
        ensures
            r.entries() == Seq::<(Seq<char>, TomlV)>::empty(),
    {
        TomlDocument { values: Vec::new() }
    }

    /// Sets a top-level key.
    pub fn set(&mut self, key: String, value: TomlValue)
        ensures
            final(self).entries() == put(old(self).entries(), key@, value@),
    {
        put_exec(&mut self.values, key, value);
    }

    /// The value of a top-level key.
    pub fn get(&self, key: &str) -> (r: Option<&TomlValue>)
        ensures
            match lookup(self.entries(), key@) {
                Some(v) => r is Some && r->Some_0@ == v,
                None => r is None,
            },
    {
        proof {
            lemma_entries_view(self.values@);
            lemma_find_key_bounds(self.entries(), key@);
        }
        match find_key_exec(&self.values, key) {
            Some(i) => Some(&self.values[i].1),
            None => None,
        }
    }

    /// The string under a key; `MissingKey` when there is none.
    pub fn get_str(&self, key: &str) -> (r: Result<&str, TomlError>)
        ensures
            match lookup(self.entries(), key@) {
                Some(TomlV::String(s)) => r is Ok && r->Ok_0@ == s,
                _ => r matches Err(TomlError::MissingKey(k)) && k@ == key@,
            },
    {
        match self.get(key) {
            Some(TomlValue::String(s)) => Ok(s.as_str()),
            _ => Err(TomlError::MissingKey(owned(key))),
        }
    }

    /// The integer under a key; `MissingKey` when there is none.
    pub fn get_i64(&self, key: &str) -> (r: Result<i64, TomlError>)
        ensures
            match lookup(self.entries(), key@) {
                Some(TomlV::Integer(i)) => r == Ok::<i64, TomlError>(i),
                _ => r matches Err(TomlError::MissingKey(k)) && k@ == key@,
            },
    {
        match self.get(key) {
            Some(TomlValue::Integer(i)) => Ok(*i),
            _ => Err(TomlError::MissingKey(owned(key))),
        }
    }

    /// The text of the floating-point number under a key; `MissingKey` when
    /// there is none.
    pub fn get_float_text(&self, key: &str) -> (r: Result<&str, TomlError>)
        ensures
            match lookup(self.entries(), key@) {
                Some(TomlV::Float(s)) => r is Ok && r->Ok_0@ == s,
                _ => r matches Err(TomlError::MissingKey(k)) && k@ == key@,
            },
    {
        match self.get(key) {
            Some(TomlValue::Float(s)) => Ok(s.as_str()),
            _ => Err(TomlError::MissingKey(owned(key))),
        }
    }

    /// The boolean under a key; `MissingKey` when there is none.
    pub fn get_bool(&self, key: &str) -> (r: Result<bool, TomlError>)
        ensures
            match lookup(self.entries(), key@) {
                Some(TomlV::Boolean(b)) => r == Ok::<bool, TomlError>(b),
                _ => r matches Err(TomlError::MissingKey(k)) && k@ == key@,
            },
    {
        match self.get(key) {
            Some(TomlValue::Boolean(b)) => Ok(*b),
            _ => Err(TomlError::MissingKey(owned(key))),
        }
    }

    /// The array under a key; `MissingKey` when there is none.
    pub fn get_array(&self, key: &str) -> (r: Result<&Vec<TomlValue>, TomlError>)
        ensures
            match lookup(self.entries(), key@) {
                Some(TomlV::Array(a)) => r is Ok && list_view(r->Ok_0@) == a,
                _ => r matches Err(TomlError::MissingKey(k)) && k@ == key@,
            },
    {
        match self.get(key) {
            Some(TomlValue::Array(a)) => Ok(a),
            _ => Err(TomlError::MissingKey(owned(key))),
        }
    }

    /// The table (or inline table) under a key; `MissingKey` when there is
    /// none.
    pub fn get_table(&self, key: &str) -> (r: Result<&Vec<(String, TomlValue)>, TomlError>)
        ensures
            match lookup(self.entries(), key@) {
                Some(TomlV::Table(t)) => r is Ok && entries_view(r->Ok_0@) == t,
                Some(TomlV::InlineTable(t)) => r is Ok && entries_view(r->Ok_0@) == t,
                _ => r matches Err(TomlError::MissingKey(k)) && k@ == key@,
            },
    {
        match self.get(key) {
            Some(TomlValue::Table(t)) => Ok(t),
            Some(TomlValue::InlineTable(t)) => Ok(t),
            _ => Err(TomlError::MissingKey(owned(key))),
        }
    }
}

/// Sets `k` to `v` in the table reached by `path[idx..]`, as `put_path`.
fn put_path_exec(es: &mut Vec<(String, TomlValue)>, path: &Vec<String>, idx: usize, k: String, v: TomlValue)
    requires
        idx <= path@.len(),
    ensures
        entries_view(final(es)@) == put_path(
            entries_view(old(es)@),
            path@.skip(idx as int).map_values(|x: String| x@),
            k@,
            v@,
        ),
    decreases path@.len() - idx,
{
    let ghost pv = path@.skip(idx as int).map_values(|x: String| x@);
    let ghost ev = entries_view(es@);
    let ghost kv = k@;
    let ghost vv = v@;
    if idx == path.len() {
        assert(pv =~= Seq::<Seq<char>>::empty());
        put_exec(es, k, v);
        return;
    }
    proof {
        assert(pv[0] == path@[idx as int]@);
        assert(pv.drop_first() =~= path@.skip(idx + 1).map_values(|x: String| x@));
        lemma_entries_view(es@);
        lemma_find_key_bounds(ev, pv[0]);
    }
    let name = &path[idx];
    match find_key_exec(es, name.as_str()) {
        Some(i) => {
            let (nm, val) = es.remove(i);
            let mut sub = match val {
                TomlValue::Table(t) => t,
                _ => Vec::new(),
            };
            proof {
                assert(entries_view(sub@) == sub_table(ev, pv[0])) by {
                    assert(ev[i as int] == (nm@, value_view(val)));
                    if !(val is Table) {
                        assert(entries_view(sub@) =~= Seq::<(Seq<char>, TomlV)>::empty());
                    }
                }
            }
            put_path_exec(&mut sub, path, idx + 1, k, v);
            let ghost nt = value_view(TomlValue::Table(sub));
            es.insert(i, (nm, TomlValue::Table(sub)));
            proof {
                lemma_entries_view_ext(es@, ev.update(i as int, (pv[0], nt)));
            }
        },
        None => {
            let mut sub: Vec<(String, TomlValue)> = Vec::new();
            proof {
                assert(entries_view(sub@) =~= sub_table(ev, pv[0]));
            }
            put_path_exec(&mut sub, path, idx + 1, k, v);
            let ghost nt = value_view(TomlValue::Table(sub));
            es.push((name.clone(), TomlValue::Table(sub)));
            proof {
                lemma_entries_view_ext(es@, ev.push((pv[0], nt)));
            }
        },
    }
}

/// Makes the empty table at the end of `path[idx..]`, as `make_table`.
fn make_table_exec(es: &mut Vec<(String, TomlValue)>, path: &Vec<String>, idx: usize)
    requires
        idx <= path@.len(),
    ensures
        entries_view(final(es)@) == make_table(entries_view(old(es)@), path@.skip(idx as int).map_values(|x: String| x@)),
    decreases path@.len() - idx,
{
    let ghost pv = path@.skip(idx as int).map_values(|x: String| x@);
    let ghost ev = entries_view(es@);
    if idx == path.len() {
        assert(pv =~= Seq::<Seq<char>>::empty());
        return;
    }
    proof {
        assert(pv[0] == path@[idx as int]@);
        assert(pv.drop_first() =~= path@.skip(idx + 1).map_values(|x: String| x@));
        lemma_entries_view(es@);
        lemma_find_key_bounds(ev, pv[0]);
    }
    if idx + 1 == path.len() {
        let empty: Vec<(String, TomlValue)> = Vec::new();
        assert(entries_view(empty@) =~= Seq::<(Seq<char>, TomlV)>::empty());
        put_exec(es, path[idx].clone(), TomlValue::Table(empty));
        return;
    }
    let name = &path[idx];
    match find_key_exec(es, name.as_str()) {
        Some(i) => {
            let (nm, val) = es.remove(i);
            let mut sub = match val {
                TomlValue::Table(t) => t,
                _ => Vec::new(),
            };
            proof {
                assert(entries_view(sub@) == sub_table(ev, pv[0])) by {
                    assert(ev[i as int] == (nm@, value_view(val)));
                    if !(val is Table) {
                        assert(entries_view(sub@) =~= Seq::<(Seq<char>, TomlV)>::empty());
                    }
                }
            }
            make_table_exec(&mut sub, path, idx + 1);
            let ghost nt = value_view(TomlValue::Table(sub));
            es.insert(i, (nm, TomlValue::Table(sub)));
            proof {
                lemma_entries_view_ext(es@, ev.update(i as int, (pv[0], nt)));
            }
        },
        None => {
            let mut sub: Vec<(String, TomlValue)> = Vec::new();
            proof {
                assert(entries_view(sub@) =~= sub_table(ev, pv[0]));
            }
            make_table_exec(&mut sub, path, idx + 1);
            let ghost nt = value_view(TomlValue::Table(sub));
            es.push((name.clone(), TomlValue::Table(sub)));
            proof {
                lemma_entries_view_ext(es@, ev.push((pv[0], nt)));
            }
        },
    }
}


/// The texts of pieces as strings.
fn to_strings(ps: &Vec<Vec<char>>) -> (r: Vec<String>)
    ensures
        r@.map_values(|x: String| x@) == ps@.map_values(|x: Vec<char>| x@),
{
    let mut r: Vec<String> = Vec::new();
    let mut i: usize = 0;
    while i < ps.len()
        invariant
            i <= ps@.len(),
            r@.map_values(|x: String| x@) == ps@.take(i as int).map_values(|x: Vec<char>| x@),
        decreases ps@.len() - i,
    {
        let ghost before = r@;
        r.push(string_from_chars(&ps[i]));
        proof {
            assert(r@.map_values(|x: String| x@) =~= before.map_values(|x: String| x@).push(ps@[i as int]@));
            assert(ps@.take(i + 1).map_values(|x: Vec<char>| x@) =~= ps@.take(i as int).map_values(|x: Vec<char>| x@).push(ps@[i as int]@));
        }
        i = i + 1;
    }
    assert(ps@.take(i as int) =~= ps@);
    r
}

/// An error in a prefix of the lines is the error of the whole text.
proof fn lemma_read_lines_err(ls: Seq<Seq<char>>, n: int)
    requires
        0 <= n <= ls.len(),
        read_lines(ls.take(n)) is Err,
    ensures
        read_lines(ls) == read_lines(ls.take(n)),
    decreases ls.len() - n,
{
    if n < ls.len() {
        assert(ls.take(n + 1).drop_last() =~= ls.take(n));
        lemma_read_lines_err(ls, n + 1);
    } else {
        assert(ls.take(n) =~= ls);
    }
}

/// The form of an optional table path.
pub open spec fn target_view(t: Option<Vec<String>>) -> Option<Seq<Seq<char>>> {
    match t {
        Some(p) => Some(p@.map_values(|x: String| x@)),
        None => None,
    }
}

/// Reads TOML documents.
pub struct TomlParser;

impl TomlParser {
    pub fn new() -> (r: Self) {
        TomlParser
    }

    /// Reads a document line by line (see `line_step`); a value that cannot
    /// be read gives `InvalidValue` naming it.
    pub fn parse_str(&self, content: &str) -> (r: Result<TomlDocument, TomlError>)
        ensures
            match read_lines(split_char(content@, '\n')) {
                Ok(st) => r is Ok && r->Ok_0.entries() == st.0,
                Err(x) => r matches Err(TomlError::InvalidValue(m)) && m@ == cannot_parse(x),
            },
    {
        let v = chars_of(content);
        let lines = split_char_exec(&v, '\n');
        let ghost ls = lines@.map_values(|x: Vec<char>| x@);
        let mut values: Vec<(String, TomlValue)> = Vec::new();
        let mut target: Option<Vec<String>> = None;
        let mut i: usize = 0;
        proof {
            assert(ls.take(0) =~= Seq::<Seq<char>>::empty());
            assert(entries_view(values@) =~= Seq::<(Seq<char>, TomlV)>::empty());
        }
        while i < lines.len()
            invariant
                i <= lines@.len(),
                ls == lines@.map_values(|x: Vec<char>| x@),
                ls == split_char(content@, '\n'),
                read_lines(ls.take(i as int)) is Ok,
                entries_view(values@) == read_lines(ls.take(i as int))->Ok_0.0,
                target_view(target) == read_lines(ls.take(i as int))->Ok_0.1,
            decreases lines@.len() - i,
        {
            proof {
                assert(ls.take(i + 1).drop_last() =~= ls.take(i as int));
                assert(ls.take(i + 1).last() == lines@[i as int]@);
            }
            let t = trim_chars(&lines[i]);
            let n = t.len();
            if n == 0 || t[0] == '#' {
            } else if t[0] == '[' {
                if n >= 2 && t[n - 1] == ']' {
                    let body = sub_vec(&t, 1, n - 1);
                    let pieces = split_char_exec(&body, '.');
                    let parts = to_strings(&pieces);
                    proof {
                        assert(parts@.skip(0) =~= parts@);
                    }
                    make_table_exec(&mut values, &parts, 0);
                    target = Some(parts);
                }
            } else {
                proof {
                    lemma_first_index_bounds(t@, '=');
                }
                match first_index_exec(&t, '=') {
                    None => {},
                    Some(e) => {
                        let kpart = sub_vec(&t, 0, e);
                        let key_chars = trim_chars(&kpart);
                        let key = string_from_chars(&key_chars);
                        let vpart = sub_vec(&t, e + 1, n);
                        let vt = trim_chars(&vpart);
                        match read_value_exec(&vt) {
                            Err(x) => {
                                proof {
                                    lemma_read_lines_err(ls, i + 1);
                                }
                                let mut m = owned("Cannot parse value: ");
                                let xs = string_from_chars(&x);
                                string_push_str(&mut m, xs.as_str());
                                proof {
                                    reveal_strlit("Cannot parse value: ");
                                }
                                return Err(TomlError::InvalidValue(m));
                            },
                            Ok(val) => {
                                match &target {
                                    None => {
                                        put_exec(&mut values, key, val);
                                    },
                                    Some(p) => {
                                        proof {
                                            assert(p@.skip(0) =~= p@);
                                        }
                                        put_path_exec(&mut values, p, 0, key, val);
                                    },
                                }
                            },
                        }
                    },
                }
            }
            i = i + 1;
        }
        proof {
            assert(ls.take(i as int) =~= ls);
        }
        Ok(TomlDocument { values })
    }
}

/// Reads a document, as `TomlParser::parse_str`.
pub fn parse_str(content: &str) -> (r: Result<TomlDocument, TomlError>)
    ensures
        match read_lines(split_char(content@, '\n')) {
            Ok(st) => r is Ok && r->Ok_0.entries() == st.0,
            Err(x) => r matches Err(TomlError::InvalidValue(m)) && m@ == cannot_parse(x),
        },
{
    TomlParser::new().parse_str(content)
}

impl TomlValue {
    /// The text of a string value.
    pub fn as_str(&self) -> (r: Option<&str>)
        ensures
            match self@ {
                TomlV::String(s) => r is Some && r->Some_0@ == s,
                _ => r is None,
            },
    {
        match self {
            TomlValue::String(s) => Some(s.as_str()),
            _ => None,
        }
    }

    /// An integer value.
    pub fn as_i64(&self) -> (r: Option<i64>)
        ensures
            r == match self@ {
                TomlV::Integer(i) => Some(i),
                _ => None::<i64>,
            },
    {
        match self {
            TomlValue::Integer(i) => Some(*i),
            _ => None,
        }
    }

    /// A boolean value.
    pub fn as_bool(&self) -> (r: Option<bool>)
        ensures
            r == match self@ {
                TomlV::Boolean(b) => Some(b),
                _ => None::<bool>,
            },
    {
        match self {
            TomlValue::Boolean(b) => Some(*b),
            _ => None,
        }
    }

    /// The text of a floating-point value.
    pub fn as_float_text(&self) -> (r: Option<&str>)
        ensures
            match self@ {
                TomlV::Float(s) => r is Some && r->Some_0@ == s,
                _ => r is None,
            },
    {
        match self {
            TomlValue::Float(s) => Some(s.as_str()),
            _ => None,
        }
    }

    /// The items of an array.
    pub fn as_array(&self) -> (r: Option<&Vec<TomlValue>>)
        ensures
            match self@ {
                TomlV::Array(a) => r is Some && list_view(r->Some_0@) == a,
                _ => r is None,
            },
    {
        match self {
            TomlValue::Array(a) => Some(a),
            _ => None,
        }
    }

    /// The entries of a table or inline table.
    pub fn as_table(&self) -> (r: Option<&Vec<(String, TomlValue)>>)
        ensures
            match self@ {
                TomlV::Table(t) => r is Some && entries_view(r->Some_0@) == t,
                TomlV::InlineTable(t) => r is Some && entries_view(r->Some_0@) == t,
                _ => r is None,
            },
    {
        match self {
            TomlValue::Table(t) => Some(t),
            TomlValue::InlineTable(t) => Some(t),
            _ => None,
        }
    }

    /// Whether the value is the empty value.
    pub fn is_none(&self) -> (r: bool)
        ensures
            r == (self@ is Nothing),
    {
        match self {
            TomlValue::Nothing => true,
            _ => false,
        }
    }

    /// The value of a key of a table or inline table.
    pub fn get(&self, key: &str) -> (r: Option<&TomlValue>)
        ensures
            match self@ {
                TomlV::Table(t) => match lookup(t, key@) {
                    Some(v) => r is Some && r->Some_0@ == v,
                    None => r is None,
                },
                TomlV::InlineTable(t) => match lookup(t, key@) {
                    Some(v) => r is Some && r->Some_0@ == v,
                    None => r is None,
                },
                _ => r is None,
            },
    {
        match self {
            TomlValue::Table(t) | TomlValue::InlineTable(t) => {
                proof {
                    lemma_entries_view(t@);
                    lemma_find_key_bounds(entries_view(t@), key@);
                }
                match find_key_exec(t, key) {
                    Some(i) => Some(&t[i].1),
                    None => None,
                }
            },
            _ => None,
        }
    }
}


// ---------------------------------------------------------------------------
// Writing.
// ---------------------------------------------------------------------------

/// `true` or `false`.
pub open spec fn bool_text(b: bool) -> Seq<char> {
    if b { "true"@ } else { "false"@ }
}

/// The line(s) of a named value at indentation `ind`: `key = value` for
/// scalars (strings quoted, floating-point numbers as written), an array
/// with one unnamed line per item indented two more spaces, a table as a
/// `[key]` header followed by its entries indented two more spaces, an
/// inline table on one line; the empty value writes nothing.
pub open spec fn line_text(ind: Seq<char>, key: Seq<char>, v: TomlV) -> Seq<char>
    decreases v,
{
    match v {
        TomlV::String(s) => ind + key + " = \""@ + s + "\"\n"@,
        TomlV::Integer(i) => ind + key + " = "@ + signed_decimal(i as int) + "\n"@,
        TomlV::Float(t) => ind + key + " = "@ + t + "\n"@,
        TomlV::Boolean(b) => ind + key + " = "@ + bool_text(b) + "\n"@,
        TomlV::Array(a) => ind + key + " = [\n"@ + array_lines(a, ind + "  "@) + ind + "]\n"@,
        TomlV::Table(t) => ind + "["@ + key + "]\n"@ + table_lines(t, ind + "  "@),
        TomlV::InlineTable(t) => ind + key + " = {"@ + inline_entries(t) + "}\n"@,
        TomlV::DateTime(d) => ind + key + " = "@ + d + "\n"@,
        TomlV::Nothing => Seq::empty(),
    }
}

/// The unnamed lines of array items.
pub open spec fn array_lines(items: Seq<TomlV>, ind: Seq<char>) -> Seq<char>
    decreases items,
{
    if items.len() == 0 {
        Seq::empty()
    } else {
        array_lines(items.drop_last(), ind) + line_text(ind, Seq::empty(), items.last())
    }
}

/// The lines of table entries.
pub open spec fn table_lines(es: Seq<(Seq<char>, TomlV)>, ind: Seq<char>) -> Seq<char>
    decreases es,
{
    if es.len() == 0 {
        Seq::empty()
    } else {
        table_lines(es.drop_last(), ind) + line_text(ind, es.last().0, es.last().1)
    }
}

/// A value written inside a line.
pub open spec fn inline_text(v: TomlV) -> Seq<char>
    decreases v,
{
    match v {
        TomlV::String(s) => "\""@ + s + "\""@,
        TomlV::Integer(i) => signed_decimal(i as int),
        TomlV::Float(t) => t,
        TomlV::Boolean(b) => bool_text(b),
        TomlV::Array(a) => "["@ + inline_items(a) + "]"@,
        TomlV::Table(t) => "{"@ + inline_entries(t) + "}"@,
        TomlV::InlineTable(t) => "{"@ + inline_entries(t) + "}"@,
        TomlV::DateTime(d) => d,
        TomlV::Nothing => Seq::empty(),
    }
}

/// Items written inside a line, separated by `, `.
pub open spec fn inline_items(items: Seq<TomlV>) -> Seq<char>
    decreases items,
{
    if items.len() == 0 {
        Seq::empty()
    } else if items.len() == 1 {
        inline_text(items[0])
    } else {
        inline_items(items.drop_last()) + ", "@ + inline_text(items.last())
    }
}

/// Entries written inside a line as `key = value`, separated by `, `.
pub open spec fn inline_entries(es: Seq<(Seq<char>, TomlV)>) -> Seq<char>
    decreases es,
{
    if es.len() == 0 {
        Seq::empty()
    } else if es.len() == 1 {
        es[0].0 + " = "@ + inline_text(es[0].1)
    } else {
        inline_entries(es.drop_last()) + ", "@ + es.last().0 + " = "@ + inline_text(es.last().1)
    }
}

/// The view of a value (a name for use in quantifiers).
pub open spec fn value_view_of(v: TomlValue) -> TomlV {
    v@
}

/// Appends a value written inside a line.
fn push_inline(out: &mut String, v: &TomlValue)
    ensures
        final(out)@ == old(out)@ + inline_text(v@),
    decreases v,
{
    let ghost o = out@;
    match v {
        TomlValue::String(s) => {
            string_push_str(out, "\"");
            string_push_str(out, s.as_str());
            string_push_str(out, "\"");
        },
        TomlValue::Integer(i) => {
            push_signed_decimal(out, *i);
        },
        TomlValue::Float(t) => {
            string_push_str(out, t.as_str());
        },
        TomlValue::Boolean(b) => {
            string_push_str(out, if *b { "true" } else { "false" });
        },
        TomlValue::Array(items) => {
            string_push_str(out, "[");
            let ghost start = out@;
            proof {
                lemma_list_view(items@);
            }
            let mut k: usize = 0;
            while k < items.len()
                invariant
                    *v == TomlValue::Array(*items),
                    k <= items@.len(),
                    list_view(items@).len() == items@.len(),
                    forall|j: int| 0 <= j < items@.len() ==> #[trigger] list_view(items@)[j] == value_view_of(items@[j]),
                    out@ == start + inline_items(list_view(items@).take(k as int)),
                decreases items@.len() - k,
            {
                let ghost before = out@;
                if k > 0 {
                    string_push_str(out, ", ");
                }
                proof {
                    assert(decreases_to!(*v => (*v)->Array_0));
                    assert((*v)->Array_0 == *items);
                    assert(decreases_to!(*items => items@));
                    assert(decreases_to!(items@ => items@[k as int]));
                }
                push_inline(out, &items[k]);
                proof {
                    let t = list_view(items@).take(k + 1);
                    assert(t.drop_last() =~= list_view(items@).take(k as int));
                    assert(t.last() == items@[k as int]@);
                    if k == 0 {
                        assert(t[0] == items@[0]@);
                    }
                }
                k = k + 1;
            }
            assert(list_view(items@).take(k as int) =~= list_view(items@));
            string_push_str(out, "]");
        },
        TomlValue::Table(es) | TomlValue::InlineTable(es) => {
            string_push_str(out, "{");
            push_inline_entries(out, v, es);
            string_push_str(out, "}");
        },
        TomlValue::DateTime(d) => {
            string_push_str(out, d.as_str());
        },
        TomlValue::Nothing => {},
    }
    proof {
        reveal_strlit("\"");
        reveal_strlit("true");
        reveal_strlit("false");
        reveal_strlit("[");
        reveal_strlit("]");
        reveal_strlit("{");
        reveal_strlit("}");
        assert(out@ =~= o + inline_text(v@));
    }
}

/// Appends the entries of a table inside a line.
fn push_inline_entries(out: &mut String, v: &TomlValue, es: &Vec<(String, TomlValue)>)
    requires
        *v == TomlValue::Table(*es) || *v == TomlValue::InlineTable(*es),
    ensures
        final(out)@ == old(out)@ + inline_entries(entries_view(es@)),
    decreases v, 0int,
{
    let ghost start = out@;
    proof {
        lemma_entries_view(es@);
    }
    let mut k: usize = 0;
    while k < es.len()
        invariant
            *v == TomlValue::Table(*es) || *v == TomlValue::InlineTable(*es),
            k <= es@.len(),
            entries_view(es@).len() == es@.len(),
            forall|j: int| 0 <= j < es@.len() ==> #[trigger] entries_view(es@)[j] == (es@[j].0@, value_view_of(es@[j].1)),
            out@ == start + inline_entries(entries_view(es@).take(k as int)),
        decreases es@.len() - k,
    {
        if k > 0 {
            string_push_str(out, ", ");
        }
        string_push_str(out, es[k].0.as_str());
        string_push_str(out, " = ");
        proof {
            if *v == TomlValue::Table(*es) {
                assert(decreases_to!(*v => (*v)->Table_0));
            } else {
                assert(decreases_to!(*v => (*v)->InlineTable_0));
            }
            assert(decreases_to!(*es => es@));
            assert(decreases_to!(es@ => es@[k as int]));
            assert(decreases_to!(es@[k as int] => es@[k as int].1));
        }
        push_inline(out, &es[k].1);
        proof {
            let t = entries_view(es@).take(k + 1);
            assert(t.drop_last() =~= entries_view(es@).take(k as int));
            assert(t.last() == (es@[k as int].0@, es@[k as int].1@));
            if k == 0 {
                assert(t[0] == (es@[0].0@, es@[0].1@));
            }
        }
        k = k + 1;
    }
    assert(entries_view(es@).take(k as int) =~= entries_view(es@));
}

/// Appends the line(s) of a named value.
fn push_line(out: &mut String, ind: &str, key: &str, v: &TomlValue)
    ensures
        final(out)@ == old(out)@ + line_text(ind@, key@, v@),
    decreases v,
{
    let ghost o = out@;
    match v {
        TomlValue::String(s) => {
            string_push_str(out, ind);
            string_push_str(out, key);
            string_push_str(out, " = \"");
            string_push_str(out, s.as_str());
            string_push_str(out, "\"\n");
        },
        TomlValue::Integer(i) => {
            string_push_str(out, ind);
            string_push_str(out, key);
            string_push_str(out, " = ");
            push_signed_decimal(out, *i);
            string_push_str(out, "\n");
        },
        TomlValue::Float(t) => {
            string_push_str(out, ind);
            string_push_str(out, key);
            string_push_str(out, " = ");
            string_push_str(out, t.as_str());
            string_push_str(out, "\n");
        },
        TomlValue::Boolean(b) => {
            string_push_str(out, ind);
            string_push_str(out, key);
            string_push_str(out, " = ");
            string_push_str(out, if *b { "true" } else { "false" });
            string_push_str(out, "\n");
        },
        TomlValue::Array(items) => {
            string_push_str(out, ind);
            string_push_str(out, key);
            string_push_str(out, " = [\n");
            let mut inner = owned(ind);
            string_push_str(&mut inner, "  ");
            let ghost start = out@;
            proof {
                lemma_list_view(items@);
            }
            let mut k: usize = 0;
            assert(list_view(items@).take(0) =~= Seq::<TomlV>::empty());
            while k < items.len()
                invariant
                    *v == TomlValue::Array(*items),
                    k <= items@.len(),
                    list_view(items@).len() == items@.len(),
                    forall|j: int| 0 <= j < items@.len() ==> #[trigger] list_view(items@)[j] == value_view_of(items@[j]),
                    out@ == start + array_lines(list_view(items@).take(k as int), inner@),
                decreases items@.len() - k,
            {
                proof {
                    assert(decreases_to!(*v => (*v)->Array_0));
                    assert((*v)->Array_0 == *items);
                    assert(decreases_to!(*items => items@));
                    assert(decreases_to!(items@ => items@[k as int]));
                }
                push_line(out, inner.as_str(), "", &items[k]);
                proof {
                    reveal_strlit("");
                    assert(""@ =~= Seq::<char>::empty());
                    let t = list_view(items@).take(k + 1);
                    assert(t.drop_last() =~= list_view(items@).take(k as int));
                    assert(t.last() == items@[k as int]@);
                }
                k = k + 1;
            }
            assert(list_view(items@).take(k as int) =~= list_view(items@));
            string_push_str(out, ind);
            string_push_str(out, "]\n");
        },
        TomlValue::Table(es) => {
            string_push_str(out, ind);
            string_push_str(out, "[");
            string_push_str(out, key);
            string_push_str(out, "]\n");
            let mut inner = owned(ind);
            string_push_str(&mut inner, "  ");
            let ghost start = out@;
            proof {
                lemma_entries_view(es@);
            }
            let mut k: usize = 0;
            assert(entries_view(es@).take(0) =~= Seq::<(Seq<char>, TomlV)>::empty());
            while k < es.len()
                invariant
                    *v == TomlValue::Table(*es),
                    k <= es@.len(),
                    entries_view(es@).len() == es@.len(),
                    forall|j: int| 0 <= j < es@.len() ==> #[trigger] entries_view(es@)[j] == (es@[j].0@, value_view_of(es@[j].1)),
                    out@ == start + table_lines(entries_view(es@).take(k as int), inner@),
                decreases es@.len() - k,
            {
                proof {
                    assert(decreases_to!(*v => (*v)->Table_0));
                    assert((*v)->Table_0 == *es);
                    assert(decreases_to!(*es => es@));
                    assert(decreases_to!(es@ => es@[k as int]));
                    assert(decreases_to!(es@[k as int] => es@[k as int].1));
                }
                push_line(out, inner.as_str(), es[k].0.as_str(), &es[k].1);
                proof {
                    let t = entries_view(es@).take(k + 1);
                    assert(t.drop_last() =~= entries_view(es@).take(k as int));
                    assert(t.last() == (es@[k as int].0@, es@[k as int].1@));
                }
                k = k + 1;
            }
            assert(entries_view(es@).take(k as int) =~= entries_view(es@));
        },
        TomlValue::InlineTable(es) => {
            string_push_str(out, ind);
            string_push_str(out, key);
            string_push_str(out, " = {");
            push_inline_entries(out, v, es);
            string_push_str(out, "}\n");
        },
        TomlValue::DateTime(d) => {
            string_push_str(out, ind);
            string_push_str(out, key);
            string_push_str(out, " = ");
            string_push_str(out, d.as_str());
            string_push_str(out, "\n");
        },
        TomlValue::Nothing => {},
    }
    proof {
        reveal_strlit(" = \"");
        reveal_strlit("\"\n");
        reveal_strlit(" = ");
        reveal_strlit("\n");
        reveal_strlit("true");
        reveal_strlit("false");
        reveal_strlit(" = [\n");
        reveal_strlit("]\n");
        reveal_strlit("[");
        reveal_strlit(" = {");
        reveal_strlit("}\n");
        reveal_strlit("  ");
        assert(out@ =~= o + line_text(ind@, key@, v@));
    }
}

impl TomlDocument {
    /// The document as text: the line(s) of each top-level entry in order.
    pub fn to_string(&self) -> (r: Result<String, TomlError>)
        ensures
            r matches Ok(t) && t@ == table_lines(self.entries(), Seq::empty()),
    {
        let mut out = String::new();
        proof {
            lemma_entries_view(self.values@);
            assert(entries_view(self.values@).take(0) =~= Seq::<(Seq<char>, TomlV)>::empty());
        }
        let mut k: usize = 0;
        while k < self.values.len()
            invariant
                k <= self.values@.len(),
                entries_view(self.values@).len() == self.values@.len(),
                forall|j: int| 0 <= j < self.values@.len() ==> #[trigger] entries_view(self.values@)[j] == (
                    self.values@[j].0@,
                    value_view_of(self.values@[j].1),
                ),
                out@ == table_lines(entries_view(self.values@).take(k as int), Seq::empty()),
            decreases self.values@.len() - k,
        {
            push_line(&mut out, "", self.values[k].0.as_str(), &self.values[k].1);
            proof {
                reveal_strlit("");
                assert(""@ =~= Seq::<char>::empty());
                let t = entries_view(self.values@).take(k + 1);
                assert(t.drop_last() =~= entries_view(self.values@).take(k as int));
                assert(t.last() == (self.values@[k as int].0@, self.values@[k as int].1@));
            }
            k = k + 1;
        }
        assert(entries_view(self.values@).take(k as int) =~= entries_view(self.values@));
        Ok(out)
    }
}

} // verus!
