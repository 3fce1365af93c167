//! Reading TOON text. The reader walks the bytes of the text; a byte of a
//! text value becomes the character with the same number.
use vstd::prelude::*;
use crate::text::{owned, string_push, string_push_str};
use super::value::{ToonDocument, ToonValue, ToonView, list_view, entries_view, lemma_list_view, lemma_entries_view};
use super::{b64_decode_spec, decode, ToonError, ToonParser};

verus! {

/// ASCII whitespace: space, tab, line feed, form feed, carriage return.
pub open spec fn is_ws(c: u8) -> bool {
    c == 0x20 || c == 0x09 || c == 0x0a || c == 0x0c || c == 0x0d
}

fn is_ws_exec(c: u8) -> (r: bool)
    ensures
        r == is_ws(c),
{
    c == 0x20 || c == 0x09 || c == 0x0a || c == 0x0c || c == 0x0d
}

pub open spec fn is_digit(c: u8) -> bool {
    0x30 <= c <= 0x39
}

/// The first position from `pos` on that is not whitespace.
pub open spec fn skip_ws(b: Seq<u8>, pos: int) -> int
    decreases b.len() - pos,
{
    if 0 <= pos < b.len() && is_ws(b[pos]) {
        skip_ws(b, pos + 1)
    } else {
        pos
    }
}

/// The position after the next line break from `pos` on, or the end.
pub open spec fn next_line(b: Seq<u8>, pos: int) -> int
    decreases b.len() - pos,
{
    if 0 <= pos < b.len() {
        if b[pos] == 0x0a || b[pos] == 0x0d {
            pos + 1
        } else {
            next_line(b, pos + 1)
        }
    } else {
        pos
    }
}

/// The first position from `pos` on that is not a digit.
pub open spec fn digits_end(b: Seq<u8>, pos: int) -> int
    decreases b.len() - pos,
{
    if 0 <= pos < b.len() && is_digit(b[pos]) {
        digits_end(b, pos + 1)
    } else {
        pos
    }
}

/// The first position from `pos` on that is whitespace, or the end.
pub open spec fn word_end(b: Seq<u8>, pos: int) -> int
    decreases b.len() - pos,
{
    if 0 <= pos < b.len() && !is_ws(b[pos]) {
        word_end(b, pos + 1)
    } else {
        pos
    }
}

pub proof fn lemma_skip_ws(b: Seq<u8>, pos: int)
    requires
        0 <= pos <= b.len(),
    ensures
        pos <= skip_ws(b, pos) <= b.len(),
        skip_ws(b, pos) < b.len() ==> !is_ws(b[skip_ws(b, pos)]),
    decreases b.len() - pos,
{
    if pos < b.len() && is_ws(b[pos]) {
        lemma_skip_ws(b, pos + 1);
    }
}

pub proof fn lemma_next_line(b: Seq<u8>, pos: int)
    requires
        0 <= pos <= b.len(),
    ensures
        pos <= next_line(b, pos) <= b.len(),
    decreases b.len() - pos,
{
    if pos < b.len() && !(b[pos] == 0x0a || b[pos] == 0x0d) {
        lemma_next_line(b, pos + 1);
    }
}

pub proof fn lemma_digits_end(b: Seq<u8>, pos: int)
    requires
        0 <= pos <= b.len(),
    ensures
        pos <= digits_end(b, pos) <= b.len(),
        forall|i: int| pos <= i < digits_end(b, pos) ==> is_digit(#[trigger] b[i]),
    decreases b.len() - pos,
{
    if pos < b.len() && is_digit(b[pos]) {
        lemma_digits_end(b, pos + 1);
    }
}

pub proof fn lemma_word_end(b: Seq<u8>, pos: int)
    requires
        0 <= pos <= b.len(),
    ensures
        pos <= word_end(b, pos) <= b.len(),
    decreases b.len() - pos,
{
    if pos < b.len() && !is_ws(b[pos]) {
        lemma_word_end(b, pos + 1);
    }
}

/// The decimal value of a digit sequence.
pub open spec fn dec_val(s: Seq<u8>) -> int
    decreases s.len(),
{
    if s.len() == 0 {
        0
    } else {
        dec_val(s.drop_last()) * 10 + (s.last() - 0x30)
    }
}

/// An optional `-` and at least one digit, read as a 64-bit integer when
/// it fits.
pub open spec fn parse_i64_spec(s: Seq<u8>) -> Option<i64> {
    let neg = s.len() > 0 && s[0] == 0x2d;
    let ds = if neg { s.drop_first() } else { s };
    let v = if neg { -dec_val(ds) } else { dec_val(ds) };
    if ds.len() == 0 || v < i64::MIN || v > i64::MAX {
        None
    } else {
        Some(v as i64)
    }
}

/// Bytes as characters of the same numbers.
pub open spec fn byte_chars(s: Seq<u8>) -> Seq<char> {
    s.map_values(|c: u8| c as char)
}

/// The outcome of reading: a value and the position after it, or an error
/// message.
pub type Read = Result<(ToonView, int), Seq<char>>;

/// Whether `w` stands at `pos`.
pub open spec fn word_at(b: Seq<u8>, pos: int, w: Seq<u8>) -> bool {
    pos + w.len() <= b.len() && b.subrange(pos, pos + w.len()) == w
}

/// The character an escape letter stands for.
pub open spec fn unescape(e: u8) -> Option<char> {
    if e == 0x22 {
        Some('"')
    } else if e == 0x5c {
        Some('\\')
    } else if e == 0x6e {
        Some('\n')
    } else if e == 0x72 {
        Some('\r')
    } else if e == 0x74 {
        Some('\t')
    } else {
        None
    }
}

/// A quoted text from `pos`, `acc` read so far.
pub open spec fn quoted(b: Seq<u8>, pos: int, acc: Seq<char>) -> Read
    decreases b.len() - pos,
{
    if pos < 0 || pos >= b.len() {
        Err("Unclosed string"@)
    } else {
        let c = b[pos];
        if c == 0x22 {
            Ok((ToonView::String(acc), pos + 1))
        } else if c == 0x5c {
            if pos + 1 >= b.len() {
                Err("Unclosed escape sequence"@)
            } else {
                match unescape(b[pos + 1]) {
                    Some(d) => quoted(b, pos + 2, acc.push(d)),
                    None => Err("Invalid escape sequence"@),
                }
            }
        } else {
            quoted(b, pos + 1, acc.push(c as char))
        }
    }
}

/// A block text from `pos`, `acc` read so far: whitespace is skipped, a
/// byte followed by whitespace ends the text (and is not kept), other bytes
/// are kept.
pub open spec fn block(b: Seq<u8>, pos: int, acc: Seq<char>) -> Read
    decreases b.len() - pos,
{
    if pos < 0 || pos >= b.len() {
        Err("Unclosed block string"@)
    } else {
        let c = b[pos];
        if is_ws(c) {
            block(b, pos + 1, acc)
        } else {
            let next = if pos + 1 < b.len() { b[pos + 1] } else { 0u8 };
            if is_ws(next) {
                Ok((ToonView::String(acc), pos + 1))
            } else {
                block(b, pos + 1, acc.push(c as char))
            }
        }
    }
}

/// An integer after `i` at `p`.
pub open spec fn read_int(b: Seq<u8>, p: int) -> Read {
    if p + 1 >= b.len() || b[p + 1] != 0x3a {
        Err("Expected ':' after 'i'"@)
    } else {
        let start = p + 2;
        let afters = if start < b.len() && b[start] == 0x2d { start + 1 } else { start };
        let end = digits_end(b, afters);
        match parse_i64_spec(b.subrange(start, end)) {
            Some(v) => Ok((ToonView::Integer(v), end)),
            None => Err("Invalid integer"@),
        }
    }
}

/// A text after `s` at `p`, with or without a `:` before its quote or bar.
pub open spec fn read_text(b: Seq<u8>, p: int) -> Read {
    let k = if p + 1 < b.len() && b[p + 1] == 0x3a { p + 2 } else { p + 1 };
    if k >= b.len() {
        Err("Unexpected end of input"@)
    } else if b[k] == 0x22 {
        quoted(b, k + 1, Seq::empty())
    } else if b[k] == 0x7c {
        block(b, k + 1, Seq::empty())
    } else {
        Err("Expected '\"' or '|' after 's'"@)
    }
}

/// Binary data after `b` at `p`.
pub open spec fn read_binary(b: Seq<u8>, p: int) -> Read {
    if p + 1 >= b.len() || b[p + 1] != 0x3a {
        Err("Expected ':' after 'b'"@)
    } else {
        let end = word_end(b, p + 2);
        match b64_decode_spec(byte_chars(b.subrange(p + 2, end))) {
            Some(d) => Ok((ToonView::Binary(d), end)),
            None => Err("Invalid base64 encoding"@),
        }
    }
}

/// A value from `pos`, after whitespace: `null`, `true`, `false`, `i:`,
/// `s"`, `s|`, `b:`, a list, a map, or a `#` comment line before a value;
/// nothing left reads as null.
pub open spec fn pv(b: Seq<u8>, pos: int) -> Read
    decreases b.len() - pos, 1int,
{
    if pos < 0 || pos > b.len() {
        Ok((ToonView::Null, pos))
    } else {
        proof {
            lemma_skip_ws(b, pos);
        }
        let p = skip_ws(b, pos);
        if p >= b.len() {
            Ok((ToonView::Null, p))
        } else {
            let c = b[p];
            if c == 0x6e {
                if word_at(b, p, seq![0x6eu8, 0x75, 0x6c, 0x6c]) { Ok((ToonView::Null, p + 4)) } else { Err("Expected 'null'"@) }
            } else if c == 0x74 {
                if word_at(b, p, seq![0x74u8, 0x72, 0x75, 0x65]) { Ok((ToonView::Bool(true), p + 4)) } else { Err("Expected 'true'"@) }
            } else if c == 0x66 {
                if word_at(b, p, seq![0x66u8, 0x61, 0x6c, 0x73, 0x65]) { Ok((ToonView::Bool(false), p + 5)) } else { Err("Expected 'false'"@) }
            } else if c == 0x69 {
                read_int(b, p)
            } else if c == 0x73 {
                read_text(b, p)
            } else if c == 0x62 {
                read_binary(b, p)
            } else if c == 0x5b {
                list_from(b, p + 1, Seq::empty())
            } else if c == 0x7b {
                map_from(b, p + 1, Seq::empty())
            } else if c == 0x23 {
                proof {
                    lemma_skip_ws(b, p + 1);
                }
                let q = skip_ws(b, p + 1);
                if q >= b.len() {
                    Ok((ToonView::Null, q))
                } else {
                    proof {
                        lemma_next_line(b, q + 1);
                    }
                    pv(b, next_line(b, q + 1))
                }
            } else {
                Err("Unexpected character: "@.push(c as char))
            }
        }
    }
}

/// List elements from `pos` up to `]`, `acc` read so far.
pub open spec fn list_from(b: Seq<u8>, pos: int, acc: Seq<ToonView>) -> Read
    decreases b.len() - pos, 2int,
{
    if pos < 0 || pos > b.len() {
        Err("Unclosed list"@)
    } else {
        proof {
            lemma_skip_ws(b, pos);
        }
        let q = skip_ws(b, pos);
        if q >= b.len() {
            Err("Unclosed list"@)
        } else if b[q] == 0x5d {
            Ok((ToonView::List(acc), q + 1))
        } else {
            match pv(b, q) {
                Err(e) => Err(e),
                Ok((v, r)) => if r <= q || r > b.len() {
                    Err("Unclosed list"@)
                } else {
                    list_from(b, r, acc.push(v))
                },
            }
        }
    }
}

/// The entries with `k` set to `v`: replaced where `k` already is, else
/// added at the end.
pub open spec fn put_entry(es: Seq<(Seq<char>, ToonView)>, k: Seq<char>, v: ToonView) -> Seq<(Seq<char>, ToonView)> {
    if exists|i: int| 0 <= i < es.len() && es[i].0 == k {
        let i = choose|i: int| 0 <= i < es.len() && es[i].0 == k;
        es.update(i, (k, v))
    } else {
        es.push((k, v))
    }
}

/// Map entries from `pos` up to `}`, `acc` read so far: a text key, `:`
/// and a value each; a later entry of a name replaces the earlier one.
pub open spec fn map_from(b: Seq<u8>, pos: int, acc: Seq<(Seq<char>, ToonView)>) -> Read
    decreases b.len() - pos, 2int,
{
    if pos < 0 || pos > b.len() {
        Err("Unclosed map"@)
    } else {
        proof {
            lemma_skip_ws(b, pos);
        }
        let q = skip_ws(b, pos);
        if q >= b.len() {
            Err("Unclosed map"@)
        } else if b[q] == 0x7d {
            Ok((ToonView::Mapping(acc), q + 1))
        } else {
            match pv(b, q) {
                Err(e) => Err(e),
                Ok((kv, r1)) => match kv {
                    ToonView::String(k) => if r1 <= q || r1 > b.len() {
                        Err("Unclosed map"@)
                    } else {
                        proof {
                            lemma_skip_ws(b, r1);
                        }
                        let s = skip_ws(b, r1);
                        if s >= b.len() || b[s] != 0x3a {
                            Err("Expected ':' after key"@)
                        } else {
                            proof {
                                lemma_skip_ws(b, s + 1);
                            }
                            let t = skip_ws(b, s + 1);
                            match pv(b, t) {
                                Err(e) => Err(e),
                                Ok((v, r2)) => if r2 <= q || r2 > b.len() {
                                    Err("Unclosed map"@)
                                } else {
                                    map_from(b, r2, put_entry(acc, k, v))
                                },
                            }
                        }
                    },
                    _ => Err("Map key must be a string"@),
                },
            }
        }
    }
}


/// The first position from `pos` on that holds whitespace or `:`, or the
/// end.
pub open spec fn key_end(b: Seq<u8>, pos: int) -> int
    decreases b.len() - pos,
{
    if 0 <= pos < b.len() && !is_ws(b[pos]) && b[pos] != 0x3a {
        key_end(b, pos + 1)
    } else {
        pos
    }
}

/// Whether a name of at least two bytes followed directly by `:` starts at
/// `q` (a single letter and `:` begins a tagged value).
pub open spec fn key_at(b: Seq<u8>, q: int) -> bool {
    0 <= q < b.len() && key_end(b, q) > q + 1 && key_end(b, q) < b.len() && b[key_end(b, q)] == 0x3a
}

pub proof fn lemma_key_end(b: Seq<u8>, pos: int)
    requires
        0 <= pos <= b.len(),
    ensures
        pos <= key_end(b, pos) <= b.len(),
    decreases b.len() - pos,
{
    if pos < b.len() && !is_ws(b[pos]) && b[pos] != 0x3a {
        lemma_key_end(b, pos + 1);
    }
}

/// `name: value` entries from `pos` to the end of the text, `acc` read so
/// far; a later entry of a name replaces the earlier one.
pub open spec fn top_map(b: Seq<u8>, pos: int, acc: Seq<(Seq<char>, ToonView)>) -> Read
    decreases b.len() - pos,
{
    if pos < 0 || pos > b.len() {
        Err("Expected key"@)
    } else {
        proof {
            lemma_skip_ws(b, pos);
        }
        let q = skip_ws(b, pos);
        if q >= b.len() {
            Ok((ToonView::Mapping(acc), q))
        } else if !key_at(b, q) {
            Err("Expected key"@)
        } else {
            let e = key_end(b, q);
            match pv(b, e + 1) {
                Err(m) => Err(m),
                Ok((v, r)) => if r <= q || r > b.len() {
                    Err("Expected key"@)
                } else {
                    top_map(b, r, put_entry(acc, byte_chars(b.subrange(q, e)), v))
                },
            }
        }
    }
}

/// What a document's text holds: the value at its start; where that cannot
/// be read but the text starts with `name:`, the `name: value` entries of
/// the whole text as a map, if they can be read; else the first error.
pub open spec fn doc_read(b: Seq<u8>) -> Read {
    match pv(b, 0) {
        Ok(x) => Ok(x),
        Err(m) => if key_at(b, skip_ws(b, 0)) {
            match top_map(b, 0, Seq::empty()) {
                Ok(x) => Ok(x),
                Err(_) => Err(m),
            }
        } else {
            Err(m)
        },
    }
}

proof fn lemma_quoted_pos(b: Seq<u8>, pos: int, acc: Seq<char>)
    requires
        0 <= pos,
    ensures
        quoted(b, pos, acc) matches Ok((_, r)) ==> pos < r <= b.len(),
    decreases b.len() - pos,
{
    if 0 <= pos < b.len() {
        let c = b[pos];
        if c == 0x5c && pos + 1 < b.len() {
            if let Some(d) = unescape(b[pos + 1]) {
                lemma_quoted_pos(b, pos + 2, acc.push(d));
            }
        } else if c != 0x22 && c != 0x5c {
            lemma_quoted_pos(b, pos + 1, acc.push(c as char));
        }
    }
}

proof fn lemma_block_pos(b: Seq<u8>, pos: int, acc: Seq<char>)
    requires
        0 <= pos,
    ensures
        block(b, pos, acc) matches Ok((_, r)) ==> pos < r <= b.len(),
    decreases b.len() - pos,
{
    if 0 <= pos < b.len() {
        let c = b[pos];
        if is_ws(c) {
            lemma_block_pos(b, pos + 1, acc);
        } else {
            let next = if pos + 1 < b.len() { b[pos + 1] } else { 0u8 };
            if !is_ws(next) {
                lemma_block_pos(b, pos + 1, acc.push(c as char));
            }
        }
    }
}

/// A value that is read ends after its first non-whitespace byte, within
/// the text.
pub proof fn lemma_pv_pos(b: Seq<u8>, pos: int)
    requires
        0 <= pos <= b.len(),
    ensures
        pv(b, pos) matches Ok((_, r)) ==> skip_ws(b, pos) <= r <= b.len() && (skip_ws(b, pos) < b.len() ==> skip_ws(b, pos) < r),
    decreases b.len() - pos, 1int,
{
    lemma_skip_ws(b, pos);
    let p = skip_ws(b, pos);
    if p < b.len() {
        let c = b[p];
        if c == 0x69 {
            if !(p + 1 >= b.len() || b[p + 1] != 0x3a) {
                let start = p + 2;
                let afters = if start < b.len() && b[start] == 0x2d { start + 1 } else { start };
                lemma_digits_end(b, afters);
            }
        } else if c == 0x73 {
            if p + 1 < b.len() {
                lemma_quoted_pos(b, p + 2, Seq::empty());
                lemma_block_pos(b, p + 2, Seq::empty());
                lemma_quoted_pos(b, p + 3, Seq::empty());
                lemma_block_pos(b, p + 3, Seq::empty());
            }
        } else if c == 0x62 {
            if !(p + 1 >= b.len() || b[p + 1] != 0x3a) {
                lemma_word_end(b, p + 2);
            }
        } else if c == 0x5b {
            lemma_list_pos(b, p + 1, Seq::empty());
        } else if c == 0x7b {
            lemma_map_pos(b, p + 1, Seq::empty());
        } else if c == 0x23 {
            lemma_skip_ws(b, p + 1);
            let q = skip_ws(b, p + 1);
            if q < b.len() {
                lemma_next_line(b, q + 1);
                let r0 = next_line(b, q + 1);
                lemma_pv_pos(b, r0);
                lemma_skip_ws(b, r0);
            }
        }
    }
}

proof fn lemma_list_pos(b: Seq<u8>, pos: int, acc: Seq<ToonView>)
    requires
        0 <= pos <= b.len(),
    ensures
        list_from(b, pos, acc) matches Ok((_, r)) ==> pos < r <= b.len(),
    decreases b.len() - pos, 2int,
{
    lemma_skip_ws(b, pos);
    let q = skip_ws(b, pos);
    if q < b.len() && b[q] != 0x5d {
        if let Ok((v, r)) = pv(b, q) {
            if !(r <= q || r > b.len()) {
                lemma_list_pos(b, r, acc.push(v));
            }
        }
    }
}

proof fn lemma_map_pos(b: Seq<u8>, pos: int, acc: Seq<(Seq<char>, ToonView)>)
    requires
        0 <= pos <= b.len(),
    ensures
        map_from(b, pos, acc) matches Ok((_, r)) ==> pos < r <= b.len(),
    decreases b.len() - pos, 2int,
{
    lemma_skip_ws(b, pos);
    let q = skip_ws(b, pos);
    if q < b.len() && b[q] != 0x7d {
        if let Ok((kv, r1)) = pv(b, q) {
            if let ToonView::String(k) = kv {
                if !(r1 <= q || r1 > b.len()) {
                    lemma_skip_ws(b, r1);
                    let s = skip_ws(b, r1);
                    if !(s >= b.len() || b[s] != 0x3a) {
                        lemma_skip_ws(b, s + 1);
                        let t = skip_ws(b, s + 1);
                        if let Ok((v, r2)) = pv(b, t) {
                            if !(r2 <= q || r2 > b.len()) {
                                lemma_map_pos(b, r2, put_entry(acc, k, v));
                            }
                        }
                    }
                }
            }
        }
    }
}


fn skip_ws_exec(b: &Vec<u8>, pos: usize) -> (r: usize)
    requires
        pos <= b@.len(),
    ensures
        r == skip_ws(b@, pos as int),
{
    let mut i = pos;
    while i < b.len() && is_ws_exec(b[i])
        invariant
            pos <= i <= b@.len(),
            skip_ws(b@, pos as int) == skip_ws(b@, i as int),
        decreases b@.len() - i,
    {
        i = i + 1;
    }
    i
}

fn next_line_exec(b: &Vec<u8>, pos: usize) -> (r: usize)
    requires
        pos <= b@.len(),
    ensures
        r == next_line(b@, pos as int),
{
    let mut i = pos;
    while i < b.len()
        invariant
            pos <= i <= b@.len(),
            next_line(b@, pos as int) == next_line(b@, i as int),
        decreases b@.len() - i,
    {
        if b[i] == 0x0a || b[i] == 0x0d {
            return i + 1;
        }
        i = i + 1;
    }
    i
}

fn digits_end_exec(b: &Vec<u8>, pos: usize) -> (r: usize)
    requires
        pos <= b@.len(),
    ensures
        r == digits_end(b@, pos as int),
{
    let mut i = pos;
    while i < b.len() && 0x30 <= b[i] && b[i] <= 0x39
        invariant
            pos <= i <= b@.len(),
            digits_end(b@, pos as int) == digits_end(b@, i as int),
        decreases b@.len() - i,
    {
        i = i + 1;
    }
    i
}

fn word_end_exec(b: &Vec<u8>, pos: usize) -> (r: usize)
    requires
        pos <= b@.len(),
    ensures
        r == word_end(b@, pos as int),
{
    let mut i = pos;
    while i < b.len() && !is_ws_exec(b[i])
        invariant
            pos <= i <= b@.len(),
            word_end(b@, pos as int) == word_end(b@, i as int),
        decreases b@.len() - i,
    {
        i = i + 1;
    }
    i
}

proof fn lemma_dec_val_grows(s: Seq<u8>, j: int)
    requires
        0 <= j <= s.len(),
        forall|i: int| 0 <= i < s.len() ==> is_digit(#[trigger] s[i]),
    ensures
        0 <= dec_val(s.take(j)) <= dec_val(s),
    decreases s.len() - j,
{
    if j < s.len() {
        lemma_dec_val_grows(s, j + 1);
        assert(s.take(j + 1).drop_last() =~= s.take(j));
    } else {
        assert(s.take(j) =~= s);
        lemma_dec_val_nonneg(s);
    }
}

proof fn lemma_dec_val_nonneg(s: Seq<u8>)
    requires
        forall|i: int| 0 <= i < s.len() ==> is_digit(#[trigger] s[i]),
    ensures
        dec_val(s) >= 0,
    decreases s.len(),
{
    if s.len() > 0 {
        lemma_dec_val_nonneg(s.drop_last());
    }
}

/// Reads the bytes from `start` to `end` as an integer.
fn parse_i64_exec(b: &Vec<u8>, start: usize, end: usize) -> (r: Option<i64>)
    requires
        start <= end <= b@.len(),
        forall|i: int| (if start < end && b@[start as int] == 0x2d { start + 1 } else { start as int }) <= i < end
            ==> is_digit(#[trigger] b@[i]),
    ensures
        r == parse_i64_spec(b@.subrange(start as int, end as int)),
{
    let ghost s = b@.subrange(start as int, end as int);
    let neg = start < end && b[start] == 0x2d;
    let first: usize = if neg { start + 1 } else { start };
    let ghost ds = if neg { s.drop_first() } else { s };
    assert(ds =~= b@.subrange(first as int, end as int));
    if first == end {
        return None;
    }
    let mut acc: i64 = 0;
    let mut k: usize = first;
    assert(ds.take(0) =~= Seq::<u8>::empty());
    while k < end
        invariant
            first <= k <= end,
            end <= b@.len(),
            s == b@.subrange(start as int, end as int),
            neg == (start < end && b@[start as int] == 0x2d),
            first == if neg { start + 1 } else { start as int },
            ds == (if neg { s.drop_first() } else { s }),
            ds == b@.subrange(first as int, end as int),
            forall|i: int| first <= i < end ==> is_digit(#[trigger] b@[i]),
            acc as int == if neg { -dec_val(ds.take(k - first)) } else { dec_val(ds.take(k - first)) },
        decreases end - k,
    {
        let d = (b[k] - 0x30) as i128;
        let ghost t = ds.take(k - first + 1);
        assert(t.drop_last() =~= ds.take(k - first));
        assert(t.last() == b@[k as int]);
        proof {
            assert forall|i: int| 0 <= i < ds.len() implies is_digit(#[trigger] ds[i]) by {
                assert(ds[i] == b@[first + i]);
            }
            lemma_dec_val_grows(ds, k - first);
            lemma_dec_val_grows(ds, k - first + 1);
        }
        let next: i128 = if neg { (acc as i128) * 10 - d } else { (acc as i128) * 10 + d };
        assert(dec_val(t) == dec_val(ds.take(k - first)) * 10 + (b@[k as int] - 0x30));
        assert(next == if neg { -dec_val(t) } else { dec_val(t) });
        if next < i64::MIN as i128 || next > i64::MAX as i128 {
            proof {
                lemma_dec_val_grows(ds, k - first + 1);
                assert(dec_val(ds) >= dec_val(t));
                if neg {
                    assert(s[0] == 0x2d);
                    assert(-dec_val(ds) < i64::MIN);
                } else {
                    assert(dec_val(ds) > i64::MAX);
                }
            }
            return None;
        }
        acc = next as i64;
        k = k + 1;
    }
    assert(ds.take(end - first) =~= ds);
    Some(acc)
}

/// The text of bytes as characters of the same numbers.
fn chars_of_bytes(b: &Vec<u8>, start: usize, end: usize) -> (r: String)
    requires
        start <= end <= b@.len(),
    ensures
        r@ == byte_chars(b@.subrange(start as int, end as int)),
{
    let mut out = String::new();
    let mut k = start;
    while k < end
        invariant
            start <= k <= end,
            end <= b@.len(),
            out@ == byte_chars(b@.subrange(start as int, k as int)),
        decreases end - k,
    {
        string_push(&mut out, b[k] as char);
        k = k + 1;
        assert(out@ =~= byte_chars(b@.subrange(start as int, k as int)));
    }
    out
}

fn unescape_exec(e: u8) -> (r: Option<char>)
    ensures
        r == unescape(e),
{
    if e == 0x22 {
        Some('"')
    } else if e == 0x5c {
        Some('\\')
    } else if e == 0x6e {
        Some('\n')
    } else if e == 0x72 {
        Some('\r')
    } else if e == 0x74 {
        Some('\t')
    } else {
        None
    }
}

/// The outcome of reading, as the exec result should be.
pub open spec fn read_matches(r: Result<(ToonValue, usize), String>, s: Read) -> bool {
    match s {
        Ok((v, q)) => r matches Ok((x, qq)) && x@ == v && qq as int == q,
        Err(m) => r matches Err(e) && e@ == m,
    }
}

fn read_quoted(b: &Vec<u8>, pos: usize) -> (r: Result<(ToonValue, usize), String>)
    requires
        pos <= b@.len(),
    ensures
        read_matches(r, quoted(b@, pos as int, Seq::empty())),
{
    let mut acc = String::new();
    let mut i = pos;
    while i < b.len()
        invariant
            pos <= i <= b@.len(),
            quoted(b@, pos as int, Seq::empty()) == quoted(b@, i as int, acc@),
        decreases b@.len() - i,
    {
        let c = b[i];
        if c == 0x22 {
            return Ok((ToonValue::String(acc), i + 1));
        }
        if c == 0x5c {
            if i + 1 >= b.len() {
                return Err(owned("Unclosed escape sequence"));
            }
            match unescape_exec(b[i + 1]) {
                Some(d) => {
                    string_push(&mut acc, d);
                    i = i + 2;
                },
                None => {
                    return Err(owned("Invalid escape sequence"));
                },
            }
        } else {
            string_push(&mut acc, c as char);
            i = i + 1;
        }
    }
    Err(owned("Unclosed string"))
}

fn read_block(b: &Vec<u8>, pos: usize) -> (r: Result<(ToonValue, usize), String>)
    requires
        pos <= b@.len(),
    ensures
        read_matches(r, block(b@, pos as int, Seq::empty())),
{
    let mut acc = String::new();
    let mut i = pos;
    while i < b.len()
        invariant
            pos <= i <= b@.len(),
            block(b@, pos as int, Seq::empty()) == block(b@, i as int, acc@),
        decreases b@.len() - i,
    {
        let c = b[i];
        if is_ws_exec(c) {
            i = i + 1;
        } else {
            let next: u8 = if i + 1 < b.len() { b[i + 1] } else { 0 };
            if is_ws_exec(next) {
                return Ok((ToonValue::String(acc), i + 1));
            }
            string_push(&mut acc, c as char);
            i = i + 1;
        }
    }
    Err(owned("Unclosed block string"))
}

fn read_int_exec(b: &Vec<u8>, p: usize) -> (r: Result<(ToonValue, usize), String>)
    requires
        p < b@.len(),
    ensures
        read_matches(r, read_int(b@, p as int)),
{
    let n = b.len();
    if n - p < 2 || b[p + 1] != 0x3a {
        return Err(owned("Expected ':' after 'i'"));
    }
    let start = p + 2;
    let afters = if start < b.len() && b[start] == 0x2d { start + 1 } else { start };
    let end = digits_end_exec(b, afters);
    proof {
        lemma_digits_end(b@, afters as int);
    }
    match parse_i64_exec(b, start, end) {
        Some(v) => Ok((ToonValue::Integer(v), end)),
        None => Err(owned("Invalid integer")),
    }
}

fn read_text_exec(b: &Vec<u8>, p: usize) -> (r: Result<(ToonValue, usize), String>)
    requires
        p < b@.len(),
    ensures
        read_matches(r, read_text(b@, p as int)),
{
    let n = b.len();
    let k = if n - p >= 2 && b[p + 1] == 0x3a { p + 2 } else { p + 1 };
    if k >= n {
        return Err(owned("Unexpected end of input"));
    }
    let c = b[k];
    if c == 0x22 {
        read_quoted(b, k + 1)
    } else if c == 0x7c {
        read_block(b, k + 1)
    } else {
        Err(owned("Expected '\"' or '|' after 's'"))
    }
}

fn read_binary_exec(b: &Vec<u8>, p: usize) -> (r: Result<(ToonValue, usize), String>)
    requires
        p < b@.len(),
    ensures
        read_matches(r, read_binary(b@, p as int)),
{
    let n = b.len();
    if n - p < 2 || b[p + 1] != 0x3a {
        return Err(owned("Expected ':' after 'b'"));
    }
    let end = word_end_exec(b, p + 2);
    proof {
        lemma_word_end(b@, p + 2);
    }
    let text = chars_of_bytes(b, p + 2, end);
    match decode(text.as_str()) {
        Ok(data) => Ok((ToonValue::Binary(data), end)),
        Err(_) => Err(owned("Invalid base64 encoding")),
    }
}

/// Whether the bytes of `w` stand at `p`.
fn word_at_exec(b: &Vec<u8>, p: usize, w: &[u8]) -> (r: bool)
    requires
        p <= b@.len(),
    ensures
        r == word_at(b@, p as int, w@),
{
    let n = b.len();
    if w.len() > n - p {
        return false;
    }
    let mut k: usize = 0;
    while k < w.len()
        invariant
            n == b@.len(),
            k <= w@.len(),
            p + w@.len() <= b@.len(),
            forall|j: int| 0 <= j < k ==> b@[p + j] == w@[j],
        decreases w@.len() - k,
    {
        if b[p + k] != w[k] {
            assert(b@.subrange(p as int, p + w@.len())[k as int] != w@[k as int]);
            return false;
        }
        k = k + 1;
    }
    assert(b@.subrange(p as int, p + w@.len()) =~= w@);
    true
}

fn parse_value(b: &Vec<u8>, pos: usize) -> (r: Result<(ToonValue, usize), String>)
    requires
        pos <= b@.len(),
    ensures
        read_matches(r, pv(b@, pos as int)),
    decreases b@.len() - pos, 1int,
{
    let p = skip_ws_exec(b, pos);
    proof {
        lemma_skip_ws(b@, pos as int);
    }
    if p >= b.len() {
        return Ok((ToonValue::Null, p));
    }
    let c = b[p];
    if c == 0x6e {
        let w: [u8; 4] = [0x6e, 0x75, 0x6c, 0x6c];
        assert(w@ =~= seq![0x6eu8, 0x75, 0x6c, 0x6c]);
        if word_at_exec(b, p, &w) { Ok((ToonValue::Null, p + 4)) } else { Err(owned("Expected 'null'")) }
    } else if c == 0x74 {
        let w: [u8; 4] = [0x74, 0x72, 0x75, 0x65];
        assert(w@ =~= seq![0x74u8, 0x72, 0x75, 0x65]);
        if word_at_exec(b, p, &w) { Ok((ToonValue::Bool(true), p + 4)) } else { Err(owned("Expected 'true'")) }
    } else if c == 0x66 {
        let w: [u8; 5] = [0x66, 0x61, 0x6c, 0x73, 0x65];
        assert(w@ =~= seq![0x66u8, 0x61, 0x6c, 0x73, 0x65]);
        if word_at_exec(b, p, &w) { Ok((ToonValue::Bool(false), p + 5)) } else { Err(owned("Expected 'false'")) }
    } else if c == 0x69 {
        read_int_exec(b, p)
    } else if c == 0x73 {
        read_text_exec(b, p)
    } else if c == 0x62 {
        read_binary_exec(b, p)
    } else if c == 0x5b {
        parse_list(b, p + 1)
    } else if c == 0x7b {
        parse_map(b, p + 1)
    } else if c == 0x23 {
        let q = skip_ws_exec(b, p + 1);
        proof {
            lemma_skip_ws(b@, p + 1);
        }
        if q >= b.len() {
            return Ok((ToonValue::Null, q));
        }
        let r0 = next_line_exec(b, q + 1);
        proof {
            lemma_next_line(b@, q + 1);
        }
        parse_value(b, r0)
    } else {
        let mut m = owned("Unexpected character: ");
        string_push(&mut m, c as char);
        Err(m)
    }
}

fn parse_list(b: &Vec<u8>, pos: usize) -> (r: Result<(ToonValue, usize), String>)
    requires
        pos <= b@.len(),
    ensures
        read_matches(r, list_from(b@, pos as int, Seq::empty())),
    decreases b@.len() - pos, 2int,
{
    let mut items: Vec<ToonValue> = Vec::new();
    let mut i = pos;
    assert(list_view(items@) =~= Seq::<ToonView>::empty());
    loop
        invariant
            pos <= i <= b@.len(),
            list_from(b@, pos as int, Seq::empty()) == list_from(b@, i as int, list_view(items@)),
        decreases b@.len() - i,
    {
        let q = skip_ws_exec(b, i);
        proof {
            lemma_skip_ws(b@, i as int);
        }
        if q >= b.len() {
            return Err(owned("Unclosed list"));
        }
        if b[q] == 0x5d {
            return Ok((ToonValue::List(items), q + 1));
        }
        proof {
            lemma_pv_pos(b@, q as int);
            lemma_skip_ws(b@, q as int);
        }
        match parse_value(b, q) {
            Err(e) => {
                return Err(e);
            },
            Ok((v, r)) => {
                let ghost before = items@;
                let ghost vv = v@;
                items.push(v);
                assert(items@.drop_last() =~= before);
                assert(list_view(items@) == list_view(before).push(vv));
                i = r;
            },
        }
    }
}

fn put_entry_exec(es: &mut Vec<(String, ToonValue)>, k: String, v: ToonValue)
    requires
        forall|i: int, j: int| 0 <= i < j < old(es)@.len() ==> old(es)@[i].0@ != old(es)@[j].0@,
    ensures
        forall|i: int, j: int| 0 <= i < j < final(es)@.len() ==> final(es)@[i].0@ != final(es)@[j].0@,
        entries_view(final(es)@) == put_entry(entries_view(old(es)@), k@, v@),
{
    let ghost ev = entries_view(es@);
    let ghost kv = k@;
    let ghost vv = v@;
    proof {
        lemma_entries_view(es@);
    }
    let mut i: usize = 0;
    while i < es.len()
        invariant
            i <= es@.len(),
            es@ == old(es)@,
            ev == entries_view(es@),
            ev.len() == es@.len(),
            kv == k@,
            vv == v@,
            forall|x: int, y: int| 0 <= x < y < es@.len() ==> es@[x].0@ != es@[y].0@,
            forall|j: int| 0 <= j < es@.len() ==> #[trigger] ev[j] == (es@[j].0@, es@[j].1@),
            forall|j: int| 0 <= j < i ==> es@[j].0@ != kv,
        decreases es@.len() - i,
    {
        if crate::text::str_eq(es[i].0.as_str(), k.as_str()) {
            let ghost old_es = es@;
            es.set(i, (k, v));
            proof {
                assert(ev[i as int].0 == kv);
                let c = choose|c: int| 0 <= c < ev.len() && ev[c].0 == kv;
                if c != i as int {
                    assert(old_es[c].0@ == kv);
                    if c < i {
                    } else {
                        assert(old_es[i as int].0@ != old_es[c].0@);
                    }
                }
                lemma_entries_view(es@);
                assert(entries_view(es@) =~= ev.update(i as int, (kv, vv)));
                assert forall|x: int, y: int| 0 <= x < y < es@.len() implies es@[x].0@ != es@[y].0@ by {
                    if x == i as int {
                        assert(old_es[y].0@ != old_es[x].0@);
                    } else if y == i as int {
                        assert(old_es[x].0@ != old_es[y].0@);
                    } else {
                        assert(old_es[x].0@ != old_es[y].0@);
                    }
                }
            }
            return;
        }
        i = i + 1;
    }
    let ghost old_es = es@;
    es.push((k, v));
    proof {
        assert(!(exists|c: int| 0 <= c < ev.len() && ev[c].0 == kv));
        lemma_entries_view(es@);
        assert(entries_view(es@) =~= ev.push((kv, vv)));
    }
}

fn parse_map(b: &Vec<u8>, pos: usize) -> (r: Result<(ToonValue, usize), String>)
    requires
        pos <= b@.len(),
    ensures
        read_matches(r, map_from(b@, pos as int, Seq::empty())),
    decreases b@.len() - pos, 2int,
{
    let mut es: Vec<(String, ToonValue)> = Vec::new();
    let mut i = pos;
    assert(entries_view(es@) =~= Seq::<(Seq<char>, ToonView)>::empty());
    loop
        invariant
            pos <= i <= b@.len(),
            forall|x: int, y: int| 0 <= x < y < es@.len() ==> es@[x].0@ != es@[y].0@,
            map_from(b@, pos as int, Seq::empty()) == map_from(b@, i as int, entries_view(es@)),
        decreases b@.len() - i,
    {
        let q = skip_ws_exec(b, i);
        proof {
            lemma_skip_ws(b@, i as int);
        }
        if q >= b.len() {
            return Err(owned("Unclosed map"));
        }
        if b[q] == 0x7d {
            return Ok((ToonValue::Mapping(es), q + 1));
        }
        proof {
            lemma_pv_pos(b@, q as int);
            lemma_skip_ws(b@, q as int);
        }
        let key = match parse_value(b, q) {
            Err(e) => {
                return Err(e);
            },
            Ok((kv, r1)) => match kv {
                ToonValue::String(k) => (k, r1),
                _ => {
                    return Err(owned("Map key must be a string"));
                },
            },
        };
        let (k, r1) = key;
        let s = skip_ws_exec(b, r1);
        proof {
            lemma_skip_ws(b@, r1 as int);
        }
        if s >= b.len() || b[s] != 0x3a {
            return Err(owned("Expected ':' after key"));
        }
        let t = skip_ws_exec(b, s + 1);
        proof {
            lemma_skip_ws(b@, s + 1);
            lemma_pv_pos(b@, t as int);
        }
        match parse_value(b, t) {
            Err(e) => {
                return Err(e);
            },
            Ok((v, r2)) => {
                put_entry_exec(&mut es, k, v);
                i = r2;
            },
        }
    }
}

fn key_end_exec(b: &Vec<u8>, pos: usize) -> (r: usize)
    requires
        pos <= b@.len(),
    ensures
        r == key_end(b@, pos as int),
{
    let mut i = pos;
    while i < b.len() && !is_ws_exec(b[i]) && b[i] != 0x3a
        invariant
            pos <= i <= b@.len(),
            key_end(b@, pos as int) == key_end(b@, i as int),
        decreases b@.len() - i,
    {
        i = i + 1;
    }
    i
}

fn key_at_exec(b: &Vec<u8>, q: usize) -> (r: bool)
    requires
        q <= b@.len(),
    ensures
        r == key_at(b@, q as int),
{
    if q >= b.len() {
        return false;
    }
    let e = key_end_exec(b, q);
    e > q && e - q > 1 && e < b.len() && b[e] == 0x3a
}

fn read_top_map(b: &Vec<u8>) -> (r: Result<(ToonValue, usize), String>)
    ensures
        read_matches(r, top_map(b@, 0, Seq::empty())),
{
    let mut es: Vec<(String, ToonValue)> = Vec::new();
    let mut i: usize = 0;
    assert(entries_view(es@) =~= Seq::<(Seq<char>, ToonView)>::empty());
    loop
        invariant
            i <= b@.len(),
            forall|x: int, y: int| 0 <= x < y < es@.len() ==> es@[x].0@ != es@[y].0@,
            top_map(b@, 0, Seq::empty()) == top_map(b@, i as int, entries_view(es@)),
        decreases b@.len() - i,
    {
        let q = skip_ws_exec(b, i);
        proof {
            lemma_skip_ws(b@, i as int);
        }
        if q >= b.len() {
            return Ok((ToonValue::Mapping(es), q));
        }
        if !key_at_exec(b, q) {
            return Err(owned("Expected key"));
        }
        let e = key_end_exec(b, q);
        proof {
            lemma_key_end(b@, q as int);
            lemma_pv_pos(b@, e + 1);
            lemma_skip_ws(b@, e + 1);
        }
        let k = chars_of_bytes(b, q, e);
        match parse_value(b, e + 1) {
            Err(m) => {
                return Err(m);
            },
            Ok((v, r)) => {
                put_entry_exec(&mut es, k, v);
                i = r;
            },
        }
    }
}

/// Reads what a document's text holds (see `doc_read`).
fn read_document(b: &Vec<u8>) -> (r: Result<(ToonValue, usize), String>)
    ensures
        read_matches(r, doc_read(b@)),
{
    match parse_value(b, 0) {
        Ok(x) => Ok(x),
        Err(m) => {
            let p = skip_ws_exec(b, 0);
            if key_at_exec(b, p) {
                match read_top_map(b) {
                    Ok(x) => Ok(x),
                    Err(_) => Err(m),
                }
            } else {
                Err(m)
            }
        },
    }
}

impl ToonParser {
    /// Reads a document from TOON text: the value at its start (null when
    /// there is none), or a map of `name: value` lines (see `doc_read`).
    /// Reading never records notes.
    pub fn parse_str(&self, content: &str) -> (r: Result<ToonDocument, ToonError>)
        ensures
            match doc_read(encode_text(content@)) {
                Ok((v, _)) => r matches Ok(d) && d.root@ == v && d.metadata@ == Map::<Seq<char>, String>::empty(),
                Err(m) => r matches Err(ToonError::ParseError(x)) && x@ == m,
            },
    {
        let b = vstd::slice::slice_to_vec(content.as_bytes());
        match read_document(&b) {
            Ok((v, _)) => Ok(ToonDocument { root: v, metadata: crate::strmap::StrMap::new() }),
            Err(m) => Err(ToonError::ParseError(m)),
        }
    }
}

/// The UTF-8 bytes of a text.
pub open spec fn encode_text(s: Seq<char>) -> Seq<u8> {
    vstd::utf8::encode_utf8(s)
}

/// Reads a document from TOON text (see `ToonParser::parse_str`).
pub fn parse_str(content: &str) -> (r: Result<ToonDocument, ToonError>)
    ensures
        match doc_read(encode_text(content@)) {
            Ok((v, _)) => r matches Ok(d) && d.root@ == v && d.metadata@ == Map::<Seq<char>, String>::empty(),
            Err(m) => r matches Err(ToonError::ParseError(x)) && x@ == m,
        },
{
    ToonParser::new().parse_str(content)
}

} // verus!
