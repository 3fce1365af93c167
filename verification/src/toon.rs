//! TOON support: the error type, the parser handle and Base64 coding of binary values.
use vstd::prelude::*;

pub mod value;
pub mod writer;
pub mod reader;
pub use self::value::{ToonDocument, ToonValue, ToonView};
pub use self::writer::to_string;
pub use self::reader::parse_str;

verus! {

/// Errors of TOON reading and writing.
#[derive(Debug, Clone)]
pub enum ToonError {
    ParseError(String),
    WriteError(String),
    InvalidFormat(String),
    MissingKey(String),
    InvalidValue(String),
}

/// Reads TOON documents.
pub struct ToonParser;

impl ToonParser {
    pub fn new() -> (r: Self) {
        ToonParser
    }
}

/// The Base64 alphabet: `A-Z`, `a-z`, `0-9`, `+`, `/`.
pub open spec fn b64_char(i: int) -> char {
    if i < 26 {
        (('A' as int) + i) as char
    } else if i < 52 {
        (('a' as int) + (i - 26)) as char
    } else if i < 62 {
        (('0' as int) + (i - 52)) as char
    } else if i == 62 {
        '+'
    } else {
        '/'
    }
}

/// The 6-bit value of an alphabet character, or -1.
pub open spec fn b64_value(c: char) -> int {
    if 'A' <= c && c <= 'Z' {
        (c as int) - ('A' as int)
    } else if 'a' <= c && c <= 'z' {
        (c as int) - ('a' as int) + 26
    } else if '0' <= c && c <= '9' {
        (c as int) - ('0' as int) + 52
    } else if c == '+' {
        62
    } else if c == '/' {
        63
    } else {
        -1
    }
}

/// Base64 text of a byte sequence: three bytes to four characters; a last
/// group of one or two bytes gives two or three characters, padded with `=`
/// to four.
pub open spec fn b64_encode_spec(d: Seq<u8>) -> Seq<char>
    decreases d.len(),
{
    if d.len() >= 3 {
        let b0 = d[0] as int;
        let b1 = d[1] as int;
        let b2 = d[2] as int;
        seq![b64_char(b0 / 4), b64_char((b0 % 4) * 16 + b1 / 16), b64_char((b1 % 16) * 4 + b2 / 64), b64_char(b2 % 64)]
            + b64_encode_spec(d.subrange(3, d.len() as int))
    } else if d.len() == 2 {
        let b0 = d[0] as int;
        let b1 = d[1] as int;
        seq![b64_char(b0 / 4), b64_char((b0 % 4) * 16 + b1 / 16), b64_char((b1 % 16) * 4), '=']
    } else if d.len() == 1 {
        let b0 = d[0] as int;
        seq![b64_char(b0 / 4), b64_char((b0 % 4) * 16), '=', '=']
    } else {
        Seq::empty()
    }
}

/// Bytes decoded from 6-bit values, four values giving three bytes; a final group
/// of three or two values gives two or one byte, a single value gives none.
pub open spec fn b64_decode_values(v: Seq<int>) -> Seq<u8>
    decreases v.len(),
{
    if v.len() >= 4 {
        seq![(v[0] * 4 + v[1] / 16) as u8, ((v[1] % 16) * 16 + v[2] / 4) as u8, ((v[2] % 4) * 64 + v[3]) as u8]
            + b64_decode_values(v.subrange(4, v.len() as int))
    } else if v.len() == 3 {
        seq![(v[0] * 4 + v[1] / 16) as u8, ((v[1] % 16) * 16 + v[2] / 4) as u8]
    } else if v.len() == 2 {
        seq![(v[0] * 4 + v[1] / 16) as u8]
    } else {
        Seq::empty()
    }
}

/// `s` without its trailing `=` characters.
pub open spec fn trim_padding(s: Seq<char>) -> Seq<char>
    decreases s.len(),
{
    if s.len() > 0 && s.last() == '=' {
        trim_padding(s.drop_last())
    } else {
        s
    }
}

/// What `decode` yields: the bytes, or an error when a character (other than trailing padding)
/// is not in the alphabet.
pub open spec fn b64_decode_spec(s: Seq<char>) -> Option<Seq<u8>> {
    let t = trim_padding(s);
    if forall|i: int| 0 <= i < t.len() ==> b64_value(#[trigger] t[i]) >= 0 {
        Some(b64_decode_values(t.map_values(|c: char| b64_value(c))))
    } else {
        None
    }
}

fn b64_char_exec(i: u8) -> (r: char)
    requires
        i < 64,
    ensures
        r == b64_char(i as int),
{
    if i < 26 {
        crate::strops::char_from_u32(('A' as u32) + (i as u32))
    } else if i < 52 {
        crate::strops::char_from_u32(('a' as u32) + (i as u32) - 26)
    } else if i < 62 {
        crate::strops::char_from_u32(('0' as u32) + (i as u32) - 52)
    } else if i == 62 {
        '+'
    } else {
        '/'
    }
}

fn b64_value_exec(c: char) -> (r: i32)
    ensures
        r == b64_value(c),
{
    if 'A' <= c && c <= 'Z' {
        ((c as u32) - ('A' as u32)) as i32
    } else if 'a' <= c && c <= 'z' {
        ((c as u32) - ('a' as u32) + 26) as i32
    } else if '0' <= c && c <= '9' {
        ((c as u32) - ('0' as u32) + 52) as i32
    } else if c == '+' {
        62
    } else if c == '/' {
        63
    } else {
        -1
    }
}

/// Base64 text of `data`, three bytes to four characters, the last group
/// padded with `=`.
pub fn encode(data: &[u8]) -> (r: String)
    ensures
        r@ == b64_encode_spec(data@),
{
    let mut result = String::new();
    let mut i: usize = 0;
    let n = data.len();
    assert(data@.subrange(0, n as int) =~= data@);
    while n - i >= 3
        invariant
            n == data@.len(),
            i <= n,
            result@ + b64_encode_spec(data@.subrange(i as int, n as int)) == b64_encode_spec(data@),
        decreases n - i,
    {
        let b0 = data[i];
        let b1 = data[i + 1];
        let b2 = data[i + 2];
        let ghost rest = data@.subrange(i as int, n as int);
        assert(rest[0] == b0 && rest[1] == b1 && rest[2] == b2);
        assert(rest.subrange(3, rest.len() as int) =~= data@.subrange(i + 3, n as int));
        let ghost before = result@;
        crate::text::string_push(&mut result, b64_char_exec(b0 / 4));
        crate::text::string_push(&mut result, b64_char_exec((b0 % 4) * 16 + b1 / 16));
        crate::text::string_push(&mut result, b64_char_exec((b1 % 16) * 4 + b2 / 64));
        crate::text::string_push(&mut result, b64_char_exec(b2 % 64));
        i = i + 3;
        assert(result@ + b64_encode_spec(data@.subrange(i as int, n as int)) =~= before + b64_encode_spec(rest));
    }
    let ghost rest = data@.subrange(i as int, n as int);
    let ghost before = result@;
    if n - i == 2 {
        let b0 = data[i];
        let b1 = data[i + 1];
        assert(rest[0] == b0 && rest[1] == b1);
        crate::text::string_push(&mut result, b64_char_exec(b0 / 4));
        crate::text::string_push(&mut result, b64_char_exec((b0 % 4) * 16 + b1 / 16));
        crate::text::string_push(&mut result, b64_char_exec((b1 % 16) * 4));
        crate::text::string_push(&mut result, '=');
    } else if n - i == 1 {
        let b0 = data[i];
        assert(rest[0] == b0);
        crate::text::string_push(&mut result, b64_char_exec(b0 / 4));
        crate::text::string_push(&mut result, b64_char_exec((b0 % 4) * 16));
        crate::text::string_push(&mut result, '=');
        crate::text::string_push(&mut result, '=');
    }
    assert(result@ =~= before + b64_encode_spec(rest));
    result
}

/// Bytes of a Base64 text; trailing `=` are ignored.
pub fn decode(encoded: &str) -> (r: Result<Vec<u8>, String>)
    ensures
        match r {
            Ok(bytes) => b64_decode_spec(encoded@) == Some(bytes@),
            Err(_) => b64_decode_spec(encoded@) is None,
        },
{
    let chars = crate::text::chars_of(encoded);
    let mut end = chars.len();
    assert(chars@.subrange(0, chars@.len() as int) =~= chars@);
    while end > 0 && chars[end - 1] == '='
        invariant
            end <= chars@.len(),
            trim_padding(chars@) == trim_padding(chars@.subrange(0, end as int)),
        decreases end,
    {
        assert(chars@.subrange(0, end as int).drop_last() =~= chars@.subrange(0, end - 1));
        end = end - 1;
    }
    let ghost t = chars@.subrange(0, end as int);
    assert(chars@.subrange(0, chars@.len() as int) =~= chars@);
    assert(trim_padding(t) == t);
    // the 6-bit values
    let mut vals: Vec<u32> = Vec::new();
    let mut k: usize = 0;
    while k < end
        invariant
            k <= end,
            end <= chars@.len(),
            t == chars@.subrange(0, end as int),
            t == trim_padding(encoded@),
            chars@ == encoded@,
            vals@.len() == k,
            forall|j: int| 0 <= j < k ==> b64_value(#[trigger] t[j]) >= 0 && vals@[j] as int == b64_value(t[j]),
        decreases end - k,
    {
        let v = b64_value_exec(chars[k]);
        if v < 0 {
            assert(b64_value(t[k as int]) < 0);
            return Err(crate::text::owned("Invalid base64 character"));
        }
        vals.push(v as u32);
        k = k + 1;
    }
    let ghost iv = t.map_values(|c: char| b64_value(c));
    assert(vals@.map_values(|x: u32| x as int) =~= iv);
    let mut result: Vec<u8> = Vec::new();
    let mut i: usize = 0;
    let m = vals.len();
    assert(iv.subrange(0, m as int) =~= iv);
    while i < m
        invariant
            m == vals@.len(),
            i <= m,
            iv == vals@.map_values(|x: u32| x as int),
            forall|j: int| 0 <= j < m ==> 0 <= #[trigger] iv[j] < 64,
            result@ + b64_decode_values(iv.subrange(i as int, m as int)) == b64_decode_values(iv),
        decreases m - i,
    {
        let ghost rest = iv.subrange(i as int, m as int);
        let ghost before = result@;
        let left = m - i;
        let v0 = vals[i];
        assert(iv[i as int] == v0 as int);
        assert(rest[0] == iv[i as int]);
        assert(0 <= iv[i as int] < 64);
        assert(v0 < 64 && rest[0] == v0);
        if left >= 2 {
            let v1 = vals[i + 1];
            assert(iv[i + 1] == v1 as int);
            assert(rest[1] == iv[i + 1]);
            assert(0 <= iv[i + 1] < 64);
            assert(v1 < 64 && rest[1] == v1);
            result.push((v0 * 4 + v1 / 16) as u8);
            if left >= 3 {
                let v2 = vals[i + 2];
                assert(iv[i + 2] == v2 as int);
                assert(rest[2] == iv[i + 2]);
                assert(0 <= iv[i + 2] < 64);
                assert(v2 < 64 && rest[2] == v2);
                result.push(((v1 % 16) * 16 + v2 / 4) as u8);
                if left >= 4 {
                    let v3 = vals[i + 3];
                    assert(iv[i + 3] == v3 as int);
                    assert(rest[3] == iv[i + 3]);
                    assert(0 <= iv[i + 3] < 64);
                    assert(v3 < 64 && rest[3] == v3);
                    result.push(((v2 % 4) * 64 + v3) as u8);
                    assert(rest.subrange(4, rest.len() as int) =~= iv.subrange(i + 4, m as int));
                    i = i + 4;
                    assert(result@ + b64_decode_values(iv.subrange(i as int, m as int)) =~= before + b64_decode_values(rest));
                } else {
                    i = m;
                    assert(iv.subrange(i as int, m as int) =~= Seq::<int>::empty());
                    assert(result@ + b64_decode_values(iv.subrange(i as int, m as int)) =~= before + b64_decode_values(rest));
                }
            } else {
                i = m;
                assert(iv.subrange(i as int, m as int) =~= Seq::<int>::empty());
                assert(result@ + b64_decode_values(iv.subrange(i as int, m as int)) =~= before + b64_decode_values(rest));
            }
        } else {
            i = m;
            assert(iv.subrange(i as int, m as int) =~= Seq::<int>::empty());
            assert(result@ + b64_decode_values(iv.subrange(i as int, m as int)) =~= before + b64_decode_values(rest));
        }
    }
    assert(iv.subrange(m as int, m as int) =~= Seq::<int>::empty());
    assert(result@ =~= b64_decode_values(iv));
    Ok(result)
}


/// The 6-bit values that encoding produces, padding aside.
pub open spec fn b64_indices(d: Seq<u8>) -> Seq<int>
    decreases d.len(),
{
    if d.len() >= 3 {
        let b0 = d[0] as int;
        let b1 = d[1] as int;
        let b2 = d[2] as int;
        seq![b0 / 4, (b0 % 4) * 16 + b1 / 16, (b1 % 16) * 4 + b2 / 64, b2 % 64]
            + b64_indices(d.subrange(3, d.len() as int))
    } else if d.len() == 2 {
        let b0 = d[0] as int;
        let b1 = d[1] as int;
        seq![b0 / 4, (b0 % 4) * 16 + b1 / 16, (b1 % 16) * 4]
    } else if d.len() == 1 {
        let b0 = d[0] as int;
        seq![b0 / 4, (b0 % 4) * 16]
    } else {
        Seq::empty()
    }
}

proof fn lemma_char_value(i: int)
    requires
        0 <= i < 64,
    ensures
        b64_value(b64_char(i)) == i,
        b64_char(i) != '=',
{
}

/// Encoding gives the characters of the 6-bit values followed by `=`
/// padding, and the values decode to the data.
proof fn lemma_encode_indices(d: Seq<u8>)
    ensures
        b64_encode_spec(d).len() >= b64_indices(d).len(),
        forall|j: int| 0 <= j < b64_indices(d).len() ==> 0 <= #[trigger] b64_indices(d)[j] < 64
            && b64_encode_spec(d)[j] == b64_char(b64_indices(d)[j]),
        forall|j: int| b64_indices(d).len() <= j < b64_encode_spec(d).len() ==> #[trigger] b64_encode_spec(d)[j] == '=',
        b64_indices(d).len() == 0 ==> b64_encode_spec(d).len() == 0,
        b64_decode_values(b64_indices(d)) == d,
    decreases d.len(),
{
    let b0 = d[0] as int;
    let b1 = d[1] as int;
    if d.len() >= 3 {
        let rest = d.subrange(3, d.len() as int);
        lemma_encode_indices(rest);
        let b2 = d[2] as int;
        let head = seq![b0 / 4, (b0 % 4) * 16 + b1 / 16, (b1 % 16) * 4 + b2 / 64, b2 % 64];
        let iv = b64_indices(d);
        assert(iv == head + b64_indices(rest));
        assert(iv.subrange(4, iv.len() as int) =~= b64_indices(rest));
        assert(((b0 / 4) * 4 + ((b0 % 4) * 16 + b1 / 16) / 16) as u8 == d[0]);
        assert(((((b0 % 4) * 16 + b1 / 16) % 16) * 16 + ((b1 % 16) * 4 + b2 / 64) / 4) as u8 == d[1]);
        assert(((((b1 % 16) * 4 + b2 / 64) % 4) * 64 + b2 % 64) as u8 == d[2]);
        assert(b64_decode_values(iv) =~= d);
        let e = b64_encode_spec(d);
        assert forall|j: int| b64_indices(d).len() <= j < e.len() implies #[trigger] e[j] == '=' by {
            assert(e[j] == b64_encode_spec(rest)[j - 4]);
        }
    } else if d.len() == 2 {
        assert(((b0 / 4) * 4 + ((b0 % 4) * 16 + b1 / 16) / 16) as u8 == d[0]);
        assert(((((b0 % 4) * 16 + b1 / 16) % 16) * 16 + ((b1 % 16) * 4) / 4) as u8 == d[1]);
        assert(b64_decode_values(b64_indices(d)) =~= d);
    } else if d.len() == 1 {
        assert(((b0 / 4) * 4 + ((b0 % 4) * 16) / 16) as u8 == d[0]);
        assert(b64_decode_values(b64_indices(d)) =~= d);
    } else {
        assert(d =~= Seq::<u8>::empty());
    }
}

/// Trailing `=` after text that does not end in `=` are all removed.
proof fn lemma_trim_padding_split(s: Seq<char>, k: int)
    requires
        0 <= k <= s.len(),
        k == 0 || s[k - 1] != '=',
        forall|j: int| k <= j < s.len() ==> #[trigger] s[j] == '=',
    ensures
        trim_padding(s) == s.subrange(0, k),
    decreases s.len(),
{
    if s.len() > k {
        assert(s.last() == '=');
        lemma_trim_padding_split(s.drop_last(), k);
        assert(s.drop_last().subrange(0, k) =~= s.subrange(0, k));
    } else {
        assert(s.subrange(0, k) =~= s);
    }
}

/// Decoding undoes encoding: `decode(encode(data))` gives `data` back for
/// every byte sequence.
pub proof fn lemma_base64_roundtrip(d: Seq<u8>)
    ensures
        b64_decode_spec(b64_encode_spec(d)) == Some(d),
{
    lemma_encode_indices(d);
    let e = b64_encode_spec(d);
    let iv = b64_indices(d);
    let k = iv.len() as int;
    if k > 0 {
        assert(0 <= iv[k - 1] < 64);
        lemma_char_value(iv[k - 1]);
    }
    lemma_trim_padding_split(e, k);
    let t = e.subrange(0, k);
    assert forall|j: int| 0 <= j < t.len() implies b64_value(#[trigger] t[j]) == iv[j] by {
        assert(0 <= iv[j] < 64);
        lemma_char_value(iv[j]);
    }
    assert(t.map_values(|c: char| b64_value(c)) =~= iv);
}

} // verus!
