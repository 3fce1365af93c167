//! Conversions between integers, booleans, characters and text; byte order;
//! Base64; HTML and JSON escaping.
use vstd::prelude::*;
use crate::text::{decimal, signed_decimal, string_push, string_push_str, owned, i64_to_string, chars_of, string_from_chars, str_eq};
use crate::strops::{replace_all_spec, replace_str, lower_char, to_lower_vec};
use crate::toon::{b64_char, b64_decode_spec};
use vstd::string::StringSliceAdditionalSpecFns;

verus! {

pub fn int_to_string(n: i64) -> (r: String)
    ensures
        r@ == signed_decimal(n as int),
{
    i64_to_string(n)
}

pub fn int_to_bool(n: i64) -> (r: bool)
    ensures
        r == (n != 0),
{
    n != 0
}

pub fn bool_to_string(b: bool) -> (r: String)
    ensures
        r@ == (if b { "true"@ } else { "false"@ }),
{
    if b { owned("true") } else { owned("false") }
}

pub fn bool_to_int(b: bool) -> (r: i64)
    ensures
        r == (if b { 1i64 } else { 0i64 }),
{
    if b { 1 } else { 0 }
}

/// Value of a digit character in `base` (2, 8, 10 or 16), or -1.
pub open spec fn digit_value(c: char, base: int) -> int {
    let v = if '0' <= c && c <= '9' {
        (c as int) - ('0' as int)
    } else if 'a' <= c && c <= 'f' {
        (c as int) - ('a' as int) + 10
    } else if 'A' <= c && c <= 'F' {
        (c as int) - ('A' as int) + 10
    } else {
        -1
    };
    if 0 <= v < base { v } else { -1 }
}

/// Whether every character is a digit in `base`.
pub open spec fn all_digits(s: Seq<char>, base: int) -> bool {
    forall|i: int| 0 <= i < s.len() ==> digit_value(#[trigger] s[i], base) >= 0
}

/// Value of a digit string, most significant digit first.
pub open spec fn digits_value(s: Seq<char>, base: int) -> int
    decreases s.len(),
{
    if s.len() == 0 { 0 } else { digits_value(s.drop_last(), base) * base + digit_value(s.last(), base) }
}

/// Text to integer: an optional '-' or '+', then at least one digit in
/// `base`, with a value in the 64-bit range; `None` for anything else.
pub open spec fn parse_int_opt_spec(s: Seq<char>, base: int) -> Option<int> {
    let neg = s.len() > 0 && s[0] == '-';
    let body = if s.len() > 0 && (s[0] == '-' || s[0] == '+') { s.drop_first() } else { s };
    if body.len() == 0 || !all_digits(body, base) {
        None
    } else {
        let v = if neg { -digits_value(body, base) } else { digits_value(body, base) };
        if i64::MIN <= v <= i64::MAX { Some(v) } else { None }
    }
}

/// Text to integer as `parse_int_opt_spec`, with 0 for text that is not an
/// integer.
pub open spec fn parse_int_spec(s: Seq<char>, base: int) -> int {
    match parse_int_opt_spec(s, base) {
        Some(v) => v,
        None => 0,
    }
}

fn digit_value_exec(c: char, base: u32) -> (r: i32)
    requires
        2 <= base <= 16,
    ensures
        r == digit_value(c, base as int),
{
    let v: i32 = if '0' <= c && c <= '9' {
        ((c as u32) - ('0' as u32)) as i32
    } else if 'a' <= c && c <= 'f' {
        ((c as u32) - ('a' as u32) + 10) as i32
    } else if 'A' <= c && c <= 'F' {
        ((c as u32) - ('A' as u32) + 10) as i32
    } else {
        -1
    };
    if 0 <= v && v < base as i32 { v } else { -1 }
}

proof fn lemma_digits_value_nonneg(s: Seq<char>, base: int)
    requires
        base >= 2,
        all_digits(s, base),
    ensures
        digits_value(s, base) >= 0,
    decreases s.len(),
{
    if s.len() > 0 {
        assert(all_digits(s.drop_last(), base)) by {
            assert forall|i: int| 0 <= i < s.drop_last().len() implies digit_value(#[trigger] s.drop_last()[i], base) >= 0 by {
                assert(s.drop_last()[i] == s[i]);
            }
        }
        lemma_digits_value_nonneg(s.drop_last(), base);
        assert(digit_value(s[s.len() - 1], base) >= 0);
        assert(digits_value(s.drop_last(), base) * base >= 0) by (nonlinear_arith)
            requires
                digits_value(s.drop_last(), base) >= 0,
                base >= 2,
        {
        }
    }
}

proof fn lemma_digits_value_prefix(s: Seq<char>, k: int, base: int)
    requires
        base >= 2,
        0 <= k <= s.len(),
        all_digits(s, base),
    ensures
        digits_value(s.subrange(0, k), base) <= digits_value(s, base),
    decreases s.len() - k,
{
    if k < s.len() {
        lemma_digits_value_prefix(s, k + 1, base);
        let p = s.subrange(0, k + 1);
        assert(p.drop_last() =~= s.subrange(0, k));
        assert(digit_value(s[k], base) >= 0);
        assert(all_digits(s.subrange(0, k), base)) by {
            assert forall|i: int| 0 <= i < k implies digit_value(#[trigger] s.subrange(0, k)[i], base) >= 0 by {
                assert(s.subrange(0, k)[i] == s[i]);
            }
        }
        lemma_digits_value_nonneg(s.subrange(0, k), base);
        let a = digits_value(s.subrange(0, k), base);
        assert(a <= a * base + digit_value(s[k], base)) by (nonlinear_arith)
            requires
                a >= 0,
                base >= 2,
                digit_value(s[k], base) >= 0,
        {
        }
    } else {
        assert(s.subrange(0, k) =~= s);
    }
}

/// Parses an integer in `base`: `None` unless the text is an optional sign
/// followed by digits whose value fits in 64 bits.
pub fn parse_int_opt(s: &str, base: u32) -> (r: Option<i64>)
    requires
        2 <= base <= 16,
    ensures
        r == (match parse_int_opt_spec(s@, base as int) {
            Some(v) => Some(v as i64),
            None => None::<i64>,
        }),
{
    let chars = chars_of(s);
    let n = chars.len();
    let neg = n > 0 && chars[0] == '-';
    let start: usize = if n > 0 && (chars[0] == '-' || chars[0] == '+') { 1 } else { 0 };
    let ghost body = if s@.len() > 0 && (s@[0] == '-' || s@[0] == '+') { s@.drop_first() } else { s@ };
    assert(body =~= chars@.subrange(start as int, n as int));
    if start >= n {
        return None;
    }
    let limit: i128 = 9223372036854775808;
    let mut acc: i128 = 0;
    let mut i = start;
    while i < n
        invariant
            start <= i <= n,
            n == chars@.len(),
            2 <= base <= 16,
            body == chars@.subrange(start as int, n as int),
            chars@ == s@,
            body == (if s@.len() > 0 && (s@[0] == '-' || s@[0] == '+') { s@.drop_first() } else { s@ }),
            all_digits(body.subrange(0, i - start), base as int),
            acc == digits_value(body.subrange(0, i - start), base as int),
            0 <= acc <= limit,
            limit == 9223372036854775808,
        decreases n - i,
    {
        let d = digit_value_exec(chars[i], base);
        let ghost pre = body.subrange(0, i - start);
        let ghost next = body.subrange(0, i + 1 - start);
        assert(next.drop_last() =~= pre);
        assert(next.last() == chars@[i as int]);
        if d < 0 {
            assert(!all_digits(body, base as int)) by {
                assert(body[i - start] == chars@[i as int]);
            }
            return None;
        }
        assert(acc * (base as i128) <= limit * 16) by (nonlinear_arith)
            requires
                0 <= acc <= limit,
                2 <= base <= 16,
        {
        }
        acc = acc * (base as i128) + (d as i128);
        assert(all_digits(next, base as int)) by {
            assert forall|j: int| 0 <= j < next.len() implies digit_value(#[trigger] next[j], base as int) >= 0 by {
                if j < next.len() - 1 {
                    assert(next[j] == pre[j]);
                }
            }
        }
        i = i + 1;
        if acc > limit {
            // a longer digit string only grows, so the value cannot fit
            proof {
                if all_digits(body, base as int) {
                    lemma_digits_value_prefix(body, i - start, base as int);
                }
            }
            return None;
        }
    }
    assert(body.subrange(0, n - start) =~= body);
    if neg {
        if acc == limit {
            Some(i64::MIN)
        } else {
            Some(-(acc as i64))
        }
    } else {
        if acc == limit {
            None
        } else {
            Some(acc as i64)
        }
    }
}

/// Parses an integer in `base` (0 when the text is not an integer).
pub fn parse_in_base(s: &str, base: u32) -> (r: i64)
    requires
        2 <= base <= 16,
    ensures
        r == parse_int_spec(s@, base as int),
{
    match parse_int_opt(s, base) {
        Some(v) => v,
        None => 0,
    }
}


/// Decimal text to integer (0 when the text is not an integer).
pub fn string_to_int(s: &str) -> (r: i64)
    ensures
        r == parse_int_spec(s@, 10),
{
    parse_in_base(s, 10)
}

pub fn hex_to_int(s: &str) -> (r: i64)
    ensures
        r == parse_int_spec(s@, 16),
{
    parse_in_base(s, 16)
}

pub fn octal_to_int(s: &str) -> (r: i64)
    ensures
        r == parse_int_spec(s@, 8),
{
    parse_in_base(s, 8)
}

pub fn binary_to_int(s: &str) -> (r: i64)
    ensures
        r == parse_int_spec(s@, 2),
{
    parse_in_base(s, 2)
}

/// True for `true`, `yes` and `1`, ignoring ASCII case.
pub fn string_to_bool(s: &str) -> (r: bool)
    ensures
        ({
            let lower = s@.map_values(|c: char| lower_char(c));
            r == (lower == "true"@ || lower == "yes"@ || lower == "1"@)
        }),
{
    let chars = chars_of(s);
    let lower = to_lower_vec(&chars);
    let ls = string_from_chars(&lower);
    str_eq(ls.as_str(), "true") || str_eq(ls.as_str(), "yes") || str_eq(ls.as_str(), "1")
}

/// Digit character of a value below 16 (lower-case letters).
pub open spec fn radix_char(d: int) -> char {
    if d < 10 { (('0' as int) + d) as char } else { (('a' as int) + (d - 10)) as char }
}

/// Digits of a natural number in `base`, most significant first.
pub open spec fn radix_digits(n: nat, base: nat) -> Seq<char>
    decreases n,
{
    if base < 2 || n < base {
        seq![radix_char(n as int)]
    } else {
        proof {
            assert(n / base < n) by (nonlinear_arith)
                requires
                    n >= base,
                    base >= 2,
            {
            }
        }
        radix_digits(n / base, base).push(radix_char((n % base) as int))
    }
}

/// Digits of an integer in `base`, with a leading '-' when negative.
pub open spec fn radix_text(n: int, base: nat) -> Seq<char> {
    if n < 0 { seq!['-'] + radix_digits((-n) as nat, base) } else { radix_digits(n as nat, base) }
}

fn push_radix(s: &mut String, n: u64, base: u64)
    requires
        2 <= base <= 16,
    ensures
        final(s)@ == old(s)@ + radix_digits(n as nat, base as nat),
    decreases n,
{
    if n >= base {
        assert(n / base < n) by (nonlinear_arith)
            requires
                n >= base,
                base >= 2,
        {
        }
        push_radix(s, n / base, base);
    }
    let d = n % base;
    let c = if d < 10 {
        crate::strops::char_from_u32(('0' as u32) + (d as u32))
    } else {
        crate::strops::char_from_u32(('a' as u32) + (d as u32) - 10)
    };
    assert(c == radix_char(d as int));
    let ghost mid = s@;
    string_push(s, c);
    proof {
        if n >= base {
            assert(mid == old(s)@ + radix_digits((n / base) as nat, base as nat));
            assert(radix_digits(n as nat, base as nat) == radix_digits((n / base) as nat, base as nat).push(radix_char(d as int)));
        }
        if n < base {
            vstd::arithmetic::div_mod::lemma_small_mod(n as nat, base as nat);
            assert(d == n);
            assert(radix_digits(n as nat, base as nat) =~= seq![radix_char(n as int)]);
        }
    }
    assert(s@ =~= old(s)@ + radix_digits(n as nat, base as nat));
}

/// Text of `n` in `base`.
pub fn int_to_base(n: i64, base: u64) -> (r: String)
    requires
        2 <= base <= 16,
    ensures
        r@ == radix_text(n as int, base as nat),
{
    let mut s = String::new();
    if n < 0 {
        string_push(&mut s, '-');
        let m: u64 = if n == i64::MIN { 9223372036854775808u64 } else { (-n) as u64 };
        push_radix(&mut s, m, base);
    } else {
        push_radix(&mut s, n as u64, base);
    }
    assert(s@ =~= radix_text(n as int, base as nat));
    s
}

pub fn int_to_hex(n: i64) -> (r: String)
    ensures
        r@ == radix_text(n as int, 16),
{
    int_to_base(n, 16)
}

pub fn int_to_octal(n: i64) -> (r: String)
    ensures
        r@ == radix_text(n as int, 8),
{
    int_to_base(n, 8)
}

pub fn int_to_binary(n: i64) -> (r: String)
    ensures
        r@ == radix_text(n as int, 2),
{
    int_to_base(n, 2)
}

/// The code point of the first character (0 for an empty string).
pub fn char_to_int(c: &str) -> (r: i64)
    ensures
        r == (if c@.len() > 0 { c@[0] as int } else { 0 }),
{
    if c.unicode_len() > 0 {
        let ch = c.get_char(0);
        (ch as u32) as i64
    } else {
        0
    }
}

/// Whether a code point is a Unicode scalar value.
pub open spec fn is_scalar(u: int) -> bool {
    (0 <= u < 0xD800) || (0xE000 <= u <= 0x10FFFF)
}

/// The character with a given code point (`char::from_u32`).
#[verifier::external_body]
pub fn char_from_code(u: u32) -> (r: Option<char>)
    ensures
        r is Some == is_scalar(u as int),
        r matches Some(c) ==> c as int == u as int,
{
    char::from_u32(u)
}

/// One-character text for a code point, or empty text when it is not a character.
pub fn int_to_char(n: i64) -> (r: String)
    ensures
        r@ == (if is_scalar(n as int) { seq![n as char] } else { Seq::<char>::empty() }),
{
    let mut s = String::new();
    if n >= 0 && n <= 0x10FFFF {
        match char_from_code(n as u32) {
            Some(c) => {
                string_push(&mut s, c);
                assert(s@ =~= seq![n as char]);
            },
            None => {},
        }
    }
    s
}

pub fn char_to_string(c: &str) -> (r: String)
    ensures
        r@ == c@,
{
    owned(c)
}

/// One string per character.
pub fn string_to_chars(s: &str) -> (r: Vec<String>)
    ensures
        r@.len() == s@.len(),
        forall|i: int| 0 <= i < s@.len() ==> #[trigger] r@[i]@ == seq![s@[i]],
{
    let chars = chars_of(s);
    let mut out: Vec<String> = Vec::new();
    let mut i: usize = 0;
    while i < chars.len()
        invariant
            i <= chars@.len(),
            chars@ == s@,
            out@.len() == i,
            forall|k: int| 0 <= k < i ==> #[trigger] out@[k]@ == seq![s@[k]],
        decreases chars.len() - i,
    {
        let mut one = String::new();
        string_push(&mut one, chars[i]);
        assert(one@ =~= seq![s@[i as int]]);
        out.push(one);
        i = i + 1;
    }
    out
}

/// Concatenation of all strings, in order.
pub open spec fn concat_all(v: Seq<Seq<char>>) -> Seq<char>
    decreases v.len(),
{
    if v.len() == 0 { Seq::empty() } else { concat_all(v.drop_last()) + v.last() }
}

pub fn chars_to_string(chars: &[String]) -> (r: String)
    ensures
        r@ == concat_all(chars@.map_values(|s: String| s@)),
{
    let mut out = String::new();
    let mut i: usize = 0;
    while i < chars.len()
        invariant
            i <= chars@.len(),
            out@ == concat_all(chars@.subrange(0, i as int).map_values(|s: String| s@)),
        decreases chars.len() - i,
    {
        string_push_str(&mut out, chars[i].as_str());
        let ghost v = chars@.subrange(0, i + 1).map_values(|s: String| s@);
        assert(v.drop_last() =~= chars@.subrange(0, i as int).map_values(|s: String| s@));
        i = i + 1;
    }
    assert(chars@.subrange(0, chars@.len() as int) =~= chars@);
    out
}

/// Swaps the two low bytes (the result lies in 0..=0xFFFF).
pub open spec fn swap16(n: u64) -> u64 {
    ((n & 0xff) << 8) | ((n >> 8) & 0xff)
}

/// Reverses the four low bytes (the result lies in 0..=0xFFFF_FFFF).
pub open spec fn swap32(n: u64) -> u64 {
    ((n & 0xff) << 24) | (((n >> 8) & 0xff) << 16) | (((n >> 16) & 0xff) << 8) | ((n >> 24) & 0xff)
}

/// Reverses all eight bytes.
pub open spec fn swap64(n: u64) -> u64 {
    ((n & 0xff) << 56) | (((n >> 8) & 0xff) << 48) | (((n >> 16) & 0xff) << 40) | (((n >> 24) & 0xff) << 32)
        | (((n >> 32) & 0xff) << 24) | (((n >> 40) & 0xff) << 16) | (((n >> 48) & 0xff) << 8) | ((n >> 56) & 0xff)
}

pub fn htons(n: i64) -> (r: i64)
    ensures
        r as int == swap16(n as u64) as int,
{
    let u = n as u64;
    let w = ((u & 0xff) << 8) | ((u >> 8) & 0xff);
    assert(w <= 0xffff) by (bit_vector)
        requires
            w == ((u & 0xff) << 8) | ((u >> 8) & 0xff),
    ;
    w as i64
}

pub fn ntohs(n: i64) -> (r: i64)
    ensures
        r as int == swap16(n as u64) as int,
{
    htons(n)
}

pub fn htonl(n: i64) -> (r: i64)
    ensures
        r as int == swap32(n as u64) as int,
{
    let u = n as u64;
    let w = ((u & 0xff) << 24) | (((u >> 8) & 0xff) << 16) | (((u >> 16) & 0xff) << 8) | ((u >> 24) & 0xff);
    assert(w <= 0xffff_ffff) by (bit_vector)
        requires
            w == ((u & 0xff) << 24) | (((u >> 8) & 0xff) << 16) | (((u >> 16) & 0xff) << 8) | ((u >> 24) & 0xff),
    ;
    w as i64
}

pub fn ntohl(n: i64) -> (r: i64)
    ensures
        r as int == swap32(n as u64) as int,
{
    htonl(n)
}

pub fn htonll(n: i64) -> (r: i64)
    ensures
        r as u64 == swap64(n as u64),
{
    let u = n as u64;
    let w = ((u & 0xff) << 56) | (((u >> 8) & 0xff) << 48) | (((u >> 16) & 0xff) << 40) | (((u >> 24) & 0xff) << 32)
        | (((u >> 32) & 0xff) << 24) | (((u >> 40) & 0xff) << 16) | (((u >> 48) & 0xff) << 8) | ((u >> 56) & 0xff);
    let r = w as i64;
    assert(r as u64 == w) by (bit_vector)
        requires
            r == w as i64,
    ;
    r
}

pub fn ntohll(n: i64) -> (r: i64)
    ensures
        r as u64 == swap64(n as u64),
{
    htonll(n)
}

/// Swapping the two low bytes twice gives back the low 16 bits.
pub proof fn lemma_swap16_involution(n: u64)
    ensures
        swap16(swap16(n)) == n & 0xffff,
{
    assert(swap16(swap16(n)) == n & 0xffff) by (bit_vector);
}

/// Reversing the four low bytes twice gives back the low 32 bits.
pub proof fn lemma_swap32_involution(n: u64)
    ensures
        swap32(swap32(n)) == n & 0xffff_ffff,
{
    assert(swap32(swap32(n)) == n & 0xffff_ffff) by (bit_vector);
}

/// Reversing all eight bytes twice gives the value back.
pub proof fn lemma_swap64_involution(n: u64)
    ensures
        swap64(swap64(n)) == n,
{
    assert(swap64(swap64(n)) == n) by (bit_vector);
}

/// Standard Base64 with `=` padding.
pub open spec fn b64_padded_spec(d: Seq<u8>) -> Seq<char>
    decreases d.len(),
{
    if d.len() >= 3 {
        let b0 = d[0] as int;
        let b1 = d[1] as int;
        let b2 = d[2] as int;
        seq![b64_char(b0 / 4), b64_char((b0 % 4) * 16 + b1 / 16), b64_char((b1 % 16) * 4 + b2 / 64), b64_char(b2 % 64)]
            + b64_padded_spec(d.subrange(3, d.len() as int))
    } else if d.len() == 2 {
        let b0 = d[0] as int;
        let b1 = d[1] as int;
        seq![b64_char(b0 / 4), b64_char((b0 % 4) * 16 + b1 / 16), b64_char((b1 % 16) * 4), '=']
    } else if d.len() == 1 {
        let b0 = d[0] as int;
        seq![b64_char(b0 / 4), b64_char((b0 % 4) * 16), '=', '=']
    } else {
        Seq::empty()
    }
}

fn b64_char_exec(i: u8) -> (r: char)
    requires
        i < 64,
    ensures
        r == b64_char(i as int),
{
    if i < 26 {
        crate::strops::char_from_u32(('A' as u32) + (i as u32))
    } else if i < 52 {
        crate::strops::char_from_u32(('a' as u32) + (i as u32) - 26)
    } else if i < 62 {
        crate::strops::char_from_u32(('0' as u32) + (i as u32) - 52)
    } else if i == 62 {
        '+'
    } else {
        '/'
    }
}

/// Base64 text (with padding) of a byte slice.
pub fn base64_encode_bytes(data: &[u8]) -> (r: String)
    ensures
        r@ == b64_padded_spec(data@),
{
    let mut result = String::new();
    let mut i: usize = 0;
    let n = data.len();
    assert(data@.subrange(0, n as int) =~= data@);
    while i < n
        invariant
            n == data@.len(),
            i <= n,
            result@ + b64_padded_spec(data@.subrange(i as int, n as int)) == b64_padded_spec(data@),
        decreases n - i,
    {
        let ghost rest = data@.subrange(i as int, n as int);
        let ghost before = result@;
        let b0 = data[i];
        assert(rest[0] == b0);
        if n - i >= 3 {
            let b1 = data[i + 1];
            let b2 = data[i + 2];
            assert(rest[1] == b1 && rest[2] == b2);
            assert(rest.subrange(3, rest.len() as int) =~= data@.subrange(i + 3, n as int));
            string_push(&mut result, b64_char_exec(b0 / 4));
            string_push(&mut result, b64_char_exec((b0 % 4) * 16 + b1 / 16));
            string_push(&mut result, b64_char_exec((b1 % 16) * 4 + b2 / 64));
            string_push(&mut result, b64_char_exec(b2 % 64));
            i = i + 3;
        } else if n - i == 2 {
            let b1 = data[i + 1];
            assert(rest[1] == b1);
            string_push(&mut result, b64_char_exec(b0 / 4));
            string_push(&mut result, b64_char_exec((b0 % 4) * 16 + b1 / 16));
            string_push(&mut result, b64_char_exec((b1 % 16) * 4));
            string_push(&mut result, '=');
            i = n;
        } else {
            string_push(&mut result, b64_char_exec(b0 / 4));
            string_push(&mut result, b64_char_exec((b0 % 4) * 16));
            string_push(&mut result, '=');
            string_push(&mut result, '=');
            i = n;
        }
        assert(data@.subrange(n as int, n as int) =~= Seq::<u8>::empty());
        assert(result@ + b64_padded_spec(data@.subrange(i as int, n as int)) =~= before + b64_padded_spec(rest));
    }
    assert(data@.subrange(n as int, n as int) =~= Seq::<u8>::empty());
    assert(result@ =~= b64_padded_spec(data@));
    result
}

/// Base64 text of the UTF-8 bytes of a string.
pub fn base64_encode(data: &str) -> (r: String)
    ensures
        r@ == b64_padded_spec(data.spec_bytes()),
{
    base64_encode_bytes(data.as_bytes())
}

/// Bytes of a Base64 text (empty when the text is not valid Base64).
pub fn base64_decode_to_bytes(s: &str) -> (r: Vec<u8>)
    ensures
        r@ == match b64_decode_spec(s@) {
            Some(b) => b,
            None => Seq::empty(),
        },
{
    match crate::toon::decode(s) {
        Ok(b) => b,
        Err(_) => Vec::new(),
    }
}

/// HTML escaping: `&`, `<`, `>`, `"` and `'` become entities (in that order).
pub open spec fn html_escape_spec(s: Seq<char>) -> Seq<char> {
    replace_all_spec(replace_all_spec(replace_all_spec(replace_all_spec(replace_all_spec(
        s, "&"@, "&amp;"@), "<"@, "&lt;"@), ">"@, "&gt;"@), "\""@, "&quot;"@), "'"@, "&#39;"@)
}

pub open spec fn html_unescape_spec(s: Seq<char>) -> Seq<char> {
    replace_all_spec(replace_all_spec(replace_all_spec(replace_all_spec(replace_all_spec(
        s, "&amp;"@, "&"@), "&lt;"@, "<"@), "&gt;"@, ">"@), "&quot;"@, "\""@), "&#39;"@, "'"@)
}

pub fn html_escape(s: &str) -> (r: String)
    ensures
        r@ == html_escape_spec(s@),
{
    let r1 = replace_str(s, "&", "&amp;");
    let r2 = replace_str(r1.as_str(), "<", "&lt;");
    let r3 = replace_str(r2.as_str(), ">", "&gt;");
    let r4 = replace_str(r3.as_str(), "\"", "&quot;");
    replace_str(r4.as_str(), "'", "&#39;")
}

pub fn html_unescape(s: &str) -> (r: String)
    ensures
        r@ == html_unescape_spec(s@),
{
    let r1 = replace_str(s, "&amp;", "&");
    let r2 = replace_str(r1.as_str(), "&lt;", "<");
    let r3 = replace_str(r2.as_str(), "&gt;", ">");
    let r4 = replace_str(r3.as_str(), "&quot;", "\"");
    replace_str(r4.as_str(), "&#39;", "'")
}

/// JSON escaping of backslash, quote, newline, carriage return and tab.
pub open spec fn json_escape_spec(s: Seq<char>) -> Seq<char> {
    replace_all_spec(replace_all_spec(replace_all_spec(replace_all_spec(replace_all_spec(
        s, "\\"@, "\\\\"@), "\""@, "\\\""@), "\n"@, "\\n"@), "\r"@, "\\r"@), "\t"@, "\\t"@)
}

pub open spec fn json_unescape_spec(s: Seq<char>) -> Seq<char> {
    replace_all_spec(replace_all_spec(replace_all_spec(replace_all_spec(replace_all_spec(replace_all_spec(
        s, "\\\\"@, "\u{FFFF}"@), "\\\""@, "\""@), "\\n"@, "\n"@), "\\r"@, "\r"@), "\\t"@, "\t"@), "\u{FFFF}"@, "\\"@)
}

pub fn json_escape(s: &str) -> (r: String)
    ensures
        r@ == json_escape_spec(s@),
{
    let r1 = replace_str(s, "\\", "\\\\");
    let r2 = replace_str(r1.as_str(), "\"", "\\\"");
    let r3 = replace_str(r2.as_str(), "\n", "\\n");
    let r4 = replace_str(r3.as_str(), "\r", "\\r");
    replace_str(r4.as_str(), "\t", "\\t")
}

pub fn json_unescape(s: &str) -> (r: String)
    ensures
        r@ == json_unescape_spec(s@),
{
    let r1 = replace_str(s, "\\\\", "\u{FFFF}");
    let r2 = replace_str(r1.as_str(), "\\\"", "\"");
    let r3 = replace_str(r2.as_str(), "\\n", "\n");
    let r4 = replace_str(r3.as_str(), "\\r", "\r");
    let r5 = replace_str(r4.as_str(), "\\t", "\t");
    replace_str(r5.as_str(), "\u{FFFF}", "\\")
}

/// 36 characters with dashes at positions 8, 13, 18 and 23.
pub fn uuid_parse(s: &str) -> (r: bool)
    ensures
        r == (s@.len() == 36 && s@[8] == '-' && s@[13] == '-' && s@[18] == '-' && s@[23] == '-'),
{
    s.unicode_len() == 36 && s.get_char(8) == '-' && s.get_char(13) == '-' && s.get_char(18) == '-' && s.get_char(23) == '-'
}

} // verus!
