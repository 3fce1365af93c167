//! Value names: constant operands and the names that passes make up.
use vstd::prelude::*;
use crate::text::{chars_of, string_from_chars, owned, string_push_str, push_signed_decimal, signed_decimal};
use crate::strops::sub_vec;
use crate::stdlib::conv::{parse_int_opt, parse_int_opt_spec};

verus! {

/// `s` begins with `p`.
pub open spec fn has_prefix(s: Seq<char>, p: Seq<char>) -> bool {
    p.len() <= s.len() && s.take(p.len() as int) == p
}

/// Whether `s` begins with `p`.
pub fn starts_with(s: &str, p: &str) -> (r: bool)
    ensures
        r == has_prefix(s@, p@),
{
    let sv = chars_of(s);
    let pv = chars_of(p);
    if pv.len() > sv.len() {
        return false;
    }
    let mut i: usize = 0;
    while i < pv.len()
        invariant
            pv@ == p@,
            sv@ == s@,
            pv@.len() <= sv@.len(),
            i <= pv@.len(),
            forall|j: int| 0 <= j < i ==> sv@[j] == pv@[j],
        decreases pv@.len() - i,
    {
        if sv[i] != pv[i] {
            assert(s@.take(p@.len() as int)[i as int] != p@[i as int]);
            return false;
        }
        i = i + 1;
    }
    assert(s@.take(p@.len() as int) =~= p@);
    true
}

/// The integer that the text after `p` in `s` spells in decimal, when `s`
/// begins with `p`.
pub open spec fn number_after(s: Seq<char>, p: Seq<char>) -> Option<i64> {
    if has_prefix(s, p) {
        match parse_int_opt_spec(s.skip(p.len() as int), 10) {
            Some(v) => Some(v as i64),
            None => None,
        }
    } else {
        None
    }
}

/// The integer after `p` in `s`, as `number_after`.
pub fn parse_number_after(s: &str, p: &str) -> (r: Option<i64>)
    ensures
        r == number_after(s@, p@),
{
    if !starts_with(s, p) {
        return None;
    }
    let sv = chars_of(s);
    let pv = chars_of(p);
    let rest_chars = sub_vec(&sv, pv.len(), sv.len());
    let rest = string_from_chars(&rest_chars);
    assert(rest@ =~= s@.skip(p@.len() as int));
    parse_int_opt(rest.as_str(), 10)
}

/// The text `p` followed by the decimal digits of `n`.
pub open spec fn numbered(p: Seq<char>, n: int) -> Seq<char> {
    p + signed_decimal(n)
}

/// `p` followed by the decimal digits of `n`.
pub fn make_numbered(p: &str, n: i64) -> (r: String)
    ensures
        r@ == numbered(p@, n as int),
{
    let mut s = owned(p);
    push_signed_decimal(&mut s, n);
    s
}

/// `a` followed by `b`.
pub fn concat(a: &str, b: &str) -> (r: String)
    ensures
        r@ == a@ + b@,
{
    let mut s = owned(a);
    string_push_str(&mut s, b);
    s
}

} // verus!
