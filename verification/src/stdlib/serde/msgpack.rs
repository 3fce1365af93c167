//! MessagePack bytes of values, and values read back from such bytes.
use vstd::prelude::*;
use vstd::utf8::{encode_utf8, valid_utf8, decode_utf8};
use crate::text::owned;
use super::{Value, ValueView, array_view, object_view, lemma_array_view, lemma_object_view};

verus! {

/// The low byte of `n`.
pub open spec fn low(n: int) -> u8 {
    (n % 256) as u8
}

/// The big-endian bytes of a 64-bit pattern.
pub open spec fn be64(bits: u64) -> Seq<u8> {
    seq![
        low((bits / 0x100_0000_0000_0000) as int),
        low((bits / 0x1_0000_0000_0000) as int),
        low((bits / 0x100_0000_0000) as int),
        low((bits / 0x1_0000_0000) as int),
        low((bits / 0x100_0000) as int),
        low((bits / 0x1_0000) as int),
        low((bits / 0x100) as int),
        low(bits as int),
    ]
}

/// The head of a text of `len` bytes: one byte below 32, two below 256,
/// else a marker and the low 16 bits of the length.
pub open spec fn str_head(len: int) -> Seq<u8> {
    if len < 32 {
        seq![(0xA0 + len) as u8]
    } else if len < 256 {
        seq![0xD9u8, len as u8]
    } else {
        seq![0xDAu8, low((len / 256) as int), low(len)]
    }
}

/// The bytes of a text: its length head and its UTF-8 bytes.
pub open spec fn ser_text(s: Seq<char>) -> Seq<u8> {
    str_head(encode_utf8(s).len() as int) + encode_utf8(s)
}

/// The bytes of a value: a positive integer in one, two, three or five
/// bytes (its low 32 bits), a negative one as `0xD0` and its low byte, a
/// double as `0xCB` and its bits, a text with its length head and UTF-8
/// bytes, an array with its length head and elements, an object as `0xDF`,
/// a 16-bit count and its names and values.
pub open spec fn ser(v: ValueView) -> Seq<u8>
    decreases v,
{
    match v {
        ValueView::Null => seq![0xC0u8],
        ValueView::Bool(b) => if b { seq![0xC3u8] } else { seq![0xC2u8] },
        ValueView::Int(n) => if n >= 0 {
            if n <= 127 {
                seq![n as u8]
            } else if n <= 255 {
                seq![0xCCu8, n as u8]
            } else if n <= 65535 {
                seq![0xCDu8, low((n / 256) as int), low(n as int)]
            } else {
                seq![0xCEu8, low((n / 0x100_0000) as int), low((n / 0x1_0000) as int), low((n / 0x100) as int), low(n as int)]
            }
        } else {
            seq![0xD0u8, low(n as int)]
        },
        ValueView::Float(f) => seq![0xCBu8] + be64(f),
        ValueView::String(s) => ser_text(s),
        ValueView::Array(items) => (if items.len() < 16 {
            seq![(0x90 + items.len()) as u8]
        } else {
            seq![0xDCu8, low((items.len() / 256) as int), low(items.len() as int)]
        }) + ser_items(items),
        ValueView::Object(es) => seq![0xDFu8, low((es.len() / 256) as int), low(es.len() as int)] + ser_entries(es),
    }
}

pub open spec fn ser_items(items: Seq<ValueView>) -> Seq<u8>
    decreases items,
{
    if items.len() == 0 {
        Seq::empty()
    } else {
        ser_items(items.drop_last()) + ser(items.last())
    }
}

pub open spec fn ser_entries(es: Seq<(Seq<char>, ValueView)>) -> Seq<u8>
    decreases es,
{
    if es.len() == 0 {
        Seq::empty()
    } else {
        ser_entries(es.drop_last()) + ser_text(es.last().0) + ser(es.last().1)
    }
}

fn push_low(out: &mut Vec<u8>, n: u64)
    ensures
        final(out)@ == old(out)@.push(low(n as int)),
{
    out.push((n % 256) as u8);
}

fn push_text(out: &mut Vec<u8>, s: &String)
    ensures
        final(out)@ == old(out)@ + ser_text(s@),
{
    let bytes = s.as_str().as_bytes();
    let len = bytes.len();
    if len < 32 {
        out.push((0xA0 + len) as u8);
    } else if len < 256 {
        out.push(0xD9);
        out.push(len as u8);
    } else {
        out.push(0xDA);
        push_low(out, (len / 256) as u64);
        push_low(out, len as u64);
    }
    let ghost head = out@;
    let mut k: usize = 0;
    while k < len
        invariant
            k <= len,
            len == bytes@.len(),
            out@ == head + bytes@.subrange(0, k as int),
        decreases len - k,
    {
        out.push(bytes[k]);
        k = k + 1;
        assert(out@ =~= head + bytes@.subrange(0, k as int));
    }
    assert(bytes@.subrange(0, len as int) =~= bytes@);
    assert(out@ =~= old(out)@ + ser_text(s@));
}

fn push_value(out: &mut Vec<u8>, v: &Value)
    ensures
        final(out)@ == old(out)@ + ser(v@),
    decreases v,
{
    match v {
        Value::Null => {
            out.push(0xC0);
        },
        Value::Bool(b) => {
            out.push(if *b { 0xC3 } else { 0xC2 });
        },
        Value::Int(n) => {
            let n = *n;
            if n >= 0 {
                if n <= 127 {
                    out.push(n as u8);
                } else if n <= 255 {
                    out.push(0xCC);
                    out.push(n as u8);
                } else if n <= 65535 {
                    out.push(0xCD);
                    push_low(out, (n / 256) as u64);
                    push_low(out, n as u64);
                } else {
                    out.push(0xCE);
                    push_low(out, (n / 0x100_0000) as u64);
                    push_low(out, (n / 0x1_0000) as u64);
                    push_low(out, (n / 0x100) as u64);
                    push_low(out, n as u64);
                }
            } else {
                out.push(0xD0);
                let m: i128 = (n as i128) + 0x1_0000_0000_0000_0000i128;
                let b = (m % 256) as u8;
                assert(m % 256 == (n as int) % 256);
                out.push(b);
            }
        },
        Value::Float(f) => {
            let f = *f;
            out.push(0xCB);
            push_low(out, f / 0x100_0000_0000_0000);
            push_low(out, f / 0x1_0000_0000_0000);
            push_low(out, f / 0x100_0000_0000);
            push_low(out, f / 0x1_0000_0000);
            push_low(out, f / 0x100_0000);
            push_low(out, f / 0x1_0000);
            push_low(out, f / 0x100);
            push_low(out, f);
        },
        Value::String(s) => {
            push_text(out, s);
        },
        Value::Array(items) => {
            let len = items.len();
            if len < 16 {
                out.push((0x90 + len) as u8);
            } else {
                out.push(0xDC);
                push_low(out, (len / 256) as u64);
                push_low(out, len as u64);
            }
            proof {
                lemma_array_view(items@);
            }
            let ghost start = out@;
            let mut k: usize = 0;
            assert(array_view(items@).take(0) =~= Seq::<ValueView>::empty());
            while k < len
                invariant
                    *v == Value::Array(*items),
                    len == items@.len(),
                    k <= len,
                    array_view(items@).len() == items@.len(),
                    forall|j: int| 0 <= j < items@.len() ==> #[trigger] array_view(items@)[j] == items@[j]@,
                    out@ == start + ser_items(array_view(items@).take(k as int)),
                decreases len - k,
            {
                proof {
                    assert(decreases_to!(*v => (*v)->Array_0));
                    assert((*v)->Array_0 == *items);
                    assert(decreases_to!(*items => items@));
                    assert(decreases_to!(items@ => items@[k as int]));
                }
                push_value(out, &items[k]);
                proof {
                    let t = array_view(items@).take(k + 1);
                    assert(t.drop_last() =~= array_view(items@).take(k as int));
                }
                k = k + 1;
            }
            assert(array_view(items@).take(len as int) =~= array_view(items@));
            assert(v@ == ValueView::Array(array_view(items@)));
        },
        Value::Object(es) => {
            let len = es.len();
            out.push(0xDF);
            push_low(out, (len / 256) as u64);
            push_low(out, len as u64);
            proof {
                lemma_object_view(es@);
            }
            let ghost start = out@;
            let mut k: usize = 0;
            assert(object_view(es@).take(0) =~= Seq::<(Seq<char>, ValueView)>::empty());
            while k < len
                invariant
                    *v == Value::Object(*es),
                    len == es@.len(),
                    k <= len,
                    object_view(es@).len() == es@.len(),
                    forall|j: int| 0 <= j < es@.len() ==> #[trigger] object_view(es@)[j] == (es@[j].0@, es@[j].1@),
                    out@ == start + ser_entries(object_view(es@).take(k as int)),
                decreases len - k,
            {
                push_text(out, &es[k].0);
                proof {
                    assert(decreases_to!(*v => (*v)->Object_0));
                    assert((*v)->Object_0 == *es);
                    assert(decreases_to!(*es => es@));
                    assert(decreases_to!(es@ => es@[k as int]));
                    assert(decreases_to!(es@[k as int] => es@[k as int].1));
                }
                push_value(out, &es[k].1);
                proof {
                    let t = object_view(es@).take(k + 1);
                    assert(t.drop_last() =~= object_view(es@).take(k as int));
                }
                k = k + 1;
            }
            assert(object_view(es@).take(len as int) =~= object_view(es@));
            assert(v@ == ValueView::Object(object_view(es@)));
        },
    }
}

/// The MessagePack bytes of a value.
pub fn to_vec(value: &Value) -> (r: Vec<u8>)
    ensures
        r@ == ser(value@),
{
    let mut out: Vec<u8> = Vec::new();
    push_value(&mut out, value);
    assert(out@ =~= ser(value@));
    out
}


/// What reading bytes gives: a value and the position after it, a failure
/// with its message, or a read past the end of the bytes (which the reader
/// does not guard against).
pub enum MOut {
    Val(ValueView, int),
    Fail(Seq<char>),
    Stuck,
}

/// The text that lossy UTF-8 decoding gives for some bytes.
pub uninterp spec fn utf8_lossy(b: Seq<u8>) -> Seq<char>;

/// The text of some bytes: their decoding when they are valid UTF-8, else
/// what lossy decoding gives.
pub open spec fn bytes_text(b: Seq<u8>) -> Seq<char> {
    if valid_utf8(b) {
        decode_utf8(b)
    } else {
        utf8_lossy(b)
    }
}

/// Text from bytes, with each ill-formed sequence replaced
/// (`String::from_utf8_lossy`): valid UTF-8 decodes exactly; for other
/// bytes the result is named by `utf8_lossy` and not stated further.
#[verifier::external_body]
fn lossy_text(b: &[u8]) -> (r: String)
    ensures
        r@ == (if valid_utf8(b@) { decode_utf8(b@) } else { utf8_lossy(b@) }),
{
    String::from_utf8_lossy(b).into_owned()
}

/// A big-endian number.
pub open spec fn be_val(s: Seq<u8>) -> int
    decreases s.len(),
{
    if s.len() == 0 {
        0
    } else {
        be_val(s.drop_last()) * 256 + s.last()
    }
}

/// A byte read as a signed 8-bit number.
pub open spec fn signed8(b: u8) -> int {
    if b < 128 { b as int } else { b - 256 }
}

/// The entries with `k` set to `v`: replaced where `k` already is, else
/// added at the end.
pub open spec fn put_field(es: Seq<(Seq<char>, ValueView)>, k: Seq<char>, v: ValueView) -> Seq<(Seq<char>, ValueView)> {
    if exists|i: int| 0 <= i < es.len() && es[i].0 == k {
        let i = choose|i: int| 0 <= i < es.len() && es[i].0 == k;
        es.update(i, (k, v))
    } else {
        es.push((k, v))
    }
}

/// A text of `n` bytes from `p`.
pub open spec fn mp_str(b: Seq<u8>, p: int, n: int) -> MOut {
    if p + n > b.len() {
        MOut::Fail("string too long"@)
    } else {
        MOut::Val(ValueView::String(bytes_text(b.subrange(p, p + n))), p + n)
    }
}

/// The value whose marker is at `pos`.
pub open spec fn mp_value(b: Seq<u8>, pos: int) -> MOut
    decreases b.len() - pos, 1int,
{
    if pos < 0 || pos >= b.len() {
        MOut::Fail("unexpected end"@)
    } else {
        let c = b[pos];
        let p = pos + 1;
        if c == 0xC0 {
            MOut::Val(ValueView::Null, p)
        } else if c == 0xC2 {
            MOut::Val(ValueView::Bool(false), p)
        } else if c == 0xC3 {
            MOut::Val(ValueView::Bool(true), p)
        } else if 0xA0 <= c <= 0xBF {
            mp_str(b, p, c - 0xA0)
        } else if c == 0xD9 {
            if p >= b.len() { MOut::Stuck } else { mp_str(b, p + 1, b[p] as int) }
        } else if c == 0xDA {
            if p + 1 >= b.len() { MOut::Stuck } else { mp_str(b, p + 2, b[p] * 256 + b[p + 1]) }
        } else if 0x90 <= c <= 0x9F {
            mp_items(b, p, c - 0x90, Seq::empty())
        } else if c == 0xDC {
            if p + 1 >= b.len() { MOut::Stuck } else { mp_items(b, p + 2, b[p] * 256 + b[p + 1], Seq::empty()) }
        } else if c == 0xDF {
            if p + 1 >= b.len() { MOut::Stuck } else { mp_entries(b, p + 2, b[p] * 256 + b[p + 1], Seq::empty()) }
        } else if c == 0xCB {
            if p + 8 > b.len() {
                MOut::Fail("float too short"@)
            } else {
                MOut::Val(ValueView::Float(be_val(b.subrange(p, p + 8)) as u64), p + 8)
            }
        } else if c == 0xD0 {
            if p >= b.len() { MOut::Fail("int8 too short"@) } else { MOut::Val(ValueView::Int(signed8(b[p]) as i64), p + 1) }
        } else if c <= 0x7F {
            MOut::Val(ValueView::Int(c as i64), p)
        } else {
            MOut::Val(ValueView::Null, p)
        }
    }
}

/// `n` more array elements from `pos`, `acc` read so far.
pub open spec fn mp_items(b: Seq<u8>, pos: int, n: int, acc: Seq<ValueView>) -> MOut
    decreases b.len() - pos, 2int,
{
    if n <= 0 {
        MOut::Val(ValueView::Array(acc), pos)
    } else if pos < 0 || pos > b.len() {
        MOut::Fail("unexpected end"@)
    } else {
        match mp_value(b, pos) {
            MOut::Val(v, r) => if r <= pos || r > b.len() {
                MOut::Fail("unexpected end"@)
            } else {
                mp_items(b, r, n - 1, acc.push(v))
            },
            MOut::Fail(m) => MOut::Fail(m),
            MOut::Stuck => MOut::Stuck,
        }
    }
}

/// `n` more object entries from `pos`, `acc` read so far; a later entry of
/// a name replaces the earlier one.
pub open spec fn mp_entries(b: Seq<u8>, pos: int, n: int, acc: Seq<(Seq<char>, ValueView)>) -> MOut
    decreases b.len() - pos, 2int,
{
    if n <= 0 {
        MOut::Val(ValueView::Object(acc), pos)
    } else if pos < 0 || pos > b.len() {
        MOut::Fail("unexpected end"@)
    } else {
        match mp_value(b, pos) {
            MOut::Val(kv, r1) => match kv {
                ValueView::String(k) => if r1 <= pos || r1 > b.len() {
                    MOut::Fail("unexpected end"@)
                } else {
                    match mp_value(b, r1) {
                        MOut::Val(v, r2) => if r2 <= r1 || r2 > b.len() {
                            MOut::Fail("unexpected end"@)
                        } else {
                            mp_entries(b, r2, n - 1, put_field(acc, k, v))
                        },
                        MOut::Fail(m) => MOut::Fail(m),
                        MOut::Stuck => MOut::Stuck,
                    }
                },
                _ => MOut::Fail("object key must be string"@),
            },
            MOut::Fail(m) => MOut::Fail(m),
            MOut::Stuck => MOut::Stuck,
        }
    }
}

proof fn lemma_mp_value_pos(b: Seq<u8>, pos: int)
    ensures
        mp_value(b, pos) matches MOut::Val(_, r) ==> pos < r <= b.len(),
    decreases b.len() - pos, 1int,
{
    if 0 <= pos < b.len() {
        let c = b[pos];
        let p = pos + 1;
        if 0x90 <= c <= 0x9F {
            lemma_mp_items_pos(b, p, c - 0x90, Seq::empty());
        } else if c == 0xDC && p + 1 < b.len() {
            lemma_mp_items_pos(b, p + 2, b[p] * 256 + b[p + 1], Seq::empty());
        } else if c == 0xDF && p + 1 < b.len() {
            lemma_mp_entries_pos(b, p + 2, b[p] * 256 + b[p + 1], Seq::empty());
        }
    }
}

proof fn lemma_mp_items_pos(b: Seq<u8>, pos: int, n: int, acc: Seq<ValueView>)
    requires
        0 <= pos <= b.len(),
    ensures
        mp_items(b, pos, n, acc) matches MOut::Val(_, r) ==> pos <= r <= b.len(),
    decreases b.len() - pos, 2int,
{
    if n > 0 {
        lemma_mp_value_pos(b, pos);
        if let MOut::Val(v, r) = mp_value(b, pos) {
            if !(r <= pos || r > b.len()) {
                lemma_mp_items_pos(b, r, n - 1, acc.push(v));
            }
        }
    }
}

proof fn lemma_mp_entries_pos(b: Seq<u8>, pos: int, n: int, acc: Seq<(Seq<char>, ValueView)>)
    requires
        0 <= pos <= b.len(),
    ensures
        mp_entries(b, pos, n, acc) matches MOut::Val(_, r) ==> pos <= r <= b.len(),
    decreases b.len() - pos, 2int,
{
    if n > 0 {
        lemma_mp_value_pos(b, pos);
        if let MOut::Val(kv, r1) = mp_value(b, pos) {
            if let ValueView::String(k) = kv {
                if !(r1 <= pos || r1 > b.len()) {
                    lemma_mp_value_pos(b, r1);
                    if let MOut::Val(v, r2) = mp_value(b, r1) {
                        if !(r2 <= r1 || r2 > b.len()) {
                            lemma_mp_entries_pos(b, r2, n - 1, put_field(acc, k, v));
                        }
                    }
                }
            }
        }
    }
}

/// What reading a whole byte sequence gives: the value at its start.
pub open spec fn mp_read(b: Seq<u8>) -> MOut {
    if b.len() == 0 {
        MOut::Fail("unexpected end"@)
    } else {
        mp_value(b, 0)
    }
}

/// A MessagePack reading error.
#[derive(Debug, Clone)]
pub struct Error {
    message: String,
}

impl Error {
    pub closed spec fn msg(&self) -> Seq<char> {
        self.message@
    }

    pub fn new(msg: String) -> (r: Error)
        ensures
            r.msg() == msg@,
    {
        Error { message: msg }
    }
}

/// The exec result matches what reading gives.
pub open spec fn read_ok(r: Result<(Value, usize), String>, s: MOut) -> bool {
    match s {
        MOut::Val(v, q) => r matches Ok((x, qq)) && x@ == v && qq as int == q,
        MOut::Fail(m) => r matches Err(e) && e@ == m,
        MOut::Stuck => false,
    }
}

fn read_str(b: &Vec<u8>, p: usize, n: usize) -> (r: Result<(Value, usize), String>)
    requires
        p <= b@.len(),
    ensures
        read_ok(r, mp_str(b@, p as int, n as int)),
{
    let len = b.len();
    if n > len - p {
        return Err(owned("string too long"));
    }
    let end = p + n;
    let piece = vstd::slice::slice_subrange(b.as_slice(), p, end);
    let s = lossy_text(piece);
    Ok((Value::String(s), end))
}

fn read_value(b: &Vec<u8>, pos: usize) -> (r: Result<(Value, usize), String>)
    requires
        pos <= b@.len(),
        !(mp_value(b@, pos as int) is Stuck),
    ensures
        read_ok(r, mp_value(b@, pos as int)),
    decreases b@.len() - pos, 1int,
{
    let len = b.len();
    if pos >= len {
        return Err(owned("unexpected end"));
    }
    let c = b[pos];
    let p = pos + 1;
    if c == 0xC0 {
        Ok((Value::Null, p))
    } else if c == 0xC2 {
        Ok((Value::Bool(false), p))
    } else if c == 0xC3 {
        Ok((Value::Bool(true), p))
    } else if 0xA0 <= c && c <= 0xBF {
        read_str(b, p, (c - 0xA0) as usize)
    } else if c == 0xD9 {
        read_str(b, p + 1, b[p] as usize)
    } else if c == 0xDA {
        let n = (b[p] as usize) * 256 + (b[p + 1] as usize);
        read_str(b, p + 2, n)
    } else if 0x90 <= c && c <= 0x9F {
        read_items(b, p, (c - 0x90) as usize)
    } else if c == 0xDC {
        let n = (b[p] as usize) * 256 + (b[p + 1] as usize);
        read_items(b, p + 2, n)
    } else if c == 0xDF {
        let n = (b[p] as usize) * 256 + (b[p + 1] as usize);
        read_entries(b, p + 2, n)
    } else if c == 0xCB {
        if 8 > len - p {
            return Err(owned("float too short"));
        }
        let mut bits: u64 = 0;
        let mut k: usize = 0;
        assert(b@.subrange(p as int, p as int) =~= Seq::<u8>::empty());
        proof {
            vstd::arithmetic::power2::lemma2_to64();
        }
        while k < 8
            invariant
                k <= 8,
                len == b@.len(),
                p + 8 <= len,
                bits as int == be_val(b@.subrange(p as int, p + k)),
                bits < vstd::arithmetic::power2::pow2((8 * k) as nat),
            decreases 8 - k,
        {
            proof {
                vstd::arithmetic::power2::lemma_pow2_adds((8 * k) as nat, 8);
                vstd::arithmetic::power2::lemma2_to64();
                assert(b@.subrange(p as int, p + k + 1).drop_last() =~= b@.subrange(p as int, p + k));
                if k < 7 {
                    vstd::arithmetic::power2::lemma_pow2_strictly_increases((8 * k + 8) as nat, 64);
                }
                assert(vstd::arithmetic::power2::pow2((8 * k + 8) as nat) <= 0x1_0000_0000_0000_0000);
                assert(bits * 256 + 255 < vstd::arithmetic::power2::pow2((8 * k + 8) as nat)) by (nonlinear_arith)
                    requires
                        bits < vstd::arithmetic::power2::pow2((8 * k) as nat),
                        vstd::arithmetic::power2::pow2((8 * k + 8) as nat) == vstd::arithmetic::power2::pow2((8 * k) as nat) * 256,
                ;
            }
            assert(bits * 256 + 255 <= 0xFFFF_FFFF_FFFF_FFFFu64);
            bits = bits * 256 + (b[p + k] as u64);
            k = k + 1;
        }
        Ok((Value::Float(bits), p + 8))
    } else if c == 0xD0 {
        if p >= len {
            return Err(owned("int8 too short"));
        }
        let x = b[p];
        let n: i64 = if x < 128 { x as i64 } else { (x as i64) - 256 };
        Ok((Value::Int(n), p + 1))
    } else if c <= 0x7F {
        Ok((Value::Int(c as i64), p))
    } else {
        Ok((Value::Null, p))
    }
}

fn read_items(b: &Vec<u8>, pos: usize, n: usize) -> (r: Result<(Value, usize), String>)
    requires
        pos <= b@.len(),
        !(mp_items(b@, pos as int, n as int, Seq::empty()) is Stuck),
    ensures
        read_ok(r, mp_items(b@, pos as int, n as int, Seq::empty())),
    decreases b@.len() - pos, 2int,
{
    let mut items: Vec<Value> = Vec::new();
    let mut i = pos;
    let mut left = n;
    assert(array_view(items@) =~= Seq::<ValueView>::empty());
    while left > 0
        invariant
            pos <= i <= b@.len(),
            mp_items(b@, pos as int, n as int, Seq::empty()) == mp_items(b@, i as int, left as int, array_view(items@)),
            !(mp_items(b@, i as int, left as int, array_view(items@)) is Stuck),
        decreases left,
    {
        proof {
            lemma_mp_value_pos(b@, i as int);
        }
        match read_value(b, i) {
            Err(e) => {
                return Err(e);
            },
            Ok((v, r)) => {
                let ghost before = items@;
                let ghost vv = v@;
                items.push(v);
                assert(items@.drop_last() =~= before);
                assert(array_view(items@) == array_view(before).push(vv));
                i = r;
                left = left - 1;
            },
        }
    }
    Ok((Value::Array(items), i))
}

fn put_field_exec(es: &mut Vec<(String, Value)>, k: String, v: Value)
    requires
        forall|i: int, j: int| 0 <= i < j < old(es)@.len() ==> old(es)@[i].0@ != old(es)@[j].0@,
    ensures
        forall|i: int, j: int| 0 <= i < j < final(es)@.len() ==> final(es)@[i].0@ != final(es)@[j].0@,
        object_view(final(es)@) == put_field(object_view(old(es)@), k@, v@),
{
    let ghost ev = object_view(es@);
    let ghost kv = k@;
    let ghost vv = v@;
    proof {
        lemma_object_view(es@);
    }
    let mut i: usize = 0;
    while i < es.len()
        invariant
            i <= es@.len(),
            es@ == old(es)@,
            ev == object_view(es@),
            ev.len() == es@.len(),
            kv == k@,
            vv == v@,
            forall|x: int, y: int| 0 <= x < y < es@.len() ==> es@[x].0@ != es@[y].0@,
            forall|j: int| 0 <= j < es@.len() ==> #[trigger] ev[j] == (es@[j].0@, es@[j].1@),
            forall|j: int| 0 <= j < i ==> es@[j].0@ != kv,
        decreases es@.len() - i,
    {
        if crate::text::str_eq(es[i].0.as_str(), k.as_str()) {
            let ghost old_es = es@;
            es.set(i, (k, v));
            proof {
                assert(ev[i as int].0 == kv);
                let c = choose|c: int| 0 <= c < ev.len() && ev[c].0 == kv;
                if c != i as int {
                    assert(old_es[c].0@ == kv);
                    if c > i as int {
                        assert(old_es[i as int].0@ != old_es[c].0@);
                    }
                }
                lemma_object_view(es@);
                assert(object_view(es@) =~= ev.update(i as int, (kv, vv)));
                assert forall|x: int, y: int| 0 <= x < y < es@.len() implies es@[x].0@ != es@[y].0@ by {
                    if x == i as int {
                        assert(old_es[y].0@ != old_es[x].0@);
                    } else if y == i as int {
                        assert(old_es[x].0@ != old_es[y].0@);
                    } else {
                        assert(old_es[x].0@ != old_es[y].0@);
                    }
                }
            }
            return;
        }
        i = i + 1;
    }
    es.push((k, v));
    proof {
        assert(!(exists|c: int| 0 <= c < ev.len() && ev[c].0 == kv));
        lemma_object_view(es@);
        assert(object_view(es@) =~= ev.push((kv, vv)));
    }
}

fn read_entries(b: &Vec<u8>, pos: usize, n: usize) -> (r: Result<(Value, usize), String>)
    requires
        pos <= b@.len(),
        !(mp_entries(b@, pos as int, n as int, Seq::empty()) is Stuck),
    ensures
        read_ok(r, mp_entries(b@, pos as int, n as int, Seq::empty())),
    decreases b@.len() - pos, 2int,
{
    let mut es: Vec<(String, Value)> = Vec::new();
    let mut i = pos;
    let mut left = n;
    assert(object_view(es@) =~= Seq::<(Seq<char>, ValueView)>::empty());
    while left > 0
        invariant
            pos <= i <= b@.len(),
            forall|x: int, y: int| 0 <= x < y < es@.len() ==> es@[x].0@ != es@[y].0@,
            mp_entries(b@, pos as int, n as int, Seq::empty()) == mp_entries(b@, i as int, left as int, object_view(es@)),
            !(mp_entries(b@, i as int, left as int, object_view(es@)) is Stuck),
        decreases left,
    {
        proof {
            lemma_mp_value_pos(b@, i as int);
        }
        let key = match read_value(b, i) {
            Err(e) => {
                return Err(e);
            },
            Ok((kv, r1)) => match kv {
                Value::String(k) => (k, r1),
                _ => {
                    return Err(owned("object key must be string"));
                },
            },
        };
        let (k, r1) = key;
        proof {
            lemma_mp_value_pos(b@, r1 as int);
        }
        match read_value(b, r1) {
            Err(e) => {
                return Err(e);
            },
            Ok((v, r2)) => {
                put_field_exec(&mut es, k, v);
                i = r2;
                left = left - 1;
            },
        }
    }
    Ok((Value::Object(es), i))
}

/// Reads the value at the start of MessagePack bytes. Reading bytes whose
/// length fields point past their end is left out.
pub fn from_vec(bytes: &[u8]) -> (r: Result<Value, Error>)
    requires
        !(mp_read(bytes@) is Stuck),
    ensures
        match mp_read(bytes@) {
            MOut::Val(v, _) => r matches Ok(x) && x@ == v,
            MOut::Fail(m) => r matches Err(e) && e.msg() == m,
            MOut::Stuck => false,
        },
{
    let b = vstd::slice::slice_to_vec(bytes);
    if b.len() == 0 {
        return Err(Error::new(owned("unexpected end")));
    }
    match read_value(&b, 0) {
        Ok((v, _)) => Ok(v),
        Err(m) => Err(Error::new(m)),
    }
}


/// Values that MessagePack bytes of this library carry without loss:
/// integers that fit in a signed byte, texts, arrays and objects shorter
/// than 65536, and objects whose names are distinct.
pub open spec fn packable(v: ValueView) -> bool
    decreases v,
{
    match v {
        ValueView::Int(n) => -128 <= n <= 127,
        ValueView::String(s) => encode_utf8(s).len() < 65536,
        ValueView::Array(items) => items.len() < 65536 && packable_items(items),
        ValueView::Object(es) => es.len() < 65536 && packable_entries(es),
        _ => true,
    }
}

pub open spec fn packable_items(items: Seq<ValueView>) -> bool
    decreases items,
{
    if items.len() == 0 {
        true
    } else {
        packable_items(items.drop_last()) && packable(items.last())
    }
}

pub open spec fn packable_entries(es: Seq<(Seq<char>, ValueView)>) -> bool
    decreases es,
{
    if es.len() == 0 {
        true
    } else {
        &&& packable_entries(es.drop_last())
        &&& encode_utf8(es.last().0).len() < 65536
        &&& packable(es.last().1)
        &&& forall|i: int| 0 <= i < es.len() - 1 ==> es[i].0 != es.last().0
    }
}

/// `b` holds `w` at `pos`.
pub open spec fn holds_at(b: Seq<u8>, pos: int, w: Seq<u8>) -> bool {
    0 <= pos && pos + w.len() <= b.len() && b.subrange(pos, pos + w.len()) == w
}

proof fn lemma_holds_split(b: Seq<u8>, pos: int, x: Seq<u8>, y: Seq<u8>)
    requires
        holds_at(b, pos, x + y),
    ensures
        holds_at(b, pos, x),
        holds_at(b, pos + x.len(), y),
{
    let whole = b.subrange(pos, pos + (x + y).len());
    assert(whole == x + y);
    assert(b.subrange(pos, pos + x.len()) =~= whole.subrange(0, x.len() as int));
    assert(whole.subrange(0, x.len() as int) =~= x);
    assert(b.subrange(pos + x.len(), pos + x.len() + y.len()) =~= whole.subrange(x.len() as int, whole.len() as int));
    assert(whole.subrange(x.len() as int, whole.len() as int) =~= y);
}

proof fn lemma_ser_items_front(items: Seq<ValueView>)
    requires
        items.len() > 0,
    ensures
        ser_items(items) == ser(items[0]) + ser_items(items.drop_first()),
        packable_items(items) ==> packable(items[0]) && packable_items(items.drop_first()),
    decreases items.len(),
{
    if items.len() == 1 {
        assert(items.drop_last() =~= Seq::<ValueView>::empty());
        assert(items.drop_first() =~= Seq::<ValueView>::empty());
        assert(ser_items(items) =~= ser(items[0]) + ser_items(items.drop_first()));
    } else {
        lemma_ser_items_front(items.drop_last());
        assert(items.drop_last().drop_first() =~= items.drop_first().drop_last());
        assert(items.drop_first().last() == items.last());
        assert(ser_items(items) =~= ser(items[0]) + ser_items(items.drop_first()));
    }
}

proof fn lemma_ser_entries_front(es: Seq<(Seq<char>, ValueView)>)
    requires
        es.len() > 0,
    ensures
        ser_entries(es) == ser_text(es[0].0) + ser(es[0].1) + ser_entries(es.drop_first()),
        packable_entries(es) ==> encode_utf8(es[0].0).len() < 65536 && packable(es[0].1)
            && packable_entries(es.drop_first()) && forall|i: int| 0 <= i < es.len() - 1 ==> #[trigger] es.drop_first()[i].0 != es[0].0,
    decreases es.len(),
{
    if es.len() == 1 {
        assert(es.drop_last() =~= Seq::<(Seq<char>, ValueView)>::empty());
        assert(es.drop_first() =~= Seq::<(Seq<char>, ValueView)>::empty());
        assert(ser_entries(es) =~= ser_text(es[0].0) + ser(es[0].1) + ser_entries(es.drop_first()));
    } else {
        lemma_ser_entries_front(es.drop_last());
        assert(es.drop_last().drop_first() =~= es.drop_first().drop_last());
        assert(es.drop_first().last() == es.last());
        assert(ser_entries(es) =~= ser_text(es[0].0) + ser(es[0].1) + ser_entries(es.drop_first()));
        if packable_entries(es) {
            let d = es.drop_first();
            assert forall|i: int| 0 <= i < d.len() - 1 implies d[i].0 != d.last().0 by {
                assert(d[i] == es[i + 1]);
            }
            assert forall|i: int| 0 <= i < es.len() - 1 implies #[trigger] es.drop_first()[i].0 != es[0].0 by {
                if i < es.len() - 2 {
                    assert(es.drop_first()[i] == es.drop_last().drop_first()[i]);
                } else {
                    assert(es.drop_first()[i] == es.last());
                }
            }
        }
    }
}

proof fn lemma_ser_nonempty(v: ValueView)
    ensures
        ser(v).len() > 0,
{
}

/// `x / d` is `256` times `x / (256 * d)` plus its own low byte.
proof fn lemma_byte_step(x: int, d: int)
    requires
        x >= 0,
        d > 0,
    ensures
        x / d == (x / (d * 256)) * 256 + (x / d) % 256,
{
    vstd::arithmetic::div_mod::lemma_div_denominator(x, d, 256);
    vstd::arithmetic::div_mod::lemma_fundamental_div_mod(x / d, 256);
}

proof fn lemma_be64(f: u64)
    ensures
        be_val(be64(f)) == f,
{
    let s = be64(f);
    let x = f as int;
    reveal_with_fuel(be_val, 9);
    lemma_byte_step(x, 0x100_0000_0000_0000);
    lemma_byte_step(x, 0x1_0000_0000_0000);
    lemma_byte_step(x, 0x100_0000_0000);
    lemma_byte_step(x, 0x1_0000_0000);
    lemma_byte_step(x, 0x100_0000);
    lemma_byte_step(x, 0x1_0000);
    lemma_byte_step(x, 0x100);
    lemma_byte_step(x, 1);
    assert(x / 0x1_0000_0000_0000_0000 == 0);
    assert(x / 1 == x);
    let s7 = s.drop_last();
    let s6 = s7.drop_last();
    let s5 = s6.drop_last();
    let s4 = s5.drop_last();
    let s3 = s4.drop_last();
    let s2 = s3.drop_last();
    let s1 = s2.drop_last();
    let s0 = s1.drop_last();
    assert(s0 =~= Seq::<u8>::empty());
    assert(be_val(s1) == x / 0x100_0000_0000_0000);
    assert(be_val(s2) == x / 0x1_0000_0000_0000);
    assert(be_val(s3) == x / 0x100_0000_0000);
    assert(be_val(s4) == x / 0x1_0000_0000);
    assert(be_val(s5) == x / 0x100_0000);
    assert(be_val(s6) == x / 0x1_0000);
    assert(be_val(s7) == x / 0x100);
}

proof fn lemma_read_text(b: Seq<u8>, pos: int, s: Seq<char>)
    requires
        encode_utf8(s).len() < 65536,
        holds_at(b, pos, ser_text(s)),
    ensures
        mp_value(b, pos) == MOut::Val(ValueView::String(s), pos + ser_text(s).len()),
{
    let e = encode_utf8(s);
    let l = e.len() as int;
    let h = str_head(l);
    lemma_holds_split(b, pos, h, e);
    vstd::utf8::encode_utf8_valid_utf8(s);
    vstd::utf8::encode_utf8_decode_utf8(s);
    assert(b[pos] == h[0]);
    if l >= 32 && l < 256 {
        assert(b[pos + 1] == h[1]);
    } else if l >= 256 {
        assert(b[pos + 1] == h[1]);
        assert(b[pos + 2] == h[2]);
        assert((l / 256) % 256 * 256 + l % 256 == l);
    }
}

/// The bytes of a value read back from any position that holds them.
proof fn lemma_read_value(b: Seq<u8>, pos: int, v: ValueView)
    requires
        packable(v),
        holds_at(b, pos, ser(v)),
    ensures
        mp_value(b, pos) == MOut::Val(v, pos + ser(v).len()),
    decreases v,
{
    let w = ser(v);
    assert(b[pos] == w[0]);
    match v {
        ValueView::Int(n) => {
            if n < 0 {
                assert(b[pos + 1] == w[1]);
                assert(signed8(low(n as int)) == n);
            }
        },
        ValueView::Float(f) => {
            lemma_holds_split(b, pos, seq![0xCBu8], be64(f));
            lemma_be64(f);
            assert(b.subrange(pos + 1, pos + 9) == be64(f));
        },
        ValueView::String(s) => {
            lemma_read_text(b, pos, s);
        },
        ValueView::Array(items) => {
            let n = items.len() as int;
            let head = if n < 16 { seq![(0x90 + n) as u8] } else { seq![0xDCu8, low(n / 256), low(n)] };
            lemma_holds_split(b, pos, head, ser_items(items));
            if n >= 16 {
                assert(b[pos + 1] == head[1]);
                assert(b[pos + 2] == head[2]);
                assert((n / 256) % 256 * 256 + n % 256 == n);
            }
            lemma_read_items(b, pos + head.len(), items, Seq::empty());
            assert(Seq::<ValueView>::empty() + items =~= items);
        },
        ValueView::Object(es) => {
            let n = es.len() as int;
            let head = seq![0xDFu8, low(n / 256), low(n)];
            lemma_holds_split(b, pos, head, ser_entries(es));
            assert(b[pos + 1] == head[1]);
            assert(b[pos + 2] == head[2]);
            assert((n / 256) % 256 * 256 + n % 256 == n);
            lemma_read_entries(b, pos + 3, es, Seq::empty());
            assert(Seq::<(Seq<char>, ValueView)>::empty() + es =~= es);
        },
        _ => {},
    }
}

proof fn lemma_read_items(b: Seq<u8>, pos: int, items: Seq<ValueView>, acc: Seq<ValueView>)
    requires
        packable_items(items),
        holds_at(b, pos, ser_items(items)),
    ensures
        mp_items(b, pos, items.len() as int, acc) == MOut::Val(ValueView::Array(acc + items), pos + ser_items(items).len()),
    decreases items,
{
    if items.len() == 0 {
        assert(acc + items =~= acc);
    } else {
        lemma_ser_items_front(items);
        let first = items[0];
        let rest = items.drop_first();
        lemma_holds_split(b, pos, ser(first), ser_items(rest));
        lemma_read_value(b, pos, first);
        lemma_ser_nonempty(first);
        lemma_read_items(b, pos + ser(first).len(), rest, acc.push(first));
        assert(acc.push(first) + rest =~= acc + items);
        assert(rest.len() == items.len() - 1);
    }
}

proof fn lemma_read_entries(b: Seq<u8>, pos: int, es: Seq<(Seq<char>, ValueView)>, acc: Seq<(Seq<char>, ValueView)>)
    requires
        packable_entries(es),
        holds_at(b, pos, ser_entries(es)),
        forall|i: int, j: int| 0 <= i < acc.len() && 0 <= j < es.len() ==> acc[i].0 != es[j].0,
    ensures
        mp_entries(b, pos, es.len() as int, acc) == MOut::Val(ValueView::Object(acc + es), pos + ser_entries(es).len()),
    decreases es,
{
    if es.len() == 0 {
        assert(acc + es =~= acc);
    } else {
        lemma_ser_entries_front(es);
        let k = es[0].0;
        let v = es[0].1;
        let rest = es.drop_first();
        lemma_holds_split(b, pos, ser_text(k) + ser(v), ser_entries(rest));
        lemma_holds_split(b, pos, ser_text(k), ser(v));
        lemma_read_text(b, pos, k);
        let p1 = pos + ser_text(k).len();
        lemma_read_value(b, p1, v);
        lemma_ser_nonempty(v);
        assert(ser_text(k).len() > 0);
        assert(!(exists|i: int| 0 <= i < acc.len() && acc[i].0 == k)) by {
            if exists|i: int| 0 <= i < acc.len() && acc[i].0 == k {
                let i = choose|i: int| 0 <= i < acc.len() && acc[i].0 == k;
                assert(acc[i].0 != es[0].0);
            }
        }
        assert(put_field(acc, k, v) == acc.push((k, v)));
        let acc2 = acc.push((k, v));
        assert forall|i: int, j: int| 0 <= i < acc2.len() && 0 <= j < rest.len() implies acc2[i].0 != rest[j].0 by {
            if i < acc.len() {
                assert(rest[j] == es[j + 1]);
            } else {
                assert(rest[j].0 != es[0].0);
            }
        }
        lemma_read_entries(b, p1 + ser(v).len(), rest, acc2);
        assert(acc2 + rest =~= acc + es);
        assert(p1 + ser(v).len() + ser_entries(rest).len() == pos + ser_entries(es).len());
    }
}

/// Reading back what `to_vec` writes gives the value again, for every
/// value whose integers fit in a signed byte, whose texts and collections
/// are shorter than 65536 and whose objects have distinct names.
pub proof fn lemma_msgpack_roundtrip(v: ValueView)
    requires
        packable(v),
    ensures
        mp_read(ser(v)) == MOut::Val(v, ser(v).len() as int),
{
    let w = ser(v);
    assert(w.subrange(0, w.len() as int) =~= w);
    lemma_read_value(w, 0, v);
}

} // verus!
