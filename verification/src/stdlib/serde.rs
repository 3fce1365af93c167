//! Serialisation values of the Chim library and their MessagePack form. A
//! floating-point number is held as its IEEE-754 bit pattern.
use vstd::prelude::*;
use crate::text::str_eq;

pub mod msgpack;

verus! {

/// A serialisable value.
#[derive(Debug)]
pub enum Value {
    Null,
    Bool(bool),
    Int(i64),
    Float(u64),
    String(String),
    Array(Vec<Value>),
    Object(Vec<(String, Value)>),
}

/// The mathematical form of a value.
pub enum ValueView {
    Null,
    Bool(bool),
    Int(i64),
    Float(u64),
    String(Seq<char>),
    Array(Seq<ValueView>),
    Object(Seq<(Seq<char>, ValueView)>),
}

pub open spec fn value_view(v: Value) -> ValueView
    decreases v,
{
    match v {
        Value::Null => ValueView::Null,
        Value::Bool(b) => ValueView::Bool(b),
        Value::Int(n) => ValueView::Int(n),
        Value::Float(f) => ValueView::Float(f),
        Value::String(s) => ValueView::String(s@),
        Value::Array(a) => ValueView::Array(array_view(a@)),
        Value::Object(o) => ValueView::Object(object_view(o@)),
    }
}

pub open spec fn array_view(s: Seq<Value>) -> Seq<ValueView>
    decreases s,
{
    if s.len() == 0 {
        Seq::empty()
    } else {
        array_view(s.drop_last()).push(value_view(s.last()))
    }
}

pub open spec fn object_view(s: Seq<(String, Value)>) -> Seq<(Seq<char>, ValueView)>
    decreases s,
{
    if s.len() == 0 {
        Seq::empty()
    } else {
        object_view(s.drop_last()).push((s.last().0@, value_view(s.last().1)))
    }
}

impl View for Value {
    type V = ValueView;

    open spec fn view(&self) -> ValueView {
        value_view(*self)
    }
}

pub proof fn lemma_array_view(s: Seq<Value>)
    ensures
        array_view(s).len() == s.len(),
        forall|i: int| 0 <= i < s.len() ==> #[trigger] array_view(s)[i] == value_view(s[i]),
    decreases s.len(),
{
    if s.len() > 0 {
        lemma_array_view(s.drop_last());
    }
}

pub proof fn lemma_object_view(s: Seq<(String, Value)>)
    ensures
        object_view(s).len() == s.len(),
        forall|i: int| 0 <= i < s.len() ==> #[trigger] object_view(s)[i] == (s[i].0@, value_view(s[i].1)),
    decreases s.len(),
{
    if s.len() > 0 {
        lemma_object_view(s.drop_last());
    }
}

/// The index of the first entry named `k`, or -1.
pub open spec fn first_named(s: Seq<(Seq<char>, ValueView)>, k: Seq<char>) -> int
    decreases s.len(),
{
    if s.len() == 0 {
        -1
    } else if s[0].0 == k {
        0
    } else {
        let r = first_named(s.drop_first(), k);
        if r < 0 { -1 } else { r + 1 }
    }
}

/// The value of the integer that a double's bits stand for, truncated
/// toward zero and saturated at the ends of the 64-bit range (0 for NaN).
pub open spec fn float_to_int(bits: u64) -> i64 {
    let neg = bits >= 0x8000_0000_0000_0000;
    let e = (bits / 0x10_0000_0000_0000) % 0x800;
    let m = bits % 0x10_0000_0000_0000;
    if e == 0x7ff && m != 0 {
        0
    } else if e < 1023 {
        0
    } else if e >= 1023 + 63 {
        if neg { i64::MIN } else { i64::MAX }
    } else {
        let full = m + 0x10_0000_0000_0000;
        let mag: int = if e >= 1075 { full * vstd::arithmetic::power2::pow2((e - 1075) as nat) as int } else { full / vstd::arithmetic::power2::pow2((1075 - e) as nat) as int };
        if neg { (-mag) as i64 } else { mag as i64 }
    }
}

impl Value {
    pub fn null() -> (r: Value)
        ensures
            r@ == ValueView::Null,
    {
        Value::Null
    }

    pub fn bool(b: bool) -> (r: Value)
        ensures
            r@ == ValueView::Bool(b),
    {
        Value::Bool(b)
    }

    pub fn integer(n: i64) -> (r: Value)
        ensures
            r@ == ValueView::Int(n),
    {
        Value::Int(n)
    }

    /// A floating-point number given by its bit pattern.
    pub fn float(bits: u64) -> (r: Value)
        ensures
            r@ == ValueView::Float(bits),
    {
        Value::Float(bits)
    }

    pub fn string(s: String) -> (r: Value)
        ensures
            r@ == ValueView::String(s@),
    {
        Value::String(s)
    }

    /// An empty list of elements.
    pub fn array() -> (r: Vec<Value>)
        ensures
            r@.len() == 0,
    {
        Vec::new()
    }

    /// An empty list of named entries.
    pub fn object() -> (r: Vec<(String, Value)>)
        ensures
            r@.len() == 0,
    {
        Vec::new()
    }

    pub fn is_null(&self) -> (r: bool)
        ensures
            r == (self@ is Null),
    {
        match self {
            Value::Null => true,
            _ => false,
        }
    }

    pub fn as_bool(&self) -> (r: Option<bool>)
        ensures
            r == (match self@ {
                ValueView::Bool(b) => Some(b),
                _ => None::<bool>,
            }),
    {
        match self {
            Value::Bool(b) => Some(*b),
            _ => None,
        }
    }

    /// An integer; a floating-point number is truncated toward zero.
    pub fn as_int(&self) -> (r: Option<i64>)
        ensures
            r == (match self@ {
                ValueView::Int(n) => Some(n),
                ValueView::Float(f) => Some(float_to_int(f)),
                _ => None::<i64>,
            }),
    {
        match self {
            Value::Int(n) => Some(*n),
            Value::Float(f) => Some(float_bits_to_int(*f)),
            _ => None,
        }
    }

    /// The bit pattern of a floating-point number.
    pub fn as_float_bits(&self) -> (r: Option<u64>)
        ensures
            r == (match self@ {
                ValueView::Float(f) => Some(f),
                _ => None::<u64>,
            }),
    {
        match self {
            Value::Float(f) => Some(*f),
            _ => None,
        }
    }

    pub fn as_string(&self) -> (r: Option<String>)
        ensures
            match self@ {
                ValueView::String(s) => r matches Some(x) && x@ == s,
                _ => r is None,
            },
    {
        match self {
            Value::String(s) => Some(s.clone()),
            _ => None,
        }
    }

    pub fn as_array(&self) -> (r: Option<&Vec<Value>>)
        ensures
            match self@ {
                ValueView::Array(a) => r matches Some(x) && array_view(x@) == a,
                _ => r is None,
            },
    {
        match self {
            Value::Array(a) => Some(a),
            _ => None,
        }
    }

    pub fn as_object(&self) -> (r: Option<&Vec<(String, Value)>>)
        ensures
            match self@ {
                ValueView::Object(o) => r matches Some(x) && object_view(x@) == o,
                _ => r is None,
            },
    {
        match self {
            Value::Object(o) => Some(o),
            _ => None,
        }
    }

    /// The value of the first entry named `key` in an object.
    pub fn get(&self, key: &String) -> (r: Option<&Value>)
        ensures
            match self@ {
                ValueView::Object(o) => {
                    let i = first_named(o, key@);
                    if i >= 0 { r matches Some(x) && x@ == o[i].1 } else { r is None }
                },
                _ => r is None,
            },
    {
        match self {
            Value::Object(o) => {
                let ghost ov = object_view(o@);
                proof {
                    lemma_object_view(o@);
                }
                assert(self@ == ValueView::Object(ov));
                let mut i: usize = 0;
                assert(ov.skip(0) =~= ov);
                while i < o.len()
                    invariant
                        self@ == ValueView::Object(ov),
                        i <= o@.len(),
                        ov == object_view(o@),
                        ov.len() == o@.len(),
                        forall|j: int| 0 <= j < o@.len() ==> #[trigger] ov[j] == (o@[j].0@, value_view(o@[j].1)),
                        first_named(ov, key@) == if first_named(ov.skip(i as int), key@) < 0 {
                            -1
                        } else {
                            first_named(ov.skip(i as int), key@) + i
                        },
                    decreases o@.len() - i,
                {
                    let ghost rest = ov.skip(i as int);
                    assert(rest[0] == ov[i as int]);
                    if str_eq(o[i].0.as_str(), key.as_str()) {
                        assert(first_named(rest, key@) == 0);
                        return Some(&o[i].1);
                    }
                    assert(rest.drop_first() =~= ov.skip(i + 1));
                    i = i + 1;
                }
                None
            },
            _ => None,
        }
    }

    /// The element at `idx` of an array.
    pub fn index(&self, idx: i64) -> (r: Option<&Value>)
        ensures
            match self@ {
                ValueView::Array(a) => if 0 <= idx < a.len() { r matches Some(x) && x@ == a[idx as int] } else { r is None },
                _ => r is None,
            },
    {
        match self {
            Value::Array(a) => {
                proof {
                    lemma_array_view(a@);
                }
                assert(self@ == ValueView::Array(array_view(a@)));
                if idx >= 0 && (idx as u64) < (a.len() as u64) {
                    Some(&a[idx as usize])
                } else {
                    None
                }
            },
            _ => None,
        }
    }

    /// Elements of an array, entries of an object or bytes of a text; zero
    /// for other values.
    pub fn len(&self) -> (r: usize)
        ensures
            r as int == (match self@ {
                ValueView::Array(a) => a.len() as int,
                ValueView::Object(o) => o.len() as int,
                ValueView::String(s) => vstd::utf8::encode_utf8(s).len() as int,
                _ => 0int,
            }),
    {
        match self {
            Value::Array(a) => {
                proof {
                    lemma_array_view(a@);
                }
                assert(self@ == ValueView::Array(array_view(a@)));
                a.len()
            },
            Value::Object(o) => {
                proof {
                    lemma_object_view(o@);
                }
                assert(self@ == ValueView::Object(object_view(o@)));
                o.len()
            },
            Value::String(s) => {
                let n = s.as_str().as_bytes().len();
                assert(self@ == ValueView::String(s@));
                n
            },
            _ => 0,
        }
    }
}

/// The integer a double's bits stand for (see `float_to_int`).
fn float_bits_to_int(bits: u64) -> (r: i64)
    ensures
        r == float_to_int(bits),
{
    let neg = bits >= 0x8000_0000_0000_0000;
    let e = (bits / 0x10_0000_0000_0000) % 0x800;
    let m = bits % 0x10_0000_0000_0000;
    if e == 0x7ff && m != 0 {
        0
    } else if e < 1023 {
        0
    } else if e >= 1023 + 63 {
        if neg { i64::MIN } else { i64::MAX }
    } else {
        let full: u64 = m + 0x10_0000_0000_0000;
        let mag: u64 = if e >= 1075 {
            let k = e - 1075;
            proof {
                vstd::arithmetic::power2::lemma2_to64();
                lemma_pow2_bound(k as nat);
                assert(full * vstd::arithmetic::power2::pow2(k as nat) < 0x8000_0000_0000_0000) by (nonlinear_arith)
                    requires
                        full < 0x20_0000_0000_0000,
                        vstd::arithmetic::power2::pow2(k as nat) <= 0x400,
                ;
            }
            full * pow2_exec(k)
        } else {
            full / pow2_exec(1075 - e)
        };
        proof {
            if e >= 1075 {
            } else {
                vstd::arithmetic::div_mod::lemma_div_is_ordered_by_denominator(full as int, 1, vstd::arithmetic::power2::pow2((1075 - e) as nat) as int);
            }
        }
        if neg { -(mag as i64) } else { mag as i64 }
    }
}

proof fn lemma_pow2_bound(k: nat)
    requires
        k <= 10,
    ensures
        vstd::arithmetic::power2::pow2(k) <= 0x400,
{
    vstd::arithmetic::power2::lemma2_to64();
    if k < 10 {
        vstd::arithmetic::power2::lemma_pow2_strictly_increases(k, 10);
    }
}

/// `2` to the power `k`.
fn pow2_exec(k: u64) -> (r: u64)
    requires
        k < 64,
    ensures
        r as int == vstd::arithmetic::power2::pow2(k as nat),
        r >= 1,
{
    let mut r: u64 = 1;
    let mut i: u64 = 0;
    proof {
        vstd::arithmetic::power2::lemma2_to64();
    }
    while i < k
        invariant
            i <= k,
            k < 64,
            r as int == vstd::arithmetic::power2::pow2(i as nat),
        decreases k - i,
    {
        proof {
            vstd::arithmetic::power2::lemma_pow2_adds(i as nat, 1);
            vstd::arithmetic::power2::lemma_pow2_strictly_increases((i + 1) as nat, 64);
            vstd::arithmetic::power2::lemma2_to64();
        }
        r = r * 2;
        i = i + 1;
    }
    proof {
        vstd::arithmetic::power2::lemma_pow2_pos(k as nat);
    }
    r
}

/// A serialisation error.
#[derive(Debug, Clone)]
pub struct Error {
    message: String,
}

impl Error {
    pub closed spec fn msg(&self) -> Seq<char> {
        self.message@
    }

    pub fn new(msg: String) -> (r: Error)
        ensures
            r.msg() == msg@,
    {
        Error { message: msg }
    }
}

} // verus!
