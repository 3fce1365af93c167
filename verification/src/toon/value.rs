//! TOON values and documents.
use vstd::prelude::*;
use crate::strmap::StrMap;
use crate::text::str_eq;

verus! {

/// A TOON value. Floating-point numbers are not held here.
#[derive(Debug)]
pub enum ToonValue {
    Null,
    Bool(bool),
    Integer(i64),
    String(String),
    Binary(Vec<u8>),
    List(Vec<ToonValue>),
    Mapping(Vec<(String, ToonValue)>),
}

/// The mathematical form of a TOON value.
pub enum ToonView {
    Null,
    Bool(bool),
    Integer(i64),
    String(Seq<char>),
    Binary(Seq<u8>),
    List(Seq<ToonView>),
    Mapping(Seq<(Seq<char>, ToonView)>),
}

/// The mathematical form of a value.
pub open spec fn value_view(v: ToonValue) -> ToonView
    decreases v,
{
    match v {
        ToonValue::Null => ToonView::Null,
        ToonValue::Bool(b) => ToonView::Bool(b),
        ToonValue::Integer(i) => ToonView::Integer(i),
        ToonValue::String(s) => ToonView::String(s@),
        ToonValue::Binary(d) => ToonView::Binary(d@),
        ToonValue::List(l) => ToonView::List(list_view(l@)),
        ToonValue::Mapping(m) => ToonView::Mapping(entries_view(m@)),
    }
}

/// The forms of a list of values.
pub open spec fn list_view(s: Seq<ToonValue>) -> Seq<ToonView>
    decreases s,
{
    if s.len() == 0 {
        Seq::empty()
    } else {
        list_view(s.drop_last()).push(value_view(s.last()))
    }
}

/// The forms of a list of named values.
pub open spec fn entries_view(s: Seq<(String, ToonValue)>) -> Seq<(Seq<char>, ToonView)>
    decreases s,
{
    if s.len() == 0 {
        Seq::empty()
    } else {
        entries_view(s.drop_last()).push((s.last().0@, value_view(s.last().1)))
    }
}

impl View for ToonValue {
    type V = ToonView;

    open spec fn view(&self) -> ToonView {
        value_view(*self)
    }
}

pub proof fn lemma_list_view(s: Seq<ToonValue>)
    ensures
        list_view(s).len() == s.len(),
        forall|i: int| 0 <= i < s.len() ==> #[trigger] list_view(s)[i] == value_view(s[i]),
    decreases s.len(),
{
    if s.len() > 0 {
        lemma_list_view(s.drop_last());
    }
}

pub proof fn lemma_entries_view(s: Seq<(String, ToonValue)>)
    ensures
        entries_view(s).len() == s.len(),
        forall|i: int| 0 <= i < s.len() ==> #[trigger] entries_view(s)[i] == (s[i].0@, value_view(s[i].1)),
    decreases s.len(),
{
    if s.len() > 0 {
        lemma_entries_view(s.drop_last());
    }
}

/// No two entries have the same name.
pub open spec fn distinct_names(s: Seq<(String, ToonValue)>) -> bool {
    forall|i: int, j: int| 0 <= i < j < s.len() ==> s[i].0@ != s[j].0@
}

/// The index of the entry named `k`, or -1.
pub open spec fn find_name(s: Seq<(Seq<char>, ToonView)>, k: Seq<char>) -> int
    decreases s.len(),
{
    if s.len() == 0 {
        -1
    } else if s[0].0 == k {
        0
    } else {
        let r = find_name(s.drop_first(), k);
        if r < 0 { -1 } else { r + 1 }
    }
}

impl ToonValue {
    pub fn null() -> (r: Self)
        ensures
            r@ == ToonView::Null,
    {
        ToonValue::Null
    }

    pub fn bool(b: bool) -> (r: Self)
        ensures
            r@ == ToonView::Bool(b),
    {
        ToonValue::Bool(b)
    }

    pub fn integer(n: i64) -> (r: Self)
        ensures
            r@ == ToonView::Integer(n),
    {
        ToonValue::Integer(n)
    }

    pub fn string(s: String) -> (r: Self)
        ensures
            r@ == ToonView::String(s@),
    {
        ToonValue::String(s)
    }

    pub fn binary(data: Vec<u8>) -> (r: Self)
        ensures
            r@ == ToonView::Binary(data@),
    {
        ToonValue::Binary(data)
    }

    pub fn list(list: Vec<ToonValue>) -> (r: Self)
        ensures
            r@ == ToonView::List(list_view(list@)),
    {
        ToonValue::List(list)
    }

    /// A map of the given entries, whose names are distinct.
    pub fn map(entries: Vec<(String, ToonValue)>) -> (r: Self)
        requires
            distinct_names(entries@),
        ensures
            r@ == ToonView::Mapping(entries_view(entries@)),
    {
        ToonValue::Mapping(entries)
    }

    pub fn is_null(&self) -> (r: bool)
        ensures
            r == (self@ is Null),
    {
        match self {
            ToonValue::Null => true,
            _ => false,
        }
    }

    pub fn as_bool(&self) -> (r: Option<bool>)
        ensures
            r == (match self@ {
                ToonView::Bool(b) => Some(b),
                _ => None::<bool>,
            }),
    {
        match self {
            ToonValue::Bool(b) => Some(*b),
            _ => None,
        }
    }

    pub fn as_i64(&self) -> (r: Option<i64>)
        ensures
            r == (match self@ {
                ToonView::Integer(i) => Some(i),
                _ => None::<i64>,
            }),
    {
        match self {
            ToonValue::Integer(i) => Some(*i),
            _ => None,
        }
    }

    pub fn as_string(&self) -> (r: Option<&String>)
        ensures
            match self@ {
                ToonView::String(s) => r matches Some(x) && x@ == s,
                _ => r is None,
            },
    {
        match self {
            ToonValue::String(s) => Some(s),
            _ => None,
        }
    }

    pub fn as_binary(&self) -> (r: Option<&Vec<u8>>)
        ensures
            match self@ {
                ToonView::Binary(d) => r matches Some(x) && x@ == d,
                _ => r is None,
            },
    {
        match self {
            ToonValue::Binary(d) => Some(d),
            _ => None,
        }
    }

    pub fn as_list(&self) -> (r: Option<&Vec<ToonValue>>)
        ensures
            match self@ {
                ToonView::List(l) => r matches Some(x) && list_view(x@) == l,
                _ => r is None,
            },
    {
        match self {
            ToonValue::List(l) => Some(l),
            _ => None,
        }
    }

    pub fn as_map(&self) -> (r: Option<&Vec<(String, ToonValue)>>)
        ensures
            match self@ {
                ToonView::Mapping(m) => r matches Some(x) && entries_view(x@) == m,
                _ => r is None,
            },
    {
        match self {
            ToonValue::Mapping(m) => Some(m),
            _ => None,
        }
    }

    /// The value named `key` in a map (the first such entry).
    pub fn get(&self, key: &str) -> (r: Option<&ToonValue>)
        ensures
            match self@ {
                ToonView::Mapping(m) => {
                    let i = find_name(m, key@);
                    if i >= 0 { r matches Some(x) && x@ == m[i].1 } else { r is None }
                },
                _ => r is None,
            },
    {
        match self {
            ToonValue::Mapping(m) => {
                let ghost mv = entries_view(m@);
                proof {
                    lemma_entries_view(m@);
                }
                let mut i: usize = 0;
                assert(mv.skip(0) =~= mv);
                assert(self@ == ToonView::Mapping(mv));
                while i < m.len()
                    invariant
                        self@ == ToonView::Mapping(mv),
                        i <= m@.len(),
                        mv == entries_view(m@),
                        mv.len() == m@.len(),
                        forall|j: int| 0 <= j < m@.len() ==> #[trigger] mv[j] == (m@[j].0@, value_view(m@[j].1)),
                        find_name(mv, key@) == if find_name(mv.skip(i as int), key@) < 0 {
                            -1
                        } else {
                            find_name(mv.skip(i as int), key@) + i
                        },
                    decreases m@.len() - i,
                {
                    let ghost rest = mv.skip(i as int);
                    assert(rest[0] == mv[i as int]);
                    if str_eq(m[i].0.as_str(), key) {
                        assert(find_name(rest, key@) == 0);
                        assert(find_name(mv, key@) == i);
                        assert(mv[i as int].1 == value_view(m@[i as int].1));
                        return Some(&m[i].1);
                    }
                    assert(rest.drop_first() =~= mv.skip(i + 1));
                    i = i + 1;
                }
                assert(mv.skip(i as int).len() == 0);
                None
            },
            _ => None,
        }
    }

    /// The element at `idx` of a list.
    pub fn index(&self, idx: usize) -> (r: Option<&ToonValue>)
        ensures
            match self@ {
                ToonView::List(l) => if idx < l.len() { r matches Some(x) && x@ == l[idx as int] } else { r is None },
                _ => r is None,
            },
    {
        match self {
            ToonValue::List(l) => {
                proof {
                    lemma_list_view(l@);
                }
                if idx < l.len() {
                    Some(&l[idx])
                } else {
                    None
                }
            },
            _ => None,
        }
    }

    /// Elements of a list, entries of a map, bytes of a text or of binary
    /// data; zero for other values.
    pub fn len(&self) -> (r: usize)
        ensures
            r as int == (match self@ {
                ToonView::List(l) => l.len() as int,
                ToonView::Mapping(m) => m.len() as int,
                ToonView::String(s) => vstd::utf8::encode_utf8(s).len() as int,
                ToonView::Binary(d) => d.len() as int,
                _ => 0int,
            }),
    {
        match self {
            ToonValue::List(l) => {
                proof {
                    lemma_list_view(l@);
                    assert(self@ == ToonView::List(list_view(l@)));
                }
                l.len()
            },
            ToonValue::Mapping(m) => {
                proof {
                    lemma_entries_view(m@);
                    assert(self@ == ToonView::Mapping(entries_view(m@)));
                }
                m.len()
            },
            ToonValue::String(s) => {
                let n = s.as_str().as_bytes().len();
                assert(self@ == ToonView::String(s@));
                assert(n as int == vstd::utf8::encode_utf8(s@).len());
                n
            },
            ToonValue::Binary(d) => d.len(),
            _ => 0,
        }
    }
}

/// A TOON document: a root value and named notes.
pub struct ToonDocument {
    pub root: ToonValue,
    pub metadata: StrMap<String>,
}

impl ToonDocument {
    /// A document with a null root and no notes.
    pub fn new() -> (r: Self)
        ensures
            r.root@ == ToonView::Null,
            r.metadata@ == Map::<Seq<char>, String>::empty(),
    {
        ToonDocument { root: ToonValue::Null, metadata: StrMap::new() }
    }

    pub fn set_root(&mut self, root: ToonValue)
        ensures
            final(self).root == root,
            final(self).metadata == old(self).metadata,
    {
        self.root = root;
    }

    pub fn get_root(&self) -> (r: &ToonValue)
        ensures
            *r == self.root,
    {
        &self.root
    }

    /// Names `value` under `key`, replacing an earlier note of that name.
    pub fn add_metadata(&mut self, key: String, value: String)
        ensures
            final(self).metadata@ == old(self).metadata@.insert(key@, value),
            final(self).root == old(self).root,
    {
        self.metadata.insert(key, value);
    }

    pub fn get_metadata(&self, key: &str) -> (r: Option<&String>)
        ensures
            match r {
                Some(v) => self.metadata@.contains_key(key@) && *v == self.metadata@[key@],
                None => !self.metadata@.contains_key(key@),
            },
    {
        self.metadata.get(key)
    }
}

} // verus!
