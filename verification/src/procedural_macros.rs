//! Procedural macros of the compiler: derive, attribute and function-like
//! macros kept in a registry by name.
use vstd::prelude::*;
use std::sync::Arc;
use crate::text::{owned, str_eq, string_push_str, chars_of, string_from_chars};

verus! {

/// Errors of macro expansion.
#[derive(Debug, Clone)]
pub enum MacroError {
    ParseError(String),
    ExpansionError(String),
    TypeCheckError(String),
    NameConflict(String),
    InvalidInput(String),
}

/// A macro known by its name.
pub trait ProceduralMacro {
    /// The name the macro is invoked by.
    spec fn macro_name(&self) -> Seq<char>;

    /// The name the macro is invoked by.
    fn name(&self) -> (r: String)
        ensures
            r@ == self.macro_name(),
    ;
}

/// What a derive macro may be applied to.
#[derive(Debug, Clone, Copy, PartialEq, Eq, Structural)]
pub enum DeriveTarget {
    Struct,
    Enum,
    Union,
}

/// A derive macro such as `Clone`.
pub struct DeriveMacro {
    name: String,
    target: DeriveTarget,
}

impl DeriveMacro {
    pub closed spec fn macro_target(&self) -> DeriveTarget {
        self.target
    }

    pub fn new(name: String, target: DeriveTarget) -> (r: DeriveMacro)
        ensures
            r.macro_name() == name@,
            r.macro_target() == target,
    {
        DeriveMacro { name, target }
    }
}

impl ProceduralMacro for DeriveMacro {
    closed spec fn macro_name(&self) -> Seq<char> {
        self.name@
    }

    fn name(&self) -> (r: String) {
        self.name.clone()
    }
}

/// An attribute macro such as `test`.
pub struct AttributeMacro {
    name: String,
}

impl AttributeMacro {
    pub fn new(name: String) -> (r: AttributeMacro)
        ensures
            r.macro_name() == name@,
    {
        AttributeMacro { name }
    }
}

impl ProceduralMacro for AttributeMacro {
    closed spec fn macro_name(&self) -> Seq<char> {
        self.name@
    }

    fn name(&self) -> (r: String) {
        self.name.clone()
    }
}

/// A function-like macro such as `vec`.
pub struct FunctionLikeMacro {
    name: String,
}

impl FunctionLikeMacro {
    pub fn new(name: String) -> (r: FunctionLikeMacro)
        ensures
            r.macro_name() == name@,
    {
        FunctionLikeMacro { name }
    }
}

impl ProceduralMacro for FunctionLikeMacro {
    closed spec fn macro_name(&self) -> Seq<char> {
        self.name@
    }

    fn name(&self) -> (r: String) {
        self.name.clone()
    }
}

/// Macros by name, in registration order; a name registered twice is
/// found at its last registration.
pub struct MacroRegistry<M: ProceduralMacro> {
    macros: Vec<(String, Arc<M>)>,
}

impl<M: ProceduralMacro> MacroRegistry<M> {
    /// The registered names, in order.
    pub closed spec fn names(&self) -> Seq<Seq<char>> {
        self.macros@.map_values(|e: (String, Arc<M>)| e.0@)
    }

    /// The registered macros, in order.
    pub closed spec fn entries(&self) -> Seq<Arc<M>> {
        self.macros@.map_values(|e: (String, Arc<M>)| e.1)
    }

    pub fn new() -> (r: MacroRegistry<M>)
        ensures
            r.names() == Seq::<Seq<char>>::empty(),
            r.entries() == Seq::<Arc<M>>::empty(),
    {
        let r = MacroRegistry { macros: Vec::new() };
        assert(r.names() =~= Seq::<Seq<char>>::empty());
        assert(r.entries() =~= Seq::<Arc<M>>::empty());
        r
    }

    /// Registers a macro under the name it reports.
    pub fn register(&mut self, mac: Arc<M>)
        ensures
            final(self).entries() == old(self).entries().push(mac),
            final(self).names() == old(self).names().push(mac.macro_name()),
    {
        let name = mac.name();
        let ghost m = mac;
        self.macros.push((name, mac));
        assert(self.entries() =~= old(self).entries().push(m));
        assert(self.names() =~= old(self).names().push(m.macro_name()));
    }

    /// The macro registered last under `name`: a later registration under the
    /// same name replaces an earlier one.
    pub fn get(&self, name: &str) -> (r: Option<Arc<M>>)
        ensures
            match r {
                Some(m) => exists|i: int| 0 <= i < self.names().len() && self.names()[i] == name@ && self.entries()[i] == m
                    && forall|j: int| i < j < self.names().len() ==> #[trigger] self.names()[j] != name@,
                None => forall|j: int| 0 <= j < self.names().len() ==> #[trigger] self.names()[j] != name@,
            },
    {
        let mut i: usize = self.macros.len();
        while i > 0
            invariant
                i <= self.macros@.len(),
                forall|j: int| i <= j < self.names().len() ==> #[trigger] self.names()[j] != name@,
            decreases i,
        {
            let k = i - 1;
            if str_eq(self.macros[k].0.as_str(), name) {
                let m = self.macros[k].1.clone();
                assert(self.names()[k as int] == name@);
                assert(self.entries()[k as int] == m);
                return Some(m);
            }
            assert(self.names()[k as int] == self.macros@[k as int].0@);
            i = k;
        }
        None
    }
}


/// What `char::to_uppercase` yields for a character.
pub uninterp spec fn char_upper(c: char) -> Seq<char>;

/// `char::to_uppercase`: the upper-case form of a character, which for an
/// ASCII lower-case letter is the matching upper-case letter.
#[verifier::external_body]
fn upper_text(c: char) -> (r: String)
    ensures
        r@ == char_upper(c),
        'a' <= c <= 'z' ==> r@ == seq![((c as u32) - 32) as char],
{
    c.to_uppercase().collect::<String>()
}

/// The upper-case form of `c`: for an ASCII lower-case letter the matching
/// upper-case letter, otherwise what `char::to_uppercase` yields.
pub open spec fn upper_of(c: char) -> Seq<char> {
    if 'a' <= c <= 'z' {
        seq![((c as u32) - 32) as char]
    } else {
        char_upper(c)
    }
}

/// Camel case of the text from here on, `start` telling whether a word
/// begins: underscores are dropped and the first character of each word is
/// upper-cased.
pub open spec fn camel_from(s: Seq<char>, start: bool) -> Seq<char>
    decreases s.len(),
{
    if s.len() == 0 {
        Seq::empty()
    } else if s[0] == '_' {
        camel_from(s.drop_first(), true)
    } else {
        (if start { upper_of(s[0]) } else { seq![s[0]] }) + camel_from(s.drop_first(), false)
    }
}

/// `snake_case` to `CamelCase`: the text split at underscores, each piece
/// with its first character upper-cased, joined.
pub fn to_camel_case(s: &str) -> (r: String)
    ensures
        r@ == camel_from(s@, true),
{
    let v = chars_of(s);
    let mut out = String::new();
    let mut start = true;
    let mut i: usize = 0;
    assert(v@.skip(0) =~= v@);
    while i < v.len()
        invariant
            i <= v@.len(),
            v@ == s@,
            camel_from(s@, true) == out@ + camel_from(v@.skip(i as int), start),
        decreases v@.len() - i,
    {
        let ghost rest = v@.skip(i as int);
        assert(rest[0] == v@[i as int]);
        assert(rest.drop_first() =~= v@.skip(i + 1));
        let c = v[i];
        if c == '_' {
            start = true;
        } else if start {
            let u = upper_text(c);
            let ghost before = out@;
            string_push_str(&mut out, u.as_str());
            assert(before + (u@ + camel_from(v@.skip(i + 1), false)) =~= out@ + camel_from(v@.skip(i + 1), false));
            start = false;
        } else {
            let ghost before = out@;
            crate::text::string_push(&mut out, c);
            assert(before + (seq![c] + camel_from(v@.skip(i + 1), false)) =~= out@ + camel_from(v@.skip(i + 1), false));
        }
        i = i + 1;
    }
    assert(v@.skip(i as int) =~= Seq::<char>::empty());
    assert(out@ + Seq::<char>::empty() =~= out@);
    out
}

} // verus!
