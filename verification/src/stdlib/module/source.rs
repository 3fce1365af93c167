//! Reading module text: lines, tokens and the items they declare.
use vstd::prelude::*;
use crate::text::{str_eq, string_push, string_push_str, string_from_chars, chars_of, owned};
use crate::strops::{replace_all_spec, replace_str};
use crate::stdlib::path::{Path, components, normalize_spec};
use crate::stdlib::generics::{GenericParamList, Type};
use super::{
    ConstItem, EnumItem, Error, FunctionItem, FunctionSignature, ImplItem, ItemKind, Module, ModuleItem,
    ModuleParser, StaticItem, StructItem, TraitItem, TypeItem, UseItem, Visibility, VisibilityView,
};

verus! {

/// Whether `c` has the Unicode White_Space property, as
/// `char::is_whitespace` documents it.
pub open spec fn is_white(c: char) -> bool {
    ('\u{9}' <= c && c <= '\u{d}') || c == ' ' || c == '\u{85}' || c == '\u{a0}' || c == '\u{1680}'
        || ('\u{2000}' <= c && c <= '\u{200a}') || c == '\u{2028}' || c == '\u{2029}' || c == '\u{202f}'
        || c == '\u{205f}' || c == '\u{3000}'
}

fn is_white_exec(c: char) -> (r: bool)
    ensures
        r == is_white(c),
{
    ('\u{9}' <= c && c <= '\u{d}') || c == ' ' || c == '\u{85}' || c == '\u{a0}' || c == '\u{1680}'
        || ('\u{2000}' <= c && c <= '\u{200a}') || c == '\u{2028}' || c == '\u{2029}' || c == '\u{202f}'
        || c == '\u{205f}' || c == '\u{3000}'
}

/// The characters that end the token before them and stand as tokens of
/// their own.
pub open spec fn is_punct(c: char) -> bool {
    c == '(' || c == ')' || c == '{' || c == '}' || c == '[' || c == ']' || c == ',' || c == ':' || c == ';'
        || c == '<' || c == '>' || c == '-'
}

/// Tokens so far, the token being read, and whether a quote is open.
pub type TokState = (Seq<Seq<char>>, Seq<char>, bool);

/// The tokens with the one being read closed, if it holds anything.
pub open spec fn flush(toks: Seq<Seq<char>>, cur: Seq<char>) -> Seq<Seq<char>> {
    if cur.len() > 0 {
        toks.push(cur)
    } else {
        toks
    }
}

/// One character read: a quote opens or closes a string, text inside a
/// string is kept as it is, whitespace ends a token, and a punctuation mark
/// is a token of its own, except that `-` after `>` makes `->` and `:`
/// after `:` makes `::`.
pub open spec fn tok_step(st: TokState, c: char) -> TokState {
    let toks = st.0;
    let cur = st.1;
    let ins = st.2;
    if c == '"' {
        (toks, cur.push(c), !ins)
    } else if ins {
        (toks, cur.push(c), ins)
    } else if is_white(c) {
        (flush(toks, cur), Seq::empty(), ins)
    } else if is_punct(c) {
        let t = flush(toks, cur);
        if c == '-' && t.len() > 0 && t.last() == seq!['>'] {
            (t.drop_last().push(seq!['-', '>']), Seq::empty(), ins)
        } else if c == ':' && t.len() > 0 && t.last() == seq![':'] {
            (t.drop_last().push(seq![':', ':']), Seq::empty(), ins)
        } else {
            (t.push(seq![c]), Seq::empty(), ins)
        }
    } else {
        (toks, cur.push(c), ins)
    }
}

/// The state after reading `s`.
pub open spec fn tok_run(s: Seq<char>) -> TokState
    decreases s.len(),
{
    if s.len() == 0 {
        (Seq::empty(), Seq::empty(), false)
    } else {
        tok_step(tok_run(s.drop_last()), s.last())
    }
}

/// The tokens of a line.
pub open spec fn tokenize_spec(s: Seq<char>) -> Seq<Seq<char>> {
    flush(tok_run(s).0, tok_run(s).1)
}

/// Tokens joined with single spaces.
pub open spec fn join_spaced(toks: Seq<Seq<char>>) -> Seq<char>
    decreases toks.len(),
{
    if toks.len() == 0 {
        Seq::empty()
    } else if toks.len() == 1 {
        toks[0]
    } else {
        join_spaced(toks.drop_last()) + seq![' '] + toks.last()
    }
}

/// The number of characters of `s` that are not whitespace.
pub open spec fn solid_count(s: Seq<char>) -> nat
    decreases s.len(),
{
    if s.len() == 0 {
        0
    } else {
        solid_count(s.drop_last()) + if is_white(s.last()) { 0nat } else { 1nat }
    }
}

/// The number of non-whitespace characters over all tokens.
pub open spec fn solid_total(toks: Seq<Seq<char>>) -> nat
    decreases toks.len(),
{
    if toks.len() == 0 {
        0
    } else {
        solid_total(toks.drop_last()) + solid_count(toks.last())
    }
}

proof fn lemma_solid_push(s: Seq<char>, c: char)
    ensures
        solid_count(s.push(c)) == solid_count(s) + if is_white(c) { 0nat } else { 1nat },
{
    assert(s.push(c).drop_last() =~= s);
}

proof fn lemma_solid_concat(x: Seq<char>, y: Seq<char>)
    ensures
        solid_count(x + y) == solid_count(x) + solid_count(y),
    decreases y.len(),
{
    if y.len() > 0 {
        lemma_solid_concat(x, y.drop_last());
        assert((x + y).drop_last() =~= x + y.drop_last());
    } else {
        assert(x + y =~= x);
    }
}

proof fn lemma_total_push(toks: Seq<Seq<char>>, t: Seq<char>)
    ensures
        solid_total(toks.push(t)) == solid_total(toks) + solid_count(t),
{
    assert(toks.push(t).drop_last() =~= toks);
}

proof fn lemma_total_flush(toks: Seq<Seq<char>>, cur: Seq<char>)
    ensures
        solid_total(flush(toks, cur)) == solid_total(toks) + solid_count(cur),
{
    if cur.len() > 0 {
        lemma_total_push(toks, cur);
    }
}

/// Reading keeps every non-whitespace character in exactly one token.
proof fn lemma_run_solid(s: Seq<char>)
    ensures
        solid_total(tok_run(s).0) + solid_count(tok_run(s).1) == solid_count(s),
    decreases s.len(),
{
    if s.len() > 0 {
        let p = s.drop_last();
        let c = s.last();
        lemma_run_solid(p);
        let st = tok_run(p);
        let toks = st.0;
        let cur = st.1;
        lemma_solid_push(cur, c);
        lemma_total_flush(toks, cur);
        let t = flush(toks, cur);
        if !(c == '"' || st.2) && !is_white(c) && is_punct(c) {
            if c == '-' && t.len() > 0 && t.last() == seq!['>'] {
                lemma_total_push(t.drop_last(), seq!['>']);
                assert(t.drop_last().push(seq!['>']) =~= t);
                lemma_total_push(t.drop_last(), seq!['-', '>']);
                assert(seq!['-', '>'].drop_last() =~= seq!['-']);
                assert(seq!['-'].drop_last() =~= Seq::<char>::empty());
                assert(seq!['>'].drop_last() =~= Seq::<char>::empty());
            } else if c == ':' && t.len() > 0 && t.last() == seq![':'] {
                lemma_total_push(t.drop_last(), seq![':']);
                assert(t.drop_last().push(seq![':']) =~= t);
                lemma_total_push(t.drop_last(), seq![':', ':']);
                assert(seq![':', ':'].drop_last() =~= seq![':']);
                assert(seq![':'].drop_last() =~= Seq::<char>::empty());
            } else {
                lemma_total_push(t, seq![c]);
                assert(seq![c].drop_last() =~= Seq::<char>::empty());
            }
        }
        assert(Seq::<char>::empty().len() == 0);
        assert(s.drop_last() =~= p);
    }
}

/// The tokens of a line hold all its non-whitespace characters.
pub proof fn lemma_tokens_solid(s: Seq<char>)
    ensures
        solid_total(tokenize_spec(s)) == solid_count(s),
{
    lemma_run_solid(s);
    lemma_total_flush(tok_run(s).0, tok_run(s).1);
}

/// Joining with spaces adds no non-whitespace character.
pub proof fn lemma_join_solid(toks: Seq<Seq<char>>)
    ensures
        solid_count(join_spaced(toks)) == solid_total(toks),
    decreases toks.len(),
{
    if toks.len() == 1 {
        assert(toks.drop_last() =~= Seq::<Seq<char>>::empty());
        assert(solid_total(toks) == solid_total(toks.drop_last()) + solid_count(toks.last()));
    } else if toks.len() > 1 {
        lemma_join_solid(toks.drop_last());
        lemma_solid_concat(join_spaced(toks.drop_last()), seq![' ']);
        lemma_solid_concat(join_spaced(toks.drop_last()) + seq![' '], toks.last());
        assert(seq![' '].drop_last() =~= Seq::<char>::empty());
        lemma_solid_push(Seq::<char>::empty(), ' ');
        assert(Seq::<char>::empty().push(' ') =~= seq![' ']);
        assert(solid_count(seq![' ']) == 0);
        assert(solid_total(toks) == solid_total(toks.drop_last()) + solid_count(toks.last()));
    } else {
        assert(solid_total(toks) == 0);
    }
}

/// The first token counts apart from the rest.
pub proof fn lemma_total_first(toks: Seq<Seq<char>>)
    requires
        toks.len() > 0,
    ensures
        solid_total(toks) == solid_count(toks[0]) + solid_total(toks.drop_first()),
    decreases toks.len(),
{
    if toks.len() > 1 {
        lemma_total_first(toks.drop_last());
        assert(toks.drop_last().drop_first() =~= toks.drop_first().drop_last());
    } else {
        assert(toks.drop_first() =~= Seq::<Seq<char>>::empty());
        assert(toks.drop_last() =~= Seq::<Seq<char>>::empty());
    }
}

/// The tokens of a line, as `String`s.
pub fn tokenize(line: &Vec<char>) -> (r: Vec<String>)
    ensures
        r@.map_values(|t: String| t@) == tokenize_spec(line@),
{
    let mut toks: Vec<String> = Vec::new();
    let mut cur: Vec<char> = Vec::new();
    let mut ins: bool = false;
    let mut i: usize = 0;
    assert(line@.take(0) =~= Seq::<char>::empty());
    assert(toks@.map_values(|t: String| t@) =~= Seq::<Seq<char>>::empty());
    while i < line.len()
        invariant
            i <= line@.len(),
            toks@.map_values(|t: String| t@) == tok_run(line@.take(i as int)).0,
            cur@ == tok_run(line@.take(i as int)).1,
            ins == tok_run(line@.take(i as int)).2,
        decreases line@.len() - i,
    {
        let c = line[i];
        let ghost st = tok_run(line@.take(i as int));
        assert(line@.take(i + 1).drop_last() =~= line@.take(i as int));
        assert(line@.take(i + 1).last() == c);
        let ghost next = tok_step(st, c);
        if c == '"' {
            cur.push(c);
            ins = !ins;
        } else if ins {
            cur.push(c);
        } else if is_white_exec(c) {
            if cur.len() > 0 {
                let ghost before = toks@;
                toks.push(string_from_chars(&cur));
                assert(toks@.map_values(|t: String| t@) =~= before.map_values(|t: String| t@).push(cur@));
            }
            cur = Vec::new();
        } else if c == '(' || c == ')' || c == '{' || c == '}' || c == '[' || c == ']' || c == ',' || c == ':'
            || c == ';' || c == '<' || c == '>' || c == '-' {
            if cur.len() > 0 {
                let ghost before = toks@;
                toks.push(string_from_chars(&cur));
                assert(toks@.map_values(|t: String| t@) =~= before.map_values(|t: String| t@).push(cur@));
            }
            cur = Vec::new();
            let n = toks.len();
            let ghost t = toks@.map_values(|t: String| t@);
            let merge_arrow = c == '-' && n > 0 && last_is(&toks[n - 1], '>');
            let merge_path = c == ':' && n > 0 && last_is(&toks[n - 1], ':');
            if merge_arrow || merge_path {
                let mut m = String::new();
                if merge_arrow {
                    string_push(&mut m, '-');
                    string_push(&mut m, '>');
                } else {
                    string_push(&mut m, ':');
                    string_push(&mut m, ':');
                }
                let ghost before = toks@;
                toks.pop();
                toks.push(m);
                proof {
                    assert(t.last() == before[n - 1]@);
                    assert(toks@.map_values(|t: String| t@) =~= t.drop_last().push(m@));
                    if merge_arrow {
                        assert(m@ =~= seq!['-', '>']);
                    } else {
                        assert(m@ =~= seq![':', ':']);
                    }
                }
            } else {
                let mut m = String::new();
                string_push(&mut m, c);
                let ghost before = toks@;
                toks.push(m);
                proof {
                    assert(m@ =~= seq![c]);
                    assert(toks@.map_values(|t: String| t@) =~= t.push(seq![c]));
                    if c == '-' && n > 0 {
                        assert(t.last() == before[n - 1]@);
                    }
                    if c == ':' && n > 0 {
                        assert(t.last() == before[n - 1]@);
                    }
                }
            }
        } else {
            cur.push(c);
        }
        assert(toks@.map_values(|t: String| t@) == next.0);
        assert(cur@ == next.1);
        i = i + 1;
    }
    assert(line@.take(line@.len() as int) =~= line@);
    if cur.len() > 0 {
        let ghost before = toks@;
        toks.push(string_from_chars(&cur));
        assert(toks@.map_values(|t: String| t@) =~= before.map_values(|t: String| t@).push(cur@));
    }
    toks
}

/// Whether `s` is the one character `c`.
fn last_is(s: &String, c: char) -> (r: bool)
    ensures
        r == (s@ == seq![c]),
{
    let n = s.as_str().unicode_len();
    if n != 1 {
        proof {
            if s@ == seq![c] {
                assert(s@.len() == 1);
            }
        }
        return false;
    }
    let d = s.as_str().get_char(0);
    proof {
        if d == c {
            assert(s@ =~= seq![c]);
        }
    }
    d == c
}


/// The marker of a public item.
pub open spec fn pub_word() -> Seq<char> {
    seq!['p', 'u', 'b']
}

pub proof fn lemma_pub_word_count()
    ensures
        solid_count(pub_word()) == 3,
{
    lemma_solid_push(Seq::<char>::empty(), 'p');
    lemma_solid_push(seq!['p'], 'u');
    lemma_solid_push(seq!['p', 'u'], 'b');
    assert(Seq::<char>::empty().push('p') =~= seq!['p']);
    assert(seq!['p'].push('u') =~= seq!['p', 'u']);
    assert(seq!['p', 'u'].push('b') =~= pub_word());
}

/// Dropping a leading `pub` and joining the other tokens leaves fewer
/// non-whitespace characters.
pub proof fn lemma_pub_shrinks(line: Seq<char>)
    requires
        tokenize_spec(line).len() > 0,
        tokenize_spec(line)[0] == pub_word(),
    ensures
        solid_count(join_spaced(tokenize_spec(line).drop_first())) < solid_count(line),
{
    let toks = tokenize_spec(line);
    lemma_tokens_solid(line);
    lemma_total_first(toks);
    lemma_pub_word_count();
    lemma_join_solid(toks.drop_first());
}

/// What a line declares: the tokens that make the item and whether it is
/// public. Each leading `pub` makes the item public; the tokens after it
/// are joined with spaces and read again.
pub open spec fn line_decl(line: Seq<char>) -> Option<(Seq<Seq<char>>, bool)>
    decreases solid_count(line),
{
    let toks = tokenize_spec(line);
    if toks.len() == 0 {
        None
    } else if toks[0] == pub_word() {
        proof {
            lemma_pub_shrinks(line);
        }
        match line_decl(join_spaced(toks.drop_first())) {
            Some(d) => Some((d.0, true)),
            None => None,
        }
    } else {
        Some((toks, false))
    }
}

/// No generic parameters and no where clause.
pub open spec fn bare_generics(g: GenericParamList) -> bool {
    g.params@.len() == 0 && g.where_clause is None
}

/// A function with signature name `sig`, no parameters, unit result, no
/// generics, no body and no modifiers.
pub open spec fn plain_function(k: ItemKind, sig: Seq<char>) -> bool {
    match k {
        ItemKind::Function(f) => {
            &&& f.sig.name@ == sig
            &&& f.sig.params@.len() == 0
            &&& f.sig.return_type is Unit
            &&& bare_generics(f.sig.generics)
            &&& f.sig.where_clause is None
            &&& f.body is None
            &&& !f.is_inline && !f.is_const && !f.is_unsafe
        },
        _ => false,
    }
}

/// The second token, or empty text.
pub open spec fn second_token(toks: Seq<Seq<char>>) -> Seq<char> {
    if toks.len() > 1 {
        toks[1]
    } else {
        ""@
    }
}

/// The item that tokens declare, visibility aside: the keyword picks the
/// kind and the second token names it; `impl` is named `impl`, `mod` makes a
/// function whose signature is named `mod`, and any other first token makes
/// a function named by that token.
pub open spec fn declares(item: ModuleItem, toks: Seq<Seq<char>>) -> bool {
    let first = toks[0];
    let name = second_token(toks);
    &&& item.doc_comment is None
    &&& item.attributes@.len() == 0
    &&& if first == "fn"@ {
        item.name@ == name && plain_function(item.kind, name)
    } else if first == "struct"@ {
        &&& item.name@ == name
        &&& item.kind matches ItemKind::Struct(x) && x.fields@.len() == 0 && bare_generics(x.generics) && !x.is_pub
            && !x.is_union
    } else if first == "enum"@ {
        &&& item.name@ == name
        &&& item.kind matches ItemKind::Enum(x) && x.variants@.len() == 0 && bare_generics(x.generics) && !x.is_pub
    } else if first == "trait"@ {
        &&& item.name@ == name
        &&& item.kind matches ItemKind::Trait(x) && x.name@ == name && bare_generics(x.generics)
            && x.super_traits@.len() == 0 && x.items@.len() == 0 && !x.is_auto
    } else if first == "impl"@ {
        &&& item.name@ == "impl"@
        &&& item.kind matches ItemKind::Impl(x) && x.target is Unit && bare_generics(x.generics) && x.trait_name is None
            && x.items@.len() == 0 && !x.is_unsafe
    } else if first == "type"@ {
        &&& item.name@ == name
        &&& item.kind matches ItemKind::Type(x) && x.name@ == name && x.ty is Unit && bare_generics(x.generics) && !x.is_pub
    } else if first == "const"@ {
        &&& item.name@ == name
        &&& item.kind matches ItemKind::Const(x) && x.name@ == name && x.ty is Unit && x.value@ == ""@ && !x.is_pub
            && x.is_const
    } else if first == "static"@ {
        &&& item.name@ == name
        &&& item.kind matches ItemKind::Static(x) && x.name@ == name && x.ty is Unit && x.value@ == ""@ && !x.is_pub
            && !x.is_mut
    } else if first == "use"@ {
        &&& item.name@ == name
        &&& item.kind matches ItemKind::Use(x) && x.path@ == name && x.alias is None && !x.is_glob
    } else if first == "mod"@ {
        item.name@ == name && plain_function(item.kind, "mod"@)
    } else {
        item.name@ == first && plain_function(item.kind, first)
    }
}

/// The visibility a declaration gets.
pub open spec fn visibility_of(public: bool) -> VisibilityView {
    if public {
        VisibilityView::Public
    } else {
        VisibilityView::Private
    }
}

/// `item` is what `d` declares.
pub open spec fn item_for(item: ModuleItem, d: (Seq<Seq<char>>, bool)) -> bool {
    declares(item, d.0) && item.visibility@ == visibility_of(d.1)
}

fn plain_function_kind(sig: String) -> (k: ItemKind)
    ensures
        plain_function(k, sig@),
{
    ItemKind::Function(FunctionItem {
        sig: FunctionSignature {
            name: sig,
            params: Vec::new(),
            return_type: Type::Unit,
            generics: GenericParamList::new(),
            where_clause: None,
        },
        body: None,
        is_inline: false,
        is_const: false,
        is_unsafe: false,
    })
}

fn private_item(name: String, kind: ItemKind) -> (r: ModuleItem)
    ensures
        r.name == name,
        r.kind == kind,
        r.visibility@ == VisibilityView::Private,
        r.doc_comment is None,
        r.attributes@.len() == 0,
{
    ModuleItem { name, kind, visibility: Visibility::Private, doc_comment: None, attributes: Vec::new() }
}

/// The item declared by tokens whose first is not `pub`.
fn make_item(toks: &Vec<String>) -> (r: ModuleItem)
    requires
        toks@.len() > 0,
    ensures
        declares(r, toks@.map_values(|t: String| t@)),
        r.visibility@ == VisibilityView::Private,
{
    let ghost tv = toks@.map_values(|t: String| t@);
    assert(tv[0] == toks@[0]@);
    let first = toks[0].as_str();
    let name: String = if toks.len() > 1 {
        assert(tv[1] == toks@[1]@);
        toks[1].clone()
    } else {
        owned("")
    };
    assert(name@ == second_token(tv));
    if str_eq(first, "fn") {
        let sig = name.clone();
        private_item(name, plain_function_kind(sig))
    } else if str_eq(first, "struct") {
        private_item(name, ItemKind::Struct(StructItem {
            fields: Vec::new(),
            generics: GenericParamList::new(),
            is_pub: false,
            is_union: false,
        }))
    } else if str_eq(first, "enum") {
        private_item(name, ItemKind::Enum(EnumItem { variants: Vec::new(), generics: GenericParamList::new(), is_pub: false }))
    } else if str_eq(first, "trait") {
        let n2 = name.clone();
        private_item(name, ItemKind::Trait(TraitItem {
            name: n2,
            generics: GenericParamList::new(),
            super_traits: Vec::new(),
            items: Vec::new(),
            is_auto: false,
        }))
    } else if str_eq(first, "impl") {
        private_item(owned("impl"), ItemKind::Impl(ImplItem {
            target: Type::Unit,
            generics: GenericParamList::new(),
            trait_name: None,
            items: Vec::new(),
            is_unsafe: false,
        }))
    } else if str_eq(first, "type") {
        let n2 = name.clone();
        private_item(name, ItemKind::Type(TypeItem { name: n2, ty: Type::Unit, generics: GenericParamList::new(), is_pub: false }))
    } else if str_eq(first, "const") {
        let n2 = name.clone();
        private_item(name, ItemKind::Const(ConstItem {
            name: n2,
            ty: Type::Unit,
            value: owned(""),
            is_pub: false,
            is_const: true,
        }))
    } else if str_eq(first, "static") {
        let n2 = name.clone();
        private_item(name, ItemKind::Static(StaticItem {
            name: n2,
            ty: Type::Unit,
            value: owned(""),
            is_pub: false,
            is_mut: false,
        }))
    } else if str_eq(first, "use") {
        let n2 = name.clone();
        private_item(name, ItemKind::Use(UseItem { path: n2, alias: None, is_glob: false }))
    } else if str_eq(first, "mod") {
        private_item(name, plain_function_kind(owned("mod")))
    } else {
        let f1 = toks[0].clone();
        let f2 = toks[0].clone();
        private_item(f1, plain_function_kind(f2))
    }
}

/// Tokens after the first joined with single spaces.
fn join_rest(toks: &Vec<String>) -> (r: String)
    requires
        toks@.len() > 0,
    ensures
        r@ == join_spaced(toks@.map_values(|t: String| t@).drop_first()),
{
    let ghost tv = toks@.map_values(|t: String| t@);
    let mut out = String::new();
    let mut k: usize = 1;
    assert(tv.subrange(1, 1) =~= Seq::<Seq<char>>::empty());
    while k < toks.len()
        invariant
            1 <= k <= toks@.len(),
            tv == toks@.map_values(|t: String| t@),
            out@ == join_spaced(tv.subrange(1, k as int)),
        decreases toks@.len() - k,
    {
        let ghost before = tv.subrange(1, k as int);
        let ghost after = tv.subrange(1, k + 1);
        assert(after.drop_last() =~= before);
        assert(after.last() == toks@[k as int]@);
        if k > 1 {
            string_push(&mut out, ' ');
        } else {
            assert(before.len() == 0);
            assert(out@ =~= Seq::<char>::empty());
        }
        string_push_str(&mut out, toks[k].as_str());
        proof {
            if k > 1 {
                assert(out@ =~= join_spaced(before) + seq![' '] + after.last());
            } else {
                assert(after.len() == 1);
                assert(out@ =~= after[0]);
            }
        }
        k = k + 1;
    }
    assert(tv.subrange(1, toks@.len() as int) =~= tv.drop_first());
    out
}

/// The item a trimmed line declares, if any.
fn parse_item(line: &String) -> (r: Option<ModuleItem>)
    ensures
        match line_decl(line@) {
            None => r is None,
            Some(d) => r matches Some(it) && item_for(it, d),
        },
    decreases solid_count(line@),
{
    let chars = chars_of(line.as_str());
    let toks = tokenize(&chars);
    let ghost tv = toks@.map_values(|t: String| t@);
    if toks.len() == 0 {
        return None;
    }
    proof {
        reveal_strlit("pub");
        assert("pub"@ =~= pub_word());
        assert(tv[0] == toks@[0]@);
    }
    if str_eq(toks[0].as_str(), "pub") {
        let rest = join_rest(&toks);
        proof {
            lemma_pub_shrinks(line@);
        }
        match parse_item(&rest) {
            Some(it) => {
                let mut item = it;
                item.visibility = Visibility::Public;
                Some(item)
            },
            None => None,
        }
    } else {
        Some(make_item(&toks))
    }
}


/// `s` without leading whitespace.
pub open spec fn trim_start_spec(s: Seq<char>) -> Seq<char>
    decreases s.len(),
{
    if s.len() > 0 && is_white(s[0]) {
        trim_start_spec(s.drop_first())
    } else {
        s
    }
}

/// `s` without trailing whitespace.
pub open spec fn trim_end_spec(s: Seq<char>) -> Seq<char>
    decreases s.len(),
{
    if s.len() > 0 && is_white(s.last()) {
        trim_end_spec(s.drop_last())
    } else {
        s
    }
}

/// `s` without leading and trailing whitespace.
pub open spec fn trim_spec(s: Seq<char>) -> Seq<char> {
    trim_end_spec(trim_start_spec(s))
}

/// The lines of `s`: the pieces between newline characters, the last one
/// included even when empty.
pub open spec fn line_run(s: Seq<char>) -> Seq<Seq<char>>
    decreases s.len(),
{
    if s.len() == 0 {
        seq![Seq::empty()]
    } else {
        let ls = line_run(s.drop_last());
        if s.last() == '\n' {
            ls.push(Seq::empty())
        } else {
            ls.drop_last().push(ls.last().push(s.last()))
        }
    }
}

/// What one line contributes: nothing when it is blank or a `//` comment,
/// else what its trimmed text declares.
pub open spec fn line_contrib(line: Seq<char>) -> Seq<(Seq<Seq<char>>, bool)> {
    let t = trim_spec(line);
    if t.len() == 0 || (t.len() >= 2 && t[0] == '/' && t[1] == '/') {
        Seq::empty()
    } else {
        match line_decl(t) {
            Some(d) => seq![d],
            None => Seq::empty(),
        }
    }
}

/// What a list of lines declares, in order.
pub open spec fn lines_decls(lines: Seq<Seq<char>>) -> Seq<(Seq<Seq<char>>, bool)>
    decreases lines.len(),
{
    if lines.len() == 0 {
        Seq::empty()
    } else {
        lines_decls(lines.drop_last()) + line_contrib(lines.last())
    }
}

/// What module text declares, line by line.
pub open spec fn content_decls(content: Seq<char>) -> Seq<(Seq<Seq<char>>, bool)> {
    lines_decls(line_run(content))
}

/// The items are those the declarations describe, in order.
pub open spec fn items_match(items: Seq<ModuleItem>, ds: Seq<(Seq<Seq<char>>, bool)>) -> bool {
    items.len() == ds.len() && forall|k: int| 0 <= k < items.len() ==> #[trigger] item_for(items[k], ds[k])
}

/// The module name of a path: its last component (the whole path when it
/// has none) without `.chim`.
pub open spec fn module_name_spec(path: Seq<char>) -> Seq<char> {
    let comps = components(normalize_spec(path));
    replace_all_spec(if comps.len() > 0 { comps.last() } else { path }, ".chim"@, ""@)
}

proof fn lemma_line_run_len(s: Seq<char>)
    ensures
        line_run(s).len() >= 1,
    decreases s.len(),
{
    if s.len() > 0 {
        lemma_line_run_len(s.drop_last());
    }
}

fn module_name(path: &String) -> (r: String)
    ensures
        r@ == module_name_spec(path@),
{
    let p = Path::new(path.clone());
    let base = match p.file_name() {
        Some(f) => f,
        None => path.clone(),
    };
    replace_str(base.as_str(), ".chim", "")
}

/// The first position from `i` on that is not whitespace.
fn skip_white(v: &Vec<char>) -> (r: usize)
    ensures
        r <= v@.len(),
        trim_start_spec(v@) == v@.subrange(r as int, v@.len() as int),
{
    let mut i: usize = 0;
    assert(v@.subrange(0, v@.len() as int) =~= v@);
    while i < v.len() && is_white_exec(v[i])
        invariant
            i <= v@.len(),
            trim_start_spec(v@) == trim_start_spec(v@.subrange(i as int, v@.len() as int)),
        decreases v@.len() - i,
    {
        assert(v@.subrange(i as int, v@.len() as int).drop_first() =~= v@.subrange(i + 1, v@.len() as int));
        i = i + 1;
    }
    i
}

/// `v` without leading and trailing whitespace.
pub(crate) fn trim_chars(v: &Vec<char>) -> (r: Vec<char>)
    ensures
        r@ == trim_spec(v@),
{
    let a = skip_white(v);
    let ghost t = v@.subrange(a as int, v@.len() as int);
    let mut b: usize = v.len();
    assert(t.subrange(0, t.len() as int) =~= t);
    while b > a && is_white_exec(v[b - 1])
        invariant
            a <= b <= v@.len(),
            t == v@.subrange(a as int, v@.len() as int),
            trim_end_spec(t) == trim_end_spec(v@.subrange(a as int, b as int)),
        decreases b,
    {
        assert(v@.subrange(a as int, b as int).drop_last() =~= v@.subrange(a as int, b - 1));
        b = b - 1;
    }
    let mut out: Vec<char> = Vec::new();
    let mut k: usize = a;
    while k < b
        invariant
            a <= k <= b,
            b <= v@.len(),
            out@ == v@.subrange(a as int, k as int),
        decreases b - k,
    {
        out.push(v[k]);
        k = k + 1;
        assert(out@ =~= v@.subrange(a as int, k as int));
    }
    assert(out@ =~= v@.subrange(a as int, b as int));
    out
}

/// Adds what one line declares to the module.
fn add_line(module: &mut Module, line: &Vec<char>)
    ensures
        *final(module) == (Module { items: final(module).items, ..*old(module) }),
        final(module).items@.len() == old(module).items@.len() + line_contrib(line@).len(),
        forall|k: int| 0 <= k < old(module).items@.len() ==> #[trigger] final(module).items@[k] == old(module).items@[k],
        forall|k: int| 0 <= k < line_contrib(line@).len() ==> #[trigger] item_for(
            final(module).items@[old(module).items@.len() + k],
            line_contrib(line@)[k],
        ),
{
    let t = trim_chars(line);
    if t.len() == 0 || (t.len() >= 2 && t[0] == '/' && t[1] == '/') {
        return;
    }
    let text = string_from_chars(&t);
    match parse_item(&text) {
        Some(item) => {
            module.add_item(item);
        },
        None => {},
    }
}

impl ModuleParser {
    /// The number of paths on the reader's stack.
    pub closed spec fn stacked_paths(&self) -> nat {
        self.path_stack@.len()
    }

    /// A reader that is not reading any module and has no paths stacked.
    pub fn new() -> (r: ModuleParser)
        ensures
            !r.reading(),
            r.stacked_paths() == 0,
    {
        ModuleParser { current_module: None, path_stack: Vec::new() }
    }

    /// Whether a module is being read.
    pub closed spec fn reading(&self) -> bool {
        self.current_module is Some
    }

    /// The module that `content` at `path` makes: named after the path, with
    /// one item for each line that declares one, in order. Blank lines and
    /// `//` comments are skipped; each line is trimmed, split into tokens and
    /// read by its first token.
    pub fn parse_module_content(&mut self, content: &String, path: &String) -> (r: Result<Module, Error>)
        ensures
            !final(self).reading(),
            final(self).stacked_paths() == old(self).stacked_paths(),
            r matches Ok(m) && {
                &&& m.name@ == module_name_spec(path@)
                &&& m.path@ == path@
                &&& items_match(m.items@, content_decls(content@))
                &&& m.submodules@.len() == 0
                &&& m.is_public
                &&& m.imports@.len() == 0
                &&& m.exports@.len() == 0
                &&& m.attributes@.len() == 0
            },
    {
        let name = module_name(path);
        let mut module = Module::new(name, path.clone());
        self.current_module = None;
        let chars = chars_of(content.as_str());
        let mut line: Vec<char> = Vec::new();
        let mut i: usize = 0;
        let ghost c = content@;
        assert(c.take(0) =~= Seq::<char>::empty());
        assert(lines_decls(line_run(c.take(0)).drop_last()) =~= Seq::<(Seq<Seq<char>>, bool)>::empty()) by {
            assert(line_run(c.take(0)).drop_last() =~= Seq::<Seq<char>>::empty());
        }
        while i < chars.len()
            invariant
                i <= c.len(),
                chars@ == c,
                c == content@,
                module.name@ == module_name_spec(path@),
                module.path@ == path@,
                module.submodules@.len() == 0,
                module.is_public,
                module.imports@.len() == 0,
                module.exports@.len() == 0,
                module.attributes@.len() == 0,
                line_run(c.take(i as int)).len() >= 1,
                line@ == line_run(c.take(i as int)).last(),
                items_match(module.items@, lines_decls(line_run(c.take(i as int)).drop_last())),
            decreases c.len() - i,
        {
            let ch = chars[i];
            let ghost ls = line_run(c.take(i as int));
            assert(c.take(i + 1).drop_last() =~= c.take(i as int));
            assert(c.take(i + 1).last() == ch);
            proof {
                lemma_line_run_len(c.take(i + 1));
            }
            if ch == '\n' {
                let ghost before = module.items@;
                add_line(&mut module, &line);
                proof {
                    let nls = line_run(c.take(i + 1));
                    assert(nls.drop_last() =~= ls);
                    assert(ls.drop_last().push(ls.last()) =~= ls);
                    assert(lines_decls(ls) == lines_decls(ls.drop_last()) + line_contrib(ls.last()));
                    let ds = lines_decls(ls);
                    assert forall|k: int| 0 <= k < module.items@.len() implies #[trigger] item_for(module.items@[k], ds[k]) by {
                        if k < before.len() {
                            assert(item_for(before[k], lines_decls(ls.drop_last())[k]));
                        } else {
                            assert(item_for(module.items@[before.len() + (k - before.len())], line_contrib(line@)[k - before.len()]));
                        }
                    }
                }
                line = Vec::new();
                proof {
                    assert(line@ =~= Seq::<char>::empty());
                }
            } else {
                line.push(ch);
                proof {
                    let nls = line_run(c.take(i + 1));
                    assert(nls.drop_last() =~= ls.drop_last());
                }
            }
            i = i + 1;
        }
        assert(c.take(c.len() as int) =~= c);
        let ghost ls = line_run(c);
        let ghost before = module.items@;
        add_line(&mut module, &line);
        proof {
            assert(ls.drop_last().push(ls.last()) =~= ls);
            assert(lines_decls(ls) == lines_decls(ls.drop_last()) + line_contrib(ls.last()));
            let ds = lines_decls(ls);
            assert forall|k: int| 0 <= k < module.items@.len() implies #[trigger] item_for(module.items@[k], ds[k]) by {
                if k < before.len() {
                    assert(item_for(before[k], lines_decls(ls.drop_last())[k]));
                } else {
                    assert(item_for(module.items@[before.len() + (k - before.len())], line_contrib(line@)[k - before.len()]));
                }
            }
        }
        Ok(module)
    }
}

} // verus!
