//! Types and constructors used by pattern-match checking.
use vstd::prelude::*;
use crate::assoc::{assoc_lookup, assoc_find, lemma_assoc_update, lemma_assoc_push, lemma_assoc_found, lemma_assoc_absent};
use crate::text::{str_eq, string_push_str, owned};
use crate::strmap::StrMap;

verus! {

/// A type of the matched language.
#[derive(Debug, PartialEq, Eq, Hash)]
pub enum Type {
    Unit,
    Bool,
    Int(Option<usize>),
    Float,
    Char,
    String,
    Bytes,
    Tuple(Vec<Type>),
    Array(Box<Type>, Option<i64>),
    Named(String),
    Enum(String, Vec<VariantDef>),
    Record(String, Vec<FieldDef>),
    Function(Box<Type>, Box<Type>),
    Var(String),
}

/// A variant of an enum type.
#[derive(Debug, PartialEq, Eq, Hash)]
pub struct VariantDef {
    pub name: String,
    pub fields: Vec<Type>,
}

/// A field of a record type.
#[derive(Debug, PartialEq, Eq, Hash)]
pub struct FieldDef {
    pub name: String,
    pub ty: Type,
    pub optional: bool,
}

/// Structural equality of types, names compared by content.
pub open spec fn ty_eq(a: Type, b: Type) -> bool
    decreases a,
{
    match (a, b) {
        (Type::Unit, Type::Unit) => true,
        (Type::Bool, Type::Bool) => true,
        (Type::Int(x), Type::Int(y)) => x == y,
        (Type::Float, Type::Float) => true,
        (Type::Char, Type::Char) => true,
        (Type::String, Type::String) => true,
        (Type::Bytes, Type::Bytes) => true,
        (Type::Tuple(xs), Type::Tuple(ys)) => tys_eq(xs@, ys@),
        (Type::Array(x, n), Type::Array(y, m)) => n == m && ty_eq(*x, *y),
        (Type::Named(x), Type::Named(y)) => x@ == y@,
        (Type::Enum(x, vs), Type::Enum(y, ws)) => x@ == y@ && variants_eq(vs@, ws@),
        (Type::Record(x, fs), Type::Record(y, gs)) => x@ == y@ && fields_eq(fs@, gs@),
        (Type::Function(p, r), Type::Function(q, s)) => ty_eq(*p, *q) && ty_eq(*r, *s),
        (Type::Var(x), Type::Var(y)) => x@ == y@,
        _ => false,
    }
}

/// Element-wise equality of type lists.
pub open spec fn tys_eq(xs: Seq<Type>, ys: Seq<Type>) -> bool
    decreases xs,
{
    if xs.len() != ys.len() {
        false
    } else if xs.len() == 0 {
        true
    } else {
        ty_eq(xs.last(), ys.last()) && tys_eq(xs.drop_last(), ys.drop_last())
    }
}

/// Element-wise equality of variant lists.
pub open spec fn variants_eq(xs: Seq<VariantDef>, ys: Seq<VariantDef>) -> bool
    decreases xs,
{
    if xs.len() != ys.len() {
        false
    } else if xs.len() == 0 {
        true
    } else {
        xs.last().name@ == ys.last().name@ && tys_eq(xs.last().fields@, ys.last().fields@)
            && variants_eq(xs.drop_last(), ys.drop_last())
    }
}

/// Element-wise equality of field lists.
pub open spec fn fields_eq(xs: Seq<FieldDef>, ys: Seq<FieldDef>) -> bool
    decreases xs,
{
    if xs.len() != ys.len() {
        false
    } else if xs.len() == 0 {
        true
    } else {
        xs.last().name@ == ys.last().name@ && ty_eq(xs.last().ty, ys.last().ty) && xs.last().optional
            == ys.last().optional && fields_eq(xs.drop_last(), ys.drop_last())
    }
}

/// A deep copy of a type.
pub fn copy_ty(t: &Type) -> (r: Type)
    ensures
        ty_eq(r, *t),
    decreases t,
{
    match t {
        Type::Unit => Type::Unit,
        Type::Bool => Type::Bool,
        Type::Int(x) => Type::Int(*x),
        Type::Float => Type::Float,
        Type::Char => Type::Char,
        Type::String => Type::String,
        Type::Bytes => Type::Bytes,
        Type::Tuple(xs) => Type::Tuple(copy_tys(xs)),
        Type::Array(x, n) => Type::Array(Box::new(copy_ty(x)), *n),
        Type::Named(x) => Type::Named(x.clone()),
        Type::Enum(x, vs) => Type::Enum(x.clone(), copy_variants(vs)),
        Type::Record(x, fs) => Type::Record(x.clone(), copy_fields(fs)),
        Type::Function(p, r) => Type::Function(Box::new(copy_ty(p)), Box::new(copy_ty(r))),
        Type::Var(x) => Type::Var(x.clone()),
    }
}

/// A deep copy of a type list.
pub fn copy_tys(xs: &Vec<Type>) -> (r: Vec<Type>)
    ensures
        tys_eq(r@, xs@),
    decreases xs@,
{
    let mut r: Vec<Type> = Vec::new();
    let mut i: usize = 0;
    while i < xs.len()
        invariant
            i <= xs@.len(),
            r@.len() == i,
            tys_eq(r@, xs@.take(i as int)),
        decreases xs@.len() - i,
    {
        proof {
            assert(decreases_to!(xs@ => xs@[i as int]));
        }
        let c = copy_ty(&xs[i]);
        let ghost before = r@;
        r.push(c);
        proof {
            assert(r@.drop_last() =~= before);
            assert(xs@.take(i + 1).drop_last() =~= xs@.take(i as int));
        }
        i = i + 1;
    }
    assert(xs@.take(xs@.len() as int) =~= xs@);
    r
}

fn copy_variants(xs: &Vec<VariantDef>) -> (r: Vec<VariantDef>)
    ensures
        variants_eq(r@, xs@),
    decreases xs@,
{
    let mut r: Vec<VariantDef> = Vec::new();
    let mut i: usize = 0;
    while i < xs.len()
        invariant
            i <= xs@.len(),
            r@.len() == i,
            variants_eq(r@, xs@.take(i as int)),
        decreases xs@.len() - i,
    {
        proof {
            assert(decreases_to!(xs@ => xs@[i as int]));
            assert(decreases_to!(xs@[i as int] => xs@[i as int].fields));
            assert(decreases_to!(xs@[i as int].fields => xs@[i as int].fields@));
        }
        let c = VariantDef { name: xs[i].name.clone(), fields: copy_tys(&xs[i].fields) };
        let ghost before = r@;
        r.push(c);
        proof {
            assert(r@.drop_last() =~= before);
            assert(xs@.take(i + 1).drop_last() =~= xs@.take(i as int));
        }
        i = i + 1;
    }
    assert(xs@.take(xs@.len() as int) =~= xs@);
    r
}

fn copy_fields(xs: &Vec<FieldDef>) -> (r: Vec<FieldDef>)
    ensures
        fields_eq(r@, xs@),
    decreases xs@,
{
    let mut r: Vec<FieldDef> = Vec::new();
    let mut i: usize = 0;
    while i < xs.len()
        invariant
            i <= xs@.len(),
            r@.len() == i,
            fields_eq(r@, xs@.take(i as int)),
        decreases xs@.len() - i,
    {
        proof {
            assert(decreases_to!(xs@ => xs@[i as int]));
            assert(decreases_to!(xs@[i as int] => xs@[i as int].ty));
        }
        let c = FieldDef { name: xs[i].name.clone(), ty: copy_ty(&xs[i].ty), optional: xs[i].optional };
        let ghost before = r@;
        r.push(c);
        proof {
            assert(r@.drop_last() =~= before);
            assert(xs@.take(i + 1).drop_last() =~= xs@.take(i as int));
        }
        i = i + 1;
    }
    assert(xs@.take(xs@.len() as int) =~= xs@);
    r
}

impl Clone for Type {
    fn clone(&self) -> (r: Type)
        ensures
            ty_eq(r, *self),
    {
        copy_ty(self)
    }
}

/// A constructor of a value: an enum variant or a record.
#[derive(Debug)]
pub struct ConstructorInfo {
    pub name: String,
    pub enum_name: Option<String>,
    pub arity: i64,
    pub field_types: Vec<Type>,
    pub is_record: bool,
    pub fields: Vec<String>,
}

/// Whether `info` describes variant `v` of enum `e`.
pub open spec fn variant_info(info: ConstructorInfo, e: Seq<char>, v: VariantDef) -> bool {
    &&& info.name@ == v.name@
    &&& info.enum_name is Some && info.enum_name->0@ == e
    &&& info.arity == v.fields@.len()
    &&& tys_eq(info.field_types@, v.fields@)
    &&& !info.is_record
    &&& info.fields@.len() == 0
}

/// Whether `info` describes record `r` with the given fields.
pub open spec fn record_info(info: ConstructorInfo, r: Seq<char>, fs: Seq<FieldDef>) -> bool {
    &&& info.name@ == r
    &&& info.enum_name is None
    &&& info.arity == fs.len()
    &&& info.field_types@.len() == fs.len()
    &&& forall|i: int| 0 <= i < fs.len() ==> ty_eq(#[trigger] info.field_types@[i], fs[i].ty)
    &&& info.is_record
    &&& info.fields@.len() == fs.len()
    &&& forall|i: int| 0 <= i < fs.len() ==> #[trigger] info.fields@[i]@ == fs[i].name@
}

/// `enum::variant`.
pub open spec fn full_name(e: Seq<char>, v: Seq<char>) -> Seq<char> {
    e + "::"@ + v
}

/// Different variant names give different full names, and a full name is
/// longer than the enum name.
proof fn lemma_full_name(e: Seq<char>, a: Seq<char>, b: Seq<char>)
    ensures
        full_name(e, a).len() > e.len(),
        a != b ==> full_name(e, a) != full_name(e, b),
{
    reveal_strlit("::");
    let p = e + "::"@;
    assert(full_name(e, a) == p + a);
    assert(full_name(e, b) == p + b);
    if a != b && full_name(e, a) == full_name(e, b) {
        assert((p + a).subrange(p.len() as int, (p + a).len() as int) =~= a);
        assert((p + b).subrange(p.len() as int, (p + b).len() as int) =~= b);
    }
}

/// Index of the last variant named `v` among the first `n`, or -1.
pub open spec fn last_named(vs: Seq<VariantDef>, v: Seq<char>, n: int) -> int
    decreases n,
{
    if n <= 0 {
        -1
    } else if vs[n - 1].name@ == v {
        n - 1
    } else {
        last_named(vs, v, n - 1)
    }
}

/// Constructors by name and the variant names of each enum.
pub struct ConstructorTable {
    constructors: Vec<(String, ConstructorInfo)>,
    enum_variants: Vec<(String, Vec<String>)>,
}

impl ConstructorTable {
    /// The constructor registered under a name.
    pub closed spec fn constructor(&self, name: Seq<char>) -> Option<ConstructorInfo> {
        assoc_lookup(self.constructors@, name)
    }

    /// The variant names registered for an enum.
    pub closed spec fn variants_of(&self, name: Seq<char>) -> Option<Seq<Seq<char>>> {
        match assoc_lookup(self.enum_variants@, name) {
            Some(v) => Some(v@.map_values(|s: String| s@)),
            None => None,
        }
    }

    pub fn new() -> (r: ConstructorTable)
        ensures
            forall|n: Seq<char>| r.constructor(n) is None,
            forall|n: Seq<char>| r.variants_of(n) is None,
    {
        ConstructorTable { constructors: Vec::new(), enum_variants: Vec::new() }
    }

    fn set_constructor(&mut self, key: String, info: ConstructorInfo)
        ensures
            final(self).constructor(key@) == Some(info),
            forall|n: Seq<char>| n != key@ ==> final(self).constructor(n) == old(self).constructor(n),
            forall|n: Seq<char>| final(self).variants_of(n) == old(self).variants_of(n),
    {
        let ghost t = self.constructors@;
        let ghost iv = info;
        match assoc_find(&self.constructors, &key) {
            Some(i) => {
                self.constructors[i].1 = info;
                proof {
                    assert(self.constructors@ == t.update(i as int, (t[i as int].0, iv)));
                    assert forall|n: Seq<char>| assoc_lookup(self.constructors@, n) == if n == key@ {
                        Some(iv)
                    } else {
                        assoc_lookup(t, n)
                    } by {
                        lemma_assoc_update(t, i as int, iv, n);
                    }
                }
            },
            None => {
                let ghost kv = key@;
                self.constructors.push((key, info));
                proof {
                    assert forall|n: Seq<char>| assoc_lookup(self.constructors@, n) == if n == kv {
                        Some(iv)
                    } else {
                        assoc_lookup(t, n)
                    } by {
                        lemma_assoc_push(t, self.constructors@.last(), n);
                        assert(self.constructors@ == t.push(self.constructors@.last()));
                    }
                }
            },
        }
    }

    /// Registers each variant as a constructor under `enum::variant`, the
    /// first one also under the enum's own name, and records the variant
    /// names of the enum.
    pub fn register_enum(&mut self, name: String, variants: Vec<VariantDef>)
        requires
            forall|k: int| 0 <= k < variants@.len() ==> #[trigger] variants@[k].fields@.len() <= i64::MAX,
        ensures
            forall|k: int| 0 <= k < variants@.len() && last_named(variants@, variants@[k].name@, variants@.len() as int) == k
                ==> #[trigger] final(self).constructor(full_name(name@, variants@[k].name@)) is Some
                && variant_info(final(self).constructor(full_name(name@, variants@[k].name@))->0, name@, variants@[k]),
            variants@.len() > 0 ==> final(self).constructor(name@) is Some && variant_info(
                final(self).constructor(name@)->0,
                name@,
                variants@[0],
            ),
            forall|n: Seq<char>| n != name@ && (forall|k: int| 0 <= k < variants@.len() ==> n != full_name(name@, #[trigger] variants@[k].name@))
                ==> final(self).constructor(n) == old(self).constructor(n),
            final(self).variants_of(name@) == Some(variants@.map_values(|v: VariantDef| v.name@)),
            forall|n: Seq<char>| n != name@ ==> final(self).variants_of(n) == old(self).variants_of(n),
    {
        let ghost vs = variants@;
        let ghost t0 = *self;
        let mut names: Vec<String> = Vec::new();
        let mut i: usize = 0;
        while i < variants.len()
            invariant
                i <= variants@.len(),
                vs == variants@,
                forall|k: int| 0 <= k < vs.len() ==> #[trigger] vs[k].fields@.len() <= i64::MAX,
                names@.len() == i,
                forall|j: int| 0 <= j < i ==> #[trigger] names@[j]@ == vs[j].name@,
                forall|k: int| 0 <= k < i && last_named(vs, vs[k].name@, i as int) == k ==> #[trigger] self.constructor(
                    full_name(name@, vs[k].name@),
                ) is Some && variant_info(self.constructor(full_name(name@, vs[k].name@))->0, name@, vs[k]),
                i > 0 ==> self.constructor(name@) is Some && variant_info(self.constructor(name@)->0, name@, vs[0]),
                forall|n: Seq<char>| n != name@ && (forall|k: int| 0 <= k < i ==> n != full_name(name@, #[trigger] vs[k].name@))
                    ==> self.constructor(n) == t0.constructor(n),
                forall|n: Seq<char>| self.variants_of(n) == t0.variants_of(n),
            decreases variants@.len() - i,
        {
            let v = &variants[i];
            let mut full = name.clone();
            string_push_str(&mut full, "::");
            string_push_str(&mut full, v.name.as_str());
            let ghost fk = full@;
            let info = ConstructorInfo {
                name: v.name.clone(),
                enum_name: Some(name.clone()),
                arity: v.fields.len() as i64,
                field_types: copy_tys(&v.fields),
                is_record: false,
                fields: Vec::new(),
            };
            let ghost s1 = *self;
            self.set_constructor(full, info);
            proof {
                assert(fk == full_name(name@, vs[i as int].name@));
                lemma_full_name(name@, vs[i as int].name@, vs[i as int].name@);
            }
            if i == 0 {
                let info0 = ConstructorInfo {
                    name: v.name.clone(),
                    enum_name: Some(name.clone()),
                    arity: v.fields.len() as i64,
                    field_types: copy_tys(&v.fields),
                    is_record: false,
                    fields: Vec::new(),
                };
                self.set_constructor(name.clone(), info0);
            }
            names.push(v.name.clone());
            proof {
                assert forall|k: int| 0 <= k < i + 1 && last_named(vs, vs[k].name@, i + 1) == k implies #[trigger] self.constructor(
                    full_name(name@, vs[k].name@),
                ) is Some && variant_info(self.constructor(full_name(name@, vs[k].name@))->0, name@, vs[k]) by {
                    lemma_full_name(name@, vs[k].name@, vs[i as int].name@);
                    if k < i {
                        assert(vs[i as int].name@ != vs[k].name@);
                        assert(last_named(vs, vs[k].name@, i as int) == k);
                        assert(full_name(name@, vs[k].name@) != fk);
                        assert(full_name(name@, vs[k].name@) != name@);
                    }
                }
            }
            i = i + 1;
        }
        let ghost nm = names@;
        let ghost after_loop = *self;
        let key = name.clone();
        let ghost t = self.enum_variants@;
        match assoc_find(&self.enum_variants, &key) {
            Some(j) => {
                self.enum_variants[j].1 = names;
                proof {
                    assert(self.enum_variants@ == t.update(j as int, (t[j as int].0, self.enum_variants@[j as int].1)));
                    assert forall|n: Seq<char>| assoc_lookup(self.enum_variants@, n) == if n == key@ {
                        Some(self.enum_variants@[j as int].1)
                    } else {
                        assoc_lookup(t, n)
                    } by {
                        lemma_assoc_update(t, j as int, self.enum_variants@[j as int].1, n);
                    }
                }
            },
            None => {
                self.enum_variants.push((key, names));
                proof {
                    assert forall|n: Seq<char>| assoc_lookup(self.enum_variants@, n) == if n == name@ {
                        Some(self.enum_variants@.last().1)
                    } else {
                        assoc_lookup(t, n)
                    } by {
                        lemma_assoc_push(t, self.enum_variants@.last(), n);
                        assert(self.enum_variants@ == t.push(self.enum_variants@.last()));
                    }
                }
            },
        }
        proof {
            assert(nm.map_values(|s: String| s@) =~= vs.map_values(|v: VariantDef| v.name@));
            assert(self.constructors@ == after_loop.constructors@);
            assert forall|k: int| 0 <= k < vs.len() && last_named(vs, vs[k].name@, vs.len() as int) == k
                implies #[trigger] self.constructor(full_name(name@, vs[k].name@)) is Some
                && variant_info(self.constructor(full_name(name@, vs[k].name@))->0, name@, vs[k]) by {
                assert(after_loop.constructor(full_name(name@, vs[k].name@)) is Some);
            }
        }
    }

    /// Registers a record constructor under the record's name.
    pub fn register_record(&mut self, name: String, fields: Vec<FieldDef>)
        requires
            fields@.len() <= i64::MAX,
        ensures
            final(self).constructor(name@) is Some,
            record_info(final(self).constructor(name@)->0, name@, fields@),
            forall|n: Seq<char>| n != name@ ==> final(self).constructor(n) == old(self).constructor(n),
            forall|n: Seq<char>| final(self).variants_of(n) == old(self).variants_of(n),
    {
        let mut tys: Vec<Type> = Vec::new();
        let mut names: Vec<String> = Vec::new();
        let mut i: usize = 0;
        while i < fields.len()
            invariant
                i <= fields@.len(),
                tys@.len() == i,
                names@.len() == i,
                forall|j: int| 0 <= j < i ==> ty_eq(#[trigger] tys@[j], fields@[j].ty),
                forall|j: int| 0 <= j < i ==> #[trigger] names@[j]@ == fields@[j].name@,
            decreases fields@.len() - i,
        {
            tys.push(copy_ty(&fields[i].ty));
            names.push(fields[i].name.clone());
            i = i + 1;
        }
        let info = ConstructorInfo {
            name: name.clone(),
            enum_name: None,
            arity: fields.len() as i64,
            field_types: tys,
            is_record: true,
            fields: names,
        };
        self.set_constructor(name, info);
    }

    /// The constructor registered under `name`.
    pub fn get_constructor(&self, name: &String) -> (r: Option<&ConstructorInfo>)
        ensures
            match r {
                Some(c) => self.constructor(name@) == Some(*c),
                None => self.constructor(name@) is None,
            },
    {
        match assoc_find(&self.constructors, name) {
            Some(i) => {
                proof {
                    lemma_assoc_found(self.constructors@, i as int);
                }
                Some(&self.constructors[i].1)
            },
            None => {
                proof {
                    lemma_assoc_absent(self.constructors@, name@);
                }
                None
            },
        }
    }

    /// The variant names registered for `enum_name`.
    pub fn get_variants(&self, enum_name: &String) -> (r: Option<&Vec<String>>)
        ensures
            match r {
                Some(v) => self.variants_of(enum_name@) == Some(v@.map_values(|s: String| s@)),
                None => self.variants_of(enum_name@) is None,
            },
    {
        match assoc_find(&self.enum_variants, enum_name) {
            Some(i) => {
                proof {
                    lemma_assoc_found(self.enum_variants@, i as int);
                }
                Some(&self.enum_variants[i].1)
            },
            None => {
                proof {
                    lemma_assoc_absent(self.enum_variants@, enum_name@);
                }
                None
            },
        }
    }
}

/// Errors of exhaustiveness checking.
#[derive(Debug)]
pub enum ExhaustivenessError {
    UnknownType { ty_name: String },
    InvalidPattern { pattern: String, reason: String },
    TypeMismatch { expected: Type, found: Type },
}


/// A pattern of a `match`. A floating-point literal is held as the bits of
/// its IEEE 754 double.
#[derive(Debug)]
pub enum Pattern {
    Variable(String),
    Wildcard,
    Bool(bool),
    Int(i128),
    Float(u64),
    Char(char),
    String(String),
    Bytes(Vec<u8>),
    Constructor { name: String, args: Vec<Pattern> },
    Tuple(Vec<Pattern>),
    Array(Vec<Pattern>, Option<i64>),
    Record { name: String, fields: Vec<(String, Pattern)> },
    NamedConstructor { enum_name: String, variant_name: String, args: Vec<Pattern> },
    Or(Vec<Pattern>),
    Async(Box<Pattern>),
    TypeAs { pattern: Box<Pattern>, type_: Type },
}

/// The shape of a pattern that stands for a whole constructor: every
/// argument a wildcard, so only the constructor and the number of
/// arguments (or the field names of a record) remain.
pub enum Shape {
    BoolTrue,
    BoolFalse,
    Any,
    Tuple(nat),
    Array(nat, Option<i64>),
    Ctor(Seq<char>, nat),
    Named(Seq<char>, Seq<char>, nat),
    Record(Seq<char>, Seq<Seq<char>>),
}

/// Every pattern of the list is the wildcard.
pub open spec fn all_wild(ps: Seq<Pattern>) -> bool {
    forall|i: int| 0 <= i < ps.len() ==> #[trigger] ps[i] is Wildcard
}

/// The shape a pattern has, if it stands for a whole constructor.
pub open spec fn shape_of(p: Pattern) -> Option<Shape> {
    match p {
        Pattern::Bool(b) => if b { Some(Shape::BoolTrue) } else { Some(Shape::BoolFalse) },
        Pattern::Wildcard => Some(Shape::Any),
        Pattern::Tuple(ps) => if all_wild(ps@) { Some(Shape::Tuple(ps@.len())) } else { None },
        Pattern::Array(ps, n) => if all_wild(ps@) { Some(Shape::Array(ps@.len(), n)) } else { None },
        Pattern::Constructor { name, args } => if all_wild(args@) { Some(Shape::Ctor(name@, args@.len())) } else { None },
        Pattern::NamedConstructor { enum_name, variant_name, args } => if all_wild(args@) {
            Some(Shape::Named(enum_name@, variant_name@, args@.len()))
        } else {
            None
        },
        Pattern::Record { name, fields } => if forall|i: int| 0 <= i < fields@.len() ==> #[trigger] fields@[i].1 is Wildcard {
            Some(Shape::Record(name@, fields@.map_values(|f: (String, Pattern)| f.0@)))
        } else {
            None
        },
        _ => None,
    }
}

/// The patterns have the given shapes, in order.
pub open spec fn shapes_are(ps: Seq<Pattern>, cs: Seq<Shape>) -> bool {
    &&& ps.len() == cs.len()
    &&& forall|i: int| 0 <= i < ps.len() ==> #[trigger] shape_of(ps[i]) == Some(cs[i])
}

/// Number of wildcards for an arity (none for a negative one).
pub open spec fn wild_count(n: i64) -> nat {
    if n > 0 { n as nat } else { 0 }
}

/// The shape standing for every value of a constructor: a record with all
/// its fields, or the constructor applied to wildcards.
pub open spec fn ctor_shape(info: ConstructorInfo, name: Seq<char>) -> Shape {
    if info.is_record {
        Shape::Record(name, info.fields@.map_values(|f: String| f@))
    } else {
        Shape::Ctor(name, wild_count(info.arity))
    }
}

/// The shapes of the variants of an enum that have a registered
/// constructor, in order.
pub open spec fn enum_shapes(t: ConstructorTable, e: Seq<char>, vs: Seq<Seq<char>>) -> Seq<Shape>
    decreases vs.len(),
{
    if vs.len() == 0 {
        Seq::empty()
    } else {
        enum_shapes(t, e, vs.drop_last()) + match t.constructor(full_name(e, vs.last())) {
            Some(info) => seq![Shape::Named(e, vs.last(), wild_count(info.arity))],
            None => Seq::<Shape>::empty(),
        }
    }
}

/// Every constructor of a type, as shapes; an unknown enum or record is an
/// error naming it. Types whose values cannot be listed (numbers,
/// characters, strings, functions, variables) have the wildcard alone.
pub open spec fn candidates(t: ConstructorTable, ty: Type) -> Result<Seq<Shape>, Seq<char>> {
    match ty {
        Type::Bool => Ok(seq![Shape::BoolTrue, Shape::BoolFalse]),
        Type::Unit => Ok(seq![Shape::Tuple(0)]),
        Type::Tuple(ts) => Ok(seq![Shape::Tuple(ts@.len())]),
        Type::Array(_, Some(n)) => Ok(seq![Shape::Array(wild_count(n), Some(n))]),
        Type::Array(_, None) => Ok(seq![Shape::Array(0, None)]),
        Type::Named(n) => match t.constructor(n@) {
            Some(info) => Ok(seq![ctor_shape(info, n@)]),
            None => Ok(seq![Shape::Any]),
        },
        Type::Enum(e, _) => match t.variants_of(e@) {
            Some(vs) => Ok(enum_shapes(t, e@, vs)),
            None => Err(e@),
        },
        Type::Record(n, _) => match t.constructor(n@) {
            Some(info) => Ok(seq![ctor_shape(info, n@)]),
            None => Err(n@),
        },
        _ => Ok(seq![Shape::Any]),
    }
}

/// The key under which a constructor counts as covered.
pub open spec fn shape_key(s: Shape) -> Seq<char> {
    match s {
        Shape::BoolTrue => "Bool(true)"@,
        Shape::BoolFalse => "Bool(false)"@,
        Shape::Any => "*"@,
        Shape::Tuple(_) => "Tuple"@,
        Shape::Array(_, _) => "Array"@,
        Shape::Ctor(n, _) => n,
        Shape::Named(e, v, _) => full_name(e, v),
        Shape::Record(n, _) => n,
    }
}

/// The keys a pattern covers: its own constructor's key and those of its
/// sub-patterns; an or-pattern covers what its alternatives cover; any
/// other pattern covers everything (`*`).
pub open spec fn pattern_keys(p: Pattern) -> Set<Seq<char>>
    decreases p,
{
    match p {
        Pattern::Bool(b) => if b { set!["Bool(true)"@] } else { set!["Bool(false)"@] },
        Pattern::Constructor { name, args } => set![name@].union(keys_list(args@)),
        Pattern::NamedConstructor { enum_name, variant_name, args } => set![full_name(enum_name@, variant_name@)].union(
            keys_list(args@),
        ),
        Pattern::Tuple(ps) => set!["Tuple"@].union(keys_list(ps@)),
        Pattern::Array(ps, _) => set!["Array"@].union(keys_list(ps@)),
        Pattern::Record { name, fields } => set![name@].union(keys_fields(fields@)),
        Pattern::Or(ps) => keys_list(ps@),
        _ => set!["*"@],
    }
}

/// The keys a list of patterns covers.
pub open spec fn keys_list(ps: Seq<Pattern>) -> Set<Seq<char>>
    decreases ps,
{
    if ps.len() == 0 {
        Set::empty()
    } else {
        keys_list(ps.drop_last()).union(pattern_keys(ps.last()))
    }
}

/// The keys the field patterns of a record pattern cover.
pub open spec fn keys_fields(fs: Seq<(String, Pattern)>) -> Set<Seq<char>>
    decreases fs,
{
    if fs.len() == 0 {
        Set::empty()
    } else {
        keys_fields(fs.drop_last()).union(pattern_keys(fs.last().1))
    }
}

/// A key is covered by a list of patterns exactly when one of them covers
/// it.
proof fn lemma_keys_list_member(ps: Seq<Pattern>, k: Seq<char>)
    ensures
        keys_list(ps).contains(k) <==> exists|i: int| 0 <= i < ps.len() && #[trigger] pattern_keys(ps[i]).contains(k),
    decreases ps.len(),
{
    if ps.len() > 0 {
        lemma_keys_list_member(ps.drop_last(), k);
        if keys_list(ps.drop_last()).contains(k) {
            let i = choose|i: int| 0 <= i < ps.drop_last().len() && #[trigger] pattern_keys(ps.drop_last()[i]).contains(k);
            assert(ps[i] == ps.drop_last()[i]);
            assert(pattern_keys(ps[i]).contains(k));
        }
        if pattern_keys(ps.last()).contains(k) {
            assert(pattern_keys(ps[ps.len() - 1]).contains(k));
        }
        if exists|i: int| 0 <= i < ps.len() && #[trigger] pattern_keys(ps[i]).contains(k) {
            let i = choose|i: int| 0 <= i < ps.len() && #[trigger] pattern_keys(ps[i]).contains(k);
            if i < ps.len() - 1 {
                assert(ps.drop_last()[i] == ps[i]);
            }
        }
    }
}

/// A key is covered by the field patterns of a record exactly when one of
/// them covers it.
proof fn lemma_keys_fields_member(fs: Seq<(String, Pattern)>, k: Seq<char>)
    ensures
        keys_fields(fs).contains(k) <==> exists|i: int| 0 <= i < fs.len() && #[trigger] pattern_keys(fs[i].1).contains(k),
    decreases fs.len(),
{
    if fs.len() > 0 {
        lemma_keys_fields_member(fs.drop_last(), k);
        if keys_fields(fs.drop_last()).contains(k) {
            let i = choose|i: int| 0 <= i < fs.drop_last().len() && #[trigger] pattern_keys(fs.drop_last()[i].1).contains(k);
            assert(fs[i] == fs.drop_last()[i]);
            assert(pattern_keys(fs[i].1).contains(k));
        }
        if pattern_keys(fs.last().1).contains(k) {
            assert(pattern_keys(fs[fs.len() - 1].1).contains(k));
        }
        if exists|i: int| 0 <= i < fs.len() && #[trigger] pattern_keys(fs[i].1).contains(k) {
            let i = choose|i: int| 0 <= i < fs.len() && #[trigger] pattern_keys(fs[i].1).contains(k);
            if i < fs.len() - 1 {
                assert(fs.drop_last()[i] == fs[i]);
            }
        }
    }
}

/// What the patterns of a match cover, composed from their parts: an
/// or-pattern covers exactly what one of its alternatives covers; a
/// constructor, tuple, array or record pattern covers its own key and what
/// one of its sub-patterns covers; a wildcard or variable covers
/// everything (`*`).
pub proof fn lemma_pattern_keys_compose(p: Pattern, k: Seq<char>)
    ensures
        p matches Pattern::Or(ps) ==> (pattern_keys(p).contains(k) <==> exists|i: int|
            0 <= i < ps@.len() && #[trigger] pattern_keys(ps@[i]).contains(k)),
        p matches Pattern::Constructor { name, args } ==> (pattern_keys(p).contains(k) <==> (k == name@ || exists|i: int|
            0 <= i < args@.len() && #[trigger] pattern_keys(args@[i]).contains(k))),
        p matches Pattern::NamedConstructor { enum_name, variant_name, args } ==> (pattern_keys(p).contains(k) <==> (k
            == enum_name@ + "::"@ + variant_name@ || exists|i: int| 0 <= i < args@.len() && #[trigger] pattern_keys(args@[i]).contains(k))),
        p matches Pattern::Tuple(ps) ==> (pattern_keys(p).contains(k) <==> (k == "Tuple"@ || exists|i: int|
            0 <= i < ps@.len() && #[trigger] pattern_keys(ps@[i]).contains(k))),
        p matches Pattern::Array(ps, _) ==> (pattern_keys(p).contains(k) <==> (k == "Array"@ || exists|i: int|
            0 <= i < ps@.len() && #[trigger] pattern_keys(ps@[i]).contains(k))),
        p matches Pattern::Record { name, fields } ==> (pattern_keys(p).contains(k) <==> (k == name@ || exists|i: int|
            0 <= i < fields@.len() && #[trigger] pattern_keys(fields@[i].1).contains(k))),
        (p is Wildcard || p is Variable) ==> pattern_keys(p).contains("*"@),
{
    match p {
        Pattern::Or(ps) => lemma_keys_list_member(ps@, k),
        Pattern::Constructor { args, .. } => lemma_keys_list_member(args@, k),
        Pattern::NamedConstructor { args, .. } => lemma_keys_list_member(args@, k),
        Pattern::Tuple(ps) => lemma_keys_list_member(ps@, k),
        Pattern::Array(ps, _) => lemma_keys_list_member(ps@, k),
        Pattern::Record { fields, .. } => lemma_keys_fields_member(fields@, k),
        _ => {},
    }
}

/// Whether a constructor is covered: some pattern covers everything, or
/// covers its key.
pub open spec fn is_covered(keys: Set<Seq<char>>, s: Shape) -> bool {
    keys.contains("*"@) || keys.contains(shape_key(s))
}

/// The constructors not covered, in order.
pub open spec fn uncovered_of(cs: Seq<Shape>, keys: Set<Seq<char>>) -> Seq<Shape>
    decreases cs.len(),
{
    if cs.len() == 0 {
        Seq::empty()
    } else {
        uncovered_of(cs.drop_last(), keys) + if is_covered(keys, cs.last()) {
            Seq::<Shape>::empty()
        } else {
            seq![cs.last()]
        }
    }
}

/// The warning of a check that found `n` constructors uncovered.
pub open spec fn missing_warning(n: nat) -> Seq<char> {
    "Non-exhaustive patterns! Missing "@ + crate::text::decimal(n) + " case(s)"@
}

/// What a check found: whether every constructor is covered, the ones that
/// are not, and warnings.
#[derive(Debug)]
pub struct ExhaustivenessResult {
    pub is_exhaustive: bool,
    pub uncovered_patterns: Vec<Pattern>,
    pub warnings: Vec<String>,
}

impl ExhaustivenessResult {
    /// Whether no pattern is uncovered.
    pub fn is_empty(&self) -> (r: bool)
        ensures
            r == (self.uncovered_patterns@.len() == 0),
    {
        self.uncovered_patterns.len() == 0
    }
}

/// Checks whether the patterns of a `match` cover every constructor of the
/// matched type.
pub struct ExhaustivenessChecker {
    constructors: ConstructorTable,
    uncovered: Vec<Pattern>,
    patterns: Vec<Pattern>,
}

/// `n` wildcards.
fn wildcards(n: i64) -> (r: Vec<Pattern>)
    ensures
        r@.len() == wild_count(n),
        all_wild(r@),
{
    let mut r: Vec<Pattern> = Vec::new();
    let mut i: i64 = 0;
    while i < n
        invariant
            0 <= i,
            n > 0 ==> i <= n,
            n <= 0 ==> i == 0,
            r@.len() == i,
            all_wild(r@),
        decreases n - i,
    {
        let ghost before = r@;
        r.push(Pattern::Wildcard);
        proof {
            assert forall|k: int| 0 <= k < r@.len() implies #[trigger] r@[k] is Wildcard by {
                if k < before.len() {
                    assert(r@[k] == before[k]);
                }
            }
        }
        i = i + 1;
    }
    r
}

/// Wildcard field patterns for the named fields.
fn wild_fields(fields: &Vec<String>) -> (r: Vec<(String, Pattern)>)
    ensures
        r@.map_values(|f: (String, Pattern)| f.0@) == fields@.map_values(|f: String| f@),
        forall|i: int| 0 <= i < r@.len() ==> #[trigger] r@[i].1 is Wildcard,
{
    let mut r: Vec<(String, Pattern)> = Vec::new();
    let mut i: usize = 0;
    while i < fields.len()
        invariant
            i <= fields@.len(),
            r@.map_values(|f: (String, Pattern)| f.0@) == fields@.take(i as int).map_values(|f: String| f@),
            forall|k: int| 0 <= k < r@.len() ==> #[trigger] r@[k].1 is Wildcard,
        decreases fields@.len() - i,
    {
        let ghost before = r@;
        r.push((fields[i].clone(), Pattern::Wildcard));
        proof {
            assert(r@.map_values(|f: (String, Pattern)| f.0@) =~= before.map_values(|f: (String, Pattern)| f.0@).push(fields@[i as int]@));
            assert(fields@.take(i + 1).map_values(|f: String| f@) =~= fields@.take(i as int).map_values(|f: String| f@).push(fields@[i as int]@));
            assert forall|k: int| 0 <= k < r@.len() implies #[trigger] r@[k].1 is Wildcard by {
                if k < before.len() {
                    assert(r@[k] == before[k]);
                }
            }
        }
        i = i + 1;
    }
    assert(fields@.take(i as int) =~= fields@);
    r
}

impl ExhaustivenessChecker {
    /// The constructors it knows.
    pub closed spec fn table(&self) -> ConstructorTable {
        self.constructors
    }

    /// The constructors the last check found uncovered.
    pub closed spec fn uncovered_shapes(&self) -> Seq<Pattern> {
        self.uncovered@
    }

    /// The patterns kept for suggestions (none are ever recorded).
    pub closed spec fn kept_patterns(&self) -> Seq<Pattern> {
        self.patterns@
    }

    /// A checker with no constructors and nothing uncovered.
    pub fn new() -> (r: ExhaustivenessChecker)
        ensures
            forall|n: Seq<char>| r.table().constructor(n) is None,
            forall|n: Seq<char>| r.table().variants_of(n) is None,
            r.uncovered_shapes().len() == 0,
            r.kept_patterns().len() == 0,
    {
        ExhaustivenessChecker { constructors: ConstructorTable::new(), uncovered: Vec::new(), patterns: Vec::new() }
    }

    /// The same checker with the given constructors.
    pub fn with_constructors(self, constructors: ConstructorTable) -> (r: ExhaustivenessChecker)
        ensures
            r.table() == constructors,
            r.uncovered_shapes() == self.uncovered_shapes(),
            r.kept_patterns() == self.kept_patterns(),
    {
        ExhaustivenessChecker { constructors, uncovered: self.uncovered, patterns: self.patterns }
    }

    /// Checks `patterns` against every constructor of `ty`: the result lists
    /// the constructors not covered, in order, with one warning when there
    /// are any; an unknown enum or record is an error.
    pub fn check_exhaustive(&mut self, ty: &Type, patterns: &[Pattern]) -> (r: Result<ExhaustivenessResult, ExhaustivenessError>)
        ensures
            final(self).table() == old(self).table(),
            final(self).kept_patterns() == old(self).kept_patterns(),
            match candidates(old(self).table(), *ty) {
                Err(n) => r matches Err(ExhaustivenessError::UnknownType { ty_name }) && ty_name@ == n
                    && final(self).uncovered_shapes() == old(self).uncovered_shapes(),
                Ok(cs) => {
                    let u = uncovered_of(cs, keys_list(patterns@));
                    &&& r is Ok
                    &&& shapes_are(final(self).uncovered_shapes(), u)
                    &&& shapes_are(r->Ok_0.uncovered_patterns@, u)
                    &&& r->Ok_0.is_exhaustive == (u.len() == 0)
                    &&& r->Ok_0.warnings@.map_values(|w: String| w@) == if u.len() == 0 {
                        Seq::<Seq<char>>::empty()
                    } else {
                        seq![missing_warning(u.len())]
                    }
                },
            },
    {
        let all = match self.all_constructors(ty) {
            Ok(v) => v,
            Err(e) => return Err(e),
        };
        let ghost cs = candidates(self.constructors, *ty)->Ok_0;
        let covered = self.covered_constructors(patterns);
        let ghost keys = keys_list(patterns@);
        let mut kept: Vec<Pattern> = Vec::new();
        let mut copy: Vec<Pattern> = Vec::new();
        let mut i: usize = 0;
        proof {
            reveal_strlit("*");
        }
        while i < all.len()
            invariant
                i <= all@.len(),
                shapes_are(all@, cs),
                covered@.dom() == keys,
                shapes_are(kept@, uncovered_of(cs.take(i as int), keys)),
                shapes_are(copy@, uncovered_of(cs.take(i as int), keys)),
            decreases all@.len() - i,
        {
            proof {
                assert(cs.take(i + 1).drop_last() =~= cs.take(i as int));
                assert(cs.take(i + 1).last() == cs[i as int]);
            }
            let k = key_of(&all[i]);
            let hit = covered.contains_key("*") || covered.contains_key(k.as_str());
            let ghost k0 = kept@;
            let ghost c0 = copy@;
            if !hit {
                kept.push(copy_shape_pattern(&all[i]));
                copy.push(copy_shape_pattern(&all[i]));
                proof {
                    assert forall|j: int| 0 <= j < kept@.len() implies #[trigger] shape_of(kept@[j]) == Some(uncovered_of(cs.take(i + 1), keys)[j]) by {
                        if j < k0.len() {
                            assert(kept@[j] == k0[j]);
                        }
                    }
                    assert forall|j: int| 0 <= j < copy@.len() implies #[trigger] shape_of(copy@[j]) == Some(uncovered_of(cs.take(i + 1), keys)[j]) by {
                        if j < c0.len() {
                            assert(copy@[j] == c0[j]);
                        }
                    }
                }
            } else {
                proof {
                    assert(uncovered_of(cs.take(i + 1), keys) =~= uncovered_of(cs.take(i as int), keys));
                }
            }
            i = i + 1;
        }
        proof {
            assert(cs.take(i as int) =~= cs);
        }
        let m = kept.len();
        self.uncovered = kept;
        if m == 0 {
            Ok(ExhaustivenessResult { is_exhaustive: true, uncovered_patterns: Vec::new(), warnings: Vec::new() })
        } else {
            let mut w = owned("Non-exhaustive patterns! Missing ");
            crate::text::push_decimal(&mut w, m as u64);
            string_push_str(&mut w, " case(s)");
            let mut warnings: Vec<String> = Vec::new();
            warnings.push(w);
            proof {
                reveal_strlit("Non-exhaustive patterns! Missing ");
                reveal_strlit(" case(s)");
                assert(warnings@.map_values(|x: String| x@) =~= seq![missing_warning(m as nat)]);
            }
            Ok(ExhaustivenessResult { is_exhaustive: false, uncovered_patterns: copy, warnings })
        }
    }

    /// Every constructor of a type, as patterns (see `candidates`).
    fn all_constructors(&self, ty: &Type) -> (r: Result<Vec<Pattern>, ExhaustivenessError>)
        ensures
            match candidates(self.table(), *ty) {
                Ok(cs) => r matches Ok(v) && shapes_are(v@, cs),
                Err(n) => r matches Err(ExhaustivenessError::UnknownType { ty_name }) && ty_name@ == n,
            },
    {
        let mut v: Vec<Pattern> = Vec::new();
        match ty {
            Type::Bool => {
                v.push(Pattern::Bool(true));
                v.push(Pattern::Bool(false));
            },
            Type::Unit => {
                v.push(Pattern::Tuple(wildcards_n(0)));
            },
            Type::Tuple(types) => {
                let ws = wildcards_n(types.len());
                v.push(Pattern::Tuple(ws));
            },
            Type::Array(_, Some(len)) => {
                let ws = wildcards(*len);
                v.push(Pattern::Array(ws, Some(*len)));
            },
            Type::Array(_, None) => {
                v.push(Pattern::Array(wildcards_n(0), None));
            },
            Type::Named(name) => {
                match self.constructors.get_constructor(name) {
                    Some(info) => {
                        v.push(ctor_pattern(info, name));
                    },
                    None => {
                        v.push(Pattern::Wildcard);
                    },
                }
            },
            Type::Enum(enum_name, _) => {
                return self.all_constructors_for_enum(enum_name);
            },
            Type::Record(name, _) => {
                match self.constructors.get_constructor(name) {
                    Some(info) => {
                        v.push(ctor_pattern(info, name));
                    },
                    None => {
                        return Err(ExhaustivenessError::UnknownType { ty_name: name.clone() });
                    },
                }
            },
            _ => {
                v.push(Pattern::Wildcard);
            },
        }
        proof {
            let cs = candidates(self.table(), *ty)->Ok_0;
            assert forall|i: int| 0 <= i < v@.len() implies #[trigger] shape_of(v@[i]) == Some(cs[i]) by {
            }
        }
        Ok(v)
    }

    /// The named constructors of the registered variants of an enum.
    fn all_constructors_for_enum(&self, enum_name: &String) -> (r: Result<Vec<Pattern>, ExhaustivenessError>)
        ensures
            match self.table().variants_of(enum_name@) {
                Some(vs) => r matches Ok(v) && shapes_are(v@, enum_shapes(self.table(), enum_name@, vs)),
                None => r matches Err(ExhaustivenessError::UnknownType { ty_name }) && ty_name@ == enum_name@,
            },
    {
        match self.constructors.get_variants(enum_name) {
            Some(variants) => {
                let ghost vs = variants@.map_values(|s: String| s@);
                let mut result: Vec<Pattern> = Vec::new();
                let mut i: usize = 0;
                while i < variants.len()
                    invariant
                        i <= variants@.len(),
                        vs == variants@.map_values(|s: String| s@),
                        shapes_are(result@, enum_shapes(self.table(), enum_name@, vs.take(i as int))),
                    decreases variants@.len() - i,
                {
                    proof {
                        assert(vs.take(i + 1).drop_last() =~= vs.take(i as int));
                        assert(vs.take(i + 1).last() == variants@[i as int]@);
                    }
                    let mut full = enum_name.clone();
                    string_push_str(&mut full, "::");
                    string_push_str(&mut full, variants[i].as_str());
                    proof {
                        reveal_strlit("::");
                        assert(full@ == full_name(enum_name@, variants@[i as int]@));
                    }
                    let ghost before = result@;
                    match self.constructors.get_constructor(&full) {
                        Some(info) => {
                            let args = wildcards(info.arity);
                            result.push(Pattern::NamedConstructor {
                                enum_name: enum_name.clone(),
                                variant_name: variants[i].clone(),
                                args,
                            });
                            proof {
                                assert forall|j: int| 0 <= j < result@.len() implies #[trigger] shape_of(result@[j])
                                    == Some(enum_shapes(self.table(), enum_name@, vs.take(i + 1))[j]) by {
                                    if j < before.len() {
                                        assert(result@[j] == before[j]);
                                    }
                                }
                            }
                        },
                        None => {
                            proof {
                                assert(enum_shapes(self.table(), enum_name@, vs.take(i + 1))
                                    =~= enum_shapes(self.table(), enum_name@, vs.take(i as int)));
                            }
                        },
                    }
                    i = i + 1;
                }
                proof {
                    assert(vs.take(i as int) =~= vs);
                }
                Ok(result)
            },
            None => Err(ExhaustivenessError::UnknownType { ty_name: enum_name.clone() }),
        }
    }

    /// The keys the patterns cover.
    fn covered_constructors(&self, patterns: &[Pattern]) -> (r: StrMap<()>)
        ensures
            r@.dom() == keys_list(patterns@),
    {
        let mut covered: StrMap<()> = StrMap::new();
        let mut i: usize = 0;
        proof {
            assert(covered@.dom() =~= keys_list(patterns@.take(0)));
        }
        while i < patterns.len()
            invariant
                i <= patterns@.len(),
                covered@.dom() == keys_list(patterns@.take(i as int)),
            decreases patterns@.len() - i,
        {
            proof {
                assert(patterns@.take(i + 1).drop_last() =~= patterns@.take(i as int));
                assert(patterns@.take(i + 1).last() == patterns@[i as int]);
            }
            add_covered(&patterns[i], &mut covered);
            i = i + 1;
        }
        assert(patterns@.take(i as int) =~= patterns@);
        covered
    }
}

/// `n` wildcards, for a count.
fn wildcards_n(n: usize) -> (r: Vec<Pattern>)
    ensures
        r@.len() == n,
        all_wild(r@),
{
    let mut r: Vec<Pattern> = Vec::new();
    let mut i: usize = 0;
    while i < n
        invariant
            i <= n,
            r@.len() == i,
            all_wild(r@),
        decreases n - i,
    {
        r.push(Pattern::Wildcard);
        i = i + 1;
    }
    r
}

/// The pattern standing for every value of a constructor.
fn ctor_pattern(info: &ConstructorInfo, name: &String) -> (r: Pattern)
    ensures
        shape_of(r) == Some(ctor_shape(*info, name@)),
{
    if info.is_record {
        let fields = wild_fields(&info.fields);
        Pattern::Record { name: name.clone(), fields }
    } else {
        let args = wildcards(info.arity);
        Pattern::Constructor { name: name.clone(), args }
    }
}

/// A copy of a pattern that stands for a whole constructor.
fn copy_shape_pattern(p: &Pattern) -> (r: Pattern)
    requires
        shape_of(*p) is Some,
    ensures
        shape_of(r) == shape_of(*p),
{
    match p {
        Pattern::Bool(b) => Pattern::Bool(*b),
        Pattern::Tuple(ps) => Pattern::Tuple(wildcards_n(ps.len())),
        Pattern::Array(ps, n) => Pattern::Array(wildcards_n(ps.len()), *n),
        Pattern::Constructor { name, args } => Pattern::Constructor { name: name.clone(), args: wildcards_n(args.len()) },
        Pattern::NamedConstructor { enum_name, variant_name, args } => Pattern::NamedConstructor {
            enum_name: enum_name.clone(),
            variant_name: variant_name.clone(),
            args: wildcards_n(args.len()),
        },
        Pattern::Record { name, fields } => {
            let mut names: Vec<String> = Vec::new();
            let mut i: usize = 0;
            while i < fields.len()
                invariant
                    i <= fields@.len(),
                    names@.map_values(|f: String| f@) == fields@.take(i as int).map_values(|f: (String, Pattern)| f.0@),
                decreases fields@.len() - i,
            {
                let ghost before = names@;
                names.push(fields[i].0.clone());
                proof {
                    assert(names@.map_values(|f: String| f@) =~= before.map_values(|f: String| f@).push(fields@[i as int].0@));
                    assert(fields@.take(i + 1).map_values(|f: (String, Pattern)| f.0@)
                        =~= fields@.take(i as int).map_values(|f: (String, Pattern)| f.0@).push(fields@[i as int].0@));
                }
                i = i + 1;
            }
            assert(fields@.take(i as int) =~= fields@);
            Pattern::Record { name: name.clone(), fields: wild_fields(&names) }
        },
        _ => Pattern::Wildcard,
    }
}

/// The key of a pattern that stands for a whole constructor.
fn key_of(p: &Pattern) -> (r: String)
    requires
        shape_of(*p) is Some,
    ensures
        r@ == shape_key(shape_of(*p)->0),
{
    match p {
        Pattern::Bool(b) => if *b {
            let r = owned("Bool(true)");
            proof { reveal_strlit("Bool(true)"); }
            r
        } else {
            let r = owned("Bool(false)");
            proof { reveal_strlit("Bool(false)"); }
            r
        },
        Pattern::Tuple(_) => owned("Tuple"),
        Pattern::Array(_, _) => owned("Array"),
        Pattern::Constructor { name, .. } => name.clone(),
        Pattern::NamedConstructor { enum_name, variant_name, .. } => {
            let mut r = enum_name.clone();
            string_push_str(&mut r, "::");
            string_push_str(&mut r, variant_name.as_str());
            r
        },
        Pattern::Record { name, .. } => name.clone(),
        _ => owned("*"),
    }
}

/// Adds the keys a pattern covers.
fn add_covered(p: &Pattern, covered: &mut StrMap<()>)
    ensures
        final(covered)@.dom() == old(covered)@.dom().union(pattern_keys(*p)),
    decreases p,
{
    let ghost start = covered@.dom();
    match p {
        Pattern::Bool(b) => {
            if *b {
                covered.insert(owned("Bool(true)"), ());
            } else {
                covered.insert(owned("Bool(false)"), ());
            }
        },
        Pattern::Constructor { name, args } => {
            covered.insert(name.clone(), ());
            add_covered_list(args, covered);
        },
        Pattern::NamedConstructor { enum_name, variant_name, args } => {
            let mut full = enum_name.clone();
            string_push_str(&mut full, "::");
            string_push_str(&mut full, variant_name.as_str());
            covered.insert(full, ());
            add_covered_list(args, covered);
        },
        Pattern::Tuple(ps) => {
            covered.insert(owned("Tuple"), ());
            add_covered_list(ps, covered);
        },
        Pattern::Array(ps, _) => {
            covered.insert(owned("Array"), ());
            add_covered_list(ps, covered);
        },
        Pattern::Record { name, fields } => {
            covered.insert(name.clone(), ());
            add_covered_fields(fields, covered);
        },
        Pattern::Or(ps) => {
            add_covered_list(ps, covered);
        },
        _ => {
            covered.insert(owned("*"), ());
        },
    }
    assert(covered@.dom() =~= start.union(pattern_keys(*p)));
}

/// Adds the keys a list of patterns covers.
fn add_covered_list(ps: &Vec<Pattern>, covered: &mut StrMap<()>)
    ensures
        final(covered)@.dom() == old(covered)@.dom().union(keys_list(ps@)),
    decreases ps@,
{
    let ghost start = covered@.dom();
    let mut i: usize = 0;
    assert(start.union(keys_list(ps@.take(0))) =~= start);
    while i < ps.len()
        invariant
            i <= ps@.len(),
            covered@.dom() == start.union(keys_list(ps@.take(i as int))),
        decreases ps@.len() - i,
    {
        proof {
            assert(decreases_to!(ps@ => ps@[i as int]));
            assert(ps@.take(i + 1).drop_last() =~= ps@.take(i as int));
            assert(ps@.take(i + 1).last() == ps@[i as int]);
        }
        add_covered(&ps[i], covered);
        assert(covered@.dom() =~= start.union(keys_list(ps@.take(i + 1))));
        i = i + 1;
    }
    assert(ps@.take(i as int) =~= ps@);
}

/// Adds the keys the field patterns of a record pattern cover.
fn add_covered_fields(fs: &Vec<(String, Pattern)>, covered: &mut StrMap<()>)
    ensures
        final(covered)@.dom() == old(covered)@.dom().union(keys_fields(fs@)),
    decreases fs@,
{
    let ghost start = covered@.dom();
    let mut i: usize = 0;
    assert(start.union(keys_fields(fs@.take(0))) =~= start);
    while i < fs.len()
        invariant
            i <= fs@.len(),
            covered@.dom() == start.union(keys_fields(fs@.take(i as int))),
        decreases fs@.len() - i,
    {
        proof {
            assert(decreases_to!(fs@ => fs@[i as int]));
            assert(decreases_to!(fs@[i as int] => fs@[i as int].1));
            assert(fs@.take(i + 1).drop_last() =~= fs@.take(i as int));
            assert(fs@.take(i + 1).last() == fs@[i as int]);
        }
        add_covered(&fs[i].1, covered);
        assert(covered@.dom() =~= start.union(keys_fields(fs@.take(i + 1))));
        i = i + 1;
    }
    assert(fs@.take(i as int) =~= fs@);
}


// ---------------------------------------------------------------------------
// Reports.
// ---------------------------------------------------------------------------

/// `n` wildcards joined by `, `.
pub open spec fn wild_list(n: nat) -> Seq<char>
    decreases n,
{
    if n == 0 {
        Seq::empty()
    } else if n == 1 {
        "_"@
    } else {
        wild_list((n - 1) as nat) + ", _"@
    }
}

/// Record fields as `name: _`, joined by `, `.
pub open spec fn wild_fields_text(fs: Seq<Seq<char>>) -> Seq<char>
    decreases fs.len(),
{
    if fs.len() == 0 {
        Seq::empty()
    } else if fs.len() == 1 {
        fs[0] + ": _"@
    } else {
        wild_fields_text(fs.drop_last()) + ", "@ + fs.last() + ": _"@
    }
}

/// How a constructor is written in a report.
pub open spec fn shape_text(s: Shape) -> Seq<char> {
    match s {
        Shape::BoolTrue => "true"@,
        Shape::BoolFalse => "false"@,
        Shape::Any => "_"@,
        Shape::Tuple(n) => "("@ + wild_list(n) + ")"@,
        Shape::Array(n, len) => match len {
            Some(k) => "["@ + wild_list(n) + "; "@ + crate::text::signed_decimal(k as int) + "]"@,
            None => "["@ + wild_list(n) + "]"@,
        },
        Shape::Ctor(name, n) => if n == 0 { name } else { name + "("@ + wild_list(n) + ")"@ },
        Shape::Named(e, v, n) => if n == 0 { full_name(e, v) } else { full_name(e, v) + "("@ + wild_list(n) + ")"@ },
        Shape::Record(name, fs) => name + " { "@ + wild_fields_text(fs) + " }"@,
    }
}

/// The numbered lines listing constructors, from number `k + 1` on.
pub open spec fn missing_lines(cs: Seq<Shape>) -> Seq<char>
    decreases cs.len(),
{
    if cs.len() == 0 {
        Seq::empty()
    } else {
        missing_lines(cs.drop_last()) + "  "@ + crate::text::decimal(cs.len()) + ". "@ + shape_text(cs.last()) + "\n"@
    }
}

/// The first variant of `vs`, in order, whose full name is not covered.
pub open spec fn first_uncovered(e: Seq<char>, vs: Seq<Seq<char>>, keys: Set<Seq<char>>) -> Option<Seq<char>>
    decreases vs.len(),
{
    if vs.len() == 0 {
        None
    } else {
        match first_uncovered(e, vs.drop_last(), keys) {
            Some(x) => Some(x),
            None => if keys.contains(full_name(e, vs.last())) { None } else { Some(full_name(e, vs.last())) },
        }
    }
}

/// The suggestion for a type, from the kept patterns: the first enum
/// variant they do not cover, or the first boolean they do not cover.
pub open spec fn suggestion(t: ConstructorTable, ty: Type, keys: Set<Seq<char>>) -> Option<Seq<char>> {
    match ty {
        Type::Enum(name, _) => match t.variants_of(name@) {
            Some(vs) => match first_uncovered(name@, vs, keys) {
                Some(f) => Some("case "@ + f + "::{ ... }"@),
                None => None,
            },
            None => None,
        },
        Type::Bool => if !keys.contains("Bool(true)"@) {
            Some("case true => ..."@)
        } else if !keys.contains("Bool(false)"@) {
            Some("case false => ..."@)
        } else {
            None
        },
        _ => None,
    }
}

/// Appends `n` wildcards joined by `, `.
fn push_wild_list(out: &mut String, n: usize)
    ensures
        final(out)@ == old(out)@ + wild_list(n as nat),
{
    let ghost o = out@;
    let mut k: usize = 0;
    while k < n
        invariant
            k <= n,
            out@ == o + wild_list(k as nat),
        decreases n - k,
    {
        if k == 0 {
            string_push_str(out, "_");
            proof {
                reveal_strlit("_");
                assert(out@ =~= o + wild_list(1));
            }
        } else {
            string_push_str(out, ", _");
            proof {
                reveal_strlit(", _");
                assert(out@ =~= o + wild_list((k + 1) as nat));
            }
        }
        k = k + 1;
    }
}

/// Appends how a constructor pattern is written.
fn push_shape(out: &mut String, p: &Pattern)
    requires
        shape_of(*p) is Some,
    ensures
        final(out)@ == old(out)@ + shape_text(shape_of(*p)->0),
{
    let ghost o = out@;
    match p {
        Pattern::Bool(b) => {
            string_push_str(out, if *b { "true" } else { "false" });
        },
        Pattern::Tuple(ps) => {
            string_push_str(out, "(");
            push_wild_list(out, ps.len());
            string_push_str(out, ")");
        },
        Pattern::Array(ps, len) => {
            string_push_str(out, "[");
            push_wild_list(out, ps.len());
            match len {
                Some(k) => {
                    string_push_str(out, "; ");
                    crate::text::push_signed_decimal(out, *k);
                },
                None => {},
            }
            string_push_str(out, "]");
        },
        Pattern::Constructor { name, args } => {
            string_push_str(out, name.as_str());
            if args.len() > 0 {
                string_push_str(out, "(");
                push_wild_list(out, args.len());
                string_push_str(out, ")");
            }
        },
        Pattern::NamedConstructor { enum_name, variant_name, args } => {
            string_push_str(out, enum_name.as_str());
            string_push_str(out, "::");
            string_push_str(out, variant_name.as_str());
            if args.len() > 0 {
                string_push_str(out, "(");
                push_wild_list(out, args.len());
                string_push_str(out, ")");
            }
        },
        Pattern::Record { name, fields } => {
            string_push_str(out, name.as_str());
            string_push_str(out, " { ");
            let ghost fs = fields@.map_values(|f: (String, Pattern)| f.0@);
            let ghost start = out@;
            let mut k: usize = 0;
            assert(fs.take(0) =~= Seq::<Seq<char>>::empty());
            while k < fields.len()
                invariant
                    k <= fields@.len(),
                    fs == fields@.map_values(|f: (String, Pattern)| f.0@),
                    out@ == start + wild_fields_text(fs.take(k as int)),
                decreases fields@.len() - k,
            {
                if k > 0 {
                    string_push_str(out, ", ");
                }
                string_push_str(out, fields[k].0.as_str());
                string_push_str(out, ": _");
                proof {
                    reveal_strlit(", ");
                    reveal_strlit(": _");
                    let t = fs.take(k + 1);
                    assert(t.drop_last() =~= fs.take(k as int));
                    assert(t.last() == fields@[k as int].0@);
                    if k == 0 {
                        assert(t[0] == fields@[0].0@);
                    }
                }
                k = k + 1;
            }
            assert(fs.take(k as int) =~= fs);
            string_push_str(out, " }");
        },
        _ => {
            string_push_str(out, "_");
        },
    }
    proof {
        reveal_strlit("true");
        reveal_strlit("false");
        reveal_strlit("(");
        reveal_strlit(")");
        reveal_strlit("[");
        reveal_strlit("]");
        reveal_strlit("; ");
        reveal_strlit("::");
        reveal_strlit(" { ");
        reveal_strlit(" }");
        reveal_strlit("_");
        assert(out@ =~= o + shape_text(shape_of(*p)->0));
    }
}

impl ExhaustivenessChecker {
    /// The report of the last check for `ty`: that the match is exhaustive,
    /// or the numbered missing cases and, when there is one, a suggested
    /// case.
    pub fn generate_report(&self, ty: &Type) -> (r: String)
        requires
            forall|j: int| 0 <= j < self.uncovered_shapes().len() ==> #[trigger] shape_of(self.uncovered_shapes()[j]) is Some,
        ensures
            ({
                let u = self.uncovered_shapes().map_values(|p: Pattern| shape_of(p)->0);
                r@ == if u.len() == 0 {
                    "\u{2705} Pattern matching is exhaustive\n"@
                } else {
                    "\u{26a0}\u{fe0f} Non-exhaustive patterns!\n\n"@ + "Missing cases:\n"@ + missing_lines(u) + "\nConsider adding:\n"@
                        + match suggestion(self.table(), *ty, keys_list(self.kept_patterns())) {
                        Some(s) => "  "@ + s + "\n"@,
                        None => Seq::<char>::empty(),
                    }
                }
            }),
    {
        let ghost u = self.uncovered_shapes().map_values(|p: Pattern| shape_of(p)->0);
        if self.uncovered.len() == 0 {
            let r = owned("\u{2705} Pattern matching is exhaustive\n");
            return r;
        }
        let mut out = owned("\u{26a0}\u{fe0f} Non-exhaustive patterns!\n\n");
        string_push_str(&mut out, "Missing cases:\n");
        let ghost start = out@;
        let mut k: usize = 0;
        assert(u.take(0) =~= Seq::<Shape>::empty());
        while k < self.uncovered.len()
            invariant
                k <= self.uncovered@.len(),
                u == self.uncovered_shapes().map_values(|p: Pattern| shape_of(p)->0),
                forall|j: int| 0 <= j < self.uncovered_shapes().len() ==> #[trigger] shape_of(self.uncovered_shapes()[j]) is Some,
                out@ == start + missing_lines(u.take(k as int)),
            decreases self.uncovered@.len() - k,
        {
            string_push_str(&mut out, "  ");
            crate::text::push_decimal(&mut out, (k + 1) as u64);
            string_push_str(&mut out, ". ");
            push_shape(&mut out, &self.uncovered[k]);
            string_push_str(&mut out, "\n");
            proof {
                reveal_strlit("  ");
                reveal_strlit(". ");
                reveal_strlit("\n");
                let t = u.take(k + 1);
                assert(t.drop_last() =~= u.take(k as int));
                assert(t.last() == shape_of(self.uncovered@[k as int])->0);
                assert(out@ =~= start + missing_lines(t));
            }
            k = k + 1;
        }
        assert(u.take(k as int) =~= u);
        string_push_str(&mut out, "\nConsider adding:\n");
        match self.suggest_missing_pattern(ty) {
            Some(sg) => {
                string_push_str(&mut out, "  ");
                string_push_str(&mut out, sg.as_str());
                string_push_str(&mut out, "\n");
            },
            None => {},
        }
        proof {
            reveal_strlit("  ");
            reveal_strlit("\n");
        }
        out
    }

    /// The first uncovered enum variant or boolean of `ty`, given the kept
    /// patterns.
    fn suggest_missing_pattern(&self, ty: &Type) -> (r: Option<String>)
        ensures
            match suggestion(self.table(), *ty, keys_list(self.kept_patterns())) {
                Some(s) => r is Some && r->Some_0@ == s,
                None => r is None,
            },
    {
        let covered = self.covered_constructors(self.patterns.as_slice());
        proof {
            reveal_strlit("Bool(true)");
            reveal_strlit("Bool(false)");
        }
        match ty {
            Type::Enum(name, _) => {
                match self.constructors.get_variants(name) {
                    Some(variants) => {
                        let ghost vs = variants@.map_values(|s: String| s@);
                        let ghost keys = keys_list(self.patterns@);
                        let mut k: usize = 0;
                        assert(vs.take(0) =~= Seq::<Seq<char>>::empty());
                        let ghost want = suggestion(self.table(), *ty, keys);
                        assert(want == match first_uncovered(name@, vs, keys) {
                            Some(f) => Some("case "@ + f + "::{ ... }"@),
                            None => None::<Seq<char>>,
                        });
                        assert(keys == keys_list(self.kept_patterns()));
                        while k < variants.len()
                            invariant
                                k <= variants@.len(),
                                want == suggestion(self.table(), *ty, keys_list(self.kept_patterns())),
                                want == match first_uncovered(name@, vs, keys) {
                                    Some(f) => Some("case "@ + f + "::{ ... }"@),
                                    None => None::<Seq<char>>,
                                },
                                vs == variants@.map_values(|s: String| s@),
                                covered@.dom() == keys,
                                first_uncovered(name@, vs.take(k as int), keys) is None,
                            decreases variants@.len() - k,
                        {
                            let mut full = name.clone();
                            string_push_str(&mut full, "::");
                            string_push_str(&mut full, variants[k].as_str());
                            proof {
                                reveal_strlit("::");
                                let t = vs.take(k + 1);
                                assert(t.drop_last() =~= vs.take(k as int));
                                assert(t.last() == variants@[k as int]@);
                                assert(full@ == full_name(name@, variants@[k as int]@));
                            }
                            if !covered.contains_key(full.as_str()) {
                                let mut sg = owned("case ");
                                string_push_str(&mut sg, full.as_str());
                                string_push_str(&mut sg, "::{ ... }");
                                proof {
                                    reveal_strlit("case ");
                                    reveal_strlit("::{ ... }");
                                    assert(!keys.contains(full@));
                                    assert(first_uncovered(name@, vs.take(k + 1), keys) == Some(full@));
                                    lemma_first_uncovered_prefix(name@, vs, keys, k + 1);
                                    assert(sg@ =~= "case "@ + full@ + "::{ ... }"@);
                                }
                                return Some(sg);
                            }
                            k = k + 1;
                        }
                        assert(vs.take(k as int) =~= vs);
                        None
                    },
                    None => None,
                }
            },
            Type::Bool => {
                if !covered.contains_key("Bool(true)") {
                    let r = owned("case true => ...");
                    proof { reveal_strlit("case true => ..."); }
                    Some(r)
                } else if !covered.contains_key("Bool(false)") {
                    let r = owned("case false => ...");
                    proof { reveal_strlit("case false => ..."); }
                    Some(r)
                } else {
                    None
                }
            },
            _ => None,
        }
    }
}

/// A first uncovered variant in a prefix is the first in the whole list.
proof fn lemma_first_uncovered_prefix(e: Seq<char>, vs: Seq<Seq<char>>, keys: Set<Seq<char>>, n: int)
    requires
        0 <= n <= vs.len(),
        first_uncovered(e, vs.take(n), keys) is Some,
    ensures
        first_uncovered(e, vs, keys) == first_uncovered(e, vs.take(n), keys),
    decreases vs.len() - n,
{
    if n < vs.len() {
        assert(vs.take(n + 1).drop_last() =~= vs.take(n));
        lemma_first_uncovered_prefix(e, vs, keys, n + 1);
    } else {
        assert(vs.take(n) =~= vs);
    }
}

} // verus!
