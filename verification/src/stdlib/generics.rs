//! Generic parameters, constraints and the type language used to check
//! trait bounds.
use vstd::prelude::*;
use crate::text::{owned, string_push_str};
use super::path::join_spec;
use crate::assoc::{assoc_lookup, assoc_find, lemma_assoc_update, lemma_assoc_push, lemma_assoc_found, lemma_assoc_absent};

verus! {

/// A type of the checked language.
#[derive(Debug, PartialEq, Hash, Eq)]
pub enum Type {
    Unit,
    Bool,
    Int,
    Float,
    Char,
    String,
    Never,
    Ref(Box<Type>, Option<String>),
    MutRef(Box<Type>),
    Array(Box<Type>, i64),
    Tuple(Vec<Type>),
    Struct(StructType),
    Enum(EnumType),
    Generic(GenericInstance),
    Function(FunctionType),
    Dynamic(String),
    Concrete(String),
}

/// A struct type: its name and named fields.
#[derive(Debug, PartialEq, Hash, Eq)]
pub struct StructType {
    pub name: String,
    pub fields: Vec<(String, Type)>,
}

/// An enum type: its name and variants with their payload types.
#[derive(Debug, PartialEq, Hash, Eq)]
pub struct EnumType {
    pub name: String,
    pub variants: Vec<(String, Vec<Type>)>,
}

/// A generic type applied to arguments.
#[derive(Debug, PartialEq, Hash, Eq)]
pub struct GenericInstance {
    pub name: String,
    pub args: Vec<Type>,
}

/// A function type.
#[derive(Debug, PartialEq, Hash, Eq)]
pub struct FunctionType {
    pub params: Vec<Type>,
    pub return_type: Box<Type>,
    pub is_unsafe: bool,
}

/// Whether values of the type have a size known in advance.
pub open spec fn sized_spec(t: Type) -> bool
    decreases t,
{
    match t {
        Type::Ref(_, _) | Type::MutRef(_) => false,
        Type::Array(inner, _) => sized_spec(*inner),
        Type::Generic(_) => false,
        Type::Dynamic(_) => false,
        _ => true,
    }
}

/// Whether the type is copied rather than moved.
pub open spec fn copy_spec(t: Type) -> bool
    decreases t,
{
    match t {
        Type::Int | Type::Float | Type::Bool | Type::Char | Type::Unit => true,
        Type::Ref(_, _) | Type::MutRef(_) => false,
        Type::Array(inner, _) => copy_spec(*inner),
        Type::Tuple(ts) => all_copy(ts@),
        _ => false,
    }
}

/// Whether every type of the list is copied.
pub open spec fn all_copy(ts: Seq<Type>) -> bool
    decreases ts,
{
    if ts.len() == 0 {
        true
    } else {
        copy_spec(ts.last()) && all_copy(ts.drop_last())
    }
}


/// Optional texts with the same content.
pub open spec fn opt_text_eq(a: Option<String>, b: Option<String>) -> bool {
    match (a, b) {
        (Some(x), Some(y)) => x@ == y@,
        (None, None) => true,
        _ => false,
    }
}

/// Structural equality of types, names compared by content.
pub open spec fn type_eq_spec(a: Type, b: Type) -> bool
    decreases a,
{
    match (a, b) {
        (Type::Unit, Type::Unit) => true,
        (Type::Bool, Type::Bool) => true,
        (Type::Int, Type::Int) => true,
        (Type::Float, Type::Float) => true,
        (Type::Char, Type::Char) => true,
        (Type::String, Type::String) => true,
        (Type::Never, Type::Never) => true,
        (Type::Ref(x, l1), Type::Ref(y, l2)) => type_eq_spec(*x, *y) && opt_text_eq(l1, l2),
        (Type::MutRef(x), Type::MutRef(y)) => type_eq_spec(*x, *y),
        (Type::Array(x, n), Type::Array(y, m)) => n == m && type_eq_spec(*x, *y),
        (Type::Tuple(xs), Type::Tuple(ys)) => types_eq_spec(xs@, ys@),
        (Type::Struct(s1), Type::Struct(s2)) => s1.name@ == s2.name@ && fields_eq_spec(
            s1.fields@,
            s2.fields@,
        ),
        (Type::Enum(e1), Type::Enum(e2)) => e1.name@ == e2.name@ && variants_eq_spec(
            e1.variants@,
            e2.variants@,
        ),
        (Type::Generic(g1), Type::Generic(g2)) => generic_eq_spec(g1, g2),
        (Type::Function(f1), Type::Function(f2)) => types_eq_spec(f1.params@, f2.params@)
            && type_eq_spec(*f1.return_type, *f2.return_type) && f1.is_unsafe == f2.is_unsafe,
        (Type::Dynamic(x), Type::Dynamic(y)) => x@ == y@,
        (Type::Concrete(x), Type::Concrete(y)) => x@ == y@,
        _ => false,
    }
}

/// Equality of generic instances: same name, equal arguments.
pub open spec fn generic_eq_spec(g1: GenericInstance, g2: GenericInstance) -> bool
    decreases g1,
{
    g1.name@ == g2.name@ && types_eq_spec(g1.args@, g2.args@)
}

/// Element-wise equality of type lists.
pub open spec fn types_eq_spec(xs: Seq<Type>, ys: Seq<Type>) -> bool
    decreases xs,
{
    if xs.len() != ys.len() {
        false
    } else if xs.len() == 0 {
        true
    } else {
        type_eq_spec(xs.last(), ys.last()) && types_eq_spec(xs.drop_last(), ys.drop_last())
    }
}

/// Element-wise equality of named fields.
pub open spec fn fields_eq_spec(xs: Seq<(String, Type)>, ys: Seq<(String, Type)>) -> bool
    decreases xs,
{
    if xs.len() != ys.len() {
        false
    } else if xs.len() == 0 {
        true
    } else {
        xs.last().0@ == ys.last().0@ && type_eq_spec(xs.last().1, ys.last().1) && fields_eq_spec(
            xs.drop_last(),
            ys.drop_last(),
        )
    }
}

/// Element-wise equality of enum variants.
pub open spec fn variants_eq_spec(xs: Seq<(String, Vec<Type>)>, ys: Seq<(String, Vec<Type>)>) -> bool
    decreases xs,
{
    if xs.len() != ys.len() {
        false
    } else if xs.len() == 0 {
        true
    } else {
        xs.last().0@ == ys.last().0@ && types_eq_spec(xs.last().1@, ys.last().1@)
            && variants_eq_spec(xs.drop_last(), ys.drop_last())
    }
}

fn text_eq(a: &String, b: &String) -> (r: bool)
    ensures
        r == (a@ == b@),
{
    crate::text::str_eq(a.as_str(), b.as_str())
}

fn opt_text_eq_exec(a: &Option<String>, b: &Option<String>) -> (r: bool)
    ensures
        r == opt_text_eq(*a, *b),
{
    match (a, b) {
        (Some(x), Some(y)) => text_eq(x, y),
        (None, None) => true,
        _ => false,
    }
}

/// Structural equality of two types.
pub fn type_eq(a: &Type, b: &Type) -> (r: bool)
    ensures
        r == type_eq_spec(*a, *b),
    decreases a,
{
    match (a, b) {
        (Type::Unit, Type::Unit) => true,
        (Type::Bool, Type::Bool) => true,
        (Type::Int, Type::Int) => true,
        (Type::Float, Type::Float) => true,
        (Type::Char, Type::Char) => true,
        (Type::String, Type::String) => true,
        (Type::Never, Type::Never) => true,
        (Type::Ref(x, l1), Type::Ref(y, l2)) => type_eq(x, y) && opt_text_eq_exec(l1, l2),
        (Type::MutRef(x), Type::MutRef(y)) => type_eq(x, y),
        (Type::Array(x, n), Type::Array(y, m)) => *n == *m && type_eq(x, y),
        (Type::Tuple(xs), Type::Tuple(ys)) => types_eq(xs, ys),
        (Type::Struct(s1), Type::Struct(s2)) => text_eq(&s1.name, &s2.name) && fields_eq(&s1.fields, &s2.fields),
        (Type::Enum(e1), Type::Enum(e2)) => text_eq(&e1.name, &e2.name) && variants_eq(&e1.variants, &e2.variants),
        (Type::Generic(g1), Type::Generic(g2)) => generic_eq(g1, g2),
        (Type::Function(f1), Type::Function(f2)) => types_eq(&f1.params, &f2.params)
            && type_eq(&f1.return_type, &f2.return_type) && f1.is_unsafe == f2.is_unsafe,
        (Type::Dynamic(x), Type::Dynamic(y)) => text_eq(x, y),
        (Type::Concrete(x), Type::Concrete(y)) => text_eq(x, y),
        _ => false,
    }
}

/// Equality of generic instances.
pub fn generic_eq(g1: &GenericInstance, g2: &GenericInstance) -> (r: bool)
    ensures
        r == generic_eq_spec(*g1, *g2),
    decreases g1,
{
    text_eq(&g1.name, &g2.name) && types_eq(&g1.args, &g2.args)
}

/// Element-wise equality of two type lists.
fn types_eq(xs: &Vec<Type>, ys: &Vec<Type>) -> (r: bool)
    ensures
        r == types_eq_spec(xs@, ys@),
    decreases xs@,
{
    if xs.len() != ys.len() {
        return false;
    }
    let mut i: usize = 0;
    while i < xs.len()
        invariant
            i <= xs@.len(),
            xs@.len() == ys@.len(),
            types_eq_spec(xs@.take(i as int), ys@.take(i as int)),
        decreases xs@.len() - i,
    {
        proof {
            assert(xs@.take(i + 1).drop_last() =~= xs@.take(i as int));
            assert(ys@.take(i + 1).drop_last() =~= ys@.take(i as int));
            assert(decreases_to!(xs@ => xs@[i as int]));
        }
        if !type_eq(&xs[i], &ys[i]) {
            proof {
                if types_eq_spec(xs@, ys@) {
                    lemma_types_eq_index(xs@, ys@, i as int);
                }
            }
            return false;
        }
        i = i + 1;
    }
    assert(xs@.take(xs@.len() as int) =~= xs@);
    assert(ys@.take(ys@.len() as int) =~= ys@);
    true
}

/// Element-wise equality of two field lists.
fn fields_eq(xs: &Vec<(String, Type)>, ys: &Vec<(String, Type)>) -> (r: bool)
    ensures
        r == fields_eq_spec(xs@, ys@),
    decreases xs@,
{
    if xs.len() != ys.len() {
        return false;
    }
    let mut i: usize = 0;
    while i < xs.len()
        invariant
            i <= xs@.len(),
            xs@.len() == ys@.len(),
            fields_eq_spec(xs@.take(i as int), ys@.take(i as int)),
        decreases xs@.len() - i,
    {
        proof {
            assert(xs@.take(i + 1).drop_last() =~= xs@.take(i as int));
            assert(ys@.take(i + 1).drop_last() =~= ys@.take(i as int));
            assert(decreases_to!(xs@ => xs@[i as int]));
            assert(decreases_to!(xs@[i as int] => xs@[i as int].1));
        }
        if !text_eq(&xs[i].0, &ys[i].0) || !type_eq(&xs[i].1, &ys[i].1) {
            proof {
                if fields_eq_spec(xs@, ys@) {
                    lemma_fields_eq_index(xs@, ys@, i as int);
                }
            }
            return false;
        }
        i = i + 1;
    }
    assert(xs@.take(xs@.len() as int) =~= xs@);
    assert(ys@.take(ys@.len() as int) =~= ys@);
    true
}

/// Element-wise equality of two variant lists.
fn variants_eq(xs: &Vec<(String, Vec<Type>)>, ys: &Vec<(String, Vec<Type>)>) -> (r: bool)
    ensures
        r == variants_eq_spec(xs@, ys@),
    decreases xs@,
{
    if xs.len() != ys.len() {
        return false;
    }
    let mut i: usize = 0;
    while i < xs.len()
        invariant
            i <= xs@.len(),
            xs@.len() == ys@.len(),
            variants_eq_spec(xs@.take(i as int), ys@.take(i as int)),
        decreases xs@.len() - i,
    {
        proof {
            assert(xs@.take(i + 1).drop_last() =~= xs@.take(i as int));
            assert(ys@.take(i + 1).drop_last() =~= ys@.take(i as int));
            assert(decreases_to!(xs@ => xs@[i as int]));
            assert(decreases_to!(xs@[i as int] => xs@[i as int].1));
            assert(decreases_to!(xs@[i as int].1 => xs@[i as int].1@));
        }
        if !text_eq(&xs[i].0, &ys[i].0) || !types_eq(&xs[i].1, &ys[i].1) {
            proof {
                if variants_eq_spec(xs@, ys@) {
                    lemma_variants_eq_index(xs@, ys@, i as int);
                }
            }
            return false;
        }
        i = i + 1;
    }
    assert(xs@.take(xs@.len() as int) =~= xs@);
    assert(ys@.take(ys@.len() as int) =~= ys@);
    true
}

proof fn lemma_fields_eq_index(xs: Seq<(String, Type)>, ys: Seq<(String, Type)>, i: int)
    requires
        0 <= i < xs.len(),
        fields_eq_spec(xs, ys),
    ensures
        xs[i].0@ == ys[i].0@ && type_eq_spec(xs[i].1, ys[i].1),
    decreases xs.len(),
{
    if i < xs.len() - 1 {
        lemma_fields_eq_index(xs.drop_last(), ys.drop_last(), i);
    }
}

proof fn lemma_variants_eq_index(xs: Seq<(String, Vec<Type>)>, ys: Seq<(String, Vec<Type>)>, i: int)
    requires
        0 <= i < xs.len(),
        variants_eq_spec(xs, ys),
    ensures
        xs[i].0@ == ys[i].0@ && types_eq_spec(xs[i].1@, ys[i].1@),
    decreases xs.len(),
{
    if i < xs.len() - 1 {
        lemma_variants_eq_index(xs.drop_last(), ys.drop_last(), i);
    }
}

proof fn lemma_types_eq_index(xs: Seq<Type>, ys: Seq<Type>, i: int)
    requires
        0 <= i < xs.len(),
        types_eq_spec(xs, ys),
    ensures
        type_eq_spec(xs[i], ys[i]),
    decreases xs.len(),
{
    if i < xs.len() - 1 {
        lemma_types_eq_index(xs.drop_last(), ys.drop_last(), i);
    }
}


/// A deep copy of a type.
pub fn copy_type(t: &Type) -> (r: Type)
    ensures
        type_eq_spec(r, *t),
    decreases t,
{
    match t {
        Type::Unit => Type::Unit,
        Type::Bool => Type::Bool,
        Type::Int => Type::Int,
        Type::Float => Type::Float,
        Type::Char => Type::Char,
        Type::String => Type::String,
        Type::Never => Type::Never,
        Type::Ref(x, l) => Type::Ref(Box::new(copy_type(x)), copy_opt_text(l)),
        Type::MutRef(x) => Type::MutRef(Box::new(copy_type(x))),
        Type::Array(x, n) => Type::Array(Box::new(copy_type(x)), *n),
        Type::Tuple(xs) => Type::Tuple(copy_types(xs)),
        Type::Struct(st) => Type::Struct(StructType { name: st.name.clone(), fields: copy_fields(&st.fields) }),
        Type::Enum(e) => Type::Enum(EnumType { name: e.name.clone(), variants: copy_variants(&e.variants) }),
        Type::Generic(g) => Type::Generic(copy_generic(g)),
        Type::Function(f) => Type::Function(
            FunctionType {
                params: copy_types(&f.params),
                return_type: Box::new(copy_type(&f.return_type)),
                is_unsafe: f.is_unsafe,
            },
        ),
        Type::Dynamic(x) => Type::Dynamic(x.clone()),
        Type::Concrete(x) => Type::Concrete(x.clone()),
    }
}

fn copy_opt_text(a: &Option<String>) -> (r: Option<String>)
    ensures
        opt_text_eq(r, *a),
{
    match a {
        Some(x) => Some(x.clone()),
        None => None,
    }
}

/// A deep copy of a generic instance.
pub fn copy_generic(g: &GenericInstance) -> (r: GenericInstance)
    ensures
        generic_eq_spec(r, *g),
    decreases g,
{
    GenericInstance { name: g.name.clone(), args: copy_types(&g.args) }
}

/// A deep copy of a type list.
pub fn copy_types(xs: &Vec<Type>) -> (r: Vec<Type>)
    ensures
        types_eq_spec(r@, xs@),
    decreases xs@,
{
    let mut r: Vec<Type> = Vec::new();
    let mut i: usize = 0;
    while i < xs.len()
        invariant
            i <= xs@.len(),
            r@.len() == i,
            types_eq_spec(r@, xs@.take(i as int)),
        decreases xs@.len() - i,
    {
        proof {
            assert(decreases_to!(xs@ => xs@[i as int]));
        }
        let c = copy_type(&xs[i]);
        let ghost before = r@;
        r.push(c);
        proof {
            assert(r@.drop_last() =~= before);
            assert(xs@.take(i + 1).drop_last() =~= xs@.take(i as int));
        }
        i = i + 1;
    }
    assert(xs@.take(xs@.len() as int) =~= xs@);
    r
}

fn copy_fields(xs: &Vec<(String, Type)>) -> (r: Vec<(String, Type)>)
    ensures
        fields_eq_spec(r@, xs@),
    decreases xs@,
{
    let mut r: Vec<(String, Type)> = Vec::new();
    let mut i: usize = 0;
    while i < xs.len()
        invariant
            i <= xs@.len(),
            r@.len() == i,
            fields_eq_spec(r@, xs@.take(i as int)),
        decreases xs@.len() - i,
    {
        proof {
            assert(decreases_to!(xs@ => xs@[i as int]));
            assert(decreases_to!(xs@[i as int] => xs@[i as int].1));
        }
        let c = (xs[i].0.clone(), copy_type(&xs[i].1));
        let ghost before = r@;
        r.push(c);
        proof {
            assert(r@.drop_last() =~= before);
            assert(xs@.take(i + 1).drop_last() =~= xs@.take(i as int));
        }
        i = i + 1;
    }
    assert(xs@.take(xs@.len() as int) =~= xs@);
    r
}

fn copy_variants(xs: &Vec<(String, Vec<Type>)>) -> (r: Vec<(String, Vec<Type>)>)
    ensures
        variants_eq_spec(r@, xs@),
    decreases xs@,
{
    let mut r: Vec<(String, Vec<Type>)> = Vec::new();
    let mut i: usize = 0;
    while i < xs.len()
        invariant
            i <= xs@.len(),
            r@.len() == i,
            variants_eq_spec(r@, xs@.take(i as int)),
        decreases xs@.len() - i,
    {
        proof {
            assert(decreases_to!(xs@ => xs@[i as int]));
            assert(decreases_to!(xs@[i as int] => xs@[i as int].1));
            assert(decreases_to!(xs@[i as int].1 => xs@[i as int].1@));
        }
        let c = (xs[i].0.clone(), copy_types(&xs[i].1));
        let ghost before = r@;
        r.push(c);
        proof {
            assert(r@.drop_last() =~= before);
            assert(xs@.take(i + 1).drop_last() =~= xs@.take(i as int));
        }
        i = i + 1;
    }
    assert(xs@.take(xs@.len() as int) =~= xs@);
    r
}

impl Clone for Type {
    fn clone(&self) -> (r: Type)
        ensures
            type_eq_spec(r, *self),
    {
        copy_type(self)
    }
}

impl Clone for GenericInstance {
    fn clone(&self) -> (r: GenericInstance)
        ensures
            generic_eq_spec(r, *self),
    {
        copy_generic(self)
    }
}


/// A constraint on a generic parameter.
#[derive(Debug, Clone, PartialEq)]
pub enum Constraint {
    TraitBound(TraitConstraint),
    LifetimeBound(LifetimeConstraint),
    SyncBound,
    SendBound,
    SizedBound,
    CopyBound,
    StaticBound,
}

/// A trait the type must (or, negated, must not) implement.
#[derive(Debug, Clone, PartialEq)]
pub struct TraitConstraint {
    pub trait_name: String,
    pub type_args: Vec<Type>,
    pub is_negative: bool,
}

/// A lifetime that must outlive others.
#[derive(Debug, Clone, PartialEq)]
pub struct LifetimeConstraint {
    pub lifetime: String,
    pub bounds: Vec<String>,
}

/// A generic parameter.
#[derive(Debug, Clone, PartialEq)]
pub struct GenericParam {
    pub name: String,
    pub kind: GenericParamKind,
    pub constraints: Vec<Constraint>,
    pub default: Option<Type>,
}

/// Kinds of generic parameter.
#[derive(Debug, Clone, PartialEq)]
pub enum GenericParamKind {
    Type,
    Const,
    Lifetime,
}

/// The generic parameters of an item and its where clause.
#[derive(Debug, Clone, PartialEq)]
pub struct GenericParamList {
    pub params: Vec<GenericParam>,
    pub where_clause: Option<WhereClause>,
}

/// A where clause.
#[derive(Debug, Clone, PartialEq)]
pub struct WhereClause {
    pub items: Vec<WhereClauseItem>,
}

/// One predicate of a where clause.
#[derive(Debug, Clone, PartialEq)]
pub struct WhereClauseItem {
    pub type_: Type,
    pub constraint: Constraint,
}

/// Text lists with the same contents.
pub open spec fn texts_eq_spec(a: Seq<String>, b: Seq<String>) -> bool {
    a.len() == b.len() && forall|i: int| 0 <= i < a.len() ==> #[trigger] a[i]@ == b[i]@
}

/// Structural equality of constraints.
pub open spec fn constraint_eq_spec(a: Constraint, b: Constraint) -> bool {
    match (a, b) {
        (Constraint::TraitBound(x), Constraint::TraitBound(y)) => x.trait_name@ == y.trait_name@
            && types_eq_spec(x.type_args@, y.type_args@) && x.is_negative == y.is_negative,
        (Constraint::LifetimeBound(x), Constraint::LifetimeBound(y)) => x.lifetime@ == y.lifetime@
            && texts_eq_spec(x.bounds@, y.bounds@),
        (Constraint::SyncBound, Constraint::SyncBound) => true,
        (Constraint::SendBound, Constraint::SendBound) => true,
        (Constraint::SizedBound, Constraint::SizedBound) => true,
        (Constraint::CopyBound, Constraint::CopyBound) => true,
        (Constraint::StaticBound, Constraint::StaticBound) => true,
        _ => false,
    }
}

fn copy_texts(v: &Vec<String>) -> (r: Vec<String>)
    ensures
        texts_eq_spec(r@, v@),
{
    let mut r: Vec<String> = Vec::new();
    let mut i: usize = 0;
    while i < v.len()
        invariant
            i <= v@.len(),
            r@.len() == i,
            forall|j: int| 0 <= j < i ==> #[trigger] r@[j]@ == v@[j]@,
        decreases v@.len() - i,
    {
        r.push(v[i].clone());
        i = i + 1;
    }
    r
}

/// A deep copy of a constraint.
pub fn copy_constraint(c: &Constraint) -> (r: Constraint)
    ensures
        constraint_eq_spec(r, *c),
{
    match c {
        Constraint::TraitBound(x) => Constraint::TraitBound(
            TraitConstraint {
                trait_name: x.trait_name.clone(),
                type_args: copy_types(&x.type_args),
                is_negative: x.is_negative,
            },
        ),
        Constraint::LifetimeBound(x) => Constraint::LifetimeBound(
            LifetimeConstraint { lifetime: x.lifetime.clone(), bounds: copy_texts(&x.bounds) },
        ),
        Constraint::SyncBound => Constraint::SyncBound,
        Constraint::SendBound => Constraint::SendBound,
        Constraint::SizedBound => Constraint::SizedBound,
        Constraint::CopyBound => Constraint::CopyBound,
        Constraint::StaticBound => Constraint::StaticBound,
    }
}

/// The constraints of the parameters, in order.
pub open spec fn param_constraints(ps: Seq<GenericParam>) -> Seq<Constraint>
    decreases ps.len(),
{
    if ps.len() == 0 {
        Seq::empty()
    } else {
        param_constraints(ps.drop_last()) + ps.last().constraints@
    }
}

/// The constraints of a where clause's predicates, in order.
pub open spec fn where_constraints(items: Seq<WhereClauseItem>) -> Seq<Constraint> {
    items.map_values(|it: WhereClauseItem| it.constraint)
}

/// Element-wise equality of constraint lists.
pub open spec fn constraints_eq_spec(a: Seq<Constraint>, b: Seq<Constraint>) -> bool {
    a.len() == b.len() && forall|i: int| 0 <= i < a.len() ==> #[trigger] constraint_eq_spec(a[i], b[i])
}

impl GenericParamList {
    /// No parameters and no where clause.
    pub fn new() -> (r: GenericParamList)
        ensures
            r.params@.len() == 0,
            r.where_clause is None,
    {
        GenericParamList { params: Vec::new(), where_clause: None }
    }

    pub fn add_param(&mut self, param: GenericParam)
        ensures
            final(self).params@ == old(self).params@.push(param),
            final(self).where_clause == old(self).where_clause,
    {
        self.params.push(param);
    }

    /// Sets the where clause, replacing any earlier one.
    pub fn add_where_clause(&mut self, clause: WhereClause)
        ensures
            final(self).where_clause == Some(clause),
            final(self).params == old(self).params,
    {
        self.where_clause = Some(clause);
    }

    /// Copies of the parameters' constraints followed by those of the where
    /// clause.
    pub fn get_constraints(&self) -> (r: Vec<Constraint>)
        ensures
            constraints_eq_spec(
                r@,
                param_constraints(self.params@) + match self.where_clause {
                    Some(wc) => where_constraints(wc.items@),
                    None => Seq::<Constraint>::empty(),
                },
            ),
    {
        let mut out: Vec<Constraint> = Vec::new();
        let mut i: usize = 0;
        while i < self.params.len()
            invariant
                i <= self.params@.len(),
                constraints_eq_spec(out@, param_constraints(self.params@.take(i as int))),
            decreases self.params@.len() - i,
        {
            let cs = &self.params[i].constraints;
            let ghost base = out@;
            let mut j: usize = 0;
            while j < cs.len()
                invariant
                    j <= cs@.len(),
                    out@.len() == base.len() + j,
                    forall|k: int| 0 <= k < base.len() ==> out@[k] == base[k],
                    forall|k: int| 0 <= k < j ==> #[trigger] constraint_eq_spec(out@[base.len() + k], cs@[k]),
                decreases cs@.len() - j,
            {
                out.push(copy_constraint(&cs[j]));
                j = j + 1;
            }
            proof {
                assert(self.params@.take(i + 1).drop_last() =~= self.params@.take(i as int));
                let target = param_constraints(self.params@.take(i + 1));
                assert(target =~= param_constraints(self.params@.take(i as int)) + cs@);
                assert forall|k: int| 0 <= k < out@.len() implies #[trigger] constraint_eq_spec(out@[k], target[k]) by {
                    if k < base.len() {
                        assert(out@[k] == base[k]);
                    } else {
                        assert(constraint_eq_spec(out@[base.len() + (k - base.len())], cs@[k - base.len()]));
                    }
                }
            }
            i = i + 1;
        }
        assert(self.params@.take(self.params@.len() as int) =~= self.params@);
        match &self.where_clause {
            Some(wc) => {
                let ghost base = out@;
                let mut j: usize = 0;
                while j < wc.items.len()
                    invariant
                        j <= wc.items@.len(),
                        out@.len() == base.len() + j,
                        forall|k: int| 0 <= k < base.len() ==> out@[k] == base[k],
                        forall|k: int| 0 <= k < j ==> #[trigger] constraint_eq_spec(out@[base.len() + k], wc.items@[k].constraint),
                    decreases wc.items@.len() - j,
                {
                    out.push(copy_constraint(&wc.items[j].constraint));
                    j = j + 1;
                }
                proof {
                    let target = param_constraints(self.params@) + where_constraints(wc.items@);
                    assert forall|k: int| 0 <= k < out@.len() implies #[trigger] constraint_eq_spec(out@[k], target[k]) by {
                        if k < base.len() {
                            assert(out@[k] == base[k]);
                        } else {
                            assert(constraint_eq_spec(out@[base.len() + (k - base.len())], wc.items@[k - base.len()].constraint));
                        }
                    }
                }
            },
            None => {
                assert(param_constraints(self.params@) + Seq::<Constraint>::empty() =~= param_constraints(self.params@));
            },
        }
        out
    }
}

impl WhereClause {
    pub fn new() -> (r: WhereClause)
        ensures
            r.items@.len() == 0,
    {
        WhereClause { items: Vec::new() }
    }

    pub fn add_item(&mut self, item: WhereClauseItem)
        ensures
            final(self).items@ == old(self).items@.push(item),
    {
        self.items.push(item);
    }
}


/// Size in bytes of the types whose size is fixed: unit 0, bool 1, int and
/// float 8, char 4, string 16, arrays by element count, tuples and structs by
/// the sum of their parts.
pub open spec fn size_spec(t: Type) -> Option<int>
    decreases t,
{
    match t {
        Type::Unit => Some(0),
        Type::Bool => Some(1),
        Type::Int => Some(8),
        Type::Float => Some(8),
        Type::Char => Some(4),
        Type::String => Some(16),
        Type::Array(inner, n) => match size_spec(*inner) {
            Some(sz) => Some(sz * n),
            None => None,
        },
        Type::Tuple(ts) => sizes_sum(ts@),
        Type::Struct(st) => field_sizes_sum(st.fields@),
        _ => None,
    }
}

/// Sum of the sizes of a list, if all are fixed.
pub open spec fn sizes_sum(ts: Seq<Type>) -> Option<int>
    decreases ts,
{
    if ts.len() == 0 {
        Some(0)
    } else {
        match (sizes_sum(ts.drop_last()), size_spec(ts.last())) {
            (Some(a), Some(b)) => Some(a + b),
            _ => None,
        }
    }
}

/// Sum of the sizes of the field types, if all are fixed.
pub open spec fn field_sizes_sum(fs: Seq<(String, Type)>) -> Option<int>
    decreases fs,
{
    if fs.len() == 0 {
        Some(0)
    } else {
        match (field_sizes_sum(fs.drop_last()), size_spec(fs.last().1)) {
            (Some(a), Some(b)) => Some(a + b),
            _ => None,
        }
    }
}

/// Whether a value fits in 64 bits.
pub open spec fn in_i64(v: int) -> bool {
    i64::MIN <= v <= i64::MAX
}

/// Whether every size computed for `t`, intermediate sums included, fits in
/// 64 bits (the computation of a part stops at the first part without a
/// fixed size).
pub open spec fn size_fits(t: Type) -> bool
    decreases t,
{
    match t {
        Type::Array(inner, n) => size_fits(*inner) && match size_spec(*inner) {
            Some(sz) => in_i64(sz * n),
            None => true,
        },
        Type::Tuple(ts) => sizes_fit(ts@),
        Type::Struct(st) => field_sizes_fit(st.fields@),
        _ => true,
    }
}

pub open spec fn sizes_fit(ts: Seq<Type>) -> bool
    decreases ts,
{
    if ts.len() == 0 {
        true
    } else {
        sizes_fit(ts.drop_last()) && (sizes_sum(ts.drop_last()) is Some ==> size_fits(ts.last())
            && match size_spec(ts.last()) {
            Some(b) => in_i64(sizes_sum(ts.drop_last())->0 + b),
            None => true,
        })
    }
}

pub open spec fn field_sizes_fit(fs: Seq<(String, Type)>) -> bool
    decreases fs,
{
    if fs.len() == 0 {
        true
    } else {
        field_sizes_fit(fs.drop_last()) && (field_sizes_sum(fs.drop_last()) is Some ==> size_fits(
            fs.last().1,
        ) && match size_spec(fs.last().1) {
            Some(b) => in_i64(field_sizes_sum(fs.drop_last())->0 + b),
            None => true,
        })
    }
}

/// A type that may be copied by the bound checker: scalars, arrays of them
/// and structs all of whose fields are.
pub open spec fn copyable_spec(t: Type) -> bool
    decreases t,
{
    match t {
        Type::Int | Type::Float | Type::Bool | Type::Char => true,
        Type::Ref(_, _) => false,
        Type::Array(inner, _) => copyable_spec(*inner),
        Type::Struct(st) => fields_copyable(st.fields@),
        _ => false,
    }
}

pub open spec fn fields_copyable(fs: Seq<(String, Type)>) -> bool
    decreases fs,
{
    if fs.len() == 0 {
        true
    } else {
        fields_copyable(fs.drop_last()) && copyable_spec(fs.last().1)
    }
}

impl Type {
    pub fn is_sized(&self) -> (r: bool)
        ensures
            r == sized_spec(*self),
        decreases self,
    {
        match self {
            Type::Ref(_, _) | Type::MutRef(_) => false,
            Type::Array(t, _) => t.is_sized(),
            Type::Generic(_) => false,
            Type::Dynamic(_) => false,
            _ => true,
        }
    }

    pub fn is_copy(&self) -> (r: bool)
        ensures
            r == copy_spec(*self),
        decreases self,
    {
        match self {
            Type::Int | Type::Float | Type::Bool | Type::Char | Type::Unit => true,
            Type::Ref(_, _) | Type::MutRef(_) => false,
            Type::Array(t, _) => t.is_copy(),
            Type::Tuple(types) => {
                let mut i: usize = 0;
                while i < types.len()
                    invariant
                        i <= types@.len(),
                        *self == Type::Tuple(*types),
                        all_copy(types@.take(i as int)),
                    decreases types@.len() - i,
                {
                    proof {
                        let ghost ts = *types;
                        assert(*self == Type::Tuple(ts));
                        assert(decreases_to!(*self => (*self)->Tuple_0));
                        assert(decreases_to!(ts => ts@));
                        assert(decreases_to!(ts@ => ts@[i as int]));
                        assert(types@.take(i + 1).drop_last() =~= types@.take(i as int));
                    }
                    if !types[i].is_copy() {
                        proof {
                            lemma_all_copy_index(types@, i as int);
                        }
                        return false;
                    }
                    i = i + 1;
                }
                assert(types@.take(types@.len() as int) =~= types@);
                true
            },
            _ => false,
        }
    }

    /// The size in bytes, when it is fixed.
    pub fn size_of(&self) -> (r: Option<i64>)
        requires
            size_fits(*self),
        ensures
            match size_spec(*self) {
                Some(v) => in_i64(v) && r == Some(v as i64),
                None => r is None,
            },
        decreases self,
    {
        match self {
            Type::Unit => Some(0),
            Type::Bool => Some(1),
            Type::Int => Some(8),
            Type::Float => Some(8),
            Type::Char => Some(4),
            Type::String => Some(16),
            Type::Array(t, n) => {
                let size = t.size_of()?;
                Some(size * *n)
            },
            Type::Tuple(types) => {
                let mut total: i64 = 0;
                let mut i: usize = 0;
                while i < types.len()
                    invariant
                        i <= types@.len(),
                        *self == Type::Tuple(*types),
                        sizes_fit(types@),
                        sizes_sum(types@.take(i as int)) == Some(total as int),
                    decreases types@.len() - i,
                {
                    proof {
                        assert(decreases_to!(*self => *types));
                        assert(decreases_to!(*types => types@));
                        assert(decreases_to!(types@ => types@[i as int]));
                        assert(types@.take(i + 1).drop_last() =~= types@.take(i as int));
                        assert(types@.take(i + 1).last() == types@[i as int]);
                        lemma_sizes_fit_prefix(types@, i + 1);
                    }
                    let sz = match types[i].size_of() {
                        Some(v) => v,
                        None => {
                            proof {
                                lemma_sizes_sum_none(types@, i + 1);
                            }
                            return None;
                        },
                    };
                    total = total + sz;
                    i = i + 1;
                }
                assert(types@.take(types@.len() as int) =~= types@);
                Some(total)
            },
            Type::Struct(st) => {
                let fields = &st.fields;
                let mut total: i64 = 0;
                let mut i: usize = 0;
                while i < fields.len()
                    invariant
                        i <= fields@.len(),
                        *self == Type::Struct(*st),
                        *fields == st.fields,
                        field_sizes_fit(fields@),
                        field_sizes_sum(fields@.take(i as int)) == Some(total as int),
                    decreases fields@.len() - i,
                {
                    proof {
                        assert(decreases_to!(*self => *st));
                        assert(decreases_to!(*st => st.fields));
                        assert(decreases_to!(st.fields => fields@));
                        assert(decreases_to!(fields@ => fields@[i as int]));
                        assert(decreases_to!(fields@[i as int] => fields@[i as int].1));
                        assert(fields@.take(i + 1).drop_last() =~= fields@.take(i as int));
                        assert(fields@.take(i + 1).last() == fields@[i as int]);
                        lemma_field_sizes_fit_prefix(fields@, i + 1);
                    }
                    let sz = match fields[i].1.size_of() {
                        Some(v) => v,
                        None => {
                            proof {
                                lemma_field_sizes_sum_none(fields@, i + 1);
                            }
                            return None;
                        },
                    };
                    total = total + sz;
                    i = i + 1;
                }
                assert(fields@.take(fields@.len() as int) =~= fields@);
                Some(total)
            },
            _ => None,
        }
    }
}

proof fn lemma_all_copy_index(ts: Seq<Type>, i: int)
    requires
        0 <= i < ts.len(),
        !copy_spec(ts[i]),
    ensures
        !all_copy(ts),
    decreases ts.len(),
{
    if i < ts.len() - 1 {
        lemma_all_copy_index(ts.drop_last(), i);
    }
}

proof fn lemma_sizes_fit_prefix(ts: Seq<Type>, k: int)
    requires
        0 <= k <= ts.len(),
        sizes_fit(ts),
    ensures
        sizes_fit(ts.take(k)),
    decreases ts.len() - k,
{
    if k < ts.len() {
        lemma_sizes_fit_prefix(ts.drop_last(), k);
        assert(ts.drop_last().take(k) =~= ts.take(k));
    } else {
        assert(ts.take(k) =~= ts);
    }
}

proof fn lemma_sizes_sum_none(ts: Seq<Type>, k: int)
    requires
        0 < k <= ts.len(),
        size_spec(ts[k - 1]) is None,
    ensures
        sizes_sum(ts) is None,
    decreases ts.len() - k,
{
    if k < ts.len() {
        lemma_sizes_sum_none(ts.drop_last(), k);
    }
}

proof fn lemma_field_sizes_fit_prefix(fs: Seq<(String, Type)>, k: int)
    requires
        0 <= k <= fs.len(),
        field_sizes_fit(fs),
    ensures
        field_sizes_fit(fs.take(k)),
    decreases fs.len() - k,
{
    if k < fs.len() {
        lemma_field_sizes_fit_prefix(fs.drop_last(), k);
        assert(fs.drop_last().take(k) =~= fs.take(k));
    } else {
        assert(fs.take(k) =~= fs);
    }
}

proof fn lemma_field_sizes_sum_none(fs: Seq<(String, Type)>, k: int)
    requires
        0 < k <= fs.len(),
        size_spec(fs[k - 1].1) is None,
    ensures
        field_sizes_sum(fs) is None,
    decreases fs.len() - k,
{
    if k < fs.len() {
        lemma_field_sizes_sum_none(fs.drop_last(), k);
    }
}


/// A trait definition.
#[derive(Debug, Clone, PartialEq)]
pub struct TraitDefinition {
    pub name: String,
    pub params: GenericParamList,
    pub methods: Vec<FunctionSig>,
    pub super_traits: Vec<String>,
}

/// A function signature of a trait.
#[derive(Debug, Clone, PartialEq)]
pub struct FunctionSig {
    pub name: String,
    pub params: Vec<(String, Type)>,
    pub return_type: Type,
    pub bounds: Vec<Constraint>,
}

/// An implementation of a trait for a type.
#[derive(Debug, Clone, PartialEq)]
pub struct TraitImpl {
    pub trait_name: String,
    pub for_type: Type,
    pub methods: Vec<FunctionImpl>,
}

/// A method of an implementation.
#[derive(Debug, Clone, PartialEq)]
pub struct FunctionImpl {
    pub sig: FunctionSig,
    pub body: String,
}

/// Whether the bound checker may treat `a` as `b`: generic instances match
/// each other only when equal, and anything else; concrete names match by
/// text; other types must be equal.
pub open spec fn compatible_spec(a: Type, b: Type) -> bool {
    match (a, b) {
        (Type::Generic(ga), Type::Generic(gb)) => generic_eq_spec(ga, gb),
        (Type::Concrete(ca), Type::Concrete(cb)) => ca@ == cb@,
        (Type::Generic(_), _) => true,
        (_, Type::Generic(_)) => true,
        _ => type_eq_spec(a, b),
    }
}

/// Checks trait bounds against registered implementations.
pub struct TraitBoundChecker {
    trait_table: Vec<(String, TraitDefinition)>,
    impl_table: Vec<(String, Vec<TraitImpl>)>,
}

impl TraitBoundChecker {
    /// The definition registered under a trait name.
    pub closed spec fn trait_of(&self, name: Seq<char>) -> Option<TraitDefinition> {
        assoc_lookup(self.trait_table@, name)
    }

    /// The implementations registered for a trait name, in order.
    pub closed spec fn impls_of(&self, name: Seq<char>) -> Seq<TraitImpl> {
        match assoc_lookup(self.impl_table@, name) {
            Some(v) => v@,
            None => Seq::empty(),
        }
    }

    /// Whether `t` meets the trait constraint: some implementation of the
    /// trait is for a compatible type.
    pub open spec fn bound_holds(&self, t: Type, c: TraitConstraint) -> bool {
        exists|i: int| 0 <= i < self.impls_of(c.trait_name@).len() && #[trigger] compatible_spec(
            t,
            self.impls_of(c.trait_name@)[i].for_type,
        )
    }

    /// Whether `t` meets one constraint: trait bounds as above, `Sized` and
    /// `Copy` by the type; the other kinds always hold.
    pub open spec fn constraint_holds(&self, t: Type, c: Constraint) -> bool {
        match c {
            Constraint::TraitBound(tc) => self.bound_holds(t, tc),
            Constraint::SizedBound => sized_spec(t),
            Constraint::CopyBound => copyable_spec(t),
            _ => true,
        }
    }

    /// No traits and no implementations.
    pub fn new() -> (r: TraitBoundChecker)
        ensures
            forall|n: Seq<char>| r.trait_of(n) is None,
            forall|n: Seq<char>| r.impls_of(n) == Seq::<TraitImpl>::empty(),
    {
        TraitBoundChecker { trait_table: Vec::new(), impl_table: Vec::new() }
    }

    /// Registers a trait under its name, replacing an earlier definition.
    pub fn register_trait(&mut self, trait_def: TraitDefinition)
        ensures
            final(self).trait_of(trait_def.name@) == Some(trait_def),
            forall|n: Seq<char>| n != trait_def.name@ ==> final(self).trait_of(n) == old(self).trait_of(n),
            forall|n: Seq<char>| final(self).impls_of(n) == old(self).impls_of(n),
    {
        let key = trait_def.name.clone();
        let ghost def = trait_def;
        let ghost t = self.trait_table@;
        match assoc_find(&self.trait_table, &key) {
            Some(i) => {
                self.trait_table[i].1 = trait_def;
                proof {
                    assert(self.trait_table@ == t.update(i as int, (t[i as int].0, def)));
                    assert forall|n: Seq<char>| assoc_lookup(self.trait_table@, n) == if n == key@ {
                        Some(def)
                    } else {
                        assoc_lookup(t, n)
                    } by {
                        lemma_assoc_update(t, i as int, def, n);
                    }
                }
            },
            None => {
                self.trait_table.push((key, trait_def));
                proof {
                    assert forall|n: Seq<char>| assoc_lookup(self.trait_table@, n) == if n == key@ {
                        Some(def)
                    } else {
                        assoc_lookup(t, n)
                    } by {
                        lemma_assoc_push(t, (key, def), n);
                    }
                }
            },
        }
    }

    /// Adds an implementation to those of its trait.
    pub fn register_impl(&mut self, impl_: TraitImpl)
        ensures
            final(self).impls_of(impl_.trait_name@) == old(self).impls_of(impl_.trait_name@).push(impl_),
            forall|n: Seq<char>| n != impl_.trait_name@ ==> final(self).impls_of(n) == old(self).impls_of(n),
            forall|n: Seq<char>| final(self).trait_of(n) == old(self).trait_of(n),
    {
        let key = impl_.trait_name.clone();
        let ghost im = impl_;
        let ghost t = self.impl_table@;
        match assoc_find(&self.impl_table, &key) {
            Some(i) => {
                self.impl_table[i].1.push(impl_);
                proof {
                    let nv = self.impl_table@[i as int].1;
                    assert(self.impl_table@ == t.update(i as int, (t[i as int].0, nv)));
                    lemma_assoc_found(t, i as int);
                    assert forall|n: Seq<char>| assoc_lookup(self.impl_table@, n) == if n == key@ {
                        Some(nv)
                    } else {
                        assoc_lookup(t, n)
                    } by {
                        lemma_assoc_update(t, i as int, nv, n);
                    }
                }
            },
            None => {
                let mut v: Vec<TraitImpl> = Vec::new();
                v.push(impl_);
                let ghost nv = v;
                self.impl_table.push((key, v));
                proof {
                    lemma_assoc_absent(t, key@);
                    assert(nv@ =~= Seq::<TraitImpl>::empty().push(im));
                    assert forall|n: Seq<char>| assoc_lookup(self.impl_table@, n) == if n == key@ {
                        Some(nv)
                    } else {
                        assoc_lookup(t, n)
                    } by {
                        lemma_assoc_push(t, (key, nv), n);
                    }
                }
            },
        }
    }

    /// Whether some implementation of the constraint's trait is for a type
    /// compatible with `type_`.
    pub fn check_trait_bound(&self, type_: &Type, constraint: &TraitConstraint) -> (r: bool)
        ensures
            r == self.bound_holds(*type_, *constraint),
    {
        match assoc_find(&self.impl_table, &constraint.trait_name) {
            Some(k) => {
                proof {
                    lemma_assoc_found(self.impl_table@, k as int);
                }
                let impls = &self.impl_table[k].1;
                let mut i: usize = 0;
                while i < impls.len()
                    invariant
                        i <= impls@.len(),
                        impls@ == self.impls_of(constraint.trait_name@),
                        forall|j: int| 0 <= j < i ==> !#[trigger] compatible_spec(*type_, impls@[j].for_type),
                    decreases impls@.len() - i,
                {
                    if self.types_compatible(type_, &impls[i].for_type) {
                        return true;
                    }
                    i = i + 1;
                }
                false
            },
            None => {
                proof {
                    lemma_assoc_absent(self.impl_table@, constraint.trait_name@);
                }
                false
            },
        }
    }

    /// Whether `type_` meets every constraint of the list.
    pub fn check_all_bounds(&self, type_: &Type, constraints: &Vec<Constraint>) -> (r: bool)
        ensures
            r == forall|i: int| 0 <= i < constraints@.len() ==> #[trigger] self.constraint_holds(
                *type_,
                constraints@[i],
            ),
    {
        let mut i: usize = 0;
        while i < constraints.len()
            invariant
                i <= constraints@.len(),
                forall|j: int| 0 <= j < i ==> #[trigger] self.constraint_holds(*type_, constraints@[j]),
            decreases constraints@.len() - i,
        {
            let ok = match &constraints[i] {
                Constraint::TraitBound(tc) => self.check_trait_bound(type_, tc),
                Constraint::SizedBound => type_.is_sized(),
                Constraint::CopyBound => self.is_copyable(type_),
                _ => true,
            };
            if !ok {
                assert(!self.constraint_holds(*type_, constraints@[i as int]));
                return false;
            }
            i = i + 1;
        }
        true
    }

    fn types_compatible(&self, a: &Type, b: &Type) -> (r: bool)
        ensures
            r == compatible_spec(*a, *b),
    {
        match (a, b) {
            (Type::Generic(ga), Type::Generic(gb)) => generic_eq(ga, gb),
            (Type::Concrete(ca), Type::Concrete(cb)) => text_eq(ca, cb),
            (Type::Generic(_), _) => true,
            (_, Type::Generic(_)) => true,
            _ => type_eq(a, b),
        }
    }

    fn is_copyable(&self, type_: &Type) -> (r: bool)
        ensures
            r == copyable_spec(*type_),
        decreases type_,
    {
        match type_ {
            Type::Int | Type::Float | Type::Bool | Type::Char => true,
            Type::Ref(_, _) => false,
            Type::Array(t, _) => self.is_copyable(t),
            Type::Struct(s) => {
                let fields = &s.fields;
                let mut i: usize = 0;
                while i < fields.len()
                    invariant
                        i <= fields@.len(),
                        *type_ == Type::Struct(*s),
                        *fields == s.fields,
                        fields_copyable(fields@.take(i as int)),
                    decreases fields@.len() - i,
                {
                    proof {
                        assert(decreases_to!(*type_ => (*type_)->Struct_0));
                        assert(decreases_to!(*s => s.fields));
                        assert(decreases_to!(s.fields => fields@));
                        assert(decreases_to!(fields@ => fields@[i as int]));
                        assert(decreases_to!(fields@[i as int] => fields@[i as int].1));
                        assert(fields@.take(i + 1).drop_last() =~= fields@.take(i as int));
                    }
                    if !self.is_copyable(&fields[i].1) {
                        proof {
                            lemma_fields_copyable_index(fields@, i as int);
                        }
                        return false;
                    }
                    i = i + 1;
                }
                assert(fields@.take(fields@.len() as int) =~= fields@);
                true
            },
            _ => false,
        }
    }
}

proof fn lemma_fields_copyable_index(fs: Seq<(String, Type)>, i: int)
    requires
        0 <= i < fs.len(),
        !copyable_spec(fs[i].1),
    ensures
        !fields_copyable(fs),
    decreases fs.len(),
{
    if i < fs.len() - 1 {
        lemma_fields_copyable_index(fs.drop_last(), i);
    }
}


/// Text of the strings joined with `sep` between neighbours.
pub fn join_strings(parts: &Vec<String>, sep: &str) -> (r: String)
    ensures
        r@ == join_spec(parts@.map_values(|p: String| p@), sep@),
{
    let mut r = String::new();
    let mut i: usize = 0;
    let ghost views = parts@.map_values(|p: String| p@);
    while i < parts.len()
        invariant
            i <= parts@.len(),
            views == parts@.map_values(|p: String| p@),
            r@ == join_spec(views.take(i as int), sep@),
        decreases parts@.len() - i,
    {
        proof {
            assert(views.take(i + 1).drop_last() =~= views.take(i as int));
            if i == 0 {
                assert(views.take(1) =~= seq![views[0]]);
                assert(r@ =~= Seq::<char>::empty());
            }
        }
        if i > 0 {
            string_push_str(&mut r, sep);
        }
        string_push_str(&mut r, parts[i].as_str());
        proof {
            if i == 0 {
                assert(r@ =~= views[0]);
            }
        }
        i = i + 1;
    }
    assert(views.take(parts@.len() as int) =~= views);
    r
}

/// `name: self.name`.
pub open spec fn clone_field_text(n: Seq<char>) -> Seq<char> {
    n + ": self."@ + n
}

/// `.field("name", &self.name)`.
pub open spec fn debug_field_text(n: Seq<char>) -> Seq<char> {
    ".field(\""@ + n + "\", &self."@ + n + ")"@
}

/// `self.name == other.name`.
pub open spec fn eq_field_text(n: Seq<char>) -> Seq<char> {
    "self."@ + n + " == other."@ + n
}

/// The field names of a struct type.
pub open spec fn field_names(st: StructType) -> Seq<Seq<char>> {
    st.fields@.map_values(|f: (String, Type)| f.0@)
}

/// Derives implementations of the standard traits as source text.
pub struct DeriveImpl {
    trait_table: Vec<(String, TraitDefinition)>,
}

fn builtin_trait(name: &str, supers: Vec<String>) -> (r: TraitDefinition)
    ensures
        r.name@ == name@,
        r.super_traits == supers,
        r.methods@.len() == 0,
{
    TraitDefinition { name: owned(name), params: GenericParamList::new(), methods: Vec::new(), super_traits: supers }
}

impl DeriveImpl {
    /// The trait registered under a name.
    pub closed spec fn trait_of(&self, name: Seq<char>) -> Option<TraitDefinition> {
        assoc_lookup(self.trait_table@, name)
    }

    /// A deriver that knows `Clone`, `Debug`, `PartialEq`, `Eq` (over
    /// `PartialEq`), `PartialOrd`, `Ord` (over `PartialEq` and `Eq`), `Hash`
    /// and `Default`.
    pub fn new() -> (r: DeriveImpl)
        ensures
            r.trait_of("Clone"@) is Some,
            r.trait_of("Debug"@) is Some,
            r.trait_of("PartialEq"@) is Some,
            r.trait_of("Eq"@) is Some,
            r.trait_of("PartialOrd"@) is Some,
            r.trait_of("Ord"@) is Some,
            r.trait_of("Hash"@) is Some,
            r.trait_of("Default"@) is Some,
    {
        let mut r = DeriveImpl { trait_table: Vec::new() };
        r.init_builtin_traits();
        r
    }

    fn register(&mut self, def: TraitDefinition)
        ensures
            final(self).trait_of(def.name@) == Some(def),
            forall|n: Seq<char>| n != def.name@ ==> final(self).trait_of(n) == old(self).trait_of(n),
    {
        let key = def.name.clone();
        let ghost d = def;
        let ghost t = self.trait_table@;
        match assoc_find(&self.trait_table, &key) {
            Some(i) => {
                self.trait_table[i].1 = def;
                proof {
                    assert(self.trait_table@ == t.update(i as int, (t[i as int].0, d)));
                    assert forall|n: Seq<char>| assoc_lookup(self.trait_table@, n) == if n == key@ {
                        Some(d)
                    } else {
                        assoc_lookup(t, n)
                    } by {
                        lemma_assoc_update(t, i as int, d, n);
                    }
                }
            },
            None => {
                self.trait_table.push((key, def));
                proof {
                    assert forall|n: Seq<char>| assoc_lookup(self.trait_table@, n) == if n == key@ {
                        Some(d)
                    } else {
                        assoc_lookup(t, n)
                    } by {
                        lemma_assoc_push(t, (key, d), n);
                    }
                }
            },
        }
    }

    fn init_builtin_traits(&mut self)
        ensures
            final(self).trait_of("Clone"@) is Some,
            final(self).trait_of("Debug"@) is Some,
            final(self).trait_of("PartialEq"@) is Some,
            final(self).trait_of("Eq"@) is Some,
            final(self).trait_of("PartialOrd"@) is Some,
            final(self).trait_of("Ord"@) is Some,
            final(self).trait_of("Hash"@) is Some,
            final(self).trait_of("Default"@) is Some,
    {
        proof {
            reveal_strlit("Clone");
            reveal_strlit("Debug");
            reveal_strlit("PartialEq");
            reveal_strlit("Eq");
            reveal_strlit("PartialOrd");
            reveal_strlit("Ord");
            reveal_strlit("Hash");
            reveal_strlit("Default");
        }
        self.register(builtin_trait("Clone", Vec::new()));
        self.register(builtin_trait("Debug", Vec::new()));
        self.register(builtin_trait("PartialEq", Vec::new()));
        let mut eq_supers: Vec<String> = Vec::new();
        eq_supers.push(owned("PartialEq"));
        self.register(builtin_trait("Eq", eq_supers));
        self.register(builtin_trait("PartialOrd", Vec::new()));
        let mut ord_supers: Vec<String> = Vec::new();
        ord_supers.push(owned("PartialEq"));
        ord_supers.push(owned("Eq"));
        self.register(builtin_trait("Ord", ord_supers));
        self.register(builtin_trait("Hash", Vec::new()));
        self.register(builtin_trait("Default", Vec::new()));
    }

    /// Source of a `Clone` implementation copying each field.
    pub fn derive_clone(&self, struct_type: &StructType) -> (r: String)
        ensures
            r@ == "impl Clone for "@ + struct_type.name@ + " { fn clone(&self) -> Self { Self { "@
                + join_spec(field_names(*struct_type).map_values(|n: Seq<char>| clone_field_text(n)), ", "@)
                + " } } }"@,
    {
        let pieces = field_pieces(struct_type, 0);
        let body = join_strings(&pieces, ", ");
        let mut r = owned("impl Clone for ");
        string_push_str(&mut r, struct_type.name.as_str());
        string_push_str(&mut r, " { fn clone(&self) -> Self { Self { ");
        string_push_str(&mut r, body.as_str());
        string_push_str(&mut r, " } } }");
        proof {
            assert(pieces@.map_values(|p: String| p@) =~= field_names(*struct_type).map_values(|n: Seq<char>| clone_field_text(n)));
        }
        r
    }

    /// Source of a `Debug` implementation listing each field.
    pub fn derive_debug(&self, struct_type: &StructType) -> (r: String)
        ensures
            r@ == "impl Debug for "@ + struct_type.name@
                + " { fn fmt(&self, f: &mut Formatter) -> Result { f.debug_struct(\""@ + struct_type.name@
                + "\")"@ + join_spec(field_names(*struct_type).map_values(|n: Seq<char>| debug_field_text(n)), ""@)
                + " .finish() } }"@,
    {
        let pieces = field_pieces(struct_type, 1);
        let body = join_strings(&pieces, "");
        let mut r = owned("impl Debug for ");
        string_push_str(&mut r, struct_type.name.as_str());
        string_push_str(&mut r, " { fn fmt(&self, f: &mut Formatter) -> Result { f.debug_struct(\"");
        string_push_str(&mut r, struct_type.name.as_str());
        string_push_str(&mut r, "\")");
        string_push_str(&mut r, body.as_str());
        string_push_str(&mut r, " .finish() } }");
        proof {
            assert(pieces@.map_values(|p: String| p@) =~= field_names(*struct_type).map_values(|n: Seq<char>| debug_field_text(n)));
        }
        r
    }

    /// Source of a `PartialEq` implementation comparing each field (`true`
    /// for a struct without fields).
    pub fn derive_partial_eq(&self, struct_type: &StructType) -> (r: String)
        ensures
            r@ == "impl PartialEq for "@ + struct_type.name@ + " { fn eq(&self, other: &Self) -> bool { "@
                + (if struct_type.fields@.len() == 0 {
                    "true"@
                } else {
                    join_spec(field_names(*struct_type).map_values(|n: Seq<char>| eq_field_text(n)), " && "@)
                }) + " } }"@,
    {
        let pieces = field_pieces(struct_type, 2);
        let body = if pieces.len() == 0 { owned("true") } else { join_strings(&pieces, " && ") };
        let mut r = owned("impl PartialEq for ");
        string_push_str(&mut r, struct_type.name.as_str());
        string_push_str(&mut r, " { fn eq(&self, other: &Self) -> bool { ");
        string_push_str(&mut r, body.as_str());
        string_push_str(&mut r, " } }");
        proof {
            assert(pieces@.map_values(|p: String| p@) =~= field_names(*struct_type).map_values(|n: Seq<char>| eq_field_text(n)));
        }
        r
    }
}

/// The text for field `n` in the form `which` selects: 0 for `Clone`, 1
/// for `Debug`, 2 for `PartialEq`.
pub open spec fn field_piece(n: Seq<char>, which: u8) -> Seq<char> {
    if which == 0 {
        clone_field_text(n)
    } else if which == 1 {
        debug_field_text(n)
    } else {
        eq_field_text(n)
    }
}

fn field_pieces(st: &StructType, which: u8) -> (r: Vec<String>)
    ensures
        r@.len() == st.fields@.len(),
        forall|i: int| 0 <= i < r@.len() ==> #[trigger] r@[i]@ == field_piece(st.fields@[i].0@, which),
{
    let mut r: Vec<String> = Vec::new();
    let mut i: usize = 0;
    while i < st.fields.len()
        invariant
            i <= st.fields@.len(),
            r@.len() == i,
            forall|j: int| 0 <= j < i ==> #[trigger] r@[j]@ == field_piece(st.fields@[j].0@, which),
        decreases st.fields@.len() - i,
    {
        let n = st.fields[i].0.as_str();
        let mut p = String::new();
        if which == 0 {
            string_push_str(&mut p, n);
            string_push_str(&mut p, ": self.");
            string_push_str(&mut p, n);
        } else if which == 1 {
            string_push_str(&mut p, ".field(\"");
            string_push_str(&mut p, n);
            string_push_str(&mut p, "\", &self.");
            string_push_str(&mut p, n);
            string_push_str(&mut p, ")");
        } else {
            string_push_str(&mut p, "self.");
            string_push_str(&mut p, n);
            string_push_str(&mut p, " == other.");
            string_push_str(&mut p, n);
        }
        r.push(p);
        i = i + 1;
    }
    r
}

/// Kinds of generics error.
#[derive(Debug, Clone, Copy, PartialEq, Eq, Structural)]
pub enum ErrorKind {
    UnresolvedGeneric,
    TraitBoundNotSatisfied,
    LifetimeBoundNotSatisfied,
    CyclicConstraint,
    UnimplementedTrait,
    TypeMismatch,
    UnsupportedOperation,
}

/// A generics error with an optional source location.
#[derive(Debug, Clone)]
pub struct Error {
    kind: ErrorKind,
    message: String,
    location: Option<(String, i64)>,
}

impl Error {
    pub closed spec fn kind_of(&self) -> ErrorKind {
        self.kind
    }

    pub closed spec fn text(&self) -> Seq<char> {
        self.message@
    }

    pub closed spec fn place(&self) -> Option<(Seq<char>, i64)> {
        match self.location {
            Some(l) => Some((l.0@, l.1)),
            None => None,
        }
    }

    pub fn new(kind: ErrorKind, message: String) -> (r: Error)
        ensures
            r.kind_of() == kind,
            r.text() == message@,
            r.place() is None,
    {
        Error { kind, message, location: None }
    }

    pub fn with_location(self, file: String, line: i64) -> (r: Error)
        ensures
            r.kind_of() == self.kind_of(),
            r.text() == self.text(),
            r.place() == Some((file@, line)),
    {
        let mut e = self;
        e.location = Some((file, line));
        e
    }

    pub fn kind(&self) -> (r: ErrorKind)
        ensures
            r == self.kind_of(),
    {
        self.kind
    }

    pub fn message(&self) -> (r: &String)
        ensures
            r@ == self.text(),
    {
        &self.message
    }
}

} // verus!
