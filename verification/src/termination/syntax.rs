//! The expression language that termination checking reads, with structural
//! equality and deep copies.
use vstd::prelude::*;
use crate::termination::{BinOp, UnOp, Position, Type, TypeKind};

verus! {

/// A literal value.
#[derive(Debug, PartialEq, Eq, Hash)]
pub enum Literal {
    Unit,
    Bool(bool),
    Int(i128),
    /// A floating-point literal, held by its IEEE 754 bit pattern.
    Float(u64),
    Char(char),
    String(String),
}

/// An expression.
#[derive(Debug, PartialEq, Eq, Hash)]
pub enum Expression {
    Variable(String),
    Literal(Literal),
    Constructor(String, Vec<Expression>),
    FieldAccess(Box<Expression>, String),
    Index(Box<Expression>, Box<Expression>),
    Tuple(Vec<Expression>),
    Array(Vec<Expression>),
    Call(String, Vec<Expression>),
    BinOp(BinOp, Box<Expression>, Box<Expression>),
    UnOp(UnOp, Box<Expression>),
    If(Box<Expression>, Box<Expression>, Option<Box<Expression>>),
    Match(Box<Expression>, Vec<MatchArm>),
    Block(Vec<Statement>, Option<Box<Expression>>),
}

/// An arm of a `match`.
#[derive(Debug, PartialEq, Eq, Hash)]
pub struct MatchArm {
    pub pattern: Pattern,
    pub body: Expression,
}

/// A pattern.
#[derive(Debug, PartialEq, Eq, Hash)]
pub enum Pattern {
    Variable(String),
    Wildcard,
    Constructor(String, Vec<Pattern>),
    Tuple(Vec<Pattern>),
    Literal(Literal),
    Or(Vec<Pattern>),
}

/// A statement at a position.
#[derive(Debug, PartialEq, Eq, Hash)]
pub struct Statement {
    pub kind: StatementKind,
    pub position: Position,
}

/// The forms of statement.
#[derive(Debug, PartialEq, Eq, Hash)]
pub enum StatementKind {
    Let(Pattern, Option<Type>, Expression),
    Expression(Expression),
    While(Expression, Expression),
    For(Option<Box<Statement>>, Option<Expression>, Option<Expression>, Expression),
    Break(Option<String>),
    Continue(Option<String>),
    Return(Option<Expression>),
}

// ---------------------------------------------------------------------------
// Structural equality: names and texts compared by content.
// ---------------------------------------------------------------------------

/// Equality of literals.
pub open spec fn lit_eq(a: Literal, b: Literal) -> bool {
    match (a, b) {
        (Literal::Unit, Literal::Unit) => true,
        (Literal::Bool(x), Literal::Bool(y)) => x == y,
        (Literal::Int(x), Literal::Int(y)) => x == y,
        (Literal::Float(x), Literal::Float(y)) => x == y,
        (Literal::Char(x), Literal::Char(y)) => x == y,
        (Literal::String(x), Literal::String(y)) => x@ == y@,
        _ => false,
    }
}

/// Equality of positions.
pub open spec fn pos_eq(a: Position, b: Position) -> bool {
    a.file@ == b.file@ && a.line == b.line && a.column == b.column
}

/// Equality of types.
pub open spec fn type_eq(a: Type, b: Type) -> bool
    decreases a,
{
    a.size == b.size && kind_eq(a.kind, b.kind)
}

/// Equality of type forms.
pub open spec fn kind_eq(a: TypeKind, b: TypeKind) -> bool
    decreases a,
{
    match (a, b) {
        (TypeKind::Unit, TypeKind::Unit) => true,
        (TypeKind::Bool, TypeKind::Bool) => true,
        (TypeKind::Int(x), TypeKind::Int(y)) => x == y,
        (TypeKind::Float, TypeKind::Float) => true,
        (TypeKind::Char, TypeKind::Char) => true,
        (TypeKind::String, TypeKind::String) => true,
        (TypeKind::Array(x, n), TypeKind::Array(y, m)) => n == m && type_eq(*x, *y),
        (TypeKind::Tuple(xs), TypeKind::Tuple(ys)) => types_eq(xs@, ys@),
        (TypeKind::Named(x), TypeKind::Named(y)) => x@ == y@,
        (TypeKind::Enum(x), TypeKind::Enum(y)) => x@ == y@,
        (TypeKind::Record(x), TypeKind::Record(y)) => x@ == y@,
        (TypeKind::Function(p, r), TypeKind::Function(q, s)) => type_eq(*p, *q) && type_eq(*r, *s),
        (TypeKind::Var(x), TypeKind::Var(y)) => x@ == y@,
        _ => false,
    }
}

/// Element-wise equality of type lists.
pub open spec fn types_eq(xs: Seq<Type>, ys: Seq<Type>) -> bool
    decreases xs,
{
    if xs.len() != ys.len() {
        false
    } else if xs.len() == 0 {
        true
    } else {
        type_eq(xs.last(), ys.last()) && types_eq(xs.drop_last(), ys.drop_last())
    }
}

/// Equality of patterns.
pub open spec fn pat_eq(a: Pattern, b: Pattern) -> bool
    decreases a,
{
    match (a, b) {
        (Pattern::Variable(x), Pattern::Variable(y)) => x@ == y@,
        (Pattern::Wildcard, Pattern::Wildcard) => true,
        (Pattern::Constructor(x, ps), Pattern::Constructor(y, qs)) => x@ == y@ && pats_eq(ps@, qs@),
        (Pattern::Tuple(ps), Pattern::Tuple(qs)) => pats_eq(ps@, qs@),
        (Pattern::Literal(x), Pattern::Literal(y)) => lit_eq(x, y),
        (Pattern::Or(ps), Pattern::Or(qs)) => pats_eq(ps@, qs@),
        _ => false,
    }
}

/// Element-wise equality of pattern lists.
pub open spec fn pats_eq(xs: Seq<Pattern>, ys: Seq<Pattern>) -> bool
    decreases xs,
{
    if xs.len() != ys.len() {
        false
    } else if xs.len() == 0 {
        true
    } else {
        pat_eq(xs.last(), ys.last()) && pats_eq(xs.drop_last(), ys.drop_last())
    }
}

/// Equality of expressions.
pub open spec fn expr_eq(a: Expression, b: Expression) -> bool
    decreases a,
{
    match (a, b) {
        (Expression::Variable(x), Expression::Variable(y)) => x@ == y@,
        (Expression::Literal(x), Expression::Literal(y)) => lit_eq(x, y),
        (Expression::Constructor(x, es), Expression::Constructor(y, fs)) => x@ == y@ && exprs_eq(es@, fs@),
        (Expression::FieldAccess(e, x), Expression::FieldAccess(f, y)) => x@ == y@ && expr_eq(*e, *f),
        (Expression::Index(e, i), Expression::Index(f, j)) => expr_eq(*e, *f) && expr_eq(*i, *j),
        (Expression::Tuple(es), Expression::Tuple(fs)) => exprs_eq(es@, fs@),
        (Expression::Array(es), Expression::Array(fs)) => exprs_eq(es@, fs@),
        (Expression::Call(x, es), Expression::Call(y, fs)) => x@ == y@ && exprs_eq(es@, fs@),
        (Expression::BinOp(o, l, r), Expression::BinOp(p, m, s)) => o == p && expr_eq(*l, *m) && expr_eq(*r, *s),
        (Expression::UnOp(o, e), Expression::UnOp(p, f)) => o == p && expr_eq(*e, *f),
        (Expression::If(c, t, e), Expression::If(d, u, f)) => expr_eq(*c, *d) && expr_eq(*t, *u) && (match (e, f) {
            (None, None) => true,
            (Some(x), Some(y)) => expr_eq(*x, *y),
            _ => false,
        }),
        (Expression::Match(e, arms), Expression::Match(f, brs)) => expr_eq(*e, *f) && arms_eq(arms@, brs@),
        (Expression::Block(ss, e), Expression::Block(ts, f)) => stmts_eq(ss@, ts@) && (match (e, f) {
            (None, None) => true,
            (Some(x), Some(y)) => expr_eq(*x, *y),
            _ => false,
        }),
        _ => false,
    }
}

/// Element-wise equality of expression lists.
pub open spec fn exprs_eq(xs: Seq<Expression>, ys: Seq<Expression>) -> bool
    decreases xs,
{
    if xs.len() != ys.len() {
        false
    } else if xs.len() == 0 {
        true
    } else {
        expr_eq(xs.last(), ys.last()) && exprs_eq(xs.drop_last(), ys.drop_last())
    }
}

/// Element-wise equality of match-arm lists.
pub open spec fn arms_eq(xs: Seq<MatchArm>, ys: Seq<MatchArm>) -> bool
    decreases xs,
{
    if xs.len() != ys.len() {
        false
    } else if xs.len() == 0 {
        true
    } else {
        pat_eq(xs.last().pattern, ys.last().pattern) && expr_eq(xs.last().body, ys.last().body)
            && arms_eq(xs.drop_last(), ys.drop_last())
    }
}

/// Equality of optional expressions.
pub open spec fn opt_expr_eq(a: Option<Expression>, b: Option<Expression>) -> bool
    decreases a,
{
    match (a, b) {
        (None, None) => true,
        (Some(x), Some(y)) => expr_eq(x, y),
        _ => false,
    }
}

/// Equality of statements.
pub open spec fn stmt_eq(a: Statement, b: Statement) -> bool
    decreases a,
{
    pos_eq(a.position, b.position) && (match (a.kind, b.kind) {
        (StatementKind::Let(p, t, e), StatementKind::Let(q, u, f)) => pat_eq(p, q) && (match (t, u) {
            (None, None) => true,
            (Some(x), Some(y)) => type_eq(x, y),
            _ => false,
        }) && expr_eq(e, f),
        (StatementKind::Expression(e), StatementKind::Expression(f)) => expr_eq(e, f),
        (StatementKind::While(c, e), StatementKind::While(d, f)) => expr_eq(c, d) && expr_eq(e, f),
        (StatementKind::For(i, c, s, e), StatementKind::For(j, d, t, f)) => (match (i, j) {
            (None, None) => true,
            (Some(x), Some(y)) => stmt_eq(*x, *y),
            _ => false,
        }) && opt_expr_eq(c, d) && opt_expr_eq(s, t) && expr_eq(e, f),
        (StatementKind::Break(x), StatementKind::Break(y)) => match (x, y) {
            (None, None) => true,
            (Some(l), Some(m)) => l@ == m@,
            _ => false,
        },
        (StatementKind::Continue(x), StatementKind::Continue(y)) => match (x, y) {
            (None, None) => true,
            (Some(l), Some(m)) => l@ == m@,
            _ => false,
        },
        (StatementKind::Return(e), StatementKind::Return(f)) => opt_expr_eq(e, f),
        _ => false,
    })
}

/// Element-wise equality of statement lists.
pub open spec fn stmts_eq(xs: Seq<Statement>, ys: Seq<Statement>) -> bool
    decreases xs,
{
    if xs.len() != ys.len() {
        false
    } else if xs.len() == 0 {
        true
    } else {
        stmt_eq(xs.last(), ys.last()) && stmts_eq(xs.drop_last(), ys.drop_last())
    }
}

// ---------------------------------------------------------------------------
// Deep copies.
// ---------------------------------------------------------------------------

/// A copy of a literal.
pub fn copy_lit(l: &Literal) -> (r: Literal)
    ensures
        lit_eq(r, *l),
{
    match l {
        Literal::Unit => Literal::Unit,
        Literal::Bool(b) => Literal::Bool(*b),
        Literal::Int(i) => Literal::Int(*i),
        Literal::Float(f) => Literal::Float(*f),
        Literal::Char(c) => Literal::Char(*c),
        Literal::String(s) => Literal::String(s.clone()),
    }
}

/// A copy of a position.
pub fn copy_pos(p: &Position) -> (r: Position)
    ensures
        pos_eq(r, *p),
{
    Position { file: p.file.clone(), line: p.line, column: p.column }
}

/// A deep copy of a type.
pub fn copy_type(t: &Type) -> (r: Type)
    ensures
        type_eq(r, *t),
    decreases t,
{
    Type { kind: copy_kind(&t.kind), size: t.size }
}

/// A deep copy of a type form.
pub fn copy_kind(k: &TypeKind) -> (r: TypeKind)
    ensures
        kind_eq(r, *k),
    decreases k,
{
    match k {
        TypeKind::Unit => TypeKind::Unit,
        TypeKind::Bool => TypeKind::Bool,
        TypeKind::Int(x) => TypeKind::Int(*x),
        TypeKind::Float => TypeKind::Float,
        TypeKind::Char => TypeKind::Char,
        TypeKind::String => TypeKind::String,
        TypeKind::Array(x, n) => TypeKind::Array(Box::new(copy_type(x)), *n),
        TypeKind::Tuple(xs) => TypeKind::Tuple(copy_types(xs)),
        TypeKind::Named(x) => TypeKind::Named(x.clone()),
        TypeKind::Enum(x) => TypeKind::Enum(x.clone()),
        TypeKind::Record(x) => TypeKind::Record(x.clone()),
        TypeKind::Function(p, r) => TypeKind::Function(Box::new(copy_type(p)), Box::new(copy_type(r))),
        TypeKind::Var(x) => TypeKind::Var(x.clone()),
    }
}

/// A deep copy of a list.
pub fn copy_types(xs: &Vec<Type>) -> (r: Vec<Type>)
    ensures
        types_eq(r@, xs@),
    decreases xs@,
{
    let mut r: Vec<Type> = Vec::new();
    let mut i: usize = 0;
    while i < xs.len()
        invariant
            i <= xs@.len(),
            r@.len() == i,
            types_eq(r@, xs@.take(i as int)),
        decreases xs@.len() - i,
    {
        proof {
            assert(decreases_to!(xs@ => xs@[i as int]));
        }
        let c = copy_type(&xs[i]);
        let ghost before = r@;
        r.push(c);
        proof {
            assert(r@.drop_last() =~= before);
            assert(xs@.take(i + 1).drop_last() =~= xs@.take(i as int));
        }
        i = i + 1;
    }
    assert(xs@.take(xs@.len() as int) =~= xs@);
    r
}

/// A deep copy of a pattern.
pub fn copy_pat(p: &Pattern) -> (r: Pattern)
    ensures
        pat_eq(r, *p),
    decreases p,
{
    match p {
        Pattern::Variable(x) => Pattern::Variable(x.clone()),
        Pattern::Wildcard => Pattern::Wildcard,
        Pattern::Constructor(x, ps) => Pattern::Constructor(x.clone(), copy_pats(ps)),
        Pattern::Tuple(ps) => Pattern::Tuple(copy_pats(ps)),
        Pattern::Literal(l) => Pattern::Literal(copy_lit(l)),
        Pattern::Or(ps) => Pattern::Or(copy_pats(ps)),
    }
}

/// A deep copy of a list.
pub fn copy_pats(xs: &Vec<Pattern>) -> (r: Vec<Pattern>)
    ensures
        pats_eq(r@, xs@),
    decreases xs@,
{
    let mut r: Vec<Pattern> = Vec::new();
    let mut i: usize = 0;
    while i < xs.len()
        invariant
            i <= xs@.len(),
            r@.len() == i,
            pats_eq(r@, xs@.take(i as int)),
        decreases xs@.len() - i,
    {
        proof {
            assert(decreases_to!(xs@ => xs@[i as int]));
        }
        let c = copy_pat(&xs[i]);
        let ghost before = r@;
        r.push(c);
        proof {
            assert(r@.drop_last() =~= before);
            assert(xs@.take(i + 1).drop_last() =~= xs@.take(i as int));
        }
        i = i + 1;
    }
    assert(xs@.take(xs@.len() as int) =~= xs@);
    r
}

/// A deep copy of an expression.
pub fn copy_expr(e: &Expression) -> (r: Expression)
    ensures
        expr_eq(r, *e),
    decreases e,
{
    match e {
        Expression::Variable(x) => Expression::Variable(x.clone()),
        Expression::Literal(l) => Expression::Literal(copy_lit(l)),
        Expression::Constructor(x, es) => Expression::Constructor(x.clone(), copy_exprs(es)),
        Expression::FieldAccess(b, x) => Expression::FieldAccess(Box::new(copy_expr(b)), x.clone()),
        Expression::Index(b, i) => Expression::Index(Box::new(copy_expr(b)), Box::new(copy_expr(i))),
        Expression::Tuple(es) => Expression::Tuple(copy_exprs(es)),
        Expression::Array(es) => Expression::Array(copy_exprs(es)),
        Expression::Call(x, es) => Expression::Call(x.clone(), copy_exprs(es)),
        Expression::BinOp(o, l, r) => Expression::BinOp(*o, Box::new(copy_expr(l)), Box::new(copy_expr(r))),
        Expression::UnOp(o, b) => Expression::UnOp(*o, Box::new(copy_expr(b))),
        Expression::If(c, t, f) => {
            let f2 = match f {
                None => None,
                Some(x) => Some(Box::new(copy_expr(x))),
            };
            Expression::If(Box::new(copy_expr(c)), Box::new(copy_expr(t)), f2)
        },
        Expression::Match(b, arms) => Expression::Match(Box::new(copy_expr(b)), copy_arms(arms)),
        Expression::Block(ss, f) => {
            let f2 = match f {
                None => None,
                Some(x) => Some(Box::new(copy_expr(x))),
            };
            Expression::Block(copy_stmts(ss), f2)
        },
    }
}

/// A deep copy of a list.
pub fn copy_exprs(xs: &Vec<Expression>) -> (r: Vec<Expression>)
    ensures
        exprs_eq(r@, xs@),
    decreases xs@,
{
    let mut r: Vec<Expression> = Vec::new();
    let mut i: usize = 0;
    while i < xs.len()
        invariant
            i <= xs@.len(),
            r@.len() == i,
            exprs_eq(r@, xs@.take(i as int)),
        decreases xs@.len() - i,
    {
        proof {
            assert(decreases_to!(xs@ => xs@[i as int]));
        }
        let c = copy_expr(&xs[i]);
        let ghost before = r@;
        r.push(c);
        proof {
            assert(r@.drop_last() =~= before);
            assert(xs@.take(i + 1).drop_last() =~= xs@.take(i as int));
        }
        i = i + 1;
    }
    assert(xs@.take(xs@.len() as int) =~= xs@);
    r
}

/// A deep copy of a match arm.
pub fn copy_arm(a: &MatchArm) -> (r: MatchArm)
    ensures
        pat_eq(r.pattern, a.pattern),
        expr_eq(r.body, a.body),
    decreases a,
{
    MatchArm { pattern: copy_pat(&a.pattern), body: copy_expr(&a.body) }
}

/// A deep copy of a list.
pub fn copy_arms(xs: &Vec<MatchArm>) -> (r: Vec<MatchArm>)
    ensures
        arms_eq(r@, xs@),
    decreases xs@,
{
    let mut r: Vec<MatchArm> = Vec::new();
    let mut i: usize = 0;
    while i < xs.len()
        invariant
            i <= xs@.len(),
            r@.len() == i,
            arms_eq(r@, xs@.take(i as int)),
        decreases xs@.len() - i,
    {
        proof {
            assert(decreases_to!(xs@ => xs@[i as int]));
        }
        let c = copy_arm(&xs[i]);
        let ghost before = r@;
        r.push(c);
        proof {
            assert(r@.drop_last() =~= before);
            assert(xs@.take(i + 1).drop_last() =~= xs@.take(i as int));
        }
        i = i + 1;
    }
    assert(xs@.take(xs@.len() as int) =~= xs@);
    r
}

/// A deep copy of an optional expression.
pub fn copy_opt_expr(e: &Option<Expression>) -> (r: Option<Expression>)
    ensures
        opt_expr_eq(r, *e),
    decreases e,
{
    match e {
        None => None,
        Some(x) => Some(copy_expr(x)),
    }
}

/// A deep copy of a statement.
pub fn copy_stmt(st: &Statement) -> (r: Statement)
    ensures
        stmt_eq(r, *st),
    decreases st,
{
    let kind = match &st.kind {
        StatementKind::Let(p, t, e) => {
            let t2 = match t {
                None => None,
                Some(x) => Some(copy_type(x)),
            };
            StatementKind::Let(copy_pat(p), t2, copy_expr(e))
        },
        StatementKind::Expression(e) => StatementKind::Expression(copy_expr(e)),
        StatementKind::While(c, e) => StatementKind::While(copy_expr(c), copy_expr(e)),
        StatementKind::For(i, c, s, e) => {
            let i2 = match i {
                None => None,
                Some(x) => Some(Box::new(copy_stmt(x))),
            };
            StatementKind::For(i2, copy_opt_expr(c), copy_opt_expr(s), copy_expr(e))
        },
        StatementKind::Break(l) => StatementKind::Break(l.clone()),
        StatementKind::Continue(l) => StatementKind::Continue(l.clone()),
        StatementKind::Return(e) => StatementKind::Return(copy_opt_expr(e)),
    };
    Statement { kind, position: copy_pos(&st.position) }
}

/// A deep copy of a list.
pub fn copy_stmts(xs: &Vec<Statement>) -> (r: Vec<Statement>)
    ensures
        stmts_eq(r@, xs@),
    decreases xs@,
{
    let mut r: Vec<Statement> = Vec::new();
    let mut i: usize = 0;
    while i < xs.len()
        invariant
            i <= xs@.len(),
            r@.len() == i,
            stmts_eq(r@, xs@.take(i as int)),
        decreases xs@.len() - i,
    {
        proof {
            assert(decreases_to!(xs@ => xs@[i as int]));
        }
        let c = copy_stmt(&xs[i]);
        let ghost before = r@;
        r.push(c);
        proof {
            assert(r@.drop_last() =~= before);
            assert(xs@.take(i + 1).drop_last() =~= xs@.take(i as int));
        }
        i = i + 1;
    }
    assert(xs@.take(xs@.len() as int) =~= xs@);
    r
}

impl Clone for Type {
    fn clone(&self) -> (r: Type)
        ensures
            type_eq(r, *self),
    {
        copy_type(self)
    }
}

impl Clone for TypeKind {
    fn clone(&self) -> (r: TypeKind)
        ensures
            kind_eq(r, *self),
    {
        copy_kind(self)
    }
}

impl Clone for Expression {
    fn clone(&self) -> (r: Expression)
        ensures
            expr_eq(r, *self),
    {
        copy_expr(self)
    }
}

impl Clone for Pattern {
    fn clone(&self) -> (r: Pattern)
        ensures
            pat_eq(r, *self),
    {
        copy_pat(self)
    }
}

impl Clone for Literal {
    fn clone(&self) -> (r: Literal)
        ensures
            lit_eq(r, *self),
    {
        copy_lit(self)
    }
}

impl Clone for MatchArm {
    fn clone(&self) -> (r: MatchArm)
        ensures
            pat_eq(r.pattern, self.pattern),
            expr_eq(r.body, self.body),
    {
        copy_arm(self)
    }
}

impl Clone for Statement {
    fn clone(&self) -> (r: Statement)
        ensures
            stmt_eq(r, *self),
    {
        copy_stmt(self)
    }
}

} // verus!
