//! The syntax tree of a program.
use vstd::prelude::*;

verus! {

/// One field of a struct declaration: its name and the name of its type.
#[derive(Debug, Clone)]
pub struct StructField {
    pub name: String,
    pub ty: String,
}

/// A function parameter: its name and, if written, its type and default
/// value.
#[derive(Debug)]
pub struct Parameter {
    pub name: String,
    pub ty: Option<String>,
    pub default: Option<Expression>,
}

/// Binary operators.
#[derive(Debug, Clone, Copy, PartialEq, Eq, Structural)]
pub enum BinaryOperator {
    Add,
    Sub,
    Mul,
    Div,
    Mod,
    Eq,
    Ne,
    Lt,
    Le,
    Gt,
    Ge,
    And,
    Or,
    Range,
    RangeInclusive,
    Assign,
    AddAssign,
    SubAssign,
    MulAssign,
    DivAssign,
    ModAssign,
}

/// Unary operators.
#[derive(Debug, Clone, Copy, PartialEq, Eq, Structural)]
pub enum UnaryOperator {
    Not,
    Neg,
    Ref,
    Deref,
}

/// Literal values. A floating-point value is held as the bits of its
/// IEEE 754 double; a unit literal as the text of its value and its unit.
#[derive(Debug, Clone)]
pub enum Literal {
    Integer(i64),
    Float(u64),
    String(String),
    Boolean(bool),
    Null,
    UnitLiteral(String, String),
}

/// Expressions.
#[derive(Debug)]
pub enum Expression {
    Literal(Literal),
    Identifier(String),
    BinaryOp { left: Box<Expression>, op: BinaryOperator, right: Box<Expression> },
    UnaryOp { op: UnaryOperator, expr: Box<Expression> },
    Assign { left: Box<Expression>, right: Box<Expression> },
    Range { start: Box<Expression>, end: Box<Expression>, inclusive: bool },
    Call { callee: Box<Expression>, args: Vec<Expression> },
    Index { array: Box<Expression>, index: Box<Expression> },
    FieldAccess { expr: Box<Expression>, field: String },
    Struct { name: String, fields: Vec<(String, Expression)> },
    Array(Vec<Expression>),
    Block(Vec<Statement>),
    Lambda { params: Vec<Parameter>, body: Box<Expression> },
    If { condition: Box<Expression>, then_branch: Box<Expression>, else_branch: Option<Box<Expression>> },
    Match { expr: Box<Expression>, cases: Vec<MatchCase> },
    Group { name: String, members: Vec<Statement> },
}

/// An arm of a `match`: pattern, optional guard, body.
#[derive(Debug)]
pub struct MatchCase {
    pub pattern: Expression,
    pub guard: Option<Expression>,
    pub body: Expression,
}

/// Statements.
#[derive(Debug)]
pub enum Statement {
    Expression(Expression),
    Let { mutable: bool, name: String, ty: Option<String>, value: Expression },
    Function { name: String, params: Vec<Parameter>, return_type: Option<String>, body: Expression, kernel: bool },
    Struct { name: String, fields: Vec<StructField> },
    Enum { name: String, variants: Vec<(String, Option<Vec<StructField>>)> },
    Group { name: String, members: Vec<Statement> },
    Return(Option<Expression>),
    While { condition: Expression, body: Expression },
    For { pattern: String, in_expr: Expression, body: Expression },
    Import(String),
    ImportAs(String, String),
}

/// A whole program.
#[derive(Debug)]
pub struct Program {
    pub statements: Vec<Statement>,
}


// ---------------------------------------------------------------------------
// The tree by its texts.
// ---------------------------------------------------------------------------

/// A literal by its texts.
pub enum LitV {
    Integer(i64),
    Float(u64),
    Str(Seq<char>),
    Boolean(bool),
    Null,
    Unit(Seq<char>, Seq<char>),
}

/// An expression by its texts.
pub enum ExprV {
    Literal(LitV),
    Identifier(Seq<char>),
    BinaryOp(Box<ExprV>, BinaryOperator, Box<ExprV>),
    UnaryOp(UnaryOperator, Box<ExprV>),
    Assign(Box<ExprV>, Box<ExprV>),
    Range(Box<ExprV>, Box<ExprV>, bool),
    Call(Box<ExprV>, Seq<ExprV>),
    Index(Box<ExprV>, Box<ExprV>),
    FieldAccess(Box<ExprV>, Seq<char>),
    Struct(Seq<char>, Seq<(Seq<char>, ExprV)>),
    Array(Seq<ExprV>),
    Block(Seq<StmtV>),
    Lambda(Seq<(Seq<char>, Option<Seq<char>>, Option<ExprV>)>, Box<ExprV>),
    If(Box<ExprV>, Box<ExprV>, Option<Box<ExprV>>),
    Match(Box<ExprV>, Seq<(ExprV, Option<ExprV>, ExprV)>),
    Group(Seq<char>, Seq<StmtV>),
}

/// A statement by its texts.
pub enum StmtV {
    Expression(ExprV),
    Let(bool, Seq<char>, Option<Seq<char>>, ExprV),
    Function(Seq<char>, Seq<(Seq<char>, Option<Seq<char>>, Option<ExprV>)>, Option<Seq<char>>, ExprV, bool),
    Struct(Seq<char>, Seq<(Seq<char>, Seq<char>)>),
    Enum(Seq<char>, Seq<(Seq<char>, Option<Seq<(Seq<char>, Seq<char>)>>)>),
    Group(Seq<char>, Seq<StmtV>),
    Return(Option<ExprV>),
    While(ExprV, ExprV),
    For(Seq<char>, ExprV, ExprV),
    Import(Seq<char>),
    ImportAs(Seq<char>, Seq<char>),
}

/// A literal by its texts.
pub open spec fn lv(l: Literal) -> LitV {
    match l {
        Literal::Integer(n) => LitV::Integer(n),
        Literal::Float(b) => LitV::Float(b),
        Literal::String(s) => LitV::Str(s@),
        Literal::Boolean(b) => LitV::Boolean(b),
        Literal::Null => LitV::Null,
        Literal::UnitLiteral(v, u) => LitV::Unit(v@, u@),
    }
}

/// A field by its name and type.
pub open spec fn field_view(f: StructField) -> (Seq<char>, Seq<char>) {
    (f.name@, f.ty@)
}

/// Fields by their names and types.
pub open spec fn fields_view(fs: Seq<StructField>) -> Seq<(Seq<char>, Seq<char>)> {
    fs.map_values(|f: StructField| field_view(f))
}

/// Enum variants by their names and field lists.
pub open spec fn variants_view(vs: Seq<(String, Option<Vec<StructField>>)>) -> Seq<(Seq<char>, Option<Seq<(Seq<char>, Seq<char>)>>)> {
    vs.map_values(|v: (String, Option<Vec<StructField>>)| (v.0@, match v.1 { Some(f) => Some(fields_view(f@)), None => None }))
}

/// An expression by its texts.
pub open spec fn ev(e: Expression) -> ExprV
    decreases e,
{
    match e {
        Expression::Literal(l) => ExprV::Literal(lv(l)),
        Expression::Identifier(s) => ExprV::Identifier(s@),
        Expression::BinaryOp { left, op, right } => ExprV::BinaryOp(Box::new(ev(*left)), op, Box::new(ev(*right))),
        Expression::UnaryOp { op, expr } => ExprV::UnaryOp(op, Box::new(ev(*expr))),
        Expression::Assign { left, right } => ExprV::Assign(Box::new(ev(*left)), Box::new(ev(*right))),
        Expression::Range { start, end, inclusive } => ExprV::Range(Box::new(ev(*start)), Box::new(ev(*end)), inclusive),
        Expression::Call { callee, args } => ExprV::Call(Box::new(ev(*callee)), evs(args@)),
        Expression::Index { array, index } => ExprV::Index(Box::new(ev(*array)), Box::new(ev(*index))),
        Expression::FieldAccess { expr, field } => ExprV::FieldAccess(Box::new(ev(*expr)), field@),
        Expression::Struct { name, fields } => ExprV::Struct(name@, fevs(fields@)),
        Expression::Array(items) => ExprV::Array(evs(items@)),
        Expression::Block(stmts) => ExprV::Block(svs(stmts@)),
        Expression::Lambda { params, body } => ExprV::Lambda(pvs(params@), Box::new(ev(*body))),
        Expression::If { condition, then_branch, else_branch } => ExprV::If(
            Box::new(ev(*condition)),
            Box::new(ev(*then_branch)),
            match else_branch { Some(b) => Some(Box::new(ev(*b))), None => None },
        ),
        Expression::Match { expr, cases } => ExprV::Match(Box::new(ev(*expr)), cvs(cases@)),
        Expression::Group { name, members } => ExprV::Group(name@, svs(members@)),
    }
}

/// Expressions by their texts.
pub open spec fn evs(es: Seq<Expression>) -> Seq<ExprV>
    decreases es,
{
    if es.len() == 0 {
        Seq::empty()
    } else {
        evs(es.drop_last()).push(ev(es.last()))
    }
}

/// Named field values by their texts.
pub open spec fn fevs(fs: Seq<(String, Expression)>) -> Seq<(Seq<char>, ExprV)>
    decreases fs,
{
    if fs.len() == 0 {
        Seq::empty()
    } else {
        fevs(fs.drop_last()).push((fs.last().0@, ev(fs.last().1)))
    }
}

/// A parameter by its texts.
pub open spec fn pv(p: Parameter) -> (Seq<char>, Option<Seq<char>>, Option<ExprV>)
    decreases p,
{
    (p.name@, match p.ty { Some(t) => Some(t@), None => None }, match p.default { Some(d) => Some(ev(d)), None => None })
}

/// Parameters by their texts.
pub open spec fn pvs(ps: Seq<Parameter>) -> Seq<(Seq<char>, Option<Seq<char>>, Option<ExprV>)>
    decreases ps,
{
    if ps.len() == 0 {
        Seq::empty()
    } else {
        pvs(ps.drop_last()).push(pv(ps.last()))
    }
}

/// A match arm by its texts.
pub open spec fn cv(c: MatchCase) -> (ExprV, Option<ExprV>, ExprV)
    decreases c,
{
    (ev(c.pattern), match c.guard { Some(g) => Some(ev(g)), None => None }, ev(c.body))
}

/// Match arms by their texts.
pub open spec fn cvs(cs: Seq<MatchCase>) -> Seq<(ExprV, Option<ExprV>, ExprV)>
    decreases cs,
{
    if cs.len() == 0 {
        Seq::empty()
    } else {
        cvs(cs.drop_last()).push(cv(cs.last()))
    }
}

/// A statement by its texts.
pub open spec fn sv(s: Statement) -> StmtV
    decreases s,
{
    match s {
        Statement::Expression(e) => StmtV::Expression(ev(e)),
        Statement::Let { mutable, name, ty, value } => StmtV::Let(mutable, name@, match ty { Some(t) => Some(t@), None => None }, ev(value)),
        Statement::Function { name, params, return_type, body, kernel } => StmtV::Function(
            name@,
            pvs(params@),
            match return_type { Some(t) => Some(t@), None => None },
            ev(body),
            kernel,
        ),
        Statement::Struct { name, fields } => StmtV::Struct(name@, fields_view(fields@)),
        Statement::Enum { name, variants } => StmtV::Enum(name@, variants_view(variants@)),
        Statement::Group { name, members } => StmtV::Group(name@, svs(members@)),
        Statement::Return(v) => StmtV::Return(match v { Some(e) => Some(ev(e)), None => None }),
        Statement::While { condition, body } => StmtV::While(ev(condition), ev(body)),
        Statement::For { pattern, in_expr, body } => StmtV::For(pattern@, ev(in_expr), ev(body)),
        Statement::Import(p) => StmtV::Import(p@),
        Statement::ImportAs(p, a) => StmtV::ImportAs(p@, a@),
    }
}

/// Statements by their texts.
pub open spec fn svs(ss: Seq<Statement>) -> Seq<StmtV>
    decreases ss,
{
    if ss.len() == 0 {
        Seq::empty()
    } else {
        svs(ss.drop_last()).push(sv(ss.last()))
    }
}


// ---------------------------------------------------------------------------
// Deep copies.
// ---------------------------------------------------------------------------

/// A copy of a literal.
pub fn copy_lit(l: &Literal) -> (r: Literal)
    ensures
        lv(r) == lv(*l),
{
    match l {
        Literal::Integer(n) => Literal::Integer(*n),
        Literal::Float(b) => Literal::Float(*b),
        Literal::String(x) => Literal::String(x.clone()),
        Literal::Boolean(b) => Literal::Boolean(*b),
        Literal::Null => Literal::Null,
        Literal::UnitLiteral(v, u) => Literal::UnitLiteral(v.clone(), u.clone()),
    }
}

/// A copy of a list of fields.
pub fn copy_field_list(fields: &Vec<StructField>) -> (r: Vec<StructField>)
    ensures
        fields_view(r@) == fields_view(fields@),
{
    let mut copied: Vec<StructField> = Vec::new();
    let mut k: usize = 0;
    while k < fields.len()
        invariant
            k <= fields@.len(),
            copied@.len() == k,
            forall|j: int| 0 <= j < k ==> field_view(#[trigger] copied@[j]) == field_view(fields@[j]),
        decreases fields@.len() - k,
    {
        copied.push(StructField { name: fields[k].name.clone(), ty: fields[k].ty.clone() });
        k = k + 1;
    }
    assert(fields_view(copied@) =~= fields_view(fields@));
    copied
}

/// A copy of a list of enum variants.
pub fn copy_variants(vs: &Vec<(String, Option<Vec<StructField>>)>) -> (r: Vec<(String, Option<Vec<StructField>>)>)
    ensures
        variants_view(r@) == variants_view(vs@),
{
    let mut copied: Vec<(String, Option<Vec<StructField>>)> = Vec::new();
    let mut k: usize = 0;
    while k < vs.len()
        invariant
            k <= vs@.len(),
            copied@.len() == k,
            forall|j: int| 0 <= j < k ==> variants_view(copied@)[j] == #[trigger] variants_view(vs@)[j],
        decreases vs@.len() - k,
    {
        let ghost before = copied@;
        let f = match &vs[k].1 {
            Some(fs) => Some(copy_field_list(fs)),
            None => None,
        };
        copied.push((vs[k].0.clone(), f));
        proof {
            assert forall|j: int| 0 <= j < k + 1 implies variants_view(copied@)[j] == #[trigger] variants_view(vs@)[j] by {
                if j < k {
                    assert(copied@[j] == before[j]);
                    assert(variants_view(before)[j] == variants_view(vs@)[j]);
                }
            }
        }
        k = k + 1;
    }
    assert(variants_view(copied@) =~= variants_view(vs@));
    copied
}

/// A copy of an optional text.
pub fn copy_opt_text(t: &Option<String>) -> (r: Option<String>)
    ensures
        r == *t,
{
    match t {
        Some(x) => Some(x.clone()),
        None => None,
    }
}

/// A deep copy of an expression.
pub fn copy_expr(e: &Expression) -> (r: Expression)
    ensures
        ev(r) == ev(*e),
    decreases e,
{
    match e {
        Expression::Literal(l) => Expression::Literal(copy_lit(l)),
        Expression::Identifier(x) => Expression::Identifier(x.clone()),
        Expression::BinaryOp { left, op, right } => Expression::BinaryOp {
            left: Box::new(copy_expr(left)),
            op: *op,
            right: Box::new(copy_expr(right)),
        },
        Expression::UnaryOp { op, expr } => Expression::UnaryOp { op: *op, expr: Box::new(copy_expr(expr)) },
        Expression::Assign { left, right } => Expression::Assign { left: Box::new(copy_expr(left)), right: Box::new(copy_expr(right)) },
        Expression::Range { start, end, inclusive } => Expression::Range {
            start: Box::new(copy_expr(start)),
            end: Box::new(copy_expr(end)),
            inclusive: *inclusive,
        },
        Expression::Call { callee, args } => Expression::Call { callee: Box::new(copy_expr(callee)), args: copy_exprs(args) },
        Expression::Index { array, index } => Expression::Index { array: Box::new(copy_expr(array)), index: Box::new(copy_expr(index)) },
        Expression::FieldAccess { expr, field } => Expression::FieldAccess { expr: Box::new(copy_expr(expr)), field: field.clone() },
        Expression::Struct { name, fields } => Expression::Struct { name: name.clone(), fields: copy_fexprs(fields) },
        Expression::Array(items) => Expression::Array(copy_exprs(items)),
        Expression::Block(stmts) => Expression::Block(copy_stmts(stmts)),
        Expression::Lambda { params, body } => Expression::Lambda { params: copy_params(params), body: Box::new(copy_expr(body)) },
        Expression::If { condition, then_branch, else_branch } => {
            let e2 = match else_branch {
                Some(b) => Some(Box::new(copy_expr(b))),
                None => None,
            };
            Expression::If { condition: Box::new(copy_expr(condition)), then_branch: Box::new(copy_expr(then_branch)), else_branch: e2 }
        },
        Expression::Match { expr, cases } => Expression::Match { expr: Box::new(copy_expr(expr)), cases: copy_cases(cases) },
        Expression::Group { name, members } => Expression::Group { name: name.clone(), members: copy_stmts(members) },
    }
}

/// A deep copy of an optional expression.
pub fn copy_opt_expr(e: &Option<Expression>) -> (r: Option<Expression>)
    ensures
        match (r, *e) {
            (Some(a), Some(b)) => ev(a) == ev(b),
            (None, None) => true,
            _ => false,
        },
    decreases e,
{
    match e {
        Some(x) => Some(copy_expr(x)),
        None => None,
    }
}

/// A deep copy of a field value.
pub fn copy_fexpr(f: &(String, Expression)) -> (r: (String, Expression))
    ensures
        r.0@ == f.0@,
        ev(r.1) == ev(f.1),
    decreases f,
{
    (f.0.clone(), copy_expr(&f.1))
}

/// A deep copy of a parameter.
pub fn copy_param(p: &Parameter) -> (r: Parameter)
    ensures
        pv(r) == pv(*p),
    decreases p,
{
    Parameter { name: p.name.clone(), ty: copy_opt_text(&p.ty), default: copy_opt_expr(&p.default) }
}

/// A deep copy of a match arm.
pub fn copy_case(c: &MatchCase) -> (r: MatchCase)
    ensures
        cv(r) == cv(*c),
    decreases c,
{
    MatchCase { pattern: copy_expr(&c.pattern), guard: copy_opt_expr(&c.guard), body: copy_expr(&c.body) }
}

/// A deep copy of a statement.
pub fn copy_stmt(s: &Statement) -> (r: Statement)
    ensures
        sv(r) == sv(*s),
    decreases s,
{
    match s {
        Statement::Expression(e) => Statement::Expression(copy_expr(e)),
        Statement::Let { mutable, name, ty, value } => Statement::Let {
            mutable: *mutable,
            name: name.clone(),
            ty: copy_opt_text(ty),
            value: copy_expr(value),
        },
        Statement::Function { name, params, return_type, body, kernel } => Statement::Function {
            name: name.clone(),
            params: copy_params(params),
            return_type: copy_opt_text(return_type),
            body: copy_expr(body),
            kernel: *kernel,
        },
        Statement::Struct { name, fields } => Statement::Struct { name: name.clone(), fields: copy_field_list(fields) },
        Statement::Enum { name, variants } => Statement::Enum { name: name.clone(), variants: copy_variants(variants) },
        Statement::Group { name, members } => Statement::Group { name: name.clone(), members: copy_stmts(members) },
        Statement::Return(v) => Statement::Return(copy_opt_expr(v)),
        Statement::While { condition, body } => Statement::While { condition: copy_expr(condition), body: copy_expr(body) },
        Statement::For { pattern, in_expr, body } => Statement::For { pattern: pattern.clone(), in_expr: copy_expr(in_expr), body: copy_expr(body) },
        Statement::Import(p) => Statement::Import(p.clone()),
        Statement::ImportAs(p, a) => Statement::ImportAs(p.clone(), a.clone()),
    }
}

/// A deep copy of a list of expressions.
pub fn copy_exprs(xs: &Vec<Expression>) -> (r: Vec<Expression>)
    ensures
        evs(r@) == evs(xs@),
    decreases xs@,
{
    let mut r: Vec<Expression> = Vec::new();
    let mut i: usize = 0;
    while i < xs.len()
        invariant
            i <= xs@.len(),
            evs(r@) == evs(xs@.take(i as int)),
        decreases xs@.len() - i,
    {
        proof {
            assert(decreases_to!(xs@ => xs@[i as int]));
        }
        let c = copy_expr(&xs[i]);
        let ghost before = r@;
        r.push(c);
        proof {
            assert(r@.drop_last() =~= before);
            assert(xs@.take(i + 1).drop_last() =~= xs@.take(i as int));
        }
        i = i + 1;
    }
    assert(xs@.take(xs@.len() as int) =~= xs@);
    r
}

/// A deep copy of a list of field values.
pub fn copy_fexprs(xs: &Vec<(String, Expression)>) -> (r: Vec<(String, Expression)>)
    ensures
        fevs(r@) == fevs(xs@),
    decreases xs@,
{
    let mut r: Vec<(String, Expression)> = Vec::new();
    let mut i: usize = 0;
    while i < xs.len()
        invariant
            i <= xs@.len(),
            fevs(r@) == fevs(xs@.take(i as int)),
        decreases xs@.len() - i,
    {
        proof {
            assert(decreases_to!(xs@ => xs@[i as int]));
        }
        let c = copy_fexpr(&xs[i]);
        let ghost before = r@;
        r.push(c);
        proof {
            assert(r@.drop_last() =~= before);
            assert(xs@.take(i + 1).drop_last() =~= xs@.take(i as int));
        }
        i = i + 1;
    }
    assert(xs@.take(xs@.len() as int) =~= xs@);
    r
}

/// A deep copy of a list of parameters.
pub fn copy_params(xs: &Vec<Parameter>) -> (r: Vec<Parameter>)
    ensures
        pvs(r@) == pvs(xs@),
    decreases xs@,
{
    let mut r: Vec<Parameter> = Vec::new();
    let mut i: usize = 0;
    while i < xs.len()
        invariant
            i <= xs@.len(),
            pvs(r@) == pvs(xs@.take(i as int)),
        decreases xs@.len() - i,
    {
        proof {
            assert(decreases_to!(xs@ => xs@[i as int]));
        }
        let c = copy_param(&xs[i]);
        let ghost before = r@;
        r.push(c);
        proof {
            assert(r@.drop_last() =~= before);
            assert(xs@.take(i + 1).drop_last() =~= xs@.take(i as int));
        }
        i = i + 1;
    }
    assert(xs@.take(xs@.len() as int) =~= xs@);
    r
}

/// A deep copy of a list of match arms.
pub fn copy_cases(xs: &Vec<MatchCase>) -> (r: Vec<MatchCase>)
    ensures
        cvs(r@) == cvs(xs@),
    decreases xs@,
{
    let mut r: Vec<MatchCase> = Vec::new();
    let mut i: usize = 0;
    while i < xs.len()
        invariant
            i <= xs@.len(),
            cvs(r@) == cvs(xs@.take(i as int)),
        decreases xs@.len() - i,
    {
        proof {
            assert(decreases_to!(xs@ => xs@[i as int]));
        }
        let c = copy_case(&xs[i]);
        let ghost before = r@;
        r.push(c);
        proof {
            assert(r@.drop_last() =~= before);
            assert(xs@.take(i + 1).drop_last() =~= xs@.take(i as int));
        }
        i = i + 1;
    }
    assert(xs@.take(xs@.len() as int) =~= xs@);
    r
}

/// A deep copy of a list of statements.
pub fn copy_stmts(xs: &Vec<Statement>) -> (r: Vec<Statement>)
    ensures
        svs(r@) == svs(xs@),
    decreases xs@,
{
    let mut r: Vec<Statement> = Vec::new();
    let mut i: usize = 0;
    while i < xs.len()
        invariant
            i <= xs@.len(),
            svs(r@) == svs(xs@.take(i as int)),
        decreases xs@.len() - i,
    {
        proof {
            assert(decreases_to!(xs@ => xs@[i as int]));
        }
        let c = copy_stmt(&xs[i]);
        let ghost before = r@;
        r.push(c);
        proof {
            assert(r@.drop_last() =~= before);
            assert(xs@.take(i + 1).drop_last() =~= xs@.take(i as int));
        }
        i = i + 1;
    }
    assert(xs@.take(xs@.len() as int) =~= xs@);
    r
}

} // verus!
