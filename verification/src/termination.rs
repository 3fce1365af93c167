//! Results of termination checking and their text report.
use vstd::prelude::*;
use crate::text::{owned, string_push_str, push_signed_decimal, signed_decimal};
use crate::stdlib::path::join_spec;

pub mod syntax;
pub mod checker;

pub use self::syntax::{Expression, Literal, MatchArm, Pattern, Statement, StatementKind};
pub use self::checker::{CallArg, CallGraph, FunctionDef, RecursiveCall, TerminationChecker, TerminationError};

verus! {

/// How the size of an argument changes in a recursive call.
#[derive(Debug, Clone, Copy, PartialEq, Eq, Hash, Structural)]
pub enum SizeChange {
    Decreased,
    Increased,
    Unchanged,
    Unknown,
}

/// A source position.
#[derive(Debug, Clone, PartialEq, Eq, Hash)]
pub struct Position {
    pub file: String,
    pub line: i64,
    pub column: i64,
}

/// Binary operators.
#[derive(Debug, Clone, Copy, PartialEq, Eq, Hash, Structural)]
pub enum BinOp {
    Add,
    Sub,
    Mul,
    Div,
    Mod,
    Eq,
    Ne,
    Lt,
    Le,
    Gt,
    Ge,
    And,
    Or,
    BitAnd,
    BitOr,
    BitXor,
    Shl,
    Shr,
}

/// Unary operators.
#[derive(Debug, Clone, Copy, PartialEq, Eq, Hash, Structural)]
pub enum UnOp {
    Neg,
    Not,
    BitNot,
}

/// A type with an optional size used by size analysis.
#[derive(Debug, PartialEq, Eq, Hash)]
pub struct Type {
    pub kind: TypeKind,
    pub size: Option<i64>,
}

/// The forms of type.
#[derive(Debug, PartialEq, Eq, Hash)]
pub enum TypeKind {
    Unit,
    Bool,
    Int(Option<usize>),
    Float,
    Char,
    String,
    Array(Box<Type>, Option<i64>),
    Tuple(Vec<Type>),
    Named(String),
    Enum(String),
    Record(String),
    Function(Box<Type>, Box<Type>),
    Var(String),
}

/// The outcome of checking one function.
#[derive(Debug, Clone, PartialEq)]
pub enum TerminationStatus {
    Proving,
    Proved,
    NonTerminating,
    Unknown,
    StructuralRecursion,
    SizeChange(Vec<SizeChange>),
}

impl Default for TerminationStatus {
    fn default() -> (r: TerminationStatus)
        ensures
            r is Unknown,
    {
        TerminationStatus::Unknown
    }
}

/// Debug text of a size change.
pub open spec fn size_change_text(c: SizeChange) -> Seq<char> {
    match c {
        SizeChange::Decreased => "Decreased"@,
        SizeChange::Increased => "Increased"@,
        SizeChange::Unchanged => "Unchanged"@,
        SizeChange::Unknown => "Unknown"@,
    }
}

/// Debug text of a list of size changes: `[A, B]`.
pub open spec fn size_changes_text(cs: Seq<SizeChange>) -> Seq<char> {
    "["@ + join_spec(cs.map_values(|c: SizeChange| size_change_text(c)), ", "@) + "]"@
}

fn push_size_changes(s: &mut String, cs: &Vec<SizeChange>)
    ensures
        final(s)@ == old(s)@ + size_changes_text(cs@),
{
    string_push_str(s, "[");
    let ghost base = s@;
    let ghost views = cs@.map_values(|c: SizeChange| size_change_text(c));
    let mut i: usize = 0;
    while i < cs.len()
        invariant
            i <= cs@.len(),
            views == cs@.map_values(|c: SizeChange| size_change_text(c)),
            s@ == base + join_spec(views.take(i as int), ", "@),
        decreases cs@.len() - i,
    {
        proof {
            assert(views.take(i + 1).drop_last() =~= views.take(i as int));
            if i == 0 {
                assert(views.take(1) =~= seq![views[0]]);
                assert(join_spec(views.take(0), ", "@) =~= Seq::<char>::empty());
            }
        }
        let ghost before = s@;
        if i > 0 {
            string_push_str(s, ", ");
        }
        let name = match cs[i] {
            SizeChange::Decreased => "Decreased",
            SizeChange::Increased => "Increased",
            SizeChange::Unchanged => "Unchanged",
            SizeChange::Unknown => "Unknown",
        };
        string_push_str(s, name);
        proof {
            assert(views[i as int] == size_change_text(cs@[i as int]));
            if i == 0 {
                assert(s@ =~= base + join_spec(views.take(1), ", "@));
            } else {
                assert(s@ =~= base + join_spec(views.take(i + 1), ", "@));
            }
        }
        i = i + 1;
    }
    assert(views.take(cs@.len() as int) =~= views);
    string_push_str(s, "]");
}

/// Display text of a status.
pub open spec fn status_text(st: TerminationStatus) -> Seq<char> {
    match st {
        TerminationStatus::Proving => "⏳ Proving"@,
        TerminationStatus::Proved => "✅ Terminating"@,
        TerminationStatus::NonTerminating => "❌ Non-terminating"@,
        TerminationStatus::Unknown => "❓ Unknown"@,
        TerminationStatus::StructuralRecursion => "🔀 Structural"@,
        TerminationStatus::SizeChange(cs) => "📉 Decreasing ("@ + size_changes_text(cs@) + ")"@,
    }
}

impl TerminationStatus {
    pub fn to_string(&self) -> (r: String)
        ensures
            r@ == status_text(*self),
    {
        match self {
            TerminationStatus::Proving => owned("⏳ Proving"),
            TerminationStatus::Proved => owned("✅ Terminating"),
            TerminationStatus::NonTerminating => owned("❌ Non-terminating"),
            TerminationStatus::Unknown => owned("❓ Unknown"),
            TerminationStatus::StructuralRecursion => owned("🔀 Structural"),
            TerminationStatus::SizeChange(changes) => {
                let mut s = owned("📉 Decreasing (");
                push_size_changes(&mut s, changes);
                string_push_str(&mut s, ")");
                s
            },
        }
    }
}

/// The report on one function.
#[derive(Debug, Clone)]
pub struct FunctionReport {
    pub name: String,
    pub is_terminating: bool,
    pub status: TerminationStatus,
    pub size_changes: Option<Vec<SizeChange>>,
    pub errors: Vec<String>,
}

impl FunctionReport {
    /// A report on `name`: terminating, status unknown, no findings.
    pub fn new(name: String) -> (r: FunctionReport)
        ensures
            r.name == name,
            r.is_terminating,
            r.status is Unknown,
            r.size_changes is None,
            r.errors@.len() == 0,
    {
        FunctionReport {
            name,
            is_terminating: true,
            status: TerminationStatus::Unknown,
            size_changes: None,
            errors: Vec::new(),
        }
    }
}

/// The reports on all functions and the number of non-terminating ones.
#[derive(Debug, Clone)]
pub struct TerminationReport {
    pub functions: Vec<FunctionReport>,
    pub total_errors: i64,
}

/// Number of reports on non-terminating functions.
pub open spec fn failing_count(fs: Seq<FunctionReport>) -> int
    decreases fs.len(),
{
    if fs.len() == 0 {
        0
    } else {
        failing_count(fs.drop_last()) + if fs.last().is_terminating { 0int } else { 1int }
    }
}

/// The text of one function's report.
pub open spec fn function_text(f: FunctionReport) -> Seq<char> {
    "Function: "@ + f.name@ + "\n"@ + "  Status: "@ + status_text(f.status) + "\n"@ + (if f.errors@.len() > 0 {
        "  Errors:\n"@ + errors_text(f.errors@)
    } else {
        Seq::empty()
    }) + (match f.size_changes {
        Some(cs) => "  Size changes: "@ + size_changes_text(cs@) + "\n"@,
        None => Seq::empty(),
    }) + "\n"@
}

/// The lines `    - error` of a list of errors.
pub open spec fn errors_text(es: Seq<String>) -> Seq<char>
    decreases es.len(),
{
    if es.len() == 0 {
        Seq::empty()
    } else {
        errors_text(es.drop_last()) + "    - "@ + es.last()@ + "\n"@
    }
}

/// The texts of the function reports, in order.
pub open spec fn functions_text(fs: Seq<FunctionReport>) -> Seq<char>
    decreases fs.len(),
{
    if fs.len() == 0 {
        Seq::empty()
    } else {
        functions_text(fs.drop_last()) + function_text(fs.last())
    }
}

fn push_function(s: &mut String, f: &FunctionReport)
    ensures
        final(s)@ == old(s)@ + function_text(*f),
{
    string_push_str(s, "Function: ");
    string_push_str(s, f.name.as_str());
    string_push_str(s, "\n");
    string_push_str(s, "  Status: ");
    let st = f.status.to_string();
    string_push_str(s, st.as_str());
    string_push_str(s, "\n");
    let ghost after_status = s@;
    if f.errors.len() > 0 {
        string_push_str(s, "  Errors:\n");
        let ghost base = s@;
        let mut i: usize = 0;
        while i < f.errors.len()
            invariant
                i <= f.errors@.len(),
                s@ == base + errors_text(f.errors@.take(i as int)),
            decreases f.errors@.len() - i,
        {
            string_push_str(s, "    - ");
            string_push_str(s, f.errors[i].as_str());
            string_push_str(s, "\n");
            proof {
                assert(f.errors@.take(i + 1).drop_last() =~= f.errors@.take(i as int));
                assert(s@ =~= base + errors_text(f.errors@.take(i + 1)));
            }
            i = i + 1;
        }
        assert(f.errors@.take(i as int) =~= f.errors@);
    }
    let ghost after_errors = s@;
    match &f.size_changes {
        Some(cs) => {
            string_push_str(s, "  Size changes: ");
            push_size_changes(s, cs);
            string_push_str(s, "\n");
        },
        None => {},
    }
    string_push_str(s, "\n");
    proof {
        assert(s@ =~= old(s)@ + function_text(*f));
    }
}

impl TerminationReport {
    /// No reports.
    pub fn new() -> (r: TerminationReport)
        ensures
            r.functions@.len() == 0,
            r.total_errors == 0,
            r.total_errors == failing_count(r.functions@),
    {
        TerminationReport { functions: Vec::new(), total_errors: 0 }
    }

    /// Adds a report, counting it when the function does not terminate.
    pub fn add_function(&mut self, report: FunctionReport)
        requires
            old(self).total_errors < i64::MAX,
        ensures
            final(self).functions@ == old(self).functions@.push(report),
            final(self).total_errors == old(self).total_errors + if report.is_terminating {
                0int
            } else {
                1int
            },
            old(self).total_errors == failing_count(old(self).functions@) ==> final(self).total_errors
                == failing_count(final(self).functions@),
    {
        proof {
            lemma_count_after_add(self.functions@, report);
        }
        if !report.is_terminating {
            self.total_errors = self.total_errors + 1;
        }
        self.functions.push(report);
    }

    /// The text report: a heading, each function's report, and the number
    /// of non-terminating functions.
    pub fn report(&self) -> (r: String)
        ensures
            r@ == "=== Termination Analysis Report ===\n\n"@ + functions_text(self.functions@)
                + "Total non-terminating functions: "@ + signed_decimal(self.total_errors as int) + "\n"@,
    {
        let mut s = owned("=== Termination Analysis Report ===\n\n");
        let ghost base = s@;
        let mut i: usize = 0;
        while i < self.functions.len()
            invariant
                i <= self.functions@.len(),
                s@ == base + functions_text(self.functions@.take(i as int)),
            decreases self.functions@.len() - i,
        {
            push_function(&mut s, &self.functions[i]);
            proof {
                assert(self.functions@.take(i + 1).drop_last() =~= self.functions@.take(i as int));
                assert(s@ =~= base + functions_text(self.functions@.take(i + 1)));
            }
            i = i + 1;
        }
        assert(self.functions@.take(i as int) =~= self.functions@);
        string_push_str(&mut s, "Total non-terminating functions: ");
        push_signed_decimal(&mut s, self.total_errors);
        string_push_str(&mut s, "\n");
        s
    }
}

/// Adding reports keeps the count of non-terminating ones.
pub proof fn lemma_count_after_add(fs: Seq<FunctionReport>, f: FunctionReport)
    ensures
        failing_count(fs.push(f)) == failing_count(fs) + if f.is_terminating { 0int } else { 1int },
{
    assert(fs.push(f).drop_last() =~= fs);
}

} // verus!
