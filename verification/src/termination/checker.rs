//! The termination checker: it finds the recursive calls in a function's
//! body, classifies how each call changes its arguments' size, and decides
//! whether the recursion is decreasing, structural or possibly endless.
use vstd::prelude::*;
use crate::termination::{BinOp, Position, SizeChange, TerminationStatus, Type};
use crate::termination::syntax::{Expression, Literal, MatchArm, expr_eq, exprs_eq, copy_expr};
use crate::assoc::{assoc_lookup, assoc_find, lemma_assoc_update, lemma_assoc_push, lemma_assoc_found, lemma_assoc_absent};
use crate::text::{owned, str_eq, string_push_str, string_push, chars_of, push_signed_decimal, signed_decimal};
use crate::stdlib::path::join_spec;
use crate::stdlib::generics::join_strings;

verus! {

/// A recursive call found in a function body.
#[derive(Debug, Clone, PartialEq, Eq, Hash)]
pub struct RecursiveCall {
    pub callee: String,
    pub args: Vec<CallArg>,
    pub position: Position,
    pub is_tail_call: bool,
}

/// An argument of a recursive call and how it changes the argument's size.
#[derive(Debug, Clone, PartialEq, Eq, Hash)]
pub struct CallArg {
    pub expr: Expression,
    pub size_change: Option<SizeChange>,
}

// ---------------------------------------------------------------------------
// The model: what the checker computes, stated over expressions.
// ---------------------------------------------------------------------------

/// How an argument expression changes the size of what is passed: a
/// variable keeps it, `x - k` with a positive literal `k` and any division
/// decrease it, a constructor decreases it when one of its arguments does
/// and keeps it otherwise, and anything else is unknown.
pub open spec fn size_change_of(e: Expression) -> SizeChange
    decreases e,
{
    match e {
        Expression::Variable(_) => SizeChange::Unchanged,
        Expression::BinOp(op, l, r) => match op {
            BinOp::Sub => if (*l is Variable) && (match *r {
                Expression::Literal(Literal::Int(k)) => k > 0,
                _ => false,
            }) {
                SizeChange::Decreased
            } else {
                SizeChange::Unknown
            },
            BinOp::Div => SizeChange::Decreased,
            _ => SizeChange::Unknown,
        },
        Expression::Constructor(_, args) => if any_decreased(args@) {
            SizeChange::Decreased
        } else {
            SizeChange::Unchanged
        },
        _ => SizeChange::Unknown,
    }
}

/// Whether some expression of the list decreases the size.
pub open spec fn any_decreased(es: Seq<Expression>) -> bool
    decreases es,
{
    if es.len() == 0 {
        false
    } else {
        any_decreased(es.drop_last()) || size_change_of(es.last()) == SizeChange::Decreased
    }
}

/// A list has an argument that decreases the size exactly when one of its
/// elements does.
proof fn lemma_any_decreased_member(es: Seq<Expression>)
    ensures
        any_decreased(es) <==> exists|i: int| 0 <= i < es.len() && size_change_of(#[trigger] es[i]) == SizeChange::Decreased,
    decreases es.len(),
{
    if es.len() > 0 {
        lemma_any_decreased_member(es.drop_last());
        if any_decreased(es.drop_last()) {
            let i = choose|i: int| 0 <= i < es.drop_last().len() && size_change_of(#[trigger] es.drop_last()[i]) == SizeChange::Decreased;
            assert(es[i] == es.drop_last()[i]);
        }
        if size_change_of(es.last()) == SizeChange::Decreased {
            assert(size_change_of(es[es.len() - 1]) == SizeChange::Decreased);
        }
        if exists|i: int| 0 <= i < es.len() && size_change_of(#[trigger] es[i]) == SizeChange::Decreased {
            let i = choose|i: int| 0 <= i < es.len() && size_change_of(#[trigger] es[i]) == SizeChange::Decreased;
            if i < es.len() - 1 {
                assert(es.drop_last()[i] == es[i]);
            }
        }
    }
}

/// What an argument does to the size of a parameter: `x - k` decreases it
/// exactly when subtracting `k` makes an integer `n` smaller (for any `n`:
/// `k` positive);
/// a division always decreases it; a variable keeps it; a constructor
/// decreases it exactly when one of its arguments does, and keeps it
/// otherwise.
pub proof fn lemma_size_change_laws(x: String, k: i128, n: int, l: Expression, r: Expression, name: String, args: Vec<Expression>)
    ensures
        (size_change_of(Expression::BinOp(BinOp::Sub, Box::new(Expression::Variable(x)), Box::new(Expression::Literal(Literal::Int(k)))))
            == SizeChange::Decreased) <==> n - k < n,
        size_change_of(Expression::BinOp(BinOp::Div, Box::new(l), Box::new(r))) == SizeChange::Decreased,
        size_change_of(Expression::Variable(x)) == SizeChange::Unchanged,
        size_change_of(Expression::Constructor(name, args)) == if exists|i: int|
            0 <= i < args@.len() && size_change_of(#[trigger] args@[i]) == SizeChange::Decreased {
            SizeChange::Decreased
        } else {
            SizeChange::Unchanged
        },
{
    lemma_any_decreased_member(args@);
}

/// The argument lists of the calls of `f` in an expression, in the order in
/// which they are met: a call before the calls in its arguments, the left
/// operand before the right, the condition before the branches, the
/// scrutinee before the arms. Constructors, literals, variables and blocks
/// are not searched.
pub open spec fn calls_in(e: Expression, f: Seq<char>) -> Seq<Seq<Expression>>
    decreases e,
{
    match e {
        Expression::Call(n, args) => (if n@ == f {
            seq![args@]
        } else {
            Seq::empty()
        }) + calls_in_list(args@, f),
        Expression::BinOp(_, l, r) => calls_in(*l, f) + calls_in(*r, f),
        Expression::UnOp(_, x) => calls_in(*x, f),
        Expression::If(c, t, el) => calls_in(*c, f) + calls_in(*t, f) + match el {
            Some(x) => calls_in(*x, f),
            None => Seq::empty(),
        },
        Expression::Match(x, arms) => calls_in(*x, f) + calls_in_arms(arms@, f),
        Expression::Tuple(es) => calls_in_list(es@, f),
        Expression::Array(es) => calls_in_list(es@, f),
        Expression::FieldAccess(x, _) => calls_in(*x, f),
        Expression::Index(x, i) => calls_in(*x, f) + calls_in(*i, f),
        _ => Seq::empty(),
    }
}

/// The calls of `f` in a list of expressions, in order.
pub open spec fn calls_in_list(es: Seq<Expression>, f: Seq<char>) -> Seq<Seq<Expression>>
    decreases es,
{
    if es.len() == 0 {
        Seq::empty()
    } else {
        calls_in_list(es.drop_last(), f) + calls_in(es.last(), f)
    }
}

/// The calls of `f` in the bodies of match arms, in order.
pub open spec fn calls_in_arms(arms: Seq<MatchArm>, f: Seq<char>) -> Seq<Seq<Expression>>
    decreases arms,
{
    if arms.len() == 0 {
        Seq::empty()
    } else {
        calls_in_arms(arms.drop_last(), f) + calls_in(arms.last().body, f)
    }
}

/// A record of a call of `f` with the given arguments: each argument copied
/// with its size change, at the empty position, not marked as a tail call.
pub open spec fn records_call(c: RecursiveCall, f: Seq<char>, args: Seq<Expression>) -> bool {
    &&& c.callee@ == f
    &&& c.args@.len() == args.len()
    &&& forall|j: int|
        0 <= j < args.len() ==> expr_eq(#[trigger] c.args@[j].expr, args[j]) && c.args@[j].size_change
            == Some(size_change_of(args[j]))
    &&& c.position.file@ == Seq::<char>::empty()
    &&& c.position.line == 0
    &&& c.position.column == 0
    &&& !c.is_tail_call
}

/// Records of the given calls, one for each, in order.
pub open spec fn records_calls(cs: Seq<RecursiveCall>, f: Seq<char>, calls: Seq<Seq<Expression>>) -> bool {
    cs.len() == calls.len() && forall|k: int| 0 <= k < cs.len() ==> records_call(#[trigger] cs[k], f, calls[k])
}

/// The size change of each call's first argument, for the calls that have
/// arguments.
pub open spec fn first_changes(calls: Seq<Seq<Expression>>) -> Seq<SizeChange>
    decreases calls.len(),
{
    if calls.len() == 0 {
        Seq::empty()
    } else {
        first_changes(calls.drop_last()) + if calls.last().len() > 0 {
            seq![size_change_of(calls.last()[0])]
        } else {
            Seq::empty()
        }
    }
}

/// Every change is a decrease.
pub open spec fn all_decreased(cs: Seq<SizeChange>) -> bool {
    forall|i: int| 0 <= i < cs.len() ==> cs[i] == SizeChange::Decreased
}

/// Whether an argument is the parameter itself or a structural part of it:
/// the parameter, the tail of a `Cons`/`::` whose tail is such a part, a
/// field of such a part, or an empty list `Nil`/`[]`.
pub open spec fn is_subpattern(e: Expression, p: Seq<char>) -> bool
    decreases e,
{
    match e {
        Expression::Variable(n) => n@ == p,
        Expression::Constructor(n, args) => if n@ == "Cons"@ || n@ == "::"@ {
            args@.len() > 1 && is_subpattern(args@[1], p)
        } else {
            n@ == "Nil"@ || n@ == "[]"@
        },
        Expression::FieldAccess(x, _) => is_subpattern(*x, p),
        _ => false,
    }
}

/// Whether some call passes, at some parameter's place, a structural part
/// of that parameter.
pub open spec fn is_structural(calls: Seq<Seq<Expression>>, params: Seq<String>) -> bool {
    exists|k: int, i: int|
        0 <= k < calls.len() && 0 <= i < calls[k].len() && i < params.len() && #[trigger] is_subpattern(
            calls[k][i],
            params[i]@,
        )
}

/// The status that checking gives a function with this body and these
/// parameters, when it is not indirectly recursive.
pub open spec fn status_holds(st: TerminationStatus, body: Expression, f: Seq<char>, params: Seq<String>) -> bool {
    let calls = calls_in(body, f);
    let changes = first_changes(calls);
    if calls.len() == 0 {
        st is Proved
    } else if all_decreased(changes) {
        st matches TerminationStatus::SizeChange(v) && v@ == changes
    } else if is_structural(calls, params) {
        st is StructuralRecursion
    } else {
        st is NonTerminating
    }
}

// ---------------------------------------------------------------------------
// Facts about the model.
// ---------------------------------------------------------------------------

/// Equal lists have equal elements.
pub proof fn lemma_exprs_eq_index(xs: Seq<Expression>, ys: Seq<Expression>, i: int)
    requires
        exprs_eq(xs, ys),
        0 <= i < xs.len(),
    ensures
        ys.len() == xs.len(),
        expr_eq(xs[i], ys[i]),
    decreases xs.len(),
{
    if i < xs.len() - 1 {
        lemma_exprs_eq_index(xs.drop_last(), ys.drop_last(), i);
    }
}

/// Whether an argument is a structural part of a parameter does not depend
/// on which of two equal copies is looked at.
pub proof fn lemma_subpattern_eq(a: Expression, b: Expression, p: Seq<char>)
    requires
        expr_eq(a, b),
    ensures
        is_subpattern(a, p) == is_subpattern(b, p),
    decreases a,
{
    match (a, b) {
        (Expression::Constructor(n, xs), Expression::Constructor(m, ys)) => {
            if xs@.len() > 1 {
                lemma_exprs_eq_index(xs@, ys@, 1);
                assert(decreases_to!(a => xs@[1]));
                lemma_subpattern_eq(xs@[1], ys@[1], p);
            } else {
                if xs@.len() > 0 {
                    lemma_exprs_eq_index(xs@, ys@, 0);
                } else if ys@.len() > 0 {
                    assert(exprs_eq(xs@, ys@));
                }
            }
        },
        (Expression::FieldAccess(x, _), Expression::FieldAccess(y, _)) => {
            lemma_subpattern_eq(*x, *y, p);
        },
        _ => {},
    }
}

/// `new` is `old` followed by records of `calls`.
pub open spec fn appended(old: Seq<RecursiveCall>, new: Seq<RecursiveCall>, f: Seq<char>, calls: Seq<Seq<Expression>>) -> bool {
    &&& new.len() == old.len() + calls.len()
    &&& new.take(old.len() as int) == old
    &&& records_calls(new.skip(old.len() as int), f, calls)
}

/// Appending records twice appends the records of both call lists.
pub proof fn lemma_appended_trans(
    a: Seq<RecursiveCall>,
    b: Seq<RecursiveCall>,
    c: Seq<RecursiveCall>,
    f: Seq<char>,
    x: Seq<Seq<Expression>>,
    y: Seq<Seq<Expression>>,
)
    requires
        appended(a, b, f, x),
        appended(b, c, f, y),
    ensures
        appended(a, c, f, x + y),
{
    assert(c.take(a.len() as int) =~= a) by {
        assert forall|i: int| 0 <= i < a.len() implies c.take(a.len() as int)[i] == a[i] by {
            assert(c[i] == c.take(b.len() as int)[i]);
            assert(b[i] == b.take(a.len() as int)[i]);
        }
    }
    let xy = x + y;
    assert forall|k: int| 0 <= k < c.skip(a.len() as int).len() implies records_call(
        #[trigger] c.skip(a.len() as int)[k],
        f,
        xy[k],
    ) by {
        if k < x.len() {
            assert(c.skip(a.len() as int)[k] == c[a.len() + k]);
            assert(c[a.len() + k] == c.take(b.len() as int)[a.len() + k]);
            assert(b.skip(a.len() as int)[k] == b[a.len() + k]);
        } else {
            assert(c.skip(a.len() as int)[k] == c.skip(b.len() as int)[k - x.len()]);
        }
    }
}

/// Nothing appended is an append of no calls.
pub proof fn lemma_appended_none(a: Seq<RecursiveCall>, f: Seq<char>)
    ensures
        appended(a, a, f, Seq::empty()),
{
    assert(a.take(a.len() as int) =~= a);
}

// ---------------------------------------------------------------------------
// The analyses.
// ---------------------------------------------------------------------------

/// How one argument changes the size of what it passes.
fn analyze_size_change(arg: &Expression) -> (r: Option<SizeChange>)
    ensures
        r == Some(size_change_of(*arg)),
    decreases arg,
{
    match arg {
        Expression::Variable(_) => Some(SizeChange::Unchanged),
        Expression::BinOp(op, left, right) => {
            match op {
                BinOp::Sub => {
                    if let Expression::Variable(_) = &**left {
                        if let Expression::Literal(Literal::Int(k)) = &**right {
                            if *k > 0 {
                                return Some(SizeChange::Decreased);
                            }
                        }
                    }
                    Some(SizeChange::Unknown)
                },
                BinOp::Add => Some(SizeChange::Unknown),
                BinOp::Div => Some(SizeChange::Decreased),
                _ => Some(SizeChange::Unknown),
            }
        },
        Expression::Constructor(_, args) => {
            if any_arg_decreased(args) {
                Some(SizeChange::Decreased)
            } else {
                Some(SizeChange::Unchanged)
            }
        },
        _ => Some(SizeChange::Unknown),
    }
}

/// Whether some argument decreases the size.
fn any_arg_decreased(args: &Vec<Expression>) -> (r: bool)
    ensures
        r == any_decreased(args@),
    decreases args@,
{
    let mut i: usize = 0;
    while i < args.len()
        invariant
            i <= args@.len(),
            !any_decreased(args@.take(i as int)),
        decreases args@.len() - i,
    {
        proof {
            assert(decreases_to!(args@ => args@[i as int]));
            assert(args@.take(i + 1).drop_last() =~= args@.take(i as int));
        }
        match analyze_size_change(&args[i]) {
            Some(SizeChange::Decreased) => {
                proof {
                    assert(any_decreased(args@.take(i + 1)));
                    lemma_any_decreased_prefix(args@, i + 1);
                }
                return true;
            },
            _ => {},
        }
        i = i + 1;
    }
    assert(args@.take(args@.len() as int) =~= args@);
    false
}

/// A decrease in a prefix is a decrease in the list.
proof fn lemma_any_decreased_prefix(es: Seq<Expression>, n: int)
    requires
        0 <= n <= es.len(),
        any_decreased(es.take(n)),
    ensures
        any_decreased(es),
    decreases es.len() - n,
{
    if n < es.len() {
        assert(es.take(n + 1).drop_last() =~= es.take(n));
        lemma_any_decreased_prefix(es, n + 1);
    } else {
        assert(es.take(n) =~= es);
    }
}

/// The record of a call of `name` with these arguments.
fn build_call(name: &String, args: &Vec<Expression>) -> (r: RecursiveCall)
    ensures
        records_call(r, name@, args@),
{
    let mut call_args: Vec<CallArg> = Vec::new();
    let mut i: usize = 0;
    while i < args.len()
        invariant
            i <= args@.len(),
            call_args@.len() == i,
            forall|j: int|
                0 <= j < i ==> expr_eq(#[trigger] call_args@[j].expr, args@[j]) && call_args@[j].size_change
                    == Some(size_change_of(args@[j])),
        decreases args@.len() - i,
    {
        let e = copy_expr(&args[i]);
        let c = analyze_size_change(&args[i]);
        call_args.push(CallArg { expr: e, size_change: c });
        i = i + 1;
    }
    let file = String::new();
    RecursiveCall {
        callee: name.clone(),
        args: call_args,
        position: Position { file, line: 0, column: 0 },
        is_tail_call: false,
    }
}

/// Appends records of the calls of `f` in `expr`.
fn find_calls_in_expr(expr: &Expression, f: &String, calls: &mut Vec<RecursiveCall>)
    ensures
        appended(old(calls)@, final(calls)@, f@, calls_in(*expr, f@)),
    decreases expr,
{
    let ghost start = calls@;
    match expr {
        Expression::Call(name, args) => {
            if str_eq(name.as_str(), f.as_str()) {
                let call = build_call(name, args);
                let ghost before = calls@;
                calls.push(call);
                proof {
                    assert(calls@.take(before.len() as int) =~= before);
                    assert(calls@.skip(before.len() as int) =~= seq![call]);
                    assert(records_calls(calls@.skip(before.len() as int), f@, seq![args@]));
                }
            } else {
                proof {
                    lemma_appended_none(calls@, f@);
                }
            }
            let ghost mid = calls@;
            find_calls_in_list(args, f, calls);
            proof {
                let first: Seq<Seq<Expression>> = if name@ == f@ { seq![args@] } else { Seq::empty() };
                lemma_appended_trans(start, mid, calls@, f@, first, calls_in_list(args@, f@));
            }
        },
        Expression::BinOp(_, l, r) => {
            find_calls_in_expr(l, f, calls);
            let ghost mid = calls@;
            find_calls_in_expr(r, f, calls);
            proof {
                lemma_appended_trans(start, mid, calls@, f@, calls_in(**l, f@), calls_in(**r, f@));
            }
        },
        Expression::UnOp(_, x) => {
            find_calls_in_expr(x, f, calls);
        },
        Expression::If(c, t, el) => {
            find_calls_in_expr(c, f, calls);
            let ghost mid = calls@;
            find_calls_in_expr(t, f, calls);
            proof {
                lemma_appended_trans(start, mid, calls@, f@, calls_in(**c, f@), calls_in(**t, f@));
            }
            let ghost mid2 = calls@;
            match el {
                Some(x) => {
                    find_calls_in_expr(x, f, calls);
                    proof {
                        lemma_appended_trans(
                            start,
                            mid2,
                            calls@,
                            f@,
                            calls_in(**c, f@) + calls_in(**t, f@),
                            calls_in(**x, f@),
                        );
                    }
                },
                None => {
                    proof {
                        lemma_appended_none(calls@, f@);
                        lemma_appended_trans(
                            start,
                            mid2,
                            calls@,
                            f@,
                            calls_in(**c, f@) + calls_in(**t, f@),
                            Seq::empty(),
                        );
                    }
                },
            }
        },
        Expression::Match(x, arms) => {
            find_calls_in_expr(x, f, calls);
            let ghost mid = calls@;
            find_calls_in_arms(arms, f, calls);
            proof {
                lemma_appended_trans(start, mid, calls@, f@, calls_in(**x, f@), calls_in_arms(arms@, f@));
            }
        },
        Expression::Tuple(es) => {
            find_calls_in_list(es, f, calls);
        },
        Expression::Array(es) => {
            find_calls_in_list(es, f, calls);
        },
        Expression::FieldAccess(x, _) => {
            find_calls_in_expr(x, f, calls);
        },
        Expression::Index(x, i) => {
            find_calls_in_expr(x, f, calls);
            let ghost mid = calls@;
            find_calls_in_expr(i, f, calls);
            proof {
                lemma_appended_trans(start, mid, calls@, f@, calls_in(**x, f@), calls_in(**i, f@));
            }
        },
        _ => {
            proof {
                lemma_appended_none(calls@, f@);
            }
        },
    }
}

/// Appends records of the calls of `f` in a list of expressions.
fn find_calls_in_list(es: &Vec<Expression>, f: &String, calls: &mut Vec<RecursiveCall>)
    ensures
        appended(old(calls)@, final(calls)@, f@, calls_in_list(es@, f@)),
    decreases es@,
{
    let ghost start = calls@;
    proof {
        lemma_appended_none(calls@, f@);
        assert(es@.take(0) =~= Seq::<Expression>::empty());
    }
    let mut i: usize = 0;
    while i < es.len()
        invariant
            i <= es@.len(),
            appended(start, calls@, f@, calls_in_list(es@.take(i as int), f@)),
        decreases es@.len() - i,
    {
        proof {
            assert(decreases_to!(es@ => es@[i as int]));
        }
        let ghost mid = calls@;
        find_calls_in_expr(&es[i], f, calls);
        proof {
            assert(es@.take(i + 1).drop_last() =~= es@.take(i as int));
            assert(es@.take(i + 1).last() == es@[i as int]);
            lemma_appended_trans(start, mid, calls@, f@, calls_in_list(es@.take(i as int), f@), calls_in(es@[i as int], f@));
        }
        i = i + 1;
    }
    assert(es@.take(es@.len() as int) =~= es@);
}

/// Appends records of the calls of `f` in the bodies of match arms.
fn find_calls_in_arms(arms: &Vec<MatchArm>, f: &String, calls: &mut Vec<RecursiveCall>)
    ensures
        appended(old(calls)@, final(calls)@, f@, calls_in_arms(arms@, f@)),
    decreases arms@,
{
    let ghost start = calls@;
    proof {
        lemma_appended_none(calls@, f@);
        assert(arms@.take(0) =~= Seq::<MatchArm>::empty());
    }
    let mut i: usize = 0;
    while i < arms.len()
        invariant
            i <= arms@.len(),
            appended(start, calls@, f@, calls_in_arms(arms@.take(i as int), f@)),
        decreases arms@.len() - i,
    {
        proof {
            assert(decreases_to!(arms@ => arms@[i as int]));
            assert(decreases_to!(arms@[i as int] => arms@[i as int].body));
        }
        let ghost mid = calls@;
        find_calls_in_expr(&arms[i].body, f, calls);
        proof {
            assert(arms@.take(i + 1).drop_last() =~= arms@.take(i as int));
            assert(arms@.take(i + 1).last() == arms@[i as int]);
            lemma_appended_trans(start, mid, calls@, f@, calls_in_arms(arms@.take(i as int), f@), calls_in(arms@[i as int].body, f@));
        }
        i = i + 1;
    }
    assert(arms@.take(arms@.len() as int) =~= arms@);
}

/// The records of the calls of `f` in `expr`.
fn find_recursive_calls(expr: &Expression, f: &String) -> (r: Vec<RecursiveCall>)
    ensures
        records_calls(r@, f@, calls_in(*expr, f@)),
{
    let mut calls: Vec<RecursiveCall> = Vec::new();
    find_calls_in_expr(expr, f, &mut calls);
    assert(calls@.skip(0) =~= calls@);
    calls
}

/// The size change recorded for each call's first argument, for the calls
/// that have arguments, a missing change read as unknown.
pub open spec fn recorded_changes(cs: Seq<RecursiveCall>) -> Seq<SizeChange>
    decreases cs.len(),
{
    if cs.len() == 0 {
        Seq::empty()
    } else {
        recorded_changes(cs.drop_last()) + if cs.last().args@.len() > 0 {
            seq![
                match cs.last().args@[0].size_change {
                    Some(c) => c,
                    None => SizeChange::Unknown,
                },
            ]
        } else {
            Seq::empty()
        }
    }
}

/// Whether some recorded call passes a structural part of a parameter at
/// that parameter's place.
pub open spec fn recorded_structural(cs: Seq<RecursiveCall>, params: Seq<String>) -> bool {
    exists|k: int, i: int|
        0 <= k < cs.len() && 0 <= i < cs[k].args@.len() && i < params.len() && #[trigger] is_subpattern(
            cs[k].args@[i].expr,
            params[i]@,
        )
}

/// Records of calls carry the calls' first-argument size changes.
pub proof fn lemma_recorded_changes(cs: Seq<RecursiveCall>, f: Seq<char>, calls: Seq<Seq<Expression>>)
    requires
        records_calls(cs, f, calls),
    ensures
        recorded_changes(cs) == first_changes(calls),
    decreases cs.len(),
{
    if cs.len() > 0 {
        assert(records_call(cs[cs.len() - 1], f, calls[calls.len() - 1]));
        assert(records_calls(cs.drop_last(), f, calls.drop_last())) by {
            assert forall|k: int| 0 <= k < cs.drop_last().len() implies records_call(
                #[trigger] cs.drop_last()[k],
                f,
                calls.drop_last()[k],
            ) by {
                assert(records_call(cs[k], f, calls[k]));
            }
        }
        lemma_recorded_changes(cs.drop_last(), f, calls.drop_last());
        if cs.last().args@.len() > 0 {
            assert(expr_eq(cs.last().args@[0].expr, calls.last()[0]));
            assert(cs.last().args@[0].size_change == Some(size_change_of(calls.last()[0])));
        }
    }
}

/// Records of calls are structural exactly when the calls are.
pub proof fn lemma_recorded_structural(
    cs: Seq<RecursiveCall>,
    f: Seq<char>,
    calls: Seq<Seq<Expression>>,
    params: Seq<String>,
)
    requires
        records_calls(cs, f, calls),
    ensures
        recorded_structural(cs, params) == is_structural(calls, params),
{
    if recorded_structural(cs, params) {
        let (k, i) = choose|k: int, i: int|
            0 <= k < cs.len() && 0 <= i < cs[k].args@.len() && i < params.len() && #[trigger] is_subpattern(
                cs[k].args@[i].expr,
                params[i]@,
            );
        assert(records_call(cs[k], f, calls[k]));
        lemma_subpattern_eq(cs[k].args@[i].expr, calls[k][i], params[i]@);
        assert(is_subpattern(calls[k][i], params[i]@));
    }
    if is_structural(calls, params) {
        let (k, i) = choose|k: int, i: int|
            0 <= k < calls.len() && 0 <= i < calls[k].len() && i < params.len() && #[trigger] is_subpattern(
                calls[k][i],
                params[i]@,
            );
        assert(records_call(cs[k], f, calls[k]));
        lemma_subpattern_eq(cs[k].args@[i].expr, calls[k][i], params[i]@);
        assert(is_subpattern(cs[k].args@[i].expr, params[i]@));
    }
}

/// The first-argument size change of each call that has arguments.
fn analyze_size_changes(calls: &Vec<RecursiveCall>) -> (r: Vec<SizeChange>)
    ensures
        r@ == recorded_changes(calls@),
{
    let mut all_changes: Vec<SizeChange> = Vec::new();
    let mut k: usize = 0;
    while k < calls.len()
        invariant
            k <= calls@.len(),
            all_changes@ == recorded_changes(calls@.take(k as int)),
        decreases calls@.len() - k,
    {
        proof {
            assert(calls@.take(k + 1).drop_last() =~= calls@.take(k as int));
        }
        let call = &calls[k];
        if call.args.len() > 0 {
            let c = match call.args[0].size_change {
                Some(c) => c,
                None => SizeChange::Unknown,
            };
            all_changes.push(c);
        }
        proof {
            assert(all_changes@ =~= recorded_changes(calls@.take(k + 1)));
        }
        k = k + 1;
    }
    assert(calls@.take(calls@.len() as int) =~= calls@);
    all_changes
}

/// Whether every change is a decrease.
fn is_decreasing(changes: &Vec<SizeChange>) -> (r: bool)
    ensures
        r == all_decreased(changes@),
{
    let mut i: usize = 0;
    while i < changes.len()
        invariant
            i <= changes@.len(),
            forall|j: int| 0 <= j < i ==> changes@[j] == SizeChange::Decreased,
        decreases changes@.len() - i,
    {
        if changes[i] != SizeChange::Decreased {
            return false;
        }
        i = i + 1;
    }
    true
}

/// Whether `expr` is the parameter `param_name` or a structural part of it.
fn is_structural_subpattern(expr: &Expression, param_name: &String) -> (r: bool)
    ensures
        r == is_subpattern(*expr, param_name@),
    decreases expr,
{
    match expr {
        Expression::Variable(name) => str_eq(name.as_str(), param_name.as_str()),
        Expression::Constructor(name, args) => {
            if str_eq(name.as_str(), "Cons") || str_eq(name.as_str(), "::") {
                if args.len() > 1 {
                    proof {
                        assert(decreases_to!(args@ => args@[1]));
                    }
                    is_structural_subpattern(&args[1], param_name)
                } else {
                    false
                }
            } else {
                str_eq(name.as_str(), "Nil") || str_eq(name.as_str(), "[]")
            }
        },
        Expression::FieldAccess(x, _) => is_structural_subpattern(x, param_name),
        _ => false,
    }
}

/// Whether some call passes a structural part of a parameter at that
/// parameter's place.
fn is_structural_recursion(calls: &Vec<RecursiveCall>, params: &Vec<String>, param_types: &Vec<Type>) -> (r: bool)
    ensures
        r == recorded_structural(calls@, params@),
{
    let mut k: usize = 0;
    while k < calls.len()
        invariant
            k <= calls@.len(),
            forall|kk: int, i: int|
                0 <= kk < k && 0 <= i < calls@[kk].args@.len() && i < params@.len() ==> !#[trigger] is_subpattern(
                    calls@[kk].args@[i].expr,
                    params@[i]@,
                ),
        decreases calls@.len() - k,
    {
        let call = &calls[k];
        let mut i: usize = 0;
        while i < call.args.len()
            invariant
                k < calls@.len(),
                *call == calls@[k as int],
                i <= call.args@.len(),
                forall|kk: int, j: int|
                    0 <= kk < k && 0 <= j < calls@[kk].args@.len() && j < params@.len() ==> !#[trigger] is_subpattern(
                        calls@[kk].args@[j].expr,
                        params@[j]@,
                    ),
                forall|j: int| 0 <= j < i && j < params@.len() ==> !#[trigger] is_subpattern(
                    calls@[k as int].args@[j].expr,
                    params@[j]@,
                ),
            decreases call.args@.len() - i,
        {
            if i < params.len() {
                if is_structural_subpattern(&call.args[i].expr, &params[i]) {
                    return true;
                }
            }
            i = i + 1;
        }
        k = k + 1;
    }
    false
}

// ---------------------------------------------------------------------------
// The call graph.
// ---------------------------------------------------------------------------

/// Calls between functions: edges from caller to callee, and the recursive
/// calls found in each function.
#[derive(Debug, Clone)]
pub struct CallGraph {
    edges: Vec<(String, String)>,
    recursive_calls: Vec<(String, Vec<RecursiveCall>)>,
}

/// The contents of a list of names.
pub open spec fn names(v: Seq<String>) -> Seq<Seq<char>> {
    v.map_values(|x: String| x@)
}

/// There is an edge from `a` to `b`.
pub open spec fn has_edge(g: Seq<(Seq<char>, Seq<char>)>, a: Seq<char>, b: Seq<char>) -> bool {
    exists|i: int| 0 <= i < g.len() && #[trigger] g[i] == (a, b)
}

/// The name at `i` of `p` calls the next one.
pub open spec fn walk_step(g: Seq<(Seq<char>, Seq<char>)>, p: Seq<Seq<char>>, i: int) -> bool {
    has_edge(g, p[i], p[i + 1])
}

/// `p` is a walk along edges: each name is followed by a callee of it.
pub open spec fn is_walk(g: Seq<(Seq<char>, Seq<char>)>, p: Seq<Seq<char>>) -> bool {
    p.len() >= 1 && forall|i: int| 0 <= i < p.len() - 1 ==> #[trigger] walk_step(g, p, i)
}

/// `b` can be reached from `a` by following edges, possibly none.
pub open spec fn reaches(g: Seq<(Seq<char>, Seq<char>)>, a: Seq<char>, b: Seq<char>) -> bool {
    exists|p: Seq<Seq<char>>| #[trigger] is_walk(g, p) && p[0] == a && p.last() == b
}

/// `n` lies on a cycle: following one edge or more leads from `n` back to
/// `n`.
pub open spec fn on_cycle(g: Seq<(Seq<char>, Seq<char>)>, n: Seq<char>) -> bool {
    exists|p: Seq<Seq<char>>| #[trigger] is_walk(g, p) && p.len() >= 2 && p[0] == n && p.last() == n
}

/// A walk extended by an edge from its end is a walk.
proof fn lemma_walk_push(g: Seq<(Seq<char>, Seq<char>)>, p: Seq<Seq<char>>, b: Seq<char>)
    requires
        is_walk(g, p),
        has_edge(g, p.last(), b),
    ensures
        is_walk(g, p.push(b)),
{
    let q = p.push(b);
    assert forall|i: int| 0 <= i < q.len() - 1 implies #[trigger] walk_step(g, q, i) by {
        if i < p.len() - 1 {
            assert(q[i] == p[i] && q[i + 1] == p[i + 1]);
            assert(walk_step(g, p, i));
        } else {
            assert(q[i] == p.last() && q[i + 1] == b);
        }
    }
}

/// Every name of a walk that starts in a set closed under edges lies in the
/// set.
proof fn lemma_closed_walk(g: Seq<(Seq<char>, Seq<char>)>, vs: Seq<Seq<char>>, p: Seq<Seq<char>>, k: int)
    requires
        is_walk(g, p),
        vs.contains(p[0]),
        forall|v: Seq<char>, b: Seq<char>| vs.contains(v) && #[trigger] has_edge(g, v, b) ==> vs.contains(b),
        0 <= k < p.len(),
    ensures
        vs.contains(p[k]),
    decreases k,
{
    if k > 0 {
        lemma_closed_walk(g, vs, p, k - 1);
        assert(walk_step(g, p, k - 1));
    }
}

/// The names an edge list can reach from `n` in one step or none.
spec fn universe(g: Seq<(Seq<char>, Seq<char>)>, n: Seq<char>) -> Seq<Seq<char>> {
    seq![n] + g.map_values(|e: (Seq<char>, Seq<char>)| e.1)
}

/// A list of distinct names, each `n` or the callee of an edge, is no longer
/// than the edge list plus one.
proof fn lemma_visited_bound(g: Seq<(Seq<char>, Seq<char>)>, n: Seq<char>, vs: Seq<Seq<char>>)
    requires
        vs.no_duplicates(),
        forall|v: Seq<char>| #[trigger] vs.contains(v) ==> v == n || exists|i: int| 0 <= i < g.len() && g[i].1 == v,
    ensures
        vs.len() <= g.len() + 1,
{
    let u = universe(g, n);
    assert(vs.to_set().subset_of(u.to_set())) by {
        assert forall|v: Seq<char>| vs.to_set().contains(v) implies u.to_set().contains(v) by {
            assert(vs.contains(v));
            if v == n {
                assert(u[0] == v);
            } else {
                let i = choose|i: int| 0 <= i < g.len() && g[i].1 == v;
                assert(u[i + 1] == v);
            }
        }
    }
    vs.unique_seq_to_set();
    u.lemma_cardinality_of_set();
    vstd::set_lib::lemma_len_subset(vs.to_set(), u.to_set());
}

/// Whether `v` holds a name equal to `s`.
fn contains_name(v: &Vec<String>, s: &String) -> (r: bool)
    ensures
        r == names(v@).contains(s@),
{
    let mut i: usize = 0;
    while i < v.len()
        invariant
            i <= v@.len(),
            forall|j: int| 0 <= j < i ==> v@[j]@ != s@,
        decreases v@.len() - i,
    {
        if str_eq(v[i].as_str(), s.as_str()) {
            assert(names(v@)[i as int] == s@);
            return true;
        }
        i = i + 1;
    }
    proof {
        if names(v@).contains(s@) {
            let j = choose|j: int| 0 <= j < names(v@).len() && names(v@)[j] == s@;
            assert(v@[j]@ == s@);
        }
    }
    false
}

impl CallGraph {
    /// The edges, as pairs of names.
    pub closed spec fn edge_list(&self) -> Seq<(Seq<char>, Seq<char>)> {
        self.edges@.map_values(|e: (String, String)| (e.0@, e.1@))
    }

    /// The recursive calls recorded for function `n`, in order.
    pub closed spec fn calls_of(&self, n: Seq<char>) -> Seq<RecursiveCall> {
        match assoc_lookup(self.recursive_calls@, n) {
            Some(v) => v@,
            None => Seq::empty(),
        }
    }

    /// No edges and no recorded calls.
    pub fn new() -> (r: CallGraph)
        ensures
            r.edge_list() == Seq::<(Seq<char>, Seq<char>)>::empty(),
            forall|n: Seq<char>| #[trigger] r.calls_of(n) == Seq::<RecursiveCall>::empty(),
    {
        let r = CallGraph { edges: Vec::new(), recursive_calls: Vec::new() };
        assert(r.edge_list() =~= Seq::<(Seq<char>, Seq<char>)>::empty());
        r
    }

    /// Adds an edge from `caller` to `callee`, unless they are the same.
    pub fn add_edge(&mut self, caller: &String, callee: &String)
        ensures
            final(self).edge_list() == if caller@ != callee@ {
                old(self).edge_list().push((caller@, callee@))
            } else {
                old(self).edge_list()
            },
            forall|n: Seq<char>| #[trigger] final(self).calls_of(n) == old(self).calls_of(n),
    {
        if !str_eq(caller.as_str(), callee.as_str()) {
            self.edges.push((caller.clone(), callee.clone()));
            assert(self.edge_list() =~= old(self).edge_list().push((caller@, callee@)));
        }
    }

    /// Records a recursive call found in `func`.
    pub fn add_recursive_call(&mut self, func: &String, call: RecursiveCall)
        ensures
            final(self).edge_list() == old(self).edge_list(),
            forall|n: Seq<char>| #[trigger] final(self).calls_of(n) == if n == func@ {
                old(self).calls_of(n).push(call)
            } else {
                old(self).calls_of(n)
            },
    {
        let ghost old_t = self.recursive_calls@;
        match assoc_find(&self.recursive_calls, func) {
            Some(i) => {
                let ghost old_v = self.recursive_calls@[i as int].1;
                self.recursive_calls[i].1.push(call);
                proof {
                    let t = self.recursive_calls@;
                    assert(t =~= old_t.update(i as int, (old_t[i as int].0, t[i as int].1)));
                    assert forall|n: Seq<char>| #[trigger] self.calls_of(n) == if n == func@ {
                        old(self).calls_of(n).push(call)
                    } else {
                        old(self).calls_of(n)
                    } by {
                        lemma_assoc_update(old_t, i as int, t[i as int].1, n);
                        if n == func@ {
                            lemma_assoc_found(old_t, i as int);
                        }
                    }
                }
            },
            None => {
                let mut v: Vec<RecursiveCall> = Vec::new();
                v.push(call);
                let key = func.clone();
                self.recursive_calls.push((key, v));
                proof {
                    let t = self.recursive_calls@;
                    assert forall|n: Seq<char>| #[trigger] self.calls_of(n) == if n == func@ {
                        old(self).calls_of(n).push(call)
                    } else {
                        old(self).calls_of(n)
                    } by {
                        lemma_assoc_push(old_t, (key, v), n);
                        if n == func@ {
                            lemma_assoc_absent(old_t, n);
                            assert(v@ =~= Seq::<RecursiveCall>::empty().push(call));
                        }
                    }
                }
            },
        }
        assert(self.edge_list() =~= old(self).edge_list());
    }
}

/// Whether `func_name` calls itself through other functions: a search from
/// it along the edges that meets it again.
fn check_indirect_recursion(graph: &CallGraph, func_name: &String) -> (r: bool)
    ensures
        r == on_cycle(graph.edge_list(), func_name@),
{
    let ghost g = graph.edge_list();
    let ghost n = func_name@;
    let mut visited: Vec<String> = Vec::new();
    let mut stack: Vec<String> = Vec::new();
    stack.push(func_name.clone());
    proof {
        assert(names(stack@) =~= seq![n]);
        assert(names(visited@) =~= Seq::<Seq<char>>::empty());
    }
    while stack.len() > 0
        invariant
            g == graph.edge_list(),
            n == func_name@,
            names(visited@).no_duplicates(),
            names(visited@).len() == 0 ==> names(stack@) == seq![n],
            names(visited@).len() > 0 ==> names(visited@).contains(n),
            forall|v: Seq<char>| #[trigger] names(visited@).contains(v) ==> reaches(g, n, v),
            forall|v: Seq<char>| #[trigger] names(visited@).contains(v) ==> v == n || exists|i: int| 0 <= i < g.len() && g[i].1 == v,
            names(visited@).len() > 0 ==> forall|x: Seq<char>| #[trigger] names(stack@).contains(x) ==> exists|v: Seq<char>|
                names(visited@).contains(v) && has_edge(g, v, x),
            forall|v: Seq<char>, b: Seq<char>| names(visited@).contains(v) && #[trigger] has_edge(g, v, b) ==> names(visited@).contains(b) || names(stack@).contains(b),
            forall|v: Seq<char>| names(visited@).contains(v) && #[trigger] has_edge(g, v, n) ==> names(stack@).contains(n),
        decreases g.len() + 1 - names(visited@).len(), stack@.len(),
    {
        proof {
            lemma_visited_bound(g, n, names(visited@));
        }
        let ghost s_before = names(stack@);
        let current = stack.pop().unwrap();
        let ghost s0 = names(stack@);
        proof {
            assert(s0 =~= s_before.drop_last());
            assert(s_before =~= s0.push(current@));
            assert(s_before[s_before.len() - 1] == current@);
            assert(s_before.contains(current@));
            assert forall|x: Seq<char>| s_before.contains(x) && x != current@ implies s0.contains(x) by {
                let j = choose|j: int| 0 <= j < s_before.len() && s_before[j] == x;
                assert(j < s0.len());
                assert(s0[j] == x);
            }
        }
        if contains_name(&visited, &current) {
            if str_eq(current.as_str(), func_name.as_str()) {
                proof {
                    // `current` came from the stack after the first round,
                    // so it is a callee of a visited, reachable name.
                    assert(names(visited@).len() > 0);
                    assert(s_before.contains(n)) by {
                        assert(s_before[s_before.len() - 1] == n);
                    }
                    let v = choose|v: Seq<char>| names(visited@).contains(v) && has_edge(g, v, n);
                    assert(reaches(g, n, v));
                    let p = choose|p: Seq<Seq<char>>| #[trigger] is_walk(g, p) && p[0] == n && p.last() == v;
                    lemma_walk_push(g, p, n);
                    let q = p.push(n);
                    assert(q[0] == n && q.last() == n && q.len() >= 2);
                }
                return true;
            }
            proof {
                assert forall|x: Seq<char>| #[trigger] s0.contains(x) implies s_before.contains(x) by {
                    let j = choose|j: int| 0 <= j < s0.len() && s0[j] == x;
                    assert(s_before[j] == x);
                }
                if names(visited@).len() == 0 {
                    assert(names(visited@).contains(current@));
                }
            }
        } else {
            let ghost v_before = names(visited@);
            visited.push(current.clone());
            proof {
                assert(names(visited@) =~= v_before.push(current@));
                assert forall|x: Seq<char>| #[trigger] s0.contains(x) implies s_before.contains(x) by {
                    let j = choose|j: int| 0 <= j < s0.len() && s0[j] == x;
                    assert(s_before[j] == x);
                }
            }
            let ghost s1 = names(stack@);
            let mut j: usize = 0;
            while j < graph.edges.len()
                invariant
                    g == graph.edge_list(),
                    j <= g.len(),
                    s1 == s0,
                    names(stack@).len() >= s0.len(),
                    names(stack@).take(s0.len() as int) == s0,
                    forall|x: Seq<char>| #[trigger] names(stack@).contains(x) ==> s0.contains(x) || has_edge(g, current@, x),
                    forall|i: int| 0 <= i < j && g[i].0 == current@ ==> names(stack@).contains(#[trigger] g[i].1),
                decreases g.len() - j,
            {
                let ghost st = names(stack@);
                if str_eq(graph.edges[j].0.as_str(), current.as_str()) {
                    stack.push(graph.edges[j].1.clone());
                    proof {
                        assert(g[j as int] == (graph.edges@[j as int].0@, graph.edges@[j as int].1@));
                        assert(names(stack@) =~= st.push(g[j as int].1));
                        assert(names(stack@).take(s0.len() as int) =~= st.take(s0.len() as int));
                        assert(has_edge(g, current@, g[j as int].1));
                        assert forall|x: Seq<char>| #[trigger] names(stack@).contains(x) implies s0.contains(x) || has_edge(g, current@, x) by {
                            let k = choose|k: int| 0 <= k < names(stack@).len() && names(stack@)[k] == x;
                            if k < st.len() {
                                assert(st[k] == x);
                                assert(st.contains(x));
                            }
                        }
                        assert forall|i: int| 0 <= i < j + 1 && g[i].0 == current@ implies names(stack@).contains(#[trigger] g[i].1) by {
                            if i < j {
                                let k = choose|k: int| 0 <= k < st.len() && st[k] == g[i].1;
                                assert(names(stack@)[k] == g[i].1);
                            } else {
                                assert(names(stack@)[st.len() as int] == g[i].1);
                            }
                        }
                    }
                } else {
                    proof {
                        assert(g[j as int] == (graph.edges@[j as int].0@, graph.edges@[j as int].1@));
                    }
                }
                j = j + 1;
            }
            proof {
                let vs = names(visited@);
                let ss = names(stack@);
                assert forall|x: Seq<char>| #[trigger] s0.contains(x) implies ss.contains(x) by {
                    let k = choose|k: int| 0 <= k < s0.len() && s0[k] == x;
                    assert(ss.take(s0.len() as int)[k] == x);
                }
                assert forall|v: Seq<char>| #[trigger] vs.contains(v) implies reaches(g, n, v) by {
                    if v == current@ && !v_before.contains(v) {
                        if v_before.len() == 0 {
                            assert(current@ == n);
                            let p = seq![n];
                            assert(is_walk(g, p));
                        } else {
                            let u = choose|u: Seq<char>| v_before.contains(u) && has_edge(g, u, v);
                            assert(reaches(g, n, u));
                            let p = choose|p: Seq<Seq<char>>| #[trigger] is_walk(g, p) && p[0] == n && p.last() == u;
                            lemma_walk_push(g, p, v);
                            assert(p.push(v)[0] == n);
                        }
                    } else {
                        let k = choose|k: int| 0 <= k < vs.len() && vs[k] == v;
                        if k < v_before.len() {
                            assert(v_before[k] == v);
                            assert(v_before.contains(v));
                        }
                    }
                }
                assert forall|v: Seq<char>| #[trigger] vs.contains(v) implies v == n || exists|i: int| 0 <= i < g.len() && g[i].1 == v by {
                    let k = choose|k: int| 0 <= k < vs.len() && vs[k] == v;
                    if k < v_before.len() {
                        assert(v_before[k] == v);
                        assert(v_before.contains(v));
                    } else if v_before.len() == 0 {
                        assert(current@ == n);
                    } else {
                        let u = choose|u: Seq<char>| v_before.contains(u) && has_edge(g, u, v);
                        let i = choose|i: int| 0 <= i < g.len() && #[trigger] g[i] == (u, v);
                        assert(g[i].1 == v);
                    }
                }
                assert(vs.contains(n)) by {
                    if v_before.len() == 0 {
                        assert(vs[0] == n);
                    } else {
                        let k = choose|k: int| 0 <= k < v_before.len() && v_before[k] == n;
                        assert(vs[k] == n);
                    }
                }
                assert forall|x: Seq<char>| #[trigger] ss.contains(x) implies exists|v: Seq<char>| vs.contains(v) && has_edge(g, v, x) by {
                    if s0.contains(x) {
                        assert(s_before.contains(x));
                        if v_before.len() == 0 {
                            assert(s0.len() == 0);
                        }
                        let u = choose|u: Seq<char>| v_before.contains(u) && has_edge(g, u, x);
                        let k = choose|k: int| 0 <= k < v_before.len() && v_before[k] == u;
                        assert(vs[k] == u);
                        assert(vs.contains(u));
                    } else {
                        assert(vs[vs.len() - 1] == current@);
                        assert(vs.contains(current@));
                        assert(has_edge(g, current@, x));
                    }
                }
                assert forall|v: Seq<char>, b: Seq<char>| vs.contains(v) && #[trigger] has_edge(g, v, b) implies vs.contains(b) || ss.contains(b) by {
                    if v == current@ {
                        let i = choose|i: int| 0 <= i < g.len() && #[trigger] g[i] == (v, b);
                        assert(g[i].0 == current@);
                        assert(ss.contains(g[i].1));
                    } else {
                        let k = choose|k: int| 0 <= k < vs.len() && vs[k] == v;
                        assert(k < v_before.len());
                        assert(v_before[k] == v);
                        if b == current@ {
                            assert(vs[vs.len() - 1] == b);
                        } else if s_before.contains(b) {
                            assert(s0.contains(b));
                        } else {
                            let kk = choose|kk: int| 0 <= kk < v_before.len() && v_before[kk] == b;
                            assert(vs[kk] == b);
                        }
                    }
                }
                assert forall|v: Seq<char>| vs.contains(v) && #[trigger] has_edge(g, v, n) implies ss.contains(n) by {
                    if v == current@ {
                        let i = choose|i: int| 0 <= i < g.len() && #[trigger] g[i] == (v, n);
                        assert(g[i].0 == current@);
                        assert(ss.contains(g[i].1));
                    } else {
                        let k = choose|k: int| 0 <= k < vs.len() && vs[k] == v;
                        assert(v_before[k] == v);
                        assert(v_before.contains(v));
                        assert(s_before.contains(n));
                        if n == current@ {
                            assert(vs[vs.len() - 1] == n);
                            assert(v_before.len() > 0);
                            assert(v_before.contains(n));
                        }
                        assert(s0.contains(n));
                    }
                }
                lemma_visited_bound(g, n, vs);
            }
        }
    }
    proof {
        let vs = names(visited@);
        if on_cycle(g, n) {
            let p = choose|p: Seq<Seq<char>>| #[trigger] is_walk(g, p) && p.len() >= 2 && p[0] == n && p.last() == n;
            assert(vs.len() > 0);
            assert forall|v: Seq<char>, b: Seq<char>| vs.contains(v) && #[trigger] has_edge(g, v, b) implies vs.contains(b) by {
                assert(!names(stack@).contains(b));
            }
            lemma_closed_walk(g, vs, p, p.len() - 2);
            assert(walk_step(g, p, p.len() - 2));
            assert(names(stack@).contains(n));
            assert(false);
        }
    }
    false
}

// ---------------------------------------------------------------------------
// Functions, errors and the checker.
// ---------------------------------------------------------------------------

/// A function definition as the checker sees it.
#[derive(Debug, Clone)]
pub struct FunctionDef {
    pub name: String,
    pub params: Vec<String>,
    pub param_types: Vec<Type>,
    pub return_type: Type,
    pub body: Expression,
    pub termination: TerminationStatus,
    pub is_recursive: bool,
    pub calls_self: Vec<RecursiveCall>,
    pub position: Position,
}

/// Why a function was not shown to terminate.
#[derive(Debug, Clone)]
pub enum TerminationError {
    NonTerminating { function: String, call: RecursiveCall },
    IndirectRecursion { function: String },
    MutualRecursion { functions: Vec<String> },
    UnknownFunction { name: String },
    InfiniteRecursion { function: String, reason: String },
}

/// Lower-case hexadecimal digit of `d` (below 16).
pub open spec fn hex_digit(d: int) -> char {
    if d < 10 { (('0' as int) + d) as char } else { (('a' as int) + d - 10) as char }
}

/// How `Debug` writes one character inside a quoted string: quote,
/// backslash, NUL, tab, line feed and carriage return get a backslash escape,
/// the other ASCII control characters `\u{..}` with their code in
/// lower-case hexadecimal, and every other character stands for itself.
pub open spec fn debug_char(c: char) -> Seq<char> {
    let u = c as int;
    if c == '"' {
        seq!['\\', '"']
    } else if c == '\\' {
        seq!['\\', '\\']
    } else if u == 0 {
        seq!['\\', '0']
    } else if c == '\t' {
        seq!['\\', 't']
    } else if c == '\n' {
        seq!['\\', 'n']
    } else if c == '\r' {
        seq!['\\', 'r']
    } else if u < 16 {
        seq!['\\', 'u', '{', hex_digit(u), '}']
    } else if u < 32 || u == 127 {
        seq!['\\', 'u', '{', hex_digit(u / 16), hex_digit(u % 16), '}']
    } else {
        seq![c]
    }
}

/// The escaped characters of `s`, without the quotes.
pub open spec fn debug_chars(s: Seq<char>) -> Seq<char>
    decreases s.len(),
{
    if s.len() == 0 {
        Seq::empty()
    } else {
        debug_chars(s.drop_last()) + debug_char(s.last())
    }
}

/// What the derived `Debug` of a position writes for these fields.
pub open spec fn position_debug(file: Seq<char>, line: i64, column: i64) -> Seq<char> {
    "Position { file: \""@ + debug_chars(file) + "\", line: "@ + signed_decimal(line as int) + ", column: "@
        + signed_decimal(column as int) + " }"@
}

/// Appends `debug_char(c)`.
fn push_debug_char(s: &mut String, c: char)
    ensures
        final(s)@ == old(s)@ + debug_char(c),
{
    let u = c as u32;
    if c == '"' {
        string_push_str(s, "\\\"");
        proof { reveal_strlit("\\\""); }
    } else if c == '\\' {
        string_push_str(s, "\\\\");
        proof { reveal_strlit("\\\\"); }
    } else if u == 0 {
        string_push_str(s, "\\0");
        proof { reveal_strlit("\\0"); }
    } else if c == '\t' {
        string_push_str(s, "\\t");
        proof { reveal_strlit("\\t"); }
    } else if c == '\n' {
        string_push_str(s, "\\n");
        proof { reveal_strlit("\\n"); }
    } else if c == '\r' {
        string_push_str(s, "\\r");
        proof { reveal_strlit("\\r"); }
    } else if u < 32 || u == 127 {
        string_push_str(s, "\\u{");
        proof { reveal_strlit("\\u{"); }
        if u >= 16 {
            string_push(s, hex_digit_exec(u / 16));
        }
        string_push(s, hex_digit_exec(u % 16));
        string_push(s, '}');
        proof {
            if u < 16 {
                assert(u % 16 == u);
            }
        }
    } else {
        string_push(s, c);
    }
    proof {
        assert(old(s)@ + debug_char(c) =~= s@);
    }
}

/// `hex_digit` as a character.
fn hex_digit_exec(d: u32) -> (r: char)
    requires
        d < 16,
    ensures
        r == hex_digit(d as int),
{
    if d < 10 {
        crate::strops::char_from_u32(('0' as u32) + d)
    } else {
        crate::strops::char_from_u32(('a' as u32) + d - 10)
    }
}

/// The derived `Debug` text of a position, written field by field.
fn debug_position(p: &Position) -> (r: String)
    ensures
        r@ == position_debug(p.file@, p.line, p.column),
{
    let mut s = owned("Position { file: \"");
    let v = chars_of(p.file.as_str());
    let mut i: usize = 0;
    while i < v.len()
        invariant
            i <= v@.len(),
            v@ == p.file@,
            s@ == "Position { file: \""@ + debug_chars(v@.take(i as int)),
        decreases v@.len() - i,
    {
        let ghost before = s@;
        push_debug_char(&mut s, v[i]);
        proof {
            assert(v@.take(i + 1).drop_last() =~= v@.take(i as int));
            assert(v@.take(i + 1).last() == v@[i as int]);
            assert(s@ =~= "Position { file: \""@ + debug_chars(v@.take(i + 1)));
        }
        i = i + 1;
    }
    proof {
        assert(v@.take(i as int) =~= p.file@);
    }
    string_push_str(&mut s, "\", line: ");
    push_signed_decimal(&mut s, p.line);
    string_push_str(&mut s, ", column: ");
    push_signed_decimal(&mut s, p.column);
    string_push_str(&mut s, " }");
    proof {
        assert(s@ =~= position_debug(p.file@, p.line, p.column));
    }
    s
}

/// The message of an error.
pub open spec fn error_text(e: TerminationError) -> Seq<char> {
    match e {
        TerminationError::NonTerminating { function, call } => "Function '"@ + function@
            + "' may not terminate. Recursive call at position "@ + position_debug(
            call.position.file@,
            call.position.line,
            call.position.column,
        ),
        TerminationError::IndirectRecursion { function } => "Function '"@ + function@ + "' has indirect recursion"@,
        TerminationError::MutualRecursion { functions } => "Mutual recursion detected: "@ + join_spec(
            functions@.map_values(|p: String| p@),
            " -> "@,
        ),
        TerminationError::UnknownFunction { name } => "Unknown function: "@ + name@,
        TerminationError::InfiniteRecursion { function, reason } => "Function '"@ + function@
            + "' has infinite recursion: "@ + reason@,
    }
}

impl TerminationError {
    /// The message of the error.
    pub fn to_string(&self) -> (r: String)
        ensures
            r@ == error_text(*self),
    {
        match self {
            TerminationError::NonTerminating { function, call } => {
                let mut s = owned("Function '");
                string_push_str(&mut s, function.as_str());
                string_push_str(&mut s, "' may not terminate. Recursive call at position ");
                let pos = debug_position(&call.position);
                string_push_str(&mut s, pos.as_str());
                s
            },
            TerminationError::IndirectRecursion { function } => {
                let mut s = owned("Function '");
                string_push_str(&mut s, function.as_str());
                string_push_str(&mut s, "' has indirect recursion");
                s
            },
            TerminationError::MutualRecursion { functions } => {
                let mut s = owned("Mutual recursion detected: ");
                let joined = join_strings(functions, " -> ");
                string_push_str(&mut s, joined.as_str());
                s
            },
            TerminationError::UnknownFunction { name } => {
                let mut s = owned("Unknown function: ");
                string_push_str(&mut s, name.as_str());
                s
            },
            TerminationError::InfiniteRecursion { function, reason } => {
                let mut s = owned("Function '");
                string_push_str(&mut s, function.as_str());
                string_push_str(&mut s, "' has infinite recursion: ");
                string_push_str(&mut s, reason.as_str());
                s
            },
        }
    }
}

/// What checking a function named `f` with this definition gives against
/// these edges: an indirect-recursion error when `f` lies on a cycle, the
/// status of its recursion otherwise.
pub open spec fn check_holds(
    r: Result<TerminationStatus, TerminationError>,
    g: Seq<(Seq<char>, Seq<char>)>,
    f: Seq<char>,
    def: FunctionDef,
) -> bool {
    match r {
        Err(e) => on_cycle(g, f) && (e matches TerminationError::IndirectRecursion { function } && function@ == f),
        Ok(st) => !on_cycle(g, f) && status_holds(st, def.body, f, def.params@),
    }
}

/// The graph after checking `f`: its edges kept, records of the calls of
/// `f` in `body` appended to those of `f`, other functions' records kept.
pub open spec fn graph_after_check(old_g: CallGraph, new_g: CallGraph, f: Seq<char>, body: Expression) -> bool {
    &&& new_g.edge_list() == old_g.edge_list()
    &&& appended(old_g.calls_of(f), new_g.calls_of(f), f, calls_in(body, f))
    &&& forall|n: Seq<char>| n != f ==> #[trigger] new_g.calls_of(n) == old_g.calls_of(n)
}

/// Checks one function: finds its recursive calls, records them in the
/// graph, reports indirect recursion, and otherwise classifies the
/// recursion.
fn check_function(graph: &mut CallGraph, name: &String, func: &FunctionDef) -> (r: Result<
    TerminationStatus,
    TerminationError,
>)
    ensures
        graph_after_check(*old(graph), *final(graph), name@, func.body),
        check_holds(r, old(graph).edge_list(), name@, *func),
{
    let mut recursive_calls = find_recursive_calls(&func.body, name);
    let ghost found = recursive_calls@;
    let ghost calls = calls_in(func.body, name@);
    let size_changes = analyze_size_changes(&recursive_calls);
    let decreasing = is_decreasing(&size_changes);
    let structural = is_structural_recursion(&recursive_calls, &func.params, &func.param_types);
    let no_calls = recursive_calls.len() == 0;
    proof {
        lemma_recorded_changes(found, name@, calls);
        lemma_recorded_structural(found, name@, calls, func.params@);
    }
    let ghost start = graph.calls_of(name@);
    let ghost old_graph = *graph;
    let n_found: usize = recursive_calls.len();
    let mut j: usize = 0;
    proof {
        assert(found.skip(0) =~= found);
        assert(start + found.take(0) =~= start);
    }
    while recursive_calls.len() > 0
        invariant
            n_found == found.len(),
            j + recursive_calls@.len() == n_found,
            recursive_calls@ == found.skip(j as int),
            graph.edge_list() == old_graph.edge_list(),
            graph.calls_of(name@) == start + found.take(j as int),
            forall|n: Seq<char>| n != name@ ==> #[trigger] graph.calls_of(n) == old_graph.calls_of(n),
        decreases recursive_calls@.len(),
    {
        let ghost before = recursive_calls@;
        let call = recursive_calls.remove(0);
        proof {
            assert(before[0] == found[j as int]);
            assert(call == found[j as int]);
            assert(recursive_calls@ =~= found.skip(j + 1));
            assert(found.take(j + 1) =~= found.take(j as int).push(call));
        }
        graph.add_recursive_call(name, call);
        proof {
            assert(graph.calls_of(name@) =~= start + found.take(j + 1));
        }
        j = j + 1;
    }
    proof {
        assert(found.take(j as int) =~= found);
        let new_calls = graph.calls_of(name@);
        assert(new_calls.take(start.len() as int) =~= start);
        assert(new_calls.skip(start.len() as int) =~= found);
    }
    if check_indirect_recursion(graph, name) {
        return Err(TerminationError::IndirectRecursion { function: name.clone() });
    }
    if no_calls {
        return Ok(TerminationStatus::Proved);
    }
    if decreasing {
        Ok(TerminationStatus::SizeChange(size_changes))
    } else if structural {
        Ok(TerminationStatus::StructuralRecursion)
    } else {
        Ok(TerminationStatus::NonTerminating)
    }
}

/// Names of the entries, in order.
pub open spec fn keys_distinct(t: Seq<(String, FunctionDef)>) -> bool {
    forall|a: int, b: int| 0 <= a < b < t.len() ==> t[a].0@ != t[b].0@
}

/// The names, in table order, of the functions that lie on a cycle.
pub open spec fn cyclic_names(t: Seq<(String, FunctionDef)>, g: Seq<(Seq<char>, Seq<char>)>) -> Seq<Seq<char>>
    decreases t.len(),
{
    if t.len() == 0 {
        Seq::empty()
    } else {
        cyclic_names(t.drop_last(), g) + if on_cycle(g, t.last().0@) {
            seq![t.last().0@]
        } else {
            Seq::empty()
        }
    }
}

/// The calls of `n` in its body when `n` is among the first `i` entries,
/// none otherwise.
pub open spec fn checked_calls(t: Seq<(String, FunctionDef)>, i: int, n: Seq<char>) -> Seq<Seq<Expression>> {
    if exists|j: int| 0 <= j < i && #[trigger] t[j].0@ == n {
        let j = choose|j: int| 0 <= j < i && #[trigger] t[j].0@ == n;
        calls_in(t[j].1.body, n)
    } else {
        Seq::empty()
    }
}

/// Checks functions for termination.
pub struct TerminationChecker {
    functions: Vec<(String, FunctionDef)>,
    current_function: Option<String>,
    call_graph: CallGraph,
    recursion_depth: i64,
    max_recursion_depth: i64,
}

impl TerminationChecker {
    /// No two registered functions share a name.
    pub closed spec fn wf(&self) -> bool {
        keys_distinct(self.functions@)
    }

    /// The registered functions, by name, in registration order.
    pub closed spec fn table(&self) -> Seq<(String, FunctionDef)> {
        self.functions@
    }

    /// The function registered under `n`.
    pub open spec fn function(&self, n: Seq<char>) -> Option<FunctionDef> {
        assoc_lookup(self.table(), n)
    }

    /// The call graph.
    pub closed spec fn graph(&self) -> CallGraph {
        self.call_graph
    }

    /// The function being checked last.
    pub closed spec fn current(&self) -> Option<Seq<char>> {
        match self.current_function {
            Some(s) => Some(s@),
            None => None,
        }
    }

    /// The recursion depth limit.
    pub closed spec fn depth_limit(&self) -> i64 {
        self.max_recursion_depth
    }

    /// No functions, an empty graph, nothing checked yet, a depth limit of
    /// 1000.
    pub fn new() -> (r: TerminationChecker)
        ensures
            r.table() == Seq::<(String, FunctionDef)>::empty(),
            r.graph().edge_list() == Seq::<(Seq<char>, Seq<char>)>::empty(),
            forall|n: Seq<char>| #[trigger] r.graph().calls_of(n) == Seq::<RecursiveCall>::empty(),
            r.current() is None,
            r.depth_limit() == 1000,
            r.wf(),
    {
        TerminationChecker {
            functions: Vec::new(),
            current_function: None,
            call_graph: CallGraph::new(),
            recursion_depth: 0,
            max_recursion_depth: 1000,
        }
    }

    /// Registers a function under its name, replacing one of the same name.
    pub fn register_function(&mut self, func: FunctionDef)
        requires
            old(self).wf(),
        ensures
            final(self).wf(),
            forall|n: Seq<char>| #[trigger] final(self).function(n) == if n == func.name@ {
                Some(func)
            } else {
                old(self).function(n)
            },
            final(self).graph() == old(self).graph(),
            final(self).current() == old(self).current(),
    {
        let ghost old_t = self.functions@;
        let ghost f = func;
        match assoc_find(&self.functions, &func.name) {
            Some(i) => {
                self.functions.set(i, (self.functions[i].0.clone(), func));
                proof {
                    let t = self.functions@;
                    assert(t[i as int].0@ == old_t[i as int].0@);
                    assert forall|n: Seq<char>| #[trigger] assoc_lookup(t, n) == if n == f.name@ {
                        Some(f)
                    } else {
                        assoc_lookup(old_t, n)
                    } by {
                        lemma_assoc_update(old_t, i as int, f, n);
                        lemma_lookup_same_keys(t, old_t.update(i as int, (old_t[i as int].0, f)), n);
                    }
                }
            },
            None => {
                let key = func.name.clone();
                self.functions.push((key, func));
                proof {
                    assert forall|n: Seq<char>| #[trigger] assoc_lookup(self.functions@, n) == if n == f.name@ {
                        Some(f)
                    } else {
                        assoc_lookup(old_t, n)
                    } by {
                        lemma_assoc_push(old_t, (key, f), n);
                    }
                }
            },
        }
    }

    /// Checks every registered function in table order, and returns an
    /// indirect-recursion error for each that lies on a cycle of the graph.
    pub fn check_all(&mut self) -> (r: Vec<TerminationError>)
        requires
            old(self).wf(),
        ensures
            final(self).wf(),
            final(self).table() == old(self).table(),
            final(self).graph().edge_list() == old(self).graph().edge_list(),
            forall|n: Seq<char>|
                appended(
                    old(self).graph().calls_of(n),
                    #[trigger] final(self).graph().calls_of(n),
                    n,
                    match old(self).function(n) {
                        Some(f) => calls_in(f.body, n),
                        None => Seq::empty(),
                    },
                ),
            final(self).current() == if old(self).table().len() == 0 {
                old(self).current()
            } else {
                Some(old(self).table().last().0@)
            },
            r@.len() == cyclic_names(old(self).table(), old(self).graph().edge_list()).len(),
            forall|k: int|
                0 <= k < r@.len() ==> (#[trigger] r@[k] matches TerminationError::IndirectRecursion { function }
                    && function@ == cyclic_names(old(self).table(), old(self).graph().edge_list())[k]),
    {
        let ghost t = self.functions@;
        let ghost g0 = self.call_graph;
        let ghost g = g0.edge_list();
        let mut errors: Vec<TerminationError> = Vec::new();
        let mut i: usize = 0;
        proof {
            assert forall|n: Seq<char>| appended(g0.calls_of(n), #[trigger] self.call_graph.calls_of(n), n, checked_calls(t, 0, n)) by {
                lemma_appended_none(g0.calls_of(n), n);
            }
        }
        while i < self.functions.len()
            invariant
                self.functions@ == t,
                keys_distinct(t),
                i <= t.len(),
                self.call_graph.edge_list() == g,
                forall|n: Seq<char>| appended(g0.calls_of(n), #[trigger] self.call_graph.calls_of(n), n, checked_calls(t, i as int, n)),
                self.current() == if i == 0 { old(self).current() } else { Some(t[i - 1].0@) },
                errors@.len() == cyclic_names(t.take(i as int), g).len(),
                forall|k: int|
                    0 <= k < errors@.len() ==> (#[trigger] errors@[k] matches TerminationError::IndirectRecursion { function }
                        && function@ == cyclic_names(t.take(i as int), g)[k]),
            decreases t.len() - i,
        {
            self.current_function = Some(self.functions[i].0.clone());
            let ghost before = self.call_graph;
            let result = check_function(&mut self.call_graph, &self.functions[i].0, &self.functions[i].1);
            let ghost key = t[i as int].0@;
            proof {
                assert(t.take(i + 1).drop_last() =~= t.take(i as int));
                assert(t.take(i + 1).last() == t[i as int]);
                assert forall|n: Seq<char>| appended(g0.calls_of(n), #[trigger] self.call_graph.calls_of(n), n, checked_calls(t, i + 1, n)) by {
                    if n == key {
                        assert(!exists|j: int| 0 <= j < i && #[trigger] t[j].0@ == n);
                        assert(checked_calls(t, i as int, n) == Seq::<Seq<Expression>>::empty());
                        assert(t[i as int].0@ == n);
                        assert(checked_calls(t, i + 1, n) == calls_in(t[i as int].1.body, n));
                        lemma_appended_trans(g0.calls_of(n), before.calls_of(n), self.call_graph.calls_of(n), n,
                            Seq::empty(), calls_in(t[i as int].1.body, n));
                        assert(Seq::<Seq<Expression>>::empty() + calls_in(t[i as int].1.body, n) =~= calls_in(t[i as int].1.body, n));
                    } else {
                        if exists|j: int| 0 <= j < i + 1 && #[trigger] t[j].0@ == n {
                            let j = choose|j: int| 0 <= j < i + 1 && #[trigger] t[j].0@ == n;
                            assert(j < i);
                        }
                        assert(checked_calls(t, i + 1, n) == checked_calls(t, i as int, n));
                    }
                }
            }
            match result {
                Err(e) => {
                    errors.push(e);
                    proof {
                        assert(cyclic_names(t.take(i + 1), g) =~= cyclic_names(t.take(i as int), g).push(key));
                    }
                },
                Ok(_) => {
                    proof {
                        assert(cyclic_names(t.take(i + 1), g) =~= cyclic_names(t.take(i as int), g));
                    }
                },
            }
            i = i + 1;
        }
        proof {
            assert(t.take(t.len() as int) =~= t);
            assert forall|n: Seq<char>| appended(
                g0.calls_of(n),
                #[trigger] self.call_graph.calls_of(n),
                n,
                match old(self).function(n) {
                    Some(f) => calls_in(f.body, n),
                    None => Seq::empty(),
                },
            ) by {
                if exists|j: int| 0 <= j < t.len() && #[trigger] t[j].0@ == n {
                    let j = choose|j: int| 0 <= j < t.len() && #[trigger] t[j].0@ == n;
                    lemma_assoc_found(t, j);
                } else {
                    lemma_assoc_absent(t, n);
                }
            }
        }
        errors
    }

    /// Checks the function registered under `func_name`, or reports it
    /// unknown.
    pub fn prove_termination(&mut self, func_name: &String) -> (r: Result<TerminationStatus, TerminationError>)
        requires
            old(self).wf(),
        ensures
            final(self).wf(),
            final(self).table() == old(self).table(),
            final(self).current() == old(self).current(),
            match old(self).function(func_name@) {
                None => final(self).graph() == old(self).graph() && (r matches Err(
                    TerminationError::UnknownFunction { name },
                ) && name@ == func_name@),
                Some(f) => graph_after_check(old(self).graph(), final(self).graph(), func_name@, f.body)
                    && check_holds(r, old(self).graph().edge_list(), func_name@, f),
            },
    {
        let ghost t = self.functions@;
        match assoc_find(&self.functions, func_name) {
            Some(i) => {
                proof {
                    lemma_assoc_found(t, i as int);
                }
                check_function(&mut self.call_graph, func_name, &self.functions[i].1)
            },
            None => {
                proof {
                    lemma_assoc_absent(t, func_name@);
                }
                Err(TerminationError::UnknownFunction { name: func_name.clone() })
            },
        }
    }
}

/// Lookups depend on the names of the entries and their values alone.
proof fn lemma_lookup_same_keys(a: Seq<(String, FunctionDef)>, b: Seq<(String, FunctionDef)>, n: Seq<char>)
    requires
        a.len() == b.len(),
        forall|i: int| 0 <= i < a.len() ==> #[trigger] a[i].0@ == b[i].0@ && a[i].1 == b[i].1,
    ensures
        assoc_lookup(a, n) == assoc_lookup(b, n),
    decreases a.len(),
{
    if a.len() > 0 {
        assert(a[0].0@ == b[0].0@);
        lemma_lookup_same_keys(a.drop_first(), b.drop_first(), n);
    }
}

} // verus!
