use chim_compiler::termination::{
    BinOp, CallGraph, Expression, FunctionDef, FunctionReport, Literal, MatchArm, Pattern, Position,
    SizeChange, TerminationChecker, TerminationError, TerminationReport, TerminationStatus, Type,
    TypeKind,
};

fn int_type() -> Type {
    Type { kind: TypeKind::Int(None), size: None }
}

fn pos() -> Position {
    Position { file: String::new(), line: 0, column: 0 }
}

fn var(name: &str) -> Expression {
    Expression::Variable(name.to_string())
}

fn lit_int(k: i128) -> Expression {
    Expression::Literal(Literal::Int(k))
}

fn call(name: &str, args: Vec<Expression>) -> Expression {
    Expression::Call(name.to_string(), args)
}

fn bin(op: BinOp, l: Expression, r: Expression) -> Expression {
    Expression::BinOp(op, Box::new(l), Box::new(r))
}

fn def(name: &str, params: &[&str], body: Expression) -> FunctionDef {
    FunctionDef {
        name: name.to_string(),
        params: params.iter().map(|p| p.to_string()).collect(),
        param_types: params.iter().map(|_| int_type()).collect(),
        return_type: int_type(),
        body,
        termination: TerminationStatus::Unknown,
        is_recursive: false,
        calls_self: Vec::new(),
        position: pos(),
    }
}

fn check(f: FunctionDef) -> Result<TerminationStatus, TerminationError> {
    let name = f.name.clone();
    let mut checker = TerminationChecker::new();
    checker.register_function(f);
    checker.prove_termination(&name)
}

#[test]
fn factorial_decreases() {
    // fact(n) = if n == 0 { 1 } else { n * fact(n - 1) }
    let body = Expression::If(
        Box::new(bin(BinOp::Eq, var("n"), lit_int(0))),
        Box::new(lit_int(1)),
        Some(Box::new(bin(BinOp::Mul, var("n"), call("fact", vec![bin(BinOp::Sub, var("n"), lit_int(1))])))),
    );
    let st = check(def("fact", &["n"], body)).unwrap();
    assert_eq!(st, TerminationStatus::SizeChange(vec![SizeChange::Decreased]));
    assert_eq!(st.to_string(), "📉 Decreasing ([Decreased])");
}

#[test]
fn halving_decreases() {
    let body = call("half", vec![bin(BinOp::Div, var("n"), lit_int(2))]);
    let st = check(def("half", &["n"], body)).unwrap();
    assert_eq!(st, TerminationStatus::SizeChange(vec![SizeChange::Decreased]));
}

#[test]
fn no_recursion_is_proved() {
    let body = bin(BinOp::Add, var("x"), call("other", vec![var("x")]));
    let st = check(def("g", &["x"], body)).unwrap();
    assert_eq!(st, TerminationStatus::Proved);
    assert_eq!(st.to_string(), "✅ Terminating");
}

#[test]
fn field_of_parameter_is_structural() {
    // len(xs) = match xs { _ => 1 + len(xs.tail) }
    let arm = MatchArm {
        pattern: Pattern::Wildcard,
        body: bin(
            BinOp::Add,
            lit_int(1),
            call("len", vec![Expression::FieldAccess(Box::new(var("xs")), "tail".to_string())]),
        ),
    };
    let body = Expression::Match(Box::new(var("xs")), vec![arm]);
    let st = check(def("len", &["xs"], body)).unwrap();
    assert_eq!(st, TerminationStatus::StructuralRecursion);
    assert_eq!(st.to_string(), "🔀 Structural");
}

#[test]
fn cons_tail_is_structural() {
    let arg = Expression::Constructor("Cons".to_string(), vec![var("h"), var("xs")]);
    let st = check(def("walk", &["xs"], call("walk", vec![arg]))).unwrap();
    assert_eq!(st, TerminationStatus::StructuralRecursion);
}

#[test]
fn growing_argument_does_not_terminate() {
    let body = call("up", vec![bin(BinOp::Add, var("n"), lit_int(1))]);
    let st = check(def("up", &["n"], body)).unwrap();
    assert_eq!(st, TerminationStatus::NonTerminating);
    assert_eq!(st.to_string(), "❌ Non-terminating");
}

#[test]
fn mixed_changes_over_two_calls() {
    // f(n) = f(n - 1) + f(n + 1): first arguments Decreased, Unknown
    let body = bin(
        BinOp::Add,
        call("f", vec![bin(BinOp::Sub, var("n"), lit_int(1))]),
        call("f", vec![bin(BinOp::Add, var("n"), lit_int(1))]),
    );
    let st = check(def("f", &["n"], body)).unwrap();
    assert_eq!(st, TerminationStatus::NonTerminating);
}

#[test]
fn calls_inside_arguments_are_found() {
    // f(n) = f(f(n - 1) - 1)
    let inner = call("f", vec![bin(BinOp::Sub, var("n"), lit_int(1))]);
    let body = call("f", vec![bin(BinOp::Sub, inner, lit_int(1))]);
    let st = check(def("f", &["n"], body)).unwrap();
    // the outer argument is not `variable - literal`, so it is unknown
    assert_eq!(st, TerminationStatus::NonTerminating);
}

#[test]
fn unknown_function_is_reported() {
    let mut checker = TerminationChecker::new();
    let e = checker.prove_termination(&"missing".to_string()).unwrap_err();
    assert!(matches!(e, TerminationError::UnknownFunction { ref name } if name == "missing"));
    assert_eq!(e.to_string(), "Unknown function: missing");
}

#[test]
fn check_all_without_edges_reports_nothing() {
    let mut checker = TerminationChecker::new();
    checker.register_function(def("up", &["n"], call("up", vec![var("n")])));
    checker.register_function(def("g", &["x"], var("x")));
    assert!(checker.check_all().is_empty());
}

#[test]
fn register_replaces_same_name() {
    let mut checker = TerminationChecker::new();
    checker.register_function(def("f", &["n"], call("f", vec![bin(BinOp::Add, var("n"), lit_int(1))])));
    checker.register_function(def("f", &["n"], var("n")));
    assert_eq!(checker.prove_termination(&"f".to_string()).unwrap(), TerminationStatus::Proved);
}

#[test]
fn call_graph_edges_can_be_added() {
    let mut g = CallGraph::new();
    g.add_edge(&"a".to_string(), &"b".to_string());
    g.add_edge(&"a".to_string(), &"a".to_string());
}

#[test]
fn status_texts() {
    assert_eq!(TerminationStatus::Proving.to_string(), "⏳ Proving");
    assert_eq!(TerminationStatus::Unknown.to_string(), "❓ Unknown");
    assert_eq!(
        TerminationStatus::SizeChange(vec![SizeChange::Decreased, SizeChange::Unknown]).to_string(),
        "📉 Decreasing ([Decreased, Unknown])"
    );
    assert_eq!(TerminationStatus::SizeChange(vec![]).to_string(), "📉 Decreasing ([])");
    assert_eq!(TerminationStatus::default(), TerminationStatus::Unknown);
}

#[test]
fn error_texts() {
    let e = TerminationError::IndirectRecursion { function: "f".to_string() };
    assert_eq!(e.to_string(), "Function 'f' has indirect recursion");
    let e = TerminationError::MutualRecursion { functions: vec!["a".to_string(), "b".to_string(), "a".to_string()] };
    assert_eq!(e.to_string(), "Mutual recursion detected: a -> b -> a");
    let e = TerminationError::InfiniteRecursion { function: "f".to_string(), reason: "no base case".to_string() };
    assert_eq!(e.to_string(), "Function 'f' has infinite recursion: no base case");
    let call = chim_compiler::termination::RecursiveCall {
        callee: "f".to_string(),
        args: vec![],
        position: Position { file: "a.chim".to_string(), line: 3, column: 4 },
        is_tail_call: false,
    };
    let e = TerminationError::NonTerminating { function: "f".to_string(), call };
    assert_eq!(
        e.to_string(),
        "Function 'f' may not terminate. Recursive call at position Position { file: \"a.chim\", line: 3, column: 4 }"
    );
}

#[test]
fn report_text() {
    let mut report = TerminationReport::new();
    let mut ok = FunctionReport::new("fact".to_string());
    ok.status = TerminationStatus::SizeChange(vec![SizeChange::Decreased]);
    ok.size_changes = Some(vec![SizeChange::Decreased]);
    report.add_function(ok);
    let mut bad = FunctionReport::new("loop".to_string());
    bad.is_terminating = false;
    bad.status = TerminationStatus::NonTerminating;
    bad.errors.push("calls itself unchanged".to_string());
    report.add_function(bad);
    assert_eq!(report.total_errors, 1);
    let expected = "=== Termination Analysis Report ===\n\n\
Function: fact\n  Status: 📉 Decreasing ([Decreased])\n  Size changes: [Decreased]\n\n\
Function: loop\n  Status: ❌ Non-terminating\n  Errors:\n    - calls itself unchanged\n\n\
Total non-terminating functions: 1\n";
    assert_eq!(report.report(), expected);
}

#[test]
fn function_report_defaults() {
    let r = FunctionReport::new("f".to_string());
    assert!(r.is_terminating);
    assert_eq!(r.status, TerminationStatus::Unknown);
    assert!(r.size_changes.is_none());
    assert!(r.errors.is_empty());
}

#[test]
fn expression_clone_is_equal() {
    let e = Expression::Block(vec![], Some(Box::new(call("f", vec![var("x"), lit_int(3)]))));
    assert_eq!(e.clone(), e);
}

#[test]
fn position_text_matches_derived_debug() {
    for file in ["plain.chim", "q\"uote", "back\\slash", "tab\tnl\ncr\r", "nul\0bell\u{7}esc\u{1b}del\u{7f}", "caf\u{e9}"] {
        for (line, column) in [(0i64, 0i64), (-5, 12), (i64::MIN, i64::MAX)] {
            let position = Position { file: file.to_string(), line, column };
            let call = chim_compiler::termination::RecursiveCall {
                callee: "f".to_string(),
                args: vec![],
                position: position.clone(),
                is_tail_call: false,
            };
            let e = TerminationError::NonTerminating { function: "f".to_string(), call };
            let expected = format!("Function 'f' may not terminate. Recursive call at position {:?}", position);
            assert_eq!(e.to_string(), expected);
        }
    }
}
