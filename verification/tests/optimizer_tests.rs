use chim_compiler::optimizer::{
    AlgebraicSimplifier, CommonSubexprEliminator, ConstantPropagator, DeadCodeEliminator, FullMem2Reg,
    Function, FunctionInliner, Instruction, LoopUnroller, Mem2Reg, Module, Optimizer, Vectorizer, GVN, SCCP,
};

fn s(x: &str) -> String {
    x.to_string()
}

fn add(d: &str, l: &str, r: &str) -> Instruction {
    Instruction::Add { dest: s(d), left: s(l), right: s(r) }
}

fn sub(d: &str, l: &str, r: &str) -> Instruction {
    Instruction::Sub { dest: s(d), left: s(l), right: s(r) }
}

fn mul(d: &str, l: &str, r: &str) -> Instruction {
    Instruction::Mul { dest: s(d), left: s(l), right: s(r) }
}

fn div(d: &str, l: &str, r: &str) -> Instruction {
    Instruction::Div { dest: s(d), left: s(l), right: s(r) }
}

fn store(d: &str, src: &str) -> Instruction {
    Instruction::Store { dest: s(d), src: s(src) }
}

fn load(d: &str, src: &str) -> Instruction {
    Instruction::Load { dest: s(d), src: s(src) }
}

fn alloca(d: &str) -> Instruction {
    Instruction::Alloca { dest: s(d), ty: s("i32") }
}

fn ret(v: &str) -> Instruction {
    Instruction::Return(Some(s(v)))
}

fn label(l: &str) -> Instruction {
    Instruction::Label(s(l))
}

fn func(name: &str, params: &[&str], body: Vec<Instruction>) -> Function {
    Function {
        name: s(name),
        params: params.iter().map(|p| (p.to_string(), s("i32"))).collect(),
        body,
        is_kernel: false,
    }
}

#[test]
fn constant_propagation_folds_known_values() {
    let body = vec![
        store("a", "const.i32.6"),
        store("b", "const.i32.7"),
        mul("c", "a", "b"),
        add("d", "c", "x"),
        div("e", "a", "const.i32.0"),
        load("f", "const.i32.3"),
        ret("d"),
    ];
    let f = func("f", &[], body);
    let mut cp = ConstantPropagator::new();
    cp.analyze_function(&f);
    assert_eq!(cp.extract_constant("c"), Some(42));
    assert_eq!(cp.extract_constant("d"), None);
    assert_eq!(cp.extract_constant("const.i32.-5"), Some(-5));
    assert_eq!(cp.extract_constant("const.i32.x"), None);
    let out = cp.optimize(&f.body);
    assert_eq!(
        out,
        vec![
            store("a", "const.i32.6"),
            store("b", "const.i32.7"),
            store("c", "const.i32.42"),
            add("d", "c", "x"),
            div("e", "a", "const.i32.0"),
            ret("d"),
        ]
    );
}

#[test]
fn constant_folding_wraps_and_truncates() {
    let body = vec![
        store("a", "const.i32.9223372036854775807"),
        add("b", "a", "const.i32.1"),
        div("c", "const.i32.-7", "const.i32.2"),
    ];
    let f = func("f", &[], body);
    let mut cp = ConstantPropagator::new();
    cp.analyze_function(&f);
    assert_eq!(cp.extract_constant("b"), Some(i64::MIN));
    assert_eq!(cp.extract_constant("c"), Some(-3));
    cp.reset();
    assert_eq!(cp.extract_constant("a"), None);
}

#[test]
fn algebraic_identities() {
    let simp = AlgebraicSimplifier::new();
    let out = simp.simplify(&[
        add("a", "x", "const.i32.0"),
        add("b", "const.i64.0", "y"),
        sub("c", "x", "const.i32.0"),
        mul("d", "x", "const.i32.0"),
        mul("e", "const.i32.1", "y"),
        div("f", "x", "const.i64.1"),
        div("g", "x", "const.i32.2"),
    ]);
    assert_eq!(
        out,
        vec![
            store("a", "x"),
            store("b", "y"),
            store("c", "x"),
            store("d", "const.i32.0"),
            store("e", "y"),
            store("f", "x"),
            div("g", "x", "const.i32.2"),
        ]
    );
}

#[test]
fn dead_code_elimination_keeps_used_and_effects() {
    let mut dce = DeadCodeEliminator::new();
    let out = dce.eliminate(&[
        alloca("unused"),
        add("t", "a", "b"),
        add("dead", "a", "b"),
        Instruction::Call { dest: None, func: s("print"), args: vec![s("t")] },
        Instruction::Eq { dest: s("cmp"), left: s("a"), right: s("b") },
        ret("a"),
    ]);
    assert_eq!(
        out,
        vec![
            add("t", "a", "b"),
            Instruction::Call { dest: None, func: s("print"), args: vec![s("t")] },
            Instruction::Eq { dest: s("cmp"), left: s("a"), right: s("b") },
            ret("a"),
        ]
    );
}

#[test]
fn common_subexpressions_reused_until_overwritten() {
    let mut cse = CommonSubexprEliminator::new();
    let out = cse.eliminate(&[
        add("t1", "a", "b"),
        add("t2", "a", "b"),
        store("t1", "z"),
        add("t3", "a", "b"),
        mul("m1", "a", "b"),
    ]);
    assert_eq!(
        out,
        vec![add("t1", "a", "b"), store("t2", "t1"), store("t1", "z"), add("t3", "a", "b"), mul("m1", "a", "b")]
    );
}

#[test]
fn value_numbering_reuses_numbers() {
    let mut gvn = GVN::new();
    let out = gvn.eliminate(&[
        add("x", "a", "const.i32.1"),
        add("y", "a", "const.i64.1"),
        sub("z", "a", "b"),
        sub("w", "a", "b"),
    ]);
    assert_eq!(out, vec![add("x", "a", "const.i32.1"), store("y", "x"), sub("z", "a", "b"), store("w", "z")]);
}

#[test]
fn mem2reg_promotes_single_store() {
    let mut m = Mem2Reg::new();
    let mut f = func("f", &[], vec![alloca("x"), store("x", "v"), load("y", "x"), ret("y")]);
    let changed = m.promote(&mut f);
    assert!(changed);
    assert_eq!(f.body, vec![store("y", "v"), ret("y")]);
}

#[test]
fn sccp_folds_known_sums() {
    let mut sccp = SCCP::new();
    let f = func(
        "f",
        &[],
        vec![label("entry"), store("a", "const.i32.1"), add("b", "a", "a"), Instruction::Br(s("next")), label("next"), ret("b")],
    );
    let out = sccp.run(&f);
    assert_eq!(
        out,
        vec![label("entry"), store("a", "const.i32.1"), store("b", "const.i32.2"), Instruction::Br(s("next")), label("next"), ret("b")]
    );
}

#[test]
fn inliner_replaces_known_calls() {
    let mut inl = FunctionInliner::new();
    inl.register_function(func("sq", &["p"], vec![mul("r", "p", "p"), ret("r")]));
    let out = inl.inline_calls(&[Instruction::Call { dest: Some(s("y")), func: s("sq"), args: vec![s("x")] }]);
    assert_eq!(out, vec![mul("r.inline.0", "x", "x"), store("y", "r.inline.0")]);
    let again = inl.inline_calls(&[Instruction::Call { dest: Some(s("z")), func: s("sq"), args: vec![s("w")] }]);
    assert_eq!(again, vec![mul("r.inline.1", "w", "w"), store("z", "r.inline.1")]);
    let other = inl.inline_calls(&[Instruction::Call { dest: None, func: s("other"), args: vec![] }]);
    assert_eq!(other, vec![Instruction::Call { dest: None, func: s("other"), args: vec![] }]);
}

#[test]
fn inliner_call_counts_and_hot_functions() {
    let mut inl = FunctionInliner::new();
    for _ in 0..5 {
        inl.record_call("f");
    }
    assert_eq!(inl.get_call_count("f"), 5);
    assert!(!inl.is_hot("f"));
    inl.record_call("f");
    assert!(inl.is_hot("f"));
    assert_eq!(inl.get_call_count("g"), 0);
    inl.mark_hot_function("g");
    assert!(inl.is_hot("g"));
    inl.enable_aggressive_inlining();
}

#[test]
fn inliner_analyzes_module() {
    let mut inl = FunctionInliner::new();
    let small = func("small", &["a"], vec![add("r", "a", "const.i32.1"), ret("r")]);
    let mut kernel = func("k", &[], vec![ret("x")]);
    kernel.is_kernel = true;
    let module = Module { functions: vec![small, kernel] };
    inl.analyze_module(&module);
    let out = inl.inline_calls(&[Instruction::Call { dest: Some(s("y")), func: s("k"), args: vec![] }]);
    assert_eq!(out, vec![Instruction::Call { dest: Some(s("y")), func: s("k"), args: vec![] }]);
    let out = inl.inline_calls(&[Instruction::Call { dest: Some(s("y")), func: s("small"), args: vec![s("q")] }]);
    assert_eq!(out, vec![add("r.inline.0", "q", "const.i32.1"), store("y", "r.inline.0")]);
}

#[test]
fn loop_unroller_doubles_small_loops() {
    let mut u = LoopUnroller::new();
    let mut f = func(
        "f",
        &[],
        vec![
            label("head"),
            Instruction::CondBr { cond: s("c"), true_bb: s("body"), false_bb: s("exit") },
            add("i", "i", "const.i32.1"),
            label("exit"),
        ],
    );
    assert!(u.unroll(&mut f));
    // each position tried finds the loop again in the copies made before it
    assert_eq!(f.body.len(), 3004);
    assert_eq!(f.body[0], label("head"));
    assert_eq!(f.body[2], add("i.u", "i", "const.i32.1"));
    assert_eq!(f.body[3], label("head"));
    assert_eq!(f.body[5], add("i.u.u.u.u", "i", "const.i32.1"));
    assert_eq!(f.body[3003], label("exit"));
    let mut g = func("g", &[], vec![label("a"), add("i", "i", "const.i32.1"), label("b")]);
    assert!(!u.unroll(&mut g));
}

#[test]
fn vectorizer_detects_and_keeps_body() {
    let mut v = Vectorizer::new();
    let body = vec![load("a", "p"), load("b", "q"), mul("c", "a", "b"), mul("d", "c", "c"), store("r", "d"), store("s", "c")];
    let mut f = func("f", &[], body.clone());
    assert!(v.vectorize(&mut f));
    assert_eq!(f.body, body);
    let mut g = func("g", &[], vec![load("a", "p"), mul("c", "a", "a")]);
    assert!(!v.vectorize(&mut g));
}

#[test]
fn full_mem2reg_removes_dead_slots() {
    let mut m = FullMem2Reg::new();
    let mut f = func("f", &[], vec![alloca("dead"), store("dead", "v"), alloca("live"), load("x", "live"), ret("x")]);
    assert!(m.promote(&mut f));
    assert_eq!(f.body, vec![store("dead", "v"), alloca("live"), load("x", "live"), ret("x")]);
    let mut g = func("g", &[], vec![alloca("live"), load("x", "live")]);
    assert!(!m.promote(&mut g));
}

#[test]
fn optimizer_level_one_folds_and_cleans() {
    let mut opt = Optimizer::new(1);
    let mut f = func(
        "f",
        &[],
        vec![store("a", "const.i32.2"), add("b", "a", "const.i32.0"), mul("c", "a", "const.i32.3"), ret("c")],
    );
    assert!(opt.optimize_function(&mut f));
    assert_eq!(f.body, vec![store("a", "const.i32.2"), store("c", "const.i32.6"), ret("c")]);
}

#[test]
fn optimizer_level_zero_leaves_module() {
    let mut opt = Optimizer::new(0);
    let mut m = Module { functions: vec![func("f", &[], vec![add("a", "x", "const.i32.0"), ret("a")])] };
    opt.optimize_module(&mut m);
    assert_eq!(m.functions[0].body, vec![add("a", "x", "const.i32.0"), ret("a")]);
    let d = Optimizer::default();
    assert_eq!(d.opt_level, 1);
}

#[test]
fn optimizer_level_two_runs_pipeline() {
    let mut opt = Optimizer::new(2);
    let mut m = Module {
        functions: vec![func("f", &["x"], vec![add("a", "x", "x"), add("b", "x", "x"), add("c", "a", "b"), ret("c")])],
    };
    opt.optimize_module(&mut m);
    assert_eq!(m.functions[0].body, vec![add("a", "x", "x"), store("b", "a"), add("c", "a", "b"), ret("c")]);
}

#[test]
fn cse_forgets_expressions_over_a_rewritten_operand() {
    let mut cse = CommonSubexprEliminator::new();
    let insts = vec![add("t1", "a", "b"), store("a", "const.i32.5"), add("t2", "a", "b")];
    assert_eq!(cse.eliminate(&insts), insts);
}

#[test]
fn cse_does_not_remember_a_self_overwrite() {
    let mut cse = CommonSubexprEliminator::new();
    let insts = vec![add("a", "a", "b"), add("t", "a", "b")];
    assert_eq!(cse.eliminate(&insts), insts);
}

#[test]
fn gvn_reuses_the_earlier_variable() {
    let mut g = GVN::new();
    let out = g.eliminate(&[add("t1", "a", "b"), add("t2", "a", "b")]);
    assert_eq!(out, vec![add("t1", "a", "b"), store("t2", "t1")]);
}

#[test]
fn gvn_forgets_after_a_write() {
    let mut g = GVN::new();
    let insts = vec![add("t1", "a", "b"), store("t1", "z"), add("t2", "a", "b"), load("a", "p"), add("t3", "a", "b")];
    assert_eq!(g.eliminate(&insts), insts);
}

#[test]
fn dce_counts_store_sources_and_conditions_as_uses() {
    let mut d = DeadCodeEliminator::new();
    let insts = vec![store("x", "const.i32.1"), store("y", "x"), ret("y")];
    assert_eq!(d.eliminate(&insts), insts);
    let branch = vec![
        store("c", "const.i32.1"),
        Instruction::CondBr { cond: s("c"), true_bb: s("t"), false_bb: s("f") },
        label("t"),
        store("dead", "c"),
    ];
    assert_eq!(
        d.eliminate(&branch),
        vec![
            store("c", "const.i32.1"),
            Instruction::CondBr { cond: s("c"), true_bb: s("t"), false_bb: s("f") },
            label("t"),
        ]
    );
}

#[test]
fn sccp_propagates_stored_constants() {
    let mut sccp = SCCP::new();
    let f = func(
        "f",
        &[],
        vec![store("a", "const.i32.2"), store("b", "const.i32.3"), add("c", "a", "b")],
    );
    let out = sccp.run(&f);
    assert_eq!(out, vec![store("a", "const.i32.2"), store("b", "const.i32.3"), store("c", "const.i32.5")]);
    assert_eq!(f.body.len(), 3);
}

#[test]
fn sccp_forgets_a_rewritten_constant() {
    let mut sccp = SCCP::new();
    let f = func("f", &[], vec![store("a", "const.i32.2"), load("a", "p"), add("c", "a", "a")]);
    assert_eq!(sccp.run(&f), f.body);
}

#[test]
fn mem2reg_stops_on_an_unstored_alloca() {
    let mut m = Mem2Reg::new();
    let mut f = func("f", &[], vec![alloca("x"), Instruction::Return(None)]);
    let old = f.body.clone();
    assert!(!m.promote(&mut f));
    assert_eq!(f.body, old);
}

#[test]
fn cse_and_gvn_keep_straight_line_values() {
    let insts = vec![
        add("x", "a", "b"),
        mul("y", "x", "const.i32.3"),
        add("z", "a", "b"),
        store("a", "const.i32.1"),
        add("w", "a", "b"),
        mul("v", "x", "const.i32.3"),
    ];
    let mut cse = CommonSubexprEliminator::new();
    assert_eq!(
        cse.eliminate(&insts),
        vec![
            add("x", "a", "b"),
            mul("y", "x", "const.i32.3"),
            store("z", "x"),
            store("a", "const.i32.1"),
            add("w", "a", "b"),
            store("v", "y"),
        ]
    );
    let mut g = GVN::new();
    assert_eq!(
        g.eliminate(&insts),
        vec![
            add("x", "a", "b"),
            mul("y", "x", "const.i32.3"),
            store("z", "x"),
            store("a", "const.i32.1"),
            add("w", "a", "b"),
            store("v", "y"),
        ]
    );
}

#[test]
fn cse_keys_join_operands_with_underscores() {
    let mut cse = CommonSubexprEliminator::new();
    let out = cse.eliminate(&[add("t1", "a_b", "c"), add("t2", "a", "b_c")]);
    assert_eq!(out, vec![add("t1", "a_b", "c"), store("t2", "t1")]);
}
