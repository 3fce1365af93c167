use chim_compiler::ast::{Expression, Literal, Statement};
use chim_compiler::optimizer::{Function, Instruction, Module};
use chim_compiler::rvo::RVOOptimizer;

#[test]
fn test_can_optimize_direct_return() {
    let optimizer = RVOOptimizer::new();
    let func = Statement::Function {
        name: "test".to_string(),
        params: vec![],
        return_type: Some("Point".to_string()),
        body: Expression::Struct {
            name: "Point".to_string(),
            fields: vec![
                ("x".to_string(), Expression::Literal(Literal::Float(1.0f64.to_bits()))),
                ("y".to_string(), Expression::Literal(Literal::Float(2.0f64.to_bits()))),
            ],
        },
        kernel: false,
    };
    assert!(optimizer.can_optimize(&func));
}

#[test]
fn test_can_optimize_block_return() {
    let optimizer = RVOOptimizer::new();
    let func = Statement::Function {
        name: "test".to_string(),
        params: vec![],
        return_type: Some("Point".to_string()),
        body: Expression::Block(vec![Statement::Return(Some(Expression::Struct {
            name: "Point".to_string(),
            fields: vec![],
        }))]),
        kernel: false,
    };
    assert!(optimizer.can_optimize(&func));
}

#[test]
fn test_cannot_optimize_variable_return() {
    let optimizer = RVOOptimizer::new();
    let func = Statement::Function {
        name: "test".to_string(),
        params: vec![],
        return_type: Some("int".to_string()),
        body: Expression::Block(vec![Statement::Return(Some(Expression::Identifier("x".to_string())))]),
        kernel: false,
    };
    assert!(!optimizer.can_optimize(&func));
}

#[test]
fn rvo_rejects_non_functions_and_empty_blocks() {
    let optimizer = RVOOptimizer::default();
    assert!(!optimizer.can_optimize(&Statement::Return(None)));
    let empty = Statement::Function {
        name: "f".to_string(),
        params: vec![],
        return_type: None,
        body: Expression::Block(vec![]),
        kernel: false,
    };
    assert!(!optimizer.can_optimize(&empty));
}

fn f(name: &str, body: Vec<Instruction>) -> Function {
    Function { name: name.to_string(), params: vec![], body, is_kernel: false }
}

#[test]
fn rvo_rewrites_temporary_returns() {
    let mut optimizer = RVOOptimizer::new();
    let mut func = f(
        "g",
        vec![
            Instruction::Store { dest: ".tmp1".to_string(), src: "x".to_string() },
            Instruction::Return(Some(".tmp1".to_string())),
            Instruction::Return(Some("y".to_string())),
        ],
    );
    assert!(optimizer.optimize_function(&mut func));
    assert_eq!(
        func.body,
        vec![
            Instruction::Store { dest: ".tmp1".to_string(), src: "x".to_string() },
            Instruction::ReturnInPlace(".tmp1".to_string()),
            Instruction::Return(Some("y".to_string())),
        ]
    );
    assert_eq!(optimizer.get_stats(), 1);
    let mut plain = f("h", vec![Instruction::Return(Some("y".to_string())), Instruction::Return(None)]);
    assert!(!optimizer.optimize_function(&mut plain));
    assert_eq!(plain.body, vec![Instruction::Return(Some("y".to_string())), Instruction::Return(None)]);
}

#[test]
fn rvo_over_a_module_counts_every_rewrite() {
    let mut optimizer = RVOOptimizer::new();
    let mut module = Module {
        functions: vec![
            f("a", vec![Instruction::Return(Some(".tmp0".to_string()))]),
            f("b", vec![Instruction::Return(Some(".tmpx".to_string())), Instruction::Return(Some(".tmpy".to_string()))]),
            f("c", vec![Instruction::Return(None)]),
        ],
    };
    optimizer.optimize_module(&mut module);
    assert_eq!(optimizer.get_stats(), 3);
    assert_eq!(module.functions[1].body[1], Instruction::ReturnInPlace(".tmpy".to_string()));
    assert_eq!(module.functions[2].body, vec![Instruction::Return(None)]);
}
