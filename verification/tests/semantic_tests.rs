use chim_compiler::ast::{BinaryOperator, Literal, StructField, UnaryOperator};
use chim_compiler::semantic::{AssignTarget, CallTarget, SemanticAnalyzer, SemanticError, Symbol, SymbolKind};

fn mismatch(e: &SemanticError) -> (String, String) {
    match e {
        SemanticError::TypeMismatch { expected, found } => (expected.clone(), found.clone()),
        other => panic!("not a mismatch: {:?}", other),
    }
}

#[test]
fn literal_types() {
    let a = SemanticAnalyzer::new();
    assert_eq!(a.analyze_literal(&Literal::Integer(3)).unwrap(), "int");
    assert_eq!(a.analyze_literal(&Literal::Float(0)).unwrap(), "float");
    assert_eq!(a.analyze_literal(&Literal::String("x".to_string())).unwrap(), "string");
    assert_eq!(a.analyze_literal(&Literal::Boolean(true)).unwrap(), "bool");
    assert_eq!(a.analyze_literal(&Literal::Null).unwrap(), "null");
    assert_eq!(a.analyze_literal(&Literal::UnitLiteral("1.5".to_string(), "kg".to_string())).unwrap(), "Unit[float, kg]");
}

#[test]
fn identifiers_resolve_through_the_symbol_table() {
    let mut a = SemanticAnalyzer::new();
    assert_eq!(a.analyze_identifier("print").unwrap(), "void");
    assert_eq!(a.analyze_identifier("int").unwrap(), "int");
    let errs = a.analyze_identifier("nope").unwrap_err();
    assert_eq!(errs.len(), 1);
    assert!(matches!(&errs[0], SemanticError::UndefinedIdentifier(n) if n == "nope"));
    assert_eq!(a.errors.len(), 1);
}

#[test]
fn unary_operator_rules() {
    let mut a = SemanticAnalyzer::new();
    assert_eq!(a.analyze_unary_op(&UnaryOperator::Not, "bool".to_string()).unwrap(), "bool");
    assert_eq!(a.analyze_unary_op(&UnaryOperator::Neg, "float".to_string()).unwrap(), "float");
    assert_eq!(a.analyze_unary_op(&UnaryOperator::Ref, "int".to_string()).unwrap(), "&int");
    assert_eq!(a.analyze_unary_op(&UnaryOperator::Deref, "&&int".to_string()).unwrap(), "&int");
    let errs = a.analyze_unary_op(&UnaryOperator::Deref, "int".to_string()).unwrap_err();
    assert!(matches!(errs[0], SemanticError::InvalidDeref));
    let errs = a.analyze_unary_op(&UnaryOperator::Not, "int".to_string()).unwrap_err();
    assert_eq!(errs.len(), 2);
    assert_eq!(mismatch(&errs[1]), ("bool".to_string(), "int".to_string()));
    let errs = a.analyze_unary_op(&UnaryOperator::Neg, "string".to_string()).unwrap_err();
    assert_eq!(mismatch(&errs[2]), ("int or float".to_string(), "string".to_string()));
}

#[test]
fn binary_operator_rules() {
    let mut a = SemanticAnalyzer::new();
    let s = |x: &str| x.to_string();
    assert_eq!(a.analyze_binary_op(s("string"), &BinaryOperator::Add, s("string")).unwrap(), "string");
    assert_eq!(a.analyze_binary_op(s("int"), &BinaryOperator::Add, s("int")).unwrap(), "int");
    assert_eq!(a.analyze_binary_op(s("int"), &BinaryOperator::Mul, s("float")).unwrap(), "float");
    assert_eq!(a.analyze_binary_op(s("string"), &BinaryOperator::Lt, s("string")).unwrap(), "bool");
    assert_eq!(a.analyze_binary_op(s("bool"), &BinaryOperator::And, s("bool")).unwrap(), "bool");
    assert_eq!(a.analyze_binary_op(s("int"), &BinaryOperator::RangeInclusive, s("int")).unwrap(), "range");
    assert_eq!(a.analyze_binary_op(s("string"), &BinaryOperator::AddAssign, s("int")).unwrap(), "string");
    assert!(a.errors.is_empty());

    let errs = a.analyze_binary_op(s("string"), &BinaryOperator::Add, s("int")).unwrap_err();
    assert_eq!(mismatch(&errs[0]), (s("int, float, or string"), s("string, int")));
    let errs = a.analyze_binary_op(s("bool"), &BinaryOperator::Sub, s("int")).unwrap_err();
    assert_eq!(mismatch(&errs[1]), (s("int or float"), s("bool, int")));
    let errs = a.analyze_binary_op(s("int"), &BinaryOperator::Eq, s("float")).unwrap_err();
    assert_eq!(mismatch(&errs[2]), (s("int"), s("float")));
    let errs = a.analyze_binary_op(s("int"), &BinaryOperator::Or, s("bool")).unwrap_err();
    assert_eq!(mismatch(&errs[3]), (s("bool"), s("int, bool")));
    let errs = a.analyze_binary_op(s("string"), &BinaryOperator::Range, s("string")).unwrap_err();
    assert_eq!(mismatch(&errs[4]), (s("int or float"), s("string, string")));
    let errs = a.analyze_binary_op(s("int"), &BinaryOperator::Assign, s("int")).unwrap_err();
    assert_eq!(errs.len(), 6);
    assert!(matches!(&errs[5], SemanticError::InvalidSyntax(m) if m == "赋值操作符不能直接用于二元操作"));
}

#[test]
fn index_range_and_array_rules() {
    let mut a = SemanticAnalyzer::new();
    let s = |x: &str| x.to_string();
    assert_eq!(a.analyze_index(s("int")).unwrap(), "auto");
    let errs = a.analyze_index(s("string")).unwrap_err();
    assert_eq!(mismatch(&errs[0]), (s("int"), s("string")));
    assert_eq!(a.analyze_range(s("float"), s("float")).unwrap(), "range");
    let errs = a.analyze_range(s("int"), s("float")).unwrap_err();
    assert_eq!(mismatch(&errs[1]), (s("int"), s("float")));
    let errs = a.analyze_range(s("bool"), s("bool")).unwrap_err();
    assert_eq!(mismatch(&errs[2]), (s("int or float"), s("bool")));
    assert_eq!(a.analyze_array(&vec![]).unwrap(), "auto");
    assert_eq!(a.analyze_array(&vec![s("int"), s("int")]).unwrap(), "List[int]");
    let errs = a.analyze_array(&vec![s("int"), s("int"), s("bool"), s("string")]).unwrap_err();
    assert_eq!(errs.len(), 4);
    assert_eq!(mismatch(&errs[3]), (s("int"), s("bool")));
}

#[test]
fn field_access_rules() {
    let mut a = SemanticAnalyzer::new();
    let point = Symbol {
        name: "Point".to_string(),
        kind: SymbolKind::Struct {
            fields: vec![
                StructField { name: "x".to_string(), ty: "int".to_string() },
                StructField { name: "y".to_string(), ty: "float".to_string() },
            ],
        },
        position: (1, 1),
    };
    a.symbol_table.define_symbol(point).unwrap();
    assert_eq!(a.analyze_field_access("Point".to_string(), "y").unwrap(), "float");
    let errs = a.analyze_field_access("Point".to_string(), "z").unwrap_err();
    assert!(matches!(&errs[0], SemanticError::UndefinedField { struct_name, field_name } if struct_name == "Point" && field_name == "z"));
    let errs = a.analyze_field_access("int".to_string(), "x").unwrap_err();
    assert!(matches!(&errs[1], SemanticError::InvalidDotOperator(t) if t == "int"));
}

fn var(name: &str, mutable: bool, ty: &str) -> Symbol {
    Symbol { name: name.to_string(), kind: SymbolKind::Variable { mutable, ty: ty.to_string() }, position: (1, 1) }
}

#[test]
fn assignment_rules() {
    let mut a = SemanticAnalyzer::new();
    let s = |x: &str| x.to_string();
    a.symbol_table.define_symbol(var("m", true, "int")).unwrap();
    a.symbol_table.define_symbol(var("c", false, "int")).unwrap();
    a.symbol_table.define_symbol(var("any", true, "auto")).unwrap();
    a.symbol_table
        .define_symbol(Symbol {
            name: s("P"),
            kind: SymbolKind::Struct { fields: vec![StructField { name: s("x"), ty: s("int") }] },
            position: (2, 1),
        })
        .unwrap();
    assert_eq!(a.analyze_assign(&AssignTarget::Variable(s("m")), s("int")).unwrap(), "int");
    assert_eq!(a.analyze_assign(&AssignTarget::Variable(s("any")), s("string")).unwrap(), "string");
    assert_eq!(a.analyze_assign(&AssignTarget::Field { struct_type: s("P"), field: s("x") }, s("int")).unwrap(), "int");
    assert_eq!(a.analyze_assign(&AssignTarget::Element { index_type: s("int") }, s("bool")).unwrap(), "bool");
    assert!(a.errors.is_empty());

    let errs = a.analyze_assign(&AssignTarget::Variable(s("c")), s("int")).unwrap_err();
    assert!(matches!(&errs[0], SemanticError::CannotAssignToImmutable(n) if n == "c"));
    let errs = a.analyze_assign(&AssignTarget::Variable(s("m")), s("bool")).unwrap_err();
    assert_eq!(mismatch(&errs[1]), (s("int"), s("bool")));
    let errs = a.analyze_assign(&AssignTarget::Variable(s("print")), s("int")).unwrap_err();
    assert!(matches!(&errs[2], SemanticError::UndefinedIdentifier(n) if n == "print"));
    let errs = a.analyze_assign(&AssignTarget::Field { struct_type: s("P"), field: s("x") }, s("float")).unwrap_err();
    assert_eq!(mismatch(&errs[3]), (s("int"), s("float")));
    let errs = a.analyze_assign(&AssignTarget::Field { struct_type: s("P"), field: s("q") }, s("int")).unwrap_err();
    assert!(matches!(&errs[4], SemanticError::UndefinedField { struct_name, field_name } if struct_name == "P" && field_name == "q"));
    let errs = a.analyze_assign(&AssignTarget::Field { struct_type: s("int"), field: s("x") }, s("int")).unwrap_err();
    assert!(matches!(&errs[5], SemanticError::UndefinedStruct(n) if n == "int"));
    let errs = a.analyze_assign(&AssignTarget::Element { index_type: s("bool") }, s("int")).unwrap_err();
    assert_eq!(mismatch(&errs[6]), (s("int"), s("bool")));
    let errs = a.analyze_assign(&AssignTarget::Other, s("int")).unwrap_err();
    assert_eq!(errs.len(), 8);
    assert!(matches!(&errs[7], SemanticError::InvalidSyntax(m) if m == "赋值操作符左侧必须是可修改的表达式"));
}

#[test]
fn if_branches_join() {
    let mut a = SemanticAnalyzer::new();
    let s = |x: &str| x.to_string();
    assert_eq!(a.analyze_if_expression(s("bool"), s("int"), Some(s("int"))).unwrap(), "int");
    assert_eq!(a.analyze_if_expression(s("bool"), s("void"), Some(s("string"))).unwrap(), "string");
    assert_eq!(a.analyze_if_expression(s("bool"), s("int"), None).unwrap(), "int");
    assert!(a.errors.is_empty());
    // A condition that is not bool is recorded, and the analysis goes on.
    assert_eq!(a.analyze_if_expression(s("int"), s("int"), None).unwrap(), "int");
    assert_eq!(a.errors.len(), 1);
    assert_eq!(mismatch(&a.errors[0]), (s("bool"), s("int")));
    let errs = a.analyze_if_expression(s("bool"), s("int"), Some(s("string"))).unwrap_err();
    assert_eq!(errs.len(), 2);
    assert_eq!(mismatch(&errs[1]), (s("int"), s("string")));
}

#[test]
fn call_rules() {
    let mut a = SemanticAnalyzer::new();
    let s = |x: &str| x.to_string();
    a.symbol_table.define_symbol(var("v", true, "int")).unwrap();
    assert_eq!(a.analyze_call(&CallTarget::Named(s("len")), &vec![s("string")]).unwrap(), "int");
    assert_eq!(a.analyze_call(&CallTarget::Named(s("print")), &vec![s("string")]).unwrap(), "void");
    let errs = a.analyze_call(&CallTarget::Named(s("len")), &vec![]).unwrap_err();
    assert!(matches!(&errs[0], SemanticError::WrongArgumentCount { name, expected: 1, found: 0 } if name == "len"));
    let errs = a.analyze_call(&CallTarget::Named(s("to_string")), &vec![s("bool")]).unwrap_err();
    assert!(matches!(&errs[1], SemanticError::WrongArgumentType { name, arg_idx: 0, expected, found }
        if name == "to_string" && expected == "int" && found == "bool"));
    let errs = a.analyze_call(&CallTarget::Named(s("v")), &vec![]).unwrap_err();
    assert!(matches!(&errs[2], SemanticError::NotAFunction(n) if n == "v"));
    let errs = a.analyze_call(&CallTarget::Named(s("missing")), &vec![]).unwrap_err();
    assert!(matches!(&errs[3], SemanticError::UndefinedIdentifier(n) if n == "missing"));
    let errs = a.analyze_call(&CallTarget::Value(s("int")), &vec![]).unwrap_err();
    assert_eq!(errs.len(), 5);
    assert!(matches!(&errs[4], SemanticError::NotAFunction(n) if n == "int"));
}

#[test]
fn let_statement_rules() {
    let mut a = SemanticAnalyzer::new();
    let s = |x: &str| x.to_string();
    a.analyze_let_statement(true, "x", &None, s("int"), false).unwrap();
    assert!(matches!(&a.symbol_table.lookup_symbol("x").unwrap().kind,
        SymbolKind::Variable { mutable: true, ty } if ty == "int"));
    a.analyze_let_statement(false, "y", &Some(s("float")), s("float"), false).unwrap();
    a.analyze_let_statement(false, "r", &Some(s("&int")), s("&int"), true).unwrap();
    assert!(a.errors.is_empty());

    let errs = a.analyze_let_statement(false, "p", &Some(s("int")), s("&int"), true).unwrap_err();
    assert!(matches!(errs[0], SemanticError::InvalidRef));
    let errs = a.analyze_let_statement(false, "q", &Some(s("Nope")), s("Nope"), false).unwrap_err();
    assert!(matches!(&errs[1], SemanticError::InvalidType(t) if t == "Nope"));
    let errs = a.analyze_let_statement(false, "z", &Some(s("int")), s("string"), false).unwrap_err();
    assert_eq!(mismatch(&errs[2]), (s("int"), s("string")));
    let errs = a.analyze_let_statement(false, "x", &None, s("bool"), false).unwrap_err();
    assert_eq!(errs.len(), 4);
    assert!(matches!(&errs[3], SemanticError::Redeclaration(n) if n == "x"));
    assert!(a.symbol_table.lookup_symbol("p").is_none());
}

#[test]
fn struct_and_enum_declarations() {
    let mut a = SemanticAnalyzer::new();
    let f = |n: &str, t: &str| StructField { name: n.to_string(), ty: t.to_string() };
    a.analyze_struct_statement("Point", &[f("x", "int"), f("y", "float")]).unwrap();
    match &a.symbol_table.lookup_symbol("Point").unwrap().kind {
        SymbolKind::Struct { fields } => assert_eq!(fields.len(), 2),
        other => panic!("unexpected {:?}", other),
    }
    // A struct may now be a field type.
    a.analyze_struct_statement("Line", &[f("a", "Point"), f("b", "Point")]).unwrap();
    let errs = a.analyze_struct_statement("Bad", &[f("a", "int"), f("b", "Missing"), f("c", "Other")]).unwrap_err();
    assert!(matches!(&errs[0], SemanticError::InvalidType(t) if t == "Missing"));
    assert!(a.symbol_table.lookup_symbol("Bad").is_none());
    let errs = a.analyze_struct_statement("Point", &[]).unwrap_err();
    assert!(matches!(&errs[1], SemanticError::Redeclaration(n) if n == "Point"));

    a.analyze_enum_statement("Shape", &[("Circle".to_string(), Some(vec![f("r", "float")])), ("Empty".to_string(), None)]).unwrap();
    match &a.symbol_table.lookup_symbol("Shape").unwrap().kind {
        SymbolKind::Enum { variants } => {
            assert_eq!(variants.len(), 2);
            assert_eq!(variants[0].0, "Circle");
            assert!(variants[1].1.is_none());
        },
        other => panic!("unexpected {:?}", other),
    }
    let errs = a
        .analyze_enum_statement("E", &[("A".to_string(), None), ("B".to_string(), Some(vec![f("x", "int"), f("y", "Nope")]))])
        .unwrap_err();
    assert_eq!(errs.len(), 3);
    assert!(matches!(&errs[2], SemanticError::InvalidType(t) if t == "Nope"));
}
