use chim_compiler::ast::{BinaryOperator, Expression, Literal, Statement, UnaryOperator};
use chim_compiler::parser::{Found, Parser, ParserError, Token};

fn id(s: &str) -> Token {
    Token::Identifier(s.to_string())
}

fn parse(tokens: Vec<Token>) -> Result<Vec<Statement>, ParserError> {
    Parser::new(tokens).parse().map(|p| p.statements)
}

fn int_lit(e: &Expression) -> i64 {
    match e {
        Expression::Literal(Literal::Integer(n)) => *n,
        other => panic!("not an integer literal: {:?}", other),
    }
}

fn ident(e: &Expression) -> String {
    match e {
        Expression::Identifier(s) => s.clone(),
        other => panic!("not an identifier: {:?}", other),
    }
}

#[test]
fn precedence_of_arithmetic() {
    // let x = 1 + 2 * 3;
    let s = parse(vec![
        Token::Let, id("x"), Token::Assign, Token::Integer(1), Token::Plus, Token::Integer(2), Token::Star, Token::Integer(3),
        Token::Semicolon,
    ])
    .unwrap();
    assert_eq!(s.len(), 1);
    match &s[0] {
        Statement::Let { mutable, name, ty, value } => {
            assert!(!mutable);
            assert_eq!(name, "x");
            assert!(ty.is_none());
            match value {
                Expression::BinaryOp { left, op: BinaryOperator::Add, right } => {
                    assert_eq!(int_lit(left), 1);
                    match &**right {
                        Expression::BinaryOp { left, op: BinaryOperator::Mul, right } => {
                            assert_eq!(int_lit(left), 2);
                            assert_eq!(int_lit(right), 3);
                        },
                        other => panic!("{:?}", other),
                    }
                },
                other => panic!("{:?}", other),
            }
        },
        other => panic!("{:?}", other),
    }
}

#[test]
fn typed_var_with_postfix_chain() {
    // var y: List[int, string] = a.b(c)[0]
    let s = parse(vec![
        Token::Var, id("y"), Token::Colon, Token::List, Token::LBracket, id("int"), Token::Comma, id("string"),
        Token::RBracket, Token::Assign, id("a"), Token::Dot, id("b"), Token::LParen, id("c"), Token::RParen,
        Token::LBracket, Token::Integer(0), Token::RBracket,
    ])
    .unwrap();
    match &s[0] {
        Statement::Let { mutable, ty, value, .. } => {
            assert!(*mutable);
            assert_eq!(ty.as_deref(), Some("List[int, string]"));
            match value {
                Expression::Index { array, index } => {
                    assert_eq!(int_lit(index), 0);
                    match &**array {
                        Expression::Call { callee, args } => {
                            assert_eq!(args.len(), 1);
                            assert_eq!(ident(&args[0]), "c");
                            match &**callee {
                                Expression::FieldAccess { expr, field } => {
                                    assert_eq!(ident(expr), "a");
                                    assert_eq!(field, "b");
                                },
                                other => panic!("{:?}", other),
                            }
                        },
                        other => panic!("{:?}", other),
                    }
                },
                other => panic!("{:?}", other),
            }
        },
        other => panic!("{:?}", other),
    }
}

#[test]
fn compound_assignment_becomes_binary_op() {
    // x += 1
    let s = parse(vec![id("x"), Token::AddAssign, Token::Integer(1)]).unwrap();
    match &s[0] {
        Statement::Expression(Expression::Assign { left, right }) => {
            assert_eq!(ident(left), "x");
            match &**right {
                Expression::BinaryOp { left, op: BinaryOperator::Add, right } => {
                    assert_eq!(ident(left), "x");
                    assert_eq!(int_lit(right), 1);
                },
                other => panic!("{:?}", other),
            }
        },
        other => panic!("{:?}", other),
    }
}

#[test]
fn declarations() {
    // struct P { x: int, y: &mut float } enum E { A(v: int), Some, B } import "m" as n;
    let s = parse(vec![
        Token::Struct, id("P"), Token::LBrace, id("x"), Token::Colon, id("int"), Token::Comma, id("y"), Token::Colon,
        Token::AndMut, id("float"), Token::RBrace,
        Token::Enum, id("E"), Token::LBrace, id("A"), Token::LParen, id("v"), Token::Colon, id("int"), Token::RParen,
        Token::Comma, Token::SomeKw, Token::Comma, id("B"), Token::RBrace,
        Token::Import, Token::String("m".to_string()), Token::As, id("n"), Token::Semicolon,
    ])
    .unwrap();
    assert_eq!(s.len(), 3);
    match &s[0] {
        Statement::Struct { name, fields } => {
            assert_eq!(name, "P");
            assert_eq!(fields.len(), 2);
            assert_eq!(fields[1].ty, "mut float");
        },
        other => panic!("{:?}", other),
    }
    match &s[1] {
        Statement::Enum { name, variants } => {
            assert_eq!(name, "E");
            assert_eq!(variants.len(), 3);
            assert_eq!(variants[0].1.as_ref().unwrap()[0].name, "v");
            assert_eq!(variants[1].0, "Some");
            assert!(variants[2].1.is_none());
        },
        other => panic!("{:?}", other),
    }
    assert!(matches!(&s[2], Statement::ImportAs(p, a) if p == "m" && a == "n"));
}

#[test]
fn function_with_defaults() {
    // fn f(a: int, b = 2) -> int = a + b;
    let s = parse(vec![
        Token::Fn, id("f"), Token::LParen, id("a"), Token::Colon, id("int"), Token::Comma, id("b"), Token::Assign,
        Token::Integer(2), Token::RParen, Token::Arrow, id("int"), Token::Assign, id("a"), Token::Plus, id("b"),
        Token::Semicolon,
    ])
    .unwrap();
    match &s[0] {
        Statement::Function { name, params, return_type, body, kernel } => {
            assert_eq!(name, "f");
            assert_eq!(params.len(), 2);
            assert_eq!(params[0].ty.as_deref(), Some("int"));
            assert_eq!(int_lit(params[1].default.as_ref().unwrap()), 2);
            assert_eq!(return_type.as_deref(), Some("int"));
            assert!(matches!(body, Expression::BinaryOp { op: BinaryOperator::Add, .. }));
            assert!(!kernel);
        },
        other => panic!("{:?}", other),
    }
}

#[test]
fn if_elif_else_and_match() {
    // if a: 1 elif b: 2 else: 3
    let s = parse(vec![
        Token::If, id("a"), Token::Colon, Token::Integer(1), Token::Elif, id("b"), Token::Colon, Token::Integer(2),
        Token::Else, Token::Colon, Token::Integer(3),
    ])
    .unwrap();
    match &s[0] {
        Statement::Expression(Expression::If { condition, else_branch: Some(e), .. }) => {
            assert_eq!(ident(condition), "a");
            assert!(matches!(&**e, Expression::If { else_branch: Some(_), .. }));
        },
        other => panic!("{:?}", other),
    }
    // match x: 1 => a, _ if c => b
    let s = parse(vec![
        Token::Match, id("x"), Token::Colon, Token::Integer(1), Token::FatArrow, id("a"), Token::Comma, id("_"),
        Token::If, id("c"), Token::FatArrow, id("b"),
    ])
    .unwrap();
    match &s[0] {
        Statement::Expression(Expression::Match { expr, cases }) => {
            assert_eq!(ident(expr), "x");
            assert_eq!(cases.len(), 2);
            assert_eq!(int_lit(&cases[0].pattern), 1);
            assert_eq!(ident(&cases[1].pattern), "_");
            assert!(cases[1].guard.is_some());
        },
        other => panic!("{:?}", other),
    }
}

#[test]
fn primaries() {
    let mut p = Parser::new(vec![Token::LParen, id("x"), Token::Colon, id("int"), Token::RParen, Token::FatArrow, id("x")]);
    match p.parse_primary().unwrap() {
        Expression::Lambda { params, body } => {
            assert_eq!(params.len(), 1);
            assert_eq!(ident(&body), "x");
        },
        other => panic!("{:?}", other),
    }
    let mut p = Parser::new(vec![Token::LParen, Token::RParen]);
    assert_eq!(ident(&p.parse_primary().unwrap()), "()");
    let mut p = Parser::new(vec![id("Status"), Token::Colon, Token::Colon, Token::OkKw, Token::LParen, id("v"), Token::RParen]);
    match p.parse_primary().unwrap() {
        Expression::Call { callee, args } => {
            assert_eq!(ident(&callee), "Status::Ok");
            assert_eq!(args.len(), 1);
        },
        other => panic!("{:?}", other),
    }
    let mut p = Parser::new(vec![Token::UnitLiteral("(1.5, kg)".to_string())]);
    assert!(matches!(p.parse_primary().unwrap(), Expression::Literal(Literal::UnitLiteral(v, u)) if v == "1.5" && u == "kg"));
    let mut p = Parser::new(vec![Token::UnitLiteral("(x, kg)".to_string())]);
    assert!(matches!(p.parse_primary(), Err(ParserError::InvalidSyntax { message }) if message == "Invalid unit literal: kg"));
    let mut p = Parser::new(vec![Token::Println, Token::LParen, Token::String("hi".to_string()), Token::RParen]);
    assert!(matches!(p.parse_primary().unwrap(), Expression::Call { .. }));
    let mut p = Parser::new(vec![id("P"), Token::LBrace, id("x"), Token::Colon, Token::Integer(1), Token::RBrace]);
    assert!(matches!(p.parse_primary().unwrap(), Expression::Struct { name, fields } if name == "P" && fields.len() == 1));
    let mut p = Parser::new(vec![Token::LBracket, Token::Integer(1), Token::Comma, Token::Integer(2), Token::RBracket]);
    assert!(matches!(p.parse_primary().unwrap(), Expression::Array(items) if items.len() == 2));
}

#[test]
fn casts_ranges_and_prefix_operators() {
    let mut p = Parser::new(vec![Token::Minus, id("x"), Token::As, id("float"), Token::RangeInclusive, Token::Integer(3)]);
    match p.parse_expression().unwrap() {
        Expression::Range { start, end, inclusive } => {
            assert!(inclusive);
            assert_eq!(int_lit(&end), 3);
            match *start {
                Expression::Call { callee, args } => {
                    assert_eq!(ident(&callee), "as");
                    assert!(matches!(&args[0], Expression::UnaryOp { op: UnaryOperator::Neg, .. }));
                    assert_eq!(ident(&args[1]), "float");
                },
                other => panic!("{:?}", other),
            }
        },
        other => panic!("{:?}", other),
    }
}

#[test]
fn parse_errors() {
    assert!(parse(vec![]).unwrap().is_empty());
    match parse(vec![Token::Else]) {
        Err(ParserError::UnexpectedToken { expected, found: Found::Token(Token::Else) }) => assert_eq!(expected, "if or elif statement"),
        other => panic!("{:?}", other),
    }
    assert!(matches!(parse(vec![Token::Let]), Err(ParserError::UnexpectedToken { .. })));
    assert!(matches!(parse(vec![Token::Let, id("x")]), Err(ParserError::UnexpectedEof)));
    // An enum body cut off after a variant name ends the input.
    assert!(matches!(parse(vec![Token::Enum, id("E"), Token::LBrace, id("A")]), Err(ParserError::UnexpectedEof)));
    match parse(vec![Token::Comma]) {
        Err(ParserError::UnexpectedToken { expected, .. }) => assert_eq!(expected, "expression"),
        other => panic!("{:?}", other),
    }
    let mut p = Parser::new(vec![Token::Integer(1), Token::LBrace, Token::RBrace]);
    assert!(matches!(p.parse_primary(), Err(ParserError::UnexpectedToken { found: Found::Expression(_), .. })));
}
