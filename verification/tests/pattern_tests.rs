use chim_compiler::pattern::{
    ConstructorTable, ExhaustivenessChecker, ExhaustivenessError, FieldDef, Pattern, Type, VariantDef,
};

fn named(e: &str, v: &str, args: Vec<Pattern>) -> Pattern {
    Pattern::NamedConstructor { enum_name: e.to_string(), variant_name: v.to_string(), args }
}

fn option_table() -> ConstructorTable {
    let mut t = ConstructorTable::new();
    t.register_enum(
        "Option".to_string(),
        vec![
            VariantDef { name: "Some".to_string(), fields: vec![Type::Int(None)] },
            VariantDef { name: "None".to_string(), fields: vec![] },
        ],
    );
    t
}

#[test]
fn bool_match_missing_false() {
    let mut c = ExhaustivenessChecker::new();
    let r = c.check_exhaustive(&Type::Bool, &[Pattern::Bool(true)]).unwrap();
    assert!(!r.is_exhaustive);
    assert_eq!(r.uncovered_patterns.len(), 1);
    assert!(matches!(r.uncovered_patterns[0], Pattern::Bool(false)));
    assert_eq!(r.warnings, vec!["Non-exhaustive patterns! Missing 1 case(s)".to_string()]);
    assert!(!r.is_empty());
}

#[test]
fn bool_match_complete_or_wildcard() {
    let mut c = ExhaustivenessChecker::new();
    let r = c.check_exhaustive(&Type::Bool, &[Pattern::Bool(true), Pattern::Bool(false)]).unwrap();
    assert!(r.is_exhaustive);
    assert!(r.is_empty());
    assert!(r.warnings.is_empty());
    let r = c.check_exhaustive(&Type::Bool, &[Pattern::Wildcard]).unwrap();
    assert!(r.is_exhaustive);
    let r = c.check_exhaustive(&Type::Bool, &[]).unwrap();
    assert_eq!(r.uncovered_patterns.len(), 2);
    assert_eq!(r.warnings, vec!["Non-exhaustive patterns! Missing 2 case(s)".to_string()]);
}

#[test]
fn enum_match_reports_missing_variant() {
    let mut c = ExhaustivenessChecker::new().with_constructors(option_table());
    let ty = Type::Enum("Option".to_string(), vec![]);
    let r = c.check_exhaustive(&ty, &[named("Option", "None", vec![])]).unwrap();
    assert!(!r.is_exhaustive);
    assert_eq!(r.uncovered_patterns.len(), 1);
    match &r.uncovered_patterns[0] {
        Pattern::NamedConstructor { enum_name, variant_name, args } => {
            assert_eq!(enum_name, "Option");
            assert_eq!(variant_name, "Some");
            assert_eq!(args.len(), 1);
            assert!(matches!(args[0], Pattern::Wildcard));
        },
        other => panic!("unexpected {:?}", other),
    }
    let r = c.check_exhaustive(&ty, &[named("Option", "None", vec![]), named("Option", "Some", vec![Pattern::Bool(true)])]).unwrap();
    assert!(r.is_exhaustive);
}

#[test]
fn unknown_types_are_errors() {
    let mut c = ExhaustivenessChecker::new();
    let r = c.check_exhaustive(&Type::Enum("Missing".to_string(), vec![]), &[]);
    assert!(matches!(r, Err(ExhaustivenessError::UnknownType { ref ty_name }) if ty_name == "Missing"));
    let r = c.check_exhaustive(&Type::Record("R".to_string(), vec![]), &[]);
    assert!(matches!(r, Err(ExhaustivenessError::UnknownType { ref ty_name }) if ty_name == "R"));
    let r = c.check_exhaustive(&Type::Named("T".to_string()), &[]).unwrap();
    assert_eq!(r.uncovered_patterns.len(), 1);
    assert!(matches!(r.uncovered_patterns[0], Pattern::Wildcard));
}

#[test]
fn records_tuples_and_arrays() {
    let mut t = ConstructorTable::new();
    t.register_record(
        "Point".to_string(),
        vec![
            FieldDef { name: "x".to_string(), ty: Type::Int(None), optional: false },
            FieldDef { name: "y".to_string(), ty: Type::Int(None), optional: false },
        ],
    );
    let mut c = ExhaustivenessChecker::new().with_constructors(t);
    let r = c.check_exhaustive(&Type::Record("Point".to_string(), vec![]), &[]).unwrap();
    match &r.uncovered_patterns[0] {
        Pattern::Record { name, fields } => {
            assert_eq!(name, "Point");
            assert_eq!(fields.iter().map(|f| f.0.clone()).collect::<Vec<_>>(), vec!["x".to_string(), "y".to_string()]);
        },
        other => panic!("unexpected {:?}", other),
    }
    let r = c.check_exhaustive(&Type::Tuple(vec![Type::Bool, Type::Char]), &[Pattern::Tuple(vec![Pattern::Bool(true), Pattern::Bool(false)])]).unwrap();
    assert!(r.is_exhaustive);
    let r = c.check_exhaustive(&Type::Array(Box::new(Type::Bool), Some(3)), &[]).unwrap();
    match &r.uncovered_patterns[0] {
        Pattern::Array(ps, n) => {
            assert_eq!(ps.len(), 3);
            assert_eq!(*n, Some(3));
        },
        other => panic!("unexpected {:?}", other),
    }
    let r = c.check_exhaustive(&Type::Int(None), &[Pattern::Int(1)]).unwrap();
    assert!(r.is_exhaustive);
}

#[test]
fn report_lists_missing_cases_and_a_suggestion() {
    let mut c = ExhaustivenessChecker::new();
    c.check_exhaustive(&Type::Bool, &[Pattern::Bool(true)]).unwrap();
    let report = c.generate_report(&Type::Bool);
    assert_eq!(
        report,
        "\u{26a0}\u{fe0f} Non-exhaustive patterns!\n\nMissing cases:\n  1. false\n\nConsider adding:\n  case true => ...\n"
    );
    c.check_exhaustive(&Type::Bool, &[Pattern::Wildcard]).unwrap();
    assert_eq!(c.generate_report(&Type::Bool), "\u{2705} Pattern matching is exhaustive\n");
}

#[test]
fn report_names_the_missing_variant() {
    let mut c = ExhaustivenessChecker::new().with_constructors(option_table());
    let ty = Type::Enum("Option".to_string(), vec![]);
    c.check_exhaustive(&ty, &[named("Option", "None", vec![])]).unwrap();
    let report = c.generate_report(&ty);
    assert!(report.contains("Missing cases:\n  1. Option::Some(_)\n"), "{}", report);
    assert!(report.ends_with("\nConsider adding:\n  case Option::Some::{ ... }\n"), "{}", report);
}
