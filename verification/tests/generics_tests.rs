use chim_compiler::stdlib::generics::{
    type_eq, Constraint, DeriveImpl, ErrorKind, GenericInstance, GenericParam, GenericParamKind,
    GenericParamList, StructType, TraitBoundChecker, TraitConstraint, TraitImpl, Type, WhereClause,
    WhereClauseItem,
};

fn point() -> StructType {
    StructType { name: "Point".to_string(), fields: vec![("x".to_string(), Type::Int), ("y".to_string(), Type::Float)] }
}

#[test]
fn sizes_of_types() {
    assert_eq!(Type::Int.size_of(), Some(8));
    assert_eq!(Type::Array(Box::new(Type::Char), 10).size_of(), Some(40));
    assert_eq!(Type::Tuple(vec![Type::Bool, Type::String]).size_of(), Some(17));
    assert_eq!(Type::Struct(point()).size_of(), Some(16));
    assert_eq!(Type::Tuple(vec![Type::Int, Type::Never]).size_of(), None);
}

#[test]
fn copy_and_sized() {
    assert!(Type::Tuple(vec![Type::Int, Type::Unit]).is_copy());
    assert!(!Type::Tuple(vec![Type::Int, Type::String]).is_copy());
    assert!(!Type::MutRef(Box::new(Type::Int)).is_sized());
    assert!(Type::Array(Box::new(Type::Int), 3).is_sized());
    assert!(!Type::Dynamic("Trait".to_string()).is_sized());
}

#[test]
fn deep_equality_and_clone() {
    let t = Type::Struct(point());
    let u = t.clone();
    assert!(type_eq(&t, &u));
    assert!(!type_eq(&t, &Type::Tuple(vec![Type::Int, Type::Float])));
}

#[test]
fn trait_bounds() {
    let mut c = TraitBoundChecker::new();
    c.register_impl(TraitImpl { trait_name: "Show".to_string(), for_type: Type::Int, methods: vec![] });
    let show = TraitConstraint { trait_name: "Show".to_string(), type_args: vec![], is_negative: false };
    let other = TraitConstraint { trait_name: "Other".to_string(), type_args: vec![], is_negative: false };
    assert!(c.check_trait_bound(&Type::Int, &show));
    assert!(!c.check_trait_bound(&Type::Float, &show));
    assert!(!c.check_trait_bound(&Type::Int, &other));
    let g = Type::Generic(GenericInstance { name: "T".to_string(), args: vec![] });
    assert!(c.check_trait_bound(&g, &show));
    let bounds = vec![Constraint::TraitBound(show), Constraint::SizedBound, Constraint::CopyBound];
    assert!(c.check_all_bounds(&Type::Int, &bounds));
    assert!(!c.check_all_bounds(&Type::Unit, &vec![Constraint::CopyBound]));
    assert!(c.check_all_bounds(&Type::Struct(point()), &vec![Constraint::CopyBound, Constraint::SendBound]));
}

#[test]
fn constraints_in_order() {
    let mut list = GenericParamList::new();
    list.add_param(GenericParam {
        name: "T".to_string(),
        kind: GenericParamKind::Type,
        constraints: vec![Constraint::CopyBound, Constraint::SizedBound],
        default: None,
    });
    let mut wc = WhereClause::new();
    wc.add_item(WhereClauseItem { type_: Type::Int, constraint: Constraint::SendBound });
    list.add_where_clause(wc);
    assert_eq!(list.get_constraints(), vec![Constraint::CopyBound, Constraint::SizedBound, Constraint::SendBound]);
}

#[test]
fn derived_sources() {
    let d = DeriveImpl::new();
    assert_eq!(d.derive_clone(&point()), "impl Clone for Point { fn clone(&self) -> Self { Self { x: self.x, y: self.y } } }");
    assert_eq!(
        d.derive_debug(&point()),
        "impl Debug for Point { fn fmt(&self, f: &mut Formatter) -> Result { f.debug_struct(\"Point\").field(\"x\", &self.x).field(\"y\", &self.y) .finish() } }"
    );
    let empty = StructType { name: "E".to_string(), fields: vec![] };
    assert_eq!(d.derive_partial_eq(&empty), "impl PartialEq for E { fn eq(&self, other: &Self) -> bool { true } }");
    assert_eq!(d.derive_partial_eq(&point()), "impl PartialEq for Point { fn eq(&self, other: &Self) -> bool { self.x == other.x && self.y == other.y } }");
}

#[test]
fn error_fields() {
    let e = chim_compiler::stdlib::generics::Error::new(ErrorKind::TypeMismatch, "bad".to_string()).with_location("a.chim".to_string(), 3);
    assert_eq!(e.kind(), ErrorKind::TypeMismatch);
    assert_eq!(e.message(), "bad");
}
