use chim_compiler::procedural_macros::{
    to_camel_case, AttributeMacro, DeriveMacro, DeriveTarget, MacroRegistry, ProceduralMacro,
};
use std::sync::Arc;

#[test]
fn test_macro_registry() {
    let mut registry = MacroRegistry::new();
    let mac = Arc::new(DeriveMacro::new("Clone".to_string(), DeriveTarget::Struct));
    registry.register(mac);
    assert!(registry.get("Clone").is_some());
}

#[test]
fn test_to_camel_case() {
    assert_eq!(to_camel_case("hello_world"), "HelloWorld");
    assert_eq!(to_camel_case("foo_bar_baz"), "FooBarBaz");
}

#[test]
fn registry_misses_unknown_name() {
    let mut registry = MacroRegistry::new();
    registry.register(Arc::new(DeriveMacro::new("Debug".to_string(), DeriveTarget::Enum)));
    assert!(registry.get("Clone").is_none());
    assert_eq!(registry.get("Debug").unwrap().name(), "Debug");
}

#[test]
fn registry_last_registration_wins() {
    let mut registry = MacroRegistry::new();
    let first = Arc::new(AttributeMacro::new("test".to_string()));
    let last = Arc::new(AttributeMacro::new("test".to_string()));
    registry.register(first.clone());
    registry.register(Arc::new(AttributeMacro::new("bench".to_string())));
    registry.register(last.clone());
    assert_eq!(registry.get("bench").unwrap().name(), "bench");
    let found = registry.get("test").unwrap();
    assert!(Arc::ptr_eq(&found, &last));
    assert!(!Arc::ptr_eq(&found, &first));
}

#[test]
fn camel_case_edges() {
    assert_eq!(to_camel_case(""), "");
    assert_eq!(to_camel_case("a__b"), "AB");
    assert_eq!(to_camel_case("_x"), "X");
    assert_eq!(to_camel_case("already"), "Already");
    assert_eq!(to_camel_case("mixed_Case_9"), "MixedCase9");
}
