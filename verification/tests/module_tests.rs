use chim_compiler::stdlib::module::{
    Dependency, ErrorKind, Export, Import, ItemKind, Module, ModuleItem, ModuleParser, ModuleResolver, Package,
    UseItem, Visibility,
};

fn use_item(name: &str, path: &str) -> ModuleItem {
    ModuleItem {
        name: name.to_string(),
        kind: ItemKind::Use(UseItem { path: path.to_string(), alias: None, is_glob: false }),
        visibility: Visibility::Public,
        doc_comment: None,
        attributes: Vec::new(),
    }
}

fn item_path(it: &ModuleItem) -> String {
    match &it.kind {
        ItemKind::Use(u) => u.path.clone(),
        _ => String::new(),
    }
}

#[test]
fn module_find_item_prefers_own_items_then_submodules_in_order() {
    let mut root = Module::new("root".to_string(), "root".to_string());
    root.add_item(use_item("a", "root/a"));
    let mut first = Module::new("first".to_string(), "root/first".to_string());
    first.add_item(use_item("b", "first/b"));
    let mut inner = Module::new("inner".to_string(), "root/first/inner".to_string());
    inner.add_item(use_item("c", "inner/c"));
    first.add_submodule(inner);
    let mut second = Module::new("second".to_string(), "root/second".to_string());
    second.add_item(use_item("b", "second/b"));
    second.add_item(use_item("c", "second/c"));
    root.add_submodule(first);
    root.add_submodule(second);

    assert_eq!(item_path(root.find_item(&"a".to_string()).unwrap()), "root/a");
    assert_eq!(item_path(root.find_item(&"b".to_string()).unwrap()), "first/b");
    // depth first: the inner module of `first` comes before `second`
    assert_eq!(item_path(root.find_item(&"c".to_string()).unwrap()), "inner/c");
    assert!(root.find_item(&"z".to_string()).is_none());
    assert_eq!(root.find_submodule(&"second".to_string()).unwrap().path, "root/second");
    assert!(root.find_submodule(&"inner".to_string()).is_none());
}

#[test]
fn module_exports_of_public_submodules_are_prefixed() {
    let mut root = Module::new("root".to_string(), "root".to_string());
    root.add_export(Export::new("top".to_string()));
    let mut public_sub = Module::new("net".to_string(), "root/net".to_string());
    public_sub.add_export(Export::new("connect".to_string()));
    let mut private_sub = Module::new("hidden".to_string(), "root/hidden".to_string());
    private_sub.is_public = false;
    private_sub.add_export(Export::new("secret".to_string()));
    root.add_submodule(public_sub);
    root.add_submodule(private_sub);

    let all = root.get_all_exports();
    let names: Vec<String> = all.iter().map(|e| e.name.clone()).collect();
    assert_eq!(names, vec!["top".to_string(), "net::connect".to_string()]);
    assert!(!all[0].reexport);
    assert!(all[1].reexport);
}

#[test]
fn visibility_tokens() {
    assert_eq!(Visibility::from_token(&"pub".to_string()), Visibility::Public);
    assert_eq!(Visibility::from_token(&"pub(crate)".to_string()), Visibility::PubCrate);
    assert_eq!(Visibility::from_token(&"pub(super)".to_string()), Visibility::PubSuper);
    assert_eq!(Visibility::from_token(&"priv".to_string()), Visibility::Private);
    assert!(Visibility::PubCrate.is_public());
    assert!(!Visibility::Private.is_public());
}

#[test]
fn import_and_dependency_builders() {
    let i = Import::new("std::io".to_string()).with_alias("io".to_string()).glob().public();
    assert_eq!(i.path, "std::io");
    assert_eq!(i.alias, Some("io".to_string()));
    assert!(i.is_glob && i.is_pub);
    assert_eq!(i.level, 0);
    let d = Dependency::new("serde".to_string()).version("1.0".to_string()).path("../serde".to_string());
    assert_eq!(d.version, Some("1.0".to_string()));
    assert_eq!(d.path, Some("../serde".to_string()));
    assert!(d.default_features && !d.optional);
    assert!(Export::new("x".to_string()).reexport().reexport);
}

#[test]
fn package_defaults_and_resolver() {
    let mut p = Package::new("demo".to_string(), "0.1.0".to_string());
    assert_eq!(p.edition, "2024");
    assert_eq!(p.manifest_path, "Cargo.toml");
    p.add_dependency(Dependency::new("a".to_string()));
    assert_eq!(p.dependencies.len(), 1);
    let mut r = ModuleResolver::new(p);
    r.add_search_path("src".to_string());
    let e = chim_compiler::stdlib::module::Error::new(ErrorKind::ModuleNotFound, "m".to_string())
        .with_location("a.chim".to_string(), 3);
    let _ = e;
}

#[test]
fn module_parser_reads_items_line_by_line() {
    let content = "// a comment\n\
pub fn foo(x: i32) -> i32 {\n\
struct Point\n\
   \n\
use std::io\n\
pub(crate) fn bar\n\
impl Foo for Bar\n\
mod inner\r\n\
let x = 5\n\
pub\n\
pub pub enum E\n";
    let mut parser = ModuleParser::new();
    let m = parser
        .parse_module_content(&content.to_string(), &"src/net/server.chim".to_string())
        .unwrap();
    assert_eq!(m.name, "server");
    assert_eq!(m.path, "src/net/server.chim");
    let names: Vec<String> = m.items.iter().map(|i| i.name.clone()).collect();
    assert_eq!(names, vec!["foo", "Point", "std", "(", "impl", "inner", "let", "E"]);
    let public: Vec<bool> = m.items.iter().map(|i| i.visibility.is_public()).collect();
    assert_eq!(public, vec![true, false, false, true, false, false, false, true]);
    assert!(matches!(m.items[0].kind, ItemKind::Function(_)));
    assert!(matches!(m.items[1].kind, ItemKind::Struct(_)));
    assert_eq!(item_path(&m.items[2]), "std");
    assert!(matches!(m.items[4].kind, ItemKind::Impl(_)));
    match &m.items[5].kind {
        ItemKind::Function(f) => assert_eq!(f.sig.name, "mod"),
        _ => panic!("mod makes a function item"),
    }
    assert!(matches!(m.items[7].kind, ItemKind::Enum(_)));
}

#[test]
fn module_parser_name_without_directory() {
    let mut parser = ModuleParser::new();
    let m = parser.parse_module_content(&String::new(), &"lib.chim".to_string()).unwrap();
    assert_eq!(m.name, "lib");
    assert!(m.items.is_empty());
}
