//! The Chim module system: modules and their items, visibility, imports and
//! exports, packages and their dependencies.
use vstd::prelude::*;
use super::path::Path;
use super::generics::{GenericParamList, WhereClause, Type};
use crate::text::{owned, str_eq, string_push_str};

pub mod source;

verus! {

/// A module: its items, submodules, imports, exports and attributes.
#[derive(Debug)]
pub struct Module {
    pub name: String,
    pub path: String,
    pub items: Vec<ModuleItem>,
    pub submodules: Vec<Module>,
    pub is_public: bool,
    pub imports: Vec<Import>,
    pub exports: Vec<Export>,
    pub attributes: Vec<Attribute>,
}

/// An item of a module.
#[derive(Debug)]
pub struct ModuleItem {
    pub name: String,
    pub kind: ItemKind,
    pub visibility: Visibility,
    pub doc_comment: Option<String>,
    pub attributes: Vec<Attribute>,
}

/// The kinds of module item.
#[derive(Debug, Clone)]
pub enum ItemKind {
    Function(FunctionItem),
    Struct(StructItem),
    Enum(EnumItem),
    Trait(TraitItem),
    Impl(ImplItem),
    Type(TypeItem),
    Const(ConstItem),
    Static(StaticItem),
    Macro(MacroItem),
    Use(UseItem),
}

#[derive(Debug, Clone)]
pub struct FunctionItem {
    pub sig: FunctionSignature,
    pub body: Option<String>,
    pub is_inline: bool,
    pub is_const: bool,
    pub is_unsafe: bool,
}

#[derive(Debug, Clone)]
pub struct FunctionSignature {
    pub name: String,
    pub params: Vec<FunctionParam>,
    pub return_type: Type,
    pub generics: GenericParamList,
    pub where_clause: Option<WhereClause>,
}

#[derive(Debug, Clone)]
pub struct FunctionParam {
    pub name: String,
    pub ty: Type,
    pub default: Option<String>,
}

#[derive(Debug, Clone)]
pub struct StructItem {
    pub fields: Vec<StructField>,
    pub generics: GenericParamList,
    pub is_pub: bool,
    pub is_union: bool,
}

#[derive(Debug, Clone)]
pub struct StructField {
    pub name: String,
    pub ty: Type,
    pub visibility: Visibility,
    pub doc_comment: Option<String>,
}

#[derive(Debug, Clone)]
pub struct EnumItem {
    pub variants: Vec<EnumVariant>,
    pub generics: GenericParamList,
    pub is_pub: bool,
}

#[derive(Debug, Clone)]
pub struct EnumVariant {
    pub name: String,
    pub fields: Vec<EnumVariantField>,
    pub doc_comment: Option<String>,
}

#[derive(Debug, Clone)]
pub struct EnumVariantField {
    pub name: Option<String>,
    pub ty: Type,
}

#[derive(Debug, Clone)]
pub struct TraitItem {
    pub name: String,
    pub generics: GenericParamList,
    pub super_traits: Vec<String>,
    pub items: Vec<TraitItemKind>,
    pub is_auto: bool,
}

#[derive(Debug, Clone)]
pub enum TraitItemKind {
    Function(FunctionSignature),
    Const(String),
    Type(String, Option<Type>),
}

#[derive(Debug, Clone)]
pub struct ImplItem {
    pub target: Type,
    pub generics: GenericParamList,
    pub trait_name: Option<String>,
    pub items: Vec<ImplItemKind>,
    pub is_unsafe: bool,
}

#[derive(Debug, Clone)]
pub enum ImplItemKind {
    Function(FunctionItem),
    Const(String, String),
    Type(String, Type),
}

#[derive(Debug, Clone)]
pub struct TypeItem {
    pub name: String,
    pub ty: Type,
    pub generics: GenericParamList,
    pub is_pub: bool,
}

#[derive(Debug, Clone)]
pub struct ConstItem {
    pub name: String,
    pub ty: Type,
    pub value: String,
    pub is_pub: bool,
    pub is_const: bool,
}

#[derive(Debug, Clone)]
pub struct StaticItem {
    pub name: String,
    pub ty: Type,
    pub value: String,
    pub is_pub: bool,
    pub is_mut: bool,
}

#[derive(Debug, Clone)]
pub struct MacroItem {
    pub name: String,
    pub rules: Vec<MacroRule>,
}

#[derive(Debug, Clone)]
pub struct MacroRule {
    pub pattern: String,
    pub body: String,
}

#[derive(Debug, Clone)]
pub struct UseItem {
    pub path: String,
    pub alias: Option<String>,
    pub is_glob: bool,
}

/// Visibility of an item.
#[derive(Debug, Clone, PartialEq)]
pub enum Visibility {
    Public,
    PubCrate,
    PubSuper,
    PubIn(Path),
    Private,
}

/// Mathematical form of a visibility.
pub enum VisibilityView {
    Public,
    PubCrate,
    PubSuper,
    PubIn(Seq<char>),
    Private,
}

impl View for Visibility {
    type V = VisibilityView;

    open spec fn view(&self) -> VisibilityView {
        match self {
            Visibility::Public => VisibilityView::Public,
            Visibility::PubCrate => VisibilityView::PubCrate,
            Visibility::PubSuper => VisibilityView::PubSuper,
            Visibility::PubIn(p) => VisibilityView::PubIn(p@),
            Visibility::Private => VisibilityView::Private,
        }
    }
}

fn copy_visibility(v: &Visibility) -> (r: Visibility)
    ensures
        r@ == v@,
{
    match v {
        Visibility::Public => Visibility::Public,
        Visibility::PubCrate => Visibility::PubCrate,
        Visibility::PubSuper => Visibility::PubSuper,
        Visibility::PubIn(p) => Visibility::PubIn(p.duplicate()),
        Visibility::Private => Visibility::Private,
    }
}

impl Visibility {
    /// Every visibility but `Private` is public.
    pub fn is_public(&self) -> (r: bool)
        ensures
            r == !(*self is Private),
    {
        match self {
            Visibility::Public | Visibility::PubCrate | Visibility::PubSuper | Visibility::PubIn(_) => true,
            Visibility::Private => false,
        }
    }

    /// `pub`, `pub(crate)` and `pub(super)`; anything else is private.
    pub fn from_token(token: &String) -> (r: Visibility)
        ensures
            token@ == "pub"@ ==> r is Public,
            token@ == "pub(crate)"@ ==> r is PubCrate,
            token@ == "pub(super)"@ ==> r is PubSuper,
            token@ != "pub"@ && token@ != "pub(crate)"@ && token@ != "pub(super)"@ ==> r is Private,
    {
        proof {
            reveal_strlit("pub");
            reveal_strlit("pub(crate)");
            reveal_strlit("pub(super)");
            assert("pub"@.len() != "pub(crate)"@.len());
            assert("pub"@.len() != "pub(super)"@.len());
            assert("pub(crate)"@[4] != "pub(super)"@[4]);
        }
        if str_eq(token.as_str(), "pub") {
            Visibility::Public
        } else if str_eq(token.as_str(), "pub(crate)") {
            Visibility::PubCrate
        } else if str_eq(token.as_str(), "pub(super)") {
            Visibility::PubSuper
        } else {
            Visibility::Private
        }
    }
}

/// An import of a module path.
#[derive(Debug, Clone)]
pub struct Import {
    pub path: String,
    pub alias: Option<String>,
    pub is_glob: bool,
    pub is_pub: bool,
    pub level: i64,
}

impl Import {
    /// A plain private import of `path`.
    pub fn new(path: String) -> (r: Import)
        ensures
            r.path == path,
            r.alias is None,
            !r.is_glob,
            !r.is_pub,
            r.level == 0,
    {
        Import { path, alias: None, is_glob: false, is_pub: false, level: 0 }
    }

    pub fn with_alias(self, alias: String) -> (r: Import)
        ensures
            r == (Import { alias: Some(alias), ..self }),
    {
        let mut i = self;
        i.alias = Some(alias);
        i
    }

    pub fn glob(self) -> (r: Import)
        ensures
            r == (Import { is_glob: true, ..self }),
    {
        let mut i = self;
        i.is_glob = true;
        i
    }

    pub fn public(self) -> (r: Import)
        ensures
            r == (Import { is_pub: true, ..self }),
    {
        let mut i = self;
        i.is_pub = true;
        i
    }
}

/// An exported name.
#[derive(Debug, Clone)]
pub struct Export {
    pub name: String,
    pub reexport: bool,
    pub visibility: Visibility,
}

/// Mathematical form of an export.
pub struct ExportView {
    pub name: Seq<char>,
    pub reexport: bool,
    pub visibility: VisibilityView,
}

impl View for Export {
    type V = ExportView;

    open spec fn view(&self) -> ExportView {
        ExportView { name: self.name@, reexport: self.reexport, visibility: self.visibility@ }
    }
}

impl Export {
    /// A public export that is not a re-export.
    pub fn new(name: String) -> (r: Export)
        ensures
            r.name == name,
            !r.reexport,
            r.visibility is Public,
    {
        Export { name, reexport: false, visibility: Visibility::Public }
    }

    pub fn reexport(self) -> (r: Export)
        ensures
            r == (Export { reexport: true, ..self }),
    {
        let mut e = self;
        e.reexport = true;
        e
    }
}

/// An attribute.
#[derive(Debug)]
pub struct Attribute {
    pub name: String,
    pub args: Vec<AttributeArg>,
    pub style: AttributeStyle,
}

#[derive(Debug, Clone)]
pub enum AttributeStyle {
    Outer,
    Inner,
}

#[derive(Debug)]
pub enum AttributeArg {
    String(String),
    Eq(String),
    Path(String),
    Meta(MetaItem),
}

#[derive(Debug)]
pub struct MetaItem {
    pub name: String,
    pub value: MetaValue,
}

#[derive(Debug)]
pub enum MetaValue {
    NoValue,
    String(String),
    Path(String),
    List(Vec<MetaItem>),
}

/// A package manifest.
#[derive(Debug, Clone)]
pub struct Package {
    pub name: String,
    pub version: String,
    pub authors: Vec<String>,
    pub description: Option<String>,
    pub license: Option<String>,
    pub edition: String,
    pub workspace: Option<String>,
    pub targets: Vec<PackageTarget>,
    pub dependencies: Vec<Dependency>,
    pub dev_dependencies: Vec<Dependency>,
    pub build_dependencies: Vec<Dependency>,
    pub features: Vec<Feature>,
    pub manifest_path: String,
}

impl Package {
    /// A package of edition 2024 described by `Cargo.toml`, with nothing
    /// else set.
    pub fn new(name: String, version: String) -> (r: Package)
        ensures
            r.name == name,
            r.version == version,
            r.authors@.len() == 0,
            r.description is None,
            r.license is None,
            r.edition@ == "2024"@,
            r.workspace is None,
            r.targets@.len() == 0,
            r.dependencies@.len() == 0,
            r.dev_dependencies@.len() == 0,
            r.build_dependencies@.len() == 0,
            r.features@.len() == 0,
            r.manifest_path@ == "Cargo.toml"@,
    {
        Package {
            name,
            version,
            authors: Vec::new(),
            description: None,
            license: None,
            edition: owned("2024"),
            workspace: None,
            targets: Vec::new(),
            dependencies: Vec::new(),
            dev_dependencies: Vec::new(),
            build_dependencies: Vec::new(),
            features: Vec::new(),
            manifest_path: owned("Cargo.toml"),
        }
    }

    pub fn add_dependency(&mut self, dep: Dependency)
        ensures
            *final(self) == (Package { dependencies: final(self).dependencies, ..*old(self) }),
            final(self).dependencies@ == old(self).dependencies@.push(dep),
    {
        self.dependencies.push(dep);
    }

    pub fn add_target(&mut self, target: PackageTarget)
        ensures
            *final(self) == (Package { targets: final(self).targets, ..*old(self) }),
            final(self).targets@ == old(self).targets@.push(target),
    {
        self.targets.push(target);
    }
}

#[derive(Debug, Clone)]
pub struct PackageTarget {
    pub name: String,
    pub kind: TargetKind,
    pub path: String,
    pub edition: String,
    pub features: Vec<String>,
    pub dependencies: Vec<Dependency>,
}

#[derive(Debug, Clone)]
pub enum TargetKind {
    Bin,
    Lib,
    Test,
    Benchmark,
    Example,
}

/// A dependency of a package.
#[derive(Debug, Clone)]
pub struct Dependency {
    pub name: String,
    pub version: Option<String>,
    pub path: Option<String>,
    pub git: Option<String>,
    pub branch: Option<String>,
    pub features: Vec<String>,
    pub optional: bool,
    pub default_features: bool,
}

impl Dependency {
    /// A required dependency with default features and no source set.
    pub fn new(name: String) -> (r: Dependency)
        ensures
            r.name == name,
            r.version is None,
            r.path is None,
            r.git is None,
            r.branch is None,
            r.features@.len() == 0,
            !r.optional,
            r.default_features,
    {
        Dependency {
            name,
            version: None,
            path: None,
            git: None,
            branch: None,
            features: Vec::new(),
            optional: false,
            default_features: true,
        }
    }

    pub fn version(self, version: String) -> (r: Dependency)
        ensures
            r == (Dependency { version: Some(version), ..self }),
    {
        let mut d = self;
        d.version = Some(version);
        d
    }

    pub fn path(self, path: String) -> (r: Dependency)
        ensures
            r == (Dependency { path: Some(path), ..self }),
    {
        let mut d = self;
        d.path = Some(path);
        d
    }

    pub fn git(self, url: String) -> (r: Dependency)
        ensures
            r == (Dependency { git: Some(url), ..self }),
    {
        let mut d = self;
        d.git = Some(url);
        d
    }
}

#[derive(Debug, Clone)]
pub struct Feature {
    pub name: String,
    pub dependencies: Vec<String>,
    pub optional_deps: Vec<String>,
}

/// Kinds of module error.
#[derive(Debug, Clone, Copy, PartialEq, Eq, Structural)]
pub enum ErrorKind {
    IOError,
    ParseError,
    ModuleNotFound,
    ItemNotFound,
    VisibilityError,
    CyclicDependency,
    DuplicateItem,
    InvalidPath,
}

/// A module error with an optional source location.
#[derive(Debug, Clone)]
pub struct Error {
    kind: ErrorKind,
    message: String,
    location: Option<(String, i64)>,
}

impl Error {
    pub closed spec fn kind_of(&self) -> ErrorKind {
        self.kind
    }

    pub closed spec fn text(&self) -> Seq<char> {
        self.message@
    }

    pub closed spec fn place(&self) -> Option<(Seq<char>, i64)> {
        match self.location {
            Some(l) => Some((l.0@, l.1)),
            None => None,
        }
    }

    pub fn new(kind: ErrorKind, message: String) -> (r: Error)
        ensures
            r.kind_of() == kind,
            r.text() == message@,
            r.place() is None,
    {
        Error { kind, message, location: None }
    }

    pub fn with_location(self, file: String, line: i64) -> (r: Error)
        ensures
            r.kind_of() == self.kind_of(),
            r.text() == self.text(),
            r.place() == Some((file@, line)),
    {
        let mut e = self;
        e.location = Some((file, line));
        e
    }
}


/// The first item named `name` in a list.
pub open spec fn first_item(items: Seq<ModuleItem>, name: Seq<char>) -> Option<ModuleItem>
    decreases items.len(),
{
    if items.len() == 0 {
        None
    } else if items[0].name@ == name {
        Some(items[0])
    } else {
        first_item(items.drop_first(), name)
    }
}

/// The item found for `name`: the module's own first, then each submodule's
/// in order, depth first.
pub open spec fn find_item_spec(m: Module, name: Seq<char>) -> Option<ModuleItem>
    decreases m,
{
    match first_item(m.items@, name) {
        Some(it) => Some(it),
        None => find_in_subs(m.submodules@, name),
    }
}

/// The item found for `name` in the first submodule that has one.
pub open spec fn find_in_subs(subs: Seq<Module>, name: Seq<char>) -> Option<ModuleItem>
    decreases subs,
{
    if subs.len() == 0 {
        None
    } else {
        match find_item_spec(subs[0], name) {
            Some(it) => Some(it),
            None => find_in_subs(subs.drop_first(), name),
        }
    }
}

/// The exports of a list with `prefix::` put before each name, all marked as
/// re-exports.
pub open spec fn prefixed(prefix: Seq<char>, es: Seq<ExportView>) -> Seq<ExportView> {
    es.map_values(|e: ExportView| ExportView { name: prefix + "::"@ + e.name, reexport: true, visibility: e.visibility })
}

/// A module's exports followed by those of its public submodules, each
/// prefixed with the submodule's name.
pub open spec fn exports_spec(m: Module) -> Seq<ExportView>
    decreases m,
{
    m.exports@.map_values(|e: Export| e@) + subs_exports(m.submodules@)
}

pub open spec fn subs_exports(subs: Seq<Module>) -> Seq<ExportView>
    decreases subs,
{
    if subs.len() == 0 {
        Seq::empty()
    } else {
        (if subs[0].is_public {
            prefixed(subs[0].name@, exports_spec(subs[0]))
        } else {
            Seq::empty()
        }) + subs_exports(subs.drop_first())
    }
}

fn copy_export(e: &Export) -> (r: Export)
    ensures
        r@ == e@,
{
    Export { name: e.name.clone(), reexport: e.reexport, visibility: copy_visibility(&e.visibility) }
}

impl Module {
    /// An empty public module.
    pub fn new(name: String, path: String) -> (r: Module)
        ensures
            r.name == name,
            r.path == path,
            r.items@.len() == 0,
            r.submodules@.len() == 0,
            r.is_public,
            r.imports@.len() == 0,
            r.exports@.len() == 0,
            r.attributes@.len() == 0,
    {
        Module {
            name,
            path,
            items: Vec::new(),
            submodules: Vec::new(),
            is_public: true,
            imports: Vec::new(),
            exports: Vec::new(),
            attributes: Vec::new(),
        }
    }

    pub fn add_item(&mut self, item: ModuleItem)
        ensures
            *final(self) == (Module { items: final(self).items, ..*old(self) }),
            final(self).items@ == old(self).items@.push(item),
    {
        self.items.push(item);
    }

    pub fn add_submodule(&mut self, module: Module)
        ensures
            *final(self) == (Module { submodules: final(self).submodules, ..*old(self) }),
            final(self).submodules@ == old(self).submodules@.push(module),
    {
        self.submodules.push(module);
    }

    pub fn add_import(&mut self, import: Import)
        ensures
            *final(self) == (Module { imports: final(self).imports, ..*old(self) }),
            final(self).imports@ == old(self).imports@.push(import),
    {
        self.imports.push(import);
    }

    pub fn add_export(&mut self, export: Export)
        ensures
            *final(self) == (Module { exports: final(self).exports, ..*old(self) }),
            final(self).exports@ == old(self).exports@.push(export),
    {
        self.exports.push(export);
    }

    /// The first item named `name`, searching this module and then its
    /// submodules depth first.
    pub fn find_item(&self, name: &String) -> (r: Option<&ModuleItem>)
        ensures
            match r {
                Some(it) => find_item_spec(*self, name@) == Some(*it),
                None => find_item_spec(*self, name@) is None,
            },
        decreases self,
    {
        let mut i: usize = 0;
        assert(self.items@.skip(0) =~= self.items@);
        while i < self.items.len()
            invariant
                i <= self.items@.len(),
                first_item(self.items@, name@) == first_item(self.items@.skip(i as int), name@),
            decreases self.items@.len() - i,
        {
            let ghost rest = self.items@.skip(i as int);
            assert(rest[0] == self.items@[i as int]);
            if str_eq(self.items[i].name.as_str(), name.as_str()) {
                return Some(&self.items[i]);
            }
            assert(rest.drop_first() =~= self.items@.skip(i + 1));
            i = i + 1;
        }
        assert(self.items@.skip(i as int) =~= Seq::<ModuleItem>::empty());
        assert(first_item(self.items@, name@) is None);
        let subs = &self.submodules;
        let mut j: usize = 0;
        assert(subs@.skip(0) =~= subs@);
        while j < subs.len()
            invariant
                j <= subs@.len(),
                *subs == self.submodules,
                first_item(self.items@, name@) is None,
                find_in_subs(subs@, name@) == find_in_subs(subs@.skip(j as int), name@),
            decreases subs@.len() - j,
        {
            let ghost rest = subs@.skip(j as int);
            assert(rest[0] == subs@[j as int]);
            proof {
                assert(decreases_to!(*self => self.submodules));
                assert(decreases_to!(self.submodules => subs@));
                assert(decreases_to!(subs@ => subs@[j as int]));
            }
            match subs[j].find_item(name) {
                Some(it) => {
                    assert(find_in_subs(rest, name@) == Some(*it));
                    return Some(it);
                },
                None => {},
            }
            assert(rest.drop_first() =~= subs@.skip(j + 1));
            j = j + 1;
        }
        assert(subs@.skip(j as int) =~= Seq::<Module>::empty());
        None
    }

    /// The first submodule named `name`.
    pub fn find_submodule(&self, name: &String) -> (r: Option<&Module>)
        ensures
            match r {
                Some(m) => exists|i: int| 0 <= i < self.submodules@.len() && self.submodules@[i] == *m
                    && m.name@ == name@ && forall|j: int| 0 <= j < i ==> #[trigger] self.submodules@[j].name@ != name@,
                None => forall|j: int| 0 <= j < self.submodules@.len() ==> #[trigger] self.submodules@[j].name@ != name@,
            },
    {
        let mut i: usize = 0;
        while i < self.submodules.len()
            invariant
                i <= self.submodules@.len(),
                forall|j: int| 0 <= j < i ==> #[trigger] self.submodules@[j].name@ != name@,
            decreases self.submodules@.len() - i,
        {
            if str_eq(self.submodules[i].name.as_str(), name.as_str()) {
                return Some(&self.submodules[i]);
            }
            i = i + 1;
        }
        None
    }

    /// This module's exports, then those of each public submodule with the
    /// submodule's name and `::` put before the name and marked as
    /// re-exports.
    pub fn get_all_exports(&self) -> (r: Vec<Export>)
        ensures
            r@.map_values(|e: Export| e@) == exports_spec(*self),
        decreases self,
    {
        let mut out: Vec<Export> = Vec::new();
        let mut i: usize = 0;
        while i < self.exports.len()
            invariant
                i <= self.exports@.len(),
                out@.map_values(|e: Export| e@) == self.exports@.take(i as int).map_values(|e: Export| e@),
            decreases self.exports@.len() - i,
        {
            let c = copy_export(&self.exports[i]);
            let ghost cv = c@;
            let ghost before = out@;
            out.push(c);
            proof {
                assert(out@ == before.push(c));
                assert(self.exports@.take(i + 1) =~= self.exports@.take(i as int).push(self.exports@[i as int]));
                assert(out@.map_values(|e: Export| e@) =~= before.map_values(|e: Export| e@).push(cv));
                assert(out@.map_values(|e: Export| e@) =~= self.exports@.take(i + 1).map_values(|e: Export| e@));
            }
            i = i + 1;
        }
        assert(self.exports@.take(i as int) =~= self.exports@);
        let subs = &self.submodules;
        let mut j: usize = 0;
        assert(subs@.skip(0) =~= subs@);
        while j < subs.len()
            invariant
                j <= subs@.len(),
                *subs == self.submodules,
                exports_spec(*self) == out@.map_values(|e: Export| e@) + subs_exports(subs@.skip(j as int)),
            decreases subs@.len() - j,
        {
            let ghost rest = subs@.skip(j as int);
            assert(rest[0] == subs@[j as int]);
            assert(rest.drop_first() =~= subs@.skip(j + 1));
            let sub = &subs[j];
            if sub.is_public {
                proof {
                    assert(decreases_to!(*self => self.submodules));
                    assert(decreases_to!(self.submodules => subs@));
                    assert(decreases_to!(subs@ => subs@[j as int]));
                }
                let inner = sub.get_all_exports();
                let ghost base = out@.map_values(|e: Export| e@);
                let ghost block = prefixed(sub.name@, exports_spec(*sub));
                let mut k: usize = 0;
                while k < inner.len()
                    invariant
                        k <= inner@.len(),
                        inner@.map_values(|e: Export| e@) == exports_spec(*sub),
                        block == prefixed(sub.name@, exports_spec(*sub)),
                        out@.map_values(|e: Export| e@) == base + block.take(k as int),
                    decreases inner@.len() - k,
                {
                    let mut name = sub.name.clone();
                    string_push_str(&mut name, "::");
                    string_push_str(&mut name, inner[k].name.as_str());
                    let e = Export { name, reexport: true, visibility: copy_visibility(&inner[k].visibility) };
                    let ghost ev = e@;
                    let ghost before = out@;
                    out.push(e);
                    proof {
                        assert(inner@.map_values(|e: Export| e@)[k as int] == inner@[k as int]@);
                        assert(ev == block[k as int]);
                        assert(out@.map_values(|e: Export| e@) =~= before.map_values(|e: Export| e@).push(ev));
                        assert(block.take(k + 1) =~= block.take(k as int).push(block[k as int]));
                        assert(out@.map_values(|e: Export| e@) =~= base + block.take(k + 1));
                    }
                    k = k + 1;
                }
                proof {
                    assert(block.take(k as int) =~= block);
                    assert(base + block + subs_exports(subs@.skip(j + 1)) =~= base + (block + subs_exports(subs@.skip(j + 1))));
                }
            } else {
                assert(Seq::<ExportView>::empty() + subs_exports(subs@.skip(j + 1)) =~= subs_exports(subs@.skip(j + 1)));
            }
            j = j + 1;
        }
        assert(subs@.skip(j as int) =~= Seq::<Module>::empty());
        assert(out@.map_values(|e: Export| e@) + Seq::<ExportView>::empty() =~= out@.map_values(|e: Export| e@));
        out
    }
}

/// Reads module text into items.
pub struct ModuleParser {
    current_module: Option<Module>,
    path_stack: Vec<String>,
}

/// Resolves modules of a package along search paths.
pub struct ModuleResolver {
    package: Package,
    search_paths: Vec<String>,
}

impl ModuleResolver {
    pub closed spec fn paths(&self) -> Seq<Seq<char>> {
        self.search_paths@.map_values(|p: String| p@)
    }

    pub closed spec fn package_of(&self) -> Package {
        self.package
    }

    /// A resolver for `package` with no search paths.
    pub fn new(package: Package) -> (r: ModuleResolver)
        ensures
            r.package_of() == package,
            r.paths() == Seq::<Seq<char>>::empty(),
    {
        let r = ModuleResolver { package, search_paths: Vec::new() };
        assert(r.paths() =~= Seq::<Seq<char>>::empty());
        r
    }

    /// Adds a directory to search, after the earlier ones.
    pub fn add_search_path(&mut self, path: String)
        ensures
            final(self).paths() == old(self).paths().push(path@),
            final(self).package_of() == old(self).package_of(),
    {
        let ghost p = path@;
        self.search_paths.push(path);
        assert(self.paths() =~= old(self).paths().push(p));
    }
}

} // verus!
