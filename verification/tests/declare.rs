use kintsu_parser::declare::{
    Builtin, DeclArg, DeclComment, DeclField, DeclNamespace, DeclOperation, DeclStruct, DeclType, Meta,
    TypeDefinition, TypeRegistryDeclaration,
};
use kintsu_parser::refset::{DeclNamedItemContext, DeclRefContext, RefSet};
use kintsu_parser::ordmap::StrMap;
use kintsu_parser::defs::Spanned;

fn item(pkg: &str, ns: &[&str], name: &str) -> DeclNamedItemContext {
    DeclNamedItemContext {
        context: DeclRefContext { package: pkg.to_string(), namespace: ns.iter().map(|s| s.to_string()).collect() },
        name: name.to_string(),
    }
}

fn named(pkg: &str, name: &str) -> DeclType {
    DeclType::Named { reference: item(pkg, &["types"], name) }
}

fn names(set: &RefSet) -> Vec<String> {
    set.as_vec().iter().map(|r| r.qualified_path()).collect()
}

#[test]
fn qualified_paths_and_external() {
    let r = item("pkg", &["a", "b"], "User");
    assert_eq!(r.qualified_path(), "pkg::a::b::User");
    assert!(r.is_external("root"));
    assert!(!r.is_external("pkg"));
}

#[test]
fn external_refs_of_a_type_in_path_order_without_repeats() {
    let t = DeclType::MapOf {
        key_type: Box::new(named("zeta", "K")),
        value_type: Box::new(DeclType::Result {
            ok_type: Box::new(DeclType::Array { element_type: Box::new(named("alpha", "V")) }),
            error: item("zeta", &["types"], "K"),
        }),
    };
    let mut refs = RefSet::new();
    t.collect_external_refs("root", &mut refs);
    assert_eq!(names(&refs), vec!["alpha::types::V", "zeta::types::K"]);
    let local = named("root", "Local");
    local.collect_external_refs("root", &mut refs);
    assert_eq!(refs.len(), 2);
}

#[test]
fn external_refs_of_a_namespace() {
    let op = TypeDefinition::Operation(DeclOperation {
        name: "get".to_string(),
        args: vec![DeclArg { name: "id".to_string(), ty: named("ext", "Id"), default_value: None, comments: DeclComment::new() }],
        return_type: DeclType::Builtin { ty: Builtin::Bool },
        meta: Meta::new(1),
        comments: DeclComment::new(),
    });
    let st = TypeDefinition::Struct(DeclStruct {
        name: "S".to_string(),
        fields: vec![DeclField {
            name: "f".to_string(),
            ty: DeclType::Optional { inner_type: Box::new(named("dep", "T")) },
            default_value: None,
            optional: true,
            comments: DeclComment::new(),
        }],
        meta: Meta::new(1),
        comments: DeclComment::new(),
    });
    let inner = DeclNamespace {
        name: "inner".to_string(),
        version: None,
        error: Some(item("err", &[], "E")),
        types: vec![],
        namespaces: vec![],
        comments: DeclComment::new(),
    };
    let ns = DeclNamespace {
        name: "outer".to_string(),
        version: Some(1),
        error: None,
        types: vec![op, st],
        namespaces: vec![("inner".to_string(), Box::new(inner))],
        comments: DeclComment::new(),
    };
    let mut refs = RefSet::new();
    ns.collect_external_refs("root", &mut refs);
    assert_eq!(names(&refs), vec!["dep::types::T", "err::E", "ext::types::Id"]);
    assert_eq!(ns.types[0].name(), "get");
    assert_eq!(ns.types[1].meta().version, 1);
}

#[test]
fn registry_declaration_collects_refs() {
    let mut decl = TypeRegistryDeclaration::new("root".to_string());
    let mut a = RefSet::new();
    a.insert(item("b", &[], "X"));
    a.insert(item("a", &[], "Y"));
    a.insert(item("a", &[], "Y"));
    decl.extend_refs(a);
    assert_eq!(names(&decl.external_refs), vec!["a::Y", "b::X"]);
}

#[test]
fn comments_and_versions() {
    let mut c = DeclComment::from_vec(vec!["one".to_string()]);
    assert!(!c.is_empty());
    c.push("two".to_string());
    c.merge(DeclComment::from_vec(vec!["three".to_string()]));
    assert_eq!(c.comments, vec!["one", "two", "three"]);
    assert!(DeclComment::new().is_empty());
    let mut versions: StrMap<Spanned<u32>> = StrMap::new();
    versions.insert("User".to_string(), Spanned::call_site(3));
    assert_eq!(Meta::from_resolved_version("User", &versions).map(|m| m.version), Some(3));
    assert!(Meta::from_resolved_version("Other", &versions).is_none());
}
