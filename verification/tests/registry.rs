use std::sync::Arc;

use kintsu_parser::ast::{Builtin, PathOrIdent, Type, TypeAlias, TypeDef};
use kintsu_parser::common::{Definition, FromNamedSource, NamespaceCtx};
use kintsu_parser::defs::{RawSpan, Span, Spanned};
use kintsu_parser::paths::{RefContext, RefOrItemContext};
use kintsu_parser::toks::{IdentToken, Path};
use kintsu_parser::type_registry::{RegistryError, TypeRegistry};

fn ident(s: &str) -> Spanned<IdentToken> {
    Spanned::call_site(IdentToken::new(s.to_string()))
}

fn alias_def(name: &str) -> Definition {
    Definition::TypeAlias(Arc::new(TypeDef {
        comments: vec![],
        meta: vec![],
        def: Spanned::call_site(TypeAlias {
            name: ident(name),
            ty: Spanned::call_site(Type::Builtin { ty: Spanned::call_site(Builtin::I32) }),
        }),
    }))
}

fn create_raw_namespace(name: &str) -> NamespaceCtx {
    NamespaceCtx { sources: kintsu_parser::ordmap::StrMap::new(), comments: vec![], tag: None, namespace: FromNamedSource { source: String::new(), value: kintsu_parser::defs::Spanned::call_site(kintsu_parser::toks::IdentToken::new(String::from("ns"))) },
        ctx: RefContext::new("test_package".to_string(), vec![name.to_string()]),
        error: None,
        version: None,
        imports: vec![],
        children: vec![], resolved_versions: kintsu_parser::ordmap::StrMap::new(), resolved_errors: kintsu_parser::ordmap::StrMap::new(), resolved_aliases: kintsu_parser::ordmap::StrMap::new(),
    }
}

fn reference(text: &str) -> PathOrIdent {
    let bits: Vec<String> = text.split("::").map(|s| s.to_string()).collect();
    if bits.len() == 1 {
        PathOrIdent::Ident(ident(text))
    } else {
        PathOrIdent::Path(Spanned::call_site(Path::Ambiguous { bits }))
    }
}

#[test]
fn test_registry_creation() {
    let registry = TypeRegistry::new();
    assert_eq!(registry.all_types().len(), 0, "New registry should be empty");
}

#[test]
fn test_registry_resolve() {
    let mut registry = TypeRegistry::new();
    let ctx = RefContext::new("test_pkg".into(), vec!["types".into()]);
    registry
        .register(&ctx, &Spanned::call_site(IdentToken::new("Foo".into())), alias_def("Foo"), Span::CallSite, "foo.ks".into())
        .unwrap();

    for (path, i) in [
        (
            "test_pkg::types::Foo",
            FromNamedSource {
                source: "foo.ks".to_string(),
                value: RefOrItemContext::Ref(RefContext { package: "test_pkg".into(), namespace: vec![] }),
            },
        ),
        ("types::Foo", FromNamedSource { source: "foo.ks".to_string(), value: RefOrItemContext::Ref(ctx.duplicate()) }),
        (
            "Foo",
            FromNamedSource {
                source: "foo.ks".to_string(),
                value: RefOrItemContext::Item(ctx.item(Spanned::call_site(IdentToken::new("Foo".into())))),
            },
        ),
    ] {
        let mut ns = create_raw_namespace("user");
        ns.imports.push(i);
        let _ = registry.resolve(&ctx, &reference(path), &ns).expect("Failed to resolve type");
    }
}

#[test]
fn registry_refuses_a_second_registration() {
    let mut registry = TypeRegistry::new();
    let ctx = RefContext::new("pkg".into(), vec!["ns".into()]);
    registry.register(&ctx, &ident("Foo"), alias_def("Foo"), Span::new(3, 6), "a.ks".into()).unwrap();
    match registry.register(&ctx, &ident("Foo"), alias_def("Foo"), Span::new(10, 13), "b.ks".into()) {
        Err(RegistryError::DuplicateType { name, span }) => {
            assert_eq!(name, "pkg::ns::Foo");
            assert_eq!(span, RawSpan { start: 10, end: 13 });
        },
        other => panic!("expected a duplicate, got {:?}", other),
    }
    let all = registry.all_types();
    assert_eq!(all.len(), 1);
    assert_eq!(all[0].1, "a.ks");
    assert_eq!(all[0].2, Span::new(3, 6));
}

#[test]
fn registry_lists_types_in_path_order_and_gets_them() {
    let mut registry = TypeRegistry::new();
    let ctx = RefContext::new("pkg".into(), vec!["ns".into()]);
    registry.register(&ctx, &ident("Zed"), alias_def("Zed"), Span::CallSite, "z.ks".into()).unwrap();
    registry.register(&ctx, &ident("Alpha"), alias_def("Alpha"), Span::CallSite, "a.ks".into()).unwrap();
    let names: Vec<String> = registry.all_types().iter().map(|t| t.0.display()).collect();
    assert_eq!(names, vec!["pkg::ns::Alpha".to_string(), "pkg::ns::Zed".to_string()]);
    let got = registry.get(&ctx.item(ident("Zed"))).expect("registered");
    assert_eq!(got.source, "z.ks");
    assert_eq!(got.value.value.qualified_path.display(), "pkg::ns::Zed");
    assert!(registry.get(&ctx.item(ident("Missing"))).is_none());
}

#[test]
fn registry_resolution_errors_name_the_reference() {
    let mut registry = TypeRegistry::new();
    let ctx = RefContext::new("pkg".into(), vec!["ns".into()]);
    registry.register(&ctx, &ident("User"), alias_def("User"), Span::CallSite, "u.ks".into()).unwrap();
    let ns = create_raw_namespace("ns");
    assert!(registry.is_valid(&ctx, &reference("User"), &ns));
    assert!(!registry.is_valid(&ctx, &reference("Account"), &ns));
    match registry.resolve_required(&ctx, &reference("other::Account"), &ns) {
        Err(RegistryError::UndefinedType { name }) => assert_eq!(name, "other::Account"),
        other => panic!("expected an undefined type, got {:?}", other),
    }
    assert!(registry.resolve_if_valid(&ctx, &reference("User"), &ns).is_some());
}
