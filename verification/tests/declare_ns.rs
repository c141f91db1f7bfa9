use std::sync::Arc;

use kintsu_parser::ast::{Builtin, CommentAst, CommentStream, MetaValue, Struct, StructDef, Type, TypeAlias, TypeDef};
use kintsu_parser::common::{Definition, FromNamedSource, NamespaceChild, NamespaceCtx};
use kintsu_parser::declare::TypeDefinition;
use kintsu_parser::declare_ns::{convert_namespace, convert_schema_to_declaration};
use kintsu_parser::defs::{Span, Spanned};
use kintsu_parser::ordmap::StrMap;
use kintsu_parser::paths::RefContext;
use kintsu_parser::refset::RefSet;
use kintsu_parser::resolution::NamespaceResolution;
use kintsu_parser::toks::IdentToken;
use kintsu_parser::type_registry::TypeRegistry;

fn ident(s: &str) -> Spanned<IdentToken> {
    Spanned::call_site(IdentToken::new(s.to_string()))
}

fn alias(name: &str) -> TypeDef {
    TypeDef {
        comments: vec![],
        meta: vec![],
        def: Spanned::call_site(TypeAlias {
            name: ident(name),
            ty: Spanned::call_site(Type::Builtin { ty: Spanned::call_site(Builtin::I32) }),
        }),
    }
}

fn namespace(ctx: RefContext, name: &str) -> NamespaceCtx {
    NamespaceCtx {
        sources: StrMap::new(),
        comments: vec![],
        tag: None,
        namespace: FromNamedSource { source: String::from("api.ks"), value: ident(name) },
        ctx,
        error: None,
        version: None,
        imports: vec![],
        children: vec![],
        resolved_versions: StrMap::new(),
        resolved_errors: StrMap::new(),
        resolved_aliases: StrMap::new(),
    }
}

fn add_alias(ns: &mut NamespaceCtx, registry: &mut TypeRegistry, name: &str) {
    let key = ns.ctx.item(ident(name));
    ns.children.push((key, FromNamedSource { source: String::from("api.ks"), value: NamespaceChild::Type(alias(name)) }));
    registry
        .register(&ns.ctx, &ident(name), Definition::TypeAlias(Arc::new(alias(name))), Span::CallSite, String::from("api.ks"))
        .unwrap();
}

fn alias_of(t: &TypeDefinition) -> (String, u32) {
    match t {
        TypeDefinition::TypeAlias(a) => (a.name.clone(), a.meta.version),
        _ => panic!("expected an alias"),
    }
}

#[test]
fn convert_namespace_declares_items_and_nested_namespaces() {
    let mut registry = TypeRegistry::new();
    let ctx = RefContext::new(String::from("my_pkg"), vec![String::from("api")]);
    let mut ns = namespace(ctx.duplicate(), "api");
    ns.version = Some(FromNamedSource {
        source: String::from("api.ks"),
        value: Spanned::call_site(MetaValue { value: Spanned::call_site(3) }),
    });
    ns.comments.push(FromNamedSource {
        source: String::from("api.ks"),
        value: CommentStream { comments: vec![Spanned::call_site(CommentAst::SingleLine(String::from("the api")))] },
    });
    add_alias(&mut ns, &mut registry, "Id");
    ns.resolved_versions.insert(String::from("Id"), Spanned::call_site(2));

    // An item of another package is left out.
    let other = RefContext::new(String::from("other_pkg"), vec![String::from("api")]);
    ns.children.push((other.item(ident("Ext")), FromNamedSource { source: String::from("api.ks"), value: NamespaceChild::Type(alias("Ext")) }));

    let inner_ctx = RefContext::new(String::from("my_pkg"), vec![String::from("api"), String::from("v1")]);
    let mut inner = namespace(inner_ctx, "v1");
    add_alias(&mut inner, &mut registry, "Token");
    ns.children.push((ctx.item(ident("v1")), FromNamedSource { source: String::from("api.ks"), value: NamespaceChild::Namespace(Box::new(inner)) }));

    let mut refs = RefSet::new();
    let d = convert_namespace(&ns, &registry, &String::from("my-pkg"), &mut refs).unwrap();
    assert_eq!(d.name, "api");
    assert_eq!(d.version, Some(3));
    assert!(d.error.is_none());
    assert_eq!(d.comments.comments, vec![String::from("the api")]);
    assert_eq!(d.types.len(), 1);
    assert_eq!(alias_of(&d.types[0]), (String::from("Id"), 2));
    assert_eq!(d.namespaces.len(), 1);
    assert_eq!(d.namespaces[0].0, "v1");
    let nested = &d.namespaces[0].1;
    assert_eq!(nested.name, "v1");
    assert_eq!(nested.version, None);
    assert_eq!(nested.types.len(), 1);
    assert_eq!(alias_of(&nested.types[0]), (String::from("Token"), 1));
    assert!(nested.namespaces.is_empty());
}

#[test]
fn convert_namespace_refuses_an_unregistered_item() {
    let registry = TypeRegistry::new();
    let ctx = RefContext::new(String::from("my_pkg"), vec![String::from("api")]);
    let mut ns = namespace(ctx.duplicate(), "api");
    ns.children.push((ctx.item(ident("Missing")), FromNamedSource { source: String::from("api.ks"), value: NamespaceChild::Type(alias("Missing")) }));
    let mut refs = RefSet::new();
    let e = convert_namespace(&ns, &registry, &String::from("my_pkg"), &mut refs).unwrap_err();
    assert_eq!(e.message, "Type 'Missing' not found in registry during declaration conversion. This is a compiler error.");
}

#[test]
fn convert_namespace_of_an_empty_namespace() {
    let registry = TypeRegistry::new();
    let ns = namespace(RefContext::new(String::from("my_pkg"), vec![String::from("empty")]), "empty");
    let mut refs = RefSet::new();
    let d = convert_namespace(&ns, &registry, &String::from("my_pkg"), &mut refs).unwrap();
    assert_eq!(d.name, "empty");
    assert!(d.types.is_empty() && d.namespaces.is_empty() && d.comments.comments.is_empty());
}

#[test]
fn integrate_resolution_adds_generated_structs_and_records_versions() {
    let mut registry = TypeRegistry::new();
    let ctx = RefContext::new(String::from("my_pkg"), vec![String::from("api")]);
    let mut ns = namespace(ctx, "api");
    add_alias(&mut ns, &mut registry, "C");
    let mut resolution = NamespaceResolution::new();
    resolution.anonymous_structs.push(FromNamedSource {
        source: String::from("api.ks"),
        value: Spanned::call_site(StructDef {
            comments: vec![],
            meta: vec![],
            def: Spanned::call_site(Struct { name: ident("B"), args: vec![] }),
        }),
    });
    resolution.union_structs.push(FromNamedSource {
        source: String::from("api.ks"),
        value: Spanned::call_site(StructDef {
            comments: vec![],
            meta: vec![],
            def: Spanned::call_site(Struct { name: ident("C"), args: vec![] }),
        }),
    });
    resolution.versions.insert(String::from("C"), Spanned::call_site(4));
    ns.integrate_resolution(resolution);
    assert_eq!(ns.children.len(), 2);
    assert_eq!(ns.children[0].0.name.value.0, "B");
    assert!(matches!(ns.children[0].1.value, NamespaceChild::Struct(_)));
    // The struct generated for `C` takes the place of the alias.
    assert_eq!(ns.children[1].0.name.value.0, "C");
    assert!(matches!(ns.children[1].1.value, NamespaceChild::Struct(_)));
    assert_eq!(ns.resolved_versions.get(&String::from("C")).map(|v| v.value), Some(4));
}

#[test]
fn convert_schema_to_declaration_declares_each_namespace_by_name() {
    let mut registry = TypeRegistry::new();
    let mut api = namespace(RefContext::new(String::from("my_pkg"), vec![String::from("api")]), "api");
    add_alias(&mut api, &mut registry, "Id");
    let mut models = namespace(RefContext::new(String::from("my_pkg"), vec![String::from("models")]), "models");
    add_alias(&mut models, &mut registry, "User");
    let mut namespaces = StrMap::new();
    namespaces.insert(String::from("models"), models);
    namespaces.insert(String::from("api"), api);
    let d = convert_schema_to_declaration(&String::from("my-pkg"), &namespaces, &registry).unwrap();
    assert_eq!(d.package, "my-pkg");
    assert_eq!(d.namespaces.len(), 2);
    let api = d.namespaces.get(&String::from("api")).unwrap();
    assert_eq!(alias_of(&api.types[0]), (String::from("Id"), 1));
    let models = d.namespaces.get(&String::from("models")).unwrap();
    assert_eq!(alias_of(&models.types[0]), (String::from("User"), 1));
}

#[test]
fn convert_schema_to_declaration_fails_as_its_first_failing_namespace() {
    let registry = TypeRegistry::new();
    let ctx = RefContext::new(String::from("my_pkg"), vec![String::from("api")]);
    let mut api = namespace(ctx.duplicate(), "api");
    api.children.push((ctx.item(ident("Gone")), FromNamedSource { source: String::from("api.ks"), value: NamespaceChild::Type(alias("Gone")) }));
    let mut namespaces = StrMap::new();
    namespaces.insert(String::from("api"), api);
    let e = convert_schema_to_declaration(&String::from("my_pkg"), &namespaces, &registry).unwrap_err();
    assert_eq!(e.message, "Type 'Gone' not found in registry during declaration conversion. This is a compiler error.");
}
