use kintsu_parser::alias_resolve::{AliasError, build_alias_graph, resolve_type_aliases};
use kintsu_parser::ast::{
    Array, Builtin, IdentOrUnion, PathOrIdent, Struct, StructDef, Type, TypeAlias, TypeDef, Union,
    UnionDiscriminant,
};
use kintsu_parser::common::{FromNamedSource, NamespaceChild, NamespaceCtx};
use kintsu_parser::defs::Spanned;
use kintsu_parser::ordmap::StrMap;
use kintsu_parser::paths::RefContext;
use kintsu_parser::toks::IdentToken;

fn ident(s: &str) -> Spanned<IdentToken> {
    Spanned::call_site(IdentToken::new(s.to_string()))
}

fn reference(name: &str) -> Type {
    Type::Ident { to: PathOrIdent::Ident(ident(name)) }
}

fn ns_with(children: Vec<(&str, NamespaceChild)>) -> NamespaceCtx {
    let ctx = RefContext::new("test_package".to_string(), vec!["test".to_string()]);
    let mut ns = NamespaceCtx { sources: kintsu_parser::ordmap::StrMap::new(), comments: vec![], tag: None, namespace: FromNamedSource { source: String::new(), value: kintsu_parser::defs::Spanned::call_site(kintsu_parser::toks::IdentToken::new(String::from("ns"))) }, ctx: ctx.duplicate(), error: None, version: None, imports: vec![], children: vec![], resolved_versions: kintsu_parser::ordmap::StrMap::new(), resolved_errors: kintsu_parser::ordmap::StrMap::new(), resolved_aliases: kintsu_parser::ordmap::StrMap::new() };
    for (name, child) in children {
        ns.children.push((ctx.item(ident(name)), FromNamedSource { source: "test.ks".to_string(), value: child }));
    }
    ns
}

fn type_alias(name: &str, ty: Type) -> (&str, NamespaceChild) {
    (
        name,
        NamespaceChild::Type(TypeDef {
            comments: vec![],
            meta: vec![],
            def: Spanned::call_site(TypeAlias { name: ident(name), ty: Spanned::call_site(ty) }),
        }),
    )
}

fn struct_def(name: &str) -> (&str, NamespaceChild) {
    (name, NamespaceChild::Struct(StructDef { comments: vec![], meta: vec![], def: Spanned::call_site(Struct { name: ident(name), args: vec![] }) }))
}

fn resolve(ns: &NamespaceCtx) -> Result<StrMap<Spanned<Type>>, AliasError> {
    let mut resolved = StrMap::new();
    resolve_type_aliases(ns, &mut resolved)?;
    Ok(resolved)
}

#[test]
fn test_simple_alias_chain() {
    let ns = ns_with(vec![
        type_alias("UserId", Type::Builtin { ty: Spanned::call_site(Builtin::I64) }),
        type_alias("PrimaryId", reference("UserId")),
        type_alias("RecordId", reference("PrimaryId")),
    ]);
    let result = resolve(&ns).expect("resolution should succeed");
    assert_eq!(result.len(), 3);
    assert!(matches!(result.get(&"RecordId".to_string()).map(|r| &r.value), Some(Type::Builtin { .. })));
}

#[test]
fn test_circular_alias_detection() {
    let ns = ns_with(vec![
        type_alias("A", reference("B")),
        type_alias("B", reference("C")),
        type_alias("C", reference("A")),
    ]);
    match resolve(&ns) {
        Err(AliasError::Circular(c)) => assert_eq!(c.chain, vec!["A".to_string(), "B".to_string(), "C".to_string()]),
        other => panic!("Should detect circular type alias, got {:?}", other.map(|m| m.len())),
    }
}

#[test]
fn circular_aliases_leave_the_map_unchanged() {
    let ns = ns_with(vec![type_alias("A", reference("A"))]);
    let mut resolved = StrMap::new();
    resolved.insert("Other".to_string(), Spanned::call_site(reference("X")));
    assert!(resolve_type_aliases(&ns, &mut resolved).is_err());
    assert_eq!(resolved.len(), 1);
}

#[test]
fn test_complex_type_alias_array() {
    let ns = ns_with(vec![
        struct_def("User"),
        type_alias("UserList", Type::Array { ty: Box::new(Spanned::call_site(Array::Unsized { ty: Box::new(Spanned::call_site(reference("User"))) })) }),
        type_alias("AdminList", reference("UserList")),
    ]);
    let result = resolve(&ns).expect("resolution should succeed");
    assert_eq!(result.len(), 2);
    assert!(matches!(result.get(&"AdminList".to_string()).map(|r| &r.value), Some(Type::Array { .. })));
}

#[test]
fn test_union_type_alias() {
    let union = Type::Union {
        ty: Spanned::call_site(Union {
            types: vec![
                Spanned::call_site(IdentOrUnion::Ident(UnionDiscriminant::Ref(PathOrIdent::Ident(ident("Base"))))),
                Spanned::call_site(IdentOrUnion::Ident(UnionDiscriminant::Ref(PathOrIdent::Ident(ident("Extensions"))))),
            ],
        }),
    };
    let ns = ns_with(vec![
        struct_def("Base"),
        struct_def("Extensions"),
        type_alias("Combined", union),
        type_alias("Enhanced", reference("Combined")),
    ]);
    let result = resolve(&ns).expect("resolution should succeed");
    assert_eq!(result.len(), 2);
    assert!(matches!(result.get(&"Enhanced".to_string()).map(|r| &r.value), Some(Type::Union { .. })));
}

#[test]
fn test_alias_to_non_alias() {
    let ns = ns_with(vec![struct_def("User"), type_alias("UserId", reference("User"))]);
    let result = resolve(&ns).expect("resolution should succeed");
    assert_eq!(result.len(), 1);
    match &result.get(&"UserId".to_string()).unwrap().value {
        Type::Ident { to: PathOrIdent::Ident(ident) } => assert_eq!(ident.value.0, "User"),
        _ => panic!("Expected ident type"),
    }
}

#[test]
fn union_operands_follow_aliases_to_references() {
    let union = Type::Union {
        ty: Spanned::call_site(Union {
            types: vec![
                Spanned::call_site(IdentOrUnion::Ident(UnionDiscriminant::Ref(PathOrIdent::Ident(ident("Name"))))),
                Spanned::call_site(IdentOrUnion::Ident(UnionDiscriminant::Ref(PathOrIdent::Ident(ident("Count"))))),
            ],
        }),
    };
    let ns = ns_with(vec![
        type_alias("Name", reference("Person")),
        type_alias("Count", Type::Builtin { ty: Spanned::call_site(Builtin::I32) }),
        type_alias("Both", Type::Paren { ty: Box::new(Spanned::call_site(union)) }),
    ]);
    let result = resolve(&ns).expect("resolution should succeed");
    match &result.get(&"Both".to_string()).unwrap().value {
        Type::Union { ty } => {
            assert_eq!(ty.value.types.len(), 2);
            match &ty.value.types[0].value {
                IdentOrUnion::Ident(UnionDiscriminant::Ref(PathOrIdent::Ident(i))) => assert_eq!(i.value.0, "Person"),
                _ => panic!("the first operand follows its alias"),
            }
            match &ty.value.types[1].value {
                IdentOrUnion::Ident(UnionDiscriminant::Ref(PathOrIdent::Ident(i))) => assert_eq!(i.value.0, "Count"),
                _ => panic!("an operand whose alias is no reference stays"),
            }
        },
        _ => panic!("parentheses are dropped"),
    }
}

#[test]
fn later_alias_of_a_name_wins() {
    let ns = ns_with(vec![type_alias("A", reference("X")), type_alias("A", reference("Y"))]);
    let graph = build_alias_graph(&ns);
    assert_eq!(graph.aliases.len(), 1);
}

fn registry_of(ns: &NamespaceCtx, names: &[&str]) -> kintsu_parser::type_registry::TypeRegistry {
    let mut registry = kintsu_parser::type_registry::TypeRegistry::new();
    for n in names {
        let def = kintsu_parser::common::Definition::Struct(std::sync::Arc::new(StructDef {
            comments: vec![],
            meta: vec![],
            def: Spanned::call_site(Struct { name: ident(n), args: vec![] }),
        }));
        registry.register(&ns.ctx, &ident(n), def, kintsu_parser::defs::Span::CallSite, "test.ks".to_string()).unwrap();
    }
    registry
}

#[test]
fn resolving_a_namespace_runs_every_pass() {
    let ns = ns_with(vec![struct_def("User"), type_alias("Id", reference("User"))]);
    let registry = registry_of(&ns, &["User", "Id"]);
    let res = kintsu_parser::pipeline::resolve(&ns, &registry).unwrap();
    assert!(res.resolved_aliases.get(&"Id".to_string()).is_some());
    assert_eq!(res.versions.get(&"User".to_string()).unwrap().value, 1);
    assert!(res.union_structs.is_empty());
}

#[test]
fn resolving_stops_at_circular_aliases() {
    let ns = ns_with(vec![type_alias("A", reference("B")), type_alias("B", reference("A"))]);
    let registry = registry_of(&ns, &["A", "B"]);
    assert!(matches!(kintsu_parser::pipeline::resolve(&ns, &registry), Err(kintsu_parser::pipeline::ResolveError::Alias(_))));
}

#[test]
fn resolving_reports_an_unknown_reference() {
    let field = Spanned::call_site(kintsu_parser::ast::Arg {
        comments: kintsu_parser::ast::CommentStream { comments: vec![] },
        name: ident("owner"),
        sep: kintsu_parser::ast::Sep::Required,
        typ: reference("Missing"),
    });
    let post = StructDef { comments: vec![], meta: vec![], def: Spanned::call_site(Struct { name: ident("Post"), args: vec![field] }) };
    let ns = ns_with(vec![("Post", NamespaceChild::Struct(post))]);
    let registry = registry_of(&ns, &["Post"]);
    assert!(matches!(kintsu_parser::pipeline::resolve(&ns, &registry), Err(kintsu_parser::pipeline::ResolveError::Reference(_))));
}
