use kintsu_parser::ast::{
    Enum, EnumDef, ErrorDef, ItemMeta, MetaValue, OneOf, OneOfDef, Operation, OperationDef, PathOrIdent, Struct,
    StructDef, Type,
};
use kintsu_parser::common::{FromNamedSource, NamespaceChild, NamespaceCtx};
use kintsu_parser::defs::{RawSpan, Span, Spanned};
use kintsu_parser::metadata::{
    MetadataError, error_type_exists, extract_version_from_meta_validated, is_fallible_operation, resolve_error_types,
    resolve_versions,
};
use kintsu_parser::ordmap::StrMap;
use kintsu_parser::paths::{RefContext, RefOrItemContext};
use kintsu_parser::toks::IdentToken;

fn ident(s: &str) -> Spanned<IdentToken> {
    Spanned::call_site(IdentToken::new(s.to_string()))
}

fn version(n: i32, start: usize) -> Spanned<ItemMeta> {
    Spanned::call_site(ItemMeta::Version(Spanned::new(start, start + 12, MetaValue { value: Spanned::call_site(n) })))
}

fn err_meta(name: &str) -> Spanned<ItemMeta> {
    Spanned::call_site(ItemMeta::Error(Spanned::new(0, 10, MetaValue { value: Spanned::call_site(PathOrIdent::Ident(ident(name))) })))
}

fn ctx() -> RefContext {
    RefContext::new("test_package".to_string(), vec!["test".to_string()])
}

fn ns_with(children: Vec<(&str, NamespaceChild)>) -> NamespaceCtx {
    let mut ns = NamespaceCtx { sources: kintsu_parser::ordmap::StrMap::new(), comments: vec![], tag: None, namespace: FromNamedSource { source: String::new(), value: kintsu_parser::defs::Spanned::call_site(kintsu_parser::toks::IdentToken::new(String::from("ns"))) }, ctx: ctx(), error: None, version: None, imports: vec![], children: vec![], resolved_versions: kintsu_parser::ordmap::StrMap::new(), resolved_errors: kintsu_parser::ordmap::StrMap::new(), resolved_aliases: kintsu_parser::ordmap::StrMap::new() };
    for (name, child) in children {
        ns.children.push((ctx().item(ident(name)), FromNamedSource { source: "test.ks".to_string(), value: child }));
    }
    ns
}

fn struct_def(name: &str, meta: Vec<Spanned<ItemMeta>>) -> (&str, NamespaceChild) {
    (name, NamespaceChild::Struct(StructDef { comments: vec![], meta, def: Spanned::call_site(Struct { name: ident(name), args: vec![] }) }))
}

fn error_def(name: &str) -> (&str, NamespaceChild) {
    (name, NamespaceChild::Error(ErrorDef { comments: vec![], meta: vec![], def: Spanned::call_site(OneOf { name: ident(name), variants: vec![] }) }))
}

fn user() -> Type {
    Type::Ident { to: PathOrIdent::Ident(ident("User")) }
}

fn operation(name: &str, meta: Vec<Spanned<ItemMeta>>, ret: Type) -> (&str, NamespaceChild) {
    let op = Operation { name: ident(name), args: None, return_type: Spanned::call_site(ret) };
    (name, NamespaceChild::Operation(OperationDef { comments: vec![], meta, def: Spanned::call_site(op) }))
}

fn fallible(t: Type) -> Type {
    Type::Result { ty: Box::new(Spanned::call_site(t)) }
}

fn version_of(m: &StrMap<Spanned<u32>>, k: &str) -> Option<u32> {
    m.get(&k.to_string()).map(|v| v.value)
}

fn error_of(m: &StrMap<Spanned<String>>, k: &str) -> Option<String> {
    m.get(&k.to_string()).map(|v| v.value.clone())
}

#[test]
fn test_version_item_override() {
    let ns = ns_with(vec![struct_def("User", vec![version(5, 0)]), struct_def("Post", vec![])]);
    let mut versions = StrMap::new();
    resolve_versions(&ns, &mut versions).expect("Resolution should succeed");
    assert_eq!(version_of(&versions, "User"), Some(5));
    assert_eq!(version_of(&versions, "Post"), Some(1));
}

#[test]
fn test_version_namespace_inheritance() {
    let mut ns = ns_with(vec![struct_def("User", vec![]), struct_def("Admin", vec![version(7, 0)])]);
    ns.version = Some(FromNamedSource { source: "test.ks".to_string(), value: Spanned::new(0, 12, MetaValue { value: Spanned::call_site(3) }) });
    let mut versions = StrMap::new();
    resolve_versions(&ns, &mut versions).expect("Resolution should succeed");
    assert_eq!(version_of(&versions, "User"), Some(3));
    assert_eq!(version_of(&versions, "Admin"), Some(7));
}

#[test]
fn test_version_enum_and_oneof() {
    let ns = ns_with(vec![
        ("Status", NamespaceChild::Enum(EnumDef { comments: vec![], meta: vec![version(2, 0)], def: Spanned::call_site(Enum { kind: kintsu_parser::ast::EnumKind::Int, name: ident("Status"), variants: vec![] }) })),
        ("Choice", NamespaceChild::OneOf(OneOfDef { comments: vec![], meta: vec![version(4, 0)], def: Spanned::call_site(OneOf { name: ident("Choice"), variants: vec![] }) })),
    ]);
    let mut versions = StrMap::new();
    resolve_versions(&ns, &mut versions).expect("Resolution should succeed");
    assert_eq!(version_of(&versions, "Status"), Some(2));
    assert_eq!(version_of(&versions, "Choice"), Some(4));
}

#[test]
fn two_versions_on_one_item_conflict() {
    match extract_version_from_meta_validated(&vec![version(2, 0), err_meta("E"), version(3, 40)]) {
        Err(MetadataError::VersionConflict { versions, span }) => {
            assert_eq!(versions, vec![2usize, 3usize]);
            assert_eq!(span, RawSpan { start: 40, end: 52 });
        },
        other => panic!("expected a conflict, got {:?}", other),
    }
    let one = extract_version_from_meta_validated(&vec![version(9, 5)]).unwrap().unwrap();
    assert_eq!(one.value, 9);
    assert_eq!(one.span, Span::new(5, 17));
    assert!(extract_version_from_meta_validated(&vec![]).unwrap().is_none());
    let ns = ns_with(vec![struct_def("A", vec![]), struct_def("B", vec![version(1, 0), version(2, 20)])]);
    let mut versions = StrMap::new();
    assert!(matches!(resolve_versions(&ns, &mut versions), Err(MetadataError::VersionConflict { .. })));
    assert_eq!(version_of(&versions, "A"), Some(1));
    assert_eq!(version_of(&versions, "B"), None);
}

#[test]
fn test_error_operation_explicit() {
    let ns = ns_with(vec![
        error_def("UserError"),
        struct_def("User", vec![]),
        operation("create_user", vec![err_meta("UserError")], fallible(user())),
    ]);
    let mut errors = StrMap::new();
    resolve_error_types(&ns, &mut errors).expect("Resolution should succeed");
    assert_eq!(error_of(&errors, "create_user"), Some("UserError".to_string()));
}

#[test]
fn test_error_namespace_inheritance() {
    let mut ns = ns_with(vec![error_def("ApiError"), struct_def("User", vec![]), operation("get_user", vec![], fallible(user()))]);
    ns.error = Some(FromNamedSource {
        source: "test.ks".to_string(),
        value: Spanned::new(0, 15, MetaValue { value: Spanned::call_site(PathOrIdent::Ident(ident("ApiError"))) }),
    });
    let mut errors = StrMap::new();
    resolve_error_types(&ns, &mut errors).expect("Resolution should succeed");
    assert_eq!(error_of(&errors, "get_user"), Some("ApiError".to_string()));
}

#[test]
fn test_error_missing_for_fallible_operation() {
    let ns = ns_with(vec![struct_def("User", vec![]), operation("create_user", vec![], fallible(user()))]);
    let mut errors = StrMap::new();
    match resolve_error_types(&ns, &mut errors) {
        Err(MetadataError::MissingErrorType { operation, .. }) => assert_eq!(operation, "create_user"),
        other => panic!("Expected MissingErrorType error, got: {:?}", other),
    }
}

#[test]
fn test_error_non_fallible_operation_no_error_needed() {
    let ns = ns_with(vec![struct_def("User", vec![]), operation("get_user", vec![], user())]);
    let mut errors = StrMap::new();
    assert!(resolve_error_types(&ns, &mut errors).is_ok(), "Should succeed for non-fallible operation");
    assert_eq!(errors.len(), 0);
}

#[test]
fn test_error_parenthesized_result_type() {
    let ret = Type::Paren { ty: Box::new(Spanned::call_site(fallible(user()))) };
    assert!(is_fallible_operation(&ret));
    let ns = ns_with(vec![error_def("ApiError"), struct_def("User", vec![]), operation("create_user", vec![err_meta("ApiError")], ret)]);
    let mut errors = StrMap::new();
    assert!(resolve_error_types(&ns, &mut errors).is_ok(), "Should handle parenthesized result type");
    assert_eq!(error_of(&errors, "create_user"), Some("ApiError".to_string()));
}

#[test]
fn undefined_namespace_error_is_refused() {
    let mut ns = ns_with(vec![struct_def("ApiError", vec![])]);
    ns.error = Some(FromNamedSource {
        source: "test.ks".to_string(),
        value: Spanned::new(4, 19, MetaValue { value: Spanned::call_site(PathOrIdent::Ident(ident("ApiError"))) }),
    });
    let mut errors = StrMap::new();
    match resolve_error_types(&ns, &mut errors) {
        Err(MetadataError::InvalidErrorAttr { message, span }) => {
            assert_eq!(message, "'ApiError' is not a defined error type");
            assert_eq!(span, RawSpan { start: 4, end: 19 });
        },
        other => panic!("expected an invalid error attribute, got {:?}", other),
    }
}

#[test]
fn imported_error_types_exist() {
    let mut ns = ns_with(vec![]);
    assert!(!error_type_exists(&"Remote".to_string(), &ns));
    ns.imports.push(FromNamedSource { source: "a.ks".to_string(), value: RefOrItemContext::Ref(RefContext::new("lib".to_string(), vec!["Remote".to_string()])) });
    assert!(error_type_exists(&"Remote".to_string(), &ns));
    ns.imports.push(FromNamedSource { source: "a.ks".to_string(), value: RefOrItemContext::Item(RefContext::new("lib".to_string(), vec![]).item(ident("Other"))) });
    assert!(error_type_exists(&"Other".to_string(), &ns));
}
