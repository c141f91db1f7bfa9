use std::sync::Arc;

use kintsu_parser::ast::{
    AnonymousStruct, Arg, Array, Builtin, CommentStream, IdentOrUnion, OneOf, OneOfDef, Operation, OperationDef,
    PathOrIdent, Sep, Struct, StructDef, Type, TypeExpr, Union, UnionDiscriminant, Variant,
};
use kintsu_parser::common::{Definition, FromNamedSource, NamespaceChild, NamespaceCtx};
use kintsu_parser::defs::{RawSpan, Span, Spanned};
use kintsu_parser::paths::RefContext;
use kintsu_parser::toks::IdentToken;
use kintsu_parser::type_registry::TypeRegistry;
use kintsu_parser::validation::{
    ValidationError, validate_all_references, validate_struct_duplicate_fields, validate_type_reference,
};

fn ident(s: &str) -> Spanned<IdentToken> {
    Spanned::call_site(IdentToken::new(s.to_string()))
}

fn ident_at(s: &str, start: usize) -> Spanned<IdentToken> {
    Spanned::new(start, start + s.len(), IdentToken::new(s.to_string()))
}

fn ns_ctx() -> RefContext {
    RefContext::new("pkg".to_string(), vec!["ns".to_string()])
}

fn reference(name: &str) -> Type {
    Type::Ident { to: PathOrIdent::Ident(ident(name)) }
}

fn field(name: Spanned<IdentToken>, typ: Type) -> Spanned<Arg> {
    Spanned::call_site(Arg { comments: CommentStream { comments: vec![] }, name, sep: Sep::Required, typ })
}

fn struct_def(name: &str, args: Vec<Spanned<Arg>>) -> StructDef {
    StructDef { comments: vec![], meta: vec![], def: Spanned::call_site(Struct { name: ident(name), args }) }
}

fn empty_ns() -> NamespaceCtx {
    NamespaceCtx { sources: kintsu_parser::ordmap::StrMap::new(), comments: vec![], tag: None, namespace: FromNamedSource { source: String::new(), value: kintsu_parser::defs::Spanned::call_site(kintsu_parser::toks::IdentToken::new(String::from("ns"))) }, ctx: ns_ctx(), error: None, version: None, imports: vec![], children: vec![], resolved_versions: kintsu_parser::ordmap::StrMap::new(), resolved_errors: kintsu_parser::ordmap::StrMap::new(), resolved_aliases: kintsu_parser::ordmap::StrMap::new() }
}

fn registry_with(names: &[&str]) -> TypeRegistry {
    let mut registry = TypeRegistry::new();
    for n in names {
        let def = Definition::Struct(Arc::new(struct_def(n, vec![])));
        registry.register(&ns_ctx(), &ident(n), def, Span::CallSite, "schema.ks".to_string()).unwrap();
    }
    registry
}

fn add_child(ns: &mut NamespaceCtx, name: &str, child: NamespaceChild) {
    ns.children.push((ns_ctx().item(ident(name)), FromNamedSource { source: "schema.ks".to_string(), value: child }));
}

fn undefined_name(r: Result<(), ValidationError>) -> String {
    match r {
        Err(ValidationError::UndefinedType { name, .. }) => name,
        other => panic!("expected an undefined type, got {:?}", other),
    }
}

#[test]
fn test_undefined_struct_reference() {
    let mut ns = empty_ns();
    add_child(&mut ns, "Post", NamespaceChild::Struct(struct_def("Post", vec![field(ident("author"), reference("User"))])));
    let registry = registry_with(&["Post"]);
    assert_eq!(undefined_name(validate_all_references(&ns, &registry)), "User");
}

#[test]
fn test_undefined_operation_return_type() {
    let mut ns = empty_ns();
    let op = Operation {
        name: ident("GetUser"),
        args: Some(Spanned::call_site(vec![field(ident("id"), Type::Builtin { ty: Spanned::call_site(Builtin::I64) })])),
        return_type: Spanned::call_site(reference("User")),
    };
    add_child(&mut ns, "GetUser", NamespaceChild::Operation(OperationDef { comments: vec![], meta: vec![], def: Spanned::call_site(op) }));
    let registry = registry_with(&["GetUser"]);
    assert_eq!(undefined_name(validate_all_references(&ns, &registry)), "User");
}

fn actor() -> NamespaceChild {
    let one = OneOf {
        name: ident("Actor"),
        variants: vec![
            Spanned::call_site(Variant::Tuple { comments: kintsu_parser::ast::CommentStream { comments: vec![] }, name: ident("User"), inner: reference("User") }),
            Spanned::call_site(Variant::LocalStruct {
                comments: kintsu_parser::ast::CommentStream { comments: vec![] },
                name: ident("Admin"),
                inner: Spanned::call_site(AnonymousStruct { fields: vec![field(ident("superuser"), reference("Admin"))] }),
            }),
        ],
    };
    NamespaceChild::OneOf(OneOfDef { comments: vec![], meta: vec![], def: Spanned::call_site(one) })
}

#[test]
fn test_valid_oneof_reference() {
    let mut ns = empty_ns();
    add_child(&mut ns, "Actor", actor());
    let registry = registry_with(&["User", "Admin", "Actor"]);
    assert!(validate_all_references(&ns, &registry).is_ok(), "Valid oneof references should succeed");
}

#[test]
fn test_undefined_oneof_variant() {
    let mut ns = empty_ns();
    add_child(&mut ns, "Actor", actor());
    let registry = registry_with(&["Actor"]);
    assert_eq!(undefined_name(validate_all_references(&ns, &registry)), "User");
    let registry = registry_with(&["Actor", "User"]);
    assert_eq!(undefined_name(validate_all_references(&ns, &registry)), "Admin");
}

#[test]
fn test_nested_type_references() {
    let mut ns = empty_ns();
    add_child(&mut ns, "Address", NamespaceChild::Struct(struct_def("Address", vec![field(ident("street"), Type::Builtin { ty: Spanned::call_site(Builtin::Str) })])));
    add_child(&mut ns, "User", NamespaceChild::Struct(struct_def("User", vec![field(ident("address"), reference("Address"))])));
    add_child(&mut ns, "Post", NamespaceChild::Struct(struct_def("Post", vec![field(ident("author"), reference("User"))])));
    let registry = registry_with(&["Address", "User", "Post"]);
    assert!(validate_all_references(&ns, &registry).is_ok(), "Nested valid references should succeed");
}

fn users_struct() -> NamespaceChild {
    let items = Type::Array { ty: Box::new(Spanned::call_site(Array::Unsized { ty: Box::new(Spanned::call_site(reference("User"))) })) };
    NamespaceChild::Struct(struct_def("Users", vec![field(ident("items"), items)]))
}

#[test]
fn test_array_type_reference() {
    let mut ns = empty_ns();
    add_child(&mut ns, "Users", users_struct());
    let registry = registry_with(&["User", "Users"]);
    assert!(validate_all_references(&ns, &registry).is_ok(), "Array type references should succeed");
}

#[test]
fn test_undefined_array_element_type() {
    let mut ns = empty_ns();
    add_child(&mut ns, "Users", users_struct());
    let registry = registry_with(&["Users"]);
    assert_eq!(undefined_name(validate_all_references(&ns, &registry)), "User");
}

#[test]
fn duplicate_field_reports_both_places() {
    let def = struct_def(
        "Point",
        vec![
            field(ident_at("x", 10), Type::Builtin { ty: Spanned::call_site(Builtin::I32) }),
            field(ident_at("y", 20), Type::Builtin { ty: Spanned::call_site(Builtin::I32) }),
            field(ident_at("x", 30), Type::Builtin { ty: Spanned::call_site(Builtin::I32) }),
            field(ident_at("y", 40), Type::Builtin { ty: Spanned::call_site(Builtin::I32) }),
        ],
    );
    match validate_struct_duplicate_fields(&def) {
        Err(ValidationError::DuplicateField { field, owner, span, first }) => {
            assert_eq!(field, "x");
            assert_eq!(owner, "Point");
            assert_eq!(span, RawSpan { start: 30, end: 31 });
            assert_eq!(first, RawSpan { start: 10, end: 11 });
        },
        other => panic!("expected a duplicate field, got {:?}", other),
    }
    let ok = struct_def("Point", vec![field(ident_at("x", 10), reference("Missing"))]);
    assert!(validate_struct_duplicate_fields(&ok).is_ok());
}

#[test]
fn duplicate_field_comes_before_undefined_types() {
    let mut ns = empty_ns();
    let def = struct_def("Point", vec![field(ident("x"), reference("Missing")), field(ident("x"), reference("Missing"))]);
    add_child(&mut ns, "Point", NamespaceChild::Struct(def));
    let registry = registry_with(&["Point"]);
    assert!(matches!(validate_all_references(&ns, &registry), Err(ValidationError::DuplicateField { .. })));
}

#[test]
fn unions_and_type_expressions_are_checked() {
    let ns = empty_ns();
    let registry = registry_with(&["A", "C"]);
    let nested = Union { types: vec![Spanned::call_site(IdentOrUnion::Ident(UnionDiscriminant::Ref(PathOrIdent::Ident(ident("D")))))] };
    let union = Type::Union {
        ty: Spanned::call_site(Union {
            types: vec![
                Spanned::call_site(IdentOrUnion::Ident(UnionDiscriminant::Ref(PathOrIdent::Ident(ident("A"))))),
                Spanned::call_site(IdentOrUnion::Ident(UnionDiscriminant::Anonymous(Spanned::call_site(AnonymousStruct {
                    fields: vec![field(ident("c"), reference("C"))],
                })))),
                Spanned::call_site(IdentOrUnion::Union { inner: Box::new(Spanned::call_site(nested)) }),
            ],
        }),
    };
    assert_eq!(undefined_name(validate_type_reference(&union, &ns, &registry)), "D");
    let expr = Type::TypeExpr {
        expr: Box::new(Spanned::call_site(TypeExpr::TypeRef { reference: PathOrIdent::Ident(ident_at("B", 5)) })),
    };
    match validate_type_reference(&expr, &ns, &registry) {
        Err(ValidationError::UndefinedType { name, span }) => {
            assert_eq!(name, "B");
            assert_eq!(span, Span::new(5, 6));
        },
        other => panic!("expected an undefined type, got {:?}", other),
    }
    let either = Type::UnionOr { lhs: Box::new(Spanned::call_site(reference("A"))), rhs: Box::new(Spanned::call_site(reference("E"))) };
    assert_eq!(undefined_name(validate_type_reference(&either, &ns, &registry)), "E");
}
