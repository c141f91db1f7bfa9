use kintsu_parser::ast::{Operation, OperationDef, Struct, StructDef, Type, Builtin};
use kintsu_parser::common::{FromNamedSource, NamespaceChild};
use kintsu_parser::defs::Spanned;
use kintsu_parser::paths::RefContext;
use kintsu_parser::registration::{child_namespaces, register_type};
use kintsu_parser::toks::IdentToken;
use kintsu_parser::type_registry::{RegistryError, TypeRegistry};

fn ident(s: &str) -> Spanned<IdentToken> {
    Spanned::call_site(IdentToken::new(s.to_string()))
}

fn ctx() -> RefContext {
    RefContext::new("shop".to_string(), vec!["orders".to_string()])
}

fn struct_child(name: &str) -> FromNamedSource<NamespaceChild> {
    FromNamedSource {
        source: "orders.ks".to_string(),
        value: NamespaceChild::Struct(StructDef { comments: vec![], meta: vec![], def: Spanned::new(3, 20, Struct { name: ident(name), args: vec![] }) }),
    }
}

#[test]
fn types_are_registered_once() {
    let mut registry = TypeRegistry::new();
    register_type(&mut registry, &ctx().item(ident("Order")), struct_child("Order")).unwrap();
    assert!(registry.get(&ctx().item(ident("Order"))).is_some());
    match register_type(&mut registry, &ctx().item(ident("Order")), struct_child("Order")) {
        Err(RegistryError::DuplicateType { name, span }) => {
            assert_eq!(name, "shop::orders::Order");
            assert_eq!((span.start, span.end), (3, 20));
        },
        other => panic!("expected a duplicate, got {:?}", other),
    }
}

#[test]
fn operations_are_not_registered() {
    let mut registry = TypeRegistry::new();
    let op = Operation { name: ident("Get"), args: None, return_type: Spanned::call_site(Type::Builtin { ty: Spanned::call_site(Builtin::I32) }) };
    let child = FromNamedSource { source: "orders.ks".to_string(), value: NamespaceChild::Operation(OperationDef { comments: vec![], meta: vec![], def: Spanned::call_site(op) }) };
    register_type(&mut registry, &ctx().item(ident("Get")), child).unwrap();
    assert!(registry.get(&ctx().item(ident("Get"))).is_none());
}

#[test]
fn child_namespaces_are_one_level_below() {
    let all: Vec<String> = ["a", "a::b", "a::b::c", "a::d", "ab::x"].iter().map(|s| s.to_string()).collect();
    assert_eq!(child_namespaces(&"a".to_string(), 0, &all), vec!["a::b".to_string(), "a::d".to_string()]);
    assert_eq!(child_namespaces(&"a::b".to_string(), 1, &all), vec!["a::b::c".to_string()]);
}
