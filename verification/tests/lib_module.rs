use kintsu_parser::ast::CommentStream;
use kintsu_parser::ast::{ErrorDef, ItemMeta, MetaValue, OneOf, PathOrIdent, Struct, StructDef};
use kintsu_parser::common::{FromNamedSource, NamespaceChild, NamespaceCtx};
use kintsu_parser::defs::{RawSpan, Spanned};
use kintsu_parser::items::{AstStream, Item, NamespaceDef, SpannedNamespace, UseDef};
use kintsu_parser::lib_module::{SchemaError, check_lib_error, check_lib_module, check_use_namespace};
use kintsu_parser::paths::RefContext;
use kintsu_parser::toks::IdentToken;

fn ident_at(s: &str, start: usize) -> Spanned<IdentToken> {
    Spanned::new(start, start + s.len(), IdentToken::new(s.to_string()))
}

fn root() -> RefContext {
    RefContext::new("shop".to_string(), vec![])
}

fn lib_path() -> String {
    "schema/lib.ks".to_string()
}

fn namespace(name: &str) -> Spanned<Item> {
    Spanned::call_site(Item::Namespace(NamespaceDef { meta: vec![], name: ident_at(name, 10) }))
}

fn use_item(name: &str, at: usize) -> Spanned<Item> {
    Spanned::new(at, at + 10, Item::Use(UseDef { root: ident_at(name, at + 4), paths: vec![] }))
}

fn struct_item(name: &str, at: usize) -> Spanned<Item> {
    Spanned::new(at, at + 20, Item::Struct(StructDef { comments: vec![], meta: vec![], def: Spanned::new(at, at + 20, Struct { name: ident_at(name, at + 7), args: vec![] }) }))
}

fn written(name: &str, at: usize, nodes: Vec<Spanned<Item>>) -> Spanned<Item> {
    Spanned::call_site(Item::SpannedNamespace(SpannedNamespace { name: ident_at(name, at), ast: AstStream { module_comments: CommentStream { comments: vec![] }, module_meta: vec![], nodes } }))
}

fn error_meta(name: &str, at: usize) -> Spanned<ItemMeta> {
    Spanned::new(at, at + 10, ItemMeta::Error(Spanned::new(at + 2, at + 9, MetaValue { value: Spanned::call_site(PathOrIdent::Ident(ident_at(name, at + 6))) })))
}

#[test]
fn a_root_file_lists_its_uses_and_written_namespaces() {
    let ast = AstStream {
        module_comments: CommentStream { comments: vec![] },
        module_meta: vec![error_meta("Failure", 0)],
        nodes: vec![namespace("shop"), use_item("orders", 20), written("inline", 40, vec![struct_item("Thing", 50)])],
    };
    let plan = check_lib_module(&root(), ast, &lib_path(), &"lib text".to_string()).unwrap();
    assert_eq!(plan.namespace.unwrap().value.0, "shop");
    assert!(plan.error.is_some());
    assert_eq!(plan.uses, vec![("orders".to_string(), RawSpan { start: 20, end: 30 })]);
    assert_eq!(plan.namespaces.len(), 1);
    assert_eq!(plan.namespaces[0].0, "inline");
    assert_eq!(plan.namespaces[0].1.ctx.namespace, vec!["inline".to_string()]);
    assert_eq!(plan.namespaces[0].1.children.len(), 1);
}

#[test]
fn a_root_file_refuses_a_second_error_attribute() {
    let ast = AstStream { module_comments: CommentStream { comments: vec![] }, module_meta: vec![error_meta("A", 0), error_meta("B", 20)], nodes: vec![namespace("shop")] };
    match check_lib_module(&root(), ast, &lib_path(), &"lib text".to_string()) {
        Err(SchemaError::DuplicateAttribute { attribute, path, span }) => {
            assert_eq!(attribute, "error");
            assert_eq!(path, "schema/lib.ks");
            assert_eq!(span, RawSpan { start: 22, end: 29 });
        },
        other => panic!("expected a second error attribute, got {:?}", other),
    }
}

#[test]
fn a_root_file_refuses_a_second_namespace() {
    let ast = AstStream { module_comments: CommentStream { comments: vec![] }, module_meta: vec![], nodes: vec![namespace("shop"), namespace("store")] };
    assert!(matches!(check_lib_module(&root(), ast, &lib_path(), &"lib text".to_string()), Err(SchemaError::NamespaceConflict { .. })));
}

#[test]
fn a_root_file_refuses_other_items() {
    let ast = AstStream { module_comments: CommentStream { comments: vec![] }, module_meta: vec![], nodes: vec![namespace("shop"), struct_item("User", 30)] };
    match check_lib_module(&root(), ast, &lib_path(), &"lib text".to_string()) {
        Err(SchemaError::InvalidItem { span }) => assert_eq!(span, RawSpan { start: 30, end: 50 }),
        other => panic!("expected an invalid item, got {:?}", other),
    }
}

#[test]
fn a_root_file_refuses_two_written_namespaces_of_one_name() {
    let ast = AstStream {
        module_comments: CommentStream { comments: vec![] },
        module_meta: vec![],
        nodes: vec![written("inline", 40, vec![]), written("inline", 80, vec![])],
    };
    match check_lib_module(&root(), ast, &lib_path(), &"lib text".to_string()) {
        Err(SchemaError::Duplicate { name, span }) => {
            assert_eq!(name, "inline");
            assert_eq!(span, RawSpan { start: 80, end: 86 });
        },
        other => panic!("expected a duplicate, got {:?}", other),
    }
}

fn loaded(name: &str, children: Vec<(&str, NamespaceChild)>) -> NamespaceCtx {
    let ctx = RefContext::new("shop".to_string(), vec![name.to_string()]);
    let mut ns = NamespaceCtx::from_empty(&ctx, FromNamedSource { source: "x.ks".to_string(), value: ident_at(name, 0) });
    for (n, c) in children {
        ns.children.push((ctx.item(ident_at(n, 0)), FromNamedSource { source: "x.ks".to_string(), value: c }));
    }
    ns
}

#[test]
fn a_use_must_load_the_namespace_it_names() {
    assert!(check_use_namespace(&"orders".to_string(), RawSpan { start: 1, end: 2 }, &loaded("orders", vec![])).is_ok());
    match check_use_namespace(&"orders".to_string(), RawSpan { start: 1, end: 2 }, &loaded("billing", vec![])) {
        Err(SchemaError::Mismatch { expected, found, .. }) => {
            assert_eq!(expected, "orders");
            assert_eq!(found, "billing");
        },
        other => panic!("expected a mismatch, got {:?}", other),
    }
}

#[test]
fn the_error_attribute_must_name_an_error_type() {
    let err = Spanned::new(2, 9, MetaValue { value: Spanned::call_site(PathOrIdent::Ident(ident_at("Failure", 6))) });
    let failure = NamespaceChild::Error(ErrorDef { comments: vec![], meta: vec![], def: Spanned::call_site(OneOf { name: ident_at("Failure", 0), variants: vec![] }) });
    let with_error = vec![("orders".to_string(), loaded("orders", vec![("Failure", failure)]))];
    assert!(check_lib_error(&err, &with_error).is_ok());
    let plain = NamespaceChild::Struct(StructDef { comments: vec![], meta: vec![], def: Spanned::call_site(Struct { name: ident_at("Failure", 0), args: vec![] }) });
    let without = vec![("orders".to_string(), loaded("orders", vec![("Failure", plain)]))];
    match check_lib_error(&err, &without) {
        Err(SchemaError::InvalidErrorAttr { message, span }) => {
            assert_eq!(message, "'Failure' is not a defined error type");
            assert_eq!(span, RawSpan { start: 2, end: 9 });
        },
        other => panic!("expected an invalid error attribute, got {:?}", other),
    }
}

#[test]
fn a_root_file_refuses_a_second_tag() {
    let tag = |at: usize| Spanned::new(at, at + 10, ItemMeta::Tag(Spanned::new(at + 1, at + 9, MetaValue { value: Spanned::call_site("untagged".to_string()) })));
    let ast = AstStream { module_comments: CommentStream { comments: vec![] }, module_meta: vec![tag(0), tag(20)], nodes: vec![namespace("shop")] };
    match check_lib_module(&root(), ast, &lib_path(), &"lib text".to_string()) {
        Err(SchemaError::DuplicateAttribute { attribute, span, .. }) => {
            assert_eq!(attribute, "tag");
            assert_eq!(span, RawSpan { start: 21, end: 29 });
        },
        other => panic!("expected a second tag, got {:?}", other),
    }
}
