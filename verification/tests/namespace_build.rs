use kintsu_parser::ast::CommentStream;
use kintsu_parser::ast::{Builtin, ItemMeta, MetaValue, Struct, StructDef, Type, TypeAlias, TypeDef};
use kintsu_parser::common::{FromNamedSource, NamespaceChild, NamespaceCtx};
use kintsu_parser::defs::{RawSpan, Spanned};
use kintsu_parser::items::{AstStream, Item, NamespaceDef, SpannedNamespace, UseDef};
use kintsu_parser::namespace_build::{NamespaceError, from_ast_stream, merge_ast_stream};
use kintsu_parser::paths::{RefContext, RefOrItemContext};
use kintsu_parser::toks::IdentToken;

fn ident_at(s: &str, start: usize) -> Spanned<IdentToken> {
    Spanned::new(start, start + s.len(), IdentToken::new(s.to_string()))
}

fn root() -> RefContext {
    RefContext::new("pkg".to_string(), vec!["shop".to_string()])
}

fn path() -> String {
    "shop.ks".to_string()
}

fn namespace(name: &str, meta: Vec<Spanned<ItemMeta>>) -> Spanned<Item> {
    Spanned::call_site(Item::Namespace(NamespaceDef { meta, name: ident_at(name, 10) }))
}

fn struct_item(name: &str, at: usize) -> Spanned<Item> {
    Spanned::call_site(Item::Struct(StructDef {
        comments: vec![],
        meta: vec![],
        def: Spanned::new(at, at + 20, Struct { name: ident_at(name, at + 7), args: vec![] }),
    }))
}

fn type_item(name: &str, at: usize) -> Spanned<Item> {
    Spanned::call_site(Item::Type(TypeDef {
        comments: vec![],
        meta: vec![],
        def: Spanned::new(at, at + 20, TypeAlias { name: ident_at(name, at + 5), ty: Spanned::call_site(Type::Builtin { ty: Spanned::call_site(Builtin::I64) }) }),
    }))
}

fn version(v: i32, at: usize) -> Spanned<ItemMeta> {
    Spanned::new(at, at + 12, ItemMeta::Version(Spanned::new(at + 2, at + 11, MetaValue { value: Spanned::call_site(v) })))
}

fn stream(module_meta: Vec<Spanned<ItemMeta>>, nodes: Vec<Spanned<Item>>) -> AstStream {
    AstStream { module_comments: CommentStream { comments: vec![] }, module_meta, nodes }
}

fn child_names(ns: &NamespaceCtx) -> Vec<String> {
    ns.children.iter().map(|(k, _)| k.name.value.0.clone()).collect()
}

#[test]
fn builds_items_in_path_order() {
    let ast = stream(
        vec![version(2, 0)],
        vec![
            namespace("shop", vec![]),
            Spanned::call_site(Item::Use(UseDef { root: ident_at("other", 5), paths: vec![RefOrItemContext::Ref(RefContext::new("pkg".to_string(), vec!["other".to_string()]))] })),
            struct_item("Zebra", 30),
            type_item("Apple", 60),
            struct_item("Mango", 90),
        ],
    );
    let ns = from_ast_stream(&root(), ast, &path(), &"text".to_string()).unwrap();
    assert_eq!(child_names(&ns), vec!["Apple", "Mango", "Zebra"]);
    assert_eq!(ns.namespace.value.value.0, "shop");
    assert_eq!(ns.namespace.source, "shop.ks");
    assert_eq!(ns.imports.len(), 1);
    assert_eq!(ns.imports[0].source, "shop.ks");
    assert_eq!(ns.version.as_ref().unwrap().value.value.value.value, 2);
    assert!(ns.error.is_none());
    assert!(matches!(ns.children[0].1.value, NamespaceChild::Type(_)));
    assert!(matches!(ns.children[2].1.value, NamespaceChild::Struct(_)));
    assert_eq!(ns.children[0].1.source, "shop.ks");
}

#[test]
fn refuses_a_name_declared_twice() {
    let ast = stream(vec![], vec![namespace("shop", vec![]), struct_item("User", 30), type_item("User", 60)]);
    match from_ast_stream(&root(), ast, &path(), &"text".to_string()) {
        Err(NamespaceError::IdentConflict { namespace, name, kind, span }) => {
            assert_eq!(namespace, "shop");
            assert_eq!(name, "User");
            assert_eq!(kind, "type");
            assert_eq!(span, RawSpan { start: 65, end: 69 });
        },
        other => panic!("expected a conflict, got {:?}", other),
    }
}

#[test]
fn refuses_an_item_before_the_declaration() {
    let ast = stream(vec![], vec![struct_item("User", 30), namespace("shop", vec![])]);
    match from_ast_stream(&root(), ast, &path(), &"text".to_string()) {
        Err(NamespaceError::NotDeclared { span }) => assert_eq!(span, Some(RawSpan { start: 30, end: 50 })),
        other => panic!("expected no declaration, got {:?}", other),
    }
}

#[test]
fn refuses_a_file_without_a_declaration() {
    let ast = stream(vec![], vec![]);
    assert!(matches!(from_ast_stream(&root(), ast, &path(), &"text".to_string()), Err(NamespaceError::NotDeclared { span: None })));
}

#[test]
fn refuses_a_second_namespace_name() {
    let ast = stream(vec![], vec![namespace("shop", vec![]), namespace("store", vec![])]);
    match from_ast_stream(&root(), ast, &path(), &"text".to_string()) {
        Err(NamespaceError::DirConflict { path, parent, attempted, .. }) => {
            assert_eq!(path, "shop.ks");
            assert_eq!(parent, "shop");
            assert_eq!(attempted, "store");
        },
        other => panic!("expected a conflict, got {:?}", other),
    }
}

#[test]
fn refuses_a_second_version() {
    let ast = stream(vec![version(1, 0)], vec![namespace("shop", vec![version(2, 40)])]);
    match from_ast_stream(&root(), ast, &path(), &"text".to_string()) {
        Err(NamespaceError::DuplicateAttribute { attribute, path, span }) => {
            assert_eq!(attribute, "version");
            assert_eq!(path, "shop.ks");
            assert_eq!(span, RawSpan { start: 42, end: 51 });
        },
        other => panic!("expected a second version, got {:?}", other),
    }
}

#[test]
fn builds_a_nested_namespace() {
    let inner = stream(vec![], vec![namespace("inner", vec![]), struct_item("Leaf", 30)]);
    let ast = stream(
        vec![],
        vec![
            namespace("shop", vec![]),
            Spanned::call_site(Item::SpannedNamespace(SpannedNamespace { name: ident_at("inner", 100), ast: inner })),
        ],
    );
    let ns = from_ast_stream(&root(), ast, &path(), &"text".to_string()).unwrap();
    assert_eq!(child_names(&ns), vec!["inner"]);
    assert_eq!(ns.children[0].0.context.namespace, vec!["shop".to_string(), "inner".to_string()]);
    match &ns.children[0].1.value {
        NamespaceChild::Namespace(b) => assert_eq!(child_names(b), vec!["Leaf"]),
        _ => panic!("expected a namespace"),
    }
}

#[test]
fn merges_a_second_file() {
    let mut ns = from_ast_stream(&root(), stream(vec![], vec![namespace("shop", vec![]), struct_item("User", 30)]), &path(), &"text".to_string()).unwrap();
    let more = stream(vec![version(3, 0)], vec![struct_item("Order", 30)]);
    merge_ast_stream(&mut ns, more, &"orders.ks".to_string(), &"more text".to_string()).unwrap();
    assert_eq!(child_names(&ns), vec!["Order", "User"]);
    assert_eq!(ns.children[0].1.source, "orders.ks");
    assert_eq!(ns.version.as_ref().unwrap().source, "orders.ks");
}

#[test]
fn merge_refuses_another_namespace() {
    let mut ns = from_ast_stream(&root(), stream(vec![], vec![namespace("shop", vec![])]), &path(), &"text".to_string()).unwrap();
    let other = stream(vec![], vec![namespace("store", vec![]), struct_item("Order", 30)]);
    assert!(matches!(merge_ast_stream(&mut ns, other, &"x.ks".to_string(), &"more text".to_string()), Err(NamespaceError::DirConflict { .. })));
    assert!(ns.children.is_empty());
}

#[test]
fn merge_replaces_and_refuses_a_taken_name() {
    let mut ns = from_ast_stream(&root(), stream(vec![], vec![namespace("shop", vec![]), struct_item("User", 30)]), &path(), &"text".to_string()).unwrap();
    let more = stream(vec![], vec![type_item("User", 30)]);
    assert!(matches!(merge_ast_stream(&mut ns, more, &"more.ks".to_string(), &"more text".to_string()), Err(NamespaceError::IdentConflict { .. })));
    assert_eq!(ns.children.len(), 1);
    assert_eq!(ns.children[0].1.source, "more.ks");
    assert!(matches!(ns.children[0].1.value, NamespaceChild::Type(_)));
}

#[test]
fn keeps_the_source_of_each_item() {
    let ns = from_ast_stream(&root(), stream(vec![], vec![namespace("shop", vec![]), struct_item("A", 1)]), &"a.ks".to_string(), &"text".to_string()).unwrap();
    let FromNamedSource { source, .. } = &ns.children[0].1;
    assert_eq!(source, "a.ks");
}

fn tag(text: &str, at: usize) -> Spanned<ItemMeta> {
    Spanned::new(at, at + 12, ItemMeta::Tag(Spanned::new(at + 2, at + 11, MetaValue { value: Spanned::call_site(text.to_string()) })))
}

#[test]
fn keeps_the_text_and_top_comments_of_the_file() {
    let comments = CommentStream { comments: vec![Spanned::call_site(kintsu_parser::ast::CommentAst::SingleLine("about shop".to_string()))] };
    let ast = AstStream { module_comments: comments, module_meta: vec![tag("untagged", 0)], nodes: vec![namespace("shop", vec![])] };
    let ns = from_ast_stream(&root(), ast, &path(), &"namespace shop;".to_string()).unwrap();
    assert_eq!(ns.sources.get(&path()).unwrap(), "namespace shop;");
    assert_eq!(ns.sources.len(), 1);
    assert_eq!(ns.comments.len(), 1);
    assert_eq!(ns.comments[0].source, "shop.ks");
    assert_eq!(ns.comments[0].value.comments.len(), 1);
    assert_eq!(ns.tag.as_ref().unwrap().value.value.value.value, "untagged");
}

#[test]
fn refuses_a_second_tag() {
    let ast = stream(vec![tag("a", 0)], vec![namespace("shop", vec![tag("b", 40)])]);
    match from_ast_stream(&root(), ast, &path(), &"text".to_string()) {
        Err(NamespaceError::DuplicateAttribute { attribute, span, .. }) => {
            assert_eq!(attribute, "tag");
            assert_eq!(span, RawSpan { start: 42, end: 51 });
        },
        other => panic!("expected a second tag, got {:?}", other),
    }
}

#[test]
fn merging_keeps_each_file_text() {
    let mut ns = from_ast_stream(&root(), stream(vec![], vec![namespace("shop", vec![])]), &path(), &"first".to_string()).unwrap();
    merge_ast_stream(&mut ns, stream(vec![], vec![struct_item("A", 1)]), &"b.ks".to_string(), &"second".to_string()).unwrap();
    assert_eq!(ns.sources.len(), 2);
    assert_eq!(ns.sources.get(&"b.ks".to_string()).unwrap(), "second");
    assert_eq!(ns.sources.get(&path()).unwrap(), "first");
    assert_eq!(ns.comments.len(), 2);
}
