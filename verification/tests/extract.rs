use kintsu_parser::ast::{
    AnonymousOneOf, AnonymousStruct, Arg, Array, Builtin, CommentStream, Enum, EnumDef, IdentOrUnion, OneOf,
    OneOfDef, Operation, OperationDef, PathOrIdent, Sep, Struct, StructDef, Type, TypeAlias, TypeDef, Union,
    UnionDiscriminant, Variant,
};
use kintsu_parser::common::{FromNamedSource, NamespaceChild, NamespaceCtx};
use kintsu_parser::defs::Spanned;
use kintsu_parser::extract::TypeExtractor;
use kintsu_parser::paths::{NamedItemContext, RefContext, RefOrItemContext};
use kintsu_parser::toks::{IdentToken, Path};
use kintsu_parser::type_graph::{EdgeKind, TypeDependency};

fn ident(s: &str) -> Spanned<IdentToken> {
    Spanned::call_site(IdentToken::new(s.to_string()))
}

fn ns_ref() -> RefContext {
    RefContext::new("pkg".to_string(), vec!["ns".to_string()])
}

fn item(name: &str) -> NamedItemContext {
    ns_ref().item(ident(name))
}

fn reference(name: &str) -> Type {
    Type::Ident { to: PathOrIdent::Ident(ident(name)) }
}

fn field(name: &str, sep: Sep, typ: Type) -> Spanned<Arg> {
    Spanned::call_site(Arg { comments: CommentStream { comments: vec![] }, name: ident(name), sep, typ })
}

fn boxed(t: Type) -> Box<Spanned<Type>> {
    Box::new(Spanned::call_site(t))
}

fn empty_ns() -> NamespaceCtx {
    NamespaceCtx { sources: kintsu_parser::ordmap::StrMap::new(), comments: vec![], tag: None, namespace: FromNamedSource { source: String::new(), value: kintsu_parser::defs::Spanned::call_site(kintsu_parser::toks::IdentToken::new(String::from("ns"))) }, ctx: ns_ref(), error: None, version: None, imports: vec![], children: vec![], resolved_versions: kintsu_parser::ordmap::StrMap::new(), resolved_errors: kintsu_parser::ordmap::StrMap::new(), resolved_aliases: kintsu_parser::ordmap::StrMap::new() }
}

fn add_child(ns: &mut NamespaceCtx, name: &str, child: NamespaceChild) {
    ns.children.push((item(name), FromNamedSource { source: "schema.ks".to_string(), value: child }));
}

fn struct_child(name: &str, args: Vec<Spanned<Arg>>) -> NamespaceChild {
    NamespaceChild::Struct(StructDef { comments: vec![], meta: vec![], def: Spanned::call_site(Struct { name: ident(name), args }) })
}

fn names(v: &[NamedItemContext]) -> Vec<String> {
    v.iter().map(|c| c.display()).collect()
}

fn dep_targets(d: &TypeDependency) -> Vec<String> {
    names(&d.target_candidates)
}

#[test]
fn extract_struct_fields_follow_separators() {
    let mut ns = empty_ns();
    add_child(
        &mut ns,
        "Company",
        struct_child(
            "Company",
            vec![
                field("ceo", Sep::Required, reference("Person")),
                field("board", Sep::Optional, reference("Person")),
                field("staff", Sep::Required, Type::Array { ty: Box::new(Spanned::call_site(Array::Unsized { ty: boxed(reference("Person")) })) }),
                field("count", Sep::Required, Type::Builtin { ty: Spanned::call_site(Builtin::I32) }),
            ],
        ),
    );
    add_child(&mut ns, "Person", struct_child("Person", vec![]));
    let graph = TypeExtractor::extract_from_namespace(&ns, &ns_ref());
    assert_eq!(names(&graph.type_names()), vec!["pkg::ns::Company".to_string(), "pkg::ns::Person".to_string()]);
    let deps = graph.get_node(&item("Company")).unwrap();
    assert_eq!(deps.len(), 3);
    assert_eq!(deps[0].kind, EdgeKind::Required);
    assert_eq!(deps[0].field_path, vec!["ceo".to_string()]);
    assert_eq!(dep_targets(&deps[0]), vec!["pkg::ns::Person".to_string()]);
    assert_eq!(deps[1].kind, EdgeKind::Optional);
    assert_eq!(deps[1].field_path, vec!["board".to_string()]);
    assert_eq!(deps[2].kind, EdgeKind::Array);
    assert_eq!(deps[2].field_path, vec!["staff".to_string()]);
    assert_eq!(graph.get_node(&item("Person")).unwrap().len(), 0);
    assert_eq!(graph.required_successors(&item("Company")).len(), 1);
}

#[test]
fn extract_anonymous_types_extend_paths() {
    let mut ns = empty_ns();
    let inline = Type::Struct {
        ty: Spanned::call_site(AnonymousStruct {
            fields: vec![field("street", Sep::Optional, reference("Street"))],
        }),
    };
    let choice = Type::OneOf {
        ty: Spanned::call_site(AnonymousOneOf {
            variants: vec![
                Spanned::call_site(Type::Builtin { ty: Spanned::call_site(Builtin::Str) }),
                Spanned::call_site(reference("Code")),
            ],
        }),
    };
    let result = Type::Result { ty: boxed(Type::Paren { ty: boxed(reference("Answer")) }) };
    add_child(
        &mut ns,
        "Holder",
        struct_child(
            "Holder",
            vec![
                field("address", Sep::Required, inline),
                field("code", Sep::Required, choice),
                field("answer", Sep::Required, result),
            ],
        ),
    );
    let graph = TypeExtractor::extract_from_namespace(&ns, &ns_ref());
    let deps = graph.get_node(&item("Holder")).unwrap();
    assert_eq!(deps.len(), 3);
    assert_eq!(deps[0].field_path, vec!["address".to_string(), "street".to_string()]);
    assert_eq!(deps[0].kind, EdgeKind::Optional);
    assert_eq!(deps[1].field_path, vec!["code".to_string(), "variant_1".to_string()]);
    assert_eq!(deps[1].kind, EdgeKind::Optional);
    assert_eq!(dep_targets(&deps[1]), vec!["pkg::ns::Code".to_string()]);
    assert_eq!(deps[2].field_path, vec!["answer".to_string()]);
    assert_eq!(deps[2].kind, EdgeKind::Optional);
}

#[test]
fn extract_union_members_and_nesting() {
    let mut ns = empty_ns();
    let nested = Union {
        types: vec![
            Spanned::call_site(IdentOrUnion::Ident(UnionDiscriminant::Ref(PathOrIdent::Ident(ident("C"))))),
        ],
    };
    let union = Union {
        types: vec![
            Spanned::call_site(IdentOrUnion::Ident(UnionDiscriminant::Ref(PathOrIdent::Ident(ident("A"))))),
            Spanned::call_site(IdentOrUnion::Ident(UnionDiscriminant::Anonymous(Spanned::call_site(AnonymousStruct {
                fields: vec![field("b", Sep::Required, reference("B"))],
            })))),
            Spanned::call_site(IdentOrUnion::Union { inner: Box::new(Spanned::call_site(nested)) }),
        ],
    };
    add_child(
        &mut ns,
        "Merged",
        NamespaceChild::Type(TypeDef {
            comments: vec![],
            meta: vec![],
            def: Spanned::call_site(TypeAlias { name: ident("Merged"), ty: Spanned::call_site(Type::Union { ty: Spanned::call_site(union) }) }),
        }),
    );
    let graph = TypeExtractor::extract_from_namespace(&ns, &ns_ref());
    let deps = graph.get_node(&item("Merged")).unwrap();
    assert_eq!(deps.len(), 3);
    assert_eq!(deps[0].field_path, vec!["union_0".to_string()]);
    assert_eq!(deps[0].kind, EdgeKind::Optional);
    assert_eq!(deps[1].field_path, vec!["union_1".to_string(), "b".to_string()]);
    assert_eq!(deps[1].kind, EdgeKind::Required);
    assert_eq!(deps[2].field_path, vec!["union_2".to_string(), "nested_0".to_string()]);
    assert_eq!(deps[2].kind, EdgeKind::Optional);
    assert_eq!(dep_targets(&deps[2]), vec!["pkg::ns::C".to_string()]);
}

#[test]
fn extract_oneof_operation_and_enum_items() {
    let mut ns = empty_ns();
    let one = OneOf {
        name: ident("Shape"),
        variants: vec![
            Spanned::call_site(Variant::Tuple { comments: kintsu_parser::ast::CommentStream { comments: vec![] }, name: ident("Circle"), inner: reference("Circle") }),
            Spanned::call_site(Variant::LocalStruct {
                comments: kintsu_parser::ast::CommentStream { comments: vec![] },
                name: ident("Rect"),
                inner: Spanned::call_site(AnonymousStruct { fields: vec![field("corner", Sep::Required, reference("Point"))] }),
            }),
            Spanned::call_site(Variant::Unit { name: ident("Empty") }),
        ],
    };
    add_child(&mut ns, "Shape", NamespaceChild::OneOf(OneOfDef { comments: vec![], meta: vec![], def: Spanned::call_site(one) }));
    let op = Operation {
        name: ident("draw"),
        args: Some(Spanned::call_site(vec![field("shape", Sep::Required, reference("Shape"))])),
        return_type: Spanned::call_site(reference("Canvas")),
    };
    add_child(&mut ns, "draw", NamespaceChild::Operation(OperationDef { comments: vec![], meta: vec![], def: Spanned::call_site(op) }));
    add_child(
        &mut ns,
        "Color",
        NamespaceChild::Enum(EnumDef { comments: vec![], meta: vec![], def: Spanned::call_site(Enum { kind: kintsu_parser::ast::EnumKind::Int, name: ident("Color"), variants: vec![] }) }),
    );
    let graph = TypeExtractor::extract_from_namespace(&ns, &ns_ref());
    assert_eq!(
        names(&graph.type_names()),
        vec!["pkg::ns::Color".to_string(), "pkg::ns::Shape".to_string(), "pkg::ns::draw".to_string()]
    );
    let shape = graph.get_node(&item("Shape")).unwrap();
    assert_eq!(shape.len(), 2);
    assert_eq!(shape[0].field_path, vec!["Circle".to_string()]);
    assert_eq!(shape[0].kind, EdgeKind::Optional);
    assert_eq!(shape[1].field_path, vec!["Rect".to_string(), "corner".to_string()]);
    assert_eq!(shape[1].kind, EdgeKind::Required);
    let draw = graph.get_node(&item("draw")).unwrap();
    assert_eq!(draw.len(), 2);
    assert_eq!(draw[0].field_path, vec!["param:shape".to_string()]);
    assert_eq!(draw[0].kind, EdgeKind::Required);
    assert_eq!(draw[1].field_path, vec!["return".to_string()]);
    assert_eq!(draw[1].kind, EdgeKind::Required);
    assert_eq!(graph.get_node(&item("Color")).unwrap().len(), 0);
}

#[test]
fn extract_later_declaration_replaces_dependencies() {
    let mut ns = empty_ns();
    add_child(&mut ns, "A", struct_child("A", vec![field("x", Sep::Required, reference("X"))]));
    add_child(&mut ns, "A", struct_child("A", vec![field("y", Sep::Optional, reference("Y"))]));
    let graph = TypeExtractor::extract_from_namespace(&ns, &ns_ref());
    assert_eq!(graph.type_names().len(), 1);
    let deps = graph.get_node(&item("A")).unwrap();
    assert_eq!(deps.len(), 1);
    assert_eq!(deps[0].field_path, vec!["y".to_string()]);
}

#[test]
fn candidates_for_bare_name_follow_imports() {
    let mut ns = empty_ns();
    ns.imports.push(FromNamedSource {
        source: "schema.ks".to_string(),
        value: RefOrItemContext::Item(RefContext::new("other".to_string(), vec!["x".to_string()]).item(ident("User"))),
    });
    ns.imports.push(FromNamedSource {
        source: "schema.ks".to_string(),
        value: RefOrItemContext::Item(RefContext::new("other".to_string(), vec![]).item(ident("Account"))),
    });
    ns.imports.push(FromNamedSource {
        source: "schema.ks".to_string(),
        value: RefOrItemContext::Ref(RefContext::new("lib".to_string(), vec!["types".to_string()])),
    });
    ns.imports.push(FromNamedSource {
        source: "schema.ks".to_string(),
        value: RefOrItemContext::Ref(RefContext::new("lib".to_string(), vec!["User".to_string()])),
    });
    let r = PathOrIdent::Ident(ident("User"));
    let c = TypeExtractor::generate_candidates(&r, &ns_ref(), &ns);
    assert_eq!(
        names(&c),
        vec![
            "other::x::User".to_string(),
            "lib::types::User".to_string(),
            "lib::User".to_string(),
            "pkg::ns::User".to_string(),
        ]
    );
}

#[test]
fn candidates_for_path_merge_with_imports() {
    let mut ns = empty_ns();
    ns.imports.push(FromNamedSource {
        source: "schema.ks".to_string(),
        value: RefOrItemContext::Ref(RefContext::new("lib".to_string(), vec!["types".to_string()])),
    });
    ns.imports.push(FromNamedSource {
        source: "schema.ks".to_string(),
        value: RefOrItemContext::Item(RefContext::new("other".to_string(), vec![]).item(ident("User"))),
    });
    let r = PathOrIdent::Path(Spanned::call_site(Path::Ambiguous { bits: vec!["lib".to_string(), "auth".to_string(), "User".to_string()] }));
    let c = TypeExtractor::generate_candidates(&r, &ns_ref(), &ns);
    assert_eq!(c.len(), 3);
    assert_eq!(c[1].display(), "other::User".to_string());
    assert_eq!(c[2].display(), "pkg::ns::lib::auth::User".to_string());
    let empty = PathOrIdent::Path(Spanned::call_site(Path::Ambiguous { bits: vec![] }));
    assert_eq!(TypeExtractor::generate_candidates(&empty, &ns_ref(), &ns).len(), 0);
}
