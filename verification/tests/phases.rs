use kintsu_parser::ast::{
    AnonymousStruct, Arg, Array, Builtin, CommentStream, IdentOrUnion, PathOrIdent, Sep, Struct, StructDef, Type, Union,
    UnionDiscriminant,
};
use kintsu_parser::common::{FromNamedSource, NamespaceChild, NamespaceCtx};
use kintsu_parser::defs::Spanned;
use kintsu_parser::paths::RefContext;
use kintsu_parser::phases::{anonymous_structs, identify_unions};
use kintsu_parser::resolution::NamespaceResolution;
use kintsu_parser::toks::IdentToken;

fn ident(s: &str) -> Spanned<IdentToken> {
    Spanned::call_site(IdentToken::new(s.to_string()))
}

fn field(name: &str, typ: Type) -> Spanned<Arg> {
    Spanned::call_site(Arg { comments: CommentStream { comments: vec![] }, name: ident(name), sep: Sep::Required, typ })
}

fn builtin(b: Builtin) -> Type {
    Type::Builtin { ty: Spanned::call_site(b) }
}

fn ns_with(children: Vec<(&str, Vec<Spanned<Arg>>)>) -> NamespaceCtx {
    let ctx = RefContext::new("test_package".to_string(), vec!["test".to_string()]);
    let mut ns = NamespaceCtx { sources: kintsu_parser::ordmap::StrMap::new(), comments: vec![], tag: None, namespace: FromNamedSource { source: String::new(), value: kintsu_parser::defs::Spanned::call_site(kintsu_parser::toks::IdentToken::new(String::from("ns"))) }, ctx: ctx.duplicate(), error: None, version: None, imports: vec![], children: vec![], resolved_versions: kintsu_parser::ordmap::StrMap::new(), resolved_errors: kintsu_parser::ordmap::StrMap::new(), resolved_aliases: kintsu_parser::ordmap::StrMap::new() };
    for (name, args) in children {
        let def = StructDef { comments: vec![], meta: vec![], def: Spanned::call_site(Struct { name: ident(name), args }) };
        ns.children.push((ctx.item(ident(name)), FromNamedSource { source: "test.ks".to_string(), value: NamespaceChild::Struct(def) }));
    }
    ns
}

fn array_of(t: Type) -> Type {
    Type::Array { ty: Box::new(Spanned::call_site(Array::Unsized { ty: Box::new(Spanned::call_site(t)) })) }
}

#[test]
fn anonymous_struct_fields_are_left_to_registration() {
    let profile = Type::Struct { ty: Spanned::call_site(AnonymousStruct { fields: vec![field("name", builtin(Builtin::Str))] }) };
    let ns = ns_with(vec![("User", vec![field("profile", profile)])]);
    let mut result = NamespaceResolution::new();
    anonymous_structs(&ns, &mut result);
    assert_eq!(result.anonymous_structs.len(), 0);
}

#[test]
fn anonymous_structs_inside_field_types_are_named_by_path() {
    let profile = array_of(Type::Struct {
        ty: Spanned::call_site(AnonymousStruct { fields: vec![field("name", builtin(Builtin::Str)), field("age", builtin(Builtin::I32))] }),
    });
    let ns = ns_with(vec![("User", vec![field("profile", profile)])]);
    let mut result = NamespaceResolution::new();
    anonymous_structs(&ns, &mut result);
    assert_eq!(result.anonymous_structs.len(), 1, "Expected 1 anonymous struct to be extracted");
    let extracted = &result.anonymous_structs[0].value;
    assert_eq!(extracted.value.def.value.name.value.0, "UserProfile", "Generated name should be UserProfile");
    assert_eq!(extracted.value.def.value.args.len(), 2, "UserProfile should have 2 fields");
    let field_names: Vec<String> = extracted.value.def.value.args.iter().map(|f| f.value.name.value.0.clone()).collect();
    assert!(field_names.contains(&"name".to_string()));
    assert!(field_names.contains(&"age".to_string()));
    assert_eq!(result.anonymous_structs[0].source, "test.ks");
}

#[test]
fn several_anonymous_structs_keep_their_order() {
    let config = array_of(Type::Struct { ty: Spanned::call_site(AnonymousStruct { fields: vec![field("a", builtin(Builtin::Bool))] }) });
    let state = array_of(Type::Struct { ty: Spanned::call_site(AnonymousStruct { fields: vec![field("b", builtin(Builtin::Bool))] }) });
    let ns = ns_with(vec![("Data", vec![field("config", config), field("state", state)])]);
    let mut result = NamespaceResolution::new();
    anonymous_structs(&ns, &mut result);
    let names: Vec<String> = result.anonymous_structs.iter().map(|s| s.value.value.def.value.name.value.0.clone()).collect();
    assert_eq!(names, vec!["DataConfig".to_string(), "DataState".to_string()]);
}

#[test]
fn test_simple_field_union() {
    let union = Type::Union {
        ty: Spanned::call_site(Union {
            types: vec![
                Spanned::call_site(IdentOrUnion::Ident(UnionDiscriminant::Ref(PathOrIdent::Ident(ident("User"))))),
                Spanned::call_site(IdentOrUnion::Ident(UnionDiscriminant::Ref(PathOrIdent::Ident(ident("Permissions"))))),
            ],
        }),
    };
    let ns = ns_with(vec![
        ("User", vec![field("id", builtin(Builtin::I64))]),
        ("Permissions", vec![field("resource", builtin(Builtin::I64)), field("level", builtin(Builtin::Usize))]),
        ("Request", vec![field("auth", union)]),
    ]);
    let mut result = NamespaceResolution::new();
    identify_unions(&ns, &mut result);
    assert_eq!(result.identified_unions.len(), 1, "Expected 1 union to be identified");
    let union_record = &result.identified_unions[0].value;
    assert_eq!(union_record.context_stack.len(), 2, "Context stack should have 2 elements");
    assert_eq!(union_record.context_stack[0], "Request");
    assert_eq!(union_record.context_stack[1], "auth");
    assert_eq!(union_record.generate_name(), "RequestAuth");
    assert!(!union_record.in_oneof);
    assert_eq!(union_record.variant_index, None);
}
