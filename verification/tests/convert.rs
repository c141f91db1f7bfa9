use kintsu_parser::ast::{AnonymousStruct, Variant};
use kintsu_parser::ast::{Enum, EnumKind, EnumValue, EnumVariant};
use kintsu_parser::ast::{Struct, StructDef};
use kintsu_parser::ast::{TypeAlias, TypeDef};
use kintsu_parser::common::Definition;
use kintsu_parser::declare::DeclEnum;
use kintsu_parser::declare::TypeDefinition;
use kintsu_parser::ast::{AnonymousOneOf, Arg, Array, Builtin, CommentAst, CommentStream, PathOrIdent, Sep, Type};
use kintsu_parser::common::{FromNamedSource, NamespaceCtx};
use kintsu_parser::convert::{
    convert_anonymous_oneof_variants, convert_ast_type, convert_operation_args, convert_operation_return_type,
    convert_struct_fields, generate_variant_name_from_type, resolve_path_or_ident,
};
use kintsu_parser::declare::{Builtin as DeclBuiltin, DeclType};
use kintsu_parser::defs::Spanned;
use kintsu_parser::ordmap::StrMap;
use kintsu_parser::paths::{RefContext, RefOrItemContext};
use kintsu_parser::refset::RefSet;
use kintsu_parser::toks::{IdentToken, Path};

fn ident(s: &str) -> Spanned<IdentToken> {
    Spanned::call_site(IdentToken::new(s.to_string()))
}

fn strings(v: &[&str]) -> Vec<String> {
    v.iter().map(|s| s.to_string()).collect()
}

fn ns_with(imports: Vec<RefOrItemContext>) -> NamespaceCtx {
    NamespaceCtx { sources: kintsu_parser::ordmap::StrMap::new(), comments: vec![], tag: None, namespace: FromNamedSource { source: String::new(), value: kintsu_parser::defs::Spanned::call_site(kintsu_parser::toks::IdentToken::new(String::from("ns"))) },
        ctx: RefContext::new("shop".to_string(), strings(&["orders"])),
        error: None,
        version: None,
        imports: imports
            .into_iter()
            .map(|value| FromNamedSource { source: "orders.ks".to_string(), value })
            .collect(),
        children: vec![], resolved_versions: kintsu_parser::ordmap::StrMap::new(), resolved_errors: kintsu_parser::ordmap::StrMap::new(), resolved_aliases: kintsu_parser::ordmap::StrMap::new(),
    }
}

fn named(s: &str) -> Type {
    Type::Ident { to: PathOrIdent::Ident(ident(s)) }
}

fn path(bits: &[&str]) -> Type {
    Type::Ident { to: PathOrIdent::Path(Spanned::call_site(Path::Ambiguous { bits: strings(bits) })) }
}

fn builtin(b: Builtin) -> Type {
    Type::Builtin { ty: Spanned::call_site(b) }
}

fn arg(name: &str, sep: Sep, typ: Type) -> Spanned<Arg> {
    Spanned::call_site(Arg {
        comments: CommentStream { comments: vec![Spanned::call_site(CommentAst::SingleLine(format!("about {}", name)))] },
        name: ident(name),
        sep,
        typ,
    })
}

#[test]
fn identifier_resolves_through_imports() {
    let ns = ns_with(vec![
        RefOrItemContext::Ref(RefContext::new("billing".to_string(), strings(&["invoices", "Invoice"]))),
    ]);
    let r = resolve_path_or_ident(&PathOrIdent::Ident(ident("Invoice")), &ns);
    assert_eq!(r.context.package, "billing");
    assert_eq!(r.context.namespace, strings(&["invoices"]));
    assert_eq!(r.name, "Invoice");
    let local = resolve_path_or_ident(&PathOrIdent::Ident(ident("Order")), &ns);
    assert_eq!(local.context.package, "shop");
    assert_eq!(local.context.namespace, strings(&["orders"]));
    assert_eq!(local.name, "Order");
}

#[test]
fn path_splits_into_package_namespaces_and_name() {
    let ns = ns_with(vec![]);
    let r = resolve_path_or_ident(&PathOrIdent::Path(Spanned::call_site(Path::Ambiguous { bits: strings(&["pkg", "a", "b", "T"]) })), &ns);
    assert_eq!(r.context.package, "pkg");
    assert_eq!(r.context.namespace, strings(&["a", "b"]));
    assert_eq!(r.name, "T");
    let one = resolve_path_or_ident(&PathOrIdent::Path(Spanned::call_site(Path::Ambiguous { bits: strings(&["T"]) })), &ns);
    assert_eq!(one.context.package, "T");
    assert_eq!(one.context.namespace, strings(&["orders"]));
    assert_eq!(one.name, "T");
}

#[test]
fn external_reference_is_recorded() {
    let ns = ns_with(vec![]);
    let mut refs = RefSet::new();
    let t = Type::Array { ty: Box::new(Spanned::call_site(Array::Sized { ty: Box::new(Spanned::call_site(path(&["other", "x", "Item"]))), size: Spanned::call_site(4) })) };
    match convert_ast_type(&t, &ns, &mut refs) {
        Ok(DeclType::SizedArray { element_type, size }) => {
            assert_eq!(size, 4);
            match *element_type {
                DeclType::Named { reference } => assert_eq!(reference.qualified_path(), "other::x::Item"),
                _ => panic!("expected a reference"),
            }
        }
        _ => panic!("expected a sized array"),
    }
    assert_eq!(refs.len(), 1);
    let local = Type::Paren { ty: Box::new(Spanned::call_site(named("Order"))) };
    assert!(matches!(convert_ast_type(&local, &ns, &mut refs), Ok(DeclType::Paren { .. })));
    assert_eq!(refs.len(), 1);
    assert!(matches!(convert_ast_type(&builtin(Builtin::I32), &ns, &mut refs), Ok(DeclType::Builtin { ty: DeclBuiltin::I32 })));
}

#[test]
fn anonymous_types_cannot_be_declared() {
    let ns = ns_with(vec![]);
    let mut refs = RefSet::new();
    let t = Type::Result { ty: Box::new(Spanned::call_site(builtin(Builtin::Str))) };
    let e = convert_ast_type(&t, &ns, &mut refs).err().unwrap();
    assert_eq!(e.message, "Result type conversion requires operation context");
    let o = Type::OneOf { ty: Spanned::call_site(AnonymousOneOf { variants: vec![] }) };
    let e = convert_ast_type(&o, &ns, &mut refs).err().unwrap();
    assert_eq!(e.message, "Unexpected anonymous oneof in declaration extraction");
}

#[test]
fn result_return_type_pairs_with_resolved_error() {
    let ns = ns_with(vec![]);
    let mut errors = StrMap::new();
    errors.insert("place".to_string(), Spanned::call_site("PlaceError".to_string()));
    let mut refs = RefSet::new();
    let t = Type::Result { ty: Box::new(Spanned::call_site(named("Order"))) };
    match convert_operation_return_type(&t, &"place".to_string(), &ns, &errors, &mut refs) {
        Ok(DeclType::Result { error, .. }) => assert_eq!(error.qualified_path(), "shop::orders::PlaceError"),
        _ => panic!("expected a result"),
    }
    let e = convert_operation_return_type(&t, &"cancel".to_string(), &ns, &errors, &mut refs).err().unwrap();
    assert_eq!(e.message, "Missing resolved error for operation cancel");
    assert!(matches!(
        convert_operation_return_type(&builtin(Builtin::Bool), &"cancel".to_string(), &ns, &errors, &mut refs),
        Ok(DeclType::Builtin { ty: DeclBuiltin::Bool })
    ));
}

#[test]
fn fields_keep_names_optionality_and_comments() {
    let ns = ns_with(vec![]);
    let mut refs = RefSet::new();
    let args = vec![arg("id", Sep::Required, builtin(Builtin::U64)), arg("note", Sep::Optional, builtin(Builtin::Str))];
    let fields = convert_struct_fields(&args, &ns, &mut refs).ok().unwrap();
    assert_eq!(fields.len(), 2);
    assert_eq!(fields[0].name, "id");
    assert!(!fields[0].optional);
    assert!(fields[1].optional);
    assert_eq!(fields[1].comments.comments, strings(&["about note"]));
    assert!(fields[1].default_value.is_none());
    let bad = vec![arg("a", Sep::Required, path(&["ext", "A"])), arg("b", Sep::Required, Type::Result { ty: Box::new(Spanned::call_site(builtin(Builtin::I8))) }), arg("c", Sep::Required, path(&["more", "C"]))];
    let mut refs2 = RefSet::new();
    let e = convert_struct_fields(&bad, &ns, &mut refs2).err().unwrap();
    assert_eq!(e.message, "Result type conversion requires operation context");
    // the field before the failing one was converted; the one after was not
    assert_eq!(refs2.len(), 1);
}

#[test]
fn operation_arguments_without_optionality() {
    let ns = ns_with(vec![]);
    let mut refs = RefSet::new();
    let none = convert_operation_args(&None, &ns, &mut refs).ok().unwrap();
    assert!(none.is_empty());
    let some = Some(Spanned::call_site(vec![arg("qty", Sep::Optional, builtin(Builtin::I32))]));
    let args = convert_operation_args(&some, &ns, &mut refs).ok().unwrap();
    assert_eq!(args.len(), 1);
    assert_eq!(args[0].name, "qty");
    assert_eq!(args[0].comments.comments, strings(&["about qty"]));
}

#[test]
fn anonymous_oneof_variants_are_named_by_type() {
    let ns = ns_with(vec![]);
    let mut refs = RefSet::new();
    let oneof = AnonymousOneOf {
        variants: vec![
            Spanned::call_site(builtin(Builtin::I32)),
            Spanned::call_site(path(&["pkg", "Money"])),
            Spanned::call_site(Type::Array { ty: Box::new(Spanned::call_site(Array::Unsized { ty: Box::new(Spanned::call_site(builtin(Builtin::Str))) })) }),
        ],
    };
    let vs = convert_anonymous_oneof_variants(&oneof, &ns, &mut refs).ok().unwrap();
    let names: Vec<&str> = vs.iter().map(|v| v.name.as_str()).collect();
    assert_eq!(names, vec!["I32", "Money", "Array2"]);
    assert!(vs.iter().all(|v| v.comments.comments.is_empty()));
}

#[test]
fn variant_names_fall_back_to_position() {
    let union = Type::Struct { ty: Spanned::call_site(kintsu_parser::ast::AnonymousStruct { fields: vec![] }) };
    assert_eq!(generate_variant_name_from_type(&union, 7), "Variant7");
    let paren = Type::Paren { ty: Box::new(Spanned::call_site(named("Order"))) };
    assert_eq!(generate_variant_name_from_type(&paren, 0), "Order");
    assert_eq!(generate_variant_name_from_type(&path(&[]), 12), "Variant12");
}

#[test]
fn recorded_refs_match_declared_refs() {
    let ns = ns_with(vec![RefOrItemContext::Ref(RefContext::new("billing".to_string(), strings(&["Invoice"])))]);
    let t = Type::Paren { ty: Box::new(Spanned::call_site(Type::Array { ty: Box::new(Spanned::call_site(Array::Unsized { ty: Box::new(Spanned::call_site(named("Invoice"))) })) })) };
    let mut recorded = RefSet::new();
    let d = convert_ast_type(&t, &ns, &mut recorded).ok().unwrap();
    let mut declared = RefSet::new();
    d.collect_external_refs("shop", &mut declared);
    let a: Vec<String> = recorded.as_vec().iter().map(|r| r.qualified_path()).collect();
    let b: Vec<String> = declared.as_vec().iter().map(|r| r.qualified_path()).collect();
    assert_eq!(a, vec!["billing::Invoice".to_string()]);
    assert_eq!(a, b);
}

fn item(name: &str) -> kintsu_parser::paths::NamedItemContext {
    RefContext::new("shop".to_string(), strings(&["orders"])).item(ident(name))
}

#[test]
fn a_struct_is_declared_with_its_recorded_version() {
    let ns = ns_with(vec![]);
    let field = Spanned::call_site(Arg { comments: CommentStream { comments: vec![] }, name: ident("id"), sep: Sep::Optional, typ: Type::Builtin { ty: Spanned::call_site(Builtin::I64) } });
    let def = Definition::Struct(std::sync::Arc::new(StructDef { comments: vec![], meta: vec![], def: Spanned::call_site(Struct { name: ident("Order"), args: vec![field] }) }));
    let mut versions: StrMap<Spanned<u32>> = StrMap::new();
    versions.insert("Order".to_string(), Spanned::call_site(3));
    let mut refs = RefSet::new();
    match kintsu_parser::convert_item::convert_type(&item("Order"), &def, &ns, &versions, &StrMap::new(), &mut refs).unwrap() {
        TypeDefinition::Struct(s) => {
            assert_eq!(s.name, "Order");
            assert_eq!(s.meta.version, 3);
            assert_eq!(s.fields.len(), 1);
            assert!(s.fields[0].optional);
        },
        other => panic!("expected a struct, got {:?}", other),
    }
}

#[test]
fn an_alias_of_an_anonymous_oneof_is_a_oneof() {
    let ns = ns_with(vec![]);
    let oneof = Type::OneOf { ty: Spanned::call_site(AnonymousOneOf { variants: vec![
        Spanned::call_site(Type::Builtin { ty: Spanned::call_site(Builtin::I32) }),
        Spanned::call_site(Type::Builtin { ty: Spanned::call_site(Builtin::Str) }),
    ] }) };
    let def = Definition::TypeAlias(std::sync::Arc::new(TypeDef { comments: vec![], meta: vec![], def: Spanned::call_site(TypeAlias { name: ident("Value"), ty: Spanned::call_site(oneof) }) }));
    let mut refs = RefSet::new();
    match kintsu_parser::convert_item::convert_type(&item("Value"), &def, &ns, &StrMap::new(), &StrMap::new(), &mut refs).unwrap() {
        TypeDefinition::OneOf(o) => {
            assert_eq!(o.meta.version, 1);
            assert_eq!(o.variants.len(), 2);
        },
        other => panic!("expected a oneof, got {:?}", other),
    }
}

#[test]
fn an_int_enum_defaults_missing_values_to_zero() {
    let e = Enum {
        kind: EnumKind::Int,
        name: ident("Level"),
        variants: vec![
            Spanned::call_site(EnumVariant { comments: kintsu_parser::ast::CommentStream { comments: vec![] }, name: ident("Low"), value: Some(EnumValue::Int(Spanned::call_site(5))) }),
            Spanned::call_site(EnumVariant { comments: kintsu_parser::ast::CommentStream { comments: vec![] }, name: ident("High"), value: None }),
        ],
    };
    match kintsu_parser::convert_item::convert_enum(&e) {
        DeclEnum::Int(vs) => {
            assert_eq!(vs[0].name, "Low");
            assert_eq!(vs[0].value, 5);
            assert_eq!(vs[1].value, 0);
        },
        other => panic!("expected an int enum, got {:?}", other),
    }
}

#[test]
fn a_oneof_variant_with_fields_is_refused() {
    let ns = ns_with(vec![]);
    let variants = vec![Spanned::call_site(Variant::LocalStruct { comments: kintsu_parser::ast::CommentStream { comments: vec![] }, name: ident("Card"), inner: Spanned::call_site(AnonymousStruct { fields: vec![] }) })];
    let mut refs = RefSet::new();
    let err = kintsu_parser::convert_item::convert_oneof_variants(&variants, &ns, &mut refs).unwrap_err();
    assert_eq!(err.message, "Unexpected anonymous struct in oneof variant");
}
