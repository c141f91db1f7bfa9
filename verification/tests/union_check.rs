use std::sync::Arc;

use kintsu_parser::ast::{
    AnonymousStruct, Arg, Builtin, CommentStream, Enum, EnumDef, IdentOrUnion, PathOrIdent, Sep, Struct, StructDef,
    Type, Union, UnionDiscriminant,
};
use kintsu_parser::common::{FromNamedSource, NamespaceChild, NamespaceCtx};
use kintsu_parser::defs::Spanned;
use kintsu_parser::helpers::UnionRecord;
use kintsu_parser::ordmap::StrMap;
use kintsu_parser::paths::RefContext;
use kintsu_parser::phases::{merge_unions, validate_unions};
use kintsu_parser::resolution::NamespaceResolution;
use kintsu_parser::toks::IdentToken;
use kintsu_parser::union_check::{UnionError, merge_union, validate_union_record};

fn ident(s: &str) -> Spanned<IdentToken> {
    Spanned::call_site(IdentToken::new(s.to_string()))
}

fn field(name: &str, typ: Type) -> Spanned<Arg> {
    Spanned::call_site(Arg { comments: CommentStream { comments: vec![] }, name: ident(name), sep: Sep::Required, typ })
}

fn builtin(b: Builtin) -> Type {
    Type::Builtin { ty: Spanned::call_site(b) }
}

fn ns_with(children: Vec<(&str, NamespaceChild)>) -> NamespaceCtx {
    let ctx = RefContext::new("test_package".to_string(), vec!["test".to_string()]);
    let mut ns = NamespaceCtx { sources: kintsu_parser::ordmap::StrMap::new(), comments: vec![], tag: None, namespace: FromNamedSource { source: String::new(), value: kintsu_parser::defs::Spanned::call_site(kintsu_parser::toks::IdentToken::new(String::from("ns"))) }, ctx: ctx.duplicate(), error: None, version: None, imports: vec![], children: vec![], resolved_versions: kintsu_parser::ordmap::StrMap::new(), resolved_errors: kintsu_parser::ordmap::StrMap::new(), resolved_aliases: kintsu_parser::ordmap::StrMap::new() };
    for (name, child) in children {
        ns.children.push((ctx.item(ident(name)), FromNamedSource { source: format!("{name}.ks"), value: child }));
    }
    ns
}

fn struct_child(name: &str, args: Vec<Spanned<Arg>>) -> (&str, NamespaceChild) {
    (name, NamespaceChild::Struct(StructDef { comments: vec![], meta: vec![], def: Spanned::call_site(Struct { name: ident(name), args }) }))
}

fn operand(name: &str) -> Spanned<IdentOrUnion> {
    Spanned::call_site(IdentOrUnion::Ident(UnionDiscriminant::Ref(PathOrIdent::Ident(ident(name)))))
}

fn record(types: Vec<Spanned<IdentOrUnion>>, stack: &[&str]) -> UnionRecord {
    UnionRecord {
        union_ref: Arc::new(Spanned::call_site(Union { types })),
        context_stack: stack.iter().map(|s| s.to_string()).collect(),
        in_oneof: false,
        variant_index: None,
    }
}

fn base_and_extra() -> NamespaceCtx {
    ns_with(vec![
        struct_child("Base", vec![field("id", builtin(Builtin::I64))]),
        struct_child("Extra", vec![field("data", builtin(Builtin::Str))]),
    ])
}

#[test]
fn test_valid_struct_union() {
    let ns = base_and_extra();
    let rec = record(vec![operand("Base"), operand("Extra")], &["Combined"]);
    assert!(validate_union_record(&rec, &ns, &StrMap::new()).is_ok(), "Valid struct union should pass validation");
}

#[test]
fn test_invalid_builtin_union() {
    let ns = ns_with(vec![]);
    let mut resolved = StrMap::new();
    resolved.insert("A".to_string(), Spanned::call_site(builtin(Builtin::I32)));
    resolved.insert("B".to_string(), Spanned::call_site(builtin(Builtin::U32)));
    let rec = record(vec![operand("A"), operand("B")], &["Invalid"]);
    match validate_union_record(&rec, &ns, &resolved) {
        Err(UnionError::OperandMustBeStruct { found_type, operand_name }) => {
            assert_eq!(found_type, "i32");
            assert_eq!(operand_name, "A");
        },
        other => panic!("Expected an operand that must be a struct, got {:?}", other),
    }
}

#[test]
fn test_invalid_enum_union() {
    let ns = ns_with(vec![
        struct_child("Record", vec![field("id", builtin(Builtin::I64))]),
        ("Status", NamespaceChild::Enum(EnumDef { comments: vec![], meta: vec![], def: Spanned::call_site(Enum { kind: kintsu_parser::ast::EnumKind::Int, name: ident("Status"), variants: vec![] }) })),
    ]);
    let rec = record(vec![operand("Record"), operand("Status")], &["Invalid"]);
    match validate_union_record(&rec, &ns, &StrMap::new()) {
        Err(UnionError::OperandMustBeStruct { found_type, .. }) => assert_eq!(found_type, "enum"),
        other => panic!("Expected an operand that must be a struct, got {:?}", other),
    }
}

#[test]
fn test_union_with_resolved_alias() {
    let ns = base_and_extra();
    let mut resolved = StrMap::new();
    resolved.insert("AliasedExtra".to_string(), Spanned::call_site(Type::Ident { to: PathOrIdent::Ident(ident("Extra")) }));
    let rec = record(vec![operand("Base"), operand("AliasedExtra")], &["Combined"]);
    assert!(validate_union_record(&rec, &ns, &resolved).is_ok(), "Union with struct alias should pass validation");
}

#[test]
fn undefined_operands_are_named() {
    let ns = base_and_extra();
    let rec = record(vec![operand("Base"), operand("Missing")], &["Combined"]);
    match validate_union_record(&rec, &ns, &StrMap::new()) {
        Err(UnionError::UndefinedType { name }) => assert_eq!(name, "Missing"),
        other => panic!("expected an undefined operand, got {:?}", other),
    }
}

#[test]
fn test_nested_union_validation() {
    let ns = ns_with(vec![
        struct_child("A", vec![field("a", builtin(Builtin::I32))]),
        struct_child("B", vec![field("b", builtin(Builtin::I32))]),
        struct_child("C", vec![field("c", builtin(Builtin::I32))]),
    ]);
    let nested = Spanned::call_site(IdentOrUnion::Union { inner: Box::new(Spanned::call_site(Union { types: vec![operand("B"), operand("C")] })) });
    let rec = record(vec![operand("A"), nested], &["Complex"]);
    assert!(validate_union_record(&rec, &ns, &StrMap::new()).is_ok(), "Nested struct union should pass validation");
    let merged = merge_union(&rec, &ns).unwrap();
    let names: Vec<String> = merged.value.def.value.args.iter().map(|a| a.value.name.value.0.clone()).collect();
    assert_eq!(names, vec!["a".to_string(), "b".to_string(), "c".to_string()], "Should merge all fields from nested unions");
    assert_eq!(merged.value.def.value.name.value.0, "Complex");
}

#[test]
fn test_field_conflict_leftmost_wins() {
    let ns = ns_with(vec![
        struct_child("Identity", vec![field("version", builtin(Builtin::I32)), field("id", builtin(Builtin::I64))]),
        struct_child("Timestamps", vec![field("version", builtin(Builtin::I64)), field("created_at", builtin(Builtin::DateTime))]),
    ]);
    let rec = record(vec![operand("Identity"), operand("Timestamps")], &["Record"]);
    let merged = merge_union(&rec, &ns).unwrap();
    let args = &merged.value.def.value.args;
    assert_eq!(args.len(), 3, "Should have 3 unique fields");
    let names: Vec<String> = args.iter().map(|a| a.value.name.value.0.clone()).collect();
    assert_eq!(names, vec!["created_at".to_string(), "id".to_string(), "version".to_string()]);
    assert!(matches!(args[2].value.typ, Type::Builtin { ty: Spanned { value: Builtin::I32, .. } }));
}

#[test]
fn test_anonymous_operand_merge() {
    let ns = ns_with(vec![struct_child("Base", vec![field("id", builtin(Builtin::I64))])]);
    let anon = Spanned::call_site(IdentOrUnion::Ident(UnionDiscriminant::Anonymous(Spanned::call_site(AnonymousStruct {
        fields: vec![field("extra", builtin(Builtin::Str))],
    }))));
    let rec = record(vec![operand("Base"), anon], &["Extended"]);
    let merged = merge_union(&rec, &ns).unwrap();
    let names: Vec<String> = merged.value.def.value.args.iter().map(|a| a.value.name.value.0.clone()).collect();
    assert_eq!(names, vec!["extra".to_string(), "id".to_string()]);
    assert_eq!(merged.source, "");
}

#[test]
fn union_phases_run_over_every_record() {
    let ns = base_and_extra();
    let mut resolution = NamespaceResolution::new();
    resolution.identified_unions.push(Spanned::call_site(record(vec![operand("Base"), operand("Extra")], &["Request", "auth"])));
    assert!(validate_unions(&ns, &resolution).is_ok());
    merge_unions(&ns, &mut resolution).unwrap();
    assert_eq!(resolution.union_structs.len(), 1);
    assert_eq!(resolution.union_structs[0].value.value.def.value.name.value.0, "RequestAuth");
    assert_eq!(resolution.union_structs[0].value.value.def.value.args.len(), 2);
}
