use kintsu_parser::ast::{
    AnonymousStruct, Arg, Builtin, CommentStream, Enum, EnumDef, PathOrIdent, Sep, Struct, StructDef, Type,
};
use kintsu_parser::common::{FromNamedSource, NamespaceChild, NamespaceCtx};
use kintsu_parser::defs::Spanned;
use kintsu_parser::ordmap::StrMap;
use kintsu_parser::paths::RefContext;
use kintsu_parser::toks::IdentToken;
use kintsu_parser::union_or::flatten_union_or;
use kintsu_parser::union_or_merge::{UnionOrError, merge_union_or_operands};
use kintsu_parser::ast::{TypeAlias, TypeDef};
use kintsu_parser::pipeline::{ResolveError, resolve};
use kintsu_parser::resolution::NamespaceResolution;
use kintsu_parser::type_registry::TypeRegistry;
use kintsu_parser::union_or_phase::UnionOrPassError;

fn ident(s: &str) -> Spanned<IdentToken> {
    Spanned::call_site(IdentToken::new(s.to_string()))
}

fn field(name: &str, sep: Sep, typ: Type) -> Spanned<Arg> {
    Spanned::call_site(Arg { comments: CommentStream { comments: vec![] }, name: ident(name), sep, typ })
}

fn builtin(b: Builtin) -> Type {
    Type::Builtin { ty: Spanned::call_site(b) }
}

fn reference(name: &str) -> Type {
    Type::Ident { to: PathOrIdent::Ident(ident(name)) }
}

fn or(l: Type, r: Type) -> Type {
    Type::UnionOr { lhs: Box::new(Spanned::call_site(l)), rhs: Box::new(Spanned::call_site(r)) }
}

fn ns_with(children: Vec<(&str, NamespaceChild)>) -> NamespaceCtx {
    let ctx = RefContext::new("test_package".to_string(), vec!["test".to_string()]);
    let mut ns = NamespaceCtx { sources: kintsu_parser::ordmap::StrMap::new(), comments: vec![], tag: None, namespace: FromNamedSource { source: String::new(), value: kintsu_parser::defs::Spanned::call_site(kintsu_parser::toks::IdentToken::new(String::from("ns"))) }, ctx: ctx.duplicate(), error: None, version: None, imports: vec![], children: vec![], resolved_versions: kintsu_parser::ordmap::StrMap::new(), resolved_errors: kintsu_parser::ordmap::StrMap::new(), resolved_aliases: kintsu_parser::ordmap::StrMap::new() };
    for (name, child) in children {
        ns.children.push((ctx.item(ident(name)), FromNamedSource { source: "test.ks".to_string(), value: child }));
    }
    ns
}

fn struct_child(name: &str, args: Vec<Spanned<Arg>>) -> (&str, NamespaceChild) {
    (name, NamespaceChild::Struct(StructDef { comments: vec![], meta: vec![], def: Spanned::call_site(Struct { name: ident(name), args }) }))
}

fn merged_fields(t: &Type) -> Vec<(String, &Type, Sep)> {
    match t {
        Type::Struct { ty } => ty.value.fields.iter().map(|f| (f.value.name.value.0.clone(), &f.value.typ, f.value.sep)).collect(),
        _ => panic!("Expected struct type"),
    }
}

/// Resolves a namespace of `children` and an alias `C` of `t`, and gives
/// what `C` resolved to.
fn resolve_alias(children: Vec<(&str, NamespaceChild)>, t: Type) -> Result<NamespaceResolution, ResolveError> {
    let mut all = children;
    all.push(("Composed", NamespaceChild::Type(TypeDef { comments: vec![], meta: vec![], def: Spanned::call_site(TypeAlias { name: ident("Composed"), ty: Spanned::call_site(t) }) })));
    let ns = ns_with(all);
    resolve(&ns, &TypeRegistry::new())
}

fn alias_c(res: &NamespaceResolution) -> &Type {
    &res.resolved_aliases.get(&"Composed".to_string()).expect("the alias is resolved").value
}

fn non_struct(r: Result<NamespaceResolution, ResolveError>) -> (String, String) {
    match r {
        Err(ResolveError::UnionOr(UnionOrPassError::Operand(UnionOrError::NonStructOperand { operand, found_type, .. }))) => (operand, found_type),
        other => panic!("expected a non-struct operand, got {:?}", other),
    }
}

#[test]
fn test_union_or_simple_merge() {
    let children = vec![
        struct_child("A", vec![field("foo", Sep::Required, builtin(Builtin::I32))]),
        struct_child("B", vec![field("bar", Sep::Required, builtin(Builtin::Str))]),
    ];
    let res = resolve_alias(children, or(reference("A"), reference("B"))).expect("Union Or resolution should succeed");
    let merged = alias_c(&res);
    let fields = merged_fields(&merged);
    assert_eq!(fields.len(), 2, "Should have exactly 2 fields");
    assert_eq!(fields[0].0, "bar");
    assert_eq!(fields[1].0, "foo");
}

#[test]
fn test_union_or_conflict_creates_oneof() {
    let children = vec![
        struct_child("A", vec![field("foo", Sep::Required, builtin(Builtin::I32))]),
        struct_child("B", vec![field("foo", Sep::Required, builtin(Builtin::Str))]),
    ];
    let res = resolve_alias(children, or(reference("A"), reference("B"))).expect("Union Or resolution should succeed");
    let merged = alias_c(&res);
    let fields = merged_fields(&merged);
    assert_eq!(fields.len(), 1, "Should have 1 field (foo as oneof)");
    match fields[0].1 {
        Type::OneOf { ty } => assert_eq!(ty.value.variants.len(), 2, "Should have 2 variants: i32 and str"),
        _ => panic!("Expected oneof type for conflicting field"),
    }
}

#[test]
fn test_union_or_chained_left_associative() {
    let children = vec![
        struct_child("A", vec![field("a", Sep::Required, builtin(Builtin::I32))]),
        struct_child("B", vec![field("b", Sep::Required, builtin(Builtin::Str))]),
        struct_child("C", vec![field("c", Sep::Required, builtin(Builtin::Bool))]),
    ];
    let res = resolve_alias(children, or(or(reference("A"), reference("B")), reference("C"))).expect("Chained Union Or should succeed");
    let merged = alias_c(&res);
    assert_eq!(merged_fields(&merged).len(), 3, "All three fields should be merged");
}

#[test]
fn test_union_or_with_duplicate_type_in_conflict() {
    let children = vec![
        struct_child("A", vec![field("x", Sep::Required, builtin(Builtin::I32))]),
        struct_child("B", vec![field("x", Sep::Required, builtin(Builtin::I32))]),
        struct_child("C", vec![field("x", Sep::Required, builtin(Builtin::Str))]),
    ];
    let res = resolve_alias(children, or(or(reference("A"), reference("B")), reference("C"))).expect("Union Or with duplicates should succeed");
    let merged = alias_c(&res);
    let fields = merged_fields(&merged);
    match fields[0].1 {
        Type::OneOf { ty } => assert_eq!(ty.value.variants.len(), 2, "Should dedupe to 2 variants (i32, str), not 3"),
        _ => panic!("Expected oneof type for x field"),
    }
}

#[test]
fn identical_types_stay_one_type() {
    let children = vec![
        struct_child("A", vec![field("x", Sep::Required, builtin(Builtin::I32))]),
        struct_child("B", vec![field("x", Sep::Required, builtin(Builtin::I32))]),
    ];
    let res = resolve_alias(children, or(reference("A"), reference("B"))).unwrap();
    let merged = alias_c(&res);
    assert!(matches!(merged_fields(&merged)[0].1, Type::Builtin { ty: Spanned { value: Builtin::I32, .. } }));
}

#[test]
fn test_union_or_non_struct_operand_error() {
    let children = vec![
        struct_child("A", vec![field("foo", Sep::Required, builtin(Builtin::I32))]),
        ("E", NamespaceChild::Enum(EnumDef { comments: vec![], meta: vec![], def: Spanned::call_site(Enum { kind: kintsu_parser::ast::EnumKind::Int, name: ident("E"), variants: vec![] }) })),
    ];
    let (operand, found_type) = non_struct(resolve_alias(children, or(reference("A"), reference("E"))));
    assert_eq!(operand, "E");
    assert_eq!(found_type, "enum");
}

#[test]
fn test_union_or_with_anonymous_struct() {
    let children = vec![struct_child("A", vec![field("a", Sep::Required, builtin(Builtin::I32))])];
    let anon = Type::Struct { ty: Spanned::call_site(AnonymousStruct { fields: vec![field("b", Sep::Required, builtin(Builtin::Str))] }) };
    let res = resolve_alias(children, or(reference("A"), anon)).expect("Union Or with anonymous struct should succeed");
    let merged = alias_c(&res);
    assert_eq!(merged_fields(&merged).len(), 2);
}

#[test]
fn test_union_or_preserves_field_optionality() {
    let children = vec![
        struct_child("A", vec![field("required", Sep::Required, builtin(Builtin::I32)), field("optional", Sep::Optional, builtin(Builtin::Str))]),
        struct_child("B", vec![field("other", Sep::Required, builtin(Builtin::Bool))]),
    ];
    let res = resolve_alias(children, or(reference("A"), reference("B"))).expect("Resolution should succeed");
    let merged = alias_c(&res);
    let fields = merged_fields(&merged);
    let optional = fields.iter().find(|f| f.0 == "optional").unwrap();
    assert_eq!(optional.2, Sep::Optional);
    let required = fields.iter().find(|f| f.0 == "required").unwrap();
    assert_eq!(required.2, Sep::Required);
}

#[test]
fn operands_follow_aliases_and_refuse_the_undefined() {
    let ns = ns_with(vec![struct_child("A", vec![field("a", Sep::Required, builtin(Builtin::I32))])]);
    let mut resolved = StrMap::new();
    resolved.insert("Alias".to_string(), Spanned::call_site(reference("A")));
    let operands = flatten_union_or(&or(reference("Alias"), reference("Missing")));
    match merge_union_or_operands(&operands, &ns, &resolved) {
        Err(UnionOrError::UndefinedType { name, .. }) => assert_eq!(name, "Missing"),
        other => panic!("expected an undefined operand, got {:?}", other),
    }
    let operands = flatten_union_or(&Type::Paren { ty: Box::new(Spanned::call_site(reference("Alias"))) });
    let merged = merge_union_or_operands(&operands, &ns, &resolved).unwrap();
    assert_eq!(merged_fields(&merged).len(), 1);
}
