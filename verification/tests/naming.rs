use kintsu_parser::helpers::{NameContext, UnionRecord, UnionWorkingSet, join_underscore};
use kintsu_parser::names::{guard_schema, normalize_import_to_package_name, normalize_package_to_import_name};
use kintsu_parser::ast::{Arg, Builtin, CommentStream, Sep, Type, Union};
use kintsu_parser::defs::{Span, Spanned};
use kintsu_parser::toks::IdentToken;
use std::sync::Arc;

#[test]
fn package_and_import_names() {
    assert_eq!(normalize_import_to_package_name("abc_foo"), "abc-foo");
    assert_eq!(normalize_package_to_import_name("abc-foo"), "abc_foo");
    assert_eq!(normalize_package_to_import_name(&normalize_import_to_package_name("a_b_c")), "a_b_c");
}

#[test]
fn generated_names_are_pascal_case_paths() {
    let mut ctx = NameContext::new();
    ctx.push("user".to_string());
    ctx.push("home_address".to_string());
    assert_eq!(join_underscore(&ctx.stack), "user_home_address");
    assert_eq!(ctx.generate_name(), "UserHomeAddress");
    ctx.pop();
    assert_eq!(ctx.generate_name(), "User");
    ctx.pop();
    ctx.pop();
    assert!(ctx.stack.is_empty());
}

#[test]
fn union_names_carry_the_variant_number() {
    let record = |in_oneof: bool, idx: Option<usize>| UnionRecord {
        union_ref: Arc::new(Spanned::call_site(Union { types: vec![] })),
        context_stack: vec!["event".to_string(), "payload".to_string()],
        in_oneof,
        variant_index: idx,
    };
    assert_eq!(record(true, Some(2)).generate_name(), "EventPayload2");
    assert_eq!(record(true, None).generate_name(), "EventPayload");
    assert_eq!(record(false, Some(2)).generate_name(), "EventPayload");
}

fn field(name: &str, t: Builtin, start: usize) -> Spanned<Arg> {
    Spanned::new(start, start + 1, Arg {
        comments: CommentStream { comments: vec![] },
        name: Spanned::call_site(IdentToken::new(name.to_string())),
        sep: Sep::Required,
        typ: Type::Builtin { ty: Spanned::call_site(t) },
    })
}

#[test]
fn merged_union_keeps_the_first_field_of_each_name() {
    let mut set = UnionWorkingSet::new();
    let w1 = set.merge_struct_with_warnings("a.ks".to_string(), "A", vec![field("id", Builtin::I32, 0), field("name", Builtin::Str, 2)], None);
    assert!(w1.is_empty());
    let w2 = set.merge_struct_with_warnings(
        "b.ks".to_string(),
        "B",
        vec![field("id", Builtin::I32, 10), field("age", Builtin::U8, 12), field("name", Builtin::Bool, 14)],
        Some(Span::new(0, 20)),
    );
    assert_eq!(w2.len(), 2);
    assert_eq!(w2[0].field_name, "id");
    assert!(w2[0].same_type);
    assert_eq!(w2[1].field_name, "name");
    assert!(!w2[1].same_type);
    assert_eq!(w2[1].operand_name, "B");
    let def = set.into_struct_def("Merged".to_string(), "out.ks".to_string());
    let names: Vec<String> = def.value.def.value.args.iter().map(|a| a.value.name.value.0.clone()).collect();
    assert_eq!(names, vec!["age", "id", "name"]);
    assert!(matches!(def.value.def.value.args[2].value.typ, Type::Builtin { ty: Spanned { value: Builtin::Str, .. } }));
    assert_eq!(def.value.def.value.name.value.0, "Merged");
}

#[test]
fn schema_guard() {
    assert_eq!(guard_schema("my_pkg", "schema"), "my_pkg");
    assert_eq!(guard_schema("my_pkg", "other"), "other");
}

#[test]
fn root_context_takes_the_snake_case_package_name() {
    let ctx = kintsu_parser::names::root_context(&"My-Package".to_string());
    assert_eq!(ctx.package, "my_package");
    assert!(ctx.namespace.is_empty());
}
