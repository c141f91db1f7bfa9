use kintsu_parser::ast::{AnonymousOneOf, AnonymousStruct, Arg, Builtin, CommentStream, PathOrIdent, Sep, Type};
use kintsu_parser::defs::Spanned;
use kintsu_parser::toks::IdentToken;
use kintsu_parser::union_or::{
    build_oneof_type, contains_union_or, flatten_union_or, operand_display_name, types_are_equivalent,
};

fn ident(name: &str) -> Type {
    Type::Ident { to: PathOrIdent::Ident(Spanned::call_site(IdentToken::new(name.to_string()))) }
}

fn builtin(b: Builtin) -> Type {
    Type::Builtin { ty: Spanned::call_site(b) }
}

fn union_or(l: Type, r: Type) -> Type {
    Type::UnionOr { lhs: Box::new(Spanned::call_site(l)), rhs: Box::new(Spanned::call_site(r)) }
}

fn paren(t: Type) -> Type {
    Type::Paren { ty: Box::new(Spanned::call_site(t)) }
}

fn anon(fields: Vec<(&str, Type)>) -> Type {
    let fields = fields
        .into_iter()
        .map(|(n, t)| {
            Spanned::call_site(Arg {
                comments: CommentStream { comments: vec![] },
                name: Spanned::call_site(IdentToken::new(n.to_string())),
                sep: Sep::Required,
                typ: t,
            })
        })
        .collect();
    Type::Struct { ty: Spanned::call_site(AnonymousStruct { fields }) }
}

fn name_of(t: &Type) -> String {
    operand_display_name(t)
}

#[test]
fn test_contains_union_or() {
    // Simple ident - no union or
    let ident_type = Type::Ident {
        to: PathOrIdent::Ident(Spanned::call_site(IdentToken::new("Foo".to_string()))),
    };
    assert!(!contains_union_or(&ident_type));
}

#[test]
fn test_flatten_single_operand() {
    let ident_type = Type::Ident {
        to: PathOrIdent::Ident(Spanned::call_site(IdentToken::new("Foo".to_string()))),
    };
    let result = flatten_union_or(&ident_type);
    assert_eq!(result.len(), 1);
}

#[test]
fn union_or_found_under_parentheses_and_arrays() {
    let t = paren(union_or(ident("A"), ident("B")));
    assert!(contains_union_or(&t));
    let arr = Type::Array {
        ty: Box::new(Spanned::call_site(kintsu_parser::ast::Array::Unsized {
            ty: Box::new(Spanned::call_site(union_or(ident("A"), ident("B")))),
        })),
    };
    assert!(contains_union_or(&arr));
    assert!(!contains_union_or(&anon(vec![("a", union_or(ident("A"), ident("B")))])));
}

#[test]
fn flatten_keeps_left_to_right_order() {
    // (A &| B) &| (C)
    let t = union_or(paren(union_or(ident("A"), ident("B"))), paren(ident("C")));
    let ops = flatten_union_or(&t);
    let names: Vec<String> = ops.iter().map(|o| name_of(&o.value)).collect();
    assert_eq!(names, vec!["A".to_string(), "B".to_string(), "C".to_string()]);
}

#[test]
fn operand_names() {
    assert_eq!(name_of(&ident("User")), "User");
    assert_eq!(name_of(&paren(ident("User"))), "User");
    assert_eq!(name_of(&anon(vec![])), "<anonymous>");
    assert_eq!(name_of(&builtin(Builtin::I32)), "<type>");
}

#[test]
fn equivalence_ignores_spans() {
    let a = ident("A");
    let b = Type::Ident { to: PathOrIdent::Ident(Spanned::new(3, 4, IdentToken::new("A".to_string()))) };
    assert!(types_are_equivalent(&a, &b));
    assert!(!types_are_equivalent(&a, &ident("B")));
    assert!(!types_are_equivalent(&builtin(Builtin::I32), &builtin(Builtin::Str)));
    assert!(types_are_equivalent(&anon(vec![("x", builtin(Builtin::Bool))]), &anon(vec![("x", builtin(Builtin::Bool))])));
}

#[test]
fn oneof_of_conflicting_types_drops_duplicates() {
    let types = vec![builtin(Builtin::I32), builtin(Builtin::Str), builtin(Builtin::I32)];
    match build_oneof_type(&types) {
        Type::OneOf { ty } => {
            let AnonymousOneOf { variants } = ty.value;
            assert_eq!(variants.len(), 2);
            assert!(types_are_equivalent(&variants[0].value, &builtin(Builtin::I32)));
            assert!(types_are_equivalent(&variants[1].value, &builtin(Builtin::Str)));
        },
        _ => panic!("expected a oneof"),
    }
}

#[test]
fn oneof_of_one_distinct_type_is_that_type() {
    let types = vec![builtin(Builtin::I32), builtin(Builtin::I32)];
    let t = build_oneof_type(&types);
    assert!(types_are_equivalent(&t, &builtin(Builtin::I32)));
}
