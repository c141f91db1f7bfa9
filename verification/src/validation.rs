//! The last check of a namespace before it is compiled: every type it
//! refers to is registered, and no struct declares a field twice.
use vstd::prelude::*;
use crate::defs::{RawSpan, Span, Spanned};
use crate::ast::{
    Arg, Array, IdentOrUnion, PathOrIdent, Struct, StructDef, Type, TypeExpr, TypeExprOp, UnionDiscriminant,
    Variant, reference_text,
};
use crate::common::{NamespaceChild, NamespaceCtx};
use crate::paths::{NamedItemContextV, RefContextV};
use crate::extract::{ImportV, candidates, imports_view};
use crate::type_registry::{TypeRegistry, first_known};
use crate::text::str_eq;

verus! {

/// What is wrong with a namespace, as values.
pub enum Issue {
    /// A reference no registered type answers: its text and where it stands.
    Undefined(Seq<char>, Span),
    /// A field declared twice: its name, the struct, where it is declared
    /// again and where first.
    Duplicate(Seq<char>, Seq<char>, RawSpan, RawSpan),
}

/// Why a namespace is refused.
#[derive(Debug)]
pub enum ValidationError {
    UndefinedType { name: String, span: Span },
    DuplicateField { field: String, owner: String, span: RawSpan, first: RawSpan },
}

impl View for ValidationError {
    type V = Issue;

    open spec fn view(&self) -> Issue {
        match self {
            ValidationError::UndefinedType { name, span } => Issue::Undefined(name@, *span),
            ValidationError::DuplicateField { field, owner, span, first } => Issue::Duplicate(field@, owner@, *span, *first),
        }
    }
}

/// The issue a check reports, if any.
pub open spec fn result_issue(r: Result<(), ValidationError>) -> Option<Issue> {
    match r {
        Ok(_) => None,
        Err(e) => Some(e@),
    }
}

/// The first of two issues.
pub open spec fn first_of(a: Option<Issue>, b: Option<Issue>) -> Option<Issue> {
    if a is Some { a } else { b }
}

/// Where a reference stands.
pub open spec fn reference_span(p: PathOrIdent) -> Span {
    match p {
        PathOrIdent::Ident(i) => i.span,
        PathOrIdent::Path(q) => q.span,
    }
}

/// The registry answers the reference, written in `ctx` under `imports`.
pub open spec fn refers(keys: Seq<NamedItemContextV>, p: PathOrIdent, ctx: RefContextV, imports: Seq<ImportV>) -> bool {
    first_known(candidates(p@, ctx, imports), keys) is Some
}

pub open spec fn check_ref(p: PathOrIdent, keys: Seq<NamedItemContextV>, ctx: RefContextV, imports: Seq<ImportV>) -> Option<Issue> {
    if refers(keys, p, ctx, imports) {
        None
    } else {
        Some(Issue::Undefined(reference_text(p@), reference_span(p)))
    }
}

/// The first reference of a type, in the order written, that the registry
/// does not answer. Nested unions are looked into one level deep, for their
/// references only.
pub open spec fn undefined_in_type(t: Type, keys: Seq<NamedItemContextV>, ctx: RefContextV, imports: Seq<ImportV>) -> Option<Issue>
    decreases t,
{
    match t {
        Type::Ident { to } => check_ref(to, keys, ctx, imports),
        Type::Array { ty } => match ty.value {
            Array::Unsized { ty } => undefined_in_type(ty.value, keys, ctx, imports),
            Array::Sized { ty, .. } => undefined_in_type(ty.value, keys, ctx, imports),
        },
        Type::Union { ty } => undefined_in_members(ty.value.types@, keys, ctx, imports),
        Type::Paren { ty } => undefined_in_type(ty.value, keys, ctx, imports),
        Type::Result { ty } => undefined_in_type(ty.value, keys, ctx, imports),
        Type::Struct { ty } => undefined_in_fields(ty.value.fields@, keys, ctx, imports),
        Type::OneOf { ty } => undefined_in_types(ty.value.variants@, keys, ctx, imports),
        Type::UnionOr { lhs, rhs } => first_of(
            undefined_in_type(lhs.value, keys, ctx, imports),
            undefined_in_type(rhs.value, keys, ctx, imports),
        ),
        Type::TypeExpr { expr } => undefined_in_expr(expr.value, keys, ctx, imports),
        Type::Builtin { .. } => None,
    }
}

pub open spec fn undefined_in_fields(s: Seq<Spanned<Arg>>, keys: Seq<NamedItemContextV>, ctx: RefContextV, imports: Seq<ImportV>) -> Option<Issue>
    decreases s,
{
    if s.len() == 0 {
        None
    } else {
        first_of(undefined_in_fields(s.drop_last(), keys, ctx, imports), undefined_in_type(s.last().value.typ, keys, ctx, imports))
    }
}

pub open spec fn undefined_in_types(s: Seq<Spanned<Type>>, keys: Seq<NamedItemContextV>, ctx: RefContextV, imports: Seq<ImportV>) -> Option<Issue>
    decreases s,
{
    if s.len() == 0 {
        None
    } else {
        first_of(undefined_in_types(s.drop_last(), keys, ctx, imports), undefined_in_type(s.last().value, keys, ctx, imports))
    }
}

pub open spec fn undefined_in_members(s: Seq<Spanned<IdentOrUnion>>, keys: Seq<NamedItemContextV>, ctx: RefContextV, imports: Seq<ImportV>) -> Option<Issue>
    decreases s,
{
    if s.len() == 0 {
        None
    } else {
        first_of(
            undefined_in_members(s.drop_last(), keys, ctx, imports),
            match s.last().value {
                IdentOrUnion::Ident(UnionDiscriminant::Ref(p)) => check_ref(p, keys, ctx, imports),
                IdentOrUnion::Ident(UnionDiscriminant::Anonymous(a)) => undefined_in_fields(a.value.fields@, keys, ctx, imports),
                IdentOrUnion::Union { inner } => undefined_in_nested(inner.value.types@, keys, ctx, imports),
            },
        )
    }
}

/// The references directly inside a nested union.
pub open spec fn undefined_in_nested(s: Seq<Spanned<IdentOrUnion>>, keys: Seq<NamedItemContextV>, ctx: RefContextV, imports: Seq<ImportV>) -> Option<Issue>
    decreases s.len(),
{
    if s.len() == 0 {
        None
    } else {
        first_of(
            undefined_in_nested(s.drop_last(), keys, ctx, imports),
            match s.last().value {
                IdentOrUnion::Ident(UnionDiscriminant::Ref(p)) => check_ref(p, keys, ctx, imports),
                _ => None,
            },
        )
    }
}

pub open spec fn undefined_in_expr(e: TypeExpr, keys: Seq<NamedItemContextV>, ctx: RefContextV, imports: Seq<ImportV>) -> Option<Issue>
    decreases e,
{
    match e {
        TypeExpr::TypeRef { reference } => check_ref(reference, keys, ctx, imports),
        TypeExpr::FieldAccess { base, .. } => undefined_in_expr(base.value, keys, ctx, imports),
        TypeExpr::Op(op) => match op.value {
            TypeExprOp::Pick { target, .. } => undefined_in_expr(target, keys, ctx, imports),
            TypeExprOp::Omit { target, .. } => undefined_in_expr(target, keys, ctx, imports),
            TypeExprOp::Partial { target, .. } => undefined_in_expr(target, keys, ctx, imports),
            TypeExprOp::Required { target, .. } => undefined_in_expr(target, keys, ctx, imports),
            TypeExprOp::Exclude { target, .. } => undefined_in_expr(target, keys, ctx, imports),
            TypeExprOp::Extract { target, .. } => undefined_in_expr(target, keys, ctx, imports),
            TypeExprOp::ArrayItem { target } => undefined_in_expr(target, keys, ctx, imports),
        },
    }
}

fn span_of_reference(p: &PathOrIdent) -> (r: Span)
    ensures
        r == reference_span(*p),
{
    match p {
        PathOrIdent::Ident(i) => i.span,
        PathOrIdent::Path(q) => q.span,
    }
}

fn check_reference(p: &PathOrIdent, ns: &NamespaceCtx, registry: &TypeRegistry) -> (r: Result<(), ValidationError>)
    ensures
        result_issue(r) == check_ref(*p, registry.keys(), ns.ctx@, imports_view(ns.imports@)),
{
    if !registry.is_valid(&ns.ctx, p, ns) {
        Err(ValidationError::UndefinedType { name: p.display(), span: span_of_reference(p) })
    } else {
        Ok(())
    }
}

/// Checks the references of a type, in the order they are written.
pub fn validate_type_reference(ty: &Type, ns: &NamespaceCtx, registry: &TypeRegistry) -> (r: Result<(), ValidationError>)
    ensures
        result_issue(r) == undefined_in_type(*ty, registry.keys(), ns.ctx@, imports_view(ns.imports@)),
    decreases ty,
{
    match ty {
        Type::Ident { to } => check_reference(to, ns, registry),
        Type::Array { ty: arr } => {
            proof {
                assert(decreases_to!(*ty => (*ty)->Array_ty));
                assert(decreases_to!((*ty)->Array_ty => (*ty)->Array_ty.value));
            }
            match &arr.value {
                Array::Sized { ty: inner, .. } => {
                    proof {
                        assert(decreases_to!((*ty)->Array_ty.value => (*ty)->Array_ty.value->Sized_ty));
                        assert(decreases_to!((*ty)->Array_ty.value->Sized_ty => (*ty)->Array_ty.value->Sized_ty.value));
                    }
                    validate_type_reference(&inner.value, ns, registry)
                },
                Array::Unsized { ty: inner } => {
                    proof {
                        assert(decreases_to!((*ty)->Array_ty.value => (*ty)->Array_ty.value->Unsized_ty));
                        assert(decreases_to!((*ty)->Array_ty.value->Unsized_ty => (*ty)->Array_ty.value->Unsized_ty.value));
                    }
                    validate_type_reference(&inner.value, ns, registry)
                },
            }
        },
        Type::Union { ty: un } => {
            proof {
                assert(decreases_to!(*ty => (*ty)->Union_ty));
                assert(decreases_to!((*ty)->Union_ty => (*ty)->Union_ty.value));
                assert(decreases_to!((*ty)->Union_ty.value => (*ty)->Union_ty.value.types));
            }
            validate_members(&un.value.types, ns, registry)
        },
        Type::Paren { ty: inner } => {
            proof {
                assert(decreases_to!(*ty => (*ty)->Paren_ty));
                assert(decreases_to!((*ty)->Paren_ty => (*ty)->Paren_ty.value));
            }
            validate_type_reference(&inner.value, ns, registry)
        },
        Type::Result { ty: inner } => {
            proof {
                assert(decreases_to!(*ty => (*ty)->Result_ty));
                assert(decreases_to!((*ty)->Result_ty => (*ty)->Result_ty.value));
            }
            validate_type_reference(&inner.value, ns, registry)
        },
        Type::Struct { ty: st } => {
            proof {
                assert(decreases_to!(*ty => (*ty)->Struct_ty));
                assert(decreases_to!((*ty)->Struct_ty => (*ty)->Struct_ty.value));
                assert(decreases_to!((*ty)->Struct_ty.value => (*ty)->Struct_ty.value.fields));
            }
            validate_fields(&st.value.fields, ns, registry)
        },
        Type::OneOf { ty: one } => {
            proof {
                assert(decreases_to!(*ty => (*ty)->OneOf_ty));
                assert(decreases_to!((*ty)->OneOf_ty => (*ty)->OneOf_ty.value));
                assert(decreases_to!((*ty)->OneOf_ty.value => (*ty)->OneOf_ty.value.variants));
            }
            validate_types(&one.value.variants, ns, registry)
        },
        Type::UnionOr { lhs, rhs } => {
            proof {
                assert(decreases_to!(*ty => (*ty)->lhs));
                assert(decreases_to!((*ty)->lhs => (*ty)->lhs.value));
                assert(decreases_to!(*ty => (*ty)->rhs));
                assert(decreases_to!((*ty)->rhs => (*ty)->rhs.value));
            }
            validate_type_reference(&lhs.value, ns, registry)?;
            validate_type_reference(&rhs.value, ns, registry)
        },
        Type::TypeExpr { expr } => {
            validate_type_expr_references(&expr.value, ns, registry)
        },
        Type::Builtin { .. } => Ok(()),
    }
}

/// Checks the types of fields in order.
fn validate_fields(fields: &Vec<Spanned<Arg>>, ns: &NamespaceCtx, registry: &TypeRegistry) -> (r: Result<(), ValidationError>)
    ensures
        result_issue(r) == undefined_in_fields(fields@, registry.keys(), ns.ctx@, imports_view(ns.imports@)),
    decreases fields,
{
    let ghost keys = registry.keys();
    let ghost iv = imports_view(ns.imports@);
    let mut k: usize = 0;
    while k < fields.len()
        invariant
            k <= fields@.len(),
            keys == registry.keys(),
            iv == imports_view(ns.imports@),
            undefined_in_fields(fields@.subrange(0, k as int), keys, ns.ctx@, iv) is None,
        decreases fields@.len() - k,
    {
        proof {
            assert(decreases_to!(*fields => fields@));
            assert(decreases_to!(fields@ => fields@[k as int]));
            assert(decreases_to!(fields@[k as int] => fields@[k as int].value));
            assert(decreases_to!(fields@[k as int].value => fields@[k as int].value.typ));
            assert(fields@.subrange(0, k + 1).drop_last() =~= fields@.subrange(0, k as int));
        }
        let r = validate_type_reference(&fields[k].value.typ, ns, registry);
        if r.is_err() {
            proof { lemma_fields_prefix_issue(fields@, keys, ns.ctx@, iv, k as int + 1); }
            return r;
        }
        k += 1;
    }
    assert(fields@.subrange(0, fields@.len() as int) =~= fields@);
    Ok(())
}

/// Checks anonymous oneof variants in order.
fn validate_types(types: &Vec<Spanned<Type>>, ns: &NamespaceCtx, registry: &TypeRegistry) -> (r: Result<(), ValidationError>)
    ensures
        result_issue(r) == undefined_in_types(types@, registry.keys(), ns.ctx@, imports_view(ns.imports@)),
    decreases types,
{
    let ghost keys = registry.keys();
    let ghost iv = imports_view(ns.imports@);
    let mut k: usize = 0;
    while k < types.len()
        invariant
            k <= types@.len(),
            keys == registry.keys(),
            iv == imports_view(ns.imports@),
            undefined_in_types(types@.subrange(0, k as int), keys, ns.ctx@, iv) is None,
        decreases types@.len() - k,
    {
        proof {
            assert(decreases_to!(*types => types@));
            assert(decreases_to!(types@ => types@[k as int]));
            assert(decreases_to!(types@[k as int] => types@[k as int].value));
            assert(types@.subrange(0, k + 1).drop_last() =~= types@.subrange(0, k as int));
        }
        let r = validate_type_reference(&types[k].value, ns, registry);
        if r.is_err() {
            proof { lemma_types_prefix_issue(types@, keys, ns.ctx@, iv, k as int + 1); }
            return r;
        }
        k += 1;
    }
    assert(types@.subrange(0, types@.len() as int) =~= types@);
    Ok(())
}

/// Checks the operands of a union in order.
fn validate_members(members: &Vec<Spanned<IdentOrUnion>>, ns: &NamespaceCtx, registry: &TypeRegistry) -> (r: Result<(), ValidationError>)
    ensures
        result_issue(r) == undefined_in_members(members@, registry.keys(), ns.ctx@, imports_view(ns.imports@)),
    decreases members,
{
    let ghost keys = registry.keys();
    let ghost iv = imports_view(ns.imports@);
    let mut k: usize = 0;
    while k < members.len()
        invariant
            k <= members@.len(),
            keys == registry.keys(),
            iv == imports_view(ns.imports@),
            undefined_in_members(members@.subrange(0, k as int), keys, ns.ctx@, iv) is None,
        decreases members@.len() - k,
    {
        proof {
            assert(decreases_to!(*members => members@));
            assert(decreases_to!(members@ => members@[k as int]));
            assert(decreases_to!(members@[k as int] => members@[k as int].value));
            assert(members@.subrange(0, k + 1).drop_last() =~= members@.subrange(0, k as int));
        }
        let r = match &members[k].value {
            IdentOrUnion::Ident(UnionDiscriminant::Ref(p)) => check_reference(p, ns, registry),
            IdentOrUnion::Ident(UnionDiscriminant::Anonymous(a)) => {
                proof {
                    assert(decreases_to!(members@[k as int].value => members@[k as int].value->Ident_0));
                    assert(decreases_to!(members@[k as int].value->Ident_0 => members@[k as int].value->Ident_0->Anonymous_0));
                    assert(decreases_to!(members@[k as int].value->Ident_0->Anonymous_0 => members@[k as int].value->Ident_0->Anonymous_0.value));
                    assert(decreases_to!(members@[k as int].value->Ident_0->Anonymous_0.value => members@[k as int].value->Ident_0->Anonymous_0.value.fields));
                }
                validate_fields(&a.value.fields, ns, registry)
            },
            IdentOrUnion::Union { inner } => validate_nested(&inner.value.types, ns, registry),
        };
        if r.is_err() {
            proof { lemma_members_prefix_issue(members@, keys, ns.ctx@, iv, k as int + 1); }
            return r;
        }
        k += 1;
    }
    assert(members@.subrange(0, members@.len() as int) =~= members@);
    Ok(())
}

/// Checks the references directly inside a nested union.
fn validate_nested(members: &Vec<Spanned<IdentOrUnion>>, ns: &NamespaceCtx, registry: &TypeRegistry) -> (r: Result<(), ValidationError>)
    ensures
        result_issue(r) == undefined_in_nested(members@, registry.keys(), ns.ctx@, imports_view(ns.imports@)),
{
    let ghost keys = registry.keys();
    let ghost iv = imports_view(ns.imports@);
    let mut k: usize = 0;
    while k < members.len()
        invariant
            k <= members@.len(),
            keys == registry.keys(),
            iv == imports_view(ns.imports@),
            undefined_in_nested(members@.subrange(0, k as int), keys, ns.ctx@, iv) is None,
        decreases members@.len() - k,
    {
        proof {
            assert(members@.subrange(0, k + 1).drop_last() =~= members@.subrange(0, k as int));
        }
        let r = match &members[k].value {
            IdentOrUnion::Ident(UnionDiscriminant::Ref(p)) => check_reference(p, ns, registry),
            _ => Ok(()),
        };
        if r.is_err() {
            proof { lemma_nested_prefix_issue(members@, keys, ns.ctx@, iv, k as int + 1); }
            return r;
        }
        k += 1;
    }
    assert(members@.subrange(0, members@.len() as int) =~= members@);
    Ok(())
}

/// Checks the references of a type expression.
fn validate_type_expr_references(expr: &TypeExpr, ns: &NamespaceCtx, registry: &TypeRegistry) -> (r: Result<(), ValidationError>)
    ensures
        result_issue(r) == undefined_in_expr(*expr, registry.keys(), ns.ctx@, imports_view(ns.imports@)),
    decreases expr,
{
    match expr {
        TypeExpr::TypeRef { reference } => check_reference(reference, ns, registry),
        TypeExpr::FieldAccess { base, .. } => {
            proof {
                assert(decreases_to!(*expr => (*expr)->base));
                assert(decreases_to!((*expr)->base => (*expr)->base.value));
            }
            validate_type_expr_references(&base.value, ns, registry)
        },
        TypeExpr::Op(op) => {
            proof {
                assert(decreases_to!(*expr => (*expr)->Op_0));
                assert(decreases_to!((*expr)->Op_0 => (*expr)->Op_0.value));
            }
            match &op.value {
                TypeExprOp::Pick { target, .. } => validate_type_expr_references(target, ns, registry),
                TypeExprOp::Omit { target, .. } => validate_type_expr_references(target, ns, registry),
                TypeExprOp::Partial { target, .. } => validate_type_expr_references(target, ns, registry),
                TypeExprOp::Required { target, .. } => validate_type_expr_references(target, ns, registry),
                TypeExprOp::Exclude { target, .. } => validate_type_expr_references(target, ns, registry),
                TypeExprOp::Extract { target, .. } => validate_type_expr_references(target, ns, registry),
                TypeExprOp::ArrayItem { target } => validate_type_expr_references(target, ns, registry),
            }
        },
    }
}

proof fn lemma_fields_prefix_issue(s: Seq<Spanned<Arg>>, keys: Seq<NamedItemContextV>, ctx: RefContextV, imports: Seq<ImportV>, n: int)
    requires
        0 < n <= s.len(),
        undefined_in_fields(s.subrange(0, n), keys, ctx, imports) is Some,
    ensures
        undefined_in_fields(s, keys, ctx, imports) == undefined_in_fields(s.subrange(0, n), keys, ctx, imports),
    decreases s.len() - n,
{
    if n == s.len() {
        assert(s.subrange(0, n) =~= s);
    } else {
        assert(s.subrange(0, n + 1).drop_last() =~= s.subrange(0, n));
        lemma_fields_prefix_issue(s, keys, ctx, imports, n + 1);
    }
}

proof fn lemma_types_prefix_issue(s: Seq<Spanned<Type>>, keys: Seq<NamedItemContextV>, ctx: RefContextV, imports: Seq<ImportV>, n: int)
    requires
        0 < n <= s.len(),
        undefined_in_types(s.subrange(0, n), keys, ctx, imports) is Some,
    ensures
        undefined_in_types(s, keys, ctx, imports) == undefined_in_types(s.subrange(0, n), keys, ctx, imports),
    decreases s.len() - n,
{
    if n == s.len() {
        assert(s.subrange(0, n) =~= s);
    } else {
        assert(s.subrange(0, n + 1).drop_last() =~= s.subrange(0, n));
        lemma_types_prefix_issue(s, keys, ctx, imports, n + 1);
    }
}

proof fn lemma_members_prefix_issue(s: Seq<Spanned<IdentOrUnion>>, keys: Seq<NamedItemContextV>, ctx: RefContextV, imports: Seq<ImportV>, n: int)
    requires
        0 < n <= s.len(),
        undefined_in_members(s.subrange(0, n), keys, ctx, imports) is Some,
    ensures
        undefined_in_members(s, keys, ctx, imports) == undefined_in_members(s.subrange(0, n), keys, ctx, imports),
    decreases s.len() - n,
{
    if n == s.len() {
        assert(s.subrange(0, n) =~= s);
    } else {
        assert(s.subrange(0, n + 1).drop_last() =~= s.subrange(0, n));
        lemma_members_prefix_issue(s, keys, ctx, imports, n + 1);
    }
}

proof fn lemma_nested_prefix_issue(s: Seq<Spanned<IdentOrUnion>>, keys: Seq<NamedItemContextV>, ctx: RefContextV, imports: Seq<ImportV>, n: int)
    requires
        0 < n <= s.len(),
        undefined_in_nested(s.subrange(0, n), keys, ctx, imports) is Some,
    ensures
        undefined_in_nested(s, keys, ctx, imports) == undefined_in_nested(s.subrange(0, n), keys, ctx, imports),
    decreases s.len() - n,
{
    if n == s.len() {
        assert(s.subrange(0, n) =~= s);
    } else {
        assert(s.subrange(0, n + 1).drop_last() =~= s.subrange(0, n));
        lemma_nested_prefix_issue(s, keys, ctx, imports, n + 1);
    }
}


/// The names of fields, in order.
pub open spec fn field_names(s: Seq<Spanned<Arg>>) -> Seq<Seq<char>> {
    s.map_values(|a: Spanned<Arg>| a.value.name.value.0@)
}

/// `j` is the first place of the name at `k`, and comes before it.
pub open spec fn first_place(names: Seq<Seq<char>>, k: int, j: int) -> bool {
    &&& 0 <= j < k
    &&& names[j] == names[k]
    &&& forall|i: int| 0 <= i < j ==> names[i] != names[k]
}

/// The name at `k` occurs before it.
pub open spec fn repeats(names: Seq<Seq<char>>, k: int) -> bool {
    exists|j: int| 0 <= j < k && names[j] == names[k]
}

/// The first of the first `n` names that repeats an earlier one.
pub open spec fn first_repeat(names: Seq<Seq<char>>, n: int) -> Option<int>
    decreases n,
{
    if n <= 0 {
        None
    } else {
        match first_repeat(names, n - 1) {
            Some(k) => Some(k),
            None => if repeats(names, n - 1) { Some(n - 1) } else { None },
        }
    }
}

/// The first field of a struct declared again: its name, the struct's,
/// where it is declared again and where first.
pub open spec fn duplicate_issue(st: Struct) -> Option<Issue> {
    let names = field_names(st.args@);
    match first_repeat(names, names.len() as int) {
        None => None,
        Some(k) => {
            let j = choose|j: int| first_place(names, k, j);
            Some(Issue::Duplicate(names[k], st.name.value.0@, st.args@[k].value.name.span.spec_raw(), st.args@[j].value.name.span.spec_raw()))
        },
    }
}

proof fn lemma_first_repeat_extend(names: Seq<Seq<char>>, n: int, m: int)
    requires
        0 <= n <= m,
        first_repeat(names, n) is Some,
    ensures
        first_repeat(names, m) == first_repeat(names, n),
    decreases m - n,
{
    if m > n {
        lemma_first_repeat_extend(names, n, m - 1);
    }
}

/// Checks that no field of the struct is declared twice.
pub fn validate_struct_duplicate_fields(struct_item: &StructDef) -> (r: Result<(), ValidationError>)
    ensures
        result_issue(r) == duplicate_issue(struct_item.def.value),
{
    let st = &struct_item.def.value;
    let args = &st.args;
    let ghost names = field_names(args@);
    let mut k: usize = 0;
    while k < args.len()
        invariant
            k <= args@.len(),
            st == &struct_item.def.value,
            args == &st.args,
            names == field_names(args@),
            names.len() == args@.len(),
            first_repeat(names, k as int) is None,
        decreases args@.len() - k,
    {
        let mut j: usize = 0;
        while j < k
            invariant
                j <= k < args@.len(),
                st == &struct_item.def.value,
                args == &st.args,
                names == field_names(args@),
                names.len() == args@.len(),
                first_repeat(names, k as int) is None,
                forall|i: int| 0 <= i < j ==> names[i] != names[k as int],
            decreases k - j,
        {
            if str_eq(&args[j].value.name.value.0, &args[k].value.name.value.0) {
                proof {
                    assert(names[j as int] == names[k as int]);
                    assert(repeats(names, k as int));
                    assert(first_repeat(names, k + 1) == Some(k as int));
                    lemma_first_repeat_extend(names, k + 1, names.len() as int);
                    assert(first_place(names, k as int, j as int));
                    let jj = choose|jj: int| first_place(names, k as int, jj);
                    if jj < j {
                        assert(names[jj] != names[k as int]);
                    } else if jj > j {
                        assert(names[j as int] != names[k as int]);
                    }
                    assert(jj == j as int);
                    assert(names[k as int] == args@[k as int].value.name.value.0@);
                }
                let e = ValidationError::DuplicateField {
                    field: args[k].value.name.value.0.clone(),
                    owner: st.name.value.0.clone(),
                    span: args[k].value.name.span(),
                    first: args[j].value.name.span(),
                };
                proof {
                    let names2 = field_names(st.args@);
                    assert(names2 == names);
                    assert(first_repeat(names2, names2.len() as int) == Some(k as int));
                    let jj = choose|jj: int| first_place(names2, k as int, jj);
                    assert(jj == j as int);
                    assert(e@ == Issue::Duplicate(names[k as int], st.name.value.0@, st.args@[k as int].value.name.span.spec_raw(), st.args@[j as int].value.name.span.spec_raw()));
                }
                return Err(e);
            }
            j += 1;
        }
        proof {
            assert(!repeats(names, k as int));
        }
        k += 1;
    }
    Ok(())
}

/// The first undefined reference among the variants of a named oneof or
/// error.
pub open spec fn undefined_in_variants(s: Seq<Spanned<Variant>>, keys: Seq<NamedItemContextV>, ctx: RefContextV, imports: Seq<ImportV>) -> Option<Issue>
    decreases s.len(),
{
    if s.len() == 0 {
        None
    } else {
        first_of(
            undefined_in_variants(s.drop_last(), keys, ctx, imports),
            match s.last().value {
                Variant::Tuple { inner, .. } => undefined_in_type(inner, keys, ctx, imports),
                Variant::LocalStruct { inner, .. } => undefined_in_fields(inner.value.fields@, keys, ctx, imports),
                Variant::Unit { .. } => None,
            },
        )
    }
}

/// The first issue of an item: a struct's repeated field, then its field
/// types; an operation's parameters, then its return type; the variants of
/// a oneof or error. Other items have none.
pub open spec fn child_issue(c: NamespaceChild, keys: Seq<NamedItemContextV>, ctx: RefContextV, imports: Seq<ImportV>) -> Option<Issue> {
    match c {
        NamespaceChild::Struct(d) => first_of(duplicate_issue(d.def.value), undefined_in_fields(d.def.value.args@, keys, ctx, imports)),
        NamespaceChild::Operation(d) => first_of(
            match d.def.value.args {
                Some(a) => undefined_in_fields(a.value@, keys, ctx, imports),
                None => None,
            },
            undefined_in_type(d.def.value.return_type.value, keys, ctx, imports),
        ),
        NamespaceChild::OneOf(d) => undefined_in_variants(d.def.value.variants@, keys, ctx, imports),
        NamespaceChild::Error(d) => undefined_in_variants(d.def.value.variants@, keys, ctx, imports),
        _ => None,
    }
}

/// The first issue among the items of a namespace, in order.
pub open spec fn children_issue(s: crate::extract::Children, keys: Seq<NamedItemContextV>, ctx: RefContextV, imports: Seq<ImportV>) -> Option<Issue>
    decreases s.len(),
{
    if s.len() == 0 {
        None
    } else {
        first_of(children_issue(s.drop_last(), keys, ctx, imports), child_issue(s.last().1.value, keys, ctx, imports))
    }
}

fn validate_variants(variants: &Vec<Spanned<Variant>>, ns: &NamespaceCtx, registry: &TypeRegistry) -> (r: Result<(), ValidationError>)
    ensures
        result_issue(r) == undefined_in_variants(variants@, registry.keys(), ns.ctx@, imports_view(ns.imports@)),
{
    let ghost keys = registry.keys();
    let ghost iv = imports_view(ns.imports@);
    let mut k: usize = 0;
    while k < variants.len()
        invariant
            k <= variants@.len(),
            keys == registry.keys(),
            iv == imports_view(ns.imports@),
            undefined_in_variants(variants@.subrange(0, k as int), keys, ns.ctx@, iv) is None,
        decreases variants@.len() - k,
    {
        proof {
            assert(variants@.subrange(0, k + 1).drop_last() =~= variants@.subrange(0, k as int));
        }
        let r = match &variants[k].value {
            Variant::Tuple { inner, .. } => validate_type_reference(inner, ns, registry),
            Variant::LocalStruct { inner, .. } => validate_fields(&inner.value.fields, ns, registry),
            Variant::Unit { .. } => Ok(()),
        };
        if r.is_err() {
            proof { lemma_variants_prefix_issue(variants@, keys, ns.ctx@, iv, k as int + 1); }
            return r;
        }
        k += 1;
    }
    assert(variants@.subrange(0, variants@.len() as int) =~= variants@);
    Ok(())
}

proof fn lemma_variants_prefix_issue(s: Seq<Spanned<Variant>>, keys: Seq<NamedItemContextV>, ctx: RefContextV, imports: Seq<ImportV>, n: int)
    requires
        0 < n <= s.len(),
        undefined_in_variants(s.subrange(0, n), keys, ctx, imports) is Some,
    ensures
        undefined_in_variants(s, keys, ctx, imports) == undefined_in_variants(s.subrange(0, n), keys, ctx, imports),
    decreases s.len() - n,
{
    if n == s.len() {
        assert(s.subrange(0, n) =~= s);
    } else {
        assert(s.subrange(0, n + 1).drop_last() =~= s.subrange(0, n));
        lemma_variants_prefix_issue(s, keys, ctx, imports, n + 1);
    }
}

proof fn lemma_children_prefix_issue(s: crate::extract::Children, keys: Seq<NamedItemContextV>, ctx: RefContextV, imports: Seq<ImportV>, n: int)
    requires
        0 < n <= s.len(),
        children_issue(s.subrange(0, n), keys, ctx, imports) is Some,
    ensures
        children_issue(s, keys, ctx, imports) == children_issue(s.subrange(0, n), keys, ctx, imports),
    decreases s.len() - n,
{
    if n == s.len() {
        assert(s.subrange(0, n) =~= s);
    } else {
        assert(s.subrange(0, n + 1).drop_last() =~= s.subrange(0, n));
        lemma_children_prefix_issue(s, keys, ctx, imports, n + 1);
    }
}

fn validate_child(child: &NamespaceChild, ns: &NamespaceCtx, registry: &TypeRegistry) -> (r: Result<(), ValidationError>)
    ensures
        result_issue(r) == child_issue(*child, registry.keys(), ns.ctx@, imports_view(ns.imports@)),
{
    match child {
        NamespaceChild::Struct(d) => {
            validate_struct_duplicate_fields(d)?;
            validate_fields(&d.def.value.args, ns, registry)
        },
        NamespaceChild::Operation(d) => {
            match &d.def.value.args {
                Some(params) => {
                    validate_fields(&params.value, ns, registry)?;
                },
                None => {},
            }
            validate_type_reference(&d.def.value.return_type.value, ns, registry)
        },
        NamespaceChild::OneOf(d) => validate_variants(&d.def.value.variants, ns, registry),
        NamespaceChild::Error(d) => validate_variants(&d.def.value.variants, ns, registry),
        _ => Ok(()),
    }
}

/// Checks every item of the namespace in order and reports the first
/// issue: a field declared twice, or a reference no registered type
/// answers.
pub fn validate_all_references(ns: &NamespaceCtx, registry: &TypeRegistry) -> (r: Result<(), ValidationError>)
    ensures
        result_issue(r) == children_issue(ns.children@, registry.keys(), ns.ctx@, imports_view(ns.imports@)),
{
    let ghost keys = registry.keys();
    let ghost iv = imports_view(ns.imports@);
    let ghost ch = ns.children@;
    let mut k: usize = 0;
    while k < ns.children.len()
        invariant
            k <= ch.len(),
            ch == ns.children@,
            keys == registry.keys(),
            iv == imports_view(ns.imports@),
            children_issue(ch.subrange(0, k as int), keys, ns.ctx@, iv) is None,
        decreases ch.len() - k,
    {
        proof {
            assert(ch.subrange(0, k + 1).drop_last() =~= ch.subrange(0, k as int));
        }
        let r = validate_child(&ns.children[k].1.value, ns, registry);
        if r.is_err() {
            proof { lemma_children_prefix_issue(ch, keys, ns.ctx@, iv, k as int + 1); }
            return r;
        }
        k += 1;
    }
    assert(ch.subrange(0, ch.len() as int) =~= ch);
    Ok(())
}

/// The reference `p` is written in the type `t`: as the type itself, or
/// inside an array, parentheses, a result `T!`, either side of `&|`, a
/// field of an inline struct or a variant of an inline oneof.
pub open spec fn mentions(t: Type, p: PathOrIdent) -> bool
    decreases t,
{
    match t {
        Type::Ident { to } => to == p,
        Type::Array { ty } => match ty.value {
            Array::Unsized { ty } => mentions(ty.value, p),
            Array::Sized { ty, .. } => mentions(ty.value, p),
        },
        Type::Paren { ty } => mentions(ty.value, p),
        Type::Result { ty } => mentions(ty.value, p),
        Type::UnionOr { lhs, rhs } => mentions(lhs.value, p) || mentions(rhs.value, p),
        Type::Struct { ty } => mentioned_in_fields(ty.value.fields@, p),
        Type::OneOf { ty } => mentioned_in_types(ty.value.variants@, p),
        Type::Union { ty } => mentioned_in_members(ty.value.types@, p),
        Type::TypeExpr { expr } => expr_mentions(expr.value, p),
        Type::Builtin { .. } => false,
    }
}

/// The reference `p` is an operand of the union members `s`, is written in
/// the fields of an inline struct among them, or is an operand of a union
/// nested among them.
pub open spec fn mentioned_in_members(s: Seq<Spanned<IdentOrUnion>>, p: PathOrIdent) -> bool
    decreases s,
{
    if s.len() == 0 {
        false
    } else {
        mentioned_in_members(s.drop_last(), p) || match s.last().value {
            IdentOrUnion::Ident(UnionDiscriminant::Ref(q)) => q == p,
            IdentOrUnion::Ident(UnionDiscriminant::Anonymous(a)) => mentioned_in_fields(a.value.fields@, p),
            IdentOrUnion::Union { inner } => operand_of_nested(inner.value.types@, p),
        }
    }
}

/// The reference `p` is an operand of the nested union members `s`.
pub open spec fn operand_of_nested(s: Seq<Spanned<IdentOrUnion>>, p: PathOrIdent) -> bool
    decreases s.len(),
{
    if s.len() == 0 {
        false
    } else {
        operand_of_nested(s.drop_last(), p) || s.last().value == IdentOrUnion::Ident(UnionDiscriminant::Ref(p))
    }
}

/// The reference `p` is the type a type expression starts from.
pub open spec fn expr_mentions(e: TypeExpr, p: PathOrIdent) -> bool
    decreases e,
{
    match e {
        TypeExpr::TypeRef { reference } => reference == p,
        TypeExpr::FieldAccess { base, .. } => expr_mentions(base.value, p),
        TypeExpr::Op(op) => match op.value {
            TypeExprOp::Pick { target, .. } => expr_mentions(target, p),
            TypeExprOp::Omit { target, .. } => expr_mentions(target, p),
            TypeExprOp::Partial { target, .. } => expr_mentions(target, p),
            TypeExprOp::Required { target, .. } => expr_mentions(target, p),
            TypeExprOp::Exclude { target, .. } => expr_mentions(target, p),
            TypeExprOp::Extract { target, .. } => expr_mentions(target, p),
            TypeExprOp::ArrayItem { target } => expr_mentions(target, p),
        },
    }
}

pub open spec fn mentioned_in_fields(s: Seq<Spanned<Arg>>, p: PathOrIdent) -> bool
    decreases s,
{
    if s.len() == 0 {
        false
    } else {
        mentioned_in_fields(s.drop_last(), p) || mentions(s.last().value.typ, p)
    }
}

pub open spec fn mentioned_in_types(s: Seq<Spanned<Type>>, p: PathOrIdent) -> bool
    decreases s,
{
    if s.len() == 0 {
        false
    } else {
        mentioned_in_types(s.drop_last(), p) || mentions(s.last().value, p)
    }
}

/// A type that passes validation refers only to registered types: every
/// reference written in it, however deeply, is answered by the registry.
pub proof fn law_validated_type_refers(t: Type, p: PathOrIdent, keys: Seq<NamedItemContextV>, ctx: RefContextV, imports: Seq<ImportV>)
    requires
        undefined_in_type(t, keys, ctx, imports) is None,
        mentions(t, p),
    ensures
        refers(keys, p, ctx, imports),
    decreases t,
{
    match t {
        Type::Ident { to } => {},
        Type::Array { ty } => match ty.value {
            Array::Unsized { ty: inner } => law_validated_type_refers(inner.value, p, keys, ctx, imports),
            Array::Sized { ty: inner, .. } => law_validated_type_refers(inner.value, p, keys, ctx, imports),
        },
        Type::Paren { ty } => law_validated_type_refers(ty.value, p, keys, ctx, imports),
        Type::Result { ty } => law_validated_type_refers(ty.value, p, keys, ctx, imports),
        Type::UnionOr { lhs, rhs } => {
            if mentions(lhs.value, p) {
                law_validated_type_refers(lhs.value, p, keys, ctx, imports);
            } else {
                law_validated_type_refers(rhs.value, p, keys, ctx, imports);
            }
        },
        Type::Struct { ty } => lemma_validated_fields_refer(ty.value.fields@, p, keys, ctx, imports),
        Type::OneOf { ty } => lemma_validated_types_refer(ty.value.variants@, p, keys, ctx, imports),
        Type::Union { ty } => lemma_validated_members_refer(ty.value.types@, p, keys, ctx, imports),
        Type::TypeExpr { expr } => lemma_validated_expr_refers(expr.value, p, keys, ctx, imports),
        Type::Builtin { .. } => {},
    }
}

proof fn lemma_validated_members_refer(s: Seq<Spanned<IdentOrUnion>>, p: PathOrIdent, keys: Seq<NamedItemContextV>, ctx: RefContextV, imports: Seq<ImportV>)
    requires
        undefined_in_members(s, keys, ctx, imports) is None,
        mentioned_in_members(s, p),
    ensures
        refers(keys, p, ctx, imports),
    decreases s,
{
    if mentioned_in_members(s.drop_last(), p) {
        lemma_validated_members_refer(s.drop_last(), p, keys, ctx, imports);
    } else {
        match s.last().value {
            IdentOrUnion::Ident(UnionDiscriminant::Ref(q)) => {},
            IdentOrUnion::Ident(UnionDiscriminant::Anonymous(a)) => lemma_validated_fields_refer(a.value.fields@, p, keys, ctx, imports),
            IdentOrUnion::Union { inner } => lemma_validated_nested_refer(inner.value.types@, p, keys, ctx, imports),
        }
    }
}

proof fn lemma_validated_nested_refer(s: Seq<Spanned<IdentOrUnion>>, p: PathOrIdent, keys: Seq<NamedItemContextV>, ctx: RefContextV, imports: Seq<ImportV>)
    requires
        undefined_in_nested(s, keys, ctx, imports) is None,
        operand_of_nested(s, p),
    ensures
        refers(keys, p, ctx, imports),
    decreases s.len(),
{
    if operand_of_nested(s.drop_last(), p) {
        lemma_validated_nested_refer(s.drop_last(), p, keys, ctx, imports);
    }
}

proof fn lemma_validated_expr_refers(e: TypeExpr, p: PathOrIdent, keys: Seq<NamedItemContextV>, ctx: RefContextV, imports: Seq<ImportV>)
    requires
        undefined_in_expr(e, keys, ctx, imports) is None,
        expr_mentions(e, p),
    ensures
        refers(keys, p, ctx, imports),
    decreases e,
{
    match e {
        TypeExpr::TypeRef { reference } => {},
        TypeExpr::FieldAccess { base, .. } => lemma_validated_expr_refers(base.value, p, keys, ctx, imports),
        TypeExpr::Op(op) => match op.value {
            TypeExprOp::Pick { target, .. } => lemma_validated_expr_refers(target, p, keys, ctx, imports),
            TypeExprOp::Omit { target, .. } => lemma_validated_expr_refers(target, p, keys, ctx, imports),
            TypeExprOp::Partial { target, .. } => lemma_validated_expr_refers(target, p, keys, ctx, imports),
            TypeExprOp::Required { target, .. } => lemma_validated_expr_refers(target, p, keys, ctx, imports),
            TypeExprOp::Exclude { target, .. } => lemma_validated_expr_refers(target, p, keys, ctx, imports),
            TypeExprOp::Extract { target, .. } => lemma_validated_expr_refers(target, p, keys, ctx, imports),
            TypeExprOp::ArrayItem { target } => lemma_validated_expr_refers(target, p, keys, ctx, imports),
        },
    }
}

proof fn lemma_validated_fields_refer(s: Seq<Spanned<Arg>>, p: PathOrIdent, keys: Seq<NamedItemContextV>, ctx: RefContextV, imports: Seq<ImportV>)
    requires
        undefined_in_fields(s, keys, ctx, imports) is None,
        mentioned_in_fields(s, p),
    ensures
        refers(keys, p, ctx, imports),
    decreases s,
{
    if mentioned_in_fields(s.drop_last(), p) {
        lemma_validated_fields_refer(s.drop_last(), p, keys, ctx, imports);
    } else {
        law_validated_type_refers(s.last().value.typ, p, keys, ctx, imports);
    }
}

proof fn lemma_validated_types_refer(s: Seq<Spanned<Type>>, p: PathOrIdent, keys: Seq<NamedItemContextV>, ctx: RefContextV, imports: Seq<ImportV>)
    requires
        undefined_in_types(s, keys, ctx, imports) is None,
        mentioned_in_types(s, p),
    ensures
        refers(keys, p, ctx, imports),
    decreases s,
{
    if mentioned_in_types(s.drop_last(), p) {
        lemma_validated_types_refer(s.drop_last(), p, keys, ctx, imports);
    } else {
        law_validated_type_refers(s.last().value, p, keys, ctx, imports);
    }
}

/// A type and the same type wrapped in parentheses or in a result `T!`
/// pass or fail validation alike, with the same first issue.
pub proof fn law_wrapping_keeps_validation(inner: Box<Spanned<Type>>, keys: Seq<NamedItemContextV>, ctx: RefContextV, imports: Seq<ImportV>)
    ensures
        undefined_in_type(Type::Result { ty: inner }, keys, ctx, imports) == undefined_in_type(inner.value, keys, ctx, imports),
        undefined_in_type(Type::Paren { ty: inner }, keys, ctx, imports) == undefined_in_type(inner.value, keys, ctx, imports),
{
}

} // verus!
