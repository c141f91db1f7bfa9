//! Type expressions (`Pick[T, a | b]`, `T::field`, ...): finding them in a
//! type and naming them in diagnostics.
use vstd::prelude::*;
use crate::toks::strings_view;
use crate::ast::{Array, SelectorList, Type, TypeExpr, TypeExprOp, TypeExprV, TypeV, names_view, reference_text};
use crate::text::{append_chars, append_string};

verus! {

/// The names of a selector list.
pub fn selector_list_to_strings(list: &SelectorList) -> (r: Vec<String>)
    ensures
        strings_view(r@) == names_view(list.fields@),
{
    let mut out: Vec<String> = Vec::new();
    let mut k: usize = 0;
    while k < list.fields.len()
        invariant
            k <= list.fields@.len(),
            strings_view(out@) == names_view(list.fields@.subrange(0, k as int)),
        decreases list.fields@.len() - k,
    {
        let ghost o0 = out@;
        out.push(list.fields[k].value.0.clone());
        assert(strings_view(out@) =~= strings_view(o0).push(list.fields@[k as int].value.0@));
        assert(names_view(list.fields@.subrange(0, k + 1)) =~= names_view(list.fields@.subrange(0, k as int)).push(list.fields@[k as int].value.0@));
        k += 1;
    }
    assert(list.fields@.subrange(0, list.fields@.len() as int) =~= list.fields@);
    out
}

/// The names of a variant list.
pub fn variant_list_to_strings(list: &crate::ast::VariantList) -> (r: Vec<String>)
    ensures
        strings_view(r@) == names_view(list.variants@),
{
    let mut out: Vec<String> = Vec::new();
    let mut k: usize = 0;
    while k < list.variants.len()
        invariant
            k <= list.variants@.len(),
            strings_view(out@) == names_view(list.variants@.subrange(0, k as int)),
        decreases list.variants@.len() - k,
    {
        let ghost o0 = out@;
        out.push(list.variants[k].value.0.clone());
        assert(strings_view(out@) =~= strings_view(o0).push(list.variants@[k as int].value.0@));
        assert(names_view(list.variants@.subrange(0, k + 1)) =~= names_view(list.variants@.subrange(0, k as int)).push(list.variants@[k as int].value.0@));
        k += 1;
    }
    assert(list.variants@.subrange(0, list.variants@.len() as int) =~= list.variants@);
    out
}

/// The type holds a type expression where one can stand: directly, or under
/// parentheses, an array, a result or either side of `&|`.
pub open spec fn has_type_expr(t: TypeV) -> bool
    decreases t,
{
    match t {
        TypeV::TypeExpr(_) => true,
        TypeV::Paren(inner) => has_type_expr(*inner),
        TypeV::Array(inner, _) => has_type_expr(*inner),
        TypeV::Result(inner) => has_type_expr(*inner),
        TypeV::UnionOr(l, r) => has_type_expr(*l) || has_type_expr(*r),
        _ => false,
    }
}

pub fn contains_type_expr(typ: &Type) -> (r: bool)
    ensures
        r == has_type_expr(typ@),
    decreases typ,
{
    match typ {
        Type::TypeExpr { .. } => true,
        Type::Paren { ty } => {
            proof {
                assert(decreases_to!(*typ => (*typ)->Paren_ty));
                assert(decreases_to!((*typ)->Paren_ty => (*typ)->Paren_ty.value));
            }
            contains_type_expr(&ty.value)
        },
        Type::Array { ty } => {
            proof {
                assert(decreases_to!(*typ => (*typ)->Array_ty));
                assert(decreases_to!((*typ)->Array_ty => (*typ)->Array_ty.value));
            }
            match &ty.value {
                Array::Unsized { ty: inner } => {
                    proof {
                        assert(decreases_to!((*typ)->Array_ty.value => (*typ)->Array_ty.value->Unsized_ty));
                        assert(decreases_to!((*typ)->Array_ty.value->Unsized_ty => (*typ)->Array_ty.value->Unsized_ty.value));
                    }
                    contains_type_expr(&inner.value)
                },
                Array::Sized { ty: inner, .. } => {
                    proof {
                        assert(decreases_to!((*typ)->Array_ty.value => (*typ)->Array_ty.value->Sized_ty));
                        assert(decreases_to!((*typ)->Array_ty.value->Sized_ty => (*typ)->Array_ty.value->Sized_ty.value));
                    }
                    contains_type_expr(&inner.value)
                },
            }
        },
        Type::Result { ty } => {
            proof {
                assert(decreases_to!(*typ => (*typ)->Result_ty));
                assert(decreases_to!((*typ)->Result_ty => (*typ)->Result_ty.value));
            }
            contains_type_expr(&ty.value)
        },
        Type::Union { .. } => false,
        Type::UnionOr { lhs, rhs } => {
            proof {
                assert(decreases_to!(*typ => (*typ)->lhs));
                assert(decreases_to!((*typ)->lhs => (*typ)->lhs.value));
                assert(decreases_to!(*typ => (*typ)->rhs));
                assert(decreases_to!((*typ)->rhs => (*typ)->rhs.value));
            }
            contains_type_expr(&lhs.value) || contains_type_expr(&rhs.value)
        },
        _ => false,
    }
}

/// How a type expression is named in diagnostics: a reference by its text,
/// a field access as `base::field`, an operator as `Op[...]`.
pub open spec fn expr_name(e: TypeExprV) -> Seq<char>
    decreases e,
{
    match e {
        TypeExprV::TypeRef(p) => reference_text(p),
        TypeExprV::FieldAccess(b, f) => expr_name(*b) + "::"@ + f,
        TypeExprV::Pick(_, _) => "Pick[...]"@,
        TypeExprV::Omit(_, _) => "Omit[...]"@,
        TypeExprV::Partial(_, _) => "Partial[...]"@,
        TypeExprV::Required(_, _) => "Required[...]"@,
        TypeExprV::Exclude(_, _) => "Exclude[...]"@,
        TypeExprV::Extract(_, _) => "Extract[...]"@,
        TypeExprV::ArrayItem(_) => "ArrayItem[...]"@,
    }
}

pub fn type_expr_name(expr: &TypeExpr) -> (r: String)
    ensures
        r@ == expr_name(expr@),
    decreases expr,
{
    match expr {
        TypeExpr::TypeRef { reference } => reference.display(),
        TypeExpr::FieldAccess { base, field } => {
            proof {
                assert(decreases_to!(*expr => (*expr)->base));
                assert(decreases_to!((*expr)->base => (*expr)->base.value));
            }
            let mut s = type_expr_name(&base.value);
            let ghost b = s@;
            append_chars(&mut s, &[':', ':']);
            append_string(&mut s, &field.value.0);
            proof { reveal_strlit("::"); }
            assert(s@ =~= b + "::"@ + field.value.0@);
            s
        },
        TypeExpr::Op(op) => {
            let kw: &str = match &op.value {
                TypeExprOp::Pick { .. } => "Pick[...]",
                TypeExprOp::Omit { .. } => "Omit[...]",
                TypeExprOp::Partial { .. } => "Partial[...]",
                TypeExprOp::Required { .. } => "Required[...]",
                TypeExprOp::Exclude { .. } => "Exclude[...]",
                TypeExprOp::Extract { .. } => "Extract[...]",
                TypeExprOp::ArrayItem { .. } => "ArrayItem[...]",
            };
            String::from_str(kw)
        },
    }
}

} // verus!
