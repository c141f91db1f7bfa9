//! `A &| B` compositions: finding them, taking them apart, and building a
//! oneof from the types that conflict in a merge.
use vstd::prelude::*;
use crate::defs::{Span, Spanned};
use crate::ast::{AnonymousOneOf, Type, TypeV, Array, reference_text, types_view};
use crate::ast_ops::{dup_type, same_type};
use crate::text::append_chars;

verus! {

/// The type holds a `&|` composition, directly or under parentheses or an
/// array.
pub open spec fn has_union_or(t: TypeV) -> bool
    decreases t,
{
    match t {
        TypeV::UnionOr(_, _) => true,
        TypeV::Paren(inner) => has_union_or(*inner),
        TypeV::Array(inner, _) => has_union_or(*inner),
        _ => false,
    }
}

/// The operands of a `&|` tree, left to right, with parentheses removed.
pub open spec fn union_or_operands(t: TypeV) -> Seq<TypeV>
    decreases t,
{
    match t {
        TypeV::UnionOr(l, r) => union_or_operands(*l) + union_or_operands(*r),
        TypeV::Paren(inner) => union_or_operands(*inner),
        _ => seq![t],
    }
}

/// How an operand is named in a diagnostic.
pub open spec fn operand_name(t: TypeV) -> Seq<char>
    decreases t,
{
    match t {
        TypeV::Ident(p) => reference_text(p),
        TypeV::Struct(_) => "<anonymous>"@,
        TypeV::Paren(inner) => operand_name(*inner),
        _ => "<type>"@,
    }
}

/// The views of a list of types.
pub open spec fn views_of(s: Seq<Type>) -> Seq<TypeV> {
    s.map_values(|t: Type| t@)
}

/// The distinct members of `s`, each at its first occurrence.
pub open spec fn distinct_types(s: Seq<TypeV>) -> Seq<TypeV>
    decreases s.len(),
{
    if s.len() == 0 {
        Seq::empty()
    } else {
        let d = distinct_types(s.drop_last());
        if d.contains(s.last()) {
            d
        } else {
            d.push(s.last())
        }
    }
}

pub proof fn lemma_distinct_types_contains(s: Seq<TypeV>, x: TypeV)
    ensures
        distinct_types(s).contains(x) <==> s.contains(x),
    decreases s.len(),
{
    if s.len() > 0 {
        lemma_distinct_types_contains(s.drop_last(), x);
        let d = distinct_types(s.drop_last());
        if s.contains(x) && !s.drop_last().contains(x) {
            let i = choose|i: int| 0 <= i < s.len() && s[i] == x;
            if i < s.len() - 1 {
                assert(s.drop_last()[i] == x);
            }
        }
        if s.drop_last().contains(x) {
            let i = choose|i: int| 0 <= i < s.drop_last().len() && s.drop_last()[i] == x;
            assert(s[i] == x);
        }
        if !d.contains(s.last()) {
            assert(d.push(s.last())[d.len() as int] == s.last());
            if d.contains(x) {
                let i = choose|i: int| 0 <= i < d.len() && d[i] == x;
                assert(d.push(s.last())[i] == x);
            }
            if d.push(s.last()).contains(x) && x != s.last() {
                let i = choose|i: int| 0 <= i < d.len() + 1 && d.push(s.last())[i] == x;
                assert(d[i] == x);
            }
        }
    }
}

/// The oneof that a set of conflicting field types becomes.
pub open spec fn oneof_of(types: Seq<TypeV>) -> TypeV {
    let u = distinct_types(types);
    if u.len() == 1 {
        u[0]
    } else {
        TypeV::OneOf(u)
    }
}

/// Whether a type contains a `&|` composition.
pub fn contains_union_or(typ: &Type) -> (r: bool)
    ensures
        r == has_union_or(typ@),
    decreases typ,
{
    match typ {
        Type::UnionOr { .. } => true,
        Type::Paren { ty } => {
            proof {
                assert(decreases_to!(*typ => (*typ)->Paren_ty));
                assert(decreases_to!((*typ)->Paren_ty => (*typ)->Paren_ty.value));
            }
            contains_union_or(&ty.value)
        },
        Type::Array { ty } => {
            proof {
                assert(decreases_to!(*typ => (*typ)->Array_ty));
                assert(decreases_to!((*typ)->Array_ty => (*typ)->Array_ty.value));
            }
            match &ty.value {
                Array::Unsized { ty: inner } => {
                    proof {
                        assert(decreases_to!((*typ)->Array_ty.value => (*typ)->Array_ty.value->Unsized_ty));
                        assert(decreases_to!((*typ)->Array_ty.value->Unsized_ty => (*typ)->Array_ty.value->Unsized_ty.value));
                    }
                    contains_union_or(&inner.value)
                },
                Array::Sized { ty: inner, .. } => {
                    proof {
                        assert(decreases_to!((*typ)->Array_ty.value => (*typ)->Array_ty.value->Sized_ty));
                        assert(decreases_to!((*typ)->Array_ty.value->Sized_ty => (*typ)->Array_ty.value->Sized_ty.value));
                    }
                    contains_union_or(&inner.value)
                },
            }
        },
        _ => false,
    }
}

/// The operands of a `&|` tree, left to right, each at the call site.
pub fn flatten_union_or(typ: &Type) -> (r: Vec<Spanned<Type>>)
    ensures
        types_view(r@) == union_or_operands(typ@),
        forall|i: int| 0 <= i < r@.len() ==> (#[trigger] r@[i]).span == Span::CallSite,
    decreases typ,
{
    match typ {
        Type::UnionOr { lhs, rhs } => {
            proof {
                assert(decreases_to!(*typ => (*typ)->lhs));
                assert(decreases_to!((*typ)->lhs => (*typ)->lhs.value));
                assert(decreases_to!(*typ => (*typ)->rhs));
                assert(decreases_to!((*typ)->rhs => (*typ)->rhs.value));
            }
            let mut result = flatten_union_or(&lhs.value);
            let mut right = flatten_union_or(&rhs.value);
            let ghost l = result@;
            let ghost rr = right@;
            result.append(&mut right);
            proof { lemma_types_view_concat(l, rr); }
            result
        },
        Type::Paren { ty } => {
            proof {
                assert(decreases_to!(*typ => (*typ)->Paren_ty));
                assert(decreases_to!((*typ)->Paren_ty => (*typ)->Paren_ty.value));
            }
            flatten_union_or(&ty.value)
        },
        _ => {
            let mut v: Vec<Spanned<Type>> = Vec::new();
            v.push(Spanned::call_site(dup_type(typ)));
            proof {
                assert(v@.drop_last() =~= Seq::<Spanned<Type>>::empty());
                assert(types_view(v@.drop_last()) =~= Seq::<TypeV>::empty());
                assert(types_view(v@) =~= seq![typ@]);
            }
            v
        },
    }
}

pub proof fn lemma_types_view_concat(a: Seq<Spanned<Type>>, b: Seq<Spanned<Type>>)
    ensures
        types_view(a + b) == types_view(a) + types_view(b),
    decreases b.len(),
{
    if b.len() == 0 {
        assert(a + b =~= a);
        assert(types_view(a) + types_view(b) =~= types_view(a));
    } else {
        lemma_types_view_concat(a, b.drop_last());
        assert((a + b).drop_last() =~= a + b.drop_last());
        assert((a + b).last() == b.last());
        assert(types_view(a) + types_view(b) =~= (types_view(a) + types_view(b.drop_last())).push(crate::ast::type_view(b.last().value)));
    }
}

/// How an operand of a `&|` composition is named in diagnostics.
pub fn operand_display_name(typ: &Type) -> (r: String)
    ensures
        r@ == operand_name(typ@),
    decreases typ,
{
    match typ {
        Type::Ident { to } => to.display(),
        Type::Struct { .. } => {
            let mut s = String::new();
            append_chars(&mut s, &['<', 'a', 'n', 'o', 'n', 'y', 'm', 'o', 'u', 's', '>']);
            proof { reveal_strlit("<anonymous>"); }
            assert(s@ =~= "<anonymous>"@);
            s
        },
        Type::Paren { ty } => {
            proof {
                assert(decreases_to!(*typ => (*typ)->Paren_ty));
                assert(decreases_to!((*typ)->Paren_ty => (*typ)->Paren_ty.value));
            }
            operand_display_name(&ty.value)
        },
        _ => {
            let mut s = String::new();
            append_chars(&mut s, &['<', 't', 'y', 'p', 'e', '>']);
            proof { reveal_strlit("<type>"); }
            assert(s@ =~= "<type>"@);
            s
        },
    }
}

/// Whether two types print the same: equal up to spans.
pub fn types_are_equivalent(a: &Type, b: &Type) -> (r: bool)
    ensures
        r == (a@ == b@),
{
    same_type(a, b)
}

/// The type of a field whose operands disagree: the distinct types in order
/// of first appearance, as one type when only one remains, else as a oneof.
pub fn build_oneof_type(types: &[Type]) -> (r: Type)
    ensures
        r@ == oneof_of(views_of(types@)),
{
    let mut unique: Vec<Spanned<Type>> = Vec::new();
    let mut k: usize = 0;
    while k < types.len()
        invariant
            k <= types@.len(),
            types_view(unique@) == distinct_types(views_of(types@.subrange(0, k as int))),
        decreases types@.len() - k,
    {
        let ghost pre = views_of(types@.subrange(0, k as int));
        let ghost post = views_of(types@.subrange(0, k + 1));
        assert(post.drop_last() =~= pre);
        assert(post.last() == types@[k as int]@);
        proof { crate::ast_ops::lemma_types_view(unique@); }
        let mut seen = false;
        let mut j: usize = 0;
        while j < unique.len()
            invariant
                j <= unique@.len(),
                types_view(unique@).len() == unique@.len(),
                forall|i: int| 0 <= i < unique@.len() ==> #[trigger] types_view(unique@)[i] == crate::ast::type_view(unique@[i].value),
                k < types@.len(),
                seen == exists|i: int| 0 <= i < j && types_view(unique@)[i] == types@[k as int]@,
            decreases unique@.len() - j,
        {
            let same = same_type(&unique[j].value, &types[k]);
            proof {
                assert(types_view(unique@)[j as int] == unique@[j as int].value@);
            }
            if same {
                seen = true;
            }
            j += 1;
        }
        if !seen {
            let ghost before = unique@;
            unique.push(Spanned::call_site(dup_type(&types[k])));
            assert(unique@.drop_last() =~= before);
        }
        k += 1;
    }
    assert(types@.subrange(0, types@.len() as int) =~= types@);
    proof { crate::ast_ops::lemma_types_view(unique@); }
    if unique.len() == 1 {
        let only = unique.pop().unwrap();
        return only.value;
    }
    Type::OneOf { ty: Spanned::call_site(AnonymousOneOf { variants: unique }) }
}

} // verus!
