//! Copying syntax trees and comparing them up to spans.
use vstd::prelude::*;
use crate::defs::Spanned;
use crate::toks::{IdentToken, Path};
use crate::paths::clone_strings;
use crate::text::str_eq;
use crate::paths::strings_eq;
use crate::ast::{Arg, AnonymousStruct, AnonymousOneOf, Array, CommentAst, CommentStream, IdentOrUnion, PathOrIdent, SelectorList, Type, TypeExpr, TypeExprOp, Union, UnionDiscriminant, VariantList, args_view, arg_view, operand_view, type_view, types_view, union_view, type_expr_view, names_view, selectors_view};

verus! {

pub proof fn lemma_args_view(s: Seq<Spanned<Arg>>)
    ensures
        args_view(s).len() == s.len(),
        forall|i: int| 0 <= i < s.len() ==> #[trigger] args_view(s)[i] == arg_view(s[i].value),
    decreases s.len(),
{
    if s.len() > 0 {
        lemma_args_view(s.drop_last());
    }
}

pub proof fn lemma_types_view(s: Seq<Spanned<Type>>)
    ensures
        types_view(s).len() == s.len(),
        forall|i: int| 0 <= i < s.len() ==> #[trigger] types_view(s)[i] == type_view(s[i].value),
    decreases s.len(),
{
    if s.len() > 0 {
        lemma_types_view(s.drop_last());
    }
}

pub proof fn lemma_union_view(s: Seq<Spanned<IdentOrUnion>>)
    ensures
        union_view(s).len() == s.len(),
        forall|i: int| 0 <= i < s.len() ==> #[trigger] union_view(s)[i] == operand_view(s[i].value),
    decreases s.len(),
{
    if s.len() > 0 {
        lemma_union_view(s.drop_last());
    }
}

pub fn dup_ident(i: &Spanned<IdentToken>) -> (r: Spanned<IdentToken>)
    ensures
        r.span == i.span,
        r.value.0 == i.value.0,
{
    Spanned { span: i.span, value: IdentToken(i.value.0.clone()) }
}

pub fn dup_idents(v: &Vec<Spanned<IdentToken>>) -> (r: Vec<Spanned<IdentToken>>)
    ensures
        names_view(r@) == names_view(v@),
{
    let mut out: Vec<Spanned<IdentToken>> = Vec::new();
    let mut k: usize = 0;
    while k < v.len()
        invariant
            k <= v@.len(),
            out@.len() == k,
            forall|j: int| 0 <= j < k ==> (#[trigger] out@[j]).value.0 == v@[j].value.0,
        decreases v@.len() - k,
    {
        out.push(dup_ident(&v[k]));
        k += 1;
    }
    assert(names_view(out@) =~= names_view(v@));
    out
}

/// The same reference, spans included.
pub open spec fn identical_path_or_ident(a: PathOrIdent, b: PathOrIdent) -> bool {
    match (a, b) {
        (PathOrIdent::Ident(x), PathOrIdent::Ident(y)) => x.span == y.span && x.value.0@ == y.value.0@,
        (PathOrIdent::Path(x), PathOrIdent::Path(y)) => x.span == y.span && x.value.bits_view() == y.value.bits_view(),
        _ => false,
    }
}

pub fn dup_path_or_ident(p: &PathOrIdent) -> (r: PathOrIdent)
    ensures
        r@ == p@,
        identical_path_or_ident(r, *p),
{
    match p {
        PathOrIdent::Ident(i) => PathOrIdent::Ident(dup_ident(i)),
        PathOrIdent::Path(path) => {
            let bits = clone_strings(path.value.segments());
            PathOrIdent::Path(Spanned { span: path.span, value: Path::Ambiguous { bits } })
        },
    }
}

/// The same comment, spans included.
pub open spec fn same_comment(a: Spanned<CommentAst>, b: Spanned<CommentAst>) -> bool {
    a.span == b.span && match (a.value, b.value) {
        (CommentAst::SingleLine(x), CommentAst::SingleLine(y)) => x@ == y@,
        (CommentAst::MultiLine(x), CommentAst::MultiLine(y)) => x@ == y@,
        _ => false,
    }
}

/// A copy of a comment stream.
pub fn dup_comments(c: &CommentStream) -> (r: CommentStream)
    ensures
        r.comments@.len() == c.comments@.len(),
        forall|i: int| 0 <= i < c.comments@.len() ==> #[trigger] same_comment(r.comments@[i], c.comments@[i]),
{
    let mut out: Vec<Spanned<CommentAst>> = Vec::new();
    let mut k: usize = 0;
    while k < c.comments.len()
        invariant
            k <= c.comments@.len(),
            out@.len() == k,
            forall|i: int| 0 <= i < k ==> #[trigger] same_comment(out@[i], c.comments@[i]),
        decreases c.comments@.len() - k,
    {
        let item = &c.comments[k];
        let value = match &item.value {
            CommentAst::SingleLine(s) => CommentAst::SingleLine(s.clone()),
            CommentAst::MultiLine(s) => CommentAst::MultiLine(s.clone()),
        };
        out.push(Spanned { span: item.span, value });
        k += 1;
    }
    CommentStream { comments: out }
}

pub fn dup_arg(a: &Arg) -> (r: Arg)
    ensures
        r@ == a@,
        r.name.span == a.name.span,
    decreases a,
{
    Arg { comments: dup_comments(&a.comments), name: dup_ident(&a.name), sep: a.sep, typ: dup_type(&a.typ) }
}

pub fn dup_args(v: &Vec<Spanned<Arg>>) -> (r: Vec<Spanned<Arg>>)
    ensures
        args_view(r@) == args_view(v@),
        r@.len() == v@.len(),
        forall|j: int| 0 <= j < v@.len() ==> (#[trigger] r@[j]).span == v@[j].span,
    decreases v,
{
    let mut out: Vec<Spanned<Arg>> = Vec::new();
    let mut k: usize = 0;
    while k < v.len()
        invariant
            k <= v@.len(),
            out@.len() == k,
            args_view(out@) == args_view(v@.subrange(0, k as int)),
            forall|j: int| 0 <= j < k ==> (#[trigger] out@[j]).span == v@[j].span,
        decreases v@.len() - k,
    {
        proof {
            assert(decreases_to!(*v => v@));
            assert(decreases_to!(v@ => v@[k as int]));
            assert(decreases_to!(v@[k as int] => v@[k as int].value));
        }
        let ghost before = out@;
        let a = dup_arg(&v[k].value);
        out.push(Spanned { span: v[k].span, value: a });
        proof {
            assert(out@.drop_last() =~= before);
            assert(v@.subrange(0, k + 1).drop_last() =~= v@.subrange(0, k as int));
        }
        k += 1;
    }
    assert(v@.subrange(0, v@.len() as int) =~= v@);
    out
}

pub fn dup_types(v: &Vec<Spanned<Type>>) -> (r: Vec<Spanned<Type>>)
    ensures
        types_view(r@) == types_view(v@),
        r@.len() == v@.len(),
    decreases v,
{
    let mut out: Vec<Spanned<Type>> = Vec::new();
    let mut k: usize = 0;
    while k < v.len()
        invariant
            k <= v@.len(),
            out@.len() == k,
            types_view(out@) == types_view(v@.subrange(0, k as int)),
        decreases v@.len() - k,
    {
        proof {
            assert(decreases_to!(*v => v@));
            assert(decreases_to!(v@ => v@[k as int]));
            assert(decreases_to!(v@[k as int] => v@[k as int].value));
        }
        let ghost before = out@;
        let t = dup_type(&v[k].value);
        out.push(Spanned { span: v[k].span, value: t });
        proof {
            assert(out@.drop_last() =~= before);
            assert(v@.subrange(0, k + 1).drop_last() =~= v@.subrange(0, k as int));
        }
        k += 1;
    }
    assert(v@.subrange(0, v@.len() as int) =~= v@);
    out
}

pub fn dup_anonymous_struct(s: &AnonymousStruct) -> (r: AnonymousStruct)
    ensures
        args_view(r.fields@) == args_view(s.fields@),
    decreases s,
{
    AnonymousStruct { fields: dup_args(&s.fields) }
}

pub fn dup_operand(o: &IdentOrUnion) -> (r: IdentOrUnion)
    ensures
        operand_view(r) == operand_view(*o),
    decreases o,
{
    match o {
        IdentOrUnion::Ident(UnionDiscriminant::Ref(p)) => IdentOrUnion::Ident(UnionDiscriminant::Ref(dup_path_or_ident(p))),
        IdentOrUnion::Ident(UnionDiscriminant::Anonymous(a)) => {
            proof {
                assert(decreases_to!(*o => (*o)->Ident_0));
                assert(decreases_to!((*o)->Ident_0 => (*o)->Ident_0->Anonymous_0));
                assert(decreases_to!((*o)->Ident_0->Anonymous_0 => (*o)->Ident_0->Anonymous_0.value));
            }
            IdentOrUnion::Ident(UnionDiscriminant::Anonymous(Spanned { span: a.span, value: dup_anonymous_struct(&a.value) }))
        },
        IdentOrUnion::Union { inner } => {
            proof {
                assert(decreases_to!(*o => (*o)->inner));
                assert(decreases_to!((*o)->inner => (*o)->inner.value));
            }
            let u = dup_union(&inner.value);
            IdentOrUnion::Union { inner: Box::new(Spanned { span: inner.span, value: u }) }
        },
    }
}

pub fn dup_union(u: &Union) -> (r: Union)
    ensures
        union_view(r.types@) == union_view(u.types@),
    decreases u,
{
    let v = &u.types;
    let mut out: Vec<Spanned<IdentOrUnion>> = Vec::new();
    let mut k: usize = 0;
    while k < v.len()
        invariant
            *v == u.types,
            k <= v@.len(),
            out@.len() == k,
            union_view(out@) == union_view(v@.subrange(0, k as int)),
        decreases v@.len() - k,
    {
        proof {
            assert(decreases_to!(*u => u.types));
            assert(decreases_to!(u.types => u.types@));
            assert(decreases_to!(v@ => v@[k as int]));
            assert(decreases_to!(v@[k as int] => v@[k as int].value));
        }
        let ghost before = out@;
        let o = dup_operand(&v[k].value);
        out.push(Spanned { span: v[k].span, value: o });
        proof {
            assert(out@.drop_last() =~= before);
            assert(v@.subrange(0, k + 1).drop_last() =~= v@.subrange(0, k as int));
        }
        k += 1;
    }
    assert(v@.subrange(0, v@.len() as int) =~= v@);
    Union { types: out }
}

pub fn dup_selectors(l: &Option<SelectorList>) -> (r: Option<SelectorList>)
    ensures
        selectors_view(r) == selectors_view(*l),
{
    match l {
        Some(l) => Some(SelectorList { fields: dup_idents(&l.fields) }),
        None => None,
    }
}

pub fn dup_type_expr(e: &TypeExpr) -> (r: TypeExpr)
    ensures
        r@ == e@,
    decreases e,
{
    match e {
        TypeExpr::TypeRef { reference } => TypeExpr::TypeRef { reference: dup_path_or_ident(reference) },
        TypeExpr::FieldAccess { base, field } => {
            proof {
                assert(decreases_to!(*e => (*e)->base));
                assert(decreases_to!((*e)->base => (*e)->base.value));
            }
            let b = dup_type_expr(&base.value);
            TypeExpr::FieldAccess { base: Box::new(Spanned { span: base.span, value: b }), field: dup_ident(field) }
        },
        TypeExpr::Op(op) => {
            proof {
                assert(decreases_to!(*e => (*e)->Op_0));
                assert(decreases_to!((*e)->Op_0 => (*e)->Op_0.value));
            }
            let value = dup_type_expr_op(&op.value);
            TypeExpr::Op(Box::new(Spanned { span: op.span, value }))
        },
    }
}

pub fn dup_type_expr_op(op: &TypeExprOp) -> (r: TypeExprOp)
    ensures
        type_expr_view(TypeExpr::Op(Box::new(Spanned { span: crate::defs::Span::CallSite, value: r })))
            == type_expr_view(TypeExpr::Op(Box::new(Spanned { span: crate::defs::Span::CallSite, value: *op }))),
    decreases op,
{
    match op {
        TypeExprOp::Pick { target, fields } => TypeExprOp::Pick { target: dup_type_expr(target), fields: SelectorList { fields: dup_idents(&fields.fields) } },
        TypeExprOp::Omit { target, fields } => TypeExprOp::Omit { target: dup_type_expr(target), fields: SelectorList { fields: dup_idents(&fields.fields) } },
        TypeExprOp::Partial { target, fields } => TypeExprOp::Partial { target: dup_type_expr(target), fields: dup_selectors(fields) },
        TypeExprOp::Required { target, fields } => TypeExprOp::Required { target: dup_type_expr(target), fields: dup_selectors(fields) },
        TypeExprOp::Exclude { target, variants } => TypeExprOp::Exclude { target: dup_type_expr(target), variants: VariantList { variants: dup_idents(&variants.variants) } },
        TypeExprOp::Extract { target, variants } => TypeExprOp::Extract { target: dup_type_expr(target), variants: VariantList { variants: dup_idents(&variants.variants) } },
        TypeExprOp::ArrayItem { target } => TypeExprOp::ArrayItem { target: dup_type_expr(target) },
    }
}

pub fn dup_spanned_type(t: &Spanned<Type>) -> (r: Spanned<Type>)
    ensures
        r.span == t.span,
        r.value@ == t.value@,
    decreases t,
{
    Spanned { span: t.span, value: dup_type(&t.value) }
}

pub fn dup_type(t: &Type) -> (r: Type)
    ensures
        r@ == t@,
    decreases t,
{
    match t {
        Type::Builtin { ty } => Type::Builtin { ty: Spanned { span: ty.span, value: ty.value } },
        Type::Ident { to } => Type::Ident { to: dup_path_or_ident(to) },
        Type::Array { ty } => {
            proof {
                assert(decreases_to!(*t => (*t)->Array_ty));
                assert(decreases_to!((*t)->Array_ty => (*t)->Array_ty.value));
            }
            let value = match &ty.value {
                Array::Unsized { ty: inner } => {
                    proof {
                        assert(decreases_to!((*t)->Array_ty.value => (*t)->Array_ty.value->Unsized_ty));
                    }
                    Array::Unsized { ty: Box::new(dup_spanned_type(inner)) }
                },
                Array::Sized { ty: inner, size } => {
                    proof {
                        assert(decreases_to!((*t)->Array_ty.value => (*t)->Array_ty.value->Sized_ty));
                    }
                    Array::Sized { ty: Box::new(dup_spanned_type(inner)), size: Spanned { span: size.span, value: size.value } }
                },
            };
            Type::Array { ty: Box::new(Spanned { span: ty.span, value }) }
        },
        Type::Struct { ty } => {
            proof {
                assert(decreases_to!(*t => (*t)->Struct_ty));
                assert(decreases_to!((*t)->Struct_ty => (*t)->Struct_ty.value));
            }
            Type::Struct { ty: Spanned { span: ty.span, value: dup_anonymous_struct(&ty.value) } }
        },
        Type::OneOf { ty } => {
            proof {
                assert(decreases_to!(*t => (*t)->OneOf_ty));
                assert(decreases_to!((*t)->OneOf_ty => (*t)->OneOf_ty.value));
                assert(decreases_to!((*t)->OneOf_ty.value => (*t)->OneOf_ty.value.variants));
            }
            Type::OneOf { ty: Spanned { span: ty.span, value: AnonymousOneOf { variants: dup_types(&ty.value.variants) } } }
        },
        Type::Union { ty } => {
            proof {
                assert(decreases_to!(*t => (*t)->Union_ty));
                assert(decreases_to!((*t)->Union_ty => (*t)->Union_ty.value));
            }
            Type::Union { ty: Spanned { span: ty.span, value: dup_union(&ty.value) } }
        },
        Type::UnionOr { lhs, rhs } => {
            proof {
                assert(decreases_to!(*t => (*t)->lhs));
                assert(decreases_to!(*t => (*t)->rhs));
            }
            Type::UnionOr { lhs: Box::new(dup_spanned_type(lhs)), rhs: Box::new(dup_spanned_type(rhs)) }
        },
        Type::Paren { ty } => {
            proof {
                assert(decreases_to!(*t => (*t)->Paren_ty));
            }
            Type::Paren { ty: Box::new(dup_spanned_type(ty)) }
        },
        Type::Result { ty } => {
            proof {
                assert(decreases_to!(*t => (*t)->Result_ty));
            }
            Type::Result { ty: Box::new(dup_spanned_type(ty)) }
        },
        Type::TypeExpr { expr } => {
            Type::TypeExpr { expr: Box::new(Spanned { span: expr.span, value: dup_type_expr(&expr.value) }) }
        },
    }
}

pub fn same_names(a: &Vec<Spanned<IdentToken>>, b: &Vec<Spanned<IdentToken>>) -> (r: bool)
    ensures
        r == (names_view(a@) == names_view(b@)),
{
    if a.len() != b.len() {
        assert(names_view(a@).len() != names_view(b@).len());
        return false;
    }
    let mut k: usize = 0;
    while k < a.len()
        invariant
            a@.len() == b@.len(),
            k <= a@.len(),
            forall|j: int| 0 <= j < k ==> a@[j].value.0@ == b@[j].value.0@,
        decreases a@.len() - k,
    {
        if !str_eq(&a[k].value.0, &b[k].value.0) {
            assert(names_view(a@)[k as int] != names_view(b@)[k as int]);
            return false;
        }
        k += 1;
    }
    assert(names_view(a@) =~= names_view(b@));
    true
}

pub fn same_path_or_ident(a: &PathOrIdent, b: &PathOrIdent) -> (r: bool)
    ensures
        r == (a@ == b@),
{
    match (a, b) {
        (PathOrIdent::Ident(x), PathOrIdent::Ident(y)) => str_eq(&x.value.0, &y.value.0),
        (PathOrIdent::Path(x), PathOrIdent::Path(y)) => strings_eq(x.value.segments(), y.value.segments()),
        _ => false,
    }
}

pub fn same_arg(a: &Arg, b: &Arg) -> (r: bool)
    ensures
        r == (a@ == b@),
    decreases a,
{
    str_eq(&a.name.value.0, &b.name.value.0) && a.sep == b.sep && same_type(&a.typ, &b.typ)
}

pub fn same_args(a: &Vec<Spanned<Arg>>, b: &Vec<Spanned<Arg>>) -> (r: bool)
    ensures
        r == (args_view(a@) == args_view(b@)),
    decreases a,
{
    proof {
        lemma_args_view(a@);
        lemma_args_view(b@);
    }
    if a.len() != b.len() {
        return false;
    }
    let mut k: usize = 0;
    while k < a.len()
        invariant
            a@.len() == b@.len(),
            k <= a@.len(),
            args_view(a@).len() == a@.len(),
            args_view(b@).len() == b@.len(),
            forall|i: int| 0 <= i < a@.len() ==> #[trigger] args_view(a@)[i] == arg_view(a@[i].value),
            forall|i: int| 0 <= i < b@.len() ==> #[trigger] args_view(b@)[i] == arg_view(b@[i].value),
            forall|j: int| 0 <= j < k ==> args_view(a@)[j] == args_view(b@)[j],
        decreases a@.len() - k,
    {
        proof {
            assert(decreases_to!(*a => a@));
            assert(decreases_to!(a@ => a@[k as int]));
            assert(decreases_to!(a@[k as int] => a@[k as int].value));
        }
        if !same_arg(&a[k].value, &b[k].value) {
            assert(args_view(a@)[k as int] != args_view(b@)[k as int]);
            return false;
        }
        k += 1;
    }
    assert(args_view(a@) =~= args_view(b@));
    true
}

pub fn same_types(a: &Vec<Spanned<Type>>, b: &Vec<Spanned<Type>>) -> (r: bool)
    ensures
        r == (types_view(a@) == types_view(b@)),
    decreases a,
{
    proof {
        lemma_types_view(a@);
        lemma_types_view(b@);
    }
    if a.len() != b.len() {
        return false;
    }
    let mut k: usize = 0;
    while k < a.len()
        invariant
            a@.len() == b@.len(),
            k <= a@.len(),
            types_view(a@).len() == a@.len(),
            types_view(b@).len() == b@.len(),
            forall|i: int| 0 <= i < a@.len() ==> #[trigger] types_view(a@)[i] == type_view(a@[i].value),
            forall|i: int| 0 <= i < b@.len() ==> #[trigger] types_view(b@)[i] == type_view(b@[i].value),
            forall|j: int| 0 <= j < k ==> types_view(a@)[j] == types_view(b@)[j],
        decreases a@.len() - k,
    {
        proof {
            assert(decreases_to!(*a => a@));
            assert(decreases_to!(a@ => a@[k as int]));
            assert(decreases_to!(a@[k as int] => a@[k as int].value));
        }
        if !same_type(&a[k].value, &b[k].value) {
            assert(types_view(a@)[k as int] != types_view(b@)[k as int]);
            return false;
        }
        k += 1;
    }
    assert(types_view(a@) =~= types_view(b@));
    true
}

pub fn same_operand(a: &IdentOrUnion, b: &IdentOrUnion) -> (r: bool)
    ensures
        r == (operand_view(*a) == operand_view(*b)),
    decreases a,
{
    match (a, b) {
        (IdentOrUnion::Ident(UnionDiscriminant::Ref(x)), IdentOrUnion::Ident(UnionDiscriminant::Ref(y))) => same_path_or_ident(x, y),
        (IdentOrUnion::Ident(UnionDiscriminant::Anonymous(x)), IdentOrUnion::Ident(UnionDiscriminant::Anonymous(y))) => {
            proof {
                assert(decreases_to!(*a => (*a)->Ident_0));
                assert(decreases_to!((*a)->Ident_0 => (*a)->Ident_0->Anonymous_0));
                assert(decreases_to!((*a)->Ident_0->Anonymous_0 => (*a)->Ident_0->Anonymous_0.value));
                assert(decreases_to!((*a)->Ident_0->Anonymous_0.value => (*a)->Ident_0->Anonymous_0.value.fields));
            }
            same_args(&x.value.fields, &y.value.fields)
        },
        (IdentOrUnion::Union { inner: x }, IdentOrUnion::Union { inner: y }) => {
            proof {
                assert(decreases_to!(*a => (*a)->inner));
                assert(decreases_to!((*a)->inner => (*a)->inner.value));
            }
            same_union(&x.value, &y.value)
        },
        _ => false,
    }
}

pub fn same_union(a: &Union, b: &Union) -> (r: bool)
    ensures
        r == (union_view(a.types@) == union_view(b.types@)),
    decreases a,
{
    let x = &a.types;
    let y = &b.types;
    proof {
        lemma_union_view(x@);
        lemma_union_view(y@);
    }
    if x.len() != y.len() {
        return false;
    }
    let mut k: usize = 0;
    while k < x.len()
        invariant
            *x == a.types,
            *y == b.types,
            x@.len() == y@.len(),
            k <= x@.len(),
            union_view(x@).len() == x@.len(),
            union_view(y@).len() == y@.len(),
            forall|i: int| 0 <= i < x@.len() ==> #[trigger] union_view(x@)[i] == operand_view(x@[i].value),
            forall|i: int| 0 <= i < y@.len() ==> #[trigger] union_view(y@)[i] == operand_view(y@[i].value),
            forall|j: int| 0 <= j < k ==> union_view(x@)[j] == union_view(y@)[j],
        decreases x@.len() - k,
    {
        proof {
            assert(decreases_to!(*a => a.types));
            assert(decreases_to!(a.types => a.types@));
            assert(decreases_to!(x@ => x@[k as int]));
            assert(decreases_to!(x@[k as int] => x@[k as int].value));
        }
        if !same_operand(&x[k].value, &y[k].value) {
            assert(union_view(x@)[k as int] != union_view(y@)[k as int]);
            return false;
        }
        k += 1;
    }
    assert(union_view(x@) =~= union_view(y@));
    true
}

fn same_selectors(a: &Option<SelectorList>, b: &Option<SelectorList>) -> (r: bool)
    ensures
        r == (selectors_view(*a) == selectors_view(*b)),
{
    match (a, b) {
        (Some(x), Some(y)) => same_names(&x.fields, &y.fields),
        (None, None) => true,
        _ => false,
    }
}

pub fn same_type_expr(a: &TypeExpr, b: &TypeExpr) -> (r: bool)
    ensures
        r == (a@ == b@),
    decreases a,
{
    match (a, b) {
        (TypeExpr::TypeRef { reference: x }, TypeExpr::TypeRef { reference: y }) => same_path_or_ident(x, y),
        (TypeExpr::FieldAccess { base: xb, field: xf }, TypeExpr::FieldAccess { base: yb, field: yf }) => {
            proof {
                assert(decreases_to!(*a => (*a)->base));
                assert(decreases_to!((*a)->base => (*a)->base.value));
            }
            str_eq(&xf.value.0, &yf.value.0) && same_type_expr(&xb.value, &yb.value)
        },
        (TypeExpr::Op(x), TypeExpr::Op(y)) => {
            proof {
                assert(decreases_to!(*a => (*a)->Op_0));
                assert(decreases_to!((*a)->Op_0 => (*a)->Op_0.value));
            }
            match (&x.value, &y.value) {
                (TypeExprOp::Pick { target: t1, fields: f1 }, TypeExprOp::Pick { target: t2, fields: f2 }) =>
                    same_names(&f1.fields, &f2.fields) && same_type_expr(t1, t2),
                (TypeExprOp::Omit { target: t1, fields: f1 }, TypeExprOp::Omit { target: t2, fields: f2 }) =>
                    same_names(&f1.fields, &f2.fields) && same_type_expr(t1, t2),
                (TypeExprOp::Partial { target: t1, fields: f1 }, TypeExprOp::Partial { target: t2, fields: f2 }) =>
                    same_selectors(f1, f2) && same_type_expr(t1, t2),
                (TypeExprOp::Required { target: t1, fields: f1 }, TypeExprOp::Required { target: t2, fields: f2 }) =>
                    same_selectors(f1, f2) && same_type_expr(t1, t2),
                (TypeExprOp::Exclude { target: t1, variants: v1 }, TypeExprOp::Exclude { target: t2, variants: v2 }) =>
                    same_names(&v1.variants, &v2.variants) && same_type_expr(t1, t2),
                (TypeExprOp::Extract { target: t1, variants: v1 }, TypeExprOp::Extract { target: t2, variants: v2 }) =>
                    same_names(&v1.variants, &v2.variants) && same_type_expr(t1, t2),
                (TypeExprOp::ArrayItem { target: t1 }, TypeExprOp::ArrayItem { target: t2 }) => same_type_expr(t1, t2),
                _ => false,
            }
        },
        _ => false,
    }
}

fn array_parts(a: &Array) -> (r: (&Spanned<Type>, Option<i32>))
    ensures
        match *a {
            Array::Unsized { ty } => r.0 == *ty && r.1 is None,
            Array::Sized { ty, size } => r.0 == *ty && r.1 == Some(size.value),
        },
{
    match a {
        Array::Unsized { ty } => (ty, None),
        Array::Sized { ty, size } => (ty, Some(size.value)),
    }
}

/// Whether two types are the same up to spans: what printing them would
/// show.
pub fn same_type(a: &Type, b: &Type) -> (r: bool)
    ensures
        r == (a@ == b@),
    decreases a,
{
    match (a, b) {
        (Type::Builtin { ty: x }, Type::Builtin { ty: y }) => x.value == y.value,
        (Type::Ident { to: x }, Type::Ident { to: y }) => same_path_or_ident(x, y),
        (Type::Array { ty: x }, Type::Array { ty: y }) => {
            let (xe, xs) = array_parts(&x.value);
            let (ye, ys) = array_parts(&y.value);
            proof {
                assert(decreases_to!(*a => (*a)->Array_ty));
                assert(decreases_to!((*a)->Array_ty => (*a)->Array_ty.value));
                match (*a)->Array_ty.value {
                    Array::Unsized { ty } => {
                        assert(decreases_to!((*a)->Array_ty.value => (*a)->Array_ty.value->Unsized_ty));
                        assert(decreases_to!((*a)->Array_ty.value->Unsized_ty => (*a)->Array_ty.value->Unsized_ty.value));
                    },
                    Array::Sized { ty, size } => {
                        assert(decreases_to!((*a)->Array_ty.value => (*a)->Array_ty.value->Sized_ty));
                        assert(decreases_to!((*a)->Array_ty.value->Sized_ty => (*a)->Array_ty.value->Sized_ty.value));
                    },
                }
            }
            let sizes_same = match (xs, ys) {
                (Some(p), Some(q)) => p == q,
                (None, None) => true,
                _ => false,
            };
            sizes_same && same_type(&xe.value, &ye.value)
        },
        (Type::Struct { ty: x }, Type::Struct { ty: y }) => {
            proof {
                assert(decreases_to!(*a => (*a)->Struct_ty));
                assert(decreases_to!((*a)->Struct_ty => (*a)->Struct_ty.value));
                assert(decreases_to!((*a)->Struct_ty.value => (*a)->Struct_ty.value.fields));
            }
            same_args(&x.value.fields, &y.value.fields)
        },
        (Type::OneOf { ty: x }, Type::OneOf { ty: y }) => {
            proof {
                assert(decreases_to!(*a => (*a)->OneOf_ty));
                assert(decreases_to!((*a)->OneOf_ty => (*a)->OneOf_ty.value));
                assert(decreases_to!((*a)->OneOf_ty.value => (*a)->OneOf_ty.value.variants));
            }
            same_types(&x.value.variants, &y.value.variants)
        },
        (Type::Union { ty: x }, Type::Union { ty: y }) => {
            proof {
                assert(decreases_to!(*a => (*a)->Union_ty));
                assert(decreases_to!((*a)->Union_ty => (*a)->Union_ty.value));
            }
            same_union(&x.value, &y.value)
        },
        (Type::UnionOr { lhs: xl, rhs: xr }, Type::UnionOr { lhs: yl, rhs: yr }) => {
            proof {
                assert(decreases_to!(*a => (*a)->lhs));
                assert(decreases_to!((*a)->lhs => (*a)->lhs.value));
                assert(decreases_to!(*a => (*a)->rhs));
                assert(decreases_to!((*a)->rhs => (*a)->rhs.value));
            }
            same_type(&xl.value, &yl.value) && same_type(&xr.value, &yr.value)
        },
        (Type::Paren { ty: x }, Type::Paren { ty: y }) => {
            proof {
                assert(decreases_to!(*a => (*a)->Paren_ty));
                assert(decreases_to!((*a)->Paren_ty => (*a)->Paren_ty.value));
            }
            same_type(&x.value, &y.value)
        },
        (Type::Result { ty: x }, Type::Result { ty: y }) => {
            proof {
                assert(decreases_to!(*a => (*a)->Result_ty));
                assert(decreases_to!((*a)->Result_ty => (*a)->Result_ty.value));
            }
            same_type(&x.value, &y.value)
        },
        (Type::TypeExpr { expr: x }, Type::TypeExpr { expr: y }) => same_type_expr(&x.value, &y.value),
        _ => false,
    }
}

} // verus!
