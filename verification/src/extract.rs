//! Which types each item of a namespace depends on, and how: the edges of
//! the type dependency graph, with the candidate definitions a reference
//! may resolve to.
use vstd::prelude::*;
use crate::defs::Spanned;
use crate::toks::{IdentToken, strings_view};
use crate::ast::{Arg, ArgV, Array, IdentOrUnion, IdentOrUnionV, OneOf, Operation, PathOrIdent, PathOrIdentV, Sep, Struct, Type, TypeAlias, TypeV, UnionDiscriminant, Variant, args_view, arg_view, types_view, union_view, operand_view};
use crate::ast_ops::{lemma_types_view, lemma_union_view};
use crate::common::{NamespaceChild, NamespaceCtx};
use crate::paths::{NamedItemContext, NamedItemContextV, RefContext, RefContextV, RefOrItemContext, clone_strings, merged_namespace};
use crate::text::{nat_decimal, push_nat_decimal, str_eq, append_string};
use crate::type_graph::{EdgeKind, TypeDependency, TypeDependencyGraph, item_views, node_keys, sorted_keys, unique_keys};

verus! {

/// An import of a namespace, spans aside.
pub enum ImportV {
    Ref(RefContextV),
    Item(NamedItemContextV),
}

pub open spec fn import_view(i: RefOrItemContext) -> ImportV {
    match i {
        RefOrItemContext::Ref(r) => ImportV::Ref(r@),
        RefOrItemContext::Item(it) => ImportV::Item(it@),
    }
}

pub open spec fn imports_view(s: Seq<crate::common::FromNamedSource<RefOrItemContext>>) -> Seq<ImportV> {
    s.map_values(|i: crate::common::FromNamedSource<RefOrItemContext>| import_view(i.value))
}

/// The candidates an import gives for a bare name: an imported item of that
/// name, or the name inside an imported namespace (the namespace itself,
/// when the import's last namespace is the name).
pub open spec fn ident_candidates(name: Seq<char>, imports: Seq<ImportV>) -> Seq<NamedItemContextV>
    decreases imports.len(),
{
    if imports.len() == 0 {
        Seq::empty()
    } else {
        ident_candidates(name, imports.drop_last()) + match imports.last() {
            ImportV::Item(it) => if it.name == name { seq![it] } else { Seq::empty() },
            ImportV::Ref(r) => if r.namespace.len() > 0 && r.namespace.last() == name {
                seq![NamedItemContextV { context: RefContextV { package: r.package, namespace: r.namespace.drop_last() }, name }]
            } else {
                seq![NamedItemContextV { context: r, name }]
            },
        }
    }
}

/// The candidates an import gives for a path `seg::last`: an imported item
/// named `last`, or `last` under the imported namespace extended by `seg`
/// (without a leading segment that repeats the import's package).
pub open spec fn path_candidates(seg: Seq<Seq<char>>, last: Seq<char>, imports: Seq<ImportV>) -> Seq<NamedItemContextV>
    decreases imports.len(),
{
    if imports.len() == 0 {
        Seq::empty()
    } else {
        path_candidates(seg, last, imports.drop_last()) + match imports.last() {
            ImportV::Item(it) => if it.name == last { seq![it] } else { Seq::empty() },
            ImportV::Ref(r) => {
                let adjusted = if seg.len() > 0 && seg[0] == r.package { seg.skip(1) } else { seg };
                seq![NamedItemContextV {
                    context: RefContextV { package: r.package, namespace: merged_namespace(r.namespace, adjusted) },
                    name: last,
                }]
            },
        }
    }
}

/// The definitions a reference may resolve to, in the order they are tried:
/// those the imports give, then the reference in the current context.
pub open spec fn candidates(r: PathOrIdentV, ctx: RefContextV, imports: Seq<ImportV>) -> Seq<NamedItemContextV> {
    match r {
        PathOrIdentV::Ident(name) => ident_candidates(name, imports).push(NamedItemContextV { context: ctx, name }),
        PathOrIdentV::Path(bits) => if bits.len() == 0 {
            Seq::empty()
        } else {
            let seg = bits.drop_last();
            let last = bits.last();
            path_candidates(seg, last, imports).push(NamedItemContextV {
                context: RefContextV { package: ctx.package, namespace: ctx.namespace + seg },
                name: last,
            })
        },
    }
}

/// A dependency as values: candidates, edge kind, field path.
pub type DepV = (Seq<NamedItemContextV>, EdgeKind, Seq<Seq<char>>);

pub open spec fn deps_view(s: Seq<TypeDependency>) -> Seq<DepV> {
    s.map_values(|d: TypeDependency| (item_views(d.target_candidates@), d.kind, strings_view(d.field_path@)))
}

/// `prefix` followed by the index.
pub open spec fn indexed(prefix: Seq<char>, i: nat) -> Seq<char> {
    prefix + nat_decimal(i)
}

/// How a field is held: required fields require, optional ones do not.
pub open spec fn field_kind(required: bool) -> EdgeKind {
    if required { EdgeKind::Required } else { EdgeKind::Optional }
}

/// The dependencies of a type reached by `path` with edge kind `kind`.
/// Arrays make their elements array edges, results and the variants of
/// oneofs and unions optional ones, and struct fields follow their own
/// optionality.
pub open spec fn type_edges(t: TypeV, path: Seq<Seq<char>>, kind: EdgeKind, ctx: RefContextV, imports: Seq<ImportV>) -> Seq<DepV>
    decreases t,
{
    match t {
        TypeV::Ident(r) => seq![(candidates(r, ctx, imports), kind, path)],
        TypeV::Array(e, _) => type_edges(*e, path, EdgeKind::Array, ctx, imports),
        TypeV::Paren(inner) => type_edges(*inner, path, kind, ctx, imports),
        TypeV::Result(inner) => type_edges(*inner, path, EdgeKind::Optional, ctx, imports),
        TypeV::Struct(fields) => field_edges(fields, path, ctx, imports),
        TypeV::OneOf(vs) => variant_edges(vs, path, ctx, imports),
        TypeV::Union(ops) => member_edges(ops, path, "union_"@, EdgeKind::Optional, ctx, imports),
        _ => Seq::empty(),
    }
}

pub open spec fn field_edges(fields: Seq<ArgV>, path: Seq<Seq<char>>, ctx: RefContextV, imports: Seq<ImportV>) -> Seq<DepV>
    decreases fields,
{
    if fields.len() == 0 {
        Seq::empty()
    } else {
        let f = fields.last();
        field_edges(fields.drop_last(), path, ctx, imports)
            + type_edges(f.typ, path.push(f.name), field_kind(f.required), ctx, imports)
    }
}

pub open spec fn variant_edges(vs: Seq<TypeV>, path: Seq<Seq<char>>, ctx: RefContextV, imports: Seq<ImportV>) -> Seq<DepV>
    decreases vs,
{
    if vs.len() == 0 {
        Seq::empty()
    } else {
        variant_edges(vs.drop_last(), path, ctx, imports)
            + type_edges(vs.last(), path.push(indexed("variant_"@, (vs.len() - 1) as nat)), EdgeKind::Optional, ctx, imports)
    }
}

/// The dependencies of union members, each reached by `prefix{index}`.
pub open spec fn member_edges(
    ops: Seq<IdentOrUnionV>,
    path: Seq<Seq<char>>,
    prefix: Seq<char>,
    kind: EdgeKind,
    ctx: RefContextV,
    imports: Seq<ImportV>,
) -> Seq<DepV>
    decreases ops,
{
    if ops.len() == 0 {
        Seq::empty()
    } else {
        member_edges(ops.drop_last(), path, prefix, kind, ctx, imports)
            + one_member_edges(ops.last(), path.push(indexed(prefix, (ops.len() - 1) as nat)), kind, ctx, imports)
    }
}

pub open spec fn one_member_edges(m: IdentOrUnionV, path: Seq<Seq<char>>, kind: EdgeKind, ctx: RefContextV, imports: Seq<ImportV>) -> Seq<DepV>
    decreases m,
{
    match m {
        IdentOrUnionV::Ref(r) => seq![(candidates(r, ctx, imports), kind, path)],
        IdentOrUnionV::Anonymous(fields) => field_edges(fields, path, ctx, imports),
        IdentOrUnionV::Nested(ops) => member_edges(ops, path, "nested_"@, kind, ctx, imports),
    }
}

/// The types of a namespace and how they depend on one another.
pub struct TypeExtractor;

fn label(prefix: &str, i: usize) -> (r: String)
    ensures
        r@ == indexed(prefix@, i as nat),
{
    let mut s = String::from_str(prefix);
    push_nat_decimal(&mut s, i as u64);
    s
}

fn path_with(path: &Vec<String>, last: String) -> (r: Vec<String>)
    ensures
        strings_view(r@) == strings_view(path@).push(last@),
{
    let mut p = clone_strings(path);
    let ghost p0 = p@;
    p.push(last);
    assert(strings_view(p@) =~= strings_view(p0).push(last@));
    p
}

fn push_dep(deps: &mut Vec<TypeDependency>, d: TypeDependency)
    ensures
        deps_view(final(deps)@) == deps_view(old(deps)@).push((item_views(d.target_candidates@), d.kind, strings_view(d.field_path@))),
{
    let ghost d0 = deps@;
    deps.push(d);
    assert(deps_view(deps@) =~= deps_view(d0).push((item_views(d.target_candidates@), d.kind, strings_view(d.field_path@))));
}

fn candidate_in(ctx: &RefContext, name: &Spanned<IdentToken>) -> (r: NamedItemContext)
    ensures
        r@ == (NamedItemContextV { context: ctx@, name: name.value.0@ }),
{
    ctx.item(Spanned { span: name.span, value: IdentToken(name.value.0.clone()) })
}

impl TypeExtractor {
    /// The definitions a reference may resolve to, in the order to try them.
    pub fn generate_candidates(reference: &PathOrIdent, context: &RefContext, ns: &NamespaceCtx) -> (r: Vec<NamedItemContext>)
        ensures
            item_views(r@) == candidates(reference@, context@, imports_view(ns.imports@)),
    {
        let ghost iv = imports_view(ns.imports@);
        let mut out: Vec<NamedItemContext> = Vec::new();
        match reference {
            PathOrIdent::Ident(name) => {
                let mut k: usize = 0;
                while k < ns.imports.len()
                    invariant
                        iv == imports_view(ns.imports@),
                        k <= ns.imports@.len(),
                        item_views(out@) == ident_candidates(name.value.0@, iv.subrange(0, k as int)),
                    decreases ns.imports@.len() - k,
                {
                    let ghost o0 = out@;
                    match &ns.imports[k].value {
                        RefOrItemContext::Item(it) => {
                            if str_eq(&it.name.value.0, &name.value.0) {
                                out.push(it.duplicate());
                            }
                        },
                        RefOrItemContext::Ref(r) => {
                            let n = r.namespace.len();
                            if n > 0 && str_eq(&r.namespace[n - 1], &name.value.0) {
                                let mut nsv = clone_strings(&r.namespace);
                                nsv.pop();
                                let ctx = RefContext::new(r.package.clone(), nsv);
                                proof {
                                    assert(strings_view(nsv@) =~= r@.namespace.drop_last());
                                }
                                out.push(candidate_in(&ctx, name));
                            } else {
                                out.push(candidate_in(r, name));
                            }
                        },
                    }
                    proof {
                        assert(iv.subrange(0, k + 1).drop_last() =~= iv.subrange(0, k as int));
                        assert(iv.subrange(0, k + 1).last() == iv[k as int]);
                        assert(item_views(out@) =~= item_views(o0) + (item_views(out@).subrange(o0.len() as int, out@.len() as int)));
                    }
                    k += 1;
                }
                assert(iv.subrange(0, iv.len() as int) =~= iv);
                let ghost o1 = out@;
                out.push(candidate_in(context, name));
                assert(item_views(out@) =~= item_views(o1).push(NamedItemContextV { context: context@, name: name.value.0@ }));
                out
            },
            PathOrIdent::Path(path) => {
                let mut seg = clone_strings(path.value.segments());
                let last = match seg.pop() {
                    Some(l) => l,
                    None => {
                        assert(item_views(out@) =~= Seq::empty());
                        return out;
                    },
                };
                let ghost bits = path.value.bits_view();
                proof {
                    assert(strings_view(seg@) =~= bits.drop_last());
                }
                let local_ctx = context.extend(seg.as_slice());
                let true_local = local_ctx.item(Spanned::call_site(IdentToken::new(last.clone())));
                let mut k: usize = 0;
                while k < ns.imports.len()
                    invariant
                        iv == imports_view(ns.imports@),
                        k <= ns.imports@.len(),
                        strings_view(seg@) == bits.drop_last(),
                        last@ == bits.last(),
                        item_views(out@) == path_candidates(bits.drop_last(), bits.last(), iv.subrange(0, k as int)),
                    decreases ns.imports@.len() - k,
                {
                    let ghost o0 = out@;
                    match &ns.imports[k].value {
                        RefOrItemContext::Item(it) => {
                            if str_eq(&it.name.value.0, &last) {
                                out.push(it.duplicate());
                            }
                        },
                        RefOrItemContext::Ref(r) => {
                            let skip_first = seg.len() > 0 && str_eq(&seg[0], &r.package);
                            let mut adjusted: Vec<String> = Vec::new();
                            let start: usize = if skip_first { 1 } else { 0 };
                            let mut j: usize = start;
                            while j < seg.len()
                                invariant
                                    start <= j <= seg@.len(),
                                    start <= seg@.len(),
                                    strings_view(adjusted@) == strings_view(seg@).subrange(start as int, j as int),
                                decreases seg@.len() - j,
                            {
                                let ghost a0 = adjusted@;
                                adjusted.push(seg[j].clone());
                                assert(strings_view(adjusted@) =~= strings_view(a0).push(seg@[j as int]@));
                                assert(strings_view(seg@).subrange(start as int, j + 1)
                                    =~= strings_view(seg@).subrange(start as int, j as int).push(seg@[j as int]@));
                                j += 1;
                            }
                            proof {
                                if skip_first {
                                    assert(strings_view(seg@).subrange(1, seg@.len() as int) =~= strings_view(seg@).skip(1));
                                } else {
                                    assert(strings_view(seg@).subrange(0, seg@.len() as int) =~= strings_view(seg@));
                                }
                            }
                            let merged = r.merge_extend(adjusted.as_slice());
                            out.push(merged.item(Spanned::call_site(IdentToken::new(last.clone()))));
                        },
                    }
                    proof {
                        assert(iv.subrange(0, k + 1).drop_last() =~= iv.subrange(0, k as int));
                        assert(iv.subrange(0, k + 1).last() == iv[k as int]);
                        assert(item_views(out@) =~= item_views(o0) + (item_views(out@).subrange(o0.len() as int, out@.len() as int)));
                    }
                    k += 1;
                }
                assert(iv.subrange(0, iv.len() as int) =~= iv);
                let ghost o1 = out@;
                out.push(true_local);
                assert(item_views(out@) =~= item_views(o1).push(NamedItemContextV {
                    context: RefContextV { package: context@.package, namespace: context@.namespace + bits.drop_last() },
                    name: bits.last(),
                }));
                out
            },
        }
    }
}

fn kind_of(sep: Sep) -> (r: EdgeKind)
    ensures
        r == field_kind(sep == Sep::Required),
{
    match sep {
        Sep::Required => EdgeKind::Required,
        Sep::Optional => EdgeKind::Optional,
    }
}

proof fn lemma_concat_assoc(a: Seq<DepV>, b: Seq<DepV>, c: Seq<DepV>)
    ensures
        (a + b) + c == a + (b + c),
{
    assert((a + b) + c =~= a + (b + c));
}

impl TypeExtractor {
    /// Appends the dependencies of `ty`, reached by `field_path` and held as
    /// `current_kind`.
    fn extract_from_type(
        ty: &Type,
        deps: &mut Vec<TypeDependency>,
        field_path: Vec<String>,
        current_kind: EdgeKind,
        ref_context: &RefContext,
        ns_ctx: &NamespaceCtx,
    )
        ensures
            deps_view(final(deps)@) == deps_view(old(deps)@) + type_edges(
                ty@,
                strings_view(field_path@),
                current_kind,
                ref_context@,
                imports_view(ns_ctx.imports@),
            ),
        decreases ty,
    {
        let ghost d0 = deps_view(deps@);
        let ghost path = strings_view(field_path@);
        let ghost iv = imports_view(ns_ctx.imports@);
        match ty {
            Type::Ident { to } => {
                let candidates = Self::generate_candidates(to, ref_context, ns_ctx);
                push_dep(deps, TypeDependency::with_candidates(candidates, current_kind, field_path));
                assert(deps_view(deps@) =~= d0 + type_edges(ty@, path, current_kind, ref_context@, iv));
            },
            Type::Array { ty: arr } => {
                proof {
                    assert(decreases_to!(*ty => (*ty)->Array_ty));
                    assert(decreases_to!((*ty)->Array_ty => (*ty)->Array_ty.value));
                }
                match &arr.value {
                    Array::Unsized { ty: inner } => {
                        proof {
                            assert(decreases_to!((*ty)->Array_ty.value => (*ty)->Array_ty.value->Unsized_ty));
                            assert(decreases_to!((*ty)->Array_ty.value->Unsized_ty => (*ty)->Array_ty.value->Unsized_ty.value));
                        }
                        Self::extract_from_type(&inner.value, deps, field_path, EdgeKind::Array, ref_context, ns_ctx);
                    },
                    Array::Sized { ty: inner, .. } => {
                        proof {
                            assert(decreases_to!((*ty)->Array_ty.value => (*ty)->Array_ty.value->Sized_ty));
                            assert(decreases_to!((*ty)->Array_ty.value->Sized_ty => (*ty)->Array_ty.value->Sized_ty.value));
                        }
                        Self::extract_from_type(&inner.value, deps, field_path, EdgeKind::Array, ref_context, ns_ctx);
                    },
                }
            },
            Type::Paren { ty: inner } => {
                proof {
                    assert(decreases_to!(*ty => (*ty)->Paren_ty));
                    assert(decreases_to!((*ty)->Paren_ty => (*ty)->Paren_ty.value));
                }
                Self::extract_from_type(&inner.value, deps, field_path, current_kind, ref_context, ns_ctx);
            },
            Type::Result { ty: inner } => {
                proof {
                    assert(decreases_to!(*ty => (*ty)->Result_ty));
                    assert(decreases_to!((*ty)->Result_ty => (*ty)->Result_ty.value));
                }
                Self::extract_from_type(&inner.value, deps, field_path, EdgeKind::Optional, ref_context, ns_ctx);
            },
            Type::Struct { ty: st } => {
                proof {
                    assert(decreases_to!(*ty => (*ty)->Struct_ty));
                    assert(decreases_to!((*ty)->Struct_ty => (*ty)->Struct_ty.value));
                    assert(decreases_to!((*ty)->Struct_ty.value => (*ty)->Struct_ty.value.fields));
                }
                Self::extract_fields(&st.value.fields, deps, &field_path, ref_context, ns_ctx);
            },
            Type::OneOf { ty: one } => {
                proof {
                    assert(decreases_to!(*ty => (*ty)->OneOf_ty));
                    assert(decreases_to!((*ty)->OneOf_ty => (*ty)->OneOf_ty.value));
                    assert(decreases_to!((*ty)->OneOf_ty.value => (*ty)->OneOf_ty.value.variants));
                }
                Self::extract_variants(&one.value.variants, deps, &field_path, ref_context, ns_ctx);
            },
            Type::Union { ty: un } => {
                proof {
                    assert(decreases_to!(*ty => (*ty)->Union_ty));
                    assert(decreases_to!((*ty)->Union_ty => (*ty)->Union_ty.value));
                    assert(decreases_to!((*ty)->Union_ty.value => (*ty)->Union_ty.value.types));
                }
                Self::extract_members(&un.value.types, deps, &field_path, "union_", EdgeKind::Optional, ref_context, ns_ctx);
            },
            _ => {
                assert(deps_view(deps@) =~= d0 + type_edges(ty@, path, current_kind, ref_context@, iv));
            },
        }
    }

    /// Appends the dependencies of the fields, each reached by the path
    /// extended by its name and held as its separator says.
    fn extract_fields(
        fields: &Vec<Spanned<Arg>>,
        deps: &mut Vec<TypeDependency>,
        field_path: &Vec<String>,
        ref_context: &RefContext,
        ns_ctx: &NamespaceCtx,
    )
        ensures
            deps_view(final(deps)@) == deps_view(old(deps)@) + field_edges(
                args_view(fields@),
                strings_view(field_path@),
                ref_context@,
                imports_view(ns_ctx.imports@),
            ),
        decreases fields,
    {
        let ghost d0 = deps_view(deps@);
        let ghost path = strings_view(field_path@);
        let ghost iv = imports_view(ns_ctx.imports@);
        let mut k: usize = 0;
        assert(args_view(fields@.subrange(0, 0)) =~= Seq::empty());
        assert(deps_view(deps@) =~= d0 + Seq::empty());
        while k < fields.len()
            invariant
                k <= fields@.len(),
                path == strings_view(field_path@),
                iv == imports_view(ns_ctx.imports@),
                deps_view(deps@) == d0 + field_edges(args_view(fields@.subrange(0, k as int)), path, ref_context@, iv),
            decreases fields@.len() - k,
        {
            proof {
                assert(decreases_to!(*fields => fields@));
                assert(decreases_to!(fields@ => fields@[k as int]));
                assert(decreases_to!(fields@[k as int] => fields@[k as int].value));
                assert(decreases_to!(fields@[k as int].value => fields@[k as int].value.typ));
            }
            let ghost before = deps_view(deps@);
            let f = &fields[k].value;
            let new_path = path_with(field_path, f.name.value.0.clone());
            let kind = kind_of(f.sep);
            Self::extract_from_type(&f.typ, deps, new_path, kind, ref_context, ns_ctx);
            proof {
                let sub = fields@.subrange(0, k + 1);
                assert(sub.drop_last() =~= fields@.subrange(0, k as int));
                let av = args_view(sub);
                assert(av.drop_last() =~= args_view(fields@.subrange(0, k as int)));
                assert(av.last() == arg_view(*f));
                lemma_concat_assoc(
                    d0,
                    field_edges(args_view(fields@.subrange(0, k as int)), path, ref_context@, iv),
                    type_edges(f.typ@, path.push(f.name.value.0@), field_kind(f.sep == Sep::Required), ref_context@, iv),
                );
            }
            k += 1;
        }
        assert(fields@.subrange(0, fields@.len() as int) =~= fields@);
    }

    /// Appends the dependencies of anonymous oneof variants, each reached by
    /// `variant_{index}` and optional.
    fn extract_variants(
        variants: &Vec<Spanned<Type>>,
        deps: &mut Vec<TypeDependency>,
        field_path: &Vec<String>,
        ref_context: &RefContext,
        ns_ctx: &NamespaceCtx,
    )
        ensures
            deps_view(final(deps)@) == deps_view(old(deps)@) + variant_edges(
                types_view(variants@),
                strings_view(field_path@),
                ref_context@,
                imports_view(ns_ctx.imports@),
            ),
        decreases variants,
    {
        let ghost d0 = deps_view(deps@);
        let ghost path = strings_view(field_path@);
        let ghost iv = imports_view(ns_ctx.imports@);
        let mut k: usize = 0;
        assert(types_view(variants@.subrange(0, 0)) =~= Seq::empty());
        assert(deps_view(deps@) =~= d0 + Seq::empty());
        while k < variants.len()
            invariant
                k <= variants@.len(),
                path == strings_view(field_path@),
                iv == imports_view(ns_ctx.imports@),
                deps_view(deps@) == d0 + variant_edges(types_view(variants@.subrange(0, k as int)), path, ref_context@, iv),
            decreases variants@.len() - k,
        {
            proof {
                assert(decreases_to!(*variants => variants@));
                assert(decreases_to!(variants@ => variants@[k as int]));
                assert(decreases_to!(variants@[k as int] => variants@[k as int].value));
            }
            let new_path = path_with(field_path, label("variant_", k));
            Self::extract_from_type(&variants[k].value, deps, new_path, EdgeKind::Optional, ref_context, ns_ctx);
            proof {
                let sub = variants@.subrange(0, k + 1);
                assert(sub.drop_last() =~= variants@.subrange(0, k as int));
                let tv = types_view(sub);
                lemma_types_view(sub);
                assert(tv.drop_last() =~= types_view(variants@.subrange(0, k as int)));
                assert(tv.len() == k + 1);
                lemma_concat_assoc(
                    d0,
                    variant_edges(types_view(variants@.subrange(0, k as int)), path, ref_context@, iv),
                    type_edges(variants@[k as int].value@, path.push(indexed("variant_"@, k as nat)), EdgeKind::Optional, ref_context@, iv),
                );
            }
            k += 1;
        }
        assert(variants@.subrange(0, variants@.len() as int) =~= variants@);
    }

    /// Appends the dependencies of union members, each reached by
    /// `{prefix}{index}` and held as `current_kind`.
    fn extract_members(
        members: &Vec<Spanned<IdentOrUnion>>,
        deps: &mut Vec<TypeDependency>,
        field_path: &Vec<String>,
        prefix: &str,
        current_kind: EdgeKind,
        ref_context: &RefContext,
        ns_ctx: &NamespaceCtx,
    )
        ensures
            deps_view(final(deps)@) == deps_view(old(deps)@) + member_edges(
                union_view(members@),
                strings_view(field_path@),
                prefix@,
                current_kind,
                ref_context@,
                imports_view(ns_ctx.imports@),
            ),
        decreases members,
    {
        let ghost d0 = deps_view(deps@);
        let ghost path = strings_view(field_path@);
        let ghost iv = imports_view(ns_ctx.imports@);
        let mut k: usize = 0;
        assert(union_view(members@.subrange(0, 0)) =~= Seq::empty());
        assert(deps_view(deps@) =~= d0 + Seq::empty());
        while k < members.len()
            invariant
                k <= members@.len(),
                path == strings_view(field_path@),
                iv == imports_view(ns_ctx.imports@),
                deps_view(deps@) == d0 + member_edges(union_view(members@.subrange(0, k as int)), path, prefix@, current_kind, ref_context@, iv),
            decreases members@.len() - k,
        {
            proof {
                assert(decreases_to!(*members => members@));
                assert(decreases_to!(members@ => members@[k as int]));
                assert(decreases_to!(members@[k as int] => members@[k as int].value));
            }
            let new_path = path_with(field_path, label(prefix, k));
            Self::extract_from_union_member(&members[k].value, deps, new_path, current_kind, ref_context, ns_ctx);
            proof {
                let sub = members@.subrange(0, k + 1);
                assert(sub.drop_last() =~= members@.subrange(0, k as int));
                let uv = union_view(sub);
                lemma_union_view(sub);
                assert(uv.drop_last() =~= union_view(members@.subrange(0, k as int)));
                assert(uv.len() == k + 1);
                lemma_concat_assoc(
                    d0,
                    member_edges(union_view(members@.subrange(0, k as int)), path, prefix@, current_kind, ref_context@, iv),
                    one_member_edges(operand_view(members@[k as int].value), path.push(indexed(prefix@, k as nat)), current_kind, ref_context@, iv),
                );
            }
            k += 1;
        }
        assert(members@.subrange(0, members@.len() as int) =~= members@);
    }

    /// Appends the dependencies of one union member: a reference is one
    /// dependency, an inline struct gives its fields, a nested union its
    /// members under `nested_{index}`.
    fn extract_from_union_member(
        member: &IdentOrUnion,
        deps: &mut Vec<TypeDependency>,
        field_path: Vec<String>,
        current_kind: EdgeKind,
        ref_context: &RefContext,
        ns_ctx: &NamespaceCtx,
    )
        ensures
            deps_view(final(deps)@) == deps_view(old(deps)@) + one_member_edges(
                operand_view(*member),
                strings_view(field_path@),
                current_kind,
                ref_context@,
                imports_view(ns_ctx.imports@),
            ),
        decreases member,
    {
        let ghost d0 = deps_view(deps@);
        let ghost path = strings_view(field_path@);
        let ghost iv = imports_view(ns_ctx.imports@);
        match member {
            IdentOrUnion::Ident(UnionDiscriminant::Ref(p)) => {
                let candidates = Self::generate_candidates(p, ref_context, ns_ctx);
                push_dep(deps, TypeDependency::with_candidates(candidates, current_kind, field_path));
                assert(deps_view(deps@) =~= d0 + one_member_edges(operand_view(*member), path, current_kind, ref_context@, iv));
            },
            IdentOrUnion::Ident(UnionDiscriminant::Anonymous(a)) => {
                proof {
                    assert(decreases_to!(*member => (*member)->Ident_0));
                    assert(decreases_to!((*member)->Ident_0 => (*member)->Ident_0->Anonymous_0));
                    assert(decreases_to!((*member)->Ident_0->Anonymous_0 => (*member)->Ident_0->Anonymous_0.value));
                    assert(decreases_to!((*member)->Ident_0->Anonymous_0.value => (*member)->Ident_0->Anonymous_0.value.fields));
                }
                Self::extract_fields(&a.value.fields, deps, &field_path, ref_context, ns_ctx);
            },
            IdentOrUnion::Union { inner } => {
                proof {
                    assert(decreases_to!(*member => (*member)->inner));
                    assert(decreases_to!((*member)->inner => (*member)->inner.value));
                    assert(decreases_to!((*member)->inner.value => (*member)->inner.value.types));
                }
                Self::extract_members(&inner.value.types, deps, &field_path, "nested_", current_kind, ref_context, ns_ctx);
            },
        }
    }
}

/// The dependencies of a variant of a named oneof or error: a tuple variant
/// holds its type optionally under the variant's name, a struct variant its
/// fields under `[variant, field]`, a unit variant nothing.
pub open spec fn named_variant_edges(v: Variant, ctx: RefContextV, imports: Seq<ImportV>) -> Seq<DepV> {
    match v {
        Variant::Tuple { name, inner, .. } => type_edges(inner@, seq![name.value.0@], EdgeKind::Optional, ctx, imports),
        Variant::LocalStruct { name, inner, .. } => field_edges(args_view(inner.value.fields@), seq![name.value.0@], ctx, imports),
        Variant::Unit { .. } => Seq::empty(),
    }
}

pub open spec fn named_variants_edges(vs: Seq<Spanned<Variant>>, ctx: RefContextV, imports: Seq<ImportV>) -> Seq<DepV>
    decreases vs.len(),
{
    if vs.len() == 0 {
        Seq::empty()
    } else {
        named_variants_edges(vs.drop_last(), ctx, imports) + named_variant_edges(vs.last().value, ctx, imports)
    }
}

/// The dependencies of operation parameters: each is required, under
/// `param:{name}`.
pub open spec fn param_edges(params: Seq<ArgV>, ctx: RefContextV, imports: Seq<ImportV>) -> Seq<DepV>
    decreases params.len(),
{
    if params.len() == 0 {
        Seq::empty()
    } else {
        let p = params.last();
        param_edges(params.drop_last(), ctx, imports)
            + type_edges(p.typ, seq!["param:"@ + p.name], EdgeKind::Required, ctx, imports)
    }
}

/// The dependencies of an operation: its parameters, then its return type,
/// required, under `return`.
pub open spec fn operation_edges(op: Operation, ctx: RefContextV, imports: Seq<ImportV>) -> Seq<DepV> {
    (match op.args {
        Some(a) => param_edges(args_view(a.value@), ctx, imports),
        None => Seq::empty(),
    }) + type_edges(op.return_type.value@, seq!["return"@], EdgeKind::Required, ctx, imports)
}

/// The dependencies of an item of a namespace. Enums hold no types, and
/// nested namespaces are graphs of their own.
pub open spec fn child_edges(c: NamespaceChild, ctx: RefContextV, imports: Seq<ImportV>) -> Seq<DepV> {
    match c {
        NamespaceChild::Struct(d) => field_edges(args_view(d.def.value.args@), Seq::empty(), ctx, imports),
        NamespaceChild::OneOf(d) => named_variants_edges(d.def.value.variants@, ctx, imports),
        NamespaceChild::Error(d) => named_variants_edges(d.def.value.variants@, ctx, imports),
        NamespaceChild::Type(d) => type_edges(d.def.value.ty.value@, Seq::empty(), EdgeKind::Required, ctx, imports),
        NamespaceChild::Operation(d) => operation_edges(d.def.value, ctx, imports),
        NamespaceChild::Enum(_) => Seq::empty(),
        NamespaceChild::Namespace(_) => Seq::empty(),
    }
}

proof fn lemma_empty_path(v: Vec<String>)
    requires
        v@.len() == 0,
    ensures
        strings_view(v@) == Seq::<Seq<char>>::empty(),
{
    assert(strings_view(v@) =~= Seq::<Seq<char>>::empty());
}

impl TypeExtractor {
    fn extract_from_struct(struct_def: &Struct, ref_context: &RefContext, ns_ctx: &NamespaceCtx) -> (r: Vec<TypeDependency>)
        ensures
            deps_view(r@) == field_edges(args_view(struct_def.args@), Seq::empty(), ref_context@, imports_view(ns_ctx.imports@)),
    {
        let mut deps: Vec<TypeDependency> = Vec::new();
        let root: Vec<String> = Vec::new();
        proof {
            lemma_empty_path(root);
            assert(deps_view(deps@) =~= Seq::empty());
        }
        Self::extract_fields(&struct_def.args, &mut deps, &root, ref_context, ns_ctx);
        deps
    }

    /// The dependencies of the variants of a named oneof or error.
    fn extract_named_variants(variants: &Vec<Spanned<Variant>>, ref_context: &RefContext, ns_ctx: &NamespaceCtx) -> (r: Vec<TypeDependency>)
        ensures
            deps_view(r@) == named_variants_edges(variants@, ref_context@, imports_view(ns_ctx.imports@)),
    {
        let ghost iv = imports_view(ns_ctx.imports@);
        let mut deps: Vec<TypeDependency> = Vec::new();
        let mut k: usize = 0;
        assert(deps_view(deps@) =~= Seq::empty());
        assert(variants@.subrange(0, 0) =~= Seq::<Spanned<Variant>>::empty());
        while k < variants.len()
            invariant
                k <= variants@.len(),
                iv == imports_view(ns_ctx.imports@),
                deps_view(deps@) == named_variants_edges(variants@.subrange(0, k as int), ref_context@, iv),
            decreases variants@.len() - k,
        {
            let ghost before = deps_view(deps@);
            match &variants[k].value {
                Variant::Tuple { name, inner, .. } => {
                    let mut p: Vec<String> = Vec::new();
                    p.push(name.value.0.clone());
                    assert(strings_view(p@) =~= seq![name.value.0@]);
                    Self::extract_from_type(inner, &mut deps, p, EdgeKind::Optional, ref_context, ns_ctx);
                },
                Variant::LocalStruct { name, inner, .. } => {
                    let mut p: Vec<String> = Vec::new();
                    p.push(name.value.0.clone());
                    assert(strings_view(p@) =~= seq![name.value.0@]);
                    Self::extract_fields(&inner.value.fields, &mut deps, &p, ref_context, ns_ctx);
                },
                Variant::Unit { .. } => {
                    assert(deps_view(deps@) =~= before + Seq::empty());
                },
            }
            proof {
                assert(variants@.subrange(0, k + 1).drop_last() =~= variants@.subrange(0, k as int));
            }
            k += 1;
        }
        assert(variants@.subrange(0, variants@.len() as int) =~= variants@);
        deps
    }

    fn extract_from_oneof(oneof_def: &OneOf, ref_context: &RefContext, ns_ctx: &NamespaceCtx) -> (r: Vec<TypeDependency>)
        ensures
            deps_view(r@) == named_variants_edges(oneof_def.variants@, ref_context@, imports_view(ns_ctx.imports@)),
    {
        Self::extract_named_variants(&oneof_def.variants, ref_context, ns_ctx)
    }

    fn extract_from_error(error_def: &OneOf, ref_context: &RefContext, ns_ctx: &NamespaceCtx) -> (r: Vec<TypeDependency>)
        ensures
            deps_view(r@) == named_variants_edges(error_def.variants@, ref_context@, imports_view(ns_ctx.imports@)),
    {
        Self::extract_named_variants(&error_def.variants, ref_context, ns_ctx)
    }

    fn extract_from_type_alias(type_def: &TypeAlias, ref_context: &RefContext, ns_ctx: &NamespaceCtx) -> (r: Vec<TypeDependency>)
        ensures
            deps_view(r@) == type_edges(type_def.ty.value@, Seq::empty(), EdgeKind::Required, ref_context@, imports_view(ns_ctx.imports@)),
    {
        let mut deps: Vec<TypeDependency> = Vec::new();
        let root: Vec<String> = Vec::new();
        proof {
            lemma_empty_path(root);
            assert(deps_view(deps@) =~= Seq::empty());
        }
        Self::extract_from_type(&type_def.ty.value, &mut deps, root, EdgeKind::Required, ref_context, ns_ctx);
        deps
    }

    fn extract_from_operation(op_def: &Operation, ref_context: &RefContext, ns_ctx: &NamespaceCtx) -> (r: Vec<TypeDependency>)
        ensures
            deps_view(r@) == operation_edges(*op_def, ref_context@, imports_view(ns_ctx.imports@)),
    {
        let ghost iv = imports_view(ns_ctx.imports@);
        let mut deps: Vec<TypeDependency> = Vec::new();
        assert(deps_view(deps@) =~= Seq::empty());
        match &op_def.args {
            Some(args) => {
                let params = &args.value;
                let mut k: usize = 0;
                assert(args_view(params@.subrange(0, 0)) =~= Seq::empty());
                while k < params.len()
                    invariant
                        params == &args.value,
                        k <= params@.len(),
                        iv == imports_view(ns_ctx.imports@),
                        deps_view(deps@) == param_edges(args_view(params@.subrange(0, k as int)), ref_context@, iv),
                    decreases params@.len() - k,
                {
                    let p = &params[k].value;
                    let mut label = String::from_str("param:");
                    append_string(&mut label, &p.name.value.0);
                    let mut path: Vec<String> = Vec::new();
                    path.push(label);
                    assert(strings_view(path@) =~= seq!["param:"@ + p.name.value.0@]);
                    Self::extract_from_type(&p.typ, &mut deps, path, EdgeKind::Required, ref_context, ns_ctx);
                    proof {
                        let sub = params@.subrange(0, k + 1);
                        assert(sub.drop_last() =~= params@.subrange(0, k as int));
                        assert(args_view(sub).drop_last() =~= args_view(params@.subrange(0, k as int)));
                        assert(args_view(sub).last() == arg_view(*p));
                    }
                    k += 1;
                }
                assert(params@.subrange(0, params@.len() as int) =~= params@);
            },
            None => {},
        }
        let ghost mid = deps_view(deps@);
        let mut ret: Vec<String> = Vec::new();
        ret.push(String::from_str("return"));
        assert(strings_view(ret@) =~= seq!["return"@]);
        Self::extract_from_type(&op_def.return_type.value, &mut deps, ret, EdgeKind::Required, ref_context, ns_ctx);
        deps
    }
}

/// The children of a namespace, as the graph is built from them.
pub type Children = Seq<(NamedItemContext, crate::common::FromNamedSource<NamespaceChild>)>;

/// `j` is the last of the first `k` children that declares `key`.
pub open spec fn last_child_with(children: Children, j: int, k: int, key: NamedItemContextV) -> bool {
    &&& 0 <= j < k
    &&& children[j].0@ == key
    &&& forall|m: int| j < m < k ==> children[m].0@ != key
}

/// The node holds the dependencies of the last of the first `k` children
/// that declares its item.
pub open spec fn node_recorded(
    node: (NamedItemContext, Vec<TypeDependency>),
    children: Children,
    k: int,
    ctx: RefContextV,
    imports: Seq<ImportV>,
) -> bool {
    exists|j: int| #[trigger] last_child_with(children, j, k, node.0@)
        && deps_view(node.1@) == child_edges(children[j].1.value, ctx, imports)
}

/// The nodes record the first `k` children: every declared item has a node,
/// and every node holds the dependencies of the last child declaring it.
pub open spec fn records_children(
    nodes: Seq<(NamedItemContext, Vec<TypeDependency>)>,
    children: Children,
    k: int,
    ctx: RefContextV,
    imports: Seq<ImportV>,
) -> bool {
    &&& forall|i: int| 0 <= i < nodes.len() ==> #[trigger] node_recorded(nodes[i], children, k, ctx, imports)
    &&& forall|j: int| 0 <= j < k ==> node_keys(nodes).contains(#[trigger] children[j].0@)
}

proof fn lemma_record_child(
    nodes0: Seq<(NamedItemContext, Vec<TypeDependency>)>,
    nodes1: Seq<(NamedItemContext, Vec<TypeDependency>)>,
    children: Children,
    k: int,
    name: NamedItemContext,
    deps: Vec<TypeDependency>,
    ctx: RefContextV,
    imports: Seq<ImportV>,
)
    requires
        0 <= k < children.len(),
        name@ == children[k].0@,
        deps_view(deps@) == child_edges(children[k].1.value, ctx, imports),
        unique_keys(node_keys(nodes0)),
        records_children(nodes0, children, k, ctx, imports),
        node_keys(nodes0).contains(name@) ==> exists|i: int| 0 <= i < nodes0.len()
            && nodes0[i].0@ == name@
            && nodes1 == nodes0.update(i, (nodes0[i].0, deps)),
        !node_keys(nodes0).contains(name@) ==> exists|p: int| 0 <= p <= nodes0.len()
            && nodes1 == nodes0.insert(p, (name, deps)),
    ensures
        records_children(nodes1, children, k + 1, ctx, imports),
{
    let ks0 = node_keys(nodes0);
    assert(last_child_with(children, k, k + 1, name@));
    if ks0.contains(name@) {
        let i0 = choose|i: int| 0 <= i < nodes0.len()
            && nodes0[i].0@ == name@
            && nodes1 == nodes0.update(i, (nodes0[i].0, deps));
        assert forall|i: int| 0 <= i < nodes1.len() implies #[trigger] node_recorded(nodes1[i], children, k + 1, ctx, imports) by {
            if i != i0 {
                assert(nodes1[i] == nodes0[i]);
                assert(ks0[i] != ks0[i0]);
                assert(node_recorded(nodes0[i], children, k, ctx, imports));
                let j = choose|j: int| #[trigger] last_child_with(children, j, k, nodes0[i].0@)
                    && deps_view(nodes0[i].1@) == child_edges(children[j].1.value, ctx, imports);
                assert(last_child_with(children, j, k + 1, nodes1[i].0@));
            } else {
                assert(nodes1[i] == (nodes0[i0].0, deps));
                assert(last_child_with(children, k, k + 1, nodes1[i].0@));
            }
        }
        assert forall|j: int| 0 <= j < k + 1 implies node_keys(nodes1).contains(#[trigger] children[j].0@) by {
            let ks1 = node_keys(nodes1);
            if j == k {
                assert(ks1[i0] == name@);
            } else {
                assert(ks0.contains(children[j].0@));
                let i = choose|i: int| 0 <= i < ks0.len() && ks0[i] == children[j].0@;
                assert(ks1[i] == ks0[i]);
            }
        }
    } else {
        let p = choose|p: int| 0 <= p <= nodes0.len() && nodes1 == nodes0.insert(p, (name, deps));
        assert forall|i: int| 0 <= i < nodes1.len() implies #[trigger] node_recorded(nodes1[i], children, k + 1, ctx, imports) by {
            if i != p {
                let i1 = if i < p { i } else { i - 1 };
                assert(nodes1[i] == nodes0[i1]);
                assert(ks0[i1] == nodes0[i1].0@);
                assert(node_recorded(nodes0[i1], children, k, ctx, imports));
                let j = choose|j: int| #[trigger] last_child_with(children, j, k, nodes0[i1].0@)
                    && deps_view(nodes0[i1].1@) == child_edges(children[j].1.value, ctx, imports);
                assert(last_child_with(children, j, k + 1, nodes1[i].0@));
            }
        }
        assert forall|j: int| 0 <= j < k + 1 implies node_keys(nodes1).contains(#[trigger] children[j].0@) by {
            let ks1 = node_keys(nodes1);
            if j == k {
                assert(ks1[p] == name@);
            } else {
                assert(ks0.contains(children[j].0@));
                let i = choose|i: int| 0 <= i < ks0.len() && ks0[i] == children[j].0@;
                if i < p {
                    assert(ks1[i] == ks0[i]);
                } else {
                    assert(ks1[i + 1] == ks0[i]);
                }
            }
        }
    }
}

impl TypeExtractor {
    /// The dependency graph of a namespace: a node for each item it
    /// declares, in path order, with the dependencies of its last
    /// declaration. Enums depend on nothing; nested namespaces are left to
    /// their own graphs.
    pub fn extract_from_namespace(ns_ctx: &NamespaceCtx, ref_context: &RefContext) -> (r: TypeDependencyGraph)
        ensures
            r.wf(),
            sorted_keys(r.keys()),
            records_children(r.nodes(), ns_ctx.children@, ns_ctx.children@.len() as int, ref_context@, imports_view(ns_ctx.imports@)),
    {
        let ghost iv = imports_view(ns_ctx.imports@);
        let ghost children = ns_ctx.children@;
        let mut graph = TypeDependencyGraph::new();
        let mut k: usize = 0;
        while k < ns_ctx.children.len()
            invariant
                k <= children.len(),
                children == ns_ctx.children@,
                iv == imports_view(ns_ctx.imports@),
                graph.wf(),
                records_children(graph.nodes(), children, k as int, ref_context@, iv),
            decreases children.len() - k,
        {
            let item_ctx = &ns_ctx.children[k].0;
            let child = &ns_ctx.children[k].1;
            let dependencies = match &child.value {
                NamespaceChild::Struct(d) => Self::extract_from_struct(&d.def.value, ref_context, ns_ctx),
                NamespaceChild::OneOf(d) => Self::extract_from_oneof(&d.def.value, ref_context, ns_ctx),
                NamespaceChild::Error(d) => Self::extract_from_error(&d.def.value, ref_context, ns_ctx),
                NamespaceChild::Type(d) => Self::extract_from_type_alias(&d.def.value, ref_context, ns_ctx),
                NamespaceChild::Operation(d) => Self::extract_from_operation(&d.def.value, ref_context, ns_ctx),
                NamespaceChild::Enum(_) => {
                    let v: Vec<TypeDependency> = Vec::new();
                    assert(deps_view(v@) =~= Seq::empty());
                    v
                },
                NamespaceChild::Namespace(_) => {
                    let v: Vec<TypeDependency> = Vec::new();
                    assert(deps_view(v@) =~= Seq::empty());
                    v
                },
            };
            let ghost nodes0 = graph.nodes();
            proof {
                graph.lemma_wf();
            }
            let name = item_ctx.duplicate();
            let ghost name_g = name;
            let ghost deps_g = dependencies;
            graph.add_type(name, dependencies);
            proof {
                lemma_record_child(nodes0, graph.nodes(), children, k as int, name_g, deps_g, ref_context@, iv);
            }
            k += 1;
        }
        proof {
            graph.lemma_wf();
        }
        graph
    }
}

} // verus!
