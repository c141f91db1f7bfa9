//! Merging the operands of `A &| B`: each operand must denote a struct,
//! reached through aliases; fields of one name are merged, and a field
//! whose operands disagree on its type becomes a oneof of the types.
use vstd::prelude::*;
use crate::defs::{RawSpan, Span, Spanned};
use crate::ast::{AnonymousStruct, Arg, CommentStream, PathOrIdent, Type, TypeV, arg_view, reference_text, type_kind_name};
use crate::ast_ops::{dup_arg, dup_type};
use crate::common::{NamespaceChild, NamespaceCtx, child_kind_name};
use crate::helpers::{first_field, lemma_first_field};
use crate::ordmap::{StrMap, seq_lt};
use crate::union_check::local_child;
use crate::union_or::{build_oneof_type, oneof_of, views_of};

verus! {

/// Why an operand of `&|` cannot be merged, as values.
pub enum OrIssue {
    /// An operand that is not a struct: its name, what it is, where.
    NonStruct(Seq<char>, Seq<char>, RawSpan),
    /// An operand that names nothing.
    Undefined(Seq<char>, RawSpan),
}

/// Why an operand of `&|` cannot be merged.
#[derive(Debug)]
pub enum UnionOrError {
    NonStructOperand { operand: String, found_type: String, span: RawSpan },
    UndefinedType { name: String, span: RawSpan },
}

impl View for UnionOrError {
    type V = OrIssue;

    open spec fn view(&self) -> OrIssue {
        match self {
            UnionOrError::NonStructOperand { operand, found_type, span } => OrIssue::NonStruct(operand@, found_type@, *span),
            UnionOrError::UndefinedType { name, span } => OrIssue::Undefined(name@, *span),
        }
    }
}

/// How many aliases a chain of references may pass through: one more than
/// there are aliases to pass, so a longer chain repeats one.
pub open spec fn chain_bound(ns: NamespaceCtx, resolved: StrMap<Spanned<Type>>) -> nat {
    resolved.entries().len() + ns.children@.len() + 1
}

/// The fields an operand brings: a struct its own; a name is looked up
/// among the resolved aliases (and followed), then among the namespace's
/// items, where a struct brings its fields and an alias is followed;
/// parentheses are looked through. `None` when the chain passes more than
/// `fuel` aliases.
pub open spec fn operand_fields(t: Type, span: RawSpan, ns: NamespaceCtx, resolved: StrMap<Spanned<Type>>, fuel: nat)
    -> Option<Result<Seq<Spanned<Arg>>, OrIssue>>
    decreases fuel, t,
{
    match t {
        Type::Struct { ty } => Some(Ok(ty.value.fields@)),
        Type::Ident { to: PathOrIdent::Path(p) } => Some(Err(OrIssue::NonStruct(
            reference_text(PathOrIdent::Path(p)@), "path reference"@, span))),
        Type::Ident { to: PathOrIdent::Ident(i) } => {
            let name = i.value.0@;
            match resolved.spec_get(name) {
                Some(r) => if fuel == 0 {
                    None
                } else {
                    operand_fields(r.value, span, ns, resolved, (fuel - 1) as nat)
                },
                None => match local_child(ns, name) {
                    Some(j) => match ns.children@[j].1.value {
                        NamespaceChild::Struct(sd) => Some(Ok(sd.def.value.args@)),
                        NamespaceChild::Type(td) => if fuel == 0 {
                            None
                        } else {
                            operand_fields(td.def.value.ty.value, span, ns, resolved, (fuel - 1) as nat)
                        },
                        other => Some(Err(OrIssue::NonStruct(name, child_kind_name(other), span))),
                    },
                    None => Some(Err(OrIssue::Undefined(name, span))),
                },
            }
        },
        Type::Paren { ty } => operand_fields(ty.value, span, ns, resolved, fuel),
        _ => Some(Err(OrIssue::NonStruct("<expression>"@, type_kind_name(t@), span))),
    }
}

/// `a` is a copy of `b`: same spans and fields.
pub open spec fn same_args(a: Seq<Spanned<Arg>>, b: Seq<Spanned<Arg>>) -> bool {
    &&& a.len() == b.len()
    &&& forall|x: int| 0 <= x < a.len() ==> {
        &&& (#[trigger] a[x]).span == b[x].span
        &&& a[x].value.name.span == b[x].value.name.span
        &&& arg_view(a[x].value) == arg_view(b[x].value)
    }
}

fn copy_args(v: &Vec<Spanned<Arg>>) -> (r: Vec<Spanned<Arg>>)
    ensures
        same_args(r@, v@),
{
    let mut out: Vec<Spanned<Arg>> = Vec::new();
    let mut k: usize = 0;
    while k < v.len()
        invariant
            k <= v@.len(),
            same_args(out@, v@.subrange(0, k as int)),
        decreases v@.len() - k,
    {
        let a = dup_arg(&v[k].value);
        out.push(Spanned { span: v[k].span, value: a });
        k += 1;
    }
    assert(v@.subrange(0, v@.len() as int) =~= v@);
    out
}

/// The fields of an operand, as `operand_fields` says, following at most
/// `fuel` aliases.
fn extract_struct_fields_inner(
    typ: &Type,
    operand_span: RawSpan,
    ns: &NamespaceCtx,
    resolved_aliases: &StrMap<Spanned<Type>>,
    Ghost(fuel): Ghost<nat>,
) -> (r: Result<Vec<Spanned<Arg>>, UnionOrError>)
    requires
        resolved_aliases.wf(),
        operand_fields(*typ, operand_span, *ns, *resolved_aliases, fuel) is Some,
    ensures
        match operand_fields(*typ, operand_span, *ns, *resolved_aliases, fuel) {
            Some(Ok(s)) => r matches Ok(v) && same_args(v@, s),
            Some(Err(i)) => r matches Err(e) && e@ == i,
            None => false,
        },
    decreases fuel, typ,
{
    match typ {
        Type::Struct { ty } => Ok(copy_args(&ty.value.fields)),
        Type::Ident { to } => match to {
            PathOrIdent::Path(_) => Err(UnionOrError::NonStructOperand {
                operand: to.display(),
                found_type: String::from_str("path reference"),
                span: operand_span,
            }),
            PathOrIdent::Ident(ident) => {
                let ident_name = &ident.value.0;
                match resolved_aliases.get(ident_name) {
                    Some(resolved) => extract_struct_fields_inner(&resolved.value, operand_span, ns, resolved_aliases, Ghost((fuel - 1) as nat)),
                    None => match crate::union_check::find_local(ns, ident_name) {
                        Some(j) => match &ns.children[j].1.value {
                            NamespaceChild::Struct(struct_def) => Ok(copy_args(&struct_def.def.value.args)),
                            NamespaceChild::Type(type_def) => extract_struct_fields_inner(
                                &type_def.def.value.ty.value, operand_span, ns, resolved_aliases, Ghost((fuel - 1) as nat)),
                            other => Err(UnionOrError::NonStructOperand {
                                operand: ident_name.clone(),
                                found_type: other.kind_name(),
                                span: operand_span,
                            }),
                        },
                        None => Err(UnionOrError::UndefinedType { name: ident_name.clone(), span: operand_span }),
                    },
                }
            },
        },
        Type::Paren { ty } => {
            proof {
                assert(decreases_to!(*typ => (*typ)->Paren_ty));
                assert(decreases_to!((*typ)->Paren_ty => (*typ)->Paren_ty.value));
            }
            extract_struct_fields_inner(&ty.value, operand_span, ns, resolved_aliases, Ghost(fuel))
        },
        other => Err(UnionOrError::NonStructOperand {
            operand: String::from_str("<expression>"),
            found_type: other.kind_name(),
            span: operand_span,
        }),
    }
}

/// The fields of a spanned operand, its span marking errors.
fn extract_struct_fields_spanned(
    typ: &Spanned<Type>,
    ns: &NamespaceCtx,
    resolved_aliases: &StrMap<Spanned<Type>>,
) -> (r: Result<Vec<Spanned<Arg>>, UnionOrError>)
    requires
        resolved_aliases.wf(),
        operand_fields(typ.value, typ.span.spec_raw(), *ns, *resolved_aliases, chain_bound(*ns, *resolved_aliases)) is Some,
    ensures
        match operand_fields(typ.value, typ.span.spec_raw(), *ns, *resolved_aliases, chain_bound(*ns, *resolved_aliases)) {
            Some(Ok(s)) => r matches Ok(v) && same_args(v@, s),
            Some(Err(i)) => r matches Err(e) && e@ == i,
            None => false,
        },
{
    extract_struct_fields_inner(&typ.value, typ.span(), ns, resolved_aliases, Ghost(chain_bound(*ns, *resolved_aliases)))
}

/// The fields the operands bring, in order, or the first operand's issue.
/// `None` when an operand's chain of aliases is too long to end.
pub open spec fn operands_fields(ops: Seq<Spanned<Type>>, ns: NamespaceCtx, resolved: StrMap<Spanned<Type>>)
    -> Option<Result<Seq<Spanned<Arg>>, OrIssue>>
    decreases ops.len(),
{
    if ops.len() == 0 {
        Some(Ok(Seq::empty()))
    } else {
        match operands_fields(ops.drop_last(), ns, resolved) {
            Some(Ok(a)) => match operand_fields(ops.last().value, ops.last().span.spec_raw(), ns, resolved, chain_bound(ns, resolved)) {
                Some(Ok(b)) => Some(Ok(a + b)),
                other => other,
            },
            other => other,
        }
    }
}

/// The types of the fields named `k`, in order.
pub open spec fn types_named(all: Seq<Spanned<Arg>>, k: Seq<char>) -> Seq<TypeV>
    decreases all.len(),
{
    if all.len() == 0 {
        Seq::empty()
    } else {
        types_named(all.drop_last(), k) + if all.last().value.name.value.0@ == k {
            seq![all.last().value.typ@]
        } else {
            Seq::empty()
        }
    }
}

/// The type a merged field named `k` gets, `j` being its first field: a
/// oneof of the types when several fields have that name, else its own.
pub open spec fn merged_field_type(all: Seq<Spanned<Arg>>, k: Seq<char>, j: int) -> TypeV {
    let ts = types_named(all, k);
    if ts.len() > 1 { oneof_of(ts) } else { all[j].value.typ@ }
}

/// `f` is the merge of the fields named like it: their first field's name
/// and separator, the merged type, no comments, made up at the call site.
pub open spec fn is_merged_field(all: Seq<Spanned<Arg>>, f: Spanned<Arg>) -> bool {
    let k = f.value.name.value.0@;
    &&& first_field(all, k, 0) matches Some(j) && {
        &&& f.value.name.span == all[j].value.name.span
        &&& f.value.sep == all[j].value.sep
        &&& f.value.typ@ == merged_field_type(all, k, j)
    }
    &&& f.span == Span::CallSite
    &&& f.value.comments.comments@.len() == 0
}

/// `t` is the anonymous struct of the merged fields, one for each name, in
/// name order.
pub open spec fn is_merge_struct(all: Seq<Spanned<Arg>>, t: Type) -> bool {
    &&& t is Struct
    &&& t->Struct_ty.span == Span::CallSite
    &&& {
        let fs = t->Struct_ty.value.fields@;
        &&& forall|i: int, j: int| 0 <= i < j < fs.len()
            ==> seq_lt(#[trigger] fs[i].value.name.value.0@, #[trigger] fs[j].value.name.value.0@)
        &&& forall|i: int| 0 <= i < fs.len() ==> #[trigger] is_merged_field(all, fs[i])
        &&& forall|k: Seq<char>| #[trigger] first_field(all, k, 0) is Some
            ==> exists|i: int| 0 <= i < fs.len() && fs[i].value.name.value.0@ == k
    }
}

proof fn lemma_same_args_concat(a: Seq<Spanned<Arg>>, b: Seq<Spanned<Arg>>, c: Seq<Spanned<Arg>>, d: Seq<Spanned<Arg>>)
    requires
        same_args(a, c),
        same_args(b, d),
    ensures
        same_args(a + b, c + d),
{
    assert forall|x: int| 0 <= x < (a + b).len() implies {
        &&& (#[trigger] (a + b)[x]).span == (c + d)[x].span
        &&& (a + b)[x].value.name.span == (c + d)[x].value.name.span
        &&& arg_view((a + b)[x].value) == arg_view((c + d)[x].value)
    } by {
        if x < a.len() {
            assert((a + b)[x] == a[x] && (c + d)[x] == c[x]);
        } else {
            assert((a + b)[x] == b[x - a.len()] && (c + d)[x] == d[x - a.len()]);
        }
    }
}

proof fn lemma_same_args_first_field(a: Seq<Spanned<Arg>>, b: Seq<Spanned<Arg>>, k: Seq<char>, i: int)
    requires
        same_args(a, b),
        0 <= i <= a.len(),
    ensures
        first_field(a, k, i) == first_field(b, k, i),
    decreases a.len() - i,
{
    if i < a.len() {
        assert(arg_view(a[i].value) == arg_view(b[i].value));
        lemma_same_args_first_field(a, b, k, i + 1);
    }
}

proof fn lemma_same_args_types(a: Seq<Spanned<Arg>>, b: Seq<Spanned<Arg>>, k: Seq<char>)
    requires
        same_args(a, b),
    ensures
        types_named(a, k) == types_named(b, k),
    decreases a.len(),
{
    if a.len() > 0 {
        assert(same_args(a.drop_last(), b.drop_last()));
        assert(arg_view(a.last().value) == arg_view(b.last().value));
        lemma_same_args_types(a.drop_last(), b.drop_last(), k);
    }
}

/// The types of the fields named `k`, in order.
fn collect_types(all: &Vec<Spanned<Arg>>, k: &String) -> (r: Vec<Type>)
    ensures
        views_of(r@) == types_named(all@, k@),
{
    let mut out: Vec<Type> = Vec::new();
    let mut i: usize = 0;
    while i < all.len()
        invariant
            i <= all@.len(),
            views_of(out@) == types_named(all@.subrange(0, i as int), k@),
        decreases all@.len() - i,
    {
        let ghost before = out@;
        proof {
            assert(all@.subrange(0, i + 1).drop_last() =~= all@.subrange(0, i as int));
        }
        if crate::text::str_eq(&all[i].value.name.value.0, k) {
            out.push(dup_type(&all[i].value.typ));
            assert(views_of(out@) =~= views_of(before) + seq![all@[i as int].value.typ@]);
        } else {
            assert(views_of(out@) =~= views_of(before) + Seq::<TypeV>::empty());
        }
        i += 1;
    }
    assert(all@.subrange(0, all@.len() as int) =~= all@);
    out
}

/// `m` holds, under each name, a copy of the first field of that name in
/// `all`.
pub open spec fn firsts_of(m: StrMap<Spanned<Arg>>, all: Seq<Spanned<Arg>>) -> bool {
    forall|k: Seq<char>| match #[trigger] m.spec_get(k) {
        Some(a) => first_field(all, k, 0) matches Some(j)
            && a.span == all[j].span
            && a.value.name.span == all[j].value.name.span
            && arg_view(a.value) == arg_view(all[j].value),
        None => first_field(all, k, 0) is None,
    }
}

/// The first field of each name among `all`, by name.
fn first_fields(all: &Vec<Spanned<Arg>>) -> (m: StrMap<Spanned<Arg>>)
    ensures
        m.wf(),
        firsts_of(m, all@),
{
    let mut m: StrMap<Spanned<Arg>> = StrMap::new();
    let mut i: usize = 0;
    while i < all.len()
        invariant
            i <= all@.len(),
            m.wf(),
            forall|k: Seq<char>| match #[trigger] m.spec_get(k) {
                Some(a) => first_field(all@.subrange(0, i as int), k, 0) matches Some(j)
                    && a.span == all@[j].span
                    && a.value.name.span == all@[j].value.name.span
                    && arg_view(a.value) == arg_view(all@[j].value),
                None => first_field(all@.subrange(0, i as int), k, 0) is None,
            },
        decreases all@.len() - i,
    {
        let ghost before = m;
        let ghost pre = all@.subrange(0, i as int);
        let ghost post = all@.subrange(0, i + 1);
        proof {
            assert(post =~= pre.push(all@[i as int]));
            assert forall|k: Seq<char>| #[trigger] first_field(post, k, 0) == match first_field(pre, k, 0) {
                Some(j) => Some(j),
                None => if all@[i as int].value.name.value.0@ == k { Some(i as int) } else { None },
            } by {
                crate::helpers::lemma_first_field_push(pre, all@[i as int], k, 0);
            }
        }
        let name = &all[i].value.name.value.0;
        if !m.contains_key(name) {
            let a = Spanned { span: all[i].span, value: dup_arg(&all[i].value) };
            m.insert(name.clone(), a);
            proof {
                assert forall|k: Seq<char>| match #[trigger] m.spec_get(k) {
                    Some(a) => first_field(post, k, 0) matches Some(j)
                        && a.span == all@[j].span
                        && a.value.name.span == all@[j].value.name.span
                        && arg_view(a.value) == arg_view(all@[j].value),
                    None => first_field(post, k, 0) is None,
                } by {
                    if k != name@ {
                        assert(m.spec_get(k) == before.spec_get(k));
                    }
                }
            }
        } else {
            proof {
                assert forall|k: Seq<char>| match #[trigger] m.spec_get(k) {
                    Some(a) => first_field(post, k, 0) matches Some(j)
                        && a.span == all@[j].span
                        && a.value.name.span == all@[j].value.name.span
                        && arg_view(a.value) == arg_view(all@[j].value),
                    None => first_field(post, k, 0) is None,
                } by {
                    if k == name@ {
                        assert(m.spec_get(k) is Some);
                    }
                }
            }
        }
        i += 1;
    }
    assert(all@.subrange(0, all@.len() as int) =~= all@);
    assert(firsts_of(m, all@));
    m
}

/// The `i`-th entry of the first fields is the first field of its name.
proof fn lemma_entry_field(acc: Seq<Spanned<Arg>>, all: Seq<Spanned<Arg>>, m: StrMap<Spanned<Arg>>, i: int)
    requires
        m.wf(),
        firsts_of(m, acc),
        same_args(acc, all),
        0 <= i < m.entries().len(),
    ensures
        ({
            let key = m.entries()[i].0@;
            let first = m.entries()[i].1;
            &&& first_field(all, key, 0) matches Some(j) && {
                &&& first.value.name.value.0@ == key
                &&& first.value.name.span == all[j].value.name.span
                &&& first.value.sep == all[j].value.sep
                &&& first.value.typ@ == all[j].value.typ@
            }
            &&& types_named(acc, key) == types_named(all, key)
        }),
{
    let key = m.entries()[i].0@;
    m.lemma_unique_key(i, key);
    assert(m.spec_get(key) == Some(m.entries()[i].1));
    lemma_same_args_first_field(acc, all, key, 0);
    lemma_first_field(acc, key, 0);
    lemma_same_args_types(acc, all, key);
    let j = first_field(acc, key, 0)->Some_0;
    assert(arg_view(acc[j].value) == arg_view(all[j].value));
}

proof fn lemma_operands_fields_prefix(ops: Seq<Spanned<Type>>, ns: NamespaceCtx, resolved: StrMap<Spanned<Type>>, n: int)
    requires
        0 < n <= ops.len(),
        operands_fields(ops.subrange(0, n), ns, resolved) matches Some(Err(_)),
    ensures
        operands_fields(ops, ns, resolved) == operands_fields(ops.subrange(0, n), ns, resolved),
    decreases ops.len() - n,
{
    if n == ops.len() {
        assert(ops.subrange(0, n) =~= ops);
    } else {
        assert(ops.subrange(0, n + 1).drop_last() =~= ops.subrange(0, n));
        lemma_operands_fields_prefix(ops, ns, resolved, n + 1);
    }
}

proof fn lemma_operands_fields_some(ops: Seq<Spanned<Type>>, ns: NamespaceCtx, resolved: StrMap<Spanned<Type>>, n: int)
    requires
        0 <= n <= ops.len(),
        operands_fields(ops, ns, resolved) is Some,
        operands_fields(ops.subrange(0, n), ns, resolved) matches Some(Ok(_)),
        n < ops.len(),
    ensures
        operand_fields(ops[n].value, ops[n].span.spec_raw(), ns, resolved, chain_bound(ns, resolved)) is Some,
    decreases ops.len() - n,
{
    let sub = ops.subrange(0, n + 1);
    assert(sub.drop_last() =~= ops.subrange(0, n));
    assert(sub.last() == ops[n]);
    if operand_fields(ops[n].value, ops[n].span.spec_raw(), ns, resolved, chain_bound(ns, resolved)) is None {
        assert(operands_fields(sub, ns, resolved) is None);
        lemma_operands_fields_none(ops, ns, resolved, n + 1);
    }
}

proof fn lemma_operands_fields_none(ops: Seq<Spanned<Type>>, ns: NamespaceCtx, resolved: StrMap<Spanned<Type>>, n: int)
    requires
        0 < n <= ops.len(),
        operands_fields(ops.subrange(0, n), ns, resolved) is None,
    ensures
        operands_fields(ops, ns, resolved) is None,
    decreases ops.len() - n,
{
    if n == ops.len() {
        assert(ops.subrange(0, n) =~= ops);
    } else {
        assert(ops.subrange(0, n + 1).drop_last() =~= ops.subrange(0, n));
        lemma_operands_fields_none(ops, ns, resolved, n + 1);
    }
}

/// Merges the operands of a `&|` composition into one anonymous struct:
/// one field for each name, in name order, with the first such field's
/// name and separator, and, where several operands have the name, a oneof
/// of their distinct types. The first operand that is not a struct is
/// refused.
pub fn merge_union_or_operands(operands: &Vec<Spanned<Type>>, ns: &NamespaceCtx, resolved_aliases: &StrMap<Spanned<Type>>) -> (r: Result<Type, UnionOrError>)
    requires
        resolved_aliases.wf(),
        operands_fields(operands@, *ns, *resolved_aliases) is Some,
    ensures
        match operands_fields(operands@, *ns, *resolved_aliases) {
            Some(Ok(all)) => r matches Ok(t) && is_merge_struct(all, t),
            Some(Err(i)) => r matches Err(e) && e@ == i,
            None => false,
        },
{
    let mut acc: Vec<Spanned<Arg>> = Vec::new();
    let mut n: usize = 0;
    assert(operands@.subrange(0, 0) =~= Seq::<Spanned<Type>>::empty());
    while n < operands.len()
        invariant
            n <= operands@.len(),
            resolved_aliases.wf(),
            operands_fields(operands@, *ns, *resolved_aliases) is Some,
            operands_fields(operands@.subrange(0, n as int), *ns, *resolved_aliases) matches Some(Ok(a)) && same_args(acc@, a),
        decreases operands@.len() - n,
    {
        proof {
            lemma_operands_fields_some(operands@, *ns, *resolved_aliases, n as int);
            let sub = operands@.subrange(0, n + 1);
            assert(sub.drop_last() =~= operands@.subrange(0, n as int));
            assert(sub.last() == operands@[n as int]);
        }
        match extract_struct_fields_spanned(&operands[n], ns, resolved_aliases) {
            Ok(fields) => {
                let ghost a0 = acc@;
                let mut more = fields;
                acc.append(&mut more);
                proof {
                    let a = operands_fields(operands@.subrange(0, n as int), *ns, *resolved_aliases)->Some_0->Ok_0;
                    let b = operand_fields(operands@[n as int].value, operands@[n as int].span.spec_raw(), *ns, *resolved_aliases,
                        chain_bound(*ns, *resolved_aliases))->Some_0->Ok_0;
                    lemma_same_args_concat(a0, fields@, a, b);
                }
            },
            Err(e) => {
                proof {
                    lemma_operands_fields_prefix(operands@, *ns, *resolved_aliases, n + 1);
                }
                return Err(e);
            },
        }
        n += 1;
    }
    assert(operands@.subrange(0, operands@.len() as int) =~= operands@);
    let ghost all = operands_fields(operands@, *ns, *resolved_aliases)->Some_0->Ok_0;
    let firsts = first_fields(&acc);
    let entries = firsts.as_entries();
    let mut fields: Vec<Spanned<Arg>> = Vec::new();
    let mut i: usize = 0;
    while i < entries.len()
        invariant
            i <= entries@.len(),
            firsts.wf(),
            firsts_of(firsts, acc@),
            entries@ == firsts.entries(),
            same_args(acc@, all),
            fields@.len() == i,
            forall|x: int| 0 <= x < i ==> #[trigger] is_merged_field(all, fields@[x])
                && fields@[x].value.name.value.0@ == entries@[x].0@,
        decreases entries@.len() - i,
    {
        let key = &entries[i].0;
        let first = &entries[i].1;
        proof {
            lemma_entry_field(acc@, all, firsts, i as int);
        }
        let types = collect_types(&acc, key);
        let final_type = if types.len() > 1 {
            build_oneof_type(types.as_slice())
        } else {
            dup_type(&first.value.typ)
        };
        let name = Spanned { span: first.value.name.span, value: crate::toks::IdentToken(first.value.name.value.0.clone()) };
        let arg = Arg { comments: CommentStream { comments: Vec::new() }, name, sep: first.value.sep, typ: final_type };
        proof {
            assert(is_merged_field(all, Spanned { span: Span::CallSite, value: arg }));
        }
        fields.push(Spanned::call_site(arg));
        i += 1;
    }
    proof {
        firsts.lemma_wf();
        let fs = fields@;
        assert forall|x: int, y: int| 0 <= x < y < fs.len()
            implies seq_lt(#[trigger] fs[x].value.name.value.0@, #[trigger] fs[y].value.name.value.0@) by {
            assert(is_merged_field(all, fs[x]) && is_merged_field(all, fs[y]));
            assert(crate::ordmap::keys_of(firsts.entries())[x] == entries@[x].0@);
            assert(crate::ordmap::keys_of(firsts.entries())[y] == entries@[y].0@);
        }
        assert forall|k: Seq<char>| #[trigger] first_field(all, k, 0) is Some
            implies exists|x: int| 0 <= x < fs.len() && fs[x].value.name.value.0@ == k by {
            lemma_same_args_first_field(acc@, all, k, 0);
            assert(firsts.spec_get(k) is Some);
            let x = crate::ordmap::key_index(firsts.entries(), k)->Some_0;
            crate::ordmap::lemma_key_index_from(firsts.entries(), k, 0);
            assert(is_merged_field(all, fs[x]));
        }
    }
    Ok(Type::Struct { ty: Spanned::call_site(AnonymousStruct { fields }) })
}

/// Whether the fields of an operand can be had following at most `fuel`
/// aliases: `None` when the chain is longer, else whether they can be had
/// without an issue.
fn operand_outcome(typ: &Type, span: RawSpan, ns: &NamespaceCtx, resolved_aliases: &StrMap<Spanned<Type>>, fuel: u128) -> (r: Option<bool>)
    requires
        resolved_aliases.wf(),
    ensures
        match operand_fields(*typ, span, *ns, *resolved_aliases, fuel as nat) {
            None => r is None,
            Some(Ok(_)) => r == Some(true),
            Some(Err(_)) => r == Some(false),
        },
    decreases fuel, typ,
{
    match typ {
        Type::Struct { .. } => Some(true),
        Type::Ident { to } => match to {
            PathOrIdent::Path(_) => Some(false),
            PathOrIdent::Ident(ident) => {
                let ident_name = &ident.value.0;
                match resolved_aliases.get(ident_name) {
                    Some(resolved) => if fuel == 0 {
                        None
                    } else {
                        operand_outcome(&resolved.value, span, ns, resolved_aliases, fuel - 1)
                    },
                    None => match crate::union_check::find_local(ns, ident_name) {
                        Some(j) => match &ns.children[j].1.value {
                            NamespaceChild::Struct(_) => Some(true),
                            NamespaceChild::Type(type_def) => if fuel == 0 {
                                None
                            } else {
                                operand_outcome(&type_def.def.value.ty.value, span, ns, resolved_aliases, fuel - 1)
                            },
                            _ => Some(false),
                        },
                        None => Some(false),
                    },
                }
            },
        },
        Type::Paren { ty } => {
            proof {
                assert(decreases_to!(*typ => (*typ)->Paren_ty));
                assert(decreases_to!((*typ)->Paren_ty => (*typ)->Paren_ty.value));
            }
            operand_outcome(&ty.value, span, ns, resolved_aliases, fuel)
        },
        _ => Some(false),
    }
}

/// Once a prefix of the operands has an issue or a chain too long, so have
/// all the operands, the same.
proof fn lemma_operands_fields_stop(ops: Seq<Spanned<Type>>, ns: NamespaceCtx, resolved: StrMap<Spanned<Type>>, n: int)
    requires
        0 < n <= ops.len(),
        !(operands_fields(ops.subrange(0, n), ns, resolved) matches Some(Ok(_))),
    ensures
        operands_fields(ops, ns, resolved) == operands_fields(ops.subrange(0, n), ns, resolved),
    decreases ops.len() - n,
{
    if n == ops.len() {
        assert(ops.subrange(0, n) =~= ops);
    } else {
        assert(ops.subrange(0, n + 1).drop_last() =~= ops.subrange(0, n));
        lemma_operands_fields_stop(ops, ns, resolved, n + 1);
    }
}

/// Merges the operands of a `&|` composition, first checking that each
/// operand's chain of aliases ends (a chain that runs in a circle would
/// never end): `None` exactly when one does not, else what
/// `merge_union_or_operands` gives.
pub fn merge_union_or_checked(operands: &Vec<Spanned<Type>>, ns: &NamespaceCtx, resolved_aliases: &StrMap<Spanned<Type>>) -> (r: Option<Result<Type, UnionOrError>>)
    requires
        resolved_aliases.wf(),
    ensures
        match operands_fields(operands@, *ns, *resolved_aliases) {
            None => r is None,
            Some(Ok(all)) => r matches Some(Ok(t)) && is_merge_struct(all, t),
            Some(Err(i)) => r matches Some(Err(e)) && e@ == i,
        },
{
    let fuel: u128 = resolved_aliases.len() as u128 + ns.children.len() as u128 + 1;
    assert(fuel as nat == chain_bound(*ns, *resolved_aliases));
    let mut n: usize = 0;
    assert(operands@.subrange(0, 0) =~= Seq::<Spanned<Type>>::empty());
    let mut stopped = false;
    while n < operands.len() && !stopped
        invariant
            n <= operands@.len(),
            resolved_aliases.wf(),
            fuel as nat == chain_bound(*ns, *resolved_aliases),
            !stopped ==> operands_fields(operands@.subrange(0, n as int), *ns, *resolved_aliases) matches Some(Ok(_)),
            stopped ==> operands_fields(operands@, *ns, *resolved_aliases) matches Some(Err(_)),
        decreases operands@.len() - n, if stopped { 0int } else { 1int },
    {
        let sub = Ghost(operands@.subrange(0, n + 1));
        proof {
            assert(sub@.drop_last() =~= operands@.subrange(0, n as int));
            assert(sub@.last() == operands@[n as int]);
        }
        let op = &operands[n];
        match operand_outcome(&op.value, op.span(), ns, resolved_aliases, fuel) {
            None => {
                proof {
                    lemma_operands_fields_stop(operands@, *ns, *resolved_aliases, n + 1);
                }
                return None;
            },
            Some(true) => {
                n += 1;
            },
            Some(false) => {
                proof {
                    lemma_operands_fields_stop(operands@, *ns, *resolved_aliases, n + 1);
                }
                stopped = true;
            },
        }
    }
    if !stopped {
        assert(operands@.subrange(0, n as int) =~= operands@);
    }
    Some(merge_union_or_operands(operands, ns, resolved_aliases))
}

} // verus!
