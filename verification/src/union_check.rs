//! Unions of structs (`A & B`): every operand must be a struct, and the
//! operands' fields are merged into one struct, the first field of a name
//! kept.
use vstd::prelude::*;
use crate::defs::{Span, Spanned};
use crate::ast::{Arg, ArgV, IdentOrUnion, IdentOrUnionV, PathOrIdent, PathOrIdentV, StructDef, Type, TypeV, UnionDiscriminant, arg_view, args_view, operand_view, type_kind_name, union_view};
use crate::ast_ops::{dup_args, lemma_args_view, lemma_union_view};
use crate::common::{FromNamedSource, NamespaceChild, NamespaceCtx, child_kind_name};
use crate::extract::Children;
use crate::helpers::{UnionRecord, UnionWorkingSet, first_field, lemma_first_field, union_record_name};
use crate::ordmap::seq_lt;
use crate::toks::strings_view;
use crate::ordmap::StrMap;
use crate::paths::NamedItemContextV;
use crate::text::append_string;

verus! {

/// Why a union is refused, as values.
pub enum UnionIssue {
    /// An operand that is not a struct: what it is, and its name.
    MustBeStruct(Seq<char>, Seq<char>),
    /// An operand that names nothing.
    Undefined(Seq<char>),
    /// An alias operand left unresolved.
    Internal(Seq<char>),
}

/// Why a union is refused.
#[derive(Debug)]
pub enum UnionError {
    OperandMustBeStruct { found_type: String, operand_name: String },
    UndefinedType { name: String },
    InternalError { message: String },
}

impl View for UnionError {
    type V = UnionIssue;

    open spec fn view(&self) -> UnionIssue {
        match self {
            UnionError::OperandMustBeStruct { found_type, operand_name } => UnionIssue::MustBeStruct(found_type@, operand_name@),
            UnionError::UndefinedType { name } => UnionIssue::Undefined(name@),
            UnionError::InternalError { message } => UnionIssue::Internal(message@),
        }
    }
}

pub open spec fn union_result(r: Result<(), UnionError>) -> Option<UnionIssue> {
    match r {
        Ok(_) => None,
        Err(e) => Some(e@),
    }
}

/// The first of the first `n` items declared as `key`.
pub open spec fn child_at(ch: Children, key: NamedItemContextV, n: int) -> Option<int>
    decreases n,
{
    if n <= 0 {
        None
    } else {
        match child_at(ch, key, n - 1) {
            Some(j) => Some(j),
            None => if ch[n - 1].0@ == key { Some(n - 1) } else { None },
        }
    }
}

/// The item `name` of the namespace, if declared: the first so declared.
pub open spec fn local_child(ns: NamespaceCtx, name: Seq<char>) -> Option<int> {
    child_at(ns.children@, NamedItemContextV { context: ns.ctx@, name }, ns.children@.len() as int)
}

proof fn lemma_child_at_extend(ch: Children, key: NamedItemContextV, n: int, m: int)
    requires
        0 <= n <= m,
        child_at(ch, key, n) is Some,
    ensures
        child_at(ch, key, m) == child_at(ch, key, n),
    decreases m - n,
{
    if m > n {
        lemma_child_at_extend(ch, key, n, m - 1);
    }
}

/// The index of the item `name` of the namespace.
pub(crate) fn find_local(ns: &NamespaceCtx, name: &String) -> (r: Option<usize>)
    ensures
        r matches Some(j) ==> local_child(*ns, name@) == Some(j as int) && j < ns.children@.len(),
        r is None ==> local_child(*ns, name@) is None,
{
    let ghost ch = ns.children@;
    let ghost key = NamedItemContextV { context: ns.ctx@, name: name@ };
    let mut i: usize = 0;
    while i < ns.children.len()
        invariant
            i <= ch.len(),
            ch == ns.children@,
            key == (NamedItemContextV { context: ns.ctx@, name: name@ }),
            child_at(ch, key, i as int) is None,
        decreases ch.len() - i,
    {
        let c = &ns.children[i].0;
        if c.context.same(&ns.ctx) && crate::text::str_eq(&c.name.value.0, name) {
            proof {
                assert(ch[i as int].0@ == key);
                assert(child_at(ch, key, i + 1) == Some(i as int));
                lemma_child_at_extend(ch, key, i + 1, ch.len() as int);
            }
            return Some(i);
        }
        i += 1;
    }
    None
}

/// Why a resolved alias cannot stand in a union: a struct, or a reference
/// to a struct of the namespace, may; anything else may not.
pub open spec fn resolved_type_issue(t: TypeV, alias_name: Seq<char>, ns: NamespaceCtx) -> Option<UnionIssue>
    decreases t,
{
    match t {
        TypeV::Struct(_) => None,
        TypeV::Ident(PathOrIdentV::Path(_)) => None,
        TypeV::Ident(PathOrIdentV::Ident(s)) => match local_child(ns, s) {
            Some(j) => if ns.children@[j].1.value is Struct {
                None
            } else {
                Some(UnionIssue::MustBeStruct(child_kind_name(ns.children@[j].1.value), alias_name))
            },
            None => Some(UnionIssue::Undefined(s)),
        },
        TypeV::Paren(inner) => resolved_type_issue(*inner, alias_name, ns),
        _ => Some(UnionIssue::MustBeStruct(type_kind_name(t), alias_name)),
    }
}

/// Why an operand cannot stand in a union. A name is looked up among the
/// resolved aliases first, then among the namespace's items; paths are left
/// to the reference check.
pub open spec fn operand_issue(o: IdentOrUnionV, ns: NamespaceCtx, resolved: StrMap<Spanned<Type>>) -> Option<UnionIssue>
    decreases o,
{
    match o {
        IdentOrUnionV::Anonymous(_) => None,
        IdentOrUnionV::Ref(PathOrIdentV::Path(_)) => None,
        IdentOrUnionV::Ref(PathOrIdentV::Ident(name)) => match resolved.spec_get(name) {
            Some(r) => resolved_type_issue(r.value@, name, ns),
            None => match local_child(ns, name) {
                Some(j) => match ns.children@[j].1.value {
                    NamespaceChild::Struct(_) => None,
                    NamespaceChild::Enum(_) => Some(UnionIssue::MustBeStruct("enum"@, name)),
                    NamespaceChild::OneOf(_) => Some(UnionIssue::MustBeStruct("oneof"@, name)),
                    NamespaceChild::Type(_) => Some(UnionIssue::Internal(
                        "Type alias '"@ + name + "' should have been resolved in Phase 3"@)),
                    NamespaceChild::Error(_) => Some(UnionIssue::MustBeStruct("error"@, name)),
                    NamespaceChild::Operation(_) => Some(UnionIssue::MustBeStruct("operation"@, name)),
                    NamespaceChild::Namespace(_) => Some(UnionIssue::MustBeStruct("namespace"@, name)),
                },
                None => Some(UnionIssue::Undefined(name)),
            },
        },
        IdentOrUnionV::Nested(ops) => operands_issue(ops, ns, resolved),
    }
}

/// The first issue among operands, in order.
pub open spec fn operands_issue(ops: Seq<IdentOrUnionV>, ns: NamespaceCtx, resolved: StrMap<Spanned<Type>>) -> Option<UnionIssue>
    decreases ops,
{
    if ops.len() == 0 {
        None
    } else {
        match operands_issue(ops.drop_last(), ns, resolved) {
            Some(x) => Some(x),
            None => operand_issue(ops.last(), ns, resolved),
        }
    }
}

fn must_be_struct(found: &str, operand: &String) -> (r: Result<(), UnionError>)
    ensures
        union_result(r) == Some(UnionIssue::MustBeStruct(found@, operand@)),
{
    Err(UnionError::OperandMustBeStruct { found_type: String::from_str(found), operand_name: operand.clone() })
}

/// Checks that a resolved alias named `alias_name` can stand in a union.
pub fn validate_resolved_type(resolved_type: &Type, alias_name: &String, ns: &NamespaceCtx) -> (r: Result<(), UnionError>)
    ensures
        union_result(r) == resolved_type_issue(resolved_type@, alias_name@, *ns),
    decreases resolved_type,
{
    match resolved_type {
        Type::Struct { .. } => Ok(()),
        Type::Ident { to } => match to {
            PathOrIdent::Path(_) => Ok(()),
            PathOrIdent::Ident(ident) => {
                let s = &ident.value.0;
                match find_local(ns, s) {
                    Some(j) => match &ns.children[j].1.value {
                        NamespaceChild::Struct(_) => Ok(()),
                        other => Err(UnionError::OperandMustBeStruct { found_type: other.kind_name(), operand_name: alias_name.clone() }),
                    },
                    None => Err(UnionError::UndefinedType { name: s.clone() }),
                }
            },
        },
        Type::Paren { ty } => {
            proof {
                assert(decreases_to!(*resolved_type => (*resolved_type)->Paren_ty));
                assert(decreases_to!((*resolved_type)->Paren_ty => (*resolved_type)->Paren_ty.value));
            }
            validate_resolved_type(&ty.value, alias_name, ns)
        },
        other => Err(UnionError::OperandMustBeStruct { found_type: other.kind_name(), operand_name: alias_name.clone() }),
    }
}

/// Checks that an operand can stand in a union.
pub fn validate_union_operand(operand: &IdentOrUnion, ns: &NamespaceCtx, resolved_aliases: &StrMap<Spanned<Type>>) -> (r: Result<(), UnionError>)
    requires
        resolved_aliases.wf(),
    ensures
        union_result(r) == operand_issue(operand_view(*operand), *ns, *resolved_aliases),
    decreases operand,
{
    match operand {
        IdentOrUnion::Ident(UnionDiscriminant::Anonymous(_)) => Ok(()),
        IdentOrUnion::Ident(UnionDiscriminant::Ref(PathOrIdent::Path(_))) => Ok(()),
        IdentOrUnion::Ident(UnionDiscriminant::Ref(PathOrIdent::Ident(ident))) => {
            let ident_name = &ident.value.0;
            match resolved_aliases.get(ident_name) {
                Some(resolved) => validate_resolved_type(&resolved.value, ident_name, ns),
                None => match find_local(ns, ident_name) {
                    Some(j) => match &ns.children[j].1.value {
                        NamespaceChild::Struct(_) => Ok(()),
                        NamespaceChild::Enum(_) => must_be_struct("enum", ident_name),
                        NamespaceChild::OneOf(_) => must_be_struct("oneof", ident_name),
                        NamespaceChild::Type(_) => {
                            let mut message = String::from_str("Type alias '");
                            append_string(&mut message, ident_name);
                            append_string(&mut message, &String::from_str("' should have been resolved in Phase 3"));
                            Err(UnionError::InternalError { message })
                        },
                        NamespaceChild::Error(_) => must_be_struct("error", ident_name),
                        NamespaceChild::Operation(_) => must_be_struct("operation", ident_name),
                        NamespaceChild::Namespace(_) => must_be_struct("namespace", ident_name),
                    },
                    None => Err(UnionError::UndefinedType { name: ident_name.clone() }),
                },
            }
        },
        IdentOrUnion::Union { inner } => {
            proof {
                assert(decreases_to!(*operand => (*operand)->inner));
                assert(decreases_to!((*operand)->inner => (*operand)->inner.value));
                assert(decreases_to!((*operand)->inner.value => (*operand)->inner.value.types));
            }
            validate_union_operands(&inner.value.types, ns, resolved_aliases)
        },
    }
}

/// Checks the operands of a union in order.
pub fn validate_union_operands(types: &Vec<Spanned<IdentOrUnion>>, ns: &NamespaceCtx, resolved_aliases: &StrMap<Spanned<Type>>) -> (r: Result<(), UnionError>)
    requires
        resolved_aliases.wf(),
    ensures
        union_result(r) == operands_issue(union_view(types@), *ns, *resolved_aliases),
    decreases types,
{
    let ghost uv = union_view(types@);
    proof {
        lemma_union_view(types@);
    }
    let mut k: usize = 0;
    while k < types.len()
        invariant
            k <= types@.len(),
            resolved_aliases.wf(),
            uv == union_view(types@),
            uv.len() == types@.len(),
            forall|x: int| 0 <= x < types@.len() ==> #[trigger] uv[x] == operand_view(types@[x].value),
            operands_issue(uv.subrange(0, k as int), *ns, *resolved_aliases) is None,
        decreases types@.len() - k,
    {
        proof {
            assert(decreases_to!(*types => types@));
            assert(decreases_to!(types@ => types@[k as int]));
            assert(decreases_to!(types@[k as int] => types@[k as int].value));
            assert(uv.subrange(0, k + 1).drop_last() =~= uv.subrange(0, k as int));
        }
        let r = validate_union_operand(&types[k].value, ns, resolved_aliases);
        if r.is_err() {
            proof {
                lemma_operands_prefix(uv, *ns, *resolved_aliases, k as int + 1);
            }
            return r;
        }
        k += 1;
    }
    assert(uv.subrange(0, uv.len() as int) =~= uv);
    Ok(())
}

proof fn lemma_operands_prefix(ops: Seq<IdentOrUnionV>, ns: NamespaceCtx, resolved: StrMap<Spanned<Type>>, n: int)
    requires
        0 < n <= ops.len(),
        operands_issue(ops.subrange(0, n), ns, resolved) is Some,
    ensures
        operands_issue(ops, ns, resolved) == operands_issue(ops.subrange(0, n), ns, resolved),
    decreases ops.len() - n,
{
    if n == ops.len() {
        assert(ops.subrange(0, n) =~= ops);
    } else {
        assert(ops.subrange(0, n + 1).drop_last() =~= ops.subrange(0, n));
        lemma_operands_prefix(ops, ns, resolved, n + 1);
    }
}

/// Checks every operand of a union found in the namespace.
pub fn validate_union_record(union_record: &UnionRecord, ns: &NamespaceCtx, resolved_aliases: &StrMap<Spanned<Type>>) -> (r: Result<(), UnionError>)
    requires
        resolved_aliases.wf(),
    ensures
        union_result(r) == operands_issue(union_view((*union_record.union_ref).value.types@), *ns, *resolved_aliases),
{
    validate_union_operands(&union_record.union_ref.value.types, ns, resolved_aliases)
}

/// Fields an operand brings, with the file they come from.
pub type Batch = (Seq<char>, Seq<Spanned<Arg>>);

/// A merged field, as values: its file, span and field.
pub type FieldV = (Seq<char>, Span, ArgV);

/// The fields an operand brings, in order: an inline struct its own (from
/// no file), a struct of the namespace its fields (from its file), a nested
/// union those of its operands. Other references bring none.
pub open spec fn operand_batches(o: IdentOrUnion, ns: NamespaceCtx) -> Seq<Batch>
    decreases o,
{
    match o {
        IdentOrUnion::Ident(UnionDiscriminant::Anonymous(a)) => seq![(Seq::empty(), a.value.fields@)],
        IdentOrUnion::Ident(UnionDiscriminant::Ref(PathOrIdent::Ident(i))) => match local_child(ns, i.value.0@) {
            Some(j) => match ns.children@[j].1.value {
                NamespaceChild::Struct(sd) => seq![(ns.children@[j].1.source@, sd.def.value.args@)],
                _ => Seq::empty(),
            },
            None => Seq::empty(),
        },
        IdentOrUnion::Ident(UnionDiscriminant::Ref(PathOrIdent::Path(_))) => Seq::empty(),
        IdentOrUnion::Union { inner } => operands_batches(inner.value.types@, ns),
    }
}

pub open spec fn operands_batches(s: Seq<Spanned<IdentOrUnion>>, ns: NamespaceCtx) -> Seq<Batch>
    decreases s,
{
    if s.len() == 0 {
        Seq::empty()
    } else {
        operands_batches(s.drop_last(), ns) + operand_batches(s.last().value, ns)
    }
}

/// The first field named `k` among the batches.
pub open spec fn first_in(batches: Seq<Batch>, k: Seq<char>) -> Option<FieldV>
    decreases batches.len(),
{
    if batches.len() == 0 {
        None
    } else {
        match first_in(batches.drop_last(), k) {
            Some(x) => Some(x),
            None => {
                let b = batches.last();
                match first_field(b.1, k, 0) {
                    Some(i) => Some((b.0, b.1[i].span, arg_view(b.1[i].value))),
                    None => None,
                }
            },
        }
    }
}

/// The merged field `a` is the first of its name among the batches.
pub open spec fn merged_from(batches: Seq<Batch>, a: Spanned<Arg>) -> bool {
    first_in(batches, a.value.name.value.0@) matches Some(x) && x.1 == a.span && x.2 == arg_view(a.value)
}

/// The field a working set holds under `k`, as values.
pub open spec fn ws_field(ws: UnionWorkingSet, k: Seq<char>) -> Option<FieldV> {
    match ws.field(k) {
        Some(f) => Some((f.source@, f.value.span, arg_view(f.value.value))),
        None => None,
    }
}

proof fn lemma_first_in_concat(a: Seq<Batch>, b: Seq<Batch>, k: Seq<char>)
    ensures
        first_in(a + b, k) == match first_in(a, k) {
            Some(x) => Some(x),
            None => first_in(b, k),
        },
    decreases b.len(),
{
    if b.len() == 0 {
        assert(a + b =~= a);
    } else {
        assert((a + b).drop_last() =~= a + b.drop_last());
        assert((a + b).last() == b.last());
        lemma_first_in_concat(a, b.drop_last(), k);
    }
}

proof fn lemma_first_in_named(batches: Seq<Batch>, k: Seq<char>)
    ensures
        first_in(batches, k) matches Some(x) ==> x.2.name == k,
    decreases batches.len(),
{
    if batches.len() > 0 {
        lemma_first_in_named(batches.drop_last(), k);
        lemma_first_field(batches.last().1, k, 0);
    }
}

proof fn lemma_first_field_same_names(a: Seq<Spanned<Arg>>, b: Seq<Spanned<Arg>>, k: Seq<char>, i: int)
    requires
        a.len() == b.len(),
        0 <= i <= a.len(),
        forall|x: int| 0 <= x < a.len() ==> #[trigger] a[x].value.name.value.0@ == b[x].value.name.value.0@,
    ensures
        first_field(a, k, i) == first_field(b, k, i),
    decreases a.len() - i,
{
    if i < a.len() {
        lemma_first_field_same_names(a, b, k, i + 1);
    }
}

/// A copy of some fields: same spans, same fields.
fn copy_fields(v: &Vec<Spanned<Arg>>) -> (r: Vec<Spanned<Arg>>)
    ensures
        r@.len() == v@.len(),
        forall|x: int| 0 <= x < v@.len() ==> (#[trigger] r@[x]).span == v@[x].span
            && arg_view(r@[x].value) == arg_view(v@[x].value)
            && r@[x].value.name.value.0@ == v@[x].value.name.value.0@,
{
    let r = dup_args(v);
    proof {
        lemma_args_view(r@);
        lemma_args_view(v@);
        assert forall|x: int| 0 <= x < v@.len() implies (#[trigger] r@[x]).span == v@[x].span
            && arg_view(r@[x].value) == arg_view(v@[x].value)
            && r@[x].value.name.value.0@ == v@[x].value.name.value.0@ by {
            assert(args_view(r@)[x] == args_view(v@)[x]);
        }
    }
    r
}

/// Merges a copy of `fields` from `source` into the working set.
fn merge_batch(ws: &mut UnionWorkingSet, source: String, fields: &Vec<Spanned<Arg>>)
    requires
        old(ws).wf(),
    ensures
        final(ws).wf(),
        forall|k: Seq<char>| #[trigger] ws_field(*final(ws), k) == match ws_field(*old(ws), k) {
            Some(x) => Some(x),
            None => first_in(seq![(source@, fields@)], k),
        },
{
    let copy = copy_fields(fields);
    let ghost c = copy@;
    let ghost src = source@;
    ws.merge_struct(source, copy);
    proof {
        assert forall|k: Seq<char>| #[trigger] ws_field(*ws, k) == match ws_field(*old(ws), k) {
            Some(x) => Some(x),
            None => first_in(seq![(src, fields@)], k),
        } by {
            lemma_first_field_same_names(c, fields@, k, 0);
            let one = seq![(src, fields@)];
            assert(one.drop_last() =~= Seq::<Batch>::empty());
            assert(one.last() == (src, fields@));
            assert(first_in(one.drop_last(), k) is None);
            match first_field(fields@, k, 0) {
                Some(i) => {
                    lemma_first_field(fields@, k, 0);
                    assert(first_in(one, k) == Some((src, fields@[i].span, arg_view(fields@[i].value))));
                    if old(ws).field(k) is None {
                        assert(ws_field(*ws, k) == Some((src, c[i].span, arg_view(c[i].value))));
                    }
                },
                None => {
                    assert(first_in(one, k) is None);
                },
            }
        }
    }
}

/// Adds the fields of an operand to the working set, in order; names
/// already present keep their fields.
pub fn merge_operand(operand: &IdentOrUnion, ns: &NamespaceCtx, working_set: &mut UnionWorkingSet) -> (r: Result<(), UnionError>)
    requires
        old(working_set).wf(),
    ensures
        r is Ok,
        final(working_set).wf(),
        forall|k: Seq<char>| #[trigger] ws_field(*final(working_set), k) == match ws_field(*old(working_set), k) {
            Some(x) => Some(x),
            None => first_in(operand_batches(*operand, *ns), k),
        },
    decreases operand,
{
    match operand {
        IdentOrUnion::Ident(UnionDiscriminant::Anonymous(anon)) => {
            merge_batch(working_set, String::new(), &anon.value.fields);
        },
        IdentOrUnion::Ident(UnionDiscriminant::Ref(PathOrIdent::Path(_))) => {},
        IdentOrUnion::Ident(UnionDiscriminant::Ref(PathOrIdent::Ident(ident))) => {
            match find_local(ns, &ident.value.0) {
                Some(j) => {
                    let child = &ns.children[j];
                    match &child.1.value {
                        NamespaceChild::Struct(struct_def) => {
                            merge_batch(working_set, child.1.source.clone(), &struct_def.def.value.args);
                        },
                        _ => {},
                    }
                },
                None => {},
            }
        },
        IdentOrUnion::Union { inner } => {
            proof {
                assert(decreases_to!(*operand => (*operand)->inner));
                assert(decreases_to!((*operand)->inner => (*operand)->inner.value));
                assert(decreases_to!((*operand)->inner.value => (*operand)->inner.value.types));
            }
            merge_operands(&inner.value.types, ns, working_set);
        },
    }
    Ok(())
}

/// Adds the fields of operands in order.
fn merge_operands(types: &Vec<Spanned<IdentOrUnion>>, ns: &NamespaceCtx, working_set: &mut UnionWorkingSet)
    requires
        old(working_set).wf(),
    ensures
        final(working_set).wf(),
        forall|k: Seq<char>| #[trigger] ws_field(*final(working_set), k) == match ws_field(*old(working_set), k) {
            Some(x) => Some(x),
            None => first_in(operands_batches(types@, *ns), k),
        },
    decreases types,
{
    let ghost ws0 = *working_set;
    let mut i: usize = 0;
    while i < types.len()
        invariant
            i <= types@.len(),
            ws0 == *old(working_set),
            working_set.wf(),
            forall|k: Seq<char>| #[trigger] ws_field(*working_set, k) == match ws_field(ws0, k) {
                Some(x) => Some(x),
                None => first_in(operands_batches(types@.subrange(0, i as int), *ns), k),
            },
        decreases types@.len() - i,
    {
        proof {
            assert(decreases_to!(*types => types@));
            assert(decreases_to!(types@ => types@[i as int]));
            assert(decreases_to!(types@[i as int] => types@[i as int].value));
        }
        let ghost before = *working_set;
        let _ = merge_operand(&types[i].value, ns, working_set);
        proof {
            let sub = types@.subrange(0, i + 1);
            assert(sub.drop_last() =~= types@.subrange(0, i as int));
            assert forall|k: Seq<char>| #[trigger] ws_field(*working_set, k) == match ws_field(ws0, k) {
                Some(x) => Some(x),
                None => first_in(operands_batches(sub, *ns), k),
            } by {
                lemma_first_in_concat(operands_batches(types@.subrange(0, i as int), *ns), operand_batches(types@[i as int].value, *ns), k);
                assert(ws_field(before, k) == match ws_field(ws0, k) {
                    Some(x) => Some(x),
                    None => first_in(operands_batches(types@.subrange(0, i as int), *ns), k),
                });
            }
        }
        i += 1;
    }
    assert(types@.subrange(0, types@.len() as int) =~= types@);
}

/// `d`, from `source`, is the struct the union `rec` becomes: from no file,
/// named from the path that leads to the union, with the fields of its
/// operands, the first of each name kept, in name order.
pub open spec fn is_merge_of(source: Seq<char>, d: StructDef, rec: UnionRecord, ns: NamespaceCtx) -> bool {
    let batches = operands_batches((*rec.union_ref).value.types@, ns);
    let args = d.def.value.args@;
    &&& source == Seq::<char>::empty()
    &&& d.meta@.len() == 0
    &&& d.def.value.name.value.0@ == union_record_name(strings_view(rec.context_stack@), rec.in_oneof, rec.variant_index)
    &&& forall|i: int, j: int| 0 <= i < j < args.len()
        ==> seq_lt(#[trigger] args[i].value.name.value.0@, #[trigger] args[j].value.name.value.0@)
    &&& forall|i: int| 0 <= i < args.len() ==> #[trigger] merged_from(batches, args[i])
    &&& forall|k: Seq<char>| #[trigger] first_in(batches, k) is Some
        ==> exists|i: int| 0 <= i < args.len() && args[i].value.name.value.0@ == k
}

/// The struct a union becomes: named from the path that leads to it, with
/// the fields of its operands, the first of each name kept, in name order.
pub fn merge_union(union_record: &UnionRecord, ns: &NamespaceCtx) -> (r: Result<FromNamedSource<StructDef>, UnionError>)
    ensures
        r matches Ok(d) && is_merge_of(d.source@, d.value, *union_record, *ns),
{
    let mut working_set = UnionWorkingSet::new();
    proof {
        assert forall|k: Seq<char>| #[trigger] ws_field(working_set, k) is None by {}
    }
    merge_operands(&union_record.union_ref.value.types, ns, &mut working_set);
    let generated_name = union_record.generate_name();
    let ghost batches = operands_batches((*union_record.union_ref).value.types@, *ns);
    let ghost ws = working_set;
    proof {
        ws.lemma_entries();
    }
    let merged = working_set.into_struct_def(generated_name, String::new());
    proof {
        let args = merged.value.def.value.args@;
        let e = ws.entries();
        assert(args.len() == e.len());
        assert forall|i: int| 0 <= i < args.len() implies #[trigger] merged_from(batches, args[i]) && args[i].value.name.value.0@ == e[i].0@ by {
            assert(args[i] == e[i].1.value);
            assert(ws.field(e[i].0@) == Some(e[i].1));
            assert(ws_field(ws, e[i].0@) == first_in(batches, e[i].0@));
            lemma_first_in_named(batches, e[i].0@);
        }
        assert forall|i: int, j: int| 0 <= i < j < args.len()
            implies seq_lt(#[trigger] args[i].value.name.value.0@, #[trigger] args[j].value.name.value.0@) by {
            assert(merged_from(batches, args[i]));
            assert(merged_from(batches, args[j]));
            assert(args[i].value.name.value.0@ == e[i].0@);
            assert(args[j].value.name.value.0@ == e[j].0@);
            assert(seq_lt(e[i].0@, e[j].0@));
        }
        assert forall|k: Seq<char>| #[trigger] first_in(batches, k) is Some
            implies exists|i: int| 0 <= i < args.len() && args[i].value.name.value.0@ == k by {
            assert(ws_field(ws, k) is Some);
            assert(ws.field(k) is Some);
            let i = choose|i: int| 0 <= i < e.len() && e[i].0@ == k;
            assert(merged_from(batches, args[i]));
            assert(args[i].value.name.value.0@ == e[i].0@);
        }
    }
    Ok(merged)
}

} // verus!
