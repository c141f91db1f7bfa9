//! Resolving type aliases: each alias of a namespace is replaced by its
//! target, with the aliases that target refers to already resolved.
use vstd::prelude::*;
use crate::defs::Spanned;
use crate::ast::{Array, IdentOrUnion, IdentOrUnionV, PathOrIdent, PathOrIdentV, Type, TypeV, Union, UnionDiscriminant, operand_view, union_view};
use crate::ast_ops::{dup_operand, dup_path_or_ident, dup_spanned_type, dup_type, dup_union, lemma_union_view};
use crate::common::{NamespaceChild, NamespaceCtx};
use crate::extract::Children;
use crate::aliases::{AliasGraph, alias_edge, alias_ranking, aliases_acyclic, cycle_names, cycle_places, first_min_index, ident_deps, is_alias_cycle, is_resolution_order, lemma_resolution_order_ranks, places_view, position_rank, rotate, type_deps, union_deps};
use crate::helpers::AliasEntry;
use crate::ordmap::{StrMap, key_index};
use crate::toks::strings_view;

verus! {

/// Every alias records the names its target refers to.
pub open spec fn alias_deps_consistent(e: Seq<(String, AliasEntry)>) -> bool {
    forall|i: int| 0 <= i < e.len() ==> strings_view(#[trigger] e[i].1.dependencies@) == type_deps(e[i].1.target_type.value@)
}

/// The names a union operand refers to.
pub open spec fn member_deps(m: IdentOrUnionV) -> Seq<Seq<char>> {
    match m {
        IdentOrUnionV::Ref(p) => ident_deps(p),
        IdentOrUnionV::Anonymous(_) => Seq::empty(),
        IdentOrUnionV::Nested(ops) => union_deps(ops),
    }
}

/// A type with the aliases it refers to replaced by their resolutions in
/// `m`: references are looked up (a union operand keeps its reference
/// unless the resolution is itself a reference), arrays, unions and `&|`
/// are rebuilt, parentheses dropped; other types stay as written.
pub open spec fn substitute(t: TypeV, m: StrMap<Spanned<Type>>) -> TypeV
    decreases t,
{
    match t {
        TypeV::Ident(PathOrIdentV::Ident(name)) => match m.spec_get(name) {
            Some(r) => r.value@,
            None => t,
        },
        TypeV::Array(e, n) => TypeV::Array(Box::new(substitute(*e, m)), n),
        TypeV::Union(ops) => TypeV::Union(substitute_members(ops, m)),
        TypeV::Paren(inner) => substitute(*inner, m),
        TypeV::UnionOr(l, r) => TypeV::UnionOr(Box::new(substitute(*l, m)), Box::new(substitute(*r, m))),
        _ => t,
    }
}

pub open spec fn substitute_members(ops: Seq<IdentOrUnionV>, m: StrMap<Spanned<Type>>) -> Seq<IdentOrUnionV>
    decreases ops,
{
    if ops.len() == 0 {
        Seq::empty()
    } else {
        substitute_members(ops.drop_last(), m).push(substitute_member(ops.last(), m))
    }
}

pub open spec fn substitute_member(o: IdentOrUnionV, m: StrMap<Spanned<Type>>) -> IdentOrUnionV
    decreases o,
{
    match o {
        IdentOrUnionV::Ref(PathOrIdentV::Ident(name)) => match m.spec_get(name) {
            Some(r) => match r.value@ {
                TypeV::Ident(to) => IdentOrUnionV::Ref(to),
                _ => o,
            },
            None => o,
        },
        IdentOrUnionV::Nested(ops) => IdentOrUnionV::Nested(substitute_members(ops, m)),
        _ => o,
    }
}

/// A measure of a type's size that a union's operands, each taken as a type
/// of its own, stay below.
pub open spec fn type_size(t: TypeV) -> nat
    decreases t,
{
    match t {
        TypeV::Array(e, _) => 1 + type_size(*e),
        TypeV::Union(ops) => 1 + members_size(ops),
        TypeV::Paren(inner) => 1 + type_size(*inner),
        TypeV::UnionOr(l, r) => 1 + type_size(*l) + type_size(*r),
        _ => 1,
    }
}

pub open spec fn members_size(ops: Seq<IdentOrUnionV>) -> nat
    decreases ops,
{
    if ops.len() == 0 {
        0
    } else {
        members_size(ops.drop_last()) + member_size(ops.last())
    }
}

pub open spec fn member_size(o: IdentOrUnionV) -> nat
    decreases o,
{
    match o {
        IdentOrUnionV::Nested(ops) => 2 + members_size(ops),
        _ => 1,
    }
}

/// Every alias among `deps` is ranked below `bound`.
pub open spec fn deps_below(e: Seq<(String, AliasEntry)>, rank: Seq<int>, deps: Seq<Seq<char>>, bound: int) -> bool {
    forall|j: int| 0 <= j < e.len() && #[trigger] deps.contains(e[j].0@) ==> rank[j] < bound
}

/// Every alias among `deps` is resolved in `m`.
pub open spec fn deps_resolved(g: StrMap<AliasEntry>, m: StrMap<Spanned<Type>>, deps: Seq<Seq<char>>) -> bool {
    forall|n: Seq<char>| #[trigger] deps.contains(n) && g.spec_get(n) is Some ==> m.spec_get(n) is Some
}

/// `a`'s names are among `b`'s.
pub open spec fn names_within(a: Seq<Seq<char>>, b: Seq<Seq<char>>) -> bool {
    forall|n: Seq<char>| #[trigger] a.contains(n) ==> b.contains(n)
}

proof fn lemma_within_concat(a: Seq<Seq<char>>, b: Seq<Seq<char>>)
    ensures
        names_within(a, a + b),
        names_within(b, a + b),
{
    assert forall|n: Seq<char>| #[trigger] a.contains(n) implies (a + b).contains(n) by {
        let i = choose|i: int| 0 <= i < a.len() && a[i] == n;
        assert((a + b)[i] == n);
    }
    assert forall|n: Seq<char>| #[trigger] b.contains(n) implies (a + b).contains(n) by {
        let i = choose|i: int| 0 <= i < b.len() && b[i] == n;
        assert((a + b)[a.len() + i] == n);
    }
}

/// The names of the `k`-th operand are among the union's, and its size is
/// below the operands' total.
proof fn lemma_member_within(ops: Seq<IdentOrUnionV>, k: int)
    requires
        0 <= k < ops.len(),
    ensures
        names_within(member_deps(ops[k]), union_deps(ops)),
        member_size(ops[k]) <= members_size(ops),
    decreases ops.len(),
{
    let init = ops.drop_last();
    let last_deps = match ops.last() {
        IdentOrUnionV::Ref(p) => ident_deps(p),
        IdentOrUnionV::Anonymous(_) => Seq::empty(),
        IdentOrUnionV::Nested(o) => union_deps(o),
    };
    assert(union_deps(ops) == union_deps(init) + last_deps);
    lemma_within_concat(union_deps(init), last_deps);
    if k == ops.len() - 1 {
        assert(member_deps(ops[k]) == last_deps);
    } else {
        assert(init[k] == ops[k]);
        lemma_member_within(init, k);
    }
}

proof fn lemma_within_below(e: Seq<(String, AliasEntry)>, rank: Seq<int>, a: Seq<Seq<char>>, b: Seq<Seq<char>>, bound: int)
    requires
        names_within(a, b),
        deps_below(e, rank, b, bound),
    ensures
        deps_below(e, rank, a, bound),
{
    assert forall|j: int| 0 <= j < e.len() && #[trigger] a.contains(e[j].0@) implies rank[j] < bound by {
        assert(b.contains(e[j].0@));
    }
}

proof fn lemma_within_resolved(g: StrMap<AliasEntry>, m: StrMap<Spanned<Type>>, a: Seq<Seq<char>>, b: Seq<Seq<char>>)
    requires
        names_within(a, b),
        deps_resolved(g, m, b),
    ensures
        deps_resolved(g, m, a),
{
    assert forall|n: Seq<char>| #[trigger] a.contains(n) && g.spec_get(n) is Some implies m.spec_get(n) is Some by {
        assert(b.contains(n));
    }
}


/// `t` with its aliases resolved as far as `m` and the aliases `g` go: a
/// reference resolved in `m` takes its resolution; one to an alias of `g`
/// not in `m` takes the alias's target, resolved in turn. An alias not
/// ranked below `bound` is left as written.
pub open spec fn deep_substitute(t: TypeV, m: StrMap<Spanned<Type>>, g: StrMap<AliasEntry>, rank: Seq<int>, bound: int) -> TypeV
    decreases bound, 2 * type_size(t),
{
    match t {
        TypeV::Ident(PathOrIdentV::Ident(name)) => match m.spec_get(name) {
            Some(r) => r.value@,
            None => match key_index(g.entries(), name) {
                Some(i) => if 0 <= rank[i] < bound {
                    deep_substitute(g.entries()[i].1.target_type.value@, m, g, rank, rank[i])
                } else {
                    t
                },
                None => t,
            },
        },
        TypeV::Array(e, n) => TypeV::Array(Box::new(deep_substitute(*e, m, g, rank, bound)), n),
        TypeV::Union(ops) => TypeV::Union(deep_members(ops, m, g, rank, bound)),
        TypeV::Paren(inner) => deep_substitute(*inner, m, g, rank, bound),
        TypeV::UnionOr(l, r) => TypeV::UnionOr(Box::new(deep_substitute(*l, m, g, rank, bound)), Box::new(deep_substitute(*r, m, g, rank, bound))),
        _ => t,
    }
}

/// The operands of a union, each resolved as `deep_substitute` resolves a
/// type: a reference keeps the resolution if it is a reference, a nested
/// union if it is a union; otherwise the operand stays as written.
pub open spec fn deep_members(ops: Seq<IdentOrUnionV>, m: StrMap<Spanned<Type>>, g: StrMap<AliasEntry>, rank: Seq<int>, bound: int) -> Seq<IdentOrUnionV>
    decreases bound, 2 * members_size(ops) + 1,
{
    if ops.len() == 0 {
        Seq::empty()
    } else {
        let o = ops.last();
        proof {
            assert(members_size(ops) == members_size(ops.drop_last()) + member_size(o));
            assert(member_size(o) >= 1);
            assert(type_size(TypeV::Ident(PathOrIdentV::Ident(Seq::empty()))) == 1);
        }
        let d = match o {
            IdentOrUnionV::Ref(p) => match deep_substitute(TypeV::Ident(p), m, g, rank, bound) {
                TypeV::Ident(to) => IdentOrUnionV::Ref(to),
                _ => o,
            },
            IdentOrUnionV::Nested(inner) => match deep_substitute(TypeV::Union(inner), m, g, rank, bound) {
                TypeV::Union(u) => IdentOrUnionV::Nested(u),
                _ => o,
            },
            _ => o,
        };
        deep_members(ops.drop_last(), m, g, rank, bound).push(d)
    }
}

/// `typ` with its aliases resolved: a reference resolved already takes its
/// resolution; one to an alias not yet resolved takes the alias's target,
/// resolved in turn.
fn resolve_type_deep(
    typ: &Type,
    resolved: &StrMap<Spanned<Type>>,
    graph: &AliasGraph,
    Ghost(rank): Ghost<Seq<int>>,
    Ghost(bound): Ghost<int>,
) -> (r: Type)
    requires
        graph.aliases.wf(),
        resolved.wf(),
        alias_deps_consistent(graph.aliases.entries()),
        alias_ranking(graph.aliases.entries(), rank),
        forall|i: int| 0 <= i < rank.len() ==> #[trigger] rank[i] >= 0,
        bound >= 0,
        deps_below(graph.aliases.entries(), rank, type_deps(typ@), bound),
    ensures
        deps_resolved(graph.aliases, *resolved, type_deps(typ@)) ==> r@ == substitute(typ@, *resolved),
        r@ == deep_substitute(typ@, *resolved, graph.aliases, rank, bound),
    decreases bound, type_size(typ@),
{
    let ghost e = graph.aliases.entries();
    let ghost deps = type_deps(typ@);
    match typ {
        Type::Ident { to } => {
            match to {
                PathOrIdent::Path(_) => dup_type(typ),
                PathOrIdent::Ident(ident) => {
                    let name = &ident.value.0;
                    match resolved.get(name) {
                        Some(found) => dup_type(&found.value),
                        None => {
                            match graph.aliases.find(name) {
                                Some(i) => {
                                    let entry = &graph.aliases.as_entries()[i].1;
                                    proof {
                                        assert(deps == seq![name@]);
                                        assert(deps[0] == e[i as int].0@);
                                        assert(deps.contains(e[i as int].0@));
                                        let tdeps = type_deps(entry.target_type.value@);
                                        assert(strings_view(e[i as int].1.dependencies@) == tdeps);
                                        assert forall|j: int| 0 <= j < e.len() && #[trigger] tdeps.contains(e[j].0@) implies rank[j] < rank[i as int] by {
                                            assert(alias_edge(e, i as int, j));
                                        }
                                        assert(graph.aliases.spec_get(name@) is Some);
                                        assert(0 <= rank[i as int] < bound);
                                        assert(typ@ == TypeV::Ident(PathOrIdentV::Ident(name@)));
                                    }
                                    resolve_type_deep(&entry.target_type.value, resolved, graph, Ghost(rank), Ghost(rank[i as int]))
                                },
                                None => dup_type(typ),
                            }
                        },
                    }
                },
            }
        },
        Type::Array { ty: arr } => {
            let value = match &arr.value {
                Array::Unsized { ty: inner } => {
                    let el = resolve_type_deep(&inner.value, resolved, graph, Ghost(rank), Ghost(bound));
                    Array::Unsized { ty: Box::new(Spanned::call_site(el)) }
                },
                Array::Sized { ty: inner, size } => {
                    let el = resolve_type_deep(&inner.value, resolved, graph, Ghost(rank), Ghost(bound));
                    Array::Sized { ty: Box::new(Spanned::call_site(el)), size: Spanned { span: size.span, value: size.value } }
                },
            };
            Type::Array { ty: Box::new(Spanned::call_site(value)) }
        },
        Type::Union { ty: un } => {
            let ops = &un.value.types;
            let ghost ov = union_view(ops@);
            proof {
                lemma_union_view(ops@);
            }
            let mut out: Vec<Spanned<IdentOrUnion>> = Vec::new();
            let mut k: usize = 0;
            while k < ops.len()
                invariant
                    k <= ops@.len(),
                    ov == union_view(ops@),
                    ov.len() == ops@.len(),
                    forall|x: int| 0 <= x < ops@.len() ==> #[trigger] ov[x] == operand_view(ops@[x].value),
                    typ@ == TypeV::Union(ov),
                    deps == union_deps(ov),
                    e == graph.aliases.entries(),
                    graph.aliases.wf(),
                    resolved.wf(),
                    alias_deps_consistent(e),
                    alias_ranking(e, rank),
                    forall|i: int| 0 <= i < rank.len() ==> #[trigger] rank[i] >= 0,
                    bound >= 0,
                    deps_below(e, rank, deps, bound),
                    deps_resolved(graph.aliases, *resolved, deps) ==> union_view(out@) == substitute_members(ov.subrange(0, k as int), *resolved),
                    union_view(out@) == deep_members(ov.subrange(0, k as int), *resolved, graph.aliases, rank, bound),
                decreases ops@.len() - k,
            {
                proof {
                    lemma_member_within(ov, k as int);
                    lemma_within_below(e, rank, member_deps(ov[k as int]), deps, bound);
                    if deps_resolved(graph.aliases, *resolved, deps) {
                        lemma_within_resolved(graph.aliases, *resolved, member_deps(ov[k as int]), deps);
                    }
                }
                let item = &ops[k].value;
                let value = match item {
                    IdentOrUnion::Ident(UnionDiscriminant::Anonymous(_)) => dup_operand(item),
                    IdentOrUnion::Ident(UnionDiscriminant::Ref(p)) => {
                        let as_type = Type::Ident { to: dup_path_or_ident(p) };
                        let rt = resolve_type_deep(&as_type, resolved, graph, Ghost(rank), Ghost(bound));
                        match rt {
                            Type::Ident { to } => IdentOrUnion::Ident(UnionDiscriminant::Ref(to)),
                            _ => dup_operand(item),
                        }
                    },
                    IdentOrUnion::Union { inner } => {
                        let nested = Type::Union { ty: Spanned::call_site(dup_union(&inner.value)) };
                        let rt = resolve_type_deep(&nested, resolved, graph, Ghost(rank), Ghost(bound));
                        match rt {
                            Type::Union { ty: u } => {
                                let raw = inner.span.span();
                                IdentOrUnion::Union { inner: Box::new(Spanned::new(raw.start, raw.end, u.value)) }
                            },
                            _ => dup_operand(item),
                        }
                    },
                };
                proof {
                    if deps_resolved(graph.aliases, *resolved, deps) {
                        assert(operand_view(value) == substitute_member(ov[k as int], *resolved));
                    }
                    let sub = ov.subrange(0, k + 1);
                    assert(sub.drop_last() =~= ov.subrange(0, k as int));
                    assert(sub.last() == ov[k as int]);
                }
                let ghost before = out@;
                out.push(Spanned::call_site(value));
                proof {
                    let sub = ov.subrange(0, k + 1);
                    assert(sub.drop_last() =~= ov.subrange(0, k as int));
                    assert(out@.drop_last() =~= before);
                }
                k += 1;
            }
            assert(ov.subrange(0, ov.len() as int) =~= ov);
            Type::Union { ty: Spanned::call_site(Union { types: out }) }
        },
        Type::Paren { ty: inner } => resolve_type_deep(&inner.value, resolved, graph, Ghost(rank), Ghost(bound)),
        Type::UnionOr { lhs, rhs } => {
            proof {
                lemma_within_concat(type_deps(lhs.value@), type_deps(rhs.value@));
                lemma_within_below(e, rank, type_deps(lhs.value@), deps, bound);
                lemma_within_below(e, rank, type_deps(rhs.value@), deps, bound);
                if deps_resolved(graph.aliases, *resolved, deps) {
                    lemma_within_resolved(graph.aliases, *resolved, type_deps(lhs.value@), deps);
                    lemma_within_resolved(graph.aliases, *resolved, type_deps(rhs.value@), deps);
                }
            }
            let l = resolve_type_deep(&lhs.value, resolved, graph, Ghost(rank), Ghost(bound));
            let r = resolve_type_deep(&rhs.value, resolved, graph, Ghost(rank), Ghost(bound));
            Type::UnionOr { lhs: Box::new(Spanned::call_site(l)), rhs: Box::new(Spanned::call_site(r)) }
        },
        _ => dup_type(typ),
    }
}

/// Two maps agree on the names `deps`.
pub open spec fn agree_on(m1: StrMap<Spanned<Type>>, m2: StrMap<Spanned<Type>>, deps: Seq<Seq<char>>) -> bool {
    forall|n: Seq<char>| #[trigger] deps.contains(n) ==> m1.spec_get(n) == m2.spec_get(n)
}

proof fn lemma_agree_within(m1: StrMap<Spanned<Type>>, m2: StrMap<Spanned<Type>>, a: Seq<Seq<char>>, b: Seq<Seq<char>>)
    requires
        names_within(a, b),
        agree_on(m1, m2, b),
    ensures
        agree_on(m1, m2, a),
{
    assert forall|n: Seq<char>| #[trigger] a.contains(n) implies m1.spec_get(n) == m2.spec_get(n) by {
        assert(b.contains(n));
    }
}

/// Substitution reads a map only at the names the type refers to.
proof fn lemma_substitute_agree(t: TypeV, m1: StrMap<Spanned<Type>>, m2: StrMap<Spanned<Type>>)
    requires
        agree_on(m1, m2, type_deps(t)),
    ensures
        substitute(t, m1) == substitute(t, m2),
    decreases t,
{
    match t {
        TypeV::Ident(PathOrIdentV::Ident(name)) => {
            assert(type_deps(t)[0] == name);
            assert(type_deps(t).contains(name));
        },
        TypeV::Array(el, _) => {
            lemma_substitute_agree(*el, m1, m2);
        },
        TypeV::Union(ops) => {
            lemma_members_agree(ops, m1, m2);
        },
        TypeV::Paren(inner) => {
            lemma_substitute_agree(*inner, m1, m2);
        },
        TypeV::UnionOr(l, r) => {
            lemma_within_concat(type_deps(*l), type_deps(*r));
            lemma_agree_within(m1, m2, type_deps(*l), type_deps(t));
            lemma_agree_within(m1, m2, type_deps(*r), type_deps(t));
            lemma_substitute_agree(*l, m1, m2);
            lemma_substitute_agree(*r, m1, m2);
        },
        _ => {},
    }
}

proof fn lemma_members_agree(ops: Seq<IdentOrUnionV>, m1: StrMap<Spanned<Type>>, m2: StrMap<Spanned<Type>>)
    requires
        agree_on(m1, m2, union_deps(ops)),
    ensures
        substitute_members(ops, m1) == substitute_members(ops, m2),
    decreases ops,
{
    if ops.len() > 0 {
        let init = ops.drop_last();
        let last = ops.last();
        lemma_within_concat(union_deps(init), member_deps(last));
        assert(union_deps(ops) == union_deps(init) + member_deps(last));
        lemma_agree_within(m1, m2, union_deps(init), union_deps(ops));
        lemma_agree_within(m1, m2, member_deps(last), union_deps(ops));
        lemma_members_agree(init, m1, m2);
        match last {
            IdentOrUnionV::Ref(PathOrIdentV::Ident(name)) => {
                assert(member_deps(last)[0] == name);
                assert(member_deps(last).contains(name));
                assert(m1.spec_get(name) == m2.spec_get(name));
            },
            IdentOrUnionV::Nested(inner) => {
                lemma_members_agree(inner, m1, m2);
            },
            _ => {},
        }
        assert(substitute_member(last, m1) == substitute_member(last, m2));
    }
}

/// Why aliases could not be resolved.
#[derive(Debug)]
pub enum AliasError {
    /// Aliases that refer to one another in a circle.
    Circular(crate::aliases::CircularAlias),
    /// A name that no alias has.
    Undefined { name: String },
}

/// The item is a type alias named `k`.
pub open spec fn is_alias_named(c: (crate::paths::NamedItemContext, crate::common::FromNamedSource<NamespaceChild>), k: Seq<char>) -> bool {
    &&& c.1.value is Type
    &&& c.0.name.value.0@ == k
}

/// The target of an alias item.
pub open spec fn alias_target(c: (crate::paths::NamedItemContext, crate::common::FromNamedSource<NamespaceChild>)) -> TypeV {
    match c.1.value {
        NamespaceChild::Type(d) => d.def.value.ty.value@,
        _ => TypeV::Builtin(crate::ast::Builtin::Never),
    }
}

/// The last of the first `n` items that is an alias named `k`.
pub open spec fn last_alias(ch: Children, k: Seq<char>, n: int) -> Option<int>
    decreases n,
{
    if n <= 0 {
        None
    } else if is_alias_named(ch[n - 1], k) {
        Some(n - 1)
    } else {
        last_alias(ch, k, n - 1)
    }
}

/// `g` holds, for each name, the last alias of that name among the first
/// `n` items, with the names its target refers to.
pub open spec fn graph_of(g: StrMap<AliasEntry>, ch: Children, n: int) -> bool {
    &&& g.wf()
    &&& forall|k: Seq<char>| #[trigger] g.spec_get(k) matches Some(e) ==>
        strings_view(e.dependencies@) == type_deps(e.target_type.value@)
    &&& forall|k: Seq<char>| match #[trigger] last_alias(ch, k, n) {
        None => g.spec_get(k) is None,
        Some(j) => g.spec_get(k) matches Some(e) && e.target_type.value@ == alias_target(ch[j]) && e.source@ == ch[j].1.source@,
    }
}

proof fn lemma_consistent_entries(g: StrMap<AliasEntry>)
    requires
        g.wf(),
        forall|k: Seq<char>| #[trigger] g.spec_get(k) matches Some(e) ==> strings_view(e.dependencies@) == type_deps(e.target_type.value@),
    ensures
        alias_deps_consistent(g.entries()),
{
    assert forall|i: int| 0 <= i < g.entries().len() implies strings_view(#[trigger] g.entries()[i].1.dependencies@) == type_deps(g.entries()[i].1.target_type.value@) by {
        g.lemma_unique_key(i, g.entries()[i].0@);
        assert(g.spec_get(g.entries()[i].0@) == Some(g.entries()[i].1));
    }
}

/// The aliases of the namespace, by name; of two aliases of one name the
/// later is kept.
pub fn build_alias_graph(ns: &NamespaceCtx) -> (g: AliasGraph)
    ensures
        graph_of(g.aliases, ns.children@, ns.children@.len() as int),
        alias_deps_consistent(g.aliases.entries()),
{
    let ghost ch = ns.children@;
    let mut graph = AliasGraph::new();
    let mut i: usize = 0;
    while i < ns.children.len()
        invariant
            i <= ch.len(),
            ch == ns.children@,
            graph_of(graph.aliases, ch, i as int),
        decreases ch.len() - i,
    {
        let child = &ns.children[i];
        match &child.1.value {
            NamespaceChild::Type(type_def) => {
                let name = child.0.name.value.0.clone();
                let target = dup_spanned_type(&type_def.def.value.ty);
                let source = child.1.source.clone();
                let ghost g0 = graph.aliases;
                graph.add_alias(name, target, source);
                proof {
                    let g1 = graph.aliases;
                    assert forall|k: Seq<char>| #![trigger g1.spec_get(k)] (g1.spec_get(k) matches Some(e) ==>
                        strings_view(e.dependencies@) == type_deps(e.target_type.value@)) by {
                        if k != ch[i as int].0.name.value.0@ {
                            assert(g1.spec_get(k) == g0.spec_get(k));
                        }
                    }
                    assert forall|k: Seq<char>| match #[trigger] last_alias(ch, k, i + 1) {
                        None => g1.spec_get(k) is None,
                        Some(j) => g1.spec_get(k) matches Some(e) && e.target_type.value@ == alias_target(ch[j]) && e.source@ == ch[j].1.source@,
                    } by {
                        if k != ch[i as int].0.name.value.0@ {
                            assert(g1.spec_get(k) == g0.spec_get(k));
                            assert(last_alias(ch, k, i + 1) == last_alias(ch, k, i as int));
                        } else {
                            assert(last_alias(ch, k, i + 1) == Some(i as int));
                        }
                    }
                }
            },
            _ => {
                proof {
                    assert forall|k: Seq<char>| #[trigger] last_alias(ch, k, i + 1) == last_alias(ch, k, i as int) by {}
                }
            },
        }
        i += 1;
    }
    proof {
        lemma_consistent_entries(graph.aliases);
    }
    graph
}

/// `m` holds under `key` the substitution of `target` in `m` itself.
pub open spec fn resolved_as(m: StrMap<Spanned<Type>>, key: Seq<char>, target: TypeV) -> bool {
    m.spec_get(key) matches Some(v) && v.value@ == substitute(target, m)
}

/// Resolves the alias `alias_name` against what is resolved so far and
/// records the result under its name.
fn resolve_single_alias(
    alias_name: &String,
    graph: &AliasGraph,
    resolved: &mut StrMap<Spanned<Type>>,
    Ghost(rank): Ghost<Seq<int>>,
    Ghost(bound): Ghost<int>,
) -> (r: Result<(), AliasError>)
    requires
        graph.aliases.wf(),
        old(resolved).wf(),
        alias_deps_consistent(graph.aliases.entries()),
        alias_ranking(graph.aliases.entries(), rank),
        forall|i: int| 0 <= i < rank.len() ==> #[trigger] rank[i] >= 0,
        bound >= 0,
        graph.aliases.spec_get(alias_name@) matches Some(e) ==> deps_below(graph.aliases.entries(), rank, type_deps(e.target_type.value@), bound),
    ensures
        final(resolved).wf(),
        match graph.aliases.spec_get(alias_name@) {
            None => r matches Err(AliasError::Undefined { name }) && name@ == alias_name@
                && final(resolved).entries() == old(resolved).entries(),
            Some(e) => {
                &&& r is Ok
                &&& forall|k: Seq<char>| k != alias_name@ ==> #[trigger] final(resolved).spec_get(k) == old(resolved).spec_get(k)
                &&& final(resolved).spec_get(alias_name@) matches Some(v)
                    && (deps_resolved(graph.aliases, *old(resolved), type_deps(e.target_type.value@))
                        ==> v.value@ == substitute(e.target_type.value@, *old(resolved)))
            },
        },
{
    match graph.aliases.get(alias_name) {
        None => Err(AliasError::Undefined { name: alias_name.clone() }),
        Some(entry) => {
            let t = resolve_type_deep(&entry.target_type.value, resolved, graph, Ghost(rank), Ghost(bound));
            resolved.insert(alias_name.clone(), Spanned::call_site(t));
            Ok(())
        },
    }
}

/// What resolving the aliases of `ns` makes of the map `before`: the map
/// `after` and the result `r`.
pub open spec fn aliases_outcome(ns: NamespaceCtx, before: StrMap<Spanned<Type>>, after: StrMap<Spanned<Type>>, r: Result<(), AliasError>) -> bool {
    &&& after.wf()
    &&& exists|g: StrMap<AliasEntry>| {
        &&& #[trigger] graph_of(g, ns.children@, ns.children@.len() as int)
        &&& (r is Ok <==> aliases_acyclic(g.entries()))
        &&& r matches Err(AliasError::Circular(err)) ==> exists|c: Seq<int>| {
            &&& is_alias_cycle(g.entries(), c)
            &&& strings_view(err.chain@) == rotate(cycle_names(g.entries(), c), first_min_index(cycle_names(g.entries(), c)))
            &&& places_view(err.places@) == rotate(cycle_places(g.entries(), c), first_min_index(cycle_names(g.entries(), c)))
        }
    }
    &&& r is Err ==> (r matches Err(AliasError::Circular(_)) && after.entries() == before.entries())
    &&& r is Ok ==> forall|k: Seq<char>| match #[trigger] last_alias(ns.children@, k, ns.children@.len() as int) {
        Some(j) => after.spec_get(k) matches Some(v)
            && v.value@ == substitute(alias_target(ns.children@[j]), after),
        None => after.spec_get(k) == before.spec_get(k),
    }
}

/// Resolves every alias of the namespace into `resolved`, each after the
/// aliases it refers to. Aliases that refer to one another in a circle are
/// refused, and `resolved` is left as it was.
pub fn resolve_type_aliases(ns: &NamespaceCtx, resolved: &mut StrMap<Spanned<Type>>) -> (r: Result<(), AliasError>)
    requires
        old(resolved).wf(),
    ensures
        aliases_outcome(*ns, *old(resolved), *final(resolved), r),
{
    let graph = build_alias_graph(ns);
    let ghost e = graph.aliases.entries();
    let ghost n = e.len();
    let ghost ch = ns.children@;
    match graph.detect_cycles() {
        Err(c) => {
            assert(graph_of(graph.aliases, ch, ch.len() as int));
            return Err(AliasError::Circular(c));
        },
        Ok(()) => {},
    }
    let topo = match graph.topological_sort() {
        Ok(order) => order,
        Err(c) => {
            assert(graph_of(graph.aliases, ch, ch.len() as int));
            return Err(AliasError::Circular(c));
        },
    };
    let ghost order = choose|order: Seq<int>| is_resolution_order(e, order) && strings_view(topo@) == cycle_names(e, order);
    proof {
        lemma_resolution_order_ranks(e, order);
        assert(strings_view(topo@).len() == topo@.len());
        assert(cycle_names(e, order).len() == order.len());
    }
    let ghost rank = position_rank(order, n);
    let ghost m0 = *resolved;
    let mut t: usize = 0;
    while t < topo.len()
        invariant
            e == graph.aliases.entries(),
            n == e.len(),
            graph.aliases.wf(),
            alias_deps_consistent(e),
            is_resolution_order(e, order),
            strings_view(topo@) == cycle_names(e, order),
            rank == position_rank(order, n),
            alias_ranking(e, rank),
            forall|x: int| 0 <= x < n ==> {
                let p = #[trigger] position_rank(order, n)[x];
                0 <= p < n && order[p] == x
            },
            t <= topo@.len(),
            topo@.len() == n,
            resolved.wf(),
            forall|s: int| 0 <= s < t ==> #[trigger] resolved_as(*resolved, e[order[s]].0@, e[order[s]].1.target_type.value@),
            forall|k: Seq<char>| (forall|s: int| 0 <= s < t ==> e[order[s]].0@ != k) ==> #[trigger] resolved.spec_get(k) == m0.spec_get(k),
        decreases topo@.len() - t,
    {
        let ghost b = order[t as int];
        let ghost m_before = *resolved;
        let ghost target = e[b].1.target_type.value@;
        proof {
            assert(0 <= b < n);
            assert(strings_view(topo@)[t as int] == e[b].0@);
            graph.aliases.lemma_unique_key(b, e[b].0@);
            assert(graph.aliases.spec_get(topo@[t as int]@) == Some(e[b].1));
            let pr = position_rank(order, n);
            assert(order[pr[b]] == b);
            assert(pr[b] == t as int) by {
                if pr[b] != t as int {
                    assert(order[pr[b]] == order[t as int]);
                }
            }
            assert(forall|i: int| 0 <= i < rank.len() ==> #[trigger] rank[i] >= 0) by {
                assert forall|i: int| 0 <= i < rank.len() implies #[trigger] rank[i] >= 0 by {
                    assert(position_rank(order, n)[i] >= 0);
                }
            }
            assert(strings_view(e[b].1.dependencies@) == type_deps(target));
            assert forall|j: int| 0 <= j < e.len() && #[trigger] type_deps(target).contains(e[j].0@) implies rank[j] < t by {
                assert(alias_edge(e, b, j));
            }
            assert forall|nm: Seq<char>| #[trigger] type_deps(target).contains(nm) && graph.aliases.spec_get(nm) is Some implies resolved.spec_get(nm) is Some by {
                let j = key_index(e, nm).unwrap();
                crate::ordmap::lemma_key_index_from(e, nm, 0);
                assert(e[j].0@ == nm);
                assert(alias_edge(e, order[t as int], j));
                let sp = choose|sp: int| 0 <= sp < t && order[sp] == j;
                assert(resolved_as(*resolved, e[order[sp]].0@, e[order[sp]].1.target_type.value@));
            }
        }
        let step = resolve_single_alias(&topo[t], &graph, resolved, Ghost(rank), Ghost(t as int));
        proof {
            let m_after = *resolved;
            let name_b = e[b].0@;
            assert(step is Ok);
            assert(m_after.spec_get(name_b) matches Some(v) && v.value@ == substitute(target, m_before));
            // the new resolution reads no changed name
            assert(!type_deps(target).contains(name_b)) by {
                if type_deps(target).contains(name_b) {
                    assert(alias_edge(e, b, b));
                }
            }
            assert forall|nm: Seq<char>| #[trigger] type_deps(target).contains(nm) implies m_before.spec_get(nm) == m_after.spec_get(nm) by {
                assert(nm != name_b);
            }
            lemma_substitute_agree(target, m_before, m_after);
            assert forall|s: int| 0 <= s < t + 1 implies #[trigger] resolved_as(m_after, e[order[s]].0@, e[order[s]].1.target_type.value@) by {
                if s < t {
                    let a = order[s];
                    let ta = e[a].1.target_type.value@;
                    assert(0 <= a < n);
                    assert(a != b);
                    assert(e[a].0@ != name_b) by {
                        graph.aliases.lemma_unique_key(a, e[a].0@);
                        graph.aliases.lemma_unique_key(b, e[b].0@);
                    }
                    assert(resolved_as(m_before, e[a].0@, ta));
                    assert(strings_view(e[a].1.dependencies@) == type_deps(ta));
                    assert forall|nm: Seq<char>| #[trigger] type_deps(ta).contains(nm) implies m_before.spec_get(nm) == m_after.spec_get(nm) by {
                        if nm == name_b {
                            assert(alias_edge(e, order[s], b));
                            let bb = choose|bb: int| 0 <= bb < s && order[bb] == b;
                            assert(order[bb] == order[t as int]);
                        }
                    }
                    lemma_substitute_agree(ta, m_before, m_after);
                }
            }
            assert forall|k: Seq<char>| (forall|s: int| 0 <= s < t + 1 ==> e[order[s]].0@ != k) implies #[trigger] m_after.spec_get(k) == m0.spec_get(k) by {
                assert(e[order[t as int]].0@ != k);
                assert(forall|s: int| 0 <= s < t ==> e[order[s]].0@ != k);
            }
        }
        t += 1;
    }
    proof {
        assert(graph_of(graph.aliases, ch, ch.len() as int));
        assert forall|k: Seq<char>| match #[trigger] last_alias(ch, k, ch.len() as int) {
            Some(j) => resolved.spec_get(k) matches Some(v) && v.value@ == substitute(alias_target(ch[j]), *resolved),
            None => resolved.spec_get(k) == m0.spec_get(k),
        } by {
            match last_alias(ch, k, ch.len() as int) {
                Some(j) => {
                    assert(graph.aliases.spec_get(k) is Some);
                    let i = key_index(e, k).unwrap();
                    crate::ordmap::lemma_key_index_from(e, k, 0);
                    let s = position_rank(order, n)[i];
                    assert(order[s] == i);
                    assert(resolved_as(*resolved, e[order[s]].0@, e[order[s]].1.target_type.value@));
                },
                None => {
                    assert(graph.aliases.spec_get(k) is None);
                    assert forall|s: int| 0 <= s < n implies e[order[s]].0@ != k by {
                        if e[order[s]].0@ == k {
                            graph.aliases.lemma_unique_key(order[s], k);
                        }
                    }
                },
            }
        }
    }
    Ok(())
}

} // verus!
